//! NetEase `weapi` request encryption.
//!
//! The chain must be exact, or the endpoint answers `{"code":400}`:
//!
//! ```text
//! 1. secretKey = 16 characters of [0-9a-zA-Z]
//! 2. encSecKey = RSA(secretKey reversed, read as a big-endian number):
//!                n^0x10001 mod MODULUS, lowercase hex, left-padded with
//!                zeros to 256 characters
//! 3. params    = Base64(AES-128-CBC(Base64(AES-128-CBC(json, key = NONCE)),
//!                                   key = secretKey)),
//!                IV "0102030405060708", PKCS#7 padding
//! ```

use vstd::prelude::*;
use vstd::utf8::*;
use aes::cipher::{BlockEncryptMut, KeyIvInit};
use crate::domain::track::{blake3_digest, blake3_hash};
use crate::text::{chars_of, string_of};

verus! {

/// The fixed key of the first AES layer.
pub const NONCE: &'static str = "0CoJUm6Qyw8W8jud";

/// The fixed CBC initialisation vector.
pub const IV: &'static str = "0102030405060708";

/// Length of the per-request secret key.
pub const SECRET_KEY_LEN: usize = 16;

/// `b` to the power `e`.
pub open spec fn power(b: nat, e: nat) -> nat
    decreases e,
{
    if e == 0 {
        1
    } else {
        b * power(b, (e - 1) as nat)
    }
}

/// The number that big-endian bytes stand for.
pub open spec fn be_value(s: Seq<u8>) -> nat
    decreases s.len(),
{
    if s.len() == 0 {
        0
    } else {
        be_value(s.drop_last()) * 256 + s.last() as nat
    }
}

/// A hexadecimal digit, lowercase.
pub open spec fn hex_char(d: nat) -> char {
    if d < 10 {
        (d + 48) as char
    } else {
        (d + 87) as char
    }
}

/// The lowercase hexadecimal digits of `n`, without leading zeros (`"0"` for
/// zero), as `format!("{:x}")` writes a `BigUint`.
pub open spec fn hex_lower(n: nat) -> Seq<char>
    decreases n,
{
    if n < 16 {
        seq![hex_char(n)]
    } else {
        hex_lower(n / 16) + seq![hex_char(n % 16)]
    }
}

/// `s` left-padded with `'0'` to at least `w` characters (`{:0>w}`).
pub open spec fn pad_zeros(s: Seq<char>, w: nat) -> Seq<char> {
    if s.len() < w {
        Seq::new((w - s.len()) as nat, |i: int| '0') + s
    } else {
        s
    }
}

/// `(base ^ exp) mod modulus` in lowercase hexadecimal: `BigUint::modpow` on
/// the big-endian numbers, written out by `to_str_radix(16)`. The modulus
/// must not be zero (`modpow` panics on zero).
#[verifier::external_body]
fn modpow_hex(base: &[u8], exp: &[u8], modulus: &[u8]) -> (r: String)
    requires
        be_value(modulus@) > 0,
    ensures
        r@ == hex_lower((power(be_value(base@), be_value(exp@)) % be_value(modulus@)) as nat),
{
    let a = num_bigint::BigUint::from_bytes_be(base);
    let e = num_bigint::BigUint::from_bytes_be(exp);
    let n = num_bigint::BigUint::from_bytes_be(modulus);
    a.modpow(&e, &n).to_str_radix(16)
}

/// Names what AES-128 in CBC mode with PKCS#7 padding makes of `plain`
/// under `key` and `iv`.
pub uninterp spec fn aes128_cbc_pkcs7(plain: Seq<u8>, key: Seq<u8>, iv: Seq<u8>) -> Seq<u8>;

/// Encrypts with `cbc::Encryptor<aes::Aes128>` and PKCS#7 padding. The
/// ciphertext is named; PKCS#7 always pads to the next whole block.
#[verifier::external_body]
fn aes128_cbc_encrypt(plain: &[u8], key: &[u8], iv: &[u8]) -> (r: Vec<u8>)
    requires
        key@.len() == 16,
        iv@.len() == 16,
    ensures
        r@ == aes128_cbc_pkcs7(plain@, key@, iv@),
        r@.len() == (plain@.len() / 16 + 1) * 16,
{
    let mut buf = plain.to_vec();
    buf.resize(plain.len() + 16, 0);
    let enc = cbc::Encryptor::<aes::Aes128>::new(key.into(), iv.into());
    match enc.encrypt_padded_mut::<aes::cipher::block_padding::Pkcs7>(&mut buf, plain.len()) {
        Ok(ct) => ct.to_vec(),
        Err(_) => Vec::new(),
    }
}

/// The character of a six-bit value in the standard Base64 alphabet.
pub open spec fn b64_char(n: nat) -> char {
    if n < 26 {
        (65 + n) as char
    } else if n < 52 {
        (97 + n - 26) as char
    } else if n < 62 {
        (48 + n - 52) as char
    } else if n == 62 {
        '+'
    } else {
        '/'
    }
}

/// Standard Base64 with `=` padding (RFC 4648): each three bytes become
/// four characters; a last group of one or two bytes is padded.
pub open spec fn base64_standard(b: Seq<u8>) -> Seq<char>
    decreases b.len(),
{
    if b.len() == 0 {
        Seq::empty()
    } else if b.len() == 1 {
        let x = b[0] as nat;
        seq![b64_char(x / 4), b64_char((x % 4) * 16), '=', '=']
    } else if b.len() == 2 {
        let x = b[0] as nat;
        let y = b[1] as nat;
        seq![b64_char(x / 4), b64_char((x % 4) * 16 + y / 16), b64_char((y % 16) * 4), '=']
    } else {
        let x = b[0] as nat;
        let y = b[1] as nat;
        let z = b[2] as nat;
        seq![
            b64_char(x / 4),
            b64_char((x % 4) * 16 + y / 16),
            b64_char((y % 16) * 4 + z / 64),
            b64_char(z % 64),
        ] + base64_standard(b.skip(3))
    }
}

/// `base64::Engine::encode` with the standard padded alphabet.
#[verifier::external_body]
fn base64_encode(bytes: &[u8]) -> (r: String)
    ensures
        r@ == base64_standard(bytes@),
{
    base64::Engine::encode(&base64::engine::general_purpose::STANDARD, bytes)
}

/// The RSA modulus, big-endian.
pub open spec fn modulus_bytes() -> Seq<u8> {
    seq![
        0x00, 0xe0, 0xb5, 0x09, 0xf6, 0x25, 0x9d, 0xf8, 0x64, 0x2d, 0xbc, 0x35, 0x66, 0x29, 0x01, 0x47,
        0x7d, 0xf2, 0x26, 0x77, 0xec, 0x15, 0x2b, 0x5f, 0xf6, 0x8a, 0xce, 0x61, 0x5b, 0xb7, 0xb7, 0x25,
        0x15, 0x2b, 0x3a, 0xb1, 0x7a, 0x87, 0x6a, 0xea, 0x8a, 0x5a, 0xa7, 0x6d, 0x2e, 0x41, 0x76, 0x29,
        0xec, 0x4e, 0xe3, 0x41, 0xf5, 0x61, 0x35, 0xfc, 0xcf, 0x69, 0x52, 0x80, 0x10, 0x4e, 0x03, 0x12,
        0xec, 0xbd, 0xa9, 0x25, 0x57, 0xc9, 0x38, 0x70, 0x11, 0x4a, 0xf6, 0xc9, 0xd0, 0x5c, 0x4f, 0x7f,
        0x0c, 0x36, 0x85, 0xb7, 0xa4, 0x6b, 0xee, 0x25, 0x59, 0x32, 0x57, 0x5c, 0xce, 0x10, 0xb4, 0x24,
        0xd8, 0x13, 0xcf, 0xe4, 0x87, 0x5d, 0x3e, 0x82, 0x04, 0x7b, 0x97, 0xdd, 0xef, 0x52, 0x74, 0x1d,
        0x54, 0x6b, 0x8e, 0x28, 0x9d, 0xc6, 0x93, 0x5b, 0x3e, 0xce, 0x04, 0x62, 0xdb, 0x0a, 0x22, 0xb8,
        0xe7
    ]
}

fn modulus() -> (r: Vec<u8>)
    ensures
        r@ == modulus_bytes(),
{
    vec![
        0x00, 0xe0, 0xb5, 0x09, 0xf6, 0x25, 0x9d, 0xf8, 0x64, 0x2d, 0xbc, 0x35, 0x66, 0x29, 0x01, 0x47,
        0x7d, 0xf2, 0x26, 0x77, 0xec, 0x15, 0x2b, 0x5f, 0xf6, 0x8a, 0xce, 0x61, 0x5b, 0xb7, 0xb7, 0x25,
        0x15, 0x2b, 0x3a, 0xb1, 0x7a, 0x87, 0x6a, 0xea, 0x8a, 0x5a, 0xa7, 0x6d, 0x2e, 0x41, 0x76, 0x29,
        0xec, 0x4e, 0xe3, 0x41, 0xf5, 0x61, 0x35, 0xfc, 0xcf, 0x69, 0x52, 0x80, 0x10, 0x4e, 0x03, 0x12,
        0xec, 0xbd, 0xa9, 0x25, 0x57, 0xc9, 0x38, 0x70, 0x11, 0x4a, 0xf6, 0xc9, 0xd0, 0x5c, 0x4f, 0x7f,
        0x0c, 0x36, 0x85, 0xb7, 0xa4, 0x6b, 0xee, 0x25, 0x59, 0x32, 0x57, 0x5c, 0xce, 0x10, 0xb4, 0x24,
        0xd8, 0x13, 0xcf, 0xe4, 0x87, 0x5d, 0x3e, 0x82, 0x04, 0x7b, 0x97, 0xdd, 0xef, 0x52, 0x74, 0x1d,
        0x54, 0x6b, 0x8e, 0x28, 0x9d, 0xc6, 0x93, 0x5b, 0x3e, 0xce, 0x04, 0x62, 0xdb, 0x0a, 0x22, 0xb8,
        0xe7
    ]
}

/// The public exponent 0x010001.
fn public_exponent() -> (r: Vec<u8>)
    ensures
        r@ == seq![1u8, 0u8, 1u8],
{
    vec![0x01, 0x00, 0x01]
}


pub open spec fn nonce_bytes() -> Seq<u8> {
    seq![
        0x30u8, 0x43, 0x6f, 0x4a, 0x55, 0x6d, 0x36, 0x51, 0x79, 0x77, 0x38, 0x57, 0x38, 0x6a, 0x75,
        0x64,
    ]
}

pub open spec fn iv_bytes() -> Seq<u8> {
    seq![
        0x30u8, 0x31, 0x30, 0x32, 0x30, 0x33, 0x30, 0x34, 0x30, 0x35, 0x30, 0x36, 0x30, 0x37, 0x30,
        0x38,
    ]
}

/// The bytes of [`NONCE`].
fn nonce() -> (r: Vec<u8>)
    ensures
        r@ == nonce_bytes(),
{
    vec![0x30, 0x43, 0x6f, 0x4a, 0x55, 0x6d, 0x36, 0x51, 0x79, 0x77, 0x38, 0x57, 0x38, 0x6a, 0x75, 0x64]
}

/// The bytes of [`IV`].
fn iv() -> (r: Vec<u8>)
    ensures
        r@ == iv_bytes(),
{
    vec![0x30, 0x31, 0x30, 0x32, 0x30, 0x33, 0x30, 0x34, 0x30, 0x35, 0x30, 0x36, 0x30, 0x37, 0x30, 0x38]
}

proof fn lemma_be_leading_zero(t: Seq<u8>)
    ensures
        be_value(seq![0u8] + t) == be_value(t),
    decreases t.len(),
{
    if t.len() > 0 {
        assert((seq![0u8] + t).drop_last() == seq![0u8] + t.drop_last());
        assert((seq![0u8] + t).last() == t.last());
        lemma_be_leading_zero(t.drop_last());
    } else {
        assert(seq![0u8] + t == seq![0u8]);
        assert(seq![0u8].drop_last().len() == 0);
        assert(be_value(seq![0u8].drop_last()) == 0);
        assert(be_value(seq![0u8]) == 0);
    }
}

proof fn lemma_be_bound(s: Seq<u8>)
    ensures
        be_value(s) < power(256, s.len()),
    decreases s.len(),
{
    if s.len() > 0 {
        lemma_be_bound(s.drop_last());
        let a = be_value(s.drop_last());
        let p = power(256, s.drop_last().len());
        assert(a * 256 + s.last() < p * 256) by (nonlinear_arith)
            requires
                a < p,
                s.last() < 256,
        ;
    }
}

proof fn lemma_be_positive(s: Seq<u8>, k: int)
    requires
        0 <= k < s.len(),
        s[k] != 0,
    ensures
        be_value(s) > 0,
    decreases s.len(),
{
    if k < s.len() - 1 {
        assert(s.drop_last()[k] == s[k]);
        lemma_be_positive(s.drop_last(), k);
    }
}

proof fn lemma_power_256_16(n: nat)
    ensures
        power(256, n) == power(16, 2 * n),
    decreases n,
{
    if n > 0 {
        lemma_power_256_16((n - 1) as nat);
        assert(power(16, 2 * n) == 16 * power(16, (2 * n - 1) as nat));
        assert(power(16, (2 * n - 1) as nat) == 16 * power(16, (2 * n - 2) as nat));
        assert((2 * n - 2) as nat == 2 * ((n - 1) as nat));
    }
}

proof fn lemma_hex_len(n: nat, k: nat)
    requires
        k >= 1,
        n < power(16, k),
    ensures
        hex_lower(n).len() <= k,
    decreases n,
{
    if n >= 16 {
        if k == 1 {
            assert(power(16, 1) == 16 * power(16, 0));
        }
        let k1 = (k - 1) as nat;
        assert(power(16, k) == 16 * power(16, k1));
        let p = power(16, k1);
        assert(n / 16 < p) by (nonlinear_arith)
            requires
                n < 16 * p,
        ;
        lemma_hex_len(n / 16, k1);
    }
}

proof fn lemma_modulus_facts()
    ensures
        be_value(modulus_bytes()) > 0,
        be_value(modulus_bytes()) < power(16, 256),
{
    let m = modulus_bytes();
    lemma_be_positive(m, 1);
    let t = m.drop_first();
    assert(m == seq![0u8] + t);
    lemma_be_leading_zero(t);
    lemma_be_bound(t);
    lemma_power_256_16(128);
}

/// Character codes read as a little-endian number: the first character is
/// the lowest byte.
pub open spec fn le_codes(s: Seq<char>) -> nat
    decreases s.len(),
{
    if s.len() == 0 {
        0
    } else {
        (s[0] as u32 as nat) + 256 * le_codes(s.drop_first())
    }
}

/// Character codes read as a big-endian number.
spec fn be_codes(s: Seq<char>) -> nat
    decreases s.len(),
{
    if s.len() == 0 {
        0
    } else {
        be_codes(s.drop_last()) * 256 + (s.last() as u32 as nat)
    }
}

proof fn lemma_be_value_codes(b: Seq<u8>, r: Seq<char>)
    requires
        b.len() == r.len(),
        forall|i: int| 0 <= i < r.len() ==> (#[trigger] b[i] as nat) == (r[i] as u32 as nat),
    ensures
        be_value(b) == be_codes(r),
    decreases r.len(),
{
    if r.len() > 0 {
        lemma_be_value_codes(b.drop_last(), r.drop_last());
        assert(b[b.len() - 1] as nat == r[r.len() - 1] as u32 as nat);
    }
}

proof fn lemma_be_codes_reverse(s: Seq<char>)
    ensures
        be_codes(s.reverse()) == le_codes(s),
    decreases s.len(),
{
    if s.len() > 0 {
        lemma_be_codes_reverse(s.drop_first());
        let r = s.reverse();
        assert(r.drop_last() =~= s.drop_first().reverse());
        assert(r.last() == s[0]);
    }
}

/// The RSA input is the secret key read little-endian: for an ASCII key (as
/// `weapi_form` makes them), `encSecKey` is the padded lowercase hex of
/// (the key's codes, first character lowest)^65537 mod N. Reading the key
/// big-endian instead gives a number the server cannot turn back into the
/// key.
pub proof fn lemma_rsa_reads_key_little_endian(k: Seq<char>)
    requires
        is_ascii_chars(k),
    ensures
        rsa_spec(k) == pad_zeros(
            hex_lower((power(le_codes(k), 65537) % be_value(modulus_bytes())) as nat),
            256,
        ),
{
    let r = k.reverse();
    assert(is_ascii_chars(r)) by {
        assert forall|i: int| 0 <= i < r.len() implies '\0' <= #[trigger] r[i] <= '\u{7f}' by {
            assert(r[i] == k[k.len() - 1 - i]);
        }
    }
    is_ascii_chars_encode_utf8(r);
    let b = encode_utf8(r);
    assert forall|i: int| 0 <= i < r.len() implies (#[trigger] b[i] as nat) == (r[i] as u32 as nat) by {
        assert(r[i] as u8 == b[i]);
        let c = r[i];
        assert('\0' <= c <= '\u{7f}');
        assert((c as u32) < 128);
    }
    lemma_be_value_codes(b, r);
    lemma_be_codes_reverse(k);
}

/// What `rsa_encode` sends as `encSecKey` for a secret key.
pub open spec fn rsa_spec(secret_key: Seq<char>) -> Seq<char> {
    pad_zeros(
        hex_lower(
            (power(be_value(encode_utf8(secret_key.reverse())), 65537)
                % be_value(modulus_bytes())) as nat,
        ),
        256,
    )
}

/// RSA with the public key: the secret key reversed, its UTF-8 bytes read
/// as a big-endian number, raised to 0x10001 modulo the modulus, in
/// lowercase hex left-padded with zeros to 256 characters (one character
/// short and the server cannot decrypt it).
pub fn rsa_encode(secret_key: &str) -> (r: String)
    ensures
        r@ == rsa_spec(secret_key@),
        r@.len() == 256,
{
    let v = chars_of(secret_key);
    let mut rev: Vec<char> = Vec::new();
    let mut i: usize = v.len();
    while i > 0
        invariant
            i <= v.len(),
            rev@ == v@.subrange(i as int, v.len() as int).reverse(),
        decreases i,
    {
        i = i - 1;
        rev.push(v[i]);
        assert(v@.subrange(i as int, v.len() as int).reverse() =~= v@.subrange(
            i + 1,
            v.len() as int,
        ).reverse().push(v@[i as int]));
    }
    assert(v@.subrange(0, v.len() as int) == v@);
    let rs = string_of(&rev);
    let e = public_exponent();
    assert(be_value(seq![1u8, 0u8, 1u8]) == 65537) by {
        reveal_with_fuel(be_value, 4);
        assert(seq![1u8, 0u8, 1u8].drop_last() == seq![1u8, 0u8]);
        assert(seq![1u8, 0u8].drop_last() == seq![1u8]);
        assert(seq![1u8].drop_last().len() == 0);
    }
    let m = modulus();
    proof {
        lemma_modulus_facts();
    }
    let c = modpow_hex(rs.as_str().as_bytes(), e.as_slice(), m.as_slice());
    let ghost value = (power(be_value(encode_utf8(rs@)), 65537) % be_value(modulus_bytes())) as nat;
    proof {
        lemma_hex_len(value, 256);
    }
    let cv = chars_of(c.as_str());
    let mut out: Vec<char> = Vec::new();
    let mut k: usize = cv.len();
    while k < 256
        invariant
            cv.len() <= k <= 256,
            out@ == Seq::new((k - cv.len()) as nat, |j: int| '0'),
        decreases 256 - k,
    {
        out.push('0');
        assert(out@ =~= Seq::new((k + 1 - cv.len()) as nat, |j: int| '0'));
        k = k + 1;
    }
    let mut j: usize = 0;
    let ghost pad = out@;
    while j < cv.len()
        invariant
            j <= cv.len(),
            out@ == pad + cv@.take(j as int),
        decreases cv.len() - j,
    {
        out.push(cv[j]);
        assert(cv@.take(j + 1) == cv@.take(j as int).push(cv@[j as int]));
        j = j + 1;
    }
    assert(cv@.take(cv.len() as int) == cv@);
    assert(out@ =~= pad_zeros(cv@, 256));
    string_of(&out)
}

/// The character at position `i` of `0-9a-zA-Z`.
pub open spec fn key_char(i: nat) -> char {
    if i < 10 {
        (i + 48) as char
    } else if i < 36 {
        (i + 87) as char
    } else {
        (i + 29) as char
    }
}

/// The secret key made from a digest: sixteen characters of `0-9a-zA-Z`,
/// each picked by one digest byte.
pub open spec fn key_from_digest(d: Seq<u8>) -> Seq<char> {
    Seq::new(16, |i: int| key_char((d[i] % 62) as nat))
}

/// A per-request secret key from `seed` (the caller's clock, a counter, the
/// process and an address, so that keys never repeat). No cryptographic
/// randomness is needed: the server only requires both AES layers to share
/// the key, but a fixed key would let requests be linked.
pub fn secret_key_from_seed(seed: &[u8]) -> (r: String)
    ensures
        r@ == key_from_digest(blake3_digest(seed@)),
        r@.len() == SECRET_KEY_LEN,
{
    let d = blake3_hash(seed);
    let mut out: Vec<char> = Vec::new();
    let mut i: usize = 0;
    while i < 16
        invariant
            i <= 16,
            d@ == blake3_digest(seed@),
            d@.len() == 32,
            out@ == key_from_digest(d@).take(i as int),
        decreases 16 - i,
    {
        let x: u8 = d[i] % 62;
        let c: char = if x < 10 {
            (x + 48) as char
        } else if x < 36 {
            (x + 87) as char
        } else {
            (x + 29) as char
        };
        assert(c == key_char(x as nat));
        out.push(c);
        assert(key_from_digest(d@).take(i + 1) =~= key_from_digest(d@).take(i as int).push(c));
        i = i + 1;
    }
    assert(key_from_digest(d@).take(16) =~= key_from_digest(d@));
    string_of(&out)
}

/// The `params` field for a JSON payload and a secret key.
pub open spec fn params_spec(json: Seq<char>, secret_key: Seq<char>) -> Seq<char> {
    let once = base64_standard(aes128_cbc_pkcs7(encode_utf8(json), nonce_bytes(), iv_bytes()));
    base64_standard(aes128_cbc_pkcs7(encode_utf8(once), encode_utf8(secret_key), iv_bytes()))
}

/// The encrypted form fields for a JSON payload (as text) and a secret key
/// whose UTF-8 encoding is 16 bytes long.
pub fn weapi_form(json: &str, secret_key: &str) -> (r: Vec<(&'static str, String)>)
    requires
        encode_utf8(secret_key@).len() == 16,
    ensures
        r@.len() == 2,
        r@[0].0@ == "params"@,
        r@[0].1@ == params_spec(json@, secret_key@),
        r@[1].0@ == "encSecKey"@,
        r@[1].1@ == rsa_spec(secret_key@),
{
    let enc_sec_key = rsa_encode(secret_key);
    let n = nonce();
    let v = iv();
    let once = base64_encode(aes128_cbc_encrypt(json.as_bytes(), n.as_slice(), v.as_slice()).as_slice());
    let params = base64_encode(
        aes128_cbc_encrypt(once.as_str().as_bytes(), secret_key.as_bytes(), v.as_slice()).as_slice(),
    );
    let mut out: Vec<(&'static str, String)> = Vec::new();
    out.push(("params", params));
    out.push(("encSecKey", enc_sec_key));
    out
}

} // verus!
