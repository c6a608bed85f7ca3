//! Input clean-up for lyric text: encoding sniffing, line endings, invisible characters.
//!
//! This is clean-up of the lyric format itself; text normalisation for matching
//! lives in `domain::normalize`.

use vstd::prelude::*;
use vstd::utf8::*;
use crate::text::{chars_of, string_of, trim, trim_vec, slice_vec};

verus! {

/// The text encodings that lyric files arrive in besides UTF-8.
#[derive(Clone, Copy, Debug, PartialEq, Eq, Structural)]
pub enum TextEncoding {
    Utf16Le,
    Utf16Be,
    Gb18030,
}

/// What `encoding_rs` decodes the given bytes to, for the given encoding.
pub uninterp spec fn decoded_text(enc: TextEncoding, bytes: Seq<u8>) -> Seq<char>;

/// What `String::from_utf8_lossy` makes of the given bytes.
pub uninterp spec fn utf8_lossy(bytes: Seq<u8>) -> Seq<char>;

/// Calls `encoding_rs::Encoding::decode` for the chosen encoding; the contract
/// names its result and claims nothing more of it.
#[verifier::external_body]
fn decode_with(enc: TextEncoding, bytes: &[u8]) -> (r: String)
    ensures
        r@ == decoded_text(enc, bytes@),
{
    let e: &'static encoding_rs::Encoding = match enc {
        TextEncoding::Utf16Le => encoding_rs::UTF_16LE,
        TextEncoding::Utf16Be => encoding_rs::UTF_16BE,
        TextEncoding::Gb18030 => encoding_rs::GB18030,
    };
    let (cow, _, _) = e.decode(bytes);
    cow.into_owned()
}

/// Calls `String::from_utf8_lossy`: on valid UTF-8 it is the plain decoding,
/// as std documents; on other input only its name is claimed.
#[verifier::external_body]
pub(crate) fn lossy_utf8(bytes: &[u8]) -> (r: String)
    ensures
        r@ == utf8_lossy(bytes@),
        valid_utf8(bytes@) ==> r@ == decode_utf8(bytes@),
{
    String::from_utf8_lossy(bytes).into_owned()
}

/// Calls `std::str::from_utf8`: `Some` exactly on valid UTF-8, holding its decoding.
#[verifier::external_body]
fn strict_utf8(bytes: &[u8]) -> (r: Option<String>)
    ensures
        match r {
            Some(s) => valid_utf8(bytes@) && s@ == decode_utf8(bytes@),
            None => !valid_utf8(bytes@),
        },
{
    match std::str::from_utf8(bytes) {
        Ok(s) => Some(s.to_string()),
        Err(_) => None,
    }
}

pub open spec fn has_prefix_bytes(b: Seq<u8>, p: Seq<u8>) -> bool {
    p.len() <= b.len() && b.subrange(0, p.len() as int) == p
}

/// The text a lyric file's bytes stand for: byte-order mark first, then strict
/// UTF-8, then GB18030.
pub open spec fn decode_bytes_spec(b: Seq<u8>) -> Seq<char> {
    if has_prefix_bytes(b, seq![0xEFu8, 0xBBu8, 0xBFu8]) {
        utf8_lossy(b.subrange(3, b.len() as int))
    } else if has_prefix_bytes(b, seq![0xFFu8, 0xFEu8]) {
        decoded_text(TextEncoding::Utf16Le, b.subrange(2, b.len() as int))
    } else if has_prefix_bytes(b, seq![0xFEu8, 0xFFu8]) {
        decoded_text(TextEncoding::Utf16Be, b.subrange(2, b.len() as int))
    } else if valid_utf8(b) {
        decode_utf8(b)
    } else {
        decoded_text(TextEncoding::Gb18030, b)
    }
}

/// Decodes the bytes of a lyric file.
///
/// Old `.lrc` files often use GBK/GB18030. Order: byte-order mark, strict UTF-8,
/// GB18030 as the fallback.
pub fn decode_bytes(bytes: &[u8]) -> (r: String)
    ensures
        r@ == decode_bytes_spec(bytes@),
{
    let n = bytes.len();
    if n >= 3 && bytes[0] == 0xEF && bytes[1] == 0xBB && bytes[2] == 0xBF {
        assert(bytes@.subrange(0, 3) == seq![0xEFu8, 0xBBu8, 0xBFu8]);
        let rest = slice_from(bytes, 3);
        return lossy_utf8(rest.as_slice());
    }
    assert(!has_prefix_bytes(bytes@, seq![0xEFu8, 0xBBu8, 0xBFu8])) by {
        if n >= 3 {
            let p = seq![0xEFu8, 0xBBu8, 0xBFu8];
            if bytes@.subrange(0, 3) == p {
                assert(bytes@.subrange(0, 3)[0] == bytes@[0]);
                assert(bytes@.subrange(0, 3)[1] == bytes@[1]);
                assert(bytes@.subrange(0, 3)[2] == bytes@[2]);
            }
        }
    }
    if n >= 2 && bytes[0] == 0xFF && bytes[1] == 0xFE {
        assert(bytes@.subrange(0, 2) == seq![0xFFu8, 0xFEu8]);
        let rest = slice_from(bytes, 2);
        return decode_with(TextEncoding::Utf16Le, rest.as_slice());
    }
    assert(!has_prefix_bytes(bytes@, seq![0xFFu8, 0xFEu8])) by {
        if n >= 2 && bytes@.subrange(0, 2) == seq![0xFFu8, 0xFEu8] {
            assert(bytes@.subrange(0, 2)[0] == bytes@[0]);
            assert(bytes@.subrange(0, 2)[1] == bytes@[1]);
        }
    }
    if n >= 2 && bytes[0] == 0xFE && bytes[1] == 0xFF {
        assert(bytes@.subrange(0, 2) == seq![0xFEu8, 0xFFu8]);
        let rest = slice_from(bytes, 2);
        return decode_with(TextEncoding::Utf16Be, rest.as_slice());
    }
    assert(!has_prefix_bytes(bytes@, seq![0xFEu8, 0xFFu8])) by {
        if n >= 2 && bytes@.subrange(0, 2) == seq![0xFEu8, 0xFFu8] {
            assert(bytes@.subrange(0, 2)[0] == bytes@[0]);
            assert(bytes@.subrange(0, 2)[1] == bytes@[1]);
        }
    }
    match strict_utf8(bytes) {
        Some(s) => s,
        None => decode_with(TextEncoding::Gb18030, bytes),
    }
}

/// A copy of `bytes[from..]`.
fn slice_from(bytes: &[u8], from: usize) -> (r: Vec<u8>)
    requires
        from <= bytes.len(),
    ensures
        r@ == bytes@.subrange(from as int, bytes@.len() as int),
{
    let mut r: Vec<u8> = Vec::new();
    let mut i = from;
    while i < bytes.len()
        invariant
            from <= i <= bytes.len(),
            r@ == bytes@.subrange(from as int, i as int),
        decreases bytes.len() - i,
    {
        r.push(bytes[i]);
        i = i + 1;
    }
    r
}

/// `\r\n` and lone `\r` become `\n`.
pub open spec fn nl_norm(s: Seq<char>) -> Seq<char>
    decreases s.len(),
{
    if s.len() == 0 {
        Seq::empty()
    } else if s[0] == '\r' && s.len() > 1 && s[1] == '\n' {
        seq!['\n'] + nl_norm(s.skip(2))
    } else if s[0] == '\r' {
        seq!['\n'] + nl_norm(s.skip(1))
    } else {
        seq![s[0]] + nl_norm(s.skip(1))
    }
}

/// Leading byte-order marks removed.
pub open spec fn strip_bom(s: Seq<char>) -> Seq<char>
    decreases s.len(),
{
    if s.len() > 0 && s[0] == '\u{FEFF}' {
        strip_bom(s.drop_first())
    } else {
        s
    }
}

pub open spec fn normalized_newlines(s: Seq<char>) -> Seq<char> {
    strip_bom(nl_norm(s))
}

pub proof fn lemma_nl_norm_no_cr(s: Seq<char>)
    ensures
        !nl_norm(s).contains('\r'),
    decreases s.len(),
{
    if s.len() > 0 {
        if s[0] == '\r' && s.len() > 1 && s[1] == '\n' {
            lemma_nl_norm_no_cr(s.skip(2));
        } else {
            lemma_nl_norm_no_cr(s.skip(1));
        }
        let r = nl_norm(s);
        if r.contains('\r') {
            let k = choose|k: int| 0 <= k < r.len() && r[k] == '\r';
            if s[0] == '\r' && s.len() > 1 && s[1] == '\n' {
                assert(nl_norm(s.skip(2))[k - 1] == '\r');
            } else {
                assert(k > 0);
                assert(nl_norm(s.skip(1))[k - 1] == '\r');
            }
        }
    }
}

pub proof fn lemma_strip_bom_suffix(s: Seq<char>)
    ensures
        strip_bom(s).len() <= s.len(),
        strip_bom(s) == s.subrange(s.len() - strip_bom(s).len(), s.len() as int),
    decreases s.len(),
{
    if s.len() > 0 && s[0] == '\u{FEFF}' {
        lemma_strip_bom_suffix(s.drop_first());
        assert(s.drop_first().subrange(
            s.drop_first().len() - strip_bom(s).len(),
            s.drop_first().len() as int,
        ) =~= s.subrange(s.len() - strip_bom(s).len(), s.len() as int));
    } else {
        assert(s.subrange(0, s.len() as int) == s);
    }
}

/// Normalised newline text holds no carriage return.
pub proof fn lemma_normalized_no_cr(s: Seq<char>)
    ensures
        !normalized_newlines(s).contains('\r'),
{
    let n = nl_norm(s);
    lemma_nl_norm_no_cr(s);
    lemma_strip_bom_suffix(n);
    let r = strip_bom(n);
    if r.contains('\r') {
        let k = choose|k: int| 0 <= k < r.len() && r[k] == '\r';
        assert(r[k] == n.subrange(n.len() - r.len(), n.len() as int)[k]);
        assert(n[n.len() - r.len() + k] == '\r');
    }
}

/// Unifies line endings to `\n` and drops leading byte-order marks.
pub fn normalize_newlines(s: &str) -> (r: String)
    ensures
        r@ == normalized_newlines(s@),
{
    let v = chars_of(s);
    let w = normalize_newlines_vec(&v);
    string_of(&w)
}

pub fn normalize_newlines_vec(v: &Vec<char>) -> (r: Vec<char>)
    ensures
        r@ == normalized_newlines(v@),
{
    let mut out: Vec<char> = Vec::new();
    let mut i: usize = 0;
    assert(v@.skip(0) == v@);
    while i < v.len()
        invariant
            i <= v.len(),
            out@ + nl_norm(v@.skip(i as int)) == nl_norm(v@),
        decreases v.len() - i,
    {
        let ghost rest = v@.skip(i as int);
        if v[i] == '\r' && i + 1 < v.len() && v[i + 1] == '\n' {
            assert(rest.skip(2) == v@.skip(i + 2));
            out.push('\n');
            assert(out@ + nl_norm(v@.skip(i + 2)) == nl_norm(v@));
            i = i + 2;
        } else if v[i] == '\r' {
            assert(rest.skip(1) == v@.skip(i + 1));
            out.push('\n');
            assert(out@ + nl_norm(v@.skip(i + 1)) == nl_norm(v@));
            i = i + 1;
        } else {
            assert(rest.skip(1) == v@.skip(i + 1));
            out.push(v[i]);
            assert(out@ + nl_norm(v@.skip(i + 1)) == nl_norm(v@));
            i = i + 1;
        }
    }
    assert(v@.skip(i as int) == Seq::<char>::empty());
    assert(out@ == nl_norm(v@));
    let mut k: usize = 0;
    assert(out@.skip(0) == out@);
    while k < out.len() && out[k] == '\u{FEFF}'
        invariant
            k <= out.len(),
            strip_bom(out@) == strip_bom(out@.skip(k as int)),
        decreases out.len() - k,
    {
        assert(out@.skip(k as int).drop_first() == out@.skip(k + 1));
        k = k + 1;
    }
    let r = slice_vec(&out, k, out.len());
    assert(r@ == out@.skip(k as int));
    r
}

/// Zero-width spaces, direction marks and word joiners, and the byte-order mark.
pub open spec fn is_invisible(c: char) -> bool {
    ('\u{200B}' <= c && c <= '\u{200F}') || ('\u{202A}' <= c && c <= '\u{202E}') || c
        == '\u{2060}' || c == '\u{FEFF}'
}

/// Invisible characters removed; no-break spaces become plain spaces.
pub open spec fn strip_inv(s: Seq<char>) -> Seq<char>
    decreases s.len(),
{
    if s.len() == 0 {
        Seq::empty()
    } else {
        let r = strip_inv(s.drop_last());
        let c = s.last();
        if is_invisible(c) {
            r
        } else if c == '\u{A0}' {
            r.push(' ')
        } else {
            r.push(c)
        }
    }
}

pub fn strip_invisible_vec(v: &Vec<char>) -> (r: Vec<char>)
    ensures
        r@ == strip_inv(v@),
{
    let mut out: Vec<char> = Vec::new();
    let mut i: usize = 0;
    while i < v.len()
        invariant
            i <= v.len(),
            out@ == strip_inv(v@.take(i as int)),
        decreases v.len() - i,
    {
        let c = v[i];
        assert(v@.take(i + 1).drop_last() == v@.take(i as int));
        if ('\u{200B}' <= c && c <= '\u{200F}') || ('\u{202A}' <= c && c <= '\u{202E}') || c
            == '\u{2060}' || c == '\u{FEFF}' {
        } else if c == '\u{A0}' {
            out.push(' ');
        } else {
            out.push(c);
        }
        i = i + 1;
    }
    assert(v@.take(v.len() as int) == v@);
    out
}

/// Removes invisible characters that make equal-looking lines differ.
pub fn strip_invisible(s: &str) -> (r: String)
    ensures
        r@ == strip_inv(s@),
{
    let v = chars_of(s);
    let w = strip_invisible_vec(&v);
    string_of(&w)
}

pub open spec fn clean_line_spec(s: Seq<char>) -> Seq<char> {
    trim(strip_inv(s))
}

pub fn clean_line_vec(v: &Vec<char>) -> (r: Vec<char>)
    ensures
        r@ == clean_line_spec(v@),
{
    let w = strip_invisible_vec(v);
    trim_vec(&w)
}

/// One line cleaned: invisible characters removed, white space trimmed.
pub fn clean_line(s: &str) -> (r: String)
    ensures
        r@ == clean_line_spec(s@),
{
    let v = chars_of(s);
    let w = clean_line_vec(&v);
    string_of(&w)
}

} // verus!
