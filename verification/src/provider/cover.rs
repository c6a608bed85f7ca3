//! Album covers.
//!
//! The cover is the one product that costs real space, hence the size cap,
//! the format check (no HTML error page written into a tag) and the edge cap.

use vstd::prelude::*;
use crate::domain::plan::CoverBytes;
use crate::infra::error::AppError;
use crate::text::{push_str_vec, string_of};

verus! {

/// Largest cover accepted, in bytes.
pub const MAX_COVER_BYTES: usize = 1048576;

/// Longest edge a cover is scaled down to before embedding.
pub const MAX_COVER_EDGE: u32 = 1000;

/// Image formats a cover may come in, as far as the rules tell them apart.
#[derive(Clone, Copy, Debug, PartialEq, Eq, Structural)]
pub enum ImageKind {
    Jpeg,
    Png,
    WebP,
    Gif,
    Bmp,
    Tiff,
    /// Any other format the sniffer recognises.
    Other,
}

/// The format `image::guess_format` sniffs from the bytes' signature.
pub uninterp spec fn sniffed_kind(bytes: Seq<u8>) -> Option<ImageKind>;

/// Calls `image::guess_format`; the contract names the sniffed format.
#[verifier::external_body]
fn guess_kind(bytes: &[u8]) -> (r: Option<ImageKind>)
    ensures
        r == sniffed_kind(bytes@),
{
    match image::guess_format(bytes) {
        Ok(image::ImageFormat::Jpeg) => Some(ImageKind::Jpeg),
        Ok(image::ImageFormat::Png) => Some(ImageKind::Png),
        Ok(image::ImageFormat::WebP) => Some(ImageKind::WebP),
        Ok(image::ImageFormat::Gif) => Some(ImageKind::Gif),
        Ok(image::ImageFormat::Bmp) => Some(ImageKind::Bmp),
        Ok(image::ImageFormat::Tiff) => Some(ImageKind::Tiff),
        Ok(_) => Some(ImageKind::Other),
        Err(_) => None,
    }
}

/// The `image` format for a kind the cover rules accept.
#[verifier::external_body]
fn image_format(kind: ImageKind) -> (r: image::ImageFormat)
    requires
        kind != ImageKind::Other,
{
    match kind {
        ImageKind::Jpeg => image::ImageFormat::Jpeg,
        ImageKind::Png => image::ImageFormat::Png,
        ImageKind::WebP => image::ImageFormat::WebP,
        ImageKind::Gif => image::ImageFormat::Gif,
        ImageKind::Bmp => image::ImageFormat::Bmp,
        _ => image::ImageFormat::Tiff,
    }
}

#[verifier::external_type_specification]
#[verifier::external_body]
pub struct ExImageFormat(image::ImageFormat);

/// Width and height `image::load_from_memory_with_format` decodes from the
/// bytes in the given format, or `None` when decoding fails: a function of
/// the bytes and the format alone.
pub uninterp spec fn decoded_size(bytes: Seq<u8>, kind: ImageKind) -> Option<(u32, u32)>;

/// Calls `image::load_from_memory_with_format` and reads the decoded
/// image's width and height; `None` when decoding fails. The size is named.
#[verifier::external_body]
fn image_size(bytes: &[u8], kind: ImageKind) -> (r: Option<(u32, u32)>)
    requires
        kind != ImageKind::Other,
    ensures
        r == decoded_size(bytes@, kind),
{
    match image::load_from_memory_with_format(bytes, image_format(kind)) {
        Ok(img) => Some((img.width(), img.height())),
        Err(_) => None,
    }
}

/// Decodes, scales with `DynamicImage::resize` (Lanczos3) to fit within
/// `edge` by `edge`, keeping the aspect ratio, and encodes the result with
/// `DynamicImage::write_to` as PNG or JPEG; an error gives its text. Nothing
/// is stated of the bytes: the resampling goes through floating-point
/// functions whose results may differ between machines.
#[verifier::external_body]
fn scale_image(bytes: &[u8], kind: ImageKind, png: bool, edge: u32) -> (r: Result<Vec<u8>, String>)
    requires
        kind != ImageKind::Other,
{
    let img = image::load_from_memory_with_format(bytes, image_format(kind)).map_err(|e| e.to_string())?;
    let resized = img.resize(edge, edge, image::imageops::FilterType::Lanczos3);
    let mut out = std::io::Cursor::new(Vec::new());
    let fmt = if png { image::ImageFormat::Png } else { image::ImageFormat::Jpeg };
    resized.write_to(&mut out, fmt).map_err(|e| e.to_string())?;
    Ok(out.into_inner())
}

pub open spec fn mime_spec(k: ImageKind) -> Seq<char> {
    match k {
        ImageKind::Jpeg => "image/jpeg"@,
        ImageKind::Png => "image/png"@,
        ImageKind::WebP => "image/webp"@,
        ImageKind::Gif => "image/gif"@,
        ImageKind::Bmp => "image/bmp"@,
        ImageKind::Tiff => "image/tiff"@,
        ImageKind::Other => Seq::empty(),
    }
}

/// What to do with a cover of a sniffed format and decoded size.
#[derive(Clone, Copy, Debug, PartialEq, Eq, Structural)]
pub enum CoverPlan {
    /// Embed the bytes as they are.
    Keep(ImageKind),
    /// Scale down; PNG stays PNG, anything else becomes JPEG.
    Scale { png: bool },
}

/// The plan for a cover, or the message of its refusal.
pub open spec fn cover_plan_spec(kind: Option<ImageKind>, size: Option<(u32, u32)>) -> Result<
    CoverPlan,
    Seq<char>,
> {
    match kind {
        None => Err("封面内容不是有效的图片"@),
        Some(ImageKind::Other) => Err("封面图片格式不受支持"@),
        Some(k) => match size {
            None => Err("封面图片无法解析"@),
            Some((w, h)) => if w <= MAX_COVER_EDGE && h <= MAX_COVER_EDGE {
                Ok(CoverPlan::Keep(k))
            } else {
                Ok(CoverPlan::Scale { png: k == ImageKind::Png })
            },
        },
    }
}

/// Decides a cover from its sniffed format and decoded size.
pub fn cover_plan(kind: Option<ImageKind>, size: Option<(u32, u32)>) -> (r: Result<CoverPlan, String>)
    ensures
        match (r, cover_plan_spec(kind, size)) {
            (Ok(p), Ok(q)) => p == q,
            (Err(e), Err(m)) => e@ == m,
            _ => false,
        },
{
    let k = match kind {
        None => {
            return Err("封面内容不是有效的图片".to_owned());
        },
        Some(k) => k,
    };
    if k == ImageKind::Other {
        return Err("封面图片格式不受支持".to_owned());
    }
    match size {
        None => Err("封面图片无法解析".to_owned()),
        Some((w, h)) => if w <= MAX_COVER_EDGE && h <= MAX_COVER_EDGE {
            Ok(CoverPlan::Keep(k))
        } else {
            Ok(CoverPlan::Scale { png: k == ImageKind::Png })
        },
    }
}

/// The MIME type of a scaled cover.
pub open spec fn scaled_mime(png: bool) -> Seq<char> {
    if png {
        "image/png"@
    } else {
        "image/jpeg"@
    }
}

/// The cover a scaling gave, or the refusal when it failed.
pub fn scaled_cover(png: bool, scaled: Result<Vec<u8>, String>) -> (r: Result<CoverBytes, AppError>)
    ensures
        match (scaled, r) {
            (Ok(b), Ok(c)) => c.bytes@ == b@ && c.mime@ == scaled_mime(png),
            (Err(e), Err(AppError::BadResponse(m))) => m@ == "封面缩放失败："@ + e@,
            _ => false,
        },
{
    match scaled {
        Ok(out) => {
            let mime = if png {
                "image/png".to_owned()
            } else {
                "image/jpeg".to_owned()
            };
            Ok(CoverBytes { bytes: out, mime })
        },
        Err(e) => {
            let mut m: Vec<char> = Vec::new();
            push_str_vec(&mut m, "封面缩放失败：");
            push_str_vec(&mut m, e.as_str());
            Err(AppError::BadResponse(string_of(&m)))
        },
    }
}

fn mime_of(k: ImageKind) -> (r: String)
    ensures
        r@ == mime_spec(k),
{
    match k {
        ImageKind::Jpeg => "image/jpeg".to_owned(),
        ImageKind::Png => "image/png".to_owned(),
        ImageKind::WebP => "image/webp".to_owned(),
        ImageKind::Gif => "image/gif".to_owned(),
        ImageKind::Bmp => "image/bmp".to_owned(),
        ImageKind::Tiff => "image/tiff".to_owned(),
        ImageKind::Other => String::new(),
    }
}

/// The decoded size of a cover whose sniffed format the rules accept.
pub open spec fn cover_size(bytes: Seq<u8>) -> Option<(u32, u32)> {
    match sniffed_kind(bytes) {
        Some(ImageKind::Other) => None,
        Some(k) => decoded_size(bytes, k),
        None => None,
    }
}

/// Checks and prepares cover bytes: the format is sniffed from the bytes (not
/// trusted from headers), small images are kept as they are, large ones are
/// scaled down to fit `MAX_COVER_EDGE`. Decoding and scaling are the image
/// library's; what comes of them is decided by `cover_plan` and
/// `scaled_cover`.
pub fn normalize(bytes: Vec<u8>) -> (r: Result<CoverBytes, AppError>)
    ensures
        match cover_plan_spec(sniffed_kind(bytes@), cover_size(bytes@)) {
            Err(m) => r matches Err(AppError::BadResponse(e)) && e@ == m,
            Ok(CoverPlan::Keep(k)) => r matches Ok(c) && c.bytes@ == bytes@ && c.mime@ == mime_spec(k),
            Ok(CoverPlan::Scale { png }) => match r {
                Ok(c) => c.mime@ == scaled_mime(png),
                Err(AppError::BadResponse(e)) => exists|m: Seq<char>| e@ == "封面缩放失败："@ + m,
                _ => false,
            },
        },
{
    let kind = guess_kind(bytes.as_slice());
    let size = match kind {
        Some(k) => if k == ImageKind::Other {
            None
        } else {
            image_size(bytes.as_slice(), k)
        },
        None => None,
    };
    match cover_plan(kind, size) {
        Err(m) => Err(AppError::BadResponse(m)),
        Ok(CoverPlan::Keep(k)) => {
            let mime = mime_of(k);
            Ok(CoverBytes { bytes, mime })
        },
        Ok(CoverPlan::Scale { png }) => {
            let k = kind.unwrap();
            let scaled = scale_image(bytes.as_slice(), k, png, MAX_COVER_EDGE);
            let ghost sc = scaled;
            let r = scaled_cover(png, scaled);
            assert(r matches Err(AppError::BadResponse(e)) ==> exists|m: Seq<char>| e@ == "封面缩放失败："@ + m) by {
                if r is Err {
                    assert(r->Err_0->BadResponse_0@ == "封面缩放失败："@ + sc->Err_0@);
                }
            }
            r
        },
    }
}

/// Estimated growth per track when covers are embedded (covers are mostly
/// 100 KB to 1 MB; a middle value).
pub fn estimated_bytes_per_track() -> (r: i64)
    ensures
        r == 256000,
{
    250 * 1024
}

} // verus!
