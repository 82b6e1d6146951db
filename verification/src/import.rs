//! Importing an image into the library: the content hash that deduplicates
//! imports, and the record made from the decoded image.
use vstd::prelude::*;
use sha2::Digest;
use crate::download::image_decode;
use crate::error::AppError;
use crate::library::{aspect_text, image_ext};
use crate::text::push_str;

verus! {

/// The SHA-256 digest of the bytes.
pub uninterp spec fn sha256(bytes: Seq<u8>) -> Seq<u8>;

/// `sha2::Sha256::digest`: a 32-byte digest, named by `sha256` (a function of
/// the bytes alone); the hash function itself is not stated.
#[verifier::external_body]
fn sha256_digest(bytes: &[u8]) -> (r: Vec<u8>)
    ensures
        r@ == sha256(bytes@),
        r@.len() == 32,
{
    sha2::Sha256::digest(bytes).to_vec()
}

/// The lower-case hex digit of a nibble.
pub open spec fn hex_digit(n: int) -> char {
    if n < 10 { ((n + 48) as u8) as char } else { ((n + 87) as u8) as char }
}

/// Bytes written as lower-case hex, two digits per byte, high nibble first.
pub open spec fn hex_text(b: Seq<u8>) -> Seq<char>
    decreases b.len(),
{
    if b.len() == 0 {
        Seq::empty()
    } else {
        hex_text(b.drop_last()) + seq![hex_digit(b.last() as int / 16), hex_digit(b.last() as int % 16)]
    }
}

/// `hex::encode`: each byte as two characters of "0123456789abcdef", high
/// nibble first (as its source writes them).
#[verifier::external_body]
fn hex_encode(bytes: &[u8]) -> (r: String)
    ensures
        r@ == hex_text(bytes@),
{
    hex::encode(bytes)
}

/// The content hash of an image file: its SHA-256 digest in lower-case hex.
pub fn content_sha256(bytes: &Vec<u8>) -> (r: String)
    ensures
        r@ == hex_text(sha256(bytes@)),
{
    let d = sha256_digest(bytes.as_slice());
    hex_encode(d.as_slice())
}

/// The key an image is imported under: refused when its (lower-case)
/// extension is not one the library imports, else the content hash.
pub fn import_key(ext: &str, bytes: &Vec<u8>) -> (r: Result<String, AppError>)
    ensures
        image_ext(ext@) ==> (r matches Ok(h) && h@ == hex_text(sha256(bytes@))),
        !image_ext(ext@) ==> (r matches Err(AppError::Invalid(m)) && m@ == "Formato no soportado: "@ + ext@
            + ". Usa jpg/png/webp."@),
{
    match crate::library::check_image_extension(ext) {
        Err(e) => Err(e),
        Ok(()) => Ok(content_sha256(bytes)),
    }
}

/// What the record of an imported image says of it.
pub struct ImportMeta {
    pub width: u32,
    pub height: u32,
    /// "landscape" when at least as wide as high, else "portrait".
    pub orientation: &'static str,
    pub aspect: String,
    /// Megapixels in thousandths, at most 1000.
    pub quality: u32,
    pub title: String,
}

/// The quality of an image: its megapixels (in thousandths), at most one.
pub open spec fn pixel_quality(w: u32, h: u32) -> int {
    let q = (w as int * h as int) / 1000;
    if q > 1000 { 1000 } else { q }
}

/// The record of an image to import: its size, orientation, shape, quality
/// and title (the one given, else the file stem, else "image"); refused
/// when the bytes do not decode as an image.
pub fn import_metadata(bytes: &Vec<u8>, title: &Option<String>, stem: &Option<String>) -> (r: Result<ImportMeta, AppError>)
    ensures
        match image_decode(bytes@) {
            Err(e) => r matches Err(AppError::Invalid(m)) && m@ == "Imagen inválida: "@ + e,
            Ok((w, h)) => r matches Ok(meta) && {
                &&& meta.width == w && meta.height == h
                &&& meta.orientation@ == (if w >= h { "landscape"@ } else { "portrait"@ })
                &&& meta.aspect@ == aspect_text(w as int, h as int)
                &&& meta.quality as int == pixel_quality(w, h)
                &&& meta.title@ == match title {
                    Some(t) => t@,
                    None => match stem {
                        Some(s) => s@,
                        None => "image"@,
                    },
                }
            },
        },
{
    let (w, h) = match crate::download::decode_image(bytes.as_slice()) {
        Ok(d) => d,
        Err(e) => {
            let mut m = String::from_str("Imagen inválida: ");
            push_str(&mut m, e.as_str());
            return Err(AppError::Invalid(m));
        },
    };
    let orientation: &'static str = if w >= h { "landscape" } else { "portrait" };
    assert((w as int) * (h as int) <= 0xffff_ffff * 0xffff_ffff) by (nonlinear_arith)
        requires
            w <= 0xffff_ffffu32,
            h <= 0xffff_ffffu32,
    ;
    let px: u64 = w as u64 * h as u64;
    let q: u64 = px / 1000;
    let quality: u32 = if q > 1000 { 1000 } else { q as u32 };
    let t = match title {
        Some(t) => t.clone(),
        None => match stem {
            Some(s) => s.clone(),
            None => String::from_str("image"),
        },
    };
    Ok(ImportMeta { width: w, height: h, orientation, aspect: crate::library::aspect_label(w, h), quality, title: t })
}

} // verus!
