//! Images and bytes as text.

use vstd::prelude::*;

use base64::Engine;

use crate::text::{chars_of, put_str, string_of};

verus! {

broadcast use vstd::string::group_string_axioms;

/// The standard base64 text of some bytes.
pub uninterp spec fn base64_text(bytes: Seq<u8>) -> Seq<char>;

/// The bytes that a standard base64 text stands for, if it is one.
pub uninterp spec fn base64_bytes(text: Seq<char>) -> Option<Seq<u8>>;

/// The JPEG file of an image of red, green and blue bytes, if there is one.
pub uninterp spec fn jpeg_file(rgb: Seq<u8>, width: u32, height: u32, quality: u8) -> Option<
    Seq<u8>,
>;

/// `Engine::encode` of `base64::engine::general_purpose::STANDARD`: the base64
/// text of the bytes, which [`base64_decode`] turns back into them.
#[verifier::external_body]
pub(crate) fn base64_encode(bytes: &Vec<u8>) -> (r: String)
    ensures
        r@ == base64_text(bytes@),
        base64_bytes(r@) == Some(bytes@),
{
    base64::engine::general_purpose::STANDARD.encode(bytes.as_slice())
}

/// `Engine::decode` of `base64::engine::general_purpose::STANDARD`: the bytes of
/// a base64 text, or nothing if it is malformed.
#[verifier::external_body]
pub(crate) fn base64_decode(text: &str) -> (r: Option<Vec<u8>>)
    ensures
        match r {
            Some(b) => base64_bytes(text@) == Some(b@),
            None => base64_bytes(text@) is None,
        },
{
    base64::engine::general_purpose::STANDARD.decode(text).ok()
}

/// `image::RgbImage::write_with_encoder` with an
/// `image::codecs::jpeg::JpegEncoder` of the given quality: the JPEG file, or
/// nothing where the pixels are too few or the encoder reports an error. It is a
/// function of the pixels, the sides and the quality.
#[verifier::external_body]
fn jpeg_encode(rgb: Vec<u8>, width: u32, height: u32, quality: u8) -> (r: Option<Vec<u8>>)
    ensures
        match r {
            Some(b) => jpeg_file(rgb@, width, height, quality) == Some(b@),
            None => jpeg_file(rgb@, width, height, quality) is None,
        },
{
    let image = image::RgbImage::from_raw(width, height, rgb)?;
    let mut buf = std::io::Cursor::new(Vec::new());
    let encoder = image::codecs::jpeg::JpegEncoder::new_with_quality(&mut buf, quality);
    image.write_with_encoder(encoder).ok()?;
    Some(buf.into_inner())
}

/// A JPEG file as a data address.
pub fn jpeg_data_uri(file: &Vec<u8>) -> (r: String)
    ensures
        r@ == "data:image/jpeg;base64,"@ + base64_text(file@),
{
    let mut out: Vec<char> = chars_of("data:image/jpeg;base64,");
    put_str(base64_encode(file).as_str(), &mut out);
    string_of(&out)
}

/// An image as the data address of a JPEG file; nothing if it cannot be
/// encoded.
pub fn encode_image(rgb: Vec<u8>, width: u32, height: u32, quality: u8) -> (r: Option<String>)
    ensures
        match jpeg_file(rgb@, width, height, quality) {
            Some(file) => r matches Some(s) && s@ == "data:image/jpeg;base64,"@ + base64_text(file),
            None => r is None,
        },
{
    match jpeg_encode(rgb, width, height, quality) {
        Some(file) => Some(jpeg_data_uri(&file)),
        None => None,
    }
}

/// Optional bytes as an optional base64 text.
pub fn bytes_to_base64(bytes: &Option<Vec<u8>>) -> (r: Option<String>)
    ensures
        match bytes {
            Some(b) => r matches Some(s) && s@ == base64_text(b@) && base64_bytes(s@) == Some(b@),
            None => r is None,
        },
{
    match bytes {
        Some(b) => Some(base64_encode(b)),
        None => None,
    }
}

/// Optional bytes from an optional base64 text; a malformed text is an error.
pub fn bytes_from_base64(text: Option<&str>) -> (r: Result<Option<Vec<u8>>, ()>)
    ensures
        match text {
            Some(t) => match base64_bytes(t@) {
                Some(b) => r matches Ok(Some(v)) && v@ == b,
                None => r is Err,
            },
            None => r matches Ok(None),
        },
{
    match text {
        Some(t) => match base64_decode(t) {
            Some(b) => Ok(Some(b)),
            None => Err(()),
        },
        None => Ok(None),
    }
}

} // verus!
