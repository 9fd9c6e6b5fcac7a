//! The codec adapter: format detection over magic bytes, normalization of
//! arbitrary raster input into the canonical storage format (PNG), and
//! compression of canonical images.
//!
//! Detection is verified outright — each format is a fixed signature at
//! the start of the buffer.  Decoding, re-encoding and compression are
//! done by outside crates behind trusted wrappers; their outputs are named
//! (`png_encode_of`, `compressed_of`) so that callers' contracts stay
//! exact without restating an image codec.

use vstd::prelude::*;

verus! {

/// The kinds of source buffer the tool accepts: three raster image
/// formats, the multi-page document format, or something unreadable.
#[derive(Clone, Copy, Debug, PartialEq, Eq, Structural)]
pub enum SourceFormat {
    Png,
    Jpeg,
    Webp,
    Pdf,
    Unknown,
}

/// A buffer whose content could not be decoded.
#[derive(Clone, Copy, Debug, PartialEq, Eq, Structural)]
pub enum CodecError {
    UndecodableInput,
}

/// The eight-byte PNG signature.
pub open spec fn is_png_sig(b: Seq<u8>) -> bool {
    b.len() >= 8 && b[0] == 0x89u8 && b[1] == 0x50u8 && b[2] == 0x4eu8 && b[3] == 0x47u8 && b[4]
        == 0x0du8 && b[5] == 0x0au8 && b[6] == 0x1au8 && b[7] == 0x0au8
}

/// The JPEG start-of-image marker.
pub open spec fn is_jpeg_sig(b: Seq<u8>) -> bool {
    b.len() >= 3 && b[0] == 0xffu8 && b[1] == 0xd8u8 && b[2] == 0xffu8
}

/// A RIFF container tagged WEBP.
pub open spec fn is_webp_sig(b: Seq<u8>) -> bool {
    b.len() >= 12 && b[0] == 0x52u8 && b[1] == 0x49u8 && b[2] == 0x46u8 && b[3] == 0x46u8 && b[8]
        == 0x57u8 && b[9] == 0x45u8 && b[10] == 0x42u8 && b[11] == 0x50u8
}

/// The `%PDF-` header.
pub open spec fn is_pdf_sig(b: Seq<u8>) -> bool {
    b.len() >= 5 && b[0] == 0x25u8 && b[1] == 0x50u8 && b[2] == 0x44u8 && b[3] == 0x46u8 && b[4]
        == 0x2du8
}

/// What `detect_format` reports for a buffer.
pub open spec fn spec_detect(b: Seq<u8>) -> SourceFormat {
    if is_png_sig(b) {
        SourceFormat::Png
    } else if is_jpeg_sig(b) {
        SourceFormat::Jpeg
    } else if is_webp_sig(b) {
        SourceFormat::Webp
    } else if is_pdf_sig(b) {
        SourceFormat::Pdf
    } else {
        SourceFormat::Unknown
    }
}

/// Classifies a buffer by its leading magic bytes.
pub fn detect_format(b: &Vec<u8>) -> (f: SourceFormat)
    ensures
        f == spec_detect(b@),
{
    let n = b.len();
    if n >= 8 && b[0] == 0x89 && b[1] == 0x50 && b[2] == 0x4e && b[3] == 0x47 && b[4] == 0x0d
        && b[5] == 0x0a && b[6] == 0x1a && b[7] == 0x0a {
        return SourceFormat::Png;
    }
    if n >= 3 && b[0] == 0xff && b[1] == 0xd8 && b[2] == 0xff {
        return SourceFormat::Jpeg;
    }
    if n >= 12 && b[0] == 0x52 && b[1] == 0x49 && b[2] == 0x46 && b[3] == 0x46 && b[8] == 0x57
        && b[9] == 0x45 && b[10] == 0x42 && b[11] == 0x50 {
        return SourceFormat::Webp;
    }
    if n >= 5 && b[0] == 0x25 && b[1] == 0x50 && b[2] == 0x44 && b[3] == 0x46 && b[4] == 0x2d {
        return SourceFormat::Pdf;
    }
    SourceFormat::Unknown
}

/// The bytes that the placeholder image consists of: a complete one-pixel
/// PNG, substituted wherever a source buffer cannot be decoded.
pub open spec fn spec_placeholder_png() -> Seq<u8> {
    seq![
        0x89u8, 0x50u8, 0x4eu8, 0x47u8, 0x0du8, 0x0au8, 0x1au8, 0x0au8, 0x00u8, 0x00u8, 0x00u8,
        0x0du8, 0x49u8, 0x48u8, 0x44u8, 0x52u8, 0x00u8, 0x00u8, 0x00u8, 0x01u8, 0x00u8, 0x00u8,
        0x00u8, 0x01u8, 0x08u8, 0x02u8, 0x00u8, 0x00u8, 0x00u8, 0x90u8, 0x77u8, 0x53u8, 0xdeu8,
        0x00u8, 0x00u8, 0x00u8, 0x0cu8, 0x49u8, 0x44u8, 0x41u8, 0x54u8, 0x78u8, 0x9cu8, 0x63u8,
        0xf8u8, 0xffu8, 0xffu8, 0x3fu8, 0x00u8, 0x05u8, 0xfeu8, 0x02u8, 0xfeu8, 0x0du8, 0xefu8,
        0x46u8, 0xb8u8, 0x00u8, 0x00u8, 0x00u8, 0x00u8, 0x49u8, 0x45u8, 0x4eu8, 0x44u8, 0xaeu8,
        0x42u8, 0x60u8, 0x82u8,
    ]
}

/// Builds the placeholder image.
pub fn placeholder_png() -> (r: Vec<u8>)
    ensures
        r@ == spec_placeholder_png(),
        is_png_sig(r@),
{
    let r: Vec<u8> = vec![
        0x89, 0x50, 0x4e, 0x47, 0x0d, 0x0a, 0x1a, 0x0a, 0x00, 0x00, 0x00, 0x0d, 0x49, 0x48, 0x44,
        0x52, 0x00, 0x00, 0x00, 0x01, 0x00, 0x00, 0x00, 0x01, 0x08, 0x02, 0x00, 0x00, 0x00, 0x90,
        0x77, 0x53, 0xde, 0x00, 0x00, 0x00, 0x0c, 0x49, 0x44, 0x41, 0x54, 0x78, 0x9c, 0x63, 0xf8,
        0xff, 0xff, 0x3f, 0x00, 0x05, 0xfe, 0x02, 0xfe, 0x0d, 0xef, 0x46, 0xb8, 0x00, 0x00, 0x00,
        0x00, 0x49, 0x45, 0x4e, 0x44, 0xae, 0x42, 0x60, 0x82,
    ];
    proof {
        assert(r@ =~= spec_placeholder_png());
    }
    r
}

/// What the PNG re-encoding of a decodable buffer looks like.  Stated as
/// a name: the encoding is a function of the input bytes alone, and no
/// contract here claims what it is on given values.
pub uninterp spec fn png_encode_of(b: Seq<u8>) -> Seq<u8>;

/// Whether the image decoder reads this buffer (and can re-encode it as
/// PNG).  A function of the bytes alone.
pub uninterp spec fn decodable(b: Seq<u8>) -> bool;

/// The pixel width that decoding this buffer yields.
pub uninterp spec fn px_width(b: Seq<u8>) -> u32;

/// The pixel height that decoding this buffer yields.
pub uninterp spec fn px_height(b: Seq<u8>) -> u32;

/// What the lossless storage compressor returns for a canonical-format
/// buffer it accepts.  A function of the bytes alone: the lossless
/// profile's candidate search is deterministic.  (The lossy export
/// profile gets no such name — its quantizer is thread-parallel and its
/// output can differ between runs.)
pub uninterp spec fn compressed_of(b: Seq<u8>) -> Seq<u8>;

/// Whether the lossless storage compressor accepts a canonical-format
/// buffer.  A function of the bytes alone.
pub uninterp spec fn compress_ok(b: Seq<u8>) -> bool;

/// Relies on image::load_from_memory and DynamicImage::write_to (PNG):
/// decoding and re-encoding is deterministic in the input bytes, its
/// output is a well-formed PNG that the same decoder reads back, and the
/// pixel dimensions are those of the input.
#[verifier::external_body]
fn reencode_to_png(b: &Vec<u8>) -> (r: Result<Vec<u8>, CodecError>)
    ensures
        r.is_ok() == decodable(b@),
        r matches Ok(o) ==> o@ == png_encode_of(b@) && is_png_sig(o@) && decodable(o@) && px_width(
            o@,
        ) == px_width(b@) && px_height(o@) == px_height(b@),
{
    match image::load_from_memory(b.as_slice()) {
        Ok(img) => {
            let mut out: Vec<u8> = Vec::new();
            match img.write_to(&mut std::io::Cursor::new(&mut out), image::ImageFormat::Png) {
                Ok(()) => Ok(out),
                Err(_) => Err(CodecError::UndecodableInput),
            }
        },
        Err(_) => Err(CodecError::UndecodableInput),
    }
}

/// Relies on image::load_from_memory and DynamicImage::{width, height}:
/// the pixel dimensions of a readable buffer are a function of its bytes.
#[verifier::external_body]
fn image_dims(b: &Vec<u8>) -> (r: Result<(u32, u32), CodecError>)
    ensures
        decodable(b@) ==> r.is_ok(),
        r matches Ok(d) ==> d.0 == px_width(b@) && d.1 == px_height(b@),
{
    match image::load_from_memory(b.as_slice()) {
        Ok(img) => Ok((img.width(), img.height())),
        Err(_) => Err(CodecError::UndecodableInput),
    }
}

/// Relies on caesium::compress_in_memory with the lossless PNG profile
/// (quality 100, optimize, level 6) and no resize: on a PNG input both
/// success and output are functions of the bytes alone (the optimizer's
/// candidate search is a deterministic total order, single-threaded by
/// default); the output is a PNG readable by the image decoder, with the
/// pixel dimensions kept.
#[verifier::external_body]
fn caesium_compress_lossless(b: &Vec<u8>) -> (r: Result<Vec<u8>, CodecError>)
    requires
        is_png_sig(b@),
    ensures
        r.is_ok() == compress_ok(b@),
        r matches Ok(o) ==> o@ == compressed_of(b@) && is_png_sig(o@) && decodable(o@)
            && px_width(o@) == px_width(b@) && px_height(o@) == px_height(b@),
{
    let mut params = caesium::parameters::CSParameters::new();
    params.png.quality = 100;
    params.png.optimize = true;
    params.png.optimization_level = 6;
    match caesium::compress_in_memory(b.clone(), &params) {
        Ok(out) => Ok(out),
        Err(_) => Err(CodecError::UndecodableInput),
    }
}

/// Relies on caesium::compress_in_memory with its default parameters
/// (the lossy quantizing PNG profile, quality 80, no resize).  The
/// quantizer runs thread-parallel, so the exact output bytes are not a
/// function of the input alone; only what holds of every outcome is
/// stated: the output is a PNG readable by the image decoder, with the
/// pixel dimensions kept.
#[verifier::external_body]
fn caesium_compress_lossy(b: &Vec<u8>) -> (r: Result<Vec<u8>, CodecError>)
    requires
        is_png_sig(b@),
    ensures
        r matches Ok(o) ==> is_png_sig(o@) && decodable(o@) && px_width(o@) == px_width(b@)
            && px_height(o@) == px_height(b@),
{
    let params = caesium::parameters::CSParameters::new();
    match caesium::compress_in_memory(b.clone(), &params) {
        Ok(out) => Ok(out),
        Err(_) => Err(CodecError::UndecodableInput),
    }
}

/// What normalization turns a buffer into: a canonical buffer passes
/// through, a readable one is re-encoded, an unreadable one becomes the
/// placeholder.
pub open spec fn spec_normalized(b: Seq<u8>) -> Seq<u8> {
    if is_png_sig(b) {
        b
    } else if decodable(b) {
        png_encode_of(b)
    } else {
        spec_placeholder_png()
    }
}

/// What storage compression turns an accepted canonical buffer into,
/// and what it substitutes when the compressor refuses one.
pub open spec fn spec_compressed_storage(b: Seq<u8>) -> Seq<u8> {
    if compress_ok(b) {
        compressed_of(b)
    } else {
        spec_placeholder_png()
    }
}

/// Exactly what ends up on disk for a source page: its normalization,
/// storage-compressed, with the placeholder standing in where decoding
/// or compression refused the bytes.
pub open spec fn stored_page_ok(src: Seq<u8>, out: Seq<u8>) -> bool {
    out == spec_compressed_storage(spec_normalized(src))
}

/// Brings a buffer into the canonical storage format.  A buffer that is
/// already canonical passes through unchanged; anything else is decoded
/// and re-encoded; an unreadable buffer becomes the placeholder image, so
/// the surrounding workflow never stops on a decode fault.
pub fn normalize_to_storage_format(bytes: Vec<u8>) -> (r: Vec<u8>)
    ensures
        is_png_sig(r@),
        r@ == spec_normalized(bytes@),
        is_png_sig(bytes@) ==> r@ == bytes@,
        !is_png_sig(bytes@) && decodable(bytes@) ==> r@ == png_encode_of(bytes@),
        !is_png_sig(bytes@) && !decodable(bytes@) ==> r@ == spec_placeholder_png(),
{
    let f = detect_format(&bytes);
    if f == SourceFormat::Png {
        return bytes;
    }
    match reencode_to_png(&bytes) {
        Ok(out) => out,
        Err(_) => placeholder_png(),
    }
}

/// Compresses a canonical-format image under the lossless storage
/// profile.  On every buffer the compressor accepts the result is its
/// deterministic output, canonical and with the source's pixel
/// dimensions; exactly the refused buffers become the placeholder.
pub fn compress_storage(bytes: Vec<u8>) -> (r: Vec<u8>)
    requires
        is_png_sig(bytes@),
    ensures
        is_png_sig(r@),
        r@ == spec_compressed_storage(bytes@),
        compress_ok(bytes@) ==> r@ == compressed_of(bytes@) && px_width(r@) == px_width(bytes@)
            && px_height(r@) == px_height(bytes@) && decodable(r@),
        !compress_ok(bytes@) ==> r@ == spec_placeholder_png(),
{
    match caesium_compress_lossless(&bytes) {
        Ok(out) => out,
        Err(_) => placeholder_png(),
    }
}

/// Compresses a canonical-format image under the smaller, lower-fidelity
/// export profile.  That profile's output is not a function of the bytes
/// alone, so the contract states what holds of every outcome: the result
/// is canonical, and it either decodes at the source's pixel dimensions
/// or is the placeholder the compressor's refusal was mapped to.
pub fn compress_export(bytes: Vec<u8>) -> (r: Vec<u8>)
    requires
        is_png_sig(bytes@),
    ensures
        is_png_sig(r@),
        decodable(r@) && px_width(r@) == px_width(bytes@) && px_height(r@) == px_height(bytes@)
            || r@ == spec_placeholder_png(),
{
    match caesium_compress_lossy(&bytes) {
        Ok(out) => out,
        Err(_) => placeholder_png(),
    }
}

/// Decodes a buffer and re-encodes it in the canonical storage format.
/// Unlike normalization this demands a readable buffer: an export must
/// abort on a corrupt page rather than substitute a placeholder.
pub fn decode_to_canonical(bytes: &Vec<u8>) -> (r: Result<Vec<u8>, CodecError>)
    ensures
        r.is_ok() == decodable(bytes@),
        r matches Ok(o) ==> o@ == png_encode_of(bytes@) && is_png_sig(o@) && decodable(o@)
            && px_width(o@) == px_width(bytes@) && px_height(o@) == px_height(bytes@),
{
    reencode_to_png(bytes)
}

/// The pixel dimensions of a buffer, where the decoder reads it.
pub fn dimensions(bytes: &Vec<u8>) -> (r: Result<(u32, u32), CodecError>)
    ensures
        decodable(bytes@) ==> r.is_ok(),
        r matches Ok(d) ==> d.0 == px_width(bytes@) && d.1 == px_height(bytes@),
{
    image_dims(bytes)
}

} // verus!
