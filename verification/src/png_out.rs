//! PNG output of a rendered frame.
use vstd::prelude::*;

use crate::error::RenderError;

verus! {

/// The PNG file that png writes for a non-interlaced image of the given size
/// whose pixels are `pixels`, RGBA at eight bits a channel (no palette, no
/// other chunks, png's default compression and filter): signature, `IHDR`,
/// `IDAT` chunks and `IEND`. A function of its arguments alone.
pub uninterp spec fn png_rgba8(width: u32, height: u32, pixels: Seq<u8>) -> Seq<u8>;

/// What an encoder or writer has been told, and where its bytes go: the
/// image's size, whether its pixels are RGBA (else grayscale, png's default;
/// the bit depth is always eight, png's default and the only one set here),
/// the images written so far, the buffer before the encoder took it, and the
/// buffer once the encoder's borrow of it ends.
struct PngModel {
    width: u32,
    height: u32,
    rgba: bool,
    images: Seq<Seq<u8>>,
    before: Seq<u8>,
    after: Seq<u8>,
}

/// Bytes in one row of pixels at eight bits a channel.
spec fn png_row_len(m: PngModel) -> int {
    (if m.rgba { 4int } else { 1int }) * m.width
}

/// Bytes of pixel data that `write_image_data` takes for the whole image.
spec fn png_data_len(m: PngModel) -> int {
    png_row_len(m) * m.height
}

/// A `png::Encoder` writing into a borrowed buffer, held opaque: its type
/// carries a `std::io::Write` bound, so it is not declared field by field.
#[verifier::external_body]
struct PngEncoderHandle<'a> {
    inner: png::Encoder<'static, &'a mut Vec<u8>>,
}

/// A `png::Writer` writing into a borrowed buffer, held opaque as above.
#[verifier::external_body]
struct PngWriterHandle<'a> {
    inner: png::Writer<&'a mut Vec<u8>>,
}

/// An encoder with its model.
struct PngEncoder<'a> {
    handle: PngEncoderHandle<'a>,
    model: Ghost<PngModel>,
}

/// A writer with its model.
struct PngWriter<'a> {
    handle: PngWriterHandle<'a>,
    model: Ghost<PngModel>,
}

#[verifier::external_type_specification]
#[verifier::external_body]
pub struct ExPngEncodingError(png::EncodingError);

/// `png::Encoder::new` on the buffer: an image of the given size, grayscale
/// and eight bits deep until told otherwise (`Info`'s defaults), nothing
/// written yet. The encoder holds the buffer's borrow, so the buffer's value
/// when that borrow ends is the model's `after`.
#[verifier::external_body]
fn png_encoder<'a>(out: &'a mut Vec<u8>, width: u32, height: u32) -> (res: PngEncoder<'a>)
    ensures
        res.model@.width == width,
        res.model@.height == height,
        !res.model@.rgba,
        res.model@.images == Seq::<Seq<u8>>::empty(),
        res.model@.before == old(out)@,
        res.model@.after == final(out)@,
{
    // The model is ghost, erased at run time: it is what the contract says.
    PngEncoder { handle: PngEncoderHandle { inner: png::Encoder::new(out, width, height) }, model: Ghost(arbitrary()) }
}

/// `png::Encoder::set_color` with `ColorType::Rgba`: the pixels become RGBA.
#[verifier::external_body]
fn png_set_color_rgba(encoder: &mut PngEncoder)
    ensures
        final(encoder).model@ == (PngModel { rgba: true, ..old(encoder).model@ }),
{
    encoder.handle.inner.set_color(png::ColorType::Rgba);
}

/// `png::Encoder::set_depth` with `BitDepth::Eight`: the depth stays eight,
/// the model unchanged.
#[verifier::external_body]
fn png_set_depth_eight(encoder: &mut PngEncoder)
    ensures
        final(encoder).model@ == old(encoder).model@,
{
    encoder.handle.inner.set_depth(png::BitDepth::Eight);
}

/// `png::Encoder::write_header`. Its source refuses a zero width or height
/// and the colour and depth combinations that PNG forbids (none of them
/// grayscale or RGBA at eight bits); writing into a `Vec` cannot fail. The
/// writer keeps the encoder's model.
#[verifier::external_body]
fn png_write_header<'a>(encoder: PngEncoder<'a>) -> (res: Result<PngWriter<'a>, png::EncodingError>)
    ensures
        res is Ok <==> (encoder.model@.width > 0 && encoder.model@.height > 0),
        res matches Ok(w) ==> w.model@ == encoder.model@,
{
    match encoder.handle.inner.write_header() {
        Ok(inner) => Ok(PngWriter { handle: PngWriterHandle { inner }, model: encoder.model }),
        Err(e) => Err(e),
    }
}

/// `png::Writer::write_image_data`. Its source refuses data whose length is
/// not the image's (row length times height; no animation, no palette, no
/// sequence checks here) and otherwise compresses it into the buffer as one
/// more image, which cannot fail. The row length and the image's size are
/// computed in `usize`, hence the bounds.
#[verifier::external_body]
fn png_write_image_data(writer: &mut PngWriter, data: &[u8]) -> (res: Result<(), png::EncodingError>)
    requires
        png_row_len(old(writer).model@) <= usize::MAX,
        png_data_len(old(writer).model@) <= usize::MAX,
    ensures
        res is Ok <==> data@.len() == png_data_len(old(writer).model@),
        final(writer).model@ == (if res is Ok {
            PngModel { images: old(writer).model@.images.push(data@), ..old(writer).model@ }
        } else {
            old(writer).model@
        }),
{
    writer.handle.inner.write_image_data(data)
}

/// `png::Writer::finish`: with no sequence checks, it writes the `IEND`
/// chunk into the buffer and flushes it, neither of which can fail, and
/// releases the buffer. For an RGBA image written as one image, the buffer
/// then holds what it held before and the PNG file of that image.
#[verifier::external_body]
fn png_finish(writer: PngWriter) -> (res: Result<(), png::EncodingError>)
    ensures
        res is Ok,
        res is Ok && writer.model@.rgba && writer.model@.images.len() == 1 ==> writer.model@.after
            == writer.model@.before + png_rgba8(writer.model@.width, writer.model@.height, writer.model@.images[0]),
{
    writer.handle.inner.finish()
}

/// Encodes `width * height` RGBA pixels (8 bits a channel) as a PNG file:
/// refused exactly when a side is zero or the buffer is not four bytes a
/// pixel.
pub fn encode_png(rgba: &[u8], width: u32, height: u32) -> (res: Result<Vec<u8>, RenderError>)
    ensures
        res is Ok <==> (width > 0 && height > 0 && rgba@.len() == width * height * 4),
        res is Err ==> res == Err::<Vec<u8>, RenderError>(RenderError::PngEncoding),
        res matches Ok(png) ==> png@ == png_rgba8(width, height, rgba@),
{
    // The buffer's length is a `usize`.
    let _len: usize = rgba.len();
    let pixels: u64 = pixel_count(width, height);
    match pixels.checked_mul(4) {
        Some(size) => {
            if size > usize::MAX as u64 {
                // No buffer is that long, so the length cannot match.
                return Err(RenderError::PngEncoding);
            }
        },
        None => {
            return Err(RenderError::PngEncoding);
        },
    }
    let mut out: Vec<u8> = Vec::new();
    let result = encode_into(&mut out, rgba, width, height);
    match result {
        Ok(()) => Ok(out),
        Err(_) => Err(RenderError::PngEncoding),
    }
}

/// `width * height`, which always fits in a `u64`.
fn pixel_count(width: u32, height: u32) -> (n: u64)
    ensures
        n == width * height,
{
    assert(width * height <= 0xffff_ffffu64 * 0xffff_ffffu64) by (nonlinear_arith)
        requires
            width <= 0xffff_ffffu64,
            height <= 0xffff_ffffu64,
    ;
    (width as u64) * (height as u64)
}

fn encode_into(out: &mut Vec<u8>, rgba: &[u8], width: u32, height: u32) -> (res: Result<(), png::EncodingError>)
    requires
        width * height * 4 <= usize::MAX,
    ensures
        res is Ok <==> (width > 0 && height > 0 && rgba@.len() == width * height * 4),
        res is Ok ==> final(out)@ == old(out)@ + png_rgba8(width, height, rgba@),
{
    let mut encoder = png_encoder(out, width, height);
    png_set_color_rgba(&mut encoder);
    png_set_depth_eight(&mut encoder);
    let mut writer = match png_write_header(encoder) {
        Ok(w) => w,
        Err(e) => {
            return Err(e);
        },
    };
    let ghost w: int = width as int;
    let ghost h: int = height as int;
    assert(4 * w <= usize::MAX && (4 * w) * h == w * h * 4) by (nonlinear_arith)
        requires
            h >= 1,
            w >= 0,
            w * h * 4 <= usize::MAX,
    ;
    assert(png_row_len(writer.model@) == 4 * w);
    assert(png_data_len(writer.model@) == w * h * 4);
    match png_write_image_data(&mut writer, rgba) {
        Ok(()) => {},
        Err(e) => {
            return Err(e);
        },
    }
    png_finish(writer)
}

} // verus!
