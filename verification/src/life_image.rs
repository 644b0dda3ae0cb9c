//! The board rasterized to a PNG image and wrapped in a base64 data URL,
//! ready for a browser to display.

use crate::life::{BoardState, LIVE};
use base64::Engine;
use vstd::prelude::*;

verus! {

/// The byte one channel of one cell's RGBA pixel carries: alpha is always
/// 255; the color channels are dark gray (51) for a live cell and light
/// gray (204) for a dead one.
pub open spec fn pixel_byte(c: u8, channel: int) -> u8 {
    if channel == 3 {
        255
    } else if c == LIVE {
        51
    } else {
        204
    }
}

/// The RGBA pixel buffer of a cell array: four bytes per cell, in cell
/// order.
pub open spec fn pixel_bytes(cells: Seq<u8>) -> Seq<u8> {
    Seq::new(cells.len() * 4, |j: int| pixel_byte(cells[j / 4], j % 4))
}

/// What the PNG encoder yields for an RGBA pixel buffer of the given
/// dimensions; a function of the pixels and dimensions alone.
pub uninterp spec fn png_bytes(pixels: Seq<u8>, width: u32, height: u32) -> Seq<u8>;

/// What the standard-alphabet, padded base64 encoding of a byte sequence
/// reads as; a function of the bytes alone.
pub uninterp spec fn base64_chars(bytes: Seq<u8>) -> Seq<char>;

/// Relies on `image::RgbaImage::from_raw`, which accepts exactly a buffer
/// of `4 * width * height` bytes, and `ImageBuffer::write_to` with the PNG
/// format: the encoded bytes are a function of the pixel data and the
/// dimensions alone.
#[verifier::external_body]
fn encode_png(pixels: &Vec<u8>, width: u32, height: u32) -> (r: Vec<u8>)
    requires
        pixels@.len() == 4 * width * height,
        width >= 1,
        height >= 1,
    ensures
        r@ == png_bytes(pixels@, width, height),
{
    let img: image::RgbaImage = image::RgbaImage::from_raw(width, height, pixels.clone()).unwrap();
    let mut bytes: Vec<u8> = Vec::new();
    let mut cursor = std::io::Cursor::new(&mut bytes);
    let _ = img.write_to(&mut cursor, image::ImageFormat::Png);
    bytes
}

/// Relies on the `STANDARD` engine of the base64 crate (standard alphabet,
/// padded): `Engine::encode` is a function of the input bytes alone.
#[verifier::external_body]
fn encode_base64(bytes: &Vec<u8>) -> (r: String)
    ensures
        r@ == base64_chars(bytes@),
{
    base64::engine::general_purpose::STANDARD.encode(bytes)
}

/// The board as a `data:image/png;base64,` URL: one RGBA pixel per cell —
/// dark gray when live, light gray when dead — PNG-encoded, base64-encoded
/// and prefixed with the data-URL header.
pub fn draw_image_data_url(state: &BoardState) -> (r: String)
    requires
        state.wf(),
    ensures
        r@ == "data:image/png;base64,"@ + base64_chars(
            png_bytes(pixel_bytes(state.cells@), state.width as u32, state.height as u32),
        ),
{
    let width = state.width as u32;
    let height = state.height as u32;

    let len = state.cells.len();
    let mut pixels: Vec<u8> = Vec::new();
    let mut i: usize = 0;
    while i < len
        invariant
            state.wf(),
            len == state.cells@.len(),
            i <= len,
            pixels@.len() == 4 * i,
            forall|j: int|
                0 <= j < 4 * i ==> pixels@[j] == pixel_byte(state.cells@[j / 4], j % 4),
        decreases len - i,
    {
        let color = if state.cells[i] == LIVE {
            51
        } else {
            204
        };
        pixels.push(color);
        pixels.push(color);
        pixels.push(color);
        pixels.push(255);
        i = i + 1;
    }
    proof {
        assert(pixels@ =~= pixel_bytes(state.cells@));
        assert(width as int == state.width as int);
        assert(height as int == state.height as int);
        assert(4 * ((width as int) * (height as int)) == 4 * (width as int) * (height as int))
            by (nonlinear_arith);
        assert(pixels@.len() == 4 * (width as int) * (height as int));
    }

    let png = encode_png(&pixels, width, height);
    let b64 = encode_base64(&png);

    let mut buf = String::from_str("data:image/png;base64,");
    buf.append(b64.as_str());
    buf
}

} // verus!
