//! Base64 text and PNG bytes for generated images.

use base64::Engine;
use image::codecs::png::PngEncoder;
use image::{ExtendedColorType, ImageEncoder};
use vstd::prelude::*;

verus! {

/// The character of a six-bit value in the standard Base64 alphabet
/// (RFC 4648): `A`-`Z`, `a`-`z`, `0`-`9`, `+`, `/`.
pub open spec fn base64_digit(v: int) -> char {
    if v < 26 {
        ('A' as int + v) as char
    } else if v < 52 {
        ('a' as int + (v - 26)) as char
    } else if v < 62 {
        ('0' as int + (v - 52)) as char
    } else if v == 62 {
        '+'
    } else {
        '/'
    }
}

/// The standard Base64 encoding of `b` (RFC 4648, with `=` padding): each
/// group of three bytes becomes four characters of six bits each; a last
/// group of one or two bytes is filled with zero bits and padded with `=`.
pub open spec fn base64(b: Seq<u8>) -> Seq<char>
    decreases b.len(),
{
    if b.len() == 0 {
        seq![]
    } else if b.len() == 1 {
        seq![base64_digit(b[0] as int / 4), base64_digit((b[0] as int % 4) * 16), '=', '=']
    } else if b.len() == 2 {
        seq![
            base64_digit(b[0] as int / 4),
            base64_digit((b[0] as int % 4) * 16 + b[1] as int / 16),
            base64_digit((b[1] as int % 16) * 4),
            '=',
        ]
    } else {
        seq![
            base64_digit(b[0] as int / 4),
            base64_digit((b[0] as int % 4) * 16 + b[1] as int / 16),
            base64_digit((b[1] as int % 16) * 4 + b[2] as int / 64),
            base64_digit(b[2] as int % 64),
        ] + base64(b.subrange(3, b.len() as int))
    }
}

/// `base64::engine::general_purpose::STANDARD.encode`: the standard
/// alphabet with padding, as [`base64`] states it.
#[verifier::external_body]
fn standard_base64(bytes: &[u8]) -> (r: String)
    ensures
        r@ == base64(bytes@),
{
    base64::engine::general_purpose::STANDARD.encode(bytes)
}

/// The standard Base64 text of `bytes`.
pub fn encode_base64(bytes: &[u8]) -> (r: String)
    ensures
        r@ == base64(bytes@),
{
    standard_base64(bytes)
}

/// What the `image` crate's PNG encoder, with its default settings, gives
/// for an 8-bit RGB buffer of `width` by `height` pixels: the PNG file, or
/// the text of its error.
pub uninterp spec fn png_rgb8(raw: Seq<u8>, width: u32, height: u32) -> Result<Seq<u8>, Seq<char>>;

/// `PngEncoder::write_image` with `ExtendedColorType::Rgb8` into a fresh
/// buffer; an error is returned as its text. The encoder panics unless the
/// buffer holds exactly three bytes per pixel, which `requires` leaves out.
#[verifier::external_body]
fn png_encode_rgb8(raw: &[u8], width: u32, height: u32) -> (r: Result<Vec<u8>, String>)
    requires
        raw@.len() == width as int * height as int * 3,
    ensures
        match r {
            Ok(b) => png_rgb8(raw@, width, height) == Ok::<Seq<u8>, Seq<char>>(b@),
            Err(m) => png_rgb8(raw@, width, height) == Err::<Seq<u8>, Seq<char>>(m@),
        },
{
    let mut buf: Vec<u8> = Vec::new();
    match PngEncoder::new(&mut buf).write_image(raw, width, height, ExtendedColorType::Rgb8) {
        Ok(()) => Ok(buf),
        Err(e) => Err(e.to_string()),
    }
}

/// The Base64 text of a PNG file, or the error.
pub open spec fn png_base64_outcome(encoded: Result<Seq<u8>, Seq<char>>) -> Result<Seq<char>, Seq<char>> {
    match encoded {
        Ok(b) => Ok(base64(b)),
        Err(m) => Err(m),
    }
}

/// Turns the PNG encoder's answer into Base64 text, keeping an error as it is.
pub fn png_to_base64(encoded: Result<Vec<u8>, String>) -> (r: Result<String, String>)
    ensures
        match r {
            Ok(s) => png_base64_outcome(
                match encoded {
                    Ok(b) => Ok::<Seq<u8>, Seq<char>>(b@),
                    Err(m) => Err::<Seq<u8>, Seq<char>>(m@),
                },
            ) == Ok::<Seq<char>, Seq<char>>(s@),
            Err(m) => png_base64_outcome(
                match encoded {
                    Ok(b) => Ok::<Seq<u8>, Seq<char>>(b@),
                    Err(m) => Err::<Seq<u8>, Seq<char>>(m@),
                },
            ) == Err::<Seq<char>, Seq<char>>(m@),
        },
{
    match encoded {
        Ok(bytes) => Ok(encode_base64(bytes.as_slice())),
        Err(m) => Err(m),
    }
}

/// An 8-bit RGB image of `width` by `height` pixels, encoded as PNG and
/// then as Base64 text; or the encoder's error.
pub fn encode_png_base64(raw: &[u8], width: u32, height: u32) -> (r: Result<String, String>)
    requires
        raw@.len() == width as int * height as int * 3,
    ensures
        match r {
            Ok(s) => png_base64_outcome(png_rgb8(raw@, width, height)) == Ok::<
                Seq<char>,
                Seq<char>,
            >(s@),
            Err(m) => png_base64_outcome(png_rgb8(raw@, width, height)) == Err::<
                Seq<char>,
                Seq<char>,
            >(m@),
        },
{
    png_to_base64(png_encode_rgb8(raw, width, height))
}

} // verus!
