//! Previews: a texture as a PNG file, and as a data URL.

use vstd::prelude::*;
use base64::Engine;
use base64::engine::general_purpose::STANDARD;
use crate::formats::UtxFormat;
use crate::dxt;
use crate::formats;
use crate::images;
use crate::text;

verus! {

/// The PNG file that the `png` crate writes for 8-bit RGBA pixels.
pub uninterp spec fn png_file(rgba: Seq<u8>, width: u32, height: u32) -> Seq<u8>;

/// Whether a file starts with the eight bytes of a PNG file.
pub open spec fn starts_like_png(file: Seq<u8>) -> bool {
    file.len() >= 8 && file.take(8) == seq![137u8, 80, 78, 71, 13, 10, 26, 10]
}

/// Encodes pixels with `png::Encoder`, set to 8-bit RGBA: `write_header`,
/// `write_image_data` and the end chunk that dropping the writer adds. For
/// dimensions above zero and a buffer of just their size the encoder fails only
/// where its output does, and a `Vec` takes every byte. What the file holds
/// behind its signature is left to the name `png_file`.
#[verifier::external_body]
fn png_bytes(rgba: &[u8], width: u32, height: u32) -> (r: Result<Vec<u8>, String>)
    requires
        width > 0,
        height > 0,
        rgba@.len() == width * height * 4,
    ensures
        r is Ok,
        r->Ok_0@ == png_file(rgba@, width, height),
        starts_like_png(r->Ok_0@),
{
    let mut bytes = Vec::new();
    {
        let mut encoder = png::Encoder::new(&mut bytes, width, height);
        encoder.set_color(png::ColorType::Rgba);
        encoder.set_depth(png::BitDepth::Eight);
        let mut writer = encoder.write_header().map_err(|error| error.to_string())?;
        writer.write_image_data(rgba).map_err(|error| error.to_string())?;
    }
    Ok(bytes)
}

/// One character of the base64 alphabet.
pub open spec fn base64_char(v: int) -> char {
    if v < 26 {
        (65 + v) as char
    } else if v < 52 {
        (71 + v) as char
    } else if v < 62 {
        (v - 4) as char
    } else if v == 62 {
        '+'
    } else {
        '/'
    }
}

/// Bytes as padded base64 text: three bytes make four characters.
pub open spec fn base64_text(b: Seq<u8>) -> Seq<char>
    decreases b.len(),
{
    if b.len() == 0 {
        Seq::empty()
    } else if b.len() == 1 {
        seq![base64_char((b[0] / 4) as int), base64_char(b[0] % 4 * 16), '=', '=']
    } else if b.len() == 2 {
        seq![
            base64_char((b[0] / 4) as int),
            base64_char(b[0] % 4 * 16 + b[1] / 16),
            base64_char(b[1] % 16 * 4),
            '=',
        ]
    } else {
        seq![
            base64_char((b[0] / 4) as int),
            base64_char(b[0] % 4 * 16 + b[1] / 16),
            base64_char(b[1] % 16 * 4 + b[2] / 64),
            base64_char((b[2] % 64) as int),
        ] + base64_text(b.skip(3))
    }
}

/// Encodes bytes with the `STANDARD` engine of the `base64` crate: the standard
/// alphabet, with padding. Its length computation fails only on more bytes than
/// a slice can hold.
#[verifier::external_body]
fn base64_of(bytes: &[u8]) -> (r: String)
    ensures
        r@ == base64_text(bytes@),
{
    STANDARD.encode(bytes)
}

/// A texture as a PNG inside a data URL.
#[derive(Debug)]
pub struct TexturePreview {
    pub data_url: String,
    pub width: i32,
    pub height: i32,
}

/// The pixels of a texture, red, green, blue and alpha.
pub open spec fn rgba_of(pixels: Seq<u8>, width: i32, height: i32, format: UtxFormat) -> Result<
    Seq<u8>,
    Seq<char>,
> {
    if width <= 0 || height <= 0 {
        Err("A textura não possui dimensões válidas."@)
    } else if format == UtxFormat::Rgba8 {
        images::rgba_of_bgra(pixels, width as int, height as int)
    } else if formats::compressed(format) {
        dxt::decoded(pixels, width as int, height as int, format)
    } else {
        Err("Formato de prévia não suportado."@)
    }
}

/// The PNG file of a texture.
pub open spec fn png_of(pixels: Seq<u8>, width: i32, height: i32, format: UtxFormat) -> Result<
    Seq<u8>,
    Seq<char>,
> {
    match rgba_of(pixels, width, height, format) {
        Err(e) => Err(e),
        Ok(rgba) => Ok(png_file(rgba, width as u32, height as u32)),
    }
}

pub open spec fn data_url(png: Seq<u8>) -> Seq<char> {
    "data:image/png;base64,"@ + base64_text(png)
}

/// The pixels of a texture, red, green, blue and alpha.
pub fn decode_rgba(pixels: &[u8], width: i32, height: i32, format: UtxFormat) -> (r: Result<
    Vec<u8>,
    String,
>)
    ensures
        images::bytes_result(r, rgba_of(pixels@, width, height, format)),
{
    if width <= 0 || height <= 0 {
        return Err("A textura não possui dimensões válidas.".to_owned());
    }
    match format {
        UtxFormat::Rgba8 => images::bgra_to_rgba(pixels, width as usize, height as usize),
        UtxFormat::Dxt1 | UtxFormat::Dxt3 | UtxFormat::Dxt5 => dxt::decode_dxt(
            pixels,
            width as usize,
            height as usize,
            format,
        ),
        _ => Err("Formato de prévia não suportado.".to_owned()),
    }
}

/// Encodes a texture as a PNG file.
pub fn encode_png(pixels: &[u8], width: i32, height: i32, format: UtxFormat) -> (r: Result<
    Vec<u8>,
    String,
>)
    ensures
        images::bytes_result(r, png_of(pixels@, width, height, format)),
{
    let rgba = decode_rgba(pixels, width, height, format)?;
    proof {
        assert(width * height >= 0) by (nonlinear_arith)
            requires
                width > 0,
                height > 0,
        ;
    }
    match png_bytes(rgba.as_slice(), width as u32, height as u32) {
        Ok(bytes) => Ok(bytes),
        Err(error) => Err(text::join("Falha ao gerar a prévia PNG: ", error.as_str())),
    }
}

/// The preview that shows a PNG file.
pub fn preview_of_png(png: &[u8], width: i32, height: i32) -> (r: TexturePreview)
    ensures
        r.data_url@ == data_url(png@),
        r.width == width,
        r.height == height,
{
    let encoded = base64_of(png);
    TexturePreview { data_url: text::join("data:image/png;base64,", encoded.as_str()), width, height }
}

/// What a preview of a texture is.
pub open spec fn preview_result(
    r: Result<TexturePreview, String>,
    png: Result<Seq<u8>, Seq<char>>,
    width: i32,
    height: i32,
) -> bool {
    match r {
        Ok(preview) => {
            &&& png matches Ok(file)
            &&& preview.data_url@ == data_url(file)
            &&& preview.width == width
            &&& preview.height == height
        },
        Err(message) => png == Err::<Seq<u8>, Seq<char>>(message@),
    }
}

pub fn encode_preview(pixels: &[u8], width: i32, height: i32, format: UtxFormat) -> (r: Result<
    TexturePreview,
    String,
>)
    ensures
        preview_result(r, png_of(pixels@, width, height, format), width, height),
{
    let png = encode_png(pixels, width, height, format)?;
    Ok(preview_of_png(png.as_slice(), width, height))
}

} // verus!
