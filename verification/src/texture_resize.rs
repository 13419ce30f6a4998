//! Resizing exported textures: which files are resized, how they are decoded
//! and encoded again, and how the work is summed up.

use vstd::prelude::*;
use vstd::arithmetic::power2::*;
use crate::formats::UtxFormat;
use crate::batch;
use crate::bytes;
use crate::geodata_plan;
use crate::images;
use crate::paths;
use crate::text;

verus! {

/// The smallest texture that is resized.
pub const MIN_UE2_TEXTURE_RESOLUTION: u32 = 4;

/// The largest texture that is resized.
pub const MAX_UE2_TEXTURE_RESOLUTION: u32 = 2048;

/// How many failures a summary describes.
pub const MAX_RESIZE_ERRORS: usize = 30;

/// How far the work has come.
#[derive(Debug, Clone)]
pub struct ResizeProgress {
    pub completed: usize,
    pub total: usize,
    pub file_name: String,
}

/// How the work came out.
#[derive(Debug, Clone)]
pub struct ResizeSummary {
    pub output_directory: String,
    pub total_files: usize,
    pub resized_files: usize,
    pub preserved_files: usize,
    pub copied_metadata: usize,
    pub failed_files: usize,
    pub errors: Vec<String>,
}

/// Whether a size is a power of two that the engine takes.
pub open spec fn supported(resolution: u32) -> bool {
    MIN_UE2_TEXTURE_RESOLUTION <= resolution <= MAX_UE2_TEXTURE_RESOLUTION && exists|n: nat|
        resolution == #[trigger] pow2(n)
}

proof fn powers_are_listed(resolution: u32, n: nat)
    requires
        4 <= resolution <= 2048,
        resolution == pow2(n),
    ensures
        2 <= n <= 11,
{
    lemma2_to64();
    if n > 11 {
        lemma_pow2_strictly_increases(11, n);
    }
}

/// Whether a square texture size is accepted: a power of two from 4 to 2048.
pub fn is_supported_resolution(resolution: u32) -> (r: bool)
    ensures
        r == supported(resolution),
{
    proof {
        lemma2_to64();
        assert forall|n: nat| 4 <= resolution <= 2048 && resolution == #[trigger] pow2(
            n,
        ) implies 2 <= n <= 11 by {
            powers_are_listed(resolution, n);
        }
    }
    resolution == 4 || resolution == 8 || resolution == 16 || resolution == 32 || resolution == 64
        || resolution == 128 || resolution == 256 || resolution == 512 || resolution == 1024
        || resolution == 2048
}

pub fn validate_resolution(resolution: u32) -> (r: Result<(), String>)
    ensures
        match r {
            Ok(()) => supported(resolution),
            Err(message) => !supported(resolution) && message@
                == "A resolução deve ser uma potência de dois entre 4 e 2048 pixels."@,
        },
{
    if is_supported_resolution(resolution) {
        Ok(())
    } else {
        Err("A resolução deve ser uma potência de dois entre 4 e 2048 pixels.".to_owned())
    }
}

/// Whether a file is a texture that can be resized.
pub open spec fn is_resizable_path(path: Seq<char>) -> bool {
    paths::has_extension_of(path, "dds"@) || paths::has_extension_of(path, "tga"@)
}

pub fn is_supported_texture_path(path: &str) -> (r: bool)
    ensures
        r == is_resizable_path(path@),
{
    paths::has_extension(path, "dds") || paths::has_extension(path, "tga")
}

/// Pixels of red, green, blue and alpha, row by row.
#[derive(Debug)]
pub struct RasterImage {
    pub width: u32,
    pub height: u32,
    pub pixels: Vec<u8>,
}

pub struct RasterModel {
    pub width: u32,
    pub height: u32,
    pub pixels: Seq<u8>,
}

impl View for RasterImage {
    type V = RasterModel;

    open spec fn view(&self) -> RasterModel {
        RasterModel { width: self.width, height: self.height, pixels: self.pixels@ }
    }
}

/// Whether an image has just its pixels.
pub open spec fn is_filled(image: RasterModel) -> bool {
    image.pixels.len() == image.width * image.height * 4
}

/// The compressions of DDS files that the engine reads, and the others.
#[derive(Debug, Clone, Copy, PartialEq, Eq, Structural)]
pub enum DdsFormat {
    Dxt1,
    Dxt3,
    Dxt5,
    Other,
}

/// What kind of file a texture came from.
#[derive(Debug, Clone, Copy, PartialEq, Eq, Structural)]
pub enum TextureKind {
    Tga,
    Dds(DdsFormat),
}

/// A texture with the kind of its file.
#[derive(Debug)]
pub struct DecodedTexture {
    pub image: RasterImage,
    pub kind: TextureKind,
}

pub struct DecodedModel {
    pub image: RasterModel,
    pub kind: TextureKind,
}

impl View for DecodedTexture {
    type V = DecodedModel;

    open spec fn view(&self) -> DecodedModel {
        DecodedModel { image: self.image@, kind: self.kind }
    }
}

/// What a decoder hands back.
pub open spec fn image_seen(r: Result<RasterImage, String>) -> Result<RasterModel, Seq<char>> {
    match r {
        Ok(image) => Ok(image@),
        Err(message) => Err(message@),
    }
}

/// The image that the `image` crate reads from a TGA file, or its error.
pub uninterp spec fn tga_image(file: Seq<u8>) -> Result<RasterModel, Seq<char>>;

/// Decodes a TGA file with `image::load_from_memory_with_format`, turned into
/// 8-bit RGBA. The result is what the decoder makes of the file; beside that,
/// an image it returns has four bytes for each pixel.
#[verifier::external_body]
fn read_tga(file: &[u8]) -> (r: Result<RasterImage, String>)
    ensures
        image_seen(r) == tga_image(file@),
        r matches Ok(image) ==> is_filled(image@),
{
    let format = image_dds::image::ImageFormat::Tga;
    match image_dds::image::load_from_memory_with_format(file, format) {
        Ok(decoded) => {
            let image = decoded.to_rgba8();
            let (width, height) = image.dimensions();
            Ok(RasterImage { width, height, pixels: image.into_raw() })
        },
        Err(error) => Err(error.to_string()),
    }
}

/// What `ddsfile` and `image_dds` find out about the format of a DDS file: the
/// error of reading the header, the description of a format that is not known,
/// or the format.
pub uninterp spec fn dds_format_read(file: Seq<u8>) -> Result<
    Result<DdsFormat, Seq<char>>,
    Seq<char>,
>;

pub open spec fn format_seen(r: Result<Result<DdsFormat, String>, String>) -> Result<
    Result<DdsFormat, Seq<char>>,
    Seq<char>,
> {
    match r {
        Ok(Ok(format)) => Ok(Ok(format)),
        Ok(Err(info)) => Ok(Err(info@)),
        Err(message) => Err(message@),
    }
}

/// Reads the header of a DDS file with `ddsfile::Dds::read` and its format with
/// `image_dds::dds_image_format`.
#[verifier::external_body]
fn read_dds_format(file: &[u8]) -> (r: Result<Result<DdsFormat, String>, String>)
    ensures
        format_seen(r) == dds_format_read(file@),
{
    match image_dds::ddsfile::Dds::read(file) {
        Ok(dds) => match image_dds::dds_image_format(&dds) {
            Ok(image_dds::ImageFormat::BC1RgbaUnorm) => Ok(Ok(DdsFormat::Dxt1)),
            Ok(image_dds::ImageFormat::BC2RgbaUnorm) => Ok(Ok(DdsFormat::Dxt3)),
            Ok(image_dds::ImageFormat::BC3RgbaUnorm) => Ok(Ok(DdsFormat::Dxt5)),
            Ok(_) => Ok(Ok(DdsFormat::Other)),
            Err(info) => Ok(Err(format!("{info:?}"))),
        },
        Err(error) => Err(error.to_string()),
    }
}

/// A number in the header of a DDS file.
pub open spec fn dds_field(file: Seq<u8>, at: int) -> int {
    bytes::u32_of(file.subrange(at, at + 4)) as int
}

/// The most layers that the header of a DDS file can announce.
pub open spec fn most_layers(file: Seq<u8>) -> int {
    if file.len() >= 148 && file.subrange(84, 88) == seq![68u8, 88, 49, 48] {
        if dds_field(file, 140) == 0 {
            6
        } else {
            6 * dds_field(file, 140)
        }
    } else {
        6
    }
}

/// The number of slices that the header of a DDS file announces.
pub open spec fn slice_count(file: Seq<u8>) -> int {
    if dds_field(file, 8) / 0x80_0000 % 2 == 1 {
        dds_field(file, 24)
    } else {
        1
    }
}

/// Whether a DDS file announces that it has no picture at all.
pub open spec fn announces_no_picture(file: Seq<u8>) -> bool {
    dds_field(file, 8) / 0x2_0000 % 2 == 1 && dds_field(file, 28) == 0
}

/// Whether the rows of all layers of a DDS file can be counted.
pub open spec fn is_countable_dds(file: Seq<u8>) -> bool {
    &&& file.len() < 0x8000_0000
    &&& file.len() >= 128 ==> most_layers(file) <= u32::MAX
    &&& file.len() >= 128 && announces_no_picture(file) ==> most_layers(file) * (dds_field(file, 12)
        * slice_count(file)) <= u32::MAX
}

/// The image that `image_dds` decodes from a DDS file, or its error.
pub uninterp spec fn dds_image(file: Seq<u8>) -> Result<RasterModel, Seq<char>>;

/// Decodes the largest picture of a DDS file with `ddsfile::Dds::read` and
/// `image_dds::image_from_dds`. The layers stand below each other in the image,
/// and the crate counts their rows in 32 bits without a check: files that
/// announce more are left out. An image has four bytes for each pixel.
#[verifier::external_body]
fn read_dds(file: &[u8]) -> (r: Result<RasterImage, String>)
    requires
        is_countable_dds(file@),
        dds_format_read(file@) matches Ok(Ok(format)) && format != DdsFormat::Other,
    ensures
        image_seen(r) == dds_image(file@),
        r matches Ok(image) ==> is_filled(image@),
{
    let dds = match image_dds::ddsfile::Dds::read(file) {
        Ok(dds) => dds,
        Err(error) => return Err(error.to_string()),
    };
    match image_dds::image_from_dds(&dds, 0) {
        Ok(image) => {
            let (width, height) = image.dimensions();
            Ok(RasterImage { width, height, pixels: image.into_raw() })
        },
        Err(error) => Err(error.to_string()),
    }
}

/// The TGA file that the `image` crate writes for an image, or its error.
pub uninterp spec fn tga_encoded(width: u32, height: u32, pixels: Seq<u8>) -> Result<
    Seq<u8>,
    Seq<char>,
>;

/// Whether a TGA file can hold an image of this size: its header has 16 bits for
/// each side, and none of them may be zero.
pub open spec fn fits_tga(width: u32, height: u32) -> bool {
    0 < width <= 0xffff && 0 < height <= 0xffff
}

/// The bytes that the decoder is ready to hold for one image, 512 MiB.
pub const MAX_DECODED_BYTES: u64 = 536_870_912;

/// Whether a file reads back as an image, where the decoder is ready to hold it.
pub open spec fn reads_back(image: RasterModel, file: Seq<u8>) -> bool {
    image.pixels.len() <= MAX_DECODED_BYTES ==> tga_image(file) == Ok::<RasterModel, Seq<char>>(
        image,
    )
}

/// Encodes an image with `DynamicImage::write_to` in the TGA format. That works
/// just on the sizes that the header of such a file has room for. The file is
/// compressed by runs, which lose nothing: `load_from_memory_with_format` reads
/// the image back from it, unless its pixels take more than 512 MiB.
#[verifier::external_body]
fn write_tga(image: &RasterImage) -> (r: Result<Vec<u8>, String>)
    requires
        is_filled(image@),
    ensures
        images::bytes_result(r, tga_encoded(image.width, image.height, image.pixels@)),
        (r is Ok) == fits_tga(image.width, image.height),
        r matches Ok(file) ==> reads_back(image@, file@),
{
    let pixels = image.pixels.clone();
    match image_dds::image::RgbaImage::from_raw(image.width, image.height, pixels) {
        Some(buffer) => {
            let mut output = std::io::Cursor::new(Vec::new());
            let picture = image_dds::image::DynamicImage::ImageRgba8(buffer);
            match picture.write_to(&mut output, image_dds::image::ImageFormat::Tga) {
                Ok(()) => Ok(output.into_inner()),
                Err(error) => Err(error.to_string()),
            }
        },
        None => Err(String::new()),
    }
}

/// The number of bytes of an image in blocks of four by four pixels.
pub open spec fn payload_len(width: u32, height: u32, format: DdsFormat) -> int {
    ((width + 3) / 4) * ((height + 3) / 4) * if format == DdsFormat::Dxt1 {
        8int
    } else {
        16
    }
}

/// Whether blocks are what `image_dds` makes of an image on some processor.
pub uninterp spec fn is_compression(
    width: u32,
    height: u32,
    pixels: Seq<u8>,
    format: DdsFormat,
    blocks: Seq<u8>,
) -> bool;

/// Compresses an image with `image_dds::dds_from_image`, slowly and without
/// smaller pictures, and hands the blocks on. The crate refuses an image without
/// pixels and no other. The compressor chooses its routine by the processor, so
/// that the blocks are one of the compressions of this image in this format, and
/// which of them is not said; they are as long as the image asks for. Sizes up to
/// 16384 keep the crate's 32-bit products in range.
#[verifier::external_body]
fn compress_dxt(image: &RasterImage, format: DdsFormat) -> (r: Result<Vec<u8>, String>)
    requires
        is_filled(image@),
        image.width <= 16384,
        image.height <= 16384,
        format != DdsFormat::Other,
    ensures
        r is Ok == (image.width != 0 && image.height != 0),
        r matches Ok(blocks) ==> blocks@.len() == payload_len(image.width, image.height, format),
        r matches Ok(blocks) ==> is_compression(
            image.width,
            image.height,
            image.pixels@,
            format,
            blocks@,
        ),
{
    let format = match format {
        DdsFormat::Dxt1 => image_dds::ImageFormat::BC1RgbaUnorm,
        DdsFormat::Dxt3 => image_dds::ImageFormat::BC2RgbaUnorm,
        _ => image_dds::ImageFormat::BC3RgbaUnorm,
    };
    let pixels = image.pixels.clone();
    let buffer = image_dds::image::RgbaImage::from_raw(image.width, image.height, pixels);
    let (quality, mipmaps) = (image_dds::Quality::Slow, image_dds::Mipmaps::Disabled);
    let buffer = buffer.ok_or_else(String::new)?;
    match image_dds::dds_from_image(&buffer, format, quality, mipmaps) {
        Ok(dds) => Ok(dds.data),
        Err(error) => Err(error.to_string()),
    }
}

/// A texture file decoded, from what the decoders make of it.
pub open spec fn decoded_from(
    path: Seq<char>,
    tga: Result<RasterModel, Seq<char>>,
    format: Result<Result<DdsFormat, Seq<char>>, Seq<char>>,
    dds: Result<RasterModel, Seq<char>>,
) -> Result<DecodedModel, Seq<char>> {
    if paths::has_extension_of(path, "tga"@) {
        match tga {
            Ok(image) => Ok(DecodedModel { image, kind: TextureKind::Tga }),
            Err(error) => Err("TGA inválido em "@ + path + (": "@ + error)),
        }
    } else {
        match format {
            Err(error) => Err("DDS inválido em "@ + path + (": "@ + error)),
            Ok(Err(info)) => Err("Formato DDS não suportado em "@ + path + (": "@ + info)),
            Ok(Ok(format)) => if format == DdsFormat::Other {
                Err(
                    path
                        + " usa um DDS não suportado. Apenas DXT1, DXT3 e DXT5 podem ser redimensionados."@,
                )
            } else {
                match dds {
                    Ok(image) => Ok(DecodedModel { image, kind: TextureKind::Dds(format) }),
                    Err(error) => Err("Não foi possível decodificar "@ + path + (": "@ + error)),
                }
            },
        }
    }
}

pub open spec fn decoded_seen(r: Result<DecodedTexture, String>) -> Result<
    DecodedModel,
    Seq<char>,
> {
    match r {
        Ok(texture) => Ok(texture@),
        Err(message) => Err(message@),
    }
}

fn file_message(start: &str, path: &str, error: &str) -> (r: String)
    ensures
        r@ == start@ + path@ + (": "@ + error@),
{
    text::join3(start, path, text::join(": ", error).as_str())
}

/// What is wrong with a TGA file, or the texture it holds.
pub fn tga_texture(path: &str, image: Result<RasterImage, String>) -> (r: Result<
    DecodedTexture,
    String,
>)
    requires
        paths::has_extension_of(path@, "tga"@),
    ensures
        forall|format: Result<Result<DdsFormat, Seq<char>>, Seq<char>>, dds: Result<RasterModel, Seq<char>>|
            decoded_seen(r) == #[trigger] decoded_from(path@, image_seen(image), format, dds),
{
    match image {
        Ok(image) => Ok(DecodedTexture { image, kind: TextureKind::Tga }),
        Err(error) => Err(file_message("TGA inválido em ", path, error.as_str())),
    }
}

/// The compression of a DDS file, or why its texture cannot be resized.
pub fn resizable_format(path: &str, format: Result<Result<DdsFormat, String>, String>) -> (r:
    Result<DdsFormat, String>)
    requires
        !paths::has_extension_of(path@, "tga"@),
    ensures
        match r {
            Ok(found) => found != DdsFormat::Other && format_seen(format) == Ok::<
                Result<DdsFormat, Seq<char>>,
                Seq<char>,
            >(Ok(found)),
            Err(message) => forall|tga: Result<RasterModel, Seq<char>>, dds: Result<RasterModel, Seq<char>>|
                #[trigger] decoded_from(path@, tga, format_seen(format), dds) == Err::<
                    DecodedModel,
                    Seq<char>,
                >(message@),
        },
{
    match format {
        Err(error) => Err(file_message("DDS inválido em ", path, error.as_str())),
        Ok(Err(info)) => Err(file_message("Formato DDS não suportado em ", path, info.as_str())),
        Ok(Ok(format)) => match format {
            DdsFormat::Other => Err(
                text::join(
                    path,
                    " usa um DDS não suportado. Apenas DXT1, DXT3 e DXT5 podem ser redimensionados.",
                ),
            ),
            _ => Ok(format),
        },
    }
}

/// What is wrong with a DDS file of a known compression, or the texture.
pub fn dds_texture(path: &str, format: DdsFormat, image: Result<RasterImage, String>) -> (r: Result<
    DecodedTexture,
    String,
>)
    requires
        !paths::has_extension_of(path@, "tga"@),
        format != DdsFormat::Other,
    ensures
        forall|tga: Result<RasterModel, Seq<char>>|
            decoded_seen(r) == #[trigger] decoded_from(
                path@,
                tga,
                Ok(Ok(format)),
                image_seen(image),
            ),
{
    match image {
        Ok(image) => Ok(DecodedTexture { image, kind: TextureKind::Dds(format) }),
        Err(error) => Err(file_message("Não foi possível decodificar ", path, error.as_str())),
    }
}

/// Decodes a texture file: TGA by its name, otherwise DDS.
pub fn decode_texture(path: &str, file: &[u8]) -> (r: Result<DecodedTexture, String>)
    requires
        paths::has_extension_of(path@, "tga"@) || is_countable_dds(file@),
    ensures
        decoded_seen(r) == decoded_from(
            path@,
            tga_image(file@),
            dds_format_read(file@),
            dds_image(file@),
        ),
        r matches Ok(texture) ==> is_filled(texture.image@),
{
    if paths::has_extension(path, "tga") {
        let image = read_tga(file);
        return tga_texture(path, image);
    }
    let format: DdsFormat = resizable_format(path, read_dds_format(file))?;
    let image = read_dds(file);
    dds_texture(path, format, image)
}

/// Whether the rows of a DDS file can be counted, so that it can be decoded.
pub fn has_countable_rows(file: &[u8]) -> (r: bool)
    ensures
        r == is_countable_dds(file@),
{
    let size: usize = file.len();
    if size >= 0x8000_0000 {
        return false;
    }
    if size < 128 {
        return true;
    }
    let dx10: bool = size >= 148 && file[84] == 68 && file[85] == 88 && file[86] == 49 && file[87]
        == 48;
    proof {
        let name = file@.subrange(84, 88);
        assert(name == seq![68u8, 88, 49, 48] <==> (file@[84] == 68 && file@[85] == 88 && file@[86]
            == 49 && file@[87] == 48)) by {
            if file@[84] == 68 && file@[85] == 88 && file@[86] == 49 && file@[87] == 48 {
                assert(name =~= seq![68u8, 88, 49, 48]);
            } else {
                assert(name[0] == file@[84] && name[1] == file@[85] && name[2] == file@[86]
                    && name[3] == file@[87]);
            }
        }
    }
    let array: u64 = if dx10 {
        bytes::u32_at(file, 140) as u64
    } else {
        1
    };
    let layers: u64 = if array == 0 {
        6
    } else {
        6 * array
    };
    if layers > u32::MAX as u64 {
        return false;
    }
    let flags: u32 = bytes::u32_at(file, 8);
    let levels: u32 = bytes::u32_at(file, 28);
    if flags / 0x2_0000 % 2 != 1 || levels != 0 {
        return true;
    }
    let rows: u64 = bytes::u32_at(file, 12) as u64;
    let slices: u64 = if flags / 0x80_0000 % 2 == 1 {
        bytes::u32_at(file, 24) as u64
    } else {
        1
    };
    assert(0 <= rows * slices <= 0xffff_ffff * 0xffff_ffff) by (nonlinear_arith)
        requires
            0 <= rows <= 0xffff_ffff,
            0 <= slices <= 0xffff_ffff,
    ;
    let product: u64 = rows * slices;
    assert(0 <= layers * product <= 0xffff_ffff * 0xffff_ffff_ffff_ffff) by (nonlinear_arith)
        requires
            0 <= layers <= 0xffff_ffff,
            0 <= product <= 0xffff_ffff_ffff_ffff,
    ;
    (layers as u128) * (product as u128) <= u32::MAX as u128
}

/// Whether a texture is resized: it is a square of the wanted size, and the new
/// size is another one.
pub open spec fn is_resized(image: RasterModel, source: u32, target: u32) -> bool {
    image.width == source && image.height == source && source != target
}

pub fn should_resize(image: &RasterImage, source_resolution: u32, target_resolution: u32) -> (r:
    bool)
    ensures
        r == is_resized(image@, source_resolution, target_resolution),
{
    image.width == source_resolution && image.height == source_resolution && source_resolution
        != target_resolution
}

/// The compression as the engine numbers it.
pub open spec fn utx_format_of(format: DdsFormat) -> UtxFormat {
    match format {
        DdsFormat::Dxt3 => UtxFormat::Dxt3,
        DdsFormat::Dxt5 => UtxFormat::Dxt5,
        _ => UtxFormat::Dxt1,
    }
}

/// The 128 bytes in front of the blocks of a DDS file, as old readers expect
/// them.
pub open spec fn legacy_header(width: u32, height: u32, size: u32, format: DdsFormat) -> Seq<u8> {
    seq![68u8, 68, 83, 32] + bytes::le32(124) + bytes::le32(0x0008_1007) + bytes::le32(height) + bytes::le32(width) + bytes::le32(size)
        + images::zeros(52) + bytes::le32(32) + bytes::le32(4) + images::four_cc(utx_format_of(format)) + images::zeros(20) + bytes::le32(0x1000)
        + images::zeros(16)
}

/// The DDS file of the given blocks.
pub open spec fn legacy_dds(width: u32, height: u32, format: DdsFormat, blocks: Seq<u8>) -> Result<
    Seq<u8>,
    Seq<char>,
> {
    let size = payload_len(width, height, format);
    if format == DdsFormat::Other {
        Err("Formato DDS incompatível para o Unreal Engine 2."@)
    } else if size > usize::MAX {
        Err("Dimensões DDS muito grandes."@)
    } else if blocks.len() != size {
        Err("O compressor DDS gerou um tamanho de textura inesperado."@)
    } else {
        Ok(legacy_header(width, height, (size % 0x1_0000_0000) as u32, format) + blocks)
    }
}

fn write_legacy_header(width: u32, height: u32, size: u32, format: DdsFormat) -> (r: Vec<u8>)
    ensures
        r@ == legacy_header(width, height, size, format),
{
    let mut output: Vec<u8> = vec![68u8, 68, 83, 32];
    bytes::write_u32(&mut output, 124);
    bytes::write_u32(&mut output, 0x0008_1007);
    bytes::write_u32(&mut output, height);
    bytes::write_u32(&mut output, width);
    bytes::write_u32(&mut output, size);
    images::append_zeros(&mut output, 52);
    bytes::write_u32(&mut output, 32);
    bytes::write_u32(&mut output, 4);
    output.push(68);
    output.push(88);
    output.push(84);
    match format {
        DdsFormat::Dxt3 => output.push(51),
        DdsFormat::Dxt5 => output.push(53),
        _ => output.push(49),
    }
    images::append_zeros(&mut output, 20);
    bytes::write_u32(&mut output, 0x1000);
    images::append_zeros(&mut output, 16);
    assert(output@ =~= legacy_header(width, height, size, format));
    output
}

/// Puts compressed blocks into a DDS file with the old header, unchanged.
pub fn build_legacy_dxt_dds(width: u32, height: u32, format: DdsFormat, blocks: &[u8]) -> (r: Result<
    Vec<u8>,
    String,
>)
    ensures
        images::bytes_result(r, legacy_dds(width, height, format, blocks@)),
{
    let block: u128 = match format {
        DdsFormat::Dxt1 => 8,
        DdsFormat::Dxt3 => 16,
        DdsFormat::Dxt5 => 16,
        DdsFormat::Other => {
            return Err("Formato DDS incompatível para o Unreal Engine 2.".to_owned());
        },
    };
    let columns: u128 = (width as u128 + 3) / 4;
    let rows: u128 = (height as u128 + 3) / 4;
    assert(0 <= columns * rows <= 0x4000_0000 * 0x4000_0000) by (nonlinear_arith)
        requires
            0 <= columns <= 0x4000_0000,
            0 <= rows <= 0x4000_0000,
    ;
    let size: u128 = columns * rows * block;
    if size > usize::MAX as u128 {
        return Err("Dimensões DDS muito grandes.".to_owned());
    }
    if blocks.len() as u128 != size {
        return Err("O compressor DDS gerou um tamanho de textura inesperado.".to_owned());
    }
    let mut output = write_legacy_header(width, height, (size % 0x1_0000_0000) as u32, format);
    bytes::append(&mut output, blocks);
    Ok(output)
}

/// What the new file of a texture is, from what the compressor made of it.
pub fn encoded_dds(image: &RasterImage, format: DdsFormat, blocks: Result<Vec<u8>, String>) -> (r:
    Result<Vec<u8>, String>)
    ensures
        match blocks {
            Ok(blocks) => images::bytes_result(
                r,
                legacy_dds(image.width, image.height, format, blocks@),
            ),
            Err(error) => r matches Err(message) && message@ == "Não foi possível codificar o DDS: "@
                + error@,
        },
{
    match blocks {
        Ok(blocks) => build_legacy_dxt_dds(image.width, image.height, format, blocks.as_slice()),
        Err(error) => Err(text::join("Não foi possível codificar o DDS: ", error.as_str())),
    }
}

/// A TGA file, from what the encoder made of an image.
pub open spec fn encoded_tga(file: Result<Seq<u8>, Seq<char>>) -> Result<Seq<u8>, Seq<char>> {
    match file {
        Ok(file) => Ok(file),
        Err(error) => Err("Não foi possível codificar o TGA: "@ + error),
    }
}

/// Whether a file is a DDS file of an image: the header for its size, and blocks
/// that are a compression of it.
pub open spec fn is_dds_of(image: RasterModel, format: DdsFormat, file: Seq<u8>) -> bool {
    exists|blocks: Seq<u8>|
        is_compression(image.width, image.height, image.pixels, format, blocks) && #[trigger]
            legacy_dds(image.width, image.height, format, blocks) == Ok::<Seq<u8>, Seq<char>>(file)
}

/// Encodes an image in the kind of file that it came from. An image with pixels
/// always becomes a DDS file of one of the three compressions, with blocks that
/// the compressor made of just this image.
pub fn encode_texture(image: &RasterImage, kind: TextureKind) -> (r: Result<Vec<u8>, String>)
    requires
        is_filled(image@),
        kind is Dds ==> image.width <= 16384 && image.height <= 16384,
    ensures
        match kind {
            TextureKind::Tga => images::bytes_result(
                r,
                encoded_tga(tga_encoded(image.width, image.height, image.pixels@)),
            ) && (r is Ok) == fits_tga(image.width, image.height) && (r matches Ok(file)
                ==> reads_back(image@, file@)),
            TextureKind::Dds(format) => match r {
                Ok(file) => image.width != 0 && image.height != 0 && is_dds_of(
                    image@,
                    format,
                    file@,
                ),
                Err(message) => if format == DdsFormat::Other {
                    message@ == "Formato DDS incompatível para o Unreal Engine 2."@
                } else {
                    (image.width == 0 || image.height == 0) && exists|error: Seq<char>|
                        message@ == #[trigger] ("Não foi possível codificar o DDS: "@ + error)
                },
            },
        },
{
    match kind {
        TextureKind::Tga => match write_tga(image) {
            Ok(file) => Ok(file),
            Err(error) => Err(text::join("Não foi possível codificar o TGA: ", error.as_str())),
        },
        TextureKind::Dds(format) => {
            if matches!(format, DdsFormat::Other) {
                return Err("Formato DDS incompatível para o Unreal Engine 2.".to_owned());
            }
            let blocks = compress_dxt(image, format);
            proof {
                if blocks is Ok {
                    let columns = (image.width + 3) / 4;
                    let rows = (image.height + 3) / 4;
                    assert(0 <= columns * rows <= 4096 * 4096) by (nonlinear_arith)
                        requires
                            0 <= columns <= 4096,
                            0 <= rows <= 4096,
                    ;
                    assert(payload_len(image.width, image.height, format) <= usize::MAX);
                }
            }
            encoded_dds(image, format, blocks)
        },
    }
}

/// Whether a file is of a kind and shows a picture of a size: a TGA file as the
/// decoder reads it, a DDS file by its header.
pub open spec fn shows_size(kind: TextureKind, width: u32, height: u32, file: Seq<u8>) -> bool {
    match kind {
        TextureKind::Tga => tga_image(file) matches Ok(image) && image.width == width
            && image.height == height,
        TextureKind::Dds(format) => images::dds_content(file) matches Ok((found, w, h, _)) && found
            == utx_format_of(format) && w == width && h == height,
    }
}

/// The file that a texture becomes: the source byte for byte where it keeps its
/// size, or else the resized picture in the kind of the source.
pub fn output_file(source: Vec<u8>, kind: TextureKind, resized: Option<RasterImage>) -> (r: Result<
    Vec<u8>,
    String,
>)
    requires
        resized matches Some(image) ==> is_filled(image@) && 0 < image.width <= 16384 && 0
            < image.height <= 16384,
    ensures
        match resized {
            None => r matches Ok(file) && file@ == source@,
            Some(image) => match r {
                Ok(file) => kind != TextureKind::Dds(DdsFormat::Other) && (image.pixels@.len()
                    <= MAX_DECODED_BYTES ==> shows_size(kind, image.width, image.height, file@)) && (
                match kind {
                    TextureKind::Tga => reads_back(image@, file@) && tga_encoded(
                        image.width,
                        image.height,
                        image.pixels@,
                    ) == Ok::<Seq<u8>, Seq<char>>(file@),
                    TextureKind::Dds(format) => is_dds_of(image@, format, file@),
                }),
                Err(message) => kind == TextureKind::Dds(DdsFormat::Other) && message@
                    == "Formato DDS incompatível para o Unreal Engine 2."@,
            },
        },
{
    match resized {
        None => Ok(source),
        Some(image) => {
            let r = encode_texture(&image, kind);
            proof {
                if kind is Dds && r is Ok {
                    let format = kind->Dds_0;
                    let blocks = choose|blocks: Seq<u8>|
                        is_compression(
                            image.width,
                            image.height,
                            image.pixels@,
                            format,
                            blocks,
                        ) && #[trigger] legacy_dds(image.width, image.height, format, blocks)
                            == Ok::<Seq<u8>, Seq<char>>(r->Ok_0@);
                    resized_dds_is_imported(image.width, image.height, format, blocks);
                }
            }
            r
        },
    }
}

/// What an entry of a folder is.
#[derive(Debug, Clone, Copy, PartialEq, Eq, Structural)]
pub enum EntryKind {
    Directory,
    File,
    Other,
}

/// What a search for textures does with an entry.
#[derive(Debug, Clone, Copy, PartialEq, Eq, Structural)]
pub enum EntryAction {
    Pass,
    Enter,
    Take,
}

/// The search passes by the folder of the outputs, enters every other folder and
/// takes the texture files.
pub open spec fn action_on(path: Seq<char>, is_output: bool, kind: EntryKind) -> EntryAction {
    if is_output {
        EntryAction::Pass
    } else if kind == EntryKind::Directory {
        EntryAction::Enter
    } else if kind == EntryKind::File && is_resizable_path(path) {
        EntryAction::Take
    } else {
        EntryAction::Pass
    }
}

pub fn entry_action(path: &str, is_output: bool, kind: EntryKind) -> (r: EntryAction)
    ensures
        r == action_on(path@, is_output, kind),
{
    if is_output {
        return EntryAction::Pass;
    }
    match kind {
        EntryKind::Directory => EntryAction::Enter,
        EntryKind::File => if is_supported_texture_path(path) {
            EntryAction::Take
        } else {
            EntryAction::Pass
        },
        EntryKind::Other => EntryAction::Pass,
    }
}

/// An entry of a folder, with what stands in it.
pub struct FolderEntry {
    pub path: Seq<char>,
    pub is_output: bool,
    pub kind: EntryKind,
    pub entries: Seq<FolderEntry>,
}

/// The files that a search takes of an entry.
pub open spec fn taken_of(entry: FolderEntry) -> Seq<Seq<char>>
    decreases entry,
{
    match action_on(entry.path, entry.is_output, entry.kind) {
        EntryAction::Pass => Seq::empty(),
        EntryAction::Take => seq![entry.path],
        EntryAction::Enter => taken(entry.entries),
    }
}

/// The files that a search takes of the entries of a folder.
pub open spec fn taken(entries: Seq<FolderEntry>) -> Seq<Seq<char>>
    decreases entries,
{
    if entries.len() == 0 {
        Seq::empty()
    } else {
        taken_of(entries[0]) + taken(entries.subrange(1, entries.len() as int))
    }
}

/// What a run has written is no input of the next: the search takes the same
/// files with the folder of the outputs as without it, whatever that holds.
pub proof fn outputs_are_not_taken(entries: Seq<FolderEntry>, at: int, output: FolderEntry)
    requires
        0 <= at <= entries.len(),
        output.is_output,
    ensures
        taken(entries.insert(at, output)) == taken(entries),
    decreases at,
{
    let more = entries.insert(at, output);
    if at == 0 {
        assert(more.subrange(1, more.len() as int) =~= entries);
        assert(more[0] == output);
        assert(taken_of(output) == Seq::<Seq<char>>::empty());
        assert(taken_of(output) + taken(entries) =~= taken(entries));
    } else {
        let rest = entries.subrange(1, entries.len() as int);
        assert(more.subrange(1, more.len() as int) =~= rest.insert(at - 1, output));
        outputs_are_not_taken(rest, at - 1, output);
        assert(more[0] == entries[0]);
    }
}

/// The work counted so far.
#[derive(Debug)]
pub struct ResizeTotals {
    pub resized_files: usize,
    pub preserved_files: usize,
    pub copied_metadata: usize,
    pub failed_files: usize,
    pub errors: Vec<String>,
}

pub struct ResizeModel {
    pub resized: int,
    pub preserved: int,
    pub copied: int,
    pub failed: int,
    pub errors: Seq<Seq<char>>,
}

impl View for ResizeTotals {
    type V = ResizeModel;

    open spec fn view(&self) -> ResizeModel {
        ResizeModel {
            resized: self.resized_files as int,
            preserved: self.preserved_files as int,
            copied: self.copied_metadata as int,
            failed: self.failed_files as int,
            errors: batch::texts_of(self.errors@),
        }
    }
}

/// The totals after one file: resized or preserved, with its metadata or
/// without, or failed.
pub open spec fn with_texture_result(
    t: ResizeModel,
    path: Seq<char>,
    result: Result<(bool, bool), Seq<char>>,
) -> ResizeModel {
    match result {
        Ok((resized, copied)) => ResizeModel {
            resized: t.resized + if resized {
                1int
            } else {
                0
            },
            preserved: t.preserved + if resized {
                0int
            } else {
                1
            },
            copied: t.copied + if copied {
                1int
            } else {
                0
            },
            ..t
        },
        Err(error) => ResizeModel {
            failed: t.failed + 1,
            errors: if t.errors.len() < MAX_RESIZE_ERRORS {
                t.errors.push(batch::described(path, error))
            } else {
                t.errors
            },
            ..t
        },
    }
}

impl ResizeTotals {
    pub fn empty() -> (r: ResizeTotals)
        ensures
            r@ == nothing_resized(),
    {
        let totals = ResizeTotals {
            resized_files: 0,
            preserved_files: 0,
            copied_metadata: 0,
            failed_files: 0,
            errors: Vec::new(),
        };
        assert(batch::texts_of(totals.errors@) =~= Seq::empty());
        totals
    }

    /// Counts one file.
    pub fn record(&mut self, path: &str, result: Result<(bool, bool), String>)
        requires
            old(self).resized_files < usize::MAX,
            old(self).preserved_files < usize::MAX,
            old(self).copied_metadata < usize::MAX,
            old(self).failed_files < usize::MAX,
        ensures
            final(self)@ == with_texture_result(old(self)@, path@, text::seen(result)),
    {
        match result {
            Ok((resized, copied)) => {
                if resized {
                    self.resized_files += 1;
                } else {
                    self.preserved_files += 1;
                }
                if copied {
                    self.copied_metadata += 1;
                }
            },
            Err(error) => {
                self.failed_files += 1;
                if self.errors.len() < MAX_RESIZE_ERRORS {
                    let ghost before = self.errors@;
                    self.errors.push(text::join3(path, ": ", error.as_str()));
                    assert(batch::texts_of(self.errors@) =~= batch::texts_of(before).push(
                        batch::described(path@, error@),
                    ));
                }
            },
        }
    }

    /// Sums the work up.
    pub fn summary(self, output_directory: &str, total_files: usize) -> (r: ResizeSummary)
        ensures
            r.output_directory@ == geodata_plan::shown_path(output_directory@),
            r.total_files == total_files,
            r.resized_files == self.resized_files,
            r.preserved_files == self.preserved_files,
            r.copied_metadata == self.copied_metadata,
            r.failed_files == self.failed_files,
            r.errors@ == self.errors@,
    {
        ResizeSummary {
            output_directory: geodata_plan::display_path(output_directory),
            total_files,
            resized_files: self.resized_files,
            preserved_files: self.preserved_files,
            copied_metadata: self.copied_metadata,
            failed_files: self.failed_files,
            errors: self.errors,
        }
    }
}

/// Totals of no work.
pub open spec fn nothing_resized() -> ResizeModel {
    ResizeModel { resized: 0, preserved: 0, copied: 0, failed: 0, errors: Seq::empty() }
}

/// The totals of a run, from the outcome of each file in the order in which they
/// came in.
pub open spec fn run_totals(
    outcomes: Seq<(Seq<char>, Result<(bool, bool), Seq<char>>)>,
) -> ResizeModel
    decreases outcomes.len(),
{
    if outcomes.len() == 0 {
        nothing_resized()
    } else {
        with_texture_result(
            run_totals(outcomes.drop_last()),
            outcomes.last().0,
            outcomes.last().1,
        )
    }
}

/// The failures among the outcomes, as they are shown.
pub open spec fn failures(outcomes: Seq<(Seq<char>, Result<(bool, bool), Seq<char>>)>) -> Seq<
    Seq<char>,
>
    decreases outcomes.len(),
{
    if outcomes.len() == 0 {
        Seq::empty()
    } else {
        match outcomes.last().1 {
            Ok(_) => failures(outcomes.drop_last()),
            Err(error) => failures(outcomes.drop_last()).push(
                batch::described(outcomes.last().0, error),
            ),
        }
    }
}

/// A run counts every file once: as resized, as preserved or as failed. It keeps
/// the first of its failures, up to the limit, and counts metadata only for files
/// that did not fail. This holds in whatever order the outcomes come in.
pub proof fn every_texture_is_counted(
    outcomes: Seq<(Seq<char>, Result<(bool, bool), Seq<char>>)>,
)
    ensures
        ({
            let totals = run_totals(outcomes);
            let failed = failures(outcomes);
            &&& totals.resized + totals.preserved + totals.failed == outcomes.len()
            &&& totals.failed == failed.len()
            &&& 0 <= totals.copied <= totals.resized + totals.preserved
            &&& totals.errors == failed.take(
                if failed.len() < MAX_RESIZE_ERRORS {
                    failed.len() as int
                } else {
                    MAX_RESIZE_ERRORS as int
                },
            )
        }),
    decreases outcomes.len(),
{
    if outcomes.len() > 0 {
        every_texture_is_counted(outcomes.drop_last());
        let before = failures(outcomes.drop_last());
        if let Err(error) = outcomes.last().1 {
            let shown = batch::described(outcomes.last().0, error);
            if before.len() < MAX_RESIZE_ERRORS {
                assert(before.take(before.len() as int) =~= before);
                assert(before.push(shown).take(before.len() as int + 1) =~= before.push(shown));
            } else {
                assert(before.push(shown).take(MAX_RESIZE_ERRORS as int) =~= before.take(
                    MAX_RESIZE_ERRORS as int,
                ));
            }
        }
    } else {
        assert(failures(outcomes).take(0) =~= Seq::empty());
    }
}

/// Progress is reported at the end and after every sixteenth file.
pub fn reports_progress(completed: usize, total: usize) -> (r: bool)
    ensures
        r == (completed == total || completed as int % 16 == 0),
{
    completed == total || completed % 16 == 0
}

/// The name of a texture file as it is shown.
pub open spec fn texture_file_name(path: Seq<char>) -> Seq<char> {
    match paths::file_name_of(path) {
        Some(name) => name,
        None => "textura"@,
    }
}

pub fn resize_progress(completed: usize, total: usize, path: &str) -> (r: ResizeProgress)
    ensures
        r.completed == completed,
        r.total == total,
        r.file_name@ == texture_file_name(path@),
{
    let file_name = match paths::file_name(path) {
        Some(name) => name,
        None => "textura".to_owned(),
    };
    ResizeProgress { completed, total, file_name }
}

/// A resized DDS file is one that can be imported: its compression, sizes and
/// blocks are read back.
pub proof fn resized_dds_is_imported(width: u32, height: u32, format: DdsFormat, blocks: Seq<u8>)
    requires
        0 < width <= 16384,
        0 < height <= 16384,
    ensures
        legacy_dds(width, height, format, blocks) matches Ok(file) ==> images::dds_content(file) == Ok::<
            (UtxFormat, i32, i32, Seq<u8>),
            Seq<char>,
        >((utx_format_of(format), width as i32, height as i32, blocks)),
{
    if let Ok(file) = legacy_dds(width, height, format, blocks) {
        let (w, h, f) = (width as i32, height as i32, utx_format_of(format));
        let size = payload_len(width, height, format);
        let columns = (width + 3) / 4;
        let rows = (height + 3) / 4;
        assert(0 <= columns * rows <= 4096 * 4096) by (nonlinear_arith)
            requires
                0 <= columns <= 4096,
                0 <= rows <= 4096,
        ;
        assert(size == images::blocks_len(w as int, h as int, f));
        assert(legacy_header(width, height, size as u32, format) == images::dds_header(
            w,
            h,
            size as i32,
            f,
        ));
        assert(blocks.take(size) =~= blocks);
        assert(images::dds_file(blocks, w, h, f) == Ok::<Seq<u8>, Seq<char>>(file));
        images::dds_round_trip(blocks, w, h, f);
    }
}

} // verus!
