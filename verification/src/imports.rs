//! Textures that are read from files: what a file holds, and what of its
//! metadata a texture of a package can take over.

use vstd::prelude::*;
use crate::edits::{AnimationModel, RequestModel, TextureAnimationImport, TextureImportRequest};
use crate::entries::{AnimationPropertyPresence, TextureSettings};
use crate::formats::UtxFormat;
use crate::layout::{ImageModel, Split9};
use crate::listing::{EntryModel, UtxEntry};
use crate::metadata::{MetadataModel, TextureMetadata};
use crate::properties::Split9Edit;
use crate::entries;
use crate::formats;
use crate::images;
use crate::layout;
use crate::metadata;
use crate::paths;
use crate::text;

verus! {

/// A texture that was read from a file.
#[derive(Debug)]
pub struct ImportedTexture {
    pub name: String,
    pub format: UtxFormat,
    pub width: i32,
    pub height: i32,
    pub pixels: Vec<u8>,
    pub metadata: TextureMetadata,
}

pub struct ImportedModel {
    pub name: Seq<char>,
    pub format: UtxFormat,
    pub width: i32,
    pub height: i32,
    pub pixels: Seq<u8>,
    pub metadata: MetadataModel,
}

impl View for ImportedTexture {
    type V = ImportedModel;

    open spec fn view(&self) -> ImportedModel {
        ImportedModel {
            name: self.name@,
            format: self.format,
            width: self.width,
            height: self.height,
            pixels: self.pixels@,
            metadata: self.metadata@,
        }
    }
}

/// Whether textures can be stored with these dimensions.
pub open spec fn storable_size(width: i32, height: i32) -> bool {
    layout::exact_log2(width as int) is Some && layout::exact_log2(height as int) is Some
}

pub open spec fn storable_size_text() -> Seq<char> {
    "A textura deve ter largura e altura em potências de dois, como 32×32 ou 256×128."@
}

pub fn validate_import_dimensions(width: i32, height: i32) -> (r: Result<(), String>)
    ensures
        text::seen(r) == (if storable_size(width, height) {
            Ok::<(), Seq<char>>(())
        } else {
            Err::<(), Seq<char>>(storable_size_text())
        }),
{
    if layout::log2(width).is_some() && layout::log2(height).is_some() {
        Ok(())
    } else {
        Err(
            "A textura deve ter largura e altura em potências de dois, como 32×32 ou 256×128.".to_owned(),
        )
    }
}

/// What a texture file holds, by the extension of its path.
pub open spec fn file_content(path: Seq<char>, source: Seq<u8>) -> Result<
    (UtxFormat, i32, i32, Seq<u8>),
    Seq<char>,
> {
    if paths::has_extension_of(path, "tga"@) {
        match images::tga_content(source) {
            Err(e) => Err(e),
            Ok((width, height, pixels)) => Ok((UtxFormat::Rgba8, width, height, pixels)),
        }
    } else if paths::has_extension_of(path, "dds"@) {
        images::dds_content(source)
    } else {
        Err("Formato não suportado. Selecione arquivos .tga ou .dds."@)
    }
}

/// What a texture file holds, where a package can store it.
pub open spec fn storable_content(path: Seq<char>, source: Seq<u8>) -> Result<
    (UtxFormat, i32, i32, Seq<u8>),
    Seq<char>,
> {
    match file_content(path, source) {
        Err(e) => Err(e),
        Ok((format, width, height, pixels)) => if storable_size(width, height) {
            Ok((format, width, height, pixels))
        } else {
            Err(storable_size_text())
        },
    }
}

/// Reads a texture file whose bytes are `source`.
pub fn decode_texture_file(path: &str, source: &[u8]) -> (r: Result<
    (UtxFormat, i32, i32, Vec<u8>),
    String,
>)
    ensures
        images::dds_result(r, storable_content(path@, source@)),
{
    let (format, width, height, pixels) = if paths::has_extension(path, "tga") {
        let (width, height, pixels) = images::tga_pixels(source)?;
        (UtxFormat::Rgba8, width, height, pixels)
    } else if paths::has_extension(path, "dds") {
        images::dds_pixels(source)?
    } else {
        return Err("Formato não suportado. Selecione arquivos .tga ou .dds.".to_owned());
    };
    validate_import_dimensions(width, height)?;
    Ok((format, width, height, pixels))
}

pub open spec fn split9_edit_of(split9: Option<Split9>) -> Option<Split9Edit> {
    match split9 {
        Some(s) => Some(
            Split9Edit {
                enabled: true,
                x1: s.x1,
                x2: s.x2,
                x3: s.x3,
                y1: s.y1,
                y2: s.y2,
                y3: s.y3,
            },
        ),
        None => None,
    }
}

/// The request that asks the engine to store a texture.
pub open spec fn request_of(texture: ImportedModel) -> Result<RequestModel, Seq<char>> {
    match formats::format_value(texture.format) {
        None => Err("Formato de textura inválido para importação."@),
        Some(format) => Ok(
            RequestModel {
                name: texture.name,
                image: ImageModel {
                    format,
                    width: texture.width,
                    height: texture.height,
                    pixels: texture.pixels,
                },
                alpha: texture.metadata.settings.alpha,
                masked: texture.metadata.settings.masked,
                clamp: entries::clamp_of(texture.metadata.settings),
                split9: split9_edit_of(texture.metadata.split9),
                animation: texture.metadata.animation,
            },
        ),
    }
}

/// A request that is handed to callers.
pub open spec fn request_result(
    r: Result<TextureImportRequest, String>,
    model: Result<RequestModel, Seq<char>>,
) -> bool {
    match r {
        Ok(request) => model == Ok::<RequestModel, Seq<char>>(request@),
        Err(message) => model == Err::<RequestModel, Seq<char>>(message@),
    }
}

pub fn texture_engine_import_request(texture: ImportedTexture) -> (r: Result<
    TextureImportRequest,
    String,
>)
    ensures
        request_result(r, request_of(texture@)),
{
    let format: u8 = match texture.format.value() {
        Some(format) => format,
        None => return Err("Formato de textura inválido para importação.".to_owned()),
    };
    let split9 = match texture.metadata.split9 {
        Some(s) => Some(
            Split9Edit {
                enabled: true,
                x1: s.x1,
                x2: s.x2,
                x3: s.x3,
                y1: s.y1,
                y2: s.y2,
                y3: s.y3,
            },
        ),
        None => None,
    };
    Ok(
        TextureImportRequest {
            name: texture.name,
            format,
            width: texture.width,
            height: texture.height,
            pixels: texture.pixels,
            alpha: texture.metadata.settings.alpha,
            masked: texture.metadata.settings.masked,
            clamp: texture.metadata.settings.clamp_edit(),
            split9,
            animation: texture.metadata.animation,
        },
    )
}

/// A value that only stays where the texture stores its property.
pub open spec fn if_supported<T>(value: Option<T>, supported: bool) -> Option<T> {
    if supported {
        value
    } else {
        None
    }
}

/// Settings without those that a texture does not store.
pub open spec fn supported_settings(new: TextureSettings, old_ones: TextureSettings) -> TextureSettings {
    TextureSettings {
        alpha: if_supported(new.alpha, old_ones.alpha is Some),
        masked: if_supported(new.masked, old_ones.masked is Some),
        u_clamp: if_supported(new.u_clamp, old_ones.u_clamp is Some),
        v_clamp: if_supported(new.v_clamp, old_ones.v_clamp is Some),
        u_clamp_mode: if_supported(new.u_clamp_mode, old_ones.u_clamp_mode is Some),
        v_clamp_mode: if_supported(new.v_clamp_mode, old_ones.v_clamp_mode is Some),
    }
}

/// An animation without the values that a texture does not store.
pub open spec fn supported_animation(new: AnimationModel, stored: AnimationPropertyPresence) -> AnimationModel {
    AnimationModel {
        anim_next: if_supported(new.anim_next, stored.anim_next),
        max_frame_rate: if_supported(new.max_frame_rate, stored.max_frame_rate),
        min_frame_rate: if_supported(new.min_frame_rate, stored.min_frame_rate),
        one_time_anim_loop: if_supported(new.one_time_anim_loop, stored.one_time_anim_loop),
        prime_count: if_supported(new.prime_count, stored.prime_count),
        total_frame_num: if_supported(new.total_frame_num, stored.total_frame_num),
    }
}

/// Metadata without what a texture of a package does not store: a replacement
/// must not make its property list longer.
pub open spec fn supported_metadata(new: MetadataModel, existing: EntryModel) -> MetadataModel {
    MetadataModel {
        settings: supported_settings(new.settings, existing.settings),
        split9: if_supported(new.split9, existing.has_split9),
        animation: match new.animation {
            None => None,
            Some(animation) => match existing.animation {
                None => None,
                Some(found) => {
                    let kept = supported_animation(animation, found.properties);
                    if metadata::some_animation(kept) {
                        Some(kept)
                    } else {
                        None
                    }
                },
            },
        },
    }
}

/// The name of a value that is dropped.
pub open spec fn dropped<T>(value: Option<T>, supported: bool, name: Seq<char>) -> Seq<Seq<char>> {
    if value is Some && !supported {
        seq![name]
    } else {
        Seq::empty()
    }
}

/// The names of the settings that are dropped.
pub open spec fn dropped_settings(new: TextureSettings, old_ones: TextureSettings) -> Seq<Seq<char>> {
    dropped(new.alpha, old_ones.alpha is Some, "Alpha"@) + dropped(
        new.masked,
        old_ones.masked is Some,
        "Masked"@,
    ) + dropped(new.u_clamp, old_ones.u_clamp is Some, "UClamp"@) + dropped(
        new.v_clamp,
        old_ones.v_clamp is Some,
        "VClamp"@,
    ) + dropped(new.u_clamp_mode, old_ones.u_clamp_mode is Some, "UClampMode"@) + dropped(
        new.v_clamp_mode,
        old_ones.v_clamp_mode is Some,
        "VClampMode"@,
    )
}

/// The names of the animation values that are dropped.
pub open spec fn dropped_animation(new: AnimationModel, stored: AnimationPropertyPresence) -> Seq<
    Seq<char>,
> {
    dropped(new.anim_next, stored.anim_next, "AnimNext"@) + dropped(
        new.max_frame_rate,
        stored.max_frame_rate,
        "MaxFrameRate"@,
    ) + dropped(new.min_frame_rate, stored.min_frame_rate, "MinFrameRate"@) + dropped(
        new.one_time_anim_loop,
        stored.one_time_anim_loop,
        "OneTimeAnimLoop"@,
    ) + dropped(new.prime_count, stored.prime_count, "PrimeCount"@) + dropped(
        new.total_frame_num,
        stored.total_frame_num,
        "TotalFrameNum"@,
    )
}

/// The names of all that is dropped.
pub open spec fn dropped_metadata(new: MetadataModel, existing: EntryModel) -> Seq<Seq<char>> {
    dropped_settings(new.settings, existing.settings) + dropped(
        new.split9,
        existing.has_split9,
        "Split9"@,
    ) + match new.animation {
        None => Seq::empty(),
        Some(animation) => match existing.animation {
            None => seq!["Animations"@],
            Some(found) => dropped_animation(animation, found.properties),
        },
    }
}

pub open spec fn names_seen(names: Seq<&'static str>) -> Seq<Seq<char>> {
    Seq::new(names.len(), |i: int| names[i]@)
}

/// Drops a flag that is not supported.
fn keep_flag(value: &mut Option<bool>, supported: bool, names: &mut Vec<&'static str>, name: &'static str)
    ensures
        *final(value) == if_supported(*old(value), supported),
        names_seen(final(names)@) == names_seen(old(names)@) + dropped(
            *old(value),
            supported,
            name@,
        ),
{
    let ghost before = names_seen(names@);
    if value.is_some() && !supported {
        names.push(name);
        assert(names_seen(names@) =~= before + seq![name@]);
    } else {
        assert(names_seen(names@) =~= before + Seq::<Seq<char>>::empty());
    }
    if !supported {
        *value = None;
    }
}

/// Drops a number that is not supported.
fn keep_number(value: &mut Option<i32>, supported: bool, names: &mut Vec<&'static str>, name: &'static str)
    ensures
        *final(value) == if_supported(*old(value), supported),
        names_seen(final(names)@) == names_seen(old(names)@) + dropped(
            *old(value),
            supported,
            name@,
        ),
{
    let ghost before = names_seen(names@);
    if value.is_some() && !supported {
        names.push(name);
        assert(names_seen(names@) =~= before + seq![name@]);
    } else {
        assert(names_seen(names@) =~= before + Seq::<Seq<char>>::empty());
    }
    if !supported {
        *value = None;
    }
}

/// Drops a frame rate that is not supported.
fn keep_rate(value: &mut Option<u32>, supported: bool, names: &mut Vec<&'static str>, name: &'static str)
    ensures
        *final(value) == if_supported(*old(value), supported),
        names_seen(final(names)@) == names_seen(old(names)@) + dropped(
            *old(value),
            supported,
            name@,
        ),
{
    let ghost before = names_seen(names@);
    if value.is_some() && !supported {
        names.push(name);
        assert(names_seen(names@) =~= before + seq![name@]);
    } else {
        assert(names_seen(names@) =~= before + Seq::<Seq<char>>::empty());
    }
    if !supported {
        *value = None;
    }
}

proof fn six_joined(
    before: Seq<Seq<char>>,
    a: Seq<Seq<char>>,
    b: Seq<Seq<char>>,
    c: Seq<Seq<char>>,
    d: Seq<Seq<char>>,
    e: Seq<Seq<char>>,
    f: Seq<Seq<char>>,
)
    ensures
        before + a + b + c + d + e + f == before + (a + b + c + d + e + f),
{
    assert(before + a + b =~= before + (a + b));
    assert(before + (a + b) + c =~= before + (a + b + c));
    assert(before + (a + b + c) + d =~= before + (a + b + c + d));
    assert(before + (a + b + c + d) + e =~= before + (a + b + c + d + e));
    assert(before + (a + b + c + d + e) + f =~= before + (a + b + c + d + e + f));
}

fn keep_settings(new: &mut TextureSettings, old_ones: &TextureSettings, names: &mut Vec<&'static str>)
    ensures
        *final(new) == supported_settings(*old(new), *old_ones),
        names_seen(final(names)@) == names_seen(old(names)@) + dropped_settings(
            *old(new),
            *old_ones,
        ),
{
    let ghost before = names_seen(names@);
    keep_flag(&mut new.alpha, old_ones.alpha.is_some(), names, "Alpha");
    keep_flag(&mut new.masked, old_ones.masked.is_some(), names, "Masked");
    keep_number(&mut new.u_clamp, old_ones.u_clamp.is_some(), names, "UClamp");
    keep_number(&mut new.v_clamp, old_ones.v_clamp.is_some(), names, "VClamp");
    keep_number(&mut new.u_clamp_mode, old_ones.u_clamp_mode.is_some(), names, "UClampMode");
    keep_number(&mut new.v_clamp_mode, old_ones.v_clamp_mode.is_some(), names, "VClampMode");
    proof {
        let n = *old(new);
        let o = *old_ones;
        six_joined(
            before,
            dropped(n.alpha, o.alpha is Some, "Alpha"@),
            dropped(n.masked, o.masked is Some, "Masked"@),
            dropped(n.u_clamp, o.u_clamp is Some, "UClamp"@),
            dropped(n.v_clamp, o.v_clamp is Some, "VClamp"@),
            dropped(n.u_clamp_mode, o.u_clamp_mode is Some, "UClampMode"@),
            dropped(n.v_clamp_mode, o.v_clamp_mode is Some, "VClampMode"@),
        );
    }
}

fn keep_animation(
    new: &mut TextureAnimationImport,
    stored: &AnimationPropertyPresence,
    names: &mut Vec<&'static str>,
)
    ensures
        final(new)@ == supported_animation(old(new)@, *stored),
        names_seen(final(names)@) == names_seen(old(names)@) + dropped_animation(
            old(new)@,
            *stored,
        ),
{
    let ghost before = names_seen(names@);
    if new.anim_next.is_some() && !stored.anim_next {
        names.push("AnimNext");
        assert(names_seen(names@) =~= before + seq!["AnimNext"@]);
    } else {
        assert(names_seen(names@) =~= before + Seq::<Seq<char>>::empty());
    }
    if !stored.anim_next {
        new.anim_next = None;
    }
    keep_rate(&mut new.max_frame_rate, stored.max_frame_rate, names, "MaxFrameRate");
    keep_rate(&mut new.min_frame_rate, stored.min_frame_rate, names, "MinFrameRate");
    keep_flag(&mut new.one_time_anim_loop, stored.one_time_anim_loop, names, "OneTimeAnimLoop");
    keep_number(&mut new.prime_count, stored.prime_count, names, "PrimeCount");
    keep_number(&mut new.total_frame_num, stored.total_frame_num, names, "TotalFrameNum");
    proof {
        let n = old(new)@;
        six_joined(
            before,
            dropped(n.anim_next, stored.anim_next, "AnimNext"@),
            dropped(n.max_frame_rate, stored.max_frame_rate, "MaxFrameRate"@),
            dropped(n.min_frame_rate, stored.min_frame_rate, "MinFrameRate"@),
            dropped(n.one_time_anim_loop, stored.one_time_anim_loop, "OneTimeAnimLoop"@),
            dropped(n.prime_count, stored.prime_count, "PrimeCount"@),
            dropped(n.total_frame_num, stored.total_frame_num, "TotalFrameNum"@),
        );
    }
}

/// Existing game UTX files are not uniform: optional UE2 properties such as
/// `UClampMode` may be absent from one texture and serialized in another. A
/// replacement must never grow the property's byte stream, because that would
/// move the mip data and invalidate its serial size. When the destination does
/// not contain an optional property, its current value is retained and the
/// pixels are replaced normally.
pub fn preserve_unsupported_existing_metadata(texture: &mut ImportedTexture, existing: &UtxEntry) -> (r:
    Vec<&'static str>)
    ensures
        final(texture)@ == (ImportedModel {
            metadata: supported_metadata(old(texture)@.metadata, existing@),
            ..old(texture)@
        }),
        names_seen(r@) == dropped_metadata(old(texture)@.metadata, existing@),
{
    let mut names: Vec<&'static str> = Vec::new();
    let ghost new = texture@.metadata;
    assert(names_seen(names@) =~= Seq::<Seq<char>>::empty());
    keep_settings(&mut texture.metadata.settings, &existing.settings, &mut names);
    let ghost before = names_seen(names@);
    if texture.metadata.split9.is_some() && !existing.has_split9 {
        names.push("Split9");
        assert(names_seen(names@) =~= before + seq!["Split9"@]);
    } else {
        assert(names_seen(names@) =~= before + Seq::<Seq<char>>::empty());
    }
    if !existing.has_split9 {
        texture.metadata.split9 = None;
    }
    let ghost middle = names_seen(names@);
    let animation = texture.metadata.animation.take();
    texture.metadata.animation = match animation {
        None => {
            assert(names_seen(names@) =~= middle + Seq::<Seq<char>>::empty());
            None
        },
        Some(mut animation) => match &existing.animation {
            None => {
                names.push("Animations");
                assert(names_seen(names@) =~= middle + seq!["Animations"@]);
                None
            },
            Some(found) => {
                keep_animation(&mut animation, &found.properties, &mut names);
                if animation.has_values() {
                    Some(animation)
                } else {
                    None
                }
            },
        },
    };
    assert(names_seen(names@) =~= dropped_metadata(new, existing@));
    names
}

} // verus!
