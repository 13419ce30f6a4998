//! Edits of texture exports: in place, where the stored bytes keep their
//! layout, or by writing the texture anew behind the package.

use vstd::prelude::*;
use vstd::slice::slice_subrange;
use vstd::string::StringExecFns;
use crate::layout::{ImageModel, MipLocation, TextureLayout};
use crate::names::NameModel;
use crate::package::{ExportEntry, Package, PackageModel};
use crate::properties::{Change, Split9Edit, Step, TextureAnimationEdit, TextureClampEdit, TextureEditorEdit, TexturePropertyStream, TYPE_BYTE, TYPE_FLOAT, TYPE_INT, TYPE_OBJECT};
use crate::reader::{Dialect, Reader, TYPE_BOOL};
use crate::bytes;
use crate::layout;
use crate::names;
use crate::package;
use crate::properties;
use crate::reader;
use crate::tables;
use crate::text;

verus! {

/// Texture data already decoded by the UTX frontend layer. The package engine
/// owns the binary packaging, while callers remain free to decode TGA/DDS by
/// the most appropriate UI workflow.
#[derive(Debug, Clone)]
pub struct TextureImportRequest {
    pub name: String,
    pub format: u8,
    pub width: i32,
    pub height: i32,
    pub pixels: Vec<u8>,
    pub alpha: Option<bool>,
    pub masked: Option<bool>,
    pub clamp: Option<TextureClampEdit>,
    pub split9: Option<Split9Edit>,
    pub animation: Option<TextureAnimationImport>,
}

/// Animation settings of a texture that is imported. Frame rates are the bit
/// patterns of 32-bit decimals.
#[derive(Debug, Clone)]
pub struct TextureAnimationImport {
    pub anim_next: Option<String>,
    pub max_frame_rate: Option<u32>,
    pub min_frame_rate: Option<u32>,
    pub one_time_anim_loop: Option<bool>,
    pub prime_count: Option<i32>,
    pub total_frame_num: Option<i32>,
}

pub struct AnimationModel {
    pub anim_next: Option<Seq<char>>,
    pub max_frame_rate: Option<u32>,
    pub min_frame_rate: Option<u32>,
    pub one_time_anim_loop: Option<bool>,
    pub prime_count: Option<i32>,
    pub total_frame_num: Option<i32>,
}

pub struct RequestModel {
    pub name: Seq<char>,
    pub image: ImageModel,
    pub alpha: Option<bool>,
    pub masked: Option<bool>,
    pub clamp: Option<TextureClampEdit>,
    pub split9: Option<Split9Edit>,
    pub animation: Option<AnimationModel>,
}

impl View for TextureAnimationImport {
    type V = AnimationModel;

    open spec fn view(&self) -> AnimationModel {
        AnimationModel {
            anim_next: match self.anim_next {
                Some(path) => Some(path@),
                None => None,
            },
            max_frame_rate: self.max_frame_rate,
            min_frame_rate: self.min_frame_rate,
            one_time_anim_loop: self.one_time_anim_loop,
            prime_count: self.prime_count,
            total_frame_num: self.total_frame_num,
        }
    }
}

impl View for TextureImportRequest {
    type V = RequestModel;

    open spec fn view(&self) -> RequestModel {
        RequestModel {
            name: self.name@,
            image: ImageModel {
                format: self.format,
                width: self.width,
                height: self.height,
                pixels: self.pixels@,
            },
            alpha: self.alpha,
            masked: self.masked,
            clamp: self.clamp,
            split9: self.split9,
            animation: match self.animation {
                Some(animation) => Some(animation@),
                None => None,
            },
        }
    }
}

/// Where a property stands in an export.
#[derive(Debug)]
pub struct ExistingPropertyLocation {
    pub name: String,
    pub property_type: u8,
    pub info_offset: usize,
    pub value_offset: usize,
    pub size: usize,
}

pub struct LocationModel {
    pub name: Seq<char>,
    pub kind: u8,
    pub info: int,
    pub start: int,
    pub size: int,
}

impl View for ExistingPropertyLocation {
    type V = LocationModel;

    open spec fn view(&self) -> LocationModel {
        LocationModel {
            name: self.name@,
            kind: self.property_type,
            info: self.info_offset as int,
            start: self.value_offset as int,
            size: self.size as int,
        }
    }
}

pub open spec fn locations_of(locations: Seq<ExistingPropertyLocation>) -> Seq<LocationModel> {
    Seq::new(locations.len(), |i: int| locations[i]@)
}

/// The places of the properties from `p` on, behind those already found.
pub open spec fn locations_from(
    names: Seq<NameModel>,
    d: Seq<u8>,
    p: int,
    found: Seq<LocationModel>,
) -> Result<Seq<LocationModel>, Seq<char>>
    decreases d.len() - p,
    when 0 <= p
{
    match reader::compact_at(Dialect::Engine, d, p) {
        Err(e) => Err(e),
        Ok((index, q)) => match names::name_at(names, index) {
            Err(e) => Err(e),
            Ok(name) => if text::same_folded(name, "None"@) {
                Ok(found)
            } else {
                match reader::tag_at(Dialect::Engine, d, q) {
                    Err(e) => Err(e),
                    Ok(tag) => match reader::skip_end(Dialect::Engine, d, tag.start, tag.size) {
                        Err(e) => Err(e),
                        Ok(end) => {
                            proof {
                                reader::compact_moves(Dialect::Engine, d, p);
                                reader::tag_moves(Dialect::Engine, d, q);
                            }
                            locations_from(
                                names,
                                d,
                                end,
                                found.push(
                                    LocationModel {
                                        name,
                                        kind: tag.kind,
                                        info: tag.info,
                                        start: tag.start,
                                        size: tag.size,
                                    },
                                ),
                            )
                        },
                    },
                }
            },
        },
    }
}

pub open spec fn find_location(
    locations: Seq<LocationModel>,
    name: Seq<char>,
    from: int,
) -> Option<int>
    decreases locations.len() - from,
{
    if from < 0 || from >= locations.len() {
        None
    } else if text::same_folded(locations[from].name, name) {
        Some(from)
    } else {
        find_location(locations, name, from + 1)
    }
}

/// The package data with one property flag changed.
pub open spec fn with_flag_in_place(
    d: Seq<u8>,
    base: int,
    location: LocationModel,
    name: Seq<char>,
    value: bool,
) -> Result<Seq<u8>, Seq<char>> {
    let at = base + location.info;
    if location.kind != TYPE_BOOL {
        Err("A propriedade "@ + name + " não é um bool UE2."@)
    } else if at > usize::MAX {
        Err("Offset de propriedade inválido."@)
    } else if at >= d.len() {
        Err("Dados de propriedade truncados."@)
    } else {
        Ok(
            d.update(
                at,
                (d[at] % 128 + if value {
                    128int
                } else {
                    0
                }) as u8,
            ),
        )
    }
}

/// The package data with one integer property changed.
pub open spec fn with_integer_in_place(
    d: Seq<u8>,
    base: int,
    location: LocationModel,
    name: Seq<char>,
    value: i32,
) -> Result<Seq<u8>, Seq<char>> {
    let at = base + location.start;
    if at + location.size > usize::MAX {
        Err("Offset de propriedade inválido."@)
    } else if at + location.size > d.len() {
        Err("Dados de propriedade truncados."@)
    } else if location.kind == TYPE_BYTE && location.size == 1 {
        if 0 <= value <= 255 {
            Ok(d.update(at, value as u8))
        } else {
            Err(properties::byte_range_text(name))
        }
    } else if location.kind == TYPE_INT && location.size == 4 {
        Ok(bytes::splice(d, at, bytes::i32_bytes(value)))
    } else {
        Err("A propriedade "@ + name + " não possui um formato inteiro UE2 suportado."@)
    }
}

/// The package data with one decimal property changed.
pub open spec fn with_float_in_place(
    d: Seq<u8>,
    base: int,
    location: LocationModel,
    name: Seq<char>,
    bits: u32,
) -> Result<Seq<u8>, Seq<char>> {
    let at = base + location.start;
    if location.kind != TYPE_FLOAT || location.size != 4 {
        Err("A propriedade "@ + name + " não é um decimal UE2."@)
    } else if at > usize::MAX {
        Err("Offset de propriedade inválido."@)
    } else if at + 4 > d.len() {
        Err("Dados de propriedade truncados."@)
    } else {
        Ok(bytes::splice(d, at, bytes::le32(bits)))
    }
}

/// The package data with one reference changed, which must keep its length.
pub open spec fn with_reference_in_place(
    d: Seq<u8>,
    base: int,
    location: LocationModel,
    name: Seq<char>,
    value: i32,
) -> Result<Seq<u8>, Seq<char>> {
    let at = base + location.start;
    if location.kind != TYPE_OBJECT {
        Err("A propriedade "@ + name + " não é uma referência UE2."@)
    } else if reader::compact_bytes(value).len() != location.size {
        Err(
            "A referência "@ + name
                + " exige alterar o tamanho serializado; esta alteração não é segura para este pacote."@,
        )
    } else if at > usize::MAX {
        Err("Offset de propriedade inválido."@)
    } else if at + location.size > d.len() {
        Err("Dados de propriedade truncados."@)
    } else {
        Ok(bytes::splice(d, at, reader::compact_bytes(value)))
    }
}

pub open spec fn missing_property_text(name: Seq<char>) -> Seq<char> {
    "A textura não possui a propriedade "@ + name
        + "; esta alteração exige uma reserialização que não é segura para este pacote."@
}

/// The package data after one change of a property that is already stored.
pub open spec fn with_step_in_place(
    d: Seq<u8>,
    base: int,
    locations: Seq<LocationModel>,
    step: Step,
) -> Result<Seq<u8>, Seq<char>> {
    let name = properties::field_name(step.field);
    if step.change matches Change::Rate(bits) && !properties::is_finite(bits) {
        Err(name + " deve ser um número finito."@)
    } else {
        match find_location(locations, name, 0) {
            None => Err(missing_property_text(name)),
            Some(i) => match step.change {
                Change::Flag(v) => with_flag_in_place(d, base, locations[i], name, v),
                Change::Clamp(v) => with_integer_in_place(d, base, locations[i], name, v),
                Change::ClampMode(v) => with_integer_in_place(d, base, locations[i], name, v),
                Change::Number(v) => with_integer_in_place(d, base, locations[i], name, v),
                Change::Count(v) => with_integer_in_place(d, base, locations[i], name, v),
                Change::Reference(v) => with_reference_in_place(d, base, locations[i], name, v),
                Change::Rate(bits) => with_float_in_place(d, base, locations[i], name, bits),
            },
        }
    }
}

/// The package data after the first `n` changes.
pub open spec fn with_steps_in_place(
    d: Seq<u8>,
    base: int,
    locations: Seq<LocationModel>,
    steps: Seq<Step>,
    n: nat,
) -> Result<Seq<u8>, Seq<char>>
    decreases n,
{
    if n == 0 {
        Ok(d)
    } else {
        match with_steps_in_place(d, base, locations, steps, (n - 1) as nat) {
            Err(e) => Err(e),
            Ok(more) => with_step_in_place(more, base, locations, steps[n - 1]),
        }
    }
}

proof fn steps_in_place_error_spreads(
    d: Seq<u8>,
    base: int,
    locations: Seq<LocationModel>,
    steps: Seq<Step>,
    k: nat,
    n: nat,
)
    requires
        k <= n,
        with_steps_in_place(d, base, locations, steps, k) is Err,
    ensures
        with_steps_in_place(d, base, locations, steps, n) == with_steps_in_place(
            d,
            base,
            locations,
            steps,
            k,
        ),
    decreases n,
{
    if k < n {
        steps_in_place_error_spreads(d, base, locations, steps, k, (n - 1) as nat);
    }
}

/// The package after an edit of properties that are already stored.
#[verifier::opaque]
pub open spec fn edited_in_place(p: PackageModel, index: int, edit: TextureEditorEdit) -> Result<
    PackageModel,
    Seq<char>,
> {
    if properties::steps_of(edit).len() == 0 {
        Ok(p)
    } else {
        match package::nth_export(p, index) {
            Err(e) => Err(e),
            Ok(export) => match reader::offset_of(Dialect::Engine, export.offset, "dados de textura"@) {
                Err(e) => Err(e),
                Ok(base) => match package::data_of(Dialect::Engine, p.data, export) {
                    Err(e) => Err(e),
                    Ok(raw) => match locations_from(p.names, raw, 0, Seq::empty()) {
                        Err(e) => Err(e),
                        Ok(locations) => match with_steps_in_place(
                            p.data,
                            base as int,
                            locations,
                            properties::steps_of(edit),
                            properties::steps_of(edit).len(),
                        ) {
                            Err(e) => Err(e),
                            Ok(data) => Ok(PackageModel { data, ..p }),
                        },
                    },
                },
            },
        }
    }
}

/// The package after the first `n` edits in place.
pub open spec fn edited_in_place_all(
    p: PackageModel,
    edits: Seq<(usize, TextureEditorEdit)>,
    n: nat,
) -> Result<PackageModel, Seq<char>>
    decreases n,
{
    if n == 0 {
        Ok(p)
    } else {
        match edited_in_place_all(p, edits, (n - 1) as nat) {
            Err(e) => Err(e),
            Ok(more) => edited_in_place(more, edits[n - 1].0 as int, edits[n - 1].1),
        }
    }
}

proof fn edited_in_place_error_spreads(
    p: PackageModel,
    edits: Seq<(usize, TextureEditorEdit)>,
    k: nat,
    n: nat,
)
    requires
        k <= n,
        edited_in_place_all(p, edits, k) is Err,
    ensures
        edited_in_place_all(p, edits, n) == edited_in_place_all(p, edits, k),
    decreases n,
{
    if k < n {
        edited_in_place_error_spreads(p, edits, k, (n - 1) as nat);
    }
}

/// The layout of an export of a package.
pub open spec fn package_layout(dialect: Dialect, p: PackageModel, raw: Seq<u8>) -> Result<
    TextureLayout,
    Seq<char>,
> {
    layout::layout_of(dialect, p.names, p.version, p.licensee, raw)
}

/// The first mip map of an export.
pub open spec fn mip_of(p: PackageModel, index: int) -> Result<MipLocation, Seq<char>> {
    match package::nth_export(p, index) {
        Err(e) => Err(e),
        Ok(export) => match package::data_of(Dialect::Engine, p.data, export) {
            Err(e) => Err(e),
            Ok(raw) => match package_layout(Dialect::Engine, p, raw) {
                Err(e) => Err(e),
                Ok(layout) => layout::mip_from(Dialect::Engine, raw, layout.mip_count_offset as int),
            },
        },
    }
}

pub open spec fn not_a_texture_text() -> Seq<char> {
    "A entrada selecionada não é uma textura Engine.Texture."@
}

pub open spec fn wrong_size_text(width: i32, height: i32, new_width: i32, new_height: i32) -> Seq<
    char,
> {
    "Tamanho incompatível: esperado "@ + text::decimal(width as int) + "×"@ + text::decimal(height as int)
        + ", recebido "@ + text::decimal(new_width as int) + "×"@ + text::decimal(new_height as int) + "."@
}

/// Why an image cannot take the place of a stored one, if it cannot.
pub open spec fn misfit(raw: Seq<u8>, layout: TextureLayout, image: ImageModel) -> Result<
    MipLocation,
    Seq<char>,
> {
    if layout.format.offset >= raw.len() {
        Err("A propriedade Format está truncada."@)
    } else if raw[layout.format.offset as int] != image.format {
        Err("O formato da textura substituta é incompatível."@)
    } else {
        match layout::mip_from(Dialect::Engine, raw, layout.mip_count_offset as int) {
            Err(e) => Err(e),
            Ok(mip) => if mip.width != image.width || mip.height != image.height {
                Err(wrong_size_text(mip.width, mip.height, image.width, image.height))
            } else if image.pixels.len() != mip.size {
                Err(
                    "Tamanho de pixels incompatível: esperado "@ + text::decimal(mip.size as int)
                        + " bytes."@,
                )
            } else {
                Ok(mip)
            },
        }
    }
}

/// Package data with other pixels for one export, and with the pointer behind
/// the pixels set anew.
pub open spec fn with_pixels_at(d: Seq<u8>, base: int, mip: MipLocation, pixels: Seq<u8>) -> Result<
    Seq<u8>,
    Seq<char>,
> {
    let at = base + mip.pixel_offset;
    if at + mip.size > usize::MAX {
        Err("Offset de textura inválido."@)
    } else if at + mip.size > d.len() {
        Err("Os pixels estão fora do pacote."@)
    } else if base + mip.width_offset_position > usize::MAX {
        Err("Offset de textura inválido."@)
    } else {
        match bytes::i32_of_len(at + mip.size, "O pacote excede 2 GB."@) {
            Err(e) => Err(e),
            Ok(end) => bytes::with_i32_at(bytes::splice(d, at, pixels), base + mip.width_offset_position, end),
        }
    }
}

/// The package with other pixels for one texture of the same format and size.
#[verifier::opaque]
pub open spec fn with_pixels(p: PackageModel, index: int, image: ImageModel) -> Result<
    PackageModel,
    Seq<char>,
> {
    match package::nth_export(p, index) {
        Err(e) => Err(e),
        Ok(export) => if !package::is_texture_export(Dialect::Engine, p, export) {
            Err(not_a_texture_text())
        } else {
            match package::data_of(Dialect::Engine, p.data, export) {
                Err(e) => Err(e),
                Ok(raw) => match package_layout(Dialect::Engine, p, raw) {
                    Err(e) => Err(e),
                    Ok(layout) => match misfit(raw, layout, image) {
                        Err(e) => Err(e),
                        Ok(mip) => match with_pixels_at(
                            p.data,
                            export.offset as int,
                            mip,
                            image.pixels,
                        ) {
                            Err(e) => Err(e),
                            Ok(data) => Ok(PackageModel { data, ..p }),
                        },
                    },
                },
            }
        },
    }
}

/// The edit that an import asks for beside its pixels.
pub open spec fn edit_of(p: PackageModel, request: RequestModel, index: int) -> Result<
    TextureEditorEdit,
    Seq<char>,
> {
    match request.animation {
        None => Ok(
            TextureEditorEdit {
                alpha: request.alpha,
                masked: request.masked,
                clamp: request.clamp,
                split9: request.split9,
                animation: None,
            },
        ),
        Some(a) => match (match a.anim_next {
            None => Ok(None),
            Some(path) => match tables::resolved(p, index, path) {
                Ok(reference) => Ok(Some(reference)),
                Err(e) => Err(e),
            },
        }) {
            Err(e) => Err(e),
            Ok(anim_next) => Ok(
                TextureEditorEdit {
                    alpha: request.alpha,
                    masked: request.masked,
                    clamp: request.clamp,
                    split9: request.split9,
                    animation: Some(
                        TextureAnimationEdit {
                            anim_next,
                            max_frame_rate: a.max_frame_rate,
                            min_frame_rate: a.min_frame_rate,
                            one_time_anim_loop: a.one_time_anim_loop,
                            prime_count: a.prime_count,
                            total_frame_num: a.total_frame_num,
                        },
                    ),
                },
            ),
        },
    }
}

/// The edit that an import asks for, where it asks for any.
pub open spec fn import_edit_of(p: PackageModel, request: RequestModel, index: int) -> Result<
    Option<TextureEditorEdit>,
    Seq<char>,
> {
    match edit_of(p, request, index) {
        Err(e) => Err(e),
        Ok(edit) => if properties::steps_of(edit).len() > 0 {
            Ok(Some(edit))
        } else {
            Ok(None)
        },
    }
}

/// A texture with an edited property list: its bytes, where its mip maps start
/// in them, and where they started before.
pub struct RewrittenModel {
    pub index: int,
    pub bytes: Seq<u8>,
    pub mip_count_offset: int,
    pub mip: MipLocation,
}

/// One texture written anew, with the names that its properties need.
#[verifier::opaque]
pub open spec fn rewritten_texture(p: PackageModel, index: int, edit: TextureEditorEdit) -> Result<
    (Seq<NameModel>, RewrittenModel),
    Seq<char>,
> {
    match package::nth_export(p, index) {
        Err(e) => Err(e),
        Ok(export) => match package::data_of(Dialect::Engine, p.data, export) {
            Err(e) => Err(e),
            Ok(raw) => match package_layout(Dialect::Engine, p, raw) {
                Err(e) => Err(e),
                Ok(layout) => match properties::stream_from(raw, p.names, 0) {
                    Err(e) => Err(e),
                    Ok(stream) => match properties::with_edit(p.names, stream.properties, edit) {
                        Err(e) => Err(e),
                        Ok((names, records)) => match properties::stream_bytes(names, records) {
                            Err(e) => Err(e),
                            Ok(head) => {
                                let bytes = head + raw.skip(stream.tail_offset);
                                let tail = raw.len() - layout.mip_count_offset;
                                if bytes.len() < tail {
                                    Err("Offset de mip inválido."@)
                                } else {
                                    match mip_of(PackageModel { names, ..p }, index) {
                                        Err(e) => Err(e),
                                        Ok(mip) => Ok(
                                            (
                                                names,
                                                RewrittenModel {
                                                    index,
                                                    bytes,
                                                    mip_count_offset: bytes.len() - tail,
                                                    mip,
                                                },
                                            ),
                                        ),
                                    }
                                }
                            },
                        },
                    },
                },
            },
        },
    }
}

/// The first `n` edited textures, with the names that they need.
pub open spec fn rewritten_textures(
    p: PackageModel,
    edits: Seq<(usize, TextureEditorEdit)>,
    n: nat,
) -> Result<(Seq<NameModel>, Seq<RewrittenModel>), Seq<char>>
    decreases n,
{
    if n == 0 {
        Ok((p.names, Seq::empty()))
    } else {
        match rewritten_textures(p, edits, (n - 1) as nat) {
            Err(e) => Err(e),
            Ok((names, done)) => match rewritten_texture(
                PackageModel { names, ..p },
                edits[n - 1].0 as int,
                edits[n - 1].1,
            ) {
                Err(e) => Err(e),
                Ok((more, one)) => Ok((more, done.push(one))),
            },
        }
    }
}

proof fn rewritten_error_spreads(
    p: PackageModel,
    edits: Seq<(usize, TextureEditorEdit)>,
    k: nat,
    n: nat,
)
    requires
        k <= n,
        rewritten_textures(p, edits, k) is Err,
    ensures
        rewritten_textures(p, edits, n) == rewritten_textures(p, edits, k),
    decreases n,
{
    if k < n {
        rewritten_error_spreads(p, edits, k, (n - 1) as nat);
    }
}

/// A rewritten texture's bytes when they stand at `base`: its mip pointer leads
/// to the dimensions behind the pixels.
pub open spec fn pointed(one: RewrittenModel, base: int) -> Result<Seq<u8>, Seq<char>> {
    let pointer = one.mip_count_offset + (one.mip.width_offset_position - one.mip.mip_count_offset);
    let pixels = one.mip_count_offset + (one.mip.pixel_offset - one.mip.mip_count_offset);
    let end = base + pixels + one.mip.size;
    if pointer > usize::MAX || pixels > usize::MAX || end > usize::MAX {
        Err("Offset de mip inválido."@)
    } else {
        match bytes::i32_of_len(end, "O pacote excede 2 GB."@) {
            Err(e) => Err(e),
            Ok(value) => bytes::with_i32_at(one.bytes, pointer, value),
        }
    }
}

/// Data and exports after the first `n` rewritten textures were put behind.
pub open spec fn placed(
    data: Seq<u8>,
    exports: Seq<ExportEntry>,
    done: Seq<RewrittenModel>,
    n: nat,
) -> Result<(Seq<u8>, Seq<ExportEntry>), Seq<char>>
    decreases n,
{
    if n == 0 {
        Ok((data, exports))
    } else {
        match placed(data, exports, done, (n - 1) as nat) {
            Err(e) => Err(e),
            Ok((d, entries)) => {
                let one = done[n - 1];
                match pointed(one, d.len() as int) {
                    Err(e) => Err(e),
                    Ok(bytes) => match bytes::i32_of_len(d.len() as int, "O pacote excede 2 GB."@) {
                        Err(e) => Err(e),
                        Ok(offset) => match bytes::i32_of_len(
                            bytes.len() as int,
                            "A textura é grande demais."@,
                        ) {
                            Err(e) => Err(e),
                            Ok(size) => Ok(
                                (
                                    d + bytes,
                                    entries.update(
                                        one.index,
                                        ExportEntry { offset, size, ..entries[one.index] },
                                    ),
                                ),
                            ),
                        },
                    },
                }
            },
        }
    }
}

proof fn placed_error_spreads(
    data: Seq<u8>,
    exports: Seq<ExportEntry>,
    done: Seq<RewrittenModel>,
    k: nat,
    n: nat,
)
    requires
        k <= n,
        placed(data, exports, done, k) is Err,
    ensures
        placed(data, exports, done, n) == placed(data, exports, done, k),
    decreases n,
{
    if k < n {
        placed_error_spreads(data, exports, done, k, (n - 1) as nat);
    }
}

/// The package after edits that may change the length of its textures.
#[verifier::opaque]
pub open spec fn edited(p: PackageModel, edits: Seq<(usize, TextureEditorEdit)>) -> Result<
    PackageModel,
    Seq<char>,
> {
    if edits.len() == 0 {
        Ok(p)
    } else {
        match rewritten_textures(p, edits, edits.len()) {
            Err(e) => Err(e),
            Ok((names, done)) => match placed(p.data, p.exports, done, done.len()) {
                Err(e) => Err(e),
                Ok((data, exports)) => tables::rebuilt(p, data, names, p.imports, exports),
            },
        }
    }
}

pub fn wrong_size_message(width: i32, height: i32, new_width: i32, new_height: i32) -> (r: String)
    ensures
        r@ == wrong_size_text(width, height, new_width, new_height),
{
    "Tamanho incompatível: esperado ".to_owned().concat(text::decimal_text(width as i64).as_str()).concat(
        "×",
    ).concat(text::decimal_text(height as i64).as_str()).concat(", recebido ").concat(
        text::decimal_text(new_width as i64).as_str(),
    ).concat("×").concat(text::decimal_text(new_height as i64).as_str()).concat(".")
}

fn find_existing(locations: &[ExistingPropertyLocation], name: &str) -> (r: Option<usize>)
    ensures
        match r {
            Some(i) => i < locations@.len() && find_location(locations_of(locations@), name@, 0)
                == Some(i as int),
            None => find_location(locations_of(locations@), name@, 0) is None,
        },
{
    let mut i: usize = 0;
    while i < locations.len()
        invariant
            i <= locations@.len(),
            find_location(locations_of(locations@), name@, 0) == find_location(
                locations_of(locations@),
                name@,
                i as int,
            ),
        decreases locations.len() - i,
    {
        if text::equals_folded(locations[i].name.as_str(), name) {
            return Some(i);
        }
        i = i + 1;
    }
    None
}

/// The result of a patch of package data: the model's data, or its message and
/// the data as it was.
pub open spec fn patch_result(
    before: Seq<u8>,
    after: Seq<u8>,
    r: Result<(), String>,
    model: Result<Seq<u8>, Seq<char>>,
) -> bool {
    match r {
        Ok(()) => model == Ok::<Seq<u8>, Seq<char>>(after),
        Err(message) => model == Err::<Seq<u8>, Seq<char>>(message@) && after == before,
    }
}

fn patch_existing_bool(
    data: &mut Vec<u8>,
    base: usize,
    property: &ExistingPropertyLocation,
    name: &str,
    value: bool,
) -> (r: Result<(), String>)
    ensures
        patch_result(
            old(data)@,
            final(data)@,
            r,
            with_flag_in_place(old(data)@, base as int, property@, name@, value),
        ),
{
    if property.property_type != TYPE_BOOL {
        return Err(text::join3("A propriedade ", name, " não é um bool UE2."));
    }
    let position: usize = match base.checked_add(property.info_offset) {
        Some(position) => position,
        None => return Err("Offset de propriedade inválido.".to_owned()),
    };
    if position >= data.len() {
        return Err("Dados de propriedade truncados.".to_owned());
    }
    let low: u8 = data[position] % 128;
    data[position] = if value {
        low + 128
    } else {
        low
    };
    Ok(())
}

fn patch_existing_integer(
    data: &mut Vec<u8>,
    base: usize,
    property: &ExistingPropertyLocation,
    name: &str,
    value: i32,
) -> (r: Result<(), String>)
    ensures
        patch_result(
            old(data)@,
            final(data)@,
            r,
            with_integer_in_place(old(data)@, base as int, property@, name@, value),
        ),
{
    let position: usize = match base.checked_add(property.value_offset) {
        Some(position) => position,
        None => return Err("Offset de propriedade inválido.".to_owned()),
    };
    let end: usize = match position.checked_add(property.size) {
        Some(end) => end,
        None => return Err("Offset de propriedade inválido.".to_owned()),
    };
    if end > data.len() {
        return Err("Dados de propriedade truncados.".to_owned());
    }
    if property.property_type == TYPE_BYTE && property.size == 1 {
        if value < 0 || value > 255 {
            return Err(text::join(name, " deve estar entre 0 e 255."));
        }
        data[position] = value as u8;
        Ok(())
    } else if property.property_type == TYPE_INT && property.size == 4 {
        let mut bytes: Vec<u8> = Vec::new();
        bytes::write_i32(&mut bytes, value);
        assert(bytes@ =~= bytes::i32_bytes(value));
        bytes::overwrite(data, position, bytes.as_slice());
        Ok(())
    } else {
        Err(text::join3("A propriedade ", name, " não possui um formato inteiro UE2 suportado."))
    }
}

fn patch_existing_float(
    data: &mut Vec<u8>,
    base: usize,
    property: &ExistingPropertyLocation,
    name: &str,
    bits: u32,
) -> (r: Result<(), String>)
    ensures
        patch_result(
            old(data)@,
            final(data)@,
            r,
            with_float_in_place(old(data)@, base as int, property@, name@, bits),
        ),
{
    if property.property_type != TYPE_FLOAT || property.size != 4 {
        return Err(text::join3("A propriedade ", name, " não é um decimal UE2."));
    }
    let position: usize = match base.checked_add(property.value_offset) {
        Some(position) => position,
        None => return Err("Offset de propriedade inválido.".to_owned()),
    };
    if position > data.len() || data.len() - position < 4 {
        return Err("Dados de propriedade truncados.".to_owned());
    }
    let mut bytes: Vec<u8> = Vec::new();
    bytes::write_u32(&mut bytes, bits);
    assert(bytes@ =~= bytes::le32(bits));
    bytes::overwrite(data, position, bytes.as_slice());
    Ok(())
}

fn patch_existing_object(
    data: &mut Vec<u8>,
    base: usize,
    property: &ExistingPropertyLocation,
    name: &str,
    value: i32,
) -> (r: Result<(), String>)
    ensures
        patch_result(
            old(data)@,
            final(data)@,
            r,
            with_reference_in_place(old(data)@, base as int, property@, name@, value),
        ),
{
    if property.property_type != TYPE_OBJECT {
        return Err(text::join3("A propriedade ", name, " não é uma referência UE2."));
    }
    let mut encoded: Vec<u8> = Vec::new();
    reader::write_compact(&mut encoded, value);
    assert(encoded@ =~= reader::compact_bytes(value));
    if encoded.len() != property.size {
        return Err(
            text::join3(
                "A referência ",
                name,
                " exige alterar o tamanho serializado; esta alteração não é segura para este pacote.",
            ),
        );
    }
    let position: usize = match base.checked_add(property.value_offset) {
        Some(position) => position,
        None => return Err("Offset de propriedade inválido.".to_owned()),
    };
    if position > data.len() || data.len() - position < encoded.len() {
        return Err("Dados de propriedade truncados.".to_owned());
    }
    bytes::overwrite(data, position, encoded.as_slice());
    Ok(())
}

fn patch_step(
    data: &mut Vec<u8>,
    base: usize,
    locations: &[ExistingPropertyLocation],
    step: Step,
) -> (r: Result<(), String>)
    ensures
        patch_result(
            old(data)@,
            final(data)@,
            r,
            with_step_in_place(old(data)@, base as int, locations_of(locations@), step),
        ),
{
    let name = step.field.name();
    if let Change::Rate(bits) = step.change {
        if bits / 8388608 % 256 == 255 {
            return Err(text::join(name, " deve ser um número finito."));
        }
    }
    let i: usize = match find_existing(locations, name) {
        Some(i) => i,
        None => return Err(
            text::join3(
                "A textura não possui a propriedade ",
                name,
                "; esta alteração exige uma reserialização que não é segura para este pacote.",
            ),
        ),
    };
    let property = &locations[i];
    match step.change {
        Change::Flag(v) => patch_existing_bool(data, base, property, name, v),
        Change::Clamp(v) => patch_existing_integer(data, base, property, name, v),
        Change::ClampMode(v) => patch_existing_integer(data, base, property, name, v),
        Change::Number(v) => patch_existing_integer(data, base, property, name, v),
        Change::Count(v) => patch_existing_integer(data, base, property, name, v),
        Change::Reference(v) => patch_existing_object(data, base, property, name, v),
        Change::Rate(bits) => patch_existing_float(data, base, property, name, bits),
    }
}

/// A texture with an edited property list.
struct RewrittenTexture {
    index: usize,
    bytes: Vec<u8>,
    mip_count_offset: usize,
    mip: MipLocation,
}

impl RewrittenTexture {
    spec fn model(&self) -> RewrittenModel {
        RewrittenModel {
            index: self.index as int,
            bytes: self.bytes@,
            mip_count_offset: self.mip_count_offset as int,
            mip: self.mip,
        }
    }
}

spec fn rewritten_models(done: Seq<RewrittenTexture>) -> Seq<RewrittenModel> {
    Seq::new(done.len(), |i: int| done[i].model())
}

/// Sets the mip pointer of a rewritten texture that will stand at `base`.
fn set_pointer(bytes: &mut Vec<u8>, base: usize, mip_count_offset: usize, mip: MipLocation) -> (r:
    Result<(), String>)
    requires
        mip.width_offset_position >= mip.mip_count_offset,
        mip.pixel_offset >= mip.mip_count_offset,
    ensures
        ({
            let model = pointed(
                RewrittenModel {
                    index: 0,
                    bytes: old(bytes)@,
                    mip_count_offset: mip_count_offset as int,
                    mip,
                },
                base as int,
            );
            match r {
                Ok(()) => model == Ok::<Seq<u8>, Seq<char>>(final(bytes)@),
                Err(message) => model == Err::<Seq<u8>, Seq<char>>(message@),
            }
        }),
{
    let pointer: usize = match mip_count_offset.checked_add(
        mip.width_offset_position - mip.mip_count_offset,
    ) {
        Some(pointer) => pointer,
        None => return Err("Offset de mip inválido.".to_owned()),
    };
    let pixels: usize = match mip_count_offset.checked_add(mip.pixel_offset - mip.mip_count_offset) {
        Some(pixels) => pixels,
        None => return Err("Offset de mip inválido.".to_owned()),
    };
    let start: usize = match base.checked_add(pixels) {
        Some(start) => start,
        None => return Err("Offset de mip inválido.".to_owned()),
    };
    let end: usize = match start.checked_add(mip.size) {
        Some(end) => end,
        None => return Err("Offset de mip inválido.".to_owned()),
    };
    let value: i32 = bytes::checked_i32(end, "O pacote excede 2 GB.")?;
    bytes::write_i32_at(bytes, pointer, value)
}

impl Package {
    /// The first mip map of an export.
    pub fn mip0_location(&self, export_index: usize) -> (r: Result<MipLocation, String>)
        ensures
            text::seen(r) == mip_of(self@, export_index as int),
            r matches Ok(mip) ==> mip.mip_count_offset < mip.width_offset_position
                < mip.pixel_offset,
    {
        let export = self.export(export_index)?;
        let raw = self.export_data(Dialect::Engine, &export)?;
        let layout = layout::texture_layout(Dialect::Engine, raw, self)?;
        proof {
            layout::layout_bounds(
                Dialect::Engine,
                self@.names,
                self@.version,
                self@.licensee,
                raw@,
            );
            layout::mip_bounds(Dialect::Engine, raw@, layout.mip_count_offset as int);
        }
        let mut reader = Reader::new(raw, Dialect::Engine);
        reader.seek(layout.mip_count_offset)?;
        layout::read_mip(&mut reader)
    }

    /// The places of the properties of an export.
    pub fn existing_texture_property_locations(&self, raw: &[u8]) -> (r: Result<
        Vec<ExistingPropertyLocation>,
        String,
    >)
        ensures
            match r {
                Ok(locations) => locations_from(self@.names, raw@, 0, Seq::empty()) == Ok::<
                    Seq<LocationModel>,
                    Seq<char>,
                >(locations_of(locations@)),
                Err(message) => locations_from(self@.names, raw@, 0, Seq::empty()) == Err::<
                    Seq<LocationModel>,
                    Seq<char>,
                >(message@),
            },
    {
        let mut reader = Reader::new(raw, Dialect::Engine);
        let mut found: Vec<ExistingPropertyLocation> = Vec::new();
        assert(locations_of(found@) =~= Seq::<LocationModel>::empty());
        loop
            invariant
                reader.wf(),
                reader.data@ == raw@,
                reader.dialect == Dialect::Engine,
                locations_from(self@.names, raw@, 0, Seq::empty()) == locations_from(
                    self@.names,
                    raw@,
                    reader.position as int,
                    locations_of(found@),
                ),
            decreases raw@.len() - reader.position,
        {
            let index: i32 = reader.read_compact()?;
            let name = self.names.name(index)?.to_owned();
            if text::equals_folded(name.as_str(), "None") {
                return Ok(found);
            }
            let tag = reader.read_tag()?;
            proof {
                reader::tag_moves(Dialect::Engine, raw@, tag.info as int);
            }
            reader.skip(tag.size)?;
            let ghost before = locations_of(found@);
            let item = ExistingPropertyLocation {
                name,
                property_type: tag.kind,
                info_offset: tag.info,
                value_offset: tag.start,
                size: tag.size,
            };
            let ghost model = item@;
            found.push(item);
            assert(locations_of(found@) =~= before.push(model));
        }
    }

    fn apply_edit_in_place(&mut self, export_index: usize, edit: &TextureEditorEdit) -> (r: Result<
        (),
        String,
    >)
        ensures
            match r {
                Ok(()) => edited_in_place(old(self)@, export_index as int, *edit) == Ok::<
                    PackageModel,
                    Seq<char>,
                >(final(self)@),
                Err(message) => edited_in_place(old(self)@, export_index as int, *edit) == Err::<
                    PackageModel,
                    Seq<char>,
                >(message@),
            },
    {
        proof {
            reveal(edited_in_place);
        }
        if !edit.has_changes() {
            return Ok(());
        }
        let export = self.export(export_index)?;
        let base: usize = reader::read_offset(Dialect::Engine, export.offset, "dados de textura")?;
        let raw = self.export_data(Dialect::Engine, &export)?;
        let locations = self.existing_texture_property_locations(raw)?;
        let steps = edit.steps();
        let mut data = bytes::copy_bytes(self.data.as_slice());
        let mut i: usize = 0;
        while i < steps.len()
            invariant
                i <= steps@.len(),
                steps@ == properties::steps_of(*edit),
                steps@.len() > 0,
                self@ == old(self)@,
                package::nth_export(self@, export_index as int) == Ok::<ExportEntry, Seq<char>>(export),
                reader::offset_of(Dialect::Engine, export.offset, "dados de textura"@) == Ok::<
                    usize,
                    Seq<char>,
                >(base),
                package::data_of(Dialect::Engine, self@.data, export) is Ok,
                locations_from(
                    self@.names,
                    package::data_of(Dialect::Engine, self@.data, export)->Ok_0,
                    0,
                    Seq::empty(),
                ) == Ok::<Seq<LocationModel>, Seq<char>>(locations_of(locations@)),
                with_steps_in_place(
                    self@.data,
                    base as int,
                    locations_of(locations@),
                    steps@,
                    i as nat,
                ) == Ok::<Seq<u8>, Seq<char>>(data@),
            decreases steps.len() - i,
        {
            proof {
                reveal(edited_in_place);
            }
            match patch_step(&mut data, base, locations.as_slice(), steps[i]) {
                Ok(()) => {},
                Err(message) => {
                    proof {
                        steps_in_place_error_spreads(
                            self@.data,
                            base as int,
                            locations_of(locations@),
                            steps@,
                            (i + 1) as nat,
                            steps@.len(),
                        );
                    }
                    return Err(message);
                },
            }
            i = i + 1;
        }
        self.data = data;
        Ok(())
    }

    /// Patches only values that are already serialized in the texture property
    /// stream. This is the safe path for existing game packages: export sizes,
    /// offsets, and package tables remain byte-for-byte unchanged.
    pub fn apply_texture_edits_in_place(&mut self, edits: &Vec<(usize, TextureEditorEdit)>) -> (r:
        Result<(), String>)
        ensures
            match r {
                Ok(()) => edited_in_place_all(old(self)@, edits@, edits@.len()) == Ok::<
                    PackageModel,
                    Seq<char>,
                >(final(self)@),
                Err(message) => edited_in_place_all(old(self)@, edits@, edits@.len()) == Err::<
                    PackageModel,
                    Seq<char>,
                >(message@),
            },
    {
        let mut i: usize = 0;
        while i < edits.len()
            invariant
                i <= edits@.len(),
                edited_in_place_all(old(self)@, edits@, i as nat) == Ok::<PackageModel, Seq<char>>(
                    self@,
                ),
            decreases edits.len() - i,
        {
            match self.apply_edit_in_place(edits[i].0, &edits[i].1) {
                Ok(()) => {},
                Err(message) => {
                    proof {
                        edited_in_place_error_spreads(
                            old(self)@,
                            edits@,
                            (i + 1) as nat,
                            edits@.len(),
                        );
                    }
                    return Err(message);
                },
            }
            i = i + 1;
        }
        Ok(())
    }

    /// Overwrites the pixels of a texture with others of the same format and
    /// dimensions.
    pub fn replace_pixels(&mut self, export_index: usize, texture: &TextureImportRequest) -> (r:
        Result<(), String>)
        ensures
            match r {
                Ok(()) => with_pixels(old(self)@, export_index as int, texture@.image) == Ok::<
                    PackageModel,
                    Seq<char>,
                >(final(self)@),
                Err(message) => {
                    &&& with_pixels(old(self)@, export_index as int, texture@.image) == Err::<
                        PackageModel,
                        Seq<char>,
                    >(message@)
                    &&& final(self)@ == old(self)@
                },
            },
    {
        proof {
            reveal(with_pixels);
        }
        let export = self.export(export_index)?;
        if !self.is_texture(Dialect::Engine, &export) {
            return Err("A entrada selecionada não é uma textura Engine.Texture.".to_owned());
        }
        let raw = self.export_data(Dialect::Engine, &export)?;
        let layout = layout::texture_layout(Dialect::Engine, raw, self)?;
        if layout.format.offset >= raw.len() {
            return Err("A propriedade Format está truncada.".to_owned());
        }
        if raw[layout.format.offset] != texture.format {
            return Err("O formato da textura substituta é incompatível.".to_owned());
        }
        let mip = self.mip0_location(export_index)?;
        if mip.width != texture.width || mip.height != texture.height {
            return Err(
                wrong_size_message(mip.width, mip.height, texture.width, texture.height),
            );
        }
        if texture.pixels.len() != mip.size {
            proof {
                layout::layout_bounds(
                    Dialect::Engine,
                    self@.names,
                    self@.version,
                    self@.licensee,
                    raw@,
                );
                layout::mip_bounds(Dialect::Engine, raw@, layout.mip_count_offset as int);
                reveal(layout::mip_from);
            }
            return Err(
                text::join3(
                    "Tamanho de pixels incompatível: esperado ",
                    text::decimal_text(mip.size as i64).as_str(),
                    " bytes.",
                ),
            );
        }
        let base: usize = reader::read_offset(Dialect::Engine, export.offset, "dados de textura")?;
        let mut data = bytes::copy_bytes(self.data.as_slice());
        let at: usize = match base.checked_add(mip.pixel_offset) {
            Some(at) => at,
            None => return Err("Offset de textura inválido.".to_owned()),
        };
        let end: usize = match at.checked_add(mip.size) {
            Some(end) => end,
            None => return Err("Offset de textura inválido.".to_owned()),
        };
        if end > data.len() {
            return Err("Os pixels estão fora do pacote.".to_owned());
        }
        bytes::overwrite(&mut data, at, texture.pixels.as_slice());
        let pointer: usize = match base.checked_add(mip.width_offset_position) {
            Some(pointer) => pointer,
            None => return Err("Offset de textura inválido.".to_owned()),
        };
        let value: i32 = bytes::checked_i32(end, "O pacote excede 2 GB.")?;
        bytes::write_i32_at(&mut data, pointer, value)?;
        self.data = data;
        Ok(())
    }

    /// The edit that an import asks for beside its pixels, where it asks for one.
    pub fn import_edit(&self, texture: &TextureImportRequest, export_index: usize) -> (r: Result<
        Option<TextureEditorEdit>,
        String,
    >)
        ensures
            text::seen(r) == import_edit_of(self@, texture@, export_index as int),
    {
        let animation = match &texture.animation {
            None => None,
            Some(a) => {
                let anim_next: Option<i32> = match &a.anim_next {
                    None => None,
                    Some(path) => Some(
                        self.resolve_texture_reference(export_index, path.as_str())?,
                    ),
                };
                Some(
                    TextureAnimationEdit {
                        anim_next,
                        max_frame_rate: a.max_frame_rate,
                        min_frame_rate: a.min_frame_rate,
                        one_time_anim_loop: a.one_time_anim_loop,
                        prime_count: a.prime_count,
                        total_frame_num: a.total_frame_num,
                    },
                )
            },
        };
        let edit = TextureEditorEdit {
            alpha: texture.alpha,
            masked: texture.masked,
            clamp: texture.clamp,
            split9: texture.split9,
            animation,
        };
        if edit.has_changes() {
            Ok(Some(edit))
        } else {
            Ok(None)
        }
    }

    /// Writes one texture anew; the names that it needs are added to the table.
    fn rewrite_texture(&mut self, export_index: usize, edit: &TextureEditorEdit) -> (r: Result<
        RewrittenTexture,
        String,
    >)
        ensures
            match r {
                Ok(one) => {
                    &&& rewritten_texture(old(self)@, export_index as int, *edit) == Ok::<
                        (Seq<NameModel>, RewrittenModel),
                        Seq<char>,
                    >((final(self)@.names, one.model()))
                    &&& final(self)@ == (PackageModel { names: final(self)@.names, ..old(self)@ })
                    &&& one.mip.width_offset_position >= one.mip.mip_count_offset
                    &&& one.mip.pixel_offset >= one.mip.mip_count_offset
                    &&& one.index == export_index
                    &&& export_index < old(self)@.exports.len()
                },
                Err(message) => {
                    &&& rewritten_texture(old(self)@, export_index as int, *edit) == Err::<
                        (Seq<NameModel>, RewrittenModel),
                        Seq<char>,
                    >(message@)
                    &&& final(self)@ == (PackageModel { names: final(self)@.names, ..old(self)@ })
                },
            },
    {
        proof {
            reveal(rewritten_texture);
        }
        let export = self.export(export_index)?;
        let raw = bytes::copy_bytes(self.export_data(Dialect::Engine, &export)?);
        let layout = layout::texture_layout(Dialect::Engine, raw.as_slice(), self)?;
        let mut properties = TexturePropertyStream::parse(raw.as_slice(), &self.names)?;
        proof {
            layout::layout_bounds(
                Dialect::Engine,
                self@.names,
                self@.version,
                self@.licensee,
                raw@,
            );
            stream_end(raw@, self@.names, 0);
        }
        properties.apply_editor_edit(&mut self.names, edit)?;
        let mut bytes = properties.serialize(&self.names)?;
        let ghost head = bytes@;
        let tail_offset: usize = properties.tail_offset();
        bytes::append(&mut bytes, slice_subrange(raw.as_slice(), tail_offset, raw.len()));
        proof {
            assert(raw@.subrange(tail_offset as int, raw@.len() as int) =~= raw@.skip(
                tail_offset as int,
            ));
        }
        let tail: usize = raw.len() - layout.mip_count_offset;
        if bytes.len() < tail {
            return Err("Offset de mip inválido.".to_owned());
        }
        let mip_count_offset: usize = bytes.len() - tail;
        let mip = self.mip0_location(export_index)?;
        Ok(RewrittenTexture { index: export_index, bytes, mip_count_offset, mip })
    }

    /// Writes edited textures and new tables behind the package. Where that fails,
    /// the package is as it was, but for names that the edits have brought.
    pub fn apply_texture_edits(&mut self, edits: &Vec<(usize, TextureEditorEdit)>) -> (r: Result<
        (),
        String,
    >)
        ensures
            match r {
                Ok(()) => edited(old(self)@, edits@) == Ok::<PackageModel, Seq<char>>(
                    final(self)@,
                ),
                Err(message) => {
                    &&& edited(old(self)@, edits@) == Err::<PackageModel, Seq<char>>(message@)
                    &&& final(self)@ == (PackageModel { names: final(self)@.names, ..old(self)@ })
                },
            },
    {
        proof {
            reveal(edited);
        }
        if edits.len() == 0 {
            return Ok(());
        }
        let mut done: Vec<RewrittenTexture> = Vec::new();
        let mut i: usize = 0;
        assert(rewritten_models(done@) =~= Seq::<RewrittenModel>::empty());
        while i < edits.len()
            invariant
                i <= edits@.len(),
                edits@.len() > 0,
                self@ == (PackageModel { names: self@.names, ..old(self)@ }),
                rewritten_textures(old(self)@, edits@, i as nat) == Ok::<
                    (Seq<NameModel>, Seq<RewrittenModel>),
                    Seq<char>,
                >((self@.names, rewritten_models(done@))),
                forall|k: int|
                    0 <= k < done@.len() ==> {
                        let one = #[trigger] done@[k];
                        &&& one.mip.width_offset_position >= one.mip.mip_count_offset
                        &&& one.mip.pixel_offset >= one.mip.mip_count_offset
                        &&& one.index < self@.exports.len()
                    },
            decreases edits.len() - i,
        {
            proof {
                reveal(edited);
            }
            match self.rewrite_texture(edits[i].0, &edits[i].1) {
                Ok(one) => {
                    let ghost before = rewritten_models(done@);
                    let ghost model = one.model();
                    done.push(one);
                    assert(rewritten_models(done@) =~= before.push(model));
                },
                Err(message) => {
                    proof {
                        rewritten_error_spreads(
                            old(self)@,
                            edits@,
                            (i + 1) as nat,
                            edits@.len(),
                        );
                    }
                    return Err(message);
                },
            }
            i = i + 1;
        }
        let mut data = bytes::copy_bytes(self.data.as_slice());
        let mut exports = package::copy_exports(self.exports.as_slice());
        let mut k: usize = 0;
        while k < done.len()
            invariant
                k <= done@.len(),
                edits@.len() > 0,
                exports@.len() == self@.exports.len(),
                self@ == (PackageModel { names: self@.names, ..old(self)@ }),
                rewritten_textures(old(self)@, edits@, edits@.len()) == Ok::<
                    (Seq<NameModel>, Seq<RewrittenModel>),
                    Seq<char>,
                >((self@.names, rewritten_models(done@))),
                forall|k: int|
                    0 <= k < done@.len() ==> {
                        let one = #[trigger] done@[k];
                        &&& one.mip.width_offset_position >= one.mip.mip_count_offset
                        &&& one.mip.pixel_offset >= one.mip.mip_count_offset
                        &&& one.index < self@.exports.len()
                    },
                placed(self@.data, self@.exports, rewritten_models(done@), k as nat) == Ok::<
                    (Seq<u8>, Seq<ExportEntry>),
                    Seq<char>,
                >((data@, exports@)),
            decreases done.len() - k,
        {
            proof {
                reveal(edited);
            }
            let one = &done[k];
            let mut bytes = bytes::copy_bytes(one.bytes.as_slice());
            let base: usize = data.len();
            proof {
                if placed(self@.data, self@.exports, rewritten_models(done@), (k + 1) as nat)
                    is Err {
                    placed_error_spreads(
                        self@.data,
                        self@.exports,
                        rewritten_models(done@),
                        (k + 1) as nat,
                        done@.len(),
                    );
                }
                assert(rewritten_models(done@)[k as int] == one.model());
            }
            set_pointer(&mut bytes, base, one.mip_count_offset, one.mip)?;
            let offset: i32 = bytes::checked_i32(base, "O pacote excede 2 GB.")?;
            let size: i32 = bytes::checked_i32(bytes.len(), "A textura é grande demais.")?;
            let mut entry = exports[one.index];
            entry.offset = offset;
            entry.size = size;
            exports[one.index] = entry;
            bytes::append(&mut data, bytes.as_slice());
            k = k + 1;
        }
        let names = self.names.copy();
        let imports = package::copy_imports(self.imports.as_slice());
        self.rewrite_tables_from_data(data, names, imports, exports)
    }
}

/// A property stream ends inside the data.
pub proof fn stream_end(d: Seq<u8>, names: Seq<NameModel>, p: int)
    requires
        0 <= p,
    ensures
        properties::stream_from(d, names, p) matches Ok(stream) ==> p <= stream.trailing_offset
            < stream.tail_offset <= d.len(),
    decreases d.len() - p,
{
    reader::compact_moves(Dialect::Engine, d, p);
    if let Ok((index, q)) = reader::compact_at(Dialect::Engine, d, p) {
        reader::tag_moves(Dialect::Engine, d, q);
        if let Ok(name) = names::name_at(names, index) {
            if !text::same_folded(name, "None"@) {
                if let Ok(tag) = reader::tag_at(Dialect::Engine, d, q) {
                    if let Ok(end) = reader::exact_end(Dialect::Engine, d, tag.start, tag.size) {
                        stream_end(d, names, end);
                    }
                }
            }
        }
    }
}

} // verus!
