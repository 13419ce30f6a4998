//! Where a texture export keeps its format, its dimensions and its mip maps.

use vstd::prelude::*;
use vstd::slice::slice_subrange;
use vstd::string::StringExecFns;
use crate::names::NameModel;
use crate::package::Package;
use crate::reader::{Dialect, Reader, Tag, TagModel};
use crate::bytes;
use crate::package;
use crate::reader;
use crate::text;

verus! {

/// The place of a property value.
#[derive(Debug, Clone, Copy, PartialEq, Eq, Structural)]
pub struct PropertyPatch {
    pub offset: usize,
    pub size: usize,
}

/// The properties that a layout is made of, as far as they were found.
#[derive(Debug, Clone, Copy)]
pub struct LayoutParts {
    pub format: Option<PropertyPatch>,
    pub width: Option<PropertyPatch>,
    pub height: Option<PropertyPatch>,
    pub u_bits: Option<PropertyPatch>,
    pub v_bits: Option<PropertyPatch>,
    pub anim_next: Option<i32>,
    pub split9_x1: Option<PropertyPatch>,
    pub split9_x2: Option<PropertyPatch>,
    pub split9_x3: Option<PropertyPatch>,
    pub split9_y1: Option<PropertyPatch>,
    pub split9_y2: Option<PropertyPatch>,
    pub split9_y3: Option<PropertyPatch>,
}

/// The layout of a texture export.
#[derive(Debug, Clone, Copy)]
pub struct TextureLayout {
    pub format: PropertyPatch,
    pub width: Option<PropertyPatch>,
    pub height: Option<PropertyPatch>,
    pub u_bits: Option<PropertyPatch>,
    pub v_bits: Option<PropertyPatch>,
    pub anim_next: Option<i32>,
    pub split9_x1: Option<PropertyPatch>,
    pub split9_x2: Option<PropertyPatch>,
    pub split9_x3: Option<PropertyPatch>,
    pub split9_y1: Option<PropertyPatch>,
    pub split9_y2: Option<PropertyPatch>,
    pub split9_y3: Option<PropertyPatch>,
    pub mip_count_offset: usize,
    pub mip_width_offset: usize,
    pub mip_payload_offset: usize,
}

/// The place and the dimensions of the first mip map.
#[derive(Debug, Clone, Copy)]
pub struct MipLocation {
    pub mip_count_offset: usize,
    pub pixel_offset: usize,
    pub width_offset_position: usize,
    pub size: usize,
    pub width: i32,
    pub height: i32,
}

pub open spec fn no_parts() -> LayoutParts {
    LayoutParts {
        format: None,
        width: None,
        height: None,
        u_bits: None,
        v_bits: None,
        anim_next: None,
        split9_x1: None,
        split9_x2: None,
        split9_x3: None,
        split9_y1: None,
        split9_y2: None,
        split9_y3: None,
    }
}

pub open spec fn patch_of(tag: TagModel) -> PropertyPatch {
    PropertyPatch { offset: tag.start as usize, size: tag.size as usize }
}

pub open spec fn animation_overflow_text(dialect: Dialect) -> Seq<char> {
    match dialect {
        Dialect::Frontend => "Offset de propriedade inválido."@,
        _ => "Dados de animação truncados."@,
    }
}

pub open spec fn animation_truncated_text(dialect: Dialect) -> Seq<char> {
    match dialect {
        Dialect::Frontend => "Modelo de textura truncado."@,
        _ => "Dados de animação truncados."@,
    }
}

/// The reference that a property value of these bytes holds.
pub open spec fn reference_in(dialect: Dialect, d: Seq<u8>, tag: TagModel) -> Result<
    i32,
    Seq<char>,
> {
    if tag.start + tag.size > usize::MAX {
        Err(animation_overflow_text(dialect))
    } else if tag.start + tag.size > d.len() {
        Err(animation_truncated_text(dialect))
    } else {
        match reader::compact_at(dialect, d.subrange(tag.start, tag.start + tag.size), 0) {
            Ok((reference, _)) => Ok(reference),
            Err(e) => Err(e),
        }
    }
}

/// The parts after one more property. The engine takes no reference from an
/// empty `AnimNext`.
pub open spec fn noted(
    dialect: Dialect,
    d: Seq<u8>,
    parts: LayoutParts,
    name: Seq<char>,
    tag: TagModel,
) -> Result<LayoutParts, Seq<char>> {
    let patch = Some(patch_of(tag));
    if text::same_folded(name, "Format"@) {
        Ok(LayoutParts { format: patch, ..parts })
    } else if text::same_folded(name, "USize"@) {
        Ok(LayoutParts { width: patch, ..parts })
    } else if text::same_folded(name, "VSize"@) {
        Ok(LayoutParts { height: patch, ..parts })
    } else if text::same_folded(name, "UBits"@) {
        Ok(LayoutParts { u_bits: patch, ..parts })
    } else if text::same_folded(name, "VBits"@) {
        Ok(LayoutParts { v_bits: patch, ..parts })
    } else if text::same_folded(name, "AnimNext"@) {
        if dialect != Dialect::Frontend && tag.size == 0 {
            Ok(parts)
        } else {
            match reference_in(dialect, d, tag) {
                Err(e) => Err(e),
                Ok(reference) => Ok(LayoutParts { anim_next: Some(reference), ..parts }),
            }
        }
    } else if text::same_folded(name, "Split9X1"@) {
        Ok(LayoutParts { split9_x1: patch, ..parts })
    } else if text::same_folded(name, "Split9X2"@) {
        Ok(LayoutParts { split9_x2: patch, ..parts })
    } else if text::same_folded(name, "Split9X3"@) {
        Ok(LayoutParts { split9_x3: patch, ..parts })
    } else if text::same_folded(name, "Split9Y1"@) {
        Ok(LayoutParts { split9_y1: patch, ..parts })
    } else if text::same_folded(name, "Split9Y2"@) {
        Ok(LayoutParts { split9_y2: patch, ..parts })
    } else if text::same_folded(name, "Split9Y3"@) {
        Ok(LayoutParts { split9_y3: patch, ..parts })
    } else {
        Ok(parts)
    }
}

/// The parts of all properties from `p` on, and the position behind `None`.
pub open spec fn parts_from(
    dialect: Dialect,
    names: Seq<NameModel>,
    d: Seq<u8>,
    p: int,
    parts: LayoutParts,
) -> Result<(LayoutParts, int), Seq<char>>
    decreases d.len() - p,
    when 0 <= p
{
    match reader::compact_at(dialect, d, p) {
        Err(e) => Err(e),
        Ok((index, q)) => match package::object_name(dialect, names, index) {
            Err(e) => Err(e),
            Ok(name) => if text::same_folded(name, "None"@) {
                Ok((parts, q))
            } else {
                match reader::tag_at(dialect, d, q) {
                    Err(e) => Err(e),
                    Ok(tag) => match noted(dialect, d, parts, name, tag) {
                        Err(e) => Err(e),
                        Ok(more) => match reader::skip_end(dialect, d, tag.start, tag.size) {
                            Err(e) => Err(e),
                            Ok(end) => {
                                proof {
                                    reader::compact_moves(dialect, d, p);
                                    reader::tag_moves(dialect, d, q);
                                }
                                parts_from(dialect, names, d, end, more)
                            },
                        },
                    },
                }
            },
        },
    }
}

pub open spec fn no_format_text(dialect: Dialect) -> Seq<char> {
    match dialect {
        Dialect::Frontend =>
            "O modelo não possui a propriedade Format necessária para criar a textura."@,
        _ => "O modelo não possui a propriedade Format."@,
    }
}

/// The layout of a texture export with these bytes.
#[verifier::opaque]
pub open spec fn layout_of(
    dialect: Dialect,
    names: Seq<NameModel>,
    version: i32,
    licensee: i32,
    d: Seq<u8>,
) -> Result<TextureLayout, Seq<char>> {
    match parts_from(dialect, names, d, 0, no_parts()) {
        Err(e) => Err(e),
        Ok((parts, q)) => match reader::after_extra(dialect, d, q, version, licensee) {
            Err(e) => Err(e),
            Ok(count) => match reader::u8_at(dialect, d, count) {
                Err(e) => Err(e),
                Ok((_, width)) => match reader::skip_end(dialect, d, width, 4) {
                    Err(e) => Err(e),
                    Ok(payload) => match parts.format {
                        None => Err(no_format_text(dialect)),
                        Some(format) => Ok(
                            TextureLayout {
                                format,
                                width: parts.width,
                                height: parts.height,
                                u_bits: parts.u_bits,
                                v_bits: parts.v_bits,
                                anim_next: parts.anim_next,
                                split9_x1: parts.split9_x1,
                                split9_x2: parts.split9_x2,
                                split9_x3: parts.split9_x3,
                                split9_y1: parts.split9_y1,
                                split9_y2: parts.split9_y2,
                                split9_y3: parts.split9_y3,
                                mip_count_offset: count as usize,
                                mip_width_offset: width as usize,
                                mip_payload_offset: payload as usize,
                            },
                        ),
                    },
                },
            },
        },
    }
}

/// A layout's mip maps lie inside the export, one count byte and one pointer
/// before the payload.
pub proof fn layout_bounds(
    dialect: Dialect,
    names: Seq<NameModel>,
    version: i32,
    licensee: i32,
    d: Seq<u8>,
)
    requires
        d.len() <= usize::MAX,
    ensures
        layout_of(dialect, names, version, licensee, d) matches Ok(layout) ==> {
            &&& layout.mip_width_offset == layout.mip_count_offset + 1
            &&& layout.mip_payload_offset == layout.mip_count_offset + 5
            &&& layout.mip_payload_offset <= d.len()
        },
{
    reveal(layout_of);
    parts_end(dialect, names, d, 0, no_parts());
    if let Ok((_, q)) = parts_from(dialect, names, d, 0, no_parts()) {
        extra_end(dialect, d, q, version, licensee);
    }
}

/// The property list ends inside the data.
pub proof fn parts_end(
    dialect: Dialect,
    names: Seq<NameModel>,
    d: Seq<u8>,
    p: int,
    parts: LayoutParts,
)
    requires
        0 <= p,
    ensures
        parts_from(dialect, names, d, p, parts) matches Ok((_, q)) ==> p < q <= d.len(),
    decreases d.len() - p,
{
    reader::compact_moves(dialect, d, p);
    if let Ok((index, q)) = reader::compact_at(dialect, d, p) {
        reader::tag_moves(dialect, d, q);
        if let Ok(name) = package::object_name(dialect, names, index) {
            if !text::same_folded(name, "None"@) {
                if let Ok(tag) = reader::tag_at(dialect, d, q) {
                    if let Ok(more) = noted(dialect, d, parts, name, tag) {
                        if let Ok(end) = reader::skip_end(dialect, d, tag.start, tag.size) {
                            parts_end(dialect, names, d, end, more);
                        }
                    }
                }
            }
        }
    }
}

/// A pixel format number, dimensions and pixels.
pub struct ImageModel {
    pub format: u8,
    pub width: i32,
    pub height: i32,
    pub pixels: Seq<u8>,
}

/// The mip maps that start at `p`. The frontend also passes the two bytes that
/// follow the dimensions.
#[verifier::opaque]
pub open spec fn mip_from(dialect: Dialect, d: Seq<u8>, p: int) -> Result<MipLocation, Seq<char>> {
    match reader::u8_at(dialect, d, p) {
        Err(e) => Err(e),
        Ok((count, q)) => if count == 0 {
            Err("A textura não contém mip maps."@)
        } else {
            match reader::skip_end(dialect, d, q, 4) {
                Err(e) => Err(e),
                Ok(q1) => match reader::compact_at(dialect, d, q1) {
                    Err(e) => Err(e),
                    Ok((size, q2)) => if size < 0 {
                        Err(reader::count_text(dialect, "mip"@))
                    } else {
                        match reader::skip_end(dialect, d, q2, size as int) {
                            Err(e) => Err(e),
                            Ok(q3) => match reader::i32_read(dialect, d, q3) {
                                Err(e) => Err(e),
                                Ok((width, q4)) => match reader::i32_read(dialect, d, q4) {
                                    Err(e) => Err(e),
                                    Ok((height, q5)) => if dialect == Dialect::Frontend
                                        && reader::skip_end(dialect, d, q5, 2) is Err {
                                        Err(reader::skip_end(dialect, d, q5, 2)->Err_0)
                                    } else {
                                        Ok(
                                            MipLocation {
                                                mip_count_offset: p as usize,
                                                pixel_offset: q2 as usize,
                                                width_offset_position: q as usize,
                                                size: size as usize,
                                                width,
                                                height,
                                            },
                                        )
                                    },
                                },
                            },
                        }
                    },
                },
            }
        },
    }
}

/// The first mip map stands behind its count byte, its pointer and its length,
/// and ends before the end of the export.
pub proof fn mip_bounds(dialect: Dialect, d: Seq<u8>, p: int)
    requires
        0 <= p <= d.len() <= usize::MAX,
    ensures
        mip_from(dialect, d, p) matches Ok(mip) ==> {
            &&& mip.mip_count_offset == p
            &&& mip.width_offset_position == p + 1
            &&& p + 5 < mip.pixel_offset
            &&& mip.pixel_offset + mip.size + 8 <= d.len()
        },
{
    reveal(mip_from);
    reader::compact_moves(dialect, d, p + 5);
}

/// The position behind a block ends inside the data.
pub proof fn extra_end(dialect: Dialect, d: Seq<u8>, p: int, version: i32, licensee: i32)
    requires
        0 <= p <= d.len(),
    ensures
        reader::after_extra(dialect, d, p, version, licensee) matches Ok(q) ==> p <= q <= d.len(),
{
    extra_strings_end(dialect, d, p + 1067, 17);
    extra_strings_end(dialect, d, p + 1058, 17);
    extra_metadata_end(dialect, d, p, 36);
    extra_metadata_end(dialect, d, p, 92);
}

proof fn extra_string_end(dialect: Dialect, d: Seq<u8>, p: int)
    requires
        0 <= p,
    ensures
        reader::string_at(dialect, d, p) matches Ok((_, q)) ==> p < q <= d.len(),
{
    reveal(reader::string_at);
    reader::compact_moves(dialect, d, p);
}

proof fn extra_strings_end(dialect: Dialect, d: Seq<u8>, p: int, n: nat)
    requires
        0 <= p,
    ensures
        reader::after_strings(dialect, d, p, n) matches Ok(q) ==> p <= q && (p <= d.len() ==> q <= d.len()),
    decreases n,
{
    if n > 0 {
        extra_string_end(dialect, d, p);
        if let Ok((_, q)) = reader::string_at(dialect, d, p) {
            extra_strings_end(dialect, d, q, (n - 1) as nat);
        }
    }
}

proof fn extra_groups_end(dialect: Dialect, d: Seq<u8>, p: int, n: nat)
    requires
        0 <= p,
    ensures
        reader::after_groups(dialect, d, p, n) matches Ok(q) ==> p <= q && (p <= d.len() ==> q <= d.len()),
    decreases n,
{
    if n > 0 {
        extra_string_end(dialect, d, p);
        if let Ok((_, q)) = reader::string_at(dialect, d, p) {
            if let Ok((extra, q1)) = reader::u8_at(dialect, d, q) {
                extra_strings_end(dialect, d, q1, extra as nat);
                if let Ok(q2) = reader::after_strings(dialect, d, q1, extra as nat) {
                    extra_groups_end(dialect, d, q2, (n - 1) as nat);
                }
            }
        }
    }
}

proof fn extra_metadata_end(dialect: Dialect, d: Seq<u8>, p: int, size: int)
    requires
        0 <= p,
        0 <= size,
    ensures
        reader::after_metadata(dialect, d, p, size) matches Ok(q) ==> p <= q <= d.len(),
{
    if let Ok(q) = reader::skip_end(dialect, d, p, size) {
        reader::compact_moves(dialect, d, q);
        if let Ok((n, q1)) = reader::compact_at(dialect, d, q) {
            if n >= 0 {
                extra_groups_end(dialect, d, q1, n as nat);
                if let Ok(q2) = reader::after_groups(dialect, d, q1, n as nat) {
                    extra_string_end(dialect, d, q2);
                }
            }
        }
    }
}

fn read_reference(dialect: Dialect, raw: &[u8], tag: Tag) -> (r: Result<i32, String>)
    ensures
        text::seen(r) == reference_in(dialect, raw@, tag@),
{
    let end: usize = match tag.start.checked_add(tag.size) {
        Some(end) => end,
        None => return match dialect {
            Dialect::Frontend => Err("Offset de propriedade inválido.".to_owned()),
            _ => Err("Dados de animação truncados.".to_owned()),
        },
    };
    if end > raw.len() {
        return match dialect {
            Dialect::Frontend => Err("Modelo de textura truncado.".to_owned()),
            _ => Err("Dados de animação truncados.".to_owned()),
        };
    }
    let mut inner = Reader::new(slice_subrange(raw, tag.start, end), dialect);
    inner.read_compact()
}

fn note_property(dialect: Dialect, raw: &[u8], parts: LayoutParts, name: &str, tag: Tag) -> (r:
    Result<LayoutParts, String>)
    ensures
        text::seen(r) == noted(dialect, raw@, parts, name@, tag@),
{
    let patch = Some(PropertyPatch { offset: tag.start, size: tag.size });
    let mut more = parts;
    if text::equals_folded(name, "Format") {
        more.format = patch;
    } else if text::equals_folded(name, "USize") {
        more.width = patch;
    } else if text::equals_folded(name, "VSize") {
        more.height = patch;
    } else if text::equals_folded(name, "UBits") {
        more.u_bits = patch;
    } else if text::equals_folded(name, "VBits") {
        more.v_bits = patch;
    } else if text::equals_folded(name, "AnimNext") {
        if dialect == Dialect::Frontend || tag.size > 0 {
            let reference: i32 = read_reference(dialect, raw, tag)?;
            more.anim_next = Some(reference);
        }
    } else if text::equals_folded(name, "Split9X1") {
        more.split9_x1 = patch;
    } else if text::equals_folded(name, "Split9X2") {
        more.split9_x2 = patch;
    } else if text::equals_folded(name, "Split9X3") {
        more.split9_x3 = patch;
    } else if text::equals_folded(name, "Split9Y1") {
        more.split9_y1 = patch;
    } else if text::equals_folded(name, "Split9Y2") {
        more.split9_y2 = patch;
    } else if text::equals_folded(name, "Split9Y3") {
        more.split9_y3 = patch;
    }
    Ok(more)
}

/// Finds the layout of a texture export.
pub fn texture_layout(dialect: Dialect, raw: &[u8], package: &Package) -> (r: Result<
    TextureLayout,
    String,
>)
    ensures
        text::seen(r) == layout_of(dialect, package@.names, package@.version, package@.licensee, raw@),
{
    reveal(layout_of);
    let mut reader = Reader::new(raw, dialect);
    let mut parts = LayoutParts {
        format: None,
        width: None,
        height: None,
        u_bits: None,
        v_bits: None,
        anim_next: None,
        split9_x1: None,
        split9_x2: None,
        split9_x3: None,
        split9_y1: None,
        split9_y2: None,
        split9_y3: None,
    };
    loop
        invariant_except_break
            reader.wf(),
            reader.data@ == raw@,
            reader.dialect == dialect,
            parts_from(dialect, package@.names, raw@, 0, no_parts()) == parts_from(
                dialect,
                package@.names,
                raw@,
                reader.position as int,
                parts,
            ),
        ensures
            reader.wf(),
            reader.data@ == raw@,
            reader.dialect == dialect,
            parts_from(dialect, package@.names, raw@, 0, no_parts()) == Ok::<
                (LayoutParts, int),
                Seq<char>,
            >((parts, reader.position as int)),
        decreases raw@.len() - reader.position,
    {
        reveal(layout_of);
        let index: i32 = reader.read_compact()?;
        let name = package.name(dialect, index)?;
        if text::equals_folded(name.as_str(), "None") {
            break;
        }
        let tag = reader.read_tag()?;
        parts = note_property(dialect, raw, parts, name.as_str(), tag)?;
        reader.skip(tag.size)?;
    }
    reader.skip_unreal_extra(package.version, package.licensee)?;
    let mip_count_offset: usize = reader.position;
    reader.read_u8()?;
    let mip_width_offset: usize = reader.position;
    reader.skip(4)?;
    let format = match parts.format {
        Some(format) => format,
        None => return match dialect {
            Dialect::Frontend => Err(
                "O modelo não possui a propriedade Format necessária para criar a textura.".to_owned(),
            ),
            _ => Err("O modelo não possui a propriedade Format.".to_owned()),
        },
    };
    Ok(
        TextureLayout {
            format,
            width: parts.width,
            height: parts.height,
            u_bits: parts.u_bits,
            v_bits: parts.v_bits,
            anim_next: parts.anim_next,
            split9_x1: parts.split9_x1,
            split9_x2: parts.split9_x2,
            split9_x3: parts.split9_x3,
            split9_y1: parts.split9_y1,
            split9_y2: parts.split9_y2,
            split9_y3: parts.split9_y3,
            mip_count_offset,
            mip_width_offset,
            mip_payload_offset: reader.position,
        },
    )
}

/// Reads the head of the mip maps.
pub fn read_mip(reader: &mut Reader) -> (r: Result<MipLocation, String>)
    requires
        old(reader).wf(),
    ensures
        reader::moved(*old(reader), *final(reader)),
        text::seen(r) == mip_from(
            old(reader).dialect,
            old(reader).data@,
            old(reader).position as int,
        ),
{
    reveal(mip_from);
    let mip_count_offset: usize = reader.position;
    let count: u8 = reader.read_u8()?;
    if count == 0 {
        return Err("A textura não contém mip maps.".to_owned());
    }
    let width_offset_position: usize = reader.position;
    reader.skip(4)?;
    let stored: i32 = reader.read_compact()?;
    let size: usize = reader::read_count(reader.dialect, stored, "mip")?;
    let pixel_offset: usize = reader.position;
    reader.skip(size)?;
    let width: i32 = reader.read_i32()?;
    let height: i32 = reader.read_i32()?;
    if reader.dialect == Dialect::Frontend {
        reader.skip(2)?;
    }
    Ok(MipLocation { mip_count_offset, pixel_offset, width_offset_position, size, width, height })
}

pub open spec fn patch_overflow_text(dialect: Dialect) -> Seq<char> {
    match dialect {
        Dialect::Frontend => "Offset de propriedade inválido."@,
        _ => "Modelo de textura truncado."@,
    }
}

pub open spec fn patch_value_text(dialect: Dialect) -> Seq<char> {
    match dialect {
        Dialect::Frontend => "Valor de propriedade fora do limite."@,
        _ => "Valor de propriedade inválido."@,
    }
}

pub open spec fn patch_size_text(dialect: Dialect) -> Seq<char> {
    match dialect {
        Dialect::Frontend =>
            "O modelo usa um tamanho de propriedade não suportado para importação."@,
        _ => "Tamanho de propriedade não suportado pelo motor."@,
    }
}

/// The bytes with an integer stored in the place of a property value.
pub open spec fn patched(dialect: Dialect, d: Seq<u8>, patch: PropertyPatch, value: i32) -> Result<
    Seq<u8>,
    Seq<char>,
> {
    if patch.offset + patch.size > usize::MAX {
        Err(patch_overflow_text(dialect))
    } else if patch.offset + patch.size > d.len() {
        Err("Modelo de textura truncado."@)
    } else if patch.size == 1 {
        if 0 <= value <= 255 {
            Ok(bytes::splice(d, patch.offset as int, seq![value as u8]))
        } else {
            Err(patch_value_text(dialect))
        }
    } else if patch.size == 2 {
        if 0 <= value <= 65535 {
            Ok(bytes::splice(d, patch.offset as int, bytes::le16(value as u16)))
        } else {
            Err(patch_value_text(dialect))
        }
    } else if patch.size == 4 {
        Ok(bytes::splice(d, patch.offset as int, bytes::i32_bytes(value)))
    } else {
        Err(patch_size_text(dialect))
    }
}

/// Stores an integer in the place of a property value; a failed call changes
/// nothing.
pub fn patch_property(dialect: Dialect, output: &mut Vec<u8>, patch: PropertyPatch, value: i32)
    -> (r: Result<(), String>)
    ensures
        match r {
            Ok(()) => patched(dialect, old(output)@, patch, value) == Ok::<Seq<u8>, Seq<char>>(
                final(output)@,
            ),
            Err(message) => {
                &&& patched(dialect, old(output)@, patch, value) == Err::<Seq<u8>, Seq<char>>(
                    message@,
                )
                &&& final(output)@ == old(output)@
            },
        },
{
    let end: usize = match patch.offset.checked_add(patch.size) {
        Some(end) => end,
        None => return match dialect {
            Dialect::Frontend => Err("Offset de propriedade inválido.".to_owned()),
            _ => Err("Modelo de textura truncado.".to_owned()),
        },
    };
    if end > output.len() {
        return Err("Modelo de textura truncado.".to_owned());
    }
    let mut bytes: Vec<u8> = Vec::new();
    if (patch.size == 1 && (value < 0 || value > 255)) || (patch.size == 2 && (value < 0 || value
        > 65535)) {
        return match dialect {
            Dialect::Frontend => Err("Valor de propriedade fora do limite.".to_owned()),
            _ => Err("Valor de propriedade inválido.".to_owned()),
        };
    }
    if patch.size == 1 {
        bytes.push(value as u8);
        assert(bytes@ =~= seq![value as u8]);
    } else if patch.size == 2 {
        bytes::write_u16(&mut bytes, value as u16);
        assert(bytes@ =~= bytes::le16(value as u16));
    } else if patch.size == 4 {
        bytes::write_i32(&mut bytes, value);
        assert(bytes@ =~= bytes::i32_bytes(value));
    } else {
        return match dialect {
            Dialect::Frontend => Err(
                "O modelo usa um tamanho de propriedade não suportado para importação.".to_owned(),
            ),
            _ => Err("Tamanho de propriedade não suportado pelo motor.".to_owned()),
        };
    }
    bytes::overwrite(output, patch.offset, bytes.as_slice());
    Ok(())
}

/// The exponent of a power of two.
pub open spec fn exact_log2(v: int) -> Option<i32>
    decreases v,
{
    if v <= 0 {
        None
    } else if v == 1 {
        Some(0)
    } else if v % 2 != 0 {
        None
    } else {
        match exact_log2(v / 2) {
            Some(k) => Some((k + 1) as i32),
            None => None,
        }
    }
}

/// A number has an exponent exactly where it is a power of two.
pub proof fn exact_log2_is_exponent(v: int)
    requires
        v <= i32::MAX,
    ensures
        exact_log2(v) matches Some(k) ==> 0 <= k <= 30 && v == vstd::arithmetic::power2::pow2(
            k as nat,
        ),
        exact_log2(v) is None ==> forall|k: nat| v != #[trigger] vstd::arithmetic::power2::pow2(k),
    decreases v,
{
    reveal(vstd::arithmetic::power2::pow2);
    vstd::arithmetic::power2::lemma2_to64();
    if v <= 0 {
        assert forall|k: nat| v != #[trigger] vstd::arithmetic::power2::pow2(k) by {
            vstd::arithmetic::power2::lemma_pow2_pos(k);
        }
    } else if v == 1 {
    } else if v % 2 != 0 {
        assert forall|k: nat| v != #[trigger] vstd::arithmetic::power2::pow2(k) by {
            if k > 0 {
                vstd::arithmetic::power2::lemma_pow2_unfold(k);
            }
        }
    } else {
        exact_log2_is_exponent(v / 2);
        if let Some(k) = exact_log2(v / 2) {
            vstd::arithmetic::power2::lemma_pow2_unfold((k + 1) as nat);
            if k == 30 {
                assert(false);
            }
        } else {
            assert forall|k: nat| v != #[trigger] vstd::arithmetic::power2::pow2(k) by {
                if k > 0 {
                    vstd::arithmetic::power2::lemma_pow2_unfold(k);
                    assert(v / 2 != vstd::arithmetic::power2::pow2((k - 1) as nat));
                }
            }
        }
    }
}

pub open spec fn dimension_text(dialect: Dialect) -> Seq<char> {
    match dialect {
        Dialect::Frontend => "Dimensão de textura inválida."@,
        _ => "Dimensão inválida."@,
    }
}

/// The exponent of a texture dimension.
pub open spec fn bits_of_dimension(dialect: Dialect, value: i32) -> Result<i32, Seq<char>> {
    if value < 0 {
        Err(dimension_text(dialect))
    } else {
        match exact_log2(value as int) {
            Some(k) => Ok(k),
            None => Err("A textura deve ter dimensões em potências de dois."@),
        }
    }
}

/// The exponent of a power of two.
pub fn log2(v: i32) -> (r: Option<i32>)
    ensures
        r == exact_log2(v as int),
    decreases v,
{
    if v <= 0 {
        None
    } else if v == 1 {
        Some(0)
    } else if v % 2 != 0 {
        None
    } else {
        match log2(v / 2) {
            Some(k) => {
                proof {
                    exact_log2_is_exponent((v / 2) as int);
                }
                Some(k + 1)
            },
            None => None,
        }
    }
}

pub fn dimension_bits(dialect: Dialect, value: i32) -> (r: Result<i32, String>)
    ensures
        text::seen(r) == bits_of_dimension(dialect, value),
{
    if value < 0 {
        return match dialect {
            Dialect::Frontend => Err("Dimensão de textura inválida.".to_owned()),
            _ => Err("Dimensão inválida.".to_owned()),
        };
    }
    match log2(value) {
        Some(k) => Ok(k),
        None => Err("A textura deve ter dimensões em potências de dois.".to_owned()),
    }
}

pub open spec fn patched_if(
    dialect: Dialect,
    d: Result<Seq<u8>, Seq<char>>,
    patch: Option<PropertyPatch>,
    value: Result<i32, Seq<char>>,
) -> Result<Seq<u8>, Seq<char>> {
    match (d, patch) {
        (Err(e), _) => Err(e),
        (Ok(bytes), None) => Ok(bytes),
        (Ok(bytes), Some(place)) => match value {
            Err(e) => Err(e),
            Ok(v) => patched(dialect, bytes, place, v),
        },
    }
}

/// The values of a nine-part texture.
#[derive(Debug, Clone, Copy, PartialEq, Eq, Structural)]
pub struct Split9 {
    pub x1: i32,
    pub x2: i32,
    pub x3: i32,
    pub y1: i32,
    pub y2: i32,
    pub y3: i32,
}

/// One value of a nine-part texture: a missing property stands for zero.
pub open spec fn split9_patched(
    d: Result<Seq<u8>, Seq<char>>,
    name: Seq<char>,
    patch: Option<PropertyPatch>,
    value: i32,
) -> Result<Seq<u8>, Seq<char>> {
    match (d, patch) {
        (Err(e), _) => Err(e),
        (Ok(bytes), Some(place)) => patched(Dialect::Frontend, bytes, place, value),
        (Ok(bytes), None) => if value == 0 {
            Ok(bytes)
        } else {
            Err(
                "O modelo estrutural não possui a propriedade "@ + name
                    + " necessária para o valor "@ + text::decimal(value as int) + "."@,
            )
        },
    }
}

pub open spec fn with_split9(d: Seq<u8>, layout: TextureLayout, split9: Split9) -> Result<
    Seq<u8>,
    Seq<char>,
> {
    let d1 = split9_patched(Ok(d), "Split9X1"@, layout.split9_x1, split9.x1);
    let d2 = split9_patched(d1, "Split9X2"@, layout.split9_x2, split9.x2);
    let d3 = split9_patched(d2, "Split9X3"@, layout.split9_x3, split9.x3);
    let d4 = split9_patched(d3, "Split9Y1"@, layout.split9_y1, split9.y1);
    let d5 = split9_patched(d4, "Split9Y2"@, layout.split9_y2, split9.y2);
    split9_patched(d5, "Split9Y3"@, layout.split9_y3, split9.y3)
}

/// What was stored of the values of a nine-part texture: all of them, or those
/// before the first that cannot be stored.
pub open spec fn split9_stored(d: Seq<u8>, layout: TextureLayout, split9: Split9) -> Seq<u8> {
    let d1 = split9_patched(Ok(d), "Split9X1"@, layout.split9_x1, split9.x1);
    let d2 = split9_patched(d1, "Split9X2"@, layout.split9_x2, split9.x2);
    let d3 = split9_patched(d2, "Split9X3"@, layout.split9_x3, split9.x3);
    let d4 = split9_patched(d3, "Split9Y1"@, layout.split9_y1, split9.y1);
    let d5 = split9_patched(d4, "Split9Y2"@, layout.split9_y2, split9.y2);
    let d6 = split9_patched(d5, "Split9Y3"@, layout.split9_y3, split9.y3);
    if d6 is Ok {
        d6->Ok_0
    } else if d5 is Ok {
        d5->Ok_0
    } else if d4 is Ok {
        d4->Ok_0
    } else if d3 is Ok {
        d3->Ok_0
    } else if d2 is Ok {
        d2->Ok_0
    } else if d1 is Ok {
        d1->Ok_0
    } else {
        d
    }
}

fn patch_split9_property(
    output: &mut Vec<u8>,
    name: &str,
    patch: Option<PropertyPatch>,
    value: i32,
) -> (r: Result<(), String>)
    ensures
        match r {
            Ok(()) => split9_patched(Ok(old(output)@), name@, patch, value) == Ok::<
                Seq<u8>,
                Seq<char>,
            >(final(output)@),
            Err(message) => split9_patched(Ok(old(output)@), name@, patch, value) == Err::<
                Seq<u8>,
                Seq<char>,
            >(message@) && final(output)@ == old(output)@,
        },
{
    match patch {
        Some(place) => patch_property(Dialect::Frontend, output, place, value),
        None => if value == 0 {
            Ok(())
        } else {
            let number = text::decimal_text(value as i64);
            Err(
                text::join3(
                    "O modelo estrutural não possui a propriedade ",
                    name,
                    " necessária para o valor ",
                ).concat(number.as_str()).concat("."),
            )
        },
    }
}

/// Stores the values of a nine-part texture, up to the first that cannot be
/// stored.
pub fn patch_split9_properties(output: &mut Vec<u8>, layout: &TextureLayout, split9: Split9) -> (r:
    Result<(), String>)
    ensures
        final(output)@ == split9_stored(old(output)@, *layout, split9),
        match r {
            Ok(()) => with_split9(old(output)@, *layout, split9) == Ok::<Seq<u8>, Seq<char>>(
                final(output)@,
            ),
            Err(message) => with_split9(old(output)@, *layout, split9) == Err::<
                Seq<u8>,
                Seq<char>,
            >(message@),
        },
{
    patch_split9_property(output, "Split9X1", layout.split9_x1, split9.x1)?;
    patch_split9_property(output, "Split9X2", layout.split9_x2, split9.x2)?;
    patch_split9_property(output, "Split9X3", layout.split9_x3, split9.x3)?;
    patch_split9_property(output, "Split9Y1", layout.split9_y1, split9.y1)?;
    patch_split9_property(output, "Split9Y2", layout.split9_y2, split9.y2)?;
    patch_split9_property(output, "Split9Y3", layout.split9_y3, split9.y3)
}

/// Property bytes with another format and other dimensions.
pub open spec fn dimensions_patched(
    dialect: Dialect,
    d: Seq<u8>,
    layout: TextureLayout,
    format: u8,
    width: i32,
    height: i32,
    split9: Option<Split9>,
) -> Result<Seq<u8>, Seq<char>> {
    let d0 = patched(dialect, d, layout.format, format as i32);
    let d1 = patched_if(dialect, d0, layout.width, Ok(width));
    let d2 = patched_if(dialect, d1, layout.height, Ok(height));
    let d3 = patched_if(dialect, d2, layout.u_bits, bits_of_dimension(dialect, width));
    let d4 = patched_if(dialect, d3, layout.v_bits, bits_of_dimension(dialect, height));
    match (d4, split9) {
        (Ok(bytes), Some(values)) => with_split9(bytes, layout, values),
        _ => d4,
    }
}

/// The properties of a new texture: those of the template with another format
/// and other dimensions.
pub open spec fn new_properties(
    dialect: Dialect,
    d: Seq<u8>,
    layout: TextureLayout,
    image: ImageModel,
    split9: Option<Split9>,
) -> Result<Seq<u8>, Seq<char>> {
    dimensions_patched(
        dialect,
        d.take(layout.mip_count_offset as int),
        layout,
        image.format,
        image.width,
        image.height,
        split9,
    )
}

pub open spec fn big_texture_text(dialect: Dialect) -> Seq<char> {
    match dialect {
        Dialect::Frontend => "A textura é grande demais para este formato."@,
        _ => "A textura é grande demais."@,
    }
}

/// The part of a new texture before its dimensions: the properties, one mip map
/// with the template's pointer, and the pixels.
pub open spec fn before_dimensions(properties: Seq<u8>, d: Seq<u8>, layout: TextureLayout, pixels: Seq<u8>) -> Seq<u8> {
    properties + seq![1u8] + d.subrange(
        layout.mip_count_offset + 1,
        layout.mip_payload_offset as int,
    ) + reader::compact_bytes(pixels.len() as i32) + pixels
}

/// The bytes of a new texture export and the place of its dimensions in them.
pub open spec fn new_texture(
    dialect: Dialect,
    d: Seq<u8>,
    layout: TextureLayout,
    image: ImageModel,
    split9: Option<Split9>,
) -> Result<(Seq<u8>, int), Seq<char>> {
    match new_properties(dialect, d, layout, image, split9) {
        Err(e) => Err(e),
        Ok(properties) => if image.pixels.len() > i32::MAX {
            Err(big_texture_text(dialect))
        } else {
            let head = before_dimensions(properties, d, layout, image.pixels);
            match bits_of_dimension(dialect, image.width) {
                Err(e) => Err(e),
                Ok(u) => match bits_of_dimension(dialect, image.height) {
                    Err(e) => Err(e),
                    Ok(v) => Ok(
                        (
                            head + bytes::i32_bytes(image.width) + bytes::i32_bytes(image.height) + seq![
                                u as u8,
                                v as u8,
                            ],
                            head.len() as int,
                        ),
                    ),
                },
            }
        },
    }
}

/// A new texture export, the place of its mip pointer and that of its
/// dimensions, which the pointer has to lead to.
#[derive(Debug)]
pub struct SerializedTexture {
    pub bytes: Vec<u8>,
    pub mip_width_offset: usize,
    pub width_offset_value: usize,
}

fn patch_if(dialect: Dialect, output: &mut Vec<u8>, patch: Option<PropertyPatch>, value: i32) -> (r:
    Result<(), String>)
    ensures
        match r {
            Ok(()) => patched_if(dialect, Ok(old(output)@), patch, Ok(value)) == Ok::<
                Seq<u8>,
                Seq<char>,
            >(final(output)@),
            Err(message) => patched_if(dialect, Ok(old(output)@), patch, Ok(value)) == Err::<
                Seq<u8>,
                Seq<char>,
            >(message@),
        },
{
    match patch {
        Some(place) => patch_property(dialect, output, place, value),
        None => Ok(()),
    }
}

fn patch_bits_if(
    dialect: Dialect,
    output: &mut Vec<u8>,
    patch: Option<PropertyPatch>,
    dimension: i32,
) -> (r: Result<(), String>)
    ensures
        match r {
            Ok(()) => patched_if(
                dialect,
                Ok(old(output)@),
                patch,
                bits_of_dimension(dialect, dimension),
            ) == Ok::<Seq<u8>, Seq<char>>(final(output)@),
            Err(message) => patched_if(
                dialect,
                Ok(old(output)@),
                patch,
                bits_of_dimension(dialect, dimension),
            ) == Err::<Seq<u8>, Seq<char>>(message@),
        },
{
    match patch {
        Some(place) => {
            let bits: i32 = dimension_bits(dialect, dimension)?;
            patch_property(dialect, output, place, bits)
        },
        None => Ok(()),
    }
}

fn patch_dimensions(
    dialect: Dialect,
    output: &mut Vec<u8>,
    layout: &TextureLayout,
    format: u8,
    width: i32,
    height: i32,
    split9: Option<Split9>,
) -> (r: Result<(), String>)
    ensures
        match r {
            Ok(()) => dimensions_patched(
                dialect,
                old(output)@,
                *layout,
                format,
                width,
                height,
                split9,
            ) == Ok::<Seq<u8>, Seq<char>>(final(output)@),
            Err(message) => dimensions_patched(
                dialect,
                old(output)@,
                *layout,
                format,
                width,
                height,
                split9,
            ) == Err::<Seq<u8>, Seq<char>>(message@),
        },
{
    patch_property(dialect, output, layout.format, format as i32)?;
    patch_if(dialect, output, layout.width, width)?;
    patch_if(dialect, output, layout.height, height)?;
    patch_bits_if(dialect, output, layout.u_bits, width)?;
    patch_bits_if(dialect, output, layout.v_bits, height)?;
    match split9 {
        Some(values) => patch_split9_properties(output, layout, values),
        None => Ok(()),
    }
}

/// Builds a texture export from the bytes and the layout of a template.
pub fn build_texture(
    dialect: Dialect,
    template: &[u8],
    layout: &TextureLayout,
    format: u8,
    width: i32,
    height: i32,
    pixels: &[u8],
    split9: Option<Split9>,
) -> (r: Result<SerializedTexture, String>)
    requires
        layout.mip_count_offset < layout.mip_payload_offset <= template@.len(),
    ensures
        match r {
            Ok(texture) => {
                &&& new_texture(
                    dialect,
                    template@,
                    *layout,
                    (ImageModel { format, width, height, pixels: pixels@ }),
                    split9,
                ) == Ok::<(Seq<u8>, int), Seq<char>>(
                    (texture.bytes@, texture.width_offset_value as int),
                )
                &&& texture.mip_width_offset == layout.mip_width_offset
            },
            Err(message) => new_texture(
                dialect,
                template@,
                *layout,
                (ImageModel { format, width, height, pixels: pixels@ }),
                split9,
            ) == Err::<(Seq<u8>, int), Seq<char>>(message@),
        },
{
    let mut output = bytes::copy_range(template, 0, layout.mip_count_offset);
    proof {
        assert(template@.subrange(0, layout.mip_count_offset as int) =~= template@.take(
            layout.mip_count_offset as int,
        ));
    }
    patch_dimensions(dialect, &mut output, layout, format, width, height, split9)?;
    let ghost properties = output@;
    output.push(1);
    bytes::append(
        &mut output,
        slice_subrange(template, layout.mip_count_offset + 1, layout.mip_payload_offset),
    );
    let count: i32 = match dialect {
        Dialect::Frontend => bytes::checked_i32(
            pixels.len(),
            "A textura é grande demais para este formato.",
        )?,
        _ => bytes::checked_i32(pixels.len(), "A textura é grande demais.")?,
    };
    reader::write_compact(&mut output, count);
    bytes::append(&mut output, pixels);
    assert(output@ =~= before_dimensions(properties, template@, *layout, pixels@));
    let width_offset_value: usize = output.len();
    let u: i32 = dimension_bits(dialect, width)?;
    let v: i32 = dimension_bits(dialect, height)?;
    proof {
        exact_log2_is_exponent(width as int);
        exact_log2_is_exponent(height as int);
    }
    let ghost head = output@;
    bytes::write_i32(&mut output, width);
    bytes::write_i32(&mut output, height);
    output.push(u as u8);
    output.push(v as u8);
    assert(output@ =~= head + bytes::i32_bytes(width) + bytes::i32_bytes(height) + seq![u as u8, v as u8]);
    Ok(
        SerializedTexture {
            bytes: output,
            mip_width_offset: layout.mip_width_offset,
            width_offset_value,
        },
    )
}

} // verus!
