//! What a new texture is made of, and what a replaced one gets.

use vstd::prelude::*;
use crate::appending::AppendModel;
use crate::formats::UtxFormat;
use crate::imports::ImportedModel;
use crate::layout::MipLocation;
use crate::package::{ExportEntry, PackageModel};
use crate::reader::Dialect;
use crate::adding;
use crate::appending;
use crate::bytes;
use crate::edits;
use crate::formats;
use crate::images;
use crate::layout;
use crate::layout_laws;
use crate::listing;
use crate::names;
use crate::package;
use crate::properties;
use crate::tables;
use crate::text;

verus! {

/// Whether a texture shows nine parts and goes on with another texture as it is wanted. A
/// texture with both only has to go on with another.
pub open spec fn is_like(p: PackageModel, index: int, split9: bool, animation: bool) -> bool {
    &&& package::is_texture_export(Dialect::Engine, p, p.exports[index])
    &&& package::data_of(Dialect::Engine, p.data, p.exports[index]) matches Ok(raw)
    &&& properties::stream_from(raw, p.names, 0) matches Ok(stream)
    &&& edits::package_layout(Dialect::Engine, p, raw) matches Ok(layout)
    &&& ({
        let parted = properties::bool_of(stream.properties, "bSplit9Texture"@) == Some(true);
        let goes_on = layout.anim_next matches Some(next) && next != 0;
        if split9 && animation {
            goes_on
        } else {
            parted == split9 && goes_on == animation
        }
    })
}

/// Whether a texture lies in a group.
pub open spec fn lies_in(p: PackageModel, index: int, group: Seq<char>) -> bool {
    package::name_of(Dialect::Engine, p, p.exports[index]) matches Ok(name) && tables::in_group(
        Dialect::Engine,
        name,
        group,
    )
}

proof fn seeds_are_like(
    p: PackageModel,
    group: Seq<char>,
    split9: bool,
    animation: bool,
    from: int,
    fallback: Option<usize>,
)
    requires
        0 <= from <= p.exports.len() <= usize::MAX,
        fallback matches Some(i) ==> i < from && is_like(p, i as int, split9, animation),
        fallback matches Some(i) ==> !lies_in(p, i as int, group),
        fallback matches Some(i) ==> forall|k: int|
            0 <= k < i ==> !#[trigger] is_like(p, k, split9, animation),
        fallback is None ==> forall|k: int|
            0 <= k < from ==> !#[trigger] is_like(p, k, split9, animation),
    ensures
        adding::seed_from(p, group, split9, animation, from, fallback) matches Ok(i) ==> {
            &&& i < p.exports.len()
            &&& is_like(p, i as int, split9, animation)
            &&& lies_in(p, i as int, group) ==> forall|k: int|
                from <= k < i && is_like(p, k, split9, animation) ==> !#[trigger] lies_in(
                    p,
                    k,
                    group,
                )
            &&& !lies_in(p, i as int, group) ==> forall|k: int|
                0 <= k < i ==> !#[trigger] is_like(p, k, split9, animation)
            &&& !lies_in(p, i as int, group) ==> forall|k: int|
                from <= k < p.exports.len() && is_like(p, k, split9, animation) ==> !#[trigger]
                    lies_in(p, k, group)
        },
    decreases p.exports.len() - from,
{
    if from < p.exports.len() {
        if !package::is_texture_export(Dialect::Engine, p, p.exports[from]) {
            seeds_are_like(p, group, split9, animation, from + 1, fallback);
        } else if let Ok(raw) = package::data_of(Dialect::Engine, p.data, p.exports[from]) {
            if let Ok(fits) = adding::is_seed(p, raw, split9, animation) {
                if !fits {
                    seeds_are_like(p, group, split9, animation, from + 1, fallback);
                } else if let Ok(name) = package::name_of(Dialect::Engine, p, p.exports[from]) {
                    if !tables::in_group(Dialect::Engine, name, group) {
                        let next = if fallback is Some {
                            fallback
                        } else {
                            Some(from as usize)
                        };
                        seeds_are_like(p, group, split9, animation, from + 1, next);
                    }
                }
            }
        }
    }
}

/// A new texture takes its structure from a texture with nine parts if it has them itself,
/// and from one that goes on with another if it has an animation; a plain one from a plain
/// one. The first such texture of its own group is taken before all others, and else the
/// first there is.
pub proof fn structures_are_alike(p: PackageModel, group: Seq<char>, split9: bool, animation: bool)
    requires
        p.exports.len() <= usize::MAX,
    ensures
        adding::seed_from(p, group, split9, animation, 0, None) matches Ok(i) ==> {
            &&& i < p.exports.len()
            &&& is_like(p, i as int, split9, animation)
            &&& lies_in(p, i as int, group) ==> forall|k: int|
                0 <= k < i && is_like(p, k, split9, animation) ==> !#[trigger] lies_in(p, k, group)
            &&& !lies_in(p, i as int, group) ==> forall|k: int|
                0 <= k < i ==> !#[trigger] is_like(p, k, split9, animation)
            &&& !lies_in(p, i as int, group) ==> forall|k: int|
                0 <= k < p.exports.len() && is_like(p, k, split9, animation) ==> !#[trigger]
                    lies_in(p, k, group)
        },
{
    seeds_are_like(p, group, split9, animation, 0, None);
}

proof fn templates_are_like(
    p: PackageModel,
    group: Seq<char>,
    split9: bool,
    animated: bool,
    from: int,
    fallback: Option<int>,
)
    requires
        0 <= from <= p.exports.len(),
        fallback matches Some(i) ==> 0 <= i < p.exports.len() && (listing::entry_of(p, i) matches Ok(
            entry,
        ) && entry.has_split9 == split9) && appending::has_animation(p, i) == Ok::<bool, Seq<char>>(
            animated,
        ),
    ensures
        appending::template_from(p, group, split9, animated, from, fallback) matches Ok(Some(i))
            ==> {
            &&& 0 <= i < p.exports.len()
            &&& listing::entry_of(p, i) matches Ok(entry)
            &&& entry.has_split9 == split9
            &&& appending::has_animation(p, i) == Ok::<bool, Seq<char>>(animated)
            &&& !tables::in_group(Dialect::Frontend, entry.name, group) ==> fallback == Some(i) || (
            fallback is None && from <= i)
        },
    decreases p.exports.len() - from,
{
    if from < p.exports.len() {
        match listing::entry_of(p, from) {
            Err(_) => templates_are_like(p, group, split9, animated, from + 1, fallback),
            Ok(entry) => {
                if entry.has_split9 != split9 {
                    templates_are_like(p, group, split9, animated, from + 1, fallback);
                } else if let Ok(found) = appending::has_animation(p, from) {
                    if found != animated {
                        templates_are_like(p, group, split9, animated, from + 1, fallback);
                    } else if !tables::in_group(Dialect::Frontend, entry.name, group) {
                        let next = if fallback is None {
                            Some(from)
                        } else {
                            fallback
                        };
                        templates_are_like(p, group, split9, animated, from + 1, next);
                    }
                }
            },
        }
    }
}

/// A texture that is appended is modelled on one that has nine parts, and goes on with
/// another, just if it does so itself.
pub proof fn models_are_alike(p: PackageModel, group: Seq<char>, split9: bool, animated: bool)
    ensures
        appending::structural_template(p, group, split9, animated) matches Ok(i) ==> {
            &&& 0 <= i < p.exports.len()
            &&& listing::entry_of(p, i) matches Ok(entry)
            &&& entry.has_split9 == split9
            &&& appending::has_animation(p, i) == Ok::<bool, Seq<char>>(animated)
        },
{
    reveal(appending::structural_template);
    templates_are_like(p, group, split9, animated, 0, None);
}

/// An appended texture has the format of its picture, and ends with the picture and its
/// dimensions.
pub proof fn appended_textures_have_their_picture(
    p: PackageModel,
    raw: Seq<u8>,
    texture: ImportedModel,
)
    ensures
        appending::built_export(p, raw, texture) matches Ok((bytes, at, _)) ==> {
            &&& at + 10 == bytes.len()
            &&& texture.pixels.len() <= at
            &&& bytes.subrange(at - texture.pixels.len(), at) == texture.pixels
            &&& bytes[at] + 256 * bytes[at + 1] + 65536 * bytes[at + 2] + 16777216 * bytes[at + 3]
                == texture.width
            &&& bytes[at + 4] + 256 * bytes[at + 5] + 65536 * bytes[at + 6] + 16777216 * bytes[at
                + 7] == texture.height
        },
{
    if let Ok(layout) = layout::layout_of(Dialect::Frontend, p.names, p.version, p.licensee, raw) {
        if let Some(format) = formats::format_value(texture.format) {
            layout_laws::new_textures_end_with_their_picture(
                Dialect::Frontend,
                raw,
                layout,
                crate::layout::ImageModel {
                    format,
                    width: texture.width,
                    height: texture.height,
                    pixels: texture.pixels,
                },
                texture.metadata.split9,
            );
        }
    }
}

/// The export of an appended texture has the class and the flags of its model, lies in the
/// object of its group, and leads to its bytes.
pub proof fn appended_exports_lead_to_their_bytes(
    s: AppendModel,
    start: int,
    bytes: Seq<u8>,
    model: ExportEntry,
    outer: i32,
    name: Seq<char>,
)
    requires
        0 <= start,
    ensures
        appending::with_export_added(s, start, bytes, model, outer, name) matches Ok(after) ==> {
            let one = after.exports.last();
            &&& after.exports.len() == s.exports.len() + 1
            &&& after.exports.drop_last() == s.exports
            &&& after.imports == s.imports
            &&& after.added == s.added + bytes
            &&& one.class == model.class
            &&& one.super_class == model.super_class
            &&& one.flags == model.flags
            &&& one.package == outer
            &&& one.offset == start
            &&& one.size == bytes.len()
            &&& 0 <= one.name_index < after.names.len()
            &&& text::same_folded(after.names[one.name_index as int].name, name)
        },
{
    if let Ok(after) = appending::with_export_added(s, start, bytes, model, outer, name) {
        assert(after.exports.drop_last() =~= s.exports);
        names::find_name_is_first(s.names, name, 0);
    }
}

/// A texture that is replaced in its place has the new pixels where it had the old ones.
/// Beside them only the four bytes change that say where they end.
#[verifier::spinoff_prover]
pub proof fn replaced_pixels_stand_in_their_place(
    working: Seq<u8>,
    export: ExportEntry,
    mip: MipLocation,
    source: Seq<u8>,
    k: int,
)
    requires
        export.offset >= 0,
        mip.width_offset_position + 4 <= mip.pixel_offset,
        0 <= k < working.len(),
    ensures
        appending::with_pixels_replaced(working, export, mip, source) matches Ok(after) ==> {
            let start = export.offset + mip.pixel_offset;
            let word = export.offset + mip.width_offset_position;
            &&& after.len() == working.len()
            &&& start + mip.size <= working.len()
            &&& after.subrange(start, start + mip.size) == source.take(mip.size as int)
            &&& after[word] + 256 * after[word + 1] + 65536 * after[word + 2] + 16777216 * after[word
                + 3] == start + mip.size
            &&& !(start <= k < start + mip.size) && !(word <= k < word + 4) ==> after[k]
                == working[k]
        },
{
    if let Ok(after) = appending::with_pixels_replaced(working, export, mip, source) {
        let start = export.offset + mip.pixel_offset;
        let word = export.offset + mip.width_offset_position;
        assert(after.subrange(start, start + mip.size) =~= source.take(mip.size as int));
        let end = (start + mip.size) as i32;
        let b = bytes::i32_bytes(end);
        assert(after[word] == b[0] && after[word + 1] == b[1] && after[word + 2] == b[2]
            && after[word + 3] == b[3]);
        assert(b[0] + 256 * b[1] + 65536 * b[2] + 16777216 * b[3] == end);
    }
}

/// A file replaces a texture only if it has its size and, where the texture is compressed,
/// its compression.
pub proof fn replacements_have_the_size_of_their_texture(
    file: Seq<u8>,
    format: UtxFormat,
    width: i32,
    height: i32,
)
    ensures
        appending::replacement_pixels(file, format, width, height) matches Ok(pixels) ==> {
            &&& format == UtxFormat::Rgba8 ==> images::tga_content(file) == Ok::<
                (i32, i32, Seq<u8>),
                Seq<char>,
            >((width, height, pixels))
            &&& format != UtxFormat::Rgba8 ==> images::dds_misfit(file, width, height, format)
                is Ok && pixels == file.skip(128)
        },
{
}

} // verus!
