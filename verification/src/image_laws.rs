//! What holds of the images of new textures: whoever reads the package again
//! finds the image that a texture was made for.

use vstd::prelude::*;
use crate::adding::{Adding, Seeds, TextureSeedSource};
use crate::edits::{RequestModel, RewrittenModel};
use crate::layout::{ImageModel, LayoutParts, MipLocation, PropertyPatch, TextureLayout};
use crate::names::NameModel;
use crate::package::{ExportEntry, PackageModel};
use crate::properties::TextureEditorEdit;
use crate::reader::{Dialect, TagModel};
use crate::adding;
use crate::adding_laws;
use crate::bytes;
use crate::edits;
use crate::file_laws;
use crate::layout;
use crate::names;
use crate::package;
use crate::package_laws;
use crate::properties;
use crate::property_laws;
use crate::reader;
use crate::reference_laws;
use crate::tables;
use crate::text;
use crate::texture_engine;

verus! {

/// The names that matter to the layout of a texture.
pub open spec fn layout_names() -> Seq<Seq<char>> {
    seq![
        "None"@,
        "Format"@,
        "USize"@,
        "VSize"@,
        "UBits"@,
        "VBits"@,
        "AnimNext"@,
        "Split9X1"@,
        "Split9X2"@,
        "Split9X3"@,
        "Split9Y1"@,
        "Split9Y2"@,
        "Split9Y3"@,
    ]
}

/// Whether two names mean the same to the layout of a texture.
pub open spec fn alike(a: Seq<char>, b: Seq<char>) -> bool {
    forall|i: int|
        0 <= i < layout_names().len() ==> text::same_folded(a, #[trigger] layout_names()[i])
            == text::same_folded(b, layout_names()[i])
}

/// Whether the names of one table mean the same in another.
pub open spec fn all_alike(names: Seq<NameModel>, others: Seq<NameModel>) -> bool {
    &&& names.len() <= others.len()
    &&& forall|i: int| 0 <= i < names.len() ==> alike((#[trigger] names[i]).name, others[i].name)
}

/// Whether a property from `p` on, or the end of the list, goes by an entry of the
/// table of names.
pub open spec fn goes_by(names: Seq<NameModel>, d: Seq<u8>, p: int, entry: int) -> bool
    decreases d.len() - p,
    when 0 <= p
{
    match reader::compact_at(Dialect::Engine, d, p) {
        Err(_) => false,
        Ok((index, q)) => index == entry || match names::name_at(names, index) {
            Err(_) => false,
            Ok(name) => !text::same_folded(name, "None"@) && match reader::tag_at(
                Dialect::Engine,
                d,
                q,
            ) {
                Err(_) => false,
                Ok(tag) => match reader::skip_end(Dialect::Engine, d, tag.start, tag.size) {
                    Err(_) => false,
                    Ok(end) => {
                        proof {
                            reader::compact_moves(Dialect::Engine, d, p);
                            reader::tag_moves(Dialect::Engine, d, q);
                        }
                        goes_by(names, d, end, entry)
                    },
                },
            },
        },
    }
}

/// Whether the names that a property list goes by mean the same in another table.
pub open spec fn used_alike(
    names: Seq<NameModel>,
    others: Seq<NameModel>,
    d: Seq<u8>,
    p: int,
) -> bool {
    forall|i: int|
        0 <= i < names.len() && #[trigger] goes_by(names, d, p, i) ==> i < others.len() && alike(
            names[i].name,
            others[i].name,
        )
}

/// Whether the textures of a package mean the same with another table of names.
pub open spec fn textures_alike(p: PackageModel, others: Seq<NameModel>) -> bool {
    forall|k: int|
        0 <= k < p.exports.len() && package::is_texture_export(
            Dialect::Engine,
            p,
            #[trigger] p.exports[k],
        ) ==> (package::data_of(Dialect::Engine, p.data, p.exports[k]) matches Ok(raw)
            ==> used_alike(p.names, others, raw, 0))
}

/// Whether a byte lies in the value of a property that a new texture changes.
pub open spec fn in_patch(patch: Option<PropertyPatch>, k: int) -> bool {
    patch matches Some(place) && place.offset <= k < place.offset + place.size
}

pub open spec fn in_patches(parts: LayoutParts, k: int) -> bool {
    ||| in_patch(parts.format, k)
    ||| in_patch(parts.width, k)
    ||| in_patch(parts.height, k)
    ||| in_patch(parts.u_bits, k)
    ||| in_patch(parts.v_bits, k)
}

/// Whether a part was there, or stands at or behind `p`.
pub open spec fn kept_or_behind(
    before: Option<PropertyPatch>,
    after: Option<PropertyPatch>,
    p: int,
) -> bool {
    after == before || (after matches Some(place) && place.offset >= p)
}

pub open spec fn all_kept_or_behind(before: LayoutParts, after: LayoutParts, p: int) -> bool {
    &&& kept_or_behind(before.format, after.format, p)
    &&& kept_or_behind(before.width, after.width, p)
    &&& kept_or_behind(before.height, after.height, p)
    &&& kept_or_behind(before.u_bits, after.u_bits, p)
    &&& kept_or_behind(before.v_bits, after.v_bits, p)
}

/// The parts that are found from `p` on stand there.
proof fn parts_stand_behind(names: Seq<NameModel>, d: Seq<u8>, p: int, parts: LayoutParts)
    requires
        0 <= p,
        d.len() <= usize::MAX,
    ensures
        layout::parts_from(Dialect::Engine, names, d, p, parts) matches Ok((found, _))
            ==> all_kept_or_behind(parts, found, p),
    decreases d.len() - p,
{
    let e = Dialect::Engine;
    reader::compact_moves(e, d, p);
    if let Ok((index, q)) = reader::compact_at(e, d, p) {
        reader::tag_moves(e, d, q);
        if let Ok(name) = names::name_at(names, index) {
            if !text::same_folded(name, "None"@) {
                if let Ok(tag) = reader::tag_at(e, d, q) {
                    if let Ok(more) = layout::noted(e, d, parts, name, tag) {
                        if let Ok(end) = reader::skip_end(e, d, tag.start, tag.size) {
                            parts_stand_behind(names, d, end, more);
                        }
                    }
                }
            }
        }
    }
}

/// Whether the parts that were found end before `p`.
pub open spec fn ends_before(patch: Option<PropertyPatch>, p: int) -> bool {
    patch matches Some(place) ==> place.offset + place.size <= p
}

pub open spec fn all_end_before(parts: LayoutParts, p: int) -> bool {
    &&& ends_before(parts.format, p)
    &&& ends_before(parts.width, p)
    &&& ends_before(parts.height, p)
    &&& ends_before(parts.u_bits, p)
    &&& ends_before(parts.v_bits, p)
}

/// The parts that are found end where the list does.
proof fn parts_end_in_list(names: Seq<NameModel>, d: Seq<u8>, p: int, parts: LayoutParts)
    requires
        0 <= p,
        d.len() <= usize::MAX,
        all_end_before(parts, p),
    ensures
        layout::parts_from(Dialect::Engine, names, d, p, parts) matches Ok((found, q))
            ==> all_end_before(found, q),
    decreases d.len() - p,
{
    let e = Dialect::Engine;
    reader::compact_moves(e, d, p);
    if let Ok((index, q)) = reader::compact_at(e, d, p) {
        reader::tag_moves(e, d, q);
        if let Ok(name) = names::name_at(names, index) {
            if !text::same_folded(name, "None"@) {
                if let Ok(tag) = reader::tag_at(e, d, q) {
                    if let Ok(more) = layout::noted(e, d, parts, name, tag) {
                        if let Ok(end) = reader::skip_end(e, d, tag.start, tag.size) {
                            parts_end_in_list(names, d, end, more);
                        }
                    }
                }
            }
        }
    }
}

proof fn noted_alike(
    d: Seq<u8>,
    c: Seq<u8>,
    parts: LayoutParts,
    name: Seq<char>,
    other: Seq<char>,
    tag: TagModel,
    second: TagModel,
)
    requires
        alike(name, other),
        second.start == tag.start,
        second.size == tag.size,
        layout::noted(Dialect::Engine, d, parts, name, tag) is Ok,
        tag.start + tag.size <= c.len() <= usize::MAX,
        text::same_folded(name, "AnimNext"@) && !text::same_folded(name, "Format"@)
            && !text::same_folded(name, "USize"@) && !text::same_folded(name, "VSize"@)
            && !text::same_folded(name, "UBits"@) && !text::same_folded(name, "VBits"@)
            ==> c.subrange(tag.start, tag.start + tag.size) == d.subrange(
            tag.start,
            tag.start + tag.size,
        ),
    ensures
        layout::noted(Dialect::Engine, c, parts, other, second) == layout::noted(
            Dialect::Engine,
            d,
            parts,
            name,
            tag,
        ),
{
    let names = layout_names();
    assert(names[1] == "Format"@ && names[2] == "USize"@ && names[3] == "VSize"@ && names[4]
        == "UBits"@ && names[5] == "VBits"@ && names[6] == "AnimNext"@);
    assert(names[7] == "Split9X1"@ && names[8] == "Split9X2"@ && names[9] == "Split9X3"@
        && names[10] == "Split9Y1"@ && names[11] == "Split9Y2"@ && names[12] == "Split9Y3"@);
}

/// A list is read alike where only the values of changed properties differ.
#[verifier::spinoff_prover]
#[verifier::rlimit(60)]
proof fn lists_are_read_alike(
    names: Seq<NameModel>,
    others: Seq<NameModel>,
    d: Seq<u8>,
    c: Seq<u8>,
    p: int,
    parts: LayoutParts,
)
    requires
        0 <= p,
        d.len() <= usize::MAX,
        c.len() <= usize::MAX,
        used_alike(names, others, d, p),
        all_end_before(parts, p),
        layout::parts_from(Dialect::Engine, names, d, p, parts) matches Ok((found, end)) && end
            <= c.len() && forall|k: int|
            p <= k < end && !in_patches(found, k) ==> #[trigger] c[k] == d[k],
    ensures
        layout::parts_from(Dialect::Engine, others, c, p, parts) == layout::parts_from(
            Dialect::Engine,
            names,
            d,
            p,
            parts,
        ),
    decreases d.len() - p,
{
    let e = Dialect::Engine;
    let (found, last) = layout::parts_from(e, names, d, p, parts)->Ok_0;
    reader::compact_moves(e, d, p);
    layout::parts_end(e, names, d, p, parts);
    let (index, q) = reader::compact_at(e, d, p)->Ok_0;
    let name = names::name_at(names, index)->Ok_0;
    let other = others[index as int].name;
    assert(goes_by(names, d, p, index as int));
    assert(alike(name, other));
    assert(layout_names()[0] == "None"@);
    parts_stand_behind(names, d, p, parts);
    if text::same_folded(name, "None"@) {
        assert forall|k: int| 0 <= k < q - p implies #[trigger] c[p + k] == d[p + k] by {
            assert(!in_patches(found, p + k));
        }
        property_laws::compact_is_local(e, d, p, c, p, q - p);
    } else {
        reader::tag_moves(e, d, q);
        let tag = reader::tag_at(e, d, q)->Ok_0;
        let more = layout::noted(e, d, parts, name, tag)->Ok_0;
        let end = tag.start + tag.size;
        parts_stand_behind(names, d, end, more);
        layout::parts_end(e, names, d, end, more);
        assert forall|k: int| 0 <= k < tag.start - p implies #[trigger] c[p + k] == d[p + k] by {
            assert(!in_patches(found, p + k));
        }
        property_laws::compact_is_local(e, d, p, c, p, q - p);
        assert forall|k: int| 0 <= k < tag.start - q implies #[trigger] c[q + k] == d[q + k] by {
            assert(c[p + (q - p + k)] == d[p + (q - p + k)]);
        }
        property_laws::tag_is_local(d, q, c, q, tag.start - q);
        let second = reader::tag_at(e, c, q)->Ok_0;
        if more.format == parts.format && more.width == parts.width && more.height == parts.height
            && more.u_bits == parts.u_bits && more.v_bits == parts.v_bits {
            assert forall|k: int| tag.start <= k < end implies c[k] == d[k] by {
                assert(!in_patches(found, k));
            }
            assert(c.subrange(tag.start, end) =~= d.subrange(tag.start, end));
        }
        noted_alike(d, c, parts, name, other, tag, second);
        assert forall|i: int|
            0 <= i < names.len() && #[trigger] goes_by(names, d, end, i) implies i < others.len()
            && alike(names[i].name, others[i].name) by {
            assert(goes_by(names, d, p, i));
        }
        lists_are_read_alike(names, others, d, c, end, more);
    }
}

/// Where a string ends depends on its own bytes alone.
proof fn strings_are_local(d: Seq<u8>, p: int, c: Seq<u8>, q: int, n: int)
    requires
        property_laws::same_bytes(d, p, c, q, n),
        c.len() <= usize::MAX,
        reader::string_at(Dialect::Engine, d, p) matches Ok((_, end)) && end <= p + n,
    ensures
        reader::string_at(Dialect::Engine, c, q) matches Ok((_, end)) && end
            == reader::string_at(Dialect::Engine, d, p)->Ok_0.1 - p + q,
{
    reveal(reader::string_at);
    reader::compact_moves(Dialect::Engine, d, p);
    property_laws::compact_is_local(Dialect::Engine, d, p, c, q, n);
}

proof fn string_moves(d: Seq<u8>, p: int)
    requires
        0 <= p,
    ensures
        reader::string_at(Dialect::Engine, d, p) matches Ok((_, end)) ==> p < end <= d.len(),
{
    reveal(reader::string_at);
    reader::compact_moves(Dialect::Engine, d, p);
}

proof fn strings_move(d: Seq<u8>, p: int, count: nat)
    requires
        0 <= p,
    ensures
        reader::after_strings(Dialect::Engine, d, p, count) matches Ok(end) ==> p <= end,
    decreases count,
{
    if count > 0 {
        string_moves(d, p);
        if let Ok((_, end)) = reader::string_at(Dialect::Engine, d, p) {
            strings_move(d, end, (count - 1) as nat);
        }
    }
}

proof fn string_lists_are_local(d: Seq<u8>, p: int, c: Seq<u8>, q: int, n: int, count: nat)
    requires
        property_laws::same_bytes(d, p, c, q, n),
        c.len() <= usize::MAX,
        reader::after_strings(Dialect::Engine, d, p, count) matches Ok(end) && end <= p + n,
    ensures
        reader::after_strings(Dialect::Engine, c, q, count) == Ok::<int, Seq<char>>(
            reader::after_strings(Dialect::Engine, d, p, count)->Ok_0 - p + q,
        ),
    decreases count,
{
    if count > 0 {
        let (_, end) = reader::string_at(Dialect::Engine, d, p)->Ok_0;
        string_moves(d, p);
        strings_move(d, end, (count - 1) as nat);
        strings_are_local(d, p, c, q, n);
        property_laws::same_bytes_within(d, p, c, q, n, end - p, n - (end - p));
        string_lists_are_local(d, end, c, q + (end - p), n - (end - p), (count - 1) as nat);
    }
}

proof fn groups_move(d: Seq<u8>, p: int, count: nat)
    requires
        0 <= p,
    ensures
        reader::after_groups(Dialect::Engine, d, p, count) matches Ok(end) ==> p <= end,
    decreases count,
{
    if count > 0 {
        string_moves(d, p);
        if let Ok((_, a)) = reader::string_at(Dialect::Engine, d, p) {
            if let Ok((extra, b)) = reader::u8_at(Dialect::Engine, d, a) {
                strings_move(d, b, extra as nat);
                if let Ok(end) = reader::after_strings(Dialect::Engine, d, b, extra as nat) {
                    groups_move(d, end, (count - 1) as nat);
                }
            }
        }
    }
}

proof fn groups_are_local(d: Seq<u8>, p: int, c: Seq<u8>, q: int, n: int, count: nat)
    requires
        property_laws::same_bytes(d, p, c, q, n),
        c.len() <= usize::MAX,
        reader::after_groups(Dialect::Engine, d, p, count) matches Ok(end) && end <= p + n,
    ensures
        reader::after_groups(Dialect::Engine, c, q, count) == Ok::<int, Seq<char>>(
            reader::after_groups(Dialect::Engine, d, p, count)->Ok_0 - p + q,
        ),
    decreases count,
{
    let e = Dialect::Engine;
    if count > 0 {
        let (_, a) = reader::string_at(e, d, p)->Ok_0;
        let (extra, b) = reader::u8_at(e, d, a)->Ok_0;
        let end = reader::after_strings(e, d, b, extra as nat)->Ok_0;
        string_moves(d, p);
        strings_move(d, b, extra as nat);
        groups_move(d, end, (count - 1) as nat);
        strings_are_local(d, p, c, q, n);
        assert(c[q + (a - p)] == d[p + (a - p)]);
        property_laws::same_bytes_within(d, p, c, q, n, b - p, n - (b - p));
        string_lists_are_local(d, b, c, q + (b - p), n - (b - p), extra as nat);
        property_laws::same_bytes_within(d, p, c, q, n, end - p, n - (end - p));
        groups_are_local(d, end, c, q + (end - p), n - (end - p), (count - 1) as nat);
    }
}

proof fn blocks_are_local(d: Seq<u8>, p: int, c: Seq<u8>, q: int, n: int, size: int)
    requires
        0 <= size,
        property_laws::same_bytes(d, p, c, q, n),
        c.len() <= usize::MAX,
        reader::after_block(Dialect::Engine, d, p, size) matches Ok(end) && end <= p + n,
    ensures
        reader::after_block(Dialect::Engine, c, q, size) == Ok::<int, Seq<char>>(
            reader::after_block(Dialect::Engine, d, p, size)->Ok_0 - p + q,
        ),
{
    let a = p + size;
    strings_move(d, a, 17);
    property_laws::same_bytes_within(d, p, c, q, n, size, n - size);
    string_lists_are_local(d, a, c, q + size, n - size, 17);
}

proof fn metadata_is_local(d: Seq<u8>, p: int, c: Seq<u8>, q: int, n: int, size: int)
    requires
        0 <= size,
        property_laws::same_bytes(d, p, c, q, n),
        c.len() <= usize::MAX,
        reader::after_metadata(Dialect::Engine, d, p, size) matches Ok(end) && end <= p + n,
    ensures
        reader::after_metadata(Dialect::Engine, c, q, size) == Ok::<int, Seq<char>>(
            reader::after_metadata(Dialect::Engine, d, p, size)->Ok_0 - p + q,
        ),
{
    let e = Dialect::Engine;
    let a = p + size;
    reader::compact_moves(e, d, a);
    let (count, b) = reader::compact_at(e, d, a)->Ok_0;
    groups_move(d, b, count as nat);
    let g = reader::after_groups(e, d, b, count as nat)->Ok_0;
    string_moves(d, g);
    property_laws::same_bytes_within(d, p, c, q, n, size, n - size);
    property_laws::compact_is_local(e, d, a, c, q + size, n - size);
    property_laws::same_bytes_within(d, p, c, q, n, b - p, n - (b - p));
    groups_are_local(d, b, c, q + (b - p), n - (b - p), count as nat);
    property_laws::same_bytes_within(d, p, c, q, n, g - p, n - (g - p));
    strings_are_local(d, g, c, q + (g - p), n - (g - p));
}

/// What stands between the properties and the mip maps depends on its own bytes.
proof fn extras_are_local(
    d: Seq<u8>,
    p: int,
    c: Seq<u8>,
    q: int,
    n: int,
    version: i32,
    licensee: i32,
)
    requires
        property_laws::same_bytes(d, p, c, q, n),
        c.len() <= usize::MAX,
        reader::after_extra(Dialect::Engine, d, p, version, licensee) matches Ok(end) && end <= p
            + n,
    ensures
        reader::after_extra(Dialect::Engine, c, q, version, licensee) == Ok::<int, Seq<char>>(
            reader::after_extra(Dialect::Engine, d, p, version, licensee)->Ok_0 - p + q,
        ),
{
    if 32 < licensee <= 35 {
        blocks_are_local(d, p, c, q, n, 1067);
    } else if licensee == 36 {
        blocks_are_local(d, p, c, q, n, 1058);
    } else if licensee > 36 {
        if licensee <= 39 && version != 129 {
            metadata_is_local(d, p, c, q, n, 36);
        } else {
            metadata_is_local(d, p, c, q, n, 92);
        }
    }
}

/// A texture that differs from another only in the values of changed properties
/// and in its mip maps has them at the same place.
#[verifier::spinoff_prover]
pub proof fn layouts_are_alike(
    names: Seq<NameModel>,
    others: Seq<NameModel>,
    version: i32,
    licensee: i32,
    d: Seq<u8>,
    c: Seq<u8>,
)
    requires
        d.len() <= usize::MAX,
        c.len() <= usize::MAX,
        used_alike(names, others, d, 0),
        layout::layout_of(Dialect::Engine, names, version, licensee, d) matches Ok(layout)
            && layout.mip_payload_offset <= c.len() && forall|k: int|
            0 <= k < layout.mip_count_offset && !in_patches(layout_parts(layout), k)
                ==> #[trigger] c[k] == d[k],
    ensures
        layout::layout_of(Dialect::Engine, others, version, licensee, c) matches Ok(other)
            && other.mip_count_offset == layout::layout_of(
            Dialect::Engine,
            names,
            version,
            licensee,
            d,
        )->Ok_0.mip_count_offset,
{
    let e = Dialect::Engine;
    layout::layout_bounds(e, names, version, licensee, d);
    reveal(layout::layout_of);
    let layout = layout::layout_of(e, names, version, licensee, d)->Ok_0;
    let parts = layout::no_parts();
    let (found, q) = layout::parts_from(e, names, d, 0, parts)->Ok_0;
    layout::parts_end(e, names, d, 0, parts);
    layout::extra_end(e, d, q, version, licensee);
    parts_end_in_list(names, d, 0, parts);
    let count = layout.mip_count_offset as int;
    assert forall|k: int| 0 <= k < q && !in_patches(found, k) implies #[trigger] c[k] == d[k] by {
        assert(!in_patches(layout_parts(layout), k));
    }
    lists_are_read_alike(names, others, d, c, 0, parts);
    assert forall|k: int| 0 <= k < count - q implies #[trigger] c[q + k] == d[q + k] by {
        assert(!in_patches(layout_parts(layout), q + k));
    }
    extras_are_local(d, q, c, q, count - q, version, licensee);
}

/// The parts of a layout that a new texture changes.
pub open spec fn layout_parts(layout: TextureLayout) -> LayoutParts {
    LayoutParts {
        format: Some(layout.format),
        width: layout.width,
        height: layout.height,
        u_bits: layout.u_bits,
        v_bits: layout.v_bits,
        ..layout::no_parts()
    }
}

proof fn patches_keep_the_rest(
    d: Result<Seq<u8>, Seq<char>>,
    patch: Option<PropertyPatch>,
    value: Result<i32, Seq<char>>,
)
    ensures
        layout::patched_if(Dialect::Engine, d, patch, value) matches Ok(after) ==> {
            &&& d is Ok
            &&& after.len() == d->Ok_0.len()
            &&& forall|k: int|
                0 <= k < after.len() && !in_patch(patch, k) ==> #[trigger] after[k] == d->Ok_0[k]
        },
{
}

/// The properties of a new texture are those of its model but for the values of
/// the changed ones.
proof fn new_properties_keep_the_rest(d: Seq<u8>, layout: TextureLayout, image: ImageModel)
    requires
        layout.mip_count_offset <= d.len(),
    ensures
        layout::new_properties(Dialect::Engine, d, layout, image, None) matches Ok(properties) ==> {
            &&& properties.len() == layout.mip_count_offset
            &&& forall|k: int|
                0 <= k < properties.len() && !in_patches(layout_parts(layout), k)
                    ==> #[trigger] properties[k] == d[k]
        },
{
    let e = Dialect::Engine;
    let head = d.take(layout.mip_count_offset as int);
    patches_keep_the_rest(Ok(head), Some(layout.format), Ok(image.format as i32));
    let d0 = layout::patched(e, head, layout.format, image.format as i32);
    patches_keep_the_rest(d0, layout.width, Ok(image.width));
    let d1 = layout::patched_if(e, d0, layout.width, Ok(image.width));
    patches_keep_the_rest(d1, layout.height, Ok(image.height));
    let d2 = layout::patched_if(e, d1, layout.height, Ok(image.height));
    let u = layout::bits_of_dimension(e, image.width);
    patches_keep_the_rest(d2, layout.u_bits, u);
    let d3 = layout::patched_if(e, d2, layout.u_bits, u);
    let v = layout::bits_of_dimension(e, image.height);
    patches_keep_the_rest(d3, layout.v_bits, v);
    let d4 = layout::patched_if(e, d3, layout.v_bits, v);
    if let Ok(properties) = d4 {
        assert forall|k: int|
            0 <= k < properties.len() && !in_patches(
                layout_parts(layout),
                k,
            ) implies #[trigger] properties[k] == d[k] by {
            assert(d3->Ok_0[k] == properties[k]);
            assert(d2->Ok_0[k] == d3->Ok_0[k]);
            assert(d1->Ok_0[k] == d2->Ok_0[k]);
            assert(d0->Ok_0[k] == d1->Ok_0[k]);
            assert(head[k] == d0->Ok_0[k]);
        }
    }
}

/// Whether the mip map at `at` shows an image, with two bytes behind it.
pub open spec fn shows_image(object: Seq<u8>, at: int, image: ImageModel) -> bool {
    &&& layout::mip_from(Dialect::Engine, object, at) matches Ok(mip)
    &&& mip.width == image.width
    &&& mip.height == image.height
    &&& mip.size == image.pixels.len()
    &&& mip.pixel_offset + mip.size + 10 <= object.len()
    &&& object.subrange(mip.pixel_offset as int, mip.pixel_offset + mip.size) == image.pixels
}

/// The pointer behind the count of mip maps does not matter to where they stand.
proof fn pointers_keep_mips(object: Seq<u8>, other: Seq<u8>, at: int)
    requires
        0 <= at <= object.len() <= usize::MAX,
        package_laws::same_but_word(object, other, at + 1),
        layout::mip_from(Dialect::Engine, object, at) is Ok,
    ensures
        layout::mip_from(Dialect::Engine, other, at) == layout::mip_from(
            Dialect::Engine,
            object,
            at,
        ),
        ({
            let mip = layout::mip_from(Dialect::Engine, object, at)->Ok_0;
            other.subrange(mip.pixel_offset as int, mip.pixel_offset + mip.size)
                == object.subrange(mip.pixel_offset as int, mip.pixel_offset + mip.size)
        }),
{
    layout::mip_bounds(Dialect::Engine, object, at);
    let mip = layout::mip_from(Dialect::Engine, object, at)->Ok_0;
    reveal(layout::mip_from);
    let behind = object.len() - (at + 5);
    assert forall|k: int| 0 <= k < behind implies #[trigger] other[at + 5 + k] == object[at + 5
        + k] by {}
    reader::compact_moves(Dialect::Engine, object, at + 5);
    property_laws::compact_is_local(Dialect::Engine, object, at + 5, other, at + 5, behind);
    let from = mip.pixel_offset as int;
    let end = from + mip.size;
    assert(other.subrange(from, end) =~= object.subrange(from, end));
    assert(other.subrange(end, end + 4) =~= object.subrange(end, end + 4));
    assert(other.subrange(end + 4, end + 8) =~= object.subrange(end + 4, end + 8));
}

/// The pointer behind the count of mip maps does not matter to what they show.
proof fn pointers_keep_images(object: Seq<u8>, at: int, image: ImageModel, value: i32)
    requires
        0 <= at <= object.len() <= usize::MAX,
        shows_image(object, at, image),
    ensures
        bytes::with_i32_at(object, at + 1, value) matches Ok(other) ==> {
            &&& other.len() == object.len()
            &&& shows_image(other, at, image)
            &&& forall|k: int| 0 <= k <= at ==> #[trigger] other[k] == object[k]
        },
{
    if let Ok(other) = bytes::with_i32_at(object, at + 1, value) {
        pointers_keep_mips(object, other, at);
    }
}

/// Whether an object has the mip map of another, with as much behind it.
pub open spec fn mip_moved(d: Seq<u8>, p: int, c: Seq<u8>, q: int) -> bool {
    &&& layout::mip_from(Dialect::Engine, d, p) matches Ok(mip)
    &&& layout::mip_from(Dialect::Engine, c, q) matches Ok(other)
    &&& other.mip_count_offset == q
    &&& other.width_offset_position == q + 1
    &&& other.width == mip.width
    &&& other.height == mip.height
    &&& other.size == mip.size
    &&& other.pixel_offset - q == mip.pixel_offset - p
    &&& c.len() - q == d.len() - p
    &&& c.subrange(other.pixel_offset as int, other.pixel_offset + other.size) == d.subrange(
        mip.pixel_offset as int,
        mip.pixel_offset + mip.size,
    )
}

/// Mip maps are the same wherever they stand.
proof fn mips_move(d: Seq<u8>, p: int, c: Seq<u8>, q: int)
    requires
        property_laws::same_bytes(d, p, c, q, d.len() - p),
        c.len() - q == d.len() - p,
        d.len() <= usize::MAX,
        c.len() <= usize::MAX,
        layout::mip_from(Dialect::Engine, d, p) is Ok,
    ensures
        mip_moved(d, p, c, q),
{
    let n = d.len() - p;
    layout::mip_bounds(Dialect::Engine, d, p);
    let mip = layout::mip_from(Dialect::Engine, d, p)->Ok_0;
    reveal(layout::mip_from);
    assert(c[q + 0] == d[p + 0]);
    reader::compact_moves(Dialect::Engine, d, p + 5);
    property_laws::same_bytes_within(d, p, c, q, n, 5, n - 5);
    property_laws::compact_is_local(Dialect::Engine, d, p + 5, c, q + 5, n - 5);
    let from = mip.pixel_offset - p;
    let end = from + mip.size;
    property_laws::same_bytes_within(d, p, c, q, n, from, mip.size as int);
    property_laws::same_bytes_within(d, p, c, q, n, end, 4);
    property_laws::same_bytes_within(d, p, c, q, n, end + 4, 4);
}

/// Whether a reader with these names finds an image in an object.
pub open spec fn is_seen(
    names: Seq<NameModel>,
    version: i32,
    licensee: i32,
    object: Seq<u8>,
    image: ImageModel,
) -> bool {
    layout::layout_of(Dialect::Engine, names, version, licensee, object) matches Ok(layout)
        && shows_image(object, layout.mip_count_offset as int, image)
}

/// A texture that was built and pointed to its place shows its image.
#[verifier::spinoff_prover]
#[verifier::rlimit(40)]
proof fn built_textures_are_seen(
    data_len: int,
    outer: i32,
    state: Adding,
    seed_package: PackageModel,
    seed_index: int,
    request: RequestModel,
    others: Seq<NameModel>,
)
    requires
        0 <= data_len,
        0 <= seed_index,
        seed_package.data.len() <= usize::MAX,
        package::data_of(
            Dialect::Engine,
            seed_package.data,
            seed_package.exports[seed_index],
        ) matches Ok(raw) ==> used_alike(seed_package.names, others, raw, 0),
    ensures
        adding::with_built(data_len, outer, state, seed_package, seed_index, request) matches Ok(
            after,
        ) ==> {
            let last = after.exports.last();
            let from = last.offset - data_len;
            &&& after.exports == state.exports.push(last)
            &&& state.appended.len() <= after.appended.len()
            &&& after.appended.take(state.appended.len() as int) == state.appended
            &&& 0 <= from <= from + last.size <= after.appended.len()
            &&& is_seen(
                others,
                seed_package.version,
                seed_package.licensee,
                after.appended.subrange(from, from + last.size),
                request.image,
            )
        },
{
    reveal(adding::with_built);
    if let Ok(after) = adding::with_built(
        data_len,
        outer,
        state,
        seed_package,
        seed_index,
        request,
    ) {
        let seed = package::nth_export(seed_package, seed_index)->Ok_0;
        let raw = package::data_of(Dialect::Engine, seed_package.data, seed)->Ok_0;
        let (version, licensee) = (seed_package.version, seed_package.licensee);
        let layout = edits::package_layout(Dialect::Engine, seed_package, raw)->Ok_0;
        layout::layout_bounds(Dialect::Engine, seed_package.names, version, licensee, raw);
        let (made, pointer, dimensions) = adding::texture_from_seed(
            seed_package,
            raw,
            request,
        )->Ok_0;
        let properties = layout::new_properties(
            Dialect::Engine,
            raw,
            layout,
            request.image,
            None,
        )->Ok_0;
        new_properties_keep_the_rest(raw, layout, request.image);
        assert(made.len() == dimensions + 10);
        adding_laws::new_textures_hold_their_image(
            Dialect::Engine,
            raw,
            layout,
            request.image,
            None,
        );
        let at = layout.mip_count_offset as int;
        assert(shows_image(made, at, request.image));
        let place = data_len + state.appended.len();
        pointers_keep_images(made, at, request.image, (place + dimensions) as i32);
        let object = adding::pointed_at((made, pointer, dimensions), place as int)->Ok_0;
        assert forall|k: int|
            0 <= k < at && !in_patches(layout_parts(layout), k) implies #[trigger] object[k]
            == raw[k] by {
            assert(made[k] == properties[k]);
        }
        layouts_are_alike(seed_package.names, others, version, licensee, raw, object);
        let last = after.exports.last();
        assert(after.exports =~= state.exports.push(last));
        assert(after.appended.subrange(
            last.offset - data_len,
            last.offset - data_len + last.size,
        ) =~= object);
        assert(after.appended.take(state.appended.len() as int) =~= state.appended);
    }
}

/// Whether a texture was chosen of the package, or of a template that fits it.
pub open spec fn seed_fits(
    seed: Option<TextureSeedSource>,
    p: PackageModel,
    template: PackageModel,
) -> bool {
    seed matches Some(TextureSeedSource::Template(k)) ==> {
        &&& adding::compatible(p, template)
        &&& k < template.exports.len()
        &&& package::is_texture_export(Dialect::Engine, template, template.exports[k as int])
    }
}

pub open spec fn seeds_fit(seeds: Seeds, p: PackageModel, template: PackageModel) -> bool {
    &&& seed_fits(seeds.animation, p, template)
    &&& seed_fits(seeds.split9, p, template)
    &&& seed_fits(seeds.common, p, template)
}

/// What is chosen as the structure of a new texture is a texture.
pub proof fn seeds_are_textures(
    p: PackageModel,
    group: Seq<char>,
    split9: bool,
    animation: bool,
    from: int,
    fallback: Option<usize>,
)
    requires
        0 <= from,
        p.exports.len() <= usize::MAX,
        fallback matches Some(k) ==> k < p.exports.len() && package::is_texture_export(
            Dialect::Engine,
            p,
            p.exports[k as int],
        ),
    ensures
        adding::seed_from(p, group, split9, animation, from, fallback) matches Ok(k) ==> k
            < p.exports.len() && package::is_texture_export(
            Dialect::Engine,
            p,
            p.exports[k as int],
        ),
    decreases p.exports.len() - from,
{
    if from < p.exports.len() {
        seeds_are_textures(p, group, split9, animation, from + 1, fallback);
        if package::is_texture_export(Dialect::Engine, p, p.exports[from]) {
            let other = if fallback is Some {
                fallback
            } else {
                Some(from as usize)
            };
            seeds_are_textures(p, group, split9, animation, from + 1, other);
        }
    }
}

/// Each of the textures that were added so far shows its image.
#[verifier::spinoff_prover]
#[verifier::rlimit(40)]
proof fn added_textures_are_seen(
    p: PackageModel,
    template: PackageModel,
    group: Seq<char>,
    outer: i32,
    start: Adding,
    requests: Seq<RequestModel>,
    n: nat,
    others: Seq<NameModel>,
)
    requires
        n <= requests.len(),
        p.data.len() <= usize::MAX,
        template.data.len() <= usize::MAX,
        all_alike(p.names, others),
        template.exports.len() <= usize::MAX,
        adding::compatible(p, template) ==> textures_alike(template, others),
        seeds_fit(start.seeds, p, template),
    ensures
        adding::with_textures(p, template, group, outer, start, requests, n) matches Ok(state) ==> {
            &&& state.exports.len() == start.exports.len() + n
            &&& seeds_fit(state.seeds, p, template)
            &&& forall|i: int|
                0 <= i < n ==> is_added(p, start, state, #[trigger] requests[i], i, others)
        },
    decreases n,
{
    if n > 0 {
        added_textures_are_seen(
            p,
            template,
            group,
            outer,
            start,
            requests,
            (n - 1) as nat,
            others,
        );
        if let Ok(state) = adding::with_textures(p, template, group, outer, start, requests, n) {
            let before = adding::with_textures(
                p,
                template,
                group,
                outer,
                start,
                requests,
                (n - 1) as nat,
            )->Ok_0;
            reveal(adding::with_texture);
            let request = requests[n - 1];
            let (seeds, source) = adding::chosen_seed(
                p,
                template,
                group,
                before.seeds,
                request,
            )->Ok_0;
            seeds_are_textures(
                template,
                group,
                request.split9 is Some,
                request.animation is Some,
                0,
                None,
            );
            assert(seed_fits(Some(source), p, template));
            let used = Adding { seeds, ..before };
            let data_len = p.data.len() as int;
            match source {
                TextureSeedSource::Package(k) => {
                    built_textures_are_seen(
                        data_len,
                        outer,
                        used,
                        p,
                        k as int,
                        request,
                        others,
                    );
                },
                TextureSeedSource::Template(k) => {
                    built_textures_are_seen(
                        data_len,
                        outer,
                        used,
                        template,
                        k as int,
                        request,
                        others,
                    );
                },
            }
            assert(state.seeds == seeds) by {
                reveal(adding::with_built);
            }
            let length = before.appended.len() as int;
            assert forall|i: int| 0 <= i < n implies is_added(
                p,
                start,
                state,
                #[trigger] requests[i],
                i,
                others,
            ) by {
                let k = start.exports.len() + i;
                if i < n - 1 {
                    assert(is_added(p, start, before, requests[i], i, others));
                    assert(state.exports[k] == before.exports[k]);
                    let from = before.exports[k].offset - p.data.len();
                    let end = from + before.exports[k].size;
                    assert(state.appended.take(length).subrange(from, end)
                        =~= state.appended.subrange(from, end));
                }
            }
        }
    }
}

/// Whether a texture that was added shows its image.
pub open spec fn is_added(
    p: PackageModel,
    start: Adding,
    state: Adding,
    request: RequestModel,
    i: int,
    others: Seq<NameModel>,
) -> bool {
    let export = state.exports[start.exports.len() + i];
    let from = export.offset - p.data.len();
    &&& 0 <= from <= from + export.size <= state.appended.len()
    &&& is_seen(
        others,
        p.version,
        p.licensee,
        state.appended.subrange(from, from + export.size),
        request.image,
    )
}

/// A longer table of names means the same to a property list.
pub proof fn lists_keep_their_end(names: Seq<NameModel>, more: Seq<NameModel>, d: Seq<u8>, p: int)
    requires
        0 <= p,
        property_laws::extends(names, more),
        properties::stream_from(d, names, p) is Ok,
    ensures
        properties::stream_from(d, more, p) == properties::stream_from(d, names, p),
    decreases d.len() - p,
{
    let e = Dialect::Engine;
    reader::compact_moves(e, d, p);
    let (index, q) = reader::compact_at(e, d, p)->Ok_0;
    let name = names::name_at(names, index)->Ok_0;
    assert(more.take(names.len() as int)[index as int] == more[index as int]);
    if !text::same_folded(name, "None"@) {
        reader::tag_moves(e, d, q);
        let tag = reader::tag_at(e, d, q)->Ok_0;
        lists_keep_their_end(names, more, d, tag.start + tag.size);
    }
}

pub proof fn extended_names_are_alike(names: Seq<NameModel>, more: Seq<NameModel>)
    requires
        property_laws::extends(names, more),
    ensures
        all_alike(names, more),
{
    assert forall|i: int| 0 <= i < names.len() implies alike(
        (#[trigger] names[i]).name,
        more[i].name,
    ) by {
        assert(more.take(names.len() as int)[i] == more[i]);
    }
}

/// Whether the pointer of a mip map is the place just behind its pixels, in a file
/// in which its object stands at `base`.
pub open spec fn is_pointed(object: Seq<u8>, mip: MipLocation, base: int) -> bool {
    object.subrange(
        mip.width_offset_position as int,
        mip.width_offset_position + 4,
    ) == bytes::i32_bytes((base + mip.pixel_offset + mip.size) as i32) && base + mip.pixel_offset
        + mip.size <= i32::MAX
}

/// A texture whose list was written anew has the mip map that it had, and its
/// pointer leads just behind the pixels.
#[verifier::spinoff_prover]
#[verifier::rlimit(80)]
proof fn rewritten_mips_move(
    p: PackageModel,
    index: int,
    edit: TextureEditorEdit,
    base: int,
    more: Seq<NameModel>,
)
    requires
        0 <= index < p.exports.len(),
        0 <= base,
        p.data.len() <= usize::MAX,
        edits::rewritten_texture(p, index, edit) matches Ok((names, one)) && {
            &&& property_laws::extends(names, more)
            &&& edits::pointed(one, base) is Ok
            &&& one.bytes.len() <= usize::MAX
        },
    ensures
        ({
            let raw = package::data_of(Dialect::Engine, p.data, p.exports[index])->Ok_0;
            let (_, one) = edits::rewritten_texture(p, index, edit)->Ok_0;
            let bytes = edits::pointed(one, base)->Ok_0;
            &&& package::data_of(Dialect::Engine, p.data, p.exports[index]) is Ok
            &&& edits::package_layout(Dialect::Engine, p, raw) matches Ok(layout)
            &&& bytes.len() == one.bytes.len()
            &&& layout::layout_of(Dialect::Engine, more, p.version, p.licensee, bytes) matches Ok(
                other,
            )
            &&& mip_moved(
                raw,
                layout.mip_count_offset as int,
                bytes,
                other.mip_count_offset as int,
            )
            &&& is_pointed(
                bytes,
                layout::mip_from(Dialect::Engine, bytes, other.mip_count_offset as int)->Ok_0,
                base,
            )
        }),
{
    one_edit_extends_names(p, index, edit);
    reveal(edits::rewritten_texture);
    let e = Dialect::Engine;
    let raw = package::data_of(e, p.data, p.exports[index])->Ok_0;
    let layout = edits::package_layout(e, p, raw)->Ok_0;
    let stream = properties::stream_from(raw, p.names, 0)->Ok_0;
    let (names, one) = edits::rewritten_texture(p, index, edit)->Ok_0;
    let (_, records) = properties::with_edit(p.names, stream.properties, edit)->Ok_0;
    let head = properties::stream_bytes(names, records)->Ok_0;
    let at = layout.mip_count_offset as int;
    let tail = stream.tail_offset;
    edits::stream_end(raw, p.names, 0);
    layout::layout_bounds(e, p.names, p.version, p.licensee, raw);
    package_laws::list_before_mips(p, raw);
    extended_names_are_alike(p.names, names);
    layouts_are_alike(p.names, names, p.version, p.licensee, raw, raw);
    layout::mip_bounds(e, raw, at);
    assert(layout::mip_from(e, raw, at) == Ok::<MipLocation, Seq<char>>(one.mip));
    let start = head.len() as int;
    let moved = one.mip_count_offset;
    assert(moved == start + at - tail);
    assert forall|k: int| 0 <= k < raw.len() - tail implies #[trigger] one.bytes[start + k]
        == raw[tail + k] by {}
    property_laws::same_bytes_within(
        raw,
        tail,
        one.bytes,
        start,
        raw.len() - tail,
        at - tail,
        raw.len() - at,
    );
    mips_move(raw, at, one.bytes, moved);
    let bytes = edits::pointed(one, base)->Ok_0;
    let end = base + moved + (one.mip.pixel_offset - one.mip.mip_count_offset) + one.mip.size;
    assert(bytes == bytes::splice(one.bytes, moved + 1, bytes::i32_bytes(end as i32)));
    assert(package_laws::same_but_word(one.bytes, bytes, moved + 1));
    pointers_keep_mips(one.bytes, bytes, moved);
    assert(bytes.subrange(moved + 1, moved + 5) =~= bytes::i32_bytes(end as i32));
    let rest = bytes.skip(start);
    assert(bytes =~= head + rest) by {
        assert forall|k: int| 0 <= k < start implies bytes[k] == head[k] by {
            assert(bytes[k] == one.bytes[k]);
        }
    }
    property_laws::written_edits_show(raw, p.names, edit, rest);
    lists_keep_their_end(names, more, bytes, 0);
    reveal(layout::layout_of);
    let parts = layout::no_parts();
    package_laws::mips_stand_behind_list(p.names, raw, 0, parts);
    reference_laws::edited_lists_are_laid_out(raw, p.names, edit, rest);
    let (found, q) = layout::parts_from(e, names, bytes, 0, parts)->Ok_0;
    package_laws::mips_stand_behind_list(names, bytes, 0, parts);
    assert(q == start);
    extended_names_are_alike(names, more);
    lists_are_read_alike(names, more, bytes, bytes, 0, parts);
    assert forall|k: int| 0 <= k < at - tail implies #[trigger] bytes[start + k] == raw[tail
        + k] by {
        assert(bytes[start + k] == one.bytes[start + k]);
    }
    extras_are_local(raw, tail, bytes, start, at - tail, p.version, p.licensee);
    layout::extra_end(e, raw, tail, p.version, p.licensee);
    assert(reader::after_extra(e, raw, tail, p.version, p.licensee)->Ok_0 == at);
    layout::mip_bounds(e, bytes, moved);
}

/// The names that edits need stand behind those that are there.
pub proof fn edits_extend_names(p: PackageModel, edits: Seq<(usize, TextureEditorEdit)>, n: nat, k: nat)
    requires
        k <= n <= edits.len(),
        p.data.len() <= usize::MAX,
    ensures
        edits::rewritten_textures(p, edits, n) matches Ok((names, done)) ==> {
            &&& edits::rewritten_textures(p, edits, k) matches Ok((before, first))
            &&& property_laws::extends(before, names)
            &&& property_laws::extends(p.names, names)
            &&& done.len() == n
            &&& first == done.take(k as int)
        },
    decreases n,
{
    if n == k {
        assert(p.names =~= p.names.take(p.names.len() as int));
        if n > 0 {
            edits_extend_names(p, edits, (n - 1) as nat, (n - 1) as nat);
            if let Ok((names, done)) = edits::rewritten_textures(p, edits, n) {
                let (before, _) = edits::rewritten_textures(p, edits, (n - 1) as nat)->Ok_0;
                one_edit_extends_names(
                    PackageModel { names: before, ..p },
                    edits[n - 1].0 as int,
                    edits[n - 1].1,
                );
                package_laws::extends_twice(p.names, before, names);
                assert(names =~= names.take(names.len() as int));
                assert(done =~= done.take(k as int));
            }
        } else if let Ok((_, done)) = edits::rewritten_textures(p, edits, 0) {
            assert(done =~= done.take(0));
        }
    } else {
        edits_extend_names(p, edits, (n - 1) as nat, k);
        if let Ok((names, done)) = edits::rewritten_textures(p, edits, n) {
            let (before, earlier) = edits::rewritten_textures(p, edits, (n - 1) as nat)->Ok_0;
            let (first, _) = edits::rewritten_textures(p, edits, k)->Ok_0;
            one_edit_extends_names(
                PackageModel { names: before, ..p },
                edits[n - 1].0 as int,
                edits[n - 1].1,
            );
            package_laws::extends_twice(p.names, before, names);
            package_laws::extends_twice(first, before, names);
            assert(done.take(k as int) =~= earlier.take(k as int));
        }
    }
}

pub proof fn one_edit_extends_names(p: PackageModel, index: int, edit: TextureEditorEdit)
    requires
        0 <= index,
        p.data.len() <= usize::MAX,
    ensures
        edits::rewritten_texture(p, index, edit) matches Ok((names, one)) ==> {
            &&& property_laws::extends(p.names, names)
            &&& one.index == index
            &&& index < p.exports.len()
        },
{
    reveal(edits::rewritten_texture);
    if let Ok(_) = edits::rewritten_texture(p, index, edit) {
        let raw = package::data_of(Dialect::Engine, p.data, p.exports[index])->Ok_0;
        let stream = properties::stream_from(raw, p.names, 0)->Ok_0;
        property_laws::read_properties_are_sound(raw, p.names, 0);
        property_laws::edits_show_and_keep_the_rest(p.names, stream.properties, edit);
    }
}

/// Where a rewritten texture was put.
pub proof fn rewritten_texture_is_placed(
    data: Seq<u8>,
    exports: Seq<ExportEntry>,
    done: Seq<RewrittenModel>,
    n: nat,
    j: int,
)
    requires
        0 <= j < n <= done.len(),
        forall|i: int| 0 <= i < done.len() ==> 0 <= (#[trigger] done[i]).index < exports.len(),
        forall|i: int|
            0 <= i < done.len() && i != j ==> (#[trigger] done[i]).index != done[j].index,
    ensures
        edits::placed(data, exports, done, n) matches Ok((d, entries)) ==> {
            let export = entries[done[j].index];
            let base = export.offset as int;
            &&& entries.len() == exports.len()
            &&& data.len() <= base
            &&& edits::pointed(done[j], base) matches Ok(bytes)
            &&& export.size == bytes.len()
            &&& base + bytes.len() <= d.len()
            &&& d.subrange(base, base + bytes.len()) == bytes
        },
    decreases n,
{
    if let Ok((d, entries)) = edits::placed(data, exports, done, n) {
        let (before, earlier) = edits::placed(data, exports, done, (n - 1) as nat)->Ok_0;
        package_laws::placed_behind(data, exports, done, (n - 1) as nat);
        placed_keep_count(data, exports, done, (n - 1) as nat);
        if j < n - 1 {
            rewritten_texture_is_placed(data, exports, done, (n - 1) as nat, j);
            let export = entries[done[j].index];
            let base = export.offset as int;
            assert(export == earlier[done[j].index]);
            assert(d.subrange(base, base + export.size) =~= before.subrange(
                base,
                base + export.size,
            ));
        } else {
            let bytes = edits::pointed(done[j], before.len() as int)->Ok_0;
            let base = before.len() as int;
            assert(d.subrange(base, base + bytes.len()) =~= bytes);
        }
    }
}

proof fn placed_keep_count(
    data: Seq<u8>,
    exports: Seq<ExportEntry>,
    done: Seq<RewrittenModel>,
    n: nat,
)
    requires
        n <= done.len(),
        forall|i: int| 0 <= i < done.len() ==> 0 <= (#[trigger] done[i]).index < exports.len(),
    ensures
        edits::placed(data, exports, done, n) matches Ok((_, entries)) ==> entries.len()
            == exports.len(),
    decreases n,
{
    if n > 0 {
        placed_keep_count(data, exports, done, (n - 1) as nat);
    }
}

/// Whether no two edits are about one texture.
pub open spec fn are_distinct(edits: Seq<(usize, TextureEditorEdit)>) -> bool {
    forall|i: int, j: int|
        0 <= i < j < edits.len() ==> (#[trigger] edits[i]).0 != (#[trigger] edits[j]).0
}

/// Whether a reader of a package finds an image in one of its objects.
pub open spec fn holds_image(p: PackageModel, index: int, image: ImageModel) -> bool {
    &&& 0 <= index < p.exports.len()
    &&& package::data_of(Dialect::Engine, p.data, p.exports[index]) matches Ok(object)
    &&& edits::mip_of(p, index) matches Ok(mip)
    &&& mip.width == image.width
    &&& mip.height == image.height
    &&& mip.size == image.pixels.len()
    &&& mip.pixel_offset + mip.size + 10 <= object.len()
    &&& object.subrange(mip.pixel_offset as int, mip.pixel_offset + mip.size) == image.pixels
}

/// A texture that no edit is about shows the image that it showed.
#[verifier::spinoff_prover]
#[verifier::rlimit(40)]
proof fn other_textures_are_seen(
    p: PackageModel,
    edits: Seq<(usize, TextureEditorEdit)>,
    index: int,
    image: ImageModel,
)
    requires
        p.data.len() <= usize::MAX,
        0 <= index < p.exports.len(),
        adding_laws::not_edited(edits, index),
        package_laws::stands_behind_header(p.exports[index]),
        package::data_of(Dialect::Engine, p.data, p.exports[index]) matches Ok(raw) && is_seen(
            p.names,
            p.version,
            p.licensee,
            raw,
            image,
        ),
        edits::edited(p, edits) is Ok,
    ensures
        ({
            let after = edits::edited(p, edits)->Ok_0;
            &&& index < after.exports.len()
            &&& package::data_of(Dialect::Engine, after.data, after.exports[index]) matches Ok(
                object,
            )
            &&& is_seen(after.names, after.version, after.licensee, object, image)
        }),
{
    let e = Dialect::Engine;
    let raw = package::data_of(e, p.data, p.exports[index])->Ok_0;
    adding_laws::edits_keep_others(p, edits, index);
    reveal(edits::edited);
    if edits.len() > 0 {
        let (names, _) = edits::rewritten_textures(p, edits, edits.len())->Ok_0;
        edits_extend_names(p, edits, edits.len(), edits.len());
        extended_names_are_alike(p.names, names);
        layout::layout_bounds(e, p.names, p.version, p.licensee, raw);
        layouts_are_alike(p.names, names, p.version, p.licensee, raw, raw);
    }
}

/// The rewritten texture of an edit, from the names that the edits before it need.
pub proof fn rewritten_at(p: PackageModel, edits: Seq<(usize, TextureEditorEdit)>, j: int)
    requires
        0 <= j < edits.len(),
        p.data.len() <= usize::MAX,
        edits::rewritten_textures(p, edits, edits.len()) is Ok,
    ensures
        ({
            let (names, done) = edits::rewritten_textures(p, edits, edits.len())->Ok_0;
            &&& edits::rewritten_textures(p, edits, j as nat) matches Ok((before, _))
            &&& property_laws::extends(p.names, before)
            &&& edits::rewritten_texture(
                PackageModel { names: before, ..p },
                edits[j].0 as int,
                edits[j].1,
            ) matches Ok((more, one))
            &&& one == done[j]
            &&& property_laws::extends(more, names)
        }),
{
    let n = edits.len();
    let next = (j + 1) as nat;
    edits_extend_names(p, edits, n, next);
    edits_extend_names(p, edits, next, j as nat);
    edits_extend_names(p, edits, j as nat, j as nat);
    let (_, done) = edits::rewritten_textures(p, edits, n)->Ok_0;
    let (_, first) = edits::rewritten_textures(p, edits, next)->Ok_0;
    assert(first[j] == done.take(j + 1)[j]);
}

/// What became of an edited texture: its object, which has the mip map that it had,
/// and a pointer that leads just behind the pixels.
#[verifier::spinoff_prover]
#[verifier::rlimit(60)]
pub proof fn edited_mips_move(p: PackageModel, edits: Seq<(usize, TextureEditorEdit)>, j: int)
    requires
        36 <= p.data.len() <= usize::MAX,
        0 <= j < edits.len(),
        are_distinct(edits),
        edits::edited(p, edits) matches Ok(after) && after.data.len() <= usize::MAX,
    ensures
        ({
            let after = edits::edited(p, edits)->Ok_0;
            let index = edits[j].0 as int;
            let raw = package::data_of(Dialect::Engine, p.data, p.exports[index])->Ok_0;
            let layout = edits::package_layout(Dialect::Engine, p, raw)->Ok_0;
            &&& index < p.exports.len() == after.exports.len()
            &&& package::data_of(Dialect::Engine, p.data, p.exports[index]) is Ok
            &&& package::data_of(Dialect::Engine, after.data, after.exports[index]) matches Ok(
                object,
            )
            &&& edits::package_layout(Dialect::Engine, after, object) matches Ok(other)
            &&& edits::package_layout(Dialect::Engine, p, raw) is Ok ==> mip_moved(
                raw,
                layout.mip_count_offset as int,
                object,
                other.mip_count_offset as int,
            )
            &&& edits::mip_of(after, index) matches Ok(mip)
            &&& is_pointed(object, mip, after.exports[index].offset as int)
        }),
{
    let e = Dialect::Engine;
    let index = edits[j].0 as int;
    let edit = edits[j].1;
    reveal(edits::edited);
    let after = edits::edited(p, edits)->Ok_0;
    let n = edits.len();
    let (names, done) = edits::rewritten_textures(p, edits, n)->Ok_0;
    adding_laws::rewritten_in_turn(p, edits, n);
    let (data, exports) = edits::placed(p.data, p.exports, done, n)->Ok_0;
    assert forall|i: int| 0 <= i < done.len() implies 0 <= (#[trigger] done[i]).index
        < p.exports.len() by {}
    assert forall|i: int| 0 <= i < done.len() && i != j implies (#[trigger] done[i]).index
        != done[j].index by {
        if i < j {
            assert(edits[i].0 != edits[j].0);
        } else {
            assert(edits[j].0 != edits[i].0);
        }
    }
    rewritten_texture_is_placed(p.data, p.exports, done, n, j);
    rewritten_at(p, edits, j);
    let (before, _) = edits::rewritten_textures(p, edits, j as nat)->Ok_0;
    let q = PackageModel { names: before, ..p };
    file_laws::rewritten_has_pointer(q, index, edit);
    let export = exports[index];
    let base = export.offset as int;
    let bytes = edits::pointed(done[j], base)->Ok_0;
    package_laws::rebuilt_keeps_data(p, data, names, p.imports, exports);
    rewritten_mips_move(q, index, edit, base, names);
    assert(package::data_of(e, data, export) == Ok::<Seq<u8>, Seq<char>>(bytes));
    assert(package::data_of(e, after.data, export) == Ok::<Seq<u8>, Seq<char>>(bytes));
    let raw = package::data_of(e, p.data, p.exports[index])->Ok_0;
    if edits::package_layout(e, p, raw) is Ok {
        extended_names_are_alike(p.names, before);
        layout::layout_bounds(e, p.names, p.version, p.licensee, raw);
        layouts_are_alike(p.names, before, p.version, p.licensee, raw, raw);
    }
}

/// An edited texture shows the image that it showed.
proof fn edited_textures_are_seen(
    p: PackageModel,
    edits: Seq<(usize, TextureEditorEdit)>,
    j: int,
    image: ImageModel,
)
    requires
        36 <= p.data.len() <= usize::MAX,
        0 <= j < edits.len(),
        edits[j].0 < p.exports.len(),
        are_distinct(edits),
        package::data_of(Dialect::Engine, p.data, p.exports[edits[j].0 as int]) matches Ok(raw)
            && is_seen(p.names, p.version, p.licensee, raw, image),
        edits::edited(p, edits) matches Ok(after) && after.data.len() <= usize::MAX,
    ensures
        holds_image(edits::edited(p, edits)->Ok_0, edits[j].0 as int, image),
{
    edited_mips_move(p, edits, j);
}

/// The pointer of an edited texture is the place in the file just behind its
/// pixels.
pub proof fn edited_pointers_lead_behind_pixels(
    p: PackageModel,
    edits: Seq<(usize, TextureEditorEdit)>,
    j: int,
)
    requires
        36 <= p.data.len() <= usize::MAX,
        0 <= j < edits.len(),
        are_distinct(edits),
        edits::edited(p, edits) matches Ok(after) && after.data.len() <= usize::MAX,
    ensures
        ({
            let after = edits::edited(p, edits)->Ok_0;
            let export = after.exports[edits[j].0 as int];
            &&& edits[j].0 < after.exports.len()
            &&& edits::mip_of(after, edits[j].0 as int) matches Ok(mip)
            &&& package::data_of(Dialect::Engine, after.data, export) matches Ok(object)
            &&& bytes::i32_of(
                object.subrange(
                    mip.width_offset_position as int,
                    mip.width_offset_position + 4,
                ),
            ) == export.offset + mip.pixel_offset + mip.size
        }),
{
    edited_mips_move(p, edits, j);
    let after = edits::edited(p, edits)->Ok_0;
    let export = after.exports[edits[j].0 as int];
    let mip = edits::mip_of(after, edits[j].0 as int)->Ok_0;
    bytes::integers_round_trip(0, (export.offset + mip.pixel_offset + mip.size) as i32, 0, 0);
}

/// The package of an edited file is the edited package.
pub proof fn written_edits_are_read(d: Seq<u8>, index: usize, edit: TextureEditorEdit)
    requires
        d.len() <= usize::MAX,
        texture_engine::edited_file(d, index, edit) matches Ok(written) && written.len()
            <= usize::MAX,
        properties::steps_of(edit).len() > 0,
    ensures
        ({
            let p = package::package_of(Dialect::Engine, d)->Ok_0;
            let written = texture_engine::edited_file(d, index, edit)->Ok_0;
            &&& package::package_of(Dialect::Engine, d) is Ok
            &&& p.data == d
            &&& 36 <= d.len()
            &&& package::header_of(Dialect::Engine, d) is Ok
            &&& index < p.exports.len()
            &&& edits::edited(p, seq![(index, edit)]) matches Ok(after)
            &&& after.data == written
            &&& package::package_of(Dialect::Engine, written) matches Ok(q)
            &&& q == (PackageModel { name_offset: q.name_offset, ..after })
        }),
{
    package_laws::written_packages_show_edits(d, index, edit);
    reveal(texture_engine::edited_file);
    tables::header_needs_bytes(Dialect::Engine, d);
}

pub proof fn edited_textures_have_layouts(p: PackageModel, index: usize, edit: TextureEditorEdit)
    requires
        index < p.exports.len(),
        p.data.len() <= usize::MAX,
        edits::edited(p, seq![(index, edit)]) is Ok,
    ensures
        package::data_of(Dialect::Engine, p.data, p.exports[index as int]) matches Ok(raw)
            && edits::package_layout(Dialect::Engine, p, raw) is Ok,
{
    let list = seq![(index, edit)];
    reveal(edits::edited);
    rewritten_at(p, list, 0);
    reveal(edits::rewritten_texture);
    let (before, _) = edits::rewritten_textures(p, list, 0)->Ok_0;
    assert(PackageModel { names: before, ..p } == p);
}

/// What stands behind the list of an edited texture is kept but for the pointer.
#[verifier::spinoff_prover]
#[verifier::rlimit(60)]
proof fn edited_tail_is_kept(p: PackageModel, index: usize, edit: TextureEditorEdit)
    requires
        36 <= p.data.len() <= usize::MAX,
        index < p.exports.len(),
        package::header_of(Dialect::Engine, p.data) is Ok,
        edits::edited(p, seq![(index, edit)]) matches Ok(after) && after.data.len() <= usize::MAX,
    ensures
        ({
            let i = index as int;
            let after = edits::edited(p, seq![(index, edit)])->Ok_0;
            let raw = package::data_of(Dialect::Engine, p.data, p.exports[i])->Ok_0;
            let stream = properties::stream_from(raw, p.names, 0)->Ok_0;
            let layout = edits::package_layout(Dialect::Engine, p, raw)->Ok_0;
            &&& package::data_of(Dialect::Engine, p.data, p.exports[i]) is Ok
            &&& properties::stream_from(raw, p.names, 0) is Ok
            &&& edits::package_layout(Dialect::Engine, p, raw) is Ok
            &&& package::data_of(Dialect::Engine, after.data, after.exports[i]) matches Ok(object)
            &&& properties::stream_from(object, after.names, 0) matches Ok(again)
            &&& package_laws::same_but_word(
                raw.skip(stream.tail_offset),
                object.skip(again.tail_offset),
                layout.mip_count_offset - stream.tail_offset + 1,
            )
            &&& edits::mip_of(after, i) matches Ok(mip)
            &&& mip.width_offset_position == again.tail_offset + layout.mip_count_offset
                - stream.tail_offset + 1
        }),
{
    let i = index as int;
    let list = seq![(index, edit)];
    let after = edits::edited(p, list)->Ok_0;
    let raw = package::data_of(Dialect::Engine, p.data, p.exports[i])->Ok_0;
    edited_textures_have_layouts(p, index, edit);
    package_laws::edits_keep_pixels(p, index, edit);
    edited_mips_move(p, list, 0);
    let object = package::data_of(Dialect::Engine, after.data, after.exports[i])->Ok_0;
    edits::stream_end(raw, p.names, 0);
    edits::stream_end(object, after.names, 0);
}

/// Once an edited package was written and read again, what stands behind the
/// property list of the texture is as it was byte for byte, but for the pointer,
/// and that is the place in the file just behind the pixels.
pub proof fn written_pointers_lead_behind_pixels(d: Seq<u8>, index: usize, edit: TextureEditorEdit)
    requires
        d.len() <= usize::MAX,
        texture_engine::edited_file(d, index, edit) matches Ok(written) && written.len()
            <= usize::MAX,
        properties::steps_of(edit).len() > 0,
    ensures
        ({
            let i = index as int;
            let written = texture_engine::edited_file(d, index, edit)->Ok_0;
            let p = package::package_of(Dialect::Engine, d)->Ok_0;
            let raw = package::data_of(Dialect::Engine, d, p.exports[i])->Ok_0;
            let stream = properties::stream_from(raw, p.names, 0)->Ok_0;
            let layout = edits::package_layout(Dialect::Engine, p, raw)->Ok_0;
            &&& package::package_of(Dialect::Engine, d) is Ok
            &&& package::data_of(Dialect::Engine, d, p.exports[i]) is Ok
            &&& properties::stream_from(raw, p.names, 0) is Ok
            &&& edits::package_layout(Dialect::Engine, p, raw) is Ok
            &&& package::package_of(Dialect::Engine, written) matches Ok(q)
            &&& package::data_of(Dialect::Engine, written, q.exports[i]) matches Ok(object)
            &&& properties::stream_from(object, q.names, 0) matches Ok(again)
            &&& package_laws::same_but_word(
                raw.skip(stream.tail_offset),
                object.skip(again.tail_offset),
                layout.mip_count_offset - stream.tail_offset + 1,
            )
            &&& edits::mip_of(q, i) matches Ok(mip)
            &&& mip.width_offset_position == again.tail_offset + layout.mip_count_offset
                - stream.tail_offset + 1
            &&& bytes::i32_of(
                object.subrange(
                    mip.width_offset_position as int,
                    mip.width_offset_position + 4,
                ),
            ) == q.exports[i].offset + mip.pixel_offset + mip.size
        }),
{
    written_edits_are_read(d, index, edit);
    let p = package::package_of(Dialect::Engine, d)->Ok_0;
    let after = edits::edited(p, seq![(index, edit)])->Ok_0;
    let written = texture_engine::edited_file(d, index, edit)->Ok_0;
    let q = package::package_of(Dialect::Engine, written)->Ok_0;
    edited_tail_is_kept(p, index, edit);
    edited_pointers_lead_behind_pixels(p, seq![(index, edit)], 0);
    assert(edits::mip_of(q, index as int) == edits::mip_of(after, index as int));
}

pub proof fn import_edits_are_distinct(
    p: PackageModel,
    requests: Seq<RequestModel>,
    targets: Seq<usize>,
    n: nat,
)
    requires
        n <= requests.len() == targets.len(),
        forall|i: int, j: int|
            0 <= i < j < targets.len() ==> #[trigger] targets[i] != #[trigger] targets[j],
    ensures
        adding::import_edits(p, requests, targets, n) matches Ok(edits) ==> {
            &&& are_distinct(edits)
            &&& forall|k: int|
                0 <= k < edits.len() ==> exists|m: int|
                    0 <= m < n && (#[trigger] edits[k]).0 == #[trigger] targets[m]
        },
    decreases n,
{
    if n > 0 {
        import_edits_are_distinct(p, requests, targets, (n - 1) as nat);
    }
}

/// The textures that were added stand behind the names that were there.
pub proof fn textures_extend_names(
    p: PackageModel,
    template: PackageModel,
    group: Seq<char>,
    outer: i32,
    start: Adding,
    requests: Seq<RequestModel>,
    n: nat,
)
    ensures
        adding::with_textures(p, template, group, outer, start, requests, n) matches Ok(state)
            ==> property_laws::extends(start.names, state.names),
    decreases n,
{
    if n == 0 {
        assert(start.names =~= start.names.take(start.names.len() as int));
    } else {
        textures_extend_names(p, template, group, outer, start, requests, (n - 1) as nat);
        if let Ok(state) = adding::with_textures(p, template, group, outer, start, requests, n) {
            reveal(adding::with_texture);
            reveal(adding::with_built);
            let before = adding::with_textures(
                p,
                template,
                group,
                outer,
                start,
                requests,
                (n - 1) as nat,
            )->Ok_0;
            assert(before.names =~= state.names.take(before.names.len() as int));
            package_laws::extends_twice(start.names, before.names, state.names);
        }
    }
}

/// Whether the properties of a template's textures that go by the entry of the
/// template's own name mean the same in a package, which has its name there. A
/// template without such properties fits every package, and a package that is not
/// named like a word of the layout fits every template.
pub open spec fn own_name_fits(p: PackageModel, template: PackageModel) -> bool {
    forall|k: int, i: int|
        0 <= k < template.exports.len() && package::is_texture_export(
            Dialect::Engine,
            template,
            #[trigger] template.exports[k],
        ) && 0 <= i < template.names.len() && text::same_folded(
            (#[trigger] template.names[i]).name,
            "UnrealTlp"@,
        ) && (package::data_of(Dialect::Engine, template.data, template.exports[k]) matches Ok(raw)
            && goes_by(template.names, raw, 0, i)) ==> alike(
            template.names[i].name,
            p.names[i].name,
        )
}

proof fn compatible_textures_are_alike(
    p: PackageModel,
    template: PackageModel,
    more: Seq<NameModel>,
)
    requires
        adding::compatible(p, template),
        own_name_fits(p, template),
        property_laws::extends(p.names, more),
    ensures
        textures_alike(template, more),
{
    let e = Dialect::Engine;
    assert forall|k: int|
        0 <= k < template.exports.len() && package::is_texture_export(
            e,
            template,
            #[trigger] template.exports[k],
        ) implies (package::data_of(e, template.data, template.exports[k]) matches Ok(raw)
        ==> used_alike(template.names, more, raw, 0)) by {
        if let Ok(raw) = package::data_of(e, template.data, template.exports[k]) {
            assert forall|i: int|
                0 <= i < template.names.len() && #[trigger] goes_by(
                    template.names,
                    raw,
                    0,
                    i,
                ) implies i < more.len() && alike(template.names[i].name, more[i].name) by {
                assert(more.take(p.names.len() as int)[i] == more[i]);
                let own = template.names[i].name;
                if text::same_folded(own, "UnrealTlp"@) {
                    assert(alike(own, p.names[i].name));
                }
            }
        }
    }
}

/// Whoever reads a package in which an import has added textures finds in each of
/// them the image of its file, pixel by pixel and in its dimensions, whatever
/// other properties the import asked for.
#[verifier::spinoff_prover]
#[verifier::rlimit(60)]
pub proof fn added_textures_show_their_images(
    p: PackageModel,
    template: PackageModel,
    group: Seq<char>,
    requests: Seq<RequestModel>,
    i: int,
)
    requires
        0 <= i < requests.len(),
        36 <= p.data.len() <= usize::MAX,
        template.data.len() <= usize::MAX,
        p.exports.len() + requests.len() < usize::MAX,
        template.exports.len() <= usize::MAX,
        own_name_fits(p, template),
        adding::with_added(p, template, group, requests) matches Ok((after, _)) && after.data.len()
            <= usize::MAX,
    ensures
        ({
            let (after, outcomes) = adding::with_added(p, template, group, requests)->Ok_0;
            let index = outcomes[i].export_index as int;
            &&& outcomes.len() == requests.len()
            &&& holds_image(after, index, requests[i].image)
        }),
{
    reveal(adding::with_added);
    let e = Dialect::Engine;
    let (after, outcomes) = adding::with_added(p, template, group, requests)->Ok_0;
    let n = requests.len();
    let place = texture_engine::with_outer(p, group)->Ok_0;
    package_laws::outer_keeps_tables(p, group);
    assert(place.exports.len() <= p.exports.len() + 1);
    let start = adding::start_of(place, p, group);
    let state = adding::with_textures(
        p,
        template,
        group,
        place.outer,
        start,
        requests,
        n,
    )->Ok_0;
    textures_extend_names(p, template, group, place.outer, start, requests, n);
    package_laws::extends_twice(p.names, place.names, state.names);
    extended_names_are_alike(p.names, state.names);
    if adding::compatible(p, template) {
        compatible_textures_are_alike(p, template, state.names);
    }
    added_textures_are_seen(
        p,
        template,
        group,
        place.outer,
        start,
        requests,
        n,
        state.names,
    );
    assert(is_added(p, start, state, requests[i], i, state.names));
    let data = p.data + state.appended;
    let built = tables::rebuilt(p, data, state.names, place.imports, state.exports)->Ok_0;
    package_laws::rebuilt_keeps_data(p, data, state.names, place.imports, state.exports);
    let targets = adding::new_targets(place.exports.len() as int, n);
    let edits = adding::import_edits(built, requests, targets, n)->Ok_0;
    let index = targets[i] as int;
    assert(index == start.exports.len() + i);
    let export = built.exports[index];
    let from = export.offset - p.data.len();
    assert(data.subrange(export.offset as int, export.offset + export.size)
        =~= state.appended.subrange(from, from + export.size));
    assert(package::data_of(e, data, export) is Ok);
    import_edits_are_distinct(built, requests, targets, n);
    file_laws::edited_data_is_longer(built, edits);
    if adding_laws::not_edited(edits, index) {
        other_textures_are_seen(built, edits, index, requests[i].image);
    } else {
        let j = choose|j: int| 0 <= j < edits.len() && (#[trigger] edits[j]).0 == index;
        edited_textures_are_seen(built, edits, j, requests[i].image);
    }
}

/// An image that is found in a package is found in what its tables hold of it.
pub proof fn held_images_are_stored(
    q: PackageModel,
    p: PackageModel,
    index: int,
    image: ImageModel,
)
    requires
        p.data.len() <= usize::MAX,
        file_laws::same_tables(q, p),
        holds_image(p, index, image),
    ensures
        holds_image(q, index, image),
{
    assert(p.exports[index].size > 0);
    assert(q.exports[index] == file_laws::stored_export(p.exports[index]));
}

/// An image that was imported as a new texture is read back from the written
/// file. Left out is a package that is named like a word of the layout and whose
/// template has a texture with a property that goes by the template's own name.
pub proof fn imported_images_are_read_back(
    d: Seq<u8>,
    template: Seq<u8>,
    group: Seq<char>,
    requests: Seq<RequestModel>,
    i: int,
)
    requires
        0 <= i < requests.len(),
        d.len() <= usize::MAX,
        template.len() <= usize::MAX,
        texture_engine::added_to_file(d, template, group, requests) matches Ok((after, _))
            && after.data.len() <= usize::MAX,
        ({
            let p = package::package_of(Dialect::Engine, d)->Ok_0;
            &&& p.exports.len() + requests.len() < usize::MAX
            &&& own_name_fits(p, package::package_of(Dialect::Engine, template)->Ok_0)
        }),
    ensures
        ({
            let (after, outcomes) = texture_engine::added_to_file(
                d,
                template,
                group,
                requests,
            )->Ok_0;
            &&& package::package_of(Dialect::Engine, after.data) matches Ok(q)
            &&& holds_image(q, outcomes[i].export_index as int, requests[i].image)
        }),
{
    let p = package::package_of(Dialect::Engine, d)->Ok_0;
    let t = package::package_of(Dialect::Engine, template)->Ok_0;
    package_laws::read_packages_are_storable(d);
    package_laws::read_packages_are_storable(template);
    tables::header_needs_bytes(Dialect::Engine, d);
    file_laws::exports_are_few(template);
    added_textures_show_their_images(p, t, group, requests, i);
    file_laws::written_additions_are_read(d, template, group, requests);
    let (after, outcomes) = texture_engine::added_to_file(d, template, group, requests)->Ok_0;
    let q = package::package_of(Dialect::Engine, after.data)->Ok_0;
    held_images_are_stored(q, after, outcomes[i].export_index as int, requests[i].image);
}

/// A duplicate has the mip map of its source: both stand at the same place of
/// their objects, and hold the same pixels.
pub proof fn duplicates_show_their_source(
    p: PackageModel,
    index: int,
    group: Seq<char>,
    name: Seq<char>,
)
    requires
        0 <= index,
        package::header_of(Dialect::Engine, p.data) is Ok,
        p.data.len() <= usize::MAX,
        texture_engine::duplicated(p, index, group, name) is Ok,
    ensures
        ({
            let (after, i) = texture_engine::duplicated(p, index, group, name)->Ok_0;
            &&& edits::mip_of(p, index) matches Ok(mip)
            &&& edits::mip_of(after, i) == edits::mip_of(p, index)
            &&& package::data_of(Dialect::Engine, p.data, p.exports[index]) matches Ok(raw)
            &&& package::data_of(Dialect::Engine, after.data, after.exports[i]) matches Ok(copy)
            &&& copy.subrange(mip.pixel_offset as int, mip.pixel_offset + mip.size)
                == raw.subrange(mip.pixel_offset as int, mip.pixel_offset + mip.size)
        }),
{
    let e = Dialect::Engine;
    package_laws::duplicates_are_copies(p, index, group, name);
    let (after, i) = texture_engine::duplicated(p, index, group, name)->Ok_0;
    let raw = package::data_of(e, p.data, p.exports[index])->Ok_0;
    let copy = package::data_of(e, after.data, after.exports[i])->Ok_0;
    let layout = edits::package_layout(e, p, raw)->Ok_0;
    let at = layout.mip_count_offset as int;
    package_laws::mip_pointer(p, index);
    layout::layout_bounds(e, p.names, p.version, p.licensee, raw);
    layout::mip_bounds(e, raw, at);
    extended_names_are_alike(p.names, after.names);
    layouts_are_alike(p.names, after.names, p.version, p.licensee, raw, copy);
    pointers_keep_mips(raw, copy, at);
}

} // verus!
