//! What holds of packages as a whole: what an operation does not speak of stays
//! as it is, and what it was asked for is found when the package is read again.

use vstd::prelude::*;
use crate::edits::{RequestModel, RewrittenModel};
use crate::layout::LayoutParts;
use crate::names::NameModel;
use crate::package::{ExportEntry, ImportEntry, PackageModel};
use crate::properties::TextureEditorEdit;
use crate::reader::Dialect;
use crate::tables::Places;
use crate::edits;
use crate::in_place_laws;
use crate::layout;
use crate::names;
use crate::package;
use crate::properties;
use crate::property_laws;
use crate::reader;
use crate::tables;
use crate::text;
use crate::texture_engine;

verus! {

/// Whether the bytes of an export stand behind the header of its package, whose
/// places of tables change when the tables do.
pub open spec fn stands_behind_header(export: ExportEntry) -> bool {
    export.offset >= 36 || export.size == 0
}

/// Whether a package still holds the object of an export, byte for byte.
pub open spec fn object_kept(p: PackageModel, after: PackageModel, k: int) -> bool {
    &&& after.exports[k].offset == p.exports[k].offset
    &&& after.exports[k].size == p.exports[k].size
    &&& package::data_of(Dialect::Engine, p.data, p.exports[k]) is Ok ==> package::data_of(
        Dialect::Engine,
        after.data,
        after.exports[k],
    ) == package::data_of(Dialect::Engine, p.data, p.exports[k])
}

/// Rebuilt tables leave the data that they stand behind.
pub proof fn rebuilt_keeps_data(
    p: PackageModel,
    data: Seq<u8>,
    names: Seq<NameModel>,
    imports: Seq<ImportEntry>,
    exports: Seq<ExportEntry>,
)
    requires
        tables::rebuilt(p, data, names, imports, exports) is Ok,
    ensures
        ({
            let after = tables::rebuilt(p, data, names, imports, exports)->Ok_0;
            &&& data.len() <= after.data.len()
            &&& forall|k: int| 36 <= k < data.len() ==> #[trigger] after.data[k] == data[k]
            &&& forall|export: ExportEntry|
                stands_behind_header(export) && (#[trigger] package::data_of(
                    Dialect::Engine,
                    data,
                    export,
                )) is Ok ==> package::data_of(Dialect::Engine, after.data, export)
                    == package::data_of(Dialect::Engine, data, export)
        }),
{
    let table = names::names_bytes(Dialect::Engine, names)->Ok_0;
    let full = data + table + package::imports_bytes(imports) + package::exports_bytes(exports);
    let places = Places {
        name_count: names.len() as int,
        name_offset: data.len() as int,
        export_count: exports.len() as int,
        export_offset: (data.len() + table.len() + package::imports_bytes(imports).len()) as int,
        import_count: imports.len() as int,
        import_offset: (data.len() + table.len()) as int,
    };
    tables::places_are_read(full, places, tables::rebuild_texts());
    let after = tables::rebuilt(p, data, names, imports, exports)->Ok_0;
    assert forall|k: int| 36 <= k < data.len() implies #[trigger] after.data[k] == data[k] by {
        assert(full[k] == data[k]);
    }
    assert forall|export: ExportEntry|
        stands_behind_header(export) && (#[trigger] package::data_of(
            Dialect::Engine,
            data,
            export,
        )) is Ok implies package::data_of(Dialect::Engine, after.data, export)
        == package::data_of(Dialect::Engine, data, export) by {
        let start = export.offset as int;
        let end = export.offset + export.size;
        assert(after.data.subrange(start, end) =~= data.subrange(start, end));
    }
}

pub proof fn interned_extends(names: Seq<NameModel>, name: Seq<char>)
    ensures
        names::interned(names, name) matches Ok((more, index)) ==> {
            &&& property_laws::extends(names, more)
            &&& names::name_at(more, index) matches Ok(found)
            &&& text::same_folded(found, name)
        },
{
    names::find_name_is_first(names, name, 0);
    if let Ok((more, _)) = names::interned(names, name) {
        assert(names =~= more.take(names.len() as int));
    }
}

/// A renamed texture has its new name. Every object keeps its index, its place
/// and its bytes, so that references to it hold.
pub proof fn renaming_keeps_objects(p: PackageModel, index: int, name: Seq<char>)
    requires
        0 <= index,
        texture_engine::renamed(p, index, name) is Ok,
    ensures
        ({
            let after = texture_engine::renamed(p, index, name)->Ok_0;
            &&& property_laws::extends(p.names, after.names)
            &&& after.imports == p.imports
            &&& after.exports.len() == p.exports.len()
            &&& names::name_at(after.names, after.exports[index].name_index) matches Ok(found)
            &&& text::same_folded(found, name)
            &&& after.exports[index].package == p.exports[index].package
            &&& after.exports[index].class == p.exports[index].class
            &&& forall|k: int|
                0 <= k < p.exports.len() && k != index ==> #[trigger] after.exports[k]
                    == p.exports[k]
            &&& forall|k: int|
                0 <= k < p.exports.len() && stands_behind_header(p.exports[k])
                    ==> #[trigger] object_kept(p, after, k)
        }),
{
    interned_extends(p.names, name);
    let (names, name_index) = names::interned(p.names, name)->Ok_0;
    let exports = p.exports.update(index, ExportEntry { name_index, ..p.exports[index] });
    rebuilt_keeps_data(p, p.data, names, p.imports, exports);
    let after = texture_engine::renamed(p, index, name)->Ok_0;
    assert forall|k: int|
        0 <= k < p.exports.len() && stands_behind_header(
            p.exports[k],
        ) implies #[trigger] object_kept(p, after, k) by {
        let export = p.exports[k];
        let other = after.exports[k];
        assert(package::data_of(Dialect::Engine, p.data, export) == package::data_of(
            Dialect::Engine,
            p.data,
            other,
        ));
    }
}

pub proof fn extends_twice(a: Seq<NameModel>, b: Seq<NameModel>, c: Seq<NameModel>)
    requires
        property_laws::extends(a, b),
        property_laws::extends(b, c),
    ensures
        property_laws::extends(a, c),
{
    assert forall|i: int| 0 <= i < a.len() implies a[i] == c[i] by {
        assert(b.take(a.len() as int)[i] == b[i]);
        assert(c.take(b.len() as int)[i] == c[i]);
    }
    assert(a =~= c.take(a.len() as int));
}

/// Whether a table of imports starts with another.
pub open spec fn imports_kept(imports: Seq<ImportEntry>, more: Seq<ImportEntry>) -> bool {
    &&& imports.len() <= more.len()
    &&& forall|k: int| 0 <= k < imports.len() ==> #[trigger] more[k] == imports[k]
}

/// Making room for a group keeps the names, the imports and the exports that are
/// there.
pub proof fn outer_keeps_tables(p: PackageModel, group: Seq<char>)
    ensures
        texture_engine::with_outer(p, group) matches Ok(place) ==> {
            &&& property_laws::extends(p.names, place.names)
            &&& imports_kept(p.imports, place.imports)
            &&& place.exports.len() >= p.exports.len()
            &&& forall|k: int|
                0 <= k < p.exports.len() ==> #[trigger] place.exports[k] == p.exports[k]
        },
{
    assert(p.names.take(p.names.len() as int) =~= p.names);
    interned_extends(p.names, group);
    if let Ok((n1, _)) = names::interned(p.names, group) {
        interned_extends(n1, "Core"@);
        if let Ok((n2, _)) = names::interned(n1, "Core"@) {
            interned_extends(n2, "Package"@);
            extends_twice(p.names, n1, n2);
            if let Ok((n3, _)) = names::interned(n2, "Package"@) {
                interned_extends(n3, "Class"@);
                extends_twice(p.names, n2, n3);
                if let Ok((n4, _)) = names::interned(n3, "Class"@) {
                    extends_twice(p.names, n3, n4);
                }
            }
        }
    }
}

/// Bytes that are the same but for the four at `at`.
pub open spec fn same_but_word(a: Seq<u8>, b: Seq<u8>, at: int) -> bool {
    &&& a.len() == b.len()
    &&& forall|k: int| 0 <= k < a.len() && !(at <= k < at + 4) ==> #[trigger] a[k] == b[k]
}

/// A duplicate is a copy of its source, byte for byte but for the pointer behind
/// its pixels, which leads to their new place. Every other object keeps its
/// index, its place and its bytes.
#[verifier::spinoff_prover]
#[verifier::rlimit(40)]
pub proof fn duplicates_are_copies(
    p: PackageModel,
    index: int,
    group: Seq<char>,
    name: Seq<char>,
)
    requires
        0 <= index,
        package::header_of(Dialect::Engine, p.data) is Ok,
        p.data.len() <= usize::MAX,
        texture_engine::duplicated(p, index, group, name) is Ok,
    ensures
        ({
            let (after, i) = texture_engine::duplicated(p, index, group, name)->Ok_0;
            let raw = package::data_of(Dialect::Engine, p.data, p.exports[index])->Ok_0;
            let mip = edits::mip_of(p, index)->Ok_0;
            &&& i == after.exports.len() - 1
            &&& package::data_of(Dialect::Engine, p.data, p.exports[index]) is Ok
            &&& package::data_of(Dialect::Engine, after.data, after.exports[i]) matches Ok(copy)
            &&& same_but_word(raw, copy, mip.width_offset_position as int)
            &&& copy.subrange(
                mip.pixel_offset as int,
                mip.pixel_offset + mip.size,
            ) == raw.subrange(mip.pixel_offset as int, mip.pixel_offset + mip.size)
            &&& after.exports[i].class == p.exports[index].class
            &&& names::name_at(after.names, after.exports[i].name_index) matches Ok(found)
            &&& text::same_folded(found, name)
            &&& property_laws::extends(p.names, after.names)
            &&& i >= p.exports.len()
            &&& forall|k: int|
                0 <= k < p.exports.len() ==> #[trigger] after.exports[k] == p.exports[k]
            &&& forall|k: int|
                0 <= k < p.exports.len() && stands_behind_header(p.exports[k])
                    ==> #[trigger] object_kept(p, after, k)
        }),
{
    let (after, i) = texture_engine::duplicated(p, index, group, name)->Ok_0;
    let source = p.exports[index];
    let raw = package::data_of(Dialect::Engine, p.data, source)->Ok_0;
    let mip = edits::mip_of(p, index)->Ok_0;
    let place = texture_engine::with_outer(p, group)->Ok_0;
    outer_keeps_tables(p, group);
    let layout = edits::package_layout(Dialect::Engine, p, raw)->Ok_0;
    layout::layout_bounds(Dialect::Engine, p.names, p.version, p.licensee, raw);
    layout::mip_bounds(Dialect::Engine, raw, layout.mip_count_offset as int);
    let at = (p.data.len() + place.bytes.len()) as int;
    let copy = texture_engine::relocated(raw, mip, at)->Ok_0;
    assert(same_but_word(raw, copy, mip.width_offset_position as int));
    assert(copy.subrange(mip.pixel_offset as int, mip.pixel_offset + mip.size) =~= raw.subrange(
        mip.pixel_offset as int,
        mip.pixel_offset + mip.size,
    ));
    interned_extends(place.names, name);
    let (names, name_index) = names::interned(place.names, name)->Ok_0;
    extends_twice(p.names, place.names, names);
    let data = p.data + (place.bytes + copy);
    let entry = after.exports[i];
    rebuilt_keeps_data(p, data, names, place.imports, after.exports);
    assert(data.subrange(at, at + copy.len()) =~= copy);
    assert(package::data_of(Dialect::Engine, data, entry) == Ok::<Seq<u8>, Seq<char>>(copy));
    assert(raw.len() <= p.data.len());
    tables::header_needs_bytes(Dialect::Engine, p.data);
    assert forall|k: int|
        0 <= k < p.exports.len() && stands_behind_header(
            p.exports[k],
        ) implies #[trigger] object_kept(p, after, k) by {
        let export = p.exports[k];
        assert(after.exports[k] == export);
        if package::data_of(Dialect::Engine, p.data, export) is Ok {
            assert(data.subrange(export.offset as int, export.offset + export.size)
                =~= p.data.subrange(export.offset as int, export.offset + export.size));
            assert(package::data_of(Dialect::Engine, data, export) is Ok);
        }
    }
}

/// The mip maps of a texture stand behind its property list.
pub proof fn mips_stand_behind_list(
    names: Seq<NameModel>,
    d: Seq<u8>,
    p: int,
    parts: LayoutParts,
)
    requires
        0 <= p,
        d.len() <= usize::MAX,
        properties::stream_from(d, names, p) is Ok,
    ensures
        layout::parts_from(Dialect::Engine, names, d, p, parts) matches Ok((_, q)) ==> q
            == properties::stream_from(d, names, p)->Ok_0.tail_offset,
    decreases d.len() - p,
{
    let e = Dialect::Engine;
    reader::compact_moves(e, d, p);
    if let Ok((index, q)) = reader::compact_at(e, d, p) {
        reader::tag_moves(e, d, q);
        if let Ok(name) = names::name_at(names, index) {
            if !text::same_folded(name, "None"@) {
                if let Ok(tag) = reader::tag_at(e, d, q) {
                    if let Ok(more) = layout::noted(e, d, parts, name, tag) {
                        if let Ok(end) = reader::skip_end(e, d, tag.start, tag.size) {
                            mips_stand_behind_list(names, d, end, more);
                        }
                    }
                }
            }
        }
    }
}

/// Where the mip maps of a texture that can be edited stand.
pub proof fn mip_place(p: PackageModel, index: int)
    requires
        0 <= index < p.exports.len(),
        p.data.len() <= usize::MAX,
        edits::mip_of(p, index) is Ok,
        package::data_of(Dialect::Engine, p.data, p.exports[index]) matches Ok(raw)
            && properties::stream_from(raw, p.names, 0) is Ok,
    ensures
        ({
            let raw = package::data_of(Dialect::Engine, p.data, p.exports[index])->Ok_0;
            let mip = edits::mip_of(p, index)->Ok_0;
            let layout = edits::package_layout(Dialect::Engine, p, raw)->Ok_0;
            &&& properties::stream_from(raw, p.names, 0)->Ok_0.tail_offset <= mip.mip_count_offset
            &&& mip.mip_count_offset == layout.mip_count_offset
            &&& mip.width_offset_position == mip.mip_count_offset + 1
            &&& mip.mip_count_offset + 5 < mip.pixel_offset
            &&& mip.pixel_offset + mip.size + 8 <= raw.len()
        }),
{
    let raw = package::data_of(Dialect::Engine, p.data, p.exports[index])->Ok_0;
    let layout = edits::package_layout(Dialect::Engine, p, raw)->Ok_0;
    layout::layout_bounds(Dialect::Engine, p.names, p.version, p.licensee, raw);
    layout::mip_bounds(Dialect::Engine, raw, layout.mip_count_offset as int);
    list_before_mips(p, raw);
}

/// The list is read the same while its bytes are.
pub proof fn list_is_read_alike(names: Seq<NameModel>, d: Seq<u8>, c: Seq<u8>, p: int)
    requires
        0 <= p,
        c.len() == d.len() <= usize::MAX,
        properties::stream_from(d, names, p) matches Ok(stream) && forall|k: int|
            p <= k < stream.tail_offset ==> #[trigger] c[k] == d[k],
    ensures
        properties::stream_from(c, names, p) == properties::stream_from(d, names, p),
    decreases d.len() - p,
{
    let e = Dialect::Engine;
    let stream = properties::stream_from(d, names, p)->Ok_0;
    edits::stream_end(d, names, p);
    reader::compact_moves(e, d, p);
    let (index, q) = reader::compact_at(e, d, p)->Ok_0;
    let name = names::name_at(names, index)->Ok_0;
    if text::same_folded(name, "None"@) {
        assert forall|k: int| 0 <= k < q - p implies #[trigger] c[p + k] == d[p + k] by {}
        property_laws::compact_is_local(e, d, p, c, p, q - p);
    } else {
        reader::tag_moves(e, d, q);
        let tag = reader::tag_at(e, d, q)->Ok_0;
        let end = tag.start + tag.size;
        edits::stream_end(d, names, end);
        assert forall|k: int| 0 <= k < q - p implies #[trigger] c[p + k] == d[p + k] by {}
        property_laws::compact_is_local(e, d, p, c, p, q - p);
        assert forall|k: int| 0 <= k < tag.start - q implies #[trigger] c[q + k] == d[q + k] by {}
        property_laws::tag_is_local(d, q, c, q, tag.start - q);
        assert(c.subrange(tag.start, end) =~= d.subrange(tag.start, end));
        assert(c.subrange(p, end) =~= d.subrange(p, end));
        list_is_read_alike(names, d, c, end);
    }
}

/// A replaced texture has the new pixels. The package keeps its length, its
/// tables and every byte outside the object of the texture, and where the import
/// asks for other properties, the list shows them.
#[verifier::spinoff_prover]
#[verifier::rlimit(60)]
pub proof fn replacements_keep_the_layout(p: PackageModel, index: usize, request: RequestModel)
    requires
        index < p.exports.len(),
        p.data.len() <= usize::MAX,
        package::data_of(Dialect::Engine, p.data, p.exports[index as int]) matches Ok(raw)
            && properties::stream_from(raw, p.names, 0) is Ok,
        texture_engine::replaced_one(p, index, request) is Ok,
    ensures
        ({
            let after = texture_engine::replaced_one(p, index, request)->Ok_0;
            let export = p.exports[index as int];
            let raw = package::data_of(Dialect::Engine, p.data, export)->Ok_0;
            let stream = properties::stream_from(raw, p.names, 0)->Ok_0;
            let mip = edits::mip_of(p, index as int)->Ok_0;
            &&& after == (PackageModel { data: after.data, ..p })
            &&& after.data.len() == p.data.len()
            &&& forall|k: int|
                0 <= k < p.data.len() && !(export.offset <= k < export.offset + export.size)
                    ==> #[trigger] after.data[k] == p.data[k]
            &&& edits::mip_of(p, index as int) is Ok
            &&& package::data_of(Dialect::Engine, after.data, export) matches Ok(bytes)
            &&& bytes.subrange(mip.pixel_offset as int, mip.pixel_offset + mip.size)
                == request.image.pixels
            &&& properties::stream_from(bytes, after.names, 0) matches Ok(again)
            &&& match edits::import_edit_of(
                edits::with_pixels(p, index as int, request.image)->Ok_0,
                request,
                index as int,
            ) {
                Ok(Some(edit)) => forall|k: int|
                    0 <= k < properties::steps_of(edit).len() ==> in_place_laws::shows_in_place(
                        again.properties,
                        #[trigger] properties::steps_of(edit)[k],
                    ),
                _ => again == stream,
            }
        }),
{
    reveal(edits::with_pixels);
    let i = index as int;
    let export = p.exports[i];
    let base = export.offset as int;
    let raw = package::data_of(Dialect::Engine, p.data, export)->Ok_0;
    let stream = properties::stream_from(raw, p.names, 0)->Ok_0;
    let middle = edits::with_pixels(p, i, request.image)->Ok_0;
    let after = texture_engine::replaced_one(p, index, request)->Ok_0;
    let mip = edits::mip_of(p, i)->Ok_0;
    mip_place(p, i);
    let changed = in_place_laws::object_bytes(middle.data, base, export.size as int);
    let from = mip.pixel_offset as int;
    let to = mip.pixel_offset + mip.size;
    assert(changed.subrange(from, to) =~= request.image.pixels);
    assert forall|k: int| 0 <= k < stream.tail_offset implies #[trigger] changed[k] == raw[k] by {}
    list_is_read_alike(p.names, raw, changed, 0);
    if let Ok(Some(edit)) = edits::import_edit_of(middle, request, i) {
        in_place_laws::edits_in_place_show(middle, i, edit);
        let bytes = in_place_laws::object_bytes(after.data, base, export.size as int);
        assert(bytes.subrange(from, to) =~= changed.subrange(from, to));
    }
}

/// An edited texture has the properties that were asked for, and keeps the
/// others. What stands behind its property list stays byte for byte but for the
/// pointer behind its pixels; every other object keeps its place and its bytes.
#[verifier::spinoff_prover]
#[verifier::rlimit(80)]
pub proof fn edits_keep_pixels(p: PackageModel, index: usize, edit: TextureEditorEdit)
    requires
        index < p.exports.len(),
        package::header_of(Dialect::Engine, p.data) is Ok,
        p.data.len() <= usize::MAX,
        edits::edited(p, seq![(index, edit)]) is Ok,
    ensures
        ({
            let after = edits::edited(p, seq![(index, edit)])->Ok_0;
            let i = index as int;
            let raw = package::data_of(Dialect::Engine, p.data, p.exports[i])->Ok_0;
            let stream = properties::stream_from(raw, p.names, 0)->Ok_0;
            let layout = edits::package_layout(Dialect::Engine, p, raw)->Ok_0;
            let steps = properties::steps_of(edit);
            &&& package::data_of(Dialect::Engine, p.data, p.exports[i]) is Ok
            &&& properties::stream_from(raw, p.names, 0) is Ok
            &&& package::data_of(Dialect::Engine, after.data, after.exports[i]) matches Ok(bytes)
            &&& properties::stream_from(bytes, after.names, 0) matches Ok(again)
            &&& same_but_word(
                raw.skip(stream.tail_offset),
                bytes.skip(again.tail_offset),
                layout.mip_count_offset - stream.tail_offset + 1,
            )
            &&& forall|k: int|
                0 <= k < steps.len() ==> property_laws::shows(again.properties, #[trigger] steps[k])
            &&& forall|other: Seq<char>|
                property_laws::not_named(steps, steps.len() as int, other)
                    ==> #[trigger] properties::value_of(again.properties, other)
                    == properties::value_of(stream.properties, other)
            &&& property_laws::extends(p.names, after.names)
            &&& after.imports == p.imports
            &&& after.exports == p.exports.update(
                i,
                ExportEntry {
                    offset: after.exports[i].offset,
                    size: after.exports[i].size,
                    ..p.exports[i]
                },
            )
            &&& forall|k: int|
                0 <= k < p.exports.len() && k != i && stands_behind_header(p.exports[k])
                    ==> #[trigger] object_kept(p, after, k)
        }),
{
    reveal(edits::edited);
    reveal(edits::rewritten_texture);
    let i = index as int;
    let list = seq![(index, edit)];
    let export = p.exports[i];
    reveal_with_fuel(edits::rewritten_textures, 2);
    reveal_with_fuel(edits::placed, 2);
    let (names, done) = edits::rewritten_textures(p, list, 1)->Ok_0;
    assert(PackageModel { names: p.names, ..p } == p);
    let (_, one) = edits::rewritten_texture(p, i, edit)->Ok_0;
    assert(done =~= seq![one]);
    let raw = package::data_of(Dialect::Engine, p.data, export)->Ok_0;
    let stream = properties::stream_from(raw, p.names, 0)->Ok_0;
    let layout = edits::package_layout(Dialect::Engine, p, raw)->Ok_0;
    let (more, records) = properties::with_edit(p.names, stream.properties, edit)->Ok_0;
    let head = properties::stream_bytes(more, records)->Ok_0;
    let tail = raw.skip(stream.tail_offset);
    edits::stream_end(raw, p.names, 0);
    property_laws::read_properties_are_sound(raw, p.names, 0);
    property_laws::edits_show_and_keep_the_rest(p.names, stream.properties, edit);
    assert(names == more);
    layout::layout_bounds(Dialect::Engine, p.names, p.version, p.licensee, raw);
    list_before_mips(p, raw);
    let base = p.data.len() as int;
    let bytes = edits::pointed(one, base)->Ok_0;
    mip_pointer(PackageModel { names, ..p }, i);
    let at = layout.mip_count_offset - stream.tail_offset + 1;
    let moved = bytes.skip(head.len() as int);
    assert(bytes =~= head + moved);
    assert(same_but_word(tail, moved, at));
    property_laws::written_edits_show(raw, p.names, edit, moved);
    let data = p.data + bytes;
    let after = edits::edited(p, list)->Ok_0;
    rebuilt_keeps_data(p, data, names, p.imports, after.exports);
    tables::header_needs_bytes(Dialect::Engine, p.data);
    assert(data.subrange(base, base + bytes.len()) =~= bytes);
    assert(package::data_of(Dialect::Engine, data, after.exports[i]) == Ok::<Seq<u8>, Seq<char>>(
        bytes,
    ));
    assert forall|k: int|
        0 <= k < p.exports.len() && k != i && stands_behind_header(
            p.exports[k],
        ) implies #[trigger] object_kept(p, after, k) by {
        let other = p.exports[k];
        if package::data_of(Dialect::Engine, p.data, other) is Ok {
            assert(data.subrange(other.offset as int, other.offset + other.size) =~= p.data.subrange(
                other.offset as int,
                other.offset + other.size,
            ));
            assert(package::data_of(Dialect::Engine, data, other) is Ok);
        }
    }
}

/// The mip maps of a texture whose layout is known stand behind its list.
pub proof fn list_before_mips(p: PackageModel, raw: Seq<u8>)
    requires
        raw.len() <= usize::MAX,
        properties::stream_from(raw, p.names, 0) is Ok,
        edits::package_layout(Dialect::Engine, p, raw) is Ok,
    ensures
        properties::stream_from(raw, p.names, 0)->Ok_0.tail_offset <= edits::package_layout(
            Dialect::Engine,
            p,
            raw,
        )->Ok_0.mip_count_offset,
{
    mips_stand_behind_list(p.names, raw, 0, layout::no_parts());
    reveal(layout::layout_of);
    let (_, q) = layout::parts_from(
        Dialect::Engine,
        p.names,
        raw,
        0,
        layout::no_parts(),
    )->Ok_0;
    layout::parts_end(Dialect::Engine, p.names, raw, 0, layout::no_parts());
    layout::layout_bounds(Dialect::Engine, p.names, p.version, p.licensee, raw);
    layout::extra_end(Dialect::Engine, raw, q, p.version, p.licensee);
}

/// The pointer stands right behind the count of mip maps.
pub proof fn mip_pointer(p: PackageModel, index: int)
    requires
        0 <= index < p.exports.len(),
        p.data.len() <= usize::MAX,
        edits::mip_of(p, index) is Ok,
    ensures
        ({
            let mip = edits::mip_of(p, index)->Ok_0;
            mip.width_offset_position == mip.mip_count_offset + 1
        }),
{
    let raw = package::data_of(Dialect::Engine, p.data, p.exports[index])->Ok_0;
    let layout = edits::package_layout(Dialect::Engine, p, raw)->Ok_0;
    layout::layout_bounds(Dialect::Engine, p.names, p.version, p.licensee, raw);
    layout::mip_bounds(Dialect::Engine, raw, layout.mip_count_offset as int);
}

proof fn read_exports_are_storable(
    d: Seq<u8>,
    p: int,
    n: nat,
    name_count: int,
)
    requires
        0 <= p,
    ensures
        package::exports_from(Dialect::Engine, d, p, n, name_count, false) matches Ok((exports, _))
            ==> package::storable_exports(exports, name_count),
    decreases n,
{
    if n > 0 {
        if let Ok((entry, q)) = package::export_at(Dialect::Engine, d, p, name_count, false) {
            export_moves(d, p, name_count);
            read_exports_are_storable(d, q, (n - 1) as nat, name_count);
        }
    }
}

proof fn export_moves(d: Seq<u8>, p: int, name_count: int)
    requires
        0 <= p,
    ensures
        package::export_at(Dialect::Engine, d, p, name_count, false) matches Ok((entry, q)) ==> {
            &&& p <= q
            &&& package::storable_export(entry, name_count)
        },
{
    reveal(package::export_at);
    let e = Dialect::Engine;
    if package::export_at(e, d, p, name_count, false) is Ok {
        reader::compact_moves(e, d, p);
        let q = reader::compact_at(e, d, p)->Ok_0.1;
        reader::compact_moves(e, d, q);
        let q1 = reader::compact_at(e, d, q)->Ok_0.1;
        reader::compact_moves(e, d, q1 + 4);
        let q3 = reader::compact_at(e, d, q1 + 4)->Ok_0.1;
        reader::compact_moves(e, d, q3 + 4);
        let q5 = reader::compact_at(e, d, q3 + 4)->Ok_0.1;
        reader::compact_moves(e, d, q5);
    }
}

/// A package that was read can be stored again.
pub proof fn read_packages_are_storable(d: Seq<u8>)
    ensures
        package::package_of(Dialect::Engine, d) matches Ok(p) ==> {
            &&& package::header_of(Dialect::Engine, d) matches Ok(header)
            &&& p.data == d
            &&& p.version == header.version
            &&& p.licensee == header.licensee
            &&& package::storable_exports(p.exports, p.names.len() as int)
        },
{
    if let Ok(p) = package::package_of(Dialect::Engine, d) {
        let header = package::header_of(Dialect::Engine, d)->Ok_0;
        read_exports_are_storable(
            d,
            header.export_offset as int,
            header.export_count as nat,
            p.names.len() as int,
        );
    }
}

/// What stands behind the header does not matter to it.
pub proof fn header_of_longer(d: Seq<u8>, more: Seq<u8>)
    requires
        package::header_of(Dialect::Engine, d) is Ok,
    ensures
        package::header_of(Dialect::Engine, d + more) == package::header_of(Dialect::Engine, d),
{
    let c = d + more;
    tables::header_needs_bytes(Dialect::Engine, d);
    assert(c.subrange(0, 4) =~= d.subrange(0, 4));
    assert(c.subrange(4, 8) =~= d.subrange(4, 8));
    assert(c.subrange(12, 16) =~= d.subrange(12, 16));
    assert(c.subrange(16, 20) =~= d.subrange(16, 20));
    assert(c.subrange(20, 24) =~= d.subrange(20, 24));
    assert(c.subrange(24, 28) =~= d.subrange(24, 28));
    assert(c.subrange(28, 32) =~= d.subrange(28, 32));
    assert(c.subrange(32, 36) =~= d.subrange(32, 36));
}

/// Whether two tables of exports agree on names and outer objects.
pub open spec fn same_hierarchy(a: Seq<ExportEntry>, b: Seq<ExportEntry>) -> bool {
    &&& a.len() <= b.len()
    &&& forall|k: int|
        0 <= k < a.len() ==> (#[trigger] b[k]).name_index == a[k].name_index && b[k].package
            == a[k].package
}

proof fn inner_path_kept(
    names: Seq<NameModel>,
    more: Seq<NameModel>,
    a: Seq<ExportEntry>,
    b: Seq<ExportEntry>,
    export: ExportEntry,
    other: ExportEntry,
    depth: int,
)
    requires
        0 <= depth,
        property_laws::extends(names, more),
        same_hierarchy(a, b),
        export.name_index == other.name_index,
        export.package == other.package,
        package::inner_path(Dialect::Engine, names, a, export, depth) is Ok,
    ensures
        package::inner_path(Dialect::Engine, more, b, other, depth) == package::inner_path(
            Dialect::Engine,
            names,
            a,
            export,
            depth,
        ),
    decreases 129 - depth,
{
    assert(names[export.name_index as int] == more[export.name_index as int]) by {
        assert(more.take(names.len() as int)[export.name_index as int]
            == more[export.name_index as int]);
    }
    if export.package > 0 {
        inner_path_kept(
            names,
            more,
            a,
            b,
            a[export.package - 1],
            b[export.package - 1],
            depth + 1,
        );
    }
}

proof fn import_path_kept(
    names: Seq<NameModel>,
    more: Seq<NameModel>,
    imports: Seq<ImportEntry>,
    others: Seq<ImportEntry>,
    a: Seq<ExportEntry>,
    b: Seq<ExportEntry>,
    index: int,
    depth: int,
)
    requires
        0 <= depth,
        0 <= index,
        property_laws::extends(names, more),
        imports_kept(imports, others),
        same_hierarchy(a, b),
        package::import_path_of(Dialect::Engine, names, imports, a, index, depth) is Ok,
    ensures
        package::import_path_of(Dialect::Engine, more, others, b, index, depth)
            == package::import_path_of(Dialect::Engine, names, imports, a, index, depth),
    decreases 129 - depth,
{
    let entry = imports[index];
    assert(names[entry.name_index as int] == more[entry.name_index as int]) by {
        assert(more.take(names.len() as int)[entry.name_index as int]
            == more[entry.name_index as int]);
    }
    if entry.package < 0 {
        import_path_kept(names, more, imports, others, a, b, -entry.package - 1, depth + 1);
    } else if entry.package > 0 {
        inner_path_kept(
            names,
            more,
            a,
            b,
            a[entry.package - 1],
            b[entry.package - 1],
            depth + 1,
        );
    }
}

/// An object has the class of a texture as long as the names, the imports and the
/// hierarchy stay.
pub proof fn textures_stay_textures(
    p: PackageModel,
    after: PackageModel,
    export: ExportEntry,
    other: ExportEntry,
)
    requires
        property_laws::extends(p.names, after.names),
        imports_kept(p.imports, after.imports),
        same_hierarchy(p.exports, after.exports),
        other.class == export.class,
        package::is_texture_export(Dialect::Engine, p, export),
    ensures
        package::is_texture_export(Dialect::Engine, after, other),
{
    let class = export.class;
    if class > 0 {
        inner_path_kept(
            p.names,
            after.names,
            p.exports,
            after.exports,
            p.exports[class - 1],
            after.exports[class - 1],
            0,
        );
    } else if class < 0 {
        import_path_kept(
            p.names,
            after.names,
            p.imports,
            after.imports,
            p.exports,
            after.exports,
            -class - 1,
            0,
        );
    }
}

/// The editor shows an edit once the package was written and read again: every
/// property that the edit names with its value, and every other property with the
/// value that it had.
#[verifier::spinoff_prover]
#[verifier::rlimit(60)]
pub proof fn written_packages_show_edits(d: Seq<u8>, index: usize, edit: TextureEditorEdit)
    requires
        d.len() <= usize::MAX,
        texture_engine::edited_file(d, index, edit) matches Ok(written) && written.len()
            <= usize::MAX,
        properties::steps_of(edit).len() > 0,
    ensures
        ({
            let written = texture_engine::edited_file(d, index, edit)->Ok_0;
            let p = package::package_of(Dialect::Engine, d)->Ok_0;
            let raw = package::data_of(Dialect::Engine, p.data, p.exports[index as int])->Ok_0;
            let before = properties::stream_from(raw, p.names, 0)->Ok_0;
            let steps = properties::steps_of(edit);
            &&& package::package_of(Dialect::Engine, written) matches Ok(q)
            &&& edits::edited(p, seq![(index, edit)]) matches Ok(after)
            &&& q == (PackageModel { name_offset: q.name_offset, ..after })
            &&& q.exports.len() == p.exports.len()
            &&& package::data_of(Dialect::Engine, written, q.exports[index as int]) matches Ok(bytes)
            &&& properties::stream_from(bytes, q.names, 0) matches Ok(stream)
            &&& texture_engine::state_in_file(written, index as int) == Ok::<
                properties::TextureEditorState,
                Seq<char>,
            >(properties::state_of(stream.properties))
            &&& forall|k: int|
                0 <= k < steps.len() ==> property_laws::shows(
                    stream.properties,
                    #[trigger] steps[k],
                )
            &&& forall|other: Seq<char>|
                property_laws::not_named(steps, steps.len() as int, other)
                    ==> #[trigger] properties::value_of(stream.properties, other)
                    == properties::value_of(before.properties, other)
        }),
{
    reveal(texture_engine::edited_file);
    let i = index as int;
    let list = seq![(index, edit)];
    let p = package::package_of(Dialect::Engine, d)->Ok_0;
    let written = texture_engine::edited_file(d, index, edit)->Ok_0;
    let after = edits::edited(p, list)->Ok_0;
    read_packages_are_storable(d);
    edits_keep_pixels(p, index, edit);
    reveal(edits::edited);
    let (names, done) = edits::rewritten_textures(p, list, 1)->Ok_0;
    let (data, exports) = edits::placed(p.data, p.exports, done, done.len())->Ok_0;
    assert(exports == after.exports && names == after.names);
    placed_behind(p.data, p.exports, done, done.len());
    let more = data.skip(p.data.len() as int);
    assert(data =~= p.data + more);
    header_of_longer(p.data, more);
    let bytes = package::data_of(Dialect::Engine, after.data, after.exports[i])->Ok_0;
    edits::stream_end(bytes, after.names, 0);
    assert(package::storable_exports(exports, names.len() as int)) by {
        assert forall|k: int| 0 <= k < exports.len() implies package::storable_export(
            #[trigger] exports[k],
            names.len() as int,
        ) by {
            assert(package::storable_export(p.exports[k], p.names.len() as int));
        }
    }
    tables::rebuilt_package_is_read_back(Dialect::Engine, data, names, p.imports, exports);
    let q = package::package_of(Dialect::Engine, written)->Ok_0;
    textures_stay_textures(p, q, p.exports[i], q.exports[i]);
}

/// Placed objects stand behind the data that was there.
pub proof fn placed_behind(
    data: Seq<u8>,
    exports: Seq<ExportEntry>,
    done: Seq<RewrittenModel>,
    n: nat,
)
    ensures
        edits::placed(data, exports, done, n) matches Ok((d, _)) ==> data.len() <= d.len() && d.take(
            data.len() as int,
        ) == data,
    decreases n,
{
    if n == 0 {
        assert(data.take(data.len() as int) =~= data);
    } else {
        placed_behind(data, exports, done, (n - 1) as nat);
        if let Ok((d, _)) = edits::placed(data, exports, done, n) {
            let (b, _) = edits::placed(data, exports, done, (n - 1) as nat)->Ok_0;
            assert(d.take(data.len() as int) =~= b.take(data.len() as int));
        }
    }
}

} // verus!
