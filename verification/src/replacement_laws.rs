//! What holds of several textures that are replaced at once: each has its pixels and
//! its properties, and nothing else of the package changes.

use vstd::prelude::*;
use crate::edits::{LocationModel, RequestModel};
use crate::layout::{ImageModel, MipLocation};
use crate::names::NameModel;
use crate::package::{ExportEntry, PackageModel};
use crate::properties::{Step, TextureEditorEdit};
use crate::reader::Dialect;
use crate::tables::Search;
use crate::texture_engine::ReplacementModel;
use crate::edits;
use crate::image_laws;
use crate::in_place_laws;
use crate::layout;
use crate::names;
use crate::package;
use crate::properties;
use crate::property_laws;
use crate::reader;
use crate::text;
use crate::adding;
use crate::package_laws;
use crate::tables;
use crate::texture_engine;
use crate::bytes;

verus! {

/// Whether a property that was found stands inside its object.
pub open spec fn stands_inside(location: LocationModel, size: int) -> bool {
    &&& 0 <= location.info < size
    &&& 0 <= location.start
    &&& 0 <= location.size
    &&& location.start + location.size <= size
}

pub proof fn locations_stand_inside(
    names: Seq<NameModel>,
    d: Seq<u8>,
    p: int,
    found: Seq<LocationModel>,
)
    requires
        0 <= p,
        forall|i: int|
            0 <= i < found.len() ==> stands_inside(#[trigger] found[i], d.len() as int),
    ensures
        edits::locations_from(names, d, p, found) matches Ok(all) ==> forall|i: int|
            0 <= i < all.len() ==> stands_inside(#[trigger] all[i], d.len() as int),
    decreases d.len() - p,
{
    let e = Dialect::Engine;
    reader::compact_moves(e, d, p);
    if let Ok((index, q)) = reader::compact_at(e, d, p) {
        reader::tag_moves(e, d, q);
        if let Ok(name) = names::name_at(names, index) {
            if !text::same_folded(name, "None"@) {
                if let Ok(tag) = reader::tag_at(e, d, q) {
                    if let Ok(end) = reader::skip_end(e, d, tag.start, tag.size) {
                        let one = LocationModel {
                            name,
                            kind: tag.kind,
                            info: tag.info,
                            start: tag.start,
                            size: tag.size,
                        };
                        assert(stands_inside(one, d.len() as int));
                        locations_stand_inside(names, d, end, found.push(one));
                    }
                }
            }
        }
    }
}

proof fn steps_stay_inside(
    d: Seq<u8>,
    base: int,
    size: int,
    all: Seq<LocationModel>,
    steps: Seq<Step>,
    n: nat,
)
    requires
        0 <= base,
        0 <= size,
        base + size <= d.len(),
        forall|i: int| 0 <= i < all.len() ==> stands_inside(#[trigger] all[i], size),
        n <= steps.len(),
    ensures
        edits::with_steps_in_place(d, base, all, steps, n) matches Ok(c)
            ==> in_place_laws::only_list_changed(
            d,
            c,
            base,
            size,
        ),
    decreases n,
{
    if n > 0 {
        steps_stay_inside(d, base, size, all, steps, (n - 1) as nat);
        if let Ok(c) = edits::with_steps_in_place(d, base, all, steps, n) {
            let b = edits::with_steps_in_place(d, base, all, steps, (n - 1) as nat)->Ok_0;
            let step = steps[n - 1];
            let name = properties::field_name(step.field);
            in_place_laws::find_location_is_first(all, name, 0);
            let at = all[edits::find_location(all, name, 0)->Some_0];
            assert(stands_inside(at, size));
            assert(in_place_laws::only_list_changed(b, c, base, size));
        }
    }
}

/// An edit in place keeps the length of the package, its tables and every byte
/// outside the object of the texture.
pub proof fn edits_in_place_stay_inside(p: PackageModel, index: int, edit: TextureEditorEdit)
    requires
        0 <= index,
    ensures
        edits::edited_in_place(p, index, edit) matches Ok(after) ==> {
            &&& after == (PackageModel { data: after.data, ..p })
            &&& after.data.len() == p.data.len()
            &&& index < p.exports.len() ==> in_place_laws::only_list_changed(
                p.data,
                after.data,
                p.exports[index].offset as int,
                p.exports[index].size as int,
            )
            &&& index >= p.exports.len() ==> after == p
        },
{
    reveal(edits::edited_in_place);
    let steps = properties::steps_of(edit);
    if steps.len() > 0 && index < p.exports.len() {
        let export = p.exports[index];
        if let Ok(raw) = package::data_of(Dialect::Engine, p.data, export) {
            locations_stand_inside(p.names, raw, 0, Seq::empty());
            if let Ok(all) = edits::locations_from(p.names, raw, 0, Seq::empty()) {
                steps_stay_inside(
                    p.data,
                    export.offset as int,
                    export.size as int,
                    all,
                    steps,
                    steps.len(),
                );
            }
        }
    }
}

/// Whether a byte of an object belongs to the pixels of its mip map, or to the pointer
/// that leads behind them.
pub open spec fn is_pixel(mip: MipLocation, k: int) -> bool {
    ||| mip.width_offset_position <= k < mip.width_offset_position + 4
    ||| mip.pixel_offset <= k < mip.pixel_offset + mip.size
}

/// Whether two objects differ in nothing but the pixels of a mip map.
pub open spec fn same_but_pixels(a: Seq<u8>, b: Seq<u8>, mip: MipLocation) -> bool {
    &&& a.len() == b.len()
    &&& forall|k: int| 0 <= k < a.len() && !is_pixel(mip, k) ==> #[trigger] b[k] == a[k]
}

/// Other pixels do not matter to where a mip map stands.
proof fn pixels_keep_mips(object: Seq<u8>, other: Seq<u8>, at: int)
    requires
        0 <= at <= object.len() <= usize::MAX,
        layout::mip_from(Dialect::Engine, object, at) matches Ok(mip) && same_but_pixels(
            object,
            other,
            mip,
        ),
    ensures
        layout::mip_from(Dialect::Engine, other, at)
            == layout::mip_from(Dialect::Engine, object, at),
{
    layout::mip_bounds(Dialect::Engine, object, at);
    let mip = layout::mip_from(Dialect::Engine, object, at)->Ok_0;
    reveal(layout::mip_from);
    reader::compact_moves(Dialect::Engine, object, at + 5);
    let behind = mip.pixel_offset - (at + 5);
    assert forall|k: int| 0 <= k < behind implies #[trigger] other[at + 5 + k] == object[at + 5
        + k] by {}
    property_laws::compact_is_local(Dialect::Engine, object, at + 5, other, at + 5, behind);
    let end = mip.pixel_offset + mip.size;
    assert(other[at] == object[at]);
    assert(other.subrange(end, end + 4) =~= object.subrange(end, end + 4));
    assert(other.subrange(end + 4, end + 8) =~= object.subrange(end + 4, end + 8));
}

/// Other pixels do not matter to the layout of a texture.
proof fn pixels_keep_layouts(
    names: Seq<NameModel>,
    version: i32,
    licensee: i32,
    object: Seq<u8>,
    other: Seq<u8>,
)
    requires
        object.len() <= usize::MAX,
        layout::layout_of(Dialect::Engine, names, version, licensee, object) matches Ok(layout) && (
        layout::mip_from(Dialect::Engine, object, layout.mip_count_offset as int) matches Ok(mip)
            && same_but_pixels(object, other, mip)),
    ensures
        ({
            let at = layout::layout_of(
                Dialect::Engine,
                names,
                version,
                licensee,
                object,
            )->Ok_0.mip_count_offset;
            &&& layout::layout_of(Dialect::Engine, names, version, licensee, other)
                matches Ok(layout)
            &&& layout.mip_count_offset == at
            &&& layout::mip_from(Dialect::Engine, other, at as int) == layout::mip_from(
                Dialect::Engine,
                object,
                at as int,
            )
        }),
{
    let e = Dialect::Engine;
    let at = layout::layout_of(e, names, version, licensee, object)->Ok_0.mip_count_offset as int;
    layout::layout_bounds(e, names, version, licensee, object);
    layout::mip_bounds(e, object, at);
    pixels_keep_mips(object, other, at);
    assert(names =~= names.take(names.len() as int));
    image_laws::extended_names_are_alike(names, names);
    image_laws::layouts_are_alike(names, names, version, licensee, object, other);
}

/// Storing pixels keeps the tables, the length, and every byte but the pixels and
/// their pointer.
#[verifier::spinoff_prover]
pub proof fn stored_pixels_stay_inside(p: PackageModel, index: int, image: ImageModel)
    requires
        0 <= index,
        p.data.len() <= usize::MAX,
        edits::with_pixels(p, index, image) is Ok,
    ensures
        ({
            let after = edits::with_pixels(p, index, image)->Ok_0;
            let export = p.exports[index];
            &&& index < p.exports.len()
            &&& after == (PackageModel { data: after.data, ..p })
            &&& after.data.len() == p.data.len()
            &&& edits::mip_of(p, index) matches Ok(mip)
            &&& package::data_of(Dialect::Engine, p.data, export) matches Ok(raw)
            &&& package::data_of(Dialect::Engine, after.data, export) matches Ok(other)
            &&& same_but_pixels(raw, other, mip)
            &&& other.subrange(mip.pixel_offset as int, mip.pixel_offset + mip.size)
                == image.pixels
            &&& image_laws::is_pointed(other, mip, export.offset as int)
            &&& mip.width_offset_position + 4 <= mip.pixel_offset
            &&& mip.pixel_offset + mip.size <= raw.len()
            &&& in_place_laws::only_list_changed(
                p.data,
                after.data,
                export.offset as int,
                export.size as int,
            )
        }),
{
    reveal(edits::with_pixels);
    let after = edits::with_pixels(p, index, image)->Ok_0;
    let export = p.exports[index];
    let base = export.offset as int;
    let raw = package::data_of(Dialect::Engine, p.data, export)->Ok_0;
    let layout = edits::package_layout(Dialect::Engine, p, raw)->Ok_0;
    layout::layout_bounds(Dialect::Engine, p.names, p.version, p.licensee, raw);
    layout::mip_bounds(Dialect::Engine, raw, layout.mip_count_offset as int);
    let mip = edits::mip_of(p, index)->Ok_0;
    let other = package::data_of(Dialect::Engine, after.data, export)->Ok_0;
    assert forall|k: int| 0 <= k < raw.len() && !is_pixel(mip, k) implies #[trigger] other[k]
        == raw[k] by {
        assert(after.data[base + k] == p.data[base + k]);
    }
    assert(other.subrange(mip.pixel_offset as int, mip.pixel_offset + mip.size)
        =~= image.pixels);
    let at = mip.width_offset_position as int;
    assert(other.subrange(at, at + 4) =~= bytes::i32_bytes(
        (base + mip.pixel_offset + mip.size) as i32,
    ));
}

/// The package after the pixels of the first `n` requests were stored in the exports
/// that `targets` names for them.
pub open spec fn with_all_pixels(
    p: PackageModel,
    targets: Seq<usize>,
    requests: Seq<RequestModel>,
    n: nat,
) -> Result<PackageModel, Seq<char>>
    decreases n,
{
    if n == 0 {
        Ok(p)
    } else {
        match with_all_pixels(p, targets, requests, (n - 1) as nat) {
            Err(e) => Err(e),
            Ok(before) => edits::with_pixels(before, targets[n - 1] as int, requests[n - 1].image),
        }
    }
}

/// Whether a byte of the package belongs to an object.
pub open spec fn in_object(export: ExportEntry, k: int) -> bool {
    export.offset <= k < export.offset + export.size
}

/// Whether two objects have no byte in common.
pub open spec fn stand_apart(a: ExportEntry, b: ExportEntry) -> bool {
    a.offset + a.size <= b.offset || b.offset + b.size <= a.offset
}

/// Whether a byte belongs to none of the objects that are named.
pub open spec fn in_none(exports: Seq<ExportEntry>, targets: Seq<usize>, k: int) -> bool {
    forall|i: int|
        0 <= i < targets.len() && (#[trigger] targets[i]) < exports.len() ==> !in_object(
            exports[targets[i] as int],
            k,
        )
}

/// Whether an object has no byte in common with any other that is named.
pub open spec fn stands_alone(exports: Seq<ExportEntry>, targets: Seq<usize>, index: int) -> bool {
    forall|i: int|
        0 <= i < targets.len() && (#[trigger] targets[i]) < exports.len() && targets[i] != index
            ==> stand_apart(exports[targets[i] as int], exports[index])
}

/// Which of the first `n` numbers is the last to name an export.
pub open spec fn last_of(targets: Seq<usize>, n: nat, index: int) -> Option<int>
    decreases n,
{
    if n == 0 {
        None
    } else if targets[n - 1] == index {
        Some(n - 1)
    } else {
        last_of(targets, (n - 1) as nat, index)
    }
}

pub proof fn last_is_last(targets: Seq<usize>, n: nat, k: int)
    requires
        0 <= k < n <= targets.len(),
        forall|i: int| k < i < n ==> #[trigger] targets[i] != targets[k],
    ensures
        last_of(targets, n, targets[k] as int) == Some(k),
    decreases n,
{
    if k < n - 1 {
        last_is_last(targets, (n - 1) as nat, k);
    }
}

pub proof fn pixels_keep_outside(
    p: PackageModel,
    targets: Seq<usize>,
    requests: Seq<RequestModel>,
    n: nat,
)
    requires
        p.data.len() <= usize::MAX,
        n <= targets.len() == requests.len(),
        with_all_pixels(p, targets, requests, n) is Ok,
    ensures
        ({
            let after = with_all_pixels(p, targets, requests, n)->Ok_0;
            &&& after == (PackageModel { data: after.data, ..p })
            &&& after.data.len() == p.data.len()
            &&& forall|i: int|
                0 <= i < n ==> (#[trigger] targets[i]) < p.exports.len() && package::data_of(
                    Dialect::Engine,
                    p.data,
                    p.exports[targets[i] as int],
                ) is Ok
            &&& forall|k: int|
                0 <= k < p.data.len() && in_none(p.exports, targets, k) ==> #[trigger] after.data[k]
                    == p.data[k]
        }),
    decreases n,
{
    if n > 0 {
        let m = (n - 1) as nat;
        pixels_keep_outside(p, targets, requests, m);
        let before = with_all_pixels(p, targets, requests, m)->Ok_0;
        let after = with_all_pixels(p, targets, requests, n)->Ok_0;
        stored_pixels_stay_inside(before, targets[n - 1] as int, requests[n - 1].image);
        assert forall|k: int|
            0 <= k < p.data.len() && in_none(p.exports, targets, k) implies #[trigger] after.data[k]
            == p.data[k] by {
            assert(!in_object(p.exports[targets[n - 1] as int], k));
            assert(after.data[k] == before.data[k]);
        }
    }
}

/// What became of one texture when pixels were stored: it has those of the last request
/// that names it, and differs in nothing else.
#[verifier::spinoff_prover]
#[verifier::rlimit(40)]
pub proof fn pixels_are_stored(
    p: PackageModel,
    targets: Seq<usize>,
    requests: Seq<RequestModel>,
    n: nat,
    index: int,
)
    requires
        p.data.len() <= usize::MAX,
        n <= targets.len() == requests.len(),
        0 <= index < p.exports.len(),
        package::data_of(Dialect::Engine, p.data, p.exports[index]) is Ok,
        stands_alone(p.exports, targets, index),
        with_all_pixels(p, targets, requests, n) is Ok,
    ensures
        ({
            let after = with_all_pixels(p, targets, requests, n)->Ok_0;
            let raw = package::data_of(Dialect::Engine, p.data, p.exports[index])->Ok_0;
            &&& package::data_of(Dialect::Engine, after.data, p.exports[index]) matches Ok(object)
            &&& match last_of(targets, n, index) {
                None => object == raw,
                Some(k) => {
                    &&& edits::mip_of(p, index) matches Ok(mip)
                    &&& same_but_pixels(raw, object, mip)
                    &&& object.subrange(mip.pixel_offset as int, mip.pixel_offset + mip.size)
                        == requests[k].image.pixels
                    &&& image_laws::is_pointed(object, mip, p.exports[index].offset as int)
                    &&& mip.width_offset_position + 4 <= mip.pixel_offset
                    &&& mip.pixel_offset + mip.size <= raw.len()
                },
            }
        }),
    decreases n,
{
    let e = Dialect::Engine;
    let export = p.exports[index];
    let raw = package::data_of(e, p.data, export)->Ok_0;
    if n > 0 {
        let m = (n - 1) as nat;
        pixels_are_stored(p, targets, requests, m, index);
        pixels_keep_outside(p, targets, requests, m);
        let before = with_all_pixels(p, targets, requests, m)->Ok_0;
        let after = with_all_pixels(p, targets, requests, n)->Ok_0;
        let target = targets[n - 1];
        stored_pixels_stay_inside(before, target as int, requests[n - 1].image);
        let middle = package::data_of(e, before.data, export)->Ok_0;
        let object = package::data_of(e, after.data, export)->Ok_0;
        if target == index {
            if last_of(targets, m, index) is Some {
                let layout = edits::package_layout(e, p, raw)->Ok_0;
                pixels_keep_layouts(p.names, p.version, p.licensee, raw, middle);
                assert(edits::mip_of(before, index) == edits::mip_of(p, index));
            }
            let mip = edits::mip_of(p, index)->Ok_0;
            assert(edits::mip_of(before, index) == edits::mip_of(p, index));
            assert forall|k: int| 0 <= k < raw.len() && !is_pixel(mip, k)
                implies #[trigger] object[k]
                == raw[k] by {
                assert(object[k] == middle[k]);
            }
        } else {
            assert(stand_apart(p.exports[target as int], export));
            assert(object =~= middle);
        }
    }
}

/// Which of the first `n` edits is the last about an export.
pub open spec fn last_edit(
    edits: Seq<(usize, TextureEditorEdit)>,
    n: nat,
    index: int,
) -> Option<int>
    decreases n,
{
    if n == 0 {
        None
    } else if edits[n - 1].0 == index {
        Some(n - 1)
    } else {
        last_edit(edits, (n - 1) as nat, index)
    }
}

pub proof fn last_edit_of_longer(
    edits: Seq<(usize, TextureEditorEdit)>,
    more: Seq<(usize, TextureEditorEdit)>,
    n: nat,
    index: int,
)
    requires
        n <= edits.len() <= more.len(),
        forall|j: int| 0 <= j < edits.len() ==> #[trigger] more[j] == edits[j],
    ensures
        last_edit(more, n, index) == last_edit(edits, n, index),
        last_edit(edits, n, index) matches Some(j) ==> 0 <= j < n,
    decreases n,
{
    if n > 0 {
        assert(more[n - 1] == edits[n - 1]);
        last_edit_of_longer(edits, more, (n - 1) as nat, index);
    }
}

/// What the edits of requests are about.
pub proof fn edits_of_requests(
    p: PackageModel,
    requests: Seq<RequestModel>,
    targets: Seq<usize>,
    n: nat,
    index: int,
)
    requires
        n <= targets.len() == requests.len(),
        adding::import_edits(p, requests, targets, n) is Ok,
    ensures
        ({
            let edits = adding::import_edits(p, requests, targets, n)->Ok_0;
            &&& forall|j: int|
                0 <= j < edits.len() ==> exists|m: int|
                    0 <= m < n && (#[trigger] edits[j]).0 == #[trigger] targets[m]
            &&& match last_of(targets, n, index) {
                None => last_edit(edits, edits.len(), index) is None,
                Some(k) => {
                    &&& edits::import_edit_of(p, requests[k], index) matches Ok(wanted)
                    &&& wanted matches Some(edit) ==> {
                        &&& last_edit(edits, edits.len(), index) matches Some(j)
                        &&& 0 <= j < edits.len()
                        &&& edits[j].1 == edit
                    }
                },
            }
            &&& (forall|i: int|
                0 <= i < n && #[trigger] targets[i] == index ==> edits::import_edit_of(
                    p,
                    requests[i],
                    index,
                ) == Ok::<Option<TextureEditorEdit>, Seq<char>>(None)) ==> last_edit(
                edits,
                edits.len(),
                index,
            ) is None
        }),
    decreases n,
{
    if n > 0 {
        let m = (n - 1) as nat;
        edits_of_requests(p, requests, targets, m, index);
        let before = adding::import_edits(p, requests, targets, m)->Ok_0;
        let edits = adding::import_edits(p, requests, targets, n)->Ok_0;
        last_edit_of_longer(before, edits, before.len(), index);
        assert forall|j: int| 0 <= j < edits.len() implies exists|m: int|
            0 <= m < n && (#[trigger] edits[j]).0 == #[trigger] targets[m] by {
            if j < before.len() {
                assert(edits[j] == before[j]);
                let i = choose|i: int| 0 <= i < m && before[j].0 == #[trigger] targets[i];
                assert(edits[j].0 == targets[i]);
            } else {
                assert(edits[j].0 == targets[n - 1]);
            }
        }
        if edits.len() > before.len() {
            assert(edits.len() == before.len() + 1);
            assert(edits[before.len() as int] == (targets[n - 1], edits.last().1));
            assert((edits.len() - 1) as nat == before.len());
        }
    }
}

pub proof fn edits_in_place_keep_outside(
    p: PackageModel,
    edits: Seq<(usize, TextureEditorEdit)>,
    n: nat,
)
    requires
        n <= edits.len(),
        edits::edited_in_place_all(p, edits, n) is Ok,
    ensures
        ({
            let after = edits::edited_in_place_all(p, edits, n)->Ok_0;
            &&& after == (PackageModel { data: after.data, ..p })
            &&& after.data.len() == p.data.len()
            &&& forall|k: int|
                0 <= k < p.data.len() && (forall|j: int|
                    0 <= j < n && (#[trigger] edits[j]).0 < p.exports.len() ==> !in_object(
                        p.exports[edits[j].0 as int],
                        k,
                    )) ==> #[trigger] after.data[k] == p.data[k]
        }),
    decreases n,
{
    if n > 0 {
        let m = (n - 1) as nat;
        edits_in_place_keep_outside(p, edits, m);
        let before = edits::edited_in_place_all(p, edits, m)->Ok_0;
        let after = edits::edited_in_place_all(p, edits, n)->Ok_0;
        edits_in_place_stay_inside(before, edits[n - 1].0 as int, edits[n - 1].1);
        assert forall|k: int|
            0 <= k < p.data.len() && (forall|j: int|
                0 <= j < n && (#[trigger] edits[j]).0 < p.exports.len() ==> !in_object(
                    p.exports[edits[j].0 as int],
                    k,
                )) implies #[trigger] after.data[k] == p.data[k] by {
            assert(before.data[k] == p.data[k]);
            if edits[n - 1].0 < p.exports.len() {
                assert(!in_object(p.exports[edits[n - 1].0 as int], k));
            }
        }
    }
}

/// What became of one texture when edits were made in place: its list shows the last
/// edit about it, and nothing behind the list changed.
#[verifier::spinoff_prover]
#[verifier::rlimit(40)]
pub proof fn last_edits_in_place_show(
    p: PackageModel,
    edits: Seq<(usize, TextureEditorEdit)>,
    n: nat,
    index: int,
)
    requires
        p.data.len() <= usize::MAX,
        n <= edits.len(),
        0 <= index < p.exports.len(),
        package::data_of(Dialect::Engine, p.data, p.exports[index]) matches Ok(raw)
            && properties::stream_from(
            raw,
            p.names,
            0,
        ) is Ok,
        forall|j: int|
            0 <= j < n && (#[trigger] edits[j]).0 < p.exports.len() && edits[j].0 != index
                ==> stand_apart(p.exports[edits[j].0 as int], p.exports[index]),
        edits::edited_in_place_all(p, edits, n) is Ok,
    ensures
        ({
            let after = edits::edited_in_place_all(p, edits, n)->Ok_0;
            let raw = package::data_of(Dialect::Engine, p.data, p.exports[index])->Ok_0;
            let stream = properties::stream_from(raw, p.names, 0)->Ok_0;
            &&& package::data_of(Dialect::Engine, after.data, p.exports[index]) matches Ok(object)
            &&& object.len() == raw.len()
            &&& properties::stream_from(object, p.names, 0) matches Ok(again)
            &&& again.tail_offset == stream.tail_offset
            &&& forall|k: int|
                stream.tail_offset <= k < raw.len() ==> #[trigger] object[k] == raw[k]
            &&& match last_edit(edits, n, index) {
                None => object == raw,
                Some(j) => forall|s: int|
                    0 <= s < properties::steps_of(edits[j].1).len()
                        ==> in_place_laws::shows_in_place(
                        again.properties,
                        #[trigger] properties::steps_of(edits[j].1)[s],
                    ),
            }
        }),
    decreases n,
{
    let e = Dialect::Engine;
    let export = p.exports[index];
    let raw = package::data_of(e, p.data, export)->Ok_0;
    let stream = properties::stream_from(raw, p.names, 0)->Ok_0;
    if n > 0 {
        let m = (n - 1) as nat;
        last_edits_in_place_show(p, edits, m, index);
        edits_in_place_keep_outside(p, edits, m);
        let before = edits::edited_in_place_all(p, edits, m)->Ok_0;
        let after = edits::edited_in_place_all(p, edits, n)->Ok_0;
        let (target, edit) = edits[n - 1];
        edits_in_place_stay_inside(before, target as int, edit);
        let middle = package::data_of(e, before.data, export)->Ok_0;
        let object = package::data_of(e, after.data, export)->Ok_0;
        if target == index {
            in_place_laws::edits_in_place_show(before, index, edit);
            edits::stream_end(middle, p.names, 0);
            assert forall|k: int| stream.tail_offset <= k < raw.len() implies #[trigger] object[k]
                == raw[k] by {
                assert(object[k] == after.data[export.offset + k]);
                assert(middle[k] == before.data[export.offset + k]);
                assert(middle[k] == raw[k]);
            }
        } else {
            if target < p.exports.len() {
                assert(stand_apart(p.exports[target as int], export));
            }
            assert(object =~= middle);
        }
    }
}

proof fn searches_go_by_tables(
    p: PackageModel,
    q: PackageModel,
    current: Seq<char>,
    requested: Seq<char>,
    from: int,
    search: Search,
)
    requires
        q == (PackageModel { data: q.data, ..p }),
    ensures
        tables::searched(q, current, requested, from, search) == tables::searched(
            p,
            current,
            requested,
            from,
            search,
        ),
    decreases p.exports.len() - from,
{
    if 0 <= from < p.exports.len() {
        searches_go_by_tables(p, q, current, requested, from + 1, search);
        if let Ok(candidate) = package::name_of(Dialect::Engine, p, p.exports[from]) {
            let more = tables::matched(search, from, text::before_dot(candidate)
                == text::before_dot(current));
            searches_go_by_tables(p, q, current, requested, from + 1, more);
        }
    }
}

/// The edit that a request asks for does not depend on the objects of the package.
pub proof fn edits_go_by_tables(p: PackageModel, q: PackageModel, request: RequestModel, index: int)
    requires
        q == (PackageModel { data: q.data, ..p }),
    ensures
        edits::import_edit_of(q, request, index) == edits::import_edit_of(p, request, index),
{
    if let Some(a) = request.animation {
        if let Some(path) = a.anim_next {
            if let Ok(name) = package::name_of(Dialect::Engine, p, p.exports[index]) {
                searches_go_by_tables(p, q, name, tables::requested_path(path), 0, tables::no_match());
            }
        }
    }
}

/// The exports that replacements name.
pub open spec fn targets_of(replacements: Seq<ReplacementModel>) -> Seq<usize> {
    replacements.map_values(|one: ReplacementModel| one.index)
}

/// What replacements ask for.
pub open spec fn wanted_of(replacements: Seq<ReplacementModel>) -> Seq<RequestModel> {
    replacements.map_values(|one: ReplacementModel| one.request)
}

/// Replacements store all pixels, and then make the edits of all requests.
pub proof fn replacements_in_two_steps(p: PackageModel, replacements: Seq<ReplacementModel>, n: nat)
    requires
        p.data.len() <= usize::MAX,
        n <= replacements.len(),
        texture_engine::with_replacements(p, replacements, n) is Ok,
    ensures
        ({
            let (after, edits) = texture_engine::with_replacements(p, replacements, n)->Ok_0;
            let targets = targets_of(replacements);
            let requests = wanted_of(replacements);
            &&& with_all_pixels(p, targets, requests, n) == Ok::<PackageModel, Seq<char>>(after)
            &&& adding::import_edits(p, requests, targets, n) == Ok::<
                Seq<(usize, TextureEditorEdit)>,
                Seq<char>,
            >(edits)
        }),
    decreases n,
{
    if n > 0 {
        let m = (n - 1) as nat;
        let targets = targets_of(replacements);
        let requests = wanted_of(replacements);
        replacements_in_two_steps(p, replacements, m);
        let one = replacements[n - 1];
        assert(targets[n - 1] == one.index && requests[n - 1] == one.request);
        let (after, _) = texture_engine::with_replacements(p, replacements, n)->Ok_0;
        assert(with_all_pixels(p, targets, requests, n) == Ok::<PackageModel, Seq<char>>(after));
        pixels_keep_outside(p, targets, requests, n);
        edits_go_by_tables(p, after, one.request, one.index as int);
    }
}

/// What became of a texture that was replaced, and maybe edited, in a package whose
/// tables stayed: it has the pixels of an image where it had its own, with the pointer
/// behind them, and its list shows the edit.
pub open spec fn holds_replacement(
    p: PackageModel,
    after: PackageModel,
    index: int,
    request: RequestModel,
    wanted: Option<TextureEditorEdit>,
) -> bool {
    &&& 0 <= index < p.exports.len()
    &&& index < after.exports.len()
    &&& edits::mip_of(p, index) matches Ok(mip)
    &&& package::data_of(Dialect::Engine, after.data, after.exports[index]) matches Ok(object)
    &&& object.subrange(mip.pixel_offset as int, mip.pixel_offset + mip.size)
        == request.image.pixels
    &&& mip.width == request.image.width
    &&& mip.height == request.image.height
    &&& image_laws::is_pointed(object, mip, after.exports[index].offset as int)
    &&& properties::stream_from(object, after.names, 0) matches Ok(stream)
    &&& wanted matches Some(edit) ==> forall|s: int|
        0 <= s < properties::steps_of(edit).len() ==> in_place_laws::shows_in_place(
            stream.properties,
            #[trigger] properties::steps_of(edit)[s],
        )
}

/// Whether the list of an object can be read.
pub open spec fn has_list(p: PackageModel, index: int) -> bool {
    &&& 0 <= index < p.exports.len()
    &&& package::data_of(Dialect::Engine, p.data, p.exports[index]) matches Ok(raw)
    &&& properties::stream_from(raw, p.names, 0) is Ok
}

/// Whether a package holds the list of an object as another does.
pub open spec fn list_kept(p: PackageModel, after: PackageModel, index: int) -> bool {
    &&& package::data_of(Dialect::Engine, p.data, p.exports[index]) matches Ok(raw)
    &&& package::data_of(Dialect::Engine, after.data, after.exports[index]) matches Ok(object)
    &&& properties::stream_from(object, after.names, 0) == properties::stream_from(raw, p.names, 0)
}

/// Textures that are replaced at once leave the tables and the length of the package,
/// and every byte outside their objects.
pub proof fn replacements_keep_the_rest(p: PackageModel, replacements: Seq<ReplacementModel>)
    requires
        p.data.len() <= usize::MAX,
        texture_engine::replaced_all(p, replacements) is Ok,
    ensures
        ({
            let (after, outcomes) = texture_engine::replaced_all(p, replacements)->Ok_0;
            &&& after == (PackageModel { data: after.data, ..p })
            &&& after.data.len() == p.data.len()
            &&& outcomes == texture_engine::replaced_outcomes(replacements)
            &&& forall|i: int|
                0 <= i < replacements.len() ==> (#[trigger] replacements[i]).index
                    < p.exports.len()
            &&& forall|k: int|
                0 <= k < p.data.len() && in_none(p.exports, targets_of(replacements), k)
                    ==> #[trigger] after.data[k] == p.data[k]
        }),
{
    let n = replacements.len();
    let targets = targets_of(replacements);
    let requests = wanted_of(replacements);
    let (after, _) = texture_engine::replaced_all(p, replacements)->Ok_0;
    replacements_in_two_steps(p, replacements, n);
    let (middle, edits) = texture_engine::with_replacements(p, replacements, n)->Ok_0;
    pixels_keep_outside(p, targets, requests, n);
    edits_of_requests(p, requests, targets, n, 0);
    edits_in_place_keep_outside(middle, edits, edits.len());
    assert forall|i: int| 0 <= i < n implies (#[trigger] replacements[i]).index
        < p.exports.len() by {
        assert(targets[i] == replacements[i].index);
    }
    assert forall|k: int|
        0 <= k < p.data.len() && in_none(p.exports, targets, k) implies #[trigger] after.data[k]
        == p.data[k] by {
        assert(middle.data[k] == p.data[k]);
        assert forall|j: int|
            0 <= j < edits.len() && (#[trigger] edits[j]).0 < p.exports.len() implies !in_object(
            p.exports[edits[j].0 as int],
            k,
        ) by {
            let m = choose|m: int| 0 <= m < n && edits[j].0 == #[trigger] targets[m];
            assert(!in_object(p.exports[targets[m] as int], k));
        }
    }
}

/// Whether an object has the pixels of an image where a texture of a package has its own,
/// with the pointer behind them, and all of it stands behind a place.
pub open spec fn has_pixels(
    p: PackageModel,
    index: int,
    object: Seq<u8>,
    image: ImageModel,
    end: int,
) -> bool {
    &&& edits::mip_of(p, index) matches Ok(mip)
    &&& mip.width == image.width
    &&& mip.height == image.height
    &&& end <= mip.width_offset_position
    &&& mip.width_offset_position + 4 <= mip.pixel_offset
    &&& mip.pixel_offset + mip.size <= object.len()
    &&& object.subrange(mip.pixel_offset as int, mip.pixel_offset + mip.size) == image.pixels
    &&& image_laws::is_pointed(object, mip, p.exports[index].offset as int)
}

/// What storing pixels leaves of one texture: it has those of the last request about it,
/// and its list says what it said.
#[verifier::spinoff_prover]
#[verifier::rlimit(40)]
pub proof fn stored_textures_keep_their_list(
    p: PackageModel,
    targets: Seq<usize>,
    requests: Seq<RequestModel>,
    k: int,
)
    requires
        p.data.len() <= usize::MAX,
        0 <= k < targets.len() == requests.len(),
        forall|i: int| k < i < targets.len() ==> #[trigger] targets[i] != targets[k],
        has_list(p, targets[k] as int),
        stands_alone(p.exports, targets, targets[k] as int),
        with_all_pixels(p, targets, requests, targets.len()) is Ok,
    ensures
        ({
            let index = targets[k] as int;
            let middle = with_all_pixels(p, targets, requests, targets.len())->Ok_0;
            let raw = package::data_of(Dialect::Engine, p.data, p.exports[index])->Ok_0;
            &&& middle == (PackageModel { data: middle.data, ..p })
            &&& middle.data.len() == p.data.len()
            &&& package::data_of(Dialect::Engine, middle.data, p.exports[index]) matches Ok(object)
            &&& properties::stream_from(object, p.names, 0) == properties::stream_from(
                raw,
                p.names,
                0,
            )
            &&& has_pixels(
                p,
                index,
                object,
                requests[k].image,
                properties::stream_from(raw, p.names, 0)->Ok_0.tail_offset,
            )
        }),
{
    let e = Dialect::Engine;
    let n = targets.len();
    let index = targets[k] as int;
    let raw = package::data_of(e, p.data, p.exports[index])->Ok_0;
    last_is_last(targets, n, k);
    let middle = with_all_pixels(p, targets, requests, n)->Ok_0;
    pixels_keep_outside(p, targets, requests, n);
    pixels_are_stored(p, targets, requests, n, index);
    stored_image_fits(p, targets, requests, n, k);
    let object = package::data_of(e, middle.data, p.exports[index])->Ok_0;
    package_laws::mip_place(p, index);
    package_laws::list_is_read_alike(p.names, raw, object, 0);
}

/// Bytes behind a list that stay keep the pixels.
pub proof fn pixels_stay(
    p: PackageModel,
    index: int,
    object: Seq<u8>,
    last: Seq<u8>,
    image: ImageModel,
    end: int,
)
    requires
        has_pixels(p, index, object, image, end),
        last.len() == object.len(),
        forall|k: int| end <= k < object.len() ==> #[trigger] last[k] == object[k],
    ensures
        has_pixels(p, index, last, image, end),
{
    let mip = edits::mip_of(p, index)->Ok_0;
    let from = mip.pixel_offset as int;
    let at = mip.width_offset_position as int;
    assert(last.subrange(from, from + mip.size) =~= object.subrange(from, from + mip.size));
    assert(last.subrange(at, at + 4) =~= object.subrange(at, at + 4));
}

/// What storing pixels and making edits in place leaves of one texture.
#[verifier::spinoff_prover]
#[verifier::rlimit(40)]
proof fn stored_and_edited(
    p: PackageModel,
    targets: Seq<usize>,
    requests: Seq<RequestModel>,
    edits: Seq<(usize, TextureEditorEdit)>,
    k: int,
)
    requires
        p.data.len() <= usize::MAX,
        0 <= k < targets.len() == requests.len(),
        forall|i: int| k < i < targets.len() ==> #[trigger] targets[i] != targets[k],
        has_list(p, targets[k] as int),
        stands_alone(p.exports, targets, targets[k] as int),
        adding::import_edits(p, requests, targets, targets.len()) == Ok::<
            Seq<(usize, TextureEditorEdit)>,
            Seq<char>,
        >(edits),
        with_all_pixels(p, targets, requests, targets.len()) matches Ok(middle)
            && edits::edited_in_place_all(middle, edits, edits.len()) is Ok,
    ensures
        ({
            let index = targets[k] as int;
            let middle = with_all_pixels(p, targets, requests, targets.len())->Ok_0;
            let after = edits::edited_in_place_all(middle, edits, edits.len())->Ok_0;
            &&& edits::import_edit_of(p, requests[k], index) matches Ok(wanted)
            &&& holds_replacement(p, after, index, requests[k], wanted)
            &&& (forall|i: int|
                0 <= i < targets.len() && #[trigger] targets[i] == index ==> edits::import_edit_of(
                    p,
                    requests[i],
                    index,
                ) == Ok::<Option<TextureEditorEdit>, Seq<char>>(None)) ==> list_kept(
                p,
                after,
                index,
            )
        }),
{
    let e = Dialect::Engine;
    let n = targets.len();
    let index = targets[k] as int;
    let export = p.exports[index];
    let raw = package::data_of(e, p.data, export)->Ok_0;
    let stream = properties::stream_from(raw, p.names, 0)->Ok_0;
    let middle = with_all_pixels(p, targets, requests, n)->Ok_0;
    let after = edits::edited_in_place_all(middle, edits, edits.len())->Ok_0;
    stored_textures_keep_their_list(p, targets, requests, k);
    last_is_last(targets, n, k);
    let object = package::data_of(e, middle.data, export)->Ok_0;
    edits_of_requests(p, requests, targets, n, index);
    assert forall|j: int|
        0 <= j < edits.len() && (#[trigger] edits[j]).0 < middle.exports.len() && edits[j].0
            != index implies stand_apart(
        middle.exports[edits[j].0 as int],
        middle.exports[index],
    ) by {
        let m = choose|m: int| 0 <= m < n && edits[j].0 == #[trigger] targets[m];
        assert(stand_apart(p.exports[targets[m] as int], export));
    }
    last_edits_in_place_show(middle, edits, edits.len(), index);
    edits_in_place_keep_outside(middle, edits, edits.len());
    let last = package::data_of(e, after.data, export)->Ok_0;
    pixels_stay(p, index, object, last, requests[k].image, stream.tail_offset);
}

/// An image is stored only where one of its dimensions stood.
pub proof fn stored_image_fits(
    p: PackageModel,
    targets: Seq<usize>,
    requests: Seq<RequestModel>,
    n: nat,
    k: int,
)
    requires
        p.data.len() <= usize::MAX,
        0 <= k < n <= targets.len() == requests.len(),
        targets[k] < p.exports.len(),
        package::data_of(Dialect::Engine, p.data, p.exports[targets[k] as int]) is Ok,
        stands_alone(p.exports, targets, targets[k] as int),
        with_all_pixels(p, targets, requests, n) is Ok,
    ensures
        edits::mip_of(p, targets[k] as int) matches Ok(mip) && mip.width == requests[k].image.width
            && mip.height == requests[k].image.height,
    decreases n,
{
    let index = targets[k] as int;
    let m = (n - 1) as nat;
    if k < m {
        stored_image_fits(p, targets, requests, m, k);
    } else {
        let e = Dialect::Engine;
        let raw = package::data_of(e, p.data, p.exports[index])->Ok_0;
        pixels_are_stored(p, targets, requests, m, index);
        pixels_keep_outside(p, targets, requests, m);
        let before = with_all_pixels(p, targets, requests, m)->Ok_0;
        let middle = package::data_of(e, before.data, p.exports[index])->Ok_0;
        reveal(edits::with_pixels);
        if last_of(targets, m, index) is Some {
            pixels_keep_layouts(p.names, p.version, p.licensee, raw, middle);
        }
    }
}

/// Each of several textures that are replaced at once holds its image, and shows the
/// properties that were asked for with it. This is so of every texture whose property
/// list can be read and whose object has no byte in common with another that is
/// replaced; where one texture is named more than once, it is so of the last request.
/// Where no request for it asks for other properties, its list stays.
pub proof fn replaced_textures_hold_their_images(
    p: PackageModel,
    replacements: Seq<ReplacementModel>,
    k: int,
)
    requires
        p.data.len() <= usize::MAX,
        0 <= k < replacements.len(),
        forall|i: int|
            k < i < replacements.len() ==> (#[trigger] replacements[i]).index
                != replacements[k].index,
        has_list(p, replacements[k].index as int),
        stands_alone(p.exports, targets_of(replacements), replacements[k].index as int),
        texture_engine::replaced_all(p, replacements) is Ok,
    ensures
        ({
            let (after, outcomes) = texture_engine::replaced_all(p, replacements)->Ok_0;
            let one = replacements[k];
            let index = one.index as int;
            &&& outcomes[k].export_index == index
            &&& edits::import_edit_of(p, one.request, index) matches Ok(wanted)
            &&& holds_replacement(p, after, index, one.request, wanted)
            &&& (forall|i: int|
                0 <= i < replacements.len() && (#[trigger] replacements[i]).index == index
                    ==> edits::import_edit_of(p, replacements[i].request, index) == Ok::<
                    Option<TextureEditorEdit>,
                    Seq<char>,
                >(None)) ==> list_kept(p, after, index)
        }),
{
    let n = replacements.len();
    let targets = targets_of(replacements);
    let requests = wanted_of(replacements);
    let index = replacements[k].index as int;
    replacements_in_two_steps(p, replacements, n);
    let (_, edits) = texture_engine::with_replacements(p, replacements, n)->Ok_0;
    assert(targets[k] == replacements[k].index && requests[k] == replacements[k].request);
    assert forall|i: int| k < i < targets.len() implies #[trigger] targets[i] != targets[k] by {
        assert(targets[i] == replacements[i].index);
    }
    stored_and_edited(p, targets, requests, edits, k);
    if forall|i: int|
        0 <= i < replacements.len() && (#[trigger] replacements[i]).index == index
            ==> edits::import_edit_of(p, replacements[i].request, index) == Ok::<
            Option<TextureEditorEdit>,
            Seq<char>,
        >(None) {
        assert forall|i: int| 0 <= i < targets.len() && #[trigger] targets[i] == index implies
            edits::import_edit_of(p, requests[i], index)
                == Ok::<Option<TextureEditorEdit>, Seq<char>>(
            None,
        ) by {
            assert(replacements[i].index == index);
        }
    }
}

} // verus!
