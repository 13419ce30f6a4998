//! What holds of replacements of which some cannot be made: those that can be made are
//! made, each as if it were the only one, and the others change nothing.

use vstd::prelude::*;
use crate::batch::{FailureModel, PendingModel, PreparedModel, RetryModel};
use crate::edits::{LocationModel, RequestModel};
use crate::layout::{ImageModel, MipLocation};
use crate::package::PackageModel;
use crate::properties::{Step, TextureEditorEdit};
use crate::reader::Dialect;
use crate::texture_engine::ReplacementModel;
use crate::edits;
use crate::image_laws;
use crate::in_place_laws;
use crate::package;
use crate::properties;
use crate::replacement_laws;
use crate::texture_engine;
use crate::adding;
use crate::adding_laws;
use crate::import_laws;
use crate::mixed_laws;
use crate::batch;
use crate::table_laws;
use crate::file_laws;
use crate::package_laws;

verus! {

/// Whether two packages with the same tables hold the same object.
pub open spec fn same_object(p: PackageModel, q: PackageModel, index: int) -> bool {
    &&& q == (PackageModel { data: q.data, ..p })
    &&& q.data.len() == p.data.len()
    &&& index < p.exports.len()
        ==> package::data_of(Dialect::Engine, q.data, p.exports[index]) == package::data_of(
        Dialect::Engine,
        p.data,
        p.exports[index],
    )
}

/// Whether pixels can be stored depends on the texture alone, and so does what becomes of
/// it.
#[verifier::spinoff_prover]
#[verifier::rlimit(40)]
proof fn pixels_are_stored_alike(p: PackageModel, q: PackageModel, index: int, image: ImageModel)
    requires
        0 <= index,
        p.data.len() <= usize::MAX,
        same_object(p, q, index),
    ensures
        edits::with_pixels(q, index, image) is Ok == edits::with_pixels(p, index, image) is Ok,
        edits::with_pixels(p, index, image) matches Ok(a)
            ==> (edits::with_pixels(q, index, image) matches Ok(b)
            && same_object(a, b, index)),
{
    reveal(edits::with_pixels);
    if edits::with_pixels(p, index, image) is Ok {
        let export = p.exports[index];
        let a = edits::with_pixels(p, index, image)->Ok_0;
        let b = edits::with_pixels(q, index, image)->Ok_0;
        replacement_laws::stored_pixels_stay_inside(p, index, image);
        replacement_laws::stored_pixels_stay_inside(q, index, image);
        let mip = edits::mip_of(p, index)->Ok_0;
        let raw = package::data_of(Dialect::Engine, p.data, export)->Ok_0;
        let one = package::data_of(Dialect::Engine, a.data, export)->Ok_0;
        let other = package::data_of(Dialect::Engine, b.data, export)->Ok_0;
        assert(edits::mip_of(q, index) == edits::mip_of(p, index));
        same_pictures(raw, one, other, mip, export.offset as int);
    }
}

/// Objects that differ from one in nothing but pixels and pointer, and agree in both, are
/// the same.
proof fn same_pictures(
    raw: Seq<u8>,
    one: Seq<u8>,
    other: Seq<u8>,
    mip: MipLocation,
    base: int,
)
    requires
        replacement_laws::same_but_pixels(raw, one, mip),
        replacement_laws::same_but_pixels(raw, other, mip),
        mip.pixel_offset + mip.size <= raw.len(),
        mip.width_offset_position + 4 <= raw.len(),
        one.subrange(mip.pixel_offset as int, mip.pixel_offset + mip.size) == other.subrange(
            mip.pixel_offset as int,
            mip.pixel_offset + mip.size,
        ),
        image_laws::is_pointed(one, mip, base),
        image_laws::is_pointed(other, mip, base),
    ensures
        one == other,
{
    let at = mip.width_offset_position as int;
    let from = mip.pixel_offset as int;
    assert forall|k: int| 0 <= k < raw.len() implies #[trigger] one[k] == other[k] by {
        if at <= k < at + 4 {
            assert(one.subrange(at, at + 4)[k - at] == other.subrange(at, at + 4)[k - at]);
        } else if from <= k < from + mip.size {
            assert(one.subrange(from, from + mip.size)[k - from] == other.subrange(
                from,
                from + mip.size,
            )[k - from]);
        } else {
            assert(!replacement_laws::is_pixel(mip, k));
            assert(one[k] == raw[k]);
        }
    }
    assert(one =~= other);
}

proof fn steps_go_alike(
    d: Seq<u8>,
    c: Seq<u8>,
    base: int,
    all: Seq<LocationModel>,
    steps: Seq<Step>,
    n: nat,
)
    requires
        c.len() == d.len(),
        0 <= base,
        forall|i: int|
            0 <= i < all.len()
                ==> replacement_laws::stands_inside(#[trigger] all[i], d.len() - base),
        n <= steps.len(),
    ensures
        edits::with_steps_in_place(c, base, all, steps, n) is Ok == edits::with_steps_in_place(
            d,
            base,
            all,
            steps,
            n,
        ) is Ok,
        edits::with_steps_in_place(d, base, all, steps, n) matches Ok(a) ==> a.len() == d.len(),
        edits::with_steps_in_place(c, base, all, steps, n) matches Ok(b) ==> b.len() == c.len(),
    decreases n,
{
    if n > 0 {
        steps_go_alike(d, c, base, all, steps, (n - 1) as nat);
        let name = properties::field_name(steps[n - 1].field);
        in_place_laws::find_location_is_first(all, name, 0);
        if let Some(i) = edits::find_location(all, name, 0) {
            assert(replacement_laws::stands_inside(all[i], d.len() - base));
        }
    }
}

/// Whether an edit can be made in place depends on the texture alone.
proof fn edits_go_alike(p: PackageModel, q: PackageModel, index: int, edit: TextureEditorEdit)
    requires
        0 <= index,
        p.data.len() <= usize::MAX,
        same_object(p, q, index),
    ensures
        edits::edited_in_place(q, index, edit) is Ok
            == edits::edited_in_place(p, index, edit) is Ok,
{
    reveal(edits::edited_in_place);
    if index < p.exports.len() {
        let export = p.exports[index];
        if let Ok(raw) = package::data_of(Dialect::Engine, p.data, export) {
            replacement_laws::locations_stand_inside(p.names, raw, 0, Seq::empty());
            if let Ok(all) = edits::locations_from(p.names, raw, 0, Seq::empty()) {
                assert forall|i: int| 0 <= i < all.len() implies replacement_laws::stands_inside(
                    #[trigger] all[i],
                    p.data.len() - export.offset,
                ) by {
                    assert(replacement_laws::stands_inside(all[i], raw.len() as int));
                }
                steps_go_alike(
                    p.data,
                    q.data,
                    export.offset as int,
                    all,
                    properties::steps_of(edit),
                    properties::steps_of(edit).len(),
                );
            }
        }
    }
}

/// Whether a texture can be replaced.
pub open spec fn can_replace(p: PackageModel, one: ReplacementModel) -> bool {
    texture_engine::replaced_one(p, one.index, one.request) is Ok
}

/// Whether a texture can be replaced depends on that texture alone.
pub proof fn replaced_alike(p: PackageModel, q: PackageModel, one: ReplacementModel)
    requires
        p.data.len() <= usize::MAX,
        same_object(p, q, one.index as int),
    ensures
        can_replace(q, one) == can_replace(p, one),
{
    let index = one.index as int;
    pixels_are_stored_alike(p, q, index, one.request.image);
    if let Ok(a) = edits::with_pixels(p, index, one.request.image) {
        let b = edits::with_pixels(q, index, one.request.image)->Ok_0;
        replacement_laws::stored_pixels_stay_inside(p, index, one.request.image);
        replacement_laws::edits_go_by_tables(p, a, one.request, index);
        replacement_laws::edits_go_by_tables(p, b, one.request, index);
        if let Ok(Some(edit)) = edits::import_edit_of(p, one.request, index) {
            edits_go_alike(a, b, index, edit);
        }
    }
}

/// Whether no two replacements are about one texture, or about objects with a byte in
/// common.
pub open spec fn are_independent(p: PackageModel, replacements: Seq<ReplacementModel>) -> bool {
    forall|i: int, j: int|
        0 <= i < j < replacements.len() ==> {
            let a = (#[trigger] replacements[i]).index;
            let b = (#[trigger] replacements[j]).index;
            &&& a != b
            &&& a < p.exports.len() && b < p.exports.len() ==> replacement_laws::stand_apart(
                p.exports[a as int],
                p.exports[b as int],
            )
        }
}

proof fn independent_stand_alone(
    p: PackageModel,
    replacements: Seq<ReplacementModel>,
    k: int,
)
    requires
        are_independent(p, replacements),
        0 <= k < replacements.len(),
    ensures
        replacements[k].index < p.exports.len() ==> replacement_laws::stands_alone(
            p.exports,
            replacement_laws::targets_of(replacements),
            replacements[k].index as int,
        ),
        forall|i: int|
            0 <= i < replacements.len() && i != k ==> (#[trigger] replacements[i]).index
                != replacements[k].index,
{
    let targets = replacement_laws::targets_of(replacements);
    assert forall|i: int| 0 <= i < replacements.len() && i != k implies (
    #[trigger] replacements[i]).index != replacements[k].index by {
        if i < k {
            assert(replacements[i].index != replacements[k].index);
        } else {
            assert(replacements[k].index != replacements[i].index);
        }
    }
    if replacements[k].index < p.exports.len() {
        assert forall|i: int|
            0 <= i < targets.len() && (#[trigger] targets[i]) < p.exports.len() && targets[i]
                != replacements[k].index implies replacement_laws::stand_apart(
            p.exports[targets[i] as int],
            p.exports[replacements[k].index as int],
        ) by {
            assert(targets[i] == replacements[i].index);
            if i < k {
                assert(replacements[i].index != replacements[k].index);
            } else if i > k {
                assert(replacements[k].index != replacements[i].index);
            }
        }
    }
}

proof fn fewer_pixels_are_stored(
    p: PackageModel,
    targets: Seq<usize>,
    requests: Seq<RequestModel>,
    m: nat,
    n: nat,
)
    requires
        m <= n,
        replacement_laws::with_all_pixels(p, targets, requests, n) is Ok,
    ensures
        replacement_laws::with_all_pixels(p, targets, requests, m) is Ok,
    decreases n,
{
    if m < n {
        fewer_pixels_are_stored(p, targets, requests, m, (n - 1) as nat);
    }
}

proof fn fewer_edits_are_made(
    p: PackageModel,
    edits: Seq<(usize, TextureEditorEdit)>,
    m: nat,
    n: nat,
)
    requires
        m <= n,
        edits::edited_in_place_all(p, edits, n) is Ok,
    ensures
        edits::edited_in_place_all(p, edits, m) is Ok,
    decreases n,
{
    if m < n {
        fewer_edits_are_made(p, edits, m, (n - 1) as nat);
    }
}

/// Edits in place of other textures keep an object that has no byte in common with theirs.
proof fn edits_of_others_keep_object(
    p: PackageModel,
    edits: Seq<(usize, TextureEditorEdit)>,
    n: nat,
    index: int,
)
    requires
        n <= edits.len(),
        0 <= index < p.exports.len(),
        edits::edited_in_place_all(p, edits, n) is Ok,
        forall|j: int|
            0 <= j < n && (#[trigger] edits[j]).0 < p.exports.len()
                ==> replacement_laws::stand_apart(
                p.exports[edits[j].0 as int],
                p.exports[index],
            ),
    ensures
        same_object(p, edits::edited_in_place_all(p, edits, n)->Ok_0, index),
{
    replacement_laws::edits_in_place_keep_outside(p, edits, n);
    let after = edits::edited_in_place_all(p, edits, n)->Ok_0;
    let export = p.exports[index];
    if let Ok(raw) = package::data_of(Dialect::Engine, p.data, export) {
        let base = export.offset as int;
        assert forall|k: int| base <= k < base + export.size implies #[trigger] after.data[k]
            == p.data[k] by {
            assert forall|j: int|
                0 <= j < n && (#[trigger] edits[j]).0 < p.exports.len()
                    implies !replacement_laws::in_object(
                p.exports[edits[j].0 as int],
                k,
            ) by {
                assert(replacement_laws::stand_apart(p.exports[edits[j].0 as int], export));
            }
        }
        assert(after.data.subrange(base, base + export.size) =~= p.data.subrange(
            base,
            base + export.size,
        ));
    }
}

/// Of replacements that are made at once each could be made alone.
#[verifier::spinoff_prover]
#[verifier::rlimit(60)]
proof fn all_could_be_made_alone(
    p: PackageModel,
    replacements: Seq<ReplacementModel>,
    k: int,
)
    requires
        p.data.len() <= usize::MAX,
        are_independent(p, replacements),
        0 <= k < replacements.len(),
        texture_engine::replaced_all(p, replacements) is Ok,
    ensures
        can_replace(p, replacements[k]),
{
    let e = Dialect::Engine;
    let n = replacements.len();
    let one = replacements[k];
    let index = one.index as int;
    let targets = replacement_laws::targets_of(replacements);
    let requests = replacement_laws::wanted_of(replacements);
    replacement_laws::replacements_in_two_steps(p, replacements, n);
    let (middle, edits) = texture_engine::with_replacements(p, replacements, n)->Ok_0;
    replacement_laws::pixels_keep_outside(p, targets, requests, n);
    assert(targets[k] == one.index && requests[k] == one.request);
    independent_stand_alone(p, replacements, k);
    assert forall|i: int| 0 <= i < n && i != k implies #[trigger] targets[i] != index by {
        assert(targets[i] == replacements[i].index);
    }
    let export = p.exports[index];
    fewer_pixels_are_stored(p, targets, requests, (k + 1) as nat, n);
    fewer_pixels_are_stored(p, targets, requests, k as nat, n);
    let before = replacement_laws::with_all_pixels(p, targets, requests, k as nat)->Ok_0;
    replacement_laws::pixels_keep_outside(p, targets, requests, k as nat);
    mixed_laws::none_is_last(targets, k as nat, index);
    replacement_laws::pixels_are_stored(p, targets, requests, k as nat, index);
    pixels_are_stored_alike(p, before, index, one.request.image);
    let alone = edits::with_pixels(p, index, one.request.image)->Ok_0;
    replacement_laws::stored_pixels_stay_inside(p, index, one.request.image);
    replacement_laws::last_is_last(targets, n, k);
    replacement_laws::pixels_are_stored(p, targets, requests, n, index);
    let raw = package::data_of(e, p.data, export)->Ok_0;
    let mip = edits::mip_of(p, index)->Ok_0;
    same_pictures(
        raw,
        package::data_of(e, alone.data, export)->Ok_0,
        package::data_of(e, middle.data, export)->Ok_0,
        mip,
        export.offset as int,
    );
    assert(same_object(middle, alone, index));
    replacement_laws::edits_go_by_tables(p, alone, one.request, index);
    made_edits_could_be_made_alone(p, requests, targets, edits, middle, alone, k);
}

/// The edit of one texture among others could be made alone.
proof fn made_edits_could_be_made_alone(
    p: PackageModel,
    requests: Seq<RequestModel>,
    targets: Seq<usize>,
    edits: Seq<(usize, TextureEditorEdit)>,
    middle: PackageModel,
    alone: PackageModel,
    k: int,
)
    requires
        0 <= k < targets.len() == requests.len(),
        middle.data.len() <= usize::MAX,
        targets[k] < middle.exports.len(),
        middle == (PackageModel { data: middle.data, ..p }),
        forall|i: int| 0 <= i < targets.len() && i != k ==> #[trigger] targets[i] != targets[k],
        replacement_laws::stands_alone(p.exports, targets, targets[k] as int),
        adding::import_edits(p, requests, targets, targets.len()) == Ok::<
            Seq<(usize, TextureEditorEdit)>,
            Seq<char>,
        >(edits),
        edits::edited_in_place_all(middle, edits, edits.len()) is Ok,
        same_object(middle, alone, targets[k] as int),
    ensures
        edits::import_edit_of(p, requests[k], targets[k] as int) matches Ok(wanted) && (
        wanted matches Some(edit) ==> edits::edited_in_place(alone, targets[k] as int, edit) is Ok),
{
    let n = targets.len();
    let index = targets[k] as int;
    import_laws::import_edits_hold(p, requests, targets, n, k);
    replacement_laws::edits_of_requests(p, requests, targets, n, index);
    if let Ok(Some(edit)) = edits::import_edit_of(p, requests[k], index) {
        replacement_laws::last_is_last(targets, n, k);
        only_edit_of(p, requests, targets, n, k);
        let j = replacement_laws::last_edit(edits, edits.len(), index)->Some_0;
        fewer_edits_are_made(middle, edits, (j + 1) as nat, edits.len());
        fewer_edits_are_made(middle, edits, j as nat, edits.len());
        let before = edits::edited_in_place_all(middle, edits, j as nat)->Ok_0;
        assert forall|i: int|
            0 <= i < j && (#[trigger] edits[i]).0 < middle.exports.len()
                implies replacement_laws::stand_apart(
            middle.exports[edits[i].0 as int],
            middle.exports[index],
        ) by {
            let m = choose|m: int| 0 <= m < n && edits[i].0 == #[trigger] targets[m];
            assert(edits[i].0 != index);
        }
        edits_of_others_keep_object(middle, edits, j as nat, index);
        assert(edits[j].0 == index && edits[j].1 == edit);
        edits_go_alike(before, alone, index, edit);
    }
}

/// Where one request is about a texture, one edit at most is.
proof fn only_edit_of(
    p: PackageModel,
    requests: Seq<RequestModel>,
    targets: Seq<usize>,
    n: nat,
    k: int,
)
    requires
        0 <= k < targets.len() == requests.len(),
        n <= targets.len(),
        forall|i: int| 0 <= i < targets.len() && i != k ==> #[trigger] targets[i] != targets[k],
        adding::import_edits(p, requests, targets, n) is Ok,
    ensures
        ({
            let edits = adding::import_edits(p, requests, targets, n)->Ok_0;
            let index = targets[k] as int;
            &&& n <= k ==> adding_laws::not_edited(edits, index)
            &&& replacement_laws::last_edit(edits, edits.len(), index) matches Some(j) ==> {
                &&& 0 <= j < edits.len()
                &&& edits[j].0 == index
                &&& forall|i: int| 0 <= i < j ==> (#[trigger] edits[i]).0 != index
            }
        }),
    decreases n,
{
    if n > 0 {
        let m = (n - 1) as nat;
        let index = targets[k] as int;
        only_edit_of(p, requests, targets, m, k);
        let before = adding::import_edits(p, requests, targets, m)->Ok_0;
        let edits = adding::import_edits(p, requests, targets, n)->Ok_0;
        replacement_laws::last_edit_of_longer(before, edits, before.len(), index);
        if edits.len() > before.len() {
            assert(edits[before.len() as int].0 == targets[n - 1]);
            assert((edits.len() - 1) as nat == before.len());
        }
        if let Some(j) = replacement_laws::last_edit(edits, edits.len(), index) {
            assert forall|i: int| 0 <= i < j implies (#[trigger] edits[i]).0 != index by {
                assert(edits[i] == before[i]);
            }
        }
    }
}

/// The files, in their order, whose replacements can be made, or those whose cannot.
pub open spec fn files_where(p: PackageModel, imports: Seq<RetryModel>, made: bool) -> Seq<Seq<char>>
    decreases imports.len(),
{
    if imports.len() == 0 {
        Seq::empty()
    } else {
        let before = files_where(p, imports.drop_last(), made);
        if can_replace(p, imports.last().replacement) == made {
            before.push(imports.last().file_name)
        } else {
            before
        }
    }
}

proof fn files_joined(p: PackageModel, a: Seq<RetryModel>, b: Seq<RetryModel>, made: bool)
    ensures
        files_where(p, a + b, made) == files_where(p, a, made) + files_where(p, b, made),
    decreases b.len(),
{
    if b.len() == 0 {
        assert(a + b =~= a);
        assert(files_where(p, a, made) + files_where(p, b, made) =~= files_where(p, a, made));
    } else {
        files_joined(p, a, b.drop_last(), made);
        assert((a + b).drop_last() =~= a + b.drop_last());
        let all = files_where(p, a, made);
        let some = files_where(p, b.drop_last(), made);
        let name = b.last().file_name;
        assert(all + some.push(name) =~= (all + some).push(name));
    }
}

/// The files are the same for packages that agree on what can be made.
proof fn files_go_alike(p: PackageModel, q: PackageModel, imports: Seq<RetryModel>, made: bool)
    requires
        forall|i: int|
            0 <= i < imports.len() ==> can_replace(q, (#[trigger] imports[i]).replacement)
                == can_replace(p, imports[i].replacement),
    ensures
        files_where(q, imports, made) == files_where(p, imports, made),
    decreases imports.len(),
{
    if imports.len() > 0 {
        let rest = imports.drop_last();
        assert forall|i: int| 0 <= i < rest.len() implies can_replace(
            q,
            (#[trigger] rest[i]).replacement,
        ) == can_replace(p, rest[i].replacement) by {
            assert(rest[i] == imports[i]);
        }
        files_go_alike(p, q, rest, made);
        assert(imports[imports.len() - 1] == imports.last());
    }
}

/// Where all can be made, all files are those.
proof fn all_files(p: PackageModel, imports: Seq<RetryModel>)
    requires
        forall|i: int|
            0 <= i < imports.len() ==> can_replace(p, (#[trigger] imports[i]).replacement),
    ensures
        files_where(p, imports, true) == batch::file_names_in(imports),
        files_where(p, imports, false).len() == 0,
    decreases imports.len(),
{
    if imports.len() > 0 {
        let rest = imports.drop_last();
        assert forall|i: int| 0 <= i < rest.len() implies can_replace(
            p,
            (#[trigger] rest[i]).replacement,
        ) by {
            assert(rest[i] == imports[i]);
        }
        all_files(p, rest);
        assert(imports[imports.len() - 1] == imports.last());
        assert(batch::file_names_in(imports)
            =~= batch::file_names_in(rest).push(imports.last().file_name));
    } else {
        assert(batch::file_names_in(imports) =~= Seq::<Seq<char>>::empty());
    }
}

/// The files that failures name.
pub open spec fn failed_files(failures: Seq<FailureModel>) -> Seq<Seq<char>> {
    failures.map_values(|one: FailureModel| one.file_name)
}

/// What became of one of several replacements: if it can be made, the texture holds its
/// image and shows its properties, and otherwise it is as it was.
pub open spec fn is_settled(p: PackageModel, q: PackageModel, one: ReplacementModel) -> bool {
    let index = one.index as int;
    &&& can_replace(p, one) && replacement_laws::has_list(p, index) ==> {
        &&& edits::import_edit_of(p, one.request, index) matches Ok(wanted)
        &&& replacement_laws::holds_replacement(p, q, index, one.request, wanted)
    }
    &&& !can_replace(p, one) ==> same_object(p, q, index)
}

/// Whether nothing but the objects that are named changed.
pub open spec fn only_changed(p: PackageModel, q: PackageModel, targets: Seq<usize>) -> bool {
    &&& q == (PackageModel { data: q.data, ..p })
    &&& q.data.len() == p.data.len()
    &&& forall|k: int|
        0 <= k < p.data.len() && replacement_laws::in_none(p.exports, targets, k)
            ==> #[trigger] q.data[k]
            == p.data[k]
}

/// An object that has no byte in common with what changed is the same.
pub proof fn apart_is_the_same(p: PackageModel, q: PackageModel, targets: Seq<usize>, index: int)
    requires
        only_changed(p, q, targets),
        0 <= index,
        forall|i: int|
            0 <= i < targets.len() && (#[trigger] targets[i]) < p.exports.len() && index
                < p.exports.len()
                    ==> replacement_laws::stand_apart(p.exports[targets[i] as int], p.exports[index]),
    ensures
        same_object(p, q, index),
{
    if index < p.exports.len() {
        let export = p.exports[index];
        if let Ok(raw) = package::data_of(Dialect::Engine, p.data, export) {
            let base = export.offset as int;
            assert forall|k: int| base <= k < base + export.size implies #[trigger] q.data[k]
                == p.data[k] by {
                assert(replacement_laws::in_none(p.exports, targets, k));
            }
            assert(q.data.subrange(base, base + export.size) =~= p.data.subrange(
                base,
                base + export.size,
            ));
        }
    }
}

/// What is settled for a package is so for one that holds the same object.
pub proof fn settled_alike(p: PackageModel, b: PackageModel, q: PackageModel, one: ReplacementModel)
    requires
        p.data.len() <= usize::MAX,
        same_object(p, b, one.index as int),
        is_settled(b, q, one),
    ensures
        is_settled(p, q, one),
{
    replaced_alike(p, b, one);
    replacement_laws::edits_go_by_tables(p, b, one.request, one.index as int);
    let index = one.index as int;
    if index < p.exports.len() {
        assert(edits::mip_of(b, index) == edits::mip_of(p, index));
        assert(replacement_laws::has_list(b, index) == replacement_laws::has_list(p, index));
    }
}

/// What is settled stays so while the object does.
pub proof fn settled_stays(p: PackageModel, b: PackageModel, q: PackageModel, one: ReplacementModel)
    requires
        b == (PackageModel { data: b.data, ..p }),
        b.data.len() == p.data.len(),
        same_object(b, q, one.index as int),
        is_settled(p, b, one),
    ensures
        is_settled(p, q, one),
{
}

/// Replacements of which some cannot be made: exactly those are made that could be made
/// alone, each file is told apart by that, every texture that is replaced holds its image
/// and shows its properties, and everything else stays, also when the file is read again.
#[verifier::spinoff_prover]
#[verifier::rlimit(60)]
pub proof fn what_can_be_replaced_is(data: Seq<u8>, imports: Seq<RetryModel>)
    requires
        data.len() <= usize::MAX,
        package::package_of(Dialect::Engine, data) is Ok,
        are_independent(
            package::package_of(Dialect::Engine, data)->Ok_0,
            batch::replacements_in(imports),
        ),
        table_laws::beside_tables(data, replacement_laws::targets_of(batch::replacements_in(imports))),
    ensures
        ({
            let p = package::package_of(Dialect::Engine, data)->Ok_0;
            let r = batch::recovered(data, imports);
            &&& package::package_of(Dialect::Engine, r.data) matches Ok(q)
            &&& only_changed(p, q, replacement_laws::targets_of(batch::replacements_in(imports)))
            &&& r.applied == files_where(p, imports, true)
            &&& failed_files(r.failures) == files_where(p, imports, false)
            &&& forall|i: int|
                0 <= i < imports.len() ==> is_settled(p, q, (#[trigger] imports[i]).replacement)
        }),
    decreases imports.len(),
{
    let e = Dialect::Engine;
    let p = package::package_of(e, data)->Ok_0;
    let all = batch::replacements_in(imports);
    if imports.len() == 0 {
        assert(failed_files(batch::recovered(data, imports).failures)
            =~= Seq::<Seq<char>>::empty());
    } else if let Ok((after, _)) = texture_engine::replaced_in_file(data, all) {
        all_at_once(data, imports);
    } else if imports.len() == 1 {
        one_alone(data, imports);
    } else {
        let middle = imports.len() as int / 2;
        let a = imports.take(middle);
        let b = imports.skip(middle);
        halves_are_independent(p, data, imports, middle);
        what_can_be_replaced_is(data, a);
        let left = batch::recovered(data, a);
        let l = package::package_of(e, left.data)->Ok_0;
        second_half_is_alike(p, l, data, imports, middle);
        what_can_be_replaced_is(left.data, b);
        let right = batch::recovered(left.data, b);
        let q = package::package_of(e, right.data)->Ok_0;
        assert(a + b =~= imports);
        files_joined(p, a, b, true);
        files_joined(p, a, b, false);
        files_go_alike(p, l, b, true);
        files_go_alike(p, l, b, false);
        assert(failed_files(left.failures + right.failures) =~= failed_files(left.failures)
            + failed_files(right.failures));
        halves_settle_all(p, l, q, imports, middle);
    }
}

proof fn all_at_once(data: Seq<u8>, imports: Seq<RetryModel>)
    requires
        data.len() <= usize::MAX,
        imports.len() > 0,
        texture_engine::replaced_in_file(data, batch::replacements_in(imports)) is Ok,
        are_independent(
            package::package_of(Dialect::Engine, data)->Ok_0,
            batch::replacements_in(imports),
        ),
        table_laws::beside_tables(data, replacement_laws::targets_of(batch::replacements_in(imports))),
    ensures
        ({
            let p = package::package_of(Dialect::Engine, data)->Ok_0;
            let r = batch::recovered(data, imports);
            &&& package::package_of(Dialect::Engine, r.data) matches Ok(q)
            &&& only_changed(p, q, replacement_laws::targets_of(batch::replacements_in(imports)))
            &&& r.applied == files_where(p, imports, true)
            &&& failed_files(r.failures) == files_where(p, imports, false)
            &&& forall|i: int|
                0 <= i < imports.len() ==> is_settled(p, q, (#[trigger] imports[i]).replacement)
        }),
{
    let p = package::package_of(Dialect::Engine, data)->Ok_0;
    let all = batch::replacements_in(imports);
    let (after, _) = texture_engine::replaced_in_file(data, all)->Ok_0;
    table_laws::written_replacements_are_read(data, all);
    replacement_laws::replacements_keep_the_rest(p, all);
    assert forall|i: int| 0 <= i < imports.len() implies can_replace(
        p,
        (#[trigger] imports[i]).replacement,
    ) by {
        all_could_be_made_alone(p, all, i);
        assert(all[i] == imports[i].replacement);
    }
    all_files(p, imports);
    assert forall|i: int| 0 <= i < imports.len() implies is_settled(
        p,
        after,
        (#[trigger] imports[i]).replacement,
    ) by {
        let one = imports[i].replacement;
        assert(all[i] == one);
        if replacement_laws::has_list(p, one.index as int) {
            independent_stand_alone(p, all, i);
            replacement_laws::replaced_textures_hold_their_images(p, all, i);
        }
    }
    assert(failed_files(batch::recovered(data, imports).failures) =~= Seq::<Seq<char>>::empty());
    assert(files_where(p, imports, false) =~= Seq::<Seq<char>>::empty());
}

proof fn one_alone(data: Seq<u8>, imports: Seq<RetryModel>)
    requires
        data.len() <= usize::MAX,
        imports.len() == 1,
        package::package_of(Dialect::Engine, data) is Ok,
        texture_engine::replaced_in_file(data, batch::replacements_in(imports)) is Err,
    ensures
        ({
            let p = package::package_of(Dialect::Engine, data)->Ok_0;
            let r = batch::recovered(data, imports);
            &&& r.data == data
            &&& r.applied == files_where(p, imports, true)
            &&& failed_files(r.failures) == files_where(p, imports, false)
            &&& is_settled(p, p, imports[0].replacement)
        }),
{
    let p = package::package_of(Dialect::Engine, data)->Ok_0;
    let one = imports[0].replacement;
    table_laws::one_is_several(p, one.index, one.request);
    assert(batch::replacements_in(imports) =~= seq![one]);
    assert(seq![ReplacementModel { index: one.index, request: one.request }] =~= seq![one]);
    assert(!can_replace(p, one));
    reveal_with_fuel(files_where, 2);
    assert(imports.last() == imports[0]);
    assert(files_where(p, imports, true) =~= Seq::<Seq<char>>::empty());
    assert(files_where(p, imports, false) =~= seq![imports[0].file_name]);
    assert(failed_files(batch::recovered(data, imports).failures) =~= seq![imports[0].file_name]);
}

proof fn halves_are_independent(
    p: PackageModel,
    data: Seq<u8>,
    imports: Seq<RetryModel>,
    middle: int,
)
    requires
        0 <= middle <= imports.len(),
        package::package_of(Dialect::Engine, data) == Ok::<PackageModel, Seq<char>>(p),
        are_independent(p, batch::replacements_in(imports)),
        table_laws::beside_tables(data, replacement_laws::targets_of(batch::replacements_in(imports))),
    ensures
        are_independent(p, batch::replacements_in(imports.take(middle))),
        are_independent(p, batch::replacements_in(imports.skip(middle))),
        table_laws::beside_tables(data, replacement_laws::targets_of(batch::replacements_in(imports.take(middle)))),
        table_laws::beside_tables(data, replacement_laws::targets_of(batch::replacements_in(imports.skip(middle)))),
{
    let all = batch::replacements_in(imports);
    let a = batch::replacements_in(imports.take(middle));
    let b = batch::replacements_in(imports.skip(middle));
    assert forall|i: int| 0 <= i < a.len() implies #[trigger] a[i] == all[i] by {}
    assert forall|i: int| 0 <= i < b.len() implies #[trigger] b[i] == all[middle + i] by {}
    let targets = replacement_laws::targets_of(all);
    assert forall|k: int| 0 <= k < data.len()
        && #[trigger] table_laws::in_tables(data, k) implies replacement_laws::in_none(
        p.exports,
        replacement_laws::targets_of(a),
        k,
    ) && replacement_laws::in_none(p.exports, replacement_laws::targets_of(b), k) by {
        assert(replacement_laws::in_none(p.exports, targets, k));
        assert forall|i: int|
            0 <= i < replacement_laws::targets_of(a).len()
                && (#[trigger] replacement_laws::targets_of(a)[i])
                < p.exports.len()
                    implies !replacement_laws::in_object(p.exports[replacement_laws::targets_of(a)[i] as int], k) by {
            assert(targets[i] == replacement_laws::targets_of(a)[i]);
        }
        assert forall|i: int|
            0 <= i < replacement_laws::targets_of(b).len()
                && (#[trigger] replacement_laws::targets_of(b)[i])
                < p.exports.len()
                    implies !replacement_laws::in_object(p.exports[replacement_laws::targets_of(b)[i] as int], k) by {
            assert(targets[middle + i] == replacement_laws::targets_of(b)[i]);
        }
    }
}

/// The second half of replacements finds its textures as they were.
proof fn second_half_is_alike(
    p: PackageModel,
    l: PackageModel,
    data: Seq<u8>,
    imports: Seq<RetryModel>,
    middle: int,
)
    requires
        0 <= middle <= imports.len(),
        data.len() <= usize::MAX,
        package::package_of(Dialect::Engine, data) == Ok::<PackageModel, Seq<char>>(p),
        p.data == data,
        package::package_of(Dialect::Engine, l.data) == Ok::<PackageModel, Seq<char>>(l),
        are_independent(p, batch::replacements_in(imports)),
        are_independent(p, batch::replacements_in(imports.skip(middle))),
        table_laws::beside_tables(data, replacement_laws::targets_of(batch::replacements_in(imports.take(middle)))),
        table_laws::beside_tables(data, replacement_laws::targets_of(batch::replacements_in(imports.skip(middle)))),
        only_changed(p, l, replacement_laws::targets_of(batch::replacements_in(imports.take(middle)))),
    ensures
        are_independent(l, batch::replacements_in(imports.skip(middle))),
        table_laws::beside_tables(l.data, replacement_laws::targets_of(batch::replacements_in(imports.skip(middle)))),
        forall|i: int|
            0 <= i < imports.skip(middle).len() ==> same_object(
                p,
                l,
                (#[trigger] imports.skip(middle)[i]).replacement.index as int,
            ) && can_replace(l, imports.skip(middle)[i].replacement) == can_replace(
                p,
                imports.skip(middle)[i].replacement,
            ),
{
    let all = batch::replacements_in(imports);
    let first = replacement_laws::targets_of(batch::replacements_in(imports.take(middle)));
    let b = imports.skip(middle);
    assert forall|k: int| 0 <= k < data.len() && table_laws::in_tables(data, k)
        implies #[trigger] l.data[k]
        == data[k] by {
        assert(replacement_laws::in_none(p.exports, first, k));
    }
    table_laws::tables_are_read_alike(data, l.data);
    assert forall|i: int| 0 <= i < b.len() implies same_object(
        p,
        l,
        (#[trigger] b[i]).replacement.index as int,
    ) && can_replace(l, b[i].replacement) == can_replace(p, b[i].replacement) by {
        let index = b[i].replacement.index as int;
        assert forall|j: int|
            0 <= j < first.len() && (#[trigger] first[j]) < p.exports.len() && index
                < p.exports.len() implies replacement_laws::stand_apart(
            p.exports[first[j] as int],
            p.exports[index],
        ) by {
            assert(first[j] == all[j].index);
            assert(all[middle + i].index == index);
        }
        apart_is_the_same(p, l, first, index);
        replaced_alike(p, l, b[i].replacement);
    }
}

/// Both halves together settle all.
proof fn halves_settle_all(
    p: PackageModel,
    l: PackageModel,
    q: PackageModel,
    imports: Seq<RetryModel>,
    middle: int,
)
    requires
        0 <= middle <= imports.len(),
        p.data.len() <= usize::MAX,
        are_independent(p, batch::replacements_in(imports)),
        only_changed(p, l, replacement_laws::targets_of(batch::replacements_in(imports.take(middle)))),
        only_changed(l, q, replacement_laws::targets_of(batch::replacements_in(imports.skip(middle)))),
        forall|i: int|
            0 <= i < imports.take(middle).len() ==> is_settled(
                p,
                l,
                (#[trigger] imports.take(middle)[i]).replacement,
            ),
        forall|i: int|
            0 <= i < imports.skip(middle).len() ==> is_settled(
                l,
                q,
                (#[trigger] imports.skip(middle)[i]).replacement,
            ) && same_object(p, l, imports.skip(middle)[i].replacement.index as int),
    ensures
        only_changed(p, q, replacement_laws::targets_of(batch::replacements_in(imports))),
        forall|i: int|
            0 <= i < imports.len() ==> is_settled(p, q, (#[trigger] imports[i]).replacement),
{
    let all = batch::replacements_in(imports);
    let targets = replacement_laws::targets_of(all);
    let a = imports.take(middle);
    let b = imports.skip(middle);
    let first = replacement_laws::targets_of(batch::replacements_in(a));
    let second = replacement_laws::targets_of(batch::replacements_in(b));
    assert forall|k: int|
        0 <= k < p.data.len() && replacement_laws::in_none(p.exports, targets, k)
            implies #[trigger] q.data[k]
        == p.data[k] by {
        assert forall|i: int| 0 <= i < first.len() && (#[trigger] first[i])
            < p.exports.len()
                implies !replacement_laws::in_object(p.exports[first[i] as int], k) by {
            assert(targets[i] == first[i]);
        }
        assert forall|i: int| 0 <= i < second.len() && (#[trigger] second[i])
            < p.exports.len()
                implies !replacement_laws::in_object(p.exports[second[i] as int], k) by {
            assert(targets[middle + i] == second[i]);
        }
        assert(replacement_laws::in_none(p.exports, first, k));
        assert(replacement_laws::in_none(p.exports, second, k));
        assert(l.data[k] == p.data[k]);
    }
    assert forall|i: int| 0 <= i < imports.len() implies is_settled(
        p,
        q,
        (#[trigger] imports[i]).replacement,
    ) by {
        let one = imports[i].replacement;
        if i < middle {
            assert(a[i] == imports[i]);
            assert forall|j: int|
                0 <= j < second.len() && (#[trigger] second[j]) < l.exports.len() && one.index
                    < l.exports.len() implies replacement_laws::stand_apart(
                l.exports[second[j] as int],
                l.exports[one.index as int],
            ) by {
                assert(second[j] == all[middle + j].index);
                assert(all[i].index == one.index);
            }
            apart_is_the_same(l, q, second, one.index as int);
            settled_stays(p, l, q, one);
        } else {
            assert(b[i - middle] == imports[i]);
            settled_alike(p, l, q, one);
        }
    }
}

/// A replaced texture stays so when others are added.
#[verifier::spinoff_prover]
#[verifier::rlimit(40)]
proof fn replaced_stay_when_others_are_added(
    p: PackageModel,
    q: PackageModel,
    template: PackageModel,
    group: Seq<char>,
    others: Seq<RequestModel>,
    index: int,
    request: RequestModel,
    wanted: Option<TextureEditorEdit>,
)
    requires
        replacement_laws::holds_replacement(p, q, index, request, wanted),
        package_laws::stands_behind_header(q.exports[index]),
        q.exports.len() + others.len() < usize::MAX,
        template.exports.len() <= usize::MAX,
        adding::with_added(q, template, group, others) matches Ok((after, _)) && after.data.len()
            <= usize::MAX,
    ensures
        replacement_laws::holds_replacement(
            p,
            adding::with_added(q, template, group, others)->Ok_0.0,
            index,
            request,
            wanted,
        ),
        adding::with_added(q, template, group, others)->Ok_0.0.exports[index] == q.exports[index],
{
    let (after, _) = adding::with_added(q, template, group, others)->Ok_0;
    mixed_laws::additions_keep_tables(q, template, group, others);
    adding_laws::additions_keep_objects(q, template, group, others, index);
    let object = package::data_of(Dialect::Engine, q.data, q.exports[index])->Ok_0;
    image_laws::lists_keep_their_end(q.names, after.names, object, 0);
}

/// What is replaced is held by what the tables of a package hold of it.
proof fn held_replacements_are_stored(
    p: PackageModel,
    after: PackageModel,
    q: PackageModel,
    index: int,
    request: RequestModel,
    wanted: Option<TextureEditorEdit>,
)
    requires
        file_laws::same_tables(q, after),
        replacement_laws::holds_replacement(p, after, index, request, wanted),
    ensures
        replacement_laws::holds_replacement(p, q, index, request, wanted),
{
    let object = package::data_of(Dialect::Engine, after.data, after.exports[index])->Ok_0;
    edits::stream_end(object, after.names, 0);
    assert(after.exports[index].size > 0);
    assert(q.exports[index] == file_laws::stored_export(after.exports[index]));
}

/// The replacements of an import of files.
pub open spec fn replacing_files(
    p: PackageModel,
    group: Seq<char>,
    prepared: Seq<PreparedModel>,
) -> Seq<RetryModel> {
    batch::retries_in(batch::import_plan(p, group, prepared)->Ok_0.pending)
}

/// The files that an import makes new textures of.
pub open spec fn adding_files(
    p: PackageModel,
    group: Seq<char>,
    prepared: Seq<PreparedModel>,
) -> Seq<PendingModel> {
    batch::additions_in(batch::import_plan(p, group, prepared)->Ok_0.pending)
}

/// The data that an import of files writes: what could be replaced is, and then the new
/// textures are added where that works.
proof fn files_in_two_steps(
    p: PackageModel,
    template: Seq<u8>,
    group: Seq<char>,
    prepared: Seq<PreparedModel>,
)
    requires
        batch::imported_files(p, template, group, prepared).1 is Ok,
    ensures
        batch::import_plan(p, group, prepared) is Ok,
        ({
            let data = batch::imported_files(p, template, group, prepared).1->Ok_0;
            let working = batch::recovered(p.data, replacing_files(p, group, prepared)).data;
            let additions = adding_files(p, group, prepared);
            if additions.len() == 0 {
                data == working
            } else {
                match texture_engine::added_to_file(working, template, group, batch::requests_in(additions)) {
                    Ok((after, _)) => data == after.data,
                    Err(_) => data == working,
                }
            }
        }),
{
    reveal(batch::imported_files);
    let plan = batch::import_plan(p, group, prepared)->Ok_0;
    if plan.pending.len() == 0 {
        assert(batch::retries_in(plan.pending).len() == 0);
    }
}

/// A texture that an import of files replaces holds its image and shows its properties in
/// the written file, whatever became of the other files.
#[verifier::spinoff_prover]
#[verifier::rlimit(40)]
pub proof fn replacing_files_are_read_back(
    p: PackageModel,
    template: Seq<u8>,
    group: Seq<char>,
    prepared: Seq<PreparedModel>,
    i: int,
)
    requires
        p.data.len() <= usize::MAX,
        template.len() <= usize::MAX,
        package::package_of(Dialect::Engine, p.data) == Ok::<PackageModel, Seq<char>>(p),
        p.exports.len() + adding_files(p, group, prepared).len() < usize::MAX,
        batch::imported_files(p, template, group, prepared).1 matches Ok(data) && data.len()
            <= usize::MAX,
        ({
            let files = replacing_files(p, group, prepared);
            let one = files[i].replacement;
            &&& 0 <= i < files.len()
            &&& are_independent(p, batch::replacements_in(files))
            &&& table_laws::beside_tables(p.data, replacement_laws::targets_of(batch::replacements_in(files)))
            &&& can_replace(p, one)
            &&& replacement_laws::has_list(p, one.index as int)
        }),
    ensures
        ({
            let data = batch::imported_files(p, template, group, prepared).1->Ok_0;
            let one = replacing_files(p, group, prepared)[i].replacement;
            &&& package::package_of(Dialect::Engine, data) matches Ok(q)
            &&& edits::import_edit_of(p, one.request, one.index as int) matches Ok(wanted)
            &&& replacement_laws::holds_replacement(p, q, one.index as int, one.request, wanted)
        }),
{
    let e = Dialect::Engine;
    let files = replacing_files(p, group, prepared);
    let one = files[i].replacement;
    let index = one.index as int;
    files_in_two_steps(p, template, group, prepared);
    what_can_be_replaced_is(p.data, files);
    let working = batch::recovered(p.data, files).data;
    let q = package::package_of(e, working)->Ok_0;
    assert(is_settled(p, q, files[i].replacement));
    let wanted = edits::import_edit_of(p, one.request, index)->Ok_0;
    let additions = adding_files(p, group, prepared);
    if additions.len() > 0 {
        if let Ok((after, _)) = texture_engine::added_to_file(working, template, group, batch::requests_in(additions)) {
            let t = package::package_of(e, template)->Ok_0;
            file_laws::exports_are_few(template);
            replaced_stand_behind_header(p, files, i);
            replaced_stay_when_others_are_added(
                p,
                q,
                t,
                group,
                batch::requests_in(additions),
                index,
                one.request,
                wanted,
            );
            file_laws::written_additions_are_read(working, template, group, batch::requests_in(additions));
            held_replacements_are_stored(
                p,
                after,
                package::package_of(e, after.data)->Ok_0,
                index,
                one.request,
                wanted,
            );
        }
    }
}

proof fn replaced_stand_behind_header(p: PackageModel, files: Seq<RetryModel>, i: int)
    requires
        0 <= i < files.len(),
        package::package_of(Dialect::Engine, p.data) == Ok::<PackageModel, Seq<char>>(p),
        table_laws::beside_tables(p.data, replacement_laws::targets_of(batch::replacements_in(files))),
        files[i].replacement.index < p.exports.len(),
        replacement_laws::has_list(p, files[i].replacement.index as int),
    ensures
        package_laws::stands_behind_header(p.exports[files[i].replacement.index as int]),
{
    let targets = replacement_laws::targets_of(batch::replacements_in(files));
    let export = p.exports[files[i].replacement.index as int];
    let raw = package::data_of(Dialect::Engine, p.data, export)->Ok_0;
    edits::stream_end(raw, p.names, 0);
    assert(targets[i] == files[i].replacement.index);
    if export.offset < 36 {
        assert(table_laws::in_tables(p.data, export.offset as int));
        assert(replacement_laws::in_none(p.exports, targets, export.offset as int));
        assert(replacement_laws::in_object(export, export.offset as int));
    }
}

/// A texture that an import of files adds holds its image and the properties that were
/// asked for in the written file, where the new textures could be added.
pub proof fn adding_files_are_read_back(
    p: PackageModel,
    template: Seq<u8>,
    group: Seq<char>,
    prepared: Seq<PreparedModel>,
    i: int,
)
    requires
        p.data.len() <= usize::MAX,
        template.len() <= usize::MAX,
        package::package_of(Dialect::Engine, p.data) == Ok::<PackageModel, Seq<char>>(p),
        p.exports.len() + adding_files(p, group, prepared).len() < usize::MAX,
        batch::imported_files(p, template, group, prepared).1 matches Ok(data) && data.len()
            <= usize::MAX,
        0 <= i < adding_files(p, group, prepared).len(),
        ({
            let files = replacing_files(p, group, prepared);
            let working = batch::recovered(p.data, files).data;
            &&& are_independent(p, batch::replacements_in(files))
            &&& table_laws::beside_tables(p.data, replacement_laws::targets_of(batch::replacements_in(files)))
            &&& texture_engine::added_to_file(
                working,
                template,
                group,
                batch::requests_in(adding_files(p, group, prepared)),
            ) is Ok
        }),
    ensures
        ({
            let data = batch::imported_files(p, template, group, prepared).1->Ok_0;
            let t = package::package_of(Dialect::Engine, template)->Ok_0;
            let working = batch::recovered(p.data, replacing_files(p, group, prepared)).data;
            let requests = batch::requests_in(adding_files(p, group, prepared));
            let (_, outcomes) = texture_engine::added_to_file(working, template, group, requests)->Ok_0;
            let b = package::package_of(Dialect::Engine, working)->Ok_0;
            let (built, _) = adding::built_with(b, t, group, requests)->Ok_0;
            let index = outcomes[i].export_index as int;
            &&& package::package_of(Dialect::Engine, data) matches Ok(q)
            &&& image_laws::own_name_fits(p, t)
                ==> image_laws::holds_image(q, index, requests[i].image)
            &&& edits::import_edit_of(built, requests[i], index) matches Ok(wanted)
            &&& wanted matches Some(edit) ==> import_laws::holds_edit(q, index, edit)
        }),
{
    let e = Dialect::Engine;
    let files = replacing_files(p, group, prepared);
    let working = batch::recovered(p.data, files).data;
    let requests = batch::requests_in(adding_files(p, group, prepared));
    files_in_two_steps(p, template, group, prepared);
    what_can_be_replaced_is(p.data, files);
    let b = package::package_of(e, working)->Ok_0;
    let t = package::package_of(e, template)->Ok_0;
    import_laws::imported_properties_are_read_back(working, template, group, requests, i);
    if image_laws::own_name_fits(p, t) {
        assert(image_laws::own_name_fits(b, t));
        image_laws::imported_images_are_read_back(working, template, group, requests, i);
    }
}

} // verus!
