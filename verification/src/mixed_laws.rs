//! What holds of imports that replace some textures and add others: what holds of
//! either alone.

use vstd::prelude::*;
use crate::adding::Adding;
use crate::edits::{RequestModel, RewrittenModel};
use crate::package::{ExportEntry, PackageModel};
use crate::properties::TextureEditorEdit;
use crate::reader::Dialect;
use crate::tables::KeyModel;
use crate::texture_engine::{SortedModel, TextureImportOutcome};
use crate::adding;
use crate::adding_laws;
use crate::edits;
use crate::file_laws;
use crate::image_laws;
use crate::import_laws;
use crate::package;
use crate::package_laws;
use crate::properties;
use crate::property_laws;
use crate::replacement_laws;
use crate::tables;
use crate::texture_engine;

verus! {

/// The keys of textures lead to textures.
proof fn keys_lead_to_textures(p: PackageModel, n: nat)
    requires
        n <= p.exports.len(),
    ensures
        tables::texture_keys(p, n) matches Ok(keys) ==> forall|i: int|
            0 <= i < keys.len() ==> 0 <= (#[trigger] keys[i]).index < n
                && package::is_texture_export(
                Dialect::Engine,
                p,
                p.exports[keys[i].index],
            ),
    decreases n,
{
    if n > 0 {
        keys_lead_to_textures(p, (n - 1) as nat);
    }
}

proof fn found_keys_are_keys(keys: Seq<KeyModel>, key: Seq<char>, from: int)
    requires
        0 <= from,
    ensures
        tables::find_key(keys, key, from) matches Some(index) ==> exists|i: int|
            from <= i < keys.len() && (#[trigger] keys[i]).index == index && keys[i].key == key,
    decreases keys.len() - from,
{
    if from < keys.len() && keys[from].key != key {
        found_keys_are_keys(keys, key, from + 1);
    }
}

/// A request replaces a texture of the package.
pub proof fn replaced_are_textures(p: PackageModel, group: Seq<char>, request: RequestModel)
    requires
        tables::texture_keys(p, p.exports.len()) is Ok,
    ensures
        texture_engine::existing_of(tables::texture_keys(p, p.exports.len())->Ok_0, group, request) matches Some(index)
            ==> 0 <= index < p.exports.len() && package::is_texture_export(
            Dialect::Engine,
            p,
            p.exports[index],
        ),
{
    let keys = tables::texture_keys(p, p.exports.len())->Ok_0;
    keys_lead_to_textures(p, p.exports.len());
    found_keys_are_keys(keys, tables::lookup_key(group, request.name), 0);
}

proof fn pixels_of_longer(
    p: PackageModel,
    targets: Seq<usize>,
    requests: Seq<RequestModel>,
    target: usize,
    request: RequestModel,
    n: nat,
)
    requires
        n <= targets.len() == requests.len(),
    ensures
        replacement_laws::with_all_pixels(p, targets.push(target), requests.push(request), n)
            == replacement_laws::with_all_pixels(
            p,
            targets,
            requests,
            n,
        ),
    decreases n,
{
    if n > 0 {
        pixels_of_longer(p, targets, requests, target, request, (n - 1) as nat);
        assert(targets.push(target)[n - 1] == targets[n - 1]);
        assert(requests.push(request)[n - 1] == requests[n - 1]);
    }
}

/// Whether a request is the last of the first `n` that replaces a texture.
pub open spec fn is_last_for(
    keys: Seq<KeyModel>,
    group: Seq<char>,
    requests: Seq<RequestModel>,
    n: int,
    i: int,
    index: int,
) -> bool {
    &&& 0 <= i < n
    &&& texture_engine::existing_of(keys, group, requests[i]) == Some(index)
    &&& forall|j: int|
        i < j < n ==> texture_engine::existing_of(keys, group, #[trigger] requests[j]) != Some(index)
}

/// The requests that replace textures, in their order, with the textures that they
/// replace.
pub proof fn sorted_in_turn(
    p: PackageModel,
    group: Seq<char>,
    requests: Seq<RequestModel>,
    n: nat,
    i: int,
    index: int,
)
    requires
        n <= requests.len(),
        p.exports.len() <= usize::MAX,
        tables::texture_keys(p, p.exports.len()) is Ok,
        texture_engine::sorted_requests(p, tables::texture_keys(p, p.exports.len())->Ok_0, group, requests, n) is Ok,
    ensures
        ({
            let keys = tables::texture_keys(p, p.exports.len())->Ok_0;
            let sorted = texture_engine::sorted_requests(p, keys, group, requests, n)->Ok_0;
            let count = sorted.targets.len();
            &&& sorted.replaced.len() == count
            &&& replacement_laws::with_all_pixels(p, sorted.targets, sorted.replaced, count)
                == Ok::<
                PackageModel,
                Seq<char>,
            >(sorted.package)
            &&& sorted.added.len() + count == n
            &&& forall|m: int|
                0 <= m < count ==> exists|j: int|
                    0 <= j < n && texture_engine::existing_of(keys, group, #[trigger] requests[j]) == Some(
                        #[trigger] sorted.targets[m] as int,
                    )
            &&& is_last_for(keys, group, requests, n as int, i, index) ==> exists|k: int|
                0 <= k < count && #[trigger] sorted.targets[k] == index && sorted.replaced[k]
                    == requests[i] && forall|m: int|
                    k < m < count ==> #[trigger] sorted.targets[m] != index
        }),
    decreases n,
{
    let keys = tables::texture_keys(p, p.exports.len())->Ok_0;
    if n > 0 {
        let last = (n - 1) as nat;
        sorted_in_turn(p, group, requests, last, i, index);
        let before = texture_engine::sorted_requests(p, keys, group, requests, last)->Ok_0;
        let sorted = texture_engine::sorted_requests(p, keys, group, requests, n)->Ok_0;
        let count = sorted.targets.len();
        replaced_are_textures(p, group, requests[n - 1]);
        if let Some(target) = texture_engine::existing_of(keys, group, requests[n - 1]) {
            pixels_of_longer(
                p,
                before.targets,
                before.replaced,
                target as usize,
                requests[n - 1],
                before.targets.len(),
            );
            assert(sorted.targets[count - 1] == target);
            assert(sorted.replaced[count - 1] == requests[n - 1]);
        }
        assert forall|m: int| 0 <= m < count implies exists|j: int|
            0 <= j < n && texture_engine::existing_of(keys, group, #[trigger] requests[j]) == Some(
                #[trigger] sorted.targets[m] as int,
            ) by {
            if m < before.targets.len() {
                assert(sorted.targets[m] == before.targets[m]);
                let j = choose|j: int|
                    0 <= j < last
                        && texture_engine::existing_of(keys, group, #[trigger] requests[j]) == Some(
                        before.targets[m] as int,
                    );
                assert(texture_engine::existing_of(keys, group, requests[j])
                    == Some(sorted.targets[m] as int));
            } else {
                assert(texture_engine::existing_of(keys, group, requests[n - 1])
                    == Some(sorted.targets[m] as int));
            }
        }
        if is_last_for(keys, group, requests, n as int, i, index) {
            if i < n - 1 {
                assert(is_last_for(keys, group, requests, last as int, i, index));
                let k = choose|k: int|
                    0 <= k < before.targets.len() && #[trigger] before.targets[k] == index
                        && before.replaced[k] == requests[i] && forall|m: int|
                        k < m < before.targets.len() ==> #[trigger] before.targets[m] != index;
                assert(sorted.targets[k] == before.targets[k]);
                assert(texture_engine::existing_of(keys, group, requests[n - 1]) != Some(index));
                assert forall|m: int| k < m < count
                    implies #[trigger] sorted.targets[m] != index by {
                    if m < before.targets.len() {
                        assert(sorted.targets[m] == before.targets[m]);
                    }
                }
            } else {
                assert(sorted.targets[count - 1] == index);
            }
        }
    }
}

/// Whether an object has no byte in common with any other that the requests replace.
pub open spec fn replaced_apart(
    p: PackageModel,
    group: Seq<char>,
    requests: Seq<RequestModel>,
    index: int,
) -> bool {
    let keys = tables::texture_keys(p, p.exports.len())->Ok_0;
    forall|j: int|
        0 <= j < requests.len()
            ==> (texture_engine::existing_of(keys, group, #[trigger] requests[j]) matches Some(
            other,
        ) ==> other == index || replacement_laws::stand_apart(p.exports[other], p.exports[index]))
}

proof fn apart_stand_alone(
    p: PackageModel,
    group: Seq<char>,
    requests: Seq<RequestModel>,
    targets: Seq<usize>,
    index: int,
)
    requires
        replaced_apart(p, group, requests, index),
        forall|m: int|
            0 <= m < targets.len() ==> exists|j: int|
                0 <= j < requests.len() && texture_engine::existing_of(
                    tables::texture_keys(p, p.exports.len())->Ok_0,
                    group,
                    #[trigger] requests[j],
                ) == Some(#[trigger] targets[m] as int),
    ensures
        replacement_laws::stands_alone(p.exports, targets, index),
{
    let keys = tables::texture_keys(p, p.exports.len())->Ok_0;
    assert forall|m: int|
        0 <= m < targets.len() && (#[trigger] targets[m]) < p.exports.len() && targets[m]
            != index implies replacement_laws::stand_apart(p.exports[targets[m] as int], p.exports[index]) by {
        let j = choose|j: int|
            0 <= j < requests.len()
                && texture_engine::existing_of(keys, group, #[trigger] requests[j]) == Some(
                targets[m] as int,
            );
    }
}

/// Adding textures keeps the names and the exports that are there.
pub proof fn additions_keep_tables(
    p: PackageModel,
    template: PackageModel,
    group: Seq<char>,
    requests: Seq<RequestModel>,
)
    requires
        p.exports.len() + requests.len() < usize::MAX,
        template.exports.len() <= usize::MAX,
        adding::with_added(p, template, group, requests) matches Ok((after, _)) && after.data.len()
            <= usize::MAX,
    ensures
        ({
            let (after, outcomes) = adding::with_added(p, template, group, requests)->Ok_0;
            &&& outcomes.len() == requests.len()
            &&& property_laws::extends(p.names, after.names)
            &&& p.exports.len() <= after.exports.len()
            &&& p.data.len() <= after.data.len()
            &&& forall|k: int|
                0 <= k < p.exports.len() ==> #[trigger] after.exports[k] == p.exports[k]
        }),
{
    let (after, _) = adding::with_added(p, template, group, requests)->Ok_0;
    if requests.len() > 0 {
        import_laws::built_textures_are_asked_for(p, template, group, requests);
        import_laws::added_after_built(p, template, group, requests);
        let (built, first) = adding::built_with(p, template, group, requests)->Ok_0;
        let edits = adding::import_edits(
            built,
            requests,
            adding::new_targets(first, requests.len()),
            requests.len(),
        )->Ok_0;
        file_laws::edited_data_is_longer(built, edits);
        import_laws::edits_keep_hierarchy(built, edits);
        package_laws::extends_twice(p.names, built.names, after.names);
    } else {
        reveal(adding::with_added);
        assert(p.names =~= p.names.take(p.names.len() as int));
    }
    assert forall|k: int| 0 <= k < p.exports.len() implies #[trigger] after.exports[k]
        == p.exports[k] by {
        adding_laws::additions_keep_objects(p, template, group, requests, k);
    }
}

/// What an import does: it stores the pixels of the textures that it replaces, adds the
/// others, and makes the edits of the replaced ones in place.
pub open spec fn import_parts(
    p: PackageModel,
    template: PackageModel,
    group: Seq<char>,
    requests: Seq<RequestModel>,
) -> (SortedModel, PackageModel, Seq<TextureImportOutcome>, Seq<(usize, TextureEditorEdit)>) {
    let keys = tables::texture_keys(p, p.exports.len())->Ok_0;
    let sorted = texture_engine::sorted_requests(p, keys, group, requests, requests.len())->Ok_0;
    let (grown, added) = adding::with_added(sorted.package, template, group, sorted.added)->Ok_0;
    let edits = adding::import_edits(grown, sorted.replaced, sorted.targets, sorted.replaced.len())->Ok_0;
    (sorted, grown, added, edits)
}

/// The package in which all textures of an import stand, before the properties of the
/// replaced ones are set.
pub open spec fn grown_package(
    p: PackageModel,
    template: PackageModel,
    group: Seq<char>,
    requests: Seq<RequestModel>,
) -> PackageModel {
    import_parts(p, template, group, requests).1
}

/// A texture that an import replaces among others holds its image, and shows the
/// properties that were asked for with it. This is so of every texture whose property
/// list can be read and whose object has no byte in common with another that is
/// replaced; where one texture is named more than once, it is so of the last request.
#[verifier::spinoff_prover]
#[verifier::rlimit(60)]
pub proof fn imported_replacements_hold(
    p: PackageModel,
    template: PackageModel,
    group: Seq<char>,
    requests: Seq<RequestModel>,
    i: int,
    index: int,
)
    requires
        p.data.len() <= usize::MAX,
        p.exports.len() + requests.len() < usize::MAX,
        template.exports.len() <= usize::MAX,
        is_last_for(
            tables::texture_keys(p, p.exports.len())->Ok_0,
            group,
            requests,
            requests.len() as int,
            i,
            index,
        ),
        replacement_laws::has_list(p, index),
        package_laws::stands_behind_header(p.exports[index]),
        replaced_apart(p, group, requests, index),
        texture_engine::imported(p, template, group, requests) matches Ok((after, _))
            && after.data.len()
            <= usize::MAX,
    ensures
        ({
            let (after, outcomes) = texture_engine::imported(p, template, group, requests)->Ok_0;
            let grown = grown_package(p, template, group, requests);
            &&& outcomes[i].export_index == index
            &&& !outcomes[i].added
            &&& edits::import_edit_of(grown, requests[i], index) matches Ok(wanted)
            &&& replacement_laws::holds_replacement(p, after, index, requests[i], wanted)
            &&& after.exports[index] == p.exports[index]
        }),
{
    let e = Dialect::Engine;
    let (after, outcomes) = texture_engine::imported(p, template, group, requests)->Ok_0;
    let (sorted, grown, added, edits) = import_parts(p, template, group, requests);
    let n = requests.len();
    sorted_in_turn(p, group, requests, n, i, index);
    let k = choose|k: int|
        0 <= k < sorted.targets.len() && #[trigger] sorted.targets[k] == index
            && sorted.replaced[k] == requests[i] && forall|m: int|
            k < m < sorted.targets.len() ==> #[trigger] sorted.targets[m] != index;
    apart_stand_alone(p, group, requests, sorted.targets, index);
    replacement_laws::edits_in_place_keep_outside(grown, edits, edits.len());
    replaced_then_grown(
        p,
        sorted.targets,
        sorted.replaced,
        sorted.package,
        template,
        group,
        sorted.added,
        k,
    );
}

/// What becomes of a replaced texture when others are added and all edits are made.
#[verifier::spinoff_prover]
#[verifier::rlimit(60)]
proof fn replaced_then_grown(
    p: PackageModel,
    targets: Seq<usize>,
    requests: Seq<RequestModel>,
    middle: PackageModel,
    template: PackageModel,
    group: Seq<char>,
    others: Seq<RequestModel>,
    k: int,
)
    requires
        p.data.len() <= usize::MAX,
        p.exports.len() + others.len() < usize::MAX,
        template.exports.len() <= usize::MAX,
        0 <= k < targets.len() == requests.len(),
        forall|m: int| k < m < targets.len() ==> #[trigger] targets[m] != targets[k],
        replacement_laws::has_list(p, targets[k] as int),
        package_laws::stands_behind_header(p.exports[targets[k] as int]),
        replacement_laws::stands_alone(p.exports, targets, targets[k] as int),
        replacement_laws::with_all_pixels(p, targets, requests, targets.len())
            == Ok::<PackageModel, Seq<char>>(
            middle,
        ),
        adding::with_added(middle, template, group, others) matches Ok((grown, _)) && {
            &&& grown.data.len() <= usize::MAX
            &&& adding::import_edits(grown, requests, targets, targets.len()) matches Ok(edits)
            &&& edits::edited_in_place_all(grown, edits, edits.len()) is Ok
        },
    ensures
        ({
            let index = targets[k] as int;
            let (grown, _) = adding::with_added(middle, template, group, others)->Ok_0;
            let edits = adding::import_edits(grown, requests, targets, targets.len())->Ok_0;
            let after = edits::edited_in_place_all(grown, edits, edits.len())->Ok_0;
            &&& edits::import_edit_of(grown, requests[k], index) matches Ok(wanted)
            &&& replacement_laws::holds_replacement(p, after, index, requests[k], wanted)
            &&& after.exports[index] == p.exports[index]
        }),
{
    let e = Dialect::Engine;
    let n = targets.len();
    let index = targets[k] as int;
    let export = p.exports[index];
    let raw = package::data_of(e, p.data, export)->Ok_0;
    let stream = properties::stream_from(raw, p.names, 0)->Ok_0;
    let (grown, _) = adding::with_added(middle, template, group, others)->Ok_0;
    let edits = adding::import_edits(grown, requests, targets, n)->Ok_0;
    let after = edits::edited_in_place_all(grown, edits, edits.len())->Ok_0;
    replacement_laws::stored_textures_keep_their_list(p, targets, requests, k);
    replacement_laws::pixels_keep_outside(p, targets, requests, n);
    replacement_laws::last_is_last(targets, n, k);
    let object = package::data_of(e, middle.data, export)->Ok_0;
    additions_keep_tables(middle, template, group, others);
    adding_laws::additions_keep_objects(middle, template, group, others, index);
    assert(package::data_of(e, grown.data, grown.exports[index])
        == Ok::<Seq<u8>, Seq<char>>(object));
    image_laws::lists_keep_their_end(p.names, grown.names, object, 0);
    replacement_laws::edits_of_requests(grown, requests, targets, n, index);
    assert forall|j: int|
        0 <= j < edits.len() && (#[trigger] edits[j]).0 < grown.exports.len() && edits[j].0
            != index implies replacement_laws::stand_apart(
        grown.exports[edits[j].0 as int],
        grown.exports[index],
    ) by {
        let m = choose|m: int| 0 <= m < n && edits[j].0 == #[trigger] targets[m];
        assert(replacement_laws::stand_apart(p.exports[targets[m] as int], export));
    }
    replacement_laws::last_edits_in_place_show(grown, edits, edits.len(), index);
    replacement_laws::edits_in_place_keep_outside(grown, edits, edits.len());
    let last = package::data_of(e, after.data, export)->Ok_0;
    replacement_laws::pixels_stay(p, index, object, last, requests[k].image, stream.tail_offset);
}

pub proof fn none_is_last(targets: Seq<usize>, n: nat, index: int)
    requires
        n <= targets.len(),
        forall|m: int| 0 <= m < n ==> #[trigger] targets[m] != index,
    ensures
        replacement_laws::last_of(targets, n, index) is None,
    decreases n,
{
    if n > 0 {
        none_is_last(targets, (n - 1) as nat, index);
    }
}

/// Edits in place keep an object that no edited one has a byte in common with.
proof fn edits_in_place_keep_object(
    p: PackageModel,
    edits: Seq<(usize, TextureEditorEdit)>,
    index: int,
)
    requires
        0 <= index < p.exports.len(),
        edits::edited_in_place_all(p, edits, edits.len()) is Ok,
        forall|j: int|
            0 <= j < edits.len() && (#[trigger] edits[j]).0 < p.exports.len()
                ==> replacement_laws::stand_apart(
                p.exports[edits[j].0 as int],
                p.exports[index],
            ),
    ensures
        ({
            let after = edits::edited_in_place_all(p, edits, edits.len())->Ok_0;
            &&& after == (PackageModel { data: after.data, ..p })
            &&& package::data_of(Dialect::Engine, p.data, p.exports[index]) is Ok
                ==> package::data_of(
                Dialect::Engine,
                after.data,
                p.exports[index],
            ) == package::data_of(Dialect::Engine, p.data, p.exports[index])
        }),
{
    replacement_laws::edits_in_place_keep_outside(p, edits, edits.len());
    let after = edits::edited_in_place_all(p, edits, edits.len())->Ok_0;
    let export = p.exports[index];
    if let Ok(raw) = package::data_of(Dialect::Engine, p.data, export) {
        let base = export.offset as int;
        assert forall|k: int| base <= k < base + export.size implies #[trigger] after.data[k]
            == p.data[k] by {
            assert forall|j: int|
                0 <= j < edits.len() && (#[trigger] edits[j]).0 < p.exports.len()
                    implies !replacement_laws::in_object(
                p.exports[edits[j].0 as int],
                k,
            ) by {
                assert(replacement_laws::stand_apart(p.exports[edits[j].0 as int], export));
            }
        }
        assert(after.data.subrange(base, base + export.size) =~= p.data.subrange(
            base,
            base + export.size,
        ));
    }
}

/// An import keeps every object that it does not replace, with its index, its place and
/// its bytes, as long as it has no byte in common with a replaced one.
#[verifier::spinoff_prover]
#[verifier::rlimit(60)]
pub proof fn imports_keep_objects(
    p: PackageModel,
    template: PackageModel,
    group: Seq<char>,
    requests: Seq<RequestModel>,
    index: int,
)
    requires
        p.data.len() <= usize::MAX,
        p.exports.len() + requests.len() < usize::MAX,
        template.exports.len() <= usize::MAX,
        0 <= index < p.exports.len(),
        forall|j: int|
            0 <= j < requests.len() ==> texture_engine::existing_of(
                tables::texture_keys(p, p.exports.len())->Ok_0,
                group,
                #[trigger] requests[j],
            ) != Some(index),
        package_laws::stands_behind_header(p.exports[index]),
        replaced_apart(p, group, requests, index),
        texture_engine::imported(p, template, group, requests) matches Ok((after, _))
            && after.data.len()
            <= usize::MAX,
    ensures
        ({
            let (after, _) = texture_engine::imported(p, template, group, requests)->Ok_0;
            &&& property_laws::extends(p.names, after.names)
            &&& after.exports[index] == p.exports[index]
            &&& package_laws::object_kept(p, after, index)
        }),
{
    let e = Dialect::Engine;
    let keys = tables::texture_keys(p, p.exports.len())->Ok_0;
    let (after, _) = texture_engine::imported(p, template, group, requests)->Ok_0;
    let (sorted, grown, _, edits) = import_parts(p, template, group, requests);
    let targets = sorted.targets;
    let middle = sorted.package;
    sorted_in_turn(p, group, requests, requests.len(), 0, index);
    apart_stand_alone(p, group, requests, targets, index);
    replacement_laws::pixels_keep_outside(p, targets, sorted.replaced, targets.len());
    assert forall|m: int| 0 <= m < targets.len() implies #[trigger] targets[m] != index by {
        let j = choose|j: int|
            0 <= j < requests.len()
                && texture_engine::existing_of(keys, group, #[trigger] requests[j]) == Some(
                targets[m] as int,
            );
        assert(texture_engine::existing_of(keys, group, requests[j]) != Some(index));
    }
    none_is_last(targets, targets.len(), index);
    replacement_laws::edits_in_place_keep_outside(grown, edits, edits.len());
    additions_keep_tables(middle, template, group, sorted.added);
    adding_laws::additions_keep_objects(middle, template, group, sorted.added, index);
    replacement_laws::edits_of_requests(grown, sorted.replaced, targets, targets.len(), index);
    assert forall|j: int|
        0 <= j < edits.len() && (#[trigger] edits[j]).0 < grown.exports.len()
            implies replacement_laws::stand_apart(
        grown.exports[edits[j].0 as int],
        grown.exports[index],
    ) by {
        let m = choose|m: int| 0 <= m < targets.len() && edits[j].0 == #[trigger] targets[m];
        assert(replacement_laws::stand_apart(p.exports[targets[m] as int], p.exports[index]));
    }
    edits_in_place_keep_object(grown, edits, index);
    if package::data_of(e, p.data, p.exports[index]) is Ok {
        replacement_laws::pixels_are_stored(p, targets, sorted.replaced, targets.len(), index);
    }
}

/// The objects of new textures stand behind the data that was there.
proof fn built_stand_behind(
    p: PackageModel,
    template: PackageModel,
    group: Seq<char>,
    outer: i32,
    start: Adding,
    requests: Seq<RequestModel>,
    n: nat,
)
    ensures
        adding::with_textures(p, template, group, outer, start, requests, n) matches Ok(state) ==> {
            &&& state.exports.len() == start.exports.len() + n
            &&& forall|k: int|
                start.exports.len() <= k < state.exports.len() ==> (
                #[trigger] state.exports[k]).offset >= p.data.len()
        },
    decreases n,
{
    if n > 0 {
        let m = (n - 1) as nat;
        built_stand_behind(p, template, group, outer, start, requests, m);
        if let Ok(state) = adding::with_textures(p, template, group, outer, start, requests, n) {
            reveal(adding::with_texture);
            reveal(adding::with_built);
            let before = adding::with_textures(p, template, group, outer, start, requests, m)->Ok_0;
            let last = state.exports.last();
            assert(state.exports =~= before.exports.push(last));
            assert(last.offset == p.data.len() + before.appended.len());
            assert forall|k: int|
                start.exports.len() <= k < state.exports.len() implies (
            #[trigger] state.exports[k]).offset >= p.data.len() by {
                if k < before.exports.len() {
                    assert(state.exports[k] == before.exports[k]);
                }
            }
        }
    }
}

proof fn placed_stay_behind(
    data: Seq<u8>,
    exports: Seq<ExportEntry>,
    done: Seq<RewrittenModel>,
    n: nat,
    k: int,
    bound: int,
)
    requires
        n <= done.len(),
        0 <= k < exports.len(),
        bound <= data.len(),
        bound <= exports[k].offset,
        forall|i: int| 0 <= i < done.len() ==> 0 <= (#[trigger] done[i]).index < exports.len(),
    ensures
        edits::placed(data, exports, done, n) matches Ok((d, entries)) ==> {
            &&& entries.len() == exports.len()
            &&& bound <= entries[k].offset
            &&& data.len() <= d.len()
        },
    decreases n,
{
    if n > 0 {
        placed_stay_behind(data, exports, done, (n - 1) as nat, k, bound);
    }
}

/// What an import adds stands behind the data that was there.
#[verifier::spinoff_prover]
#[verifier::rlimit(40)]
proof fn added_stand_behind(
    p: PackageModel,
    template: PackageModel,
    group: Seq<char>,
    requests: Seq<RequestModel>,
    i: int,
)
    requires
        0 <= i < requests.len(),
        p.exports.len() + requests.len() < usize::MAX,
        template.exports.len() <= usize::MAX,
        adding::with_added(p, template, group, requests) matches Ok((after, _)) && after.data.len()
            <= usize::MAX,
    ensures
        ({
            let (after, outcomes) = adding::with_added(p, template, group, requests)->Ok_0;
            let index = outcomes[i].export_index;
            &&& p.exports.len() <= index < after.exports.len()
            &&& p.data.len() <= after.exports[index as int].offset
        }),
{
    let n = requests.len();
    import_laws::built_textures_are_asked_for(p, template, group, requests);
    import_laws::added_after_built(p, template, group, requests);
    let (built, first) = adding::built_with(p, template, group, requests)->Ok_0;
    let place = texture_engine::with_outer(p, group)->Ok_0;
    built_stand_behind(p, template, group, place.outer, adding::start_of(place, p, group), requests, n);
    let index = first + i;
    assert(p.data.len() <= built.exports[index].offset);
    let edits = adding::import_edits(built, requests, adding::new_targets(first, n), n)->Ok_0;
    file_laws::edited_data_is_longer(built, edits);
    edited_stay_behind(built, edits, index, p.data.len() as int);
}

proof fn edited_stay_behind(
    p: PackageModel,
    edits: Seq<(usize, TextureEditorEdit)>,
    k: int,
    bound: int,
)
    requires
        0 <= k < p.exports.len(),
        bound <= p.data.len(),
        bound <= p.exports[k].offset,
        edits::edited(p, edits) is Ok,
    ensures
        ({
            let after = edits::edited(p, edits)->Ok_0;
            k < after.exports.len() && bound <= after.exports[k].offset
        }),
{
    reveal(edits::edited);
    if edits.len() > 0 {
        let n = edits.len();
        let (_, done) = edits::rewritten_textures(p, edits, n)->Ok_0;
        adding_laws::rewritten_in_turn(p, edits, n);
        assert forall|i: int| 0 <= i < done.len() implies 0 <= (#[trigger] done[i]).index
            < p.exports.len() by {}
        placed_stay_behind(p.data, p.exports, done, done.len(), k, bound);
    }
}

/// The requests that add textures, in their order.
proof fn additions_in_turn(
    p: PackageModel,
    keys: Seq<KeyModel>,
    group: Seq<char>,
    requests: Seq<RequestModel>,
    n: nat,
    i: int,
)
    requires
        0 <= i < n <= requests.len(),
        texture_engine::sorted_requests(p, keys, group, requests, n) is Ok,
        texture_engine::existing_of(keys, group, requests[i]) is None,
    ensures
        ({
            let sorted = texture_engine::sorted_requests(p, keys, group, requests, n)->Ok_0;
            let a = texture_engine::additions_before(keys, group, requests, i as nat) as int;
            &&& sorted.added.len() == texture_engine::additions_before(keys, group, requests, n)
            &&& a < sorted.added.len()
            &&& sorted.added[a] == requests[i]
        }),
    decreases n,
{
    let m = (n - 1) as nat;
    sorted_additions_are_counted(p, keys, group, requests, m);
    if i < m {
        additions_in_turn(p, keys, group, requests, m, i);
    }
}

proof fn sorted_additions_are_counted(
    p: PackageModel,
    keys: Seq<KeyModel>,
    group: Seq<char>,
    requests: Seq<RequestModel>,
    n: nat,
)
    ensures
        texture_engine::sorted_requests(p, keys, group, requests, n) matches Ok(sorted)
            ==> sorted.added.len()
            == texture_engine::additions_before(keys, group, requests, n),
    decreases n,
{
    if n > 0 {
        sorted_additions_are_counted(p, keys, group, requests, (n - 1) as nat);
    }
}

/// A texture that an import adds beside others that it replaces holds its image and the
/// properties that were asked for with it. As for an import that only adds, left out for
/// the image is a package that is named like a word of the layout and whose template has
/// a texture with a property that goes by the template's own name.
#[verifier::spinoff_prover]
#[verifier::rlimit(60)]
pub proof fn imported_additions_hold(
    p: PackageModel,
    template: PackageModel,
    group: Seq<char>,
    requests: Seq<RequestModel>,
    i: int,
)
    requires
        36 <= p.data.len() <= usize::MAX,
        template.data.len() <= usize::MAX,
        p.exports.len() + requests.len() < usize::MAX,
        template.exports.len() <= usize::MAX,
        0 <= i < requests.len(),
        texture_engine::existing_of(tables::texture_keys(p, p.exports.len())->Ok_0, group, requests[i]) is None,
        texture_engine::imported(p, template, group, requests) matches Ok((after, _))
            && after.data.len()
            <= usize::MAX,
    ensures
        ({
            let (after, outcomes) = texture_engine::imported(p, template, group, requests)->Ok_0;
            let (sorted, _, _, _) = import_parts(p, template, group, requests);
            let (built, _) = adding::built_with(sorted.package, template, group, sorted.added)->Ok_0;
            let index = outcomes[i].export_index as int;
            &&& outcomes[i].added
            &&& p.exports.len() <= index < after.exports.len()
            &&& image_laws::own_name_fits(p, template)
                ==> image_laws::holds_image(after, index, requests[i].image)
            &&& edits::import_edit_of(built, requests[i], index) matches Ok(wanted)
            &&& wanted matches Some(edit) ==> import_laws::holds_edit(after, index, edit)
        }),
{
    let e = Dialect::Engine;
    let keys = tables::texture_keys(p, p.exports.len())->Ok_0;
    let (after, outcomes) = texture_engine::imported(p, template, group, requests)->Ok_0;
    let (sorted, grown, added, edits) = import_parts(p, template, group, requests);
    let targets = sorted.targets;
    let middle = sorted.package;
    let n = requests.len();
    let a = texture_engine::additions_before(keys, group, requests, i as nat) as int;
    sorted_in_turn(p, group, requests, n, i, 0);
    additions_in_turn(p, keys, group, requests, n, i);
    replacement_laws::pixels_keep_outside(p, targets, sorted.replaced, targets.len());
    replacement_laws::edits_in_place_keep_outside(grown, edits, edits.len());
    additions_keep_tables(middle, template, group, sorted.added);
    import_laws::added_textures_hold_their_properties(middle, template, group, sorted.added, a);
    added_stand_behind(middle, template, group, sorted.added, a);
    let index = outcomes[i].export_index as int;
    assert(outcomes[i] == added[a]);
    replacement_laws::edits_of_requests(grown, sorted.replaced, targets, targets.len(), index);
    assert forall|j: int|
        0 <= j < edits.len() && (#[trigger] edits[j]).0 < grown.exports.len()
            implies replacement_laws::stand_apart(
        grown.exports[edits[j].0 as int],
        grown.exports[index],
    ) by {
        let m = choose|m: int| 0 <= m < targets.len() && edits[j].0 == #[trigger] targets[m];
        assert(package::data_of(e, p.data, p.exports[targets[m] as int]) is Ok);
    }
    edits_in_place_keep_object(grown, edits, index);
    if image_laws::own_name_fits(p, template) {
        assert(image_laws::own_name_fits(middle, template));
        image_laws::added_textures_show_their_images(middle, template, group, sorted.added, a);
        assert(edits::mip_of(after, index) == edits::mip_of(grown, index));
    }
    assert(outcomes[i].added) by {
        import_laws::added_after_built(middle, template, group, sorted.added);
    }
}

} // verus!
