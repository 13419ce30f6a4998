//! What holds of written package files: the package that an operation makes is
//! the one that is read from its file.

use vstd::prelude::*;
use crate::adding::Adding;
use crate::edits::{RequestModel, RewrittenModel};
use crate::listing::EntryModel;
use crate::names::NameModel;
use crate::package::{ExportEntry, ImportEntry, PackageModel};
use crate::properties::TextureEditorEdit;
use crate::reader::Dialect;
use crate::tables::{LimitTexts, Places};
use crate::texture_engine::OuterModel;
use crate::adding;
use crate::appending;
use crate::bytes;
use crate::edits;
use crate::layout;
use crate::listing;
use crate::names;
use crate::package;
use crate::package_laws;
use crate::properties;
use crate::property_laws;
use crate::session;
use crate::tables;
use crate::text;
use crate::texture_engine;
use crate::paths;
use crate::reader;

verus! {

/// An export as a table holds it, which stores no place for objects without
/// bytes.
pub open spec fn stored_export(entry: ExportEntry) -> ExportEntry {
    if entry.size == 0 {
        ExportEntry { offset: 0, ..entry }
    } else {
        entry
    }
}

pub open spec fn stored_exports(entries: Seq<ExportEntry>) -> Seq<ExportEntry> {
    entries.map_values(|entry: ExportEntry| stored_export(entry))
}

/// Whether a package is another as its tables hold it. Where the table of names
/// stands does not count.
pub open spec fn same_tables(a: PackageModel, b: PackageModel) -> bool {
    a == (PackageModel {
        name_offset: a.name_offset,
        exports: stored_exports(b.exports),
        ..b
    })
}

/// Whether a table can hold an export.
pub open spec fn fits_table(entry: ExportEntry, name_count: int) -> bool {
    0 <= entry.name_index < name_count && entry.size >= 0
}

pub open spec fn fit_table(entries: Seq<ExportEntry>, name_count: int) -> bool {
    forall|i: int| 0 <= i < entries.len() ==> fits_table(#[trigger] entries[i], name_count)
}

/// A table stores the same for exports and for what it holds of them.
proof fn stored_exports_are_written_alike(entries: Seq<ExportEntry>)
    requires
        forall|i: int| 0 <= i < entries.len() ==> (#[trigger] entries[i]).size >= 0,
    ensures
        package::exports_bytes(stored_exports(entries)) == package::exports_bytes(entries),
    decreases entries.len(),
{
    let stored = stored_exports(entries);
    if entries.len() > 0 {
        assert forall|i: int| 0 <= i < entries.drop_last().len() implies (
        #[trigger] entries.drop_last()[i]).size >= 0 by {
            assert(entries.drop_last()[i] == entries[i]);
        }
        stored_exports_are_written_alike(entries.drop_last());
        assert(stored.drop_last() =~= stored_exports(entries.drop_last()));
        assert(entries[entries.len() - 1].size >= 0);
        assert(package::export_bytes(stored.last()) =~= package::export_bytes(entries.last()));
    } else {
        assert(stored =~= entries);
    }
}

/// Whether a package is the one that is read from its data.
pub open spec fn is_read(dialect: Dialect, p: PackageModel) -> bool {
    &&& p.data.len() <= usize::MAX
    &&& package::package_of(dialect, p.data) matches Ok(q)
    &&& same_tables(q, p)
}

proof fn exports_are_counted(d: Seq<u8>, p: int, n: nat, name_count: int)
    ensures
        package::exports_from(Dialect::Engine, d, p, n, name_count, false) matches Ok((found, _))
            ==> found.len() == n,
    decreases n,
{
    if n > 0 {
        if let Ok((_, q)) = package::export_at(Dialect::Engine, d, p, name_count, false) {
            exports_are_counted(d, q, (n - 1) as nat, name_count);
        }
    }
}

/// A package that was read has no more exports than its header can tell.
pub proof fn exports_are_few(d: Seq<u8>)
    ensures
        package::package_of(Dialect::Engine, d) matches Ok(p) ==> p.exports.len() <= i32::MAX,
{
    if let Ok(p) = package::package_of(Dialect::Engine, d) {
        let header = package::header_of(Dialect::Engine, d)->Ok_0;
        exports_are_counted(
            d,
            header.export_offset as int,
            header.export_count as nat,
            p.names.len() as int,
        );
    }
}

/// Both readers find the same header.
pub proof fn headers_are_read_alike(d: Seq<u8>)
    requires
        package::header_of(Dialect::Engine, d) is Ok,
    ensures
        package::header_of(Dialect::Frontend, d) == package::header_of(Dialect::Engine, d),
{
}

/// A rebuilt package is read by both readers.
proof fn rebuilt_is_read(
    p: PackageModel,
    data: Seq<u8>,
    names: Seq<NameModel>,
    imports: Seq<ImportEntry>,
    exports: Seq<ExportEntry>,
)
    requires
        package::header_of(Dialect::Engine, data) matches Ok(header) && p.version == header.version
            && p.licensee == header.licensee,
        fit_table(exports, names.len() as int),
        tables::rebuilt(p, data, names, imports, exports) matches Ok(after) && after.data.len()
            <= usize::MAX,
    ensures
        ({
            let after = tables::rebuilt(p, data, names, imports, exports)->Ok_0;
            is_read(Dialect::Engine, after) && is_read(Dialect::Frontend, after)
        }),
{
    let stored = stored_exports(exports);
    assert forall|i: int| 0 <= i < exports.len() implies (#[trigger] exports[i]).size >= 0 by {
        assert(fits_table(exports[i], names.len() as int));
    }
    stored_exports_are_written_alike(exports);
    assert forall|i: int| 0 <= i < stored.len() implies package::storable_export(
        #[trigger] stored[i],
        names.len() as int,
    ) by {
        assert(fits_table(exports[i], names.len() as int));
    }
    headers_are_read_alike(data);
    assert(tables::rebuilt_data(Dialect::Engine, data, names, imports, stored)
        == tables::rebuilt_data(Dialect::Engine, data, names, imports, exports));
    tables::rebuilt_package_is_read_back(Dialect::Engine, data, names, imports, stored);
    tables::rebuilt_package_is_read_back(Dialect::Frontend, data, names, imports, stored);
}

proof fn interned_is_stored(names: Seq<NameModel>, name: Seq<char>)
    ensures
        names::interned(names, name) matches Ok((more, index)) ==> 0 <= index < more.len()
            && names.len() <= more.len(),
{
    package_laws::interned_extends(names, name);
}

/// The package that a rename makes is the one that both readers find in the written
/// file.
pub proof fn written_renames_are_read(d: Seq<u8>, index: int, name: Seq<char>)
    requires
        0 <= index,
        texture_engine::renamed_in_file(d, index, name) matches Ok(written) && written.len()
            <= usize::MAX,
    ensures
        ({
            let written = texture_engine::renamed_in_file(d, index, name)->Ok_0;
            let p = package::package_of(Dialect::Engine, d)->Ok_0;
            &&& texture_engine::renamed(p, index, name) matches Ok(after)
            &&& after.data == written
            &&& is_read(Dialect::Engine, after)
            &&& is_read(Dialect::Frontend, after)
        }),
{
    let p = package::package_of(Dialect::Engine, d)->Ok_0;
    package_laws::read_packages_are_storable(d);
    interned_is_stored(p.names, name);
    let (names, name_index) = names::interned(p.names, name)->Ok_0;
    let exports = p.exports.update(index, ExportEntry { name_index, ..p.exports[index] });
    assert forall|k: int| 0 <= k < exports.len() implies fits_table(
        #[trigger] exports[k],
        names.len() as int,
    ) by {
        assert(fits_table(p.exports[k], p.names.len() as int));
    }
    rebuilt_is_read(p, d, names, p.imports, exports);
}

proof fn template_is_an_export(p: PackageModel, from: int)
    ensures
        tables::group_template(Dialect::Engine, p, from) matches Some(i) ==> 0 <= i
            < p.exports.len(),
    decreases p.exports.len() - from,
{
    if 0 <= from < p.exports.len() {
        template_is_an_export(p, from + 1);
    }
}

/// The tables in which a group has its place can be stored.
proof fn groups_are_storable(p: PackageModel, group: Seq<char>)
    requires
        fit_table(p.exports, p.names.len() as int),
    ensures
        texture_engine::with_outer(p, group) matches Ok(place) ==> fit_table(
            place.exports,
            place.names.len() as int,
        ),
{
    if let Ok(place) = texture_engine::with_outer(p, group) {
        package_laws::outer_keeps_tables(p, group);
        template_is_an_export(p, 0);
        interned_is_stored(p.names, group);
        if let Ok((n1, _)) = names::interned(p.names, group) {
            interned_is_stored(n1, "Core"@);
            if let Ok((n2, _)) = names::interned(n1, "Core"@) {
                interned_is_stored(n2, "Package"@);
                if let Ok((n3, _)) = names::interned(n2, "Package"@) {
                    interned_is_stored(n3, "Class"@);
                }
            }
        }
        let count = p.exports.len() as int;
        assert forall|k: int| 0 <= k < place.exports.len() implies fits_table(
            #[trigger] place.exports[k],
            place.names.len() as int,
        ) by {
            if k < count {
                assert(fits_table(p.exports[k], p.names.len() as int));
            } else if let Some(i) = tables::group_template(Dialect::Engine, p, 0) {
                assert(fits_table(p.exports[i], p.names.len() as int));
            }
        }
    }
}

/// The package that a duplication makes is the one that both readers find in the
/// written file.
#[verifier::spinoff_prover]
#[verifier::rlimit(40)]
pub proof fn written_duplicates_are_read(
    d: Seq<u8>,
    index: int,
    group: Seq<char>,
    name: Seq<char>,
)
    requires
        0 <= index,
        d.len() <= usize::MAX,
        texture_engine::duplicated_in_file(d, index, group, name) matches Ok((after, _))
            && after.data.len() <= usize::MAX,
    ensures
        ({
            let (after, _) = texture_engine::duplicated_in_file(d, index, group, name)->Ok_0;
            is_read(Dialect::Engine, after) && is_read(Dialect::Frontend, after)
        }),
{
    let (after, i) = texture_engine::duplicated_in_file(d, index, group, name)->Ok_0;
    let p = package::package_of(Dialect::Engine, d)->Ok_0;
    package_laws::read_packages_are_storable(d);
    groups_are_storable(p, group);
    let place = texture_engine::with_outer(p, group)->Ok_0;
    interned_is_stored(place.names, name);
    let raw = package::data_of(Dialect::Engine, p.data, p.exports[index])->Ok_0;
    let mip = edits::mip_of(p, index)->Ok_0;
    let layout = edits::package_layout(Dialect::Engine, p, raw)->Ok_0;
    layout::layout_bounds(Dialect::Engine, p.names, p.version, p.licensee, raw);
    layout::mip_bounds(Dialect::Engine, raw, layout.mip_count_offset as int);
    let at = (p.data.len() + place.bytes.len()) as int;
    let copy = texture_engine::relocated(raw, mip, at)->Ok_0;
    assert(copy.len() > 0);
    let more = place.bytes + copy;
    package_laws::header_of_longer(p.data, more);
    assert forall|k: int| 0 <= k < after.exports.len() implies fits_table(
        #[trigger] after.exports[k],
        after.names.len() as int,
    ) by {
        if k < place.exports.len() {
            assert(fits_table(place.exports[k], place.names.len() as int));
        }
    }
    rebuilt_is_read(p, p.data + more, after.names, place.imports, after.exports);
}


/// Whether a rewritten texture has a pointer behind its count of mip maps.
pub open spec fn has_pointer(one: RewrittenModel) -> bool {
    &&& one.mip_count_offset >= 0
    &&& one.mip.width_offset_position == one.mip.mip_count_offset + 1
}

/// A texture that is written anew can be pointed to its place.
pub proof fn rewritten_has_pointer(p: PackageModel, index: int, edit: TextureEditorEdit)
    requires
        0 <= index,
        p.data.len() <= usize::MAX,
    ensures
        edits::rewritten_texture(p, index, edit) matches Ok((names, one)) ==> {
            &&& p.names.len() <= names.len()
            &&& has_pointer(one)
            &&& 0 <= one.index < p.exports.len()
        },
{
    reveal(edits::rewritten_texture);
    if let Ok((names, _)) = edits::rewritten_texture(p, index, edit) {
        let raw = package::data_of(Dialect::Engine, p.data, p.exports[index])->Ok_0;
        let stream = properties::stream_from(raw, p.names, 0)->Ok_0;
        property_laws::read_properties_are_sound(raw, p.names, 0);
        property_laws::edits_show_and_keep_the_rest(p.names, stream.properties, edit);
        let more = PackageModel { names, ..p };
        let layout = edits::package_layout(Dialect::Engine, more, raw)->Ok_0;
        layout::layout_bounds(Dialect::Engine, names, p.version, p.licensee, raw);
        layout::mip_bounds(Dialect::Engine, raw, layout.mip_count_offset as int);
    }
}

proof fn all_have_pointers(p: PackageModel, edits: Seq<(usize, TextureEditorEdit)>, n: nat)
    requires
        p.data.len() <= usize::MAX,
    ensures
        edits::rewritten_textures(p, edits, n) matches Ok((names, done)) ==> {
            &&& p.names.len() <= names.len()
            &&& done.len() == n
            &&& forall|k: int|
                0 <= k < n ==> has_pointer(#[trigger] done[k]) && 0 <= done[k].index
                    < p.exports.len()
        },
    decreases n,
{
    if n > 0 {
        all_have_pointers(p, edits, (n - 1) as nat);
        if let Ok((names, _)) = edits::rewritten_textures(p, edits, (n - 1) as nat) {
            rewritten_has_pointer(
                PackageModel { names, ..p },
                edits[n - 1].0 as int,
                edits[n - 1].1,
            );
        }
    }
}

proof fn placed_are_storable(
    data: Seq<u8>,
    exports: Seq<ExportEntry>,
    done: Seq<RewrittenModel>,
    n: nat,
    name_count: int,
)
    requires
        n <= done.len(),
        fit_table(exports, name_count),
        forall|k: int|
            0 <= k < n ==> has_pointer(#[trigger] done[k]) && 0 <= done[k].index < exports.len(),
    ensures
        edits::placed(data, exports, done, n) matches Ok((_, entries)) ==> entries.len()
            == exports.len() && fit_table(entries, name_count),
    decreases n,
{
    if n > 0 {
        placed_are_storable(data, exports, done, (n - 1) as nat, name_count);
        if let Ok((_, entries)) = edits::placed(data, exports, done, n) {
            let (d, before) = edits::placed(data, exports, done, (n - 1) as nat)->Ok_0;
            let one = done[n - 1];
            let bytes = edits::pointed(one, d.len() as int)->Ok_0;
            assert(bytes.len() > 0);
            assert forall|k: int| 0 <= k < entries.len() implies fits_table(
                #[trigger] entries[k],
                name_count,
            ) by {
                assert(fits_table(before[k], name_count));
            }
        }
    }
}

/// The package that edits of textures make is the one that is read from its data.
#[verifier::spinoff_prover]
#[verifier::rlimit(40)]
pub proof fn edited_packages_are_read(p: PackageModel, edits: Seq<(usize, TextureEditorEdit)>)
    requires
        is_read(Dialect::Engine, p),
        edits::edited(p, edits) matches Ok(after) && after.data.len() <= usize::MAX,
    ensures
        is_read(Dialect::Engine, edits::edited(p, edits)->Ok_0),
        edits.len() > 0 || is_read(Dialect::Frontend, p) ==> is_read(
            Dialect::Frontend,
            edits::edited(p, edits)->Ok_0,
        ),
{
    reveal(edits::edited);
    if edits.len() > 0 {
        let after = edits::edited(p, edits)->Ok_0;
        package_laws::read_packages_are_storable(p.data);
        let held = package::package_of(Dialect::Engine, p.data)->Ok_0.exports;
        assert forall|k: int| 0 <= k < p.exports.len() implies fits_table(
            #[trigger] p.exports[k],
            p.names.len() as int,
        ) by {
            assert(held[k] == stored_export(p.exports[k]));
        }
        let (names, done) = edits::rewritten_textures(p, edits, edits.len())->Ok_0;
        let (data, exports) = edits::placed(p.data, p.exports, done, done.len())->Ok_0;
        all_have_pointers(p, edits, edits.len());
        assert(fit_table(p.exports, names.len() as int)) by {
            assert forall|k: int| 0 <= k < p.exports.len() implies fits_table(
                #[trigger] p.exports[k],
                names.len() as int,
            ) by {
                assert(fits_table(p.exports[k], p.names.len() as int));
            }
        }
        placed_are_storable(p.data, p.exports, done, done.len(), names.len() as int);
        package_laws::placed_behind(p.data, p.exports, done, done.len());
        let more = data.skip(p.data.len() as int);
        assert(data =~= p.data + more);
        package_laws::header_of_longer(p.data, more);
        rebuilt_is_read(p, data, names, p.imports, exports);
    }
}

/// Whether the indices that are remembered of names lie in their table.
pub open spec fn has_indices(index: Map<Seq<char>, i32>, name_count: int) -> bool {
    forall|key: Seq<char>|
        index.contains_key(key) ==> 0 <= #[trigger] index[key] && index[key] < name_count
}

proof fn names_have_indices(names: Seq<NameModel>)
    ensures
        has_indices(adding::names_map(names), names.len() as int),
    decreases names.len(),
{
    if names.len() > 0 {
        names_have_indices(names.drop_last());
    }
}

proof fn textures_are_storable(
    p: PackageModel,
    template: PackageModel,
    group: Seq<char>,
    outer: i32,
    start: Adding,
    requests: Seq<RequestModel>,
    n: nat,
)
    requires
        fit_table(start.exports, start.names.len() as int),
        has_indices(start.index, start.names.len() as int),
    ensures
        adding::with_textures(p, template, group, outer, start, requests, n) matches Ok(state) ==> {
            &&& fit_table(state.exports, state.names.len() as int)
            &&& has_indices(state.index, state.names.len() as int)
        },
    decreases n,
{
    if n > 0 {
        textures_are_storable(p, template, group, outer, start, requests, (n - 1) as nat);
        if let Ok(state) = adding::with_textures(
            p,
            template,
            group,
            outer,
            start,
            requests,
            n,
        ) {
            reveal(adding::with_texture);
            reveal(adding::with_built);
            let before = adding::with_textures(
                p,
                template,
                group,
                outer,
                start,
                requests,
                (n - 1) as nat,
            )->Ok_0;
            let (names, index, name_index) = adding::interned_indexed(
                before.names,
                before.index,
                requests[n - 1].name,
            )->Ok_0;
            assert(names.len() >= before.names.len() && 0 <= name_index < names.len());
            assert(has_indices(index, names.len() as int));
            assert(state.names == names && state.index == index);
            let last = state.exports.last();
            assert(last.size > 0 && last.name_index == name_index);
            assert forall|k: int| 0 <= k < state.exports.len() implies fits_table(
                #[trigger] state.exports[k],
                state.names.len() as int,
            ) by {
                if k < before.exports.len() {
                    assert(fits_table(before.exports[k], before.names.len() as int));
                }
            }
        }
    }
}

/// The package with the objects of new textures, before their properties are set,
/// is the one that both readers find in its data.
#[verifier::spinoff_prover]
#[verifier::rlimit(60)]
proof fn built_additions_are_read(
    p: PackageModel,
    template: PackageModel,
    group: Seq<char>,
    requests: Seq<RequestModel>,
    place: OuterModel,
    state: Adding,
)
    requires
        package::package_of(Dialect::Engine, p.data) == Ok::<PackageModel, Seq<char>>(p),
        texture_engine::with_outer(p, group) == Ok::<OuterModel, Seq<char>>(place),
        adding::with_textures(
            p,
            template,
            group,
            place.outer,
            adding::start_of(place, p, group),
            requests,
            requests.len(),
        ) == Ok::<Adding, Seq<char>>(state),
        tables::rebuilt(
            p,
            p.data + state.appended,
            state.names,
            place.imports,
            state.exports,
        ) matches Ok(built) && built.data.len() <= usize::MAX,
    ensures
        ({
            let built = tables::rebuilt(
                p,
                p.data + state.appended,
                state.names,
                place.imports,
                state.exports,
            )->Ok_0;
            is_read(Dialect::Engine, built) && is_read(Dialect::Frontend, built)
        }),
{
    let start = adding::start_of(place, p, group);
    package_laws::read_packages_are_storable(p.data);
    assert forall|k: int| 0 <= k < p.exports.len() implies fits_table(
        #[trigger] p.exports[k],
        p.names.len() as int,
    ) by {
        assert(package::storable_export(p.exports[k], p.names.len() as int));
    }
    groups_are_storable(p, group);
    names_have_indices(p.names);
    package_laws::outer_keeps_tables(p, group);
    names::find_name_is_first(place.names, group, 0);
    assert(has_indices(start.index, start.names.len() as int));
    textures_are_storable(p, template, group, place.outer, start, requests, requests.len());
    package_laws::header_of_longer(p.data, state.appended);
    rebuilt_is_read(p, p.data + state.appended, state.names, place.imports, state.exports);
}

/// The package that new textures are added to is the one that both readers find in
/// the written file.
#[verifier::spinoff_prover]
#[verifier::rlimit(40)]
pub proof fn written_additions_are_read(
    d: Seq<u8>,
    template: Seq<u8>,
    group: Seq<char>,
    requests: Seq<RequestModel>,
)
    requires
        d.len() <= usize::MAX,
        texture_engine::added_to_file(d, template, group, requests) matches Ok((after, _))
            && after.data.len() <= usize::MAX,
    ensures
        is_read(
            Dialect::Engine,
            texture_engine::added_to_file(d, template, group, requests)->Ok_0.0,
        ),
        requests.len() > 0 ==> is_read(
            Dialect::Frontend,
            texture_engine::added_to_file(d, template, group, requests)->Ok_0.0,
        ),
{
    reveal(adding::with_added);
    let p = package::package_of(Dialect::Engine, d)->Ok_0;
    let t = package::package_of(Dialect::Engine, template)->Ok_0;
    package_laws::read_packages_are_storable(d);
    if requests.len() > 0 {
        let place = texture_engine::with_outer(p, group)->Ok_0;
        let start = adding::start_of(place, p, group);
        let state = adding::with_textures(
            p,
            t,
            group,
            place.outer,
            start,
            requests,
            requests.len(),
        )->Ok_0;
        let data = p.data + state.appended;
        let built = tables::rebuilt(p, data, state.names, place.imports, state.exports)->Ok_0;
        let targets = adding::new_targets(place.exports.len() as int, requests.len());
        let edits = adding::import_edits(built, requests, targets, requests.len())->Ok_0;
        edited_data_is_longer(built, edits);
        built_additions_are_read(p, t, group, requests, place, state);
        edited_packages_are_read(built, edits);
    } else {
        assert forall|k: int| 0 <= k < p.exports.len() implies stored_export(
            #[trigger] p.exports[k],
        ) == p.exports[k] by {
            assert(package::storable_export(p.exports[k], p.names.len() as int));
        }
        assert(stored_exports(p.exports) =~= p.exports);
    }
}

/// Edits only add to the data of a package.
pub proof fn edited_data_is_longer(p: PackageModel, edits: Seq<(usize, TextureEditorEdit)>)
    ensures
        edits::edited(p, edits) matches Ok(after) ==> p.data.len() <= after.data.len(),
{
    reveal(edits::edited);
    if edits.len() > 0 {
        if let Ok(_) = edits::edited(p, edits) {
            let (names, done) = edits::rewritten_textures(p, edits, edits.len())->Ok_0;
            let (data, exports) = edits::placed(p.data, p.exports, done, done.len())->Ok_0;
            package_laws::placed_behind(p.data, p.exports, done, done.len());
            package_laws::rebuilt_keeps_data(p, data, names, p.imports, exports);
        }
    }
}

/// The header of a file does not depend on what stands behind its 36 bytes.
proof fn headers_are_short(d: Seq<u8>, n: int)
    requires
        package::header_of(Dialect::Engine, d) is Ok,
        36 <= n <= d.len(),
    ensures
        package::header_of(Dialect::Engine, d.take(n)) == package::header_of(Dialect::Engine, d),
{
    let c = d.take(n);
    assert(c.subrange(0, 4) =~= d.subrange(0, 4));
    assert(c.subrange(4, 8) =~= d.subrange(4, 8));
    assert(c.subrange(12, 16) =~= d.subrange(12, 16));
    assert(c.subrange(16, 20) =~= d.subrange(16, 20));
    assert(c.subrange(20, 24) =~= d.subrange(20, 24));
    assert(c.subrange(24, 28) =~= d.subrange(24, 28));
    assert(c.subrange(28, 32) =~= d.subrange(28, 32));
    assert(c.subrange(32, 36) =~= d.subrange(32, 36));
}

/// Where each table stands is stored alike, whatever a refusal would say.
proof fn places_are_stored_alike(d: Seq<u8>, places: Places, a: LimitTexts, b: LimitTexts)
    requires
        tables::with_places(d, places, a) is Ok,
    ensures
        tables::with_places(d, places, b) == tables::with_places(d, places, a),
{
}

/// An emptied package is read by both readers: it has the names and imports of
/// its template, but for its own name, and no exports.
proof fn emptied_is_read(
    dialect: Dialect,
    template: Seq<u8>,
    old_name: Seq<char>,
    new_name: Seq<char>,
)
    requires
        package::package_of(Dialect::Engine, template) matches Ok(t) && 36 <= t.name_offset,
        texture_engine::empty_package_file(template, old_name, new_name) matches Ok(file)
            && file.len() <= usize::MAX,
    ensures
        ({
            let t = package::package_of(Dialect::Engine, template)->Ok_0;
            let file = texture_engine::empty_package_file(template, old_name, new_name)->Ok_0;
            &&& names::index_in(t.names, old_name) matches Some(own)
            &&& package::package_of(dialect, file) == Ok::<PackageModel, Seq<char>>(
                PackageModel {
                    data: file,
                    version: t.version,
                    licensee: t.licensee,
                    name_offset: t.name_offset,
                    names: t.names.update(
                        own as int,
                        NameModel { name: new_name, flags: t.names[own as int].flags },
                    ),
                    imports: t.imports,
                    exports: Seq::empty(),
                },
            )
        }),
{
    let t = package::package_of(Dialect::Engine, template)->Ok_0;
    let own = names::index_in(t.names, old_name)->Some_0;
    let names = t.names.update(
        own as int,
        NameModel { name: new_name, flags: t.names[own as int].flags },
    );
    let nt = names::names_bytes(Dialect::Engine, names)->Ok_0;
    let it = package::imports_bytes(t.imports);
    let head = template.take(t.name_offset as int);
    let none = Seq::<ExportEntry>::empty();
    let places = Places {
        name_count: names.len() as int,
        name_offset: head.len() as int,
        export_count: 0,
        export_offset: (head.len() + nt.len() + it.len()) as int,
        import_count: t.imports.len() as int,
        import_offset: (head.len() + nt.len()) as int,
    };
    places_are_stored_alike(
        head + nt + it,
        places,
        texture_engine::new_package_texts(),
        tables::rebuild_texts(),
    );
    assert(head + nt + it + package::exports_bytes(none) =~= head + nt + it);
    headers_are_short(template, t.name_offset as int);
    headers_are_read_alike(head);
    tables::rebuilt_package_is_read_back(dialect, head, names, t.imports, none);
}

/// Whether a package is a template emptied and named anew: it bears its name in the
/// place of the template's own, keeps the other names and the imports, and has no
/// exports, so that nothing is listed. Where the template has its own name once,
/// the new package does not have it any more.
pub open spec fn is_emptied(
    t: PackageModel,
    own_name: Seq<char>,
    name: Seq<char>,
    p: PackageModel,
) -> bool {
    let own = names::find_name(t.names, own_name, 0)->Some_0;
    &&& names::find_name(t.names, own_name, 0) is Some
    &&& p.version == t.version
    &&& p.licensee == t.licensee
    &&& p.exports.len() == 0
    &&& forall|shown: Seq<EntryModel>| #[trigger]
        listing::listed_in_order(listing::readable_entries(p, p.exports.len()), shown)
            ==> shown.len() == 0
    &&& p.imports == t.imports
    &&& 0 <= own < p.names.len() == t.names.len()
    &&& p.names[own] == (NameModel { name, flags: t.names[own].flags })
    &&& forall|k: int| 0 <= k < t.names.len() && k != own ==> #[trigger] p.names[k] == t.names[k]
    &&& !text::same_folded(name, own_name) && (forall|k: int|
        0 <= k < t.names.len() && k != own ==> !text::same_folded(
            #[trigger] t.names[k].name,
            own_name,
        )) ==> names::find_name(p.names, own_name, 0) is None
}

/// Whether a file is that of a new package after a template: both readers take it
/// as the template emptied and named anew, and the textures of the template can be
/// stored in it.
pub open spec fn is_new_package(template: Seq<u8>, name: Seq<char>, file: Seq<u8>) -> bool {
    &&& package::package_of(Dialect::Engine, template) matches Ok(t)
    &&& package::package_of(Dialect::Engine, file) matches Ok(p)
    &&& package::package_of(Dialect::Frontend, file) == Ok::<PackageModel, Seq<char>>(p)
    &&& p.data == file
    &&& bytes::i32_of(file.subrange(0, 4)) == package::PACKAGE_MAGIC
    &&& is_emptied(t, "UnrealTlp"@, name, p)
    &&& adding::compatible(p, t)
    &&& appending::takes_template(p, t)
}

/// An emptied package is read by both readers as its template, whatever that is
/// called, without exports and with another name of its own.
///
/// The template's names have to stand behind its header.
pub proof fn emptied_packages_are_read(
    dialect: Dialect,
    template: Seq<u8>,
    own_name: Seq<char>,
    name: Seq<char>,
)
    requires
        package::package_of(Dialect::Engine, template) matches Ok(t) && 36 <= t.name_offset,
        texture_engine::empty_package_file(template, own_name, name) matches Ok(file)
            && file.len() <= usize::MAX,
    ensures
        ({
            let t = package::package_of(Dialect::Engine, template)->Ok_0;
            let file = texture_engine::empty_package_file(template, own_name, name)->Ok_0;
            &&& package::package_of(dialect, file) matches Ok(p)
            &&& is_emptied(t, own_name, name, p)
        }),
{
    let t = package::package_of(Dialect::Engine, template)->Ok_0;
    let file = texture_engine::empty_package_file(template, own_name, name)->Ok_0;
    emptied_is_read(dialect, template, own_name, name);
    names::find_name_is_first(t.names, own_name, 0);
    let p = package::package_of(dialect, file)->Ok_0;
    names::find_name_is_first(p.names, own_name, 0);
}

/// A new package is the template of the application emptied and named anew, and
/// takes the textures of the template.
///
/// The template's names have to stand behind its header.
pub proof fn new_packages_are_empty(template: Seq<u8>, name: Seq<char>)
    requires
        package::package_of(Dialect::Engine, template) matches Ok(t) && 36 <= t.name_offset,
        texture_engine::empty_package_file(template, "UnrealTlp"@, name) matches Ok(file)
            && file.len() <= usize::MAX,
    ensures
        session::new_package_file(template, name) matches Ok(file) && is_new_package(
            template,
            name,
            file,
        ),
{
    let t = package::package_of(Dialect::Engine, template)->Ok_0;
    emptied_packages_are_read(Dialect::Engine, template, "UnrealTlp"@, name);
    emptied_is_read(Dialect::Engine, template, "UnrealTlp"@, name);
    emptied_is_read(Dialect::Frontend, template, "UnrealTlp"@, name);
    names::find_name_is_first(t.names, "UnrealTlp"@, 0);
}

proof fn names_are_counted(d: Seq<u8>, p: int, n: nat)
    ensures
        names::names_from(Dialect::Engine, d, p, n) matches Ok((found, _)) ==> found.len() == n,
    decreases n,
{
    if n > 0 {
        if let Ok((_, q)) = reader::string_at(Dialect::Engine, d, p) {
            names_are_counted(d, q + 4, (n - 1) as nat);
        }
    }
}

proof fn imports_are_counted(d: Seq<u8>, p: int, n: nat)
    ensures
        package::imports_from(Dialect::Engine, d, p, n) matches Ok((found, _)) ==> found.len() == n,
    decreases n,
{
    if n > 0 {
        if let Ok((_, q)) = package::import_at(Dialect::Engine, d, p) {
            imports_are_counted(d, q, (n - 1) as nat);
        }
    }
}

/// A package that was read has no more names and imports than its header can tell.
proof fn tables_are_few(d: Seq<u8>)
    requires
        package::package_of(Dialect::Engine, d) is Ok,
    ensures
        ({
            let p = package::package_of(Dialect::Engine, d)->Ok_0;
            p.names.len() <= i32::MAX && p.imports.len() <= i32::MAX
        }),
{
    let header = package::header_of(Dialect::Engine, d)->Ok_0;
    names_are_counted(d, header.name_offset as int, header.name_count as nat);
    imports_are_counted(d, header.import_offset as int, header.import_count as nat);
}

/// Whether a template can be emptied and named anew: it has the version of the engine and
/// its own name, its names stand behind its header, and its tables can be stored with the
/// new name.
pub open spec fn is_proper_template(template: Seq<u8>, own_name: Seq<char>, name: Seq<char>) -> bool {
    &&& package::package_of(Dialect::Engine, template) matches Ok(t)
    &&& t.version == texture_engine::UE2_PACKAGE_VERSION
    &&& t.licensee == texture_engine::UE2_LICENSEE_VERSION
    &&& 36 <= t.name_offset
    &&& names::index_in(t.names, own_name) matches Some(own)
    &&& {
        let names = t.names.update(
            own as int,
            NameModel { name, flags: t.names[own as int].flags },
        );
        &&& names::storable(names)
        &&& t.name_offset + names::names_bytes(Dialect::Engine, names)->Ok_0.len() + package::imports_bytes(
            t.imports,
        ).len() <= i32::MAX
    }
}

/// The package of a proper template can be emptied.
#[verifier::spinoff_prover]
proof fn proper_packages_are_emptied(t: PackageModel, own_name: Seq<char>, name: Seq<char>)
    requires
        t.version == texture_engine::UE2_PACKAGE_VERSION,
        t.licensee == texture_engine::UE2_LICENSEE_VERSION,
        36 <= t.name_offset <= t.data.len(),
        t.names.len() <= i32::MAX,
        t.imports.len() <= i32::MAX,
        names::index_in(t.names, own_name) matches Some(own) && {
            let names = t.names.update(
                own as int,
                NameModel { name, flags: t.names[own as int].flags },
            );
            &&& names::storable(names)
            &&& t.name_offset + names::names_bytes(Dialect::Engine, names)->Ok_0.len()
                + package::imports_bytes(t.imports).len() <= i32::MAX
        },
    ensures
        texture_engine::empty_package(t, own_name, name) matches Ok(file) && file.len()
            <= usize::MAX,
{
    let e = Dialect::Engine;
    let own = names::index_in(t.names, own_name)->Some_0;
    let names = t.names.update(
        own as int,
        NameModel { name, flags: t.names[own as int].flags },
    );
    names::find_name_is_first(t.names, own_name, 0);
    names::storable_names_are_stored(e, names);
    let table = names::names_bytes(e, names)->Ok_0;
    let header = t.data.take(t.name_offset as int);
    let full = header + table + package::imports_bytes(t.imports);
    let places = Places {
        name_count: names.len() as int,
        name_offset: header.len() as int,
        export_count: 0,
        export_offset: full.len() as int,
        import_count: t.imports.len() as int,
        import_offset: (header.len() + table.len()) as int,
    };
    small_places_are_stored(full, places, texture_engine::new_package_texts());
}

/// A new package is made of every proper template.
pub proof fn proper_templates_make_new_packages(template: Seq<u8>, name: Seq<char>)
    requires
        is_proper_template(template, "UnrealTlp"@, name),
    ensures
        session::new_package_file(template, name) matches Ok(file) && is_new_package(
            template,
            name,
            file,
        ),
{
    let t = package::package_of(Dialect::Engine, template)->Ok_0;
    tables_are_few(template);
    proper_packages_are_emptied(t, "UnrealTlp"@, name);
    new_packages_are_empty(template, name);
}

proof fn small_places_are_stored(d: Seq<u8>, places: Places, texts: LimitTexts)
    requires
        36 <= d.len() <= i32::MAX,
        places.name_count <= i32::MAX,
        places.name_offset <= i32::MAX,
        places.export_count <= i32::MAX,
        places.export_offset <= i32::MAX,
        places.import_count <= i32::MAX,
        places.import_offset <= i32::MAX,
    ensures
        tables::with_places(d, places, texts) matches Ok(file) && file.len() == d.len(),
{
}

/// A new file is made wherever there is no file yet and the folder exists, under every
/// valid name, if the template is proper.
pub proof fn new_files_are_made(
    template: Seq<u8>,
    path: Seq<char>,
    taken: bool,
    has_directory: bool,
)
    requires
        paths::new_package_name(path, taken, has_directory) matches Ok(name) && is_proper_template(
            template,
            "UnrealTlp"@,
            name,
        ),
    ensures
        ({
            let name = paths::new_package_name(path, taken, has_directory)->Ok_0;
            session::created_file(template, path, taken, has_directory) matches Ok(file)
                && is_new_package(template, name, file)
        }),
{
    proper_templates_make_new_packages(
        template,
        paths::new_package_name(path, taken, has_directory)->Ok_0,
    );
}

} // verus!
