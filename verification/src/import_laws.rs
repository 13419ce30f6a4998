//! What holds of the properties of imported textures: once the package was written
//! and read again, they are those that the import asked for.

use vstd::prelude::*;
use crate::adding::{Adding, Seeds, TextureSeedSource};
use crate::edits::{RequestModel, RewrittenModel};
use crate::names::NameModel;
use crate::package::{ExportEntry, ImportEntry, PackageModel};
use crate::properties::{Change, Field, RecordModel, Step, TextureEditorEdit, TextureEditorState};
use crate::reader::Dialect;
use crate::tables::Search;
use crate::adding;
use crate::adding_laws;
use crate::edits;
use crate::file_laws;
use crate::image_laws;
use crate::layout;
use crate::package;
use crate::package_laws;
use crate::properties;
use crate::property_laws;
use crate::text;
use crate::names;
use crate::tables;
use crate::texture_engine;

verus! {

/// Whether a property list shows every step of an edit, and for all other names the
/// values of another list.
pub open spec fn shows_edit(
    records: Seq<RecordModel>,
    before: Seq<RecordModel>,
    edit: TextureEditorEdit,
) -> bool {
    let steps = properties::steps_of(edit);
    &&& forall|k: int|
        0 <= k < steps.len() ==> property_laws::shows(records, #[trigger] steps[k])
    &&& forall|other: Seq<char>|
        property_laws::not_named(steps, steps.len() as int, other)
            ==> #[trigger] properties::value_of(
            records,
            other,
        ) == properties::value_of(before, other)
}

/// A list that was written anew shows its edit, whatever names come behind.
#[verifier::spinoff_prover]
#[verifier::rlimit(60)]
proof fn rewritten_lists_show(
    p: PackageModel,
    index: int,
    edit: TextureEditorEdit,
    base: int,
    more: Seq<NameModel>,
)
    requires
        0 <= index < p.exports.len(),
        0 <= base,
        p.data.len() <= usize::MAX,
        edits::rewritten_texture(p, index, edit) matches Ok((names, one)) && {
            &&& property_laws::extends(names, more)
            &&& edits::pointed(one, base) is Ok
            &&& one.bytes.len() <= usize::MAX
        },
    ensures
        ({
            let raw = package::data_of(Dialect::Engine, p.data, p.exports[index])->Ok_0;
            let (_, one) = edits::rewritten_texture(p, index, edit)->Ok_0;
            let bytes = edits::pointed(one, base)->Ok_0;
            &&& package::data_of(Dialect::Engine, p.data, p.exports[index]) is Ok
            &&& properties::stream_from(raw, p.names, 0) matches Ok(stream)
            &&& properties::stream_from(bytes, more, 0) matches Ok(again)
            &&& shows_edit(again.properties, stream.properties, edit)
        }),
{
    reveal(edits::rewritten_texture);
    let e = Dialect::Engine;
    let raw = package::data_of(e, p.data, p.exports[index])->Ok_0;
    let layout = edits::package_layout(e, p, raw)->Ok_0;
    let stream = properties::stream_from(raw, p.names, 0)->Ok_0;
    let (names, one) = edits::rewritten_texture(p, index, edit)->Ok_0;
    let (_, records) = properties::with_edit(p.names, stream.properties, edit)->Ok_0;
    let head = properties::stream_bytes(names, records)->Ok_0;
    edits::stream_end(raw, p.names, 0);
    layout::layout_bounds(e, p.names, p.version, p.licensee, raw);
    package_laws::list_before_mips(p, raw);
    layout::mip_bounds(e, raw, layout.mip_count_offset as int);
    let other = edits::package_layout(e, PackageModel { names, ..p }, raw)->Ok_0;
    layout::layout_bounds(e, names, p.version, p.licensee, raw);
    layout::mip_bounds(e, raw, other.mip_count_offset as int);
    let start = head.len() as int;
    let bytes = edits::pointed(one, base)->Ok_0;
    let rest = bytes.skip(start);
    assert(one.mip_count_offset >= start);
    assert(one.mip.width_offset_position >= one.mip.mip_count_offset);
    assert(bytes =~= head + rest) by {
        assert forall|k: int| 0 <= k < start implies bytes[k] == head[k] by {
            assert(bytes[k] == one.bytes[k]);
        }
    }
    property_laws::written_edits_show(raw, p.names, edit, rest);
    image_laws::lists_keep_their_end(names, more, bytes, 0);
}

/// The list of an edited texture shows its edit, whatever other textures were
/// edited with it.
#[verifier::spinoff_prover]
#[verifier::rlimit(60)]
pub proof fn edited_lists_show(p: PackageModel, edits: Seq<(usize, TextureEditorEdit)>, j: int)
    requires
        36 <= p.data.len() <= usize::MAX,
        0 <= j < edits.len(),
        image_laws::are_distinct(edits),
        edits::edited(p, edits) matches Ok(after) && after.data.len() <= usize::MAX,
    ensures
        ({
            let after = edits::edited(p, edits)->Ok_0;
            let index = edits[j].0 as int;
            let raw = package::data_of(Dialect::Engine, p.data, p.exports[index])->Ok_0;
            let before = properties::stream_from(raw, p.names, 0);
            &&& index < p.exports.len() == after.exports.len()
            &&& package::data_of(Dialect::Engine, p.data, p.exports[index]) is Ok
            &&& package::data_of(Dialect::Engine, after.data, after.exports[index])
                matches Ok(object)
            &&& object.len() > 0
            &&& properties::stream_from(object, after.names, 0) matches Ok(stream)
            &&& before is Ok ==> shows_edit(
                stream.properties,
                before->Ok_0.properties,
                edits[j].1,
            )
            &&& forall|k: int|
                0 <= k < properties::steps_of(edits[j].1).len() ==> property_laws::shows(
                    stream.properties,
                    #[trigger] properties::steps_of(edits[j].1)[k],
                )
        }),
{
    let e = Dialect::Engine;
    let index = edits[j].0 as int;
    let edit = edits[j].1;
    reveal(edits::edited);
    let after = edits::edited(p, edits)->Ok_0;
    let n = edits.len();
    let (names, done) = edits::rewritten_textures(p, edits, n)->Ok_0;
    adding_laws::rewritten_in_turn(p, edits, n);
    let (data, exports) = edits::placed(p.data, p.exports, done, n)->Ok_0;
    assert forall|i: int| 0 <= i < done.len() implies 0 <= (#[trigger] done[i]).index
        < p.exports.len() by {}
    assert forall|i: int| 0 <= i < done.len() && i != j implies (#[trigger] done[i]).index
        != done[j].index by {
        if i < j {
            assert(edits[i].0 != edits[j].0);
        } else {
            assert(edits[j].0 != edits[i].0);
        }
    }
    image_laws::rewritten_texture_is_placed(p.data, p.exports, done, n, j);
    image_laws::rewritten_at(p, edits, j);
    let (before, _) = edits::rewritten_textures(p, edits, j as nat)->Ok_0;
    let q = PackageModel { names: before, ..p };
    file_laws::rewritten_has_pointer(q, index, edit);
    let export = exports[index];
    let base = export.offset as int;
    let bytes = edits::pointed(done[j], base)->Ok_0;
    package_laws::rebuilt_keeps_data(p, data, names, p.imports, exports);
    rewritten_lists_show(q, index, edit, base, names);
    assert(package::data_of(e, data, export) == Ok::<Seq<u8>, Seq<char>>(bytes));
    assert(package::data_of(e, after.data, export) == Ok::<Seq<u8>, Seq<char>>(bytes));
    edits::stream_end(bytes, names, 0);
    let raw = package::data_of(e, p.data, p.exports[index])->Ok_0;
    if properties::stream_from(raw, p.names, 0) is Ok {
        image_laws::lists_keep_their_end(p.names, before, raw, 0);
    }
}

/// Each request's edit is among those of an import.
pub proof fn import_edits_hold(
    p: PackageModel,
    requests: Seq<RequestModel>,
    targets: Seq<usize>,
    n: nat,
    i: int,
)
    requires
        0 <= i < n <= requests.len() == targets.len(),
        adding::import_edits(p, requests, targets, n) is Ok,
    ensures
        ({
            let edits = adding::import_edits(p, requests, targets, n)->Ok_0;
            &&& edits::import_edit_of(p, requests[i], targets[i] as int) matches Ok(wanted)
            &&& wanted matches Some(edit) ==> exists|j: int|
                0 <= j < edits.len() && #[trigger] edits[j] == (targets[i], edit)
        }),
    decreases n,
{
    let edits = adding::import_edits(p, requests, targets, n)->Ok_0;
    let before = adding::import_edits(p, requests, targets, (n - 1) as nat)->Ok_0;
    if i < n - 1 {
        import_edits_hold(p, requests, targets, (n - 1) as nat, i);
        if let Ok(Some(edit)) = edits::import_edit_of(p, requests[i], targets[i] as int) {
            let j = choose|j: int| 0 <= j < before.len() && #[trigger] before[j]
                == (targets[i], edit);
            assert(edits[j] == before[j]);
        }
    } else if let Ok(Some(edit)) = edits::import_edit_of(p, requests[i], targets[i] as int) {
        assert(edits.last() == (targets[i], edit));
        assert(edits[edits.len() - 1] == (targets[i], edit));
    }
}

/// Whether a name stands where an index of names says.
pub open spec fn finds_names(index: Map<Seq<char>, i32>, names: Seq<NameModel>) -> bool {
    forall|key: Seq<char>|
        index.contains_key(key) ==> 0 <= #[trigger] index[key] && index[key] < names.len()
            && text::lower_text(names[index[key] as int].name) == key
}

proof fn tables_are_found(names: Seq<NameModel>)
    ensures
        finds_names(adding::names_map(names), names),
    decreases names.len(),
{
    if names.len() > 0 {
        tables_are_found(names.drop_last());
        let before = adding::names_map(names.drop_last());
        let index = adding::names_map(names);
        assert forall|key: Seq<char>| index.contains_key(key) implies 0 <= #[trigger] index[key]
            && index[key] < names.len() && text::lower_text(names[index[key] as int].name)
                == key by {
            if before.contains_key(key) && index[key] == before[key] {
                assert(names.drop_last()[before[key] as int] == names[before[key] as int]);
            }
        }
    }
}

/// Whether a class is that of a texture of the package, or of a texture of a template
/// that fits it.
pub open spec fn is_seed_class(class: i32, p: PackageModel, template: PackageModel) -> bool {
    ||| exists|k: int|
        0 <= k < p.exports.len()
            && package::is_texture_export(Dialect::Engine, p, #[trigger] p.exports[k])
            && p.exports[k].class == class
    ||| adding::compatible(p, template) && exists|k: int|
        0 <= k < template.exports.len() && package::is_texture_export(
            Dialect::Engine,
            template,
            #[trigger] template.exports[k],
        ) && template.exports[k].class == class
}

/// Whether a texture was chosen of the package, or of a template that fits it.
pub open spec fn is_seed_texture(
    seed: Option<TextureSeedSource>,
    p: PackageModel,
    template: PackageModel,
) -> bool {
    match seed {
        None => true,
        Some(TextureSeedSource::Package(k)) => k < p.exports.len() && package::is_texture_export(
            Dialect::Engine,
            p,
            p.exports[k as int],
        ),
        Some(TextureSeedSource::Template(k)) => adding::compatible(p, template) && k
            < template.exports.len() && package::is_texture_export(
            Dialect::Engine,
            template,
            template.exports[k as int],
        ),
    }
}

pub open spec fn are_seed_textures(seeds: Seeds, p: PackageModel, template: PackageModel) -> bool {
    &&& is_seed_texture(seeds.animation, p, template)
    &&& is_seed_texture(seeds.split9, p, template)
    &&& is_seed_texture(seeds.common, p, template)
}

/// Whether an export is a new texture of the name that was asked for.
pub open spec fn is_asked_for(
    export: ExportEntry,
    names: Seq<NameModel>,
    outer: i32,
    request: RequestModel,
    p: PackageModel,
    template: PackageModel,
) -> bool {
    &&& export.package == outer
    &&& 0 <= export.name_index < names.len()
    &&& text::same_folded(names[export.name_index as int].name, request.name)
    &&& is_seed_class(export.class, p, template)
}

#[verifier::spinoff_prover]
#[verifier::rlimit(40)]
proof fn new_textures_are_asked_for(
    p: PackageModel,
    template: PackageModel,
    group: Seq<char>,
    outer: i32,
    start: Adding,
    requests: Seq<RequestModel>,
    n: nat,
)
    requires
        n <= requests.len(),
        p.exports.len() <= usize::MAX,
        template.exports.len() <= usize::MAX,
        finds_names(start.index, start.names),
        are_seed_textures(start.seeds, p, template),
    ensures
        adding::with_textures(p, template, group, outer, start, requests, n) matches Ok(state) ==> {
            &&& finds_names(state.index, state.names)
            &&& are_seed_textures(state.seeds, p, template)
            &&& state.exports.len() == start.exports.len() + n
            &&& forall|k: int|
                0 <= k < start.exports.len() ==> #[trigger] state.exports[k] == start.exports[k]
            &&& forall|i: int|
                0 <= i < n ==> is_asked_for(
                    state.exports[start.exports.len() + i],
                    state.names,
                    outer,
                    #[trigger] requests[i],
                    p,
                    template,
                )
        },
    decreases n,
{
    if n > 0 {
        let m = (n - 1) as nat;
        new_textures_are_asked_for(p, template, group, outer, start, requests, m);
        if let Ok(state) = adding::with_textures(p, template, group, outer, start, requests, n) {
            let before = adding::with_textures(p, template, group, outer, start, requests, m)->Ok_0;
            let request = requests[n - 1];
            reveal(adding::with_texture);
            reveal(adding::with_built);
            let (seeds, source) = adding::chosen_seed(p, template, group, before.seeds, request)->Ok_0;
            let split9 = request.split9 is Some;
            let animation = request.animation is Some;
            image_laws::seeds_are_textures(p, group, split9, animation, 0, None);
            image_laws::seeds_are_textures(template, group, split9, animation, 0, None);
            assert(is_seed_texture(Some(source), p, template));
            assert(state.seeds == seeds);
            let last = state.exports.last();
            assert(state.exports =~= before.exports.push(last));
            assert(is_seed_class(last.class, p, template));
            let (names, index, name_index) = adding::interned_indexed(
                before.names,
                before.index,
                request.name,
            )->Ok_0;
            assert(state.names == names && state.index == index);
            assert(finds_names(index, names)) by {
                assert forall|key: Seq<char>| index.contains_key(key) implies 0
                    <= #[trigger] index[key] && index[key] < names.len() && text::lower_text(
                    names[index[key] as int].name,
                ) == key by {
                    if before.index.contains_key(key) && index[key] == before.index[key] {
                        assert(names[index[key] as int] == before.names[index[key] as int]);
                    }
                }
            }
            assert forall|i: int| 0 <= i < n implies is_asked_for(
                state.exports[start.exports.len() + i],
                state.names,
                outer,
                #[trigger] requests[i],
                p,
                template,
            ) by {
                if i < n - 1 {
                    let export = before.exports[start.exports.len() + i];
                    assert(is_asked_for(export, before.names, outer, requests[i], p, template));
                    assert(names[export.name_index as int]
                        == before.names[export.name_index as int]);
                }
            }
        }
    }
}

/// Whether an import lies in nothing but other imports.
pub open spec fn is_outside(imports: Seq<ImportEntry>, index: int, depth: int) -> bool
    decreases 129 - depth,
{
    &&& 0 <= depth <= 128
    &&& 0 <= index < imports.len()
    &&& imports[index].package <= 0
    &&& imports[index].package < 0 ==> is_outside(imports, -imports[index].package - 1, depth + 1)
}

/// Whether the class of every texture of a package is an import that lies in nothing
/// but other imports, as the class of an engine does.
pub open spec fn classes_are_imported(p: PackageModel) -> bool {
    forall|k: int|
        0 <= k < p.exports.len() && package::is_texture_export(
            Dialect::Engine,
            p,
            #[trigger] p.exports[k],
        ) ==> p.exports[k].class < 0 && is_outside(p.imports, -p.exports[k].class - 1, 0)
}

/// Whether a template's own name is no part of a text.
pub open spec fn lacks_own_name(path: Seq<char>) -> bool {
    let own = text::lower_text("UnrealTlp"@);
    forall|j: int|
        0 <= j && j + own.len() <= path.len() ==> #[trigger] text::lower_text(path).subrange(
            j,
            j + own.len(),
        ) != own
}

proof fn folded_joined(a: Seq<char>, b: Seq<char>)
    ensures
        text::lower_text(a + b) == text::lower_text(a) + text::lower_text(b),
{
    assert(text::lower_text(a + b) =~= text::lower_text(a) + text::lower_text(b));
}

/// A package that a template fits knows the template's imports by the same paths, as
/// long as the template's own name is no part of them.
proof fn fitting_paths_are_alike(
    template: PackageModel,
    q: PackageModel,
    index: int,
    depth: int,
)
    requires
        0 <= depth,
        is_outside(template.imports, index, depth),
        package_laws::imports_kept(template.imports, q.imports),
        template.names.len() <= q.names.len(),
        forall|i: int|
            0 <= i < template.names.len() ==> text::same_folded(
                (#[trigger] template.names[i]).name,
                "UnrealTlp"@,
            ) || text::same_folded(q.names[i].name, template.names[i].name),
        package::import_path_of(
            Dialect::Engine,
            template.names,
            template.imports,
            template.exports,
            index,
            depth,
        ) matches Ok(path) && lacks_own_name(path),
    ensures
        package::import_path_of(Dialect::Engine, q.names, q.imports, q.exports, index, depth) matches Ok(path)
            && text::same_folded(
            path,
            package::import_path_of(
                Dialect::Engine,
                template.names,
                template.imports,
                template.exports,
                index,
                depth,
            )->Ok_0,
        ),
    decreases 129 - depth,
{
    let e = Dialect::Engine;
    let entry = template.imports[index];
    assert(q.imports[index] == entry);
    let path = package::import_path_of(
        e,
        template.names,
        template.imports,
        template.exports,
        index,
        depth,
    )->Ok_0;
    let name = template.names[entry.name_index as int].name;
    let own = text::lower_text("UnrealTlp"@);
    if entry.package == 0 {
        if text::same_folded(name, "UnrealTlp"@) {
            let j = 0int;
            assert(own.len() == path.len()) by {
                assert(text::lower_text(path).len() == path.len());
            }
            assert(text::lower_text(path).subrange(j, j + own.len()) =~= own);
        }
        assert(!text::same_folded(name, "UnrealTlp"@));
    } else {
        let next = -entry.package - 1;
        let parent = package::import_path_of(
            e,
            template.names,
            template.imports,
            template.exports,
            next,
            depth + 1,
        )->Ok_0;
        let front = parent + "."@;
        assert(path == front + name);
        folded_joined(front, name);
        folded_joined(parent, "."@);
        if text::same_folded(name, "UnrealTlp"@) {
            let j = front.len() as int;
            assert(own.len() == name.len()) by {
                assert(text::lower_text(name).len() == name.len());
            }
            assert(text::lower_text(path).subrange(j, j + own.len()) =~= own);
        }
        assert(!text::same_folded(name, "UnrealTlp"@));
        assert(lacks_own_name(parent)) by {
            assert forall|j: int| 0 <= j && j + own.len() <= parent.len()
                implies #[trigger] text::lower_text(
                parent,
            ).subrange(j, j + own.len()) != own by {
                assert(text::lower_text(path).subrange(j, j + own.len())
                    =~= text::lower_text(parent).subrange(
                    j,
                    j + own.len(),
                ));
            }
        }
        fitting_paths_are_alike(template, q, next, depth + 1);
        let other = package::import_path_of(e, q.names, q.imports, q.exports, next, depth + 1)->Ok_0;
        let called = q.names[entry.name_index as int].name;
        folded_joined(other + "."@, called);
        folded_joined(other, "."@);
    }
}

proof fn texture_class_lacks_own_name(path: Seq<char>)
    requires
        text::same_folded(path, "Engine.Texture"@),
    ensures
        lacks_own_name(path),
{
    reveal_strlit("Engine.Texture");
    reveal_strlit("UnrealTlp");
    let own = text::lower_text("UnrealTlp"@);
    let class = text::lower_text("Engine.Texture"@);
    assert(path.len() == class.len()) by {
        assert(text::lower_text(path).len() == path.len());
    }
    assert forall|j: int| 0 <= j && j + own.len() <= path.len() implies #[trigger] text::lower_text(
        path,
    ).subrange(j, j + own.len()) != own by {
        let part = class.subrange(j, j + own.len());
        assert(part[0] == class[j]);
        assert(own[0] == 'u');
        assert(j <= 5);
        assert(class[0] == 'e' && class[1] == 'n' && class[2] == 'g' && class[3] == 'i' && class[4]
            == 'n' && class[5] == 'e');
    }
}

/// Placing rewritten textures changes nothing of an export but its place.
proof fn placed_keep_hierarchy(
    data: Seq<u8>,
    exports: Seq<ExportEntry>,
    done: Seq<RewrittenModel>,
    n: nat,
)
    requires
        n <= done.len(),
        forall|i: int| 0 <= i < done.len() ==> 0 <= (#[trigger] done[i]).index < exports.len(),
    ensures
        edits::placed(data, exports, done, n) matches Ok((_, entries)) ==> {
            &&& entries.len() == exports.len()
            &&& package_laws::same_hierarchy(exports, entries)
            &&& forall|k: int|
                0 <= k < exports.len() ==> (#[trigger] entries[k]).class == exports[k].class
        },
    decreases n,
{
    if n > 0 {
        placed_keep_hierarchy(data, exports, done, (n - 1) as nat);
    }
}

/// Edits keep the names, the imports, the hierarchy and the classes.
pub proof fn edits_keep_hierarchy(p: PackageModel, edits: Seq<(usize, TextureEditorEdit)>)
    requires
        p.data.len() <= usize::MAX,
    ensures
        edits::edited(p, edits) matches Ok(after) ==> {
            &&& property_laws::extends(p.names, after.names)
            &&& after.imports == p.imports
            &&& after.exports.len() == p.exports.len()
            &&& package_laws::same_hierarchy(p.exports, after.exports)
            &&& forall|k: int|
                0 <= k < p.exports.len() ==> (#[trigger] after.exports[k]).class
                    == p.exports[k].class
        },
{
    reveal(edits::edited);
    assert(p.names =~= p.names.take(p.names.len() as int));
    if edits.len() > 0 {
        if let Ok(_) = edits::edited(p, edits) {
            let n = edits.len();
            let (_, done) = edits::rewritten_textures(p, edits, n)->Ok_0;
            image_laws::edits_extend_names(p, edits, n, n);
            adding_laws::rewritten_in_turn(p, edits, n);
            placed_keep_hierarchy(p.data, p.exports, done, n);
        }
    }
}

/// The tables of a package with new textures, before they are given properties: what
/// was there stays, and behind it stand the textures that were asked for.
#[verifier::spinoff_prover]
#[verifier::rlimit(40)]
pub proof fn built_textures_are_asked_for(
    p: PackageModel,
    template: PackageModel,
    group: Seq<char>,
    requests: Seq<RequestModel>,
)
    requires
        p.exports.len() <= usize::MAX,
        template.exports.len() <= usize::MAX,
    ensures
        adding::built_with(p, template, group, requests) matches Ok((built, first)) ==> {
            &&& p.exports.len() <= first <= p.exports.len() + 1
            &&& built.exports.len() == first + requests.len()
            &&& p.data.len() <= built.data.len()
            &&& property_laws::extends(p.names, built.names)
            &&& package_laws::imports_kept(p.imports, built.imports)
            &&& package_laws::same_hierarchy(p.exports, built.exports)
            &&& texture_engine::with_outer(p, group) matches Ok(place)
            &&& forall|i: int|
                0 <= i < requests.len() ==> is_asked_for(
                    built.exports[first + i],
                    built.names,
                    place.outer,
                    #[trigger] requests[i],
                    p,
                    template,
                )
        },
{
    if let Ok((built, first)) = adding::built_with(p, template, group, requests) {
        let n = requests.len();
        let place = texture_engine::with_outer(p, group)->Ok_0;
        package_laws::outer_keeps_tables(p, group);
        let start = adding::start_of(place, p, group);
        let state = adding::with_textures(p, template, group, place.outer, start, requests, n)->Ok_0;
        tables_are_found(p.names);
        names::find_name_is_first(place.names, group, 0);
        assert(finds_names(start.index, start.names)) by {
            let index = adding::names_map(p.names);
            assert forall|key: Seq<char>| start.index.contains_key(key) implies 0
                <= #[trigger] start.index[key] && start.index[key] < start.names.len()
                && text::lower_text(start.names[start.index[key] as int].name) == key by {
                if index.contains_key(key) && start.index[key] == index[key] {
                    assert(place.names.take(p.names.len() as int)[index[key] as int]
                        == place.names[index[key] as int]);
                }
            }
        }
        new_textures_are_asked_for(p, template, group, place.outer, start, requests, n);
        image_laws::textures_extend_names(p, template, group, place.outer, start, requests, n);
        package_laws::extends_twice(p.names, place.names, state.names);
        let data = p.data + state.appended;
        package_laws::rebuilt_keeps_data(p, data, state.names, place.imports, state.exports);
        assert forall|k: int| 0 <= k < p.exports.len() implies (
        #[trigger] built.exports[k]).name_index == p.exports[k].name_index
            && built.exports[k].package == p.exports[k].package by {
            assert(state.exports[k] == start.exports[k]);
            assert(place.exports[k] == p.exports[k]);
        }
    }
}

/// An export of the class of a texture that was there, or of a fitting template's
/// texture, is a texture.
proof fn seed_classes_are_textures(
    p: PackageModel,
    template: PackageModel,
    q: PackageModel,
    export: ExportEntry,
)
    requires
        is_seed_class(export.class, p, template),
        adding::compatible(p, template) ==> classes_are_imported(template),
        property_laws::extends(p.names, q.names),
        package_laws::imports_kept(p.imports, q.imports),
        package_laws::same_hierarchy(p.exports, q.exports),
    ensures
        package::is_texture_export(Dialect::Engine, q, export),
{
    let e = Dialect::Engine;
    if exists|k: int|
        0 <= k < p.exports.len() && package::is_texture_export(e, p, #[trigger] p.exports[k])
            && p.exports[k].class == export.class {
        let k = choose|k: int|
            0 <= k < p.exports.len() && package::is_texture_export(e, p, #[trigger] p.exports[k])
                && p.exports[k].class == export.class;
        package_laws::textures_stay_textures(p, q, p.exports[k], export);
    } else {
        let k = choose|k: int|
            0 <= k < template.exports.len() && package::is_texture_export(
                e,
                template,
                #[trigger] template.exports[k],
            ) && template.exports[k].class == export.class;
        let index = -export.class - 1;
        let path = package::import_path_of(
            e,
            template.names,
            template.imports,
            template.exports,
            index,
            0,
        )->Ok_0;
        texture_class_lacks_own_name(path);
        assert forall|i: int| 0 <= i < template.names.len() implies text::same_folded(
            (#[trigger] template.names[i]).name,
            "UnrealTlp"@,
        ) || text::same_folded(q.names[i].name, template.names[i].name) by {
            assert(q.names.take(p.names.len() as int)[i] == q.names[i]);
        }
        assert forall|i: int| 0 <= i < template.imports.len() implies #[trigger] q.imports[i]
            == template.imports[i] by {
            assert(template.imports[i] == p.imports[i]);
            assert(q.imports[i] == p.imports[i]);
        }
        fitting_paths_are_alike(template, q, index, 0);
    }
}

/// Whether a path is that of a texture, or ends with it.
pub open spec fn is_named(p: PackageModel, k: int, requested: Seq<char>) -> bool {
    &&& package::is_texture_export(Dialect::Engine, p, p.exports[k])
    &&& package::name_of(Dialect::Engine, p, p.exports[k]) matches Ok(name)
    &&& tables::is_exact(name, requested)
}

/// Whether a path has the name of a texture behind its last dot.
pub open spec fn is_called(p: PackageModel, k: int, requested: Seq<char>) -> bool {
    &&& package::is_texture_export(Dialect::Engine, p, p.exports[k])
    &&& package::name_of(Dialect::Engine, p, p.exports[k]) matches Ok(name)
    &&& text::same_folded(text::after_last_dot(name), text::after_last_dot(requested))
}

/// Whether the paths of two exports start with the same group.
pub open spec fn share_group(p: PackageModel, a: int, b: int) -> bool {
    &&& package::name_of(Dialect::Engine, p, p.exports[a]) matches Ok(one)
    &&& package::name_of(Dialect::Engine, p, p.exports[b]) matches Ok(other)
    &&& text::before_dot(one) == text::before_dot(other)
}

pub open spec fn none_named(p: PackageModel, requested: Seq<char>, n: int) -> bool {
    forall|j: int| 0 <= j < n ==> !#[trigger] is_named(p, j, requested)
}

/// Whether a path names a texture, seen from another: by its path; or, where no
/// texture has that path, by its name, which no other texture has, or which no later
/// texture of the same group has.
pub open spec fn leads_to(p: PackageModel, current: int, path: Seq<char>, k: int) -> bool {
    let requested = tables::requested_path(path);
    let count = p.exports.len() as int;
    &&& 0 <= k < count
    &&& requested.len() > 0
    &&& {
        ||| is_named(p, k, requested) && none_named(p, requested, k)
        ||| none_named(p, requested, count) && is_called(p, k, requested) && forall|j: int|
            0 <= j < count && j != k ==> !#[trigger] is_called(p, j, requested)
        ||| none_named(p, requested, count) && is_called(p, k, requested) && share_group(
            p,
            k,
            current,
        ) && forall|j: int|
            k < j < count ==> !(#[trigger] is_called(p, j, requested) && share_group(
                p,
                j,
                current,
            ))
    }
}

proof fn last_dot(s: Seq<char>, from: int, n: int)
    requires
        0 <= from <= n <= s.len(),
        forall|i: int| from <= i < n ==> #[trigger] s[i] != '.',
        from > 0 ==> s[from - 1] == '.',
    ensures
        text::find_last_char(s, '.', n) == (if from == 0 {
            None::<int>
        } else {
            Some(from - 1)
        }),
    decreases n,
{
    if n > from {
        last_dot(s, from, n - 1);
    }
}

/// A path that is the plain name of a texture calls it.
pub proof fn textures_are_called_by_their_name(p: PackageModel, k: int, requested: Seq<char>)
    requires
        0 <= k < p.exports.len(),
        package::is_texture_export(Dialect::Engine, p, p.exports[k]),
        package::name_of(Dialect::Engine, p, p.exports[k]) is Ok,
        text::same_folded(p.names[p.exports[k].name_index as int].name, requested),
        forall|i: int| 0 <= i < requested.len() ==> #[trigger] requested[i] != '.',
    ensures
        is_called(p, k, requested),
{
    let name = p.names[p.exports[k].name_index as int].name;
    let full = package::name_of(Dialect::Engine, p, p.exports[k])->Ok_0;
    last_dot(requested, 0, requested.len() as int);
    assert forall|i: int| 0 <= i < name.len() implies #[trigger] name[i] != '.' by {
        assert(text::lower_text(name)[i] == text::lower_text(requested)[i]);
        assert(text::lower_text(name).len() == text::lower_text(requested).len());
    }
    let from = full.len() - name.len();
    reveal_strlit(".");
    assert(full.skip(from) =~= name);
    assert forall|i: int| from <= i < full.len() implies #[trigger] full[i] != '.' by {
        assert(full[i] == name[i - from]);
    }
    last_dot(full, from, full.len() as int);
}

/// A plain name, without a dot, leads to the only texture that is called so.
pub proof fn plain_names_lead_to_their_texture(
    p: PackageModel,
    current: int,
    path: Seq<char>,
    k: int,
)
    requires
        0 <= k < p.exports.len(),
        tables::requested_path(path).len() > 0,
        forall|i: int|
            0 <= i < tables::requested_path(path).len()
                ==> #[trigger] tables::requested_path(path)[i] != '.',
        is_called(p, k, tables::requested_path(path)),
        forall|j: int|
            0 <= j < p.exports.len() && j != k ==> !#[trigger] is_called(
                p,
                j,
                tables::requested_path(path),
            ),
    ensures
        leads_to(p, current, path, k),
{
    let requested = tables::requested_path(path);
    assert forall|j: int| 0 <= j < p.exports.len() && #[trigger] is_named(
        p,
        j,
        requested,
    ) implies is_called(p, j, requested) by {
        let name = package::name_of(Dialect::Engine, p, p.exports[j])->Ok_0;
        reveal_strlit(".");
        if text::ends_with(requested, "."@ + name) {
            let at = requested.len() - name.len() - 1;
            assert(requested.skip(at)[0] == ("."@ + name)[0]);
            assert(requested[at] == '.');
        }
        assert(text::same_folded(name, requested));
        last_dot(requested, 0, requested.len() as int);
        assert forall|i: int| 0 <= i < name.len() implies #[trigger] name[i] != '.' by {
            assert(text::lower_text(name)[i] == text::lower_text(requested)[i]);
            assert(text::lower_text(name).len() == text::lower_text(requested).len());
        }
        last_dot(name, 0, name.len() as int);
    }
}

proof fn named_textures_are_found(
    p: PackageModel,
    current: Seq<char>,
    requested: Seq<char>,
    from: int,
    search: Search,
    k: int,
)
    requires
        0 <= from <= k < p.exports.len(),
        is_named(p, k, requested),
        none_named(p, requested, k),
        tables::searched(p, current, requested, from, search) is Ok,
    ensures
        tables::searched(p, current, requested, from, search)
            == Ok::<Search, Seq<char>>(Search::Exact(k)),
    decreases k - from,
{
    if from < k {
        assert(!is_named(p, from, requested));
        let more = if is_called(p, from, requested) {
            tables::matched(
                search,
                from,
                text::before_dot(package::name_of(Dialect::Engine, p, p.exports[from])->Ok_0)
                    == text::before_dot(
                    current,
                ),
            )
        } else {
            search
        };
        named_textures_are_found(p, current, requested, from + 1, more, k);
    }
}

/// A search from an export on finds nothing but what is called as asked.
proof fn called_textures_are_found(
    p: PackageModel,
    current: Seq<char>,
    requested: Seq<char>,
    from: int,
    search: Search,
    k: int,
)
    requires
        0 <= from <= p.exports.len(),
        0 <= k < p.exports.len(),
        none_named(p, requested, p.exports.len() as int),
        is_called(p, k, requested),
        forall|j: int|
            0 <= j < p.exports.len() && j != k ==> !#[trigger] is_called(p, j, requested),
        search matches Search::Loose { same_group, count, first } && if from <= k {
            same_group is None && count == 0
        } else {
            (same_group is None || same_group == Some(k)) && count == 1 && first == k
        },
        tables::searched(p, current, requested, from, search) is Ok,
    ensures
        tables::settled(tables::searched(p, current, requested, from, search)->Ok_0) == Some(k),
    decreases p.exports.len() - from,
{
    if from < p.exports.len() {
        assert(!is_named(p, from, requested));
        let more = if is_called(p, from, requested) {
            tables::matched(
                search,
                from,
                text::before_dot(package::name_of(Dialect::Engine, p, p.exports[from])->Ok_0)
                    == text::before_dot(
                    current,
                ),
            )
        } else {
            search
        };
        called_textures_are_found(p, current, requested, from + 1, more, k);
    }
}

/// The last texture of the same group that is called as asked is found.
proof fn neighbours_are_found(
    p: PackageModel,
    current: int,
    requested: Seq<char>,
    from: int,
    search: Search,
    k: int,
)
    requires
        0 <= from <= p.exports.len(),
        0 <= k < p.exports.len(),
        none_named(p, requested, p.exports.len() as int),
        is_called(p, k, requested),
        share_group(p, k, current),
        forall|j: int|
            k < j < p.exports.len() ==> !(#[trigger] is_called(p, j, requested) && share_group(
                p,
                j,
                current,
            )),
        search matches Search::Loose { same_group, .. } && (from > k ==> same_group == Some(k)),
        tables::searched(
            p,
            package::name_of(Dialect::Engine, p, p.exports[current])->Ok_0,
            requested,
            from,
            search,
        ) is Ok,
    ensures
        tables::settled(
            tables::searched(
                p,
                package::name_of(Dialect::Engine, p, p.exports[current])->Ok_0,
                requested,
                from,
                search,
            )->Ok_0,
        ) == Some(k),
    decreases p.exports.len() - from,
{
    if from < p.exports.len() {
        assert(!is_named(p, from, requested));
        let name = package::name_of(Dialect::Engine, p, p.exports[current])->Ok_0;
        let more = if is_called(p, from, requested) {
            tables::matched(
                search,
                from,
                text::before_dot(package::name_of(Dialect::Engine, p, p.exports[from])->Ok_0)
                    == text::before_dot(name),
            )
        } else {
            search
        };
        neighbours_are_found(p, current, requested, from + 1, more, k);
    }
}

/// A path that names a texture is resolved to it.
pub proof fn named_textures_are_resolved(p: PackageModel, current: int, path: Seq<char>, k: int)
    requires
        0 <= current < p.exports.len(),
        leads_to(p, current, path, k),
        tables::resolved(p, current, path) is Ok,
    ensures
        tables::resolved(p, current, path)->Ok_0 == k + 1,
{
    let requested = tables::requested_path(path);
    let name = package::name_of(Dialect::Engine, p, p.exports[current])->Ok_0;
    if is_named(p, k, requested) && none_named(p, requested, k) {
        named_textures_are_found(p, name, requested, 0, tables::no_match(), k);
    } else if forall|j: int|
        0 <= j < p.exports.len() && j != k ==> !#[trigger] is_called(p, j, requested) {
        called_textures_are_found(p, name, requested, 0, tables::no_match(), k);
    } else {
        neighbours_are_found(p, current, requested, 0, tables::no_match(), k);
    }
}

/// Whether a reader finds every property that an edit asks for in the list of an
/// object.
pub open spec fn holds_edit(p: PackageModel, index: int, edit: TextureEditorEdit) -> bool {
    &&& 0 <= index < p.exports.len()
    &&& package::data_of(Dialect::Engine, p.data, p.exports[index]) matches Ok(object)
    &&& properties::stream_from(object, p.names, 0) matches Ok(stream)
    &&& forall|k: int|
        0 <= k < properties::steps_of(edit).len()
            ==> property_laws::shows(stream.properties, #[trigger] properties::steps_of(edit)[k])
}

/// The edits of an import, on a package in which its textures stand from `first` on.
#[verifier::spinoff_prover]
#[verifier::rlimit(40)]
proof fn imported_edits_hold(
    built: PackageModel,
    first: int,
    requests: Seq<RequestModel>,
    edits: Seq<(usize, TextureEditorEdit)>,
    i: int,
)
    requires
        0 <= i < requests.len(),
        0 <= first,
        first + requests.len() == built.exports.len() <= usize::MAX,
        36 <= built.data.len() <= usize::MAX,
        adding::import_edits(
            built,
            requests,
            adding::new_targets(first, requests.len()),
            requests.len(),
        ) == Ok::<Seq<(usize, TextureEditorEdit)>, Seq<char>>(edits),
        edits::edited(built, edits) matches Ok(after) && after.data.len() <= usize::MAX,
    ensures
        ({
            let after = edits::edited(built, edits)->Ok_0;
            &&& edits::import_edit_of(built, requests[i], first + i) matches Ok(wanted)
            &&& wanted matches Some(edit) ==> {
                &&& holds_edit(after, first + i, edit)
                &&& after.exports[first + i].size > 0
            }
        }),
{
    let n = requests.len();
    let targets = adding::new_targets(first, n);
    assert(targets[i] == first + i);
    image_laws::import_edits_are_distinct(built, requests, targets, n);
    import_edits_hold(built, requests, targets, n, i);
    if let Ok(Some(edit)) = edits::import_edit_of(built, requests[i], first + i) {
        let j = choose|j: int|
            0 <= j < edits.len() && #[trigger] edits[j] == (targets[i], edit);
        edited_lists_show(built, edits, j);
        let after = edits::edited(built, edits)->Ok_0;
        assert(edits[j].0 == first + i && edits[j].1 == edit);
        assert(holds_edit(after, first + i, edit));
        let object = package::data_of(
            Dialect::Engine,
            after.data,
            after.exports[first + i],
        )->Ok_0;
        assert(object.len() == after.exports[first + i].size);
    }
}

/// What an import does behind the building of its textures.
pub proof fn added_after_built(
    p: PackageModel,
    template: PackageModel,
    group: Seq<char>,
    requests: Seq<RequestModel>,
)
    requires
        requests.len() > 0,
        adding::with_added(p, template, group, requests) is Ok,
    ensures
        ({
            let (after, outcomes) = adding::with_added(p, template, group, requests)->Ok_0;
            let (built, first) = adding::built_with(p, template, group, requests)->Ok_0;
            let targets = adding::new_targets(first, requests.len());
            &&& adding::built_with(p, template, group, requests) is Ok
            &&& adding::import_edits(built, requests, targets, requests.len()) matches Ok(edits)
            &&& edits::edited(built, edits) == Ok::<PackageModel, Seq<char>>(after)
            &&& outcomes == adding::added_outcomes(targets)
        }),
{
    reveal(adding::with_added);
}

/// The textures that an import has added hold the properties that it asked for. Their
/// names and classes are those with which they were built.
#[verifier::spinoff_prover]
#[verifier::rlimit(40)]
pub proof fn added_textures_hold_their_properties(
    p: PackageModel,
    template: PackageModel,
    group: Seq<char>,
    requests: Seq<RequestModel>,
    i: int,
)
    requires
        0 <= i < requests.len(),
        36 <= p.data.len() <= usize::MAX,
        p.exports.len() + requests.len() < usize::MAX,
        template.exports.len() <= usize::MAX,
        adding::with_added(p, template, group, requests) matches Ok((after, _)) && after.data.len()
            <= usize::MAX,
    ensures
        ({
            let (after, outcomes) = adding::with_added(p, template, group, requests)->Ok_0;
            let (built, first) = adding::built_with(p, template, group, requests)->Ok_0;
            &&& adding::built_with(p, template, group, requests) is Ok
            &&& outcomes.len() == requests.len()
            &&& forall|j: int|
                0 <= j < requests.len() ==> (#[trigger] outcomes[j]).export_index == first + j
            &&& first + requests.len() == built.exports.len() == after.exports.len()
            &&& property_laws::extends(built.names, after.names)
            &&& after.imports == built.imports
            &&& package_laws::same_hierarchy(built.exports, after.exports)
            &&& after.exports[first + i].class == built.exports[first + i].class
            &&& edits::import_edit_of(built, requests[i], first + i) matches Ok(wanted)
            &&& wanted matches Some(edit) ==> {
                &&& holds_edit(after, first + i, edit)
                &&& after.exports[first + i].size > 0
            }
        }),
{
    let n = requests.len();
    built_textures_are_asked_for(p, template, group, requests);
    added_after_built(p, template, group, requests);
    let (after, outcomes) = adding::with_added(p, template, group, requests)->Ok_0;
    let (built, first) = adding::built_with(p, template, group, requests)->Ok_0;
    let targets = adding::new_targets(first, n);
    let edits = adding::import_edits(built, requests, targets, n)->Ok_0;
    file_laws::edited_data_is_longer(built, edits);
    edits_keep_hierarchy(built, edits);
    imported_edits_hold(built, first, requests, edits, i);
}

/// The step of an edit that leads to the next frame.
proof fn next_frame_is_a_step(edit: TextureEditorEdit, value: i32)
    requires
        edit.animation matches Some(a) && a.anim_next == Some(value),
    ensures
        exists|k: int|
            0 <= k < properties::steps_of(edit).len()
                && #[trigger] properties::steps_of(edit)[k] == (Step {
                field: Field::AnimNext,
                change: Change::Reference(value),
            }),
{
    let front = properties::flag_steps(Field::Alpha, edit.alpha) + properties::flag_steps(Field::Masked, edit.masked)
        + properties::clamp_steps(edit.clamp) + properties::split9_steps(edit.split9);
    let back = properties::animation_steps(edit.animation);
    assert(back[0] == (Step { field: Field::AnimNext, change: Change::Reference(value) }));
    assert(properties::steps_of(edit) == front + back);
    assert(properties::steps_of(edit)[front.len() as int] == back[0]);
}

/// Whoever reads the file that an import of new textures has written finds in each of
/// them the properties that were asked for, and the editor shows them. A path to the
/// next frame that names a texture of the same import, an earlier or a later one, leads
/// to it. The properties of a request are taken from the package in which all new
/// textures stand already, each with the name that was asked for.
///
/// The editor shows a texture only by its class. That of a new texture is the class of
/// a texture that was there, or of a texture of the template. Left out is a template
/// whose textures have a class that it defines itself.
#[verifier::spinoff_prover]
#[verifier::rlimit(60)]
pub proof fn imported_properties_are_read_back(
    d: Seq<u8>,
    template: Seq<u8>,
    group: Seq<char>,
    requests: Seq<RequestModel>,
    i: int,
)
    requires
        0 <= i < requests.len(),
        d.len() <= usize::MAX,
        template.len() <= usize::MAX,
        texture_engine::added_to_file(d, template, group, requests) matches Ok((after, _))
            && after.data.len() <= usize::MAX,
        package::package_of(Dialect::Engine, d)->Ok_0.exports.len() + requests.len() < usize::MAX,
    ensures
        ({
            let p = package::package_of(Dialect::Engine, d)->Ok_0;
            let t = package::package_of(Dialect::Engine, template)->Ok_0;
            let (after, outcomes) = texture_engine::added_to_file(
                d,
                template,
                group,
                requests,
            )->Ok_0;
            let (built, first) = adding::built_with(p, t, group, requests)->Ok_0;
            let index = outcomes[i].export_index as int;
            &&& adding::built_with(p, t, group, requests) is Ok
            &&& outcomes.len() == requests.len()
            &&& texture_engine::with_outer(p, group) matches Ok(place)
            &&& forall|j: int|
                0 <= j < requests.len() ==> is_asked_for(
                    built.exports[outcomes[j].export_index as int],
                    built.names,
                    place.outer,
                    #[trigger] requests[j],
                    p,
                    t,
                )
            &&& (adding::compatible(p, t) ==> classes_are_imported(t)) ==> forall|j: int|
                0 <= j < requests.len() ==> package::is_texture_export(
                    Dialect::Engine,
                    built,
                    built.exports[(#[trigger] outcomes[j]).export_index as int],
                )
            &&& package::package_of(Dialect::Engine, after.data) matches Ok(q)
            &&& index < q.exports.len()
            &&& edits::import_edit_of(built, requests[i], index) matches Ok(wanted)
            &&& wanted matches Some(edit) ==> {
                &&& package::data_of(Dialect::Engine, q.data, q.exports[index]) matches Ok(object)
                &&& properties::stream_from(object, q.names, 0) matches Ok(stream)
                &&& forall|k: int|
                    0 <= k < properties::steps_of(edit).len() ==> property_laws::shows(
                        stream.properties,
                        #[trigger] properties::steps_of(edit)[k],
                    )
                &&& (adding::compatible(p, t) ==> classes_are_imported(t))
                    ==> texture_engine::state_in_file(
                    after.data,
                    index,
                ) == Ok::<TextureEditorState, Seq<char>>(properties::state_of(stream.properties))
                &&& forall|j: int|
                    0 <= j < requests.len() && next_frame_leads_to(
                        built,
                        index,
                        requests[i],
                        (#[trigger] outcomes[j]).export_index as int,
                    ) ==> properties::object_of(stream.properties, "AnimNext"@) == Some(
                        (outcomes[j].export_index + 1) as i32,
                    ) && outcomes[j].export_index < i32::MAX
            }
            &&& forall|j: int|
                0 <= j < requests.len() && next_frame_leads_to(
                    built,
                    index,
                    requests[i],
                    (#[trigger] outcomes[j]).export_index as int,
                ) ==> wanted is Some
        }),
{
    let e = Dialect::Engine;
    let p = package::package_of(e, d)->Ok_0;
    let t = package::package_of(e, template)->Ok_0;
    package_laws::read_packages_are_storable(d);
    tables::header_needs_bytes(e, d);
    file_laws::exports_are_few(template);
    added_textures_hold_their_properties(p, t, group, requests, i);
    built_textures_are_asked_for(p, t, group, requests);
    file_laws::written_additions_are_read(d, template, group, requests);
    let (after, outcomes) = texture_engine::added_to_file(d, template, group, requests)->Ok_0;
    let (built, first) = adding::built_with(p, t, group, requests)->Ok_0;
    let q = package::package_of(e, after.data)->Ok_0;
    let index = outcomes[i].export_index as int;
    let wanted = edits::import_edit_of(built, requests[i], index)->Ok_0;
    assert(index == first + i);
    assert forall|j: int| 0 <= j < requests.len() implies is_asked_for(
        built.exports[outcomes[j].export_index as int],
        built.names,
        texture_engine::with_outer(p, group)->Ok_0.outer,
        #[trigger] requests[j],
        p,
        t,
    ) by {
        assert(outcomes[j].export_index == first + j);
    }
    if adding::compatible(p, t) ==> classes_are_imported(t) {
        assert forall|j: int| 0 <= j < requests.len() implies package::is_texture_export(
            e,
            built,
            built.exports[(#[trigger] outcomes[j]).export_index as int],
        ) by {
            let export = built.exports[outcomes[j].export_index as int];
            assert(is_asked_for(
                export,
                built.names,
                texture_engine::with_outer(p, group)->Ok_0.outer,
                requests[j],
                p,
                t,
            ));
            seed_classes_are_textures(p, t, built, export);
        }
    }
    assert forall|j: int|
        0 <= j < requests.len() && next_frame_leads_to(
            built,
            index,
            requests[i],
            (#[trigger] outcomes[j]).export_index as int,
        ) implies wanted is Some by {
        next_frames_are_edits(built, index, requests[i], outcomes[j].export_index as int);
    }
    if let Some(edit) = wanted {
        assert(q.exports[index] == file_laws::stored_export(after.exports[index]));
        assert(holds_edit(q, index, edit));
        let object = package::data_of(e, q.data, q.exports[index])->Ok_0;
        let stream = properties::stream_from(object, q.names, 0)->Ok_0;
        if adding::compatible(p, t) ==> classes_are_imported(t) {
            added_textures_keep_their_class(p, t, built, after, q, index);
        }
        assert forall|j: int|
            0 <= j < requests.len() && next_frame_leads_to(
                built,
                index,
                requests[i],
                (#[trigger] outcomes[j]).export_index as int,
            ) implies properties::object_of(stream.properties, "AnimNext"@) == Some(
            (outcomes[j].export_index + 1) as i32,
        ) && outcomes[j].export_index < i32::MAX by {
            let target = outcomes[j].export_index as int;
            next_frames_are_edits(built, index, requests[i], target);
            next_frame_is_a_step(edit, (target + 1) as i32);
        }
    }
}

/// Whether a request asks for a next frame, by a path that names a texture.
pub open spec fn next_frame_leads_to(
    p: PackageModel,
    current: int,
    request: RequestModel,
    target: int,
) -> bool {
    &&& request.animation matches Some(a)
    &&& a.anim_next matches Some(path)
    &&& leads_to(p, current, path, target)
}

proof fn next_frames_are_edits(
    p: PackageModel,
    current: int,
    request: RequestModel,
    target: int,
)
    requires
        0 <= current < p.exports.len(),
        next_frame_leads_to(p, current, request, target),
        edits::import_edit_of(p, request, current) is Ok,
    ensures
        target < i32::MAX,
        edits::import_edit_of(p, request, current) matches Ok(Some(edit))
            && (edit.animation matches Some(
            a,
        ) && a.anim_next == Some((target + 1) as i32)),
{
    let path = request.animation->0.anim_next->0;
    named_textures_are_resolved(p, current, path, target);
    let edit = edits::edit_of(p, request, current)->Ok_0;
    next_frame_is_a_step(edit, (target + 1) as i32);
}

proof fn added_textures_keep_their_class(
    p: PackageModel,
    template: PackageModel,
    built: PackageModel,
    after: PackageModel,
    q: PackageModel,
    index: int,
)
    requires
        0 <= index < built.exports.len() == after.exports.len(),
        is_seed_class(built.exports[index].class, p, template),
        adding::compatible(p, template) ==> classes_are_imported(template),
        property_laws::extends(p.names, built.names),
        property_laws::extends(built.names, after.names),
        package_laws::imports_kept(p.imports, built.imports),
        after.imports == built.imports,
        package_laws::same_hierarchy(p.exports, built.exports),
        package_laws::same_hierarchy(built.exports, after.exports),
        after.exports[index].class == built.exports[index].class,
        file_laws::same_tables(q, after),
    ensures
        package::is_texture_export(Dialect::Engine, q, q.exports[index]),
{
    package_laws::extends_twice(p.names, built.names, after.names);
    assert forall|k: int| 0 <= k < p.exports.len() implies (#[trigger] q.exports[k]).name_index
        == p.exports[k].name_index && q.exports[k].package == p.exports[k].package by {
        assert(q.exports[k] == file_laws::stored_export(after.exports[k]));
        assert(after.exports[k].name_index == built.exports[k].name_index);
        assert(built.exports[k].name_index == p.exports[k].name_index);
    }
    assert(q.exports[index] == file_laws::stored_export(after.exports[index]));
    seed_classes_are_textures(p, template, q, q.exports[index]);
}

} // verus!
