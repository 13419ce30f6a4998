//! What holds of the groups of a package and of the names in them.

use vstd::prelude::*;
use crate::package::PackageModel;
use crate::reader::Dialect;
use crate::names;
use crate::package;
use crate::package_laws;
use crate::tables;
use crate::text;
use crate::texture_engine;

verus! {

/// The group of a texture is what stands before the first dot of its path, and a texture
/// without a dot in its path lies in the main group.
pub proof fn groups_stand_before_the_dot(
    dialect: Dialect,
    group: Seq<char>,
    leaf: Seq<char>,
    other: Seq<char>,
)
    requires
        group.len() > 0,
        forall|i: int| 0 <= i < group.len() ==> #[trigger] group[i] != '.',
        forall|i: int| 0 <= i < leaf.len() ==> #[trigger] leaf[i] != '.',
    ensures
        tables::group_of(dialect, group + seq!['.'] + leaf) == Some(group),
        tables::group_or_main(dialect, group + seq!['.'] + leaf) == group,
        text::after_last_dot(group + seq!['.'] + leaf) == leaf,
        !text::same_folded(other, "Pacote principal"@) ==> tables::in_group(
            dialect,
            group + seq!['.'] + leaf,
            other,
        ) == text::same_folded(group, other),
        text::same_folded(other, "Pacote principal"@) ==> !tables::in_group(
            dialect,
            group + seq!['.'] + leaf,
            other,
        ),
        tables::group_of(dialect, leaf) is None,
        tables::group_or_main(dialect, leaf) == "Pacote principal"@,
        text::after_last_dot(leaf) == leaf,
        tables::in_group(dialect, leaf, other) == text::same_folded(other, "Pacote principal"@),
{
    let path = group + seq!['.'] + leaf;
    text::find_char_is_first(path, '.', 0);
    assert(path[group.len() as int] == '.');
    assert forall|i: int| 0 <= i < group.len() implies path[i] != '.' by {
        assert(path[i] == group[i]);
    }
    assert(path.take(group.len() as int) =~= group);
    assert(path.contains('.'));
    last_dot_before(group, leaf, path.len() as int);
    assert(path.skip(group.len() as int + 1) =~= leaf);
    text::find_char_is_first(leaf, '.', 0);
    no_last_dot(leaf, leaf.len() as int);
    assert(!leaf.contains('.'));
}

proof fn last_dot_before(group: Seq<char>, leaf: Seq<char>, end: int)
    requires
        forall|i: int| 0 <= i < leaf.len() ==> #[trigger] leaf[i] != '.',
        group.len() < end <= group.len() + 1 + leaf.len(),
    ensures
        text::find_last_char(group + seq!['.'] + leaf, '.', end) == Some(group.len() as int),
    decreases end,
{
    let all = group + seq!['.'] + leaf;
    if end > group.len() + 1 {
        assert(all[end - 1] == leaf[end - 1 - group.len() - 1]);
        last_dot_before(group, leaf, end - 1);
    }
}

proof fn no_last_dot(leaf: Seq<char>, end: int)
    requires
        forall|i: int| 0 <= i < leaf.len() ==> #[trigger] leaf[i] != '.',
        0 <= end <= leaf.len(),
    ensures
        text::find_last_char(leaf, '.', end) is None,
    decreases end,
{
    if end > 0 {
        no_last_dot(leaf, end - 1);
    }
}

/// Two textures have one key only if they have the same group and the same name, whatever
/// the case of their letters.
pub proof fn keys_tell_textures_apart(
    group: Seq<char>,
    name: Seq<char>,
    other_group: Seq<char>,
    other_name: Seq<char>,
)
    requires
        forall|i: int| 0 <= i < group.len() ==> #[trigger] group[i] != '\0',
        forall|i: int| 0 <= i < other_group.len() ==> #[trigger] other_group[i] != '\0',
    ensures
        (tables::lookup_key(group, name) == tables::lookup_key(other_group, other_name)) == (
        text::same_folded(group, other_group) && text::same_folded(name, other_name)),
{
    reveal_strlit("\0");
    let a = tables::lookup_key(group, name);
    let b = tables::lookup_key(other_group, other_name);
    let g = text::lower_text(group);
    let h = text::lower_text(other_group);
    let n = text::lower_text(name);
    let m = text::lower_text(other_name);
    if a == b {
        assert(a[g.len() as int] == '\0');
        assert(b[h.len() as int] == '\0');
        if g.len() < h.len() {
            assert(b[g.len() as int] == h[g.len() as int]);
            assert(other_group[g.len() as int] != '\0');
            assert(false);
        }
        if h.len() < g.len() {
            assert(a[h.len() as int] == g[h.len() as int]);
            assert(group[h.len() as int] != '\0');
            assert(false);
        }
        assert(a.take(g.len() as int) =~= g);
        assert(b.take(g.len() as int) =~= h);
        assert(a.skip(g.len() as int + 1) =~= n);
        assert(b.skip(g.len() as int + 1) =~= m);
    }
}

proof fn none_is_named(p: PackageModel, group: Seq<char>, name: Seq<char>, from: int, k: int)
    requires
        0 <= from <= k < p.exports.len(),
        tables::texture_named(p, group, name, from) == Ok::<Option<int>, Seq<char>>(None),
        package::is_texture_export(Dialect::Engine, p, p.exports[k]),
    ensures
        package::name_of(Dialect::Engine, p, p.exports[k]) matches Ok(path) && !(tables::in_group(
            Dialect::Engine,
            path,
            group,
        ) && text::same_folded(text::after_last_dot(path), name)),
    decreases k - from,
{
    if from < k {
        none_is_named(p, group, name, from + 1, k);
    }
}

proof fn first_is_named(p: PackageModel, group: Seq<char>, name: Seq<char>, from: int, k: int)
    requires
        0 <= from <= k < p.exports.len(),
        tables::texture_named(p, group, name, from) matches Ok(Some(found)) && found > k,
        package::is_texture_export(Dialect::Engine, p, p.exports[k]),
    ensures
        package::name_of(Dialect::Engine, p, p.exports[k]) matches Ok(path) && !(tables::in_group(
            Dialect::Engine,
            path,
            group,
        ) && text::same_folded(text::after_last_dot(path), name)),
    decreases k - from,
{
    if from < k {
        first_is_named(p, group, name, from + 1, k);
    }
}

/// A texture is copied into a group only under a name that no texture of the group has,
/// whatever the case of its letters. The copy lies in the object of that group, and in
/// none for the main group.
pub proof fn copies_have_a_name_of_their_own(
    p: PackageModel,
    index: int,
    group: Seq<char>,
    name: Seq<char>,
    k: int,
)
    requires
        0 <= index,
        texture_engine::duplicated(p, index, group, name) is Ok,
        0 <= k < p.exports.len(),
        package::is_texture_export(Dialect::Engine, p, p.exports[k]),
    ensures
        ({
            let (after, i) = texture_engine::duplicated(p, index, group, name)->Ok_0;
            &&& package::name_of(Dialect::Engine, p, p.exports[k]) matches Ok(path)
            &&& !(tables::in_group(Dialect::Engine, path, group) && text::same_folded(
                text::after_last_dot(path),
                name,
            ))
            &&& name.len() > 0 && text::all_ascii(name) && !name.contains('.')
            &&& texture_engine::with_outer(p, group) matches Ok(place)
            &&& 0 <= i < after.exports.len()
            &&& after.exports[i].package == place.outer
            &&& text::same_folded(group, "Pacote principal"@) ==> after.exports[i].package == 0
        }),
{
    none_is_named(p, group, name, 0, k);
    let (after, i) = texture_engine::duplicated(p, index, group, name)->Ok_0;
    let place = texture_engine::with_outer(p, group)->Ok_0;
    package_laws::outer_keeps_tables(p, group);
    rebuilt_has_exports();
}

proof fn rebuilt_has_exports()
    ensures
        forall|
            p: PackageModel,
            data: Seq<u8>,
            names: Seq<crate::names::NameModel>,
            imports: Seq<crate::package::ImportEntry>,
            exports: Seq<crate::package::ExportEntry>,
        |
            #[trigger] tables::rebuilt(p, data, names, imports, exports) matches Ok(after)
                ==> after.exports == exports,
{
}

/// A texture is renamed only to a name that no texture before it in its group has,
/// whatever the case of its letters.
pub proof fn renamed_textures_have_a_name_of_their_own(
    p: PackageModel,
    index: int,
    name: Seq<char>,
    k: int,
)
    requires
        0 <= index,
        texture_engine::renamed(p, index, name) is Ok,
        0 <= k < p.exports.len(),
        k < index,
        package::is_texture_export(Dialect::Engine, p, p.exports[k]),
    ensures
        ({
            &&& package::name_of(Dialect::Engine, p, p.exports[index]) matches Ok(own)
            &&& package::name_of(Dialect::Engine, p, p.exports[k]) matches Ok(path)
            &&& !(tables::in_group(
                Dialect::Engine,
                path,
                tables::group_or_main(Dialect::Engine, own),
            ) && text::same_folded(text::after_last_dot(path), name))
            &&& name.len() > 0 && text::all_ascii(name) && !name.contains('.')
        }),
{
    let own = package::name_of(Dialect::Engine, p, p.exports[index])->Ok_0;
    let group = tables::group_or_main(Dialect::Engine, own);
    match tables::texture_named(p, group, name, 0)->Ok_0 {
        None => none_is_named(p, group, name, 0, k),
        Some(found) => first_is_named(p, group, name, 0, k),
    }
}

/// A name that a texture of the group has already is refused for a copy.
pub proof fn taken_names_are_refused(
    p: PackageModel,
    index: int,
    group: Seq<char>,
    name: Seq<char>,
    k: int,
)
    requires
        0 <= index,
        0 <= k < p.exports.len(),
        package::is_texture_export(Dialect::Engine, p, p.exports[k]),
        package::name_of(Dialect::Engine, p, p.exports[k]) matches Ok(path) && tables::in_group(
            Dialect::Engine,
            path,
            group,
        ) && text::same_folded(text::after_last_dot(path), name),
    ensures
        texture_engine::duplicated(p, index, group, name) is Err,
{
    if texture_engine::duplicated(p, index, group, name) is Ok {
        none_is_named(p, group, name, 0, k);
    }
}

/// A group that a package does not have is made: an object of its name behind the others,
/// which lies in no other. Textures of the main group lie in none.
pub proof fn missing_groups_are_made(p: PackageModel, group: Seq<char>)
    ensures
        texture_engine::with_outer(p, group) matches Ok(place) ==> {
            &&& text::same_folded(group, "Pacote principal"@) ==> place.outer == 0
                && !place.created && place.exports == p.exports
            &&& !place.created ==> place.exports == p.exports && place.names == p.names
            &&& place.created ==> {
                let n = p.exports.len() as int;
                &&& place.exports.len() == n + 1
                &&& place.outer == n + 1
                &&& place.exports[n].package == 0
                &&& place.exports[n].offset == p.data.len()
                &&& place.exports[n].size == place.bytes.len()
                &&& 0 <= place.exports[n].name_index < place.names.len()
                &&& text::same_folded(
                    place.names[place.exports[n].name_index as int].name,
                    group,
                )
            }
        },
{
    package_laws::outer_keeps_tables(p, group);
    package_laws::interned_extends(p.names, group);
    if let Ok((n1, _)) = names::interned(p.names, group) {
        package_laws::interned_extends(n1, "Core"@);
        if let Ok((n2, _)) = names::interned(n1, "Core"@) {
            package_laws::interned_extends(n2, "Package"@);
            if let Ok((n3, _)) = names::interned(n2, "Package"@) {
                package_laws::interned_extends(n3, "Class"@);
            }
        }
    }
}

/// A path of more than two parts lies in the group of its first part, and is called by its
/// last.
pub proof fn longer_paths_have_group_and_name(
    dialect: Dialect,
    group: Seq<char>,
    middle: Seq<char>,
    leaf: Seq<char>,
)
    requires
        group.len() > 0,
        forall|i: int| 0 <= i < group.len() ==> #[trigger] group[i] != '.',
        forall|i: int| 0 <= i < leaf.len() ==> #[trigger] leaf[i] != '.',
    ensures
        tables::group_of(dialect, group + seq!['.'] + middle + seq!['.'] + leaf) == Some(group),
        text::after_last_dot(group + seq!['.'] + middle + seq!['.'] + leaf) == leaf,
{
    let front = group + seq!['.'] + middle;
    let path = front + seq!['.'] + leaf;
    text::find_char_is_first(path, '.', 0);
    assert(path[group.len() as int] == '.');
    assert forall|i: int| 0 <= i < group.len() implies path[i] != '.' by {
        assert(path[i] == group[i]);
    }
    assert(path.take(group.len() as int) =~= group);
    last_dot_before(front, leaf, path.len() as int);
    assert(path.skip(front.len() as int + 1) =~= leaf);
}

/// A name that a package lacks comes behind the others, with the flags of the first, and
/// one that it has keeps its place.
pub proof fn names_are_added_once(names: Seq<crate::names::NameModel>, name: Seq<char>)
    ensures
        names::interned(names, name) matches Ok((more, index)) ==> {
            &&& 0 <= index < more.len()
            &&& text::same_folded(more[index as int].name, name)
            &&& (exists|i: int|
                0 <= i < names.len() && text::same_folded(#[trigger] names[i].name, name)) ==> more
                == names
            &&& (forall|i: int|
                0 <= i < names.len() ==> !text::same_folded(#[trigger] names[i].name, name)) ==> {
                &&& more.len() == names.len() + 1
                &&& more.drop_last() == names
                &&& index == names.len()
                &&& more.last().name == name
                &&& names.len() > 0 ==> more.last().flags == names[0].flags
            }
        },
{
    names::find_name_is_first(names, name, 0);
    package_laws::interned_extends(names, name);
    if let Ok((more, index)) = names::interned(names, name) {
        if more.len() == names.len() + 1 {
            assert(more.drop_last() =~= names);
        }
    }
}

} // verus!
