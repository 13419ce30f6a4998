//! What appending textures and writing animations leaves in a package.

use vstd::prelude::*;
use crate::animation::{PreparedModel, UpdateModel};
use crate::app_settings::SettingsRead;
use crate::appending::AppendModel;
use crate::entries::{AnimationPropertyPresence, AnimationValues};
use crate::imports::ImportedModel;
use crate::layout::{Split9, TextureLayout};
use crate::names::NameModel;
use crate::package::{ExportEntry, PackageModel};
use crate::reader::{Dialect, TagModel};
use crate::animation;
use crate::animation_laws;
use crate::app_settings;
use crate::appending;
use crate::bytes;
use crate::encryption;
use crate::entries;
use crate::extract;
use crate::formats;
use crate::layout;
use crate::listing;
use crate::listing_laws;
use crate::names;
use crate::package;
use crate::paths;
use crate::picture_laws;
use crate::reader;
use crate::seed_laws;
use crate::session;
use crate::sorting;
use crate::text;

verus! {

proof fn named_at(names: Seq<NameModel>, name: Seq<char>)
    ensures
        appending::with_name(names, name) matches Ok((more, index)) ==> {
            &&& 0 <= index < more.len()
            &&& text::same_folded(more[index as int].name, name)
            &&& names.len() <= more.len() <= names.len() + 1
            &&& more.take(names.len() as int) =~= names
        },
{
    names::find_name_is_first(names, name, 0);
}

/// Textures of the main group lie in no object. Those of another group lie where its first
/// texture lies, or in the object of its name, or in a new object of that name behind the
/// others, which lies in none and starts at the end of the data.
#[verifier::spinoff_prover]
#[verifier::rlimit(30)]
pub proof fn appended_textures_lie_in_their_group(p: PackageModel, base: int, group: Seq<char>)
    requires
        0 <= base,
    ensures
        appending::append_start(p, base, group) matches Ok((start, outer)) ==> {
            let n = p.exports.len() as int;
            &&& text::same_folded(group, "Pacote principal"@) ==> outer == 0 && start.exports
                == p.exports && start.added.len() == 0
            &&& start.exports.len() == n ==> start.exports == p.exports && start.names == p.names
                && start.imports == p.imports && start.added.len() == 0
            &&& start.exports.len() != n ==> {
                let made = start.exports.last();
                &&& start.exports.len() == n + 1
                &&& start.exports.drop_last() == p.exports
                &&& outer == n + 1
                &&& made.package == 0
                &&& made.offset == base
                &&& made.size == start.added.len()
                &&& 0 <= made.name_index < start.names.len()
                &&& text::same_folded(start.names[made.name_index as int].name, group)
            }
        },
{
    if let Ok((start, outer)) = appending::append_start(p, base, group) {
        named_at(p.names, group);
        if appending::outer_of_group(p, group) == Ok::<Option<i32>, Seq<char>>(None) {
            let (n1, index) = appending::with_name(p.names, group)->Ok_0;
            named_at(n1, "Core"@);
            if let Ok((n2, _)) = appending::with_name(n1, "Core"@) {
                named_at(n2, "Package"@);
                if let Ok((n3, _)) = appending::with_name(n2, "Package"@) {
                    named_at(n3, "Class"@);
                    if let Ok((n4, _)) = appending::with_name(n3, "Class"@) {
                        assert(n4.take(n3.len() as int)[index as int] == n4[index as int]);
                    }
                    assert(n3.take(n2.len() as int)[index as int] == n3[index as int]);
                }
                assert(n2.take(n1.len() as int)[index as int] == n2[index as int]);
            }
            assert(start.exports.drop_last() =~= p.exports);
        }
    }
}

/// Textures are appended one after the other: each stands behind the bytes of those before
/// it, with an export of its own name in the object of the group.
#[verifier::spinoff_prover]
#[verifier::rlimit(30)]
pub proof fn textures_are_appended_in_turn(
    s: AppendModel,
    base: int,
    model: PackageModel,
    index: int,
    outer: i32,
    texture: ImportedModel,
)
    requires
        0 <= base,
        0 <= index,
    ensures
        appending::with_texture_added(s, base, model, index, outer, texture) matches Ok(after) ==> {
            let one = after.exports.last();
            &&& after.exports.len() == s.exports.len() + 1
            &&& after.exports.drop_last() == s.exports
            &&& one.package == outer
            &&& one.class == model.exports[index].class
            &&& one.offset == base + s.added.len()
            &&& after.added.len() == s.added.len() + one.size
            &&& after.added.take(s.added.len() as int) == s.added
            &&& 0 <= one.name_index < after.names.len()
            &&& text::same_folded(after.names[one.name_index as int].name, texture.name)
        },
{
    if let Ok(after) = appending::with_texture_added(s, base, model, index, outer, texture) {
        let start = base + s.added.len();
        let export = model.exports[index];
        let raw = package::data_of(Dialect::Frontend, model.data, export)->Ok_0;
        let (built, place, pointer) = appending::built_export(model, raw, texture)->Ok_0;
        let bytes = bytes::with_i32_at(built, pointer as int, (start + place) as i32)->Ok_0;
        seed_laws::appended_exports_lead_to_their_bytes(
            s,
            start as int,
            bytes,
            export,
            outer,
            texture.name,
        );
        assert(after.added.take(s.added.len() as int) =~= s.added);
    }
}

/// Without textures a package file stays as it is.
pub proof fn nothing_appended_changes_nothing(
    working: Seq<u8>,
    p: PackageModel,
    template: Option<PackageModel>,
    group: Seq<char>,
)
    ensures
        appending::with_textures_appended(working, p, template, group, Seq::empty()) == Ok::<
            Seq<u8>,
            Seq<char>,
        >(working),
        animation::with_animations(working, p, Seq::empty()) == Ok::<Seq<u8>, Seq<char>>(working),
{
}

/// As many textures are appended as there are.
pub proof fn all_textures_are_appended(
    s: AppendModel,
    base: int,
    p: PackageModel,
    template: Option<PackageModel>,
    group: Seq<char>,
    outer: i32,
    textures: Seq<ImportedModel>,
    n: nat,
    i: int,
)
    requires
        0 <= base,
        n <= textures.len(),
        0 <= i < n,
    ensures
        appending::with_new_textures(s, base, p, template, group, outer, textures, n) matches Ok(
            after,
        ) ==> {
            &&& after.exports.len() == s.exports.len() + n
            &&& after.exports.take(s.exports.len() as int) == s.exports
            &&& after.exports[s.exports.len() + i].package == outer
        },
    decreases n,
{
    let m = (n - 1) as nat;
    if let Ok(after) = appending::with_new_textures(s, base, p, template, group, outer, textures, n) {
        let before = appending::with_new_textures(
            s,
            base,
            p,
            template,
            group,
            outer,
            textures,
            m,
        )->Ok_0;
        let split9 = textures[m as int].metadata.split9 is Some;
        let animated = textures[m as int].metadata.animation is Some;
        seed_laws::models_are_alike(p, group, split9, animated);
        if let Some(other) = template {
            seed_laws::models_are_alike(other, group, split9, animated);
        }
        let (model, index) = appending::chosen_template(p, template, group, textures[m as int])->Ok_0;
        textures_are_appended_in_turn(before, base, model, index, outer, textures[m as int]);
        assert(after.exports =~= before.exports.push(after.exports.last()));
        if m > 0 {
            let k = if i < m {
                i
            } else {
                0
            };
            all_textures_are_appended(s, base, p, template, group, outer, textures, m, k);
            assert(after.exports.take(s.exports.len() as int) =~= before.exports.take(
                s.exports.len() as int,
            ));
        } else {
            assert(before.exports == s.exports);
            assert(after.exports.take(s.exports.len() as int) =~= s.exports);
        }
    }
}

/// The properties of a texture are gone through in turn: each is rewritten and put behind
/// those before it, and the animation properties are noted under their names.
#[verifier::spinoff_prover]
#[verifier::rlimit(40)]
pub proof fn animations_are_written_in_turn(
    names: Seq<NameModel>,
    d: Seq<u8>,
    p: int,
    name: Seq<char>,
    tag: TagModel,
    values: AnimationValues,
    before: Seq<u8>,
    found: AnimationPropertyPresence,
)
    requires
        listing_laws::is_listed(names, d, p, name, tag),
        !text::same_folded(name, "None"@),
    ensures
        ({
            let (index, _) = reader::compact_at(Dialect::Frontend, d, p)->Ok_0;
            let end = tag.start + tag.size;
            let all = animation::animated_from(names, d, p, values, before, found);
            let piece = animation::animated_property(d, p, end, index, name, tag, values);
            &&& piece is Err ==> all is Err
            &&& piece matches Ok(more) ==> {
                let next = |now: AnimationPropertyPresence|
                    animation::animated_from(names, d, end, values, before + more, now);
                &&& text::same_folded(name, "AnimNext"@) ==> all == next(
                    AnimationPropertyPresence { anim_next: true, ..found },
                )
                &&& text::same_folded(name, "MaxFrameRate"@) ==> all == next(
                    AnimationPropertyPresence { max_frame_rate: true, ..found },
                )
                &&& text::same_folded(name, "MinFrameRate"@) ==> all == next(
                    AnimationPropertyPresence { min_frame_rate: true, ..found },
                )
                &&& text::same_folded(name, "OneTimeAnimLoop"@) ==> all == next(
                    AnimationPropertyPresence { one_time_anim_loop: true, ..found },
                )
                &&& text::same_folded(name, "PrimeCount"@) ==> all == next(
                    AnimationPropertyPresence { prime_count: true, ..found },
                )
                &&& text::same_folded(name, "TotalFrameNum"@) ==> all == next(
                    AnimationPropertyPresence { total_frame_num: true, ..found },
                )
            }
        }),
{
    animation_laws::frame_names_differ();
    let m = animation_laws::frame_mark(name);
    let (_, q) = reader::compact_at(Dialect::Frontend, d, p)->Ok_0;
    reader::compact_moves(Dialect::Frontend, d, p);
    reader::tag_moves(Dialect::Frontend, d, q);
}

/// A texture with another animation keeps everything from its mip maps on, and lacks no
/// property that the animation needs.
pub proof fn animated_textures_keep_their_mip_maps(
    p: PackageModel,
    d: Seq<u8>,
    values: AnimationValues,
)
    requires
        d.len() <= usize::MAX,
    ensures
        animation::reanimated(p, d, values) matches Ok(after) ==> {
            &&& layout::layout_of(Dialect::Frontend, p.names, p.version, p.licensee, d) matches Ok(
                layout,
            )
            &&& after.original_mip_count_offset == layout.mip_count_offset
            &&& 0 <= after.mip_count_offset <= after.bytes.len()
            &&& after.bytes.skip(after.mip_count_offset) == d.skip(
                layout.mip_count_offset as int,
            )
            &&& animation::animated_from(
                p.names,
                d,
                0,
                values,
                Seq::empty(),
                entries::no_presence(),
            ) matches Ok((properties, found, end))
            &&& animation::missing_property(values, found) is None
            &&& properties.len() <= after.mip_count_offset
            &&& after.bytes.take(properties.len() as int) == properties
        },
{
    reveal(animation::reanimated);
    if let Ok(after) = animation::reanimated(p, d, values) {
        let layout = layout::layout_of(
            Dialect::Frontend,
            p.names,
            p.version,
            p.licensee,
            d,
        )->Ok_0;
        layout::layout_bounds(Dialect::Frontend, p.names, p.version, p.licensee, d);
        let (properties, _, _) = animation::animated_from(
            p.names,
            d,
            0,
            values,
            Seq::empty(),
            entries::no_presence(),
        )->Ok_0;
        assert(after.bytes.skip(after.mip_count_offset) =~= d.skip(layout.mip_count_offset as int));
        assert(after.bytes.take(properties.len() as int) =~= properties);
    }
}

/// A texture with a new animation stands at the end of the data, its export leads there,
/// and its pointer leads behind its pixels. Other exports stay.
#[verifier::spinoff_prover]
#[verifier::rlimit(30)]
pub proof fn animated_textures_stand_at_the_end(
    data: Seq<u8>,
    exports: Seq<ExportEntry>,
    one: PreparedModel,
    k: int,
)
    requires
        one.texture.mip_count_offset >= 0,
        one.texture.original_mip_count_offset >= 0,
    ensures
        animation::with_animation_placed(data, exports, one) matches Ok((after, table)) ==> {
            let t = one.texture;
            let word = data.len() + t.mip_count_offset + one.mip.width_offset_position
                - t.original_mip_count_offset;
            &&& after.len() == data.len() + t.bytes.len()
            &&& after.take(data.len() as int) == data
            &&& 0 <= one.index < exports.len() == table.len()
            &&& table[one.index].offset == data.len()
            &&& table[one.index].size == t.bytes.len()
            &&& table[one.index].name_index == exports[one.index].name_index
            &&& table[one.index].package == exports[one.index].package
            &&& 0 <= k < exports.len() && k != one.index ==> table[k] == exports[k]
            &&& word + 4 <= after.len()
            &&& picture_laws::number_at(after, word) == data.len() + t.mip_count_offset
                + one.mip.pixel_offset - t.original_mip_count_offset + one.mip.size
        },
{
    if let Ok((after, table)) = animation::with_animation_placed(data, exports, one) {
        let t = one.texture;
        let pointer = t.mip_count_offset + one.mip.width_offset_position
            - t.original_mip_count_offset;
        let target = data.len() + t.mip_count_offset + one.mip.pixel_offset
            - t.original_mip_count_offset + one.mip.size;
        assert(after.take(data.len() as int) =~= data);
        let b = bytes::i32_bytes(target as i32);
        let word = data.len() + pointer;
        assert(after[word] == b[0] && after[word + 1] == b[1] && after[word + 2] == b[2]
            && after[word + 3] == b[3]);
        assert(b[0] + 256 * b[1] + 65536 * b[2] + 16777216 * b[3] == target);
    }
}

/// Of several updates of one texture the first counts.
pub proof fn first_updates_count(p: PackageModel, updates: Seq<UpdateModel>, n: nat, i: int)
    requires
        n <= updates.len(),
        0 <= i < n,
        forall|k: int| 0 <= k < i ==> (#[trigger] updates[k]).index != updates[i].index,
    ensures
        animation::prepared_animations(p, updates, n) matches Ok(prepared) ==> {
            &&& animation::prepared_animation(p, updates[i]) matches Ok(one)
            &&& prepared.contains(one)
            &&& prepared.len() <= n
        },
    decreases n,
{
    let m = (n - 1) as nat;
    if let Ok(prepared) = animation::prepared_animations(p, updates, n) {
        let before = animation::prepared_animations(p, updates, m)->Ok_0;
        prepared_are_few(p, updates, n);
        if i < m {
            first_updates_count(p, updates, m, i);
            let one = animation::prepared_animation(p, updates[i])->Ok_0;
            let k = choose|k: int| 0 <= k < before.len() && before[k] == one;
            assert(prepared[k] == one);
        } else {
            let one = animation::prepared_animation(p, updates[i])->Ok_0;
            assert(prepared[before.len() as int] == one);
        }
    }
}

proof fn prepared_are_few(p: PackageModel, updates: Seq<UpdateModel>, n: nat)
    ensures
        animation::prepared_animations(p, updates, n) matches Ok(prepared) ==> prepared.len() <= n,
    decreases n,
{
    if n > 0 {
        prepared_are_few(p, updates, (n - 1) as nat);
    }
}

/// What is stored of the nine parts is all of them where all can be stored, and nothing
/// where the first cannot.
pub proof fn parts_are_stored_in_turn(d: Seq<u8>, layout: TextureLayout, split9: Split9)
    ensures
        layout::with_split9(d, layout, split9) matches Ok(e) ==> layout::split9_stored(
            d,
            layout,
            split9,
        ) == e,
        layout.split9_x1 is None && split9.x1 != 0 ==> layout::split9_stored(d, layout, split9) == d
            && layout::with_split9(d, layout, split9) is Err,
{
}

/// Settings that were never saved are none, and a file that cannot be opened is an error.
pub proof fn settings_are_those_in_the_file(path: Seq<char>, read: SettingsRead)
    ensures
        read is Missing ==> app_settings::loaded(path, read) == Ok::<
            Seq<(Seq<char>, Seq<char>)>,
            Seq<char>,
        >(Seq::empty()),
        read is Failed ==> app_settings::loaded(path, read) is Err,
        read matches SettingsRead::Contents(contents) ==> {
            &&& app_settings::settings_in(contents@) matches Ok(settings) ==> app_settings::loaded(
                path,
                read,
            ) == Ok::<Seq<(Seq<char>, Seq<char>)>, Seq<char>>(settings)
            &&& app_settings::settings_in(contents@) is Err ==> app_settings::loaded(path, read)
                is Err
        },
{
}

/// A package file is opened with its encryption removed, and is stored again under the
/// header and the key that it had.
pub proof fn opened_files_keep_their_encryption(path: Seq<char>, raw: Seq<u8>)
    ensures
        session::opened(path, raw) matches Ok(cache) ==> {
            let name = match paths::file_name_of(path) {
                Some(name) => name,
                None => Seq::empty(),
            };
            &&& encryption::decrypted(raw, name) matches Ok(m)
            &&& cache.path == path
            &&& cache.encrypted == m.encrypted
            &&& cache.key == m.key
            &&& cache.header == m.header
            &&& package::package_of(Dialect::Frontend, m.working) == Ok::<PackageModel, Seq<char>>(
                cache.package,
            )
        },
{
}

/// A texture is exported to a file with the extension of its format or with none; other
/// extensions are refused.
pub proof fn exports_have_the_extension_of_their_format(
    p: PackageModel,
    index: int,
    path: Seq<char>,
)
    ensures
        extract::exported_to(p, index, path) matches Ok((entry, file)) ==> {
            &&& listing::entry_of(p, index) == Ok::<crate::listing::EntryModel, Seq<char>>(entry)
            &&& listing::exported_file(p, entry) == Ok::<Seq<u8>, Seq<char>>(file)
            &&& paths::path_extension_of(path) matches Some(found) ==> text::same_folded(
                found,
                formats::extension_of(entry.format),
            )
        },
{
}

/// An exported texture is called by the last part of its name and its extension, and one
/// that cannot be read by its number, from one on.
pub proof fn exports_are_called_by_their_texture(
    p: PackageModel,
    index: int,
    name: Seq<char>,
    extension: Seq<char>,
)
    ensures
        extract::target_name(name, extension) == paths::export_name(name) + "."@ + extension,
        listing::entry_of(p, index) is Err ==> extract::export_label_of(p, index) == "Textura #"@
            + text::decimal(index + 1),
        listing::entry_of(p, index) matches Ok(entry) ==> extract::export_label_of(p, index)
            == paths::export_name(entry.name),
{
}

/// Sorted texts are the same texts in ascending order.
pub proof fn sorted_texts_ascend(found: Seq<Seq<char>>, sorted: Seq<Seq<char>>, i: int, j: int)
    requires
        extract::sorted_texts(found, sorted),
        0 <= i < j < sorted.len(),
    ensures
        sorted.len() == found.len(),
        !sorting::text_less(sorted[j], sorted[i]),
        found.contains(sorted[i]),
{
    let order = choose|order: Seq<usize>| #[trigger]
        sorting::sorted_order(found, order) && sorted == Seq::new(
            order.len(),
            |i: int| found[order[i] as int],
        );
    assert(sorting::in_order(found, order[i], order[j]));
    assert(found[order[i] as int] == sorted[i]);
}

} // verus!
