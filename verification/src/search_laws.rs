//! Which texture a path leads to, and what is listed and exported.

use vstd::prelude::*;
use crate::batch::IndexedModel;
use crate::extract::UtxExtractMode;
use crate::formats::UtxFormat;
use crate::listing::EntryModel;
use crate::package::PackageModel;
use crate::reader::Dialect;
use crate::tables::Search;
use crate::texture_resize::{DdsFormat, EntryAction, EntryKind};
use crate::animation_laws;
use crate::batch;
use crate::bytes;
use crate::extract;
use crate::formats;
use crate::images;
use crate::listing;
use crate::package;
use crate::paths;
use crate::picture_laws;
use crate::preview;
use crate::session;
use crate::sorting;
use crate::tables;
use crate::text;
use crate::texture_resize;
use crate::animation;

verus! {

/// A path is asked for as it stands, without white space around it and without the words
/// that say that it is a texture.
pub proof fn paths_are_asked_for_without_their_class(s: Seq<char>)
    requires
        s.len() > 0,
        !text::is_white(s[0]),
        !text::is_white(s.last()),
        forall|i: int| 0 <= i < s.len() ==> #[trigger] s[i] != '\'',
    ensures
        tables::requested_path(s) == s,
        tables::requested_path("Texture'"@ + s + seq!['\'']) == s,
{
    reveal_strlit("Texture'");
    let head = "Texture'"@;
    assert(text::trimmed(s) == s);
    assert(s[s.len() - 1] != '\'');
    assert(text::trim_end_of(s, '\'') == s);
    if text::starts_with(s, head) {
        assert(s.take(8)[7] == head[7]);
        assert(s[7] == '\'');
    }
    let whole = head + s + seq!['\''];
    assert(whole[0] == 'T');
    assert(whole.last() == '\'');
    assert(text::trimmed(whole) == whole);
    assert(whole.take(8) =~= head);
    let inner = whole.skip(8);
    assert(inner =~= s + seq!['\'']);
    assert(inner.drop_last() =~= s);
    assert(inner.last() == '\'');
}

/// Whether an export is a texture of this name, in any group.
pub open spec fn has_leaf(p: PackageModel, k: int, leaf: Seq<char>) -> bool {
    &&& package::is_texture_export(Dialect::Engine, p, p.exports[k])
    &&& package::name_of(Dialect::Engine, p, p.exports[k]) matches Ok(name)
    &&& text::same_folded(text::after_last_dot(name), leaf)
}

/// Whether the path of a texture is the one that is asked for, or its end behind a dot.
pub open spec fn has_path(p: PackageModel, k: int, requested: Seq<char>) -> bool {
    &&& package::is_texture_export(Dialect::Engine, p, p.exports[k])
    &&& package::name_of(Dialect::Engine, p, p.exports[k]) matches Ok(name)
    &&& text::same_folded(name, requested) || text::ends_with(requested, "."@ + name)
}

/// What is known of the first exports when none of them has the path.
spec fn knows(p: PackageModel, current: Seq<char>, requested: Seq<char>, from: int, s: Search) -> bool {
    let leaf = text::after_last_dot(requested);
    match s {
        Search::Exact(_) => false,
        Search::Loose { same_group, count, first } => {
            &&& count >= 0
            &&& same_group matches Some(i) ==> 0 <= i < from && has_leaf(p, i, leaf) && (
            package::name_of(Dialect::Engine, p, p.exports[i]) matches Ok(name) && text::before_dot(
                name,
            ) == text::before_dot(current))
            &&& count == 0 ==> forall|k: int| 0 <= k < from ==> !#[trigger] has_leaf(p, k, leaf)
            &&& count == 1 ==> 0 <= first < from && has_leaf(p, first, leaf) && forall|k: int|
                0 <= k < from && k != first ==> !#[trigger] has_leaf(p, k, leaf)
        },
    }
}

proof fn searches_find(
    p: PackageModel,
    current: Seq<char>,
    requested: Seq<char>,
    from: int,
    s: Search,
)
    requires
        0 <= from <= p.exports.len(),
        knows(p, current, requested, from, s),
        forall|k: int| 0 <= k < from ==> !#[trigger] has_path(p, k, requested),
    ensures
        tables::searched(p, current, requested, from, s) matches Ok(done) ==> {
            &&& done matches Search::Exact(i) ==> 0 <= i < p.exports.len() && has_path(
                p,
                i,
                requested,
            ) && forall|k: int| 0 <= k < i ==> !#[trigger] has_path(p, k, requested)
            &&& !(done is Exact) ==> knows(
                p,
                current,
                requested,
                p.exports.len() as int,
                done,
            ) && forall|k: int| 0 <= k < p.exports.len() ==> !#[trigger] has_path(p, k, requested)
        },
    decreases p.exports.len() - from,
{
    if from < p.exports.len() {
        let leaf = text::after_last_dot(requested);
        if !package::is_texture_export(Dialect::Engine, p, p.exports[from]) {
            assert(!has_leaf(p, from, leaf));
            assert(!has_path(p, from, requested));
            searches_find(p, current, requested, from + 1, s);
        } else if let Ok(name) = package::name_of(Dialect::Engine, p, p.exports[from]) {
            if tables::is_exact(name, requested) {
                assert(has_path(p, from, requested));
            } else if text::same_folded(text::after_last_dot(name), leaf) {
                assert(has_leaf(p, from, leaf));
                assert(!has_path(p, from, requested));
                let same = text::before_dot(name) == text::before_dot(current);
                searches_find(p, current, requested, from + 1, tables::matched(s, from, same));
            } else {
                assert(!has_leaf(p, from, leaf));
                assert(!has_path(p, from, requested));
                searches_find(p, current, requested, from + 1, s);
            }
        }
    }
}

/// A path leads to the first texture that has it. Where none has it, it leads to a texture
/// of the same name: one of the group of the texture that asks, or else the only one there
/// is.
pub proof fn references_lead_to_their_texture(p: PackageModel, current: int, path: Seq<char>)
    requires
        0 <= current < p.exports.len(),
        tables::requested_path(path).len() > 0,
    ensures
        tables::resolved(p, current, path) matches Ok(reference) ==> {
            let requested = tables::requested_path(path);
            let leaf = text::after_last_dot(requested);
            let i = reference - 1;
            &&& 0 <= i < p.exports.len()
            &&& package::name_of(Dialect::Engine, p, p.exports[current]) matches Ok(own)
            &&& (exists|k: int| 0 <= k < p.exports.len() && #[trigger] has_path(p, k, requested))
                ==> has_path(p, i, requested) && forall|k: int|
                0 <= k < i ==> !#[trigger] has_path(p, k, requested)
            &&& !has_path(p, i, requested) ==> {
                &&& has_leaf(p, i, leaf)
                &&& package::name_of(Dialect::Engine, p, p.exports[i]) matches Ok(name)
                &&& text::before_dot(name) == text::before_dot(own) || forall|k: int|
                    0 <= k < p.exports.len() && k != i ==> !#[trigger] has_leaf(p, k, leaf)
            }
        },
{
    if let Ok(reference) = tables::resolved(p, current, path) {
        let requested = tables::requested_path(path);
        let own = package::name_of(Dialect::Engine, p, p.exports[current])->Ok_0;
        searches_find(p, own, requested, 0, tables::no_match());
    }
}

/// Whether an export is listed as a texture of this name, in any group.
pub open spec fn is_listed_as(p: PackageModel, k: int, leaf: Seq<char>) -> bool {
    listing::entry_of(p, k) matches Ok(entry) && text::same_folded(
        text::after_last_dot(entry.name),
        leaf,
    )
}

/// Whether the listed path of a texture is the one that is asked for, or its end behind a
/// dot.
pub open spec fn is_listed_at(p: PackageModel, k: int, requested: Seq<char>) -> bool {
    listing::entry_of(p, k) matches Ok(entry) && (text::same_folded(entry.name, requested)
        || text::ends_with(requested, "."@ + entry.name))
}

/// What is known of the first exports when none of them is listed at the path.
spec fn knows_listed(
    p: PackageModel,
    current: Seq<char>,
    requested: Seq<char>,
    from: int,
    s: Search,
) -> bool {
    let leaf = text::after_last_dot(requested);
    match s {
        Search::Exact(_) => false,
        Search::Loose { same_group, count, first } => {
            &&& count >= 0
            &&& same_group matches Some(i) ==> 0 <= i < from && is_listed_as(p, i, leaf)
                && tables::group_of(Dialect::Frontend, listing::entry_of(p, i)->Ok_0.name)
                == tables::group_of(Dialect::Frontend, current)
            &&& count == 0 ==> forall|k: int| 0 <= k < from ==> !#[trigger] is_listed_as(p, k, leaf)
            &&& count == 1 ==> 0 <= first < from && is_listed_as(p, first, leaf) && forall|k: int|
                0 <= k < from && k != first ==> !#[trigger] is_listed_as(p, k, leaf)
        },
    }
}

proof fn listed_searches_find(
    p: PackageModel,
    current: Seq<char>,
    requested: Seq<char>,
    from: int,
    s: Search,
)
    requires
        0 <= from <= p.exports.len(),
        knows_listed(p, current, requested, from, s),
        forall|k: int| 0 <= k < from ==> !#[trigger] is_listed_at(p, k, requested),
    ensures
        ({
            let done = animation::searched_entries(p, current, requested, from, s);
            &&& done matches Search::Exact(i) ==> 0 <= i < p.exports.len() && is_listed_at(
                p,
                i,
                requested,
            ) && forall|k: int| 0 <= k < i ==> !#[trigger] is_listed_at(p, k, requested)
            &&& !(done is Exact) ==> knows_listed(
                p,
                current,
                requested,
                p.exports.len() as int,
                done,
            ) && forall|k: int|
                0 <= k < p.exports.len() ==> !#[trigger] is_listed_at(p, k, requested)
        }),
    decreases p.exports.len() - from,
{
    if from < p.exports.len() {
        let leaf = text::after_last_dot(requested);
        match listing::entry_of(p, from) {
            Err(_) => {
                assert(!is_listed_as(p, from, leaf));
                assert(!is_listed_at(p, from, requested));
                listed_searches_find(p, current, requested, from + 1, s);
            },
            Ok(entry) => {
                if tables::is_exact(entry.name, requested) {
                    assert(is_listed_at(p, from, requested));
                } else if text::same_folded(text::after_last_dot(entry.name), leaf) {
                    assert(is_listed_as(p, from, leaf));
                    assert(!is_listed_at(p, from, requested));
                    let same = animation::same_group(entry.name, current);
                    listed_searches_find(
                        p,
                        current,
                        requested,
                        from + 1,
                        tables::matched(s, from, same),
                    );
                } else {
                    assert(!is_listed_as(p, from, leaf));
                    assert(!is_listed_at(p, from, requested));
                    listed_searches_find(p, current, requested, from + 1, s);
                }
            },
        }
    }
}

/// The next texture of an animation is the first that is listed at its path. Where none
/// is, it is one of the same name: one of the group of the texture itself, or else the only
/// one there is. A reference below zero leads to an import.
pub proof fn next_textures_are_those_asked_for(p: PackageModel, index: int, path: Seq<char>)
    requires
        0 <= index,
    ensures
        tables::requested_path(path).len() == 0 ==> animation::next_reference(p, index, path)
            == Ok::<i32, Seq<char>>(0i32),
        tables::requested_path(path).len() > 0 ==> (animation::next_reference(p, index, path)
            matches Ok(reference) ==> {
            let requested = tables::requested_path(path);
            let leaf = text::after_last_dot(requested);
            let i = reference - 1;
            &&& reference != 0
            &&& listing::entry_of(p, index) matches Ok(own)
            &&& (exists|k: int| 0 <= k < p.exports.len() && #[trigger] is_listed_at(p, k, requested))
                ==> reference > 0 && is_listed_at(p, i, requested)
            &&& reference > 0 ==> i < p.exports.len()
            &&& reference > 0 && !is_listed_at(p, i, requested) ==> is_listed_as(p, i, leaf) && (
            tables::group_of(Dialect::Frontend, listing::entry_of(p, i)->Ok_0.name)
                == tables::group_of(Dialect::Frontend, own.name) || forall|k: int|
                0 <= k < p.exports.len() && k != i ==> !#[trigger] is_listed_as(p, k, leaf))
            &&& reference < 0 ==> 0 <= -reference - 1 < p.imports.len() && (package::import_path_of(
                Dialect::Frontend,
                p.names,
                p.imports,
                p.exports,
                -reference - 1,
                0,
            ) matches Ok(found) && text::same_folded(found, requested))
        }),
{
    reveal(animation::next_reference);
    let requested = tables::requested_path(path);
    if requested.len() > 0 {
        if let Ok(own) = listing::entry_of(p, index) {
            listed_searches_find(p, own.name, requested, 0, tables::no_match());
            first_import_is_named(p, requested, 0);
        }
    }
}

proof fn first_import_is_named(p: PackageModel, requested: Seq<char>, from: int)
    requires
        0 <= from,
    ensures
        animation::import_named(p, requested, from) matches Some(i) ==> {
            &&& from <= i < p.imports.len()
            &&& package::import_path_of(Dialect::Frontend, p.names, p.imports, p.exports, i, 0)
                matches Ok(found)
            &&& text::same_folded(found, requested)
        },
    decreases p.imports.len() - from,
{
    if from < p.imports.len() {
        first_import_is_named(p, requested, from + 1);
    }
}

/// Every texture that can be read is listed, as often as it is there, and nothing else.
pub proof fn readable_textures_are_listed(p: PackageModel, n: nat, k: int)
    requires
        n <= p.exports.len(),
    ensures
        0 <= k < n && listing::entry_of(p, k) is Ok && package::is_texture_export(
            Dialect::Frontend,
            p,
            p.exports[k],
        ) ==> listing::readable_entries(p, n).contains(listing::entry_of(p, k)->Ok_0),
        0 <= k < listing::readable_entries(p, n).len() ==> {
            let entry = listing::readable_entries(p, n)[k];
            &&& 0 <= entry.index < n
            &&& listing::entry_of(p, entry.index) == Ok::<EntryModel, Seq<char>>(entry)
            &&& package::is_texture_export(Dialect::Frontend, p, p.exports[entry.index])
        },
        listing::readable_entries(p, n).len() <= n,
    decreases n,
{
    if n > 0 {
        let m = (n - 1) as nat;
        readable_textures_are_listed(p, m, k);
        let before = listing::readable_entries(p, m);
        let after = listing::readable_entries(p, n);
        if let Ok(entry) = listing::entry_of(p, m as int) {
            animation_laws::textures_are_listed_with_their_properties(p, m as int);
            if package::is_texture_export(Dialect::Frontend, p, p.exports[m as int]) {
                assert(after == before.push(entry));
                assert(after[before.len() as int] == entry);
                assert forall|e: EntryModel| before.contains(e) implies after.contains(e) by {
                    let i = choose|i: int| 0 <= i < before.len() && before[i] == e;
                    assert(after[i] == e);
                }
            }
        }
    }
}

/// A listing has its textures by ascending name, without regard to case, and all of them.
pub proof fn listings_are_sorted(found: Seq<EntryModel>, listed: Seq<EntryModel>, i: int, j: int)
    requires
        listing::listed_in_order(found, listed),
        0 <= i < j < listed.len(),
    ensures
        listed.len() == found.len(),
        !sorting::text_less(text::lower_text(listed[j].name), text::lower_text(listed[i].name)),
{
    let keys = listing::sort_keys(found);
    let order = choose|order: Seq<usize>| #[trigger]
        sorting::sorted_order(keys, order) && listed == Seq::new(
            order.len(),
            |i: int| found[order[i] as int],
        );
    assert(sorting::in_order(keys, order[i], order[j]));
}

/// The file of an exported texture gives back its pixels: a plain texture becomes a TGA
/// file, a compressed one a DDS file of its compression, and any other its bytes.
pub proof fn exported_files_hold_their_pixels(p: PackageModel, entry: EntryModel)
    requires
        entry.width > 0,
        entry.height > 0,
    ensures
        listing::exported_file(p, entry) matches Ok(file) ==> {
            &&& listing::pixels_of(p, entry.index) matches Ok(pixels)
            &&& entry.format == UtxFormat::Rgba8 ==> images::tga_content(file) == Ok::<
                (i32, i32, Seq<u8>),
                Seq<char>,
            >((entry.width, entry.height, pixels.take(entry.width * entry.height * 4)))
            &&& entry.format == UtxFormat::Dxt1 || entry.format == UtxFormat::Dxt3 || entry.format
                == UtxFormat::Dxt5 ==> images::dds_content(file) == Ok::<
                (UtxFormat, i32, i32, Seq<u8>),
                Seq<char>,
            >(
                (
                    entry.format,
                    entry.width,
                    entry.height,
                    pixels.take(
                        picture_laws::blocks_take(
                            entry.width as int,
                            entry.height as int,
                            entry.format,
                        ),
                    ),
                ),
            )
            &&& !formats::previewable(entry.format) ==> file == pixels
        },
{
    if let Ok(pixels) = listing::pixels_of(p, entry.index) {
        images::tga_round_trip(pixels, entry.width, entry.height);
        if formats::compressed(entry.format) {
            images::dds_round_trip(pixels, entry.width, entry.height, entry.format);
        }
    }
}

/// An extraction gives every texture as it would be exported, or as a PNG picture of its
/// pixels.
pub proof fn extracted_files_are_exported_or_shown(p: PackageModel, entry: EntryModel)
    ensures
        extract::extracted_file(p, entry, UtxExtractMode::Original) == listing::exported_file(
            p,
            entry,
        ),
        extract::extract_extension_of(UtxExtractMode::Png, entry.format) == "png"@,
        extract::extract_extension_of(UtxExtractMode::Original, entry.format)
            == formats::extension_of(entry.format),
        extract::extracted_file(p, entry, UtxExtractMode::Png) matches Ok(file) ==> {
            &&& listing::pixels_of(p, entry.index) matches Ok(pixels)
            &&& preview::rgba_of(pixels, entry.width, entry.height, entry.format) matches Ok(rgba)
            &&& file == preview::png_file(rgba, entry.width as u32, entry.height as u32)
            &&& entry.format == UtxFormat::Rgba8 || entry.format == UtxFormat::Dxt1 || entry.format
                == UtxFormat::Dxt3 || entry.format == UtxFormat::Dxt5
        },
{
}

/// A preview shows the pixels of its texture, with its dimensions.
pub proof fn previews_show_their_texture(p: PackageModel, index: int)
    ensures
        session::shown_texture(p, index) matches Ok((png, width, height)) ==> {
            &&& listing::entry_of(p, index) matches Ok(entry)
            &&& width == entry.width
            &&& height == entry.height
            &&& listing::pixels_of(p, index) matches Ok(pixels)
            &&& preview::rgba_of(pixels, width, height, entry.format) matches Ok(rgba)
            &&& png == preview::png_file(rgba, width as u32, height as u32)
        },
{
}

/// The texture that a file is to replace is the first with the key that is looked for.
pub proof fn first_textures_are_found(index: Seq<IndexedModel>, key: Seq<char>, from: int, k: int)
    requires
        0 <= from,
    ensures
        batch::find_indexed(index, key, from) matches Some(entry) ==> exists|i: int|
            from <= i < index.len() && #[trigger] index[i].key == key && index[i].entry == entry
                && forall|j: int| from <= j < i ==> #[trigger] index[j].key != key,
        batch::find_indexed(index, key, from) is None && from <= k < index.len() ==> index[k].key
            != key,
    decreases index.len() - from,
{
    if from < index.len() && index[from].key != key {
        first_textures_are_found(index, key, from + 1, k);
        if let Some(entry) = batch::find_indexed(index, key, from) {
            let i = choose|i: int|
                from + 1 <= i < index.len() && #[trigger] index[i].key == key && index[i].entry
                    == entry && forall|j: int| from + 1 <= j < i ==> #[trigger] index[j].key != key;
            assert(index[i].key == key);
        }
    } else if from < index.len() {
        assert(index[from].key == key);
    }
}

/// A report on an import is shown at its start, at its end, where it speaks of no file,
/// after 32 files, and after 75 milliseconds.
pub proof fn reports_are_due(completed: int, total: int, has_file: bool, last: int, millis: int)
    ensures
        extract::is_due(completed, total, has_file, last, millis) == (completed == 0 || completed
            >= total || !has_file || completed - last >= 32 || millis >= 75),
{
}

/// Textures can be resized from and to the powers of two from 4 to 2048.
pub proof fn sizes_are_powers_of_two(size: u32)
    ensures
        texture_resize::supported(size) == (size == 4 || size == 8 || size == 16 || size == 32
            || size == 64 || size == 128 || size == 256 || size == 512 || size == 1024 || size
            == 2048),
{
    vstd::arithmetic::power2::lemma2_to64();
    if texture_resize::supported(size) {
        let n = choose|n: nat| size == #[trigger] vstd::arithmetic::power2::pow2(n);
        if n > 11 {
            vstd::arithmetic::power2::lemma_pow2_strictly_increases(11, n);
        }
    }
}

/// A search for textures enters folders and takes DDS and TGA files, and passes by what a
/// run has written.
pub proof fn searches_take_textures(path: Seq<char>, is_output: bool, kind: EntryKind)
    ensures
        ({
            let action = texture_resize::action_on(path, is_output, kind);
            &&& action == EntryAction::Enter <==> !is_output && kind == EntryKind::Directory
            &&& action == EntryAction::Take <==> !is_output && kind == EntryKind::File && (
            paths::has_extension_of(path, "dds"@) || paths::has_extension_of(path, "tga"@))
        }),
{
}

/// The DDS file of a resized texture has the header that old readers know, with the new
/// size in it and the compression of the texture, and its blocks behind the header.
#[verifier::spinoff_prover]
#[verifier::rlimit(30)]
pub proof fn resized_dds_files_are_read(
    width: u32,
    height: u32,
    format: DdsFormat,
    blocks: Seq<u8>,
)
    requires
        0 < width <= 16384,
        0 < height <= 16384,
    ensures
        texture_resize::legacy_dds(width, height, format, blocks) matches Ok(file) ==> {
            &&& file.len() == 128 + blocks.len()
            &&& file[0] == 'D' as u8 && file[1] == 'D' as u8 && file[2] == 'S' as u8 && file[3]
                == ' ' as u8
            &&& picture_laws::number_at(file, 4) == 124
            &&& picture_laws::number_at(file, 12) == height
            &&& picture_laws::number_at(file, 16) == width
            &&& picture_laws::number_at(file, 20) == blocks.len()
            &&& file[84] == 'D' as u8 && file[85] == 'X' as u8 && file[86] == 'T' as u8
            &&& format == DdsFormat::Dxt1 ==> file[87] == '1' as u8
            &&& format == DdsFormat::Dxt3 ==> file[87] == '3' as u8
            &&& format == DdsFormat::Dxt5 ==> file[87] == '5' as u8
            &&& format != DdsFormat::Other
            &&& file.skip(128) == blocks
            &&& blocks.len() == ((width + 3) / 4) * ((height + 3) / 4) * if format
                == DdsFormat::Dxt1 {
                8int
            } else {
                16
            }
        },
{
    if let Ok(file) = texture_resize::legacy_dds(width, height, format, blocks) {
        let size = texture_resize::payload_len(width, height, format);
        sizes_fit(width, height, size);
        let h = texture_resize::legacy_header(width, height, size as u32, format);
        assert(h.len() == 128);
        assert(file.skip(128) =~= blocks);
        assert forall|i: int| 0 <= i < 128 implies file[i] == h[i] by {}
        word_at(h, 4, 124);
        word_at(h, 12, height);
        word_at(h, 16, width);
        word_at(h, 20, size as u32);
        assert(h.subrange(4, 8) =~= bytes::le32(124));
        assert(h.subrange(12, 16) =~= bytes::le32(height));
        assert(h.subrange(16, 20) =~= bytes::le32(width));
        assert(h.subrange(20, 24) =~= bytes::le32(size as u32));
        let name = images::four_cc(texture_resize::utx_format_of(format));
        assert(h[84] == name[0] && h[85] == name[1] && h[86] == name[2] && h[87] == name[3]);
    }
}

proof fn sizes_fit(width: u32, height: u32, size: int)
    requires
        0 < width <= 16384,
        0 < height <= 16384,
        size == ((width + 3) / 4) * ((height + 3) / 4) * 8 || size == ((width + 3) / 4) * ((height
            + 3) / 4) * 16,
    ensures
        0 <= size <= 268435456,
{
    let a = (width + 3) / 4;
    let b = (height + 3) / 4;
    assert(0 <= a * b <= 4096 * 4096) by (nonlinear_arith)
        requires
            0 <= a <= 4096,
            0 <= b <= 4096,
    ;
}

proof fn word_at(d: Seq<u8>, p: int, v: u32)
    requires
        0 <= p,
        p + 4 <= d.len(),
    ensures
        d.subrange(p, p + 4) == bytes::le32(v) ==> picture_laws::number_at(d, p) == v,
{
    let s = d.subrange(p, p + 4);
    assert(s[0] == d[p] && s[1] == d[p + 1] && s[2] == d[p + 2] && s[3] == d[p + 3]);
    let b = bytes::le32(v);
    assert(b[0] + 256 * b[1] + 65536 * b[2] + 16777216 * b[3] == v);
}

/// A texture that is to be resized is of the kind of its file: TGA files by their
/// extension, and DDS files by the compression that they name.
pub proof fn textures_are_of_the_kind_of_their_file(
    path: Seq<char>,
    tga: Result<crate::texture_resize::RasterModel, Seq<char>>,
    format: Result<Result<DdsFormat, Seq<char>>, Seq<char>>,
    dds: Result<crate::texture_resize::RasterModel, Seq<char>>,
)
    ensures
        texture_resize::decoded_from(path, tga, format, dds) matches Ok(texture) ==> {
            &&& paths::has_extension_of(path, "tga"@) ==> texture.kind
                == crate::texture_resize::TextureKind::Tga && tga == Ok::<
                crate::texture_resize::RasterModel,
                Seq<char>,
            >(texture.image)
            &&& !paths::has_extension_of(path, "tga"@) ==> {
                &&& format matches Ok(Ok(found))
                &&& found != DdsFormat::Other
                &&& texture.kind == crate::texture_resize::TextureKind::Dds(found)
                &&& dds == Ok::<crate::texture_resize::RasterModel, Seq<char>>(texture.image)
            }
        },
        paths::has_extension_of(path, "tga"@) && tga is Ok ==> texture_resize::decoded_from(
            path,
            tga,
            format,
            dds,
        ) is Ok,
{
}

/// A texture is resized if it has the size that is to be changed on both sides, and the
/// new size is another.
pub proof fn textures_of_the_size_are_resized(
    image: crate::texture_resize::RasterModel,
    from: u32,
    to: u32,
)
    ensures
        texture_resize::is_resized(image, from, to) == (image.width == from && image.height == from
            && from != to),
{
}

} // verus!
