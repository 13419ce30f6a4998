//! What texts and the names of files are taken for.

use vstd::prelude::*;
use crate::formats::UtxFormat;
use crate::geodata::GeodataFormat;
use crate::geodata_plan::{SourceFate, SourceFile};
use crate::formats;
use crate::geodata_plan;
use crate::geodata_region;
use crate::paths;
use crate::text;
use crate::extract;
use crate::images;
use crate::imports;
use crate::layout;
use crate::texture_engine;
use crate::utf16;
use crate::sorting;

verus! {

/// Only the letters from A to Z have another small form: the one of the same place.
pub proof fn small_letters(c: char)
    ensures
        'A' <= c <= 'Z' ==> text::lower(c) as int == c as int - 'A' as int + 'a' as int,
        !('A' <= c <= 'Z') ==> text::lower(c) == c,
{
}

/// A number is written with its digits, the highest first, and a sign where it is
/// negative.
pub proof fn numbers_are_written_by_digits(n: nat, k: int)
    requires
        0 <= k < 10,
    ensures
        text::digits(k as nat) == seq![('0' as int + k) as char],
        n > 0 ==> text::digits((10 * n + k) as nat) == text::digits(n).push(
            ('0' as int + k) as char,
        ),
        text::decimal(n as int) == text::digits(n),
        n > 0 ==> text::decimal(-(n as int)) == seq!['-'] + text::digits(n),
{
    assert((10 * n + k) as nat / 10 == n);
    assert((10 * n + k) as nat % 10 == k);
}

/// A text of digits is ten times the number of what stands before the last one, and that
/// one.
pub proof fn digits_are_read_as_numbers(s: Seq<char>, c: char)
    requires
        '0' <= c <= '9',
    ensures
        text::number_of(Seq::empty()) == 0,
        text::number_of(s.push(c)) == 10 * text::number_of(s) + (c as int - '0' as int),
{
    assert(s.push(c).drop_last() =~= s);
}

/// White space around a text without it at its ends is left out, and nothing else.
pub proof fn white_space_is_trimmed(before: Seq<char>, s: Seq<char>, after: Seq<char>)
    requires
        s.len() > 0,
        !text::is_white(s[0]),
        !text::is_white(s.last()),
        forall|i: int| 0 <= i < before.len() ==> text::is_white(#[trigger] before[i]),
        forall|i: int| 0 <= i < after.len() ==> text::is_white(#[trigger] after[i]),
    ensures
        text::trimmed(before + s + after) == s,
    decreases before.len() + after.len(),
{
    let all = before + s + after;
    if before.len() > 0 {
        let rest = before.skip(1);
        assert(all[0] == before[0]);
        assert(all.skip(1) =~= rest + s + after);
        white_space_is_trimmed(rest, s, after);
    } else if after.len() > 0 {
        let rest = after.drop_last();
        assert(all[0] == s[0]);
        assert(text::trim_start(all) == all);
        assert(all.last() == after.last());
        assert(all.drop_last() =~= before + s + rest);
        assert((before + s + rest)[0] == s[0]);
        assert(text::trim_start(before + s + rest) == before + s + rest);
        white_space_is_trimmed(before, s, rest);
    } else {
        assert(all =~= s);
    }
}

/// Whether a text can be the name of a file: it has no separator in it, and is not one of
/// the names of folders.
pub open spec fn is_plain(name: Seq<char>) -> bool {
    &&& name.len() > 0
    &&& forall|i: int|
        0 <= i < name.len() ==> #[trigger] name[i] != '/' && name[i] != '\\' && name[i] != ':'
}

proof fn last_dot_is_found(stem: Seq<char>, ext: Seq<char>, end: int)
    requires
        forall|i: int| 0 <= i < ext.len() ==> #[trigger] ext[i] != '.',
        stem.len() < end <= stem.len() + 1 + ext.len(),
    ensures
        text::find_last_char(stem + seq!['.'] + ext, '.', end) == Some(stem.len() as int),
    decreases end,
{
    let all = stem + seq!['.'] + ext;
    if end > stem.len() + 1 {
        assert(all[end - 1] == ext[end - 1 - stem.len() - 1]);
        last_dot_is_found(stem, ext, end - 1);
    } else {
        assert(all[end - 1] == '.');
    }
}

/// A bare file name is the last component of itself.
proof fn bare_names_are_components(name: Seq<char>)
    requires
        is_plain(name),
        name.last() != '.',
    ensures
        paths::file_name_of(name) == Some(name),
        paths::folder_of(name) == Seq::<char>::empty(),
{
    assert(name[0] != '/' && name[0] != '\\');
    assert(paths::prefix_len(name) == 0) by {
        if name.len() >= 2 {
            assert(name[1] != ':');
        }
    }
    assert(name.skip(0) =~= name);
    assert(name[name.len() - 1] == name.last());
    assert(paths::unprefixed(name) == name);
    starts_at_zero(name, name.len() as int);
    assert(name.take(0) =~= Seq::<char>::empty());
}

proof fn starts_at_zero(name: Seq<char>, end: int)
    requires
        is_plain(name),
        0 <= end <= name.len(),
    ensures
        paths::component_start(name, end, false) == 0,
    decreases end,
{
    if end > 0 {
        assert(name[end - 1] != '/' && name[end - 1] != '\\');
        starts_at_zero(name, end - 1);
    }
}

/// A file name is its stem, a dot and its extension: what stands behind its last dot.
pub proof fn file_names_have_stem_and_extension(stem: Seq<char>, ext: Seq<char>)
    requires
        is_plain(stem),
        is_plain(ext),
        forall|i: int| 0 <= i < ext.len() ==> #[trigger] ext[i] != '.',
    ensures
        paths::file_name_of(stem + seq!['.'] + ext) == Some(stem + seq!['.'] + ext),
        paths::stem_of(stem + seq!['.'] + ext) == Some(stem),
        paths::path_extension_of(stem + seq!['.'] + ext) == Some(ext),
{
    let name = stem + seq!['.'] + ext;
    assert(name.last() == ext[ext.len() - 1]);
    assert(is_plain(name)) by {
        assert forall|i: int| 0 <= i < name.len() implies #[trigger] name[i] != '/' && name[i]
            != '\\' && name[i] != ':' by {
            if i < stem.len() {
                assert(name[i] == stem[i]);
            } else if i > stem.len() {
                assert(name[i] == ext[i - stem.len() - 1]);
            }
        }
    }
    bare_names_are_components(name);
    last_dot_is_found(stem, ext, name.len() as int);
    assert(name.take(stem.len() as int) =~= stem);
    assert(name.skip(stem.len() as int + 1) =~= ext);
}

/// A texture is named by its file, without the extension; TGA and DDS files can be
/// imported, whatever the case of their extension.
pub proof fn textures_are_named_by_their_file(stem: Seq<char>, ext: Seq<char>)
    requires
        is_plain(stem),
        is_plain(ext),
        forall|i: int| 0 <= i < ext.len() ==> #[trigger] ext[i] != '.',
        forall|i: int| 0 <= i < stem.len() ==> #[trigger] stem[i] != '.',
        !text::is_white(stem[0]),
        !text::is_white(stem.last()),
    ensures
        paths::texture_name_of(stem + seq!['.'] + ext) == Ok::<Seq<char>, Seq<char>>(stem),
        paths::importable(stem + seq!['.'] + ext) == (text::lower_text(ext) == "tga"@
            || text::lower_text(ext) == "dds"@),
{
    file_names_have_stem_and_extension(stem, ext);
    assert(text::trimmed(stem) == stem);
    assert(!stem.contains('.'));
    reveal_strlit("tga");
    reveal_strlit("dds");
    assert(text::lower_text("tga"@) =~= "tga"@);
    assert(text::lower_text("dds"@) =~= "dds"@);
}

/// An exported texture has the last part of its name, with a low line for each character
/// that no file name may have.
pub proof fn exported_names_are_safe(group: Seq<char>, name: Seq<char>, i: int)
    requires
        forall|k: int| 0 <= k < name.len() ==> #[trigger] name[k] != '.',
        0 <= i < name.len(),
    ensures
        ({
            let shown = paths::export_name(group + seq!['.'] + name);
            &&& shown.len() == name.len()
            &&& shown[i] == if name[i] == '<' || name[i] == '>' || name[i] == ':' || name[i] == '"'
                || name[i] == '/' || name[i] == '\\' || name[i] == '|' || name[i] == '?' || name[i]
                == '*' {
                '_'
            } else {
                name[i]
            }
        }),
{
    let all = group + seq!['.'] + name;
    last_dot_is_found(group, name, all.len() as int);
    assert(all.skip(group.len() as int + 1) =~= name);
}

/// The extension that a texture of a format is exported with.
pub proof fn formats_have_their_extension(format: UtxFormat)
    ensures
        format == UtxFormat::Rgba8 ==> formats::extension_of(format) == "tga"@,
        format == UtxFormat::Dxt1 || format == UtxFormat::Dxt3 || format == UtxFormat::Dxt5
            ==> formats::extension_of(format) == "dds"@,
        format != UtxFormat::Rgba8 && format != UtxFormat::Dxt1 && format != UtxFormat::Dxt3
            && format != UtxFormat::Dxt5 ==> formats::extension_of(format) == "bin"@,
{
}

/// A new package is named by its file, if that is a `.utx` file in a folder, not there
/// yet, and its name has only letters, digits and low lines.
pub proof fn packages_are_named_by_their_file(
    path: Seq<char>,
    name: Seq<char>,
    taken: bool,
    has_directory: bool,
)
    ensures
        (paths::new_package_name(path, taken, has_directory) == Ok::<Seq<char>, Seq<char>>(name)) == (
        !taken && has_directory && paths::has_parent(path) && paths::stem_of(path) == Some(name)
            && paths::has_extension_of(path, "utx"@) && name.len() > 0 && forall|i: int|
            0 <= i < name.len() ==> {
                let c = #[trigger] name[i];
                'a' <= c <= 'z' || 'A' <= c <= 'Z' || '0' <= c <= '9' || c == '_'
            }),
{
    if paths::is_package_name(name) {
        assert forall|i: int| 0 <= i < name.len() implies {
            let c = #[trigger] name[i];
            'a' <= c <= 'z' || 'A' <= c <= 'Z' || '0' <= c <= '9' || c == '_'
        } by {
            assert(paths::is_package_char(name[i]));
        }
    }
}

/// The format of a geodata file is told by its extension.
#[verifier::spinoff_prover]
#[verifier::rlimit(30)]
pub proof fn geodata_formats_are_told_by_extension(stem: Seq<char>)
    requires
        is_plain(stem),
    ensures
        geodata_plan::geodata_format_in(stem + ".l2j"@) == Some(GeodataFormat::L2j),
        geodata_plan::geodata_format_in(stem + ".l2d"@) == Some(GeodataFormat::L2d),
        geodata_plan::geodata_format_in(stem + ".l2s"@) == Some(GeodataFormat::L2s),
        geodata_plan::geodata_format_in(stem + ".l2g"@) == Some(GeodataFormat::L2g),
        geodata_plan::geodata_format_in(stem + ".l2m"@) == Some(GeodataFormat::L2m),
        geodata_plan::geodata_format_in(stem + ".rp"@) == Some(GeodataFormat::Rp),
        geodata_plan::geodata_format_in(stem + "_conv.dat"@) == Some(GeodataFormat::ConvDat),
        geodata_plan::geodata_format_in(stem + "_path.txt"@) == Some(GeodataFormat::PathTxt),
{
    reveal_strlit("l2j");
    reveal_strlit("l2d");
    reveal_strlit("l2s");
    reveal_strlit("l2g");
    reveal_strlit("l2m");
    reveal_strlit("rp");
    reveal_strlit(".l2j");
    reveal_strlit(".l2d");
    reveal_strlit(".l2s");
    reveal_strlit(".l2g");
    reveal_strlit(".l2m");
    reveal_strlit(".rp");
    assert(".l2j"@ =~= seq!['.'] + "l2j"@);
    plain_extension(stem, ".l2j"@, "l2j"@);
    assert(".l2d"@ =~= seq!['.'] + "l2d"@);
    plain_extension(stem, ".l2d"@, "l2d"@);
    assert(".l2s"@ =~= seq!['.'] + "l2s"@);
    plain_extension(stem, ".l2s"@, "l2s"@);
    assert(".l2g"@ =~= seq!['.'] + "l2g"@);
    plain_extension(stem, ".l2g"@, "l2g"@);
    assert(".l2m"@ =~= seq!['.'] + "l2m"@);
    plain_extension(stem, ".l2m"@, "l2m"@);
    assert(".rp"@ =~= seq!['.'] + "rp"@);
    plain_extension(stem, ".rp"@, "rp"@);
    assert("l2j"@[2] == 'j' && "l2d"@[2] == 'd' && "l2s"@[2] == 's');
    assert("l2g"@[2] == 'g' && "l2m"@[2] == 'm');
    assert("rp"@.len() == 2);
    special_ending(stem, "_conv.dat"@);
    special_ending(stem, "_path.txt"@);
}

proof fn special_ending(stem: Seq<char>, ending: Seq<char>)
    requires
        is_plain(stem),
        ending == "_conv.dat"@ || ending == "_path.txt"@,
    ensures
        ({
            let name = stem + ending;
            &&& paths::file_name_of(name) == Some(name)
            &&& text::ends_with(text::lower_text(name), ending)
            &&& ending == "_path.txt"@ ==> !text::ends_with(text::lower_text(name), "_conv.dat"@)
        }),
{
    reveal_strlit("_conv.dat");
    reveal_strlit("_path.txt");
    let name = stem + ending;
    assert(is_plain(name)) by {
        assert forall|i: int| 0 <= i < name.len() implies #[trigger] name[i] != '/' && name[i]
            != '\\' && name[i] != ':' by {
            if i < stem.len() {
                assert(name[i] == stem[i]);
            } else {
                assert(name[i] == ending[i - stem.len()]);
            }
        }
    }
    assert(name.last() == ending[8]);
    bare_names_are_components(name);
    let low = text::lower_text(name);
    assert(low.skip(low.len() - 9) =~= ending);
    assert("_conv.dat"@[1] != "_path.txt"@[1]);
}

proof fn plain_extension(stem: Seq<char>, ending: Seq<char>, ext: Seq<char>)
    requires
        is_plain(stem),
        2 <= ext.len() <= 3,
        ending == seq!['.'] + ext,
        forall|i: int|
            0 <= i < ext.len() ==> ('a' <= #[trigger] ext[i] <= 'z' || '0' <= ext[i] <= '9'),
        ext.last() != 't',
    ensures
        ({
            let name = stem + ending;
            &&& paths::file_name_of(name) == Some(name)
            &&& paths::path_extension_of(name) == Some(ext)
            &&& text::lower_text(ext) == ext
            &&& !text::ends_with(text::lower_text(name), "_conv.dat"@)
            &&& !text::ends_with(text::lower_text(name), "_path.txt"@)
        }),
{
    reveal_strlit("_conv.dat");
    reveal_strlit("_path.txt");
    let name = stem + ending;
    assert(name =~= stem + seq!['.'] + ext);
    assert(is_plain(ext)) by {
        assert forall|i: int| 0 <= i < ext.len() implies #[trigger] ext[i] != '/' && ext[i] != '\\'
            && ext[i] != ':' by {
            assert('a' <= ext[i] <= 'z' || '0' <= ext[i] <= '9');
        }
    }
    assert forall|i: int| 0 <= i < ext.len() implies #[trigger] ext[i] != '.' by {
        assert('a' <= ext[i] <= 'z' || '0' <= ext[i] <= '9');
    }
    file_names_have_stem_and_extension(stem, ext);
    assert(text::lower_text(ext) =~= ext);
    let low = text::lower_text(name);
    assert(name.last() == ext[ext.len() - 1]);
    assert(low.last() == ext.last());
    if text::ends_with(low, "_conv.dat"@) {
        assert(low.skip(low.len() - 9).last() == 't');
        assert(low.skip(low.len() - 9).last() == low.last());
    }
    if text::ends_with(low, "_path.txt"@) {
        assert(low.skip(low.len() - 9).last() == 't');
        assert(low.skip(low.len() - 9).last() == low.last());
    }
}

/// A converted region is named by its coordinates and its format, in the folder of its
/// source.
pub proof fn regions_are_named_by_coordinates(
    relative: Seq<char>,
    format: GeodataFormat,
    x: i32,
    y: i32,
)
    ensures
        format != GeodataFormat::L2j ==> geodata_plan::destination_of(
            relative,
            format,
            GeodataFormat::L2j,
            x,
            y,
        ) == paths::folder_of(relative) + (text::decimal(x as int) + "_"@ + (text::decimal(y as int)
            + ".l2j"@)),
        format != GeodataFormat::ConvDat ==> geodata_plan::destination_of(
            relative,
            format,
            GeodataFormat::ConvDat,
            x,
            y,
        ) == paths::folder_of(relative) + (text::decimal(x as int) + "_"@ + (text::decimal(y as int)
            + "_conv.dat"@)),
        format != GeodataFormat::L2g ==> geodata_plan::destination_of(
            relative,
            format,
            GeodataFormat::L2g,
            x,
            y,
        ) == paths::folder_of(relative) + (text::decimal(x as int) + "_"@ + (text::decimal(y as int)
            + ".l2g"@)),
        geodata_plan::destination_of(relative, format, format, x, y) == relative,
{
}

/// A region lies on the map if both its coordinates are from 10 to 26.
pub proof fn regions_on_the_map(x: i32, y: i32)
    ensures
        geodata_region::on_map(x, y) == (10 <= x <= 26 && 10 <= y <= 26),
{
}

/// One processor stays free, and no more than four regions are converted at once.
pub proof fn some_processors_are_used(n: usize)
    ensures
        geodata_plan::workers_for(None) == 1,
        n >= 1 ==> 1 <= geodata_plan::workers_for(Some(n)) <= 4,
        2 <= n <= 5 ==> geodata_plan::workers_for(Some(n)) == n - 1,
        n > 5 ==> geodata_plan::workers_for(Some(n)) == 4,
{
}

/// What a texture file holds goes by its extension: the picture of a TGA file as plain
/// pixels, or the blocks of a DDS file. Other files are refused.
pub proof fn files_are_read_by_extension(path: Seq<char>, source: Seq<u8>)
    ensures
        paths::has_extension_of(path, "tga"@) ==> imports::file_content(path, source) == (
        match images::tga_content(source) {
            Ok((width, height, pixels)) => Ok((UtxFormat::Rgba8, width, height, pixels)),
            Err(e) => Err(e),
        }),
        paths::has_extension_of(path, "dds"@) ==> imports::file_content(path, source)
            == images::dds_content(source),
        !paths::has_extension_of(path, "tga"@) && !paths::has_extension_of(path, "dds"@)
            ==> imports::file_content(path, source) is Err,
{
    reveal_strlit("tga");
    reveal_strlit("dds");
    assert(text::lower_text("tga"@)[0] == 't');
    assert(text::lower_text("dds"@)[0] == 'd');
}

/// A texture can be stored if its width and its height are powers of two.
pub proof fn stored_sizes_are_powers_of_two(width: i32, height: i32)
    ensures
        imports::storable_size(width, height) == ((exists|u: nat|
            width == #[trigger] vstd::arithmetic::power2::pow2(u)) && (exists|v: nat|
            height == #[trigger] vstd::arithmetic::power2::pow2(v))),
{
    layout::exact_log2_is_exponent(width as int);
    layout::exact_log2_is_exponent(height as int);
    if imports::storable_size(width, height) {
        let u = layout::exact_log2(width as int)->0 as nat;
        let v = layout::exact_log2(height as int)->0 as nat;
        assert(width == vstd::arithmetic::power2::pow2(u));
        assert(height == vstd::arithmetic::power2::pow2(v));
    }
}

/// What becomes of a geodata file: one of an unknown format is skipped, one without
/// coordinates on the map fails, one whose destination is taken is skipped, and every
/// other is written to its destination.
pub proof fn geodata_files_have_their_fate(
    source: SourceFile,
    target: GeodataFormat,
    taken: Seq<Seq<char>>,
)
    ensures
        ({
            let fate = geodata_plan::source_fate(source, target, taken);
            match geodata_plan::geodata_format_in(source.path) {
                None => fate is Skipped,
                Some(format) => {
                    &&& source.relative is Err ==> fate is Failed
                    &&& geodata_plan::source_coordinates(source, format) is Err ==> fate is Failed
                    &&& geodata_plan::source_coordinates(source, format) matches Ok((x, y)) ==> {
                        &&& !(10 <= x <= 26 && 10 <= y <= 26) ==> fate is Failed
                        &&& 10 <= x <= 26 && 10 <= y <= 26 && source.relative is Ok ==> {
                            let place = geodata_plan::destination_of(
                                source.relative->Ok_0,
                                format,
                                target,
                                x,
                                y,
                            );
                            &&& taken.contains(text::lower_text(place)) ==> fate is Skipped
                            &&& !taken.contains(text::lower_text(place)) ==> {
                                &&& fate matches SourceFate::Planned(item)
                                &&& item.source == source.path
                                &&& item.destination == place
                                &&& item.source_format == format
                                &&& item.copy == (format == target)
                            }
                        }
                    }
                },
            }
        }),
{
}

/// A path is shown without the words that mark long paths.
pub proof fn paths_are_shown_without_their_mark(rest: Seq<char>)
    requires
        !text::starts_with(rest, "UNC\\"@),
    ensures
        geodata_plan::shown_path("\\\\?\\"@ + rest) == rest,
        geodata_plan::shown_path("\\\\?\\UNC\\"@ + rest) == "\\\\"@ + rest,
        !text::starts_with(rest, "\\\\?\\"@) ==> geodata_plan::shown_path(rest) == rest,
{
    reveal_strlit("UNC\\");
    reveal_strlit("\\\\?\\");
    reveal_strlit("\\\\?\\UNC\\");
    let short = "\\\\?\\"@;
    let long = "\\\\?\\UNC\\"@;
    let a = short + rest;
    assert(a.take(4) =~= short);
    assert(a.skip(4) =~= rest);
    if text::starts_with(a, long) {
        assert(rest.take(4) =~= "UNC\\"@) by {
            assert forall|i: int| 0 <= i < 4 implies rest[i] == "UNC\\"@[i] by {
                assert(a.take(8)[4 + i] == long[4 + i]);
            }
        }
    }
    let b = long + rest;
    assert(b.take(8) =~= long);
    assert(b.skip(8) =~= rest);
    if text::starts_with(rest, long) {
        assert(rest.take(4) =~= short) by {
            assert forall|i: int| 0 <= i < 4 implies rest[i] == short[i] by {
                assert(rest.take(8)[i] == long[i]);
            }
        }
    }
}

/// The folder of a package that has the name of another gets a number, from two on.
pub proof fn folders_are_numbered(base: Seq<char>, count: int)
    ensures
        extract::numbered(base, 1) == base,
        count > 1 ==> extract::numbered(base, count) == base + " ("@ + text::decimal(count) + ")"@,
{
}

/// A texture or a group has a plain name without a dot; the main group has its own.
pub proof fn plain_names_are_taken(name: Seq<char>)
    ensures
        texture_engine::is_texture_name(name) == (name.len() > 0 && forall|i: int|
            0 <= i < name.len() ==> (#[trigger] name[i] as int) < 128 && name[i] != '.'),
        texture_engine::is_group_name(name) == (texture_engine::is_texture_name(name)
            || text::same_folded(name, "Pacote principal"@)),
{
    if texture_engine::is_texture_name(name) {
        assert forall|i: int| 0 <= i < name.len() implies (#[trigger] name[i] as int) < 128
            && name[i] != '.' by {
            assert(name.contains(name[i]));
        }
    } else if name.len() > 0 && !name.contains('.') {
        if forall|i: int| 0 <= i < name.len() ==> (#[trigger] name[i] as int) < 128 && name[i]
            != '.' {
            assert forall|i: int| 0 <= i < name.len() implies 0 <= (#[trigger] name[i] as int)
                < 128 by {
                utf16::char_range(name[i]);
            }
            assert(text::all_ascii(name));
        }
    }
}

/// Of two texts the one with the smaller character at the first place where they differ
/// comes first, and a text comes before every longer one that starts with it.
pub proof fn texts_are_ordered_by_their_first_difference(
    common: Seq<char>,
    a: Seq<char>,
    b: Seq<char>,
)
    requires
        b.len() > 0,
        a.len() > 0 ==> (a[0] as u32) < (b[0] as u32),
    ensures
        sorting::text_less(common + a, common + b),
        !sorting::text_less(common + b, common + a),
    decreases common.len(),
{
    let x = common + a;
    let y = common + b;
    if common.len() > 0 {
        assert(x.skip(1) =~= common.skip(1) + a);
        assert(y.skip(1) =~= common.skip(1) + b);
        texts_are_ordered_by_their_first_difference(common.skip(1), a, b);
    } else {
        assert(x =~= a);
        assert(y =~= b);
    }
}

} // verus!
