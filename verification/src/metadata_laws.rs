//! What the text file of an exported texture says is what is read from it when
//! the texture is imported.

use vstd::prelude::*;
use crate::entries::TextureSettings;
use crate::layout::Split9;
use crate::listing::{EntryModel, ExportedModel};
use crate::metadata::NotesModel;
use crate::entries;
use crate::metadata;
use crate::text;

verus! {

/// Whether a text is made of whole lines.
pub open spec fn ends_line(s: Seq<char>) -> bool {
    s.len() == 0 || s.last() == '\n'
}

/// Whether a text is within one line and has no white space at its ends.
pub open spec fn is_bare(s: Seq<char>) -> bool {
    &&& !s.contains('\n')
    &&& s.len() > 0 ==> !text::is_white(s[0]) && !text::is_white(s.last())
}

proof fn bare_is_trimmed(s: Seq<char>)
    requires
        is_bare(s),
    ensures
        text::trimmed(s) == s,
{
}

proof fn found_behind(a: Seq<char>, b: Seq<char>, c: char, from: int)
    requires
        0 <= from,
    ensures
        text::find_char(a + b, c, a.len() + from) == match text::find_char(b, c, from) {
            Some(i) => Some(a.len() + i),
            None => None,
        },
    decreases b.len() - from,
{
    if from < b.len() && b[from] != c {
        found_behind(a, b, c, from + 1);
    }
}

/// Lines are read the same wherever they stand.
proof fn notes_behind(a: Seq<char>, b: Seq<char>, from: int, n: NotesModel)
    requires
        0 <= from,
    ensures
        metadata::notes_from(a + b, a.len() + from, n) == metadata::notes_from(b, from, n),
    decreases b.len() - from,
{
    if from < b.len() {
        let all = a + b;
        found_behind(a, b, '\n', from);
        text::find_char_is_first(b, '\n', from);
        let end = text::line_end(b, from);
        assert(text::line_end(all, a.len() + from) == a.len() + end);
        assert(all.subrange(a.len() + from, a.len() + end) =~= b.subrange(from, end));
        let after = metadata::line_noted(n, b.subrange(from, end));
        if end < b.len() {
            notes_behind(a, b, end + 1, after);
        }
    }
}

proof fn notes_in_turn_from(s: Seq<char>, t: Seq<char>, from: int, n: NotesModel)
    requires
        ends_line(s),
        0 <= from <= s.len(),
    ensures
        metadata::notes_from(s + t, from, n) == metadata::notes_from(
            t,
            0,
            metadata::notes_from(s, from, n),
        ),
    decreases s.len() - from,
{
    let all = s + t;
    if from == s.len() {
        notes_behind(s, t, 0, n);
    } else {
        text::find_char_is_first(s, '\n', from);
        text::find_char_is_first(all, '\n', from);
        let end = text::line_end(s, from);
        assert(s[s.len() - 1] == '\n');
        assert(end < s.len());
        assert(all[end] == '\n');
        assert(text::line_end(all, from) == end) by {
            let other = text::line_end(all, from);
            if other < end {
                assert(all[other] == s[other]);
            }
        }
        assert(all.subrange(from, end) =~= s.subrange(from, end));
        notes_in_turn_from(s, t, end + 1, metadata::line_noted(n, s.subrange(from, end)));
    }
}

/// Whole lines and what follows them are read in turn.
pub proof fn notes_in_turn(s: Seq<char>, t: Seq<char>, n: NotesModel)
    requires
        ends_line(s),
    ensures
        metadata::notes_from(s + t, 0, n) == metadata::notes_from(
            t,
            0,
            metadata::notes_from(s, 0, n),
        ),
{
    notes_in_turn_from(s, t, 0, n);
}

/// Whether a text can be a key: it starts no section and has no sign of equality.
pub open spec fn is_key(key: Seq<char>) -> bool {
    is_bare(key) && key.len() > 0 && key[0] != '[' && !key.contains('=')
}

/// A line with a key and a value is read as that.
proof fn line_is_read(key: Seq<char>, value: Seq<char>, n: NotesModel)
    requires
        is_key(key),
        is_bare(value),
    ensures
        metadata::notes_from(metadata::line_of(key, value), 0, n) == metadata::assigned(
            n,
            key,
            value,
        ),
        ends_line(metadata::line_of(key, value)),
{
    reveal_strlit("=");
    reveal_strlit("\n");
    let whole = metadata::line_of(key, value);
    let line = key + seq!['='] + value;
    assert(whole =~= line + seq!['\n']);
    text::find_char_is_first(whole, '\n', 0);
    assert forall|i: int| 0 <= i < line.len() implies whole[i] != '\n' by {
        if i < key.len() {
            assert(whole[i] == key[i]);
            assert(key.contains(key[i]));
        } else if i > key.len() {
            assert(whole[i] == value[i - key.len() - 1]);
            assert(value.contains(value[i - key.len() - 1]));
        }
    }
    assert(whole[line.len() as int] == '\n');
    assert(text::line_end(whole, 0) == line.len());
    assert(whole.subrange(0, line.len() as int) =~= line);
    assert(is_bare(line)) by {
        if line.contains('\n') {
            let i = line.index_of('\n');
            assert(line[i] == whole[i]);
        }
    }
    bare_is_trimmed(line);
    text::find_char_is_first(line, '=', 0);
    assert(line[key.len() as int] == '=');
    assert forall|i: int| 0 <= i < key.len() implies line[i] != '=' by {
        assert(key.contains(key[i]));
    }
    assert(text::find_char(line, '=', 0) == Some(key.len() as int));
    assert(line.take(key.len() as int) =~= key);
    assert(line.skip(key.len() as int + 1) =~= value);
    bare_is_trimmed(key);
    bare_is_trimmed(value);
    let after = metadata::line_noted(n, line);
    assert(metadata::notes_from(whole, line.len() as int + 1, after) == after);
}

/// A line with the name of a section is read as that.
proof fn section_is_read(name: Seq<char>, n: NotesModel)
    requires
        is_bare(name),
    ensures
        metadata::notes_from(seq!['['] + name + seq![']', '\n'], 0, n) == (NotesModel {
            section: name,
            ..n
        }),
{
    let whole = seq!['['] + name + seq![']', '\n'];
    let line = seq!['['] + name + seq![']'];
    text::find_char_is_first(whole, '\n', 0);
    assert forall|i: int| 0 <= i < line.len() implies whole[i] != '\n' by {
        if 0 < i <= name.len() {
            assert(whole[i] == name[i - 1]);
            assert(name.contains(name[i - 1]));
        }
    }
    assert(whole[line.len() as int] == '\n');
    assert(text::line_end(whole, 0) == line.len());
    assert(whole.subrange(0, line.len() as int) =~= line);
    assert(is_bare(line)) by {
        if line.contains('\n') {
            let i = line.index_of('\n');
            assert(line[i] == whole[i]);
        }
    }
    bare_is_trimmed(line);
    assert(line.subrange(1, line.len() - 1) =~= name);
    bare_is_trimmed(name);
    let after = metadata::line_noted(n, line);
    assert(metadata::notes_from(whole, line.len() as int + 1, after) == after);
}

/// An empty line says nothing.
proof fn empty_line_is_read(n: NotesModel)
    ensures
        metadata::notes_from(seq!['\n'], 0, n) == n,
{
    let whole = seq!['\n'];
    text::find_char_is_first(whole, '\n', 0);
    assert(whole[0] == '\n');
    let line = whole.subrange(0, 0);
    assert(text::line_end(whole, 0) == 0);
    assert(line.len() == 0);
    bare_is_trimmed(line);
    text::find_char_is_first(line, '=', 0);
    assert(metadata::notes_from(whole, 1, n) == n);
}

/// Every number is read back from its digits.
pub proof fn digits_are_read(v: nat)
    ensures
        text::digits(v).len() > 0,
        text::all_digits(text::digits(v)),
        text::number_of(text::digits(v)) == v,
    decreases v,
{
    if v >= 10 {
        digits_are_read(v / 10);
    }
    let d = text::digits(v);
    assert(d.drop_last() =~= if v >= 10 {
        text::digits(v / 10)
    } else {
        Seq::empty()
    });
    assert(text::number_of(Seq::<char>::empty()) == 0);
    assert(text::digit_value(d.last()) == v % 10);
}

/// Every number is read back from its decimal form.
pub proof fn decimals_are_read_back(v: i32)
    ensures
        text::parsed_i32(text::decimal(v as int)) == Some(v),
        is_bare(text::decimal(v as int)),
{
    let s = text::decimal(v as int);
    let n = (if v < 0 {
        -v
    } else {
        v as int
    }) as nat;
    let d = text::digits(n);
    digits_are_read(n);
    assert(text::is_digit(d[0]));
    assert(text::is_digit(d[d.len() - 1]));
    if s.contains('\n') {
        let i = s.index_of('\n');
        if v < 0 {
            assert(i > 0);
            assert(s[i] == d[i - 1]);
        }
        assert(false);
    }
    if v < 0 {
        assert(s.skip(1) =~= d);
    }
}

/// Whole lines behind whole lines are read in turn.
proof fn lines_joined(s: Seq<char>, t: Seq<char>, n: NotesModel)
    requires
        ends_line(s),
        ends_line(t),
    ensures
        ends_line(s + t),
        metadata::notes_from(s + t, 0, n) == metadata::notes_from(
            t,
            0,
            metadata::notes_from(s, 0, n),
        ),
{
    notes_in_turn(s, t, n);
    if t.len() == 0 {
        assert(s + t =~= s);
    } else {
        assert((s + t).last() == t.last());
    }
}

proof fn flags_are_read_back(v: bool)
    ensures
        metadata::parsed_bool(metadata::bool_text(v)) == Some(v),
        is_bare(metadata::bool_text(v)),
{
    reveal_strlit("True");
    reveal_strlit("False");
    reveal_strlit("true");
    reveal_strlit("false");
    reveal_strlit("1");
    reveal_strlit("yes");
    reveal_strlit("sim");
    let s = metadata::bool_text(v);
    assert(is_bare(s));
    bare_is_trimmed(s);
    if v {
        assert(text::lower_text(s) =~= text::lower_text("true"@));
    } else {
        assert(text::lower_text(s) =~= text::lower_text("false"@));
        assert(text::lower_text(s).len() == 5);
        assert(text::lower_text("true"@).len() == 4);
        assert(text::lower_text("1"@).len() == 1);
        assert(text::lower_text("yes"@).len() == 3);
        assert(text::lower_text("sim"@).len() == 3);
    }
}

proof fn bool_line_is_read(key: Seq<char>, value: Option<bool>, n: NotesModel)
    requires
        is_key(key),
    ensures
        ends_line(metadata::bool_line(key, value)),
        metadata::notes_from(metadata::bool_line(key, value), 0, n) == match value {
            Some(v) => metadata::assigned(n, key, metadata::bool_text(v)),
            None => n,
        },
{
    if let Some(v) = value {
        flags_are_read_back(v);
        line_is_read(key, metadata::bool_text(v), n);
    }
}

proof fn number_line_is_read(key: Seq<char>, value: Option<i32>, n: NotesModel)
    requires
        is_key(key),
    ensures
        ends_line(metadata::number_line(key, value)),
        metadata::notes_from(metadata::number_line(key, value), 0, n) == match value {
            Some(v) => metadata::assigned(n, key, text::decimal(v as int)),
            None => n,
        },
{
    if let Some(v) = value {
        decimals_are_read_back(v);
        line_is_read(key, text::decimal(v as int), n);
    }
}

proof fn text_line_is_read(key: Seq<char>, value: Option<Seq<char>>, n: NotesModel)
    requires
        is_key(key),
        value matches Some(v) ==> is_bare(v),
    ensures
        ends_line(metadata::text_line(key, value)),
        metadata::notes_from(metadata::text_line(key, value), 0, n) == match value {
            Some(v) => metadata::assigned(n, key, v),
            None => n,
        },
{
    if let Some(v) = value {
        line_is_read(key, v, n);
    }
}

/// The keys of the settings are told apart.
proof fn setting_keys(n: NotesModel, value: Seq<char>)
    requires
        n.section == "Texture"@,
    ensures
        is_key("Alpha"@),
        is_key("Masked"@),
        is_key("UClamp"@),
        is_key("VClamp"@),
        is_key("UClampMode"@),
        is_key("VClampMode"@),
        metadata::assigned(n, "Alpha"@, value) == (NotesModel {
            settings: TextureSettings { alpha: metadata::parsed_bool(value), ..n.settings },
            ..n
        }),
        metadata::assigned(n, "Masked"@, value) == (NotesModel {
            settings: TextureSettings { masked: metadata::parsed_bool(value), ..n.settings },
            ..n
        }),
        metadata::assigned(n, "UClamp"@, value) == (NotesModel {
            settings: TextureSettings { u_clamp: text::parsed_i32(value), ..n.settings },
            ..n
        }),
        metadata::assigned(n, "VClamp"@, value) == (NotesModel {
            settings: TextureSettings { v_clamp: text::parsed_i32(value), ..n.settings },
            ..n
        }),
        metadata::assigned(n, "UClampMode"@, value) == (NotesModel {
            settings: TextureSettings { u_clamp_mode: text::parsed_i32(value), ..n.settings },
            ..n
        }),
        metadata::assigned(n, "VClampMode"@, value) == (NotesModel {
            settings: TextureSettings { v_clamp_mode: text::parsed_i32(value), ..n.settings },
            ..n
        }),
{
    reveal_strlit("Texture");
    reveal_strlit("Split9");
    reveal_strlit("Alpha");
    reveal_strlit("bAlphaTexture");
    reveal_strlit("Masked");
    reveal_strlit("bMasked");
    reveal_strlit("UClamp");
    reveal_strlit("VClamp");
    reveal_strlit("UClampMode");
    reveal_strlit("VClampMode");
    assert(text::lower_text("Texture"@).len() == 7);
    assert(text::lower_text("Split9"@).len() == 6);
    assert(text::lower_text("Alpha"@).len() == 5);
    assert(text::lower_text("bAlphaTexture"@).len() == 13);
    assert(text::lower_text("bMasked"@).len() == 7);
    assert(text::lower_text("Masked"@)[0] == 'm');
    assert(text::lower_text("UClamp"@)[0] == 'u');
    assert(text::lower_text("VClamp"@)[0] == 'v');
    assert(text::lower_text("UClampMode"@)[0] == 'u');
    assert(text::lower_text("VClampMode"@)[0] == 'v');
    assert(text::lower_text("Masked"@).len() == 6);
    assert(text::lower_text("UClamp"@).len() == 6);
    assert(text::lower_text("VClamp"@).len() == 6);
    assert(text::lower_text("UClampMode"@).len() == 10);
    assert(text::lower_text("VClampMode"@).len() == 10);
}

/// The keys of the nine parts are told apart.
proof fn split9_keys(n: NotesModel, value: Seq<char>)
    requires
        n.section == "Split9"@,
    ensures
        is_key("Split9X1"@),
        is_key("Split9X2"@),
        is_key("Split9X3"@),
        is_key("Split9Y1"@),
        is_key("Split9Y2"@),
        is_key("Split9Y3"@),
        text::parsed_i32(value) matches Some(v) ==> {
            &&& metadata::assigned(n, "Split9X1"@, value) == (NotesModel { x1: Some(v), ..n })
            &&& metadata::assigned(n, "Split9X2"@, value) == (NotesModel { x2: Some(v), ..n })
            &&& metadata::assigned(n, "Split9X3"@, value) == (NotesModel { x3: Some(v), ..n })
            &&& metadata::assigned(n, "Split9Y1"@, value) == (NotesModel { y1: Some(v), ..n })
            &&& metadata::assigned(n, "Split9Y2"@, value) == (NotesModel { y2: Some(v), ..n })
            &&& metadata::assigned(n, "Split9Y3"@, value) == (NotesModel { y3: Some(v), ..n })
        },
{
    reveal_strlit("Split9X1");
    reveal_strlit("Split9X2");
    reveal_strlit("Split9X3");
    reveal_strlit("Split9Y1");
    reveal_strlit("Split9Y2");
    reveal_strlit("Split9Y3");
    assert(text::lower_text("Split9X1"@)[6] == 'x' && text::lower_text("Split9X1"@)[7] == '1');
    assert(text::lower_text("Split9X2"@)[6] == 'x' && text::lower_text("Split9X2"@)[7] == '2');
    assert(text::lower_text("Split9X3"@)[6] == 'x' && text::lower_text("Split9X3"@)[7] == '3');
    assert(text::lower_text("Split9Y1"@)[6] == 'y' && text::lower_text("Split9Y1"@)[7] == '1');
    assert(text::lower_text("Split9Y2"@)[6] == 'y' && text::lower_text("Split9Y2"@)[7] == '2');
    assert(text::lower_text("Split9Y3"@)[6] == 'y' && text::lower_text("Split9Y3"@)[7] == '3');
}

/// The keys of an animation are told apart.
proof fn animation_keys(n: NotesModel, value: Seq<char>)
    requires
        n.section == "Animations"@,
    ensures
        is_key("AnimNext"@),
        is_key("MaxFrameRate"@),
        is_key("MinFrameRate"@),
        is_key("OneTimeAnimLoop"@),
        is_key("PrimeCount"@),
        is_key("TotalFrameNum"@),
        metadata::assigned(n, "AnimNext"@, value) == (NotesModel { anim_next: Some(value), ..n }),
        metadata::assigned(n, "MaxFrameRate"@, value) == (NotesModel { max_rate: Some(value), ..n }),
        metadata::assigned(n, "MinFrameRate"@, value) == (NotesModel { min_rate: Some(value), ..n }),
        metadata::assigned(n, "OneTimeAnimLoop"@, value) == (NotesModel {
            one_time_anim_loop: metadata::parsed_bool(value),
            ..n
        }),
        metadata::assigned(n, "PrimeCount"@, value) == (NotesModel {
            prime_count: text::parsed_i32(value),
            ..n
        }),
        metadata::assigned(n, "TotalFrameNum"@, value) == (NotesModel {
            total_frame_num: text::parsed_i32(value),
            ..n
        }),
{
    reveal_strlit("Animations");
    reveal_strlit("Texture");
    reveal_strlit("Split9");
    reveal_strlit("AnimNext");
    reveal_strlit("MaxFrameRate");
    reveal_strlit("MinFrameRate");
    reveal_strlit("OneTimeAnimLoop");
    reveal_strlit("PrimeCount");
    reveal_strlit("TotalFrameNum");
    assert(text::lower_text("Animations"@).len() == 10);
    assert(text::lower_text("Texture"@).len() == 7);
    assert(text::lower_text("Split9"@).len() == 6);
    assert(text::lower_text("AnimNext"@).len() == 8);
    assert(text::lower_text("MaxFrameRate"@).len() == 12);
    assert(text::lower_text("MaxFrameRate"@)[1] == 'a');
    assert(text::lower_text("MinFrameRate"@).len() == 12);
    assert(text::lower_text("MinFrameRate"@)[1] == 'i');
    assert(text::lower_text("OneTimeAnimLoop"@).len() == 15);
    assert(text::lower_text("PrimeCount"@).len() == 10);
    assert(text::lower_text("TotalFrameNum"@).len() == 13);
}

/// The settings are read back from their section.
proof fn settings_are_read(settings: TextureSettings, n: NotesModel)
    requires
        n.settings == entries::no_settings(),
    ensures
        ends_line(metadata::settings_section(settings)),
        metadata::notes_from(metadata::settings_section(settings), 0, n) == (NotesModel {
            settings,
            section: if entries::some_setting(settings) {
                "Texture"@
            } else {
                n.section
            },
            ..n
        }),
{
    if entries::some_setting(settings) {
        reveal_strlit("[Texture]\n");
        reveal_strlit("Texture");
        let s0 = "[Texture]\n"@;
        assert(s0 =~= seq!['['] + "Texture"@ + seq![']', '\n']);
        section_is_read("Texture"@, n);
        let n0 = NotesModel { section: "Texture"@, ..n };
        let l1 = metadata::bool_line("Alpha"@, settings.alpha);
        let l2 = metadata::bool_line("Masked"@, settings.masked);
        let l3 = metadata::number_line("UClamp"@, settings.u_clamp);
        let l4 = metadata::number_line("VClamp"@, settings.v_clamp);
        let l5 = metadata::number_line("UClampMode"@, settings.u_clamp_mode);
        let l6 = metadata::number_line("VClampMode"@, settings.v_clamp_mode);
        let n1 = metadata::notes_from(l1, 0, n0);
        let n2 = metadata::notes_from(l2, 0, n1);
        let n3 = metadata::notes_from(l3, 0, n2);
        let n4 = metadata::notes_from(l4, 0, n3);
        let n5 = metadata::notes_from(l5, 0, n4);
        setting_keys(n0, flag_value(settings.alpha));
        bool_line_is_read("Alpha"@, settings.alpha, n0);
        flag_value_is_read(settings.alpha);
        setting_keys(n1, flag_value(settings.masked));
        bool_line_is_read("Masked"@, settings.masked, n1);
        flag_value_is_read(settings.masked);
        setting_keys(n2, number_value(settings.u_clamp));
        number_line_is_read("UClamp"@, settings.u_clamp, n2);
        number_value_is_read(settings.u_clamp);
        setting_keys(n3, number_value(settings.v_clamp));
        number_line_is_read("VClamp"@, settings.v_clamp, n3);
        number_value_is_read(settings.v_clamp);
        setting_keys(n4, number_value(settings.u_clamp_mode));
        number_line_is_read("UClampMode"@, settings.u_clamp_mode, n4);
        number_value_is_read(settings.u_clamp_mode);
        setting_keys(n5, number_value(settings.v_clamp_mode));
        number_line_is_read("VClampMode"@, settings.v_clamp_mode, n5);
        number_value_is_read(settings.v_clamp_mode);
        lines_joined(s0, l1, n);
        lines_joined(s0 + l1, l2, n);
        lines_joined(s0 + l1 + l2, l3, n);
        lines_joined(s0 + l1 + l2 + l3, l4, n);
        lines_joined(s0 + l1 + l2 + l3 + l4, l5, n);
        lines_joined(s0 + l1 + l2 + l3 + l4 + l5, l6, n);
    }
}

/// How a flag is written, where there is one.
spec fn flag_value(value: Option<bool>) -> Seq<char> {
    match value {
        Some(v) => metadata::bool_text(v),
        None => Seq::empty(),
    }
}

/// How a number is written, where there is one.
spec fn number_value(value: Option<i32>) -> Seq<char> {
    match value {
        Some(v) => text::decimal(v as int),
        None => Seq::empty(),
    }
}

proof fn flag_value_is_read(value: Option<bool>)
    ensures
        value is Some ==> metadata::parsed_bool(flag_value(value)) == value,
{
    if let Some(v) = value {
        flags_are_read_back(v);
    }
}

proof fn number_value_is_read(value: Option<i32>)
    ensures
        value is Some ==> text::parsed_i32(number_value(value)) == value,
{
    if let Some(v) = value {
        decimals_are_read_back(v);
    }
}

/// The nine parts are read back from their section.
proof fn split9_is_read(split9: Split9, n: NotesModel)
    ensures
        ends_line(metadata::split9_section(split9)),
        metadata::notes_from(metadata::split9_section(split9), 0, n) == (NotesModel {
            section: "Split9"@,
            x1: Some(split9.x1),
            x2: Some(split9.x2),
            x3: Some(split9.x3),
            y1: Some(split9.y1),
            y2: Some(split9.y2),
            y3: Some(split9.y3),
            ..n
        }),
{
    reveal_strlit("[Split9]\n");
    reveal_strlit("Split9");
    let s0 = "[Split9]\n"@;
    assert(s0 =~= seq!['['] + "Split9"@ + seq![']', '\n']);
    section_is_read("Split9"@, n);
    let n0 = NotesModel { section: "Split9"@, ..n };
    let n1 = NotesModel { x1: Some(split9.x1), ..n0 };
    let n2 = NotesModel { x2: Some(split9.x2), ..n1 };
    let n3 = NotesModel { x3: Some(split9.x3), ..n2 };
    let n4 = NotesModel { y1: Some(split9.y1), ..n3 };
    let n5 = NotesModel { y2: Some(split9.y2), ..n4 };
    let l1 = metadata::number_line("Split9X1"@, Some(split9.x1));
    let l2 = metadata::number_line("Split9X2"@, Some(split9.x2));
    let l3 = metadata::number_line("Split9X3"@, Some(split9.x3));
    let l4 = metadata::number_line("Split9Y1"@, Some(split9.y1));
    let l5 = metadata::number_line("Split9Y2"@, Some(split9.y2));
    let l6 = metadata::number_line("Split9Y3"@, Some(split9.y3));
    decimals_are_read_back(split9.x1);
    decimals_are_read_back(split9.x2);
    decimals_are_read_back(split9.x3);
    decimals_are_read_back(split9.y1);
    decimals_are_read_back(split9.y2);
    decimals_are_read_back(split9.y3);
    split9_keys(n0, text::decimal(split9.x1 as int));
    split9_keys(n1, text::decimal(split9.x2 as int));
    split9_keys(n2, text::decimal(split9.x3 as int));
    split9_keys(n3, text::decimal(split9.y1 as int));
    split9_keys(n4, text::decimal(split9.y2 as int));
    split9_keys(n5, text::decimal(split9.y3 as int));
    number_line_is_read("Split9X1"@, Some(split9.x1), n0);
    number_line_is_read("Split9X2"@, Some(split9.x2), n1);
    number_line_is_read("Split9X3"@, Some(split9.x3), n2);
    number_line_is_read("Split9Y1"@, Some(split9.y1), n3);
    number_line_is_read("Split9Y2"@, Some(split9.y2), n4);
    number_line_is_read("Split9Y3"@, Some(split9.y3), n5);
    lines_joined(s0, l1, n);
    lines_joined(s0 + l1, l2, n);
    lines_joined(s0 + l1 + l2, l3, n);
    lines_joined(s0 + l1 + l2 + l3, l4, n);
    lines_joined(s0 + l1 + l2 + l3 + l4, l5, n);
    lines_joined(s0 + l1 + l2 + l3 + l4 + l5, l6, n);
}

/// The path that an animation names as its next texture.
pub open spec fn next_of(animation: ExportedModel) -> Seq<char> {
    match animation.anim_next {
        Some(path) => path,
        None => Seq::empty(),
    }
}

/// Whether the texts of an animation can stand in a line of their own.
pub open spec fn is_writable(animation: ExportedModel, max_rate: Seq<char>, min_rate: Seq<char>) -> bool {
    &&& animation.properties.anim_next ==> is_bare(next_of(animation))
    &&& animation.properties.max_frame_rate ==> is_bare(max_rate)
    &&& animation.properties.min_frame_rate ==> is_bare(min_rate)
}

/// Notes with what an animation stores.
pub open spec fn with_animation(
    n: NotesModel,
    animation: ExportedModel,
    max_rate: Seq<char>,
    min_rate: Seq<char>,
) -> NotesModel {
    let stored = animation.properties;
    let values = animation.values;
    NotesModel {
        section: "Animations"@,
        anim_next: metadata::if_stored(stored.anim_next, next_of(animation)),
        max_rate: metadata::if_stored(stored.max_frame_rate, max_rate),
        min_rate: metadata::if_stored(stored.min_frame_rate, min_rate),
        one_time_anim_loop: metadata::if_stored(
            stored.one_time_anim_loop,
            values.one_time_anim_loop,
        ),
        prime_count: metadata::if_stored(stored.prime_count, values.prime_count),
        total_frame_num: metadata::if_stored(stored.total_frame_num, values.total_frame_num),
        ..n
    }
}

/// How a text is written, where there is one.
spec fn text_value(value: Option<Seq<char>>) -> Seq<char> {
    match value {
        Some(v) => v,
        None => Seq::empty(),
    }
}

/// An animation is read back from its section.
#[verifier::spinoff_prover]
#[verifier::rlimit(40)]
proof fn animation_is_read(
    animation: ExportedModel,
    max_rate: Seq<char>,
    min_rate: Seq<char>,
    n: NotesModel,
)
    requires
        is_writable(animation, max_rate, min_rate),
        n.anim_next is None,
        n.max_rate is None,
        n.min_rate is None,
        n.one_time_anim_loop is None,
        n.prime_count is None,
        n.total_frame_num is None,
    ensures
        ends_line(metadata::animation_section(animation, max_rate, min_rate)),
        metadata::notes_from(metadata::animation_section(animation, max_rate, min_rate), 0, n)
            == with_animation(n, animation, max_rate, min_rate),
{
    reveal_strlit("[Animations]\n");
    reveal_strlit("Animations");
    let stored = animation.properties;
    let values = animation.values;
    let s0 = "[Animations]\n"@;
    assert(s0 =~= seq!['['] + "Animations"@ + seq![']', '\n']);
    section_is_read("Animations"@, n);
    let n0 = NotesModel { section: "Animations"@, ..n };
    let v1 = metadata::if_stored(stored.anim_next, next_of(animation));
    let v2 = metadata::if_stored(stored.max_frame_rate, max_rate);
    let v3 = metadata::if_stored(stored.min_frame_rate, min_rate);
    let v4 = metadata::if_stored(stored.one_time_anim_loop, values.one_time_anim_loop);
    let v5 = metadata::if_stored(stored.prime_count, values.prime_count);
    let v6 = metadata::if_stored(stored.total_frame_num, values.total_frame_num);
    let l1 = metadata::text_line("AnimNext"@, v1);
    let l2 = metadata::text_line("MaxFrameRate"@, v2);
    let l3 = metadata::text_line("MinFrameRate"@, v3);
    let l4 = metadata::bool_line("OneTimeAnimLoop"@, v4);
    let l5 = metadata::number_line("PrimeCount"@, v5);
    let l6 = metadata::number_line("TotalFrameNum"@, v6);
    let n1 = NotesModel { anim_next: v1, ..n0 };
    let n2 = NotesModel { max_rate: v2, ..n1 };
    let n3 = NotesModel { min_rate: v3, ..n2 };
    let n4 = NotesModel { one_time_anim_loop: v4, ..n3 };
    let n5 = NotesModel { prime_count: v5, ..n4 };
    animation_keys(n0, text_value(v1));
    animation_keys(n1, text_value(v2));
    animation_keys(n2, text_value(v3));
    animation_keys(n3, flag_value(v4));
    animation_keys(n4, number_value(v5));
    animation_keys(n5, number_value(v6));
    flag_value_is_read(v4);
    number_value_is_read(v5);
    number_value_is_read(v6);
    text_line_is_read("AnimNext"@, v1, n0);
    text_line_is_read("MaxFrameRate"@, v2, n1);
    text_line_is_read("MinFrameRate"@, v3, n2);
    bool_line_is_read("OneTimeAnimLoop"@, v4, n3);
    number_line_is_read("PrimeCount"@, v5, n4);
    number_line_is_read("TotalFrameNum"@, v6, n5);
    lines_joined(s0, l1, n);
    lines_joined(s0 + l1, l2, n);
    lines_joined(s0 + l1 + l2, l3, n);
    lines_joined(s0 + l1 + l2 + l3, l4, n);
    lines_joined(s0 + l1 + l2 + l3 + l4, l5, n);
    lines_joined(s0 + l1 + l2 + l3 + l4 + l5, l6, n);
}

proof fn section_joined(before: Seq<char>, section: Seq<char>, n: NotesModel)
    requires
        ends_line(before),
        ends_line(section),
    ensures
        ends_line(metadata::with_section(before, section)),
        metadata::notes_from(metadata::with_section(before, section), 0, n)
            == metadata::notes_from(section, 0, metadata::notes_from(before, 0, n)),
{
    if before.len() > 0 {
        reveal_strlit("\n");
        let gap = "\n"@;
        assert(gap =~= seq!['\n']);
        lines_joined(before, gap, n);
        empty_line_is_read(metadata::notes_from(before, 0, n));
        lines_joined(before + gap, section, n);
    }
}

/// What the notes say of a texture that was exported with its text file.
pub open spec fn notes_of(entry: EntryModel, max_rate: Seq<char>, min_rate: Seq<char>) -> NotesModel {
    let first = NotesModel { settings: entry.settings, ..metadata::no_notes() };
    let second = if entry.has_split9 {
        NotesModel {
            x1: Some(entry.split9.x1),
            x2: Some(entry.split9.x2),
            x3: Some(entry.split9.x3),
            y1: Some(entry.split9.y1),
            y2: Some(entry.split9.y2),
            y3: Some(entry.split9.y3),
            ..first
        }
    } else {
        first
    };
    match entry.animation {
        Some(animation) => with_animation(second, animation, max_rate, min_rate),
        None => second,
    }
}

/// The text file of an exported texture gives back its settings, its nine parts
/// and all that its animation stores, whatever section stands last. A path or a
/// frame rate that has a line break in it, or white space at its ends, cannot be
/// given back, and is left out here.
pub proof fn written_metadata_is_read_back(
    entry: EntryModel,
    max_rate: Seq<char>,
    min_rate: Seq<char>,
)
    requires
        entry.animation matches Some(animation) ==> is_writable(animation, max_rate, min_rate),
        metadata::metadata_of(entry, max_rate, min_rate) is Some,
    ensures
        ({
            let content = metadata::metadata_of(entry, max_rate, min_rate)->Some_0;
            let notes = metadata::notes_from(content, 0, metadata::no_notes());
            notes == (NotesModel {
                section: notes.section,
                ..notes_of(entry, max_rate, min_rate)
            })
        }),
{
    let n = metadata::no_notes();
    let first = metadata::settings_section(entry.settings);
    settings_are_read(entry.settings, n);
    let n1 = metadata::notes_from(first, 0, n);
    let second = if entry.has_split9 {
        metadata::with_section(first, metadata::split9_section(entry.split9))
    } else {
        first
    };
    if entry.has_split9 {
        split9_is_read(entry.split9, n1);
        section_joined(first, metadata::split9_section(entry.split9), n);
    }
    let n2 = metadata::notes_from(second, 0, n);
    if let Some(animation) = entry.animation {
        animation_is_read(animation, max_rate, min_rate, n2);
        section_joined(second, metadata::animation_section(animation, max_rate, min_rate), n);
    }
}

/// Whether a line opens the section of the settings or that of the nine parts.
pub open spec fn opens(whole: Seq<char>) -> bool {
    let line = text::trimmed(whole);
    metadata::names_section(line) && ({
        let name = text::trimmed(line.subrange(1, line.len() - 1));
        text::same_folded(name, "Split9"@) || text::same_folded(name, "Texture"@)
    })
}

/// Whether no line from `from` on opens one of the two sections.
pub open spec fn is_quiet(s: Seq<char>, from: int) -> bool
    decreases s.len() - from,
{
    if from < 0 || from >= s.len() {
        true
    } else {
        let end = text::line_end(s, from);
        !opens(s.subrange(from, end)) && (end < from || end >= s.len() || is_quiet(s, end + 1))
    }
}

/// Whether no line of a text but its first opens one of the two sections.
pub open spec fn opens_nothing(s: Seq<char>) -> bool {
    text::find_char(s, '\n', 0) matches Some(i) ==> is_quiet(s, i + 1)
}

/// Whether notes agree on the settings and on the nine parts.
pub open spec fn same_parts(a: NotesModel, b: NotesModel) -> bool {
    &&& a.settings == b.settings
    &&& a.x1 == b.x1
    &&& a.x2 == b.x2
    &&& a.x3 == b.x3
    &&& a.y1 == b.y1
    &&& a.y2 == b.y2
    &&& a.y3 == b.y3
}

/// Whether no line from `from` on, read in turn, changes what is known of the
/// settings and of the nine parts.
pub open spec fn keeps_parts(s: Seq<char>, from: int, n: NotesModel) -> bool
    decreases s.len() - from,
{
    if from < 0 || from >= s.len() {
        true
    } else {
        let end = text::line_end(s, from);
        let after = metadata::line_noted(n, s.subrange(from, end));
        same_parts(after, n) && (end < from || end >= s.len() || keeps_parts(s, end + 1, after))
    }
}

proof fn kept_parts_are_known(s: Seq<char>, from: int, n: NotesModel)
    requires
        keeps_parts(s, from, n),
    ensures
        same_parts(metadata::notes_from(s, from, n), n),
    decreases s.len() - from,
{
    if 0 <= from < s.len() {
        let end = text::line_end(s, from);
        if from <= end < s.len() {
            kept_parts_are_known(
                s,
                end + 1,
                metadata::line_noted(n, s.subrange(from, end)),
            );
        }
    }
}

/// Outside the two sections, lines that open neither leave what they said.
proof fn quiet_lines_keep_parts(s: Seq<char>, from: int, n: NotesModel)
    requires
        is_quiet(s, from),
        !text::same_folded(n.section, "Split9"@),
        !text::same_folded(n.section, "Texture"@),
    ensures
        same_parts(metadata::notes_from(s, from, n), n),
    decreases s.len() - from,
{
    if 0 <= from < s.len() {
        let end = text::line_end(s, from);
        let after = metadata::line_noted(n, s.subrange(from, end));
        if from <= end < s.len() {
            quiet_lines_keep_parts(s, end + 1, after);
        }
    }
}

proof fn quiet_behind(a: Seq<char>, b: Seq<char>, from: int)
    requires
        0 <= from,
    ensures
        is_quiet(a + b, a.len() + from) == is_quiet(b, from),
    decreases b.len() - from,
{
    if from < b.len() {
        let all = a + b;
        found_behind(a, b, '\n', from);
        text::find_char_is_first(b, '\n', from);
        let end = text::line_end(b, from);
        assert(text::line_end(all, a.len() + from) == a.len() + end);
        assert(all.subrange(a.len() + from, a.len() + end) =~= b.subrange(from, end));
        if end < b.len() {
            quiet_behind(a, b, end + 1);
        }
    }
}

proof fn quiet_in_turn(s: Seq<char>, t: Seq<char>, from: int)
    requires
        ends_line(s),
        0 <= from <= s.len(),
        is_quiet(s, from),
        is_quiet(t, 0),
    ensures
        is_quiet(s + t, from),
    decreases s.len() - from,
{
    let all = s + t;
    if from == s.len() {
        quiet_behind(s, t, 0);
    } else {
        text::find_char_is_first(s, '\n', from);
        text::find_char_is_first(all, '\n', from);
        let end = text::line_end(s, from);
        assert(s[s.len() - 1] == '\n');
        assert(end < s.len());
        assert(all[end] == '\n');
        assert(text::line_end(all, from) == end) by {
            let other = text::line_end(all, from);
            if other < end {
                assert(all[other] == s[other]);
            }
        }
        assert(all.subrange(from, end) =~= s.subrange(from, end));
        quiet_in_turn(s, t, end + 1);
    }
}

/// A line break behind a text opens nothing.
proof fn quiet_with_break(s: Seq<char>, from: int)
    requires
        0 <= from <= s.len(),
        is_quiet(s, from),
    ensures
        is_quiet(s + seq!['\n'], from),
    decreases s.len() - from,
{
    let all = s + seq!['\n'];
    text::find_char_is_first(s, '\n', from);
    text::find_char_is_first(all, '\n', from);
    let end = text::line_end(s, from);
    let other = text::line_end(all, from);
    assert(all[s.len() as int] == '\n');
    assert(other == end) by {
        if other < end {
            assert(all[other] == s[other]);
        }
        if end < other && end < s.len() {
            assert(all[end] == s[end]);
        }
    }
    assert(all.subrange(from, end) =~= s.subrange(from, end));
    if from == s.len() {
        assert(all.subrange(from, end) =~= Seq::<char>::empty());
        assert(!opens(Seq::<char>::empty()));
    } else if end < s.len() {
        quiet_with_break(s, end + 1);
    }
    assert(is_quiet(all, all.len() as int));
}

/// A line with a key opens nothing if its value does not.
proof fn quiet_line(key: Seq<char>, value: Seq<char>)
    requires
        is_key(key),
        opens_nothing(value),
    ensures
        ends_line(metadata::line_of(key, value)),
        is_quiet(metadata::line_of(key, value), 0),
{
    reveal_strlit("=");
    reveal_strlit("\n");
    let front = key + seq!['='];
    let back = value + seq!['\n'];
    let line = metadata::line_of(key, value);
    assert(line =~= front + back);
    text::find_char_is_first(line, '\n', 0);
    text::find_char_is_first(value, '\n', 0);
    let end = text::line_end(line, 0);
    assert forall|k: int| 0 <= k < front.len() implies line[k] != '\n' by {
        if k < key.len() {
            assert(key.contains(key[k]));
        }
    }
    assert(line[line.len() - 1] == '\n');
    assert(end >= front.len());
    let first = line.subrange(0, end);
    assert(first[0] == key[0]);
    assert(text::trim_start(first) == first);
    assert(!opens(first)) by {
        let whole = text::trimmed(first);
        text::end_trimming_keeps_start(first);
        if whole.len() > 0 {
            assert(whole[0] == first[0]);
        }
    }
    match text::find_char(value, '\n', 0) {
        Some(i) => {
            assert(line[front.len() + i] == '\n');
            assert(end == front.len() + i) by {
                if end < front.len() + i {
                    assert(line[end] == value[end - front.len()]);
                }
            }
            quiet_with_break(value, i + 1);
            quiet_behind(front, back, i + 1);
            assert(is_quiet(line, end + 1));
        },
        None => {
            assert(end == line.len() - 1) by {
                if end < line.len() - 1 {
                    assert(line[end] == value[end - front.len()]);
                }
            }
            assert(is_quiet(line, end + 1));
        },
    }
}

proof fn quiet_text_line(key: Seq<char>, value: Option<Seq<char>>)
    requires
        is_key(key),
        value matches Some(v) ==> opens_nothing(v),
    ensures
        ends_line(metadata::text_line(key, value)),
        is_quiet(metadata::text_line(key, value), 0),
{
    if let Some(v) = value {
        quiet_line(key, v);
    }
}

proof fn bare_opens_nothing(value: Seq<char>)
    requires
        is_bare(value),
    ensures
        opens_nothing(value),
{
    text::find_char_is_first(value, '\n', 0);
    if let Some(i) = text::find_char(value, '\n', 0) {
        assert(value.contains(value[i]));
    }
}

/// Whether the texts of an animation open neither the section of the settings nor
/// that of the nine parts.
pub open spec fn keeps_to_itself(
    animation: ExportedModel,
    max_rate: Seq<char>,
    min_rate: Seq<char>,
) -> bool {
    &&& animation.properties.anim_next ==> opens_nothing(next_of(animation))
    &&& animation.properties.max_frame_rate ==> opens_nothing(max_rate)
    &&& animation.properties.min_frame_rate ==> opens_nothing(min_rate)
}

proof fn quiet_joined(s: Seq<char>, t: Seq<char>)
    requires
        ends_line(s),
        ends_line(t),
        is_quiet(s, 0),
        is_quiet(t, 0),
    ensures
        ends_line(s + t),
        is_quiet(s + t, 0),
{
    quiet_in_turn(s, t, 0);
    if t.len() > 0 {
        assert((s + t).last() == t.last());
    } else {
        assert(s + t =~= s);
    }
}

proof fn quiet_bool_line(key: Seq<char>, value: Option<bool>)
    requires
        is_key(key),
    ensures
        ends_line(metadata::bool_line(key, value)),
        is_quiet(metadata::bool_line(key, value), 0),
{
    if let Some(v) = value {
        flags_are_read_back(v);
        bare_opens_nothing(metadata::bool_text(v));
        quiet_line(key, metadata::bool_text(v));
    }
}

proof fn quiet_number_line(key: Seq<char>, value: Option<i32>)
    requires
        is_key(key),
    ensures
        ends_line(metadata::number_line(key, value)),
        is_quiet(metadata::number_line(key, value), 0),
{
    if let Some(v) = value {
        decimals_are_read_back(v);
        bare_opens_nothing(text::decimal(v as int));
        quiet_line(key, text::decimal(v as int));
    }
}

/// The lines of an animation, behind the name of its section.
#[verifier::opaque]
spec fn animation_lines(animation: ExportedModel, max_rate: Seq<char>, min_rate: Seq<char>) -> Seq<
    char,
> {
    let stored = animation.properties;
    let values = animation.values;
    metadata::text_line("AnimNext"@, metadata::if_stored(stored.anim_next, next_of(animation)))
        + metadata::text_line(
        "MaxFrameRate"@,
        metadata::if_stored(stored.max_frame_rate, max_rate),
    ) + metadata::text_line("MinFrameRate"@, metadata::if_stored(stored.min_frame_rate, min_rate))
        + metadata::bool_line(
        "OneTimeAnimLoop"@,
        metadata::if_stored(stored.one_time_anim_loop, values.one_time_anim_loop),
    ) + metadata::number_line(
        "PrimeCount"@,
        metadata::if_stored(stored.prime_count, values.prime_count),
    ) + metadata::number_line(
        "TotalFrameNum"@,
        metadata::if_stored(stored.total_frame_num, values.total_frame_num),
    )
}

/// The lines of an animation open nothing if its texts do not.
proof fn animation_is_quiet(animation: ExportedModel, max_rate: Seq<char>, min_rate: Seq<char>)
    requires
        keeps_to_itself(animation, max_rate, min_rate),
    ensures
        ends_line(animation_lines(animation, max_rate, min_rate)),
        is_quiet(animation_lines(animation, max_rate, min_rate), 0),
{
    reveal(animation_lines);
    let stored = animation.properties;
    let values = animation.values;
    animation_keys_are_keys();
    let v1 = metadata::if_stored(stored.anim_next, next_of(animation));
    let v2 = metadata::if_stored(stored.max_frame_rate, max_rate);
    let v3 = metadata::if_stored(stored.min_frame_rate, min_rate);
    let v4 = metadata::if_stored(stored.one_time_anim_loop, values.one_time_anim_loop);
    let v5 = metadata::if_stored(stored.prime_count, values.prime_count);
    let v6 = metadata::if_stored(stored.total_frame_num, values.total_frame_num);
    quiet_text_line("AnimNext"@, v1);
    quiet_text_line("MaxFrameRate"@, v2);
    quiet_text_line("MinFrameRate"@, v3);
    quiet_bool_line("OneTimeAnimLoop"@, v4);
    quiet_number_line("PrimeCount"@, v5);
    quiet_number_line("TotalFrameNum"@, v6);
    let l1 = metadata::text_line("AnimNext"@, v1);
    let l2 = metadata::text_line("MaxFrameRate"@, v2);
    let l3 = metadata::text_line("MinFrameRate"@, v3);
    let l4 = metadata::bool_line("OneTimeAnimLoop"@, v4);
    let l5 = metadata::number_line("PrimeCount"@, v5);
    let l6 = metadata::number_line("TotalFrameNum"@, v6);
    quiet_joined(l1, l2);
    quiet_joined(l1 + l2, l3);
    quiet_joined(l1 + l2 + l3, l4);
    quiet_joined(l1 + l2 + l3 + l4, l5);
    quiet_joined(l1 + l2 + l3 + l4 + l5, l6);
}

proof fn animation_keys_are_keys()
    ensures
        is_key("AnimNext"@),
        is_key("MaxFrameRate"@),
        is_key("MinFrameRate"@),
        is_key("OneTimeAnimLoop"@),
        is_key("PrimeCount"@),
        is_key("TotalFrameNum"@),
{
    animation_keys(NotesModel { section: "Animations"@, ..metadata::no_notes() }, Seq::empty());
}

proof fn joined_in_turn(a: Seq<char>, b: Seq<char>, c: Seq<char>)
    ensures
        a + b + c == a + (b + c),
{
    assert(a + b + c =~= a + (b + c));
}

/// The section of an animation is its name and its lines.
proof fn animation_section_parts(animation: ExportedModel, max_rate: Seq<char>, min_rate: Seq<char>)
    ensures
        metadata::animation_section(animation, max_rate, min_rate) == "[Animations]\n"@
            + animation_lines(animation, max_rate, min_rate),
{
    reveal(animation_lines);
    let stored = animation.properties;
    let values = animation.values;
    let name = "[Animations]\n"@;
    let l1 = metadata::text_line(
        "AnimNext"@,
        metadata::if_stored(stored.anim_next, next_of(animation)),
    );
    let l2 = metadata::text_line(
        "MaxFrameRate"@,
        metadata::if_stored(stored.max_frame_rate, max_rate),
    );
    let l3 = metadata::text_line(
        "MinFrameRate"@,
        metadata::if_stored(stored.min_frame_rate, min_rate),
    );
    let l4 = metadata::bool_line(
        "OneTimeAnimLoop"@,
        metadata::if_stored(stored.one_time_anim_loop, values.one_time_anim_loop),
    );
    let l5 = metadata::number_line(
        "PrimeCount"@,
        metadata::if_stored(stored.prime_count, values.prime_count),
    );
    let l6 = metadata::number_line(
        "TotalFrameNum"@,
        metadata::if_stored(stored.total_frame_num, values.total_frame_num),
    );
    joined_in_turn(name, l1, l2);
    joined_in_turn(name, l1 + l2, l3);
    joined_in_turn(name, l1 + l2 + l3, l4);
    joined_in_turn(name, l1 + l2 + l3 + l4, l5);
    joined_in_turn(name, l1 + l2 + l3 + l4 + l5, l6);
}

/// The section of an animation is none of the others.
proof fn animations_are_no_parts()
    ensures
        !text::same_folded("Animations"@, "Split9"@),
        !text::same_folded("Animations"@, "Texture"@),
{
    reveal_strlit("Animations");
    reveal_strlit("Split9");
    reveal_strlit("Texture");
    assert(text::lower_text("Animations"@).len() == 10);
    assert(text::lower_text("Split9"@).len() == 6);
    assert(text::lower_text("Texture"@).len() == 7);
}

/// Reading the section of an animation leaves the settings and the nine parts.
#[verifier::spinoff_prover]
#[verifier::rlimit(40)]
proof fn animation_keeps_parts(
    animation: ExportedModel,
    max_rate: Seq<char>,
    min_rate: Seq<char>,
    n: NotesModel,
)
    requires
        keeps_to_itself(animation, max_rate, min_rate),
    ensures
        ends_line(metadata::animation_section(animation, max_rate, min_rate)),
        same_parts(
            metadata::notes_from(
                metadata::animation_section(animation, max_rate, min_rate),
                0,
                n,
            ),
            n,
        ),
{
    reveal_strlit("[Animations]\n");
    reveal_strlit("Animations");
    let s0 = "[Animations]\n"@;
    assert(s0 =~= seq!['['] + "Animations"@ + seq![']', '\n']);
    section_is_read("Animations"@, n);
    let n0 = NotesModel { section: "Animations"@, ..n };
    animations_are_no_parts();
    animation_is_quiet(animation, max_rate, min_rate);
    let body = animation_lines(animation, max_rate, min_rate);
    animation_section_parts(animation, max_rate, min_rate);
    notes_in_turn(s0, body, n);
    quiet_lines_keep_parts(body, 0, n0);
}

/// The lines of an animation end with a line break, whatever its texts are.
proof fn animation_ends_lines(animation: ExportedModel, max_rate: Seq<char>, min_rate: Seq<char>)
    ensures
        ends_line(metadata::animation_section(animation, max_rate, min_rate)),
{
    reveal_strlit("[Animations]\n");
    reveal_strlit("\n");
    let stored = animation.properties;
    let values = animation.values;
    let s0 = "[Animations]\n"@;
    let l1 = metadata::text_line(
        "AnimNext"@,
        metadata::if_stored(stored.anim_next, next_of(animation)),
    );
    let l2 = metadata::text_line(
        "MaxFrameRate"@,
        metadata::if_stored(stored.max_frame_rate, max_rate),
    );
    let l3 = metadata::text_line(
        "MinFrameRate"@,
        metadata::if_stored(stored.min_frame_rate, min_rate),
    );
    let l4 = metadata::bool_line(
        "OneTimeAnimLoop"@,
        metadata::if_stored(stored.one_time_anim_loop, values.one_time_anim_loop),
    );
    let l5 = metadata::number_line(
        "PrimeCount"@,
        metadata::if_stored(stored.prime_count, values.prime_count),
    );
    let l6 = metadata::number_line(
        "TotalFrameNum"@,
        metadata::if_stored(stored.total_frame_num, values.total_frame_num),
    );
    ends_joined(s0, l1);
    ends_joined(s0 + l1, l2);
    ends_joined(s0 + l1 + l2, l3);
    ends_joined(s0 + l1 + l2 + l3, l4);
    ends_joined(s0 + l1 + l2 + l3 + l4, l5);
    ends_joined(s0 + l1 + l2 + l3 + l4 + l5, l6);
}

proof fn ends_joined(s: Seq<char>, t: Seq<char>)
    requires
        ends_line(s),
        ends_line(t),
    ensures
        ends_line(s + t),
{
    if t.len() > 0 {
        assert((s + t).last() == t.last());
    } else {
        assert(s + t =~= s);
    }
}

/// The section of an animation is read alike, whatever section stands before it.
proof fn animation_starts_anew(
    animation: ExportedModel,
    max_rate: Seq<char>,
    min_rate: Seq<char>,
    a: NotesModel,
    b: NotesModel,
)
    requires
        b == (NotesModel { section: b.section, ..a }),
        keeps_parts(metadata::animation_section(animation, max_rate, min_rate), 0, a),
    ensures
        keeps_parts(metadata::animation_section(animation, max_rate, min_rate), 0, b),
{
    reveal_strlit("[Animations]\n");
    let section = metadata::animation_section(animation, max_rate, min_rate);
    animation_section_parts(animation, max_rate, min_rate);
    assert(section[0] == '[' && section[11] == ']' && section[12] == '\n');
    let first = section.subrange(0, 12);
    assert(text::line_end(section, 0) == 12) by {
        text::find_char_is_first(section, '\n', 0);
    }
    assert(is_bare(first)) by {}
    bare_is_trimmed(first);
    assert(metadata::names_section(first));
}

/// The text file of an exported texture gives back its settings and its nine
/// parts, and no animation where it has none. A path or a frame rate of an animation
/// may be any text, unless a line break in it opens the section of the settings or
/// that of the nine parts, and a line there gives one of its keys another value.
pub proof fn settings_and_parts_are_read_back(
    entry: EntryModel,
    max_rate: Seq<char>,
    min_rate: Seq<char>,
    max: Option<u32>,
    min: Option<u32>,
)
    requires
        entry.animation matches Some(animation) ==> keeps_to_itself(
            animation,
            max_rate,
            min_rate,
        ) || keeps_parts(
            metadata::animation_section(animation, max_rate, min_rate),
            0,
            notes_of(EntryModel { animation: None, ..entry }, max_rate, min_rate),
        ),
        metadata::metadata_of(entry, max_rate, min_rate) is Some,
    ensures
        ({
            let content = metadata::metadata_of(entry, max_rate, min_rate)->Some_0;
            let notes = metadata::notes_from(content, 0, metadata::no_notes());
            let read = metadata::metadata_from(notes, max, min);
            &&& same_parts(notes, notes_of(entry, max_rate, min_rate))
            &&& read.settings == entry.settings
            &&& read.split9 == (if entry.has_split9 {
                Some(entry.split9)
            } else {
                None
            })
            &&& entry.animation is None && max is None && min is None ==> read.animation is None
            &&& entry.animation is None ==> notes == (NotesModel {
                section: notes.section,
                ..notes_of(entry, max_rate, min_rate)
            })
        }),
{
    let n = metadata::no_notes();
    let first = metadata::settings_section(entry.settings);
    settings_are_read(entry.settings, n);
    let n1 = metadata::notes_from(first, 0, n);
    let second = if entry.has_split9 {
        metadata::with_section(first, metadata::split9_section(entry.split9))
    } else {
        first
    };
    if entry.has_split9 {
        split9_is_read(entry.split9, n1);
        section_joined(first, metadata::split9_section(entry.split9), n);
    }
    let n2 = metadata::notes_from(second, 0, n);
    if let Some(animation) = entry.animation {
        let section = metadata::animation_section(animation, max_rate, min_rate);
        if keeps_to_itself(animation, max_rate, min_rate) {
            animation_keeps_parts(animation, max_rate, min_rate, n2);
        } else {
            let known = notes_of(EntryModel { animation: None, ..entry }, max_rate, min_rate);
            animation_starts_anew(animation, max_rate, min_rate, known, n2);
            kept_parts_are_known(section, 0, n2);
            animation_ends_lines(animation, max_rate, min_rate);
        }
        section_joined(second, section, n);
    }
}

} // verus!
