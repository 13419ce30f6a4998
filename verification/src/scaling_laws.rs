//! What scaling the text beside a texture does to each of its lines.

use vstd::prelude::*;
use crate::resize_metadata::Scaling;
use crate::metadata_laws;
use crate::resize_metadata;
use crate::text;

verus! {

proof fn long_decimals_are_read(v: int)
    requires
        i64::MIN <= v <= i64::MAX,
    ensures
        text::parsed_i64(text::decimal(v)) == Some(v as i64),
        text::trimmed(text::decimal(v)) == text::decimal(v),
        text::decimal(v).len() > 0,
        forall|i: int|
            #![trigger text::decimal(v)[i]]
            0 <= i < text::decimal(v).len() ==> text::is_digit(text::decimal(v)[i]) || text::decimal(
                v,
            )[i] == '-',
{
    let s = text::decimal(v);
    let n = (if v < 0 {
        -v
    } else {
        v
    }) as nat;
    let d = text::digits(n);
    metadata_laws::digits_are_read(n);
    assert(text::is_digit(d[0]));
    assert(text::is_digit(d[d.len() - 1]));
    if v < 0 {
        assert(s.skip(1) =~= d);
        assert forall|i: int| #![trigger s[i]] 0 <= i < s.len() implies text::is_digit(s[i]) || s[i]
            == '-' by {
            if i > 0 {
                assert(s[i] == d[i - 1]);
            }
        }
    }
}

/// A line with a key of letters and a number, read as key and number.
proof fn line_is_taken_apart(key: Seq<char>, v: int)
    requires
        key.len() > 0,
        !text::is_white(key[0]),
        !text::is_white(key.last()),
        forall|i: int| 0 <= i < key.len() ==> #[trigger] key[i] != '=',
        i64::MIN <= v <= i64::MAX,
    ensures
        ({
            let line = key + "="@ + text::decimal(v);
            let i = key.len() as int;
            &&& text::find_char(line, '=', 0) == Some(i)
            &&& line.take(i) == key
            &&& text::trimmed(key) == key
            &&& text::parsed_i64(text::trimmed(line.skip(i + 1))) == Some(v as i64)
        }),
{
    reveal_strlit("=");
    let line = key + "="@ + text::decimal(v);
    let i = key.len() as int;
    long_decimals_are_read(v);
    text::find_char_is_first(line, '=', 0);
    assert(line[i] == '=');
    assert forall|k: int| 0 <= k < i implies line[k] != '=' by {
        assert(line[k] == key[k]);
    }
    assert(line.take(i) =~= key);
    assert(line.skip(i + 1) =~= text::decimal(v));
}

/// The number that stands for `v` pixels of `source` when there are `target` instead.
proof fn positive_sizes_are_scaled(v: int, source: int, target: int)
    requires
        source > 0,
    ensures
        v > 0 ==> resize_metadata::scaled(v, source, target) == (v * target + source / 2) / source,
        v <= 0 ==> resize_metadata::scaled(v, source, target) == 0,
{
}

/// A line of the section `[Split9]` about the columns of a texture becomes the same key
/// with the column scaled from the width to the resolution, and one about its rows is
/// scaled from the height. What is not above zero becomes zero.
#[verifier::spinoff_prover]
pub proof fn split9_lines_are_scaled(v: int, s: Scaling)
    requires
        i64::MIN <= v <= i64::MAX,
        s.width > 0,
        s.height > 0,
    ensures
        ({
            let across = if v > 0 {
                (v * s.resolution + s.width as int / 2) / (s.width as int)
            } else {
                0
            };
            let down = if v > 0 {
                (v * s.resolution + s.height as int / 2) / (s.height as int)
            } else {
                0
            };
            &&& resize_metadata::scaled_line("split9"@, "Split9X1"@ + "="@ + text::decimal(v), s)
                == "Split9X1"@ + "="@ + text::decimal(across)
            &&& resize_metadata::scaled_line("split9"@, "Split9X2"@ + "="@ + text::decimal(v), s)
                == "Split9X2"@ + "="@ + text::decimal(across)
            &&& resize_metadata::scaled_line("split9"@, "Split9X3"@ + "="@ + text::decimal(v), s)
                == "Split9X3"@ + "="@ + text::decimal(across)
            &&& resize_metadata::scaled_line("split9"@, "Split9Y1"@ + "="@ + text::decimal(v), s)
                == "Split9Y1"@ + "="@ + text::decimal(down)
            &&& resize_metadata::scaled_line("split9"@, "Split9Y2"@ + "="@ + text::decimal(v), s)
                == "Split9Y2"@ + "="@ + text::decimal(down)
            &&& resize_metadata::scaled_line("split9"@, "Split9Y3"@ + "="@ + text::decimal(v), s)
                == "Split9Y3"@ + "="@ + text::decimal(down)
        }),
{
    reveal_strlit("texture");
    reveal_strlit("split9");
    reveal_strlit("Split9X1");
    reveal_strlit("Split9X2");
    reveal_strlit("Split9X3");
    reveal_strlit("Split9Y1");
    reveal_strlit("Split9Y2");
    reveal_strlit("Split9Y3");
    assert("split9"@.len() != "texture"@.len());
    assert("Split9X1"@[6] == 'X' && "Split9X2"@[6] == 'X' && "Split9X3"@[6] == 'X');
    assert("Split9Y1"@[6] == 'Y' && "Split9Y2"@[6] == 'Y' && "Split9Y3"@[6] == 'Y');
    line_is_taken_apart("Split9X1"@, v);
    line_is_taken_apart("Split9X2"@, v);
    line_is_taken_apart("Split9X3"@, v);
    line_is_taken_apart("Split9Y1"@, v);
    line_is_taken_apart("Split9Y2"@, v);
    line_is_taken_apart("Split9Y3"@, v);
    positive_sizes_are_scaled(v, s.width as int, s.resolution as int);
    positive_sizes_are_scaled(v, s.height as int, s.resolution as int);
}

/// A line of the section `[Texture]` about the clamp of a direction becomes the resolution
/// if it is the whole size in that direction, and stays otherwise.
#[verifier::spinoff_prover]
pub proof fn clamp_lines_are_scaled(v: int, s: Scaling)
    requires
        i64::MIN <= v <= i64::MAX,
    ensures
        resize_metadata::scaled_line("texture"@, "UClamp"@ + "="@ + text::decimal(v), s) == if v
            == s.width {
            "UClamp"@ + "="@ + text::decimal(s.resolution as int)
        } else {
            "UClamp"@ + "="@ + text::decimal(v)
        },
        resize_metadata::scaled_line("texture"@, "VClamp"@ + "="@ + text::decimal(v), s) == if v
            == s.height {
            "VClamp"@ + "="@ + text::decimal(s.resolution as int)
        } else {
            "VClamp"@ + "="@ + text::decimal(v)
        },
{
    reveal_strlit("texture");
    reveal_strlit("UClamp");
    reveal_strlit("VClamp");
    assert("UClamp"@[0] != "VClamp"@[0]);
    line_is_taken_apart("UClamp"@, v);
    line_is_taken_apart("VClamp"@, v);
}

/// A line without a sign of equality, without a number behind it, or with another key
/// stays, and so does every line of another section.
pub proof fn other_lines_stay(section: Seq<char>, line: Seq<char>, s: Scaling)
    requires
        ({
            ||| section != "split9"@ && section != "texture"@
            ||| forall|i: int| 0 <= i < line.len() ==> #[trigger] line[i] != '='
            ||| exists|i: int|
                #![trigger line[i]]
                0 <= i < line.len() && line[i] == '=' && (forall|k: int|
                    0 <= k < i ==> #[trigger] line[k] != '=') && ({
                    let key = text::trimmed(line.take(i));
                    ||| text::parsed_i64(text::trimmed(line.skip(i + 1))) is None
                    ||| section == "texture"@ && key != "UClamp"@ && key != "VClamp"@
                    ||| section == "split9"@ && key != "Split9X1"@ && key != "Split9X2"@ && key
                        != "Split9X3"@ && key != "Split9Y1"@ && key != "Split9Y2"@ && key
                        != "Split9Y3"@
                })
        }),
    ensures
        resize_metadata::scaled_line(section, line, s) == line,
{
    reveal_strlit("texture");
    reveal_strlit("split9");
    assert("split9"@.len() != "texture"@.len());
    text::find_char_is_first(line, '=', 0);
}

/// A name in brackets opens the section of that name in small letters, whatever white
/// space stands around it.
pub proof fn names_in_brackets_open_sections(name: Seq<char>)
    requires
        name.len() > 0 ==> !text::is_white(name[0]) && !text::is_white(name.last()),
    ensures
        resize_metadata::opened_section(seq!['['] + name + seq![']']) == Some(
            text::lower_text(name),
        ),
{
    let line = seq!['['] + name + seq![']'];
    assert(text::trimmed(line) == line);
    assert(line.subrange(1, line.len() - 1) =~= name);
    assert(text::trimmed(name) == name);
}

/// The lines that open the sections with numbers of pixels.
pub proof fn known_sections_are_opened()
    ensures
        resize_metadata::opened_section("[Split9]"@) == Some("split9"@),
        resize_metadata::opened_section("[Texture]"@) == Some("texture"@),
{
    reveal_strlit("[Split9]");
    reveal_strlit("[Texture]");
    reveal_strlit("split9");
    reveal_strlit("texture");
    let a = seq!['S', 'p', 'l', 'i', 't', '9'];
    let b = seq!['T', 'e', 'x', 't', 'u', 'r', 'e'];
    names_in_brackets_open_sections(a);
    names_in_brackets_open_sections(b);
    assert("[Split9]"@ =~= seq!['['] + a + seq![']']);
    assert("[Texture]"@ =~= seq!['['] + b + seq![']']);
    assert(text::lower_text(a) =~= "split9"@);
    assert(text::lower_text(b) =~= "texture"@);
}

/// Lines as one text.
pub open spec fn joined_lines(lines: Seq<Seq<char>>, newline: Seq<char>) -> Seq<char>
    decreases lines.len(),
{
    if lines.len() == 0 {
        Seq::empty()
    } else if lines.len() == 1 {
        lines[0]
    } else {
        lines[0] + newline + joined_lines(lines.skip(1), newline)
    }
}

/// Whether a text has no line end in it.
pub open spec fn is_one_line(line: Seq<char>) -> bool {
    forall|i: int| 0 <= i < line.len() ==> #[trigger] line[i] != '\n' && line[i] != '\r'
}

/// The section that is open before a line: that of the last line before it that opens one.
pub open spec fn section_before(lines: Seq<Seq<char>>, i: int, first: Seq<char>) -> Seq<char>
    decreases i,
{
    if i <= 0 {
        first
    } else {
        match resize_metadata::opened_section(lines[i - 1]) {
            Some(section) => section,
            None => section_before(lines, i - 1, first),
        }
    }
}

/// A line of a text, scaled in the section that is open before it.
pub open spec fn line_after(lines: Seq<Seq<char>>, i: int, first: Seq<char>, s: Scaling) -> Seq<char> {
    if resize_metadata::opened_section(lines[i]) is Some {
        lines[i]
    } else {
        resize_metadata::scaled_line(section_before(lines, i, first), lines[i], s)
    }
}

pub open spec fn lines_after(lines: Seq<Seq<char>>, first: Seq<char>, s: Scaling) -> Seq<Seq<char>> {
    Seq::new(lines.len(), |i: int| line_after(lines, i, first, s))
}

proof fn sections_of_the_rest(lines: Seq<Seq<char>>, i: int, first: Seq<char>)
    requires
        0 <= i < lines.len(),
    ensures
        section_before(
            lines.skip(1),
            i,
            match resize_metadata::opened_section(lines[0]) {
                Some(section) => section,
                None => first,
            },
        ) == section_before(lines, i + 1, first),
    decreases i,
{
    if i > 0 {
        sections_of_the_rest(lines, i - 1, first);
        assert(lines.skip(1)[i - 1] == lines[i]);
    } else {
        assert(section_before(lines, 1, first) == match resize_metadata::opened_section(lines[0]) {
            Some(section) => section,
            None => section_before(lines, 0, first),
        });
    }
}

/// What stands behind the first line of lines.
proof fn first_line_ends(
    source: Seq<char>,
    from: int,
    lines: Seq<Seq<char>>,
    newline: Seq<char>,
)
    requires
        0 <= from <= source.len(),
        lines.len() > 0,
        source.skip(from) == joined_lines(lines, newline),
        newline == seq!['\n'] || newline == seq!['\r', '\n'],
        is_one_line(lines[0]),
    ensures
        resize_metadata::bare_line(source, from) == lines[0],
        lines.len() == 1 ==> resize_metadata::next_line(source, from) == source.len() && source.len()
            == from + lines[0].len(),
        lines.len() > 1 ==> {
            let next = from + lines[0].len() + newline.len();
            &&& resize_metadata::next_line(source, from) == next <= source.len()
            &&& source.skip(next) == joined_lines(lines.skip(1), newline)
        },
{
    let rest = source.skip(from);
    let line = lines[0];
    text::find_char_is_first(source, '\n', from);
    assert(rest.len() == source.len() - from);
    assert(lines.len() > 1 ==> rest == line + newline + joined_lines(lines.skip(1), newline));
    assert(line.len() <= rest.len());
    assert forall|k: int| 0 <= k < line.len() implies source[from + k] == #[trigger] line[k] by {
        assert(rest[k] == source[from + k]);
        assert(rest[k] == line[k]);
    }
    if lines.len() == 1 {
        assert(source.len() == from + line.len());
        if let Some(e) = text::find_char(source, '\n', from) {
            assert(source[e] == line[e - from]);
            assert(false);
        }
        assert(source.subrange(from, source.len() as int) =~= line);
    } else {
        let all = line + newline + joined_lines(lines.skip(1), newline);
        let end = from + line.len() + newline.len() - 1;
        assert(rest == all);
        assert(source[end] == '\n') by {
            assert(rest[end - from] == source[end]);
            assert(all[end - from] == newline[newline.len() - 1]);
        }
        if newline.len() == 2 {
            assert(source[end - 1] == '\r') by {
                assert(rest[end - 1 - from] == source[end - 1]);
                assert(all[end - 1 - from] == newline[0]);
            }
        }
        assert(text::line_end(source, from) == end) by {
            let other = text::line_end(source, from);
            if other < end {
                if other < from + line.len() {
                    assert(source[other] == line[other - from]);
                } else {
                    assert(source[other] == '\r');
                }
                assert(false);
            }
        }
        let next = end + 1;
        assert(source.skip(next) =~= joined_lines(lines.skip(1), newline)) by {
            assert(rest.skip(next - from) =~= source.skip(next));
            assert(all.skip(next - from) =~= joined_lines(lines.skip(1), newline));
        }
        if newline.len() == 2 {
            assert(source.subrange(from, end - 1) =~= line);
        } else {
            assert(source.subrange(from, end) =~= line);
            if end > from {
                assert(source[end - 1] == line[end - 1 - from]);
            }
        }
    }
}

/// Lines from `from` on are scaled one by one.
#[verifier::spinoff_prover]
#[verifier::rlimit(40)]
proof fn lines_are_scaled_from(
    source: Seq<char>,
    from: int,
    lines: Seq<Seq<char>>,
    newline: Seq<char>,
    section: Seq<char>,
    s: Scaling,
    before: Seq<char>,
)
    requires
        0 <= from <= source.len(),
        lines.len() > 0,
        source.skip(from) == joined_lines(lines, newline),
        newline == seq!['\n'] || newline == seq!['\r', '\n'],
        forall|i: int| 0 <= i < lines.len() ==> is_one_line(#[trigger] lines[i]),
    ensures
        ({
            let start = if from == 0 {
                before
            } else {
                before + newline
            };
            let text = resize_metadata::scaled_from(source, from, section, newline, s, before);
            let whole = start + joined_lines(lines_after(lines, section, s), newline);
            if lines.last().len() > 0 || (from == 0 && lines.len() == 1) {
                text == whole
            } else {
                text + newline == whole
            }
        }),
    decreases lines.len(),
{
    let start = if from == 0 {
        before
    } else {
        before + newline
    };
    let line = lines[0];
    let after = lines_after(lines, section, s);
    first_line_ends(source, from, lines, newline);
    let opened = match resize_metadata::opened_section(line) {
        Some(opened) => opened,
        None => section,
    };
    assert(after[0] == if resize_metadata::opened_section(line) is Some {
        line
    } else {
        resize_metadata::scaled_line(section, line, s)
    });
    if lines.len() == 1 {
        assert(joined_lines(after, newline) == after[0]);
        if line.len() == 0 {
            assert(resize_metadata::opened_section(line) is None) by {
                text::trimming_shortens(line);
            }
            assert(resize_metadata::scaled_line(section, line, s) == line);
            assert(start + after[0] =~= start);
            assert(before + newline =~= before + newline + after[0]);
        } else {
            let text = start + after[0];
            let end = source.len() as int;
            assert(resize_metadata::scaled_from(source, end, opened, newline, s, text) == text);
        }
    } else {
        let rest = lines.skip(1);
        let next = resize_metadata::next_line(source, from);
        assert forall|i: int| 0 <= i < rest.len() implies is_one_line(#[trigger] rest[i]) by {
            assert(rest[i] == lines[i + 1]);
        }
        lines_are_scaled_from(source, next, rest, newline, opened, s, start + after[0]);
        let others = lines_after(rest, opened, s);
        assert forall|i: int| 0 <= i < rest.len() implies others[i] == after.skip(1)[i] by {
            assert(rest[i] == lines[i + 1]);
            sections_of_the_rest(lines, i, section);
        }
        assert(others =~= after.skip(1));
        assert(start + after[0] + newline + joined_lines(others, newline) =~= start + (after[0]
            + newline + joined_lines(others, newline)));
        assert(rest.last() == lines.last());
    }
}

proof fn ends_of_lines(lines: Seq<Seq<char>>, newline: Seq<char>)
    requires
        lines.len() > 0,
        newline == seq!['\n'] || newline == seq!['\r', '\n'],
        forall|i: int| 0 <= i < lines.len() ==> is_one_line(#[trigger] lines[i]),
    ensures
        ({
            let source = joined_lines(lines, newline);
            &&& (source.len() > 0 && source.last() == '\n') == (lines.len() > 1 && lines.last().len()
                == 0)
            &&& resize_metadata::has_windows_end(source) == (newline.len() == 2 && lines.len() > 1)
            &&& forall|i: int|
                0 <= i < source.len() && #[trigger] source[i] == '\r' ==> newline.len() == 2
            &&& source.len() > 0 && lines[0].len() == 0 ==> source[0] == newline[0]
        }),
    decreases lines.len(),
{
    let source = joined_lines(lines, newline);
    if lines.len() == 1 {
        if source.len() > 0 {
            assert(source[source.len() - 1] != '\n');
        }
    } else {
        let rest = lines.skip(1);
        let tail = joined_lines(rest, newline);
        assert forall|i: int| 0 <= i < rest.len() implies is_one_line(#[trigger] rest[i]) by {
            assert(rest[i] == lines[i + 1]);
        }
        ends_of_lines(rest, newline);
        let n = (lines[0].len() + newline.len()) as int;
        assert(source.len() == n + tail.len());
        assert forall|i: int| 0 <= i < tail.len() implies source[n + i] == #[trigger] tail[i] by {}
        assert(source[n - 1] == '\n');
        assert(rest.last() == lines.last());
        if tail.len() > 0 {
            assert(source.last() == tail[tail.len() - 1]);
        } else {
            assert(rest.len() == 1) by {
                if rest.len() > 1 {
                    assert(newline.len() > 0);
                }
            }
            assert(source.last() == source[n - 1]);
        }
        if newline.len() == 2 {
            assert(source[n - 2] == '\r');
        }
        assert forall|i: int| 0 <= i < source.len() && #[trigger] source[i] == '\r' implies
            newline.len() == 2 by {
            if i < lines[0].len() {
                assert(source[i] == lines[0][i]);
            } else if i >= n {
                assert(source[i] == tail[i - n]);
            }
        }
    }
}

/// A text of lines is scaled line by line: a line that opens a section stays, and every
/// other line is scaled in the section that is open before it. The line ends stay.
pub proof fn texts_are_scaled_line_by_line(lines: Seq<Seq<char>>, newline: Seq<char>, s: Scaling)
    requires
        lines.len() > 0,
        newline == seq!['\n'] || newline == seq!['\r', '\n'],
        forall|i: int| 0 <= i < lines.len() ==> is_one_line(#[trigger] lines[i]),
    ensures
        resize_metadata::scaled_metadata(joined_lines(lines, newline), s) == joined_lines(
            lines_after(lines, Seq::empty(), s),
            newline,
        ),
{
    let source = joined_lines(lines, newline);
    reveal_strlit("\n");
    reveal_strlit("\r\n");
    assert("\n"@ =~= seq!['\n']);
    assert("\r\n"@ =~= seq!['\r', '\n']);
    ends_of_lines(lines, newline);
    assert(source.skip(0) =~= source);
    let used = resize_metadata::newline_of(source);
    if lines.len() == 1 {
        assert(joined_lines(lines, used) == source);
        lines_are_scaled_from(source, 0, lines, used, Seq::empty(), s, Seq::empty());
    } else {
        assert(used == newline);
        lines_are_scaled_from(source, 0, lines, newline, Seq::empty(), s, Seq::empty());
    }
    let whole = joined_lines(lines_after(lines, Seq::empty(), s), newline);
    assert(Seq::<char>::empty() + whole =~= whole);
}

/// The section of a line is that of the nearest line before it that opens one.
pub proof fn sections_reach_to_the_next(
    lines: Seq<Seq<char>>,
    opener: int,
    i: int,
    first: Seq<char>,
)
    requires
        0 <= opener < i <= lines.len(),
        resize_metadata::opened_section(lines[opener]) is Some,
        forall|k: int|
            opener < k < i ==> resize_metadata::opened_section(#[trigger] lines[k]) is None,
    ensures
        section_before(lines, i, first) == resize_metadata::opened_section(lines[opener])->0,
    decreases i,
{
    if opener < i - 1 {
        assert(resize_metadata::opened_section(lines[i - 1]) is None);
        sections_reach_to_the_next(lines, opener, i - 1, first);
    }
}

/// A line about a column of a texture, somewhere in the section `[Split9]` of a text, is
/// scaled from the width to the resolution, and one about a row from the height: every
/// other line of the text may be what it is.
pub proof fn split9_numbers_of_a_text_are_scaled(
    lines: Seq<Seq<char>>,
    opener: int,
    i: int,
    v: int,
    s: Scaling,
)
    requires
        0 <= opener < i < lines.len(),
        lines[opener] == "[Split9]"@,
        forall|k: int|
            opener < k < i ==> resize_metadata::opened_section(#[trigger] lines[k]) is None,
        0 < v <= i64::MAX,
        s.width > 0,
        s.height > 0,
    ensures
        ({
            let across = (v * s.resolution + s.width as int / 2) / (s.width as int);
            let down = (v * s.resolution + s.height as int / 2) / (s.height as int);
            let line = lines_after(lines, Seq::empty(), s)[i];
            &&& lines[i] == "Split9X1"@ + "="@ + text::decimal(v) ==> line == "Split9X1"@ + "="@
                + text::decimal(across)
            &&& lines[i] == "Split9X2"@ + "="@ + text::decimal(v) ==> line == "Split9X2"@ + "="@
                + text::decimal(across)
            &&& lines[i] == "Split9X3"@ + "="@ + text::decimal(v) ==> line == "Split9X3"@ + "="@
                + text::decimal(across)
            &&& lines[i] == "Split9Y1"@ + "="@ + text::decimal(v) ==> line == "Split9Y1"@ + "="@
                + text::decimal(down)
            &&& lines[i] == "Split9Y2"@ + "="@ + text::decimal(v) ==> line == "Split9Y2"@ + "="@
                + text::decimal(down)
            &&& lines[i] == "Split9Y3"@ + "="@ + text::decimal(v) ==> line == "Split9Y3"@ + "="@
                + text::decimal(down)
        }),
{
    known_sections_are_opened();
    sections_reach_to_the_next(lines, opener, i, Seq::empty());
    split9_lines_are_scaled(v, s);
    numbers_open_nothing("Split9X1"@, v);
    numbers_open_nothing("Split9X2"@, v);
    numbers_open_nothing("Split9X3"@, v);
    numbers_open_nothing("Split9Y1"@, v);
    numbers_open_nothing("Split9Y2"@, v);
    numbers_open_nothing("Split9Y3"@, v);
    reveal_strlit("Split9X1");
    reveal_strlit("Split9X2");
    reveal_strlit("Split9X3");
    reveal_strlit("Split9Y1");
    reveal_strlit("Split9Y2");
    reveal_strlit("Split9Y3");
}

proof fn numbers_open_nothing(key: Seq<char>, v: int)
    requires
        i64::MIN <= v <= i64::MAX,
    ensures
        key.len() > 0 && !text::is_white(key[0]) && key[0] != '['
            ==> resize_metadata::opened_section(key + "="@ + text::decimal(v)) is None,
{
    let line = key + "="@ + text::decimal(v);
    long_decimals_are_read(v);
    let d = text::decimal(v);
    if key.len() > 0 && !text::is_white(key[0]) && key[0] != '[' {
        assert(line[0] == key[0]);
        assert(line.last() == d[d.len() - 1]);
        assert(text::is_digit(d[d.len() - 1]) || d[d.len() - 1] == '-');
        assert(text::trimmed(line) == line);
    }
}

} // verus!
