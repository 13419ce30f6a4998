//! The text beside a texture, scaled with it: the lines that speak of pixels
//! are rewritten, the others stay.

use vstd::prelude::*;
use vstd::slice::slice_subrange;
use crate::text;

verus! {

/// A size scaled from one resolution to another, rounded. Nothing is below
/// zero.
pub open spec fn scaled(value: int, source: int, target: int) -> int {
    if value <= 0 {
        0
    } else if source == 0 {
        value
    } else {
        (value * target + source / 2) / source
    }
}

/// Whether a size can be scaled in 64 bits.
pub open spec fn scales(value: int, source: int, target: int) -> bool {
    value <= 0 || source == 0 || value * target + source / 2 <= i64::MAX
}

pub fn scale_value(value: i64, source_size: u32, target_size: u32) -> (r: i64)
    requires
        scales(value as int, source_size as int, target_size as int),
    ensures
        r == scaled(value as int, source_size as int, target_size as int),
{
    if value <= 0 {
        return 0;
    }
    if source_size == 0 {
        return value;
    }
    assert(value * target_size >= 0) by (nonlinear_arith)
        requires
            value >= 0,
            target_size >= 0,
    ;
    let sum: i64 = value * (target_size as i64) + (source_size / 2) as i64;
    sum / (source_size as i64)
}

/// A size scaled to its own resolution stays, and one that is the whole source
/// becomes the whole target.
pub proof fn scaling_keeps_proportions(value: int, source: int, target: int)
    requires
        value >= 0,
        source > 0,
        target >= 0,
    ensures
        scaled(value, source, source) == value,
        scaled(source, source, target) == target,
        scaled(0, source, target) == 0,
{
    assert((value * source + source / 2) / source == value) by (nonlinear_arith)
        requires
            source > 0,
            value >= 0,
    ;
    assert((source * target + source / 2) / source == target) by (nonlinear_arith)
        requires
            source > 0,
            target >= 0,
    ;
}

/// Larger sizes do not become smaller than smaller ones.
pub proof fn scaling_keeps_order(a: int, b: int, source: int, target: int)
    requires
        a <= b,
        source > 0,
        target >= 0,
    ensures
        scaled(a, source, target) <= scaled(b, source, target),
        0 <= scaled(a, source, target),
{
    if a > 0 {
        assert(a * target <= b * target) by (nonlinear_arith)
            requires
                a <= b,
                target >= 0,
        ;
        assert((a * target + source / 2) / source <= (b * target + source / 2) / source)
            by (nonlinear_arith)
            requires
                a * target <= b * target,
                source > 0,
        ;
        assert(0 <= (a * target + source / 2) / source) by (nonlinear_arith)
            requires
                a > 0,
                target >= 0,
                source > 0,
        ;
    } else if b > 0 {
        assert(0 <= (b * target + source / 2) / source) by (nonlinear_arith)
            requires
                b > 0,
                target >= 0,
                source > 0,
        ;
    }
}

/// The sizes of a texture before and after.
#[derive(Debug, Clone, Copy)]
pub struct Scaling {
    pub width: u32,
    pub height: u32,
    pub resolution: u32,
}

/// What a line of metadata is about.
#[derive(Debug, Clone, Copy, PartialEq, Eq, Structural)]
pub enum LineRole {
    UClamp,
    VClamp,
    Across,
    Down,
    Other,
}

/// What a key stands for in a section.
pub open spec fn role_of(section: Seq<char>, key: Seq<char>) -> LineRole {
    if section == "texture"@ {
        if key == "UClamp"@ {
            LineRole::UClamp
        } else if key == "VClamp"@ {
            LineRole::VClamp
        } else {
            LineRole::Other
        }
    } else if section == "split9"@ {
        if key == "Split9X1"@ || key == "Split9X2"@ || key == "Split9X3"@ {
            LineRole::Across
        } else if key == "Split9Y1"@ || key == "Split9Y2"@ || key == "Split9Y3"@ {
            LineRole::Down
        } else {
            LineRole::Other
        }
    } else {
        LineRole::Other
    }
}

/// The section that a line opens.
pub open spec fn opened_section(line: Seq<char>) -> Option<Seq<char>> {
    let bare = text::trimmed(line);
    if bare.len() > 0 && bare[0] == '[' && bare.last() == ']' {
        Some(text::lower_text(text::trimmed(bare.subrange(1, bare.len() - 1))))
    } else {
        None
    }
}

/// The number that replaces the one on a line.
pub open spec fn new_value(role: LineRole, value: int, s: Scaling) -> Option<int> {
    match role {
        LineRole::UClamp => if value == s.width {
            Some(s.resolution as int)
        } else {
            None
        },
        LineRole::VClamp => if value == s.height {
            Some(s.resolution as int)
        } else {
            None
        },
        LineRole::Across => Some(scaled(value, s.width as int, s.resolution as int)),
        LineRole::Down => Some(scaled(value, s.height as int, s.resolution as int)),
        LineRole::Other => None,
    }
}

/// Whether the number on a line can be scaled.
pub open spec fn value_scales(role: LineRole, value: int, s: Scaling) -> bool {
    match role {
        LineRole::Across => scales(value, s.width as int, s.resolution as int),
        LineRole::Down => scales(value, s.height as int, s.resolution as int),
        _ => true,
    }
}

/// A line that opens no section, rewritten where its number is a size.
pub open spec fn scaled_line(section: Seq<char>, line: Seq<char>, s: Scaling) -> Seq<char> {
    match text::find_char(line, '=', 0) {
        None => line,
        Some(i) => match text::parsed_i64(text::trimmed(line.skip(i + 1))) {
            None => line,
            Some(value) => match new_value(
                role_of(section, text::trimmed(line.take(i))),
                value as int,
                s,
            ) {
                None => line,
                Some(number) => line.take(i) + "="@ + text::decimal(number),
            },
        },
    }
}

/// Whether a line can be rewritten.
pub open spec fn line_scales(section: Seq<char>, line: Seq<char>, s: Scaling) -> bool {
    match text::find_char(line, '=', 0) {
        None => true,
        Some(i) => match text::parsed_i64(text::trimmed(line.skip(i + 1))) {
            None => true,
            Some(value) => value_scales(
                role_of(section, text::trimmed(line.take(i))),
                value as int,
                s,
            ),
        },
    }
}

/// The line that starts at `from`, without its end.
pub open spec fn bare_line(source: Seq<char>, from: int) -> Seq<char> {
    let end = text::line_end(source, from);
    if end < source.len() && end > from && source[end - 1] == '\r' {
        source.subrange(from, end - 1)
    } else {
        source.subrange(from, end)
    }
}

/// The start of the line behind the one that starts at `from`.
pub open spec fn next_line(source: Seq<char>, from: int) -> int {
    if text::line_end(source, from) < source.len() {
        text::line_end(source, from) + 1
    } else {
        source.len() as int
    }
}

/// The lines from `from` on, rewritten and joined behind what stands before.
pub open spec fn scaled_from(
    source: Seq<char>,
    from: int,
    section: Seq<char>,
    newline: Seq<char>,
    s: Scaling,
    before: Seq<char>,
) -> Seq<char>
    decreases source.len() - from,
{
    let next = next_line(source, from);
    if !(0 <= from < next <= source.len()) {
        before
    } else {
        let line = bare_line(source, from);
        let start = if from == 0 {
            before
        } else {
            before + newline
        };
        match opened_section(line) {
            Some(opened) => scaled_from(source, next, opened, newline, s, start + line),
            None => scaled_from(
                source,
                next,
                section,
                newline,
                s,
                start + scaled_line(section, line, s),
            ),
        }
    }
}

/// Whether all lines from `from` on can be rewritten.
pub open spec fn all_scale(source: Seq<char>, from: int, section: Seq<char>, s: Scaling) -> bool
    decreases source.len() - from,
{
    let next = next_line(source, from);
    if !(0 <= from < next <= source.len()) {
        true
    } else {
        let line = bare_line(source, from);
        match opened_section(line) {
            Some(opened) => all_scale(source, next, opened, s),
            None => line_scales(section, line, s) && all_scale(source, next, section, s),
        }
    }
}

/// Whether a text holds a carriage return before a line feed at `from` or
/// behind.
pub open spec fn has_windows_end(source: Seq<char>) -> bool {
    exists|i: int| 0 <= i < source.len() - 1 && #[trigger] source[i] == '\r' && source[i + 1] == '\n'
}

pub open spec fn newline_of(source: Seq<char>) -> Seq<char> {
    if has_windows_end(source) {
        "\r\n"@
    } else {
        "\n"@
    }
}

/// A text of metadata for the texture at its new size.
pub open spec fn scaled_metadata(source: Seq<char>, s: Scaling) -> Seq<char> {
    let lines = scaled_from(source, 0, Seq::empty(), newline_of(source), s, Seq::empty());
    if source.len() > 0 && source.last() == '\n' {
        lines + newline_of(source)
    } else {
        lines
    }
}

fn is_literal(chars: &[char], literal: &str) -> (r: bool)
    ensures
        r == (chars@ == literal@),
{
    text::equal_chars(chars, text::chars_of(literal).as_slice())
}

fn find_role(section: &[char], key: &[char]) -> (r: LineRole)
    ensures
        r == role_of(section@, key@),
{
    if is_literal(section, "texture") {
        if is_literal(key, "UClamp") {
            LineRole::UClamp
        } else if is_literal(key, "VClamp") {
            LineRole::VClamp
        } else {
            LineRole::Other
        }
    } else if is_literal(section, "split9") {
        if is_literal(key, "Split9X1") || is_literal(key, "Split9X2") || is_literal(
            key,
            "Split9X3",
        ) {
            LineRole::Across
        } else if is_literal(key, "Split9Y1") || is_literal(key, "Split9Y2") || is_literal(
            key,
            "Split9Y3",
        ) {
            LineRole::Down
        } else {
            LineRole::Other
        }
    } else {
        LineRole::Other
    }
}

fn find_section(line: &[char]) -> (r: Option<Vec<char>>)
    ensures
        match r {
            Some(section) => opened_section(line@) == Some(section@),
            None => opened_section(line@) is None,
        },
{
    let bare = text::trim(line);
    let size: usize = bare.len();
    if size > 0 && bare[0] == '[' && bare[size - 1] == ']' {
        let inner = text::trim(slice_subrange(bare, 1, size - 1));
        Some(text::chars_of(text::lowered(text::text_of(inner).as_str()).as_str()))
    } else {
        None
    }
}

/// The number on a line and what it stands for.
fn find_value(section: &[char], line: &[char]) -> (r: Option<(usize, LineRole, i64)>)
    ensures
        match r {
            Some((i, role, value)) => {
                &&& text::find_char(line@, '=', 0) == Some(i as int)
                &&& i < line@.len()
                &&& text::parsed_i64(text::trimmed(line@.skip(i + 1))) == Some(value)
                &&& role == role_of(section@, text::trimmed(line@.take(i as int)))
            },
            None => text::find_char(line@, '=', 0) matches Some(i) ==> text::parsed_i64(
                text::trimmed(line@.skip(i + 1)),
            ) is None,
        },
{
    let size: usize = line.len();
    match text::position_of(line, '=', 0) {
        None => None,
        Some(i) => {
            let key = slice_subrange(line, 0, i);
            let number = slice_subrange(line, i + 1, size);
            assert(key@ =~= line@.take(i as int));
            assert(number@ =~= line@.skip(i + 1));
            match text::parse_i64(text::trim(number)) {
                Some(value) => Some((i, find_role(section, text::trim(key)), value)),
                None => None,
            }
        },
    }
}

fn scale_line(section: &[char], line: &[char], s: Scaling) -> (r: String)
    requires
        line_scales(section@, line@, s),
    ensures
        r@ == scaled_line(section@, line@, s),
{
    match find_value(section, line) {
        None => text::text_of(line),
        Some((i, role, value)) => {
            let number: Option<i64> = match role {
                LineRole::UClamp => if value == s.width as i64 {
                    Some(s.resolution as i64)
                } else {
                    None
                },
                LineRole::VClamp => if value == s.height as i64 {
                    Some(s.resolution as i64)
                } else {
                    None
                },
                LineRole::Across => Some(scale_value(value, s.width, s.resolution)),
                LineRole::Down => Some(scale_value(value, s.height, s.resolution)),
                LineRole::Other => None,
            };
            match number {
                None => text::text_of(line),
                Some(number) => {
                    let key = slice_subrange(line, 0, i);
                    assert(key@ =~= line@.take(i as int));
                    text::join3(text::text_of(key).as_str(), "=", text::decimal_text(number).as_str())
                },
            }
        },
    }
}

fn line_at(source: &[char], from: usize, end: usize) -> (r: &[char])
    requires
        from <= end <= source@.len(),
        end == text::line_end(source@, from as int),
    ensures
        r@ == bare_line(source@, from as int),
{
    if end < source.len() && end > from && source[end - 1] == '\r' {
        slice_subrange(source, from, end - 1)
    } else {
        slice_subrange(source, from, end)
    }
}

fn uses_windows_ends(source: &[char]) -> (r: bool)
    ensures
        r == has_windows_end(source@),
{
    let size: usize = source.len();
    let mut index: usize = 0;
    while index < size
        invariant
            index <= size,
            size == source@.len(),
            forall|i: int|
                0 <= i < index && i < source@.len() - 1 ==> !(#[trigger] source@[i] == '\r'
                    && source@[i + 1] == '\n'),
        decreases size - index,
    {
        if index + 1 < size && source[index] == '\r' && source[index + 1] == '\n' {
            return true;
        }
        index += 1;
    }
    false
}

/// Rewrites the lines that speak of pixels for the new size.
pub fn scale_metadata(source: &str, source_width: u32, source_height: u32, resolution: u32) -> (r:
    String)
    requires
        all_scale(
            source@,
            0,
            Seq::empty(),
            (Scaling { width: source_width, height: source_height, resolution }),
        ),
    ensures
        r@ == scaled_metadata(
            source@,
            (Scaling { width: source_width, height: source_height, resolution }),
        ),
{
    let s = Scaling { width: source_width, height: source_height, resolution };
    let chars = text::chars_of(source);
    let size: usize = chars.len();
    let newline: &str = if uses_windows_ends(chars.as_slice()) {
        "\r\n"
    } else {
        "\n"
    };
    let mut output = String::new();
    let mut section: Vec<char> = Vec::new();
    let mut from: usize = 0;
    let mut more: bool = size > 0;
    assert(output@ =~= Seq::<char>::empty() && section@ =~= Seq::<char>::empty());
    let ghost whole = scaled_from(
        source@,
        0,
        Seq::empty(),
        newline_of(source@),
        s,
        Seq::empty(),
    );
    while more
        invariant
            chars@ == source@,
            size == chars@.len(),
            from <= size,
            more ==> from < size,
            newline@ == newline_of(source@),
            more ==> all_scale(source@, from as int, section@, s),
            more ==> scaled_from(source@, from as int, section@, newline_of(source@), s, output@)
                == whole,
            !more ==> output@ == whole,
        decreases size - from, if more { 1int } else { 0int },
    {
        let end: usize = match text::position_of(chars.as_slice(), '\n', from) {
            Some(end) => end,
            None => size,
        };
        let line = line_at(chars.as_slice(), from, end);
        let ghost start = if from == 0 {
            output@
        } else {
            output@ + newline_of(source@)
        };
        if from > 0 {
            output = text::join(output.as_str(), newline);
        }
        assert(output@ =~= start);
        match find_section(line) {
            Some(opened) => {
                output = text::join(output.as_str(), text::text_of(line).as_str());
                section = opened;
            },
            None => {
                let next = scale_line(section.as_slice(), line, s);
                output = text::join(output.as_str(), next.as_str());
            },
        }
        assert(scaled_from(
            source@,
            next_line(source@, from as int),
            section@,
            newline_of(source@),
            s,
            output@,
        ) == whole);
        if end >= size || end + 1 >= size {
            more = false;
        } else {
            from = end + 1;
        }
    }
    if size > 0 && chars[size - 1] == '\n' {
        output = text::join(output.as_str(), newline);
    }
    output
}

/// Whether the sizes in a text can all be scaled.
pub fn can_scale_metadata(source: &str, source_width: u32, source_height: u32, resolution: u32) -> (r:
    bool)
    ensures
        r == all_scale(
            source@,
            0,
            Seq::empty(),
            (Scaling { width: source_width, height: source_height, resolution }),
        ),
{
    let s = Scaling { width: source_width, height: source_height, resolution };
    let chars = text::chars_of(source);
    let size: usize = chars.len();
    let mut section: Vec<char> = Vec::new();
    let mut from: usize = 0;
    assert(section@ =~= Seq::<char>::empty());
    while from < size
        invariant
            chars@ == source@,
            size == chars@.len(),
            from <= size,
            s == (Scaling { width: source_width, height: source_height, resolution }),
            all_scale(source@, from as int, section@, s) == all_scale(source@, 0, Seq::empty(), s),
        decreases size - from,
    {
        let end: usize = match text::position_of(chars.as_slice(), '\n', from) {
            Some(end) => end,
            None => size,
        };
        let line = line_at(chars.as_slice(), from, end);
        match find_section(line) {
            Some(opened) => {
                section = opened;
            },
            None => {
                if let Some((_, role, value)) = find_value(section.as_slice(), line) {
                    let side: u32 = match role {
                        LineRole::Across => s.width,
                        LineRole::Down => s.height,
                        _ => 0,
                    };
                    if value > 0 && side != 0 {
                        assert(0 <= value * s.resolution <= i64::MAX * u32::MAX)
                            by (nonlinear_arith)
                            requires
                                0 <= value <= i64::MAX,
                                0 <= s.resolution <= u32::MAX,
                        ;
                        let sum: i128 = (value as i128) * (s.resolution as i128) + (side / 2) as i128;
                        if sum > i64::MAX as i128 {
                            assert(!value_scales(role, value as int, s));
                            assert(!line_scales(section@, line@, s));
                            return false;
                        }
                    }
                }
            },
        }
        if end >= size {
            from = size;
        } else {
            from = end + 1;
        }
    }
    true
}

/// The text beside a texture, rewritten only where the texture was resized.
pub fn metadata_text(source: &str, resized: bool, s: Scaling) -> (r: String)
    requires
        resized ==> all_scale(source@, 0, Seq::empty(), s),
    ensures
        r@ == if resized {
            scaled_metadata(source@, s)
        } else {
            source@
        },
{
    if resized {
        scale_metadata(source, s.width, s.height, s.resolution)
    } else {
        source.to_owned()
    }
}

} // verus!
