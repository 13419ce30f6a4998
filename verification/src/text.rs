//! Text as sequences of characters: ASCII case folding, trimming, splitting
//! and decimal numbers.

use vstd::prelude::*;
use vstd::slice::slice_subrange;
use vstd::string::StringExecFns;
use crate::utf16;

verus! {

/// `String::push` appends one character to the text.
pub assume_specification[ String::push ](string: &mut String, c: char)
    ensures
        final(string)@ == old(string)@.push(c),
;

/// A result with its error message taken as text.
pub open spec fn seen<T>(result: Result<T, String>) -> Result<T, Seq<char>> {
    match result {
        Ok(value) => Ok(value),
        Err(message) => Err(message@),
    }
}

/// ASCII lower case of one character; every other character is kept.
pub open spec fn lower(c: char) -> char {
    if 'A' <= c <= 'Z' {
        ((c as u8) + 32) as char
    } else {
        c
    }
}

/// ASCII lower case of a whole text.
pub open spec fn lower_text(s: Seq<char>) -> Seq<char> {
    Seq::new(s.len(), |i: int| lower(s[i]))
}

/// Equality of two texts up to ASCII case.
pub open spec fn same_folded(a: Seq<char>, b: Seq<char>) -> bool {
    lower_text(a) == lower_text(b)
}

pub fn chars_of(text: &str) -> (r: Vec<char>)
    ensures
        r@ == text@,
{
    let mut out: Vec<char> = Vec::new();
    for c in it: text.chars()
        invariant
            out@ == it.seq().take(it.index()),
            it.seq() == text@,
    {
        out.push(c);
    }
    out
}

pub fn text_of(chars: &[char]) -> (r: String)
    ensures
        r@ == chars@,
{
    let mut out = String::new();
    let mut i: usize = 0;
    while i < chars.len()
        invariant
            i <= chars@.len(),
            out@ == chars@.take(i as int),
        decreases chars.len() - i,
    {
        out.push(chars[i]);
        i = i + 1;
        assert(chars@.take(i as int) == chars@.take(i - 1).push(chars@[i - 1]));
    }
    assert(chars@.take(i as int) == chars@);
    out
}

pub fn lower_char(c: char) -> (r: char)
    ensures
        r == lower(c),
{
    if 'A' <= c && c <= 'Z' {
        ((c as u8) + 32) as char
    } else {
        c
    }
}

pub open spec fn all_ascii(s: Seq<char>) -> bool {
    forall|i: int| 0 <= i < s.len() ==> 0 <= (#[trigger] s[i] as int) < 128
}

/// The bytes of an ASCII text.
pub open spec fn ascii_bytes(s: Seq<char>) -> Seq<u8> {
    Seq::new(s.len(), |i: int| s[i] as u8)
}

pub fn is_ascii_text(chars: &[char]) -> (r: bool)
    ensures
        r == all_ascii(chars@),
{
    let mut i: usize = 0;
    while i < chars.len()
        invariant
            i <= chars@.len(),
            forall|k: int| 0 <= k < i ==> 0 <= (#[trigger] chars@[k] as int) < 128,
        decreases chars.len() - i,
    {
        let c: u32 = chars[i] as u32;
        proof {
            utf16::char_range(chars@[i as int]);
        }
        if c >= 128 {
            return false;
        }
        i = i + 1;
    }
    true
}

/// Appends an ASCII text as bytes.
pub fn append_ascii(output: &mut Vec<u8>, chars: &[char])
    requires
        all_ascii(chars@),
    ensures
        final(output)@ == old(output)@ + ascii_bytes(chars@),
{
    let ghost start = output@;
    let mut i: usize = 0;
    assert(output@ =~= start + ascii_bytes(chars@).take(0));
    while i < chars.len()
        invariant
            all_ascii(chars@),
            i <= chars@.len(),
            output@ == start + ascii_bytes(chars@).take(i as int),
        decreases chars.len() - i,
    {
        output.push(chars[i] as u8);
        i = i + 1;
        assert(output@ =~= start + ascii_bytes(chars@).take(i as int));
    }
    assert(ascii_bytes(chars@).take(i as int) =~= ascii_bytes(chars@));
}

pub fn join(a: &str, b: &str) -> (r: String)
    ensures
        r@ == a@ + b@,
{
    a.to_owned().concat(b)
}

pub fn join3(a: &str, b: &str, c: &str) -> (r: String)
    ensures
        r@ == a@ + b@ + c@,
{
    a.to_owned().concat(b).concat(c)
}

/// Whether two texts are the same up to ASCII case.
pub fn equals_folded(a: &str, b: &str) -> (r: bool)
    ensures
        r == same_folded(a@, b@),
{
    let left = chars_of(a);
    let right = chars_of(b);
    chars_equal_folded(left.as_slice(), right.as_slice())
}

pub fn chars_equal_folded(left: &[char], right: &[char]) -> (r: bool)
    ensures
        r == same_folded(left@, right@),
{
    if left.len() != right.len() {
        assert(lower_text(left@).len() != lower_text(right@).len());
        return false;
    }
    let mut i: usize = 0;
    while i < left.len()
        invariant
            i <= left@.len() == right@.len(),
            forall|k: int| 0 <= k < i ==> lower(left@[k]) == lower(#[trigger] right@[k]),
        decreases left.len() - i,
    {
        if lower_char(left[i]) != lower_char(right[i]) {
            assert(lower_text(left@)[i as int] != lower_text(right@)[i as int]);
            return false;
        }
        i = i + 1;
    }
    assert(lower_text(left@) =~= lower_text(right@));
    true
}

/// ASCII lower case of a text.
pub fn lowered(a: &str) -> (r: String)
    ensures
        r@ == lower_text(a@),
{
    let mut out = String::new();
    let chars = chars_of(a);
    let mut i: usize = 0;
    assert(out@ =~= lower_text(a@).take(0));
    while i < chars.len()
        invariant
            chars@ == a@,
            i <= chars@.len(),
            out@ == lower_text(a@).take(i as int),
        decreases chars.len() - i,
    {
        out.push(lower_char(chars[i]));
        i = i + 1;
        assert(out@ =~= lower_text(a@).take(i as int));
    }
    assert(out@ =~= lower_text(a@));
    out
}

/// Whether two texts are the same.
pub fn equal_text(a: &str, b: &str) -> (r: bool)
    ensures
        r == (a@ == b@),
{
    let left = chars_of(a);
    let right = chars_of(b);
    if left.len() != right.len() {
        return false;
    }
    let mut i: usize = 0;
    while i < left.len()
        invariant
            i <= left@.len() == right@.len(),
            left@ == a@,
            right@ == b@,
            forall|k: int| 0 <= k < i ==> left@[k] == #[trigger] right@[k],
        decreases left.len() - i,
    {
        if left[i] != right[i] {
            return false;
        }
        i = i + 1;
    }
    assert(a@ =~= b@);
    true
}

pub open spec fn digit(n: int) -> char {
    (48 + n) as char
}

/// The decimal digits of a number.
pub open spec fn digits(n: nat) -> Seq<char>
    decreases n,
{
    if n < 10 {
        seq![digit(n as int)]
    } else {
        digits(n / 10).push(digit((n % 10) as int))
    }
}

/// The decimal form of an integer.
pub open spec fn decimal(v: int) -> Seq<char> {
    if v < 0 {
        seq!['-'] + digits((-v) as nat)
    } else {
        digits(v as nat)
    }
}

fn append_digits(output: &mut String, n: u64)
    ensures
        final(output)@ == old(output)@ + digits(n as nat),
    decreases n,
{
    let ghost before = output@;
    if n >= 10 {
        append_digits(output, n / 10);
    }
    output.push((48 + (n % 10) as u8) as char);
    assert(output@ =~= before + digits(n as nat));
}

/// The decimal form of a size.
pub fn size_text(v: usize) -> (r: String)
    ensures
        r@ == decimal(v as int),
{
    let mut output = String::new();
    append_digits(&mut output, v as u64);
    assert(output@ =~= decimal(v as int));
    output
}

/// The decimal form of an integer.
pub fn decimal_text(v: i64) -> (r: String)
    ensures
        r@ == decimal(v as int),
{
    let mut output = String::new();
    if v < 0 {
        output.push('-');
        append_digits(&mut output, (-(v as i128)) as u64);
        assert(output@ =~= decimal(v as int));
    } else {
        append_digits(&mut output, v as u64);
        assert(output@ =~= decimal(v as int));
    }
    output
}

/// The first place from `from` on where a character stands.
pub open spec fn find_char(s: Seq<char>, c: char, from: int) -> Option<int>
    decreases s.len() - from,
{
    if from < 0 || from >= s.len() {
        None
    } else if s[from] == c {
        Some(from)
    } else {
        find_char(s, c, from + 1)
    }
}

pub proof fn find_char_is_first(s: Seq<char>, c: char, from: int)
    requires
        0 <= from,
    ensures
        match find_char(s, c, from) {
            Some(i) => {
                &&& from <= i < s.len()
                &&& s[i] == c
                &&& forall|k: int| from <= k < i ==> #[trigger] s[k] != c
            },
            None => forall|k: int| from <= k < s.len() ==> #[trigger] s[k] != c,
        },
    decreases s.len() - from,
{
    if from < s.len() && s[from] != c {
        find_char_is_first(s, c, from + 1);
    }
}

/// The end of the line that starts at `from`.
pub open spec fn line_end(s: Seq<char>, from: int) -> int {
    match find_char(s, '\n', from) {
        Some(i) => i,
        None => s.len() as int,
    }
}

/// The last place before `end` where a character stands.
pub open spec fn find_last_char(s: Seq<char>, c: char, end: int) -> Option<int>
    decreases end,
{
    if end <= 0 {
        None
    } else if s[end - 1] == c {
        Some(end - 1)
    } else {
        find_last_char(s, c, end - 1)
    }
}

/// The part of a text before its first dot, where it has one.
pub open spec fn before_dot(s: Seq<char>) -> Option<Seq<char>> {
    match find_char(s, '.', 0) {
        Some(i) => Some(s.take(i)),
        None => None,
    }
}

/// The part of a text behind its last dot, or the whole text.
pub open spec fn after_last_dot(s: Seq<char>) -> Seq<char> {
    match find_last_char(s, '.', s.len() as int) {
        Some(i) => s.skip(i + 1),
        None => s,
    }
}

/// The characters with the Unicode property White_Space.
pub open spec fn is_white(c: char) -> bool {
    ||| '\u{9}' <= c <= '\u{D}'
    ||| c == ' '
    ||| c == '\u{85}'
    ||| c == '\u{A0}'
    ||| c == '\u{1680}'
    ||| '\u{2000}' <= c <= '\u{200A}'
    ||| c == '\u{2028}'
    ||| c == '\u{2029}'
    ||| c == '\u{202F}'
    ||| c == '\u{205F}'
    ||| c == '\u{3000}'
}

pub open spec fn trim_start(s: Seq<char>) -> Seq<char>
    decreases s.len(),
{
    if s.len() > 0 && is_white(s[0]) {
        trim_start(s.skip(1))
    } else {
        s
    }
}

pub open spec fn trim_end(s: Seq<char>) -> Seq<char>
    decreases s.len(),
{
    if s.len() > 0 && is_white(s.last()) {
        trim_end(s.drop_last())
    } else {
        s
    }
}

/// A text without white space at its ends.
pub open spec fn trimmed(s: Seq<char>) -> Seq<char> {
    trim_end(trim_start(s))
}

/// Trimming leaves at most the whole text.
pub proof fn trimming_shortens(s: Seq<char>)
    ensures
        trimmed(s).len() <= s.len(),
{
    start_trimming_shortens(s);
    end_trimming_shortens(trim_start(s));
}

proof fn start_trimming_shortens(s: Seq<char>)
    ensures
        trim_start(s).len() <= s.len(),
    decreases s.len(),
{
    if s.len() > 0 {
        start_trimming_shortens(s.skip(1));
    }
}

/// Trimming the end of a text leaves its start.
pub proof fn end_trimming_keeps_start(s: Seq<char>)
    ensures
        trim_end(s).len() <= s.len(),
        trim_end(s) == s.take(trim_end(s).len() as int),
    decreases s.len(),
{
    if s.len() > 0 && is_white(s.last()) {
        end_trimming_keeps_start(s.drop_last());
        let kept = trim_end(s);
        assert(s.take(kept.len() as int) =~= s.drop_last().take(kept.len() as int));
    } else {
        assert(s =~= s.take(s.len() as int));
    }
}

proof fn end_trimming_shortens(s: Seq<char>)
    ensures
        trim_end(s).len() <= s.len(),
    decreases s.len(),
{
    if s.len() > 0 {
        end_trimming_shortens(s.drop_last());
    }
}

/// A text without the given character at its end.
pub open spec fn trim_end_of(s: Seq<char>, c: char) -> Seq<char>
    decreases s.len(),
{
    if s.len() > 0 && s.last() == c {
        trim_end_of(s.drop_last(), c)
    } else {
        s
    }
}

pub open spec fn starts_with(s: Seq<char>, prefix: Seq<char>) -> bool {
    s.len() >= prefix.len() && s.take(prefix.len() as int) == prefix
}

pub open spec fn ends_with(s: Seq<char>, suffix: Seq<char>) -> bool {
    s.len() >= suffix.len() && s.skip(s.len() - suffix.len()) == suffix
}

pub fn white(c: char) -> (r: bool)
    ensures
        r == is_white(c),
{
    ('\u{9}' <= c && c <= '\u{D}') || c == ' ' || c == '\u{85}' || c == '\u{A0}' || c == '\u{1680}'
        || ('\u{2000}' <= c && c <= '\u{200A}') || c == '\u{2028}' || c == '\u{2029}' || c
        == '\u{202F}' || c == '\u{205F}' || c == '\u{3000}'
}

pub fn position_of(s: &[char], c: char, from: usize) -> (r: Option<usize>)
    requires
        from <= s@.len(),
    ensures
        match r {
            Some(i) => find_char(s@, c, from as int) == Some(i as int) && from <= i < s@.len(),
            None => find_char(s@, c, from as int) is None,
        },
{
    let mut i: usize = from;
    while i < s.len()
        invariant
            from <= i <= s@.len(),
            find_char(s@, c, from as int) == find_char(s@, c, i as int),
        decreases s.len() - i,
    {
        if s[i] == c {
            return Some(i);
        }
        i = i + 1;
    }
    None
}

pub fn last_position_of(s: &[char], c: char) -> (r: Option<usize>)
    ensures
        match r {
            Some(i) => find_last_char(s@, c, s@.len() as int) == Some(i as int) && i < s@.len(),
            None => find_last_char(s@, c, s@.len() as int) is None,
        },
{
    let mut end: usize = s.len();
    while end > 0
        invariant
            end <= s@.len(),
            find_last_char(s@, c, s@.len() as int) == find_last_char(s@, c, end as int),
        decreases end,
    {
        if s[end - 1] == c {
            return Some(end - 1);
        }
        end = end - 1;
    }
    None
}

/// The part before the first dot.
pub fn dot_prefix<'a>(s: &'a [char]) -> (r: Option<&'a [char]>)
    ensures
        match r {
            Some(prefix) => before_dot(s@) == Some(prefix@),
            None => before_dot(s@) is None,
        },
{
    match position_of(s, '.', 0) {
        Some(i) => {
            assert(s@.subrange(0, i as int) =~= s@.take(i as int));
            Some(slice_subrange(s, 0, i))
        },
        None => None,
    }
}

/// The part behind the last dot.
pub fn dot_leaf<'a>(s: &'a [char]) -> (r: &'a [char])
    ensures
        r@ == after_last_dot(s@),
{
    let end: usize = s.len();
    match last_position_of(s, '.') {
        Some(i) => {
            assert(s@.subrange(i + 1, s@.len() as int) =~= s@.skip(i + 1));
            slice_subrange(s, i + 1, end)
        },
        None => s,
    }
}

pub fn trim<'a>(s: &'a [char]) -> (r: &'a [char])
    ensures
        r@ == trimmed(s@),
{
    let mut from: usize = 0;
    assert(s@.skip(0) =~= s@);
    while from < s.len() && white(s[from])
        invariant
            from <= s@.len(),
            trim_start(s@) == trim_start(s@.skip(from as int)),
        decreases s.len() - from,
    {
        from = from + 1;
        assert(s@.skip(from - 1).skip(1) =~= s@.skip(from as int));
    }
    let mut to: usize = s.len();
    assert(s@.subrange(from as int, to as int) =~= s@.skip(from as int));
    while to > from && white(s[to - 1])
        invariant
            from <= to <= s@.len(),
            trimmed(s@) == trim_end(s@.subrange(from as int, to as int)),
        decreases to,
    {
        to = to - 1;
        assert(s@.subrange(from as int, to + 1).drop_last() =~= s@.subrange(
            from as int,
            to as int,
        ));
    }
    slice_subrange(s, from, to)
}

pub fn trim_end_matches<'a>(s: &'a [char], c: char) -> (r: &'a [char])
    ensures
        r@ == trim_end_of(s@, c),
{
    let mut to: usize = s.len();
    assert(s@.subrange(0, to as int) =~= s@);
    while to > 0 && s[to - 1] == c
        invariant
            to <= s@.len(),
            trim_end_of(s@, c) == trim_end_of(s@.subrange(0, to as int), c),
        decreases to,
    {
        to = to - 1;
        assert(s@.subrange(0, to + 1).drop_last() =~= s@.subrange(0, to as int));
    }
    slice_subrange(s, 0, to)
}

pub fn equal_chars(a: &[char], b: &[char]) -> (r: bool)
    ensures
        r == (a@ == b@),
{
    if a.len() != b.len() {
        return false;
    }
    let mut i: usize = 0;
    while i < a.len()
        invariant
            i <= a@.len() == b@.len(),
            forall|k: int| 0 <= k < i ==> a@[k] == #[trigger] b@[k],
        decreases a.len() - i,
    {
        if a[i] != b[i] {
            return false;
        }
        i = i + 1;
    }
    assert(a@ =~= b@);
    true
}

/// What follows a prefix, where the text has it.
pub fn without_prefix<'a>(s: &'a [char], prefix: &str) -> (r: Option<&'a [char]>)
    ensures
        match r {
            Some(rest) => starts_with(s@, prefix@) && rest@ == s@.skip(prefix@.len() as int),
            None => !starts_with(s@, prefix@),
        },
{
    let wanted = chars_of(prefix);
    if s.len() < wanted.len() {
        return None;
    }
    assert(s@.subrange(0, wanted@.len() as int) =~= s@.take(wanted@.len() as int));
    if equal_chars(slice_subrange(s, 0, wanted.len()), wanted.as_slice()) {
        assert(s@.subrange(wanted@.len() as int, s@.len() as int) =~= s@.skip(
            wanted@.len() as int,
        ));
        Some(slice_subrange(s, wanted.len(), s.len()))
    } else {
        None
    }
}

pub fn has_suffix(s: &[char], suffix: &[char]) -> (r: bool)
    ensures
        r == ends_with(s@, suffix@),
{
    if s.len() < suffix.len() {
        return false;
    }
    assert(s@.subrange(s@.len() - suffix@.len(), s@.len() as int) =~= s@.skip(
        s@.len() - suffix@.len(),
    ));
    equal_chars(slice_subrange(s, s.len() - suffix.len(), s.len()), suffix)
}

pub fn contains_char(s: &str, c: char) -> (r: bool)
    ensures
        r == s@.contains(c),
{
    let chars = chars_of(s);
    proof {
        find_char_is_first(s@, c, 0);
    }
    match position_of(chars.as_slice(), c, 0) {
        Some(i) => {
            assert(s@[i as int] == c);
            true
        },
        None => false,
    }
}


pub open spec fn is_digit(c: char) -> bool {
    '0' <= c && c <= '9'
}

pub open spec fn digit_value(c: char) -> int {
    c as int - '0' as int
}

pub open spec fn all_digits(s: Seq<char>) -> bool {
    forall|i: int| 0 <= i < s.len() ==> is_digit(#[trigger] s[i])
}

/// The number that a text of decimal digits stands for.
pub open spec fn number_of(s: Seq<char>) -> int
    decreases s.len(),
{
    if s.len() == 0 {
        0
    } else {
        10 * number_of(s.drop_last()) + digit_value(s.last())
    }
}

/// The decimal digits at the start of a text.
pub open spec fn leading_digits(s: Seq<char>) -> Seq<char>
    decreases s.len(),
{
    if s.len() == 0 || !is_digit(s[0]) {
        Seq::empty()
    } else {
        seq![s[0]] + leading_digits(s.skip(1))
    }
}

/// Whether a text starts with a sign.
pub open spec fn signed(s: Seq<char>) -> bool {
    s.len() > 0 && (s[0] == '+' || s[0] == '-')
}

/// The number that a text of digits, with or without a sign, stands for.
pub open spec fn signed_number(s: Seq<char>) -> int {
    if !signed(s) {
        number_of(s)
    } else if s[0] == '-' {
        -number_of(s.skip(1))
    } else {
        number_of(s.skip(1))
    }
}

/// The 32-bit integer that a whole text stands for.
pub open spec fn parsed_i32(s: Seq<char>) -> Option<i32> {
    let digits = if signed(s) {
        s.skip(1)
    } else {
        s
    };
    if digits.len() == 0 || !all_digits(digits) {
        None
    } else if i32::MIN <= signed_number(s) <= i32::MAX {
        Some(signed_number(s) as i32)
    } else {
        None
    }
}

pub proof fn number_is_not_negative(s: Seq<char>)
    requires
        all_digits(s),
    ensures
        number_of(s) >= 0,
    decreases s.len(),
{
    if s.len() > 0 {
        assert forall|i: int| 0 <= i < s.drop_last().len() implies is_digit(
            #[trigger] s.drop_last()[i],
        ) by {
            assert(s.drop_last()[i] == s[i]);
        }
        number_is_not_negative(s.drop_last());
    }
}

/// The number that a text of digits stands for, up to `limit`.
fn bounded_number(s: &[char], limit: u64) -> (r: Option<u64>)
    ensures
        match r {
            Some(n) => all_digits(s@) && n == number_of(s@) && n <= limit,
            None => !all_digits(s@) || number_of(s@) > limit,
        },
{
    let mut i: usize = 0;
    let mut value: u128 = 0;
    let mut over = false;
    assert(s@.take(0) =~= Seq::<char>::empty());
    while i < s.len()
        invariant
            i <= s@.len(),
            forall|k: int| 0 <= k < i ==> is_digit(#[trigger] s@[k]),
            !over ==> value == number_of(s@.take(i as int)) && value <= limit,
            over ==> number_of(s@.take(i as int)) > limit,
        decreases s.len() - i,
    {
        let c: char = s[i];
        if !('0' <= c && c <= '9') {
            return None;
        }
        proof {
            assert(s@.take(i + 1).drop_last() =~= s@.take(i as int));
            assert(s@.take(i + 1).last() == c);
            assert forall|k: int| 0 <= k < s@.take(i as int).len() implies is_digit(
                #[trigger] s@.take(i as int)[k],
            ) by {
                assert(s@.take(i as int)[k] == s@[k]);
            }
            number_is_not_negative(s@.take(i as int));
        }
        if !over {
            value = 10 * value + (c as u32 - '0' as u32) as u128;
            if value > limit as u128 {
                over = true;
            }
        }
        i = i + 1;
    }
    assert(s@.take(i as int) =~= s@);
    if over {
        None
    } else {
        Some(value as u64)
    }
}

/// The size that a whole text stands for.
pub open spec fn parsed_usize(s: Seq<char>) -> Option<usize> {
    let digits = if s.len() > 0 && s[0] == '+' {
        s.skip(1)
    } else {
        s
    };
    if digits.len() == 0 || !all_digits(digits) || number_of(digits) > usize::MAX {
        None
    } else {
        Some(number_of(digits) as usize)
    }
}

pub fn parse_usize(s: &[char]) -> (r: Option<usize>)
    ensures
        r == parsed_usize(s@),
{
    let end: usize = s.len();
    let from: usize = if end > 0 && s[0] == '+' {
        1
    } else {
        0
    };
    let digits = slice_subrange(s, from, end);
    assert(digits@ =~= if s@.len() > 0 && s@[0] == '+' {
        s@.skip(1)
    } else {
        s@
    });
    if digits.len() == 0 {
        return None;
    }
    match bounded_number(digits, usize::MAX as u64) {
        Some(n) => Some(n as usize),
        None => None,
    }
}

/// The 64-bit integer that a whole text stands for.
pub open spec fn parsed_i64(s: Seq<char>) -> Option<i64> {
    let digits = if signed(s) {
        s.skip(1)
    } else {
        s
    };
    if digits.len() == 0 || !all_digits(digits) {
        None
    } else if i64::MIN <= signed_number(s) <= i64::MAX {
        Some(signed_number(s) as i64)
    } else {
        None
    }
}

pub fn parse_i64(s: &[char]) -> (r: Option<i64>)
    ensures
        r == parsed_i64(s@),
{
    let end: usize = s.len();
    let has_sign: bool = end > 0 && (s[0] == '+' || s[0] == '-');
    let negative: bool = end > 0 && s[0] == '-';
    let from: usize = if has_sign {
        1
    } else {
        0
    };
    let digits = slice_subrange(s, from, end);
    assert(digits@ =~= if signed(s@) {
        s@.skip(1)
    } else {
        s@
    });
    if digits.len() == 0 {
        return None;
    }
    proof {
        if all_digits(digits@) {
            number_is_not_negative(digits@);
        }
    }
    if negative {
        match bounded_number(digits, 0x8000_0000_0000_0000) {
            Some(n) => Some((-(n as i128)) as i64),
            None => None,
        }
    } else {
        match bounded_number(digits, 0x7fff_ffff_ffff_ffff) {
            Some(n) => Some(n as i64),
            None => None,
        }
    }
}

/// The 16-bit integer that a whole text stands for.
pub open spec fn parsed_i16(s: Seq<char>) -> Option<i16> {
    match parsed_i32(s) {
        Some(v) => if i16::MIN <= v <= i16::MAX {
            Some(v as i16)
        } else {
            None
        },
        None => None,
    }
}

pub fn parse_i16(s: &[char]) -> (r: Option<i16>)
    ensures
        r == parsed_i16(s@),
{
    match parse_i32(s) {
        Some(v) => if i16::MIN as i32 <= v && v <= i16::MAX as i32 {
            Some(v as i16)
        } else {
            None
        },
        None => None,
    }
}

pub fn parse_i32(s: &[char]) -> (r: Option<i32>)
    ensures
        r == parsed_i32(s@),
{
    let end: usize = s.len();
    if end > 0 && (s[0] == '+' || s[0] == '-') {
        let digits = slice_subrange(s, 1, end);
        assert(digits@ =~= s@.skip(1));
        if digits.len() == 0 {
            return None;
        }
        if s[0] == '-' {
            match bounded_number(digits, 0x8000_0000) {
                Some(n) => Some((-(n as i64)) as i32),
                None => None,
            }
        } else {
            match bounded_number(digits, 0x7fff_ffff) {
                Some(n) => Some(n as i32),
                None => {
                    proof {
                        if all_digits(digits@) {
                            number_is_not_negative(digits@);
                        }
                    }
                    None
                },
            }
        }
    } else {
        if end == 0 {
            return None;
        }
        match bounded_number(s, 0x7fff_ffff) {
            Some(n) => Some(n as i32),
            None => None,
        }
    }
}

} // verus!
