//! What a line of a geodata text file says of its cell.

use vstd::prelude::*;
use crate::geodata::{BlockModel, Cell};
use crate::geodata_path;
use crate::geodata_region;
use crate::metadata_laws;
use crate::text;

verus! {

proof fn digits_are_bare(n: nat)
    ensures
        ({
            let s = text::digits(n);
            &&& s.len() > 0
            &&& text::all_digits(s)
            &&& text::number_of(s) == n
            &&& text::trimmed(s) == s
            &&& forall|i: int| 0 <= i < s.len() ==> text::is_digit(#[trigger] s[i])
            &&& n <= usize::MAX ==> text::parsed_usize(s) == Some(n as usize)
        }),
{
    let s = text::digits(n);
    metadata_laws::digits_are_read(n);
    assert(text::is_digit(s[0]));
    assert(text::is_digit(s[s.len() - 1]));
}

proof fn heights_are_bare(height: i16)
    ensures
        ({
            let s = text::decimal(height as int);
            &&& s.len() > 0
            &&& text::trimmed(s) == s
            &&& text::parsed_i16(s) == Some(height)
            &&& forall|i: int|
                0 <= i < s.len() ==> text::is_digit(#[trigger] s[i]) || s[i] == '-'
        }),
{
    let s = text::decimal(height as int);
    let n = (if height < 0 {
        -height
    } else {
        height as int
    }) as nat;
    let d = text::digits(n);
    digits_are_bare(n);
    assert(text::is_digit(d[0]));
    assert(text::is_digit(d[d.len() - 1]));
    if height < 0 {
        assert(s.skip(1) =~= d);
        assert forall|i: int| 0 <= i < s.len() implies text::is_digit(#[trigger] s[i]) || s[i]
            == '-' by {
            if i > 0 {
                assert(s[i] == d[i - 1]);
            }
        }
    }
}

/// A one or a zero for each of the four directions.
pub open spec fn flags_text(a: bool, b: bool, c: bool, e: bool) -> Seq<char> {
    let one = |open: bool|
        if open {
            '1'
        } else {
            '0'
        };
    seq![one(a), one(b), one(c), one(e)]
}

/// The number of the open directions: one, two, four and eight.
pub open spec fn flags_number(a: bool, b: bool, c: bool, e: bool) -> int {
    (if a {
        1int
    } else {
        0
    }) + (if b {
        2int
    } else {
        0
    }) + (if c {
        4int
    } else {
        0
    }) + (if e {
        8int
    } else {
        0
    })
}

proof fn flags_are_read(a: bool, b: bool, c: bool, e: bool)
    ensures
        geodata_path::flag_directions(flags_text(a, b, c, e), 0) == flags_number(a, b, c, e),
{
    let s = flags_text(a, b, c, e);
    let s1 = s.skip(1);
    let s2 = s1.skip(1);
    let s3 = s2.skip(1);
    let s4 = s3.skip(1);
    assert(s1 =~= seq![s[1], s[2], s[3]]);
    assert(s2 =~= seq![s[2], s[3]]);
    assert(s3 =~= seq![s[3]]);
    assert(geodata_path::flag_directions(s4, 4) == 0);
    assert(geodata_path::flag_directions(s3, 3) == if e {
        8int
    } else {
        0
    });
    assert(geodata_path::flag_directions(s2, 2) == flags_number(false, false, c, e));
    assert(geodata_path::flag_directions(s1, 1) == flags_number(false, b, c, e));
}

/// A level in brackets is its height and, behind a colon, a one for each direction that is
/// open: the first stands for one, the next for two, then four and eight.
pub proof fn levels_have_height_and_directions(height: i16, a: bool, b: bool, c: bool, e: bool)
    ensures
        geodata_path::level_in(text::decimal(height as int) + seq![':'] + flags_text(a, b, c, e))
            == Some(
            Cell { height, min_height: None, nswe: flags_number(a, b, c, e) as u8 },
        ),
{
    let h = text::decimal(height as int);
    let value = h + seq![':'] + flags_text(a, b, c, e);
    heights_are_bare(height);
    flags_are_read(a, b, c, e);
    text::find_char_is_first(value, ':', 0);
    assert(value[h.len() as int] == ':');
    assert forall|i: int| 0 <= i < h.len() implies value[i] != ':' by {
        assert(value[i] == h[i]);
    }
    assert(value.subrange(0, h.len() as int) =~= h);
    assert(value.subrange(h.len() as int + 1, value.len() as int) =~= flags_text(a, b, c, e));
}

/// The line of a cell with one level.
pub open spec fn cell_line(x: nat, y: nat, height: i16, a: bool, b: bool, c: bool, e: bool) -> Seq<
    char,
> {
    seq!['['] + text::digits(x) + seq![','] + text::digits(y) + seq![']', '1', '('] + text::decimal(
        height as int,
    ) + seq![':'] + flags_text(a, b, c, e) + seq![')']
}

#[verifier::spinoff_prover]
#[verifier::rlimit(30)]
proof fn lines_are_taken_apart(x: nat, y: nat, height: i16, a: bool, b: bool, c: bool, e: bool)
    requires
        x <= usize::MAX,
        y <= usize::MAX,
    ensures
        ({
            let line = cell_line(x, y, height, a, b, c, e);
            &&& line.len() > 0 && line[0] == '['
            &&& text::trimmed(line) == line
            &&& geodata_path::cell_header(line) == Ok::<(usize, usize, usize), Seq<char>>(
                (x as usize, y as usize, 1usize),
            )
            &&& forall|i: int| 0 <= i < line.len() ==> #[trigger] line[i] != '\n'
        }),
{
    let line = cell_line(x, y, height, a, b, c, e);
    let dx = text::digits(x);
    let dy = text::digits(y);
    let h = text::decimal(height as int);
    let flags = flags_text(a, b, c, e);
    digits_are_bare(x);
    digits_are_bare(y);
    heights_are_bare(height);
    let closing = (2 + dx.len() + dy.len()) as int;
    let place = dx + seq![','] + dy;
    assert(line =~= seq!['['] + place + seq![']', '1', '('] + h + seq![':'] + flags + seq![')']);
    assert forall|i: int| 0 <= i < place.len() implies #[trigger] place[i] != ']' && place[i] != '\n'
        by {
        if i < dx.len() {
            assert(place[i] == dx[i]);
        } else if i > dx.len() {
            assert(place[i] == dy[i - dx.len() - 1]);
        }
    }
    text::find_char_is_first(line, ']', 0);
    assert(line[closing] == ']');
    assert forall|i: int| 0 <= i < closing implies line[i] != ']' by {
        if i > 0 {
            assert(line[i] == place[i - 1]);
        }
    }
    assert(text::find_char(line, ']', 0) == Some(closing));
    assert(line.subrange(1, closing) =~= place);
    text::find_char_is_first(place, ',', 0);
    assert(place[dx.len() as int] == ',');
    assert forall|i: int| 0 <= i < dx.len() implies place[i] != ',' by {
        assert(place[i] == dx[i]);
    }
    assert(text::find_char(place, ',', 0) == Some(dx.len() as int));
    assert(place.subrange(0, dx.len() as int) =~= dx);
    assert(place.subrange(dx.len() as int + 1, place.len() as int) =~= dy);
    text::find_char_is_first(line, '(', closing + 1);
    assert(line[closing + 1] == '1');
    assert(line[closing + 2] == '(');
    assert(text::find_char(line, '(', closing + 1) == Some(closing + 2));
    assert(line.subrange(closing + 1, closing + 2) =~= seq!['1']);
    digits_are_bare(1);
    assert(text::digits(1) =~= seq!['1']);
    assert(line.last() == ')');
    assert(text::trimmed(line) == line);
    assert forall|i: int| 0 <= i < line.len() implies #[trigger] line[i] != '\n' by {
        let at = closing + 3;
        if 0 < i < closing {
            assert(line[i] == place[i - 1]);
        } else if at <= i < at + h.len() {
            assert(line[i] == h[i - at]);
        } else if at + h.len() < i < line.len() - 1 {
            assert(line[i] == flags[i - at - h.len() - 1]);
        }
    }
}

#[verifier::spinoff_prover]
#[verifier::rlimit(30)]
proof fn levels_are_taken_apart(x: nat, y: nat, height: i16, a: bool, b: bool, c: bool, e: bool)
    ensures
        geodata_path::levels_in(cell_line(x, y, height, a, b, c, e), 0, Seq::empty()) == Ok::<
            Seq<Cell>,
            Seq<char>,
        >(seq![Cell { height, min_height: None, nswe: flags_number(a, b, c, e) as u8 }]),
{
    let line = cell_line(x, y, height, a, b, c, e);
    let dx = text::digits(x);
    let dy = text::digits(y);
    let h = text::decimal(height as int);
    let flags = flags_text(a, b, c, e);
    let value = h + seq![':'] + flags;
    digits_are_bare(x);
    digits_are_bare(y);
    heights_are_bare(height);
    let start = (4 + dx.len() + dy.len()) as int;
    let head = seq!['['] + dx + seq![','] + dy + seq![']', '1'];
    assert(line =~= head + seq!['('] + value + seq![')']);
    assert forall|i: int| 0 <= i < head.len() implies #[trigger] head[i] != '(' by {
        if 0 < i <= dx.len() {
            assert(head[i] == dx[i - 1]);
        } else if dx.len() + 1 < i < dx.len() + 2 + dy.len() {
            assert(head[i] == dy[i - dx.len() - 2]);
        }
    }
    assert forall|i: int| 0 <= i < value.len() implies #[trigger] value[i] != ')' by {
        if i < h.len() {
            assert(value[i] == h[i]);
        } else if i > h.len() {
            assert(value[i] == flags[i - h.len() - 1]);
        }
    }
    text::find_char_is_first(line, '(', 0);
    assert(line[start] == '(');
    assert forall|i: int| 0 <= i < start implies line[i] != '(' by {
        assert(line[i] == head[i]);
    }
    assert(text::find_char(line, '(', 0) == Some(start));
    let end = line.len() - 1;
    text::find_char_is_first(line, ')', start + 1);
    assert(line[end] == ')');
    assert forall|i: int| start < i < end implies line[i] != ')' by {
        assert(line[i] == value[i - start - 1]);
    }
    assert(text::find_char(line, ')', start + 1) == Some(end));
    assert(line.subrange(start + 1, end) =~= value);
    levels_have_height_and_directions(height, a, b, c, e);
    assert(text::find_char(line, '(', end + 1) is None);
    let cell = Cell { height, min_height: None, nswe: flags_number(a, b, c, e) as u8 };
    assert(Seq::<Cell>::empty().push(cell) =~= seq![cell]);
    assert(geodata_path::levels_in(line, end + 1, seq![cell]) == Ok::<Seq<Cell>, Seq<char>>(
        seq![cell],
    ));
}

proof fn cells_have_their_number(i: int, k: int, x: int, y: int)
    requires
        0 <= i < 65536,
        0 <= k < 64,
        0 <= x < 2048,
        0 <= y < 2048,
    ensures
        (geodata_path::cell_of_block(i, k) == x * 2048 + y) == (i == (x / 8) * 256 + y / 8 && k == (x
            % 8) * 8 + y % 8),
{
    let cx = i / 256 * 8 + k / 8;
    let cy = i % 256 * 8 + k % 8;
    assert(0 <= cx < 2048 && 0 <= cy < 2048);
    assert((cx * 2048 + cy == x * 2048 + y) == (cx == x && cy == y));
    assert(cx / 8 == i / 256 && cx % 8 == k / 8);
    assert(cy / 8 == i % 256 && cy % 8 == k % 8);
}

#[verifier::spinoff_prover]
proof fn one_cell_is_set(number: int, cell: Cell, i: int, k: int)
    requires
        0 <= i < 65536,
        0 <= k < 64,
        0 <= number < 4194304,
    ensures
        ({
            let grid = Map::<int, Seq<Cell>>::empty().insert(number, seq![cell]);
            let closed = Cell { height: 16383, min_height: None, nswe: 0 };
            &&& geodata_path::grid_blocks(grid)[i] matches BlockModel::Complex(cells)
            &&& cells.len() == 64
            &&& cells[k] == if geodata_path::cell_of_block(i, k) == number {
                cell
            } else {
                closed
            }
        }),
{
    let grid = Map::<int, Seq<Cell>>::empty().insert(number, seq![cell]);
    let closed = Cell { height: 16383, min_height: None, nswe: 0 };
    let levels = geodata_path::block_levels(grid, i);
    assert forall|j: int| 0 <= j < 64 implies #[trigger] levels[j] == (
    if geodata_path::cell_of_block(i, j) == number {
        seq![cell]
    } else {
        seq![closed]
    }) by {}
    let j = if geodata_path::cell_of_block(i, 0) == number {
        1int
    } else {
        0
    };
    assert(geodata_path::cell_of_block(i, j) != number);
    assert(levels[j] == seq![closed]);
    assert(levels[j][0].nswe == 0);
    assert(geodata_path::normalized(levels) is Complex);
}

#[verifier::spinoff_prover]
proof fn one_line_is_read(x: nat, y: nat, height: i16, a: bool, b: bool, c: bool, e: bool)
    requires
        x < 2048,
        y < 2048,
    ensures
        geodata_path::with_rows(cell_line(x, y, height, a, b, c, e), 0, 0, Map::empty()) == Ok::<
            Map<int, Seq<Cell>>,
            Seq<char>,
        >(
            Map::<int, Seq<Cell>>::empty().insert(
                (x * 2048 + y) as int,
                seq![Cell { height, min_height: None, nswe: flags_number(a, b, c, e) as u8 }],
            ),
        ),
{
    let line = cell_line(x, y, height, a, b, c, e);
    let cell = Cell { height, min_height: None, nswe: flags_number(a, b, c, e) as u8 };
    lines_are_taken_apart(x, y, height, a, b, c, e);
    levels_are_taken_apart(x, y, height, a, b, c, e);
    text::find_char_is_first(line, '\n', 0);
    assert(text::line_end(line, 0) == line.len());
    assert(line.subrange(0, line.len() as int) =~= line);
    assert(geodata_path::cell_levels(line, 1) == Ok::<Seq<Cell>, Seq<char>>(seq![cell]));
}

/// A text file of one line sets one cell of the region: in the block of its column and
/// row, at its place in the block, with its height and its directions. The other cells of
/// that block are closed, at the greatest height, and so are those of all other blocks.
#[verifier::spinoff_prover]
pub proof fn lines_set_their_cell(
    path: Seq<char>,
    x: nat,
    y: nat,
    height: i16,
    a: bool,
    b: bool,
    c: bool,
    e: bool,
    i: int,
    k: int,
)
    requires
        x < 2048,
        y < 2048,
        geodata_region::named_coordinates(path) matches Ok((rx, ry)) && geodata_region::on_map(
            rx,
            ry,
        ),
        0 <= i < 65536,
        0 <= k < 64,
    ensures
        ({
            let block = (x as int / 8) * 256 + y as int / 8;
            let place = (x as int % 8) * 8 + y as int % 8;
            let closed = Cell { height: 16383, min_height: None, nswe: 0 };
            &&& geodata_path::path_region(path, cell_line(x, y, height, a, b, c, e)) matches Ok(
                region,
            )
            &&& region.blocks.len() == 65536
            &&& region.blocks[i] matches BlockModel::Complex(cells)
            &&& cells.len() == 64
            &&& cells[k] == if i == block && k == place {
                Cell { height, min_height: None, nswe: flags_number(a, b, c, e) as u8 }
            } else {
                closed
            }
        }),
{
    one_line_is_read(x, y, height, a, b, c, e);
    let cell = Cell { height, min_height: None, nswe: flags_number(a, b, c, e) as u8 };
    one_cell_is_set((x * 2048 + y) as int, cell, i, k);
    cells_have_their_number(i, k, x as int, y as int);
}

/// The cells of a block make a block of several levels where one of them has more than
/// one, a flat block where all are open on every side at one height, and a block of one
/// level otherwise.
pub proof fn cells_make_blocks(cells: Seq<Seq<Cell>>, i: int)
    requires
        cells.len() == 64,
        forall|k: int| 0 <= k < 64 ==> (#[trigger] cells[k]).len() >= 1,
        0 <= i < 64,
    ensures
        match geodata_path::normalized(cells) {
            BlockModel::MultiLevel(levels) => levels == cells,
            BlockModel::Complex(single) => {
                &&& cells[i].len() == 1
                &&& single.len() == 64
                &&& single[i] == cells[i][0]
            },
            BlockModel::Flat(one) => {
                &&& cells[i].len() == 1
                &&& cells[i][0].height == one.height
                &&& cells[i][0].nswe == 15
                &&& one.nswe == 15
                &&& one.min_height == Some(one.height)
            },
        },
        cells[i].len() > 1 ==> geodata_path::normalized(cells) is MultiLevel,
        cells[i][0].nswe != 15 ==> !(geodata_path::normalized(cells) is Flat),
{
}

} // verus!
