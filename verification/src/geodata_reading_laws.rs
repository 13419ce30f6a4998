//! What the bytes of a geodata block are read as.

use vstd::prelude::*;
use crate::geodata::{BlockKind, BlockModel, Cell, GeodataFormat};
use crate::bytes;
use crate::cell_laws;
use crate::geodata;

verus! {

/// The bytes of one level: a byte of directions and a height in the formats L2D and RP,
/// one number for both in the others.
pub open spec fn level_size(format: GeodataFormat) -> int {
    if format == GeodataFormat::L2d || format == GeodataFormat::Rp {
        3
    } else {
        2
    }
}

/// Whether the bytes at `p` are read as a level: the directions are the low four bits of
/// the first byte. In the formats L2D and RP the height follows; in the others it is half
/// of the number without those bits.
pub open spec fn is_level(format: GeodataFormat, d: Seq<u8>, p: int, cell: Cell) -> bool {
    &&& cell.min_height is None
    &&& cell.nswe == d[p] & 0x0f
    &&& if format == GeodataFormat::L2d || format == GeodataFormat::Rp {
        cell_laws::holds_number(d[p + 1], d[p + 2], cell.height as int)
    } else {
        &&& -16384 <= cell.height < 16384
        &&& cell_laws::holds_number(d[p], d[p + 1], 2 * cell.height + cell.nswe)
    }
}

proof fn numbers_are_packed(d: Seq<u8>, p: int)
    requires
        0 <= p,
        p + 2 <= d.len(),
    ensures
        ({
            let cell = geodata::unpacked(bytes::i16_of(d.subrange(p, p + 2)));
            &&& cell.min_height is None
            &&& cell.nswe == d[p] & 0x0f
            &&& -16384 <= cell.height < 16384
            &&& cell_laws::holds_number(d[p], d[p + 1], 2 * cell.height + cell.nswe)
        }),
{
    let low = d[p];
    let s = d.subrange(p, p + 2);
    assert(s[0] == d[p] && s[1] == d[p + 1]);
    assert(low & 0x0f == low % 16) by (bit_vector);
    let v = bytes::i16_of(s) as int;
    assert(v == low + 256 * d[p + 1] || v == low + 256 * d[p + 1] - 65536);
    assert(v % 16 == low % 16);
}

proof fn one_level_is_read(format: GeodataFormat, d: Seq<u8>, p: int)
    requires
        0 <= p,
    ensures
        geodata::cell_at(format, d, p) matches Ok((cell, end)) ==> {
            &&& end == p + level_size(format) <= d.len()
            &&& is_level(format, d, p, cell)
        },
{
    if let Ok((cell, end)) = geodata::cell_at(format, d, p) {
        if geodata::is_unpacked_format(format) {
            let nswe = d[p];
            assert(nswe & 0x0f == nswe % 16) by (bit_vector);
            let s = d.subrange(p + 1, p + 3);
            assert(s[0] == d[p + 1] && s[1] == d[p + 2]);
        } else {
            numbers_are_packed(d, p);
        }
    }
}

proof fn levels_are_read(format: GeodataFormat, d: Seq<u8>, p: int, n: nat, i: int)
    requires
        0 <= p,
    ensures
        geodata::cells_from(format, d, p, n) matches Ok((cells, end)) ==> {
            &&& cells.len() == n
            &&& end == p + level_size(format) * n
            &&& n > 0 ==> end <= d.len()
            &&& 0 <= i < n ==> is_level(format, d, p + level_size(format) * i, cells[i])
        },
    decreases n,
{
    if n > 0 {
        let m = (n - 1) as nat;
        levels_are_read(format, d, p, m, i);
        if let Ok((cells, q)) = geodata::cells_from(format, d, p, m) {
            one_level_is_read(format, d, q);
        }
    }
}

proof fn enough_levels_are_read(format: GeodataFormat, d: Seq<u8>, p: int, n: nat)
    requires
        0 <= p,
        p + level_size(format) * n <= d.len() <= usize::MAX,
    ensures
        geodata::cells_from(format, d, p, n) is Ok,
    decreases n,
{
    if n > 0 {
        enough_levels_are_read(format, d, p, (n - 1) as nat);
        levels_are_read(format, d, p, (n - 1) as nat, 0);
    }
}

/// Whether the mark of a block of one level stands at `p`.
pub open spec fn marks_complex(format: GeodataFormat, d: Seq<u8>, p: int) -> bool {
    match format {
        GeodataFormat::ConvDat => d[p] == 64 && d[p + 1] == 0,
        GeodataFormat::L2d => d[p] == 0xd1,
        GeodataFormat::Rp => d[p] == 0xd1,
        _ => d[p] == 1,
    }
}

pub open spec fn marks_flat(format: GeodataFormat, d: Seq<u8>, p: int) -> bool {
    match format {
        GeodataFormat::ConvDat => d[p] == 0 && d[p + 1] == 0,
        GeodataFormat::L2d => d[p] == 0xd0,
        GeodataFormat::Rp => d[p] == 0xd0,
        _ => d[p] == 0,
    }
}

/// Whether the mark of a block of several levels stands at `p`; in CONV_DAT that is every
/// positive number above 64.
pub open spec fn marks_multi(format: GeodataFormat, d: Seq<u8>, p: int) -> bool {
    match format {
        GeodataFormat::ConvDat => 64 < d[p] + 256 * d[p + 1] < 32768,
        GeodataFormat::L2d => d[p] == 0xd2,
        GeodataFormat::Rp => d[p] == 0xd2,
        _ => d[p] == 2,
    }
}

/// The bytes of a mark.
pub open spec fn mark_size(format: GeodataFormat) -> int {
    if format == GeodataFormat::ConvDat {
        2
    } else {
        1
    }
}

#[verifier::spinoff_prover]
#[verifier::rlimit(40)]
proof fn marks_are_read(format: GeodataFormat, d: Seq<u8>, p: int)
    requires
        0 <= p,
        p + mark_size(format) <= d.len() <= usize::MAX,
    ensures
        marks_flat(format, d, p) ==> geodata::kind_at(format, d, p) == Ok::<
            (BlockKind, int),
            Seq<char>,
        >((BlockKind::Flat, p + mark_size(format))),
        marks_complex(format, d, p) ==> geodata::kind_at(format, d, p) == Ok::<
            (BlockKind, int),
            Seq<char>,
        >((BlockKind::Complex, p + mark_size(format))),
        marks_multi(format, d, p) ==> geodata::kind_at(format, d, p) == Ok::<
            (BlockKind, int),
            Seq<char>,
        >((BlockKind::MultiLevel, p + mark_size(format))),
        !marks_flat(format, d, p) && !marks_complex(format, d, p) && !marks_multi(format, d, p)
            ==> geodata::kind_at(format, d, p) is Err,
{
    if format == GeodataFormat::ConvDat {
        let s = d.subrange(p, p + 2);
        assert(s[0] == d[p] && s[1] == d[p + 1]);
    }
}

/// A block of one level is read as its 64 cells, each from its own bytes.
#[verifier::spinoff_prover]
#[verifier::rlimit(40)]
pub proof fn complex_blocks_are_read(format: GeodataFormat, d: Seq<u8>, p: int, i: int)
    requires
        0 <= p,
        p + mark_size(format) + 64 * level_size(format) <= d.len() <= usize::MAX,
        marks_complex(format, d, p),
        0 <= i < 64,
    ensures
        ({
            let at = p + mark_size(format);
            &&& geodata::block_at(format, d, p) matches Ok((block, end))
            &&& end == at + 64 * level_size(format)
            &&& block matches BlockModel::Complex(cells)
            &&& cells.len() == 64
            &&& is_level(format, d, at + level_size(format) * i, cells[i])
        }),
{
    reveal(geodata::block_at);
    let at = p + mark_size(format);
    marks_are_read(format, d, p);
    enough_levels_are_read(format, d, at, 64);
    levels_are_read(format, d, at, 64, i);
}

/// A flat block is read as its height, passable in all directions; in CONV_DAT a lowest
/// height follows.
#[verifier::spinoff_prover]
#[verifier::rlimit(40)]
pub proof fn flat_blocks_are_read(format: GeodataFormat, d: Seq<u8>, p: int)
    requires
        0 <= p,
        p + mark_size(format) + if format == GeodataFormat::ConvDat {
            4int
        } else {
            2
        } <= d.len() <= usize::MAX,
        marks_flat(format, d, p),
    ensures
        ({
            let at = p + mark_size(format);
            &&& geodata::block_at(format, d, p) matches Ok((block, end))
            &&& block matches BlockModel::Flat(cell)
            &&& cell.nswe == 15
            &&& cell_laws::holds_number(d[at], d[at + 1], cell.height as int)
            &&& format == GeodataFormat::ConvDat ==> {
                &&& end == at + 4
                &&& cell.min_height matches Some(low)
                &&& cell_laws::holds_number(d[at + 2], d[at + 3], low as int)
            }
            &&& format != GeodataFormat::ConvDat ==> end == at + 2 && cell.min_height is None
        }),
{
    reveal(geodata::block_at);
    let at = p + mark_size(format);
    marks_are_read(format, d, p);
    let s = d.subrange(at, at + 2);
    assert(s[0] == d[at] && s[1] == d[at + 1]);
    if format == GeodataFormat::ConvDat {
        let t = d.subrange(at + 2, at + 4);
        assert(t[0] == d[at + 2] && t[1] == d[at + 3]);
    }
}

/// No other mark starts a block.
#[verifier::spinoff_prover]
#[verifier::rlimit(40)]
pub proof fn other_marks_are_refused(format: GeodataFormat, d: Seq<u8>, p: int)
    requires
        0 <= p,
        p + mark_size(format) <= d.len() <= usize::MAX,
    ensures
        !marks_flat(format, d, p) && !marks_complex(format, d, p) && !marks_multi(format, d, p)
            ==> geodata::block_at(format, d, p) is Err,
        geodata::block_at(format, d, p) matches Ok((block, _)) ==> {
            &&& block is Flat == marks_flat(format, d, p)
            &&& block is Complex == marks_complex(format, d, p)
            &&& block is MultiLevel == marks_multi(format, d, p)
        },
{
    reveal(geodata::block_at);
    marks_are_read(format, d, p);
}

/// The number of bytes of the levels of the first `n` cells, with their numbers.
pub open spec fn levels_span(format: GeodataFormat, cells: Seq<Seq<Cell>>, n: int) -> int
    decreases n,
{
    if n <= 0 {
        0
    } else {
        levels_span(format, cells, n - 1) + mark_size(format) + level_size(format) * cells[n
            - 1].len()
    }
}

proof fn spans_of_more(format: GeodataFormat, cells: Seq<Seq<Cell>>, more: Seq<Cell>, n: int)
    requires
        n <= cells.len(),
    ensures
        levels_span(format, cells.push(more), n) == levels_span(format, cells, n),
    decreases n,
{
    if n > 0 {
        spans_of_more(format, cells, more, n - 1);
    }
}

proof fn spans_grow(format: GeodataFormat, cells: Seq<Seq<Cell>>, i: int, n: int)
    requires
        0 <= i <= n <= cells.len(),
    ensures
        0 <= levels_span(format, cells, i) <= levels_span(format, cells, n),
    decreases n,
{
    if n > 0 {
        if i < n {
            spans_grow(format, cells, i, n - 1);
        } else {
            spans_grow(format, cells, i - 1, n - 1);
        }
        let k = cells[n - 1].len();
        assert(0 <= level_size(format) * k) by (nonlinear_arith)
            requires
                0 <= level_size(format),
                0 <= k,
        ;
    }
}

#[verifier::spinoff_prover]
#[verifier::rlimit(30)]
proof fn layers_are_read(format: GeodataFormat, d: Seq<u8>, p: int, n: nat, i: int, j: int)
    requires
        0 <= p,
        d.len() <= usize::MAX,
    ensures
        geodata::layers_from(format, d, p, n) matches Ok((cells, end)) ==> {
            let at = p + levels_span(format, cells, i);
            &&& cells.len() == n
            &&& end == p + levels_span(format, cells, n as int)
            &&& 0 <= i < n ==> {
                &&& 1 <= cells[i].len() <= 255
                &&& d[at] == cells[i].len()
                &&& format == GeodataFormat::ConvDat ==> d[at + 1] == 0
                &&& 0 <= j < cells[i].len() ==> is_level(
                    format,
                    d,
                    at + mark_size(format) + level_size(format) * j,
                    cells[i][j],
                )
            }
        },
    decreases n,
{
    if n > 0 {
        let m = (n - 1) as nat;
        layers_are_read(format, d, p, m, i, j);
        if let Ok((cells, q)) = geodata::layers_from(format, d, p, m) {
            if let Ok((count, q2)) = geodata::layer_count_at(format, d, q) {
                spans_grow(format, cells, 0, m as int);
                levels_are_read(format, d, q2, count as nat, j);
                if let Ok((layers, end)) = geodata::cells_from(format, d, q2, count as nat) {
                    spans_of_more(format, cells, layers, m as int);
                    if i < m {
                        spans_of_more(format, cells, layers, i);
                    }
                    if format == GeodataFormat::ConvDat {
                        let s = d.subrange(q, q + 2);
                        assert(s[0] == d[q] && s[1] == d[q + 1]);
                    }
                }
            }
        }
    }
}

/// A block of several levels is read, but for the format L2M, as the levels of its 64
/// cells in turn: behind the number of a cell's levels stand the levels.
#[verifier::spinoff_prover]
#[verifier::rlimit(40)]
pub proof fn layered_blocks_are_read(format: GeodataFormat, d: Seq<u8>, p: int, i: int, j: int)
    requires
        0 <= p,
        p + mark_size(format) <= d.len() <= usize::MAX,
        marks_multi(format, d, p),
        format != GeodataFormat::L2m,
        geodata::block_at(format, d, p) is Ok,
        0 <= i < 64,
    ensures
        ({
            let (block, end) = geodata::block_at(format, d, p)->Ok_0;
            &&& block matches BlockModel::MultiLevel(cells)
            &&& cells.len() == 64
            &&& end == p + mark_size(format) + levels_span(format, cells, 64)
            &&& 1 <= cells[i].len() <= 255
            &&& ({
                let at = p + mark_size(format) + levels_span(format, cells, i);
                &&& d[at] == cells[i].len()
                &&& format == GeodataFormat::ConvDat ==> d[at + 1] == 0
                &&& 0 <= j < cells[i].len() ==> is_level(
                    format,
                    d,
                    at + mark_size(format) + level_size(format) * j,
                    cells[i][j],
                )
            })
        }),
{
    reveal(geodata::block_at);
    marks_are_read(format, d, p);
    layers_are_read(format, d, p + mark_size(format), 64, i, j);
}

proof fn places_are_read(d: Seq<u8>, p: int, n: nat, i: int)
    requires
        0 <= p,
    ensures
        geodata::places_from(d, p, n) matches Ok((places, end)) ==> {
            &&& places.len() == n
            &&& end == p + 2 * n
            &&& 0 <= i < n ==> {
                let header = d[p + 2 * i] + 256 * d[p + 2 * i + 1];
                &&& p + 2 * i + 2 <= d.len()
                &&& places[i].count == header % 32
                &&& places[i].count >= 1
                &&& places[i].at == p + 2 * i + 2 + 2 * (header / 32)
            }
        },
    decreases n,
{
    if n > 0 {
        let m = (n - 1) as nat;
        places_are_read(d, p, m, i);
        if let Ok((places, q)) = geodata::places_from(d, p, m) {
            if q + 2 <= d.len() {
                let s = d.subrange(q, q + 2);
                assert(s[0] == d[q] && s[1] == d[q + 1]);
            }
        }
    }
}

#[verifier::spinoff_prover]
#[verifier::rlimit(40)]
proof fn placed_levels_are_read(
    d: Seq<u8>,
    places: Seq<geodata::LayerPlace>,
    start: int,
    n: nat,
    i: int,
    j: int,
)
    requires
        n <= places.len(),
        0 <= i < n,
        0 <= places[i].at,
    ensures
        geodata::placed_layers(d, places, start, n) matches Ok((cells, end)) ==> {
            &&& cells.len() == n
            &&& places[i].count >= 0 ==> cells[i].len() == places[i].count
            &&& end >= start
            &&& end >= places[i].at + 2 * places[i].count
            &&& 0 <= j < places[i].count ==> is_level(
                GeodataFormat::L2m,
                d,
                places[i].at + 2 * j,
                cells[i][j],
            )
        },
    decreases n,
{
    let m = (n - 1) as nat;
    if i < m {
        placed_levels_are_read(d, places, start, m, i, j);
    } else {
        placed_are_as_many(d, places, start, m);
        if let Ok((cells, end)) = geodata::placed_layers(d, places, start, n) {
            if 0 <= j < places[i].count {
                numbers_are_packed(d, places[i].at + 2 * j);
            }
        }
    }
}

proof fn placed_are_as_many(d: Seq<u8>, places: Seq<geodata::LayerPlace>, start: int, n: nat)
    requires
        n <= places.len(),
    ensures
        geodata::placed_layers(d, places, start, n) matches Ok((cells, end)) ==> cells.len() == n
            && end >= start,
    decreases n,
{
    if n > 0 {
        placed_are_as_many(d, places, start, (n - 1) as nat);
    }
}

/// A block of several levels of the format L2M starts, behind its mark, with a number for
/// each of its 64 cells: its low five bits are how many levels the cell has, the others
/// how many words further on they stand.
#[verifier::spinoff_prover]
#[verifier::rlimit(40)]
pub proof fn l2m_blocks_are_read(d: Seq<u8>, p: int, i: int, j: int)
    requires
        0 <= p < d.len() <= usize::MAX,
        d[p] == 2,
        geodata::block_at(GeodataFormat::L2m, d, p) is Ok,
        0 <= i < 64,
    ensures
        ({
            let (block, end) = geodata::block_at(GeodataFormat::L2m, d, p)->Ok_0;
            let header = d[p + 1 + 2 * i] + 256 * d[p + 2 + 2 * i];
            let at = p + 3 + 2 * i + 2 * (header / 32);
            &&& block matches BlockModel::MultiLevel(cells)
            &&& cells.len() == 64
            &&& cells[i].len() == header % 32
            &&& end >= p + 129
            &&& end >= at + 2 * (header % 32)
            &&& 0 <= j < header % 32 ==> is_level(GeodataFormat::L2m, d, at + 2 * j, cells[i][j])
        }),
{
    reveal(geodata::block_at);
    marks_are_read(GeodataFormat::L2m, d, p);
    places_are_read(d, p + 1, 64, i);
    let (places, q) = geodata::places_from(d, p + 1, 64)->Ok_0;
    placed_levels_are_read(d, places, q, 64, i, j);
}

} // verus!
