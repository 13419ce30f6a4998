//! What the bytes of geodata say of each cell.

use vstd::prelude::*;
use crate::geodata::{BlockModel, Cell, GeodataFormat};
use crate::bytes;
use crate::geodata;
use crate::geodata_writer;

verus! {

proof fn low_bits(v: i16)
    ensures
        v & 0x0f == v as int % 16,
{
    assert(v >= 0 ==> v & 0x0f == v % 16) by (bit_vector);
    assert(v < 0 ==> v & 0x0f == (v + 32768) % 16) by (bit_vector);
}

/// The low four bits of the stored number of a cell are its directions. What is above
/// them is twice its height, in steps of eight.
pub proof fn stored_numbers_hold_height_and_directions(height: i16, nswe: u8)
    requires
        nswe < 16,
    ensures
        geodata::packed_cell(height, nswe) & 0x0f == nswe,
        -16384 <= height < 16384 ==> geodata::packed_cell(height, nswe) == 2 * (height - height
            as int % 8) + nswe,
        16384 <= height ==> geodata::packed_cell(height, nswe) == 2 * (height - height as int % 8)
            + nswe - 65536,
        height < -16384 ==> geodata::packed_cell(height, nswe) == 2 * (height - height as int % 8)
            + nswe + 65536,
{
    low_bits(geodata::packed_cell(height, nswe));
}

/// The directions of a stored number are its low four bits, and its height is half of
/// what is above them.
pub proof fn stored_numbers_are_taken_apart(value: i16)
    ensures
        geodata::packed_nswe(value) == value & 0x0f,
        2 * geodata::packed_height(value) == value - (value & 0x0f),
        geodata::unpacked(value) == (Cell {
            height: geodata::packed_height(value),
            min_height: None,
            nswe: geodata::packed_nswe(value),
        }),
{
    low_bits(value);
}

/// Only the low four bits of the directions are stored.
pub proof fn other_directions_are_left_out(height: i16, nswe: u8)
    ensures
        geodata::packed_cell(height, nswe) == geodata::packed_cell(height, nswe & 0x0f),
{
    assert(nswe & 0x0f == nswe % 16) by (bit_vector);
}

/// Whether two bytes hold a cell: its directions in the low four bits of the first, and
/// above them twice its height in steps of eight, as far as 16 bits go.
pub open spec fn holds_cell(low: u8, high: u8, cell: Cell) -> bool {
    &&& low & 0x0f == cell.nswe & 0x0f
    &&& 256 * high + low / 16 * 16 == (2 * (cell.height - cell.height as int % 8)) % 65536
}

/// Whether two bytes hold a number: the lower part first.
pub open spec fn holds_number(low: u8, high: u8, value: int) -> bool {
    low + 256 * high == value % 65536
}

proof fn packed_bytes_hold_their_cell(cell: Cell)
    ensures
        ({
            let b = bytes::i16_bytes(geodata::packed_cell(cell.height, cell.nswe));
            &&& b.len() == 2
            &&& holds_cell(b[0], b[1], cell)
        }),
{
    let v = geodata::packed_cell(cell.height, cell.nswe);
    let b = bytes::i16_bytes(v);
    let n = cell.nswe;
    let low = b[0];
    assert(n & 0x0f == n % 16) by (bit_vector);
    assert(low & 0x0f == low % 16) by (bit_vector);
    let doubled = 2 * cell.height as int;
    let even = 2 * (cell.height - cell.height as int % 8);
    assert(even == doubled - doubled % 16);
    let bits = bytes::bits16_of(v) as int;
    assert(bits % 16 == n % 16);
    assert(bits - n % 16 == even % 65536);
    assert(low % 16 == bits % 16);
}

proof fn cells_stand_in_turn(cells: Seq<Cell>, i: int)
    requires
        0 <= i < cells.len(),
    ensures
        ({
            let b = geodata_writer::packed_cells(cells);
            &&& b.len() == 2 * cells.len()
            &&& holds_cell(b[2 * i], b[2 * i + 1], cells[i])
        }),
    decreases cells.len(),
{
    let before = geodata_writer::packed_cells(cells.drop_last());
    packed_len(cells.drop_last());
    packed_bytes_hold_their_cell(cells.last());
    if i < cells.len() - 1 {
        cells_stand_in_turn(cells.drop_last(), i);
    }
}

proof fn packed_len(cells: Seq<Cell>)
    ensures
        geodata_writer::packed_cells(cells).len() == 2 * cells.len(),
    decreases cells.len(),
{
    if cells.len() > 0 {
        packed_len(cells.drop_last());
    }
}

/// A written block of one level starts with its mark, and two bytes hold each cell in
/// turn: the low four bits of the first are the cell's directions.
pub proof fn written_cells_stand_in_turn(format: GeodataFormat, cells: Seq<Cell>, i: int)
    requires
        format == GeodataFormat::L2j || format == GeodataFormat::L2g || format
            == GeodataFormat::ConvDat,
        0 <= i < cells.len(),
    ensures
        ({
            let b = geodata_writer::block_bytes(format, BlockModel::Complex(cells))->Ok_0;
            let start = if format == GeodataFormat::ConvDat {
                2int
            } else {
                1
            };
            &&& geodata_writer::block_bytes(format, BlockModel::Complex(cells)) is Ok
            &&& b.len() == start + 2 * cells.len()
            &&& format == GeodataFormat::ConvDat ==> b[0] == 64 && b[1] == 0
            &&& format != GeodataFormat::ConvDat ==> b[0] == 1
            &&& b[start + 2 * i] & 0x0f == cells[i].nswe & 0x0f
            &&& holds_cell(b[start + 2 * i], b[start + 2 * i + 1], cells[i])
        }),
{
    cells_stand_in_turn(cells, i);
}

/// A written flat block is its mark and its height; in CONV_DAT its lowest height with
/// its directions follows.
pub proof fn written_flat_blocks_are_heights(format: GeodataFormat, cell: Cell)
    requires
        format == GeodataFormat::L2j || format == GeodataFormat::L2g || format
            == GeodataFormat::ConvDat,
    ensures
        ({
            let b = geodata_writer::block_bytes(format, BlockModel::Flat(cell))->Ok_0;
            &&& geodata_writer::block_bytes(format, BlockModel::Flat(cell)) is Ok
            &&& format != GeodataFormat::ConvDat ==> {
                &&& b.len() == 3
                &&& b[0] == 0
                &&& holds_number(b[1], b[2], cell.height as int)
            }
            &&& format == GeodataFormat::ConvDat ==> {
                &&& b.len() == 6
                &&& b[0] == 0 && b[1] == 0
                &&& holds_number(b[2], b[3], cell.height as int)
                &&& cell.min_height is None ==> holds_cell(b[4], b[5], cell)
                &&& cell.min_height matches Some(low) ==> holds_cell(
                    b[4],
                    b[5],
                    Cell { height: low, ..cell },
                )
            }
        }),
{
    packed_bytes_hold_their_cell(cell);
    if let Some(low) = cell.min_height {
        packed_bytes_hold_their_cell(Cell { height: low, ..cell });
    }
}

/// The number of bytes that the levels of the first `n` cells take, with a number of
/// `wide` bytes in front of those of each cell.
pub open spec fn levels_len(cells: Seq<Seq<Cell>>, n: int, wide: int) -> int
    decreases n,
{
    if n <= 0 {
        0
    } else {
        levels_len(cells, n - 1, wide) + wide + 2 * cells[n - 1].len()
    }
}

proof fn levels_len_of_fewer(cells: Seq<Seq<Cell>>, n: int, wide: int)
    requires
        0 <= n < cells.len(),
    ensures
        levels_len(cells.drop_last(), n, wide) == levels_len(cells, n, wide),
    decreases n,
{
    if n > 0 {
        levels_len_of_fewer(cells, n - 1, wide);
    }
}

proof fn levels_len_grows(cells: Seq<Seq<Cell>>, n: int, m: int, wide: int)
    requires
        0 <= n <= m <= cells.len(),
        0 <= wide,
    ensures
        0 <= levels_len(cells, n, wide) <= levels_len(cells, m, wide),
        n < m ==> levels_len(cells, n, wide) + wide + 2 * cells[n].len() <= levels_len(
            cells,
            m,
            wide,
        ),
    decreases m,
{
    if n < m {
        levels_len_grows(cells, n, m - 1, wide);
    } else if n > 0 {
        levels_len_grows(cells, n - 1, m - 1, wide);
    }
}

proof fn levels_stand_in_turn(format: GeodataFormat, cells: Seq<Seq<Cell>>, i: int, j: int)
    requires
        0 <= i < cells.len(),
        0 <= j < cells[i].len(),
        cells[i].len() <= 255,
    ensures
        ({
            let b = geodata_writer::layers_bytes(format, cells);
            let wide = if format == GeodataFormat::ConvDat {
                2int
            } else {
                1
            };
            let at = levels_len(cells, i, wide);
            &&& b.len() == levels_len(cells, cells.len() as int, wide)
            &&& 0 <= at && at + wide + 2 * cells[i].len() <= b.len()
            &&& b[at] == cells[i].len()
            &&& format == GeodataFormat::ConvDat ==> b[at + 1] == 0
            &&& holds_cell(b[at + wide + 2 * j], b[at + wide + 2 * j + 1], cells[i][j])
        }),
    decreases cells.len(),
{
    let wide = if format == GeodataFormat::ConvDat {
        2int
    } else {
        1
    };
    let fewer = cells.drop_last();
    let n = cells.len() - 1;
    let b = geodata_writer::layers_bytes(format, cells);
    let before = geodata_writer::layers_bytes(format, fewer);
    layers_len(format, fewer);
    levels_len_of_fewer(cells, n, wide);
    levels_len_of_fewer(cells, i, wide);
    levels_len_grows(cells, i, n, wide);
    packed_len(cells.last());
    if i < n {
        levels_stand_in_turn(format, fewer, i, j);
        let at = levels_len(cells, i, wide);
        assert(b[at] == before[at]);
        assert(b[at + wide + 2 * j] == before[at + wide + 2 * j]);
        assert(b[at + wide + 2 * j + 1] == before[at + wide + 2 * j + 1]);
        if wide == 2 {
            assert(b[at + 1] == before[at + 1]);
        }
    } else {
        cells_stand_in_turn(cells.last(), j);
        let count = geodata_writer::count_bytes(format, cells.last().len() as int);
        let packed = geodata_writer::packed_cells(cells.last());
        let at = before.len() as int;
        assert(b[at] == count[0]);
        assert(b[at + wide + 2 * j] == packed[2 * j]);
        assert(b[at + wide + 2 * j + 1] == packed[2 * j + 1]);
    }
}

proof fn layers_len(format: GeodataFormat, cells: Seq<Seq<Cell>>)
    ensures
        geodata_writer::layers_bytes(format, cells).len() == levels_len(
            cells,
            cells.len() as int,
            if format == GeodataFormat::ConvDat {
                2int
            } else {
                1
            },
        ),
    decreases cells.len(),
{
    let wide = if format == GeodataFormat::ConvDat {
        2int
    } else {
        1
    };
    if cells.len() > 0 {
        layers_len(format, cells.drop_last());
        levels_len_of_fewer(cells, cells.len() - 1, wide);
        packed_len(cells.last());
    }
}

/// A written block of several levels starts with its mark; the levels of each cell follow
/// in turn, behind their number, and two bytes hold each level: the low four bits of the
/// first are the level's directions.
pub proof fn written_levels_stand_in_turn(
    format: GeodataFormat,
    cells: Seq<Seq<Cell>>,
    i: int,
    j: int,
)
    requires
        format == GeodataFormat::L2j || format == GeodataFormat::L2g || format
            == GeodataFormat::ConvDat,
        0 <= i < cells.len(),
        0 <= j < cells[i].len(),
        cells[i].len() <= 255,
        geodata_writer::block_bytes(format, BlockModel::MultiLevel(cells)) is Ok,
    ensures
        ({
            let b = geodata_writer::block_bytes(format, BlockModel::MultiLevel(cells))->Ok_0;
            let wide = if format == GeodataFormat::ConvDat {
                2int
            } else {
                1
            };
            let at = wide + levels_len(cells, i, wide);
            let size = levels_len(cells, cells.len() as int, wide);
            &&& b.len() == wide + size
            &&& at + wide + 2 * cells[i].len() <= b.len()
            &&& format == GeodataFormat::ConvDat ==> holds_number(b[0], b[1], size - 64)
            &&& format != GeodataFormat::ConvDat ==> b[0] == 2
            &&& b[at] == cells[i].len()
            &&& format == GeodataFormat::ConvDat ==> b[at + 1] == 0
            &&& b[at + wide + 2 * j] & 0x0f == cells[i][j].nswe & 0x0f
            &&& holds_cell(b[at + wide + 2 * j], b[at + wide + 2 * j + 1], cells[i][j])
        }),
{
    levels_stand_in_turn(format, cells, i, j);
    levels_len_grows(cells, i, cells.len() as int, 1);
    levels_len_grows(cells, i, cells.len() as int, 2);
    if format == GeodataFormat::ConvDat {
        body_len(cells);
    }
}

proof fn body_len(cells: Seq<Seq<Cell>>)
    ensures
        geodata_writer::body_size(cells) == levels_len(cells, cells.len() as int, 2),
        0 <= geodata_writer::body_size(cells),
    decreases cells.len(),
{
    if cells.len() > 0 {
        body_len(cells.drop_last());
        levels_len_of_fewer(cells, cells.len() - 1, 2);
    }
}

} // verus!
