//! Geodata regions: the height and the passable directions of every cell, in
//! the binary formats that hold them.

use vstd::prelude::*;
use vstd::slice::slice_subrange;
use crate::reader::{Dialect, Reader};
use crate::bytes;
use crate::reader;
use crate::text;

verus! {

/// The number of blocks in each direction of a region.
pub const REGION_SIZE: usize = 256;

/// The number of blocks of a region.
pub const REGION_BLOCKS: usize = 65536;

/// The number of cells of a block.
pub const CELLS_PER_BLOCK: usize = 64;

/// The directions of a cell that can be left on every side.
pub const NSWE_ALL: u8 = 15;

/// The checksum that encrypted geodata starts from.
pub const GEO_CHECKSUM: u32 = 2168537515;

#[derive(Debug, Clone, Copy, PartialEq, Eq, Structural)]
pub enum GeodataFormat {
    L2j,
    ConvDat,
    L2d,
    L2s,
    L2g,
    Rp,
    PathTxt,
    L2m,
}

/// How the name of a file of this format ends.
pub open spec fn geodata_ending(format: GeodataFormat) -> Seq<char> {
    match format {
        GeodataFormat::L2j => ".l2j"@,
        GeodataFormat::ConvDat => "_conv.dat"@,
        GeodataFormat::L2d => ".l2d"@,
        GeodataFormat::L2s => ".l2s"@,
        GeodataFormat::L2g => ".l2g"@,
        GeodataFormat::Rp => ".rp"@,
        GeodataFormat::PathTxt => "_path.txt"@,
        GeodataFormat::L2m => ".l2m"@,
    }
}

/// The formats that regions can be written in.
pub open spec fn is_output_format(format: GeodataFormat) -> bool {
    format == GeodataFormat::L2j || format == GeodataFormat::ConvDat || format
        == GeodataFormat::L2g
}

impl GeodataFormat {
    pub fn extension(self) -> (r: &'static str)
        ensures
            r@ == geodata_ending(self),
    {
        match self {
            GeodataFormat::L2j => ".l2j",
            GeodataFormat::ConvDat => "_conv.dat",
            GeodataFormat::L2d => ".l2d",
            GeodataFormat::L2s => ".l2s",
            GeodataFormat::L2g => ".l2g",
            GeodataFormat::Rp => ".rp",
            GeodataFormat::PathTxt => "_path.txt",
            GeodataFormat::L2m => ".l2m",
        }
    }

    pub fn is_output_supported(self) -> (r: bool)
        ensures
            r == is_output_format(self),
    {
        matches!(self, GeodataFormat::L2j | GeodataFormat::ConvDat | GeodataFormat::L2g)
    }
}

/// One level of a cell.
#[derive(Debug, Clone, Copy, PartialEq, Eq, Structural)]
pub struct Cell {
    pub height: i16,
    pub min_height: Option<i16>,
    pub nswe: u8,
}

/// A block of cells: all alike, of one level each, or of several.
#[derive(Debug)]
pub enum Block {
    Flat(Cell),
    Complex(Vec<Cell>),
    MultiLevel(Vec<Vec<Cell>>),
}

pub enum BlockModel {
    Flat(Cell),
    Complex(Seq<Cell>),
    MultiLevel(Seq<Seq<Cell>>),
}

pub open spec fn layers_seen(cells: Seq<Vec<Cell>>) -> Seq<Seq<Cell>> {
    Seq::new(cells.len(), |i: int| cells[i]@)
}

impl View for Block {
    type V = BlockModel;

    open spec fn view(&self) -> BlockModel {
        match self {
            Block::Flat(cell) => BlockModel::Flat(*cell),
            Block::Complex(cells) => BlockModel::Complex(cells@),
            Block::MultiLevel(cells) => BlockModel::MultiLevel(layers_seen(cells@)),
        }
    }
}

pub open spec fn blocks_seen(blocks: Seq<Block>) -> Seq<BlockModel> {
    Seq::new(blocks.len(), |i: int| blocks[i]@)
}

/// A square of 256 by 256 blocks.
#[derive(Debug)]
pub struct Region {
    pub x: i32,
    pub y: i32,
    pub blocks: Vec<Block>,
}

pub struct RegionModel {
    pub x: i32,
    pub y: i32,
    pub blocks: Seq<BlockModel>,
}

impl View for Region {
    type V = RegionModel;

    open spec fn view(&self) -> RegionModel {
        RegionModel { x: self.x, y: self.y, blocks: blocks_seen(self.blocks@) }
    }
}

/// Whether a block has its cells, each with one to 255 levels.
pub open spec fn is_whole_block(b: BlockModel) -> bool {
    match b {
        BlockModel::Flat(_) => true,
        BlockModel::Complex(cells) => cells.len() == CELLS_PER_BLOCK,
        BlockModel::MultiLevel(cells) => cells.len() == CELLS_PER_BLOCK && forall|i: int|
            0 <= i < cells.len() ==> 1 <= (#[trigger] cells[i]).len() <= 255,
    }
}

/// Whether a region has all its blocks.
pub open spec fn is_whole_region(r: RegionModel) -> bool {
    r.blocks.len() == REGION_BLOCKS && forall|i: int|
        0 <= i < r.blocks.len() ==> is_whole_block(#[trigger] r.blocks[i])
}

/// A height and directions in one stored number: the height in steps of eight,
/// doubled, and the directions in the lowest four bits.
pub open spec fn packed_cell(height: i16, nswe: u8) -> i16 {
    let doubled = if 2 * height > 32767 {
        2 * height - 65536
    } else if 2 * height < -32768 {
        2 * height + 65536
    } else {
        2 * height
    };
    (doubled - doubled % 16 + nswe % 16) as i16
}

pub open spec fn packed_height(value: i16) -> i16 {
    ((value as int - value as int % 16) / 2) as i16
}

pub open spec fn packed_nswe(value: i16) -> u8 {
    (value as int % 16) as u8
}

pub fn encode_height_and_nswe(height: i16, nswe: u8) -> (r: i16)
    ensures
        r == packed_cell(height, nswe),
{
    let twice: i32 = 2 * (height as i32);
    let doubled: i32 = if twice > 32767 {
        twice - 65536
    } else if twice < -32768 {
        twice + 65536
    } else {
        twice
    };
    let rest: i32 = (doubled + 65536) % 16;
    (doubled - rest + (nswe % 16) as i32) as i16
}

pub fn decode_height(value: i16) -> (r: i16)
    ensures
        r == packed_height(value),
        -16384 <= r <= 16376,
{
    let rest: i32 = (value as i32 + 65536) % 16;
    let even: i32 = value as i32 - rest;
    ((even + 65536) / 2 - 32768) as i16
}

pub fn decode_nswe(value: i16) -> (r: u8)
    ensures
        r == packed_nswe(value),
{
    ((value as i32 + 65536) % 16) as u8
}

/// A height that is a multiple of eight and fits comes back from its stored
/// form, and so do directions.
pub proof fn packed_cells_round_trip(height: i16, nswe: u8)
    requires
        nswe < 16,
    ensures
        packed_nswe(packed_cell(height, nswe)) == nswe,
        -16384 <= height < 16384 ==> packed_height(packed_cell(height, nswe)) == height - height
            as int % 8,
        -16384 <= height < 16384 && height as int % 8 == 0 ==> packed_height(
            packed_cell(height, nswe),
        ) == height,
{
}

/// A cell that a packed number holds.
pub open spec fn unpacked(raw: i16) -> Cell {
    Cell { height: packed_height(raw), min_height: None, nswe: packed_nswe(raw) }
}

/// The height of a cell as it is written: alone in a flat block, or with its
/// directions.
pub open spec fn height_mask_of(cell: Cell, is_flat: bool) -> i16 {
    if is_flat {
        cell.height
    } else {
        packed_cell(cell.height, cell.nswe)
    }
}

pub open spec fn lowest(cell: Cell) -> i16 {
    match cell.min_height {
        Some(height) => height,
        None => cell.height,
    }
}

impl Cell {
    pub fn height_mask(self, is_flat: bool) -> (r: i16)
        ensures
            r == height_mask_of(self, is_flat),
    {
        if is_flat {
            self.height
        } else {
            encode_height_and_nswe(self.height, self.nswe)
        }
    }

    pub fn lowest_height(self) -> (r: i16)
        ensures
            r == lowest(self),
    {
        match self.min_height {
            Some(height) => height,
            None => self.height,
        }
    }
}

#[derive(Debug, Clone, Copy, PartialEq, Eq, Structural)]
pub enum BlockKind {
    Flat,
    Complex,
    MultiLevel,
}

pub open spec fn hex_digit(n: int) -> char {
    if n < 10 {
        (48 + n) as char
    } else {
        (87 + n) as char
    }
}

/// A byte as two hexadecimal digits.
pub open spec fn hex_byte(b: u8) -> Seq<char> {
    seq![hex_digit((b / 16) as int), hex_digit((b % 16) as int)]
}

fn hex_char(n: u8) -> (r: char)
    requires
        n < 16,
    ensures
        r == hex_digit(n as int),
{
    if n < 10 {
        (48 + n) as char
    } else {
        (87 + n) as char
    }
}

/// Whether the blocks of a format are marked by 0xd0, 0xd1 and 0xd2, and its
/// directions stand in a byte of their own.
pub open spec fn is_unpacked_format(format: GeodataFormat) -> bool {
    format == GeodataFormat::L2d || format == GeodataFormat::Rp
}

/// The kind of the block at `p`.
pub open spec fn kind_at(format: GeodataFormat, d: Seq<u8>, p: int) -> Result<
    (BlockKind, int),
    Seq<char>,
> {
    if format == GeodataFormat::ConvDat {
        match reader::i16_read(Dialect::Geodata, d, p) {
            Err(e) => Err(e),
            Ok((value, q)) => if value == 0 {
                Ok((BlockKind::Flat, q))
            } else if value == 64 {
                Ok((BlockKind::Complex, q))
            } else if value > 64 {
                Ok((BlockKind::MultiLevel, q))
            } else {
                Err("Tipo de bloco CONV_DAT inválido: "@ + text::decimal(value as int) + "."@)
            },
        }
    } else {
        match reader::u8_at(Dialect::Geodata, d, p) {
            Err(e) => Err(e),
            Ok((value, q)) => {
                let base = if is_unpacked_format(format) {
                    0xd0int
                } else {
                    0
                };
                if value == base {
                    Ok((BlockKind::Flat, q))
                } else if value == base + 1 {
                    Ok((BlockKind::Complex, q))
                } else if value == base + 2 {
                    Ok((BlockKind::MultiLevel, q))
                } else if is_unpacked_format(format) {
                    Err("Tipo de bloco L2D/RP inválido: 0x"@ + hex_byte(value) + "."@)
                } else {
                    Err("Tipo de bloco inválido: "@ + text::decimal(value as int) + "."@)
                }
            },
        }
    }
}

/// The flat block at `p`.
pub open spec fn flat_at(format: GeodataFormat, d: Seq<u8>, p: int) -> Result<
    (BlockModel, int),
    Seq<char>,
> {
    match reader::i16_read(Dialect::Geodata, d, p) {
        Err(e) => Err(e),
        Ok((height, q)) => if format == GeodataFormat::ConvDat {
            match reader::i16_read(Dialect::Geodata, d, q) {
                Err(e) => Err(e),
                Ok((low, q2)) => Ok(
                    (
                        BlockModel::Flat(
                            Cell { height, min_height: Some(low), nswe: NSWE_ALL },
                        ),
                        q2,
                    ),
                ),
            }
        } else {
            Ok((BlockModel::Flat(Cell { height, min_height: None, nswe: NSWE_ALL }), q))
        },
    }
}

/// The level of a cell at `p`.
pub open spec fn cell_at(format: GeodataFormat, d: Seq<u8>, p: int) -> Result<
    (Cell, int),
    Seq<char>,
> {
    if is_unpacked_format(format) {
        match reader::u8_at(Dialect::Geodata, d, p) {
            Err(e) => Err(e),
            Ok((nswe, q)) => match reader::i16_read(Dialect::Geodata, d, q) {
                Err(e) => Err(e),
                Ok((height, q2)) => Ok(
                    (Cell { height, min_height: None, nswe: (nswe % 16) as u8 }, q2),
                ),
            },
        }
    } else {
        match reader::i16_read(Dialect::Geodata, d, p) {
            Err(e) => Err(e),
            Ok((raw, q)) => Ok((unpacked(raw), q)),
        }
    }
}

/// `n` levels from `p` on.
pub open spec fn cells_from(format: GeodataFormat, d: Seq<u8>, p: int, n: nat) -> Result<
    (Seq<Cell>, int),
    Seq<char>,
>
    decreases n,
{
    if n == 0 {
        Ok((Seq::empty(), p))
    } else {
        match cells_from(format, d, p, (n - 1) as nat) {
            Err(e) => Err(e),
            Ok((cells, q)) => match cell_at(format, d, q) {
                Err(e) => Err(e),
                Ok((cell, end)) => Ok((cells.push(cell), end)),
            },
        }
    }
}

pub open spec fn bad_layers_text(count: int) -> Seq<char> {
    "Quantidade de camadas inválida: "@ + text::decimal(count) + "."@
}

/// The number of levels of a cell.
pub open spec fn layer_count_at(format: GeodataFormat, d: Seq<u8>, p: int) -> Result<
    (int, int),
    Seq<char>,
> {
    match (if format == GeodataFormat::ConvDat {
        match reader::i16_read(Dialect::Geodata, d, p) {
            Err(e) => Err(e),
            Ok((v, q)) => Ok((v as int, q)),
        }
    } else {
        match reader::u8_at(Dialect::Geodata, d, p) {
            Err(e) => Err(e),
            Ok((v, q)) => Ok((v as int, q)),
        }
    }) {
        Err(e) => Err(e),
        Ok((count, q)) => if 1 <= count <= 255 {
            Ok((count, q))
        } else {
            Err(bad_layers_text(count))
        },
    }
}

/// The levels of `n` cells from `p` on.
pub open spec fn layers_from(format: GeodataFormat, d: Seq<u8>, p: int, n: nat) -> Result<
    (Seq<Seq<Cell>>, int),
    Seq<char>,
>
    decreases n,
{
    if n == 0 {
        Ok((Seq::empty(), p))
    } else {
        match layers_from(format, d, p, (n - 1) as nat) {
            Err(e) => Err(e),
            Ok((cells, q)) => match layer_count_at(format, d, q) {
                Err(e) => Err(e),
                Ok((count, q2)) => match cells_from(format, d, q2, count as nat) {
                    Err(e) => Err(e),
                    Ok((layers, end)) => Ok((cells.push(layers), end)),
                },
            },
        }
    }
}

/// Where the levels of a cell stand and how many there are.
pub struct LayerPlace {
    pub at: int,
    pub count: int,
}

/// The places of `n` cells of an L2M block. Each header holds the number of
/// levels and the distance to them in words.
pub open spec fn places_from(d: Seq<u8>, p: int, n: nat) -> Result<
    (Seq<LayerPlace>, int),
    Seq<char>,
>
    decreases n,
{
    if n == 0 {
        Ok((Seq::empty(), p))
    } else {
        match places_from(d, p, (n - 1) as nat) {
            Err(e) => Err(e),
            Ok((places, q)) => if q + 2 > usize::MAX {
                Err("Offset L2M inválido."@)
            } else {
                match reader::u16_read(Dialect::Geodata, d, q) {
                    Err(e) => Err(e),
                    Ok((header, q2)) => {
                        let count = header as int % 32;
                        if count < 1 {
                            Err(bad_layers_text(count))
                        } else if q2 + 2 * (header as int / 32) > usize::MAX {
                            Err("Offset L2M inválido."@)
                        } else {
                            Ok(
                                (
                                    places.push(
                                        LayerPlace { at: q2 + 2 * (header as int / 32), count },
                                    ),
                                    q2,
                                ),
                            )
                        }
                    },
                }
            },
        }
    }
}

/// The levels at the first `n` places, and the position behind the last byte
/// that was read.
pub open spec fn placed_layers(d: Seq<u8>, places: Seq<LayerPlace>, start: int, n: nat) -> Result<
    (Seq<Seq<Cell>>, int),
    Seq<char>,
>
    decreases n,
{
    if n == 0 {
        Ok((Seq::empty(), start))
    } else {
        let place = places[n - 1];
        match placed_layers(d, places, start, (n - 1) as nat) {
            Err(e) => Err(e),
            Ok((cells, end)) => if place.at + 2 * place.count > usize::MAX {
                Err("Offset geodata inválido."@)
            } else if place.at + 2 * place.count > d.len() {
                Err("Arquivo geodata truncado."@)
            } else {
                let behind = place.at + 2 * place.count;
                Ok(
                    (
                        cells.push(
                            Seq::new(
                                place.count as nat,
                                |i: int|
                                    unpacked(
                                        bytes::i16_of(d.subrange(place.at + 2 * i, place.at + 2 * i + 2)),
                                    ),
                            ),
                        ),
                        if behind > end {
                            behind
                        } else {
                            end
                        },
                    ),
                )
            },
        }
    }
}

/// The block of several levels at `p`.
pub open spec fn multi_at(format: GeodataFormat, d: Seq<u8>, p: int) -> Result<
    (BlockModel, int),
    Seq<char>,
> {
    if format == GeodataFormat::L2m {
        match places_from(d, p, CELLS_PER_BLOCK as nat) {
            Err(e) => Err(e),
            Ok((places, q)) => match placed_layers(d, places, q, CELLS_PER_BLOCK as nat) {
                Err(e) => Err(e),
                Ok((cells, end)) => Ok((BlockModel::MultiLevel(cells), end)),
            },
        }
    } else {
        match layers_from(format, d, p, CELLS_PER_BLOCK as nat) {
            Err(e) => Err(e),
            Ok((cells, q)) => Ok((BlockModel::MultiLevel(cells), q)),
        }
    }
}

/// The block at `p`.
#[verifier::opaque]
pub open spec fn block_at(format: GeodataFormat, d: Seq<u8>, p: int) -> Result<
    (BlockModel, int),
    Seq<char>,
> {
    match kind_at(format, d, p) {
        Err(e) => Err(e),
        Ok((BlockKind::Flat, q)) => flat_at(format, d, q),
        Ok((BlockKind::Complex, q)) => match cells_from(format, d, q, CELLS_PER_BLOCK as nat) {
            Err(e) => Err(e),
            Ok((cells, end)) => Ok((BlockModel::Complex(cells), end)),
        },
        Ok((BlockKind::MultiLevel, q)) => multi_at(format, d, q),
    }
}

/// `n` blocks from `p` on.
pub open spec fn blocks_from(format: GeodataFormat, d: Seq<u8>, p: int, n: nat) -> Result<
    (Seq<BlockModel>, int),
    Seq<char>,
>
    decreases n,
{
    if n == 0 {
        Ok((Seq::empty(), p))
    } else {
        match blocks_from(format, d, p, (n - 1) as nat) {
            Err(e) => Err(e),
            Ok((blocks, q)) => match block_at(format, d, q) {
                Err(e) => Err(e),
                Ok((block, end)) => Ok((blocks.push(block), end)),
            },
        }
    }
}

/// What a read of a block hands back.
pub open spec fn block_read(
    before: Reader,
    after: Reader,
    r: Result<Block, String>,
    model: Result<(BlockModel, int), Seq<char>>,
) -> bool {
    &&& reader::moved(before, after)
    &&& match r {
        Ok(block) => model == Ok::<(BlockModel, int), Seq<char>>((block@, after.position as int)),
        Err(message) => model == Err::<(BlockModel, int), Seq<char>>(message@),
    }
}

/// Whether a reader stands in geodata.
pub open spec fn reads_geodata(reader: Reader) -> bool {
    reader.wf() && reader.dialect == Dialect::Geodata
}

proof fn cells_error_spreads(format: GeodataFormat, d: Seq<u8>, p: int, i: nat, n: nat)
    requires
        i <= n,
        cells_from(format, d, p, i) is Err,
    ensures
        cells_from(format, d, p, n) == cells_from(format, d, p, i),
    decreases n,
{
    if i < n {
        cells_error_spreads(format, d, p, i, (n - 1) as nat);
    }
}

proof fn layers_error_spreads(format: GeodataFormat, d: Seq<u8>, p: int, i: nat, n: nat)
    requires
        i <= n,
        layers_from(format, d, p, i) is Err,
    ensures
        layers_from(format, d, p, n) == layers_from(format, d, p, i),
    decreases n,
{
    if i < n {
        layers_error_spreads(format, d, p, i, (n - 1) as nat);
    }
}

proof fn places_error_spreads(d: Seq<u8>, p: int, i: nat, n: nat)
    requires
        i <= n,
        places_from(d, p, i) is Err,
    ensures
        places_from(d, p, n) == places_from(d, p, i),
    decreases n,
{
    if i < n {
        places_error_spreads(d, p, i, (n - 1) as nat);
    }
}

proof fn placed_error_spreads(d: Seq<u8>, places: Seq<LayerPlace>, start: int, i: nat, n: nat)
    requires
        i <= n,
        placed_layers(d, places, start, i) is Err,
    ensures
        placed_layers(d, places, start, n) == placed_layers(d, places, start, i),
    decreases n,
{
    if i < n {
        placed_error_spreads(d, places, start, i, (n - 1) as nat);
    }
}

pub proof fn blocks_error_spreads(format: GeodataFormat, d: Seq<u8>, p: int, i: nat, n: nat)
    requires
        i <= n,
        blocks_from(format, d, p, i) is Err,
    ensures
        blocks_from(format, d, p, n) == blocks_from(format, d, p, i),
    decreases n,
{
    if i < n {
        blocks_error_spreads(format, d, p, i, (n - 1) as nat);
    }
}

fn bad_layers_message(count: i64) -> (r: String)
    ensures
        r@ == bad_layers_text(count as int),
{
    text::join3("Quantidade de camadas inválida: ", text::decimal_text(count).as_str(), ".")
}

/// The number of levels of a cell, which is one to 255.
pub fn validate_layer_count(count: i32) -> (r: Result<usize, String>)
    ensures
        match r {
            Ok(n) => 1 <= count <= 255 && n == count,
            Err(message) => !(1 <= count <= 255) && message@ == bad_layers_text(count as int),
        },
{
    if count < 1 || count > 255 {
        return Err(bad_layers_message(count as i64));
    }
    Ok(count as usize)
}

/// Reads what kind of block follows.
pub fn read_block_kind(reader: &mut Reader, format: GeodataFormat) -> (r: Result<BlockKind, String>)
    requires
        reads_geodata(*old(reader)),
    ensures
        reader::stepped(
            *old(reader),
            *final(reader),
            r,
            kind_at(format, old(reader).data@, old(reader).position as int),
        ),
{
    if matches!(format, GeodataFormat::ConvDat) {
        let value: i16 = reader.read_i16()?;
        if value == 0 {
            Ok(BlockKind::Flat)
        } else if value == 64 {
            Ok(BlockKind::Complex)
        } else if value > 64 {
            Ok(BlockKind::MultiLevel)
        } else {
            Err(
                text::join3(
                    "Tipo de bloco CONV_DAT inválido: ",
                    text::decimal_text(value as i64).as_str(),
                    ".",
                ),
            )
        }
    } else {
        let value: u8 = reader.read_u8()?;
        let unpacked_format: bool = matches!(format, GeodataFormat::L2d | GeodataFormat::Rp);
        let base: u8 = if unpacked_format {
            0xd0
        } else {
            0
        };
        if value == base {
            Ok(BlockKind::Flat)
        } else if value == base + 1 {
            Ok(BlockKind::Complex)
        } else if value == base + 2 {
            Ok(BlockKind::MultiLevel)
        } else if unpacked_format {
            let mut digits: Vec<char> = Vec::new();
            digits.push(hex_char(value / 16));
            digits.push(hex_char(value % 16));
            assert(digits@ =~= hex_byte(value));
            Err(text::join3("Tipo de bloco L2D/RP inválido: 0x", text::text_of(&digits).as_str(), "."))
        } else {
            Err(text::join3("Tipo de bloco inválido: ", text::decimal_text(value as i64).as_str(), "."))
        }
    }
}

/// Reads a block whose cells are all alike.
pub fn parse_flat(reader: &mut Reader, format: GeodataFormat) -> (r: Result<Block, String>)
    requires
        reads_geodata(*old(reader)),
    ensures
        block_read(
            *old(reader),
            *final(reader),
            r,
            flat_at(format, old(reader).data@, old(reader).position as int),
        ),
{
    let height: i16 = reader.read_i16()?;
    let min_height: Option<i16> = if matches!(format, GeodataFormat::ConvDat) {
        Some(reader.read_i16()?)
    } else {
        None
    };
    Ok(Block::Flat(Cell { height, min_height, nswe: NSWE_ALL }))
}

fn parse_cell(reader: &mut Reader, format: GeodataFormat) -> (r: Result<Cell, String>)
    requires
        reads_geodata(*old(reader)),
    ensures
        reader::stepped(
            *old(reader),
            *final(reader),
            r,
            cell_at(format, old(reader).data@, old(reader).position as int),
        ),
{
    if matches!(format, GeodataFormat::L2d | GeodataFormat::Rp) {
        let nswe: u8 = reader.read_u8()?;
        let height: i16 = reader.read_i16()?;
        Ok(Cell { height, min_height: None, nswe: nswe % 16 })
    } else {
        let raw: i16 = reader.read_i16()?;
        Ok(Cell { height: decode_height(raw), min_height: None, nswe: decode_nswe(raw) })
    }
}

fn parse_cells(reader: &mut Reader, format: GeodataFormat, count: usize) -> (r: Result<
    Vec<Cell>,
    String,
>)
    requires
        reads_geodata(*old(reader)),
    ensures
        reader::moved(*old(reader), *final(reader)),
        match r {
            Ok(cells) => cells_from(
                format,
                old(reader).data@,
                old(reader).position as int,
                count as nat,
            ) == Ok::<(Seq<Cell>, int), Seq<char>>((cells@, final(reader).position as int))
                && cells@.len() == count,
            Err(message) => cells_from(
                format,
                old(reader).data@,
                old(reader).position as int,
                count as nat,
            ) == Err::<(Seq<Cell>, int), Seq<char>>(message@),
        },
{
    let ghost d = reader.data@;
    let ghost p = reader.position as int;
    let mut cells: Vec<Cell> = Vec::new();
    let mut index: usize = 0;
    while index < count
        invariant
            index <= count,
            reader::moved(*old(reader), *reader),
            reads_geodata(*reader),
            d == old(reader).data@,
            p == old(reader).position,
            cells@.len() == index,
            cells_from(format, d, p, index as nat) == Ok::<(Seq<Cell>, int), Seq<char>>(
                (cells@, reader.position as int),
            ),
        decreases count - index,
    {
        match parse_cell(reader, format) {
            Ok(cell) => {
                cells.push(cell);
            },
            Err(message) => {
                proof {
                    cells_error_spreads(format, d, p, (index + 1) as nat, count as nat);
                }
                return Err(message);
            },
        }
        index += 1;
    }
    Ok(cells)
}

/// Reads a block of one level per cell.
pub fn parse_complex(reader: &mut Reader, format: GeodataFormat) -> (r: Result<Block, String>)
    requires
        reads_geodata(*old(reader)),
    ensures
        reader::moved(*old(reader), *final(reader)),
        match cells_from(
            format,
            old(reader).data@,
            old(reader).position as int,
            CELLS_PER_BLOCK as nat,
        ) {
            Ok((cells, end)) => r matches Ok(block) && block@ == BlockModel::Complex(cells)
                && final(reader).position == end,
            Err(message) => r matches Err(m) && m@ == message,
        },
{
    let cells = parse_cells(reader, format, CELLS_PER_BLOCK)?;
    Ok(Block::Complex(cells))
}

fn parse_layer_count(reader: &mut Reader, format: GeodataFormat) -> (r: Result<usize, String>)
    requires
        reads_geodata(*old(reader)),
    ensures
        reader::moved(*old(reader), *final(reader)),
        match r {
            Ok(count) => layer_count_at(format, old(reader).data@, old(reader).position as int)
                == Ok::<(int, int), Seq<char>>((count as int, final(reader).position as int)),
            Err(message) => layer_count_at(
                format,
                old(reader).data@,
                old(reader).position as int,
            ) == Err::<(int, int), Seq<char>>(message@),
        },
{
    let count: i32 = if matches!(format, GeodataFormat::ConvDat) {
        reader.read_i16()? as i32
    } else {
        reader.read_u8()? as i32
    };
    validate_layer_count(count)
}

/// Reads a block of several levels per cell.
pub fn parse_multi(reader: &mut Reader, format: GeodataFormat) -> (r: Result<Block, String>)
    requires
        reads_geodata(*old(reader)),
    ensures
        block_read(
            *old(reader),
            *final(reader),
            r,
            multi_at(format, old(reader).data@, old(reader).position as int),
        ),
{
    if matches!(format, GeodataFormat::L2m) {
        return parse_l2m_multi(reader);
    }
    let ghost d = reader.data@;
    let ghost p = reader.position as int;
    let mut cells: Vec<Vec<Cell>> = Vec::new();
    let mut index: usize = 0;
    assert(layers_seen(cells@) =~= Seq::empty());
    while index < CELLS_PER_BLOCK
        invariant
            index <= CELLS_PER_BLOCK,
            format != GeodataFormat::L2m,
            reader::moved(*old(reader), *reader),
            reads_geodata(*reader),
            d == old(reader).data@,
            p == old(reader).position,
            layers_from(format, d, p, index as nat) == Ok::<(Seq<Seq<Cell>>, int), Seq<char>>(
                (layers_seen(cells@), reader.position as int),
            ),
        decreases CELLS_PER_BLOCK - index,
    {
        match parse_layer_count(reader, format) {
            Ok(count) => match parse_cells(reader, format, count) {
                Ok(layers) => {
                    let ghost before = cells@;
                    cells.push(layers);
                    assert(layers_seen(cells@) =~= layers_seen(before).push(layers@));
                },
                Err(message) => {
                    proof {
                        layers_error_spreads(format, d, p, (index + 1) as nat, CELLS_PER_BLOCK as nat);
                    }
                    return Err(message);
                },
            },
            Err(message) => {
                proof {
                    layers_error_spreads(format, d, p, (index + 1) as nat, CELLS_PER_BLOCK as nat);
                }
                return Err(message);
            },
        }
        index += 1;
    }
    Ok(Block::MultiLevel(cells))
}

pub open spec fn places_seen(offsets: Seq<usize>, counts: Seq<usize>) -> Seq<LayerPlace> {
    Seq::new(
        offsets.len(),
        |i: int| LayerPlace { at: offsets[i] as int, count: counts[i] as int },
    )
}

fn parse_l2m_places(reader: &mut Reader) -> (r: Result<(Vec<usize>, Vec<usize>), String>)
    requires
        reads_geodata(*old(reader)),
    ensures
        reader::moved(*old(reader), *final(reader)),
        match r {
            Ok((offsets, counts)) => {
                &&& offsets@.len() == counts@.len() == CELLS_PER_BLOCK
                &&& places_from(
                    old(reader).data@,
                    old(reader).position as int,
                    CELLS_PER_BLOCK as nat,
                ) == Ok::<(Seq<LayerPlace>, int), Seq<char>>(
                    (places_seen(offsets@, counts@), final(reader).position as int),
                )
                &&& forall|i: int| 0 <= i < counts@.len() ==> 1 <= #[trigger] counts@[i] < 32
            },
            Err(message) => places_from(
                old(reader).data@,
                old(reader).position as int,
                CELLS_PER_BLOCK as nat,
            ) == Err::<(Seq<LayerPlace>, int), Seq<char>>(message@),
        },
{
    let ghost d = reader.data@;
    let ghost p = reader.position as int;
    let mut offsets: Vec<usize> = Vec::new();
    let mut counts: Vec<usize> = Vec::new();
    let mut index: usize = 0;
    assert(places_seen(offsets@, counts@) =~= Seq::empty());
    while index < CELLS_PER_BLOCK
        invariant
            index <= CELLS_PER_BLOCK,
            reader::moved(*old(reader), *reader),
            reads_geodata(*reader),
            d == old(reader).data@,
            p == old(reader).position,
            offsets@.len() == index,
            counts@.len() == index,
            forall|i: int| 0 <= i < counts@.len() ==> 1 <= #[trigger] counts@[i] < 32,
            places_from(d, p, index as nat) == Ok::<(Seq<LayerPlace>, int), Seq<char>>(
                (places_seen(offsets@, counts@), reader.position as int),
            ),
        decreases CELLS_PER_BLOCK - index,
    {
        let ghost position = reader.position as int;
        let ghost places = places_seen(offsets@, counts@);
        if reader.position.checked_add(2).is_none() {
            proof {
                places_error_spreads(d, p, (index + 1) as nat, CELLS_PER_BLOCK as nat);
            }
            return Err("Offset L2M inválido.".to_owned());
        }
        let header: u16 = match reader.read_u16() {
            Ok(header) => header,
            Err(message) => {
                proof {
                    places_error_spreads(d, p, (index + 1) as nat, CELLS_PER_BLOCK as nat);
                }
                return Err(message);
            },
        };
        let count: usize = match validate_layer_count((header % 32) as i32) {
            Ok(count) => count,
            Err(message) => {
                proof {
                    places_error_spreads(d, p, (index + 1) as nat, CELLS_PER_BLOCK as nat);
                }
                return Err(message);
            },
        };
        let words: usize = (header / 32) as usize;
        match reader.position.checked_add(words * 2) {
            Some(offset) => {
                offsets.push(offset);
                counts.push(count);
                assert(places_seen(offsets@, counts@) =~= places.push(
                    LayerPlace { at: offset as int, count: count as int },
                ));
            },
            None => {
                proof {
                    places_error_spreads(d, p, (index + 1) as nat, CELLS_PER_BLOCK as nat);
                }
                return Err("Offset L2M inválido.".to_owned());
            },
        }
        index += 1;
    }
    Ok((offsets, counts))
}

/// The levels that stand at `offset`.
pub open spec fn levels_at(d: Seq<u8>, offset: int, count: int) -> Seq<Cell> {
    Seq::new(
        count as nat,
        |i: int| unpacked(bytes::i16_of(d.subrange(offset + 2 * i, offset + 2 * i + 2))),
    )
}

fn packed_levels(data: &[u8], offset: usize, count: usize) -> (r: Vec<Cell>)
    requires
        offset + 2 * count <= data@.len(),
    ensures
        r@ == levels_at(data@, offset as int, count as int),
{
    let mut layers: Vec<Cell> = Vec::new();
    let available: usize = data.len();
    let mut index: usize = 0;
    while index < count
        invariant
            index <= count,
            available == data@.len(),
            offset + 2 * count <= data@.len(),
            layers@ == levels_at(data@, offset as int, index as int),
        decreases count - index,
    {
        let raw: i16 = bytes::i16_at(data, offset + 2 * index);
        layers.push(
            Cell { height: decode_height(raw), min_height: None, nswe: decode_nswe(raw) },
        );
        index += 1;
    }
    layers
}

/// Reads a block of several levels per cell in the L2M format, where each cell
/// says where its levels stand.
pub fn parse_l2m_multi(reader: &mut Reader) -> (r: Result<Block, String>)
    requires
        reads_geodata(*old(reader)),
    ensures
        block_read(
            *old(reader),
            *final(reader),
            r,
            multi_at(GeodataFormat::L2m, old(reader).data@, old(reader).position as int),
        ),
{
    let ghost d = reader.data@;
    let (offsets, counts) = parse_l2m_places(reader)?;
    let ghost places = places_seen(offsets@, counts@);
    let ghost start = reader.position as int;
    let size: usize = reader.data.len();
    let mut cells: Vec<Vec<Cell>> = Vec::new();
    let mut end: usize = reader.position;
    let mut index: usize = 0;
    assert(layers_seen(cells@) =~= Seq::empty());
    while index < CELLS_PER_BLOCK
        invariant
            index <= CELLS_PER_BLOCK,
            offsets@.len() == counts@.len() == CELLS_PER_BLOCK,
            forall|i: int| 0 <= i < counts@.len() ==> 1 <= #[trigger] counts@[i] < 32,
            places == places_seen(offsets@, counts@),
            reader::moved(*old(reader), *reader),
            reads_geodata(*reader),
            d == reader.data@,
            d == old(reader).data@,
            size == d.len(),
            end <= size,
            places_from(d, old(reader).position as int, CELLS_PER_BLOCK as nat) == Ok::<
                (Seq<LayerPlace>, int),
                Seq<char>,
            >((places, start)),
            placed_layers(d, places, start, index as nat) == Ok::<
                (Seq<Seq<Cell>>, int),
                Seq<char>,
            >((layers_seen(cells@), end as int)),
        decreases CELLS_PER_BLOCK - index,
    {
        let count: usize = counts[index];
        let offset: usize = offsets[index];
        assert(places[index as int] == LayerPlace { at: offset as int, count: count as int });
        match offset.checked_add(count * 2) {
            None => {
                proof {
                    placed_error_spreads(
                        d,
                        places,
                        start,
                        (index + 1) as nat,
                        CELLS_PER_BLOCK as nat,
                    );
                }
                return Err("Offset geodata inválido.".to_owned());
            },
            Some(behind) => {
                if behind > size {
                    proof {
                        placed_error_spreads(
                            d,
                            places,
                            start,
                            (index + 1) as nat,
                            CELLS_PER_BLOCK as nat,
                        );
                    }
                    return Err("Arquivo geodata truncado.".to_owned());
                }
                let layers = packed_levels(reader.data, offset, count);
                let ghost before = cells@;
                let ghost levels = layers@;
                cells.push(layers);
                assert(layers_seen(cells@) =~= layers_seen(before).push(levels));
                if behind > end {
                    end = behind;
                }
            },
        }
        index += 1;
    }
    reader.seek(end)?;
    Ok(Block::MultiLevel(cells))
}

} // verus!
