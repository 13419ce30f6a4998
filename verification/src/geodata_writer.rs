//! Writing geodata regions.

use vstd::prelude::*;
use crate::geodata::{Block, BlockModel, Cell, GeodataFormat, Region, RegionModel, GEO_CHECKSUM, REGION_BLOCKS};
use crate::bytes;
use crate::geodata;
use crate::geodata_region;

verus! {

/// The levels of a cell, each packed in two bytes.
pub open spec fn packed_cells(cells: Seq<Cell>) -> Seq<u8>
    decreases cells.len(),
{
    if cells.len() == 0 {
        Seq::empty()
    } else {
        packed_cells(cells.drop_last()) + bytes::i16_bytes(geodata::height_mask_of(cells.last(), false))
    }
}

/// How the number of levels of a cell is written.
pub open spec fn count_bytes(format: GeodataFormat, count: int) -> Seq<u8> {
    if format == GeodataFormat::ConvDat {
        bytes::i16_bytes(count as i16)
    } else {
        seq![count as u8]
    }
}

/// The levels of the cells of a block, each with its number in front.
pub open spec fn layers_bytes(format: GeodataFormat, cells: Seq<Seq<Cell>>) -> Seq<u8>
    decreases cells.len(),
{
    if cells.len() == 0 {
        Seq::empty()
    } else {
        layers_bytes(format, cells.drop_last()) + (count_bytes(format, cells.last().len() as int)
            + packed_cells(cells.last()))
    }
}

/// The number of bytes that the cells of a CONV_DAT block take.
pub open spec fn body_size(cells: Seq<Seq<Cell>>) -> int
    decreases cells.len(),
{
    if cells.len() == 0 {
        0
    } else {
        body_size(cells.drop_last()) + 2 + 2 * cells.last().len()
    }
}

/// Whether some cell has more levels than a byte can count.
pub open spec fn has_many_levels(cells: Seq<Seq<Cell>>) -> bool {
    exists|i: int| 0 <= i < cells.len() && (#[trigger] cells[i]).len() > 255
}

/// A block in an output format.
pub open spec fn block_bytes(format: GeodataFormat, b: BlockModel) -> Result<Seq<u8>, Seq<char>> {
    if !geodata::is_output_format(format) {
        Err("Formato de saída geodata não suportado."@)
    } else if format == GeodataFormat::ConvDat {
        match b {
            BlockModel::Flat(cell) => Ok(
                bytes::i16_bytes(0) + bytes::i16_bytes(cell.height) + bytes::i16_bytes(
                    geodata::packed_cell(geodata::lowest(cell), cell.nswe),
                ),
            ),
            BlockModel::Complex(cells) => Ok(bytes::i16_bytes(64) + packed_cells(cells)),
            BlockModel::MultiLevel(cells) => if body_size(cells) > i32::MAX {
                Err("Bloco CONV_DAT muito grande."@)
            } else if body_size(cells) - 64 > i16::MAX {
                Err("Tipo de bloco CONV_DAT inválido."@)
            } else {
                Ok(bytes::i16_bytes((body_size(cells) - 64) as i16) + layers_bytes(format, cells))
            },
        }
    } else {
        match b {
            BlockModel::Flat(cell) => Ok(seq![0u8] + bytes::i16_bytes(cell.height)),
            BlockModel::Complex(cells) => Ok(seq![1u8] + packed_cells(cells)),
            BlockModel::MultiLevel(cells) => if has_many_levels(cells) {
                Err("Camadas demais para L2J/L2G."@)
            } else {
                Ok(seq![2u8] + layers_bytes(format, cells))
            },
        }
    }
}

/// The first `n` blocks of a region in an output format.
pub open spec fn blocks_bytes(format: GeodataFormat, blocks: Seq<BlockModel>, n: nat) -> Result<
    Seq<u8>,
    Seq<char>,
>
    decreases n,
{
    if n == 0 {
        Ok(Seq::empty())
    } else {
        match blocks_bytes(format, blocks, (n - 1) as nat) {
            Err(e) => Err(e),
            Ok(before) => match block_bytes(format, blocks[n - 1]) {
                Err(e) => Err(e),
                Ok(more) => Ok(before + more),
            },
        }
    }
}

/// The number of levels in the cells of a block that is not flat.
pub open spec fn level_count(cells: Seq<Seq<Cell>>) -> int
    decreases cells.len(),
{
    if cells.len() == 0 {
        0
    } else {
        level_count(cells.drop_last()) + cells.last().len()
    }
}

pub open spec fn block_cells(b: BlockModel) -> int {
    match b {
        BlockModel::Flat(_) => 0,
        BlockModel::Complex(cells) => cells.len() as int,
        BlockModel::MultiLevel(cells) => level_count(cells),
    }
}

/// The numbers in the header of a CONV_DAT file: the levels in the blocks that
/// are not flat, the blocks of one level, and the flat ones.
pub open spec fn region_counts(blocks: Seq<BlockModel>) -> (int, int, int)
    decreases blocks.len(),
{
    if blocks.len() == 0 {
        (0, 0, 0)
    } else {
        let (cells, single, flat) = region_counts(blocks.drop_last());
        let b = blocks.last();
        (
            cells + block_cells(b),
            single + if b is MultiLevel {
                0int
            } else {
                1
            },
            flat + if b is Flat {
                1int
            } else {
                0
            },
        )
    }
}

/// The header of a CONV_DAT file.
pub open spec fn conv_header(region: RegionModel) -> Seq<u8> {
    let (cells, single, flat) = region_counts(region.blocks);
    seq![(region.x as int % 256) as u8, (region.y as int % 256) as u8] + bytes::i16_bytes(128)
        + bytes::i16_bytes(16) + bytes::i32_bytes(cells as i32) + bytes::i32_bytes(single as i32) + bytes::i32_bytes(
        flat as i32,
    )
}

/// A region as a file. `key` encrypts an L2G file.
pub open spec fn region_file(format: GeodataFormat, region: RegionModel, key: u32) -> Result<
    Seq<u8>,
    Seq<char>,
> {
    match blocks_bytes(format, region.blocks, region.blocks.len()) {
        Err(e) => Err(e),
        Ok(body) => if format == GeodataFormat::ConvDat {
            Ok(conv_header(region) + body)
        } else if format == GeodataFormat::L2g {
            Ok(geodata_region::be32(key) + geodata_region::chained(body, geodata_region::folded(GEO_CHECKSUM ^ key)))
        } else {
            Ok(body)
        },
    }
}

fn write_packed_cells(output: &mut Vec<u8>, cells: &Vec<Cell>)
    ensures
        final(output)@ == old(output)@ + packed_cells(cells@),
{
    let ghost start = output@;
    let mut index: usize = 0;
    assert(output@ =~= start + packed_cells(cells@.take(0)));
    while index < cells.len()
        invariant
            index <= cells@.len(),
            output@ == start + packed_cells(cells@.take(index as int)),
        decreases cells.len() - index,
    {
        proof {
            assert(cells@.take(index + 1).drop_last() =~= cells@.take(index as int));
        }
        bytes::write_i16(output, cells[index].height_mask(false));
        assert(output@ =~= start + packed_cells(cells@.take(index + 1)));
        index += 1;
    }
    assert(cells@.take(cells@.len() as int) =~= cells@);
}

proof fn sizes_grow(cells: Seq<Seq<Cell>>, i: int)
    requires
        0 <= i <= cells.len(),
    ensures
        0 <= body_size(cells.take(i)) <= body_size(cells),
        i < cells.len() ==> body_size(cells.take(i)) + 2 + 2 * cells[i].len() <= body_size(cells),
    decreases cells.len(),
{
    if i < cells.len() {
        sizes_grow(cells.drop_last(), i);
        assert(cells.drop_last().take(i) =~= cells.take(i));
        if i == cells.len() - 1 {
            assert(cells.take(i) =~= cells.drop_last());
        }
    } else {
        assert(cells.take(i) =~= cells);
        if cells.len() > 0 {
            sizes_grow(cells.drop_last(), cells.len() - 1);
            assert(cells.drop_last().take(cells.len() - 1) =~= cells.drop_last());
        }
    }
}

fn conv_body_size(cells: &Vec<Vec<Cell>>) -> (r: Option<usize>)
    ensures
        match r {
            Some(size) => size == body_size(geodata::layers_seen(cells@)),
            None => body_size(geodata::layers_seen(cells@)) > usize::MAX,
        },
{
    let ghost model = geodata::layers_seen(cells@);
    let mut size: usize = 0;
    let mut index: usize = 0;
    assert(body_size(model.take(0)) == 0);
    while index < cells.len()
        invariant
            index <= cells@.len(),
            model == geodata::layers_seen(cells@),
            size == body_size(model.take(index as int)),
        decreases cells.len() - index,
    {
        proof {
            sizes_grow(model, index as int);
            assert(model.take(index + 1).drop_last() =~= model.take(index as int));
            assert(model[index as int] == cells@[index as int]@);
        }
        let count: usize = cells[index].len();
        let twice: usize = match count.checked_mul(2) {
            Some(twice) => twice,
            None => return None,
        };
        size = match size.checked_add(2) {
            Some(with_count) => match with_count.checked_add(twice) {
                Some(size) => size,
                None => return None,
            },
            None => return None,
        };
        index += 1;
    }
    assert(model.take(cells@.len() as int) =~= model);
    Some(size)
}

fn write_layers(output: &mut Vec<u8>, format: GeodataFormat, cells: &Vec<Vec<Cell>>)
    requires
        format == GeodataFormat::ConvDat ==> body_size(geodata::layers_seen(cells@)) <= 40000,
        format != GeodataFormat::ConvDat ==> !has_many_levels(geodata::layers_seen(cells@)),
    ensures
        final(output)@ == old(output)@ + layers_bytes(format, geodata::layers_seen(cells@)),
{
    let ghost start = output@;
    let ghost model = geodata::layers_seen(cells@);
    let mut index: usize = 0;
    assert(output@ =~= start + layers_bytes(format, model.take(0)));
    while index < cells.len()
        invariant
            index <= cells@.len(),
            model == geodata::layers_seen(cells@),
            format == GeodataFormat::ConvDat ==> body_size(model) <= 40000,
            format != GeodataFormat::ConvDat ==> !has_many_levels(model),
            output@ == start + layers_bytes(format, model.take(index as int)),
        decreases cells.len() - index,
    {
        proof {
            sizes_grow(model, index as int);
            assert(model.take(index + 1).drop_last() =~= model.take(index as int));
            assert(model[index as int] == cells@[index as int]@);
        }
        let layers = &cells[index];
        let ghost before = output@;
        if matches!(format, GeodataFormat::ConvDat) {
            bytes::write_i16(output, layers.len() as i16);
        } else {
            output.push(layers.len() as u8);
        }
        assert(output@ =~= before + count_bytes(format, layers@.len() as int));
        write_packed_cells(output, layers);
        assert(output@ =~= start + layers_bytes(format, model.take(index + 1)));
        index += 1;
    }
    assert(model.take(cells@.len() as int) =~= model);
}

fn exceeds_byte(cells: &Vec<Vec<Cell>>) -> (r: bool)
    ensures
        r == has_many_levels(geodata::layers_seen(cells@)),
{
    let ghost model = geodata::layers_seen(cells@);
    let mut index: usize = 0;
    while index < cells.len()
        invariant
            index <= cells@.len(),
            model == geodata::layers_seen(cells@),
            forall|i: int| 0 <= i < index ==> (#[trigger] model[i]).len() <= 255,
        decreases cells.len() - index,
    {
        assert(model[index as int] == cells@[index as int]@);
        if cells[index].len() > 255 {
            return true;
        }
        index += 1;
    }
    false
}

/// Appends a block. Nothing is appended where the format cannot hold it.
pub fn write_block(output: &mut Vec<u8>, block: &Block, format: GeodataFormat) -> (r: Result<
    (),
    String,
>)
    ensures
        match r {
            Ok(()) => block_bytes(format, block@) matches Ok(more) && final(output)@ == old(
                output,
            )@ + more,
            Err(message) => block_bytes(format, block@) == Err::<Seq<u8>, Seq<char>>(message@)
                && final(output)@ == old(output)@,
        },
{
    let ghost start = output@;
    match format {
        GeodataFormat::L2j | GeodataFormat::L2g => {
            match block {
                Block::Flat(cell) => {
                    output.push(0);
                    bytes::write_i16(output, cell.height_mask(true));
                    assert(output@ =~= start + (seq![0u8] + bytes::i16_bytes(cell.height)));
                },
                Block::Complex(cells) => {
                    output.push(1);
                    write_packed_cells(output, cells);
                    assert(output@ =~= start + (seq![1u8] + packed_cells(cells@)));
                },
                Block::MultiLevel(cells) => {
                    if exceeds_byte(cells) {
                        return Err("Camadas demais para L2J/L2G.".to_owned());
                    }
                    output.push(2);
                    write_layers(output, format, cells);
                    assert(output@ =~= start + (seq![2u8] + layers_bytes(
                        format,
                        geodata::layers_seen(cells@),
                    )));
                },
            }
            Ok(())
        },
        GeodataFormat::ConvDat => {
            match block {
                Block::Flat(cell) => {
                    bytes::write_i16(output, 0);
                    bytes::write_i16(output, cell.height_mask(true));
                    bytes::write_i16(output, geodata::encode_height_and_nswe(cell.lowest_height(), cell.nswe));
                    assert(output@ =~= start + (bytes::i16_bytes(0) + bytes::i16_bytes(cell.height) + bytes::i16_bytes(
                        geodata::packed_cell(geodata::lowest(*cell), cell.nswe),
                    )));
                },
                Block::Complex(cells) => {
                    bytes::write_i16(output, 64);
                    write_packed_cells(output, cells);
                    assert(output@ =~= start + (bytes::i16_bytes(64) + packed_cells(cells@)));
                },
                Block::MultiLevel(cells) => {
                    let size: usize = match conv_body_size(cells) {
                        Some(size) => size,
                        None => return Err("Bloco CONV_DAT muito grande.".to_owned()),
                    };
                    if size > i32::MAX as usize {
                        return Err("Bloco CONV_DAT muito grande.".to_owned());
                    }
                    if size > 32831 {
                        return Err("Tipo de bloco CONV_DAT inválido.".to_owned());
                    }
                    proof {
                        sizes_grow(geodata::layers_seen(cells@), 0);
                    }
                    bytes::write_i16(output, (size as i32 - 64) as i16);
                    write_layers(output, format, cells);
                    assert(output@ =~= start + (bytes::i16_bytes((size - 64) as i16) + layers_bytes(
                        format,
                        geodata::layers_seen(cells@),
                    )));
                },
            }
            Ok(())
        },
        _ => Err("Formato de saída geodata não suportado.".to_owned()),
    }
}

proof fn levels_grow(cells: Seq<Seq<Cell>>, i: int)
    requires
        0 <= i <= cells.len(),
    ensures
        0 <= level_count(cells.take(i)) <= level_count(cells),
    decreases cells.len(),
{
    if i < cells.len() {
        levels_grow(cells.drop_last(), i);
        assert(cells.drop_last().take(i) =~= cells.take(i));
    } else {
        assert(cells.take(i) =~= cells);
        if cells.len() > 0 {
            levels_grow(cells.drop_last(), cells.len() - 1);
            assert(cells.drop_last().take(cells.len() - 1) =~= cells.drop_last());
        }
    }
}

proof fn counts_grow(blocks: Seq<BlockModel>, i: int)
    requires
        0 <= i <= blocks.len(),
    ensures
        0 <= region_counts(blocks.take(i)).0 <= region_counts(blocks).0,
        0 <= region_counts(blocks.take(i)).2 <= region_counts(blocks.take(i)).1 <= i,
    decreases blocks.len(),
{
    if blocks.len() > 0 {
        if blocks.last() is MultiLevel {
            let cells = blocks.last()->MultiLevel_0;
            levels_grow(cells, 0);
        }
        counts_grow(blocks.drop_last(), if i < blocks.len() { i } else { i - 1 });
        if i < blocks.len() {
            assert(blocks.drop_last().take(i) =~= blocks.take(i));
        } else {
            assert(blocks.take(i) =~= blocks);
            assert(blocks.drop_last().take(i - 1) =~= blocks.drop_last());
        }
    } else {
        assert(blocks.take(i) =~= blocks);
    }
}

fn count_levels(cells: &Vec<Vec<Cell>>) -> (r: usize)
    requires
        level_count(geodata::layers_seen(cells@)) <= i32::MAX,
    ensures
        r == level_count(geodata::layers_seen(cells@)),
{
    let ghost model = geodata::layers_seen(cells@);
    let mut count: usize = 0;
    let mut index: usize = 0;
    assert(level_count(model.take(0)) == 0);
    while index < cells.len()
        invariant
            index <= cells@.len(),
            model == geodata::layers_seen(cells@),
            level_count(model) <= i32::MAX,
            count == level_count(model.take(index as int)),
        decreases cells.len() - index,
    {
        proof {
            levels_grow(model, index + 1);
            assert(model.take(index + 1).drop_last() =~= model.take(index as int));
            assert(model[index as int] == cells@[index as int]@);
        }
        count += cells[index].len();
        index += 1;
    }
    assert(model.take(cells@.len() as int) =~= model);
    count
}

impl Region {
    /// Whether the region has all its blocks and their levels can be counted.
    pub open spec fn wf(&self) -> bool {
        self.blocks@.len() == REGION_BLOCKS && region_counts(self@.blocks).0 <= i32::MAX
    }

    /// The numbers in the header of a CONV_DAT file.
    pub fn counts(&self) -> (r: (i32, i32, i32))
        requires
            self.wf(),
        ensures
            r.0 == region_counts(self@.blocks).0,
            r.1 == region_counts(self@.blocks).1,
            r.2 == region_counts(self@.blocks).2,
    {
        let ghost model = self@.blocks;
        let mut flat: i32 = 0;
        let mut single: i32 = 0;
        let mut cells: i32 = 0;
        let mut index: usize = 0;
        assert(region_counts(model.take(0)) == (0int, 0int, 0int));
        while index < REGION_BLOCKS
            invariant
                index <= REGION_BLOCKS,
                self.wf(),
                model == self@.blocks,
                (cells as int, single as int, flat as int) == region_counts(model.take(index as int)),
            decreases REGION_BLOCKS - index,
        {
            proof {
                counts_grow(model, index as int);
                counts_grow(model, index + 1);
                assert(model.take(index + 1).drop_last() =~= model.take(index as int));
                assert(model.take(index + 1).last() == self.blocks@[index as int]@);
            }
            match &self.blocks[index] {
                Block::Flat(_) => {
                    flat += 1;
                    single += 1;
                },
                Block::Complex(entries) => {
                    single += 1;
                    cells += entries.len() as i32;
                },
                Block::MultiLevel(entries) => {
                    cells += count_levels(entries) as i32;
                },
            }
            index += 1;
        }
        assert(model.take(REGION_BLOCKS as int) =~= model);
        (cells, single, flat)
    }
}

pub proof fn levels_are_few(cells: Seq<Seq<Cell>>)
    requires
        forall|i: int| 0 <= i < cells.len() ==> 1 <= (#[trigger] cells[i]).len() <= 255,
    ensures
        level_count(cells) <= 255 * cells.len(),
        4 * cells.len() <= body_size(cells) <= 512 * cells.len(),
    decreases cells.len(),
{
    if cells.len() > 0 {
        levels_are_few(cells.drop_last());
    }
}

proof fn counts_are_few(blocks: Seq<BlockModel>)
    requires
        forall|i: int| 0 <= i < blocks.len() ==> geodata::is_whole_block(#[trigger] blocks[i]),
    ensures
        region_counts(blocks).0 <= 16320 * blocks.len(),
    decreases blocks.len(),
{
    if blocks.len() > 0 {
        counts_are_few(blocks.drop_last());
        assert(geodata::is_whole_block(blocks[blocks.len() - 1]));
        if blocks.last() is MultiLevel {
            levels_are_few(blocks.last()->MultiLevel_0);
        }
    }
}

/// The levels of a whole region can be counted, so it can be written.
pub proof fn whole_regions_are_countable(region: Region)
    requires
        geodata::is_whole_region(region@),
    ensures
        region.wf(),
{
    counts_are_few(region@.blocks);
}

proof fn written_error_spreads(format: GeodataFormat, blocks: Seq<BlockModel>, i: nat, n: nat)
    requires
        i <= n,
        blocks_bytes(format, blocks, i) is Err,
    ensures
        blocks_bytes(format, blocks, n) == blocks_bytes(format, blocks, i),
    decreases n,
{
    if i < n {
        written_error_spreads(format, blocks, i, (n - 1) as nat);
    }
}

fn write_blocks(output: &mut Vec<u8>, blocks: &Vec<Block>, format: GeodataFormat) -> (r: Result<
    (),
    String,
>)
    ensures
        match r {
            Ok(()) => blocks_bytes(format, geodata::blocks_seen(blocks@), blocks@.len()) matches Ok(more)
                && final(output)@ == old(output)@ + more,
            Err(message) => blocks_bytes(format, geodata::blocks_seen(blocks@), blocks@.len()) == Err::<
                Seq<u8>,
                Seq<char>,
            >(message@),
        },
{
    let ghost start = output@;
    let ghost model = geodata::blocks_seen(blocks@);
    let mut index: usize = 0;
    assert(output@ =~= start + Seq::<u8>::empty());
    while index < blocks.len()
        invariant
            index <= blocks@.len(),
            model == geodata::blocks_seen(blocks@),
            blocks_bytes(format, model, index as nat) matches Ok(more) && output@ == start + more,
        decreases blocks.len() - index,
    {
        let ghost before = blocks_bytes(format, model, index as nat)->Ok_0;
        assert(model[index as int] == blocks@[index as int]@);
        match write_block(output, &blocks[index], format) {
            Ok(()) => {
                proof {
                    let more = block_bytes(format, model[index as int])->Ok_0;
                    assert(output@ =~= start + (before + more));
                }
            },
            Err(message) => {
                proof {
                    written_error_spreads(
                        format,
                        model,
                        (index + 1) as nat,
                        blocks@.len(),
                    );
                }
                return Err(message);
            },
        }
        index += 1;
    }
    Ok(())
}

/// A number with its bits moved up by 13 places, those at the top to the
/// bottom.
pub open spec fn rotated_left_13(v: u32) -> u32 {
    (v % 0x8_0000 * 8192 + v / 0x8_0000) as u32
}

/// The key of an L2G file, from the clock, the process and the region.
pub open spec fn l2g_key_of(nanoseconds: u32, process: u32, x: i32, y: i32) -> u32 {
    rotated_left_13(
        nanoseconds ^ process ^ ((bytes::bits_of(x) % 65536 * 65536) as u32) ^ bytes::bits_of(y),
    ) ^ 0xa5c3_17d9u32
}

/// Mixes what the application knows of the moment into a key.
pub fn l2g_key(nanoseconds: u32, process: u32, x: i32, y: i32) -> (r: u32)
    ensures
        r == l2g_key_of(nanoseconds, process, x, y),
{
    let high: u32 = bytes::i32_bits(x) % 65536 * 65536;
    let seed: u32 = nanoseconds ^ process ^ high ^ bytes::i32_bits(y);
    (seed % 0x8_0000 * 8192 + seed / 0x8_0000) ^ 0xa5c3_17d9u32
}

/// Encrypts the blocks of a region and puts the key in front.
pub fn encrypt_l2g(data: &[u8], key: u32) -> (r: Vec<u8>)
    ensures
        r@ == geodata_region::be32(key) + geodata_region::chained(data@, geodata_region::folded(GEO_CHECKSUM ^ key)),
{
    let ghost mask = geodata_region::folded(GEO_CHECKSUM ^ key);
    let mut output: Vec<u8> = Vec::new();
    output.push((key / 16777216) as u8);
    output.push((key / 65536 % 256) as u8);
    output.push((key / 256 % 256) as u8);
    output.push((key % 256) as u8);
    let mut xor_byte: u8 = geodata_region::checksum_byte(GEO_CHECKSUM ^ key);
    let mut index: usize = 0;
    assert(output@ =~= geodata_region::be32(key) + geodata_region::chained(data@, mask).take(0));
    while index < data.len()
        invariant
            index <= data@.len(),
            output@ == geodata_region::be32(key) + geodata_region::chained(data@, mask).take(index as int),
            xor_byte == if index == 0 {
                mask
            } else {
                data@[index - 1]
            },
        decreases data.len() - index,
    {
        let byte: u8 = data[index];
        output.push(byte ^ xor_byte);
        xor_byte = byte;
        assert(output@ =~= geodata_region::be32(key) + geodata_region::chained(data@, mask).take(index + 1));
        index += 1;
    }
    assert(geodata_region::chained(data@, mask).take(data@.len() as int) =~= geodata_region::chained(data@, mask));
    output
}

fn low_byte(v: i32) -> (r: u8)
    ensures
        r == v as int % 256,
{
    ((v as i64 + 0x8000_0000) % 256) as u8
}

/// Writes a region as a file. `key` encrypts an L2G file and is of no account
/// in the other formats.
pub fn write_region(region: &Region, format: GeodataFormat, key: u32) -> (r: Result<
    Vec<u8>,
    String,
>)
    requires
        region.wf(),
    ensures
        match r {
            Ok(data) => region_file(format, region@, key) == Ok::<Seq<u8>, Seq<char>>(data@),
            Err(message) => region_file(format, region@, key) == Err::<Seq<u8>, Seq<char>>(
                message@,
            ),
        },
{
    let mut data: Vec<u8> = Vec::new();
    if matches!(format, GeodataFormat::ConvDat) {
        let (cells, single, flat) = region.counts();
        data.push(low_byte(region.x));
        data.push(low_byte(region.y));
        bytes::write_i16(&mut data, 128);
        bytes::write_i16(&mut data, 16);
        bytes::write_i32(&mut data, cells);
        bytes::write_i32(&mut data, single);
        bytes::write_i32(&mut data, flat);
        assert(data@ =~= conv_header(region@));
    }
    let ghost header = data@;
    write_blocks(&mut data, &region.blocks, format)?;
    if matches!(format, GeodataFormat::L2g) {
        assert(data@ =~= blocks_bytes(format, region@.blocks, region@.blocks.len())->Ok_0);
        return Ok(encrypt_l2g(data.as_slice(), key));
    }
    assert(format != GeodataFormat::ConvDat ==> data@ =~= blocks_bytes(
        format,
        region@.blocks,
        region@.blocks.len(),
    )->Ok_0);
    Ok(data)
}

} // verus!
