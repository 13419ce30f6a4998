//! What holds of the files of geodata regions, byte by byte.

use vstd::prelude::*;
use crate::geodata::{BlockModel, Cell, GeodataFormat, RegionModel};
use crate::bytes;
use crate::geodata_region;
use crate::geodata_writer;

verus! {

proof fn same_blocks_in_both(blocks: Seq<BlockModel>, n: nat)
    requires
        n <= blocks.len(),
    ensures
        geodata_writer::blocks_bytes(GeodataFormat::L2g, blocks, n)
            == geodata_writer::blocks_bytes(GeodataFormat::L2j, blocks, n),
    decreases n,
{
    if n > 0 {
        same_blocks_in_both(blocks, (n - 1) as nat);
        let b = blocks[n - 1];
        if let BlockModel::MultiLevel(cells) = b {
            same_layers_in_both(cells);
        }
    }
}

proof fn same_layers_in_both(cells: Seq<Seq<Cell>>)
    ensures
        geodata_writer::layers_bytes(GeodataFormat::L2g, cells)
            == geodata_writer::layers_bytes(GeodataFormat::L2j, cells),
    decreases cells.len(),
{
    if cells.len() > 0 {
        same_layers_in_both(cells.drop_last());
    }
}

proof fn folded_parts(key: u32)
    ensures
        geodata_region::folded(2168537515u32 ^ key) == 42u8 ^ ((key / 16777216) as u8) ^ ((key
            / 65536 % 256) as u8) ^ ((key / 256 % 256) as u8) ^ ((key % 256) as u8),
{
    assert((((2168537515u32 ^ key) / 16777216) as u8) ^ (((2168537515u32 ^ key) / 65536 % 256) as u8)
        ^ (((2168537515u32 ^ key) / 256 % 256) as u8) ^ (((2168537515u32 ^ key) % 256) as u8)
        == 42u8 ^ ((key / 16777216) as u8) ^ ((key / 65536 % 256) as u8) ^ ((key / 256 % 256) as u8)
        ^ ((key % 256) as u8)) by (bit_vector);
}

/// An L2G file is the L2J file of the same region, encrypted: the key stands in front,
/// its highest byte first. The first byte behind it is combined with the four bytes of
/// the key and a constant, every other byte with the one before it in the L2J file.
#[verifier::spinoff_prover]
pub proof fn l2g_files_are_encrypted_l2j_files(region: RegionModel, key: u32, other: u32)
    ensures
        ({
            let plain = geodata_writer::region_file(GeodataFormat::L2j, region, other);
            let closed = geodata_writer::region_file(GeodataFormat::L2g, region, key);
            &&& plain is Err ==> closed == plain
            &&& plain matches Ok(a) ==> {
                &&& closed matches Ok(b)
                &&& b.len() == a.len() + 4
                &&& 16777216 * b[0] + 65536 * b[1] + 256 * b[2] + b[3] == key
                &&& a.len() > 0 ==> b[4] == a[0] ^ (42u8 ^ b[0] ^ b[1] ^ b[2] ^ b[3])
                &&& forall|i: int| 0 < i < a.len() ==> #[trigger] b[4 + i] == a[i] ^ a[i - 1]
            }
        }),
{
    same_blocks_in_both(region.blocks, region.blocks.len());
    folded_parts(key);
}

proof fn server_checksum()
    ensures
        geodata_region::address_checksum(geodata_region::local_address()) == 1228972214u32,
{
    let a = geodata_region::local_address();
    assert(2168537515u32 ^ 49u32 == 2168537498u32 &&
        1084268749u32 ^ 50u32 == 1084268799u32 &&
        2689618047u32 ^ 55u32 == 2689617992u32 &&
        1344808996u32 ^ 46u32 == 1344808970u32 &&
        672404485u32 ^ 48u32 == 672404533u32 &&
        2483685914u32 ^ 46u32 == 2483685940u32 &&
        1241842970u32 ^ 48u32 == 1241842986u32 &&
        620921493u32 ^ 46u32 == 620921531u32 &&
        2457944413u32 ^ 49u32 == 2457944428u32) by (bit_vector);
    assert(a.take(0).len() == 0);
    assert(geodata_region::address_checksum(a.take(0)) == 2168537515u32);
    assert(a.take(1).drop_last() =~= a.take(0));
    assert(geodata_region::address_checksum(a.take(1)) == 1084268749u32);
    assert(a.take(2).drop_last() =~= a.take(1));
    assert(geodata_region::address_checksum(a.take(2)) == 2689618047u32);
    assert(a.take(3).drop_last() =~= a.take(2));
    assert(geodata_region::address_checksum(a.take(3)) == 1344808996u32);
    assert(a.take(4).drop_last() =~= a.take(3));
    assert(geodata_region::address_checksum(a.take(4)) == 672404485u32);
    assert(a.take(5).drop_last() =~= a.take(4));
    assert(geodata_region::address_checksum(a.take(5)) == 2483685914u32);
    assert(a.take(6).drop_last() =~= a.take(5));
    assert(geodata_region::address_checksum(a.take(6)) == 1241842970u32);
    assert(a.take(7).drop_last() =~= a.take(6));
    assert(geodata_region::address_checksum(a.take(7)) == 620921493u32);
    assert(a.take(8).drop_last() =~= a.take(7));
    assert(geodata_region::address_checksum(a.take(8)) == 2457944413u32);
    assert(a.take(9).drop_last() =~= a.take(8));
    assert(geodata_region::address_checksum(a.take(9)) == 1228972214u32);
    assert(a.take(9) =~= a);
}

proof fn folded_server_parts(key: u32)
    ensures
        geodata_region::folded(1228972214u32 ^ key) == 31u8 ^ ((key / 16777216) as u8) ^ ((key / 65536
            % 256) as u8) ^ ((key / 256 % 256) as u8) ^ ((key % 256) as u8),
{
    assert((((1228972214u32 ^ key) / 16777216) as u8) ^ (((1228972214u32 ^ key) / 65536 % 256) as u8)
        ^ (((1228972214u32 ^ key) / 256 % 256) as u8) ^ (((1228972214u32 ^ key) % 256) as u8) == 31u8 ^ ((key
        / 16777216) as u8) ^ ((key / 65536 % 256) as u8) ^ ((key / 256 % 256) as u8) ^ ((key % 256)
        as u8)) by (bit_vector);
}

proof fn unchained_bytes(data: Seq<u8>, key: u8, i: int)
    ensures
        ({
            let plain = geodata_region::unchained(data, key);
            &&& plain.len() == data.len()
            &&& 0 <= i < data.len() ==> plain[i] == data[i] ^ if i == 0 {
                key
            } else {
                plain[i - 1]
            }
        }),
    decreases data.len(),
{
    if data.len() > 0 {
        unchained_bytes(data.drop_last(), key, i);
    }
}

/// An encrypted file is opened byte by byte: the key in front stays. The first byte behind
/// it is combined with the four bytes of the key and a constant of the format, every other
/// byte with the opened one before it.
#[verifier::spinoff_prover]
pub proof fn encrypted_files_are_opened(format: GeodataFormat, d: Seq<u8>, i: int)
    requires
        format == GeodataFormat::L2g || format == GeodataFormat::L2s,
        4 <= i < d.len(),
    ensures
        ({
            let constant = if format == GeodataFormat::L2g {
                42u8
            } else {
                31u8
            };
            &&& geodata_region::opened_geodata(format, d) matches Ok(plain)
            &&& plain.len() == d.len()
            &&& plain.take(4) == d.take(4)
            &&& plain[i] == d[i] ^ if i == 4 {
                constant ^ d[0] ^ d[1] ^ d[2] ^ d[3]
            } else {
                plain[i - 1]
            }
        }),
{
    let key = geodata_region::u32_of_be(d.take(4));
    assert(d.take(4)[0] == d[0] && d.take(4)[1] == d[1]);
    assert(d.take(4)[2] == d[2] && d.take(4)[3] == d[3]);
    assert(key / 16777216 == d[0]);
    assert(key / 65536 % 256 == d[1]);
    assert(key / 256 % 256 == d[2]);
    assert(key % 256 == d[3]);
    server_checksum();
    folded_parts(key);
    folded_server_parts(key);
    let mask = if format == GeodataFormat::L2g {
        geodata_region::folded(2168537515u32 ^ key)
    } else {
        geodata_region::folded(1228972214u32 ^ key)
    };
    let plain = geodata_region::opened_geodata(format, d)->Ok_0;
    unchained_bytes(d.skip(4), mask, i - 4);
    unchained_bytes(d.skip(4), mask, 0);
    assert(plain.take(4) =~= d.take(4));
}

/// Other files are not encrypted.
pub proof fn other_files_are_open(format: GeodataFormat, d: Seq<u8>)
    requires
        format != GeodataFormat::L2g,
        format != GeodataFormat::L2s,
    ensures
        geodata_region::opened_geodata(format, d) == Ok::<Seq<u8>, Seq<char>>(d),
{
}

/// The number of blocks of a kind.
pub open spec fn blocks_such(blocks: Seq<BlockModel>, such: spec_fn(BlockModel) -> bool) -> int
    decreases blocks.len(),
{
    if blocks.len() == 0 {
        0
    } else {
        blocks_such(blocks.skip(1), such) + if such(blocks[0]) {
            1int
        } else {
            0
        }
    }
}

/// The number of levels in blocks that are not flat.
pub open spec fn levels_in_blocks(blocks: Seq<BlockModel>) -> int
    decreases blocks.len(),
{
    if blocks.len() == 0 {
        0
    } else {
        levels_in_blocks(blocks.skip(1)) + match blocks[0] {
            BlockModel::Flat(_) => 0,
            BlockModel::Complex(cells) => cells.len() as int,
            BlockModel::MultiLevel(cells) => levels_in_cells(cells),
        }
    }
}

pub open spec fn levels_in_cells(cells: Seq<Seq<Cell>>) -> int
    decreases cells.len(),
{
    if cells.len() == 0 {
        0
    } else {
        levels_in_cells(cells.skip(1)) + cells[0].len()
    }
}

proof fn levels_in_cells_from_behind(cells: Seq<Seq<Cell>>)
    ensures
        levels_in_cells(cells) == geodata_writer::level_count(cells),
    decreases cells.len(),
{
    if cells.len() > 0 {
        levels_in_cells_with_last(cells.drop_last(), cells.last());
        levels_in_cells_from_behind(cells.drop_last());
        assert(cells.drop_last().push(cells.last()) =~= cells);
    }
}

proof fn levels_in_cells_with_last(cells: Seq<Seq<Cell>>, last: Seq<Cell>)
    ensures
        levels_in_cells(cells.push(last)) == levels_in_cells(cells) + last.len(),
    decreases cells.len(),
{
    if cells.len() > 0 {
        levels_in_cells_with_last(cells.skip(1), last);
        assert(cells.push(last).skip(1) =~= cells.skip(1).push(last));
    } else {
        assert(cells.push(last).skip(1) =~= cells);
        reveal_with_fuel(levels_in_cells, 2);
    }
}

proof fn counts_with_last(blocks: Seq<BlockModel>, last: BlockModel, such: spec_fn(BlockModel) -> bool)
    ensures
        blocks_such(blocks.push(last), such) == blocks_such(blocks, such) + if such(last) {
            1int
        } else {
            0
        },
        levels_in_blocks(blocks.push(last)) == levels_in_blocks(blocks)
            + geodata_writer::block_cells(last),
    decreases blocks.len(),
{
    if blocks.len() > 0 {
        counts_with_last(blocks.skip(1), last, such);
        assert(blocks.push(last).skip(1) =~= blocks.skip(1).push(last));
    } else {
        assert(blocks.push(last).skip(1) =~= blocks);
        reveal_with_fuel(blocks_such, 2);
        reveal_with_fuel(levels_in_blocks, 2);
        if let BlockModel::MultiLevel(cells) = last {
            levels_in_cells_from_behind(cells);
        }
    }
}

proof fn counts_are_counts(blocks: Seq<BlockModel>)
    ensures
        geodata_writer::region_counts(blocks) == (
            levels_in_blocks(blocks),
            blocks_such(blocks, |b: BlockModel| !(b is MultiLevel)),
            blocks_such(blocks, |b: BlockModel| b is Flat),
        ),
    decreases blocks.len(),
{
    if blocks.len() > 0 {
        counts_are_counts(blocks.drop_last());
        assert(blocks.drop_last().push(blocks.last()) =~= blocks);
        counts_with_last(blocks.drop_last(), blocks.last(), |b: BlockModel| !(b is MultiLevel));
        counts_with_last(blocks.drop_last(), blocks.last(), |b: BlockModel| b is Flat);
    }
}

/// Whether four bytes hold a number that is not negative: the lowest part first.
pub open spec fn holds_count(d: Seq<u8>, p: int, value: int) -> bool {
    d[p] + 256 * d[p + 1] + 65536 * d[p + 2] + 16777216 * d[p + 3] == value
}

/// A CONV_DAT file starts with the coordinates of the region, the numbers 128 and 16, and
/// the numbers of levels outside flat blocks, of blocks of one level and of flat blocks.
#[verifier::spinoff_prover]
pub proof fn conv_dat_files_start_with_counts(region: RegionModel, key: u32)
    requires
        0 <= region.x < 256,
        0 <= region.y < 256,
        levels_in_blocks(region.blocks) <= i32::MAX,
        blocks_such(region.blocks, |b: BlockModel| !(b is MultiLevel)) <= i32::MAX,
        blocks_such(region.blocks, |b: BlockModel| b is Flat) <= i32::MAX,
    ensures
        geodata_writer::region_file(GeodataFormat::ConvDat, region, key) matches Ok(b) ==> {
            &&& b.len() >= 18
            &&& b[0] == region.x
            &&& b[1] == region.y
            &&& b[2] == 128 && b[3] == 0
            &&& b[4] == 16 && b[5] == 0
            &&& holds_count(b, 6, levels_in_blocks(region.blocks))
            &&& holds_count(b, 10, blocks_such(region.blocks, |b: BlockModel| !(b is MultiLevel)))
            &&& holds_count(b, 14, blocks_such(region.blocks, |b: BlockModel| b is Flat))
        },
{
    counts_are_counts(region.blocks);
    counts_are_natural(region.blocks, |b: BlockModel| !(b is MultiLevel));
    counts_are_natural(region.blocks, |b: BlockModel| b is Flat);
    if let Ok(b) = geodata_writer::region_file(GeodataFormat::ConvDat, region, key) {
        let (cells, single, flat) = geodata_writer::region_counts(region.blocks);
        let h = geodata_writer::conv_header(region);
        assert(h.len() == 18);
        assert forall|i: int| 0 <= i < 18 implies b[i] == h[i] by {}
        split_number(cells);
        split_number(single);
        split_number(flat);
        assert(h[6] == bytes::i32_bytes(cells as i32)[0]);
        assert(h[7] == bytes::i32_bytes(cells as i32)[1]);
        assert(h[8] == bytes::i32_bytes(cells as i32)[2]);
        assert(h[9] == bytes::i32_bytes(cells as i32)[3]);
        assert(h[10] == bytes::i32_bytes(single as i32)[0]);
        assert(h[11] == bytes::i32_bytes(single as i32)[1]);
        assert(h[12] == bytes::i32_bytes(single as i32)[2]);
        assert(h[13] == bytes::i32_bytes(single as i32)[3]);
        assert(h[14] == bytes::i32_bytes(flat as i32)[0]);
        assert(h[15] == bytes::i32_bytes(flat as i32)[1]);
        assert(h[16] == bytes::i32_bytes(flat as i32)[2]);
        assert(h[17] == bytes::i32_bytes(flat as i32)[3]);
    }
}

proof fn split_number(v: int)
    requires
        0 <= v <= i32::MAX,
    ensures
        ({
            let b = bytes::i32_bytes(v as i32);
            b.len() == 4 && b[0] + 256 * b[1] + 65536 * b[2] + 16777216 * b[3] == v
        }),
{
}

proof fn counts_are_natural(blocks: Seq<BlockModel>, such: spec_fn(BlockModel) -> bool)
    ensures
        0 <= blocks_such(blocks, such),
        0 <= levels_in_blocks(blocks),
    decreases blocks.len(),
{
    if blocks.len() > 0 {
        counts_are_natural(blocks.skip(1), such);
        if let BlockModel::MultiLevel(cells) = blocks[0] {
            levels_are_natural(cells);
        }
    }
}

proof fn levels_are_natural(cells: Seq<Seq<Cell>>)
    ensures
        0 <= levels_in_cells(cells),
    decreases cells.len(),
{
    if cells.len() > 0 {
        levels_are_natural(cells.skip(1));
    }
}

/// The number of bytes of the first `n` blocks.
pub open spec fn blocks_size(format: GeodataFormat, blocks: Seq<BlockModel>, n: int) -> int
    decreases n,
{
    if n <= 0 {
        0
    } else {
        blocks_size(format, blocks, n - 1) + geodata_writer::block_bytes(
            format,
            blocks[n - 1],
        )->Ok_0.len()
    }
}

proof fn blocks_stand_in_turn(format: GeodataFormat, blocks: Seq<BlockModel>, n: nat, i: int)
    requires
        0 <= i < n <= blocks.len(),
        geodata_writer::blocks_bytes(format, blocks, n) is Ok,
    ensures
        ({
            let all = geodata_writer::blocks_bytes(format, blocks, n)->Ok_0;
            let at = blocks_size(format, blocks, i);
            &&& all.len() == blocks_size(format, blocks, n as int)
            &&& geodata_writer::block_bytes(format, blocks[i]) matches Ok(one)
            &&& 0 <= at && at + one.len() <= all.len()
            &&& all.subrange(at, at + one.len()) == one
        }),
    decreases n,
{
    let m = (n - 1) as nat;
    let before = geodata_writer::blocks_bytes(format, blocks, m)->Ok_0;
    let all = geodata_writer::blocks_bytes(format, blocks, n)->Ok_0;
    let at = blocks_size(format, blocks, i);
    blocks_have_size(format, blocks, m);
    let one = geodata_writer::block_bytes(format, blocks[i])->Ok_0;
    if i < m {
        blocks_stand_in_turn(format, blocks, m, i);
    }
    assert(all.subrange(at, at + one.len()) =~= one) by {
        if i < m {
            assert forall|k: int| 0 <= k < one.len() implies all[at + k] == one[k] by {
                assert(all[at + k] == before[at + k]);
                assert(before.subrange(at, at + one.len())[k] == one[k]);
            }
        }
    }
}

proof fn blocks_have_size(format: GeodataFormat, blocks: Seq<BlockModel>, n: nat)
    requires
        n <= blocks.len(),
        geodata_writer::blocks_bytes(format, blocks, n) is Ok,
    ensures
        geodata_writer::blocks_bytes(format, blocks, n)->Ok_0.len() == blocks_size(
            format,
            blocks,
            n as int,
        ),
    decreases n,
{
    if n > 0 {
        blocks_have_size(format, blocks, (n - 1) as nat);
    }
}

/// In a written file the blocks of a region stand in turn, each behind those before it;
/// in a CONV_DAT file 18 bytes stand in front of the first.
pub proof fn written_blocks_stand_in_turn(
    format: GeodataFormat,
    region: RegionModel,
    key: u32,
    i: int,
)
    requires
        format == GeodataFormat::L2j || format == GeodataFormat::ConvDat,
        0 <= i < region.blocks.len(),
        geodata_writer::region_file(format, region, key) is Ok,
    ensures
        ({
            let file = geodata_writer::region_file(format, region, key)->Ok_0;
            let start = if format == GeodataFormat::ConvDat {
                18int
            } else {
                0
            };
            let at = start + blocks_size(format, region.blocks, i);
            &&& file.len() == start + blocks_size(format, region.blocks, region.blocks.len() as int)
            &&& geodata_writer::block_bytes(format, region.blocks[i]) matches Ok(one)
            &&& start <= at && at + one.len() <= file.len()
            &&& file.subrange(at, at + one.len()) == one
        }),
{
    let file = geodata_writer::region_file(format, region, key)->Ok_0;
    let n = region.blocks.len();
    blocks_stand_in_turn(format, region.blocks, n, i);
    let body = geodata_writer::blocks_bytes(format, region.blocks, n)->Ok_0;
    let one = geodata_writer::block_bytes(format, region.blocks[i])->Ok_0;
    if format == GeodataFormat::ConvDat {
        let at = blocks_size(format, region.blocks, i);
        assert(geodata_writer::conv_header(region).len() == 18);
        assert(file.subrange(18 + at, 18 + at + one.len()) =~= body.subrange(at, at + one.len()));
    }
}

} // verus!
