//! What reading a written region gives back.

use vstd::prelude::*;
use crate::geodata::{BlockKind, BlockModel, Cell, GeodataFormat, RegionModel, GEO_CHECKSUM, NSWE_ALL};
use crate::bytes;
use crate::geodata;
use crate::geodata_plan;
use crate::geodata_region;
use crate::geodata_writer;
use crate::metadata_laws;
use crate::paths;
use crate::text;

verus! {

/// A level as it comes back from its packed form.
pub open spec fn stored_cell(c: Cell) -> Cell {
    geodata::unpacked(geodata::packed_cell(c.height, c.nswe))
}

pub open spec fn stored_cells(cells: Seq<Cell>) -> Seq<Cell> {
    Seq::new(cells.len(), |i: int| stored_cell(cells[i]))
}

pub open spec fn stored_layers(cells: Seq<Seq<Cell>>) -> Seq<Seq<Cell>> {
    Seq::new(cells.len(), |i: int| stored_cells(cells[i]))
}

/// A block as it comes back from an output format. A flat block keeps its
/// height; the other cells keep their heights in steps of eight.
pub open spec fn stored_block(format: GeodataFormat, b: BlockModel) -> BlockModel {
    match b {
        BlockModel::Flat(c) => BlockModel::Flat(
            Cell {
                height: c.height,
                min_height: if format == GeodataFormat::ConvDat {
                    Some(geodata::packed_cell(geodata::lowest(c), c.nswe))
                } else {
                    None
                },
                nswe: NSWE_ALL,
            },
        ),
        BlockModel::Complex(cells) => BlockModel::Complex(stored_cells(cells)),
        BlockModel::MultiLevel(cells) => BlockModel::MultiLevel(stored_layers(cells)),
    }
}

pub open spec fn stored_blocks(format: GeodataFormat, blocks: Seq<BlockModel>) -> Seq<BlockModel> {
    Seq::new(blocks.len(), |i: int| stored_block(format, blocks[i]))
}

proof fn part_of(d: Seq<u8>, p: int, a: Seq<u8>, b: Seq<u8>)
    requires
        0 <= p,
        p + a.len() + b.len() <= d.len(),
        d.subrange(p, p + a.len() + b.len()) == a + b,
    ensures
        d.subrange(p, p + a.len()) == a,
        d.subrange(p + a.len(), p + a.len() + b.len()) == b,
{
    let whole = d.subrange(p, p + a.len() + b.len());
    assert(d.subrange(p, p + a.len()) =~= whole.subrange(0, a.len() as int));
    assert((a + b).subrange(0, a.len() as int) =~= a);
    assert(d.subrange(p + a.len(), p + a.len() + b.len()) =~= whole.subrange(
        a.len() as int,
        (a.len() + b.len()) as int,
    ));
    assert((a + b).subrange(a.len() as int, (a.len() + b.len()) as int) =~= b);
}

proof fn packed_length(cells: Seq<Cell>)
    ensures
        geodata_writer::packed_cells(cells).len() == 2 * cells.len(),
    decreases cells.len(),
{
    if cells.len() > 0 {
        packed_length(cells.drop_last());
    }
}

proof fn cells_are_read_back(format: GeodataFormat, d: Seq<u8>, p: int, cells: Seq<Cell>)
    requires
        !geodata::is_unpacked_format(format),
        0 <= p,
        p + 2 * cells.len() <= d.len() <= usize::MAX,
        d.subrange(p, p + 2 * cells.len()) == geodata_writer::packed_cells(cells),
    ensures
        geodata::cells_from(format, d, p, cells.len()) == Ok::<(Seq<Cell>, int), Seq<char>>(
            (stored_cells(cells), p + 2 * cells.len()),
        ),
    decreases cells.len(),
{
    packed_length(cells);
    if cells.len() > 0 {
        let body = cells.drop_last();
        let c = cells.last();
        packed_length(body);
        part_of(d, p, geodata_writer::packed_cells(body), bytes::i16_bytes(geodata::height_mask_of(c, false)));
        cells_are_read_back(format, d, p, body);
        bytes::integers_round_trip(geodata::height_mask_of(c, false), 0, 0, 0);
        assert(stored_cells(cells) =~= stored_cells(body).push(stored_cell(c)));
    } else {
        assert(stored_cells(cells) =~= Seq::empty());
    }
}

proof fn layers_length(format: GeodataFormat, cells: Seq<Seq<Cell>>)
    ensures
        format == GeodataFormat::ConvDat ==> geodata_writer::layers_bytes(format, cells).len() == geodata_writer::body_size(cells),
        geodata_writer::layers_bytes(format, cells).len() <= geodata_writer::body_size(cells),
    decreases cells.len(),
{
    if cells.len() > 0 {
        layers_length(format, cells.drop_last());
        packed_length(cells.last());
    }
}

proof fn layers_are_read_back(format: GeodataFormat, d: Seq<u8>, p: int, cells: Seq<Seq<Cell>>)
    requires
        geodata::is_output_format(format),
        0 <= p,
        p + geodata_writer::layers_bytes(format, cells).len() <= d.len() <= usize::MAX,
        d.subrange(p, p + geodata_writer::layers_bytes(format, cells).len()) == geodata_writer::layers_bytes(format, cells),
        forall|i: int| 0 <= i < cells.len() ==> 1 <= (#[trigger] cells[i]).len() <= 255,
    ensures
        geodata::layers_from(format, d, p, cells.len()) == Ok::<(Seq<Seq<Cell>>, int), Seq<char>>(
            (stored_layers(cells), p + geodata_writer::layers_bytes(format, cells).len()),
        ),
    decreases cells.len(),
{
    if cells.len() > 0 {
        let body = cells.drop_last();
        let layers = cells.last();
        let front = geodata_writer::layers_bytes(format, body);
        let count = geodata_writer::count_bytes(format, layers.len() as int);
        let rest = geodata_writer::packed_cells(layers);
        assert(1 <= cells[cells.len() - 1].len() <= 255);
        packed_length(layers);
        part_of(d, p, front, count + rest);
        part_of(d, p + front.len(), count, rest);
        layers_are_read_back(format, d, p, body);
        let q = p + front.len();
        if format == GeodataFormat::ConvDat {
            bytes::integers_round_trip(layers.len() as i16, 0, 0, 0);
        } else {
            assert(d[q] == d.subrange(q, q + 1)[0]);
        }
        assert(geodata::layer_count_at(format, d, q) == Ok::<(int, int), Seq<char>>(
            (layers.len() as int, q + count.len()),
        ));
        cells_are_read_back(format, d, q + count.len(), layers);
        assert(stored_layers(cells) =~= stored_layers(body).push(stored_cells(layers)));
    } else {
        assert(stored_layers(cells) =~= Seq::empty());
    }
}

/// The sizes of a whole block in the output formats.
proof fn whole_blocks_are_written(format: GeodataFormat, b: BlockModel)
    requires
        geodata::is_output_format(format),
        geodata::is_whole_block(b),
    ensures
        geodata_writer::block_bytes(format, b) is Ok,
        geodata_writer::block_bytes(format, b)->Ok_0.len() <= 32770,
{
    match b {
        BlockModel::Flat(_) => {},
        BlockModel::Complex(cells) => {
            packed_length(cells);
        },
        BlockModel::MultiLevel(cells) => {
            geodata_writer::levels_are_few(cells);
            layers_length(format, cells);
        },
    }
}

proof fn flat_is_read_back(format: GeodataFormat, d: Seq<u8>, p: int, b: BlockModel)
    requires
        geodata::is_output_format(format),
        geodata::is_whole_block(b),
        b is Flat,
        geodata_writer::block_bytes(format, b) is Ok,
        0 <= p,
        p + geodata_writer::block_bytes(format, b)->Ok_0.len() <= d.len() <= usize::MAX,
        d.subrange(p, p + geodata_writer::block_bytes(format, b)->Ok_0.len()) == geodata_writer::block_bytes(format, b)->Ok_0,
    ensures
        geodata::block_at(format, d, p) == Ok::<(BlockModel, int), Seq<char>>(
            (stored_block(format, b), p + geodata_writer::block_bytes(format, b)->Ok_0.len()),
        ),
{
    reveal(geodata::block_at);
    let c = b->Flat_0;
    let low = geodata::packed_cell(geodata::lowest(c), c.nswe);
    bytes::integers_round_trip(0, 0, 0, 0);
    bytes::integers_round_trip(c.height, 0, 0, 0);
    bytes::integers_round_trip(low, 0, 0, 0);
    if format == GeodataFormat::ConvDat {
        part_of(d, p, bytes::i16_bytes(0) + bytes::i16_bytes(c.height), bytes::i16_bytes(low));
        part_of(d, p, bytes::i16_bytes(0), bytes::i16_bytes(c.height));
        assert(geodata::kind_at(format, d, p) == Ok::<(BlockKind, int), Seq<char>>((BlockKind::Flat, p + 2)));
    } else {
        part_of(d, p, seq![0u8], bytes::i16_bytes(c.height));
        assert(d[p] == d.subrange(p, p + 1)[0]);
        assert(geodata::kind_at(format, d, p) == Ok::<(BlockKind, int), Seq<char>>((BlockKind::Flat, p + 1)));
    }
}

proof fn complex_is_read_back(format: GeodataFormat, d: Seq<u8>, p: int, b: BlockModel)
    requires
        geodata::is_output_format(format),
        geodata::is_whole_block(b),
        b is Complex,
        geodata_writer::block_bytes(format, b) is Ok,
        0 <= p,
        p + geodata_writer::block_bytes(format, b)->Ok_0.len() <= d.len() <= usize::MAX,
        d.subrange(p, p + geodata_writer::block_bytes(format, b)->Ok_0.len()) == geodata_writer::block_bytes(format, b)->Ok_0,
    ensures
        geodata::block_at(format, d, p) == Ok::<(BlockModel, int), Seq<char>>(
            (stored_block(format, b), p + geodata_writer::block_bytes(format, b)->Ok_0.len()),
        ),
{
    reveal(geodata::block_at);
    let cells = b->Complex_0;
    let body = geodata_writer::packed_cells(cells);
    bytes::integers_round_trip(64, 0, 0, 0);
    packed_length(cells);
    if format == GeodataFormat::ConvDat {
        part_of(d, p, bytes::i16_bytes(64), body);
        assert(geodata::kind_at(format, d, p) == Ok::<(BlockKind, int), Seq<char>>(
            (BlockKind::Complex, p + 2),
        ));
        cells_are_read_back(format, d, p + 2, cells);
    } else {
        part_of(d, p, seq![1u8], body);
        assert(d[p] == d.subrange(p, p + 1)[0]);
        assert(geodata::kind_at(format, d, p) == Ok::<(BlockKind, int), Seq<char>>(
            (BlockKind::Complex, p + 1),
        ));
        cells_are_read_back(format, d, p + 1, cells);
    }
}

proof fn multi_is_read_back(format: GeodataFormat, d: Seq<u8>, p: int, b: BlockModel)
    requires
        geodata::is_output_format(format),
        geodata::is_whole_block(b),
        b is MultiLevel,
        geodata_writer::block_bytes(format, b) is Ok,
        0 <= p,
        p + geodata_writer::block_bytes(format, b)->Ok_0.len() <= d.len() <= usize::MAX,
        d.subrange(p, p + geodata_writer::block_bytes(format, b)->Ok_0.len()) == geodata_writer::block_bytes(format, b)->Ok_0,
    ensures
        geodata::block_at(format, d, p) == Ok::<(BlockModel, int), Seq<char>>(
            (stored_block(format, b), p + geodata_writer::block_bytes(format, b)->Ok_0.len()),
        ),
{
    reveal(geodata::block_at);
    let cells = b->MultiLevel_0;
    let body = geodata_writer::layers_bytes(format, cells);
    geodata_writer::levels_are_few(cells);
    layers_length(format, cells);
    if format == GeodataFormat::ConvDat {
        let kind = (geodata_writer::body_size(cells) - 64) as i16;
        bytes::integers_round_trip(kind, 0, 0, 0);
        part_of(d, p, bytes::i16_bytes(kind), body);
        assert(geodata::kind_at(format, d, p) == Ok::<(BlockKind, int), Seq<char>>(
            (BlockKind::MultiLevel, p + 2),
        ));
        layers_are_read_back(format, d, p + 2, cells);
    } else {
        part_of(d, p, seq![2u8], body);
        assert(d[p] == d.subrange(p, p + 1)[0]);
        assert(geodata::kind_at(format, d, p) == Ok::<(BlockKind, int), Seq<char>>(
            (BlockKind::MultiLevel, p + 1),
        ));
        layers_are_read_back(format, d, p + 1, cells);
    }
}

proof fn blocks_are_read_back_at(format: GeodataFormat, d: Seq<u8>, p: int, b: BlockModel)
    requires
        geodata::is_output_format(format),
        geodata::is_whole_block(b),
        geodata_writer::block_bytes(format, b) is Ok,
        0 <= p,
        p + geodata_writer::block_bytes(format, b)->Ok_0.len() <= d.len() <= usize::MAX,
        d.subrange(p, p + geodata_writer::block_bytes(format, b)->Ok_0.len()) == geodata_writer::block_bytes(format, b)->Ok_0,
    ensures
        geodata::block_at(format, d, p) == Ok::<(BlockModel, int), Seq<char>>(
            (stored_block(format, b), p + geodata_writer::block_bytes(format, b)->Ok_0.len()),
        ),
{
    match b {
        BlockModel::Flat(_) => flat_is_read_back(format, d, p, b),
        BlockModel::Complex(_) => complex_is_read_back(format, d, p, b),
        BlockModel::MultiLevel(_) => multi_is_read_back(format, d, p, b),
    }
}

proof fn all_blocks_are_written(format: GeodataFormat, blocks: Seq<BlockModel>, n: nat)
    requires
        geodata::is_output_format(format),
        n <= blocks.len(),
        forall|i: int| 0 <= i < blocks.len() ==> geodata::is_whole_block(#[trigger] blocks[i]),
    ensures
        geodata_writer::blocks_bytes(format, blocks, n) is Ok,
        geodata_writer::blocks_bytes(format, blocks, n)->Ok_0.len() <= 32770 * n,
    decreases n,
{
    if n > 0 {
        all_blocks_are_written(format, blocks, (n - 1) as nat);
        assert(geodata::is_whole_block(blocks[n - 1]));
        whole_blocks_are_written(format, blocks[n - 1]);
    }
}

proof fn all_blocks_are_read_back(
    format: GeodataFormat,
    d: Seq<u8>,
    p: int,
    blocks: Seq<BlockModel>,
    n: nat,
)
    requires
        geodata::is_output_format(format),
        n <= blocks.len(),
        forall|i: int| 0 <= i < blocks.len() ==> geodata::is_whole_block(#[trigger] blocks[i]),
        geodata_writer::blocks_bytes(format, blocks, n) is Ok,
        0 <= p,
        p + geodata_writer::blocks_bytes(format, blocks, n)->Ok_0.len() <= d.len() <= usize::MAX,
        d.subrange(p, p + geodata_writer::blocks_bytes(format, blocks, n)->Ok_0.len()) == geodata_writer::blocks_bytes(
            format,
            blocks,
            n,
        )->Ok_0,
    ensures
        geodata::blocks_from(format, d, p, n) == Ok::<(Seq<BlockModel>, int), Seq<char>>(
            (
                stored_blocks(format, blocks.take(n as int)),
                p + geodata_writer::blocks_bytes(format, blocks, n)->Ok_0.len(),
            ),
        ),
    decreases n,
{
    if n > 0 {
        let b = blocks[n - 1];
        let front = geodata_writer::blocks_bytes(format, blocks, (n - 1) as nat)->Ok_0;
        let more = geodata_writer::block_bytes(format, b)->Ok_0;
        part_of(d, p, front, more);
        all_blocks_are_read_back(format, d, p, blocks, (n - 1) as nat);
        blocks_are_read_back_at(format, d, p + front.len(), b);
        assert(stored_blocks(format, blocks.take(n as int)) =~= stored_blocks(
            format,
            blocks.take(n - 1),
        ).push(stored_block(format, b)));
    } else {
        assert(stored_blocks(format, blocks.take(0)) =~= Seq::empty());
    }
}

/// Every whole region can be written in every output format.
pub proof fn whole_regions_are_written(format: GeodataFormat, region: RegionModel, key: u32)
    requires
        geodata::is_output_format(format),
        geodata::is_whole_region(region),
    ensures
        geodata_writer::region_file(format, region, key) is Ok,
{
    all_blocks_are_written(format, region.blocks, region.blocks.len());
}

/// A written region is read back: under its coordinates, with every block of
/// its kind, the flat heights as they were and the others in steps of eight.
/// The key of an L2G file makes no difference.
#[verifier::spinoff_prover]
#[verifier::rlimit(40)]
pub proof fn written_regions_are_read_back(
    path: Seq<char>,
    format: GeodataFormat,
    region: RegionModel,
    key: u32,
)
    requires
        geodata::is_output_format(format),
        geodata::is_whole_region(region),
        geodata_region::on_map(region.x, region.y),
        format == GeodataFormat::ConvDat || geodata_region::named_coordinates(path) == Ok::<(i32, i32), Seq<char>>(
            (region.x, region.y),
        ),
    ensures
        geodata_writer::region_file(format, region, key) matches Ok(file) && geodata_region::file_region(path, format, file) == Ok::<
            RegionModel,
            Seq<char>,
        >(
            RegionModel {
                x: region.x,
                y: region.y,
                blocks: stored_blocks(format, region.blocks),
            },
        ),
{
    let n = region.blocks.len();
    all_blocks_are_written(format, region.blocks, n);
    let body = geodata_writer::blocks_bytes(format, region.blocks, n)->Ok_0;
    let file = geodata_writer::region_file(format, region, key)->Ok_0;
    let header = if format == GeodataFormat::ConvDat {
        geodata_writer::conv_header(region)
    } else if format == GeodataFormat::L2g {
        geodata_region::be32(key)
    } else {
        Seq::empty()
    };
    let d = header + body;
    if format == GeodataFormat::L2g {
        let mask = geodata_region::folded(GEO_CHECKSUM ^ key);
        geodata_region::chains_are_undone(body, mask);
        assert(file.take(4) =~= geodata_region::be32(key));
        assert(file.skip(4) =~= geodata_region::chained(body, mask));
        assert(geodata_region::u32_of_be(geodata_region::be32(key)) == key);
        assert(geodata_region::opened_geodata(format, file) == Ok::<Seq<u8>, Seq<char>>(d));
    } else {
        assert(file =~= d);
    }
    assert(d.subrange(header.len() as int, (header.len() + body.len()) as int) =~= body);
    all_blocks_are_read_back(format, d, header.len() as int, region.blocks, n);
    assert(region.blocks.take(n as int) =~= region.blocks);
    if format == GeodataFormat::ConvDat {
        assert(d[0] == header[0] && d[1] == header[1]);
        assert(d[0] == region.x && d[1] == region.y);
    }
}

/// Whether a level comes back as it was: with its four directions, and with its
/// height if that is a multiple of eight that fits.
pub open spec fn is_same_level(a: Cell, b: Cell) -> bool {
    &&& b.nswe as int == a.nswe as int % 16
    &&& -16384 <= a.height < 16384 && a.height as int % 8 == 0 ==> b.height == a.height
}

pub open spec fn are_same_levels(a: Seq<Cell>, b: Seq<Cell>) -> bool {
    a.len() == b.len() && forall|i: int|
        0 <= i < a.len() ==> is_same_level(#[trigger] a[i], b[i])
}

/// Whether a block comes back as it was: of its kind, with the same height if it is
/// flat, and else with the same levels in the same order.
pub open spec fn is_same_block(a: BlockModel, b: BlockModel) -> bool {
    match (a, b) {
        (BlockModel::Flat(c), BlockModel::Flat(d)) => c.height == d.height,
        (BlockModel::Complex(c), BlockModel::Complex(d)) => are_same_levels(c, d),
        (BlockModel::MultiLevel(c), BlockModel::MultiLevel(d)) => c.len() == d.len() && forall|
            i: int,
        |
            0 <= i < c.len() ==> are_same_levels(#[trigger] c[i], d[i]),
        _ => false,
    }
}

/// Every block of a written region comes back as it was, in every output format.
pub proof fn stored_blocks_are_the_same(format: GeodataFormat, blocks: Seq<BlockModel>, i: int)
    requires
        0 <= i < blocks.len(),
    ensures
        stored_blocks(format, blocks).len() == blocks.len(),
        is_same_block(blocks[i], stored_blocks(format, blocks)[i]),
{
    match blocks[i] {
        BlockModel::Flat(_) => {},
        BlockModel::Complex(cells) => stored_levels_are_the_same(cells),
        BlockModel::MultiLevel(cells) => {
            assert forall|k: int| 0 <= k < cells.len() implies are_same_levels(
                #[trigger] cells[k],
                stored_layers(cells)[k],
            ) by {
                stored_levels_are_the_same(cells[k]);
            }
        },
    }
}

proof fn stored_levels_are_the_same(cells: Seq<Cell>)
    ensures
        are_same_levels(cells, stored_cells(cells)),
{
    assert forall|i: int| 0 <= i < cells.len() implies is_same_level(
        #[trigger] cells[i],
        stored_cells(cells)[i],
    ) by {
        let c = cells[i];
        geodata::packed_cells_round_trip(c.height, (c.nswe as int % 16) as u8);
    }
}

/// A coordinate of the map has two digits.
proof fn coordinates_have_two_digits(v: i32)
    requires
        geodata_region::MIN_REGION <= v <= geodata_region::MAX_REGION,
    ensures
        text::decimal(v as int).len() == 2,
        text::is_digit(text::decimal(v as int)[0]),
        text::is_digit(text::decimal(v as int)[1]),
        text::parsed_i32(text::decimal(v as int)) == Some(v),
{
    metadata_laws::decimals_are_read_back(v);
    metadata_laws::digits_are_read(v as nat);
    assert(text::digits((v as nat) / 10).len() == 1);
    let d = text::decimal(v as int);
    assert(text::is_digit(d[0]) && text::is_digit(d[1]));
}

/// What stands before the dot in the ending of a format.
spec fn ending_start(format: GeodataFormat) -> Seq<char> {
    match format {
        GeodataFormat::ConvDat => "_conv"@,
        GeodataFormat::PathTxt => "_path"@,
        _ => Seq::empty(),
    }
}

proof fn endings_have_a_dot(format: GeodataFormat)
    ensures
        ({
            let ending = geodata::geodata_ending(format);
            let n = ending_start(format).len() as int;
            &&& 0 <= n < ending.len() - 1
            &&& ending.take(n) == ending_start(format)
            &&& ending[n] == '.'
            &&& n > 0 ==> ending[0] == '_'
            &&& forall|i: int| n < i < ending.len() ==> #[trigger] ending[i] != '.'
            &&& forall|i: int|
                0 <= i < ending.len() ==> !paths::is_separator(#[trigger] ending[i])
            &&& text::find_last_char(ending, '.', ending.len() as int) == Some(n)
        }),
{
    reveal_strlit(".l2j");
    reveal_strlit("_conv.dat");
    reveal_strlit("_conv");
    reveal_strlit(".l2d");
    reveal_strlit(".l2s");
    reveal_strlit(".l2g");
    reveal_strlit(".rp");
    reveal_strlit("_path.txt");
    reveal_strlit("_path");
    reveal_strlit(".l2m");
    reveal_with_fuel(text::find_last_char, 6);
    let ending = geodata::geodata_ending(format);
    let n = ending_start(format).len() as int;
    assert(ending.take(n) =~= ending_start(format));
}

proof fn last_found_behind(a: Seq<char>, b: Seq<char>, c: char, end: int)
    requires
        0 <= end <= b.len(),
        text::find_last_char(b, c, end) is Some,
    ensures
        text::find_last_char(a + b, c, a.len() + end) == Some(
            a.len() + text::find_last_char(b, c, end)->Some_0,
        ),
    decreases end,
{
    assert((a + b)[a.len() + end - 1] == b[end - 1]);
    if b[end - 1] != c {
        last_found_behind(a, b, c, end - 1);
    }
}

/// The name of a region in a folder gives its coordinates, in every format.
#[verifier::spinoff_prover]
#[verifier::rlimit(40)]
pub proof fn region_names_give_coordinates(
    folder: Seq<char>,
    format: GeodataFormat,
    x: i32,
    y: i32,
)
    requires
        geodata_region::on_map(x, y),
        paths::is_folder_in(folder, folder + geodata_plan::region_name(x, y, format)),
    ensures
        geodata_region::named_coordinates(folder + geodata_plan::region_name(x, y, format)) == Ok::<
            (i32, i32),
            Seq<char>,
        >((x, y)),
{
    let name = geodata_plan::region_name(x, y, format);
    let ending = geodata::geodata_ending(format);
    let a = text::decimal(x as int);
    let b = text::decimal(y as int);
    reveal_strlit("_");
    coordinates_have_two_digits(x);
    coordinates_have_two_digits(y);
    endings_have_a_dot(format);
    let n = ending_start(format).len() as int;
    let front = a + "_"@ + b;
    assert(name =~= front + ending);
    region_names_are_components(x, y, format);
    paths::names_stand_behind_folders(folder, name);
    last_found_behind(front, ending, '.', ending.len() as int);
    let stem = name.take(5 + n);
    assert(paths::stem_of(folder + name) == Some(stem));
    assert(stem =~= front + ending_start(format)) by {
        assert(ending.take(n) == ending_start(format));
    }
    text::find_char_is_first(stem, '_', 0);
    assert(stem[0] == a[0] && stem[1] == a[1] && stem[2] == '_');
    assert(text::find_char(stem, '_', 0) == Some(2int));
    text::find_char_is_first(stem, '_', 3);
    assert(stem[3] == b[0] && stem[4] == b[1]);
    if n > 0 {
        assert(stem[5] == ending[0]);
        assert(text::find_char(stem, '_', 3) == Some(5int));
    } else {
        assert(text::find_char(stem, '_', 3) is None);
    }
    assert(stem.subrange(0, 2) =~= a);
    assert(stem.subrange(3, 5) =~= b);
}

proof fn region_names_are_components(x: i32, y: i32, format: GeodataFormat)
    requires
        geodata_region::on_map(x, y),
    ensures
        paths::is_component(geodata_plan::region_name(x, y, format)),
        !paths::has_drive(geodata_plan::region_name(x, y, format)),
{
    let name = geodata_plan::region_name(x, y, format);
    let ending = geodata::geodata_ending(format);
    let a = text::decimal(x as int);
    let b = text::decimal(y as int);
    reveal_strlit("_");
    coordinates_have_two_digits(x);
    coordinates_have_two_digits(y);
    endings_have_a_dot(format);
    assert(name =~= a + "_"@ + b + ending);
    assert(name.last() == ending.last());
    assert(ending[ending.len() - 1] != '.');
    assert forall|i: int| 0 <= i < name.len() implies !paths::is_separator(#[trigger] name[i]) by {
        if i < 2 {
            assert(name[i] == a[i]);
        } else if i == 2 {
            assert(name[i] == '_');
        } else if i < 5 {
            assert(name[i] == b[i - 3]);
        } else {
            assert(name[i] == ending[i - 5]);
        }
    }
    assert(name[1] == a[1]);
}

/// A region that was written under its name is read back from there, whatever
/// folder the file stands in.
pub proof fn named_regions_are_read_back(
    folder: Seq<char>,
    format: GeodataFormat,
    region: RegionModel,
    key: u32,
)
    requires
        geodata::is_output_format(format),
        geodata::is_whole_region(region),
        geodata_region::on_map(region.x, region.y),
        folder.len() == 0 || paths::is_folder_in(
            folder,
            folder + geodata_plan::region_name(region.x, region.y, format),
        ),
    ensures
        ({
            let path = folder + geodata_plan::region_name(region.x, region.y, format);
            &&& geodata_writer::region_file(format, region, key) matches Ok(file)
            &&& geodata_region::region_in_file(path, format, file) == Ok::<
                RegionModel,
                Seq<char>,
            >(
                RegionModel {
                    x: region.x,
                    y: region.y,
                    blocks: stored_blocks(format, region.blocks),
                },
            )
        }),
{
    let name = geodata_plan::region_name(region.x, region.y, format);
    region_names_are_components(region.x, region.y, format);
    if folder.len() == 0 {
        assert(folder + name =~= name);
        assert(!paths::is_separator(name[0]));
    }
    region_names_give_coordinates(folder, format, region.x, region.y);
    written_regions_are_read_back(folder + name, format, region, key);
}

/// A converted region is read back from the place that the conversion gives it.
pub proof fn converted_regions_are_read_back(
    relative: Seq<char>,
    source: GeodataFormat,
    target: GeodataFormat,
    region: RegionModel,
    key: u32,
)
    requires
        paths::is_relative(relative),
        source != target,
        geodata::is_output_format(target),
        geodata::is_whole_region(region),
        geodata_region::on_map(region.x, region.y),
    ensures
        ({
            let path = geodata_plan::destination_of(relative, source, target, region.x, region.y);
            &&& geodata_writer::region_file(target, region, key) matches Ok(file)
            &&& geodata_region::region_in_file(path, target, file) == Ok::<
                RegionModel,
                Seq<char>,
            >(
                RegionModel {
                    x: region.x,
                    y: region.y,
                    blocks: stored_blocks(target, region.blocks),
                },
            )
        }),
{
    let name = geodata_plan::region_name(region.x, region.y, target);
    region_names_are_components(region.x, region.y, target);
    paths::folders_take_other_names(relative, name);
    named_regions_are_read_back(paths::folder_of(relative), target, region, key);
}

/// Whether a level keeps its height and directions when packed.
pub open spec fn is_exact_cell(c: Cell) -> bool {
    c.min_height is None && c.nswe < 16 && -16384 <= c.height < 16384 && c.height as int % 8 == 0
}

/// Whether a block keeps all it holds in the L2J and L2G formats.
pub open spec fn is_exact_block(b: BlockModel) -> bool {
    match b {
        BlockModel::Flat(c) => c.min_height is None && c.nswe == NSWE_ALL,
        BlockModel::Complex(cells) => forall|i: int|
            0 <= i < cells.len() ==> is_exact_cell(#[trigger] cells[i]),
        BlockModel::MultiLevel(cells) => forall|i: int, j: int|
            0 <= i < cells.len() && 0 <= j < cells[i].len() ==> is_exact_cell(
                #[trigger] cells[i][j],
            ),
    }
}

proof fn exact_blocks_are_kept(format: GeodataFormat, b: BlockModel)
    requires
        format != GeodataFormat::ConvDat,
        is_exact_block(b),
    ensures
        stored_block(format, b) == b,
{
    match b {
        BlockModel::Flat(_) => {},
        BlockModel::Complex(cells) => {
            assert(stored_cells(cells) =~= cells) by {
                assert forall|i: int| 0 <= i < cells.len() implies stored_cell(cells[i])
                    == cells[i] by {
                    geodata::packed_cells_round_trip(cells[i].height, cells[i].nswe);
                }
            }
        },
        BlockModel::MultiLevel(cells) => {
            assert forall|i: int| 0 <= i < cells.len() implies stored_cells(cells[i])
                == cells[i] by {
                assert forall|j: int| 0 <= j < cells[i].len() implies stored_cell(cells[i][j])
                    == cells[i][j] by {
                    geodata::packed_cells_round_trip(cells[i][j].height, cells[i][j].nswe);
                }
                assert(stored_cells(cells[i]) =~= cells[i]);
            }
            assert(stored_layers(cells) =~= cells);
        },
    }
}

/// A region whose heights are multiples of eight comes back from an L2J or L2G
/// file as it was.
pub proof fn exact_regions_are_kept(
    path: Seq<char>,
    format: GeodataFormat,
    region: RegionModel,
    key: u32,
)
    requires
        format == GeodataFormat::L2j || format == GeodataFormat::L2g,
        geodata::is_whole_region(region),
        forall|i: int| 0 <= i < region.blocks.len() ==> is_exact_block(#[trigger] region.blocks[i]),
        geodata_region::on_map(region.x, region.y),
        geodata_region::named_coordinates(path) == Ok::<(i32, i32), Seq<char>>((region.x, region.y)),
    ensures
        geodata_writer::region_file(format, region, key) matches Ok(file) && geodata_region::file_region(path, format, file) == Ok::<
            RegionModel,
            Seq<char>,
        >(region),
{
    written_regions_are_read_back(path, format, region, key);
    assert forall|i: int| 0 <= i < region.blocks.len() implies stored_block(
        format,
        region.blocks[i],
    ) == region.blocks[i] by {
        exact_blocks_are_kept(format, region.blocks[i]);
    }
    assert(stored_blocks(format, region.blocks) =~= region.blocks);
}

} // verus!
