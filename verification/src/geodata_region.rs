//! Whole geodata files: the chained encryption, the header, the blocks of a
//! region, and the region written out again.

use vstd::prelude::*;
use vstd::slice::slice_subrange;
use vstd::utf8::*;
use crate::geodata::{Block, BlockKind, BlockModel, Cell, GeodataFormat, LayerPlace, Region, RegionModel, CELLS_PER_BLOCK, GEO_CHECKSUM, REGION_BLOCKS, REGION_SIZE};
use crate::reader::{Dialect, Reader};
use crate::bytes;
use crate::geodata;
use crate::geodata_path;
use crate::paths;
use crate::reader;
use crate::text;
use crate::utf16;

verus! {

/// The lowest coordinate of a region.
pub const MIN_REGION: i32 = 10;

/// The highest coordinate of a region.
pub const MAX_REGION: i32 = 26;

proof fn layers_are_whole(format: GeodataFormat, d: Seq<u8>, p: int, n: nat)
    requires
        geodata::layers_from(format, d, p, n) is Ok,
    ensures
        geodata::layers_from(format, d, p, n)->Ok_0.0.len() == n,
        forall|i: int|
            0 <= i < n ==> 1 <= (#[trigger] geodata::layers_from(format, d, p, n)->Ok_0.0[i]).len() <= 255,
    decreases n,
{
    if n > 0 {
        layers_are_whole(format, d, p, (n - 1) as nat);
        let (cells, q) = geodata::layers_from(format, d, p, (n - 1) as nat)->Ok_0;
        let (count, q2) = geodata::layer_count_at(format, d, q)->Ok_0;
        cells_are_counted(format, d, q2, count as nat);
        let (layers, end) = geodata::cells_from(format, d, q2, count as nat)->Ok_0;
        assert(geodata::layers_from(format, d, p, n)->Ok_0.0 == cells.push(layers));
    }
}

proof fn cells_are_counted(format: GeodataFormat, d: Seq<u8>, p: int, n: nat)
    requires
        geodata::cells_from(format, d, p, n) is Ok,
    ensures
        geodata::cells_from(format, d, p, n)->Ok_0.0.len() == n,
    decreases n,
{
    if n > 0 {
        cells_are_counted(format, d, p, (n - 1) as nat);
    }
}

proof fn places_are_whole(d: Seq<u8>, p: int, n: nat)
    requires
        geodata::places_from(d, p, n) is Ok,
    ensures
        geodata::places_from(d, p, n)->Ok_0.0.len() == n,
        forall|i: int|
            0 <= i < n ==> 1 <= (#[trigger] geodata::places_from(d, p, n)->Ok_0.0[i]).count <= 255,
    decreases n,
{
    if n > 0 {
        places_are_whole(d, p, (n - 1) as nat);
        let (places, q) = geodata::places_from(d, p, (n - 1) as nat)->Ok_0;
        let all = geodata::places_from(d, p, n)->Ok_0.0;
        assert(all =~= places.push(all[n - 1]));
        assert forall|i: int| 0 <= i < n implies 1 <= (#[trigger] all[i]).count <= 255 by {
            if i < n - 1 {
                assert(all[i] == places[i]);
            }
        }
    }
}

proof fn placed_are_whole(d: Seq<u8>, places: Seq<LayerPlace>, start: int, n: nat)
    requires
        geodata::placed_layers(d, places, start, n) is Ok,
        n <= places.len(),
        forall|i: int| 0 <= i < places.len() ==> 1 <= (#[trigger] places[i]).count <= 255,
    ensures
        geodata::placed_layers(d, places, start, n)->Ok_0.0.len() == n,
        forall|i: int|
            0 <= i < n ==> 1 <= (#[trigger] geodata::placed_layers(d, places, start, n)->Ok_0.0[i]).len()
                <= 255,
    decreases n,
{
    if n > 0 {
        placed_are_whole(d, places, start, (n - 1) as nat);
        assert(1 <= places[n - 1].count <= 255);
    }
}

/// A block that was read has all its cells, each with one to 255 levels.
pub proof fn read_blocks_are_whole(format: GeodataFormat, d: Seq<u8>, p: int)
    ensures
        geodata::block_at(format, d, p) matches Ok((b, _)) ==> geodata::is_whole_block(b),
{
    reveal(geodata::block_at);
    if let Ok((kind, q)) = geodata::kind_at(format, d, p) {
        if kind == BlockKind::Complex {
            if geodata::cells_from(format, d, q, CELLS_PER_BLOCK as nat) is Ok {
                cells_are_counted(format, d, q, CELLS_PER_BLOCK as nat);
            }
        } else if kind == BlockKind::MultiLevel {
            if format == GeodataFormat::L2m {
                if let Ok((places, start)) = geodata::places_from(d, q, CELLS_PER_BLOCK as nat) {
                    places_are_whole(d, q, CELLS_PER_BLOCK as nat);
                    if geodata::placed_layers(d, places, start, CELLS_PER_BLOCK as nat) is Ok {
                        placed_are_whole(d, places, start, CELLS_PER_BLOCK as nat);
                    }
                }
            } else if geodata::layers_from(format, d, q, CELLS_PER_BLOCK as nat) is Ok {
                layers_are_whole(format, d, q, CELLS_PER_BLOCK as nat);
            }
        }
    }
}

/// Whether a block has all its cells and no cell is without a level.
pub open spec fn is_complete_block(b: BlockModel) -> bool {
    match b {
        BlockModel::Flat(_) => true,
        BlockModel::Complex(cells) => cells.len() == CELLS_PER_BLOCK,
        BlockModel::MultiLevel(cells) => cells.len() == CELLS_PER_BLOCK && forall|i: int|
            0 <= i < cells.len() ==> (#[trigger] cells[i]).len() > 0,
    }
}

pub open spec fn incomplete_text(x: int, y: int) -> Seq<char> {
    "Bloco "@ + text::decimal(x) + "_"@ + (text::decimal(y) + " possui dados incompletos."@)
}

pub fn all_have_levels(cells: &Vec<Vec<Cell>>) -> (r: bool)
    ensures
        r == forall|i: int|
            0 <= i < cells@.len() ==> (#[trigger] geodata::layers_seen(cells@)[i]).len() > 0,
{
    let mut index: usize = 0;
    while index < cells.len()
        invariant
            index <= cells@.len(),
            forall|i: int| 0 <= i < index ==> (#[trigger] geodata::layers_seen(cells@)[i]).len() > 0,
        decreases cells.len() - index,
    {
        assert(geodata::layers_seen(cells@)[index as int] == cells@[index as int]@);
        if cells[index].len() == 0 {
            return false;
        }
        index += 1;
    }
    true
}

/// Refuses a block that lacks cells or levels.
pub fn validate_block(block: &Block, x: usize, y: usize) -> (r: Result<(), String>)
    ensures
        match r {
            Ok(()) => is_complete_block(block@),
            Err(message) => !is_complete_block(block@) && message@ == incomplete_text(
                x as int,
                y as int,
            ),
        },
{
    let complete: bool = match block {
        Block::Flat(_) => true,
        Block::Complex(cells) => cells.len() == CELLS_PER_BLOCK,
        Block::MultiLevel(cells) => cells.len() == CELLS_PER_BLOCK && all_have_levels(cells),
    };
    if complete {
        Ok(())
    } else {
        Err(
            text::join(
                text::join3("Bloco ", text::size_text(x).as_str(), "_").as_str(),
                text::join(
                    text::size_text(y).as_str(),
                    " possui dados incompletos.",
                ).as_str(),
            ),
        )
    }
}

impl Region {
    /// A region of the given blocks, which must be all there.
    pub fn new(x: i32, y: i32, blocks: Vec<Block>) -> (r: Result<Region, String>)
        ensures
            match r {
                Ok(region) => blocks@.len() == REGION_BLOCKS && region.x == x && region.y == y
                    && region.blocks@ == blocks@,
                Err(message) => blocks@.len() != REGION_BLOCKS && message@
                    == "A região geodata não possui todos os blocos esperados."@,
            },
    {
        if blocks.len() != REGION_BLOCKS {
            return Err("A região geodata não possui todos os blocos esperados.".to_owned());
        }
        Ok(Region { x, y, blocks })
    }

    pub fn block(&self, x: usize, y: usize) -> (r: &Block)
        requires
            self.blocks@.len() == REGION_BLOCKS,
            x < REGION_SIZE,
            y < REGION_SIZE,
        ensures
            *r == self.blocks@[x * 256 + y],
    {
        &self.blocks[x * REGION_SIZE + y]
    }
}

/// The region whose blocks stand from `p` on.
pub open spec fn region_from(format: GeodataFormat, d: Seq<u8>, p: int, x: i32, y: i32) -> Result<
    RegionModel,
    Seq<char>,
> {
    match geodata::blocks_from(format, d, p, REGION_BLOCKS as nat) {
        Err(e) => Err(e),
        Ok((blocks, _)) => Ok(RegionModel { x, y, blocks }),
    }
}

/// What a read of a region hands back.
pub open spec fn region_result(
    r: Result<Region, String>,
    model: Result<RegionModel, Seq<char>>,
) -> bool {
    match r {
        Ok(region) => model == Ok::<RegionModel, Seq<char>>(region@),
        Err(message) => model == Err::<RegionModel, Seq<char>>(message@),
    }
}

fn parse_block(reader: &mut Reader, format: GeodataFormat) -> (r: Result<Block, String>)
    requires
        geodata::reads_geodata(*old(reader)),
    ensures
        geodata::block_read(
            *old(reader),
            *final(reader),
            r,
            geodata::block_at(format, old(reader).data@, old(reader).position as int),
        ),
{
    reveal(geodata::block_at);
    match geodata::read_block_kind(reader, format)? {
        BlockKind::Flat => geodata::parse_flat(reader, format),
        BlockKind::Complex => geodata::parse_complex(reader, format),
        BlockKind::MultiLevel => geodata::parse_multi(reader, format),
    }
}

/// Reads all blocks of a region.
pub fn parse_binary_region(
    reader: &mut Reader,
    x: i32,
    y: i32,
    format: GeodataFormat,
) -> (r: Result<Region, String>)
    requires
        geodata::reads_geodata(*old(reader)),
    ensures
        reader::moved(*old(reader), *final(reader)),
        region_result(
            r,
            region_from(format, old(reader).data@, old(reader).position as int, x, y),
        ),
        r matches Ok(region) ==> geodata::is_whole_region(region@),
{
    let ghost d = reader.data@;
    let ghost p = reader.position as int;
    let mut blocks: Vec<Block> = Vec::new();
    let mut index: usize = 0;
    assert(geodata::blocks_seen(blocks@) =~= Seq::empty());
    while index < REGION_BLOCKS
        invariant
            index <= REGION_BLOCKS,
            reader::moved(*old(reader), *reader),
            geodata::reads_geodata(*reader),
            d == old(reader).data@,
            p == old(reader).position,
            blocks@.len() == index,
            forall|i: int|
                0 <= i < index ==> geodata::is_whole_block(#[trigger] geodata::blocks_seen(blocks@)[i]),
            geodata::blocks_from(format, d, p, index as nat) == Ok::<(Seq<BlockModel>, int), Seq<char>>(
                (geodata::blocks_seen(blocks@), reader.position as int),
            ),
        decreases REGION_BLOCKS - index,
    {
        let ghost q = reader.position as int;
        match parse_block(reader, format) {
            Ok(block) => {
                proof {
                    read_blocks_are_whole(format, d, q);
                }
                assert(geodata::is_whole_block(block@));
                validate_block(&block, index / REGION_SIZE, index % REGION_SIZE)?;
                let ghost before = blocks@;
                let ghost model = block@;
                blocks.push(block);
                assert(geodata::blocks_seen(blocks@) =~= geodata::blocks_seen(before).push(model));
            },
            Err(message) => {
                proof {
                    geodata::blocks_error_spreads(
                        format,
                        d,
                        p,
                        (index + 1) as nat,
                        REGION_BLOCKS as nat,
                    );
                }
                return Err(message);
            },
        }
        index += 1;
    }
    Region::new(x, y, blocks)
}

/// The exclusive-or of the four bytes of a checksum.
pub open spec fn folded(checksum: u32) -> u8 {
    ((checksum / 16777216) as u8) ^ ((checksum / 65536 % 256) as u8) ^ ((checksum / 256
        % 256) as u8) ^ ((checksum % 256) as u8)
}

pub fn checksum_byte(checksum: u32) -> (r: u8)
    ensures
        r == folded(checksum),
{
    ((checksum / 16777216) as u8) ^ ((checksum / 65536 % 256) as u8) ^ ((checksum / 256
        % 256) as u8) ^ ((checksum % 256) as u8)
}

pub open spec fn be32(v: u32) -> Seq<u8> {
    seq![
        (v / 16777216) as u8,
        (v / 65536 % 256) as u8,
        (v / 256 % 256) as u8,
        (v % 256) as u8,
    ]
}

pub open spec fn u32_of_be(s: Seq<u8>) -> u32 {
    (16777216 * s[0] + 65536 * s[1] + 256 * s[2] + s[3]) as u32
}

/// The bytes that encrypt `data`: each is combined with the one before it, the
/// first with the key.
pub open spec fn chained(data: Seq<u8>, key: u8) -> Seq<u8> {
    Seq::new(
        data.len(),
        |i: int|
            data[i] ^ if i == 0 {
                key
            } else {
                data[i - 1]
            },
    )
}

/// The bytes that `data` encrypts.
pub open spec fn unchained(data: Seq<u8>, key: u8) -> Seq<u8>
    decreases data.len(),
{
    if data.len() == 0 {
        Seq::empty()
    } else {
        let before = unchained(data.drop_last(), key);
        before.push(
            data.last() ^ if before.len() == 0 {
                key
            } else {
                before.last()
            },
        )
    }
}

/// What was encrypted with a key is decrypted with it.
pub proof fn chains_are_undone(data: Seq<u8>, key: u8)
    ensures
        unchained(chained(data, key), key) == data,
    decreases data.len(),
{
    if data.len() > 0 {
        let body = data.drop_last();
        chains_are_undone(body, key);
        assert(chained(data, key).drop_last() =~= chained(body, key));
        let (a, b) = (
            data.last(),
            if body.len() == 0 {
                key
            } else {
                body.last()
            },
        );
        assert((a ^ b) ^ b == a) by (bit_vector);
        assert(body.push(a) =~= data);
    } else {
        assert(unchained(chained(data, key), key) =~= data);
    }
}

/// A number with its bits moved down by one place, the lowest to the top.
pub open spec fn rotated_right(v: u32) -> u32 {
    (v / 2 + v % 2 * 0x8000_0000) as u32
}

/// The checksum of server files, over the bytes of an address.
pub open spec fn address_checksum(address: Seq<u8>) -> u32
    decreases address.len(),
{
    if address.len() == 0 {
        GEO_CHECKSUM
    } else {
        rotated_right(address_checksum(address.drop_last()) ^ (address.last() as u32))
    }
}

/// The bytes of `127.0.0.1`.
pub open spec fn local_address() -> Seq<u8> {
    seq![49u8, 50u8, 55u8, 46u8, 48u8, 46u8, 48u8, 46u8, 49u8]
}

/// A file with its key in front and the rest decrypted.
pub open spec fn opened_geodata(format: GeodataFormat, d: Seq<u8>) -> Result<Seq<u8>, Seq<char>> {
    match format {
        GeodataFormat::L2g => if d.len() < 4 {
            Err("Cabeçalho L2G truncado."@)
        } else {
            Ok(d.take(4) + unchained(d.skip(4), folded(GEO_CHECKSUM ^ u32_of_be(d.take(4)))))
        },
        GeodataFormat::L2s => if d.len() < 4 {
            Err("Cabeçalho L2S truncado."@)
        } else {
            Ok(
                d.take(4) + unchained(
                    d.skip(4),
                    folded(address_checksum(local_address()) ^ u32_of_be(d.take(4))),
                ),
            )
        },
        _ => Ok(d),
    }
}

fn decrypt_chained(data: &[u8], checksum: u32) -> (r: Vec<u8>)
    requires
        data@.len() >= 4,
    ensures
        r@ == data@.take(4) + unchained(data@.skip(4), folded(checksum)),
{
    let ghost body = data@.skip(4);
    let ghost key = folded(checksum);
    let mut output: Vec<u8> = bytes::copy_range(data, 0, 4);
    let mut xor_byte: u8 = checksum_byte(checksum);
    let mut index: usize = 4;
    assert(output@ =~= data@.take(4) + unchained(body.take(0), key));
    while index < data.len()
        invariant
            4 <= index <= data@.len(),
            body == data@.skip(4),
            key == folded(checksum),
            output@ == data@.take(4) + unchained(body.take(index - 4), key),
            unchained(body.take(index - 4), key).len() == index - 4,
            xor_byte == if index == 4 {
                key
            } else {
                unchained(body.take(index - 4), key).last()
            },
        decreases data.len() - index,
    {
        proof {
            assert(body.take(index - 3).drop_last() =~= body.take(index - 4));
            assert(body.take(index - 3).last() == data@[index as int]);
        }
        let ghost before = output@;
        let decrypted: u8 = data[index] ^ xor_byte;
        output.push(decrypted);
        xor_byte = decrypted;
        assert(output@ =~= data@.take(4) + unchained(body.take(index - 3), key));
        index += 1;
    }
    assert(body.take(data@.len() - 4) =~= body);
    output
}

fn key_at_start(data: &[u8]) -> (r: u32)
    requires
        data@.len() >= 4,
    ensures
        r == u32_of_be(data@.take(4)),
{
    16777216 * (data[0] as u32) + 65536 * (data[1] as u32) + 256 * (data[2] as u32) + data[3] as u32
}

fn server_checksum() -> (r: u32)
    ensures
        r == address_checksum(local_address()),
{
    let address: [u8; 9] = [49, 50, 55, 46, 48, 46, 48, 46, 49];
    assert(address@ =~= local_address());
    let mut checksum: u32 = GEO_CHECKSUM;
    let mut index: usize = 0;
    assert(local_address().take(0) =~= Seq::empty());
    while index < 9
        invariant
            index <= 9,
            address@ == local_address(),
            checksum == address_checksum(local_address().take(index as int)),
        decreases 9 - index,
    {
        assert(local_address().take(index + 1).drop_last() =~= local_address().take(index as int));
        let mixed: u32 = checksum ^ (address[index] as u32);
        checksum = mixed / 2 + mixed % 2 * 0x8000_0000;
        index += 1;
    }
    assert(local_address().take(9) =~= local_address());
    checksum
}

/// Decrypts the formats that are encrypted.
pub fn decrypt_geodata(data: &[u8], format: GeodataFormat) -> (r: Result<Vec<u8>, String>)
    ensures
        match r {
            Ok(plain) => opened_geodata(format, data@) == Ok::<Seq<u8>, Seq<char>>(plain@),
            Err(message) => opened_geodata(format, data@) == Err::<Seq<u8>, Seq<char>>(message@),
        },
{
    match format {
        GeodataFormat::L2g => {
            if data.len() < 4 {
                return Err("Cabeçalho L2G truncado.".to_owned());
            }
            Ok(decrypt_chained(data, GEO_CHECKSUM ^ key_at_start(data)))
        },
        GeodataFormat::L2s => {
            if data.len() < 4 {
                return Err("Cabeçalho L2S truncado.".to_owned());
            }
            Ok(decrypt_chained(data, server_checksum() ^ key_at_start(data)))
        },
        _ => Ok(bytes::copy_bytes(data)),
    }
}

pub open spec fn name_text() -> Seq<char> {
    "O nome deve começar com X_Y."@
}

/// The coordinates in a text that starts with two numbers and a low line
/// between them.
pub open spec fn coordinates_in(stem: Seq<char>) -> Option<(i32, i32)> {
    match text::find_char(stem, '_', 0) {
        None => None,
        Some(i) => {
            let end = match text::find_char(stem, '_', i + 1) {
                Some(j) => j,
                None => stem.len() as int,
            };
            match (text::parsed_i32(stem.subrange(0, i)), text::parsed_i32(stem.subrange(i + 1, end))) {
                (Some(x), Some(y)) => Some((x, y)),
                _ => None,
            }
        },
    }
}

/// The coordinates that the name of a file gives.
pub open spec fn named_coordinates(path: Seq<char>) -> Result<(i32, i32), Seq<char>> {
    match paths::stem_of(path) {
        None => Err("O nome do arquivo não é válido."@),
        Some(stem) => match coordinates_in(stem) {
            Some(found) => Ok(found),
            None => Err(name_text()),
        },
    }
}

pub fn coordinates_from_name(path: &str) -> (r: Result<(i32, i32), String>)
    ensures
        text::seen(r) == named_coordinates(path@),
{
    let stem = match paths::file_stem(path) {
        Some(stem) => stem,
        None => return Err("O nome do arquivo não é válido.".to_owned()),
    };
    let chars = text::chars_of(stem.as_str());
    let found: Option<(i32, i32)> = match text::position_of(chars.as_slice(), '_', 0) {
        None => None,
        Some(i) => {
            let end: usize = match text::position_of(chars.as_slice(), '_', i + 1) {
                Some(j) => j,
                None => chars.len(),
            };
            match (
                text::parse_i32(slice_subrange(chars.as_slice(), 0, i)),
                text::parse_i32(slice_subrange(chars.as_slice(), i + 1, end)),
            ) {
                (Some(x), Some(y)) => Some((x, y)),
                _ => None,
            }
        },
    };
    match found {
        Some(found) => Ok(found),
        None => Err("O nome deve começar com X_Y.".to_owned()),
    }
}

/// Whether a region lies on the map.
pub open spec fn on_map(x: i32, y: i32) -> bool {
    MIN_REGION <= x <= MAX_REGION && MIN_REGION <= y <= MAX_REGION
}

pub fn valid_coordinates(x: i32, y: i32) -> (r: bool)
    ensures
        r == on_map(x, y),
{
    MIN_REGION <= x && x <= MAX_REGION && MIN_REGION <= y && y <= MAX_REGION
}

/// The coordinates of a file, which a CONV_DAT file holds in its first bytes.
pub open spec fn file_coordinates(path: Seq<char>, format: GeodataFormat, d: Seq<u8>) -> Result<
    (i32, i32),
    Seq<char>,
> {
    if format == GeodataFormat::ConvDat {
        if d.len() < 2 {
            Err("Cabeçalho CONV_DAT truncado."@)
        } else {
            Ok((d[0] as i32, d[1] as i32))
        }
    } else {
        named_coordinates(path)
    }
}

/// The coordinates of a file. Only of a CONV_DAT file are the bytes read.
pub fn coordinates_for_file(path: &str, format: GeodataFormat, data: &[u8]) -> (r: Result<
    (i32, i32),
    String,
>)
    ensures
        text::seen(r) == file_coordinates(path@, format, data@),
{
    if matches!(format, GeodataFormat::ConvDat) {
        if data.len() < 2 {
            return Err("Cabeçalho CONV_DAT truncado.".to_owned());
        }
        return Ok((data[0] as i32, data[1] as i32));
    }
    coordinates_from_name(path)
}

pub open spec fn off_map_text(x: i32, y: i32) -> Seq<char> {
    "Coordenadas "@ + text::decimal(x as int) + "_"@ + (text::decimal(y as int)
        + " fora do intervalo 10..26."@)
}

pub fn off_map_message(x: i32, y: i32) -> (r: String)
    ensures
        r@ == off_map_text(x, y),
{
    text::join(
        text::join3("Coordenadas ", text::decimal_text(x as i64).as_str(), "_").as_str(),
        text::join(text::decimal_text(y as i64).as_str(), " fora do intervalo 10..26.").as_str(),
    )
}

/// The coordinates and the start of the blocks in a decrypted file.
pub open spec fn geodata_header(path: Seq<char>, format: GeodataFormat, d: Seq<u8>) -> Result<
    (i32, i32, int),
    Seq<char>,
> {
    if format == GeodataFormat::ConvDat {
        match reader::u8_at(Dialect::Geodata, d, 0) {
            Err(e) => Err(e),
            Ok((x, p)) => match reader::u8_at(Dialect::Geodata, d, p) {
                Err(e) => Err(e),
                Ok((y, q)) => match reader::skip_end(Dialect::Geodata, d, q, 16) {
                    Err(e) => Err(e),
                    Ok(start) => Ok((x as i32, y as i32, start)),
                },
            },
        }
    } else {
        match named_coordinates(path) {
            Err(e) => Err(e),
            Ok((x, y)) => Ok((x, y, 0)),
        }
    }
}

/// The region that a binary file holds.
pub open spec fn file_region(path: Seq<char>, format: GeodataFormat, raw: Seq<u8>) -> Result<
    RegionModel,
    Seq<char>,
> {
    match opened_geodata(format, raw) {
        Err(e) => Err(e),
        Ok(d) => match geodata_header(path, format, d) {
            Err(e) => Err(e),
            Ok((x, y, start)) => if !on_map(x, y) {
                Err(off_map_text(x, y))
            } else if format == GeodataFormat::L2g || format == GeodataFormat::L2s {
                region_from(format, d, 4, x, y)
            } else {
                region_from(format, d, start, x, y)
            },
        },
    }
}

proof fn unchained_keeps_length(data: Seq<u8>, key: u8)
    ensures
        unchained(data, key).len() == data.len(),
    decreases data.len(),
{
    if data.len() > 0 {
        unchained_keeps_length(data.drop_last(), key);
    }
}

/// What is said of a text file that holds no text.
pub open spec fn no_text_text() -> Seq<char> {
    "Não foi possível ler PATH_TXT: stream did not contain valid UTF-8"@
}

/// The region that a file of any format holds.
pub open spec fn region_in_file(path: Seq<char>, format: GeodataFormat, raw: Seq<u8>) -> Result<
    RegionModel,
    Seq<char>,
> {
    if format != GeodataFormat::PathTxt {
        file_region(path, format, raw)
    } else if valid_utf8(raw) {
        geodata_path::path_region(path, decode_utf8(raw))
    } else {
        Err(no_text_text())
    }
}

/// Reads a region from the bytes of a file.
pub fn parse_file(path: &str, format: GeodataFormat, raw: &[u8]) -> (r: Result<Region, String>)
    ensures
        region_result(r, region_in_file(path@, format, raw@)),
        r matches Ok(region) ==> geodata::is_whole_region(region@),
{
    if matches!(format, GeodataFormat::PathTxt) {
        match utf16::valid_text(raw) {
            Some(content) => geodata_path::parse_path_text(path, content.as_str()),
            None => Err(
                "Não foi possível ler PATH_TXT: stream did not contain valid UTF-8".to_owned(),
            ),
        }
    } else {
        parse_binary_file(path, format, raw)
    }
}

/// Reads a region from the bytes of a file of a binary format.
pub fn parse_binary_file(path: &str, format: GeodataFormat, raw: &[u8]) -> (r: Result<Region, String>)
    requires
        format != GeodataFormat::PathTxt,
    ensures
        region_result(r, file_region(path@, format, raw@)),
        r matches Ok(region) ==> geodata::is_whole_region(region@),
{
    let data = decrypt_geodata(raw, format)?;
    let mut reader = Reader::new(data.as_slice(), Dialect::Geodata);
    let (x, y): (i32, i32) = if matches!(format, GeodataFormat::ConvDat) {
        let x: u8 = reader.read_u8()?;
        let y: u8 = reader.read_u8()?;
        reader.skip(16)?;
        (x as i32, y as i32)
    } else {
        coordinates_from_name(path)?
    };
    if !valid_coordinates(x, y) {
        return Err(off_map_message(x, y));
    }
    if matches!(format, GeodataFormat::L2g | GeodataFormat::L2s) {
        proof {
            unchained_keeps_length(raw@.skip(4), folded(GEO_CHECKSUM ^ u32_of_be(raw@.take(4))));
            unchained_keeps_length(
                raw@.skip(4),
                folded(address_checksum(local_address()) ^ u32_of_be(raw@.take(4))),
            );
        }
        reader.skip(4)?;
    }
    parse_binary_region(&mut reader, x, y, format)
}

} // verus!
