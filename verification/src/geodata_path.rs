//! Geodata as text: one line per cell, with its place and its levels.

use vstd::prelude::*;
use vstd::slice::slice_subrange;
use crate::geodata::{Block, BlockModel, Cell, Region, RegionModel, CELLS_PER_BLOCK, NSWE_ALL, REGION_BLOCKS};
use crate::geodata;
use crate::geodata_region;
use crate::text;

verus! {

/// The number of cells in each direction of a region.
pub const CELL_ROWS: usize = 2048;

/// The level of a cell of which nothing is known.
pub open spec fn unknown_level() -> Cell {
    Cell { height: 16383, min_height: None, nswe: 0 }
}

fn unknown_cell() -> (r: Cell)
    ensures
        r == unknown_level(),
{
    Cell { height: 16383, min_height: None, nswe: 0 }
}

/// The place of a cell and the number of its levels, at the start of a line. Its
/// first byte opens the place.
pub open spec fn cell_header(line: Seq<char>) -> Result<(usize, usize, usize), Seq<char>> {
    match text::find_char(line, ']', 0) {
        None => Err("Cabeçalho de célula inválido."@),
        Some(closing) => if closing < 1 || line[0] > '\u{7F}' {
            Err("Cabeçalho de célula inválido."@)
        } else {
            let place = line.subrange(1, closing);
            match text::find_char(place, ',', 0) {
                None => Err("Cabeçalho de célula inválido."@),
                Some(comma) => {
                    let end = match text::find_char(line, '(', closing + 1) {
                        Some(i) => i,
                        None => line.len() as int,
                    };
                    match text::parsed_usize(text::trimmed(line.subrange(closing + 1, end))) {
                        None => Err("Quantidade de camadas inválida."@),
                        Some(layers) => match text::parsed_usize(text::trimmed(place.subrange(0, comma))) {
                            None => Err("Coordenada X inválida."@),
                            Some(x) => match text::parsed_usize(
                                text::trimmed(place.subrange(comma + 1, place.len() as int)),
                            ) {
                                None => Err("Coordenada Y inválida."@),
                                Some(y) => Ok((x, y, layers)),
                            },
                        },
                    }
                },
            }
        },
    }
}

pub fn parse_path_header(line: &[char]) -> (r: Result<(usize, usize, usize), String>)
    ensures
        text::seen(r) == cell_header(line@),
{
    let size: usize = line.len();
    let closing: usize = match text::position_of(line, ']', 0) {
        Some(closing) => closing,
        None => return Err("Cabeçalho de célula inválido.".to_owned()),
    };
    if closing < 1 || line[0] > '\u{7F}' {
        return Err("Cabeçalho de célula inválido.".to_owned());
    }
    let place = slice_subrange(line, 1, closing);
    let width: usize = place.len();
    let comma: usize = match text::position_of(place, ',', 0) {
        Some(comma) => comma,
        None => return Err("Cabeçalho de célula inválido.".to_owned()),
    };
    let end: usize = match text::position_of(line, '(', closing + 1) {
        Some(end) => end,
        None => size,
    };
    let layers: usize = match text::parse_usize(text::trim(slice_subrange(line, closing + 1, end))) {
        Some(layers) => layers,
        None => return Err("Quantidade de camadas inválida.".to_owned()),
    };
    let x: usize = match text::parse_usize(text::trim(slice_subrange(place, 0, comma))) {
        Some(x) => x,
        None => return Err("Coordenada X inválida.".to_owned()),
    };
    let y: usize = match text::parse_usize(text::trim(slice_subrange(place, comma + 1, width))) {
        Some(y) => y,
        None => return Err("Coordenada Y inválida.".to_owned()),
    };
    Ok((x, y, layers))
}

/// The number of bytes of a character in UTF-8.
pub open spec fn utf8_width(c: char) -> int {
    if c <= '\u{7F}' {
        1
    } else if c <= '\u{7FF}' {
        2
    } else if c <= '\u{FFFF}' {
        3
    } else {
        4
    }
}

/// The directions that flags give, when their first byte stands for direction
/// `at`: each of the first four bytes that is a one opens a direction.
pub open spec fn flag_directions(flags: Seq<char>, at: int) -> int
    decreases flags.len(),
{
    if flags.len() == 0 || at >= 4 {
        0
    } else {
        (if flags[0] == '1' {
            if at == 0 {
                1int
            } else if at == 1 {
                2
            } else if at == 2 {
                4
            } else {
                8
            }
        } else {
            0
        }) + flag_directions(flags.skip(1), at + utf8_width(flags[0]))
    }
}

proof fn directions_fit(flags: Seq<char>, at: int)
    requires
        at >= 0,
    ensures
        0 <= flag_directions(flags, at) <= 15,
        at >= 1 ==> flag_directions(flags, at) <= 14,
        at >= 2 ==> flag_directions(flags, at) <= 12,
        at >= 3 ==> flag_directions(flags, at) <= 8,
    decreases flags.len(),
{
    if flags.len() > 0 && at < 4 {
        directions_fit(flags.skip(1), at + utf8_width(flags[0]));
    }
}

fn directions_of(flags: &[char]) -> (r: u8)
    ensures
        r == flag_directions(flags@, 0),
{
    let mut nswe: u8 = 0;
    let mut index: usize = 0;
    let mut at: usize = 0;
    proof {
        directions_fit(flags@, 0);
    }
    assert(flags@.skip(0) =~= flags@);
    while index < flags.len() && at < 4
        invariant
            index <= flags@.len(),
            at <= 8,
            nswe + flag_directions(flags@.skip(index as int), at as int) == flag_directions(
                flags@,
                0,
            ),
            flag_directions(flags@, 0) <= 15,
        decreases flags.len() - index,
    {
        let c: char = flags[index];
        proof {
            assert(flags@.skip(index as int)[0] == c);
            assert(flags@.skip(index as int).skip(1) =~= flags@.skip(index + 1));
            directions_fit(flags@.skip(index + 1), at + utf8_width(c));
        }
        if c == '1' {
            nswe = nswe + if at == 0 {
                1
            } else if at == 1 {
                2
            } else if at == 2 {
                4
            } else {
                8
            };
        }
        at = at + if c <= '\u{7F}' {
            1
        } else if c <= '\u{7FF}' {
            2
        } else if c <= '\u{FFFF}' {
            3
        } else {
            4
        };
        index += 1;
    }
    nswe
}

/// The level between two brackets: a height and, behind a colon, flags.
pub open spec fn level_in(value: Seq<char>) -> Option<Cell> {
    let colon = text::find_char(value, ':', 0);
    let height = match colon {
        Some(i) => value.subrange(0, i),
        None => value,
    };
    let flags = match colon {
        Some(i) => value.subrange(i + 1, value.len() as int),
        None => Seq::empty(),
    };
    match text::parsed_i16(text::trimmed(height)) {
        Some(height) => Some(
            Cell { height, min_height: None, nswe: flag_directions(flags, 0) as u8 },
        ),
        None => None,
    }
}

fn parse_level(value: &[char]) -> (r: Option<Cell>)
    ensures
        r == level_in(value@),
{
    let size: usize = value.len();
    match text::position_of(value, ':', 0) {
        Some(i) => match text::parse_i16(text::trim(slice_subrange(value, 0, i))) {
            Some(height) => Some(
                Cell {
                    height,
                    min_height: None,
                    nswe: directions_of(slice_subrange(value, i + 1, size)),
                },
            ),
            None => None,
        },
        None => match text::parse_i16(text::trim(value)) {
            Some(height) => Some(Cell { height, min_height: None, nswe: 0 }),
            None => None,
        },
    }
}

/// The levels in the brackets of a line from `from` on, behind those found
/// before.
pub open spec fn levels_in(line: Seq<char>, from: int, found: Seq<Cell>) -> Result<
    Seq<Cell>,
    Seq<char>,
>
    decreases line.len() - from,
{
    match text::find_char(line, '(', from) {
        None => Ok(found),
        Some(start) => match text::find_char(line, ')', start + 1) {
            None => Err("Camada PATH_TXT não terminou."@),
            Some(end) => match level_in(line.subrange(start + 1, end)) {
                None => Err("Altura PATH_TXT inválida."@),
                Some(cell) => if from <= start < end < line.len() {
                    levels_in(line, end + 1, found.push(cell))
                } else {
                    Ok(found)
                },
            },
        },
    }
}

pub open spec fn level_count_text(expected: int, found: int) -> Seq<char> {
    "Esperadas "@ + text::decimal(expected) + " camadas, recebidas "@ + (text::decimal(found) + "."@)
}

/// The levels of the cell on a line that announces `count` of them.
pub open spec fn cell_levels(line: Seq<char>, count: int) -> Result<Seq<Cell>, Seq<char>> {
    if count == 0 {
        Ok(seq![unknown_level()])
    } else if count > 255 {
        Err("Quantidade de camadas inválida."@)
    } else {
        match levels_in(line, 0, Seq::empty()) {
            Err(e) => Err(e),
            Ok(found) => if found.len() != count {
                Err(level_count_text(count, found.len() as int))
            } else {
                Ok(found)
            },
        }
    }
}

pub fn parse_path_layers(line: &[char], layer_count: usize) -> (r: Result<Vec<Cell>, String>)
    ensures
        match r {
            Ok(cells) => cell_levels(line@, layer_count as int) == Ok::<Seq<Cell>, Seq<char>>(
                cells@,
            ) && 1 <= cells@.len() <= 255,
            Err(message) => cell_levels(line@, layer_count as int) == Err::<Seq<Cell>, Seq<char>>(
                message@,
            ),
        },
{
    if layer_count == 0 {
        let mut cells: Vec<Cell> = Vec::new();
        cells.push(unknown_cell());
        assert(cells@ =~= seq![unknown_level()]);
        return Ok(cells);
    }
    if layer_count > 255 {
        return Err("Quantidade de camadas inválida.".to_owned());
    }
    let size: usize = line.len();
    let mut values: Vec<Cell> = Vec::new();
    let mut from: usize = 0;
    let mut more: bool = true;
    while more
        invariant
            from <= size,
            size == line@.len(),
            more ==> levels_in(line@, from as int, values@) == levels_in(line@, 0, Seq::empty()),
            !more ==> levels_in(line@, 0, Seq::empty()) == Ok::<Seq<Cell>, Seq<char>>(values@),
            1 <= layer_count <= 255,
        decreases line@.len() - from, if more { 1int } else { 0int },
    {
        match text::position_of(line, '(', from) {
            None => {
                more = false;
            },
            Some(start) => {
                let end: usize = match text::position_of(line, ')', start + 1) {
                    Some(end) => end,
                    None => return Err("Camada PATH_TXT não terminou.".to_owned()),
                };
                match parse_level(slice_subrange(line, start + 1, end)) {
                    Some(cell) => {
                        values.push(cell);
                    },
                    None => return Err("Altura PATH_TXT inválida.".to_owned()),
                }
                from = end + 1;
            },
        }
    }
    if values.len() != layer_count {
        return Err(
            text::join(
                text::join3("Esperadas ", text::size_text(layer_count).as_str(), " camadas, recebidas ").as_str(),
                text::join(text::size_text(values.len()).as_str(), ".").as_str(),
            ),
        );
    }
    Ok(values)
}

/// The block that 64 cells make up: flat where every cell has one level, all of
/// one height and open on every side.
pub open spec fn normalized(cells: Seq<Seq<Cell>>) -> BlockModel {
    if exists|i: int| 0 <= i < cells.len() && (#[trigger] cells[i]).len() > 1 {
        BlockModel::MultiLevel(cells)
    } else if forall|i: int|
        0 <= i < cells.len() ==> (#[trigger] cells[i])[0].nswe == NSWE_ALL && cells[i][0].height
            == cells[0][0].height {
        BlockModel::Flat(
            Cell {
                height: cells[0][0].height,
                min_height: Some(cells[0][0].height),
                nswe: cells[0][0].nswe,
            },
        )
    } else {
        BlockModel::Complex(Seq::new(cells.len(), |i: int| cells[i][0]))
    }
}

/// Whether 64 cells have levels.
pub open spec fn is_complete_path_block(cells: Seq<Seq<Cell>>) -> bool {
    cells.len() == CELLS_PER_BLOCK && forall|i: int|
        0 <= i < cells.len() ==> (#[trigger] cells[i]).len() > 0
}

fn any_has_several(cells: &Vec<Vec<Cell>>) -> (r: bool)
    ensures
        r == exists|i: int|
            0 <= i < cells@.len() && (#[trigger] geodata::layers_seen(cells@)[i]).len() > 1,
{
    let ghost model = geodata::layers_seen(cells@);
    let mut index: usize = 0;
    while index < cells.len()
        invariant
            index <= cells@.len(),
            model == geodata::layers_seen(cells@),
            forall|i: int| 0 <= i < index ==> (#[trigger] model[i]).len() <= 1,
        decreases cells.len() - index,
    {
        assert(model[index as int] == cells@[index as int]@);
        if cells[index].len() > 1 {
            return true;
        }
        index += 1;
    }
    false
}

fn all_are_flat(cells: &Vec<Vec<Cell>>) -> (r: bool)
    requires
        is_complete_path_block(geodata::layers_seen(cells@)),
    ensures
        r == forall|i: int|
            0 <= i < cells@.len() ==> (#[trigger] geodata::layers_seen(cells@)[i])[0].nswe == NSWE_ALL
                && geodata::layers_seen(cells@)[i][0].height == geodata::layers_seen(cells@)[0][0].height,
{
    let ghost model = geodata::layers_seen(cells@);
    assert(model[0] == cells@[0]@ && model[0].len() > 0);
    let height: i16 = cells[0][0].height;
    let mut index: usize = 0;
    while index < cells.len()
        invariant
            index <= cells@.len(),
            model == geodata::layers_seen(cells@),
            is_complete_path_block(model),
            height == model[0][0].height,
            forall|i: int|
                0 <= i < index ==> (#[trigger] model[i])[0].nswe == NSWE_ALL && model[i][0].height
                    == height,
        decreases cells.len() - index,
    {
        assert(model[index as int] == cells@[index as int]@ && model[index as int].len() > 0);
        let first: Cell = cells[index][0];
        if first.nswe != NSWE_ALL || first.height != height {
            return false;
        }
        index += 1;
    }
    true
}

/// Makes a block of 64 cells.
pub fn normalize_path_block(cells: Vec<Vec<Cell>>) -> (r: Result<Block, String>)
    ensures
        match r {
            Ok(block) => is_complete_path_block(geodata::layers_seen(cells@)) && block@ == normalized(
                geodata::layers_seen(cells@),
            ),
            Err(message) => !is_complete_path_block(geodata::layers_seen(cells@)) && message@
                == "Bloco PATH_TXT incompleto."@,
        },
{
    let ghost model = geodata::layers_seen(cells@);
    if cells.len() != CELLS_PER_BLOCK || !geodata_region::all_have_levels(&cells) {
        return Err("Bloco PATH_TXT incompleto.".to_owned());
    }
    if any_has_several(&cells) {
        return Ok(Block::MultiLevel(cells));
    }
    assert(model[0] == cells@[0]@ && model[0].len() > 0);
    let first: Cell = cells[0][0];
    if all_are_flat(&cells) {
        return Ok(
            Block::Flat(
                Cell { height: first.height, min_height: Some(first.height), nswe: first.nswe },
            ),
        );
    }
    let mut single: Vec<Cell> = Vec::new();
    let mut index: usize = 0;
    while index < cells.len()
        invariant
            index <= cells@.len(),
            model == geodata::layers_seen(cells@),
            is_complete_path_block(model),
            single@.len() == index,
            forall|i: int| 0 <= i < index ==> #[trigger] single@[i] == model[i][0],
        decreases cells.len() - index,
    {
        assert(model[index as int] == cells@[index as int]@ && model[index as int].len() > 0);
        single.push(cells[index][0]);
        index += 1;
    }
    assert(single@ =~= Seq::new(model.len(), |i: int| model[i][0]));
    Ok(Block::Complex(single))
}

/// The levels of the cells that lines have given, by the number of the cell.
pub open spec fn cell_number(x: int, y: int) -> int {
    x * 2048 + y
}

pub open spec fn row_text(number: int, error: Seq<char>) -> Seq<char> {
    "Linha "@ + text::decimal(number) + ": "@ + error
}

/// What a line adds to the cells.
pub open spec fn with_row(
    line: Seq<char>,
    number: int,
    grid: Map<int, Seq<Cell>>,
) -> Result<Map<int, Seq<Cell>>, Seq<char>> {
    if line.len() == 0 || line[0] != '[' {
        Ok(grid)
    } else {
        match cell_header(line) {
            Err(e) => Err(row_text(number, e)),
            Ok((x, y, count)) => if x >= CELL_ROWS || y >= CELL_ROWS {
                Err(row_text(number, "coordenada de célula fora do intervalo."@))
            } else {
                match cell_levels(line, count as int) {
                    Err(e) => Err(row_text(number, e)),
                    Ok(levels) => Ok(grid.insert(cell_number(x as int, y as int), levels)),
                }
            },
        }
    }
}

/// What the lines from `from` on add to the cells; `index` lines stand before.
pub open spec fn with_rows(
    content: Seq<char>,
    from: int,
    index: int,
    grid: Map<int, Seq<Cell>>,
) -> Result<Map<int, Seq<Cell>>, Seq<char>>
    decreases content.len() - from,
{
    let end = text::line_end(content, from);
    if !(0 <= from <= end < content.len()) {
        with_row(text::trimmed(content.subrange(from, end)), index + 1, grid)
    } else {
        match with_row(text::trimmed(content.subrange(from, end)), index + 1, grid) {
            Err(e) => Err(e),
            Ok(next) => with_rows(content, end + 1, index + 1, next),
        }
    }
}

/// The levels of a cell, where nothing is known one level that is closed.
pub open spec fn levels_or_unknown(grid: Map<int, Seq<Cell>>, number: int) -> Seq<Cell> {
    if grid.contains_key(number) {
        grid[number]
    } else {
        seq![unknown_level()]
    }
}

/// The number of cell `k` of block `i`.
pub open spec fn cell_of_block(i: int, k: int) -> int {
    cell_number(i / 256 * 8 + k / 8, i % 256 * 8 + k % 8)
}

pub open spec fn block_levels(grid: Map<int, Seq<Cell>>, i: int) -> Seq<Seq<Cell>> {
    Seq::new(64, |k: int| levels_or_unknown(grid, cell_of_block(i, k)))
}

pub open spec fn grid_blocks(grid: Map<int, Seq<Cell>>) -> Seq<BlockModel> {
    Seq::new(REGION_BLOCKS as nat, |i: int| normalized(block_levels(grid, i)))
}

/// The region that a text file describes.
pub open spec fn path_region(path: Seq<char>, content: Seq<char>) -> Result<RegionModel, Seq<char>> {
    match geodata_region::named_coordinates(path) {
        Err(e) => Err(e),
        Ok((x, y)) => if !geodata_region::on_map(x, y) {
            Err(geodata_region::off_map_text(x, y))
        } else {
            match with_rows(content, 0, 0, Map::empty()) {
                Err(e) => Err(e),
                Ok(grid) => Ok(RegionModel { x, y, blocks: grid_blocks(grid) }),
            }
        },
    }
}

/// Whether a table holds the cells of a model.
pub open spec fn holds_grid(table: Seq<Option<Vec<Cell>>>, grid: Map<int, Seq<Cell>>) -> bool {
    &&& table.len() == 4194304
    &&& forall|n: int|
        0 <= n < table.len() ==> match #[trigger] table[n] {
            Some(levels) => grid.contains_key(n) && grid[n] == levels@ && 1 <= levels@.len()
                <= 255,
            None => !grid.contains_key(n),
        }
}

fn empty_table() -> (r: Vec<Option<Vec<Cell>>>)
    ensures
        holds_grid(r@, Map::empty()),
{
    let mut table: Vec<Option<Vec<Cell>>> = Vec::new();
    let mut index: usize = 0;
    while index < 4194304
        invariant
            index <= 4194304,
            table@.len() == index,
            forall|n: int| 0 <= n < index ==> (#[trigger] table@[n]) is None,
        decreases 4194304 - index,
    {
        table.push(None);
        index += 1;
    }
    table
}

fn row_message(number: usize, error: &str) -> (r: String)
    ensures
        r@ == row_text(number as int, error@),
{
    text::join(text::join3("Linha ", text::size_text(number).as_str(), ": ").as_str(), error)
}

fn parse_row(line: &[char], number: usize, table: &mut Vec<Option<Vec<Cell>>>, grid: Ghost<
    Map<int, Seq<Cell>>,
>) -> (r: Result<(), String>)
    requires
        holds_grid(old(table)@, grid@),
    ensures
        match r {
            Ok(()) => with_row(line@, number as int, grid@) matches Ok(next) && holds_grid(
                final(table)@,
                next,
            ),
            Err(message) => with_row(line@, number as int, grid@) == Err::<
                Map<int, Seq<Cell>>,
                Seq<char>,
            >(message@),
        },
{
    if line.len() == 0 || line[0] != '[' {
        return Ok(());
    }
    let (x, y, count): (usize, usize, usize) = match parse_path_header(line) {
        Ok(header) => header,
        Err(error) => return Err(row_message(number, error.as_str())),
    };
    if x >= CELL_ROWS || y >= CELL_ROWS {
        return Err(row_message(number, "coordenada de célula fora do intervalo."));
    }
    let levels = match parse_path_layers(line, count) {
        Ok(levels) => levels,
        Err(error) => return Err(row_message(number, error.as_str())),
    };
    let at: usize = x * 2048 + y;
    assert(at < 4194304);
    table.set(at, Some(levels));
    Ok(())
}

fn parse_rows(content: &[char]) -> (r: Result<Vec<Option<Vec<Cell>>>, String>)
    ensures
        match r {
            Ok(table) => with_rows(content@, 0, 0, Map::empty()) matches Ok(grid) && holds_grid(
                table@,
                grid,
            ),
            Err(message) => with_rows(content@, 0, 0, Map::empty()) == Err::<
                Map<int, Seq<Cell>>,
                Seq<char>,
            >(message@),
        },
{
    let size: usize = content.len();
    let mut table = empty_table();
    let ghost mut grid: Map<int, Seq<Cell>> = Map::empty();
    let mut from: usize = 0;
    let mut index: usize = 0;
    loop
        invariant
            index <= from <= size,
            size == content@.len(),
            holds_grid(table@, grid),
            with_rows(content@, from as int, index as int, grid) == with_rows(
                content@,
                0,
                0,
                Map::empty(),
            ),
        decreases size - from,
    {
        let end: usize = match text::position_of(content, '\n', from) {
            Some(end) => end,
            None => size,
        };
        let line = text::trim(slice_subrange(content, from, end));
        let ghost step = with_row(line@, index + 1, grid);
        if line.len() > 0 {
            proof {
                text::trimming_shortens(content@.subrange(from as int, end as int));
            }
            parse_row(line, index + 1, &mut table, Ghost(grid))?;
        }
        if end >= size {
            return Ok(table);
        }
        proof {
            grid = step->Ok_0;
        }
        from = end + 1;
        index += 1;
    }
}

fn copy_levels(levels: &Vec<Cell>) -> (r: Vec<Cell>)
    ensures
        r@ == levels@,
{
    let mut copy: Vec<Cell> = Vec::new();
    let mut index: usize = 0;
    while index < levels.len()
        invariant
            index <= levels@.len(),
            copy@ == levels@.take(index as int),
        decreases levels.len() - index,
    {
        copy.push(levels[index]);
        assert(copy@ =~= levels@.take(index + 1));
        index += 1;
    }
    assert(levels@.take(levels@.len() as int) =~= levels@);
    copy
}

fn table_block(table: &Vec<Option<Vec<Cell>>>, block: usize, grid: Ghost<Map<int, Seq<Cell>>>) -> (r:
    Vec<Vec<Cell>>)
    requires
        holds_grid(table@, grid@),
        block < REGION_BLOCKS,
    ensures
        geodata::layers_seen(r@) == block_levels(grid@, block as int),
        forall|i: int|
            0 <= i < 64 ==> 1 <= (#[trigger] block_levels(grid@, block as int)[i]).len() <= 255,
{
    let mut cells: Vec<Vec<Cell>> = Vec::new();
    let mut index: usize = 0;
    while index < 64
        invariant
            index <= 64,
            holds_grid(table@, grid@),
            block < REGION_BLOCKS,
            cells@.len() == index,
            forall|i: int|
                0 <= i < index ==> (#[trigger] cells@[i])@ == block_levels(grid@, block as int)[i]
                    && 1 <= cells@[i]@.len() <= 255,
        decreases 64 - index,
    {
        let x: usize = block / 256 * 8 + index / 8;
        let y: usize = block % 256 * 8 + index % 8;
        let at: usize = x * 2048 + y;
        assert(at == cell_of_block(block as int, index as int));
        assert(at < 4194304);
        let levels: Vec<Cell> = match &table[at] {
            Some(levels) => copy_levels(levels),
            None => {
                let mut single: Vec<Cell> = Vec::new();
                single.push(unknown_cell());
                assert(single@ =~= seq![unknown_level()]);
                single
            },
        };
        cells.push(levels);
        index += 1;
    }
    assert forall|i: int| 0 <= i < 64 implies 1 <= (#[trigger] block_levels(
        grid@,
        block as int,
    )[i]).len() <= 255 by {
        assert(cells@[i]@ == block_levels(grid@, block as int)[i]);
    }
    assert(geodata::layers_seen(cells@) =~= block_levels(grid@, block as int));
    cells
}

/// Reads a region from a text file.
pub fn parse_path_text(path: &str, content: &str) -> (r: Result<Region, String>)
    ensures
        geodata_region::region_result(r, path_region(path@, content@)),
        r matches Ok(region) ==> geodata::is_whole_region(region@),
{
    let (x, y): (i32, i32) = geodata_region::coordinates_from_name(path)?;
    if !geodata_region::valid_coordinates(x, y) {
        return Err(geodata_region::off_map_message(x, y));
    }
    let table = parse_rows(text::chars_of(content).as_slice())?;
    let ghost grid = with_rows(content@, 0, 0, Map::empty())->Ok_0;
    let mut blocks: Vec<Block> = Vec::new();
    let mut index: usize = 0;
    while index < REGION_BLOCKS
        invariant
            index <= REGION_BLOCKS,
            holds_grid(table@, grid),
            blocks@.len() == index,
            forall|i: int|
                0 <= i < index ==> (#[trigger] blocks@[i])@ == grid_blocks(grid)[i]
                    && geodata::is_whole_block(blocks@[i]@),
        decreases REGION_BLOCKS - index,
    {
        let cells = table_block(&table, index, Ghost(grid));
        let block = normalize_path_block(cells)?;
        assert(block@ == grid_blocks(grid)[index as int]);
        assert(geodata::is_whole_block(block@));
        blocks.push(block);
        index += 1;
    }
    assert(geodata::blocks_seen(blocks@) =~= grid_blocks(grid));
    Region::new(x, y, blocks)
}

} // verus!
