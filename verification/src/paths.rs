//! File names in Windows paths. Both separators count, but for verbatim paths,
//! and what stands for a drive, a share or a device names no file.

use vstd::prelude::*;
use vstd::slice::slice_subrange;
use crate::formats::UtxFormat;
use crate::formats;
use crate::text;

verus! {

pub open spec fn is_separator(c: char) -> bool {
    c == '/' || c == '\\'
}

/// Whether a character separates components: in verbatim paths only the
/// backslash does.
pub open spec fn divides(c: char, verbatim: bool) -> bool {
    c == '\\' || (c == '/' && !verbatim)
}

/// Whether a path starts with the prefix of verbatim paths.
pub open spec fn is_verbatim_path(path: Seq<char>) -> bool {
    path.len() >= 4 && path[0] == '\\' && path[1] == '\\' && path[2] == '?' && path[3] == '\\'
}

/// Where the component that starts at `from` ends.
pub open spec fn component_end(path: Seq<char>, from: int, verbatim: bool) -> int
    decreases path.len() - from,
{
    if from < 0 || from >= path.len() {
        path.len() as int
    } else if divides(path[from], verbatim) {
        from
    } else {
        component_end(path, from + 1, verbatim)
    }
}

/// Whether a verbatim path leads to a share.
pub open spec fn is_verbatim_share(path: Seq<char>) -> bool {
    path.len() >= 8 && path[4] == 'U' && path[5] == 'N' && path[6] == 'C' && path[7] == '\\'
}

/// Whether a path starts with the letter of a drive.
pub open spec fn has_drive(path: Seq<char>) -> bool {
    path.len() >= 2 && path[1] == ':' && ('a' <= path[0] <= 'z' || 'A' <= path[0] <= 'Z')
}

/// The length of the prefix of a path: a verbatim prefix (`\\?\C:`,
/// `\\?\UNC\server\share`), a device (`\\.\COM42`), a share
/// (`\\server\share`) or a drive (`C:`).
pub open spec fn prefix_len(path: Seq<char>) -> int {
    if is_verbatim_path(path) {
        if is_verbatim_share(path) {
            component_end(path, component_end(path, 8, true) + 1, true)
        } else {
            component_end(path, 4, true)
        }
    } else if path.len() >= 2 && is_separator(path[0]) && is_separator(path[1]) {
        if path.len() >= 4 && path[2] == '.' && is_separator(path[3]) {
            component_end(path, 4, false)
        } else {
            let server = component_end(path, 2, false);
            let share = component_end(path, server + 1, false);
            if server > 2 && share > server + 1 {
                share
            } else {
                0
            }
        }
    } else if has_drive(path) {
        2
    } else {
        0
    }
}

/// A path without separators at its end, nor, unless it is verbatim, components
/// that stand for the directory they are in.
pub open spec fn without_tail(path: Seq<char>, verbatim: bool) -> Seq<char>
    decreases path.len(),
{
    if path.len() == 0 {
        path
    } else if divides(path.last(), verbatim) {
        without_tail(path.drop_last(), verbatim)
    } else if !verbatim && path.last() == '.' && path.len() >= 2 && is_separator(
        path[path.len() - 2],
    ) {
        without_tail(path.drop_last(), verbatim)
    } else {
        path
    }
}

/// The length of what stands before the last component of the first `end`
/// characters of a path.
pub open spec fn component_start(path: Seq<char>, end: int, verbatim: bool) -> int
    decreases end,
{
    if end <= 0 {
        0
    } else if divides(path[end - 1], verbatim) {
        end
    } else {
        component_start(path, end - 1, verbatim)
    }
}

/// What stands behind the prefix of a path, up to the end of its last component.
pub open spec fn unprefixed(path: Seq<char>) -> Seq<char> {
    without_tail(path.skip(prefix_len(path)), is_verbatim_path(path))
}

/// Where the last component of a path starts behind its prefix.
pub open spec fn name_start(path: Seq<char>) -> int {
    let whole = unprefixed(path);
    component_start(whole, whole.len() as int, is_verbatim_path(path))
}

/// The last component of a path, if that names something.
pub open spec fn file_name_of(path: Seq<char>) -> Option<Seq<char>> {
    let name = unprefixed(path).skip(name_start(path));
    if name.len() == 0 || name == seq!['.'] || name == seq!['.', '.'] {
        None
    } else {
        Some(name)
    }
}

/// Whether a folder ends where the last component of a path may start.
pub open spec fn is_folder_in(folder: Seq<char>, path: Seq<char>) -> bool {
    &&& prefix_len(path) <= folder.len()
    &&& folder.len() == prefix_len(path) || divides(folder.last(), is_verbatim_path(path))
}

/// Whether a text can be the last component of a path.
pub open spec fn is_component(name: Seq<char>) -> bool {
    &&& name.len() > 0
    &&& name.last() != '.'
    &&& forall|i: int| 0 <= i < name.len() ==> !is_separator(#[trigger] name[i])
}

proof fn prefixes_have_lengths(path: Seq<char>)
    ensures
        0 <= prefix_len(path),
{
    components_end_behind(path, 4, true);
    components_end_behind(path, 8, true);
    components_end_behind(path, component_end(path, 8, true) + 1, true);
    components_end_behind(path, 4, false);
    components_end_behind(path, 2, false);
    components_end_behind(path, component_end(path, 2, false) + 1, false);
}

proof fn components_end_behind(path: Seq<char>, from: int, verbatim: bool)
    ensures
        0 <= component_end(path, from, verbatim) <= path.len(),
    decreases path.len() - from,
{
    if 0 <= from < path.len() && !divides(path[from], verbatim) {
        components_end_behind(path, from + 1, verbatim);
    }
}

proof fn component_starts_behind(path: Seq<char>, start: int, end: int, verbatim: bool)
    requires
        0 <= start <= end <= path.len(),
        start == 0 || divides(path[start - 1], verbatim),
        forall|i: int| start <= i < end ==> !divides(#[trigger] path[i], verbatim),
    ensures
        component_start(path, end, verbatim) == start,
    decreases end,
{
    if start < end {
        component_starts_behind(path, start, end - 1, verbatim);
    }
}

/// The name behind a folder is the file name of the whole path.
pub proof fn names_stand_behind_folders(folder: Seq<char>, name: Seq<char>)
    requires
        is_component(name),
        is_folder_in(folder, folder + name),
    ensures
        file_name_of(folder + name) == Some(name),
{
    let path = folder + name;
    let verbatim = is_verbatim_path(path);
    prefixes_have_lengths(path);
    let n = prefix_len(path);
    let whole = path.skip(n);
    let start = folder.len() - n;
    assert(whole.last() == name.last());
    assert(!is_separator(name[name.len() - 1]));
    assert forall|i: int| start <= i < whole.len() implies !divides(
        #[trigger] whole[i],
        verbatim,
    ) by {
        assert(whole[i] == name[i - start]);
    }
    if start > 0 {
        assert(whole[start - 1] == folder.last());
    }
    component_starts_behind(whole, start, whole.len() as int, verbatim);
    assert(unprefixed(path) == whole);
    assert(whole.skip(start) =~= name);
    assert(name != seq!['.'] && name != seq!['.', '.']) by {
        if name == seq!['.'] || name == seq!['.', '.'] {
            assert(name.last() == '.');
        }
    }
}

/// Whether a path starts at no drive, share or root.
pub open spec fn is_relative(path: Seq<char>) -> bool {
    path.len() > 0 && !is_separator(path[0]) && !has_drive(path)
}

proof fn tails_are_cut(path: Seq<char>, verbatim: bool)
    ensures
        without_tail(path, verbatim).len() <= path.len(),
        without_tail(path, verbatim) == path.take(without_tail(path, verbatim).len() as int),
    decreases path.len(),
{
    let whole = without_tail(path, verbatim);
    if path.len() > 0 && whole != path {
        tails_are_cut(path.drop_last(), verbatim);
        assert(path.drop_last().take(whole.len() as int) =~= path.take(whole.len() as int));
    } else {
        assert(path.take(path.len() as int) =~= path);
    }
}

proof fn components_start_behind(path: Seq<char>, end: int, verbatim: bool)
    requires
        0 <= end <= path.len(),
    ensures
        ({
            let start = component_start(path, end, verbatim);
            &&& 0 <= start <= end
            &&& start == 0 || divides(path[start - 1], verbatim)
        }),
    decreases end,
{
    if end > 0 && !divides(path[end - 1], verbatim) {
        components_start_behind(path, end - 1, verbatim);
    }
}

/// Another name can stand in the folder of a relative path.
pub proof fn folders_take_other_names(relative: Seq<char>, name: Seq<char>)
    requires
        is_relative(relative),
        is_component(name),
        !has_drive(name),
    ensures
        is_folder_in(folder_of(relative), folder_of(relative) + name),
{
    assert(relative.skip(0) =~= relative);
    tails_are_cut(relative, false);
    let whole = unprefixed(relative);
    components_start_behind(whole, whole.len() as int, false);
    let folder = folder_of(relative);
    let path = folder + name;
    if folder.len() == 0 {
        assert(path =~= name);
        assert(!is_separator(name[0]));
    } else {
        assert(folder.last() == whole[folder.len() - 1]);
        assert(path[0] == relative[0]);
        assert(folder.len() > 1) by {
            if folder.len() == 1 {
                assert(is_separator(relative[0]));
            }
        }
        assert(path[1] == relative[1]);
    }
}

/// The place of the dot before the extension of a file name.
pub open spec fn extension_dot(name: Seq<char>) -> Option<int> {
    match text::find_last_char(name, '.', name.len() as int) {
        Some(i) => if i == 0 {
            None
        } else {
            Some(i)
        },
        None => None,
    }
}

pub open spec fn stem_of(path: Seq<char>) -> Option<Seq<char>> {
    match file_name_of(path) {
        None => None,
        Some(name) => match extension_dot(name) {
            None => Some(name),
            Some(i) => Some(name.take(i)),
        },
    }
}

pub open spec fn path_extension_of(path: Seq<char>) -> Option<Seq<char>> {
    match file_name_of(path) {
        None => None,
        Some(name) => match extension_dot(name) {
            None => None,
            Some(i) => Some(name.skip(i + 1)),
        },
    }
}

/// A part of a path that is handed to callers.
pub open spec fn part_result(r: Option<String>, model: Option<Seq<char>>) -> bool {
    match r {
        Some(part) => model == Some(part@),
        None => model is None,
    }
}

fn separates(c: char, verbatim: bool) -> (r: bool)
    ensures
        r == divides(c, verbatim),
{
    c == '\\' || (c == '/' && !verbatim)
}

fn end_of_component(path: &[char], from: usize, verbatim: bool) -> (r: usize)
    ensures
        r == component_end(path@, from as int, verbatim),
        r <= path@.len(),
{
    let length: usize = path.len();
    if from >= length {
        return length;
    }
    let mut end: usize = from;
    while end < length && !separates(path[end], verbatim)
        invariant
            from <= end <= length == path@.len(),
            component_end(path@, from as int, verbatim) == component_end(
                path@,
                end as int,
                verbatim,
            ),
        decreases length - end,
    {
        end = end + 1;
    }
    end
}

fn starts_verbatim(path: &[char]) -> (r: bool)
    ensures
        r == is_verbatim_path(path@),
{
    path.len() >= 4 && path[0] == '\\' && path[1] == '\\' && path[2] == '?' && path[3] == '\\'
}

/// The end of the component behind the one that ends at `end`.
fn end_of_next(path: &[char], end: usize, verbatim: bool) -> (r: usize)
    requires
        end <= path@.len(),
    ensures
        r == component_end(path@, end + 1, verbatim),
        r <= path@.len(),
{
    let length: usize = path.len();
    if end == length {
        length
    } else {
        end_of_component(path, end + 1, verbatim)
    }
}

/// The length of the prefix of a path.
fn prefix_end(path: &[char]) -> (r: usize)
    ensures
        r == prefix_len(path@),
        r <= path@.len(),
{
    let length: usize = path.len();
    if starts_verbatim(path) {
        if length >= 8 && path[4] == 'U' && path[5] == 'N' && path[6] == 'C' && path[7] == '\\' {
            let server: usize = end_of_component(path, 8, true);
            return end_of_next(path, server, true);
        }
        return end_of_component(path, 4, true);
    }
    if length >= 2 && separates(path[0], false) && separates(path[1], false) {
        if length >= 4 && path[2] == '.' && separates(path[3], false) {
            return end_of_component(path, 4, false);
        }
        let server: usize = end_of_component(path, 2, false);
        let share: usize = end_of_next(path, server, false);
        return if server > 2 && share > server && share - server > 1 {
            share
        } else {
            0
        };
    }
    if length >= 2 && path[1] == ':' && (('a' <= path[0] && path[0] <= 'z') || ('A' <= path[0]
        && path[0] <= 'Z')) {
        return 2;
    }
    0
}

/// Where the prefix of a path ends, and where its last component starts and ends.
fn component_bounds(path: &[char]) -> (r: (usize, usize, usize))
    ensures
        r.0 == prefix_len(path@),
        r.0 <= r.1 <= r.2 <= path@.len(),
        unprefixed(path@) == path@.subrange(r.0 as int, r.2 as int),
        r.1 == r.0 + name_start(path@),
{
    let verbatim = starts_verbatim(path);
    let prefix: usize = prefix_end(path);
    let mut end: usize = path.len();
    let ghost rest = path@.skip(prefix as int);
    assert(path@.subrange(prefix as int, end as int) =~= rest);
    while end > prefix && (separates(path[end - 1], verbatim) || (!verbatim && path[end - 1] == '.'
        && end - prefix >= 2 && separates(path[end - 2], false)))
        invariant
            prefix <= end <= path@.len(),
            without_tail(rest, verbatim) == without_tail(
                path@.subrange(prefix as int, end as int),
                verbatim,
            ),
        decreases end,
    {
        assert(path@.subrange(prefix as int, end as int).drop_last() =~= path@.subrange(
            prefix as int,
            end - 1,
        ));
        end = end - 1;
    }
    let ghost whole = unprefixed(path@);
    assert(whole =~= path@.subrange(prefix as int, end as int));
    let mut start: usize = end;
    while start > prefix && !separates(path[start - 1], verbatim)
        invariant
            prefix <= start <= end <= path@.len(),
            whole == path@.subrange(prefix as int, end as int),
            component_start(whole, end - prefix, verbatim) == component_start(
                whole,
                start - prefix,
                verbatim,
            ),
        decreases start,
    {
        start = start - 1;
    }
    (prefix, start, end)
}

/// The last component of a path.
fn last_component<'a>(path: &'a [char]) -> (r: Option<&'a [char]>)
    ensures
        match r {
            Some(name) => file_name_of(path@) == Some(name@),
            None => file_name_of(path@) is None,
        },
{
    let (_, start, end) = component_bounds(path);
    let name = slice_subrange(path, start, end);
    assert(name@ =~= unprefixed(path@).skip(name_start(path@)));
    if name.len() == 0 {
        return None;
    }
    if name.len() == 1 && name[0] == '.' {
        assert(name@ =~= seq!['.']);
        return None;
    }
    if name.len() == 2 && name[0] == '.' && name[1] == '.' {
        assert(name@ =~= seq!['.', '.']);
        return None;
    }
    proof {
        assert(seq!['.'].len() == 1 && seq!['.'][0] == '.');
        assert(seq!['.', '.'].len() == 2 && seq!['.', '.'][0] == '.' && seq!['.', '.'][1] == '.');
    }
    Some(name)
}

/// What stands before the last component of a path, with the separator.
pub open spec fn folder_of(path: Seq<char>) -> Seq<char> {
    path.take(prefix_len(path) + name_start(path))
}

pub fn folder(path: &str) -> (r: String)
    ensures
        r@ == folder_of(path@),
{
    let chars = text::chars_of(path);
    let (_, start, _) = component_bounds(chars.as_slice());
    assert(chars@.subrange(0, start as int) =~= folder_of(path@));
    text::text_of(slice_subrange(chars.as_slice(), 0, start))
}

pub fn file_name(path: &str) -> (r: Option<String>)
    ensures
        part_result(r, file_name_of(path@)),
{
    let chars = text::chars_of(path);
    match last_component(chars.as_slice()) {
        Some(name) => Some(text::text_of(name)),
        None => None,
    }
}

/// The place of the dot before the extension of a file name.
fn dot_of(name: &[char]) -> (r: Option<usize>)
    ensures
        match r {
            Some(i) => extension_dot(name@) == Some(i as int) && i < name@.len(),
            None => extension_dot(name@) is None,
        },
{
    match text::last_position_of(name, '.') {
        Some(i) => if i == 0 {
            None
        } else {
            Some(i)
        },
        None => None,
    }
}

pub fn file_stem(path: &str) -> (r: Option<String>)
    ensures
        part_result(r, stem_of(path@)),
{
    let chars = text::chars_of(path);
    match last_component(chars.as_slice()) {
        None => None,
        Some(name) => match dot_of(name) {
            None => Some(text::text_of(name)),
            Some(i) => {
                assert(name@.subrange(0, i as int) =~= name@.take(i as int));
                Some(text::text_of(slice_subrange(name, 0, i)))
            },
        },
    }
}

pub fn extension(path: &str) -> (r: Option<String>)
    ensures
        part_result(r, path_extension_of(path@)),
{
    let chars = text::chars_of(path);
    match last_component(chars.as_slice()) {
        None => None,
        Some(name) => match dot_of(name) {
            None => None,
            Some(i) => {
                let end: usize = name.len();
                assert(name@.subrange(i + 1, end as int) =~= name@.skip(i + 1));
                Some(text::text_of(slice_subrange(name, i + 1, end)))
            },
        },
    }
}

/// The name under which a file is shown.
pub open spec fn shown_name(path: Seq<char>) -> Seq<char> {
    match file_name_of(path) {
        Some(name) => name,
        None => path,
    }
}

pub fn display_file_name(path: &str) -> (r: String)
    ensures
        r@ == shown_name(path@),
{
    match file_name(path) {
        Some(name) => name,
        None => path.to_owned(),
    }
}

/// Whether a path has the given extension, without regard to case.
pub open spec fn has_extension_of(path: Seq<char>, wanted: Seq<char>) -> bool {
    path_extension_of(path) matches Some(found) && text::same_folded(found, wanted)
}

pub fn has_extension(path: &str, wanted: &str) -> (r: bool)
    ensures
        r == has_extension_of(path@, wanted@),
{
    match extension(path) {
        Some(found) => text::equals_folded(found.as_str(), wanted),
        None => false,
    }
}

/// Whether a file may hold a texture.
pub open spec fn importable(path: Seq<char>) -> bool {
    has_extension_of(path, "tga"@) || has_extension_of(path, "dds"@)
}

pub fn is_importable_texture_path(path: &str) -> (r: bool)
    ensures
        r == importable(path@),
{
    has_extension(path, "tga") || has_extension(path, "dds")
}

/// The name of the texture that a file holds.
pub open spec fn texture_name_of(path: Seq<char>) -> Result<Seq<char>, Seq<char>> {
    match stem_of(path) {
        None => Err("Não foi possível obter o nome da textura pelo arquivo selecionado."@),
        Some(stem) => {
            let name = text::trimmed(stem);
            if name.len() == 0 {
                Err("Não foi possível obter o nome da textura pelo arquivo selecionado."@)
            } else if name.contains('.') {
                Err("O nome do arquivo não pode conter ponto; use, por exemplo, MeuBotao.tga."@)
            } else {
                Ok(name)
            }
        },
    }
}

/// A text that is handed to callers.
pub open spec fn text_result(r: Result<String, String>, model: Result<Seq<char>, Seq<char>>) -> bool {
    match r {
        Ok(name) => model == Ok::<Seq<char>, Seq<char>>(name@),
        Err(message) => model == Err::<Seq<char>, Seq<char>>(message@),
    }
}

pub fn imported_texture_name(path: &str) -> (r: Result<String, String>)
    ensures
        text_result(r, texture_name_of(path@)),
{
    let stem = match file_stem(path) {
        Some(stem) => stem,
        None => return Err(
            "Não foi possível obter o nome da textura pelo arquivo selecionado.".to_owned(),
        ),
    };
    let chars = text::chars_of(stem.as_str());
    let name = text::trim(chars.as_slice());
    if name.len() == 0 {
        return Err(
            "Não foi possível obter o nome da textura pelo arquivo selecionado.".to_owned(),
        );
    }
    let text = text::text_of(name);
    if text::contains_char(text.as_str(), '.') {
        return Err(
            "O nome do arquivo não pode conter ponto; use, por exemplo, MeuBotao.tga.".to_owned(),
        );
    }
    Ok(text)
}

/// Whether a texture of this format may be exported to a path: its extension, if
/// it has one, is that of the format.
pub open spec fn export_path_fits(path: Seq<char>, format: UtxFormat) -> bool {
    path_extension_of(path) matches Some(found) ==> text::same_folded(found, formats::extension_of(format))
}

pub fn validate_export_extension(path: &str, format: UtxFormat) -> (r: Result<(), String>)
    ensures
        text::seen(r) == (if export_path_fits(path@, format) {
            Ok::<(), Seq<char>>(())
        } else {
            Err::<(), Seq<char>>(
                "Esta textura deve ser exportada como ."@ + formats::extension_of(format) + "."@,
            )
        }),
{
    match extension(path) {
        Some(found) => if text::equals_folded(found.as_str(), format.export_extension()) {
            Ok(())
        } else {
            Err(text::join3("Esta textura deve ser exportada como .", format.export_extension(), "."))
        },
        None => Ok(()),
    }
}

/// A character as it may stand in a file name.
pub open spec fn file_char(c: char) -> char {
    if c == '<' || c == '>' || c == ':' || c == '"' || c == '/' || c == '\\' || c == '|' || c == '?'
        || c == '*' {
        '_'
    } else {
        c
    }
}

/// The name of the file that a texture is exported to, without its extension.
pub open spec fn export_name(name: Seq<char>) -> Seq<char> {
    text::after_last_dot(name).map_values(|c: char| file_char(c))
}

pub fn file_name_for_export(name: &str) -> (r: String)
    ensures
        r@ == export_name(name@),
{
    let chars = text::chars_of(name);
    let leaf = text::dot_leaf(chars.as_slice());
    let mut output: Vec<char> = Vec::new();
    let mut i: usize = 0;
    while i < leaf.len()
        invariant
            i <= leaf@.len(),
            output@.len() == i,
            forall|k: int| 0 <= k < i ==> #[trigger] output@[k] == file_char(leaf@[k]),
        decreases leaf.len() - i,
    {
        let c: char = leaf[i];
        let safe: char = match c {
            '<' | '>' | ':' | '"' | '/' | '\\' | '|' | '?' | '*' => '_',
            _ => c,
        };
        output.push(safe);
        i = i + 1;
    }
    assert(output@ =~= export_name(name@));
    text::text_of(output.as_slice())
}

/// The name of a new package, from the path of its file.
pub open spec fn is_package_name(name: Seq<char>) -> bool {
    forall|i: int| 0 <= i < name.len() ==> is_package_char(#[trigger] name[i])
}

pub open spec fn is_package_char(c: char) -> bool {
    ('a' <= c && c <= 'z') || ('A' <= c && c <= 'Z') || ('0' <= c && c <= '9') || c == '_'
}

/// Whether something stands before the last component of a path.
pub open spec fn has_parent(path: Seq<char>) -> bool {
    prefix_len(path) + name_start(path) > 0
}

/// What a new package file may be called. `taken` and `has_directory` say what
/// was found on disk.
pub open spec fn new_package_name(path: Seq<char>, taken: bool, has_directory: bool) -> Result<
    Seq<char>,
    Seq<char>,
> {
    if taken {
        Err("Já existe um arquivo com esse nome. Escolha outro nome ou local."@)
    } else if !has_extension_of(path, "utx"@) {
        Err("O novo pacote deve usar a extensão .utx."@)
    } else if !has_parent(path) {
        Err("Escolha uma pasta válida para salvar o novo UTX."@)
    } else if !has_directory {
        Err("A pasta escolhida para salvar o UTX não existe."@)
    } else {
        match stem_of(path) {
            None => Err("Informe um nome válido para o pacote UTX."@),
            Some(name) => if name.len() == 0 {
                Err("Informe um nome válido para o pacote UTX."@)
            } else if !is_package_name(name) {
                Err(
                    "O nome do UTX deve usar apenas letras, números e sublinhado; use, por exemplo, L2UI_Custom."@,
                )
            } else {
                Ok(name)
            },
        }
    }
}

fn has_parent_directory(path: &str) -> (r: bool)
    ensures
        r == has_parent(path@),
{
    let chars = text::chars_of(path);
    let (_, start, _) = component_bounds(chars.as_slice());
    start > 0
}

fn has_package_chars(name: &[char]) -> (r: bool)
    ensures
        r == is_package_name(name@),
{
    let mut i: usize = 0;
    while i < name.len()
        invariant
            i <= name@.len(),
            forall|k: int| 0 <= k < i ==> is_package_char(#[trigger] name@[k]),
        decreases name.len() - i,
    {
        let c: char = name[i];
        if !(('a' <= c && c <= 'z') || ('A' <= c && c <= 'Z') || ('0' <= c && c <= '9') || c
            == '_') {
            return false;
        }
        i = i + 1;
    }
    true
}

pub fn validate_new_utx_destination(path: &str, taken: bool, has_directory: bool) -> (r: Result<
    String,
    String,
>)
    ensures
        text_result(r, new_package_name(path@, taken, has_directory)),
{
    if taken {
        return Err(
            "Já existe um arquivo com esse nome. Escolha outro nome ou local.".to_owned(),
        );
    }
    if !has_extension(path, "utx") {
        return Err("O novo pacote deve usar a extensão .utx.".to_owned());
    }
    if !has_parent_directory(path) {
        return Err("Escolha uma pasta válida para salvar o novo UTX.".to_owned());
    }
    if !has_directory {
        return Err("A pasta escolhida para salvar o UTX não existe.".to_owned());
    }
    let name = match file_stem(path) {
        Some(name) => name,
        None => return Err("Informe um nome válido para o pacote UTX.".to_owned()),
    };
    let chars = text::chars_of(name.as_str());
    if chars.len() == 0 {
        return Err("Informe um nome válido para o pacote UTX.".to_owned());
    }
    if !has_package_chars(chars.as_slice()) {
        return Err(
            "O nome do UTX deve usar apenas letras, números e sublinhado; use, por exemplo, L2UI_Custom.".to_owned(),
        );
    }
    Ok(name)
}

/// Whether a group that textures are imported into may have this name.
pub open spec fn import_group_fits(name: Seq<char>) -> bool {
    text::same_folded(name, "Pacote principal"@) || (text::all_ascii(name) && !name.contains('.'))
}

pub open spec fn import_group_text() -> Seq<char> {
    "O nome do grupo deve usar apenas ASCII e não pode conter ponto; use, por exemplo, CandidateWnd."@
}

pub fn validate_texture_group_name(group_name: &str) -> (r: Result<(), String>)
    ensures
        text::seen(r) == (if import_group_fits(group_name@) {
            Ok::<(), Seq<char>>(())
        } else {
            Err::<(), Seq<char>>(import_group_text())
        }),
{
    let chars = text::chars_of(group_name);
    if text::equals_folded(group_name, "Pacote principal") || (text::is_ascii_text(chars.as_slice())
        && !text::contains_char(group_name, '.')) {
        Ok(())
    } else {
        Err(
            "O nome do grupo deve usar apenas ASCII e não pode conter ponto; use, por exemplo, CandidateWnd.".to_owned(),
        )
    }
}

} // verus!
