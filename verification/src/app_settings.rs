//! The settings of the application: the file that keeps them, and how they are
//! read from it and stored in it.

use vstd::prelude::*;
use crate::sorting;
use crate::text;

verus! {

/// Joins a directory and the name of a file with `std::path::Path::join`: the
/// name stands behind the directory, with one separator between them that is
/// there already or added. Which separator is added, and whether a backslash or
/// a colon at the end needs one, is up to the system. The path ends with the
/// name; of directories that start with the prefix of verbatim Windows paths,
/// which are written anew without `.` and `..`, no more is said. The name is
/// neither of the two.
#[verifier::external_body]
fn join_path(directory: &str, name: &str) -> (r: String)
    requires
        is_plain_name(name@),
    ensures
        text::ends_with(r@, name@),
        !is_verbatim(directory@) ==> r@ == directory@ + name@ || r@ == directory@ + "/"@ + name@
            || r@ == directory@ + "\\"@ + name@,
        !is_verbatim(directory@) && (directory@.len() == 0 || directory@.last() == '/') ==> r@
            == directory@ + name@,
        !is_verbatim(directory@) && directory@.len() > 0 && directory@.last() != '/'
            && directory@.last() != '\\' && directory@.last() != ':' ==> r@ != directory@ + name@,
{
    std::path::Path::new(directory).join(name).to_string_lossy().into_owned()
}

/// Whether a directory starts with the prefix of verbatim Windows paths.
pub open spec fn is_verbatim(directory: Seq<char>) -> bool {
    text::starts_with(directory, "\\\\?\\"@)
}

/// Whether a text is the name of a file without a directory, and starts with a
/// letter.
pub open spec fn is_plain_name(name: Seq<char>) -> bool {
    name.len() > 0 && 'a' <= name[0] <= 'z' && forall|i: int|
        0 <= i < name.len() ==> {
            let c = #[trigger] name[i];
            'a' <= c <= 'z' || c == '.'
        }
}

/// Whether a path is that of a file of the given name in a directory.
pub open spec fn is_file_in(path: Seq<char>, directory: Seq<char>, name: Seq<char>) -> bool {
    if directory.len() == 0 || directory.last() == '/' {
        path == directory + name
    } else if directory.last() == '\\' || directory.last() == ':' {
        path == directory + name || path == directory + "/"@ + name || path == directory + "\\"@
            + name
    } else {
        path == directory + "/"@ + name || path == directory + "\\"@ + name
    }
}

/// The settings file in the directory of the application.
pub fn settings_file(app_data_directory: &str) -> (r: String)
    ensures
        text::ends_with(r@, "settings.json"@),
        !is_verbatim(app_data_directory@) ==> is_file_in(
            r@,
            app_data_directory@,
            "settings.json"@,
        ),
{
    proof {
        reveal_strlit("settings.json");
    }
    join_path(app_data_directory, "settings.json")
}

/// The file that new settings are written to before they take the place of the
/// old ones.
pub fn temporary_settings_file(app_data_directory: &str) -> (r: String)
    ensures
        text::ends_with(r@, "settings.json.tmp"@),
        !is_verbatim(app_data_directory@) ==> is_file_in(
            r@,
            app_data_directory@,
            "settings.json.tmp"@,
        ),
{
    proof {
        reveal_strlit("settings.json.tmp");
    }
    join_path(app_data_directory, "settings.json.tmp")
}

/// Settings by name.
#[derive(Debug)]
pub struct AppSettings {
    pub entries: Vec<(String, String)>,
}

/// The names and the values of settings.
pub open spec fn pairs_seen(entries: Seq<(String, String)>) -> Seq<(Seq<char>, Seq<char>)> {
    Seq::new(entries.len(), |i: int| (entries[i].0@, entries[i].1@))
}

/// Whether settings come by ascending name. No name is there twice.
pub open spec fn are_by_name(pairs: Seq<(Seq<char>, Seq<char>)>) -> bool {
    forall|i: int, j: int|
        0 <= i < j < pairs.len() ==> sorting::text_less(
            (#[trigger] pairs[i]).0,
            (#[trigger] pairs[j]).0,
        )
}

impl View for AppSettings {
    type V = Seq<(Seq<char>, Seq<char>)>;

    open spec fn view(&self) -> Seq<(Seq<char>, Seq<char>)> {
        pairs_seen(self.entries@)
    }
}

impl AppSettings {
    pub open spec fn wf(&self) -> bool {
        are_by_name(self@)
    }

    /// No settings.
    pub fn new() -> (r: Self)
        ensures
            r.wf(),
            r@ == Seq::<(Seq<char>, Seq<char>)>::empty(),
    {
        let settings = AppSettings { entries: Vec::new() };
        assert(settings@ =~= Seq::empty());
        settings
    }

    /// The place of the first setting whose name is not before the given one.
    fn place_of(&self, name: &str) -> (r: usize)
        requires
            self.wf(),
        ensures
            r <= self@.len(),
            forall|i: int| 0 <= i < r ==> sorting::text_less((#[trigger] self@[i]).0, name@),
            r < self@.len() ==> !sorting::text_less(self@[r as int].0, name@),
    {
        let wanted = text::chars_of(name);
        let mut i: usize = 0;
        while i < self.entries.len()
            invariant
                i <= self@.len(),
                wanted@ == name@,
                forall|k: int| 0 <= k < i ==> sorting::text_less((#[trigger] self@[k]).0, name@),
            decreases self.entries.len() - i,
        {
            let found = text::chars_of(self.entries[i].0.as_str());
            if !sorting::is_less(found.as_slice(), wanted.as_slice()) {
                return i;
            }
            i = i + 1;
        }
        i
    }

    /// The value of a setting.
    pub fn get(&self, name: &str) -> (r: Option<&str>)
        requires
            self.wf(),
        ensures
            match r {
                Some(value) => self@.contains((name@, value@)),
                None => forall|i: int| 0 <= i < self@.len() ==> (#[trigger] self@[i]).0 != name@,
            },
    {
        let at: usize = self.place_of(name);
        proof {
            sorting::text_order_is_total(name@, name@);
        }
        if at < self.entries.len() {
            if text::equal_text(self.entries[at].0.as_str(), name) {
                assert(self@[at as int] == (name@, self.entries@[at as int].1@));
                return Some(self.entries[at].1.as_str());
            }
            proof {
                names_behind_are_others(self@, at as int, name@);
            }
        }
        None
    }

    /// Gives a setting a value.
    pub fn insert(&mut self, name: String, value: String)
        requires
            old(self).wf(),
            old(self)@.len() < usize::MAX,
        ensures
            final(self).wf(),
            forall|pair: (Seq<char>, Seq<char>)| #[trigger]
                final(self)@.contains(pair) <==> pair == (name@, value@) || (old(
                    self,
                )@.contains(pair) && pair.0 != name@),
    {
        let at: usize = self.place_of(name.as_str());
        let ghost before = self@;
        let ghost pair = (name@, value@);
        let replaces = at < self.entries.len() && text::equal_text(
            self.entries[at].0.as_str(),
            name.as_str(),
        );
        proof {
            if at < before.len() && !replaces {
                names_behind_are_others(before, at as int, name@);
            }
        }
        if replaces {
            self.entries.set(at, (name, value));
            assert(self@ =~= before.update(at as int, pair));
            proof {
                replaced_pairs(before, at as int, pair);
            }
        } else {
            self.entries.insert(at, (name, value));
            assert(self@ =~= before.insert(at as int, pair));
            proof {
                inserted_pairs(before, at as int, pair);
            }
        }
    }
}

/// Where a name has no setting at its place, it has none.
proof fn names_behind_are_others(pairs: Seq<(Seq<char>, Seq<char>)>, at: int, name: Seq<char>)
    requires
        are_by_name(pairs),
        0 <= at < pairs.len(),
        forall|i: int| 0 <= i < at ==> sorting::text_less((#[trigger] pairs[i]).0, name),
        !sorting::text_less(pairs[at].0, name),
        pairs[at].0 != name,
    ensures
        forall|i: int| at <= i < pairs.len() ==> sorting::text_less(name, (#[trigger] pairs[i]).0),
        forall|i: int| 0 <= i < pairs.len() ==> (#[trigger] pairs[i]).0 != name,
{
    sorting::text_order_is_total(pairs[at].0, name);
    sorting::text_order_is_total(name, name);
    assert forall|i: int| at <= i < pairs.len() implies sorting::text_less(
        name,
        (#[trigger] pairs[i]).0,
    ) by {
        if at < i {
            sorting::text_order_is_transitive(name, pairs[at].0, pairs[i].0);
        }
    }
}

proof fn replaced_pairs(
    pairs: Seq<(Seq<char>, Seq<char>)>,
    at: int,
    pair: (Seq<char>, Seq<char>),
)
    requires
        are_by_name(pairs),
        0 <= at < pairs.len(),
        pairs[at].0 == pair.0,
    ensures
        are_by_name(pairs.update(at, pair)),
        forall|p: (Seq<char>, Seq<char>)| #[trigger]
            pairs.update(at, pair).contains(p) <==> p == pair || (pairs.contains(p) && p.0
                != pair.0),
{
    let after = pairs.update(at, pair);
    sorting::text_order_is_total(pair.0, pair.0);
    assert forall|p: (Seq<char>, Seq<char>)| #[trigger] after.contains(p) <==> p == pair || (
    pairs.contains(p) && p.0 != pair.0) by {
        assert(after[at] == pair);
        if after.contains(p) {
            let i = choose|i: int| 0 <= i < after.len() && after[i] == p;
            if i != at {
                assert(pairs[i] == p);
                if i < at {
                    assert(sorting::text_less(pairs[i].0, pairs[at].0));
                } else {
                    assert(sorting::text_less(pairs[at].0, pairs[i].0));
                }
            }
        }
        if pairs.contains(p) && p.0 != pair.0 {
            let i = choose|i: int| 0 <= i < pairs.len() && pairs[i] == p;
            assert(after[i] == p);
        }
    }
}

proof fn inserted_pairs(
    pairs: Seq<(Seq<char>, Seq<char>)>,
    at: int,
    pair: (Seq<char>, Seq<char>),
)
    requires
        are_by_name(pairs),
        0 <= at <= pairs.len(),
        forall|i: int| 0 <= i < at ==> sorting::text_less((#[trigger] pairs[i]).0, pair.0),
        forall|i: int| at <= i < pairs.len() ==> sorting::text_less(pair.0, (#[trigger] pairs[i]).0),
    ensures
        are_by_name(pairs.insert(at, pair)),
        forall|p: (Seq<char>, Seq<char>)| #[trigger]
            pairs.insert(at, pair).contains(p) <==> p == pair || (pairs.contains(p) && p.0
                != pair.0),
{
    let after = pairs.insert(at, pair);
    sorting::text_order_is_total(pair.0, pair.0);
    assert forall|i: int| 0 <= i < after.len() implies #[trigger] after[i] == (if i < at {
        pairs[i]
    } else if i == at {
        pair
    } else {
        pairs[i - 1]
    }) by {}
    assert forall|p: (Seq<char>, Seq<char>)| #[trigger] after.contains(p) <==> p == pair || (
    pairs.contains(p) && p.0 != pair.0) by {
        assert(after[at] == pair);
        if after.contains(p) && p != pair {
            let i = choose|i: int| 0 <= i < after.len() && after[i] == p;
            let k = if i < at {
                i
            } else {
                i - 1
            };
            assert(pairs[k] == p);
        }
        if pairs.contains(p) {
            let i = choose|i: int| 0 <= i < pairs.len() && pairs[i] == p;
            let k = if i < at {
                i
            } else {
                i + 1
            };
            assert(after[k] == p);
        }
    }
}

/// What a JSON reader hands back.
pub open spec fn pairs_read(r: Result<Vec<(String, String)>, String>) -> Result<
    Seq<(Seq<char>, Seq<char>)>,
    Seq<char>,
> {
    match r {
        Ok(entries) => Ok(pairs_seen(entries@)),
        Err(message) => Err(message@),
    }
}

/// The settings that `serde_json` reads from a file, or its error.
pub uninterp spec fn settings_in(contents: Seq<u8>) -> Result<
    Seq<(Seq<char>, Seq<char>)>,
    Seq<char>,
>;

/// Reads a JSON object of texts with `serde_json::from_slice` into a
/// `BTreeMap<String, String>`, whose entries come by ascending key, each key once.
#[verifier::external_body]
fn read_json(contents: &[u8]) -> (r: Result<Vec<(String, String)>, String>)
    ensures
        pairs_read(r) == settings_in(contents@),
        r matches Ok(entries) ==> are_by_name(pairs_seen(entries@)),
{
    match serde_json::from_slice::<std::collections::BTreeMap<String, String>>(contents) {
        Ok(map) => Ok(map.into_iter().collect()),
        Err(error) => Err(error.to_string()),
    }
}

/// Whether settings are read from a file.
pub open spec fn holds_settings(contents: Seq<u8>, settings: Seq<(Seq<char>, Seq<char>)>) -> bool {
    settings_in(contents) == Ok::<Seq<(Seq<char>, Seq<char>)>, Seq<char>>(settings)
}

/// The file that `serde_json` writes for settings, or its error.
pub uninterp spec fn settings_text(settings: Seq<(Seq<char>, Seq<char>)>) -> Result<
    Seq<u8>,
    Seq<char>,
>;

/// Writes a `BTreeMap` of texts as an indented JSON object with
/// `serde_json::to_vec_pretty`. That fails only for keys that are no texts or for
/// values that refuse, and here are none of them. Texts are escaped so that
/// `serde_json::from_slice` reads the same settings from the file.
#[verifier::external_body]
fn write_json(entries: &[(String, String)]) -> (r: Result<Vec<u8>, String>)
    requires
        are_by_name(pairs_seen(entries@)),
    ensures
        bytes_seen(r) == settings_text(pairs_seen(entries@)),
        r is Ok,
        r matches Ok(file) ==> holds_settings(file@, pairs_seen(entries@)),
{
    let map: std::collections::BTreeMap<&str, &str> =
        entries.iter().map(|entry| (entry.0.as_str(), entry.1.as_str())).collect();
    match serde_json::to_vec_pretty(&map) {
        Ok(file) => Ok(file),
        Err(error) => Err(error.to_string()),
    }
}

pub open spec fn bytes_seen(r: Result<Vec<u8>, String>) -> Result<Seq<u8>, Seq<char>> {
    match r {
        Ok(file) => Ok(file@),
        Err(message) => Err(message@),
    }
}

pub open spec fn settings_seen(r: Result<AppSettings, String>) -> Result<
    Seq<(Seq<char>, Seq<char>)>,
    Seq<char>,
> {
    match r {
        Ok(settings) => Ok(settings@),
        Err(message) => Err(message@),
    }
}

/// A message on a file.
pub open spec fn path_message(start: Seq<char>, path: Seq<char>, error: Seq<char>) -> Seq<char> {
    start + path + "': "@ + error
}

fn on_path(start: &str, path: &str, error: &str) -> (r: String)
    ensures
        r@ == path_message(start@, path@, error@),
{
    let whole = text::join3(start, path, "': ");
    text::join(whole.as_str(), error)
}

/// The settings of the file at `path`, from what the JSON reader made of it.
pub open spec fn parsed_from(
    path: Seq<char>,
    read: Result<Seq<(Seq<char>, Seq<char>)>, Seq<char>>,
) -> Result<Seq<(Seq<char>, Seq<char>)>, Seq<char>> {
    match read {
        Ok(pairs) => Ok(pairs),
        Err(error) => Err(path_message("Não foi possível ler as configurações em '"@, path, error)),
    }
}

/// The settings of a file, from what the JSON reader made of it.
pub fn parsed_settings(path: &str, read: Result<Vec<(String, String)>, String>) -> (r: Result<
    AppSettings,
    String,
>)
    requires
        read matches Ok(entries) ==> are_by_name(pairs_seen(entries@)),
    ensures
        settings_seen(r) == parsed_from(path@, pairs_read(read)),
        r matches Ok(settings) ==> settings.wf(),
{
    match read {
        Ok(entries) => Ok(AppSettings { entries }),
        Err(error) => Err(
            on_path("Não foi possível ler as configurações em '", path, error.as_str()),
        ),
    }
}

/// Reads settings from the contents of the file at `path`.
pub fn parse_settings(path: &str, contents: &[u8]) -> (r: Result<AppSettings, String>)
    ensures
        settings_seen(r) == parsed_from(path@, settings_in(contents@)),
        r matches Ok(settings) ==> settings.wf(),
{
    parsed_settings(path, read_json(contents))
}

/// What reading a settings file gave.
#[derive(Debug)]
pub enum SettingsRead {
    Contents(Vec<u8>),
    Missing,
    Failed(String),
}

/// The settings that are loaded: those in the file, or none where there is no
/// file.
pub open spec fn loaded(path: Seq<char>, read: SettingsRead) -> Result<
    Seq<(Seq<char>, Seq<char>)>,
    Seq<char>,
> {
    match read {
        SettingsRead::Contents(contents) => parsed_from(path, settings_in(contents@)),
        SettingsRead::Missing => Ok(Seq::empty()),
        SettingsRead::Failed(error) => Err(
            path_message("Não foi possível abrir as configurações em '"@, path, error@),
        ),
    }
}

/// The settings of the file at `path`, from what reading it gave.
pub fn load(path: &str, read: SettingsRead) -> (r: Result<AppSettings, String>)
    ensures
        settings_seen(r) == loaded(path@, read),
        r matches Ok(settings) ==> settings.wf(),
{
    match read {
        SettingsRead::Contents(contents) => parse_settings(path, contents.as_slice()),
        SettingsRead::Missing => Ok(AppSettings::new()),
        SettingsRead::Failed(error) => Err(
            on_path("Não foi possível abrir as configurações em '", path, error.as_str()),
        ),
    }
}

/// The file for settings, from what the JSON writer made of them.
pub open spec fn prepared_from(written: Result<Seq<u8>, Seq<char>>) -> Result<Seq<u8>, Seq<char>> {
    match written {
        Ok(file) => Ok(file),
        Err(error) => Err("Não foi possível preparar as configurações: "@ + error),
    }
}

/// The file for settings, from what the JSON writer made of them.
pub fn prepared_settings(written: Result<Vec<u8>, String>) -> (r: Result<Vec<u8>, String>)
    ensures
        bytes_seen(r) == prepared_from(bytes_seen(written)),
{
    match written {
        Ok(file) => Ok(file),
        Err(error) => Err(
            text::join("Não foi possível preparar as configurações: ", error.as_str()),
        ),
    }
}

/// The contents of the file for settings. Loading the file, wherever it stands,
/// gives the settings back.
pub fn serialize_settings(settings: &AppSettings) -> (r: Result<Vec<u8>, String>)
    requires
        settings.wf(),
    ensures
        bytes_seen(r) == prepared_from(settings_text(settings@)),
        r is Ok,
        r matches Ok(contents) ==> forall|path: Seq<char>| #[trigger]
            loaded(path, SettingsRead::Contents(contents)) == Ok::<
                Seq<(Seq<char>, Seq<char>)>,
                Seq<char>,
            >(settings@),
{
    prepared_settings(write_json(settings.entries.as_slice()))
}

/// What is done in turn to save settings: the new file is complete before it
/// takes the place of the old one.
#[derive(Debug, Clone, Copy, PartialEq, Eq, Structural)]
pub enum SaveStep {
    CreateDirectory,
    WriteTemporary,
    FindOld,
    RemoveOld,
    Rename,
    Finished,
}

/// How a step came out. Only a search finds nothing.
#[derive(Debug)]
pub enum StepOutcome {
    Done,
    NotFound,
    Failed(String),
}

/// The start of the message on a step that failed.
pub open spec fn step_text(step: SaveStep) -> Seq<char> {
    match step {
        SaveStep::CreateDirectory => "Não foi possível criar a pasta de configurações em '"@,
        SaveStep::WriteTemporary => "Não foi possível salvar as configurações temporárias em '"@,
        SaveStep::FindOld | SaveStep::RemoveOld => "Não foi possível atualizar as configurações em '"@,
        SaveStep::Rename | SaveStep::Finished => "Não foi possível finalizar as configurações em '"@,
    }
}

/// The step that comes next.
pub open spec fn step_after(step: SaveStep, found: bool) -> SaveStep {
    match step {
        SaveStep::CreateDirectory => SaveStep::WriteTemporary,
        SaveStep::WriteTemporary => SaveStep::FindOld,
        SaveStep::FindOld => if found {
            SaveStep::RemoveOld
        } else {
            SaveStep::Rename
        },
        SaveStep::RemoveOld => SaveStep::Rename,
        SaveStep::Rename | SaveStep::Finished => SaveStep::Finished,
    }
}

/// What comes after a step, or the message on its failure. The path is that of
/// the file or the folder that the step worked on.
pub fn next_step(step: SaveStep, path: &str, outcome: StepOutcome) -> (r: Result<SaveStep, String>)
    ensures
        match outcome {
            StepOutcome::Failed(error) => r matches Err(message) && message@ == path_message(
                step_text(step),
                path@,
                error@,
            ),
            _ => r == Ok::<SaveStep, String>(step_after(step, outcome is Done)),
        },
{
    let found = match outcome {
        StepOutcome::Failed(error) => {
            let start = match step {
                SaveStep::CreateDirectory => "Não foi possível criar a pasta de configurações em '",
                SaveStep::WriteTemporary => "Não foi possível salvar as configurações temporárias em '",
                SaveStep::FindOld | SaveStep::RemoveOld => "Não foi possível atualizar as configurações em '",
                SaveStep::Rename | SaveStep::Finished => "Não foi possível finalizar as configurações em '",
            };
            return Err(on_path(start, path, error.as_str()));
        },
        StepOutcome::Done => true,
        StepOutcome::NotFound => false,
    };
    Ok(
        match step {
            SaveStep::CreateDirectory => SaveStep::WriteTemporary,
            SaveStep::WriteTemporary => SaveStep::FindOld,
            SaveStep::FindOld => if found {
                SaveStep::RemoveOld
            } else {
                SaveStep::Rename
            },
            SaveStep::RemoveOld => SaveStep::Rename,
            SaveStep::Rename | SaveStep::Finished => SaveStep::Finished,
        },
    )
}

/// What stands in the settings file and in the file that is written before it.
pub struct SettingsFiles {
    pub settings: Option<Seq<u8>>,
    pub temporary: Option<Seq<u8>>,
}

/// The files after a step.
pub open spec fn files_after(step: SaveStep, files: SettingsFiles, contents: Seq<u8>) -> SettingsFiles {
    match step {
        SaveStep::WriteTemporary => SettingsFiles { temporary: Some(contents), ..files },
        SaveStep::RemoveOld => SettingsFiles { settings: None, ..files },
        SaveStep::Rename => SettingsFiles { settings: files.temporary, temporary: None },
        _ => files,
    }
}

/// The files after the first `n` steps of a save.
pub open spec fn files_saved(files: SettingsFiles, contents: Seq<u8>, n: nat) -> (
    SettingsFiles,
    SaveStep,
)
    decreases n,
{
    if n == 0 {
        (files, SaveStep::CreateDirectory)
    } else {
        let (before, step) = files_saved(files, contents, (n - 1) as nat);
        (files_after(step, before, contents), step_after(step, before.settings is Some))
    }
}

/// A save ends after at most five steps with the new contents in place of the old
/// ones. Up to the removal of the old file, and at any time after that, one of the
/// two files is whole: the old settings stand, or the new ones do.
pub proof fn saves_keep_a_whole_file(files: SettingsFiles, contents: Seq<u8>, n: nat)
    ensures
        ({
            let (now, step) = files_saved(files, contents, n);
            &&& now.settings == files.settings || now.settings == Some(contents) || now.temporary
                == Some(contents)
            &&& step == SaveStep::RemoveOld ==> now.temporary == Some(contents)
            &&& n >= 5 ==> step == SaveStep::Finished && now.settings == Some(contents)
                && now.temporary is None
        }),
{
    reveal_with_fuel(files_saved, 6);
    if n > 5 {
        saved_for_good(files, contents, n);
    } else {
        assert(n == 0 || n == 1 || n == 2 || n == 3 || n == 4 || n == 5);
    }
}

proof fn saved_for_good(files: SettingsFiles, contents: Seq<u8>, n: nat)
    requires
        n >= 5,
    ensures
        files_saved(files, contents, n) == (
            (SettingsFiles { settings: Some(contents), temporary: None }),
            SaveStep::Finished,
        ),
    decreases n,
{
    if n > 5 {
        saved_for_good(files, contents, (n - 1) as nat);
    } else {
        reveal_with_fuel(files_saved, 6);
    }
}

} // verus!
