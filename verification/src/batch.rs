//! Importing texture files into a package: which of them replace a texture,
//! which add one, and what is reported of each.

use vstd::prelude::*;
use vstd::slice::slice_subrange;
use crate::edits::{RequestModel, TextureImportRequest};
use crate::imports::{ImportedModel, ImportedTexture};
use crate::listing::{EntryModel, UtxEntry};
use crate::package::{Package, PackageModel};
use crate::reader::Dialect;
use crate::texture_engine::{ReplacementModel, TextureImportOutcome};
use crate::adding;
use crate::bytes;
use crate::imports;
use crate::listing;
use crate::package;
use crate::paths;
use crate::tables;
use crate::text;
use crate::texture_engine;

verus! {

/// How many failures are described.
pub const MAX_TEXTURE_IMPORT_ERRORS: usize = 20;

/// How far an import is.
#[derive(Debug, Clone)]
pub struct TextureImportProgress {
    pub completed: usize,
    pub total: usize,
    pub phase: String,
    pub file_name: String,
}

pub struct ProgressModel {
    pub completed: int,
    pub total: int,
    pub phase: Seq<char>,
    pub file_name: Seq<char>,
}

impl View for TextureImportProgress {
    type V = ProgressModel;

    open spec fn view(&self) -> ProgressModel {
        ProgressModel {
            completed: self.completed as int,
            total: self.total as int,
            phase: self.phase@,
            file_name: self.file_name@,
        }
    }
}

pub open spec fn reports_of(reports: Seq<TextureImportProgress>) -> Seq<ProgressModel> {
    Seq::new(reports.len(), |i: int| reports[i]@)
}

pub open spec fn texts_of(texts: Seq<String>) -> Seq<Seq<char>> {
    Seq::new(texts.len(), |i: int| texts[i]@)
}

/// What became of a file.
#[derive(Debug, Clone, Copy, PartialEq, Eq, Structural)]
pub enum Fate {
    Replaced,
    Added,
    Skipped,
    Failed,
}

/// How many files had which fate, and what was reported.
#[derive(Debug)]
pub struct ImportTally {
    pub replaced: usize,
    pub added: usize,
    pub skipped: usize,
    pub failed: usize,
    pub errors: Vec<String>,
    pub reports: Vec<TextureImportProgress>,
}

pub struct TallyModel {
    pub replaced: int,
    pub added: int,
    pub skipped: int,
    pub failed: int,
    pub errors: Seq<Seq<char>>,
    pub reports: Seq<ProgressModel>,
}

impl View for ImportTally {
    type V = TallyModel;

    open spec fn view(&self) -> TallyModel {
        TallyModel {
            replaced: self.replaced as int,
            added: self.added as int,
            skipped: self.skipped as int,
            failed: self.failed as int,
            errors: texts_of(self.errors@),
            reports: reports_of(self.reports@),
        }
    }
}

pub open spec fn no_tally() -> TallyModel {
    TallyModel {
        replaced: 0,
        added: 0,
        skipped: 0,
        failed: 0,
        errors: Seq::empty(),
        reports: Seq::empty(),
    }
}

/// How many files are done.
pub open spec fn completed_of(t: TallyModel) -> int {
    t.replaced + t.added + t.skipped + t.failed
}

/// Descriptions with one more, up to the limit.
pub open spec fn with_error(errors: Seq<Seq<char>>, error: Option<Seq<char>>) -> Seq<Seq<char>> {
    match error {
        Some(text) => if errors.len() < MAX_TEXTURE_IMPORT_ERRORS {
            errors.push(text)
        } else {
            errors
        },
        None => errors,
    }
}

/// The tally with one more report that no file is done with.
pub open spec fn with_report(t: TallyModel, total: int, phase: Seq<char>) -> TallyModel {
    TallyModel {
        reports: t.reports.push(
            ProgressModel { completed: completed_of(t), total, phase, file_name: Seq::empty() },
        ),
        ..t
    }
}

/// The tally after one more file.
pub open spec fn counted(
    t: TallyModel,
    fate: Fate,
    total: int,
    phase: Seq<char>,
    file_name: Seq<char>,
    error: Option<Seq<char>>,
) -> TallyModel {
    TallyModel {
        replaced: if fate == Fate::Replaced {
            t.replaced + 1
        } else {
            t.replaced
        },
        added: if fate == Fate::Added {
            t.added + 1
        } else {
            t.added
        },
        skipped: if fate == Fate::Skipped {
            t.skipped + 1
        } else {
            t.skipped
        },
        failed: if fate == Fate::Failed {
            t.failed + 1
        } else {
            t.failed
        },
        errors: with_error(t.errors, error),
        reports: t.reports.push(
            ProgressModel { completed: completed_of(t) + 1, total, phase, file_name },
        ),
    }
}

/// How a failure with a file is described.
pub open spec fn described(file_name: Seq<char>, error: Seq<char>) -> Seq<char> {
    file_name + ": "@ + error
}

impl ImportTally {
    fn empty() -> (r: Self)
        ensures
            r@ == no_tally(),
    {
        let r = ImportTally {
            replaced: 0,
            added: 0,
            skipped: 0,
            failed: 0,
            errors: Vec::new(),
            reports: Vec::new(),
        };
        assert(r@.errors =~= Seq::<Seq<char>>::empty());
        assert(r@.reports =~= Seq::<ProgressModel>::empty());
        r
    }

    fn report(&mut self, total: usize, phase: &str)
        requires
            completed_of(old(self)@) <= usize::MAX,
        ensures
            final(self)@ == with_report(old(self)@, total as int, phase@),
    {
        let ghost before = self@;
        let completed: usize = self.replaced + self.added + self.skipped + self.failed;
        let report = TextureImportProgress {
            completed,
            total,
            phase: phase.to_owned(),
            file_name: String::new(),
        };
        let ghost model = report@;
        self.reports.push(report);
        proof {
            assert(model.file_name =~= Seq::<char>::empty());
            assert(reports_of(self.reports@) =~= before.reports.push(model));
            assert(texts_of(self.errors@) =~= before.errors);
        }
    }

    fn count(
        &mut self,
        fate: Fate,
        total: usize,
        phase: &str,
        file_name: &str,
        error: Option<&str>,
    )
        requires
            completed_of(old(self)@) < usize::MAX,
        ensures
            final(self)@ == counted(
                old(self)@,
                fate,
                total as int,
                phase@,
                file_name@,
                match error {
                    Some(text) => Some(described(file_name@, text@)),
                    None => None,
                },
            ),
    {
        let ghost before = self@;
        let completed: usize = self.replaced + self.added + self.skipped + self.failed + 1;
        match fate {
            Fate::Replaced => {
                self.replaced = self.replaced + 1;
            },
            Fate::Added => {
                self.added = self.added + 1;
            },
            Fate::Skipped => {
                self.skipped = self.skipped + 1;
            },
            Fate::Failed => {
                self.failed = self.failed + 1;
            },
        }
        if let Some(text) = error {
            if self.errors.len() < MAX_TEXTURE_IMPORT_ERRORS {
                let line = text::join3(file_name, ": ", text);
                let ghost model = line@;
                self.errors.push(line);
                assert(texts_of(self.errors@) =~= before.errors.push(model));
            }
        }
        let report = TextureImportProgress {
            completed,
            total,
            phase: phase.to_owned(),
            file_name: file_name.to_owned(),
        };
        let ghost model = report@;
        self.reports.push(report);
        assert(reports_of(self.reports@) =~= before.reports.push(model));
    }
}

/// A texture of the package and the key by which it is found.
pub struct IndexedModel {
    pub key: Seq<char>,
    pub entry: EntryModel,
}

struct IndexedEntry {
    key: String,
    entry: UtxEntry,
}

spec fn indexed_of(index: Seq<IndexedEntry>) -> Seq<IndexedModel> {
    Seq::new(index.len(), |i: int| IndexedModel { key: index[i].key@, entry: index[i].entry@ })
}

/// The textures among the first `n` exports. One that cannot be read ends the
/// listing.
pub open spec fn import_index(p: PackageModel, n: nat) -> Result<Seq<IndexedModel>, Seq<char>>
    decreases n,
{
    if n == 0 {
        Ok(Seq::empty())
    } else {
        match import_index(p, (n - 1) as nat) {
            Err(e) => Err(e),
            Ok(index) => if !package::is_texture_export(Dialect::Frontend, p, p.exports[n - 1]) {
                Ok(index)
            } else {
                match listing::entry_of(p, n - 1) {
                    Err(e) => Err(e),
                    Ok(entry) => Ok(
                        index.push(
                            IndexedModel {
                                key: tables::lookup_key(
                                    tables::group_or_main(Dialect::Frontend, entry.name),
                                    text::after_last_dot(entry.name),
                                ),
                                entry,
                            },
                        ),
                    ),
                }
            },
        }
    }
}

proof fn import_index_error_spreads(p: PackageModel, k: nat, n: nat)
    requires
        k <= n,
        import_index(p, k) is Err,
    ensures
        import_index(p, n) == import_index(p, k),
    decreases n,
{
    if k < n {
        import_index_error_spreads(p, k, (n - 1) as nat);
    }
}

/// The first texture with this key.
pub open spec fn find_indexed(index: Seq<IndexedModel>, key: Seq<char>, from: int) -> Option<
    EntryModel,
>
    decreases index.len() - from,
{
    if from < 0 || from >= index.len() {
        None
    } else if index[from].key == key {
        Some(index[from].entry)
    } else {
        find_indexed(index, key, from + 1)
    }
}

fn find_in_index(index: &Vec<IndexedEntry>, key: &str) -> (r: Option<usize>)
    ensures
        match r {
            Some(i) => i < index@.len() && find_indexed(indexed_of(index@), key@, 0) == Some(
                index@[i as int].entry@,
            ),
            None => find_indexed(indexed_of(index@), key@, 0) is None,
        },
{
    let mut i: usize = 0;
    while i < index.len()
        invariant
            i <= index@.len(),
            find_indexed(indexed_of(index@), key@, 0) == find_indexed(
                indexed_of(index@),
                key@,
                i as int,
            ),
        decreases index.len() - i,
    {
        if text::equal_text(index[i].key.as_str(), key) {
            return Some(i);
        }
        i = i + 1;
    }
    None
}

impl Package {
    fn texture_import_index(&self) -> (r: Result<Vec<IndexedEntry>, String>)
        ensures
            match r {
                Ok(index) => import_index(self@, self@.exports.len()) == Ok::<
                    Seq<IndexedModel>,
                    Seq<char>,
                >(indexed_of(index@)),
                Err(message) => import_index(self@, self@.exports.len()) == Err::<
                    Seq<IndexedModel>,
                    Seq<char>,
                >(message@),
            },
    {
        let mut index: Vec<IndexedEntry> = Vec::new();
        let mut i: usize = 0;
        assert(indexed_of(index@) =~= Seq::<IndexedModel>::empty());
        while i < self.exports.len()
            invariant
                i <= self.exports@.len(),
                import_index(self@, i as nat) == Ok::<Seq<IndexedModel>, Seq<char>>(
                    indexed_of(index@),
                ),
            decreases self.exports.len() - i,
        {
            proof {
                if import_index(self@, (i + 1) as nat) is Err {
                    import_index_error_spreads(self@, (i + 1) as nat, self@.exports.len());
                }
            }
            let export = self.exports[i];
            if self.is_texture(Dialect::Frontend, &export) {
                let entry = self.entry_to_model(i)?;
                let group = tables::texture_group_or_main(Dialect::Frontend, entry.name.as_str());
                let leaf = tables::texture_leaf(entry.name.as_str());
                let key = tables::texture_lookup_key(group.as_str(), leaf.as_str());
                let ghost before = indexed_of(index@);
                let ghost model = IndexedModel { key: key@, entry: entry@ };
                index.push(IndexedEntry { key, entry });
                assert(indexed_of(index@) =~= before.push(model));
            }
            i = i + 1;
        }
        Ok(index)
    }
}

/// A file that the engine is asked to store.
#[derive(Debug)]
pub struct PendingTextureImport {
    pub file_name: String,
    pub export_index: Option<usize>,
    pub request: TextureImportRequest,
}

pub struct PendingModel {
    pub file_name: Seq<char>,
    pub index: Option<usize>,
    pub request: RequestModel,
}

impl View for PendingTextureImport {
    type V = PendingModel;

    open spec fn view(&self) -> PendingModel {
        PendingModel {
            file_name: self.file_name@,
            index: self.export_index,
            request: self.request@,
        }
    }
}

pub open spec fn pending_of(pending: Seq<PendingTextureImport>) -> Seq<PendingModel> {
    Seq::new(pending.len(), |i: int| pending[i]@)
}

/// A texture file that was read, or the reason why it could not be.
#[derive(Debug)]
pub struct PreparedTexture {
    pub path: String,
    pub result: Result<ImportedTexture, String>,
}

pub struct PreparedModel {
    pub path: Seq<char>,
    pub result: Result<ImportedModel, Seq<char>>,
}

impl View for PreparedTexture {
    type V = PreparedModel;

    open spec fn view(&self) -> PreparedModel {
        PreparedModel {
            path: self.path@,
            result: match self.result {
                Ok(texture) => Ok(texture@),
                Err(error) => Err(error@),
            },
        }
    }
}

pub open spec fn prepared_of(prepared: Seq<PreparedTexture>) -> Seq<PreparedModel> {
    Seq::new(prepared.len(), |i: int| prepared[i]@)
}

/// What is to be done with the files seen so far.
pub struct PlanModel {
    pub tally: TallyModel,
    pub names: Seq<Seq<char>>,
    pub pending: Seq<PendingModel>,
}

pub open spec fn unicode_text() -> Seq<char> {
    "Uma textura nova precisa de um nome ASCII; nomes Unicode só podem substituir uma textura já existente."@
}

/// A texture with only the metadata that the one it replaces can store.
pub open spec fn fitted(texture: ImportedModel, existing: Option<EntryModel>) -> ImportedModel {
    match existing {
        Some(entry) => ImportedModel {
            metadata: imports::supported_metadata(texture.metadata, entry),
            ..texture
        },
        None => texture,
    }
}

/// Whether a texture can take the place of another.
pub open spec fn same_kind(texture: ImportedModel, entry: EntryModel) -> bool {
    texture.format == entry.format && texture.width == entry.width && texture.height
        == entry.height
}

pub open spec fn target_of(existing: Option<EntryModel>) -> Option<usize> {
    match existing {
        Some(entry) => Some(entry.index as usize),
        None => None,
    }
}

/// The plan with a texture whose name comes up for the first time.
pub open spec fn with_new_texture(
    plan: PlanModel,
    existing: Option<EntryModel>,
    total: int,
    file_name: Seq<char>,
    texture: ImportedModel,
) -> PlanModel {
    if existing is None && !text::all_ascii(texture.name) {
        PlanModel {
            tally: counted(
                plan.tally,
                Fate::Failed,
                total,
                "Nome Unicode não pode criar uma nova textura."@,
                file_name,
                Some(described(file_name, unicode_text())),
            ),
            ..plan
        }
    } else if existing is Some && !same_kind(texture, existing->Some_0) {
        PlanModel {
            tally: counted(
                plan.tally,
                Fate::Skipped,
                total,
                "Formato ou dimensões incompatíveis; ignorada."@,
                file_name,
                None,
            ),
            ..plan
        }
    } else {
        match imports::request_of(fitted(texture, existing)) {
            Ok(request) => PlanModel {
                pending: plan.pending.push(
                    PendingModel { file_name, index: target_of(existing), request },
                ),
                ..plan
            },
            Err(error) => PlanModel {
                tally: counted(
                    plan.tally,
                    Fate::Failed,
                    total,
                    "Textura incompatível: "@ + error,
                    file_name,
                    Some(described(file_name, error)),
                ),
                ..plan
            },
        }
    }
}

/// The plan with one more file.
pub open spec fn with_file(
    plan: PlanModel,
    index: Seq<IndexedModel>,
    group: Seq<char>,
    total: int,
    file: PreparedModel,
) -> PlanModel {
    let file_name = paths::shown_name(file.path);
    match file.result {
        Err(error) => PlanModel {
            tally: counted(
                plan.tally,
                Fate::Failed,
                total,
                "Arquivo recusado: "@ + error,
                file_name,
                Some(described(file_name, error)),
            ),
            ..plan
        },
        Ok(texture) => {
            let name = text::lower_text(texture.name);
            if plan.names.contains(name) {
                PlanModel {
                    tally: counted(
                        plan.tally,
                        Fate::Skipped,
                        total,
                        "Nome duplicado ignorado."@,
                        file_name,
                        None,
                    ),
                    ..plan
                }
            } else {
                with_new_texture(
                    PlanModel { names: plan.names.push(name), ..plan },
                    find_indexed(index, tables::lookup_key(group, texture.name), 0),
                    total,
                    file_name,
                    texture,
                )
            }
        },
    }
}

/// The plan for the first `n` files.
pub open spec fn planned(
    start: TallyModel,
    index: Seq<IndexedModel>,
    group: Seq<char>,
    prepared: Seq<PreparedModel>,
    n: nat,
) -> PlanModel
    decreases n,
{
    if n == 0 {
        PlanModel { tally: start, names: Seq::empty(), pending: Seq::empty() }
    } else {
        with_file(
            planned(start, index, group, prepared, (n - 1) as nat),
            index,
            group,
            prepared.len() as int,
            prepared[n - 1],
        )
    }
}

/// What is to be done with the files of an import, and what is counted already.
#[derive(Debug)]
pub struct Plan {
    pub tally: ImportTally,
    pub names: Vec<String>,
    pub pending: Vec<PendingTextureImport>,
}

impl Plan {
    pub open spec fn model(&self) -> PlanModel {
        PlanModel {
            tally: self.tally@,
            names: texts_of(self.names@),
            pending: pending_of(self.pending@),
        }
    }
}

/// Whether a text stands in a list.
fn holds_text(texts: &Vec<String>, text: &str) -> (r: bool)
    ensures
        r == texts_of(texts@).contains(text@),
{
    let mut i: usize = 0;
    while i < texts.len()
        invariant
            i <= texts@.len(),
            forall|k: int| 0 <= k < i ==> #[trigger] texts_of(texts@)[k] != text@,
        decreases texts.len() - i,
    {
        if text::equal_text(texts[i].as_str(), text) {
            assert(texts_of(texts@)[i as int] == text@);
            return true;
        }
        assert(texts_of(texts@)[i as int] != text@);
        i = i + 1;
    }
    false
}

fn plan_new_texture(
    plan: &mut Plan,
    existing: Option<&UtxEntry>,
    total: usize,
    file_name: String,
    mut texture: ImportedTexture,
)
    requires
        completed_of(old(plan).model().tally) < usize::MAX,
    ensures
        final(plan).model() == with_new_texture(
            old(plan).model(),
            match existing {
                Some(entry) => Some(entry@),
                None => None,
            },
            total as int,
            file_name@,
            texture@,
        ),
{
    let chars = text::chars_of(texture.name.as_str());
    let ghost start = plan.model();
    let mut export_index: Option<usize> = None;
    match existing {
        None => {
            if !text::is_ascii_text(chars.as_slice()) {
                plan.tally.count(
                    Fate::Failed,
                    total,
                    "Nome Unicode não pode criar uma nova textura.",
                    file_name.as_str(),
                    Some(
                        "Uma textura nova precisa de um nome ASCII; nomes Unicode só podem substituir uma textura já existente.",
                    ),
                );
                return ;
            }
        },
        Some(entry) => {
            if entry.format != texture.format || entry.width != texture.width || entry.height
                != texture.height {
                plan.tally.count(
                    Fate::Skipped,
                    total,
                    "Formato ou dimensões incompatíveis; ignorada.",
                    file_name.as_str(),
                    None,
                );
                return ;
            }
            imports::preserve_unsupported_existing_metadata(&mut texture, entry);
            export_index = Some(entry.export_index);
        },
    }
    match imports::texture_engine_import_request(texture) {
        Ok(request) => {
            let one = PendingTextureImport { file_name, export_index, request };
            let ghost model = one@;
            plan.pending.push(one);
            assert(pending_of(plan.pending@) =~= start.pending.push(model));
        },
        Err(error) => {
            let phase = text::join("Textura incompatível: ", error.as_str());
            plan.tally.count(
                Fate::Failed,
                total,
                phase.as_str(),
                file_name.as_str(),
                Some(error.as_str()),
            );
        },
    }
}

fn plan_file(
    plan: &mut Plan,
    index: &Vec<IndexedEntry>,
    group: &str,
    total: usize,
    file: PreparedTexture,
)
    requires
        completed_of(old(plan).model().tally) < usize::MAX,
    ensures
        final(plan).model() == with_file(
            old(plan).model(),
            indexed_of(index@),
            group@,
            total as int,
            file@,
        ),
{
    let file_name = paths::display_file_name(file.path.as_str());
    let ghost start = plan.model();
    match file.result {
        Err(error) => {
            let phase = text::join("Arquivo recusado: ", error.as_str());
            plan.tally.count(
                Fate::Failed,
                total,
                phase.as_str(),
                file_name.as_str(),
                Some(error.as_str()),
            );
        },
        Ok(texture) => {
            let name = text::lowered(texture.name.as_str());
            if holds_text(&plan.names, name.as_str()) {
                plan.tally.count(
                    Fate::Skipped,
                    total,
                    "Nome duplicado ignorado.",
                    file_name.as_str(),
                    None,
                );
            } else {
                let ghost model = name@;
                plan.names.push(name);
                assert(texts_of(plan.names@) =~= start.names.push(model));
                let key = tables::texture_lookup_key(group, texture.name.as_str());
                match find_in_index(index, key.as_str()) {
                    Some(i) => plan_new_texture(
                        plan,
                        Some(&index[i].entry),
                        total,
                        file_name,
                        texture,
                    ),
                    None => plan_new_texture(plan, None, total, file_name, texture),
                }
            }
        },
    }
}


/// Each file is done or pending.
proof fn every_file_is_planned(
    start: TallyModel,
    index: Seq<IndexedModel>,
    group: Seq<char>,
    prepared: Seq<PreparedModel>,
    n: nat,
)
    ensures
        ({
            let plan = planned(start, index, group, prepared, n);
            completed_of(plan.tally) + plan.pending.len() == completed_of(start) + n
        }),
    decreases n,
{
    if n > 0 {
        every_file_is_planned(start, index, group, prepared, (n - 1) as nat);
    }
}

fn plan_files(
    index: &Vec<IndexedEntry>,
    group: &str,
    prepared: Vec<PreparedTexture>,
    tally: ImportTally,
) -> (r: Plan)
    requires
        completed_of(tally@) == 0,
    ensures
        r.model() == planned(
            tally@,
            indexed_of(index@),
            group@,
            prepared_of(prepared@),
            prepared@.len(),
        ),
{
    let ghost all = prepared_of(prepared@);
    let ghost start = tally@;
    let total: usize = prepared.len();
    let mut plan = Plan { tally, names: Vec::new(), pending: Vec::new() };
    assert(texts_of(plan.names@) =~= Seq::<Seq<char>>::empty());
    assert(pending_of(plan.pending@) =~= Seq::<PendingModel>::empty());
    for file in it: prepared
        invariant
            total == prepared@.len(),
            all == prepared_of(prepared@),
            it.seq() == prepared@,
            completed_of(start) == 0,
            plan.model() == planned(start, indexed_of(index@), group@, all, it.index() as nat),
    {
        proof {
            every_file_is_planned(start, indexed_of(index@), group@, all, it.index() as nat);
            assert(all[it.index()] == file@);
        }
        plan_file(&mut plan, index, group, total, file);
    }
    plan
}

/// A replacement and the file that it came from.
pub struct RetryModel {
    pub file_name: Seq<char>,
    pub replacement: ReplacementModel,
}

/// A failure with a file.
pub struct FailureModel {
    pub file_name: Seq<char>,
    pub error: Seq<char>,
}

/// What became of replacements.
pub struct RecoveredModel {
    pub data: Seq<u8>,
    pub applied: Seq<Seq<char>>,
    pub failures: Seq<FailureModel>,
}

pub open spec fn replacements_in(imports: Seq<RetryModel>) -> Seq<ReplacementModel> {
    Seq::new(imports.len(), |i: int| imports[i].replacement)
}

pub open spec fn file_names_in(imports: Seq<RetryModel>) -> Seq<Seq<char>> {
    Seq::new(imports.len(), |i: int| imports[i].file_name)
}

/// Replaces textures, all at once where that works. Where it does not, each half
/// of them is tried on its own, down to the single ones that fail.
pub open spec fn recovered(data: Seq<u8>, imports: Seq<RetryModel>) -> RecoveredModel
    decreases imports.len(),
{
    if imports.len() == 0 {
        RecoveredModel { data, applied: Seq::empty(), failures: Seq::empty() }
    } else {
        match texture_engine::replaced_in_file(data, replacements_in(imports)) {
            Ok((p, _)) => RecoveredModel {
                data: p.data,
                applied: file_names_in(imports),
                failures: Seq::empty(),
            },
            Err(error) => if imports.len() == 1 {
                RecoveredModel {
                    data,
                    applied: Seq::empty(),
                    failures: seq![FailureModel { file_name: imports[0].file_name, error }],
                }
            } else {
                let middle = imports.len() as int / 2;
                let left = recovered(data, imports.take(middle));
                let right = recovered(left.data, imports.skip(middle));
                RecoveredModel {
                    data: right.data,
                    applied: left.applied + right.applied,
                    failures: left.failures + right.failures,
                }
            },
        }
    }
}

/// Each replacement is applied or fails.
pub proof fn every_replacement_is_settled(data: Seq<u8>, imports: Seq<RetryModel>)
    ensures
        recovered(data, imports).applied.len() + recovered(data, imports).failures.len()
            == imports.len(),
    decreases imports.len(),
{
    if imports.len() > 1 {
        let middle = imports.len() as int / 2;
        every_replacement_is_settled(data, imports.take(middle));
        let left = recovered(data, imports.take(middle));
        every_replacement_is_settled(left.data, imports.skip(middle));
    }
}

/// A replacement and the file that it came from.
#[derive(Debug)]
pub struct RetriedTextureImport {
    pub file_name: String,
    pub export_index: usize,
    pub request: TextureImportRequest,
}

impl View for RetriedTextureImport {
    type V = RetryModel;

    open spec fn view(&self) -> RetryModel {
        RetryModel {
            file_name: self.file_name@,
            replacement: ReplacementModel { index: self.export_index, request: self.request@ },
        }
    }
}

pub open spec fn retries_of(imports: Seq<RetriedTextureImport>) -> Seq<RetryModel> {
    Seq::new(imports.len(), |i: int| imports[i]@)
}

/// What became of replacements: the data of the package, the files that were
/// applied and the failures with the others.
#[derive(Debug)]
pub struct ResilientTextureImport {
    pub data: Vec<u8>,
    pub applied: Vec<String>,
    pub failures: Vec<(String, String)>,
}

pub open spec fn failures_of(failures: Seq<(String, String)>) -> Seq<FailureModel> {
    Seq::new(
        failures.len(),
        |i: int| FailureModel { file_name: failures[i].0@, error: failures[i].1@ },
    )
}

impl View for ResilientTextureImport {
    type V = RecoveredModel;

    open spec fn view(&self) -> RecoveredModel {
        RecoveredModel {
            data: self.data@,
            applied: texts_of(self.applied@),
            failures: failures_of(self.failures@),
        }
    }
}

fn copy_replacements(imports: &[RetriedTextureImport]) -> (r: Vec<(usize, TextureImportRequest)>)
    ensures
        texture_engine::replacements_of(r@) == replacements_in(retries_of(imports@)),
{
    let mut requests: Vec<(usize, TextureImportRequest)> = Vec::new();
    let mut i: usize = 0;
    let ghost target = replacements_in(retries_of(imports@));
    assert(texture_engine::replacements_of(requests@) =~= target.take(0));
    while i < imports.len()
        invariant
            i <= imports@.len(),
            target == replacements_in(retries_of(imports@)),
            texture_engine::replacements_of(requests@) == target.take(i as int),
        decreases imports.len() - i,
    {
        let ghost before = texture_engine::replacements_of(requests@);
        let copied = imports[i].request.copy();
        let ghost model = ReplacementModel { index: imports@[i as int].export_index, request: copied@ };
        requests.push((imports[i].export_index, copied));
        i = i + 1;
        assert(texture_engine::replacements_of(requests@) =~= before.push(model));
        assert(texture_engine::replacements_of(requests@) =~= target.take(i as int));
    }
    assert(target.take(i as int) =~= target);
    requests
}

fn copy_file_names(imports: &[RetriedTextureImport]) -> (r: Vec<String>)
    ensures
        texts_of(r@) == file_names_in(retries_of(imports@)),
{
    let mut names: Vec<String> = Vec::new();
    let mut i: usize = 0;
    let ghost target = file_names_in(retries_of(imports@));
    assert(texts_of(names@) =~= target.take(0));
    while i < imports.len()
        invariant
            i <= imports@.len(),
            target == file_names_in(retries_of(imports@)),
            texts_of(names@) == target.take(i as int),
        decreases imports.len() - i,
    {
        let ghost before = texts_of(names@);
        let name = imports[i].file_name.clone();
        let ghost model = name@;
        names.push(name);
        i = i + 1;
        assert(texts_of(names@) =~= before.push(model));
        assert(texts_of(names@) =~= target.take(i as int));
    }
    assert(target.take(i as int) =~= target);
    names
}

fn append_recovered(left: &mut ResilientTextureImport, right: ResilientTextureImport)
    ensures
        final(left)@ == (RecoveredModel {
            data: right@.data,
            applied: old(left)@.applied + right@.applied,
            failures: old(left)@.failures + right@.failures,
        }),
{
    let ghost before = left@;
    let mut applied = right.applied;
    let mut failures = right.failures;
    left.data = right.data;
    left.applied.append(&mut applied);
    left.failures.append(&mut failures);
    proof {
        assert(texts_of(left.applied@) =~= before.applied + right@.applied);
        assert(failures_of(left.failures@) =~= before.failures + right@.failures);
    }
}

/// Replaces textures, all at once where that works. Where it does not, each half
/// of them is tried on its own, so that only textures that fail are left out.
pub fn import_existing_textures_resilient(
    package_data: Vec<u8>,
    imports: &[RetriedTextureImport],
) -> (r: ResilientTextureImport)
    ensures
        r@ == recovered(package_data@, retries_of(imports@)),
    decreases imports@.len(),
{
    let ghost models = retries_of(imports@);
    let total: usize = imports.len();
    if total == 0 {
        let r = ResilientTextureImport {
            data: package_data,
            applied: Vec::new(),
            failures: Vec::new(),
        };
        assert(r@.applied =~= Seq::<Seq<char>>::empty());
        assert(r@.failures =~= Seq::<FailureModel>::empty());
        return r;
    }
    let requests = copy_replacements(imports);
    let attempt = texture_engine::replace_existing_textures(bytes::copy_bytes(package_data.as_slice()), requests.as_slice());
    match attempt {
        Ok((data, _)) => {
            let r = ResilientTextureImport {
                data,
                applied: copy_file_names(imports),
                failures: Vec::new(),
            };
            assert(r@.failures =~= Seq::<FailureModel>::empty());
            r
        },
        Err(error) => {
            if total == 1 {
                let mut failures: Vec<(String, String)> = Vec::new();
                failures.push((imports[0].file_name.clone(), error));
                let r = ResilientTextureImport {
                    data: package_data,
                    applied: Vec::new(),
                    failures,
                };
                assert(r@.applied =~= Seq::<Seq<char>>::empty());
                assert(r@.failures =~= seq![
                    FailureModel { file_name: models[0].file_name, error: error@ },
                ]);
                r
            } else {
                let middle: usize = total / 2;
                let first = slice_subrange(imports, 0, middle);
                let second = slice_subrange(imports, middle, total);
                proof {
                    assert(retries_of(first@) =~= models.take(middle as int));
                    assert(retries_of(second@) =~= models.skip(middle as int));
                }
                let mut left = import_existing_textures_resilient(package_data, first);
                let right = import_existing_textures_resilient(
                    bytes::copy_bytes(left.data.as_slice()),
                    second,
                );
                append_recovered(&mut left, right);
                left
            }
        },
    }
}


/// The pending files that replace a texture.
pub open spec fn retries_in(pending: Seq<PendingModel>) -> Seq<RetryModel>
    decreases pending.len(),
{
    if pending.len() == 0 {
        Seq::empty()
    } else {
        let before = retries_in(pending.drop_last());
        let one = pending.last();
        match one.index {
            Some(index) => before.push(
                RetryModel {
                    file_name: one.file_name,
                    replacement: ReplacementModel { index, request: one.request },
                },
            ),
            None => before,
        }
    }
}

/// The pending files that add a texture.
pub open spec fn additions_in(pending: Seq<PendingModel>) -> Seq<PendingModel>
    decreases pending.len(),
{
    if pending.len() == 0 {
        Seq::empty()
    } else {
        let before = additions_in(pending.drop_last());
        if pending.last().index is None {
            before.push(pending.last())
        } else {
            before
        }
    }
}

pub open spec fn requests_in(pending: Seq<PendingModel>) -> Seq<RequestModel> {
    Seq::new(pending.len(), |i: int| pending[i].request)
}

/// The tally after the first `n` files that were replaced.
pub open spec fn with_applied(t: TallyModel, total: int, names: Seq<Seq<char>>, n: nat) -> TallyModel
    decreases n,
{
    if n == 0 {
        t
    } else {
        counted(
            with_applied(t, total, names, (n - 1) as nat),
            Fate::Replaced,
            total,
            "Textura substituída pelo motor UTX."@,
            names[n - 1],
            None,
        )
    }
}

/// The tally after the first `n` files that could not be replaced.
pub open spec fn with_failures(t: TallyModel, total: int, failures: Seq<FailureModel>, n: nat) -> TallyModel
    decreases n,
{
    if n == 0 {
        t
    } else {
        let one = failures[n - 1];
        counted(
            with_failures(t, total, failures, (n - 1) as nat),
            Fate::Skipped,
            total,
            "Textura problemática ignorada: "@ + one.error,
            one.file_name,
            Some(described(one.file_name, one.error)),
        )
    }
}

/// The tally after the first `n` new textures were stored.
pub open spec fn with_additions(
    t: TallyModel,
    total: int,
    additions: Seq<PendingModel>,
    outcomes: Seq<TextureImportOutcome>,
    n: nat,
) -> TallyModel
    decreases n,
{
    if n == 0 {
        t
    } else {
        let before = with_additions(t, total, additions, outcomes, (n - 1) as nat);
        if outcomes[n - 1].added {
            counted(
                before,
                Fate::Added,
                total,
                "Textura adicionada pelo motor UTX."@,
                additions[n - 1].file_name,
                None,
            )
        } else {
            counted(
                before,
                Fate::Replaced,
                total,
                "Textura substituída pelo motor UTX."@,
                additions[n - 1].file_name,
                None,
            )
        }
    }
}

/// The tally after the first `n` new textures were refused.
pub open spec fn with_refused(
    t: TallyModel,
    total: int,
    additions: Seq<PendingModel>,
    error: Seq<char>,
    n: nat,
) -> TallyModel
    decreases n,
{
    if n == 0 {
        t
    } else {
        let name = additions[n - 1].file_name;
        counted(
            with_refused(t, total, additions, error, (n - 1) as nat),
            Fate::Skipped,
            total,
            "Nova textura ignorada: "@ + error,
            name,
            Some(described(name, error)),
        )
    }
}

/// The tally and the data of the package after replacements.
pub open spec fn with_recovered(
    data: Seq<u8>,
    total: int,
    tally: TallyModel,
    pending: Seq<PendingModel>,
) -> (TallyModel, Seq<u8>) {
    let started = with_report(tally, total, "Gravando texturas no motor UTX…"@);
    let done = recovered(data, retries_in(pending));
    let applied = with_applied(started, total, done.applied, done.applied.len());
    (with_failures(applied, total, done.failures, done.failures.len()), done.data)
}

/// The tally and the data of the package after new textures.
pub open spec fn with_new_files(
    data: Seq<u8>,
    template: Seq<u8>,
    group: Seq<char>,
    total: int,
    tally: TallyModel,
    additions: Seq<PendingModel>,
) -> (TallyModel, Seq<u8>) {
    if additions.len() == 0 {
        (tally, data)
    } else {
        match texture_engine::added_to_file(data, template, group, requests_in(additions)) {
            Ok((p, outcomes)) => (
                with_additions(tally, total, additions, outcomes, additions.len()),
                p.data,
            ),
            Err(error) => (with_refused(tally, total, additions, error, additions.len()), data),
        }
    }
}

/// The tally and the data of the package after all that was pending.
pub open spec fn stored_pending(
    data: Seq<u8>,
    template: Seq<u8>,
    group: Seq<char>,
    total: int,
    plan: PlanModel,
) -> (TallyModel, Seq<u8>) {
    if plan.pending.len() == 0 {
        (plan.tally, data)
    } else {
        let (tally, working) = with_recovered(data, total, plan.tally, plan.pending);
        with_new_files(working, template, group, total, tally, additions_in(plan.pending))
    }
}

proof fn pending_is_parted(pending: Seq<PendingModel>)
    ensures
        retries_in(pending).len() + additions_in(pending).len() == pending.len(),
    decreases pending.len(),
{
    if pending.len() > 0 {
        pending_is_parted(pending.drop_last());
    }
}

/// The pending files that add a texture, with their requests beside.
struct Additions {
    pending: Vec<PendingTextureImport>,
    requests: Vec<TextureImportRequest>,
}

/// Parts the pending files into those that replace a texture and those that add
/// one.
fn part_pending(pending: Vec<PendingTextureImport>) -> (r: (Vec<RetriedTextureImport>, Additions))
    ensures
        retries_of(r.0@) == retries_in(pending_of(pending@)),
        pending_of(r.1.pending@) == additions_in(pending_of(pending@)),
        texture_engine::requests_of(r.1.requests@) == requests_in(additions_in(pending_of(pending@))),
{
    let ghost all = pending_of(pending@);
    let mut retries: Vec<RetriedTextureImport> = Vec::new();
    let mut added: Vec<PendingTextureImport> = Vec::new();
    let mut requests: Vec<TextureImportRequest> = Vec::new();
    proof {
        assert(retries_of(retries@) =~= Seq::<RetryModel>::empty());
        assert(pending_of(added@) =~= Seq::<PendingModel>::empty());
        assert(texture_engine::requests_of(requests@) =~= requests_in(Seq::<PendingModel>::empty()));
        assert(all.take(0) =~= Seq::<PendingModel>::empty());
    }
    for one in it: pending
        invariant
            all == pending_of(pending@),
            it.seq() == pending@,
            retries_of(retries@) == retries_in(all.take(it.index())),
            pending_of(added@) == additions_in(all.take(it.index())),
            texture_engine::requests_of(requests@) == requests_in(additions_in(all.take(it.index()))),
    {
        let ghost model = one@;
        proof {
            let k = it.index();
            assert(all[k] == model);
            assert(all.take(k + 1).drop_last() =~= all.take(k));
            assert(all.take(k + 1).last() == model);
        }
        let ghost retries_before = retries_of(retries@);
        let ghost added_before = pending_of(added@);
        let ghost requests_before = texture_engine::requests_of(requests@);
        match one.export_index {
            Some(export_index) => {
                let retry = RetriedTextureImport {
                    file_name: one.file_name,
                    export_index,
                    request: one.request,
                };
                let ghost retry_model = retry@;
                retries.push(retry);
                assert(retries_of(retries@) =~= retries_before.push(retry_model));
            },
            None => {
                let copied = one.request.copy();
                requests.push(copied);
                added.push(one);
                proof {
                    assert(pending_of(added@) =~= added_before.push(model));
                    assert(texture_engine::requests_of(requests@) =~= requests_before.push(model.request));
                    assert(texture_engine::requests_of(requests@) =~= requests_in(pending_of(added@)));
                }
            },
        }
    }
    assert(all.take(pending@.len() as int) =~= all);
    (retries, Additions { pending: added, requests })
}

fn count_recovered(tally: &mut ImportTally, total: usize, done: &ResilientTextureImport)
    requires
        completed_of(old(tally)@) + done@.applied.len() + done@.failures.len() <= usize::MAX,
    ensures
        final(tally)@ == with_failures(
            with_applied(old(tally)@, total as int, done@.applied, done@.applied.len()),
            total as int,
            done@.failures,
            done@.failures.len(),
        ),
        completed_of(final(tally)@) == completed_of(old(tally)@) + done@.applied.len()
            + done@.failures.len(),
{
    let ghost start = tally@;
    let mut i: usize = 0;
    while i < done.applied.len()
        invariant
            i <= done.applied@.len(),
            completed_of(start) + done@.applied.len() + done@.failures.len() <= usize::MAX,
            tally@ == with_applied(start, total as int, done@.applied, i as nat),
            completed_of(tally@) == completed_of(start) + i,
        decreases done.applied.len() - i,
    {
        assert(done@.applied[i as int] == done.applied@[i as int]@);
        tally.count(
            Fate::Replaced,
            total,
            "Textura substituída pelo motor UTX.",
            done.applied[i].as_str(),
            None,
        );
        i = i + 1;
    }
    let ghost middle = tally@;
    let mut k: usize = 0;
    while k < done.failures.len()
        invariant
            k <= done.failures@.len(),
            completed_of(middle) + done@.failures.len() <= usize::MAX,
            tally@ == with_failures(middle, total as int, done@.failures, k as nat),
            completed_of(tally@) == completed_of(middle) + k,
        decreases done.failures.len() - k,
    {
        let (file_name, error) = &done.failures[k];
        assert(done@.failures[k as int].file_name == file_name@);
        assert(done@.failures[k as int].error == error@);
        let phase = text::join("Textura problemática ignorada: ", error.as_str());
        tally.count(
            Fate::Skipped,
            total,
            phase.as_str(),
            file_name.as_str(),
            Some(error.as_str()),
        );
        k = k + 1;
    }
}

fn count_additions(
    tally: &mut ImportTally,
    total: usize,
    additions: &Vec<PendingTextureImport>,
    outcomes: &Vec<TextureImportOutcome>,
)
    requires
        additions@.len() == outcomes@.len(),
        completed_of(old(tally)@) + additions@.len() <= usize::MAX,
    ensures
        final(tally)@ == with_additions(
            old(tally)@,
            total as int,
            pending_of(additions@),
            outcomes@,
            additions@.len(),
        ),
{
    let ghost start = tally@;
    let mut i: usize = 0;
    while i < additions.len()
        invariant
            i <= additions@.len(),
            additions@.len() == outcomes@.len(),
            completed_of(start) + additions@.len() <= usize::MAX,
            completed_of(tally@) == completed_of(start) + i,
            tally@ == with_additions(
                start,
                total as int,
                pending_of(additions@),
                outcomes@,
                i as nat,
            ),
        decreases additions.len() - i,
    {
        assert(pending_of(additions@)[i as int].file_name == additions@[i as int].file_name@);
        if outcomes[i].added {
            tally.count(
                Fate::Added,
                total,
                "Textura adicionada pelo motor UTX.",
                additions[i].file_name.as_str(),
                None,
            );
        } else {
            tally.count(
                Fate::Replaced,
                total,
                "Textura substituída pelo motor UTX.",
                additions[i].file_name.as_str(),
                None,
            );
        }
        i = i + 1;
    }
}

fn count_refused(
    tally: &mut ImportTally,
    total: usize,
    additions: &Vec<PendingTextureImport>,
    error: &str,
)
    requires
        completed_of(old(tally)@) + additions@.len() <= usize::MAX,
    ensures
        final(tally)@ == with_refused(
            old(tally)@,
            total as int,
            pending_of(additions@),
            error@,
            additions@.len(),
        ),
{
    let ghost start = tally@;
    let phase = text::join("Nova textura ignorada: ", error);
    let mut i: usize = 0;
    while i < additions.len()
        invariant
            i <= additions@.len(),
            phase@ == "Nova textura ignorada: "@ + error@,
            completed_of(start) + additions@.len() <= usize::MAX,
            completed_of(tally@) == completed_of(start) + i,
            tally@ == with_refused(
                start,
                total as int,
                pending_of(additions@),
                error@,
                i as nat,
            ),
        decreases additions.len() - i,
    {
        assert(pending_of(additions@)[i as int].file_name == additions@[i as int].file_name@);
        tally.count(
            Fate::Skipped,
            total,
            phase.as_str(),
            additions[i].file_name.as_str(),
            Some(error),
        );
        i = i + 1;
    }
}

proof fn outcome_for_each_request(
    data: Seq<u8>,
    template: Seq<u8>,
    group: Seq<char>,
    requests: Seq<RequestModel>,
)
    ensures
        texture_engine::added_to_file(data, template, group, requests) matches Ok((_, outcomes)) ==> outcomes.len()
            == requests.len(),
{
    reveal(adding::with_added);
}

/// Hands what is pending to the engine.
fn store_pending(
    data: &[u8],
    template: &[u8],
    group: &str,
    total: usize,
    plan: Plan,
) -> (r: (ImportTally, Vec<u8>))
    requires
        completed_of(plan.model().tally) + plan.model().pending.len() <= usize::MAX,
    ensures
        (r.0@, r.1@) == stored_pending(data@, template@, group@, total as int, plan.model()),
{
    let ghost model = plan.model();
    let mut tally = plan.tally;
    if plan.pending.len() == 0 {
        return (tally, bytes::copy_bytes(data));
    }
    tally.report(total, "Gravando texturas no motor UTX…");
    let (retries, additions) = part_pending(plan.pending);
    let done = import_existing_textures_resilient(bytes::copy_bytes(data), retries.as_slice());
    proof {
        pending_is_parted(model.pending);
        every_replacement_is_settled(data@, retries_in(model.pending));
    }
    count_recovered(&mut tally, total, &done);
    let working = done.data;
    if additions.pending.len() == 0 {
        return (tally, working);
    }
    proof {
        outcome_for_each_request(
            working@,
            template@,
            group@,
            requests_in(additions_in(model.pending)),
        );
    }
    match texture_engine::import_new_textures(
        bytes::copy_bytes(working.as_slice()),
        template,
        group,
        additions.requests.as_slice(),
    ) {
        Ok((updated, outcomes)) => {
            count_additions(&mut tally, total, &additions.pending, &outcomes);
            (tally, updated)
        },
        Err(error) => {
            count_refused(&mut tally, total, &additions.pending, error.as_str());
            (tally, working)
        },
    }
}

/// The tally and the data of a package after an import of prepared files, or
/// why they cannot be matched with its textures. The first report says that the
/// files are being prepared.
#[verifier::opaque]
pub open spec fn imported_files(
    p: PackageModel,
    template: Seq<u8>,
    group: Seq<char>,
    prepared: Seq<PreparedModel>,
) -> (TallyModel, Result<Seq<u8>, Seq<char>>) {
    let start = with_report(no_tally(), prepared.len() as int, "Preparando texturas…"@);
    match import_index(p, p.exports.len()) {
        Err(e) => (start, Err(e)),
        Ok(index) => {
            let plan = planned(start, index, group, prepared, prepared.len());
            let (tally, data) = stored_pending(
                p.data,
                template,
                group,
                prepared.len() as int,
                plan,
            );
            (tally, Ok(data))
        },
    }
}

/// What is to be done with prepared files, or why they cannot be matched with the
/// textures of a package.
pub open spec fn import_plan(p: PackageModel, group: Seq<char>, prepared: Seq<PreparedModel>) -> Result<
    PlanModel,
    Seq<char>,
> {
    let start = with_report(no_tally(), prepared.len() as int, "Preparando texturas…"@);
    match import_index(p, p.exports.len()) {
        Err(e) => Err(e),
        Ok(index) => Ok(planned(start, index, group, prepared, prepared.len())),
    }
}

/// What can be reported before the engine is at work.
pub open spec fn early_reports(plan: PlanModel, total: int) -> Seq<ProgressModel> {
    if plan.pending.len() == 0 {
        plan.tally.reports
    } else {
        with_report(plan.tally, total, "Gravando texturas no motor UTX…"@).reports
    }
}

/// Whether reports go on from others.
pub open spec fn goes_on(a: Seq<ProgressModel>, b: Seq<ProgressModel>) -> bool {
    a.len() <= b.len() && b.take(a.len() as int) == a
}

proof fn reports_go_on(a: Seq<ProgressModel>, b: Seq<ProgressModel>, one: ProgressModel)
    requires
        goes_on(a, b),
    ensures
        goes_on(a, b.push(one)),
{
    assert(b.push(one).take(a.len() as int) =~= b.take(a.len() as int));
}

proof fn applied_go_on(t: TallyModel, total: int, names: Seq<Seq<char>>, n: nat, a: Seq<ProgressModel>)
    requires
        goes_on(a, t.reports),
    ensures
        goes_on(a, with_applied(t, total, names, n).reports),
    decreases n,
{
    if n > 0 {
        applied_go_on(t, total, names, (n - 1) as nat, a);
        let before = with_applied(t, total, names, (n - 1) as nat);
        reports_go_on(a, before.reports, with_applied(t, total, names, n).reports.last());
    }
}

proof fn failures_go_on(
    t: TallyModel,
    total: int,
    failures: Seq<FailureModel>,
    n: nat,
    a: Seq<ProgressModel>,
)
    requires
        goes_on(a, t.reports),
    ensures
        goes_on(a, with_failures(t, total, failures, n).reports),
    decreases n,
{
    if n > 0 {
        failures_go_on(t, total, failures, (n - 1) as nat, a);
        let before = with_failures(t, total, failures, (n - 1) as nat);
        reports_go_on(a, before.reports, with_failures(t, total, failures, n).reports.last());
    }
}

proof fn additions_go_on(
    t: TallyModel,
    total: int,
    additions: Seq<PendingModel>,
    outcomes: Seq<TextureImportOutcome>,
    n: nat,
    a: Seq<ProgressModel>,
)
    requires
        goes_on(a, t.reports),
    ensures
        goes_on(a, with_additions(t, total, additions, outcomes, n).reports),
    decreases n,
{
    if n > 0 {
        additions_go_on(t, total, additions, outcomes, (n - 1) as nat, a);
        let before = with_additions(t, total, additions, outcomes, (n - 1) as nat);
        reports_go_on(
            a,
            before.reports,
            with_additions(t, total, additions, outcomes, n).reports.last(),
        );
    }
}

proof fn refused_go_on(
    t: TallyModel,
    total: int,
    additions: Seq<PendingModel>,
    error: Seq<char>,
    n: nat,
    a: Seq<ProgressModel>,
)
    requires
        goes_on(a, t.reports),
    ensures
        goes_on(a, with_refused(t, total, additions, error, n).reports),
    decreases n,
{
    if n > 0 {
        refused_go_on(t, total, additions, error, (n - 1) as nat, a);
        let before = with_refused(t, total, additions, error, (n - 1) as nat);
        reports_go_on(a, before.reports, with_refused(t, total, additions, error, n).reports.last());
    }
}

/// What was reported before the engine was at work comes first among all that an
/// import reports.
pub proof fn early_reports_come_first(
    p: PackageModel,
    template: Seq<u8>,
    group: Seq<char>,
    prepared: Seq<PreparedModel>,
)
    requires
        import_plan(p, group, prepared) is Ok,
    ensures
        goes_on(
            early_reports(import_plan(p, group, prepared)->Ok_0, prepared.len() as int),
            imported_files(p, template, group, prepared).0.reports,
        ),
{
    reveal(imported_files);
    let total = prepared.len() as int;
    let plan = import_plan(p, group, prepared)->Ok_0;
    let a = early_reports(plan, total);
    assert(a.take(a.len() as int) =~= a);
    if plan.pending.len() > 0 {
        let started = with_report(plan.tally, total, "Gravando texturas no motor UTX…"@);
        let done = recovered(p.data, retries_in(plan.pending));
        applied_go_on(started, total, done.applied, done.applied.len(), a);
        let applied = with_applied(started, total, done.applied, done.applied.len());
        failures_go_on(applied, total, done.failures, done.failures.len(), a);
        let tally = with_failures(applied, total, done.failures, done.failures.len());
        let additions = additions_in(plan.pending);
        match texture_engine::added_to_file(done.data, template, group, requests_in(additions)) {
            Ok((_, outcomes)) => {
                additions_go_on(tally, total, additions, outcomes, additions.len(), a);
            },
            Err(error) => {
                refused_go_on(tally, total, additions, error, additions.len(), a);
            },
        }
    }
}

impl Plan {
    /// What can be reported before the engine is at work.
    pub fn early_reports(&self, total: usize) -> (r: Vec<TextureImportProgress>)
        requires
            completed_of(self.model().tally) <= usize::MAX,
        ensures
            reports_of(r@) == early_reports(self.model(), total as int),
    {
        let mut reports: Vec<TextureImportProgress> = Vec::new();
        let mut i: usize = 0;
        assert(reports_of(reports@) =~= self.tally@.reports.take(0));
        while i < self.tally.reports.len()
            invariant
                i <= self.tally.reports@.len(),
                self.tally@.reports == reports_of(self.tally.reports@),
                reports_of(reports@) == self.tally@.reports.take(i as int),
            decreases self.tally.reports.len() - i,
        {
            let ghost before = reports_of(reports@);
            let one = self.tally.reports[i].copy();
            let ghost model = one@;
            reports.push(one);
            assert(reports_of(reports@) =~= before.push(model));
            assert(before.push(model) =~= self.tally@.reports.take(i + 1));
            i = i + 1;
        }
        assert(self.tally@.reports.take(i as int) =~= self.tally@.reports);
        if self.pending.len() > 0 {
            let ghost before = reports_of(reports@);
            let one = TextureImportProgress {
                completed: self.tally.replaced + self.tally.added + self.tally.skipped
                    + self.tally.failed,
                total,
                phase: "Gravando texturas no motor UTX…".to_owned(),
                file_name: String::new(),
            };
            let ghost model = one@;
            reports.push(one);
            assert(model.file_name =~= Seq::<char>::empty());
            assert(reports_of(reports@) =~= before.push(model));
        }
        reports
    }
}

impl TextureImportProgress {
    fn copy(&self) -> (r: Self)
        ensures
            r@ == self@,
    {
        TextureImportProgress {
            completed: self.completed,
            total: self.total,
            phase: self.phase.clone(),
            file_name: self.file_name.clone(),
        }
    }
}

/// What is reported first of an import.
pub fn first_reports(total: usize) -> (r: Vec<TextureImportProgress>)
    ensures
        reports_of(r@) == with_report(no_tally(), total as int, "Preparando texturas…"@).reports,
{
    let mut tally = ImportTally::empty();
    tally.report(total, "Preparando texturas…");
    tally.reports
}

impl Package {
    /// Matches prepared files with the textures of the package and says what is to
    /// be done with them.
    pub fn plan_import(&self, group: &str, prepared: Vec<PreparedTexture>) -> (r: Result<
        Plan,
        String,
    >)
        ensures
            match r {
                Ok(plan) => {
                    &&& import_plan(self@, group@, prepared_of(prepared@)) == Ok::<
                        PlanModel,
                        Seq<char>,
                    >(plan.model())
                    &&& completed_of(plan.model().tally) + plan.model().pending.len()
                        == prepared@.len()
                },
                Err(message) => import_plan(self@, group@, prepared_of(prepared@)) == Err::<
                    PlanModel,
                    Seq<char>,
                >(message@),
            },
    {
        let total: usize = prepared.len();
        let mut tally = ImportTally::empty();
        tally.report(total, "Preparando texturas…");
        let ghost start = tally@;
        let index = self.texture_import_index()?;
        proof {
            every_file_is_planned(
                start,
                indexed_of(index@),
                group@,
                prepared_of(prepared@),
                prepared@.len(),
            );
        }
        Ok(plan_files(&index, group, prepared, tally))
    }

    /// Carries a plan out and gives the tally and the new data.
    pub fn carry_out(&self, template: &[u8], group: &str, total: usize, plan: Plan) -> (r: (
        ImportTally,
        Vec<u8>,
    ))
        requires
            completed_of(plan.model().tally) + plan.model().pending.len() <= usize::MAX,
        ensures
            (r.0@, r.1@) == stored_pending(
                self@.data,
                template@,
                group@,
                total as int,
                plan.model(),
            ),
    {
        store_pending(self.data.as_slice(), template, group, total, plan)
    }
}

proof fn applied_are_counted(t: TallyModel, total: int, names: Seq<Seq<char>>, n: nat)
    ensures
        completed_of(with_applied(t, total, names, n)) == completed_of(t) + n,
        with_applied(t, total, names, n).reports.len() == t.reports.len() + n,
    decreases n,
{
    if n > 0 {
        applied_are_counted(t, total, names, (n - 1) as nat);
    }
}

proof fn failures_are_counted(t: TallyModel, total: int, failures: Seq<FailureModel>, n: nat)
    ensures
        completed_of(with_failures(t, total, failures, n)) == completed_of(t) + n,
        with_failures(t, total, failures, n).reports.len() == t.reports.len() + n,
    decreases n,
{
    if n > 0 {
        failures_are_counted(t, total, failures, (n - 1) as nat);
    }
}

proof fn additions_are_counted(
    t: TallyModel,
    total: int,
    additions: Seq<PendingModel>,
    outcomes: Seq<TextureImportOutcome>,
    n: nat,
)
    ensures
        completed_of(with_additions(t, total, additions, outcomes, n)) == completed_of(t) + n,
        with_additions(t, total, additions, outcomes, n).reports.len() == t.reports.len() + n,
    decreases n,
{
    if n > 0 {
        additions_are_counted(t, total, additions, outcomes, (n - 1) as nat);
    }
}

proof fn refused_are_counted(
    t: TallyModel,
    total: int,
    additions: Seq<PendingModel>,
    error: Seq<char>,
    n: nat,
)
    ensures
        completed_of(with_refused(t, total, additions, error, n)) == completed_of(t) + n,
        with_refused(t, total, additions, error, n).reports.len() == t.reports.len() + n,
    decreases n,
{
    if n > 0 {
        refused_are_counted(t, total, additions, error, (n - 1) as nat);
    }
}

proof fn planned_reports(
    start: TallyModel,
    index: Seq<IndexedModel>,
    group: Seq<char>,
    prepared: Seq<PreparedModel>,
    n: nat,
)
    ensures
        ({
            let plan = planned(start, index, group, prepared, n);
            plan.tally.reports.len() + plan.pending.len() == start.reports.len() + n
        }),
    decreases n,
{
    if n > 0 {
        planned_reports(start, index, group, prepared, (n - 1) as nat);
    }
}

/// Every file of an import has one fate: the counts add up to the number of
/// files, and each file is reported once, beside one or two reports on the
/// import as a whole.
pub proof fn every_file_has_a_fate(
    p: PackageModel,
    template: Seq<u8>,
    group: Seq<char>,
    prepared: Seq<PreparedModel>,
)
    ensures
        ({
            let (tally, data) = imported_files(p, template, group, prepared);
            data is Ok ==> {
                &&& completed_of(tally) == prepared.len()
                &&& prepared.len() + 1 <= tally.reports.len() <= prepared.len() + 2
            }
        }),
{
    reveal(imported_files);
    let total = prepared.len() as int;
    let start = with_report(no_tally(), total, "Preparando texturas…"@);
    if let Ok(index) = import_index(p, p.exports.len()) {
        let plan = planned(start, index, group, prepared, prepared.len());
        every_file_is_planned(start, index, group, prepared, prepared.len());
        planned_reports(start, index, group, prepared, prepared.len());
        if plan.pending.len() > 0 {
            let started = with_report(plan.tally, total, "Gravando texturas no motor UTX…"@);
            let done = recovered(p.data, retries_in(plan.pending));
            every_replacement_is_settled(p.data, retries_in(plan.pending));
            pending_is_parted(plan.pending);
            applied_are_counted(started, total, done.applied, done.applied.len());
            let applied = with_applied(started, total, done.applied, done.applied.len());
            failures_are_counted(applied, total, done.failures, done.failures.len());
            let tally = with_failures(applied, total, done.failures, done.failures.len());
            let additions = additions_in(plan.pending);
            match texture_engine::added_to_file(done.data, template, group, requests_in(additions)) {
                Ok((_, outcomes)) => {
                    additions_are_counted(tally, total, additions, outcomes, additions.len());
                },
                Err(error) => {
                    refused_are_counted(tally, total, additions, error, additions.len());
                },
            }
        }
    }
}


/// Whether the reports of a tally tell how it came to be: the number of files that are
/// done never falls, takes every value up to the present one, and is the present one in
/// the last report. No more failures are described than the limit allows.
pub open spec fn reports_fit(t: TallyModel) -> bool {
    &&& forall|i: int, j: int|
        0 <= i <= j < t.reports.len() ==> (#[trigger] t.reports[i]).completed <= (
        #[trigger] t.reports[j]).completed
    &&& t.reports.len() > 0 ==> t.reports.last().completed == completed_of(t)
    &&& t.reports.len() == 0 ==> completed_of(t) == 0
    &&& forall|v: int| 1 <= v <= completed_of(t) ==> #[trigger] is_reported(t, v)
    &&& t.errors.len() <= MAX_TEXTURE_IMPORT_ERRORS
}

/// Whether a report tells that this many files are done.
pub open spec fn is_reported(t: TallyModel, completed: int) -> bool {
    exists|i: int| 0 <= i < t.reports.len() && (#[trigger] t.reports[i]).completed == completed
}

proof fn one_report_fits(t: TallyModel, after: TallyModel)
    requires
        reports_fit(t),
        after.reports == t.reports.push(after.reports.last()),
        after.reports.last().completed == completed_of(after),
        completed_of(t) <= completed_of(after) <= completed_of(t) + 1,
        after.errors.len() <= MAX_TEXTURE_IMPORT_ERRORS,
    ensures
        reports_fit(after),
{
    assert forall|i: int, j: int| 0 <= i <= j < after.reports.len() implies (
    #[trigger] after.reports[i]).completed <= (#[trigger] after.reports[j]).completed by {
        if i < t.reports.len() {
            assert(after.reports[i] == t.reports[i]);
            assert(t.reports[i].completed <= t.reports.last().completed);
        }
        if j < t.reports.len() {
            assert(after.reports[j] == t.reports[j]);
        }
    }
    assert forall|v: int| 1 <= v <= completed_of(after) implies #[trigger] is_reported(after, v) by {
        if v <= completed_of(t) {
            assert(is_reported(t, v));
            let i = choose|i: int|
                0 <= i < t.reports.len() && (#[trigger] t.reports[i]).completed == v;
            assert(after.reports[i] == t.reports[i]);
        } else {
            assert(after.reports[after.reports.len() - 1].completed == v);
        }
    }
}

proof fn counting_fits(
    t: TallyModel,
    fate: Fate,
    total: int,
    phase: Seq<char>,
    file_name: Seq<char>,
    error: Option<Seq<char>>,
)
    requires
        reports_fit(t),
    ensures
        reports_fit(counted(t, fate, total, phase, file_name, error)),
{
    one_report_fits(t, counted(t, fate, total, phase, file_name, error));
}

proof fn planning_fits(
    start: TallyModel,
    index: Seq<IndexedModel>,
    group: Seq<char>,
    prepared: Seq<PreparedModel>,
    n: nat,
)
    requires
        reports_fit(start),
    ensures
        reports_fit(planned(start, index, group, prepared, n).tally),
    decreases n,
{
    if n > 0 {
        planning_fits(start, index, group, prepared, (n - 1) as nat);
        let plan = planned(start, index, group, prepared, (n - 1) as nat);
        let total = prepared.len() as int;
        let file = prepared[n - 1];
        let file_name = paths::shown_name(file.path);
        match file.result {
            Err(error) => {
                counting_fits(
                    plan.tally,
                    Fate::Failed,
                    total,
                    "Arquivo recusado: "@ + error,
                    file_name,
                    Some(described(file_name, error)),
                );
            },
            Ok(texture) => {
                counting_fits(
                    plan.tally,
                    Fate::Skipped,
                    total,
                    "Nome duplicado ignorado."@,
                    file_name,
                    None,
                );
                counting_fits(
                    plan.tally,
                    Fate::Failed,
                    total,
                    "Nome Unicode não pode criar uma nova textura."@,
                    file_name,
                    Some(described(file_name, unicode_text())),
                );
                counting_fits(
                    plan.tally,
                    Fate::Skipped,
                    total,
                    "Formato ou dimensões incompatíveis; ignorada."@,
                    file_name,
                    None,
                );
                let existing = find_indexed(index, tables::lookup_key(group, texture.name), 0);
                if let Err(error) = imports::request_of(fitted(texture, existing)) {
                    counting_fits(
                        plan.tally,
                        Fate::Failed,
                        total,
                        "Textura incompatível: "@ + error,
                        file_name,
                        Some(described(file_name, error)),
                    );
                }
            },
        }
    }
}

proof fn applying_fits(t: TallyModel, total: int, names: Seq<Seq<char>>, n: nat)
    requires
        reports_fit(t),
    ensures
        reports_fit(with_applied(t, total, names, n)),
    decreases n,
{
    if n > 0 {
        applying_fits(t, total, names, (n - 1) as nat);
        counting_fits(
            with_applied(t, total, names, (n - 1) as nat),
            Fate::Replaced,
            total,
            "Textura substituída pelo motor UTX."@,
            names[n - 1],
            None,
        );
    }
}

proof fn failing_fits(t: TallyModel, total: int, failures: Seq<FailureModel>, n: nat)
    requires
        reports_fit(t),
    ensures
        reports_fit(with_failures(t, total, failures, n)),
    decreases n,
{
    if n > 0 {
        let one = failures[n - 1];
        failing_fits(t, total, failures, (n - 1) as nat);
        counting_fits(
            with_failures(t, total, failures, (n - 1) as nat),
            Fate::Skipped,
            total,
            "Textura problemática ignorada: "@ + one.error,
            one.file_name,
            Some(described(one.file_name, one.error)),
        );
    }
}

proof fn adding_fits(
    t: TallyModel,
    total: int,
    additions: Seq<PendingModel>,
    outcomes: Seq<TextureImportOutcome>,
    n: nat,
)
    requires
        reports_fit(t),
    ensures
        reports_fit(with_additions(t, total, additions, outcomes, n)),
    decreases n,
{
    if n > 0 {
        adding_fits(t, total, additions, outcomes, (n - 1) as nat);
        let before = with_additions(t, total, additions, outcomes, (n - 1) as nat);
        counting_fits(
            before,
            Fate::Added,
            total,
            "Textura adicionada pelo motor UTX."@,
            additions[n - 1].file_name,
            None,
        );
        counting_fits(
            before,
            Fate::Replaced,
            total,
            "Textura substituída pelo motor UTX."@,
            additions[n - 1].file_name,
            None,
        );
    }
}

proof fn refusing_fits(
    t: TallyModel,
    total: int,
    additions: Seq<PendingModel>,
    error: Seq<char>,
    n: nat,
)
    requires
        reports_fit(t),
    ensures
        reports_fit(with_refused(t, total, additions, error, n)),
    decreases n,
{
    if n > 0 {
        let name = additions[n - 1].file_name;
        refusing_fits(t, total, additions, error, (n - 1) as nat);
        counting_fits(
            with_refused(t, total, additions, error, (n - 1) as nat),
            Fate::Skipped,
            total,
            "Nova textura ignorada: "@ + error,
            name,
            Some(described(name, error)),
        );
    }
}

proof fn heading_fits(t: TallyModel, total: int, phase: Seq<char>)
    requires
        reports_fit(t),
    ensures
        reports_fit(with_report(t, total, phase)),
{
    one_report_fits(t, with_report(t, total, phase));
}

/// The reports of an import tell how it goes on: the number of files that are done never
/// falls, takes every value up to the number of files, and ends there. No more failures
/// are described than the limit allows.
pub proof fn batch_reports_go_on(
    p: PackageModel,
    template: Seq<u8>,
    group: Seq<char>,
    prepared: Seq<PreparedModel>,
)
    ensures
        ({
            let (tally, data) = imported_files(p, template, group, prepared);
            &&& reports_fit(tally)
            &&& tally.reports.len() > 0
            &&& data is Ok ==> {
                &&& tally.reports.last().completed == prepared.len()
                &&& forall|v: int| 1 <= v <= prepared.len() ==> #[trigger] is_reported(tally, v)
            }
        }),
{
    reveal(imported_files);
    let total = prepared.len() as int;
    let start = with_report(no_tally(), total, "Preparando texturas…"@);
    heading_fits(no_tally(), total, "Preparando texturas…"@);
    every_file_has_a_fate(p, template, group, prepared);
    if let Ok(index) = import_index(p, p.exports.len()) {
        let plan = planned(start, index, group, prepared, prepared.len());
        planning_fits(start, index, group, prepared, prepared.len());
        if plan.pending.len() > 0 {
            heading_fits(plan.tally, total, "Gravando texturas no motor UTX…"@);
            let started = with_report(plan.tally, total, "Gravando texturas no motor UTX…"@);
            let done = recovered(p.data, retries_in(plan.pending));
            applying_fits(started, total, done.applied, done.applied.len());
            let applied = with_applied(started, total, done.applied, done.applied.len());
            failing_fits(applied, total, done.failures, done.failures.len());
            let tally = with_failures(applied, total, done.failures, done.failures.len());
            let additions = additions_in(plan.pending);
            match texture_engine::added_to_file(done.data, template, group, requests_in(additions)) {
                Ok((_, outcomes)) => {
                    adding_fits(tally, total, additions, outcomes, additions.len());
                },
                Err(error) => {
                    refusing_fits(tally, total, additions, error, additions.len());
                },
            }
        }
    }
}

/// No report of an import speaks of more files than there are.
pub proof fn batch_reports_stay_below(
    p: PackageModel,
    template: Seq<u8>,
    group: Seq<char>,
    prepared: Seq<PreparedModel>,
)
    ensures
        ({
            let tally = imported_files(p, template, group, prepared).0;
            forall|i: int|
                0 <= i < tally.reports.len() ==> (#[trigger] tally.reports[i]).completed
                    <= prepared.len()
        }),
{
    batch_reports_go_on(p, template, group, prepared);
    let (tally, data) = imported_files(p, template, group, prepared);
    assert forall|i: int| 0 <= i < tally.reports.len() implies (
    #[trigger] tally.reports[i]).completed <= prepared.len() by {
        assert(tally.reports[i].completed <= tally.reports.last().completed);
        if data is Err {
            reveal(imported_files);
        }
    }
}

} // verus!
