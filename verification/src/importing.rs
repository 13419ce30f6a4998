//! Importing prepared texture files into an open package, as one group or as a
//! tree of folders.

use vstd::prelude::*;
use crate::batch::{Plan, PlanModel, PreparedModel, PreparedTexture, ProgressModel, TallyModel, TextureImportProgress, MAX_TEXTURE_IMPORT_ERRORS};
use crate::package::{Package, PackageModel};
use crate::reader::Dialect;
use crate::session::{CacheModel, CachedUtx};
use crate::batch;
use crate::metadata;
use crate::package;
use crate::paths;
use crate::text;

verus! {

/// How an import came out.
#[derive(Debug)]
pub struct TextureImportSummary {
    pub replaced: usize,
    pub added: usize,
    pub skipped: usize,
    pub failed: usize,
    pub errors: Vec<String>,
    pub log_path: Option<String>,
}

pub struct SummaryModel {
    pub replaced: int,
    pub added: int,
    pub skipped: int,
    pub failed: int,
    pub errors: Seq<Seq<char>>,
    pub log_path: Option<Seq<char>>,
}

impl View for TextureImportSummary {
    type V = SummaryModel;

    open spec fn view(&self) -> SummaryModel {
        SummaryModel {
            replaced: self.replaced as int,
            added: self.added as int,
            skipped: self.skipped as int,
            failed: self.failed as int,
            errors: batch::texts_of(self.errors@),
            log_path: metadata::seen_text(self.log_path),
        }
    }
}

pub open spec fn no_summary() -> SummaryModel {
    SummaryModel { replaced: 0, added: 0, skipped: 0, failed: 0, errors: Seq::empty(), log_path: None }
}

pub open spec fn summary_of(t: TallyModel) -> SummaryModel {
    SummaryModel {
        replaced: t.replaced,
        added: t.added,
        skipped: t.skipped,
        failed: t.failed,
        errors: t.errors,
        log_path: None,
    }
}

/// How many files a summary speaks of.
pub open spec fn files_in(s: SummaryModel) -> int {
    s.replaced + s.added + s.skipped + s.failed
}

/// What an import reported and how it came out.
#[derive(Debug)]
pub struct ImportRun {
    pub reports: Vec<TextureImportProgress>,
    pub outcome: Result<TextureImportSummary, String>,
}

pub struct RunModel {
    pub reports: Seq<ProgressModel>,
    pub outcome: Result<SummaryModel, Seq<char>>,
}

impl View for ImportRun {
    type V = RunModel;

    open spec fn view(&self) -> RunModel {
        RunModel {
            reports: batch::reports_of(self.reports@),
            outcome: match self.outcome {
                Ok(summary) => Ok(summary@),
                Err(error) => Err(error@),
            },
        }
    }
}

/// The group that textures are to be imported into.
pub open spec fn import_target_of(package_name: Seq<char>) -> Result<Seq<char>, Seq<char>> {
    let group = text::trimmed(package_name);
    if group.len() == 0 {
        Err("Selecione o pacote de destino antes de importar texturas."@)
    } else if !paths::import_group_fits(group) {
        Err(paths::import_group_text())
    } else {
        Ok(group)
    }
}

/// Checks the group that textures are to be imported into.
pub fn import_target(package_name: &str) -> (r: Result<String, String>)
    ensures
        paths::text_result(r, import_target_of(package_name@)),
{
    let chars = text::chars_of(package_name);
    let group = text::trim(chars.as_slice());
    if group.len() == 0 {
        return Err("Selecione o pacote de destino antes de importar texturas.".to_owned());
    }
    let name = text::text_of(group);
    paths::validate_texture_group_name(name.as_str())?;
    Ok(name)
}

/// What an import reports, how it comes out, and the package after it. The
/// package changes where a texture was replaced or added.
pub open spec fn import_run(
    p: PackageModel,
    template: Seq<u8>,
    package_name: Seq<char>,
    prepared: Seq<PreparedModel>,
) -> (RunModel, PackageModel) {
    match import_target_of(package_name) {
        Err(e) => (RunModel { reports: Seq::empty(), outcome: Err(e) }, p),
        Ok(group) => if prepared.len() == 0 {
            (RunModel { reports: Seq::empty(), outcome: Ok(no_summary()) }, p)
        } else {
            let (tally, data) = batch::imported_files(p, template, group, prepared);
            match data {
                Err(e) => (RunModel { reports: tally.reports, outcome: Err(e) }, p),
                Ok(working) => {
                    let done = RunModel {
                        reports: tally.reports,
                        outcome: Ok(summary_of(tally)),
                    };
                    if tally.replaced > 0 || tally.added > 0 {
                        match package::package_of(Dialect::Frontend, working) {
                            Err(e) => (
                                RunModel { reports: tally.reports, outcome: Err(e) },
                                p,
                            ),
                            Ok(after) => (done, after),
                        }
                    } else {
                        (done, p)
                    }
                },
            }
        },
    }
}

fn empty_summary() -> (r: TextureImportSummary)
    ensures
        r@ == no_summary(),
{
    let r = TextureImportSummary {
        replaced: 0,
        added: 0,
        skipped: 0,
        failed: 0,
        errors: Vec::new(),
        log_path: None,
    };
    assert(r@.errors =~= Seq::<Seq<char>>::empty());
    r
}

/// An import whose files are matched with the textures of a package, before the
/// engine is at work.
pub struct PlannedImport {
    pub group: String,
    pub total: usize,
    pub plan: Plan,
    pub package: Ghost<PackageModel>,
    pub package_name: Ghost<Seq<char>>,
    pub prepared: Ghost<Seq<PreparedModel>>,
}

impl PlannedImport {
    pub open spec fn wf(&self) -> bool {
        &&& import_target_of(self.package_name@) == Ok::<Seq<char>, Seq<char>>(self.group@)
        &&& self.prepared@.len() == self.total > 0
        &&& batch::import_plan(self.package@, self.group@, self.prepared@) == Ok::<
            PlanModel,
            Seq<char>,
        >(self.plan.model())
        &&& batch::completed_of(self.plan.model().tally) + self.plan.model().pending.len()
            == self.total
    }

    /// What the import comes to with a template.
    pub open spec fn run(&self, template: Seq<u8>) -> (RunModel, PackageModel) {
        import_run(self.package@, template, self.package_name@, self.prepared@)
    }

    /// What can be reported before the engine is at work: the first reports of the
    /// whole import.
    pub fn reports(&self) -> (r: Vec<TextureImportProgress>)
        requires
            self.wf(),
        ensures
            forall|template: Seq<u8>|
                batch::goes_on(
                    batch::reports_of(r@),
                    (#[trigger] self.run(template)).0.reports,
                ),
    {
        proof {
            assert forall|template: Seq<u8>| batch::goes_on(
                batch::early_reports(self.plan.model(), self.total as int),
                (#[trigger] self.run(template)).0.reports,
            ) by {
                batch::early_reports_come_first(
                    self.package@,
                    template,
                    self.group@,
                    self.prepared@,
                );
                reveal(batch::imported_files);
            }
        }
        self.plan.early_reports(self.total)
    }
}

/// Matches prepared texture files with the textures of a package. Where that fails,
/// or there are none, the import has come to its end.
pub fn start_import(cache: &CachedUtx, package_name: &str, prepared: Vec<PreparedTexture>) -> (r:
    Result<PlannedImport, ImportRun>)
    ensures
        match r {
            Ok(planned) => {
                &&& planned.wf()
                &&& planned.package@ == cache@.package
                &&& planned.package_name@ == package_name@
                &&& planned.prepared@ == batch::prepared_of(prepared@)
            },
            Err(run) => forall|template: Seq<u8>| #[trigger]
                import_run(
                    cache@.package,
                    template,
                    package_name@,
                    batch::prepared_of(prepared@),
                ) == (run@, cache@.package),
        },
{
    let group = match import_target(package_name) {
        Ok(group) => group,
        Err(error) => {
            let r = ImportRun { reports: Vec::new(), outcome: Err(error) };
            assert(r@.reports =~= Seq::<ProgressModel>::empty());
            return Err(r);
        },
    };
    if prepared.len() == 0 {
        let r = ImportRun { reports: Vec::new(), outcome: Ok(empty_summary()) };
        assert(r@.reports =~= Seq::<ProgressModel>::empty());
        return Err(r);
    }
    let total: usize = prepared.len();
    let ghost models = batch::prepared_of(prepared@);
    match cache.package.plan_import(group.as_str(), prepared) {
        Ok(plan) => Ok(
            PlannedImport {
                group,
                total,
                plan,
                package: Ghost(cache@.package),
                package_name: Ghost(package_name@),
                prepared: Ghost(models),
            },
        ),
        Err(error) => {
            proof {
                reveal(batch::imported_files);
            }
            Err(ImportRun { reports: batch::first_reports(total), outcome: Err(error) })
        },
    }
}

/// Hands a planned import to the engine. Existing names replace their pixels; names
/// that do not exist become new Engine.Texture exports. There is a progress report
/// for every file once it has been accepted, skipped, or rejected.
pub fn finish_import(cache: &mut CachedUtx, template: &[u8], planned: PlannedImport) -> (r: ImportRun)
    requires
        planned.wf(),
        planned.package@ == old(cache)@.package,
    ensures
        (r@, final(cache)@.package) == planned.run(template@),
        final(cache)@ == (CacheModel { package: final(cache)@.package, ..old(cache)@ }),
{
    proof {
        reveal(batch::imported_files);
    }
    let (tally, working) = cache.package.carry_out(
        template,
        planned.group.as_str(),
        planned.total,
        planned.plan,
    );
    if tally.replaced > 0 || tally.added > 0 {
        match Package::parse(Dialect::Frontend, working) {
            Ok(package) => {
                cache.package = package;
            },
            Err(error) => return ImportRun { reports: tally.reports, outcome: Err(error) },
        }
    }
    ImportRun {
        reports: tally.reports,
        outcome: Ok(
            TextureImportSummary {
                replaced: tally.replaced,
                added: tally.added,
                skipped: tally.skipped,
                failed: tally.failed,
                errors: tally.errors,
                log_path: None,
            },
        ),
    }
}

/// Imports prepared texture files into one group.
pub fn cached_import_textures_with_progress(
    cache: &mut CachedUtx,
    template: &[u8],
    package_name: &str,
    prepared: Vec<PreparedTexture>,
) -> (r: ImportRun)
    ensures
        ({
            let (run, package) = import_run(
                old(cache)@.package,
                template@,
                package_name@,
                batch::prepared_of(prepared@),
            );
            &&& r@ == run
            &&& final(cache)@ == (CacheModel { package, ..old(cache)@ })
        }),
{
    match start_import(cache, package_name, prepared) {
        Ok(planned) => finish_import(cache, template, planned),
        Err(run) => run,
    }
}

/// How far the import of a tree of folders is.
#[derive(Debug)]
pub struct DirectoryImport {
    pub summary: TextureImportSummary,
    pub completed: usize,
    pub total: usize,
}

pub struct DirectoryModel {
    pub summary: SummaryModel,
    pub completed: int,
    pub total: int,
}

impl View for DirectoryImport {
    type V = DirectoryModel;

    open spec fn view(&self) -> DirectoryModel {
        DirectoryModel {
            summary: self.summary@,
            completed: self.completed as int,
            total: self.total as int,
        }
    }
}

impl DirectoryImport {
    /// Every file of the groups so far is counted, and there are no more than in
    /// the whole tree.
    pub open spec fn wf(&self) -> bool {
        files_in(self@.summary) == self@.completed && self@.completed <= self@.total
    }

    /// The start of an import of `total` files.
    pub fn start(total: usize) -> (r: Self)
        ensures
            r.wf(),
            r@ == (DirectoryModel { summary: no_summary(), completed: 0, total: total as int }),
    {
        DirectoryImport { summary: empty_summary(), completed: 0, total }
    }
}

/// Descriptions of one group among those of all.
pub open spec fn with_group_errors(
    errors: Seq<Seq<char>>,
    group: Seq<char>,
    more: Seq<Seq<char>>,
    n: nat,
) -> Seq<Seq<char>>
    decreases n,
{
    if n == 0 {
        errors
    } else {
        batch::with_error(
            with_group_errors(errors, group, more, (n - 1) as nat),
            Some(batch::described(group, more[n - 1])),
        )
    }
}

/// The state after one group of `files` files.
pub open spec fn with_group_outcome(
    d: DirectoryModel,
    group: Seq<char>,
    files: int,
    outcome: Result<SummaryModel, Seq<char>>,
) -> DirectoryModel {
    let s = d.summary;
    DirectoryModel {
        summary: match outcome {
            Ok(more) => SummaryModel {
                replaced: s.replaced + more.replaced,
                added: s.added + more.added,
                skipped: s.skipped + more.skipped,
                failed: s.failed + more.failed,
                errors: with_group_errors(s.errors, group, more.errors, more.errors.len()),
                log_path: s.log_path,
            },
            Err(error) => SummaryModel {
                failed: s.failed + files,
                errors: batch::with_error(s.errors, Some(batch::described(group, error))),
                ..s
            },
        },
        completed: d.completed + files,
        total: d.total,
    }
}

/// A report of one group as part of the whole.
pub open spec fn group_report(d: DirectoryModel, group: Seq<char>, report: ProgressModel) -> ProgressModel {
    ProgressModel {
        completed: report.completed + d.completed,
        total: d.total,
        phase: group + " · "@ + report.phase,
        file_name: report.file_name,
    }
}

/// The report of a group of `files` files that could not be imported.
pub open spec fn failed_group_report(
    d: DirectoryModel,
    group: Seq<char>,
    files: int,
    error: Seq<char>,
) -> ProgressModel {
    ProgressModel {
        completed: d.completed + files,
        total: d.total,
        phase: group + " não pôde ser importado: "@ + error,
        file_name: Seq::empty(),
    }
}

/// The reports of one group as part of the whole, with one more where the group
/// could not be imported.
pub open spec fn group_reports(d: DirectoryModel, group: Seq<char>, files: int, run: RunModel) -> Seq<
    ProgressModel,
> {
    let reports = Seq::new(run.reports.len(), |i: int| group_report(d, group, run.reports[i]));
    match run.outcome {
        Ok(_) => reports,
        Err(error) => reports.push(failed_group_report(d, group, files, error)),
    }
}

/// A run that speaks of all its files has a summary that does.
proof fn run_counts_files(
    p: PackageModel,
    template: Seq<u8>,
    package_name: Seq<char>,
    prepared: Seq<PreparedModel>,
)
    ensures
        import_run(p, template, package_name, prepared).0.outcome matches Ok(summary) ==> files_in(
            summary,
        ) == prepared.len(),
{
    if let Ok(group) = import_target_of(package_name) {
        batch::every_file_has_a_fate(p, template, group, prepared);
    }
}

proof fn reports_stay_below(
    p: PackageModel,
    template: Seq<u8>,
    package_name: Seq<char>,
    prepared: Seq<PreparedModel>,
    reports: Seq<TextureImportProgress>,
)
    requires
        batch::reports_of(reports) == import_run(p, template, package_name, prepared).0.reports,
    ensures
        forall|i: int| 0 <= i < reports.len() ==> (#[trigger] reports[i]).completed <= prepared.len(),
{
    assert(batch::reports_of(reports).len() == reports.len());
    if let Ok(group) = import_target_of(package_name) {
        if prepared.len() > 0 {
            batch::batch_reports_stay_below(p, template, group, prepared);
            assert forall|i: int| 0 <= i < reports.len() implies (#[trigger] reports[i]).completed
                <= prepared.len() by {
                assert(batch::reports_of(reports)[i] == reports[i]@);
            }
        }
    }
}

impl TextureImportSummary {
    fn push_error(&mut self, group: &str, error: &str)
        ensures
            final(self)@ == (SummaryModel {
                errors: batch::with_error(old(self)@.errors, Some(batch::described(group@, error@))),
                ..old(self)@
            }),
    {
        let ghost before = self@;
        if self.errors.len() < MAX_TEXTURE_IMPORT_ERRORS {
            let line = text::join3(group, ": ", error);
            let ghost model = line@;
            self.errors.push(line);
            assert(batch::texts_of(self.errors@) =~= before.errors.push(model));
        }
    }
}

impl DirectoryImport {
    fn relabel(&self, group: &str, reports: Vec<TextureImportProgress>) -> (r: Vec<
        TextureImportProgress,
    >)
        requires
            forall|i: int|
                0 <= i < reports@.len() ==> (#[trigger] reports@[i]).completed + self.completed
                    <= usize::MAX,
        ensures
            batch::reports_of(r@) == Seq::new(
                reports@.len(),
                |i: int| group_report(self@, group@, batch::reports_of(reports@)[i]),
            ),
    {
        let label = text::join(group, " · ");
        let ghost target = Seq::new(
            reports@.len(),
            |i: int| group_report(self@, group@, batch::reports_of(reports@)[i]),
        );
        let mut relabelled: Vec<TextureImportProgress> = Vec::new();
        assert(batch::reports_of(relabelled@) =~= target.take(0));
        for report in it: reports
            invariant
                it.seq() == reports@,
                label@ == group@ + " · "@,
                target == Seq::new(
                    reports@.len(),
                    |i: int| group_report(self@, group@, batch::reports_of(reports@)[i]),
                ),
                forall|i: int|
                    0 <= i < reports@.len() ==> (#[trigger] reports@[i]).completed + self.completed
                        <= usize::MAX,
                batch::reports_of(relabelled@) == target.take(it.index()),
        {
            let ghost k = it.index();
            let ghost before = batch::reports_of(relabelled@);
            assert(reports@[k] == report);
            let one = TextureImportProgress {
                completed: report.completed + self.completed,
                total: self.total,
                phase: text::join(label.as_str(), report.phase.as_str()),
                file_name: report.file_name,
            };
            let ghost model = one@;
            relabelled.push(one);
            proof {
                assert(batch::reports_of(reports@)[k] == report@);
                assert(model == target[k]);
                assert(batch::reports_of(relabelled@) =~= before.push(model));
                assert(batch::reports_of(relabelled@) =~= target.take(k + 1));
            }
        }
        assert(target.take(reports@.len() as int) =~= target);
        relabelled
    }

    fn take_outcome(&mut self, group: &str, files: usize, outcome: Result<TextureImportSummary, String>)
        requires
            old(self).wf(),
            old(self)@.completed + files <= old(self)@.total,
            outcome matches Ok(summary) ==> files_in(summary@) == files,
        ensures
            final(self).wf(),
            final(self)@ == with_group_outcome(
                old(self)@,
                group@,
                files as int,
                match outcome {
                    Ok(summary) => Ok(summary@),
                    Err(error) => Err(error@),
                },
            ),
    {
        match outcome {
            Ok(more) => {
                let ghost start = self.summary@.errors;
                self.summary.replaced = self.summary.replaced + more.replaced;
                self.summary.added = self.summary.added + more.added;
                self.summary.skipped = self.summary.skipped + more.skipped;
                self.summary.failed = self.summary.failed + more.failed;
                let ghost counts = self.summary@;
                let mut i: usize = 0;
                while i < more.errors.len()
                    invariant
                        i <= more.errors@.len(),
                        self.completed == old(self).completed,
                        self.total == old(self).total,
                        self.summary@ == (SummaryModel {
                            errors: with_group_errors(
                                start,
                                group@,
                                batch::texts_of(more.errors@),
                                i as nat,
                            ),
                            ..counts
                        }),
                    decreases more.errors.len() - i,
                {
                    assert(batch::texts_of(more.errors@)[i as int] == more.errors@[i as int]@);
                    self.summary.push_error(group, more.errors[i].as_str());
                    i = i + 1;
                }
            },
            Err(error) => {
                self.summary.failed = self.summary.failed + files;
                self.summary.push_error(group, error.as_str());
            },
        }
        self.completed = self.completed + files;
    }

    /// Counts the files of a group that could not be imported at all and gives the
    /// report of that.
    pub fn fail_group(&mut self, group: &str, files: usize, error: String) -> (r:
        TextureImportProgress)
        requires
            old(self).wf(),
            old(self)@.completed + files <= old(self)@.total,
        ensures
            final(self).wf(),
            final(self)@ == with_group_outcome(
                old(self)@,
                group@,
                files as int,
                Err::<SummaryModel, Seq<char>>(error@),
            ),
            r@ == failed_group_report(old(self)@, group@, files as int, error@),
    {
        let report = TextureImportProgress {
            completed: self.completed + files,
            total: self.total,
            phase: text::join3(group, " não pôde ser importado: ", error.as_str()),
            file_name: String::new(),
        };
        assert(report@.file_name =~= Seq::<char>::empty());
        self.take_outcome(group, files, Err(error));
        report
    }

    /// Matches the files of a group with the textures of a package. Where the group
    /// comes to its end with that, it is counted, and there is what to report of it.
    pub fn start_group(&mut self, cache: &CachedUtx, group: &str, prepared: Vec<PreparedTexture>) -> (r:
        Result<PlannedImport, Vec<TextureImportProgress>>)
        requires
            old(self).wf(),
            old(self)@.completed + prepared@.len() <= old(self)@.total,
        ensures
            final(self).wf(),
            match r {
                Ok(planned) => {
                    &&& planned.wf()
                    &&& planned.package@ == cache@.package
                    &&& planned.package_name@ == group@
                    &&& planned.prepared@ == batch::prepared_of(prepared@)
                    &&& final(self)@ == old(self)@
                },
                Err(reports) => forall|template: Seq<u8>|
                    {
                        let (run, package) = #[trigger] import_run(
                            cache@.package,
                            template,
                            group@,
                            batch::prepared_of(prepared@),
                        );
                        let files = prepared@.len() as int;
                        &&& package == cache@.package
                        &&& final(self)@ == with_group_outcome(
                            old(self)@,
                            group@,
                            files,
                            run.outcome,
                        )
                        &&& batch::reports_of(reports@) == group_reports(
                            old(self)@,
                            group@,
                            files,
                            run,
                        )
                    },
            },
    {
        let files: usize = prepared.len();
        let ghost models = batch::prepared_of(prepared@);
        assert(models.len() == files);
        match start_import(cache, group, prepared) {
            Ok(planned) => Ok(planned),
            Err(run) => {
                let ghost template = Seq::<u8>::empty();
                assert(import_run(cache@.package, template, group@, models).0 == run@);
                Err(
                    self.take_run(
                        group,
                        files,
                        run,
                        Ghost(cache@.package),
                        Ghost(template),
                        Ghost(models),
                    ),
                )
            },
        }
    }

    /// What can be reported of a group before the engine is at work.
    pub fn early_reports(&self, group: &str, planned: &PlannedImport) -> (r: Vec<
        TextureImportProgress,
    >)
        requires
            self.wf(),
            planned.wf(),
            self@.completed + planned.total <= self@.total,
        ensures
            forall|template: Seq<u8>|
                batch::goes_on(
                    batch::reports_of(r@),
                    group_reports(
                        self@,
                        group@,
                        planned.total as int,
                        (#[trigger] planned.run(template)).0,
                    ),
                ),
    {
        let reports = planned.reports();
        let ghost early = batch::reports_of(reports@);
        proof {
            let template = Seq::<u8>::empty();
            let run = planned.run(template).0;
            assert(batch::goes_on(early, run.reports));
            batch::batch_reports_stay_below(
                planned.package@,
                template,
                planned.group@,
                planned.prepared@,
            );
            reveal(batch::imported_files);
            assert forall|i: int| 0 <= i < reports@.len() implies (#[trigger] reports@[i]).completed
                + self.completed <= usize::MAX by {
                assert(early[i] == reports@[i]@);
                assert(run.reports.take(early.len() as int)[i] == run.reports[i]);
            }
        }
        let shown = self.relabel(group, reports);
        proof {
            assert forall|template: Seq<u8>| batch::goes_on(
                batch::reports_of(shown@),
                group_reports(
                    self@,
                    group@,
                    planned.total as int,
                    (#[trigger] planned.run(template)).0,
                ),
            ) by {
                let run = planned.run(template).0;
                assert(batch::goes_on(early, run.reports));
                let all = group_reports(self@, group@, planned.total as int, run);
                let n = early.len() as int;
                assert forall|i: int| 0 <= i < n implies all.take(n)[i] == batch::reports_of(
                    shown@,
                )[i] by {
                    assert(run.reports.take(n)[i] == run.reports[i]);
                    assert(batch::reports_of(shown@)[i] == group_report(self@, group@, early[i]));
                }
                assert(all.take(n) =~= batch::reports_of(shown@));
            }
        }
        shown
    }

    /// Hands a planned group to the engine and gives all that there is to report of
    /// it.
    pub fn finish_group(
        &mut self,
        cache: &mut CachedUtx,
        template: &[u8],
        group: &str,
        planned: PlannedImport,
    ) -> (r: Vec<TextureImportProgress>)
        requires
            old(self).wf(),
            planned.wf(),
            planned.package@ == old(cache)@.package,
            planned.package_name@ == group@,
            old(self)@.completed + planned.total <= old(self)@.total,
        ensures
            final(self).wf(),
            ({
                let (run, package) = planned.run(template@);
                let files = planned.total as int;
                &&& final(cache)@ == (CacheModel { package, ..old(cache)@ })
                &&& final(self)@ == with_group_outcome(old(self)@, group@, files, run.outcome)
                &&& batch::reports_of(r@) == group_reports(old(self)@, group@, files, run)
            }),
    {
        let files: usize = planned.total;
        let ghost p = planned.package@;
        let ghost models = planned.prepared@;
        let run = finish_import(cache, template, planned);
        self.take_run(
            group,
            files,
            run,
            Ghost(p),
            Ghost(template@),
            Ghost(models),
        )
    }

    /// Counts a group and gives what there is to report of it.
    fn take_run(
        &mut self,
        group: &str,
        files: usize,
        run: ImportRun,
        package: Ghost<PackageModel>,
        template: Ghost<Seq<u8>>,
        prepared: Ghost<Seq<PreparedModel>>,
    ) -> (r: Vec<TextureImportProgress>)
        requires
            old(self).wf(),
            prepared@.len() == files,
            old(self)@.completed + files <= old(self)@.total,
            run@ == import_run(package@, template@, group@, prepared@).0,
        ensures
            final(self).wf(),
            final(self)@ == with_group_outcome(old(self)@, group@, files as int, run@.outcome),
            batch::reports_of(r@) == group_reports(old(self)@, group@, files as int, run@),
    {
        proof {
            run_counts_files(package@, template@, group@, prepared@);
            reports_stay_below(package@, template@, group@, prepared@, run.reports@);
        }
        let mut reports = self.relabel(group, run.reports);
        if let Err(error) = &run.outcome {
            let report = TextureImportProgress {
                completed: self.completed + files,
                total: self.total,
                phase: text::join3(group, " não pôde ser importado: ", error.as_str()),
                file_name: String::new(),
            };
            let ghost before = batch::reports_of(reports@);
            let ghost model = report@;
            reports.push(report);
            proof {
                assert(model.file_name =~= Seq::<char>::empty());
                assert(batch::reports_of(reports@) =~= before.push(model));
            }
        }
        self.take_outcome(group, files, run.outcome);
        reports
    }

    /// Imports the files of one group and gives what there is to report.
    pub fn import_group(
        &mut self,
        cache: &mut CachedUtx,
        template: &[u8],
        group: &str,
        prepared: Vec<PreparedTexture>,
    ) -> (r: Vec<TextureImportProgress>)
        requires
            old(self).wf(),
            old(self)@.completed + prepared@.len() <= old(self)@.total,
        ensures
            final(self).wf(),
            ({
                let (run, package) = import_run(
                    old(cache)@.package,
                    template@,
                    group@,
                    batch::prepared_of(prepared@),
                );
                &&& final(cache)@ == (CacheModel { package, ..old(cache)@ })
                &&& final(self)@ == with_group_outcome(
                    old(self)@,
                    group@,
                    prepared@.len() as int,
                    run.outcome,
                )
                &&& batch::reports_of(r@) == group_reports(
                    old(self)@,
                    group@,
                    prepared@.len() as int,
                    run,
                )
            }),
    {
        assert(batch::prepared_of(prepared@).len() == prepared@.len());
        match self.start_group(cache, group, prepared) {
            Ok(planned) => self.finish_group(cache, template, group, planned),
            Err(reports) => reports,
        }
    }
}

} // verus!
