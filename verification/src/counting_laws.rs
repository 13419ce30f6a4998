//! What is counted: each outcome under its own name.

use vstd::prelude::*;
use crate::batch::{Fate, IndexedModel, PlanModel, PreparedModel, TallyModel};
use crate::extract::{ExtractModel, ExtractStep, UtxExtractMode};
use crate::formats::UtxFormat;
use crate::geodata_plan::TotalsModel;
use crate::importing::{DirectoryModel, SummaryModel};
use crate::package::PackageModel;
use crate::reader::Dialect;
use crate::batch;
use crate::extract;
use crate::geodata_plan;
use crate::importing;
use crate::package;
use crate::paths;
use crate::tables;
use crate::text;
use crate::texture_engine;
use crate::texture_resize;
use crate::session;

verus! {

/// How many of the first steps of an extraction are such.
pub open spec fn steps_such(
    steps: Seq<ExtractStep>,
    n: nat,
    such: spec_fn(ExtractStep) -> bool,
) -> int
    decreases n,
{
    if n == 0 {
        0
    } else {
        steps_such(steps, (n - 1) as nat, such) + if such(steps[n - 1]) {
            1int
        } else {
            0
        }
    }
}

/// Whether a texture was extracted.
pub open spec fn is_extracted(step: ExtractStep) -> bool {
    step matches ExtractStep::Texture { result, .. } && result is Ok
}

/// Whether a texture was not extracted because its format cannot be shown: only plain and
/// compressed textures can.
pub open spec fn is_passed_over(mode: UtxExtractMode, step: ExtractStep) -> bool {
    step matches ExtractStep::Texture { format, result, .. } && result is Err && mode
        == UtxExtractMode::Png && format != UtxFormat::Rgba8 && format != UtxFormat::Dxt1 && format
        != UtxFormat::Dxt3 && format != UtxFormat::Dxt5
}

/// An extraction counts what was extracted as exported, what cannot be shown as skipped,
/// and everything else as failed.
pub proof fn extractions_are_counted_by_kind(
    start: ExtractModel,
    mode: UtxExtractMode,
    steps: Seq<ExtractStep>,
    n: nat,
)
    requires
        n <= steps.len(),
    ensures
        ({
            let s = extract::extracted_in_turn(start, mode, steps, n);
            &&& s.exported == start.exported + steps_such(
                steps,
                n,
                |step: ExtractStep| is_extracted(step),
            )
            &&& s.skipped == start.skipped + steps_such(
                steps,
                n,
                |step: ExtractStep| is_passed_over(mode, step),
            )
            &&& s.failed == start.failed + steps_such(
                steps,
                n,
                |step: ExtractStep| !is_extracted(step) && !is_passed_over(mode, step),
            )
        }),
    decreases n,
{
    if n > 0 {
        extractions_are_counted_by_kind(start, mode, steps, (n - 1) as nat);
    }
}

/// The outcome of a resized texture: whether it was resized, and whether its text went
/// with it.
pub type ResizeOutcome = (Seq<char>, Result<(bool, bool), Seq<char>>);

/// How many of the outcomes of a run are such.
pub open spec fn outcomes_such(
    outcomes: Seq<ResizeOutcome>,
    such: spec_fn(Result<(bool, bool), Seq<char>>) -> bool,
) -> int
    decreases outcomes.len(),
{
    if outcomes.len() == 0 {
        0
    } else {
        outcomes_such(outcomes.drop_last(), such) + if such(outcomes.last().1) {
            1int
        } else {
            0
        }
    }
}

/// A run counts the textures that were resized, those that were kept, the texts that went
/// with them, and the failures, each under its own name.
pub proof fn runs_are_counted_by_kind(outcomes: Seq<ResizeOutcome>)
    ensures
        ({
            let t = texture_resize::run_totals(outcomes);
            &&& t.resized == outcomes_such(
                outcomes,
                |r: Result<(bool, bool), Seq<char>>| r is Ok && r->Ok_0.0,
            )
            &&& t.preserved == outcomes_such(
                outcomes,
                |r: Result<(bool, bool), Seq<char>>| r is Ok && !r->Ok_0.0,
            )
            &&& t.copied == outcomes_such(
                outcomes,
                |r: Result<(bool, bool), Seq<char>>| r is Ok && r->Ok_0.1,
            )
            &&& t.failed == outcomes_such(outcomes, |r: Result<(bool, bool), Seq<char>>| r is Err)
        }),
    decreases outcomes.len(),
{
    if outcomes.len() > 0 {
        runs_are_counted_by_kind(outcomes.drop_last());
    }
}

/// A region that was written is counted as copied or as converted, and one that was not as
/// failed, with its name in front of the error.
pub proof fn regions_are_counted_by_kind(
    t: TotalsModel,
    copy: bool,
    name: Seq<char>,
    result: Result<(), Seq<char>>,
)
    ensures
        ({
            let after = geodata_plan::with_result(t, copy, name, result);
            &&& after.copied == t.copied + if result is Ok && copy {
                1int
            } else {
                0
            }
            &&& after.converted == t.converted + if result is Ok && !copy {
                1int
            } else {
                0
            }
            &&& after.failed == t.failed + if result is Err {
                1int
            } else {
                0
            }
            &&& after.skipped == t.skipped
            &&& result is Ok ==> after.errors == t.errors
            &&& result is Err && t.errors.len() < 30 ==> after.errors == t.errors.push(
                name + ": "@ + result->Err_0,
            )
            &&& result is Err && t.errors.len() >= 30 ==> after.errors == t.errors
        }),
{
}

/// Whether a tally counts one file more than another under one name, and none under the
/// others.
pub open spec fn counts_one_more(after: TallyModel, t: TallyModel, fate: Fate) -> bool {
    &&& after.replaced == t.replaced + if fate == Fate::Replaced {
        1int
    } else {
        0
    }
    &&& after.added == t.added + if fate == Fate::Added {
        1int
    } else {
        0
    }
    &&& after.skipped == t.skipped + if fate == Fate::Skipped {
        1int
    } else {
        0
    }
    &&& after.failed == t.failed + if fate == Fate::Failed {
        1int
    } else {
        0
    }
}

/// What becomes of a file that is to be imported. One that cannot be read fails. One whose
/// name came before is skipped, whatever the case of its letters. One whose texture is
/// there in another format or size is skipped, and in the same it replaces that texture.
/// One whose texture is not there is added if its name is plain, and fails otherwise.
#[verifier::spinoff_prover]
#[verifier::rlimit(30)]
pub proof fn files_have_their_fate(
    plan: PlanModel,
    index: Seq<IndexedModel>,
    group: Seq<char>,
    total: int,
    file: PreparedModel,
)
    ensures
        ({
            let after = batch::with_file(plan, index, group, total, file);
            let kept = after.pending == plan.pending;
            match file.result {
                Err(error) => {
                    &&& counts_one_more(after.tally, plan.tally, Fate::Failed)
                    &&& kept
                },
                Ok(texture) => {
                    let key = tables::lookup_key(group, texture.name);
                    let found = batch::find_indexed(index, key, 0);
                    let known = exists|i: int|
                        #![trigger plan.names[i]]
                        0 <= i < plan.names.len() && plan.names[i] == text::lower_text(
                            texture.name,
                        );
                    &&& known ==> counts_one_more(after.tally, plan.tally, Fate::Skipped) && kept
                    &&& !known && found is None && !text::all_ascii(texture.name)
                        ==> counts_one_more(after.tally, plan.tally, Fate::Failed) && kept
                    &&& !known && found is Some ==> {
                        let entry = found->0;
                        let fits = texture.format == entry.format && texture.width == entry.width
                            && texture.height == entry.height;
                        &&& !fits ==> counts_one_more(after.tally, plan.tally, Fate::Skipped)
                            && kept
                        &&& fits && texture.format != UtxFormat::Unknown ==> {
                            &&& after.tally == plan.tally
                            &&& after.pending.len() == plan.pending.len() + 1
                            &&& after.pending.drop_last() == plan.pending
                            &&& after.pending.last().index == Some(entry.index as usize)
                            &&& after.pending.last().file_name == paths::shown_name(file.path)
                            &&& after.pending.last().request.name == texture.name
                            &&& after.pending.last().request.image.pixels == texture.pixels
                        }
                    }
                    &&& !known && found is None && text::all_ascii(texture.name) && texture.format
                        != UtxFormat::Unknown ==> {
                        &&& after.tally == plan.tally
                        &&& after.pending.len() == plan.pending.len() + 1
                        &&& after.pending.drop_last() == plan.pending
                        &&& after.pending.last().index is None
                        &&& after.pending.last().file_name == paths::shown_name(file.path)
                        &&& after.pending.last().request.name == texture.name
                        &&& after.pending.last().request.image.pixels == texture.pixels
                    }
                },
            }
        }),
{
    let after = batch::with_file(plan, index, group, total, file);
    if let Ok(texture) = file.result {
        let name = text::lower_text(texture.name);
        if exists|i: int|
            #![trigger plan.names[i]]
            0 <= i < plan.names.len() && plan.names[i] == name {
            assert(plan.names.contains(name));
        }
        if after.pending != plan.pending {
            assert(after.pending.drop_last() =~= plan.pending);
        }
    }
}

proof fn replaced_are_counted(t: TallyModel, total: int, names: Seq<Seq<char>>, n: nat)
    ensures
        ({
            let after = batch::with_applied(t, total, names, n);
            &&& after.replaced == t.replaced + n
            &&& after.added == t.added
            &&& after.skipped == t.skipped
            &&& after.failed == t.failed
        }),
    decreases n,
{
    if n > 0 {
        replaced_are_counted(t, total, names, (n - 1) as nat);
    }
}

proof fn failures_are_skipped(
    t: TallyModel,
    total: int,
    failures: Seq<crate::batch::FailureModel>,
    n: nat,
)
    ensures
        ({
            let after = batch::with_failures(t, total, failures, n);
            &&& after.replaced == t.replaced
            &&& after.added == t.added
            &&& after.skipped == t.skipped + n
            &&& after.failed == t.failed
        }),
    decreases n,
{
    if n > 0 {
        failures_are_skipped(t, total, failures, (n - 1) as nat);
    }
}

/// Replacements that were stored are counted as replaced, and those that could not be as
/// skipped.
pub proof fn replacements_are_counted_by_kind(
    data: Seq<u8>,
    total: int,
    t: TallyModel,
    pending: Seq<crate::batch::PendingModel>,
)
    ensures
        ({
            let (after, _) = batch::with_recovered(data, total, t, pending);
            let done = batch::recovered(data, batch::retries_in(pending));
            &&& after.replaced == t.replaced + done.applied.len()
            &&& after.skipped == t.skipped + done.failures.len()
            &&& after.added == t.added
            &&& after.failed == t.failed
        }),
{
    let started = batch::with_report(t, total, "Gravando texturas no motor UTX…"@);
    let done = batch::recovered(data, batch::retries_in(pending));
    replaced_are_counted(started, total, done.applied, done.applied.len());
    let applied = batch::with_applied(started, total, done.applied, done.applied.len());
    failures_are_skipped(applied, total, done.failures, done.failures.len());
}

/// How many of the first outcomes are new textures.
pub open spec fn new_among(outcomes: Seq<crate::texture_engine::TextureImportOutcome>, n: nat) -> int
    decreases n,
{
    if n == 0 {
        0
    } else {
        new_among(outcomes, (n - 1) as nat) + if outcomes[n - 1].added {
            1int
        } else {
            0
        }
    }
}

/// New textures are counted as added.
pub proof fn additions_are_counted_by_kind(
    t: TallyModel,
    total: int,
    additions: Seq<crate::batch::PendingModel>,
    outcomes: Seq<crate::texture_engine::TextureImportOutcome>,
    n: nat,
)
    ensures
        ({
            let after = batch::with_additions(t, total, additions, outcomes, n);
            &&& after.added == t.added + new_among(outcomes, n)
            &&& after.replaced == t.replaced + n - new_among(outcomes, n)
            &&& after.skipped == t.skipped
            &&& after.failed == t.failed
        }),
    decreases n,
{
    if n > 0 {
        additions_are_counted_by_kind(t, total, additions, outcomes, (n - 1) as nat);
    }
}

/// New textures that are refused are counted as skipped.
pub proof fn refused_textures_are_counted_by_kind(
    t: TallyModel,
    total: int,
    additions: Seq<crate::batch::PendingModel>,
    error: Seq<char>,
    n: nat,
)
    ensures
        ({
            let after = batch::with_refused(t, total, additions, error, n);
            &&& after.skipped == t.skipped + n
            &&& after.replaced == t.replaced
            &&& after.added == t.added
            &&& after.failed == t.failed
        }),
    decreases n,
{
    if n > 0 {
        refused_textures_are_counted_by_kind(t, total, additions, error, (n - 1) as nat);
    }
}

/// The summary of an import has the counts of its files, and a package in which nothing
/// was replaced or added stays as it was.
pub proof fn summaries_have_the_counts(
    p: PackageModel,
    template: Seq<u8>,
    package_name: Seq<char>,
    prepared: Seq<PreparedModel>,
)
    ensures
        ({
            let (run, after) = importing::import_run(p, template, package_name, prepared);
            &&& run.outcome is Err ==> after == p
            &&& run.outcome matches Ok(s) ==> {
                &&& s.replaced == 0 && s.added == 0 ==> after == p
                &&& prepared.len() > 0 ==> {
                    let (t, data) = batch::imported_files(
                        p,
                        template,
                        text::trimmed(package_name),
                        prepared,
                    );
                    &&& s.replaced == t.replaced
                    &&& s.added == t.added
                    &&& s.skipped == t.skipped
                    &&& s.failed == t.failed
                    &&& s.errors == t.errors
                    &&& s.replaced > 0 || s.added > 0 ==> data is Ok && package::package_of(
                        Dialect::Frontend,
                        data->Ok_0,
                    ) == Ok::<PackageModel, Seq<char>>(after)
                }
                &&& prepared.len() == 0 ==> s.replaced == 0 && s.added == 0 && s.skipped == 0
                    && s.failed == 0
            }
        }),
{
    if let Ok(group) = importing::import_target_of(package_name) {
        if prepared.len() > 0 {
            tallies_are_natural(p, template, group, prepared);
        }
    }
}

proof fn tallies_are_natural(
    p: PackageModel,
    template: Seq<u8>,
    group: Seq<char>,
    prepared: Seq<PreparedModel>,
)
    ensures
        ({
            let (t, _) = batch::imported_files(p, template, group, prepared);
            t.replaced >= 0 && t.added >= 0
        }),
{
    reveal(batch::imported_files);
    let total = prepared.len() as int;
    let start = batch::with_report(batch::no_tally(), total, "Preparando texturas…"@);
    if let Ok(index) = batch::import_index(p, p.exports.len()) {
        let n = prepared.len();
        plans_are_natural(start, index, group, prepared, n);
        let plan = batch::planned(start, index, group, prepared, n);
        if plan.pending.len() > 0 {
            replacements_are_counted_by_kind(p.data, total, plan.tally, plan.pending);
            let (tally, working) = batch::with_recovered(p.data, total, plan.tally, plan.pending);
            let additions = batch::additions_in(plan.pending);
            match texture_engine::added_to_file(
                working,
                template,
                group,
                batch::requests_in(additions),
            ) {
                Ok((_, outcomes)) => {
                    additions_are_counted_by_kind(tally, total, additions, outcomes, additions.len());
                    news_are_natural(outcomes, additions.len());
                },
                Err(error) => {
                    refused_textures_are_counted_by_kind(
                        tally,
                        total,
                        additions,
                        error,
                        additions.len(),
                    );
                },
            }
        }
    }
}

proof fn news_are_natural(outcomes: Seq<crate::texture_engine::TextureImportOutcome>, n: nat)
    ensures
        0 <= new_among(outcomes, n) <= n,
    decreases n,
{
    if n > 0 {
        news_are_natural(outcomes, (n - 1) as nat);
    }
}

proof fn plans_are_natural(
    start: TallyModel,
    index: Seq<IndexedModel>,
    group: Seq<char>,
    prepared: Seq<PreparedModel>,
    n: nat,
)
    ensures
        ({
            let t = batch::planned(start, index, group, prepared, n).tally;
            t.replaced == start.replaced && t.added == start.added
        }),
    decreases n,
{
    if n > 0 {
        plans_are_natural(start, index, group, prepared, (n - 1) as nat);
    }
}

/// The groups of a folder are added up: each count to the same count, and every file of a
/// group that could not be imported to the failures.
pub proof fn groups_are_added_up(
    d: DirectoryModel,
    group: Seq<char>,
    files: int,
    outcome: Result<SummaryModel, Seq<char>>,
)
    ensures
        ({
            let after = importing::with_group_outcome(d, group, files, outcome);
            &&& after.completed == d.completed + files
            &&& after.total == d.total
            &&& match outcome {
                Ok(more) => {
                    &&& after.summary.replaced == d.summary.replaced + more.replaced
                    &&& after.summary.added == d.summary.added + more.added
                    &&& after.summary.skipped == d.summary.skipped + more.skipped
                    &&& after.summary.failed == d.summary.failed + more.failed
                },
                Err(_) => {
                    &&& after.summary.replaced == d.summary.replaced
                    &&& after.summary.added == d.summary.added
                    &&& after.summary.skipped == d.summary.skipped
                    &&& after.summary.failed == d.summary.failed + files
                },
            }
        }),
{
}

/// A report of a group is one on the whole folder: its files come behind those that are
/// done, and its name stands in front.
pub proof fn group_reports_are_parts_of_the_whole(
    d: DirectoryModel,
    group: Seq<char>,
    files: int,
    run: crate::importing::RunModel,
    i: int,
)
    ensures
        ({
            let reports = importing::group_reports(d, group, files, run);
            let n = run.reports.len() as int;
            &&& 0 <= i < n ==> {
                &&& reports[i].completed == d.completed + run.reports[i].completed
                &&& reports[i].total == d.total
                &&& reports[i].file_name == run.reports[i].file_name
            }
            &&& run.outcome is Ok ==> reports.len() == n
            &&& run.outcome is Err ==> {
                &&& reports.len() == n + 1
                &&& reports.last().completed == d.completed + files
                &&& reports.last().total == d.total
            }
        }),
{
}

/// A replacement that was made is counted as imported. One that was not leaves the package
/// as it was, and is counted as failed if its file could not be read, and as skipped
/// otherwise.
pub proof fn attempts_are_counted_by_kind(
    d: Seq<u8>,
    prepared: Seq<crate::session::PreparedReplacementModel>,
    n: nat,
)
    requires
        n < prepared.len(),
        session::with_attempts(d, prepared, n).1.imported < usize::MAX,
        session::with_attempts(d, prepared, n).1.skipped < usize::MAX,
        session::with_attempts(d, prepared, n).1.failed < usize::MAX,
    ensures
        ({
            let (before, counts) = session::with_attempts(d, prepared, n);
            let (after, now) = session::with_attempts(d, prepared, n + 1);
            match session::attempted(before, prepared[n as int]) {
                Ok(data) => {
                    &&& after == data
                    &&& now.imported == counts.imported + 1
                    &&& now.skipped == counts.skipped
                    &&& now.failed == counts.failed
                },
                Err(error) => {
                    let unread = exists|i: int|
                        0 <= i && i + "Não foi possível ler"@.len() <= error.len()
                            && #[trigger] error.subrange(i, i + "Não foi possível ler"@.len())
                            == "Não foi possível ler"@;
                    &&& after == before
                    &&& now.imported == counts.imported
                    &&& now.failed == counts.failed + if unread {
                        1int
                    } else {
                        0
                    }
                    &&& now.skipped == counts.skipped + if unread {
                        0int
                    } else {
                        1
                    }
                },
            }
        }),
{
}

} // verus!
