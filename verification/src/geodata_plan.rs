//! Converting a tree of geodata files: which file is converted, copied or left
//! out, and how the conversion is summed up.

use vstd::prelude::*;
use crate::geodata::GeodataFormat;
use crate::batch;
use crate::geodata;
use crate::geodata_region;
use crate::paths;
use crate::text;

verus! {

/// How many failures a summary describes.
pub const MAX_REPORTED_ERRORS: usize = 30;

/// How far a conversion has come.
#[derive(Debug, Clone)]
pub struct GeodataProgress {
    pub completed: usize,
    pub total: usize,
    pub file_name: String,
}

/// How a conversion came out.
#[derive(Debug)]
pub struct GeodataSummary {
    pub output_directory: String,
    pub total_files: usize,
    pub converted_files: usize,
    pub copied_files: usize,
    pub skipped_files: usize,
    pub failed_files: usize,
    pub workers: usize,
    pub errors: Vec<String>,
}

/// The files counted so far.
#[derive(Debug)]
pub struct Totals {
    pub converted_files: usize,
    pub copied_files: usize,
    pub skipped_files: usize,
    pub failed_files: usize,
    pub errors: Vec<String>,
}

pub struct TotalsModel {
    pub converted: int,
    pub copied: int,
    pub skipped: int,
    pub failed: int,
    pub errors: Seq<Seq<char>>,
}

impl View for Totals {
    type V = TotalsModel;

    open spec fn view(&self) -> TotalsModel {
        TotalsModel {
            converted: self.converted_files as int,
            copied: self.copied_files as int,
            skipped: self.skipped_files as int,
            failed: self.failed_files as int,
            errors: batch::texts_of(self.errors@),
        }
    }
}

pub open spec fn no_totals() -> TotalsModel {
    TotalsModel { converted: 0, copied: 0, skipped: 0, failed: 0, errors: Seq::empty() }
}

/// Descriptions with one more, up to the limit.
pub open spec fn with_reported(errors: Seq<Seq<char>>, error: Seq<char>) -> Seq<Seq<char>> {
    if errors.len() < MAX_REPORTED_ERRORS {
        errors.push(error)
    } else {
        errors
    }
}

pub open spec fn with_skip(t: TotalsModel, error: Seq<char>) -> TotalsModel {
    TotalsModel { skipped: t.skipped + 1, errors: with_reported(t.errors, error), ..t }
}

pub open spec fn with_failure(t: TotalsModel, error: Seq<char>) -> TotalsModel {
    TotalsModel { failed: t.failed + 1, errors: with_reported(t.errors, error), ..t }
}

/// The totals after one planned file.
pub open spec fn with_result(
    t: TotalsModel,
    copy: bool,
    file_name: Seq<char>,
    result: Result<(), Seq<char>>,
) -> TotalsModel {
    match result {
        Ok(()) => if copy {
            TotalsModel { copied: t.copied + 1, ..t }
        } else {
            TotalsModel { converted: t.converted + 1, ..t }
        },
        Err(error) => with_failure(t, batch::described(file_name, error)),
    }
}

/// Adds a description, up to the limit.
pub fn push_error(errors: &mut Vec<String>, error: String)
    ensures
        batch::texts_of(final(errors)@) == with_reported(batch::texts_of(old(errors)@), error@),
{
    if errors.len() < MAX_REPORTED_ERRORS {
        let ghost before = errors@;
        let ghost model = error@;
        errors.push(error);
        assert(batch::texts_of(errors@) =~= batch::texts_of(before).push(model));
    }
}

impl Totals {
    pub fn empty() -> (r: Totals)
        ensures
            r@ == no_totals(),
    {
        let totals = Totals {
            converted_files: 0,
            copied_files: 0,
            skipped_files: 0,
            failed_files: 0,
            errors: Vec::new(),
        };
        assert(batch::texts_of(totals.errors@) =~= Seq::empty());
        totals
    }

    pub fn record_skip(&mut self, error: String)
        requires
            old(self).skipped_files < usize::MAX,
        ensures
            final(self)@ == with_skip(old(self)@, error@),
    {
        self.skipped_files += 1;
        push_error(&mut self.errors, error);
    }

    pub fn record_failure(&mut self, error: String)
        requires
            old(self).failed_files < usize::MAX,
        ensures
            final(self)@ == with_failure(old(self)@, error@),
    {
        self.failed_files += 1;
        push_error(&mut self.errors, error);
    }

    /// Counts a file that was planned.
    pub fn record_result(&mut self, copy: bool, file_name: &str, result: Result<(), String>)
        requires
            old(self).converted_files < usize::MAX,
            old(self).copied_files < usize::MAX,
            old(self).failed_files < usize::MAX,
        ensures
            final(self)@ == with_result(old(self)@, copy, file_name@, text::seen(result)),
    {
        match result {
            Ok(()) => {
                if copy {
                    self.copied_files += 1;
                } else {
                    self.converted_files += 1;
                }
            },
            Err(error) => {
                self.record_failure(text::join3(file_name, ": ", error.as_str()));
            },
        }
    }

    /// Sums a conversion up.
    pub fn summary(self, output_directory: &str, total_files: usize, workers: usize) -> (r:
        GeodataSummary)
        ensures
            r.output_directory@ == shown_path(output_directory@),
            r.total_files == total_files,
            r.converted_files == self.converted_files,
            r.copied_files == self.copied_files,
            r.skipped_files == self.skipped_files,
            r.failed_files == self.failed_files,
            r.workers == workers,
            r.errors@ == self.errors@,
    {
        GeodataSummary {
            output_directory: display_path(output_directory),
            total_files,
            converted_files: self.converted_files,
            copied_files: self.copied_files,
            skipped_files: self.skipped_files,
            failed_files: self.failed_files,
            workers,
            errors: self.errors,
        }
    }
}

/// A path without the prefix that marks long paths on Windows.
pub open spec fn shown_path(path: Seq<char>) -> Seq<char> {
    if text::starts_with(path, "\\\\?\\UNC\\"@) {
        "\\\\"@ + path.skip("\\\\?\\UNC\\"@.len() as int)
    } else if text::starts_with(path, "\\\\?\\"@) {
        path.skip("\\\\?\\"@.len() as int)
    } else {
        path
    }
}

pub fn display_path(path: &str) -> (r: String)
    ensures
        r@ == shown_path(path@),
{
    let chars = text::chars_of(path);
    match text::without_prefix(chars.as_slice(), "\\\\?\\UNC\\") {
        Some(rest) => text::join("\\\\", text::text_of(rest).as_str()),
        None => match text::without_prefix(chars.as_slice(), "\\\\?\\") {
            Some(rest) => text::text_of(rest),
            None => path.to_owned(),
        },
    }
}

/// The number of files converted at once: one processor stays free, and a
/// region takes too much memory for more than four.
pub open spec fn workers_for(processors: Option<usize>) -> usize {
    match processors {
        None => 1,
        Some(n) => if n <= 2 {
            1
        } else if n >= 5 {
            4
        } else {
            (n - 1) as usize
        },
    }
}

pub fn worker_count(processors: Option<usize>) -> (r: usize)
    ensures
        r == workers_for(processors),
        1 <= r <= 4,
{
    match processors {
        None => 1,
        Some(n) => if n <= 2 {
            1
        } else if n >= 5 {
            4
        } else {
            n - 1
        },
    }
}

/// The format that a file has by its name.
pub open spec fn geodata_format_in(path: Seq<char>) -> Option<GeodataFormat> {
    match paths::file_name_of(path) {
        None => None,
        Some(name) => if text::ends_with(text::lower_text(name), "_conv.dat"@) {
            Some(GeodataFormat::ConvDat)
        } else if text::ends_with(text::lower_text(name), "_path.txt"@) {
            Some(GeodataFormat::PathTxt)
        } else {
            match paths::path_extension_of(path) {
                None => None,
                Some(extension) => {
                    let e = text::lower_text(extension);
                    if e == "l2j"@ {
                        Some(GeodataFormat::L2j)
                    } else if e == "l2d"@ {
                        Some(GeodataFormat::L2d)
                    } else if e == "l2s"@ {
                        Some(GeodataFormat::L2s)
                    } else if e == "l2g"@ {
                        Some(GeodataFormat::L2g)
                    } else if e == "l2m"@ {
                        Some(GeodataFormat::L2m)
                    } else if e == "rp"@ {
                        Some(GeodataFormat::Rp)
                    } else {
                        None
                    }
                },
            }
        },
    }
}

pub fn detect_geodata_format(path: &str) -> (r: Option<GeodataFormat>)
    ensures
        r == geodata_format_in(path@),
{
    let name = match paths::file_name(path) {
        Some(name) => text::chars_of(text::lowered(name.as_str()).as_str()),
        None => return None,
    };
    if text::has_suffix(name.as_slice(), text::chars_of("_conv.dat").as_slice()) {
        return Some(GeodataFormat::ConvDat);
    }
    if text::has_suffix(name.as_slice(), text::chars_of("_path.txt").as_slice()) {
        return Some(GeodataFormat::PathTxt);
    }
    let extension = match paths::extension(path) {
        Some(extension) => text::lowered(extension.as_str()),
        None => return None,
    };
    let e = extension.as_str();
    if text::equal_text(e, "l2j") {
        Some(GeodataFormat::L2j)
    } else if text::equal_text(e, "l2d") {
        Some(GeodataFormat::L2d)
    } else if text::equal_text(e, "l2s") {
        Some(GeodataFormat::L2s)
    } else if text::equal_text(e, "l2g") {
        Some(GeodataFormat::L2g)
    } else if text::equal_text(e, "l2m") {
        Some(GeodataFormat::L2m)
    } else if text::equal_text(e, "rp") {
        Some(GeodataFormat::Rp)
    } else {
        None
    }
}

/// Refuses a format that regions cannot be written in.
pub fn validate_output_format(format: GeodataFormat) -> (r: Result<(), String>)
    ensures
        match r {
            Ok(()) => geodata::is_output_format(format),
            Err(message) => !geodata::is_output_format(format) && message@
                == "O formato de saída deve ser L2J, CONV_DAT ou L2G."@,
        },
{
    if !format.is_output_supported() {
        return Err("O formato de saída deve ser L2J, CONV_DAT ou L2G.".to_owned());
    }
    Ok(())
}

/// A file that was found. `relative` is its path below the input folder, or why
/// there is none. `header` is the start of a CONV_DAT file, or why it could not
/// be read.
#[derive(Debug)]
pub struct GeodataSource {
    pub path: String,
    pub relative: Result<String, String>,
    pub header: Result<Vec<u8>, String>,
}

pub struct SourceFile {
    pub path: Seq<char>,
    pub relative: Result<Seq<char>, Seq<char>>,
    pub header: Result<Seq<u8>, Seq<char>>,
}

impl View for GeodataSource {
    type V = SourceFile;

    open spec fn view(&self) -> SourceFile {
        SourceFile {
            path: self.path@,
            relative: match self.relative {
                Ok(relative) => Ok(relative@),
                Err(error) => Err(error@),
            },
            header: match self.header {
                Ok(header) => Ok(header@),
                Err(error) => Err(error@),
            },
        }
    }
}

/// A file to convert or to copy. `destination` is below the output folder.
#[derive(Debug)]
pub struct WorkItem {
    pub source: String,
    pub destination: String,
    pub source_format: GeodataFormat,
    pub copy: bool,
    pub file_name: String,
}

pub struct WorkModel {
    pub source: Seq<char>,
    pub destination: Seq<char>,
    pub source_format: GeodataFormat,
    pub copy: bool,
    pub file_name: Seq<char>,
}

impl View for WorkItem {
    type V = WorkModel;

    open spec fn view(&self) -> WorkModel {
        WorkModel {
            source: self.source@,
            destination: self.destination@,
            source_format: self.source_format,
            copy: self.copy,
            file_name: self.file_name@,
        }
    }
}

/// What becomes of a file.
pub enum SourceFate {
    Skipped(Seq<char>),
    Failed(Seq<char>),
    Planned(WorkModel),
}

/// The name of a file as it is shown.
pub open spec fn geodata_name(path: Seq<char>) -> Seq<char> {
    match paths::file_name_of(path) {
        Some(name) => name,
        None => "geodata"@,
    }
}

pub fn geodata_file_name(path: &str) -> (r: String)
    ensures
        r@ == geodata_name(path@),
{
    match paths::file_name(path) {
        Some(name) => name,
        None => "geodata".to_owned(),
    }
}

/// The coordinates of a file that was found.
pub open spec fn source_coordinates(source: SourceFile, format: GeodataFormat) -> Result<
    (i32, i32),
    Seq<char>,
> {
    if format == GeodataFormat::ConvDat {
        match source.header {
            Err(e) => Err(e),
            Ok(header) => geodata_region::file_coordinates(source.path, format, header),
        }
    } else {
        geodata_region::named_coordinates(source.path)
    }
}

pub open spec fn off_map_plan_text(x: i32, y: i32) -> Seq<char> {
    "coordenadas "@ + text::decimal(x as int) + "_"@ + (text::decimal(y as int)
        + " fora do intervalo 10..26."@)
}

/// The name of the file of a region.
pub open spec fn region_name(x: i32, y: i32, format: GeodataFormat) -> Seq<char> {
    text::decimal(x as int) + "_"@ + (text::decimal(y as int) + geodata::geodata_ending(format))
}

/// Where a file goes: a copy keeps its place, a converted region is named by
/// its coordinates in the same folder.
pub open spec fn destination_of(
    relative: Seq<char>,
    format: GeodataFormat,
    target: GeodataFormat,
    x: i32,
    y: i32,
) -> Seq<char> {
    if format == target {
        relative
    } else {
        paths::folder_of(relative) + region_name(x, y, target)
    }
}

/// What becomes of a file when the destinations in `taken` are given away.
pub open spec fn source_fate(
    source: SourceFile,
    target: GeodataFormat,
    taken: Seq<Seq<char>>,
) -> SourceFate {
    let name = geodata_name(source.path);
    match geodata_format_in(source.path) {
        None => SourceFate::Skipped(batch::described(name, "formato não reconhecido."@)),
        Some(format) => match source.relative {
            Err(e) => SourceFate::Failed(batch::described(name, "caminho de entrada inválido: "@ + e)),
            Ok(relative) => match source_coordinates(source, format) {
                Err(e) => SourceFate::Failed(batch::described(name, e)),
                Ok((x, y)) => if !geodata_region::on_map(x, y) {
                    SourceFate::Failed(batch::described(name, off_map_plan_text(x, y)))
                } else {
                    let destination = destination_of(relative, format, target, x, y);
                    if taken.contains(text::lower_text(destination)) {
                        SourceFate::Skipped(
                            batch::described(
                                name,
                                "outra entrada deste lote já usa o mesmo destino; mantido o primeiro resultado."@,
                            ),
                        )
                    } else {
                        SourceFate::Planned(
                            WorkModel {
                                source: source.path,
                                destination,
                                source_format: format,
                                copy: format == target,
                                file_name: name,
                            },
                        )
                    }
                },
            },
        },
    }
}

/// What is settled before any file is written.
pub struct PlanModel {
    pub totals: TotalsModel,
    pub work: Seq<WorkModel>,
    pub taken: Seq<Seq<char>>,
    pub reports: Seq<Seq<char>>,
}

pub open spec fn no_plan() -> PlanModel {
    PlanModel {
        totals: no_totals(),
        work: Seq::empty(),
        taken: Seq::empty(),
        reports: Seq::empty(),
    }
}

pub open spec fn with_source_file(plan: PlanModel, source: SourceFile, target: GeodataFormat) -> PlanModel {
    match source_fate(source, target, plan.taken) {
        SourceFate::Skipped(error) => PlanModel {
            totals: with_skip(plan.totals, error),
            reports: plan.reports.push(geodata_name(source.path)),
            ..plan
        },
        SourceFate::Failed(error) => PlanModel {
            totals: with_failure(plan.totals, error),
            reports: plan.reports.push(geodata_name(source.path)),
            ..plan
        },
        SourceFate::Planned(item) => PlanModel {
            work: plan.work.push(item),
            taken: plan.taken.push(text::lower_text(item.destination)),
            ..plan
        },
    }
}

/// The plan for the first `n` files.
pub open spec fn plan_of(sources: Seq<SourceFile>, target: GeodataFormat, n: nat) -> PlanModel
    decreases n,
{
    if n == 0 {
        no_plan()
    } else {
        with_source_file(plan_of(sources, target, (n - 1) as nat), sources[n - 1], target)
    }
}

/// The plan of a conversion. The files that are settled are reported as
/// completed, in order.
#[derive(Debug)]
pub struct GeodataPlan {
    pub totals: Totals,
    pub work: Vec<WorkItem>,
    pub taken: Vec<String>,
    pub reports: Vec<String>,
}

pub open spec fn works_of(work: Seq<WorkItem>) -> Seq<WorkModel> {
    Seq::new(work.len(), |i: int| work[i]@)
}

pub open spec fn sources_seen(sources: Seq<GeodataSource>) -> Seq<SourceFile> {
    Seq::new(sources.len(), |i: int| sources[i]@)
}

impl View for GeodataPlan {
    type V = PlanModel;

    open spec fn view(&self) -> PlanModel {
        PlanModel {
            totals: self.totals@,
            work: works_of(self.work@),
            taken: batch::texts_of(self.taken@),
            reports: batch::texts_of(self.reports@),
        }
    }
}

fn is_taken(taken: &Vec<String>, destination: &str) -> (r: bool)
    ensures
        r == batch::texts_of(taken@).contains(destination@),
{
    let mut index: usize = 0;
    while index < taken.len()
        invariant
            index <= taken@.len(),
            forall|i: int| 0 <= i < index ==> #[trigger] batch::texts_of(taken@)[i] != destination@,
        decreases taken.len() - index,
    {
        assert(batch::texts_of(taken@)[index as int] == taken@[index as int]@);
        if text::equal_text(taken[index].as_str(), destination) {
            return true;
        }
        index += 1;
    }
    false
}

fn off_map_plan_message(x: i32, y: i32) -> (r: String)
    ensures
        r@ == off_map_plan_text(x, y),
{
    text::join(
        text::join3("coordenadas ", text::decimal_text(x as i64).as_str(), "_").as_str(),
        text::join(text::decimal_text(y as i64).as_str(), " fora do intervalo 10..26.").as_str(),
    )
}

/// What becomes of a file.
#[derive(Debug)]
pub enum PlannedSource {
    Skipped(String),
    Failed(String),
    Planned(WorkItem),
}

impl View for PlannedSource {
    type V = SourceFate;

    open spec fn view(&self) -> SourceFate {
        match self {
            PlannedSource::Skipped(error) => SourceFate::Skipped(error@),
            PlannedSource::Failed(error) => SourceFate::Failed(error@),
            PlannedSource::Planned(item) => SourceFate::Planned(item@),
        }
    }
}

/// The place of a converted region below the output folder.
pub fn destination_for(
    relative: &str,
    format: GeodataFormat,
    target: GeodataFormat,
    x: i32,
    y: i32,
) -> (r: String)
    ensures
        r@ == destination_of(relative@, format, target, x, y),
{
    if format == target {
        relative.to_owned()
    } else {
        text::join(
            paths::folder(relative).as_str(),
            text::join3(
                text::decimal_text(x as i64).as_str(),
                "_",
                text::join(text::decimal_text(y as i64).as_str(), target.extension()).as_str(),
            ).as_str(),
        )
    }
}

fn coordinates_of_source(source: &GeodataSource, format: GeodataFormat) -> (r: Result<
    (i32, i32),
    String,
>)
    ensures
        text::seen(r) == source_coordinates(source@, format),
{
    if matches!(format, GeodataFormat::ConvDat) {
        match &source.header {
            Ok(header) => geodata_region::coordinates_for_file(source.path.as_str(), format, header.as_slice()),
            Err(error) => Err(error.as_str().to_owned()),
        }
    } else {
        geodata_region::coordinates_from_name(source.path.as_str())
    }
}

/// Decides what becomes of a file.
pub fn plan_source(source: &GeodataSource, target: GeodataFormat, taken: &Vec<String>) -> (r:
    PlannedSource)
    ensures
        r@ == source_fate(source@, target, batch::texts_of(taken@)),
{
    let name = geodata_file_name(source.path.as_str());
    let format: GeodataFormat = match detect_geodata_format(source.path.as_str()) {
        Some(format) => format,
        None => {
            return PlannedSource::Skipped(
                text::join3(name.as_str(), ": ", "formato não reconhecido."),
            );
        },
    };
    let relative: &String = match &source.relative {
        Ok(relative) => relative,
        Err(error) => {
            return PlannedSource::Failed(
                text::join3(
                    name.as_str(),
                    ": ",
                    text::join("caminho de entrada inválido: ", error.as_str()).as_str(),
                ),
            );
        },
    };
    let (x, y): (i32, i32) = match coordinates_of_source(source, format) {
        Ok(found) => found,
        Err(error) => {
            return PlannedSource::Failed(text::join3(name.as_str(), ": ", error.as_str()));
        },
    };
    if !geodata_region::valid_coordinates(x, y) {
        return PlannedSource::Failed(
            text::join3(name.as_str(), ": ", off_map_plan_message(x, y).as_str()),
        );
    }
    let destination = destination_for(relative.as_str(), format, target, x, y);
    if is_taken(taken, text::lowered(destination.as_str()).as_str()) {
        return PlannedSource::Skipped(
            text::join3(
                name.as_str(),
                ": ",
                "outra entrada deste lote já usa o mesmo destino; mantido o primeiro resultado.",
            ),
        );
    }
    PlannedSource::Planned(
        WorkItem {
            source: source.path.as_str().to_owned(),
            destination,
            source_format: format,
            copy: format == target,
            file_name: name,
        },
    )
}

/// Plans the conversion of the files that were found, in their order.
pub fn plan_conversion(sources: &Vec<GeodataSource>, target: GeodataFormat) -> (r: Result<
    GeodataPlan,
    String,
>)
    ensures
        match r {
            Ok(plan) => sources@.len() > 0 && plan@ == plan_of(
                sources_seen(sources@),
                target,
                sources@.len(),
            ),
            Err(message) => sources@.len() == 0 && message@
                == "Nenhum arquivo geodata suportado foi encontrado na pasta de entrada."@,
        },
{
    if sources.len() == 0 {
        return Err(
            "Nenhum arquivo geodata suportado foi encontrado na pasta de entrada.".to_owned(),
        );
    }
    let ghost model = sources_seen(sources@);
    let mut totals = Totals::empty();
    let mut work: Vec<WorkItem> = Vec::new();
    let mut taken: Vec<String> = Vec::new();
    let mut reports: Vec<String> = Vec::new();
    let mut index: usize = 0;
    proof {
        assert(works_of(work@) =~= Seq::empty());
        assert(batch::texts_of(taken@) =~= Seq::empty());
        assert(batch::texts_of(reports@) =~= Seq::empty());
    }
    while index < sources.len()
        invariant
            index <= sources@.len(),
            model == sources_seen(sources@),
            totals.skipped_files + totals.failed_files <= index,
            (PlanModel {
                totals: totals@,
                work: works_of(work@),
                taken: batch::texts_of(taken@),
                reports: batch::texts_of(reports@),
            }) == plan_of(model, target, index as nat),
        decreases sources.len() - index,
    {
        let source: &GeodataSource = &sources[index];
        assert(model[index as int] == source@);
        let ghost works_before = work@;
        let ghost taken_before = taken@;
        let ghost reports_before = reports@;
        match plan_source(source, target, &taken) {
            PlannedSource::Skipped(error) => {
                totals.record_skip(error);
                reports.push(geodata_file_name(source.path.as_str()));
                assert(batch::texts_of(reports@) =~= batch::texts_of(reports_before).push(
                    geodata_name(source.path@),
                ));
            },
            PlannedSource::Failed(error) => {
                totals.record_failure(error);
                reports.push(geodata_file_name(source.path.as_str()));
                assert(batch::texts_of(reports@) =~= batch::texts_of(reports_before).push(
                    geodata_name(source.path@),
                ));
            },
            PlannedSource::Planned(item) => {
                let ghost one = item@;
                taken.push(text::lowered(item.destination.as_str()));
                assert(batch::texts_of(taken@) =~= batch::texts_of(taken_before).push(
                    text::lower_text(one.destination),
                ));
                work.push(item);
                assert(works_of(work@) =~= works_of(works_before).push(one));
            },
        }
        index += 1;
    }
    Ok(GeodataPlan { totals, work, taken, reports })
}

/// Every file is skipped, fails or is planned, and only the planned ones are
/// not yet reported. At most thirty failures are described.
pub proof fn every_source_is_settled(sources: Seq<SourceFile>, target: GeodataFormat, n: nat)
    requires
        n <= sources.len(),
    ensures
        ({
            let plan = plan_of(sources, target, n);
            &&& plan.totals.skipped + plan.totals.failed + plan.work.len() == n
            &&& plan.reports.len() == plan.totals.skipped + plan.totals.failed
            &&& plan.totals.converted == 0 && plan.totals.copied == 0
            &&& plan.totals.errors.len() <= MAX_REPORTED_ERRORS
            &&& plan.taken.len() == plan.work.len()
        }),
    decreases n,
{
    if n > 0 {
        every_source_is_settled(sources, target, (n - 1) as nat);
    }
}

/// No two planned files go to one place, whatever the case of their names: the
/// first one keeps it.
pub proof fn destinations_differ(sources: Seq<SourceFile>, target: GeodataFormat, n: nat)
    requires
        n <= sources.len(),
    ensures
        ({
            let plan = plan_of(sources, target, n);
            &&& plan.taken == Seq::new(
                plan.work.len(),
                |i: int| text::lower_text(plan.work[i].destination),
            )
            &&& forall|i: int, j: int|
                0 <= i < j < plan.work.len() ==> !text::same_folded(
                    (#[trigger] plan.work[i]).destination,
                    (#[trigger] plan.work[j]).destination,
                )
        }),
    decreases n,
{
    let plan = plan_of(sources, target, n);
    if n > 0 {
        let before = plan_of(sources, target, (n - 1) as nat);
        destinations_differ(sources, target, (n - 1) as nat);
        if let SourceFate::Planned(item) = source_fate(sources[n - 1], target, before.taken) {
            assert forall|i: int, j: int| 0 <= i < j < plan.work.len() implies !text::same_folded(
                (#[trigger] plan.work[i]).destination,
                (#[trigger] plan.work[j]).destination,
            ) by {
                if j == plan.work.len() - 1 {
                    assert(before.taken[i] == text::lower_text(before.work[i].destination));
                    assert(before.taken.contains(before.taken[i]));
                } else {
                    assert(plan.work[i] == before.work[i] && plan.work[j] == before.work[j]);
                }
            }
        }
    }
    assert(plan.taken =~= Seq::new(
        plan.work.len(),
        |i: int| text::lower_text(plan.work[i].destination),
    ));
}

/// A file already in the wanted format is copied to the same place.
pub proof fn copies_keep_their_place(
    source: SourceFile,
    target: GeodataFormat,
    taken: Seq<Seq<char>>,
)
    ensures
        source_fate(source, target, taken) matches SourceFate::Planned(item) ==> item.copy == (
        geodata_format_in(source.path) == Some(target)) && (item.copy ==> source.relative == Ok::<
            Seq<char>,
            Seq<char>,
        >(item.destination)),
{
}

} // verus!
