//! Exporting textures to files: where they go, what they hold, and what is
//! counted and reported.

use vstd::prelude::*;
use crate::batch::TextureImportProgress;
use crate::formats::UtxFormat;
use crate::listing::{EntryModel, UtxEntry};
use crate::package::{Package, PackageModel};
use crate::reader::Dialect;
use crate::batch;
use crate::formats;
use crate::images;
use crate::listing;
use crate::metadata_laws;
use crate::paths;
use crate::preview;
use crate::sorting;
use crate::tables;
use crate::text;

verus! {

/// How many failures of an extraction are described.
pub const MAX_UTX_EXTRACT_ERRORS: usize = 20;

/// After how many more files an import is reported on.
pub const IMPORT_PROGRESS_STEP: usize = 32;

/// After how many milliseconds an import is reported on.
pub const IMPORT_PROGRESS_MILLIS: u64 = 75;

/// Whether a report on an import is shown. The first and the last are, those
/// without a file, and others once enough files or enough time have passed since
/// the last that was shown.
pub open spec fn is_due(completed: int, total: int, has_file: bool, last: int, millis: int) -> bool {
    completed == 0 || completed >= total || !has_file || completed - last >= IMPORT_PROGRESS_STEP
        || millis >= IMPORT_PROGRESS_MILLIS
}

pub fn should_report(progress: &TextureImportProgress, last_completed: usize, millis: u64) -> (r: bool)
    ensures
        r == is_due(
            progress@.completed,
            progress@.total,
            progress@.file_name.len() > 0,
            last_completed as int,
            millis as int,
        ),
{
    let name = text::chars_of(progress.file_name.as_str());
    progress.completed == 0 || progress.completed >= progress.total || name.len() == 0 || (
    progress.completed >= last_completed && progress.completed - last_completed
        >= IMPORT_PROGRESS_STEP) || millis >= IMPORT_PROGRESS_MILLIS
}

/// How many textures were exported.
#[derive(Debug, Clone, Copy, PartialEq, Eq, Structural)]
pub struct ExportSummary {
    pub exported: usize,
    pub failed: usize,
}

impl ExportSummary {
    /// Counts one more texture.
    pub fn count(self, ok: bool) -> (r: Self)
        requires
            self.exported + self.failed < usize::MAX,
        ensures
            r == (if ok {
                ExportSummary { exported: (self.exported + 1) as usize, ..self }
            } else {
                ExportSummary { failed: (self.failed + 1) as usize, ..self }
            }),
    {
        if ok {
            ExportSummary { exported: self.exported + 1, failed: self.failed }
        } else {
            ExportSummary { exported: self.exported, failed: self.failed + 1 }
        }
    }
}

/// How far an export is.
#[derive(Debug, Clone)]
pub struct ExportProgress {
    pub completed: usize,
    pub total: usize,
    pub file_name: String,
}

/// Output representation selected by the standalone UTX extractor.
#[derive(Debug, Clone, Copy, PartialEq, Eq, Structural)]
pub enum UtxExtractMode {
    Original,
    Png,
}

/// How far an extraction is.
#[derive(Debug, Clone)]
pub struct UtxExtractProgress {
    pub completed: usize,
    pub total: usize,
    pub package_name: String,
    pub file_name: String,
}

/// The file that a texture is exported to, and the folder of its group.
#[derive(Debug)]
pub struct ExportTarget {
    pub folder: Option<String>,
    pub file_name: String,
}

/// The file name of an exported texture.
pub open spec fn target_name(name: Seq<char>, file_extension: Seq<char>) -> Seq<char> {
    paths::export_name(name) + "."@ + file_extension
}

pub fn export_target(name: &str, file_extension: &str) -> (r: ExportTarget)
    ensures
        paths::part_result(r.folder, tables::group_of(Dialect::Frontend, name@)),
        r.file_name@ == target_name(name@, file_extension@),
{
    ExportTarget {
        folder: tables::texture_group(Dialect::Frontend, name),
        file_name: text::join3(paths::file_name_for_export(name).as_str(), ".", file_extension),
    }
}

/// The name under which the export of a texture is reported: that of its file,
/// or its number where it cannot be read.
pub open spec fn export_label_of(p: PackageModel, index: int) -> Seq<char> {
    match listing::entry_of(p, index) {
        Ok(entry) => paths::export_name(entry.name),
        Err(_) => "Textura #"@ + text::decimal(index + 1),
    }
}

pub fn export_label(package: &Package, export_index: usize) -> (r: String)
    requires
        export_index < usize::MAX,
    ensures
        r@ == export_label_of(package@, export_index as int),
{
    match package.entry_to_model(export_index) {
        Ok(entry) => paths::file_name_for_export(entry.name.as_str()),
        Err(_) => text::join("Textura #", text::size_text(export_index + 1).as_str()),
    }
}

/// The entry and the file of a texture that is to be exported to a path.
pub open spec fn exported_to(p: PackageModel, index: int, path: Seq<char>) -> Result<
    (EntryModel, Seq<u8>),
    Seq<char>,
> {
    match listing::entry_of(p, index) {
        Err(e) => Err(e),
        Ok(entry) => if !paths::export_path_fits(path, entry.format) {
            Err("Esta textura deve ser exportada como ."@ + formats::extension_of(entry.format) + "."@)
        } else {
            match listing::exported_file(p, entry) {
                Err(e) => Err(e),
                Ok(file) => Ok((entry, file)),
            }
        },
    }
}

/// The entry and the file of a texture that is to be exported to a path.
pub fn export_entry(package: &Package, export_index: usize, output_path: &str) -> (r: Result<
    (UtxEntry, Vec<u8>),
    String,
>)
    ensures
        match r {
            Ok((entry, file)) => exported_to(package@, export_index as int, output_path@) == Ok::<
                (EntryModel, Seq<u8>),
                Seq<char>,
            >((entry@, file@)),
            Err(message) => exported_to(package@, export_index as int, output_path@) == Err::<
                (EntryModel, Seq<u8>),
                Seq<char>,
            >(message@),
        },
{
    let entry = package.entry_to_model(export_index)?;
    paths::validate_export_extension(output_path, entry.format)?;
    let file = package.export_bytes(&entry)?;
    Ok((entry, file))
}

/// The extension of an extracted texture.
pub open spec fn extract_extension_of(mode: UtxExtractMode, format: UtxFormat) -> Seq<char> {
    match mode {
        UtxExtractMode::Original => formats::extension_of(format),
        UtxExtractMode::Png => "png"@,
    }
}

pub fn extract_extension(mode: UtxExtractMode, format: UtxFormat) -> (r: &'static str)
    ensures
        r@ == extract_extension_of(mode, format),
{
    match mode {
        UtxExtractMode::Original => format.export_extension(),
        UtxExtractMode::Png => "png",
    }
}

/// The file of an extracted texture.
pub open spec fn extracted_file(p: PackageModel, entry: EntryModel, mode: UtxExtractMode) -> Result<
    Seq<u8>,
    Seq<char>,
> {
    match mode {
        UtxExtractMode::Original => listing::exported_file(p, entry),
        UtxExtractMode::Png => if !formats::previewable(entry.format) {
            Err(
                "O formato "@ + formats::label_of(entry.format) + " ainda não pode ser convertido para PNG."@,
            )
        } else {
            match listing::pixels_of(p, entry.index) {
                Err(e) => Err(e),
                Ok(pixels) => preview::png_of(pixels, entry.width, entry.height, entry.format),
            }
        },
    }
}

pub fn extract_entry(package: &Package, entry: &UtxEntry, mode: UtxExtractMode) -> (r: Result<
    Vec<u8>,
    String,
>)
    ensures
        images::bytes_result(r, extracted_file(package@, entry@, mode)),
{
    match mode {
        UtxExtractMode::Original => package.export_bytes(entry),
        UtxExtractMode::Png => {
            if !entry.format.is_previewable() {
                return Err(
                    text::join3(
                        "O formato ",
                        entry.format.label(),
                        " ainda não pode ser convertido para PNG.",
                    ),
                );
            }
            let pixels = package.mip0_pixels(entry.export_index)?;
            preview::encode_png(pixels.as_slice(), entry.width, entry.height, entry.format)
        },
    }
}

/// A package file to extract, the name it is reported by and the folder that
/// its textures go to.
#[derive(Debug)]
pub struct PackageSource {
    pub path: String,
    pub display_name: String,
    pub directory: String,
}

pub struct SourceModel {
    pub path: Seq<char>,
    pub display_name: Seq<char>,
    pub base: Seq<char>,
    pub directory: Seq<char>,
}

/// The name by which a package file is reported.
pub open spec fn package_label(path: Seq<char>) -> Seq<char> {
    match paths::file_name_of(path) {
        Some(name) => name,
        None => "Pacote UTX"@,
    }
}

pub open spec fn has_source(sources: Seq<SourceModel>, path: Seq<char>) -> bool {
    exists|i: int| 0 <= i < sources.len() && (#[trigger] sources[i]).path == path
}

/// Whether a package goes to this folder already, without regard to case.
pub open spec fn is_taken(sources: Seq<SourceModel>, directory: Seq<char>) -> bool {
    exists|i: int|
        0 <= i < sources.len() && text::same_folded((#[trigger] sources[i]).directory, directory)
}

/// A folder for a package: its name, with a number behind it from the second on.
pub open spec fn numbered(base: Seq<char>, count: int) -> Seq<char> {
    if count == 1 {
        base
    } else {
        base + " ("@ + text::decimal(count) + ")"@
    }
}

/// Whether this is the first number whose folder no package goes to.
pub open spec fn is_first_free(sources: Seq<SourceModel>, base: Seq<char>, count: int) -> bool {
    &&& count >= 1
    &&& !is_taken(sources, numbered(base, count))
    &&& forall|m: int| 1 <= m < count ==> is_taken(sources, #[trigger] numbered(base, m))
}

/// The folder that the next package of this name goes to.
pub open spec fn free_folder(sources: Seq<SourceModel>, base: Seq<char>) -> Seq<char> {
    numbered(base, choose|count: int| is_first_free(sources, base, count))
}

/// The packages with one more, unless it is listed already.
pub open spec fn with_source(sources: Seq<SourceModel>, path: Seq<char>) -> Result<
    Seq<SourceModel>,
    Seq<char>,
> {
    if has_source(sources, path) {
        Ok(sources)
    } else {
        match paths::stem_of(path) {
            None => Err(package_label(path) + ": o nome do arquivo UTX não é válido."@),
            Some(base) => if base.len() == 0 {
                Err(package_label(path) + ": o nome do arquivo UTX não é válido."@)
            } else {
                Ok(
                    sources.push(
                        SourceModel {
                            path,
                            display_name: package_label(path),
                            base,
                            directory: free_folder(sources, base),
                        },
                    ),
                )
            },
        }
    }
}

/// The packages among the first `n` paths.
pub open spec fn sources_of(paths: Seq<Seq<char>>, n: nat) -> Result<Seq<SourceModel>, Seq<char>>
    decreases n,
{
    if n == 0 {
        Ok(Seq::empty())
    } else {
        match sources_of(paths, (n - 1) as nat) {
            Err(e) => Err(e),
            Ok(sources) => with_source(sources, paths[n - 1]),
        }
    }
}

/// The packages to extract.
pub open spec fn package_sources(paths: Seq<Seq<char>>) -> Result<Seq<SourceModel>, Seq<char>> {
    if paths.len() == 0 {
        Err("Selecione ao menos um arquivo UTX para extrair."@)
    } else {
        sources_of(paths, paths.len())
    }
}

proof fn sources_error_spreads(paths: Seq<Seq<char>>, k: nat, n: nat)
    requires
        k <= n,
        sources_of(paths, k) is Err,
    ensures
        sources_of(paths, n) == sources_of(paths, k),
    decreases n,
{
    if k < n {
        sources_error_spreads(paths, k, (n - 1) as nat);
    }
}

/// Packages that are handed to callers.
pub open spec fn source_result(
    r: Result<Vec<PackageSource>, String>,
    model: Result<Seq<SourceModel>, Seq<char>>,
) -> bool {
    match r {
        Ok(sources) => {
            &&& model matches Ok(models)
            &&& models.len() == sources@.len()
            &&& forall|i: int|
                0 <= i < models.len() ==> {
                    let one = #[trigger] sources@[i];
                    &&& one.path@ == models[i].path
                    &&& one.display_name@ == models[i].display_name
                    &&& one.directory@ == models[i].directory
                }
        },
        Err(message) => model == Err::<Seq<SourceModel>, Seq<char>>(message@),
    }
}

struct FullSource {
    source: PackageSource,
    base: String,
}

impl FullSource {
    spec fn model(&self) -> SourceModel {
        SourceModel {
            path: self.source.path@,
            display_name: self.source.display_name@,
            base: self.base@,
            directory: self.source.directory@,
        }
    }
}

spec fn full_models(sources: Seq<FullSource>) -> Seq<SourceModel> {
    Seq::new(sources.len(), |i: int| sources[i].model())
}

fn is_listed(sources: &Vec<FullSource>, path: &str) -> (r: bool)
    ensures
        r == has_source(full_models(sources@), path@),
{
    let mut i: usize = 0;
    while i < sources.len()
        invariant
            i <= sources@.len(),
            forall|k: int|
                0 <= k < i ==> (#[trigger] full_models(sources@)[k]).path != path@,
        decreases sources.len() - i,
    {
        if text::equal_text(sources[i].source.path.as_str(), path) {
            assert(full_models(sources@)[i as int].path == path@);
            return true;
        }
        assert(full_models(sources@)[i as int].path != path@);
        i = i + 1;
    }
    false
}

/// Whether a package goes to this folder already.
fn has_folder(sources: &Vec<FullSource>, directory: &str) -> (r: bool)
    ensures
        r == is_taken(full_models(sources@), directory@),
{
    let mut i: usize = 0;
    while i < sources.len()
        invariant
            i <= sources@.len(),
            forall|k: int|
                0 <= k < i ==> !text::same_folded(
                    (#[trigger] full_models(sources@)[k]).directory,
                    directory@,
                ),
        decreases sources.len() - i,
    {
        assert(full_models(sources@)[i as int].directory == sources@[i as int].source.directory@);
        if text::equals_folded(sources[i].source.directory.as_str(), directory) {
            return true;
        }
        i = i + 1;
    }
    false
}

/// Whether the folders of all these numbers are taken.
spec fn are_taken(sources: Seq<SourceModel>, base: Seq<char>, numbers: Set<int>) -> bool {
    forall|m: int| #[trigger]
        numbers.contains(m) ==> m >= 1 && is_taken(sources, numbered(base, m))
}

/// Of as many numbers as there are packages and one more, one is free.
proof fn some_number_is_free(sources: Seq<SourceModel>, base: Seq<char>, numbers: Set<int>)
    requires
        numbers.finite(),
        are_taken(sources, base, numbers),
    ensures
        numbers.len() <= sources.len(),
    decreases sources.len(),
{
    if sources.len() == 0 {
        assert forall|m: int| !numbers.contains(m) by {
            if numbers.contains(m) {
                assert(is_taken(sources, numbered(base, m)));
            }
        }
        assert(numbers =~= Set::<int>::empty());
    } else {
        let fewer = sources.drop_last();
        let last = sources.last().directory;
        if exists|m: int| #[trigger]
            numbers.contains(m) && text::same_folded(last, numbered(base, m)) {
            let m = choose|m: int| #[trigger]
                numbers.contains(m) && text::same_folded(last, numbered(base, m));
            let rest = numbers.remove(m);
            assert forall|k: int| #[trigger] rest.contains(k) implies k >= 1 && is_taken(
                fewer,
                numbered(base, k),
            ) by {
                assert(numbers.contains(k));
                assert(is_taken(sources, numbered(base, k)));
                let i = choose|i: int|
                    0 <= i < sources.len() && text::same_folded(
                        (#[trigger] sources[i]).directory,
                        numbered(base, k),
                    );
                if k < m {
                    numbers_tell_apart(base, base, k as nat, m as nat);
                } else {
                    numbers_tell_apart(base, base, m as nat, k as nat);
                }
                assert(fewer[i] == sources[i]);
            }
            some_number_is_free(fewer, base, rest);
        } else {
            assert forall|k: int| #[trigger] numbers.contains(k) implies k >= 1 && is_taken(
                fewer,
                numbered(base, k),
            ) by {
                assert(is_taken(sources, numbered(base, k)));
                let i = choose|i: int|
                    0 <= i < sources.len() && text::same_folded(
                        (#[trigger] sources[i]).directory,
                        numbered(base, k),
                    );
                assert(fewer[i] == sources[i]);
            }
            some_number_is_free(fewer, base, numbers);
        }
    }
}

/// The numbers from 1 to `n` are `n`.
proof fn first_numbers(n: int)
    requires
        n >= 0,
    ensures
        vstd::set_lib::set_int_range(1, n + 1).finite(),
        vstd::set_lib::set_int_range(1, n + 1).len() == n,
{
    vstd::set_lib::lemma_int_range(1, n + 1);
}

/// There is only one first number.
proof fn first_number_is_unique(sources: Seq<SourceModel>, base: Seq<char>, a: int, b: int)
    requires
        is_first_free(sources, base, a),
        is_first_free(sources, base, b),
    ensures
        a == b,
{
    if a < b {
        assert(is_taken(sources, numbered(base, a)));
    } else if b < a {
        assert(is_taken(sources, numbered(base, b)));
    }
}

/// The folder that the next package of this name goes to.
fn next_folder(sources: &Vec<FullSource>, base: &str) -> (r: String)
    requires
        sources@.len() < usize::MAX,
    ensures
        r@ == free_folder(full_models(sources@), base@),
{
    let ghost models = full_models(sources@);
    let mut earlier: usize = 0;
    let mut folder = directory_name(base, 0);
    while has_folder(sources, folder.as_str())
        invariant
            sources@.len() < usize::MAX,
            models == full_models(sources@),
            models.len() == sources@.len(),
            earlier <= sources@.len(),
            folder@ == numbered(base@, earlier + 1),
            forall|m: int| 1 <= m <= earlier ==> is_taken(models, #[trigger] numbered(base@, m)),
        decreases sources@.len() - earlier,
    {
        proof {
            assert(is_taken(models, numbered(base@, earlier + 1)));
            first_numbers(earlier + 1);
            some_number_is_free(models, base@, vstd::set_lib::set_int_range(1, earlier + 2));
        }
        earlier = earlier + 1;
        folder = directory_name(base, earlier);
    }
    proof {
        let count = earlier + 1;
        assert(is_first_free(models, base@, count));
        first_number_is_unique(
            models,
            base@,
            count,
            choose|count: int| is_first_free(models, base@, count),
        );
    }
    folder
}

/// The folder for a package.
fn directory_name(base: &str, earlier: usize) -> (r: String)
    requires
        earlier < usize::MAX,
    ensures
        r@ == numbered(base@, earlier + 1),
{
    if earlier == 0 {
        base.to_owned()
    } else {
        proof {
            let digits = text::decimal(earlier + 1);
            assert(base@ + " ("@ + (digits + ")"@) =~= base@ + " ("@ + digits + ")"@);
        }
        text::join3(base, " (", text::join(text::size_text(earlier + 1).as_str(), ")").as_str())
    }
}

fn add_source(sources: &mut Vec<FullSource>, path: &str) -> (r: Result<(), String>)
    requires
        old(sources)@.len() < usize::MAX,
    ensures
        match r {
            Ok(()) => with_source(full_models(old(sources)@), path@) == Ok::<
                Seq<SourceModel>,
                Seq<char>,
            >(full_models(final(sources)@)),
            Err(message) => with_source(full_models(old(sources)@), path@) == Err::<
                Seq<SourceModel>,
                Seq<char>,
            >(message@),
        },
        final(sources)@.len() <= old(sources)@.len() + 1,
{
    if is_listed(sources, path) {
        return Ok(());
    }
    let display_name = match paths::file_name(path) {
        Some(name) => name,
        None => "Pacote UTX".to_owned(),
    };
    let base = match paths::file_stem(path) {
        Some(base) => base,
        None => return Err(
            text::join(display_name.as_str(), ": o nome do arquivo UTX não é válido."),
        ),
    };
    let chars = text::chars_of(base.as_str());
    if chars.len() == 0 {
        return Err(text::join(display_name.as_str(), ": o nome do arquivo UTX não é válido."));
    }
    let directory = next_folder(sources, base.as_str());
    let ghost before = full_models(sources@);
    let one = FullSource {
        source: PackageSource { path: path.to_owned(), display_name, directory },
        base,
    };
    let ghost model = one.model();
    sources.push(one);
    proof {
        assert(full_models(sources@) =~= before.push(model));
    }
    Ok(())
}

/// The packages to extract, each path once. Each goes to a folder of its own: that
/// of its name, or of its name and the first number that no other one has.
pub fn plan_packages(file_paths: &Vec<String>) -> (r: Result<Vec<PackageSource>, String>)
    ensures
        source_result(r, package_sources(batch::texts_of(file_paths@))),
{
    if file_paths.len() == 0 {
        return Err("Selecione ao menos um arquivo UTX para extrair.".to_owned());
    }
    let ghost paths = batch::texts_of(file_paths@);
    let mut found: Vec<FullSource> = Vec::new();
    let mut i: usize = 0;
    assert(full_models(found@) =~= Seq::<SourceModel>::empty());
    while i < file_paths.len()
        invariant
            i <= file_paths@.len(),
            file_paths@.len() <= usize::MAX,
            file_paths@.len() > 0,
            paths == batch::texts_of(file_paths@),
            found@.len() <= i,
            sources_of(paths, i as nat) == Ok::<Seq<SourceModel>, Seq<char>>(full_models(found@)),
        decreases file_paths.len() - i,
    {
        proof {
            assert(paths[i as int] == file_paths@[i as int]@);
            if sources_of(paths, (i + 1) as nat) is Err {
                sources_error_spreads(paths, (i + 1) as nat, paths.len());
            }
        }
        add_source(&mut found, file_paths[i].as_str())?;
        i = i + 1;
    }
    let ghost models = full_models(found@);
    let mut sources: Vec<PackageSource> = Vec::new();
    for one in it: found
        invariant
            it.seq() == found@,
            models == full_models(found@),
            sources@.len() == it.index(),
            forall|k: int|
                0 <= k < it.index() ==> {
                    let one = #[trigger] sources@[k];
                    &&& one.path@ == models[k].path
                    &&& one.display_name@ == models[k].display_name
                    &&& one.directory@ == models[k].directory
                },
    {
        assert(models[it.index()] == one.model());
        sources.push(one.source);
    }
    Ok(sources)
}

/// How an extraction came out.
#[derive(Debug)]
pub struct UtxExtractSummary {
    pub packages: usize,
    pub exported: usize,
    pub skipped: usize,
    pub failed: usize,
    pub errors: Vec<String>,
    pub output_directory: String,
}

pub struct ExtractModel {
    pub packages: int,
    pub exported: int,
    pub skipped: int,
    pub failed: int,
    pub errors: Seq<Seq<char>>,
    pub directory: Seq<char>,
}

impl View for UtxExtractSummary {
    type V = ExtractModel;

    open spec fn view(&self) -> ExtractModel {
        ExtractModel {
            packages: self.packages as int,
            exported: self.exported as int,
            skipped: self.skipped as int,
            failed: self.failed as int,
            errors: batch::texts_of(self.errors@),
            directory: self.output_directory@,
        }
    }
}

/// Descriptions with one more, up to the limit.
pub open spec fn with_extract_error(errors: Seq<Seq<char>>, error: Seq<char>) -> Seq<Seq<char>> {
    if errors.len() < MAX_UTX_EXTRACT_ERRORS {
        errors.push(error)
    } else {
        errors
    }
}

/// The summary after a package that could not be read.
pub open spec fn with_unread_package(s: ExtractModel, name: Seq<char>, error: Seq<char>) -> ExtractModel {
    ExtractModel {
        failed: s.failed + 1,
        errors: with_extract_error(s.errors, batch::described(name, error)),
        ..s
    }
}

/// The summary after one texture. One whose format has no PNG form is skipped.
pub open spec fn with_extracted(
    s: ExtractModel,
    mode: UtxExtractMode,
    format: UtxFormat,
    package: Seq<char>,
    texture: Seq<char>,
    result: Result<(), Seq<char>>,
) -> ExtractModel {
    match result {
        Ok(()) => ExtractModel { exported: s.exported + 1, ..s },
        Err(error) => {
            let errors = with_extract_error(
                s.errors,
                package + " / "@ + texture + ": "@ + error,
            );
            if mode == UtxExtractMode::Png && !formats::previewable(format) {
                ExtractModel { skipped: s.skipped + 1, errors, ..s }
            } else {
                ExtractModel { failed: s.failed + 1, errors, ..s }
            }
        },
    }
}

impl UtxExtractSummary {
    /// The summary before the first of `packages` packages.
    pub fn start(packages: usize, output_directory: &str) -> (r: Self)
        ensures
            r@ == (ExtractModel {
                packages: packages as int,
                exported: 0,
                skipped: 0,
                failed: 0,
                errors: Seq::empty(),
                directory: output_directory@,
            }),
    {
        let r = UtxExtractSummary {
            packages,
            exported: 0,
            skipped: 0,
            failed: 0,
            errors: Vec::new(),
            output_directory: output_directory.to_owned(),
        };
        assert(r@.errors =~= Seq::<Seq<char>>::empty());
        r
    }

    fn push_extract_error(&mut self, error: String)
        ensures
            final(self)@ == (ExtractModel {
                errors: with_extract_error(old(self)@.errors, error@),
                ..old(self)@
            }),
    {
        let ghost before = self@;
        let ghost model = error@;
        if self.errors.len() < MAX_UTX_EXTRACT_ERRORS {
            self.errors.push(error);
            assert(batch::texts_of(self.errors@) =~= before.errors.push(model));
        }
    }

    /// Counts a package that could not be read.
    pub fn count_unread_package(&mut self, display_name: &str, error: &str)
        requires
            old(self)@.failed < usize::MAX,
        ensures
            final(self)@ == with_unread_package(old(self)@, display_name@, error@),
    {
        self.failed = self.failed + 1;
        self.push_extract_error(text::join3(display_name, ": ", error));
    }

    /// Counts a texture.
    pub fn count_texture(
        &mut self,
        mode: UtxExtractMode,
        format: UtxFormat,
        display_name: &str,
        texture_name: &str,
        result: Result<(), String>,
    )
        requires
            old(self)@.exported + old(self)@.skipped + old(self)@.failed < usize::MAX,
        ensures
            final(self)@ == with_extracted(
                old(self)@,
                mode,
                format,
                display_name@,
                texture_name@,
                text::seen(result),
            ),
    {
        match result {
            Ok(()) => {
                self.exported = self.exported + 1;
            },
            Err(error) => {
                if mode == UtxExtractMode::Png && !format.is_previewable() {
                    self.skipped = self.skipped + 1;
                } else {
                    self.failed = self.failed + 1;
                }
                let line = text::join3(
                    text::join3(display_name, " / ", texture_name).as_str(),
                    ": ",
                    error.as_str(),
                );
                self.push_extract_error(line);
            },
        }
    }
}

/// What an extraction counts: a package that could not be read, or a texture.
pub enum ExtractStep {
    Unread { package: Seq<char>, error: Seq<char> },
    Texture {
        format: UtxFormat,
        package: Seq<char>,
        texture: Seq<char>,
        result: Result<(), Seq<char>>,
    },
}

/// The summary after the first `n` steps of an extraction.
pub open spec fn extracted_in_turn(
    start: ExtractModel,
    mode: UtxExtractMode,
    steps: Seq<ExtractStep>,
    n: nat,
) -> ExtractModel
    decreases n,
{
    if n == 0 {
        start
    } else {
        let before = extracted_in_turn(start, mode, steps, (n - 1) as nat);
        match steps[n - 1] {
            ExtractStep::Unread { package, error } => with_unread_package(before, package, error),
            ExtractStep::Texture { format, package, texture, result } => with_extracted(
                before,
                mode,
                format,
                package,
                texture,
                result,
            ),
        }
    }
}

/// Everything that an extraction meets is counted once, and every failure is described
/// up to the limit: what was exported, skipped and failed adds up to the textures and the
/// packages that could not be read.
pub proof fn every_extraction_is_counted(
    start: ExtractModel,
    mode: UtxExtractMode,
    steps: Seq<ExtractStep>,
    n: nat,
)
    requires
        n <= steps.len(),
        start.exported == 0,
        start.skipped == 0,
        start.failed == 0,
        start.errors.len() == 0,
    ensures
        ({
            let s = extracted_in_turn(start, mode, steps, n);
            &&& s.exported + s.skipped + s.failed == n
            &&& 0 <= s.exported
            &&& 0 <= s.skipped
            &&& 0 <= s.failed
            &&& s.errors.len() == if s.skipped + s.failed < MAX_UTX_EXTRACT_ERRORS {
                s.skipped + s.failed
            } else {
                MAX_UTX_EXTRACT_ERRORS as int
            }
            &&& s.packages == start.packages
            &&& s.directory == start.directory
        }),
    decreases n,
{
    if n > 0 {
        every_extraction_is_counted(start, mode, steps, (n - 1) as nat);
    }
}

/// Whether `sorted` holds the texts `found` in ascending order.
pub open spec fn sorted_texts(found: Seq<Seq<char>>, sorted: Seq<Seq<char>>) -> bool {
    exists|order: Seq<usize>| #[trigger]
        sorting::sorted_order(found, order) && sorted == Seq::new(
            order.len(),
            |i: int| found[order[i] as int],
        )
}

/// Sorts texts.
pub fn sort_texts(texts: &Vec<String>) -> (r: Vec<String>)
    ensures
        sorted_texts(batch::texts_of(texts@), batch::texts_of(r@)),
{
    let mut keys: Vec<Vec<char>> = Vec::new();
    let mut i: usize = 0;
    let ghost all = batch::texts_of(texts@);
    while i < texts.len()
        invariant
            i <= texts@.len(),
            all == batch::texts_of(texts@),
            keys@.len() == i,
            forall|k: int| 0 <= k < i ==> (#[trigger] keys@[k])@ == all[k],
        decreases texts.len() - i,
    {
        keys.push(text::chars_of(texts[i].as_str()));
        i = i + 1;
    }
    assert(sorting::views(keys@) =~= all);
    let order = sorting::sort_order(&keys);
    let ghost target = Seq::new(order@.len(), |i: int| all[order@[i] as int]);
    let mut sorted: Vec<String> = Vec::new();
    let mut k: usize = 0;
    while k < order.len()
        invariant
            k <= order@.len(),
            all == batch::texts_of(texts@),
            sorting::sorted_order(all, order@),
            target == Seq::new(order@.len(), |i: int| all[order@[i] as int]),
            sorted@.len() == k,
            forall|j: int| 0 <= j < k ==> (#[trigger] sorted@[j])@ == target[j],
        decreases order.len() - k,
    {
        sorted.push(texts[order[k]].clone());
        k = k + 1;
    }
    assert(batch::texts_of(sorted@) =~= target);
    sorted
}

/// The texture files of a folder and the group that they are imported into.
#[derive(Debug)]
pub struct ImportGroup {
    pub name: String,
    pub files: Vec<String>,
}

pub struct GroupModel {
    pub name: Seq<char>,
    pub files: Seq<Seq<char>>,
}

impl View for ImportGroup {
    type V = GroupModel;

    open spec fn view(&self) -> GroupModel {
        GroupModel { name: self.name@, files: batch::texts_of(self.files@) }
    }
}

pub open spec fn groups_of(groups: Seq<ImportGroup>) -> Seq<GroupModel> {
    Seq::new(groups.len(), |i: int| groups[i]@)
}

/// The groups that hold files.
pub open spec fn filled(groups: Seq<GroupModel>) -> Seq<GroupModel>
    decreases groups.len(),
{
    if groups.len() == 0 {
        Seq::empty()
    } else if groups.last().files.len() > 0 {
        filled(groups.drop_last()).push(groups.last())
    } else {
        filled(groups.drop_last())
    }
}

/// Whether `sorted` are the groups `found` with the files of each in order.
pub open spec fn sorted_groups(found: Seq<GroupModel>, sorted: Seq<GroupModel>) -> bool {
    &&& found.len() == sorted.len()
    &&& forall|i: int|
        0 <= i < found.len() ==> (#[trigger] sorted[i]).name == found[i].name && sorted_texts(
            found[i].files,
            sorted[i].files,
        )
}

/// All groups of a tree: the files of the root first, then those of each folder.
pub open spec fn all_groups(root: Seq<Seq<char>>, folders: Seq<GroupModel>) -> Seq<GroupModel> {
    seq![GroupModel { name: "Pacote principal"@, files: root }] + folders
}

pub open spec fn group_names(groups: Seq<GroupModel>) -> Seq<Seq<char>> {
    Seq::new(groups.len(), |i: int| groups[i].name)
}

/// Groups in another order.
pub open spec fn reordered(groups: Seq<GroupModel>, order: Seq<usize>) -> Seq<GroupModel> {
    Seq::new(order.len(), |i: int| groups[order[i] as int])
}

/// The groups of a tree that hold files, with the folders in the given order.
pub open spec fn groups_found(
    root: Seq<Seq<char>>,
    folders: Seq<GroupModel>,
    order: Seq<usize>,
) -> Seq<GroupModel> {
    filled(all_groups(root, reordered(folders, order)))
}

/// The places of the folders by ascending name.
fn name_order(folders: &Vec<ImportGroup>) -> (r: Vec<usize>)
    ensures
        sorting::sorted_order(group_names(groups_of(folders@)), r@),
{
    let mut keys: Vec<Vec<char>> = Vec::new();
    let mut i: usize = 0;
    let ghost all = group_names(groups_of(folders@));
    while i < folders.len()
        invariant
            i <= folders@.len(),
            all == group_names(groups_of(folders@)),
            keys@.len() == i,
            forall|k: int| 0 <= k < i ==> (#[trigger] keys@[k])@ == all[k],
        decreases folders.len() - i,
    {
        keys.push(text::chars_of(folders[i].name.as_str()));
        i = i + 1;
    }
    assert(sorting::views(keys@) =~= all);
    sorting::sort_order(&keys)
}

/// The groups of a tree that is imported, from the files found in its root and
/// in its folders: the root's files are in no group, those of a folder in the
/// group of its name. The folders come by their names.
pub fn import_groups(root_files: &Vec<String>, folders: &Vec<ImportGroup>) -> (r: Result<
    Vec<ImportGroup>,
    String,
>)
    ensures
        exists|order: Seq<usize>| #[trigger]
            sorting::sorted_order(group_names(groups_of(folders@)), order) && ({
                let found = groups_found(
                    batch::texts_of(root_files@),
                    groups_of(folders@),
                    order,
                );
                match r {
                    Ok(groups) => found.len() > 0 && sorted_groups(found, groups_of(groups@)),
                    Err(message) => found.len() == 0 && message@
                        == "A pasta selecionada não contém arquivos .tga ou .dds."@,
                }
            }),
{
    let order = name_order(folders);
    let ghost root = batch::texts_of(root_files@);
    let ghost all = all_groups(root, reordered(groups_of(folders@), order@));
    let mut groups: Vec<ImportGroup> = Vec::new();
    let ghost mut found = filled(all.take(1));
    proof {
        assert(all.take(1).drop_last() =~= Seq::<GroupModel>::empty());
        assert(all.take(1).last() == all[0]);
    }
    if root_files.len() > 0 {
        let one = ImportGroup { name: "Pacote principal".to_owned(), files: sort_texts(root_files) };
        groups.push(one);
    }
    proof {
        assert(filled(Seq::<GroupModel>::empty()) =~= Seq::<GroupModel>::empty());
        assert(root.len() == root_files@.len());
        if root_files@.len() > 0 {
            assert(found =~= seq![all[0]]);
        } else {
            assert(found =~= Seq::<GroupModel>::empty());
        }
    }
    let mut i: usize = 0;
    while i < order.len()
        invariant
            i <= order@.len(),
            sorting::sorted_order(group_names(groups_of(folders@)), order@),
            all == all_groups(root, reordered(groups_of(folders@), order@)),
            found == filled(all.take(i + 1)),
            sorted_groups(found, groups_of(groups@)),
        decreases order.len() - i,
    {
        let ghost before = found;
        let at: usize = order[i];
        proof {
            assert(all.take(i + 2).drop_last() =~= all.take(i + 1));
            assert(all.take(i + 2).last() == folders@[at as int]@);
            found = filled(all.take(i + 2));
        }
        if folders[at].files.len() > 0 {
            let ghost groups_before = groups_of(groups@);
            let one = ImportGroup {
                name: folders[at].name.clone(),
                files: sort_texts(&folders[at].files),
            };
            let ghost model = one@;
            groups.push(one);
            proof {
                assert(groups_of(groups@) =~= groups_before.push(model));
                assert(found =~= before.push(folders@[at as int]@));
            }
        }
        i = i + 1;
    }
    assert(all.take(order@.len() as int + 1) =~= all);
    if groups.len() == 0 {
        return Err("A pasta selecionada não contém arquivos .tga ou .dds.".to_owned());
    }
    Ok(groups)
}

/// Whether groups come by their names.
pub open spec fn by_name(groups: Seq<GroupModel>) -> bool {
    forall|i: int, j: int|
        0 <= i < j < groups.len() ==> !sorting::text_less(
            (#[trigger] groups[j]).name,
            (#[trigger] groups[i]).name,
        )
}

/// Leaving out empty groups leaves the order of the others.
proof fn filled_keeps_order(groups: Seq<GroupModel>)
    requires
        by_name(groups),
    ensures
        by_name(filled(groups)),
        forall|i: int|
            0 <= i < filled(groups).len() ==> (#[trigger] filled(groups)[i]).files.len() > 0
                && groups.contains(filled(groups)[i]),
    decreases groups.len(),
{
    if groups.len() > 0 {
        let fewer = groups.drop_last();
        let last = groups.last();
        assert forall|i: int, j: int| 0 <= i < j < fewer.len() implies !sorting::text_less(
            (#[trigger] fewer[j]).name,
            (#[trigger] fewer[i]).name,
        ) by {
            assert(fewer[i] == groups[i] && fewer[j] == groups[j]);
        }
        filled_keeps_order(fewer);
        let before = filled(fewer);
        let all = filled(groups);
        assert forall|i: int| 0 <= i < all.len() implies (#[trigger] all[i]).files.len() > 0
            && groups.contains(all[i]) by {
            if i < before.len() {
                assert(all[i] == before[i]);
                let k = choose|k: int| 0 <= k < fewer.len() && fewer[k] == before[i];
                assert(groups[k] == all[i]);
            } else {
                assert(groups[groups.len() - 1] == all[i]);
            }
        }
        assert forall|i: int, j: int| 0 <= i < j < all.len() implies !sorting::text_less(
            (#[trigger] all[j]).name,
            (#[trigger] all[i]).name,
        ) by {
            assert(all[i] == before[i]);
            if j < before.len() {
                assert(all[j] == before[j]);
            } else {
                let k = choose|k: int| 0 <= k < fewer.len() && fewer[k] == before[i];
                assert(groups[k] == all[i] && groups[groups.len() - 1] == all[j]);
            }
        }
    }
}

/// The group of the root stands before the others, if it holds files.
proof fn root_comes_first(root: GroupModel, folders: Seq<GroupModel>)
    ensures
        filled(seq![root] + folders) == (if root.files.len() > 0 {
            seq![root]
        } else {
            Seq::empty()
        }) + filled(folders),
    decreases folders.len(),
{
    let all = seq![root] + folders;
    if folders.len() == 0 {
        assert(all.drop_last() =~= Seq::<GroupModel>::empty());
        assert(all.last() == root);
        assert(filled(Seq::<GroupModel>::empty()) =~= Seq::<GroupModel>::empty());
        assert(filled(all) =~= (if root.files.len() > 0 {
            seq![root]
        } else {
            Seq::empty()
        }) + filled(folders));
    } else {
        root_comes_first(root, folders.drop_last());
        assert(all.drop_last() =~= seq![root] + folders.drop_last());
        assert(all.last() == folders.last());
        assert(filled(all) =~= (if root.files.len() > 0 {
            seq![root]
        } else {
            Seq::empty()
        }) + filled(folders));
    }
}

/// A tree is imported with the files of its root first, if there are any, and
/// then folder by folder in the order of their names. No group is empty.
pub proof fn groups_come_by_name(
    root: Seq<Seq<char>>,
    folders: Seq<GroupModel>,
    order: Seq<usize>,
)
    requires
        sorting::sorted_order(group_names(folders), order),
    ensures
        ({
            let found = groups_found(root, folders, order);
            let first = if root.len() > 0 {
                1int
            } else {
                0
            };
            &&& root.len() > 0 ==> found.len() > 0 && found[0] == (GroupModel {
                name: "Pacote principal"@,
                files: root,
            })
            &&& first <= found.len()
            &&& by_name(found.skip(first))
            &&& forall|i: int|
                first <= i < found.len() ==> (#[trigger] found[i]).files.len() > 0
                    && folders.contains(found[i])
        }),
{
    let sorted = reordered(folders, order);
    let names = group_names(folders);
    assert forall|i: int, j: int| 0 <= i < j < sorted.len() implies !sorting::text_less(
        (#[trigger] sorted[j]).name,
        (#[trigger] sorted[i]).name,
    ) by {
        assert(sorting::in_order(names, order[i], order[j]));
        sorting::text_order_is_total(names[order[i] as int], names[order[j] as int]);
    }
    filled_keeps_order(sorted);
    let main = GroupModel { name: "Pacote principal"@, files: root };
    root_comes_first(main, sorted);
    let found = groups_found(root, folders, order);
    let first = if root.len() > 0 {
        1int
    } else {
        0
    };
    assert(found.skip(first) =~= filled(sorted));
    assert forall|i: int| first <= i < found.len() implies (#[trigger] found[i]).files.len() > 0
        && folders.contains(found[i]) by {
        assert(found[i] == filled(sorted)[i - first]);
        let k = choose|k: int| 0 <= k < sorted.len() && sorted[k] == found[i];
        assert(folders[order[k] as int] == found[i]);
    }
}

/// Folders of one name with different numbers differ.
proof fn numbers_tell_apart(a: Seq<char>, b: Seq<char>, m: nat, n: nat)
    requires
        text::same_folded(a, b),
        1 <= m < n,
    ensures
        !text::same_folded(numbered(a, m as int), numbered(b, n as int)),
{
    reveal_strlit(" (");
    reveal_strlit(")");
    let first = numbered(a, m as int);
    let second = numbered(b, n as int);
    let left = text::lower_text(first);
    let right = text::lower_text(second);
    let size = a.len() as int;
    assert(text::lower_text(a).len() == text::lower_text(b).len());
    let one = text::digits(m);
    let other = text::digits(n);
    metadata_laws::digits_are_read(m);
    metadata_laws::digits_are_read(n);
    assert(second =~= b + seq![' ', '('] + other + seq![')']);
    assert(right.len() == size + 3 + other.len());
    if left == right {
        assert(left.len() == first.len());
        assert(m > 1);
        assert(first =~= a + seq![' ', '('] + one + seq![')']);
        assert(one.len() == other.len());
        assert forall|k: int| 0 <= k < one.len() implies one[k] == other[k] by {
            assert(first[size + 2 + k] == one[k]);
            assert(second[size + 2 + k] == other[k]);
            assert(left[size + 2 + k] == right[size + 2 + k]);
            assert(text::is_digit(one[k]) && text::is_digit(other[k]));
        }
        assert(one =~= other);
    }
}

/// There is a first number whose folder no package goes to.
proof fn some_folder_is_free(sources: Seq<SourceModel>, base: Seq<char>, from: int)
    requires
        1 <= from <= sources.len() + 1,
        forall|m: int| 1 <= m < from ==> is_taken(sources, #[trigger] numbered(base, m)),
    ensures
        exists|count: int| is_first_free(sources, base, count),
    decreases sources.len() + 1 - from,
{
    if is_taken(sources, numbered(base, from)) {
        first_numbers(from);
        some_number_is_free(sources, base, vstd::set_lib::set_int_range(1, from + 1));
        some_folder_is_free(sources, base, from + 1);
    } else {
        assert(is_first_free(sources, base, from));
    }
}

/// The packages among the first `n` paths have folders of their own.
proof fn folders_differ(paths: Seq<Seq<char>>, n: nat)
    ensures
        sources_of(paths, n) matches Ok(sources) ==> forall|i: int, j: int|
            0 <= i < j < sources.len() ==> !text::same_folded(
                (#[trigger] sources[i]).directory,
                (#[trigger] sources[j]).directory,
            ),
    decreases n,
{
    if n > 0 {
        folders_differ(paths, (n - 1) as nat);
        if let Ok(sources) = sources_of(paths, n) {
            let fewer = sources_of(paths, (n - 1) as nat)->Ok_0;
            if sources.len() > fewer.len() {
                let base = sources.last().base;
                some_folder_is_free(fewer, base, 1);
                assert(!is_taken(fewer, sources.last().directory));
                assert forall|i: int, j: int| 0 <= i < j < sources.len() implies !text::same_folded(
                    (#[trigger] sources[i]).directory,
                    (#[trigger] sources[j]).directory,
                ) by {
                    assert(sources[i] == fewer[i]);
                    if j < fewer.len() {
                        assert(sources[j] == fewer[j]);
                    }
                }
            }
        }
    }
}

/// No two packages are extracted into one folder, whatever their names and the
/// case of these.
pub proof fn packages_have_their_own_folders(paths: Seq<Seq<char>>, i: int, j: int)
    requires
        package_sources(paths) matches Ok(sources) && 0 <= i < sources.len() && 0 <= j
            < sources.len() && i != j,
    ensures
        ({
            let sources = package_sources(paths)->Ok_0;
            !text::same_folded(sources[i].directory, sources[j].directory)
        }),
{
    folders_differ(paths, paths.len());
}

} // verus!
