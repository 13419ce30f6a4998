//! What the values that callers hold stand for: each field for what it is named after.

use vstd::prelude::*;
use crate::batch::{ImportTally, PreparedTexture, TextureImportProgress};
use crate::edits::TextureImportRequest;
use crate::encryption::DecryptedPackage;
use crate::extract::{ImportGroup, UtxExtractSummary};
use crate::geodata::{Block, BlockModel, Region};
use crate::geodata_plan::{GeodataPlan, GeodataSource, Totals};
use crate::importing::TextureImportSummary;
use crate::imports::{ImportedModel, ImportedTexture};
use crate::listing::UtxEntry;
use crate::metadata::MetadataNotes;
use crate::names::NameTable;
use crate::properties::PropertyRecord;
use crate::texture_resize::{RasterImage, ResizeTotals};
use crate::batch;
use crate::extract;
use crate::geodata_plan;
use crate::listing;
use crate::properties;
use crate::texture_engine;

verus! {

/// A listed texture stands for its fields.
pub proof fn entries_stand_for_their_fields(entry: UtxEntry)
    ensures
        entry@.name == entry.name@,
        entry@.format == entry.format,
        entry@.index == entry.export_index,
        entry@.width == entry.width,
        entry@.height == entry.height,
        entry@.has_alpha == entry.has_alpha,
        entry@.has_split9 == entry.has_split9,
        entry@.split9.x1 == entry.split9_x1,
        entry@.split9.x2 == entry.split9_x2,
        entry@.split9.x3 == entry.split9_x3,
        entry@.split9.y1 == entry.split9_y1,
        entry@.split9.y2 == entry.split9_y2,
        entry@.split9.y3 == entry.split9_y3,
        entry@.settings == entry.settings,
        entry@.animation is Some == entry.animation is Some,
        entry.animation matches Some(a) ==> {
            &&& entry@.animation->0.values == a.values
            &&& entry@.animation->0.properties == a.properties
            &&& a.anim_next matches Some(path) ==> entry@.animation->0.anim_next == Some(path@)
            &&& a.anim_next is None ==> entry@.animation->0.anim_next is None
        },
{
}

/// A request for a texture stands for its fields.
pub proof fn requests_stand_for_their_fields(request: TextureImportRequest)
    ensures
        request@.name == request.name@,
        request@.image.format == request.format,
        request@.image.width == request.width,
        request@.image.height == request.height,
        request@.image.pixels == request.pixels@,
        request@.alpha == request.alpha,
        request@.masked == request.masked,
        request@.clamp == request.clamp,
        request@.split9 == request.split9,
        request@.animation is Some == request.animation is Some,
        request.animation matches Some(a) ==> {
            let model = request@.animation->0;
            &&& model.max_frame_rate == a.max_frame_rate
            &&& model.min_frame_rate == a.min_frame_rate
            &&& model.one_time_anim_loop == a.one_time_anim_loop
            &&& model.prime_count == a.prime_count
            &&& model.total_frame_num == a.total_frame_num
            &&& a.anim_next matches Some(path) ==> model.anim_next == Some(path@)
            &&& a.anim_next is None ==> model.anim_next is None
        },
{
}

/// A texture that was read from a file stands for its fields.
pub proof fn imported_textures_stand_for_their_fields(texture: ImportedTexture)
    ensures
        texture@.name == texture.name@,
        texture@.format == texture.format,
        texture@.width == texture.width,
        texture@.height == texture.height,
        texture@.pixels == texture.pixels@,
        texture@.metadata.settings == texture.metadata.settings,
        texture@.metadata.split9 == texture.metadata.split9,
        texture@.metadata.animation is Some == texture.metadata.animation is Some,
{
}

/// Notes stand for their fields.
pub proof fn notes_stand_for_their_fields(notes: MetadataNotes)
    ensures
        notes@.section == notes.section@,
        notes@.settings == notes.settings,
        notes@.x1 == notes.x1,
        notes@.x2 == notes.x2,
        notes@.x3 == notes.x3,
        notes@.y1 == notes.y1,
        notes@.y2 == notes.y2,
        notes@.y3 == notes.y3,
        notes.anim_next matches Some(t) ==> notes@.anim_next == Some(t@),
        notes.anim_next is None ==> notes@.anim_next is None,
        notes.max_rate matches Some(t) ==> notes@.max_rate == Some(t@),
        notes.max_rate is None ==> notes@.max_rate is None,
        notes.min_rate matches Some(t) ==> notes@.min_rate == Some(t@),
        notes.min_rate is None ==> notes@.min_rate is None,
        notes@.one_time_anim_loop == notes.one_time_anim_loop,
        notes@.prime_count == notes.prime_count,
        notes@.total_frame_num == notes.total_frame_num,
{
}

/// The totals of a run stand for their fields.
pub proof fn totals_stand_for_their_fields(
    resize: ResizeTotals,
    regions: Totals,
    textures: TextureImportSummary,
    tally: ImportTally,
    extracted: UtxExtractSummary,
)
    ensures
        resize@.resized == resize.resized_files,
        resize@.preserved == resize.preserved_files,
        resize@.copied == resize.copied_metadata,
        resize@.failed == resize.failed_files,
        regions@.converted == regions.converted_files,
        regions@.copied == regions.copied_files,
        regions@.skipped == regions.skipped_files,
        regions@.failed == regions.failed_files,
        textures@.replaced == textures.replaced,
        textures@.added == textures.added,
        textures@.skipped == textures.skipped,
        textures@.failed == textures.failed,
        tally@.replaced == tally.replaced,
        tally@.added == tally.added,
        tally@.skipped == tally.skipped,
        tally@.failed == tally.failed,
        extracted@.packages == extracted.packages,
        extracted@.exported == extracted.exported,
        extracted@.skipped == extracted.skipped,
        extracted@.failed == extracted.failed,
        extracted@.directory == extracted.output_directory@,
{
}

/// The texts of a run's errors are those in its list, in the same order.
pub proof fn errors_stand_for_their_texts(texts: Seq<String>, i: int)
    requires
        0 <= i < texts.len(),
    ensures
        batch::texts_of(texts).len() == texts.len(),
        batch::texts_of(texts)[i] == texts[i]@,
{
}

/// A region stands for its coordinates and its blocks, each of its own kind.
pub proof fn regions_stand_for_their_blocks(region: Region, i: int)
    requires
        0 <= i < region.blocks@.len(),
    ensures
        region@.x == region.x,
        region@.y == region.y,
        region@.blocks.len() == region.blocks@.len(),
        match region.blocks@[i] {
            Block::Flat(cell) => region@.blocks[i] == BlockModel::Flat(cell),
            Block::Complex(cells) => region@.blocks[i] == BlockModel::Complex(cells@),
            Block::MultiLevel(cells) => region@.blocks[i] matches BlockModel::MultiLevel(levels)
                && levels.len() == cells@.len() && forall|k: int|
                0 <= k < cells@.len() ==> #[trigger] levels[k] == cells@[k]@,
        },
{
}

/// A picture and an opened file stand for their fields.
pub proof fn pictures_and_files_stand_for_their_fields(image: RasterImage, file: DecryptedPackage)
    ensures
        image@.width == image.width,
        image@.height == image.height,
        image@.pixels == image.pixels@,
        file@.working == file.working@,
        file@.encrypted == file.encrypted,
        file@.key == file.xor_key,
        file@.header == file.header@,
{
}

/// Lists stand for their items, in the same order.
pub proof fn lists_stand_for_their_items(
    requests: Seq<TextureImportRequest>,
    replacements: Seq<(usize, TextureImportRequest)>,
    prepared: Seq<PreparedTexture>,
    entries: Seq<UtxEntry>,
    reports: Seq<TextureImportProgress>,
    groups: Seq<ImportGroup>,
    i: int,
)
    ensures
        texture_engine::requests_of(requests).len() == requests.len(),
        0 <= i < requests.len() ==> texture_engine::requests_of(requests)[i] == requests[i]@,
        texture_engine::replacements_of(replacements).len() == replacements.len(),
        0 <= i < replacements.len() ==> {
            &&& texture_engine::replacements_of(replacements)[i].index == replacements[i].0
            &&& texture_engine::replacements_of(replacements)[i].request == replacements[i].1@
        },
        batch::prepared_of(prepared).len() == prepared.len(),
        0 <= i < prepared.len() ==> {
            let one = batch::prepared_of(prepared)[i];
            &&& one.path == prepared[i].path@
            &&& prepared[i].result matches Ok(texture) ==> one.result == Ok::<
                ImportedModel,
                Seq<char>,
            >(texture@)
            &&& prepared[i].result matches Err(error) ==> one.result == Err::<
                ImportedModel,
                Seq<char>,
            >(error@)
        },
        listing::entries_of(entries).len() == entries.len(),
        0 <= i < entries.len() ==> listing::entries_of(entries)[i] == entries[i]@,
        batch::reports_of(reports).len() == reports.len(),
        0 <= i < reports.len() ==> {
            let one = batch::reports_of(reports)[i];
            &&& one.completed == reports[i].completed
            &&& one.total == reports[i].total
            &&& one.phase == reports[i].phase@
            &&& one.file_name == reports[i].file_name@
        },
        extract::groups_of(groups).len() == groups.len(),
        0 <= i < groups.len() ==> {
            &&& extract::groups_of(groups)[i].name == groups[i].name@
            &&& extract::groups_of(groups)[i].files == batch::texts_of(groups[i].files@)
        },
{
}

/// What is planned for geodata files stands for its fields, in the same order.
pub proof fn plans_stand_for_their_items(
    plan: GeodataPlan,
    sources: Seq<GeodataSource>,
    i: int,
)
    ensures
        plan@.totals == plan.totals@,
        plan@.work.len() == plan.work@.len(),
        0 <= i < plan.work@.len() ==> {
            let one = plan.work@[i];
            &&& plan@.work[i].source == one.source@
            &&& plan@.work[i].destination == one.destination@
            &&& plan@.work[i].source_format == one.source_format
            &&& plan@.work[i].copy == one.copy
            &&& plan@.work[i].file_name == one.file_name@
        },
        geodata_plan::sources_seen(sources).len() == sources.len(),
        0 <= i < sources.len() ==> {
            let one = geodata_plan::sources_seen(sources)[i];
            &&& one.path == sources[i].path@
            &&& sources[i].relative matches Ok(t) ==> one.relative == Ok::<Seq<char>, Seq<char>>(
                t@,
            )
            &&& sources[i].relative matches Err(t) ==> one.relative == Err::<Seq<char>, Seq<char>>(
                t@,
            )
            &&& sources[i].header matches Ok(b) ==> one.header == Ok::<Seq<u8>, Seq<char>>(b@)
            &&& sources[i].header matches Err(t) ==> one.header == Err::<Seq<u8>, Seq<char>>(t@)
        },
{
}

/// Properties and names stand for their fields, in the same order.
pub proof fn properties_stand_for_their_items(
    records: Seq<PropertyRecord>,
    names: NameTable,
    i: int,
)
    ensures
        properties::records_of(records).len() == records.len(),
        0 <= i < records.len() ==> {
            let one = properties::records_of(records)[i];
            &&& one.name == records[i].name@
            &&& one.name_index == records[i].name_index
            &&& one.raw == records[i].raw@
            &&& one.value == records[i].value
            &&& one.replacement == records[i].replacement
        },
        names@.len() == names.entries@.len(),
        0 <= i < names.entries@.len() ==> {
            &&& names@[i].name == names.entries@[i].name@
            &&& names@[i].flags == names.entries@[i].flags
        },
{
}

} // verus!
