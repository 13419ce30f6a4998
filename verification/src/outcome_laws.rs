//! What the results of functions stand for: a value for the value, an error for its text.

use vstd::prelude::*;
use crate::app_settings::AppSettings;
use crate::encryption::{DecryptedModel, DecryptedPackage};
use crate::formats::UtxFormat;
use crate::geodata::{Region, RegionModel};
use crate::listing::{EntryModel, UtxEntry};
use crate::package::PackageModel;
use crate::preview::TexturePreview;
use crate::reader::Dialect;
use crate::session::{CacheModel, PackageUpdate};
use crate::texture_engine::TextureImportOutcome;
use crate::app_settings;
use crate::appending;
use crate::encryption;
use crate::geodata_region;
use crate::images;
use crate::imports;
use crate::listing;
use crate::naming_laws;
use crate::package;
use crate::paths;
use crate::preview;
use crate::session;
use crate::tables;
use crate::text;
use crate::texture_engine;
use crate::adding;

verus! {

/// The result of making a file is the file, or the error with its text.
pub proof fn files_stand_for_their_bytes(
    r: Result<Vec<u8>, String>,
    model: Result<Seq<u8>, Seq<char>>,
)
    ensures
        images::bytes_result(r, model) == match (r, model) {
            (Ok(file), Ok(bytes)) => file@ == bytes,
            (Err(message), Err(text)) => message@ == text,
            _ => false,
        },
        texture_engine::file_result(r, model) == images::bytes_result(r, model),
{
}

/// The result of reading a picture is its dimensions and its pixels, or the error with its
/// text.
pub proof fn pictures_stand_for_their_pixels(
    tga: Result<(i32, i32, Vec<u8>), String>,
    plain: Result<(i32, i32, Seq<u8>), Seq<char>>,
    dds: Result<(UtxFormat, i32, i32, Vec<u8>), String>,
    compressed: Result<(UtxFormat, i32, i32, Seq<u8>), Seq<char>>,
)
    ensures
        images::tga_result(tga, plain) == match (tga, plain) {
            (Ok((w, h, pixels)), Ok((width, height, bytes))) => w == width && h == height && pixels@
                == bytes,
            (Err(message), Err(text)) => message@ == text,
            _ => false,
        },
        images::dds_result(dds, compressed) == match (dds, compressed) {
            (Ok((f, w, h, pixels)), Ok((format, width, height, bytes))) => f == format && w == width
                && h == height && pixels@ == bytes,
            (Err(message), Err(text)) => message@ == text,
            _ => false,
        },
{
}

/// A result without a model is seen as it is, but for the text of its error.
pub proof fn errors_are_seen_by_their_text(
    done: Result<(), String>,
    size: Result<(i32, i32), String>,
    settings: Result<AppSettings, String>,
)
    ensures
        done is Ok ==> text::seen(done) is Ok,
        done matches Err(message) ==> text::seen(done) == Err::<(), Seq<char>>(message@),
        size matches Ok(pair) ==> text::seen(size) == Ok::<(i32, i32), Seq<char>>(pair),
        size matches Err(message) ==> text::seen(size) == Err::<(i32, i32), Seq<char>>(message@),
        settings matches Ok(found) ==> app_settings::settings_seen(settings) == Ok::<
            Seq<(Seq<char>, Seq<char>)>,
            Seq<char>,
        >(found@),
        settings matches Err(message) ==> app_settings::settings_seen(settings) == Err::<
            Seq<(Seq<char>, Seq<char>)>,
            Seq<char>,
        >(message@),
{
}

/// The result of listing a texture, of opening a file or of reading a region is what it
/// stands for, or the error with its text.
pub proof fn values_stand_for_their_models(
    entry: Result<UtxEntry, String>,
    listed: Result<EntryModel, Seq<char>>,
    opened: Result<DecryptedPackage, String>,
    decrypted: Result<DecryptedModel, Seq<char>>,
    region: Result<Region, String>,
    read: Result<RegionModel, Seq<char>>,
)
    ensures
        listing::entry_result(entry, listed) == match (entry, listed) {
            (Ok(a), Ok(b)) => a@ == b,
            (Err(message), Err(text)) => message@ == text,
            _ => false,
        },
        encryption::decrypted_result(opened, decrypted) == match (opened, decrypted) {
            (Ok(a), Ok(b)) => a@ == b,
            (Err(message), Err(text)) => message@ == text,
            _ => false,
        },
        geodata_region::region_result(region, read) == match (region, read) {
            (Ok(a), Ok(b)) => a@ == b,
            (Err(message), Err(text)) => message@ == text,
            _ => false,
        },
{
}

/// A name that is handed out is the name, and a missing one is none.
pub proof fn names_stand_for_their_text(
    name: Result<String, String>,
    text: Result<Seq<char>, Seq<char>>,
    part: Option<String>,
    found: Option<Seq<char>>,
)
    ensures
        paths::text_result(name, text) == match (name, text) {
            (Ok(a), Ok(b)) => a@ == b,
            (Err(a), Err(b)) => a@ == b,
            _ => false,
        },
        paths::part_result(part, found) == match (part, found) {
            (Some(a), Some(b)) => a@ == b,
            (None, None) => true,
            _ => false,
        },
{
}

/// An import hands out the data of the package after it and one outcome for each request.
pub proof fn imports_hand_out_their_package(
    r: Result<(Vec<u8>, Vec<TextureImportOutcome>), String>,
    model: Result<(PackageModel, Seq<TextureImportOutcome>), Seq<char>>,
)
    ensures
        texture_engine::import_result(r, model) == match (r, model) {
            (Ok((data, outcomes)), Ok((p, o))) => data@ == p.data && outcomes@ == o,
            (Err(message), Err(text)) => message@ == text,
            _ => false,
        },
{
}

/// A change of an open package is its new data, and the file of that data under the
/// encryption that the package had.
pub proof fn updates_are_stored_under_their_encryption(
    cache: CacheModel,
    r: Result<PackageUpdate, String>,
    model: Result<Seq<u8>, Seq<char>>,
)
    ensures
        session::update_result(cache, r, model) == match (r, model) {
            (Ok(update), Ok(data)) => update.working@ == data && update.file@ == encryption::stored(
                data,
                cache.encrypted,
                cache.key,
                cache.header,
            ),
            (Err(message), Err(text)) => message@ == text,
            _ => false,
        },
{
}

/// A preview is the picture as text that a page can show, with its dimensions.
pub proof fn previews_are_pictures_for_pages(
    r: Result<TexturePreview, String>,
    model: Result<(Seq<u8>, i32, i32), Seq<char>>,
)
    ensures
        session::shown_result(r, model) == match (r, model) {
            (Ok(preview), Ok((png, width, height))) => preview.data_url@
                == "data:image/png;base64,"@ + preview::base64_text(png) && preview.width == width
                && preview.height == height,
            (Err(message), Err(text)) => message@ == text,
            _ => false,
        },
{
}

/// A reference leads to an export from one on, and below zero to an import.
pub proof fn references_count_from_one(reference: i32)
    ensures
        reference > 0 ==> package::index_of_reference(reference) == Ok::<int, Seq<char>>(
            reference - 1,
        ),
        reference < 0 ==> package::index_of_reference(reference) == Ok::<int, Seq<char>>(
            -reference - 1,
        ),
        reference == 0 ==> package::index_of_reference(reference) is Err,
{
}

/// The readable texture of a name in a group is the first of them.
pub proof fn named_textures_are_the_first(
    p: PackageModel,
    group: Seq<char>,
    name: Seq<char>,
    from: int,
)
    requires
        0 <= from,
    ensures
        appending::named_entry(p, group, name, from) matches Some(i) ==> {
            &&& from <= i < p.exports.len()
            &&& listing::entry_of(p, i) matches Ok(entry)
            &&& tables::in_group(Dialect::Frontend, entry.name, group)
            &&& text::same_folded(text::after_last_dot(entry.name), name)
        },
    decreases p.exports.len() - from,
{
    if from < p.exports.len() {
        named_textures_are_the_first(p, group, name, from + 1);
    }
}

/// A texture file is taken if it can be read and its sides are powers of two.
pub proof fn files_are_taken_by_size(path: Seq<char>, source: Seq<u8>)
    ensures
        imports::storable_content(path, source) matches Ok((format, width, height, pixels)) ==> {
            &&& imports::file_content(path, source) == Ok::<
                (UtxFormat, i32, i32, Seq<u8>),
                Seq<char>,
            >((format, width, height, pixels))
            &&& exists|u: nat| width == #[trigger] vstd::arithmetic::power2::pow2(u)
            &&& exists|v: nat| height == #[trigger] vstd::arithmetic::power2::pow2(v)
        },
{
    if let Ok((format, width, height, pixels)) = imports::storable_content(path, source) {
        naming_laws::stored_sizes_are_powers_of_two(width, height);
    }
}

/// A texture is replaced by a file of its size and format: its pixels become those of the
/// file, and only a texture with nine parts gets other parts.
pub proof fn replaced_textures_get_the_pixels_of_the_file(
    working: Seq<u8>,
    p: PackageModel,
    index: int,
    file: Seq<u8>,
)
    requires
        0 <= index,
    ensures
        appending::with_replacement(working, p, index, file, None) matches Ok(after) ==> {
            &&& listing::entry_of(p, index) matches Ok(entry)
            &&& listing::located_mip(p, index) matches Ok(mip)
            &&& appending::replacement_pixels(file, entry.format, entry.width, entry.height)
                matches Ok(pixels)
            &&& appending::with_pixels_replaced(working, p.exports[index], mip, pixels) == Ok::<
                Seq<u8>,
                Seq<char>,
            >(after)
            &&& entry.format == UtxFormat::Rgba8 || entry.format == UtxFormat::Dxt1 || entry.format
                == UtxFormat::Dxt3 || entry.format == UtxFormat::Dxt5
        },
{
}

/// A texture that was added is reported as added, and one that was replaced as not, each
/// with the export that it is.
pub proof fn outcomes_name_their_export(
    targets: Seq<usize>,
    replacements: Seq<crate::texture_engine::ReplacementModel>,
    i: int,
)
    ensures
        adding::added_outcomes(targets).len() == targets.len(),
        0 <= i < targets.len() ==> {
            &&& adding::added_outcomes(targets)[i].export_index == targets[i]
            &&& adding::added_outcomes(targets)[i].added
        },
        texture_engine::replaced_outcomes(replacements).len() == replacements.len(),
        0 <= i < replacements.len() ==> {
            let one = texture_engine::replaced_outcomes(replacements)[i];
            &&& one.export_index == replacements[i].index
            &&& !one.added
        },
{
}

} // verus!
