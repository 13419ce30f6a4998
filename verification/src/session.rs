//! An open package: what it shows, and what files its changes make.

use vstd::prelude::*;
use vstd::slice::slice_subrange;
use crate::encryption::DecryptedPackage;
use crate::imports::{ImportedModel, ImportedTexture};
use crate::listing::UtxEntry;
use crate::package::{Package, PackageModel};
use crate::preview::TexturePreview;
use crate::properties::{TextureEditorEdit, TextureEditorState};
use crate::reader::Dialect;
use crate::bytes;
use crate::encryption;
use crate::file_laws;
use crate::formats;
use crate::imports;
use crate::listing;
use crate::package;
use crate::paths;
use crate::preview;
use crate::text;
use crate::texture_engine;

verus! {

/// The name of the package that new ones are made from.
pub const NEW_UTX_TEMPLATE_PACKAGE_NAME: &'static str = "UnrealTlp";

/// A single decrypted UTX session. The desktop app keeps this object alive
/// while its package is open, so previews and navigation never decrypt the
/// full package again.
pub struct CachedUtx {
    pub file_path: String,
    pub package: Package,
    pub encrypted: bool,
    pub xor_key: u8,
    pub header: Vec<u8>,
}

pub struct CacheModel {
    pub path: Seq<char>,
    pub package: PackageModel,
    pub encrypted: bool,
    pub key: u8,
    pub header: Seq<u8>,
}

impl View for CachedUtx {
    type V = CacheModel;

    open spec fn view(&self) -> CacheModel {
        CacheModel {
            path: self.file_path@,
            package: self.package@,
            encrypted: self.encrypted,
            key: self.xor_key,
            header: self.header@,
        }
    }
}

/// Whether every system reads a path in the same way: it has neither a back
/// slash nor a colon, and does not start with two slashes.
pub open spec fn is_plain_path(path: Seq<char>) -> bool {
    !path.contains('\\') && !path.contains(':') && !(path.len() >= 2 && path[0] == '/' && path[1]
        == '/')
}

/// The components of a plain path from `from` on, behind those already found.
/// Empty ones do not count, nor do those that stand for the directory they are
/// in, except at the start.
pub open spec fn plain_components(path: Seq<char>, from: int, found: Seq<Seq<char>>) -> Seq<
    Seq<char>,
>
    decreases path.len() - from,
{
    if from < 0 || from >= path.len() {
        found
    } else {
        let end = match text::find_char(path, '/', from) {
            Some(i) => i,
            None => path.len() as int,
        };
        let part = path.subrange(from, end);
        let more = if part.len() == 0 || (part == seq!['.'] && from > 0) {
            found
        } else {
            found.push(part)
        };
        if end < from || end >= path.len() {
            more
        } else {
            plain_components(path, end + 1, more)
        }
    }
}

/// Compares two texts as `std::path::Path` does: by their components, where
/// repeated separators, a separator at the end and components that stand for
/// the directory they are in do not count. Which characters separate, and which
/// prefixes a path can have, is up to the system; stated is what holds on all of
/// them.
#[verifier::external_body]
fn is_same_path(a: &str, b: &str) -> (r: bool)
    ensures
        a@ == b@ ==> r,
        is_plain_path(a@) && is_plain_path(b@) ==> r == (text::starts_with(a@, "/"@) == text::starts_with(
            b@,
            "/"@,
        ) && plain_components(a@, 0, Seq::empty()) == plain_components(b@, 0, Seq::empty())),
{
    std::path::Path::new(a) == std::path::Path::new(b)
}

impl CachedUtx {
    pub fn matches_path(&self, file_path: &str) -> (r: bool)
        ensures
            self@.path == file_path@ ==> r,
            is_plain_path(self@.path) && is_plain_path(file_path@) ==> r == (text::starts_with(
                self@.path,
                "/"@,
            ) == text::starts_with(file_path@, "/"@) && plain_components(self@.path, 0, Seq::empty())
                == plain_components(file_path@, 0, Seq::empty())),
    {
        is_same_path(self.file_path.as_str(), file_path)
    }

    /// The file that holds `working` with the encryption of this package.
    pub fn encrypted_bytes(&self, working: &[u8]) -> (r: Vec<u8>)
        ensures
            r@ == encryption::stored(working@, self@.encrypted, self@.key, self@.header),
    {
        encryption::encrypted_file(working, self.encrypted, self.xor_key, self.header.as_slice())
    }

    /// Takes over the data that was stored.
    pub fn commit(&mut self, working: Vec<u8>) -> (r: Result<(), String>)
        ensures
            match package::package_of(Dialect::Frontend, working@) {
                Ok(package) => r is Ok && final(self)@ == (CacheModel { package, ..old(self)@ }),
                Err(e) => r is Err && r->Err_0@ == e && final(self)@ == old(self)@,
            },
    {
        self.package = Package::parse(Dialect::Frontend, working)?;
        Ok(())
    }
}

/// The session of a package file with these bytes.
pub open spec fn opened(path: Seq<char>, raw: Seq<u8>) -> Result<CacheModel, Seq<char>> {
    let file_name = match paths::file_name_of(path) {
        Some(name) => name,
        None => Seq::empty(),
    };
    match encryption::decrypted(raw, file_name) {
        Err(e) => Err(e),
        Ok(d) => match package::package_of(Dialect::Frontend, d.working) {
            Err(e) => Err(e),
            Ok(package) => Ok(
                CacheModel { path, package, encrypted: d.encrypted, key: d.key, header: d.header },
            ),
        },
    }
}

/// Removes the encryption of the file at `file_path`, whose bytes are `raw`.
pub fn decrypt_raw(file_path: &str, raw: Vec<u8>) -> (r: Result<DecryptedPackage, String>)
    ensures
        encryption::decrypted_result(
            r,
            encryption::decrypted(
                raw@,
                match paths::file_name_of(file_path@) {
                    Some(name) => name,
                    None => Seq::empty(),
                },
            ),
        ),
{
    let name = match paths::file_name(file_path) {
        Some(name) => name,
        None => {
            let none = String::new();
            assert(none@ =~= Seq::<char>::empty());
            none
        },
    };
    encryption::decrypt(raw, name.as_str())
}

/// Opens the package file at `file_path`, whose bytes are `raw`.
pub fn open_cached(file_path: &str, raw: Vec<u8>) -> (r: Result<(CachedUtx, Vec<UtxEntry>), String>)
    ensures
        match r {
            Ok((cache, entries)) => {
                &&& opened(file_path@, raw@) == Ok::<CacheModel, Seq<char>>(cache@)
                &&& listing::listed_in_order(
                    listing::readable_entries(cache@.package, cache@.package.exports.len()),
                    listing::entries_of(entries@),
                )
            },
            Err(message) => opened(file_path@, raw@) == Err::<CacheModel, Seq<char>>(message@),
        },
{
    let decrypted = decrypt_raw(file_path, raw)?;
    let package = Package::parse(Dialect::Frontend, decrypted.working)?;
    let entries = package.scan_entries();
    Ok(
        (
            CachedUtx {
                file_path: file_path.to_owned(),
                package,
                encrypted: decrypted.encrypted,
                xor_key: decrypted.xor_key,
                header: decrypted.header,
            },
            entries,
        ),
    )
}

pub fn cached_list_entries(cache: &CachedUtx) -> (r: Vec<UtxEntry>)
    ensures
        listing::listed_in_order(
            listing::readable_entries(cache@.package, cache@.package.exports.len()),
            listing::entries_of(r@),
        ),
{
    cache.package.scan_entries()
}

/// Lists the textures of the package file at `file_path`.
pub fn list_entries(file_path: &str, raw: Vec<u8>) -> (r: Result<Vec<UtxEntry>, String>)
    ensures
        match r {
            Ok(entries) => {
                &&& opened(file_path@, raw@) matches Ok(cache)
                &&& listing::listed_in_order(
                    listing::readable_entries(cache.package, cache.package.exports.len()),
                    listing::entries_of(entries@),
                )
            },
            Err(message) => opened(file_path@, raw@) == Err::<CacheModel, Seq<char>>(message@),
        },
{
    let (_, entries) = open_cached(file_path, raw)?;
    Ok(entries)
}

/// The PNG file that shows a texture, with its dimensions.
pub open spec fn shown_texture(p: PackageModel, index: int) -> Result<
    (Seq<u8>, i32, i32),
    Seq<char>,
> {
    match listing::entry_of(p, index) {
        Err(e) => Err(e),
        Ok(entry) => if !formats::previewable(entry.format) {
            Err(
                "A pré-visualização não é suportada para "@ + formats::label_of(entry.format) + "."@,
            )
        } else {
            match listing::pixels_of(p, index) {
                Err(e) => Err(e),
                Ok(pixels) => match preview::png_of(pixels, entry.width, entry.height, entry.format) {
                    Err(e) => Err(e),
                    Ok(png) => Ok((png, entry.width, entry.height)),
                },
            }
        },
    }
}

/// A preview that is handed to callers.
pub open spec fn shown_result(
    r: Result<TexturePreview, String>,
    model: Result<(Seq<u8>, i32, i32), Seq<char>>,
) -> bool {
    match r {
        Ok(preview) => {
            &&& model matches Ok((png, width, height))
            &&& preview.data_url@ == preview::data_url(png)
            &&& preview.width == width
            &&& preview.height == height
        },
        Err(message) => model == Err::<(Seq<u8>, i32, i32), Seq<char>>(message@),
    }
}

pub fn cached_preview_texture(cache: &CachedUtx, export_index: usize) -> (r: Result<
    TexturePreview,
    String,
>)
    ensures
        shown_result(r, shown_texture(cache@.package, export_index as int)),
{
    let entry = cache.package.entry_to_model(export_index)?;
    if !entry.format.is_previewable() {
        return Err(
            text::join3("A pré-visualização não é suportada para ", entry.format.label(), "."),
        );
    }
    let pixels = cache.package.mip0_pixels(export_index)?;
    preview::encode_preview(pixels.as_slice(), entry.width, entry.height, entry.format)
}

/// Shows a texture of the package file at `file_path`, whose bytes are `raw`.
pub fn preview_texture(file_path: &str, raw: Vec<u8>, export_index: usize) -> (r: Result<
    TexturePreview,
    String,
>)
    ensures
        match opened(file_path@, raw@) {
            Ok(cache) => shown_result(r, shown_texture(cache.package, export_index as int)),
            Err(e) => r is Err && r->Err_0@ == e,
        },
{
    let (cache, _) = open_cached(file_path, raw)?;
    cached_preview_texture(&cache, export_index)
}

/// Reads the UE2 properties exposed by the texture editor dialog.
pub fn cached_texture_properties(cache: &CachedUtx, export_index: usize) -> (r: Result<
    TextureEditorState,
    String,
>)
    ensures
        text::seen(r) == texture_engine::state_in_file(cache@.package.data, export_index as int),
{
    texture_engine::texture_editor_state(bytes::copy_bytes(cache.package.data.as_slice()), export_index)
}

/// Data of a package that was changed, and the file that holds it.
#[derive(Debug)]
pub struct PackageUpdate {
    pub working: Vec<u8>,
    pub file: Vec<u8>,
}

/// An update that is handed to callers.
pub open spec fn update_result(
    cache: CacheModel,
    r: Result<PackageUpdate, String>,
    model: Result<Seq<u8>, Seq<char>>,
) -> bool {
    match r {
        Ok(update) => {
            &&& model == Ok::<Seq<u8>, Seq<char>>(update.working@)
            &&& update.file@ == encryption::stored(
                update.working@,
                cache.encrypted,
                cache.key,
                cache.header,
            )
        },
        Err(message) => model == Err::<Seq<u8>, Seq<char>>(message@),
    }
}

impl CachedUtx {
    fn update(&self, working: Vec<u8>) -> (r: PackageUpdate)
        ensures
            r.working@ == working@,
            r.file@ == encryption::stored(working@, self@.encrypted, self@.key, self@.header),
    {
        let file = self.encrypted_bytes(working.as_slice());
        PackageUpdate { working, file }
    }
}

/// Changes the editor properties of a texture.
pub fn cached_update_texture_properties(
    cache: &CachedUtx,
    export_index: usize,
    edit: TextureEditorEdit,
) -> (r: Result<PackageUpdate, String>)
    ensures
        update_result(cache@, r, texture_engine::edited_file(cache@.package.data, export_index, edit)),
{
    let working = texture_engine::edit_texture_properties(
        bytes::copy_bytes(cache.package.data.as_slice()),
        export_index,
        edit,
    )?;
    Ok(cache.update(working))
}

/// Changes the editor properties of several textures in one package rewrite,
/// which keeps batch operations atomic and preserves encryption.
pub fn cached_update_texture_properties_batch(
    cache: &CachedUtx,
    edits: &[(usize, TextureEditorEdit)],
) -> (r: Result<PackageUpdate, String>)
    ensures
        update_result(cache@, r, texture_engine::edited_files(cache@.package.data, edits@, edits@.len())),
{
    let working = texture_engine::edit_texture_properties_batch(
        bytes::copy_bytes(cache.package.data.as_slice()),
        edits,
    )?;
    Ok(cache.update(working))
}

/// Duplicates a texture and gives the index of the copy.
pub fn cached_duplicate_texture(
    cache: &CachedUtx,
    source_export_index: usize,
    group_name: &str,
    texture_name: &str,
) -> (r: Result<(PackageUpdate, usize), String>)
    ensures
        match r {
            Ok((update, index)) => {
                &&& texture_engine::duplicated_in_file(
                    cache@.package.data,
                    source_export_index as int,
                    group_name@,
                    texture_name@,
                ) matches Ok((p, i))
                &&& i == index
                &&& p.data == update.working@
                &&& update.file@ == encryption::stored(
                    p.data,
                    cache@.encrypted,
                    cache@.key,
                    cache@.header,
                )
            },
            Err(message) => texture_engine::duplicated_in_file(
                cache@.package.data,
                source_export_index as int,
                group_name@,
                texture_name@,
            ) == Err::<(PackageModel, int), Seq<char>>(message@),
        },
{
    let (working, export_index) = texture_engine::duplicate_texture(
        bytes::copy_bytes(cache.package.data.as_slice()),
        source_export_index,
        group_name,
        texture_name,
    )?;
    Ok((cache.update(working), export_index))
}

/// Renames a texture.
pub fn cached_rename_texture(cache: &CachedUtx, export_index: usize, texture_name: &str) -> (r:
    Result<PackageUpdate, String>)
    ensures
        update_result(
            cache@,
            r,
            texture_engine::renamed_in_file(cache@.package.data, export_index as int, texture_name@),
        ),
{
    let working = texture_engine::rename_texture(
        bytes::copy_bytes(cache.package.data.as_slice()),
        export_index,
        texture_name,
    )?;
    Ok(cache.update(working))
}

/// Package data with one texture replaced by what a file holds.
pub open spec fn replaced_by(d: Seq<u8>, index: usize, texture: ImportedModel) -> Result<
    Seq<u8>,
    Seq<char>,
> {
    match imports::request_of(texture) {
        Err(e) => Err(e),
        Ok(request) => texture_engine::replaced_one_in_file(d, index, request),
    }
}

/// Replaces a texture of package data by what a file holds.
pub fn replace_by(data: &[u8], export_index: usize, texture: ImportedTexture) -> (r: Result<
    Vec<u8>,
    String,
>)
    ensures
        texture_engine::file_result(r, replaced_by(data@, export_index, texture@)),
{
    let request = imports::texture_engine_import_request(texture)?;
    texture_engine::replace_texture(bytes::copy_bytes(data), export_index, &request)
}

/// Replaces a texture by what a file holds.
pub fn cached_replace_entry(cache: &CachedUtx, export_index: usize, texture: ImportedTexture) -> (r:
    Result<PackageUpdate, String>)
    ensures
        update_result(cache@, r, replaced_by(cache@.package.data, export_index, texture@)),
{
    let working = replace_by(cache.package.data.as_slice(), export_index, texture)?;
    Ok(cache.update(working))
}

/// Replaces a texture of a package file by what another file holds, and gives
/// the new package file.
pub fn replace_entry(decrypted: &DecryptedPackage, export_index: usize, texture: ImportedTexture) -> (r:
    Result<Vec<u8>, String>)
    ensures
        texture_engine::file_result(
            r,
            match replaced_by(decrypted@.working, export_index, texture@) {
                Ok(working) => Ok(
                    encryption::stored(working, decrypted@.encrypted, decrypted@.key, decrypted@.header),
                ),
                Err(e) => Err(e),
            },
        ),
{
    let working = replace_by(decrypted.working.as_slice(), export_index, texture)?;
    Ok(encryption::re_encrypt(working.as_slice(), decrypted))
}

/// A file that is to replace a texture.
#[derive(Debug)]
pub struct ReplacementRequest {
    pub export_index: usize,
    pub replacement_path: String,
}

/// How many files were imported, and how many were not.
#[derive(Debug, Clone, Copy, PartialEq, Eq, Structural)]
pub struct ImportSummary {
    pub imported: usize,
    pub skipped: usize,
    pub failed: usize,
}

/// A texture to be replaced, and what the file for it holds or why it could not
/// be read.
#[derive(Debug)]
pub struct PreparedReplacement {
    pub export_index: usize,
    pub result: Result<ImportedTexture, String>,
}

pub struct PreparedReplacementModel {
    pub index: usize,
    pub result: Result<ImportedModel, Seq<char>>,
}

impl View for PreparedReplacement {
    type V = PreparedReplacementModel;

    open spec fn view(&self) -> PreparedReplacementModel {
        PreparedReplacementModel {
            index: self.export_index,
            result: match self.result {
                Ok(texture) => Ok(texture@),
                Err(error) => Err(error@),
            },
        }
    }
}

pub open spec fn prepared_replacements(prepared: Seq<PreparedReplacement>) -> Seq<
    PreparedReplacementModel,
> {
    Seq::new(prepared.len(), |i: int| prepared[i]@)
}

/// Whether a text holds another.
pub open spec fn holds(s: Seq<char>, part: Seq<char>) -> bool {
    exists|i: int|
        0 <= i && i + part.len() <= s.len() && #[trigger] s.subrange(i, i + part.len()) == part
}

/// Package data after one replacement, or why it is left as it was.
pub open spec fn attempted(d: Seq<u8>, one: PreparedReplacementModel) -> Result<
    Seq<u8>,
    Seq<char>,
> {
    match one.result {
        Err(e) => Err(e),
        Ok(texture) => replaced_by(d, one.index, texture),
    }
}

/// Package data after the first `n` replacements, and how they came out: one
/// whose file could not be read has failed, another that does not fit is skipped.
pub open spec fn with_attempts(d: Seq<u8>, prepared: Seq<PreparedReplacementModel>, n: nat) -> (
    Seq<u8>,
    ImportSummary,
)
    decreases n,
{
    if n == 0 {
        (d, ImportSummary { imported: 0, skipped: 0, failed: 0 })
    } else {
        let (before, summary) = with_attempts(d, prepared, (n - 1) as nat);
        match attempted(before, prepared[n - 1]) {
            Ok(after) => (
                after,
                ImportSummary { imported: (summary.imported + 1) as usize, ..summary },
            ),
            Err(e) => if holds(e, "Não foi possível ler"@) {
                (before, ImportSummary { failed: (summary.failed + 1) as usize, ..summary })
            } else {
                (before, ImportSummary { skipped: (summary.skipped + 1) as usize, ..summary })
            },
        }
    }
}

/// Whether a text holds another.
fn contains_text(s: &str, part: &str) -> (r: bool)
    ensures
        r == holds(s@, part@),
{
    let chars = text::chars_of(s);
    let wanted = text::chars_of(part);
    let total: usize = chars.len();
    if wanted.len() > total {
        return false;
    }
    let last: usize = total - wanted.len();
    let mut i: usize = 0;
    while i <= last
        invariant
            total == chars@.len(),
            last + wanted@.len() == total,
            i <= last + 1,
            chars@ == s@,
            wanted@ == part@,
            forall|k: int|
                0 <= k < i ==> #[trigger] s@.subrange(k, k + part@.len()) != part@,
        decreases last + 1 - i,
    {
        if text::equal_chars(
            slice_subrange(chars.as_slice(), i, i + wanted.len()),
            wanted.as_slice(),
        ) {
            assert(s@.subrange(i as int, i + part@.len()) == part@);
            return true;
        }
        assert(s@.subrange(i as int, i + part@.len()) != part@);
        if i == last {
            return false;
        }
        i = i + 1;
    }
    false
}

/// Applies replacements one after the other. A malformed image never changes its
/// texture; the others still go through.
pub fn apply_replacements(data: &[u8], prepared: Vec<PreparedReplacement>) -> (r: (
    Vec<u8>,
    ImportSummary,
))
    ensures
        (r.0@, r.1) == with_attempts(data@, prepared_replacements(prepared@), prepared@.len()),
{
    let ghost all = prepared_replacements(prepared@);
    let total: usize = prepared.len();
    let mut working = bytes::copy_bytes(data);
    let mut summary = ImportSummary { imported: 0, skipped: 0, failed: 0 };
    for one in it: prepared
        invariant
            total == prepared@.len(),
            all == prepared_replacements(prepared@),
            it.seq() == prepared@,
            summary.imported + summary.skipped + summary.failed == it.index(),
            (working@, summary) == with_attempts(data@, all, it.index() as nat),
    {
        let ghost model = one@;
        assert(all[it.index()] == model);
        let attempt = match one.result {
            Ok(texture) => replace_by(working.as_slice(), one.export_index, texture),
            Err(error) => Err(error),
        };
        match attempt {
            Ok(updated) => {
                working = updated;
                summary.imported = summary.imported + 1;
            },
            Err(error) => {
                if contains_text(error.as_str(), "Não foi possível ler") {
                    summary.failed = summary.failed + 1;
                } else {
                    summary.skipped = summary.skipped + 1;
                }
            },
        }
    }
    (working, summary)
}

/// Applies replacements to the package of a session.
pub fn cached_import_entries(cache: &CachedUtx, prepared: Vec<PreparedReplacement>) -> (r: (
    PackageUpdate,
    ImportSummary,
))
    ensures
        (r.0.working@, r.1) == with_attempts(
            cache@.package.data,
            prepared_replacements(prepared@),
            prepared@.len(),
        ),
        r.0.file@ == encryption::stored(r.0.working@, cache@.encrypted, cache@.key, cache@.header),
{
    let (working, summary) = apply_replacements(cache.package.data.as_slice(), prepared);
    (cache.update(working), summary)
}

/// Applies replacements to a package file and gives the new file.
pub fn import_entries(decrypted: &DecryptedPackage, prepared: Vec<PreparedReplacement>) -> (r: (
    Vec<u8>,
    ImportSummary,
))
    ensures
        ({
            let (working, summary) = with_attempts(
                decrypted@.working,
                prepared_replacements(prepared@),
                prepared@.len(),
            );
            &&& r.0@ == encryption::stored(
                working,
                decrypted@.encrypted,
                decrypted@.key,
                decrypted@.header,
            )
            &&& r.1 == summary
        }),
{
    let (working, summary) = apply_replacements(decrypted.working.as_slice(), prepared);
    (encryption::re_encrypt(working.as_slice(), decrypted), summary)
}

/// The file of a new package.
pub open spec fn new_package_file(template: Seq<u8>, name: Seq<char>) -> Result<
    Seq<u8>,
    Seq<char>,
> {
    match texture_engine::empty_package_file(template, NEW_UTX_TEMPLATE_PACKAGE_NAME@, name) {
        Err(e) => Err(e),
        Ok(file) => match package::package_of(Dialect::Frontend, file) {
            Err(e) => Err("O UTX criado a partir do modelo ficou inválido: "@ + e),
            Ok(_) => Ok(file),
        },
    }
}

/// Makes a new package of the given name after the template.
pub fn new_package(template: &[u8], package_name: &str) -> (r: Result<Vec<u8>, String>)
    ensures
        texture_engine::file_result(r, new_package_file(template@, package_name@)),
        names_behind_header(template@) ==> (r matches Ok(file) ==> file_laws::is_new_package(
            template@,
            package_name@,
            file@,
        )),
{
    let file = texture_engine::create_empty_package(template, NEW_UTX_TEMPLATE_PACKAGE_NAME, package_name)?;
    proof {
        if names_behind_header(template@) {
            assert(file@.len() == file.len());
            file_laws::new_packages_are_empty(template@, package_name@);
        }
    }
    match Package::parse(Dialect::Frontend, bytes::copy_bytes(file.as_slice())) {
        Ok(_) => Ok(file),
        Err(error) => Err(
            text::join("O UTX criado a partir do modelo ficou inválido: ", error.as_str()),
        ),
    }
}

/// Whether the names of a package file stand behind its header.
pub open spec fn names_behind_header(d: Seq<u8>) -> bool {
    package::package_of(Dialect::Engine, d) matches Ok(p) && 36 <= p.name_offset
}

/// The file of a new package that is to stand at a path, where there is no file yet
/// and the folder exists.
pub open spec fn created_file(
    template: Seq<u8>,
    path: Seq<char>,
    taken: bool,
    has_directory: bool,
) -> Result<Seq<u8>, Seq<char>> {
    match paths::new_package_name(path, taken, has_directory) {
        Err(e) => Err(e),
        Ok(name) => new_package_file(template, name),
    }
}

/// Creates a new, unencrypted UTX from the Unreal Editor-generated template. The
/// texture seed exports stay only in memory; the generated file starts with its
/// package metadata and no visible assets. A file that is there already is never
/// replaced.
pub fn create_new(template: &[u8], file_path: &str, taken: bool, has_directory: bool) -> (r: Result<
    Vec<u8>,
    String,
>)
    ensures
        texture_engine::file_result(
            r,
            created_file(template@, file_path@, taken, has_directory),
        ),
        taken ==> r is Err,
        r matches Ok(file) ==> {
            &&& paths::stem_of(file_path@) matches Some(name)
            &&& names_behind_header(template@) ==> file_laws::is_new_package(
                template@,
                name,
                file@,
            )
        },
{
    let package_name = paths::validate_new_utx_destination(file_path, taken, has_directory)?;
    new_package(template, package_name.as_str())
}

} // verus!
