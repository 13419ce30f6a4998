//! The texture package engine: creates packages, adds, replaces, duplicates and
//! renames textures, and edits their properties.

use vstd::prelude::*;
use crate::edits::{RequestModel, TextureAnimationImport, TextureImportRequest};
use crate::layout::MipLocation;
use crate::names::{NameEntry, NameModel, NameTable};
use crate::package::{ExportEntry, ImportEntry, Package, PackageModel};
use crate::properties::{TextureEditorEdit, TextureEditorState, TexturePropertyStream};
use crate::reader::Dialect;
use crate::tables::{KeyModel, LimitTexts, Places};
use crate::adding;
use crate::bytes;
use crate::edits;
use crate::names;
use crate::package;
use crate::properties;
use crate::tables;
use crate::text;

verus! {

/// The package version that the engine writes.
pub const UE2_PACKAGE_VERSION: i32 = 118;

/// The licensee version that the engine writes.
pub const UE2_LICENSEE_VERSION: i32 = 0;

/// What became of one imported texture.
#[derive(Debug, Clone, Copy, PartialEq, Eq, Structural)]
pub struct TextureImportOutcome {
    pub export_index: usize,
    pub added: bool,
}

pub open spec fn requests_of(requests: Seq<TextureImportRequest>) -> Seq<RequestModel> {
    Seq::new(requests.len(), |i: int| requests[i]@)
}

impl TextureAnimationImport {
    /// A copy of the settings.
    pub fn copy(&self) -> (r: Self)
        ensures
            r@ == self@,
    {
        TextureAnimationImport {
            anim_next: match &self.anim_next {
                Some(path) => Some(path.clone()),
                None => None,
            },
            max_frame_rate: self.max_frame_rate,
            min_frame_rate: self.min_frame_rate,
            one_time_anim_loop: self.one_time_anim_loop,
            prime_count: self.prime_count,
            total_frame_num: self.total_frame_num,
        }
    }
}

impl TextureImportRequest {
    /// A copy of the request.
    pub fn copy(&self) -> (r: Self)
        ensures
            r@ == self@,
    {
        TextureImportRequest {
            name: self.name.clone(),
            format: self.format,
            width: self.width,
            height: self.height,
            pixels: bytes::copy_bytes(self.pixels.as_slice()),
            alpha: self.alpha,
            masked: self.masked,
            clamp: self.clamp,
            split9: self.split9,
            animation: match &self.animation {
                Some(animation) => Some(animation.copy()),
                None => None,
            },
        }
    }
}

pub open spec fn is_group_name(name: Seq<char>) -> bool {
    text::same_folded(name, "Pacote principal"@) || is_texture_name(name)
}

pub open spec fn is_texture_name(name: Seq<char>) -> bool {
    text::all_ascii(name) && !name.contains('.') && name.len() > 0
}

pub open spec fn group_name_text() -> Seq<char> {
    "O grupo deve usar ASCII, não pode conter ponto e não pode ser vazio."@
}

pub open spec fn texture_name_text() -> Seq<char> {
    "O nome da textura deve usar ASCII, não pode conter ponto e não pode ser vazio."@
}

/// Whether a text is ASCII, free of dots and not empty.
fn is_plain_name(name: &str) -> (r: bool)
    ensures
        r == is_texture_name(name@),
{
    let chars = text::chars_of(name);
    text::is_ascii_text(chars.as_slice()) && !text::contains_char(name, '.') && chars.len() > 0
}

pub fn validate_group_name(group_name: &str) -> (r: Result<(), String>)
    ensures
        text::seen(r) == (if is_group_name(group_name@) {
            Ok::<(), Seq<char>>(())
        } else {
            Err::<(), Seq<char>>(group_name_text())
        }),
{
    if text::equals_folded(group_name, "Pacote principal") || is_plain_name(group_name) {
        Ok(())
    } else {
        Err("O grupo deve usar ASCII, não pode conter ponto e não pode ser vazio.".to_owned())
    }
}

pub fn validate_texture_name(texture_name: &str) -> (r: Result<(), String>)
    ensures
        text::seen(r) == (if is_texture_name(texture_name@) {
            Ok::<(), Seq<char>>(())
        } else {
            Err::<(), Seq<char>>(texture_name_text())
        }),
{
    if is_plain_name(texture_name) {
        Ok(())
    } else {
        Err(
            "O nome da textura deve usar ASCII, não pode conter ponto e não pode ser vazio.".to_owned(),
        )
    }
}

/// The limits of a new package, worded for it.
pub open spec fn new_package_texts() -> LimitTexts {
    LimitTexts {
        names: "Muitos nomes no UTX.",
        size: "UTX grande demais.",
        exports: "Muitas exportações no UTX.",
        imports: "Muitos imports no UTX.",
    }
}

/// A package without exports: header, names and imports of `p`, with the
/// package name replaced.
pub open spec fn empty_package(p: PackageModel, old_name: Seq<char>, new_name: Seq<char>) -> Result<
    Seq<u8>,
    Seq<char>,
> {
    if p.version != UE2_PACKAGE_VERSION || p.licensee != UE2_LICENSEE_VERSION {
        Err("O template não usa a versão UE2 v118 esperada pelo motor."@)
    } else {
        match names::index_in(p.names, old_name) {
            None => Err("O template não possui o nome de pacote esperado."@),
            Some(i) => {
                let names = p.names.update(
                    i as int,
                    NameModel { name: new_name, flags: p.names[i as int].flags },
                );
                match names::names_bytes(Dialect::Engine, names) {
                    Err(e) => Err(e),
                    Ok(name_table) => if p.name_offset > p.data.len() {
                        Err("O cabeçalho do template UTX está truncado."@)
                    } else {
                        let header = p.data.take(p.name_offset as int);
                        let import_offset = header.len() + name_table.len();
                        let export_offset = import_offset + package::imports_bytes(p.imports).len();
                        if export_offset > usize::MAX {
                            Err("O novo UTX excede o limite de tamanho."@)
                        } else {
                            tables::with_places(
                                header + name_table + package::imports_bytes(p.imports),
                                Places {
                                    name_count: names.len() as int,
                                    name_offset: header.len() as int,
                                    export_count: 0,
                                    export_offset: export_offset as int,
                                    import_count: p.imports.len() as int,
                                    import_offset: import_offset as int,
                                },
                                new_package_texts(),
                            )
                        }
                    },
                }
            },
        }
    }
}

/// Tables in which a group has its place, the reference to the group, and the
/// bytes of its object where that is new.
pub struct OuterModel {
    pub names: Seq<NameModel>,
    pub imports: Seq<ImportEntry>,
    pub exports: Seq<ExportEntry>,
    pub outer: i32,
    pub bytes: Seq<u8>,
    pub created: bool,
}

/// The place of a group in a package: where it has one already, or in new
/// tables, with the object right behind the data.
pub open spec fn with_outer(p: PackageModel, group: Seq<char>) -> Result<OuterModel, Seq<char>> {
    match tables::group_outer(p, group) {
        Err(e) => Err(e),
        Ok(Some(outer)) => Ok(
            OuterModel {
                names: p.names,
                imports: p.imports,
                exports: p.exports,
                outer,
                bytes: Seq::empty(),
                created: false,
            },
        ),
        Ok(None) => match tables::with_group(p, group, p.names, p.imports, p.exports) {
            Err(e) => Err(e),
            Ok(new) => match bytes::i32_of_len(p.data.len() as int, "O pacote excede 2 GB."@) {
                Err(e) => Err(e),
                Ok(offset) => Ok(
                    OuterModel {
                        names: new.names,
                        imports: new.imports,
                        exports: new.exports.update(
                            p.exports.len() as int,
                            ExportEntry { offset, ..new.exports[p.exports.len() as int] },
                        ),
                        outer: new.reference,
                        bytes: new.bytes,
                        created: true,
                    },
                ),
            },
        },
    }
}

/// Tables in which a group has its place.
pub struct GroupPlace {
    pub names: NameTable,
    pub imports: Vec<ImportEntry>,
    pub exports: Vec<ExportEntry>,
    pub outer: i32,
    pub bytes: Vec<u8>,
    pub created: bool,
}

impl GroupPlace {
    pub open spec fn model(&self) -> OuterModel {
        OuterModel {
            names: self.names@,
            imports: self.imports@,
            exports: self.exports@,
            outer: self.outer,
            bytes: self.bytes@,
            created: self.created,
        }
    }
}

pub open spec fn name_taken_text(name: Seq<char>, group: Seq<char>) -> Seq<char> {
    "Já existe uma textura chamada \""@ + name + "\" no grupo \""@ + group + "\"."@
}

fn name_taken_message(name: &str, group: &str) -> (r: String)
    ensures
        r@ == name_taken_text(name@, group@),
{
    text::join(text::join3("Já existe uma textura chamada \"", name, "\" no grupo \"").as_str(), text::join(group, "\".").as_str())
}

/// A texture export under another name and group: the same object with its mip
/// pointer led to its new place.
pub open spec fn relocated(bytes: Seq<u8>, mip: MipLocation, at: int) -> Result<
    Seq<u8>,
    Seq<char>,
> {
    let end = at + mip.pixel_offset + mip.size;
    if end > usize::MAX {
        Err("Offset de textura inválido."@)
    } else {
        match bytes::i32_of_len(end, "O pacote excede 2 GB."@) {
            Err(e) => Err(e),
            Ok(value) => bytes::with_i32_at(bytes, mip.width_offset_position as int, value),
        }
    }
}

/// The package with a copy of a texture, once its group has a place.
pub open spec fn with_duplicate(
    p: PackageModel,
    source: ExportEntry,
    mip: MipLocation,
    raw: Seq<u8>,
    place: OuterModel,
    name: Seq<char>,
) -> Result<(PackageModel, int), Seq<char>> {
    let at = p.data.len() + place.bytes.len();
    if at > usize::MAX {
        Err("Tamanho de pacote inválido."@)
    } else {
        match relocated(raw, mip, at as int) {
            Err(e) => Err(e),
            Ok(bytes) => match names::interned(place.names, name) {
                Err(e) => Err(e),
                Ok((names, name_index)) => match bytes::i32_of_len(
                    bytes.len() as int,
                    "A textura é grande demais."@,
                ) {
                    Err(e) => Err(e),
                    Ok(size) => match bytes::i32_of_len(at as int, "O pacote excede 2 GB."@) {
                        Err(e) => Err(e),
                        Ok(offset) => match tables::rebuilt(
                            p,
                            p.data + (place.bytes + bytes),
                            names,
                            place.imports,
                            place.exports.push(
                                ExportEntry {
                                    class: source.class,
                                    super_class: source.super_class,
                                    package: place.outer,
                                    name_index,
                                    flags: source.flags,
                                    size,
                                    offset,
                                },
                            ),
                        ) {
                            Err(e) => Err(e),
                            Ok(after) => Ok((after, place.exports.len() as int)),
                        },
                    },
                },
            },
        }
    }
}

/// The package with a copy of a texture, and the index of the copy.
pub open spec fn duplicated(p: PackageModel, index: int, group: Seq<char>, name: Seq<char>) -> Result<
    (PackageModel, int),
    Seq<char>,
> {
    if !is_group_name(group) {
        Err(group_name_text())
    } else if !is_texture_name(name) {
        Err(texture_name_text())
    } else {
        match tables::texture_named(p, group, name, 0) {
            Err(e) => Err(e),
            Ok(Some(_)) => Err(name_taken_text(name, group)),
            Ok(None) => match package::nth_export(p, index) {
                Err(e) => Err(e),
                Ok(source) => if !package::is_texture_export(Dialect::Engine, p, source) {
                    Err(edits::not_a_texture_text())
                } else {
                    match edits::mip_of(p, index) {
                        Err(e) => Err(e),
                        Ok(mip) => match package::data_of(Dialect::Engine, p.data, source) {
                            Err(e) => Err(e),
                            Ok(raw) => match with_outer(p, group) {
                                Err(e) => Err(e),
                                Ok(place) => with_duplicate(p, source, mip, raw, place, name),
                            },
                        },
                    }
                },
            },
        }
    }
}

/// The package with one texture renamed.
pub open spec fn renamed(p: PackageModel, index: int, name: Seq<char>) -> Result<
    PackageModel,
    Seq<char>,
> {
    if !is_texture_name(name) {
        Err(texture_name_text())
    } else {
        match package::nth_export(p, index) {
            Err(e) => Err(e),
            Ok(source) => if !package::is_texture_export(Dialect::Engine, p, source) {
                Err(edits::not_a_texture_text())
            } else {
                match package::name_of(Dialect::Engine, p, source) {
                    Err(e) => Err(e),
                    Ok(path) => {
                        let group = tables::group_or_main(Dialect::Engine, path);
                        match tables::texture_named(p, group, name, 0) {
                            Err(e) => Err(e),
                            Ok(found) => if found is Some && found != Some(index) {
                                Err(name_taken_text(name, group))
                            } else {
                                match names::interned(p.names, name) {
                                    Err(e) => Err(e),
                                    Ok((names, name_index)) => tables::rebuilt(
                                        p,
                                        p.data,
                                        names,
                                        p.imports,
                                        p.exports.update(
                                            index,
                                            ExportEntry { name_index, ..p.exports[index] },
                                        ),
                                    ),
                                }
                            },
                        }
                    },
                }
            },
        }
    }
}

impl Package {
    /// A package file with the tables of this one but for its exports.
    pub fn create_empty(&self, template_package_name: &str, destination_package_name: &str) -> (r:
        Result<Vec<u8>, String>)
        ensures
            match r {
                Ok(bytes) => empty_package(
                    self@,
                    template_package_name@,
                    destination_package_name@,
                ) == Ok::<Seq<u8>, Seq<char>>(bytes@),
                Err(message) => empty_package(
                    self@,
                    template_package_name@,
                    destination_package_name@,
                ) == Err::<Seq<u8>, Seq<char>>(message@),
            },
    {
        if self.version != UE2_PACKAGE_VERSION || self.licensee != UE2_LICENSEE_VERSION {
            return Err("O template não usa a versão UE2 v118 esperada pelo motor.".to_owned());
        }
        let mut names = self.names.copy();
        let i: usize = match names.index_of(template_package_name) {
            Some(index) => index as usize,
            None => return Err("O template não possui o nome de pacote esperado.".to_owned()),
        };
        proof {
            names::find_name_is_first(self@.names, template_package_name@, 0);
        }
        let entry = NameEntry {
            name: destination_package_name.to_owned(),
            flags: names.entries[i].flags,
        };
        let ghost model = entry@;
        names.entries.set(i, entry);
        assert(names@ =~= self@.names.update(i as int, model));
        let name_table = names.serialize()?;
        if self.name_offset > self.data.len() {
            return Err("O cabeçalho do template UTX está truncado.".to_owned());
        }
        let mut output = bytes::copy_range(self.data.as_slice(), 0, self.name_offset);
        assert(output@ =~= self@.data.take(self.name_offset as int));
        let import_table = package::serialize_import_table(self.imports.as_slice());
        let import_offset: usize = match output.len().checked_add(name_table.len()) {
            Some(offset) => offset,
            None => return Err("O novo UTX excede o limite de tamanho.".to_owned()),
        };
        let export_offset: usize = match import_offset.checked_add(import_table.len()) {
            Some(offset) => offset,
            None => return Err("O novo UTX excede o limite de tamanho.".to_owned()),
        };
        bytes::append(&mut output, name_table.as_slice());
        bytes::append(&mut output, import_table.as_slice());
        tables::store_places(
            &mut output,
            names.entries.len(),
            self.name_offset,
            0,
            export_offset,
            self.imports.len(),
            import_offset,
            LimitTexts {
                names: "Muitos nomes no UTX.",
                size: "UTX grande demais.",
                exports: "Muitas exportações no UTX.",
                imports: "Muitos imports no UTX.",
            },
        )?;
        Ok(output)
    }

    pub fn place_group(&self, group_name: &str) -> (r: Result<GroupPlace, String>)
        ensures
            match r {
                Ok(place) => with_outer(self@, group_name@) == Ok::<OuterModel, Seq<char>>(
                    place.model(),
                ),
                Err(message) => with_outer(self@, group_name@) == Err::<OuterModel, Seq<char>>(
                    message@,
                ),
            },
    {
        let mut names = self.names.copy();
        let mut imports = package::copy_imports(self.imports.as_slice());
        let mut exports = package::copy_exports(self.exports.as_slice());
        match self.group_outer_for_name(group_name)? {
            Some(outer) => {
                let bytes: Vec<u8> = Vec::new();
                Ok(GroupPlace { names, imports, exports, outer, bytes, created: false })
            },
            None => {
                let group_index: usize = exports.len();
                let (outer, bytes) = self.create_group(
                    group_name,
                    &mut names,
                    &mut imports,
                    &mut exports,
                )?;
                let offset: i32 = bytes::checked_i32(self.data.len(), "O pacote excede 2 GB.")?;
                let mut entry = exports[group_index];
                entry.offset = offset;
                exports[group_index] = entry;
                Ok(GroupPlace { names, imports, exports, outer, bytes, created: true })
            },
        }
    }

    /// Adds a copy of a texture and gives the index of the copy.
    pub fn duplicate_texture(
        &mut self,
        source_export_index: usize,
        group_name: &str,
        texture_name: &str,
    ) -> (r: Result<usize, String>)
        ensures
            match r {
                Ok(index) => duplicated(
                    old(self)@,
                    source_export_index as int,
                    group_name@,
                    texture_name@,
                ) == Ok::<(PackageModel, int), Seq<char>>((final(self)@, index as int)),
                Err(message) => {
                    &&& duplicated(
                        old(self)@,
                        source_export_index as int,
                        group_name@,
                        texture_name@,
                    ) == Err::<(PackageModel, int), Seq<char>>(message@)
                    &&& final(self)@ == old(self)@
                },
            },
    {
        validate_group_name(group_name)?;
        validate_texture_name(texture_name)?;
        if self.find_texture_in_group(group_name, texture_name)?.is_some() {
            return Err(name_taken_message(texture_name, group_name));
        }
        let source = self.export(source_export_index)?;
        if !self.is_texture(Dialect::Engine, &source) {
            return Err("A entrada selecionada não é uma textura Engine.Texture.".to_owned());
        }
        let mip = self.mip0_location(source_export_index)?;
        let mut bytes = bytes::copy_bytes(self.export_data(Dialect::Engine, &source)?);
        let mut place = self.place_group(group_name)?;
        let ghost placed = place.model();
        let at: usize = match self.data.len().checked_add(place.bytes.len()) {
            Some(at) => at,
            None => return Err("Tamanho de pacote inválido.".to_owned()),
        };
        let pixels: usize = match at.checked_add(mip.pixel_offset) {
            Some(pixels) => pixels,
            None => return Err("Offset de textura inválido.".to_owned()),
        };
        let end: usize = match pixels.checked_add(mip.size) {
            Some(end) => end,
            None => return Err("Offset de textura inválido.".to_owned()),
        };
        let value: i32 = bytes::checked_i32(end, "O pacote excede 2 GB.")?;
        bytes::write_i32_at(&mut bytes, mip.width_offset_position, value)?;
        let name_index: i32 = place.names.intern(texture_name)?;
        let size: i32 = bytes::checked_i32(bytes.len(), "A textura é grande demais.")?;
        let offset: i32 = bytes::checked_i32(at, "O pacote excede 2 GB.")?;
        let export_index: usize = place.exports.len();
        place.exports.push(
            ExportEntry {
                class: source.class,
                super_class: source.super_class,
                package: place.outer,
                name_index,
                flags: source.flags,
                size,
                offset,
            },
        );
        bytes::append(&mut place.bytes, bytes.as_slice());
        self.rewrite_tables(place.names, place.imports, place.exports, place.bytes.as_slice())?;
        Ok(export_index)
    }

    /// Gives a texture another name.
    pub fn rename_texture(&mut self, export_index: usize, texture_name: &str) -> (r: Result<
        (),
        String,
    >)
        ensures
            match r {
                Ok(()) => renamed(old(self)@, export_index as int, texture_name@) == Ok::<
                    PackageModel,
                    Seq<char>,
                >(final(self)@),
                Err(message) => {
                    &&& renamed(old(self)@, export_index as int, texture_name@) == Err::<
                        PackageModel,
                        Seq<char>,
                    >(message@)
                    &&& final(self)@ == old(self)@
                },
            },
    {
        validate_texture_name(texture_name)?;
        let source = self.export(export_index)?;
        if !self.is_texture(Dialect::Engine, &source) {
            return Err("A entrada selecionada não é uma textura Engine.Texture.".to_owned());
        }
        let source_name = self.inner_name(Dialect::Engine, &source)?;
        let group_name = tables::texture_group_or_main(Dialect::Engine, source_name.as_str());
        if let Some(existing) = self.find_texture_in_group(group_name.as_str(), texture_name)? {
            if existing != export_index {
                return Err(name_taken_message(texture_name, group_name.as_str()));
            }
        }
        let mut names = self.names.copy();
        let mut exports = package::copy_exports(self.exports.as_slice());
        let name_index: i32 = names.intern(texture_name)?;
        let mut entry = exports[export_index];
        entry.name_index = name_index;
        exports[export_index] = entry;
        let data = bytes::copy_bytes(self.data.as_slice());
        let imports = package::copy_imports(self.imports.as_slice());
        self.rewrite_tables_from_data(data, names, imports, exports)
    }
}


/// What an operation on the package stored in `d` gives: the failure to read
/// it, or else the data of the package that comes out.
pub open spec fn data_after(result: Result<PackageModel, Seq<char>>) -> Result<
    Seq<u8>,
    Seq<char>,
> {
    match result {
        Err(e) => Err(e),
        Ok(p) => Ok(p.data),
    }
}

/// The file of an empty package made from a template file.
pub open spec fn empty_package_file(d: Seq<u8>, old_name: Seq<char>, new_name: Seq<char>) -> Result<
    Seq<u8>,
    Seq<char>,
> {
    match package::package_of(Dialect::Engine, d) {
        Err(e) => Err(e),
        Ok(p) => empty_package(p, old_name, new_name),
    }
}

/// Creates a clean UTX from the editor-generated template. The template's
/// exports are intentionally omitted; only the package structure remains.
pub fn create_empty_package(
    template_data: &[u8],
    template_package_name: &str,
    destination_package_name: &str,
) -> (r: Result<Vec<u8>, String>)
    ensures
        match r {
            Ok(bytes) => empty_package_file(
                template_data@,
                template_package_name@,
                destination_package_name@,
            ) == Ok::<Seq<u8>, Seq<char>>(bytes@),
            Err(message) => empty_package_file(
                template_data@,
                template_package_name@,
                destination_package_name@,
            ) == Err::<Seq<u8>, Seq<char>>(message@),
        },
{
    let template = Package::parse(Dialect::Engine, bytes::copy_bytes(template_data))?;
    template.create_empty(template_package_name, destination_package_name)
}

/// The package of a file with new textures, and what became of each.
pub open spec fn added_to_file(
    d: Seq<u8>,
    template: Seq<u8>,
    group: Seq<char>,
    requests: Seq<RequestModel>,
) -> Result<(PackageModel, Seq<TextureImportOutcome>), Seq<char>> {
    match package::package_of(Dialect::Engine, d) {
        Err(e) => Err(e),
        Ok(p) => match package::package_of(Dialect::Engine, template) {
            Err(e) => Err(e),
            Ok(t) => adding::with_added(p, t, group, requests),
        },
    }
}

/// What an import hands back: the data of the package and the outcomes.
pub open spec fn import_result(
    r: Result<(Vec<u8>, Vec<TextureImportOutcome>), String>,
    model: Result<(PackageModel, Seq<TextureImportOutcome>), Seq<char>>,
) -> bool {
    match r {
        Ok((data, outcomes)) => model matches Ok((p, o)) && p.data == data@ && o == outcomes@,
        Err(message) => model == Err::<(PackageModel, Seq<TextureImportOutcome>), Seq<char>>(
            message@,
        ),
    }
}

/// Adds texture exports through the native package writer. `template_data` is
/// used only when the target does not already contain a compatible structural
/// seed (`Common`, `TlpSpt9`, or `TlpAnim`).
pub fn import_new_textures(
    package_data: Vec<u8>,
    template_data: &[u8],
    package_name: &str,
    textures: &[TextureImportRequest],
) -> (r: Result<(Vec<u8>, Vec<TextureImportOutcome>), String>)
    ensures
        import_result(
            r,
            added_to_file(
                package_data@,
                template_data@,
                package_name@,
                requests_of(textures@),
            ),
        ),
{
    let mut package = Package::parse(Dialect::Engine, package_data)?;
    let template = Package::parse(Dialect::Engine, bytes::copy_bytes(template_data))?;
    let outcomes = package.add_textures(&template, package_name, textures)?;
    Ok((package.data, outcomes))
}

pub struct ReplacementModel {
    pub index: usize,
    pub request: RequestModel,
}

pub open spec fn replacements_of(replacements: Seq<(usize, TextureImportRequest)>) -> Seq<
    ReplacementModel,
> {
    Seq::new(
        replacements.len(),
        |i: int| ReplacementModel { index: replacements[i].0, request: replacements[i].1@ },
    )
}

/// The package after the pixels of the first `n` replacements were stored, and
/// the edits that they ask for beside.
pub open spec fn with_replacements(
    p: PackageModel,
    replacements: Seq<ReplacementModel>,
    n: nat,
) -> Result<(PackageModel, Seq<(usize, TextureEditorEdit)>), Seq<char>>
    decreases n,
{
    if n == 0 {
        Ok((p, Seq::empty()))
    } else {
        let one = replacements[n - 1];
        match with_replacements(p, replacements, (n - 1) as nat) {
            Err(e) => Err(e),
            Ok((before, edits)) => match edits::with_pixels(before, one.index as int, one.request.image) {
                Err(e) => Err(e),
                Ok(after) => match edits::import_edit_of(after, one.request, one.index as int) {
                    Err(e) => Err(e),
                    Ok(None) => Ok((after, edits)),
                    Ok(Some(edit)) => Ok((after, edits.push((one.index, edit)))),
                },
            },
        }
    }
}

proof fn with_replacements_error_spreads(
    p: PackageModel,
    replacements: Seq<ReplacementModel>,
    k: nat,
    n: nat,
)
    requires
        k <= n,
        with_replacements(p, replacements, k) is Err,
    ensures
        with_replacements(p, replacements, n) == with_replacements(p, replacements, k),
    decreases n,
{
    if k < n {
        with_replacements_error_spreads(p, replacements, k, (n - 1) as nat);
    }
}

pub open spec fn replaced_outcomes(replacements: Seq<ReplacementModel>) -> Seq<
    TextureImportOutcome,
> {
    Seq::new(
        replacements.len(),
        |i: int| TextureImportOutcome { export_index: replacements[i].index, added: false },
    )
}

/// The package with textures replaced in place, and what became of each.
pub open spec fn replaced_all(p: PackageModel, replacements: Seq<ReplacementModel>) -> Result<
    (PackageModel, Seq<TextureImportOutcome>),
    Seq<char>,
> {
    match with_replacements(p, replacements, replacements.len()) {
        Err(e) => Err(e),
        Ok((after, edits)) => match edits::edited_in_place_all(after, edits, edits.len()) {
            Err(e) => Err(e),
            Ok(last) => Ok((last, replaced_outcomes(replacements))),
        },
    }
}

pub open spec fn replaced_in_file(d: Seq<u8>, replacements: Seq<ReplacementModel>) -> Result<
    (PackageModel, Seq<TextureImportOutcome>),
    Seq<char>,
> {
    match package::package_of(Dialect::Engine, d) {
        Err(e) => Err(e),
        Ok(p) => replaced_all(p, replacements),
    }
}

/// Replaces known exports without rebuilding package tables. Callers that
/// already indexed the UTX can provide export indices directly, avoiding the
/// add-or-replace ambiguity of a mixed import and keeping existing serial
/// layouts intact.
pub fn replace_existing_textures(
    package_data: Vec<u8>,
    replacements: &[(usize, TextureImportRequest)],
) -> (r: Result<(Vec<u8>, Vec<TextureImportOutcome>), String>)
    ensures
        import_result(r, replaced_in_file(package_data@, replacements_of(replacements@))),
{
    let ghost models = replacements_of(replacements@);
    let mut package = Package::parse(Dialect::Engine, package_data)?;
    let ghost start = package@;
    let mut edits: Vec<(usize, TextureEditorEdit)> = Vec::new();
    let mut outcomes: Vec<TextureImportOutcome> = Vec::new();
    let mut i: usize = 0;
    while i < replacements.len()
        invariant
            i <= replacements@.len(),
            models == replacements_of(replacements@),
            package::package_of(Dialect::Engine, package_data@) == Ok::<PackageModel, Seq<char>>(start),
            with_replacements(start, models, i as nat) == Ok::<
                (PackageModel, Seq<(usize, TextureEditorEdit)>),
                Seq<char>,
            >((package@, edits@)),
            outcomes@ =~= replaced_outcomes(models).take(i as int),
        decreases replacements.len() - i,
    {
        let (export_index, texture) = &replacements[i];
        proof {
            assert(models[i as int].request == texture@);
            if with_replacements(start, models, (i + 1) as nat) is Err {
                with_replacements_error_spreads(start, models, (i + 1) as nat, models.len());
            }
        }
        package.replace_pixels(*export_index, texture)?;
        if let Some(edit) = package.import_edit(texture, *export_index)? {
            edits.push((*export_index, edit));
        }
        outcomes.push(TextureImportOutcome { export_index: *export_index, added: false });
        i = i + 1;
    }
    assert(replaced_outcomes(models).take(i as int) =~= replaced_outcomes(models));
    package.apply_texture_edits_in_place(&edits)?;
    Ok((package.data, outcomes))
}

/// The export that a request replaces, if its name stands in the group already.
pub open spec fn existing_of(keys: Seq<KeyModel>, group: Seq<char>, request: RequestModel) -> Option<
    int,
> {
    tables::find_key(keys, tables::lookup_key(group, request.name), 0)
}

/// The first `n` requests sorted into those that replace a texture, whose
/// pixels are stored, and those that add one.
pub struct SortedModel {
    pub package: PackageModel,
    pub replaced: Seq<RequestModel>,
    pub targets: Seq<usize>,
    pub added: Seq<RequestModel>,
}

pub open spec fn sorted_requests(
    p: PackageModel,
    keys: Seq<KeyModel>,
    group: Seq<char>,
    requests: Seq<RequestModel>,
    n: nat,
) -> Result<SortedModel, Seq<char>>
    decreases n,
{
    if n == 0 {
        Ok(
            SortedModel {
                package: p,
                replaced: Seq::empty(),
                targets: Seq::empty(),
                added: Seq::empty(),
            },
        )
    } else {
        let request = requests[n - 1];
        match sorted_requests(p, keys, group, requests, (n - 1) as nat) {
            Err(e) => Err(e),
            Ok(before) => match existing_of(keys, group, request) {
                None => Ok(SortedModel { added: before.added.push(request), ..before }),
                Some(index) => match edits::with_pixels(before.package, index, request.image) {
                    Err(e) => Err(e),
                    Ok(package) => Ok(
                        SortedModel {
                            package,
                            replaced: before.replaced.push(request),
                            targets: before.targets.push(index as usize),
                            added: before.added,
                        },
                    ),
                },
            },
        }
    }
}

proof fn sorted_requests_error_spreads(
    p: PackageModel,
    keys: Seq<KeyModel>,
    group: Seq<char>,
    requests: Seq<RequestModel>,
    k: nat,
    n: nat,
)
    requires
        k <= n,
        sorted_requests(p, keys, group, requests, k) is Err,
    ensures
        sorted_requests(p, keys, group, requests, n) == sorted_requests(
            p,
            keys,
            group,
            requests,
            k,
        ),
    decreases n,
{
    if k < n {
        sorted_requests_error_spreads(p, keys, group, requests, k, (n - 1) as nat);
    }
}

/// How many of the first `n` requests add a texture.
pub open spec fn additions_before(
    keys: Seq<KeyModel>,
    group: Seq<char>,
    requests: Seq<RequestModel>,
    n: nat,
) -> nat
    decreases n,
{
    if n == 0 {
        0
    } else {
        additions_before(keys, group, requests, (n - 1) as nat) + if existing_of(
            keys,
            group,
            requests[n - 1],
        ) is None {
            1nat
        } else {
            0
        }
    }
}

/// The outcome of each request, in the order of the requests.
pub open spec fn merged_outcomes(
    keys: Seq<KeyModel>,
    group: Seq<char>,
    requests: Seq<RequestModel>,
    added: Seq<TextureImportOutcome>,
) -> Seq<TextureImportOutcome> {
    Seq::new(
        requests.len(),
        |i: int|
            match existing_of(keys, group, requests[i]) {
                Some(index) => TextureImportOutcome { export_index: index as usize, added: false },
                None => added[additions_before(keys, group, requests, i as nat) as int],
            },
    )
}

/// The package with each request replaced or added, and what became of each.
pub open spec fn imported(
    p: PackageModel,
    template: PackageModel,
    group: Seq<char>,
    requests: Seq<RequestModel>,
) -> Result<(PackageModel, Seq<TextureImportOutcome>), Seq<char>> {
    match tables::texture_keys(p, p.exports.len()) {
        Err(e) => Err(e),
        Ok(keys) => match sorted_requests(p, keys, group, requests, requests.len()) {
            Err(e) => Err(e),
            Ok(sorted) => match adding::with_added(sorted.package, template, group, sorted.added) {
                Err(e) => Err(e),
                Ok((grown, added)) => match adding::import_edits(
                    grown,
                    sorted.replaced,
                    sorted.targets,
                    sorted.replaced.len(),
                ) {
                    Err(e) => Err(e),
                    Ok(edits) => match edits::edited_in_place_all(grown, edits, edits.len()) {
                        Err(e) => Err(e),
                        Ok(last) => Ok((last, merged_outcomes(keys, group, requests, added))),
                    },
                },
            },
        },
    }
}

pub open spec fn imported_into_file(
    d: Seq<u8>,
    template: Seq<u8>,
    group: Seq<char>,
    requests: Seq<RequestModel>,
) -> Result<(PackageModel, Seq<TextureImportOutcome>), Seq<char>> {
    match package::package_of(Dialect::Engine, d) {
        Err(e) => Err(e),
        Ok(p) => match package::package_of(Dialect::Engine, template) {
            Err(e) => Err(e),
            Ok(t) => imported(p, t, group, requests),
        },
    }
}

proof fn sorted_lengths(
    p: PackageModel,
    keys: Seq<KeyModel>,
    group: Seq<char>,
    requests: Seq<RequestModel>,
    n: nat,
)
    ensures
        sorted_requests(p, keys, group, requests, n) matches Ok(sorted) ==> {
            &&& sorted.added.len() == additions_before(keys, group, requests, n)
            &&& sorted.replaced.len() == sorted.targets.len()
        },
    decreases n,
{
    if n > 0 {
        sorted_lengths(p, keys, group, requests, (n - 1) as nat);
    }
}

proof fn added_length(
    p: PackageModel,
    template: PackageModel,
    group: Seq<char>,
    requests: Seq<RequestModel>,
)
    ensures
        adding::with_added(p, template, group, requests) matches Ok((_, added)) ==> added.len()
            == requests.len(),
{
    reveal(adding::with_added);
}

proof fn additions_grow(
    keys: Seq<KeyModel>,
    group: Seq<char>,
    requests: Seq<RequestModel>,
    k: nat,
    n: nat,
)
    requires
        k <= n,
    ensures
        additions_before(keys, group, requests, k) <= additions_before(keys, group, requests, n),
    decreases n,
{
    if k < n {
        additions_grow(keys, group, requests, k, (n - 1) as nat);
    }
}

/// Puts the outcomes of added textures among those of replaced ones.
fn merge_outcomes(
    found: &[Option<usize>],
    added: &[TextureImportOutcome],
    Ghost(keys): Ghost<Seq<KeyModel>>,
    Ghost(group): Ghost<Seq<char>>,
    Ghost(requests): Ghost<Seq<RequestModel>>,
) -> (r: Vec<TextureImportOutcome>)
    requires
        found@.len() == requests.len(),
        added@.len() == additions_before(keys, group, requests, requests.len()),
        forall|k: int|
            0 <= k < requests.len() ==> match #[trigger] found@[k] {
                Some(index) => existing_of(keys, group, requests[k]) == Some(index as int),
                None => existing_of(keys, group, requests[k]) is None,
            },
    ensures
        r@ == merged_outcomes(keys, group, requests, added@),
{
    let mut outcomes: Vec<TextureImportOutcome> = Vec::new();
    let total: usize = added.len();
    let mut next: usize = 0;
    let mut k: usize = 0;
    let ghost merged = merged_outcomes(keys, group, requests, added@);
    while k < found.len()
        invariant
            k <= found@.len(),
            found@.len() == requests.len(),
            merged == merged_outcomes(keys, group, requests, added@),
            total == added@.len(),
            added@.len() == additions_before(keys, group, requests, requests.len()),
            next == additions_before(keys, group, requests, k as nat),
            outcomes@ =~= merged.take(k as int),
            forall|k: int|
                0 <= k < requests.len() ==> match #[trigger] found@[k] {
                    Some(index) => existing_of(keys, group, requests[k]) == Some(
                        index as int,
                    ),
                    None => existing_of(keys, group, requests[k]) is None,
                },
        decreases found.len() - k,
    {
        proof {
            additions_grow(keys, group, requests, (k + 1) as nat, requests.len());
        }
        match found[k] {
            Some(export_index) => outcomes.push(
                TextureImportOutcome { export_index, added: false },
            ),
            None => {
                assert(next < total);
                outcomes.push(added[next]);
                next = next + 1;
            },
        }
        k = k + 1;
    }
    assert(merged.take(k as int) =~= merged);
    outcomes
}

/// Native import flow used by the UTX frontend: matching names are replaced;
/// unmatched names are created in the selected group. All property changes are
/// written by this engine after the final export layout is known.
pub fn import_textures(
    package_data: Vec<u8>,
    template_data: &[u8],
    package_name: &str,
    textures: &[TextureImportRequest],
) -> (r: Result<(Vec<u8>, Vec<TextureImportOutcome>), String>)
    ensures
        import_result(
            r,
            imported_into_file(
                package_data@,
                template_data@,
                package_name@,
                requests_of(textures@),
            ),
        ),
{
    let ghost requests = requests_of(textures@);
    let mut package = Package::parse(Dialect::Engine, package_data)?;
    let template = Package::parse(Dialect::Engine, bytes::copy_bytes(template_data))?;
    let ghost start = package@;
    let existing = package.texture_index_by_group()?;
    let ghost keys = tables::keys_of(existing@);
    let mut replaced: Vec<TextureImportRequest> = Vec::new();
    let mut targets: Vec<usize> = Vec::new();
    let mut additions: Vec<TextureImportRequest> = Vec::new();
    let mut found: Vec<Option<usize>> = Vec::new();
    assert(requests_of(replaced@) =~= Seq::<RequestModel>::empty());
    let mut i: usize = 0;
    while i < textures.len()
        invariant
            i <= textures@.len(),
            requests == requests_of(textures@),
            keys == tables::keys_of(existing@),
            sorted_requests(start, keys, package_name@, requests, i as nat) == Ok::<
                SortedModel,
                Seq<char>,
            >(
                SortedModel {
                    package: package@,
                    replaced: requests_of(replaced@),
                    targets: targets@,
                    added: requests_of(additions@),
                },
            ),
            found@.len() == i,
            forall|k: int|
                0 <= k < i ==> match #[trigger] found@[k] {
                    Some(index) => existing_of(keys, package_name@, requests[k]) == Some(
                        index as int,
                    ),
                    None => existing_of(keys, package_name@, requests[k]) is None,
                },
            package::package_of(Dialect::Engine, package_data@) == Ok::<PackageModel, Seq<char>>(start),
            package::package_of(Dialect::Engine, template_data@) == Ok::<PackageModel, Seq<char>>(template@),
            tables::texture_keys(start, start.exports.len()) == Ok::<Seq<KeyModel>, Seq<char>>(keys),
        decreases textures.len() - i,
    {
        let texture = &textures[i];
        proof {
            assert(requests[i as int] == texture@);
            if sorted_requests(start, keys, package_name@, requests, (i + 1) as nat) is Err {
                sorted_requests_error_spreads(
                    start,
                    keys,
                    package_name@,
                    requests,
                    (i + 1) as nat,
                    requests.len(),
                );
            }
        }
        let key = tables::texture_lookup_key(package_name, texture.name.as_str());
        let hit = tables::look_up(existing.as_slice(), key.as_str());
        let copied = texture.copy();
        let ghost replaced_before = requests_of(replaced@);
        let ghost added_before = requests_of(additions@);
        match hit {
            Some(export_index) => {
                package.replace_pixels(export_index, texture)?;
                replaced.push(copied);
                targets.push(export_index);
                assert(requests_of(replaced@) =~= replaced_before.push(texture@));
            },
            None => {
                additions.push(copied);
                assert(requests_of(additions@) =~= added_before.push(texture@));
            },
        }
        found.push(hit);
        i = i + 1;
    }
    proof {
        sorted_lengths(start, keys, package_name@, requests, requests.len());
        added_length(package@, template@, package_name@, requests_of(additions@));
    }
    let added = package.add_textures(&template, package_name, additions.as_slice())?;
    let edits = package.import_edits(replaced.as_slice(), targets.as_slice())?;
    package.apply_texture_edits_in_place(&edits)?;
    let outcomes = merge_outcomes(
        found.as_slice(),
        added.as_slice(),
        Ghost(keys),
        Ghost(package_name@),
        Ghost(requests),
    );
    Ok((package.data, outcomes))
}

/// The package with one texture replaced in place.
pub open spec fn replaced_one(p: PackageModel, index: usize, request: RequestModel) -> Result<
    PackageModel,
    Seq<char>,
> {
    match edits::with_pixels(p, index as int, request.image) {
        Err(e) => Err(e),
        Ok(after) => match edits::import_edit_of(after, request, index as int) {
            Err(e) => Err(e),
            Ok(None) => Ok(after),
            Ok(Some(edit)) => edits::edited_in_place(after, index as int, edit),
        },
    }
}

/// What a change of the package stored in `d` gives.
pub open spec fn file_result(r: Result<Vec<u8>, String>, model: Result<Seq<u8>, Seq<char>>) -> bool {
    match r {
        Ok(data) => model == Ok::<Seq<u8>, Seq<char>>(data@),
        Err(message) => model == Err::<Seq<u8>, Seq<char>>(message@),
    }
}

pub open spec fn replaced_one_in_file(d: Seq<u8>, index: usize, request: RequestModel) -> Result<
    Seq<u8>,
    Seq<char>,
> {
    match package::package_of(Dialect::Engine, d) {
        Err(e) => Err(e),
        Ok(p) => data_after(replaced_one(p, index, request)),
    }
}

/// Replaces one existing texture through the native writer while retaining all
/// untouched texture properties. Package tables and serialized sizes stay as
/// they are.
pub fn replace_texture(
    package_data: Vec<u8>,
    export_index: usize,
    texture: &TextureImportRequest,
) -> (r: Result<Vec<u8>, String>)
    ensures
        file_result(r, replaced_one_in_file(package_data@, export_index, texture@)),
{
    let mut package = Package::parse(Dialect::Engine, package_data)?;
    package.replace_pixels(export_index, texture)?;
    if let Some(edit) = package.import_edit(texture, export_index)? {
        let mut edits: Vec<(usize, TextureEditorEdit)> = Vec::new();
        edits.push((export_index, edit));
        proof {
            reveal_with_fuel(edits::edited_in_place_all, 2);
        }
        package.apply_texture_edits_in_place(&edits)?;
    }
    Ok(package.data)
}

pub open spec fn duplicated_in_file(
    d: Seq<u8>,
    index: int,
    group: Seq<char>,
    name: Seq<char>,
) -> Result<(PackageModel, int), Seq<char>> {
    match package::package_of(Dialect::Engine, d) {
        Err(e) => Err(e),
        Ok(p) => duplicated(p, index, group, name),
    }
}

/// Clones an existing texture export into the requested group. The texture
/// payload and property stream are copied byte-for-byte; only the export name,
/// outer group, and relocated mip pointer are changed.
pub fn duplicate_texture(
    package_data: Vec<u8>,
    source_export_index: usize,
    group_name: &str,
    texture_name: &str,
) -> (r: Result<(Vec<u8>, usize), String>)
    ensures
        match r {
            Ok((data, index)) => {
                &&& duplicated_in_file(
                    package_data@,
                    source_export_index as int,
                    group_name@,
                    texture_name@,
                ) matches Ok((p, i))
                &&& p.data == data@
                &&& i == index
            },
            Err(message) => duplicated_in_file(
                package_data@,
                source_export_index as int,
                group_name@,
                texture_name@,
            ) == Err::<(PackageModel, int), Seq<char>>(message@),
        },
{
    let mut package = Package::parse(Dialect::Engine, package_data)?;
    let export_index: usize = package.duplicate_texture(
        source_export_index,
        group_name,
        texture_name,
    )?;
    Ok((package.data, export_index))
}

pub open spec fn renamed_in_file(d: Seq<u8>, index: int, name: Seq<char>) -> Result<
    Seq<u8>,
    Seq<char>,
> {
    match package::package_of(Dialect::Engine, d) {
        Err(e) => Err(e),
        Ok(p) => data_after(renamed(p, index, name)),
    }
}

/// Renames one texture export without changing its object index, payload, or
/// property stream. UE2 object references therefore remain intact.
pub fn rename_texture(package_data: Vec<u8>, export_index: usize, texture_name: &str) -> (r: Result<
    Vec<u8>,
    String,
>)
    ensures
        file_result(r, renamed_in_file(package_data@, export_index as int, texture_name@)),
{
    let mut package = Package::parse(Dialect::Engine, package_data)?;
    package.rename_texture(export_index, texture_name)?;
    Ok(package.data)
}

/// The editable properties of one texture of a package.
pub open spec fn state_in(p: PackageModel, index: int) -> Result<TextureEditorState, Seq<char>> {
    match package::nth_export(p, index) {
        Err(e) => Err(e),
        Ok(export) => if !package::is_texture_export(Dialect::Engine, p, export) {
            Err(edits::not_a_texture_text())
        } else {
            match package::data_of(Dialect::Engine, p.data, export) {
                Err(e) => Err(e),
                Ok(raw) => match properties::stream_from(raw, p.names, 0) {
                    Err(e) => Err(e),
                    Ok(stream) => Ok(properties::state_of(stream.properties)),
                },
            }
        },
    }
}

pub open spec fn state_in_file(d: Seq<u8>, index: int) -> Result<TextureEditorState, Seq<char>> {
    match package::package_of(Dialect::Engine, d) {
        Err(e) => Err(e),
        Ok(p) => state_in(p, index),
    }
}

/// Returns the editable UE2 properties for one `Engine.Texture` export.
pub fn texture_editor_state(package_data: Vec<u8>, export_index: usize) -> (r: Result<
    TextureEditorState,
    String,
>)
    ensures
        text::seen(r) == state_in_file(package_data@, export_index as int),
{
    let package = Package::parse(Dialect::Engine, package_data)?;
    let export = package.export(export_index)?;
    if !package.is_texture(Dialect::Engine, &export) {
        return Err("A entrada selecionada não é uma textura Engine.Texture.".to_owned());
    }
    let raw = package.export_data(Dialect::Engine, &export)?;
    let properties = TexturePropertyStream::parse(raw, &package.names)?;
    Ok(properties.editor_state())
}

/// The data of a package file after one texture was edited.
#[verifier::opaque]
pub open spec fn edited_file(d: Seq<u8>, index: usize, edit: TextureEditorEdit) -> Result<
    Seq<u8>,
    Seq<char>,
> {
    match package::package_of(Dialect::Engine, d) {
        Err(e) => Err(e),
        Ok(p) => match package::nth_export(p, index as int) {
            Err(e) => Err(e),
            Ok(export) => if !package::is_texture_export(Dialect::Engine, p, export) {
                Err(edits::not_a_texture_text())
            } else if properties::steps_of(edit).len() == 0 {
                Ok(p.data)
            } else {
                data_after(edits::edited(p, seq![(index, edit)]))
            },
        },
    }
}

/// Applies editor-facing properties without replacing the texture pixels.
pub fn edit_texture_properties(
    package_data: Vec<u8>,
    export_index: usize,
    edit: TextureEditorEdit,
) -> (r: Result<Vec<u8>, String>)
    ensures
        file_result(r, edited_file(package_data@, export_index, edit)),
{
    proof {
        reveal(edited_file);
    }
    let mut package = Package::parse(Dialect::Engine, package_data)?;
    let export = package.export(export_index)?;
    if !package.is_texture(Dialect::Engine, &export) {
        return Err("A entrada selecionada não é uma textura Engine.Texture.".to_owned());
    }
    if edit.has_changes() {
        let mut edits: Vec<(usize, TextureEditorEdit)> = Vec::new();
        edits.push((export_index, edit));
        assert(edits@ =~= seq![(export_index, edit)]);
        package.apply_texture_edits(&edits)?;
    }
    Ok(package.data)
}

/// The data of a package file after the first `n` edits.
pub open spec fn edited_files(
    d: Seq<u8>,
    edits: Seq<(usize, TextureEditorEdit)>,
    n: nat,
) -> Result<Seq<u8>, Seq<char>>
    decreases n,
{
    if n == 0 {
        Ok(d)
    } else {
        match edited_files(d, edits, (n - 1) as nat) {
            Err(e) => Err(e),
            Ok(before) => edited_file(before, edits[n - 1].0, edits[n - 1].1),
        }
    }
}

proof fn edited_files_error_spreads(
    d: Seq<u8>,
    edits: Seq<(usize, TextureEditorEdit)>,
    k: nat,
    n: nat,
)
    requires
        k <= n,
        edited_files(d, edits, k) is Err,
    ensures
        edited_files(d, edits, n) == edited_files(d, edits, k),
    decreases n,
{
    if k < n {
        edited_files_error_spreads(d, edits, k, (n - 1) as nat);
    }
}

/// Applies the same kind of editor changes to several textures before the
/// caller writes the rebuilt package once. Each change still preserves every
/// untouched UE2 property and the texture pixel data.
pub fn edit_texture_properties_batch(
    package_data: Vec<u8>,
    edits: &[(usize, TextureEditorEdit)],
) -> (r: Result<Vec<u8>, String>)
    ensures
        file_result(r, edited_files(package_data@, edits@, edits@.len())),
{
    let mut data = package_data;
    let ghost start = data@;
    let mut i: usize = 0;
    while i < edits.len()
        invariant
            i <= edits@.len(),
            start == package_data@,
            edited_files(start, edits@, i as nat) == Ok::<Seq<u8>, Seq<char>>(data@),
        decreases edits.len() - i,
    {
        proof {
            if edited_files(start, edits@, (i + 1) as nat) is Err {
                edited_files_error_spreads(start, edits@, (i + 1) as nat, edits@.len());
            }
        }
        data = edit_texture_properties(data, edits[i].0, edits[i].1)?;
        i = i + 1;
    }
    Ok(data)
}

} // verus!
