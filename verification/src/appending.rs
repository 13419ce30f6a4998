//! Textures appended to a package: a new texture takes its structure from one
//! that the package, or a template, already has.

use vstd::prelude::*;
use vstd::slice::slice_subrange;
use crate::imports::{ImportedModel, ImportedTexture};
use crate::layout::{ImageModel, MipLocation, SerializedTexture, Split9};
use crate::names::{NameEntry, NameModel, NameTable};
use crate::package::{ExportEntry, ImportEntry, Package, PackageModel};
use crate::reader::{Dialect, Reader, TagModel};
use crate::formats::UtxFormat;
use crate::tables::{LimitTexts, NewGroup, Places};
use crate::bytes;
use crate::edits;
use crate::formats;
use crate::images;
use crate::layout;
use crate::listing;
use crate::names;
use crate::package;
use crate::reader;
use crate::tables;
use crate::text;

verus! {

pub open spec fn full_names_text() -> Seq<char> {
    "A tabela de nomes excede o limite do formato."@
}

/// The names with `name` among them, and its index.
pub open spec fn with_name(names: Seq<NameModel>, name: Seq<char>) -> Result<
    (Seq<NameModel>, i32),
    Seq<char>,
> {
    match names::find_name(names, name, 0) {
        Some(i) => match bytes::i32_of_len(i, full_names_text()) {
            Ok(index) => Ok((names, index)),
            Err(e) => Err(e),
        },
        None => match bytes::i32_of_len(names.len() as int, full_names_text()) {
            Ok(index) => Ok((names.push(NameModel { name, flags: names::new_flags(names) }), index)),
            Err(e) => Err(e),
        },
    }
}

/// The index of a name, which is added where it is missing.
pub fn name_index_or_insert(names: &mut NameTable, name: &str) -> (r: Result<i32, String>)
    ensures
        match r {
            Ok(index) => with_name(old(names)@, name@) == Ok::<(Seq<NameModel>, i32), Seq<char>>(
                (final(names)@, index),
            ),
            Err(message) => with_name(old(names)@, name@) == Err::<
                (Seq<NameModel>, i32),
                Seq<char>,
            >(message@),
        },
{
    let ghost start = names@;
    let mut i: usize = 0;
    while i < names.entries.len()
        invariant
            i <= names.entries@.len(),
            names@ == start,
            start == old(names)@,
            names::find_name(start, name@, 0) == names::find_name(start, name@, i as int),
        decreases names.entries.len() - i,
    {
        assert(start[i as int].name == names.entries@[i as int].name@);
        if text::equals_folded(names.entries[i].name.as_str(), name) {
            return bytes::checked_i32(i, "A tabela de nomes excede o limite do formato.");
        }
        i += 1;
    }
    let index: i32 = bytes::checked_i32(
        names.entries.len(),
        "A tabela de nomes excede o limite do formato.",
    )?;
    let flags: i32 = if names.entries.len() > 0 {
        names.entries[0].flags
    } else {
        0x0007_0000
    };
    assert(flags == names::new_flags(start));
    let ghost before = names.entries@;
    names.entries.push(NameEntry { name: name.to_owned(), flags });
    assert(names::models_of(names.entries@) =~= names::models_of(before).push(NameModel { name: name@, flags }));
    Ok(index)
}

/// Names and imports that hold the class of group objects, and its reference.
pub open spec fn with_core_class(names: Seq<NameModel>, imports: Seq<ImportEntry>) -> Result<
    (Seq<NameModel>, Seq<ImportEntry>, i32),
    Seq<char>,
> {
    match with_name(names, "Core"@) {
        Err(e) => Err(e),
        Ok((n1, core)) => match with_name(n1, "Package"@) {
            Err(e) => Err(e),
            Ok((n2, package)) => match with_name(n2, "Class"@) {
                Err(e) => Err(e),
                Ok((n3, class)) => match tables::with_core_import(
                    Dialect::Frontend,
                    imports,
                    core,
                    package,
                    class,
                ) {
                    Err(e) => Err(e),
                    Ok((more, reference)) => Ok((n3, more, reference)),
                },
            },
        },
    }
}

fn ensure_core_class(names: &mut NameTable, imports: &mut Vec<ImportEntry>) -> (r: Result<
    i32,
    String,
>)
    ensures
        match r {
            Ok(reference) => with_core_class(old(names)@, old(imports)@) == Ok::<
                (Seq<NameModel>, Seq<ImportEntry>, i32),
                Seq<char>,
            >((final(names)@, final(imports)@, reference)),
            Err(message) => with_core_class(old(names)@, old(imports)@) == Err::<
                (Seq<NameModel>, Seq<ImportEntry>, i32),
                Seq<char>,
            >(message@),
        },
{
    let core: i32 = name_index_or_insert(names, "Core")?;
    let package: i32 = name_index_or_insert(names, "Package")?;
    let class: i32 = name_index_or_insert(names, "Class")?;
    tables::ensure_core_import(Dialect::Frontend, imports, core, package, class)
}

/// What a new group object is made of: class, parent, flags and bytes, and the
/// tables that it needs.
pub struct GroupParts {
    pub names: Seq<NameModel>,
    pub imports: Seq<ImportEntry>,
    pub class: i32,
    pub super_class: i32,
    pub flags: i32,
    pub bytes: Seq<u8>,
}

pub open spec fn group_parts(
    p: PackageModel,
    names: Seq<NameModel>,
    imports: Seq<ImportEntry>,
) -> Result<GroupParts, Seq<char>> {
    match tables::group_template(Dialect::Frontend, p, 0) {
        Some(i) => match package::data_of(Dialect::Frontend, p.data, p.exports[i]) {
            Err(e) => Err(e),
            Ok(bytes) => Ok(
                GroupParts {
                    names,
                    imports,
                    class: p.exports[i].class,
                    super_class: p.exports[i].super_class,
                    flags: p.exports[i].flags,
                    bytes,
                },
            ),
        },
        None => match with_core_class(names, imports) {
            Err(e) => Err(e),
            Ok((more, added, class)) => Ok(
                GroupParts {
                    names: more,
                    imports: added,
                    class,
                    super_class: 0,
                    flags: 0x0007_0004,
                    bytes: seq![1u8],
                },
            ),
        },
    }
}

/// Tables with a new group object: it is like the first group object of the
/// package, or made from scratch where there is none.
pub open spec fn with_new_group(
    p: PackageModel,
    group: Seq<char>,
    names: Seq<NameModel>,
    imports: Seq<ImportEntry>,
    exports: Seq<ExportEntry>,
) -> Result<NewGroup, Seq<char>> {
    match with_name(names, group) {
        Err(e) => Err(e),
        Ok((n1, name_index)) => match group_parts(p, n1, imports) {
            Err(e) => Err(e),
            Ok(parts) => match package::export_reference_of(Dialect::Frontend, exports.len() as int) {
                Err(e) => Err(e),
                Ok(reference) => match bytes::i32_of_len(
                    parts.bytes.len() as int,
                    "O objeto de grupo é grande demais para este formato."@,
                ) {
                    Err(e) => Err(e),
                    Ok(size) => Ok(
                        NewGroup {
                            names: parts.names,
                            imports: parts.imports,
                            exports: exports.push(
                                tables::group_entry(
                                    parts.class,
                                    parts.super_class,
                                    parts.flags,
                                    name_index,
                                    size,
                                ),
                            ),
                            reference,
                            bytes: parts.bytes,
                        },
                    ),
                },
            },
        },
    }
}

/// A group object that was added to the tables.
#[derive(Debug)]
pub struct CreatedTextureGroup {
    pub object_reference: i32,
    pub serialized_data: Vec<u8>,
}

/// Adds a group object to the tables.
pub fn create_texture_group(
    package: &Package,
    group_name: &str,
    names: &mut NameTable,
    imports: &mut Vec<ImportEntry>,
    exports: &mut Vec<ExportEntry>,
) -> (r: Result<CreatedTextureGroup, String>)
    ensures
        match r {
            Ok(created) => with_new_group(
                package@,
                group_name@,
                old(names)@,
                old(imports)@,
                old(exports)@,
            ) == Ok::<NewGroup, Seq<char>>(
                NewGroup {
                    names: final(names)@,
                    imports: final(imports)@,
                    exports: final(exports)@,
                    reference: created.object_reference,
                    bytes: created.serialized_data@,
                },
            ),
            Err(message) => with_new_group(
                package@,
                group_name@,
                old(names)@,
                old(imports)@,
                old(exports)@,
            ) == Err::<NewGroup, Seq<char>>(message@),
        },
{
    let name_index: i32 = name_index_or_insert(names, group_name)?;
    let (class, super_class, flags, bytes): (i32, i32, i32, Vec<u8>) =
        match package.find_group_template(Dialect::Frontend) {
        Some(i) => {
            let template: ExportEntry = package.exports[i];
            let raw = package.export_data(Dialect::Frontend, &template)?;
            (template.class, template.super_class, template.flags, bytes::copy_bytes(raw))
        },
        None => {
            let class: i32 = ensure_core_class(names, imports)?;
            let mut bytes: Vec<u8> = Vec::new();
            bytes.push(1);
            assert(bytes@ =~= seq![1u8]);
            (class, 0, 0x0007_0004, bytes)
        },
    };
    let reference: i32 = package::export_reference(Dialect::Frontend, exports.len())?;
    let size: i32 = bytes::checked_i32(
        bytes.len(),
        "O objeto de grupo é grande demais para este formato.",
    )?;
    exports.push(
        ExportEntry { class, super_class, package: 0, name_index, flags, size, offset: 0 },
    );
    Ok(CreatedTextureGroup { object_reference: reference, serialized_data: bytes })
}

/// The first readable texture of a group.
pub open spec fn first_entry_in_group(p: PackageModel, group: Seq<char>, from: int) -> Option<int>
    decreases p.exports.len() - from,
{
    if from < 0 || from >= p.exports.len() {
        None
    } else if listing::entry_of(p, from) matches Ok(entry) && tables::in_group(
        Dialect::Frontend,
        entry.name,
        group,
    ) {
        Some(from)
    } else {
        first_entry_in_group(p, group, from + 1)
    }
}

/// The object that the textures of a group lie in, where there is one.
pub open spec fn outer_of_group(p: PackageModel, group: Seq<char>) -> Result<Option<i32>, Seq<char>> {
    if text::same_folded(group, "Pacote principal"@) {
        Ok(Some(0i32))
    } else {
        match first_entry_in_group(p, group, 0) {
            Some(i) => Ok(Some(p.exports[i].package)),
            None => match tables::group_object(Dialect::Frontend, p, group, 0) {
                Some(i) => match package::export_reference_of(Dialect::Frontend, i) {
                    Ok(reference) => Ok(Some(reference)),
                    Err(e) => Err(e),
                },
                None => Ok(None),
            },
        }
    }
}

/// Whether a texture of the package goes on with another one.
pub open spec fn has_animation(p: PackageModel, index: int) -> Result<bool, Seq<char>> {
    match package::nth_export(p, index) {
        Err(e) => Err(e),
        Ok(export) => match package::data_of(Dialect::Frontend, p.data, export) {
            Err(e) => Err(e),
            Ok(raw) => match layout::layout_of(
                Dialect::Frontend,
                p.names,
                p.version,
                p.licensee,
                raw,
            ) {
                Err(e) => Err(e),
                Ok(layout) => Ok(layout.anim_next matches Some(reference) && reference != 0),
            },
        },
    }
}

/// The first texture from `from` on of the wanted kind in the group, or the
/// first one elsewhere.
pub open spec fn template_from(
    p: PackageModel,
    group: Seq<char>,
    split9: bool,
    animated: bool,
    from: int,
    fallback: Option<int>,
) -> Result<Option<int>, Seq<char>>
    decreases p.exports.len() - from,
{
    if from < 0 || from >= p.exports.len() {
        Ok(fallback)
    } else {
        match listing::entry_of(p, from) {
            Err(_) => template_from(p, group, split9, animated, from + 1, fallback),
            Ok(entry) => if entry.has_split9 != split9 {
                template_from(p, group, split9, animated, from + 1, fallback)
            } else {
                match has_animation(p, from) {
                    Err(e) => Err(e),
                    Ok(found) => if found != animated {
                        template_from(p, group, split9, animated, from + 1, fallback)
                    } else if tables::in_group(Dialect::Frontend, entry.name, group) {
                        Ok(Some(from))
                    } else {
                        template_from(
                            p,
                            group,
                            split9,
                            animated,
                            from + 1,
                            if fallback is None {
                                Some(from)
                            } else {
                                fallback
                            },
                        )
                    },
                }
            },
        }
    }
}

/// What kind of texture a package lacks.
pub open spec fn no_template_text(split9: bool, animated: bool) -> Seq<char> {
    if split9 && animated {
        "O UTX não possui uma textura Split9 animada para usar como modelo estrutural."@
    } else if split9 {
        "O UTX não possui uma textura Split9 sem AnimNext para usar como modelo estrutural."@
    } else if animated {
        "O UTX não possui uma textura animada para usar como modelo estrutural."@
    } else {
        "O UTX não possui uma textura comum sem AnimNext para usar como modelo estrutural."@
    }
}

/// The texture that a new one takes its structure from.
#[verifier::opaque]
pub open spec fn structural_template(
    p: PackageModel,
    group: Seq<char>,
    split9: bool,
    animated: bool,
) -> Result<int, Seq<char>> {
    match template_from(p, group, split9, animated, 0, None) {
        Err(e) => Err(e),
        Ok(Some(i)) => Ok(i),
        Ok(None) => Err(no_template_text(split9, animated)),
    }
}

/// The readable texture of this name in a group.
pub open spec fn named_entry(p: PackageModel, group: Seq<char>, name: Seq<char>, from: int) -> Option<
    int,
>
    decreases p.exports.len() - from,
{
    if from < 0 || from >= p.exports.len() {
        None
    } else if listing::entry_of(p, from) matches Ok(entry) && tables::in_group(
        Dialect::Frontend,
        entry.name,
        group,
    ) && text::same_folded(text::after_last_dot(entry.name), name) {
        Some(from)
    } else {
        named_entry(p, group, name, from + 1)
    }
}

/// Whether the textures of the application's template can be stored in a
/// package: its names and imports stand in the package too, at the same places,
/// but for the name of the template itself.
pub open spec fn takes_template(p: PackageModel, template: PackageModel) -> bool {
    match names::find_name(template.names, "UnrealTlp"@, 0) {
        None => false,
        Some(own) => {
            &&& p.names.len() >= template.names.len()
            &&& p.imports.len() >= template.imports.len()
            &&& forall|i: int|
                0 <= i < template.names.len() ==> {
                    let expected = #[trigger] template.names[i];
                    i == own || (text::same_folded(p.names[i].name, expected.name) && p.names[i].flags
                        == expected.flags)
                }
            &&& forall|i: int|
                0 <= i < template.imports.len() ==> #[trigger] template.imports[i] == p.imports[i]
        },
    }
}

fn find_own_name(names: &NameTable, name: &str) -> (r: Option<usize>)
    ensures
        match r {
            Some(i) => names::find_name(names@, name@, 0) == Some(i as int) && i < names@.len(),
            None => names::find_name(names@, name@, 0) is None,
        },
{
    let mut i: usize = 0;
    while i < names.entries.len()
        invariant
            i <= names.entries@.len(),
            names::find_name(names@, name@, 0) == names::find_name(names@, name@, i as int),
        decreases names.entries.len() - i,
    {
        assert(names@[i as int].name == names.entries@[i as int].name@);
        if text::equals_folded(names.entries[i].name.as_str(), name) {
            return Some(i);
        }
        i += 1;
    }
    None
}

impl Package {
    /// The object that the textures of a group lie in.
    pub fn outer_for_group(&self, group_name: &str) -> (r: Result<Option<i32>, String>)
        ensures
            text::seen(r) == outer_of_group(self@, group_name@),
    {
        if text::equals_folded(group_name, "Pacote principal") {
            return Ok(Some(0));
        }
        let mut i: usize = 0;
        while i < self.exports.len()
            invariant
                i <= self.exports@.len(),
                !text::same_folded(group_name@, "Pacote principal"@),
                first_entry_in_group(self@, group_name@, 0) == first_entry_in_group(
                    self@,
                    group_name@,
                    i as int,
                ),
            decreases self.exports.len() - i,
        {
            if let Ok(entry) = self.entry_to_model(i) {
                if tables::texture_in_group(Dialect::Frontend, entry.name.as_str(), group_name) {
                    return Ok(Some(self.exports[i].package));
                }
            }
            i += 1;
        }
        match self.find_group_object(Dialect::Frontend, group_name) {
            Some(i) => match package::export_reference(Dialect::Frontend, i) {
                Ok(reference) => Ok(Some(reference)),
                Err(message) => Err(message),
            },
            None => Ok(None),
        }
    }

    /// Whether a texture goes on with another one.
    pub fn texture_has_active_anim_next(&self, export_index: usize) -> (r: Result<bool, String>)
        ensures
            text::seen(r) == has_animation(self@, export_index as int),
    {
        let export = self.export(export_index)?;
        let raw = self.export_data(Dialect::Frontend, &export)?;
        let layout = layout::texture_layout(Dialect::Frontend, raw, self)?;
        match layout.anim_next {
            Some(reference) => Ok(reference != 0),
            None => Ok(false),
        }
    }

    /// The texture that a new one of the given kind takes its structure from.
    pub fn structural_template_for_import(
        &self,
        package_name: &str,
        requires_split9: bool,
        requires_animation: bool,
    ) -> (r: Result<usize, String>)
        ensures
            match r {
                Ok(i) => structural_template(
                    self@,
                    package_name@,
                    requires_split9,
                    requires_animation,
                ) == Ok::<int, Seq<char>>(i as int),
                Err(message) => structural_template(
                    self@,
                    package_name@,
                    requires_split9,
                    requires_animation,
                ) == Err::<int, Seq<char>>(message@),
            },
    {
        reveal(structural_template);
        let mut fallback: Option<usize> = None;
        let mut i: usize = 0;
        while i < self.exports.len()
            invariant
                i <= self.exports@.len(),
                template_from(
                    self@,
                    package_name@,
                    requires_split9,
                    requires_animation,
                    0,
                    None,
                ) == template_from(
                    self@,
                    package_name@,
                    requires_split9,
                    requires_animation,
                    i as int,
                    match fallback {
                        Some(k) => Some(k as int),
                        None => None,
                    },
                ),
            decreases self.exports.len() - i,
        {
            reveal(structural_template);
            if let Ok(entry) = self.entry_to_model(i) {
                if entry.has_split9 == requires_split9 {
                    let animated: bool = self.texture_has_active_anim_next(i)?;
                    if animated == requires_animation {
                        if tables::texture_in_group(Dialect::Frontend, entry.name.as_str(), package_name) {
                            return Ok(i);
                        }
                        if fallback.is_none() {
                            fallback = Some(i);
                        }
                    }
                }
            }
            i += 1;
        }
        if let Some(found) = fallback {
            return Ok(found);
        }
        if requires_split9 && requires_animation {
            Err(
                "O UTX não possui uma textura Split9 animada para usar como modelo estrutural.".to_owned(),
            )
        } else if requires_split9 {
            Err(
                "O UTX não possui uma textura Split9 sem AnimNext para usar como modelo estrutural.".to_owned(),
            )
        } else if requires_animation {
            Err(
                "O UTX não possui uma textura animada para usar como modelo estrutural.".to_owned(),
            )
        } else {
            Err(
                "O UTX não possui uma textura comum sem AnimNext para usar como modelo estrutural.".to_owned(),
            )
        }
    }

    /// The texture of this name in a group.
    pub fn find_texture_in_package(&self, package_name: &str, texture_name: &str) -> (r: Option<
        usize,
    >)
        ensures
            match r {
                Some(i) => named_entry(self@, package_name@, texture_name@, 0) == Some(i as int),
                None => named_entry(self@, package_name@, texture_name@, 0) is None,
            },
    {
        let mut i: usize = 0;
        while i < self.exports.len()
            invariant
                i <= self.exports@.len(),
                named_entry(self@, package_name@, texture_name@, 0) == named_entry(
                    self@,
                    package_name@,
                    texture_name@,
                    i as int,
                ),
            decreases self.exports.len() - i,
        {
            if let Ok(entry) = self.entry_to_model(i) {
                let leaf = tables::texture_leaf(entry.name.as_str());
                if tables::texture_in_group(Dialect::Frontend, entry.name.as_str(), package_name)
                    && text::equals_folded(leaf.as_str(), texture_name) {
                    return Some(i);
                }
            }
            i += 1;
        }
        None
    }

    /// Whether the textures of the application's template can be stored here.
    pub fn is_compatible_with_embedded_template(&self, template: &Package) -> (r: bool)
        ensures
            r == takes_template(self@, template@),
    {
        let own: usize = match find_own_name(&template.names, "UnrealTlp") {
            Some(own) => own,
            None => return false,
        };
        if self.names.entries.len() < template.names.entries.len() || self.imports.len()
            < template.imports.len() {
            return false;
        }
        let mut i: usize = 0;
        while i < template.names.entries.len()
            invariant
                i <= template@.names.len(),
                names::find_name(template@.names, "UnrealTlp"@, 0) == Some(own as int),
                self@.names.len() >= template@.names.len(),
                self@.imports.len() >= template@.imports.len(),
                forall|k: int|
                    0 <= k < i ==> {
                        let expected = #[trigger] template@.names[k];
                        k == own as int || (text::same_folded(self@.names[k].name, expected.name)
                            && self@.names[k].flags == expected.flags)
                    },
            decreases template.names.entries.len() - i,
        {
            let expected = &template.names.entries[i];
            let candidate = &self.names.entries[i];
            assert(template@.names[i as int] == expected@);
            assert(self@.names[i as int] == candidate@);
            if i != own && !(text::equals_folded(candidate.name.as_str(), expected.name.as_str())
                && candidate.flags == expected.flags) {
                return false;
            }
            i += 1;
        }
        let mut k: usize = 0;
        while k < template.imports.len()
            invariant
                k <= template@.imports.len(),
                names::find_name(template@.names, "UnrealTlp"@, 0) == Some(own as int),
                self@.imports.len() >= template@.imports.len(),
                forall|j: int|
                    0 <= j < k ==> #[trigger] template@.imports[j] == self@.imports[j],
            decreases template.imports.len() - k,
        {
            let expected: ImportEntry = template.imports[k];
            let candidate: ImportEntry = self.imports[k];
            if candidate.class_package != expected.class_package || candidate.class_name
                != expected.class_name || candidate.package != expected.package
                || candidate.name_index != expected.name_index {
                assert(template@.imports[k as int] != self@.imports[k as int]);
                return false;
            }
            k += 1;
        }
        true
    }
}

/// A new texture export after the model of a template.
pub open spec fn built_export(p: PackageModel, raw: Seq<u8>, texture: ImportedModel) -> Result<
    (Seq<u8>, int, usize),
    Seq<char>,
> {
    match layout::layout_of(Dialect::Frontend, p.names, p.version, p.licensee, raw) {
        Err(e) => Err(e),
        Ok(layout) => match formats::format_value(texture.format) {
            None => Err("Formato de textura inválido para importação."@),
            Some(format) => match layout::new_texture(
                Dialect::Frontend,
                raw,
                layout,
                ImageModel {
                    format,
                    width: texture.width,
                    height: texture.height,
                    pixels: texture.pixels,
                },
                texture.metadata.split9,
            ) {
                Err(e) => Err(e),
                Ok((bytes, place)) => Ok((bytes, place, layout.mip_width_offset)),
            },
        },
    }
}

/// Builds a texture export after the model of a template.
pub fn build_texture_export_like(template_raw: &[u8], package: &Package, texture: &ImportedTexture)
    -> (r: Result<SerializedTexture, String>)
    ensures
        match r {
            Ok(built) => built_export(package@, template_raw@, texture@) == Ok::<
                (Seq<u8>, int, usize),
                Seq<char>,
            >((built.bytes@, built.width_offset_value as int, built.mip_width_offset)),
            Err(message) => built_export(package@, template_raw@, texture@) == Err::<
                (Seq<u8>, int, usize),
                Seq<char>,
            >(message@),
        },
{
    let layout = layout::texture_layout(Dialect::Frontend, template_raw, package)?;
    let size: usize = template_raw.len();
    proof {
        layout::layout_bounds(
            Dialect::Frontend,
            package@.names,
            package@.version,
            package@.licensee,
            template_raw@,
        );
    }
    let format: u8 = match texture.format.value() {
        Some(format) => format,
        None => return Err("Formato de textura inválido para importação.".to_owned()),
    };
    layout::build_texture(
        Dialect::Frontend,
        template_raw,
        &layout,
        format,
        texture.width,
        texture.height,
        texture.pixels.as_slice(),
        texture.metadata.split9,
    )
}

/// The tables of a package and the bytes that go behind its data.
pub struct AppendModel {
    pub names: Seq<NameModel>,
    pub imports: Seq<ImportEntry>,
    pub exports: Seq<ExportEntry>,
    pub added: Seq<u8>,
}

/// The texture that a new one is modelled on, with its package: one of the
/// package itself, or else one of the template.
pub open spec fn chosen_template(
    p: PackageModel,
    template: Option<PackageModel>,
    group: Seq<char>,
    texture: ImportedModel,
) -> Result<(PackageModel, int), Seq<char>> {
    let split9 = texture.metadata.split9 is Some;
    let animated = texture.metadata.animation is Some;
    match structural_template(p, group, split9, animated) {
        Ok(i) => Ok((p, i)),
        Err(e) => match template {
            None => Err(e),
            Some(other) => match structural_template(other, group, split9, animated) {
                Ok(i) => Ok((other, i)),
                Err(e2) => Err(e2),
            },
        },
    }
}

/// A new texture behind the data and what was added before.
pub open spec fn with_texture_added(
    s: AppendModel,
    base: int,
    model: PackageModel,
    index: int,
    outer: i32,
    texture: ImportedModel,
) -> Result<AppendModel, Seq<char>> {
    match package::nth_export(model, index) {
        Err(e) => Err(e),
        Ok(export) => match package::data_of(Dialect::Frontend, model.data, export) {
            Err(e) => Err(e),
            Ok(raw) => {
                let start = base + s.added.len();
                if start > usize::MAX {
                    Err("Tamanho de pacote inválido."@)
                } else {
                    match built_export(model, raw, texture) {
                        Err(e) => Err(e),
                        Ok((built, place, pointer)) => if start + place > usize::MAX {
                            Err("Offset de textura inválido."@)
                        } else {
                            match bytes::i32_of_len(
                                start + place,
                                "O pacote excede o limite de tamanho."@,
                            ) {
                                Err(e) => Err(e),
                                Ok(value) => match bytes::with_i32_at(built, pointer as int, value) {
                                    Err(e) => Err(e),
                                    Ok(bytes) => with_export_added(
                                        s,
                                        start,
                                        bytes,
                                        export,
                                        outer,
                                        texture.name,
                                    ),
                                },
                            }
                        },
                    }
                }
            },
        },
    }
}

/// The export of a new texture and its bytes.
pub open spec fn with_export_added(
    s: AppendModel,
    start: int,
    bytes: Seq<u8>,
    template: ExportEntry,
    outer: i32,
    name: Seq<char>,
) -> Result<AppendModel, Seq<char>> {
    match with_name(s.names, name) {
        Err(e) => Err(e),
        Ok((names, name_index)) => match bytes::i32_of_len(
            bytes.len() as int,
            "A textura é grande demais para este formato."@,
        ) {
            Err(e) => Err(e),
            Ok(size) => match bytes::i32_of_len(start, "O pacote excede o limite de 2 GB."@) {
                Err(e) => Err(e),
                Ok(offset) => Ok(
                    AppendModel {
                        names,
                        exports: s.exports.push(
                            ExportEntry {
                                class: template.class,
                                super_class: template.super_class,
                                package: outer,
                                name_index,
                                flags: template.flags,
                                size,
                                offset,
                            },
                        ),
                        added: s.added + bytes,
                        ..s
                    },
                ),
            },
        },
    }
}

/// The first `n` textures behind the data.
pub open spec fn with_new_textures(
    s: AppendModel,
    base: int,
    p: PackageModel,
    template: Option<PackageModel>,
    group: Seq<char>,
    outer: i32,
    textures: Seq<ImportedModel>,
    n: nat,
) -> Result<AppendModel, Seq<char>>
    decreases n,
{
    if n == 0 {
        Ok(s)
    } else {
        match with_new_textures(s, base, p, template, group, outer, textures, (n - 1) as nat) {
            Err(e) => Err(e),
            Ok(before) => match chosen_template(p, template, group, textures[n - 1]) {
                Err(e) => Err(e),
                Ok((model, index)) => with_texture_added(
                    before,
                    base,
                    model,
                    index,
                    outer,
                    textures[n - 1],
                ),
            },
        }
    }
}

/// The tables before any texture was added, and the object that the textures
/// go to. A group that does not exist yet is created.
pub open spec fn append_start(p: PackageModel, base: int, group: Seq<char>) -> Result<
    (AppendModel, i32),
    Seq<char>,
> {
    match outer_of_group(p, group) {
        Err(e) => Err(e),
        Ok(Some(outer)) => Ok(
            (
                AppendModel {
                    names: p.names,
                    imports: p.imports,
                    exports: p.exports,
                    added: Seq::empty(),
                },
                outer,
            ),
        ),
        Ok(None) => match with_new_group(p, group, p.names, p.imports, p.exports) {
            Err(e) => Err(e),
            Ok(new) => match bytes::i32_of_len(base, "O pacote excede o limite de 2 GB."@) {
                Err(e) => Err(e),
                Ok(offset) => {
                    let last = new.exports.len() - 1;
                    Ok(
                        (
                            AppendModel {
                                names: new.names,
                                imports: new.imports,
                                exports: new.exports.update(
                                    last,
                                    ExportEntry { offset, ..new.exports[last] },
                                ),
                                added: new.bytes,
                            },
                            new.reference,
                        ),
                    )
                },
            },
        },
    }
}

/// A package file with textures appended, and new tables behind them.
pub open spec fn with_textures_appended(
    working: Seq<u8>,
    p: PackageModel,
    template: Option<PackageModel>,
    group: Seq<char>,
    textures: Seq<ImportedModel>,
) -> Result<Seq<u8>, Seq<char>> {
    if textures.len() == 0 {
        Ok(working)
    } else {
        match append_start(p, working.len() as int, group) {
            Err(e) => Err(e),
            Ok((start, outer)) => match with_new_textures(
                start,
                working.len() as int,
                p,
                template,
                group,
                outer,
                textures,
                textures.len(),
            ) {
                Err(e) => Err(e),
                Ok(s) => tables::rebuilt_data(
                    Dialect::Frontend,
                    working + s.added,
                    s.names,
                    s.imports,
                    s.exports,
                ),
            },
        }
    }
}

pub open spec fn imported_seen(textures: Seq<&ImportedTexture>) -> Seq<ImportedModel> {
    Seq::new(textures.len(), |i: int| textures[i]@)
}

pub open spec fn template_seen(template: Option<&Package>) -> Option<PackageModel> {
    match template {
        Some(package) => Some(package@),
        None => None,
    }
}

fn append_export(
    names: &mut NameTable,
    exports: &mut Vec<ExportEntry>,
    added: &mut Vec<u8>,
    imports: &Vec<ImportEntry>,
    base: usize,
    model: &Package,
    index: usize,
    outer: i32,
    texture: &ImportedTexture,
) -> (r: Result<(), String>)
    ensures
        ({
            let s = AppendModel {
                names: old(names)@,
                imports: imports@,
                exports: old(exports)@,
                added: old(added)@,
            };
            match r {
                Ok(()) => with_texture_added(s, base as int, model@, index as int, outer, texture@)
                    == Ok::<AppendModel, Seq<char>>(
                    AppendModel {
                        names: final(names)@,
                        imports: imports@,
                        exports: final(exports)@,
                        added: final(added)@,
                    },
                ),
                Err(message) => with_texture_added(
                    s,
                    base as int,
                    model@,
                    index as int,
                    outer,
                    texture@,
                ) == Err::<AppendModel, Seq<char>>(message@),
            }
        }),
{
    let template: ExportEntry = model.export(index)?;
    let raw = model.export_data(Dialect::Frontend, &template)?;
    let start: usize = match base.checked_add(added.len()) {
        Some(start) => start,
        None => return Err("Tamanho de pacote inválido.".to_owned()),
    };
    let built = build_texture_export_like(raw, model, texture)?;
    let target: usize = match start.checked_add(built.width_offset_value) {
        Some(target) => target,
        None => return Err("Offset de textura inválido.".to_owned()),
    };
    let value: i32 = bytes::checked_i32(target, "O pacote excede o limite de tamanho.")?;
    let mut bytes = built.bytes;
    bytes::write_i32_at(&mut bytes, built.mip_width_offset, value)?;
    let name_index: i32 = name_index_or_insert(names, texture.name.as_str())?;
    let size: i32 = bytes::checked_i32(bytes.len(), "A textura é grande demais para este formato.")?;
    let offset: i32 = bytes::checked_i32(start, "O pacote excede o limite de 2 GB.")?;
    exports.push(
        ExportEntry {
            class: template.class,
            super_class: template.super_class,
            package: outer,
            name_index,
            flags: template.flags,
            size,
            offset,
        },
    );
    bytes::append(added, bytes.as_slice());
    Ok(())
}

proof fn appended_error_spreads(
    s: AppendModel,
    base: int,
    p: PackageModel,
    template: Option<PackageModel>,
    group: Seq<char>,
    outer: i32,
    textures: Seq<ImportedModel>,
    i: nat,
    n: nat,
)
    requires
        i <= n,
        with_new_textures(s, base, p, template, group, outer, textures, i) is Err,
    ensures
        with_new_textures(s, base, p, template, group, outer, textures, n) == with_new_textures(
            s,
            base,
            p,
            template,
            group,
            outer,
            textures,
            i,
        ),
    decreases n,
{
    if i < n {
        appended_error_spreads(s, base, p, template, group, outer, textures, i, (n - 1) as nat);
    }
}

/// The tables to start from.
#[derive(Debug)]
struct Appending {
    names: NameTable,
    imports: Vec<ImportEntry>,
    exports: Vec<ExportEntry>,
    added: Vec<u8>,
    outer: i32,
}

fn start_appending(package: &Package, base: usize, group: &str) -> (r: Result<Appending, String>)
    ensures
        match r {
            Ok(s) => append_start(package@, base as int, group@) == Ok::<
                (AppendModel, i32),
                Seq<char>,
            >(
                (
                    AppendModel {
                        names: s.names@,
                        imports: s.imports@,
                        exports: s.exports@,
                        added: s.added@,
                    },
                    s.outer,
                ),
            ),
            Err(message) => append_start(package@, base as int, group@) == Err::<
                (AppendModel, i32),
                Seq<char>,
            >(message@),
        },
{
    let mut names = package.names.copy();
    let mut imports = package::copy_imports(package.imports.as_slice());
    let mut exports = package::copy_exports(package.exports.as_slice());
    match package.outer_for_group(group)? {
        Some(outer) => {
            let added: Vec<u8> = Vec::new();
            assert(added@ =~= Seq::empty());
            Ok(Appending { names, imports, exports, added, outer })
        },
        None => {
            let created = create_texture_group(
                package,
                group,
                &mut names,
                &mut imports,
                &mut exports,
            )?;
            let offset: i32 = bytes::checked_i32(base, "O pacote excede o limite de 2 GB.")?;
            let last: usize = exports.len() - 1;
            let entry: ExportEntry = exports[last];
            exports.set(last, ExportEntry { offset, ..entry });
            Ok(
                Appending {
                    names,
                    imports,
                    exports,
                    added: created.serialized_data,
                    outer: created.object_reference,
                },
            )
        },
    }
}

/// Appends textures to a package, in a group that is created where it is
/// missing.
pub fn append_texture_entries(
    working: &[u8],
    package: &Package,
    embedded_template: Option<&Package>,
    package_name: &str,
    textures: &Vec<&ImportedTexture>,
) -> (r: Result<Vec<u8>, String>)
    ensures
        images::bytes_result(
            r,
            with_textures_appended(
                working@,
                package@,
                template_seen(embedded_template),
                package_name@,
                imported_seen(textures@),
            ),
        ),
{
    if textures.len() == 0 {
        return Ok(bytes::copy_bytes(working));
    }
    let base: usize = working.len();
    let start = start_appending(package, base, package_name)?;
    let ghost model = imported_seen(textures@);
    let ghost template = template_seen(embedded_template);
    let ghost first = AppendModel {
        names: start.names@,
        imports: start.imports@,
        exports: start.exports@,
        added: start.added@,
    };
    let outer: i32 = start.outer;
    let imports = start.imports;
    let mut names = start.names;
    let mut exports = start.exports;
    let mut added = start.added;
    let mut i: usize = 0;
    while i < textures.len()
        invariant
            i <= textures@.len(),
            textures@.len() > 0,
            base == working@.len(),
            model == imported_seen(textures@),
            template == template_seen(embedded_template),
            append_start(package@, base as int, package_name@) == Ok::<
                (AppendModel, i32),
                Seq<char>,
            >((first, outer)),
            with_new_textures(
                first,
                base as int,
                package@,
                template,
                package_name@,
                outer,
                model,
                i as nat,
            ) == Ok::<AppendModel, Seq<char>>(
                AppendModel {
                    names: names@,
                    imports: imports@,
                    exports: exports@,
                    added: added@,
                },
            ),
        decreases textures.len() - i,
    {
        let texture: &ImportedTexture = textures[i];
        assert(model[i as int] == texture@);
        proof {
            if with_new_textures(
                first,
                base as int,
                package@,
                template,
                package_name@,
                outer,
                model,
                (i + 1) as nat,
            ) is Err {
                appended_error_spreads(
                    first,
                    base as int,
                    package@,
                    template,
                    package_name@,
                    outer,
                    model,
                    (i + 1) as nat,
                    model.len(),
                );
            }
        }
        let split9: bool = texture.metadata.split9.is_some();
        let animated: bool = texture.metadata.animation.is_some();
        match package.structural_template_for_import(package_name, split9, animated) {
            Ok(index) => {
                append_export(
                    &mut names,
                    &mut exports,
                    &mut added,
                    &imports,
                    base,
                    package,
                    index,
                    outer,
                    texture,
                )?;
            },
            Err(error) => match embedded_template {
                None => return Err(error),
                Some(other) => {
                    let index: usize = other.structural_template_for_import(
                        package_name,
                        split9,
                        animated,
                    )?;
                    append_export(
                        &mut names,
                        &mut exports,
                        &mut added,
                        &imports,
                        base,
                        other,
                        index,
                        outer,
                        texture,
                    )?;
                },
            },
        }
        i += 1;
    }
    let mut data = bytes::copy_bytes(working);
    bytes::append(&mut data, added.as_slice());
    tables::rebuild_data(
        Dialect::Frontend,
        data,
        &names,
        imports.as_slice(),
        exports.as_slice(),
    )
}

pub open spec fn template_package_texts() -> LimitTexts {
    LimitTexts {
        names: "Muitos nomes no novo UTX.",
        size: "O novo UTX excede o limite de tamanho.",
        exports: "Muitas exportações no novo UTX.",
        imports: "Muitas importações no novo UTX.",
    }
}

/// A package without textures: the header, the names and the imports of a
/// template, with another name for the package.
pub open spec fn emptied_template(template: PackageModel, name: Seq<char>) -> Result<
    Seq<u8>,
    Seq<char>,
> {
    match names::find_name(template.names, "UnrealTlp"@, 0) {
        None => Err("O modelo interno de UTX não possui o nome de pacote esperado."@),
        Some(i) => {
            let names = template.names.update(i, NameModel { name, ..template.names[i] });
            match names::names_bytes(Dialect::Frontend, names) {
                Err(e) => Err(e),
                Ok(table) => if template.name_offset > template.data.len() {
                    Err("O cabeçalho do modelo UTX está truncado."@)
                } else {
                    let import_offset = template.name_offset + table.len();
                    let export_offset = import_offset + package::imports_bytes(template.imports).len();
                    if export_offset > usize::MAX {
                        Err("O novo UTX excede o limite de tamanho."@)
                    } else {
                        tables::with_places(
                            template.data.take(template.name_offset as int) + table + package::imports_bytes(
                                template.imports,
                            ),
                            Places {
                                name_count: names.len() as int,
                                name_offset: template.name_offset as int,
                                export_count: 0,
                                export_offset,
                                import_count: template.imports.len() as int,
                                import_offset,
                            },
                            template_package_texts(),
                        )
                    }
                },
            }
        },
    }
}

/// Makes a package without textures after the application's template.
pub fn create_empty_package_from_template(template: &Package, package_name: &str) -> (r: Result<
    Vec<u8>,
    String,
>)
    ensures
        images::bytes_result(r, emptied_template(template@, package_name@)),
{
    let at: usize = match find_own_name(&template.names, "UnrealTlp") {
        Some(at) => at,
        None => return Err(
            "O modelo interno de UTX não possui o nome de pacote esperado.".to_owned(),
        ),
    };
    let mut names = template.names.copy();
    let ghost before = names.entries@;
    let flags: i32 = names.entries[at].flags;
    names.entries.set(at, NameEntry { name: package_name.to_owned(), flags });
    proof {
        assert(template@.names == names::models_of(before));
        assert(names::models_of(before)[at as int] == before[at as int]@);
        assert(names@ =~= template@.names.update(
            at as int,
            NameModel { name: package_name@, flags },
        ));
    }
    let name_table = names.serialize_as(Dialect::Frontend)?;
    if template.name_offset > template.data.len() {
        return Err("O cabeçalho do modelo UTX está truncado.".to_owned());
    }
    let import_table = package::serialize_import_table(template.imports.as_slice());
    let import_offset: usize = match template.name_offset.checked_add(name_table.len()) {
        Some(offset) => offset,
        None => return Err("O novo UTX excede o limite de tamanho.".to_owned()),
    };
    let export_offset: usize = match import_offset.checked_add(import_table.len()) {
        Some(offset) => offset,
        None => return Err("O novo UTX excede o limite de tamanho.".to_owned()),
    };
    let mut output = bytes::copy_range(template.data.as_slice(), 0, template.name_offset);
    bytes::append(&mut output, name_table.as_slice());
    bytes::append(&mut output, import_table.as_slice());
    assert(output@ =~= template@.data.take(template.name_offset as int) + name_table@
        + import_table@);
    tables::store_places(
        &mut output,
        names.entries.len(),
        template.name_offset,
        0,
        export_offset,
        template.imports.len(),
        import_offset,
        LimitTexts {
            names: "Muitos nomes no novo UTX.",
            size: "O novo UTX excede o limite de tamanho.",
            exports: "Muitas exportações no novo UTX.",
            imports: "Muitas importações no novo UTX.",
        },
    )?;
    Ok(output)
}

/// Where the six Split9 values of a texture stand, as far as it has them.
#[derive(Debug, Clone, Copy)]
pub struct Split9Places {
    pub x1: Option<usize>,
    pub x2: Option<usize>,
    pub x3: Option<usize>,
    pub y1: Option<usize>,
    pub y2: Option<usize>,
    pub y3: Option<usize>,
}

pub open spec fn no_split9_places() -> Split9Places {
    Split9Places { x1: None, x2: None, x3: None, y1: None, y2: None, y3: None }
}

/// The places with that of one more property. Only values of four bytes count.
pub open spec fn split9_placed(places: Split9Places, name: Seq<char>, tag: TagModel) -> Split9Places {
    let here = Some(tag.start as usize);
    if tag.size != 4 {
        places
    } else if text::same_folded(name, "Split9X1"@) {
        Split9Places { x1: here, ..places }
    } else if text::same_folded(name, "Split9X2"@) {
        Split9Places { x2: here, ..places }
    } else if text::same_folded(name, "Split9X3"@) {
        Split9Places { x3: here, ..places }
    } else if text::same_folded(name, "Split9Y1"@) {
        Split9Places { y1: here, ..places }
    } else if text::same_folded(name, "Split9Y2"@) {
        Split9Places { y2: here, ..places }
    } else if text::same_folded(name, "Split9Y3"@) {
        Split9Places { y3: here, ..places }
    } else {
        places
    }
}

/// The places of the Split9 values among the properties from `p` on.
pub open spec fn split9_places_from(
    names: Seq<NameModel>,
    d: Seq<u8>,
    p: int,
    places: Split9Places,
) -> Result<Split9Places, Seq<char>>
    decreases d.len() - p,
    when 0 <= p
{
    match reader::compact_at(Dialect::Frontend, d, p) {
        Err(e) => Err(e),
        Ok((index, q)) => match package::object_name(Dialect::Frontend, names, index) {
            Err(e) => Err(e),
            Ok(name) => if text::same_folded(name, "None"@) {
                Ok(places)
            } else {
                match reader::tag_at(Dialect::Frontend, d, q) {
                    Err(e) => Err(e),
                    Ok(tag) => match reader::skip_end(Dialect::Frontend, d, tag.start, tag.size) {
                        Err(e) => Err(e),
                        Ok(end) => {
                            proof {
                                reader::compact_moves(Dialect::Frontend, d, p);
                                reader::tag_moves(Dialect::Frontend, d, q);
                            }
                            split9_places_from(names, d, end, split9_placed(places, name, tag))
                        },
                    },
                }
            },
        },
    }
}

/// Bytes with one value at its place behind the start of the texture.
pub open spec fn with_split9_value(
    d: Result<Seq<u8>, Seq<char>>,
    export: ExportEntry,
    place: Option<usize>,
    value: i32,
) -> Result<Seq<u8>, Seq<char>> {
    match (d, place) {
        (Ok(bytes), Some(local)) => match reader::offset_of(
            Dialect::Frontend,
            export.offset,
            "dados Split9"@,
        ) {
            Err(e) => Err(e),
            Ok(base) => if base + local > usize::MAX {
                Err("Offset Split9 inválido."@)
            } else {
                bytes::with_i32_at(bytes, base + local, value)
            },
        },
        _ => d,
    }
}

/// Package data with other Split9 values in a texture, where it has them.
pub open spec fn with_split9_in_place(
    working: Seq<u8>,
    p: PackageModel,
    index: int,
    split9: Split9,
) -> Result<Seq<u8>, Seq<char>> {
    match package::nth_export(p, index) {
        Err(e) => Err(e),
        Ok(export) => match package::data_of(Dialect::Frontend, p.data, export) {
            Err(e) => Err(e),
            Ok(raw) => match split9_places_from(p.names, raw, 0, no_split9_places()) {
                Err(e) => Err(e),
                Ok(places) => {
                    let d1 = with_split9_value(Ok(working), export, places.x1, split9.x1);
                    let d2 = with_split9_value(d1, export, places.x2, split9.x2);
                    let d3 = with_split9_value(d2, export, places.x3, split9.x3);
                    let d4 = with_split9_value(d3, export, places.y1, split9.y1);
                    let d5 = with_split9_value(d4, export, places.y2, split9.y2);
                    with_split9_value(d5, export, places.y3, split9.y3)
                },
            },
        },
    }
}

fn note_split9_place(places: &mut Split9Places, name: &str, start: usize, size: usize)
    ensures
        forall|tag: TagModel|
            tag.start == start && tag.size == size ==> *final(places) == #[trigger] split9_placed(
                *old(places),
                name@,
                tag,
            ),
{
    if size != 4 {
        return;
    }
    if text::equals_folded(name, "Split9X1") {
        places.x1 = Some(start);
    } else if text::equals_folded(name, "Split9X2") {
        places.x2 = Some(start);
    } else if text::equals_folded(name, "Split9X3") {
        places.x3 = Some(start);
    } else if text::equals_folded(name, "Split9Y1") {
        places.y1 = Some(start);
    } else if text::equals_folded(name, "Split9Y2") {
        places.y2 = Some(start);
    } else if text::equals_folded(name, "Split9Y3") {
        places.y3 = Some(start);
    }
}

fn find_split9_places(raw: &[u8], package: &Package) -> (r: Result<Split9Places, String>)
    ensures
        text::seen(r) == split9_places_from(package@.names, raw@, 0, no_split9_places()),
{
    let mut reader = Reader::new(raw, Dialect::Frontend);
    let mut places = Split9Places { x1: None, x2: None, x3: None, y1: None, y2: None, y3: None };
    loop
        invariant
            reader.wf(),
            reader.data@ == raw@,
            reader.dialect == Dialect::Frontend,
            split9_places_from(package@.names, raw@, 0, no_split9_places()) == split9_places_from(
                package@.names,
                raw@,
                reader.position as int,
                places,
            ),
        decreases raw@.len() - reader.position,
    {
        let index: i32 = reader.read_compact()?;
        let name = package.name(Dialect::Frontend, index)?;
        if text::equals_folded(name.as_str(), "None") {
            return Ok(places);
        }
        let tag = reader.read_tag()?;
        note_split9_place(&mut places, name.as_str(), tag.start, tag.size);
        assert(tag@.start == tag.start && tag@.size == tag.size);
        reader.skip(tag.size)?;
    }
}

fn store_split9_value(
    data: &mut Vec<u8>,
    export: &ExportEntry,
    place: Option<usize>,
    value: i32,
) -> (r: Result<(), String>)
    ensures
        match r {
            Ok(()) => with_split9_value(Ok(old(data)@), *export, place, value) == Ok::<
                Seq<u8>,
                Seq<char>,
            >(final(data)@),
            Err(message) => with_split9_value(Ok(old(data)@), *export, place, value) == Err::<
                Seq<u8>,
                Seq<char>,
            >(message@),
        },
{
    if let Some(local) = place {
        let base: usize = reader::read_offset(Dialect::Frontend, export.offset, "dados Split9")?;
        let at: usize = match base.checked_add(local) {
            Some(at) => at,
            None => return Err("Offset Split9 inválido.".to_owned()),
        };
        bytes::write_i32_at(data, at, value)?;
    }
    Ok(())
}

/// Stores Split9 values in a texture that has them.
pub fn patch_split9(
    working: Vec<u8>,
    package: &Package,
    export_index: usize,
    split9: Split9,
) -> (r: Result<Vec<u8>, String>)
    ensures
        images::bytes_result(
            r,
            with_split9_in_place(working@, package@, export_index as int, split9),
        ),
{
    let mut data = working;
    let export = package.export(export_index)?;
    let raw = package.export_data(Dialect::Frontend, &export)?;
    let places = find_split9_places(raw, package)?;
    store_split9_value(&mut data, &export, places.x1, split9.x1)?;
    store_split9_value(&mut data, &export, places.x2, split9.x2)?;
    store_split9_value(&mut data, &export, places.x3, split9.x3)?;
    store_split9_value(&mut data, &export, places.y1, split9.y1)?;
    store_split9_value(&mut data, &export, places.y2, split9.y2)?;
    store_split9_value(&mut data, &export, places.y3, split9.y3)?;
    Ok(data)
}

/// The pixels in a file that is to replace a texture.
pub open spec fn replacement_pixels(
    file: Seq<u8>,
    format: UtxFormat,
    width: i32,
    height: i32,
) -> Result<Seq<u8>, Seq<char>> {
    if format == UtxFormat::Rgba8 {
        match images::tga_content(file) {
            Err(e) => Err(e),
            Ok((w, h, pixels)) => if w != width || h != height {
                Err(edits::wrong_size_text(width, height, w, h))
            } else {
                Ok(pixels)
            },
        }
    } else {
        match images::dds_misfit(file, width, height, format) {
            Err(e) => Err(e),
            Ok(()) => Ok(file.skip(128)),
        }
    }
}

/// Package data with other pixels in a texture, and its pointer set.
pub open spec fn with_pixels_replaced(
    working: Seq<u8>,
    export: ExportEntry,
    mip: MipLocation,
    source: Seq<u8>,
) -> Result<Seq<u8>, Seq<char>> {
    let start = export.offset + mip.pixel_offset;
    let end = start + mip.size;
    if source.len() < mip.size {
        Err(
            "Tamanho de pixels incompatível: esperado "@ + text::decimal(mip.size as int) + " bytes."@,
        )
    } else if end > usize::MAX {
        Err("Offset de textura inválido."@)
    } else if end > working.len() {
        Err("Os pixels estão fora do pacote."@)
    } else if export.offset + mip.width_offset_position > usize::MAX {
        Err("Offset de textura inválido."@)
    } else {
        match bytes::i32_of_len(end, "O pacote excede o limite de tamanho."@) {
            Err(e) => Err(e),
            Ok(value) => bytes::with_i32_at(
                bytes::splice(working, start, source.take(mip.size as int)),
                export.offset + mip.width_offset_position,
                value,
            ),
        }
    }
}

/// Package data with a texture replaced in its place.
pub open spec fn with_replacement(
    working: Seq<u8>,
    p: PackageModel,
    index: int,
    file: Seq<u8>,
    split9: Option<Split9>,
) -> Result<Seq<u8>, Seq<char>> {
    match listing::entry_of(p, index) {
        Err(e) => Err(e),
        Ok(entry) => if !formats::previewable(entry.format) {
            Err("Substituição não suportada para "@ + formats::label_of(entry.format) + "."@)
        } else {
            match listing::located_mip(p, index) {
                Err(e) => Err(e),
                Ok(mip) => match replacement_pixels(file, entry.format, entry.width, entry.height) {
                    Err(e) => Err(e),
                    Ok(source) => match with_pixels_replaced(
                        working,
                        p.exports[index],
                        mip,
                        source,
                    ) {
                        Err(e) => Err(e),
                        Ok(data) => match split9 {
                            Some(values) => if entry.has_split9 {
                                with_split9_in_place(data, p, index, values)
                            } else {
                                Ok(data)
                            },
                            None => Ok(data),
                        },
                    },
                },
            }
        },
    }
}

fn read_replacement(file: &[u8], format: UtxFormat, width: i32, height: i32) -> (r: Result<
    Vec<u8>,
    String,
>)
    ensures
        images::bytes_result(r, replacement_pixels(file@, format, width, height)),
{
    if format == UtxFormat::Rgba8 {
        let (w, h, pixels) = images::tga_pixels(file)?;
        if w != width || h != height {
            return Err(edits::wrong_size_message(width, height, w, h));
        }
        Ok(pixels)
    } else {
        images::validate_dds(file, width, height, format)?;
        let size: usize = file.len();
        assert(file@.subrange(128, size as int) =~= file@.skip(128));
        Ok(bytes::copy_range(file, 128, size))
    }
}

fn replace_pixels_in_place(
    working: Vec<u8>,
    export: &ExportEntry,
    mip: MipLocation,
    source: &[u8],
) -> (r: Result<Vec<u8>, String>)
    requires
        export.offset >= 0,
        export.offset + mip.pixel_offset <= usize::MAX,
    ensures
        images::bytes_result(r, with_pixels_replaced(working@, *export, mip, source@)),
{
    if source.len() < mip.size {
        return Err(
            text::join3(
                "Tamanho de pixels incompatível: esperado ",
                text::size_text(mip.size).as_str(),
                " bytes.",
            ),
        );
    }
    let base: usize = export.offset as usize;
    let start: usize = base + mip.pixel_offset;
    let end: usize = match start.checked_add(mip.size) {
        Some(end) => end,
        None => return Err("Offset de textura inválido.".to_owned()),
    };
    if end > working.len() {
        return Err("Os pixels estão fora do pacote.".to_owned());
    }
    let mut data = working;
    assert(source@.subrange(0, mip.size as int) =~= source@.take(mip.size as int));
    bytes::overwrite(&mut data, start, slice_subrange(source, 0, mip.size));
    let pointer: usize = match base.checked_add(mip.width_offset_position) {
        Some(pointer) => pointer,
        None => return Err("Offset de textura inválido.".to_owned()),
    };
    let value: i32 = bytes::checked_i32(end, "O pacote excede o limite de tamanho.")?;
    bytes::write_i32_at(&mut data, pointer, value)?;
    Ok(data)
}

/// Replaces the pixels of a texture by those of a file of the same format and
/// size, and its Split9 values where it has some.
pub fn apply_replacement(
    working: Vec<u8>,
    package: &Package,
    export_index: usize,
    replacement: &[u8],
    split9: Option<Split9>,
) -> (r: Result<Vec<u8>, String>)
    ensures
        images::bytes_result(
            r,
            with_replacement(working@, package@, export_index as int, replacement@, split9),
        ),
{
    let entry = package.entry_to_model(export_index)?;
    if !entry.format.is_previewable() {
        return Err(text::join3("Substituição não suportada para ", entry.format.label(), "."));
    }
    let mip = package.frontend_mip0_location(export_index)?;
    let source = read_replacement(replacement, entry.format, entry.width, entry.height)?;
    let export = package.export(export_index)?;
    let data = replace_pixels_in_place(working, &export, mip, source.as_slice())?;
    match split9 {
        Some(values) => if entry.has_split9 {
            patch_split9(data, package, export_index, values)
        } else {
            Ok(data)
        },
        None => Ok(data),
    }
}

} // verus!
