//! Listing the textures of a package, and reading their pictures.

use vstd::prelude::*;
use crate::entries::{AnimationPropertyPresence, AnimationValues, TextureProperties, TextureSettings};
use crate::formats::UtxFormat;
use crate::layout::{MipLocation, Split9};
use crate::package::{Package, PackageModel};
use crate::reader::{Dialect, Reader};
use crate::bytes;
use crate::edits;
use crate::entries;
use crate::formats;
use crate::images;
use crate::layout;
use crate::package;
use crate::reader;
use crate::sorting;
use crate::text;

verus! {

/// The animation of a listed texture, and the path of the texture that follows.
#[derive(Debug, Clone)]
pub struct ExportedAnimation {
    pub anim_next: Option<String>,
    pub values: AnimationValues,
    pub properties: AnimationPropertyPresence,
}

/// A texture of a package.
#[derive(Debug, Clone)]
pub struct UtxEntry {
    pub name: String,
    pub format: UtxFormat,
    pub export_index: usize,
    pub width: i32,
    pub height: i32,
    pub has_alpha: bool,
    pub has_split9: bool,
    pub split9_x1: i32,
    pub split9_x2: i32,
    pub split9_x3: i32,
    pub split9_y1: i32,
    pub split9_y2: i32,
    pub split9_y3: i32,
    pub settings: TextureSettings,
    pub animation: Option<ExportedAnimation>,
}

pub struct ExportedModel {
    pub anim_next: Option<Seq<char>>,
    pub values: AnimationValues,
    pub properties: AnimationPropertyPresence,
}

pub struct EntryModel {
    pub name: Seq<char>,
    pub format: UtxFormat,
    pub index: int,
    pub width: i32,
    pub height: i32,
    pub has_alpha: bool,
    pub has_split9: bool,
    pub split9: Split9,
    pub settings: TextureSettings,
    pub animation: Option<ExportedModel>,
}

impl View for ExportedAnimation {
    type V = ExportedModel;

    open spec fn view(&self) -> ExportedModel {
        ExportedModel {
            anim_next: match self.anim_next {
                Some(path) => Some(path@),
                None => None,
            },
            values: self.values,
            properties: self.properties,
        }
    }
}

impl View for UtxEntry {
    type V = EntryModel;

    open spec fn view(&self) -> EntryModel {
        EntryModel {
            name: self.name@,
            format: self.format,
            index: self.export_index as int,
            width: self.width,
            height: self.height,
            has_alpha: self.has_alpha,
            has_split9: self.has_split9,
            split9: Split9 {
                x1: self.split9_x1,
                x2: self.split9_x2,
                x3: self.split9_x3,
                y1: self.split9_y1,
                y2: self.split9_y2,
                y3: self.split9_y3,
            },
            settings: self.settings,
            animation: match self.animation {
                Some(animation) => Some(animation@),
                None => None,
            },
        }
    }
}

pub open spec fn entries_of(entries: Seq<UtxEntry>) -> Seq<EntryModel> {
    Seq::new(entries.len(), |i: int| entries[i]@)
}

impl ExportedAnimation {
    pub fn copy(&self) -> (r: Self)
        ensures
            r@ == self@,
    {
        ExportedAnimation {
            anim_next: match &self.anim_next {
                Some(path) => Some(path.clone()),
                None => None,
            },
            values: self.values,
            properties: self.properties,
        }
    }
}

impl UtxEntry {
    pub fn copy(&self) -> (r: Self)
        ensures
            r@ == self@,
    {
        UtxEntry {
            name: self.name.clone(),
            format: self.format,
            export_index: self.export_index,
            width: self.width,
            height: self.height,
            has_alpha: self.has_alpha,
            has_split9: self.has_split9,
            split9_x1: self.split9_x1,
            split9_x2: self.split9_x2,
            split9_x3: self.split9_x3,
            split9_y1: self.split9_y1,
            split9_y2: self.split9_y2,
            split9_y3: self.split9_y3,
            settings: self.settings,
            animation: match &self.animation {
                Some(animation) => Some(animation.copy()),
                None => None,
            },
        }
    }
}

/// The path of the object that a reference leads to.
pub open spec fn referenced_path(p: PackageModel, reference: i32) -> Result<Seq<char>, Seq<char>> {
    if reference > 0 {
        if reference - 1 < p.exports.len() {
            package::name_of(Dialect::Frontend, p, p.exports[reference - 1])
        } else {
            Err("Referência de animação inválida."@)
        }
    } else if reference < 0 {
        package::import_path_of(Dialect::Frontend, p.names, p.imports, p.exports, -reference - 1, 0)
    } else {
        Err("Referência de animação nula inválida."@)
    }
}

/// What the properties of an export say, and its first mip map.
pub open spec fn texture_in(p: PackageModel, raw: Seq<u8>) -> Result<
    (TextureProperties, MipLocation),
    Seq<char>,
> {
    match entries::properties_of(p.names, raw, 0) {
        Err(e) => Err(e),
        Ok((t, q)) => match reader::after_extra(Dialect::Frontend, raw, q, p.version, p.licensee) {
            Err(e) => Err(e),
            Ok(count) => match layout::mip_from(Dialect::Frontend, raw, count) {
                Err(e) => Err(e),
                Ok(mip) => Ok((t, mip)),
            },
        },
    }
}

/// Properties with the dimensions of the mip map where they have none, and the
/// format that its length suggests where they have none.
pub open spec fn completed(t: TextureProperties, mip: MipLocation) -> TextureProperties {
    let width = if t.width <= 0 {
        mip.width
    } else {
        t.width
    };
    let height = if t.height <= 0 {
        mip.height
    } else {
        t.height
    };
    TextureProperties {
        width,
        height,
        format: if t.format == UtxFormat::Unknown {
            images::guessed_format(mip.size as int, width, height)
        } else {
            t.format
        },
        ..t
    }
}

/// The animation of a listed texture, where it has one. A reference that leads
/// nowhere is left out.
pub open spec fn exported_animation(p: PackageModel, t: TextureProperties) -> Option<ExportedModel> {
    if entries::animated(t.animation) {
        Some(
            ExportedModel {
                anim_next: if t.animation.anim_next != 0 {
                    match referenced_path(p, t.animation.anim_next) {
                        Ok(path) => Some(path),
                        Err(_) => None,
                    }
                } else {
                    None
                },
                values: t.animation,
                properties: t.animation_properties,
            },
        )
    } else {
        None
    }
}

/// The texture at `index`.
#[verifier::opaque]
pub open spec fn entry_of(p: PackageModel, index: int) -> Result<EntryModel, Seq<char>> {
    match package::nth_export(p, index) {
        Err(e) => Err(e),
        Ok(export) => match package::class_path(Dialect::Frontend, p, export) {
            Err(e) => Err(e),
            Ok(class) => if !text::same_folded(class, "Engine.Texture"@) {
                Err(edits::not_a_texture_text())
            } else {
                match package::data_of(Dialect::Frontend, p.data, export) {
                    Err(e) => Err(e),
                    Ok(raw) => match texture_in(p, raw) {
                        Err(e) => Err(e),
                        Ok((found, mip)) => match package::name_of(Dialect::Frontend, p, export) {
                            Err(e) => Err(e),
                            Ok(name) => {
                                let t = completed(found, mip);
                                Ok(
                                    EntryModel {
                                        name,
                                        format: t.format,
                                        index,
                                        width: t.width,
                                        height: t.height,
                                        has_alpha: t.settings.alpha == Some(true),
                                        has_split9: t.has_split9,
                                        split9: t.split9,
                                        settings: t.settings,
                                        animation: exported_animation(p, t),
                                    },
                                )
                            },
                        },
                    },
                }
            },
        },
    }
}

/// The textures among the first `n` exports that can be read.
pub open spec fn readable_entries(p: PackageModel, n: nat) -> Seq<EntryModel>
    decreases n,
{
    if n == 0 {
        Seq::empty()
    } else {
        let before = readable_entries(p, (n - 1) as nat);
        match entry_of(p, n - 1) {
            Ok(entry) => if package::is_texture_export(Dialect::Frontend, p, p.exports[n - 1]) {
                before.push(entry)
            } else {
                before
            },
            Err(_) => before,
        }
    }
}

/// The names by which entries are sorted.
pub open spec fn sort_keys(entries: Seq<EntryModel>) -> Seq<Seq<char>> {
    Seq::new(entries.len(), |i: int| text::lower_text(entries[i].name))
}

/// Whether `listed` holds the entries `found` by ascending name, without regard
/// to case, entries of one name as they came.
pub open spec fn listed_in_order(found: Seq<EntryModel>, listed: Seq<EntryModel>) -> bool {
    exists|order: Seq<usize>| #[trigger]
        sorting::sorted_order(sort_keys(found), order) && listed == Seq::new(
            order.len(),
            |i: int| found[order[i] as int],
        )
}

/// The first mip map of an export, with its place in the package.
pub open spec fn located_mip(p: PackageModel, index: int) -> Result<MipLocation, Seq<char>> {
    match package::nth_export(p, index) {
        Err(e) => Err(e),
        Ok(export) => match package::data_of(Dialect::Frontend, p.data, export) {
            Err(e) => Err(e),
            Ok(raw) => match texture_in(p, raw) {
                Err(e) => Err(e),
                Ok((_, mip)) => if export.offset + mip.pixel_offset > usize::MAX {
                    Err("Offset de textura inválido."@)
                } else {
                    Ok(mip)
                },
            },
        },
    }
}

/// The pixels of the first mip map of an export.
pub open spec fn pixels_of(p: PackageModel, index: int) -> Result<Seq<u8>, Seq<char>> {
    match located_mip(p, index) {
        Err(e) => Err(e),
        Ok(mip) => Ok(
            package::data_of(Dialect::Frontend, p.data, p.exports[index])->Ok_0.subrange(
                mip.pixel_offset as int,
                mip.pixel_offset + mip.size,
            ),
        ),
    }
}

/// The file that a texture is exported to: a TGA or DDS file, or its bare
/// pixels.
pub open spec fn exported_file(p: PackageModel, entry: EntryModel) -> Result<Seq<u8>, Seq<char>> {
    match pixels_of(p, entry.index) {
        Err(e) => Err(e),
        Ok(pixels) => if entry.format == UtxFormat::Rgba8 {
            images::tga_file(pixels, entry.width, entry.height)
        } else if formats::compressed(entry.format) {
            images::dds_file(pixels, entry.width, entry.height, entry.format)
        } else {
            Ok(pixels)
        },
    }
}

/// An entry that is handed to callers.
pub open spec fn entry_result(r: Result<UtxEntry, String>, model: Result<EntryModel, Seq<char>>) -> bool {
    match r {
        Ok(entry) => model == Ok::<EntryModel, Seq<char>>(entry@),
        Err(message) => model == Err::<EntryModel, Seq<char>>(message@),
    }
}

impl Package {
    /// The path of the object that a reference leads to.
    pub fn object_reference_path(&self, reference: i32) -> (r: Result<String, String>)
        ensures
            match r {
                Ok(path) => referenced_path(self@, reference) == Ok::<Seq<char>, Seq<char>>(path@),
                Err(message) => referenced_path(self@, reference) == Err::<Seq<char>, Seq<char>>(
                    message@,
                ),
            },
    {
        if reference > 0 {
            let index: usize = (reference - 1) as usize;
            if index >= self.exports.len() {
                return Err("Referência de animação inválida.".to_owned());
            }
            let export = self.exports[index];
            return self.inner_name(Dialect::Frontend, &export);
        }
        if reference < 0 {
            let index: usize = (-(reference as i64) - 1) as usize;
            return self.import_path(Dialect::Frontend, index, 0);
        }
        Err("Referência de animação nula inválida.".to_owned())
    }

    fn read_texture(&self, raw: &[u8]) -> (r: Result<(TextureProperties, MipLocation), String>)
        ensures
            text::seen(r) == texture_in(self@, raw@),
            r matches Ok((_, mip)) ==> mip.pixel_offset + mip.size <= raw@.len(),
    {
        let mut reader = Reader::new(raw, Dialect::Frontend);
        let available: usize = raw.len();
        let found = entries::read_texture_properties(&mut reader, self)?;
        reader.skip_unreal_extra(self.version, self.licensee)?;
        proof {
            layout::mip_bounds(Dialect::Frontend, raw@, reader.position as int);
        }
        let mip = layout::read_mip(&mut reader)?;
        Ok((found, mip))
    }

    fn animation_of(&self, t: &TextureProperties) -> (r: Option<ExportedAnimation>)
        ensures
            match r {
                Some(animation) => exported_animation(self@, *t) == Some(animation@),
                None => exported_animation(self@, *t) is None,
            },
    {
        if !t.animation.is_active() {
            return None;
        }
        let anim_next = if t.animation.anim_next != 0 {
            match self.object_reference_path(t.animation.anim_next) {
                Ok(path) => Some(path),
                Err(_) => None,
            }
        } else {
            None
        };
        Some(
            ExportedAnimation {
                anim_next,
                values: t.animation,
                properties: t.animation_properties,
            },
        )
    }

    /// The texture at `export_index`.
    pub fn entry_to_model(&self, export_index: usize) -> (r: Result<UtxEntry, String>)
        ensures
            entry_result(r, entry_of(self@, export_index as int)),
    {
        proof {
            reveal(entry_of);
        }
        let export = self.export(export_index)?;
        let class = self.class_name(Dialect::Frontend, &export)?;
        if !text::equals_folded(class.as_str(), "Engine.Texture") {
            return Err("A entrada selecionada não é uma textura Engine.Texture.".to_owned());
        }
        let raw = self.export_data(Dialect::Frontend, &export)?;
        let (mut texture, mip) = self.read_texture(raw)?;
        if texture.width <= 0 {
            texture.width = mip.width;
        }
        if texture.height <= 0 {
            texture.height = mip.height;
        }
        if texture.format == UtxFormat::Unknown {
            texture.format = images::detect_format(mip.size, texture.width, texture.height);
        }
        let animation = self.animation_of(&texture);
        let name = self.inner_name(Dialect::Frontend, &export)?;
        let has_alpha = match texture.settings.alpha {
            Some(alpha) => alpha,
            None => false,
        };
        Ok(
            UtxEntry {
                name,
                format: texture.format,
                export_index,
                width: texture.width,
                height: texture.height,
                has_alpha,
                has_split9: texture.has_split9,
                split9_x1: texture.split9.x1,
                split9_x2: texture.split9.x2,
                split9_x3: texture.split9.x3,
                split9_y1: texture.split9.y1,
                split9_y2: texture.split9.y2,
                split9_y3: texture.split9.y3,
                settings: texture.settings,
                animation,
            },
        )
    }

    /// The textures of the package that can be read, by name.
    pub fn scan_entries(&self) -> (r: Vec<UtxEntry>)
        ensures
            listed_in_order(readable_entries(self@, self@.exports.len()), entries_of(r@)),
    {
        let mut found: Vec<UtxEntry> = Vec::new();
        let mut keys: Vec<Vec<char>> = Vec::new();
        let mut i: usize = 0;
        assert(entries_of(found@) =~= Seq::<EntryModel>::empty());
        assert(sorting::views(keys@) =~= sort_keys(entries_of(found@)));
        while i < self.exports.len()
            invariant
                i <= self.exports@.len(),
                entries_of(found@) == readable_entries(self@, i as nat),
                sorting::views(keys@) == sort_keys(entries_of(found@)),
            decreases self.exports.len() - i,
        {
            let export = self.exports[i];
            if self.is_texture(Dialect::Frontend, &export) {
                if let Ok(entry) = self.entry_to_model(i) {
                    let ghost before = entries_of(found@);
                    let ghost model = entry@;
                    let ghost keys_before = sorting::views(keys@);
                    let key = text::chars_of(text::lowered(entry.name.as_str()).as_str());
                    let ghost key_model = key@;
                    keys.push(key);
                    found.push(entry);
                    proof {
                        assert(entries_of(found@) =~= before.push(model));
                        assert(sorting::views(keys@) =~= keys_before.push(key_model));
                        assert(sorting::views(keys@) =~= sort_keys(entries_of(found@)));
                    }
                }
            }
            i = i + 1;
        }
        let order = sorting::sort_order(&keys);
        let mut listed: Vec<UtxEntry> = Vec::new();
        let ghost all = entries_of(found@);
        let ghost target = Seq::new(order@.len(), |i: int| all[order@[i] as int]);
        let mut k: usize = 0;
        assert(entries_of(listed@) =~= target.take(0));
        while k < order.len()
            invariant
                k <= order@.len(),
                all == entries_of(found@),
                sorting::sorted_order(sort_keys(all), order@),
                target == Seq::new(order@.len(), |i: int| all[order@[i] as int]),
                entries_of(listed@) == target.take(k as int),
            decreases order.len() - k,
        {
            let ghost before = entries_of(listed@);
            let entry = found[order[k]].copy();
            let ghost model = entry@;
            listed.push(entry);
            k = k + 1;
            assert(entries_of(listed@) =~= before.push(model));
            assert(entries_of(listed@) =~= target.take(k as int));
        }
        assert(target.take(k as int) =~= target);
        listed
    }

    /// The first mip map of an export, whose place in the package can be told.
    pub fn frontend_mip0_location(&self, export_index: usize) -> (r: Result<MipLocation, String>)
        ensures
            text::seen(r) == located_mip(self@, export_index as int),
            r matches Ok(mip) ==> mip.pixel_offset + mip.size <= usize::MAX,
    {
        let export = self.export(export_index)?;
        let raw = self.export_data(Dialect::Frontend, &export)?;
        let size: usize = raw.len();
        let (_, mip) = self.read_texture(raw)?;
        let base: usize = reader::read_offset(Dialect::Frontend, export.offset, "dados de textura")?;
        if base.checked_add(mip.pixel_offset).is_none() {
            return Err("Offset de textura inválido.".to_owned());
        }
        Ok(mip)
    }

    /// The pixels of the first mip map of an export.
    pub fn mip0_pixels(&self, export_index: usize) -> (r: Result<Vec<u8>, String>)
        ensures
            images::bytes_result(r, pixels_of(self@, export_index as int)),
    {
        let export = self.export(export_index)?;
        let raw = self.export_data(Dialect::Frontend, &export)?;
        let (_, mip) = self.read_texture(raw)?;
        let base: usize = reader::read_offset(Dialect::Frontend, export.offset, "dados de textura")?;
        if base.checked_add(mip.pixel_offset).is_none() {
            return Err("Offset de textura inválido.".to_owned());
        }
        Ok(bytes::copy_range(raw, mip.pixel_offset, mip.pixel_offset + mip.size))
    }

    /// The file that a texture is exported to.
    pub fn export_bytes(&self, entry: &UtxEntry) -> (r: Result<Vec<u8>, String>)
        ensures
            images::bytes_result(r, exported_file(self@, entry@)),
    {
        let pixels = self.mip0_pixels(entry.export_index)?;
        if entry.format == UtxFormat::Rgba8 {
            images::build_tga(pixels.as_slice(), entry.width, entry.height)
        } else if entry.format.is_dxt() {
            images::build_dds(pixels.as_slice(), entry.width, entry.height, entry.format)
        } else {
            Ok(pixels)
        }
    }
}

} // verus!
