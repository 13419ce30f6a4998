//! Adding textures to a package: each new texture takes its structure from a
//! texture of the package, or from one of a template package.

use vstd::prelude::*;
use crate::edits::{RequestModel, TextureImportRequest};
use crate::layout::SerializedTexture;
use crate::names::{NameModel, NameTable};
use crate::package::{ExportEntry, Package, PackageModel};
use crate::properties::{TextureEditorEdit, TexturePropertyStream};
use crate::reader::Dialect;
use crate::texture_engine::{OuterModel, TextureImportOutcome};
use crate::bytes;
use crate::edits;
use crate::layout;
use crate::names;
use crate::package;
use crate::properties;
use crate::tables;
use crate::text;
use crate::texture_engine;

verus! {

/// The index of each name in lower case. Of two equal names the last counts.
pub open spec fn names_map(names: Seq<NameModel>) -> Map<Seq<char>, i32>
    decreases names.len(),
{
    if names.len() == 0 {
        Map::empty()
    } else {
        let before = names_map(names.drop_last());
        if names.len() - 1 > i32::MAX {
            before
        } else {
            before.insert(text::lower_text(names.last().name), (names.len() - 1) as i32)
        }
    }
}

/// The names that hold `name`, the map of their indices, and its index.
pub open spec fn interned_indexed(
    names: Seq<NameModel>,
    index: Map<Seq<char>, i32>,
    name: Seq<char>,
) -> Result<(Seq<NameModel>, Map<Seq<char>, i32>, i32), Seq<char>> {
    let key = text::lower_text(name);
    if index.contains_key(key) {
        Ok((names, index, index[key]))
    } else {
        match names::with_new_name(names, name) {
            Err(e) => Err(e),
            Ok((more, i)) => Ok((more, index.insert(key, i), i)),
        }
    }
}

struct NameKey {
    key: String,
    index: i32,
}

struct NameIndex {
    entries: Vec<NameKey>,
}

spec fn map_of_keys(entries: Seq<NameKey>) -> Map<Seq<char>, i32>
    decreases entries.len(),
{
    if entries.len() == 0 {
        Map::empty()
    } else {
        map_of_keys(entries.drop_last()).insert(entries.last().key@, entries.last().index)
    }
}

impl NameIndex {
    spec fn map(&self) -> Map<Seq<char>, i32> {
        map_of_keys(self.entries@)
    }

    fn insert(&mut self, key: String, index: i32)
        ensures
            final(self).map() == old(self).map().insert(key@, index),
    {
        let ghost before = self.entries@;
        self.entries.push(NameKey { key, index });
        assert(self.entries@.drop_last() =~= before);
    }

    fn get(&self, key: &str) -> (r: Option<i32>)
        ensures
            r == (if self.map().contains_key(key@) {
                Some(self.map()[key@])
            } else {
                None
            }),
    {
        let mut i: usize = self.entries.len();
        assert(self.entries@.take(i as int) =~= self.entries@);
        while i > 0
            invariant
                i <= self.entries@.len(),
                self.map().contains_key(key@) == map_of_keys(
                    self.entries@.take(i as int),
                ).contains_key(key@),
                self.map().contains_key(key@) ==> self.map()[key@] == map_of_keys(
                    self.entries@.take(i as int),
                )[key@],
            decreases i,
        {
            proof {
                assert(self.entries@.take(i as int).drop_last() =~= self.entries@.take(i - 1));
            }
            i = i - 1;
            if text::equal_text(self.entries[i].key.as_str(), key) {
                return Some(self.entries[i].index);
            }
        }
        None
    }
}

fn index_names(names: &NameTable) -> (r: NameIndex)
    ensures
        r.map() == names_map(names@),
{
    let mut index = NameIndex { entries: Vec::new() };
    let mut i: usize = 0;
    assert(names@.take(0) =~= Seq::<NameModel>::empty());
    while i < names.entries.len()
        invariant
            i <= names.entries@.len(),
            index.map() == names_map(names@.take(i as int)),
        decreases names.entries.len() - i,
    {
        proof {
            assert(names@.take(i + 1).drop_last() =~= names@.take(i as int));
            assert(names@.take(i + 1).last() == names.entries@[i as int]@);
        }
        if i <= 0x7fff_ffff {
            index.insert(text::lowered(names.entries[i].name.as_str()), i as i32);
        }
        i = i + 1;
    }
    assert(names@.take(i as int) =~= names@);
    index
}

fn intern_indexed(names: &mut NameTable, index: &mut NameIndex, name: &str) -> (r: Result<
    i32,
    String,
>)
    ensures
        match r {
            Ok(i) => interned_indexed(old(names)@, old(index).map(), name@) == Ok::<
                (Seq<NameModel>, Map<Seq<char>, i32>, i32),
                Seq<char>,
            >((final(names)@, final(index).map(), i)),
            Err(message) => interned_indexed(old(names)@, old(index).map(), name@) == Err::<
                (Seq<NameModel>, Map<Seq<char>, i32>, i32),
                Seq<char>,
            >(message@),
        },
{
    let key = text::lowered(name);
    match index.get(key.as_str()) {
        Some(i) => Ok(i),
        None => {
            let i: i32 = names.push_name(name)?;
            index.insert(key, i);
            Ok(i)
        },
    }
}

/// Whether a texture can serve as the structure of a new one.
pub open spec fn is_seed(
    p: PackageModel,
    raw: Seq<u8>,
    requires_split9: bool,
    requires_animation: bool,
) -> Result<bool, Seq<char>> {
    match properties::stream_from(raw, p.names, 0) {
        Err(e) => Err(e),
        Ok(stream) => match edits::package_layout(Dialect::Engine, p, raw) {
            Err(e) => Err(e),
            Ok(layout) => {
                let has_split9 = properties::state_of(stream.properties).split9 == Some(true);
                let has_animation = layout.anim_next is Some && layout.anim_next != Some(0i32);
                Ok(
                    if requires_split9 && requires_animation {
                        has_animation
                    } else {
                        has_split9 == requires_split9 && has_animation == requires_animation
                    },
                )
            },
        },
    }
}

pub open spec fn no_seed_text(requires_split9: bool, requires_animation: bool) -> Seq<char> {
    let kind = if requires_split9 && requires_animation {
        "uma textura Split9 animada"@
    } else if requires_split9 {
        "uma textura Split9"@
    } else if requires_animation {
        "uma textura animada"@
    } else {
        "uma textura comum"@
    };
    "O UTX não possui "@ + kind + " para usar como modelo estrutural."@
}

/// The first fitting texture of the group from `from` on, or else the first of
/// any group, which is `fallback` where one came before.
pub open spec fn seed_from(
    p: PackageModel,
    group: Seq<char>,
    requires_split9: bool,
    requires_animation: bool,
    from: int,
    fallback: Option<usize>,
) -> Result<usize, Seq<char>>
    decreases p.exports.len() - from,
{
    if from < 0 || from >= p.exports.len() {
        match fallback {
            Some(index) => Ok(index),
            None => Err(no_seed_text(requires_split9, requires_animation)),
        }
    } else if !package::is_texture_export(Dialect::Engine, p, p.exports[from]) {
        seed_from(p, group, requires_split9, requires_animation, from + 1, fallback)
    } else {
        match package::data_of(Dialect::Engine, p.data, p.exports[from]) {
            Err(e) => Err(e),
            Ok(raw) => match is_seed(p, raw, requires_split9, requires_animation) {
                Err(e) => Err(e),
                Ok(false) => seed_from(
                    p,
                    group,
                    requires_split9,
                    requires_animation,
                    from + 1,
                    fallback,
                ),
                Ok(true) => match package::name_of(Dialect::Engine, p, p.exports[from]) {
                    Err(e) => Err(e),
                    Ok(name) => if tables::in_group(Dialect::Engine, name, group) {
                        Ok(from as usize)
                    } else {
                        seed_from(
                            p,
                            group,
                            requires_split9,
                            requires_animation,
                            from + 1,
                            if fallback is Some {
                                fallback
                            } else {
                                Some(from as usize)
                            },
                        )
                    },
                },
            },
        }
    }
}

/// Whether the textures of a template can be stored in a package: its names and
/// imports stand in the package too, at the same places.
pub open spec fn compatible(p: PackageModel, template: PackageModel) -> bool {
    &&& p.version == template.version
    &&& p.licensee == template.licensee
    &&& p.names.len() >= template.names.len()
    &&& p.imports.len() >= template.imports.len()
    &&& forall|i: int|
        0 <= i < template.names.len() ==> {
            let expected = #[trigger] template.names[i];
            text::same_folded(expected.name, "UnrealTlp"@) || (text::same_folded(
                p.names[i].name,
                expected.name,
            ) && p.names[i].flags == expected.flags)
        }
    &&& forall|i: int|
        0 <= i < template.imports.len() ==> #[trigger] template.imports[i] == p.imports[i]
}

/// The texture that a new one takes its structure from.
#[derive(Debug, Clone, Copy, PartialEq, Eq, Structural)]
pub enum TextureSeedSource {
    Package(usize),
    Template(usize),
}

/// The textures chosen so far, by the kind of the textures to come.
#[derive(Debug, Clone, Copy)]
pub struct Seeds {
    pub animation: Option<TextureSeedSource>,
    pub split9: Option<TextureSeedSource>,
    pub common: Option<TextureSeedSource>,
}

pub open spec fn no_seeds() -> Seeds {
    Seeds { animation: None, split9: None, common: None }
}

pub open spec fn seed_of(seeds: Seeds, request: RequestModel) -> Option<TextureSeedSource> {
    if request.animation is Some {
        seeds.animation
    } else if request.split9 is Some {
        seeds.split9
    } else {
        seeds.common
    }
}

pub open spec fn with_seed(
    seeds: Seeds,
    request: RequestModel,
    seed: TextureSeedSource,
) -> Seeds {
    if request.animation is Some {
        Seeds { animation: Some(seed), ..seeds }
    } else if request.split9 is Some {
        Seeds { split9: Some(seed), ..seeds }
    } else {
        Seeds { common: Some(seed), ..seeds }
    }
}

/// A texture of the package or, where it has none that fits, of a template that
/// is compatible with it.
pub open spec fn new_seed(
    p: PackageModel,
    template: PackageModel,
    group: Seq<char>,
    request: RequestModel,
) -> Result<TextureSeedSource, Seq<char>> {
    let split9 = request.split9 is Some;
    let animation = request.animation is Some;
    match seed_from(p, group, split9, animation, 0, None) {
        Ok(index) => Ok(TextureSeedSource::Package(index)),
        Err(error) => if compatible(p, template) {
            match seed_from(template, group, split9, animation, 0, None) {
                Ok(index) => Ok(TextureSeedSource::Template(index)),
                Err(e) => Err(e),
            }
        } else {
            Err(error)
        },
    }
}

/// The seed for a texture: the one chosen before for its kind, or a new one.
pub open spec fn chosen_seed(
    p: PackageModel,
    template: PackageModel,
    group: Seq<char>,
    seeds: Seeds,
    request: RequestModel,
) -> Result<(Seeds, TextureSeedSource), Seq<char>> {
    match seed_of(seeds, request) {
        Some(seed) => Ok((seeds, seed)),
        None => match new_seed(p, template, group, request) {
            Err(e) => Err(e),
            Ok(seed) => Ok((with_seed(seeds, request, seed), seed)),
        },
    }
}

/// A new texture from the bytes of a seed, and the place of its mip pointer and
/// of its dimensions.
pub open spec fn texture_from_seed(
    seed_package: PackageModel,
    raw: Seq<u8>,
    request: RequestModel,
) -> Result<(Seq<u8>, int, int), Seq<char>> {
    match edits::package_layout(Dialect::Engine, seed_package, raw) {
        Err(e) => Err(e),
        Ok(layout) => if request.image.width <= 0 || request.image.height <= 0 {
            Err("Dimensões de textura inválidas."@)
        } else {
            match layout::new_texture(Dialect::Engine, raw, layout, request.image, None) {
                Err(e) => Err(e),
                Ok((bytes, dimensions)) => Ok((bytes, layout.mip_width_offset as int, dimensions)),
            }
        },
    }
}

/// The tables and objects while textures are added.
pub struct Adding {
    pub names: Seq<NameModel>,
    pub index: Map<Seq<char>, i32>,
    pub exports: Seq<ExportEntry>,
    pub appended: Seq<u8>,
    pub seeds: Seeds,
}

/// The bytes of a texture that will stand at `at`.
pub open spec fn pointed_at(made: (Seq<u8>, int, int), at: int) -> Result<Seq<u8>, Seq<char>> {
    if at + made.2 > usize::MAX {
        Err("Offset de textura inválido."@)
    } else {
        match bytes::i32_of_len(at + made.2, "O pacote excede o limite de tamanho."@) {
            Err(e) => Err(e),
            Ok(value) => bytes::with_i32_at(made.0, made.1, value),
        }
    }
}

/// The state after one more texture, which is built from `seed`.
#[verifier::opaque]
pub open spec fn with_built(
    data_len: int,
    outer: i32,
    state: Adding,
    seed_package: PackageModel,
    seed_index: int,
    request: RequestModel,
) -> Result<Adding, Seq<char>> {
    match package::nth_export(seed_package, seed_index) {
        Err(e) => Err(e),
        Ok(seed) => match package::data_of(Dialect::Engine, seed_package.data, seed) {
            Err(e) => Err(e),
            Ok(raw) => match texture_from_seed(seed_package, raw, request) {
                Err(e) => Err(e),
                Ok(made) => {
                    let at = data_len + state.appended.len();
                    if at > usize::MAX {
                        Err("Tamanho de pacote inválido."@)
                    } else {
                        match pointed_at(made, at as int) {
                            Err(e) => Err(e),
                            Ok(bytes) => match interned_indexed(
                                state.names,
                                state.index,
                                request.name,
                            ) {
                                Err(e) => Err(e),
                                Ok((names, index, name_index)) => match bytes::i32_of_len(
                                    bytes.len() as int,
                                    "A textura é grande demais."@,
                                ) {
                                    Err(e) => Err(e),
                                    Ok(size) => match bytes::i32_of_len(
                                        at as int,
                                        "O pacote excede 2 GB."@,
                                    ) {
                                        Err(e) => Err(e),
                                        Ok(offset) => Ok(
                                            Adding {
                                                names,
                                                index,
                                                exports: state.exports.push(
                                                    ExportEntry {
                                                        class: seed.class,
                                                        super_class: seed.super_class,
                                                        package: outer,
                                                        name_index,
                                                        flags: seed.flags,
                                                        size,
                                                        offset,
                                                    },
                                                ),
                                                appended: state.appended + bytes,
                                                seeds: state.seeds,
                                            },
                                        ),
                                    },
                                },
                            },
                        }
                    }
                },
            },
        },
    }
}

/// The state after one more texture.
#[verifier::opaque]
pub open spec fn with_texture(
    p: PackageModel,
    template: PackageModel,
    group: Seq<char>,
    outer: i32,
    state: Adding,
    request: RequestModel,
) -> Result<Adding, Seq<char>> {
    match chosen_seed(p, template, group, state.seeds, request) {
        Err(e) => Err(e),
        Ok((seeds, TextureSeedSource::Package(i))) => with_built(
            p.data.len() as int,
            outer,
            Adding { seeds, ..state },
            p,
            i as int,
            request,
        ),
        Ok((seeds, TextureSeedSource::Template(i))) => with_built(
            p.data.len() as int,
            outer,
            Adding { seeds, ..state },
            template,
            i as int,
            request,
        ),
    }
}

/// The state after the first `n` textures.
pub open spec fn with_textures(
    p: PackageModel,
    template: PackageModel,
    group: Seq<char>,
    outer: i32,
    start: Adding,
    requests: Seq<RequestModel>,
    n: nat,
) -> Result<Adding, Seq<char>>
    decreases n,
{
    if n == 0 {
        Ok(start)
    } else {
        match with_textures(p, template, group, outer, start, requests, (n - 1) as nat) {
            Err(e) => Err(e),
            Ok(state) => with_texture(p, template, group, outer, state, requests[n - 1]),
        }
    }
}

proof fn with_textures_error_spreads(
    p: PackageModel,
    template: PackageModel,
    group: Seq<char>,
    outer: i32,
    start: Adding,
    requests: Seq<RequestModel>,
    k: nat,
    n: nat,
)
    requires
        k <= n,
        with_textures(p, template, group, outer, start, requests, k) is Err,
    ensures
        with_textures(p, template, group, outer, start, requests, n) == with_textures(
            p,
            template,
            group,
            outer,
            start,
            requests,
            k,
        ),
    decreases n,
{
    if k < n {
        with_textures_error_spreads(
            p,
            template,
            group,
            outer,
            start,
            requests,
            k,
            (n - 1) as nat,
        );
    }
}

/// The state before the first texture, once the group has its place.
pub open spec fn start_of(place: OuterModel, p: PackageModel, group: Seq<char>) -> Adding {
    let index = names_map(p.names);
    Adding {
        names: place.names,
        index: if !place.created {
            index
        } else {
            match names::index_in(place.names, group) {
                Some(i) => index.insert(text::lower_text(group), i),
                None => index,
            }
        },
        exports: place.exports,
        appended: place.bytes,
        seeds: no_seeds(),
    }
}

/// The edits that the first `n` of the requests ask for, each on the export that
/// `targets` names for it.
pub open spec fn import_edits(
    p: PackageModel,
    requests: Seq<RequestModel>,
    targets: Seq<usize>,
    n: nat,
) -> Result<Seq<(usize, TextureEditorEdit)>, Seq<char>>
    decreases n,
{
    if n == 0 {
        Ok(Seq::empty())
    } else {
        match import_edits(p, requests, targets, (n - 1) as nat) {
            Err(e) => Err(e),
            Ok(edits) => match edits::import_edit_of(p, requests[n - 1], targets[n - 1] as int) {
                Err(e) => Err(e),
                Ok(None) => Ok(edits),
                Ok(Some(edit)) => Ok(edits.push((targets[n - 1], edit))),
            },
        }
    }
}

proof fn import_edits_error_spreads(
    p: PackageModel,
    requests: Seq<RequestModel>,
    targets: Seq<usize>,
    k: nat,
    n: nat,
)
    requires
        k <= n,
        import_edits(p, requests, targets, k) is Err,
    ensures
        import_edits(p, requests, targets, n) == import_edits(p, requests, targets, k),
    decreases n,
{
    if k < n {
        import_edits_error_spreads(p, requests, targets, k, (n - 1) as nat);
    }
}

/// The indices that `n` new exports behind `first` exports have.
pub open spec fn new_targets(first: int, n: nat) -> Seq<usize> {
    Seq::new(n, |i: int| (first + i) as usize)
}

pub open spec fn added_outcomes(targets: Seq<usize>) -> Seq<TextureImportOutcome> {
    Seq::new(
        targets.len(),
        |i: int| TextureImportOutcome { export_index: targets[i], added: true },
    )
}

/// The package with new textures in a group, before they are given the properties
/// that are asked for, and the index of the first of them.
pub open spec fn built_with(
    p: PackageModel,
    template: PackageModel,
    group: Seq<char>,
    requests: Seq<RequestModel>,
) -> Result<(PackageModel, int), Seq<char>> {
    if !texture_engine::is_group_name(group) {
        Err(texture_engine::group_name_text())
    } else {
        match texture_engine::with_outer(p, group) {
            Err(e) => Err(e),
            Ok(place) => match with_textures(
                p,
                template,
                group,
                place.outer,
                start_of(place, p, group),
                requests,
                requests.len(),
            ) {
                Err(e) => Err(e),
                Ok(state) => match tables::rebuilt(
                    p,
                    p.data + state.appended,
                    state.names,
                    place.imports,
                    state.exports,
                ) {
                    Err(e) => Err(e),
                    Ok(built) => Ok((built, place.exports.len() as int)),
                },
            },
        }
    }
}

/// The package with new textures in a group, and what became of each.
#[verifier::opaque]
pub open spec fn with_added(
    p: PackageModel,
    template: PackageModel,
    group: Seq<char>,
    requests: Seq<RequestModel>,
) -> Result<(PackageModel, Seq<TextureImportOutcome>), Seq<char>> {
    if requests.len() == 0 {
        Ok((p, Seq::empty()))
    } else {
        match built_with(p, template, group, requests) {
            Err(e) => Err(e),
            Ok((built, first)) => {
                let targets = new_targets(first, requests.len());
                match import_edits(built, requests, targets, requests.len()) {
                    Err(e) => Err(e),
                    Ok(edits) => match edits::edited(built, edits) {
                        Err(e) => Err(e),
                        Ok(after) => Ok((after, added_outcomes(targets))),
                    },
                }
            },
        }
    }
}

proof fn one_export_more(
    p: PackageModel,
    template: PackageModel,
    group: Seq<char>,
    outer: i32,
    state: Adding,
    request: RequestModel,
)
    ensures
        with_texture(p, template, group, outer, state, request) matches Ok(after) ==> after.exports.len()
            == state.exports.len() + 1,
{
    reveal(with_texture);
    reveal(with_built);
}

struct AddingState {
    names: NameTable,
    index: NameIndex,
    exports: Vec<ExportEntry>,
    appended: Vec<u8>,
    seeds: Seeds,
}

impl AddingState {
    spec fn model(&self) -> Adding {
        Adding {
            names: self.names@,
            index: self.index.map(),
            exports: self.exports@,
            appended: self.appended@,
            seeds: self.seeds,
        }
    }
}

fn no_seed_message(requires_split9: bool, requires_animation: bool) -> (r: String)
    ensures
        r@ == no_seed_text(requires_split9, requires_animation),
{
    let kind = if requires_split9 && requires_animation {
        "uma textura Split9 animada"
    } else if requires_split9 {
        "uma textura Split9"
    } else if requires_animation {
        "uma textura animada"
    } else {
        "uma textura comum"
    };
    text::join3("O UTX não possui ", kind, " para usar como modelo estrutural.")
}

/// The texture chosen before for the kind of a request.
fn cached_seed(seeds: &Seeds, request: &TextureImportRequest) -> (r: Option<TextureSeedSource>)
    ensures
        r == seed_of(*seeds, request@),
{
    if request.animation.is_some() {
        seeds.animation
    } else if request.split9.is_some() {
        seeds.split9
    } else {
        seeds.common
    }
}

fn remember_seed(seeds: &mut Seeds, request: &TextureImportRequest, seed: TextureSeedSource)
    ensures
        *final(seeds) == with_seed(*old(seeds), request@, seed),
{
    if request.animation.is_some() {
        seeds.animation = Some(seed);
    } else if request.split9.is_some() {
        seeds.split9 = Some(seed);
    } else {
        seeds.common = Some(seed);
    }
}

/// Builds the object of a new texture from the bytes of a seed.
pub fn build_texture_export(
    template_raw: &[u8],
    package: &Package,
    texture: &TextureImportRequest,
) -> (r: Result<SerializedTexture, String>)
    ensures
        match r {
            Ok(made) => texture_from_seed(package@, template_raw@, texture@) == Ok::<
                (Seq<u8>, int, int),
                Seq<char>,
            >((made.bytes@, made.mip_width_offset as int, made.width_offset_value as int)),
            Err(message) => texture_from_seed(package@, template_raw@, texture@) == Err::<
                (Seq<u8>, int, int),
                Seq<char>,
            >(message@),
        },
{
    let layout = layout::texture_layout(Dialect::Engine, template_raw, package)?;
    if texture.width <= 0 || texture.height <= 0 {
        return Err("Dimensões de textura inválidas.".to_owned());
    }
    let available: usize = template_raw.len();
    proof {
        assert(available <= usize::MAX);
        layout::layout_bounds(
            Dialect::Engine,
            package@.names,
            package@.version,
            package@.licensee,
            template_raw@,
        );
    }
    layout::build_texture(
        Dialect::Engine,
        template_raw,
        &layout,
        texture.format,
        texture.width,
        texture.height,
        texture.pixels.as_slice(),
        None,
    )
}

/// Adds one texture that is built from a seed.
fn add_built(
    data_len: usize,
    outer: i32,
    state: &mut AddingState,
    seed_package: &Package,
    seed_index: usize,
    texture: &TextureImportRequest,
) -> (r: Result<(), String>)
    ensures
        match r {
            Ok(()) => with_built(
                data_len as int,
                outer,
                old(state).model(),
                seed_package@,
                seed_index as int,
                texture@,
            ) == Ok::<Adding, Seq<char>>(final(state).model()),
            Err(message) => with_built(
                data_len as int,
                outer,
                old(state).model(),
                seed_package@,
                seed_index as int,
                texture@,
            ) == Err::<Adding, Seq<char>>(message@),
        },
{
    proof {
        reveal(with_built);
    }
    let seed = seed_package.export(seed_index)?;
    let raw = seed_package.export_data(Dialect::Engine, &seed)?;
    let made = build_texture_export(raw, seed_package, texture)?;
    let at: usize = match data_len.checked_add(state.appended.len()) {
        Some(at) => at,
        None => return Err("Tamanho de pacote inválido.".to_owned()),
    };
    let mut bytes = made.bytes;
    let dimensions: usize = match at.checked_add(made.width_offset_value) {
        Some(dimensions) => dimensions,
        None => return Err("Offset de textura inválido.".to_owned()),
    };
    let value: i32 = bytes::checked_i32(dimensions, "O pacote excede o limite de tamanho.")?;
    bytes::write_i32_at(&mut bytes, made.mip_width_offset, value)?;
    let name_index: i32 = intern_indexed(
        &mut state.names,
        &mut state.index,
        texture.name.as_str(),
    )?;
    let size: i32 = bytes::checked_i32(bytes.len(), "A textura é grande demais.")?;
    let offset: i32 = bytes::checked_i32(at, "O pacote excede 2 GB.")?;
    state.exports.push(
        ExportEntry {
            class: seed.class,
            super_class: seed.super_class,
            package: outer,
            name_index,
            flags: seed.flags,
            size,
            offset,
        },
    );
    bytes::append(&mut state.appended, bytes.as_slice());
    Ok(())
}

impl Package {
    /// Whether a texture can serve as the structure of a new one.
    fn fits_as_seed(&self, raw: &[u8], requires_split9: bool, requires_animation: bool) -> (r:
        Result<bool, String>)
        ensures
            text::seen(r) == is_seed(self@, raw@, requires_split9, requires_animation),
    {
        let properties = TexturePropertyStream::parse(raw, &self.names)?;
        let has_split9 = match properties.editor_state().split9 {
            Some(split9) => split9,
            None => false,
        };
        let layout = layout::texture_layout(Dialect::Engine, raw, self)?;
        let has_animation = match layout.anim_next {
            Some(reference) => reference != 0,
            None => false,
        };
        if requires_split9 && requires_animation {
            Ok(has_animation)
        } else {
            Ok(has_split9 == requires_split9 && has_animation == requires_animation)
        }
    }

    /// The texture that a new one of the group can take its structure from.
    pub fn template_texture_for_import(
        &self,
        package_name: &str,
        requires_split9: bool,
        requires_animation: bool,
    ) -> (r: Result<usize, String>)
        ensures
            text::seen(r) == seed_from(
                self@,
                package_name@,
                requires_split9,
                requires_animation,
                0,
                None,
            ),
    {
        let mut fallback: Option<usize> = None;
        let mut i: usize = 0;
        while i < self.exports.len()
            invariant
                i <= self.exports@.len(),
                seed_from(self@, package_name@, requires_split9, requires_animation, 0, None)
                    == seed_from(
                    self@,
                    package_name@,
                    requires_split9,
                    requires_animation,
                    i as int,
                    fallback,
                ),
            decreases self.exports.len() - i,
        {
            let export = self.exports[i];
            if self.is_texture(Dialect::Engine, &export) {
                let raw = self.export_data(Dialect::Engine, &export)?;
                if self.fits_as_seed(raw, requires_split9, requires_animation)? {
                    let name = self.inner_name(Dialect::Engine, &export)?;
                    if tables::texture_in_group(Dialect::Engine, name.as_str(), package_name) {
                        return Ok(i);
                    }
                    if fallback.is_none() {
                        fallback = Some(i);
                    }
                }
            }
            i = i + 1;
        }
        match fallback {
            Some(index) => Ok(index),
            None => Err(no_seed_message(requires_split9, requires_animation)),
        }
    }

    /// Whether the textures of a template can be stored in this package.
    pub fn is_compatible_template(&self, template: &Package) -> (r: bool)
        ensures
            r == compatible(self@, template@),
    {
        if self.version != template.version || self.licensee != template.licensee
            || self.names.entries.len() < template.names.entries.len() || self.imports.len()
            < template.imports.len() {
            return false;
        }
        let mut i: usize = 0;
        while i < template.names.entries.len()
            invariant
                i <= template@.names.len(),
                self@.names.len() >= template@.names.len(),
                forall|k: int|
                    0 <= k < i ==> {
                        let expected = #[trigger] template@.names[k];
                        text::same_folded(expected.name, "UnrealTlp"@) || (text::same_folded(
                            self@.names[k].name,
                            expected.name,
                        ) && self@.names[k].flags == expected.flags)
                    },
            decreases template.names.entries.len() - i,
        {
            let expected = &template.names.entries[i];
            let actual = &self.names.entries[i];
            assert(template@.names[i as int] == expected@);
            assert(self@.names[i as int] == actual@);
            if !text::equals_folded(expected.name.as_str(), "UnrealTlp") && !(text::equals_folded(
                actual.name.as_str(),
                expected.name.as_str(),
            ) && actual.flags == expected.flags) {
                return false;
            }
            i = i + 1;
        }
        let mut k: usize = 0;
        while k < template.imports.len()
            invariant
                k <= template@.imports.len(),
                self@.imports.len() >= template@.imports.len(),
                forall|j: int|
                    0 <= j < k ==> #[trigger] template@.imports[j] == self@.imports[j],
            decreases template.imports.len() - k,
        {
            if template.imports[k] != self.imports[k] {
                assert(template@.imports[k as int] != self@.imports[k as int]);
                return false;
            }
            k = k + 1;
        }
        true
    }

    fn find_seed(
        &self,
        template: &Package,
        package_name: &str,
        texture: &TextureImportRequest,
    ) -> (r: Result<TextureSeedSource, String>)
        ensures
            text::seen(r) == new_seed(self@, template@, package_name@, texture@),
    {
        let split9 = texture.split9.is_some();
        let animation = texture.animation.is_some();
        match self.template_texture_for_import(package_name, split9, animation) {
            Ok(index) => Ok(TextureSeedSource::Package(index)),
            Err(error) => {
                if self.is_compatible_template(template) {
                    let index: usize = template.template_texture_for_import(
                        package_name,
                        split9,
                        animation,
                    )?;
                    Ok(TextureSeedSource::Template(index))
                } else {
                    Err(error)
                }
            },
        }
    }

    fn add_texture(
        &self,
        template: &Package,
        package_name: &str,
        outer: i32,
        state: &mut AddingState,
        texture: &TextureImportRequest,
    ) -> (r: Result<(), String>)
        ensures
            match r {
                Ok(()) => with_texture(
                    self@,
                    template@,
                    package_name@,
                    outer,
                    old(state).model(),
                    texture@,
                ) == Ok::<Adding, Seq<char>>(final(state).model()),
                Err(message) => with_texture(
                    self@,
                    template@,
                    package_name@,
                    outer,
                    old(state).model(),
                    texture@,
                ) == Err::<Adding, Seq<char>>(message@),
            },
    {
        proof {
            reveal(with_texture);
        }
        let seed = match cached_seed(&state.seeds, texture) {
            Some(seed) => seed,
            None => {
                let seed = self.find_seed(template, package_name, texture)?;
                remember_seed(&mut state.seeds, texture, seed);
                seed
            },
        };
        match seed {
            TextureSeedSource::Package(i) => add_built(
                self.data.len(),
                outer,
                state,
                self,
                i,
                texture,
            ),
            TextureSeedSource::Template(i) => add_built(
                self.data.len(),
                outer,
                state,
                template,
                i,
                texture,
            ),
        }
    }

    /// The edits that imports ask for beside their pixels.
    pub fn import_edits(&self, textures: &[TextureImportRequest], targets: &[usize]) -> (r: Result<
        Vec<(usize, TextureEditorEdit)>,
        String,
    >)
        requires
            textures@.len() == targets@.len(),
        ensures
            match r {
                Ok(edits) => import_edits(
                    self@,
                    texture_engine::requests_of(textures@),
                    targets@,
                    textures@.len(),
                ) == Ok::<Seq<(usize, TextureEditorEdit)>, Seq<char>>(edits@),
                Err(message) => import_edits(
                    self@,
                    texture_engine::requests_of(textures@),
                    targets@,
                    textures@.len(),
                ) == Err::<Seq<(usize, TextureEditorEdit)>, Seq<char>>(message@),
            },
    {
        let mut edits: Vec<(usize, TextureEditorEdit)> = Vec::new();
        let mut i: usize = 0;
        while i < textures.len()
            invariant
                i <= textures@.len(),
                textures@.len() == targets@.len(),
                import_edits(self@, texture_engine::requests_of(textures@), targets@, i as nat) == Ok::<
                    Seq<(usize, TextureEditorEdit)>,
                    Seq<char>,
                >(edits@),
            decreases textures.len() - i,
        {
            proof {
                assert(texture_engine::requests_of(textures@)[i as int] == textures@[i as int]@);
                if import_edits(self@, texture_engine::requests_of(textures@), targets@, (i + 1) as nat) is Err {
                    import_edits_error_spreads(
                        self@,
                        texture_engine::requests_of(textures@),
                        targets@,
                        (i + 1) as nat,
                        textures@.len(),
                    );
                }
            }
            match self.import_edit(&textures[i], targets[i])? {
                Some(edit) => edits.push((targets[i], edit)),
                None => {},
            }
            i = i + 1;
        }
        Ok(edits)
    }

    /// Adds each of the textures to the state and gives their indices.
    fn add_each(
        &self,
        template: &Package,
        package_name: &str,
        outer: i32,
        state: &mut AddingState,
        textures: &[TextureImportRequest],
    ) -> (r: Result<Vec<usize>, String>)
        ensures
            match r {
                Ok(targets) => {
                    &&& with_textures(
                        self@,
                        template@,
                        package_name@,
                        outer,
                        old(state).model(),
                        texture_engine::requests_of(textures@),
                        textures@.len(),
                    ) == Ok::<Adding, Seq<char>>(final(state).model())
                    &&& targets@ == new_targets(
                        old(state).model().exports.len() as int,
                        textures@.len(),
                    )
                },
                Err(message) => with_textures(
                    self@,
                    template@,
                    package_name@,
                    outer,
                    old(state).model(),
                    texture_engine::requests_of(textures@),
                    textures@.len(),
                ) == Err::<Adding, Seq<char>>(message@),
            },
    {
        let ghost requests = texture_engine::requests_of(textures@);
        let ghost start = state.model();
        let mut targets: Vec<usize> = Vec::new();
        let mut i: usize = 0;
        while i < textures.len()
            invariant
                i <= textures@.len(),
                requests == texture_engine::requests_of(textures@),
                start == old(state).model(),
                state.exports@.len() == start.exports.len() + i,
                with_textures(
                    self@,
                    template@,
                    package_name@,
                    outer,
                    start,
                    requests,
                    i as nat,
                ) == Ok::<Adding, Seq<char>>(state.model()),
                targets@ =~= new_targets(start.exports.len() as int, i as nat),
            decreases textures.len() - i,
        {
            proof {
                assert(requests[i as int] == textures@[i as int]@);
                if with_textures(
                    self@,
                    template@,
                    package_name@,
                    outer,
                    start,
                    requests,
                    (i + 1) as nat,
                ) is Err {
                    with_textures_error_spreads(
                        self@,
                        template@,
                        package_name@,
                        outer,
                        start,
                        requests,
                        (i + 1) as nat,
                        requests.len(),
                    );
                }
                one_export_more(
                    self@,
                    template@,
                    package_name@,
                    outer,
                    state.model(),
                    requests[i as int],
                );
            }
            let export_index: usize = state.exports.len();
            self.add_texture(template, package_name, outer, state, &textures[i])?;
            targets.push(export_index);
            i = i + 1;
        }
        Ok(targets)
    }

    /// Adds textures to a group and gives what became of each.
    pub fn add_textures(
        &mut self,
        template: &Package,
        package_name: &str,
        textures: &[TextureImportRequest],
    ) -> (r: Result<Vec<TextureImportOutcome>, String>)
        ensures
            match r {
                Ok(outcomes) => with_added(
                    old(self)@,
                    template@,
                    package_name@,
                    texture_engine::requests_of(textures@),
                ) == Ok::<(PackageModel, Seq<TextureImportOutcome>), Seq<char>>(
                    (final(self)@, outcomes@),
                ),
                Err(message) => with_added(
                    old(self)@,
                    template@,
                    package_name@,
                    texture_engine::requests_of(textures@),
                ) == Err::<(PackageModel, Seq<TextureImportOutcome>), Seq<char>>(message@),
            },
    {
        proof {
            reveal(with_added);
        }
        let ghost requests = texture_engine::requests_of(textures@);
        if textures.len() == 0 {
            return Ok(Vec::new());
        }
        texture_engine::validate_group_name(package_name)?;
        let place = self.place_group(package_name)?;
        let ghost placed = place.model();
        let mut index = index_names(&self.names);
        if place.created {
            if let Some(i) = place.names.index_of(package_name) {
                index.insert(text::lowered(package_name), i);
            }
        }
        let first: usize = place.exports.len();
        let outer: i32 = place.outer;
        let imports = place.imports;
        let mut state = AddingState {
            names: place.names,
            index,
            exports: place.exports,
            appended: place.bytes,
            seeds: Seeds { animation: None, split9: None, common: None },
        };
        let targets = self.add_each(template, package_name, outer, &mut state, textures)?;
        self.rewrite_tables(state.names, imports, state.exports, state.appended.as_slice())?;
        let edits = self.import_edits(textures, targets.as_slice())?;
        self.apply_texture_edits(&edits)?;
        let mut outcomes: Vec<TextureImportOutcome> = Vec::new();
        let mut i: usize = 0;
        while i < targets.len()
            invariant
                i <= targets@.len(),
                outcomes@ =~= added_outcomes(targets@).take(i as int),
            decreases targets.len() - i,
        {
            outcomes.push(TextureImportOutcome { export_index: targets[i], added: true });
            i = i + 1;
        }
        assert(added_outcomes(targets@).take(i as int) =~= added_outcomes(targets@));
        Ok(outcomes)
    }
}

} // verus!
