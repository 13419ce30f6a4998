//! Animations written over existing textures: the animation properties that a
//! texture stores are replaced, and the texture moves to the end of its package.

use vstd::prelude::*;
use vstd::slice::slice_subrange;
use crate::entries::{AnimationPropertyPresence, AnimationValues};
use crate::edits::{AnimationModel, TextureAnimationImport};
use crate::layout::MipLocation;
use crate::names::NameModel;
use crate::package::{ExportEntry, Package, PackageModel};
use crate::tables::Search;
use crate::reader::{Dialect, Reader, Tag, TagModel};
use crate::bytes;
use crate::entries;
use crate::images;
use crate::layout;
use crate::listing;
use crate::package;
use crate::properties;
use crate::reader;
use crate::tables;
use crate::text;

verus! {

pub open spec fn wrong_kind_text(name: Seq<char>) -> Seq<char> {
    "O modelo estrutural possui "@ + name + " em um formato inválido."@
}

fn wrong_kind_message(name: &str) -> (r: String)
    ensures
        r@ == wrong_kind_text(name@),
{
    text::join3("O modelo estrutural possui ", name, " em um formato inválido.")
}

/// Whether a property says how often an animation runs.
pub open spec fn is_loop_name(name: Seq<char>) -> bool {
    text::same_folded(name, "OneTimeAnimLoop"@) || text::same_folded(name, "bAnimLoop"@)
}

/// A property of a texture, from `p` to `end`, with another animation. Only
/// the animation properties change.
pub open spec fn animated_property(
    d: Seq<u8>,
    p: int,
    end: int,
    name_index: i32,
    name: Seq<char>,
    tag: TagModel,
    values: AnimationValues,
) -> Result<Seq<u8>, Seq<char>> {
    let piece = d.subrange(p, end);
    let at = tag.start - p;
    if text::same_folded(name, "AnimNext"@) {
        if tag.kind != 5 {
            Err(wrong_kind_text("AnimNext"@))
        } else {
            properties::sized_property(
                name_index,
                tag.kind,
                reader::compact_bytes(values.anim_next),
                "Propriedade de animação grande demais."@,
            )
        }
    } else if text::same_folded(name, "MaxFrameRate"@) {
        if tag.kind != 4 || tag.size != 4 {
            Err(wrong_kind_text("MaxFrameRate"@))
        } else {
            Ok(bytes::splice(piece, at, bytes::le32(values.max_frame_rate)))
        }
    } else if text::same_folded(name, "MinFrameRate"@) {
        if tag.kind != 4 || tag.size != 4 {
            Err(wrong_kind_text("MinFrameRate"@))
        } else {
            Ok(bytes::splice(piece, at, bytes::le32(values.min_frame_rate)))
        }
    } else if is_loop_name(name) {
        if tag.kind != 3 {
            Err(wrong_kind_text("OneTimeAnimLoop"@))
        } else {
            Ok(
                piece.update(
                    tag.info - p,
                    (d[tag.info] % 128 + if values.one_time_anim_loop {
                        128int
                    } else {
                        0
                    }) as u8,
                ),
            )
        }
    } else if text::same_folded(name, "PrimeCount"@) {
        if tag.kind == 1 && tag.size == 1 {
            if 0 <= values.prime_count <= 255 {
                Ok(piece.update(at, values.prime_count as u8))
            } else {
                Err("PrimeCount deve estar entre 0 e 255."@)
            }
        } else if tag.kind == 2 && tag.size == 4 {
            Ok(bytes::splice(piece, at, bytes::i32_bytes(values.prime_count)))
        } else {
            Err(wrong_kind_text("PrimeCount"@))
        }
    } else if text::same_folded(name, "TotalFrameNum"@) {
        if tag.kind != 2 || tag.size != 4 {
            Err(wrong_kind_text("TotalFrameNum"@))
        } else {
            Ok(bytes::splice(piece, at, bytes::i32_bytes(values.total_frame_num)))
        }
    } else {
        Ok(piece)
    }
}

/// The animation properties that were found, with one more.
pub open spec fn found_with(found: AnimationPropertyPresence, name: Seq<char>) -> AnimationPropertyPresence {
    if text::same_folded(name, "AnimNext"@) {
        AnimationPropertyPresence { anim_next: true, ..found }
    } else if text::same_folded(name, "MaxFrameRate"@) {
        AnimationPropertyPresence { max_frame_rate: true, ..found }
    } else if text::same_folded(name, "MinFrameRate"@) {
        AnimationPropertyPresence { min_frame_rate: true, ..found }
    } else if is_loop_name(name) {
        AnimationPropertyPresence { one_time_anim_loop: true, ..found }
    } else if text::same_folded(name, "PrimeCount"@) {
        AnimationPropertyPresence { prime_count: true, ..found }
    } else if text::same_folded(name, "TotalFrameNum"@) {
        AnimationPropertyPresence { total_frame_num: true, ..found }
    } else {
        found
    }
}

/// The properties from `p` on with another animation, behind those before; what
/// animation properties there are; and the start of the end mark.
pub open spec fn animated_from(
    names: Seq<NameModel>,
    d: Seq<u8>,
    p: int,
    values: AnimationValues,
    before: Seq<u8>,
    found: AnimationPropertyPresence,
) -> Result<(Seq<u8>, AnimationPropertyPresence, int), Seq<char>>
    decreases d.len() - p,
    when 0 <= p
{
    match reader::compact_at(Dialect::Frontend, d, p) {
        Err(e) => Err(e),
        Ok((index, q)) => match package::object_name(Dialect::Frontend, names, index) {
            Err(e) => Err(e),
            Ok(name) => if text::same_folded(name, "None"@) {
                Ok((before, found, p))
            } else {
                match reader::tag_at(Dialect::Frontend, d, q) {
                    Err(e) => Err(e),
                    Ok(tag) => match reader::skip_end(Dialect::Frontend, d, tag.start, tag.size) {
                        Err(e) => Err(e),
                        Ok(end) => match animated_property(d, p, end, index, name, tag, values) {
                            Err(e) => Err(e),
                            Ok(piece) => {
                                proof {
                                    reader::compact_moves(Dialect::Frontend, d, p);
                                    reader::tag_moves(Dialect::Frontend, d, q);
                                }
                                animated_from(
                                    names,
                                    d,
                                    end,
                                    values,
                                    before + piece,
                                    found_with(found, name),
                                )
                            },
                        },
                    },
                }
            },
        },
    }
}

/// What a texture lacks for an animation.
pub open spec fn missing_property(values: AnimationValues, found: AnimationPropertyPresence) -> Option<
    Seq<char>,
> {
    if !found.anim_next {
        Some("A textura não possui AnimNext; use uma textura animada como modelo estrutural."@)
    } else if entries::is_nonzero_rate(values.max_frame_rate) && !found.max_frame_rate {
        Some("O modelo estrutural não possui MaxFrameRate."@)
    } else if entries::is_nonzero_rate(values.min_frame_rate) && !found.min_frame_rate {
        Some("O modelo estrutural não possui MinFrameRate."@)
    } else if values.one_time_anim_loop && !found.one_time_anim_loop {
        Some(
            "O modelo estrutural não possui OneTimeAnimLoop; adicione essa propriedade ao TlpAnim no Unreal Editor."@,
        )
    } else if values.prime_count != 0 && !found.prime_count {
        Some(
            "O modelo estrutural não possui PrimeCount; adicione essa propriedade ao TlpAnim no Unreal Editor."@,
        )
    } else if values.total_frame_num != 0 && !found.total_frame_num {
        Some("O modelo estrutural não possui TotalFrameNum."@)
    } else {
        None
    }
}

/// The bytes of a texture with another animation, the new place of its mip maps
/// and the old one.
pub struct ReanimatedModel {
    pub bytes: Seq<u8>,
    pub mip_count_offset: int,
    pub original_mip_count_offset: int,
}

#[verifier::opaque]
pub open spec fn reanimated(p: PackageModel, d: Seq<u8>, values: AnimationValues) -> Result<
    ReanimatedModel,
    Seq<char>,
> {
    match layout::layout_of(Dialect::Frontend, p.names, p.version, p.licensee, d) {
        Err(e) => Err(e),
        Ok(layout) => match animated_from(p.names, d, 0, values, Seq::empty(), entries::no_presence()) {
            Err(e) => Err(e),
            Ok((properties, found, end)) => match missing_property(values, found) {
                Some(e) => Err(e),
                None => if end > layout.mip_count_offset {
                    Err("Modelo de textura truncado."@)
                } else {
                    let head = properties + d.subrange(end, layout.mip_count_offset as int);
                    Ok(
                        ReanimatedModel {
                            bytes: head + d.skip(layout.mip_count_offset as int),
                            mip_count_offset: head.len() as int,
                            original_mip_count_offset: layout.mip_count_offset as int,
                        },
                    )
                },
            },
        },
    }
}

/// A texture with another animation.
#[derive(Debug)]
pub struct ReanimatedTexture {
    pub bytes: Vec<u8>,
    pub mip_count_offset: usize,
    pub original_mip_count_offset: usize,
}

impl View for ReanimatedTexture {
    type V = ReanimatedModel;

    open spec fn view(&self) -> ReanimatedModel {
        ReanimatedModel {
            bytes: self.bytes@,
            mip_count_offset: self.mip_count_offset as int,
            original_mip_count_offset: self.original_mip_count_offset as int,
        }
    }
}

fn has_loop_name(name: &str) -> (r: bool)
    ensures
        r == is_loop_name(name@),
{
    text::equals_folded(name, "OneTimeAnimLoop") || text::equals_folded(name, "bAnimLoop")
}

/// A copy of a property with other bytes at `at`.
fn patched_piece(raw: &[u8], start: usize, end: usize, at: usize, patch: &[u8]) -> (r: Vec<u8>)
    requires
        start <= at,
        at + patch@.len() <= end <= raw@.len(),
    ensures
        r@ == bytes::splice(raw@.subrange(start as int, end as int), at - start, patch@),
{
    let ghost piece = raw@.subrange(start as int, end as int);
    let size: usize = patch.len();
    let mut output = bytes::copy_range(raw, start, at);
    bytes::append(&mut output, patch);
    bytes::append(&mut output, slice_subrange(raw, at + size, end));
    assert(output@ =~= bytes::splice(piece, at - start, patch@));
    output
}

fn word_patch(bits: u32) -> (r: Vec<u8>)
    ensures
        r@ == bytes::le32(bits),
{
    let mut output: Vec<u8> = Vec::new();
    bytes::write_u32(&mut output, bits);
    assert(output@ =~= bytes::le32(bits));
    output
}

fn animate_property(
    raw: &[u8],
    start: usize,
    end: usize,
    name_index: i32,
    name: &str,
    tag: Tag,
    values: AnimationValues,
) -> (r: Result<Vec<u8>, String>)
    requires
        start <= tag.info < tag.start,
        tag.start + tag.size == end,
        end <= raw@.len(),
        tag.kind < 16,
    ensures
        images::bytes_result(
            r,
            animated_property(
                raw@,
                start as int,
                end as int,
                name_index,
                name@,
                tag@,
                values,
            ),
        ),
{
    if text::equals_folded(name, "AnimNext") {
        if tag.kind != 5 {
            return Err(wrong_kind_message("AnimNext"));
        }
        let mut reference: Vec<u8> = Vec::new();
        reader::write_compact(&mut reference, values.anim_next);
        assert(reference@ =~= reader::compact_bytes(values.anim_next));
        let mut output: Vec<u8> = Vec::new();
        properties::write_sized_property(
            &mut output,
            name_index,
            tag.kind,
            reference.as_slice(),
            "Propriedade de animação grande demais.",
        )?;
        assert(output@ =~= reader::compact_bytes(name_index) + properties::sized_head(
            tag.kind,
            reference@.len(),
        ) + reference@);
        Ok(output)
    } else if text::equals_folded(name, "MaxFrameRate") {
        if tag.kind != 4 || tag.size != 4 {
            return Err(wrong_kind_message("MaxFrameRate"));
        }
        let patch = word_patch(values.max_frame_rate);
        Ok(patched_piece(raw, start, end, tag.start, patch.as_slice()))
    } else if text::equals_folded(name, "MinFrameRate") {
        if tag.kind != 4 || tag.size != 4 {
            return Err(wrong_kind_message("MinFrameRate"));
        }
        let patch = word_patch(values.min_frame_rate);
        Ok(patched_piece(raw, start, end, tag.start, patch.as_slice()))
    } else if has_loop_name(name) {
        if tag.kind != 3 {
            return Err(wrong_kind_message("OneTimeAnimLoop"));
        }
        let info: u8 = raw[tag.info] % 128 + if values.one_time_anim_loop {
            128
        } else {
            0
        };
        let mut output = bytes::copy_range(raw, start, end);
        output.set(tag.info - start, info);
        Ok(output)
    } else if text::equals_folded(name, "PrimeCount") {
        if tag.kind == 1 && tag.size == 1 {
            if values.prime_count < 0 || values.prime_count > 255 {
                return Err("PrimeCount deve estar entre 0 e 255.".to_owned());
            }
            let mut output = bytes::copy_range(raw, start, end);
            output.set(tag.start - start, values.prime_count as u8);
            Ok(output)
        } else if tag.kind == 2 && tag.size == 4 {
            let patch = word_patch(bytes::i32_bits(values.prime_count));
            Ok(patched_piece(raw, start, end, tag.start, patch.as_slice()))
        } else {
            Err(wrong_kind_message("PrimeCount"))
        }
    } else if text::equals_folded(name, "TotalFrameNum") {
        if tag.kind != 2 || tag.size != 4 {
            return Err(wrong_kind_message("TotalFrameNum"));
        }
        let patch = word_patch(bytes::i32_bits(values.total_frame_num));
        Ok(patched_piece(raw, start, end, tag.start, patch.as_slice()))
    } else {
        Ok(bytes::copy_range(raw, start, end))
    }
}

fn note_found(found: &mut AnimationPropertyPresence, name: &str)
    ensures
        *final(found) == found_with(*old(found), name@),
{
    if text::equals_folded(name, "AnimNext") {
        found.anim_next = true;
    } else if text::equals_folded(name, "MaxFrameRate") {
        found.max_frame_rate = true;
    } else if text::equals_folded(name, "MinFrameRate") {
        found.min_frame_rate = true;
    } else if has_loop_name(name) {
        found.one_time_anim_loop = true;
    } else if text::equals_folded(name, "PrimeCount") {
        found.prime_count = true;
    } else if text::equals_folded(name, "TotalFrameNum") {
        found.total_frame_num = true;
    }
}

fn is_nonzero(bits: u32) -> (r: bool)
    ensures
        r == entries::is_nonzero_rate(bits),
{
    bits != 0 && bits != 0x8000_0000
}

fn missing_message(values: AnimationValues, found: AnimationPropertyPresence) -> (r: Option<String>)
    ensures
        match r {
            Some(message) => missing_property(values, found) == Some(message@),
            None => missing_property(values, found) is None,
        },
{
    if !found.anim_next {
        Some(
            "A textura não possui AnimNext; use uma textura animada como modelo estrutural.".to_owned(),
        )
    } else if is_nonzero(values.max_frame_rate) && !found.max_frame_rate {
        Some("O modelo estrutural não possui MaxFrameRate.".to_owned())
    } else if is_nonzero(values.min_frame_rate) && !found.min_frame_rate {
        Some("O modelo estrutural não possui MinFrameRate.".to_owned())
    } else if values.one_time_anim_loop && !found.one_time_anim_loop {
        Some(
            "O modelo estrutural não possui OneTimeAnimLoop; adicione essa propriedade ao TlpAnim no Unreal Editor.".to_owned(),
        )
    } else if values.prime_count != 0 && !found.prime_count {
        Some(
            "O modelo estrutural não possui PrimeCount; adicione essa propriedade ao TlpAnim no Unreal Editor.".to_owned(),
        )
    } else if values.total_frame_num != 0 && !found.total_frame_num {
        Some("O modelo estrutural não possui TotalFrameNum.".to_owned())
    } else {
        None
    }
}

/// Rewrites the properties of a texture up to the end mark.
fn animate_properties(raw: &[u8], package: &Package, values: AnimationValues) -> (r: Result<
    (Vec<u8>, AnimationPropertyPresence, usize),
    String,
>)
    ensures
        match r {
            Ok((properties, found, end)) => animated_from(
                package@.names,
                raw@,
                0,
                values,
                Seq::empty(),
                entries::no_presence(),
            ) == Ok::<(Seq<u8>, AnimationPropertyPresence, int), Seq<char>>(
                (properties@, found, end as int),
            ) && end <= raw@.len(),
            Err(message) => animated_from(
                package@.names,
                raw@,
                0,
                values,
                Seq::empty(),
                entries::no_presence(),
            ) == Err::<(Seq<u8>, AnimationPropertyPresence, int), Seq<char>>(message@),
        },
{
    let mut reader = Reader::new(raw, Dialect::Frontend);
    let mut output: Vec<u8> = Vec::new();
    let mut found = AnimationPropertyPresence {
        anim_next: false,
        max_frame_rate: false,
        min_frame_rate: false,
        one_time_anim_loop: false,
        prime_count: false,
        total_frame_num: false,
    };
    assert(output@ =~= Seq::<u8>::empty());
    loop
        invariant
            reader.wf(),
            reader.data@ == raw@,
            reader.dialect == Dialect::Frontend,
            animated_from(package@.names, raw@, 0, values, Seq::empty(), entries::no_presence())
                == animated_from(
                package@.names,
                raw@,
                reader.position as int,
                values,
                output@,
                found,
            ),
        decreases raw@.len() - reader.position,
    {
        let start: usize = reader.position;
        proof {
            reader::compact_moves(Dialect::Frontend, raw@, start as int);
        }
        let index: i32 = reader.read_compact()?;
        let name = package.name(Dialect::Frontend, index)?;
        if text::equals_folded(name.as_str(), "None") {
            return Ok((output, found, start));
        }
        proof {
            reader::tag_moves(Dialect::Frontend, raw@, reader.position as int);
        }
        let tag = reader.read_tag()?;
        reader.skip(tag.size)?;
        let piece = animate_property(
            raw,
            start,
            reader.position,
            index,
            name.as_str(),
            tag,
            values,
        )?;
        bytes::append(&mut output, piece.as_slice());
        note_found(&mut found, name.as_str());
    }
}

/// Replaces the animation that a texture stores. The texture must have each
/// property that the animation needs.
pub fn rewrite_texture_animation_properties(
    raw: &[u8],
    package: &Package,
    values: AnimationValues,
) -> (r: Result<ReanimatedTexture, String>)
    ensures
        match r {
            Ok(texture) => reanimated(package@, raw@, values) == Ok::<ReanimatedModel, Seq<char>>(
                texture@,
            ),
            Err(message) => reanimated(package@, raw@, values) == Err::<
                ReanimatedModel,
                Seq<char>,
            >(message@),
        },
{
    reveal(reanimated);
    let layout = layout::texture_layout(Dialect::Frontend, raw, package)?;
    let size: usize = raw.len();
    proof {
        layout::layout_bounds(
            Dialect::Frontend,
            package@.names,
            package@.version,
            package@.licensee,
            raw@,
        );
    }
    let (mut output, found, end) = animate_properties(raw, package, values)?;
    let ghost properties = output@;
    if let Some(message) = missing_message(values, found) {
        return Err(message);
    }
    if end > layout.mip_count_offset {
        return Err("Modelo de textura truncado.".to_owned());
    }
    bytes::append(&mut output, slice_subrange(raw, end, layout.mip_count_offset));
    let mip_count_offset: usize = output.len();
    bytes::append(&mut output, slice_subrange(raw, layout.mip_count_offset, size));
    proof {
        let head = properties + raw@.subrange(end as int, layout.mip_count_offset as int);
        assert(raw@.subrange(layout.mip_count_offset as int, size as int) =~= raw@.skip(
            layout.mip_count_offset as int,
        ));
        assert(output@ =~= head + raw@.skip(layout.mip_count_offset as int));
    }
    Ok(
        ReanimatedTexture {
            bytes: output,
            mip_count_offset,
            original_mip_count_offset: layout.mip_count_offset,
        },
    )
}

/// Whether two texture paths have the same group.
pub open spec fn same_group(a: Seq<char>, b: Seq<char>) -> bool {
    tables::group_of(Dialect::Frontend, a) == tables::group_of(Dialect::Frontend, b)
}

/// The search for `requested` over the readable textures from `from` on.
pub open spec fn searched_entries(
    p: PackageModel,
    current: Seq<char>,
    requested: Seq<char>,
    from: int,
    search: Search,
) -> Search
    decreases p.exports.len() - from,
{
    if from < 0 || from >= p.exports.len() {
        search
    } else {
        match listing::entry_of(p, from) {
            Err(_) => searched_entries(p, current, requested, from + 1, search),
            Ok(candidate) => if tables::is_exact(candidate.name, requested) {
                Search::Exact(from)
            } else if text::same_folded(text::after_last_dot(candidate.name), text::after_last_dot(requested)) {
                searched_entries(
                    p,
                    current,
                    requested,
                    from + 1,
                    tables::matched(search, from, same_group(candidate.name, current)),
                )
            } else {
                searched_entries(p, current, requested, from + 1, search)
            },
        }
    }
}

/// The first import of this path.
pub open spec fn import_named(p: PackageModel, requested: Seq<char>, from: int) -> Option<int>
    decreases p.imports.len() - from,
{
    if from < 0 || from >= p.imports.len() {
        None
    } else if package::import_path_of(Dialect::Frontend, p.names, p.imports, p.exports, from, 0) matches Ok(
        path,
    ) && text::same_folded(path, requested) {
        Some(from)
    } else {
        import_named(p, requested, from + 1)
    }
}

/// The reference to the texture that an animation goes on with: an export, or
/// an import where no export has that name.
#[verifier::opaque]
pub open spec fn next_reference(p: PackageModel, index: int, path: Seq<char>) -> Result<
    i32,
    Seq<char>,
> {
    let requested = tables::requested_path(path);
    if requested.len() == 0 {
        Ok(0i32)
    } else {
        match listing::entry_of(p, index) {
            Err(e) => Err(e),
            Ok(current) => match tables::settled(
                searched_entries(p, current.name, requested, 0, tables::no_match()),
            ) {
                Some(i) => package::export_reference_of(Dialect::Frontend, i),
                None => match import_named(p, requested, 0) {
                    Some(i) => package::import_reference_of(Dialect::Frontend, i),
                    None => Err(
                        "A textura indicada em AnimNext não foi encontrada no pacote: "@ + requested
                            + "."@,
                    ),
                },
            },
        }
    }
}

fn find_import_named(package: &Package, requested: &str) -> (r: Option<usize>)
    ensures
        match r {
            Some(i) => import_named(package@, requested@, 0) == Some(i as int),
            None => import_named(package@, requested@, 0) is None,
        },
{
    let mut i: usize = 0;
    while i < package.imports.len()
        invariant
            i <= package.imports@.len(),
            import_named(package@, requested@, 0) == import_named(package@, requested@, i as int),
        decreases package.imports.len() - i,
    {
        if let Ok(path) = package.import_path(Dialect::Frontend, i, 0) {
            if text::equals_folded(path.as_str(), requested) {
                return Some(i);
            }
        }
        i += 1;
    }
    None
}

fn is_same_group(a: &str, b: &str) -> (r: bool)
    ensures
        r == same_group(a@, b@),
{
    match (tables::texture_group(Dialect::Frontend, a), tables::texture_group(Dialect::Frontend, b)) {
        (Some(x), Some(y)) => text::equal_text(x.as_str(), y.as_str()),
        (None, None) => true,
        _ => false,
    }
}

/// The export that a search among the readable textures settles on.
fn search_entries(package: &Package, current: &str, requested: &str) -> (r: Option<usize>)
    ensures
        match r {
            Some(i) => tables::settled(
                searched_entries(package@, current@, requested@, 0, tables::no_match()),
            ) == Some(i as int),
            None => tables::settled(
                searched_entries(package@, current@, requested@, 0, tables::no_match()),
            ) is None,
        },
{
    let leaf = tables::texture_leaf(requested);
    let mut same: Option<usize> = None;
    let mut count: usize = 0;
    let mut first: usize = 0;
    let mut i: usize = 0;
    while i < package.exports.len()
        invariant
            i <= package.exports@.len(),
            count <= i,
            leaf@ == text::after_last_dot(requested@),
            searched_entries(package@, current@, requested@, 0, tables::no_match()) == searched_entries(
                package@,
                current@,
                requested@,
                i as int,
                Search::Loose {
                    same_group: match same {
                        Some(k) => Some(k as int),
                        None => None,
                    },
                    count: count as int,
                    first: first as int,
                },
            ),
        decreases package.exports.len() - i,
    {
        if let Ok(candidate) = package.entry_to_model(i) {
            if tables::exact_match(candidate.name.as_str(), requested) {
                return Some(i);
            }
            let candidate_leaf = tables::texture_leaf(candidate.name.as_str());
            if text::equals_folded(candidate_leaf.as_str(), leaf.as_str()) {
                if is_same_group(candidate.name.as_str(), current) {
                    same = Some(i);
                }
                if count == 0 {
                    first = i;
                }
                count += 1;
            }
        }
        i += 1;
    }
    match same {
        Some(k) => Some(k),
        None => if count == 1 {
            Some(first)
        } else {
            None
        },
    }
}

/// Finds the texture that an animation goes on with.
pub fn resolve_animation_reference(package: &Package, export_index: usize, path: &str) -> (r: Result<
    i32,
    String,
>)
    ensures
        text::seen(r) == next_reference(package@, export_index as int, path@),
{
    reveal(next_reference);
    let requested = tables::unwrap_path(path);
    if text::chars_of(requested.as_str()).len() == 0 {
        return Ok(0);
    }
    let current = package.entry_to_model(export_index)?;
    match search_entries(package, current.name.as_str(), requested.as_str()) {
        Some(i) => package::export_reference(Dialect::Frontend, i),
        None => match find_import_named(package, requested.as_str()) {
            Some(i) => package::import_reference(Dialect::Frontend, i),
            None => Err(
                text::join3(
                    "A textura indicada em AnimNext não foi encontrada no pacote: ",
                    requested.as_str(),
                    ".",
                ),
            ),
        },
    }
}

/// The animation of a texture with the values that were given.
#[verifier::opaque]
pub open spec fn merged_animation(p: PackageModel, index: int, animation: AnimationModel) -> Result<
    AnimationValues,
    Seq<char>,
> {
    match package::nth_export(p, index) {
        Err(e) => Err(e),
        Ok(export) => match package::data_of(Dialect::Frontend, p.data, export) {
            Err(e) => Err(e),
            Ok(raw) => match entries::properties_of(p.names, raw, 0) {
                Err(e) => Err(e),
                Ok((t, _)) => match (match animation.anim_next {
                    Some(path) => next_reference(p, index, path),
                    None => Ok(t.animation.anim_next),
                }) {
                    Err(e) => Err(e),
                    Ok(anim_next) => Ok(
                        AnimationValues {
                            anim_next,
                            max_frame_rate: given_or(animation.max_frame_rate, t.animation.max_frame_rate),
                            min_frame_rate: given_or(animation.min_frame_rate, t.animation.min_frame_rate),
                            one_time_anim_loop: given_or(
                                animation.one_time_anim_loop,
                                t.animation.one_time_anim_loop,
                            ),
                            prime_count: given_or(animation.prime_count, t.animation.prime_count),
                            total_frame_num: given_or(
                                animation.total_frame_num,
                                t.animation.total_frame_num,
                            ),
                        },
                    ),
                },
            },
        },
    }
}

/// A value that was given, or the one before.
pub open spec fn given_or<T>(given: Option<T>, before: T) -> T {
    match given {
        Some(value) => value,
        None => before,
    }
}

/// Merges an animation into the one that a texture has.
pub fn merged_animation_values(
    package: &Package,
    export_index: usize,
    animation: &TextureAnimationImport,
) -> (r: Result<AnimationValues, String>)
    ensures
        text::seen(r) == merged_animation(package@, export_index as int, animation@),
{
    reveal(merged_animation);
    let export = package.export(export_index)?;
    let raw = package.export_data(Dialect::Frontend, &export)?;
    let mut reader = Reader::new(raw, Dialect::Frontend);
    let mut values: AnimationValues = entries::read_texture_properties(&mut reader, package)?.animation;
    if let Some(anim_next) = &animation.anim_next {
        values.anim_next = resolve_animation_reference(package, export_index, anim_next.as_str())?;
    }
    if let Some(value) = animation.max_frame_rate {
        values.max_frame_rate = value;
    }
    if let Some(value) = animation.min_frame_rate {
        values.min_frame_rate = value;
    }
    if let Some(value) = animation.one_time_anim_loop {
        values.one_time_anim_loop = value;
    }
    if let Some(value) = animation.prime_count {
        values.prime_count = value;
    }
    if let Some(value) = animation.total_frame_num {
        values.total_frame_num = value;
    }
    Ok(values)
}

/// An animation for the texture of the given export.
#[derive(Debug)]
pub struct AnimationUpdate {
    pub export_index: usize,
    pub animation: TextureAnimationImport,
}

pub struct UpdateModel {
    pub index: int,
    pub animation: AnimationModel,
}

pub open spec fn updates_seen(updates: Seq<AnimationUpdate>) -> Seq<UpdateModel> {
    Seq::new(
        updates.len(),
        |i: int|
            UpdateModel { index: updates[i].export_index as int, animation: updates[i].animation@ },
    )
}

/// A texture with its new animation and the place of its pixels before.
pub struct PreparedModel {
    pub index: int,
    pub texture: ReanimatedModel,
    pub mip: MipLocation,
}

/// A texture with its new animation.
pub open spec fn prepared_animation(p: PackageModel, update: UpdateModel) -> Result<
    PreparedModel,
    Seq<char>,
> {
    match merged_animation(p, update.index, update.animation) {
        Err(e) => Err(e),
        Ok(values) => match package::nth_export(p, update.index) {
            Err(e) => Err(e),
            Ok(export) => match package::data_of(Dialect::Frontend, p.data, export) {
                Err(e) => Err(e),
                Ok(raw) => match listing::located_mip(p, update.index) {
                    Err(e) => Err(e),
                    Ok(mip) => match reanimated(p, raw, values) {
                        Err(e) => Err(e),
                        Ok(texture) => Ok(PreparedModel { index: update.index, texture, mip }),
                    },
                },
            },
        },
    }
}

/// Whether one of the first `n` updates is for the export.
pub open spec fn updated_before(updates: Seq<UpdateModel>, n: int, index: int) -> bool {
    exists|i: int| 0 <= i < n && (#[trigger] updates[i]).index == index
}

/// The textures of the first `n` updates. Only the first update of an export
/// counts.
pub open spec fn prepared_animations(p: PackageModel, updates: Seq<UpdateModel>, n: nat) -> Result<
    Seq<PreparedModel>,
    Seq<char>,
>
    decreases n,
{
    if n == 0 {
        Ok(Seq::empty())
    } else {
        match prepared_animations(p, updates, (n - 1) as nat) {
            Err(e) => Err(e),
            Ok(before) => if updated_before(updates, n - 1, updates[n - 1].index) {
                Ok(before)
            } else {
                match prepared_animation(p, updates[n - 1]) {
                    Err(e) => Err(e),
                    Ok(one) => Ok(before.push(one)),
                }
            },
        }
    }
}

/// A texture at the end of the package data, its pointer set, and its export.
pub open spec fn with_animation_placed(
    data: Seq<u8>,
    exports: Seq<ExportEntry>,
    one: PreparedModel,
) -> Result<(Seq<u8>, Seq<ExportEntry>), Seq<char>> {
    let t = one.texture;
    let pointer = t.mip_count_offset + one.mip.width_offset_position - t.original_mip_count_offset;
    let pixels = t.mip_count_offset + one.mip.pixel_offset - t.original_mip_count_offset;
    let target = data.len() + pixels + one.mip.size;
    if !(0 <= one.index < exports.len()) {
        Err("Exportação de textura inválida."@)
    } else if one.mip.width_offset_position < t.original_mip_count_offset || pointer > usize::MAX
        || one.mip.pixel_offset < t.original_mip_count_offset || pixels > usize::MAX || target
        > usize::MAX {
        Err("Offset de mip inválido."@)
    } else {
        match bytes::i32_of_len(target, "O pacote excede o limite de tamanho."@) {
            Err(e) => Err(e),
            Ok(value) => match bytes::with_i32_at(t.bytes, pointer, value) {
                Err(e) => Err(e),
                Ok(bytes) => match bytes::i32_of_len(
                    data.len() as int,
                    "O pacote excede o limite de 2 GB."@,
                ) {
                    Err(e) => Err(e),
                    Ok(offset) => match bytes::i32_of_len(
                        bytes.len() as int,
                        "A textura é grande demais para este formato."@,
                    ) {
                        Err(e) => Err(e),
                        Ok(size) => Ok(
                            (
                                data + bytes,
                                exports.update(
                                    one.index,
                                    ExportEntry { offset, size, ..exports[one.index] },
                                ),
                            ),
                        ),
                    },
                },
            },
        }
    }
}

/// The package data with the first `n` textures at its end, and the exports.
pub open spec fn with_animations_placed(
    data: Seq<u8>,
    exports: Seq<ExportEntry>,
    prepared: Seq<PreparedModel>,
    n: nat,
) -> Result<(Seq<u8>, Seq<ExportEntry>), Seq<char>>
    decreases n,
{
    if n == 0 {
        Ok((data, exports))
    } else {
        match with_animations_placed(data, exports, prepared, (n - 1) as nat) {
            Err(e) => Err(e),
            Ok((d, x)) => with_animation_placed(d, x, prepared[n - 1]),
        }
    }
}

/// The package file after animations were written: every texture with a new
/// animation stands at the end, and the tables behind them.
pub open spec fn with_animations(working: Seq<u8>, p: PackageModel, updates: Seq<UpdateModel>) -> Result<
    Seq<u8>,
    Seq<char>,
> {
    if updates.len() == 0 {
        Ok(working)
    } else {
        match prepared_animations(p, updates, updates.len()) {
            Err(e) => Err(e),
            Ok(prepared) => match with_animations_placed(
                working,
                p.exports,
                prepared,
                prepared.len(),
            ) {
                Err(e) => Err(e),
                Ok((data, exports)) => tables::rebuilt_data(
                    Dialect::Frontend,
                    data,
                    p.names,
                    p.imports,
                    exports,
                ),
            },
        }
    }
}

/// A texture to be placed.
#[derive(Debug)]
struct PreparedAnimation {
    export_index: usize,
    texture: ReanimatedTexture,
    mip: MipLocation,
}

impl View for PreparedAnimation {
    type V = PreparedModel;

    closed spec fn view(&self) -> PreparedModel {
        PreparedModel {
            index: self.export_index as int,
            texture: self.texture@,
            mip: self.mip,
        }
    }
}

spec fn prepared_seen(prepared: Seq<PreparedAnimation>) -> Seq<PreparedModel> {
    Seq::new(prepared.len(), |i: int| prepared[i]@)
}

fn prepare_animation(package: &Package, update: &AnimationUpdate) -> (r: Result<
    PreparedAnimation,
    String,
>)
    ensures
        match r {
            Ok(one) => prepared_animation(
                package@,
                UpdateModel { index: update.export_index as int, animation: update.animation@ },
            ) == Ok::<PreparedModel, Seq<char>>(one@),
            Err(message) => prepared_animation(
                package@,
                UpdateModel { index: update.export_index as int, animation: update.animation@ },
            ) == Err::<PreparedModel, Seq<char>>(message@),
        },
{
    let values: AnimationValues = merged_animation_values(
        package,
        update.export_index,
        &update.animation,
    )?;
    let export = package.export(update.export_index)?;
    let raw = package.export_data(Dialect::Frontend, &export)?;
    let mip = package.frontend_mip0_location(update.export_index)?;
    let texture = rewrite_texture_animation_properties(raw, package, values)?;
    Ok(PreparedAnimation { export_index: update.export_index, texture, mip })
}

fn is_updated_before(updates: &Vec<AnimationUpdate>, n: usize, index: usize) -> (r: bool)
    requires
        n <= updates@.len(),
    ensures
        r == updated_before(updates_seen(updates@), n as int, index as int),
{
    let mut i: usize = 0;
    while i < n
        invariant
            i <= n <= updates@.len(),
            forall|k: int|
                0 <= k < i ==> (#[trigger] updates_seen(updates@)[k]).index != index as int,
        decreases n - i,
    {
        assert(updates_seen(updates@)[i as int].index == updates@[i as int].export_index);
        if updates[i].export_index == index {
            return true;
        }
        i += 1;
    }
    false
}

proof fn prepared_error_spreads(p: PackageModel, updates: Seq<UpdateModel>, i: nat, n: nat)
    requires
        i <= n,
        prepared_animations(p, updates, i) is Err,
    ensures
        prepared_animations(p, updates, n) == prepared_animations(p, updates, i),
    decreases n,
{
    if i < n {
        prepared_error_spreads(p, updates, i, (n - 1) as nat);
    }
}

proof fn placed_animation_error_spreads(
    data: Seq<u8>,
    exports: Seq<ExportEntry>,
    prepared: Seq<PreparedModel>,
    i: nat,
    n: nat,
)
    requires
        i <= n,
        with_animations_placed(data, exports, prepared, i) is Err,
    ensures
        with_animations_placed(data, exports, prepared, n) == with_animations_placed(
            data,
            exports,
            prepared,
            i,
        ),
    decreases n,
{
    if i < n {
        placed_animation_error_spreads(data, exports, prepared, i, (n - 1) as nat);
    }
}

fn prepare_animations(package: &Package, updates: &Vec<AnimationUpdate>) -> (r: Result<
    Vec<PreparedAnimation>,
    String,
>)
    ensures
        match r {
            Ok(prepared) => prepared_animations(
                package@,
                updates_seen(updates@),
                updates@.len(),
            ) == Ok::<Seq<PreparedModel>, Seq<char>>(prepared_seen(prepared@)),
            Err(message) => prepared_animations(
                package@,
                updates_seen(updates@),
                updates@.len(),
            ) == Err::<Seq<PreparedModel>, Seq<char>>(message@),
        },
{
    let ghost model = updates_seen(updates@);
    let mut prepared: Vec<PreparedAnimation> = Vec::new();
    let mut i: usize = 0;
    assert(prepared_seen(prepared@) =~= Seq::empty());
    while i < updates.len()
        invariant
            i <= updates@.len(),
            model == updates_seen(updates@),
            prepared_animations(package@, model, i as nat) == Ok::<
                Seq<PreparedModel>,
                Seq<char>,
            >(prepared_seen(prepared@)),
        decreases updates.len() - i,
    {
        assert(model[i as int].index == updates@[i as int].export_index);
        if !is_updated_before(updates, i, updates[i].export_index) {
            match prepare_animation(package, &updates[i]) {
                Ok(one) => {
                    let ghost before = prepared@;
                    let ghost added = one@;
                    prepared.push(one);
                    assert(prepared_seen(prepared@) =~= prepared_seen(before).push(added));
                },
                Err(message) => {
                    proof {
                        prepared_error_spreads(package@, model, (i + 1) as nat, updates@.len());
                    }
                    return Err(message);
                },
            }
        }
        i += 1;
    }
    Ok(prepared)
}

fn place_animation(
    data: &mut Vec<u8>,
    exports: &mut Vec<ExportEntry>,
    one: &PreparedAnimation,
) -> (r: Result<(), String>)
    ensures
        match r {
            Ok(()) => with_animation_placed(old(data)@, old(exports)@, one@) == Ok::<
                (Seq<u8>, Seq<ExportEntry>),
                Seq<char>,
            >((final(data)@, final(exports)@)),
            Err(message) => with_animation_placed(old(data)@, old(exports)@, one@) == Err::<
                (Seq<u8>, Seq<ExportEntry>),
                Seq<char>,
            >(message@),
        },
{
    if one.export_index >= exports.len() {
        return Err("Exportação de textura inválida.".to_owned());
    }
    let start: usize = data.len();
    let old_count: usize = one.texture.original_mip_count_offset;
    let new_count: usize = one.texture.mip_count_offset;
    if one.mip.width_offset_position < old_count || one.mip.pixel_offset < old_count {
        return Err("Offset de mip inválido.".to_owned());
    }
    let pointer: usize = match new_count.checked_add(one.mip.width_offset_position - old_count) {
        Some(pointer) => pointer,
        None => return Err("Offset de mip inválido.".to_owned()),
    };
    let pixels: usize = match new_count.checked_add(one.mip.pixel_offset - old_count) {
        Some(pixels) => pixels,
        None => return Err("Offset de mip inválido.".to_owned()),
    };
    let target: usize = match start.checked_add(pixels) {
        Some(sum) => match sum.checked_add(one.mip.size) {
            Some(target) => target,
            None => return Err("Offset de mip inválido.".to_owned()),
        },
        None => return Err("Offset de mip inválido.".to_owned()),
    };
    let mut bytes = bytes::copy_bytes(one.texture.bytes.as_slice());
    let value: i32 = bytes::checked_i32(target, "O pacote excede o limite de tamanho.")?;
    bytes::write_i32_at(&mut bytes, pointer, value)?;
    let offset: i32 = bytes::checked_i32(start, "O pacote excede o limite de 2 GB.")?;
    let size: i32 = bytes::checked_i32(bytes.len(), "A textura é grande demais para este formato.")?;
    let before: ExportEntry = exports[one.export_index];
    exports.set(one.export_index, ExportEntry { offset, size, ..before });
    bytes::append(data, bytes.as_slice());
    Ok(())
}

/// Writes animations into a package. Every texture that gets one is appended
/// with it, once, and the tables are appended anew.
pub fn apply_animation_metadata_batch(
    working: Vec<u8>,
    package: &Package,
    updates: &Vec<AnimationUpdate>,
) -> (r: Result<Vec<u8>, String>)
    ensures
        images::bytes_result(r, with_animations(working@, package@, updates_seen(updates@))),
{
    if updates.len() == 0 {
        return Ok(working);
    }
    let prepared = prepare_animations(package, updates)?;
    let ghost model = prepared_seen(prepared@);
    let ghost start = working@;
    let mut data = working;
    let mut exports = package::copy_exports(package.exports.as_slice());
    let mut i: usize = 0;
    while i < prepared.len()
        invariant
            i <= prepared@.len(),
            model == prepared_seen(prepared@),
            updates@.len() > 0,
            start == working@,
            prepared_animations(package@, updates_seen(updates@), updates@.len()) == Ok::<
                Seq<PreparedModel>,
                Seq<char>,
            >(model),
            with_animations_placed(start, package@.exports, model, i as nat) == Ok::<
                (Seq<u8>, Seq<ExportEntry>),
                Seq<char>,
            >((data@, exports@)),
        decreases prepared.len() - i,
    {
        assert(model[i as int] == prepared@[i as int]@);
        match place_animation(&mut data, &mut exports, &prepared[i]) {
            Ok(()) => {},
            Err(message) => {
                proof {
                    placed_animation_error_spreads(
                        start,
                        package@.exports,
                        model,
                        (i + 1) as nat,
                        model.len(),
                    );
                }
                return Err(message);
            },
        }
        i += 1;
    }
    tables::rebuild_data(
        Dialect::Frontend,
        data,
        &package.names,
        package.imports.as_slice(),
        exports.as_slice(),
    )
}

} // verus!
