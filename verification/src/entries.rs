//! The texture entries of a package, as they are listed to a user.

use vstd::prelude::*;
use vstd::arithmetic::power2::*;
use vstd::slice::slice_subrange;
use crate::formats::UtxFormat;
use crate::layout::Split9;
use crate::names::NameModel;
use crate::package::Package;
use crate::properties::TextureClampEdit;
use crate::reader::{Dialect, Reader, Tag, TagModel, TYPE_BOOL};
use crate::bytes;
use crate::formats;
use crate::package;
use crate::reader;
use crate::text;

verus! {

/// The settings of a texture that its package stores.
#[derive(Debug, Clone, Copy, PartialEq, Eq, Structural)]
pub struct TextureSettings {
    pub alpha: Option<bool>,
    pub masked: Option<bool>,
    pub u_clamp: Option<i32>,
    pub v_clamp: Option<i32>,
    pub u_clamp_mode: Option<i32>,
    pub v_clamp_mode: Option<i32>,
}

/// The animation of a texture. Frame rates are the bit patterns of 32-bit
/// decimals.
#[derive(Debug, Clone, Copy, PartialEq, Eq, Structural)]
pub struct AnimationValues {
    pub anim_next: i32,
    pub max_frame_rate: u32,
    pub min_frame_rate: u32,
    pub one_time_anim_loop: bool,
    pub prime_count: i32,
    pub total_frame_num: i32,
}

/// Which animation properties a texture stores.
#[derive(Debug, Clone, Copy, PartialEq, Eq, Structural)]
pub struct AnimationPropertyPresence {
    pub anim_next: bool,
    pub max_frame_rate: bool,
    pub min_frame_rate: bool,
    pub one_time_anim_loop: bool,
    pub prime_count: bool,
    pub total_frame_num: bool,
}

/// What the property list of a texture says.
#[derive(Debug, Clone, Copy, PartialEq, Eq, Structural)]
pub struct TextureProperties {
    pub format: UtxFormat,
    pub width: i32,
    pub height: i32,
    pub u_bits: i32,
    pub v_bits: i32,
    pub settings: TextureSettings,
    pub has_split9: bool,
    pub split9: Split9,
    pub animation: AnimationValues,
    pub animation_properties: AnimationPropertyPresence,
}

pub open spec fn no_settings() -> TextureSettings {
    TextureSettings {
        alpha: None,
        masked: None,
        u_clamp: None,
        v_clamp: None,
        u_clamp_mode: None,
        v_clamp_mode: None,
    }
}

pub open spec fn no_animation() -> AnimationValues {
    AnimationValues {
        anim_next: 0,
        max_frame_rate: 0,
        min_frame_rate: 0,
        one_time_anim_loop: false,
        prime_count: 0,
        total_frame_num: 0,
    }
}

pub open spec fn no_presence() -> AnimationPropertyPresence {
    AnimationPropertyPresence {
        anim_next: false,
        max_frame_rate: false,
        min_frame_rate: false,
        one_time_anim_loop: false,
        prime_count: false,
        total_frame_num: false,
    }
}

pub open spec fn no_properties() -> TextureProperties {
    TextureProperties {
        format: UtxFormat::Unknown,
        width: 0,
        height: 0,
        u_bits: 0,
        v_bits: 0,
        settings: no_settings(),
        has_split9: false,
        split9: Split9 { x1: 0, x2: 0, x3: 0, y1: 0, y2: 0, y3: 0 },
        animation: no_animation(),
        animation_properties: no_presence(),
    }
}

impl Default for TextureSettings {
    fn default() -> (r: Self)
        ensures
            r == no_settings(),
    {
        TextureSettings {
            alpha: None,
            masked: None,
            u_clamp: None,
            v_clamp: None,
            u_clamp_mode: None,
            v_clamp_mode: None,
        }
    }
}

impl Default for AnimationValues {
    fn default() -> (r: Self)
        ensures
            r == no_animation(),
    {
        AnimationValues {
            anim_next: 0,
            max_frame_rate: 0,
            min_frame_rate: 0,
            one_time_anim_loop: false,
            prime_count: 0,
            total_frame_num: 0,
        }
    }
}

impl Default for AnimationPropertyPresence {
    fn default() -> (r: Self)
        ensures
            r == no_presence(),
    {
        AnimationPropertyPresence {
            anim_next: false,
            max_frame_rate: false,
            min_frame_rate: false,
            one_time_anim_loop: false,
            prime_count: false,
            total_frame_num: false,
        }
    }
}

/// Whether any setting has a value.
pub open spec fn some_setting(settings: TextureSettings) -> bool {
    settings != no_settings()
}

pub open spec fn clamp_of(settings: TextureSettings) -> Option<TextureClampEdit> {
    if settings.u_clamp is None && settings.v_clamp is None && settings.u_clamp_mode is None
        && settings.v_clamp_mode is None {
        None
    } else {
        Some(
            TextureClampEdit {
                u_clamp: settings.u_clamp,
                v_clamp: settings.v_clamp,
                u_clamp_mode: settings.u_clamp_mode,
                v_clamp_mode: settings.v_clamp_mode,
            },
        )
    }
}

impl TextureSettings {
    pub fn has_values(self) -> (r: bool)
        ensures
            r == some_setting(self),
    {
        self.alpha.is_some() || self.masked.is_some() || self.u_clamp.is_some()
            || self.v_clamp.is_some() || self.u_clamp_mode.is_some() || self.v_clamp_mode.is_some()
    }

    pub fn clamp_edit(self) -> (r: Option<TextureClampEdit>)
        ensures
            r == clamp_of(self),
    {
        if self.u_clamp.is_some() || self.v_clamp.is_some() || self.u_clamp_mode.is_some()
            || self.v_clamp_mode.is_some() {
            Some(
                TextureClampEdit {
                    u_clamp: self.u_clamp,
                    v_clamp: self.v_clamp,
                    u_clamp_mode: self.u_clamp_mode,
                    v_clamp_mode: self.v_clamp_mode,
                },
            )
        } else {
            None
        }
    }
}

/// Whether the bits of a 32-bit decimal stand for a number other than zero,
/// which has two patterns.
pub open spec fn is_nonzero_rate(bits: u32) -> bool {
    bits != 0 && bits != 0x8000_0000
}

/// Whether any value of an animation differs from its default.
pub open spec fn animated(values: AnimationValues) -> bool {
    values.anim_next != 0 || is_nonzero_rate(values.max_frame_rate) || is_nonzero_rate(
        values.min_frame_rate,
    ) || values.one_time_anim_loop || values.prime_count != 0 || values.total_frame_num != 0
}

impl AnimationValues {
    pub fn is_active(self) -> (r: bool)
        ensures
            r == animated(self),
    {
        self.anim_next != 0 || (self.max_frame_rate != 0 && self.max_frame_rate != 0x8000_0000) || (
        self.min_frame_rate != 0 && self.min_frame_rate != 0x8000_0000) || self.one_time_anim_loop
            || self.prime_count != 0 || self.total_frame_num != 0
    }
}

/// An integer property of one, two or four bytes, and the position behind it.
pub open spec fn integer_read(d: Seq<u8>, p: int, size: int) -> Result<(Option<i32>, int), Seq<char>> {
    if size == 1 {
        match reader::u8_at(Dialect::Frontend, d, p) {
            Err(e) => Err(e),
            Ok((v, q)) => Ok((Some(v as i32), q)),
        }
    } else if size == 2 {
        match reader::u16_read(Dialect::Frontend, d, p) {
            Err(e) => Err(e),
            Ok((v, q)) => Ok((Some(v as i32), q)),
        }
    } else if size == 4 {
        match reader::i32_read(Dialect::Frontend, d, p) {
            Err(e) => Err(e),
            Ok((v, q)) => Ok((Some(v), q)),
        }
    } else {
        Ok((None, p))
    }
}

/// An integer of one byte, of a property that has at least one.
pub open spec fn byte_read(d: Seq<u8>, tag: TagModel) -> Result<(Option<i32>, int), Seq<char>> {
    if tag.size >= 1 {
        integer_read(d, tag.start, 1)
    } else {
        Ok((None, tag.start))
    }
}

/// An integer of two or four bytes.
pub open spec fn dimension_read(d: Seq<u8>, tag: TagModel) -> Result<(Option<i32>, int), Seq<char>> {
    if tag.size == 2 || tag.size == 4 {
        integer_read(d, tag.start, tag.size)
    } else {
        Ok((None, tag.start))
    }
}

/// An integer of four bytes.
pub open spec fn word_read(d: Seq<u8>, tag: TagModel) -> Result<(Option<i32>, int), Seq<char>> {
    if tag.size == 4 {
        integer_read(d, tag.start, 4)
    } else {
        Ok((None, tag.start))
    }
}

/// An integer of one or four bytes.
pub open spec fn count_read(d: Seq<u8>, tag: TagModel) -> Result<(Option<i32>, int), Seq<char>> {
    if tag.size == 1 || tag.size == 4 {
        integer_read(d, tag.start, tag.size)
    } else {
        Ok((None, tag.start))
    }
}

/// The reference that an animation property stores.
pub open spec fn reference_read(d: Seq<u8>, tag: TagModel) -> Result<(Option<i32>, int), Seq<char>> {
    if tag.size <= 0 {
        Ok((None, tag.start))
    } else if tag.start + tag.size > usize::MAX {
        Err("Offset de animação inválido."@)
    } else if tag.start + tag.size > d.len() {
        Err("Dados de animação truncados."@)
    } else {
        match reader::compact_at(
            Dialect::Frontend,
            d.subrange(tag.start, tag.start + tag.size),
            0,
        ) {
            Err(e) => Err(e),
            Ok((v, _)) => Ok((Some(v), tag.start)),
        }
    }
}

/// The number that a property of this name adds to what is known, if any, and
/// the position behind it.
pub open spec fn number_read(d: Seq<u8>, name: Seq<char>, tag: TagModel) -> Result<
    (Option<i32>, int),
    Seq<char>,
> {
    if text::same_folded(name, "Format"@) || text::same_folded(name, "UBits"@) || text::same_folded(name, "VBits"@) {
        byte_read(d, tag)
    } else if text::same_folded(name, "USize"@) || text::same_folded(name, "VSize"@) {
        dimension_read(d, tag)
    } else if text::same_folded(name, "UClamp"@) || text::same_folded(name, "VClamp"@) || text::same_folded(
        name,
        "UClampMode"@,
    ) || text::same_folded(name, "VClampMode"@) {
        integer_read(d, tag.start, tag.size)
    } else if text::same_folded(name, "AnimNext"@) {
        reference_read(d, tag)
    } else if text::same_folded(name, "PrimeCount"@) {
        count_read(d, tag)
    } else if is_word_name(name) {
        word_read(d, tag)
    } else {
        Ok((None, tag.start))
    }
}

/// The properties that are stored in four bytes.
pub open spec fn is_word_name(name: Seq<char>) -> bool {
    text::same_folded(name, "Split9X1"@) || text::same_folded(name, "Split9X2"@) || text::same_folded(
        name,
        "Split9X3"@,
    ) || text::same_folded(name, "Split9Y1"@) || text::same_folded(name, "Split9Y2"@) || text::same_folded(
        name,
        "Split9Y3"@,
    ) || text::same_folded(name, "MaxFrameRate"@) || text::same_folded(name, "MinFrameRate"@) || text::same_folded(
        name,
        "TotalFrameNum"@,
    )
}

/// Split9 values with the one of this name set.
pub open spec fn split9_noted(split9: Split9, name: Seq<char>, v: i32) -> Split9 {
    if text::same_folded(name, "Split9X1"@) {
        Split9 { x1: v, ..split9 }
    } else if text::same_folded(name, "Split9X2"@) {
        Split9 { x2: v, ..split9 }
    } else if text::same_folded(name, "Split9X3"@) {
        Split9 { x3: v, ..split9 }
    } else if text::same_folded(name, "Split9Y1"@) {
        Split9 { y1: v, ..split9 }
    } else if text::same_folded(name, "Split9Y2"@) {
        Split9 { y2: v, ..split9 }
    } else if text::same_folded(name, "Split9Y3"@) {
        Split9 { y3: v, ..split9 }
    } else {
        split9
    }
}

/// Animation values with the one of this name set.
pub open spec fn animation_noted(animation: AnimationValues, name: Seq<char>, v: i32) -> AnimationValues {
    if text::same_folded(name, "AnimNext"@) {
        AnimationValues { anim_next: v, ..animation }
    } else if text::same_folded(name, "MaxFrameRate"@) {
        AnimationValues { max_frame_rate: bytes::bits_of(v), ..animation }
    } else if text::same_folded(name, "MinFrameRate"@) {
        AnimationValues { min_frame_rate: bytes::bits_of(v), ..animation }
    } else if text::same_folded(name, "PrimeCount"@) {
        AnimationValues { prime_count: v, ..animation }
    } else if text::same_folded(name, "TotalFrameNum"@) {
        AnimationValues { total_frame_num: v, ..animation }
    } else {
        animation
    }
}

/// Animation properties with the one of this name marked as stored.
pub open spec fn presence_noted(presence: AnimationPropertyPresence, name: Seq<char>) -> AnimationPropertyPresence {
    if text::same_folded(name, "AnimNext"@) {
        AnimationPropertyPresence { anim_next: true, ..presence }
    } else if text::same_folded(name, "MaxFrameRate"@) {
        AnimationPropertyPresence { max_frame_rate: true, ..presence }
    } else if text::same_folded(name, "MinFrameRate"@) {
        AnimationPropertyPresence { min_frame_rate: true, ..presence }
    } else if text::same_folded(name, "PrimeCount"@) {
        AnimationPropertyPresence { prime_count: true, ..presence }
    } else if text::same_folded(name, "TotalFrameNum"@) {
        AnimationPropertyPresence { total_frame_num: true, ..presence }
    } else {
        presence
    }
}

/// Settings with the clamp property of this name set to what was read, which
/// may be nothing.
pub open spec fn settings_noted(settings: TextureSettings, name: Seq<char>, v: Option<i32>) -> TextureSettings {
    if text::same_folded(name, "UClamp"@) {
        TextureSettings { u_clamp: v, ..settings }
    } else if text::same_folded(name, "VClamp"@) {
        TextureSettings { v_clamp: v, ..settings }
    } else if text::same_folded(name, "UClampMode"@) {
        TextureSettings { u_clamp_mode: v, ..settings }
    } else if text::same_folded(name, "VClampMode"@) {
        TextureSettings { v_clamp_mode: v, ..settings }
    } else {
        settings
    }
}

/// What is known after a number was read for a property of this name.
pub open spec fn number_noted(t: TextureProperties, name: Seq<char>, v: Option<i32>) -> TextureProperties {
    let settings = settings_noted(t.settings, name, v);
    match v {
        None => TextureProperties { settings, ..t },
        Some(n) => TextureProperties {
            format: if text::same_folded(name, "Format"@) {
                formats::format_of(n as u8)
            } else {
                t.format
            },
            width: if text::same_folded(name, "USize"@) {
                n
            } else {
                t.width
            },
            height: if text::same_folded(name, "VSize"@) {
                n
            } else {
                t.height
            },
            u_bits: if text::same_folded(name, "UBits"@) {
                n
            } else {
                t.u_bits
            },
            v_bits: if text::same_folded(name, "VBits"@) {
                n
            } else {
                t.v_bits
            },
            settings,
            has_split9: t.has_split9,
            split9: split9_noted(t.split9, name, n),
            animation: animation_noted(t.animation, name, n),
            animation_properties: presence_noted(t.animation_properties, name),
        },
    }
}

/// What is known after a flag of this name.
pub open spec fn flag_noted(t: TextureProperties, name: Seq<char>, tag: TagModel) -> TextureProperties {
    if tag.kind != TYPE_BOOL {
        t
    } else if text::same_folded(name, "bAlphaTexture"@) {
        TextureProperties {
            settings: TextureSettings { alpha: Some(tag.flag), ..t.settings },
            ..t
        }
    } else if text::same_folded(name, "bMasked"@) {
        TextureProperties {
            settings: TextureSettings { masked: Some(tag.flag), ..t.settings },
            ..t
        }
    } else if text::same_folded(name, "bSplit9Texture"@) {
        TextureProperties { has_split9: tag.flag, ..t }
    } else if text::same_folded(name, "OneTimeAnimLoop"@) || text::same_folded(name, "bAnimLoop"@) {
        TextureProperties {
            animation: AnimationValues { one_time_anim_loop: tag.flag, ..t.animation },
            animation_properties: AnimationPropertyPresence {
                one_time_anim_loop: true,
                ..t.animation_properties
            },
            ..t
        }
    } else {
        t
    }
}

/// What is known after one property, and the position where its value is read.
pub open spec fn property_noted(
    d: Seq<u8>,
    t: TextureProperties,
    name: Seq<char>,
    tag: TagModel,
) -> Result<(TextureProperties, int), Seq<char>> {
    match number_read(d, name, tag) {
        Err(e) => Err(e),
        Ok((v, q)) => Ok((number_noted(flag_noted(t, name, tag), name, v), q)),
    }
}

/// What the properties from `p` on add to what is known, and the position
/// behind `None`.
pub open spec fn properties_from(names: Seq<NameModel>, d: Seq<u8>, p: int, t: TextureProperties) -> Result<
    (TextureProperties, int),
    Seq<char>,
>
    decreases d.len() - p,
    when 0 <= p
{
    match reader::compact_at(Dialect::Frontend, d, p) {
        Err(e) => Err(e),
        Ok((index, q)) => match package::object_name(Dialect::Frontend, names, index) {
            Err(e) => Err(e),
            Ok(name) => if text::same_folded(name, "None"@) {
                Ok((t, q))
            } else {
                match reader::tag_at(Dialect::Frontend, d, q) {
                    Err(e) => Err(e),
                    Ok(tag) => match property_noted(d, t, name, tag) {
                        Err(e) => Err(e),
                        Ok((more, read)) => match reader::skip_end(
                            Dialect::Frontend,
                            d,
                            read,
                            tag.start + tag.size - read,
                        ) {
                            Err(e) => Err(e),
                            Ok(end) => {
                                proof {
                                    reader::compact_moves(Dialect::Frontend, d, p);
                                    reader::tag_moves(Dialect::Frontend, d, q);
                                }
                                properties_from(names, d, end, more)
                            },
                        },
                    },
                }
            },
        },
    }
}


fn read_integer(reader: &mut Reader, size: usize) -> (r: Result<Option<i32>, String>)
    requires
        old(reader).wf(),
        old(reader).dialect == Dialect::Frontend,
    ensures
        reader::stepped(
            *old(reader),
            *final(reader),
            r,
            integer_read(old(reader).data@, old(reader).position as int, size as int),
        ),
{
    match size {
        1 => Ok(Some(reader.read_u8()? as i32)),
        2 => Ok(Some(reader.read_u16()? as i32)),
        4 => Ok(Some(reader.read_i32()?)),
        _ => Ok(None),
    }
}

fn read_animation_reference(reader: &mut Reader, tag: Tag) -> (r: Result<Option<i32>, String>)
    requires
        old(reader).wf(),
        old(reader).dialect == Dialect::Frontend,
        old(reader).position == tag.start,
    ensures
        reader::stepped(
            *old(reader),
            *final(reader),
            r,
            reference_read(old(reader).data@, tag@),
        ),
{
    if tag.size == 0 {
        return Ok(None);
    }
    let end: usize = match tag.start.checked_add(tag.size) {
        Some(end) => end,
        None => return Err("Offset de animação inválido.".to_owned()),
    };
    if end > reader.data.len() {
        return Err("Dados de animação truncados.".to_owned());
    }
    let mut inner = Reader::new(slice_subrange(reader.data, tag.start, end), Dialect::Frontend);
    let value: i32 = inner.read_compact()?;
    Ok(Some(value))
}

fn has_word_name(name: &str) -> (r: bool)
    ensures
        r == is_word_name(name@),
{
    text::equals_folded(name, "Split9X1") || text::equals_folded(name, "Split9X2") || text::equals_folded(
        name,
        "Split9X3",
    ) || text::equals_folded(name, "Split9Y1") || text::equals_folded(name, "Split9Y2") || text::equals_folded(
        name,
        "Split9Y3",
    ) || text::equals_folded(name, "MaxFrameRate") || text::equals_folded(name, "MinFrameRate")
        || text::equals_folded(name, "TotalFrameNum")
}

fn read_number(reader: &mut Reader, name: &str, tag: Tag) -> (r: Result<Option<i32>, String>)
    requires
        old(reader).wf(),
        old(reader).dialect == Dialect::Frontend,
        old(reader).position == tag.start,
    ensures
        reader::stepped(
            *old(reader),
            *final(reader),
            r,
            number_read(old(reader).data@, name@, tag@),
        ),
{
    let size: usize = tag.size;
    if text::equals_folded(name, "Format") || text::equals_folded(name, "UBits") || text::equals_folded(
        name,
        "VBits",
    ) {
        if size >= 1 {
            return read_integer(reader, 1);
        }
    } else if text::equals_folded(name, "USize") || text::equals_folded(name, "VSize") {
        if size == 2 || size == 4 {
            return read_integer(reader, size);
        }
    } else if text::equals_folded(name, "UClamp") || text::equals_folded(name, "VClamp") || text::equals_folded(
        name,
        "UClampMode",
    ) || text::equals_folded(name, "VClampMode") {
        return read_integer(reader, size);
    } else if text::equals_folded(name, "AnimNext") {
        return read_animation_reference(reader, tag);
    } else if text::equals_folded(name, "PrimeCount") {
        if size == 1 || size == 4 {
            return read_integer(reader, size);
        }
    } else if has_word_name(name) {
        if size == 4 {
            return read_integer(reader, 4);
        }
    }
    Ok(None)
}

fn note_flag(t: &mut TextureProperties, name: &str, tag: Tag)
    ensures
        *final(t) == flag_noted(*old(t), name@, tag@),
{
    if tag.kind == TYPE_BOOL {
        if text::equals_folded(name, "bAlphaTexture") {
            t.settings.alpha = Some(tag.flag);
        } else if text::equals_folded(name, "bMasked") {
            t.settings.masked = Some(tag.flag);
        } else if text::equals_folded(name, "bSplit9Texture") {
            t.has_split9 = tag.flag;
        } else if text::equals_folded(name, "OneTimeAnimLoop") || text::equals_folded(name, "bAnimLoop") {
            t.animation.one_time_anim_loop = tag.flag;
            t.animation_properties.one_time_anim_loop = true;
        }
    }
}

fn note_settings(settings: &mut TextureSettings, name: &str, v: Option<i32>)
    ensures
        *final(settings) == settings_noted(*old(settings), name@, v),
{
    if text::equals_folded(name, "UClamp") {
        settings.u_clamp = v;
    } else if text::equals_folded(name, "VClamp") {
        settings.v_clamp = v;
    } else if text::equals_folded(name, "UClampMode") {
        settings.u_clamp_mode = v;
    } else if text::equals_folded(name, "VClampMode") {
        settings.v_clamp_mode = v;
    }
}

fn note_split9(split9: &mut Split9, name: &str, v: i32)
    ensures
        *final(split9) == split9_noted(*old(split9), name@, v),
{
    if text::equals_folded(name, "Split9X1") {
        split9.x1 = v;
    } else if text::equals_folded(name, "Split9X2") {
        split9.x2 = v;
    } else if text::equals_folded(name, "Split9X3") {
        split9.x3 = v;
    } else if text::equals_folded(name, "Split9Y1") {
        split9.y1 = v;
    } else if text::equals_folded(name, "Split9Y2") {
        split9.y2 = v;
    } else if text::equals_folded(name, "Split9Y3") {
        split9.y3 = v;
    }
}

fn note_animation(
    animation: &mut AnimationValues,
    presence: &mut AnimationPropertyPresence,
    name: &str,
    v: i32,
)
    ensures
        *final(animation) == animation_noted(*old(animation), name@, v),
        *final(presence) == presence_noted(*old(presence), name@),
{
    if text::equals_folded(name, "AnimNext") {
        animation.anim_next = v;
        presence.anim_next = true;
    } else if text::equals_folded(name, "MaxFrameRate") {
        animation.max_frame_rate = bytes::i32_bits(v);
        presence.max_frame_rate = true;
    } else if text::equals_folded(name, "MinFrameRate") {
        animation.min_frame_rate = bytes::i32_bits(v);
        presence.min_frame_rate = true;
    } else if text::equals_folded(name, "PrimeCount") {
        animation.prime_count = v;
        presence.prime_count = true;
    } else if text::equals_folded(name, "TotalFrameNum") {
        animation.total_frame_num = v;
        presence.total_frame_num = true;
    }
}

/// A format byte is read as a number from 0 to 255.
proof fn format_is_byte(d: Seq<u8>, name: Seq<char>, tag: TagModel)
    requires
        text::same_folded(name, "Format"@),
    ensures
        number_read(d, name, tag) matches Ok((Some(v), _)) ==> 0 <= v <= 255,
{
}

fn note_number(t: &mut TextureProperties, name: &str, v: Option<i32>)
    requires
        text::same_folded(name@, "Format"@) ==> (v matches Some(n) ==> 0 <= n <= 255),
    ensures
        *final(t) == number_noted(*old(t), name@, v),
{
    note_settings(&mut t.settings, name, v);
    if let Some(n) = v {
        if text::equals_folded(name, "Format") {
            t.format = UtxFormat::from_value(n as u8);
        }
        if text::equals_folded(name, "USize") {
            t.width = n;
        }
        if text::equals_folded(name, "VSize") {
            t.height = n;
        }
        if text::equals_folded(name, "UBits") {
            t.u_bits = n;
        }
        if text::equals_folded(name, "VBits") {
            t.v_bits = n;
        }
        note_split9(&mut t.split9, name, n);
        note_animation(&mut t.animation, &mut t.animation_properties, name, n);
    }
}

/// A number of pixels from its stored exponent, as a 32-bit integer holds it.
pub open spec fn shifted_one(bits: i32) -> i32 {
    if bits >= 32 {
        0
    } else if bits == 31 {
        i32::MIN
    } else {
        pow2(bits as nat) as i32
    }
}

fn shift_one(bits: i32) -> (r: i32)
    requires
        0 <= bits,
    ensures
        r == shifted_one(bits),
{
    if bits >= 32 {
        return 0;
    }
    if bits == 31 {
        return i32::MIN;
    }
    let mut value: i32 = 1;
    let mut i: i32 = 0;
    proof {
        lemma2_to64();
    }
    while i < bits
        invariant
            0 <= i <= bits <= 30,
            value == pow2(i as nat),
        decreases bits - i,
    {
        proof {
            lemma2_to64();
            lemma_pow2_unfold((i + 1) as nat);
            if i + 1 < 30 {
                lemma_pow2_strictly_increases((i + 1) as nat, 30);
            }
        }
        value = 2 * value;
        i = i + 1;
    }
    value
}

/// The properties with missing dimensions taken from their exponents.
pub open spec fn with_dimensions(t: TextureProperties) -> TextureProperties {
    TextureProperties {
        width: if t.width <= 0 && t.u_bits > 0 {
            shifted_one(t.u_bits)
        } else {
            t.width
        },
        height: if t.height <= 0 && t.v_bits > 0 {
            shifted_one(t.v_bits)
        } else {
            t.height
        },
        ..t
    }
}

/// What the property list of a texture at `p` says, and the position behind it.
#[verifier::opaque]
pub open spec fn properties_of(names: Seq<NameModel>, d: Seq<u8>, p: int) -> Result<
    (TextureProperties, int),
    Seq<char>,
> {
    match properties_from(names, d, p, no_properties()) {
        Err(e) => Err(e),
        Ok((t, q)) => Ok((with_dimensions(t), q)),
    }
}

/// Reads one property behind its name.
fn read_property(reader: &mut Reader, t: &mut TextureProperties, name: &str) -> (r: Result<(), String>)
    requires
        old(reader).wf(),
        old(reader).dialect == Dialect::Frontend,
    ensures
        reader::moved(*old(reader), *final(reader)),
        ({
            let d = old(reader).data@;
            match reader::tag_at(Dialect::Frontend, d, old(reader).position as int) {
                Err(e) => r is Err && r->Err_0@ == e,
                Ok(tag) => match property_noted(d, *old(t), name@, tag) {
                    Err(e) => r is Err && r->Err_0@ == e,
                    Ok((more, read)) => match reader::skip_end(
                        Dialect::Frontend,
                        d,
                        read,
                        tag.start + tag.size - read,
                    ) {
                        Err(e) => r is Err && r->Err_0@ == e,
                        Ok(end) => r is Ok && *final(t) == more && final(reader).position == end,
                    },
                },
            }
        }),
{
    let tag = reader.read_tag()?;
    let v = read_number(reader, name, tag)?;
    proof {
        if text::same_folded(name@, "Format"@) {
            format_is_byte(old(reader).data@, name@, tag@);
        }
        reader::tag_moves(Dialect::Frontend, old(reader).data@, old(reader).position as int);
    }
    note_flag(t, name, tag);
    note_number(t, name, v);
    let consumed: usize = reader.position - tag.start;
    if consumed < tag.size {
        reader.skip(tag.size - consumed)?;
    }
    Ok(())
}

/// Reads the property list of a texture.
pub fn read_texture_properties(reader: &mut Reader, package: &Package) -> (r: Result<
    TextureProperties,
    String,
>)
    requires
        old(reader).wf(),
        old(reader).dialect == Dialect::Frontend,
    ensures
        reader::stepped(
            *old(reader),
            *final(reader),
            r,
            properties_of(package@.names, old(reader).data@, old(reader).position as int),
        ),
{
    let ghost d = reader.data@;
    let ghost start = reader.position as int;
    let mut t = TextureProperties {
        format: UtxFormat::Unknown,
        width: 0,
        height: 0,
        u_bits: 0,
        v_bits: 0,
        settings: TextureSettings {
            alpha: None,
            masked: None,
            u_clamp: None,
            v_clamp: None,
            u_clamp_mode: None,
            v_clamp_mode: None,
        },
        has_split9: false,
        split9: Split9 { x1: 0, x2: 0, x3: 0, y1: 0, y2: 0, y3: 0 },
        animation: AnimationValues {
            anim_next: 0,
            max_frame_rate: 0,
            min_frame_rate: 0,
            one_time_anim_loop: false,
            prime_count: 0,
            total_frame_num: 0,
        },
        animation_properties: AnimationPropertyPresence {
            anim_next: false,
            max_frame_rate: false,
            min_frame_rate: false,
            one_time_anim_loop: false,
            prime_count: false,
            total_frame_num: false,
        },
    };
    proof {
        reveal(properties_of);
    }
    loop
        invariant_except_break
            d == old(reader).data@,
            start == old(reader).position,
            reader::moved(*old(reader), *reader),
            reader.wf(),
            reader.dialect == Dialect::Frontend,
            reader.data@ == d,
            properties_from(package@.names, d, start, no_properties()) == properties_from(
                package@.names,
                d,
                reader.position as int,
                t,
            ),
        ensures
            reader::moved(*old(reader), *reader),
            reader.wf(),
            reader.dialect == Dialect::Frontend,
            reader.data@ == d,
            properties_from(package@.names, d, start, no_properties()) == Ok::<
                (TextureProperties, int),
                Seq<char>,
            >((t, reader.position as int)),
        decreases d.len() - reader.position,
    {
        proof {
            reveal(properties_of);
        }
        let index: i32 = reader.read_compact()?;
        let name = package.name(Dialect::Frontend, index)?;
        if text::equals_folded(name.as_str(), "None") {
            break;
        }
        proof {
            reader::tag_moves(Dialect::Frontend, d, reader.position as int);
        }
        read_property(reader, &mut t, name.as_str())?;
    }
    if t.width <= 0 && t.u_bits > 0 {
        t.width = shift_one(t.u_bits);
    }
    if t.height <= 0 && t.v_bits > 0 {
        t.height = shift_one(t.v_bits);
    }
    Ok(t)
}

} // verus!
