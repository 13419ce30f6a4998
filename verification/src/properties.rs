//! The property stream of a texture: tagged values that end with `None`.
//!
//! Unknown properties are kept byte-for-byte until explicitly changed. That is
//! essential for properties such as `MipZero`, indexed `InternalTime`, and
//! clamp settings that are present in real game packages but are not exposed in
//! the editor yet.

use vstd::prelude::*;
use crate::names::{NameModel, NameTable};
use crate::reader::{Dialect, Reader, TYPE_BOOL};
use crate::bytes;
use crate::names;
use crate::reader;
use crate::text;

verus! {

pub const TYPE_BYTE: u8 = 1;

pub const TYPE_INT: u8 = 2;

pub const TYPE_FLOAT: u8 = 4;

pub const TYPE_OBJECT: u8 = 5;

/// Values that can be edited without losing UE2 tag semantics. A decimal is
/// held by its bit pattern; `Raw` is a value that is only kept as bytes.
#[derive(Debug, Clone, Copy, PartialEq, Eq, Structural)]
pub enum PropertyValue {
    Byte(u8),
    Int(i32),
    Bool(bool),
    Float(u32),
    Object(i32),
    Raw,
}

/// One property: its stored bytes, the value they hold and, where it was
/// edited, the value that takes its place.
#[derive(Debug)]
pub struct PropertyRecord {
    pub name: String,
    pub name_index: i32,
    pub raw: Vec<u8>,
    pub value: PropertyValue,
    pub replacement: Option<PropertyValue>,
}

pub struct RecordModel {
    pub name: Seq<char>,
    pub name_index: i32,
    pub raw: Seq<u8>,
    pub value: PropertyValue,
    pub replacement: Option<PropertyValue>,
}

impl View for PropertyRecord {
    type V = RecordModel;

    open spec fn view(&self) -> RecordModel {
        RecordModel {
            name: self.name@,
            name_index: self.name_index,
            raw: self.raw@,
            value: self.value,
            replacement: self.replacement,
        }
    }
}

pub open spec fn records_of(records: Seq<PropertyRecord>) -> Seq<RecordModel> {
    Seq::new(records.len(), |i: int| records[i]@)
}

/// Texture property stream, excluding the mip payload that follows `None`.
///
/// `trailing_offset` is where the property list ends and its `None` stands;
/// `tail_offset` is the first byte behind that `None`.
#[derive(Debug)]
pub struct TexturePropertyStream {
    pub properties: Vec<PropertyRecord>,
    pub trailing_offset: usize,
    pub tail_offset: usize,
}

pub struct StreamModel {
    pub properties: Seq<RecordModel>,
    pub trailing_offset: int,
    pub tail_offset: int,
}

impl View for TexturePropertyStream {
    type V = StreamModel;

    open spec fn view(&self) -> StreamModel {
        StreamModel {
            properties: records_of(self.properties@),
            trailing_offset: self.trailing_offset as int,
            tail_offset: self.tail_offset as int,
        }
    }
}

/// The value of a property of the given type, flag and bytes.
pub open spec fn decoded_value(kind: u8, flag: bool, b: Seq<u8>) -> Result<
    PropertyValue,
    Seq<char>,
> {
    if kind == TYPE_BYTE && b.len() == 1 {
        Ok(PropertyValue::Byte(b[0]))
    } else if kind == TYPE_INT && b.len() == 4 {
        Ok(PropertyValue::Int(bytes::i32_of(b)))
    } else if kind == TYPE_BOOL {
        Ok(PropertyValue::Bool(flag))
    } else if kind == TYPE_FLOAT && b.len() == 4 {
        Ok(PropertyValue::Float(bytes::u32_of(b)))
    } else if kind == TYPE_OBJECT && b.len() > 0 {
        match reader::compact_at(Dialect::Engine, b, 0) {
            Ok((reference, _)) => Ok(PropertyValue::Object(reference)),
            Err(e) => Err(e),
        }
    } else {
        Ok(PropertyValue::Raw)
    }
}

/// The properties from `p` up to `None`, the place of `None` and the position
/// behind it.
pub open spec fn stream_from(d: Seq<u8>, names: Seq<NameModel>, p: int) -> Result<
    StreamModel,
    Seq<char>,
>
    decreases d.len() - p,
    when 0 <= p
{
    match reader::compact_at(Dialect::Engine, d, p) {
        Err(e) => Err(e),
        Ok((index, q)) => match names::name_at(names, index) {
            Err(e) => Err(e),
            Ok(name) => if text::same_folded(name, "None"@) {
                Ok(StreamModel { properties: Seq::empty(), trailing_offset: p, tail_offset: q })
            } else {
                match reader::tag_at(Dialect::Engine, d, q) {
                    Err(e) => Err(e),
                    Ok(tag) => match reader::exact_end(Dialect::Engine, d, tag.start, tag.size) {
                        Err(e) => Err(e),
                        Ok(end) => {
                            match decoded_value(tag.kind, tag.flag, d.subrange(tag.start, end)) {
                                Err(e) => Err(e),
                                Ok(value) => {
                                    proof {
                                        reader::compact_moves(Dialect::Engine, d, p);
                                        reader::tag_moves(Dialect::Engine, d, q);
                                    }
                                    behind_record(
                                        RecordModel {
                                            name,
                                            name_index: index,
                                            raw: d.subrange(p, end),
                                            value,
                                            replacement: None,
                                        },
                                        stream_from(d, names, end),
                                    )
                                },
                            }
                        },
                    },
                }
            },
        },
    }
}

/// A stream with one more record in front.
pub open spec fn behind_record(
    record: RecordModel,
    rest: Result<StreamModel, Seq<char>>,
) -> Result<StreamModel, Seq<char>> {
    behind_records(seq![record], rest)
}

pub open spec fn behind_records(
    records: Seq<RecordModel>,
    rest: Result<StreamModel, Seq<char>>,
) -> Result<StreamModel, Seq<char>> {
    match rest {
        Err(e) => Err(e),
        Ok(stream) => Ok(
            StreamModel {
                properties: records + stream.properties,
                trailing_offset: stream.trailing_offset,
                tail_offset: stream.tail_offset,
            },
        ),
    }
}

/// The info byte for a value of `size` bytes, with the length byte that only
/// irregular sizes carry.
pub open spec fn sized_head(kind: u8, size: nat) -> Seq<u8> {
    if size == 1 {
        seq![kind]
    } else if size == 2 {
        seq![(16 + kind) as u8]
    } else if size == 4 {
        seq![(32 + kind) as u8]
    } else if size == 12 {
        seq![(48 + kind) as u8]
    } else if size == 16 {
        seq![(64 + kind) as u8]
    } else {
        seq![(80 + kind) as u8, size as u8]
    }
}

pub open spec fn sized_property(
    name_index: i32,
    kind: u8,
    value: Seq<u8>,
    too_long: Seq<char>,
) -> Result<Seq<u8>, Seq<char>> {
    if value.len() <= 255 {
        Ok(reader::compact_bytes(name_index) + sized_head(kind, value.len()) + value)
    } else {
        Err(too_long)
    }
}

/// The stored form of a property. A bool carries its value in the highest bit
/// of its info byte and an explicit size of zero.
pub open spec fn property_bytes(name_index: i32, value: PropertyValue) -> Result<
    Seq<u8>,
    Seq<char>,
> {
    match value {
        PropertyValue::Byte(v) => Ok(
            reader::compact_bytes(name_index) + sized_head(TYPE_BYTE, 1) + seq![v],
        ),
        PropertyValue::Int(v) => Ok(
            reader::compact_bytes(name_index) + sized_head(TYPE_INT, 4) + bytes::i32_bytes(v),
        ),
        PropertyValue::Bool(v) => Ok(
            reader::compact_bytes(name_index) + seq![
                if v {
                    0xd3u8
                } else {
                    0x53u8
                },
                0u8,
            ],
        ),
        PropertyValue::Float(v) => Ok(
            reader::compact_bytes(name_index) + sized_head(TYPE_FLOAT, 4) + bytes::le32(v),
        ),
        PropertyValue::Object(v) => Ok(
            reader::compact_bytes(name_index) + sized_head(TYPE_OBJECT, reader::compact_bytes(v).len())
                + reader::compact_bytes(v),
        ),
        PropertyValue::Raw => Err("Não é possível serializar uma propriedade bruta alterada."@),
    }
}

/// A record's stored form: its own bytes until it was given another value.
pub open spec fn record_bytes(record: RecordModel) -> Result<Seq<u8>, Seq<char>> {
    match record.replacement {
        Some(value) => property_bytes(record.name_index, value),
        None => Ok(record.raw),
    }
}

pub open spec fn records_bytes(records: Seq<RecordModel>) -> Result<Seq<u8>, Seq<char>>
    decreases records.len(),
{
    if records.len() == 0 {
        Ok(Seq::empty())
    } else {
        match records_bytes(records.drop_last()) {
            Err(e) => Err(e),
            Ok(head) => match record_bytes(records.last()) {
                Err(e) => Err(e),
                Ok(last) => Ok(head + last),
            },
        }
    }
}

/// The stored form of a property list with its `None`.
pub open spec fn stream_bytes(names: Seq<NameModel>, records: Seq<RecordModel>) -> Result<
    Seq<u8>,
    Seq<char>,
> {
    match names::index_in(names, "None"@) {
        None => Err("A tabela de nomes não possui o terminador None."@),
        Some(none) => match records_bytes(records) {
            Err(e) => Err(e),
            Ok(bytes) => Ok(bytes + reader::compact_bytes(none)),
        },
    }
}

pub open spec fn find_record(records: Seq<RecordModel>, name: Seq<char>, from: int) -> Option<int>
    decreases records.len() - from,
{
    if from < 0 || from >= records.len() {
        None
    } else if text::same_folded(records[from].name, name) {
        Some(from)
    } else {
        find_record(records, name, from + 1)
    }
}

pub proof fn find_record_is_first(records: Seq<RecordModel>, name: Seq<char>, from: int)
    requires
        0 <= from,
    ensures
        match find_record(records, name, from) {
            Some(i) => {
                &&& from <= i < records.len()
                &&& text::same_folded(records[i].name, name)
                &&& forall|k: int| from <= k < i ==> !text::same_folded(#[trigger] records[k].name, name)
            },
            None => forall|k: int|
                from <= k < records.len() ==> !text::same_folded(#[trigger] records[k].name, name),
        },
    decreases records.len() - from,
{
    if from < records.len() && !text::same_folded(records[from].name, name) {
        find_record_is_first(records, name, from + 1);
    }
}

pub open spec fn current_value(record: RecordModel) -> PropertyValue {
    match record.replacement {
        Some(value) => value,
        None => record.value,
    }
}

/// The value of the first property with this name.
pub open spec fn value_of(records: Seq<RecordModel>, name: Seq<char>) -> Option<PropertyValue> {
    match find_record(records, name, 0) {
        Some(i) => Some(current_value(records[i])),
        None => None,
    }
}

pub open spec fn bool_of(records: Seq<RecordModel>, name: Seq<char>) -> Option<bool> {
    match value_of(records, name) {
        Some(PropertyValue::Bool(v)) => Some(v),
        _ => None,
    }
}

pub open spec fn byte_of(records: Seq<RecordModel>, name: Seq<char>) -> Option<i32> {
    match value_of(records, name) {
        Some(PropertyValue::Byte(v)) => Some(v as i32),
        _ => None,
    }
}

pub open spec fn int_of(records: Seq<RecordModel>, name: Seq<char>) -> Option<i32> {
    match value_of(records, name) {
        Some(PropertyValue::Int(v)) => Some(v),
        _ => None,
    }
}

pub open spec fn integer_of(records: Seq<RecordModel>, name: Seq<char>) -> Option<i32> {
    match value_of(records, name) {
        Some(PropertyValue::Byte(v)) => Some(v as i32),
        Some(PropertyValue::Int(v)) => Some(v),
        _ => None,
    }
}

pub open spec fn float_of(records: Seq<RecordModel>, name: Seq<char>) -> Option<u32> {
    match value_of(records, name) {
        Some(PropertyValue::Float(v)) => Some(v),
        _ => None,
    }
}

pub open spec fn object_of(records: Seq<RecordModel>, name: Seq<char>) -> Option<i32> {
    match value_of(records, name) {
        Some(PropertyValue::Object(v)) => Some(v),
        _ => None,
    }
}

pub open spec fn or_zero(value: Option<i32>) -> i32 {
    match value {
        Some(v) => v,
        None => 0,
    }
}

/// Read-only state of the properties that the editor shows. Frame rates are
/// the bit patterns of 32-bit decimals.
#[derive(Debug, Clone, Copy)]
pub struct TextureEditorState {
    pub alpha: Option<bool>,
    pub masked: Option<bool>,
    pub u_clamp: Option<i32>,
    pub v_clamp: Option<i32>,
    pub u_clamp_mode: Option<i32>,
    pub v_clamp_mode: Option<i32>,
    pub split9: Option<bool>,
    pub split9_x1: i32,
    pub split9_x2: i32,
    pub split9_x3: i32,
    pub split9_y1: i32,
    pub split9_y2: i32,
    pub split9_y3: i32,
    pub animation: TextureAnimationState,
}

#[derive(Debug, Clone, Copy)]
pub struct TextureAnimationState {
    pub anim_next: Option<i32>,
    pub max_frame_rate: Option<u32>,
    pub min_frame_rate: Option<u32>,
    pub one_time_anim_loop: Option<bool>,
    pub prime_count: Option<i32>,
    pub total_frame_num: Option<i32>,
}

pub open spec fn state_of(records: Seq<RecordModel>) -> TextureEditorState {
    TextureEditorState {
        alpha: bool_of(records, "bAlphaTexture"@),
        masked: bool_of(records, "bMasked"@),
        u_clamp: integer_of(records, "UClamp"@),
        v_clamp: integer_of(records, "VClamp"@),
        u_clamp_mode: integer_of(records, "UClampMode"@),
        v_clamp_mode: integer_of(records, "VClampMode"@),
        split9: bool_of(records, "bSplit9Texture"@),
        split9_x1: or_zero(int_of(records, "Split9X1"@)),
        split9_x2: or_zero(int_of(records, "Split9X2"@)),
        split9_x3: or_zero(int_of(records, "Split9X3"@)),
        split9_y1: or_zero(int_of(records, "Split9Y1"@)),
        split9_y2: or_zero(int_of(records, "Split9Y2"@)),
        split9_y3: or_zero(int_of(records, "Split9Y3"@)),
        animation: TextureAnimationState {
            anim_next: object_of(records, "AnimNext"@),
            max_frame_rate: float_of(records, "MaxFrameRate"@),
            min_frame_rate: float_of(records, "MinFrameRate"@),
            one_time_anim_loop: bool_of(records, "OneTimeAnimLoop"@),
            prime_count: byte_of(records, "PrimeCount"@),
            total_frame_num: int_of(records, "TotalFrameNum"@),
        },
    }
}

/// Changes to one texture. All top-level fields are optional so one
/// interaction cannot accidentally overwrite another setting.
#[derive(Debug, Clone, Copy)]
pub struct TextureEditorEdit {
    pub alpha: Option<bool>,
    pub masked: Option<bool>,
    pub clamp: Option<TextureClampEdit>,
    pub split9: Option<Split9Edit>,
    pub animation: Option<TextureAnimationEdit>,
}

/// Texture addressing values used by the UE2 sampler. `None` preserves the
/// existing property, which lets a metadata file override a single axis only.
#[derive(Debug, Clone, Copy)]
pub struct TextureClampEdit {
    pub u_clamp: Option<i32>,
    pub v_clamp: Option<i32>,
    pub u_clamp_mode: Option<i32>,
    pub v_clamp_mode: Option<i32>,
}

#[derive(Debug, Clone, Copy)]
pub struct Split9Edit {
    pub enabled: bool,
    pub x1: i32,
    pub x2: i32,
    pub x3: i32,
    pub y1: i32,
    pub y2: i32,
    pub y3: i32,
}

/// Frame rates are the bit patterns of 32-bit decimals.
#[derive(Debug, Clone, Copy)]
pub struct TextureAnimationEdit {
    pub anim_next: Option<i32>,
    pub max_frame_rate: Option<u32>,
    pub min_frame_rate: Option<u32>,
    pub one_time_anim_loop: Option<bool>,
    pub prime_count: Option<i32>,
    pub total_frame_num: Option<i32>,
}

/// The properties that the editor changes.
#[derive(Debug, Clone, Copy, PartialEq, Eq, Structural)]
pub enum Field {
    Alpha,
    Masked,
    UClamp,
    VClamp,
    UClampMode,
    VClampMode,
    Split9,
    Split9X1,
    Split9X2,
    Split9X3,
    Split9Y1,
    Split9Y2,
    Split9Y3,
    AnimNext,
    MaxFrameRate,
    MinFrameRate,
    OneTimeAnimLoop,
    PrimeCount,
    TotalFrameNum,
}

pub open spec fn field_name(field: Field) -> Seq<char> {
    match field {
        Field::Alpha => "bAlphaTexture"@,
        Field::Masked => "bMasked"@,
        Field::UClamp => "UClamp"@,
        Field::VClamp => "VClamp"@,
        Field::UClampMode => "UClampMode"@,
        Field::VClampMode => "VClampMode"@,
        Field::Split9 => "bSplit9Texture"@,
        Field::Split9X1 => "Split9X1"@,
        Field::Split9X2 => "Split9X2"@,
        Field::Split9X3 => "Split9X3"@,
        Field::Split9Y1 => "Split9Y1"@,
        Field::Split9Y2 => "Split9Y2"@,
        Field::Split9Y3 => "Split9Y3"@,
        Field::AnimNext => "AnimNext"@,
        Field::MaxFrameRate => "MaxFrameRate"@,
        Field::MinFrameRate => "MinFrameRate"@,
        Field::OneTimeAnimLoop => "OneTimeAnimLoop"@,
        Field::PrimeCount => "PrimeCount"@,
        Field::TotalFrameNum => "TotalFrameNum"@,
    }
}

impl Field {
    pub fn name(self) -> (r: &'static str)
        ensures
            r@ == field_name(self),
    {
        match self {
            Field::Alpha => "bAlphaTexture",
            Field::Masked => "bMasked",
            Field::UClamp => "UClamp",
            Field::VClamp => "VClamp",
            Field::UClampMode => "UClampMode",
            Field::VClampMode => "VClampMode",
            Field::Split9 => "bSplit9Texture",
            Field::Split9X1 => "Split9X1",
            Field::Split9X2 => "Split9X2",
            Field::Split9X3 => "Split9X3",
            Field::Split9Y1 => "Split9Y1",
            Field::Split9Y2 => "Split9Y2",
            Field::Split9Y3 => "Split9Y3",
            Field::AnimNext => "AnimNext",
            Field::MaxFrameRate => "MaxFrameRate",
            Field::MinFrameRate => "MinFrameRate",
            Field::OneTimeAnimLoop => "OneTimeAnimLoop",
            Field::PrimeCount => "PrimeCount",
            Field::TotalFrameNum => "TotalFrameNum",
        }
    }
}

/// What an edit does to one property.
#[derive(Debug, Clone, Copy, PartialEq, Eq, Structural)]
pub enum Change {
    Flag(bool),
    Clamp(i32),
    ClampMode(i32),
    Number(i32),
    Reference(i32),
    Rate(u32),
    Count(i32),
}

#[derive(Debug, Clone, Copy, PartialEq, Eq, Structural)]
pub struct Step {
    pub field: Field,
    pub change: Change,
}

pub open spec fn flag_steps(field: Field, value: Option<bool>) -> Seq<Step> {
    match value {
        Some(v) => seq![Step { field, change: Change::Flag(v) }],
        None => Seq::empty(),
    }
}

pub open spec fn clamp_steps(clamp: Option<TextureClampEdit>) -> Seq<Step> {
    match clamp {
        None => Seq::empty(),
        Some(c) => (match c.u_clamp {
            Some(v) => seq![Step { field: Field::UClamp, change: Change::Clamp(v) }],
            None => Seq::empty(),
        }) + (match c.v_clamp {
            Some(v) => seq![Step { field: Field::VClamp, change: Change::Clamp(v) }],
            None => Seq::empty(),
        }) + (match c.u_clamp_mode {
            Some(v) => seq![Step { field: Field::UClampMode, change: Change::ClampMode(v) }],
            None => Seq::empty(),
        }) + (match c.v_clamp_mode {
            Some(v) => seq![Step { field: Field::VClampMode, change: Change::ClampMode(v) }],
            None => Seq::empty(),
        }),
    }
}

pub open spec fn split9_steps(split9: Option<Split9Edit>) -> Seq<Step> {
    match split9 {
        None => Seq::empty(),
        Some(s) => if s.enabled {
            seq![
                Step { field: Field::Split9, change: Change::Flag(true) },
                Step { field: Field::Split9X1, change: Change::Number(s.x1) },
                Step { field: Field::Split9X2, change: Change::Number(s.x2) },
                Step { field: Field::Split9X3, change: Change::Number(s.x3) },
                Step { field: Field::Split9Y1, change: Change::Number(s.y1) },
                Step { field: Field::Split9Y2, change: Change::Number(s.y2) },
                Step { field: Field::Split9Y3, change: Change::Number(s.y3) },
            ]
        } else {
            seq![Step { field: Field::Split9, change: Change::Flag(false) }]
        },
    }
}

pub open spec fn animation_steps(animation: Option<TextureAnimationEdit>) -> Seq<Step> {
    match animation {
        None => Seq::empty(),
        Some(a) => (match a.anim_next {
            Some(v) => seq![Step { field: Field::AnimNext, change: Change::Reference(v) }],
            None => Seq::empty(),
        }) + (match a.max_frame_rate {
            Some(v) => seq![Step { field: Field::MaxFrameRate, change: Change::Rate(v) }],
            None => Seq::empty(),
        }) + (match a.min_frame_rate {
            Some(v) => seq![Step { field: Field::MinFrameRate, change: Change::Rate(v) }],
            None => Seq::empty(),
        }) + flag_steps(Field::OneTimeAnimLoop, a.one_time_anim_loop) + (match a.prime_count {
            Some(v) => seq![Step { field: Field::PrimeCount, change: Change::Count(v) }],
            None => Seq::empty(),
        }) + (match a.total_frame_num {
            Some(v) => seq![Step { field: Field::TotalFrameNum, change: Change::Number(v) }],
            None => Seq::empty(),
        }),
    }
}

/// The changes of an edit, in the order in which they are made.
pub open spec fn steps_of(edit: TextureEditorEdit) -> Seq<Step> {
    flag_steps(Field::Alpha, edit.alpha) + flag_steps(Field::Masked, edit.masked) + clamp_steps(
        edit.clamp,
    ) + split9_steps(edit.split9) + animation_steps(edit.animation)
}

fn push_flag(steps: &mut Vec<Step>, field: Field, value: Option<bool>)
    ensures
        final(steps)@ == old(steps)@ + flag_steps(field, value),
{
    let ghost before = steps@;
    if let Some(v) = value {
        steps.push(Step { field, change: Change::Flag(v) });
    }
    assert(steps@ =~= before + flag_steps(field, value));
}

fn push_clamp(steps: &mut Vec<Step>, clamp: Option<TextureClampEdit>)
    ensures
        final(steps)@ == old(steps)@ + clamp_steps(clamp),
{
    let ghost before = steps@;
    if let Some(c) = clamp {
        if let Some(v) = c.u_clamp {
            steps.push(Step { field: Field::UClamp, change: Change::Clamp(v) });
        }
        if let Some(v) = c.v_clamp {
            steps.push(Step { field: Field::VClamp, change: Change::Clamp(v) });
        }
        if let Some(v) = c.u_clamp_mode {
            steps.push(Step { field: Field::UClampMode, change: Change::ClampMode(v) });
        }
        if let Some(v) = c.v_clamp_mode {
            steps.push(Step { field: Field::VClampMode, change: Change::ClampMode(v) });
        }
    }
    assert(steps@ =~= before + clamp_steps(clamp));
}

fn push_split9(steps: &mut Vec<Step>, split9: Option<Split9Edit>)
    ensures
        final(steps)@ == old(steps)@ + split9_steps(split9),
{
    let ghost before = steps@;
    if let Some(s) = split9 {
        steps.push(Step { field: Field::Split9, change: Change::Flag(s.enabled) });
        if s.enabled {
            steps.push(Step { field: Field::Split9X1, change: Change::Number(s.x1) });
            steps.push(Step { field: Field::Split9X2, change: Change::Number(s.x2) });
            steps.push(Step { field: Field::Split9X3, change: Change::Number(s.x3) });
            steps.push(Step { field: Field::Split9Y1, change: Change::Number(s.y1) });
            steps.push(Step { field: Field::Split9Y2, change: Change::Number(s.y2) });
            steps.push(Step { field: Field::Split9Y3, change: Change::Number(s.y3) });
        }
    }
    assert(steps@ =~= before + split9_steps(split9));
}

#[verifier::spinoff_prover]
#[verifier::rlimit(50)]
fn push_animation(steps: &mut Vec<Step>, animation: Option<TextureAnimationEdit>)
    ensures
        final(steps)@ == old(steps)@ + animation_steps(animation),
{
    let ghost before = steps@;
    if let Some(a) = animation {
        if let Some(v) = a.anim_next {
            steps.push(Step { field: Field::AnimNext, change: Change::Reference(v) });
        }
        if let Some(v) = a.max_frame_rate {
            steps.push(Step { field: Field::MaxFrameRate, change: Change::Rate(v) });
        }
        if let Some(v) = a.min_frame_rate {
            steps.push(Step { field: Field::MinFrameRate, change: Change::Rate(v) });
        }
        push_flag(steps, Field::OneTimeAnimLoop, a.one_time_anim_loop);
        if let Some(v) = a.prime_count {
            steps.push(Step { field: Field::PrimeCount, change: Change::Count(v) });
        }
        if let Some(v) = a.total_frame_num {
            steps.push(Step { field: Field::TotalFrameNum, change: Change::Number(v) });
        }
    }
    assert(steps@ =~= before + animation_steps(animation));
}

impl TextureEditorEdit {
    /// The changes of this edit, in order.
    pub fn steps(&self) -> (r: Vec<Step>)
        ensures
            r@ == steps_of(*self),
    {
        let mut steps: Vec<Step> = Vec::new();
        push_flag(&mut steps, Field::Alpha, self.alpha);
        push_flag(&mut steps, Field::Masked, self.masked);
        push_clamp(&mut steps, self.clamp);
        push_split9(&mut steps, self.split9);
        push_animation(&mut steps, self.animation);
        assert(steps@ =~= steps_of(*self));
        steps
    }

    pub fn has_changes(&self) -> (r: bool)
        ensures
            r == (steps_of(*self).len() > 0),
    {
        let clamp = match self.clamp {
            Some(c) => c.has_changes(),
            None => false,
        };
        let animation = match self.animation {
            Some(a) => a.anim_next.is_some() || a.max_frame_rate.is_some()
                || a.min_frame_rate.is_some() || a.one_time_anim_loop.is_some()
                || a.prime_count.is_some() || a.total_frame_num.is_some(),
            None => false,
        };
        self.alpha.is_some() || self.masked.is_some() || clamp || self.split9.is_some() || animation
    }
}

impl TextureClampEdit {
    pub fn has_changes(&self) -> (r: bool)
        ensures
            r == (clamp_steps(Some(*self)).len() > 0),
    {
        self.u_clamp.is_some() || self.v_clamp.is_some() || self.u_clamp_mode.is_some()
            || self.v_clamp_mode.is_some()
    }
}

/// Whether the bit pattern is that of a finite 32-bit decimal: its eight
/// exponent bits are not all set.
pub open spec fn is_finite(bits: u32) -> bool {
    bits / 8388608 % 256 != 255
}

/// Names and records after one property was given a value: the first property
/// of that name takes it, or a new one is put at the end.
pub open spec fn with_value(
    names: Seq<NameModel>,
    records: Seq<RecordModel>,
    name: Seq<char>,
    value: PropertyValue,
) -> Result<(Seq<NameModel>, Seq<RecordModel>), Seq<char>> {
    match find_record(records, name, 0) {
        Some(i) => Ok((names, records.update(i, replaced(records[i], value)))),
        None => match names::interned(names, name) {
            Err(e) => Err(e),
            Ok((more, index)) => Ok(
                (
                    more,
                    records.push(
                        RecordModel {
                            name,
                            name_index: index,
                            raw: Seq::empty(),
                            value: PropertyValue::Raw,
                            replacement: Some(value),
                        },
                    ),
                ),
            ),
        },
    }
}

pub open spec fn replaced(record: RecordModel, value: PropertyValue) -> RecordModel {
    RecordModel { replacement: Some(value), ..record }
}

pub open spec fn byte_range_text(name: Seq<char>) -> Seq<char> {
    name + " deve estar entre 0 e 255."@
}

/// Gives an integer to a property in the type that it already has, or in the
/// preferred type where it is new.
pub open spec fn with_integer(
    names: Seq<NameModel>,
    records: Seq<RecordModel>,
    name: Seq<char>,
    value: i32,
    prefer_byte: bool,
) -> Result<(Seq<NameModel>, Seq<RecordModel>), Seq<char>> {
    let as_byte = match find_record(records, name, 0) {
        Some(i) => current_value(records[i]) is Byte,
        None => prefer_byte,
    };
    let suits = match find_record(records, name, 0) {
        Some(i) => current_value(records[i]) is Byte || current_value(records[i]) is Int,
        None => true,
    };
    if !suits {
        Err("A propriedade "@ + name + " possui um tipo UE2 incompatível para edição."@)
    } else if as_byte && !(0 <= value <= 255) {
        Err(byte_range_text(name))
    } else if as_byte {
        with_value(names, records, name, PropertyValue::Byte(value as u8))
    } else {
        with_value(names, records, name, PropertyValue::Int(value))
    }
}

/// Names and records after one change.
pub open spec fn with_step(
    names: Seq<NameModel>,
    records: Seq<RecordModel>,
    step: Step,
) -> Result<(Seq<NameModel>, Seq<RecordModel>), Seq<char>> {
    let name = field_name(step.field);
    match step.change {
        Change::Flag(v) => with_value(names, records, name, PropertyValue::Bool(v)),
        Change::Clamp(v) => with_integer(names, records, name, v, false),
        Change::ClampMode(v) => with_integer(names, records, name, v, true),
        Change::Number(v) => with_value(names, records, name, PropertyValue::Int(v)),
        Change::Reference(v) => with_value(names, records, name, PropertyValue::Object(v)),
        Change::Rate(bits) => if is_finite(bits) {
            with_value(names, records, name, PropertyValue::Float(bits))
        } else {
            Err(name + " deve ser um número finito."@)
        },
        Change::Count(v) => if 0 <= v <= 255 {
            with_value(names, records, name, PropertyValue::Byte(v as u8))
        } else {
            Err("PrimeCount deve estar entre 0 e 255."@)
        },
    }
}

/// Names and records after the first `n` changes.
pub open spec fn with_steps(
    names: Seq<NameModel>,
    records: Seq<RecordModel>,
    steps: Seq<Step>,
    n: nat,
) -> Result<(Seq<NameModel>, Seq<RecordModel>), Seq<char>>
    decreases n,
{
    if n == 0 {
        Ok((names, records))
    } else {
        match with_steps(names, records, steps, (n - 1) as nat) {
            Err(e) => Err(e),
            Ok((more_names, more_records)) => with_step(more_names, more_records, steps[n - 1]),
        }
    }
}

/// Names and records after a whole edit.
pub open spec fn with_edit(
    names: Seq<NameModel>,
    records: Seq<RecordModel>,
    edit: TextureEditorEdit,
) -> Result<(Seq<NameModel>, Seq<RecordModel>), Seq<char>> {
    with_steps(names, records, steps_of(edit), steps_of(edit).len())
}

pub proof fn with_steps_error_spreads(
    names: Seq<NameModel>,
    records: Seq<RecordModel>,
    steps: Seq<Step>,
    k: nat,
    n: nat,
)
    requires
        k <= n,
        with_steps(names, records, steps, k) is Err,
    ensures
        with_steps(names, records, steps, n) == with_steps(names, records, steps, k),
    decreases n,
{
    if k < n {
        with_steps_error_spreads(names, records, steps, k, (n - 1) as nat);
    }
}

pub fn decode_property_value(kind: u8, flag: bool, b: &[u8]) -> (r: Result<PropertyValue, String>)
    ensures
        text::seen(r) == decoded_value(kind, flag, b@),
{
    if kind == TYPE_BYTE && b.len() == 1 {
        Ok(PropertyValue::Byte(b[0]))
    } else if kind == TYPE_INT && b.len() == 4 {
        assert(b@.subrange(0, 4) =~= b@);
        Ok(PropertyValue::Int(bytes::i32_at(b, 0)))
    } else if kind == TYPE_BOOL {
        Ok(PropertyValue::Bool(flag))
    } else if kind == TYPE_FLOAT && b.len() == 4 {
        assert(b@.subrange(0, 4) =~= b@);
        Ok(PropertyValue::Float(bytes::u32_at(b, 0)))
    } else if kind == TYPE_OBJECT && b.len() > 0 {
        let mut reader = Reader::new(b, Dialect::Engine);
        let reference: i32 = reader.read_compact()?;
        Ok(PropertyValue::Object(reference))
    } else {
        Ok(PropertyValue::Raw)
    }
}

/// Appends a property whose value is given as bytes.
pub fn write_sized_property(
    output: &mut Vec<u8>,
    name_index: i32,
    kind: u8,
    value: &[u8],
    too_long: &str,
) -> (r: Result<(), String>)
    requires
        kind < 16,
    ensures
        match r {
            Ok(()) => {
                &&& value@.len() <= 255
                &&& final(output)@ == old(output)@ + (reader::compact_bytes(name_index) + sized_head(
                    kind,
                    value@.len(),
                ) + value@)
            },
            Err(message) => {
                &&& sized_property(name_index, kind, value@, too_long@) == Err::<
                    Seq<u8>,
                    Seq<char>,
                >(message@)
                &&& final(output)@ == old(output)@ + reader::compact_bytes(name_index)
            },
        },
{
    let ghost start = output@;
    reader::write_compact(output, name_index);
    let size: usize = value.len();
    if size == 1 {
        output.push(kind);
    } else if size == 2 {
        output.push(16 + kind);
    } else if size == 4 {
        output.push(32 + kind);
    } else if size == 12 {
        output.push(48 + kind);
    } else if size == 16 {
        output.push(64 + kind);
    } else if size <= 255 {
        output.push(80 + kind);
        output.push(size as u8);
    } else {
        return Err(too_long.to_owned());
    }
    bytes::append(output, value);
    assert(output@ =~= start + (reader::compact_bytes(name_index) + sized_head(kind, value@.len())
        + value@));
    Ok(())
}

/// Appends a property with the given value.
pub fn write_property(output: &mut Vec<u8>, name_index: i32, value: &PropertyValue) -> (r: Result<
    (),
    String,
>)
    ensures
        match r {
            Ok(()) => {
                &&& property_bytes(name_index, *value) is Ok
                &&& final(output)@ == old(output)@ + property_bytes(name_index, *value)->Ok_0
            },
            Err(message) => property_bytes(name_index, *value) == Err::<Seq<u8>, Seq<char>>(
                message@,
            ),
        },
{
    let too_long = "Propriedade grande demais para o codificador UE2.";
    let ghost start = output@;
    match value {
        PropertyValue::Byte(v) => {
            let mut payload: Vec<u8> = Vec::new();
            payload.push(*v);
            assert(payload@ =~= seq![*v]);
            write_sized_property(output, name_index, TYPE_BYTE, payload.as_slice(), too_long)
        },
        PropertyValue::Int(v) => {
            let mut payload: Vec<u8> = Vec::new();
            bytes::write_i32(&mut payload, *v);
            assert(payload@ =~= bytes::i32_bytes(*v));
            write_sized_property(output, name_index, TYPE_INT, payload.as_slice(), too_long)
        },
        PropertyValue::Bool(v) => {
            reader::write_compact(output, name_index);
            output.push(
                if *v {
                    0xd3
                } else {
                    0x53
                },
            );
            output.push(0);
            assert(output@ =~= start + property_bytes(name_index, *value)->Ok_0);
            Ok(())
        },
        PropertyValue::Float(v) => {
            let mut payload: Vec<u8> = Vec::new();
            bytes::write_u32(&mut payload, *v);
            assert(payload@ =~= bytes::le32(*v));
            write_sized_property(output, name_index, TYPE_FLOAT, payload.as_slice(), too_long)
        },
        PropertyValue::Object(v) => {
            let mut payload: Vec<u8> = Vec::new();
            reader::write_compact(&mut payload, *v);
            assert(payload@ =~= reader::compact_bytes(*v));
            proof {
                reader::compact_round_trip(Dialect::Engine, Seq::empty(), *v, Seq::empty());
            }
            write_sized_property(output, name_index, TYPE_OBJECT, payload.as_slice(), too_long)
        },
        PropertyValue::Raw => Err(
            "Não é possível serializar uma propriedade bruta alterada.".to_owned(),
        ),
    }
}

impl TexturePropertyStream {
    /// Reads the properties up to `None`.
    pub fn parse(data: &[u8], names: &NameTable) -> (r: Result<Self, String>)
        ensures
            match r {
                Ok(stream) => stream_from(data@, names@, 0) == Ok::<StreamModel, Seq<char>>(
                    stream@,
                ),
                Err(message) => stream_from(data@, names@, 0) == Err::<StreamModel, Seq<char>>(
                    message@,
                ),
            },
    {
        let mut reader = Reader::new(data, Dialect::Engine);
        let mut properties: Vec<PropertyRecord> = Vec::new();
        proof {
            assert(records_of(properties@) =~= Seq::<RecordModel>::empty());
            behind_twice(Seq::empty(), Seq::empty(), stream_from(data@, names@, 0));
        }
        loop
            invariant
                reader.wf(),
                reader.data@ == data@,
                reader.dialect == Dialect::Engine,
                stream_from(data@, names@, 0) == behind_records(
                    records_of(properties@),
                    stream_from(data@, names@, reader.position as int),
                ),
            decreases data@.len() - reader.position,
        {
            let property_start: usize = reader.position;
            let ghost before = records_of(properties@);
            proof {
                reader::compact_moves(Dialect::Engine, data@, property_start as int);
            }
            let name_index: i32 = reader.read_compact()?;
            let name = names.name(name_index)?.to_owned();
            if text::equals_folded(name.as_str(), "None") {
                proof {
                    assert(before + Seq::<RecordModel>::empty() =~= before);
                }
                return Ok(
                    TexturePropertyStream {
                        properties,
                        trailing_offset: property_start,
                        tail_offset: reader.position,
                    },
                );
            }
            let tag = reader.read_tag()?;
            let value_bytes = reader.read_exact(tag.size)?;
            let raw = bytes::copy_range(data, property_start, reader.position);
            let value = decode_property_value(tag.kind, tag.flag, value_bytes)?;
            let record = PropertyRecord { name, name_index, raw, value, replacement: None };
            let ghost model = record@;
            properties.push(record);
            proof {
                assert(records_of(properties@) =~= before + seq![model]);
                behind_twice(
                    before,
                    seq![model],
                    stream_from(data@, names@, reader.position as int),
                );
            }
        }
    }

    pub fn trailing_offset(&self) -> (r: usize)
        ensures
            r == self.trailing_offset,
    {
        self.trailing_offset
    }

    pub fn tail_offset(&self) -> (r: usize)
        ensures
            r == self.tail_offset,
    {
        self.tail_offset
    }

    fn find(&self, name: &str) -> (r: Option<usize>)
        ensures
            match r {
                Some(i) => i < self.properties@.len() && find_record(
                    self@.properties,
                    name@,
                    0,
                ) == Some(i as int),
                None => find_record(self@.properties, name@, 0) is None,
            },
    {
        let mut i: usize = 0;
        while i < self.properties.len()
            invariant
                i <= self.properties@.len(),
                find_record(self@.properties, name@, 0) == find_record(
                    self@.properties,
                    name@,
                    i as int,
                ),
            decreases self.properties.len() - i,
        {
            if text::equals_folded(self.properties[i].name.as_str(), name) {
                return Some(i);
            }
            i = i + 1;
        }
        None
    }

    fn value(&self, name: &str) -> (r: Option<PropertyValue>)
        ensures
            r == value_of(self@.properties, name@),
    {
        match self.find(name) {
            Some(i) => match self.properties[i].replacement {
                Some(value) => Some(value),
                None => Some(self.properties[i].value),
            },
            None => None,
        }
    }

    fn bool_value(&self, name: &str) -> (r: Option<bool>)
        ensures
            r == bool_of(self@.properties, name@),
    {
        match self.value(name) {
            Some(PropertyValue::Bool(v)) => Some(v),
            _ => None,
        }
    }

    fn byte_value(&self, name: &str) -> (r: Option<i32>)
        ensures
            r == byte_of(self@.properties, name@),
    {
        match self.value(name) {
            Some(PropertyValue::Byte(v)) => Some(v as i32),
            _ => None,
        }
    }

    fn int_value(&self, name: &str) -> (r: Option<i32>)
        ensures
            r == int_of(self@.properties, name@),
    {
        match self.value(name) {
            Some(PropertyValue::Int(v)) => Some(v),
            _ => None,
        }
    }

    fn integer_value(&self, name: &str) -> (r: Option<i32>)
        ensures
            r == integer_of(self@.properties, name@),
    {
        match self.value(name) {
            Some(PropertyValue::Byte(v)) => Some(v as i32),
            Some(PropertyValue::Int(v)) => Some(v),
            _ => None,
        }
    }

    fn float_value(&self, name: &str) -> (r: Option<u32>)
        ensures
            r == float_of(self@.properties, name@),
    {
        match self.value(name) {
            Some(PropertyValue::Float(v)) => Some(v),
            _ => None,
        }
    }

    fn object_value(&self, name: &str) -> (r: Option<i32>)
        ensures
            r == object_of(self@.properties, name@),
    {
        match self.value(name) {
            Some(PropertyValue::Object(v)) => Some(v),
            _ => None,
        }
    }

    /// The properties that the editor shows.
    pub fn editor_state(&self) -> (r: TextureEditorState)
        ensures
            r == state_of(self@.properties),
    {
        TextureEditorState {
            alpha: self.bool_value("bAlphaTexture"),
            masked: self.bool_value("bMasked"),
            u_clamp: self.integer_value("UClamp"),
            v_clamp: self.integer_value("VClamp"),
            u_clamp_mode: self.integer_value("UClampMode"),
            v_clamp_mode: self.integer_value("VClampMode"),
            split9: self.bool_value("bSplit9Texture"),
            split9_x1: self.int_value("Split9X1").unwrap_or(0),
            split9_x2: self.int_value("Split9X2").unwrap_or(0),
            split9_x3: self.int_value("Split9X3").unwrap_or(0),
            split9_y1: self.int_value("Split9Y1").unwrap_or(0),
            split9_y2: self.int_value("Split9Y2").unwrap_or(0),
            split9_y3: self.int_value("Split9Y3").unwrap_or(0),
            animation: TextureAnimationState {
                anim_next: self.object_value("AnimNext"),
                max_frame_rate: self.float_value("MaxFrameRate"),
                min_frame_rate: self.float_value("MinFrameRate"),
                one_time_anim_loop: self.bool_value("OneTimeAnimLoop"),
                prime_count: self.byte_value("PrimeCount"),
                total_frame_num: self.int_value("TotalFrameNum"),
            },
        }
    }

    fn set_value(&mut self, names: &mut NameTable, name: &str, value: PropertyValue) -> (r: Result<
        (),
        String,
    >)
        ensures
            changed(
                old(self)@,
                final(self)@,
                final(names)@,
                r,
                with_value(old(names)@, old(self)@.properties, name@, value),
            ),
    {
        let ghost before = self@.properties;
        match self.find(name) {
            Some(i) => {
                self.properties[i].replacement = Some(value);
                assert(self@.properties =~= before.update(i as int, replaced(before[i as int], value)));
                Ok(())
            },
            None => {
                let name_index: i32 = names.intern(name)?;
                let record = PropertyRecord {
                    name: name.to_owned(),
                    name_index,
                    raw: Vec::new(),
                    value: PropertyValue::Raw,
                    replacement: Some(value),
                };
                let ghost model = record@;
                self.properties.push(record);
                assert(self@.properties =~= before.push(model));
                Ok(())
            },
        }
    }

    fn set_integer_value(
        &mut self,
        names: &mut NameTable,
        name: &str,
        value: i32,
        prefer_byte: bool,
    ) -> (r: Result<(), String>)
        ensures
            changed(
                old(self)@,
                final(self)@,
                final(names)@,
                r,
                with_integer(old(names)@, old(self)@.properties, name@, value, prefer_byte),
            ),
    {
        let as_byte = match self.value(name) {
            Some(PropertyValue::Byte(_)) => true,
            Some(PropertyValue::Int(_)) => false,
            Some(_) => return Err(
                text::join3(
                    "A propriedade ",
                    name,
                    " possui um tipo UE2 incompatível para edição.",
                ),
            ),
            None => prefer_byte,
        };
        if as_byte {
            if value < 0 || value > 255 {
                return Err(text::join(name, " deve estar entre 0 e 255."));
            }
            self.set_value(names, name, PropertyValue::Byte(value as u8))
        } else {
            self.set_value(names, name, PropertyValue::Int(value))
        }
    }

    fn apply_step(&mut self, names: &mut NameTable, step: Step) -> (r: Result<(), String>)
        ensures
            changed(
                old(self)@,
                final(self)@,
                final(names)@,
                r,
                with_step(old(names)@, old(self)@.properties, step),
            ),
    {
        let name = step.field.name();
        match step.change {
            Change::Flag(v) => self.set_value(names, name, PropertyValue::Bool(v)),
            Change::Clamp(v) => self.set_integer_value(names, name, v, false),
            Change::ClampMode(v) => self.set_integer_value(names, name, v, true),
            Change::Number(v) => self.set_value(names, name, PropertyValue::Int(v)),
            Change::Reference(v) => self.set_value(names, name, PropertyValue::Object(v)),
            Change::Rate(bits) => {
                if bits / 8388608 % 256 == 255 {
                    return Err(text::join(name, " deve ser um número finito."));
                }
                self.set_value(names, name, PropertyValue::Float(bits))
            },
            Change::Count(v) => {
                if v < 0 || v > 255 {
                    return Err("PrimeCount deve estar entre 0 e 255.".to_owned());
                }
                self.set_value(names, name, PropertyValue::Byte(v as u8))
            },
        }
    }

    /// Applies UI-ready settings. `None` means "leave the current value
    /// untouched"; `Some(false)` is a real UE2 boolean value.
    pub fn apply_editor_edit(&mut self, names: &mut NameTable, edit: &TextureEditorEdit) -> (r:
        Result<(), String>)
        ensures
            changed(
                old(self)@,
                final(self)@,
                final(names)@,
                r,
                with_edit(old(names)@, old(self)@.properties, *edit),
            ),
    {
        let steps = edit.steps();
        let mut i: usize = 0;
        while i < steps.len()
            invariant
                i <= steps@.len(),
                steps@ == steps_of(*edit),
                with_steps(old(names)@, old(self)@.properties, steps@, i as nat) == Ok::<
                    (Seq<NameModel>, Seq<RecordModel>),
                    Seq<char>,
                >((names@, self@.properties)),
                self@.trailing_offset == old(self)@.trailing_offset,
                self@.tail_offset == old(self)@.tail_offset,
            decreases steps.len() - i,
        {
            match self.apply_step(names, steps[i]) {
                Ok(()) => {},
                Err(message) => {
                    proof {
                        with_steps_error_spreads(
                            old(names)@,
                            old(self)@.properties,
                            steps@,
                            (i + 1) as nat,
                            steps@.len(),
                        );
                    }
                    return Err(message);
                },
            }
            i = i + 1;
        }
        Ok(())
    }

    /// Rebuilds only the UE2 property stream. The caller appends the original
    /// texture tail that follows the stream.
    pub fn serialize(&self, names: &NameTable) -> (r: Result<Vec<u8>, String>)
        ensures
            match r {
                Ok(bytes) => stream_bytes(names@, self@.properties) == Ok::<Seq<u8>, Seq<char>>(
                    bytes@,
                ),
                Err(message) => stream_bytes(names@, self@.properties) == Err::<
                    Seq<u8>,
                    Seq<char>,
                >(message@),
            },
    {
        let none_index: i32 = match names.index_of("None") {
            Some(index) => index,
            None => return Err("A tabela de nomes não possui o terminador None.".to_owned()),
        };
        let mut output: Vec<u8> = Vec::new();
        let mut i: usize = 0;
        assert(self@.properties.take(0) =~= Seq::<RecordModel>::empty());
        while i < self.properties.len()
            invariant
                i <= self.properties@.len(),
                names::index_in(names@, "None"@) == Some(none_index),
                records_bytes(self@.properties.take(i as int)) == Ok::<Seq<u8>, Seq<char>>(output@),
            decreases self.properties.len() - i,
        {
            let ghost before = output@;
            proof {
                assert(self@.properties.take(i + 1).drop_last() =~= self@.properties.take(
                    i as int,
                ));
                assert(self@.properties.take(i + 1).last() == self.properties@[i as int]@);
            }
            match &self.properties[i].replacement {
                Some(value) => {
                    match write_property(&mut output, self.properties[i].name_index, value) {
                        Ok(()) => {},
                        Err(message) => {
                            proof {
                                records_error_spreads(self@.properties, i + 1);
                            }
                            return Err(message);
                        },
                    }
                },
                None => bytes::append(&mut output, self.properties[i].raw.as_slice()),
            }
            i = i + 1;
        }
        assert(self@.properties.take(i as int) =~= self@.properties);
        reader::write_compact(&mut output, none_index);
        Ok(output)
    }
}

/// A change to a stream leaves its offsets and gives the records and names that
/// the model gives, or fails with the model's message.
pub open spec fn changed(
    before: StreamModel,
    after: StreamModel,
    names: Seq<NameModel>,
    r: Result<(), String>,
    model: Result<(Seq<NameModel>, Seq<RecordModel>), Seq<char>>,
) -> bool {
    &&& after.trailing_offset == before.trailing_offset
    &&& after.tail_offset == before.tail_offset
    &&& match r {
        Ok(()) => model == Ok::<(Seq<NameModel>, Seq<RecordModel>), Seq<char>>(
            (names, after.properties),
        ),
        Err(message) => model == Err::<(Seq<NameModel>, Seq<RecordModel>), Seq<char>>(message@),
    }
}

proof fn behind_twice(
    a: Seq<RecordModel>,
    b: Seq<RecordModel>,
    rest: Result<StreamModel, Seq<char>>,
)
    ensures
        behind_records(a, behind_records(b, rest)) == behind_records(a + b, rest),
        behind_records(Seq::<RecordModel>::empty(), rest) == rest,
{
    if rest is Ok {
        let p = rest->Ok_0.properties;
        assert(a + (b + p) =~= a + b + p);
        assert(Seq::<RecordModel>::empty() + p =~= p);
    }
}

proof fn records_error_spreads(records: Seq<RecordModel>, k: int)
    requires
        0 <= k <= records.len(),
        records_bytes(records.take(k)) is Err,
    ensures
        records_bytes(records) == records_bytes(records.take(k)),
    decreases records.len(),
{
    if k == records.len() {
        assert(records.take(k) =~= records);
    } else {
        assert(records.drop_last().take(k) =~= records.take(k));
        records_error_spreads(records.drop_last(), k);
    }
}

} // verus!
