//! What holds of property lists as a whole: they are read back as they are
//! written, an edit shows in what is read afterwards, and whatever it does not
//! speak of stays as it is.

use vstd::prelude::*;
use crate::names::NameModel;
use crate::properties::{Change, Field, PropertyValue, RecordModel, Split9Edit, Step, TextureAnimationEdit, TextureClampEdit, TextureEditorEdit, TYPE_BYTE};
use crate::reader::{Dialect, TYPE_BOOL};
use crate::bytes;
use crate::names;
use crate::properties;
use crate::reader;
use crate::text;

verus! {

/// Whether the bytes of `c` from `q` on are those of `d` from `p` on, up to `n`.
pub open spec fn same_bytes(d: Seq<u8>, p: int, c: Seq<u8>, q: int, n: int) -> bool {
    &&& 0 <= p && 0 <= q && 0 <= n
    &&& p + n <= d.len() && q + n <= c.len()
    &&& forall|k: int| 0 <= k < n ==> #[trigger] c[q + k] == d[p + k]
}

/// Bytes that are the same are the same in part.
pub proof fn same_bytes_within(d: Seq<u8>, p: int, c: Seq<u8>, q: int, n: int, from: int, m: int)
    requires
        same_bytes(d, p, c, q, n),
        0 <= from,
        0 <= m,
        from + m <= n,
    ensures
        same_bytes(d, p + from, c, q + from, m),
        d.subrange(p + from, p + from + m) == c.subrange(q + from, q + from + m),
{
    assert forall|k: int| 0 <= k < m implies #[trigger] c[q + from + k] == d[p + from + k] by {
        assert(c[q + (from + k)] == d[p + (from + k)]);
    }
    let left = d.subrange(p + from, p + from + m);
    let right = c.subrange(q + from, q + from + m);
    assert forall|k: int| 0 <= k < m implies left[k] == right[k] by {
        assert(c[q + (from + k)] == d[p + (from + k)]);
    }
    assert(left =~= right);
}

/// What a compact integer reads as depends on its own bytes alone.
pub proof fn compact_is_local(dialect: Dialect, d: Seq<u8>, p: int, c: Seq<u8>, q: int, n: int)
    requires
        same_bytes(d, p, c, q, n),
        reader::compact_at(dialect, d, p) matches Ok((_, end)) && end <= p + n,
    ensures
        reader::compact_at(dialect, c, q) == Ok::<(i32, int), Seq<char>>(
            (
                reader::compact_at(dialect, d, p)->Ok_0.0,
                reader::compact_at(dialect, d, p)->Ok_0.1 - p + q,
            ),
        ),
{
    reveal(reader::compact_at);
    let w = reader::compact_width(d, p);
    assert(c[q + 0] == d[p + 0]);
    if w > 1 {
        assert(c[q + 1] == d[p + 1]);
    }
    if w > 2 {
        assert(c[q + 2] == d[p + 2]);
    }
    if w > 3 {
        assert(c[q + 3] == d[p + 3]);
    }
    if w > 4 {
        assert(c[q + 4] == d[p + 4]);
    }
    assert(reader::compact_width(c, q) == w);
    assert(reader::compact_magnitude(c, q) == reader::compact_magnitude(d, p));
}

proof fn after_compact_is_local(
    d: Seq<u8>,
    p: int,
    c: Seq<u8>,
    q: int,
    n: int,
    present: bool,
)
    requires
        same_bytes(d, p, c, q, n),
        reader::after_compact(Dialect::Engine, d, p, present) matches Ok(end) && end <= p + n,
    ensures
        reader::after_compact(Dialect::Engine, c, q, present) == Ok::<int, Seq<char>>(
            reader::after_compact(Dialect::Engine, d, p, present)->Ok_0 - p + q,
        ),
{
    if present {
        compact_is_local(Dialect::Engine, d, p, c, q, n);
    }
}

pub proof fn size_is_local(d: Seq<u8>, p: int, c: Seq<u8>, q: int, n: int, size_type: int)
    requires
        same_bytes(d, p, c, q, n),
        c.len() <= usize::MAX,
        reader::size_at(Dialect::Engine, d, p, size_type) matches Ok((_, end)) && end <= p + n,
    ensures
        reader::size_at(Dialect::Engine, c, q, size_type) == Ok::<(int, int), Seq<char>>(
            (
                reader::size_at(Dialect::Engine, d, p, size_type)->Ok_0.0,
                reader::size_at(Dialect::Engine, d, p, size_type)->Ok_0.1 - p + q,
            ),
        ),
{
    if n >= 1 {
        assert(c[q + 0] == d[p + 0]);
    }
    if n >= 2 {
        same_bytes_within(d, p, c, q, n, 0, 2);
    }
    if n >= 4 {
        same_bytes_within(d, p, c, q, n, 0, 4);
    }
}

/// A tag depends on its own bytes alone.
pub proof fn tag_is_local(d: Seq<u8>, p: int, c: Seq<u8>, q: int, n: int)
    requires
        same_bytes(d, p, c, q, n),
        c.len() <= usize::MAX,
        reader::tag_at(Dialect::Engine, d, p) matches Ok(tag) && tag.start <= p + n,
    ensures
        ({
            let tag = reader::tag_at(Dialect::Engine, d, p)->Ok_0;
            reader::tag_at(Dialect::Engine, c, q) matches Ok(other) && other.kind == tag.kind
                && other.flag == tag.flag && other.size == tag.size && other.start == tag.start - p
                + q
        }),
{
    reveal(reader::tag_at);
    let e = Dialect::Engine;
    let info = d[p];
    let kind = (info % 16) as u8;
    let flag = info >= 128;
    let q1 = reader::after_compact(e, d, p + 1, kind == 10)->Ok_0;
    let (size, q2) = reader::size_at(e, d, q1, (info / 16 % 8) as int)->Ok_0;
    let q3 = reader::after_compact(e, d, q2, flag && kind != TYPE_BOOL)->Ok_0;
    reader::compact_moves(e, d, p + 1);
    reader::compact_moves(e, d, q2);
    assert(p + 1 <= q1 <= q2 <= q3);
    assert(c[q + 0] == d[p + 0]);
    same_bytes_within(d, p, c, q, n, 1, n - 1);
    after_compact_is_local(d, p + 1, c, q + 1, n - 1, kind == 10);
    same_bytes_within(d, p, c, q, n, q1 - p, n - (q1 - p));
    size_is_local(d, q1, c, q + (q1 - p), n - (q1 - p), (info / 16 % 8) as int);
    same_bytes_within(d, p, c, q, n, q2 - p, n - (q2 - p));
    after_compact_is_local(d, q2, c, q + (q2 - p), n - (q2 - p), flag && kind != TYPE_BOOL);
}

/// Whether `raw` is the stored form of a property of the given name and value,
/// and of nothing else.
pub open spec fn stores(raw: Seq<u8>, name_index: i32, value: PropertyValue) -> bool {
    &&& reader::compact_at(Dialect::Engine, raw, 0) matches Ok((index, q))
    &&& index == name_index
    &&& reader::tag_at(Dialect::Engine, raw, q) matches Ok(tag)
    &&& tag.start + tag.size == raw.len()
    &&& properties::decoded_value(tag.kind, tag.flag, raw.subrange(tag.start, raw.len() as int))
        == Ok::<PropertyValue, Seq<char>>(value)
}

/// Whether a record can be written for a table of names and found again: its
/// name is in the table and is not the end of a list, and it has its stored form
/// or another value that has one.
pub open spec fn is_sound(names: Seq<NameModel>, record: RecordModel) -> bool {
    &&& names::name_at(names, record.name_index) matches Ok(name)
    &&& text::same_folded(name, record.name)
    &&& !text::same_folded(name, "None"@)
    &&& match record.replacement {
        Some(value) => !(value is Raw),
        None => stores(record.raw, record.name_index, record.value),
    }
}

pub open spec fn all_sound(names: Seq<NameModel>, records: Seq<RecordModel>) -> bool {
    forall|i: int| 0 <= i < records.len() ==> is_sound(names, #[trigger] records[i])
}

/// A stored property is read wherever it stands, and what follows it is read
/// after it.
proof fn stored_property_is_read(
    names: Seq<NameModel>,
    d: Seq<u8>,
    p: int,
    raw: Seq<u8>,
    name_index: i32,
    value: PropertyValue,
)
    requires
        stores(raw, name_index, value),
        names::name_at(names, name_index) matches Ok(name) && !text::same_folded(name, "None"@),
        same_bytes(raw, 0, d, p, raw.len() as int),
        d.len() <= usize::MAX,
    ensures
        properties::stream_from(d, names, p) == properties::behind_record(
            RecordModel {
                name: names::name_at(names, name_index)->Ok_0,
                name_index,
                raw,
                value,
                replacement: None,
            },
            properties::stream_from(d, names, p + raw.len()),
        ),
{
    let e = Dialect::Engine;
    let size = raw.len() as int;
    let q = reader::compact_at(e, raw, 0)->Ok_0.1;
    let tag = reader::tag_at(e, raw, q)->Ok_0;
    reader::compact_moves(e, raw, 0);
    reader::tag_moves(e, raw, q);
    compact_is_local(e, raw, 0, d, p, size);
    same_bytes_within(raw, 0, d, p, size, q, size - q);
    tag_is_local(raw, q, d, p + q, size - q);
    same_bytes_within(raw, 0, d, p, size, tag.start, tag.size);
    same_bytes_within(raw, 0, d, p, size, 0, size);
    assert(raw.subrange(0, size) =~= raw);
}

/// Every property is read back from the form it is written in.
proof fn written_property_is_stored(name_index: i32, value: PropertyValue)
    requires
        !(value is Raw),
    ensures
        properties::property_bytes(name_index, value) matches Ok(raw) && stores(
            raw,
            name_index,
            value,
        ),
{
    let e = Dialect::Engine;
    let raw = properties::property_bytes(name_index, value)->Ok_0;
    let head = reader::compact_bytes(name_index);
    let q = head.len() as int;
    assert(raw.subrange(0, q) =~= head);
    reader::compact_here(e, raw, 0, name_index);
    reveal(reader::tag_at);
    match value {
        PropertyValue::Byte(v) => {
            assert(raw[q] == TYPE_BYTE);
            assert(raw.subrange(q + 1, q + 2) =~= seq![v]);
        },
        PropertyValue::Int(v) => {
            assert(raw[q] == 34);
            bytes::integers_round_trip(0, v, 0, 0);
            assert(raw.subrange(q + 1, q + 5) =~= bytes::i32_bytes(v));
        },
        PropertyValue::Bool(v) => {
            assert(raw[q] == if v {
                0xd3u8
            } else {
                0x53u8
            });
            assert(raw[q + 1] == 0);
        },
        PropertyValue::Float(v) => {
            assert(raw[q] == 36);
            bytes::integers_round_trip(0, 0, 0, v);
            assert(raw.subrange(q + 1, q + 5) =~= bytes::le32(v));
        },
        PropertyValue::Object(v) => {
            let body = reader::compact_bytes(v);
            let size = body.len() as int;
            reader::compact_len(v);
            let start = raw.len() - size;
            assert(raw.subrange(start, raw.len() as int) =~= body);
            assert(body.subrange(0, size) =~= body);
            reader::compact_here(e, body, 0, v);
        },
        PropertyValue::Raw => {},
    }
}

/// Records as they are read after they were written: each with its value, and
/// with the spelling of its name in the table.
pub open spec fn read_back(records: Seq<RecordModel>, again: Seq<RecordModel>) -> bool {
    &&& again.len() == records.len()
    &&& forall|i: int|
        0 <= i < records.len() ==> {
            let (one, other) = (records[i], #[trigger] again[i]);
            &&& text::same_folded(other.name, one.name)
            &&& other.name_index == one.name_index
            &&& properties::current_value(other) == properties::current_value(one)
            &&& one.replacement is None ==> other.raw == one.raw
        }
}

proof fn sound_record_is_stored(names: Seq<NameModel>, record: RecordModel)
    requires
        is_sound(names, record),
    ensures
        properties::record_bytes(record) matches Ok(raw) && stores(
            raw,
            record.name_index,
            properties::current_value(record),
        ),
{
    if let Some(value) = record.replacement {
        written_property_is_stored(record.name_index, value);
    }
}

/// The list is read from its record `k` on, which stands at `p`.
proof fn records_are_read(
    names: Seq<NameModel>,
    records: Seq<RecordModel>,
    d: Seq<u8>,
    none: i32,
    k: int,
    p: int,
)
    requires
        all_sound(names, records),
        0 <= k <= records.len(),
        properties::records_bytes(records.take(k)) matches Ok(head) && p == head.len(),
        properties::records_bytes(records) matches Ok(body) && same_bytes(
            body + reader::compact_bytes(none),
            0,
            d,
            0,
            (body + reader::compact_bytes(none)).len() as int,
        ),
        names::name_at(names, none) matches Ok(name) && text::same_folded(name, "None"@),
        d.len() <= usize::MAX,
    ensures
        ({
            let size = properties::records_bytes(records)->Ok_0.len();
            properties::stream_from(d, names, p) matches Ok(stream) && read_back(
                records.skip(k),
                stream.properties,
            ) && stream.trailing_offset == size && stream.tail_offset == size
                + reader::compact_bytes(none).len()
        }),
    decreases records.len() - k,
{
    let body = properties::records_bytes(records)->Ok_0;
    let whole = body + reader::compact_bytes(none);
    let size = whole.len() as int;
    if k == records.len() {
        assert(records.take(k) =~= records);
        let last = reader::compact_bytes(none);
        same_bytes_within(whole, 0, d, 0, size, p, last.len() as int);
        assert(whole.subrange(p, size) =~= last);
        reader::compact_here(Dialect::Engine, d, p, none);
        assert(records.skip(k).len() == 0);
    } else {
        let record = records[k];
        assert(is_sound(names, record));
        sound_record_is_stored(names, record);
        let raw = properties::record_bytes(record)->Ok_0;
        assert(records.take(k + 1).drop_last() =~= records.take(k));
        assert(records.take(k + 1).last() == record);
        records_prefix(records, k + 1);
        records_prefix(records, k);
        let next = properties::records_bytes(records.take(k + 1))->Ok_0;
        assert(next.len() == p + raw.len());
        assert(next =~= properties::records_bytes(records.take(k))->Ok_0 + raw);
        same_bytes_within(whole, 0, d, 0, size, p, raw.len() as int);
        assert forall|j: int| 0 <= j < raw.len() implies #[trigger] d[p + j] == raw[0 + j] by {
            assert(d[0 + (p + j)] == whole[0 + (p + j)]);
            assert(whole[p + j] == body[p + j]);
            assert(body[p + j] == next[p + j]);
        }
        let value = properties::current_value(record);
        stored_property_is_read(names, d, p, raw, record.name_index, value);
        records_are_read(names, records, d, none, k + 1, p + raw.len());
        let rest = properties::stream_from(d, names, p + raw.len())->Ok_0;
        let stream = properties::stream_from(d, names, p)->Ok_0;
        assert forall|i: int| 0 <= i < records.skip(k).len() implies {
            let (one, other) = (records.skip(k)[i], #[trigger] stream.properties[i]);
            &&& text::same_folded(other.name, one.name)
            &&& other.name_index == one.name_index
            &&& properties::current_value(other) == properties::current_value(one)
            &&& one.replacement is None ==> other.raw == one.raw
        } by {
            if i > 0 {
                assert(stream.properties[i] == rest.properties[i - 1]);
                assert(records.skip(k)[i] == records.skip(k + 1)[i - 1]);
            }
        }
    }
}

/// The stored form of the first records is the start of that of all.
proof fn records_prefix(records: Seq<RecordModel>, k: int)
    requires
        0 <= k <= records.len(),
        properties::records_bytes(records) is Ok,
    ensures
        properties::records_bytes(records.take(k)) matches Ok(head) && head.len()
            <= properties::records_bytes(records)->Ok_0.len() && head
            == properties::records_bytes(records)->Ok_0.take(head.len() as int),
    decreases records.len(),
{
    let all = properties::records_bytes(records)->Ok_0;
    if k == records.len() {
        assert(records.take(k) =~= records);
        assert(all.take(all.len() as int) =~= all);
    } else {
        let fewer = records.drop_last();
        records_prefix(fewer, k);
        assert(fewer.take(k) =~= records.take(k));
        let head = properties::records_bytes(records.take(k))->Ok_0;
        assert(head =~= all.take(head.len() as int));
    }
}

/// A property list is read back from what was written of it: every property
/// with its value, in the order in which it stood, and nothing of what follows
/// the list.
pub proof fn written_properties_are_read_back(
    names: Seq<NameModel>,
    records: Seq<RecordModel>,
    tail: Seq<u8>,
)
    requires
        all_sound(names, records),
        properties::stream_bytes(names, records) matches Ok(written) && written.len() + tail.len()
            <= usize::MAX,
    ensures
        ({
            let written = properties::stream_bytes(names, records)->Ok_0;
            properties::stream_from(written + tail, names, 0) matches Ok(stream) && read_back(
                records,
                stream.properties,
            ) && stream.tail_offset == written.len()
        }),
{
    let none = names::index_in(names, "None"@)->Some_0;
    names::find_name_is_first(names, "None"@, 0);
    let written = properties::stream_bytes(names, records)->Ok_0;
    let body = properties::records_bytes(records)->Ok_0;
    let d = written + tail;
    assert(records.take(0) =~= Seq::<RecordModel>::empty());
    assert forall|k: int| 0 <= k < written.len() implies #[trigger] d[0 + k] == written[0 + k] by {}
    records_are_read(names, records, d, none, 0, 0);
    assert(records.skip(0) =~= records);
}

/// Every property that was read can be written again.
pub proof fn read_properties_are_sound(d: Seq<u8>, names: Seq<NameModel>, p: int)
    requires
        0 <= p,
        d.len() <= usize::MAX,
    ensures
        properties::stream_from(d, names, p) matches Ok(stream) ==> all_sound(
            names,
            stream.properties,
        ),
    decreases d.len() - p,
{
    let e = Dialect::Engine;
    reader::compact_moves(e, d, p);
    if let Ok((index, q)) = reader::compact_at(e, d, p) {
        reader::tag_moves(e, d, q);
        if let Ok(name) = names::name_at(names, index) {
            if !text::same_folded(name, "None"@) {
                if let Ok(tag) = reader::tag_at(e, d, q) {
                    if let Ok(end) = reader::exact_end(e, d, tag.start, tag.size) {
                        read_properties_are_sound(d, names, end);
                        if let Ok(stream) = properties::stream_from(d, names, p) {
                            let raw = d.subrange(p, end);
                            let size = raw.len() as int;
                            assert forall|k: int| 0 <= k < size implies #[trigger] raw[0 + k]
                                == d[p + k] by {}
                            assert(same_bytes(d, p, raw, 0, size));
                            compact_is_local(e, d, p, raw, 0, size);
                            same_bytes_within(d, p, raw, 0, size, q - p, size - (q - p));
                            tag_is_local(d, q, raw, q - p, size - (q - p));
                            same_bytes_within(d, p, raw, 0, size, tag.start - p, tag.size);
                            let rest = properties::stream_from(d, names, end)->Ok_0;
                            assert forall|i: int| 0 <= i < stream.properties.len() implies is_sound(
                                names,
                                #[trigger] stream.properties[i],
                            ) by {
                                if i > 0 {
                                    assert(stream.properties[i] == rest.properties[i - 1]);
                                }
                            }
                        }
                    }
                }
            }
        }
    }
}

/// Some letters of the name of a field, in lower case: how many there are, the
/// first two and the last two.
pub open spec fn letters(field: Field) -> (int, char, char, char, char) {
    match field {
        Field::Alpha => (13, 'b', 'a', 'r', 'e'),
        Field::Masked => (7, 'b', 'm', 'e', 'd'),
        Field::UClamp => (6, 'u', 'c', 'm', 'p'),
        Field::VClamp => (6, 'v', 'c', 'm', 'p'),
        Field::UClampMode => (10, 'u', 'c', 'd', 'e'),
        Field::VClampMode => (10, 'v', 'c', 'd', 'e'),
        Field::Split9 => (14, 'b', 's', 'r', 'e'),
        Field::Split9X1 => (8, 's', 'p', 'x', '1'),
        Field::Split9X2 => (8, 's', 'p', 'x', '2'),
        Field::Split9X3 => (8, 's', 'p', 'x', '3'),
        Field::Split9Y1 => (8, 's', 'p', 'y', '1'),
        Field::Split9Y2 => (8, 's', 'p', 'y', '2'),
        Field::Split9Y3 => (8, 's', 'p', 'y', '3'),
        Field::AnimNext => (8, 'a', 'n', 'x', 't'),
        Field::MaxFrameRate => (12, 'm', 'a', 't', 'e'),
        Field::MinFrameRate => (12, 'm', 'i', 't', 'e'),
        Field::OneTimeAnimLoop => (15, 'o', 'n', 'o', 'p'),
        Field::PrimeCount => (10, 'p', 'r', 'n', 't'),
        Field::TotalFrameNum => (13, 't', 'o', 'u', 'm'),
    }
}

proof fn field_letters(field: Field)
    ensures
        ({
            let name = text::lower_text(properties::field_name(field));
            let n = name.len() as int;
            n >= 2 && letters(field) == (n, name[0], name[1], name[n - 2], name[n - 1])
        }),
{
    match field {
        Field::Alpha => reveal_strlit("bAlphaTexture"),
        Field::Masked => reveal_strlit("bMasked"),
        Field::UClamp => reveal_strlit("UClamp"),
        Field::VClamp => reveal_strlit("VClamp"),
        Field::UClampMode => reveal_strlit("UClampMode"),
        Field::VClampMode => reveal_strlit("VClampMode"),
        Field::Split9 => reveal_strlit("bSplit9Texture"),
        Field::Split9X1 => reveal_strlit("Split9X1"),
        Field::Split9X2 => reveal_strlit("Split9X2"),
        Field::Split9X3 => reveal_strlit("Split9X3"),
        Field::Split9Y1 => reveal_strlit("Split9Y1"),
        Field::Split9Y2 => reveal_strlit("Split9Y2"),
        Field::Split9Y3 => reveal_strlit("Split9Y3"),
        Field::AnimNext => reveal_strlit("AnimNext"),
        Field::MaxFrameRate => reveal_strlit("MaxFrameRate"),
        Field::MinFrameRate => reveal_strlit("MinFrameRate"),
        Field::OneTimeAnimLoop => reveal_strlit("OneTimeAnimLoop"),
        Field::PrimeCount => reveal_strlit("PrimeCount"),
        Field::TotalFrameNum => reveal_strlit("TotalFrameNum"),
    }
}

/// No two fields have the same name, whatever the case, and none is called
/// `None`.
pub proof fn field_names_differ(a: Field, b: Field)
    requires
        a != b,
    ensures
        !text::same_folded(properties::field_name(a), properties::field_name(b)),
{
    field_letters(a);
    field_letters(b);
}

proof fn no_field_ends_a_list(field: Field)
    ensures
        !text::same_folded(properties::field_name(field), "None"@),
{
    field_letters(field);
    reveal_strlit("None");
    assert(text::lower_text("None"@).len() == 4);
}

/// Whether the records show what a step asks for.
pub open spec fn shows(records: Seq<RecordModel>, step: Step) -> bool {
    let name = properties::field_name(step.field);
    match step.change {
        Change::Flag(v) => properties::bool_of(records, name) == Some(v),
        Change::Clamp(v) => properties::integer_of(records, name) == Some(v),
        Change::ClampMode(v) => properties::integer_of(records, name) == Some(v),
        Change::Number(v) => properties::int_of(records, name) == Some(v),
        Change::Reference(v) => properties::object_of(records, name) == Some(v),
        Change::Rate(v) => properties::float_of(records, name) == Some(v),
        Change::Count(v) => properties::byte_of(records, name) == Some(v),
    }
}

/// What giving a property a value leaves: the value under its name, every other
/// name's value, and every other record.
proof fn value_is_placed(
    names: Seq<NameModel>,
    records: Seq<RecordModel>,
    name: Seq<char>,
    value: PropertyValue,
)
    requires
        all_sound(names, records),
        !(value is Raw),
        !text::same_folded(name, "None"@),
        properties::with_value(names, records, name, value) is Ok,
    ensures
        ({
            let (more, after) = properties::with_value(names, records, name, value)->Ok_0;
            &&& all_sound(more, after)
            &&& extends(names, more)
            &&& properties::value_of(after, name) == Some(value)
            &&& forall|other: Seq<char>|
                !text::same_folded(other, name) ==> #[trigger] properties::value_of(after, other)
                    == properties::value_of(records, other)
            &&& keeps_others(records, after, name)
        }),
{
    let (more, after) = properties::with_value(names, records, name, value)->Ok_0;
    properties::find_record_is_first(records, name, 0);
    properties::find_record_is_first(after, name, 0);
    names::find_name_is_first(names, name, 0);
    assert(names =~= more.take(names.len() as int));
    assert forall|i: int| 0 <= i < after.len() implies is_sound(more, #[trigger] after[i]) by {
        if i < records.len() {
            assert(is_sound(names, records[i]));
        }
    }
    assert forall|other: Seq<char>| !text::same_folded(other, name) implies
        #[trigger] properties::value_of(after, other) == properties::value_of(records, other) by {
        properties::find_record_is_first(records, other, 0);
        properties::find_record_is_first(after, other, 0);
        match (
            properties::find_record(records, other, 0),
            properties::find_record(after, other, 0),
        ) {
            (Some(i), Some(j)) => {
                assert(after[i].name == records[i].name);
                if j < records.len() {
                    assert(after[j].name == records[j].name);
                }
            },
            (Some(i), None) => {
                assert(after[i].name == records[i].name);
            },
            (None, Some(j)) => {
                if j < records.len() {
                    assert(after[j].name == records[j].name);
                }
            },
            (None, None) => {},
        }
    }
    let at = match properties::find_record(records, name, 0) {
        Some(i) => i,
        None => records.len() as int,
    };
    assert(text::same_folded(after[at].name, name));
    assert forall|k: int| 0 <= k < at implies !text::same_folded(
        #[trigger] after[k].name,
        name,
    ) by {
        assert(after[k] == records[k]);
    }
    assert(properties::find_record(after, name, 0) == Some(at));
}

/// Where a field stands in the order in which an edit names the fields.
pub open spec fn place(field: Field) -> int {
    match field {
        Field::Alpha => 0,
        Field::Masked => 1,
        Field::UClamp => 2,
        Field::VClamp => 3,
        Field::UClampMode => 4,
        Field::VClampMode => 5,
        Field::Split9 => 6,
        Field::Split9X1 => 7,
        Field::Split9X2 => 8,
        Field::Split9X3 => 9,
        Field::Split9Y1 => 10,
        Field::Split9Y2 => 11,
        Field::Split9Y3 => 12,
        Field::AnimNext => 13,
        Field::MaxFrameRate => 14,
        Field::MinFrameRate => 15,
        Field::OneTimeAnimLoop => 16,
        Field::PrimeCount => 17,
        Field::TotalFrameNum => 18,
    }
}

/// Whether the fields of steps stand in the order of their places, all of them
/// from `low` on and before `high`.
pub open spec fn fields_in_order(steps: Seq<Step>, low: int, high: int) -> bool {
    &&& forall|i: int| 0 <= i < steps.len() ==> low <= place(#[trigger] steps[i].field) < high
    &&& forall|i: int, j: int|
        0 <= i < j < steps.len() ==> place(#[trigger] steps[i].field) < place(
            #[trigger] steps[j].field,
        )
}

proof fn fields_joined(a: Seq<Step>, b: Seq<Step>, low: int, middle: int, high: int)
    requires
        fields_in_order(a, low, middle),
        fields_in_order(b, middle, high),
        low <= middle <= high,
    ensures
        fields_in_order(a + b, low, high),
{
    let all = a + b;
    assert forall|i: int| 0 <= i < all.len() implies low <= place(#[trigger] all[i].field) < high by {
        if i < a.len() {
            assert(all[i] == a[i]);
        } else {
            assert(all[i] == b[i - a.len()]);
        }
    }
    assert forall|i: int, j: int| 0 <= i < j < all.len() implies place(#[trigger] all[i].field)
        < place(#[trigger] all[j].field) by {
        if j < a.len() {
            assert(all[i] == a[i] && all[j] == a[j]);
        } else if i < a.len() {
            assert(all[i] == a[i] && all[j] == b[j - a.len()]);
        } else {
            assert(all[i] == b[i - a.len()] && all[j] == b[j - a.len()]);
        }
    }
}

proof fn clamp_in_order(clamp: Option<TextureClampEdit>)
    ensures
        fields_in_order(properties::clamp_steps(clamp), 2, 6),
{
    if let Some(c) = clamp {
        let u = match c.u_clamp {
            Some(v) => seq![Step { field: Field::UClamp, change: Change::Clamp(v) }],
            None => Seq::empty(),
        };
        let v = match c.v_clamp {
            Some(v) => seq![Step { field: Field::VClamp, change: Change::Clamp(v) }],
            None => Seq::empty(),
        };
        let u_mode = match c.u_clamp_mode {
            Some(v) => seq![Step { field: Field::UClampMode, change: Change::ClampMode(v) }],
            None => Seq::empty(),
        };
        let v_mode = match c.v_clamp_mode {
            Some(v) => seq![Step { field: Field::VClampMode, change: Change::ClampMode(v) }],
            None => Seq::empty(),
        };
        fields_joined(u, v, 2, 3, 4);
        fields_joined(u + v, u_mode, 2, 4, 5);
        fields_joined(u + v + u_mode, v_mode, 2, 5, 6);
    }
}

proof fn split9_in_order(split9: Option<Split9Edit>)
    ensures
        fields_in_order(properties::split9_steps(split9), 6, 13),
{
    if let Some(s) = split9 {
        let steps = properties::split9_steps(split9);
        assert forall|i: int| 0 <= i < steps.len() implies place(#[trigger] steps[i].field) == 6
            + i by {}
    }
}

proof fn animation_in_order(animation: Option<TextureAnimationEdit>)
    ensures
        fields_in_order(properties::animation_steps(animation), 13, 19),
{
    if let Some(a) = animation {
        let next = match a.anim_next {
            Some(v) => seq![Step { field: Field::AnimNext, change: Change::Reference(v) }],
            None => Seq::empty(),
        };
        let fastest = match a.max_frame_rate {
            Some(v) => seq![Step { field: Field::MaxFrameRate, change: Change::Rate(v) }],
            None => Seq::empty(),
        };
        let slowest = match a.min_frame_rate {
            Some(v) => seq![Step { field: Field::MinFrameRate, change: Change::Rate(v) }],
            None => Seq::empty(),
        };
        let once = properties::flag_steps(Field::OneTimeAnimLoop, a.one_time_anim_loop);
        let count = match a.prime_count {
            Some(v) => seq![Step { field: Field::PrimeCount, change: Change::Count(v) }],
            None => Seq::empty(),
        };
        let total = match a.total_frame_num {
            Some(v) => seq![Step { field: Field::TotalFrameNum, change: Change::Number(v) }],
            None => Seq::empty(),
        };
        fields_joined(next, fastest, 13, 14, 15);
        fields_joined(next + fastest, slowest, 13, 15, 16);
        fields_joined(next + fastest + slowest, once, 13, 16, 17);
        fields_joined(next + fastest + slowest + once, count, 13, 17, 18);
        fields_joined(next + fastest + slowest + once + count, total, 13, 18, 19);
    }
}

/// An edit changes every field at most once.
pub proof fn steps_in_order(edit: TextureEditorEdit)
    ensures
        fields_in_order(properties::steps_of(edit), 0, 19),
{
    let alpha = properties::flag_steps(Field::Alpha, edit.alpha);
    let masked = properties::flag_steps(Field::Masked, edit.masked);
    let clamp = properties::clamp_steps(edit.clamp);
    let split9 = properties::split9_steps(edit.split9);
    clamp_in_order(edit.clamp);
    split9_in_order(edit.split9);
    animation_in_order(edit.animation);
    fields_joined(alpha, masked, 0, 1, 2);
    fields_joined(alpha + masked, clamp, 0, 2, 6);
    fields_joined(alpha + masked + clamp, split9, 0, 6, 13);
    fields_joined(
        alpha + masked + clamp + split9,
        properties::animation_steps(edit.animation),
        0,
        13,
        19,
    );
}

/// One step of an edit places its value and leaves the others.
proof fn step_is_placed(names: Seq<NameModel>, records: Seq<RecordModel>, step: Step)
    requires
        all_sound(names, records),
        properties::with_step(names, records, step) is Ok,
    ensures
        ({
            let (more, after) = properties::with_step(names, records, step)->Ok_0;
            let name = properties::field_name(step.field);
            &&& all_sound(more, after)
            &&& extends(names, more)
            &&& shows(after, step)
            &&& forall|other: Seq<char>|
                !text::same_folded(other, name) ==> #[trigger] properties::value_of(after, other)
                    == properties::value_of(records, other)
            &&& keeps_others(records, after, name)
        }),
{
    let name = properties::field_name(step.field);
    no_field_ends_a_list(step.field);
    let value = match step.change {
        Change::Flag(v) => PropertyValue::Bool(v),
        Change::Clamp(v) => placed_integer(records, name, v, false),
        Change::ClampMode(v) => placed_integer(records, name, v, true),
        Change::Number(v) => PropertyValue::Int(v),
        Change::Reference(v) => PropertyValue::Object(v),
        Change::Rate(v) => PropertyValue::Float(v),
        Change::Count(v) => PropertyValue::Byte(v as u8),
    };
    value_is_placed(names, records, name, value);
}

/// The value that an integer takes in the type of the property it is given to.
spec fn placed_integer(
    records: Seq<RecordModel>,
    name: Seq<char>,
    value: i32,
    prefer_byte: bool,
) -> PropertyValue {
    let as_byte = match properties::find_record(records, name, 0) {
        Some(i) => properties::current_value(records[i]) is Byte,
        None => prefer_byte,
    };
    if as_byte {
        PropertyValue::Byte(value as u8)
    } else {
        PropertyValue::Int(value)
    }
}

/// Whether none of the first `n` steps is about a name.
pub open spec fn not_named(steps: Seq<Step>, n: int, name: Seq<char>) -> bool {
    forall|k: int|
        0 <= k < n ==> !text::same_folded(name, properties::field_name(#[trigger] steps[k].field))
}

/// Whether every record keeps its place, its name and its stored bytes, and all
/// of it unless one of the first `n` steps is about it.
pub open spec fn keeps_unnamed(
    records: Seq<RecordModel>,
    after: Seq<RecordModel>,
    steps: Seq<Step>,
    n: int,
) -> bool {
    &&& records.len() <= after.len()
    &&& forall|i: int|
        0 <= i < records.len() ==> {
            &&& (#[trigger] after[i]).name == records[i].name
            &&& after[i].raw == records[i].raw
            &&& not_named(steps, n, records[i].name) ==> after[i] == records[i]
        }
}

proof fn steps_are_placed(
    names: Seq<NameModel>,
    records: Seq<RecordModel>,
    steps: Seq<Step>,
    n: nat,
)
    requires
        all_sound(names, records),
        fields_in_order(steps, 0, 19),
        n <= steps.len(),
        properties::with_steps(names, records, steps, n) is Ok,
    ensures
        ({
            let (more, after) = properties::with_steps(names, records, steps, n)->Ok_0;
            &&& all_sound(more, after)
            &&& extends(names, more)
            &&& forall|k: int| 0 <= k < n ==> shows(after, #[trigger] steps[k])
            &&& forall|other: Seq<char>|
                not_named(steps, n as int, other) ==> #[trigger] properties::value_of(after, other)
                    == properties::value_of(records, other)
            &&& keeps_unnamed(records, after, steps, n as int)
        }),
    decreases n,
{
    if n == 0 {
        assert(names.take(names.len() as int) =~= names);
    } else {
        let m = (n - 1) as nat;
        steps_are_placed(names, records, steps, m);
        let (some, before) = properties::with_steps(names, records, steps, m)->Ok_0;
        let (more, after) = properties::with_steps(names, records, steps, n)->Ok_0;
        step_is_placed(some, before, steps[m as int]);
        let name = properties::field_name(steps[m as int].field);
        assert(names =~= more.take(names.len() as int)) by {
            assert(names =~= some.take(names.len() as int));
            assert(some =~= more.take(some.len() as int));
            assert forall|i: int| 0 <= i < names.len() implies names[i] == more[i] by {
                assert(some.take(names.len() as int)[i] == some[i]);
                assert(more.take(some.len() as int)[i] == more[i]);
            }
        }
        assert forall|k: int| 0 <= k < n implies shows(after, #[trigger] steps[k]) by {
            if k < m {
                assert(place(steps[k].field) < place(steps[m as int].field));
                field_names_differ(steps[k].field, steps[m as int].field);
                assert(shows(before, steps[k]));
                let field = properties::field_name(steps[k].field);
                assert(properties::value_of(after, field) == properties::value_of(before, field));
            }
        }
        assert forall|other: Seq<char>| not_named(steps, n as int, other) implies
            #[trigger] properties::value_of(after, other) == properties::value_of(records, other) by {
            assert(!text::same_folded(other, properties::field_name(steps[m as int].field)));
            assert(not_named(steps, m as int, other));
        }
        assert forall|i: int| 0 <= i < records.len() implies {
            &&& (#[trigger] after[i]).name == records[i].name
            &&& after[i].raw == records[i].raw
            &&& not_named(steps, n as int, records[i].name) ==> after[i] == records[i]
        } by {
            assert(before[i].name == records[i].name);
            if not_named(steps, n as int, records[i].name) {
                assert(!text::same_folded(
                    records[i].name,
                    properties::field_name(steps[m as int].field),
                ));
                assert(not_named(steps, m as int, records[i].name));
            }
        }
    }
}

/// After an edit the list shows what the edit asked for. Every property that it
/// does not name keeps its value, its place and its stored bytes, and every name
/// keeps its index.
pub proof fn edits_show_and_keep_the_rest(
    names: Seq<NameModel>,
    records: Seq<RecordModel>,
    edit: TextureEditorEdit,
)
    requires
        all_sound(names, records),
        properties::with_edit(names, records, edit) is Ok,
    ensures
        ({
            let (more, after) = properties::with_edit(names, records, edit)->Ok_0;
            let steps = properties::steps_of(edit);
            &&& all_sound(more, after)
            &&& extends(names, more)
            &&& forall|k: int| 0 <= k < steps.len() ==> shows(after, #[trigger] steps[k])
            &&& forall|other: Seq<char>|
                not_named(steps, steps.len() as int, other)
                    ==> #[trigger] properties::value_of(after, other) == properties::value_of(
                    records,
                    other,
                )
            &&& keeps_unnamed(records, after, steps, steps.len() as int)
        }),
{
    steps_in_order(edit);
    steps_are_placed(names, records, properties::steps_of(edit), properties::steps_of(edit).len());
}

proof fn read_back_finds(records: Seq<RecordModel>, again: Seq<RecordModel>, name: Seq<char>)
    requires
        read_back(records, again),
    ensures
        properties::value_of(again, name) == properties::value_of(records, name),
{
    properties::find_record_is_first(records, name, 0);
    properties::find_record_is_first(again, name, 0);
    match (properties::find_record(records, name, 0), properties::find_record(again, name, 0)) {
        (Some(i), Some(j)) => {
            assert(text::same_folded(again[i].name, records[i].name));
            assert(text::same_folded(again[j].name, records[j].name));
        },
        (Some(i), None) => {
            assert(text::same_folded(again[i].name, records[i].name));
        },
        (None, Some(j)) => {
            assert(text::same_folded(again[j].name, records[j].name));
        },
        (None, None) => {},
    }
}

/// Lists of the same values show alike.
proof fn same_values_show_alike(a: Seq<RecordModel>, b: Seq<RecordModel>)
    requires
        forall|name: Seq<char>|
            #[trigger] properties::value_of(a, name) == properties::value_of(b, name),
    ensures
        properties::state_of(a) == properties::state_of(b),
        forall|step: Step| shows(b, step) ==> #[trigger] shows(a, step),
{
}

/// An edit shows in the editor after the list was written and read again: every
/// step of the edit with its value, and every other property with the value that
/// it had before.
#[verifier::spinoff_prover]
#[verifier::rlimit(50)]
pub proof fn written_edits_show(
    d: Seq<u8>,
    names: Seq<NameModel>,
    edit: TextureEditorEdit,
    tail: Seq<u8>,
)
    requires
        d.len() <= usize::MAX,
        properties::stream_from(d, names, 0) matches Ok(stream) && properties::with_edit(
            names,
            stream.properties,
            edit,
        ) matches Ok((more, after)) && properties::stream_bytes(more, after) matches Ok(written)
            && written.len() + tail.len() <= usize::MAX,
    ensures
        ({
            let stream = properties::stream_from(d, names, 0)->Ok_0;
            let (more, after) = properties::with_edit(names, stream.properties, edit)->Ok_0;
            let written = properties::stream_bytes(more, after)->Ok_0;
            let steps = properties::steps_of(edit);
            properties::stream_from(written + tail, more, 0) matches Ok(again) && {
                &&& again.tail_offset == written.len()
                &&& properties::state_of(again.properties) == properties::state_of(after)
                &&& forall|k: int|
                    0 <= k < steps.len() ==> shows(again.properties, #[trigger] steps[k])
                &&& forall|other: Seq<char>|
                    not_named(steps, steps.len() as int, other)
                        ==> #[trigger] properties::value_of(again.properties, other)
                        == properties::value_of(stream.properties, other)
            }
        }),
{
    let stream = properties::stream_from(d, names, 0)->Ok_0;
    let (more, after) = properties::with_edit(names, stream.properties, edit)->Ok_0;
    let written = properties::stream_bytes(more, after)->Ok_0;
    read_properties_are_sound(d, names, 0);
    edits_show_and_keep_the_rest(names, stream.properties, edit);
    written_properties_are_read_back(more, after, tail);
    let again = properties::stream_from(written + tail, more, 0)->Ok_0;
    assert forall|name: Seq<char>|
        #[trigger] properties::value_of(again.properties, name) == properties::value_of(
        after,
        name,
    ) by {
        read_back_finds(after, again.properties, name);
    }
    same_values_show_alike(again.properties, after);
    let steps = properties::steps_of(edit);
    assert forall|k: int| 0 <= k < steps.len() implies shows(
        again.properties,
        #[trigger] steps[k],
    ) by {
        assert(shows(after, steps[k]));
    }
}

/// Whether a table of names starts with another.
pub open spec fn extends(names: Seq<NameModel>, more: Seq<NameModel>) -> bool {
    names.len() <= more.len() && names == more.take(names.len() as int)
}

/// Whether every record keeps its place and its name, and all of it unless it
/// has the given name.
pub open spec fn keeps_others(
    records: Seq<RecordModel>,
    after: Seq<RecordModel>,
    name: Seq<char>,
) -> bool {
    &&& records.len() <= after.len()
    &&& forall|i: int|
        0 <= i < records.len() ==> {
            &&& (#[trigger] after[i]).name == records[i].name
            &&& after[i].raw == records[i].raw
            &&& !text::same_folded(records[i].name, name) ==> after[i] == records[i]
        }
}

} // verus!
