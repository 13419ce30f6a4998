//! What holds of edits that leave every object where it is: they show in what
//! is read afterwards, and nothing else changes.

use vstd::prelude::*;
use crate::edits::LocationModel;
use crate::names::NameModel;
use crate::package::PackageModel;
use crate::properties::{Change, PropertyValue, RecordModel, Step, StreamModel, TextureEditorEdit, TYPE_BYTE};
use crate::reader::{Dialect, TYPE_BOOL};
use crate::bytes;
use crate::edits;
use crate::names;
use crate::package;
use crate::properties;
use crate::property_laws;
use crate::reader;
use crate::text;

verus! {

/// What the list from `p` on says depends on the bytes from `p` on alone.
proof fn rest_is_local(
    names: Seq<NameModel>,
    d: Seq<u8>,
    c: Seq<u8>,
    p: int,
    found: Seq<LocationModel>,
)
    requires
        0 <= p,
        c.len() == d.len() <= usize::MAX,
        forall|k: int| p <= k < d.len() ==> #[trigger] c[k] == d[k],
        properties::stream_from(d, names, p) is Ok,
    ensures
        properties::stream_from(c, names, p) == properties::stream_from(d, names, p),
        edits::locations_from(names, c, p, found) == edits::locations_from(names, d, p, found),
        edits::locations_from(names, d, p, found) is Ok,
    decreases d.len() - p,
{
    let e = Dialect::Engine;
    let size = d.len() - p;
    reader::compact_moves(e, d, p);
    let (index, q) = reader::compact_at(e, d, p)->Ok_0;
    assert forall|k: int| 0 <= k < size implies #[trigger] c[p + k] == d[p + k] by {}
    property_laws::compact_is_local(e, d, p, c, p, size);
    let name = names::name_at(names, index)->Ok_0;
    if !text::same_folded(name, "None"@) {
        reader::tag_moves(e, d, q);
        let tag = reader::tag_at(e, d, q)->Ok_0;
        assert forall|k: int| 0 <= k < d.len() - q implies #[trigger] c[q + k] == d[q + k] by {}
        property_laws::tag_is_local(d, q, c, q, d.len() - q);
        reveal(reader::tag_at);
        let end = tag.start + tag.size;
        assert(c.subrange(tag.start, end) =~= d.subrange(tag.start, end));
        assert(c.subrange(p, end) =~= d.subrange(p, end));
        rest_is_local(
            names,
            d,
            c,
            end,
            found.push(
                LocationModel {
                    name,
                    kind: tag.kind,
                    info: tag.info,
                    start: tag.start,
                    size: tag.size,
                },
            ),
        );
    }
}

/// The places of a list that can be read are those of its properties, one behind
/// the other.
proof fn places_and_records_agree(
    names: Seq<NameModel>,
    d: Seq<u8>,
    p: int,
    found: Seq<LocationModel>,
)
    requires
        0 <= p,
        d.len() <= usize::MAX,
        properties::stream_from(d, names, p) is Ok,
    ensures
        edits::locations_from(names, d, p, found) matches Ok(all) && {
            let stream = properties::stream_from(d, names, p)->Ok_0;
            &&& all.len() == found.len() + stream.properties.len()
            &&& forall|i: int| 0 <= i < found.len() ==> #[trigger] all[i] == found[i]
            &&& forall|i: int|
                found.len() <= i < all.len() ==> {
                    let one = #[trigger] all[i];
                    &&& one.name == stream.properties[i - found.len()].name
                    &&& p < one.info < one.start
                    &&& 0 <= one.size
                    &&& one.start + one.size <= stream.trailing_offset
                }
            &&& stream.trailing_offset < stream.tail_offset <= d.len()
        },
    decreases d.len() - p,
{
    let e = Dialect::Engine;
    reader::compact_moves(e, d, p);
    let (index, q) = reader::compact_at(e, d, p)->Ok_0;
    let name = names::name_at(names, index)->Ok_0;
    if !text::same_folded(name, "None"@) {
        reader::tag_moves(e, d, q);
        let tag = reader::tag_at(e, d, q)->Ok_0;
        let end = tag.start + tag.size;
        let one = LocationModel {
            name,
            kind: tag.kind,
            info: tag.info,
            start: tag.start,
            size: tag.size,
        };
        edits::stream_end(d, names, end);
        places_and_records_agree(names, d, end, found.push(one));
        let all = edits::locations_from(names, d, p, found)->Ok_0;
        let stream = properties::stream_from(d, names, p)->Ok_0;
        let rest = properties::stream_from(d, names, end)->Ok_0;
        assert forall|i: int| 0 <= i < found.len() implies #[trigger] all[i] == found[i] by {
            assert(all[i] == found.push(one)[i]);
        }
        assert forall|i: int| found.len() <= i < all.len() implies {
            let other = #[trigger] all[i];
            &&& other.name == stream.properties[i - found.len()].name
            &&& p < other.info < other.start
            &&& 0 <= other.size
            &&& other.start + other.size <= stream.trailing_offset
        } by {
            if i == found.len() {
                assert(all[i] == found.push(one)[i]);
            } else {
                assert(stream.properties[i - found.len()] == rest.properties[i - found.len() - 1]);
            }
        }
    }
}

/// Whether `c` is `d` with another value of the property at a place, of the same
/// type and length.
pub open spec fn revalued(d: Seq<u8>, c: Seq<u8>, at: LocationModel, value: PropertyValue) -> bool {
    &&& c.len() == d.len()
    &&& if at.kind == TYPE_BOOL {
        &&& forall|k: int| 0 <= k < d.len() && k != at.info ==> #[trigger] c[k] == d[k]
        &&& c[at.info] % 128 == d[at.info] % 128
        &&& value == PropertyValue::Bool(c[at.info] >= 128)
    } else {
        &&& forall|k: int|
            0 <= k < d.len() && !(at.start <= k < at.start + at.size) ==> #[trigger] c[k] == d[k]
        &&& properties::decoded_value(at.kind, false, c.subrange(at.start, at.start + at.size))
            == Ok::<PropertyValue, Seq<char>>(value)
    }
}

/// The list with another value at one place says so, and says the same of
/// everything else. Its properties keep their places.
#[verifier::spinoff_prover]
#[verifier::rlimit(60)]
proof fn revalued_list_is_read(
    names: Seq<NameModel>,
    d: Seq<u8>,
    c: Seq<u8>,
    p: int,
    found: Seq<LocationModel>,
    k: int,
    value: PropertyValue,
)
    requires
        0 <= p,
        d.len() <= usize::MAX,
        0 <= k,
        properties::stream_from(d, names, p) matches Ok(stream) && k < stream.properties.len(),
        edits::locations_from(names, d, p, found) matches Ok(all) && revalued(
            d,
            c,
            all[found.len() + k],
            value,
        ),
    ensures
        properties::stream_from(c, names, p) matches Ok(again) && {
            let stream = properties::stream_from(d, names, p)->Ok_0;
            &&& again.tail_offset == stream.tail_offset
            &&& again.properties.len() == stream.properties.len()
            &&& properties::current_value(again.properties[k]) == value
            &&& again.properties[k].name == stream.properties[k].name
            &&& forall|i: int|
                0 <= i < stream.properties.len() && i != k ==> #[trigger] again.properties[i]
                    == stream.properties[i]
        },
        edits::locations_from(names, c, p, found) == edits::locations_from(names, d, p, found),
    decreases k,
{
    let e = Dialect::Engine;
    let all = edits::locations_from(names, d, p, found)->Ok_0;
    let stream = properties::stream_from(d, names, p)->Ok_0;
    let at = all[found.len() + k];
    reader::compact_moves(e, d, p);
    let (index, q) = reader::compact_at(e, d, p)->Ok_0;
    let name = names::name_at(names, index)->Ok_0;
    reader::tag_moves(e, d, q);
    let tag = reader::tag_at(e, d, q)->Ok_0;
    let end = tag.start + tag.size;
    let one = LocationModel {
        name,
        kind: tag.kind,
        info: tag.info,
        start: tag.start,
        size: tag.size,
    };
    let rest = properties::stream_from(d, names, end)->Ok_0;
    places_and_records_agree(names, d, p, found);
    places_and_records_agree(names, d, end, found.push(one));
    assert(at.info > p);
    assert(all[found.len() as int] == one) by {
        assert(all[found.len() as int] == found.push(one)[found.len() as int]);
    }
    assert(at.info >= q);
    assert forall|j: int| 0 <= j < q - p implies #[trigger] c[p + j] == d[p + j] by {}
    property_laws::compact_is_local(e, d, p, c, p, q - p);
    if k == 0 {
        assert(at == one);
        if tag.kind == TYPE_BOOL {
            flag_keeps_tag(d, c, q);
        } else {
            assert forall|j: int| 0 <= j < tag.start - q implies #[trigger] c[q + j] == d[q
                + j] by {}
            property_laws::tag_is_local(d, q, c, q, tag.start - q);
        }
        reveal(reader::tag_at);
        let other = reader::tag_at(e, c, q)->Ok_0;
        value_of_kind(other.kind, other.flag, c.subrange(tag.start, end));
        rest_is_local(names, d, c, end, found.push(one));
    } else {
        assert(all[found.len() + k].info > end);
        assert forall|j: int| 0 <= j < end - q implies #[trigger] c[q + j] == d[q + j] by {}
        property_laws::tag_is_local(d, q, c, q, end - q);
        reveal(reader::tag_at);
        assert(c.subrange(tag.start, end) =~= d.subrange(tag.start, end));
        assert(c.subrange(p, end) =~= d.subrange(p, end));
        assert(rest.properties.len() == stream.properties.len() - 1);
        revalued_list_is_read(names, d, c, end, found.push(one), k - 1, value);
        let again = properties::stream_from(c, names, p)->Ok_0;
        let later = properties::stream_from(c, names, end)->Ok_0;
        assert(again.properties[k] == later.properties[k - 1]);
        assert(stream.properties[k] == rest.properties[k - 1]);
        assert forall|i: int|
            0 <= i < stream.properties.len() && i != k implies #[trigger] again.properties[i]
            == stream.properties[i] by {
            if i > 0 {
                assert(again.properties[i] == later.properties[i - 1]);
                assert(stream.properties[i] == rest.properties[i - 1]);
            }
        }
    }
}

/// Only a flag depends on the highest bit of the info byte.
proof fn value_of_kind(kind: u8, flag: bool, b: Seq<u8>)
    ensures
        kind != TYPE_BOOL ==> properties::decoded_value(kind, flag, b) == properties::decoded_value(
            kind,
            false,
            b,
        ),
{
}

/// The tag of a flag stays where it is when the flag changes.
proof fn flag_keeps_tag(d: Seq<u8>, c: Seq<u8>, q: int)
    requires
        0 <= q < d.len(),
        d.len() == c.len() <= usize::MAX,
        reader::tag_at(Dialect::Engine, d, q) matches Ok(tag) && tag.kind == TYPE_BOOL,
        forall|k: int| 0 <= k < d.len() && k != q ==> #[trigger] c[k] == d[k],
        c[q] % 128 == d[q] % 128,
    ensures
        ({
            let tag = reader::tag_at(Dialect::Engine, d, q)->Ok_0;
            reader::tag_at(Dialect::Engine, c, q) matches Ok(other) && other.kind == TYPE_BOOL
                && other.flag == (c[q] >= 128) && other.size == tag.size && other.start == tag.start
                && other.info == tag.info
        }),
{
    reveal(reader::tag_at);
    let e = Dialect::Engine;
    let info = d[q];
    let other = c[q];
    assert(other % 16 == info % 16 && other / 16 % 8 == info / 16 % 8) by (nonlinear_arith)
        requires
            other % 128 == info % 128,
    ;
    let (size, q2) = reader::size_at(e, d, q + 1, (info / 16 % 8) as int)->Ok_0;
    assert forall|k: int| 0 <= k < d.len() - (q + 1) implies #[trigger] c[q + 1 + k] == d[q + 1
        + k] by {}
    property_laws::size_is_local(
        d,
        q + 1,
        c,
        q + 1,
        d.len() - (q + 1),
        (info / 16 % 8) as int,
    );
}

/// Whether a list shows what a step in place asks for, in the type that the
/// property already has.
pub open spec fn shows_in_place(records: Seq<RecordModel>, step: Step) -> bool {
    let name = properties::field_name(step.field);
    match step.change {
        Change::Flag(v) => properties::bool_of(records, name) == Some(v),
        Change::Clamp(v) => properties::integer_of(records, name) == Some(v),
        Change::ClampMode(v) => properties::integer_of(records, name) == Some(v),
        Change::Number(v) => properties::integer_of(records, name) == Some(v),
        Change::Count(v) => properties::integer_of(records, name) == Some(v),
        Change::Reference(v) => properties::object_of(records, name) == Some(v),
        Change::Rate(v) => properties::float_of(records, name) == Some(v),
    }
}

/// The value that a step in place stores in a property of the given type.
spec fn stored_value(kind: u8, change: Change) -> PropertyValue {
    match change {
        Change::Flag(v) => PropertyValue::Bool(v),
        Change::Clamp(v) => stored_number(kind, v),
        Change::ClampMode(v) => stored_number(kind, v),
        Change::Number(v) => stored_number(kind, v),
        Change::Count(v) => stored_number(kind, v),
        Change::Reference(v) => PropertyValue::Object(v),
        Change::Rate(v) => PropertyValue::Float(v),
    }
}

spec fn stored_number(kind: u8, v: i32) -> PropertyValue {
    if kind == TYPE_BYTE {
        PropertyValue::Byte(v as u8)
    } else {
        PropertyValue::Int(v)
    }
}

/// The bytes of an object inside those of its package.
pub open spec fn object_bytes(d: Seq<u8>, base: int, size: int) -> Seq<u8> {
    d.subrange(base, base + size)
}

/// Whether only bytes of the property list of an object changed.
pub open spec fn only_list_changed(d: Seq<u8>, c: Seq<u8>, base: int, end: int) -> bool {
    &&& c.len() == d.len()
    &&& forall|k: int| 0 <= k < d.len() && !(base <= k < base + end) ==> #[trigger] c[k] == d[k]
}

/// A step in place gives a property of an object another value.
#[verifier::spinoff_prover]
#[verifier::rlimit(60)]
proof fn step_revalues(
    names: Seq<NameModel>,
    d: Seq<u8>,
    base: int,
    size: int,
    all: Seq<LocationModel>,
    step: Step,
)
    requires
        0 <= base,
        0 <= size,
        base + size <= d.len() <= usize::MAX,
        properties::stream_from(object_bytes(d, base, size), names, 0) is Ok,
        edits::locations_from(names, object_bytes(d, base, size), 0, Seq::empty()) == Ok::<
            Seq<LocationModel>,
            Seq<char>,
        >(all),
        edits::with_step_in_place(d, base, all, step) is Ok,
    ensures
        ({
            let c = edits::with_step_in_place(d, base, all, step)->Ok_0;
            let stream = properties::stream_from(object_bytes(d, base, size), names, 0)->Ok_0;
            let name = properties::field_name(step.field);
            &&& edits::find_location(all, name, 0) matches Some(i)
            &&& 0 <= i < all.len()
            &&& all.len() == stream.properties.len()
            &&& revalued(
                object_bytes(d, base, size),
                object_bytes(c, base, size),
                all[i],
                stored_value(all[i].kind, step.change),
            )
            &&& only_list_changed(d, c, base, stream.trailing_offset)
            &&& (step.change is Clamp || step.change is ClampMode || step.change is Number
                || step.change is Count) && all[i].kind == TYPE_BYTE ==> step_number(step.change)
                == step_number(step.change) as u8
        }),
{
    let c = edits::with_step_in_place(d, base, all, step)->Ok_0;
    let raw = object_bytes(d, base, size);
    let other = object_bytes(c, base, size);
    let name = properties::field_name(step.field);
    places_and_records_agree(names, raw, 0, Seq::empty());
    find_location_is_first(all, name, 0);
    let i = edits::find_location(all, name, 0)->Some_0;
    let at = all[i];
    let from = at.start;
    let to = at.start + at.size;
    let value = stored_value(at.kind, step.change);
    assert(c.len() == d.len());
    assert forall|k: int| 0 <= k < size implies other[k] == c[base + k] && raw[k] == d[base
        + k] by {}
    match step.change {
        Change::Flag(v) => {},
        Change::Rate(v) => {
            bytes::integers_round_trip(0, 0, 0, v);
            assert(other.subrange(from, to) =~= bytes::le32(v));
        },
        Change::Reference(v) => {
            let body = reader::compact_bytes(v);
            assert(other.subrange(from, to) =~= body);
            assert(body.subrange(0, body.len() as int) =~= body);
            reader::compact_here(Dialect::Engine, body, 0, v);
        },
        _ => {
            let v = step_number(step.change);
            bytes::integers_round_trip(0, v, 0, 0);
            if at.kind == TYPE_BYTE {
                assert(other.subrange(from, to) =~= seq![v as u8]);
            } else {
                assert(other.subrange(from, to) =~= bytes::i32_bytes(v));
            }
        },
    }
}

spec fn step_number(change: Change) -> i32 {
    match change {
        Change::Clamp(v) => v,
        Change::ClampMode(v) => v,
        Change::Number(v) => v,
        Change::Count(v) => v,
        _ => 0,
    }
}

pub proof fn find_location_is_first(locations: Seq<LocationModel>, name: Seq<char>, from: int)
    requires
        0 <= from,
    ensures
        match edits::find_location(locations, name, from) {
            Some(i) => {
                &&& from <= i < locations.len()
                &&& text::same_folded(locations[i].name, name)
                &&& forall|k: int|
                    from <= k < i ==> !text::same_folded(#[trigger] locations[k].name, name)
            },
            None => forall|k: int|
                from <= k < locations.len() ==> !text::same_folded(
                    #[trigger] locations[k].name,
                    name,
                ),
        },
    decreases locations.len() - from,
{
    if from < locations.len() && !text::same_folded(locations[from].name, name) {
        find_location_is_first(locations, name, from + 1);
    }
}

/// What a list says after one of its properties was given another value.
proof fn revalued_values(
    stream: StreamModel,
    again: StreamModel,
    all: Seq<LocationModel>,
    name: Seq<char>,
    k: int,
    value: PropertyValue,
)
    requires
        edits::find_location(all, name, 0) == Some(k),
        0 <= k < all.len(),
        all.len() == stream.properties.len(),
        forall|i: int| 0 <= i < all.len() ==> (#[trigger] all[i]).name == stream.properties[i].name,
        again.properties.len() == stream.properties.len(),
        properties::current_value(again.properties[k]) == value,
        again.properties[k].name == stream.properties[k].name,
        forall|i: int|
            0 <= i < stream.properties.len() && i != k ==> #[trigger] again.properties[i]
                == stream.properties[i],
    ensures
        properties::value_of(again.properties, name) == Some(value),
        forall|other: Seq<char>|
            !text::same_folded(other, name) ==> #[trigger] properties::value_of(
                again.properties,
                other,
            ) == properties::value_of(stream.properties, other),
{
    find_location_is_first(all, name, 0);
    properties::find_record_is_first(again.properties, name, 0);
    assert(text::same_folded(all[k].name, name));
    assert(text::same_folded(again.properties[k].name, name));
    assert forall|i: int| 0 <= i < k implies !text::same_folded(
        #[trigger] again.properties[i].name,
        name,
    ) by {
        assert(!text::same_folded(all[i].name, name));
    }
    assert(properties::find_record(again.properties, name, 0) == Some(k));
    assert forall|other: Seq<char>| !text::same_folded(other, name) implies
        #[trigger] properties::value_of(again.properties, other) == properties::value_of(
        stream.properties,
        other,
    ) by {
        let a = again.properties;
        let b = stream.properties;
        properties::find_record_is_first(a, other, 0);
        properties::find_record_is_first(b, other, 0);
        assert(forall|i: int| 0 <= i < b.len() ==> #[trigger] a[i].name == b[i].name);
        match (properties::find_record(a, other, 0), properties::find_record(b, other, 0)) {
            (Some(i), Some(j)) => {
                assert(a[i].name == b[i].name);
                assert(a[j].name == b[j].name);
                assert(i == j);
            },
            (Some(i), None) => {
                assert(a[i].name == b[i].name);
            },
            (None, Some(j)) => {
                assert(a[j].name == b[j].name);
            },
            (None, None) => {},
        }
    }
}

/// A step in place shows, and leaves the values of all other names.
proof fn step_in_place_shows(
    names: Seq<NameModel>,
    d: Seq<u8>,
    base: int,
    size: int,
    all: Seq<LocationModel>,
    step: Step,
)
    requires
        0 <= base,
        0 <= size,
        base + size <= d.len() <= usize::MAX,
        properties::stream_from(object_bytes(d, base, size), names, 0) is Ok,
        edits::locations_from(names, object_bytes(d, base, size), 0, Seq::empty()) == Ok::<
            Seq<LocationModel>,
            Seq<char>,
        >(all),
        edits::with_step_in_place(d, base, all, step) is Ok,
    ensures
        ({
            let c = edits::with_step_in_place(d, base, all, step)->Ok_0;
            let stream = properties::stream_from(object_bytes(d, base, size), names, 0)->Ok_0;
            &&& only_list_changed(d, c, base, stream.tail_offset)
            &&& edits::locations_from(names, object_bytes(c, base, size), 0, Seq::empty()) == Ok::<
                Seq<LocationModel>,
                Seq<char>,
            >(all)
            &&& properties::stream_from(object_bytes(c, base, size), names, 0) matches Ok(again)
            &&& again.tail_offset == stream.tail_offset
            &&& shows_in_place(again.properties, step)
            &&& forall|other: Seq<char>|
                !text::same_folded(other, properties::field_name(step.field))
                    ==> #[trigger] properties::value_of(again.properties, other)
                    == properties::value_of(stream.properties, other)
        }),
{
    let c = edits::with_step_in_place(d, base, all, step)->Ok_0;
    let raw = object_bytes(d, base, size);
    let other = object_bytes(c, base, size);
    let name = properties::field_name(step.field);
    step_revalues(names, d, base, size, all, step);
    places_and_records_agree(names, raw, 0, Seq::empty());
    let i = edits::find_location(all, name, 0)->Some_0;
    let value = stored_value(all[i].kind, step.change);
    revalued_list_is_read(names, raw, other, 0, Seq::empty(), i, value);
    let stream = properties::stream_from(raw, names, 0)->Ok_0;
    let again = properties::stream_from(other, names, 0)->Ok_0;
    revalued_values(stream, again, all, name, i, value);
}

proof fn steps_in_place_show(
    names: Seq<NameModel>,
    d: Seq<u8>,
    base: int,
    size: int,
    all: Seq<LocationModel>,
    steps: Seq<Step>,
    n: nat,
)
    requires
        0 <= base,
        0 <= size,
        base + size <= d.len() <= usize::MAX,
        properties::stream_from(object_bytes(d, base, size), names, 0) is Ok,
        edits::locations_from(names, object_bytes(d, base, size), 0, Seq::empty()) == Ok::<
            Seq<LocationModel>,
            Seq<char>,
        >(all),
        property_laws::fields_in_order(steps, 0, 19),
        n <= steps.len(),
        edits::with_steps_in_place(d, base, all, steps, n) is Ok,
    ensures
        ({
            let c = edits::with_steps_in_place(d, base, all, steps, n)->Ok_0;
            let stream = properties::stream_from(object_bytes(d, base, size), names, 0)->Ok_0;
            &&& only_list_changed(d, c, base, stream.tail_offset)
            &&& edits::locations_from(names, object_bytes(c, base, size), 0, Seq::empty()) == Ok::<
                Seq<LocationModel>,
                Seq<char>,
            >(all)
            &&& properties::stream_from(object_bytes(c, base, size), names, 0) matches Ok(again)
            &&& again.tail_offset == stream.tail_offset
            &&& forall|k: int| 0 <= k < n ==> shows_in_place(again.properties, #[trigger] steps[k])
            &&& forall|other: Seq<char>|
                property_laws::not_named(steps, n as int, other)
                    ==> #[trigger] properties::value_of(again.properties, other)
                    == properties::value_of(stream.properties, other)
        }),
    decreases n,
{
    if n > 0 {
        let m = (n - 1) as nat;
        steps_in_place_show(names, d, base, size, all, steps, m);
        let b = edits::with_steps_in_place(d, base, all, steps, m)->Ok_0;
        let c = edits::with_steps_in_place(d, base, all, steps, n)->Ok_0;
        let last = steps[m as int];
        step_in_place_shows(names, b, base, size, all, last);
        let stream = properties::stream_from(object_bytes(d, base, size), names, 0)->Ok_0;
        let middle = properties::stream_from(object_bytes(b, base, size), names, 0)->Ok_0;
        let again = properties::stream_from(object_bytes(c, base, size), names, 0)->Ok_0;
        assert forall|k: int| 0 <= k < n implies shows_in_place(
            again.properties,
            #[trigger] steps[k],
        ) by {
            if k < m {
                assert(property_laws::place(steps[k].field) < property_laws::place(
                    steps[m as int].field,
                ));
                property_laws::field_names_differ(steps[k].field, last.field);
                assert(shows_in_place(middle.properties, steps[k]));
                let field = properties::field_name(steps[k].field);
                assert(properties::value_of(again.properties, field) == properties::value_of(
                    middle.properties,
                    field,
                ));
            }
        }
        assert forall|other: Seq<char>|
            property_laws::not_named(steps, n as int, other) implies #[trigger] properties::value_of(
            again.properties,
            other,
        ) == properties::value_of(stream.properties, other) by {
            assert(!text::same_folded(other, properties::field_name(steps[m as int].field)));
            assert(property_laws::not_named(steps, m as int, other));
        }
    }
}

/// An edit in place keeps the length of the package, its tables and every byte
/// outside the property list of the texture. The list then shows what was asked
/// for, and every property that the edit does not name keeps its value.
pub proof fn edits_in_place_show(p: PackageModel, index: int, edit: TextureEditorEdit)
    requires
        0 <= index < p.exports.len(),
        p.data.len() <= usize::MAX,
        package::data_of(Dialect::Engine, p.data, p.exports[index]) matches Ok(raw)
            && properties::stream_from(raw, p.names, 0) is Ok,
        edits::edited_in_place(p, index, edit) is Ok,
    ensures
        ({
            let after = edits::edited_in_place(p, index, edit)->Ok_0;
            let raw = package::data_of(Dialect::Engine, p.data, p.exports[index])->Ok_0;
            let stream = properties::stream_from(raw, p.names, 0)->Ok_0;
            let steps = properties::steps_of(edit);
            &&& after == (PackageModel { data: after.data, ..p })
            &&& only_list_changed(
                p.data,
                after.data,
                p.exports[index].offset as int,
                stream.tail_offset,
            )
            &&& package::data_of(Dialect::Engine, after.data, after.exports[index]) matches Ok(bytes)
            &&& properties::stream_from(bytes, after.names, 0) matches Ok(again)
            &&& again.tail_offset == stream.tail_offset
            &&& forall|k: int|
                0 <= k < steps.len() ==> shows_in_place(again.properties, #[trigger] steps[k])
            &&& forall|other: Seq<char>|
                property_laws::not_named(steps, steps.len() as int, other)
                    ==> #[trigger] properties::value_of(again.properties, other)
                    == properties::value_of(stream.properties, other)
        }),
{
    reveal(edits::edited_in_place);
    let export = p.exports[index];
    let raw = package::data_of(Dialect::Engine, p.data, export)->Ok_0;
    let steps = properties::steps_of(edit);
    property_laws::steps_in_order(edit);
    places_and_records_agree(p.names, raw, 0, Seq::empty());
    let all = edits::locations_from(p.names, raw, 0, Seq::empty())->Ok_0;
    if steps.len() > 0 {
        steps_in_place_show(
            p.names,
            p.data,
            export.offset as int,
            export.size as int,
            all,
            steps,
            steps.len(),
        );
    }
}

} // verus!
