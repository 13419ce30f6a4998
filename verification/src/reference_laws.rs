//! What holds of property lists that were edited: the layout of the texture can
//! still be found.

use vstd::prelude::*;
use crate::layout::LayoutParts;
use crate::names::NameModel;
use crate::properties::{Change, Field, PropertyValue, RecordModel, Step, TextureAnimationEdit, TextureEditorEdit};
use crate::reader::Dialect;
use crate::layout;
use crate::names;
use crate::properties;
use crate::property_laws;
use crate::reader;
use crate::text;

verus! {

/// Whether a stored property has no value, or one that starts with a reference.
pub open spec fn refers(raw: Seq<u8>) -> bool {
    &&& reader::compact_at(Dialect::Engine, raw, 0) matches Ok((_, q))
    &&& reader::tag_at(Dialect::Engine, raw, q) matches Ok(tag)
    &&& tag.size == 0 || reader::compact_at(
        Dialect::Engine,
        raw.subrange(tag.start, tag.start + tag.size),
        0,
    ) is Ok
}

/// Whether a record is, if it leads to the next frame, a reference.
pub open spec fn fits(record: RecordModel) -> bool {
    text::same_folded(record.name, "AnimNext"@) ==> match record.replacement {
        Some(value) => value is Object,
        None => refers(record.raw),
    }
}

pub open spec fn all_fit(records: Seq<RecordModel>) -> bool {
    forall|i: int| 0 <= i < records.len() ==> fits(#[trigger] records[i])
}

/// Whether one of the records has a name.
pub open spec fn has_record(records: Seq<RecordModel>, name: Seq<char>) -> bool {
    exists|i: int| 0 <= i < records.len() && text::same_folded((#[trigger] records[i]).name, name)
}

/// Whether a step gives the next frame nothing but a reference.
pub open spec fn is_reference(step: Step) -> bool {
    step.field == Field::AnimNext ==> step.change is Reference
}

proof fn value_fits(
    names: Seq<NameModel>,
    records: Seq<RecordModel>,
    name: Seq<char>,
    value: PropertyValue,
)
    requires
        all_fit(records),
        text::same_folded(name, "AnimNext"@) ==> value is Object,
    ensures
        properties::with_value(names, records, name, value) matches Ok((_, after)) ==> all_fit(
            after,
        ),
{
    properties::find_record_is_first(records, name, 0);
}

proof fn step_fits(names: Seq<NameModel>, records: Seq<RecordModel>, step: Step)
    requires
        all_fit(records),
        is_reference(step),
    ensures
        properties::with_step(names, records, step) matches Ok((_, after)) ==> all_fit(after),
{
    let name = properties::field_name(step.field);
    if step.field != Field::AnimNext {
        property_laws::field_names_differ(step.field, Field::AnimNext);
    }
    match step.change {
        Change::Flag(v) => value_fits(names, records, name, PropertyValue::Bool(v)),
        Change::Clamp(v) => {
            value_fits(names, records, name, PropertyValue::Byte(v as u8));
            value_fits(names, records, name, PropertyValue::Int(v));
        },
        Change::ClampMode(v) => {
            value_fits(names, records, name, PropertyValue::Byte(v as u8));
            value_fits(names, records, name, PropertyValue::Int(v));
        },
        Change::Number(v) => value_fits(names, records, name, PropertyValue::Int(v)),
        Change::Reference(v) => value_fits(names, records, name, PropertyValue::Object(v)),
        Change::Rate(v) => value_fits(names, records, name, PropertyValue::Float(v)),
        Change::Count(v) => value_fits(names, records, name, PropertyValue::Byte(v as u8)),
    }
}

proof fn steps_fit(names: Seq<NameModel>, records: Seq<RecordModel>, steps: Seq<Step>, n: nat)
    requires
        n <= steps.len(),
        all_fit(records),
        all_references(steps),
    ensures
        properties::with_steps(names, records, steps, n) matches Ok((_, after)) ==> all_fit(after),
    decreases n,
{
    if n > 0 {
        steps_fit(names, records, steps, (n - 1) as nat);
        if let Ok((more, before)) = properties::with_steps(names, records, steps, (n - 1) as nat) {
            step_fits(more, before, steps[n - 1]);
        }
    }
}

/// Whether all steps give the next frame nothing but a reference.
pub open spec fn all_references(steps: Seq<Step>) -> bool {
    forall|k: int| 0 <= k < steps.len() ==> is_reference(#[trigger] steps[k])
}

proof fn joined_steps_are_references(a: Seq<Step>, b: Seq<Step>)
    requires
        all_references(a),
        all_references(b),
    ensures
        all_references(a + b),
{
    assert forall|k: int| 0 <= k < (a + b).len() implies is_reference(#[trigger] (a + b)[k]) by {
        if k < a.len() {
            assert((a + b)[k] == a[k]);
        } else {
            assert((a + b)[k] == b[k - a.len()]);
        }
    }
}

proof fn animations_give_references(animation: Option<TextureAnimationEdit>)
    ensures
        all_references(properties::animation_steps(animation)),
{
    if let Some(a) = animation {
        let next = match a.anim_next {
            Some(v) => seq![Step { field: Field::AnimNext, change: Change::Reference(v) }],
            None => Seq::empty(),
        };
        let most = match a.max_frame_rate {
            Some(v) => seq![Step { field: Field::MaxFrameRate, change: Change::Rate(v) }],
            None => Seq::empty(),
        };
        let least = match a.min_frame_rate {
            Some(v) => seq![Step { field: Field::MinFrameRate, change: Change::Rate(v) }],
            None => Seq::empty(),
        };
        let once = properties::flag_steps(Field::OneTimeAnimLoop, a.one_time_anim_loop);
        let prime = match a.prime_count {
            Some(v) => seq![Step { field: Field::PrimeCount, change: Change::Count(v) }],
            None => Seq::empty(),
        };
        let total = match a.total_frame_num {
            Some(v) => seq![Step { field: Field::TotalFrameNum, change: Change::Number(v) }],
            None => Seq::empty(),
        };
        joined_steps_are_references(next, most);
        joined_steps_are_references(next + most, least);
        joined_steps_are_references(next + most + least, once);
        joined_steps_are_references(next + most + least + once, prime);
        joined_steps_are_references(next + most + least + once + prime, total);
    }
}

proof fn edits_give_references(edit: TextureEditorEdit)
    ensures
        all_references(properties::steps_of(edit)),
{
    let alpha = properties::flag_steps(Field::Alpha, edit.alpha);
    let masked = properties::flag_steps(Field::Masked, edit.masked);
    let clamp = properties::clamp_steps(edit.clamp);
    let split9 = properties::split9_steps(edit.split9);
    let animation = properties::animation_steps(edit.animation);
    animations_give_references(edit.animation);
    joined_steps_are_references(alpha, masked);
    joined_steps_are_references(alpha + masked, clamp);
    joined_steps_are_references(alpha + masked + clamp, split9);
    joined_steps_are_references(alpha + masked + clamp + split9, animation);
}

/// A texture whose layout was found refers to its next frame.
proof fn laid_out_lists_fit(names: Seq<NameModel>, d: Seq<u8>, p: int, parts: LayoutParts)
    requires
        0 <= p,
        d.len() <= usize::MAX,
        layout::parts_from(Dialect::Engine, names, d, p, parts) is Ok,
    ensures
        properties::stream_from(d, names, p) matches Ok(stream) ==> {
            let (found, _) = layout::parts_from(Dialect::Engine, names, d, p, parts)->Ok_0;
            &&& all_fit(stream.properties)
            &&& found.format is Some ==> parts.format is Some || has_record(
                stream.properties,
                "Format"@,
            )
        },
    decreases d.len() - p,
{
    let e = Dialect::Engine;
    reader::compact_moves(e, d, p);
    let (index, q) = reader::compact_at(e, d, p)->Ok_0;
    let name = names::name_at(names, index)->Ok_0;
    if !text::same_folded(name, "None"@) {
        reader::tag_moves(e, d, q);
        let tag = reader::tag_at(e, d, q)->Ok_0;
        let more = layout::noted(e, d, parts, name, tag)->Ok_0;
        let end = tag.start + tag.size;
        if let Ok(stream) = properties::stream_from(d, names, p) {
            laid_out_lists_fit(names, d, end, more);
            let rest = properties::stream_from(d, names, end)->Ok_0;
            let first = stream.properties[0];
            let raw = d.subrange(p, end);
            assert(first.raw == raw && first.name == name && first.replacement is None);
            assert forall|k: int| 0 <= k < end - p implies #[trigger] raw[0 + k] == d[p + k] by {}
            property_laws::compact_is_local(e, d, p, raw, 0, end - p);
            property_laws::same_bytes_within(d, p, raw, 0, end - p, q - p, end - q);
            property_laws::tag_is_local(d, q, raw, q - p, end - q);
            assert(raw.subrange(tag.start - p, end - p) =~= d.subrange(tag.start, end));
            next_frame_is_no_part();
            assert(fits(first));
            assert forall|i: int| 0 <= i < stream.properties.len() implies fits(
                #[trigger] stream.properties[i],
            ) by {
                if i > 0 {
                    assert(stream.properties[i] == rest.properties[i - 1]);
                }
            }
            if found_format(names, d, p, parts) && parts.format is None {
                if more.format is Some {
                    assert(text::same_folded(first.name, "Format"@));
                } else {
                    let i = choose|i: int|
                        0 <= i < rest.properties.len() && text::same_folded(
                            (#[trigger] rest.properties[i]).name,
                            "Format"@,
                        );
                    assert(stream.properties[i + 1] == rest.properties[i]);
                }
            }
        }
    }
}

spec fn found_format(names: Seq<NameModel>, d: Seq<u8>, p: int, parts: LayoutParts) -> bool {
    layout::parts_from(Dialect::Engine, names, d, p, parts) matches Ok((found, _))
        && found.format is Some
}

/// The name of the next frame is that of no other part.
pub proof fn next_frame_is_no_part()
    ensures
        !text::same_folded("AnimNext"@, "Format"@),
        !text::same_folded("AnimNext"@, "USize"@),
        !text::same_folded("AnimNext"@, "VSize"@),
        !text::same_folded("AnimNext"@, "UBits"@),
        !text::same_folded("AnimNext"@, "VBits"@),
        !text::same_folded("AnimNext"@, "None"@),
{
    reveal_strlit("AnimNext");
    reveal_strlit("Format");
    reveal_strlit("USize");
    reveal_strlit("VSize");
    reveal_strlit("UBits");
    reveal_strlit("VBits");
    reveal_strlit("None");
    assert(text::lower_text("AnimNext"@).len() == 8);
    assert(text::lower_text("Format"@).len() == 6);
    assert(text::lower_text("USize"@).len() == 5);
    assert(text::lower_text("VSize"@).len() == 5);
    assert(text::lower_text("UBits"@).len() == 5);
    assert(text::lower_text("VBits"@).len() == 5);
    assert(text::lower_text("None"@).len() == 4);
}

/// A list whose records fit can be laid out.
proof fn fitting_lists_are_laid_out(
    names: Seq<NameModel>,
    d: Seq<u8>,
    p: int,
    parts: LayoutParts,
)
    requires
        0 <= p,
        d.len() <= usize::MAX,
        properties::stream_from(d, names, p) matches Ok(stream) && all_fit(stream.properties),
    ensures
        layout::parts_from(Dialect::Engine, names, d, p, parts) matches Ok((found, _)) && (
        parts.format is Some || has_record(
            properties::stream_from(d, names, p)->Ok_0.properties,
            "Format"@,
        ) ==> found.format is Some),
    decreases d.len() - p,
{
    let e = Dialect::Engine;
    reader::compact_moves(e, d, p);
    let stream = properties::stream_from(d, names, p)->Ok_0;
    let (index, q) = reader::compact_at(e, d, p)->Ok_0;
    let name = names::name_at(names, index)->Ok_0;
    if !text::same_folded(name, "None"@) {
        reader::tag_moves(e, d, q);
        let tag = reader::tag_at(e, d, q)->Ok_0;
        let end = tag.start + tag.size;
        let rest = properties::stream_from(d, names, end)->Ok_0;
        let first = stream.properties[0];
        let raw = d.subrange(p, end);
        assert(first.raw == raw && first.name == name && first.replacement is None);
        assert(fits(first));
        assert forall|k: int| 0 <= k < end - p implies #[trigger] raw[0 + k] == d[p + k] by {}
        property_laws::compact_is_local(e, d, p, raw, 0, end - p);
        property_laws::same_bytes_within(d, p, raw, 0, end - p, q - p, end - q);
        property_laws::tag_is_local(d, q, raw, q - p, end - q);
        assert(raw.subrange(tag.start - p, end - p) =~= d.subrange(tag.start, end));
        next_frame_is_no_part();
        let more = layout::noted(e, d, parts, name, tag);
        assert(more is Ok);
        assert(all_fit(rest.properties)) by {
            assert forall|i: int| 0 <= i < rest.properties.len() implies fits(
                #[trigger] rest.properties[i],
            ) by {
                assert(stream.properties[i + 1] == rest.properties[i]);
            }
        }
        fitting_lists_are_laid_out(names, d, end, more->Ok_0);
        if parts.format is None && has_record(stream.properties, "Format"@) {
            let i = choose|i: int|
                0 <= i < stream.properties.len() && text::same_folded(
                    (#[trigger] stream.properties[i]).name,
                    "Format"@,
                );
            if i > 0 {
                assert(stream.properties[i] == rest.properties[i - 1]);
                assert(has_record(rest.properties, "Format"@));
            }
        }
    }
}

/// A list that was read again after an edit fits if the edited records do.
proof fn read_back_fits(
    names: Seq<NameModel>,
    records: Seq<RecordModel>,
    again: Seq<RecordModel>,
)
    requires
        all_fit(records),
        property_laws::read_back(records, again),
        property_laws::all_sound(names, again),
        forall|i: int| 0 <= i < again.len() ==> (#[trigger] again[i]).replacement is None,
    ensures
        all_fit(again),
{
    assert forall|i: int| 0 <= i < again.len() implies fits(#[trigger] again[i]) by {
        let (one, other) = (records[i], again[i]);
        assert(fits(one));
        assert(property_laws::is_sound(names, other));
    }
}

/// Properties that were read have no other values yet.
proof fn read_records_are_as_stored(d: Seq<u8>, names: Seq<NameModel>, p: int)
    requires
        0 <= p,
    ensures
        properties::stream_from(d, names, p) matches Ok(stream) ==> forall|i: int|
            0 <= i < stream.properties.len() ==> (#[trigger] stream.properties[i]).replacement
                is None,
    decreases d.len() - p,
{
    let e = Dialect::Engine;
    reader::compact_moves(e, d, p);
    if let Ok(stream) = properties::stream_from(d, names, p) {
        let (index, q) = reader::compact_at(e, d, p)->Ok_0;
        let name = names::name_at(names, index)->Ok_0;
        if !text::same_folded(name, "None"@) {
            reader::tag_moves(e, d, q);
            let tag = reader::tag_at(e, d, q)->Ok_0;
            let end = tag.start + tag.size;
            read_records_are_as_stored(d, names, end);
            let rest = properties::stream_from(d, names, end)->Ok_0;
            assert forall|i: int| 0 <= i < stream.properties.len() implies (
            #[trigger] stream.properties[i]).replacement is None by {
                if i > 0 {
                    assert(stream.properties[i] == rest.properties[i - 1]);
                }
            }
        }
    }
}

/// A texture whose layout was found has one after an edit, too.
pub proof fn edited_lists_are_laid_out(
    d: Seq<u8>,
    names: Seq<NameModel>,
    edit: TextureEditorEdit,
    tail: Seq<u8>,
)
    requires
        d.len() <= usize::MAX,
        layout::parts_from(Dialect::Engine, names, d, 0, layout::no_parts()) matches Ok((found, _))
            && found.format is Some,
        properties::stream_from(d, names, 0) matches Ok(stream) && properties::with_edit(
            names,
            stream.properties,
            edit,
        ) matches Ok((more, after)) && properties::stream_bytes(more, after) matches Ok(written)
            && written.len() + tail.len() <= usize::MAX,
    ensures
        ({
            let stream = properties::stream_from(d, names, 0)->Ok_0;
            let (more, after) = properties::with_edit(names, stream.properties, edit)->Ok_0;
            let written = properties::stream_bytes(more, after)->Ok_0;
            layout::parts_from(Dialect::Engine, more, written + tail, 0, layout::no_parts()) matches Ok(
                (found, _),
            ) && found.format is Some
        }),
{
    let stream = properties::stream_from(d, names, 0)->Ok_0;
    let (more, after) = properties::with_edit(names, stream.properties, edit)->Ok_0;
    let written = properties::stream_bytes(more, after)->Ok_0;
    laid_out_lists_fit(names, d, 0, layout::no_parts());
    edits_give_references(edit);
    let steps = properties::steps_of(edit);
    steps_fit(names, stream.properties, steps, steps.len());
    property_laws::read_properties_are_sound(d, names, 0);
    property_laws::edits_show_and_keep_the_rest(names, stream.properties, edit);
    property_laws::written_properties_are_read_back(more, after, tail);
    let again = properties::stream_from(written + tail, more, 0)->Ok_0;
    property_laws::read_properties_are_sound(written + tail, more, 0);
    read_records_are_as_stored(written + tail, more, 0);
    read_back_fits(more, after, again.properties);
    let i = choose|i: int|
        0 <= i < stream.properties.len() && text::same_folded(
            (#[trigger] stream.properties[i]).name,
            "Format"@,
        );
    assert(after[i].name == stream.properties[i].name);
    assert(text::same_folded(again.properties[i].name, "Format"@));
    fitting_lists_are_laid_out(more, written + tail, 0, layout::no_parts());
}

} // verus!
