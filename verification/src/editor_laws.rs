//! What the editor shows of a texture: the values that it was given.

use vstd::prelude::*;
use crate::edits::RequestModel;
use crate::names::NameModel;
use crate::package::PackageModel;
use crate::properties::{Change, Field, PropertyValue, RecordModel, Split9Edit, Step, TextureAnimationEdit, TextureClampEdit, TextureEditorEdit, TextureEditorState};
use crate::reader::Dialect;
use crate::properties;
use crate::import_laws;
use crate::in_place_laws;
use crate::package;
use crate::package_laws;
use crate::property_laws;
use crate::text;
use crate::texture_engine;
use crate::edits;
use crate::adding;
use crate::batch_edit_laws;
use crate::replacement_laws;
use crate::tables;

verus! {

/// Whether a state has every value that an edit gives.
pub open spec fn has_given(edit: TextureEditorEdit, state: TextureEditorState) -> bool {
    &&& edit.alpha is Some ==> state.alpha == edit.alpha
    &&& edit.masked is Some ==> state.masked == edit.masked
    &&& edit.clamp matches Some(c) ==> {
        &&& c.u_clamp is Some ==> state.u_clamp == c.u_clamp
        &&& c.v_clamp is Some ==> state.v_clamp == c.v_clamp
        &&& c.u_clamp_mode is Some ==> state.u_clamp_mode == c.u_clamp_mode
        &&& c.v_clamp_mode is Some ==> state.v_clamp_mode == c.v_clamp_mode
    }
    &&& edit.split9 matches Some(s) ==> {
        &&& state.split9 == Some(s.enabled)
        &&& s.enabled ==> {
            &&& state.split9_x1 == s.x1
            &&& state.split9_x2 == s.x2
            &&& state.split9_x3 == s.x3
            &&& state.split9_y1 == s.y1
            &&& state.split9_y2 == s.y2
            &&& state.split9_y3 == s.y3
        }
    }
    &&& edit.animation matches Some(a) ==> {
        &&& a.anim_next is Some ==> state.animation.anim_next == a.anim_next
        &&& a.max_frame_rate is Some ==> state.animation.max_frame_rate == a.max_frame_rate
        &&& a.min_frame_rate is Some ==> state.animation.min_frame_rate == a.min_frame_rate
        &&& a.one_time_anim_loop is Some ==> state.animation.one_time_anim_loop
            == a.one_time_anim_loop
        &&& a.prime_count is Some ==> state.animation.prime_count == a.prime_count
        &&& a.total_frame_num is Some ==> state.animation.total_frame_num == a.total_frame_num
    }
}

/// Whether a state has, for all that an edit does not give, what another has.
pub open spec fn keeps_others_of(
    edit: TextureEditorEdit,
    before: TextureEditorState,
    state: TextureEditorState,
) -> bool {
    &&& edit.alpha is None ==> state.alpha == before.alpha
    &&& edit.masked is None ==> state.masked == before.masked
    &&& (edit.clamp matches Some(c) ==> c.u_clamp is None) ==> state.u_clamp == before.u_clamp
    &&& (edit.clamp matches Some(c) ==> c.v_clamp is None) ==> state.v_clamp == before.v_clamp
    &&& (edit.clamp matches Some(c) ==> c.u_clamp_mode is None) ==> state.u_clamp_mode
        == before.u_clamp_mode
    &&& (edit.clamp matches Some(c) ==> c.v_clamp_mode is None) ==> state.v_clamp_mode
        == before.v_clamp_mode
    &&& edit.split9 is None ==> state.split9 == before.split9
    &&& (edit.split9 matches Some(s) ==> !s.enabled) ==> {
        &&& state.split9_x1 == before.split9_x1
        &&& state.split9_x2 == before.split9_x2
        &&& state.split9_x3 == before.split9_x3
        &&& state.split9_y1 == before.split9_y1
        &&& state.split9_y2 == before.split9_y2
        &&& state.split9_y3 == before.split9_y3
    }
    &&& (edit.animation matches Some(a) ==> a.anim_next is None) ==> state.animation.anim_next
        == before.animation.anim_next
    &&& (edit.animation matches Some(a) ==> a.max_frame_rate is None)
        ==> state.animation.max_frame_rate == before.animation.max_frame_rate
    &&& (edit.animation matches Some(a) ==> a.min_frame_rate is None)
        ==> state.animation.min_frame_rate == before.animation.min_frame_rate
    &&& (edit.animation matches Some(a) ==> a.one_time_anim_loop is None)
        ==> state.animation.one_time_anim_loop == before.animation.one_time_anim_loop
    &&& (edit.animation matches Some(a) ==> a.prime_count is None) ==> state.animation.prime_count
        == before.animation.prime_count
    &&& (edit.animation matches Some(a) ==> a.total_frame_num is None)
        ==> state.animation.total_frame_num == before.animation.total_frame_num
}

/// Whether a property list has every value that an edit gives, under the names that the
/// engine knows.
pub open spec fn has_stored(edit: TextureEditorEdit, records: Seq<RecordModel>) -> bool {
    &&& edit.alpha is Some ==> properties::bool_of(records, "bAlphaTexture"@) == edit.alpha
    &&& edit.masked is Some ==> properties::bool_of(records, "bMasked"@) == edit.masked
    &&& edit.clamp matches Some(c) ==> {
        &&& c.u_clamp is Some ==> properties::integer_of(records, "UClamp"@) == c.u_clamp
        &&& c.v_clamp is Some ==> properties::integer_of(records, "VClamp"@) == c.v_clamp
        &&& c.u_clamp_mode is Some ==> properties::integer_of(records, "UClampMode"@) == c.u_clamp_mode
        &&& c.v_clamp_mode is Some ==> properties::integer_of(records, "VClampMode"@) == c.v_clamp_mode
    }
    &&& edit.split9 matches Some(s) ==> {
        &&& properties::bool_of(records, "bSplit9Texture"@) == Some(s.enabled)
        &&& s.enabled ==> {
            &&& properties::integer_of(records, "Split9X1"@) == Some(s.x1)
            &&& properties::integer_of(records, "Split9X2"@) == Some(s.x2)
            &&& properties::integer_of(records, "Split9X3"@) == Some(s.x3)
            &&& properties::integer_of(records, "Split9Y1"@) == Some(s.y1)
            &&& properties::integer_of(records, "Split9Y2"@) == Some(s.y2)
            &&& properties::integer_of(records, "Split9Y3"@) == Some(s.y3)
        }
    }
    &&& edit.animation matches Some(a) ==> {
        &&& a.anim_next is Some ==> properties::object_of(records, "AnimNext"@) == a.anim_next
        &&& a.max_frame_rate is Some ==> properties::float_of(records, "MaxFrameRate"@) == a.max_frame_rate
        &&& a.min_frame_rate is Some ==> properties::float_of(records, "MinFrameRate"@) == a.min_frame_rate
        &&& a.one_time_anim_loop is Some ==> properties::bool_of(records, "OneTimeAnimLoop"@)
            == a.one_time_anim_loop
        &&& a.prime_count is Some ==> properties::integer_of(records, "PrimeCount"@) == a.prime_count
        &&& a.total_frame_num is Some ==> properties::integer_of(records, "TotalFrameNum"@)
            == a.total_frame_num
    }
}

/// The change that an edit makes to a property, if any.
pub open spec fn change_of(edit: TextureEditorEdit, field: Field) -> Option<Change> {
    match field {
        Field::Alpha => flag_change(edit.alpha),
        Field::Masked => flag_change(edit.masked),
        Field::UClamp => match edit.clamp {
            Some(TextureClampEdit { u_clamp: Some(v), .. }) => Some(Change::Clamp(v)),
            _ => None,
        },
        Field::VClamp => match edit.clamp {
            Some(TextureClampEdit { v_clamp: Some(v), .. }) => Some(Change::Clamp(v)),
            _ => None,
        },
        Field::UClampMode => match edit.clamp {
            Some(TextureClampEdit { u_clamp_mode: Some(v), .. }) => Some(Change::ClampMode(v)),
            _ => None,
        },
        Field::VClampMode => match edit.clamp {
            Some(TextureClampEdit { v_clamp_mode: Some(v), .. }) => Some(Change::ClampMode(v)),
            _ => None,
        },
        Field::Split9 => match edit.split9 {
            Some(s) => Some(Change::Flag(s.enabled)),
            None => None,
        },
        Field::Split9X1 => part_change(edit.split9, |s: Split9Edit| s.x1),
        Field::Split9X2 => part_change(edit.split9, |s: Split9Edit| s.x2),
        Field::Split9X3 => part_change(edit.split9, |s: Split9Edit| s.x3),
        Field::Split9Y1 => part_change(edit.split9, |s: Split9Edit| s.y1),
        Field::Split9Y2 => part_change(edit.split9, |s: Split9Edit| s.y2),
        Field::Split9Y3 => part_change(edit.split9, |s: Split9Edit| s.y3),
        Field::AnimNext => match edit.animation {
            Some(TextureAnimationEdit { anim_next: Some(v), .. }) => Some(Change::Reference(v)),
            _ => None,
        },
        Field::MaxFrameRate => match edit.animation {
            Some(TextureAnimationEdit { max_frame_rate: Some(v), .. }) => Some(Change::Rate(v)),
            _ => None,
        },
        Field::MinFrameRate => match edit.animation {
            Some(TextureAnimationEdit { min_frame_rate: Some(v), .. }) => Some(Change::Rate(v)),
            _ => None,
        },
        Field::OneTimeAnimLoop => match edit.animation {
            Some(a) => flag_change(a.one_time_anim_loop),
            None => None,
        },
        Field::PrimeCount => match edit.animation {
            Some(TextureAnimationEdit { prime_count: Some(v), .. }) => Some(Change::Count(v)),
            _ => None,
        },
        Field::TotalFrameNum => match edit.animation {
            Some(TextureAnimationEdit { total_frame_num: Some(v), .. }) => Some(Change::Number(v)),
            _ => None,
        },
    }
}

pub open spec fn flag_change(value: Option<bool>) -> Option<Change> {
    match value {
        Some(v) => Some(Change::Flag(v)),
        None => None,
    }
}

pub open spec fn part_change(
    split9: Option<Split9Edit>,
    part: spec_fn(Split9Edit) -> i32,
) -> Option<Change> {
    match split9 {
        Some(s) => if s.enabled {
            Some(Change::Number(part(s)))
        } else {
            None
        },
        None => None,
    }
}

proof fn joined_contain(a: Seq<Step>, b: Seq<Step>, x: Step)
    ensures
        (a + b).contains(x) == (a.contains(x) || b.contains(x)),
{
    if a.contains(x) {
        let i = choose|i: int| 0 <= i < a.len() && a[i] == x;
        assert((a + b)[i] == x);
    }
    if b.contains(x) {
        let i = choose|i: int| 0 <= i < b.len() && b[i] == x;
        assert((a + b)[a.len() + i] == x);
    }
    if (a + b).contains(x) {
        let i = choose|i: int| 0 <= i < (a + b).len() && (a + b)[i] == x;
        if i < a.len() {
            assert(a[i] == x);
        } else {
            assert(b[i - a.len()] == x);
        }
    }
}

proof fn one_contains(one: Step, x: Step)
    ensures
        seq![one].contains(x) == (one == x),
        !Seq::<Step>::empty().contains(x),
{
    assert(seq![one][0] == one);
}

proof fn flags_contain(field: Field, value: Option<bool>, x: Step)
    ensures
        properties::flag_steps(field, value).contains(x) == (x.field == field && Some(x.change) == flag_change(value)),
{
    if let Some(v) = value {
        one_contains(Step { field, change: Change::Flag(v) }, x);
    }
}

proof fn clamps_contain(edit: TextureEditorEdit, x: Step)
    ensures
        properties::clamp_steps(edit.clamp).contains(x) == ((x.field == Field::UClamp || x.field
            == Field::VClamp || x.field == Field::UClampMode || x.field == Field::VClampMode)
            && Some(x.change) == change_of(edit, x.field)),
{
    if let Some(c) = edit.clamp {
        let a = match c.u_clamp {
            Some(v) => seq![Step { field: Field::UClamp, change: Change::Clamp(v) }],
            None => Seq::empty(),
        };
        let b = match c.v_clamp {
            Some(v) => seq![Step { field: Field::VClamp, change: Change::Clamp(v) }],
            None => Seq::empty(),
        };
        let e = match c.u_clamp_mode {
            Some(v) => seq![Step { field: Field::UClampMode, change: Change::ClampMode(v) }],
            None => Seq::empty(),
        };
        let f = match c.v_clamp_mode {
            Some(v) => seq![Step { field: Field::VClampMode, change: Change::ClampMode(v) }],
            None => Seq::empty(),
        };
        joined_contain(a, b, x);
        joined_contain(a + b, e, x);
        joined_contain(a + b + e, f, x);
        if let Some(v) = c.u_clamp {
            one_contains(a[0], x);
        }
        if let Some(v) = c.v_clamp {
            one_contains(b[0], x);
        }
        if let Some(v) = c.u_clamp_mode {
            one_contains(e[0], x);
        }
        if let Some(v) = c.v_clamp_mode {
            one_contains(f[0], x);
        }
    }
}

pub open spec fn is_split9_field(field: Field) -> bool {
    field == Field::Split9 || field == Field::Split9X1 || field == Field::Split9X2 || field
        == Field::Split9X3 || field == Field::Split9Y1 || field == Field::Split9Y2 || field
        == Field::Split9Y3
}

proof fn parts_contain(edit: TextureEditorEdit, x: Step)
    ensures
        properties::split9_steps(edit.split9).contains(x) == (is_split9_field(x.field) && Some(x.change)
            == change_of(edit, x.field)),
{
    if let Some(s) = edit.split9 {
        let steps = properties::split9_steps(edit.split9);
        if s.enabled {
            assert(steps.len() == 7);
            assert(steps[0] == (Step { field: Field::Split9, change: Change::Flag(true) }));
            assert(steps[1] == (Step { field: Field::Split9X1, change: Change::Number(s.x1) }));
            assert(steps[2] == (Step { field: Field::Split9X2, change: Change::Number(s.x2) }));
            assert(steps[3] == (Step { field: Field::Split9X3, change: Change::Number(s.x3) }));
            assert(steps[4] == (Step { field: Field::Split9Y1, change: Change::Number(s.y1) }));
            assert(steps[5] == (Step { field: Field::Split9Y2, change: Change::Number(s.y2) }));
            assert(steps[6] == (Step { field: Field::Split9Y3, change: Change::Number(s.y3) }));
        } else {
            one_contains(Step { field: Field::Split9, change: Change::Flag(false) }, x);
        }
    }
}

pub open spec fn is_animation_field(field: Field) -> bool {
    field == Field::AnimNext || field == Field::MaxFrameRate || field == Field::MinFrameRate
        || field == Field::OneTimeAnimLoop || field == Field::PrimeCount || field
        == Field::TotalFrameNum
}

#[verifier::spinoff_prover]
#[verifier::rlimit(40)]
proof fn frames_contain(edit: TextureEditorEdit, x: Step)
    ensures
        properties::animation_steps(edit.animation).contains(x) == (is_animation_field(x.field) && Some(
            x.change,
        ) == change_of(edit, x.field)),
{
    if let Some(a) = edit.animation {
        let next = match a.anim_next {
            Some(v) => seq![Step { field: Field::AnimNext, change: Change::Reference(v) }],
            None => Seq::empty(),
        };
        let most = match a.max_frame_rate {
            Some(v) => seq![Step { field: Field::MaxFrameRate, change: Change::Rate(v) }],
            None => Seq::empty(),
        };
        let least = match a.min_frame_rate {
            Some(v) => seq![Step { field: Field::MinFrameRate, change: Change::Rate(v) }],
            None => Seq::empty(),
        };
        let once = properties::flag_steps(Field::OneTimeAnimLoop, a.one_time_anim_loop);
        let prime = match a.prime_count {
            Some(v) => seq![Step { field: Field::PrimeCount, change: Change::Count(v) }],
            None => Seq::empty(),
        };
        let total = match a.total_frame_num {
            Some(v) => seq![Step { field: Field::TotalFrameNum, change: Change::Number(v) }],
            None => Seq::empty(),
        };
        joined_contain(next, most, x);
        joined_contain(next + most, least, x);
        joined_contain(next + most + least, once, x);
        joined_contain(next + most + least + once, prime, x);
        joined_contain(next + most + least + once + prime, total, x);
        flags_contain(Field::OneTimeAnimLoop, a.one_time_anim_loop, x);
        if a.anim_next is Some {
            one_contains(next[0], x);
        }
        if a.max_frame_rate is Some {
            one_contains(most[0], x);
        }
        if a.min_frame_rate is Some {
            one_contains(least[0], x);
        }
        if a.prime_count is Some {
            one_contains(prime[0], x);
        }
        if a.total_frame_num is Some {
            one_contains(total[0], x);
        }
    }
}

/// The steps of an edit are the changes of its fields.
proof fn steps_are_changes(edit: TextureEditorEdit, x: Step)
    ensures
        properties::steps_of(edit).contains(x) == (Some(x.change) == change_of(edit, x.field)),
{
    let a = properties::flag_steps(Field::Alpha, edit.alpha);
    let b = properties::flag_steps(Field::Masked, edit.masked);
    let c = properties::clamp_steps(edit.clamp);
    let f = properties::split9_steps(edit.split9);
    let g = properties::animation_steps(edit.animation);
    joined_contain(a, b, x);
    joined_contain(a + b, c, x);
    joined_contain(a + b + c, f, x);
    joined_contain(a + b + c + f, g, x);
    flags_contain(Field::Alpha, edit.alpha, x);
    flags_contain(Field::Masked, edit.masked, x);
    clamps_contain(edit, x);
    parts_contain(edit, x);
    frames_contain(edit, x);
}

/// A step that a list shows is in it.
proof fn given_is_shown(
    records: Seq<RecordModel>,
    edit: TextureEditorEdit,
    field: Field,
)
    requires
        forall|k: int|
            0 <= k < properties::steps_of(edit).len() ==> in_place_laws::shows_in_place(
                records,
                #[trigger] properties::steps_of(edit)[k],
            ),
    ensures
        change_of(edit, field) matches Some(change) ==> in_place_laws::shows_in_place(
            records,
            Step { field, change },
        ),
{
    if let Some(change) = change_of(edit, field) {
        let x = Step { field, change };
        steps_are_changes(edit, x);
        let k = choose|k: int| 0 <= k < properties::steps_of(edit).len() && properties::steps_of(edit)[k] == x;
        assert(in_place_laws::shows_in_place(records, properties::steps_of(edit)[k]));
    }
}

proof fn given_is_found(
    records: Seq<RecordModel>,
    edit: TextureEditorEdit,
    field: Field,
)
    requires
        forall|k: int|
            0 <= k < properties::steps_of(edit).len() ==> property_laws::shows(
                records,
                #[trigger] properties::steps_of(edit)[k],
            ),
    ensures
        change_of(edit, field) matches Some(change) ==> property_laws::shows(
            records,
            Step { field, change },
        ),
{
    if let Some(change) = change_of(edit, field) {
        let x = Step { field, change };
        steps_are_changes(edit, x);
        let k = choose|k: int| 0 <= k < properties::steps_of(edit).len() && properties::steps_of(edit)[k] == x;
        assert(property_laws::shows(records, properties::steps_of(edit)[k]));
    }
}

/// What an edit gives no value for is not in its steps.
proof fn others_are_not_named(edit: TextureEditorEdit, field: Field)
    requires
        change_of(edit, field) is None,
    ensures
        property_laws::not_named(
            properties::steps_of(edit),
            properties::steps_of(edit).len() as int,
            properties::field_name(field),
        ),
{
    let steps = properties::steps_of(edit);
    assert forall|k: int| 0 <= k < steps.len() implies !text::same_folded(
        properties::field_name(field),
        properties::field_name(#[trigger] steps[k].field),
    ) by {
        let x = steps[k];
        assert(steps.contains(x));
        steps_are_changes(edit, x);
        property_laws::field_names_differ(field, x.field);
    }
}

/// A list that shows the steps of an edit has its values under their names.
#[verifier::spinoff_prover]
pub proof fn shown_in_place_is_stored(records: Seq<RecordModel>, edit: TextureEditorEdit)
    requires
        forall|k: int|
            0 <= k < properties::steps_of(edit).len() ==> in_place_laws::shows_in_place(
                records,
                #[trigger] properties::steps_of(edit)[k],
            ),
    ensures
        has_stored(edit, records),
{
    given_is_shown(records, edit, Field::Alpha);
    given_is_shown(records, edit, Field::Masked);
    given_is_shown(records, edit, Field::UClamp);
    given_is_shown(records, edit, Field::VClamp);
    given_is_shown(records, edit, Field::UClampMode);
    given_is_shown(records, edit, Field::VClampMode);
    given_is_shown(records, edit, Field::Split9);
    given_is_shown(records, edit, Field::Split9X1);
    given_is_shown(records, edit, Field::Split9X2);
    given_is_shown(records, edit, Field::Split9X3);
    given_is_shown(records, edit, Field::Split9Y1);
    given_is_shown(records, edit, Field::Split9Y2);
    given_is_shown(records, edit, Field::Split9Y3);
    given_is_shown(records, edit, Field::AnimNext);
    given_is_shown(records, edit, Field::MaxFrameRate);
    given_is_shown(records, edit, Field::MinFrameRate);
    given_is_shown(records, edit, Field::OneTimeAnimLoop);
    given_is_shown(records, edit, Field::PrimeCount);
    given_is_shown(records, edit, Field::TotalFrameNum);
}

/// A list that shows the steps of an edit has its values, and the editor shows them.
#[verifier::spinoff_prover]
pub proof fn shown_is_given(records: Seq<RecordModel>, edit: TextureEditorEdit)
    requires
        forall|k: int|
            0 <= k < properties::steps_of(edit).len() ==> property_laws::shows(
                records,
                #[trigger] properties::steps_of(edit)[k],
            ),
    ensures
        has_stored(edit, records),
        has_given(edit, properties::state_of(records)),
{
    given_is_found(records, edit, Field::Alpha);
    given_is_found(records, edit, Field::Masked);
    given_is_found(records, edit, Field::UClamp);
    given_is_found(records, edit, Field::VClamp);
    given_is_found(records, edit, Field::UClampMode);
    given_is_found(records, edit, Field::VClampMode);
    given_is_found(records, edit, Field::Split9);
    given_is_found(records, edit, Field::Split9X1);
    given_is_found(records, edit, Field::Split9X2);
    given_is_found(records, edit, Field::Split9X3);
    given_is_found(records, edit, Field::Split9Y1);
    given_is_found(records, edit, Field::Split9Y2);
    given_is_found(records, edit, Field::Split9Y3);
    given_is_found(records, edit, Field::AnimNext);
    given_is_found(records, edit, Field::MaxFrameRate);
    given_is_found(records, edit, Field::MinFrameRate);
    given_is_found(records, edit, Field::OneTimeAnimLoop);
    given_is_found(records, edit, Field::PrimeCount);
    given_is_found(records, edit, Field::TotalFrameNum);
}

proof fn other_is_kept(
    before: Seq<RecordModel>,
    records: Seq<RecordModel>,
    edit: TextureEditorEdit,
    field: Field,
)
    requires
        import_laws::shows_edit(records, before, edit),
    ensures
        change_of(edit, field) is None ==> properties::value_of(records, properties::field_name(field)) == properties::value_of(
            before,
            properties::field_name(field),
        ),
{
    if change_of(edit, field) is None {
        others_are_not_named(edit, field);
    }
}

/// A list that shows an edit, and the values of another for the rest, has the other's
/// values for all that the edit does not give.
#[verifier::spinoff_prover]
pub proof fn others_are_kept(
    before: Seq<RecordModel>,
    records: Seq<RecordModel>,
    edit: TextureEditorEdit,
)
    requires
        import_laws::shows_edit(records, before, edit),
    ensures
        keeps_others_of(edit, properties::state_of(before), properties::state_of(records)),
{
    other_is_kept(before, records, edit, Field::Alpha);
    other_is_kept(before, records, edit, Field::Masked);
    other_is_kept(before, records, edit, Field::UClamp);
    other_is_kept(before, records, edit, Field::VClamp);
    other_is_kept(before, records, edit, Field::UClampMode);
    other_is_kept(before, records, edit, Field::VClampMode);
    other_is_kept(before, records, edit, Field::Split9);
    other_is_kept(before, records, edit, Field::Split9X1);
    other_is_kept(before, records, edit, Field::Split9X2);
    other_is_kept(before, records, edit, Field::Split9X3);
    other_is_kept(before, records, edit, Field::Split9Y1);
    other_is_kept(before, records, edit, Field::Split9Y2);
    other_is_kept(before, records, edit, Field::Split9Y3);
    other_is_kept(before, records, edit, Field::AnimNext);
    other_is_kept(before, records, edit, Field::MaxFrameRate);
    other_is_kept(before, records, edit, Field::MinFrameRate);
    other_is_kept(before, records, edit, Field::OneTimeAnimLoop);
    other_is_kept(before, records, edit, Field::PrimeCount);
    other_is_kept(before, records, edit, Field::TotalFrameNum);
}

proof fn edited_lists_are_read(p: PackageModel, index: usize, edit: TextureEditorEdit)
    requires
        edits::edited(p, seq![(index, edit)]) is Ok,
    ensures
        index < p.exports.len(),
        package::data_of(Dialect::Engine, p.data, p.exports[index as int]) matches Ok(raw)
            && properties::stream_from(raw, p.names, 0) is Ok,
{
    let list = seq![(index, edit)];
    reveal(edits::edited);
    reveal(edits::rewritten_texture);
    reveal_with_fuel(edits::rewritten_textures, 2);
    assert(edits::rewritten_textures(p, list, 1) is Ok);
    assert(edits::rewritten_textures(p, list, 0) is Ok);
    assert(list[0] == (index, edit));
    assert(PackageModel { names: p.names, ..p } == p);
}

/// After an edit the editor shows the value of the edit in every field that it gives,
/// and in every other field what it showed before.
#[verifier::spinoff_prover]
#[verifier::rlimit(40)]
pub proof fn edited_states_are_the_edit(d: Seq<u8>, index: usize, edit: TextureEditorEdit)
    requires
        d.len() <= usize::MAX,
        texture_engine::edited_file(d, index, edit) matches Ok(written) && written.len()
            <= usize::MAX,
    ensures
        ({
            let written = texture_engine::edited_file(d, index, edit)->Ok_0;
            &&& !gives_nothing(edit) ==> texture_engine::state_in_file(d, index as int) is Ok
            &&& texture_engine::state_in_file(d, index as int) matches Ok(before) ==> {
                &&& texture_engine::state_in_file(written, index as int) matches Ok(after)
                &&& has_given(edit, after)
                &&& keeps_others_of(edit, before, after)
                &&& package::package_of(Dialect::Engine, written) matches Ok(q)
                &&& batch_edit_laws::list_of(q, index as int) matches Some(records)
                &&& has_stored(edit, records)
            }
        }),
{
    let i = index as int;
    let written = texture_engine::edited_file(d, index, edit)->Ok_0;
    let p = package::package_of(Dialect::Engine, d)->Ok_0;
    reveal(texture_engine::edited_file);
    edits_without_steps(edit);
    if properties::steps_of(edit).len() > 0 {
        edited_lists_are_read(p, index, edit);
        package_laws::written_packages_show_edits(d, index, edit);
        let q = package::package_of(Dialect::Engine, written)->Ok_0;
        let bytes = package::data_of(Dialect::Engine, written, q.exports[i])->Ok_0;
        let raw = package::data_of(Dialect::Engine, p.data, p.exports[i])->Ok_0;
        let stream = properties::stream_from(bytes, q.names, 0)->Ok_0;
        let before = properties::stream_from(raw, p.names, 0)->Ok_0;
        shown_is_given(stream.properties, edit);
        others_are_kept(before.properties, stream.properties, edit);
    } else if texture_engine::state_in_file(d, i) is Ok {
        let raw = package::data_of(Dialect::Engine, p.data, p.exports[i])->Ok_0;
        let before = properties::stream_from(raw, p.names, 0)->Ok_0;
        package_laws::read_packages_are_storable(d);
        shown_is_given(before.properties, edit);
        others_are_kept(before.properties, before.properties, edit);
    }
}

/// Whether an edit gives what a request for a texture asks for.
pub open spec fn is_edit_for(edit: TextureEditorEdit, request: RequestModel) -> bool {
    &&& edit.alpha == request.alpha
    &&& edit.masked == request.masked
    &&& edit.clamp == request.clamp
    &&& edit.split9 == request.split9
    &&& (edit.animation is Some) == (request.animation is Some)
    &&& request.animation matches Some(a) ==> {
        let given = edit.animation->0;
        &&& (given.anim_next is Some) == (a.anim_next is Some)
        &&& given.max_frame_rate == a.max_frame_rate
        &&& given.min_frame_rate == a.min_frame_rate
        &&& given.one_time_anim_loop == a.one_time_anim_loop
        &&& given.prime_count == a.prime_count
        &&& given.total_frame_num == a.total_frame_num
    }
}

/// Whether a request for a texture asks for no property.
pub open spec fn asks_nothing(request: RequestModel) -> bool {
    &&& request.alpha is None
    &&& request.masked is None
    &&& request.clamp matches Some(c) ==> c.u_clamp is None && c.v_clamp is None
        && c.u_clamp_mode is None && c.v_clamp_mode is None
    &&& request.split9 is None
    &&& request.animation matches Some(a) ==> a.anim_next is None && a.max_frame_rate is None
        && a.min_frame_rate is None && a.one_time_anim_loop is None && a.prime_count is None
        && a.total_frame_num is None
}

/// Whether an edit gives no value.
pub open spec fn gives_nothing(edit: TextureEditorEdit) -> bool {
    &&& edit.alpha is None
    &&& edit.masked is None
    &&& edit.clamp matches Some(c) ==> c.u_clamp is None && c.v_clamp is None
        && c.u_clamp_mode is None && c.v_clamp_mode is None
    &&& edit.split9 is None
    &&& edit.animation matches Some(a) ==> a.anim_next is None && a.max_frame_rate is None
        && a.min_frame_rate is None && a.one_time_anim_loop is None && a.prime_count is None
        && a.total_frame_num is None
}

proof fn given_makes_a_step(edit: TextureEditorEdit, field: Field)
    ensures
        change_of(edit, field) is Some ==> properties::steps_of(edit).len() > 0,
{
    if let Some(change) = change_of(edit, field) {
        steps_are_changes(edit, Step { field, change });
    }
}

/// Only an edit that gives nothing has no steps.
#[verifier::spinoff_prover]
pub proof fn edits_without_steps(edit: TextureEditorEdit)
    ensures
        (properties::steps_of(edit).len() == 0) == gives_nothing(edit),
{
    let steps = properties::steps_of(edit);
    if steps.len() > 0 {
        assert(steps.contains(steps[0]));
        steps_are_changes(edit, steps[0]);
    }
    given_makes_a_step(edit, Field::Alpha);
    given_makes_a_step(edit, Field::Masked);
    given_makes_a_step(edit, Field::UClamp);
    given_makes_a_step(edit, Field::VClamp);
    given_makes_a_step(edit, Field::UClampMode);
    given_makes_a_step(edit, Field::VClampMode);
    given_makes_a_step(edit, Field::Split9);
    given_makes_a_step(edit, Field::AnimNext);
    given_makes_a_step(edit, Field::MaxFrameRate);
    given_makes_a_step(edit, Field::MinFrameRate);
    given_makes_a_step(edit, Field::OneTimeAnimLoop);
    given_makes_a_step(edit, Field::PrimeCount);
    given_makes_a_step(edit, Field::TotalFrameNum);
}

/// A request for a texture becomes the edit of what it asks for; only one that asks for
/// nothing becomes none.
#[verifier::spinoff_prover]
#[verifier::rlimit(40)]
pub proof fn requests_become_edits(p: PackageModel, request: RequestModel, index: int)
    ensures
        edits::import_edit_of(p, request, index) matches Ok(wanted) ==> {
            &&& (wanted is None) == asks_nothing(request)
            &&& wanted matches Some(edit) ==> is_edit_for(edit, request)
            &&& wanted matches Some(edit) ==> (request.animation matches Some(a) ==> (
            a.anim_next matches Some(path) ==> edit.animation->0.anim_next == Some(
                tables::resolved(p, index, path)->Ok_0,
            )))
        },
{
    if let Ok(edit) = edits::edit_of(p, request, index) {
        edits_without_steps(edit);
    }
}

/// A texture that is added to a package shows, when the written file is read, what the
/// request for it asks for.
#[verifier::spinoff_prover]
#[verifier::rlimit(40)]
pub proof fn added_states_are_the_request(
    d: Seq<u8>,
    template: Seq<u8>,
    group: Seq<char>,
    requests: Seq<RequestModel>,
    i: int,
)
    requires
        0 <= i < requests.len(),
        d.len() <= usize::MAX,
        template.len() <= usize::MAX,
        texture_engine::added_to_file(d, template, group, requests) matches Ok((after, _))
            && after.data.len() <= usize::MAX,
        package::package_of(Dialect::Engine, d)->Ok_0.exports.len() + requests.len() < usize::MAX,
        !asks_nothing(requests[i]),
    ensures
        ({
            let p = package::package_of(Dialect::Engine, d)->Ok_0;
            let t = package::package_of(Dialect::Engine, template)->Ok_0;
            let (after, outcomes) = texture_engine::added_to_file(
                d,
                template,
                group,
                requests,
            )->Ok_0;
            let index = outcomes[i].export_index as int;
            &&& package::package_of(Dialect::Engine, after.data) matches Ok(q)
            &&& batch_edit_laws::list_of(q, index) matches Some(records)
            &&& exists|edit: TextureEditorEdit| #[trigger]
                is_edit_for(edit, requests[i]) && has_stored(edit, records) && has_given(
                    edit,
                    properties::state_of(records),
                )
            &&& (adding::compatible(p, t) ==> import_laws::classes_are_imported(t))
                ==> texture_engine::state_in_file(after.data, index) == Ok::<
                TextureEditorState,
                Seq<char>,
            >(properties::state_of(records))
        }),
{
    import_laws::imported_properties_are_read_back(d, template, group, requests, i);
    let p = package::package_of(Dialect::Engine, d)->Ok_0;
    let t = package::package_of(Dialect::Engine, template)->Ok_0;
    let (after, outcomes) = texture_engine::added_to_file(d, template, group, requests)->Ok_0;
    let index = outcomes[i].export_index as int;
    let (built, _) = adding::built_with(p, t, group, requests)->Ok_0;
    requests_become_edits(built, requests[i], index);
    let edit = edits::import_edit_of(built, requests[i], index)->Ok_0->0;
    let q = package::package_of(Dialect::Engine, after.data)->Ok_0;
    let records = batch_edit_laws::list_of(q, index)->0;
    shown_is_given(records, edit);
    assert(is_edit_for(edit, requests[i]));
}

/// Each of several textures that are replaced at once has the values that the request for
/// it asks for.
pub proof fn replaced_lists_are_the_request(
    p: PackageModel,
    replacements: Seq<texture_engine::ReplacementModel>,
    k: int,
)
    requires
        p.data.len() <= usize::MAX,
        0 <= k < replacements.len(),
        forall|i: int|
            k < i < replacements.len() ==> (#[trigger] replacements[i]).index
                != replacements[k].index,
        replacement_laws::has_list(p, replacements[k].index as int),
        replacement_laws::stands_alone(
            p.exports,
            replacement_laws::targets_of(replacements),
            replacements[k].index as int,
        ),
        texture_engine::replaced_all(p, replacements) is Ok,
        !asks_nothing(replacements[k].request),
    ensures
        ({
            let (after, _) = texture_engine::replaced_all(p, replacements)->Ok_0;
            let request = replacements[k].request;
            &&& batch_edit_laws::list_of(after, replacements[k].index as int) matches Some(records)
            &&& exists|edit: TextureEditorEdit| #[trigger]
                is_edit_for(edit, request) && has_stored(edit, records)
        }),
{
    replacement_laws::replaced_textures_hold_their_images(p, replacements, k);
    let (after, _) = texture_engine::replaced_all(p, replacements)->Ok_0;
    let index = replacements[k].index as int;
    let request = replacements[k].request;
    requests_become_edits(p, request, index);
    let edit = edits::import_edit_of(p, request, index)->Ok_0->0;
    let records = batch_edit_laws::list_of(after, index)->0;
    shown_in_place_is_stored(records, edit);
    assert(is_edit_for(edit, request));
}

/// After several edits of a file every texture has the values of the last edit about it,
/// and the editor shows them.
pub proof fn edited_lists_are_the_last_edit(
    d: Seq<u8>,
    edits: Seq<(usize, TextureEditorEdit)>,
    n: nat,
    j: int,
)
    requires
        d.len() <= usize::MAX,
        0 <= j < n <= edits.len(),
        forall|i: int| j < i < n ==> (#[trigger] edits[i]).0 != edits[j].0,
        package::package_of(Dialect::Engine, d) is Ok,
        texture_engine::edited_files(d, edits, n) matches Ok(written) && written.len()
            <= usize::MAX,
        edits[j].0 < package::package_of(Dialect::Engine, d)->Ok_0.exports.len(),
        package_laws::stands_behind_header(
            package::package_of(Dialect::Engine, d)->Ok_0.exports[edits[j].0 as int],
        ),
        batch_edit_laws::list_of(
            package::package_of(Dialect::Engine, d)->Ok_0,
            edits[j].0 as int,
        ) is Some,
    ensures
        ({
            let written = texture_engine::edited_files(d, edits, n)->Ok_0;
            &&& package::package_of(Dialect::Engine, written) matches Ok(q)
            &&& batch_edit_laws::list_of(q, edits[j].0 as int) matches Some(records)
            &&& has_stored(edits[j].1, records)
            &&& has_given(edits[j].1, properties::state_of(records))
        }),
{
    let index = edits[j].0 as int;
    let written = texture_engine::edited_files(d, edits, n)->Ok_0;
    batch_edit_laws::all_edits_of_a_file_show(d, edits, n, index);
    reveal(batch_edit_laws::edits_leave);
    last_is(edits, n, j);
    let q = package::package_of(Dialect::Engine, written)->Ok_0;
    shown_is_given(batch_edit_laws::list_of(q, index)->0, edits[j].1);
}

proof fn last_is(edits: Seq<(usize, TextureEditorEdit)>, n: nat, j: int)
    requires
        0 <= j < n <= edits.len(),
        forall|i: int| j < i < n ==> (#[trigger] edits[i]).0 != edits[j].0,
    ensures
        replacement_laws::last_edit(edits, n, edits[j].0 as int) == Some(j),
    decreases n,
{
    if j < n - 1 {
        last_is(edits, (n - 1) as nat, j);
    }
}

/// The edit of one value of the clamp or of the animation.
proof fn single_steps(clamp: TextureClampEdit, animation: TextureAnimationEdit)
    ensures
        ({
            let none = TextureEditorEdit {
                alpha: None,
                masked: None,
                clamp: None,
                split9: None,
                animation: None,
            };
            let c = properties::steps_of(TextureEditorEdit { clamp: Some(clamp), ..none });
            let a = properties::steps_of(TextureEditorEdit { animation: Some(animation), ..none });
            &&& c == properties::clamp_steps(Some(clamp))
            &&& a == properties::animation_steps(Some(animation))
        }),
{
    let none = TextureEditorEdit {
        alpha: None,
        masked: None,
        clamp: None,
        split9: None,
        animation: None,
    };
    assert(properties::steps_of(TextureEditorEdit { clamp: Some(clamp), ..none })
        =~= properties::clamp_steps(Some(clamp)));
    assert(properties::steps_of(TextureEditorEdit { animation: Some(animation), ..none })
        =~= properties::animation_steps(Some(animation)));
}

/// A clamp that a texture did not have is stored as an integer of four bytes, and the mode
/// of a clamp as a byte, which must fit.
#[verifier::spinoff_prover]
pub proof fn new_clamps_have_their_type(
    names: Seq<NameModel>,
    records: Seq<RecordModel>,
    v: i32,
)
    requires
        properties::value_of(records, "UClamp"@) is None,
        properties::value_of(records, "VClamp"@) is None,
        properties::value_of(records, "UClampMode"@) is None,
        properties::value_of(records, "VClampMode"@) is None,
    ensures
        ({
            let none = TextureClampEdit {
                u_clamp: None,
                v_clamp: None,
                u_clamp_mode: None,
                v_clamp_mode: None,
            };
            let with = |clamp: TextureClampEdit|
                properties::with_edit(
                    names,
                    records,
                    TextureEditorEdit {
                        alpha: None,
                        masked: None,
                        clamp: Some(clamp),
                        split9: None,
                        animation: None,
                    },
                );
            &&& with(TextureClampEdit { u_clamp: Some(v), ..none }) matches Ok((_, r))
                ==> is_appended(r, records, "UClamp"@, PropertyValue::Int(v))
            &&& with(TextureClampEdit { v_clamp: Some(v), ..none }) matches Ok((_, r))
                ==> is_appended(r, records, "VClamp"@, PropertyValue::Int(v))
            &&& with(TextureClampEdit { u_clamp_mode: Some(v), ..none }) matches Ok((_, r)) ==> 0
                <= v <= 255 && is_appended(r, records, "UClampMode"@, PropertyValue::Byte(v as u8))
            &&& with(TextureClampEdit { v_clamp_mode: Some(v), ..none }) matches Ok((_, r)) ==> 0
                <= v <= 255 && is_appended(r, records, "VClampMode"@, PropertyValue::Byte(v as u8))
        }),
{
    let none = TextureClampEdit {
        u_clamp: None,
        v_clamp: None,
        u_clamp_mode: None,
        v_clamp_mode: None,
    };
    let still = TextureAnimationEdit {
        anim_next: None,
        max_frame_rate: None,
        min_frame_rate: None,
        one_time_anim_loop: None,
        prime_count: None,
        total_frame_num: None,
    };
    let a = TextureClampEdit { u_clamp: Some(v), ..none };
    let b = TextureClampEdit { v_clamp: Some(v), ..none };
    let c = TextureClampEdit { u_clamp_mode: Some(v), ..none };
    let d = TextureClampEdit { v_clamp_mode: Some(v), ..none };
    single_steps(a, still);
    single_steps(b, still);
    single_steps(c, still);
    single_steps(d, still);
    assert(properties::clamp_steps(Some(a))
        =~= seq![Step { field: Field::UClamp, change: Change::Clamp(v) }]);
    assert(properties::clamp_steps(Some(b))
        =~= seq![Step { field: Field::VClamp, change: Change::Clamp(v) }]);
    assert(properties::clamp_steps(Some(c))
        =~= seq![Step { field: Field::UClampMode, change: Change::ClampMode(v) }]);
    assert(properties::clamp_steps(Some(d))
        =~= seq![Step { field: Field::VClampMode, change: Change::ClampMode(v) }]);
    reveal_with_fuel(properties::with_steps, 2);
}

/// Whether records are others with one more behind them: of this name, with this value.
pub open spec fn is_appended(
    after: Seq<RecordModel>,
    records: Seq<RecordModel>,
    name: Seq<char>,
    value: PropertyValue,
) -> bool {
    &&& after.len() == records.len() + 1
    &&& after.take(records.len() as int) =~= records
    &&& after.last().name == name
    &&& after.last().replacement == Some(value)
}

/// A number of frames beyond a byte is refused, and so is a frame rate that is no finite
/// number; every other value of an animation is taken.
#[verifier::spinoff_prover]
pub proof fn odd_animations_are_refused(
    names: Seq<NameModel>,
    records: Seq<RecordModel>,
    count: i32,
    rate: u32,
)
    ensures
        ({
            let none = TextureAnimationEdit {
                anim_next: None,
                max_frame_rate: None,
                min_frame_rate: None,
                one_time_anim_loop: None,
                prime_count: None,
                total_frame_num: None,
            };
            let with = |animation: TextureAnimationEdit|
                properties::with_edit(
                    names,
                    records,
                    TextureEditorEdit {
                        alpha: None,
                        masked: None,
                        clamp: None,
                        split9: None,
                        animation: Some(animation),
                    },
                );
            &&& !(0 <= count <= 255) ==> with(
                TextureAnimationEdit { prime_count: Some(count), ..none },
            ) is Err
            &&& rate / 8388608 % 256 == 255 ==> with(
                TextureAnimationEdit { max_frame_rate: Some(rate), ..none },
            ) is Err && with(TextureAnimationEdit { min_frame_rate: Some(rate), ..none }) is Err
            &&& 0 <= count <= 255 && properties::value_of(records, "PrimeCount"@) is Some ==> with(
                TextureAnimationEdit { prime_count: Some(count), ..none },
            ) is Ok
            &&& rate / 8388608 % 256 != 255 && properties::value_of(records, "MaxFrameRate"@) is Some
                ==> with(TextureAnimationEdit { max_frame_rate: Some(rate), ..none }) is Ok
            &&& rate / 8388608 % 256 != 255 && properties::value_of(records, "MinFrameRate"@) is Some
                ==> with(TextureAnimationEdit { min_frame_rate: Some(rate), ..none }) is Ok
        }),
{
    let none = TextureAnimationEdit {
        anim_next: None,
        max_frame_rate: None,
        min_frame_rate: None,
        one_time_anim_loop: None,
        prime_count: None,
        total_frame_num: None,
    };
    let still = TextureClampEdit {
        u_clamp: None,
        v_clamp: None,
        u_clamp_mode: None,
        v_clamp_mode: None,
    };
    let a = TextureAnimationEdit { prime_count: Some(count), ..none };
    let b = TextureAnimationEdit { max_frame_rate: Some(rate), ..none };
    let c = TextureAnimationEdit { min_frame_rate: Some(rate), ..none };
    single_steps(still, a);
    single_steps(still, b);
    single_steps(still, c);
    assert(properties::animation_steps(Some(a))
        =~= seq![Step { field: Field::PrimeCount, change: Change::Count(count) }]);
    assert(properties::animation_steps(Some(b))
        =~= seq![Step { field: Field::MaxFrameRate, change: Change::Rate(rate) }]);
    assert(properties::animation_steps(Some(c))
        =~= seq![Step { field: Field::MinFrameRate, change: Change::Rate(rate) }]);
    reveal_with_fuel(properties::with_steps, 2);
}

/// The editor shows what is stored under the names of the properties, in the types that
/// they have. A property that is not stored shows as nothing, and as zero if it is one of
/// the nine parts.
pub proof fn states_show_what_is_stored(records: Seq<RecordModel>)
    ensures
        ({
            let s = properties::state_of(records);
            let value = |name: Seq<char>| properties::value_of(records, name);
            &&& value("bAlphaTexture"@) matches Some(PropertyValue::Bool(v)) ==> s.alpha == Some(v)
            &&& value("bAlphaTexture"@) is None ==> s.alpha is None
            &&& value("bMasked"@) matches Some(PropertyValue::Bool(v)) ==> s.masked == Some(v)
            &&& value("bMasked"@) is None ==> s.masked is None
            &&& value("UClamp"@) matches Some(PropertyValue::Int(v)) ==> s.u_clamp == Some(v)
            &&& value("UClamp"@) is None ==> s.u_clamp is None
            &&& value("VClamp"@) matches Some(PropertyValue::Int(v)) ==> s.v_clamp == Some(v)
            &&& value("VClamp"@) is None ==> s.v_clamp is None
            &&& value("UClampMode"@) matches Some(PropertyValue::Byte(v)) ==> s.u_clamp_mode
                == Some(v as i32)
            &&& value("UClampMode"@) is None ==> s.u_clamp_mode is None
            &&& value("VClampMode"@) matches Some(PropertyValue::Byte(v)) ==> s.v_clamp_mode
                == Some(v as i32)
            &&& value("VClampMode"@) is None ==> s.v_clamp_mode is None
            &&& value("bSplit9Texture"@) matches Some(PropertyValue::Bool(v)) ==> s.split9 == Some(
                v,
            )
            &&& value("bSplit9Texture"@) is None ==> s.split9 is None
            &&& value("Split9X1"@) matches Some(PropertyValue::Int(v)) ==> s.split9_x1 == v
            &&& value("Split9X1"@) is None ==> s.split9_x1 == 0
            &&& value("Split9X2"@) matches Some(PropertyValue::Int(v)) ==> s.split9_x2 == v
            &&& value("Split9X2"@) is None ==> s.split9_x2 == 0
            &&& value("Split9X3"@) matches Some(PropertyValue::Int(v)) ==> s.split9_x3 == v
            &&& value("Split9X3"@) is None ==> s.split9_x3 == 0
            &&& value("Split9Y1"@) matches Some(PropertyValue::Int(v)) ==> s.split9_y1 == v
            &&& value("Split9Y1"@) is None ==> s.split9_y1 == 0
            &&& value("Split9Y2"@) matches Some(PropertyValue::Int(v)) ==> s.split9_y2 == v
            &&& value("Split9Y2"@) is None ==> s.split9_y2 == 0
            &&& value("Split9Y3"@) matches Some(PropertyValue::Int(v)) ==> s.split9_y3 == v
            &&& value("Split9Y3"@) is None ==> s.split9_y3 == 0
            &&& value("AnimNext"@) matches Some(PropertyValue::Object(v)) ==> s.animation.anim_next
                == Some(v)
            &&& value("AnimNext"@) is None ==> s.animation.anim_next is None
            &&& value("MaxFrameRate"@) matches Some(PropertyValue::Float(v))
                ==> s.animation.max_frame_rate == Some(v)
            &&& value("MaxFrameRate"@) is None ==> s.animation.max_frame_rate is None
            &&& value("MinFrameRate"@) matches Some(PropertyValue::Float(v))
                ==> s.animation.min_frame_rate == Some(v)
            &&& value("MinFrameRate"@) is None ==> s.animation.min_frame_rate is None
            &&& value("OneTimeAnimLoop"@) matches Some(PropertyValue::Bool(v))
                ==> s.animation.one_time_anim_loop == Some(v)
            &&& value("OneTimeAnimLoop"@) is None ==> s.animation.one_time_anim_loop is None
            &&& value("PrimeCount"@) matches Some(PropertyValue::Byte(v)) ==> s.animation.prime_count
                == Some(v as i32)
            &&& value("PrimeCount"@) is None ==> s.animation.prime_count is None
            &&& value("TotalFrameNum"@) matches Some(PropertyValue::Int(v))
                ==> s.animation.total_frame_num == Some(v)
            &&& value("TotalFrameNum"@) is None ==> s.animation.total_frame_num is None
        }),
{
}

/// The value of a property is that of the first record of its name, whatever the case of
/// its letters; the one that it was given goes before the one that was read.
pub proof fn values_are_those_of_the_first_record(
    records: Seq<RecordModel>,
    name: Seq<char>,
    i: int,
)
    requires
        0 <= i < records.len(),
        text::same_folded(records[i].name, name),
        forall|k: int| 0 <= k < i ==> !text::same_folded(#[trigger] records[k].name, name),
    ensures
        properties::value_of(records, name) == Some(
            match records[i].replacement {
                Some(value) => value,
                None => records[i].value,
            },
        ),
{
    properties::find_record_is_first(records, name, 0);
}

} // verus!
