//! What rewriting the animation or the nine parts of a texture stores.

use vstd::prelude::*;
use crate::appending::Split9Places;
use crate::edits::AnimationModel;
use crate::entries::{AnimationPropertyPresence, AnimationValues};
use crate::formats::UtxFormat;
use crate::layout::Split9;
use crate::names::NameModel;
use crate::package::PackageModel;
use crate::reader::{Dialect, TagModel};
use crate::animation;
use crate::appending;
use crate::bytes;
use crate::entries;
use crate::listing;
use crate::listing_laws;
use crate::package;
use crate::reader;
use crate::text;
use crate::images;

verus! {

/// What tells the names of these properties apart: their length and four of their
/// letters.
pub open spec fn frame_mark(name: Seq<char>) -> (int, char, char, char, char) {
    let s = text::lower_text(name);
    let n = s.len() as int;
    (n, s[0], s[1], s[n - 2], s[n - 1])
}

/// No two of these properties have the same mark.
pub proof fn frame_names_differ()
    ensures
        frame_mark("AnimNext"@) == (8int, 'a', 'n', 'x', 't'),
        frame_mark("MaxFrameRate"@) == (12int, 'm', 'a', 't', 'e'),
        frame_mark("MinFrameRate"@) == (12int, 'm', 'i', 't', 'e'),
        frame_mark("OneTimeAnimLoop"@) == (15int, 'o', 'n', 'o', 'p'),
        frame_mark("bAnimLoop"@) == (9int, 'b', 'a', 'o', 'p'),
        frame_mark("PrimeCount"@) == (10int, 'p', 'r', 'n', 't'),
        frame_mark("TotalFrameNum"@) == (13int, 't', 'o', 'u', 'm'),
        frame_mark("Split9X1"@) == (8int, 's', 'p', 'x', '1'),
        frame_mark("Split9X2"@) == (8int, 's', 'p', 'x', '2'),
        frame_mark("Split9X3"@) == (8int, 's', 'p', 'x', '3'),
        frame_mark("Split9Y1"@) == (8int, 's', 'p', 'y', '1'),
        frame_mark("Split9Y2"@) == (8int, 's', 'p', 'y', '2'),
        frame_mark("Split9Y3"@) == (8int, 's', 'p', 'y', '3'),
        frame_mark("None"@) == (4int, 'n', 'o', 'n', 'e'),
{
    reveal_strlit("AnimNext");
    reveal_strlit("MaxFrameRate");
    reveal_strlit("MinFrameRate");
    reveal_strlit("OneTimeAnimLoop");
    reveal_strlit("bAnimLoop");
    reveal_strlit("PrimeCount");
    reveal_strlit("TotalFrameNum");
    reveal_strlit("Split9X1");
    reveal_strlit("Split9X2");
    reveal_strlit("Split9X3");
    reveal_strlit("Split9Y1");
    reveal_strlit("Split9Y2");
    reveal_strlit("Split9Y3");
    reveal_strlit("None");
}

/// Whether a property has a number in four bytes at a place, and is else as it was.
pub open spec fn holds_word(piece: Seq<u8>, before: Seq<u8>, at: int, value: int) -> bool {
    &&& piece.len() == before.len()
    &&& 0 <= at && at + 4 <= piece.len()
    &&& piece[at] + 256 * piece[at + 1] + 65536 * piece[at + 2] + 16777216 * piece[at + 3]
        == value % 4294967296
    &&& forall|k: int|
        0 <= k < piece.len() && !(at <= k < at + 4) ==> #[trigger] piece[k] == before[k]
}

proof fn words_are_spliced(before: Seq<u8>, at: int, value: u32)
    requires
        0 <= at,
        at + 4 <= before.len(),
    ensures
        holds_word(bytes::splice(before, at, bytes::le32(value)), before, at, value as int),
{
    let b = bytes::le32(value);
    let piece = bytes::splice(before, at, b);
    assert(piece[at] == b[0] && piece[at + 1] == b[1] && piece[at + 2] == b[2] && piece[at + 3]
        == b[3]);
    assert(b[0] + 256 * b[1] + 65536 * b[2] + 16777216 * b[3] == value);
}

/// A property of an animation is rewritten with its own value: a rate, a flag or a number
/// under its name. Every other property stays as it is.
#[verifier::spinoff_prover]
#[verifier::rlimit(40)]
pub proof fn animation_properties_get_their_value(
    d: Seq<u8>,
    p: int,
    end: int,
    index: i32,
    name: Seq<char>,
    tag: TagModel,
    values: AnimationValues,
)
    requires
        0 <= p <= tag.info < tag.start,
        0 <= tag.size,
        tag.start + tag.size == end <= d.len(),
    ensures
        ({
            let before = d.subrange(p, end);
            let at = tag.start - p;
            let after = animation::animated_property(d, p, end, index, name, tag, values);
            &&& text::same_folded(name, "MaxFrameRate"@) && tag.kind == 4 && tag.size == 4
                ==> after is Ok && holds_word(
                after->Ok_0,
                before,
                at,
                values.max_frame_rate as int,
            )
            &&& text::same_folded(name, "MinFrameRate"@) && tag.kind == 4 && tag.size == 4
                ==> after is Ok && holds_word(
                after->Ok_0,
                before,
                at,
                values.min_frame_rate as int,
            )
            &&& text::same_folded(name, "TotalFrameNum"@) && tag.kind == 2 && tag.size == 4
                ==> after is Ok && holds_word(
                after->Ok_0,
                before,
                at,
                values.total_frame_num as int,
            )
            &&& text::same_folded(name, "PrimeCount"@) && tag.kind == 2 && tag.size == 4
                ==> after is Ok && holds_word(after->Ok_0, before, at, values.prime_count as int)
            &&& text::same_folded(name, "PrimeCount"@) && tag.kind == 1 && tag.size == 1 && 0
                <= values.prime_count <= 255 ==> after == Ok::<Seq<u8>, Seq<char>>(
                before.update(at, values.prime_count as u8),
            )
            &&& (text::same_folded(name, "OneTimeAnimLoop"@) || text::same_folded(name, "bAnimLoop"@))
                && tag.kind == 3 ==> {
                &&& after matches Ok(piece)
                &&& piece.len() == before.len()
                &&& (piece[tag.info - p] >= 128) == values.one_time_anim_loop
                &&& piece[tag.info - p] % 128 == before[tag.info - p] % 128
                &&& forall|k: int|
                    0 <= k < piece.len() && k != tag.info - p ==> #[trigger] piece[k] == before[k]
            }
            &&& !text::same_folded(name, "AnimNext"@) && !text::same_folded(name, "MaxFrameRate"@) && !text::same_folded(name, "MinFrameRate"@) && !text::same_folded(name, "OneTimeAnimLoop"@) && !text::same_folded(name, "bAnimLoop"@) && !text::same_folded(name, "PrimeCount"@) && !text::same_folded(name, "TotalFrameNum"@) ==> after == Ok::<Seq<u8>, Seq<char>>(before)
        }),
{
    frame_names_differ();
    let m = frame_mark(name);
    let before = d.subrange(p, end);
    let at = tag.start - p;
    if tag.size == 4 {
        words_are_spliced(before, at, values.max_frame_rate);
        words_are_spliced(before, at, values.min_frame_rate);
        words_are_spliced(before, at, bytes::bits_of(values.total_frame_num));
        words_are_spliced(before, at, bytes::bits_of(values.prime_count));
    }
}

/// A texture takes another animation if it stores all that differs from nothing, and the
/// reference to the next texture in any case.
pub proof fn animations_need_their_properties(
    values: AnimationValues,
    found: AnimationPropertyPresence,
)
    ensures
        animation::missing_property(values, found) is None == ({
            &&& found.anim_next
            &&& found.max_frame_rate || values.max_frame_rate == 0 || values.max_frame_rate
                == 0x8000_0000
            &&& found.min_frame_rate || values.min_frame_rate == 0 || values.min_frame_rate
                == 0x8000_0000
            &&& found.one_time_anim_loop || !values.one_time_anim_loop
            &&& found.prime_count || values.prime_count == 0
            &&& found.total_frame_num || values.total_frame_num == 0
        }),
{
}

/// The animation that a texture gets is what is given, and for the rest what it had.
pub proof fn animations_are_what_is_given(p: PackageModel, index: int, given: AnimationModel)
    requires
        0 <= index,
    ensures
        animation::merged_animation(p, index, given) matches Ok(values) ==> {
            &&& index < p.exports.len()
            &&& package::data_of(Dialect::Frontend, p.data, p.exports[index]) matches Ok(raw)
            &&& entries::properties_of(p.names, raw, 0) matches Ok((t, _))
            &&& values.max_frame_rate == match given.max_frame_rate {
                Some(v) => v,
                None => t.animation.max_frame_rate,
            }
            &&& values.min_frame_rate == match given.min_frame_rate {
                Some(v) => v,
                None => t.animation.min_frame_rate,
            }
            &&& values.one_time_anim_loop == match given.one_time_anim_loop {
                Some(v) => v,
                None => t.animation.one_time_anim_loop,
            }
            &&& values.prime_count == match given.prime_count {
                Some(v) => v,
                None => t.animation.prime_count,
            }
            &&& values.total_frame_num == match given.total_frame_num {
                Some(v) => v,
                None => t.animation.total_frame_num,
            }
            &&& given.anim_next is None ==> values.anim_next == t.animation.anim_next
            &&& given.anim_next matches Some(path) ==> Ok::<i32, Seq<char>>(values.anim_next)
                == animation::next_reference(p, index, path)
        },
{
    reveal(animation::merged_animation);
}

/// A texture is listed with what its properties say and, where they do not say it, with
/// the dimensions of its picture.
pub proof fn textures_are_listed_with_their_properties(p: PackageModel, index: int)
    requires
        0 <= index,
    ensures
        listing::entry_of(p, index) matches Ok(entry) ==> {
            &&& index < p.exports.len()
            &&& entry.index == index
            &&& package::name_of(Dialect::Frontend, p, p.exports[index]) == Ok::<
                Seq<char>,
                Seq<char>,
            >(entry.name)
            &&& package::data_of(Dialect::Frontend, p.data, p.exports[index]) matches Ok(raw)
            &&& listing::texture_in(p, raw) matches Ok((t, mip))
            &&& entry.width == if t.width > 0 {
                t.width
            } else {
                mip.width
            }
            &&& entry.height == if t.height > 0 {
                t.height
            } else {
                mip.height
            }
            &&& t.format != UtxFormat::Unknown ==> entry.format == t.format
            &&& t.format == UtxFormat::Unknown ==> entry.format == images::guessed_format(
                mip.size as int,
                entry.width,
                entry.height,
            )
            &&& entry.has_alpha == (t.settings.alpha == Some(true))
            &&& entry.settings == t.settings
            &&& entry.has_split9 == t.has_split9
            &&& entry.split9 == t.split9
            &&& entry.animation is Some == (t.animation.anim_next != 0 || entries::is_nonzero_rate(
                t.animation.max_frame_rate,
            ) || entries::is_nonzero_rate(t.animation.min_frame_rate)
                || t.animation.one_time_anim_loop || t.animation.prime_count != 0
                || t.animation.total_frame_num != 0)
            &&& entry.animation matches Some(a) ==> a.values == t.animation && a.properties
                == t.animation_properties
        },
{
    reveal(listing::entry_of);
}

/// The place of one of the nine parts is that of its four bytes, under its name.
#[verifier::spinoff_prover]
#[verifier::rlimit(40)]
pub proof fn parts_are_found_by_name(
    names: Seq<NameModel>,
    d: Seq<u8>,
    p: int,
    name: Seq<char>,
    tag: TagModel,
    places: Split9Places,
)
    requires
        listing_laws::is_listed(names, d, p, name, tag),
        tag.size == 4,
    ensures
        ({
            let all = appending::split9_places_from(names, d, p, places);
            let here = Some(tag.start as usize);
            let end = tag.start + 4;
            &&& text::same_folded(name, "Split9X1"@) ==> all == appending::split9_places_from(
                names,
                d,
                end,
                (Split9Places { x1: here, ..places }),
            )
            &&& text::same_folded(name, "Split9X2"@) ==> all == appending::split9_places_from(
                names,
                d,
                end,
                (Split9Places { x2: here, ..places }),
            )
            &&& text::same_folded(name, "Split9X3"@) ==> all == appending::split9_places_from(
                names,
                d,
                end,
                (Split9Places { x3: here, ..places }),
            )
            &&& text::same_folded(name, "Split9Y1"@) ==> all == appending::split9_places_from(
                names,
                d,
                end,
                (Split9Places { y1: here, ..places }),
            )
            &&& text::same_folded(name, "Split9Y2"@) ==> all == appending::split9_places_from(
                names,
                d,
                end,
                (Split9Places { y2: here, ..places }),
            )
            &&& text::same_folded(name, "Split9Y3"@) ==> all == appending::split9_places_from(
                names,
                d,
                end,
                (Split9Places { y3: here, ..places }),
            )
        }),
{
    frame_names_differ();
    let m = frame_mark(name);
    let (_, q) = reader::compact_at(Dialect::Frontend, d, p)->Ok_0;
    reader::compact_moves(Dialect::Frontend, d, p);
    reader::tag_moves(Dialect::Frontend, d, q);
}

/// Whether the four bytes behind a place of an object hold a number, where it has one.
pub open spec fn part_at(d: Seq<u8>, base: int, place: Option<usize>, value: i32) -> bool {
    place matches Some(local) ==> {
        &&& base + local + 4 <= d.len()
        &&& listing_laws::stored_number(d, base + local, 4) == value
    }
}

/// Whether two places of four bytes have none in common.
pub open spec fn words_apart(a: Option<usize>, b: Option<usize>) -> bool {
    match (a, b) {
        (Some(a), Some(b)) => a + 4 <= b || b + 4 <= a,
        _ => true,
    }
}

proof fn word_is_placed(
    d: Result<Seq<u8>, Seq<char>>,
    export: crate::package::ExportEntry,
    place: Option<usize>,
    value: i32,
    other: Option<usize>,
    held: i32,
)
    requires
        words_apart(place, other),
        export.offset >= 0,
        d matches Ok(b) ==> part_at(b, export.offset as int, other, held),
    ensures
        appending::with_split9_value(d, export, place, value) matches Ok(e) ==> {
            &&& d is Ok
            &&& e.len() == d->Ok_0.len()
            &&& part_at(e, export.offset as int, place, value)
            &&& part_at(e, export.offset as int, other, held)
        },
{
    if let (Ok(b), Some(local)) = (d, place) {
        let at = export.offset + local;
        if let Ok(e) = appending::with_split9_value(d, export, place, value) {
            let w = bytes::i32_bytes(value);
            assert(e[at] == w[0] && e[at + 1] == w[1] && e[at + 2] == w[2] && e[at + 3] == w[3]);
            let bits = bytes::bits_of(value) as int;
            assert(w[0] + 256 * w[1] + 65536 * w[2] + 16777216 * w[3] == bits);
        }
    }
}

/// The nine parts of a texture are rewritten in place: each number stands at the place of
/// its own property.
#[verifier::spinoff_prover]
#[verifier::rlimit(40)]
pub proof fn parts_are_rewritten_in_place(
    working: Seq<u8>,
    p: PackageModel,
    index: int,
    split9: Split9,
    places: Split9Places,
)
    requires
        0 <= index < p.exports.len(),
        p.exports[index].offset >= 0,
        package::data_of(Dialect::Frontend, p.data, p.exports[index]) matches Ok(raw)
            && appending::split9_places_from(p.names, raw, 0, appending::no_split9_places()) == Ok::<
            Split9Places,
            Seq<char>,
        >(places),
        words_apart(places.x1, places.x2),
        words_apart(places.x1, places.x3),
        words_apart(places.x1, places.y1),
        words_apart(places.x1, places.y2),
        words_apart(places.x1, places.y3),
        words_apart(places.x2, places.x3),
        words_apart(places.x2, places.y1),
        words_apart(places.x2, places.y2),
        words_apart(places.x2, places.y3),
        words_apart(places.x3, places.y1),
        words_apart(places.x3, places.y2),
        words_apart(places.x3, places.y3),
        words_apart(places.y1, places.y2),
        words_apart(places.y1, places.y3),
        words_apart(places.y2, places.y3),
    ensures
        appending::with_split9_in_place(working, p, index, split9) matches Ok(e) ==> {
            let base = p.exports[index].offset as int;
            &&& e.len() == working.len()
            &&& part_at(e, base, places.x1, split9.x1)
            &&& part_at(e, base, places.x2, split9.x2)
            &&& part_at(e, base, places.x3, split9.x3)
            &&& part_at(e, base, places.y1, split9.y1)
            &&& part_at(e, base, places.y2, split9.y2)
            &&& part_at(e, base, places.y3, split9.y3)
        },
{
    let export = p.exports[index];
    let d0 = Ok::<Seq<u8>, Seq<char>>(working);
    let d1 = appending::with_split9_value(d0, export, places.x1, split9.x1);
    word_is_placed(d0, export, places.x1, split9.x1, None, 0);
    let d2 = appending::with_split9_value(d1, export, places.x2, split9.x2);
    word_is_placed(d1, export, places.x2, split9.x2, None, 0);
    word_is_placed(d1, export, places.x2, split9.x2, places.x1, split9.x1);
    let d3 = appending::with_split9_value(d2, export, places.x3, split9.x3);
    word_is_placed(d2, export, places.x3, split9.x3, None, 0);
    word_is_placed(d2, export, places.x3, split9.x3, places.x1, split9.x1);
    word_is_placed(d2, export, places.x3, split9.x3, places.x2, split9.x2);
    let d4 = appending::with_split9_value(d3, export, places.y1, split9.y1);
    word_is_placed(d3, export, places.y1, split9.y1, None, 0);
    word_is_placed(d3, export, places.y1, split9.y1, places.x1, split9.x1);
    word_is_placed(d3, export, places.y1, split9.y1, places.x2, split9.x2);
    word_is_placed(d3, export, places.y1, split9.y1, places.x3, split9.x3);
    let d5 = appending::with_split9_value(d4, export, places.y2, split9.y2);
    word_is_placed(d4, export, places.y2, split9.y2, None, 0);
    word_is_placed(d4, export, places.y2, split9.y2, places.x1, split9.x1);
    word_is_placed(d4, export, places.y2, split9.y2, places.x2, split9.x2);
    word_is_placed(d4, export, places.y2, split9.y2, places.x3, split9.x3);
    word_is_placed(d4, export, places.y2, split9.y2, places.y1, split9.y1);
    let d6 = appending::with_split9_value(d5, export, places.y3, split9.y3);
    word_is_placed(d5, export, places.y3, split9.y3, None, 0);
    word_is_placed(d5, export, places.y3, split9.y3, places.x1, split9.x1);
    word_is_placed(d5, export, places.y3, split9.y3, places.x2, split9.x2);
    word_is_placed(d5, export, places.y3, split9.y3, places.x3, split9.x3);
    word_is_placed(d5, export, places.y3, split9.y3, places.y1, split9.y1);
    word_is_placed(d5, export, places.y3, split9.y3, places.y2, split9.y2);
}

} // verus!
