//! What the listing of a package says of a texture: what its property list stores.

use vstd::prelude::*;
use crate::entries::{AnimationPropertyPresence, AnimationValues, TextureProperties, TextureSettings};
use crate::layout::Split9;
use crate::names::NameModel;
use crate::reader::{Dialect, TagModel};
use crate::entries;
use crate::formats;
use crate::package;
use crate::reader;
use crate::text;

verus! {

/// What tells the names of properties apart: their length and four of their letters.
spec fn mark_of(name: Seq<char>) -> (int, char, char, char, char) {
    let s = text::lower_text(name);
    let n = s.len() as int;
    (n, s[0], s[1], s[n - 2], s[n - 1])
}

proof fn marks_differ()
    ensures
        mark_of("Format"@) == (6int, 'f', 'o', 'a', 't'),
        mark_of("USize"@) == (5int, 'u', 's', 'z', 'e'),
        mark_of("VSize"@) == (5int, 'v', 's', 'z', 'e'),
        mark_of("UBits"@) == (5int, 'u', 'b', 't', 's'),
        mark_of("VBits"@) == (5int, 'v', 'b', 't', 's'),
        mark_of("UClamp"@) == (6int, 'u', 'c', 'm', 'p'),
        mark_of("VClamp"@) == (6int, 'v', 'c', 'm', 'p'),
        mark_of("UClampMode"@) == (10int, 'u', 'c', 'd', 'e'),
        mark_of("VClampMode"@) == (10int, 'v', 'c', 'd', 'e'),
        mark_of("AnimNext"@) == (8int, 'a', 'n', 'x', 't'),
        mark_of("PrimeCount"@) == (10int, 'p', 'r', 'n', 't'),
        mark_of("Split9X1"@) == (8int, 's', 'p', 'x', '1'),
        mark_of("Split9X2"@) == (8int, 's', 'p', 'x', '2'),
        mark_of("Split9X3"@) == (8int, 's', 'p', 'x', '3'),
        mark_of("Split9Y1"@) == (8int, 's', 'p', 'y', '1'),
        mark_of("Split9Y2"@) == (8int, 's', 'p', 'y', '2'),
        mark_of("Split9Y3"@) == (8int, 's', 'p', 'y', '3'),
        mark_of("MaxFrameRate"@) == (12int, 'm', 'a', 't', 'e'),
        mark_of("MinFrameRate"@) == (12int, 'm', 'i', 't', 'e'),
        mark_of("TotalFrameNum"@) == (13int, 't', 'o', 'u', 'm'),
        mark_of("bAlphaTexture"@) == (13int, 'b', 'a', 'r', 'e'),
        mark_of("bMasked"@) == (7int, 'b', 'm', 'e', 'd'),
        mark_of("bSplit9Texture"@) == (14int, 'b', 's', 'r', 'e'),
        mark_of("OneTimeAnimLoop"@) == (15int, 'o', 'n', 'o', 'p'),
        mark_of("bAnimLoop"@) == (9int, 'b', 'a', 'o', 'p'),
        mark_of("None"@) == (4int, 'n', 'o', 'n', 'e'),
{
    reveal_strlit("Format");
    reveal_strlit("USize");
    reveal_strlit("VSize");
    reveal_strlit("UBits");
    reveal_strlit("VBits");
    reveal_strlit("UClamp");
    reveal_strlit("VClamp");
    reveal_strlit("UClampMode");
    reveal_strlit("VClampMode");
    reveal_strlit("AnimNext");
    reveal_strlit("PrimeCount");
    reveal_strlit("Split9X1");
    reveal_strlit("Split9X2");
    reveal_strlit("Split9X3");
    reveal_strlit("Split9Y1");
    reveal_strlit("Split9Y2");
    reveal_strlit("Split9Y3");
    reveal_strlit("MaxFrameRate");
    reveal_strlit("MinFrameRate");
    reveal_strlit("TotalFrameNum");
    reveal_strlit("bAlphaTexture");
    reveal_strlit("bMasked");
    reveal_strlit("bSplit9Texture");
    reveal_strlit("OneTimeAnimLoop");
    reveal_strlit("bAnimLoop");
    reveal_strlit("None");
}

/// The number that is stored in the bytes of a property.
pub open spec fn stored_number(d: Seq<u8>, p: int, size: int) -> int {
    if size == 1 {
        d[p] as int
    } else if size == 2 {
        d[p] + 256 * d[p + 1]
    } else if d[p + 3] < 128 {
        d[p] + 256 * d[p + 1] + 65536 * d[p + 2] + 16777216 * d[p + 3]
    } else {
        d[p] + 256 * d[p + 1] + 65536 * d[p + 2] + 16777216 * d[p + 3] - 4294967296
    }
}

proof fn numbers_are_stored(d: Seq<u8>, p: int, size: int)
    requires
        0 <= p,
        size == 1 || size == 2 || size == 4,
        p + size <= d.len() <= usize::MAX,
    ensures
        entries::integer_read(d, p, size) == Ok::<(Option<i32>, int), Seq<char>>(
            (Some(stored_number(d, p, size) as i32), p + size),
        ),
        i32::MIN <= stored_number(d, p, size) <= i32::MAX,
{
    let s = d.subrange(p, p + size);
    if size == 2 {
        assert(s[0] == d[p] && s[1] == d[p + 1]);
    } else if size == 4 {
        assert(s[0] == d[p] && s[1] == d[p + 1] && s[2] == d[p + 2] && s[3] == d[p + 3]);
    }
}

/// A listed property of a number of bytes, and what stands in front of the next one.
pub open spec fn is_listed(
    names: Seq<NameModel>,
    d: Seq<u8>,
    p: int,
    name: Seq<char>,
    tag: TagModel,
) -> bool {
    &&& 0 <= p
    &&& reader::compact_at(Dialect::Frontend, d, p) matches Ok((index, q))
    &&& package::object_name(Dialect::Frontend, names, index) == Ok::<Seq<char>, Seq<char>>(name)
    &&& reader::tag_at(Dialect::Frontend, d, q) == Ok::<TagModel, Seq<char>>(tag)
    &&& tag.start + tag.size <= d.len() <= usize::MAX
}

/// A listed number of four bytes sets the field of its name and leaves every other.
#[verifier::spinoff_prover]
#[verifier::rlimit(40)]
pub proof fn listed_numbers_are_noted(
    names: Seq<NameModel>,
    d: Seq<u8>,
    p: int,
    name: Seq<char>,
    tag: TagModel,
    t: TextureProperties,
)
    requires
        is_listed(names, d, p, name, tag),
        tag.size == 4,
        tag.kind != 3,
    ensures
        ({
            let v = stored_number(d, tag.start, 4) as i32;
            let bits = if v < 0 {
                (v + 4294967296) as u32
            } else {
                v as u32
            };
            let all = entries::properties_from(names, d, p, t);
            let end = tag.start + 4;
            &&& text::same_folded(name, "Split9X1"@) ==> all == entries::properties_from(
                names,
                d,
                end,
                (TextureProperties { split9: Split9 { x1: v, ..t.split9 }, ..t }),
            )
            &&& text::same_folded(name, "Split9X2"@) ==> all == entries::properties_from(
                names,
                d,
                end,
                (TextureProperties { split9: Split9 { x2: v, ..t.split9 }, ..t }),
            )
            &&& text::same_folded(name, "Split9X3"@) ==> all == entries::properties_from(
                names,
                d,
                end,
                (TextureProperties { split9: Split9 { x3: v, ..t.split9 }, ..t }),
            )
            &&& text::same_folded(name, "Split9Y1"@) ==> all == entries::properties_from(
                names,
                d,
                end,
                (TextureProperties { split9: Split9 { y1: v, ..t.split9 }, ..t }),
            )
            &&& text::same_folded(name, "Split9Y2"@) ==> all == entries::properties_from(
                names,
                d,
                end,
                (TextureProperties { split9: Split9 { y2: v, ..t.split9 }, ..t }),
            )
            &&& text::same_folded(name, "Split9Y3"@) ==> all == entries::properties_from(
                names,
                d,
                end,
                (TextureProperties { split9: Split9 { y3: v, ..t.split9 }, ..t }),
            )
            &&& text::same_folded(name, "USize"@) ==> all == entries::properties_from(
                names,
                d,
                end,
                (TextureProperties { width: v, ..t }),
            )
            &&& text::same_folded(name, "VSize"@) ==> all == entries::properties_from(
                names,
                d,
                end,
                (TextureProperties { height: v, ..t }),
            )
            &&& text::same_folded(name, "UClamp"@) ==> all == entries::properties_from(
                names,
                d,
                end,
                (TextureProperties { settings: TextureSettings { u_clamp: Some(v), ..t.settings }, ..t }),
            )
            &&& text::same_folded(name, "VClamp"@) ==> all == entries::properties_from(
                names,
                d,
                end,
                (TextureProperties { settings: TextureSettings { v_clamp: Some(v), ..t.settings }, ..t }),
            )
            &&& text::same_folded(name, "MaxFrameRate"@) ==> all == entries::properties_from(
                names,
                d,
                end,
                (TextureProperties {
                    animation: AnimationValues { max_frame_rate: bits, ..t.animation },
                    animation_properties: AnimationPropertyPresence {
                        max_frame_rate: true,
                        ..t.animation_properties
                    },
                    ..t
                }),
            )
            &&& text::same_folded(name, "MinFrameRate"@) ==> all == entries::properties_from(
                names,
                d,
                end,
                (TextureProperties {
                    animation: AnimationValues { min_frame_rate: bits, ..t.animation },
                    animation_properties: AnimationPropertyPresence {
                        min_frame_rate: true,
                        ..t.animation_properties
                    },
                    ..t
                }),
            )
            &&& text::same_folded(name, "TotalFrameNum"@) ==> all == entries::properties_from(
                names,
                d,
                end,
                (TextureProperties {
                    animation: AnimationValues { total_frame_num: v, ..t.animation },
                    animation_properties: AnimationPropertyPresence {
                        total_frame_num: true,
                        ..t.animation_properties
                    },
                    ..t
                }),
            )
        }),
{
    marks_differ();
    let (_, q) = reader::compact_at(Dialect::Frontend, d, p)->Ok_0;
    reader::compact_moves(Dialect::Frontend, d, p);
    reader::tag_moves(Dialect::Frontend, d, q);
    numbers_are_stored(d, tag.start, 4);
    let m = mark_of(name);
    let n = mark_of("None"@);
}

/// A listed number of one byte sets the field of its name and leaves every other.
#[verifier::spinoff_prover]
#[verifier::rlimit(40)]
pub proof fn listed_bytes_are_noted(
    names: Seq<NameModel>,
    d: Seq<u8>,
    p: int,
    name: Seq<char>,
    tag: TagModel,
    t: TextureProperties,
)
    requires
        is_listed(names, d, p, name, tag),
        tag.size == 1,
        tag.kind != 3,
    ensures
        ({
            let b = d[tag.start];
            let all = entries::properties_from(names, d, p, t);
            let end = tag.start + 1;
            &&& text::same_folded(name, "Format"@) ==> all == entries::properties_from(
                names,
                d,
                end,
                (TextureProperties { format: formats::format_of(b), ..t }),
            )
            &&& text::same_folded(name, "UBits"@) ==> all == entries::properties_from(
                names,
                d,
                end,
                (TextureProperties { u_bits: b as i32, ..t }),
            )
            &&& text::same_folded(name, "VBits"@) ==> all == entries::properties_from(
                names,
                d,
                end,
                (TextureProperties { v_bits: b as i32, ..t }),
            )
            &&& text::same_folded(name, "UClampMode"@) ==> all == entries::properties_from(
                names,
                d,
                end,
                (TextureProperties {
                    settings: TextureSettings { u_clamp_mode: Some(b as i32), ..t.settings },
                    ..t
                }),
            )
            &&& text::same_folded(name, "VClampMode"@) ==> all == entries::properties_from(
                names,
                d,
                end,
                (TextureProperties {
                    settings: TextureSettings { v_clamp_mode: Some(b as i32), ..t.settings },
                    ..t
                }),
            )
            &&& text::same_folded(name, "PrimeCount"@) ==> all == entries::properties_from(
                names,
                d,
                end,
                (TextureProperties {
                    animation: AnimationValues { prime_count: b as i32, ..t.animation },
                    animation_properties: AnimationPropertyPresence {
                        prime_count: true,
                        ..t.animation_properties
                    },
                    ..t
                }),
            )
        }),
{
    marks_differ();
    let (_, q) = reader::compact_at(Dialect::Frontend, d, p)->Ok_0;
    reader::compact_moves(Dialect::Frontend, d, p);
    reader::tag_moves(Dialect::Frontend, d, q);
    numbers_are_stored(d, tag.start, 1);
    let m = mark_of(name);
    let n = mark_of("None"@);
}

/// A listed flag sets the field of its name and leaves every other.
#[verifier::spinoff_prover]
#[verifier::rlimit(40)]
pub proof fn listed_flags_are_noted(
    names: Seq<NameModel>,
    d: Seq<u8>,
    p: int,
    name: Seq<char>,
    tag: TagModel,
    t: TextureProperties,
)
    requires
        is_listed(names, d, p, name, tag),
        tag.kind == 3,
    ensures
        ({
            let all = entries::properties_from(names, d, p, t);
            let end = tag.start + tag.size;
            &&& text::same_folded(name, "bAlphaTexture"@) ==> all == entries::properties_from(
                names,
                d,
                end,
                (TextureProperties {
                    settings: TextureSettings { alpha: Some(tag.flag), ..t.settings },
                    ..t
                }),
            )
            &&& text::same_folded(name, "bMasked"@) ==> all == entries::properties_from(
                names,
                d,
                end,
                (TextureProperties {
                    settings: TextureSettings { masked: Some(tag.flag), ..t.settings },
                    ..t
                }),
            )
            &&& text::same_folded(name, "bSplit9Texture"@) ==> all == entries::properties_from(
                names,
                d,
                end,
                (TextureProperties { has_split9: tag.flag, ..t }),
            )
            &&& text::same_folded(name, "OneTimeAnimLoop"@) || text::same_folded(name, "bAnimLoop"@)
                ==> all == entries::properties_from(
                names,
                d,
                end,
                (TextureProperties {
                    animation: AnimationValues { one_time_anim_loop: tag.flag, ..t.animation },
                    animation_properties: AnimationPropertyPresence {
                        one_time_anim_loop: true,
                        ..t.animation_properties
                    },
                    ..t
                }),
            )
        }),
{
    marks_differ();
    let (_, q) = reader::compact_at(Dialect::Frontend, d, p)->Ok_0;
    reader::compact_moves(Dialect::Frontend, d, p);
    reader::tag_moves(Dialect::Frontend, d, q);
    let m = mark_of(name);
    let n = mark_of("None"@);
}

/// The next texture of an animation is the reference that is listed.
#[verifier::spinoff_prover]
#[verifier::rlimit(40)]
pub proof fn listed_references_are_noted(
    names: Seq<NameModel>,
    d: Seq<u8>,
    p: int,
    name: Seq<char>,
    tag: TagModel,
    t: TextureProperties,
)
    requires
        is_listed(names, d, p, name, tag),
        tag.size > 0,
        tag.kind != 3,
        text::same_folded(name, "AnimNext"@),
    ensures
        reader::compact_at(
            Dialect::Frontend,
            d.subrange(tag.start, tag.start + tag.size),
            0,
        ) matches Ok((v, _)) ==> entries::properties_from(names, d, p, t)
            == entries::properties_from(
            names,
            d,
            tag.start + tag.size,
            (TextureProperties {
                animation: AnimationValues { anim_next: v, ..t.animation },
                animation_properties: AnimationPropertyPresence {
                    anim_next: true,
                    ..t.animation_properties
                },
                ..t
            }),
        ),
{
    marks_differ();
    let (_, q) = reader::compact_at(Dialect::Frontend, d, p)->Ok_0;
    reader::compact_moves(Dialect::Frontend, d, p);
    reader::tag_moves(Dialect::Frontend, d, q);
    let m = mark_of(name);
    let n = mark_of("None"@);
}

/// The end of a list leaves what was found; dimensions that were not stored are taken from
/// their exponents.
pub proof fn lists_end_with_their_dimensions(names: Seq<NameModel>, d: Seq<u8>, p: int)
    requires
        0 <= p,
    ensures
        entries::properties_of(names, d, p) matches Ok((t, _)) ==> {
            &&& entries::properties_from(names, d, p, entries::no_properties()) matches Ok((found, _))
            &&& t == (TextureProperties { width: t.width, height: t.height, ..found })
            &&& found.width > 0 || found.u_bits <= 0 ==> t.width == found.width
            &&& found.height > 0 || found.v_bits <= 0 ==> t.height == found.height
            &&& found.width <= 0 && 0 < found.u_bits < 31 ==> t.width
                == vstd::arithmetic::power2::pow2(found.u_bits as nat)
            &&& found.height <= 0 && 0 < found.v_bits < 31 ==> t.height
                == vstd::arithmetic::power2::pow2(found.v_bits as nat)
        },
{
    reveal(entries::properties_of);
    if let Ok((found, _)) = entries::properties_from(names, d, p, entries::no_properties()) {
        if 0 < found.u_bits < 31 {
            exponents_fit(found.u_bits as nat);
        }
        if 0 < found.v_bits < 31 {
            exponents_fit(found.v_bits as nat);
        }
    }
}

proof fn exponents_fit(n: nat)
    requires
        n < 31,
    ensures
        vstd::arithmetic::power2::pow2(n) <= 1073741824,
{
    vstd::arithmetic::power2::lemma2_to64();
    if n < 30 {
        vstd::arithmetic::power2::lemma_pow2_strictly_increases(n, 30);
    }
}

/// Nothing is known before the first property.
pub proof fn nothing_is_known_at_first()
    ensures
        ({
            let t = entries::no_properties();
            &&& t.width == 0 && t.height == 0
            &&& t.u_bits == 0 && t.v_bits == 0
            &&& t.settings.alpha is None && t.settings.masked is None
            &&& t.settings.u_clamp is None && t.settings.v_clamp is None
            &&& t.settings.u_clamp_mode is None && t.settings.v_clamp_mode is None
            &&& !t.has_split9
            &&& t.split9 == (Split9 { x1: 0, x2: 0, x3: 0, y1: 0, y2: 0, y3: 0 })
            &&& !entries::animated(t.animation)
        }),
{
}

} // verus!
