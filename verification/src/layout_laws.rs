//! What a texture stores at the places that its layout finds.

use vstd::prelude::*;
use crate::layout::{ImageModel, LayoutParts, PropertyPatch, Split9, TextureLayout};
use crate::names::NameModel;
use crate::reader::{Dialect, TagModel};
use crate::bytes;
use crate::layout;
use crate::listing_laws;
use crate::package;
use crate::reader;
use crate::text;

verus! {

/// What tells the names of the properties of a layout apart: their length and four of
/// their letters.
spec fn place_mark(name: Seq<char>) -> (int, char, char, char, char) {
    let s = text::lower_text(name);
    let n = s.len() as int;
    (n, s[0], s[1], s[n - 2], s[n - 1])
}

proof fn places_differ()
    ensures
        place_mark("Format"@) == (6int, 'f', 'o', 'a', 't'),
        place_mark("USize"@) == (5int, 'u', 's', 'z', 'e'),
        place_mark("VSize"@) == (5int, 'v', 's', 'z', 'e'),
        place_mark("UBits"@) == (5int, 'u', 'b', 't', 's'),
        place_mark("VBits"@) == (5int, 'v', 'b', 't', 's'),
        place_mark("AnimNext"@) == (8int, 'a', 'n', 'x', 't'),
        place_mark("Split9X1"@) == (8int, 's', 'p', 'x', '1'),
        place_mark("Split9X2"@) == (8int, 's', 'p', 'x', '2'),
        place_mark("Split9X3"@) == (8int, 's', 'p', 'x', '3'),
        place_mark("Split9Y1"@) == (8int, 's', 'p', 'y', '1'),
        place_mark("Split9Y2"@) == (8int, 's', 'p', 'y', '2'),
        place_mark("Split9Y3"@) == (8int, 's', 'p', 'y', '3'),
        place_mark("None"@) == (4int, 'n', 'o', 'n', 'e'),
{
    reveal_strlit("Format");
    reveal_strlit("USize");
    reveal_strlit("VSize");
    reveal_strlit("UBits");
    reveal_strlit("VBits");
    reveal_strlit("AnimNext");
    reveal_strlit("Split9X1");
    reveal_strlit("Split9X2");
    reveal_strlit("Split9X3");
    reveal_strlit("Split9Y1");
    reveal_strlit("Split9Y2");
    reveal_strlit("Split9Y3");
    reveal_strlit("None");
}

/// The place of a property is that of its value, under its name, and no other place is
/// taken for it.
#[verifier::spinoff_prover]
#[verifier::rlimit(40)]
pub proof fn places_go_by_name(
    dialect: Dialect,
    names: Seq<NameModel>,
    d: Seq<u8>,
    p: int,
    name: Seq<char>,
    tag: TagModel,
    parts: LayoutParts,
)
    requires
        0 <= p,
        reader::compact_at(dialect, d, p) matches Ok((index, q)) && package::object_name(
            dialect,
            names,
            index,
        ) == Ok::<Seq<char>, Seq<char>>(name) && reader::tag_at(dialect, d, q) == Ok::<
            TagModel,
            Seq<char>,
        >(tag),
        tag.start + tag.size <= d.len() <= usize::MAX,
    ensures
        ({
            let place = Some(
                PropertyPatch { offset: tag.start as usize, size: tag.size as usize },
            );
            let all = layout::parts_from(dialect, names, d, p, parts);
            let end = tag.start + tag.size;
            &&& text::same_folded(name, "Format"@) ==> all == layout::parts_from(
                dialect,
                names,
                d,
                end,
                (LayoutParts { format: place, ..parts }),
            )
            &&& text::same_folded(name, "USize"@) ==> all == layout::parts_from(
                dialect,
                names,
                d,
                end,
                (LayoutParts { width: place, ..parts }),
            )
            &&& text::same_folded(name, "VSize"@) ==> all == layout::parts_from(
                dialect,
                names,
                d,
                end,
                (LayoutParts { height: place, ..parts }),
            )
            &&& text::same_folded(name, "UBits"@) ==> all == layout::parts_from(
                dialect,
                names,
                d,
                end,
                (LayoutParts { u_bits: place, ..parts }),
            )
            &&& text::same_folded(name, "VBits"@) ==> all == layout::parts_from(
                dialect,
                names,
                d,
                end,
                (LayoutParts { v_bits: place, ..parts }),
            )
            &&& text::same_folded(name, "Split9X1"@) ==> all == layout::parts_from(
                dialect,
                names,
                d,
                end,
                (LayoutParts { split9_x1: place, ..parts }),
            )
            &&& text::same_folded(name, "Split9X2"@) ==> all == layout::parts_from(
                dialect,
                names,
                d,
                end,
                (LayoutParts { split9_x2: place, ..parts }),
            )
            &&& text::same_folded(name, "Split9X3"@) ==> all == layout::parts_from(
                dialect,
                names,
                d,
                end,
                (LayoutParts { split9_x3: place, ..parts }),
            )
            &&& text::same_folded(name, "Split9Y1"@) ==> all == layout::parts_from(
                dialect,
                names,
                d,
                end,
                (LayoutParts { split9_y1: place, ..parts }),
            )
            &&& text::same_folded(name, "Split9Y2"@) ==> all == layout::parts_from(
                dialect,
                names,
                d,
                end,
                (LayoutParts { split9_y2: place, ..parts }),
            )
            &&& text::same_folded(name, "Split9Y3"@) ==> all == layout::parts_from(
                dialect,
                names,
                d,
                end,
                (LayoutParts { split9_y3: place, ..parts }),
            )
            &&& !text::same_folded(name, "Format"@) && !text::same_folded(name, "USize"@) && !text::same_folded(name, "VSize"@) && !text::same_folded(name, "UBits"@) && !text::same_folded(name, "VBits"@) && !text::same_folded(name, "AnimNext"@) && !text::same_folded(name, "Split9X1"@) && !text::same_folded(name, "Split9X2"@) && !text::same_folded(name, "Split9X3"@) && !text::same_folded(name, "Split9Y1"@) && !text::same_folded(name, "Split9Y2"@) && !text::same_folded(name, "Split9Y3"@) && !text::same_folded(name, "None"@) ==> all == layout::parts_from(dialect, names, d, end, parts)
        }),
{
    places_differ();
    let (_, q) = reader::compact_at(dialect, d, p)->Ok_0;
    reader::compact_moves(dialect, d, p);
    reader::tag_moves(dialect, d, q);
    let m = place_mark(name);
}

/// Whether two places have no byte in common.
pub open spec fn are_apart(a: Option<PropertyPatch>, b: Option<PropertyPatch>) -> bool {
    match (a, b) {
        (Some(a), Some(b)) => a.offset + a.size <= b.offset || b.offset + b.size <= a.offset,
        _ => true,
    }
}

/// Whether the bytes at a place are a number.
pub open spec fn holds_at(d: Seq<u8>, place: Option<PropertyPatch>, value: int) -> bool {
    place matches Some(p) ==> {
        &&& p.offset + p.size <= d.len()
        &&& p.size == 1 || p.size == 2 || p.size == 4
        &&& listing_laws::stored_number(d, p.offset as int, p.size as int) == value
    }
}

/// Whether the bytes at a place are those of another text of bytes.
pub open spec fn same_at(d: Seq<u8>, e: Seq<u8>, place: Option<PropertyPatch>) -> bool {
    place matches Some(p) ==> forall|k: int|
        p.offset <= k < p.offset + p.size && k < d.len() ==> #[trigger] d[k] == e[k]
}

proof fn patches_hold(dialect: Dialect, d: Seq<u8>, patch: PropertyPatch, value: i32)
    ensures
        layout::patched(dialect, d, patch, value) matches Ok(e) ==> {
            &&& e.len() == d.len()
            &&& holds_at(e, Some(patch), value as int)
            &&& forall|k: int|
                0 <= k < d.len() && !(patch.offset <= k < patch.offset + patch.size)
                    ==> #[trigger] e[k] == d[k]
        },
{
    if let Ok(e) = layout::patched(dialect, d, patch, value) {
        let at = patch.offset as int;
        if patch.size == 2 {
            let b = bytes::le16(value as u16);
            assert(e[at] == b[0] && e[at + 1] == b[1]);
        } else if patch.size == 4 {
            let b = bytes::i32_bytes(value);
            assert(e[at] == b[0] && e[at + 1] == b[1] && e[at + 2] == b[2] && e[at + 3] == b[3]);
            let bits = bytes::bits_of(value) as int;
            assert(b[0] + 256 * b[1] + 65536 * b[2] + 16777216 * b[3] == bits);
        }
    }
}

proof fn patches_leave(
    dialect: Dialect,
    d: Seq<u8>,
    patch: PropertyPatch,
    value: i32,
    other: Option<PropertyPatch>,
    held: int,
)
    requires
        are_apart(Some(patch), other),
        holds_at(d, other, held),
    ensures
        layout::patched(dialect, d, patch, value) matches Ok(e) ==> holds_at(e, other, held),
{
    patches_hold(dialect, d, patch, value);
}

/// A value of the nine parts: where it has a place it is there, and where it has none it
/// is zero.
pub open spec fn part_is(d: Seq<u8>, place: Option<PropertyPatch>, value: i32) -> bool {
    &&& holds_at(d, place, value as int)
    &&& place is None ==> value == 0
}

proof fn part_is_stored(
    d: Result<Seq<u8>, Seq<char>>,
    name: Seq<char>,
    place: Option<PropertyPatch>,
    value: i32,
    other: Option<PropertyPatch>,
    held: int,
)
    requires
        are_apart(place, other),
        d matches Ok(b) ==> holds_at(b, other, held),
    ensures
        layout::split9_patched(d, name, place, value) matches Ok(e) ==> {
            &&& d is Ok
            &&& e.len() == d->Ok_0.len()
            &&& part_is(e, place, value)
            &&& holds_at(e, other, held)
        },
{
    if let (Ok(b), Some(p)) = (d, place) {
        patches_hold(Dialect::Frontend, b, p, value);
        patches_leave(Dialect::Frontend, b, p, value, other, held);
    }
}

/// Whether no two places of the nine parts have a byte in common.
pub open spec fn parts_apart(layout: TextureLayout) -> bool {
    &&& are_apart(layout.split9_x1, layout.split9_x2)
    &&& are_apart(layout.split9_x1, layout.split9_x3)
    &&& are_apart(layout.split9_x1, layout.split9_y1)
    &&& are_apart(layout.split9_x1, layout.split9_y2)
    &&& are_apart(layout.split9_x1, layout.split9_y3)
    &&& are_apart(layout.split9_x2, layout.split9_x3)
    &&& are_apart(layout.split9_x2, layout.split9_y1)
    &&& are_apart(layout.split9_x2, layout.split9_y2)
    &&& are_apart(layout.split9_x2, layout.split9_y3)
    &&& are_apart(layout.split9_x3, layout.split9_y1)
    &&& are_apart(layout.split9_x3, layout.split9_y2)
    &&& are_apart(layout.split9_x3, layout.split9_y3)
    &&& are_apart(layout.split9_y1, layout.split9_y2)
    &&& are_apart(layout.split9_y1, layout.split9_y3)
    &&& are_apart(layout.split9_y2, layout.split9_y3)
}

/// Each of the nine parts' numbers is stored at its own place, whatever the others are.
#[verifier::spinoff_prover]
#[verifier::rlimit(40)]
pub proof fn parts_are_stored_at_their_place(d: Seq<u8>, layout: TextureLayout, split9: Split9)
    requires
        parts_apart(layout),
    ensures
        layout::with_split9(d, layout, split9) matches Ok(e) ==> {
            &&& e.len() == d.len()
            &&& part_is(e, layout.split9_x1, split9.x1)
            &&& part_is(e, layout.split9_x2, split9.x2)
            &&& part_is(e, layout.split9_x3, split9.x3)
            &&& part_is(e, layout.split9_y1, split9.y1)
            &&& part_is(e, layout.split9_y2, split9.y2)
            &&& part_is(e, layout.split9_y3, split9.y3)
        },
{
    let d0 = Ok::<Seq<u8>, Seq<char>>(d);
    let d1 = layout::split9_patched(d0, "Split9X1"@, layout.split9_x1, split9.x1);
    part_is_stored(d0, "Split9X1"@, layout.split9_x1, split9.x1, None, 0);
    let d2 = layout::split9_patched(d1, "Split9X2"@, layout.split9_x2, split9.x2);
    part_is_stored(d1, "Split9X2"@, layout.split9_x2, split9.x2, None, 0);
    part_is_stored(
        d1,
        "Split9X2"@,
        layout.split9_x2,
        split9.x2,
        layout.split9_x1,
        split9.x1 as int,
    );
    let d3 = layout::split9_patched(d2, "Split9X3"@, layout.split9_x3, split9.x3);
    part_is_stored(d2, "Split9X3"@, layout.split9_x3, split9.x3, None, 0);
    part_is_stored(
        d2,
        "Split9X3"@,
        layout.split9_x3,
        split9.x3,
        layout.split9_x1,
        split9.x1 as int,
    );
    part_is_stored(
        d2,
        "Split9X3"@,
        layout.split9_x3,
        split9.x3,
        layout.split9_x2,
        split9.x2 as int,
    );
    let d4 = layout::split9_patched(d3, "Split9Y1"@, layout.split9_y1, split9.y1);
    part_is_stored(d3, "Split9Y1"@, layout.split9_y1, split9.y1, None, 0);
    part_is_stored(
        d3,
        "Split9Y1"@,
        layout.split9_y1,
        split9.y1,
        layout.split9_x1,
        split9.x1 as int,
    );
    part_is_stored(
        d3,
        "Split9Y1"@,
        layout.split9_y1,
        split9.y1,
        layout.split9_x2,
        split9.x2 as int,
    );
    part_is_stored(
        d3,
        "Split9Y1"@,
        layout.split9_y1,
        split9.y1,
        layout.split9_x3,
        split9.x3 as int,
    );
    let d5 = layout::split9_patched(d4, "Split9Y2"@, layout.split9_y2, split9.y2);
    part_is_stored(d4, "Split9Y2"@, layout.split9_y2, split9.y2, None, 0);
    part_is_stored(
        d4,
        "Split9Y2"@,
        layout.split9_y2,
        split9.y2,
        layout.split9_x1,
        split9.x1 as int,
    );
    part_is_stored(
        d4,
        "Split9Y2"@,
        layout.split9_y2,
        split9.y2,
        layout.split9_x2,
        split9.x2 as int,
    );
    part_is_stored(
        d4,
        "Split9Y2"@,
        layout.split9_y2,
        split9.y2,
        layout.split9_x3,
        split9.x3 as int,
    );
    part_is_stored(
        d4,
        "Split9Y2"@,
        layout.split9_y2,
        split9.y2,
        layout.split9_y1,
        split9.y1 as int,
    );
    let d6 = layout::split9_patched(d5, "Split9Y3"@, layout.split9_y3, split9.y3);
    part_is_stored(d5, "Split9Y3"@, layout.split9_y3, split9.y3, None, 0);
    part_is_stored(
        d5,
        "Split9Y3"@,
        layout.split9_y3,
        split9.y3,
        layout.split9_x1,
        split9.x1 as int,
    );
    part_is_stored(
        d5,
        "Split9Y3"@,
        layout.split9_y3,
        split9.y3,
        layout.split9_x2,
        split9.x2 as int,
    );
    part_is_stored(
        d5,
        "Split9Y3"@,
        layout.split9_y3,
        split9.y3,
        layout.split9_x3,
        split9.x3 as int,
    );
    part_is_stored(
        d5,
        "Split9Y3"@,
        layout.split9_y3,
        split9.y3,
        layout.split9_y1,
        split9.y1 as int,
    );
    part_is_stored(
        d5,
        "Split9Y3"@,
        layout.split9_y3,
        split9.y3,
        layout.split9_y2,
        split9.y2 as int,
    );
}

/// Whether no two places of the format and of the dimensions have a byte in common.
pub open spec fn dimensions_apart(layout: TextureLayout) -> bool {
    &&& are_apart(Some(layout.format), layout.width)
    &&& are_apart(Some(layout.format), layout.height)
    &&& are_apart(Some(layout.format), layout.u_bits)
    &&& are_apart(Some(layout.format), layout.v_bits)
    &&& are_apart(layout.width, layout.height)
    &&& are_apart(layout.width, layout.u_bits)
    &&& are_apart(layout.width, layout.v_bits)
    &&& are_apart(layout.height, layout.u_bits)
    &&& are_apart(layout.height, layout.v_bits)
    &&& are_apart(layout.u_bits, layout.v_bits)
}

proof fn dimension_is_stored(
    dialect: Dialect,
    d: Result<Seq<u8>, Seq<char>>,
    place: Option<PropertyPatch>,
    value: Result<i32, Seq<char>>,
    other: Option<PropertyPatch>,
    held: int,
)
    requires
        are_apart(place, other),
        d matches Ok(b) ==> holds_at(b, other, held),
    ensures
        layout::patched_if(dialect, d, place, value) matches Ok(e) ==> {
            &&& d is Ok
            &&& e.len() == d->Ok_0.len()
            &&& place is Some ==> value is Ok && holds_at(e, place, value->Ok_0 as int)
            &&& holds_at(e, other, held)
        },
{
    if let (Ok(b), Some(p)) = (d, place) {
        if let Ok(v) = value {
            patches_hold(dialect, b, p, v);
            patches_leave(dialect, b, p, v, other, held);
        }
    }
}

/// The properties of a texture with a new picture store its format, its width and its
/// height, and of both the exponents, each at its own place.
#[verifier::spinoff_prover]
#[verifier::rlimit(40)]
pub proof fn dimensions_are_stored_at_their_place(
    dialect: Dialect,
    d: Seq<u8>,
    layout: TextureLayout,
    format: u8,
    width: i32,
    height: i32,
)
    requires
        dimensions_apart(layout),
    ensures
        layout::dimensions_patched(dialect, d, layout, format, width, height, None) matches Ok(e)
            ==> {
            &&& e.len() == d.len()
            &&& holds_at(e, Some(layout.format), format as int)
            &&& holds_at(e, layout.width, width as int)
            &&& holds_at(e, layout.height, height as int)
            &&& layout.u_bits is Some ==> exists|u: nat|
                width == #[trigger] vstd::arithmetic::power2::pow2(u) && holds_at(
                    e,
                    layout.u_bits,
                    u as int,
                )
            &&& layout.v_bits is Some ==> exists|v: nat|
                height == #[trigger] vstd::arithmetic::power2::pow2(v) && holds_at(
                    e,
                    layout.v_bits,
                    v as int,
                )
        },
{
    let u = layout::bits_of_dimension(dialect, width);
    let v = layout::bits_of_dimension(dialect, height);
    let d0 = layout::patched(dialect, d, layout.format, format as i32);
    patches_hold(dialect, d, layout.format, format as i32);
    let d1 = layout::patched_if(dialect, d0, layout.width, Ok(width));
    let d2 = layout::patched_if(dialect, d1, layout.height, Ok(height));
    let d3 = layout::patched_if(dialect, d2, layout.u_bits, u);
    let d4 = layout::patched_if(dialect, d3, layout.v_bits, v);
    let ui = if u is Ok {
        u->Ok_0 as int
    } else {
        0
    };
    dimension_is_stored(dialect, d0, layout.width, Ok(width), Some(layout.format), format as int);
    dimension_is_stored(dialect, d1, layout.height, Ok(height), Some(layout.format), format as int);
    dimension_is_stored(dialect, d1, layout.height, Ok(height), layout.width, width as int);
    dimension_is_stored(dialect, d2, layout.u_bits, u, Some(layout.format), format as int);
    dimension_is_stored(dialect, d2, layout.u_bits, u, layout.width, width as int);
    dimension_is_stored(dialect, d2, layout.u_bits, u, layout.height, height as int);
    dimension_is_stored(dialect, d3, layout.v_bits, v, Some(layout.format), format as int);
    dimension_is_stored(dialect, d3, layout.v_bits, v, layout.width, width as int);
    dimension_is_stored(dialect, d3, layout.v_bits, v, layout.height, height as int);
    dimension_is_stored(dialect, d3, layout.v_bits, v, layout.u_bits, ui);
    if let Ok(e) = layout::dimensions_patched(dialect, d, layout, format, width, height, None) {
        assert(d4 == Ok::<Seq<u8>, Seq<char>>(e));
        if layout.u_bits is Some {
            layout::exact_log2_is_exponent(width as int);
            assert(holds_at(e, layout.u_bits, u->Ok_0 as int));
            assert(width == vstd::arithmetic::power2::pow2(u->Ok_0 as nat));
        }
        if layout.v_bits is Some {
            layout::exact_log2_is_exponent(height as int);
            assert(holds_at(e, layout.v_bits, v->Ok_0 as int));
            assert(height == vstd::arithmetic::power2::pow2(v->Ok_0 as nat));
        }
    }
}

proof fn four_parts(v: i32)
    requires
        v >= 0,
    ensures
        ({
            let b = bytes::i32_bytes(v);
            b.len() == 4 && b[0] + 256 * b[1] + 65536 * b[2] + 16777216 * b[3] == v
        }),
{
}

/// A new texture ends with its picture, its width and its height in four bytes each, and
/// the exponents of both.
#[verifier::spinoff_prover]
#[verifier::rlimit(40)]
pub proof fn new_textures_end_with_their_picture(
    dialect: Dialect,
    d: Seq<u8>,
    layout: TextureLayout,
    image: ImageModel,
    split9: Option<Split9>,
)
    ensures
        layout::new_texture(dialect, d, layout, image, split9) matches Ok((bytes, at)) ==> {
            &&& at + 10 == bytes.len()
            &&& image.pixels.len() <= at
            &&& bytes.subrange(at - image.pixels.len(), at) == image.pixels
            &&& bytes[at] + 256 * bytes[at + 1] + 65536 * bytes[at + 2] + 16777216 * bytes[at + 3]
                == image.width
            &&& bytes[at + 4] + 256 * bytes[at + 5] + 65536 * bytes[at + 6] + 16777216 * bytes[at
                + 7] == image.height
            &&& image.width == vstd::arithmetic::power2::pow2(bytes[at + 8] as nat)
            &&& image.height == vstd::arithmetic::power2::pow2(bytes[at + 9] as nat)
        },
{
    if let Ok((b, at)) = layout::new_texture(dialect, d, layout, image, split9) {
        layout::exact_log2_is_exponent(image.width as int);
        layout::exact_log2_is_exponent(image.height as int);
        let properties = layout::new_properties(dialect, d, layout, image, split9)->Ok_0;
        let head = layout::before_dimensions(properties, d, layout, image.pixels);
        let front = head.take(at - image.pixels.len());
        assert(head =~= front + image.pixels);
        assert(at == head.len());
        assert(b.subrange(at - image.pixels.len(), at) =~= image.pixels);
        let w = bytes::i32_bytes(image.width);
        let h = bytes::i32_bytes(image.height);
        assert(b[at] == w[0] && b[at + 1] == w[1] && b[at + 2] == w[2] && b[at + 3] == w[3]);
        assert(b[at + 4] == h[0] && b[at + 5] == h[1] && b[at + 6] == h[2] && b[at + 7] == h[3]);
        vstd::arithmetic::power2::lemma_pow2_pos(layout::exact_log2(image.width as int)->0 as nat);
        vstd::arithmetic::power2::lemma_pow2_pos(
            layout::exact_log2(image.height as int)->0 as nat,
        );
        four_parts(image.width);
        four_parts(image.height);
    }
}

} // verus!
