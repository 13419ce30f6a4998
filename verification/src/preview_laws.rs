//! What holds of textures that one reader wrote and the other shows.

use vstd::prelude::*;
use crate::edits::RequestModel;
use crate::entries::TextureProperties;
use crate::layout::{ImageModel, LayoutParts};
use crate::names::NameModel;
use crate::package::PackageModel;
use crate::reader::Dialect;
use crate::edits;
use crate::entries;
use crate::file_laws;
use crate::image_laws;
use crate::layout;
use crate::listing;
use crate::names;
use crate::package;
use crate::reader;
use crate::reference_laws;
use crate::text;
use crate::texture_engine;

verus! {

/// Both readers find the same compact integer.
proof fn compact_is_read_alike(d: Seq<u8>, p: int)
    ensures
        reader::compact_at(Dialect::Engine, d, p) is Ok ==> reader::compact_at(
            Dialect::Frontend,
            d,
            p,
        ) == reader::compact_at(Dialect::Engine, d, p),
{
    reveal(reader::compact_at);
}

/// Both readers find the same tag.
proof fn tags_are_read_alike(d: Seq<u8>, p: int)
    ensures
        reader::tag_at(Dialect::Engine, d, p) is Ok ==> reader::tag_at(Dialect::Frontend, d, p)
            == reader::tag_at(Dialect::Engine, d, p),
{
    reveal(reader::tag_at);
    assert forall|q: int|
        (#[trigger] reader::compact_at(Dialect::Engine, d, q)) is Ok implies reader::compact_at(
        Dialect::Frontend,
        d,
        q,
    ) == reader::compact_at(Dialect::Engine, d, q) by {
        compact_is_read_alike(d, q);
    }
}

/// A list that the engine can lay out is read to its end by the other reader.
proof fn lists_end_alike(
    names: Seq<NameModel>,
    d: Seq<u8>,
    p: int,
    parts: LayoutParts,
    t: TextureProperties,
)
    requires
        0 <= p,
        d.len() <= usize::MAX,
        layout::parts_from(Dialect::Engine, names, d, p, parts) is Ok,
    ensures
        entries::properties_from(names, d, p, t) matches Ok((_, end)) && end
            == layout::parts_from(Dialect::Engine, names, d, p, parts)->Ok_0.1,
    decreases d.len() - p,
{
    let e = Dialect::Engine;
    reader::compact_moves(e, d, p);
    compact_is_read_alike(d, p);
    let (index, q) = reader::compact_at(e, d, p)->Ok_0;
    let name = names::name_at(names, index)->Ok_0;
    if !text::same_folded(name, "None"@) {
        reader::tag_moves(e, d, q);
        tags_are_read_alike(d, q);
        let tag = reader::tag_at(e, d, q)->Ok_0;
        let end = tag.start + tag.size;
        compact_is_read_alike(d.subrange(tag.start, end), 0);
        reference_laws::next_frame_is_no_part();
        let noted = entries::property_noted(d, t, name, tag);
        assert(noted is Ok);
        let (more, read) = noted->Ok_0;
        assert(tag.start <= read <= end);
        lists_end_alike(
            names,
            d,
            end,
            layout::noted(e, d, parts, name, tag)->Ok_0,
            more,
        );
    }
}

proof fn strings_are_read_alike(d: Seq<u8>, p: int)
    ensures
        reader::string_at(Dialect::Engine, d, p) is Ok ==> reader::string_at(
            Dialect::Frontend,
            d,
            p,
        ) == reader::string_at(Dialect::Engine, d, p),
{
    reveal(reader::string_at);
    compact_is_read_alike(d, p);
}

proof fn string_lists_are_read_alike(d: Seq<u8>, p: int, n: nat)
    ensures
        reader::after_strings(Dialect::Engine, d, p, n) is Ok ==> reader::after_strings(
            Dialect::Frontend,
            d,
            p,
            n,
        ) == reader::after_strings(Dialect::Engine, d, p, n),
    decreases n,
{
    if n > 0 {
        strings_are_read_alike(d, p);
        if let Ok((_, q)) = reader::string_at(Dialect::Engine, d, p) {
            string_lists_are_read_alike(d, q, (n - 1) as nat);
        }
    }
}

proof fn groups_are_read_alike(d: Seq<u8>, p: int, n: nat)
    ensures
        reader::after_groups(Dialect::Engine, d, p, n) is Ok ==> reader::after_groups(
            Dialect::Frontend,
            d,
            p,
            n,
        ) == reader::after_groups(Dialect::Engine, d, p, n),
    decreases n,
{
    let e = Dialect::Engine;
    if n > 0 {
        strings_are_read_alike(d, p);
        if let Ok((_, q)) = reader::string_at(e, d, p) {
            if let Ok((extra, q1)) = reader::u8_at(e, d, q) {
                string_lists_are_read_alike(d, q1, extra as nat);
                if let Ok(q2) = reader::after_strings(e, d, q1, extra as nat) {
                    groups_are_read_alike(d, q2, (n - 1) as nat);
                }
            }
        }
    }
}

proof fn metadata_is_read_alike(d: Seq<u8>, p: int, size: int)
    ensures
        reader::after_metadata(Dialect::Engine, d, p, size) is Ok ==> reader::after_metadata(
            Dialect::Frontend,
            d,
            p,
            size,
        ) == reader::after_metadata(Dialect::Engine, d, p, size),
{
    let e = Dialect::Engine;
    if let Ok(q) = reader::skip_end(e, d, p, size) {
        compact_is_read_alike(d, q);
        if let Ok((n, q1)) = reader::compact_at(e, d, q) {
            if n >= 0 {
                groups_are_read_alike(d, q1, n as nat);
                if let Ok(q2) = reader::after_groups(e, d, q1, n as nat) {
                    strings_are_read_alike(d, q2);
                }
            }
        }
    }
}

/// Both readers find the mip maps behind the same block.
proof fn extras_are_read_alike(d: Seq<u8>, p: int, version: i32, licensee: i32)
    ensures
        reader::after_extra(Dialect::Engine, d, p, version, licensee) is Ok
            ==> reader::after_extra(Dialect::Frontend, d, p, version, licensee)
            == reader::after_extra(Dialect::Engine, d, p, version, licensee),
{
    string_lists_are_read_alike(d, p + 1067, 17);
    string_lists_are_read_alike(d, p + 1058, 17);
    metadata_is_read_alike(d, p, 36);
    metadata_is_read_alike(d, p, 92);
}

/// An image that the engine finds is shown in previews and exports.
pub proof fn held_images_are_shown(p: PackageModel, index: int, image: ImageModel)
    requires
        p.data.len() <= usize::MAX,
        image_laws::holds_image(p, index, image),
    ensures
        listing::pixels_of(p, index) == Ok::<Seq<u8>, Seq<char>>(image.pixels),
{
    let e = Dialect::Engine;
    let raw = package::data_of(e, p.data, p.exports[index])->Ok_0;
    let layout = edits::package_layout(e, p, raw)->Ok_0;
    let mip = edits::mip_of(p, index)->Ok_0;
    layout::layout_bounds(e, p.names, p.version, p.licensee, raw);
    layout::mip_bounds(e, raw, layout.mip_count_offset as int);
    reveal(layout::layout_of);
    reveal(layout::mip_from);
    reveal(entries::properties_of);
    let parts = layout::no_parts();
    let (_, q) = layout::parts_from(e, p.names, raw, 0, parts)->Ok_0;
    layout::parts_end(e, p.names, raw, 0, parts);
    layout::extra_end(e, raw, q, p.version, p.licensee);
    lists_end_alike(p.names, raw, 0, parts, entries::no_properties());
    extras_are_read_alike(raw, q, p.version, p.licensee);
    compact_is_read_alike(raw, layout.mip_count_offset + 5);
    assert(listing::texture_in(p, raw) is Ok);
    assert(listing::texture_in(p, raw)->Ok_0.1 == mip);
}

/// The pixels of an image that was imported as a new texture are those that are
/// previewed and exported from the written file. Left out is a package that is named
/// like a word of the layout and whose template has a texture with a property that
/// goes by the template's own name.
pub proof fn imported_pixels_are_shown(
    d: Seq<u8>,
    template: Seq<u8>,
    group: Seq<char>,
    requests: Seq<RequestModel>,
    i: int,
)
    requires
        0 <= i < requests.len(),
        d.len() <= usize::MAX,
        template.len() <= usize::MAX,
        texture_engine::added_to_file(d, template, group, requests) matches Ok((after, _))
            && after.data.len() <= usize::MAX,
        ({
            let p = package::package_of(Dialect::Engine, d)->Ok_0;
            &&& p.exports.len() + requests.len() < usize::MAX
            &&& image_laws::own_name_fits(
                p,
                package::package_of(Dialect::Engine, template)->Ok_0,
            )
        }),
    ensures
        ({
            let (after, outcomes) = texture_engine::added_to_file(
                d,
                template,
                group,
                requests,
            )->Ok_0;
            &&& package::package_of(Dialect::Frontend, after.data) matches Ok(q)
            &&& listing::pixels_of(q, outcomes[i].export_index as int) == Ok::<
                Seq<u8>,
                Seq<char>,
            >(requests[i].image.pixels)
        }),
{
    let (after, outcomes) = texture_engine::added_to_file(d, template, group, requests)->Ok_0;
    let index = outcomes[i].export_index as int;
    file_laws::written_additions_are_read(d, template, group, requests);
    image_laws::imported_images_are_read_back(d, template, group, requests, i);
    let q = package::package_of(Dialect::Frontend, after.data)->Ok_0;
    let other = package::package_of(Dialect::Engine, after.data)->Ok_0;
    assert(image_laws::holds_image(other, index, requests[i].image));
    assert(image_laws::holds_image(q, index, requests[i].image));
    held_images_are_shown(q, index, requests[i].image);
}

} // verus!
