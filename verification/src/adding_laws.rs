//! What holds when textures are added: what was there stays, and a new texture
//! holds the image that it was made for.

use vstd::prelude::*;
use crate::adding::Adding;
use crate::edits::{RequestModel, RewrittenModel};
use crate::layout::{ImageModel, Split9, TextureLayout};
use crate::package::{ExportEntry, PackageModel};
use crate::properties::TextureEditorEdit;
use crate::reader::Dialect;
use crate::adding;
use crate::bytes;
use crate::edits;
use crate::layout;
use crate::package;
use crate::package_laws;
use crate::reader;
use crate::tables;
use crate::texture_engine;

verus! {

/// The mip map of a new texture has the pixels and the dimensions of the image
/// that the texture was made for.
#[verifier::spinoff_prover]
#[verifier::rlimit(40)]
pub proof fn new_textures_hold_their_image(
    dialect: Dialect,
    d: Seq<u8>,
    layout: TextureLayout,
    image: ImageModel,
    split9: Option<Split9>,
)
    requires
        layout.mip_payload_offset == layout.mip_count_offset + 5,
        layout.mip_payload_offset <= d.len(),
        layout::new_texture(dialect, d, layout, image, split9) matches Ok((made, _)) && made.len()
            <= usize::MAX,
    ensures
        ({
            let (made, _) = layout::new_texture(dialect, d, layout, image, split9)->Ok_0;
            let properties = layout::new_properties(dialect, d, layout, image, split9)->Ok_0;
            &&& layout::mip_from(dialect, made, properties.len() as int) matches Ok(mip)
            &&& mip.width == image.width
            &&& mip.height == image.height
            &&& mip.size == image.pixels.len()
            &&& mip.pixel_offset + mip.size + 10 == made.len()
            &&& made.subrange(mip.pixel_offset as int, mip.pixel_offset + mip.size) == image.pixels
        }),
{
    reveal(layout::mip_from);
    let (made, _) = layout::new_texture(dialect, d, layout, image, split9)->Ok_0;
    let properties = layout::new_properties(dialect, d, layout, image, split9)->Ok_0;
    let p = properties.len() as int;
    let size = image.pixels.len() as i32;
    let length = reader::compact_bytes(size);
    let at = p + 5 + length.len();
    assert(made[p] == 1);
    assert(made.subrange(p + 5, at) =~= length);
    reader::compact_here(dialect, made, p + 5, size);
    let end = at + image.pixels.len();
    assert(made.subrange(at, end) =~= image.pixels);
    bytes::integers_round_trip(0, image.width, 0, 0);
    bytes::integers_round_trip(0, image.height, 0, 0);
    assert(made.subrange(end, end + 4) =~= bytes::i32_bytes(image.width));
    assert(made.subrange(end + 4, end + 8) =~= bytes::i32_bytes(image.height));
}

/// Rewritten textures are those that the edits name.
pub proof fn rewritten_in_turn(p: PackageModel, edits: Seq<(usize, TextureEditorEdit)>, n: nat)
    requires
        n <= edits.len(),
    ensures
        edits::rewritten_textures(p, edits, n) matches Ok((_, done)) ==> done.len() == n && forall|
            k: int,
        |
            0 <= k < n ==> (#[trigger] done[k]).index == edits[k].0 && done[k].index
                < p.exports.len(),
    decreases n,
{
    if n > 0 {
        reveal(edits::rewritten_texture);
        rewritten_in_turn(p, edits, (n - 1) as nat);
    }
}

/// Placing rewritten textures leaves the exports of all others.
pub proof fn placed_keeps_others(
    data: Seq<u8>,
    exports: Seq<ExportEntry>,
    done: Seq<RewrittenModel>,
    n: nat,
    k: int,
)
    requires
        n <= done.len(),
        0 <= k < exports.len(),
        forall|i: int|
            0 <= i < n ==> (#[trigger] done[i]).index != k && 0 <= done[i].index < exports.len(),
    ensures
        edits::placed(data, exports, done, n) matches Ok((_, after)) ==> after.len()
            == exports.len() && after[k] == exports[k],
    decreases n,
{
    if n > 0 {
        placed_keeps_others(data, exports, done, (n - 1) as nat, k);
    }
}

/// Whether none of the edits is about an export.
pub open spec fn not_edited(edits: Seq<(usize, TextureEditorEdit)>, k: int) -> bool {
    forall|i: int| 0 <= i < edits.len() ==> (#[trigger] edits[i]).0 != k
}

/// Edits of some textures leave every other object where it is, byte for byte.
pub proof fn edits_keep_others(
    p: PackageModel,
    edits: Seq<(usize, TextureEditorEdit)>,
    k: int,
)
    requires
        0 <= k < p.exports.len(),
        not_edited(edits, k),
        edits::edited(p, edits) is Ok,
    ensures
        ({
            let after = edits::edited(p, edits)->Ok_0;
            &&& k < after.exports.len()
            &&& after.exports[k] == p.exports[k]
            &&& package_laws::stands_behind_header(p.exports[k]) ==> package_laws::object_kept(
                p,
                after,
                k,
            )
        }),
{
    reveal(edits::edited);
    if edits.len() > 0 {
        let after = edits::edited(p, edits)->Ok_0;
        let (names, done) = edits::rewritten_textures(p, edits, edits.len())->Ok_0;
        let (data, exports) = edits::placed(p.data, p.exports, done, done.len())->Ok_0;
        rewritten_in_turn(p, edits, edits.len());
        placed_keeps_others(p.data, p.exports, done, done.len(), k);
        package_laws::placed_behind(p.data, p.exports, done, done.len());
        package_laws::rebuilt_keeps_data(p, data, names, p.imports, exports);
        let export = p.exports[k];
        if package::data_of(Dialect::Engine, p.data, export) is Ok {
            data_of_longer(p.data, data, export);
        }
    }
}

/// An object is read the same from data that only has more behind it.
pub proof fn data_of_longer(d: Seq<u8>, longer: Seq<u8>, export: ExportEntry)
    requires
        d.len() <= longer.len(),
        longer.take(d.len() as int) == d,
        package::data_of(Dialect::Engine, d, export) is Ok,
    ensures
        package::data_of(Dialect::Engine, longer, export) == package::data_of(
            Dialect::Engine,
            d,
            export,
        ),
{
    let start = export.offset as int;
    let end = export.offset + export.size;
    assert forall|i: int| start <= i < end implies longer[i] == d[i] by {
        assert(longer.take(d.len() as int)[i] == longer[i]);
    }
    assert(longer.subrange(start, end) =~= d.subrange(start, end));
}

pub proof fn textures_stand_behind(
    p: PackageModel,
    template: PackageModel,
    group: Seq<char>,
    outer: i32,
    start: Adding,
    requests: Seq<RequestModel>,
    n: nat,
)
    ensures
        adding::with_textures(p, template, group, outer, start, requests, n) matches Ok(state) ==> {
            &&& state.exports.len() == start.exports.len() + n
            &&& forall|k: int|
                0 <= k < start.exports.len() ==> #[trigger] state.exports[k] == start.exports[k]
        },
    decreases n,
{
    if n > 0 {
        textures_stand_behind(p, template, group, outer, start, requests, (n - 1) as nat);
        reveal(adding::with_texture);
        reveal(adding::with_built);
    }
}

proof fn edits_of_targets(
    p: PackageModel,
    requests: Seq<RequestModel>,
    targets: Seq<usize>,
    n: nat,
    k: int,
)
    requires
        n <= targets.len(),
        forall|i: int| 0 <= i < targets.len() ==> #[trigger] targets[i] != k,
    ensures
        adding::import_edits(p, requests, targets, n) matches Ok(edits) ==> not_edited(edits, k),
    decreases n,
{
    if n > 0 {
        edits_of_targets(p, requests, targets, (n - 1) as nat, k);
    }
}

/// New textures stand behind what was there: every object that a package held
/// keeps its index, its place and its bytes.
#[verifier::spinoff_prover]
#[verifier::rlimit(40)]
pub proof fn additions_keep_objects(
    p: PackageModel,
    template: PackageModel,
    group: Seq<char>,
    requests: Seq<RequestModel>,
    k: int,
)
    requires
        0 <= k < p.exports.len(),
        p.exports.len() + requests.len() < usize::MAX,
        adding::with_added(p, template, group, requests) is Ok,
    ensures
        ({
            let (after, outcomes) = adding::with_added(p, template, group, requests)->Ok_0;
            &&& outcomes.len() == requests.len()
            &&& k < after.exports.len()
            &&& after.exports[k] == p.exports[k]
            &&& package_laws::stands_behind_header(p.exports[k]) ==> package_laws::object_kept(
                p,
                after,
                k,
            )
        }),
{
    reveal(adding::with_added);
    if requests.len() > 0 {
        let (after, outcomes) = adding::with_added(p, template, group, requests)->Ok_0;
        let place = texture_engine::with_outer(p, group)->Ok_0;
        package_laws::outer_keeps_tables(p, group);
        let start = adding::start_of(place, p, group);
        let state = adding::with_textures(
            p,
            template,
            group,
            place.outer,
            start,
            requests,
            requests.len(),
        )->Ok_0;
        textures_stand_behind(p, template, group, place.outer, start, requests, requests.len());
        let data = p.data + state.appended;
        let built = tables::rebuilt(p, data, state.names, place.imports, state.exports)->Ok_0;
        package_laws::rebuilt_keeps_data(p, data, state.names, place.imports, state.exports);
        let targets = adding::new_targets(place.exports.len() as int, requests.len());
        let edits = adding::import_edits(built, requests, targets, requests.len())->Ok_0;
        assert(place.exports.len() <= p.exports.len() + 1);
        assert forall|i: int| 0 <= i < targets.len() implies #[trigger] targets[i] != k by {}
        edits_of_targets(built, requests, targets, requests.len(), k);
        assert(state.exports[k] == place.exports[k]);
        assert(built.exports[k] == p.exports[k]);
        edits_keep_others(built, edits, k);
        let export = p.exports[k];
        if package::data_of(Dialect::Engine, p.data, export) is Ok {
            assert(data.take(p.data.len() as int) =~= p.data);
            data_of_longer(p.data, data, export);
        }
    }
}

} // verus!
