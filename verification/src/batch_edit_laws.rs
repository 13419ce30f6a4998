//! What holds of several edits of the textures of one file: each shows, and what none
//! of them speaks of stays.

use vstd::prelude::*;
use crate::package::PackageModel;
use crate::properties::{RecordModel, TextureEditorEdit};
use crate::reader::Dialect;
use crate::adding_laws;
use crate::edits;
use crate::file_laws;
use crate::image_laws;
use crate::import_laws;
use crate::layout;
use crate::package;
use crate::package_laws;
use crate::properties;
use crate::property_laws;
use crate::replacement_laws;
use crate::texture_engine;

verus! {

/// The properties in the list of an object.
pub open spec fn list_of(p: PackageModel, index: int) -> Option<Seq<RecordModel>> {
    match package::data_of(Dialect::Engine, p.data, p.exports[index]) {
        Err(_) => None,
        Ok(raw) => match properties::stream_from(raw, p.names, 0) {
            Err(_) => None,
            Ok(stream) => Some(stream.properties),
        },
    }
}

/// The picture that a texture shows.
pub struct Picture {
    pub width: i32,
    pub height: i32,
    pub pixels: Seq<u8>,
}

pub open spec fn picture_of(p: PackageModel, index: int) -> Option<Picture> {
    match (package::data_of(Dialect::Engine, p.data, p.exports[index]), edits::mip_of(p, index)) {
        (Ok(raw), Ok(mip)) => Some(
            Picture {
                width: mip.width,
                height: mip.height,
                pixels: raw.subrange(mip.pixel_offset as int, mip.pixel_offset + mip.size),
            },
        ),
        _ => None,
    }
}

/// Whether none of the first `n` edits is about a property of an export.
pub open spec fn none_names(
    edits: Seq<(usize, TextureEditorEdit)>,
    n: int,
    index: int,
    name: Seq<char>,
) -> bool {
    forall|j: int|
        0 <= j < n && (#[trigger] edits[j]).0 == index ==> property_laws::not_named(
            properties::steps_of(edits[j].1),
            properties::steps_of(edits[j].1).len() as int,
            name,
        )
}

/// A texture shows the same with more names.
proof fn pictures_keep_with_names(p: PackageModel, q: PackageModel, index: int)
    requires
        0 <= index < p.exports.len(),
        index < q.exports.len(),
        property_laws::extends(p.names, q.names),
        q.version == p.version,
        q.licensee == p.licensee,
        package::data_of(Dialect::Engine, q.data, q.exports[index]) == package::data_of(
            Dialect::Engine,
            p.data,
            p.exports[index],
        ),
        p.data.len() <= usize::MAX,
    ensures
        picture_of(p, index) is Some ==> picture_of(q, index) == picture_of(p, index),
        list_of(p, index) is Some ==> list_of(q, index) == list_of(p, index),
{
    let e = Dialect::Engine;
    if let Ok(raw) = package::data_of(e, p.data, p.exports[index]) {
        if properties::stream_from(raw, p.names, 0) is Ok {
            image_laws::lists_keep_their_end(p.names, q.names, raw, 0);
        }
        if edits::package_layout(e, p, raw) is Ok {
            layout::layout_bounds(e, p.names, p.version, p.licensee, raw);
            image_laws::extended_names_are_alike(p.names, q.names);
            image_laws::layouts_are_alike(p.names, q.names, p.version, p.licensee, raw, raw);
        }
    }
}

/// What one edit leaves of a texture: its picture, and its list but for what the edit
/// names. A texture that the edit is not about keeps its place and its bytes.
#[verifier::opaque]
pub open spec fn edit_leaves(
    p: PackageModel,
    q: PackageModel,
    target: int,
    edit: TextureEditorEdit,
    index: int,
) -> bool {
    &&& property_laws::extends(p.names, q.names)
    &&& q.exports.len() == p.exports.len()
    &&& package_laws::stands_behind_header(q.exports[index])
    &&& picture_of(p, index) is Some ==> picture_of(q, index) == picture_of(p, index)
    &&& target != index ==> {
        &&& q.exports[index] == p.exports[index]
        &&& package_laws::object_kept(p, q, index)
        &&& list_of(p, index) is Some ==> list_of(q, index) == list_of(p, index)
    }
    &&& target == index && properties::steps_of(edit).len() == 0 ==> q == p
    &&& target == index && properties::steps_of(edit).len() > 0 ==> {
        &&& list_of(p, index) matches Some(before)
        &&& list_of(q, index) matches Some(after)
        &&& import_laws::shows_edit(after, before, edit)
    }
}

/// What one edit leaves of the texture that it is about.
#[verifier::spinoff_prover]
#[verifier::rlimit(60)]
proof fn edit_of_a_texture(
    p: PackageModel,
    q: PackageModel,
    target: usize,
    edit: TextureEditorEdit,
)
    requires
        36 <= p.data.len() <= usize::MAX,
        target < p.exports.len(),
        properties::steps_of(edit).len() > 0,
        package::header_of(Dialect::Engine, p.data) is Ok,
        edits::edited(p, seq![(target, edit)]) matches Ok(after) && after.data.len()
            <= usize::MAX && q == (PackageModel { name_offset: q.name_offset, ..after }),
    ensures
        edit_leaves(p, q, target as int, edit, target as int),
{
    let e = Dialect::Engine;
    let index = target as int;
    let list = seq![(target, edit)];
    reveal(edit_leaves);
    let after = edits::edited(p, list)->Ok_0;
    package_laws::edits_keep_pixels(p, target, edit);
    image_laws::edited_mips_move(p, list, 0);
    image_laws::edited_textures_have_layouts(p, target, edit);
    edited_stand_behind_header(p, target, edit);
    let raw = package::data_of(e, p.data, p.exports[index])->Ok_0;
    let layout = edits::package_layout(e, p, raw)->Ok_0;
    assert(edits::mip_of(q, index) == edits::mip_of(after, index));
    let object = package::data_of(e, after.data, after.exports[index])->Ok_0;
    let other = edits::package_layout(e, after, object)->Ok_0;
    assert(image_laws::mip_moved(
        raw,
        layout.mip_count_offset as int,
        object,
        other.mip_count_offset as int,
    ));
}

/// What one edit leaves of another texture.
#[verifier::spinoff_prover]
#[verifier::rlimit(60)]
proof fn edit_of_another_texture(
    p: PackageModel,
    q: PackageModel,
    target: usize,
    edit: TextureEditorEdit,
    index: int,
)
    requires
        36 <= p.data.len() <= usize::MAX,
        target < p.exports.len(),
        target != index,
        0 <= index < p.exports.len(),
        package_laws::stands_behind_header(p.exports[index]),
        package::header_of(Dialect::Engine, p.data) is Ok,
        edits::edited(p, seq![(target, edit)]) matches Ok(after) && after.data.len()
            <= usize::MAX && q == (PackageModel { name_offset: q.name_offset, ..after }),
    ensures
        edit_leaves(p, q, target as int, edit, index),
{
    let e = Dialect::Engine;
    reveal(edit_leaves);
    let after = edits::edited(p, seq![(target, edit)])->Ok_0;
    package_laws::edits_keep_pixels(p, target, edit);
    same_version(p, seq![(target, edit)]);
    assert(package_laws::object_kept(p, after, index));
    if package::data_of(e, p.data, p.exports[index]) is Ok {
        pictures_keep_with_names(p, q, index);
    }
}

proof fn same_version(p: PackageModel, edits: Seq<(usize, TextureEditorEdit)>)
    ensures
        edits::edited(p, edits) matches Ok(after) ==> after.version == p.version
            && after.licensee == p.licensee,
{
    reveal(edits::edited);
}

/// What one edit of a file leaves of a texture.
proof fn one_edit_of_a_file(d: Seq<u8>, target: usize, edit: TextureEditorEdit, index: int)
    requires
        d.len() <= usize::MAX,
        texture_engine::edited_file(d, target, edit) matches Ok(written) && written.len()
            <= usize::MAX,
        0 <= index < package::package_of(Dialect::Engine, d)->Ok_0.exports.len(),
        package_laws::stands_behind_header(
            package::package_of(Dialect::Engine, d)->Ok_0.exports[index],
        ),
    ensures
        ({
            let p = package::package_of(Dialect::Engine, d)->Ok_0;
            let written = texture_engine::edited_file(d, target, edit)->Ok_0;
            &&& package::package_of(Dialect::Engine, written) matches Ok(q)
            &&& edit_leaves(p, q, target as int, edit, index)
        }),
{
    let e = Dialect::Engine;
    let p = package::package_of(e, d)->Ok_0;
    let written = texture_engine::edited_file(d, target, edit)->Ok_0;
    if properties::steps_of(edit).len() == 0 {
        reveal(texture_engine::edited_file);
        reveal(edit_leaves);
        assert(p.names =~= p.names.take(p.names.len() as int));
    } else {
        image_laws::written_edits_are_read(d, target, edit);
        let q = package::package_of(e, written)->Ok_0;
        if target == index {
            edit_of_a_texture(p, q, target, edit);
        } else {
            edit_of_another_texture(p, q, target, edit, index);
        }
    }
}

proof fn edited_stand_behind_header(p: PackageModel, target: usize, edit: TextureEditorEdit)
    requires
        target < p.exports.len(),
        36 <= p.data.len(),
        edits::edited(p, seq![(target, edit)]) is Ok,
    ensures
        edits::edited(p, seq![(target, edit)])->Ok_0.exports[target as int].offset >= 36,
{
    reveal(edits::edited);
    let list = seq![(target, edit)];
    let (_, done) = edits::rewritten_textures(p, list, 1)->Ok_0;
    adding_laws::rewritten_in_turn(p, list, 1);
    reveal_with_fuel(edits::placed, 2);
}

/// An edited file is not shorter than it was.
proof fn edited_file_is_longer(d: Seq<u8>, target: usize, edit: TextureEditorEdit)
    ensures
        texture_engine::edited_file(d, target, edit) matches Ok(written)
            ==> d.len() <= written.len(),
{
    reveal(texture_engine::edited_file);
    if let Ok(p) = package::package_of(Dialect::Engine, d) {
        file_laws::edited_data_is_longer(p, seq![(target, edit)]);
    }
}

/// Whether the list of an object shows every step of an edit.
pub open spec fn list_shows(p: PackageModel, index: int, edit: TextureEditorEdit) -> bool {
    let steps = properties::steps_of(edit);
    steps.len() > 0 ==> {
        &&& list_of(p, index) matches Some(records)
        &&& forall|s: int|
            0 <= s < steps.len() ==> property_laws::shows(records, #[trigger] steps[s])
    }
}

/// What the first `n` edits leave of a texture: its list shows the last edit about it,
/// every property that no edit about it names has the value that it had, and the picture
/// stays. A texture that none of them is about keeps its place and its bytes.
#[verifier::opaque]
pub open spec fn edits_leave(
    p: PackageModel,
    q: PackageModel,
    edits: Seq<(usize, TextureEditorEdit)>,
    n: nat,
    index: int,
) -> bool {
    &&& property_laws::extends(p.names, q.names)
    &&& q.exports.len() == p.exports.len()
    &&& package_laws::stands_behind_header(q.exports[index])
    &&& picture_of(p, index) is Some ==> picture_of(q, index) == picture_of(p, index)
    &&& list_of(p, index) matches Some(before) ==> {
        &&& list_of(q, index) matches Some(after)
        &&& forall|name: Seq<char>|
            none_names(edits, n as int, index, name) ==> #[trigger] properties::value_of(
                after,
                name,
            ) == properties::value_of(before, name)
    }
    &&& match replacement_laws::last_edit(edits, n, index) {
        None => q.exports[index] == p.exports[index] && package_laws::object_kept(p, q, index),
        Some(j) => list_shows(q, index, edits[j].1),
    }
}

proof fn one_edit_more(
    p: PackageModel,
    b: PackageModel,
    q: PackageModel,
    edits: Seq<(usize, TextureEditorEdit)>,
    n: nat,
    index: int,
)
    requires
        0 < n <= edits.len(),
        edits_leave(p, b, edits, (n - 1) as nat, index),
        edit_leaves(b, q, edits[n - 1].0 as int, edits[n - 1].1, index),
    ensures
        edits_leave(p, q, edits, n, index),
{
    reveal(edits_leave);
    reveal(edit_leaves);
    let (target, edit) = edits[n - 1];
    package_laws::extends_twice(p.names, b.names, q.names);
    if let Some(first) = list_of(p, index) {
        let middle = list_of(b, index)->Some_0;
        let after = list_of(q, index)->Some_0;
        assert forall|name: Seq<char>| none_names(edits, n as int, index, name) implies
            #[trigger] properties::value_of(after, name) == properties::value_of(first, name) by {
            assert(none_names(edits, n - 1, index, name));
            assert(properties::value_of(middle, name) == properties::value_of(first, name));
            if target == index {
                assert(edits[n - 1].0 == index);
            }
        }
    }
    assert(picture_of(p, index) is Some ==> picture_of(q, index) == picture_of(p, index));
    match replacement_laws::last_edit(edits, n, index) {
        None => {
            assert(target != index);
            assert(package_laws::object_kept(p, q, index));
        },
        Some(j) => {
            if target != index {
                assert(replacement_laws::last_edit(edits, (n - 1) as nat, index) == Some(j));
                assert(list_shows(b, index, edits[j].1));
            } else {
                assert(j == n - 1);
            }
            assert(list_shows(q, index, edits[j].1));
        },
    }
}

/// After several edits of a file each texture shows the last edit about it. Every other
/// property keeps its value, every texture shows the picture that it showed, and an object
/// that no edit is about keeps its place and its bytes.
pub proof fn all_edits_of_a_file_show(
    d: Seq<u8>,
    edits: Seq<(usize, TextureEditorEdit)>,
    n: nat,
    index: int,
)
    requires
        d.len() <= usize::MAX,
        n <= edits.len(),
        package::package_of(Dialect::Engine, d) is Ok,
        texture_engine::edited_files(d, edits, n) matches Ok(written) && written.len()
            <= usize::MAX,
        0 <= index < package::package_of(Dialect::Engine, d)->Ok_0.exports.len(),
        package_laws::stands_behind_header(
            package::package_of(Dialect::Engine, d)->Ok_0.exports[index],
        ),
    ensures
        ({
            let p = package::package_of(Dialect::Engine, d)->Ok_0;
            let written = texture_engine::edited_files(d, edits, n)->Ok_0;
            &&& package::package_of(Dialect::Engine, written) matches Ok(q)
            &&& edits_leave(p, q, edits, n, index)
        }),
    decreases n,
{
    let e = Dialect::Engine;
    let p = package::package_of(e, d)->Ok_0;
    if n == 0 {
        reveal(edits_leave);
        assert(p.names =~= p.names.take(p.names.len() as int));
    } else {
        let m = (n - 1) as nat;
        let before = texture_engine::edited_files(d, edits, m)->Ok_0;
        let written = texture_engine::edited_files(d, edits, n)->Ok_0;
        let (target, edit) = edits[n - 1];
        edited_file_is_longer(before, target, edit);
        all_edits_of_a_file_show(d, edits, m, index);
        let b = package::package_of(e, before)->Ok_0;
        assert(b.exports.len() == p.exports.len() && package_laws::stands_behind_header(
            b.exports[index],
        )) by {
            reveal(edits_leave);
        }
        one_edit_of_a_file(before, target, edit, index);
        one_edit_more(p, b, package::package_of(e, written)->Ok_0, edits, n, index);
    }
}

} // verus!
