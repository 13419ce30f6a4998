//! What holds of the tables of a package: they are read the same whatever its objects
//! hold.

use vstd::prelude::*;
use crate::edits::RequestModel;
use crate::names::NameModel;
use crate::package::{ExportEntry, ImportEntry, PackageModel};
use crate::properties::TextureEditorEdit;
use crate::reader::Dialect;
use crate::tables::Places;
use crate::texture_engine::ReplacementModel;
use crate::names;
use crate::package;
use crate::property_laws;
use crate::reader;
use crate::replacement_laws;
use crate::tables;
use crate::texture_engine;
use crate::adding;
use crate::edits;
use crate::file_laws;
use crate::import_laws;
use crate::mixed_laws;
use crate::package_laws;
use crate::bytes;
use crate::image_laws;

verus! {

/// Whether two files are the same from one place to another.
pub open spec fn agree(d: Seq<u8>, c: Seq<u8>, from: int, to: int) -> bool {
    forall|k: int| from <= k < to ==> #[trigger] c[k] == d[k]
}

proof fn compacts_are_read_alike(d: Seq<u8>, c: Seq<u8>, p: int)
    requires
        0 <= p,
        c.len() == d.len(),
        reader::compact_at(Dialect::Engine, d, p) matches Ok((_, q)) && agree(d, c, p, q),
    ensures
        reader::compact_at(Dialect::Engine, c, p) == reader::compact_at(Dialect::Engine, d, p),
{
    let e = Dialect::Engine;
    reader::compact_moves(e, d, p);
    let (_, q) = reader::compact_at(e, d, p)->Ok_0;
    assert forall|k: int| 0 <= k < q - p implies #[trigger] c[p + k] == d[p + k] by {}
    property_laws::compact_is_local(e, d, p, c, p, q - p);
}

proof fn integers_are_read_alike(d: Seq<u8>, c: Seq<u8>, p: int)
    requires
        0 <= p,
        c.len() == d.len(),
        reader::i32_read(Dialect::Engine, d, p) is Ok,
        agree(d, c, p, p + 4),
    ensures
        reader::i32_read(Dialect::Engine, c, p) == reader::i32_read(Dialect::Engine, d, p),
        reader::i32_read(Dialect::Engine, d, p)->Ok_0.1 == p + 4,
        p + 4 <= d.len(),
{
    assert(c.subrange(p, p + 4) =~= d.subrange(p, p + 4));
}

proof fn names_move(d: Seq<u8>, p: int, n: nat)
    requires
        0 <= p,
    ensures
        names::names_from(Dialect::Engine, d, p, n) matches Ok((_, end)) ==> p <= end,
    decreases n,
{
    if n > 0 {
        let e = Dialect::Engine;
        reveal(reader::string_at);
        reader::compact_moves(e, d, p);
        if let Ok((_, q)) = reader::string_at(e, d, p) {
            if let Ok((_, q1)) = reader::i32_read(e, d, q) {
                names_move(d, q1, (n - 1) as nat);
            }
        }
    }
}

proof fn names_are_read_alike(d: Seq<u8>, c: Seq<u8>, p: int, n: nat)
    requires
        0 <= p,
        c.len() == d.len(),
        names::names_from(Dialect::Engine, d, p, n) matches Ok((_, end)) && agree(d, c, p, end),
    ensures
        names::names_from(Dialect::Engine, c, p, n) == names::names_from(Dialect::Engine, d, p, n),
    decreases n,
{
    if n > 0 {
        let e = Dialect::Engine;
        let (_, end) = names::names_from(e, d, p, n)->Ok_0;
        let (_, q) = reader::string_at(e, d, p)->Ok_0;
        let (_, q1) = reader::i32_read(e, d, q)->Ok_0;
        reveal(reader::string_at);
        reader::compact_moves(e, d, p);
        names_move(d, q1, (n - 1) as nat);
        let (count, start) = reader::compact_at(e, d, p)->Ok_0;
        compacts_are_read_alike(d, c, p);
        if count > 0 {
            assert(c.subrange(start, q - 1) =~= d.subrange(start, q - 1));
        } else if count < 0 {
            assert(c.subrange(start, q - 2) =~= d.subrange(start, q - 2));
        }
        assert(reader::string_at(e, c, p) == reader::string_at(e, d, p));
        integers_are_read_alike(d, c, q);
        names_are_read_alike(d, c, q1, (n - 1) as nat);
    }
}

proof fn import_moves(d: Seq<u8>, p: int)
    requires
        0 <= p,
    ensures
        package::import_at(Dialect::Engine, d, p) matches Ok((_, q)) ==> p <= q,
{
    reveal(package::import_at);
    let e = Dialect::Engine;
    reader::compact_moves(e, d, p);
    if let Ok((_, q)) = reader::compact_at(e, d, p) {
        reader::compact_moves(e, d, q);
        if let Ok((_, q1)) = reader::compact_at(e, d, q) {
            reader::compact_moves(e, d, q1 + 4);
        }
    }
}

proof fn imports_move(d: Seq<u8>, p: int, n: nat)
    requires
        0 <= p,
    ensures
        package::imports_from(Dialect::Engine, d, p, n) matches Ok((_, end)) ==> p <= end,
    decreases n,
{
    if n > 0 {
        import_moves(d, p);
        if let Ok((_, q)) = package::import_at(Dialect::Engine, d, p) {
            imports_move(d, q, (n - 1) as nat);
        }
    }
}

proof fn imports_are_read_alike(d: Seq<u8>, c: Seq<u8>, p: int, n: nat)
    requires
        0 <= p,
        c.len() == d.len(),
        package::imports_from(Dialect::Engine, d, p, n) matches Ok((_, end)) && agree(d, c, p, end),
    ensures
        package::imports_from(Dialect::Engine, c, p, n)
            == package::imports_from(Dialect::Engine, d, p, n),
    decreases n,
{
    if n > 0 {
        reveal(package::import_at);
        let e = Dialect::Engine;
        let (_, q) = package::import_at(e, d, p)->Ok_0;
        import_moves(d, p);
        imports_move(d, q, (n - 1) as nat);
        let (_, a) = reader::compact_at(e, d, p)->Ok_0;
        let (_, b) = reader::compact_at(e, d, a)->Ok_0;
        reader::compact_moves(e, d, p);
        reader::compact_moves(e, d, a);
        reader::compact_moves(e, d, b + 4);
        compacts_are_read_alike(d, c, p);
        compacts_are_read_alike(d, c, a);
        integers_are_read_alike(d, c, b);
        compacts_are_read_alike(d, c, b + 4);
        imports_are_read_alike(d, c, q, (n - 1) as nat);
    }
}

proof fn table_export_moves(d: Seq<u8>, p: int, name_count: int)
    requires
        0 <= p,
    ensures
        package::export_at(Dialect::Engine, d, p, name_count, false) matches Ok((_, q)) ==> p <= q,
{
    let e = Dialect::Engine;
    reveal(package::export_at);
    reader::compact_moves(e, d, p);
    if let Ok((_, a)) = reader::compact_at(e, d, p) {
        reader::compact_moves(e, d, a);
        if let Ok((_, b)) = reader::compact_at(e, d, a) {
            reader::compact_moves(e, d, b + 4);
            if let Ok((_, f)) = reader::compact_at(e, d, b + 4) {
                reader::compact_moves(e, d, f + 4);
                if let Ok((_, g)) = reader::compact_at(e, d, f + 4) {
                    reader::compact_moves(e, d, g);
                }
            }
        }
    }
}

proof fn exports_move(d: Seq<u8>, p: int, n: nat, name_count: int)
    requires
        0 <= p,
    ensures
        package::exports_from(Dialect::Engine, d, p, n, name_count, false)
            matches Ok((_, end)) ==> p <= end,
    decreases n,
{
    if n > 0 {
        table_export_moves(d, p, name_count);
        if let Ok((_, q)) = package::export_at(Dialect::Engine, d, p, name_count, false) {
            exports_move(d, q, (n - 1) as nat, name_count);
        }
    }
}

proof fn export_is_read_alike(d: Seq<u8>, c: Seq<u8>, p: int, name_count: int)
    requires
        0 <= p,
        c.len() == d.len(),
        package::export_at(Dialect::Engine, d, p, name_count, false) matches Ok((_, q))
            && agree(d, c, p, q),
    ensures
        package::export_at(Dialect::Engine, c, p, name_count, false) == package::export_at(
            Dialect::Engine,
            d,
            p,
            name_count,
            false,
        ),
{
    let e = Dialect::Engine;
    reveal(package::export_at);
    let (_, a) = reader::compact_at(e, d, p)->Ok_0;
    let (_, b) = reader::compact_at(e, d, a)->Ok_0;
    let (_, f) = reader::compact_at(e, d, b + 4)->Ok_0;
    let (size, g) = reader::compact_at(e, d, f + 4)->Ok_0;
    reader::compact_moves(e, d, p);
    reader::compact_moves(e, d, a);
    reader::compact_moves(e, d, b + 4);
    reader::compact_moves(e, d, f + 4);
    reader::compact_moves(e, d, g);
    compacts_are_read_alike(d, c, p);
    compacts_are_read_alike(d, c, a);
    integers_are_read_alike(d, c, b);
    compacts_are_read_alike(d, c, b + 4);
    integers_are_read_alike(d, c, f);
    compacts_are_read_alike(d, c, f + 4);
    if size > 0 {
        compacts_are_read_alike(d, c, g);
    }
}

proof fn exports_are_read_alike(d: Seq<u8>, c: Seq<u8>, p: int, n: nat, name_count: int)
    requires
        0 <= p,
        c.len() == d.len(),
        package::exports_from(Dialect::Engine, d, p, n, name_count, false)
            matches Ok((_, end)) && agree(
            d,
            c,
            p,
            end,
        ),
    ensures
        package::exports_from(Dialect::Engine, c, p, n, name_count, false) == package::exports_from(
            Dialect::Engine,
            d,
            p,
            n,
            name_count,
            false,
        ),
    decreases n,
{
    if n > 0 {
        let (_, q) = package::export_at(Dialect::Engine, d, p, name_count, false)->Ok_0;
        table_export_moves(d, p, name_count);
        exports_move(d, q, (n - 1) as nat, name_count);
        export_is_read_alike(d, c, p, name_count);
        exports_are_read_alike(d, c, q, (n - 1) as nat, name_count);
    }
}

/// Where the table of names ends.
pub open spec fn names_end(d: Seq<u8>) -> int {
    let header = package::header_of(Dialect::Engine, d)->Ok_0;
    names::names_from(
        Dialect::Engine,
        d,
        header.name_offset as int,
        header.name_count as nat,
    )->Ok_0.1
}

/// Where the table of imports ends.
pub open spec fn imports_end(d: Seq<u8>) -> int {
    let header = package::header_of(Dialect::Engine, d)->Ok_0;
    package::imports_from(
        Dialect::Engine,
        d,
        header.import_offset as int,
        header.import_count as nat,
    )->Ok_0.1
}

/// Where the table of exports ends.
pub open spec fn exports_end(d: Seq<u8>) -> int {
    let header = package::header_of(Dialect::Engine, d)->Ok_0;
    package::exports_from(
        Dialect::Engine,
        d,
        header.export_offset as int,
        header.export_count as nat,
        package::package_of(Dialect::Engine, d)->Ok_0.names.len() as int,
        false,
    )->Ok_0.1
}

/// Whether a byte of a file belongs to its header or to one of its tables.
pub open spec fn in_tables(d: Seq<u8>, k: int) -> bool {
    let header = package::header_of(Dialect::Engine, d)->Ok_0;
    ||| 0 <= k < 36
    ||| header.name_offset <= k < names_end(d)
    ||| header.import_offset <= k < imports_end(d)
    ||| header.export_offset <= k < exports_end(d)
}

/// A file in which nothing but objects changed holds the same package.
#[verifier::spinoff_prover]
#[verifier::rlimit(40)]
pub proof fn tables_are_read_alike(d: Seq<u8>, c: Seq<u8>)
    requires
        package::package_of(Dialect::Engine, d) is Ok,
        c.len() == d.len(),
        forall|k: int| 0 <= k < d.len() && in_tables(d, k) ==> #[trigger] c[k] == d[k],
    ensures
        package::package_of(Dialect::Engine, c) == Ok::<PackageModel, Seq<char>>(
            PackageModel { data: c, ..package::package_of(Dialect::Engine, d)->Ok_0 },
        ),
        forall|k: int| #[trigger] in_tables(c, k) == in_tables(d, k),
{
    let e = Dialect::Engine;
    let p = package::package_of(e, d)->Ok_0;
    let header = package::header_of(e, d)->Ok_0;
    tables::header_needs_bytes(e, d);
    assert(agree(d, c, 0, 36)) by {
        assert forall|k: int| 0 <= k < 36 implies #[trigger] c[k] == d[k] by {
            assert(in_tables(d, k));
        }
    }
    assert(package::header_of(e, c) == package::header_of(e, d)) by {
        integers_are_read_alike(d, c, 0);
        integers_are_read_alike(d, c, 4);
        integers_are_read_alike(d, c, 12);
        integers_are_read_alike(d, c, 16);
        integers_are_read_alike(d, c, 20);
        integers_are_read_alike(d, c, 24);
        integers_are_read_alike(d, c, 28);
        integers_are_read_alike(d, c, 32);
    }
    let names_at = header.name_offset as int;
    let imports_at = header.import_offset as int;
    let exports_at = header.export_offset as int;
    names_reach(d, names_at, header.name_count as nat);
    imports_reach(d, imports_at, header.import_count as nat);
    exports_reach(d, exports_at, header.export_count as nat, p.names.len() as int);
    assert(agree(d, c, names_at, names_end(d))) by {
        assert forall|k: int| names_at <= k < names_end(d) implies #[trigger] c[k] == d[k] by {
            assert(in_tables(d, k));
        }
    }
    assert(agree(d, c, imports_at, imports_end(d))) by {
        assert forall|k: int| imports_at <= k < imports_end(d) implies #[trigger] c[k] == d[k] by {
            assert(in_tables(d, k));
        }
    }
    assert(agree(d, c, exports_at, exports_end(d))) by {
        assert forall|k: int| exports_at <= k < exports_end(d) implies #[trigger] c[k] == d[k] by {
            assert(in_tables(d, k));
        }
    }
    names_are_read_alike(d, c, names_at, header.name_count as nat);
    imports_are_read_alike(d, c, imports_at, header.import_count as nat);
    exports_are_read_alike(
        d,
        c,
        exports_at,
        header.export_count as nat,
        p.names.len() as int,
    );
}

proof fn names_reach(d: Seq<u8>, p: int, n: nat)
    requires
        0 <= p <= d.len(),
    ensures
        names::names_from(Dialect::Engine, d, p, n) matches Ok((_, end)) ==> end <= d.len(),
    decreases n,
{
    if n > 0 {
        let e = Dialect::Engine;
        reveal(reader::string_at);
        reader::compact_moves(e, d, p);
        if let Ok((_, q)) = reader::string_at(e, d, p) {
            if let Ok((_, q1)) = reader::i32_read(e, d, q) {
                names_reach(d, q1, (n - 1) as nat);
            }
        }
    }
}

proof fn imports_reach(d: Seq<u8>, p: int, n: nat)
    requires
        0 <= p <= d.len(),
    ensures
        package::imports_from(Dialect::Engine, d, p, n) matches Ok((_, end)) ==> end <= d.len(),
    decreases n,
{
    if n > 0 {
        reveal(package::import_at);
        let e = Dialect::Engine;
        import_moves(d, p);
        if let Ok((_, q)) = package::import_at(e, d, p) {
            let (_, a) = reader::compact_at(e, d, p)->Ok_0;
            let (_, b) = reader::compact_at(e, d, a)->Ok_0;
            reader::compact_moves(e, d, p);
            reader::compact_moves(e, d, a);
            reader::compact_moves(e, d, b + 4);
            imports_reach(d, q, (n - 1) as nat);
        }
    }
}

proof fn exports_reach(d: Seq<u8>, p: int, n: nat, name_count: int)
    requires
        0 <= p <= d.len(),
    ensures
        package::exports_from(Dialect::Engine, d, p, n, name_count, false)
            matches Ok((_, end)) ==> end
            <= d.len(),
    decreases n,
{
    if n > 0 {
        let e = Dialect::Engine;
        if let Ok((_, q)) = package::export_at(e, d, p, name_count, false) {
            assert(p <= q <= d.len()) by {
                reveal(package::export_at);
                let (_, a) = reader::compact_at(e, d, p)->Ok_0;
                let (_, b) = reader::compact_at(e, d, a)->Ok_0;
                let (_, f) = reader::compact_at(e, d, b + 4)->Ok_0;
                let (_, g) = reader::compact_at(e, d, f + 4)->Ok_0;
                reader::compact_moves(e, d, p);
                reader::compact_moves(e, d, a);
                reader::compact_moves(e, d, b + 4);
                reader::compact_moves(e, d, f + 4);
                reader::compact_moves(e, d, g);
            }
            exports_reach(d, q, (n - 1) as nat, name_count);
        }
    }
}

/// Whether the objects that are named stand beside the header and the tables of a file.
pub open spec fn beside_tables(d: Seq<u8>, targets: Seq<usize>) -> bool {
    let p = package::package_of(Dialect::Engine, d)->Ok_0;
    forall|k: int| 0 <= k < d.len() && #[trigger] in_tables(d, k)
        ==> replacement_laws::in_none(p.exports, targets, k)
}

/// The package in which several textures were replaced is the one that a reader finds in
/// the written file.
pub proof fn written_replacements_are_read(d: Seq<u8>, replacements: Seq<ReplacementModel>)
    requires
        d.len() <= usize::MAX,
        texture_engine::replaced_in_file(d, replacements) is Ok,
        beside_tables(d, replacement_laws::targets_of(replacements)),
    ensures
        ({
            let (after, _) = texture_engine::replaced_in_file(d, replacements)->Ok_0;
            package::package_of(Dialect::Engine, after.data) == Ok::<PackageModel, Seq<char>>(after)
        }),
{
    let p = package::package_of(Dialect::Engine, d)->Ok_0;
    let (after, _) = texture_engine::replaced_in_file(d, replacements)->Ok_0;
    replacement_laws::replacements_keep_the_rest(p, replacements);
    tables_are_read_alike(d, after.data);
}

/// One replacement is several of them with nothing beside it.
pub proof fn one_is_several(p: PackageModel, index: usize, request: RequestModel)
    ensures
        texture_engine::replaced_one(p, index, request) matches Ok(after)
            ==> (texture_engine::replaced_all(
            p,
            seq![ReplacementModel { index, request }],
        ) matches Ok((other, _)) && other == after),
{
    let list = seq![ReplacementModel { index, request }];
    reveal_with_fuel(texture_engine::with_replacements, 2);
    reveal_with_fuel(edits::edited_in_place_all, 2);
    if let Ok(after) = texture_engine::replaced_one(p, index, request) {
        let (middle, edits) = texture_engine::with_replacements(p, list, 1)->Ok_0;
        if edits.len() > 0 {
            assert(edits.len() == 1);
        }
    }
}

/// The package in which one texture was replaced is the one that a reader finds in the
/// written file.
pub proof fn written_replacement_is_read(d: Seq<u8>, index: usize, request: RequestModel)
    requires
        d.len() <= usize::MAX,
        texture_engine::replaced_one_in_file(d, index, request) is Ok,
        beside_tables(d, seq![index]),
    ensures
        ({
            let written = texture_engine::replaced_one_in_file(d, index, request)->Ok_0;
            let p = package::package_of(Dialect::Engine, d)->Ok_0;
            &&& texture_engine::replaced_one(p, index, request) matches Ok(after)
            &&& after.data == written
            &&& package::package_of(Dialect::Engine, written)
                == Ok::<PackageModel, Seq<char>>(after)
        }),
{
    let p = package::package_of(Dialect::Engine, d)->Ok_0;
    let list = seq![ReplacementModel { index, request }];
    one_is_several(p, index, request);
    assert(replacement_laws::targets_of(list) =~= seq![index]);
    written_replacements_are_read(d, list);
}

/// Where the tables of a file start is what its header says.
proof fn places_stand_in_header(d: Seq<u8>, at: int)
    requires
        package::header_of(Dialect::Engine, d) is Ok,
        at <= bytes::i32_of(d.subrange(16, 20)),
        at <= bytes::i32_of(d.subrange(24, 28)),
        at <= bytes::i32_of(d.subrange(32, 36)),
    ensures
        stand_behind(d, at),
{
}

/// Rebuilt tables stand behind the data that they were added to.
#[verifier::spinoff_prover]
#[verifier::rlimit(60)]
proof fn rebuilt_tables_stand_behind(
    p: PackageModel,
    data: Seq<u8>,
    names: Seq<NameModel>,
    imports: Seq<ImportEntry>,
    exports: Seq<ExportEntry>,
)
    requires
        tables::rebuilt(p, data, names, imports, exports) matches Ok(after) && package::header_of(
            Dialect::Engine,
            after.data,
        ) is Ok,
    ensures
        stand_behind(tables::rebuilt(p, data, names, imports, exports)->Ok_0.data, data.len() as int),
{
    let table = names::names_bytes(Dialect::Engine, names)->Ok_0;
    let full = data + table + package::imports_bytes(imports) + package::exports_bytes(exports);
    let places = Places {
        name_count: names.len() as int,
        name_offset: data.len() as int,
        export_count: exports.len() as int,
        export_offset: (data.len() + table.len() + package::imports_bytes(imports).len()) as int,
        import_count: imports.len() as int,
        import_offset: (data.len() + table.len()) as int,
    };
    tables::places_are_read(full, places, tables::rebuild_texts());
    let d = tables::rebuilt(p, data, names, imports, exports)->Ok_0.data;
    assert(tables::with_places(full, places, tables::rebuild_texts()) == Ok::<Seq<u8>, Seq<char>>(
        d,
    ));
    places_stand_in_header(d, data.len() as int);
}

/// Whether the tables of a file stand behind a place.
pub open spec fn stand_behind(d: Seq<u8>, at: int) -> bool {
    let header = package::header_of(Dialect::Engine, d)->Ok_0;
    &&& at <= header.name_offset
    &&& at <= header.import_offset
    &&& at <= header.export_offset
}

/// The tables of a package to which textures were added stand behind what was there.
#[verifier::spinoff_prover]
#[verifier::rlimit(40)]
proof fn added_tables_stand_behind(
    p: PackageModel,
    template: PackageModel,
    group: Seq<char>,
    requests: Seq<RequestModel>,
)
    requires
        requests.len() > 0,
        adding::with_added(p, template, group, requests) matches Ok((after, _))
            && package::header_of(
            Dialect::Engine,
            after.data,
        ) is Ok,
    ensures
        stand_behind(
            adding::with_added(p, template, group, requests)->Ok_0.0.data,
            p.data.len() as int,
        ),
{
    import_laws::added_after_built(p, template, group, requests);
    let (after, _) = adding::with_added(p, template, group, requests)->Ok_0;
    let (built, first) = adding::built_with(p, template, group, requests)->Ok_0;
    let edits = adding::import_edits(
        built,
        requests,
        adding::new_targets(first, requests.len()),
        requests.len(),
    )->Ok_0;
    built_tables_stand_behind(p, template, group, requests);
    reveal(edits::edited);
    if edits.len() > 0 {
        let (names, done) = edits::rewritten_textures(built, edits, edits.len())->Ok_0;
        let (data, exports) = edits::placed(built.data, built.exports, done, done.len())->Ok_0;
        package_laws::placed_behind(built.data, built.exports, done, done.len());
        rebuilt_tables_stand_behind(built, data, names, built.imports, exports);
    }
}

proof fn built_tables_stand_behind(
    p: PackageModel,
    template: PackageModel,
    group: Seq<char>,
    requests: Seq<RequestModel>,
)
    requires
        adding::built_with(p, template, group, requests) is Ok,
    ensures
        ({
            let (built, _) = adding::built_with(p, template, group, requests)->Ok_0;
            &&& p.data.len() <= built.data.len()
            &&& package::header_of(Dialect::Engine, built.data) is Ok ==> stand_behind(
                built.data,
                p.data.len() as int,
            )
        }),
{
    let (built, _) = adding::built_with(p, template, group, requests)->Ok_0;
    let place = texture_engine::with_outer(p, group)->Ok_0;
    let state = adding::with_textures(
        p,
        template,
        group,
        place.outer,
        adding::start_of(place, p, group),
        requests,
        requests.len(),
    )->Ok_0;
    let data = p.data + state.appended;
    package_laws::rebuilt_keeps_data(p, data, state.names, place.imports, state.exports);
    if package::header_of(Dialect::Engine, built.data) is Ok {
        rebuilt_tables_stand_behind(p, data, state.names, place.imports, state.exports);
    }
}

/// Whether the textures that an import replaces stand beside the header and the tables
/// of a file.
pub open spec fn replaced_beside_tables(
    d: Seq<u8>,
    group: Seq<char>,
    requests: Seq<RequestModel>,
) -> bool {
    let p = package::package_of(Dialect::Engine, d)->Ok_0;
    let keys = tables::texture_keys(p, p.exports.len())->Ok_0;
    forall|k: int, j: int|
        0 <= k < d.len() && #[trigger] in_tables(d, k) && 0 <= j < requests.len()
            ==> (texture_engine::existing_of(
            keys,
            group,
            #[trigger] requests[j],
        ) matches Some(index) ==> !replacement_laws::in_object(p.exports[index], k))
}

/// The package that an import makes of a file, in which it replaces some textures and
/// adds others, is the one that a reader finds in the written file.
#[verifier::spinoff_prover]
#[verifier::rlimit(60)]
pub proof fn written_imports_are_read(
    d: Seq<u8>,
    template: Seq<u8>,
    group: Seq<char>,
    requests: Seq<RequestModel>,
)
    requires
        d.len() <= usize::MAX,
        template.len() <= usize::MAX,
        package::package_of(Dialect::Engine, d)->Ok_0.exports.len() + requests.len() < usize::MAX,
        replaced_beside_tables(d, group, requests),
        texture_engine::imported_into_file(d, template, group, requests) matches Ok((after, _))
            && after.data.len() <= usize::MAX,
    ensures
        file_laws::is_read(Dialect::Engine, texture_engine::imported_into_file(d, template, group, requests)->Ok_0.0),
{
    let e = Dialect::Engine;
    let p = package::package_of(e, d)->Ok_0;
    let t = package::package_of(e, template)->Ok_0;
    let keys = tables::texture_keys(p, p.exports.len())->Ok_0;
    let (after, _) = texture_engine::imported_into_file(d, template, group, requests)->Ok_0;
    let (sorted, grown, _, edits) = mixed_laws::import_parts(p, t, group, requests);
    let targets = sorted.targets;
    let middle = sorted.package;
    file_laws::exports_are_few(d);
    file_laws::exports_are_few(template);
    mixed_laws::sorted_in_turn(p, group, requests, requests.len(), 0, 0);
    replacement_laws::pixels_keep_outside(p, targets, sorted.replaced, targets.len());
    assert forall|k: int| 0 <= k < d.len() && #[trigger] in_tables(d, k)
        implies replacement_laws::in_none(
        p.exports,
        targets,
        k,
    ) by {
        assert forall|m: int|
            0 <= m < targets.len() && (#[trigger] targets[m]) < p.exports.len()
                implies !replacement_laws::in_object(
            p.exports[targets[m] as int],
            k,
        ) by {
            let j = choose|j: int|
                0 <= j < requests.len()
                    && texture_engine::existing_of(keys, group, #[trigger] requests[j])
                    == Some(targets[m] as int);
        }
    }
    assert forall|k: int| 0 <= k < d.len() && in_tables(d, k) implies #[trigger] middle.data[k]
        == d[k] by {
        assert(replacement_laws::in_none(p.exports, targets, k));
    }
    tables_are_read_alike(d, middle.data);
    replacement_laws::edits_in_place_keep_outside(grown, edits, edits.len());
    file_laws::written_additions_are_read(middle.data, template, group, sorted.added);
    mixed_laws::additions_keep_tables(middle, t, group, sorted.added);
    let q = package::package_of(e, grown.data)->Ok_0;
    replacement_laws::edits_of_requests(grown, sorted.replaced, targets, targets.len(), 0);
    grown_tables_stand_aside(d, p, middle, t, group, sorted.added, targets, grown);
    assert forall|k: int| 0 <= k < grown.data.len() && in_tables(grown.data, k) implies
        #[trigger] after.data[k] == grown.data[k] by {
        assert(replacement_laws::in_none(p.exports, targets, k));
        assert forall|j: int|
            0 <= j < edits.len() && (#[trigger] edits[j]).0 < grown.exports.len()
                implies !replacement_laws::in_object(
            grown.exports[edits[j].0 as int],
            k,
        ) by {
            let m = choose|m: int| 0 <= m < targets.len() && edits[j].0 == #[trigger] targets[m];
            assert(!replacement_laws::in_object(p.exports[targets[m] as int], k));
        }
    }
    tables_are_read_alike(grown.data, after.data);
}

/// The tables of a package that has grown have no byte in common with the objects that
/// were replaced.
proof fn grown_tables_stand_aside(
    d: Seq<u8>,
    p: PackageModel,
    middle: PackageModel,
    template: PackageModel,
    group: Seq<char>,
    others: Seq<RequestModel>,
    targets: Seq<usize>,
    grown: PackageModel,
)
    requires
        d.len() >= 36,
        package::package_of(Dialect::Engine, d) == Ok::<PackageModel, Seq<char>>(p),
        middle == (PackageModel { data: middle.data, ..p }),
        middle.data.len() == d.len(),
        package::package_of(Dialect::Engine, middle.data) == Ok::<PackageModel, Seq<char>>(middle),
        forall|k: int|
            0 <= k < d.len() && in_tables(d, k) ==> #[trigger] middle.data[k] == d[k],
        forall|k: int|
            0 <= k < d.len() && #[trigger] in_tables(d, k)
                ==> replacement_laws::in_none(p.exports, targets, k),
        forall|i: int|
            0 <= i < targets.len() ==> (#[trigger] targets[i]) < p.exports.len()
                && package::data_of(
                Dialect::Engine,
                p.data,
                p.exports[targets[i] as int],
            ) is Ok,
        adding::with_added(middle, template, group, others) matches Ok((more, _)) && more == grown,
        package::package_of(Dialect::Engine, grown.data) is Ok,
    ensures
        forall|k: int|
            0 <= k < grown.data.len() && #[trigger] in_tables(grown.data, k)
                ==> replacement_laws::in_none(
                p.exports,
                targets,
                k,
            ),
{
    if others.len() > 0 {
        added_tables_stand_behind(middle, template, group, others);
        assert forall|k: int| 0 <= k < grown.data.len() && #[trigger] in_tables(
            grown.data,
            k,
        ) implies replacement_laws::in_none(p.exports, targets, k) by {
            if k < 36 {
                assert(in_tables(d, k));
            } else {
                assert(k >= p.data.len());
            }
        }
    } else {
        reveal(adding::with_added);
        assert forall|k: int| 0 <= k < grown.data.len() && #[trigger] in_tables(
            grown.data,
            k,
        ) implies replacement_laws::in_none(p.exports, targets, k) by {
            tables_are_read_alike(d, middle.data);
            assert(in_tables(d, k));
        }
    }
}

/// A texture that an import adds beside others that it replaces is read back from the
/// written file: its image, and the properties that were asked for with it.
pub proof fn imported_additions_are_read_back(
    d: Seq<u8>,
    template: Seq<u8>,
    group: Seq<char>,
    requests: Seq<RequestModel>,
    i: int,
)
    requires
        d.len() <= usize::MAX,
        template.len() <= usize::MAX,
        package::package_of(Dialect::Engine, d)->Ok_0.exports.len() + requests.len() < usize::MAX,
        replaced_beside_tables(d, group, requests),
        0 <= i < requests.len(),
        ({
            let p = package::package_of(Dialect::Engine, d)->Ok_0;
            texture_engine::existing_of(tables::texture_keys(p, p.exports.len())->Ok_0, group, requests[i]) is None
        }),
        texture_engine::imported_into_file(d, template, group, requests) matches Ok((after, _))
            && after.data.len() <= usize::MAX,
    ensures
        ({
            let p = package::package_of(Dialect::Engine, d)->Ok_0;
            let t = package::package_of(Dialect::Engine, template)->Ok_0;
            let (after, outcomes) = texture_engine::imported_into_file(d, template, group, requests)->Ok_0;
            let (sorted, _, _, _) = mixed_laws::import_parts(p, t, group, requests);
            let (built, _) = adding::built_with(sorted.package, t, group, sorted.added)->Ok_0;
            let index = outcomes[i].export_index as int;
            &&& outcomes[i].added
            &&& package::package_of(Dialect::Engine, after.data) matches Ok(q)
            &&& image_laws::own_name_fits(p, t)
                ==> image_laws::holds_image(q, index, requests[i].image)
            &&& edits::import_edit_of(built, requests[i], index) matches Ok(wanted)
            &&& wanted matches Some(edit) ==> import_laws::holds_edit(q, index, edit)
        }),
{
    let e = Dialect::Engine;
    let p = package::package_of(e, d)->Ok_0;
    let t = package::package_of(e, template)->Ok_0;
    file_laws::exports_are_few(template);
    tables::header_needs_bytes(e, d);
    written_imports_are_read(d, template, group, requests);
    mixed_laws::imported_additions_hold(p, t, group, requests, i);
    let (after, outcomes) = texture_engine::imported_into_file(d, template, group, requests)->Ok_0;
    let (sorted, _, _, _) = mixed_laws::import_parts(p, t, group, requests);
    let (built, _) = adding::built_with(sorted.package, t, group, sorted.added)->Ok_0;
    let q = package::package_of(e, after.data)->Ok_0;
    let index = outcomes[i].export_index as int;
    if image_laws::own_name_fits(p, t) {
        image_laws::held_images_are_stored(q, after, index, requests[i].image);
    }
    if let Ok(Some(edit)) = edits::import_edit_of(built, requests[i], index) {
        held_edits_are_stored(q, after, index, edit);
    }
}

/// An edit that a package holds is held by what its tables hold of it.
proof fn held_edits_are_stored(
    q: PackageModel,
    p: PackageModel,
    index: int,
    edit: TextureEditorEdit,
)
    requires
        file_laws::same_tables(q, p),
        import_laws::holds_edit(p, index, edit),
    ensures
        import_laws::holds_edit(q, index, edit),
{
    let object = package::data_of(Dialect::Engine, p.data, p.exports[index])->Ok_0;
    edits::stream_end(object, p.names, 0);
    assert(p.exports[index].size > 0);
    assert(q.exports[index] == file_laws::stored_export(p.exports[index]));
}

/// A texture that an import replaces among others is read back from the written file: its
/// image, and the properties that were asked for with it.
pub proof fn imported_replacements_are_read_back(
    d: Seq<u8>,
    template: Seq<u8>,
    group: Seq<char>,
    requests: Seq<RequestModel>,
    i: int,
    index: int,
)
    requires
        d.len() <= usize::MAX,
        template.len() <= usize::MAX,
        replaced_beside_tables(d, group, requests),
        ({
            let p = package::package_of(Dialect::Engine, d)->Ok_0;
            &&& p.exports.len() + requests.len() < usize::MAX
            &&& mixed_laws::is_last_for(
                tables::texture_keys(p, p.exports.len())->Ok_0,
                group,
                requests,
                requests.len() as int,
                i,
                index,
            )
            &&& replacement_laws::has_list(p, index)
            &&& mixed_laws::replaced_apart(p, group, requests, index)
        }),
        texture_engine::imported_into_file(d, template, group, requests) matches Ok((after, _))
            && after.data.len() <= usize::MAX,
    ensures
        ({
            let p = package::package_of(Dialect::Engine, d)->Ok_0;
            let t = package::package_of(Dialect::Engine, template)->Ok_0;
            let (after, outcomes) = texture_engine::imported_into_file(d, template, group, requests)->Ok_0;
            let grown = mixed_laws::grown_package(p, t, group, requests);
            &&& outcomes[i].export_index == index
            &&& !outcomes[i].added
            &&& package::package_of(Dialect::Engine, after.data) matches Ok(q)
            &&& edits::import_edit_of(grown, requests[i], index) matches Ok(wanted)
            &&& replacement_laws::holds_replacement(p, q, index, requests[i], wanted)
        }),
{
    let e = Dialect::Engine;
    let p = package::package_of(e, d)->Ok_0;
    let t = package::package_of(e, template)->Ok_0;
    let keys = tables::texture_keys(p, p.exports.len())->Ok_0;
    file_laws::exports_are_few(template);
    tables::header_needs_bytes(e, d);
    package_laws::read_packages_are_storable(d);
    written_imports_are_read(d, template, group, requests);
    let export = p.exports[index];
    assert(package_laws::stands_behind_header(export)) by {
        let raw = package::data_of(e, p.data, export)->Ok_0;
        edits::stream_end(raw, p.names, 0);
        if export.offset < 36 {
            assert(in_tables(d, export.offset as int));
            assert(texture_engine::existing_of(keys, group, requests[i]) == Some(index));
            assert(replacement_laws::in_object(export, export.offset as int));
        }
    }
    mixed_laws::imported_replacements_hold(p, t, group, requests, i, index);
    let (after, _) = texture_engine::imported_into_file(d, template, group, requests)->Ok_0;
    let q = package::package_of(e, after.data)->Ok_0;
    let object = package::data_of(e, after.data, after.exports[index])->Ok_0;
    edits::stream_end(object, after.names, 0);
    assert(q.exports[index] == file_laws::stored_export(after.exports[index]));
}

} // verus!
