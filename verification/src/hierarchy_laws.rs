//! What the header and the tables of a package say.

use vstd::prelude::*;
use crate::package::{ExportEntry, ImportEntry, PackageModel};
use crate::reader::Dialect;
use crate::names;
use crate::package;
use crate::picture_laws;
use crate::reader;
use crate::text;
use crate::bytes;

verus! {

proof fn words_are_read(dialect: Dialect, d: Seq<u8>, p: int)
    requires
        0 <= p,
    ensures
        reader::i32_read(dialect, d, p) matches Ok((v, end)) ==> {
            &&& end == p + 4 <= d.len()
            &&& v >= 0 ==> picture_laws::number_at(d, p) == v
            &&& v < 0 ==> picture_laws::number_at(d, p) == v + 4294967296
        },
{
    if let Ok((v, end)) = reader::i32_read(dialect, d, p) {
        let s = d.subrange(p, p + 4);
        assert(s[0] == d[p] && s[1] == d[p + 1] && s[2] == d[p + 2] && s[3] == d[p + 3]);
    }
}

proof fn as_many_names(dialect: Dialect, d: Seq<u8>, p: int, n: nat)
    ensures
        names::names_from(dialect, d, p, n) matches Ok((found, _)) ==> found.len() == n,
    decreases n,
{
    if n > 0 {
        if let Ok((_, q)) = reader::string_at(dialect, d, p) {
            as_many_names(dialect, d, q + 4, (n - 1) as nat);
        }
    }
}

proof fn as_many_imports(dialect: Dialect, d: Seq<u8>, p: int, n: nat)
    ensures
        package::imports_from(dialect, d, p, n) matches Ok((found, _)) ==> found.len() == n,
    decreases n,
{
    if n > 0 {
        if let Ok((_, q)) = package::import_at(dialect, d, p) {
            as_many_imports(dialect, d, q, (n - 1) as nat);
        }
    }
}

proof fn as_many_exports(
    dialect: Dialect,
    d: Seq<u8>,
    p: int,
    n: nat,
    name_count: int,
    legacy: bool,
)
    ensures
        package::exports_from(dialect, d, p, n, name_count, legacy) matches Ok((found, _))
            ==> found.len() == n,
    decreases n,
{
    if n > 0 {
        if let Ok((_, q)) = package::export_at(dialect, d, p, name_count, legacy) {
            as_many_exports(dialect, d, q, (n - 1) as nat, name_count, legacy);
        }
    }
}

proof fn halves_are_versions(dialect: Dialect, d: Seq<u8>, p: int)
    requires
        0 <= p,
    ensures
        reader::i32_read(dialect, d, p) matches Ok((v, _)) ==> {
            &&& package::version_of(v) == d[p] + 256 * d[p + 1]
            &&& package::licensee_of(v) == d[p + 2] + 256 * d[p + 3]
        },
{
    if let Ok((v, _)) = reader::i32_read(dialect, d, p) {
        words_are_read(dialect, d, p);
        let low = d[p] + 256 * d[p + 1];
        let high = d[p + 2] + 256 * d[p + 3];
        let bits = bytes::bits_of(v) as int;
        assert(bits == low + 65536 * high);
        assert(bits % 65536 == low);
        assert(bits / 65536 == high);
    }
}

#[verifier::spinoff_prover]
#[verifier::rlimit(40)]
proof fn header_numbers(dialect: Dialect, d: Seq<u8>)
    ensures
        package::header_of(dialect, d) matches Ok(h) ==> {
            &&& d.len() >= 36
            &&& picture_laws::number_at(d, 0) == 0x9e2a83c1
            &&& h.version == d[4] + 256 * d[5]
            &&& h.licensee == d[6] + 256 * d[7]
            &&& h.name_count == picture_laws::number_at(d, 12)
            &&& h.name_offset == picture_laws::number_at(d, 16)
            &&& h.export_count == picture_laws::number_at(d, 20)
            &&& h.export_offset == picture_laws::number_at(d, 24)
            &&& h.import_count == picture_laws::number_at(d, 28)
            &&& h.import_offset == picture_laws::number_at(d, 32)
        },
{
    words_are_read(dialect, d, 0);
    halves_are_versions(dialect, d, 4);
    words_are_read(dialect, d, 12);
    words_are_read(dialect, d, 16);
    words_are_read(dialect, d, 20);
    words_are_read(dialect, d, 24);
    words_are_read(dialect, d, 28);
    words_are_read(dialect, d, 32);
}

/// A package starts with its mark; its version and that of its licensee follow, and then
/// the numbers and the places of its names, its exports and its imports.
#[verifier::spinoff_prover]
#[verifier::rlimit(40)]
pub proof fn headers_say_what_is_there(dialect: Dialect, d: Seq<u8>)
    ensures
        package::package_of(dialect, d) matches Ok(p) ==> {
            &&& d.len() >= 36
            &&& picture_laws::number_at(d, 0) == 0x9e2a83c1
            &&& p.version == d[4] + 256 * d[5]
            &&& p.licensee == d[6] + 256 * d[7]
            &&& p.names.len() == picture_laws::number_at(d, 12)
            &&& p.name_offset == picture_laws::number_at(d, 16)
            &&& p.exports.len() == picture_laws::number_at(d, 20)
            &&& p.imports.len() == picture_laws::number_at(d, 28)
            &&& p.data == d
        },
{
    header_numbers(dialect, d);
    if let Ok(h) = package::header_of(dialect, d) {
        if let Ok(p) = package::package_of(dialect, d) {
            let n = p.names.len() as int;
            as_many_names(dialect, d, h.name_offset as int, h.name_count as nat);
            as_many_imports(dialect, d, h.import_offset as int, h.import_count as nat);
            as_many_exports(dialect, d, h.export_offset as int, h.export_count as nat, n, false);
            as_many_exports(dialect, d, h.export_offset as int, h.export_count as nat, n, true);
        }
    }
}

/// The first name, import and export of a package stand where its header says.
#[verifier::spinoff_prover]
#[verifier::rlimit(40)]
pub proof fn tables_stand_where_the_header_says(d: Seq<u8>)
    ensures
        package::package_of(Dialect::Engine, d) matches Ok(p) ==> {
            &&& p.names.len() > 0 ==> (reader::string_at(
                Dialect::Engine,
                d,
                picture_laws::number_at(d, 16),
            ) matches Ok((name, _)) && p.names[0].name == name)
            &&& p.imports.len() > 0 ==> (package::import_at(
                Dialect::Engine,
                d,
                picture_laws::number_at(d, 32),
            ) matches Ok((entry, _)) && p.imports[0] == entry)
            &&& p.exports.len() > 0 ==> (package::export_at(
                Dialect::Engine,
                d,
                picture_laws::number_at(d, 24),
                p.names.len() as int,
                false,
            ) matches Ok((entry, _)) && p.exports[0] == entry)
        },
{
    let e = Dialect::Engine;
    if let Ok(p) = package::package_of(e, d) {
        let header = package::header_of(e, d)->Ok_0;
        header_numbers(e, d);
        as_many_names(e, d, header.name_offset as int, header.name_count as nat);
        as_many_imports(e, d, header.import_offset as int, header.import_count as nat);
        as_many_exports(
            e,
            d,
            header.export_offset as int,
            header.export_count as nat,
            p.names.len() as int,
            false,
        );
    }
}

/// An export is stored as its class, its super class, the object that it lies in, its
/// name, its flags, its size and, where it is not empty, its place.
pub proof fn exports_are_read_in_order(dialect: Dialect, d: Seq<u8>, p: int, name_count: int)
    ensures
        package::export_at(dialect, d, p, name_count, false) matches Ok((entry, end)) ==> {
            &&& reader::compact_at(dialect, d, p) matches Ok((class, q))
            &&& entry.class == class
            &&& reader::compact_at(dialect, d, q) matches Ok((super_class, q1))
            &&& entry.super_class == super_class
            &&& reader::i32_read(dialect, d, q1) matches Ok((outer, q2))
            &&& entry.package == outer
            &&& reader::compact_at(dialect, d, q2) matches Ok((name, q3))
            &&& entry.name_index == name
            &&& reader::i32_read(dialect, d, q3) matches Ok((flags, q4))
            &&& entry.flags == flags
            &&& reader::compact_at(dialect, d, q4) matches Ok((size, q5))
            &&& entry.size == size
            &&& size >= 0
            &&& size == 0 ==> entry.offset == 0 && end == q5
            &&& size > 0 ==> reader::compact_at(dialect, d, q5) == Ok::<(i32, int), Seq<char>>(
                (entry.offset, end),
            )
        },
{
    reveal(package::export_at);
}

/// An import is stored as the package of its class, its class, the object that it lies in
/// and its name.
pub proof fn imports_are_read_in_order(dialect: Dialect, d: Seq<u8>, p: int)
    ensures
        package::import_at(dialect, d, p) matches Ok((entry, end)) ==> {
            &&& reader::compact_at(dialect, d, p) matches Ok((class_package, q))
            &&& entry.class_package == class_package
            &&& reader::compact_at(dialect, d, q) matches Ok((class_name, q1))
            &&& entry.class_name == class_name
            &&& reader::i32_read(dialect, d, q1) matches Ok((outer, q2))
            &&& entry.package == outer
            &&& reader::compact_at(dialect, d, q2) == Ok::<(i32, int), Seq<char>>(
                (entry.name_index, end),
            )
        },
{
    reveal(package::import_at);
}

/// The path of an export is its name, behind the path of the export that it lies in.
pub proof fn paths_go_from_the_outside_in(p: PackageModel, export: ExportEntry, outer: ExportEntry)
    requires
        0 <= export.name_index < p.names.len(),
        0 <= outer.name_index < p.names.len(),
        outer.package <= 0,
    ensures
        ({
            let own = p.names[export.name_index as int].name;
            let parent = p.names[outer.name_index as int].name;
            &&& export.package <= 0 ==> package::name_of(Dialect::Engine, p, export) == Ok::<
                Seq<char>,
                Seq<char>,
            >(own)
            &&& 0 < export.package <= p.exports.len() && p.exports[export.package - 1] == outer
                ==> package::name_of(Dialect::Engine, p, export) == Ok::<Seq<char>, Seq<char>>(
                parent + "."@ + own,
            )
        }),
{
    reveal_with_fuel(package::inner_path, 3);
}

/// A texture is an export whose class is the import `Texture` of the package `Engine`,
/// whatever the case of their letters.
pub proof fn textures_are_known_by_their_class(
    p: PackageModel,
    export: ExportEntry,
    class: ImportEntry,
    engine: ImportEntry,
)
    requires
        export.class < 0,
        -export.class - 1 < p.imports.len(),
        p.imports[-export.class - 1] == class,
        class.package < 0,
        -class.package - 1 < p.imports.len(),
        p.imports[-class.package - 1] == engine,
        engine.package == 0,
        0 <= class.name_index < p.names.len(),
        0 <= engine.name_index < p.names.len(),
    ensures
        package::is_texture_export(Dialect::Engine, p, export) == text::same_folded(
            p.names[engine.name_index as int].name + "."@ + p.names[class.name_index as int].name,
            "Engine.Texture"@,
        ),
{
    reveal_with_fuel(package::import_path_of, 3);
}

} // verus!
