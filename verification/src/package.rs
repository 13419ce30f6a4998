//! The tables of an Unreal package: names, imports and exports, and the paths
//! that they give to objects.

use vstd::prelude::*;
use vstd::slice::slice_subrange;
use vstd::string::StringExecFns;
use crate::names::{NameModel, NameTable};
use crate::reader::{Dialect, Reader};
use crate::bytes;
use crate::names;
use crate::reader;
use crate::text;

verus! {

/// The first four bytes of a package, as a signed integer.
pub const PACKAGE_MAGIC: i32 = -1641380927;

#[derive(Debug, Clone, Copy, PartialEq, Eq, Structural)]
pub struct ImportEntry {
    pub class_package: i32,
    pub class_name: i32,
    pub package: i32,
    pub name_index: i32,
}

#[derive(Debug, Clone, Copy, PartialEq, Eq, Structural)]
pub struct ExportEntry {
    pub class: i32,
    pub super_class: i32,
    pub package: i32,
    pub name_index: i32,
    pub flags: i32,
    pub size: i32,
    pub offset: i32,
}

/// A package with its tables.
#[derive(Debug)]
pub struct Package {
    pub data: Vec<u8>,
    pub version: i32,
    pub licensee: i32,
    pub name_offset: usize,
    pub names: NameTable,
    pub imports: Vec<ImportEntry>,
    pub exports: Vec<ExportEntry>,
}

pub struct PackageModel {
    pub data: Seq<u8>,
    pub version: i32,
    pub licensee: i32,
    pub name_offset: usize,
    pub names: Seq<NameModel>,
    pub imports: Seq<ImportEntry>,
    pub exports: Seq<ExportEntry>,
}

impl View for Package {
    type V = PackageModel;

    open spec fn view(&self) -> PackageModel {
        PackageModel {
            data: self.data@,
            version: self.version,
            licensee: self.licensee,
            name_offset: self.name_offset,
            names: self.names@,
            imports: self.imports@,
            exports: self.exports@,
        }
    }
}

/// The counts and offsets that a package starts with.
#[derive(Clone, Copy)]
pub struct Header {
    pub version: i32,
    pub licensee: i32,
    pub name_count: usize,
    pub name_offset: usize,
    pub export_count: usize,
    pub export_offset: usize,
    pub import_count: usize,
    pub import_offset: usize,
}

/// A count stored at `p`.
pub open spec fn count_at(dialect: Dialect, d: Seq<u8>, p: int, label: Seq<char>) -> Result<
    usize,
    Seq<char>,
> {
    match reader::i32_read(dialect, d, p) {
        Err(e) => Err(e),
        Ok((value, _)) => reader::count_of(dialect, value, label),
    }
}

/// An offset stored at `p`.
pub open spec fn offset_at(dialect: Dialect, d: Seq<u8>, p: int, label: Seq<char>) -> Result<
    usize,
    Seq<char>,
> {
    match reader::i32_read(dialect, d, p) {
        Err(e) => Err(e),
        Ok((value, _)) => reader::offset_of(dialect, value, label),
    }
}

/// The version of the stored word, its low half.
pub open spec fn version_of(word: i32) -> i32 {
    (bytes::bits_of(word) % 65536) as i32
}

/// The licensee version of the stored word, its high half.
pub open spec fn licensee_of(word: i32) -> i32 {
    (bytes::bits_of(word) / 65536) as i32
}

/// The header of a package.
pub open spec fn header_of(dialect: Dialect, d: Seq<u8>) -> Result<Header, Seq<char>> {
    match reader::i32_read(dialect, d, 0) {
        Err(e) => Err(e),
        Ok((magic, _)) => if magic != PACKAGE_MAGIC {
            Err("O arquivo não é um pacote Unreal válido (assinatura incorreta)."@)
        } else {
            match reader::i32_read(dialect, d, 4) {
                Err(e) => Err(e),
                Ok((word, _)) => match reader::skip_end(dialect, d, 8, 4) {
                    Err(e) => Err(e),
                    Ok(_) => match count_at(dialect, d, 12, "nome"@) {
                        Err(e) => Err(e),
                        Ok(name_count) => match offset_at(dialect, d, 16, "tabela de nomes"@) {
                            Err(e) => Err(e),
                            Ok(name_offset) => match count_at(dialect, d, 20, "exportação"@) {
                                Err(e) => Err(e),
                                Ok(export_count) => match offset_at(
                                    dialect,
                                    d,
                                    24,
                                    "tabela de exportações"@,
                                ) {
                                    Err(e) => Err(e),
                                    Ok(export_offset) => match count_at(
                                        dialect,
                                        d,
                                        28,
                                        "importação"@,
                                    ) {
                                        Err(e) => Err(e),
                                        Ok(import_count) => match offset_at(
                                            dialect,
                                            d,
                                            32,
                                            "tabela de importações"@,
                                        ) {
                                            Err(e) => Err(e),
                                            Ok(import_offset) => Ok(
                                                Header {
                                                    version: version_of(word),
                                                    licensee: licensee_of(word),
                                                    name_count,
                                                    name_offset,
                                                    export_count,
                                                    export_offset,
                                                    import_count,
                                                    import_offset,
                                                },
                                            ),
                                        },
                                    },
                                },
                            },
                        },
                    },
                },
            }
        },
    }
}

pub open spec fn import_bytes(entry: ImportEntry) -> Seq<u8> {
    reader::compact_bytes(entry.class_package) + reader::compact_bytes(entry.class_name) + bytes::i32_bytes(entry.package)
        + reader::compact_bytes(entry.name_index)
}

pub open spec fn imports_bytes(entries: Seq<ImportEntry>) -> Seq<u8>
    decreases entries.len(),
{
    if entries.len() == 0 {
        Seq::empty()
    } else {
        imports_bytes(entries.drop_last()) + import_bytes(entries.last())
    }
}

#[verifier::opaque]
pub open spec fn import_at(dialect: Dialect, d: Seq<u8>, p: int) -> Result<
    (ImportEntry, int),
    Seq<char>,
> {
    match reader::compact_at(dialect, d, p) {
        Err(e) => Err(e),
        Ok((class_package, q)) => match reader::compact_at(dialect, d, q) {
            Err(e) => Err(e),
            Ok((class_name, q1)) => match reader::i32_read(dialect, d, q1) {
                Err(e) => Err(e),
                Ok((package, q2)) => match reader::compact_at(dialect, d, q2) {
                    Err(e) => Err(e),
                    Ok((name_index, q3)) => Ok(
                        (ImportEntry { class_package, class_name, package, name_index }, q3),
                    ),
                },
            },
        },
    }
}

/// `n` imports from `p` on, and the position behind them.
pub open spec fn imports_from(dialect: Dialect, d: Seq<u8>, p: int, n: nat) -> Result<
    (Seq<ImportEntry>, int),
    Seq<char>,
>
    decreases n,
{
    if n == 0 {
        Ok((Seq::empty(), p))
    } else {
        match import_at(dialect, d, p) {
            Err(e) => Err(e),
            Ok((entry, q)) => names::prefixed(seq![entry], imports_from(dialect, d, q, (n - 1) as nat)),
        }
    }
}

/// The stored form of an export; an empty object has no offset.
pub open spec fn export_bytes(entry: ExportEntry) -> Seq<u8> {
    reader::compact_bytes(entry.class) + reader::compact_bytes(entry.super_class) + bytes::i32_bytes(entry.package)
        + reader::compact_bytes(entry.name_index) + bytes::i32_bytes(entry.flags) + reader::compact_bytes(entry.size) + (
    if entry.size > 0 {
        reader::compact_bytes(entry.offset)
    } else {
        Seq::empty()
    })
}

pub open spec fn exports_bytes(entries: Seq<ExportEntry>) -> Seq<u8>
    decreases entries.len(),
{
    if entries.len() == 0 {
        Seq::empty()
    } else {
        exports_bytes(entries.drop_last()) + export_bytes(entries.last())
    }
}

/// The export at `p`. A legacy table stores the offset of empty objects too.
#[verifier::opaque]
pub open spec fn export_at(
    dialect: Dialect,
    d: Seq<u8>,
    p: int,
    name_count: int,
    legacy: bool,
) -> Result<(ExportEntry, int), Seq<char>> {
    match reader::compact_at(dialect, d, p) {
        Err(e) => Err(e),
        Ok((class, q)) => match reader::compact_at(dialect, d, q) {
            Err(e) => Err(e),
            Ok((super_class, q1)) => match reader::i32_read(dialect, d, q1) {
                Err(e) => Err(e),
                Ok((package, q2)) => match reader::compact_at(dialect, d, q2) {
                    Err(e) => Err(e),
                    Ok((name_index, q3)) => if !(0 <= name_index < name_count) {
                        Err("Índice de nome inválido na tabela de exportações."@)
                    } else {
                        match reader::i32_read(dialect, d, q3) {
                            Err(e) => Err(e),
                            Ok((flags, q4)) => match reader::compact_at(dialect, d, q4) {
                                Err(e) => Err(e),
                                Ok((size, q5)) => if size < 0 {
                                    Err("Tamanho de exportação inválido."@)
                                } else if size > 0 || legacy {
                                    match reader::compact_at(dialect, d, q5) {
                                        Err(e) => Err(e),
                                        Ok((offset, q6)) => Ok(
                                            (
                                                ExportEntry {
                                                    class,
                                                    super_class,
                                                    package,
                                                    name_index,
                                                    flags,
                                                    size,
                                                    offset,
                                                },
                                                q6,
                                            ),
                                        ),
                                    }
                                } else {
                                    Ok(
                                        (
                                            ExportEntry {
                                                class,
                                                super_class,
                                                package,
                                                name_index,
                                                flags,
                                                size,
                                                offset: 0,
                                            },
                                            q5,
                                        ),
                                    )
                                },
                            },
                        }
                    },
                },
            },
        },
    }
}

/// `n` exports from `p` on, and the position behind them.
pub open spec fn exports_from(
    dialect: Dialect,
    d: Seq<u8>,
    p: int,
    n: nat,
    name_count: int,
    legacy: bool,
) -> Result<(Seq<ExportEntry>, int), Seq<char>>
    decreases n,
{
    if n == 0 {
        Ok((Seq::empty(), p))
    } else {
        match export_at(dialect, d, p, name_count, legacy) {
            Err(e) => Err(e),
            Ok((entry, q)) => names::prefixed(
                seq![entry],
                exports_from(dialect, d, q, (n - 1) as nat, name_count, legacy),
            ),
        }
    }
}

/// The export table that starts at `offset`.
pub open spec fn export_table(
    dialect: Dialect,
    d: Seq<u8>,
    offset: int,
    n: nat,
    name_count: int,
    legacy: bool,
) -> Result<(Seq<ExportEntry>, int), Seq<char>> {
    if offset > d.len() {
        Err(reader::outside_text(dialect))
    } else {
        exports_from(dialect, d, offset, n, name_count, legacy)
    }
}

/// The exports of a package. The frontend also knows the legacy table: it takes
/// that one where only it ends exactly at the end of the file, or where the
/// standard table cannot be read.
pub open spec fn chosen_exports(
    dialect: Dialect,
    d: Seq<u8>,
    offset: int,
    n: nat,
    name_count: int,
) -> Result<Seq<ExportEntry>, Seq<char>> {
    let standard = export_table(dialect, d, offset, n, name_count, false);
    let legacy = export_table(dialect, d, offset, n, name_count, true);
    match standard {
        Ok((exports, end)) => if dialect != Dialect::Frontend || end == d.len() {
            Ok(exports)
        } else {
            match legacy {
                Ok((others, other_end)) => if other_end == d.len() {
                    Ok(others)
                } else {
                    Ok(exports)
                },
                Err(_) => Ok(exports),
            }
        },
        Err(e) => if dialect != Dialect::Frontend {
            Err(e)
        } else {
            match legacy {
                Ok((others, _)) => Ok(others),
                Err(_) => Err(e),
            }
        },
    }
}

/// The names, imports and exports that a header leads to.
pub open spec fn tables_of(dialect: Dialect, d: Seq<u8>, header: Header) -> Result<
    PackageModel,
    Seq<char>,
> {
    if header.name_offset > d.len() {
        Err(reader::outside_text(dialect))
    } else {
        match names::names_from(dialect, d, header.name_offset as int, header.name_count as nat) {
            Err(e) => Err(e),
            Ok((names, _)) => if header.import_offset > d.len() {
                Err(reader::outside_text(dialect))
            } else {
                match imports_from(
                    dialect,
                    d,
                    header.import_offset as int,
                    header.import_count as nat,
                ) {
                    Err(e) => Err(e),
                    Ok((imports, _)) => match chosen_exports(
                        dialect,
                        d,
                        header.export_offset as int,
                        header.export_count as nat,
                        names.len() as int,
                    ) {
                        Err(e) => Err(e),
                        Ok(exports) => Ok(
                            PackageModel {
                                data: d,
                                version: header.version,
                                licensee: header.licensee,
                                name_offset: header.name_offset,
                                names,
                                imports,
                                exports,
                            },
                        ),
                    },
                }
            },
        }
    }
}

/// What a package holds.
pub open spec fn package_of(dialect: Dialect, d: Seq<u8>) -> Result<PackageModel, Seq<char>> {
    match header_of(dialect, d) {
        Err(e) => Err(e),
        Ok(header) => tables_of(dialect, d, header),
    }
}

/// The entry that an object reference points to.
pub open spec fn index_of_reference(reference: i32) -> Result<int, Seq<char>> {
    if reference == 0 {
        Err("Referência de objeto nula inválida."@)
    } else if reference > 0 {
        Ok(reference - 1)
    } else {
        Ok(-reference - 1)
    }
}

/// A name of the table. The frontend reads an index outside the table as an
/// empty name.
pub open spec fn object_name(dialect: Dialect, names: Seq<NameModel>, index: i32) -> Result<
    Seq<char>,
    Seq<char>,
> {
    if dialect == Dialect::Frontend && !(0 <= index < names.len()) {
        Ok(Seq::empty())
    } else {
        names::name_at(names, index)
    }
}

/// The deepest chain of outer objects that is followed.
pub const MAX_DEPTH: usize = 128;

/// The path of an export: the path of the exports that it lies in, and its name.
pub open spec fn inner_path(
    dialect: Dialect,
    names: Seq<NameModel>,
    exports: Seq<ExportEntry>,
    export: ExportEntry,
    depth: int,
) -> Result<Seq<char>, Seq<char>>
    decreases 129 - depth,
{
    if depth > MAX_DEPTH {
        Err("A hierarquia de objetos contém uma referência cíclica."@)
    } else {
        match object_name(dialect, names, export.name_index) {
            Err(e) => Err(e),
            Ok(name) => if export.package > 0 {
                if export.package - 1 >= exports.len() {
                    Err("Pacote pai inválido."@)
                } else {
                    match inner_path(
                        dialect,
                        names,
                        exports,
                        exports[export.package - 1],
                        depth + 1,
                    ) {
                        Err(e) => Err(e),
                        Ok(parent) => Ok(parent + "."@ + name),
                    }
                }
            } else {
                Ok(name)
            },
        }
    }
}

/// The path of an import.
pub open spec fn import_path_of(
    dialect: Dialect,
    names: Seq<NameModel>,
    imports: Seq<ImportEntry>,
    exports: Seq<ExportEntry>,
    index: int,
    depth: int,
) -> Result<Seq<char>, Seq<char>>
    decreases 129 - depth,
{
    if depth > MAX_DEPTH {
        Err("A hierarquia de imports contém uma referência cíclica."@)
    } else if index >= imports.len() {
        Err("Referência de import inválida."@)
    } else {
        match object_name(dialect, names, imports[index].name_index) {
            Err(e) => Err(e),
            Ok(name) => if imports[index].package == 0 {
                Ok(name)
            } else if imports[index].package < 0 {
                match import_path_of(
                    dialect,
                    names,
                    imports,
                    exports,
                    -imports[index].package - 1,
                    depth + 1,
                ) {
                    Err(e) => Err(e),
                    Ok(parent) => Ok(parent + "."@ + name),
                }
            } else if imports[index].package - 1 >= exports.len() {
                Err("Export pai inválido."@)
            } else {
                match inner_path(
                    dialect,
                    names,
                    exports,
                    exports[imports[index].package - 1],
                    depth + 1,
                ) {
                    Err(e) => Err(e),
                    Ok(parent) => Ok(parent + "."@ + name),
                }
            },
        }
    }
}

/// The path of an export's class.
pub open spec fn class_path(dialect: Dialect, p: PackageModel, export: ExportEntry) -> Result<
    Seq<char>,
    Seq<char>,
> {
    if export.class == 0 {
        Ok("Core.Class"@)
    } else if export.class > 0 {
        if export.class - 1 >= p.exports.len() {
            Err("Classe de exportação inválida."@)
        } else {
            inner_path(dialect, p.names, p.exports, p.exports[export.class - 1], 0)
        }
    } else {
        import_path_of(dialect, p.names, p.imports, p.exports, -export.class - 1, 0)
    }
}

pub open spec fn name_of(dialect: Dialect, p: PackageModel, export: ExportEntry) -> Result<
    Seq<char>,
    Seq<char>,
> {
    inner_path(dialect, p.names, p.exports, export, 0)
}

pub open spec fn class_is(
    dialect: Dialect,
    p: PackageModel,
    export: ExportEntry,
    class: Seq<char>,
) -> bool {
    class_path(dialect, p, export) matches Ok(path) && text::same_folded(path, class)
}

pub open spec fn is_texture_export(dialect: Dialect, p: PackageModel, export: ExportEntry) -> bool {
    class_is(dialect, p, export, "Engine.Texture"@)
}

pub open spec fn missing_export_text() -> Seq<char> {
    "A textura selecionada não existe mais no pacote."@
}

pub open spec fn nth_export(p: PackageModel, index: int) -> Result<ExportEntry, Seq<char>> {
    if index < p.exports.len() {
        Ok(p.exports[index])
    } else {
        Err(missing_export_text())
    }
}

pub open spec fn data_offset_label(dialect: Dialect) -> Seq<char> {
    match dialect {
        Dialect::Frontend => "dados da exportação"@,
        _ => "dados de exportação"@,
    }
}

pub open spec fn data_size_label(dialect: Dialect) -> Seq<char> {
    match dialect {
        Dialect::Frontend => "tamanho da exportação"@,
        _ => "tamanho de exportação"@,
    }
}

pub open spec fn data_outside_text(dialect: Dialect) -> Seq<char> {
    match dialect {
        Dialect::Frontend => "Os dados da exportação estão fora do arquivo."@,
        _ => "Os dados de exportação estão fora do pacote."@,
    }
}

/// The serialized bytes of an export.
pub open spec fn data_of(dialect: Dialect, d: Seq<u8>, export: ExportEntry) -> Result<
    Seq<u8>,
    Seq<char>,
> {
    if export.offset < 0 {
        Err(reader::bad_offset_text(dialect, data_offset_label(dialect)))
    } else if export.size < 0 {
        Err(reader::count_text(dialect, data_size_label(dialect)))
    } else if export.offset + export.size > usize::MAX {
        Err("Offset de exportação inválido."@)
    } else if export.offset + export.size > d.len() {
        Err(data_outside_text(dialect))
    } else {
        Ok(d.subrange(export.offset as int, export.offset + export.size))
    }
}

pub open spec fn reference_text(dialect: Dialect) -> Seq<char> {
    match dialect {
        Dialect::Frontend => "Muitas exportações no pacote."@,
        _ => "Muitos exports."@,
    }
}

pub open spec fn export_reference_overflow(dialect: Dialect) -> Seq<char> {
    match dialect {
        Dialect::Frontend => "Referência de exportação inválida."@,
        _ => "Referência de export inválida."@,
    }
}

/// The object reference of the export at `index`.
pub open spec fn export_reference_of(dialect: Dialect, index: int) -> Result<i32, Seq<char>> {
    if index + 1 > usize::MAX {
        Err(export_reference_overflow(dialect))
    } else {
        bytes::i32_of_len(index + 1, reference_text(dialect))
    }
}

pub open spec fn import_reference_text(dialect: Dialect) -> Seq<char> {
    match dialect {
        Dialect::Frontend => "Muitas importações no pacote."@,
        _ => "Muitos exports."@,
    }
}

pub open spec fn import_reference_overflow(dialect: Dialect) -> Seq<char> {
    match dialect {
        Dialect::Frontend => "Referência de importação inválida."@,
        _ => "Referência de export inválida."@,
    }
}

/// The object reference of the import at `index`.
pub open spec fn import_reference_of(dialect: Dialect, index: int) -> Result<i32, Seq<char>> {
    if index + 1 > usize::MAX {
        Err(import_reference_overflow(dialect))
    } else if index + 1 > i32::MAX {
        Err(import_reference_text(dialect))
    } else {
        Ok((-(index + 1)) as i32)
    }
}

pub proof fn import_round_trip(
    dialect: Dialect,
    before: Seq<u8>,
    entry: ImportEntry,
    after: Seq<u8>,
)
    requires
        before.len() + import_bytes(entry).len() <= usize::MAX,
    ensures
        import_at(dialect, before + import_bytes(entry) + after, before.len() as int) == Ok::<
            (ImportEntry, int),
            Seq<char>,
        >((entry, (before.len() + import_bytes(entry).len()) as int)),
{
    reveal(import_at);
    let d = before + import_bytes(entry) + after;
    let a = reader::compact_bytes(entry.class_package);
    let b = reader::compact_bytes(entry.class_name);
    let c = bytes::i32_bytes(entry.package);
    let e = reader::compact_bytes(entry.name_index);
    assert(d =~= before + a + (b + c + e + after));
    reader::compact_round_trip(dialect, before, entry.class_package, b + c + e + after);
    assert(d =~= (before + a) + b + (c + e + after));
    reader::compact_round_trip(dialect, before + a, entry.class_name, c + e + after);
    let q = (before.len() + a.len() + b.len()) as int;
    assert(d.subrange(q, q + 4) =~= c);
    bytes::integers_round_trip(0, entry.package, 0, 0);
    assert(d =~= (before + a + b + c) + e + after);
    reader::compact_round_trip(dialect, before + a + b + c, entry.name_index, after);
}

/// A stored import table is read back, wherever it stands.
pub proof fn imports_round_trip(
    dialect: Dialect,
    before: Seq<u8>,
    entries: Seq<ImportEntry>,
    after: Seq<u8>,
)
    requires
        before.len() + imports_bytes(entries).len() <= usize::MAX,
    ensures
        imports_from(
            dialect,
            before + imports_bytes(entries) + after,
            before.len() as int,
            entries.len(),
        ) == Ok::<(Seq<ImportEntry>, int), Seq<char>>(
            (entries, (before.len() + imports_bytes(entries).len()) as int),
        ),
{
    imports_round_trip_from(dialect, before, entries, 0, after);
    assert(entries.take(0) =~= Seq::<ImportEntry>::empty());
    assert(entries.skip(0) =~= entries);
}

proof fn imports_prefix(entries: Seq<ImportEntry>, k: int)
    requires
        0 <= k <= entries.len(),
    ensures
        imports_bytes(entries.take(k)).len() <= imports_bytes(entries).len(),
        imports_bytes(entries.take(k)) == imports_bytes(entries).take(
            imports_bytes(entries.take(k)).len() as int,
        ),
    decreases entries.len(),
{
    let n = imports_bytes(entries.take(k)).len() as int;
    if k == entries.len() {
        assert(entries.take(k) =~= entries);
        assert(imports_bytes(entries).take(n) =~= imports_bytes(entries));
    } else {
        imports_prefix(entries.drop_last(), k);
        assert(entries.drop_last().take(k) =~= entries.take(k));
        assert(imports_bytes(entries).take(n) =~= imports_bytes(entries.drop_last()).take(n));
    }
}

proof fn imports_round_trip_from(
    dialect: Dialect,
    before: Seq<u8>,
    entries: Seq<ImportEntry>,
    k: int,
    after: Seq<u8>,
)
    requires
        0 <= k <= entries.len(),
        before.len() + imports_bytes(entries).len() <= usize::MAX,
    ensures
        imports_from(
            dialect,
            before + imports_bytes(entries) + after,
            (before.len() + imports_bytes(entries.take(k)).len()) as int,
            (entries.len() - k) as nat,
        ) == Ok::<(Seq<ImportEntry>, int), Seq<char>>(
            (entries.skip(k), (before.len() + imports_bytes(entries).len()) as int),
        ),
    decreases entries.len() - k,
{
    let all = imports_bytes(entries);
    let d = before + all + after;
    if k == entries.len() {
        assert(entries.take(k) =~= entries);
        assert(entries.skip(k) =~= Seq::<ImportEntry>::empty());
    } else {
        imports_round_trip_from(dialect, before, entries, k + 1, after);
        imports_prefix(entries, k + 1);
        let head = imports_bytes(entries.take(k));
        let next = imports_bytes(entries.take(k + 1));
        assert(entries.take(k + 1).drop_last() =~= entries.take(k));
        let one = import_bytes(entries[k]);
        assert(next == head + one);
        let tail = all.skip(next.len() as int);
        assert(all =~= next + tail) by {
            assert(all.take(next.len() as int) + tail =~= all);
        }
        assert(d =~= (before + head) + one + (tail + after));
        import_round_trip(dialect, before + head, entries[k], tail + after);
        assert(seq![entries[k]] + entries.skip(k + 1) =~= entries.skip(k));
    }
}

/// An export that a package can hold: its name is in the table, its size is
/// not negative, and an empty object has no offset.
pub open spec fn storable_export(entry: ExportEntry, name_count: int) -> bool {
    &&& 0 <= entry.name_index < name_count
    &&& entry.size >= 0
    &&& entry.size == 0 ==> entry.offset == 0
}

pub open spec fn storable_exports(entries: Seq<ExportEntry>, name_count: int) -> bool {
    forall|i: int| 0 <= i < entries.len() ==> storable_export(#[trigger] entries[i], name_count)
}

pub proof fn export_round_trip(
    dialect: Dialect,
    before: Seq<u8>,
    entry: ExportEntry,
    name_count: int,
    after: Seq<u8>,
)
    requires
        storable_export(entry, name_count),
        before.len() + export_bytes(entry).len() <= usize::MAX,
    ensures
        export_at(
            dialect,
            before + export_bytes(entry) + after,
            before.len() as int,
            name_count,
            false,
        ) == Ok::<(ExportEntry, int), Seq<char>>(
            (entry, (before.len() + export_bytes(entry).len()) as int),
        ),
{
    reveal(export_at);
    let d = before + export_bytes(entry) + after;
    let a = reader::compact_bytes(entry.class);
    let b = reader::compact_bytes(entry.super_class);
    let c = bytes::i32_bytes(entry.package);
    let e = reader::compact_bytes(entry.name_index);
    let f = bytes::i32_bytes(entry.flags);
    let g = reader::compact_bytes(entry.size);
    let h = if entry.size > 0 {
        reader::compact_bytes(entry.offset)
    } else {
        Seq::<u8>::empty()
    };
    bytes::integers_round_trip(0, entry.package, 0, 0);
    bytes::integers_round_trip(0, entry.flags, 0, 0);
    let p = before.len() as int;
    assert(d.subrange(p, p + a.len()) =~= a);
    reader::compact_here(dialect, d, p, entry.class);
    let q = p + a.len();
    assert(d.subrange(q, q + b.len()) =~= b);
    reader::compact_here(dialect, d, q, entry.super_class);
    let q1 = q + b.len();
    assert(d.subrange(q1, q1 + 4) =~= c);
    let q2 = q1 + 4;
    assert(d.subrange(q2, q2 + e.len()) =~= e);
    reader::compact_here(dialect, d, q2, entry.name_index);
    let q3 = q2 + e.len();
    assert(d.subrange(q3, q3 + 4) =~= f);
    let q4 = q3 + 4;
    assert(d.subrange(q4, q4 + g.len()) =~= g);
    reader::compact_here(dialect, d, q4, entry.size);
    if entry.size > 0 {
        let q5 = q4 + g.len();
        assert(d.subrange(q5, q5 + h.len()) =~= h);
        reader::compact_here(dialect, d, q5, entry.offset);
    }
}

/// A stored export table is read back, wherever it stands.
pub proof fn exports_round_trip(
    dialect: Dialect,
    before: Seq<u8>,
    entries: Seq<ExportEntry>,
    name_count: int,
    after: Seq<u8>,
)
    requires
        storable_exports(entries, name_count),
        before.len() + exports_bytes(entries).len() <= usize::MAX,
    ensures
        exports_from(
            dialect,
            before + exports_bytes(entries) + after,
            before.len() as int,
            entries.len(),
            name_count,
            false,
        ) == Ok::<(Seq<ExportEntry>, int), Seq<char>>(
            (entries, (before.len() + exports_bytes(entries).len()) as int),
        ),
{
    exports_round_trip_from(dialect, before, entries, name_count, 0, after);
    assert(entries.take(0) =~= Seq::<ExportEntry>::empty());
    assert(entries.skip(0) =~= entries);
}

proof fn exports_prefix(entries: Seq<ExportEntry>, k: int)
    requires
        0 <= k <= entries.len(),
    ensures
        exports_bytes(entries.take(k)).len() <= exports_bytes(entries).len(),
        exports_bytes(entries.take(k)) == exports_bytes(entries).take(
            exports_bytes(entries.take(k)).len() as int,
        ),
    decreases entries.len(),
{
    let n = exports_bytes(entries.take(k)).len() as int;
    if k == entries.len() {
        assert(entries.take(k) =~= entries);
        assert(exports_bytes(entries).take(n) =~= exports_bytes(entries));
    } else {
        exports_prefix(entries.drop_last(), k);
        assert(entries.drop_last().take(k) =~= entries.take(k));
        assert(exports_bytes(entries).take(n) =~= exports_bytes(entries.drop_last()).take(n));
    }
}

proof fn exports_round_trip_from(
    dialect: Dialect,
    before: Seq<u8>,
    entries: Seq<ExportEntry>,
    name_count: int,
    k: int,
    after: Seq<u8>,
)
    requires
        0 <= k <= entries.len(),
        storable_exports(entries, name_count),
        before.len() + exports_bytes(entries).len() <= usize::MAX,
    ensures
        exports_from(
            dialect,
            before + exports_bytes(entries) + after,
            (before.len() + exports_bytes(entries.take(k)).len()) as int,
            (entries.len() - k) as nat,
            name_count,
            false,
        ) == Ok::<(Seq<ExportEntry>, int), Seq<char>>(
            (entries.skip(k), (before.len() + exports_bytes(entries).len()) as int),
        ),
    decreases entries.len() - k,
{
    let all = exports_bytes(entries);
    let d = before + all + after;
    if k == entries.len() {
        assert(entries.take(k) =~= entries);
        assert(entries.skip(k) =~= Seq::<ExportEntry>::empty());
    } else {
        exports_round_trip_from(dialect, before, entries, name_count, k + 1, after);
        exports_prefix(entries, k + 1);
        let head = exports_bytes(entries.take(k));
        let next = exports_bytes(entries.take(k + 1));
        assert(entries.take(k + 1).drop_last() =~= entries.take(k));
        let one = export_bytes(entries[k]);
        assert(next == head + one);
        let tail = all.skip(next.len() as int);
        assert(all =~= next + tail) by {
            assert(all.take(next.len() as int) + tail =~= all);
        }
        assert(d =~= (before + head) + one + (tail + after));
        export_round_trip(dialect, before + head, entries[k], name_count, tail + after);
        assert(seq![entries[k]] + entries.skip(k + 1) =~= entries.skip(k));
    }
}

pub fn serialize_import_table(entries: &[ImportEntry]) -> (r: Vec<u8>)
    ensures
        r@ == imports_bytes(entries@),
{
    let mut output: Vec<u8> = Vec::new();
    let mut i: usize = 0;
    assert(entries@.take(0) =~= Seq::<ImportEntry>::empty());
    while i < entries.len()
        invariant
            i <= entries@.len(),
            output@ == imports_bytes(entries@.take(i as int)),
        decreases entries.len() - i,
    {
        let ghost before = output@;
        reader::write_compact(&mut output, entries[i].class_package);
        reader::write_compact(&mut output, entries[i].class_name);
        bytes::write_i32(&mut output, entries[i].package);
        reader::write_compact(&mut output, entries[i].name_index);
        i = i + 1;
        proof {
            assert(entries@.take(i as int).drop_last() =~= entries@.take(i - 1));
            assert(output@ =~= before + import_bytes(entries@[i - 1]));
        }
    }
    assert(entries@.take(i as int) =~= entries@);
    output
}

pub fn serialize_export_table(entries: &[ExportEntry]) -> (r: Vec<u8>)
    ensures
        r@ == exports_bytes(entries@),
{
    let mut output: Vec<u8> = Vec::new();
    let mut i: usize = 0;
    assert(entries@.take(0) =~= Seq::<ExportEntry>::empty());
    while i < entries.len()
        invariant
            i <= entries@.len(),
            output@ == exports_bytes(entries@.take(i as int)),
        decreases entries.len() - i,
    {
        let ghost before = output@;
        reader::write_compact(&mut output, entries[i].class);
        reader::write_compact(&mut output, entries[i].super_class);
        bytes::write_i32(&mut output, entries[i].package);
        reader::write_compact(&mut output, entries[i].name_index);
        bytes::write_i32(&mut output, entries[i].flags);
        reader::write_compact(&mut output, entries[i].size);
        if entries[i].size > 0 {
            reader::write_compact(&mut output, entries[i].offset);
        }
        i = i + 1;
        proof {
            assert(entries@.take(i as int).drop_last() =~= entries@.take(i - 1));
            assert(output@ =~= before + export_bytes(entries@[i - 1]));
        }
    }
    assert(entries@.take(i as int) =~= entries@);
    output
}

fn read_import(reader: &mut Reader) -> (r: Result<ImportEntry, String>)
    requires
        old(reader).wf(),
    ensures
        reader::stepped(
            *old(reader),
            *final(reader),
            r,
            import_at(old(reader).dialect, old(reader).data@, old(reader).position as int),
        ),
{
    reveal(import_at);
    let class_package: i32 = reader.read_compact()?;
    let class_name: i32 = reader.read_compact()?;
    let package: i32 = reader.read_i32()?;
    let name_index: i32 = reader.read_compact()?;
    Ok(ImportEntry { class_package, class_name, package, name_index })
}

fn read_export(reader: &mut Reader, name_count: usize, legacy: bool) -> (r: Result<
    ExportEntry,
    String,
>)
    requires
        old(reader).wf(),
    ensures
        reader::stepped(
            *old(reader),
            *final(reader),
            r,
            export_at(
                old(reader).dialect,
                old(reader).data@,
                old(reader).position as int,
                name_count as int,
                legacy,
            ),
        ),
{
    reveal(export_at);
    let class: i32 = reader.read_compact()?;
    let super_class: i32 = reader.read_compact()?;
    let package: i32 = reader.read_i32()?;
    let name_index: i32 = reader.read_compact()?;
    if name_index < 0 || name_index as usize >= name_count {
        return Err("Índice de nome inválido na tabela de exportações.".to_owned());
    }
    let flags: i32 = reader.read_i32()?;
    let size: i32 = reader.read_compact()?;
    if size < 0 {
        return Err("Tamanho de exportação inválido.".to_owned());
    }
    let offset: i32 = if size > 0 || legacy {
        reader.read_compact()?
    } else {
        0
    };
    Ok(ExportEntry { class, super_class, package, name_index, flags, size, offset })
}

fn read_imports(reader: &mut Reader, count: usize) -> (r: Result<Vec<ImportEntry>, String>)
    requires
        old(reader).wf(),
    ensures
        reader::moved(*old(reader), *final(reader)),
        match r {
            Ok(entries) => imports_from(
                old(reader).dialect,
                old(reader).data@,
                old(reader).position as int,
                count as nat,
            ) == Ok::<(Seq<ImportEntry>, int), Seq<char>>(
                (entries@, final(reader).position as int),
            ),
            Err(message) => imports_from(
                old(reader).dialect,
                old(reader).data@,
                old(reader).position as int,
                count as nat,
            ) == Err::<(Seq<ImportEntry>, int), Seq<char>>(message@),
        },
{
    let mut entries: Vec<ImportEntry> = Vec::new();
    let mut i: usize = 0;
    proof {
        names::prefixed_twice(
            Seq::empty(),
            Seq::empty(),
            imports_from(reader.dialect, reader.data@, reader.position as int, count as nat),
        );
    }
    while i < count
        invariant
            reader::moved(*old(reader), *reader),
            i <= count,
            imports_from(
                old(reader).dialect,
                old(reader).data@,
                old(reader).position as int,
                count as nat,
            ) == names::prefixed(
                entries@,
                imports_from(
                    reader.dialect,
                    reader.data@,
                    reader.position as int,
                    (count - i) as nat,
                ),
            ),
        decreases count - i,
    {
        let ghost before = entries@;
        let entry = read_import(reader)?;
        entries.push(entry);
        i = i + 1;
        proof {
            assert(entries@ =~= before + seq![entry]);
            names::prefixed_twice(
                before,
                seq![entry],
                imports_from(
                    reader.dialect,
                    reader.data@,
                    reader.position as int,
                    (count - i) as nat,
                ),
            );
        }
    }
    assert(entries@ + Seq::<ImportEntry>::empty() =~= entries@);
    Ok(entries)
}

/// Reads the export table at `offset` and gives the position behind it.
pub fn read_export_table(
    dialect: Dialect,
    data: &[u8],
    offset: usize,
    count: usize,
    name_count: usize,
    legacy: bool,
) -> (r: Result<(Vec<ExportEntry>, usize), String>)
    ensures
        match r {
            Ok((entries, end)) => export_table(
                dialect,
                data@,
                offset as int,
                count as nat,
                name_count as int,
                legacy,
            ) == Ok::<(Seq<ExportEntry>, int), Seq<char>>((entries@, end as int)),
            Err(message) => export_table(
                dialect,
                data@,
                offset as int,
                count as nat,
                name_count as int,
                legacy,
            ) == Err::<(Seq<ExportEntry>, int), Seq<char>>(message@),
        },
{
    let mut reader = Reader::new(data, dialect);
    reader.seek(offset)?;
    let mut entries: Vec<ExportEntry> = Vec::new();
    let mut i: usize = 0;
    proof {
        names::prefixed_twice(
            Seq::empty(),
            Seq::empty(),
            exports_from(
                dialect,
                data@,
                offset as int,
                count as nat,
                name_count as int,
                legacy,
            ),
        );
    }
    while i < count
        invariant
            reader.wf(),
            reader.data@ == data@,
            reader.dialect == dialect,
            offset <= data@.len(),
            i <= count,
            exports_from(
                dialect,
                data@,
                offset as int,
                count as nat,
                name_count as int,
                legacy,
            ) == names::prefixed(
                entries@,
                exports_from(
                    dialect,
                    data@,
                    reader.position as int,
                    (count - i) as nat,
                    name_count as int,
                    legacy,
                ),
            ),
        decreases count - i,
    {
        let ghost before = entries@;
        let entry = read_export(&mut reader, name_count, legacy)?;
        entries.push(entry);
        i = i + 1;
        proof {
            assert(entries@ =~= before + seq![entry]);
            names::prefixed_twice(
                before,
                seq![entry],
                exports_from(
                    dialect,
                    data@,
                    reader.position as int,
                    (count - i) as nat,
                    name_count as int,
                    legacy,
                ),
            );
        }
    }
    assert(entries@ + Seq::<ExportEntry>::empty() =~= entries@);
    Ok((entries, reader.position))
}

fn choose_exports(
    dialect: Dialect,
    data: &[u8],
    offset: usize,
    count: usize,
    name_count: usize,
) -> (r: Result<Vec<ExportEntry>, String>)
    ensures
        match r {
            Ok(entries) => chosen_exports(
                dialect,
                data@,
                offset as int,
                count as nat,
                name_count as int,
            ) == Ok::<Seq<ExportEntry>, Seq<char>>(entries@),
            Err(message) => chosen_exports(
                dialect,
                data@,
                offset as int,
                count as nat,
                name_count as int,
            ) == Err::<Seq<ExportEntry>, Seq<char>>(message@),
        },
{
    match read_export_table(dialect, data, offset, count, name_count, false) {
        Ok((exports, end)) => {
            if dialect != Dialect::Frontend || end == data.len() {
                return Ok(exports);
            }
            match read_export_table(dialect, data, offset, count, name_count, true) {
                Ok((others, other_end)) => if other_end == data.len() {
                    Ok(others)
                } else {
                    Ok(exports)
                },
                Err(_) => Ok(exports),
            }
        },
        Err(message) => {
            if dialect != Dialect::Frontend {
                return Err(message);
            }
            match read_export_table(dialect, data, offset, count, name_count, true) {
                Ok((others, _)) => Ok(others),
                Err(_) => Err(message),
            }
        },
    }
}

fn read_header(dialect: Dialect, data: &[u8]) -> (r: Result<Header, String>)
    ensures
        text::seen(r) == header_of(dialect, data@),
{
    let mut reader = Reader::new(data, dialect);
    let magic: i32 = reader.read_i32()?;
    if magic != PACKAGE_MAGIC {
        return Err("O arquivo não é um pacote Unreal válido (assinatura incorreta).".to_owned());
    }
    let word: i32 = reader.read_i32()?;
    let bits: u32 = bytes::i32_bits(word);
    reader.skip(4)?;
    let stored: i32 = reader.read_i32()?;
    let name_count: usize = reader::read_count(dialect, stored, "nome")?;
    let stored: i32 = reader.read_i32()?;
    let name_offset: usize = reader::read_offset(dialect, stored, "tabela de nomes")?;
    let stored: i32 = reader.read_i32()?;
    let export_count: usize = reader::read_count(dialect, stored, "exportação")?;
    let stored: i32 = reader.read_i32()?;
    let export_offset: usize = reader::read_offset(dialect, stored, "tabela de exportações")?;
    let stored: i32 = reader.read_i32()?;
    let import_count: usize = reader::read_count(dialect, stored, "importação")?;
    let stored: i32 = reader.read_i32()?;
    let import_offset: usize = reader::read_offset(dialect, stored, "tabela de importações")?;
    Ok(
        Header {
            version: (bits % 65536) as i32,
            licensee: (bits / 65536) as i32,
            name_count,
            name_offset,
            export_count,
            export_offset,
            import_count,
            import_offset,
        },
    )
}

/// The entry that an object reference points to.
pub fn object_index(reference: i32) -> (r: Result<usize, String>)
    ensures
        match r {
            Ok(index) => index_of_reference(reference) == Ok::<int, Seq<char>>(index as int),
            Err(message) => index_of_reference(reference) == Err::<int, Seq<char>>(message@),
        },
{
    if reference == 0 {
        return Err("Referência de objeto nula inválida.".to_owned());
    }
    if reference > 0 {
        Ok((reference - 1) as usize)
    } else {
        Ok((-(reference as i64) - 1) as usize)
    }
}

pub fn export_reference(dialect: Dialect, index: usize) -> (r: Result<i32, String>)
    ensures
        text::seen(r) == export_reference_of(dialect, index as int),
{
    match index.checked_add(1) {
        Some(next) => match dialect {
            Dialect::Frontend => bytes::checked_i32(next, "Muitas exportações no pacote."),
            _ => bytes::checked_i32(next, "Muitos exports."),
        },
        None => match dialect {
            Dialect::Frontend => Err("Referência de exportação inválida.".to_owned()),
            _ => Err("Referência de export inválida.".to_owned()),
        },
    }
}

pub fn import_reference(dialect: Dialect, index: usize) -> (r: Result<i32, String>)
    ensures
        text::seen(r) == import_reference_of(dialect, index as int),
{
    match index.checked_add(1) {
        Some(next) => {
            let reference: i32 = match dialect {
                Dialect::Frontend => bytes::checked_i32(next, "Muitas importações no pacote.")?,
                _ => bytes::checked_i32(next, "Muitos exports.")?,
            };
            Ok(-reference)
        },
        None => match dialect {
            Dialect::Frontend => Err("Referência de importação inválida.".to_owned()),
            _ => Err("Referência de export inválida.".to_owned()),
        },
    }
}

/// A copy of an import table.
pub fn copy_imports(entries: &[ImportEntry]) -> (r: Vec<ImportEntry>)
    ensures
        r@ == entries@,
{
    vstd::slice::slice_to_vec(entries)
}

/// A copy of an export table.
pub fn copy_exports(entries: &[ExportEntry]) -> (r: Vec<ExportEntry>)
    ensures
        r@ == entries@,
{
    vstd::slice::slice_to_vec(entries)
}

/// A path with one more name behind it.
fn extended_path(parent: String, name: &str) -> (r: String)
    ensures
        r@ == parent@ + "."@ + name@,
{
    parent.concat(".").concat(name)
}

impl Package {
    /// Reads the tables of a package.
    pub fn parse(dialect: Dialect, data: Vec<u8>) -> (r: Result<Package, String>)
        ensures
            match r {
                Ok(package) => package_of(dialect, data@) == Ok::<PackageModel, Seq<char>>(
                    package@,
                ),
                Err(message) => package_of(dialect, data@) == Err::<PackageModel, Seq<char>>(
                    message@,
                ),
            },
    {
        let header = read_header(dialect, data.as_slice())?;
        let mut reader = Reader::new(data.as_slice(), dialect);
        reader.seek(header.name_offset)?;
        let entries = names::read_names(&mut reader, header.name_count)?;
        reader.seek(header.import_offset)?;
        let imports = read_imports(&mut reader, header.import_count)?;
        let exports = choose_exports(
            dialect,
            data.as_slice(),
            header.export_offset,
            header.export_count,
            entries.len(),
        )?;
        let names = NameTable::new(entries);
        Ok(
            Package {
                data,
                version: header.version,
                licensee: header.licensee,
                name_offset: header.name_offset,
                names,
                imports,
                exports,
            },
        )
    }

    /// A copy of the package.
    pub fn copy(&self) -> (r: Package)
        ensures
            r@ == self@,
    {
        Package {
            data: bytes::copy_bytes(self.data.as_slice()),
            version: self.version,
            licensee: self.licensee,
            name_offset: self.name_offset,
            names: self.names.copy(),
            imports: copy_imports(self.imports.as_slice()),
            exports: copy_exports(self.exports.as_slice()),
        }
    }

    /// A name of the table, as `object_name` reads it.
    pub fn name(&self, dialect: Dialect, index: i32) -> (r: Result<String, String>)
        ensures
            match r {
                Ok(name) => object_name(dialect, self@.names, index) == Ok::<Seq<char>, Seq<char>>(
                    name@,
                ),
                Err(message) => object_name(dialect, self@.names, index) == Err::<
                    Seq<char>,
                    Seq<char>,
                >(message@),
            },
    {
        if dialect == Dialect::Frontend && (index < 0 || index as usize
            >= self.names.entries.len()) {
            return Ok(String::new());
        }
        let name = self.names.name(index)?;
        Ok(name.to_owned())
    }

    pub fn inner_name_depth(&self, dialect: Dialect, export: &ExportEntry, depth: usize) -> (r:
        Result<String, String>)
        requires
            depth <= 129,
        ensures
            match r {
                Ok(name) => inner_path(
                    dialect,
                    self@.names,
                    self@.exports,
                    *export,
                    depth as int,
                ) == Ok::<Seq<char>, Seq<char>>(name@),
                Err(message) => inner_path(
                    dialect,
                    self@.names,
                    self@.exports,
                    *export,
                    depth as int,
                ) == Err::<Seq<char>, Seq<char>>(message@),
            },
        decreases 129 - depth,
    {
        if depth > MAX_DEPTH {
            return Err("A hierarquia de objetos contém uma referência cíclica.".to_owned());
        }
        let name = self.name(dialect, export.name_index)?;
        if export.package > 0 {
            let parent: usize = object_index(export.package)?;
            if parent >= self.exports.len() {
                return Err("Pacote pai inválido.".to_owned());
            }
            let outer = self.inner_name_depth(dialect, &self.exports[parent], depth + 1)?;
            return Ok(extended_path(outer, name.as_str()));
        }
        Ok(name)
    }

    /// The path of an export.
    pub fn inner_name(&self, dialect: Dialect, export: &ExportEntry) -> (r: Result<String, String>)
        ensures
            match r {
                Ok(name) => name_of(dialect, self@, *export) == Ok::<Seq<char>, Seq<char>>(name@),
                Err(message) => name_of(dialect, self@, *export) == Err::<Seq<char>, Seq<char>>(
                    message@,
                ),
            },
    {
        self.inner_name_depth(dialect, export, 0)
    }

    pub fn import_path(&self, dialect: Dialect, index: usize, depth: usize) -> (r: Result<
        String,
        String,
    >)
        requires
            depth <= 129,
        ensures
            match r {
                Ok(name) => import_path_of(
                    dialect,
                    self@.names,
                    self@.imports,
                    self@.exports,
                    index as int,
                    depth as int,
                ) == Ok::<Seq<char>, Seq<char>>(name@),
                Err(message) => import_path_of(
                    dialect,
                    self@.names,
                    self@.imports,
                    self@.exports,
                    index as int,
                    depth as int,
                ) == Err::<Seq<char>, Seq<char>>(message@),
            },
        decreases 129 - depth,
    {
        if depth > MAX_DEPTH {
            return Err("A hierarquia de imports contém uma referência cíclica.".to_owned());
        }
        if index >= self.imports.len() {
            return Err("Referência de import inválida.".to_owned());
        }
        let import = self.imports[index];
        let name = self.name(dialect, import.name_index)?;
        if import.package == 0 {
            return Ok(name);
        }
        let parent: usize = object_index(import.package)?;
        if import.package < 0 {
            let outer = self.import_path(dialect, parent, depth + 1)?;
            return Ok(extended_path(outer, name.as_str()));
        }
        if parent >= self.exports.len() {
            return Err("Export pai inválido.".to_owned());
        }
        let outer = self.inner_name_depth(dialect, &self.exports[parent], depth + 1)?;
        Ok(extended_path(outer, name.as_str()))
    }

    /// The path of an export's class.
    pub fn class_name(&self, dialect: Dialect, export: &ExportEntry) -> (r: Result<String, String>)
        ensures
            match r {
                Ok(name) => class_path(dialect, self@, *export) == Ok::<Seq<char>, Seq<char>>(
                    name@,
                ),
                Err(message) => class_path(dialect, self@, *export) == Err::<Seq<char>, Seq<char>>(
                    message@,
                ),
            },
    {
        if export.class == 0 {
            return Ok("Core.Class".to_owned());
        }
        let index: usize = object_index(export.class)?;
        if export.class > 0 {
            if index >= self.exports.len() {
                return Err("Classe de exportação inválida.".to_owned());
            }
            return self.inner_name(dialect, &self.exports[index]);
        }
        self.import_path(dialect, index, 0)
    }

    /// Whether an export's class has the given path, up to ASCII case.
    pub fn has_class(&self, dialect: Dialect, export: &ExportEntry, class: &str) -> (r: bool)
        ensures
            r == class_is(dialect, self@, *export, class@),
    {
        match self.class_name(dialect, export) {
            Ok(name) => text::equals_folded(name.as_str(), class),
            Err(_) => false,
        }
    }

    pub fn is_texture(&self, dialect: Dialect, export: &ExportEntry) -> (r: bool)
        ensures
            r == is_texture_export(dialect, self@, *export),
    {
        self.has_class(dialect, export, "Engine.Texture")
    }

    /// The export at `index`.
    pub fn export(&self, index: usize) -> (r: Result<ExportEntry, String>)
        ensures
            text::seen(r) == nth_export(self@, index as int),
    {
        if index < self.exports.len() {
            Ok(self.exports[index])
        } else {
            Err("A textura selecionada não existe mais no pacote.".to_owned())
        }
    }

    /// The serialized bytes of an export.
    pub fn export_data(&self, dialect: Dialect, export: &ExportEntry) -> (r: Result<&[u8], String>)
        ensures
            match r {
                Ok(bytes) => data_of(dialect, self@.data, *export) == Ok::<Seq<u8>, Seq<char>>(
                    bytes@,
                ),
                Err(message) => data_of(dialect, self@.data, *export) == Err::<Seq<u8>, Seq<char>>(
                    message@,
                ),
            },
    {
        let start: usize = match dialect {
            Dialect::Frontend => reader::read_offset(dialect, export.offset, "dados da exportação")?,
            _ => reader::read_offset(dialect, export.offset, "dados de exportação")?,
        };
        let size: usize = match dialect {
            Dialect::Frontend => reader::read_count(dialect, export.size, "tamanho da exportação")?,
            _ => reader::read_count(dialect, export.size, "tamanho de exportação")?,
        };
        let end: usize = match start.checked_add(size) {
            Some(end) => end,
            None => return Err("Offset de exportação inválido.".to_owned()),
        };
        if end > self.data.len() {
            return match dialect {
                Dialect::Frontend => Err(
                    "Os dados da exportação estão fora do arquivo.".to_owned(),
                ),
                _ => Err("Os dados de exportação estão fora do pacote.".to_owned()),
            };
        }
        Ok(slice_subrange(self.data.as_slice(), start, end))
    }
}

} // verus!
