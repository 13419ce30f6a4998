//! Changes to the tables of a package: rebuilding them, creating groups and
//! finding textures by group and name.

use vstd::prelude::*;
use crate::names::{NameModel, NameTable};
use crate::package::{ExportEntry, ImportEntry, Package, PackageModel};
use crate::reader::Dialect;
use crate::bytes;
use crate::names;
use crate::package;
use crate::text;

verus! {

/// Bytes with a length stored at `at`.
pub open spec fn with_len_at(
    d: Result<Seq<u8>, Seq<char>>,
    at: int,
    value: int,
    message: Seq<char>,
) -> Result<Seq<u8>, Seq<char>> {
    match d {
        Err(e) => Err(e),
        Ok(bytes) => match bytes::i32_of_len(value, message) {
            Err(e) => Err(e),
            Ok(v) => bytes::with_i32_at(bytes, at, v),
        },
    }
}

/// The lengths and offsets of the three tables.
pub struct Places {
    pub name_count: int,
    pub name_offset: int,
    pub export_count: int,
    pub export_offset: int,
    pub import_count: int,
    pub import_offset: int,
}

/// The wording for a table or a package that is too large.
#[derive(Clone, Copy)]
pub struct LimitTexts {
    pub names: &'static str,
    pub size: &'static str,
    pub exports: &'static str,
    pub imports: &'static str,
}

/// Bytes with the place of each table in their header.
pub open spec fn with_places(d: Seq<u8>, places: Places, texts: LimitTexts) -> Result<
    Seq<u8>,
    Seq<char>,
> {
    let d1 = with_len_at(Ok(d), 12, places.name_count, texts.names@);
    let d2 = with_len_at(d1, 16, places.name_offset, texts.size@);
    let d3 = with_len_at(d2, 20, places.export_count, texts.exports@);
    let d4 = with_len_at(d3, 24, places.export_offset, texts.size@);
    let d5 = with_len_at(d4, 28, places.import_count, texts.imports@);
    with_len_at(d5, 32, places.import_offset, texts.size@)
}

fn store_len(data: &mut Vec<u8>, at: usize, value: usize, message: &str) -> (r: Result<(), String>)
    ensures
        match r {
            Ok(()) => with_len_at(Ok(old(data)@), at as int, value as int, message@) == Ok::<
                Seq<u8>,
                Seq<char>,
            >(final(data)@),
            Err(e) => with_len_at(Ok(old(data)@), at as int, value as int, message@) == Err::<
                Seq<u8>,
                Seq<char>,
            >(e@),
        },
{
    let stored: i32 = bytes::checked_i32(value, message)?;
    bytes::write_i32_at(data, at, stored)
}

/// Stores the place of each table in the header.
pub fn store_places(
    data: &mut Vec<u8>,
    name_count: usize,
    name_offset: usize,
    export_count: usize,
    export_offset: usize,
    import_count: usize,
    import_offset: usize,
    texts: LimitTexts,
) -> (r: Result<(), String>)
    ensures
        ({
            let places = Places {
                name_count: name_count as int,
                name_offset: name_offset as int,
                export_count: export_count as int,
                export_offset: export_offset as int,
                import_count: import_count as int,
                import_offset: import_offset as int,
            };
            match r {
                Ok(()) => with_places(old(data)@, places, texts) == Ok::<Seq<u8>, Seq<char>>(
                    final(data)@,
                ),
                Err(e) => with_places(old(data)@, places, texts) == Err::<Seq<u8>, Seq<char>>(e@),
            }
        }),
{
    store_len(data, 12, name_count, texts.names)?;
    store_len(data, 16, name_offset, texts.size)?;
    store_len(data, 20, export_count, texts.exports)?;
    store_len(data, 24, export_offset, texts.size)?;
    store_len(data, 28, import_count, texts.imports)?;
    store_len(data, 32, import_offset, texts.size)
}

pub open spec fn rebuild_texts() -> LimitTexts {
    LimitTexts {
        names: "Muitos nomes no pacote.",
        size: "Pacote grande demais.",
        exports: "Muitas exportações no pacote.",
        imports: "Muitas importações no pacote.",
    }
}

pub fn rebuild_messages() -> (r: LimitTexts)
    ensures
        r == rebuild_texts(),
{
    LimitTexts {
        names: "Muitos nomes no pacote.",
        size: "Pacote grande demais.",
        exports: "Muitas exportações no pacote.",
        imports: "Muitas importações no pacote.",
    }
}

/// A package file: `data` with new tables behind it and their places in its
/// header.
pub open spec fn rebuilt_data(
    dialect: Dialect,
    data: Seq<u8>,
    names: Seq<NameModel>,
    imports: Seq<ImportEntry>,
    exports: Seq<ExportEntry>,
) -> Result<Seq<u8>, Seq<char>> {
    match names::names_bytes(dialect, names) {
        Err(e) => Err(e),
        Ok(name_table) => {
            let import_offset = data.len() + name_table.len();
            let export_offset = import_offset + package::imports_bytes(imports).len();
            if export_offset > usize::MAX {
                Err("Tamanho de pacote inválido."@)
            } else {
                with_places(
                    data + name_table + package::imports_bytes(imports) + package::exports_bytes(exports),
                    Places {
                        name_count: names.len() as int,
                        name_offset: data.len() as int,
                        export_count: exports.len() as int,
                        export_offset: export_offset as int,
                        import_count: imports.len() as int,
                        import_offset: import_offset as int,
                    },
                    rebuild_texts(),
                )
            }
        },
    }
}

/// The package after its tables were rebuilt behind `data`.
pub open spec fn rebuilt(
    p: PackageModel,
    data: Seq<u8>,
    names: Seq<NameModel>,
    imports: Seq<ImportEntry>,
    exports: Seq<ExportEntry>,
) -> Result<PackageModel, Seq<char>> {
    match rebuilt_data(Dialect::Engine, data, names, imports, exports) {
        Err(e) => Err(e),
        Ok(d) => Ok(PackageModel { data: d, names, imports, exports, ..p }),
    }
}

/// Appends tables to package data and stores their places in its header.
pub fn rebuild_data(
    dialect: Dialect,
    mut data: Vec<u8>,
    names: &NameTable,
    imports: &[ImportEntry],
    exports: &[ExportEntry],
) -> (r: Result<Vec<u8>, String>)
    ensures
        match r {
            Ok(bytes) => rebuilt_data(dialect, data@, names@, imports@, exports@) == Ok::<
                Seq<u8>,
                Seq<char>,
            >(bytes@),
            Err(message) => rebuilt_data(dialect, data@, names@, imports@, exports@) == Err::<
                Seq<u8>,
                Seq<char>,
            >(message@),
        },
{
    let ghost start = data@;
    let name_table = names.serialize_as(dialect)?;
    let import_table = package::serialize_import_table(imports);
    let export_table = package::serialize_export_table(exports);
    let name_offset: usize = data.len();
    let import_offset: usize = match name_offset.checked_add(name_table.len()) {
        Some(offset) => offset,
        None => return Err("Tamanho de pacote inválido.".to_owned()),
    };
    let export_offset: usize = match import_offset.checked_add(import_table.len()) {
        Some(offset) => offset,
        None => return Err("Tamanho de pacote inválido.".to_owned()),
    };
    bytes::append(&mut data, name_table.as_slice());
    bytes::append(&mut data, import_table.as_slice());
    bytes::append(&mut data, export_table.as_slice());
    store_places(
        &mut data,
        names.entries.len(),
        name_offset,
        exports.len(),
        export_offset,
        imports.len(),
        import_offset,
        rebuild_messages(),
    )?;
    Ok(data)
}

/// A stored table of names does not depend on who stores it.
pub proof fn names_bytes_agree(a: Dialect, b: Dialect, names: Seq<NameModel>)
    requires
        names::names_bytes(a, names) is Ok,
    ensures
        names::names_bytes(b, names) == names::names_bytes(a, names),
    decreases names.len(),
{
    if names.len() > 0 {
        names_bytes_agree(a, b, names.drop_last());
    }
}

proof fn len_stored(d: Seq<u8>, at: int, value: int, message: Seq<char>)
    requires
        0 <= at,
        0 <= value,
        with_len_at(Ok(d), at, value, message) is Ok,
    ensures
        ({
            let r = with_len_at(Ok(d), at, value, message)->Ok_0;
            &&& r.len() == d.len()
            &&& at + 4 <= d.len()
            &&& at + 4 <= usize::MAX
            &&& value <= i32::MAX
            &&& r.subrange(at, at + 4) == bytes::i32_bytes(value as i32)
            &&& forall|k: int|
                0 <= k < d.len() && !(at <= k < at + 4) ==> #[trigger] r[k] == d[k]
        }),
{
    bytes::integers_round_trip(0, value as i32, 0, 0);
    let r = with_len_at(Ok(d), at, value, message)->Ok_0;
    assert(r.subrange(at, at + 4) =~= bytes::i32_bytes(value as i32));
}

/// What a header with places says of each table, and that nothing else changed.
pub proof fn places_are_read(d: Seq<u8>, places: Places, texts: LimitTexts)
    requires
        with_places(d, places, texts) is Ok,
        places.name_count >= 0,
        places.name_offset >= 0,
        places.export_count >= 0,
        places.export_offset >= 0,
        places.import_count >= 0,
        places.import_offset >= 0,
    ensures
        ({
            let r = with_places(d, places, texts)->Ok_0;
            &&& r.len() == d.len() >= 36
            &&& forall|k: int|
                0 <= k < d.len() && !(12 <= k < 36) ==> #[trigger] r[k] == d[k]
            &&& bytes::i32_of(r.subrange(12, 16)) == places.name_count
            &&& bytes::i32_of(r.subrange(16, 20)) == places.name_offset
            &&& bytes::i32_of(r.subrange(20, 24)) == places.export_count
            &&& bytes::i32_of(r.subrange(24, 28)) == places.export_offset
            &&& bytes::i32_of(r.subrange(28, 32)) == places.import_count
            &&& bytes::i32_of(r.subrange(32, 36)) == places.import_offset
            &&& places.name_count <= i32::MAX
            &&& places.name_offset <= i32::MAX
            &&& places.export_count <= i32::MAX
            &&& places.export_offset <= i32::MAX
            &&& places.import_count <= i32::MAX
            &&& places.import_offset <= i32::MAX
        }),
{
    let d1 = with_len_at(Ok(d), 12, places.name_count, texts.names@)->Ok_0;
    let d2 = with_len_at(Ok(d1), 16, places.name_offset, texts.size@)->Ok_0;
    let d3 = with_len_at(Ok(d2), 20, places.export_count, texts.exports@)->Ok_0;
    let d4 = with_len_at(Ok(d3), 24, places.export_offset, texts.size@)->Ok_0;
    let d5 = with_len_at(Ok(d4), 28, places.import_count, texts.imports@)->Ok_0;
    let r = with_len_at(Ok(d5), 32, places.import_offset, texts.size@)->Ok_0;
    len_stored(d, 12, places.name_count, texts.names@);
    len_stored(d1, 16, places.name_offset, texts.size@);
    len_stored(d2, 20, places.export_count, texts.exports@);
    len_stored(d3, 24, places.export_offset, texts.size@);
    len_stored(d4, 28, places.import_count, texts.imports@);
    len_stored(d5, 32, places.import_offset, texts.size@);
    bytes::integers_round_trip(0, places.name_count as i32, 0, 0);
    bytes::integers_round_trip(0, places.name_offset as i32, 0, 0);
    bytes::integers_round_trip(0, places.export_count as i32, 0, 0);
    bytes::integers_round_trip(0, places.export_offset as i32, 0, 0);
    bytes::integers_round_trip(0, places.import_count as i32, 0, 0);
    bytes::integers_round_trip(0, places.import_offset as i32, 0, 0);
    assert(r.subrange(12, 16) =~= d1.subrange(12, 16));
    assert(r.subrange(16, 20) =~= d2.subrange(16, 20));
    assert(r.subrange(20, 24) =~= d3.subrange(20, 24));
    assert(r.subrange(24, 28) =~= d4.subrange(24, 28));
    assert(r.subrange(28, 32) =~= d5.subrange(28, 32));
}

/// Reading a rebuilt package gives back the names, imports and exports that
/// were written, with the version of the data that they were written behind.
///
/// The data has to start with the bytes of a package, and each export must be
/// one that a table can hold.
#[verifier::spinoff_prover]
#[verifier::rlimit(60)]
pub proof fn rebuilt_package_is_read_back(
    dialect: Dialect,
    data: Seq<u8>,
    names: Seq<NameModel>,
    imports: Seq<ImportEntry>,
    exports: Seq<ExportEntry>,
)
    requires
        package::header_of(dialect, data) is Ok,
        rebuilt_data(Dialect::Engine, data, names, imports, exports) is Ok,
        package::storable_exports(exports, names.len() as int),
        rebuilt_data(Dialect::Engine, data, names, imports, exports)->Ok_0.len() <= usize::MAX,
    ensures
        ({
            let d = rebuilt_data(Dialect::Engine, data, names, imports, exports)->Ok_0;
            package::package_of(dialect, d) == Ok::<PackageModel, Seq<char>>(
                PackageModel {
                    data: d,
                    version: package::header_of(dialect, data)->Ok_0.version,
                    licensee: package::header_of(dialect, data)->Ok_0.licensee,
                    name_offset: data.len() as usize,
                    names,
                    imports,
                    exports,
                },
            )
        }),
{
    let nt = names::names_bytes(Dialect::Engine, names)->Ok_0;
    let it = package::imports_bytes(imports);
    let et = package::exports_bytes(exports);
    let full = data + nt + it + et;
    let places = Places {
        name_count: names.len() as int,
        name_offset: data.len() as int,
        export_count: exports.len() as int,
        export_offset: (data.len() + nt.len() + it.len()) as int,
        import_count: imports.len() as int,
        import_offset: (data.len() + nt.len()) as int,
    };
    let d = with_places(full, places, rebuild_texts())->Ok_0;
    header_needs_bytes(dialect, data);
    assert(full.take(data.len() as int) =~= data);
    placed_header_is_read(dialect, data, full, places, rebuild_texts());
    places_are_read(full, places, rebuild_texts());
    let head = d.take(data.len() as int);
    assert(d =~= head + nt + it + et);
    tables_are_read(dialect, head, names, imports, exports);
}

/// Tables that stand one behind the other at the end of a file are read back.
proof fn tables_are_read(
    dialect: Dialect,
    head: Seq<u8>,
    names: Seq<NameModel>,
    imports: Seq<ImportEntry>,
    exports: Seq<ExportEntry>,
)
    requires
        names::names_bytes(Dialect::Engine, names) is Ok,
        package::storable_exports(exports, names.len() as int),
        head.len() + names::names_bytes(Dialect::Engine, names)->Ok_0.len()
            + package::imports_bytes(imports).len() + package::exports_bytes(exports).len()
            <= usize::MAX,
    ensures
        ({
            let nt = names::names_bytes(Dialect::Engine, names)->Ok_0;
            let it = package::imports_bytes(imports);
            let et = package::exports_bytes(exports);
            let d = head + nt + it + et;
            let n = head.len() as int;
            &&& names::names_from(dialect, d, n, names.len()) == Ok::<
                (Seq<NameModel>, int),
                Seq<char>,
            >((names, n + nt.len()))
            &&& package::imports_from(dialect, d, n + nt.len(), imports.len()) == Ok::<
                (Seq<ImportEntry>, int),
                Seq<char>,
            >((imports, n + nt.len() + it.len()))
            &&& package::exports_from(
                dialect,
                d,
                n + nt.len() + it.len(),
                exports.len(),
                names.len() as int,
                false,
            ) == Ok::<(Seq<ExportEntry>, int), Seq<char>>((exports, d.len() as int))
        }),
{
    let nt = names::names_bytes(Dialect::Engine, names)->Ok_0;
    let it = package::imports_bytes(imports);
    let et = package::exports_bytes(exports);
    let d = head + nt + it + et;
    names_bytes_agree(Dialect::Engine, dialect, names);
    assert(d =~= head + nt + (it + et));
    names::names_round_trip(dialect, head, names, it + et);
    package::imports_round_trip(dialect, head + nt, imports, et);
    assert(d =~= (head + nt + it) + et + Seq::<u8>::empty());
    package::exports_round_trip(
        dialect,
        head + nt + it,
        exports,
        names.len() as int,
        Seq::empty(),
    );
}

/// The header that `with_places` leaves keeps the version and gives the places.
#[verifier::spinoff_prover]
#[verifier::rlimit(60)]
pub proof fn placed_header_is_read(
    dialect: Dialect,
    data: Seq<u8>,
    full: Seq<u8>,
    places: Places,
    texts: LimitTexts,
)
    requires
        package::header_of(dialect, data) is Ok,
        data.len() >= 36,
        full.len() >= data.len(),
        full.take(data.len() as int) == data,
        with_places(full, places, texts) is Ok,
        places.name_count >= 0,
        places.name_offset >= 0,
        places.export_count >= 0,
        places.export_offset >= 0,
        places.import_count >= 0,
        places.import_offset >= 0,
    ensures
        package::header_of(dialect, with_places(full, places, texts)->Ok_0) == Ok::<
            package::Header,
            Seq<char>,
        >(
            package::Header {
                version: package::header_of(dialect, data)->Ok_0.version,
                licensee: package::header_of(dialect, data)->Ok_0.licensee,
                name_count: places.name_count as usize,
                name_offset: places.name_offset as usize,
                export_count: places.export_count as usize,
                export_offset: places.export_offset as usize,
                import_count: places.import_count as usize,
                import_offset: places.import_offset as usize,
            },
        ),
{
    let d = with_places(full, places, texts)->Ok_0;
    places_are_read(full, places, texts);
    assert forall|k: int| 0 <= k < 12 implies d[k] == data[k] by {
        assert(full.take(data.len() as int)[k] == full[k]);
    }
    assert(d.subrange(0, 4) =~= data.subrange(0, 4));
    assert(d.subrange(4, 8) =~= data.subrange(4, 8));
}

/// A header has 36 bytes.
pub proof fn header_needs_bytes(dialect: Dialect, data: Seq<u8>)
    requires
        package::header_of(dialect, data) is Ok,
    ensures
        data.len() >= 36,
{
}

/// Whether a texture of this path lies in a group. The main group holds the
/// paths without a dot.
pub open spec fn in_group(dialect: Dialect, name: Seq<char>, group: Seq<char>) -> bool {
    if text::same_folded(group, "Pacote principal"@) {
        !name.contains('.')
    } else {
        group_of(dialect, name) matches Some(prefix) && text::same_folded(prefix, group)
    }
}

/// The group of a path: what stands before its first dot. The frontend does
/// not count an empty one.
pub open spec fn group_of(dialect: Dialect, name: Seq<char>) -> Option<Seq<char>> {
    match text::before_dot(name) {
        Some(prefix) => if dialect == Dialect::Frontend && prefix.len() == 0 {
            None
        } else {
            Some(prefix)
        },
        None => None,
    }
}

/// The group of a path, with a name for the main group.
pub open spec fn group_or_main(dialect: Dialect, name: Seq<char>) -> Seq<char> {
    match group_of(dialect, name) {
        Some(group) => group,
        None => "Pacote principal"@,
    }
}

pub fn texture_group(dialect: Dialect, name: &str) -> (r: Option<String>)
    ensures
        match r {
            Some(group) => group_of(dialect, name@) == Some(group@),
            None => group_of(dialect, name@) is None,
        },
{
    let chars = text::chars_of(name);
    match text::dot_prefix(chars.as_slice()) {
        Some(prefix) => if dialect == Dialect::Frontend && prefix.len() == 0 {
            None
        } else {
            Some(text::text_of(prefix))
        },
        None => None,
    }
}

pub fn texture_group_or_main(dialect: Dialect, name: &str) -> (r: String)
    ensures
        r@ == group_or_main(dialect, name@),
{
    match texture_group(dialect, name) {
        Some(group) => group,
        None => "Pacote principal".to_owned(),
    }
}

/// The last part of a path.
pub fn texture_leaf(name: &str) -> (r: String)
    ensures
        r@ == text::after_last_dot(name@),
{
    let chars = text::chars_of(name);
    text::text_of(text::dot_leaf(chars.as_slice()))
}

pub fn texture_in_group(dialect: Dialect, name: &str, group: &str) -> (r: bool)
    ensures
        r == in_group(dialect, name@, group@),
{
    if text::equals_folded(group, "Pacote principal") {
        !text::contains_char(name, '.')
    } else {
        match texture_group(dialect, name) {
            Some(prefix) => text::equals_folded(prefix.as_str(), group),
            None => false,
        }
    }
}

/// The key by which a texture is looked up.
pub open spec fn lookup_key(group: Seq<char>, name: Seq<char>) -> Seq<char> {
    text::lower_text(group) + "\0"@ + text::lower_text(name)
}

pub fn texture_lookup_key(group_name: &str, texture_name: &str) -> (r: String)
    ensures
        r@ == lookup_key(group_name@, texture_name@),
{
    text::join3(text::lowered(group_name).as_str(), "\0", text::lowered(texture_name).as_str())
}

/// A texture's key and the index of its export.
pub struct TextureKey {
    pub key: String,
    pub index: usize,
}

pub struct KeyModel {
    pub key: Seq<char>,
    pub index: int,
}

impl View for TextureKey {
    type V = KeyModel;

    open spec fn view(&self) -> KeyModel {
        KeyModel { key: self.key@, index: self.index as int }
    }
}

pub open spec fn keys_of(keys: Seq<TextureKey>) -> Seq<KeyModel> {
    Seq::new(keys.len(), |i: int| keys[i]@)
}

/// The keys of the textures among the first `n` exports.
pub open spec fn texture_keys(p: PackageModel, n: nat) -> Result<Seq<KeyModel>, Seq<char>>
    decreases n,
{
    if n == 0 {
        Ok(Seq::empty())
    } else {
        match texture_keys(p, (n - 1) as nat) {
            Err(e) => Err(e),
            Ok(keys) => if !package::is_texture_export(Dialect::Engine, p, p.exports[n - 1]) {
                Ok(keys)
            } else {
                match package::name_of(Dialect::Engine, p, p.exports[n - 1]) {
                    Err(e) => Err(e),
                    Ok(name) => Ok(
                        keys.push(
                            KeyModel {
                                key: lookup_key(
                                    group_or_main(Dialect::Engine, name),
                                    text::after_last_dot(name),
                                ),
                                index: n - 1,
                            },
                        ),
                    ),
                }
            },
        }
    }
}

/// The export of the first texture with this key.
pub open spec fn find_key(keys: Seq<KeyModel>, key: Seq<char>, from: int) -> Option<int>
    decreases keys.len() - from,
{
    if from < 0 || from >= keys.len() {
        None
    } else if keys[from].key == key {
        Some(keys[from].index)
    } else {
        find_key(keys, key, from + 1)
    }
}

proof fn texture_keys_error_spreads(p: PackageModel, k: nat, n: nat)
    requires
        k <= n,
        texture_keys(p, k) is Err,
    ensures
        texture_keys(p, n) == texture_keys(p, k),
    decreases n,
{
    if k < n {
        texture_keys_error_spreads(p, k, (n - 1) as nat);
    }
}

/// Finds a texture by its key.
pub fn look_up(keys: &[TextureKey], key: &str) -> (r: Option<usize>)
    ensures
        match r {
            Some(index) => find_key(keys_of(keys@), key@, 0) == Some(index as int),
            None => find_key(keys_of(keys@), key@, 0) is None,
        },
{
    let mut i: usize = 0;
    while i < keys.len()
        invariant
            i <= keys@.len(),
            find_key(keys_of(keys@), key@, 0) == find_key(keys_of(keys@), key@, i as int),
        decreases keys.len() - i,
    {
        if text::equal_text(keys[i].key.as_str(), key) {
            return Some(keys[i].index);
        }
        i = i + 1;
    }
    None
}

/// The first texture of a group from `from` on. A texture without a readable
/// name ends the search with its failure.
pub open spec fn texture_named(
    p: PackageModel,
    group: Seq<char>,
    name: Seq<char>,
    from: int,
) -> Result<Option<int>, Seq<char>>
    decreases p.exports.len() - from,
{
    if from < 0 || from >= p.exports.len() {
        Ok(None)
    } else if !package::is_texture_export(Dialect::Engine, p, p.exports[from]) {
        texture_named(p, group, name, from + 1)
    } else {
        match package::name_of(Dialect::Engine, p, p.exports[from]) {
            Err(e) => Err(e),
            Ok(path) => if in_group(Dialect::Engine, path, group) && text::same_folded(
                text::after_last_dot(path),
                name,
            ) {
                Ok(Some(from))
            } else {
                texture_named(p, group, name, from + 1)
            },
        }
    }
}

/// The first texture that lies in a group.
pub open spec fn first_in_group(p: PackageModel, group: Seq<char>, from: int) -> Option<int>
    decreases p.exports.len() - from,
{
    if from < 0 || from >= p.exports.len() {
        None
    } else if package::is_texture_export(Dialect::Engine, p, p.exports[from]) && (package::name_of(
        Dialect::Engine,
        p,
        p.exports[from],
    ) matches Ok(path) && in_group(Dialect::Engine, path, group)) {
        Some(from)
    } else {
        first_in_group(p, group, from + 1)
    }
}

pub open spec fn is_group_export(dialect: Dialect, p: PackageModel, export: ExportEntry) -> bool {
    package::class_is(dialect, p, export, "Core.Package"@)
}

/// The first group object with this name.
pub open spec fn group_object(dialect: Dialect, p: PackageModel, group: Seq<char>, from: int) -> Option<int>
    decreases p.exports.len() - from,
{
    if from < 0 || from >= p.exports.len() {
        None
    } else if is_group_export(dialect, p, p.exports[from]) && (package::name_of(
        dialect,
        p,
        p.exports[from],
    ) matches Ok(path) && text::same_folded(path, group)) {
        Some(from)
    } else {
        group_object(dialect, p, group, from + 1)
    }
}

/// The object that the textures of a group lie in: none for the main group, the
/// one that its first texture lies in, or the group object of that name.
pub open spec fn group_outer(p: PackageModel, group: Seq<char>) -> Result<Option<i32>, Seq<char>> {
    if text::same_folded(group, "Pacote principal"@) {
        Ok(Some(0i32))
    } else {
        match first_in_group(p, group, 0) {
            Some(i) => Ok(Some(p.exports[i].package)),
            None => match group_object(Dialect::Engine, p, group, 0) {
                Some(i) => match package::export_reference_of(Dialect::Engine, i) {
                    Ok(reference) => Ok(Some(reference)),
                    Err(e) => Err(e),
                },
                None => Ok(None),
            },
        }
    }
}

/// The first group object of a package.
pub open spec fn group_template(dialect: Dialect, p: PackageModel, from: int) -> Option<int>
    decreases p.exports.len() - from,
{
    if from < 0 || from >= p.exports.len() {
        None
    } else if is_group_export(dialect, p, p.exports[from]) {
        Some(from)
    } else {
        group_template(dialect, p, from + 1)
    }
}

/// The first import with this outer object and name.
pub open spec fn find_import(imports: Seq<ImportEntry>, outer: i32, name: i32, from: int) -> Option<
    int,
>
    decreases imports.len() - from,
{
    if from < 0 || from >= imports.len() {
        None
    } else if imports[from].package == outer && imports[from].name_index == name {
        Some(from)
    } else {
        find_import(imports, outer, name, from + 1)
    }
}

/// The imports with one that has this outer object and name, and its reference.
pub open spec fn with_import(
    dialect: Dialect,
    imports: Seq<ImportEntry>,
    class_package: i32,
    class_name: i32,
    outer: i32,
    name: i32,
) -> Result<(Seq<ImportEntry>, i32), Seq<char>> {
    match find_import(imports, outer, name, 0) {
        Some(i) => match package::import_reference_of(dialect, i) {
            Ok(reference) => Ok((imports, reference)),
            Err(e) => Err(e),
        },
        None => match package::import_reference_of(dialect, imports.len() as int) {
            Ok(reference) => Ok(
                (
                    imports.push(
                        ImportEntry { class_package, class_name, package: outer, name_index: name },
                    ),
                    reference,
                ),
            ),
            Err(e) => Err(e),
        },
    }
}

/// The class import of group objects, given the names that it is made of.
pub open spec fn with_core_import(
    dialect: Dialect,
    imports: Seq<ImportEntry>,
    core: i32,
    package: i32,
    class: i32,
) -> Result<(Seq<ImportEntry>, i32), Seq<char>> {
    match with_import(dialect, imports, core, package, 0, core) {
        Err(e) => Err(e),
        Ok((more, reference)) => with_import(dialect, more, core, class, reference, package),
    }
}

/// Names and imports that hold the class of group objects, and its reference.
pub open spec fn with_core_package(names: Seq<NameModel>, imports: Seq<ImportEntry>) -> Result<
    (Seq<NameModel>, Seq<ImportEntry>, i32),
    Seq<char>,
> {
    match names::interned(names, "Core"@) {
        Err(e) => Err(e),
        Ok((n1, core)) => match names::interned(n1, "Package"@) {
            Err(e) => Err(e),
            Ok((n2, package)) => match names::interned(n2, "Class"@) {
                Err(e) => Err(e),
                Ok((n3, class)) => match with_core_import(
                    Dialect::Engine,
                    imports,
                    core,
                    package,
                    class,
                ) {
                    Err(e) => Err(e),
                    Ok((more, reference)) => Ok((n3, more, reference)),
                },
            },
        },
    }
}

fn position_of_import(imports: &Vec<ImportEntry>, outer: i32, name: i32) -> (r: Option<usize>)
    ensures
        match r {
            Some(i) => find_import(imports@, outer, name, 0) == Some(i as int),
            None => find_import(imports@, outer, name, 0) is None,
        },
{
    let mut i: usize = 0;
    while i < imports.len()
        invariant
            i <= imports@.len(),
            find_import(imports@, outer, name, 0) == find_import(imports@, outer, name, i as int),
        decreases imports.len() - i,
    {
        if imports[i].package == outer && imports[i].name_index == name {
            return Some(i);
        }
        i = i + 1;
    }
    None
}

fn ensure_import(
    dialect: Dialect,
    imports: &mut Vec<ImportEntry>,
    class_package: i32,
    class_name: i32,
    outer: i32,
    name: i32,
) -> (r: Result<i32, String>)
    ensures
        match r {
            Ok(reference) => with_import(
                dialect,
                old(imports)@,
                class_package,
                class_name,
                outer,
                name,
            ) == Ok::<(Seq<ImportEntry>, i32), Seq<char>>((final(imports)@, reference)),
            Err(e) => with_import(
                dialect,
                old(imports)@,
                class_package,
                class_name,
                outer,
                name,
            ) == Err::<(Seq<ImportEntry>, i32), Seq<char>>(e@),
        },
{
    match position_of_import(imports, outer, name) {
        Some(i) => package::import_reference(dialect, i),
        None => {
            let at: usize = imports.len();
            imports.push(
                ImportEntry { class_package, class_name, package: outer, name_index: name },
            );
            package::import_reference(dialect, at)
        },
    }
}

/// Adds the class import of group objects where it is missing.
pub fn ensure_core_import(
    dialect: Dialect,
    imports: &mut Vec<ImportEntry>,
    core: i32,
    package: i32,
    class: i32,
) -> (r: Result<i32, String>)
    ensures
        match r {
            Ok(reference) => with_core_import(dialect, old(imports)@, core, package, class) == Ok::<
                (Seq<ImportEntry>, i32),
                Seq<char>,
            >((final(imports)@, reference)),
            Err(e) => with_core_import(dialect, old(imports)@, core, package, class) == Err::<
                (Seq<ImportEntry>, i32),
                Seq<char>,
            >(e@),
        },
{
    let reference: i32 = ensure_import(dialect, imports, core, package, 0, core)?;
    ensure_import(dialect, imports, core, class, reference, package)
}

fn ensure_core_package_import(names: &mut NameTable, imports: &mut Vec<ImportEntry>) -> (r: Result<
    i32,
    String,
>)
    ensures
        match r {
            Ok(reference) => with_core_package(old(names)@, old(imports)@) == Ok::<
                (Seq<NameModel>, Seq<ImportEntry>, i32),
                Seq<char>,
            >((final(names)@, final(imports)@, reference)),
            Err(e) => with_core_package(old(names)@, old(imports)@) == Err::<
                (Seq<NameModel>, Seq<ImportEntry>, i32),
                Seq<char>,
            >(e@),
        },
{
    let core: i32 = names.intern("Core")?;
    let package: i32 = names.intern("Package")?;
    let class: i32 = names.intern("Class")?;
    ensure_core_import(Dialect::Engine, imports, core, package, class)
}

/// Tables with a new group object, and what the new object is.
pub struct NewGroup {
    pub names: Seq<NameModel>,
    pub imports: Seq<ImportEntry>,
    pub exports: Seq<ExportEntry>,
    pub reference: i32,
    pub bytes: Seq<u8>,
}

/// The export of a new group.
pub open spec fn group_entry(
    class: i32,
    super_class: i32,
    flags: i32,
    name_index: i32,
    size: i32,
) -> ExportEntry {
    ExportEntry { class, super_class, package: 0, name_index, flags, size, offset: 0 }
}

/// A new group takes class, flags and bytes from the first group object, or is
/// made from scratch where the package has none.
pub open spec fn with_group(
    p: PackageModel,
    group: Seq<char>,
    names: Seq<NameModel>,
    imports: Seq<ImportEntry>,
    exports: Seq<ExportEntry>,
) -> Result<NewGroup, Seq<char>> {
    match names::interned(names, group) {
        Err(e) => Err(e),
        Ok((n1, name_index)) => match group_template(Dialect::Engine, p, 0) {
            Some(i) => match package::data_of(Dialect::Engine, p.data, p.exports[i]) {
                Err(e) => Err(e),
                Ok(bytes) => match package::export_reference_of(Dialect::Engine, exports.len() as int) {
                    Err(e) => Err(e),
                    Ok(reference) => match bytes::i32_of_len(
                        bytes.len() as int,
                        "O grupo é grande demais."@,
                    ) {
                        Err(e) => Err(e),
                        Ok(size) => Ok(
                            NewGroup {
                                names: n1,
                                imports,
                                exports: exports.push(
                                    group_entry(
                                        p.exports[i].class,
                                        p.exports[i].super_class,
                                        p.exports[i].flags,
                                        name_index,
                                        size,
                                    ),
                                ),
                                reference,
                                bytes,
                            },
                        ),
                    },
                },
            },
            None => match with_core_package(n1, imports) {
                Err(e) => Err(e),
                Ok((n2, i2, class)) => match package::export_reference_of(
                    Dialect::Engine,
                    exports.len() as int,
                ) {
                    Err(e) => Err(e),
                    Ok(reference) => Ok(
                        NewGroup {
                            names: n2,
                            imports: i2,
                            exports: exports.push(
                                group_entry(class, 0, 0x0007_0004, name_index, 1),
                            ),
                            reference,
                            bytes: seq![1u8],
                        },
                    ),
                },
            },
        },
    }
}

/// What a path given for a reference asks for: its text without the wrapping
/// `Texture'...'`.
pub open spec fn requested_path(path: Seq<char>) -> Seq<char> {
    let text = text::trimmed(path);
    let inner = if text::starts_with(text, "Texture'"@) {
        text.skip("Texture'"@.len() as int)
    } else {
        text
    };
    text::trimmed(text::trim_end_of(inner, '\''))
}

/// How far a search for a referenced texture came: an exact match ends it;
/// otherwise it remembers the last match in the same group and how many
/// textures have the wanted name, with the first of them.
pub enum Search {
    Exact(int),
    Loose { same_group: Option<int>, count: int, first: int },
}

pub open spec fn is_exact(candidate: Seq<char>, requested: Seq<char>) -> bool {
    text::same_folded(candidate, requested) || text::ends_with(requested, "."@ + candidate)
}

/// The search after one more loosely matching candidate.
pub open spec fn matched(search: Search, index: int, same: bool) -> Search {
    match search {
        Search::Exact(i) => Search::Exact(i),
        Search::Loose { same_group, count, first } => Search::Loose {
            same_group: if same {
                Some(index)
            } else {
                same_group
            },
            count: count + 1,
            first: if count == 0 {
                index
            } else {
                first
            },
        },
    }
}

/// The search for `requested` over the exports from `from` on.
pub open spec fn searched(
    p: PackageModel,
    current: Seq<char>,
    requested: Seq<char>,
    from: int,
    search: Search,
) -> Result<Search, Seq<char>>
    decreases p.exports.len() - from,
{
    if from < 0 || from >= p.exports.len() {
        Ok(search)
    } else if !package::is_texture_export(Dialect::Engine, p, p.exports[from]) {
        searched(p, current, requested, from + 1, search)
    } else {
        match package::name_of(Dialect::Engine, p, p.exports[from]) {
            Err(e) => Err(e),
            Ok(candidate) => if is_exact(candidate, requested) {
                Ok(Search::Exact(from))
            } else if text::same_folded(text::after_last_dot(candidate), text::after_last_dot(requested)) {
                searched(
                    p,
                    current,
                    requested,
                    from + 1,
                    matched(search, from, text::before_dot(candidate) == text::before_dot(current)),
                )
            } else {
                searched(p, current, requested, from + 1, search)
            },
        }
    }
}

pub open spec fn no_match() -> Search {
    Search::Loose { same_group: None, count: 0, first: 0 }
}

/// The export that a finished search settled on.
pub open spec fn settled(search: Search) -> Option<int> {
    match search {
        Search::Exact(i) => Some(i),
        Search::Loose { same_group, count, first } => match same_group {
            Some(i) => Some(i),
            None => if count == 1 {
                Some(first)
            } else {
                None
            },
        },
    }
}

/// The reference to the texture of the given path, seen from an export.
pub open spec fn resolved(p: PackageModel, current: int, path: Seq<char>) -> Result<i32, Seq<char>> {
    let requested = requested_path(path);
    if requested.len() == 0 {
        Ok(0i32)
    } else {
        match package::nth_export(p, current) {
            Err(e) => Err(e),
            Ok(export) => match package::name_of(Dialect::Engine, p, export) {
                Err(e) => Err(e),
                Ok(name) => match searched(p, name, requested, 0, no_match()) {
                    Err(e) => Err(e),
                    Ok(search) => match settled(search) {
                        Some(i) => package::export_reference_of(Dialect::Engine, i),
                        None => Err(
                            "A textura indicada em AnimNext não foi encontrada no pacote: "@
                                + requested + "."@,
                        ),
                    },
                },
            },
        }
    }
}

fn same_prefix(a: &[char], b: &[char]) -> (r: bool)
    ensures
        r == (text::before_dot(a@) == text::before_dot(b@)),
{
    match (text::dot_prefix(a), text::dot_prefix(b)) {
        (Some(x), Some(y)) => text::equal_chars(x, y),
        (None, None) => true,
        _ => false,
    }
}

/// Takes the wrapping `Texture'...'` off a path.
pub fn unwrap_path(path: &str) -> (r: String)
    ensures
        r@ == requested_path(path@),
{
    let chars = text::chars_of(path);
    let text = text::trim(chars.as_slice());
    let inner = match text::without_prefix(text, "Texture'") {
        Some(rest) => rest,
        None => text,
    };
    text::text_of(text::trim(text::trim_end_matches(inner, '\'')))
}

/// Whether a candidate is the texture that was asked for by its path.
pub fn exact_match(candidate: &str, requested: &str) -> (r: bool)
    ensures
        r == is_exact(candidate@, requested@),
{
    if text::equals_folded(candidate, requested) {
        return true;
    }
    let tail = text::join(".", candidate);
    let tail_chars = text::chars_of(tail.as_str());
    let chars = text::chars_of(requested);
    text::has_suffix(chars.as_slice(), tail_chars.as_slice())
}

impl Package {
    /// Replaces the tables of the package and appends them to `data`.
    pub fn rewrite_tables_from_data(
        &mut self,
        data: Vec<u8>,
        names: NameTable,
        imports: Vec<ImportEntry>,
        exports: Vec<ExportEntry>,
    ) -> (r: Result<(), String>)
        ensures
            match r {
                Ok(()) => rebuilt(old(self)@, data@, names@, imports@, exports@) == Ok::<
                    PackageModel,
                    Seq<char>,
                >(final(self)@),
                Err(message) => {
                    &&& rebuilt(old(self)@, data@, names@, imports@, exports@) == Err::<
                        PackageModel,
                        Seq<char>,
                    >(message@)
                    &&& final(self)@ == old(self)@
                },
            },
    {
        let rewritten = rebuild_data(
            Dialect::Engine,
            data,
            &names,
            imports.as_slice(),
            exports.as_slice(),
        )?;
        self.data = rewritten;
        self.names = names;
        self.imports = imports;
        self.exports = exports;
        Ok(())
    }

    /// Appends objects and new tables to the package.
    pub fn rewrite_tables(
        &mut self,
        names: NameTable,
        imports: Vec<ImportEntry>,
        exports: Vec<ExportEntry>,
        appended: &[u8],
    ) -> (r: Result<(), String>)
        ensures
            match r {
                Ok(()) => rebuilt(
                    old(self)@,
                    old(self)@.data + appended@,
                    names@,
                    imports@,
                    exports@,
                ) == Ok::<PackageModel, Seq<char>>(final(self)@),
                Err(message) => {
                    &&& rebuilt(
                        old(self)@,
                        old(self)@.data + appended@,
                        names@,
                        imports@,
                        exports@,
                    ) == Err::<PackageModel, Seq<char>>(message@)
                    &&& final(self)@ == old(self)@
                },
            },
    {
        let mut data = bytes::copy_bytes(self.data.as_slice());
        bytes::append(&mut data, appended);
        self.rewrite_tables_from_data(data, names, imports, exports)
    }

    /// The textures of the package by group and name.
    pub fn texture_index_by_group(&self) -> (r: Result<Vec<TextureKey>, String>)
        ensures
            match r {
                Ok(keys) => texture_keys(self@, self@.exports.len()) == Ok::<
                    Seq<KeyModel>,
                    Seq<char>,
                >(keys_of(keys@)),
                Err(message) => texture_keys(self@, self@.exports.len()) == Err::<
                    Seq<KeyModel>,
                    Seq<char>,
                >(message@),
            },
    {
        let mut keys: Vec<TextureKey> = Vec::new();
        let mut i: usize = 0;
        assert(keys_of(keys@) =~= Seq::<KeyModel>::empty());
        while i < self.exports.len()
            invariant
                i <= self.exports@.len(),
                texture_keys(self@, i as nat) == Ok::<Seq<KeyModel>, Seq<char>>(keys_of(keys@)),
            decreases self.exports.len() - i,
        {
            let export = self.exports[i];
            if self.is_texture(Dialect::Engine, &export) {
                match self.inner_name(Dialect::Engine, &export) {
                    Ok(name) => {
                        let group = texture_group_or_main(Dialect::Engine, name.as_str());
                        let leaf = texture_leaf(name.as_str());
                        let key = texture_lookup_key(group.as_str(), leaf.as_str());
                        let ghost before = keys_of(keys@);
                        let item = TextureKey { key, index: i };
                        let ghost model = item@;
                        keys.push(item);
                        assert(keys_of(keys@) =~= before.push(model));
                    },
                    Err(message) => {
                        proof {
                            texture_keys_error_spreads(
                                self@,
                                (i + 1) as nat,
                                self@.exports.len(),
                            );
                        }
                        return Err(message);
                    },
                }
            }
            i = i + 1;
        }
        Ok(keys)
    }

    /// Finds a texture of a group by its name.
    pub fn find_texture_in_group(&self, group_name: &str, texture_name: &str) -> (r: Result<
        Option<usize>,
        String,
    >)
        ensures
            match r {
                Ok(Some(i)) => texture_named(self@, group_name@, texture_name@, 0) == Ok::<
                    Option<int>,
                    Seq<char>,
                >(Some(i as int)),
                Ok(None) => texture_named(self@, group_name@, texture_name@, 0) == Ok::<
                    Option<int>,
                    Seq<char>,
                >(None),
                Err(message) => texture_named(self@, group_name@, texture_name@, 0) == Err::<
                    Option<int>,
                    Seq<char>,
                >(message@),
            },
    {
        let mut i: usize = 0;
        while i < self.exports.len()
            invariant
                i <= self.exports@.len(),
                texture_named(self@, group_name@, texture_name@, 0) == texture_named(
                    self@,
                    group_name@,
                    texture_name@,
                    i as int,
                ),
            decreases self.exports.len() - i,
        {
            let export = self.exports[i];
            if self.is_texture(Dialect::Engine, &export) {
                let name = self.inner_name(Dialect::Engine, &export)?;
                let leaf = texture_leaf(name.as_str());
                if texture_in_group(Dialect::Engine, name.as_str(), group_name) && text::equals_folded(
                    leaf.as_str(),
                    texture_name,
                ) {
                    return Ok(Some(i));
                }
            }
            i = i + 1;
        }
        Ok(None)
    }

    /// The object that the textures of a group lie in.
    pub fn group_outer_for_name(&self, group_name: &str) -> (r: Result<Option<i32>, String>)
        ensures
            text::seen(r) == group_outer(self@, group_name@),
    {
        if text::equals_folded(group_name, "Pacote principal") {
            return Ok(Some(0));
        }
        let mut i: usize = 0;
        while i < self.exports.len()
            invariant
                i <= self.exports@.len(),
                !text::same_folded(group_name@, "Pacote principal"@),
                first_in_group(self@, group_name@, 0) == first_in_group(
                    self@,
                    group_name@,
                    i as int,
                ),
            decreases self.exports.len() - i,
        {
            let export = self.exports[i];
            if self.is_texture(Dialect::Engine, &export) {
                if let Ok(name) = self.inner_name(Dialect::Engine, &export) {
                    if texture_in_group(Dialect::Engine, name.as_str(), group_name) {
                        return Ok(Some(export.package));
                    }
                }
            }
            i = i + 1;
        }
        match self.find_group_object(Dialect::Engine, group_name) {
            Some(index) => {
                let reference: i32 = package::export_reference(Dialect::Engine, index)?;
                Ok(Some(reference))
            },
            None => Ok(None),
        }
    }

    pub fn find_group_object(&self, dialect: Dialect, group_name: &str) -> (r: Option<usize>)
        ensures
            match r {
                Some(i) => group_object(dialect, self@, group_name@, 0) == Some(i as int),
                None => group_object(dialect, self@, group_name@, 0) is None,
            },
    {
        let mut i: usize = 0;
        while i < self.exports.len()
            invariant
                i <= self.exports@.len(),
                group_object(dialect, self@, group_name@, 0) == group_object(
                    dialect,
                    self@,
                    group_name@,
                    i as int,
                ),
            decreases self.exports.len() - i,
        {
            let export = self.exports[i];
            if self.has_class(dialect, &export, "Core.Package") {
                if let Ok(name) = self.inner_name(dialect, &export) {
                    if text::equals_folded(name.as_str(), group_name) {
                        return Some(i);
                    }
                }
            }
            i = i + 1;
        }
        None
    }

    pub fn find_group_template(&self, dialect: Dialect) -> (r: Option<usize>)
        ensures
            match r {
                Some(i) => group_template(dialect, self@, 0) == Some(i as int) && i
                    < self.exports@.len(),
                None => group_template(dialect, self@, 0) is None,
            },
    {
        let mut i: usize = 0;
        while i < self.exports.len()
            invariant
                i <= self.exports@.len(),
                group_template(dialect, self@, 0) == group_template(dialect, self@, i as int),
            decreases self.exports.len() - i,
        {
            let export = self.exports[i];
            if self.has_class(dialect, &export, "Core.Package") {
                return Some(i);
            }
            i = i + 1;
        }
        None
    }

    /// Adds a group object to the tables and gives its reference and bytes.
    pub fn create_group(
        &self,
        group_name: &str,
        names: &mut NameTable,
        imports: &mut Vec<ImportEntry>,
        exports: &mut Vec<ExportEntry>,
    ) -> (r: Result<(i32, Vec<u8>), String>)
        ensures
            match r {
                Ok((reference, bytes)) => with_group(
                    self@,
                    group_name@,
                    old(names)@,
                    old(imports)@,
                    old(exports)@,
                ) == Ok::<NewGroup, Seq<char>>(
                    NewGroup {
                        names: final(names)@,
                        imports: final(imports)@,
                        exports: final(exports)@,
                        reference,
                        bytes: bytes@,
                    },
                ),
                Err(message) => with_group(
                    self@,
                    group_name@,
                    old(names)@,
                    old(imports)@,
                    old(exports)@,
                ) == Err::<NewGroup, Seq<char>>(message@),
            },
    {
        let name_index: i32 = names.intern(group_name)?;
        match self.find_group_template(Dialect::Engine) {
            Some(i) => {
                let template = self.exports[i];
                let bytes = bytes::copy_bytes(self.export_data(Dialect::Engine, &template)?);
                let reference: i32 = package::export_reference(Dialect::Engine, exports.len())?;
                let size: i32 = bytes::checked_i32(bytes.len(), "O grupo é grande demais.")?;
                exports.push(
                    ExportEntry {
                        class: template.class,
                        super_class: template.super_class,
                        package: 0,
                        name_index,
                        flags: template.flags,
                        size,
                        offset: 0,
                    },
                );
                Ok((reference, bytes))
            },
            None => {
                let class: i32 = ensure_core_package_import(names, imports)?;
                let mut bytes: Vec<u8> = Vec::new();
                bytes.push(1);
                assert(bytes@ =~= seq![1u8]);
                let reference: i32 = package::export_reference(Dialect::Engine, exports.len())?;
                exports.push(
                    ExportEntry {
                        class,
                        super_class: 0,
                        package: 0,
                        name_index,
                        flags: 0x0007_0004,
                        size: 1,
                        offset: 0,
                    },
                );
                Ok((reference, bytes))
            },
        }
    }

    /// The reference to the texture of the given path.
    pub fn resolve_texture_reference(&self, current_export: usize, path: &str) -> (r: Result<
        i32,
        String,
    >)
        ensures
            text::seen(r) == resolved(self@, current_export as int, path@),
    {
        let requested = unwrap_path(path);
        let requested_chars = text::chars_of(requested.as_str());
        if requested_chars.len() == 0 {
            return Ok(0);
        }
        let export = self.export(current_export)?;
        let current = self.inner_name(Dialect::Engine, &export)?;
        let current_chars = text::chars_of(current.as_str());
        let mut same_group: Option<usize> = None;
        let mut count: usize = 0;
        let mut first: usize = 0;
        let mut i: usize = 0;
        while i < self.exports.len()
            invariant
                i <= self.exports@.len(),
                count <= i,
                requested_chars@ == requested@,
                current_chars@ == current@,
                requested@ == requested_path(path@),
                requested@.len() > 0,
                package::nth_export(self@, current_export as int) == Ok::<ExportEntry, Seq<char>>(export),
                package::name_of(Dialect::Engine, self@, export) == Ok::<Seq<char>, Seq<char>>(current@),
                searched(self@, current@, requested@, 0, no_match()) == searched(
                    self@,
                    current@,
                    requested@,
                    i as int,
                    loose(same_group, count, first),
                ),
            decreases self.exports.len() - i,
        {
            let candidate_export = self.exports[i];
            if self.is_texture(Dialect::Engine, &candidate_export) {
                let candidate = self.inner_name(Dialect::Engine, &candidate_export)?;
                if exact_match(candidate.as_str(), requested.as_str()) {
                    return package::export_reference(Dialect::Engine, i);
                }
                let candidate_chars = text::chars_of(candidate.as_str());
                if text::chars_equal_folded(
                    text::dot_leaf(candidate_chars.as_slice()),
                    text::dot_leaf(requested_chars.as_slice()),
                ) {
                    if same_prefix(candidate_chars.as_slice(), current_chars.as_slice()) {
                        same_group = Some(i);
                    }
                    if count == 0 {
                        first = i;
                    }
                    count = count + 1;
                }
            }
            i = i + 1;
        }
        match same_group {
            Some(index) => package::export_reference(Dialect::Engine, index),
            None => if count == 1 {
                package::export_reference(Dialect::Engine, first)
            } else {
                Err(
                    text::join3(
                        "A textura indicada em AnimNext não foi encontrada no pacote: ",
                        requested.as_str(),
                        ".",
                    ),
                )
            },
        }
    }
}

spec fn loose(same_group: Option<usize>, count: usize, first: usize) -> Search {
    Search::Loose {
        same_group: match same_group {
            Some(i) => Some(i as int),
            None => None,
        },
        count: count as int,
        first: first as int,
    }
}

} // verus!
