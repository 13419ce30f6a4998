//! The name table of a package.

use vstd::prelude::*;
use crate::reader::{Dialect, Reader};
use crate::bytes;
use crate::reader;
use crate::text;

verus! {

#[derive(Debug, Clone, PartialEq, Eq)]
pub struct NameEntry {
    pub name: String,
    pub flags: i32,
}

/// A name entry as text and flags.
pub struct NameModel {
    pub name: Seq<char>,
    pub flags: i32,
}

impl View for NameEntry {
    type V = NameModel;

    open spec fn view(&self) -> NameModel {
        NameModel { name: self.name@, flags: self.flags }
    }
}

/// A UE2 name table owned by the package writer.
///
/// The engine only creates ASCII property names, but existing Unicode names
/// can still be retained and serialized when a package is rebuilt.
#[derive(Debug, Clone, Default, PartialEq, Eq)]
pub struct NameTable {
    pub entries: Vec<NameEntry>,
}

pub open spec fn models_of(entries: Seq<NameEntry>) -> Seq<NameModel> {
    Seq::new(entries.len(), |i: int| entries[i]@)
}

impl View for NameTable {
    type V = Seq<NameModel>;

    open spec fn view(&self) -> Seq<NameModel> {
        models_of(self.entries@)
    }
}

/// The first entry from `from` on that has the given name up to ASCII case.
pub open spec fn find_name(names: Seq<NameModel>, name: Seq<char>, from: int) -> Option<int>
    decreases names.len() - from,
{
    if from < 0 || from >= names.len() {
        None
    } else if text::same_folded(names[from].name, name) {
        Some(from)
    } else {
        find_name(names, name, from + 1)
    }
}

pub open spec fn index_in(names: Seq<NameModel>, name: Seq<char>) -> Option<i32> {
    match find_name(names, name, 0) {
        Some(i) => if i <= i32::MAX {
            Some(i as i32)
        } else {
            None
        },
        None => None,
    }
}

/// What `find_name` finds is the first entry of that name.
pub proof fn find_name_is_first(names: Seq<NameModel>, name: Seq<char>, from: int)
    requires
        0 <= from,
    ensures
        match find_name(names, name, from) {
            Some(i) => {
                &&& from <= i < names.len()
                &&& text::same_folded(names[i].name, name)
                &&& forall|k: int| from <= k < i ==> !text::same_folded(#[trigger] names[k].name, name)
            },
            None => forall|k: int|
                from <= k < names.len() ==> !text::same_folded(#[trigger] names[k].name, name),
        },
    decreases names.len() - from,
{
    if from < names.len() && !text::same_folded(names[from].name, name) {
        find_name_is_first(names, name, from + 1);
    }
}

pub open spec fn name_at(names: Seq<NameModel>, index: i32) -> Result<Seq<char>, Seq<char>> {
    if index < 0 {
        Err("Índice de nome inválido."@)
    } else if index >= names.len() {
        Err("Índice de nome fora da tabela do pacote."@)
    } else {
        Ok(names[index as int].name)
    }
}

/// The flags that a new entry takes over from the first one.
pub open spec fn new_flags(names: Seq<NameModel>) -> i32 {
    if names.len() > 0 {
        names[0].flags
    } else {
        0x0007_0000
    }
}

pub open spec fn with_new_name(names: Seq<NameModel>, name: Seq<char>) -> Result<
    (Seq<NameModel>, i32),
    Seq<char>,
> {
    if !text::all_ascii(name) || name.len() == 0 {
        Err("Nomes criados pelo motor devem ser ASCII e não vazios."@)
    } else if names.len() > i32::MAX {
        Err("A tabela de nomes excede o limite do formato."@)
    } else {
        Ok((names.push(NameModel { name, flags: new_flags(names) }), names.len() as i32))
    }
}

/// The table that holds `name`, and its index there.
pub open spec fn interned(names: Seq<NameModel>, name: Seq<char>) -> Result<
    (Seq<NameModel>, i32),
    Seq<char>,
> {
    match index_in(names, name) {
        Some(index) => Ok((names, index)),
        None => with_new_name(names, name),
    }
}

/// The stored form of a name table.
pub open spec fn names_bytes(dialect: Dialect, names: Seq<NameModel>) -> Result<
    Seq<u8>,
    Seq<char>,
>
    decreases names.len(),
{
    if names.len() == 0 {
        Ok(Seq::empty())
    } else {
        match names_bytes(dialect, names.drop_last()) {
            Err(e) => Err(e),
            Ok(head) => match reader::encoded_string(dialect, names.last().name) {
                Err(e) => Err(e),
                Ok(string) => Ok(head + string + bytes::i32_bytes(names.last().flags)),
            },
        }
    }
}

/// `n` name entries from `p` on, and the position behind them.
pub open spec fn names_from(dialect: Dialect, d: Seq<u8>, p: int, n: nat) -> Result<
    (Seq<NameModel>, int),
    Seq<char>,
>
    decreases n,
{
    if n == 0 {
        Ok((Seq::empty(), p))
    } else {
        match reader::string_at(dialect, d, p) {
            Err(e) => Err(e),
            Ok((name, q)) => match reader::i32_read(dialect, d, q) {
                Err(e) => Err(e),
                Ok((flags, q1)) => prefixed(
                    seq![NameModel { name, flags }],
                    names_from(dialect, d, q1, (n - 1) as nat),
                ),
            },
        }
    }
}

/// A result with more items in front of those that it holds.
pub open spec fn prefixed<T>(
    front: Seq<T>,
    rest: Result<(Seq<T>, int), Seq<char>>,
) -> Result<(Seq<T>, int), Seq<char>> {
    match rest {
        Ok((items, end)) => Ok((front + items, end)),
        Err(e) => Err(e),
    }
}

pub proof fn prefixed_twice<T>(a: Seq<T>, b: Seq<T>, rest: Result<(Seq<T>, int), Seq<char>>)
    ensures
        prefixed(a, prefixed(b, rest)) == prefixed(a + b, rest),
        prefixed(Seq::<T>::empty(), rest) == rest,
{
    if rest is Ok {
        assert(a + (b + rest->Ok_0.0) =~= a + b + rest->Ok_0.0);
        assert(Seq::<T>::empty() + rest->Ok_0.0 =~= rest->Ok_0.0);
    }
}

/// A name table can be stored where each name is short enough.
pub open spec fn storable(names: Seq<NameModel>) -> bool {
    forall|i: int| 0 <= i < names.len() ==> reader::string_units(#[trigger] names[i].name) <= i32::MAX
}

pub proof fn storable_names_are_stored(dialect: Dialect, names: Seq<NameModel>)
    ensures
        names_bytes(dialect, names) is Ok <==> storable(names),
    decreases names.len(),
{
    if names.len() > 0 {
        storable_names_are_stored(dialect, names.drop_last());
        if storable(names) {
            assert forall|i: int| 0 <= i < names.drop_last().len() implies reader::string_units(
                #[trigger] names.drop_last()[i].name,
            ) <= i32::MAX by {
                assert(names[i] == names.drop_last()[i]);
            }
        } else if reader::string_units(names.last().name) <= i32::MAX {
            let i = choose|i: int|
                0 <= i < names.len() && reader::string_units(#[trigger] names[i].name) > i32::MAX;
            assert(names.drop_last()[i] == names[i]);
        }
    }
}

/// A stored name table is read back, wherever it stands.
pub proof fn names_round_trip(
    dialect: Dialect,
    before: Seq<u8>,
    names: Seq<NameModel>,
    after: Seq<u8>,
)
    requires
        names_bytes(dialect, names) is Ok,
        before.len() + names_bytes(dialect, names)->Ok_0.len() <= usize::MAX,
    ensures
        names_from(
            dialect,
            before + names_bytes(dialect, names)->Ok_0 + after,
            before.len() as int,
            names.len(),
        ) == Ok::<(Seq<NameModel>, int), Seq<char>>(
            (names, (before.len() + names_bytes(dialect, names)->Ok_0.len()) as int),
        ),
{
    names_round_trip_from(dialect, before, names, 0, after);
    assert(names.take(0) =~= Seq::<NameModel>::empty());
    assert(names.skip(0) =~= names);
    assert(before + Seq::<u8>::empty() =~= before);
}

proof fn names_prefix_stored(dialect: Dialect, names: Seq<NameModel>, k: int)
    requires
        0 <= k <= names.len(),
        names_bytes(dialect, names) is Ok,
    ensures
        names_bytes(dialect, names.take(k)) is Ok,
        names_bytes(dialect, names.take(k))->Ok_0.len() <= names_bytes(dialect, names)->Ok_0.len(),
        names_bytes(dialect, names.take(k))->Ok_0 == names_bytes(dialect, names)->Ok_0.take(
            names_bytes(dialect, names.take(k))->Ok_0.len() as int,
        ),
    decreases names.len(),
{
    if k == names.len() {
        assert(names.take(k) =~= names);
        assert(names_bytes(dialect, names)->Ok_0.take(
            names_bytes(dialect, names)->Ok_0.len() as int,
        ) =~= names_bytes(dialect, names)->Ok_0);
    } else {
        names_prefix_stored(dialect, names.drop_last(), k);
        assert(names.drop_last().take(k) =~= names.take(k));
        let n = names_bytes(dialect, names.take(k))->Ok_0.len() as int;
        assert(names_bytes(dialect, names)->Ok_0.take(n) =~= names_bytes(
            dialect,
            names.drop_last(),
        )->Ok_0.take(n));
    }
}

proof fn names_round_trip_from(
    dialect: Dialect,
    before: Seq<u8>,
    names: Seq<NameModel>,
    k: int,
    after: Seq<u8>,
)
    requires
        0 <= k <= names.len(),
        names_bytes(dialect, names) is Ok,
        before.len() + names_bytes(dialect, names)->Ok_0.len() <= usize::MAX,
    ensures
        names_from(
            dialect,
            before + names_bytes(dialect, names)->Ok_0 + after,
            (before.len() + names_bytes(dialect, names.take(k))->Ok_0.len()) as int,
            (names.len() - k) as nat,
        ) == Ok::<(Seq<NameModel>, int), Seq<char>>(
            (names.skip(k), (before.len() + names_bytes(dialect, names)->Ok_0.len()) as int),
        ),
    decreases names.len() - k,
{
    let all = names_bytes(dialect, names)->Ok_0;
    let d = before + all + after;
    if k == names.len() {
        assert(names.take(k) =~= names);
        assert(names.skip(k) =~= Seq::<NameModel>::empty());
    } else {
        names_round_trip_from(dialect, before, names, k + 1, after);
        names_prefix_stored(dialect, names, k);
        names_prefix_stored(dialect, names, k + 1);
        let head = names_bytes(dialect, names.take(k))->Ok_0;
        let next = names_bytes(dialect, names.take(k + 1))->Ok_0;
        assert(names.take(k + 1).drop_last() =~= names.take(k));
        let name = names[k].name;
        let flags = names[k].flags;
        let string = reader::string_bytes(name);
        assert(next == head + string + bytes::i32_bytes(flags));
        let tail = all.skip(next.len() as int);
        assert(all =~= next + tail) by {
            assert(all.take(next.len() as int) + tail =~= all);
        }
        assert(d =~= (before + head) + string + (bytes::i32_bytes(flags) + tail + after));
        reader::string_round_trip(dialect, before + head, name, bytes::i32_bytes(flags) + tail + after);
        let q = (before.len() + head.len() + string.len()) as int;
        assert(d.subrange(q, q + 4) =~= bytes::i32_bytes(flags));
        bytes::integers_round_trip(0, flags, 0, 0);
        assert(seq![names[k]] + names.skip(k + 1) =~= names.skip(k));
        assert(names[k] == NameModel { name, flags });
    }
}

impl NameTable {
    pub fn new(entries: Vec<NameEntry>) -> (r: Self)
        ensures
            r.entries == entries,
    {
        NameTable { entries }
    }

    pub fn entries(&self) -> (r: &[NameEntry])
        ensures
            r@ == self.entries@,
    {
        self.entries.as_slice()
    }

    pub fn name(&self, index: i32) -> (r: Result<&str, String>)
        ensures
            match r {
                Ok(name) => name_at(self@, index) == Ok::<Seq<char>, Seq<char>>(name@),
                Err(message) => name_at(self@, index) == Err::<Seq<char>, Seq<char>>(message@),
            },
    {
        if index < 0 {
            return Err("Índice de nome inválido.".to_owned());
        }
        let at: usize = index as usize;
        if at >= self.entries.len() {
            return Err("Índice de nome fora da tabela do pacote.".to_owned());
        }
        Ok(self.entries[at].name.as_str())
    }

    /// The index of the first entry with this name, up to ASCII case.
    pub fn index_of(&self, name: &str) -> (r: Option<i32>)
        ensures
            r == index_in(self@, name@),
    {
        let mut i: usize = 0;
        while i < self.entries.len()
            invariant
                i <= self.entries@.len(),
                find_name(self@, name@, 0) == find_name(self@, name@, i as int),
            decreases self.entries.len() - i,
        {
            if text::equals_folded(self.entries[i].name.as_str(), name) {
                if i <= 0x7fff_ffff {
                    return Some(i as i32);
                }
                return None;
            }
            i = i + 1;
        }
        None
    }

    /// Adds a name at the end of the table.
    pub fn push_name(&mut self, name: &str) -> (r: Result<i32, String>)
        ensures
            match r {
                Ok(index) => with_new_name(old(self)@, name@) == Ok::<
                    (Seq<NameModel>, i32),
                    Seq<char>,
                >((final(self)@, index)),
                Err(message) => {
                    &&& with_new_name(old(self)@, name@) == Err::<(Seq<NameModel>, i32), Seq<char>>(
                        message@,
                    )
                    &&& final(self)@ == old(self)@
                },
            },
    {
        let chars = text::chars_of(name);
        if !text::is_ascii_text(chars.as_slice()) || chars.len() == 0 {
            return Err("Nomes criados pelo motor devem ser ASCII e não vazios.".to_owned());
        }
        if self.entries.len() > 0x7fff_ffff {
            return Err("A tabela de nomes excede o limite do formato.".to_owned());
        }
        let index: i32 = self.entries.len() as i32;
        let flags: i32 = if self.entries.len() > 0 {
            self.entries[0].flags
        } else {
            0x0007_0000
        };
        let ghost before = self@;
        self.entries.push(NameEntry { name: name.to_owned(), flags });
        assert(self@ =~= before.push(NameModel { name: name@, flags }));
        Ok(index)
    }

    /// The index of `name`, which is added to the table where it is missing.
    pub fn intern(&mut self, name: &str) -> (r: Result<i32, String>)
        ensures
            match r {
                Ok(index) => interned(old(self)@, name@) == Ok::<(Seq<NameModel>, i32), Seq<char>>(
                    (final(self)@, index),
                ),
                Err(message) => {
                    &&& interned(old(self)@, name@) == Err::<(Seq<NameModel>, i32), Seq<char>>(
                        message@,
                    )
                    &&& final(self)@ == old(self)@
                },
            },
    {
        match self.index_of(name) {
            Some(index) => Ok(index),
            None => self.push_name(name),
        }
    }

    pub fn serialize(&self) -> (r: Result<Vec<u8>, String>)
        ensures
            match r {
                Ok(bytes) => names_bytes(Dialect::Engine, self@) == Ok::<Seq<u8>, Seq<char>>(bytes@),
                Err(message) => names_bytes(Dialect::Engine, self@) == Err::<Seq<u8>, Seq<char>>(
                    message@,
                ),
            },
    {
        self.serialize_as(Dialect::Engine)
    }

    /// The stored form, with failures worded for `dialect`.
    pub fn serialize_as(&self, dialect: Dialect) -> (r: Result<Vec<u8>, String>)
        ensures
            match r {
                Ok(bytes) => names_bytes(dialect, self@) == Ok::<Seq<u8>, Seq<char>>(bytes@),
                Err(message) => names_bytes(dialect, self@) == Err::<Seq<u8>, Seq<char>>(message@),
            },
    {
        let mut output: Vec<u8> = Vec::new();
        let mut i: usize = 0;
        assert(self@.take(0) =~= Seq::<NameModel>::empty());
        while i < self.entries.len()
            invariant
                i <= self.entries@.len(),
                names_bytes(dialect, self@.take(i as int)) == Ok::<Seq<u8>, Seq<char>>(output@),
            decreases self.entries.len() - i,
        {
            proof {
                assert(self@.take(i + 1).drop_last() =~= self@.take(i as int));
                assert(self@.take(i + 1).last() == self.entries@[i as int]@);
            }
            match reader::write_unreal_string(dialect, &mut output, self.entries[i].name.as_str()) {
                Ok(()) => {},
                Err(message) => {
                    proof {
                        names_error_spreads(dialect, self@, i + 1);
                    }
                    return Err(message);
                },
            }
            bytes::write_i32(&mut output, self.entries[i].flags);
            i = i + 1;
        }
        assert(self@.take(i as int) =~= self@);
        Ok(output)
    }

    /// A copy of the table.
    pub fn copy(&self) -> (r: Self)
        ensures
            r@ == self@,
    {
        let mut entries: Vec<NameEntry> = Vec::new();
        let mut i: usize = 0;
        while i < self.entries.len()
            invariant
                i <= self.entries@.len(),
                models_of(entries@) == self@.take(i as int),
            decreases self.entries.len() - i,
        {
            let ghost before = models_of(entries@);
            let entry = NameEntry {
                name: self.entries[i].name.clone(),
                flags: self.entries[i].flags,
            };
            assert(entry@ == self@[i as int]);
            entries.push(entry);
            i = i + 1;
            assert(models_of(entries@) =~= before.push(entry@));
            assert(models_of(entries@) =~= self@.take(i as int));
        }
        assert(self@.take(i as int) =~= self@);
        NameTable { entries }
    }
}

proof fn names_error_spreads(dialect: Dialect, names: Seq<NameModel>, k: int)
    requires
        0 <= k <= names.len(),
        names_bytes(dialect, names.take(k)) is Err,
    ensures
        names_bytes(dialect, names) == names_bytes(dialect, names.take(k)),
    decreases names.len(),
{
    if k == names.len() {
        assert(names.take(k) =~= names);
    } else {
        assert(names.drop_last().take(k) =~= names.take(k));
        names_error_spreads(dialect, names.drop_last(), k);
    }
}

/// Reads `count` name entries.
pub fn read_names(reader: &mut Reader, count: usize) -> (r: Result<Vec<NameEntry>, String>)
    requires
        old(reader).wf(),
    ensures
        reader::moved(*old(reader), *final(reader)),
        match r {
            Ok(entries) => names_from(
                old(reader).dialect,
                old(reader).data@,
                old(reader).position as int,
                count as nat,
            ) == Ok::<(Seq<NameModel>, int), Seq<char>>(
                (models_of(entries@), final(reader).position as int),
            ),
            Err(message) => names_from(
                old(reader).dialect,
                old(reader).data@,
                old(reader).position as int,
                count as nat,
            ) == Err::<(Seq<NameModel>, int), Seq<char>>(message@),
        },
{
    let mut entries: Vec<NameEntry> = Vec::new();
    let mut i: usize = 0;
    proof {
        assert(models_of(entries@) =~= Seq::<NameModel>::empty());
        prefixed_twice(
            Seq::<NameModel>::empty(),
            Seq::<NameModel>::empty(),
            names_from(reader.dialect, reader.data@, reader.position as int, count as nat),
        );
    }
    while i < count
        invariant
            reader::moved(*old(reader), *reader),
            i <= count,
            names_from(
                old(reader).dialect,
                old(reader).data@,
                old(reader).position as int,
                count as nat,
            ) == prefixed(
                models_of(entries@),
                names_from(
                    reader.dialect,
                    reader.data@,
                    reader.position as int,
                    (count - i) as nat,
                ),
            ),
        decreases count - i,
    {
        let ghost before = models_of(entries@);
        let name = reader.read_unreal_string()?;
        let flags: i32 = reader.read_i32()?;
        let ghost entry = NameModel { name: name@, flags };
        entries.push(NameEntry { name, flags });
        i = i + 1;
        proof {
            assert(models_of(entries@) =~= before + seq![entry]);
            prefixed_twice(
                before,
                seq![entry],
                names_from(
                    reader.dialect,
                    reader.data@,
                    reader.position as int,
                    (count - i) as nat,
                ),
            );
        }
    }
    assert(models_of(entries@) + Seq::<NameModel>::empty() =~= models_of(entries@));
    Ok(entries)
}

} // verus!
