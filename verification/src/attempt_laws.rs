//! What holds of replacements that are tried one after the other: each that can be made is
//! made, a malformed image changes nothing, and every attempt is counted.

use vstd::prelude::*;
use crate::package::PackageModel;
use crate::reader::Dialect;
use crate::session::PreparedReplacementModel;
use crate::texture_engine::ReplacementModel;
use crate::imports;
use crate::package;
use crate::recovery_laws;
use crate::replacement_laws;
use crate::session;
use crate::table_laws;
use crate::texture_engine;

verus! {

/// The replacement that a prepared file asks for, if the file could be read and has a
/// format that can be stored.
pub open spec fn asked_of(one: PreparedReplacementModel) -> Option<ReplacementModel> {
    match one.result {
        Err(_) => None,
        Ok(texture) => match imports::request_of(texture) {
            Err(_) => None,
            Ok(request) => Some(ReplacementModel { index: one.index, request }),
        },
    }
}

/// Whether a prepared file can replace its texture.
pub open spec fn can_attempt(p: PackageModel, one: PreparedReplacementModel) -> bool {
    asked_of(one) matches Some(asked) && recovery_laws::can_replace(p, asked)
}

pub open spec fn attempted_indices(prepared: Seq<PreparedReplacementModel>) -> Seq<usize> {
    prepared.map_values(|one: PreparedReplacementModel| one.index)
}

/// Whether no two prepared files are about one texture, or about objects with a byte in
/// common.
pub open spec fn attempts_are_independent(
    p: PackageModel,
    prepared: Seq<PreparedReplacementModel>,
) -> bool {
    forall|i: int, j: int|
        0 <= i < prepared.len() && 0 <= j < prepared.len() && i != j ==> {
            let a = (#[trigger] prepared[i]).index;
            let b = (#[trigger] prepared[j]).index;
            &&& a != b
            &&& a < p.exports.len() && b < p.exports.len() ==> replacement_laws::stand_apart(
                p.exports[a as int],
                p.exports[b as int],
            )
        }
}

/// What became of one attempt: if it can be made, the texture holds its image and shows its
/// properties, and otherwise it is as it was.
pub open spec fn attempt_is_settled(
    p: PackageModel,
    q: PackageModel,
    one: PreparedReplacementModel,
) -> bool {
    &&& asked_of(one) matches Some(asked) ==> (recovery_laws::can_replace(p, asked)
        ==> recovery_laws::is_settled(p, q, asked))
    &&& !can_attempt(p, one) ==> recovery_laws::same_object(p, q, one.index as int)
}

/// How many of the first `n` prepared files can replace their textures.
pub open spec fn attempts_made(
    p: PackageModel,
    prepared: Seq<PreparedReplacementModel>,
    n: nat,
) -> nat
    decreases n,
{
    if n == 0 {
        0
    } else {
        attempts_made(p, prepared, (n - 1) as nat) + if can_attempt(p, prepared[n - 1]) {
            1nat
        } else {
            0
        }
    }
}

proof fn one_attempt(data: Seq<u8>, one: ReplacementModel)
    requires
        data.len() <= usize::MAX,
        package::package_of(Dialect::Engine, data) is Ok,
        recovery_laws::can_replace(package::package_of(Dialect::Engine, data)->Ok_0, one),
        table_laws::beside_tables(data, seq![one.index]),
    ensures
        ({
            let p = package::package_of(Dialect::Engine, data)->Ok_0;
            &&& texture_engine::replaced_one_in_file(data, one.index, one.request)
                matches Ok(written)
            &&& package::package_of(Dialect::Engine, written) matches Ok(q)
            &&& recovery_laws::only_changed(p, q, seq![one.index])
            &&& recovery_laws::is_settled(p, q, one)
        }),
{
    let p = package::package_of(Dialect::Engine, data)->Ok_0;
    let list = seq![one];
    assert(seq![ReplacementModel { index: one.index, request: one.request }] =~= list);
    assert(replacement_laws::targets_of(list) =~= seq![one.index]);
    table_laws::one_is_several(p, one.index, one.request);
    table_laws::written_replacement_is_read(data, one.index, one.request);
    replacement_laws::replacements_keep_the_rest(p, list);
    if replacement_laws::has_list(p, one.index as int) {
        replacement_laws::replaced_textures_hold_their_images(p, list, 0);
    }
}

/// Replacements that are tried one after the other: every attempt is counted, exactly those
/// are made that could be made alone, every texture that is replaced holds its image and
/// shows its properties, and everything else stays, also when the file is read again.
#[verifier::spinoff_prover]
#[verifier::rlimit(60)]
pub proof fn every_attempt_is_settled(
    d: Seq<u8>,
    prepared: Seq<PreparedReplacementModel>,
    n: nat,
)
    requires
        d.len() <= usize::MAX,
        n <= prepared.len() <= usize::MAX,
        package::package_of(Dialect::Engine, d) is Ok,
        attempts_are_independent(package::package_of(Dialect::Engine, d)->Ok_0, prepared),
        table_laws::beside_tables(d, attempted_indices(prepared)),
    ensures
        ({
            let p = package::package_of(Dialect::Engine, d)->Ok_0;
            let (data, summary) = session::with_attempts(d, prepared, n);
            &&& package::package_of(Dialect::Engine, data) matches Ok(q)
            &&& recovery_laws::only_changed(p, q, attempted_indices(prepared))
            &&& forall|i: int| 0 <= i < n ==> attempt_is_settled(p, q, #[trigger] prepared[i])
            &&& forall|i: int|
                n <= i < prepared.len() ==> recovery_laws::same_object(
                    p,
                    q,
                    (#[trigger] prepared[i]).index as int,
                )
            &&& summary.imported + summary.skipped + summary.failed == n
            &&& summary.imported == attempts_made(p, prepared, n)
        }),
    decreases n,
{
    let e = Dialect::Engine;
    let p = package::package_of(e, d)->Ok_0;
    let indices = attempted_indices(prepared);
    if n > 0 {
        let m = (n - 1) as nat;
        every_attempt_is_settled(d, prepared, m);
        let (before, summary) = session::with_attempts(d, prepared, m);
        let b = package::package_of(e, before)->Ok_0;
        let one = prepared[n - 1];
        assert(recovery_laws::same_object(p, b, one.index as int));
        if let Some(asked) = asked_of(one) {
            recovery_laws::replaced_alike(p, b, asked);
        }
        if can_attempt(p, one) {
            let asked = asked_of(one)->Some_0;
            attempts_stand_aside(d, p, before, b, prepared, n - 1);
            one_attempt(before, asked);
            let written = texture_engine::replaced_one_in_file(before, asked.index, asked.request)->Ok_0;
            let q = package::package_of(e, written)->Ok_0;
            one_attempt_more(p, b, q, prepared, n);
        }
    }
}

/// A texture that is replaced stands beside the tables, whatever was replaced before.
proof fn attempts_stand_aside(
    d: Seq<u8>,
    p: PackageModel,
    before: Seq<u8>,
    b: PackageModel,
    prepared: Seq<PreparedReplacementModel>,
    k: int,
)
    requires
        0 <= k < prepared.len(),
        package::package_of(Dialect::Engine, d) == Ok::<PackageModel, Seq<char>>(p),
        p.data == d,
        package::package_of(Dialect::Engine, before) == Ok::<PackageModel, Seq<char>>(b),
        b.data == before,
        table_laws::beside_tables(d, attempted_indices(prepared)),
        recovery_laws::only_changed(p, b, attempted_indices(prepared)),
    ensures
        table_laws::beside_tables(before, seq![prepared[k].index]),
{
    let indices = attempted_indices(prepared);
    assert forall|x: int| 0 <= x < d.len() && table_laws::in_tables(d, x)
        implies #[trigger] before[x]
        == d[x] by {
        assert(replacement_laws::in_none(p.exports, indices, x));
    }
    table_laws::tables_are_read_alike(d, before);
    let alone = seq![prepared[k].index];
    assert forall|x: int| 0 <= x < before.len()
        && #[trigger] table_laws::in_tables(before, x) implies replacement_laws::in_none(
        b.exports,
        alone,
        x,
    ) by {
        assert(table_laws::in_tables(d, x));
        assert(replacement_laws::in_none(p.exports, indices, x));
        assert(indices[k] == prepared[k].index);
        assert forall|i: int|
            0 <= i < alone.len() && (#[trigger] alone[i]) < b.exports.len()
                implies !replacement_laws::in_object(
            b.exports[alone[i] as int],
            x,
        ) by {
            assert(alone[i] == indices[k]);
        }
    }
}

/// One attempt more leaves what the others made.
proof fn one_attempt_more(
    p: PackageModel,
    b: PackageModel,
    q: PackageModel,
    prepared: Seq<PreparedReplacementModel>,
    n: nat,
)
    requires
        0 < n <= prepared.len(),
        p.data.len() <= usize::MAX,
        attempts_are_independent(p, prepared),
        recovery_laws::only_changed(p, b, attempted_indices(prepared)),
        can_attempt(p, prepared[n - 1]),
        recovery_laws::only_changed(b, q, seq![prepared[n - 1].index]),
        recovery_laws::is_settled(b, q, asked_of(prepared[n - 1])->Some_0),
        forall|i: int| 0 <= i < n - 1 ==> attempt_is_settled(p, b, #[trigger] prepared[i]),
        forall|i: int|
            n - 1 <= i < prepared.len() ==> recovery_laws::same_object(
                p,
                b,
                (#[trigger] prepared[i]).index as int,
            ),
    ensures
        recovery_laws::only_changed(p, q, attempted_indices(prepared)),
        forall|i: int| 0 <= i < n ==> attempt_is_settled(p, q, #[trigger] prepared[i]),
        forall|i: int|
            n <= i < prepared.len()
                ==> recovery_laws::same_object(p, q, (#[trigger] prepared[i]).index as int),
{
    let indices = attempted_indices(prepared);
    let last = prepared[n - 1];
    let alone = seq![last.index];
    assert forall|k: int|
        0 <= k < p.data.len() && replacement_laws::in_none(p.exports, indices, k)
            implies #[trigger] q.data[k]
        == p.data[k] by {
        assert(indices[n - 1] == last.index);
        assert(replacement_laws::in_none(b.exports, alone, k)) by {
            assert forall|i: int|
                0 <= i < alone.len() && (#[trigger] alone[i]) < b.exports.len()
                    implies !replacement_laws::in_object(
                b.exports[alone[i] as int],
                k,
            ) by {
                assert(alone[i] == indices[n - 1]);
            }
        }
        assert(b.data[k] == p.data[k]);
    }
    assert forall|i: int| 0 <= i < prepared.len() && i != n - 1 implies recovery_laws::same_object(
        b,
        q,
        (#[trigger] prepared[i]).index as int,
    ) by {
        let index = prepared[i].index as int;
        assert forall|j: int|
            0 <= j < alone.len() && (#[trigger] alone[j]) < b.exports.len() && index
                < b.exports.len() implies replacement_laws::stand_apart(
            b.exports[alone[j] as int],
            b.exports[index],
        ) by {
            assert(prepared[n - 1].index != prepared[i].index);
        }
        recovery_laws::apart_is_the_same(b, q, alone, index);
    }
    assert forall|i: int| 0 <= i < n implies attempt_is_settled(p, q, #[trigger] prepared[i]) by {
        if i < n - 1 {
            assert(attempt_is_settled(p, b, prepared[i]));
            assert(recovery_laws::same_object(b, q, prepared[i].index as int));
            if can_attempt(p, prepared[i]) {
                recovery_laws::settled_stays(p, b, q, asked_of(prepared[i])->Some_0);
            }
        } else {
            recovery_laws::settled_alike(p, b, q, asked_of(last)->Some_0);
        }
    }
}

} // verus!
