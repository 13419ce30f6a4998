//! Stable sorting of texts.

use vstd::prelude::*;
use crate::utf16;

verus! {

/// Whether a text stands before another: at the first place where they differ
/// it has the smaller character, or it ends.
pub open spec fn text_less(a: Seq<char>, b: Seq<char>) -> bool
    decreases a.len(),
{
    if b.len() == 0 {
        false
    } else if a.len() == 0 {
        true
    } else if a[0] == b[0] {
        text_less(a.skip(1), b.skip(1))
    } else {
        (a[0] as u32) < (b[0] as u32)
    }
}

/// Of two texts one stands before the other, unless they are equal; no text
/// stands before itself.
pub proof fn text_order_is_total(a: Seq<char>, b: Seq<char>)
    ensures
        !text_less(a, a),
        !(text_less(a, b) && text_less(b, a)),
        text_less(a, b) || text_less(b, a) || a == b,
    decreases a.len(),
{
    if a.len() == 0 {
        if b.len() == 0 {
            assert(a =~= b);
        }
    } else {
        utf16::char_range(a[0]);
        utf16::char_range(b[0]);
        text_order_is_total(a.skip(1), b.skip(1));
        if b.len() > 0 && a[0] == b[0] && a.skip(1) == b.skip(1) {
            assert forall|i: int| 0 <= i < a.len() && a.len() == b.len() implies a[i] == b[i] by {
                if i > 0 {
                    assert(a[i] == a.skip(1)[i - 1]);
                    assert(b[i] == b.skip(1)[i - 1]);
                }
            }
            assert(a.len() == a.skip(1).len() + 1);
            assert(b.len() == b.skip(1).len() + 1);
            assert(a =~= b);
        }
    }
}

/// A text before a second that is before a third is before the third.
pub proof fn text_order_is_transitive(a: Seq<char>, b: Seq<char>, c: Seq<char>)
    requires
        text_less(a, b),
        text_less(b, c),
    ensures
        text_less(a, c),
    decreases a.len(),
{
    if a.len() > 0 && a[0] == b[0] && b[0] == c[0] {
        text_order_is_transitive(a.skip(1), b.skip(1), c.skip(1));
    }
}

pub fn is_less(a: &[char], b: &[char]) -> (r: bool)
    ensures
        r == text_less(a@, b@),
{
    let mut i: usize = 0;
    assert(a@.skip(0) =~= a@);
    assert(b@.skip(0) =~= b@);
    while i < a.len() && i < b.len()
        invariant
            i <= a@.len(),
            i <= b@.len(),
            text_less(a@, b@) == text_less(a@.skip(i as int), b@.skip(i as int)),
        decreases a.len() - i,
    {
        assert(a@.skip(i as int).skip(1) =~= a@.skip(i + 1));
        assert(b@.skip(i as int).skip(1) =~= b@.skip(i + 1));
        if a[i] != b[i] {
            return (a[i] as u32) < (b[i] as u32);
        }
        i = i + 1;
    }
    i < b.len()
}

/// Whether two keys may stand in this order: the first is not larger, and of
/// equal ones the one with the smaller place comes first.
pub open spec fn in_order(keys: Seq<Seq<char>>, i: usize, j: usize) -> bool {
    &&& !text_less(keys[j as int], keys[i as int])
    &&& keys[i as int] == keys[j as int] ==> i < j
}

/// Whether `order` lists the places of all keys, each once, by ascending key and
/// equal keys as they came.
pub open spec fn sorted_order(keys: Seq<Seq<char>>, order: Seq<usize>) -> bool {
    &&& order.len() == keys.len()
    &&& order.no_duplicates()
    &&& forall|i: int| 0 <= i < order.len() ==> (#[trigger] order[i]) < keys.len()
    &&& forall|i: int, j: int|
        0 <= i < j < order.len() ==> in_order(keys, #[trigger] order[i], #[trigger] order[j])
}

pub open spec fn views(keys: Seq<Vec<char>>) -> Seq<Seq<char>> {
    Seq::new(keys.len(), |i: int| keys[i]@)
}

proof fn in_order_is_transitive(keys: Seq<Seq<char>>, a: usize, b: usize, c: usize)
    requires
        in_order(keys, a, b),
        in_order(keys, b, c),
    ensures
        in_order(keys, a, c),
{
    let ka = keys[a as int];
    let kb = keys[b as int];
    let kc = keys[c as int];
    text_order_is_total(ka, kb);
    text_order_is_total(kb, kc);
    text_order_is_total(ka, kc);
    if text_less(kc, ka) {
        if text_less(ka, kb) {
            text_order_is_transitive(kc, ka, kb);
        }
    }
    if ka == kc && text_less(ka, kb) && text_less(kb, kc) {
        text_order_is_transitive(ka, kb, kc);
    }
}

/// The place behind all keys that are not larger than the key at `n`.
fn place_for(keys: &Vec<Vec<char>>, order: &Vec<usize>, n: usize) -> (r: usize)
    requires
        n < keys@.len(),
        order@.len() == n,
        forall|i: int| 0 <= i < n ==> (#[trigger] order@[i]) < n,
        forall|i: int, j: int|
            0 <= i < j < n ==> in_order(
                views(keys@),
                #[trigger] order@[i],
                #[trigger] order@[j],
            ),
    ensures
        r <= n,
        forall|i: int| 0 <= i < r ==> in_order(views(keys@), #[trigger] order@[i], n),
        forall|i: int| r <= i < n ==> in_order(views(keys@), n, #[trigger] order@[i]),
{
    let ghost all = views(keys@);
    let mut low: usize = 0;
    let mut high: usize = n;
    while low < high
        invariant
            low <= high <= n,
            n < keys@.len(),
            all == views(keys@),
            order@.len() == n,
            forall|i: int| 0 <= i < n ==> (#[trigger] order@[i]) < n,
            forall|i: int, j: int|
                0 <= i < j < n ==> in_order(all, #[trigger] order@[i], #[trigger] order@[j]),
            forall|i: int| 0 <= i < low ==> in_order(all, #[trigger] order@[i], n),
            forall|i: int| high <= i < n ==> in_order(all, n, #[trigger] order@[i]),
        decreases high - low,
    {
        let middle: usize = low + (high - low) / 2;
        let other: usize = order[middle];
        proof {
            text_order_is_total(all[n as int], all[other as int]);
            assert(all[n as int] == keys@[n as int]@);
            assert(all[other as int] == keys@[other as int]@);
        }
        if is_less(keys[n].as_slice(), keys[other].as_slice()) {
            proof {
                assert forall|i: int| middle <= i < n implies in_order(
                    all,
                    n,
                    #[trigger] order@[i],
                ) by {
                    if i > middle {
                        in_order_is_transitive(all, n, other, order@[i]);
                    }
                }
            }
            high = middle;
        } else {
            proof {
                assert forall|i: int| 0 <= i < middle + 1 implies in_order(
                    all,
                    #[trigger] order@[i],
                    n,
                ) by {
                    if i < middle {
                        in_order_is_transitive(all, order@[i], other, n);
                    }
                }
            }
            low = middle + 1;
        }
    }
    low
}

/// The places of the keys by ascending key, equal keys as they came.
pub fn sort_order(keys: &Vec<Vec<char>>) -> (r: Vec<usize>)
    ensures
        sorted_order(views(keys@), r@),
{
    let mut order: Vec<usize> = Vec::new();
    let mut n: usize = 0;
    let ghost all = views(keys@);
    while n < keys.len()
        invariant
            n <= keys@.len(),
            all == views(keys@),
            order@.len() == n,
            order@.no_duplicates(),
            forall|i: int| 0 <= i < n ==> (#[trigger] order@[i]) < n,
            forall|i: int, j: int|
                0 <= i < j < n ==> in_order(all, #[trigger] order@[i], #[trigger] order@[j]),
        decreases keys.len() - n,
    {
        let at: usize = place_for(keys, &order, n);
        let ghost before = order@;
        order.insert(at, n);
        proof {
            assert(order@ == before.insert(at as int, n));
            assert forall|i: int| 0 <= i < n + 1 implies (#[trigger] order@[i]) < n + 1 by {
                if i < at {
                    assert(order@[i] == before[i]);
                } else if i > at {
                    assert(order@[i] == before[i - 1]);
                }
            }
            assert forall|i: int, j: int| 0 <= i < j < n + 1 implies in_order(
                all,
                #[trigger] order@[i],
                #[trigger] order@[j],
            ) by {
                if i < at {
                    assert(order@[i] == before[i]);
                } else if i > at {
                    assert(order@[i] == before[i - 1]);
                }
                if j < at {
                    assert(order@[j] == before[j]);
                } else if j > at {
                    assert(order@[j] == before[j - 1]);
                }
            }
            assert forall|i: int, j: int|
                0 <= i < n + 1 && 0 <= j < n + 1 && i != j implies order@[i] != order@[j] by {
                if i < at {
                    assert(order@[i] == before[i]);
                } else if i > at {
                    assert(order@[i] == before[i - 1]);
                }
                if j < at {
                    assert(order@[j] == before[j]);
                } else if j > at {
                    assert(order@[j] == before[j - 1]);
                }
            }
        }
        n = n + 1;
    }
    order
}

/// There is one such order at most.
pub proof fn sorted_order_is_unique(keys: Seq<Seq<char>>, a: Seq<usize>, b: Seq<usize>)
    requires
        keys.len() <= usize::MAX,
        sorted_order(keys, a),
        sorted_order(keys, b),
    ensures
        a == b,
{
    assert forall|i: int| 0 <= i < a.len() implies a[i] == b[i] by {
        sorted_prefix_is_unique(keys, a, b, i);
    }
    assert(a =~= b);
}

proof fn sorted_prefix_is_unique(keys: Seq<Seq<char>>, a: Seq<usize>, b: Seq<usize>, i: int)
    requires
        keys.len() <= usize::MAX,
        sorted_order(keys, a),
        sorted_order(keys, b),
        0 <= i < a.len(),
    ensures
        a[i] == b[i],
    decreases i,
{
    if a[i] != b[i] {
        place_in_permutation(b, a[i], keys.len() as int);
        place_in_permutation(a, b[i], keys.len() as int);
        let j = choose|j: int| 0 <= j < b.len() && b[j] == a[i];
        let k = choose|k: int| 0 <= k < a.len() && a[k] == b[i];
        if j < i {
            sorted_prefix_is_unique(keys, a, b, j);
        }
        if k < i {
            sorted_prefix_is_unique(keys, a, b, k);
        }
        assert(j > i && k > i);
        assert(in_order(keys, b[i], b[j]));
        assert(in_order(keys, a[i], a[k]));
        text_order_is_total(keys[a[i] as int], keys[b[i] as int]);
    }
}

/// A list of `n` distinct numbers below `n` holds each of them.
proof fn place_in_permutation(s: Seq<usize>, v: usize, n: int)
    requires
        s.len() == n,
        n <= usize::MAX,
        s.no_duplicates(),
        forall|i: int| 0 <= i < s.len() ==> (#[trigger] s[i]) < n,
        v < n,
    ensures
        exists|j: int| 0 <= j < s.len() && s[j] == v,
{
    if !exists|j: int| 0 <= j < s.len() && s[j] == v {
        let all = Set::new(|k: usize| k < n && k != v);
        small_set(n as nat, v);
        s.unique_seq_to_set();
        assert(s.to_set().subset_of(all)) by {
            assert forall|k: usize| s.to_set().contains(k) implies all.contains(k) by {
                let j = choose|j: int| 0 <= j < s.len() && s[j] == k;
                assert(s[j] < n);
            }
        }
        vstd::set_lib::lemma_len_subset(s.to_set(), all);
    }
}

proof fn small_set(n: nat, v: usize)
    requires
        v < n,
        n <= usize::MAX + 1,
    ensures
        Set::new(|k: usize| k < n && k != v).finite(),
        Set::new(|k: usize| k < n && k != v).len() == n - 1,
{
    below(n);
    let all = Set::new(|k: usize| k < n);
    assert(all.remove(v) =~= Set::new(|k: usize| k < n && k != v));
}

proof fn below(n: nat)
    requires
        n <= usize::MAX + 1,
    ensures
        Set::new(|k: usize| k < n).finite(),
        Set::new(|k: usize| k < n).len() == n,
    decreases n,
{
    if n == 0 {
        assert(Set::new(|k: usize| k < n) =~= Set::<usize>::empty());
    } else {
        below((n - 1) as nat);
        let m = (n - 1) as usize;
        assert(Set::new(|k: usize| k < n) =~= Set::new(|k: usize| k < n - 1).insert(m));
    }
}

} // verus!
