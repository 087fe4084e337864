//! What the order of a sorted map's keys means for plain numbers.

use vstd::prelude::*;
use vstd::std_specs::btree::{axiom_increasing_seq_meaning, increasing_seq};
use vstd::std_specs::cmp::OrdSpec;

verus! {

/// Keys that a sorted map hands out in increasing order rise strictly.
pub proof fn lemma_rising_u32(keys: Seq<u32>)
    requires
        increasing_seq(keys),
    ensures
        forall|i: int, j: int| 0 <= i < j < keys.len() ==> keys[i] < keys[j],
{
    axiom_increasing_seq_meaning::<u32>(keys);
    assert forall|i: int, j: int| 0 <= i < j < keys.len() implies keys[i] < keys[j] by {
        assert(keys[i].cmp_spec(&keys[j]) is Less);
    }
}

/// Keys that a sorted map hands out in increasing order rise strictly.
pub proof fn lemma_rising_u128(keys: Seq<u128>)
    requires
        increasing_seq(keys),
    ensures
        forall|i: int, j: int| 0 <= i < j < keys.len() ==> keys[i] < keys[j],
{
    axiom_increasing_seq_meaning::<u128>(keys);
    assert forall|i: int, j: int| 0 <= i < j < keys.len() implies keys[i] < keys[j] by {
        assert(keys[i].cmp_spec(&keys[j]) is Less);
    }
}

/// Whether `list` rises strictly under `key`.
pub open spec fn rises<T>(list: Seq<T>, key: spec_fn(T) -> int) -> bool {
    forall|i: int, j: int| 0 <= i < j < list.len() ==> key(#[trigger] list[i]) < key(#[trigger] list[j])
}

/// Two rising lists agree up to any position at which the first one has an
/// item, if each holds every item of the other.
proof fn lemma_rising_agree<T>(a: Seq<T>, b: Seq<T>, key: spec_fn(T) -> int, i: int)
    requires
        rises(a, key),
        rises(b, key),
        forall|x: int| 0 <= x < a.len() ==> b.contains(#[trigger] a[x]),
        forall|x: int| 0 <= x < b.len() ==> a.contains(#[trigger] b[x]),
        0 <= i < a.len(),
    ensures
        i < b.len(),
        a[i] == b[i],
    decreases i,
{
    assert(b.contains(a[i]));
    let k = choose|k: int| 0 <= k < b.len() && b[k] == a[i];
    if k < i {
        lemma_rising_agree(a, b, key, k);
        assert(key(a[k]) < key(a[i]));
    } else if k > i {
        assert(a.contains(b[i]));
        let m = choose|m: int| 0 <= m < a.len() && a[m] == b[i];
        assert(key(b[i]) < key(b[k]));
        if m < i {
            lemma_rising_agree(a, b, key, m);
            assert(key(b[m]) < key(b[i]));
        } else if m > i {
            assert(key(a[i]) < key(a[m]));
        }
    }
}

/// Two lists that rise strictly under one key and hold the same items are
/// the same list.
pub proof fn lemma_rising_unique<T>(a: Seq<T>, b: Seq<T>, key: spec_fn(T) -> int)
    requires
        rises(a, key),
        rises(b, key),
        forall|x: int| 0 <= x < a.len() ==> b.contains(#[trigger] a[x]),
        forall|x: int| 0 <= x < b.len() ==> a.contains(#[trigger] b[x]),
    ensures
        a == b,
{
    if a.len() > 0 {
        lemma_rising_agree(a, b, key, a.len() - 1);
    }
    if b.len() > 0 {
        lemma_rising_agree(b, a, key, b.len() - 1);
    }
    assert forall|i: int| 0 <= i < a.len() implies a[i] == b[i] by {
        lemma_rising_agree(a, b, key, i);
    }
    assert(a =~= b);
}

} // verus!
