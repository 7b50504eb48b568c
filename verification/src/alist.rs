//! Key-value sequences used as small association lists: a first-match lookup
//! function and the lemmas the ledger proofs need about it.

use vstd::prelude::*;

verus! {

/// Index of the first pair whose key is `k`, or a negative value if none.
pub open spec fn find_key<K, V>(s: Seq<(K, V)>, k: K) -> int
    decreases s.len(),
{
    if s.len() == 0 {
        -1
    } else if s[0].0 == k {
        0
    } else {
        let r = find_key(s.skip(1), k);
        if r < 0 {
            -1
        } else {
            r + 1
        }
    }
}

/// Whether some pair carries the key `k`.
pub open spec fn has_key<K, V>(s: Seq<(K, V)>, k: K) -> bool {
    find_key(s, k) >= 0
}

/// The value stored under `k`, or `dflt` when the key is absent.
pub open spec fn value_of<K, V>(s: Seq<(K, V)>, k: K, dflt: V) -> V {
    if has_key(s, k) {
        s[find_key(s, k)].1
    } else {
        dflt
    }
}

/// No two pairs carry the same key.
pub open spec fn uniq_keys<K, V>(s: Seq<(K, V)>) -> bool {
    forall|i: int, j: int| 0 <= i < j < s.len() ==> s[i].0 != s[j].0
}

/// `find_key` stays in range, lands on the key it was asked for, and fails
/// only when the key is nowhere in the sequence.
pub proof fn lemma_find_key_props<K, V>(s: Seq<(K, V)>, k: K)
    ensures
        -1 <= find_key(s, k) < s.len(),
        find_key(s, k) >= 0 ==> s[find_key(s, k)].0 == k,
        find_key(s, k) == -1 ==> forall|i: int| 0 <= i < s.len() ==> s[i].0 != k,
    decreases s.len(),
{
    if s.len() > 0 && s[0].0 != k {
        lemma_find_key_props(s.skip(1), k);
        let r = find_key(s.skip(1), k);
        if r >= 0 {
            assert(s.skip(1)[r] == s[r + 1]);
        } else {
            assert forall|i: int| 0 <= i < s.len() implies s[i].0 != k by {
                if i >= 1 {
                    assert(s.skip(1)[i - 1] == s[i]);
                }
            }
        }
    }
}

/// `find_key` returns exactly the first index that carries the key.
pub proof fn lemma_find_key_is_first<K, V>(s: Seq<(K, V)>, k: K, i: int)
    requires
        0 <= i < s.len(),
        s[i].0 == k,
        forall|j: int| 0 <= j < i ==> s[j].0 != k,
    ensures
        find_key(s, k) == i,
    decreases s.len(),
{
    if i > 0 {
        lemma_find_key_is_first(s.skip(1), k, i - 1);
    }
}

/// Under unique keys, any index that carries the key is the one found.
pub proof fn lemma_find_key_unique<K, V>(s: Seq<(K, V)>, k: K, i: int)
    requires
        uniq_keys(s),
        0 <= i < s.len(),
        s[i].0 == k,
    ensures
        find_key(s, k) == i,
{
    assert(forall|j: int| 0 <= j < i ==> s[j].0 != k);
    lemma_find_key_is_first(s, k, i);
}

/// Replacing a pair with one under the same key moves no lookup.
pub proof fn lemma_find_key_update<K, V>(s: Seq<(K, V)>, i: int, x: (K, V), k: K)
    requires
        0 <= i < s.len(),
        s[i].0 == x.0,
    ensures
        find_key(s.update(i, x), k) == find_key(s, k),
    decreases s.len(),
{
    if i == 0 {
        assert(s.update(0, x).skip(1) =~= s.skip(1));
    } else {
        assert(s.update(i, x).skip(1) =~= s.skip(1).update(i - 1, x));
        lemma_find_key_update(s.skip(1), i - 1, x, k);
    }
}

/// Appending a pair leaves present keys where they were and makes the new
/// key findable at the end.
pub proof fn lemma_find_key_push<K, V>(s: Seq<(K, V)>, x: (K, V), k: K)
    ensures
        find_key(s.push(x), k) == if find_key(s, k) >= 0 {
            find_key(s, k)
        } else if x.0 == k {
            s.len() as int
        } else {
            -1
        },
    decreases s.len(),
{
    if s.len() == 0 {
        assert(s.push(x)[0] == x);
        assert(s.push(x).skip(1) =~= Seq::<(K, V)>::empty());
        assert(find_key(s.push(x).skip(1), k) == -1);
        if x.0 == k {
            assert(find_key(s.push(x), k) == 0);
        } else {
            assert(find_key(s.push(x), k) == -1);
        }
    } else {
        assert(s.push(x)[0] == s[0]);
        assert(s.push(x).skip(1) =~= s.skip(1).push(x));
        lemma_find_key_push(s.skip(1), x, k);
        assert(find_key(s.push(x).skip(1), k) == find_key(s.skip(1).push(x), k));
    }
}

/// Replacing the pair at `i` with one under the same key moves no lookup and
/// keeps keys unique.
pub proof fn lemma_alist_update<K, V>(s: Seq<(K, V)>, i: int, x: (K, V))
    requires
        0 <= i < s.len(),
        s[i].0 == x.0,
        uniq_keys(s),
    ensures
        uniq_keys(s.update(i, x)),
        find_key(s, x.0) == i,
        forall|k: K| #[trigger] find_key(s.update(i, x), k) == find_key(s, k),
{
    lemma_find_key_unique(s, x.0, i);
    assert forall|k: K| #[trigger] find_key(s.update(i, x), k) == find_key(s, k) by {
        lemma_find_key_update(s, i, x, k);
    }
    assert forall|p: int, q: int| 0 <= p < q < s.update(i, x).len() implies s.update(
        i,
        x,
    )[p].0 != s.update(i, x)[q].0 by {
        assert(s.update(i, x)[p].0 == s[p].0);
        assert(s.update(i, x)[q].0 == s[q].0);
    }
}

/// Appending a pair under a fresh key moves no lookup, makes the key found at
/// the end, and keeps keys unique.
pub proof fn lemma_alist_push<K, V>(s: Seq<(K, V)>, x: (K, V))
    requires
        uniq_keys(s),
        !has_key(s, x.0),
    ensures
        uniq_keys(s.push(x)),
        find_key(s.push(x), x.0) == s.len(),
        forall|k: K| k != x.0 ==> #[trigger] find_key(s.push(x), k) == find_key(s, k),
{
    lemma_find_key_props(s, x.0);
    assert forall|k: K| k != x.0 implies #[trigger] find_key(s.push(x), k) == find_key(s, k) by {
        lemma_find_key_push(s, x, k);
    }
    lemma_find_key_push(s, x, x.0);
    assert forall|p: int, q: int| 0 <= p < q < s.push(x).len() implies s.push(x)[p].0 != s.push(
        x,
    )[q].0 by {
        if q < s.len() {
        } else {
            assert(s.push(x)[q] == x);
            lemma_find_key_is_first(s, s[p].0, p);
        }
    }
}

/// Lookups agree on two sequences that carry the same keys in the same
/// places, whatever their values.
pub proof fn lemma_find_key_same_keys<K, V>(s1: Seq<(K, V)>, s2: Seq<(K, V)>, k: K)
    requires
        s1.len() == s2.len(),
        forall|j: int| 0 <= j < s1.len() ==> s1[j].0 == s2[j].0,
    ensures
        find_key(s1, k) == find_key(s2, k),
    decreases s1.len(),
{
    if s1.len() > 0 {
        assert(s1[0].0 == s2[0].0);
        assert forall|j: int| 0 <= j < s1.skip(1).len() implies s1.skip(1)[j].0 == s2.skip(
            1,
        )[j].0 by {
            assert(s1.skip(1)[j] == s1[j + 1]);
            assert(s2.skip(1)[j] == s2[j + 1]);
        }
        lemma_find_key_same_keys(s1.skip(1), s2.skip(1), k);
    }
}

} // verus!
