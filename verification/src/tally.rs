//! Tallies: strictly ordered lists of distinct keys, each with the number of
//! times it was seen. The report's traffic cube and the per-client time
//! buckets are tallies.

use vstd::prelude::*;

verus! {

/// `less` is a strict total order on `K`.
pub open spec fn is_strict_total_order<K>(less: spec_fn(K, K) -> bool) -> bool {
    &&& forall|a: K| !(#[trigger] less(a, a))
    &&& forall|a: K, b: K, c: K|
        #![trigger less(a, b), less(b, c)]
        less(a, b) && less(b, c) ==> less(a, c)
    &&& forall|a: K, b: K| #![trigger less(a, b)] a != b ==> less(a, b) || less(b, a)
}

/// The keys of `s` ascend strictly.
pub open spec fn tally_sorted<K>(s: Seq<(K, nat)>, less: spec_fn(K, K) -> bool) -> bool {
    forall|i: int, j: int| #![trigger s[i], s[j]] 0 <= i < j < s.len() ==> less(s[i].0, s[j].0)
}

/// Every key of `s` was seen at least once.
pub open spec fn tally_positive<K>(s: Seq<(K, nat)>) -> bool {
    forall|i: int| 0 <= i < s.len() ==> (#[trigger] s[i]).1 >= 1
}

/// The tally `s` after one more sighting of `k`.
pub open spec fn tally_insert<K>(s: Seq<(K, nat)>, k: K, less: spec_fn(K, K) -> bool) -> Seq<
    (K, nat),
>
    decreases s.len(),
{
    if s.len() == 0 {
        seq![(k, 1nat)]
    } else if s[0].0 == k {
        seq![(k, s[0].1 + 1)] + s.drop_first()
    } else if less(k, s[0].0) {
        seq![(k, 1nat)] + s
    } else {
        seq![s[0]] + tally_insert(s.drop_first(), k, less)
    }
}

/// The tally of the sightings `keys`, in order.
pub open spec fn tally_of<K>(keys: Seq<K>, less: spec_fn(K, K) -> bool) -> Seq<(K, nat)>
    decreases keys.len(),
{
    if keys.len() == 0 {
        Seq::empty()
    } else {
        tally_insert(tally_of(keys.drop_last(), less), keys.last(), less)
    }
}

/// How many times `k` occurs in `keys`.
pub open spec fn occurrences<K>(keys: Seq<K>, k: K) -> nat
    decreases keys.len(),
{
    if keys.len() == 0 {
        0
    } else {
        occurrences(keys.drop_last(), k) + if keys.last() == k {
            1nat
        } else {
            0nat
        }
    }
}

/// The count that `s` records for `k` (zero where `k` is absent).
pub open spec fn tally_count<K>(s: Seq<(K, nat)>, k: K) -> nat
    decreases s.len(),
{
    if s.len() == 0 {
        0
    } else {
        (if s[0].0 == k {
            s[0].1
        } else {
            0nat
        }) + tally_count(s.drop_first(), k)
    }
}

/// The sum of all counts of `s`.
pub open spec fn tally_sum<K>(s: Seq<(K, nat)>) -> nat
    decreases s.len(),
{
    if s.len() == 0 {
        0
    } else {
        s[0].1 + tally_sum(s.drop_first())
    }
}

proof fn lemma_order_facts<K>(less: spec_fn(K, K) -> bool, a: K, b: K)
    requires
        is_strict_total_order(less),
    ensures
        less(a, b) ==> !less(b, a) && a != b,
        a != b && !less(a, b) ==> less(b, a),
{
    if less(a, b) && less(b, a) {
        assert(less(a, a));
    }
}

/// Inserting keeps a tally sorted and positive, and its first key is `k` or
/// the old first key.
pub proof fn lemma_insert_sorted<K>(s: Seq<(K, nat)>, k: K, less: spec_fn(K, K) -> bool)
    requires
        is_strict_total_order(less),
        tally_sorted(s, less),
        tally_positive(s),
    ensures
        tally_sorted(tally_insert(s, k, less), less),
        tally_positive(tally_insert(s, k, less)),
        tally_insert(s, k, less).len() >= 1,
        tally_insert(s, k, less)[0].0 == k || (s.len() > 0 && tally_insert(s, k, less)[0].0
            == s[0].0),
    decreases s.len(),
{
    let r = tally_insert(s, k, less);
    if s.len() == 0 {
    } else if s[0].0 == k {
        assert(tally_sorted(r, less)) by {
            assert forall|i: int, j: int| 0 <= i < j < r.len() implies less(r[i].0, r[j].0) by {
                assert(r[i].0 == s[i].0);
                assert(r[j].0 == s[j].0);
            }
        }
    } else if less(k, s[0].0) {
        assert(tally_sorted(r, less)) by {
            assert forall|i: int, j: int| 0 <= i < j < r.len() implies less(r[i].0, r[j].0) by {
                if i == 0 {
                    assert(r[j].0 == s[j - 1].0);
                    if j - 1 > 0 {
                        assert(less(s[0].0, s[j - 1].0));
                    }
                } else {
                    assert(r[i].0 == s[i - 1].0);
                    assert(r[j].0 == s[j - 1].0);
                }
            }
        }
    } else {
        let rest = s.drop_first();
        lemma_insert_sorted(rest, k, less);
        lemma_order_facts(less, k, s[0].0);
        let t = tally_insert(rest, k, less);
        assert(r == seq![s[0]] + t);
        assert(less(s[0].0, t[0].0)) by {
            if t[0].0 != k {
                assert(t[0].0 == rest[0].0);
                assert(rest[0] == s[1]);
            }
        }
        assert(tally_sorted(r, less)) by {
            assert forall|i: int, j: int| 0 <= i < j < r.len() implies less(r[i].0, r[j].0) by {
                if i == 0 {
                    assert(r[j] == t[j - 1]);
                    if j - 1 > 0 {
                        assert(less(t[0].0, t[j - 1].0));
                    }
                } else {
                    assert(r[i] == t[i - 1]);
                    assert(r[j] == t[j - 1]);
                }
            }
        }
        assert(tally_positive(r)) by {
            assert forall|i: int| 0 <= i < r.len() implies (#[trigger] r[i]).1 >= 1 by {
                if i > 0 {
                    assert(r[i] == t[i - 1]);
                }
            }
        }
    }
}

/// One more sighting of `k` raises the count of `k` by one and leaves the
/// other counts as they were.
pub proof fn lemma_insert_count<K>(s: Seq<(K, nat)>, k: K, less: spec_fn(K, K) -> bool, j: K)
    ensures
        tally_count(tally_insert(s, k, less), j) == tally_count(s, j) + if j == k {
            1nat
        } else {
            0nat
        },
    decreases s.len(),
{
    let r = tally_insert(s, k, less);
    if s.len() == 0 {
        assert(r.drop_first() =~= Seq::<(K, nat)>::empty());
        assert(tally_count(r.drop_first(), j) == 0);
    } else if s[0].0 == k {
        assert(r.drop_first() =~= s.drop_first());
        assert(r[0] == (k, s[0].1 + 1));
    } else if less(k, s[0].0) {
        assert(r.drop_first() =~= s);
        assert(r[0] == (k, 1nat));
    } else {
        lemma_insert_count(s.drop_first(), k, less, j);
        assert(r.drop_first() =~= tally_insert(s.drop_first(), k, less));
        assert(r[0] == s[0]);
    }
}

/// One more sighting raises the sum of the counts by one.
pub proof fn lemma_insert_sum<K>(s: Seq<(K, nat)>, k: K, less: spec_fn(K, K) -> bool)
    ensures
        tally_sum(tally_insert(s, k, less)) == tally_sum(s) + 1,
    decreases s.len(),
{
    let r = tally_insert(s, k, less);
    if s.len() == 0 {
        assert(r.drop_first() =~= Seq::<(K, nat)>::empty());
        assert(tally_sum(r.drop_first()) == 0);
    } else if s[0].0 == k {
        assert(r.drop_first() =~= s.drop_first());
        assert(r[0] == (k, s[0].1 + 1));
    } else if less(k, s[0].0) {
        assert(r.drop_first() =~= s);
        assert(r[0] == (k, 1nat));
    } else {
        lemma_insert_sum(s.drop_first(), k, less);
        assert(r.drop_first() =~= tally_insert(s.drop_first(), k, less));
        assert(r[0] == s[0]);
    }
}

/// Every count of a tally is at most the sum of its counts.
pub proof fn lemma_count_le_sum<K>(s: Seq<(K, nat)>, i: int)
    requires
        0 <= i < s.len(),
    ensures
        s[i].1 <= tally_sum(s),
    decreases s.len(),
{
    if i > 0 {
        lemma_count_le_sum(s.drop_first(), i - 1);
    }
}

/// Where the keys before `i` are below `k` and the key at `i` is not, the
/// insertion of `k` raises the count at `i` or puts `k` at `i`.
pub proof fn lemma_insert_at<K>(s: Seq<(K, nat)>, k: K, less: spec_fn(K, K) -> bool, i: int)
    requires
        is_strict_total_order(less),
        0 <= i <= s.len(),
        forall|j: int| 0 <= j < i ==> less(#[trigger] s[j].0, k),
        i < s.len() ==> !less(s[i].0, k),
    ensures
        tally_insert(s, k, less) == if i < s.len() && s[i].0 == k {
            s.take(i) + seq![(k, s[i].1 + 1)] + s.skip(i + 1)
        } else {
            s.take(i) + seq![(k, 1nat)] + s.skip(i)
        },
    decreases i,
{
    if i == 0 {
        if s.len() > 0 {
            lemma_order_facts(less, s[0].0, k);
        }
        if s.len() > 0 && s[0].0 == k {
            assert(s.take(0) + seq![(k, s[0].1 + 1)] + s.skip(1) =~= seq![(k, s[0].1 + 1)]
                + s.drop_first());
        } else {
            assert(s.take(0) + seq![(k, 1nat)] + s.skip(0) =~= seq![(k, 1nat)] + s);
        }
    } else {
        let rest = s.drop_first();
        lemma_order_facts(less, s[0].0, k);
        assert(less(s[0].0, k));
        assert forall|j: int| 0 <= j < i - 1 implies less(#[trigger] rest[j].0, k) by {
            assert(rest[j] == s[j + 1]);
        }
        lemma_insert_at(rest, k, less, i - 1);
        if i < s.len() && s[i].0 == k {
            assert(seq![s[0]] + (rest.take(i - 1) + seq![(k, s[i].1 + 1)] + rest.skip(i)) =~= s.take(
                i,
            ) + seq![(k, s[i].1 + 1)] + s.skip(i + 1));
        } else {
            assert(seq![s[0]] + (rest.take(i - 1) + seq![(k, 1nat)] + rest.skip(i - 1)) =~= s.take(
                i,
            ) + seq![(k, 1nat)] + s.skip(i));
        }
    }
}

/// The tally of a list of sightings is sorted and positive, counts each key
/// as often as it occurs, and its counts add up to the number of sightings.
pub proof fn lemma_tally_of<K>(keys: Seq<K>, less: spec_fn(K, K) -> bool)
    requires
        is_strict_total_order(less),
    ensures
        tally_sorted(tally_of(keys, less), less),
        tally_positive(tally_of(keys, less)),
        tally_sum(tally_of(keys, less)) == keys.len(),
        forall|k: K| #[trigger] tally_count(tally_of(keys, less), k) == occurrences(keys, k),
    decreases keys.len(),
{
    if keys.len() > 0 {
        let prev = tally_of(keys.drop_last(), less);
        lemma_tally_of(keys.drop_last(), less);
        lemma_insert_sorted(prev, keys.last(), less);
        lemma_insert_sum(prev, keys.last(), less);
        assert forall|k: K| #[trigger]
            tally_count(tally_of(keys, less), k) == occurrences(keys, k) by {
            lemma_insert_count(prev, keys.last(), less, k);
        }
    }
}

/// In a sorted tally, the keys up to one below `k` are all below `k`.
pub proof fn lemma_search_below<K>(s: Seq<(K, nat)>, k: K, less: spec_fn(K, K) -> bool, lo: int, mid: int)
    requires
        is_strict_total_order(less),
        tally_sorted(s, less),
        0 <= lo <= mid < s.len(),
        forall|j: int| 0 <= j < lo ==> less(#[trigger] s[j].0, k),
        less(s[mid].0, k),
    ensures
        forall|j: int| 0 <= j <= mid ==> less(#[trigger] s[j].0, k),
{
    assert forall|j: int| 0 <= j <= mid implies less(#[trigger] s[j].0, k) by {
        if lo <= j < mid {
            assert(less(s[j].0, s[mid].0));
        }
    }
}

/// In a sorted tally, the keys from one that is not below `k` on are none
/// below `k`.
pub proof fn lemma_search_above<K>(s: Seq<(K, nat)>, k: K, less: spec_fn(K, K) -> bool, mid: int, hi: int)
    requires
        is_strict_total_order(less),
        tally_sorted(s, less),
        0 <= mid < hi <= s.len(),
        forall|j: int| hi <= j < s.len() ==> !less(#[trigger] s[j].0, k),
        !less(s[mid].0, k),
    ensures
        forall|j: int| mid <= j < s.len() ==> !less(#[trigger] s[j].0, k),
{
    assert forall|j: int| mid <= j < s.len() implies !less(#[trigger] s[j].0, k) by {
        if mid < j < hi {
            assert(less(s[mid].0, s[j].0));
            if less(s[j].0, k) {
                assert(less(s[mid].0, k));
            }
        }
    }
}

/// The elements of `s` ascend strictly by `key`.
pub open spec fn sorted_by_key<T, K>(
    s: Seq<T>,
    key: spec_fn(T) -> K,
    less: spec_fn(K, K) -> bool,
) -> bool {
    forall|i: int, j: int| #![trigger s[i], s[j]] 0 <= i < j < s.len() ==> less(key(s[i]), key(s[j]))
}

/// Two lists that ascend strictly by a key and hold the same elements are
/// the same list.
pub proof fn lemma_sorted_unique<T, K>(
    a: Seq<T>,
    b: Seq<T>,
    key: spec_fn(T) -> K,
    less: spec_fn(K, K) -> bool,
)
    requires
        is_strict_total_order(less),
        sorted_by_key(a, key, less),
        sorted_by_key(b, key, less),
        forall|x: T| a.contains(x) <==> b.contains(x),
    ensures
        a == b,
    decreases a.len(),
{
    if a.len() == 0 {
        if b.len() > 0 {
            assert(b.contains(b[0]));
        }
        assert(a =~= b);
    } else if b.len() == 0 {
        assert(a.contains(a[0]));
    } else {
        assert(a.contains(a[0]));
        assert(b.contains(b[0]));
        let j = choose|j: int| 0 <= j < b.len() && b[j] == a[0];
        let i = choose|i: int| 0 <= i < a.len() && a[i] == b[0];
        if a[0] != b[0] {
            assert(less(key(b[0]), key(b[j])));
            assert(less(key(a[0]), key(a[i])));
            assert(less(key(a[0]), key(a[0])));
        }
        let da = a.drop_first();
        let db = b.drop_first();
        assert forall|i: int, j: int| #![trigger da[i], da[j]] 0 <= i < j < da.len() implies less(
            key(da[i]),
            key(da[j]),
        ) by {
            assert(da[i] == a[i + 1] && da[j] == a[j + 1]);
        }
        assert forall|i: int, j: int| #![trigger db[i], db[j]] 0 <= i < j < db.len() implies less(
            key(db[i]),
            key(db[j]),
        ) by {
            assert(db[i] == b[i + 1] && db[j] == b[j + 1]);
        }
        assert forall|x: T| da.contains(x) <==> db.contains(x) by {
            if da.contains(x) {
                let m = choose|m: int| 0 <= m < da.len() && da[m] == x;
                assert(a[m + 1] == x);
                assert(less(key(a[0]), key(a[m + 1])));
                assert(a.contains(x));
                let n = choose|n: int| 0 <= n < b.len() && b[n] == x;
                if n == 0 {
                    assert(less(key(x), key(x)));
                }
                assert(db[n - 1] == x);
            }
            if db.contains(x) {
                let m = choose|m: int| 0 <= m < db.len() && db[m] == x;
                assert(b[m + 1] == x);
                assert(less(key(b[0]), key(b[m + 1])));
                assert(b.contains(x));
                let n = choose|n: int| 0 <= n < a.len() && a[n] == x;
                if n == 0 {
                    assert(less(key(x), key(x)));
                }
                assert(da[n - 1] == x);
            }
        }
        lemma_sorted_unique(da, db, key, less);
        assert(a =~= seq![a[0]] + da);
        assert(b =~= seq![b[0]] + db);
    }
}

proof fn lemma_count_absent<K>(s: Seq<(K, nat)>, k: K)
    requires
        forall|i: int| 0 <= i < s.len() ==> (#[trigger] s[i]).0 != k,
    ensures
        tally_count(s, k) == 0,
    decreases s.len(),
{
    if s.len() > 0 {
        assert forall|i: int| 0 <= i < s.drop_first().len() implies (
        #[trigger] s.drop_first()[i]).0 != k by {
            assert(s.drop_first()[i] == s[i + 1]);
        }
        lemma_count_absent(s.drop_first(), k);
    }
}

/// In a sorted tally, the count of a key is the count of its one entry, and
/// a key without an entry has count zero.
pub proof fn lemma_tally_entries<K>(s: Seq<(K, nat)>, less: spec_fn(K, K) -> bool)
    requires
        is_strict_total_order(less),
        tally_sorted(s, less),
    ensures
        forall|i: int| 0 <= i < s.len() ==> tally_count(s, (#[trigger] s[i]).0) == s[i].1,
        forall|k: K|
            (forall|i: int| 0 <= i < s.len() ==> (#[trigger] s[i]).0 != k) ==> tally_count(s, k)
                == 0,
    decreases s.len(),
{
    assert forall|k: K| (forall|i: int| 0 <= i < s.len() ==> (#[trigger] s[i]).0 != k) implies tally_count(
        s,
        k,
    ) == 0 by {
        lemma_count_absent(s, k);
    }
    if s.len() > 0 {
        let d = s.drop_first();
        assert(tally_sorted(d, less)) by {
            assert forall|i: int, j: int| 0 <= i < j < d.len() implies less(
                #[trigger] d[i].0,
                #[trigger] d[j].0,
            ) by {
                assert(d[i] == s[i + 1] && d[j] == s[j + 1]);
            }
        }
        lemma_tally_entries(d, less);
        assert forall|i: int| 0 <= i < s.len() implies tally_count(s, (#[trigger] s[i]).0)
            == s[i].1 by {
            if i == 0 {
                assert forall|m: int| 0 <= m < d.len() implies (#[trigger] d[m]).0 != s[0].0 by {
                    assert(d[m] == s[m + 1]);
                    assert(less(s[0].0, s[m + 1].0));
                    assert(!less(s[0].0, s[0].0));
                }
                assert(tally_count(d, s[0].0) == 0);
                assert(tally_count(s, s[0].0) == s[0].1 + tally_count(d, s[0].0));
            } else {
                assert(d[i - 1] == s[i]);
                assert(less(s[0].0, s[i].0));
                assert(!less(s[i].0, s[i].0));
                assert(tally_count(d, d[i - 1].0) == d[i - 1].1);
                assert(tally_count(s, s[i].0) == tally_count(d, s[i].0));
            }
        }
    }
}

/// A sorted, positive tally is fixed by its counts.
pub proof fn lemma_tally_unique<K>(s1: Seq<(K, nat)>, s2: Seq<(K, nat)>, less: spec_fn(K, K) -> bool)
    requires
        is_strict_total_order(less),
        tally_sorted(s1, less),
        tally_sorted(s2, less),
        tally_positive(s1),
        tally_positive(s2),
        forall|k: K| tally_count(s1, k) == tally_count(s2, k),
    ensures
        s1 == s2,
{
    lemma_tally_entries(s1, less);
    lemma_tally_entries(s2, less);
    let key = |x: (K, nat)| x.0;
    assert forall|x: (K, nat)| s1.contains(x) <==> s2.contains(x) by {
        if s1.contains(x) {
            let i = choose|i: int| 0 <= i < s1.len() && s1[i] == x;
            assert(tally_count(s1, x.0) == x.1);
            if !s2.contains(x) {
                if exists|j: int| 0 <= j < s2.len() && s2[j].0 == x.0 {
                    let j = choose|j: int| 0 <= j < s2.len() && s2[j].0 == x.0;
                    assert(s2[j] == x);
                } else {
                    assert(tally_count(s2, x.0) == 0);
                }
            }
        }
        if s2.contains(x) {
            let i = choose|i: int| 0 <= i < s2.len() && s2[i] == x;
            assert(tally_count(s2, x.0) == x.1);
            if !s1.contains(x) {
                if exists|j: int| 0 <= j < s1.len() && s1[j].0 == x.0 {
                    let j = choose|j: int| 0 <= j < s1.len() && s1[j].0 == x.0;
                    assert(s1[j] == x);
                } else {
                    assert(tally_count(s1, x.0) == 0);
                }
            }
        }
    }
    assert(sorted_by_key(s1, key, less));
    assert(sorted_by_key(s2, key, less));
    lemma_sorted_unique(s1, s2, key, less);
}

/// Two sightings make the same tally in either order.
pub proof fn lemma_insert_commutes<K>(s: Seq<(K, nat)>, a: K, b: K, less: spec_fn(K, K) -> bool)
    requires
        is_strict_total_order(less),
        tally_sorted(s, less),
        tally_positive(s),
    ensures
        tally_insert(tally_insert(s, a, less), b, less) == tally_insert(
            tally_insert(s, b, less),
            a,
            less,
        ),
{
    let sa = tally_insert(s, a, less);
    let sb = tally_insert(s, b, less);
    lemma_insert_sorted(s, a, less);
    lemma_insert_sorted(s, b, less);
    lemma_insert_sorted(sa, b, less);
    lemma_insert_sorted(sb, a, less);
    assert forall|k: K| tally_count(tally_insert(sa, b, less), k) == tally_count(
        tally_insert(sb, a, less),
        k,
    ) by {
        lemma_insert_count(s, a, less, k);
        lemma_insert_count(s, b, less, k);
        lemma_insert_count(sa, b, less, k);
        lemma_insert_count(sb, a, less, k);
    }
    lemma_tally_unique(tally_insert(sa, b, less), tally_insert(sb, a, less), less);
}

/// Sightings that make the same tally still do after the same further
/// sightings.
pub proof fn lemma_tally_of_append<K>(x1: Seq<K>, x2: Seq<K>, y: Seq<K>, less: spec_fn(K, K) -> bool)
    requires
        tally_of(x1, less) == tally_of(x2, less),
    ensures
        tally_of(x1 + y, less) == tally_of(x2 + y, less),
    decreases y.len(),
{
    if y.len() == 0 {
        assert(x1 + y =~= x1);
        assert(x2 + y =~= x2);
    } else {
        lemma_tally_of_append(x1, x2, y.drop_last(), less);
        assert((x1 + y).drop_last() =~= x1 + y.drop_last());
        assert((x2 + y).drop_last() =~= x2 + y.drop_last());
    }
}

/// Swapping two neighbouring sightings leaves the tally as it was.
pub proof fn lemma_tally_of_swap<K>(p: Seq<K>, a: K, b: K, q: Seq<K>, less: spec_fn(K, K) -> bool)
    requires
        is_strict_total_order(less),
    ensures
        tally_of(p + seq![a, b] + q, less) == tally_of(p + seq![b, a] + q, less),
{
    let x1 = p + seq![a, b];
    let x2 = p + seq![b, a];
    assert(x1.drop_last() =~= p.push(a));
    assert(x2.drop_last() =~= p.push(b));
    assert(p.push(a).drop_last() =~= p);
    assert(p.push(b).drop_last() =~= p);
    assert(x1.last() == b && x2.last() == a);
    assert(p.push(a).last() == a && p.push(b).last() == b);
    assert(tally_of(p.push(a), less) == tally_insert(tally_of(p, less), a, less));
    assert(tally_of(p.push(b), less) == tally_insert(tally_of(p, less), b, less));
    assert(tally_of(x1, less) == tally_insert(tally_of(p.push(a), less), b, less));
    assert(tally_of(x2, less) == tally_insert(tally_of(p.push(b), less), a, less));
    lemma_tally_of(p, less);
    lemma_insert_commutes(tally_of(p, less), a, b, less);
    lemma_tally_of_append(x1, x2, q, less);
}

/// The sum of a tally is that of all but its last entry plus the last count.
pub proof fn lemma_sum_drop_last<K>(s: Seq<(K, nat)>)
    requires
        s.len() > 0,
    ensures
        tally_sum(s) == tally_sum(s.drop_last()) + s.last().1,
    decreases s.len(),
{
    if s.len() > 1 {
        lemma_sum_drop_last(s.drop_first());
        assert(s.drop_first().drop_last() =~= s.drop_last().drop_first());
        assert(s.drop_last()[0] == s[0]);
        assert(s.drop_first().last() == s.last());
    } else {
        assert(tally_sum(s.drop_first()) == 0);
        assert(tally_sum(s.drop_last()) == 0);
    }
}

/// A prefix of a tally sums to at most the whole.
pub proof fn lemma_prefix_sum<K>(s: Seq<(K, nat)>, i: int)
    requires
        0 <= i <= s.len(),
    ensures
        tally_sum(s.take(i)) <= tally_sum(s),
    decreases s.len(),
{
    if i < s.len() {
        lemma_sum_drop_last(s);
        assert(s.drop_last().take(i) =~= s.take(i));
        lemma_prefix_sum(s.drop_last(), i);
    } else {
        assert(s.take(i) =~= s);
    }
}

} // verus!
