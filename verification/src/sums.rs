//! Sums over the values of a finite map.
use vstd::prelude::*;

verus! {

/// The sum of `weight` over the values under the keys in `keys`.
pub open spec fn sum_over<K, V>(keys: Set<K>, map: Map<K, V>, weight: spec_fn(V) -> int) -> int
    decreases keys.len(),
{
    if keys.finite() && keys.len() > 0 {
        let k = keys.choose();
        weight(map[k]) + sum_over(keys.remove(k), map, weight)
    } else {
        0
    }
}

/// The sum of `weight` over the values of a map.
pub open spec fn sum<K, V>(map: Map<K, V>, weight: spec_fn(V) -> int) -> int {
    sum_over(map.dom(), map, weight)
}

proof fn lemma_sum_over_remove<K, V>(keys: Set<K>, map: Map<K, V>, weight: spec_fn(V) -> int, k: K)
    requires
        keys.finite(),
        keys.contains(k),
    ensures
        sum_over(keys, map, weight) == weight(map[k]) + sum_over(keys.remove(k), map, weight),
    decreases keys.len(),
{
    let c = keys.choose();
    assert(keys.len() > 0);
    assert(keys.contains(c));
    if c != k {
        lemma_sum_over_remove(keys.remove(c), map, weight, k);
        lemma_sum_over_remove(keys.remove(k), map, weight, c);
        assert(keys.remove(c).remove(k) =~= keys.remove(k).remove(c));
    }
}

proof fn lemma_sum_over_same<K, V>(keys: Set<K>, a: Map<K, V>, b: Map<K, V>, weight: spec_fn(V) -> int)
    requires
        keys.finite(),
        forall|k: K| #[trigger] keys.contains(k) ==> weight(a[k]) == weight(b[k]),
    ensures
        sum_over(keys, a, weight) == sum_over(keys, b, weight),
    decreases keys.len(),
{
    if keys.len() > 0 {
        let k = keys.choose();
        assert(keys.contains(k));
        lemma_sum_over_same(keys.remove(k), a, b, weight);
    }
}

proof fn lemma_sum_over_range<K, V>(keys: Set<K>, map: Map<K, V>, weight: spec_fn(V) -> int, low: int, high: int)
    requires
        keys.finite(),
        forall|k: K| #[trigger] keys.contains(k) ==> low <= weight(map[k]) <= high,
    ensures
        low * keys.len() <= sum_over(keys, map, weight) <= high * keys.len(),
    decreases keys.len(),
{
    if keys.len() > 0 {
        let k = keys.choose();
        assert(keys.contains(k));
        lemma_sum_over_range(keys.remove(k), map, weight, low, high);
        let n = keys.remove(k).len();
        assert(keys.len() == n + 1);
        assert(low * (n + 1) == low * n + low) by (nonlinear_arith);
        assert(high * (n + 1) == high * n + high) by (nonlinear_arith);
    } else {
        assert(low * 0 == 0 && high * 0 == 0) by (nonlinear_arith);
    }
}

/// Setting one value changes the sum by the difference of the weights.
pub proof fn lemma_sum_insert<K, V>(map: Map<K, V>, weight: spec_fn(V) -> int, k: K, v: V)
    requires
        map.dom().finite(),
    ensures
        sum(map.insert(k, v), weight) == sum(map, weight) + weight(v) - if map.contains_key(k) {
            weight(map[k])
        } else {
            0
        },
{
    let next = map.insert(k, v);
    lemma_sum_over_remove(next.dom(), next, weight, k);
    assert(next.dom().remove(k) =~= map.dom().remove(k));
    lemma_sum_over_same(map.dom().remove(k), next, map, weight);
    if map.contains_key(k) {
        lemma_sum_over_remove(map.dom(), map, weight, k);
    } else {
        assert(map.dom().remove(k) =~= map.dom());
    }
}

/// Removing a key takes its weight off the sum.
pub proof fn lemma_sum_remove<K, V>(map: Map<K, V>, weight: spec_fn(V) -> int, k: K)
    requires
        map.dom().finite(),
        map.contains_key(k),
    ensures
        sum(map.remove(k), weight) == sum(map, weight) - weight(map[k]),
{
    lemma_sum_over_remove(map.dom(), map, weight, k);
    assert(map.remove(k).dom() =~= map.dom().remove(k));
    lemma_sum_over_same(map.dom().remove(k), map.remove(k), map, weight);
}

/// Maps with the same keys and the same weights have the same sum.
pub proof fn lemma_sum_same<K, V>(a: Map<K, V>, b: Map<K, V>, weight: spec_fn(V) -> int)
    requires
        a.dom().finite(),
        a.dom() == b.dom(),
        forall|k: K| #[trigger] a.contains_key(k) ==> weight(a[k]) == weight(b[k]),
    ensures
        sum(a, weight) == sum(b, weight),
{
    lemma_sum_over_same(a.dom(), a, b, weight);
}

/// A sum of weights in a range is in that range times the number of keys.
pub proof fn lemma_sum_range<K, V>(map: Map<K, V>, weight: spec_fn(V) -> int, low: int, high: int)
    requires
        map.dom().finite(),
        forall|k: K| #[trigger] map.contains_key(k) ==> low <= weight(map[k]) <= high,
    ensures
        low * map.dom().len() <= sum(map, weight) <= high * map.dom().len(),
{
    lemma_sum_over_range(map.dom(), map, weight, low, high);
}

/// No weight in a sum of non-negative weights is more than the sum.
pub proof fn lemma_sum_at_least<K, V>(map: Map<K, V>, weight: spec_fn(V) -> int, k: K)
    requires
        map.dom().finite(),
        map.contains_key(k),
        forall|j: K| #[trigger] map.contains_key(j) ==> 0 <= weight(map[j]),
    ensures
        weight(map[k]) <= sum(map, weight),
{
    lemma_sum_over_remove(map.dom(), map, weight, k);
    lemma_sum_over_non_negative(map.dom().remove(k), map, weight);
}

proof fn lemma_sum_over_non_negative<K, V>(keys: Set<K>, map: Map<K, V>, weight: spec_fn(V) -> int)
    requires
        keys.finite(),
        forall|k: K| #[trigger] keys.contains(k) ==> 0 <= weight(map[k]),
    ensures
        0 <= sum_over(keys, map, weight),
    decreases keys.len(),
{
    if keys.len() > 0 {
        let k = keys.choose();
        assert(keys.contains(k));
        lemma_sum_over_non_negative(keys.remove(k), map, weight);
    }
}

/// A sum of zero weights is zero.
pub proof fn lemma_sum_zero<K, V>(map: Map<K, V>, weight: spec_fn(V) -> int)
    requires
        map.dom().finite(),
        forall|k: K| #[trigger] map.contains_key(k) ==> weight(map[k]) == 0,
    ensures
        sum(map, weight) == 0,
{
    lemma_sum_range(map, weight, 0, 0);
    assert(0 * map.dom().len() == 0) by (nonlinear_arith);
}

/// The sum of two weights is the sum of their sums.
pub proof fn lemma_sum_add<K, V>(
    map: Map<K, V>,
    a: spec_fn(V) -> int,
    b: spec_fn(V) -> int,
    both: spec_fn(V) -> int,
)
    requires
        map.dom().finite(),
        forall|v: V| #[trigger] both(v) == a(v) + b(v),
    ensures
        sum(map, both) == sum(map, a) + sum(map, b),
{
    lemma_sum_over_add(map.dom(), map, a, b, both);
}

proof fn lemma_sum_over_add<K, V>(
    keys: Set<K>,
    map: Map<K, V>,
    a: spec_fn(V) -> int,
    b: spec_fn(V) -> int,
    both: spec_fn(V) -> int,
)
    requires
        keys.finite(),
        forall|v: V| #[trigger] both(v) == a(v) + b(v),
    ensures
        sum_over(keys, map, both) == sum_over(keys, map, a) + sum_over(keys, map, b),
    decreases keys.len(),
{
    if keys.len() > 0 {
        let k = keys.choose();
        lemma_sum_over_add(keys.remove(k), map, a, b, both);
        assert(both(map[k]) == a(map[k]) + b(map[k]));
    }
}

/// A sum over the first keys of a list grows by one weight per key.
pub proof fn lemma_sum_next<K, V>(keys: Seq<K>, map: Map<K, V>, weight: spec_fn(V) -> int, i: int)
    requires
        keys.no_duplicates(),
        0 <= i < keys.len(),
    ensures
        sum_over(keys.take(i + 1).to_set(), map, weight) == sum_over(keys.take(i).to_set(), map, weight) + weight(
            map[keys[i]],
        ),
{
    let seen = keys.take(i).to_set();
    let grown = keys.take(i + 1).to_set();
    let k = keys[i];
    assert(grown.contains(k)) by {
        assert(keys.take(i + 1)[i] == k);
    }
    assert(!seen.contains(k)) by {
        if seen.contains(k) {
            let j = keys.take(i).index_of(k);
            assert(keys[j] == k);
        }
    }
    assert(grown.remove(k) =~= seen) by {
        assert forall|x: K| grown.remove(k).contains(x) == seen.contains(x) by {
            if seen.contains(x) {
                let j = keys.take(i).index_of(x);
                assert(keys.take(i + 1)[j] == x);
            }
            if grown.contains(x) && x != k {
                let j = keys.take(i + 1).index_of(x);
                assert(keys.take(i)[j] == x);
            }
        }
    }
    vstd::seq_lib::seq_to_set_is_finite(keys.take(i + 1));
    lemma_sum_over_remove(grown, map, weight, k);
}

/// A sum over no keys is zero, and one over all keys is the sum.
pub proof fn lemma_sum_ends<K, V>(keys: Seq<K>, map: Map<K, V>, weight: spec_fn(V) -> int)
    requires
        keys.to_set() == map.dom(),
    ensures
        sum_over(keys.take(0).to_set(), map, weight) == 0,
        sum_over(keys.take(keys.len() as int).to_set(), map, weight) == sum(map, weight),
{
    assert(keys.take(0).to_set() =~= Set::<K>::empty());
    assert(keys.take(keys.len() as int) =~= keys);
}

/// A sum of weights of at most one over the first `i` keys is at most `i`.
pub proof fn lemma_sum_prefix_bound<K, V>(keys: Seq<K>, map: Map<K, V>, weight: spec_fn(V) -> int, i: int)
    requires
        keys.no_duplicates(),
        0 <= i <= keys.len(),
        forall|v: V| 0 <= #[trigger] weight(v) <= 1,
    ensures
        0 <= sum_over(keys.take(i).to_set(), map, weight) <= i,
    decreases i,
{
    if i > 0 {
        lemma_sum_prefix_bound(keys, map, weight, i - 1);
        lemma_sum_next(keys, map, weight, i - 1);
    } else {
        assert(keys.take(0).to_set() =~= Set::<K>::empty());
    }
}

proof fn lemma_sum_over_grows<K, V>(
    keys: Set<K>,
    a: Map<K, V>,
    b: Map<K, V>,
    weight: spec_fn(V) -> int,
    gain: spec_fn(V) -> int,
)
    requires
        keys.finite(),
        forall|k: K| #[trigger] keys.contains(k) ==> weight(b[k]) == weight(a[k]) + gain(a[k]),
    ensures
        sum_over(keys, b, weight) == sum_over(keys, a, weight) + sum_over(keys, a, gain),
    decreases keys.len(),
{
    if keys.len() > 0 {
        let k = keys.choose();
        assert(keys.contains(k));
        lemma_sum_over_grows(keys.remove(k), a, b, weight, gain);
    }
}

/// Where every value weighs more by its own gain, the sum is more by the sum of the
/// gains.
pub proof fn lemma_sum_grows<K, V>(a: Map<K, V>, b: Map<K, V>, weight: spec_fn(V) -> int, gain: spec_fn(V) -> int)
    requires
        a.dom().finite(),
        a.dom() == b.dom(),
        forall|k: K| #[trigger] a.contains_key(k) ==> weight(b[k]) == weight(a[k]) + gain(a[k]),
    ensures
        sum(b, weight) == sum(a, weight) + sum(a, gain),
{
    lemma_sum_over_grows(a.dom(), a, b, weight, gain);
}

/// A sum of ones and zeros is the number of the ones.
pub proof fn law_sum_counts<K, V>(map: Map<K, V>, chosen: spec_fn(V) -> bool, weight: spec_fn(V) -> int)
    requires
        map.dom().finite(),
        forall|v: V| #[trigger] weight(v) == if chosen(v) {
            1int
        } else {
            0int
        },
    ensures
        sum(map, weight) == map.dom().filter(|k: K| chosen(map[k])).len(),
    decreases map.dom().len(),
{
    let is_chosen = |k: K| chosen(map[k]);
    if map.dom().len() == 0 {
        assert(map.dom().filter(is_chosen) =~= Set::<K>::empty());
    } else {
        let k = map.dom().choose();
        let rest = map.remove(k);
        lemma_sum_remove(map, weight, k);
        law_sum_counts(rest, chosen, weight);
        let among_rest = |j: K| chosen(rest[j]);
        assert(rest.dom() =~= map.dom().remove(k));
        let all = map.dom().filter(is_chosen);
        let left = rest.dom().filter(among_rest);
        assert(all.finite());
        assert(all.remove(k) =~= left);
        if !chosen(map[k]) {
            assert(all =~= left);
        }
        assert(weight(map[k]) == if chosen(map[k]) {
            1int
        } else {
            0int
        });
    }
}

} // verus!
