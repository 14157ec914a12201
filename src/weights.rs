//! The mathematical model of a wheel: a sequence of `(weight, item)` entries
//! laid end to end, each covering as many distances as its weight.

use vstd::prelude::*;

verus! {

/// Sum of the weights of all entries.
pub open spec fn total_weight<T>(s: Seq<(u64, T)>) -> nat
    decreases s.len(),
{
    if s.len() == 0 {
        0
    } else {
        total_weight(s.drop_last()) + s.last().0 as nat
    }
}

/// Sum of the weights of the first `k` entries: where entry `k` starts.
pub open spec fn prefix_weight<T>(s: Seq<(u64, T)>, k: int) -> nat {
    total_weight(s.take(k))
}

/// Every entry has a weight above zero.
pub open spec fn all_positive<T>(s: Seq<(u64, T)>) -> bool {
    forall|i: int| 0 <= i < s.len() ==> #[trigger] s[i].0 > 0
}

/// The distance `d` falls within the span of entry `i`, which reaches from
/// where the entry starts up to, but not including, where the next one starts.
pub open spec fn lands_on<T>(s: Seq<(u64, T)>, d: int, i: int) -> bool {
    &&& 0 <= i < s.len()
    &&& prefix_weight(s, i) <= d < prefix_weight(s, i + 1)
}

/// The entry that a scan of the wheel selects for distance `d`: the only
/// entry when there is just one, else the entry whose span holds `d`, and
/// nothing when `d` lies past the end of the wheel.
pub open spec fn selected<T>(s: Seq<(u64, T)>, d: int) -> Option<int> {
    if s.len() == 1 {
        Some(0)
    } else if exists|i: int| lands_on(s, d, i) {
        Some(choose|i: int| lands_on(s, d, i))
    } else {
        None
    }
}

/// The distances that a draw against the cached weight sum `sum` may yield:
/// any in `[0, sum)`, or zero when the sum is zero.
pub open spec fn is_draw(sum: nat, d: int) -> bool {
    if sum > 0 {
        0 <= d < sum
    } else {
        d == 0
    }
}

/// `after` is `before` with the entry `e` taken out of some position, the
/// other entries keeping their order.
pub open spec fn removes<E>(before: Seq<E>, after: Seq<E>, e: E) -> bool {
    exists|i: int| 0 <= i < before.len() && before[i] == e && after == before.remove(i)
}

/// Appending an entry adds its weight to the total.
pub proof fn lemma_total_weight_push<T>(s: Seq<(u64, T)>, e: (u64, T))
    ensures
        total_weight(s.push(e)) == total_weight(s) + e.0,
{
    assert(s.push(e).drop_last() =~= s);
}

/// Entry `k` ends where it starts plus its weight.
pub proof fn lemma_prefix_step<T>(s: Seq<(u64, T)>, k: int)
    requires
        0 <= k < s.len(),
    ensures
        prefix_weight(s, k + 1) == prefix_weight(s, k) + s[k].0,
{
    assert(s.take(k + 1).drop_last() =~= s.take(k));
}

/// The prefix over the whole sequence is the total.
pub proof fn lemma_prefix_full<T>(s: Seq<(u64, T)>)
    ensures
        prefix_weight(s, s.len() as int) == total_weight(s),
{
    assert(s.take(s.len() as int) =~= s);
}

/// Entries never start before an earlier one.
pub proof fn lemma_prefix_monotone<T>(s: Seq<(u64, T)>, j: int, k: int)
    requires
        0 <= j <= k <= s.len(),
    ensures
        prefix_weight(s, j) <= prefix_weight(s, k),
    decreases k - j,
{
    if j < k {
        lemma_prefix_step(s, k - 1);
        lemma_prefix_monotone(s, j, k - 1);
    }
}

/// A distance lands on at most one entry.
pub proof fn lemma_lands_on_unique<T>(s: Seq<(u64, T)>, d: int, i: int, j: int)
    requires
        lands_on(s, d, i),
        lands_on(s, d, j),
    ensures
        i == j,
{
    if i < j {
        lemma_prefix_monotone(s, i + 1, j);
    } else if j < i {
        lemma_prefix_monotone(s, j + 1, i);
    }
}

/// An entry that a distance lands on is the one that the scan selects,
/// where the wheel holds more than one entry.
pub proof fn lemma_selected_is_landing<T>(s: Seq<(u64, T)>, d: int, i: int)
    requires
        s.len() != 1,
        lands_on(s, d, i),
    ensures
        selected(s, d) == Some(i),
{
    let c = choose|c: int| lands_on(s, d, c);
    lemma_lands_on_unique(s, d, i, c);
}

/// The weights of two sequences laid end to end add up.
pub proof fn lemma_total_weight_concat<T>(a: Seq<(u64, T)>, b: Seq<(u64, T)>)
    ensures
        total_weight(a + b) == total_weight(a) + total_weight(b),
    decreases b.len(),
{
    if b.len() > 0 {
        assert((a + b).drop_last() =~= a + b.drop_last());
        lemma_total_weight_concat(a, b.drop_last());
    } else {
        assert(a + b =~= a);
    }
}

/// Taking out entry `i` takes its weight off the total.
pub proof fn lemma_total_weight_remove<T>(s: Seq<(u64, T)>, i: int)
    requires
        0 <= i < s.len(),
    ensures
        total_weight(s.remove(i)) + s[i].0 == total_weight(s),
{
    let a = s.take(i);
    let b = s.skip(i + 1);
    let one = seq![s[i]];
    assert(s.remove(i) =~= a + b);
    assert(s =~= a + (one + b));
    lemma_total_weight_concat(a, b);
    lemma_total_weight_concat(a, one + b);
    lemma_total_weight_concat(one, b);
    assert(one.drop_last() =~= Seq::<(u64, T)>::empty());
    assert(total_weight(one.drop_last()) == 0);
    assert(total_weight(one) == s[i].0);
}

/// A wheel of positive weights with at least one entry has a positive total.
pub proof fn lemma_total_weight_positive<T>(s: Seq<(u64, T)>)
    requires
        all_positive(s),
        s.len() > 0,
    ensures
        total_weight(s) > 0,
{
    assert(s[s.len() - 1].0 > 0);
}

/// Every distance below the total lands on some entry.
pub proof fn lemma_distance_lands<T>(s: Seq<(u64, T)>, d: int)
    requires
        0 <= d < total_weight(s),
    ensures
        exists|i: int| lands_on(s, d, i),
    decreases s.len(),
{
    let n = s.len() - 1;
    lemma_prefix_full(s);
    lemma_prefix_step(s, n);
    if d >= prefix_weight(s, n) {
        assert(lands_on(s, d, n));
    } else {
        let t = s.drop_last();
        assert(s.take(n) =~= t);
        lemma_distance_lands(t, d);
        let i = choose|i: int| lands_on(t, d, i);
        assert(t.take(i) =~= s.take(i));
        assert(t.take(i + 1) =~= s.take(i + 1));
        assert(lands_on(s, d, i));
    }
}

} // verus!
