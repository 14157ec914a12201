//! The wheel itself: entries in insertion order and the cached sum of their
//! weights.

use vstd::prelude::*;
use vstd::std_specs::iter::IteratorSpec;
use crate::draw::draw_below;
use crate::weights::{
    all_positive, is_draw, lands_on, lemma_distance_lands, lemma_prefix_full,
    lemma_prefix_monotone, lemma_prefix_step, lemma_selected_is_landing,
    lemma_total_weight_positive, lemma_total_weight_push, lemma_total_weight_remove,
    prefix_weight, removes, selected, total_weight,
};

verus! {

/// A wheel of `(weight, item)` entries from which an entry is picked with a
/// probability proportional to its weight. Weights are positive `u64`
/// values, and their sum must stay within `u64`.
///
/// After [`RandomWheel::iter_mut`] has changed weights, the cached sum is
/// stale until [`RandomWheel::compute_proba_sum`] is called; `wf` is the
/// condition that it is up to date and that every weight is positive.
#[derive(Clone)]
pub struct RandomWheel<T> {
    /// the cached sum of all weights in this wheel.
    proba_sum: u64,
    /// all the (weight, item) entries, in the order they were pushed.
    cards: Vec<(u64, T)>,
}

impl<T> View for RandomWheel<T> {
    type V = Seq<(u64, T)>;

    closed spec fn view(&self) -> Seq<(u64, T)> {
        self.cards@
    }
}

impl<T> RandomWheel<T> {
    /// The cached weight sum, which `proba_sum` returns.
    pub closed spec fn cached_sum(&self) -> nat {
        self.proba_sum as nat
    }

    /// The cached sum is the total of the weights, and each weight is positive.
    pub open spec fn wf(&self) -> bool {
        &&& self.cached_sum() == total_weight(self@)
        &&& all_positive(self@)
    }

    /// Creates a wheel holding the given items in order, each with weight 1.
    pub fn from_vec(vector: Vec<T>) -> (r: Self)
        ensures
            r.wf(),
            r@.len() == vector@.len(),
            forall|i: int| 0 <= i < vector@.len() ==> #[trigger] r@[i] == (1u64, vector@[i]),
            r.cached_sum() == vector@.len(),
    {
        let ghost items = vector@;
        let n: usize = vector.len();
        let mut cards: Vec<(u64, T)> = Vec::with_capacity(vector.len());
        let mut sum: u64 = 0;
        for item in it: vector.into_iter()
            invariant
                it.seq() == items,
                items.len() == n,
                cards@.len() == it.index(),
                sum == it.index(),
                forall|j: int| 0 <= j < it.index() ==> #[trigger] cards@[j] == (1u64, items[j]),
                total_weight(cards@) == sum,
                all_positive(cards@),
        {
            proof {
                lemma_total_weight_push(cards@, (1u64, item));
                assert(it.index() < n);
            }
            cards.push((1, item));
            sum = sum + 1;
        }
        RandomWheel { proba_sum: sum, cards }
    }

    /// Creates an empty wheel.
    pub fn new() -> (r: Self)
        ensures
            r.wf(),
            r@ == Seq::<(u64, T)>::empty(),
            r.cached_sum() == 0,
    {
        RandomWheel { proba_sum: 0, cards: Vec::new() }
    }

    /// Creates an empty wheel with room for at least `n` entries.
    pub fn with_capacity(n: usize) -> (r: Self)
        ensures
            r.wf(),
            r@ == Seq::<(u64, T)>::empty(),
            r.cached_sum() == 0,
    {
        RandomWheel { proba_sum: 0, cards: Vec::with_capacity(n) }
    }

    /// Returns the number of entries in the wheel.
    pub fn len(&self) -> (r: usize)
        ensures
            r == self@.len(),
    {
        self.cards.len()
    }

    /// Returns `true` when the wheel holds no entry.
    pub fn is_empty(&self) -> (r: bool)
        ensures
            r == (self@.len() == 0),
    {
        self.cards.is_empty()
    }

    /// Appends an entry with weight `proba`, which must be positive, and adds
    /// the weight to the cached sum, which must stay within `u64`.
    pub fn push(&mut self, proba: u64, data: T)
        requires
            proba > 0,
            old(self).cached_sum() + proba <= u64::MAX,
        ensures
            final(self)@ == old(self)@.push((proba, data)),
            final(self).cached_sum() == old(self).cached_sum() + proba,
            old(self).wf() ==> final(self).wf(),
    {
        proof {
            lemma_total_weight_push(self.cards@, (proba, data));
        }
        self.cards.push((proba, data));
        self.proba_sum = self.proba_sum + proba;
    }

    /// Recomputes the cached sum from the weights; for use after weights were
    /// changed through `iter_mut`. Each weight must be positive and their
    /// total must stay within `u64`.
    pub fn compute_proba_sum(&mut self)
        requires
            all_positive(old(self)@),
            total_weight(old(self)@) <= u64::MAX,
        ensures
            final(self)@ == old(self)@,
            final(self).cached_sum() == total_weight(old(self)@),
            final(self).wf(),
    {
        let mut sum: u64 = 0;
        let mut i: usize = 0;
        while i < self.cards.len()
            invariant
                self@ == old(self)@,
                total_weight(old(self)@) <= u64::MAX,
                0 <= i <= self@.len(),
                sum == prefix_weight(self@, i as int),
            decreases self@.len() - i,
        {
            proof {
                lemma_prefix_step(self@, i as int);
                lemma_prefix_monotone(self@, i as int + 1, self@.len() as int);
                lemma_prefix_full(self@);
            }
            sum = sum + self.cards[i].0;
            i = i + 1;
        }
        proof {
            lemma_prefix_full(self@);
        }
        self.proba_sum = sum;
    }

    /// Reserves room for at least `additional` more entries.
    pub fn reserve(&mut self, additional: usize)
        ensures
            final(self)@ == old(self)@,
            final(self).cached_sum() == old(self).cached_sum(),
    {
        self.cards.reserve(additional);
    }

    /// Returns the number of entries the wheel can hold without reallocating.
    pub fn capacity(&self) -> (r: usize)
        ensures
            r >= self@.len(),
    {
        vec_capacity(&self.cards)
    }

    /// Removes every entry and resets the cached sum to zero; the capacity
    /// stays as it is.
    pub fn clear(&mut self)
        ensures
            final(self)@ == Seq::<(u64, T)>::empty(),
            final(self).cached_sum() == 0,
            final(self).wf(),
    {
        self.cards.clear();
        self.proba_sum = 0;
    }

    /// Returns an iterator over the `(weight, item)` entries in storage order.
    pub fn iter(&self) -> (r: std::slice::Iter<'_, (u64, T)>)
        ensures
            r.remaining() == self@.as_ref(),
    {
        self.cards.iter()
    }

    /// Returns the `(weight, item)` entries in storage order, open to change.
    /// The cached sum is left as it was: after changing a weight, call
    /// `compute_proba_sum` before the next selection.
    pub fn iter_mut(&mut self) -> (r: &mut [(u64, T)])
        ensures
            r@ == old(self)@,
            final(self)@ == final(r)@,
            final(self).cached_sum() == old(self).cached_sum(),
    {
        self.cards.as_mut_slice()
    }

    /// Returns the cached sum of the weights.
    pub fn proba_sum(&self) -> (r: u64)
        ensures
            r == self.cached_sum(),
    {
        self.proba_sum
    }

    /// `r` is the index that distance `d` selects on this wheel, or `None`
    /// where it selects none.
    pub open spec fn picks(&self, d: int, r: Option<usize>) -> bool {
        match r {
            Some(i) => selected(self@, d) == Some(i as int) && i < self@.len(),
            None => selected(self@, d) is None,
        }
    }

    /// What a pop that drew distance `d` leaves in `after` and returns as
    /// `r`: the selected entry is taken out, in order, and its weight comes
    /// off the cached sum (down to zero at most); where none is selected,
    /// nothing changes.
    pub open spec fn pop_outcome(&self, after: Self, d: int, r: Option<(u64, T)>) -> bool {
        match selected(self@, d) {
            Some(i) => {
                &&& r == Some(self@[i])
                &&& after@ == self@.remove(i)
                &&& after.cached_sum() == if self.cached_sum() >= self@[i].0 {
                    (self.cached_sum() - self@[i].0) as nat
                } else {
                    0
                }
            },
            None => {
                &&& r is None
                &&& after@ == self@
                &&& after.cached_sum() == self.cached_sum()
            },
        }
    }

    /// Returns the index of the entry that the distance `dist` selects: the
    /// only entry when there is one, else the first entry whose span, laid
    /// out from zero in storage order, holds `dist`; `None` when the wheel is
    /// empty or `dist` lies past its total weight.
    pub fn select_index(&self, dist: u64) -> (r: Option<usize>)
        ensures
            self.picks(dist as int, r),
    {
        if self.cards.len() == 0 {
            return None;
        }
        if self.cards.len() == 1 {
            return Some(0);
        }
        let mut rest: u64 = dist;
        let mut i: usize = 0;
        while i < self.cards.len()
            invariant
                self@.len() >= 2,
                0 <= i <= self@.len(),
                prefix_weight(self@, i as int) <= dist,
                rest == dist - prefix_weight(self@, i as int),
                forall|j: int| 0 <= j < i ==> !lands_on(self@, dist as int, j),
            decreases self@.len() - i,
        {
            let w = self.cards[i].0;
            proof {
                lemma_prefix_step(self@, i as int);
            }
            if rest < w {
                proof {
                    lemma_selected_is_landing(self@, dist as int, i as int);
                }
                return Some(i);
            }
            rest = rest - w;
            i = i + 1;
        }
        proof {
            assert forall|j: int| !lands_on(self@, dist as int, j) by {
                if 0 <= j < self@.len() {
                    lemma_prefix_monotone(self@, j + 1, self@.len() as int);
                }
            }
        }
        None
    }

    /// Draws a distance uniformly from `[0, proba_sum)`, or zero when the
    /// cached sum is zero.
    fn gen_random_dist(&self) -> (d: u64)
        ensures
            is_draw(self.cached_sum(), d as int),
    {
        if self.proba_sum > 0 {
            draw_below(self.proba_sum)
        } else {
            0
        }
    }

    /// Picks an index at random, each entry with a chance proportional to its
    /// weight; the only entry is picked without a draw.
    fn get_random_index(&self) -> (r: Option<usize>)
        ensures
            exists|d: int| is_draw(self.cached_sum(), d) && self.picks(d, r),
            self.wf() && self@.len() > 0 ==> r is Some,
    {
        if self.cards.len() <= 1 {
            let r: Option<usize> = if self.cards.len() == 0 {
                None
            } else {
                Some(0)
            };
            assert(is_draw(self.cached_sum(), 0) && self.picks(0, r));
            return r;
        }
        let dist = self.gen_random_dist();
        let r = self.select_index(dist);
        proof {
            if self.wf() {
                lemma_total_weight_positive(self@);
                lemma_distance_lands(self@, dist as int);
            }
            assert(is_draw(self.cached_sum(), dist as int) && self.picks(dist as int, r));
        }
        r
    }

    /// Returns a randomly selected entry, each with a chance proportional to
    /// its weight, without taking it out.
    pub fn peek(&self) -> (r: Option<(u64, &T)>)
        ensures
            exists|d: int|
                is_draw(self.cached_sum(), d) && match selected(self@, d) {
                    Some(i) => r == Some((self@[i].0, &self@[i].1)),
                    None => r is None,
                },
            self@.len() == 0 ==> r is None,
            self@.len() == 1 ==> r == Some((self@[0].0, &self@[0].1)),
            self.wf() && self@.len() > 0 ==> r is Some,
    {
        match self.get_random_index() {
            Some(index) => {
                let e = &self.cards[index];
                Some((e.0, &e.1))
            },
            None => None,
        }
    }

    /// Returns a randomly selected entry, each with a chance proportional to
    /// its weight, with its item open to change; its weight is handed out by
    /// value and stays as it is.
    pub fn peek_mut(&mut self) -> (r: Option<(u64, &mut T)>)
        ensures
            exists|d: int|
                is_draw(old(self).cached_sum(), d) && match selected(old(self)@, d) {
                    Some(i) => {
                        &&& r matches Some((w, x))
                        &&& w == old(self)@[i].0
                        &&& *x == old(self)@[i].1
                        &&& final(self)@ == old(self)@.update(i, (w, *final(x)))
                    },
                    None => r is None && final(self)@ == old(self)@,
                },
            final(self).cached_sum() == old(self).cached_sum(),
            old(self)@.len() == 0 ==> r is None,
            old(self).wf() && old(self)@.len() > 0 ==> r is Some,
    {
        match self.get_random_index() {
            Some(index) => {
                let e = &mut self.cards[index];
                Some((e.0, &mut e.1))
            },
            None => None,
        }
    }

    /// Takes out a randomly selected entry, each with a chance proportional
    /// to its weight, and returns it.
    pub fn pop(&mut self) -> (r: Option<(u64, T)>)
        ensures
            exists|d: int|
                is_draw(old(self).cached_sum(), d) && old(self).pop_outcome(*final(self), d, r),
            r matches Some(e) ==> removes(old(self)@, final(self)@, e),
            r is None ==> final(self)@ == old(self)@,
            old(self)@.len() == 0 ==> r is None,
            old(self)@.len() == 1 ==> r == Some(old(self)@[0]),
            old(self).wf() && old(self)@.len() > 0 ==> r is Some,
            old(self).wf() ==> final(self).wf(),
    {
        match self.get_random_index() {
            Some(index) => {
                proof {
                    lemma_total_weight_remove(self@, index as int);
                }
                let (proba, data) = self.cards.remove(index);
                self.proba_sum = if self.proba_sum >= proba {
                    self.proba_sum - proba
                } else {
                    0
                };
                Some((proba, data))
            },
            None => None,
        }
    }

    /// Takes out a randomly selected entry, as `pop` does: calling it until it
    /// returns `None` hands out the whole wheel in weighted random order.
    pub fn next(&mut self) -> (r: Option<(u64, T)>)
        ensures
            exists|d: int|
                is_draw(old(self).cached_sum(), d) && old(self).pop_outcome(*final(self), d, r),
            r matches Some(e) ==> removes(old(self)@, final(self)@, e),
            r is None ==> final(self)@ == old(self)@,
            old(self)@.len() == 0 ==> r is None,
            old(self)@.len() == 1 ==> r == Some(old(self)@[0]),
            old(self).wf() && old(self)@.len() > 0 ==> r is Some,
            old(self).wf() ==> final(self).wf(),
    {
        self.pop()
    }
}

/// Relies on `Vec::capacity`: the number of elements the vector can hold
/// without reallocating, which is never below its length.
#[verifier::external_body]
fn vec_capacity<E>(v: &Vec<E>) -> (r: usize)
    ensures
        r >= v@.len(),
{
    v.capacity()
}

} // verus!
