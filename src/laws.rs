//! Properties of the wheel that relate several operations or all draws.

use vstd::prelude::*;
use vstd::multiset::Multiset;
use vstd::set_lib::{lemma_int_range, set_int_range};
use crate::random_wheel::RandomWheel;
use crate::weights::{
    all_positive, is_draw, lands_on, lemma_prefix_monotone, lemma_prefix_full, lemma_prefix_step,
    lemma_selected_is_landing, prefix_weight, removes, selected, total_weight,
};

verus! {

broadcast use vstd::seq_lib::group_to_multiset_ensures;

/// Popping hands out each entry exactly once. Along a chain of wheel
/// contents in which each step takes out the entry it returns, the returned
/// entries and what is left make up, together, exactly the first contents;
/// after as many pops as the wheel had entries, nothing is left and the
/// returned entries are the first contents in some order.
pub proof fn law_pops_hand_out_each_entry_once<E>(states: Seq<Seq<E>>, outs: Seq<E>)
    requires
        states.len() == outs.len() + 1,
        forall|k: int| 0 <= k < outs.len() ==> removes(states[k], states[k + 1], #[trigger] outs[k]),
    ensures
        states.last().len() + outs.len() == states[0].len(),
        outs.to_multiset().add(states.last().to_multiset()) == states[0].to_multiset(),
        outs.len() == states[0].len() ==> states.last().len() == 0 && outs.to_multiset()
            == states[0].to_multiset(),
    decreases outs.len(),
{
    if outs.len() == 0 {
        assert(outs.to_multiset() =~= Multiset::empty());
        assert(outs.to_multiset().add(states.last().to_multiset()) =~= states[0].to_multiset());
    } else {
        let n = outs.len() - 1;
        let ss = states.drop_last();
        let os = outs.drop_last();
        assert forall|k: int| 0 <= k < os.len() implies removes(ss[k], ss[k + 1], #[trigger] os[k]) by {
            assert(removes(states[k], states[k + 1], outs[k]));
        }
        law_pops_hand_out_each_entry_once(ss, os);
        assert(removes(states[n], states[n + 1], outs[n]));
        let i = choose|i: int|
            0 <= i < states[n].len() && states[n][i] == outs[n] && states[n + 1]
                == states[n].remove(i);
        assert(outs =~= os.push(outs[n]));
        assert(states[n + 1].to_multiset() == states[n].to_multiset().remove(outs[n]));
        assert(states[n].to_multiset().count(outs[n]) > 0);
        assert(outs.to_multiset().add(states.last().to_multiset()) =~= states[0].to_multiset());
        if outs.len() == states[0].len() {
            assert(states.last().to_multiset() =~= Multiset::empty());
            assert(outs.to_multiset().add(Multiset::empty()) =~= outs.to_multiset());
        }
    }
}

/// Selection is proportional to weight: of the `total` equally likely draws
/// against a well-kept wheel, exactly as many select entry `i` as its weight.
pub proof fn law_draws_selecting_entry_match_its_weight<T>(s: Seq<(u64, T)>, i: int)
    requires
        all_positive(s),
        0 <= i < s.len(),
    ensures
        ({
            let hits = Set::new(|d: int| is_draw(total_weight(s), d) && selected(s, d) == Some(i));
            hits.finite() && hits.len() == s[i].0
        }),
{
    let hits = Set::new(|d: int| is_draw(total_weight(s), d) && selected(s, d) == Some(i));
    lemma_prefix_full(s);
    lemma_prefix_step(s, i);
    lemma_prefix_monotone(s, 0, i);
    lemma_prefix_monotone(s, i + 1, s.len() as int);
    assert(s.take(0) =~= Seq::<(u64, T)>::empty());
    let lo = prefix_weight(s, i) as int;
    let hi = prefix_weight(s, i + 1) as int;
    if s.len() == 1 {
        assert(hits =~= set_int_range(lo, hi));
    } else {
        assert forall|d: int| hits.contains(d) <==> set_int_range(lo, hi).contains(d) by {
            if lands_on(s, d, i) {
                lemma_selected_is_landing(s, d, i);
            }
        }
        assert(hits =~= set_int_range(lo, hi));
    }
    lemma_int_range(lo, hi);
}

/// A cleared wheel is well kept and selects nothing, whatever is drawn: a
/// wheel with no entries and a zero sum, as `clear` leaves it, gives
/// `None` from `peek`, `peek_mut` and `pop`.
pub proof fn law_cleared_wheel_selects_nothing<T>(w: RandomWheel<T>, d: int)
    requires
        w@.len() == 0,
        w.cached_sum() == 0,
        is_draw(w.cached_sum(), d),
    ensures
        w.wf(),
        selected(w@, d) is None,
{
}

} // verus!
