//! Drawing an item at random.
use crate::random::{below_drawn, lemma_below_drawn, random_below};
use vstd::prelude::*;

verus! {

/// An item of `input`, drawn at random and cloned. The list must not be
/// empty.
pub fn random_pick<T: Clone>(input: &Vec<T>) -> (r: T)
    requires
        input.len() > 0,
    ensures
        exists|i: int| 0 <= i < input.len() && cloned::<T>(input@[i], r),
        exists|i: int| 0 <= i < input.len() && #[trigger] below_drawn(input.len(), i as usize) && cloned::<T>(input@[i], r),
{
    let i = random_below(input.len());
    proof {
        lemma_below_drawn(input.len(), i);
        assert(below_drawn(input.len(), (i as int) as usize));
    }
    input[i].clone()
}

/// What a filter keeps comes from the filtered sequence and satisfies the
/// predicate; what satisfies the predicate is kept.
pub proof fn lemma_filter_subset<A>(s: Seq<A>, pred: spec_fn(A) -> bool)
    ensures
        forall|i: int|
            0 <= i < s.filter(pred).len() ==> s.contains(#[trigger] s.filter(pred)[i]) && pred(
                s.filter(pred)[i],
            ),
        forall|i: int| 0 <= i < s.len() && pred(s[i]) ==> #[trigger] s.filter(pred).contains(s[i]),
        s.filter(pred).len() <= s.len(),
    decreases s.len(),
{
    reveal_with_fuel(Seq::filter, 1);
    broadcast use vstd::seq_lib::group_filter_ensures;

    if s.len() > 0 {
        lemma_filter_subset(s.drop_last(), pred);
        let out = s.filter(pred);
        let sub = s.drop_last().filter(pred);
        assert forall|i: int| 0 <= i < out.len() implies s.contains(#[trigger] out[i]) && pred(
            out[i],
        ) by {
            if i < sub.len() {
                assert(out[i] == sub[i]);
                let k = choose|k: int| 0 <= k < s.drop_last().len() && s.drop_last()[k] == sub[i];
                assert(s[k] == out[i]);
            } else {
                assert(out[i] == s.last());
                assert(s[s.len() - 1] == out[i]);
            }
        }
    }
}

} // verus!
