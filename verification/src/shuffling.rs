//! What a shuffle does to a sequence of cards.
//!
//! A shuffle walks the positions from the last one down to the second and
//! exchanges the card at each with the card at a partner position at or
//! before it. The partners are the shuffle's picks, one for each step.

use crate::card::Card;
use vstd::prelude::*;

verus! {

/// `s` with the cards at `i` and `j` exchanged.
pub open spec fn swapped(s: Seq<Card>, i: int, j: int) -> Seq<Card> {
    s.update(i, s[j]).update(j, s[i])
}

/// The number of steps of a shuffle of `len` cards.
pub open spec fn shuffle_steps(len: int) -> nat {
    if len > 1 {
        (len - 1) as nat
    } else {
        0
    }
}

/// The partner of position `len - 1 - step`: the pick of that step, brought
/// into the range of the positions up to that one. Where the picks run out,
/// the position is its own partner.
pub open spec fn partner(picks: Seq<usize>, len: int, step: int) -> int {
    if step < picks.len() {
        (picks[step] as int) % (len - step)
    } else {
        len - 1 - step
    }
}

/// `s` after the first `steps` steps of the shuffle with `picks`.
pub open spec fn shuffled_upto(s: Seq<Card>, picks: Seq<usize>, steps: nat) -> Seq<Card>
    decreases steps,
{
    if steps == 0 {
        s
    } else {
        let step = steps - 1;
        swapped(
            shuffled_upto(s, picks, step as nat),
            s.len() - 1 - step,
            partner(picks, s.len() as int, step),
        )
    }
}

/// `s` shuffled with `picks`.
pub open spec fn shuffled(s: Seq<Card>, picks: Seq<usize>) -> Seq<Card> {
    shuffled_upto(s, picks, shuffle_steps(s.len() as int))
}

/// Whether `picks` holds one pick for each step of a shuffle of `len` cards,
/// each within the positions that its step may choose from.
pub open spec fn picks_fit(picks: Seq<usize>, len: int) -> bool {
    &&& picks.len() == shuffle_steps(len)
    &&& forall|step: int| 0 <= step < picks.len() ==> #[trigger] picks[step] < len - step
}

/// Exchanging two cards keeps the cards.
pub proof fn lemma_swapped_is_permutation(s: Seq<Card>, i: int, j: int)
    requires
        0 <= i < s.len(),
        0 <= j < s.len(),
    ensures
        swapped(s, i, j).len() == s.len(),
        swapped(s, i, j).to_multiset() == s.to_multiset(),
{
    broadcast use vstd::multiset::group_multiset_axioms;

    vstd::seq_lib::to_multiset_update(s, i, s[j]);
    vstd::seq_lib::to_multiset_update(s.update(i, s[j]), j, s[i]);
    vstd::seq_lib::to_multiset_contains(s, s[i]);
}

/// Every step of a shuffle rearranges: whatever the picks, the cards after
/// any number of steps are as many as before and the same cards as often.
pub proof fn lemma_shuffled_upto_is_permutation(s: Seq<Card>, picks: Seq<usize>, steps: nat)
    requires
        steps <= shuffle_steps(s.len() as int),
    ensures
        shuffled_upto(s, picks, steps).len() == s.len(),
        shuffled_upto(s, picks, steps).to_multiset() == s.to_multiset(),
    decreases steps,
{
    if steps > 0 {
        let step = steps - 1;
        lemma_shuffled_upto_is_permutation(s, picks, step as nat);
        let len = s.len() as int;
        let j = partner(picks, len, step);
        assert(0 <= j <= len - 1 - step);
        lemma_swapped_is_permutation(shuffled_upto(s, picks, step as nat), len - 1 - step, j);
    }
}

/// A shuffle rearranges: the shuffled deck is a permutation of the deck
/// before, whatever the picks.
pub proof fn lemma_shuffled_is_permutation(s: Seq<Card>, picks: Seq<usize>)
    ensures
        shuffled(s, picks).len() == s.len(),
        shuffled(s, picks).to_multiset() == s.to_multiset(),
{
    lemma_shuffled_upto_is_permutation(s, picks, shuffle_steps(s.len() as int));
}

} // verus!
