//! What it means to sort a sequence of cards.
//!
//! A sort compares cards either by the whole card or by the rank alone. It
//! is stable: cards with equal keys keep the order they had.

use crate::card::Card;
use vstd::prelude::*;
use vstd::relations::total_ordering;
use vstd::seq_lib::{lemma_sorted_unique, to_multiset_build, to_multiset_insert};

verus! {

/// The key that a sort compares: the rank alone, or the whole card.
pub open spec fn sort_key(card: Card, by_rank: bool) -> int {
    if by_rank {
        card.card_type.key()
    } else {
        card.key()
    }
}

/// Whether the keys of `s` never decrease from front to back.
pub open spec fn is_sorted_by(s: Seq<Card>, by_rank: bool) -> bool {
    forall|i: int, j: int|
        0 <= i < j < s.len() ==> sort_key(#[trigger] s[i], by_rank) <= sort_key(
            #[trigger] s[j],
            by_rank,
        )
}

/// Whether `s` ascends in the order of cards.
pub open spec fn is_sorted(s: Seq<Card>) -> bool {
    is_sorted_by(s, false)
}

/// Where `card` goes into `s`: behind the last card whose key is not greater
/// than its own.
pub open spec fn insert_position(s: Seq<Card>, card: Card, by_rank: bool) -> int
    decreases s.len(),
{
    if s.len() > 0 && sort_key(s.last(), by_rank) > sort_key(card, by_rank) {
        insert_position(s.drop_last(), card, by_rank)
    } else {
        s.len() as int
    }
}

/// The cards of `s` sorted by their keys, cards of equal keys in the order
/// they have in `s`: each card in turn goes into the sorted cards before it.
pub open spec fn stably_sorted(s: Seq<Card>, by_rank: bool) -> Seq<Card>
    decreases s.len(),
{
    if s.len() == 0 {
        s
    } else {
        let front = stably_sorted(s.drop_last(), by_rank);
        front.insert(insert_position(front, s.last(), by_rank), s.last())
    }
}

/// The cards of `s` grouped by ascending rank, each group in the order it
/// has in `s`.
pub open spec fn rank_sorted(s: Seq<Card>) -> Seq<Card> {
    stably_sorted(s, true)
}

/// The insert position lies behind every card with a key that is not
/// greater, and before a run of cards with greater keys.
pub proof fn lemma_insert_position(s: Seq<Card>, card: Card, by_rank: bool)
    ensures
        0 <= insert_position(s, card, by_rank) <= s.len(),
        forall|k: int|
            insert_position(s, card, by_rank) <= k < s.len() ==> sort_key(
                #[trigger] s[k],
                by_rank,
            ) > sort_key(card, by_rank),
        insert_position(s, card, by_rank) > 0 ==> sort_key(
            s[insert_position(s, card, by_rank) - 1],
            by_rank,
        ) <= sort_key(card, by_rank),
    decreases s.len(),
{
    if s.len() > 0 && sort_key(s.last(), by_rank) > sort_key(card, by_rank) {
        lemma_insert_position(s.drop_last(), card, by_rank);
        let p = insert_position(s.drop_last(), card, by_rank);
        assert forall|k: int| p <= k < s.len() implies sort_key(#[trigger] s[k], by_rank)
            > sort_key(card, by_rank) by {
            if k < s.len() - 1 {
                assert(s[k] == s.drop_last()[k]);
            }
        }
    }
}

/// Sorting rearranges: the result is sorted by the chosen key and holds the
/// same cards as often as the input.
pub proof fn lemma_stably_sorted(s: Seq<Card>, by_rank: bool)
    ensures
        stably_sorted(s, by_rank).len() == s.len(),
        is_sorted_by(stably_sorted(s, by_rank), by_rank),
        stably_sorted(s, by_rank).to_multiset() == s.to_multiset(),
    decreases s.len(),
{
    if s.len() > 0 {
        let front = stably_sorted(s.drop_last(), by_rank);
        let p = insert_position(front, s.last(), by_rank);
        lemma_stably_sorted(s.drop_last(), by_rank);
        lemma_insert_position(front, s.last(), by_rank);
        to_multiset_insert(front, p, s.last());
        assert(s == s.drop_last().push(s.last()));
        to_multiset_build(s.drop_last(), s.last());
    }
}

/// Sorting leaves sorted cards as they are.
pub proof fn lemma_sorting_sorted_cards(s: Seq<Card>, by_rank: bool)
    requires
        is_sorted_by(s, by_rank),
    ensures
        stably_sorted(s, by_rank) == s,
    decreases s.len(),
{
    if s.len() > 0 {
        let front = s.drop_last();
        assert(is_sorted_by(front, by_rank));
        lemma_sorting_sorted_cards(front, by_rank);
    }
}

/// Two sequences in ascending card order that hold the same cards as often
/// are the same sequence: the order of cards leaves a sort no choice.
pub proof fn lemma_sorted_cards_are_unique(a: Seq<Card>, b: Seq<Card>)
    requires
        is_sorted(a),
        is_sorted(b),
        a.to_multiset() == b.to_multiset(),
    ensures
        a == b,
{
    let leq = |x: Card, y: Card| x.key() <= y.key();
    assert(total_ordering(leq));
    lemma_sorted_unique(a, b, leq);
}

/// The cards of `s` whose key is `key`, in their order.
pub open spec fn with_key(s: Seq<Card>, by_rank: bool, key: int) -> Seq<Card> {
    s.filter(|card: Card| sort_key(card, by_rank) == key)
}

/// Sorting is stable: the cards of one key stand in the sorted sequence in
/// the order that they have in the input. With the ascent of the keys this
/// says of each position which card stands there.
pub proof fn lemma_sorting_is_stable(s: Seq<Card>, by_rank: bool, key: int)
    ensures
        with_key(stably_sorted(s, by_rank), by_rank, key) == with_key(s, by_rank, key),
    decreases s.len(),
{
    if s.len() > 0 {
        let pred = |card: Card| sort_key(card, by_rank) == key;
        let card = s.last();
        let front = stably_sorted(s.drop_last(), by_rank);
        let p = insert_position(front, card, by_rank);
        let lower = front.subrange(0, p);
        let upper = front.subrange(p, front.len() as int);
        lemma_sorting_is_stable(s.drop_last(), by_rank, key);
        lemma_insert_position(front, card, by_rank);
        assert(s == s.drop_last().push(card));
        s.drop_last().lemma_filter_push(card, pred);
        lower.lemma_filter_push(card, pred);
        assert(lower + upper == front);
        if pred(card) {
            assert(upper.all(|other: Card| !pred(other)));
            upper.lemma_all_neg_filter_empty(pred);
        }
    }
}

} // verus!
