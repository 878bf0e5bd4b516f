//! Pairs of cards of one rank.
//!
//! Cards that stand side by side and share a rank leave the sequence two by
//! two, from the front. On cards grouped by rank this takes every pair there
//! is: of a rank with an odd number of cards one card stays, of a rank with
//! an even number none.

use crate::card::{Card, CardType};
use crate::order::{
    is_sorted_by, lemma_sorting_is_stable, lemma_sorting_sorted_cards, lemma_stably_sorted,
    rank_sorted, sort_key, with_key,
};
use vstd::multiset::Multiset;
use vstd::prelude::*;
use vstd::seq_lib::lemma_multiset_commutative;

verus! {

/// The cards that leave `s` as pairs, in the order in which they leave.
pub open spec fn paired(s: Seq<Card>) -> Seq<Card>
    decreases s.len(),
{
    if s.len() < 2 {
        Seq::empty()
    } else if s[0].card_type == s[1].card_type {
        seq![s[0], s[1]] + paired(s.skip(2))
    } else {
        paired(s.skip(1))
    }
}

/// The cards that stay in `s` when the pairs have left, in their order.
pub open spec fn unpaired(s: Seq<Card>) -> Seq<Card>
    decreases s.len(),
{
    if s.len() < 2 {
        s
    } else if s[0].card_type == s[1].card_type {
        unpaired(s.skip(2))
    } else {
        seq![s[0]] + unpaired(s.skip(1))
    }
}

/// Whether no two cards of `s` share a rank.
pub open spec fn ranks_are_distinct(s: Seq<Card>) -> bool {
    forall|i: int, j: int|
        0 <= i < j < s.len() ==> (#[trigger] s[i]).card_type != (#[trigger] s[j]).card_type
}

/// Whether the ranks of `s` strictly ascend.
pub open spec fn ranks_ascend(s: Seq<Card>) -> bool {
    forall|i: int, j: int|
        0 <= i < j < s.len() ==> (#[trigger] s[i]).card_type.key() < (
        #[trigger] s[j]).card_type.key()
}

/// Pairing moves cards and makes none: the pairs and the rest together are
/// the cards of `s`, and the pairs are an even number of cards.
pub proof fn lemma_pairing_conserves_cards(s: Seq<Card>)
    ensures
        paired(s).to_multiset().add(unpaired(s).to_multiset()) == s.to_multiset(),
        paired(s).len() + unpaired(s).len() == s.len(),
        paired(s).len() % 2 == 0,
    decreases s.len(),
{
    broadcast use vstd::multiset::group_multiset_axioms;

    if s.len() < 2 {
        assert(paired(s).to_multiset() =~= Multiset::<Card>::empty()) by {
            paired(s).to_multiset_ensures();
        }
    } else if s[0].card_type == s[1].card_type {
        let head = seq![s[0], s[1]];
        lemma_pairing_conserves_cards(s.skip(2));
        lemma_multiset_commutative(head, paired(s.skip(2)));
        lemma_multiset_commutative(head, s.skip(2));
        assert(s == head + s.skip(2));
    } else {
        let head = seq![s[0]];
        lemma_pairing_conserves_cards(s.skip(1));
        lemma_multiset_commutative(head, unpaired(s.skip(1)));
        lemma_multiset_commutative(head, s.skip(1));
        assert(s == head + s.skip(1));
    }
}

/// The pairs are pairs: the cards at positions `2 k` and `2 k + 1` of what
/// left share a rank.
pub proof fn lemma_pairs_share_a_rank(s: Seq<Card>, k: int)
    requires
        0 <= k,
        2 * k + 1 < paired(s).len(),
    ensures
        paired(s)[2 * k].card_type == paired(s)[2 * k + 1].card_type,
    decreases s.len(),
{
    if s.len() >= 2 {
        if s[0].card_type != s[1].card_type {
            lemma_pairs_share_a_rank(s.skip(1), k);
        } else if k > 0 {
            lemma_pairs_share_a_rank(s.skip(2), k - 1);
        }
    }
}

/// Every card that stays was a card of `s`, at no lower rank than the first
/// card of `s` when `s` is grouped by rank.
proof fn lemma_unpaired_ranks_are_bounded(s: Seq<Card>, k: int)
    requires
        is_sorted_by(s, true),
        0 <= k < unpaired(s).len(),
    ensures
        s.len() > 0,
        unpaired(s)[k].card_type.key() >= s[0].card_type.key(),
    decreases s.len(),
{
    if s.len() >= 2 {
        if s[0].card_type == s[1].card_type {
            lemma_unpaired_ranks_are_bounded(s.skip(2), k);
        } else if k > 0 {
            lemma_unpaired_ranks_are_bounded(s.skip(1), k - 1);
        }
    }
}

/// On cards grouped by rank, pairing leaves no pair behind: the ranks of the
/// cards that stay strictly ascend, so no two of them share a rank.
pub proof fn lemma_no_pair_stays(s: Seq<Card>)
    requires
        is_sorted_by(s, true),
    ensures
        ranks_ascend(unpaired(s)),
        ranks_are_distinct(unpaired(s)),
    decreases s.len(),
{
    if s.len() >= 2 {
        if s[0].card_type == s[1].card_type {
            lemma_no_pair_stays(s.skip(2));
        } else {
            let rest = s.skip(1);
            let stay = unpaired(s);
            lemma_no_pair_stays(rest);
            assert forall|i: int, j: int| 0 <= i < j < stay.len() implies (
            #[trigger] stay[i]).card_type.key() < (#[trigger] stay[j]).card_type.key() by {
                if i == 0 {
                    lemma_unpaired_ranks_are_bounded(rest, j - 1);
                }
            }
        }
    }
}

/// Among cards of distinct ranks there is no pair: nothing leaves and all
/// cards stay.
pub proof fn lemma_distinct_ranks_hold_no_pair(s: Seq<Card>)
    requires
        ranks_are_distinct(s),
    ensures
        paired(s) == Seq::<Card>::empty(),
        unpaired(s) == s,
    decreases s.len(),
{
    if s.len() >= 2 {
        let rest = s.skip(1);
        assert forall|i: int, j: int| 0 <= i < j < rest.len() implies (
        #[trigger] rest[i]).card_type != (#[trigger] rest[j]).card_type by {
        }
        lemma_distinct_ranks_hold_no_pair(rest);
    }
}

/// Taking the pairs out of a hand is idempotent. After the hand has been
/// grouped by rank and its pairs have left, no two cards that stay share a
/// rank; grouping and pairing what stays a second time takes nothing out and
/// leaves the same cards in the same order.
pub proof fn lemma_pairing_twice(hand: Seq<Card>)
    ensures
        ranks_are_distinct(unpaired(rank_sorted(hand))),
        paired(rank_sorted(unpaired(rank_sorted(hand)))) == Seq::<Card>::empty(),
        unpaired(rank_sorted(unpaired(rank_sorted(hand)))) == unpaired(rank_sorted(hand)),
{
    let rest = unpaired(rank_sorted(hand));
    lemma_stably_sorted(hand, true);
    lemma_no_pair_stays(rank_sorted(hand));
    lemma_sorting_sorted_cards(rest, true);
    lemma_distinct_ranks_hold_no_pair(rest);
}

/// The cards of `s` that have the rank `rank`, in their order.
pub open spec fn of_rank(s: Seq<Card>, rank: CardType) -> Seq<Card> {
    with_key(s, true, rank.key())
}

/// The cards of a rank in `s` are the first card, if it has the rank, and
/// the cards of the rank in the rest.
proof fn lemma_of_rank_from_front(s: Seq<Card>, rank: CardType)
    requires
        s.len() > 0,
    ensures
        of_rank(s, rank).len() == of_rank(s.skip(1), rank).len() + if s[0].card_type == rank {
            1int
        } else {
            0int
        },
{
    let pred = |card: Card| sort_key(card, true) == rank.key();
    let none = Seq::<Card>::empty();
    none.lemma_filter_push(s[0], pred);
    assert(none.push(s[0]) + s.skip(1) =~= s);
}

/// In cards grouped by rank, no card behind two neighbours of different
/// ranks has the rank of the first.
proof fn lemma_rank_ends_at_a_step(s: Seq<Card>)
    requires
        is_sorted_by(s, true),
        s.len() >= 2,
        s[0].card_type != s[1].card_type,
    ensures
        of_rank(s.skip(1), s[0].card_type).len() == 0,
{
    let rest = s.skip(1);
    let pred = |card: Card| sort_key(card, true) == s[0].card_type.key();
    assert forall|k: int| 0 <= k < rest.len() implies !pred(#[trigger] rest[k]) by {
    }
    rest.lemma_all_neg_filter_empty(pred);
}

/// In cards grouped by rank the cards of each rank leave two by two: of a
/// rank with an odd number of cards one card stays, of a rank with an even
/// number none.
pub proof fn lemma_pairs_of_sorted_cards(s: Seq<Card>, rank: CardType)
    requires
        is_sorted_by(s, true),
    ensures
        of_rank(unpaired(s), rank).len() == of_rank(s, rank).len() % 2,
        of_rank(paired(s), rank).len() == of_rank(s, rank).len() - of_rank(s, rank).len() % 2,
    decreases s.len(),
{
    if s.len() >= 2 {
        if s[0].card_type == s[1].card_type {
            let rest = s.skip(2);
            lemma_pairs_of_sorted_cards(rest, rank);
            lemma_of_rank_from_front(s, rank);
            lemma_of_rank_from_front(s.skip(1), rank);
            assert(s.skip(1).skip(1) =~= rest);
            lemma_of_rank_from_front(paired(s), rank);
            lemma_of_rank_from_front(paired(s).skip(1), rank);
            assert(paired(s).skip(1).skip(1) =~= paired(rest));
        } else {
            let rest = s.skip(1);
            lemma_pairs_of_sorted_cards(rest, rank);
            lemma_of_rank_from_front(s, rank);
            lemma_of_rank_from_front(unpaired(s), rank);
            assert(unpaired(s).skip(1) =~= unpaired(rest));
            if s[0].card_type == rank {
                lemma_rank_ends_at_a_step(s);
            }
        }
    }
}

/// What taking the pairs out of a hand does, rank by rank: of the cards of
/// a rank all leave when they are an even number, and all but one when they
/// are an odd number.
pub proof fn lemma_pairs_by_rank(hand: Seq<Card>, rank: CardType)
    ensures
        of_rank(unpaired(rank_sorted(hand)), rank).len() == of_rank(hand, rank).len() % 2,
        of_rank(paired(rank_sorted(hand)), rank).len() == of_rank(hand, rank).len() - of_rank(
            hand,
            rank,
        ).len() % 2,
{
    lemma_stably_sorted(hand, true);
    lemma_sorting_is_stable(hand, true, rank.key());
    lemma_pairs_of_sorted_cards(rank_sorted(hand), rank);
}

} // verus!
