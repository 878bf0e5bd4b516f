//! Decks: ordered sequences of cards.
//!
//! One type serves as the shared draw pile, as a player's hand, as a burn
//! pile and as the container of pairs that were taken out of a hand. The
//! view of a deck is the sequence of its cards, front first.

use crate::card::{Card, CardType, Suit};
use crate::order::{
    insert_position, is_sorted, lemma_stably_sorted, rank_sorted, sort_key, stably_sorted,
};
use crate::pairing::{
    lemma_no_pair_stays, lemma_pairing_conserves_cards, paired, ranks_are_distinct, unpaired,
};
use crate::player::Player;
use crate::random::{random_below, thread_rng};
use crate::shuffling::{
    lemma_shuffled_is_permutation, lemma_shuffled_upto_is_permutation, partner, picks_fit,
    shuffled, shuffled_upto,
};
use crate::standard::{lemma_standard_cards, rank_of, standard_card, standard_cards, suit_of};
use rand::rngs::ThreadRng;
use vstd::prelude::*;

verus! {

/// An ordered sequence of cards; the front of the sequence is the top of
/// the deck.
#[derive(Debug, Clone, PartialEq, Eq)]
pub struct Deck {
    pub cards: Vec<Card>,
}

impl View for Deck {
    type V = Seq<Card>;

    open spec fn view(&self) -> Seq<Card> {
        self.cards@
    }
}

/// The position of the first card of `rank` in `s`, if `s` holds one.
pub open spec fn first_of_rank(s: Seq<Card>, rank: CardType) -> Option<int>
    decreases s.len(),
{
    if s.len() == 0 {
        None
    } else {
        match first_of_rank(s.drop_last(), rank) {
            Some(i) => Some(i),
            None => if s.last().card_type == rank {
                Some(s.len() - 1)
            } else {
                None
            },
        }
    }
}

/// The cards that player `j` of `players` gets when `rounds` rounds are dealt
/// from the front of `cards`, one card to each player in each round.
pub open spec fn dealt_to(cards: Seq<Card>, rounds: int, players: int, j: int) -> Seq<Card> {
    Seq::new(rounds as nat, |round: int| cards[round * players + j])
}

/// `first_of_rank` finds a card of the rank with no card of the rank before
/// it, and finds none only where there is none.
pub proof fn lemma_first_of_rank(s: Seq<Card>, rank: CardType)
    ensures
        match first_of_rank(s, rank) {
            Some(i) => {
                &&& 0 <= i < s.len()
                &&& s[i].card_type == rank
                &&& forall|j: int| 0 <= j < i ==> (#[trigger] s[j]).card_type != rank
            },
            None => forall|j: int| 0 <= j < s.len() ==> (#[trigger] s[j]).card_type != rank,
        },
    decreases s.len(),
{
    if s.len() > 0 {
        lemma_first_of_rank(s.drop_last(), rank);
        match first_of_rank(s.drop_last(), rank) {
            Some(i) => {
                assert forall|j: int| 0 <= j < i implies (#[trigger] s[j]).card_type != rank by {
                    assert(s[j] == s.drop_last()[j]);
                }
            },
            None => {
                assert forall|j: int| 0 <= j < s.len() - 1 implies (#[trigger] s[j]).card_type
                    != rank by {
                    assert(s[j] == s.drop_last()[j]);
                }
            },
        }
    }
}

/// A card of the rank found in a prefix of `s` is the first of `s` too.
proof fn lemma_first_of_rank_prefix(s: Seq<Card>, rank: CardType, n: int)
    requires
        0 <= n <= s.len(),
        first_of_rank(s.take(n), rank).is_some(),
    ensures
        first_of_rank(s, rank) == first_of_rank(s.take(n), rank),
    decreases s.len() - n,
{
    if n < s.len() {
        let longer = s.take(n + 1);
        assert(longer.drop_last() == s.take(n));
        lemma_first_of_rank_prefix(s, rank, n + 1);
    } else {
        assert(s.take(n) == s);
    }
}

fn sort_ordinal(card: &Card, by_rank: bool) -> (k: u16)
    ensures
        k == sort_key(*card, by_rank),
{
    if by_rank {
        card.card_type.ordinal()
    } else {
        card.ordinal()
    }
}

/// Sorts `cards` by insertion, comparing ranks alone or whole cards.
fn sort_cards(cards: &mut Vec<Card>, by_rank: bool)
    ensures
        final(cards)@ == stably_sorted(old(cards)@, by_rank),
{
    let len = cards.len();
    let mut i: usize = 0;
    while i < len
        invariant
            i <= len,
            cards@.len() == len,
            old(cards)@.len() == len,
            cards@.take(i as int) == stably_sorted(old(cards)@.take(i as int), by_rank),
            cards@.skip(i as int) == old(cards)@.skip(i as int),
        decreases len - i,
    {
        let card = cards[i];
        let key = sort_ordinal(&card, by_rank);
        let ghost front = cards@.take(i as int);
        let ghost before = cards@;
        proof {
            assert(cards@[i as int] == cards@.skip(i as int)[0]);
            assert(front.take(i as int) == front);
        }
        let mut j: usize = i;
        while j > 0 && sort_ordinal(&cards[j - 1], by_rank) > key
            invariant
                j <= i < len,
                cards@.len() == len,
                key == sort_key(card, by_rank),
                front.len() == i,
                cards@.take(j as int) == front.take(j as int),
                forall|k: int| j < k <= i ==> cards@[k] == front[k - 1],
                cards@.skip(i + 1) == before.skip(i + 1),
                insert_position(front, card, by_rank) == insert_position(
                    front.take(j as int),
                    card,
                    by_rank,
                ),
            decreases j,
        {
            let shifted = cards[j - 1];
            proof {
                assert(front.take(j as int).drop_last() == front.take(j - 1));
            }
            cards[j] = shifted;
            j -= 1;
        }
        cards[j] = card;
        proof {
            let p = insert_position(front, card, by_rank);
            let whole = old(cards)@.take(i + 1);
            assert(whole.drop_last() == old(cards)@.take(i as int));
            assert(cards@.take(i + 1) =~= front.insert(p, card));
            assert(cards@.skip(i + 1) =~= old(cards)@.skip(i + 1)) by {
                assert forall|k: int| 0 <= k < len - i - 1 implies #[trigger] cards@.skip(i + 1)[k]
                    == old(cards)@.skip(i + 1)[k] by {
                    assert(before.skip(i + 1)[k] == before[k + i + 1]);
                    assert(before[k + i + 1] == before.skip(i as int)[k + 1]);
                }
            }
        }
        i += 1;
    }
    proof {
        assert(old(cards)@.take(len as int) == old(cards)@);
    }
}

fn standard_rank(i: u8) -> (rank: CardType)
    requires
        i < 13,
    ensures
        rank == rank_of(i as int),
{
    if i <= 8 {
        CardType::Number(i + 2)
    } else if i == 9 {
        CardType::Jack
    } else if i == 10 {
        CardType::Queen
    } else if i == 11 {
        CardType::King
    } else {
        CardType::Ace
    }
}

fn standard_suit(i: u8) -> (suit: Suit)
    requires
        i < 4,
    ensures
        suit == suit_of(i as int),
{
    if i == 0 {
        Suit::Spade
    } else if i == 1 {
        Suit::Heart
    } else if i == 2 {
        Suit::Club
    } else {
        Suit::Diamond
    }
}

/// Draws one pick for each step of a shuffle of `len` cards.
fn draw_picks(rng: &mut ThreadRng, len: usize) -> (picks: Vec<usize>)
    ensures
        picks_fit(picks@, len as int),
{
    let mut picks: Vec<usize> = Vec::new();
    if len < 2 {
        return picks;
    }
    let mut step: usize = 0;
    while step < len - 1
        invariant
            len >= 2,
            step <= len - 1,
            picks@.len() == step,
            forall|k: int| 0 <= k < step ==> #[trigger] picks@[k] < len - k,
        decreases len - 1 - step,
    {
        let pick = random_below(rng, len - step);
        picks.push(pick);
        step += 1;
    }
    picks
}

impl Deck {
    /// The standard deck: 52 cards, one for each pair of a suit and a rank,
    /// in ascending card order.
    pub fn new() -> (deck: Deck)
        ensures
            deck@ == standard_cards(),
            deck@.len() == 52,
            deck@.no_duplicates(),
            is_sorted(deck@),
    {
        proof {
            lemma_standard_cards();
        }
        let mut cards: Vec<Card> = Vec::new();
        let mut i: u8 = 0;
        while i < 52
            invariant
                i <= 52,
                cards@.len() == i,
                forall|k: int| 0 <= k < i ==> cards@[k] == standard_card(k),
            decreases 52 - i,
        {
            cards.push(Card::new(standard_suit(i % 4), standard_rank(i / 4)));
            i += 1;
        }
        Deck { cards }
    }

    /// A deck without cards.
    pub fn empty() -> (deck: Deck)
        ensures
            deck@ == Seq::<Card>::empty(),
    {
        Deck { cards: Vec::new() }
    }

    /// Shuffles the deck: for each position from the last down to the second,
    /// the card there changes places with the card at a position drawn at
    /// random among the positions up to and including it. A deck of no card or
    /// one card stays as it is. Whatever is drawn, the deck keeps its cards.
    pub fn shuffle(&mut self)
        ensures
            final(self)@.to_multiset() == old(self)@.to_multiset(),
            final(self)@.len() == old(self)@.len(),
            exists|picks: Seq<usize>|
                picks_fit(picks, old(self)@.len() as int) && final(self)@ == #[trigger] shuffled(
                    old(self)@,
                    picks,
                ),
    {
        let mut rng = thread_rng();
        let picks = draw_picks(&mut rng, self.cards.len());
        self.shuffle_with(&picks);
    }

    /// Shuffles the deck with the picks given: for each position from the
    /// last down to the second, the card there changes places with the card
    /// at the partner position that the pick of that step names. The deck
    /// keeps its cards.
    pub fn shuffle_with(&mut self, picks: &Vec<usize>)
        ensures
            final(self)@ == shuffled(old(self)@, picks@),
            final(self)@.to_multiset() == old(self)@.to_multiset(),
            final(self)@.len() == old(self)@.len(),
    {
        let len = self.cards.len();
        let mut step: usize = 0;
        proof {
            lemma_shuffled_is_permutation(self@, picks@);
        }
        if len < 2 {
            return ;
        }
        while step < len - 1
            invariant
                len >= 2,
                len == old(self)@.len(),
                step <= len - 1,
                self.cards@ == shuffled_upto(old(self)@, picks@, step as nat),
            decreases len - 1 - step,
        {
            let i = len - 1 - step;
            let j = if step < picks.len() {
                picks[step] % (i + 1)
            } else {
                i
            };
            proof {
                lemma_shuffled_upto_is_permutation(old(self)@, picks@, step as nat);
            }
            let upper = self.cards[i];
            let lower = self.cards[j];
            self.cards[i] = lower;
            self.cards[j] = upper;
            step += 1;
        }
    }

    /// Sorts the cards into ascending card order. The deck keeps its cards,
    /// each as often as before; the order of cards admits one such sequence.
    pub fn sort(&mut self)
        ensures
            is_sorted(final(self)@),
            final(self)@.to_multiset() == old(self)@.to_multiset(),
            final(self)@ == stably_sorted(old(self)@, false),
    {
        proof {
            lemma_stably_sorted(self@, false);
        }
        sort_cards(&mut self.cards, false);
    }

    /// Takes the card at the front, if there is one.
    pub fn take_card(&mut self) -> (taken: Option<Card>)
        ensures
            old(self)@.len() == 0 ==> taken.is_none() && final(self)@ == old(self)@,
            old(self)@.len() > 0 ==> taken == Some(old(self)@[0]) && final(self)@ == old(self)@.skip(
                1,
            ),
    {
        if self.cards.len() == 0 {
            None
        } else {
            Some(self.cards.remove(0))
        }
    }

    /// Puts `card` at the back.
    pub fn give_card(&mut self, card: Card)
        ensures
            final(self)@ == old(self)@.push(card),
    {
        self.cards.push(card)
    }

    /// Moves all of `cards` to the back, in their order, and leaves `cards`
    /// empty.
    pub fn give_cards(&mut self, cards: &mut Vec<Card>)
        ensures
            final(self)@ == old(self)@ + old(cards)@,
            final(cards)@ == Seq::<Card>::empty(),
    {
        self.cards.append(cards);
    }

    /// Moves the cards of `deck` to the back, in their order, and leaves
    /// `deck` empty.
    pub fn give_deck(&mut self, deck: &mut Deck)
        ensures
            final(self)@ == old(self)@ + old(deck)@,
            final(deck)@ == Seq::<Card>::empty(),
    {
        self.give_cards(&mut deck.cards);
    }

    /// Takes the pairs out of the deck. The cards are first grouped by
    /// ascending rank, each group in the order it had; then cards that stand
    /// side by side and share a rank leave two by two, from the front. What
    /// comes back holds the cards that left, in that order; the deck keeps the
    /// others, grouped by rank, and no two of them share a rank.
    pub fn pairs(&mut self) -> (pairs: Deck)
        ensures
            pairs@ == paired(rank_sorted(old(self)@)),
            final(self)@ == unpaired(rank_sorted(old(self)@)),
            ranks_are_distinct(final(self)@),
            pairs@.to_multiset().add(final(self)@.to_multiset()) == old(self)@.to_multiset(),
    {
        proof {
            lemma_stably_sorted(self@, true);
            lemma_no_pair_stays(rank_sorted(self@));
            lemma_pairing_conserves_cards(rank_sorted(self@));
        }
        sort_cards(&mut self.cards, true);
        let ghost sorted = self.cards@;
        let mut pairs: Vec<Card> = Vec::new();
        let mut i: usize = 1;
        proof {
            assert(self.cards@.skip(0) =~= sorted);
        }
        loop
            invariant
                1 <= i <= self.cards@.len() + 1,
                unpaired(sorted) == self.cards@.take(i - 1) + unpaired(self.cards@.skip(i - 1)),
                paired(sorted) == pairs@ + paired(self.cards@.skip(i - 1)),
                sorted == rank_sorted(old(self)@),
            ensures
                pairs@ == paired(sorted),
                self.cards@ == unpaired(sorted),
                sorted == rank_sorted(old(self)@),
            decreases 2 * self.cards@.len() + 1 - i,
        {
            if i >= self.cards.len() {
                break ;
            }
            let ghost before = self.cards@;
            let ghost rest = before.skip(i - 1);
            if self.cards[i].card_type == self.cards[i - 1].card_type {
                let later = self.cards.remove(i);
                let earlier = self.cards.remove(i - 1);
                pairs.push(earlier);
                pairs.push(later);
                proof {
                    assert(self.cards@.skip(i - 1) =~= rest.skip(2));
                }
            } else {
                proof {
                    assert(before.skip(i as int) =~= rest.skip(1));
                }
                i += 1;
            }
        }
        Deck { cards: pairs }
    }

    /// Takes the first card of the rank `card_type` out of the deck, if the
    /// deck holds one; the other cards keep their order.
    pub fn find_type(&mut self, card_type: &CardType) -> (found: Option<Card>)
        ensures
            match first_of_rank(old(self)@, *card_type) {
                Some(i) => found == Some(old(self)@[i]) && final(self)@ == old(self)@.remove(i),
                None => found.is_none() && final(self)@ == old(self)@,
            },
    {
        let mut i: usize = 0;
        while i < self.cards.len()
            invariant
                i <= self.cards@.len(),
                self.cards@ == old(self)@,
                first_of_rank(old(self)@.take(i as int), *card_type).is_none(),
            decreases self.cards@.len() - i,
        {
            proof {
                let upto = old(self)@.take(i + 1);
                assert(upto.drop_last() == old(self)@.take(i as int));
            }
            if self.cards[i].card_type == *card_type {
                proof {
                    lemma_first_of_rank_prefix(old(self)@, *card_type, i + 1);
                }
                let card = self.cards.remove(i);
                return Some(card);
            }
            i += 1;
        }
        proof {
            assert(old(self)@.take(i as int) == old(self)@);
        }
        None
    }

    /// Deals `n_cards` rounds from the front of the deck: in each round every
    /// player, in the order of `players`, gets the next card at the back of
    /// the hand. The deck must hold a card for every player and round. The
    /// burn piles stay as they are, and `players` holds the same players in
    /// the same order afterwards.
    pub fn deal(&mut self, n_cards: usize, players: &mut Vec<&mut Player>)
        requires
            old(self)@.len() >= n_cards * old(players)@.len(),
        ensures
            final(self)@ == old(self)@.skip(n_cards * old(players)@.len()),
            final(players)@.len() == old(players)@.len(),
            forall|j: int|
                #![trigger final(players)@[j]]
                0 <= j < old(players)@.len() ==> {
                    &&& (*final(players)@[j]).hand@ == (*old(players)@[j]).hand@ + dealt_to(
                        old(self)@,
                        n_cards as int,
                        old(players)@.len() as int,
                        j,
                    )
                    &&& (*final(players)@[j]).burn_pile == (*old(players)@[j]).burn_pile
                    &&& *final(final(players)@[j]) == *final(old(players)@[j])
                },
    {
        let len = players.len();
        let ghost deck = self.cards@;
        let mut round: usize = 0;
        while round < n_cards
            invariant
                round <= n_cards,
                deck == old(self)@,
                len == old(players)@.len(),
                players@.len() == len,
                deck.len() >= n_cards * len,
                self.cards@ == deck.skip(round * len),
                forall|j: int|
                    #![trigger players@[j]]
                    0 <= j < len ==> {
                        &&& (*players@[j]).hand@ == (*old(players)@[j]).hand@ + dealt_to(
                            deck,
                            round as int,
                            len as int,
                            j,
                        )
                        &&& (*players@[j]).burn_pile == (*old(players)@[j]).burn_pile
                        &&& *final(players@[j]) == *final(old(players)@[j])
                    },
            decreases n_cards - round,
        {
            let mut j: usize = 0;
            proof {
                assert((round + 1) * len <= n_cards * len) by (nonlinear_arith)
                    requires
                        round < n_cards,
                ;
                assert((round + 1) * len == round * len + len) by (nonlinear_arith);
            }
            while j < len
                invariant
                    j <= len,
                    round < n_cards,
                    deck == old(self)@,
                    len == old(players)@.len(),
                    players@.len() == len,
                    round * len + len <= deck.len(),
                    self.cards@ == deck.skip(round * len + j),
                    forall|k: int|
                        #![trigger players@[k]]
                        0 <= k < len ==> {
                            &&& (*players@[k]).hand@ == (*old(players)@[k]).hand@ + dealt_to(
                                deck,
                                if k < j {
                                    round + 1
                                } else {
                                    round as int
                                },
                                len as int,
                                k,
                            )
                            &&& (*players@[k]).burn_pile == (*old(players)@[k]).burn_pile
                            &&& *final(players@[k]) == *final(old(players)@[k])
                        },
                decreases len - j,
            {
                let card = self.cards.remove(0);
                players[j].hand.cards.push(card);
                j += 1;
            }
            round += 1;
        }
    }
}

impl Default for Deck {
    /// The standard deck.
    fn default() -> (deck: Deck)
        ensures
            deck@ == standard_cards(),
    {
        Deck::new()
    }
}

} // verus!
