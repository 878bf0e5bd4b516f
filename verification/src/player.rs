//! Players: a hand and a pile of burned pairs.

use crate::card::Card;
use crate::deck::Deck;
use crate::order::rank_sorted;
use crate::pairing::{paired, unpaired};
use vstd::prelude::*;

verus! {

/// A player owns the cards in hand and the pairs already burned.
#[derive(Debug, Clone, PartialEq, Eq)]
pub struct Player {
    pub hand: Deck,
    pub burn_pile: Deck,
}

/// What a player holds, as sequences of cards.
pub struct PlayerView {
    pub hand: Seq<Card>,
    pub burn_pile: Seq<Card>,
}

impl View for Player {
    type V = PlayerView;

    open spec fn view(&self) -> PlayerView {
        PlayerView { hand: self.hand@, burn_pile: self.burn_pile@ }
    }
}

/// The pairs that a burn takes out of `hand`, if it finds any.
pub open spec fn pairs_to_burn(hand: Seq<Card>) -> Option<Seq<Card>> {
    if paired(rank_sorted(hand)).len() > 0 {
        Some(paired(rank_sorted(hand)))
    } else {
        None
    }
}

impl PlayerView {
    /// The player with `card` at the back of the hand.
    pub open spec fn given(self, card: Card) -> PlayerView {
        PlayerView { hand: self.hand.push(card), burn_pile: self.burn_pile }
    }

    /// The player after a burn: the hand is grouped by rank, its pairs have
    /// left it and lie at the back of the burn pile.
    pub open spec fn burned(self) -> PlayerView {
        PlayerView {
            hand: unpaired(rank_sorted(self.hand)),
            burn_pile: self.burn_pile + paired(rank_sorted(self.hand)),
        }
    }

    /// The number of pairs on the burn pile.
    pub open spec fn score(self) -> int {
        self.burn_pile.len() as int / 2
    }
}

impl Player {
    /// A player with an empty hand and an empty burn pile.
    pub fn new() -> (player: Player)
        ensures
            player@.hand == Seq::<Card>::empty(),
            player@.burn_pile == Seq::<Card>::empty(),
    {
        Player { hand: Deck::empty(), burn_pile: Deck::empty() }
    }

    /// Burns the pairs of the hand: they leave the hand for the back of the
    /// burn pile, and a copy of them comes back for the caller to show. Where
    /// the hand holds no pair, nothing comes back and the burn pile stays as
    /// it is; the hand is grouped by rank in either case.
    pub fn burn(&mut self) -> (burned: Option<Deck>)
        ensures
            final(self)@ == old(self)@.burned(),
            match burned {
                Some(pairs) => Some(pairs@) == pairs_to_burn(old(self)@.hand),
                None => pairs_to_burn(old(self)@.hand).is_none(),
            },
    {
        let mut pairs = self.hand.pairs();
        if pairs.cards.len() > 0 {
            let shown = Deck { cards: pairs.cards.clone() };
            self.burn_pile.give_deck(&mut pairs);
            Some(shown)
        } else {
            None
        }
    }

    /// The number of pairs on the burn pile.
    pub fn score(&self) -> (score: usize)
        ensures
            score == self@.score(),
    {
        self.burn_pile.cards.len() / 2
    }
}

impl Default for Player {
    /// A player with an empty hand and an empty burn pile.
    fn default() -> (player: Player)
        ensures
            player@.hand == Seq::<Card>::empty(),
            player@.burn_pile == Seq::<Card>::empty(),
    {
        Player::new()
    }
}

} // verus!
