//! Suits, ranks and cards, with their total order.
//!
//! Every value is a small copyable tag. The order of each type is given by
//! an integer key, so that `a < b` holds exactly when the key of `a` is
//! below the key of `b`.

use std::cmp::Ordering;
use vstd::prelude::*;
use vstd::std_specs::cmp::{PartialOrdSpec, PartialOrdSpecImpl};

verus! {

/// One of the four suits, in ascending order.
#[derive(Debug, Clone, Copy, PartialEq, Eq, Structural, Ord, Hash)]
pub enum Suit {
    Spade,
    Heart,
    Club,
    Diamond,
}

/// The rank of a card, in ascending order: numerals by their value, then
/// jack, queen, king and ace.
#[derive(Debug, Clone, Copy, PartialEq, Eq, Structural, Ord, Hash)]
pub enum CardType {
    Number(u8),
    Jack,
    Queen,
    King,
    Ace,
}

/// A playing card. Cards are ordered by rank first and by suit among cards
/// of one rank; two cards are equal when both rank and suit are.
#[derive(Debug, Clone, Copy, PartialEq, Eq, Structural, Ord, Hash)]
pub struct Card {
    pub card_type: CardType,
    pub suit: Suit,
}

/// How two keys compare.
pub open spec fn key_order(a: int, b: int) -> Option<Ordering> {
    if a < b {
        Some(Ordering::Less)
    } else if a > b {
        Some(Ordering::Greater)
    } else {
        Some(Ordering::Equal)
    }
}

fn compare_keys(a: u16, b: u16) -> (r: Option<Ordering>)
    ensures
        a < b ==> r == Some(Ordering::Less),
        a > b ==> r == Some(Ordering::Greater),
        a == b ==> r == Some(Ordering::Equal),
{
    if a < b {
        Some(Ordering::Less)
    } else if a > b {
        Some(Ordering::Greater)
    } else {
        Some(Ordering::Equal)
    }
}

impl Suit {
    /// Position of the suit in the order of suits.
    pub open spec fn key(self) -> int {
        match self {
            Suit::Spade => 0,
            Suit::Heart => 1,
            Suit::Club => 2,
            Suit::Diamond => 3,
        }
    }

    /// The key as a machine integer.
    pub fn ordinal(&self) -> (k: u16)
        ensures
            k == self.key(),
    {
        match self {
            Suit::Spade => 0,
            Suit::Heart => 1,
            Suit::Club => 2,
            Suit::Diamond => 3,
        }
    }
}

impl CardType {
    /// Position of the rank in the order of ranks: a numeral's own value,
    /// and the four other ranks above every numeral.
    pub open spec fn key(self) -> int {
        match self {
            CardType::Number(n) => n as int,
            CardType::Jack => 256,
            CardType::Queen => 257,
            CardType::King => 258,
            CardType::Ace => 259,
        }
    }

    /// The key as a machine integer.
    pub fn ordinal(&self) -> (k: u16)
        ensures
            k == self.key(),
    {
        match self {
            CardType::Number(n) => *n as u16,
            CardType::Jack => 256,
            CardType::Queen => 257,
            CardType::King => 258,
            CardType::Ace => 259,
        }
    }

    /// Whether the rank occurs in a standard deck.
    pub open spec fn is_standard(self) -> bool {
        self matches CardType::Number(n) ==> 2 <= n <= 10
    }
}

impl Card {
    /// Position of the card in the order of cards: rank first, suit second.
    pub open spec fn key(self) -> int {
        self.card_type.key() * 4 + self.suit.key()
    }

    /// Whether `self` comes strictly before `other`.
    pub open spec fn precedes(self, other: Card) -> bool {
        self.key() < other.key()
    }

    pub fn new(suit: Suit, card_type: CardType) -> (card: Card)
        ensures
            card.suit == suit,
            card.card_type == card_type,
    {
        Card { card_type, suit }
    }

    /// The key as a machine integer.
    pub fn ordinal(&self) -> (k: u16)
        ensures
            k == self.key(),
    {
        self.card_type.ordinal() * 4 + self.suit.ordinal()
    }
}

impl PartialOrd for Suit {
    fn partial_cmp(&self, other: &Suit) -> (r: Option<Ordering>) {
        compare_keys(self.ordinal(), other.ordinal())
    }
}

impl PartialOrdSpecImpl for Suit {
    open spec fn obeys_partial_cmp_spec() -> bool {
        true
    }

    open spec fn partial_cmp_spec(&self, other: &Suit) -> Option<Ordering> {
        key_order(self.key(), other.key())
    }
}

impl PartialOrd for CardType {
    fn partial_cmp(&self, other: &CardType) -> (r: Option<Ordering>) {
        compare_keys(self.ordinal(), other.ordinal())
    }
}

impl PartialOrdSpecImpl for CardType {
    open spec fn obeys_partial_cmp_spec() -> bool {
        true
    }

    open spec fn partial_cmp_spec(&self, other: &CardType) -> Option<Ordering> {
        key_order(self.key(), other.key())
    }
}

impl PartialOrd for Card {
    fn partial_cmp(&self, other: &Card) -> (r: Option<Ordering>) {
        compare_keys(self.ordinal(), other.ordinal())
    }
}

impl PartialOrdSpecImpl for Card {
    open spec fn obeys_partial_cmp_spec() -> bool {
        true
    }

    open spec fn partial_cmp_spec(&self, other: &Card) -> Option<Ordering> {
        key_order(self.key(), other.key())
    }
}

/// Distinct suits have distinct keys, and distinct ranks too.
pub proof fn lemma_keys_are_injective(a: Card, b: Card)
    ensures
        a.suit.key() == b.suit.key() <==> a.suit == b.suit,
        a.card_type.key() == b.card_type.key() <==> a.card_type == b.card_type,
        a.key() == b.key() <==> a == b,
{
}

/// The order of cards is a strict total order: no card precedes itself, of
/// two distinct cards exactly one precedes the other, and the relation is
/// transitive. `<` on cards is this relation.
pub proof fn lemma_card_order_is_strict_total(a: Card, b: Card, c: Card)
    ensures
        !a.precedes(a),
        a != b ==> (a.precedes(b) <==> !b.precedes(a)),
        a == b ==> !a.precedes(b) && !b.precedes(a),
        a.precedes(b) && b.precedes(c) ==> a.precedes(c),
        PartialOrdSpec::partial_cmp_spec(&a, &b) == Some(Ordering::Less) <==> a.precedes(b),
        PartialOrdSpec::partial_cmp_spec(&a, &b) == Some(Ordering::Greater) <==> b.precedes(a),
        PartialOrdSpec::partial_cmp_spec(&a, &b) == Some(Ordering::Equal) <==> a == b,
{
}

/// Rank dominates suit: a card of lower rank precedes every card of higher
/// rank, whatever the suits; among cards of one rank the suit decides.
pub proof fn lemma_rank_dominates_suit(a: Card, b: Card)
    ensures
        a.card_type.key() < b.card_type.key() ==> a.precedes(b),
        a.card_type == b.card_type ==> (a.precedes(b) <==> a.suit.key() < b.suit.key()),
{
}

} // verus!
