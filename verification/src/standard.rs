//! The standard deck of 52 cards.

use crate::card::{Card, CardType, Suit};
use crate::order::is_sorted;
use vstd::prelude::*;

verus! {

/// The rank at position `i` of the thirteen ranks of a standard deck: the
/// numerals two to ten, jack, queen, king, ace.
pub open spec fn rank_of(i: int) -> CardType {
    if 0 <= i <= 8 {
        CardType::Number((i + 2) as u8)
    } else if i == 9 {
        CardType::Jack
    } else if i == 10 {
        CardType::Queen
    } else if i == 11 {
        CardType::King
    } else {
        CardType::Ace
    }
}

/// The suit at position `i` of the four suits.
pub open spec fn suit_of(i: int) -> Suit {
    if i == 0 {
        Suit::Spade
    } else if i == 1 {
        Suit::Heart
    } else if i == 2 {
        Suit::Club
    } else {
        Suit::Diamond
    }
}

/// The card at position `i` of a standard deck: the ranks ascend, and the
/// four suits of one rank stand side by side in the order of suits.
pub open spec fn standard_card(i: int) -> Card {
    Card { card_type: rank_of(i / 4), suit: suit_of(i % 4) }
}

/// The 52 cards of a standard deck in ascending card order.
pub open spec fn standard_cards() -> Seq<Card> {
    Seq::new(52, |i: int| standard_card(i))
}

/// Where a card of a standard rank stands in the standard deck.
pub open spec fn standard_position(card: Card) -> int {
    let rank = match card.card_type {
        CardType::Number(n) => n - 2,
        CardType::Jack => 9,
        CardType::Queen => 10,
        CardType::King => 11,
        CardType::Ace => 12,
    };
    rank * 4 + card.suit.key()
}

/// The standard deck holds 52 cards in strictly ascending card order, so no
/// card twice; each of its cards has one of the thirteen standard ranks, and
/// each pair of a suit and a standard rank is one of its cards.
pub proof fn lemma_standard_cards()
    ensures
        standard_cards().len() == 52,
        forall|i: int, j: int|
            0 <= i < j < 52 ==> (#[trigger] standard_cards()[i]).precedes(
                #[trigger] standard_cards()[j],
            ),
        is_sorted(standard_cards()),
        standard_cards().no_duplicates(),
        forall|i: int| 0 <= i < 52 ==> (#[trigger] standard_cards()[i]).card_type.is_standard(),
        forall|card: Card|
            card.card_type.is_standard() ==> 0 <= standard_position(card) < 52
                && standard_cards()[#[trigger] standard_position(card)] == card,
{
}

} // verus!
