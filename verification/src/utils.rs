//! From a keystroke to the rank that a player asks for.

use crate::card::CardType;
use vstd::prelude::*;

verus! {

/// The rank that the character `input` asks for: `a`, `k`, `q` and `j` for
/// ace, king, queen and jack, a digit from `2` to `9` for that numeral, and
/// `1` for the ten. No other character asks for a rank.
pub open spec fn rank_for(input: char) -> Option<CardType> {
    match input {
        'k' => Some(CardType::King),
        'q' => Some(CardType::Queen),
        'j' => Some(CardType::Jack),
        'a' => Some(CardType::Ace),
        '2' => Some(CardType::Number(2)),
        '3' => Some(CardType::Number(3)),
        '4' => Some(CardType::Number(4)),
        '5' => Some(CardType::Number(5)),
        '6' => Some(CardType::Number(6)),
        '7' => Some(CardType::Number(7)),
        '8' => Some(CardType::Number(8)),
        '9' => Some(CardType::Number(9)),
        '1' => Some(CardType::Number(10)),
        _ => None,
    }
}

/// The character that asks for `rank`, for a rank of the standard deck.
pub open spec fn key_of(rank: CardType) -> char {
    match rank {
        CardType::King => 'k',
        CardType::Queen => 'q',
        CardType::Jack => 'j',
        CardType::Ace => 'a',
        CardType::Number(n) => if n == 2 {
            '2'
        } else if n == 3 {
            '3'
        } else if n == 4 {
            '4'
        } else if n == 5 {
            '5'
        } else if n == 6 {
            '6'
        } else if n == 7 {
            '7'
        } else if n == 8 {
            '8'
        } else if n == 9 {
            '9'
        } else {
            '1'
        },
    }
}

/// Every rank of the standard deck can be asked for, by one character, and
/// nothing else can: a character asks for a rank exactly when the rank is a
/// standard one and the character is its key.
pub proof fn lemma_keys_and_ranks(input: char, rank: CardType)
    ensures
        rank_for(input) == Some(rank) <==> rank.is_standard() && key_of(rank) == input,
{
}

/// Reads a rank from a character.
pub fn card_type_char(input: char) -> (rank: Option<CardType>)
    ensures
        rank == rank_for(input),
{
    match input {
        'k' => Some(CardType::King),
        'q' => Some(CardType::Queen),
        'j' => Some(CardType::Jack),
        'a' => Some(CardType::Ace),
        '2' => Some(CardType::Number(2)),
        '3' => Some(CardType::Number(3)),
        '4' => Some(CardType::Number(4)),
        '5' => Some(CardType::Number(5)),
        '6' => Some(CardType::Number(6)),
        '7' => Some(CardType::Number(7)),
        '8' => Some(CardType::Number(8)),
        '9' => Some(CardType::Number(9)),
        '1' => Some(CardType::Number(10)),
        _ => None,
    }
}

/// The guess that a line of input makes: the rank that its first character
/// asks for. Without a character there is no guess.
pub fn guess_card_type(input: Option<char>) -> (guess: Option<CardType>)
    ensures
        guess == match input {
            Some(ch) => rank_for(ch),
            None => None,
        },
{
    match input {
        Some(ch) => card_type_char(ch),
        None => None,
    }
}

} // verus!
