//! Cards in words.

use crate::card::{Card, CardType, Suit};
use crate::deck::Deck;
use vstd::prelude::*;

verus! {

/// The character of the decimal digit `d`.
pub open spec fn digit(d: nat) -> char {
    if d == 0 {
        '0'
    } else if d == 1 {
        '1'
    } else if d == 2 {
        '2'
    } else if d == 3 {
        '3'
    } else if d == 4 {
        '4'
    } else if d == 5 {
        '5'
    } else if d == 6 {
        '6'
    } else if d == 7 {
        '7'
    } else if d == 8 {
        '8'
    } else {
        '9'
    }
}

/// The decimal digits of `n`, without leading zeros.
pub open spec fn decimal(n: nat) -> Seq<char>
    decreases n,
{
    if n < 10 {
        seq![digit(n)]
    } else {
        decimal(n / 10).push(digit(n % 10))
    }
}

/// The names of `cards`, separated by a comma and a space.
pub open spec fn listed(cards: Seq<Card>) -> Seq<char>
    decreases cards.len(),
{
    if cards.len() == 0 {
        Seq::empty()
    } else if cards.len() == 1 {
        cards[0].name()
    } else {
        listed(cards.drop_last()) + ", "@ + cards.last().name()
    }
}

fn digit_str(d: u8) -> (s: &'static str)
    requires
        d < 10,
    ensures
        s@ == seq![digit(d as nat)],
{
    proof {
        reveal_strlit("0");
        reveal_strlit("1");
        reveal_strlit("2");
        reveal_strlit("3");
        reveal_strlit("4");
        reveal_strlit("5");
        reveal_strlit("6");
        reveal_strlit("7");
        reveal_strlit("8");
        reveal_strlit("9");
    }
    if d == 0 {
        "0"
    } else if d == 1 {
        "1"
    } else if d == 2 {
        "2"
    } else if d == 3 {
        "3"
    } else if d == 4 {
        "4"
    } else if d == 5 {
        "5"
    } else if d == 6 {
        "6"
    } else if d == 7 {
        "7"
    } else if d == 8 {
        "8"
    } else {
        "9"
    }
}

/// Writes a number in decimal digits.
fn decimal_string(n: u8) -> (s: String)
    ensures
        s@ == decimal(n as nat),
{
    let mut s = String::new();
    if n >= 100 {
        s.append(digit_str(n / 100));
    }
    if n >= 10 {
        s.append(digit_str((n / 10) % 10));
    }
    s.append(digit_str(n % 10));
    proof {
        reveal_with_fuel(decimal, 3);
    }
    s
}

impl Suit {
    /// The name of the suit.
    pub open spec fn name(self) -> Seq<char> {
        match self {
            Suit::Spade => "Spades"@,
            Suit::Heart => "Hearts"@,
            Suit::Club => "Clubs"@,
            Suit::Diamond => "Diamonds"@,
        }
    }

    /// The name of the suit.
    pub fn to_string(&self) -> (s: String)
        ensures
            s@ == self.name(),
    {
        match self {
            Suit::Spade => String::from_str("Spades"),
            Suit::Heart => String::from_str("Hearts"),
            Suit::Club => String::from_str("Clubs"),
            Suit::Diamond => String::from_str("Diamonds"),
        }
    }
}

impl CardType {
    /// The name of the rank: a numeral in decimal digits, the other ranks in
    /// words.
    pub open spec fn name(self) -> Seq<char> {
        match self {
            CardType::Ace => "Ace"@,
            CardType::Jack => "Jack"@,
            CardType::Queen => "Queen"@,
            CardType::King => "King"@,
            CardType::Number(n) => decimal(n as nat),
        }
    }

    /// The name of the rank.
    pub fn to_string(&self) -> (s: String)
        ensures
            s@ == self.name(),
    {
        match self {
            CardType::Ace => String::from_str("Ace"),
            CardType::Jack => String::from_str("Jack"),
            CardType::Queen => String::from_str("Queen"),
            CardType::King => String::from_str("King"),
            CardType::Number(n) => decimal_string(*n),
        }
    }
}

impl Card {
    /// The name of the card: its rank, ` of `, its suit.
    pub open spec fn name(self) -> Seq<char> {
        self.card_type.name() + " of "@ + self.suit.name()
    }

    /// The name of the card.
    pub fn to_string(&self) -> (s: String)
        ensures
            s@ == self.name(),
    {
        let mut s = self.card_type.to_string();
        s.append(" of ");
        let suit = self.suit.to_string();
        s.append(suit.as_str());
        s
    }
}

impl Deck {
    /// The deck in words: the names of its cards from front to back,
    /// separated by a comma and a space, in square brackets.
    pub open spec fn name(self) -> Seq<char> {
        "["@ + listed(self@) + "]"@
    }

    /// The deck in words.
    pub fn to_string(&self) -> (s: String)
        ensures
            s@ == self.name(),
    {
        let mut s = String::from_str("[");
        let mut i: usize = 0;
        while i < self.cards.len()
            invariant
                i <= self.cards@.len(),
                s@ == "["@ + listed(self.cards@.take(i as int)),
            decreases self.cards@.len() - i,
        {
            let ghost upto = self.cards@.take(i + 1);
            proof {
                assert(upto.drop_last() =~= self.cards@.take(i as int));
            }
            if i > 0 {
                s.append(", ");
            }
            let card = self.cards[i].to_string();
            s.append(card.as_str());
            i += 1;
        }
        proof {
            assert(self.cards@.take(i as int) =~= self.cards@);
        }
        s.append("]");
        s
    }
}

} // verus!
