use cards::{Card, CardType, Suit};
use std::cmp::Ordering;

fn card(suit: Suit, card_type: CardType) -> Card {
    Card::new(suit, card_type)
}

#[test]
fn suits_ascend_in_their_fixed_order() {
    assert!(Suit::Spade < Suit::Heart);
    assert!(Suit::Heart < Suit::Club);
    assert!(Suit::Club < Suit::Diamond);
    assert!(!(Suit::Diamond < Suit::Spade));
    assert_eq!(Suit::Club.partial_cmp(&Suit::Club), Some(Ordering::Equal));
    assert_eq!(Suit::Spade.cmp(&Suit::Diamond), Ordering::Less);
}

#[test]
fn ranks_ascend_from_two_to_ace() {
    assert!(CardType::Number(2) < CardType::Number(3));
    assert!(CardType::Number(9) < CardType::Number(10));
    assert!(CardType::Number(10) < CardType::Jack);
    assert!(CardType::Jack < CardType::Queen);
    assert!(CardType::Queen < CardType::King);
    assert!(CardType::King < CardType::Ace);
    assert!(CardType::Ace > CardType::Number(2));
    assert_eq!(CardType::King.cmp(&CardType::Queen), Ordering::Greater);
}

#[test]
fn rank_ordinals_follow_the_order() {
    assert_eq!(CardType::Number(2).ordinal(), 2);
    assert_eq!(CardType::Number(10).ordinal(), 10);
    assert_eq!(CardType::Jack.ordinal(), 256);
    assert_eq!(CardType::Ace.ordinal(), 259);
    assert_eq!(Suit::Diamond.ordinal(), 3);
    assert_eq!(card(Suit::Heart, CardType::Number(5)).ordinal(), 21);
    assert_eq!(card(Suit::Diamond, CardType::Ace).ordinal(), 1039);
}

#[test]
fn rank_dominates_suit() {
    let low = card(Suit::Diamond, CardType::Number(2));
    let high = card(Suit::Spade, CardType::Jack);
    assert!(low < high);
    assert!(!(high < low));
    assert!(high > low);
    assert_eq!(low.partial_cmp(&high), Some(Ordering::Less));
    assert_eq!(low.cmp(&high), Ordering::Less);
}

#[test]
fn suit_decides_among_cards_of_one_rank() {
    let spade = card(Suit::Spade, CardType::King);
    let heart = card(Suit::Heart, CardType::King);
    assert!(spade < heart);
    assert!(heart > spade);
    assert_eq!(heart.cmp(&spade), Ordering::Greater);
}

#[test]
fn of_two_distinct_cards_exactly_one_precedes() {
    let suits = [Suit::Spade, Suit::Heart, Suit::Club, Suit::Diamond];
    let ranks = [
        CardType::Number(2),
        CardType::Number(10),
        CardType::Jack,
        CardType::Queen,
        CardType::King,
        CardType::Ace,
    ];
    let mut all = Vec::new();
    for rank in ranks {
        for suit in suits {
            all.push(card(suit, rank));
        }
    }
    for a in &all {
        for b in &all {
            if a == b {
                assert!(!(a < b) && !(a > b));
                assert_eq!(a.partial_cmp(b), Some(Ordering::Equal));
            } else {
                assert!((a < b) != (a > b));
                assert_eq!(a < b, b > a);
                assert_eq!(a.partial_cmp(b), Some(a.cmp(b)));
            }
        }
    }
}

#[test]
fn cards_are_equal_when_rank_and_suit_are() {
    assert_eq!(card(Suit::Club, CardType::Number(7)), card(Suit::Club, CardType::Number(7)));
    assert_ne!(card(Suit::Club, CardType::Number(7)), card(Suit::Heart, CardType::Number(7)));
    assert_ne!(card(Suit::Club, CardType::Number(7)), card(Suit::Club, CardType::Number(8)));
}

#[test]
fn new_card_keeps_suit_and_rank() {
    let queen = Card::new(Suit::Heart, CardType::Queen);
    assert_eq!(queen.suit, Suit::Heart);
    assert_eq!(queen.card_type, CardType::Queen);
}

#[test]
fn suits_have_names() {
    assert_eq!(Suit::Spade.to_string(), "Spades");
    assert_eq!(Suit::Heart.to_string(), "Hearts");
    assert_eq!(Suit::Club.to_string(), "Clubs");
    assert_eq!(Suit::Diamond.to_string(), "Diamonds");
}

#[test]
fn ranks_have_names() {
    assert_eq!(CardType::Ace.to_string(), "Ace");
    assert_eq!(CardType::Jack.to_string(), "Jack");
    assert_eq!(CardType::Queen.to_string(), "Queen");
    assert_eq!(CardType::King.to_string(), "King");
}

#[test]
fn numerals_render_as_their_digits() {
    assert_eq!(CardType::Number(2).to_string(), "2");
    assert_eq!(CardType::Number(9).to_string(), "9");
    assert_eq!(CardType::Number(10).to_string(), "10");
    assert_eq!(CardType::Number(0).to_string(), "0");
    assert_eq!(CardType::Number(107).to_string(), "107");
    assert_eq!(CardType::Number(255).to_string(), "255");
}

#[test]
fn cards_have_names() {
    assert_eq!(card(Suit::Heart, CardType::Queen).to_string(), "Queen of Hearts");
    assert_eq!(card(Suit::Spade, CardType::Number(10)).to_string(), "10 of Spades");
    assert_eq!(card(Suit::Diamond, CardType::Ace).to_string(), "Ace of Diamonds");
    assert_eq!(card(Suit::Club, CardType::Number(2)).to_string(), "2 of Clubs");
}
