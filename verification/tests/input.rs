use cards::utils::{card_type_char, guess_card_type};
use cards::CardType;

#[test]
fn letters_ask_for_the_court_cards_and_the_ace() {
    assert_eq!(card_type_char('a'), Some(CardType::Ace));
    assert_eq!(card_type_char('k'), Some(CardType::King));
    assert_eq!(card_type_char('q'), Some(CardType::Queen));
    assert_eq!(card_type_char('j'), Some(CardType::Jack));
}

#[test]
fn digits_ask_for_the_numerals() {
    assert_eq!(card_type_char('2'), Some(CardType::Number(2)));
    assert_eq!(card_type_char('3'), Some(CardType::Number(3)));
    assert_eq!(card_type_char('4'), Some(CardType::Number(4)));
    assert_eq!(card_type_char('5'), Some(CardType::Number(5)));
    assert_eq!(card_type_char('6'), Some(CardType::Number(6)));
    assert_eq!(card_type_char('7'), Some(CardType::Number(7)));
    assert_eq!(card_type_char('8'), Some(CardType::Number(8)));
    assert_eq!(card_type_char('9'), Some(CardType::Number(9)));
}

#[test]
fn one_asks_for_the_ten() {
    assert_eq!(card_type_char('1'), Some(CardType::Number(10)));
}

#[test]
fn other_characters_ask_for_nothing() {
    assert_eq!(card_type_char('0'), None);
    assert_eq!(card_type_char('A'), None);
    assert_eq!(card_type_char('K'), None);
    assert_eq!(card_type_char('x'), None);
    assert_eq!(card_type_char(' '), None);
    assert_eq!(card_type_char('\n'), None);
}

#[test]
fn each_key_asks_for_its_own_rank() {
    let keys = ['2', '3', '4', '5', '6', '7', '8', '9', '1', 'j', 'q', 'k', 'a'];
    let mut ranks: Vec<CardType> = Vec::new();
    for key in keys {
        let rank = card_type_char(key);
        assert!(rank.is_some());
        assert!(!ranks.contains(&rank.unwrap()));
        ranks.push(rank.unwrap());
    }
    assert_eq!(ranks.len(), 13);
    let mut sorted = ranks.clone();
    sorted.sort();
    assert_eq!(sorted, ranks);
}

#[test]
fn a_guess_is_the_rank_of_the_character() {
    assert_eq!(guess_card_type(Some('q')), Some(CardType::Queen));
    assert_eq!(guess_card_type(Some('1')), Some(CardType::Number(10)));
}

#[test]
fn no_character_or_a_strange_one_makes_no_guess() {
    assert_eq!(guess_card_type(None), None);
    assert_eq!(guess_card_type(Some('z')), None);
}
