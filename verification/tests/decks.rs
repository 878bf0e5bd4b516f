use cards::{Card, CardType, Deck, Player, Suit};

fn card(suit: Suit, card_type: CardType) -> Card {
    Card::new(suit, card_type)
}

fn deck_of(cards: Vec<Card>) -> Deck {
    Deck { cards }
}

fn numerals(from: u8, to: u8) -> Vec<Card> {
    (from..=to).map(|n| card(Suit::Spade, CardType::Number(n))).collect()
}

#[test]
fn standard_deck_holds_52_cards() {
    assert_eq!(Deck::new().cards.len(), 52);
}

#[test]
fn standard_deck_holds_each_pair_of_suit_and_rank_once() {
    let deck = Deck::new();
    let suits = [Suit::Spade, Suit::Heart, Suit::Club, Suit::Diamond];
    let mut ranks: Vec<CardType> = (2..=10).map(CardType::Number).collect();
    ranks.extend([CardType::Jack, CardType::Queen, CardType::King, CardType::Ace]);
    for suit in suits {
        for rank in &ranks {
            let wanted = card(suit, *rank);
            assert_eq!(deck.cards.iter().filter(|c| **c == wanted).count(), 1);
        }
    }
}

#[test]
fn standard_deck_ascends() {
    let deck = Deck::new();
    for pair in deck.cards.windows(2) {
        assert!(pair[0] < pair[1]);
    }
    assert_eq!(deck.cards[0], card(Suit::Spade, CardType::Number(2)));
    assert_eq!(deck.cards[1], card(Suit::Heart, CardType::Number(2)));
    assert_eq!(deck.cards[2], card(Suit::Club, CardType::Number(2)));
    assert_eq!(deck.cards[3], card(Suit::Diamond, CardType::Number(2)));
    assert_eq!(deck.cards[4], card(Suit::Spade, CardType::Number(3)));
    assert_eq!(deck.cards[35], card(Suit::Diamond, CardType::Number(10)));
    assert_eq!(deck.cards[36], card(Suit::Spade, CardType::Jack));
    assert_eq!(deck.cards[47], card(Suit::Diamond, CardType::King));
    assert_eq!(deck.cards[51], card(Suit::Diamond, CardType::Ace));
}

#[test]
fn standard_deck_is_the_same_every_time() {
    assert_eq!(Deck::new(), Deck::new());
}

#[test]
fn empty_deck_holds_nothing() {
    assert!(Deck::empty().cards.is_empty());
}

#[test]
fn shuffled_deck_sorts_back_to_the_standard_deck() {
    for _ in 0..20 {
        let mut deck = Deck::new();
        deck.shuffle();
        assert_eq!(deck.cards.len(), 52);
        deck.sort();
        assert_eq!(deck, Deck::new());
    }
}

#[test]
fn shuffle_leaves_small_decks_alone() {
    let mut none = Deck::empty();
    none.shuffle();
    assert!(none.cards.is_empty());
    let mut one = deck_of(vec![card(Suit::Heart, CardType::Ace)]);
    one.shuffle();
    assert_eq!(one.cards, vec![card(Suit::Heart, CardType::Ace)]);
}

#[test]
fn shuffle_keeps_the_cards_of_any_deck() {
    let before = vec![
        card(Suit::Heart, CardType::Ace),
        card(Suit::Heart, CardType::Ace),
        card(Suit::Club, CardType::Number(4)),
    ];
    for _ in 0..20 {
        let mut deck = deck_of(before.clone());
        deck.shuffle();
        let mut after = deck.cards.clone();
        after.sort();
        let mut expected = before.clone();
        expected.sort();
        assert_eq!(after, expected);
    }
}

#[test]
fn shuffle_with_picks_swaps_from_the_back() {
    let c = numerals(2, 5);
    let mut deck = deck_of(c.clone());
    deck.shuffle_with(&vec![0, 0, 0]);
    assert_eq!(deck.cards, vec![c[1], c[2], c[3], c[0]]);
}

#[test]
fn shuffle_with_brings_picks_into_range() {
    let c = numerals(2, 5);
    let mut deck = deck_of(c.clone());
    deck.shuffle_with(&vec![5, 1, 7]);
    assert_eq!(deck.cards, vec![c[0], c[2], c[3], c[1]]);
}

#[test]
fn shuffle_with_own_positions_changes_nothing() {
    let c = numerals(2, 6);
    let mut deck = deck_of(c.clone());
    deck.shuffle_with(&vec![4, 3, 2, 1]);
    assert_eq!(deck.cards, c);
}

#[test]
fn shuffle_with_too_few_picks_stops_early() {
    let c = numerals(2, 5);
    let mut deck = deck_of(c.clone());
    deck.shuffle_with(&vec![]);
    assert_eq!(deck.cards, c);
    deck.shuffle_with(&vec![1]);
    assert_eq!(deck.cards, vec![c[0], c[3], c[2], c[1]]);
}

#[test]
fn shuffle_with_keeps_the_cards() {
    let mut deck = Deck::new();
    let picks: Vec<usize> = (0..51).map(|k| k * 7 + 3).collect();
    deck.shuffle_with(&picks);
    assert_ne!(deck, Deck::new());
    deck.sort();
    assert_eq!(deck, Deck::new());
}

#[test]
fn sort_orders_by_rank_then_suit() {
    let mut deck = deck_of(vec![
        card(Suit::Spade, CardType::Jack),
        card(Suit::Diamond, CardType::Number(2)),
        card(Suit::Heart, CardType::Ace),
        card(Suit::Club, CardType::Number(2)),
        card(Suit::Spade, CardType::Ace),
        card(Suit::Heart, CardType::Number(10)),
    ]);
    deck.sort();
    assert_eq!(
        deck.cards,
        vec![
            card(Suit::Club, CardType::Number(2)),
            card(Suit::Diamond, CardType::Number(2)),
            card(Suit::Heart, CardType::Number(10)),
            card(Suit::Spade, CardType::Jack),
            card(Suit::Spade, CardType::Ace),
            card(Suit::Heart, CardType::Ace),
        ]
    );
}

#[test]
fn sort_agrees_with_the_order_of_cards() {
    let mut deck = Deck::new();
    deck.cards.reverse();
    let mut expected = deck.cards.clone();
    expected.sort();
    deck.sort();
    assert_eq!(deck.cards, expected);
}

#[test]
fn sort_keeps_duplicates() {
    let ace = card(Suit::Heart, CardType::Ace);
    let two = card(Suit::Heart, CardType::Number(2));
    let mut deck = deck_of(vec![ace, two, ace]);
    deck.sort();
    assert_eq!(deck.cards, vec![two, ace, ace]);
}

#[test]
fn take_card_takes_the_front() {
    let c = numerals(2, 4);
    let mut deck = deck_of(c.clone());
    assert_eq!(deck.take_card(), Some(c[0]));
    assert_eq!(deck.cards, vec![c[1], c[2]]);
    assert_eq!(deck.take_card(), Some(c[1]));
    assert_eq!(deck.take_card(), Some(c[2]));
    assert!(deck.cards.is_empty());
}

#[test]
fn take_card_of_an_empty_deck_gives_nothing() {
    let mut deck = Deck::empty();
    assert_eq!(deck.take_card(), None);
    assert!(deck.cards.is_empty());
}

#[test]
fn give_card_puts_the_card_at_the_back() {
    let c = numerals(2, 4);
    let mut deck = Deck::empty();
    deck.give_card(c[2]);
    deck.give_card(c[0]);
    deck.give_card(c[1]);
    assert_eq!(deck.cards, vec![c[2], c[0], c[1]]);
}

#[test]
fn give_cards_drains_the_source() {
    let c = numerals(2, 6);
    let mut deck = deck_of(vec![c[0], c[1]]);
    let mut more = vec![c[4], c[2], c[3]];
    deck.give_cards(&mut more);
    assert_eq!(deck.cards, vec![c[0], c[1], c[4], c[2], c[3]]);
    assert!(more.is_empty());
}

#[test]
fn give_deck_drains_the_other_deck() {
    let c = numerals(2, 6);
    let mut deck = deck_of(vec![c[0]]);
    let mut other = deck_of(vec![c[3], c[1]]);
    deck.give_deck(&mut other);
    assert_eq!(deck.cards, vec![c[0], c[3], c[1]]);
    assert!(other.cards.is_empty());
    deck.give_deck(&mut other);
    assert_eq!(deck.cards, vec![c[0], c[3], c[1]]);
}

#[test]
fn pairs_of_two_aces_and_a_king() {
    let ace_spade = card(Suit::Spade, CardType::Ace);
    let ace_heart = card(Suit::Heart, CardType::Ace);
    let king_club = card(Suit::Club, CardType::King);
    let mut hand = deck_of(vec![ace_spade, ace_heart, king_club]);
    let pairs = hand.pairs();
    assert_eq!(pairs.cards, vec![ace_spade, ace_heart]);
    assert_eq!(hand.cards, vec![king_club]);
}

#[test]
fn pairs_twice_finds_nothing_the_second_time() {
    let mut hand = deck_of(vec![
        card(Suit::Spade, CardType::Ace),
        card(Suit::Club, CardType::Number(4)),
        card(Suit::Heart, CardType::Ace),
        card(Suit::Club, CardType::King),
        card(Suit::Heart, CardType::Number(4)),
        card(Suit::Diamond, CardType::Number(4)),
    ]);
    let first = hand.pairs();
    assert_eq!(first.cards.len(), 4);
    let left = hand.cards.clone();
    assert_eq!(
        left,
        vec![card(Suit::Diamond, CardType::Number(4)), card(Suit::Club, CardType::King)]
    );
    let second = hand.pairs();
    assert!(second.cards.is_empty());
    assert_eq!(hand.cards, left);
}

#[test]
fn pairs_leave_no_two_cards_of_one_rank() {
    let mut hand = Deck::new();
    hand.cards.truncate(30);
    hand.cards.remove(5);
    hand.cards.remove(11);
    hand.cards.remove(12);
    hand.shuffle();
    let pairs = hand.pairs();
    assert_eq!(pairs.cards.len() % 2, 0);
    assert_eq!(pairs.cards.len() + hand.cards.len(), 27);
    for (i, a) in hand.cards.iter().enumerate() {
        for b in &hand.cards[i + 1..] {
            assert_ne!(a.card_type, b.card_type);
        }
    }
    for pair in pairs.cards.chunks(2) {
        assert_eq!(pair[0].card_type, pair[1].card_type);
    }
}

#[test]
fn four_of_a_kind_is_two_pairs() {
    let sevens: Vec<Card> = [Suit::Club, Suit::Spade, Suit::Diamond, Suit::Heart]
        .into_iter()
        .map(|suit| card(suit, CardType::Number(7)))
        .collect();
    let mut hand = deck_of(sevens.clone());
    let pairs = hand.pairs();
    assert_eq!(pairs.cards, sevens);
    assert!(hand.cards.is_empty());
}

#[test]
fn three_of_a_kind_is_one_pair_and_one_card() {
    let ace_spade = card(Suit::Spade, CardType::Ace);
    let ace_heart = card(Suit::Heart, CardType::Ace);
    let ace_club = card(Suit::Club, CardType::Ace);
    let mut hand = deck_of(vec![ace_club, ace_spade, ace_heart]);
    let pairs = hand.pairs();
    assert_eq!(pairs.cards, vec![ace_club, ace_spade]);
    assert_eq!(hand.cards, vec![ace_heart]);
}

#[test]
fn pairs_come_out_by_rank_and_keep_their_order_within_a_rank() {
    let king_diamond = card(Suit::Diamond, CardType::King);
    let two_heart = card(Suit::Heart, CardType::Number(2));
    let king_spade = card(Suit::Spade, CardType::King);
    let two_spade = card(Suit::Spade, CardType::Number(2));
    let queen = card(Suit::Club, CardType::Queen);
    let mut hand = deck_of(vec![king_diamond, two_heart, queen, king_spade, two_spade]);
    let pairs = hand.pairs();
    assert_eq!(pairs.cards, vec![two_heart, two_spade, king_diamond, king_spade]);
    assert_eq!(hand.cards, vec![queen]);
}

#[test]
fn pairs_of_a_hand_without_pairs_groups_the_hand_by_rank() {
    let king = card(Suit::Diamond, CardType::King);
    let two = card(Suit::Heart, CardType::Number(2));
    let jack = card(Suit::Spade, CardType::Jack);
    let mut hand = deck_of(vec![king, two, jack]);
    let pairs = hand.pairs();
    assert!(pairs.cards.is_empty());
    assert_eq!(hand.cards, vec![two, jack, king]);
}

#[test]
fn pairs_of_small_hands() {
    let mut none = Deck::empty();
    assert!(none.pairs().cards.is_empty());
    assert!(none.cards.is_empty());
    let ace = card(Suit::Spade, CardType::Ace);
    let mut one = deck_of(vec![ace]);
    assert!(one.pairs().cards.is_empty());
    assert_eq!(one.cards, vec![ace]);
}

#[test]
fn find_type_takes_the_first_card_of_the_rank() {
    let queen = card(Suit::Spade, CardType::Queen);
    let king_spade = card(Suit::Spade, CardType::King);
    let king_diamond = card(Suit::Diamond, CardType::King);
    let mut hand = deck_of(vec![queen, king_spade, king_diamond]);
    assert_eq!(hand.find_type(&CardType::King), Some(king_spade));
    assert_eq!(hand.cards, vec![queen, king_diamond]);
    assert_eq!(hand.find_type(&CardType::King), Some(king_diamond));
    assert_eq!(hand.cards, vec![queen]);
}

#[test]
fn find_type_without_a_card_of_the_rank_changes_nothing() {
    let queen = card(Suit::Spade, CardType::Queen);
    let ten = card(Suit::Heart, CardType::Number(10));
    let mut hand = deck_of(vec![queen, ten]);
    assert_eq!(hand.find_type(&CardType::King), None);
    assert_eq!(hand.find_type(&CardType::Number(9)), None);
    assert_eq!(hand.cards, vec![queen, ten]);
    assert_eq!(Deck::empty().find_type(&CardType::Ace), None);
}

#[test]
fn deal_goes_round_the_players() {
    let c = numerals(2, 7);
    let mut deck = deck_of(c.clone());
    let mut first = Player::new();
    let mut second = Player::new();
    deck.deal(2, &mut vec![&mut first, &mut second]);
    assert_eq!(first.hand.cards, vec![c[0], c[2]]);
    assert_eq!(second.hand.cards, vec![c[1], c[3]]);
    assert_eq!(deck.cards, vec![c[4], c[5]]);
    assert!(first.burn_pile.cards.is_empty());
    assert!(second.burn_pile.cards.is_empty());
}

#[test]
fn deal_adds_to_the_back_of_a_hand() {
    let c = numerals(2, 8);
    let mut deck = deck_of(vec![c[0], c[1], c[2], c[3], c[4], c[5]]);
    let mut first = Player::new();
    first.hand.give_card(c[6]);
    let mut second = Player::new();
    let mut third = Player::new();
    deck.deal(2, &mut vec![&mut first, &mut second, &mut third]);
    assert_eq!(first.hand.cards, vec![c[6], c[0], c[3]]);
    assert_eq!(second.hand.cards, vec![c[1], c[4]]);
    assert_eq!(third.hand.cards, vec![c[2], c[5]]);
    assert!(deck.cards.is_empty());
}

#[test]
fn deal_of_seven_cards_each_leaves_38() {
    let mut deck = Deck::new();
    deck.shuffle();
    let mut first = Player::new();
    let mut second = Player::new();
    deck.deal(7, &mut vec![&mut first, &mut second]);
    assert_eq!(deck.cards.len(), 38);
    assert_eq!(first.hand.cards.len(), 7);
    assert_eq!(second.hand.cards.len(), 7);
}

#[test]
fn deal_of_nothing_changes_nothing() {
    let c = numerals(2, 4);
    let mut deck = deck_of(c.clone());
    let mut first = Player::new();
    deck.deal(0, &mut vec![&mut first]);
    deck.deal(3, &mut vec![]);
    assert_eq!(deck.cards, c);
    assert!(first.hand.cards.is_empty());
}

#[test]
fn decks_have_names() {
    assert_eq!(Deck::empty().to_string(), "[]");
    let one = deck_of(vec![card(Suit::Heart, CardType::Queen)]);
    assert_eq!(one.to_string(), "[Queen of Hearts]");
    let three = deck_of(vec![
        card(Suit::Spade, CardType::Ace),
        card(Suit::Heart, CardType::Number(2)),
        card(Suit::Diamond, CardType::Number(10)),
    ]);
    assert_eq!(three.to_string(), "[Ace of Spades, 2 of Hearts, 10 of Diamonds]");
}

#[test]
fn new_player_holds_nothing() {
    let player = Player::new();
    assert!(player.hand.cards.is_empty());
    assert!(player.burn_pile.cards.is_empty());
    assert_eq!(player.score(), 0);
}

#[test]
fn burn_moves_the_pairs_to_the_burn_pile() {
    let ace_spade = card(Suit::Spade, CardType::Ace);
    let ace_heart = card(Suit::Heart, CardType::Ace);
    let king_club = card(Suit::Club, CardType::King);
    let two = card(Suit::Club, CardType::Number(2));
    let mut player = Player::new();
    player.burn_pile.give_card(two);
    player.burn_pile.give_card(two);
    player.hand = deck_of(vec![ace_spade, ace_heart, king_club]);
    let burned = player.burn();
    assert_eq!(burned, Some(deck_of(vec![ace_spade, ace_heart])));
    assert_eq!(player.hand.cards, vec![king_club]);
    assert_eq!(player.burn_pile.cards, vec![two, two, ace_spade, ace_heart]);
    assert_eq!(player.score(), 2);
}

#[test]
fn burn_without_pairs_reports_nothing() {
    let king = card(Suit::Club, CardType::King);
    let two = card(Suit::Club, CardType::Number(2));
    let mut player = Player::new();
    player.hand = deck_of(vec![king, two]);
    assert_eq!(player.burn(), None);
    assert_eq!(player.hand.cards, vec![two, king]);
    assert!(player.burn_pile.cards.is_empty());
    assert_eq!(player.score(), 0);
}

#[test]
fn score_counts_pairs() {
    let mut player = Player::new();
    player.burn_pile = deck_of(numerals(2, 8));
    assert_eq!(player.score(), 3);
}

#[test]
fn default_deck_is_the_standard_deck() {
    assert_eq!(Deck::default(), Deck::new());
}

#[test]
fn default_player_holds_nothing() {
    assert_eq!(Player::default(), Player::new());
}
