//! The game of Go Fish between a human and a computer.
//!
//! The engine owns the draw pile and the two players. Every operation
//! resolves one step of the game and hands back a report of what happened;
//! showing the report is left to the caller.
//!
//! A game has not started until it is opened with `init`, and is in progress
//! from then on. The human and the computer take turns, the human first, for
//! as long as the reports say that the game goes on; with the first report
//! that says it does not, the game is over and `game_over` names the winner.
//! The engine records the phase and leaves it to its caller to keep the
//! order of the turns. No turn makes or loses a card: the cards of the draw
//! pile, the hands and the burn piles together stay the cards that the game
//! began with.

use crate::card::{Card, CardType};
use crate::deck::{dealt_to, first_of_rank, lemma_first_of_rank, Deck};
use crate::order::{lemma_stably_sorted, rank_sorted};
use crate::pairing::{lemma_pairing_conserves_cards, paired};
use crate::player::{pairs_to_burn, Player, PlayerView};
use crate::random::{random_below, thread_rng};
use crate::shuffling::{lemma_shuffled_is_permutation, picks_fit, shuffled};
use crate::standard::standard_cards;
use rand::rngs::ThreadRng;
use vstd::multiset::Multiset;
use vstd::prelude::*;
use vstd::seq_lib::{
    lemma_multiset_commutative, to_multiset_build, to_multiset_contains, to_multiset_len,
    to_multiset_remove,
};

verus! {

/// The draw pile and the two players of one turn: the one who asks and the
/// one who is asked.
pub struct Table {
    pub asker: PlayerView,
    pub opponent: PlayerView,
    pub deck: Seq<Card>,
}

/// What a turn reports, with the burned pairs as a sequence of cards.
pub enum Reported {
    Passed,
    NoCards,
    DeckEmpty { requested: CardType },
    Took {
        requested: CardType,
        card: Card,
        from_deck: bool,
        burned: Option<Seq<Card>>,
        hand_empty: bool,
    },
}

/// What happened in a turn.
#[derive(Debug, Clone, PartialEq, Eq)]
pub enum TurnReport {
    /// No rank was requested. Nothing changed, and the game goes on.
    Passed,
    /// The player whose turn it was holds no card to ask by. No card
    /// moved, and the game is over.
    NoCards,
    /// The opponent holds no card of the requested rank and the draw pile is
    /// empty. No card moved, and the game is over.
    DeckEmpty { requested: CardType },
    /// The player got `card`: from the draw pile if `from_deck`, from the
    /// opponent's hand if not. `burned` holds the pairs that the player
    /// burned after that, if there were any. The game is over if the hand is
    /// empty now.
    Took {
        requested: CardType,
        card: Card,
        from_deck: bool,
        burned: Option<Deck>,
        hand_empty: bool,
    },
}

impl View for TurnReport {
    type V = Reported;

    open spec fn view(&self) -> Reported {
        match *self {
            TurnReport::Passed => Reported::Passed,
            TurnReport::NoCards => Reported::NoCards,
            TurnReport::DeckEmpty { requested } => Reported::DeckEmpty { requested },
            TurnReport::Took { requested, card, from_deck, burned, hand_empty } => Reported::Took {
                requested,
                card,
                from_deck,
                burned: match burned {
                    Some(pairs) => Some(pairs@),
                    None => None,
                },
                hand_empty,
            },
        }
    }
}

impl Reported {
    /// Whether the game goes on after the turn.
    pub open spec fn game_continues(self) -> bool {
        match self {
            Reported::Passed => true,
            Reported::NoCards => false,
            Reported::DeckEmpty { .. } => false,
            Reported::Took { hand_empty, .. } => !hand_empty,
        }
    }
}

impl TurnReport {
    /// Whether the game goes on after the turn.
    pub fn game_continues(&self) -> (goes_on: bool)
        ensures
            goes_on == self@.game_continues(),
    {
        match self {
            TurnReport::Passed => true,
            TurnReport::NoCards => false,
            TurnReport::DeckEmpty { .. } => false,
            TurnReport::Took { hand_empty, .. } => !*hand_empty,
        }
    }
}

impl Table {
    /// All cards on the table, each as often as it lies there.
    pub open spec fn all_cards(self) -> Multiset<Card> {
        self.deck.to_multiset().add(self.asker.hand.to_multiset()).add(
            self.asker.burn_pile.to_multiset(),
        ).add(self.opponent.hand.to_multiset()).add(self.opponent.burn_pile.to_multiset())
    }
}

/// The turn of an asker who got `card`: the card goes to the back of the
/// hand, and the hand is burned.
pub open spec fn took(rank: CardType, card: Card, from_deck: bool, table: Table) -> (
    Table,
    Reported,
) {
    let asker = table.asker.given(card).burned();
    (
        Table { asker, opponent: table.opponent, deck: table.deck },
        Reported::Took {
            requested: rank,
            card,
            from_deck,
            burned: pairs_to_burn(table.asker.hand.push(card)),
            hand_empty: asker.hand.len() == 0,
        },
    )
}

/// The turn of an asker who requests `rank`. The first card of that rank in
/// the opponent's hand changes hands. Where the opponent holds none, the
/// asker goes fishing and takes the front card of the draw pile; where the
/// pile is empty too, nothing changes.
pub open spec fn asked(rank: CardType, table: Table) -> (Table, Reported) {
    match first_of_rank(table.opponent.hand, rank) {
        Some(i) => took(
            rank,
            table.opponent.hand[i],
            false,
            Table {
                asker: table.asker,
                opponent: PlayerView {
                    hand: table.opponent.hand.remove(i),
                    burn_pile: table.opponent.burn_pile,
                },
                deck: table.deck,
            },
        ),
        None => if table.deck.len() > 0 {
            took(
                rank,
                table.deck[0],
                true,
                Table { asker: table.asker, opponent: table.opponent, deck: table.deck.skip(1) },
            )
        } else {
            (table, Reported::DeckEmpty { requested: rank })
        },
    }
}

/// Resolves the turn of `asker`, who requests `rank` of `opponent`, with
/// `deck` as the draw pile.
pub fn ask(rank: CardType, asker: &mut Player, opponent: &mut Player, deck: &mut Deck) -> (report:
    TurnReport)
    ensures
        (
            Table { asker: final(asker)@, opponent: final(opponent)@, deck: final(deck)@ },
            report@,
        ) == asked(rank, Table { asker: old(asker)@, opponent: old(opponent)@, deck: old(deck)@ }),
{
    let (card, from_deck) = match opponent.hand.find_type(&rank) {
        Some(card) => (card, false),
        None => match deck.take_card() {
            Some(card) => (card, true),
            None => {
                return TurnReport::DeckEmpty { requested: rank };
            },
        },
    };
    asker.hand.give_card(card);
    let burned = asker.burn();
    let hand_empty = asker.hand.cards.len() == 0;
    TurnReport::Took { requested: rank, card, from_deck, burned, hand_empty }
}

/// Who wins the game.
#[derive(Debug, Clone, Copy, PartialEq, Eq, Structural)]
pub enum Winner {
    Human,
    Computer,
}

/// The scores at the end of the game, and the winner.
#[derive(Debug, Clone, Copy, PartialEq, Eq, Structural)]
pub struct GameResult {
    pub player_score: usize,
    pub cpu_score: usize,
    pub winner: Winner,
}

/// The winner by the scores: the human with the strictly higher score, the
/// computer otherwise, so that a tie goes to the computer.
pub open spec fn winner_of(player_score: int, cpu_score: int) -> Winner {
    if player_score > cpu_score {
        Winner::Human
    } else {
        Winner::Computer
    }
}

/// Names the winner by the scores.
pub fn declare_winner(player_score: usize, cpu_score: usize) -> (winner: Winner)
    ensures
        winner == winner_of(player_score as int, cpu_score as int),
{
    if player_score > cpu_score {
        Winner::Human
    } else {
        Winner::Computer
    }
}

/// The pairs that the two players burned when the game was opened.
#[derive(Debug, Clone, PartialEq, Eq)]
pub struct OpeningReport {
    pub player_burned: Option<Deck>,
    pub cpu_burned: Option<Deck>,
}

/// What the opening reports, with the burned pairs as sequences of cards.
pub struct Opened {
    pub player_burned: Option<Seq<Card>>,
    pub cpu_burned: Option<Seq<Card>>,
}

impl View for OpeningReport {
    type V = Opened;

    open spec fn view(&self) -> Opened {
        Opened {
            player_burned: match self.player_burned {
                Some(pairs) => Some(pairs@),
                None => None,
            },
            cpu_burned: match self.cpu_burned {
                Some(pairs) => Some(pairs@),
                None => None,
            },
        }
    }
}

/// The number of cards that each player gets when the game is opened.
pub const HAND_SIZE: usize = 7;

/// Where a game stands: it has not started before its opening, is in
/// progress from then on, and is over with the first turn that ends it.
#[derive(Debug, Clone, Copy, PartialEq, Eq, Structural)]
pub enum Phase {
    NotStarted,
    InProgress,
    Over,
}

impl Phase {
    /// The phase after a turn with the report given: a turn ends the game or
    /// leaves the phase as it is.
    pub open spec fn after(self, report: Reported) -> Phase {
        if report.game_continues() {
            self
        } else {
            Phase::Over
        }
    }
}

/// A game of Go Fish: the draw pile, the human (`player1`) and the computer
/// (`player2`), the phase of the game, and the generator that the computer
/// chooses by.
pub struct GoFish {
    deck: Deck,
    player1: Player,
    player2: Player,
    phase: Phase,
    random: ThreadRng,
}

/// A game without its generator: the draw pile, the human, the computer and
/// the phase.
pub struct GameView {
    pub deck: Seq<Card>,
    pub player1: PlayerView,
    pub player2: PlayerView,
    pub phase: Phase,
}

impl View for GoFish {
    type V = GameView;

    closed spec fn view(&self) -> GameView {
        GameView {
            deck: self.deck@,
            player1: self.player1@,
            player2: self.player2@,
            phase: self.phase,
        }
    }
}

impl GameView {
    /// All cards of the game, each as often as it occurs: the draw pile, the
    /// two hands and the two burn piles together.
    pub open spec fn all_cards(self) -> Multiset<Card> {
        self.human_table().all_cards()
    }

    /// The number of cards in the game.
    pub open spec fn card_count(self) -> nat {
        self.deck.len() + self.player1.hand.len() + self.player1.burn_pile.len()
            + self.player2.hand.len() + self.player2.burn_pile.len()
    }

    /// Whether the cards of the game are the cards of the standard deck.
    pub open spec fn is_complete(self) -> bool {
        self.all_cards() == standard_cards().to_multiset()
    }

    /// The table at the human's turn.
    pub open spec fn human_table(self) -> Table {
        Table { asker: self.player1, opponent: self.player2, deck: self.deck }
    }

    /// The table at the computer's turn.
    pub open spec fn computer_table(self) -> Table {
        Table { asker: self.player2, opponent: self.player1, deck: self.deck }
    }

    /// The game with `picks` shuffled into the draw pile.
    pub open spec fn shuffled(self, picks: Seq<usize>) -> GameView {
        GameView {
            deck: shuffled(self.deck, picks),
            player1: self.player1,
            player2: self.player2,
            phase: self.phase,
        }
    }

    /// The opening of the game after the shuffle: seven rounds are dealt
    /// from the front of the draw pile, the human first in each round, and
    /// both players burn the pairs of their hands. The game is in progress
    /// then.
    pub open spec fn opened(self) -> (GameView, Opened) {
        let dealt1 = self.player1.hand + dealt_to(self.deck, HAND_SIZE as int, 2, 0);
        let dealt2 = self.player2.hand + dealt_to(self.deck, HAND_SIZE as int, 2, 1);
        (
            GameView {
                deck: self.deck.skip(2 * HAND_SIZE),
                player1: PlayerView { hand: dealt1, burn_pile: self.player1.burn_pile }.burned(),
                player2: PlayerView { hand: dealt2, burn_pile: self.player2.burn_pile }.burned(),
                phase: Phase::InProgress,
            },
            Opened { player_burned: pairs_to_burn(dealt1), cpu_burned: pairs_to_burn(dealt2) },
        )
    }

    /// The human's turn with the guess given: without a guess the turn
    /// passes, with one the human asks the computer for that rank. The game
    /// is over where the report says that it does not go on.
    pub open spec fn human_turn(self, guess: Option<CardType>) -> (GameView, Reported) {
        match guess {
            None => (self, Reported::Passed),
            Some(rank) => {
                let (table, report) = asked(rank, self.human_table());
                (
                    GameView {
                        deck: table.deck,
                        player1: table.asker,
                        player2: table.opponent,
                        phase: self.phase.after(report),
                    },
                    report,
                )
            },
        }
    }

    /// The computer's turn when it asks by the card at `choice` in its hand:
    /// it asks the human for the rank of that card. Where its hand holds no
    /// card there, it has nothing to ask by, and no card moves. The game is
    /// over where the report says that it does not go on.
    pub open spec fn computer_turn(self, choice: int) -> (GameView, Reported) {
        if 0 <= choice < self.player2.hand.len() {
            let (table, report) = asked(
                self.player2.hand[choice].card_type,
                self.computer_table(),
            );
            (
                GameView {
                    deck: table.deck,
                    player1: table.opponent,
                    player2: table.asker,
                    phase: self.phase.after(report),
                },
                report,
            )
        } else {
            (
                GameView {
                    deck: self.deck,
                    player1: self.player1,
                    player2: self.player2,
                    phase: Phase::Over,
                },
                Reported::NoCards,
            )
        }
    }

    /// The positions that the computer chooses from: those of its hand, and
    /// the first one where its hand is empty.
    pub open spec fn computer_may_choose(self, choice: int) -> bool {
        0 <= choice && (choice < self.player2.hand.len() || choice == 0)
    }

    /// The scores and the winner as the game stands.
    pub open spec fn result(self) -> GameResult {
        GameResult {
            player_score: self.player1.score() as usize,
            cpu_score: self.player2.score() as usize,
            winner: winner_of(self.player1.score(), self.player2.score()),
        }
    }
}

impl GoFish {
    /// A game that has not started: the draw pile is the standard deck, and
    /// the players hold nothing.
    pub fn new() -> (game: GoFish)
        ensures
            game@.deck == standard_cards(),
            game@.player1 == (PlayerView { hand: Seq::empty(), burn_pile: Seq::empty() }),
            game@.player2 == (PlayerView { hand: Seq::empty(), burn_pile: Seq::empty() }),
            game@.phase == Phase::NotStarted,
            game@.is_complete(),
    {
        let game = GoFish {
            deck: Deck::new(),
            player1: Player::new(),
            player2: Player::new(),
            phase: Phase::NotStarted,
            random: thread_rng(),
        };
        proof {
            lemma_fresh_game_is_complete(game@);
        }
        game
    }

    /// A game in progress that stands as given: with this draw pile, this
    /// human and this computer.
    pub fn from_parts(deck: Deck, player1: Player, player2: Player) -> (game: GoFish)
        ensures
            game@ == (GameView {
                deck: deck@,
                player1: player1@,
                player2: player2@,
                phase: Phase::InProgress,
            }),
    {
        GoFish { deck, player1, player2, phase: Phase::InProgress, random: thread_rng() }
    }

    /// Where the game stands.
    pub fn phase(&self) -> (phase: Phase)
        ensures
            phase == self@.phase,
    {
        self.phase
    }

    /// The draw pile.
    pub fn deck(&self) -> (deck: &Deck)
        ensures
            deck@ == self@.deck,
    {
        &self.deck
    }

    /// The human.
    pub fn player(&self) -> (player: &Player)
        ensures
            player@ == self@.player1,
    {
        &self.player1
    }

    /// The computer.
    pub fn computer(&self) -> (computer: &Player)
        ensures
            computer@ == self@.player2,
    {
        &self.player2
    }

    /// Deals the opening hands from the draw pile as it lies, seven cards to
    /// each player and the human first in each round, and lets both players
    /// burn their pairs. The draw pile must hold the fourteen cards.
    pub fn deal_hands(&mut self) -> (report: OpeningReport)
        requires
            old(self)@.deck.len() >= 2 * HAND_SIZE,
        ensures
            (final(self)@, report@) == old(self)@.opened(),
            final(self)@.phase == Phase::InProgress,
            final(self)@.all_cards() == old(self)@.all_cards(),
    {
        proof {
            lemma_opening_conserves_cards(self@);
        }
        let ghost before = self@;
        let mut players: Vec<&mut Player> = Vec::new();
        players.push(&mut self.player1);
        players.push(&mut self.player2);
        self.deck.deal(HAND_SIZE, &mut players);
        proof {
            assert((*players@[0]).hand@ == before.player1.hand + dealt_to(
                before.deck,
                HAND_SIZE as int,
                2,
                0,
            ));
            assert((*players@[1]).hand@ == before.player2.hand + dealt_to(
                before.deck,
                HAND_SIZE as int,
                2,
                1,
            ));
        }
        let player_burned = self.player1.burn();
        let cpu_burned = self.player2.burn();
        self.phase = Phase::InProgress;
        OpeningReport { player_burned, cpu_burned }
    }

    /// Opens the game: shuffles the draw pile, deals seven cards to each
    /// player, the human first in each round, and lets both burn their pairs.
    /// The draw pile must hold the fourteen cards, as that of a new game does.
    pub fn init(&mut self) -> (report: OpeningReport)
        requires
            old(self)@.deck.len() >= 2 * HAND_SIZE,
        ensures
            exists|picks: Seq<usize>|
                picks_fit(picks, old(self)@.deck.len() as int) && (final(self)@, report@) == (
                #[trigger] old(self)@.shuffled(picks)).opened(),
            final(self)@.deck.len() == old(self)@.deck.len() - 2 * HAND_SIZE,
            final(self)@.phase == Phase::InProgress,
            final(self)@.all_cards() == old(self)@.all_cards(),
    {
        self.deck.shuffle();
        proof {
            let picks = choose|picks: Seq<usize>|
                picks_fit(picks, old(self)@.deck.len() as int) && self.deck@ == #[trigger] shuffled(
                    old(self)@.deck,
                    picks,
                );
            assert(self@ == old(self)@.shuffled(picks));
        }
        self.deal_hands()
    }

    /// The human's turn. With a guess the human asks the computer for that
    /// rank; without one the turn passes and nothing changes.
    pub fn next_player_turn(&mut self, guess: Option<CardType>) -> (report: TurnReport)
        ensures
            (final(self)@, report@) == old(self)@.human_turn(guess),
            final(self)@.phase == old(self)@.phase.after(report@),
            final(self)@.all_cards() == old(self)@.all_cards(),
    {
        proof {
            lemma_turns_conserve_cards(self@, guess, 0);
        }
        match guess {
            None => TurnReport::Passed,
            Some(rank) => {
                let report = ask(rank, &mut self.player1, &mut self.player2, &mut self.deck);
                self.settle(&report);
                report
            },
        }
    }

    /// The computer's turn when it asks by the card at `choice` in its hand:
    /// it asks the human for the rank of that card. Where its hand holds no
    /// card there, it has nothing to ask by: no card moves, and the game is
    /// over.
    pub fn next_computer_turn_with(&mut self, choice: usize) -> (report: TurnReport)
        ensures
            (final(self)@, report@) == old(self)@.computer_turn(choice as int),
            final(self)@.phase == old(self)@.phase.after(report@),
            final(self)@.all_cards() == old(self)@.all_cards(),
    {
        proof {
            lemma_turns_conserve_cards(self@, None, choice as int);
        }
        let report = if choice < self.player2.hand.cards.len() {
            let rank = self.player2.hand.cards[choice].card_type;
            ask(rank, &mut self.player2, &mut self.player1, &mut self.deck)
        } else {
            TurnReport::NoCards
        };
        self.settle(&report);
        report
    }

    /// Ends the game where the report of a turn says that it does not go on.
    fn settle(&mut self, report: &TurnReport)
        ensures
            final(self)@ == (GameView {
                deck: old(self)@.deck,
                player1: old(self)@.player1,
                player2: old(self)@.player2,
                phase: old(self)@.phase.after(report@),
            }),
    {
        if !report.game_continues() {
            self.phase = Phase::Over;
        }
    }

    /// The computer's turn. The computer asks the human for the rank of a
    /// card of its own hand: of its one card where it holds one, of a card
    /// drawn at random where it holds more. Where it holds none it has
    /// nothing to ask by: no card moves, and the game is over.
    pub fn next_computer_turn(&mut self) -> (report: TurnReport)
        ensures
            exists|choice: int|
                old(self)@.computer_may_choose(choice) && (final(self)@, report@)
                    == #[trigger] old(self)@.computer_turn(choice),
            old(self)@.player2.hand.len() <= 1 ==> (final(self)@, report@)
                == old(self)@.computer_turn(0),
            old(self)@.player2.hand.len() == 0 ==> report@ == Reported::NoCards,
            final(self)@.phase == old(self)@.phase.after(report@),
            final(self)@.all_cards() == old(self)@.all_cards(),
    {
        let n_cards = self.player2.hand.cards.len();
        let choice = if n_cards <= 1 {
            0
        } else {
            random_below(&mut self.random, n_cards)
        };
        let report = self.next_computer_turn_with(choice);
        proof {
            assert(old(self)@.computer_may_choose(choice as int));
        }
        report
    }

    /// The scores of both players and the winner: the human with the
    /// strictly higher score, the computer otherwise.
    pub fn game_over(&self) -> (result: GameResult)
        ensures
            result == self@.result(),
    {
        let player_score = self.player1.score();
        let cpu_score = self.player2.score();
        GameResult { player_score, cpu_score, winner: declare_winner(player_score, cpu_score) }
    }
}

/// The cards of a player after a burn are the cards before.
pub proof fn lemma_burn_conserves_cards(player: PlayerView)
    ensures
        player.burned().hand.to_multiset().add(player.burned().burn_pile.to_multiset())
            == player.hand.to_multiset().add(player.burn_pile.to_multiset()),
        player.burned().hand.len() + player.burned().burn_pile.len() == player.hand.len()
            + player.burn_pile.len(),
{
    broadcast use vstd::multiset::group_multiset_axioms;

    let sorted = rank_sorted(player.hand);
    lemma_stably_sorted(player.hand, true);
    lemma_pairing_conserves_cards(sorted);
    lemma_multiset_commutative(player.burn_pile, paired(sorted));
}

/// The cards on a table are the cards of the draw pile, of the asker and of
/// the opponent.
proof fn lemma_table_cards(table: Table)
    ensures
        table.all_cards() == table.deck.to_multiset().add(
            table.asker.hand.to_multiset().add(table.asker.burn_pile.to_multiset()),
        ).add(table.opponent.hand.to_multiset().add(table.opponent.burn_pile.to_multiset())),
{
    broadcast use vstd::multiset::group_multiset_axioms;
}

/// Getting a card and burning the hand adds that card to the cards of the
/// player and changes nothing else.
proof fn lemma_taking_adds_the_card(player: PlayerView, card: Card)
    ensures
        player.given(card).burned().hand.to_multiset().add(
            player.given(card).burned().burn_pile.to_multiset(),
        ) == player.hand.to_multiset().add(player.burn_pile.to_multiset()).insert(card),
{
    broadcast use vstd::multiset::group_multiset_axioms;

    lemma_burn_conserves_cards(player.given(card));
    to_multiset_build(player.hand, card);
}

/// A turn moves cards and makes none: after a request the cards on the
/// table are the cards before.
pub proof fn lemma_asking_conserves_cards(rank: CardType, table: Table)
    ensures
        asked(rank, table).0.all_cards() == table.all_cards(),
{
    broadcast use vstd::multiset::group_multiset_axioms;

    let after = asked(rank, table).0;
    lemma_table_cards(after);
    lemma_first_of_rank(table.opponent.hand, rank);
    match first_of_rank(table.opponent.hand, rank) {
        Some(i) => {
            let card = table.opponent.hand[i];
            to_multiset_remove(table.opponent.hand, i);
            to_multiset_contains(table.opponent.hand, card);
            lemma_taking_adds_the_card(table.asker, card);
        },
        None => {
            if table.deck.len() > 0 {
                let card = table.deck[0];
                to_multiset_remove(table.deck, 0);
                to_multiset_contains(table.deck, card);
                lemma_taking_adds_the_card(table.asker, card);
            }
        },
    }
}

/// No turn changes the cards of the game: after the human's turn, whatever
/// the guess, and after the computer's turn, whichever card it asks by, the
/// cards of the game are the cards before.
pub proof fn lemma_turns_conserve_cards(game: GameView, guess: Option<CardType>, choice: int)
    ensures
        game.human_turn(guess).0.all_cards() == game.all_cards(),
        game.computer_turn(choice).0.all_cards() == game.all_cards(),
{
    broadcast use vstd::multiset::group_multiset_axioms;

    if let Some(rank) = guess {
        lemma_asking_conserves_cards(rank, game.human_table());
    }
    lemma_asking_conserves_cards(game.player2.hand[choice].card_type, game.computer_table());
    assert(game.computer_table().all_cards() =~= game.all_cards());
}

/// A shuffle of the draw pile does not change the cards of the game.
pub proof fn lemma_shuffle_conserves_cards(game: GameView, picks: Seq<usize>)
    ensures
        game.shuffled(picks).all_cards() == game.all_cards(),
        game.shuffled(picks).deck.len() == game.deck.len(),
{
    lemma_shuffled_is_permutation(game.deck, picks);
}

/// The cards that two players get in a deal, and the cards that stay on the
/// pile, are together the cards of the pile before.
proof fn lemma_deal_splits_the_pile(deck: Seq<Card>, rounds: int)
    requires
        0 <= rounds,
        deck.len() >= 2 * rounds,
    ensures
        dealt_to(deck, rounds, 2, 0).to_multiset().add(
            dealt_to(deck, rounds, 2, 1).to_multiset(),
        ).add(deck.skip(2 * rounds).to_multiset()) == deck.to_multiset(),
    decreases rounds,
{
    broadcast use vstd::multiset::group_multiset_axioms;

    if rounds == 0 {
        assert(deck.skip(0) =~= deck);
        assert(dealt_to(deck, 0, 2, 0).to_multiset() =~= Multiset::<Card>::empty()) by {
            dealt_to(deck, 0, 2, 0).to_multiset_ensures();
        }
        assert(dealt_to(deck, 0, 2, 1).to_multiset() =~= Multiset::<Card>::empty()) by {
            dealt_to(deck, 0, 2, 1).to_multiset_ensures();
        }
    } else {
        let less = rounds - 1;
        lemma_deal_splits_the_pile(deck, less);
        let first = deck[2 * less];
        let second = deck[2 * less + 1];
        let rest = deck.skip(2 * less);
        assert(dealt_to(deck, rounds, 2, 0) =~= dealt_to(deck, less, 2, 0).push(first));
        assert(dealt_to(deck, rounds, 2, 1) =~= dealt_to(deck, less, 2, 1).push(second));
        to_multiset_build(dealt_to(deck, less, 2, 0), first);
        to_multiset_build(dealt_to(deck, less, 2, 1), second);
        assert(rest =~= seq![first, second] + deck.skip(2 * rounds));
        lemma_multiset_commutative(seq![first, second], deck.skip(2 * rounds));
        assert(seq![first, second] =~= seq![first].push(second));
        to_multiset_build(seq![first], second);
        to_multiset_build(Seq::<Card>::empty(), first);
        assert(Seq::<Card>::empty().to_multiset() =~= Multiset::<Card>::empty()) by {
            Seq::<Card>::empty().to_multiset_ensures();
        }
    }
}

/// The opening moves cards and makes none: when the hands are dealt and the
/// pairs are burned, the cards of the game are the cards before.
pub proof fn lemma_opening_conserves_cards(game: GameView)
    requires
        game.deck.len() >= 2 * HAND_SIZE,
    ensures
        game.opened().0.all_cards() == game.all_cards(),
        game.opened().0.deck.len() == game.deck.len() - 2 * HAND_SIZE,
        game.opened().0.phase == Phase::InProgress,
{
    broadcast use vstd::multiset::group_multiset_axioms;

    let dealt1 = dealt_to(game.deck, HAND_SIZE as int, 2, 0);
    let dealt2 = dealt_to(game.deck, HAND_SIZE as int, 2, 1);
    let seated1 = PlayerView { hand: game.player1.hand + dealt1, burn_pile: game.player1.burn_pile };
    let seated2 = PlayerView { hand: game.player2.hand + dealt2, burn_pile: game.player2.burn_pile };
    let after = game.opened().0;
    lemma_deal_splits_the_pile(game.deck, HAND_SIZE as int);
    lemma_multiset_commutative(game.player1.hand, dealt1);
    lemma_multiset_commutative(game.player2.hand, dealt2);
    lemma_burn_conserves_cards(seated1);
    lemma_burn_conserves_cards(seated2);
    lemma_table_cards(after.human_table());
}

/// A game whose draw pile is the standard deck and whose players hold
/// nothing is complete.
pub proof fn lemma_fresh_game_is_complete(game: GameView)
    requires
        game.deck == standard_cards(),
        game.player1 == (PlayerView { hand: Seq::empty(), burn_pile: Seq::empty() }),
        game.player2 == (PlayerView { hand: Seq::empty(), burn_pile: Seq::empty() }),
    ensures
        game.is_complete(),
{
    broadcast use vstd::multiset::group_multiset_axioms;

    Seq::<Card>::empty().to_multiset_ensures();
    assert(game.all_cards() =~= standard_cards().to_multiset());
}

/// The cards of a game are as many as its five piles hold; a complete game
/// holds 52 cards, wherever they lie.
pub proof fn lemma_card_count(game: GameView)
    ensures
        game.all_cards().len() == game.card_count(),
        game.is_complete() ==> game.card_count() == 52,
{
    broadcast use vstd::multiset::group_multiset_axioms;

    to_multiset_len(game.deck);
    to_multiset_len(game.player1.hand);
    to_multiset_len(game.player1.burn_pile);
    to_multiset_len(game.player2.hand);
    to_multiset_len(game.player2.burn_pile);
    to_multiset_len(standard_cards());
}

/// The game keeps its 52 cards: a complete game is complete after every
/// step, whatever the human guesses, whichever card the computer asks by and
/// whatever the shuffle picks, and its draw pile, hands and burn piles hold
/// 52 cards together.
pub proof fn lemma_game_keeps_its_cards(
    game: GameView,
    guess: Option<CardType>,
    choice: int,
    picks: Seq<usize>,
)
    requires
        game.is_complete(),
    ensures
        game.card_count() == 52,
        game.human_turn(guess).0.is_complete(),
        game.human_turn(guess).0.card_count() == 52,
        game.computer_turn(choice).0.is_complete(),
        game.computer_turn(choice).0.card_count() == 52,
        game.shuffled(picks).is_complete(),
        game.shuffled(picks).card_count() == 52,
        game.deck.len() >= 2 * HAND_SIZE ==> game.shuffled(picks).opened().0.is_complete()
            && game.shuffled(picks).opened().0.card_count() == 52,
{
    lemma_turns_conserve_cards(game, guess, choice);
    lemma_shuffle_conserves_cards(game, picks);
    lemma_card_count(game);
    lemma_card_count(game.human_turn(guess).0);
    lemma_card_count(game.computer_turn(choice).0);
    lemma_card_count(game.shuffled(picks));
    if game.deck.len() >= 2 * HAND_SIZE {
        lemma_opening_conserves_cards(game.shuffled(picks));
        lemma_card_count(game.shuffled(picks).opened().0);
    }
}

} // verus!
