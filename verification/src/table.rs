//! The table as a mathematical value: four seats, the trick being played and
//! the round's counters, with the rules stated as functions on that value.

use vstd::multiset::Multiset;
use vstd::prelude::*;
use crate::card::{Card, Suit};
use crate::trick::winning_index;

verus! {

/// Number of seats at the table.
pub const SEATS: usize = 4;

/// Largest number of cards a seat is ever dealt.
pub const MAX_HAND: usize = 9;

/// Points a seat loses for taking no trick after bidding for some.
pub const HUNDRED_PENALTY: i32 = 200;

/// The two ways a game can be run.
#[derive(Debug, Clone, Copy, PartialEq, Eq, Structural)]
pub enum GameType {
    /// Twenty-four rounds with hands that grow, stay at nine, shrink and
    /// end on nine.
    Classic,
    /// Sixteen rounds of nine cards.
    Nines,
}

impl GameType {
    /// Number of rounds after which the game is complete.
    pub open spec fn rounds(self) -> nat {
        match self {
            GameType::Classic => 24,
            GameType::Nines => 16,
        }
    }

    /// Cards dealt to each seat in the round with the given index, counted
    /// from zero. Every round of nines deals nine. A classic game deals one
    /// card in its first round and one more in each of the next seven, nine
    /// in the four rounds after that, then nine again and one card fewer in
    /// each of the next seven, down to two, and nine in its last four rounds.
    pub open spec fn cards_per_seat(self, round: nat) -> nat {
        match self {
            GameType::Nines => 9,
            GameType::Classic => if round < 8 {
                round + 1
            } else if 12 <= round < 20 {
                (9 - (round - 12)) as nat
            } else {
                9
            },
        }
    }

    /// Number of rounds after which the game is complete.
    pub fn total_rounds(&self) -> (n: usize)
        ensures
            n == self.rounds(),
    {
        match self {
            GameType::Classic => 24,
            GameType::Nines => 16,
        }
    }

    /// Cards dealt to each seat in the round with the given index.
    pub fn hand_size(&self, round: usize) -> (n: usize)
        ensures
            n == self.cards_per_seat(round as nat),
            1 <= n <= MAX_HAND,
    {
        match self {
            GameType::Nines => 9,
            GameType::Classic => if round < 8 {
                round + 1
            } else if 12 <= round && round < 20 {
                9 - (round - 12)
            } else {
                9
            },
        }
    }
}

impl Default for GameType {
    /// A game is classic unless it is made otherwise.
    fn default() -> (r: Self)
        ensures
            r == GameType::Classic,
    {
        GameType::Classic
    }
}

/// What the table owner has to do after a step of the engine.
#[derive(Debug, Clone, Copy, PartialEq, Eq, Structural)]
pub enum Progress {
    /// The round goes on.
    InPlay,
    /// The round was counted; the next one is to be dealt.
    NextRound,
    /// The last round was counted; a new game is to be set up.
    GameComplete,
}

/// The seat after `seat`, going round the table.
pub open spec fn next_seat(seat: int) -> int {
    (seat + 1) % 4
}

/// Points a seat earns in a round from its bid and the tricks it took.
pub open spec fn round_points(called: int, taken: int, penalty: int) -> int {
    if called == taken {
        (1 + taken) * 50
    } else if taken == 0 {
        -penalty
    } else {
        taken * 10
    }
}

/// The least a seat can have after so many rounds: the penalty in each.
pub open spec fn lowest_score(rounds: nat) -> int {
    -200 * (rounds as int)
}

/// The most a seat can have after so many rounds: nine tricks bid and taken
/// in each.
pub open spec fn highest_score(rounds: nat) -> int {
    500 * (rounds as int)
}

/// One seat: who sits there, what they hold, and their counters.
pub struct Seat {
    pub name: Seq<char>,
    pub cards: Seq<Card>,
    pub score: int,
    pub called: int,
    pub taken: int,
}

impl Seat {
    /// Whether the seat holds a card of the suit.
    pub open spec fn holds_suit(self, suit: Suit) -> bool {
        exists|i: int| 0 <= i < self.cards.len() && (#[trigger] self.cards[i]).suit == suit
    }

    /// The seat once a round's points are counted and its counters cleared.
    pub open spec fn settled(self, penalty: int) -> Seat {
        Seat {
            score: self.score + round_points(self.called, self.taken, penalty),
            called: 0,
            taken: 0,
            ..self
        }
    }
}

/// The whole table. `cards_placed` is the trick in progress, most recent
/// card first, so its last card is the one that was led.
pub struct Table {
    pub game_type: GameType,
    pub players: Seq<Seat>,
    pub cards_placed: Seq<Card>,
    pub last_cards_placed: Seq<Card>,
    pub last_took: Option<nat>,
    pub trump: Option<Suit>,
    pub dealer: nat,
    pub round: nat,
    pub h_penalty: int,
}

impl Table {
    /// The table set for a new game: the four seats named and empty-handed,
    /// no points, the last seat dealing, so that the first seat leads.
    pub open spec fn fresh(game_type: GameType, names: Seq<Seq<char>>) -> Table {
        Table {
            game_type,
            players: Seq::new(
                SEATS as nat,
                |seat: int|
                    Seat { name: names[seat], cards: Seq::empty(), score: 0, called: 0, taken: 0 },
            ),
            cards_placed: Seq::empty(),
            last_cards_placed: Seq::empty(),
            last_took: None,
            trump: None,
            dealer: (SEATS - 1) as nat,
            round: 0,
            h_penalty: HUNDRED_PENALTY as int,
        }
    }

    /// Cards held by the four seats together.
    pub open spec fn in_hands(self) -> nat {
        self.players[0].cards.len() + self.players[1].cards.len() + self.players[2].cards.len()
            + self.players[3].cards.len()
    }

    /// Tricks won so far in the round by the four seats together.
    pub open spec fn tricks_taken(self) -> int {
        self.players[0].taken + self.players[1].taken + self.players[2].taken
            + self.players[3].taken
    }

    /// Cards that can be seen on the table or are held: the hands, the trick
    /// in progress and the trick completed last.
    pub open spec fn card_count(self) -> nat {
        self.in_hands() + self.cards_placed.len() + self.last_cards_placed.len()
    }

    /// The cards that the four seats hold, as a bag.
    pub open spec fn held(self) -> Multiset<Card> {
        self.players[0].cards.to_multiset().add(self.players[1].cards.to_multiset()).add(
            self.players[2].cards.to_multiset(),
        ).add(self.players[3].cards.to_multiset())
    }

    /// Every card at the table, as a bag: the hands, the trick in progress
    /// and the trick completed last.
    pub open spec fn all_cards(self) -> Multiset<Card> {
        self.held().add(self.cards_placed.to_multiset()).add(
            self.last_cards_placed.to_multiset(),
        )
    }

    /// No card is at the table twice, in one place or in two.
    pub open spec fn no_duplicates(self) -> bool {
        forall|card: Card| self.all_cards().count(card) <= 1
    }

    /// The seat that leads the trick: the winner of the trick before, or the
    /// seat after the dealer for the first trick of a round.
    pub open spec fn leader(self) -> int {
        match self.last_took {
            Some(seat) => seat as int,
            None => next_seat(self.dealer as int),
        }
    }

    /// The seat whose turn it is to play.
    pub open spec fn turn(self) -> int {
        if self.cards_placed.len() == 0 {
            self.leader()
        } else {
            next_seat(self.cards_placed[0].player as int)
        }
    }

    /// Whether the seat already has a card in the trick in progress.
    pub open spec fn has_played(self, seat: int) -> bool {
        exists|i: int|
            0 <= i < self.cards_placed.len() && (#[trigger] self.cards_placed[i]).player == seat
    }

    /// The follow-suit rule: once a card of a natural suit has been led, a
    /// seat that holds that suit plays it or plays a joker.
    pub open spec fn follows_suit(self, card: Card) -> bool {
        self.cards_placed.len() > 0 ==> {
            let lead = self.cards_placed.last().suit;
            ||| card.suit == lead
            ||| lead is Joker
            ||| card.suit is Joker
            ||| !self.players[card.player as int].holds_suit(lead)
        }
    }

    /// Whether the card's seat may play the card now.
    pub open spec fn can_place(self, card: Card) -> bool {
        &&& card.player < SEATS
        &&& card.player == self.turn()
        &&& !self.has_played(card.player as int)
        &&& self.follows_suit(card)
    }

    /// Whether the card is in the hand of its seat.
    pub open spec fn holds(self, card: Card) -> bool {
        card.player < SEATS && self.players[card.player as int].cards.contains(card)
    }

    /// The table after the card has moved from its seat's hand to the front
    /// of the trick.
    pub open spec fn place(self, card: Card) -> Table {
        let seat = card.player as int;
        let hand = self.players[seat].cards;
        let at = hand.index_of_first(card).unwrap();
        Table {
            players: self.players.update(
                seat,
                Seat { cards: hand.remove(at), ..self.players[seat] },
            ),
            cards_placed: seq![card] + self.cards_placed,
            ..self
        }
    }

    /// The seat whose card wins the trick in progress.
    pub open spec fn winner(self) -> int {
        self.cards_placed[winning_index(self.cards_placed, self.trump)].player as int
    }

    /// The table after the trick in progress has gone to its winner: one
    /// more trick taken, the winner leads next, the trick is kept for
    /// display and the trick area is empty.
    pub open spec fn resolve(self) -> Table {
        let w = self.winner();
        Table {
            players: self.players.update(
                w,
                Seat { taken: self.players[w].taken + 1, ..self.players[w] },
            ),
            last_took: Some(w as nat),
            last_cards_placed: self.cards_placed,
            cards_placed: Seq::empty(),
            ..self
        }
    }

    /// A round is over when no seat holds a card and no trick is pending.
    pub open spec fn round_over(self) -> bool {
        self.in_hands() == 0 && self.cards_placed.len() == 0
    }

    /// The table after a round has been counted: every seat scored and its
    /// counters cleared, the deal passed on, the round counter advanced.
    pub open spec fn settle(self) -> Table {
        Table {
            players: Seq::new(4, |seat: int| self.players[seat].settled(self.h_penalty)),
            dealer: next_seat(self.dealer as int) as nat,
            round: self.round + 1,
            last_took: None,
            last_cards_placed: Seq::empty(),
            ..self
        }
    }

    /// The game is complete once as many rounds were counted as its type has.
    pub open spec fn game_over(self) -> bool {
        self.round == self.game_type.rounds()
    }

    /// The table after the engine's step: a full trick goes to its winner,
    /// and a round that is then over is counted.
    pub open spec fn award(self) -> Table {
        let t = if self.cards_placed.len() == SEATS {
            self.resolve()
        } else {
            self
        };
        if t.round_over() {
            t.settle()
        } else {
            t
        }
    }

    /// What the engine's step reports.
    pub open spec fn award_progress(self) -> Progress {
        let t = if self.cards_placed.len() == SEATS {
            self.resolve()
        } else {
            self
        };
        if !t.round_over() {
            Progress::InPlay
        } else if t.settle().game_over() {
            Progress::GameComplete
        } else {
            Progress::NextRound
        }
    }

    /// The table with the seat's bid for the round set.
    pub open spec fn with_bid(self, seat: int, called: int) -> Table {
        Table {
            players: self.players.update(seat, Seat { called, ..self.players[seat] }),
            ..self
        }
    }

    /// The table with the round taken back: no seat holds a card or a trick
    /// or has a bid, nothing is on the table, and the round is still to be
    /// dealt. Points, dealer and round counter are as they were.
    pub open spec fn cleared(self) -> Table {
        Table {
            players: Seq::new(
                SEATS as nat,
                |seat: int|
                    Seat { cards: Seq::empty(), called: 0, taken: 0, ..self.players[seat] },
            ),
            cards_placed: Seq::empty(),
            last_cards_placed: Seq::empty(),
            last_took: None,
            ..self
        }
    }

    /// The cards of a seat are well formed and its own, it has taken no
    /// negative number of tricks, and its score is what so many rounds can
    /// have brought.
    pub open spec fn seat_wf(self, seat: int) -> bool {
        let p = self.players[seat];
        &&& forall|i: int|
            0 <= i < p.cards.len() ==> (#[trigger] p.cards[i]).wf() && p.cards[i].player == seat
        &&& 0 <= p.taken
        &&& lowest_score(self.round) <= p.score <= highest_score(self.round)
    }

    /// The trick in progress holds at most one card per seat, played in
    /// seating order from the leader on.
    pub open spec fn trick_wf(self) -> bool {
        let n = self.cards_placed.len() as int;
        &&& n <= SEATS
        &&& forall|i: int|
            0 <= i < n ==> (#[trigger] self.cards_placed[i]).wf() && self.cards_placed[i].player
                == (self.leader() + (n - 1 - i)) % 4
    }

    /// What holds of the table at every moment of a game.
    pub open spec fn wf(self) -> bool {
        &&& self.players.len() == SEATS
        &&& self.dealer < SEATS
        &&& (self.last_took matches Some(seat) ==> seat < SEATS)
        &&& self.h_penalty == HUNDRED_PENALTY
        &&& self.round <= self.game_type.rounds()
        &&& forall|seat: int| 0 <= seat < SEATS ==> #[trigger] self.seat_wf(seat)
        &&& self.trick_wf()
        &&& self.in_hands() + self.cards_placed.len() + SEATS * self.tricks_taken() <= SEATS
            * MAX_HAND
    }

    /// Nothing is dealt: the table as it is before a round's deal.
    pub open spec fn between_rounds(self) -> bool {
        &&& self.wf()
        &&& self.round < self.game_type.rounds()
        &&& self.round_over()
        &&& self.tricks_taken() == 0
        &&& self.last_cards_placed.len() == 0
    }

    /// A round has been dealt and every card of it is accounted for: held,
    /// in the trick in progress, or in one of the tricks taken.
    pub open spec fn in_round(self) -> bool {
        &&& self.wf()
        &&& self.round < self.game_type.rounds()
        &&& self.in_hands() + self.cards_placed.len() + SEATS * self.tricks_taken() == SEATS
            * self.game_type.cards_per_seat(self.round)
    }
}

} // verus!
