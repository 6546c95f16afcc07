//! The state of a game as the engine holds it.

use std::collections::VecDeque;
use std::string::String;
use vstd::prelude::*;
use crate::card::{Card, Suit};
pub use crate::table::GameType;
use crate::table::{Seat, Table, HUNDRED_PENALTY, SEATS};

verus! {

/// One seat at the table.
#[derive(Debug)]
pub struct Player {
    pub name: String,
    pub cards: Vec<Card>,
    /// Points over the whole game.
    pub score: i32,
    /// Tricks the seat has bid for in this round.
    pub called: i32,
    /// Tricks the seat has won in this round.
    pub taken: i32,
}

impl View for Player {
    type V = Seat;

    open spec fn view(&self) -> Seat {
        Seat {
            name: self.name@,
            cards: self.cards@,
            score: self.score as int,
            called: self.called as int,
            taken: self.taken as int,
        }
    }
}

impl Default for Player {
    fn default() -> (p: Self)
        ensures
            p@ == (Seat { name: Seq::empty(), cards: Seq::empty(), score: 0, called: 0, taken: 0 }),
    {
        Player { name: String::new(), cards: Vec::new(), score: 0, called: 0, taken: 0 }
    }
}

/// Everything the rules read and change. `cards_placed` is the trick in
/// progress with the most recent card at the front; `last_cards_placed` is
/// the trick completed last, kept to be shown.
#[derive(Debug)]
pub struct GameInfo {
    pub _type: GameType,
    pub players: Vec<Player>,
    pub cards_placed: VecDeque<Card>,
    pub last_cards_placed: VecDeque<Card>,
    pub last_took: Option<usize>,
    pub trump: Option<Suit>,
    pub dealer: usize,
    pub round: usize,
    pub h_penalty: i32,
}

impl View for GameInfo {
    type V = Table;

    open spec fn view(&self) -> Table {
        Table {
            game_type: self._type,
            players: Seq::new(self.players@.len(), |seat: int| self.players@[seat]@),
            cards_placed: self.cards_placed@,
            last_cards_placed: self.last_cards_placed@,
            last_took: match self.last_took {
                Some(seat) => Some(seat as nat),
                None => None,
            },
            trump: self.trump,
            dealer: self.dealer as nat,
            round: self.round as nat,
            h_penalty: self.h_penalty as int,
        }
    }
}

impl Default for GameInfo {
    /// An empty table of a classic game: no seats yet, nothing dealt.
    fn default() -> (g: Self)
        ensures
            g@ == (Table {
                game_type: GameType::Classic,
                players: Seq::empty(),
                cards_placed: Seq::empty(),
                last_cards_placed: Seq::empty(),
                last_took: None,
                trump: None,
                dealer: 0,
                round: 0,
                h_penalty: 0,
            }),
    {
        let g = GameInfo {
            _type: GameType::Classic,
            players: Vec::new(),
            cards_placed: VecDeque::new(),
            last_cards_placed: VecDeque::new(),
            last_took: None,
            trump: None,
            dealer: 0,
            round: 0,
            h_penalty: 0,
        };
        assert(g@.players =~= Seq::empty());
        g
    }
}


impl GameInfo {
    /// Sets the table for a new game of the same type: seats the four
    /// players named, in this order, and clears everything else.
    pub fn start_game(&mut self, names: Vec<String>)
        requires
            names@.len() == SEATS,
        ensures
            final(self)@ == Table::fresh(old(self)@.game_type, names@.map_values(|n: String| n@)),
            final(self)@.between_rounds(),
    {
        let ghost wanted = names@.map_values(|n: String| n@);
        let mut names = names;
        let mut players: Vec<Player> = Vec::new();
        while players.len() < SEATS
            invariant
                players@.len() <= SEATS,
                names@.len() + players@.len() == SEATS,
                wanted.len() == SEATS,
                forall|i: int|
                    0 <= i < names@.len() ==> (#[trigger] names@[i])@ == wanted[players@.len() + i],
                forall|s: int|
                    0 <= s < players@.len() ==> (#[trigger] players@[s])@ == (Seat {
                        name: wanted[s],
                        cards: Seq::empty(),
                        score: 0,
                        called: 0,
                        taken: 0,
                    }),
            decreases SEATS - players@.len(),
        {
            let name = names.remove(0);
            players.push(Player { name, cards: Vec::new(), score: 0, called: 0, taken: 0 });
        }
        self.players = players;
        self.cards_placed = VecDeque::new();
        self.last_cards_placed = VecDeque::new();
        self.last_took = None;
        self.trump = None;
        self.dealer = SEATS - 1;
        self.round = 0;
        self.h_penalty = HUNDRED_PENALTY;
        proof {
            let want = Table::fresh(old(self)@.game_type, wanted);
            assert(self@.players =~= want.players);
            assert(self@.seat_wf(0) && self@.seat_wf(1) && self@.seat_wf(2) && self@.seat_wf(3));
        }
    }
}

} // verus!
