//! Checking at run time that a table, or a deck, is what the rules assume.

use vstd::prelude::*;
use crate::card::{Card, Rank, Suit};
use crate::components::GameInfo;
use crate::table::{HUNDRED_PENALTY, MAX_HAND, SEATS};

verus! {

impl Card {
    /// Whether the card is a joker in rank exactly when it is one in suit.
    pub fn is_wf(&self) -> (ok: bool)
        ensures
            ok == self.wf(),
    {
        let joker_suit = match self.suit {
            Suit::Joker(_) => true,
            _ => false,
        };
        (self.rank == Rank::Joker) == joker_suit
    }
}

impl GameInfo {
    fn seat_is_wf(&self, seat: usize) -> (ok: bool)
        requires
            self.players@.len() == SEATS,
            seat < SEATS,
            self.round <= 24,
        ensures
            ok == self@.seat_wf(seat as int),
    {
        let player = &self.players[seat];
        if player.taken < 0 {
            return false;
        }
        let rounds: i64 = self.round as i64;
        let score: i64 = player.score as i64;
        if score < -200 * rounds || score > 500 * rounds {
            return false;
        }
        let n = player.cards.len();
        let mut i: usize = 0;
        while i < n
            invariant
                seat < SEATS,
                self.players@.len() == SEATS,
                player == self.players@[seat as int],
                n == player.cards@.len(),
                0 <= i <= n,
                forall|j: int|
                    0 <= j < i ==> (#[trigger] player.cards@[j]).wf() && player.cards@[j].player
                        == seat,
            decreases n - i,
        {
            if !player.cards[i].is_wf() || player.cards[i].player != seat {
                return false;
            }
            i = i + 1;
        }
        true
    }

    fn trick_is_wf(&self) -> (ok: bool)
        requires
            self.dealer < SEATS,
            self.last_took matches Some(seat) ==> seat < SEATS,
        ensures
            ok == self@.trick_wf(),
    {
        let n = self.cards_placed.len();
        if n > SEATS {
            return false;
        }
        let leader = match self.last_took {
            Some(seat) => seat,
            None => (self.dealer + 1) % 4,
        };
        let mut i: usize = 0;
        while i < n
            invariant
                n == self.cards_placed@.len(),
                n <= SEATS,
                leader == self@.leader(),
                leader < SEATS,
                0 <= i <= n,
                forall|j: int|
                    0 <= j < i ==> (#[trigger] self.cards_placed@[j]).wf()
                        && self.cards_placed@[j].player == (leader + (n - 1 - j)) % 4,
            decreases n - i,
        {
            let card = self.cards_placed[i];
            if !card.is_wf() || card.player != (leader + (n - 1 - i)) % 4 {
                return false;
            }
            i = i + 1;
        }
        true
    }

    /// Whether the table is one that a game can be in.
    pub fn is_wf(&self) -> (ok: bool)
        ensures
            ok == self@.wf(),
    {
        if self.players.len() != SEATS || self.dealer >= SEATS || self.h_penalty
            != HUNDRED_PENALTY || self.round > self._type.total_rounds() {
            return false;
        }
        match self.last_took {
            Some(seat) => {
                if seat >= SEATS {
                    return false;
                }
            },
            None => {},
        }
        let mut seat: usize = 0;
        let mut held: usize = 0;
        let mut taken: i32 = 0;
        while seat < SEATS
            invariant
                0 <= seat <= SEATS,
                self.players@.len() == SEATS,
                self.round <= 24,
                forall|s: int| 0 <= s < seat ==> #[trigger] self@.seat_wf(s),
                held <= seat * (SEATS * MAX_HAND),
                0 <= taken <= seat * MAX_HAND,
                held == (if seat > 0 {
                    self@.players[0].cards.len()
                } else {
                    0
                }) + (if seat > 1 {
                    self@.players[1].cards.len()
                } else {
                    0
                }) + (if seat > 2 {
                    self@.players[2].cards.len()
                } else {
                    0
                }) + (if seat > 3 {
                    self@.players[3].cards.len()
                } else {
                    0
                }),
                taken == (if seat > 0 {
                    self@.players[0].taken
                } else {
                    0
                }) + (if seat > 1 {
                    self@.players[1].taken
                } else {
                    0
                }) + (if seat > 2 {
                    self@.players[2].taken
                } else {
                    0
                }) + (if seat > 3 {
                    self@.players[3].taken
                } else {
                    0
                }),
            decreases SEATS - seat,
        {
            if !self.seat_is_wf(seat) {
                return false;
            }
            let cards = self.players[seat].cards.len();
            let tricks = self.players[seat].taken;
            if cards > SEATS * MAX_HAND || tricks > 9 {
                proof {
                    if self@.wf() {
                        assert(self@.seat_wf(0) && self@.seat_wf(1) && self@.seat_wf(2)
                            && self@.seat_wf(3));
                    }
                }
                return false;
            }
            held = held + cards;
            taken = taken + tricks;
            seat = seat + 1;
        }
        if !self.trick_is_wf() {
            return false;
        }
        held + self.cards_placed.len() + SEATS * (taken as usize) <= SEATS * MAX_HAND
    }

    /// Whether the table is well formed, with nothing dealt and a round
    /// still to play.
    pub fn is_between_rounds(&self) -> (ok: bool)
        ensures
            ok == self@.between_rounds(),
    {
        if !self.is_wf() {
            return false;
        }
        proof {
            assert(self@.seat_wf(0) && self@.seat_wf(1) && self@.seat_wf(2) && self@.seat_wf(3));
        }
        self.round < self._type.total_rounds() && self.round_over() && self.players[0].taken
            == 0 && self.players[1].taken == 0 && self.players[2].taken == 0
            && self.players[3].taken == 0 && self.last_cards_placed.len() == 0
    }

    /// Whether the table is well formed and every card of the round dealt
    /// is accounted for.
    pub fn is_in_round(&self) -> (ok: bool)
        ensures
            ok == self@.in_round(),
    {
        if !self.is_wf() {
            return false;
        }
        if self.round >= self._type.total_rounds() {
            return false;
        }
        proof {
            assert(self@.seat_wf(0) && self@.seat_wf(1) && self@.seat_wf(2) && self@.seat_wf(3));
        }
        let held = self.players[0].cards.len() + self.players[1].cards.len()
            + self.players[2].cards.len() + self.players[3].cards.len();
        let taken = self.players[0].taken + self.players[1].taken + self.players[2].taken
            + self.players[3].taken;
        held + self.cards_placed.len() + SEATS * (taken as usize) == SEATS
            * self._type.hand_size(self.round)
    }

    /// Whether the deck can serve the round to be dealt.
    pub fn deck_serves(&self, deck: &Vec<Card>, trump_stays: bool) -> (ok: bool)
        ensures
            ok == self@.deck_serves(deck@, trump_stays),
    {
        let n = deck.len();
        let needed = SEATS * self._type.hand_size(self.round) + if trump_stays {
            0
        } else {
            1
        };
        if n < needed {
            return false;
        }
        let mut i: usize = 0;
        while i < n
            invariant
                n == deck@.len(),
                0 <= i <= n,
                forall|j: int| 0 <= j < i ==> (#[trigger] deck@[j]).wf(),
            decreases n - i,
        {
            if !deck[i].is_wf() {
                return false;
            }
            i = i + 1;
        }
        true
    }
}

} // verus!
