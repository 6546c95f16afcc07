//! Giving a trick to its winner, counting a round, and moving on.

use std::collections::VecDeque;
use vstd::prelude::*;
use crate::card::Card;
use crate::components::GameInfo;
use crate::laws::{lemma_resolve_conserves_cards, lemma_resolve_keeps_wf, lemma_settle_keeps_wf};
use crate::table::{round_points, Progress, Seat, HUNDRED_PENALTY, SEATS};
use crate::trick::winning_card;

verus! {

/// Points a seat earns in a round from its bid and the tricks it took.
pub fn points(called: i32, taken: i32, penalty: i32) -> (p: i32)
    requires
        i32::MIN <= (1 + taken) * 50 <= i32::MAX,
        -penalty <= i32::MAX,
    ensures
        p == round_points(called as int, taken as int, penalty as int),
{
    if called == taken {
        (1 + taken) * 50
    } else if taken == 0 {
        -penalty
    } else {
        taken * 10
    }
}

impl GameInfo {
    /// Gives the full trick to its winner and returns the winner's seat.
    pub fn resolve_trick(&mut self) -> (winner: usize)
        requires
            old(self)@.wf(),
            old(self).cards_placed@.len() == SEATS,
        ensures
            winner == old(self)@.winner(),
            final(self)@ == old(self)@.resolve(),
            final(self)@.wf(),
            old(self)@.in_round() ==> final(self)@.in_round(),
    {
        proof {
            lemma_resolve_keeps_wf(self@);
            lemma_resolve_conserves_cards(self@);
            assert(self@.seat_wf(0) && self@.seat_wf(1) && self@.seat_wf(2) && self@.seat_wf(3));
        }
        let at = winning_card(&self.cards_placed, self.trump);
        let winner = self.cards_placed[at].player;
        assert(self@.players[winner as int].taken < 9);
        self.players[winner].taken = self.players[winner].taken + 1;
        self.last_took = Some(winner);
        let mut trick: VecDeque<Card> = VecDeque::new();
        std::mem::swap(&mut trick, &mut self.cards_placed);
        self.last_cards_placed = trick;
        assert(self@.players =~= old(self)@.resolve().players);
        winner
    }

    /// Whether no seat holds a card and no trick is pending.
    pub fn round_over(&self) -> (over: bool)
        requires
            self.players@.len() == SEATS,
        ensures
            over == self@.round_over(),
    {
        self.cards_placed.len() == 0 && self.players[0].cards.len() == 0
            && self.players[1].cards.len() == 0 && self.players[2].cards.len() == 0
            && self.players[3].cards.len() == 0
    }

    /// Whether every round of the game has been counted.
    pub fn game_over(&self) -> (over: bool)
        ensures
            over == self@.game_over(),
    {
        self.round == self._type.total_rounds()
    }

    /// Counts the round that is over: scores every seat, clears its bid and
    /// its tricks, passes the deal on and advances the round counter. Says
    /// whether another round follows or the game is complete.
    pub fn finish_round(&mut self) -> (progress: Progress)
        requires
            old(self)@.wf(),
            old(self)@.round_over(),
            !old(self)@.game_over(),
        ensures
            final(self)@ == old(self)@.settle(),
            final(self)@.wf(),
            progress == if final(self)@.game_over() {
                Progress::GameComplete
            } else {
                Progress::NextRound
            },
    {
        proof {
            lemma_settle_keeps_wf(self@);
            assert(self@.seat_wf(0) && self@.seat_wf(1) && self@.seat_wf(2) && self@.seat_wf(3));
        }
        let penalty = self.h_penalty;
        let mut seat: usize = 0;
        while seat < SEATS
            invariant
                0 <= seat <= SEATS,
                self.players@.len() == SEATS,
                penalty == HUNDRED_PENALTY,
                old(self)@.wf(),
                forall|s: int| 0 <= s < SEATS ==> #[trigger] old(self)@.seat_wf(s),
                forall|s: int|
                    0 <= s < seat ==> (#[trigger] self.players@[s])@ == old(self).players@[s]@.settled(
                        penalty as int,
                    ),
                forall|s: int|
                    seat <= s < SEATS ==> (#[trigger] self.players@[s])@ == old(self).players@[s]@,
                self._type == old(self)._type,
                self.cards_placed == old(self).cards_placed,
                self.last_cards_placed == old(self).last_cards_placed,
                self.last_took == old(self).last_took,
                self.trump == old(self).trump,
                self.dealer == old(self).dealer,
                self.round == old(self).round,
                self.h_penalty == old(self).h_penalty,
            decreases SEATS - seat,
        {
            proof {
                assert(old(self)@.seat_wf(seat as int));
                assert(old(self)@.seat_wf(0) && old(self)@.seat_wf(1) && old(self)@.seat_wf(2)
                    && old(self)@.seat_wf(3));
                assert(0 <= self.players@[seat as int]@.taken <= 9);
            }
            let gained = points(self.players[seat].called, self.players[seat].taken, penalty);
            self.players[seat].score = self.players[seat].score + gained;
            self.players[seat].taken = 0;
            self.players[seat].called = 0;
            seat = seat + 1;
        }
        self.dealer = (self.dealer + 1) % 4;
        self.round = self.round + 1;
        self.last_took = None;
        self.last_cards_placed.clear();
        assert(self@.players =~= old(self)@.settle().players);
        if self.round == self._type.total_rounds() {
            Progress::GameComplete
        } else {
            Progress::NextRound
        }
    }

    /// One step of the engine, to be taken after every card played: a full
    /// trick goes to its winner, and a round that is then over is counted.
    pub fn award_scores(&mut self) -> (progress: Progress)
        requires
            old(self)@.in_round(),
        ensures
            final(self)@ == old(self)@.award(),
            progress == old(self)@.award_progress(),
            final(self)@.wf(),
            progress is InPlay ==> final(self)@.in_round(),
            progress is NextRound ==> final(self)@.between_rounds(),
            progress is GameComplete ==> final(self)@.game_over(),
    {
        if self.cards_placed.len() == SEATS {
            self.resolve_trick();
        }
        if self.round_over() {
            self.finish_round()
        } else {
            Progress::InPlay
        }
    }
}

impl GameInfo {
    /// Takes a seat's bid for the round. A seat that is not at the table is
    /// refused, and nothing changes.
    pub fn bid(&mut self, seat: usize, called: i32) -> (accepted: bool)
        requires
            old(self).players@.len() == SEATS,
        ensures
            accepted == (seat < SEATS),
            accepted ==> final(self)@ == old(self)@.with_bid(seat as int, called as int),
            !accepted ==> *final(self) == *old(self),
            accepted && old(self)@.wf() ==> final(self)@.wf(),
            accepted && old(self)@.in_round() ==> final(self)@.in_round(),
    {
        if seat >= SEATS {
            return false;
        }
        self.players[seat].called = called;
        proof {
            assert(self@.players =~= old(self)@.with_bid(seat as int, called as int).players);
            if old(self)@.wf() {
                assert forall|s: int| 0 <= s < SEATS implies #[trigger] self@.seat_wf(s) by {
                    assert(old(self)@.seat_wf(s));
                }
            }
        }
        true
    }

    /// Takes the round back, so that it can be dealt again.
    pub fn restart_round(&mut self)
        requires
            old(self)@.wf(),
        ensures
            final(self)@ == old(self)@.cleared(),
            final(self)@.wf(),
            !old(self)@.game_over() ==> final(self)@.between_rounds(),
    {
        let mut seat: usize = 0;
        while seat < SEATS
            invariant
                0 <= seat <= SEATS,
                self.players@.len() == SEATS,
                forall|s: int|
                    0 <= s < seat ==> (#[trigger] self.players@[s])@ == (Seat {
                        cards: Seq::empty(),
                        called: 0,
                        taken: 0,
                        ..old(self).players@[s]@
                    }),
                forall|s: int|
                    seat <= s < SEATS ==> (#[trigger] self.players@[s])@ == old(self).players@[s]@,
                self._type == old(self)._type,
                self.cards_placed == old(self).cards_placed,
                self.last_cards_placed == old(self).last_cards_placed,
                self.last_took == old(self).last_took,
                self.trump == old(self).trump,
                self.dealer == old(self).dealer,
                self.round == old(self).round,
                self.h_penalty == old(self).h_penalty,
            decreases SEATS - seat,
        {
            self.players[seat].cards.clear();
            self.players[seat].called = 0;
            self.players[seat].taken = 0;
            seat = seat + 1;
        }
        self.cards_placed.clear();
        self.last_cards_placed.clear();
        self.last_took = None;
        proof {
            assert(self@.players =~= old(self)@.cleared().players);
            assert forall|s: int| 0 <= s < SEATS implies #[trigger] self@.seat_wf(s) by {
                assert(old(self)@.seat_wf(s));
            }
        }
    }
}

} // verus!
