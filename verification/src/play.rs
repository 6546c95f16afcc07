//! Whose turn it is, which cards may be played, and playing one.

use vstd::prelude::*;
use crate::card::{Card, Suit};
use crate::components::GameInfo;
use crate::laws::{lemma_place_conserves_cards, lemma_place_keeps_wf};
use crate::table::{next_seat, SEATS};

verus! {

fn seat_after(seat: usize) -> (next: usize)
    ensures
        next == next_seat(seat as int),
{
    (seat % 4 + 1) % 4
}

impl GameInfo {
    /// The seat whose turn it is to play.
    pub fn turn(&self) -> (seat: usize)
        ensures
            seat == self@.turn(),
    {
        if self.cards_placed.len() > 0 {
            seat_after(self.cards_placed[0].player)
        } else {
            match self.last_took {
                Some(seat) => seat,
                None => seat_after(self.dealer),
            }
        }
    }

    /// Whether the seat already has a card in the trick in progress.
    pub fn has_played(&self, seat: usize) -> (played: bool)
        ensures
            played == self@.has_played(seat as int),
    {
        let n = self.cards_placed.len();
        let mut i: usize = 0;
        while i < n
            invariant
                n == self.cards_placed@.len(),
                0 <= i <= n,
                forall|j: int| 0 <= j < i ==> (#[trigger] self.cards_placed@[j]).player != seat,
            decreases n - i,
        {
            if self.cards_placed[i].player == seat {
                return true;
            }
            i = i + 1;
        }
        false
    }

    /// Whether the seat holds a card of the suit.
    pub fn holds_suit(&self, seat: usize, suit: Suit) -> (held: bool)
        requires
            seat < self.players@.len(),
        ensures
            held == self.players@[seat as int]@.holds_suit(suit),
    {
        let hand = &self.players[seat].cards;
        let n = hand.len();
        let mut i: usize = 0;
        while i < n
            invariant
                n == hand@.len(),
                hand@ == self.players@[seat as int]@.cards,
                0 <= i <= n,
                forall|j: int| 0 <= j < i ==> (#[trigger] hand@[j]).suit != suit,
            decreases n - i,
        {
            if hand[i].suit == suit {
                return true;
            }
            i = i + 1;
        }
        false
    }
}

impl Card {
    /// Whether the card's seat may play the card now: it is the seat's turn,
    /// the seat has no card in the trick yet, and the card follows suit
    /// where the seat can.
    pub fn can_place(&self, game_info: &GameInfo) -> (ok: bool)
        requires
            game_info.players@.len() == SEATS,
        ensures
            ok == game_info@.can_place(*self),
    {
        if self.player >= SEATS {
            return false;
        }
        if self.player != game_info.turn() {
            return false;
        }
        if game_info.has_played(self.player) {
            return false;
        }
        let n = game_info.cards_placed.len();
        if n > 0 {
            let lead = game_info.cards_placed[n - 1].suit;
            let free = match lead {
                Suit::Joker(_) => true,
                _ => match self.suit {
                    Suit::Joker(_) => true,
                    _ => false,
                },
            };
            if self.suit != lead && !free && game_info.holds_suit(self.player, lead) {
                return false;
            }
        }
        true
    }
}

impl GameInfo {
    /// Where in its seat's hand the card is, if the seat holds it.
    pub fn position(&self, card: &Card) -> (at: Option<usize>)
        requires
            self.players@.len() == SEATS,
        ensures
            at is Some <==> self@.holds(*card),
            at matches Some(i) ==> {
                let hand = self@.players[card.player as int].cards;
                &&& i < hand.len()
                &&& hand[i as int] == *card
                &&& hand.index_of_first(*card) == Some(i as int)
            },
    {
        if card.player >= SEATS {
            return None;
        }
        let hand = &self.players[card.player].cards;
        let n = hand.len();
        let mut i: usize = 0;
        while i < n
            invariant
                n == hand@.len(),
                card.player < SEATS,
                hand@ == self@.players[card.player as int].cards,
                0 <= i <= n,
                forall|j: int| 0 <= j < i ==> hand@[j] != *card,
            decreases n - i,
        {
            if hand[i] == *card {
                proof {
                    hand@.index_of_first_ensures(*card);
                }
                return Some(i);
            }
            i = i + 1;
        }
        None
    }

    /// Moves the card from its seat's hand to the front of the trick.
    pub fn place_card(&mut self, card: Card)
        requires
            old(self).players@.len() == SEATS,
            old(self)@.can_place(card),
            old(self)@.holds(card),
        ensures
            final(self)@ == old(self)@.place(card),
            old(self)@.wf() ==> final(self)@.wf(),
            old(self)@.in_round() ==> final(self)@.in_round(),
    {
        proof {
            if self@.wf() {
                lemma_place_keeps_wf(self@, card);
                lemma_place_conserves_cards(self@, card);
            }
        }
        let at = self.position(&card).unwrap();
        let played = self.players[card.player].cards.remove(at);
        self.cards_placed.push_front(played);
        assert(self@.players =~= old(self)@.place(card).players);
        assert(self@.cards_placed =~= old(self)@.place(card).cards_placed);
    }

    /// Plays the card if its seat holds it and may play it now, and says
    /// whether it did. A card that is refused changes nothing.
    pub fn play(&mut self, card: Card) -> (accepted: bool)
        requires
            old(self).players@.len() == SEATS,
        ensures
            accepted == (old(self)@.can_place(card) && old(self)@.holds(card)),
            accepted ==> final(self)@ == old(self)@.place(card),
            !accepted ==> *final(self) == *old(self),
            accepted && old(self)@.wf() ==> final(self)@.wf(),
            accepted && old(self)@.in_round() ==> final(self)@.in_round(),
    {
        if !card.can_place(self) {
            return false;
        }
        if self.position(&card).is_none() {
            return false;
        }
        self.place_card(card);
        true
    }
}

} // verus!
