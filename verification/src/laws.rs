//! What the rules guarantee, proved for every table.

use vstd::multiset::Multiset;
use vstd::prelude::*;
use crate::card::{Card, Suit};
use crate::deal::distinct_faces;
use crate::table::{round_points, GameType, Table, SEATS};
use crate::trick::{
    contends, is_winning, lemma_winner_is_strict_maximum, lemma_winner_unique, winning_index,
};

verus! {

/// A seat may only play into a trick that is not yet full, and the seat that
/// may play is the one that many places after the leader.
pub proof fn lemma_turn_follows_leader(t: Table, card: Card)
    requires
        t.wf(),
        t.can_place(card),
    ensures
        t.cards_placed.len() < SEATS,
        card.player == (t.leader() + t.cards_placed.len()) % 4,
{
    let n = t.cards_placed.len() as int;
    if n == 4 {
        assert(t.cards_placed[3].player == (t.leader() + 0) % 4);
        assert(t.cards_placed[0].player == (t.leader() + 3) % 4);
        assert(t.has_played(card.player as int));
    }
    if n > 0 {
        assert(t.cards_placed[0].player == (t.leader() + (n - 1)) % 4);
    }
}

/// A card that its seat holds is well formed and names that seat.
pub proof fn lemma_held_card_is_own(t: Table, card: Card)
    requires
        t.wf(),
        t.holds(card),
    ensures
        card.wf(),
        card.player < SEATS,
{
    let seat = card.player as int;
    assert(t.seat_wf(seat));
    let hand = t.players[seat].cards;
    let i = choose|i: int| 0 <= i < hand.len() && hand[i] == card;
    assert(hand[i].wf());
}

/// Playing a legal card that the seat holds leaves the table well formed.
pub proof fn lemma_place_keeps_wf(t: Table, card: Card)
    requires
        t.wf(),
        t.can_place(card),
        t.holds(card),
    ensures
        t.place(card).wf(),
        t.place(card).in_hands() == t.in_hands() - 1,
        t.place(card).cards_placed.len() == t.cards_placed.len() + 1,
        t.place(card).tricks_taken() == t.tricks_taken(),
{
    lemma_turn_follows_leader(t, card);
    lemma_held_card_is_own(t, card);
    let seat = card.player as int;
    let hand = t.players[seat].cards;
    hand.index_of_first_ensures(card);
    let at = hand.index_of_first(card).unwrap();
    let after = t.place(card);
    let n = t.cards_placed.len() as int;
    assert forall|s: int| 0 <= s < SEATS implies #[trigger] after.seat_wf(s) by {
        assert(t.seat_wf(s));
        if s == seat {
            let left = after.players[s].cards;
            assert forall|i: int| 0 <= i < left.len() implies (#[trigger] left[i]).wf()
                && left[i].player == s by {
                if i < at {
                    assert(left[i] == hand[i]);
                } else {
                    assert(left[i] == hand[i + 1]);
                }
            }
        }
    }
    assert forall|i: int| 0 <= i < n + 1 implies (#[trigger] after.cards_placed[i]).wf()
        && after.cards_placed[i].player == (after.leader() + (n + 1 - 1 - i)) % 4 by {
        if i > 0 {
            assert(after.cards_placed[i] == t.cards_placed[i - 1]);
        }
    }
}

/// Giving a full trick to its winner leaves the table well formed.
pub proof fn lemma_resolve_keeps_wf(t: Table)
    requires
        t.wf(),
        t.cards_placed.len() == SEATS,
    ensures
        t.resolve().wf(),
        0 <= t.winner() < SEATS,
        t.resolve().in_hands() == t.in_hands(),
        t.resolve().tricks_taken() == t.tricks_taken() + 1,
{
    lemma_winner_unique(t.cards_placed, t.trump);
    let at = winning_index(t.cards_placed, t.trump);
    assert(is_winning(t.cards_placed, t.trump, at));
    assert(t.cards_placed[at].player == (t.leader() + (4 - 1 - at)) % 4);
    let after = t.resolve();
    assert forall|s: int| 0 <= s < SEATS implies #[trigger] after.seat_wf(s) by {
        assert(t.seat_wf(s));
    }
}

/// Counting a finished round leaves the table well formed.
pub proof fn lemma_settle_keeps_wf(t: Table)
    requires
        t.wf(),
        t.round_over(),
        t.round < t.game_type.rounds(),
    ensures
        t.settle().wf(),
        t.settle().round_over(),
        t.settle().tricks_taken() == 0,
        t.settle().last_cards_placed.len() == 0,
{
    let after = t.settle();
    assert(t.seat_wf(0) && t.seat_wf(1) && t.seat_wf(2) && t.seat_wf(3));
    assert forall|s: int| 0 <= s < SEATS implies #[trigger] after.seat_wf(s) by {
        assert(t.seat_wf(s));
        let p = t.players[s];
        assert(0 <= p.taken <= 9);
        let points = round_points(p.called, p.taken, t.h_penalty);
        assert(-200 <= points <= 500);
        assert(after.players[s].score == p.score + points);
        assert(after.players[s].cards == p.cards);
    }
}


/// Playing a card loses none and adds none: the bag of cards at the table
/// is the same after as before, and so is their number.
pub proof fn lemma_place_conserves_cards(t: Table, card: Card)
    requires
        t.wf(),
        t.can_place(card),
        t.holds(card),
    ensures
        t.place(card).all_cards() == t.all_cards(),
        t.place(card).card_count() == t.card_count(),
        t.no_duplicates() ==> t.place(card).no_duplicates(),
        t.in_round() ==> t.place(card).in_round(),
{
    broadcast use vstd::seq_lib::group_to_multiset_ensures;

    lemma_place_keeps_wf(t, card);
    lemma_held_card_is_own(t, card);
    let seat = card.player as int;
    let hand = t.players[seat].cards;
    hand.index_of_first_ensures(card);
    let at = hand.index_of_first(card).unwrap();
    let after = t.place(card);
    assert(hand.remove(at).to_multiset() == hand.to_multiset().remove(card));
    assert(hand.to_multiset().count(card) > 0);
    vstd::seq_lib::lemma_multiset_commutative(seq![card], t.cards_placed);
    assert(seq![card] =~= Seq::<Card>::empty().push(card));
    assert(seq![card].to_multiset() =~= Multiset::<Card>::empty().insert(card));
    assert(after.all_cards() =~= t.all_cards());
}

/// Giving a trick to its winner moves its four cards to the place of the
/// trick completed last, whose cards leave the table; the hands stay as they
/// are. So the number of cards at the table falls by what that place held
/// before, and stays the same where it was empty.
pub proof fn lemma_resolve_conserves_cards(t: Table)
    requires
        t.wf(),
        t.cards_placed.len() == SEATS,
    ensures
        t.resolve().held() == t.held(),
        t.resolve().last_cards_placed == t.cards_placed,
        t.resolve().all_cards().add(t.last_cards_placed.to_multiset()) == t.all_cards(),
        t.resolve().card_count() == t.card_count() - t.last_cards_placed.len(),
        t.last_cards_placed.len() == 0 ==> t.resolve().card_count() == t.card_count(),
        t.no_duplicates() ==> t.resolve().no_duplicates(),
        t.in_round() ==> t.resolve().in_round(),
{
    broadcast use vstd::seq_lib::group_to_multiset_ensures;

    lemma_resolve_keeps_wf(t);
    let after = t.resolve();
    assert(after.players[0].cards == t.players[0].cards);
    assert(after.players[1].cards == t.players[1].cards);
    assert(after.players[2].cards == t.players[2].cards);
    assert(after.players[3].cards == t.players[3].cards);
    assert(Seq::<Card>::empty().to_multiset() =~= Multiset::<Card>::empty());
    assert(after.all_cards().add(t.last_cards_placed.to_multiset()) =~= t.all_cards());
    if t.no_duplicates() {
        assert forall|card: Card| after.all_cards().count(card) <= 1 by {
            assert(t.all_cards().count(card) <= 1);
        }
    }
}


/// Within a trick the seats play in seating order, starting at the leader:
/// the card played as the `k`-th is that of the seat `k` places after the
/// leader, and no seat has two cards in the trick.
pub proof fn lemma_trick_in_seating_order(t: Table)
    requires
        t.wf(),
    ensures
        forall|k: int|
            0 <= k < t.cards_placed.len() ==> (#[trigger] t.cards_placed[t.cards_placed.len() - 1
                - k]).player == (t.leader() + k) % 4,
        forall|i: int, j: int|
            0 <= i < j < t.cards_placed.len() ==> (#[trigger] t.cards_placed[i]).player != (
            #[trigger] t.cards_placed[j]).player,
{
    let n = t.cards_placed.len() as int;
    assert forall|i: int, j: int| 0 <= i < j < n implies (#[trigger] t.cards_placed[i]).player != (
    #[trigger] t.cards_placed[j]).player by {
        assert(t.cards_placed[i].player == (t.leader() + (n - 1 - i)) % 4);
        assert(t.cards_placed[j].player == (t.leader() + (n - 1 - j)) % 4);
    }
}

/// Once a card of a natural suit has been led, a seat that holds a card of
/// that suit may play neither a card of another natural suit nor out of turn.
pub proof fn lemma_must_follow_suit(t: Table, card: Card)
    requires
        t.cards_placed.len() > 0,
        !(t.cards_placed.last().suit is Joker),
        t.players[card.player as int].holds_suit(t.cards_placed.last().suit),
        !(card.suit is Joker),
        card.suit != t.cards_placed.last().suit,
    ensures
        !t.can_place(card),
{
}

/// A joker follows every lead, and every card follows a joker that was led:
/// the follow-suit rule refuses neither.
pub proof fn lemma_joker_is_free(t: Table, card: Card)
    requires
        card.suit is Joker || (t.cards_placed.len() > 0 && t.cards_placed.last().suit is Joker),
    ensures
        t.follows_suit(card),
{
}

/// Each counted round advances the round counter by one and nothing else
/// does, and the game is reported complete exactly when the counter reaches
/// the number of rounds of its type: 24 in a classic game, 16 in a game of
/// nines.
pub proof fn lemma_game_completes(t: Table)
    requires
        t.in_round(),
    ensures
        t.award().wf(),
        t.award_progress() is InPlay ==> t.award().round == t.round && t.award().in_round(),
        !(t.award_progress() is InPlay) ==> t.award().round == t.round + 1,
        t.award_progress() is GameComplete <==> !(t.award_progress() is InPlay) && t.round + 1 == (
        match t.game_type {
            GameType::Classic => 24nat,
            GameType::Nines => 16nat,
        }),
        t.award_progress() is NextRound ==> t.award().between_rounds(),
{
    if t.cards_placed.len() == SEATS {
        lemma_resolve_keeps_wf(t);
        lemma_resolve_conserves_cards(t);
        if t.resolve().round_over() {
            lemma_settle_keeps_wf(t.resolve());
        }
    } else if t.round_over() {
        lemma_settle_keeps_wf(t);
    }
}

/// A round that is being played is over exactly when its last trick has been
/// taken: every seat holds nothing, and the tricks taken are as many as the
/// cards each seat was dealt.
pub proof fn lemma_round_over_when_all_taken(t: Table)
    requires
        t.in_round(),
        t.cards_placed.len() < SEATS,
    ensures
        t.in_hands() == 0 ==> t.round_over(),
        t.round_over() ==> t.tricks_taken() == t.game_type.cards_per_seat(t.round),
{
}


/// Counting a round puts no card on the table twice: the hands are empty
/// and the trick shown goes.
pub proof fn lemma_settle_keeps_cards_apart(t: Table)
    requires
        t.wf(),
        t.round_over(),
    ensures
        t.settle().card_count() == 0,
        t.settle().no_duplicates(),
{
    broadcast use vstd::seq_lib::group_to_multiset_ensures;

    let after = t.settle();
    assert(after.players[0].cards =~= Seq::<Card>::empty());
    assert(after.players[1].cards =~= Seq::<Card>::empty());
    assert(after.players[2].cards =~= Seq::<Card>::empty());
    assert(after.players[3].cards =~= Seq::<Card>::empty());
    assert(after.cards_placed =~= Seq::<Card>::empty());
    assert(Seq::<Card>::empty().to_multiset() =~= Multiset::<Card>::empty());
    assert(after.all_cards() =~= Multiset::<Card>::empty());
}


/// In a trick of well-formed cards of distinct faces with at most one joker
/// no two contending cards are equally strong, so that the winning card is
/// the one strictly stronger than every other card that contends.
pub proof fn lemma_winner_is_unique_maximum(trick: Seq<Card>, trump: Option<Suit>)
    requires
        trick.len() > 0,
        forall|i: int| 0 <= i < trick.len() ==> (#[trigger] trick[i]).wf(),
        distinct_faces(trick),
        forall|i: int, j: int|
            0 <= i < j < trick.len() ==> !((#[trigger] trick[i]).rank is Joker && (
            #[trigger] trick[j]).rank is Joker),
    ensures
        forall|j: int|
            0 <= j < trick.len() && j != winning_index(trick, trump) && #[trigger] contends(
                trick,
                trump,
                j,
            ) ==> trick[j].strength(trump) < trick[winning_index(trick, trump)].strength(trump),
{
    assert forall|i: int, j: int|
        0 <= i < j < trick.len() && #[trigger] contends(trick, trump, i) && #[trigger] contends(
            trick,
            trump,
            j,
        ) implies trick[i].strength(trump) != trick[j].strength(trump) by {
        let a = trick[i];
        let b = trick[j];
        assert(a.wf() && b.wf());
        assert(a.suit != b.suit || a.rank != b.rank);
        assert(!(a.rank is Joker && b.rank is Joker));
    }
    lemma_winner_is_strict_maximum(trick, trump);
}


/// Play never stalls: while the trick is not full, the seat whose turn it
/// is may play one of the cards it holds, if it holds any.
pub proof fn lemma_turn_seat_can_play(t: Table)
    requires
        t.wf(),
        t.cards_placed.len() < SEATS,
        t.players[t.turn()].cards.len() > 0,
    ensures
        0 <= t.turn() < SEATS,
        exists|card: Card| t.holds(card) && #[trigger] t.can_place(card),
{
    let seat = t.turn();
    let n = t.cards_placed.len() as int;
    if n > 0 {
        assert(t.cards_placed[0].player == (t.leader() + (n - 1)) % 4);
    }
    assert(seat == (t.leader() + n) % 4);
    assert(!t.has_played(seat)) by {
        if t.has_played(seat) {
            let i = choose|i: int|
                0 <= i < t.cards_placed.len() && (#[trigger] t.cards_placed[i]).player == seat;
            assert(t.cards_placed[i].player == (t.leader() + (n - 1 - i)) % 4);
        }
    }
    assert(t.seat_wf(seat));
    let hand = t.players[seat].cards;
    let card = if n > 0 && t.players[seat].holds_suit(t.cards_placed.last().suit) {
        let lead = t.cards_placed.last().suit;
        let i = choose|i: int| 0 <= i < hand.len() && (#[trigger] hand[i]).suit == lead;
        hand[i]
    } else {
        hand[0]
    };
    assert(hand.contains(card));
    assert(card.player == seat);
    assert(t.holds(card));
    assert(t.can_place(card));
}

} // verus!
