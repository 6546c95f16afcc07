//! Which card of a trick wins it.

use std::collections::VecDeque;
use vstd::prelude::*;
use crate::card::{Card, Rank, Suit};

verus! {

/// Whether the card at `i` can win the trick at all: a joker, a card of the
/// suit that was led (the trick's last card), or a card of the trump suit.
/// A card of any other suit never wins, whatever its rank.
pub open spec fn contends(trick: Seq<Card>, trump: Option<Suit>, i: int) -> bool {
    ||| trick[i].rank is Joker
    ||| trick[i].suit == trick.last().suit
    ||| trump == Some(trick[i].suit)
}

/// `w` is the index of the winning card: it contends, no contending card is
/// stronger, and of the contending cards that are as strong as it, it is the
/// one played last (the one nearest the front).
pub open spec fn is_winning(trick: Seq<Card>, trump: Option<Suit>, w: int) -> bool {
    &&& 0 <= w < trick.len()
    &&& contends(trick, trump, w)
    &&& forall|j: int|
        0 <= j < trick.len() && #[trigger] contends(trick, trump, j) ==> trick[j].strength(trump)
            <= trick[w].strength(trump)
    &&& forall|j: int|
        0 <= j < w && #[trigger] contends(trick, trump, j) ==> trick[j].strength(trump)
            < trick[w].strength(trump)
}

/// Index of the winning card of a trick that is not empty.
pub open spec fn winning_index(trick: Seq<Card>, trump: Option<Suit>) -> int {
    choose|w: int| is_winning(trick, trump, w)
}

/// `w` wins among the cards from index `from` on.
spec fn is_winning_from(trick: Seq<Card>, trump: Option<Suit>, w: int, from: int) -> bool {
    &&& from <= w < trick.len()
    &&& contends(trick, trump, w)
    &&& forall|j: int|
        from <= j < trick.len() && #[trigger] contends(trick, trump, j) ==> trick[j].strength(trump)
            <= trick[w].strength(trump)
    &&& forall|j: int|
        from <= j < w && #[trigger] contends(trick, trump, j) ==> trick[j].strength(trump)
            < trick[w].strength(trump)
}

proof fn lemma_winner_from(trick: Seq<Card>, trump: Option<Suit>, from: int) -> (w: int)
    requires
        0 <= from < trick.len(),
    ensures
        is_winning_from(trick, trump, w, from),
    decreases trick.len() - from,
{
    if from == trick.len() - 1 {
        from
    } else {
        let rest = lemma_winner_from(trick, trump, from + 1);
        if contends(trick, trump, from) && trick[from].strength(trump) >= trick[rest].strength(
            trump,
        ) {
            from
        } else {
            rest
        }
    }
}

/// Every trick that holds a card has exactly one winning card.
pub proof fn lemma_winner_unique(trick: Seq<Card>, trump: Option<Suit>)
    requires
        trick.len() > 0,
    ensures
        is_winning(trick, trump, winning_index(trick, trump)),
        forall|w: int| is_winning(trick, trump, w) ==> w == winning_index(trick, trump),
{
    let w0 = lemma_winner_from(trick, trump, 0);
    assert(is_winning(trick, trump, w0));
    let c = winning_index(trick, trump);
    assert forall|w: int| is_winning(trick, trump, w) implies w == c by {
        if w < c {
            assert(contends(trick, trump, w));
        } else if c < w {
            assert(contends(trick, trump, c));
        }
    }
}

/// A joker always wins: where the trick holds a joker, the winning card is a
/// joker, whatever the trump.
pub proof fn lemma_joker_wins(trick: Seq<Card>, trump: Option<Suit>, i: int)
    requires
        0 <= i < trick.len(),
        trick[i].rank is Joker,
    ensures
        trick[winning_index(trick, trump)].rank is Joker,
{
    lemma_winner_unique(trick, trump);
    let w = winning_index(trick, trump);
    assert(contends(trick, trump, i));
    assert(trick[i].strength(trump) <= trick[w].strength(trump));
}

/// Where no two contending cards are equally strong, the winning card is the
/// one strictly stronger than every other contending card.
pub proof fn lemma_winner_is_strict_maximum(trick: Seq<Card>, trump: Option<Suit>)
    requires
        trick.len() > 0,
        forall|i: int, j: int|
            0 <= i < j < trick.len() && #[trigger] contends(trick, trump, i) && #[trigger] contends(
                trick,
                trump,
                j,
            ) ==> trick[i].strength(trump) != trick[j].strength(trump),
    ensures
        forall|j: int|
            0 <= j < trick.len() && j != winning_index(trick, trump) && #[trigger] contends(
                trick,
                trump,
                j,
            ) ==> trick[j].strength(trump) < trick[winning_index(trick, trump)].strength(trump),
{
    lemma_winner_unique(trick, trump);
    let w = winning_index(trick, trump);
    assert(contends(trick, trump, w));
}

/// Finds the winning card of a trick.
pub fn winning_card(trick: &VecDeque<Card>, trump: Option<Suit>) -> (w: usize)
    requires
        trick@.len() > 0,
    ensures
        w == winning_index(trick@, trump),
        is_winning(trick@, trump, w as int),
{
    let n = trick.len();
    let lead = trick[n - 1].suit;
    let mut best: usize = n - 1;
    let mut best_value: u8 = trick[n - 1].value(trump);
    let mut i: usize = n - 1;
    while i > 0
        invariant
            n == trick@.len(),
            lead == trick@.last().suit,
            0 <= i < n,
            best_value == trick@[best as int].strength(trump),
            is_winning_from(trick@, trump, best as int, i as int),
        decreases i,
    {
        i = i - 1;
        let card = trick[i];
        let value = card.value(trump);
        let contender = card.rank == Rank::Joker || card.suit == lead || trump == Some(
            card.suit,
        );
        if contender && value >= best_value {
            best = i;
            best_value = value;
        }
    }
    proof {
        assert(is_winning(trick@, trump, best as int));
        lemma_winner_unique(trick@, trump);
    }
    best
}

} // verus!
