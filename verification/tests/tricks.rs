use joker::card::{Card, Rank, Suit};
use joker::trick::winning_card;
use std::collections::VecDeque;

/// A trick from the cards in the order played; the front is the last one.
fn trick(played: &[(Suit, Rank, usize)]) -> VecDeque<Card> {
    let mut cards = VecDeque::new();
    for (suit, rank, player) in played {
        cards.push_front(Card { rank: *rank, suit: *suit, player: *player });
    }
    cards
}

/// Place in playing order of the winning card.
fn winner_in_order(played: &[(Suit, Rank, usize)], trump: Option<Suit>) -> usize {
    let cards = trick(played);
    cards.len() - 1 - winning_card(&cards, trump)
}

#[test]
fn highest_card_of_the_suit_led_wins() {
    let played = [
        (Suit::Spades, Rank::Nine, 0),
        (Suit::Spades, Rank::King, 1),
        (Suit::Spades, Rank::Seven, 2),
        (Suit::Spades, Rank::Queen, 3),
    ];
    assert_eq!(winner_in_order(&played, None), 1);
    assert_eq!(winner_in_order(&played, Some(Suit::Hearts)), 1);
    assert_eq!(winner_in_order(&played, Some(Suit::Spades)), 1);
}

#[test]
fn a_card_of_another_suit_never_wins() {
    let played = [
        (Suit::Spades, Rank::Seven, 0),
        (Suit::Hearts, Rank::Ace, 1),
        (Suit::Diamonds, Rank::Ace, 2),
        (Suit::Clubs, Rank::Ace, 3),
    ];
    assert_eq!(winner_in_order(&played, None), 0);
    assert_eq!(winner_in_order(&played, Some(Suit::Joker(false))), 0);
}

#[test]
fn trump_beats_the_suit_led() {
    let played = [
        (Suit::Spades, Rank::Ace, 0),
        (Suit::Hearts, Rank::Six, 1),
        (Suit::Spades, Rank::King, 2),
        (Suit::Diamonds, Rank::Ace, 3),
    ];
    assert_eq!(winner_in_order(&played, Some(Suit::Hearts)), 1);
    assert_eq!(winner_in_order(&played, Some(Suit::Diamonds)), 3);
    assert_eq!(winner_in_order(&played, Some(Suit::Clubs)), 0);
}

#[test]
fn higher_trump_beats_lower_trump() {
    let played = [
        (Suit::Spades, Rank::Ace, 0),
        (Suit::Hearts, Rank::Six, 1),
        (Suit::Hearts, Rank::Ten, 2),
        (Suit::Hearts, Rank::Seven, 3),
    ];
    assert_eq!(winner_in_order(&played, Some(Suit::Hearts)), 2);
}

#[test]
fn joker_wins_whatever_the_trump() {
    let played = [
        (Suit::Spades, Rank::Ace, 0),
        (Suit::Hearts, Rank::Ace, 1),
        (Suit::Joker(false), Rank::Joker, 2),
        (Suit::Spades, Rank::King, 3),
    ];
    for trump in [
        None,
        Some(Suit::Spades),
        Some(Suit::Hearts),
        Some(Suit::Diamonds),
        Some(Suit::Joker(true)),
    ] {
        assert_eq!(winner_in_order(&played, trump), 2);
    }
}

#[test]
fn joker_that_is_led_wins() {
    let played = [
        (Suit::Joker(true), Rank::Joker, 3),
        (Suit::Hearts, Rank::Ace, 0),
        (Suit::Clubs, Rank::Ace, 1),
        (Suit::Hearts, Rank::King, 2),
    ];
    assert_eq!(winner_in_order(&played, Some(Suit::Hearts)), 0);
    assert_eq!(winner_in_order(&played, None), 0);
}

#[test]
fn of_two_jokers_the_one_played_later_wins() {
    let played = [
        (Suit::Spades, Rank::Ace, 0),
        (Suit::Joker(false), Rank::Joker, 1),
        (Suit::Spades, Rank::King, 2),
        (Suit::Joker(true), Rank::Joker, 3),
    ];
    assert_eq!(winner_in_order(&played, None), 3);
    let played = [
        (Suit::Joker(true), Rank::Joker, 0),
        (Suit::Joker(false), Rank::Joker, 1),
        (Suit::Spades, Rank::King, 2),
        (Suit::Spades, Rank::Ace, 3),
    ];
    assert_eq!(winner_in_order(&played, Some(Suit::Spades)), 1);
}

#[test]
fn winner_of_a_single_card_is_that_card() {
    assert_eq!(winner_in_order(&[(Suit::Clubs, Rank::Six, 2)], Some(Suit::Hearts)), 0);
}

#[test]
fn winning_card_gives_the_index_from_the_front() {
    let cards = trick(&[
        (Suit::Spades, Rank::Nine, 0),
        (Suit::Spades, Rank::King, 1),
        (Suit::Spades, Rank::Seven, 2),
        (Suit::Spades, Rank::Queen, 3),
    ]);
    assert_eq!(winning_card(&cards, None), 2);
    assert_eq!(cards[2].player, 1);
}

#[test]
fn winner_is_the_strongest_of_those_that_contend() {
    let suits = [Suit::Spades, Suit::Diamonds, Suit::Clubs, Suit::Hearts];
    let ranks = [Rank::Six, Rank::Nine, Rank::Queen, Rank::Ace];
    for trump in [None, Some(Suit::Diamonds), Some(Suit::Hearts)] {
        for a in 0..16usize {
            for b in 0..16usize {
                for c in 0..16usize {
                    let played = [
                        (Suit::Clubs, Rank::Ten, 0),
                        (suits[a / 4], ranks[a % 4], 1),
                        (suits[b / 4], ranks[b % 4], 2),
                        (suits[c / 4], ranks[c % 4], 3),
                    ];
                    let cards = trick(&played);
                    let w = winning_card(&cards, trump);
                    let lead = cards[3].suit;
                    let contends =
                        |card: &Card| card.suit == lead || Some(card.suit) == trump;
                    assert!(contends(&cards[w]));
                    for (i, card) in cards.iter().enumerate() {
                        if contends(card) {
                            assert!(card.value(trump) <= cards[w].value(trump));
                            if i < w {
                                assert!(card.value(trump) < cards[w].value(trump));
                            }
                        }
                    }
                }
            }
        }
    }
}
