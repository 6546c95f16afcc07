use joker::card::{Card, Rank, Suit};
use joker::components::{GameInfo, Player};
use joker::table::GameType;
use std::collections::VecDeque;

fn card(code: &str, player: usize) -> Card {
    Card::from_string(code.to_string(), player)
}

/// A table in the first round of a classic game, dealer in the last seat,
/// with the hands given by their codes.
fn table(hands: [&[&str]; 4]) -> GameInfo {
    let mut players = Vec::new();
    for (seat, hand) in hands.iter().enumerate() {
        players.push(Player {
            name: format!("seat {}", seat),
            cards: hand.iter().map(|c| card(c, seat)).collect(),
            score: 0,
            called: 0,
            taken: 0,
        });
    }
    GameInfo {
        _type: GameType::Classic,
        players,
        cards_placed: VecDeque::new(),
        last_cards_placed: VecDeque::new(),
        last_took: None,
        trump: None,
        dealer: 3,
        round: 0,
        h_penalty: 200,
    }
}

fn count(game: &GameInfo) -> usize {
    game.players.iter().map(|p| p.cards.len()).sum::<usize>()
        + game.cards_placed.len()
        + game.last_cards_placed.len()
}

fn all_cards(game: &GameInfo) -> Vec<Card> {
    let mut all = Vec::new();
    for player in &game.players {
        all.extend(player.cards.iter().copied());
    }
    all.extend(game.cards_placed.iter().copied());
    all.extend(game.last_cards_placed.iter().copied());
    all
}

fn no_card_twice(game: &GameInfo) -> bool {
    let all = all_cards(game);
    (0..all.len()).all(|i| (0..i).all(|j| all[i] != all[j]))
}

#[test]
fn seat_after_the_dealer_leads_the_first_trick() {
    let mut game = table([&["SA"], &["SK"], &["SQ"], &["SJ"]]);
    assert_eq!(game.turn(), 0);
    assert!(card("SA", 0).can_place(&game));
    assert!(!card("SK", 1).can_place(&game));
    assert!(!card("SQ", 2).can_place(&game));
    assert!(!card("SJ", 3).can_place(&game));
    game.dealer = 1;
    assert_eq!(game.turn(), 2);
    assert!(card("SQ", 2).can_place(&game));
    assert!(!card("SA", 0).can_place(&game));
}

#[test]
fn winner_of_the_last_trick_leads() {
    let mut game = table([&["SA"], &["SK"], &["SQ"], &["SJ"]]);
    game.last_took = Some(2);
    assert_eq!(game.turn(), 2);
    assert!(card("SQ", 2).can_place(&game));
    assert!(!card("SA", 0).can_place(&game));
    assert!(!card("SJ", 3).can_place(&game));
}

#[test]
fn seats_play_in_seating_order_from_the_leader() {
    let mut game = table([&["SA", "S7"], &["SK", "S8"], &["SQ", "S9"], &["SJ", "S1"]]);
    game.last_took = Some(2);
    let order = [("SQ", 2usize), ("SJ", 3), ("SA", 0), ("SK", 1)];
    for (k, (code, seat)) in order.iter().enumerate() {
        assert_eq!(game.turn(), *seat);
        for other in 0..4 {
            let theirs = game.players[other].cards[0];
            assert_eq!(theirs.can_place(&game), other == *seat);
        }
        assert!(game.play(card(code, *seat)));
        assert_eq!(game.cards_placed.len(), k + 1);
        assert_eq!(game.cards_placed[0], card(code, *seat));
        assert!(game.is_wf());
    }
    let seats: Vec<usize> = game.cards_placed.iter().rev().map(|c| c.player).collect();
    assert_eq!(seats, [2, 3, 0, 1]);
}

#[test]
fn no_seat_plays_twice_into_a_trick() {
    let mut game = table([&["SA", "S7"], &["SK", "S8"], &["SQ", "S9"], &["SJ", "S1"]]);
    for (code, seat) in [("SA", 0), ("SK", 1), ("SQ", 2), ("SJ", 3)] {
        assert!(game.play(card(code, seat)));
    }
    assert_eq!(game.cards_placed.len(), 4);
    for seat in 0..4 {
        assert!(game.has_played(seat));
        let left = game.players[seat].cards[0];
        assert!(!left.can_place(&game));
        assert!(!game.play(left));
    }
    assert_eq!(game.cards_placed.len(), 4);
}

#[test]
fn seat_that_holds_the_suit_led_must_follow() {
    let mut game = table([&["SA"], &["S7", "HA", "D6", "JR"], &["SQ"], &["SJ"]]);
    assert!(game.play(card("SA", 0)));
    assert!(game.holds_suit(1, Suit::Spades));
    assert!(card("S7", 1).can_place(&game));
    assert!(!card("HA", 1).can_place(&game));
    assert!(!card("D6", 1).can_place(&game));
    assert!(card("JR", 1).can_place(&game));
    assert!(!game.play(card("HA", 1)));
    assert_eq!(game.players[1].cards.len(), 4);
    assert_eq!(game.cards_placed.len(), 1);
}

#[test]
fn trump_does_not_free_a_seat_from_following() {
    let mut game = table([&["SA"], &["S7", "HA"], &["SQ"], &["SJ"]]);
    game.trump = Some(Suit::Hearts);
    assert!(game.play(card("SA", 0)));
    assert!(!card("HA", 1).can_place(&game));
    assert!(card("S7", 1).can_place(&game));
}

#[test]
fn seat_without_the_suit_led_may_play_any_card() {
    let mut game = table([&["SA"], &["HA", "D6", "C7"], &["SQ"], &["SJ"]]);
    game.trump = Some(Suit::Hearts);
    assert!(game.play(card("SA", 0)));
    assert!(!game.holds_suit(1, Suit::Spades));
    assert!(card("HA", 1).can_place(&game));
    assert!(card("D6", 1).can_place(&game));
    assert!(card("C7", 1).can_place(&game));
}

#[test]
fn the_suit_to_follow_is_that_of_the_card_led() {
    let mut game = table([&["SA"], &["HA"], &["S7", "H6", "D6"], &["SJ"]]);
    assert!(game.play(card("SA", 0)));
    assert!(game.play(card("HA", 1)));
    assert!(card("S7", 2).can_place(&game));
    assert!(!card("H6", 2).can_place(&game));
    assert!(!card("D6", 2).can_place(&game));
}

#[test]
fn any_card_follows_a_joker_that_was_led() {
    let mut game = table([&["JB"], &["S7", "HA", "JR"], &["SQ"], &["SJ"]]);
    assert!(game.play(card("JB", 0)));
    assert!(card("S7", 1).can_place(&game));
    assert!(card("HA", 1).can_place(&game));
    assert!(card("JR", 1).can_place(&game));
}

#[test]
fn card_of_a_seat_that_is_not_at_the_table_is_refused() {
    let mut game = table([&["SA"], &["SK"], &["SQ"], &["SJ"]]);
    assert!(!card("SA", 4).can_place(&game));
    assert!(!card("SA", usize::MAX).can_place(&game));
    assert!(!game.play(card("SA", 7)));
    assert_eq!(game.position(&card("SA", 7)), None);
}

#[test]
fn play_moves_the_card_to_the_front_of_the_trick() {
    let mut game = table([&["SA", "S7", "S9"], &["SK"], &["SQ"], &["SJ"]]);
    assert_eq!(game.position(&card("S7", 0)), Some(1));
    assert!(game.play(card("S7", 0)));
    assert_eq!(game.players[0].cards, [card("SA", 0), card("S9", 0)]);
    assert_eq!(game.cards_placed, [card("S7", 0)]);
    assert!(game.play(card("SK", 1)));
    assert_eq!(game.cards_placed, [card("SK", 1), card("S7", 0)]);
    assert!(game.players[1].cards.is_empty());
    assert_eq!(game.players[0].score, 0);
    assert_eq!(game.last_took, None);
    assert!(game.last_cards_placed.is_empty());
}

#[test]
fn place_card_takes_the_first_of_two_equal_cards() {
    let mut game = table([&["SA", "S7", "SA"], &["SK"], &["SQ"], &["SJ"]]);
    assert_eq!(game.position(&card("SA", 0)), Some(0));
    game.place_card(card("SA", 0));
    assert_eq!(game.players[0].cards, [card("S7", 0), card("SA", 0)]);
}

#[test]
fn card_that_the_seat_does_not_hold_is_refused() {
    let mut game = table([&["SA"], &["SK"], &["SQ"], &["SJ"]]);
    assert!(card("S7", 0).can_place(&game));
    assert_eq!(game.position(&card("S7", 0)), None);
    assert!(!game.play(card("S7", 0)));
    assert!(!game.play(Card { rank: Rank::Ace, suit: Suit::Spades, player: 1 }));
    assert_eq!(game.players[0].cards, [card("SA", 0)]);
    assert!(game.cards_placed.is_empty());
}

#[test]
fn refused_play_changes_nothing() {
    let mut game = table([&["SA", "H6"], &["S7", "HA"], &["SQ", "H7"], &["SJ", "H8"]]);
    game.players[1].score = 30;
    game.players[1].called = 1;
    assert!(game.play(card("SA", 0)));
    let before = format!("{:?}", game);
    assert!(!game.play(card("HA", 1)));
    assert!(!game.play(card("SQ", 2)));
    assert!(!game.play(card("H6", 0)));
    assert_eq!(format!("{:?}", game), before);
}

#[test]
fn playing_keeps_the_number_of_cards() {
    let mut game = table([&["SA", "H6"], &["S7", "HA"], &["SQ", "H7"], &["SJ", "H8"]]);
    assert_eq!(count(&game), 8);
    for (code, seat) in [("SA", 0), ("S7", 1), ("SQ", 2), ("SJ", 3)] {
        assert!(game.play(card(code, seat)));
        assert_eq!(count(&game), 8);
        assert!(no_card_twice(&game));
    }
}

#[test]
fn no_card_is_in_two_places() {
    let mut game = table([&["SA", "H6"], &["S7", "HA"], &["SQ", "H7"], &["SJ", "H8"]]);
    let played = card("SA", 0);
    assert!(game.play(played));
    assert!(!game.players[0].cards.contains(&played));
    assert!(game.cards_placed.contains(&played));
    assert_eq!(all_cards(&game).iter().filter(|c| **c == played).count(), 1);
}
