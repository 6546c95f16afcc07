use joker::card::{Card, Rank, Suit};

const CODES: [&str; 36] = [
    "JR", "JB", "S7", "S8", "S9", "S1", "SJ", "SQ", "SK", "SA", "D6", "D7", "D8", "D9", "D1", "DJ",
    "DQ", "DK", "DA", "C7", "C8", "C9", "C1", "CJ", "CQ", "CK", "CA", "H6", "H7", "H8", "H9", "H1",
    "HJ", "HQ", "HK", "HA",
];

fn card(suit: Suit, rank: Rank) -> Card {
    Card { rank, suit, player: 0 }
}

#[test]
fn value_of_plain_card_is_rank_ordinal() {
    assert_eq!(card(Suit::Spades, Rank::Six).value(None), 0);
    assert_eq!(card(Suit::Spades, Rank::Seven).value(None), 1);
    assert_eq!(card(Suit::Diamonds, Rank::Eight).value(None), 2);
    assert_eq!(card(Suit::Diamonds, Rank::Nine).value(None), 3);
    assert_eq!(card(Suit::Clubs, Rank::Ten).value(None), 4);
    assert_eq!(card(Suit::Clubs, Rank::Jack).value(None), 5);
    assert_eq!(card(Suit::Hearts, Rank::Queen).value(None), 6);
    assert_eq!(card(Suit::Hearts, Rank::King).value(None), 7);
    assert_eq!(card(Suit::Spades, Rank::Ace).value(None), 8);
}

#[test]
fn value_does_not_depend_on_suit_without_trump() {
    for suit in [Suit::Spades, Suit::Diamonds, Suit::Clubs, Suit::Hearts] {
        assert_eq!(card(suit, Rank::Jack).value(None), 5);
        assert_eq!(card(suit, Rank::Jack).value(Some(Suit::Joker(false))), 5);
    }
}

#[test]
fn trump_adds_ten_to_cards_of_its_suit_only() {
    let trump = Some(Suit::Hearts);
    assert_eq!(card(Suit::Hearts, Rank::Six).value(trump), 10);
    assert_eq!(card(Suit::Hearts, Rank::Ace).value(trump), 18);
    assert_eq!(card(Suit::Spades, Rank::Ace).value(trump), 8);
    assert_eq!(card(Suit::Diamonds, Rank::Six).value(trump), 0);
}

#[test]
fn joker_has_the_largest_value_whatever_the_trump() {
    for black in [false, true] {
        let joker = card(Suit::Joker(black), Rank::Joker);
        assert_eq!(joker.value(None), 255);
        assert_eq!(joker.value(Some(Suit::Spades)), 255);
        assert_eq!(joker.value(Some(Suit::Joker(black))), 255);
        assert_eq!(joker.value(Some(Suit::Joker(!black))), 255);
        assert_eq!(joker.value(None), u8::MAX);
    }
}

#[test]
fn lowest_trump_beats_highest_plain_card() {
    let trump = Some(Suit::Clubs);
    assert!(card(Suit::Clubs, Rank::Six).value(trump) > card(Suit::Hearts, Rank::Ace).value(trump));
}

#[test]
fn as_string_gives_suit_letter_then_rank_code() {
    assert_eq!(card(Suit::Spades, Rank::Ace).as_string(), "SA");
    assert_eq!(card(Suit::Diamonds, Rank::Ten).as_string(), "D1");
    assert_eq!(card(Suit::Clubs, Rank::Jack).as_string(), "CJ");
    assert_eq!(card(Suit::Hearts, Rank::Six).as_string(), "H6");
    assert_eq!(card(Suit::Hearts, Rank::Queen).as_string(), "HQ");
    assert_eq!(card(Suit::Spades, Rank::King).as_string(), "SK");
    assert_eq!(card(Suit::Spades, Rank::Nine).as_string(), "S9");
    assert_eq!(card(Suit::Spades, Rank::Eight).as_string(), "S8");
    assert_eq!(card(Suit::Spades, Rank::Seven).as_string(), "S7");
}

#[test]
fn as_string_of_jokers() {
    assert_eq!(card(Suit::Joker(false), Rank::Joker).as_string(), "JR");
    assert_eq!(card(Suit::Joker(true), Rank::Joker).as_string(), "JB");
}

#[test]
fn from_string_reads_suit_rank_and_owner() {
    assert_eq!(
        Card::from_string("SA".to_string(), 2),
        Card { rank: Rank::Ace, suit: Suit::Spades, player: 2 }
    );
    assert_eq!(
        Card::from_string("D1".to_string(), 0),
        Card { rank: Rank::Ten, suit: Suit::Diamonds, player: 0 }
    );
    assert_eq!(
        Card::from_string("CJ".to_string(), 3),
        Card { rank: Rank::Jack, suit: Suit::Clubs, player: 3 }
    );
    assert_eq!(
        Card::from_string("JR".to_string(), 1),
        Card { rank: Rank::Joker, suit: Suit::Joker(false), player: 1 }
    );
    assert_eq!(
        Card::from_string("JB".to_string(), usize::MAX),
        Card { rank: Rank::Joker, suit: Suit::Joker(true), player: usize::MAX }
    );
}

#[test]
fn code_round_trip_for_the_whole_deck() {
    for player in [0usize, 1, 2, 3, usize::MAX] {
        for code in CODES {
            let card = Card::from_string(code.to_string(), player);
            assert!(card.is_wf());
            assert_eq!(card.player, player);
            assert_eq!(card.as_string(), code);
            assert_eq!(Card::from_string(card.as_string(), player), card);
        }
    }
}

#[test]
fn card_round_trip_for_every_well_formed_card() {
    let suits = [Suit::Spades, Suit::Diamonds, Suit::Clubs, Suit::Hearts];
    let ranks = [
        Rank::Six,
        Rank::Seven,
        Rank::Eight,
        Rank::Nine,
        Rank::Ten,
        Rank::Jack,
        Rank::Queen,
        Rank::King,
        Rank::Ace,
    ];
    let mut seen = Vec::new();
    for suit in suits {
        for rank in ranks {
            let card = Card { rank, suit, player: 1 };
            let code = card.as_string();
            assert_eq!(code.chars().count(), 2);
            assert_eq!(Card::parse(&code, 1), Some(card));
            assert!(!seen.contains(&code));
            seen.push(code);
        }
    }
    for black in [false, true] {
        let card = Card { rank: Rank::Joker, suit: Suit::Joker(black), player: 1 };
        let code = card.as_string();
        assert_eq!(Card::parse(&code, 1), Some(card));
        assert!(!seen.contains(&code));
        seen.push(code);
    }
    assert_eq!(seen.len(), 38);
}

#[test]
fn parse_refuses_what_is_no_code() {
    assert_eq!(Card::parse("", 0), None);
    assert_eq!(Card::parse("S", 0), None);
    assert_eq!(Card::parse("J", 0), None);
    assert_eq!(Card::parse("X7", 0), None);
    assert_eq!(Card::parse("S5", 0), None);
    assert_eq!(Card::parse("S0", 0), None);
    assert_eq!(Card::parse("sA", 0), None);
    assert_eq!(Card::parse("Sa", 0), None);
    assert_eq!(Card::parse("AS", 0), None);
    assert_eq!(Card::parse("  ", 0), None);
    assert_eq!(Card::parse("éA", 0), None);
    assert_eq!(Card::parse("Sé", 0), None);
}

#[test]
fn parse_refuses_joker_letters_on_the_wrong_side() {
    assert_eq!(Card::parse("JA", 0), None);
    assert_eq!(Card::parse("J6", 0), None);
    assert_eq!(Card::parse("JJ", 0), None);
    assert_eq!(Card::parse("SR", 0), None);
    assert_eq!(Card::parse("SB", 0), None);
    assert_eq!(Card::parse("HR", 0), None);
}

#[test]
fn parse_reads_the_two_leading_characters_only() {
    assert_eq!(
        Card::parse("S10", 1),
        Some(Card { rank: Rank::Ten, suit: Suit::Spades, player: 1 })
    );
    assert_eq!(
        Card::parse("JRx", 1),
        Some(Card { rank: Rank::Joker, suit: Suit::Joker(false), player: 1 })
    );
    assert_eq!(
        Card::parse("HQé", 1),
        Some(Card { rank: Rank::Queen, suit: Suit::Hearts, player: 1 })
    );
}

#[test]
fn jack_of_a_suit_and_the_joker_suit_share_a_letter() {
    assert_eq!(
        Card::parse("SJ", 0),
        Some(Card { rank: Rank::Jack, suit: Suit::Spades, player: 0 })
    );
    assert_eq!(
        Card::parse("JB", 0),
        Some(Card { rank: Rank::Joker, suit: Suit::Joker(true), player: 0 })
    );
}

#[test]
fn well_formed_means_joker_rank_with_joker_suit() {
    assert!(card(Suit::Joker(true), Rank::Joker).is_wf());
    assert!(card(Suit::Hearts, Rank::Ace).is_wf());
    assert!(!card(Suit::Hearts, Rank::Joker).is_wf());
    assert!(!card(Suit::Joker(false), Rank::Ace).is_wf());
}

#[test]
fn suit_position_agrees_with_suit_order() {
    let suits = [
        Suit::Joker(false),
        Suit::Joker(true),
        Suit::Spades,
        Suit::Diamonds,
        Suit::Clubs,
        Suit::Hearts,
    ];
    for (i, a) in suits.iter().enumerate() {
        assert_eq!(a.position() as usize, i);
        for b in suits.iter() {
            assert_eq!(a < b, a.position() < b.position());
        }
    }
}

#[test]
fn rank_numbers() {
    assert_eq!(Rank::Six.number(), 0);
    assert_eq!(Rank::Ten.number(), 4);
    assert_eq!(Rank::Ace.number(), 8);
    assert_eq!(Rank::Joker.number(), 255);
}
