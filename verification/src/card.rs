//! Cards: suits, ranks, comparative strength and the two-character text code.

use std::string::String;
use vstd::prelude::*;
use vstd::string::*;

verus! {

/// Strength given to both jokers: the largest value a card can have.
pub const JOKER_VALUE: u8 = 255;

/// What a card of the trump suit gains over its rank's ordinal.
pub const TRUMP_BONUS: u8 = 10;

#[derive(Debug, Clone, Copy, PartialEq, Eq, Structural, PartialOrd, Ord)]
pub enum Suit {
    /// The suit of the two jokers; the flag tells the black one from the red.
    Joker(bool),
    Spades,
    Diamonds,
    Clubs,
    Hearts,
}

#[derive(Debug, Clone, Copy, PartialEq, Eq, Structural)]
pub enum Rank {
    Six,
    Seven,
    Eight,
    Nine,
    Ten,
    Jack,
    Queen,
    King,
    Ace,
    Joker,
}

#[derive(Debug, Clone, Copy, PartialEq, Eq, Structural)]
pub struct Card {
    pub rank: Rank,
    pub suit: Suit,
    /// Seat that holds, or has played, the card.
    pub player: usize,
}

impl Suit {
    /// Position of the suit when a hand is laid out: jokers first, red before
    /// black, then spades, diamonds, clubs, hearts.
    pub open spec fn order(self) -> int {
        match self {
            Suit::Joker(black) => if black { 1 } else { 0 },
            Suit::Spades => 2,
            Suit::Diamonds => 3,
            Suit::Clubs => 4,
            Suit::Hearts => 5,
        }
    }

    /// First character of the code of a card of this suit.
    pub open spec fn letter(self) -> char {
        match self {
            Suit::Joker(_) => 'J',
            Suit::Spades => 'S',
            Suit::Diamonds => 'D',
            Suit::Clubs => 'C',
            Suit::Hearts => 'H',
        }
    }

    /// Position of the suit when a hand is laid out.
    pub fn position(&self) -> (r: u8)
        ensures
            r == self.order(),
    {
        match self {
            Suit::Joker(black) => if *black { 1 } else { 0 },
            Suit::Spades => 2,
            Suit::Diamonds => 3,
            Suit::Clubs => 4,
            Suit::Hearts => 5,
        }
    }
}

impl Rank {
    /// Six is 0, Seven is 1, and so on up to Ace, which is 8; the joker rank
    /// stands above them all.
    pub open spec fn ordinal(self) -> int {
        match self {
            Rank::Six => 0,
            Rank::Seven => 1,
            Rank::Eight => 2,
            Rank::Nine => 3,
            Rank::Ten => 4,
            Rank::Jack => 5,
            Rank::Queen => 6,
            Rank::King => 7,
            Rank::Ace => 8,
            Rank::Joker => JOKER_VALUE as int,
        }
    }

    /// The rank's ordinal.
    pub fn number(&self) -> (r: u8)
        ensures
            r == self.ordinal(),
    {
        match self {
            Rank::Six => 0,
            Rank::Seven => 1,
            Rank::Eight => 2,
            Rank::Nine => 3,
            Rank::Ten => 4,
            Rank::Jack => 5,
            Rank::Queen => 6,
            Rank::King => 7,
            Rank::Ace => 8,
            Rank::Joker => JOKER_VALUE,
        }
    }
}

impl Card {
    /// A card is a joker in rank exactly when it is one in suit.
    pub open spec fn wf(self) -> bool {
        (self.rank is Joker) <==> (self.suit is Joker)
    }

    /// Comparative strength under an optional trump suit.
    pub open spec fn strength(self, trump: Option<Suit>) -> int {
        if self.rank is Joker {
            JOKER_VALUE as int
        } else if trump == Some(self.suit) {
            self.rank.ordinal() + TRUMP_BONUS
        } else {
            self.rank.ordinal()
        }
    }

    /// Comparative strength under an optional trump suit: a joker has the
    /// largest value there is; any other card has its rank's ordinal, and
    /// ten more where its suit is trump.
    pub fn value(&self, trump: Option<Suit>) -> (v: u8)
        ensures
            v == self.strength(trump),
    {
        let base = self.rank.number();
        match trump {
            Some(t) => {
                if self.rank != Rank::Joker && self.suit == t {
                    base + TRUMP_BONUS
                } else {
                    base
                }
            },
            None => base,
        }
    }
}


impl Rank {
    /// Second character of the code of a card of this rank that is no joker.
    pub open spec fn letter(self) -> char {
        match self {
            Rank::Six => '6',
            Rank::Seven => '7',
            Rank::Eight => '8',
            Rank::Nine => '9',
            Rank::Ten => '1',
            Rank::Jack => 'J',
            Rank::Queen => 'Q',
            Rank::King => 'K',
            Rank::Ace => 'A',
            Rank::Joker => 'R',
        }
    }
}

/// The suit that a code's two leading characters name, if they name one.
pub open spec fn suit_of_code(first: char, second: char) -> Option<Suit> {
    if first == 'J' {
        if second == 'R' {
            Some(Suit::Joker(false))
        } else if second == 'B' {
            Some(Suit::Joker(true))
        } else {
            None
        }
    } else if first == 'S' {
        Some(Suit::Spades)
    } else if first == 'D' {
        Some(Suit::Diamonds)
    } else if first == 'C' {
        Some(Suit::Clubs)
    } else if first == 'H' {
        Some(Suit::Hearts)
    } else {
        None
    }
}

/// The rank that the second character of a natural card's code names.
pub open spec fn rank_of_code(second: char) -> Option<Rank> {
    if second == 'A' {
        Some(Rank::Ace)
    } else if second == 'K' {
        Some(Rank::King)
    } else if second == 'Q' {
        Some(Rank::Queen)
    } else if second == 'J' {
        Some(Rank::Jack)
    } else if second == '1' {
        Some(Rank::Ten)
    } else if second == '9' {
        Some(Rank::Nine)
    } else if second == '8' {
        Some(Rank::Eight)
    } else if second == '7' {
        Some(Rank::Seven)
    } else if second == '6' {
        Some(Rank::Six)
    } else {
        None
    }
}

/// What a text stands for when read as a card code for `player`: the first
/// character names the suit, the second the rank (or, after `J`, the joker's
/// colour), and whatever follows is not read. `None` where the two leading
/// characters name no card.
pub open spec fn decode(text: Seq<char>, player: usize) -> Option<Card> {
    if text.len() < 2 {
        None
    } else {
        match suit_of_code(text[0], text[1]) {
            None => None,
            Some(Suit::Joker(black)) => Some(
                Card { rank: Rank::Joker, suit: Suit::Joker(black), player },
            ),
            Some(suit) => match rank_of_code(text[1]) {
                None => None,
                Some(rank) => Some(Card { rank, suit, player }),
            },
        }
    }
}

impl Card {
    /// The two-character code of a well-formed card.
    pub open spec fn code(self) -> Seq<char> {
        match self.suit {
            Suit::Joker(black) => seq!['J', if black { 'B' } else { 'R' }],
            _ => seq![self.suit.letter(), self.rank.letter()],
        }
    }
}

/// Reading back the code of a card gives the card, for every well-formed
/// card, both jokers included.
pub proof fn lemma_code_round_trip(card: Card)
    requires
        card.wf(),
    ensures
        card.code().len() == 2,
        decode(card.code(), card.player) == Some(card),
{
}

/// A two-character text that reads as a card is that card's code, and every
/// card read from a text is well formed and belongs to the seat asked for.
pub proof fn lemma_decode_is_code(text: Seq<char>, player: usize)
    requires
        decode(text, player) is Some,
    ensures
        decode(text, player).unwrap().wf(),
        decode(text, player).unwrap().player == player,
        decode(text, player).unwrap().code() == text.subrange(0, 2),
{
    let card = decode(text, player).unwrap();
    assert(card.code() =~= text.subrange(0, 2));
}


impl Suit {
    fn code_letter(&self) -> (s: &'static str)
        ensures
            s@ == seq![self.letter()],
    {
        proof {
            reveal_strlit("J");
            reveal_strlit("S");
            reveal_strlit("D");
            reveal_strlit("C");
            reveal_strlit("H");
        }
        let s = match self {
            Suit::Joker(_) => "J",
            Suit::Spades => "S",
            Suit::Diamonds => "D",
            Suit::Clubs => "C",
            Suit::Hearts => "H",
        };
        assert(s@ =~= seq![self.letter()]);
        s
    }
}

impl Rank {
    fn code_letter(&self) -> (s: &'static str)
        ensures
            s@ == seq![self.letter()],
    {
        proof {
            reveal_strlit("6");
            reveal_strlit("7");
            reveal_strlit("8");
            reveal_strlit("9");
            reveal_strlit("1");
            reveal_strlit("J");
            reveal_strlit("Q");
            reveal_strlit("K");
            reveal_strlit("A");
            reveal_strlit("R");
        }
        let s = match self {
            Rank::Six => "6",
            Rank::Seven => "7",
            Rank::Eight => "8",
            Rank::Nine => "9",
            Rank::Ten => "1",
            Rank::Jack => "J",
            Rank::Queen => "Q",
            Rank::King => "K",
            Rank::Ace => "A",
            Rank::Joker => "R",
        };
        assert(s@ =~= seq![self.letter()]);
        s
    }
}

impl Card {
    /// Reads a card code for `player`; `None` where the text is no code.
    pub fn parse(text: &str, player: usize) -> (r: Option<Card>)
        ensures
            r == decode(text@, player),
    {
        if text.unicode_len() < 2 {
            return None;
        }
        let first = text.get_char(0);
        let second = text.get_char(1);
        let suit = if first == 'J' {
            if second == 'R' {
                Suit::Joker(false)
            } else if second == 'B' {
                Suit::Joker(true)
            } else {
                return None;
            }
        } else if first == 'S' {
            Suit::Spades
        } else if first == 'D' {
            Suit::Diamonds
        } else if first == 'C' {
            Suit::Clubs
        } else if first == 'H' {
            Suit::Hearts
        } else {
            return None;
        };
        let rank = if first == 'J' {
            Rank::Joker
        } else if second == 'A' {
            Rank::Ace
        } else if second == 'K' {
            Rank::King
        } else if second == 'Q' {
            Rank::Queen
        } else if second == 'J' {
            Rank::Jack
        } else if second == '1' {
            Rank::Ten
        } else if second == '9' {
            Rank::Nine
        } else if second == '8' {
            Rank::Eight
        } else if second == '7' {
            Rank::Seven
        } else if second == '6' {
            Rank::Six
        } else {
            return None;
        };
        Some(Card { rank, suit, player })
    }

    /// Reads a card code that is known to be one.
    pub fn from_string(string: String, player: usize) -> (card: Card)
        requires
            decode(string@, player) is Some,
        ensures
            Some(card) == decode(string@, player),
            card.wf(),
            card.player == player,
    {
        proof {
            lemma_decode_is_code(string@, player);
        }
        Card::parse(string.as_str(), player).unwrap()
    }

    /// The card's two-character code.
    pub fn as_string(&self) -> (string: String)
        requires
            self.wf(),
        ensures
            string@ == self.code(),
    {
        match self.suit {
            Suit::Joker(black) => {
                proof {
                    reveal_strlit("JB");
                    reveal_strlit("JR");
                }
                let string = String::from_str(if black { "JB" } else { "JR" });
                assert(string@ =~= self.code());
                string
            },
            _ => {
                let mut string = String::from_str(self.suit.code_letter());
                string.append(self.rank.code_letter());
                assert(string@ =~= self.code());
                string
            },
        }
    }
}

} // verus!
