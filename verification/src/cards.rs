//! Ranks, suits and single cards, with their one-character symbols.

use vstd::prelude::*;
use crate::errors::Error;

verus! {

/// The thirteen card ranks, ordered `Two < ... < Ace`.
#[derive(Copy, Clone, Debug, PartialEq, Eq, PartialOrd, Ord, Structural)]
pub enum Rank {
    Two,
    Three,
    Four,
    Five,
    Six,
    Seven,
    Eight,
    Nine,
    Ten,
    Jack,
    Queen,
    King,
    Ace,
}

/// The four suits, ordered `Clubs < Diamonds < Hearts < Spades`.
#[derive(Copy, Clone, Debug, PartialEq, Eq, PartialOrd, Ord, Structural)]
pub enum Suit {
    Clubs,
    Diamonds,
    Hearts,
    Spades,
}

/// A playing card; cards are compared first by rank.
#[derive(Copy, Clone, Debug, PartialEq, Eq, PartialOrd, Ord, Structural)]
pub struct Card {
    pub rank: Rank,
    pub suit: Suit,
}

/// Numeric position of a rank in the order `Two < ... < Ace`: 0 to 12.
pub open spec fn rank_val(r: Rank) -> int {
    match r {
        Rank::Two => 0,
        Rank::Three => 1,
        Rank::Four => 2,
        Rank::Five => 3,
        Rank::Six => 4,
        Rank::Seven => 5,
        Rank::Eight => 6,
        Rank::Nine => 7,
        Rank::Ten => 8,
        Rank::Jack => 9,
        Rank::Queen => 10,
        Rank::King => 11,
        Rank::Ace => 12,
    }
}

/// Numeric position of a suit in the order `Clubs < Diamonds < Hearts < Spades`: 0 to 3.
pub open spec fn suit_val(s: Suit) -> int {
    match s {
        Suit::Clubs => 0,
        Suit::Diamonds => 1,
        Suit::Hearts => 2,
        Suit::Spades => 3,
    }
}

/// The rank whose position is `v`.
pub open spec fn rank_from_val(v: int) -> Rank {
    if v == 0 {
        Rank::Two
    } else if v == 1 {
        Rank::Three
    } else if v == 2 {
        Rank::Four
    } else if v == 3 {
        Rank::Five
    } else if v == 4 {
        Rank::Six
    } else if v == 5 {
        Rank::Seven
    } else if v == 6 {
        Rank::Eight
    } else if v == 7 {
        Rank::Nine
    } else if v == 8 {
        Rank::Ten
    } else if v == 9 {
        Rank::Jack
    } else if v == 10 {
        Rank::Queen
    } else if v == 11 {
        Rank::King
    } else {
        Rank::Ace
    }
}

/// The suit whose position is `v`.
pub open spec fn suit_from_val(v: int) -> Suit {
    if v == 0 {
        Suit::Clubs
    } else if v == 1 {
        Suit::Diamonds
    } else if v == 2 {
        Suit::Hearts
    } else {
        Suit::Spades
    }
}

/// The one-character symbol of a rank.
pub open spec fn rank_char(r: Rank) -> char {
    match r {
        Rank::Two => '2',
        Rank::Three => '3',
        Rank::Four => '4',
        Rank::Five => '5',
        Rank::Six => '6',
        Rank::Seven => '7',
        Rank::Eight => '8',
        Rank::Nine => '9',
        Rank::Ten => 'T',
        Rank::Jack => 'J',
        Rank::Queen => 'Q',
        Rank::King => 'K',
        Rank::Ace => 'A',
    }
}

/// The rank denoted by a character, if any.
pub open spec fn rank_of_char(c: char) -> Option<Rank> {
    match c {
        '2' => Some(Rank::Two),
        '3' => Some(Rank::Three),
        '4' => Some(Rank::Four),
        '5' => Some(Rank::Five),
        '6' => Some(Rank::Six),
        '7' => Some(Rank::Seven),
        '8' => Some(Rank::Eight),
        '9' => Some(Rank::Nine),
        'T' => Some(Rank::Ten),
        'J' => Some(Rank::Jack),
        'Q' => Some(Rank::Queen),
        'K' => Some(Rank::King),
        'A' => Some(Rank::Ace),
        _ => None,
    }
}

/// The one-character symbol of a suit.
pub open spec fn suit_char(s: Suit) -> char {
    match s {
        Suit::Clubs => 'C',
        Suit::Diamonds => 'D',
        Suit::Hearts => 'H',
        Suit::Spades => 'S',
    }
}

/// The suit denoted by a character, if any.
pub open spec fn suit_of_char(c: char) -> Option<Suit> {
    match c {
        'C' => Some(Suit::Clubs),
        'D' => Some(Suit::Diamonds),
        'H' => Some(Suit::Hearts),
        'S' => Some(Suit::Spades),
        _ => None,
    }
}

/// Position of a card in the canonical display order of a hand: suits in the
/// order Spades, Hearts, Diamonds, Clubs and ranks from high to low, with the
/// highest position first. Distinct cards have distinct keys.
pub open spec fn card_key(c: Card) -> int {
    suit_val(c.suit) * 13 + rank_val(c.rank)
}

/// The card whose key is `v`, for `0 <= v < 52`.
pub open spec fn card_from_key(v: int) -> Card {
    Card { suit: suit_from_val(v / 13), rank: rank_from_val(v % 13) }
}

/// Each rank is recovered from its numeric position.
pub proof fn lemma_rank_val_inverse(r: Rank)
    ensures
        rank_from_val(rank_val(r)) == r,
        0 <= rank_val(r) < 13,
{
}

/// Each suit is recovered from its numeric position.
pub proof fn lemma_suit_val_inverse(s: Suit)
    ensures
        suit_from_val(suit_val(s)) == s,
        0 <= suit_val(s) < 4,
{
}

/// A card is recovered from its key.
pub proof fn lemma_card_key_inverse(c: Card)
    ensures
        0 <= card_key(c) < 52,
        card_from_key(card_key(c)) == c,
{
    lemma_rank_val_inverse(c.rank);
    lemma_suit_val_inverse(c.suit);
    let s: int = suit_val(c.suit);
    let r: int = rank_val(c.rank);
    assert((s * 13 + r) / 13 == s && (s * 13 + r) % 13 == r) by (nonlinear_arith)
        requires
            0 <= s < 4,
            0 <= r < 13,
    ;
}

/// Distinct cards have distinct keys.
pub proof fn lemma_card_key_injective(a: Card, b: Card)
    requires
        card_key(a) == card_key(b),
    ensures
        a == b,
{
    lemma_card_key_inverse(a);
    lemma_card_key_inverse(b);
}

/// Reading back a rank's symbol yields the rank.
pub proof fn lemma_rank_char_round_trip(r: Rank)
    ensures
        rank_of_char(rank_char(r)) == Some(r),
{
}

/// Reading back a suit's symbol yields the suit.
pub proof fn lemma_suit_char_round_trip(s: Suit)
    ensures
        suit_of_char(suit_char(s)) == Some(s),
{
}

impl Rank {
    /// The rank denoted by a one-character string, or a format error.
    pub fn parse(s: &str) -> (r: Result<Rank, Error>)
        ensures
            match r {
                Ok(rank) => s@.len() == 1 && rank_of_char(s@[0]) == Some(rank),
                Err(e) => !(s@.len() == 1 && rank_of_char(s@[0]) is Some) && e is Format,
            },
    {
        if s.unicode_len() != 1 {
            return Err(Error::Format);
        }
        match Self::from_char(s.get_char(0)) {
            Some(rank) => Ok(rank),
            None => Err(Error::Format),
        }
    }

    /// The rank denoted by a character, if any.
    pub fn from_char(c: char) -> (r: Option<Rank>)
        ensures
            r == rank_of_char(c),
    {
        match c {
            '2' => Some(Rank::Two),
            '3' => Some(Rank::Three),
            '4' => Some(Rank::Four),
            '5' => Some(Rank::Five),
            '6' => Some(Rank::Six),
            '7' => Some(Rank::Seven),
            '8' => Some(Rank::Eight),
            '9' => Some(Rank::Nine),
            'T' => Some(Rank::Ten),
            'J' => Some(Rank::Jack),
            'Q' => Some(Rank::Queen),
            'K' => Some(Rank::King),
            'A' => Some(Rank::Ace),
            _ => None,
        }
    }

    /// The rank's one-character symbol.
    pub fn format(&self) -> (t: &'static str)
        ensures
            t@ =~= seq![rank_char(*self)],
    {
        proof {
            reveal_strlit("2");
            reveal_strlit("3");
            reveal_strlit("4");
            reveal_strlit("5");
            reveal_strlit("6");
            reveal_strlit("7");
            reveal_strlit("8");
            reveal_strlit("9");
            reveal_strlit("T");
            reveal_strlit("J");
            reveal_strlit("Q");
            reveal_strlit("K");
            reveal_strlit("A");
        }
        match self {
            Rank::Two => "2",
            Rank::Three => "3",
            Rank::Four => "4",
            Rank::Five => "5",
            Rank::Six => "6",
            Rank::Seven => "7",
            Rank::Eight => "8",
            Rank::Nine => "9",
            Rank::Ten => "T",
            Rank::Jack => "J",
            Rank::Queen => "Q",
            Rank::King => "K",
            Rank::Ace => "A",
        }
    }
}

impl Suit {
    /// The suit denoted by a one-character string, or a format error.
    pub fn parse(s: &str) -> (r: Result<Suit, Error>)
        ensures
            match r {
                Ok(suit) => s@.len() == 1 && suit_of_char(s@[0]) == Some(suit),
                Err(e) => !(s@.len() == 1 && suit_of_char(s@[0]) is Some) && e is Format,
            },
    {
        if s.unicode_len() != 1 {
            return Err(Error::Format);
        }
        match Self::from_char(s.get_char(0)) {
            Some(suit) => Ok(suit),
            None => Err(Error::Format),
        }
    }

    /// The suit denoted by a character, if any.
    pub fn from_char(c: char) -> (r: Option<Suit>)
        ensures
            r == suit_of_char(c),
    {
        match c {
            'C' => Some(Suit::Clubs),
            'D' => Some(Suit::Diamonds),
            'H' => Some(Suit::Hearts),
            'S' => Some(Suit::Spades),
            _ => None,
        }
    }

    /// The suit's one-character symbol.
    pub fn format(&self) -> (t: &'static str)
        ensures
            t@ =~= seq![suit_char(*self)],
    {
        proof {
            reveal_strlit("C");
            reveal_strlit("D");
            reveal_strlit("H");
            reveal_strlit("S");
        }
        match self {
            Suit::Clubs => "C",
            Suit::Diamonds => "D",
            Suit::Hearts => "H",
            Suit::Spades => "S",
        }
    }
}

impl Rank {
    /// The rank at a given numeric position.
    pub fn from_val(v: u8) -> (r: Rank)
        requires
            v < 13,
        ensures
            r == rank_from_val(v as int),
    {
        if v == 0 {
            Rank::Two
        } else if v == 1 {
            Rank::Three
        } else if v == 2 {
            Rank::Four
        } else if v == 3 {
            Rank::Five
        } else if v == 4 {
            Rank::Six
        } else if v == 5 {
            Rank::Seven
        } else if v == 6 {
            Rank::Eight
        } else if v == 7 {
            Rank::Nine
        } else if v == 8 {
            Rank::Ten
        } else if v == 9 {
            Rank::Jack
        } else if v == 10 {
            Rank::Queen
        } else if v == 11 {
            Rank::King
        } else {
            Rank::Ace
        }
    }
}

impl Suit {
    /// The suit at a given numeric position.
    pub fn from_val(v: u8) -> (s: Suit)
        requires
            v < 4,
        ensures
            s == suit_from_val(v as int),
    {
        if v == 0 {
            Suit::Clubs
        } else if v == 1 {
            Suit::Diamonds
        } else if v == 2 {
            Suit::Hearts
        } else {
            Suit::Spades
        }
    }
}

impl Card {
    /// The card's position in the canonical display order.
    pub fn key(&self) -> (k: u8)
        ensures
            k == card_key(*self),
    {
        let suit: u8 = match self.suit {
            Suit::Clubs => 0,
            Suit::Diamonds => 1,
            Suit::Hearts => 2,
            Suit::Spades => 3,
        };
        let rank: u8 = match self.rank {
            Rank::Two => 0,
            Rank::Three => 1,
            Rank::Four => 2,
            Rank::Five => 3,
            Rank::Six => 4,
            Rank::Seven => 5,
            Rank::Eight => 6,
            Rank::Nine => 7,
            Rank::Ten => 8,
            Rank::Jack => 9,
            Rank::Queen => 10,
            Rank::King => 11,
            Rank::Ace => 12,
        };
        suit * 13 + rank
    }

    /// The card's rank.
    pub fn rank(&self) -> (r: Rank)
        ensures
            r == self.rank,
    {
        self.rank
    }

    /// The card's suit.
    pub fn suit(&self) -> (s: Suit)
        ensures
            s == self.suit,
    {
        self.suit
    }
}

} // verus!
