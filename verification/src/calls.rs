//! Levels, trump denominations, contracts and bids, with their textual forms
//! and the ranking that decides whether one contract outbids another.

use vstd::prelude::*;
use crate::cards::{Suit, suit_val, suit_char, suit_of_char};
use crate::errors::Error;

verus! {

/// A contract level, 1 to 7.
#[derive(Copy, Clone, Debug, PartialEq, Eq, PartialOrd, Ord, Structural)]
pub enum Level {
    One,
    Two,
    Three,
    Four,
    Five,
    Six,
    Seven,
}

/// The denomination a contract is played in: a trump suit or no trump.
#[derive(Copy, Clone, Debug, PartialEq, Eq, PartialOrd, Ord, Structural)]
pub enum Trump {
    Trump(Suit),
    NoTrump,
}

/// A contract: a level and a trump denomination.
#[derive(Copy, Clone, Debug, PartialEq, Eq, PartialOrd, Ord, Structural)]
pub struct Contract {
    pub level: Level,
    pub trump: Trump,
}

/// A call in an auction: pass, double, redouble, or a contract bid.
#[derive(Copy, Clone, Debug, PartialEq, Eq, PartialOrd, Ord, Structural)]
pub enum Bid {
    Pass,
    Double,
    Redouble,
    Contract(Contract),
}

/// The number of tricks-over-book a level names: 1 to 7.
pub open spec fn level_val(l: Level) -> int {
    match l {
        Level::One => 1,
        Level::Two => 2,
        Level::Three => 3,
        Level::Four => 4,
        Level::Five => 5,
        Level::Six => 6,
        Level::Seven => 7,
    }
}

/// Rank of a denomination for contract comparison: each suit in its suit
/// order, and no trump above all suits.
pub open spec fn trump_val(t: Trump) -> int {
    match t {
        Trump::Trump(s) => suit_val(s),
        Trump::NoTrump => 4,
    }
}

/// Total order on contracts: by level first, then by denomination.
/// A contract bid is legal only if its rank strictly exceeds the rank of the
/// last contract bid made.
pub open spec fn contract_rank(c: Contract) -> int {
    (level_val(c.level) - 1) * 5 + trump_val(c.trump)
}

/// The digit naming a level.
pub open spec fn level_char(l: Level) -> char {
    match l {
        Level::One => '1',
        Level::Two => '2',
        Level::Three => '3',
        Level::Four => '4',
        Level::Five => '5',
        Level::Six => '6',
        Level::Seven => '7',
    }
}

/// The level denoted by a digit, if any.
pub open spec fn level_of_char(c: char) -> Option<Level> {
    match c {
        '1' => Some(Level::One),
        '2' => Some(Level::Two),
        '3' => Some(Level::Three),
        '4' => Some(Level::Four),
        '5' => Some(Level::Five),
        '6' => Some(Level::Six),
        '7' => Some(Level::Seven),
        _ => None,
    }
}

/// The textual form of a denomination: the suit's symbol, or `NT`.
pub open spec fn trump_text(t: Trump) -> Seq<char> {
    match t {
        Trump::Trump(s) => seq![suit_char(s)],
        Trump::NoTrump => seq!['N', 'T'],
    }
}

/// The denomination denoted by a piece of text, if any.
pub open spec fn trump_of_text(s: Seq<char>) -> Option<Trump> {
    if s =~= seq!['N', 'T'] {
        Some(Trump::NoTrump)
    } else if s.len() == 1 && suit_of_char(s[0]) is Some {
        Some(Trump::Trump(suit_of_char(s[0])->Some_0))
    } else {
        None
    }
}

/// The textual form of a contract: its level digit followed by its
/// denomination.
pub open spec fn contract_text(c: Contract) -> Seq<char> {
    seq![level_char(c.level)] + trump_text(c.trump)
}

/// The contract denoted by a piece of text, if any: a level digit followed by
/// a denomination.
pub open spec fn contract_of_text(s: Seq<char>) -> Option<Contract> {
    if s.len() >= 2 && level_of_char(s[0]) is Some && trump_of_text(s.skip(1)) is Some {
        Some(
            Contract {
                level: level_of_char(s[0])->Some_0,
                trump: trump_of_text(s.skip(1))->Some_0,
            },
        )
    } else {
        None
    }
}

/// The textual form of a bid.
pub open spec fn bid_text(b: Bid) -> Seq<char> {
    match b {
        Bid::Pass => seq!['P', 'a', 's', 's'],
        Bid::Double => seq!['D', 'b', 'l'],
        Bid::Redouble => seq!['R', 'd', 'b', 'l'],
        Bid::Contract(c) => contract_text(c),
    }
}

/// The bid denoted by a piece of text, if any: `Pass` or `P`, `Dbl`, `Rdbl`,
/// or a contract.
pub open spec fn bid_of_text(s: Seq<char>) -> Option<Bid> {
    if s =~= seq!['P', 'a', 's', 's'] || s =~= seq!['P'] {
        Some(Bid::Pass)
    } else if s =~= seq!['D', 'b', 'l'] {
        Some(Bid::Double)
    } else if s =~= seq!['R', 'd', 'b', 'l'] {
        Some(Bid::Redouble)
    } else {
        match contract_of_text(s) {
            Some(c) => Some(Bid::Contract(c)),
            None => None,
        }
    }
}

impl Level {
    /// The level denoted by a one-digit string, or a format error.
    pub fn parse(s: &str) -> (r: Result<Level, Error>)
        ensures
            match r {
                Ok(level) => s@.len() == 1 && level_of_char(s@[0]) == Some(level),
                Err(e) => !(s@.len() == 1 && level_of_char(s@[0]) is Some) && e is Format,
            },
    {
        if s.unicode_len() != 1 {
            return Err(Error::Format);
        }
        match Self::from_char(s.get_char(0)) {
            Some(level) => Ok(level),
            None => Err(Error::Format),
        }
    }

    /// The level denoted by a digit, if any.
    pub fn from_char(c: char) -> (r: Option<Level>)
        ensures
            r == level_of_char(c),
    {
        match c {
            '1' => Some(Level::One),
            '2' => Some(Level::Two),
            '3' => Some(Level::Three),
            '4' => Some(Level::Four),
            '5' => Some(Level::Five),
            '6' => Some(Level::Six),
            '7' => Some(Level::Seven),
            _ => None,
        }
    }

    /// The level's digit as text.
    pub fn format(&self) -> (t: &'static str)
        ensures
            t@ =~= seq![level_char(*self)],
    {
        proof {
            reveal_strlit("1");
            reveal_strlit("2");
            reveal_strlit("3");
            reveal_strlit("4");
            reveal_strlit("5");
            reveal_strlit("6");
            reveal_strlit("7");
        }
        match self {
            Level::One => "1",
            Level::Two => "2",
            Level::Three => "3",
            Level::Four => "4",
            Level::Five => "5",
            Level::Six => "6",
            Level::Seven => "7",
        }
    }
}

impl Trump {
    /// The denomination denoted by a string, or a format error.
    pub fn parse(s: &str) -> (r: Result<Trump, Error>)
        ensures
            match r {
                Ok(trump) => trump_of_text(s@) == Some(trump),
                Err(e) => trump_of_text(s@) is None && e is Format,
            },
    {
        let n = s.unicode_len();
        if n == 2 && s.get_char(0) == 'N' && s.get_char(1) == 'T' {
            assert(s@ =~= seq!['N', 'T']);
            Ok(Trump::NoTrump)
        } else if n == 1 {
            assert(!(s@ =~= seq!['N', 'T']));
            match Suit::from_char(s.get_char(0)) {
                Some(suit) => Ok(Trump::Trump(suit)),
                None => Err(Error::Format),
            }
        } else {
            assert(!(s@ =~= seq!['N', 'T']));
            Err(Error::Format)
        }
    }

    /// The denomination's textual form.
    pub fn format(&self) -> (t: &'static str)
        ensures
            t@ =~= trump_text(*self),
    {
        proof {
            reveal_strlit("NT");
        }
        match self {
            Trump::NoTrump => "NT",
            Trump::Trump(suit) => suit.format(),
        }
    }
}

impl Contract {
    /// The contract at a given level and denomination.
    pub fn new(level: Level, trump: Trump) -> (c: Contract)
        ensures
            c == (Contract { level, trump }),
    {
        Contract { level, trump }
    }

    /// The contract denoted by a string, or a format error: a level digit
    /// followed by a denomination.
    pub fn parse(s: &str) -> (r: Result<Contract, Error>)
        ensures
            match r {
                Ok(c) => contract_of_text(s@) == Some(c),
                Err(e) => contract_of_text(s@) is None && e is Format,
            },
    {
        let n = s.unicode_len();
        if n < 2 {
            return Err(Error::Format);
        }
        let level = match Level::from_char(s.get_char(0)) {
            Some(level) => level,
            None => {
                return Err(Error::Format);
            },
        };
        let rest = s.substring_char(1, n);
        assert(rest@ =~= s@.skip(1));
        match Trump::parse(rest) {
            Ok(trump) => Ok(Contract { level, trump }),
            Err(e) => Err(e),
        }
    }

    /// The contract's textual form.
    pub fn format(&self) -> (t: String)
        ensures
            t@ =~= contract_text(*self),
    {
        let mut out = String::new();
        out.append(self.level.format());
        out.append(self.trump.format());
        out
    }

    /// Whether this contract strictly outranks another, in the order that
    /// decides auction legality.
    pub fn outranks(&self, other: &Contract) -> (r: bool)
        ensures
            r == (contract_rank(*self) > contract_rank(*other)),
    {
        rank_of(self) > rank_of(other)
    }
}

/// The rank of a contract as a machine integer.
fn rank_of(c: &Contract) -> (r: u8)
    ensures
        r == contract_rank(*c),
{
    let level: u8 = match c.level {
        Level::One => 1,
        Level::Two => 2,
        Level::Three => 3,
        Level::Four => 4,
        Level::Five => 5,
        Level::Six => 6,
        Level::Seven => 7,
    };
    let trump: u8 = match c.trump {
        Trump::Trump(Suit::Clubs) => 0,
        Trump::Trump(Suit::Diamonds) => 1,
        Trump::Trump(Suit::Hearts) => 2,
        Trump::Trump(Suit::Spades) => 3,
        Trump::NoTrump => 4,
    };
    (level - 1) * 5 + trump
}

impl Bid {
    /// The bid denoted by a string, or a format error: `Pass` or `P`, `Dbl`,
    /// `Rdbl`, or a contract.
    pub fn parse(s: &str) -> (r: Result<Bid, Error>)
        ensures
            match r {
                Ok(b) => bid_of_text(s@) == Some(b),
                Err(e) => bid_of_text(s@) is None && e is Format,
            },
    {
        let n = s.unicode_len();
        if n == 4 && s.get_char(0) == 'P' && s.get_char(1) == 'a' && s.get_char(2) == 's'
            && s.get_char(3) == 's' {
            assert(s@ =~= seq!['P', 'a', 's', 's']);
            Ok(Bid::Pass)
        } else if n == 1 && s.get_char(0) == 'P' {
            assert(s@ =~= seq!['P']);
            Ok(Bid::Pass)
        } else if n == 3 && s.get_char(0) == 'D' && s.get_char(1) == 'b' && s.get_char(2) == 'l' {
            assert(s@ =~= seq!['D', 'b', 'l']);
            Ok(Bid::Double)
        } else if n == 4 && s.get_char(0) == 'R' && s.get_char(1) == 'd' && s.get_char(2) == 'b'
            && s.get_char(3) == 'l' {
            assert(s@ =~= seq!['R', 'd', 'b', 'l']);
            Ok(Bid::Redouble)
        } else {
            proof {
                lemma_named_bid_texts_differ(s@);
            }
            match Contract::parse(s) {
                Ok(c) => Ok(Bid::Contract(c)),
                Err(e) => Err(e),
            }
        }
    }

    /// The bid's textual form.
    pub fn format(&self) -> (t: String)
        ensures
            t@ =~= bid_text(*self),
    {
        proof {
            reveal_strlit("Pass");
            reveal_strlit("Dbl");
            reveal_strlit("Rdbl");
        }
        match self {
            Bid::Pass => "Pass".to_owned(),
            Bid::Double => "Dbl".to_owned(),
            Bid::Redouble => "Rdbl".to_owned(),
            Bid::Contract(c) => c.format(),
        }
    }
}

/// Reading back a level's digit yields the level.
pub proof fn lemma_level_char_round_trip(l: Level)
    ensures
        level_of_char(level_char(l)) == Some(l),
{
}

/// Reading back a denomination's text yields the denomination.
pub proof fn lemma_trump_text_round_trip(t: Trump)
    ensures
        trump_of_text(trump_text(t)) == Some(t),
{
    match t {
        Trump::NoTrump => {
        },
        Trump::Trump(s) => {
            assert(!(trump_text(t) =~= seq!['N', 'T']));
            crate::cards::lemma_suit_char_round_trip(s);
        },
    }
}

/// Formatting any bid and parsing the result yields the bid back.
pub proof fn lemma_bid_text_round_trip(b: Bid)
    ensures
        bid_of_text(bid_text(b)) == Some(b),
{
    match b {
        Bid::Pass => {
        },
        Bid::Double => {
        },
        Bid::Redouble => {
        },
        Bid::Contract(c) => {
            let t = bid_text(b);
            lemma_level_char_round_trip(c.level);
            lemma_trump_text_round_trip(c.trump);
            assert(t[0] == level_char(c.level));
            assert(level_of_char(t[0]) is Some);
            assert(!(t =~= seq!['P', 'a', 's', 's']));
            assert(!(t =~= seq!['P']));
            assert(!(t =~= seq!['D', 'b', 'l']));
            assert(!(t =~= seq!['R', 'd', 'b', 'l']));
            assert(t.skip(1) =~= trump_text(c.trump));
            assert(contract_of_text(t) == Some(c));
        },
    }
}

/// Every bid's textual form is one to four characters long.
pub proof fn lemma_bid_text_len(b: Bid)
    ensures
        1 <= bid_text(b).len() <= 4,
{
}

/// Text that is not one of the named calls (`Pass`, `P`, `Dbl`, `Rdbl`)
/// parses as a bid exactly when it parses as a contract.
proof fn lemma_named_bid_texts_differ(s: Seq<char>)
    requires
        !(s =~= seq!['P', 'a', 's', 's']),
        !(s =~= seq!['P']),
        !(s =~= seq!['D', 'b', 'l']),
        !(s =~= seq!['R', 'd', 'b', 'l']),
    ensures
        bid_of_text(s) == match contract_of_text(s) {
            Some(c) => Some(Bid::Contract(c)),
            None => None::<Bid>,
        },
{
}

} // verus!
