//! The error taxonomy: malformed text, illegal auction continuations,
//! and references to ids that are not in the store.

use vstd::prelude::*;
use crate::calls::Bid;

verus! {

/// The auction rule that a rejected call violated.
#[derive(Copy, Clone, Debug, PartialEq, Eq, Structural)]
pub enum Rule {
    /// The auction has already terminated; no call may follow.
    AuctionFinished,
    /// A double is only available directly over an opponent's contract bid.
    DoubleUnavailable,
    /// A redouble is only available directly over an opponent's double.
    RedoubleUnavailable,
    /// A contract bid must strictly outrank the last contract bid made.
    InsufficientBid,
}

/// The kind of record that a failed lookup asked for.
#[derive(Copy, Clone, Debug, PartialEq, Eq, Structural)]
pub enum Entity {
    Deal,
    Exercise,
    ExerciseBid,
    Comment,
}

/// What a failing library operation reports to its caller.
#[derive(Clone, Debug)]
pub enum Error {
    /// A piece of text failed to parse as a hand, bid, contract or similar.
    Format,
    /// A submitted bid is not a legal continuation of the current auction.
    /// Carries the offending bid, the auction it was tried against, and the
    /// rule it violated.
    InvalidContinuation { bid: Bid, bids: Vec<Bid>, rule: Rule },
    /// A referenced id does not exist in the store.
    NotFound(Entity),
}

/// The description `message` gives of each error: a rejected bid names the
/// rule it violated, a failed lookup names the kind of record asked for.
pub open spec fn message_text(e: &Error) -> Seq<char> {
    match e {
        Error::Format => ("failed to parse text")@,
        Error::InvalidContinuation { bid: _, bids: _, rule } => match rule {
            Rule::AuctionFinished => ("invalid continuation: the auction is finished")@,
            Rule::DoubleUnavailable => ("invalid continuation: double not available here")@,
            Rule::RedoubleUnavailable => ("invalid continuation: redouble not available here")@,
            Rule::InsufficientBid => ("invalid continuation: not outranking the last contract")@,
        },
        Error::NotFound(which) => match which {
            Entity::Deal => ("deal not found")@,
            Entity::Exercise => ("exercise not found")@,
            Entity::ExerciseBid => ("exercise bid not found")@,
            Entity::Comment => ("comment not found")@,
        },
    }
}

impl Error {
    /// A short human-readable description of the error: the violated rule
    /// for a rejected bid, the kind of missing record for a failed lookup.
    pub fn message(&self) -> (r: String)
        ensures
            r@ == message_text(self),
    {
        match self {
            Error::Format => "failed to parse text".to_owned(),
            Error::InvalidContinuation { bid: _, bids: _, rule } => match rule {
                Rule::AuctionFinished => "invalid continuation: the auction is finished".to_owned(),
                Rule::DoubleUnavailable => "invalid continuation: double not available here".to_owned(),
                Rule::RedoubleUnavailable => "invalid continuation: redouble not available here".to_owned(),
                Rule::InsufficientBid => "invalid continuation: not outranking the last contract".to_owned(),
            },
            Error::NotFound(which) => match which {
                Entity::Deal => "deal not found".to_owned(),
                Entity::Exercise => "exercise not found".to_owned(),
                Entity::ExerciseBid => "exercise bid not found".to_owned(),
                Entity::Comment => "comment not found".to_owned(),
            },
        }
    }
}

} // verus!
