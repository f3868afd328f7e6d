//! Calls: parsing, formatting and comparison of levels, trumps, contracts
//! and bids.

use std::cmp::Ordering;

use bridge_core::calls::{Bid, Contract, Level, Trump};
use bridge_core::cards::{Rank, Suit};
use bridge_core::errors::Error;

fn bid(s: &str) -> Bid {
    Bid::parse(s).expect("should parse as a bid")
}

#[test]
fn pass_parses() {
    assert_eq!(bid("Pass"), Bid::Pass);
    assert_eq!(bid("P"), Bid::Pass);
}

#[test]
fn dbl_parses() {
    assert_eq!(bid("Dbl"), Bid::Double);
}

#[test]
fn rdbl_parses() {
    assert_eq!(bid("Rdbl"), Bid::Redouble);
}

#[test]
fn contract_bids_parse() {
    assert_eq!(
        bid("1NT"),
        Bid::Contract(Contract::new(Level::One, Trump::NoTrump))
    );
    assert_eq!(
        bid("7D"),
        Bid::Contract(Contract::new(Level::Seven, Trump::Trump(Suit::Diamonds)))
    );
    assert_eq!(
        bid("4S"),
        Bid::Contract(Contract::new(Level::Four, Trump::Trump(Suit::Spades)))
    );
}

#[test]
fn malformed_bids_are_format_errors() {
    assert!(matches!(Bid::parse(""), Err(Error::Format)));
    assert!(matches!(Bid::parse("pass"), Err(Error::Format)));
    assert!(matches!(Bid::parse("8S"), Err(Error::Format)));
    assert!(matches!(Bid::parse("1X"), Err(Error::Format)));
    assert!(matches!(Bid::parse("0NT"), Err(Error::Format)));
    assert!(matches!(Bid::parse("1"), Err(Error::Format)));
}

#[test]
fn bid_formats() {
    assert_eq!(bid("Pass").format(), "Pass");
    assert_eq!(bid("Dbl").format(), "Dbl");
    assert_eq!(bid("Rdbl").format(), "Rdbl");
    assert_eq!(bid("1NT").format(), "1NT");
    assert_eq!(bid("7C").format(), "7C");
}

#[test]
fn bid_format_round_trips() {
    for s in ["Pass", "Dbl", "Rdbl", "1C", "2D", "3H", "4S", "5NT", "6C", "7NT"] {
        let b = bid(s);
        assert_eq!(bid(&b.format()), b);
    }
}

fn compare(left: &str, right: &str) -> Ordering {
    bid(left)
        .partial_cmp(&bid(right))
        .expect("should have an ordering")
}

#[test]
fn identity_pass() {
    assert_eq!(compare("Pass", "Pass"), Ordering::Equal);
}

#[test]
fn identity_dbl() {
    assert_eq!(compare("Dbl", "Dbl"), Ordering::Equal);
}

#[test]
fn identity_rdbl() {
    assert_eq!(compare("Rdbl", "Rdbl"), Ordering::Equal);
}

#[test]
fn contract_compare() {
    assert_eq!(compare("1S", "1S"), Ordering::Equal);
    assert_eq!(compare("1S", "1NT"), Ordering::Less);
    assert_eq!(compare("2S", "1S"), Ordering::Greater);
    assert_eq!(compare("4S", "1S"), Ordering::Greater);
    assert_eq!(compare("1NT", "1S"), Ordering::Greater);
    assert_eq!(compare("1S", "1H"), Ordering::Greater);
    assert_eq!(compare("1H", "1D"), Ordering::Greater);
    assert_eq!(compare("1D", "1C"), Ordering::Greater);
    assert_eq!(compare("1D", "4C"), Ordering::Less);
}

#[test]
fn level() {
    assert!(Level::One == Level::One);
    assert!(Level::Two < Level::Three);
    assert!(Level::Five > Level::Four);
}

#[test]
fn outranks_matches_ordering() {
    let low = Contract::new(Level::One, Trump::Trump(Suit::Clubs));
    let high = Contract::new(Level::One, Trump::NoTrump);
    assert!(high.outranks(&low));
    assert!(!low.outranks(&high));
    assert!(!low.outranks(&low));
}

#[test]
fn level_trump_rank_parse() {
    assert_eq!(Level::parse("7").unwrap(), Level::Seven);
    assert!(matches!(Level::parse("8"), Err(Error::Format)));
    assert!(matches!(Level::parse("77"), Err(Error::Format)));
    assert_eq!(Trump::parse("NT").unwrap(), Trump::NoTrump);
    assert_eq!(Trump::parse("H").unwrap(), Trump::Trump(Suit::Hearts));
    assert!(matches!(Trump::parse("X"), Err(Error::Format)));
    assert!(matches!(Trump::parse("NTX"), Err(Error::Format)));
    assert_eq!(Rank::parse("T").unwrap(), Rank::Ten);
    assert!(matches!(Rank::parse("1"), Err(Error::Format)));
    assert_eq!(Suit::parse("C").unwrap(), Suit::Clubs);
    assert!(matches!(Suit::parse("c"), Err(Error::Format)));
}
