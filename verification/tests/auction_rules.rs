//! The auction legality state machine: termination and which calls may
//! continue a sequence.

use bridge_core::auction::BidSequence;
use bridge_core::calls::Bid;
use bridge_core::errors::{Error, Rule};
use bridge_core::table::Seat;

fn sequence(bids: &[&str]) -> BidSequence {
    let mut parsed: Vec<Bid> = Vec::new();
    for s in bids {
        parsed.push(Bid::parse(s).expect("should parse as a bid"));
    }
    BidSequence::new(parsed)
}

fn valid(bids: &[&str], next: &str) -> bool {
    sequence(bids).valid_continuation(Bid::parse(next).expect("should parse as a bid"))
}

fn finished(bids: &[&str]) -> bool {
    sequence(bids).is_finished()
}

#[test]
fn too_short_not_finished() {
    assert!(!finished(&["Pass"]));
    assert!(!finished(&["Pass", "Pass"]));
    assert!(!finished(&["Pass", "Pass", "Pass"]));
}

#[test]
fn passed_out() {
    assert!(finished(&["Pass", "Pass", "Pass", "Pass"]));
}

#[test]
fn pass_after_bid_not_finished() {
    assert!(!finished(&["1S", "Pass"]));
    assert!(!finished(&["1S", "Pass", "Pass"]));
}

#[test]
fn pass_out_after_bid() {
    assert!(finished(&["1S", "Pass", "Pass", "Pass"]));
}

#[test]
fn pass_after_dbl_not_finished() {
    assert!(!finished(&["1S", "Dbl", "Pass", "Pass"]));
}

#[test]
fn pass_out_after_dbl() {
    assert!(finished(&["1S", "Dbl", "Pass", "Pass", "Pass"]));
}

#[test]
fn opening_calls() {
    assert!(valid(&[], "Pass"));
    assert!(!valid(&[], "Dbl"));
    assert!(!valid(&[], "Rdbl"));
    assert!(valid(&[], "1NT"));
    assert!(valid(&[], "7D"));
}

#[test]
fn after_contract() {
    assert!(valid(&["1S"], "Pass"));
    assert!(valid(&["1S"], "Dbl"));
    assert!(!valid(&["1S"], "Rdbl"));
    assert!(valid(&["1S"], "1NT"));
    assert!(valid(&["1S"], "4S"));
    assert!(!valid(&["1S"], "1C"));
    assert!(!valid(&["1NT"], "1S"));
}

#[test]
fn double_partner() {
    assert!(!valid(&["1S", "Pass"], "Dbl"));
}

#[test]
fn after_double() {
    assert!(!valid(&["1S", "Dbl", "Pass"], "1C"));
    assert!(valid(&["1S", "Dbl", "Pass"], "2H"));
    assert!(valid(&["1S", "Dbl", "Pass"], "Pass"));
    assert!(!valid(&["1S", "Dbl", "Pass"], "Dbl"));
    assert!(!valid(&["1S", "Dbl", "Pass"], "Rdbl"));
    assert!(valid(&["1S", "Dbl"], "Rdbl"));
    assert!(valid(&["1S", "Dbl", "Pass", "Pass"], "Rdbl"));
}

#[test]
fn after_redouble() {
    assert!(!valid(&["1S", "Dbl", "Rdbl"], "Dbl"));
    assert!(!valid(&["1S", "Dbl", "Rdbl"], "Rdbl"));
    assert!(!valid(&["1S", "Dbl", "Rdbl"], "1S"));
    assert!(!valid(&["1S", "Dbl", "Rdbl"], "1D"));
    assert!(valid(&["1S", "Dbl", "Rdbl"], "Pass"));
    assert!(valid(&["1S", "Dbl", "Rdbl"], "2C"));
}

#[test]
fn pass_out_continuations() {
    assert!(valid(&["Pass", "Pass", "Pass"], "Pass"));
    assert!(!valid(&["Pass", "Pass", "Pass", "Pass"], "Pass"));
    assert!(!valid(&["Pass", "Pass", "Pass", "Pass"], "1S"));
    assert!(!valid(&["1S", "Pass", "Pass", "Pass"], "Pass"));
    assert!(!valid(&["1C", "Pass", "Pass", "Pass"], "1S"));
    assert!(valid(&["1C", "Dbl", "Pass", "Pass"], "1S"));
}

#[test]
fn pass_out_becomes_finished() {
    let closing = sequence(&["Pass", "Pass", "Pass"])
        .with_continuation(Bid::parse("Pass").unwrap())
        .expect("a fourth pass closes the auction");
    assert!(closing.is_finished());
    let closing = sequence(&["1S", "Pass", "Pass"])
        .with_continuation(Bid::parse("Pass").unwrap())
        .expect("a third pass after a bid closes the auction");
    assert!(closing.is_finished());
}

#[test]
fn with_continuation_appends() {
    let base = sequence(&["1S", "Dbl"]);
    let extended = base
        .with_continuation(Bid::parse("Rdbl").unwrap())
        .expect("redouble is legal over a double");
    assert_eq!(extended.bids().len(), 3);
    assert_eq!(extended.format(), "1S,Dbl,Rdbl");
}

#[test]
fn rejected_continuations_name_the_rule() {
    let err = sequence(&["Pass", "Pass", "Pass", "Pass"])
        .validate_continuation(Bid::parse("1S").unwrap())
        .unwrap_err();
    assert!(matches!(
        err,
        Error::InvalidContinuation { rule: Rule::AuctionFinished, .. }
    ));
    let err = sequence(&[])
        .validate_continuation(Bid::parse("Dbl").unwrap())
        .unwrap_err();
    assert!(matches!(
        err,
        Error::InvalidContinuation { rule: Rule::DoubleUnavailable, .. }
    ));
    let err = sequence(&["1S"])
        .validate_continuation(Bid::parse("Rdbl").unwrap())
        .unwrap_err();
    assert!(matches!(
        err,
        Error::InvalidContinuation { rule: Rule::RedoubleUnavailable, .. }
    ));
    let err = sequence(&["1NT"])
        .validate_continuation(Bid::parse("1S").unwrap())
        .unwrap_err();
    assert!(matches!(
        err,
        Error::InvalidContinuation { rule: Rule::InsufficientBid, .. }
    ));
}

#[test]
fn sequence_text_round_trips() {
    for text in ["", "Pass", "1S,Dbl,Rdbl,Pass", "1C,1D,1H,1S,1NT,2C"] {
        let seq = BidSequence::parse(text).expect("should parse as an auction");
        assert_eq!(seq.format(), text);
    }
    assert!(matches!(BidSequence::parse(","), Err(Error::Format)));
    assert!(matches!(BidSequence::parse("1S,"), Err(Error::Format)));
    assert!(matches!(BidSequence::parse("1S,,Pass"), Err(Error::Format)));
    assert!(matches!(BidSequence::parse("1S Pass"), Err(Error::Format)));
}

#[test]
fn next_seat_cycles_from_dealer() {
    assert_eq!(sequence(&[]).next_seat(Seat::North), Seat::North);
    assert_eq!(sequence(&[]).next_seat(Seat::West), Seat::West);
    assert_eq!(sequence(&["1S"]).next_seat(Seat::North), Seat::East);
    assert_eq!(sequence(&["1S", "Pass"]).next_seat(Seat::South), Seat::North);
    assert_eq!(
        sequence(&["1S", "Pass", "Pass", "Pass"]).next_seat(Seat::East),
        Seat::East
    );
}

#[test]
fn table_lays_out_rounds_of_four() {
    let table = sequence(&["1S", "Pass"]).fmt_table(Seat::North);
    let expected = "+-----+-----+-----+-----+\n\
                    |  N  |  E  |  S  |  W  |\n\
                    +-----+-----+-----+-----+\n\
                    | 1S  | Pass|     |     |\n\
                    +-----+-----+-----+-----+\n";
    assert_eq!(table, expected);
}

#[test]
fn table_offsets_for_the_dealer() {
    let table = sequence(&["1S", "Pass", "Pass"]).fmt_table(Seat::South);
    let expected = "+-----+-----+-----+-----+\n\
                    |  N  |  E  |  S  |  W  |\n\
                    +-----+-----+-----+-----+\n\
                    |     |     | 1S  | Pass|\n\
                    +-----+-----+-----+-----+\n\
                    | Pass|     |     |     |\n\
                    +-----+-----+-----+-----+\n";
    assert_eq!(table, expected);
}

#[test]
fn empty_table_still_has_one_row() {
    let table = BidSequence::empty().fmt_table(Seat::North);
    let expected = "+-----+-----+-----+-----+\n\
                    |  N  |  E  |  S  |  W  |\n\
                    +-----+-----+-----+-----+\n\
                    |     |     |     |     |\n\
                    +-----+-----+-----+-----+\n";
    assert_eq!(table, expected);
}
