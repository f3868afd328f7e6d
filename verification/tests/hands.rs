//! Hands: the canonical textual form and its parser round-trip.

use bridge_core::cards::{Card, Rank, Suit};
use bridge_core::errors::Error;
use bridge_core::hand::Hand;

#[test]
fn format_groups_by_suit_high_to_low() {
    let h = Hand::parse("AKQ2|T93|J8754|6").expect("should parse as a hand");
    assert_eq!(h.format(), "AKQ2|T93|J8754|6");
    assert_eq!(h.count(), 13);
}

#[test]
fn parse_canonicalizes_rank_order() {
    let scrambled = Hand::parse("2QKA|93T|87J54|6").expect("should parse as a hand");
    assert_eq!(scrambled.format(), "AKQ2|T93|J8754|6");
}

#[test]
fn round_trip_parse_of_format() {
    let samples = [
        "AKQ2|T93|J8754|6",
        "|AKQJT98765432||",
        "AKQJT98765432|||",
        "|||AKQJT98765432",
        "A2|K3|Q4|J5",
        "|||",
    ];
    for s in samples {
        let h = Hand::parse(s).expect("should parse as a hand");
        let again = Hand::parse(&h.format()).expect("formatted hand should parse");
        assert!(again == h);
    }
}

#[test]
fn empty_groups_stand_for_empty_suits() {
    let h = Hand::parse("AK||32|").expect("should parse as a hand");
    assert_eq!(h.format(), "AK||32|");
    assert_eq!(h.count(), 4);
}

#[test]
fn group_count_must_be_four() {
    assert!(matches!(Hand::parse(""), Err(Error::Format)));
    assert!(matches!(Hand::parse("AKQ2|T93|J8754"), Err(Error::Format)));
    assert!(matches!(Hand::parse("AKQ2|T93|J875|4|"), Err(Error::Format)));
    assert!(matches!(Hand::parse("||||"), Err(Error::Format)));
}

#[test]
fn bad_rank_symbols_are_format_errors() {
    assert!(matches!(Hand::parse("AKQX|T93|J8754|6"), Err(Error::Format)));
    assert!(matches!(Hand::parse("akq2|t93|j8754|6"), Err(Error::Format)));
    assert!(matches!(Hand::parse("AKQ2|T93|J8754|1"), Err(Error::Format)));
}

#[test]
fn suit_holding_keeps_only_that_suit() {
    let h = Hand::parse("AKQ2|T93|J8754|6").expect("should parse as a hand");
    assert_eq!(h.suit_holding(Suit::Spades).format(), "AKQ2");
    assert_eq!(h.suit_holding(Suit::Hearts).format(), "T93");
    assert_eq!(h.suit_holding(Suit::Diamonds).format(), "J8754");
    assert_eq!(h.suit_holding(Suit::Clubs).format(), "6");
}

#[test]
fn new_sorts_cards_into_display_order() {
    let cards = vec![
        Card { rank: Rank::Six, suit: Suit::Clubs },
        Card { rank: Rank::Ace, suit: Suit::Spades },
        Card { rank: Rank::Ten, suit: Suit::Hearts },
        Card { rank: Rank::King, suit: Suit::Spades },
    ];
    let h = Hand::new(cards);
    assert_eq!(h.format(), "AK|T||6");
}

#[test]
fn equality_is_by_card_set() {
    let a = Hand::parse("AKQ2|T93|J8754|6").unwrap();
    let b = Hand::parse("KQA2|39T|4578J|6").unwrap();
    let c = Hand::parse("AKQ3|T93|J8754|6").unwrap();
    assert!(a == b);
    assert!(a != c);
}
