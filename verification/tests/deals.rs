//! Deals: a random deal partitions the 52-card deck into four hands of
//! thirteen.

use bridge_core::deck::Deck;
use bridge_core::table::{Deal, Seat, Vulnerability};

#[test]
fn fresh_deck_holds_each_card_once() {
    let deck = Deck::new();
    assert_eq!(deck.cards.len(), 52);
    let mut seen = [false; 52];
    for c in &deck.cards {
        let k = c.key() as usize;
        assert!(!seen[k], "a card appeared twice");
        seen[k] = true;
    }
    assert!(seen.iter().all(|s| *s));
}

#[test]
fn deal_partitions_the_deck() {
    let hands = Deck::deal();
    let all = [&hands.0, &hands.1, &hands.2, &hands.3];
    let mut seen = [false; 52];
    for h in all {
        assert_eq!(h.count(), 13);
        for c in h.cards() {
            let k = c.key() as usize;
            assert!(!seen[k], "two hands share a card");
            seen[k] = true;
        }
    }
    assert!(seen.iter().all(|s| *s), "some card is in no hand");
}

#[test]
fn random_deal_has_north_dealer_and_no_vulnerability() {
    let d = Deal::random();
    assert_eq!(d.dealer, Seat::North);
    assert_eq!(d.vulnerable, Vulnerability::Neither);
    assert_eq!(d.north.count(), 13);
    assert_eq!(d.east.count(), 13);
    assert_eq!(d.south.count(), 13);
    assert_eq!(d.west.count(), 13);
}

#[test]
fn random_deal_hands_round_trip_through_text() {
    let d = Deal::random();
    for seat in [Seat::North, Seat::East, Seat::South, Seat::West] {
        let h = d.hand_for_seat(seat);
        let parsed = bridge_core::hand::Hand::parse(&h.format()).expect("hand text should parse");
        assert!(&parsed == h);
    }
}

#[test]
fn seat_and_vulnerability_text() {
    assert_eq!(Seat::parse("North").unwrap(), Seat::North);
    assert_eq!(Seat::parse("West").unwrap(), Seat::West);
    assert!(Seat::parse("north").is_err());
    assert_eq!(Seat::South.format(), "South");
    assert_eq!(Vulnerability::parse("None").unwrap(), Vulnerability::Neither);
    assert_eq!(Vulnerability::parse("Both").unwrap(), Vulnerability::Both);
    assert!(Vulnerability::parse("Neither").is_err());
    assert_eq!(Vulnerability::Neither.format(), "None");
}

#[test]
fn deal_header_and_views_render() {
    let d = Deal {
        dealer: Seat::North,
        vulnerable: Vulnerability::Neither,
        north: bridge_core::hand::Hand::parse("AKQ2|T93|J8754|6").unwrap(),
        east: bridge_core::hand::Hand::parse("|AKQJT98765432||").unwrap(),
        south: bridge_core::hand::Hand::parse("J987|42|AKQ|AKQJ").unwrap(),
        west: bridge_core::hand::Hand::parse("T6543|865|T96|T9").unwrap(),
    };
    let expected_header = "+-----------------------+\n\
                           |     Dealer: North     |\n\
                           +-----------------------+\n\
                           | Vulnerable: None      |\n\
                           +-----------------------+\n";
    assert_eq!(d.header(), expected_header);
    let expected_north = "|          NORTH        |\n\
                          |   Spades: AKQ2        |\n\
                          |   Hearts: T93         |\n\
                          | Diamonds: J8754       |\n\
                          |    Clubs: 6           |\n\
                          +-----------------------+\n";
    assert_eq!(d.view_for_seat(Seat::North), expected_north);
    let expected_east = "|           EAST        |\n\
                         |   Spades:             |\n\
                         |   Hearts: AKQJT98765432|\n\
                         | Diamonds:             |\n\
                         |    Clubs:             |\n\
                         +-----------------------+\n";
    assert_eq!(d.view_for_seat(Seat::East), expected_east);
    let full = d.format();
    assert!(full.starts_with(expected_header));
    assert!(full.ends_with("+-----------------------+\n"));
}
