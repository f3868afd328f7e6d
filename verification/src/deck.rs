//! The 52-card deck and the random deal that partitions it into four hands.

use vstd::prelude::*;
use vstd::seq_lib::lemma_multiset_commutative;
use rand::seq::SliceRandom;
use crate::cards::{
    Card, Rank, Suit, card_from_key, card_key, lemma_card_key_inverse, rank_from_val,
    rank_val, suit_from_val, suit_val,
};
use crate::hand::Hand;

verus! {

/// The number of cards in the deck.
pub open spec fn deck_size() -> int {
    52
}

/// The card at position `k` of a fresh deck: positions run through the suits
/// Spades, Hearts, Diamonds, Clubs and the ranks from Ace down to Two.
pub open spec fn deck_card(k: int) -> Card {
    card_from_key(51 - k)
}

/// A card's key is recovered from the card it denotes.
proof fn lemma_card_from_key_inverse(v: int)
    requires
        0 <= v < 52,
    ensures
        card_key(card_from_key(v)) == v,
{
    let s: int = v / 13;
    let r: int = v % 13;
    assert(0 <= s < 4 && 0 <= r < 13 && s * 13 + r == v) by (nonlinear_arith)
        requires
            0 <= v < 52,
            s == v / 13,
            r == v % 13,
    ;
    assert(suit_val(suit_from_val(s)) == s);
    assert(rank_val(rank_from_val(r)) == r);
}

/// The full deck of 52 distinct cards.
pub struct Deck {
    pub cards: Vec<Card>,
}

impl Deck {
    /// A fresh, unshuffled deck holding each of the 52 cards once, suits in
    /// display order and ranks from high to low.
    pub fn new() -> (deck: Deck)
        ensures
            deck.cards@.len() == 52,
            forall|k: int| 0 <= k < 52 ==> deck.cards@[k] == deck_card(k),
            deck.cards@.no_duplicates(),
            forall|c: Card| deck.cards@.contains(c),
    {
        let mut cards: Vec<Card> = Vec::new();
        for k in 0..52u8
            invariant
                cards@.len() == k,
                forall|j: int| 0 <= j < k ==> cards@[j] == deck_card(j),
        {
            let v: u8 = 51 - k;
            let suit = Suit::from_val(v / 13);
            let rank = Rank::from_val(v % 13);
            cards.push(Card { rank, suit });
        }
        proof {
            assert(cards@.len() == 52);
            assert forall|a: int, b: int|
                0 <= a < 52 && 0 <= b < 52 && a != b implies cards@[a] != cards@[b] by {
                assert(cards@[a] == deck_card(a));
                assert(cards@[b] == deck_card(b));
                lemma_card_from_key_inverse(51 - a);
                lemma_card_from_key_inverse(51 - b);
            }
            assert forall|c: Card| cards@.contains(c) by {
                lemma_card_key_inverse(c);
                let k = 51 - card_key(c);
                assert(cards@[k] == deck_card(k));
                assert(cards@[k] == c);
            }
        }
        Deck { cards }
    }

    /// Shuffle the whole deck and split it into four hands of thirteen cards
    /// for North, East, South and West: pairwise disjoint, and together the
    /// full deck.
    pub fn deal() -> (hands: (Hand, Hand, Hand, Hand))
        ensures
            hands.0.wf() && hands.1.wf() && hands.2.wf() && hands.3.wf(),
            hands.0@.len() == 13 && hands.1@.len() == 13 && hands.2@.len() == 13
                && hands.3@.len() == 13,
            (hands.0@ + hands.1@ + hands.2@ + hands.3@).no_duplicates(),
            forall|c: Card| (hands.0@ + hands.1@ + hands.2@ + hands.3@).contains(c),
    {
        broadcast use vstd::seq_lib::group_to_multiset_ensures;

        let mut deck = Deck::new();
        let ghost fresh = deck.cards@;
        shuffle_cards(&mut deck.cards);
        let ghost mixed = deck.cards@;
        proof {
            assert(mixed.to_multiset().len() == fresh.to_multiset().len());
            assert(mixed.len() == fresh.len());
            fresh.lemma_multiset_has_no_duplicates();
            mixed.lemma_multiset_has_no_duplicates_conv();
            assert(mixed.no_duplicates());
            assert forall|c: Card| mixed.contains(c) by {
                assert(fresh.contains(c));
                assert(fresh.to_multiset().count(c) > 0);
            }
        }
        let north = take_range(&deck.cards, 0, 13);
        let east = take_range(&deck.cards, 13, 26);
        let south = take_range(&deck.cards, 26, 39);
        let west = take_range(&deck.cards, 39, 52);
        proof {
            assert(mixed =~= mixed.subrange(0, 13) + mixed.subrange(13, 26) + mixed.subrange(
                26,
                39,
            ) + mixed.subrange(39, 52));
        }
        let hn = Hand::new(north);
        let he = Hand::new(east);
        let hs = Hand::new(south);
        let hw = Hand::new(west);
        proof {
            let whole = hn@ + he@ + hs@ + hw@;
            lemma_multiset_commutative(mixed.subrange(0, 13), mixed.subrange(13, 26));
            lemma_multiset_commutative(
                mixed.subrange(0, 13) + mixed.subrange(13, 26),
                mixed.subrange(26, 39),
            );
            lemma_multiset_commutative(
                mixed.subrange(0, 13) + mixed.subrange(13, 26) + mixed.subrange(26, 39),
                mixed.subrange(39, 52),
            );
            lemma_multiset_commutative(hn@, he@);
            lemma_multiset_commutative(hn@ + he@, hs@);
            lemma_multiset_commutative(hn@ + he@ + hs@, hw@);
            assert(whole.to_multiset() =~= mixed.to_multiset());
            mixed.lemma_multiset_has_no_duplicates();
            whole.lemma_multiset_has_no_duplicates_conv();
            assert forall|c: Card| whole.contains(c) by {
                assert(mixed.contains(c));
                assert(mixed.to_multiset().count(c) > 0);
            }
            assert(mixed.subrange(0, 13).no_duplicates());
            assert(mixed.subrange(13, 26).no_duplicates());
            assert(mixed.subrange(26, 39).no_duplicates());
            assert(mixed.subrange(39, 52).no_duplicates());
        }
        (hn, he, hs, hw)
    }
}

/// A copy of the cards at positions `from` to `to`.
fn take_range(cards: &Vec<Card>, from: usize, to: usize) -> (out: Vec<Card>)
    requires
        from <= to <= cards@.len(),
    ensures
        out@ == cards@.subrange(from as int, to as int),
{
    let mut out: Vec<Card> = Vec::new();
    for i in from..to
        invariant
            from <= i <= to <= cards@.len(),
            out@ == cards@.subrange(from as int, i as int),
    {
        out.push(cards[i]);
        proof {
            assert(cards@.subrange(from as int, i + 1) =~= cards@.subrange(
                from as int,
                i as int,
            ).push(cards@[i as int]));
        }
    }
    out
}

/// Relies on rand's `SliceRandom::shuffle`: a Fisher-Yates pass that only
/// swaps elements within the slice, so the cards are permuted in place and
/// none is added or lost.
#[verifier::external_body]
fn shuffle_cards(cards: &mut Vec<Card>)
    ensures
        final(cards)@.to_multiset() == old(cards)@.to_multiset(),
{
    let mut rng = rand::thread_rng();
    cards.shuffle(&mut rng);
}

} // verus!
