//! Hands of cards: the canonical sorted representation, the cards a hand
//! holds in each suit, and the textual form with its parser.

use vstd::prelude::*;
use vstd::multiset::Multiset;
use vstd::seq_lib::lemma_multiset_commutative;
use crate::cards::{
    Card, Rank, Suit, card_key, lemma_card_key_injective, rank_char, rank_of_char, suit_from_val,
};
use crate::errors::Error;

verus! {

/// Keys weakly decreasing from front to back: the order a hand stores its
/// cards in, Spades before Hearts before Diamonds before Clubs, ranks from
/// high to low within a suit.
pub open spec fn sorted_desc(s: Seq<Card>) -> bool {
    forall|i: int, j: int| 0 <= i < j < s.len() ==> card_key(s[i]) >= card_key(s[j])
}

/// Keys strictly decreasing from front to back; this also makes the cards
/// pairwise distinct.
pub open spec fn sorted_strict_desc(s: Seq<Card>) -> bool {
    forall|i: int, j: int| 0 <= i < j < s.len() ==> card_key(s[i]) > card_key(s[j])
}

/// `c` inserted into `s` in front of the first card with a key not above
/// `c`'s.
pub open spec fn insert_desc(c: Card, s: Seq<Card>) -> Seq<Card>
    decreases s.len(),
{
    if s.len() == 0 {
        seq![c]
    } else if card_key(c) >= card_key(s[0]) {
        seq![c] + s
    } else {
        seq![s[0]] + insert_desc(c, s.drop_first())
    }
}

/// `s` rearranged into weakly decreasing key order by repeated insertion.
pub open spec fn sort_desc(s: Seq<Card>) -> Seq<Card>
    decreases s.len(),
{
    if s.len() == 0 {
        Seq::empty()
    } else {
        insert_desc(s.last(), sort_desc(s.drop_last()))
    }
}

/// The position where `insert_desc` places a new card with key `k`: after
/// every strictly larger key.
proof fn lemma_find_pos(c: Card, s: Seq<Card>) -> (j: int)
    requires
        sorted_desc(s),
    ensures
        0 <= j <= s.len(),
        forall|i: int| 0 <= i < j ==> card_key(s[i]) > card_key(c),
        j < s.len() ==> card_key(s[j]) <= card_key(c),
    decreases s.len(),
{
    if s.len() == 0 {
        0
    } else if card_key(s[0]) <= card_key(c) {
        0
    } else {
        let j = lemma_find_pos(c, s.drop_first()) + 1;
        assert forall|i: int| 0 <= i < j implies card_key(s[i]) > card_key(c) by {
            if i > 0 {
                assert(card_key(s.drop_first()[i - 1]) > card_key(c));
            }
        }
        j
    }
}

/// Where the insertion point is known, `insert_desc` is a splice at that
/// point.
proof fn lemma_insert_desc_at(c: Card, s: Seq<Card>, j: int)
    requires
        sorted_desc(s),
        0 <= j <= s.len(),
        forall|i: int| 0 <= i < j ==> card_key(s[i]) > card_key(c),
        j < s.len() ==> card_key(s[j]) <= card_key(c),
    ensures
        insert_desc(c, s) == s.take(j) + seq![c] + s.skip(j),
    decreases j,
{
    if j == 0 {
        if s.len() == 0 {
            assert(insert_desc(c, s) =~= s.take(0) + seq![c] + s.skip(0));
        } else {
            assert(card_key(c) >= card_key(s[0]));
            assert(insert_desc(c, s) =~= s.take(0) + seq![c] + s.skip(0));
        }
    } else {
        assert(card_key(s[0]) > card_key(c));
        let rest = s.drop_first();
        lemma_insert_desc_at(c, rest, j - 1);
        assert(insert_desc(c, s) =~= s.take(j) + seq![c] + s.skip(j));
    }
}

/// What `insert_desc` does, stated over the result: a splice at the found
/// position, one card longer, the same cards plus the new one, and sorted.
proof fn lemma_insert_desc_props(c: Card, s: Seq<Card>)
    requires
        sorted_desc(s),
    ensures
        insert_desc(c, s).len() == s.len() + 1,
        insert_desc(c, s).to_multiset() == s.to_multiset().insert(c),
        sorted_desc(insert_desc(c, s)),
{
    broadcast use vstd::seq_lib::group_to_multiset_ensures;

    let j = lemma_find_pos(c, s);
    lemma_insert_desc_at(c, s, j);
    let out = insert_desc(c, s);
    assert(s =~= s.take(j) + s.skip(j));
    lemma_multiset_commutative(s.take(j), s.skip(j));
    lemma_multiset_commutative(s.take(j) + seq![c], s.skip(j));
    lemma_multiset_commutative(s.take(j), seq![c]);
    assert(seq![c].to_multiset() =~= Multiset::empty().insert(c)) by {
        assert(seq![c] =~= Seq::empty().push(c));
    }
    assert(out.to_multiset() =~= s.to_multiset().insert(c));
    assert forall|a: int, b: int| 0 <= a < b < out.len() implies card_key(out[a]) >= card_key(
        out[b],
    ) by {
        if a < j {
            assert(out[a] == s[a]);
        } else if a == j {
            assert(out[a] == c);
        } else {
            assert(out[a] == s[a - 1]);
        }
        if b < j {
            assert(out[b] == s[b]);
        } else if b == j {
            assert(out[b] == c);
        } else {
            assert(out[b] == s[b - 1]);
        }
    }
}

/// What `sort_desc` does: a permutation of its input in weakly decreasing
/// key order.
pub proof fn lemma_sort_desc_props(s: Seq<Card>)
    ensures
        sort_desc(s).len() == s.len(),
        sort_desc(s).to_multiset() == s.to_multiset(),
        sorted_desc(sort_desc(s)),
    decreases s.len(),
{
    broadcast use vstd::seq_lib::group_to_multiset_ensures;

    if s.len() == 0 {
        assert(sort_desc(s).to_multiset() =~= s.to_multiset());
    } else {
        lemma_sort_desc_props(s.drop_last());
        lemma_insert_desc_props(s.last(), sort_desc(s.drop_last()));
        assert(s.drop_last().push(s.last()) =~= s);
        assert(s.drop_last().to_multiset().insert(s.last()) == s.to_multiset());
    }
}

/// A permutation of a duplicate-free sequence that is weakly sorted by key
/// is strictly sorted: equal keys would mean equal cards.
pub proof fn lemma_sorted_no_dup_strict(s: Seq<Card>, t: Seq<Card>)
    requires
        s.no_duplicates(),
        t.to_multiset() == s.to_multiset(),
        sorted_desc(t),
    ensures
        sorted_strict_desc(t),
{
    s.lemma_multiset_has_no_duplicates();
    t.lemma_multiset_has_no_duplicates_conv();
    assert forall|i: int, j: int| 0 <= i < j < t.len() implies card_key(t[i]) > card_key(
        t[j],
    ) by {
        if card_key(t[i]) == card_key(t[j]) {
            lemma_card_key_injective(t[i], t[j]);
        }
    }
}

/// Sorting a strictly sorted sequence leaves it unchanged.
pub proof fn lemma_sort_desc_of_sorted(s: Seq<Card>)
    requires
        sorted_strict_desc(s),
    ensures
        sort_desc(s) == s,
    decreases s.len(),
{
    if s.len() > 0 {
        let init = s.drop_last();
        lemma_sort_desc_of_sorted(init);
        lemma_insert_desc_at(s.last(), init, init.len() as int);
        assert(sort_desc(s) =~= s);
    }
}

/// The cards of one suit that a hand holds, in the order the hand stores
/// them: ranks from high to low when the hand is sorted.
#[derive(Debug)]
pub struct SuitCards {
    pub cards: Vec<Card>,
}

/// A hand of cards, stored in the canonical order: Spades, Hearts, Diamonds,
/// Clubs, ranks from high to low within each suit.
#[derive(Debug)]
pub struct Hand {
    cards: Vec<Card>,
}

impl View for Hand {
    type V = Seq<Card>;

    closed spec fn view(&self) -> Seq<Card> {
        self.cards@
    }
}

impl Hand {
    /// A well-formed hand stores its cards in strictly decreasing key order,
    /// which also makes them pairwise distinct.
    pub open spec fn wf(&self) -> bool {
        sorted_strict_desc(self@)
    }

    /// Build a hand from cards in any order; the cards are sorted into the
    /// canonical order, and duplicates are kept.
    pub fn new(cards: Vec<Card>) -> (h: Hand)
        ensures
            h@ == sort_desc(cards@),
            h@.to_multiset() == cards@.to_multiset(),
            h@.len() == cards@.len(),
            sorted_desc(h@),
            cards@.no_duplicates() ==> h.wf(),
    {
        let mut sorted: Vec<Card> = Vec::new();
        let n = cards.len();
        for i in 0..n
            invariant
                n == cards@.len(),
                sorted@ == sort_desc(cards@.take(i as int)),
                sorted_desc(sorted@),
        {
            let c = cards[i];
            insert_into_sorted(&mut sorted, c);
            proof {
                assert(cards@.take(i + 1).drop_last() =~= cards@.take(i as int));
                assert(cards@.take(i + 1).last() == c);
                lemma_insert_desc_props(c, sort_desc(cards@.take(i as int)));
            }
        }
        proof {
            assert(cards@.take(n as int) =~= cards@);
            lemma_sort_desc_props(cards@);
            if cards@.no_duplicates() {
                lemma_sorted_no_dup_strict(cards@, sort_desc(cards@));
            }
        }
        Hand { cards: sorted }
    }

    /// The hand's cards, in the stored order.
    pub fn cards(&self) -> (cs: &Vec<Card>)
        ensures
            cs@ == self@,
    {
        &self.cards
    }

    /// The number of cards in the hand.
    pub fn count(&self) -> (n: usize)
        ensures
            n == self@.len(),
    {
        self.cards.len()
    }

    /// The cards of the given suit that this hand holds, in stored order.
    pub fn suit_holding(&self, suit: Suit) -> (sc: SuitCards)
        ensures
            sc.cards@ == of_suit(self@, suit),
    {
        let mut kept: Vec<Card> = Vec::new();
        let n = self.cards.len();
        for i in 0..n
            invariant
                n == self.cards@.len(),
                kept@ == of_suit(self.cards@.take(i as int), suit),
        {
            let c = self.cards[i];
            proof {
                assert(self.cards@.take(i + 1).drop_last() =~= self.cards@.take(i as int));
                assert(self.cards@.take(i + 1).last() == c);
            }
            if c.suit() == suit {
                kept.push(c);
            }
        }
        proof {
            assert(self.cards@.take(n as int) =~= self.cards@);
        }
        SuitCards { cards: kept }
    }
}

/// The suit of the `i`-th pipe-separated group of a hand's textual form:
/// Spades, Hearts, Diamonds, Clubs.
pub open spec fn suit_of_group(i: int) -> Suit {
    suit_from_val(3 - i)
}

/// The rank symbols of a run of cards, in order.
pub open spec fn ranks_text(cs: Seq<Card>) -> Seq<char> {
    cs.map_values(|c: Card| rank_char(c.rank))
}

/// The cards of one suit in a run of cards, in the order they appear.
pub open spec fn of_suit(cs: Seq<Card>, s: Suit) -> Seq<Card>
    decreases cs.len(),
{
    if cs.len() == 0 {
        Seq::empty()
    } else {
        let init = of_suit(cs.drop_last(), s);
        if cs.last().suit == s {
            init.push(cs.last())
        } else {
            init
        }
    }
}

/// Every card that `of_suit` keeps has the asked-for suit.
pub proof fn lemma_of_suit_suits(cs: Seq<Card>, s: Suit)
    ensures
        forall|k: int| 0 <= k < of_suit(cs, s).len() ==> #[trigger] of_suit(cs, s)[k].suit == s,
    decreases cs.len(),
{
    if cs.len() > 0 {
        lemma_of_suit_suits(cs.drop_last(), s);
    }
}

/// A run with no card of the asked-for suit yields nothing.
proof fn lemma_of_suit_empty(cs: Seq<Card>, s: Suit)
    requires
        forall|i: int| 0 <= i < cs.len() ==> cs[i].suit != s,
    ensures
        of_suit(cs, s) == Seq::<Card>::empty(),
    decreases cs.len(),
{
    if cs.len() > 0 {
        lemma_of_suit_empty(cs.drop_last(), s);
    }
}

/// The rank symbols of the cards of one suit that a hand holds.
pub open spec fn suit_text(cs: Seq<Card>, s: Suit) -> Seq<char> {
    ranks_text(of_suit(cs, s))
}

/// The textual form of a hand: four pipe-separated groups of rank symbols,
/// for Spades, Hearts, Diamonds and Clubs in that order.
pub open spec fn hand_text(cs: Seq<Card>) -> Seq<char> {
    suit_text(cs, Suit::Spades) + seq!['|'] + suit_text(cs, Suit::Hearts) + seq!['|'] + suit_text(
        cs,
        Suit::Diamonds,
    ) + seq!['|'] + suit_text(cs, Suit::Clubs)
}

/// Every character of a group is a rank symbol.
pub open spec fn group_ok(g: Seq<char>) -> bool {
    forall|k: int| 0 <= k < g.len() ==> rank_of_char(g[k]) is Some
}

/// The cards a group of rank symbols denotes, in the given suit.
pub open spec fn cards_of_ranks(g: Seq<char>, s: Suit) -> Seq<Card> {
    g.map_values(|c: char| Card { rank: rank_of_char(c)->Some_0, suit: s })
}

/// One left-to-right pass over a hand's textual form: how many group
/// separators have been crossed, and the cards read so far; `None` once the
/// text can no longer be a hand (a bad rank symbol, or a fifth group).
pub open spec fn scan_hand(t: Seq<char>) -> Option<(int, Seq<Card>)>
    decreases t.len(),
{
    if t.len() == 0 {
        Some((0, Seq::empty()))
    } else {
        match scan_hand(t.drop_last()) {
            None => None,
            Some(st) => {
                let c = t.last();
                if c == '|' {
                    if st.0 < 3 {
                        Some((st.0 + 1, st.1))
                    } else {
                        None
                    }
                } else {
                    match rank_of_char(c) {
                        Some(r) => Some(
                            (st.0, st.1.push(Card { rank: r, suit: suit_of_group(st.0) })),
                        ),
                        None => None,
                    }
                }
            },
        }
    }
}

/// The cards a hand's textual form denotes, in the order written: defined
/// exactly when the text has four groups of rank symbols.
pub open spec fn hand_of_text(t: Seq<char>) -> Option<Seq<Card>> {
    match scan_hand(t) {
        Some(st) => if st.0 == 3 {
            Some(st.1)
        } else {
            None
        },
        None => None,
    }
}

/// Once a prefix of the text fails to scan, the whole text fails.
proof fn lemma_scan_none_extend(t: Seq<char>, n: int)
    requires
        0 <= n <= t.len(),
        scan_hand(t.take(n)) is None,
    ensures
        scan_hand(t) is None,
    decreases t.len() - n,
{
    if n == t.len() {
        assert(t.take(n) =~= t);
    } else {
        assert(t.take(n + 1).drop_last() =~= t.take(n));
        lemma_scan_none_extend(t, n + 1);
    }
}

/// Scanning past a whole group of rank symbols appends that group's cards.
proof fn lemma_scan_extend_group(t: Seq<char>, g: Seq<char>)
    requires
        scan_hand(t) is Some,
        group_ok(g),
    ensures
        scan_hand(t + g) == Some(
            (
                (scan_hand(t)->Some_0).0,
                (scan_hand(t)->Some_0).1 + cards_of_ranks(g, suit_of_group((scan_hand(t)->Some_0).0)),
            ),
        ),
    decreases g.len(),
{
    let st = scan_hand(t)->Some_0;
    let s = suit_of_group(st.0);
    if g.len() == 0 {
        assert(t + g =~= t);
        assert(st.1 + cards_of_ranks(g, s) =~= st.1);
    } else {
        let init = g.drop_last();
        lemma_scan_extend_group(t, init);
        assert((t + g).drop_last() =~= t + init);
        assert(rank_of_char(g.last()) is Some);
        assert(g.last() != '|');
        let nc = (Card { rank: rank_of_char(g.last())->Some_0, suit: s });
        assert(cards_of_ranks(g, s) =~= cards_of_ranks(init, s).push(nc));
        assert(st.1 + cards_of_ranks(g, s) =~= (st.1 + cards_of_ranks(init, s)).push(nc));
        assert((t + g).last() == g.last());
    }
}

/// Scanning past a group separator moves to the next group.
proof fn lemma_scan_extend_bar(t: Seq<char>)
    requires
        scan_hand(t) is Some,
        (scan_hand(t)->Some_0).0 < 3,
    ensures
        scan_hand(t + seq!['|']) == Some(
            ((scan_hand(t)->Some_0).0 + 1, (scan_hand(t)->Some_0).1),
        ),
{
    assert((t + seq!['|']).drop_last() =~= t);
    assert((t + seq!['|']).last() == '|');
}

/// A hand's per-suit group of rank symbols denotes exactly the hand's cards
/// of that suit.
proof fn lemma_cards_of_suit_text(cs: Seq<Card>, s: Suit)
    ensures
        group_ok(suit_text(cs, s)),
        cards_of_ranks(suit_text(cs, s), s) == of_suit(cs, s),
{
    let f = of_suit(cs, s);
    let g = suit_text(cs, s);
    lemma_of_suit_suits(cs, s);
    assert forall|k: int| 0 <= k < g.len() implies rank_of_char(g[k]) is Some by {
        assert(g[k] == rank_char(f[k].rank));
        crate::cards::lemma_rank_char_round_trip(f[k].rank);
    }
    assert forall|k: int| 0 <= k < g.len() implies cards_of_ranks(g, s)[k] == f[k] by {
        assert(g[k] == rank_char(f[k].rank));
        crate::cards::lemma_rank_char_round_trip(f[k].rank);
        assert(f[k].suit == s);
    }
    assert(cards_of_ranks(g, s) =~= f);
}

/// A sorted run of cards is its four per-suit groups laid end to end in the
/// display order of the suits.
proof fn lemma_sorted_suit_concat(cs: Seq<Card>)
    requires
        sorted_desc(cs),
    ensures
        cs == of_suit(cs, Suit::Spades) + of_suit(cs, Suit::Hearts) + of_suit(
            cs,
            Suit::Diamonds,
        ) + of_suit(cs, Suit::Clubs),
    decreases cs.len(),
{
    if cs.len() == 0 {
        assert(cs =~= of_suit(cs, Suit::Spades) + of_suit(cs, Suit::Hearts) + of_suit(
            cs,
            Suit::Diamonds,
        ) + of_suit(cs, Suit::Clubs));
    } else {
        let init = cs.drop_last();
        let c = cs.last();
        lemma_sorted_suit_concat(init);
        let fs = of_suit(init, Suit::Spades);
        let fh = of_suit(init, Suit::Hearts);
        let fd = of_suit(init, Suit::Diamonds);
        let fc = of_suit(init, Suit::Clubs);
        assert forall|i: int| 0 <= i < init.len() implies crate::cards::suit_val(init[i].suit)
            >= crate::cards::suit_val(c.suit) by {
            assert(card_key(cs[i]) >= card_key(cs[cs.len() - 1]));
        }
        match c.suit {
            Suit::Spades => {
                lemma_of_suit_empty(init, Suit::Hearts);
                lemma_of_suit_empty(init, Suit::Diamonds);
                lemma_of_suit_empty(init, Suit::Clubs);
                assert(of_suit(cs, Suit::Spades) == fs.push(c));
                assert(init =~= fs);
                assert(cs =~= fs.push(c));
                assert(cs =~= fs.push(c) + fh + fd + fc);
            },
            Suit::Hearts => {
                lemma_of_suit_empty(init, Suit::Diamonds);
                lemma_of_suit_empty(init, Suit::Clubs);
                assert(of_suit(cs, Suit::Hearts) == fh.push(c));
                assert(init =~= fs + fh);
                assert(cs =~= (fs + fh).push(c));
                assert((fs + fh).push(c) =~= fs + fh.push(c) + fd + fc);
            },
            Suit::Diamonds => {
                lemma_of_suit_empty(init, Suit::Clubs);
                assert(of_suit(cs, Suit::Diamonds) == fd.push(c));
                assert(init =~= fs + fh + fd);
                assert(cs =~= (fs + fh + fd).push(c));
                assert((fs + fh + fd).push(c) =~= fs + fh + fd.push(c) + fc);
            },
            Suit::Clubs => {
                assert(of_suit(cs, Suit::Clubs) == fc.push(c));
                assert(cs =~= (fs + fh + fd + fc).push(c));
                assert((fs + fh + fd + fc).push(c) =~= fs + fh + fd + fc.push(c));
            },
        }
    }
}

/// Parsing the textual form of a sorted run of cards reads back exactly that
/// run.
#[verifier::rlimit(100)]
pub proof fn lemma_hand_text_parses(cs: Seq<Card>)
    requires
        sorted_desc(cs),
    ensures
        hand_of_text(hand_text(cs)) == Some(cs),
{
    let gs = suit_text(cs, Suit::Spades);
    let gh = suit_text(cs, Suit::Hearts);
    let gd = suit_text(cs, Suit::Diamonds);
    let gc = suit_text(cs, Suit::Clubs);
    let fs = of_suit(cs, Suit::Spades);
    let fh = of_suit(cs, Suit::Hearts);
    let fd = of_suit(cs, Suit::Diamonds);
    let fc = of_suit(cs, Suit::Clubs);
    lemma_cards_of_suit_text(cs, Suit::Spades);
    lemma_cards_of_suit_text(cs, Suit::Hearts);
    lemma_cards_of_suit_text(cs, Suit::Diamonds);
    lemma_cards_of_suit_text(cs, Suit::Clubs);

    let t0 = Seq::<char>::empty();
    assert(scan_hand(t0) == Some((0int, Seq::<Card>::empty())));
    lemma_scan_extend_group(t0, gs);
    assert(t0 + gs =~= gs);
    assert(suit_of_group(0) == Suit::Spades);
    assert(scan_hand(gs) == Some((0int, Seq::<Card>::empty() + fs)));
    assert(Seq::<Card>::empty() + fs =~= fs);
    lemma_scan_extend_bar(gs);
    let t1 = gs + seq!['|'];
    assert(scan_hand(t1) == Some((1int, fs)));
    lemma_scan_extend_group(t1, gh);
    assert(suit_of_group(1) == Suit::Hearts);
    lemma_scan_extend_bar(t1 + gh);
    let t2 = (t1 + gh) + seq!['|'];
    assert(scan_hand(t2) == Some((2int, fs + fh)));
    lemma_scan_extend_group(t2, gd);
    assert(suit_of_group(2) == Suit::Diamonds);
    lemma_scan_extend_bar(t2 + gd);
    let t3 = (t2 + gd) + seq!['|'];
    assert(scan_hand(t3) == Some((3int, (fs + fh) + fd)));
    lemma_scan_extend_group(t3, gc);
    assert(suit_of_group(3) == Suit::Clubs);
    let t4 = t3 + gc;
    assert(scan_hand(t4) == Some((3int, ((fs + fh) + fd) + fc)));

    assert(t4 =~= hand_text(cs));
    lemma_sorted_suit_concat(cs);
    assert(((fs + fh) + fd) + fc =~= fs + fh + fd + fc);
    assert(hand_of_text(hand_text(cs)) == Some(cs));
}

/// Formatting a well-formed hand and parsing the result yields the hand
/// back: its text denotes exactly its cards, and re-sorting them is the
/// identity.
pub proof fn lemma_hand_round_trip(cs: Seq<Card>)
    requires
        sorted_strict_desc(cs),
    ensures
        hand_of_text(hand_text(cs)) == Some(cs),
        sort_desc(cs) == cs,
{
    lemma_hand_text_parses(cs);
    lemma_sort_desc_of_sorted(cs);
}

impl SuitCards {
    /// A suit holding with no cards.
    pub fn empty() -> (sc: SuitCards)
        ensures
            sc.cards@ =~= Seq::<Card>::empty(),
    {
        SuitCards { cards: Vec::new() }
    }

    /// A suit holding over the given cards, kept in the given order.
    pub fn new(cards: Vec<Card>) -> (sc: SuitCards)
        ensures
            sc.cards@ == cards@,
    {
        SuitCards { cards }
    }

    /// The cards denoted by a run of rank symbols, all in the given suit, or
    /// a format error on any other character.
    pub fn parse(suit: Suit, ranks: &str) -> (r: Result<SuitCards, Error>)
        ensures
            match r {
                Ok(sc) => group_ok(ranks@) && sc.cards@ == cards_of_ranks(ranks@, suit),
                Err(e) => !group_ok(ranks@) && e is Format,
            },
    {
        let n = ranks.unicode_len();
        let mut cards: Vec<Card> = Vec::new();
        for i in 0..n
            invariant
                n == ranks@.len(),
                group_ok(ranks@.take(i as int)),
                cards@ == cards_of_ranks(ranks@.take(i as int), suit),
        {
            let c = ranks.get_char(i);
            match Rank::from_char(c) {
                Some(rank) => {
                    cards.push(Card { rank, suit });
                    proof {
                        assert(ranks@.take(i + 1).drop_last() =~= ranks@.take(i as int));
                        let nc = (Card {
                            rank: rank_of_char(ranks@[i as int])->Some_0,
                            suit,
                        });
                        assert(cards_of_ranks(ranks@.take(i + 1), suit) =~= cards_of_ranks(
                            ranks@.take(i as int),
                            suit,
                        ).push(nc));
                    }
                },
                None => {
                    assert(rank_of_char(ranks@[i as int]) is None);
                    return Err(Error::Format);
                },
            }
        }
        proof {
            assert(ranks@.take(n as int) =~= ranks@);
        }
        Ok(SuitCards { cards })
    }

    /// The holding's rank symbols, in order.
    pub fn format(&self) -> (t: String)
        ensures
            t@ == ranks_text(self.cards@),
    {
        let mut out = String::new();
        let n = self.cards.len();
        for i in 0..n
            invariant
                n == self.cards@.len(),
                out@ == ranks_text(self.cards@.take(i as int)),
        {
            out.append(self.cards[i].rank.format());
            proof {
                assert(ranks_text(self.cards@.take(i + 1)) =~= ranks_text(
                    self.cards@.take(i as int),
                ).push(rank_char(self.cards@[i as int].rank)));
            }
        }
        proof {
            assert(self.cards@.take(n as int) =~= self.cards@);
        }
        out
    }
}

impl Hand {
    /// The hand denoted by a piece of text: four pipe-separated groups of
    /// rank symbols in the order Spades, Hearts, Diamonds, Clubs, an empty
    /// group standing for a suit with no cards. Any other shape is a format
    /// error. The cards are stored sorted; duplicate cards in the text are
    /// kept, leaving the hand ill-formed.
    pub fn parse(s: &str) -> (r: Result<Hand, Error>)
        ensures
            match r {
                Ok(h) => {
                    &&& hand_of_text(s@) is Some
                    &&& h@ == sort_desc(hand_of_text(s@)->Some_0)
                    &&& h@.to_multiset() == hand_of_text(s@)->Some_0.to_multiset()
                    &&& sorted_desc(h@)
                    &&& hand_of_text(s@)->Some_0.no_duplicates() ==> h.wf()
                },
                Err(e) => hand_of_text(s@) is None && e is Format,
            },
    {
        let n = s.unicode_len();
        let mut bars: u8 = 0;
        let mut cards: Vec<Card> = Vec::new();
        for i in 0..n
            invariant
                n == s@.len(),
                bars <= 3,
                scan_hand(s@.take(i as int)) == Some((bars as int, cards@)),
        {
            let c = s.get_char(i);
            proof {
                assert(s@.take(i + 1).drop_last() =~= s@.take(i as int));
                assert(s@.take(i + 1).last() == s@[i as int]);
            }
            if c == '|' {
                if bars == 3 {
                    proof {
                        lemma_scan_none_extend(s@, i + 1);
                    }
                    return Err(Error::Format);
                }
                bars += 1;
            } else {
                match Rank::from_char(c) {
                    Some(rank) => {
                        let suit = Suit::from_val(3 - bars);
                        cards.push(Card { rank, suit });
                    },
                    None => {
                        proof {
                            lemma_scan_none_extend(s@, i + 1);
                        }
                        return Err(Error::Format);
                    },
                }
            }
        }
        proof {
            assert(s@.take(n as int) =~= s@);
        }
        if bars != 3 {
            return Err(Error::Format);
        }
        Ok(Hand::new(cards))
    }

    /// The hand's textual form: its four suit holdings, Spades first,
    /// separated by pipes.
    pub fn format(&self) -> (t: String)
        ensures
            t@ == hand_text(self@),
    {
        proof {
            reveal_strlit("|");
        }
        let mut out = String::new();
        out.append(self.suit_holding(Suit::Spades).format().as_str());
        out.append("|");
        out.append(self.suit_holding(Suit::Hearts).format().as_str());
        out.append("|");
        out.append(self.suit_holding(Suit::Diamonds).format().as_str());
        out.append("|");
        out.append(self.suit_holding(Suit::Clubs).format().as_str());
        proof {
            assert(("|")@ =~= seq!['|']);
            assert(out@ =~= hand_text(self@));
        }
        out
    }
}

impl PartialEq for Hand {
    /// Two hands are equal when they store the same cards in the same order;
    /// as hands are kept sorted, this is equality of card sets for
    /// well-formed hands.
    fn eq(&self, other: &Hand) -> (r: bool) {
        if self.cards.len() != other.cards.len() {
            return false;
        }
        let n = self.cards.len();
        for i in 0..n
            invariant
                n == self.cards@.len(),
                n == other.cards@.len(),
                forall|j: int| 0 <= j < i ==> self.cards@[j] == other.cards@[j],
        {
            if self.cards[i] != other.cards[i] {
                return false;
            }
        }
        proof {
            assert(self.cards@ =~= other.cards@);
        }
        true
    }
}

impl vstd::std_specs::cmp::PartialEqSpecImpl for Hand {
    open spec fn obeys_eq_spec() -> bool {
        true
    }

    open spec fn eq_spec(&self, other: &Hand) -> bool {
        self@ == other@
    }
}

impl Eq for Hand {

}

/// Insert a card into a weakly sorted vector, keeping it sorted.
fn insert_into_sorted(cards: &mut Vec<Card>, c: Card)
    requires
        sorted_desc(old(cards)@),
    ensures
        final(cards)@ == insert_desc(c, old(cards)@),
{
    let mut j: usize = 0;
    while j < cards.len() && cards[j].key() > c.key()
        invariant
            cards@ == old(cards)@,
            0 <= j <= cards@.len(),
            forall|i: int| 0 <= i < j ==> card_key(cards@[i]) > card_key(c),
        decreases cards@.len() - j,
    {
        j += 1;
    }
    cards.insert(j, c);
    proof {
        lemma_insert_desc_at(c, old(cards)@, j as int);
        assert(cards@ =~= old(cards)@.take(j as int) + seq![c] + old(cards)@.skip(j as int));
    }
}

} // verus!
