//! The table: seats, vulnerability, and the deal of four hands.

use vstd::prelude::*;
use crate::cards::Card;
use crate::deck::Deck;
use crate::errors::Error;
use crate::hand::Hand;
use crate::text::eq_text;

verus! {

/// The four seats, in their cyclic order of play.
#[derive(Copy, Clone, Debug, PartialEq, Eq, Structural)]
pub enum Seat {
    North,
    East,
    South,
    West,
}

/// Which side is vulnerable on a deal; assigned at deal creation.
#[derive(Copy, Clone, Debug, PartialEq, Eq, Structural)]
pub enum Vulnerability {
    NS,
    EW,
    Both,
    Neither,
}

/// Position of a seat in the order of play, starting from North.
pub open spec fn seat_val(s: Seat) -> int {
    match s {
        Seat::North => 0,
        Seat::East => 1,
        Seat::South => 2,
        Seat::West => 3,
    }
}

/// The seat at a given position in the order of play.
pub open spec fn seat_from_val(v: int) -> Seat {
    if v == 0 {
        Seat::North
    } else if v == 1 {
        Seat::East
    } else if v == 2 {
        Seat::South
    } else {
        Seat::West
    }
}

/// The name of a seat.
pub open spec fn seat_text(s: Seat) -> Seq<char> {
    match s {
        Seat::North => seq!['N', 'o', 'r', 't', 'h'],
        Seat::East => seq!['E', 'a', 's', 't'],
        Seat::South => seq!['S', 'o', 'u', 't', 'h'],
        Seat::West => seq!['W', 'e', 's', 't'],
    }
}

/// The seat a name denotes, if any.
pub open spec fn seat_of_text(t: Seq<char>) -> Option<Seat> {
    if t == seat_text(Seat::North) {
        Some(Seat::North)
    } else if t == seat_text(Seat::East) {
        Some(Seat::East)
    } else if t == seat_text(Seat::South) {
        Some(Seat::South)
    } else if t == seat_text(Seat::West) {
        Some(Seat::West)
    } else {
        None
    }
}

/// The textual form of a vulnerability; no side vulnerable is written
/// `None`.
pub open spec fn vulnerability_text(v: Vulnerability) -> Seq<char> {
    match v {
        Vulnerability::NS => seq!['N', 'S'],
        Vulnerability::EW => seq!['E', 'W'],
        Vulnerability::Both => seq!['B', 'o', 't', 'h'],
        Vulnerability::Neither => seq!['N', 'o', 'n', 'e'],
    }
}

/// The vulnerability a piece of text denotes, if any.
pub open spec fn vulnerability_of_text(t: Seq<char>) -> Option<Vulnerability> {
    if t == vulnerability_text(Vulnerability::NS) {
        Some(Vulnerability::NS)
    } else if t == vulnerability_text(Vulnerability::EW) {
        Some(Vulnerability::EW)
    } else if t == vulnerability_text(Vulnerability::Both) {
        Some(Vulnerability::Both)
    } else if t == vulnerability_text(Vulnerability::Neither) {
        Some(Vulnerability::Neither)
    } else {
        None
    }
}

impl Seat {
    /// The seat at a given position in the order of play.
    pub fn from_val(v: u8) -> (s: Seat)
        requires
            v < 4,
        ensures
            s == seat_from_val(v as int),
    {
        if v == 0 {
            Seat::North
        } else if v == 1 {
            Seat::East
        } else if v == 2 {
            Seat::South
        } else {
            Seat::West
        }
    }

    /// The seat's position in the order of play.
    pub fn val(&self) -> (v: u8)
        ensures
            v == seat_val(*self),
    {
        match self {
            Seat::North => 0,
            Seat::East => 1,
            Seat::South => 2,
            Seat::West => 3,
        }
    }

    /// The seat named by a string, or a format error.
    pub fn parse(s: &str) -> (r: Result<Seat, Error>)
        ensures
            match r {
                Ok(seat) => seat_of_text(s@) == Some(seat),
                Err(e) => seat_of_text(s@) is None && e is Format,
            },
    {
        proof {
            reveal_strlit("North");
            reveal_strlit("East");
            reveal_strlit("South");
            reveal_strlit("West");
            assert(("North")@ =~= seat_text(Seat::North));
            assert(("East")@ =~= seat_text(Seat::East));
            assert(("South")@ =~= seat_text(Seat::South));
            assert(("West")@ =~= seat_text(Seat::West));
        }
        if eq_text(s, "North") {
            Ok(Seat::North)
        } else if eq_text(s, "East") {
            Ok(Seat::East)
        } else if eq_text(s, "South") {
            Ok(Seat::South)
        } else if eq_text(s, "West") {
            Ok(Seat::West)
        } else {
            Err(Error::Format)
        }
    }

    /// The seat's name.
    pub fn format(&self) -> (t: &'static str)
        ensures
            t@ == seat_text(*self),
    {
        proof {
            reveal_strlit("North");
            reveal_strlit("East");
            reveal_strlit("South");
            reveal_strlit("West");
            assert(("North")@ =~= seat_text(Seat::North));
            assert(("East")@ =~= seat_text(Seat::East));
            assert(("South")@ =~= seat_text(Seat::South));
            assert(("West")@ =~= seat_text(Seat::West));
        }
        match self {
            Seat::North => "North",
            Seat::East => "East",
            Seat::South => "South",
            Seat::West => "West",
        }
    }
}

impl Vulnerability {
    /// The vulnerability named by a string, or a format error.
    pub fn parse(s: &str) -> (r: Result<Vulnerability, Error>)
        ensures
            match r {
                Ok(v) => vulnerability_of_text(s@) == Some(v),
                Err(e) => vulnerability_of_text(s@) is None && e is Format,
            },
    {
        proof {
            reveal_strlit("NS");
            reveal_strlit("EW");
            reveal_strlit("Both");
            reveal_strlit("None");
            assert(("NS")@ =~= vulnerability_text(Vulnerability::NS));
            assert(("EW")@ =~= vulnerability_text(Vulnerability::EW));
            assert(("Both")@ =~= vulnerability_text(Vulnerability::Both));
            assert(("None")@ =~= vulnerability_text(Vulnerability::Neither));
        }
        if eq_text(s, "NS") {
            Ok(Vulnerability::NS)
        } else if eq_text(s, "EW") {
            Ok(Vulnerability::EW)
        } else if eq_text(s, "Both") {
            Ok(Vulnerability::Both)
        } else if eq_text(s, "None") {
            Ok(Vulnerability::Neither)
        } else {
            Err(Error::Format)
        }
    }

    /// The vulnerability's textual form.
    pub fn format(&self) -> (t: &'static str)
        ensures
            t@ == vulnerability_text(*self),
    {
        proof {
            reveal_strlit("NS");
            reveal_strlit("EW");
            reveal_strlit("Both");
            reveal_strlit("None");
            assert(("NS")@ =~= vulnerability_text(Vulnerability::NS));
            assert(("EW")@ =~= vulnerability_text(Vulnerability::EW));
            assert(("Both")@ =~= vulnerability_text(Vulnerability::Both));
            assert(("None")@ =~= vulnerability_text(Vulnerability::Neither));
        }
        match self {
            Vulnerability::NS => "NS",
            Vulnerability::EW => "EW",
            Vulnerability::Both => "Both",
            Vulnerability::Neither => "None",
        }
    }
}

/// One distribution of the deck: a dealer, a vulnerability, and the four
/// hands by seat.
#[derive(Debug)]
pub struct Deal {
    pub dealer: Seat,
    pub vulnerable: Vulnerability,
    pub north: Hand,
    pub east: Hand,
    pub south: Hand,
    pub west: Hand,
}

impl Deal {
    /// All the deal's cards: the four hands laid end to end.
    pub open spec fn all_cards(&self) -> Seq<Card> {
        self.north@ + self.east@ + self.south@ + self.west@
    }

    /// A well-formed deal: four well-formed hands of thirteen cards each,
    /// pairwise disjoint, together holding every one of the 52 cards.
    pub open spec fn wf(&self) -> bool {
        &&& self.north.wf()
        &&& self.east.wf()
        &&& self.south.wf()
        &&& self.west.wf()
        &&& self.north@.len() == 13
        &&& self.east@.len() == 13
        &&& self.south@.len() == 13
        &&& self.west@.len() == 13
        &&& self.all_cards().no_duplicates()
        &&& forall|c: Card| self.all_cards().contains(c)
    }

    /// A freshly dealt deal: a shuffled deck split into four hands, North
    /// dealing, neither side vulnerable.
    pub fn random() -> (d: Deal)
        ensures
            d.wf(),
            d.dealer == Seat::North,
            d.vulnerable == Vulnerability::Neither,
    {
        let hands = Deck::deal();
        Deal {
            dealer: Seat::North,
            vulnerable: Vulnerability::Neither,
            north: hands.0,
            east: hands.1,
            south: hands.2,
            west: hands.3,
        }
    }

    /// The hand belonging to a seat.
    pub fn hand_for_seat(&self, seat: Seat) -> (h: &Hand)
        ensures
            h@ == match seat {
                Seat::North => self.north@,
                Seat::East => self.east@,
                Seat::South => self.south@,
                Seat::West => self.west@,
            },
    {
        match seat {
            Seat::North => &self.north,
            Seat::East => &self.east,
            Seat::South => &self.south,
            Seat::West => &self.west,
        }
    }
}

/// A horizontal rule of the deal display.
pub open spec fn box_rule() -> Seq<char> {
    seq![
        '+', '-', '-', '-', '-', '-', '-', '-', '-', '-', '-', '-', '-', '-', '-', '-', '-', '-',
        '-', '-', '-', '-', '-', '-', '+', '\n',
    ]
}

/// The label opening the dealer line.
pub open spec fn dealer_label() -> Seq<char> {
    seq!['|', ' ', ' ', ' ', ' ', ' ', 'D', 'e', 'a', 'l', 'e', 'r', ':', ' ']
}

/// The label opening the vulnerability line.
pub open spec fn vulnerable_label() -> Seq<char> {
    seq!['|', ' ', 'V', 'u', 'l', 'n', 'e', 'r', 'a', 'b', 'l', 'e', ':', ' ']
}

/// Text padded with spaces to a column width; text already that wide is
/// left as it is.
pub open spec fn pad_to(t: Seq<char>, w: int) -> Seq<char> {
    t + crate::text::spaces(w - t.len())
}

/// The boxed header naming a deal's dealer and vulnerability.
pub open spec fn header_text(d: &Deal) -> Seq<char> {
    box_rule() + dealer_label() + pad_to(seat_text(d.dealer), 10) + seq!['|', '\n'] + box_rule()
        + vulnerable_label() + pad_to(vulnerability_text(d.vulnerable), 10) + seq!['|', '\n']
        + box_rule()
}

/// The five-character banner over one seat's hand.
pub open spec fn seat_banner(seat: Seat) -> Seq<char> {
    match seat {
        Seat::North => seq!['N', 'O', 'R', 'T', 'H'],
        Seat::East => seq![' ', 'E', 'A', 'S', 'T'],
        Seat::South => seq!['S', 'O', 'U', 'T', 'H'],
        Seat::West => seq![' ', 'W', 'E', 'S', 'T'],
    }
}

/// The line bearing a seat's banner.
pub open spec fn banner_line(seat: Seat) -> Seq<char> {
    seq!['|', ' ', ' ', ' ', ' ', ' ', ' ', ' ', ' ', ' ', ' '] + seat_banner(seat) + seq![
        ' ', ' ', ' ', ' ', ' ', ' ', ' ', ' ', '|', '\n',
    ]
}

/// One line of a hand display: a suit's label, its rank symbols padded to
/// the column, and the closing edge.
pub open spec fn suit_line(label: Seq<char>, ranks: Seq<char>) -> Seq<char> {
    label + pad_to(ranks, 12) + seq!['|', '\n']
}

/// The label opening the spades line.
pub open spec fn spades_label() -> Seq<char> {
    seq!['|', ' ', ' ', ' ', 'S', 'p', 'a', 'd', 'e', 's', ':', ' ']
}

/// The label opening the hearts line.
pub open spec fn hearts_label() -> Seq<char> {
    seq!['|', ' ', ' ', ' ', 'H', 'e', 'a', 'r', 't', 's', ':', ' ']
}

/// The label opening the diamonds line.
pub open spec fn diamonds_label() -> Seq<char> {
    seq!['|', ' ', 'D', 'i', 'a', 'm', 'o', 'n', 'd', 's', ':', ' ']
}

/// The label opening the clubs line.
pub open spec fn clubs_label() -> Seq<char> {
    seq!['|', ' ', ' ', ' ', ' ', 'C', 'l', 'u', 'b', 's', ':', ' ']
}

/// The boxed view of one seat's hand: the seat's banner, then one line per
/// suit with the held ranks, closed by a rule.
pub open spec fn seat_view_text(d: &Deal, seat: Seat) -> Seq<char> {
    let cs = match seat {
        Seat::North => d.north@,
        Seat::East => d.east@,
        Seat::South => d.south@,
        Seat::West => d.west@,
    };
    banner_line(seat) + suit_line(spades_label(), crate::hand::suit_text(cs, crate::cards::Suit::Spades))
        + suit_line(hearts_label(), crate::hand::suit_text(cs, crate::cards::Suit::Hearts))
        + suit_line(diamonds_label(), crate::hand::suit_text(cs, crate::cards::Suit::Diamonds))
        + suit_line(clubs_label(), crate::hand::suit_text(cs, crate::cards::Suit::Clubs))
        + box_rule()
}

/// Append text padded with spaces to a column width.
fn append_padded(out: &mut String, t: &str, w: usize)
    ensures
        final(out)@ == old(out)@ + pad_to(t@, w as int),
{
    out.append(t);
    let l = t.unicode_len();
    let pad: usize = if l >= w {
        0
    } else {
        w - l
    };
    crate::text::append_spaces(out, pad);
    proof {
        if l >= w {
            assert(crate::text::spaces(0) =~= crate::text::spaces(w - t@.len()));
        }
        assert(out@ =~= old(out)@ + pad_to(t@, w as int));
    }
}

/// Append a horizontal rule of the deal display.
fn append_box_rule(out: &mut String)
    ensures
        final(out)@ == old(out)@ + box_rule(),
{
    proof {
        reveal_strlit("+-----------------------+\n");
    }
    out.append("+-----------------------+\n");
    proof {
        assert(("+-----------------------+\n")@ =~= box_rule());
    }
}

/// Append one line of a hand display: the suit's label, its rank symbols
/// padded to the column, and the closing edge.
fn append_suit_line(out: &mut String, label: &str, sc: crate::hand::SuitCards)
    ensures
        final(out)@ == old(out)@ + suit_line(label@, crate::hand::ranks_text(sc.cards@)),
{
    proof {
        reveal_strlit("|\n");
    }
    out.append(label);
    append_padded(out, sc.format().as_str(), 12);
    out.append("|\n");
    proof {
        assert(("|\n")@ =~= seq!['|', '\n']);
        assert(out@ =~= old(out)@ + suit_line(label@, crate::hand::ranks_text(sc.cards@)));
    }
}

impl Deal {
    /// The boxed header naming the deal's dealer and vulnerability.
    pub fn header(&self) -> (t: String)
        ensures
            t@ == header_text(self),
    {
        proof {
            reveal_strlit("|     Dealer: ");
            reveal_strlit("| Vulnerable: ");
            reveal_strlit("|\n");
        }
        let mut out = String::new();
        append_box_rule(&mut out);
        out.append("|     Dealer: ");
        append_padded(&mut out, self.dealer.format(), 10);
        out.append("|\n");
        append_box_rule(&mut out);
        out.append("| Vulnerable: ");
        append_padded(&mut out, self.vulnerable.format(), 10);
        out.append("|\n");
        append_box_rule(&mut out);
        proof {
            assert(("|     Dealer: ")@ =~= dealer_label());
            assert(("| Vulnerable: ")@ =~= vulnerable_label());
            assert(("|\n")@ =~= seq!['|', '\n']);
            assert(out@ =~= header_text(self));
        }
        out
    }

    /// The boxed view of one seat's hand: its banner, then one line per
    /// suit with the held ranks.
    #[verifier::rlimit(50)]
    pub fn view_for_seat(&self, seat: Seat) -> (t: String)
        ensures
            t@ == seat_view_text(self, seat),
    {
        proof {
            reveal_strlit("|          ");
            reveal_strlit("        |\n");
            reveal_strlit("NORTH");
            reveal_strlit(" EAST");
            reveal_strlit("SOUTH");
            reveal_strlit(" WEST");
            reveal_strlit("|   Spades: ");
            reveal_strlit("|   Hearts: ");
            reveal_strlit("| Diamonds: ");
            reveal_strlit("|    Clubs: ");
        }
        let hand = self.hand_for_seat(seat);
        let mut out = String::new();
        out.append("|          ");
        let banner: &'static str = match seat {
            Seat::North => "NORTH",
            Seat::East => " EAST",
            Seat::South => "SOUTH",
            Seat::West => " WEST",
        };
        out.append(banner);
        out.append("        |\n");
        proof {
            assert(out@ =~= banner_line(seat));
        }
        append_suit_line(&mut out, "|   Spades: ", hand.suit_holding(crate::cards::Suit::Spades));
        append_suit_line(&mut out, "|   Hearts: ", hand.suit_holding(crate::cards::Suit::Hearts));
        append_suit_line(&mut out, "| Diamonds: ", hand.suit_holding(crate::cards::Suit::Diamonds));
        append_suit_line(&mut out, "|    Clubs: ", hand.suit_holding(crate::cards::Suit::Clubs));
        append_box_rule(&mut out);
        proof {
            assert(("|   Spades: ")@ =~= spades_label());
            assert(("|   Hearts: ")@ =~= hearts_label());
            assert(("| Diamonds: ")@ =~= diamonds_label());
            assert(("|    Clubs: ")@ =~= clubs_label());
            assert(out@ =~= seat_view_text(self, seat));
        }
        out
    }

    /// The whole deal rendered: its header, then each seat's hand, North
    /// first.
    pub fn format(&self) -> (t: String)
        ensures
            t@ == header_text(self) + seat_view_text(self, Seat::North) + seat_view_text(
                self,
                Seat::East,
            ) + seat_view_text(self, Seat::South) + seat_view_text(self, Seat::West),
    {
        let mut out = self.header();
        out.append(self.view_for_seat(Seat::North).as_str());
        out.append(self.view_for_seat(Seat::East).as_str());
        out.append(self.view_for_seat(Seat::South).as_str());
        out.append(self.view_for_seat(Seat::West).as_str());
        out
    }
}

/// What a well-formed deal guarantees, stated card by card: the four hands
/// are pairwise disjoint, and every card lies in exactly one of them.
pub proof fn lemma_deal_partition(d: &Deal)
    requires
        d.wf(),
    ensures
        forall|c: Card|
            d.north@.contains(c) || d.east@.contains(c) || d.south@.contains(c)
                || d.west@.contains(c),
        forall|c: Card| d.north@.contains(c) ==> !d.east@.contains(c),
        forall|c: Card| d.north@.contains(c) ==> !d.south@.contains(c),
        forall|c: Card| d.north@.contains(c) ==> !d.west@.contains(c),
        forall|c: Card| d.east@.contains(c) ==> !d.south@.contains(c),
        forall|c: Card| d.east@.contains(c) ==> !d.west@.contains(c),
        forall|c: Card| d.south@.contains(c) ==> !d.west@.contains(c),
{
    let all = d.all_cards();
    let n = d.north@;
    let e = d.east@;
    let s = d.south@;
    let w = d.west@;
    assert forall|c: Card|
        n.contains(c) || e.contains(c) || s.contains(c) || w.contains(c) by {
        assert(all.contains(c));
        let i = choose|i: int| 0 <= i < all.len() && all[i] == c;
        if i < n.len() {
            assert(n[i] == c);
        } else if i < n.len() + e.len() {
            assert(e[i - n.len()] == c);
        } else if i < n.len() + e.len() + s.len() {
            assert(s[i - n.len() - e.len()] == c);
        } else {
            assert(w[i - n.len() - e.len() - s.len()] == c);
        }
    }
    assert forall|c: Card| n.contains(c) implies !e.contains(c) by {
        if n.contains(c) && e.contains(c) {
            let i = choose|i: int| 0 <= i < n.len() && n[i] == c;
            let j = choose|j: int| 0 <= j < e.len() && e[j] == c;
            assert(all[i] == c && all[n.len() + j] == c);
        }
    }
    assert forall|c: Card| n.contains(c) implies !s.contains(c) by {
        if n.contains(c) && s.contains(c) {
            let i = choose|i: int| 0 <= i < n.len() && n[i] == c;
            let j = choose|j: int| 0 <= j < s.len() && s[j] == c;
            assert(all[i] == c && all[n.len() + e.len() + j] == c);
        }
    }
    assert forall|c: Card| n.contains(c) implies !w.contains(c) by {
        if n.contains(c) && w.contains(c) {
            let i = choose|i: int| 0 <= i < n.len() && n[i] == c;
            let j = choose|j: int| 0 <= j < w.len() && w[j] == c;
            assert(all[i] == c && all[n.len() + e.len() + s.len() + j] == c);
        }
    }
    assert forall|c: Card| e.contains(c) implies !s.contains(c) by {
        if e.contains(c) && s.contains(c) {
            let i = choose|i: int| 0 <= i < e.len() && e[i] == c;
            let j = choose|j: int| 0 <= j < s.len() && s[j] == c;
            assert(all[n.len() + i] == c && all[n.len() + e.len() + j] == c);
        }
    }
    assert forall|c: Card| e.contains(c) implies !w.contains(c) by {
        if e.contains(c) && w.contains(c) {
            let i = choose|i: int| 0 <= i < e.len() && e[i] == c;
            let j = choose|j: int| 0 <= j < w.len() && w[j] == c;
            assert(all[n.len() + i] == c && all[n.len() + e.len() + s.len() + j] == c);
        }
    }
    assert forall|c: Card| s.contains(c) implies !w.contains(c) by {
        if s.contains(c) && w.contains(c) {
            let i = choose|i: int| 0 <= i < s.len() && s[i] == c;
            let j = choose|j: int| 0 <= j < w.len() && w[j] == c;
            assert(all[n.len() + e.len() + i] == c && all[n.len() + e.len() + s.len() + j] == c);
        }
    }
}

} // verus!
