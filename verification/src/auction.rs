//! The auction: an append-only sequence of bids, the legality state machine
//! that decides which call may follow, and the textual form.

use vstd::prelude::*;
use crate::calls::{Bid, bid_of_text, bid_text, contract_rank};
use crate::errors::{Error, Rule};
use crate::table::{Seat, seat_from_val, seat_val};

verus! {

/// The index of the last bid that is not a pass, if any.
pub open spec fn last_non_pass(s: Seq<Bid>) -> Option<int>
    decreases s.len(),
{
    if s.len() == 0 {
        None
    } else if !(s.last() is Pass) {
        Some(s.len() - 1)
    } else {
        last_non_pass(s.drop_last())
    }
}

/// The index of the last contract bid, if any.
pub open spec fn last_contract(s: Seq<Bid>) -> Option<int>
    decreases s.len(),
{
    if s.len() == 0 {
        None
    } else if s.last() is Contract {
        Some(s.len() - 1)
    } else {
        last_contract(s.drop_last())
    }
}

/// Whether an auction has terminated: either its first four calls are all
/// passes (passed out with no bid at all), or it holds at least four calls
/// and ends in three passes.
pub open spec fn seq_finished(s: Seq<Bid>) -> bool {
    s.len() >= 4 && ((s[0] == Bid::Pass && s[1] == Bid::Pass && s[2] == Bid::Pass && s[3]
        == Bid::Pass) || (s[s.len() - 1] == Bid::Pass && s[s.len() - 2] == Bid::Pass && s[s.len()
        - 3] == Bid::Pass))
}

/// Whether `b` may legally extend the auction `s`:
/// no call once the auction is finished; a pass always; a redouble only
/// directly over an opponent's double; a double only directly over an
/// opponent's contract bid; and a contract bid only if it strictly outranks
/// the last contract bid made, if there was one.
/// Opposition is parity: an odd number of calls between the last non-pass
/// bid and the new call.
pub open spec fn seq_valid_continuation(s: Seq<Bid>, b: Bid) -> bool {
    &&& !seq_finished(s)
    &&& match b {
        Bid::Pass => true,
        Bid::Redouble => match last_non_pass(s) {
            Some(i) => s[i] is Double && (s.len() - i) % 2 == 1,
            None => false,
        },
        Bid::Double => match last_non_pass(s) {
            Some(i) => s[i] is Contract && (s.len() - i) % 2 == 1,
            None => false,
        },
        Bid::Contract(c) => match last_contract(s) {
            Some(j) => contract_rank(c) > contract_rank(s[j]->Contract_0),
            None => true,
        },
    }
}

/// The rule an illegal continuation violated.
pub open spec fn refusal_rule(s: Seq<Bid>, b: Bid) -> Rule {
    if seq_finished(s) {
        Rule::AuctionFinished
    } else {
        match b {
            Bid::Pass => Rule::AuctionFinished,
            Bid::Double => Rule::DoubleUnavailable,
            Bid::Redouble => Rule::RedoubleUnavailable,
            Bid::Contract(_) => Rule::InsufficientBid,
        }
    }
}

/// One left-to-right pass over an auction's textual form: the bids read so
/// far and the text of the group being read; `None` once a completed group
/// is not a bid.
pub open spec fn scan_bids(t: Seq<char>) -> Option<(Seq<Bid>, Seq<char>)>
    decreases t.len(),
{
    if t.len() == 0 {
        Some((Seq::empty(), Seq::empty()))
    } else {
        match scan_bids(t.drop_last()) {
            None => None,
            Some(st) => {
                if t.last() == ',' {
                    match bid_of_text(st.1) {
                        Some(b) => Some((st.0.push(b), Seq::empty())),
                        None => None,
                    }
                } else {
                    Some((st.0, st.1.push(t.last())))
                }
            },
        }
    }
}

/// The auction a piece of text denotes, if any: empty text is the empty
/// auction, and otherwise every comma-separated group must be a bid.
pub open spec fn bids_of_text(t: Seq<char>) -> Option<Seq<Bid>> {
    if t.len() == 0 {
        Some(Seq::empty())
    } else {
        match scan_bids(t) {
            Some(st) => match bid_of_text(st.1) {
                Some(b) => Some(st.0.push(b)),
                None => None,
            },
            None => None,
        }
    }
}

/// The textual form of an auction: the bids' texts joined by commas.
pub open spec fn bids_text(bs: Seq<Bid>) -> Seq<char>
    decreases bs.len(),
{
    if bs.len() == 0 {
        Seq::empty()
    } else if bs.len() == 1 {
        bid_text(bs[0])
    } else {
        bids_text(bs.drop_last()) + seq![','] + bid_text(bs.last())
    }
}

/// Once a prefix of the text fails to scan, the whole text fails.
proof fn lemma_scan_bids_none_extend(t: Seq<char>, n: int)
    requires
        0 <= n <= t.len(),
        scan_bids(t.take(n)) is None,
    ensures
        scan_bids(t) is None,
    decreases t.len() - n,
{
    if n == t.len() {
        assert(t.take(n) =~= t);
    } else {
        assert(t.take(n + 1).drop_last() =~= t.take(n));
        lemma_scan_bids_none_extend(t, n + 1);
    }
}

/// No bid's textual form contains the comma that separates bids.
proof fn lemma_bid_text_no_comma(b: Bid)
    ensures
        forall|k: int| 0 <= k < bid_text(b).len() ==> bid_text(b)[k] != ',',
{
    match b {
        Bid::Pass => {
        },
        Bid::Double => {
        },
        Bid::Redouble => {
        },
        Bid::Contract(c) => {
            assert(bid_text(b)[0] == crate::calls::level_char(c.level));
            assert(forall|k: int|
                0 <= k < crate::calls::trump_text(c.trump).len() ==> crate::calls::trump_text(
                    c.trump,
                )[k] != ',');
        },
    }
}

/// Scanning past comma-free text extends the group being read.
proof fn lemma_scan_bids_extend_group(t: Seq<char>, g: Seq<char>)
    requires
        scan_bids(t) is Some,
        forall|k: int| 0 <= k < g.len() ==> g[k] != ',',
    ensures
        scan_bids(t + g) == Some(
            ((scan_bids(t)->Some_0).0, (scan_bids(t)->Some_0).1 + g),
        ),
    decreases g.len(),
{
    let st = scan_bids(t)->Some_0;
    if g.len() == 0 {
        assert(t + g =~= t);
        assert(st.1 + g =~= st.1);
    } else {
        let init = g.drop_last();
        lemma_scan_bids_extend_group(t, init);
        assert((t + g).drop_last() =~= t + init);
        assert((t + g).last() == g.last());
        assert(g.last() != ',');
        assert(st.1 + g =~= (st.1 + init).push(g.last()));
    }
}

/// Scanning past a comma closes the group being read, which must be a bid.
proof fn lemma_scan_bids_extend_comma(t: Seq<char>)
    requires
        scan_bids(t) is Some,
        bid_of_text((scan_bids(t)->Some_0).1) is Some,
    ensures
        scan_bids(t + seq![',']) == Some(
            (
                (scan_bids(t)->Some_0).0.push(bid_of_text((scan_bids(t)->Some_0).1)->Some_0),
                Seq::<char>::empty(),
            ),
        ),
{
    assert((t + seq![',']).drop_last() =~= t);
    assert((t + seq![',']).last() == ',');
}

/// Scanning the textual form of an auction reads back all but its last bid,
/// with the last bid's text as the open group.
proof fn lemma_scan_bids_text(bs: Seq<Bid>)
    requires
        bs.len() > 0,
    ensures
        scan_bids(bids_text(bs)) == Some((bs.drop_last(), bid_text(bs.last()))),
    decreases bs.len(),
{
    if bs.len() == 1 {
        lemma_bid_text_no_comma(bs[0]);
        let empty = Seq::<char>::empty();
        assert(scan_bids(empty) == Some((Seq::<Bid>::empty(), Seq::<char>::empty())));
        lemma_scan_bids_extend_group(empty, bid_text(bs[0]));
        assert(empty + bid_text(bs[0]) =~= bids_text(bs));
        assert(Seq::<char>::empty() + bid_text(bs[0]) =~= bid_text(bs[0]));
        assert(bs.drop_last() =~= Seq::<Bid>::empty());
    } else {
        let init = bs.drop_last();
        lemma_scan_bids_text(init);
        crate::calls::lemma_bid_text_round_trip(init.last());
        lemma_scan_bids_extend_comma(bids_text(init));
        assert(init.drop_last().push(init.last()) =~= init);
        lemma_bid_text_no_comma(bs.last());
        lemma_scan_bids_extend_group(bids_text(init) + seq![','], bid_text(bs.last()));
        assert((bids_text(init) + seq![',']) + bid_text(bs.last()) =~= bids_text(bs));
        assert(Seq::<char>::empty() + bid_text(bs.last()) =~= bid_text(bs.last()));
    }
}

/// Formatting any auction and parsing the result yields the auction back.
pub proof fn lemma_bids_text_round_trip(bs: Seq<Bid>)
    ensures
        bids_of_text(bids_text(bs)) == Some(bs),
{
    if bs.len() == 0 {
    } else {
        lemma_scan_bids_text(bs);
        crate::calls::lemma_bid_text_round_trip(bs.last());
        crate::calls::lemma_bid_text_len(bs.last());
        assert(bids_text(bs).len() > 0) by {
            if bs.len() == 1 {
            } else {
            }
        }
        assert(bs.drop_last().push(bs.last()) =~= bs);
    }
}

/// An auction from its start: an ordered, append-only list of bids.
#[derive(Debug)]
pub struct BidSequence {
    bids: Vec<Bid>,
}

impl View for BidSequence {
    type V = Seq<Bid>;

    closed spec fn view(&self) -> Seq<Bid> {
        self.bids@
    }
}

impl Clone for BidSequence {
    /// An identical copy of the auction.
    fn clone(&self) -> (r: BidSequence)
        ensures
            r@ == self@,
    {
        BidSequence { bids: copy_bids(&self.bids) }
    }
}

/// An element-by-element copy of a list of bids.
fn copy_bids(bids: &Vec<Bid>) -> (out: Vec<Bid>)
    ensures
        out@ == bids@,
{
    let mut out: Vec<Bid> = Vec::new();
    let n = bids.len();
    for i in 0..n
        invariant
            n == bids@.len(),
            out@ == bids@.take(i as int),
    {
        out.push(bids[i]);
        proof {
            assert(bids@.take(i + 1) =~= bids@.take(i as int).push(bids@[i as int]));
        }
    }
    proof {
        assert(bids@.take(n as int) =~= bids@);
    }
    out
}

impl BidSequence {
    /// The auction before any call: no bids.
    pub fn empty() -> (r: BidSequence)
        ensures
            r@ =~= Seq::<Bid>::empty(),
    {
        BidSequence { bids: Vec::new() }
    }

    /// An auction over the given bids, kept in order.
    pub fn new(bids: Vec<Bid>) -> (r: BidSequence)
        ensures
            r@ == bids@,
    {
        BidSequence { bids }
    }

    /// The bids made so far, in order.
    pub fn bids(&self) -> (r: &Vec<Bid>)
        ensures
            r@ == self@,
    {
        &self.bids
    }

    /// The seat to call next: the dealer calls first, and the turn moves one
    /// seat per bid in the order North, East, South, West, cyclically.
    pub fn next_seat(&self, dealer: Seat) -> (s: Seat)
        ensures
            s == seat_from_val((seat_val(dealer) + self@.len()) % 4),
    {
        let off: usize = (self.bids.len() % 4) + dealer.val() as usize;
        let v: usize = off % 4;
        proof {
            let d: int = seat_val(dealer);
            let n: int = self@.len() as int;
            assert((n % 4 + d) % 4 == (d + n) % 4) by (nonlinear_arith)
                requires
                    0 <= d < 4,
                    0 <= n,
            ;
        }
        Seat::from_val(v as u8)
    }

    /// Whether the auction has terminated: passed out from the start after
    /// four passes, or closed by three passes after at least one bid.
    pub fn is_finished(&self) -> (r: bool)
        ensures
            r == seq_finished(self@),
    {
        let len = self.bids.len();
        if len < 4 {
            false
        } else if self.bids[0] == Bid::Pass && self.bids[1] == Bid::Pass && self.bids[2]
            == Bid::Pass && self.bids[3] == Bid::Pass {
            true
        } else {
            self.bids[len - 1] == Bid::Pass && self.bids[len - 2] == Bid::Pass && self.bids[len
                - 3] == Bid::Pass
        }
    }

    /// The last bid that is not a pass, with its position, if any.
    pub fn last_non_pass_bid(&self) -> (r: Option<(usize, Bid)>)
        ensures
            match r {
                Some(p) => p.0 < self@.len() && last_non_pass(self@) == Some(p.0 as int) && p.1
                    == self@[p.0 as int] && !(p.1 is Pass),
                None => last_non_pass(self@) is None,
            },
    {
        let mut i = self.bids.len();
        proof {
            assert(self@.take(self.bids@.len() as int) =~= self@);
        }
        while i > 0
            invariant
                i <= self@.len(),
                last_non_pass(self@) == last_non_pass(self@.take(i as int)),
            decreases i,
        {
            let b = self.bids[i - 1];
            proof {
                assert(self@.take(i as int).drop_last() =~= self@.take(i - 1));
                assert(self@.take(i as int).last() == self@[i - 1]);
            }
            match b {
                Bid::Pass => {
                    i -= 1;
                },
                _ => {
                    return Some((i - 1, b));
                },
            }
        }
        proof {
            assert(self@.take(0) =~= Seq::<Bid>::empty());
        }
        None
    }

    /// The last contract bid, with its position, if any.
    pub fn last_contract_bid(&self) -> (r: Option<(usize, Bid)>)
        ensures
            match r {
                Some(p) => p.0 < self@.len() && last_contract(self@) == Some(p.0 as int) && p.1
                    == self@[p.0 as int] && p.1 is Contract,
                None => last_contract(self@) is None,
            },
    {
        let mut i = self.bids.len();
        proof {
            assert(self@.take(self.bids@.len() as int) =~= self@);
        }
        while i > 0
            invariant
                i <= self@.len(),
                last_contract(self@) == last_contract(self@.take(i as int)),
            decreases i,
        {
            let b = self.bids[i - 1];
            proof {
                assert(self@.take(i as int).drop_last() =~= self@.take(i - 1));
                assert(self@.take(i as int).last() == self@[i - 1]);
            }
            match b {
                Bid::Contract(_) => {
                    return Some((i - 1, b));
                },
                _ => {
                    i -= 1;
                },
            }
        }
        proof {
            assert(self@.take(0) =~= Seq::<Bid>::empty());
        }
        None
    }

    /// Whether `next` may legally extend this auction.
    pub fn valid_continuation(&self, next: Bid) -> (r: bool)
        ensures
            r == seq_valid_continuation(self@, next),
    {
        if self.is_finished() {
            return false;
        }
        match next {
            Bid::Pass => true,
            Bid::Redouble => match self.last_non_pass_bid() {
                Some(p) => match p.1 {
                    Bid::Double => (self.bids.len() - p.0) % 2 == 1,
                    _ => false,
                },
                None => false,
            },
            Bid::Double => match self.last_non_pass_bid() {
                Some(p) => match p.1 {
                    Bid::Contract(_) => (self.bids.len() - p.0) % 2 == 1,
                    _ => false,
                },
                None => false,
            },
            Bid::Contract(c) => match self.last_contract_bid() {
                Some(p) => match p.1 {
                    Bid::Contract(prev) => c.outranks(&prev),
                    _ => false,
                },
                None => true,
            },
        }
    }

    /// `Ok` exactly when `next` may legally extend this auction; otherwise
    /// the error names the offending bid, the auction, and the violated
    /// rule.
    pub fn validate_continuation(&self, next: Bid) -> (r: Result<(), Error>)
        ensures
            match r {
                Ok(()) => seq_valid_continuation(self@, next),
                Err(e) => {
                    &&& !seq_valid_continuation(self@, next)
                    &&& e matches Error::InvalidContinuation { bid, bids, rule } && bid == next
                        && bids@ == self@ && rule == refusal_rule(self@, next)
                },
            },
    {
        if self.valid_continuation(next) {
            Ok(())
        } else {
            let rule = if self.is_finished() {
                Rule::AuctionFinished
            } else {
                match next {
                    Bid::Pass => Rule::AuctionFinished,
                    Bid::Double => Rule::DoubleUnavailable,
                    Bid::Redouble => Rule::RedoubleUnavailable,
                    Bid::Contract(_) => Rule::InsufficientBid,
                }
            };
            Err(Error::InvalidContinuation { bid: next, bids: copy_bids(&self.bids), rule })
        }
    }

    /// The auction extended by `next` when that is legal; otherwise the
    /// error names the offending bid, the auction, and the violated rule.
    pub fn with_continuation(&self, next: Bid) -> (r: Result<BidSequence, Error>)
        ensures
            match r {
                Ok(t) => seq_valid_continuation(self@, next) && t@ == self@.push(next),
                Err(e) => {
                    &&& !seq_valid_continuation(self@, next)
                    &&& e matches Error::InvalidContinuation { bid, bids, rule } && bid == next
                        && bids@ == self@ && rule == refusal_rule(self@, next)
                },
            },
    {
        match self.validate_continuation(next) {
            Ok(()) => {
                let mut bids = copy_bids(&self.bids);
                bids.push(next);
                Ok(BidSequence { bids })
            },
            Err(e) => Err(e),
        }
    }
}

impl BidSequence {
    /// The auction denoted by a piece of text, or a format error: empty text
    /// is the empty auction, and otherwise every comma-separated group must
    /// be a bid.
    pub fn parse(s: &str) -> (r: Result<BidSequence, Error>)
        ensures
            match r {
                Ok(t) => bids_of_text(s@) is Some && t@ == bids_of_text(s@)->Some_0,
                Err(e) => bids_of_text(s@) is None && e is Format,
            },
    {
        let n = s.unicode_len();
        if n == 0 {
            return Ok(BidSequence { bids: Vec::new() });
        }
        let mut bids: Vec<Bid> = Vec::new();
        let mut cur = String::new();
        for i in 0..n
            invariant
                n == s@.len(),
                scan_bids(s@.take(i as int)) == Some((bids@, cur@)),
        {
            let c = s.get_char(i);
            proof {
                assert(s@.take(i + 1).drop_last() =~= s@.take(i as int));
                assert(s@.take(i + 1).last() == s@[i as int]);
            }
            if c == ',' {
                match Bid::parse(cur.as_str()) {
                    Ok(b) => {
                        bids.push(b);
                        cur = String::new();
                    },
                    Err(_) => {
                        proof {
                            lemma_scan_bids_none_extend(s@, i + 1);
                        }
                        return Err(Error::Format);
                    },
                }
            } else {
                let piece = s.substring_char(i, i + 1);
                proof {
                    assert(piece@ =~= seq![s@[i as int]]);
                }
                cur.append(piece);
            }
        }
        proof {
            assert(s@.take(n as int) =~= s@);
        }
        match Bid::parse(cur.as_str()) {
            Ok(b) => {
                bids.push(b);
                Ok(BidSequence { bids })
            },
            Err(_) => Err(Error::Format),
        }
    }

    /// The auction's textual form: the bids' texts joined by commas.
    pub fn format(&self) -> (t: String)
        ensures
            t@ == bids_text(self@),
    {
        let mut out = String::new();
        let n = self.bids.len();
        for i in 0..n
            invariant
                n == self.bids@.len(),
                out@ == bids_text(self.bids@.take(i as int)),
        {
            if i > 0 {
                proof {
                    reveal_strlit(",");
                }
                out.append(",");
            }
            let piece = self.bids[i].format();
            out.append(piece.as_str());
            proof {
                reveal_strlit(",");
                assert((",")@ =~= seq![',']);
                assert(self.bids@.take(i + 1).drop_last() =~= self.bids@.take(i as int));
                assert(self.bids@.take(i + 1).last() == self.bids@[i as int]);
                if i == 0 {
                    assert(out@ =~= bids_text(self.bids@.take(1)));
                } else {
                    assert(out@ =~= bids_text(self.bids@.take(i + 1)));
                }
            }
        }
        proof {
            assert(self.bids@.take(n as int) =~= self.bids@);
        }
        out
    }
}

/// The length a bid list is padded to for display: the smallest positive
/// multiple of four holding it.
pub open spec fn padded_len(n: int) -> int {
    if n == 0 {
        4
    } else {
        ((n + 3) / 4) * 4
    }
}

/// An auction laid out for the bidding table: leading empty cells so that
/// North's column comes first whoever dealt, then the bids, then empty cells
/// completing the last row of four.
pub open spec fn pad_spec(bs: Seq<Bid>, dealer: Seat) -> Seq<Option<Bid>> {
    let off = seat_val(dealer);
    Seq::new(off as nat, |i: int| None) + bs.map_values(|b: Bid| Some(b)) + Seq::new(
        (padded_len(off + bs.len()) - off - bs.len()) as nat,
        |i: int| None,
    )
}

/// A horizontal rule of the bidding table.
pub open spec fn sep_line() -> Seq<char> {
    seq![
        '+', '-', '-', '-', '-', '-', '+', '-', '-', '-', '-', '-', '+', '-', '-', '-', '-', '-',
        '+', '-', '-', '-', '-', '-', '+', '\n',
    ]
}

/// The column headings of the bidding table.
pub open spec fn header_line() -> Seq<char> {
    seq![
        '|', ' ', ' ', 'N', ' ', ' ', '|', ' ', ' ', 'E', ' ', ' ', '|', ' ', ' ', 'S', ' ', ' ',
        '|', ' ', ' ', 'W', ' ', ' ', '|', '\n',
    ]
}

/// The text of a cell's bid: empty for an empty cell.
pub open spec fn opt_bid_text(ob: Option<Bid>) -> Seq<char> {
    match ob {
        Some(b) => bid_text(b),
        None => Seq::empty(),
    }
}

/// Text padded with spaces to the four-character column width.
pub open spec fn pad4(t: Seq<char>) -> Seq<char> {
    t + crate::text::spaces(4 - t.len())
}

/// One cell of a table row.
pub open spec fn cell_text(ob: Option<Bid>) -> Seq<char> {
    seq!['|', ' '] + pad4(opt_bid_text(ob))
}

/// One row of four cells, closed off and underlined.
pub open spec fn row_text(q: Seq<Option<Bid>>) -> Seq<char> {
    cell_text(q[0]) + cell_text(q[1]) + cell_text(q[2]) + cell_text(q[3]) + seq!['|', '\n']
        + sep_line()
}

/// The rows of a padded bid list, four cells at a time.
pub open spec fn rows_text(p: Seq<Option<Bid>>) -> Seq<char>
    decreases p.len(),
{
    if p.len() < 4 {
        Seq::empty()
    } else {
        row_text(p.take(4)) + rows_text(p.skip(4))
    }
}

/// The whole bidding table: rule, headings, rule, then the rows.
pub open spec fn table_text(bs: Seq<Bid>, dealer: Seat) -> Seq<char> {
    sep_line() + header_line() + sep_line() + rows_text(pad_spec(bs, dealer))
}

/// Append one table cell: a column edge and the cell's bid, space-padded to
/// the column width.
fn append_cell(out: &mut String, ob: &Option<Bid>)
    ensures
        final(out)@ == old(out)@ + cell_text(*ob),
{
    proof {
        reveal_strlit("| ");
    }
    out.append("| ");
    match ob {
        Some(b) => {
            let t = b.format();
            let l = t.as_str().unicode_len();
            out.append(t.as_str());
            proof {
                crate::calls::lemma_bid_text_len(*b);
            }
            crate::text::append_spaces(out, 4 - l);
        },
        None => {
            crate::text::append_spaces(out, 4);
        },
    }
    proof {
        assert(("| ")@ =~= seq!['|', ' ']);
        assert(out@ =~= old(out)@ + cell_text(*ob));
    }
}

impl BidSequence {
    /// The auction laid out for the bidding table: leading empty cells so
    /// that North's column comes first whoever dealt, then the bids, then
    /// empty cells completing the last row of four.
    pub fn pad_for_table(&self, dealer: Seat) -> (p: Vec<Option<Bid>>)
        ensures
            p@ == pad_spec(self@, dealer),
            p@.len() == padded_len(seat_val(dealer) + self@.len()),
            p@.len() % 4 == 0 && p@.len() > 0,
    {
        let off: usize = dealer.val() as usize;
        let n = self.bids.len();
        let mut padded: Vec<Option<Bid>> = Vec::new();
        for k in 0..off
            invariant
                off <= 3,
                padded@.len() == k,
                forall|j: int| 0 <= j < k ==> padded@[j] is None,
        {
            padded.push(None);
        }
        for i in 0..n
            invariant
                off <= 3,
                n == self.bids@.len(),
                padded@.len() == off + i,
                forall|j: int| 0 <= j < off ==> padded@[j] is None,
                forall|j: int|
                    off <= j < off + i ==> padded@[j] == Some(self.bids@[j - off]),
        {
            padded.push(Some(self.bids[i]));
        }
        let rem: usize = (n % 4 + off) % 4;
        let extra: usize = if n == 0 && off == 0 {
            4
        } else if rem == 0 {
            0
        } else {
            4 - rem
        };
        proof {
            let m: int = off + n;
            assert((n as int % 4 + off) % 4 == m % 4) by (nonlinear_arith)
                requires
                    0 <= off <= 3,
                    0 <= n,
                    m == off + n,
            ;
            assert(m + extra == padded_len(m)) by (nonlinear_arith)
                requires
                    0 <= m,
                    m % 4 == rem as int || m == 0,
                    rem < 4,
                    extra == (if m == 0 {
                        4int
                    } else if rem == 0 {
                        0int
                    } else {
                        4 - rem
                    }),
            ;
        }
        for e in 0..extra
            invariant
                off <= 3,
                n == self.bids@.len(),
                padded@.len() == off + n + e,
                forall|j: int| 0 <= j < off ==> padded@[j] is None,
                forall|j: int|
                    off <= j < off + n ==> padded@[j] == Some(self.bids@[j - off]),
                forall|j: int| off + n <= j < off + n + e ==> padded@[j] is None,
        {
            padded.push(None);
        }
        proof {
            assert(padded@ =~= pad_spec(self@, dealer));
            let m: int = off + n;
            assert(padded_len(m) % 4 == 0 && padded_len(m) > 0) by (nonlinear_arith)
                requires
                    0 <= m,
            ;
        }
        padded
    }

    /// The auction rendered as a table: a row of four columns per round of
    /// calls, under the seats' headings.
    pub fn fmt_table(&self, dealer: Seat) -> (t: String)
        ensures
            t@ == table_text(self@, dealer),
    {
        let padded = self.pad_for_table(dealer);
        let mut out = String::new();
        append_sep_line(&mut out);
        append_header_line(&mut out);
        append_sep_line(&mut out);
        let total = padded.len();
        let ghost p = padded@;
        let mut r: usize = 0;
        proof {
            assert(p.skip(0) =~= p);
        }
        while r < total
            invariant
                total == p.len(),
                padded@ == p,
                total % 4 == 0,
                r <= total,
                r % 4 == 0,
                out@ + rows_text(p.skip(r as int)) == table_text(self@, dealer),
            decreases total - r,
        {
            proof {
                assert(total - r >= 4) by (nonlinear_arith)
                    requires
                        r < total,
                        r % 4 == 0,
                        total % 4 == 0,
                        0 <= r,
                        0 <= total,
                ;
            }
            let ghost out_before = out@;
            append_row(&mut out, &padded, r);
            proof {
                lemma_rows_step(p, r as int);
                let row = row_text(p.subrange(r as int, r + 4));
                let rest = rows_text(p.skip(r + 4));
                assert((out_before + row) + rest =~= out_before + (row + rest));
            }
            r += 4;
        }
        proof {
            assert(p.skip(total as int).len() == 0);
            assert(out@ + rows_text(p.skip(total as int)) =~= out@);
        }
        out
    }
}

/// Splitting the rows at a row boundary: the first row, then the rest.
proof fn lemma_rows_step(p: Seq<Option<Bid>>, r: int)
    requires
        0 <= r,
        r + 4 <= p.len(),
    ensures
        rows_text(p.skip(r)) == row_text(p.subrange(r, r + 4)) + rows_text(p.skip(r + 4)),
{
    assert(p.skip(r).take(4) =~= p.subrange(r, r + 4));
    assert(p.skip(r).skip(4) =~= p.skip(r + 4));
}

/// Append one table row: the four cells at positions `r` to `r + 3`, the
/// closing edge, and the rule underneath.
#[verifier::rlimit(50)]
fn append_row(out: &mut String, padded: &Vec<Option<Bid>>, r: usize)
    requires
        r + 4 <= padded@.len(),
    ensures
        final(out)@ == old(out)@ + row_text(padded@.subrange(r as int, r as int + 4)),
{
    let n = padded.len();
    append_cell(out, &padded[r]);
    append_cell(out, &padded[r + 1]);
    append_cell(out, &padded[r + 2]);
    append_cell(out, &padded[r + 3]);
    proof {
        reveal_strlit("|\n");
    }
    out.append("|\n");
    append_sep_line(out);
    proof {
        assert(("|\n")@ =~= seq!['|', '\n']);
        let q = padded@.subrange(r as int, r as int + 4);
        assert(q[0] == padded@[r as int] && q[1] == padded@[r as int + 1] && q[2] == padded@[
            r as int + 2
        ] && q[3] == padded@[r as int + 3]);
        assert(out@ =~= old(out)@ + row_text(q));
    }
}

/// Append a horizontal rule of the bidding table.
fn append_sep_line(out: &mut String)
    ensures
        final(out)@ == old(out)@ + sep_line(),
{
    proof {
        reveal_strlit("+-----+-----+-----+-----+\n");
    }
    out.append("+-----+-----+-----+-----+\n");
    proof {
        assert(("+-----+-----+-----+-----+\n")@ =~= sep_line());
    }
}

/// Append the column headings of the bidding table.
fn append_header_line(out: &mut String)
    ensures
        final(out)@ == old(out)@ + header_line(),
{
    proof {
        reveal_strlit("|  N  |  E  |  S  |  W  |\n");
    }
    out.append("|  N  |  E  |  S  |  W  |\n");
    proof {
        assert(("|  N  |  E  |  S  |  W  |\n")@ =~= header_line());
    }
}

impl PartialEq for BidSequence {
    /// Two auctions are equal when they hold the same bids in the same
    /// order.
    fn eq(&self, other: &BidSequence) -> (r: bool) {
        if self.bids.len() != other.bids.len() {
            return false;
        }
        let n = self.bids.len();
        for i in 0..n
            invariant
                n == self.bids@.len(),
                n == other.bids@.len(),
                forall|j: int| 0 <= j < i ==> self.bids@[j] == other.bids@[j],
        {
            if self.bids[i] != other.bids[i] {
                return false;
            }
        }
        proof {
            assert(self.bids@ =~= other.bids@);
        }
        true
    }
}

impl vstd::std_specs::cmp::PartialEqSpecImpl for BidSequence {
    open spec fn obeys_eq_spec() -> bool {
        true
    }

    open spec fn eq_spec(&self, other: &BidSequence) -> bool {
        self@ == other@
    }
}

impl Eq for BidSequence {

}

} // verus!

