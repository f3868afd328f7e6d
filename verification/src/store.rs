//! The exercise store: deals, the append-only forest of exercises, the
//! bids learners have made against them, comments, and the scheduling
//! policy that picks the next exercise for a learner.
//!
//! Records are kept in insertion order and identified by their position, so
//! a record's id doubles as its creation rank: a larger id is a more recent
//! record.

use vstd::prelude::*;
use crate::auction::{BidSequence, seq_finished, seq_valid_continuation};
use crate::calls::Bid;
use crate::errors::{Entity, Error};
use crate::table::Deal;

verus! {

/// How many of a learner's most recent exercise bids the scheduler consults
/// to avoid repeating a deal.
pub const LOOKBACK: usize = 5;

/// A practice scenario: a deal and the calls already made, with the
/// exercise it extends, if any. Created once and never changed.
#[derive(Debug)]
pub struct Exercise {
    pub id: usize,
    pub deal_id: usize,
    pub bids: BidSequence,
    pub parent: Option<usize>,
}

impl Clone for Exercise {
    /// An identical copy of the exercise.
    fn clone(&self) -> (r: Exercise)
        ensures
            r.id == self.id,
            r.deal_id == self.deal_id,
            r.bids@ == self.bids@,
            r.parent == self.parent,
    {
        Exercise {
            id: self.id,
            deal_id: self.deal_id,
            bids: self.bids.clone(),
            parent: self.parent,
        }
    }
}

/// One call a learner made against an exercise.
#[derive(Copy, Clone, Debug, PartialEq, Eq, Structural)]
pub struct ExerciseBid {
    pub id: usize,
    pub exercise_id: usize,
    pub learner: u64,
    pub bid: Bid,
}

/// A learner's free-text annotation on an exercise.
#[derive(Debug)]
pub struct Comment {
    pub id: usize,
    pub exercise_id: usize,
    pub learner: u64,
    pub text: String,
}

impl Clone for Comment {
    /// An identical copy of the comment.
    fn clone(&self) -> (r: Comment)
        ensures
            r == *self,
    {
        Comment {
            id: self.id,
            exercise_id: self.exercise_id,
            learner: self.learner,
            text: self.text.clone(),
        }
    }
}

/// The in-memory store behind the practice engine. Ids are positions, so
/// every list is append-only and insertion order is creation order.
pub struct Store {
    pub deals: Vec<Deal>,
    pub exercises: Vec<Exercise>,
    pub bids: Vec<ExerciseBid>,
    pub comments: Vec<Comment>,
}

impl Store {
    /// The exercise at position `i` is sound: it records its own position,
    /// points at a stored deal and, unless it is a root with an empty
    /// auction, extends its parent's auction by exactly one legal call
    /// without finishing it.
    pub open spec fn exercise_wf(&self, i: int) -> bool {
        let e = self.exercises@[i];
        &&& e.id == i
        &&& e.deal_id < self.deals@.len()
        &&& match e.parent {
            Some(p) => {
                &&& 0 <= p < i
                &&& self.exercises@[p as int].deal_id == e.deal_id
                &&& exists|b: Bid|
                    e.bids@ == self.exercises@[p as int].bids@.push(b)
                        && seq_valid_continuation(self.exercises@[p as int].bids@, b)
                &&& !seq_finished(e.bids@)
            },
            None => e.bids@.len() == 0,
        }
    }

    /// The exercise bid at position `i` is sound: it records its own
    /// position and a call that was legal against a stored exercise.
    pub open spec fn bid_wf(&self, i: int) -> bool {
        let b = self.bids@[i];
        &&& b.id == i
        &&& b.exercise_id < self.exercises@.len()
        &&& seq_valid_continuation(self.exercises@[b.exercise_id as int].bids@, b.bid)
    }

    /// The comment at position `i` is sound: it records its own position
    /// and refers to a stored exercise.
    pub open spec fn comment_wf(&self, i: int) -> bool {
        let c = self.comments@[i];
        &&& c.id == i
        &&& c.exercise_id < self.exercises@.len()
    }

    /// A sound store: every deal well formed, and every exercise, bid and
    /// comment sound. The exercises form an append-only forest whose roots
    /// carry empty auctions.
    pub open spec fn wf(&self) -> bool {
        &&& forall|i: int| 0 <= i < self.deals@.len() ==> (#[trigger] self.deals@[i]).wf()
        &&& forall|i: int| 0 <= i < self.exercises@.len() ==> #[trigger] self.exercise_wf(i)
        &&& forall|i: int| 0 <= i < self.bids@.len() ==> #[trigger] self.bid_wf(i)
        &&& forall|i: int| 0 <= i < self.comments@.len() ==> #[trigger] self.comment_wf(i)
    }

    /// A fresh, empty store.
    pub fn new() -> (s: Store)
        ensures
            s.wf(),
            s.deals@.len() == 0,
            s.exercises@.len() == 0,
            s.bids@.len() == 0,
            s.comments@.len() == 0,
    {
        Store { deals: Vec::new(), exercises: Vec::new(), bids: Vec::new(), comments: Vec::new() }
    }

    /// Store a deal; its id is handed back.
    pub fn insert_deal(&mut self, deal: Deal) -> (id: usize)
        requires
            old(self).wf(),
            deal.wf(),
        ensures
            final(self).wf(),
            id == old(self).deals@.len(),
            final(self).deals@ == old(self).deals@.push(deal),
            final(self).exercises@ == old(self).exercises@,
            final(self).bids@ == old(self).bids@,
            final(self).comments@ == old(self).comments@,
    {
        let id = self.deals.len();
        self.deals.push(deal);
        proof {
            lemma_store_records_extend(old(self), self);
        }
        id
    }

    /// The deal with the given id, or a not-found error exactly when no
    /// deal has that id.
    pub fn get_deal(&self, id: usize) -> (r: Result<&Deal, Error>)
        ensures
            match r {
                Ok(d) => id < self.deals@.len() && *d == self.deals@[id as int],
                Err(e) => id >= self.deals@.len() && e matches Error::NotFound(Entity::Deal),
            },
    {
        if id < self.deals.len() {
            Ok(&self.deals[id])
        } else {
            Err(Error::NotFound(Entity::Deal))
        }
    }

    /// The exercise with the given id, or a not-found error exactly when no
    /// exercise has that id.
    pub fn get_exercise(&self, id: usize) -> (r: Result<&Exercise, Error>)
        ensures
            match r {
                Ok(e) => id < self.exercises@.len() && *e == self.exercises@[id as int],
                Err(e) => id >= self.exercises@.len() && e matches Error::NotFound(
                    Entity::Exercise,
                ),
            },
    {
        if id < self.exercises.len() {
            Ok(&self.exercises[id])
        } else {
            Err(Error::NotFound(Entity::Exercise))
        }
    }

    /// The exercise bid with the given id, or a not-found error exactly
    /// when no exercise bid has that id.
    pub fn get_exercise_bid(&self, id: usize) -> (r: Result<&ExerciseBid, Error>)
        ensures
            match r {
                Ok(b) => id < self.bids@.len() && *b == self.bids@[id as int],
                Err(e) => id >= self.bids@.len() && e matches Error::NotFound(
                    Entity::ExerciseBid,
                ),
            },
    {
        if id < self.bids.len() {
            Ok(&self.bids[id])
        } else {
            Err(Error::NotFound(Entity::ExerciseBid))
        }
    }

    /// The comment with the given id, or a not-found error exactly when no
    /// comment has that id.
    pub fn get_comment(&self, id: usize) -> (r: Result<&Comment, Error>)
        ensures
            match r {
                Ok(c) => id < self.comments@.len() && *c == self.comments@[id as int],
                Err(e) => id >= self.comments@.len() && e matches Error::NotFound(
                    Entity::Comment,
                ),
            },
    {
        if id < self.comments.len() {
            Ok(&self.comments[id])
        } else {
            Err(Error::NotFound(Entity::Comment))
        }
    }

    /// Create a root exercise over a stored deal: an empty auction and no
    /// parent. Fails exactly when the deal id is unknown.
    pub fn insert_root_exercise(&mut self, deal_id: usize) -> (r: Result<usize, Error>)
        requires
            old(self).wf(),
        ensures
            final(self).wf(),
            final(self).deals@ == old(self).deals@,
            final(self).bids@ == old(self).bids@,
            final(self).comments@ == old(self).comments@,
            match r {
                Ok(id) => {
                    &&& deal_id < old(self).deals@.len()
                    &&& id == old(self).exercises@.len()
                    &&& final(self).exercises@.len() == old(self).exercises@.len() + 1
                    &&& forall|j: int|
                        0 <= j < old(self).exercises@.len() ==> final(self).exercises@[j] == old(
                            self,
                        ).exercises@[j]
                    &&& final(self).exercises@[id as int].id == id
                    &&& final(self).exercises@[id as int].deal_id == deal_id
                    &&& final(self).exercises@[id as int].bids@.len() == 0
                    &&& final(self).exercises@[id as int].parent is None
                },
                Err(e) => {
                    &&& deal_id >= old(self).deals@.len()
                    &&& e matches Error::NotFound(Entity::Deal)
                    &&& final(self).exercises@ == old(self).exercises@
                },
            },
    {
        if deal_id >= self.deals.len() {
            return Err(Error::NotFound(Entity::Deal));
        }
        let id = self.exercises.len();
        self.exercises.push(
            Exercise { id, deal_id, bids: BidSequence::empty(), parent: None },
        );
        proof {
            lemma_store_records_extend(old(self), self);
            assert(self.exercise_wf(id as int));
        }
        Ok(id)
    }
}

/// What a successful `add_bid` did: the call was legal against a stored
/// exercise, exactly one exercise bid was appended recording it, and
/// exactly one child exercise was appended - extending the exercise's
/// auction by the call - unless that auction is finished.
pub open spec fn add_bid_accepts(
    pre: &Store,
    post: &Store,
    exercise_id: usize,
    learner: u64,
    bid: Bid,
    pair: (usize, Option<usize>),
) -> bool {
    let next = pre.exercises@[exercise_id as int].bids@.push(bid);
    &&& exercise_id < pre.exercises@.len()
    &&& seq_valid_continuation(pre.exercises@[exercise_id as int].bids@, bid)
    &&& pair.0 == pre.bids@.len()
    &&& post.bids@.len() == pre.bids@.len() + 1
    &&& forall|j: int| 0 <= j < pre.bids@.len() ==> post.bids@[j] == pre.bids@[j]
    &&& post.bids@.last() == (ExerciseBid { id: pair.0, exercise_id, learner, bid })
    &&& if seq_finished(next) {
        pair.1 is None && post.exercises@ == pre.exercises@
    } else {
        &&& pair.1 matches Some(c) && c == pre.exercises@.len()
        &&& post.exercises@.len() == pre.exercises@.len() + 1
        &&& forall|j: int| 0 <= j < pre.exercises@.len() ==> post.exercises@[j] == pre.exercises@[j]
        &&& post.exercises@.last().id == pre.exercises@.len()
        &&& post.exercises@.last().deal_id == pre.exercises@[exercise_id as int].deal_id
        &&& post.exercises@.last().bids@ == next
        &&& post.exercises@.last().parent == Some(exercise_id)
    }
}

/// What a failed `add_bid` did: nothing; and it failed either because the
/// exercise id is unknown, or because the call is illegal against that
/// exercise's auction, in which case the error carries the call, the
/// auction and the violated rule.
pub open spec fn add_bid_rejects(
    pre: &Store,
    post: &Store,
    exercise_id: usize,
    bid: Bid,
    e: Error,
) -> bool {
    &&& post.bids@ == pre.bids@
    &&& post.exercises@ == pre.exercises@
    &&& if exercise_id >= pre.exercises@.len() {
        e matches Error::NotFound(Entity::Exercise)
    } else {
        &&& !seq_valid_continuation(pre.exercises@[exercise_id as int].bids@, bid)
        &&& e matches Error::InvalidContinuation { bid: eb, bids, rule } && eb == bid && bids@
            == pre.exercises@[exercise_id as int].bids@ && rule == crate::auction::refusal_rule(
            pre.exercises@[exercise_id as int].bids@,
            bid,
        )
    }
}

impl Store {
    /// Record a learner's call against an exercise and, when the extended
    /// auction is not finished, create the follow-up exercise.
    ///
    /// On success the pair holds the new exercise bid's id and, exactly
    /// when the auction goes on, the one new child exercise, whose auction
    /// is the parent's with the call appended. A finishing call never
    /// creates a follow-up. Fails exactly when the exercise id is unknown
    /// or the call is not a legal continuation; a failure changes nothing.
    pub fn add_bid(&mut self, exercise_id: usize, learner: u64, bid: Bid) -> (r: Result<
        (usize, Option<usize>),
        Error,
    >)
        requires
            old(self).wf(),
        ensures
            final(self).wf(),
            final(self).deals@ == old(self).deals@,
            final(self).comments@ == old(self).comments@,
            match r {
                Ok(pair) => add_bid_accepts(old(self), final(self), exercise_id, learner, bid, pair),
                Err(e) => add_bid_rejects(old(self), final(self), exercise_id, bid, e),
            },
    {
        if exercise_id >= self.exercises.len() {
            return Err(Error::NotFound(Entity::Exercise));
        }
        let next = match self.exercises[exercise_id].bids.with_continuation(bid) {
            Ok(next) => next,
            Err(e) => {
                return Err(e);
            },
        };
        let bid_id = self.bids.len();
        self.bids.push(ExerciseBid { id: bid_id, exercise_id, learner, bid });
        let ghost mid = *self;
        proof {
            lemma_store_records_extend(old(self), self);
            assert(self.bid_wf(bid_id as int));
            assert(self.wf());
        }
        if next.is_finished() {
            Ok((bid_id, None))
        } else {
            let child_id = self.exercises.len();
            let deal_id = self.exercises[exercise_id].deal_id;
            self.exercises.push(
                Exercise { id: child_id, deal_id, bids: next, parent: Some(exercise_id) },
            );
            proof {
                lemma_store_records_extend(&mid, self);
                assert(self.exercises@[child_id as int].bids@ == self.exercises@[
                    exercise_id as int
                ].bids@.push(bid) && seq_valid_continuation(
                    self.exercises@[exercise_id as int].bids@,
                    bid,
                ));
                assert(!seq_finished(self.exercises@[child_id as int].bids@));
                assert(mid.exercise_wf(exercise_id as int));
                let e = self.exercises@[child_id as int];
                assert(e.id == child_id);
                assert(e.deal_id < self.deals@.len());
                assert(e.parent matches Some(p) && 0 <= p < child_id);
                assert(exists|b: Bid|
                    e.bids@ == self.exercises@[exercise_id as int].bids@.push(b)
                        && seq_valid_continuation(
                        self.exercises@[exercise_id as int].bids@,
                        b,
                    ));
                assert(self.exercise_wf(child_id as int));
                assert forall|i: int| 0 <= i < self.bids@.len() implies #[trigger] self.bid_wf(
                    i,
                ) by {
                    assert(mid.bid_wf(i));
                }
                assert(self.wf());
            }
            Ok((bid_id, Some(child_id)))
        }
    }
}

/// A learner's most recent exercise bids, newest first, at most `want` of
/// them.
pub open spec fn recent_bids(bids: Seq<ExerciseBid>, learner: u64, want: nat) -> Seq<ExerciseBid>
    decreases bids.len(),
{
    if bids.len() == 0 || want == 0 {
        Seq::empty()
    } else if bids.last().learner == learner {
        seq![bids.last()] + recent_bids(bids.drop_last(), learner, (want - 1) as nat)
    } else {
        recent_bids(bids.drop_last(), learner, want)
    }
}

/// The distinct deals behind the exercises of a learner's last `LOOKBACK`
/// exercise bids: the deals the scheduler will not repeat.
pub open spec fn recent_deals(s: &Store, learner: u64) -> Set<int> {
    recent_bids(s.bids@, learner, LOOKBACK as nat).map_values(
        |b: ExerciseBid| s.exercises@[b.exercise_id as int].deal_id as int,
    ).to_set()
}

/// Whether the learner has recorded any bid against exercise `ex`.
pub open spec fn learner_has_bid(s: &Store, learner: u64, ex: int) -> bool {
    exists|k: int|
        0 <= k < s.bids@.len() && (#[trigger] s.bids@[k]).learner == learner
            && s.bids@[k].exercise_id == ex
}

/// Whether exercise `i` may be scheduled for the learner: stored, over a
/// deal the learner has not practiced recently, and not yet bid by them.
pub open spec fn unbid_candidate(s: &Store, learner: u64, i: int) -> bool {
    &&& 0 <= i < s.exercises@.len()
    &&& !recent_deals(s, learner).contains(s.exercises@[i].deal_id as int)
    &&& !learner_has_bid(s, learner, i)
}

/// Every recent bid is one of the store's bids of that learner, and there
/// are at most `want` of them.
proof fn lemma_recent_bids_members(bids: Seq<ExerciseBid>, learner: u64, want: nat)
    ensures
        recent_bids(bids, learner, want).len() <= want,
        forall|k: int|
            0 <= k < recent_bids(bids, learner, want).len() ==> bids.contains(
                #[trigger] recent_bids(bids, learner, want)[k],
            ) && recent_bids(bids, learner, want)[k].learner == learner,
    decreases bids.len(),
{
    if bids.len() == 0 || want == 0 {
    } else {
        let init = bids.drop_last();
        if bids.last().learner == learner {
            lemma_recent_bids_members(init, learner, (want - 1) as nat);
            assert forall|k: int|
                0 <= k < recent_bids(bids, learner, want).len() implies bids.contains(
                #[trigger] recent_bids(bids, learner, want)[k],
            ) && recent_bids(bids, learner, want)[k].learner == learner by {
                if k == 0 {
                    assert(bids[bids.len() - 1] == recent_bids(bids, learner, want)[0]);
                } else {
                    let x = recent_bids(init, learner, (want - 1) as nat)[k - 1];
                    assert(init.contains(x));
                    let j = choose|j: int| 0 <= j < init.len() && init[j] == x;
                    assert(bids[j] == x);
                }
            }
        } else {
            lemma_recent_bids_members(init, learner, want);
            assert forall|k: int|
                0 <= k < recent_bids(bids, learner, want).len() implies bids.contains(
                #[trigger] recent_bids(bids, learner, want)[k],
            ) && recent_bids(bids, learner, want)[k].learner == learner by {
                let x = recent_bids(init, learner, want)[k];
                assert(init.contains(x));
                let j = choose|j: int| 0 <= j < init.len() && init[j] == x;
                assert(bids[j] == x);
            }
        }
    }
}

/// In a sound store, every recently practiced deal is a stored deal.
proof fn lemma_recent_deals_bounded(s: &Store, learner: u64)
    requires
        s.wf(),
    ensures
        forall|d: int| recent_deals(s, learner).contains(d) ==> 0 <= d < s.deals@.len(),
{
    let rb = recent_bids(s.bids@, learner, LOOKBACK as nat);
    let mapped = rb.map_values(|b: ExerciseBid| s.exercises@[b.exercise_id as int].deal_id as int);
    lemma_recent_bids_members(s.bids@, learner, LOOKBACK as nat);
    assert forall|d: int| recent_deals(s, learner).contains(d) implies 0 <= d < s.deals@.len() by {
        assert(mapped.contains(d));
        let k = choose|k: int| 0 <= k < mapped.len() && mapped[k] == d;
        let b = rb[k];
        assert(s.bids@.contains(b));
        let j = choose|j: int| 0 <= j < s.bids@.len() && s.bids@[j] == b;
        assert(s.bid_wf(j));
        assert(s.exercise_wf(b.exercise_id as int));
    }
}

impl Store {
    /// The learner's most recent exercise bids, newest first, at most
    /// `limit` of them.
    pub fn find_exercise_bids_by_learner_ordered_by_recency(
        &self,
        learner: u64,
        limit: usize,
    ) -> (out: Vec<ExerciseBid>)
        ensures
            out@ == recent_bids(self.bids@, learner, limit as nat),
    {
        let ghost target = recent_bids(self.bids@, learner, limit as nat);
        let mut out: Vec<ExerciseBid> = Vec::new();
        let mut i = self.bids.len();
        proof {
            assert(self.bids@.take(i as int) =~= self.bids@);
        }
        while i > 0 && out.len() < limit
            invariant
                i <= self.bids@.len(),
                out@.len() <= limit,
                target == recent_bids(self.bids@, learner, limit as nat),
                target == out@ + recent_bids(
                    self.bids@.take(i as int),
                    learner,
                    (limit - out@.len()) as nat,
                ),
            decreases i,
        {
            let b = self.bids[i - 1];
            proof {
                assert(self.bids@.take(i as int).drop_last() =~= self.bids@.take(i - 1));
                assert(self.bids@.take(i as int).last() == self.bids@[i - 1]);
            }
            if b.learner == learner {
                out.push(b);
                proof {
                    assert(out@.drop_last() + (seq![b] + recent_bids(
                        self.bids@.take(i - 1),
                        learner,
                        (limit - out@.len()) as nat,
                    )) =~= out@ + recent_bids(
                        self.bids@.take(i - 1),
                        learner,
                        (limit - out@.len()) as nat,
                    ));
                }
            }
            i -= 1;
        }
        proof {
            if out@.len() == limit {
                assert(recent_bids(self.bids@.take(i as int), learner, 0) =~= Seq::<
                    ExerciseBid,
                >::empty());
            } else {
                assert(i == 0);
                assert(self.bids@.take(0) =~= Seq::<ExerciseBid>::empty());
            }
            assert(out@ + Seq::<ExerciseBid>::empty() =~= out@);
        }
        out
    }

    /// The ids of the deals behind the learner's recently bid exercises:
    /// a list whose members are exactly the recently practiced deals.
    fn recent_deal_ids(&self, learner: u64) -> (out: Vec<usize>)
        requires
            self.wf(),
        ensures
            forall|d: usize|
                #[trigger] out@.contains(d) <==> recent_deals(self, learner).contains(d as int),
    {
        let rb = self.find_exercise_bids_by_learner_ordered_by_recency(learner, LOOKBACK);
        let ghost rbs = recent_bids(self.bids@, learner, LOOKBACK as nat);
        let ghost mapped = rbs.map_values(
            |b: ExerciseBid| self.exercises@[b.exercise_id as int].deal_id as int,
        );
        proof {
            lemma_recent_bids_members(self.bids@, learner, LOOKBACK as nat);
        }
        let mut out: Vec<usize> = Vec::new();
        let n = rb.len();
        for k in 0..n
            invariant
                n == rbs.len(),
                rb@ == rbs,
                self.wf(),
                mapped == rbs.map_values(
                    |b: ExerciseBid| self.exercises@[b.exercise_id as int].deal_id as int,
                ),
                forall|j: int|
                    0 <= j < rbs.len() ==> self.bids@.contains(#[trigger] rbs[j]),
                out@.len() == k,
                forall|j: int| 0 <= j < k ==> out@[j] as int == mapped[j],
        {
            let ex_id = rb[k].exercise_id;
            proof {
                let b = rbs[k as int];
                assert(self.bids@.contains(b));
                let j = choose|j: int| 0 <= j < self.bids@.len() && self.bids@[j] == b;
                assert(self.bid_wf(j));
            }
            let did = self.exercises[ex_id].deal_id;
            out.push(did);
        }
        proof {
            assert forall|d: usize| #[trigger]
                out@.contains(d) <==> recent_deals(self, learner).contains(d as int) by {
                if out@.contains(d) {
                    let j = choose|j: int| 0 <= j < out@.len() && out@[j] == d;
                    assert(mapped[j] == d as int);
                    assert(mapped.contains(d as int));
                }
                if recent_deals(self, learner).contains(d as int) {
                    assert(mapped.contains(d as int));
                    let j = choose|j: int| 0 <= j < mapped.len() && mapped[j] == d as int;
                    assert(out@[j] == d);
                    assert(out@.contains(d));
                }
            }
        }
        out
    }

    /// Whether the learner has recorded any bid against the exercise.
    fn has_bid(&self, learner: u64, ex: usize) -> (r: bool)
        ensures
            r == learner_has_bid(self, learner, ex as int),
    {
        let n = self.bids.len();
        for k in 0..n
            invariant
                n == self.bids@.len(),
                forall|j: int|
                    0 <= j < k ==> !((#[trigger] self.bids@[j]).learner == learner
                        && self.bids@[j].exercise_id == ex),
        {
            if self.bids[k].learner == learner && self.bids[k].exercise_id == ex {
                return true;
            }
        }
        false
    }

    /// The exercises the learner may be scheduled, in ascending id order:
    /// exactly those over a deal outside the learner's recent practice on
    /// which the learner has not yet bid.
    pub fn find_unbid_exercises(&self, learner: u64) -> (out: Vec<usize>)
        requires
            self.wf(),
        ensures
            forall|k: int|
                0 <= k < out@.len() ==> unbid_candidate(self, learner, (#[trigger] out@[k]) as int),
            forall|i: usize| unbid_candidate(self, learner, i as int) ==> out@.contains(i),
            forall|k1: int, k2: int| 0 <= k1 < k2 < out@.len() ==> out@[k1] < out@[k2],
    {
        let rds = self.recent_deal_ids(learner);
        let mut out: Vec<usize> = Vec::new();
        let n = self.exercises.len();
        for i in 0..n
            invariant
                self.wf(),
                n == self.exercises@.len(),
                forall|d: usize|
                    #[trigger] rds@.contains(d) <==> recent_deals(self, learner).contains(
                        d as int,
                    ),
                forall|k: int|
                    0 <= k < out@.len() ==> (#[trigger] out@[k]) < i && unbid_candidate(
                        self,
                        learner,
                        out@[k] as int,
                    ),
                forall|j: usize| j < i && unbid_candidate(self, learner, j as int)
                    ==> out@.contains(j),
                forall|k1: int, k2: int| 0 <= k1 < k2 < out@.len() ==> out@[k1] < out@[k2],
        {
            let did = self.exercises[i].deal_id;
            if !contains_id(&rds, did) && !self.has_bid(learner, i) {
                let ghost pre = out@;
                out.push(i);
                proof {
                    assert forall|j: usize|
                        j < i + 1 && unbid_candidate(self, learner, j as int) implies out@.contains(
                        j,
                    ) by {
                        if j < i {
                            assert(pre.contains(j));
                            let k = choose|k: int| 0 <= k < pre.len() && pre[k] == j;
                            assert(out@[k] == j);
                        } else {
                            assert(out@.last() == j);
                        }
                    }
                }
            }
        }
        proof {
            assert forall|i: usize|
                unbid_candidate(self, learner, i as int) implies out@.contains(i) by {
                assert((i as int) < n);
            }
        }
        out
    }

    /// The lowest-id exercise that may be scheduled for the learner, if one
    /// exists: the head of the unbid-exercise list.
    fn first_candidate(&self, learner: u64) -> (r: Option<usize>)
        requires
            self.wf(),
        ensures
            match r {
                Some(i) => unbid_candidate(self, learner, i as int) && forall|j: int|
                    0 <= j < i ==> !unbid_candidate(self, learner, j),
                None => forall|j: int| !unbid_candidate(self, learner, j),
            },
    {
        let n = self.exercises.len();
        let unbid = self.find_unbid_exercises(learner);
        if unbid.len() == 0 {
            proof {
                assert forall|j: int| !unbid_candidate(self, learner, j) by {
                    if unbid_candidate(self, learner, j) {
                        assert(0 <= j < n);
                        assert(unbid@.contains(j as usize));
                    }
                }
            }
            None
        } else {
            let first = unbid[0];
            proof {
                assert forall|j: int| 0 <= j < first implies !unbid_candidate(
                    self,
                    learner,
                    j,
                ) by {
                    if unbid_candidate(self, learner, j) {
                        assert(0 <= j < n);
                        assert(unbid@.contains(j as usize));
                        let k = choose|k: int| 0 <= k < unbid@.len() && unbid@[k] == j as usize;
                        if k > 0 {
                            assert(unbid@[0] < unbid@[k]);
                        }
                    }
                }
            }
            Some(first)
        }
    }
}

/// The exercise bids recorded against one exercise, in order.
pub open spec fn bids_of_exercise(bids: Seq<ExerciseBid>, ex: int) -> Seq<ExerciseBid>
    decreases bids.len(),
{
    if bids.len() == 0 {
        Seq::empty()
    } else {
        let init = bids_of_exercise(bids.drop_last(), ex);
        if bids.last().exercise_id == ex {
            init.push(bids.last())
        } else {
            init
        }
    }
}

/// The comments recorded against one exercise, in order.
pub open spec fn comments_of_exercise(cs: Seq<Comment>, ex: int) -> Seq<Comment>
    decreases cs.len(),
{
    if cs.len() == 0 {
        Seq::empty()
    } else {
        let init = comments_of_exercise(cs.drop_last(), ex);
        if cs.last().exercise_id == ex {
            init.push(cs.last())
        } else {
            init
        }
    }
}

impl Store {
    /// The exercise the learner practices next. An existing exercise the
    /// learner has not bid, over a deal outside their recent practice, is
    /// preferred, oldest first; with none left, a fresh deal is dealt and a
    /// fresh root exercise over it created. Either way the returned
    /// exercise's deal is not among the learner's recently practiced deals.
    pub fn next_exercise_for(&mut self, learner: u64) -> (r: usize)
        requires
            old(self).wf(),
        ensures
            final(self).wf(),
            final(self).bids@ == old(self).bids@,
            final(self).comments@ == old(self).comments@,
            r < final(self).exercises@.len(),
            !recent_deals(old(self), learner).contains(
                final(self).exercises@[r as int].deal_id as int,
            ),
            if exists|i: int| unbid_candidate(old(self), learner, i) {
                &&& final(self).deals@ == old(self).deals@
                &&& final(self).exercises@ == old(self).exercises@
                &&& unbid_candidate(old(self), learner, r as int)
                &&& forall|j: int| 0 <= j < r ==> !unbid_candidate(old(self), learner, j)
            } else {
                &&& final(self).deals@.len() == old(self).deals@.len() + 1
                &&& forall|j: int|
                    0 <= j < old(self).deals@.len() ==> final(self).deals@[j] == old(
                        self,
                    ).deals@[j]
                &&& final(self).deals@.last().wf()
                &&& final(self).deals@.last().dealer == crate::table::Seat::North
                &&& final(self).deals@.last().vulnerable
                    == crate::table::Vulnerability::Neither
                &&& r == old(self).exercises@.len()
                &&& final(self).exercises@.len() == old(self).exercises@.len() + 1
                &&& forall|j: int|
                    0 <= j < old(self).exercises@.len() ==> final(self).exercises@[j] == old(
                        self,
                    ).exercises@[j]
                &&& final(self).exercises@.last().deal_id == old(self).deals@.len()
                &&& final(self).exercises@.last().bids@.len() == 0
                &&& final(self).exercises@.last().parent is None
            },
    {
        match self.first_candidate(learner) {
            Some(i) => {
                proof {
                    assert(unbid_candidate(self, learner, i as int));
                }
                i
            },
            None => {
                proof {
                    lemma_recent_deals_bounded(self, learner);
                }
                let deal = Deal::random();
                let did = self.insert_deal(deal);
                match self.insert_root_exercise(did) {
                    Ok(id) => id,
                    Err(_) => {
                        proof {
                            assert(false);
                        }
                        0
                    },
                }
            },
        }
    }

    /// Record the bid a learner wrote as text against an exercise: the text
    /// must be a bid, which is then recorded as `add_bid` records it,
    /// creating the follow-up exercise when the auction goes on. Text that
    /// is not a bid is a format error and changes nothing.
    pub fn submit_bid(&mut self, exercise_id: usize, learner: u64, bid_text: &str) -> (r: Result<
        (usize, Option<usize>),
        Error,
    >)
        requires
            old(self).wf(),
        ensures
            final(self).wf(),
            final(self).deals@ == old(self).deals@,
            final(self).comments@ == old(self).comments@,
            match r {
                Ok(pair) => {
                    &&& crate::calls::bid_of_text(bid_text@) is Some
                    &&& add_bid_accepts(
                        old(self),
                        final(self),
                        exercise_id,
                        learner,
                        crate::calls::bid_of_text(bid_text@)->Some_0,
                        pair,
                    )
                },
                Err(e) => {
                    &&& final(self).bids@ == old(self).bids@
                    &&& final(self).exercises@ == old(self).exercises@
                    &&& match crate::calls::bid_of_text(bid_text@) {
                        None => e is Format,
                        Some(bid) => add_bid_rejects(old(self), final(self), exercise_id, bid, e),
                    }
                },
            },
    {
        let bid = match Bid::parse(bid_text) {
            Ok(bid) => bid,
            Err(e) => {
                return Err(e);
            },
        };
        self.add_bid(exercise_id, learner, bid)
    }

    /// The exercise bids recorded against one exercise, in order.
    pub fn find_exercise_bids(&self, exercise_id: usize) -> (out: Vec<ExerciseBid>)
        ensures
            out@ == bids_of_exercise(self.bids@, exercise_id as int),
    {
        let mut out: Vec<ExerciseBid> = Vec::new();
        let n = self.bids.len();
        for k in 0..n
            invariant
                n == self.bids@.len(),
                out@ == bids_of_exercise(self.bids@.take(k as int), exercise_id as int),
        {
            proof {
                assert(self.bids@.take(k + 1).drop_last() =~= self.bids@.take(k as int));
                assert(self.bids@.take(k + 1).last() == self.bids@[k as int]);
            }
            if self.bids[k].exercise_id == exercise_id {
                out.push(self.bids[k]);
            }
        }
        proof {
            assert(self.bids@.take(n as int) =~= self.bids@);
        }
        out
    }

    /// Annotate an exercise with free text. Fails exactly when the
    /// exercise id is unknown; a failure changes nothing.
    pub fn add_comment(&mut self, exercise_id: usize, learner: u64, text: String) -> (r: Result<
        usize,
        Error,
    >)
        requires
            old(self).wf(),
        ensures
            final(self).wf(),
            final(self).deals@ == old(self).deals@,
            final(self).exercises@ == old(self).exercises@,
            final(self).bids@ == old(self).bids@,
            match r {
                Ok(id) => {
                    &&& exercise_id < old(self).exercises@.len()
                    &&& id == old(self).comments@.len()
                    &&& final(self).comments@.len() == old(self).comments@.len() + 1
                    &&& forall|j: int|
                        0 <= j < old(self).comments@.len() ==> final(self).comments@[j] == old(
                            self,
                        ).comments@[j]
                    &&& final(self).comments@.last().id == id
                    &&& final(self).comments@.last().exercise_id == exercise_id
                    &&& final(self).comments@.last().learner == learner
                    &&& final(self).comments@.last().text@ == text@
                },
                Err(e) => {
                    &&& exercise_id >= old(self).exercises@.len()
                    &&& e matches Error::NotFound(Entity::Exercise)
                    &&& final(self).comments@ == old(self).comments@
                },
            },
    {
        if exercise_id >= self.exercises.len() {
            return Err(Error::NotFound(Entity::Exercise));
        }
        let id = self.comments.len();
        self.comments.push(Comment { id, exercise_id, learner, text });
        proof {
            lemma_store_records_extend(old(self), self);
            assert(self.comment_wf(id as int));
        }
        Ok(id)
    }

    /// The comments recorded against one exercise, in order.
    pub fn get_comments(&self, exercise_id: usize) -> (out: Vec<Comment>)
        ensures
            out@ == comments_of_exercise(self.comments@, exercise_id as int),
    {
        let mut out: Vec<Comment> = Vec::new();
        let n = self.comments.len();
        for k in 0..n
            invariant
                n == self.comments@.len(),
                out@ == comments_of_exercise(self.comments@.take(k as int), exercise_id as int),
        {
            proof {
                assert(self.comments@.take(k + 1).drop_last() =~= self.comments@.take(k as int));
                assert(self.comments@.take(k + 1).last() == self.comments@[k as int]);
            }
            if self.comments[k].exercise_id == exercise_id {
                let c = self.comments[k].clone();
                proof {
                    assert(c == self.comments@[k as int]);
                }
                out.push(c);
            }
        }
        proof {
            assert(self.comments@.take(n as int) =~= self.comments@);
        }
        out
    }
}

/// Whether any learner at all has bid against exercise `ex`.
pub open spec fn exercise_has_bids(bids: Seq<ExerciseBid>, ex: int) -> bool {
    exists|k: int| 0 <= k < bids.len() && (#[trigger] bids[k]).exercise_id == ex
}

impl Store {
    /// The ids of the exercises that no learner has bid at all, in
    /// ascending order: the positions nobody has practiced yet.
    pub fn exercises_without_bids(&self) -> (out: Vec<usize>)
        ensures
            forall|k: int|
                0 <= k < out@.len() ==> (#[trigger] out@[k]) < self.exercises@.len()
                    && !exercise_has_bids(self.bids@, out@[k] as int),
            forall|i: usize|
                i < self.exercises@.len() && !exercise_has_bids(self.bids@, i as int)
                    ==> out@.contains(i),
            forall|k1: int, k2: int| 0 <= k1 < k2 < out@.len() ==> out@[k1] < out@[k2],
    {
        let mut out: Vec<usize> = Vec::new();
        let n = self.exercises.len();
        for i in 0..n
            invariant
                n == self.exercises@.len(),
                forall|k: int|
                    0 <= k < out@.len() ==> (#[trigger] out@[k]) < i && !exercise_has_bids(
                        self.bids@,
                        out@[k] as int,
                    ),
                forall|j: usize|
                    j < i && !exercise_has_bids(self.bids@, j as int) ==> out@.contains(j),
                forall|k1: int, k2: int| 0 <= k1 < k2 < out@.len() ==> out@[k1] < out@[k2],
        {
            if !self.any_bid_on(i) {
                let ghost pre = out@;
                out.push(i);
                proof {
                    assert forall|j: usize|
                        j < i + 1 && !exercise_has_bids(self.bids@, j as int) implies out@.contains(
                        j,
                    ) by {
                        if j < i {
                            assert(pre.contains(j));
                            let k = choose|k: int| 0 <= k < pre.len() && pre[k] == j;
                            assert(out@[k] == j);
                        } else {
                            assert(out@.last() == j);
                        }
                    }
                }
            }
        }
        out
    }

    /// Whether any learner has bid against the exercise.
    fn any_bid_on(&self, ex: usize) -> (r: bool)
        ensures
            r == exercise_has_bids(self.bids@, ex as int),
    {
        let n = self.bids.len();
        for k in 0..n
            invariant
                n == self.bids@.len(),
                forall|j: int| 0 <= j < k ==> (#[trigger] self.bids@[j]).exercise_id != ex,
        {
            if self.bids[k].exercise_id == ex {
                return true;
            }
        }
        false
    }
}

/// Whether a list of ids holds the given id.
fn contains_id(ids: &Vec<usize>, x: usize) -> (r: bool)
    ensures
        r == ids@.contains(x),
{
    let n = ids.len();
    for k in 0..n
        invariant
            n == ids@.len(),
            forall|j: int| 0 <= j < k ==> ids@[j] != x,
    {
        if ids[k] == x {
            return true;
        }
    }
    false
}

/// Soundness of existing records is kept when a store only appends: every
/// record's soundness speaks of records at or below its own position, and
/// those are unchanged.
proof fn lemma_store_records_extend(s: &Store, t: &Store)
    requires
        s.wf(),
        s.deals@.len() <= t.deals@.len(),
        forall|j: int| 0 <= j < s.deals@.len() ==> t.deals@[j] == s.deals@[j],
        s.exercises@.len() <= t.exercises@.len(),
        forall|j: int| 0 <= j < s.exercises@.len() ==> t.exercises@[j] == s.exercises@[j],
        s.bids@.len() <= t.bids@.len(),
        forall|j: int| 0 <= j < s.bids@.len() ==> t.bids@[j] == s.bids@[j],
        s.comments@.len() <= t.comments@.len(),
        forall|j: int| 0 <= j < s.comments@.len() ==> t.comments@[j] == s.comments@[j],
    ensures
        forall|i: int| 0 <= i < s.exercises@.len() ==> #[trigger] t.exercise_wf(i),
        forall|i: int| 0 <= i < s.bids@.len() ==> #[trigger] t.bid_wf(i),
        forall|i: int| 0 <= i < s.comments@.len() ==> #[trigger] t.comment_wf(i),
{
    assert forall|i: int| 0 <= i < s.exercises@.len() implies #[trigger] t.exercise_wf(i) by {
        assert(s.exercise_wf(i));
        let e = s.exercises@[i];
        match e.parent {
            Some(p) => {
                let b = choose|b: Bid|
                    e.bids@ == s.exercises@[p as int].bids@.push(b) && seq_valid_continuation(
                        s.exercises@[p as int].bids@,
                        b,
                    );
                assert(t.exercises@[i].bids@ == t.exercises@[p as int].bids@.push(b)
                    && seq_valid_continuation(t.exercises@[p as int].bids@, b));
            },
            None => {},
        }
    }
    assert forall|i: int| 0 <= i < s.bids@.len() implies #[trigger] t.bid_wf(i) by {
        assert(s.bid_wf(i));
    }
    assert forall|i: int| 0 <= i < s.comments@.len() implies #[trigger] t.comment_wf(i) by {
        assert(s.comment_wf(i));
    }
}

} // verus!
