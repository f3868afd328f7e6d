//! The exercise store: recording bids, growing the follow-up forest, and
//! the scheduling policy.

use bridge_core::calls::Bid;
use bridge_core::errors::{Entity, Error, Rule};
use bridge_core::session::Cred;
use bridge_core::store::{Store, LOOKBACK};
use bridge_core::table::Deal;

const LEARNER: u64 = 7;
const OTHER: u64 = 8;

/// A store holding `n` deals, each under a fresh root exercise.
fn seeded_store(n: usize) -> Store {
    let mut store = Store::new();
    for _ in 0..n {
        let deal_id = store.insert_deal(Deal::random());
        store
            .insert_root_exercise(deal_id)
            .expect("the deal was just stored");
    }
    store
}

#[test]
fn lookups_fail_on_unknown_ids() {
    let store = Store::new();
    assert!(matches!(store.get_deal(0), Err(Error::NotFound(Entity::Deal))));
    assert!(matches!(
        store.get_exercise(0),
        Err(Error::NotFound(Entity::Exercise))
    ));
    assert!(matches!(
        store.get_exercise_bid(0),
        Err(Error::NotFound(Entity::ExerciseBid))
    ));
    assert!(matches!(
        store.get_comment(0),
        Err(Error::NotFound(Entity::Comment))
    ));
    let mut store = Store::new();
    assert!(matches!(
        store.insert_root_exercise(0),
        Err(Error::NotFound(Entity::Deal))
    ));
    assert!(matches!(
        store.add_bid(0, LEARNER, Bid::Pass),
        Err(Error::NotFound(Entity::Exercise))
    ));
}

#[test]
fn add_bid_records_and_spawns_followup() {
    let mut store = seeded_store(1);
    let (bid_id, child) = store
        .add_bid(0, LEARNER, Bid::parse("1NT").unwrap())
        .expect("an opening bid is legal");
    assert_eq!(bid_id, 0);
    let child = child.expect("a non-finishing bid spawns a follow-up");
    let parent = store.get_exercise(0).unwrap();
    assert_eq!(parent.bids.bids().len(), 0);
    let follow = store.get_exercise(child).unwrap();
    assert_eq!(follow.deal_id, parent.deal_id);
    assert_eq!(follow.parent, Some(0));
    assert_eq!(follow.bids.format(), "1NT");
}

#[test]
fn finishing_bid_spawns_no_followup() {
    let mut store = seeded_store(1);
    let mut ex = 0;
    for _ in 0..3 {
        let (_, child) = store.add_bid(ex, LEARNER, Bid::Pass).expect("a pass is legal");
        ex = child.expect("the auction is not finished yet");
    }
    let before = store.exercises.len();
    let (_, child) = store
        .add_bid(ex, LEARNER, Bid::Pass)
        .expect("the fourth pass is still legal");
    assert!(child.is_none(), "a finishing bid must not create a follow-up");
    assert_eq!(store.exercises.len(), before);
}

#[test]
fn illegal_bids_change_nothing() {
    let mut store = seeded_store(1);
    let err = store.add_bid(0, LEARNER, Bid::parse("Rdbl").unwrap()).unwrap_err();
    assert!(matches!(
        err,
        Error::InvalidContinuation { rule: Rule::RedoubleUnavailable, .. }
    ));
    assert_eq!(store.bids.len(), 0);
    assert_eq!(store.exercises.len(), 1);
}

#[test]
fn submit_bid_parses_text() {
    let mut store = seeded_store(1);
    assert!(matches!(
        store.submit_bid(0, LEARNER, "nonsense"),
        Err(Error::Format)
    ));
    assert_eq!(store.bids.len(), 0);
    let (bid_id, child) = store
        .submit_bid(0, LEARNER, "2C")
        .expect("a legal bid as text is recorded");
    assert_eq!(bid_id, 0);
    assert!(child.is_some());
}

#[test]
fn scheduler_prefers_oldest_unbid_exercise() {
    let mut store = seeded_store(3);
    let next = store.next_exercise_for(LEARNER);
    assert_eq!(next, 0, "with no history the oldest exercise comes first");
    store.add_bid(0, LEARNER, Bid::Pass).unwrap();
    let next = store.next_exercise_for(LEARNER);
    assert_eq!(next, 1, "a bid exercise is not offered again");
}

#[test]
fn scheduler_skips_recently_practiced_deals() {
    let mut store = seeded_store(LOOKBACK + 1);
    for ex in 0..LOOKBACK {
        store.add_bid(ex, LEARNER, Bid::Pass).unwrap();
    }
    // The learner's last five bids cover the deals of the first five root
    // exercises and of their follow-ups; only the sixth root is offered.
    let next = store.next_exercise_for(LEARNER);
    assert_eq!(next, LOOKBACK);
}

#[test]
fn scheduler_ignores_other_learners_history() {
    let mut store = seeded_store(2);
    store.add_bid(0, OTHER, Bid::Pass).unwrap();
    let next = store.next_exercise_for(LEARNER);
    assert_eq!(next, 0, "another learner's bids do not hide an exercise");
}

#[test]
fn scheduler_creates_fresh_deal_when_nothing_is_left() {
    let mut store = seeded_store(1);
    store.add_bid(0, LEARNER, Bid::parse("7NT").unwrap()).unwrap();
    store.add_bid(1, LEARNER, Bid::Pass).unwrap();
    store.add_bid(2, LEARNER, Bid::Pass).unwrap();
    // Every stored exercise is either bid by the learner or over a deal
    // they just practiced, so a fresh deal and root exercise appear.
    let deals_before = store.deals.len();
    let exercises_before = store.exercises.len();
    let next = store.next_exercise_for(LEARNER);
    assert_eq!(store.deals.len(), deals_before + 1);
    assert_eq!(store.exercises.len(), exercises_before + 1);
    assert_eq!(next, exercises_before);
    let fresh = store.get_exercise(next).unwrap();
    assert_eq!(fresh.bids.bids().len(), 0);
    assert_eq!(fresh.parent, None);
    assert_eq!(fresh.deal_id, deals_before);
}

#[test]
fn full_practice_scenario() {
    let mut store = Store::new();

    // A fresh store: the first request deals a deck and makes a root.
    let e0 = store.next_exercise_for(LEARNER);
    assert_eq!(store.deals.len(), 1);
    assert_eq!(store.exercises.len(), 1);
    let root = store.get_exercise(e0).unwrap();
    assert_eq!(root.bids.bids().len(), 0);
    assert_eq!(root.parent, None);

    // The learner opens one no-trump; a follow-up appears.
    let (_, child) = store.submit_bid(e0, LEARNER, "1NT").expect("1NT opens legally");
    let e1 = child.expect("the auction goes on after 1NT");
    assert_eq!(store.get_exercise(e1).unwrap().bids.format(), "1NT");

    // Three passes close the auction; the last creates no follow-up.
    let (_, child) = store.submit_bid(e1, LEARNER, "Pass").unwrap();
    let e2 = child.expect("one pass after a bid does not finish");
    let (_, child) = store.submit_bid(e2, LEARNER, "Pass").unwrap();
    let e3 = child.expect("two passes after a bid do not finish");
    let (_, child) = store.submit_bid(e3, LEARNER, "Pass").unwrap();
    assert!(child.is_none(), "the closed auction spawns no exercise");

    let closing = store.get_exercise(e3).unwrap();
    let final_auction = closing
        .bids
        .with_continuation(Bid::Pass)
        .expect("the closing pass was legal");
    assert_eq!(final_auction.format(), "1NT,Pass,Pass,Pass");
    assert!(final_auction.is_finished());
}

#[test]
fn comments_attach_to_exercises() {
    let mut store = seeded_store(1);
    assert!(matches!(
        store.add_comment(9, LEARNER, String::from("lost")),
        Err(Error::NotFound(Entity::Exercise))
    ));
    let id = store
        .add_comment(0, LEARNER, String::from("a textbook weak two"))
        .expect("the exercise exists");
    assert_eq!(id, 0);
    let comments = store.get_comments(0);
    assert_eq!(comments.len(), 1);
    assert_eq!(comments[0].text, "a textbook weak two");
    assert_eq!(comments[0].learner, LEARNER);
    assert!(store.get_comments(5).is_empty());
}

#[test]
fn find_exercise_bids_filters_by_exercise() {
    let mut store = seeded_store(2);
    store.add_bid(0, LEARNER, Bid::Pass).unwrap();
    store.add_bid(1, OTHER, Bid::Pass).unwrap();
    store.add_bid(0, OTHER, Bid::parse("1C").unwrap()).unwrap();
    let on_first = store.find_exercise_bids(0);
    assert_eq!(on_first.len(), 2);
    assert_eq!(on_first[0].learner, LEARNER);
    assert_eq!(on_first[1].learner, OTHER);
    assert_eq!(store.find_exercise_bids(1).len(), 1);
}

#[test]
fn recent_bids_come_newest_first() {
    let mut store = seeded_store(3);
    store.add_bid(0, LEARNER, Bid::Pass).unwrap();
    store.add_bid(1, LEARNER, Bid::Pass).unwrap();
    store.add_bid(2, OTHER, Bid::Pass).unwrap();
    let recent = store.find_exercise_bids_by_learner_ordered_by_recency(LEARNER, 5);
    assert_eq!(recent.len(), 2);
    assert_eq!(recent[0].exercise_id, 1);
    assert_eq!(recent[1].exercise_id, 0);
    let capped = store.find_exercise_bids_by_learner_ordered_by_recency(LEARNER, 1);
    assert_eq!(capped.len(), 1);
    assert_eq!(capped[0].exercise_id, 1);
}

#[test]
fn unbid_exercises_exclude_recent_deals_and_bid_exercises() {
    let mut store = seeded_store(3);
    assert_eq!(store.find_unbid_exercises(LEARNER), vec![0, 1, 2]);
    store.add_bid(1, LEARNER, Bid::Pass).unwrap();
    // Exercise 1 is now bid by the learner, and its follow-up (id 3) sits
    // over deal 1, which the learner just practiced; 0 and 2 remain.
    assert_eq!(store.find_unbid_exercises(LEARNER), vec![0, 2]);
    // Another learner's bid hides nothing from this learner.
    store.add_bid(0, OTHER, Bid::Pass).unwrap();
    assert_eq!(store.find_unbid_exercises(LEARNER), vec![0, 2, 4]);
}

#[test]
fn unbid_exercises_are_reported_in_order() {
    let mut store = seeded_store(3);
    assert_eq!(store.exercises_without_bids(), vec![0, 1, 2]);
    store.add_bid(1, LEARNER, Bid::Pass).unwrap();
    // Exercise 1 now carries a bid, and its follow-up (id 3) is unbid.
    assert_eq!(store.exercises_without_bids(), vec![0, 2, 3]);
}

#[test]
fn session_tokens_are_alphanumeric() {
    let Cred::Token(t) = Cred::new_token();
    assert_eq!(t.len(), 24);
    assert!(t.chars().all(|c| c.is_ascii_alphanumeric()));
    let Cred::Token(u) = Cred::new_token();
    assert_eq!(u.len(), 24);
}

#[test]
fn error_messages_name_the_violated_rule() {
    let mut store = seeded_store(1);
    let err = store.add_bid(0, LEARNER, Bid::parse("Dbl").unwrap()).unwrap_err();
    assert_eq!(
        err.message(),
        "invalid continuation: double not available here"
    );
    let err = store.submit_bid(0, LEARNER, "??").unwrap_err();
    assert_eq!(err.message(), "failed to parse text");
    let err = store.get_deal(3).unwrap_err();
    assert_eq!(err.message(), "deal not found");
}

#[test]
fn session_token_text_is_readable() {
    let cred = Cred::new_token();
    let Cred::Token(ref t) = cred;
    assert_eq!(cred.text(), t);
}
