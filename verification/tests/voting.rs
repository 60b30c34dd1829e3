use upvote_engine::voting::{Engine, Error, Event};

const UPVOTE_PRICE: u64 = 10;
const MAX_UPVOTES: u64 = 100;
const CLOSER: u64 = 0;
const W1: u64 = 1;
const W2: u64 = 2;

fn fresh_engine() -> Engine {
    Engine::new(UPVOTE_PRICE, MAX_UPVOTES, CLOSER)
}

#[test]
fn fund_wallet_creates_wallet_with_amount() {
    let mut e = fresh_engine();
    assert_eq!(e.wallet_balance(W1), None);
    assert_eq!(e.fund_wallet(W1, 100), Ok(()));
    assert_eq!(e.wallet_balance(W1), Some(100));
    assert_eq!(e.event_count(), 1);
    assert_eq!(e.event_at(0), Event::WalletCreated(W1, 100));
}

#[test]
fn fund_wallet_twice_fails_and_keeps_first_amount() {
    let mut e = fresh_engine();
    assert_eq!(e.fund_wallet(W1, 100), Ok(()));
    assert_eq!(e.fund_wallet(W1, 999), Err(Error::WalletAlreadyExists));
    assert_eq!(e.wallet_balance(W1), Some(100));
    assert_eq!(e.event_count(), 1);
}

#[test]
fn fund_wallet_distinct_accounts_are_independent() {
    let mut e = fresh_engine();
    assert_eq!(e.fund_wallet(W1, 100), Ok(()));
    assert_eq!(e.fund_wallet(W2, 50), Ok(()));
    assert_eq!(e.wallet_balance(W1), Some(100));
    assert_eq!(e.wallet_balance(W2), Some(50));
}

#[test]
fn create_proposal_opens_round() {
    let mut e = fresh_engine();
    assert_eq!(e.current_round(), None);
    assert_eq!(e.create_proposal(W1, 7), Ok(()));
    assert_eq!(e.current_round(), Some(7));
    let p = e.proposal(7).unwrap();
    assert_eq!(p.proposer, W1);
    assert_eq!(p.upvotes, 0);
    assert_eq!(e.event_at(0), Event::ProposalCreated(W1, 7));
}

#[test]
fn create_proposal_fails_while_round_active() {
    let mut e = fresh_engine();
    assert_eq!(e.create_proposal(W1, 7), Ok(()));
    assert_eq!(e.create_proposal(W2, 8), Err(Error::ProposalSubmissionRejected));
    assert_eq!(e.create_proposal(W2, 7), Err(Error::ProposalSubmissionRejected));
    assert_eq!(e.current_round(), Some(7));
    assert_eq!(e.proposal(8), None);
}

#[test]
fn upvote_fails_with_no_active_round() {
    let mut e = fresh_engine();
    assert_eq!(e.upvote_proposal(W2, 7, 30), Err(Error::NoActiveRound));
    assert_eq!(e.event_count(), 0);
}

#[test]
fn upvote_unknown_proposal_fails() {
    let mut e = fresh_engine();
    assert_eq!(e.create_proposal(W1, 7), Ok(()));
    assert_eq!(e.upvote_proposal(W2, 8, 30), Err(Error::ProposalNotFound));
    assert_eq!(e.proposal(7).unwrap().upvotes, 0);
}

#[test]
fn self_upvote_is_rejected_for_any_amount() {
    let mut e = fresh_engine();
    assert_eq!(e.create_proposal(W1, 7), Ok(()));
    assert_eq!(e.upvote_proposal(W1, 7, 0), Err(Error::SelfUpvoteRejected));
    assert_eq!(e.upvote_proposal(W1, 7, 30), Err(Error::SelfUpvoteRejected));
    assert_eq!(e.upvote_proposal(W1, 7, u64::MAX), Err(Error::SelfUpvoteRejected));
    assert_eq!(e.proposal(7).unwrap().upvotes, 0);
}

#[test]
fn upvote_conversion_is_floor_division() {
    let mut e = fresh_engine();
    assert_eq!(e.create_proposal(W1, 7), Ok(()));
    assert_eq!(e.upvote_proposal(W2, 7, 2 * UPVOTE_PRICE + 1), Ok(()));
    assert_eq!(e.proposal(7).unwrap().upvotes, 2);
    assert_eq!(e.event_at(1), Event::ProposalUpvoted(W2, 7, 2));
}

#[test]
fn upvote_below_price_adds_nothing() {
    let mut e = fresh_engine();
    assert_eq!(e.create_proposal(W1, 7), Ok(()));
    assert_eq!(e.upvote_proposal(W2, 7, UPVOTE_PRICE - 1), Ok(()));
    assert_eq!(e.proposal(7).unwrap().upvotes, 0);
    assert_eq!(e.event_at(1), Event::ProposalUpvoted(W2, 7, 0));
}

#[test]
fn upvotes_accumulate_across_calls() {
    let mut e = fresh_engine();
    assert_eq!(e.create_proposal(W1, 7), Ok(()));
    assert_eq!(e.upvote_proposal(W2, 7, 30), Ok(()));
    assert_eq!(e.upvote_proposal(W2, 7, 25), Ok(()));
    assert_eq!(e.proposal(7).unwrap().upvotes, 5);
}

#[test]
fn finish_round_requires_the_closer() {
    let mut e = fresh_engine();
    assert_eq!(e.create_proposal(W1, 7), Ok(()));
    assert_eq!(e.finish_round(W1), Err(Error::NotAuthorized));
    assert_eq!(e.current_round(), Some(7));
}

#[test]
fn finish_round_with_no_round_fails_and_changes_nothing() {
    let mut e = fresh_engine();
    assert_eq!(e.fund_wallet(W1, 100), Ok(()));
    assert_eq!(e.finish_round(CLOSER), Err(Error::NoActiveRound));
    assert_eq!(e.wallet_balance(W1), Some(100));
    assert!(e.is_registry_empty());
    assert_eq!(e.current_round(), None);
    assert_eq!(e.event_count(), 1);
}

#[test]
fn finish_round_clears_registry_and_round() {
    let mut e = fresh_engine();
    assert_eq!(e.create_proposal(W1, 7), Ok(()));
    assert_eq!(e.upvote_proposal(W2, 7, 42), Ok(()));
    assert!(!e.is_registry_empty());
    let outcome = e.finish_round(CLOSER).unwrap();
    assert!(outcome.is_some());
    assert!(e.is_registry_empty());
    assert_eq!(e.current_round(), None);
    assert_eq!(e.proposal(7), None);
}

#[test]
fn end_to_end_round() {
    let mut e = fresh_engine();
    assert_eq!(e.fund_wallet(W1, 100), Ok(()));
    assert_eq!(e.create_proposal(W1, 7), Ok(()));
    assert_eq!(e.current_round(), Some(7));
    assert_eq!(e.upvote_proposal(W2, 7, 30), Ok(()));
    assert_eq!(e.proposal(7).unwrap().upvotes, 3);

    let winner_reward = MAX_UPVOTES * UPVOTE_PRICE;
    let bonus = winner_reward / 2;
    assert_eq!(e.finish_round(CLOSER), Ok(Some((7, winner_reward + bonus))));

    assert!(e.is_registry_empty());
    assert_eq!(e.current_round(), None);
    assert_eq!(e.event_count(), 4);
    assert_eq!(e.event_at(0), Event::WalletCreated(W1, 100));
    assert_eq!(e.event_at(1), Event::ProposalCreated(W1, 7));
    assert_eq!(e.event_at(2), Event::ProposalUpvoted(W2, 7, 3));
    assert_eq!(e.event_at(3), Event::RoundFinished(7));
}

#[test]
fn a_new_round_can_open_after_the_last_one_finished() {
    let mut e = fresh_engine();
    assert_eq!(e.create_proposal(W1, 7), Ok(()));
    e.finish_round(CLOSER).unwrap();
    assert_eq!(e.create_proposal(W2, 9), Ok(()));
    assert_eq!(e.current_round(), Some(9));
    assert_eq!(e.proposal(9).unwrap().proposer, W2);
}
