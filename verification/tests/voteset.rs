use bft_core::types::{Address, Target, Vote, VoteType};
use bft_core::voteset::{reaches_quorum, InsertOutcome, VoteCollection, VoteSet};

fn prevote(round: u64, proposal: u8, voter: u8) -> Vote {
    Vote {
        vote_type: VoteType::Prevote,
        height: 1,
        round,
        proposal: Target::new(vec![proposal]),
        voter: Address::new(vec![voter]),
    }
}

fn precommit(round: u64, proposal: u8, voter: u8) -> Vote {
    Vote { vote_type: VoteType::Precommit, ..prevote(round, proposal, voter) }
}

fn value(n: u8) -> Target {
    Target::new(vec![n])
}

#[test]
fn two_thirds_is_a_quorum() {
    assert!(reaches_quorum(2, 3));
    assert!(reaches_quorum(3, 4));
    assert!(!reaches_quorum(2, 4));
    assert!(reaches_quorum(4, 6));
    assert!(!reaches_quorum(3, 6));
    assert!(reaches_quorum(67, 100));
    assert!(!reaches_quorum(66, 100));
    assert!(reaches_quorum(0, 0));
    assert!(reaches_quorum(1, 1));
    assert!(!reaches_quorum(0, 1));
    assert!(reaches_quorum(9, 4));
    let total = u128::MAX;
    // The largest total is three times a whole number, so two thirds of it is one.
    assert!(reaches_quorum(total / 3 * 2, total));
    assert!(!reaches_quorum(total / 3 * 2 - 1, total));
    assert!(reaches_quorum(total, total));
}

#[test]
fn a_vote_is_added_once() {
    let mut set = VoteSet::new();
    assert_eq!(set.len(), 0);
    assert_eq!(set.insert(prevote(0, 7, 1), 2), InsertOutcome::Added);
    assert_eq!(set.len(), 1);
    assert_eq!(set.total_weight(), 2);
    assert_eq!(set.insert(prevote(0, 7, 1), 2), InsertOutcome::Duplicate);
    assert_eq!(set.insert(prevote(0, 7, 1), 9), InsertOutcome::Duplicate);
    assert_eq!(set.len(), 1);
    assert_eq!(set.total_weight(), 2);
    assert_eq!(set.weight_of(&value(7)), 2);
}

#[test]
fn a_second_value_from_a_voter_is_a_conflict_and_the_first_stays() {
    let mut set = VoteSet::new();
    set.insert(prevote(0, 7, 1), 2);
    assert_eq!(set.insert(prevote(0, 9, 1), 2), InsertOutcome::ConflictingFromVoter);
    assert_eq!(set.len(), 1);
    assert_eq!(set.total_weight(), 2);
    assert_eq!(set.weight_of(&value(9)), 0);
    assert_eq!(set.voted(&Address::new(vec![1])), Some(value(7)));
    assert_eq!(set.voted(&Address::new(vec![2])), None);
}

#[test]
fn weights_are_tallied_by_value() {
    let mut set = VoteSet::new();
    set.insert(prevote(0, 7, 1), 2);
    set.insert(prevote(0, 9, 2), 3);
    set.insert(prevote(0, 7, 3), 4);
    set.insert(prevote(0, 0, 4), 1);
    assert_eq!(set.total_weight(), 10);
    assert_eq!(set.weight_of(&value(7)), 6);
    assert_eq!(set.weight_of(&value(9)), 3);
    assert_eq!(set.weight_of(&value(0)), 1);
    assert_eq!(set.weight_of(&value(5)), 0);
    assert!(!set.quorum(&value(7), 10));
    assert!(set.quorum(&value(7), 9));
    assert!(set.any_quorum_total(15));
    assert!(!set.any_quorum_total(16));
    assert_eq!(set.quorum_value(10), None);
    assert_eq!(set.quorum_value(9), Some(value(7)));
    assert_eq!(set.votes_for(&value(7)), vec![prevote(0, 7, 1), prevote(0, 7, 3)]);
    assert_eq!(set.votes_for(&value(5)), vec![]);
}

#[test]
fn the_value_first_voted_for_is_the_first_with_a_quorum() {
    let mut set = VoteSet::new();
    set.insert(prevote(0, 9, 1), 1);
    set.insert(prevote(0, 7, 2), 1);
    // Against a total of 1 both values have a quorum.
    assert_eq!(set.quorum_value(1), Some(value(9)));
    assert_eq!(set.quorum_value(0), Some(value(9)));
    assert_eq!(VoteSet::new().quorum_value(0), None);
}

#[test]
fn large_weights_do_not_overflow() {
    let mut set = VoteSet::new();
    set.insert(prevote(0, 7, 1), u64::MAX);
    set.insert(prevote(0, 7, 2), u64::MAX);
    set.insert(prevote(0, 9, 3), u64::MAX);
    let one = u64::MAX as u128;
    assert_eq!(set.total_weight(), 3 * one);
    assert_eq!(set.weight_of(&value(7)), 2 * one);
    assert!(set.quorum(&value(7), 3 * one));
    assert!(!set.quorum(&value(9), 3 * one));
}

#[test]
fn votes_are_kept_by_round_and_kind() {
    let mut votes = VoteCollection::new();
    assert_eq!(votes.insert(prevote(0, 7, 1), 1), InsertOutcome::Added);
    assert_eq!(votes.insert(precommit(0, 7, 1), 1), InsertOutcome::Added);
    assert_eq!(votes.insert(prevote(1, 9, 1), 1), InsertOutcome::Added);
    assert_eq!(votes.insert(prevote(0, 7, 1), 1), InsertOutcome::Duplicate);
    assert_eq!(votes.insert(prevote(1, 7, 1), 1), InsertOutcome::ConflictingFromVoter);
    assert_eq!(votes.insert(prevote(0, 7, 2), 1), InsertOutcome::Added);
    assert_eq!(votes.total_weight(0, VoteType::Prevote), 2);
    assert_eq!(votes.total_weight(0, VoteType::Precommit), 1);
    assert_eq!(votes.total_weight(1, VoteType::Prevote), 1);
    assert_eq!(votes.total_weight(1, VoteType::Precommit), 0);
    assert_eq!(votes.total_weight(2, VoteType::Prevote), 0);
    assert_eq!(votes.quorum_value(0, VoteType::Prevote, 3), Some(value(7)));
    assert_eq!(votes.quorum_value(0, VoteType::Precommit, 3), None);
    assert_eq!(votes.quorum_value(5, VoteType::Precommit, 3), None);
    assert!(votes.any_quorum_total(0, VoteType::Prevote, 3));
    assert!(!votes.any_quorum_total(0, VoteType::Precommit, 3));
    assert_eq!(
        votes.votes_for(0, VoteType::Prevote, &value(7)),
        vec![prevote(0, 7, 1), prevote(0, 7, 2)]
    );
    assert_eq!(votes.votes_for(1, VoteType::Prevote, &value(7)), vec![]);
    assert_eq!(votes.votes_for(3, VoteType::Prevote, &value(7)), vec![]);
    votes.clear();
    assert_eq!(votes.total_weight(0, VoteType::Prevote), 0);
    assert_eq!(votes.insert(prevote(0, 7, 1), 1), InsertOutcome::Added);
}
