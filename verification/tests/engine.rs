use bft_core::algorithm::{Action, Bft};
use bft_core::params::{Config, ProposerPolicy, RoundScaling};
use bft_core::step::Step;
use bft_core::timer::{TimeoutInfo, TimerRequest};
use bft_core::types::{
    Address, Commit, CoreInput, CoreOutput, Feed, Node, Proposal, Status, Target, VerifyResp, Vote,
    VoteType,
};

fn addr(n: u8) -> Address {
    Address::new(vec![n])
}

fn value(n: u8) -> Target {
    Target::new(vec![n, n, n])
}

fn nil() -> Target {
    Target::new(vec![])
}

fn authorities() -> Vec<Node> {
    vec![Node::new(addr(0)), Node::new(addr(1)), Node::new(addr(2)), Node::new(addr(3))]
}

fn status(height: u64) -> CoreInput {
    CoreInput::Status(Status { height, interval: None, authority_list: authorities() })
}

fn vote(vote_type: VoteType, height: u64, round: u64, proposal: Target, voter: u8) -> Vote {
    Vote { vote_type, height, round, proposal, voter: addr(voter) }
}

fn proposal(height: u64, round: u64, content: Target, proposer: u8) -> Proposal {
    Proposal { height, round, content, lock_round: None, lock_votes: vec![], proposer: addr(proposer) }
}

fn timeout(height: u64, round: u64, step: Step) -> TimeoutInfo {
    TimeoutInfo { timeval: 0, height, round, step }
}

fn timer(delay: u64, height: u64, round: u64, step: Step) -> Action {
    Action::SetTimer(TimerRequest { delay, height, round, step })
}

/// A node with address 0 at height 1, round 0, started, among four authorities.
fn started() -> Bft {
    let mut bft = Bft::new(addr(0));
    assert_eq!(bft.process(status(0)), vec![Action::Send(CoreOutput::GetProposalRequest(1))]);
    assert_eq!(bft.process(CoreInput::Start), vec![timer(3000, 1, 0, Step::Propose)]);
    bft
}

/// A node as `started` leaves it, locked on `value(7)` at round 0 after the
/// prevotes of nodes 0, 1 and 2, with its own precommit cast.
fn locked() -> Bft {
    let mut bft = started();
    let x = value(7);
    assert_eq!(
        bft.process(CoreInput::Proposal(proposal(1, 0, x.clone(), 1))),
        vec![Action::Send(CoreOutput::Vote(vote(VoteType::Prevote, 1, 0, x.clone(), 0)))]
    );
    assert_eq!(bft.process(CoreInput::Vote(vote(VoteType::Prevote, 1, 0, x.clone(), 1))), vec![]);
    assert_eq!(
        bft.process(CoreInput::Vote(vote(VoteType::Prevote, 1, 0, x.clone(), 2))),
        vec![Action::Send(CoreOutput::Vote(vote(VoteType::Precommit, 1, 0, x.clone(), 0)))]
    );
    bft
}

#[test]
fn a_new_node_has_seen_nothing() {
    let bft = Bft::new(addr(0));
    assert_eq!(bft.height(), 0);
    assert_eq!(bft.round(), 0);
    assert_eq!(bft.step(), Step::Propose);
    assert!(!bft.is_running());
    assert!(bft.lock().is_none());
    assert!(bft.commit_proof().is_none());
}

#[test]
fn happy_path_commits_and_moves_to_the_next_height() {
    let mut bft = started();
    let x = value(7);
    // Node 1 is the proposer of (1, 0): the node itself waits.
    assert_eq!(bft.process(CoreInput::Feed(Feed { height: 1, proposal: x.clone() })), vec![]);
    assert_eq!(bft.step(), Step::Propose);
    assert_eq!(
        bft.process(CoreInput::Proposal(proposal(1, 0, x.clone(), 1))),
        vec![Action::Send(CoreOutput::Vote(vote(VoteType::Prevote, 1, 0, x.clone(), 0)))]
    );
    assert_eq!(bft.step(), Step::Prevote);
    assert_eq!(bft.process(CoreInput::Vote(vote(VoteType::Prevote, 1, 0, x.clone(), 1))), vec![]);
    assert_eq!(
        bft.process(CoreInput::Vote(vote(VoteType::Prevote, 1, 0, x.clone(), 2))),
        vec![Action::Send(CoreOutput::Vote(vote(VoteType::Precommit, 1, 0, x.clone(), 0)))]
    );
    assert_eq!(bft.step(), Step::Precommit);
    let lock = bft.lock().expect("locked after the prevote quorum");
    assert_eq!(lock.proposal, x);
    assert_eq!(lock.round, 0);
    assert_eq!(lock.votes.len(), 3);
    assert_eq!(bft.process(CoreInput::Vote(vote(VoteType::Precommit, 1, 0, x.clone(), 1))), vec![]);
    let decision = Commit {
        height: 1,
        round: 0,
        proposal: x.clone(),
        lock_votes: vec![
            vote(VoteType::Precommit, 1, 0, x.clone(), 0),
            vote(VoteType::Precommit, 1, 0, x.clone(), 1),
            vote(VoteType::Precommit, 1, 0, x.clone(), 2),
        ],
        address: addr(0),
    };
    assert_eq!(
        bft.process(CoreInput::Vote(vote(VoteType::Precommit, 1, 0, x.clone(), 2))),
        vec![
            Action::Send(CoreOutput::Commit(decision.clone())),
            Action::Send(CoreOutput::GetProposalRequest(2)),
            timer(3000, 2, 0, Step::Propose),
        ]
    );
    assert_eq!(bft.height(), 2);
    assert_eq!(bft.round(), 0);
    assert_eq!(bft.step(), Step::Propose);
    assert!(bft.lock().is_none());
    assert_eq!(bft.commit_proof(), Some(decision));
}

#[test]
fn lock_carries_over_to_the_next_round() {
    let mut bft = locked();
    let x = value(7);
    let y = value(9);
    // Only two precommits come in: nothing is decided.
    assert_eq!(bft.process(CoreInput::Vote(vote(VoteType::Precommit, 1, 0, x.clone(), 1))), vec![]);
    assert_eq!(
        bft.timeout_process(timeout(1, 0, Step::Precommit)),
        vec![timer(6000, 1, 1, Step::Propose)]
    );
    assert_eq!((bft.height(), bft.round(), bft.step()), (1, 1, Step::Propose));
    // Node 2 is the proposer of (1, 1) and proposes another value.
    assert_eq!(
        bft.process(CoreInput::Proposal(proposal(1, 1, y, 2))),
        vec![Action::Send(CoreOutput::Vote(vote(VoteType::Prevote, 1, 1, nil(), 0)))]
    );
    assert_eq!(bft.lock().expect("still locked").proposal, x);
}

#[test]
fn proposal_with_the_locked_value_is_voted_for() {
    let mut bft = locked();
    let x = value(7);
    bft.timeout_process(timeout(1, 0, Step::Precommit));
    let carried = Proposal {
        height: 1,
        round: 1,
        content: x.clone(),
        lock_round: Some(0),
        lock_votes: vec![
            vote(VoteType::Prevote, 1, 0, x.clone(), 0),
            vote(VoteType::Prevote, 1, 0, x.clone(), 1),
            vote(VoteType::Prevote, 1, 0, x.clone(), 2),
        ],
        proposer: addr(2),
    };
    assert_eq!(
        bft.process(CoreInput::Proposal(carried)),
        vec![Action::Send(CoreOutput::Vote(vote(VoteType::Prevote, 1, 1, x.clone(), 0)))]
    );
    let lock = bft.lock().expect("still locked");
    assert_eq!((lock.proposal, lock.round), (x, 0));
}

#[test]
fn later_lock_of_a_proposal_is_taken_over() {
    let mut bft = locked();
    let z = value(5);
    bft.timeout_process(timeout(1, 0, Step::Precommit));
    assert_eq!(
        bft.timeout_process(timeout(1, 1, Step::Propose)),
        vec![Action::Send(CoreOutput::Vote(vote(VoteType::Prevote, 1, 1, nil(), 0)))]
    );
    assert_eq!(
        bft.timeout_process(timeout(1, 1, Step::Prevote)),
        vec![timer(12000, 1, 2, Step::Propose)]
    );
    // Node 3 is the proposer of (1, 2); it proves a lock on another value at round 1.
    let lock_votes = vec![
        vote(VoteType::Prevote, 1, 1, z.clone(), 1),
        vote(VoteType::Prevote, 1, 1, z.clone(), 2),
        vote(VoteType::Prevote, 1, 1, z.clone(), 3),
    ];
    let carried = Proposal {
        height: 1,
        round: 2,
        content: z.clone(),
        lock_round: Some(1),
        lock_votes: lock_votes.clone(),
        proposer: addr(3),
    };
    assert_eq!(
        bft.process(CoreInput::Proposal(carried)),
        vec![Action::Send(CoreOutput::Vote(vote(VoteType::Prevote, 1, 2, z.clone(), 0)))]
    );
    let lock = bft.lock().expect("locked on the value taken over");
    assert_eq!(lock.proposal, z);
    assert_eq!(lock.round, 1);
    assert_eq!(lock.votes, lock_votes);
}

#[test]
fn proposal_with_an_unproved_lock_is_dropped() {
    let mut bft = started();
    let x = value(7);
    // Two prevotes are a half of the weight, not two thirds.
    let carried = Proposal {
        height: 1,
        round: 0,
        content: x.clone(),
        lock_round: Some(0),
        lock_votes: vec![
            vote(VoteType::Prevote, 1, 0, x.clone(), 1),
            vote(VoteType::Prevote, 1, 0, x.clone(), 2),
        ],
        proposer: addr(1),
    };
    assert_eq!(bft.process(CoreInput::Proposal(carried)), vec![]);
    assert_eq!(bft.step(), Step::Propose);
    // The same voter twice does not count twice.
    let doubled = Proposal {
        height: 1,
        round: 0,
        content: x.clone(),
        lock_round: Some(0),
        lock_votes: vec![
            vote(VoteType::Prevote, 1, 0, x.clone(), 1),
            vote(VoteType::Prevote, 1, 0, x.clone(), 2),
            vote(VoteType::Prevote, 1, 0, x.clone(), 2),
        ],
        proposer: addr(1),
    };
    assert_eq!(bft.process(CoreInput::Proposal(doubled)), vec![]);
    assert_eq!(bft.step(), Step::Propose);
    // A proposal without a lock round is still taken afterwards.
    assert_eq!(
        bft.process(CoreInput::Proposal(proposal(1, 0, x.clone(), 1))),
        vec![Action::Send(CoreOutput::Vote(vote(VoteType::Prevote, 1, 0, x, 0)))]
    );
}

#[test]
fn nil_quorum_commits_nothing() {
    let mut bft = started();
    assert_eq!(
        bft.timeout_process(timeout(1, 0, Step::Propose)),
        vec![Action::Send(CoreOutput::Vote(vote(VoteType::Prevote, 1, 0, nil(), 0)))]
    );
    assert_eq!(bft.process(CoreInput::Vote(vote(VoteType::Prevote, 1, 0, nil(), 1))), vec![]);
    assert_eq!(
        bft.process(CoreInput::Vote(vote(VoteType::Prevote, 1, 0, nil(), 2))),
        vec![Action::Send(CoreOutput::Vote(vote(VoteType::Precommit, 1, 0, nil(), 0)))]
    );
    assert!(bft.lock().is_none());
    assert_eq!(bft.process(CoreInput::Vote(vote(VoteType::Precommit, 1, 0, nil(), 1))), vec![]);
    assert_eq!(
        bft.process(CoreInput::Vote(vote(VoteType::Precommit, 1, 0, nil(), 2))),
        vec![timer(3000, 1, 0, Step::PrecommitWait)]
    );
    assert_eq!((bft.height(), bft.round(), bft.step()), (1, 0, Step::PrecommitWait));
    assert_eq!(
        bft.timeout_process(timeout(1, 0, Step::PrecommitWait)),
        vec![timer(6000, 1, 1, Step::Propose)]
    );
    assert_eq!((bft.height(), bft.round(), bft.step()), (1, 1, Step::Propose));
    assert!(bft.commit_proof().is_none());
}

#[test]
fn nil_quorum_keeps_the_lock() {
    let mut bft = locked();
    let x = value(7);
    bft.timeout_process(timeout(1, 0, Step::Precommit));
    bft.timeout_process(timeout(1, 1, Step::Propose));
    bft.process(CoreInput::Vote(vote(VoteType::Prevote, 1, 1, nil(), 1)));
    assert_eq!(
        bft.process(CoreInput::Vote(vote(VoteType::Prevote, 1, 1, nil(), 2))),
        vec![Action::Send(CoreOutput::Vote(vote(VoteType::Precommit, 1, 1, nil(), 0)))]
    );
    let lock = bft.lock().expect("the lock is never given up");
    assert_eq!((lock.proposal, lock.round), (x, 0));
}

#[test]
fn mixed_prevotes_make_the_node_wait() {
    let mut bft = started();
    let x = value(7);
    bft.process(CoreInput::Proposal(proposal(1, 0, x.clone(), 1)));
    assert_eq!(bft.process(CoreInput::Vote(vote(VoteType::Prevote, 1, 0, nil(), 1))), vec![]);
    assert_eq!(
        bft.process(CoreInput::Vote(vote(VoteType::Prevote, 1, 0, value(9), 2))),
        vec![timer(3000, 1, 0, Step::PrevoteWait)]
    );
    assert_eq!(bft.step(), Step::PrevoteWait);
    // A quorum for one value still leads on from the wait.
    assert_eq!(bft.process(CoreInput::Vote(vote(VoteType::Prevote, 1, 0, x.clone(), 3))), vec![]);
    assert_eq!(
        bft.timeout_process(timeout(1, 0, Step::PrevoteWait)),
        vec![timer(6000, 1, 1, Step::Propose)]
    );
}

#[test]
fn status_resets_the_height() {
    let mut bft = Bft::new(addr(0));
    bft.process(status(4));
    bft.process(CoreInput::Start);
    assert_eq!(bft.height(), 5);
    let x = value(7);
    // Lock at (5, 0), then let rounds pass up to (5, 3).
    bft.process(CoreInput::Proposal(proposal(5, 0, x.clone(), 1)));
    bft.process(CoreInput::Vote(vote(VoteType::Prevote, 5, 0, x.clone(), 1)));
    bft.process(CoreInput::Vote(vote(VoteType::Prevote, 5, 0, x.clone(), 2)));
    assert!(bft.lock().is_some());
    bft.timeout_process(timeout(5, 0, Step::Precommit));
    bft.timeout_process(timeout(5, 1, Step::Propose));
    bft.timeout_process(timeout(5, 1, Step::Prevote));
    bft.timeout_process(timeout(5, 2, Step::Propose));
    bft.timeout_process(timeout(5, 2, Step::Prevote));
    bft.timeout_process(timeout(5, 3, Step::Propose));
    assert_eq!((bft.height(), bft.round(), bft.step()), (5, 3, Step::Prevote));
    assert_eq!(
        bft.process(status(7)),
        vec![Action::Send(CoreOutput::GetProposalRequest(8)), timer(3000, 8, 0, Step::Propose)]
    );
    assert_eq!((bft.height(), bft.round(), bft.step()), (8, 0, Step::Propose));
    assert!(bft.lock().is_none());
}

#[test]
fn status_for_an_earlier_height_is_dropped() {
    let mut bft = started();
    bft.process(status(6));
    assert_eq!(bft.height(), 7);
    assert_eq!(bft.process(status(5)), vec![]);
    assert_eq!(bft.height(), 7);
    // A status for the node's own height still moves it on.
    assert_eq!(
        bft.process(status(7)),
        vec![Action::Send(CoreOutput::GetProposalRequest(8)), timer(3000, 8, 0, Step::Propose)]
    );
    assert_eq!(bft.height(), 8);
}

#[test]
fn status_sets_the_interval() {
    let mut bft = started();
    let with_interval = CoreInput::Status(Status {
        height: 1,
        interval: Some(500),
        authority_list: authorities(),
    });
    assert_eq!(
        bft.process(with_interval),
        vec![Action::Send(CoreOutput::GetProposalRequest(2)), timer(500, 2, 0, Step::Propose)]
    );
    assert_eq!(
        bft.process(status(2)),
        vec![Action::Send(CoreOutput::GetProposalRequest(3)), timer(500, 3, 0, Step::Propose)]
    );
}

#[test]
fn duplicate_vote_is_idempotent() {
    let mut bft = started();
    let x = value(7);
    bft.process(CoreInput::Proposal(proposal(1, 0, x.clone(), 1)));
    assert_eq!(bft.process(CoreInput::Vote(vote(VoteType::Prevote, 1, 0, x.clone(), 1))), vec![]);
    // The same vote again does not make a third prevote.
    assert_eq!(bft.process(CoreInput::Vote(vote(VoteType::Prevote, 1, 0, x.clone(), 1))), vec![]);
    assert_eq!(bft.process(CoreInput::Vote(vote(VoteType::Prevote, 1, 0, x.clone(), 1))), vec![]);
    assert_eq!(bft.step(), Step::Prevote);
    assert!(bft.lock().is_none());
    // Another value from the same voter is not counted either.
    assert_eq!(bft.process(CoreInput::Vote(vote(VoteType::Prevote, 1, 0, value(9), 1))), vec![]);
    assert_eq!(
        bft.process(CoreInput::Vote(vote(VoteType::Prevote, 1, 0, x.clone(), 2))),
        vec![Action::Send(CoreOutput::Vote(vote(VoteType::Precommit, 1, 0, x, 0)))]
    );
}

#[test]
fn proposal_from_another_node_than_the_proposer_is_dropped() {
    let mut bft = started();
    let x = value(7);
    assert_eq!(bft.process(CoreInput::Proposal(proposal(1, 0, x.clone(), 2))), vec![]);
    assert_eq!(bft.process(CoreInput::Proposal(proposal(1, 0, x.clone(), 0))), vec![]);
    assert_eq!(bft.step(), Step::Propose);
    // Nothing was kept: on the timeout the node votes nil.
    assert_eq!(
        bft.timeout_process(timeout(1, 0, Step::Propose)),
        vec![Action::Send(CoreOutput::Vote(vote(VoteType::Prevote, 1, 0, nil(), 0)))]
    );
}

#[test]
fn proposal_for_another_height_or_with_nil_is_dropped() {
    let mut bft = started();
    assert_eq!(bft.process(CoreInput::Proposal(proposal(2, 0, value(7), 2))), vec![]);
    assert_eq!(bft.process(CoreInput::Proposal(proposal(1, 0, nil(), 1))), vec![]);
    assert_eq!(bft.step(), Step::Propose);
}

#[test]
fn second_proposal_for_a_round_is_dropped() {
    let mut bft = started();
    let x = value(7);
    // A proposal for a later round is kept until its round comes.
    assert_eq!(bft.process(CoreInput::Proposal(proposal(1, 1, x.clone(), 2))), vec![]);
    assert_eq!(bft.process(CoreInput::Proposal(proposal(1, 1, value(9), 2))), vec![]);
    bft.timeout_process(timeout(1, 0, Step::Propose));
    bft.timeout_process(timeout(1, 0, Step::Prevote));
    assert_eq!((bft.round(), bft.step()), (1, Step::Propose));
    assert_eq!(
        bft.timeout_process(timeout(1, 1, Step::Propose)),
        vec![Action::Send(CoreOutput::Vote(vote(VoteType::Prevote, 1, 1, x, 0)))]
    );
}

#[test]
fn votes_of_strangers_and_other_heights_are_dropped() {
    let mut bft = started();
    let x = value(7);
    bft.process(CoreInput::Proposal(proposal(1, 0, x.clone(), 1)));
    assert_eq!(bft.process(CoreInput::Vote(vote(VoteType::Prevote, 1, 0, x.clone(), 8))), vec![]);
    assert_eq!(bft.process(CoreInput::Vote(vote(VoteType::Prevote, 1, 0, x.clone(), 9))), vec![]);
    assert_eq!(bft.process(CoreInput::Vote(vote(VoteType::Prevote, 2, 0, x.clone(), 1))), vec![]);
    assert_eq!(bft.process(CoreInput::Vote(vote(VoteType::Prevote, 0, 0, x.clone(), 2))), vec![]);
    assert_eq!(bft.step(), Step::Prevote);
}

#[test]
fn votes_that_came_early_count_when_the_round_comes() {
    let mut bft = started();
    let x = value(7);
    bft.process(CoreInput::Vote(vote(VoteType::Prevote, 1, 0, x.clone(), 1)));
    bft.process(CoreInput::Vote(vote(VoteType::Prevote, 1, 0, x.clone(), 2)));
    bft.process(CoreInput::Vote(vote(VoteType::Precommit, 1, 0, x.clone(), 1)));
    bft.process(CoreInput::Vote(vote(VoteType::Precommit, 1, 0, x.clone(), 2)));
    assert_eq!(bft.step(), Step::Propose);
    let actions = bft.process(CoreInput::Proposal(proposal(1, 0, x.clone(), 1)));
    assert_eq!(actions.len(), 5);
    assert_eq!(actions[0], Action::Send(CoreOutput::Vote(vote(VoteType::Prevote, 1, 0, x.clone(), 0))));
    assert_eq!(
        actions[1],
        Action::Send(CoreOutput::Vote(vote(VoteType::Precommit, 1, 0, x.clone(), 0)))
    );
    match &actions[2] {
        Action::Send(CoreOutput::Commit(c)) => {
            assert_eq!((c.height, c.round, c.proposal.clone()), (1, 0, x.clone()));
            assert_eq!(c.lock_votes.len(), 3);
        }
        other => panic!("not a commit: {:?}", other),
    }
    assert_eq!(actions[3], Action::Send(CoreOutput::GetProposalRequest(2)));
    assert_eq!(actions[4], timer(3000, 2, 0, Step::Propose));
    assert_eq!(bft.height(), 2);
}

#[test]
fn timeouts_for_another_step_are_dropped() {
    let mut bft = started();
    assert_eq!(bft.timeout_process(timeout(1, 0, Step::Prevote)), vec![]);
    assert_eq!(bft.timeout_process(timeout(1, 1, Step::Propose)), vec![]);
    assert_eq!(bft.timeout_process(timeout(0, 0, Step::Propose)), vec![]);
    assert_eq!((bft.height(), bft.round(), bft.step()), (1, 0, Step::Propose));
}

#[test]
fn a_paused_node_takes_only_start_pause_and_status() {
    let mut bft = started();
    let x = value(7);
    assert_eq!(bft.process(CoreInput::Pause), vec![]);
    assert!(!bft.is_running());
    assert_eq!(bft.process(CoreInput::Proposal(proposal(1, 0, x.clone(), 1))), vec![]);
    assert_eq!(bft.process(CoreInput::Feed(Feed { height: 1, proposal: x.clone() })), vec![]);
    assert_eq!(bft.process(CoreInput::Vote(vote(VoteType::Prevote, 1, 0, x.clone(), 1))), vec![]);
    assert_eq!(bft.timeout_process(timeout(1, 0, Step::Propose)), vec![]);
    assert_eq!(bft.step(), Step::Propose);
    // A status is applied, but no timeout is asked for.
    assert_eq!(bft.process(status(3)), vec![Action::Send(CoreOutput::GetProposalRequest(4))]);
    assert_eq!(bft.height(), 4);
    assert_eq!(bft.process(CoreInput::Start), vec![timer(3000, 4, 0, Step::Propose)]);
    assert!(bft.is_running());
}

#[test]
fn start_without_authorities_asks_for_nothing() {
    let mut bft = Bft::new(addr(0));
    assert_eq!(bft.process(CoreInput::Start), vec![]);
    assert!(bft.is_running());
}

#[test]
fn commit_from_the_host_changes_nothing() {
    let mut bft = started();
    let acknowledged = Commit {
        height: 1,
        round: 0,
        proposal: value(7),
        lock_votes: vec![],
        address: addr(0),
    };
    assert_eq!(bft.process(CoreInput::Commit(acknowledged)), vec![]);
    assert_eq!((bft.height(), bft.round(), bft.step()), (1, 0, Step::Propose));
}

#[test]
fn the_proposer_proposes_its_feed() {
    // Node 1 is the proposer of (1, 0).
    let mut bft = Bft::new(addr(1));
    bft.process(status(0));
    bft.process(CoreInput::Start);
    let x = value(7);
    assert_eq!(
        bft.process(CoreInput::Feed(Feed { height: 1, proposal: x.clone() })),
        vec![
            Action::Send(CoreOutput::Proposal(proposal(1, 0, x.clone(), 1))),
            Action::Send(CoreOutput::Vote(vote(VoteType::Prevote, 1, 0, x.clone(), 1))),
        ]
    );
    assert_eq!(bft.step(), Step::Prevote);
    // The same feed again proposes nothing more.
    assert_eq!(bft.process(CoreInput::Feed(Feed { height: 1, proposal: x })), vec![]);
}

#[test]
fn feeds_with_nil_or_for_past_heights_are_dropped() {
    let mut bft = Bft::new(addr(1));
    bft.process(status(0));
    bft.process(CoreInput::Start);
    assert_eq!(bft.process(CoreInput::Feed(Feed { height: 1, proposal: nil() })), vec![]);
    assert_eq!(bft.process(CoreInput::Feed(Feed { height: 0, proposal: value(7) })), vec![]);
    assert_eq!(bft.step(), Step::Propose);
}

#[test]
fn a_feed_for_a_later_height_is_proposed_in_that_height() {
    // Node 2 is the proposer of (2, 0) and of (1, 1).
    let mut bft = Bft::new(addr(2));
    bft.process(status(0));
    bft.process(CoreInput::Start);
    let x = value(7);
    let later = value(9);
    assert_eq!(bft.process(CoreInput::Feed(Feed { height: 2, proposal: later.clone() })), vec![]);
    assert_eq!(bft.process(CoreInput::Feed(Feed { height: 1, proposal: x.clone() })), vec![]);
    // A newer feed for a height takes the place of the older one.
    assert_eq!(bft.process(CoreInput::Feed(Feed { height: 1, proposal: value(8) })), vec![]);
    bft.timeout_process(timeout(1, 0, Step::Propose));
    assert_eq!(
        bft.timeout_process(timeout(1, 0, Step::Prevote)),
        vec![
            timer(6000, 1, 1, Step::Propose),
            Action::Send(CoreOutput::Proposal(proposal(1, 1, value(8), 2))),
            Action::Send(CoreOutput::Vote(vote(VoteType::Prevote, 1, 1, value(8), 2))),
        ]
    );
    bft.process(status(1));
    assert_eq!(bft.height(), 2);
    // The feed that came early is still there when the host offers it again.
    assert_eq!(
        bft.process(CoreInput::Feed(Feed { height: 2, proposal: later.clone() })),
        vec![
            Action::Send(CoreOutput::Proposal(proposal(2, 0, later.clone(), 2))),
            Action::Send(CoreOutput::Vote(vote(VoteType::Prevote, 2, 0, later, 2))),
        ]
    );
}

#[test]
fn a_locked_proposer_proposes_its_locked_value() {
    // Node 2 is the proposer of (1, 1).
    let mut bft = Bft::new(addr(2));
    bft.process(status(0));
    bft.process(CoreInput::Start);
    let x = value(7);
    bft.process(CoreInput::Feed(Feed { height: 1, proposal: value(9) }));
    bft.process(CoreInput::Proposal(proposal(1, 0, x.clone(), 1)));
    bft.process(CoreInput::Vote(vote(VoteType::Prevote, 1, 0, x.clone(), 0)));
    bft.process(CoreInput::Vote(vote(VoteType::Prevote, 1, 0, x.clone(), 1)));
    assert_eq!(bft.step(), Step::Precommit);
    let carried = Proposal {
        height: 1,
        round: 1,
        content: x.clone(),
        lock_round: Some(0),
        lock_votes: vec![
            vote(VoteType::Prevote, 1, 0, x.clone(), 2),
            vote(VoteType::Prevote, 1, 0, x.clone(), 0),
            vote(VoteType::Prevote, 1, 0, x.clone(), 1),
        ],
        proposer: addr(2),
    };
    assert_eq!(
        bft.timeout_process(timeout(1, 0, Step::Precommit)),
        vec![
            timer(6000, 1, 1, Step::Propose),
            Action::Send(CoreOutput::Proposal(carried)),
            Action::Send(CoreOutput::Vote(vote(VoteType::Prevote, 1, 1, x, 2))),
        ]
    );
}

#[test]
fn a_single_authority_decides_alone() {
    let mut bft = Bft::new(addr(0));
    bft.process(CoreInput::Start);
    let alone = CoreInput::Status(Status {
        height: 0,
        interval: None,
        authority_list: vec![Node::new(addr(0))],
    });
    assert_eq!(
        bft.process(alone),
        vec![Action::Send(CoreOutput::GetProposalRequest(1)), timer(3000, 1, 0, Step::Propose)]
    );
    let x = Target::new(vec![6, 5, 5, 3, 5]);
    let actions = bft.process(CoreInput::Feed(Feed { height: 1, proposal: x.clone() }));
    assert_eq!(
        actions,
        vec![
            Action::Send(CoreOutput::Proposal(proposal(1, 0, x.clone(), 0))),
            Action::Send(CoreOutput::Vote(vote(VoteType::Prevote, 1, 0, x.clone(), 0))),
            Action::Send(CoreOutput::Vote(vote(VoteType::Precommit, 1, 0, x.clone(), 0))),
            Action::Send(CoreOutput::Commit(Commit {
                height: 1,
                round: 0,
                proposal: x.clone(),
                lock_votes: vec![vote(VoteType::Precommit, 1, 0, x, 0)],
                address: addr(0),
            })),
            Action::Send(CoreOutput::GetProposalRequest(2)),
            timer(3000, 2, 0, Step::Propose),
        ]
    );
    assert_eq!(bft.height(), 2);
}

#[test]
fn vote_weights_decide_the_quorum() {
    let mut bft = Bft::new(addr(0));
    let mut heavy = Node::new(addr(1));
    heavy.set_vote_weight(5);
    let mut silent = Node::new(addr(3));
    silent.set_vote_weight(0);
    let weighted = CoreInput::Status(Status {
        height: 0,
        interval: None,
        authority_list: vec![Node::new(addr(0)), heavy, Node::new(addr(2)), silent],
    });
    bft.process(weighted);
    bft.process(CoreInput::Start);
    let x = value(7);
    // Weights 1 + 5 + 1 + 0: the node's own vote and that of node 1 are six of seven.
    bft.process(CoreInput::Proposal(proposal(1, 0, x.clone(), 1)));
    // A node with weight 0 has no vote.
    assert_eq!(bft.process(CoreInput::Vote(vote(VoteType::Prevote, 1, 0, x.clone(), 3))), vec![]);
    assert_eq!(bft.step(), Step::Prevote);
    assert_eq!(
        bft.process(CoreInput::Vote(vote(VoteType::Prevote, 1, 0, x.clone(), 1))),
        vec![Action::Send(CoreOutput::Vote(vote(VoteType::Precommit, 1, 0, x, 0)))]
    );
}

#[test]
fn unverified_proposal_waits_for_the_answer() {
    let config = Config {
        interval: 1000,
        policy: ProposerPolicy::Weighted,
        scaling: RoundScaling::Additive { increment: 250 },
        async_verify: true,
    };
    let mut bft = Bft::with_config(addr(0), config);
    bft.process(status(0));
    assert_eq!(bft.process(CoreInput::Start), vec![timer(1000, 1, 0, Step::Propose)]);
    let x = value(7);
    assert_eq!(bft.process(CoreInput::Proposal(proposal(1, 0, x.clone(), 1))), vec![]);
    assert_eq!(bft.step(), Step::Propose);
    // An answer on another value leads nowhere.
    assert_eq!(
        bft.process(CoreInput::VerifyResp(VerifyResp { is_pass: true, proposal: value(9) })),
        vec![]
    );
    assert_eq!(
        bft.process(CoreInput::VerifyResp(VerifyResp { is_pass: true, proposal: x.clone() })),
        vec![Action::Send(CoreOutput::Vote(vote(VoteType::Prevote, 1, 0, x, 0)))]
    );
}

#[test]
fn failed_verification_is_voted_nil() {
    let config = Config {
        interval: 1000,
        policy: ProposerPolicy::Weighted,
        scaling: RoundScaling::Additive { increment: 250 },
        async_verify: true,
    };
    let mut bft = Bft::with_config(addr(0), config);
    bft.process(status(0));
    bft.process(CoreInput::Start);
    let x = value(7);
    // The answer comes first, the proposal after it.
    assert_eq!(
        bft.process(CoreInput::VerifyResp(VerifyResp { is_pass: false, proposal: x.clone() })),
        vec![]
    );
    // A second answer on the same value is dropped.
    assert_eq!(
        bft.process(CoreInput::VerifyResp(VerifyResp { is_pass: true, proposal: x.clone() })),
        vec![]
    );
    assert_eq!(
        bft.process(CoreInput::Proposal(proposal(1, 0, x, 1))),
        vec![Action::Send(CoreOutput::Vote(vote(VoteType::Prevote, 1, 0, nil(), 0)))]
    );
    assert_eq!(
        bft.timeout_process(timeout(1, 0, Step::Prevote)),
        vec![timer(1250, 1, 1, Step::Propose)]
    );
}

#[test]
fn verification_answers_are_dropped_when_not_waited_for() {
    let mut bft = started();
    let x = value(7);
    assert_eq!(
        bft.process(CoreInput::VerifyResp(VerifyResp { is_pass: false, proposal: x.clone() })),
        vec![]
    );
    assert_eq!(
        bft.process(CoreInput::Proposal(proposal(1, 0, x.clone(), 1))),
        vec![Action::Send(CoreOutput::Vote(vote(VoteType::Prevote, 1, 0, x, 0)))]
    );
}

#[test]
fn height_never_falls_and_each_height_is_decided_once() {
    let mut bft = started();
    let mut heights = vec![bft.height()];
    let mut decided: Vec<u64> = vec![];
    let x = value(7);
    let inputs = vec![
        CoreInput::Proposal(proposal(1, 0, x.clone(), 1)),
        CoreInput::Vote(vote(VoteType::Prevote, 1, 0, x.clone(), 1)),
        CoreInput::Vote(vote(VoteType::Prevote, 1, 0, x.clone(), 2)),
        CoreInput::Vote(vote(VoteType::Precommit, 1, 0, x.clone(), 1)),
        CoreInput::Vote(vote(VoteType::Precommit, 1, 0, x.clone(), 2)),
        CoreInput::Vote(vote(VoteType::Precommit, 1, 0, x.clone(), 3)),
        CoreInput::Vote(vote(VoteType::Precommit, 1, 0, x.clone(), 2)),
        status(0),
        CoreInput::Proposal(proposal(2, 0, x.clone(), 2)),
        CoreInput::Vote(vote(VoteType::Prevote, 2, 0, x.clone(), 1)),
        CoreInput::Vote(vote(VoteType::Prevote, 2, 0, x.clone(), 2)),
        CoreInput::Vote(vote(VoteType::Precommit, 2, 0, x.clone(), 1)),
        CoreInput::Vote(vote(VoteType::Precommit, 2, 0, x.clone(), 2)),
        status(1),
        status(5),
        status(3),
    ];
    for input in inputs {
        for action in bft.process(input) {
            if let Action::Send(CoreOutput::Commit(c)) = action {
                decided.push(c.height);
            }
        }
        heights.push(bft.height());
    }
    assert!(heights.windows(2).all(|w| w[0] <= w[1]));
    assert_eq!(decided, vec![1, 2]);
    assert_eq!(bft.height(), 6);
}

#[test]
fn a_lock_round_that_is_not_before_the_round_is_not_taken() {
    let mut bft = locked();
    let z = value(5);
    bft.timeout_process(timeout(1, 0, Step::Precommit));
    // Node 2 is the proposer of (1, 1); the lock it names is of the same round.
    let carried = Proposal {
        height: 1,
        round: 1,
        content: z.clone(),
        lock_round: Some(1),
        lock_votes: vec![
            vote(VoteType::Prevote, 1, 1, z.clone(), 1),
            vote(VoteType::Prevote, 1, 1, z.clone(), 2),
            vote(VoteType::Prevote, 1, 1, z.clone(), 3),
        ],
        proposer: addr(2),
    };
    assert_eq!(bft.process(CoreInput::Proposal(carried)), vec![]);
    assert_eq!(bft.step(), Step::Propose);
    assert_eq!(bft.lock().expect("still locked").proposal, value(7));
}

/// Notes the decisions among what a node asks for, and keeps the rest of what it
/// sends out to be handed on.
fn note(
    from: usize,
    actions: Vec<Action>,
    pending: &mut Vec<(usize, CoreOutput)>,
    decided: &mut Vec<Vec<Commit>>,
) {
    for action in actions {
        match action {
            Action::Send(CoreOutput::Commit(c)) => decided[from].push(c),
            Action::Send(out) => pending.push((from, out)),
            Action::SetTimer(_) => {}
        }
    }
}

/// Hands what the nodes send out to all nodes, until nothing is left to hand on
/// or the nodes have reached the height `last`. Gives back the decisions of
/// each node, in order.
fn run_network(nodes: &mut Vec<Bft>, last: u64) -> Vec<Vec<Commit>> {
    let mut decided: Vec<Vec<Commit>> = nodes.iter().map(|_| vec![]).collect();
    let mut pending = vec![];
    for n in 0..nodes.len() {
        assert_eq!(nodes[n].process(CoreInput::Start), vec![]);
        let actions = nodes[n].process(status(0));
        note(n, actions, &mut pending, &mut decided);
    }
    while let Some((from, output)) = pending.pop() {
        match output {
            CoreOutput::GetProposalRequest(height) => {
                if height <= last {
                    let feed =
                        Feed { height, proposal: Target::new(vec![from as u8 + 1, height as u8]) };
                    let actions = nodes[from].process(CoreInput::Feed(feed));
                    note(from, actions, &mut pending, &mut decided);
                }
            }
            CoreOutput::Proposal(p) => {
                for to in (0..nodes.len()).filter(|to| *to != from) {
                    let actions = nodes[to].process(CoreInput::Proposal(p.clone()));
                    note(to, actions, &mut pending, &mut decided);
                }
            }
            CoreOutput::Vote(v) => {
                for to in (0..nodes.len()).filter(|to| *to != from) {
                    let actions = nodes[to].process(CoreInput::Vote(v.clone()));
                    note(to, actions, &mut pending, &mut decided);
                }
            }
            CoreOutput::Commit(_) => unreachable!(),
        }
    }
    decided
}

#[test]
fn four_nodes_decide_the_same_values() {
    let mut nodes: Vec<Bft> = (0..4u8).map(|n| Bft::new(addr(n))).collect();
    let decided = run_network(&mut nodes, 3);
    // Messages reach the nodes in no fixed order, and a vote that comes before
    // its height is lost: not every node decides every height. What is decided
    // is the same at all nodes.
    let mut seen = 0;
    for (n, of_node) in decided.iter().enumerate() {
        let mut before = 0;
        for c in of_node {
            assert!(c.height > before);
            before = c.height;
            assert_eq!(c.address, addr(n as u8));
            // The proposer of round 0 of a height is node height mod 4, and its feed is decided.
            let proposer = (c.height % 4) as u8;
            assert_eq!(c.proposal, Target::new(vec![proposer + 1, c.height as u8]));
            assert!(c.lock_votes.len() >= 3);
            for other in decided.iter().flatten() {
                if other.height == c.height {
                    assert_eq!(other.proposal, c.proposal);
                }
            }
            seen += 1;
        }
    }
    assert!(seen >= 3);
    assert_eq!(decided.iter().flatten().filter(|c| c.height == 1).count(), 4);
}

#[test]
fn a_decision_follows_the_precommit_of_the_node() {
    let mut bft = started();
    let x = value(7);
    let mut sent = vec![];
    let inputs = vec![
        CoreInput::Vote(vote(VoteType::Precommit, 1, 0, x.clone(), 1)),
        CoreInput::Vote(vote(VoteType::Precommit, 1, 0, x.clone(), 2)),
        CoreInput::Vote(vote(VoteType::Precommit, 1, 0, x.clone(), 3)),
        CoreInput::Proposal(proposal(1, 0, x.clone(), 1)),
        CoreInput::Vote(vote(VoteType::Prevote, 1, 0, x.clone(), 1)),
        CoreInput::Vote(vote(VoteType::Prevote, 1, 0, x.clone(), 2)),
    ];
    for input in inputs {
        for action in bft.process(input) {
            if let Action::Send(out) = action {
                sent.push(out);
            }
        }
    }
    // Three precommits of others were there before the node had precommitted:
    // it decides only once it has cast its own.
    let own = sent
        .iter()
        .position(|out| *out == CoreOutput::Vote(vote(VoteType::Precommit, 1, 0, x.clone(), 0)))
        .expect("the node precommits");
    let decision = sent
        .iter()
        .position(|out| matches!(out, CoreOutput::Commit(_)))
        .expect("the node decides");
    assert!(own < decision);
    match &sent[decision] {
        CoreOutput::Commit(c) => {
            assert_eq!(c.proposal, x);
            assert_eq!(c.lock_votes.len(), 4);
        }
        other => panic!("not a commit: {:?}", other),
    }
}

#[test]
fn the_random_policy_decides_whose_proposal_is_taken() {
    let config = Config { policy: ProposerPolicy::Random, ..Config::default() };
    let x = value(7);
    for height in 0..12u64 {
        let chosen = bft_core::rand::get_index_rand(height + 1, &[1, 1, 1, 1]) as u8;
        for from in 0..4u8 {
            let mut bft = Bft::with_config(addr(9), config);
            bft.process(status(height));
            bft.process(CoreInput::Start);
            let actions = bft.process(CoreInput::Proposal(proposal(height + 1, 0, x.clone(), from)));
            if from == chosen {
                assert_eq!(
                    actions,
                    vec![Action::Send(CoreOutput::Vote(vote(
                        VoteType::Prevote,
                        height + 1,
                        0,
                        x.clone(),
                        9
                    )))]
                );
            } else {
                assert_eq!(actions, vec![]);
            }
        }
    }
}

#[test]
fn the_proposer_votes_for_its_own_value_without_waiting_for_an_answer() {
    let config = Config { async_verify: true, ..Config::default() };
    // Node 1 is the proposer of (1, 0).
    let mut bft = Bft::with_config(addr(1), config);
    bft.process(status(0));
    bft.process(CoreInput::Start);
    let x = value(7);
    assert_eq!(
        bft.process(CoreInput::Feed(Feed { height: 1, proposal: x.clone() })),
        vec![
            Action::Send(CoreOutput::Proposal(proposal(1, 0, x.clone(), 1))),
            Action::Send(CoreOutput::Vote(vote(VoteType::Prevote, 1, 0, x, 1))),
        ]
    );
}

#[test]
fn an_observer_casts_votes_that_count_for_nothing() {
    // Node 9 is no authority: it follows the round, and its votes have no weight.
    let mut bft = Bft::new(addr(9));
    bft.process(status(0));
    bft.process(CoreInput::Start);
    let x = value(7);
    assert_eq!(
        bft.process(CoreInput::Proposal(proposal(1, 0, x.clone(), 1))),
        vec![Action::Send(CoreOutput::Vote(vote(VoteType::Prevote, 1, 0, x.clone(), 9)))]
    );
    assert_eq!(bft.process(CoreInput::Vote(vote(VoteType::Prevote, 1, 0, x.clone(), 0))), vec![]);
    assert_eq!(bft.process(CoreInput::Vote(vote(VoteType::Prevote, 1, 0, x.clone(), 1))), vec![]);
    assert_eq!(
        bft.process(CoreInput::Vote(vote(VoteType::Prevote, 1, 0, x.clone(), 2))),
        vec![Action::Send(CoreOutput::Vote(vote(VoteType::Precommit, 1, 0, x.clone(), 9)))]
    );
    bft.process(CoreInput::Vote(vote(VoteType::Precommit, 1, 0, x.clone(), 0)));
    bft.process(CoreInput::Vote(vote(VoteType::Precommit, 1, 0, x.clone(), 1)));
    let actions = bft.process(CoreInput::Vote(vote(VoteType::Precommit, 1, 0, x.clone(), 2)));
    match &actions[0] {
        Action::Send(CoreOutput::Commit(c)) => {
            assert_eq!(c.lock_votes.len(), 3);
            assert_eq!(c.address, addr(9));
        }
        other => panic!("not a commit: {:?}", other),
    }
}

#[test]
fn start_twice_sets_the_timeout_again_and_proposes_once() {
    // Node 1 is the proposer of (1, 0).
    let mut bft = Bft::new(addr(1));
    bft.process(status(0));
    assert_eq!(bft.process(CoreInput::Start), vec![timer(3000, 1, 0, Step::Propose)]);
    assert_eq!(bft.process(CoreInput::Start), vec![timer(3000, 1, 0, Step::Propose)]);
    bft.process(CoreInput::Feed(Feed { height: 1, proposal: value(7) }));
    assert_eq!(bft.step(), Step::Prevote);
    assert_eq!(bft.process(CoreInput::Start), vec![]);
}

#[test]
fn two_thirds_of_the_precommits_decide_whatever_the_node_precommitted() {
    let mut bft = started();
    let x = value(7);
    // The node precommits nil after two thirds of the prevotes were nil.
    bft.timeout_process(timeout(1, 0, Step::Propose));
    bft.process(CoreInput::Vote(vote(VoteType::Prevote, 1, 0, nil(), 1)));
    assert_eq!(
        bft.process(CoreInput::Vote(vote(VoteType::Prevote, 1, 0, nil(), 2))),
        vec![Action::Send(CoreOutput::Vote(vote(VoteType::Precommit, 1, 0, nil(), 0)))]
    );
    // Three others precommit a value all the same, which honest nodes would not do.
    bft.process(CoreInput::Vote(vote(VoteType::Precommit, 1, 0, x.clone(), 1)));
    bft.process(CoreInput::Vote(vote(VoteType::Precommit, 1, 0, x.clone(), 2)));
    let actions = bft.process(CoreInput::Vote(vote(VoteType::Precommit, 1, 0, x.clone(), 3)));
    match &actions[0] {
        Action::Send(CoreOutput::Commit(c)) => {
            assert_eq!(c.proposal, x);
            assert_eq!(c.lock_votes.len(), 3);
        }
        other => panic!("not a commit: {:?}", other),
    }
    assert_eq!(bft.height(), 2);
}
