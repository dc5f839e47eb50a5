use crate::params::{
    installed, is_proposer, proves_lock, timeout, total_vote_weight, vote_weight, ParamsView,
};
use crate::step::Step;
use crate::store::first_index;
use crate::timer::{TimeoutInfo, TimerRequest};
use crate::types::{
    CommitView, CoreInputView, CoreOutputView, FeedView, LockView, ProposalView, StatusView,
    VerifyRespView, VoteType, VoteView,
};
use crate::voteset::{
    ballots_at, classify, is_quorum, quorum_value, slots_with_vote, total_of, votes_for,
    InsertOutcome, SlotView,
};
use vstd::prelude::*;

verus! {

/// The state of a node.
pub struct BftView {
    /// The height that the node works on.
    pub height: u64,
    /// The round of that height.
    pub round: u64,
    /// The step of that round.
    pub step: Step,
    /// Whether the node takes part.
    pub running: bool,
    /// The value that the node is locked on, if it is.
    pub lock: Option<LockView>,
    /// The values that the host has offered, one for a height.
    pub feeds: Seq<FeedView>,
    /// The proposals received for the height, one for a round.
    pub proposals: Seq<ProposalView>,
    /// The host's answers on values proposed for the height, one for a value.
    pub verified: Seq<VerifyRespView>,
    /// The votes received for the height.
    pub votes: Seq<SlotView>,
    /// The decision of the height before, while it is kept.
    pub commit_proof: Option<CommitView>,
    /// The parameters of the node.
    pub params: ParamsView,
}

/// What a node asks of its surroundings.
pub enum ActionView {
    /// Hand a message to the host.
    Send(CoreOutputView),
    /// Wake the node later.
    SetTimer(TimerRequest),
}

/// What a node does on an event: the state it is left in, and what it asks
/// of its surroundings, in order.
pub struct Outcome {
    pub state: BftView,
    pub actions: Seq<ActionView>,
}

/// What a node is handed: a message from the host, or a timeout that is due.
pub enum EventView {
    Input(CoreInputView),
    Timeout(TimeoutInfo),
}

/// Whether a feed is for `height`.
pub open spec fn feed_for(height: u64) -> spec_fn(FeedView) -> bool {
    |f: FeedView| f.height == height
}

/// Whether a proposal is for `round`.
pub open spec fn proposal_for(round: u64) -> spec_fn(ProposalView) -> bool {
    |p: ProposalView| p.round == round
}

/// Whether an answer of the host is on `content`.
pub open spec fn verdict_for(content: Seq<u8>) -> spec_fn(VerifyRespView) -> bool {
    |r: VerifyRespView| r.proposal == content
}

/// The place of the feed for `height`, if there is one.
pub open spec fn feed_index(feeds: Seq<FeedView>, height: u64) -> Option<int> {
    first_index(feeds, feed_for(height))
}

/// The value that the host has offered for `height`, if any.
pub open spec fn feed_at(feeds: Seq<FeedView>, height: u64) -> Option<Seq<u8>> {
    match feed_index(feeds, height) {
        Some(k) => Some(feeds[k].proposal),
        None => None,
    }
}

/// The feeds once `feed` is stored: in the place of the one for its height
/// where there is one, else behind the others.
pub open spec fn with_feed(feeds: Seq<FeedView>, feed: FeedView) -> Seq<FeedView> {
    match feed_index(feeds, feed.height) {
        Some(k) => feeds.update(k, feed),
        None => feeds.push(feed),
    }
}

/// The feeds for `height` and the heights after it, in order.
pub open spec fn feeds_from(feeds: Seq<FeedView>, height: u64) -> Seq<FeedView>
    decreases feeds.len(),
{
    if feeds.len() == 0 {
        Seq::empty()
    } else {
        let before = feeds_from(feeds.drop_last(), height);
        if feeds.last().height >= height {
            before.push(feeds.last())
        } else {
            before
        }
    }
}

/// The proposal received for `round`, if any.
pub open spec fn proposal_at(proposals: Seq<ProposalView>, round: u64) -> Option<ProposalView> {
    match first_index(proposals, proposal_for(round)) {
        Some(k) => Some(proposals[k]),
        None => None,
    }
}

/// The host's answer on `content`, if it gave one.
pub open spec fn verdict_on(verified: Seq<VerifyRespView>, content: Seq<u8>) -> Option<bool> {
    match first_index(verified, verdict_for(content)) {
        Some(k) => Some(verified[k].is_pass),
        None => None,
    }
}

/// Nothing happens.
pub open spec fn stay(s: BftView) -> Outcome {
    Outcome { state: s, actions: Seq::empty() }
}

/// The outcome `o`, with `actions` asked before its own.
pub open spec fn after(actions: Seq<ActionView>, o: Outcome) -> Outcome {
    Outcome { state: o.state, actions: actions + o.actions }
}

/// The request for the timeout of `step` in the round of `s`.
pub open spec fn timer_action(s: BftView, step: Step) -> ActionView {
    ActionView::SetTimer(
        TimerRequest { delay: timeout(s.params, s.round), height: s.height, round: s.round, step },
    )
}

/// The node's own vote for `value` in its round.
pub open spec fn own_vote(s: BftView, vote_type: VoteType, value: Seq<u8>) -> VoteView {
    VoteView { vote_type, height: s.height, round: s.round, proposal: value, voter: s.params.address }
}

/// The votes once `vote` has come in: counted where the voter is an
/// authority without a vote of that kind in that round, else as before.
pub open spec fn with_counted(s: BftView, vote: VoteView) -> Seq<SlotView> {
    if vote_weight(s.params, vote.voter) > 0 && classify(
        ballots_at(s.votes, vote.round, vote.vote_type),
        vote,
    ) == InsertOutcome::Added {
        slots_with_vote(s.votes, vote, vote_weight(s.params, vote.voter))
    } else {
        s.votes
    }
}

/// The node casts its vote for `value`: the vote goes out, and is counted
/// like a vote that comes in.
pub open spec fn cast_vote(s: BftView, vote_type: VoteType, value: Seq<u8>) -> Outcome {
    let vote = own_vote(s, vote_type, value);
    Outcome {
        state: BftView { votes: with_counted(s, vote), ..s },
        actions: seq![ActionView::Send(CoreOutputView::Vote(vote))],
    }
}

/// The proposal of the round that may be voted for: the one received for
/// the round, unless proposals wait for the host's answer and the host has
/// not passed its value.
pub open spec fn usable_proposal(s: BftView) -> Option<ProposalView> {
    match proposal_at(s.proposals, s.round) {
        Some(p) => if !s.params.async_verify || verdict_on(s.verified, p.content) == Some(true) {
            Some(p)
        } else {
            None
        },
        None => None,
    }
}

/// The value to prevote, and the lock to hold from then on. A locked node
/// votes for its locked value where that is proposed; it takes over the
/// value and lock of a proposal whose lock round is not before its own;
/// else it votes nil. A node without a lock votes for what is proposed,
/// and nil where nothing is.
pub open spec fn prevote_choice(lock: Option<LockView>, proposal: Option<ProposalView>) -> (
    Seq<u8>,
    Option<LockView>,
) {
    match lock {
        Some(held) => match proposal {
            Some(p) => if p.content == held.proposal {
                (held.proposal, lock)
            } else if p.lock_round is Some && p.lock_round->0 >= held.round {
                (
                    p.content,
                    Some(
                        LockView {
                            proposal: p.content,
                            round: p.lock_round->0,
                            votes: p.lock_votes,
                        },
                    ),
                )
            } else {
                (Seq::empty(), lock)
            },
            None => (Seq::empty(), lock),
        },
        None => match proposal {
            Some(p) => (p.content, None),
            None => (Seq::empty(), None),
        },
    }
}

/// From the propose step to the prevote step: the node casts the prevote
/// that `prevote_choice` gives, then looks at the prevotes of the round.
pub open spec fn enter_prevote(s: BftView) -> Outcome {
    let choice = prevote_choice(s.lock, usable_proposal(s));
    let cast = cast_vote(
        BftView { step: Step::Prevote, lock: choice.1, ..s },
        VoteType::Prevote,
        choice.0,
    );
    after(cast.actions, check_prevotes(cast.state))
}

/// The node looks at the prevotes of its round. Where one value has two
/// thirds of the weight, it goes on to precommit; where all prevotes
/// together have two thirds and it has not waited yet, it waits.
pub open spec fn check_prevotes(s: BftView) -> Outcome {
    let ballots = ballots_at(s.votes, s.round, VoteType::Prevote);
    let total = total_vote_weight(s.params);
    match quorum_value(ballots, total) {
        Some(value) => enter_precommit(s, value),
        None => if s.step == Step::Prevote && is_quorum(total_of(ballots), total) {
            Outcome {
                state: BftView { step: Step::PrevoteWait, ..s },
                actions: seq![timer_action(s, Step::PrevoteWait)],
            }
        } else {
            stay(s)
        },
    }
}

/// The lock after two thirds of the prevotes of the round were for
/// `value`: on the value with those prevotes where it is not nil; where it
/// is nil, the lock stays as it is. A lock is never given up within a
/// height: with a lock given up on nil, a value could be decided after
/// another had been.
pub open spec fn lock_after_prevotes(s: BftView, value: Seq<u8>) -> Option<LockView> {
    if value.len() > 0 {
        Some(
            LockView {
                proposal: value,
                round: s.round,
                votes: votes_for(ballots_at(s.votes, s.round, VoteType::Prevote), value),
            },
        )
    } else {
        s.lock
    }
}

/// To the precommit step, after two thirds of the prevotes of the round
/// were for `value`: the node locks as `lock_after_prevotes` says, casts
/// its precommit for the value, then looks at the precommits of the round.
pub open spec fn enter_precommit(s: BftView, value: Seq<u8>) -> Outcome {
    let cast = cast_vote(
        BftView { step: Step::Precommit, lock: lock_after_prevotes(s, value), ..s },
        VoteType::Precommit,
        value,
    );
    after(cast.actions, check_precommits(cast.state))
}

/// The node looks at the precommits of its round. Where a value that is
/// not nil has two thirds of the weight, the node commits it; where all
/// precommits together have two thirds and it has not waited yet, it waits.
pub open spec fn check_precommits(s: BftView) -> Outcome {
    let ballots = ballots_at(s.votes, s.round, VoteType::Precommit);
    let total = total_vote_weight(s.params);
    match quorum_value(ballots, total) {
        Some(value) if value.len() > 0 => commit(s, value),
        _ => if s.step == Step::Precommit && is_quorum(total_of(ballots), total) {
            Outcome {
                state: BftView { step: Step::PrecommitWait, ..s },
                actions: seq![timer_action(s, Step::PrecommitWait)],
            }
        } else {
            stay(s)
        },
    }
}

/// The decision on `value` in the round of `s`, with the precommits for it.
pub open spec fn decision(s: BftView, value: Seq<u8>) -> CommitView {
    CommitView {
        height: s.height,
        round: s.round,
        proposal: value,
        lock_votes: votes_for(ballots_at(s.votes, s.round, VoteType::Precommit), value),
        address: s.params.address,
    }
}

/// The node commits `value`: the decision goes out, the node moves to the
/// next height, and keeps the decision as its proof.
pub open spec fn commit(s: BftView, value: Seq<u8>) -> Outcome {
    let moved = enter_height(s, (s.height + 1) as u64);
    Outcome {
        state: BftView { commit_proof: Some(decision(s, value)), ..moved.state },
        actions: seq![ActionView::Send(CoreOutputView::Commit(decision(s, value)))] + moved.actions,
    }
}

/// The node moves to `height`: round 0, propose step, no lock; what it
/// kept for earlier heights is dropped. It asks the host for the value to
/// propose, and for a timeout where it takes part and knows the
/// authorities.
pub open spec fn enter_height(s: BftView, height: u64) -> Outcome {
    let state = BftView {
        height,
        round: 0,
        step: Step::Propose,
        lock: None,
        feeds: feeds_from(s.feeds, height),
        proposals: Seq::empty(),
        verified: Seq::empty(),
        votes: Seq::empty(),
        commit_proof: None,
        ..s
    };
    Outcome {
        state,
        actions: if s.running && s.params.authorities.len() > 0 {
            seq![
                ActionView::Send(CoreOutputView::GetProposalRequest(height)),
                timer_action(state, Step::Propose),
            ]
        } else {
            seq![ActionView::Send(CoreOutputView::GetProposalRequest(height))]
        },
    }
}

/// What the node would propose in its round: its locked value with the
/// lock's round and votes where it is locked, else the value that the host
/// has offered for the height; nothing where there is neither.
pub open spec fn own_proposal(s: BftView) -> Option<ProposalView> {
    match s.lock {
        Some(held) => Some(
            ProposalView {
                height: s.height,
                round: s.round,
                content: held.proposal,
                lock_round: Some(held.round),
                lock_votes: held.votes,
                proposer: s.params.address,
            },
        ),
        None => match feed_at(s.feeds, s.height) {
            Some(value) => Some(
                ProposalView {
                    height: s.height,
                    round: s.round,
                    content: value,
                    lock_round: None,
                    lock_votes: Seq::empty(),
                    proposer: s.params.address,
                },
            ),
            None => None,
        },
    }
}

/// The host's answers once the node's own value counts as passed, unless
/// the host has answered on it.
pub open spec fn with_own_verdict(s: BftView, content: Seq<u8>) -> Seq<VerifyRespView> {
    if s.params.async_verify && verdict_on(s.verified, content) is None {
        s.verified.push(VerifyRespView { is_pass: true, proposal: content })
    } else {
        s.verified
    }
}

/// Whether the node is to propose now: it is in the propose step, it is
/// the proposer of the round, and no proposal for the round is there yet.
pub open spec fn may_propose(s: BftView) -> bool {
    &&& s.step == Step::Propose
    &&& is_proposer(s.params, s.height, s.round, s.params.address)
    &&& proposal_at(s.proposals, s.round) is None
}

/// The node proposes where it is to and has something to propose: the
/// proposal goes out and is kept, and the node goes on to prevote.
pub open spec fn try_propose(s: BftView) -> Outcome {
    if may_propose(s) {
        match own_proposal(s) {
            Some(p) => after(
                seq![ActionView::Send(CoreOutputView::Proposal(p))],
                enter_prevote(
                    BftView {
                        proposals: s.proposals.push(p),
                        verified: with_own_verdict(s, p.content),
                        ..s
                    },
                ),
            ),
            None => stay(s),
        }
    } else {
        stay(s)
    }
}

/// The node starts its round: propose step, a timeout for it, and its own
/// proposal where it is to make one.
pub open spec fn start_round(s: BftView) -> Outcome {
    let state = BftView { step: Step::Propose, ..s };
    after(seq![timer_action(state, Step::Propose)], try_propose(state))
}

/// The host starts the node: it takes part from now on, and starts its
/// round where it knows the authorities and is in the propose step.
pub open spec fn on_start(s: BftView) -> Outcome {
    let state = BftView { running: true, ..s };
    if state.params.authorities.len() > 0 && state.step == Step::Propose {
        start_round(state)
    } else {
        stay(state)
    }
}

/// The host pauses the node: it takes no part from now on.
pub open spec fn on_pause(s: BftView) -> Outcome {
    stay(BftView { running: false, ..s })
}

/// A status: one for a height before the node's own is dropped; any other
/// sets the authorities and moves the node to the height after it.
pub open spec fn on_status(s: BftView, status: StatusView) -> Outcome {
    if status.height < s.height {
        stay(s)
    } else {
        enter_height(
            BftView { params: installed(s.params, status), ..s },
            (status.height + 1) as u64,
        )
    }
}

/// A feed: kept unless the node takes no part, the value is nil or the
/// height is past; where it is for the node's height, the node proposes
/// where it is to.
pub open spec fn on_feed(s: BftView, feed: FeedView) -> Outcome {
    if !s.running || feed.proposal.len() == 0 || feed.height < s.height {
        stay(s)
    } else {
        let state = BftView { feeds: with_feed(s.feeds, feed), ..s };
        if feed.height == s.height {
            try_propose(state)
        } else {
            stay(state)
        }
    }
}

/// Whether a proposal is taken: the node takes part, the proposal is for
/// its height, from the proposer of its round, the first for that round,
/// its value is not nil, and where it names a lock round it proves it.
pub open spec fn takes_proposal(s: BftView, p: ProposalView) -> bool {
    &&& s.running
    &&& p.height == s.height
    &&& p.content.len() > 0
    &&& is_proposer(s.params, p.height, p.round, p.proposer)
    &&& proposal_at(s.proposals, p.round) is None
    &&& (p.lock_round is Some ==> proves_lock(s.params, p))
}

/// A proposal: one that is not taken is dropped. One that is taken is
/// kept; where it is for the node's round and the node is in the propose
/// step, the node goes on to prevote, unless it has to wait for the host's
/// answer on the value.
pub open spec fn on_proposal(s: BftView, p: ProposalView) -> Outcome {
    if !takes_proposal(s, p) {
        stay(s)
    } else {
        let state = BftView { proposals: s.proposals.push(p), ..s };
        if p.round == s.round && s.step == Step::Propose && (!s.params.async_verify || verdict_on(
            s.verified,
            p.content,
        ) is Some) {
            enter_prevote(state)
        } else {
            stay(state)
        }
    }
}

/// The host's answer on a value: dropped unless the node takes part, waits
/// for such answers and has none on the value yet. Else it is kept; where
/// the node is in the propose step and the value is the one proposed for
/// its round, the node goes on to prevote.
pub open spec fn on_verify_resp(s: BftView, resp: VerifyRespView) -> Outcome {
    if !s.running || !s.params.async_verify || verdict_on(s.verified, resp.proposal) is Some {
        stay(s)
    } else {
        let state = BftView { verified: s.verified.push(resp), ..s };
        if s.step == Step::Propose && (match proposal_at(s.proposals, s.round) {
            Some(p) => p.content == resp.proposal,
            None => false,
        }) {
            enter_prevote(state)
        } else {
            stay(state)
        }
    }
}

/// Whether a vote is counted: the node takes part, the vote is for its
/// height and of an authority, and the voter has no vote of that kind in
/// that round yet.
pub open spec fn takes_vote(s: BftView, vote: VoteView) -> bool {
    &&& s.running
    &&& vote.height == s.height
    &&& vote_weight(s.params, vote.voter) > 0
    &&& classify(ballots_at(s.votes, vote.round, vote.vote_type), vote) == InsertOutcome::Added
}

/// A vote: one that is not counted is dropped. After one that is counted
/// for its round, the node looks at the votes of that kind where it has
/// cast its own of that kind and not gone further.
pub open spec fn on_vote(s: BftView, vote: VoteView) -> Outcome {
    if !takes_vote(s, vote) {
        stay(s)
    } else {
        let state = BftView { votes: with_counted(s, vote), ..s };
        if vote.round != s.round {
            stay(state)
        } else if vote.vote_type == VoteType::Prevote && (s.step == Step::Prevote || s.step
            == Step::PrevoteWait) {
            check_prevotes(state)
        } else if vote.vote_type == VoteType::Precommit && (s.step == Step::Precommit || s.step
            == Step::PrecommitWait) {
            check_precommits(state)
        } else {
            stay(state)
        }
    }
}

/// A timeout that is due: dropped unless the node takes part and the
/// timeout is for its height, round and step. In the propose step the node
/// goes on to prevote; in any other it starts the next round.
pub open spec fn on_timeout(s: BftView, info: TimeoutInfo) -> Outcome {
    if !s.running || info.height != s.height || info.round != s.round || info.step != s.step {
        stay(s)
    } else if s.step == Step::Propose {
        enter_prevote(s)
    } else {
        start_round(BftView { round: (s.round + 1) as u64, ..s })
    }
}

/// What the node does on a message from the host.
pub open spec fn on_input(s: BftView, msg: CoreInputView) -> Outcome {
    match msg {
        CoreInputView::Proposal(p) => on_proposal(s, p),
        CoreInputView::Vote(v) => on_vote(s, v),
        CoreInputView::Feed(f) => on_feed(s, f),
        CoreInputView::VerifyResp(r) => on_verify_resp(s, r),
        CoreInputView::Status(st) => on_status(s, st),
        CoreInputView::Commit(_) => stay(s),
        CoreInputView::Pause => on_pause(s),
        CoreInputView::Start => on_start(s),
    }
}

/// What the node does on an event.
#[verifier::opaque]
pub open spec fn step(s: BftView, event: EventView) -> Outcome {
    match event {
        EventView::Input(msg) => on_input(s, msg),
        EventView::Timeout(info) => on_timeout(s, info),
    }
}

/// The state of a node with the parameters `params` that has seen nothing.
pub open spec fn initial(params: ParamsView) -> BftView {
    BftView {
        height: 0,
        round: 0,
        step: Step::Propose,
        running: false,
        lock: None,
        feeds: Seq::empty(),
        proposals: Seq::empty(),
        verified: Seq::empty(),
        votes: Seq::empty(),
        commit_proof: None,
        params,
    }
}

} // verus!
