use crate::machine::{
    cast_vote, check_precommits, check_prevotes, commit, enter_height, enter_precommit,
    enter_prevote, feed_index, feeds_from, initial, lock_after_prevotes, own_proposal, own_vote,
    prevote_choice, proposal_for, start_round, step, takes_proposal, try_propose, usable_proposal,
    with_counted, with_feed, BftView, EventView,
};
use crate::params::{vote_weight, ParamsView};
use crate::step::Step;
use crate::store::lemma_first_index;
use crate::types::{CoreInputView, FeedView, ProposalView, VoteType, VoteView};
use crate::voteset::{
    ballots_at, classify, lemma_cast_by, lemma_slot_index, slot_index, slots_with_vote, with_vote,
    BallotView, InsertOutcome, SlotView,
};
use vstd::prelude::*;

verus! {

/// Whether a ballot is in its place: a vote for `height`, of the round and
/// kind of its slot, counted with the weight of its voter, which is not 0.
pub open spec fn ballot_ok(height: u64, params: ParamsView, slot: SlotView, b: BallotView) -> bool {
    &&& b.vote.height == height
    &&& b.vote.round == slot.round
    &&& b.vote.vote_type == slot.vote_type
    &&& b.weight > 0
    &&& b.weight == vote_weight(params, b.vote.voter)
}

/// Whether no two of the ballots are of one voter.
pub open spec fn distinct_ballots(ballots: Seq<BallotView>) -> bool {
    forall|i: int, j: int|
        #![trigger ballots[i], ballots[j]]
        0 <= i < j < ballots.len() ==> ballots[i].vote.voter != ballots[j].vote.voter
}

/// Whether every ballot of every slot is in its place, and no voter has
/// two ballots in a slot.
pub open spec fn votes_ok(height: u64, params: ParamsView, slots: Seq<SlotView>) -> bool {
    &&& forall|k: int, i: int|
        0 <= k < slots.len() && 0 <= i < slots[k].ballots.len() ==> ballot_ok(
            height,
            params,
            slots[k],
            #[trigger] slots[k].ballots[i],
        )
    &&& forall|k: int| 0 <= k < slots.len() ==> distinct_ballots((#[trigger] slots[k]).ballots)
}

/// Whether a proposal may be kept at `height`: it is for that height, its
/// value is not nil, and a lock round it names is before its own round.
pub open spec fn proposal_ok(height: u64, p: ProposalView) -> bool {
    &&& p.height == height
    &&& p.content.len() > 0
    &&& (p.lock_round matches Some(lock_round) ==> lock_round < p.round)
}

/// What holds of the state of a node at all times: the commit step is
/// never rested in; a lock is on a value that is not nil, from a round not
/// after the node's own, and from an earlier round while the node is in
/// the propose step; no feed offers nil; the proposals kept are for the
/// node's height; every ballot is in its place; and a decision that is kept
/// is that of the height before.
pub open spec fn inv(s: BftView) -> bool {
    &&& s.step != Step::Commit
    &&& (s.lock matches Some(held) ==> held.round <= s.round && held.proposal.len() > 0 && (
    s.step == Step::Propose ==> held.round < s.round))
    &&& forall|i: int| 0 <= i < s.feeds.len() ==> (#[trigger] s.feeds[i]).proposal.len() > 0
    &&& forall|i: int| 0 <= i < s.proposals.len() ==> proposal_ok(s.height, #[trigger] s.proposals[i])
    &&& votes_ok(s.height, s.params, s.votes)
    &&& (s.commit_proof matches Some(kept) ==> kept.height + 1 == s.height)
}

/// Counting a vote for the node's height keeps every ballot in its place.
pub proof fn lemma_with_counted_ok(s: BftView, vote: VoteView)
    requires
        votes_ok(s.height, s.params, s.votes),
        vote.height == s.height,
    ensures
        votes_ok(s.height, s.params, with_counted(s, vote)),
{
    let w = vote_weight(s.params, vote.voter);
    let slots = s.votes;
    if w > 0 && classify(ballots_at(slots, vote.round, vote.vote_type), vote)
        == InsertOutcome::Added {
        let grown = slots_with_vote(slots, vote, w);
        lemma_slot_index(slots, vote.round, vote.vote_type);
        match slot_index(slots, vote.round, vote.vote_type) {
            Some(at) => {
                let ballots = with_vote(slots[at].ballots, vote, w);
                assert(ballots == slots[at].ballots.push(BallotView { vote, weight: w }));
                lemma_cast_by(slots[at].ballots, vote.voter);
                assert(distinct_ballots(slots[at].ballots));
                assert forall|i: int, j: int|
                    #![trigger ballots[i], ballots[j]]
                    0 <= i < j < ballots.len() implies ballots[i].vote.voter
                    != ballots[j].vote.voter by {
                    if j < slots[at].ballots.len() {
                        assert(ballots[i] == slots[at].ballots[i]);
                        assert(ballots[j] == slots[at].ballots[j]);
                    } else {
                        assert(ballots[i] == slots[at].ballots[i]);
                    }
                }
                assert forall|k: int| 0 <= k < grown.len() implies distinct_ballots(
                    (#[trigger] grown[k]).ballots,
                ) by {
                    if k != at {
                        assert(grown[k] == slots[k]);
                    }
                }
                assert forall|k: int, i: int|
                    0 <= k < grown.len() && 0 <= i < grown[k].ballots.len() implies ballot_ok(
                    s.height,
                    s.params,
                    grown[k],
                    #[trigger] grown[k].ballots[i],
                ) by {
                    if k == at {
                        if i < slots[at].ballots.len() {
                            assert(grown[k].ballots[i] == slots[k].ballots[i]);
                        }
                    } else {
                        assert(grown[k] == slots[k]);
                        assert(ballot_ok(s.height, s.params, slots[k], slots[k].ballots[i]));
                    }
                }
            },
            None => {
                assert forall|k: int| 0 <= k < grown.len() implies distinct_ballots(
                    (#[trigger] grown[k]).ballots,
                ) by {
                    if k < slots.len() {
                        assert(grown[k] == slots[k]);
                    }
                }
                assert forall|k: int, i: int|
                    0 <= k < grown.len() && 0 <= i < grown[k].ballots.len() implies ballot_ok(
                    s.height,
                    s.params,
                    grown[k],
                    #[trigger] grown[k].ballots[i],
                ) by {
                    if k < slots.len() {
                        assert(grown[k] == slots[k]);
                        assert(ballot_ok(s.height, s.params, slots[k], slots[k].ballots[i]));
                    }
                }
            },
        }
    }
}

/// The feeds that are kept from a height on offer nil no more than those
/// they are taken from.
pub proof fn lemma_feeds_from_ok(feeds: Seq<FeedView>, height: u64)
    requires
        forall|i: int| 0 <= i < feeds.len() ==> (#[trigger] feeds[i]).proposal.len() > 0,
    ensures
        forall|i: int|
            0 <= i < feeds_from(feeds, height).len() ==> (#[trigger] feeds_from(
                feeds,
                height,
            )[i]).proposal.len() > 0,
    decreases feeds.len(),
{
    if feeds.len() > 0 {
        let before = feeds.drop_last();
        assert forall|i: int| 0 <= i < before.len() implies (#[trigger] before[i]).proposal.len()
            > 0 by {
            assert(before[i] == feeds[i]);
        }
        lemma_feeds_from_ok(before, height);
        let kept = feeds_from(feeds, height);
        assert forall|i: int| 0 <= i < kept.len() implies (#[trigger] kept[i]).proposal.len()
            > 0 by {
            if i < feeds_from(before, height).len() {
                assert(kept[i] == feeds_from(before, height)[i]);
            } else {
                assert(kept[i] == feeds[feeds.len() - 1]);
            }
        }
    }
}

/// Casting the node's vote keeps the invariant.
pub proof fn lemma_cast_vote_inv(s: BftView, vote_type: VoteType, value: Seq<u8>)
    requires
        inv(s),
    ensures
        inv(cast_vote(s, vote_type, value).state),
{
    lemma_with_counted_ok(s, own_vote(s, vote_type, value));
}

/// Moving to a height gives a state of which the invariant holds, where
/// no feed offered nil.
pub proof fn lemma_enter_height_inv(s: BftView, height: u64)
    requires
        forall|i: int| 0 <= i < s.feeds.len() ==> (#[trigger] s.feeds[i]).proposal.len() > 0,
    ensures
        inv(enter_height(s, height).state),
{
    lemma_feeds_from_ok(s.feeds, height);
}

/// Committing keeps the invariant.
pub proof fn lemma_commit_inv(s: BftView, value: Seq<u8>)
    requires
        inv(s),
        s.height < u64::MAX,
    ensures
        inv(commit(s, value).state),
{
    lemma_enter_height_inv(s, (s.height + 1) as u64);
}

/// Looking at the precommits keeps the invariant.
pub proof fn lemma_check_precommits_inv(s: BftView)
    requires
        inv(s),
        s.height < u64::MAX,
    ensures
        inv(check_precommits(s).state),
{
    assert forall|value: Seq<u8>| inv(#[trigger] commit(s, value).state) by {
        lemma_commit_inv(s, value);
    }
}

/// Going to the precommit step keeps the invariant.
pub proof fn lemma_enter_precommit_inv(s: BftView, value: Seq<u8>)
    requires
        inv(s),
        s.height < u64::MAX,
    ensures
        inv(enter_precommit(s, value).state),
{
    let locked = BftView { step: Step::Precommit, lock: lock_after_prevotes(s, value), ..s };
    assert(inv(locked));
    lemma_cast_vote_inv(locked, VoteType::Precommit, value);
    lemma_check_precommits_inv(cast_vote(locked, VoteType::Precommit, value).state);
}

/// Looking at the prevotes keeps the invariant.
pub proof fn lemma_check_prevotes_inv(s: BftView)
    requires
        inv(s),
        s.height < u64::MAX,
    ensures
        inv(check_prevotes(s).state),
{
    assert forall|value: Seq<u8>| inv(#[trigger] enter_precommit(s, value).state) by {
        lemma_enter_precommit_inv(s, value);
    }
}

/// The proposal that may be voted for is one of those kept, for the
/// node's round.
pub proof fn lemma_usable_proposal(s: BftView)
    ensures
        usable_proposal(s) matches Some(p) ==> p.round == s.round && s.proposals.contains(p),
{
    lemma_first_index(s.proposals, proposal_for(s.round));
}

/// Going to the prevote step keeps the invariant.
pub proof fn lemma_enter_prevote_inv(s: BftView)
    requires
        inv(s),
        s.height < u64::MAX,
    ensures
        inv(enter_prevote(s).state),
{
    lemma_usable_proposal(s);
    let choice = prevote_choice(s.lock, usable_proposal(s));
    let chosen = BftView { step: Step::Prevote, lock: choice.1, ..s };
    match usable_proposal(s) {
        Some(p) => {
            let i = choose|i: int| 0 <= i < s.proposals.len() && s.proposals[i] == p;
            assert(proposal_ok(s.height, s.proposals[i]));
        },
        None => {},
    }
    assert(inv(chosen));
    lemma_cast_vote_inv(chosen, VoteType::Prevote, choice.0);
    lemma_check_prevotes_inv(cast_vote(chosen, VoteType::Prevote, choice.0).state);
}

/// What the node would propose may be kept at its height.
pub proof fn lemma_own_proposal_ok(s: BftView)
    requires
        inv(s),
        s.step == Step::Propose,
    ensures
        own_proposal(s) matches Some(p) ==> proposal_ok(s.height, p) && p.round == s.round,
{
    if s.lock is None {
        lemma_first_index(s.feeds, crate::machine::feed_for(s.height));
    }
}

/// Proposing keeps the invariant.
pub proof fn lemma_try_propose_inv(s: BftView)
    requires
        inv(s),
        s.height < u64::MAX,
    ensures
        inv(try_propose(s).state),
{
    if crate::machine::may_propose(s) {
        lemma_own_proposal_ok(s);
        lemma_try_propose_inv_when(s);
    }
}

/// Proposing keeps the invariant, where the node is to propose.
proof fn lemma_try_propose_inv_when(s: BftView)
    requires
        inv(s),
        s.height < u64::MAX,
        crate::machine::may_propose(s),
        own_proposal(s) matches Some(p) ==> proposal_ok(s.height, p) && p.round == s.round,
    ensures
        inv(try_propose(s).state),
{
    match own_proposal(s) {
        Some(p) => {
            let kept = BftView {
                proposals: s.proposals.push(p),
                verified: crate::machine::with_own_verdict(s, p.content),
                ..s
            };
            assert forall|i: int| 0 <= i < kept.proposals.len() implies proposal_ok(
                kept.height,
                #[trigger] kept.proposals[i],
            ) by {
                if i < s.proposals.len() {
                    assert(kept.proposals[i] == s.proposals[i]);
                }
            }
            assert(inv(kept));
            lemma_enter_prevote_inv(kept);
        },
        None => {},
    }
}

/// Starting a round keeps the invariant.
pub proof fn lemma_start_round_inv(s: BftView)
    requires
        inv(BftView { step: Step::Propose, ..s }),
        s.height < u64::MAX,
    ensures
        inv(start_round(s).state),
{
    lemma_try_propose_inv(BftView { step: Step::Propose, ..s });
}

/// Storing a feed whose value is not nil leaves no feed that offers nil.
pub proof fn lemma_with_feed_ok(feeds: Seq<FeedView>, feed: FeedView)
    requires
        forall|i: int| 0 <= i < feeds.len() ==> (#[trigger] feeds[i]).proposal.len() > 0,
        feed.proposal.len() > 0,
    ensures
        forall|i: int|
            0 <= i < with_feed(feeds, feed).len() ==> (#[trigger] with_feed(
                feeds,
                feed,
            )[i]).proposal.len() > 0,
{
    lemma_first_index(feeds, crate::machine::feed_for(feed.height));
    let stored = with_feed(feeds, feed);
    assert forall|i: int| 0 <= i < stored.len() implies (#[trigger] stored[i]).proposal.len()
        > 0 by {
        match feed_index(feeds, feed.height) {
            Some(k) => {
                if i != k {
                    assert(stored[i] == feeds[i]);
                }
            },
            None => {
                if i < feeds.len() {
                    assert(stored[i] == feeds[i]);
                }
            },
        }
    }
}

/// Whether an event can be handed to a node in the state `s`: the numbers
/// of the height and round that may follow fit in 64 bits.
pub open spec fn accepts(s: BftView, event: EventView) -> bool {
    &&& s.height < u64::MAX
    &&& (event matches EventView::Input(CoreInputView::Status(status)) ==> status.height
        < u64::MAX)
    &&& (event is Timeout ==> s.round < u64::MAX)
}

/// Every event keeps the invariant.
pub proof fn lemma_step_inv(s: BftView, event: EventView)
    requires
        inv(s),
        accepts(s, event),
    ensures
        inv(step(s, event).state),
{
    reveal(step);
    match event {
        EventView::Input(msg) => {
            match msg {
                CoreInputView::Proposal(p) => {
                    if takes_proposal(s, p) {
                        let kept = BftView { proposals: s.proposals.push(p), ..s };
                        assert forall|i: int| 0 <= i < kept.proposals.len() implies proposal_ok(
                            kept.height,
                            #[trigger] kept.proposals[i],
                        ) by {
                            if i < s.proposals.len() {
                                assert(kept.proposals[i] == s.proposals[i]);
                            }
                        }
                        assert(inv(kept));
                        lemma_enter_prevote_inv(kept);
                    }
                },
                CoreInputView::Vote(v) => {
                    let counted = BftView { votes: with_counted(s, v), ..s };
                    if v.height == s.height {
                        lemma_with_counted_ok(s, v);
                        assert(inv(counted));
                        lemma_check_prevotes_inv(counted);
                        lemma_check_precommits_inv(counted);
                    }
                },
                CoreInputView::Feed(f) => {
                    if f.proposal.len() > 0 {
                        lemma_with_feed_ok(s.feeds, f);
                        let kept = BftView { feeds: with_feed(s.feeds, f), ..s };
                        assert(inv(kept));
                        lemma_try_propose_inv(kept);
                    }
                },
                CoreInputView::VerifyResp(r) => {
                    let kept = BftView { verified: s.verified.push(r), ..s };
                    assert(inv(kept));
                    lemma_enter_prevote_inv(kept);
                },
                CoreInputView::Status(status) => {
                    lemma_enter_height_inv(
                        BftView { params: crate::params::installed(s.params, status), ..s },
                        (status.height + 1) as u64,
                    );
                },
                CoreInputView::Commit(_) => {},
                CoreInputView::Pause => {},
                CoreInputView::Start => {
                    let started = BftView { running: true, ..s };
                    assert(inv(started));
                    if started.step == Step::Propose {
                        lemma_start_round_inv(started);
                    }
                },
            }
        },
        EventView::Timeout(info) => {
            lemma_enter_prevote_inv(s);
            let next = BftView { round: (s.round + 1) as u64, ..s };
            assert(inv(BftView { step: Step::Propose, ..next }));
            lemma_start_round_inv(next);
        },
    }
}

/// The invariant holds of a node that has seen nothing.
pub proof fn lemma_initial_inv(params: ParamsView)
    ensures
        inv(initial(params)),
{
}

} // verus!
