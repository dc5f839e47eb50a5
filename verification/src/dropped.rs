use crate::always::{inv, lemma_with_counted_ok};
use crate::machine::{
    check_precommits, check_prevotes, on_proposal, on_status, on_vote, stay, takes_vote,
    with_counted, ActionView, BftView,
};
use crate::params::{installed, is_proposer};
use crate::safety::{
    lemma_check_precommits_shape, lemma_check_prevotes_shape, lemma_extends_keeps,
    lemma_with_counted_keeps, past_precommit,
};
use crate::step::Step;
use crate::types::{CoreOutputView, ProposalView, StatusView, VoteType, VoteView};
use crate::voteset::{ballots_at, cast_by};
use vstd::prelude::*;

verus! {

/// A proposal that is not from the proposer of its round is dropped: the
/// state stays as it is, and nothing is asked.
pub proof fn lemma_non_proposer_dropped(s: BftView, p: ProposalView)
    requires
        !is_proposer(s.params, p.height, p.round, p.proposer),
    ensures
        on_proposal(s, p) == stay(s),
{
}

/// A status for a height before the node's own is dropped: the state
/// stays as it is, and nothing is asked.
pub proof fn lemma_stale_status_dropped(s: BftView, status: StatusView)
    requires
        status.height < s.height,
    ensures
        on_status(s, status) == stay(s),
{
}

/// A status for the node's height or a later one moves the node to the
/// propose step of round 0 of the height after that of the status, without
/// a lock and with the authorities of the status; the first thing the node
/// asks for is the value to propose at that height.
pub proof fn lemma_status_moves(s: BftView, status: StatusView)
    requires
        s.height <= status.height < u64::MAX,
    ensures
        on_status(s, status).state.height == status.height + 1,
        on_status(s, status).state.round == 0,
        on_status(s, status).state.step == Step::Propose,
        on_status(s, status).state.lock is None,
        on_status(s, status).state.params == installed(s.params, status),
        on_status(s, status).actions.len() >= 1,
        on_status(s, status).actions[0] == ActionView::Send(
            CoreOutputView::GetProposalRequest((status.height + 1) as u64),
        ),
{
}

/// A vote that is handed in a second time is dropped: the state stays as
/// the first time left it, and nothing is asked.
pub proof fn lemma_vote_twice(s: BftView, vote: VoteView)
    requires
        inv(s),
        s.height < u64::MAX,
    ensures
        on_vote(on_vote(s, vote).state, vote) == stay(on_vote(s, vote).state),
{
    if takes_vote(s, vote) {
        let counted = BftView { votes: with_counted(s, vote), ..s };
        lemma_with_counted_ok(s, vote);
        lemma_with_counted_keeps(s, vote);
        assert(inv(counted));
        assert(cast_by(ballots_at(counted.votes, vote.round, vote.vote_type), vote.voter) is Some);
        let o = on_vote(s, vote);
        if vote.round == s.round && vote.vote_type == VoteType::Prevote && (s.step
            == Step::Prevote || s.step == Step::PrevoteWait) {
            lemma_check_prevotes_shape(counted);
            assert(o == check_prevotes(counted));
        } else if vote.round == s.round && vote.vote_type == VoteType::Precommit
            && past_precommit(s.step) {
            lemma_check_precommits_shape(counted);
            assert(o == check_precommits(counted));
        } else {
            assert(o == stay(counted));
        }
        if o.state.height == s.height {
            lemma_extends_keeps(
                ballots_at(counted.votes, vote.round, vote.vote_type),
                ballots_at(o.state.votes, vote.round, vote.vote_type),
                vote.voter,
            );
        }
    }
}

} // verus!
