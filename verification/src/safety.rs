use crate::always::{accepts, ballot_ok, distinct_ballots, inv, lemma_cast_vote_inv, lemma_step_inv};
use crate::machine::{
    after, cast_vote, check_precommits, check_prevotes, commit, decision, enter_height,
    enter_precommit, enter_prevote, lock_after_prevotes, own_proposal, prevote_choice, start_round,
    stay, step, takes_proposal, takes_vote, try_propose, usable_proposal, with_counted,
    with_own_verdict, ActionView, BftView, EventView, Outcome,
};
use crate::params::{
    distinct_voters, installed, total_vote_weight, vote_weight, votes_weight, ParamsView,
};
use crate::step::Step;
use crate::types::{CommitView, CoreInputView, CoreOutputView, LockView, VoteType, VoteView};
use crate::voteset::{
    ballots_at, cast_by, classify, first_quorum, is_quorum, lemma_slot_index, quorum_value,
    slot_index, slots_with_vote, tally_values, votes_for, weight_for, BallotView, InsertOutcome,
    SlotView,
};
use vstd::prelude::*;

verus! {

/// The decisions among the actions, in order.
pub open spec fn commits_of(actions: Seq<ActionView>) -> Seq<CommitView>
    decreases actions.len(),
{
    if actions.len() == 0 {
        Seq::empty()
    } else {
        let before = commits_of(actions.drop_last());
        match actions.last() {
            ActionView::Send(CoreOutputView::Commit(c)) => before.push(c),
            _ => before,
        }
    }
}

/// The decisions among two runs of actions are those of the first, then
/// those of the second.
pub proof fn lemma_commits_of_concat(a: Seq<ActionView>, b: Seq<ActionView>)
    ensures
        commits_of(a + b) == commits_of(a) + commits_of(b),
    decreases b.len(),
{
    if b.len() == 0 {
        assert(a + b =~= a);
        assert(commits_of(a) + commits_of(b) =~= commits_of(a));
    } else {
        assert((a + b).drop_last() =~= a + b.drop_last());
        assert((a + b).last() == b.last());
        lemma_commits_of_concat(a, b.drop_last());
        assert(commits_of(a + b) =~= commits_of(a) + commits_of(b));
    }
}

/// Whether a decision is justified to a node with the parameters `params`:
/// its value is not nil, and the votes it carries are precommits of
/// different voters for that value at its height and round, with two
/// thirds of the weight of all authorities or more.
pub open spec fn justified(params: ParamsView, c: CommitView) -> bool {
    &&& c.proposal.len() > 0
    &&& forall|i: int|
        0 <= i < c.lock_votes.len() ==> {
            &&& (#[trigger] c.lock_votes[i]).vote_type == VoteType::Precommit
            &&& c.lock_votes[i].height == c.height
            &&& c.lock_votes[i].round == c.round
            &&& c.lock_votes[i].proposal == c.proposal
        }
    &&& distinct_voters(c.lock_votes)
    &&& is_quorum(votes_weight(params, c.lock_votes), total_vote_weight(params))
}

/// The first value with a quorum has one.
pub proof fn lemma_first_quorum_has(values: Seq<Seq<u8>>, ballots: Seq<BallotView>, total: int)
    ensures
        first_quorum(values, ballots, total) matches Some(v) ==> is_quorum(
            weight_for(ballots, v),
            total,
        ),
    decreases values.len(),
{
    if values.len() > 0 {
        lemma_first_quorum_has(values.drop_last(), ballots, total);
    }
}

/// Every vote for a value is the vote of a ballot, and is for that value.
pub proof fn lemma_votes_for(ballots: Seq<BallotView>, value: Seq<u8>)
    ensures
        forall|i: int|
            0 <= i < votes_for(ballots, value).len() ==> (#[trigger] votes_for(
                ballots,
                value,
            )[i]).proposal == value && exists|j: int|
                0 <= j < ballots.len() && (#[trigger] ballots[j]).vote == votes_for(
                    ballots,
                    value,
                )[i],
    decreases ballots.len(),
{
    if ballots.len() > 0 {
        let before = ballots.drop_last();
        lemma_votes_for(before, value);
        let votes = votes_for(ballots, value);
        assert forall|i: int| 0 <= i < votes.len() implies (#[trigger] votes[i]).proposal == value
            && exists|j: int| 0 <= j < ballots.len() && (#[trigger] ballots[j]).vote == votes[i] by {
            if i < votes_for(before, value).len() {
                assert(votes[i] == votes_for(before, value)[i]);
                let j = choose|j: int|
                    0 <= j < before.len() && (#[trigger] before[j]).vote == votes_for(
                        before,
                        value,
                    )[i];
                assert(ballots[j] == before[j]);
            } else {
                assert(ballots[ballots.len() - 1].vote == votes[i]);
            }
        }
    }
}

/// The votes for a value are of different voters where the ballots are.
pub proof fn lemma_votes_for_distinct(ballots: Seq<BallotView>, value: Seq<u8>)
    requires
        distinct_ballots(ballots),
    ensures
        distinct_voters(votes_for(ballots, value)),
    decreases ballots.len(),
{
    if ballots.len() > 0 {
        let before = ballots.drop_last();
        assert forall|i: int, j: int|
            #![trigger before[i], before[j]]
            0 <= i < j < before.len() implies before[i].vote.voter != before[j].vote.voter by {
            assert(before[i] == ballots[i] && before[j] == ballots[j]);
        }
        lemma_votes_for_distinct(before, value);
        lemma_votes_for(before, value);
        let votes = votes_for(ballots, value);
        let vb = votes_for(before, value);
        assert forall|i: int, j: int|
            #![trigger votes[i], votes[j]]
            0 <= i < j < votes.len() implies votes[i].voter != votes[j].voter by {
            if j < vb.len() {
                assert(votes[i] == vb[i] && votes[j] == vb[j]);
            } else {
                assert(votes[i] == vb[i]);
                let k = choose|k: int| 0 <= k < before.len() && (#[trigger] before[k]).vote == vb[i];
                assert(ballots[k] == before[k]);
                assert(ballots[ballots.len() - 1] == ballots.last());
            }
        }
    }
}

/// Where each ballot counts with the weight of its voter, the votes for a
/// value weigh what the ballots for it weigh.
pub proof fn lemma_votes_weight(params: ParamsView, ballots: Seq<BallotView>, value: Seq<u8>)
    requires
        forall|j: int|
            0 <= j < ballots.len() ==> (#[trigger] ballots[j]).weight == vote_weight(
                params,
                ballots[j].vote.voter,
            ),
    ensures
        votes_weight(params, votes_for(ballots, value)) == weight_for(ballots, value),
    decreases ballots.len(),
{
    if ballots.len() > 0 {
        let before = ballots.drop_last();
        assert forall|j: int| 0 <= j < before.len() implies (#[trigger] before[j]).weight
            == vote_weight(params, before[j].vote.voter) by {
            assert(before[j] == ballots[j]);
        }
        lemma_votes_weight(params, before, value);
        assert(ballots[ballots.len() - 1] == ballots.last());
        if ballots.last().vote.proposal == value {
            let votes = votes_for(ballots, value);
            assert(votes.drop_last() =~= votes_for(before, value));
        }
    }
}

/// Whether an action is the precommit of the node `addr` in a round of a
/// height going out.
pub open spec fn is_own_precommit(action: ActionView, addr: Seq<u8>, height: u64, round: u64) -> bool {
    action matches ActionView::Send(CoreOutputView::Vote(v)) && v.vote_type == VoteType::Precommit
        && v.voter == addr && v.height == height && v.round == round
}

/// Whether an action is a decision going out.
pub open spec fn is_commit(action: ActionView) -> bool {
    action matches ActionView::Send(CoreOutputView::Commit(_))
}

/// Whether the precommit of the node `addr` in a round of a height is
/// among the actions.
pub open spec fn casts_precommit(actions: Seq<ActionView>, addr: Seq<u8>, height: u64, round: u64) -> bool {
    exists|i: int|
        0 <= i < actions.len() && is_own_precommit(#[trigger] actions[i], addr, height, round)
}

/// Whether every decision among the actions comes after the precommit of
/// the node `addr` in a round of a height.
pub open spec fn backed_in(actions: Seq<ActionView>, addr: Seq<u8>, height: u64, round: u64) -> bool {
    forall|j: int|
        0 <= j < actions.len() && is_commit(#[trigger] actions[j]) ==> casts_precommit(
            actions.take(j),
            addr,
            height,
            round,
        )
}

/// Whether a step is one in which the node has cast the precommit of its
/// round.
pub open spec fn past_precommit(step: Step) -> bool {
    step == Step::Precommit || step == Step::PrecommitWait
}

/// Whether the ballots `later` are the ballots `before`, and maybe more
/// behind them.
pub open spec fn extends(before: Seq<BallotView>, later: Seq<BallotView>) -> bool {
    &&& before.len() <= later.len()
    &&& forall|i: int| 0 <= i < before.len() ==> later[i] == #[trigger] before[i]
}

/// Whether the ballots of every round and kind in `later` are those in
/// `before`, and maybe more behind them: ballots are added, and none is
/// changed or lost.
pub open spec fn votes_kept(before: Seq<SlotView>, later: Seq<SlotView>) -> bool {
    forall|round: u64, vote_type: VoteType|
        extends(
            #[trigger] ballots_at(before, round, vote_type),
            ballots_at(later, round, vote_type),
        )
}

/// A voter that has a ballot keeps it when more ballots come behind.
pub proof fn lemma_extends_keeps(before: Seq<BallotView>, later: Seq<BallotView>, voter: Seq<u8>)
    requires
        extends(before, later),
        cast_by(before, voter) is Some,
    ensures
        cast_by(later, voter) is Some,
{
    crate::voteset::lemma_cast_by(before, voter);
    crate::voteset::lemma_cast_by(later, voter);
    let i = choose|i: int| 0 <= i < before.len() && (#[trigger] before[i]).vote.voter == voter;
    assert(later[i].vote.voter == voter);
}

/// Ballots that come behind ballots that came behind others come behind
/// those.
pub proof fn lemma_votes_kept_twice(a: Seq<SlotView>, b: Seq<SlotView>, c: Seq<SlotView>)
    requires
        votes_kept(a, b),
        votes_kept(b, c),
    ensures
        votes_kept(a, c),
{
    assert forall|round: u64, vote_type: VoteType|
        extends(
            #[trigger] ballots_at(a, round, vote_type),
            ballots_at(c, round, vote_type),
        ) by {
        let x = ballots_at(a, round, vote_type);
        let y = ballots_at(b, round, vote_type);
        let z = ballots_at(c, round, vote_type);
        assert(extends(x, y));
        assert(extends(y, z));
        assert forall|i: int| 0 <= i < x.len() implies z[i] == #[trigger] x[i] by {
            assert(y[i] == x[i]);
        }
    }
}

/// How a lock may move within a round: a lock that is held afterwards is
/// of that round or an earlier one, and of no earlier round than the lock
/// held before; where none was held before, it is of that round. A lock
/// is never given up.
pub open spec fn lock_moves(before: Option<LockView>, later: Option<LockView>, round: u64) -> bool {
    match later {
        Some(held) => held.round <= round && match before {
            Some(was) => was.round <= held.round,
            None => held.round == round,
        },
        None => before is None,
    }
}

/// Nothing is decided: the node stays at its height and round, adds to
/// its ballots and changes or loses none, moves its lock as `lock_moves`
/// says, and is past its precommit only where it was before or where the
/// precommit is among the actions.
pub open spec fn quiet(s: BftView, o: Outcome) -> bool {
    &&& o.state.height == s.height
    &&& o.state.round == s.round
    &&& o.state.params == s.params
    &&& commits_of(o.actions).len() == 0
    &&& votes_kept(s.votes, o.state.votes)
    &&& lock_moves(s.lock, o.state.lock, s.round)
    &&& (past_precommit(o.state.step) ==> past_precommit(s.step) || casts_precommit(
        o.actions,
        s.params.address,
        s.height,
        s.round,
    ))
}

/// One value is decided, at the height and round of `s`: the node moves
/// to the propose step of round 0 of the next height and holds no lock,
/// the decision is justified, and it comes after the node's precommit of
/// the round.
pub open spec fn decides(s: BftView, o: Outcome) -> bool {
    &&& o.state.height == s.height + 1
    &&& o.state.round == 0
    &&& o.state.params == s.params
    &&& o.state.step == Step::Propose
    &&& o.state.lock is None
    &&& commits_of(o.actions).len() == 1
    &&& commits_of(o.actions)[0].height == s.height
    &&& commits_of(o.actions)[0].round == s.round
    &&& commits_of(o.actions)[0].address == s.params.address
    &&& justified(s.params, commits_of(o.actions)[0])
    &&& o.state.commit_proof == Some(commits_of(o.actions)[0])
    &&& (past_precommit(s.step) || backed_in(o.actions, s.params.address, s.height, s.round))
}

/// Actions among which no decision is counted hold none.
pub proof fn lemma_no_commits(actions: Seq<ActionView>)
    requires
        commits_of(actions).len() == 0,
    ensures
        forall|j: int| 0 <= j < actions.len() ==> !is_commit(#[trigger] actions[j]),
    decreases actions.len(),
{
    if actions.len() > 0 {
        let before = actions.drop_last();
        match actions.last() {
            ActionView::Send(CoreOutputView::Commit(c)) => {
                assert(commits_of(actions).len() == commits_of(before).len() + 1);
            },
            _ => {},
        }
        lemma_no_commits(before);
        assert forall|j: int| 0 <= j < actions.len() implies !is_commit(#[trigger] actions[j]) by {
            if j < before.len() {
                assert(actions[j] == before[j]);
            }
        }
    }
}

/// The slot of a round and kind depends on the rounds and kinds of the
/// slots alone.
pub proof fn lemma_slot_index_keys(a: Seq<SlotView>, b: Seq<SlotView>, round: u64, vote_type: VoteType)
    requires
        a.len() == b.len(),
        forall|i: int|
            0 <= i < a.len() ==> (#[trigger] a[i]).round == b[i].round && a[i].vote_type
                == b[i].vote_type,
    ensures
        slot_index(a, round, vote_type) == slot_index(b, round, vote_type),
    decreases a.len(),
{
    if a.len() > 0 {
        assert forall|i: int| 0 <= i < a.drop_last().len() implies (#[trigger] a.drop_last()[i]).round
            == b.drop_last()[i].round && a.drop_last()[i].vote_type == b.drop_last()[i].vote_type by {
            assert(a.drop_last()[i] == a[i]);
            assert(b.drop_last()[i] == b[i]);
        }
        lemma_slot_index_keys(a.drop_last(), b.drop_last(), round, vote_type);
        assert(a[a.len() - 1].round == b[a.len() - 1].round);
    }
}

/// Counting a vote loses no ballot; where the vote is counted, its voter
/// has a ballot of its kind and round afterwards.
pub proof fn lemma_with_counted_keeps(s: BftView, vote: VoteView)
    ensures
        votes_kept(s.votes, with_counted(s, vote)),
        vote_weight(s.params, vote.voter) > 0 ==> cast_by(
            ballots_at(with_counted(s, vote), vote.round, vote.vote_type),
            vote.voter,
        ) is Some,
{
    let w = vote_weight(s.params, vote.voter);
    let slots = s.votes;
    let ballots = ballots_at(slots, vote.round, vote.vote_type);
    if w > 0 && classify(ballots, vote) == InsertOutcome::Added {
        let grown = slots_with_vote(slots, vote, w);
        lemma_slot_index(slots, vote.round, vote.vote_type);
        match slot_index(slots, vote.round, vote.vote_type) {
            Some(at) => {
                let more = slots[at].ballots.push(BallotView { vote, weight: w });
                assert(more.drop_last() =~= slots[at].ballots);
                assert forall|round: u64, vote_type: VoteType|
                    extends(
                        #[trigger] ballots_at(slots, round, vote_type),
                        ballots_at(grown, round, vote_type),
                    ) by {
                    lemma_slot_index_keys(slots, grown, round, vote_type);
                    lemma_slot_index(slots, round, vote_type);
                }
                lemma_slot_index_keys(slots, grown, vote.round, vote.vote_type);
            },
            None => {
                assert(grown.drop_last() =~= slots);
                assert forall|round: u64, vote_type: VoteType|
                    extends(
                        #[trigger] ballots_at(slots, round, vote_type),
                        ballots_at(grown, round, vote_type),
                    ) by {
                    lemma_slot_index(slots, round, vote_type);
                }
                let one = seq![BallotView { vote, weight: w }];
                assert(one.drop_last() =~= Seq::<BallotView>::empty());
            },
        }
    }
}

/// Actions that hold no decision, followed by an outcome of one of the two
/// shapes for a state that differs from `s` in what it keeps alone, have
/// that shape for `s`.
pub proof fn lemma_prepend(s: BftView, kept: BftView, first: Seq<ActionView>, o: Outcome)
    requires
        kept.height == s.height,
        kept.round == s.round,
        kept.params == s.params,
        votes_kept(s.votes, kept.votes),
        lock_moves(s.lock, kept.lock, s.round),
        commits_of(first).len() == 0,
        past_precommit(kept.step) ==> past_precommit(s.step) || casts_precommit(
            first,
            s.params.address,
            s.height,
            s.round,
        ),
        quiet(kept, o) || decides(kept, o),
    ensures
        quiet(s, after(first, o)) || decides(s, after(first, o)),
{
    let all = first + o.actions;
    let addr = s.params.address;
    if quiet(kept, o) {
        lemma_votes_kept_twice(s.votes, kept.votes, o.state.votes);
    }
    lemma_commits_of_concat(first, o.actions);
    assert(commits_of(all) =~= commits_of(o.actions));
    lemma_no_commits(first);
    if casts_precommit(first, addr, s.height, s.round) {
        let i = choose|i: int|
            0 <= i < first.len() && is_own_precommit(#[trigger] first[i], addr, s.height, s.round);
        assert(all[i] == first[i]);
        assert(casts_precommit(all, addr, s.height, s.round));
        assert forall|j: int| 0 <= j < all.len() && is_commit(#[trigger] all[j]) implies casts_precommit(
            all.take(j),
            addr,
            s.height,
            s.round,
        ) by {
            if j < first.len() {
                assert(all[j] == first[j]);
            } else {
                assert(all.take(j)[i] == first[i]);
            }
        }
    }
    if casts_precommit(o.actions, addr, s.height, s.round) {
        let i = choose|i: int|
            0 <= i < o.actions.len() && is_own_precommit(
                #[trigger] o.actions[i],
                addr,
                s.height,
                s.round,
            );
        assert(all[first.len() + i] == o.actions[i]);
    }
    if decides(kept, o) && backed_in(o.actions, addr, s.height, s.round) {
        assert forall|j: int| 0 <= j < all.len() && is_commit(#[trigger] all[j]) implies casts_precommit(
            all.take(j),
            addr,
            s.height,
            s.round,
        ) by {
            if j < first.len() {
                assert(all[j] == first[j]);
            } else {
                let inner = j - first.len();
                assert(all[j] == o.actions[inner]);
                let i = choose|i: int|
                    0 <= i < o.actions.take(inner).len() && is_own_precommit(
                        #[trigger] o.actions.take(inner)[i],
                        addr,
                        s.height,
                        s.round,
                    );
                assert(all.take(j)[first.len() + i] == o.actions.take(inner)[i]);
            }
        }
    }
}

/// The ballots of a kind in the node's round are in their place.
pub proof fn lemma_ballots_at_ok(s: BftView, vote_type: VoteType)
    requires
        inv(s),
    ensures
        forall|j: int|
            0 <= j < ballots_at(s.votes, s.round, vote_type).len() ==> {
                let b = #[trigger] ballots_at(s.votes, s.round, vote_type)[j];
                &&& b.vote.height == s.height
                &&& b.vote.round == s.round
                &&& b.vote.vote_type == vote_type
                &&& b.weight == vote_weight(s.params, b.vote.voter)
            },
        distinct_ballots(ballots_at(s.votes, s.round, vote_type)),
{
    lemma_slot_index(s.votes, s.round, vote_type);
    match slot_index(s.votes, s.round, vote_type) {
        Some(k) => {
            assert forall|j: int| 0 <= j < s.votes[k].ballots.len() implies {
                let b = #[trigger] s.votes[k].ballots[j];
                &&& b.vote.height == s.height
                &&& b.vote.round == s.round
                &&& b.vote.vote_type == vote_type
                &&& b.weight == vote_weight(s.params, b.vote.voter)
            } by {
                assert(ballot_ok(s.height, s.params, s.votes[k], s.votes[k].ballots[j]));
            }
        },
        None => {},
    }
}

/// Moving to a height decides nothing.
pub proof fn lemma_enter_height_commits(s: BftView, height: u64)
    ensures
        commits_of(enter_height(s, height).actions).len() == 0,
{
    let actions = enter_height(s, height).actions;
    if actions.len() == 2 {
        assert(actions.drop_last().drop_last() =~= Seq::<ActionView>::empty());
        assert(commits_of(actions.drop_last().drop_last()).len() == 0);
        assert(commits_of(actions.drop_last()).len() == 0);
    } else {
        assert(actions.drop_last() =~= Seq::<ActionView>::empty());
        assert(commits_of(actions.drop_last()).len() == 0);
    }
}

/// A single action that is no decision decides nothing.
pub proof fn lemma_single_action(action: ActionView)
    ensures
        !(action matches ActionView::Send(CoreOutputView::Commit(_))) ==> commits_of(
            seq![action],
        ).len() == 0,
        action matches ActionView::Send(CoreOutputView::Commit(c)) ==> commits_of(seq![action])
            == seq![c],
{
    let actions = seq![action];
    assert(actions.drop_last() =~= Seq::<ActionView>::empty());
    assert(commits_of(actions.drop_last()) =~= Seq::<CommitView>::empty());
    match action {
        ActionView::Send(CoreOutputView::Commit(c)) => {
            assert(commits_of(actions) =~= seq![c]);
        },
        _ => {},
    }
}

/// A commit of the value that has two thirds of the precommits of the
/// round decides that value.
pub proof fn lemma_commit_decides(s: BftView, value: Seq<u8>)
    requires
        inv(s),
        s.height < u64::MAX,
        past_precommit(s.step),
        value.len() > 0,
        quorum_value(
            ballots_at(s.votes, s.round, VoteType::Precommit),
            total_vote_weight(s.params),
        ) == Some(value),
    ensures
        decides(s, commit(s, value)),
{
    let o = commit(s, value);
    let c = decision(s, value);
    let moved = enter_height(s, (s.height + 1) as u64);
    let ballots = ballots_at(s.votes, s.round, VoteType::Precommit);
    lemma_enter_height_commits(s, (s.height + 1) as u64);
    lemma_single_action(ActionView::Send(CoreOutputView::Commit(c)));
    lemma_commits_of_concat(seq![ActionView::Send(CoreOutputView::Commit(c))], moved.actions);
    assert(commits_of(o.actions) =~= seq![c]);
    lemma_first_quorum_has(tally_values(ballots), ballots, total_vote_weight(s.params));
    lemma_ballots_at_ok(s, VoteType::Precommit);
    lemma_votes_for(ballots, value);
    lemma_votes_for_distinct(ballots, value);
    lemma_votes_weight(s.params, ballots, value);
    assert forall|i: int| 0 <= i < c.lock_votes.len() implies {
        &&& (#[trigger] c.lock_votes[i]).vote_type == VoteType::Precommit
        &&& c.lock_votes[i].height == c.height
        &&& c.lock_votes[i].round == c.round
        &&& c.lock_votes[i].proposal == c.proposal
    } by {
        let j = choose|j: int| 0 <= j < ballots.len() && (#[trigger] ballots[j]).vote == votes_for(
            ballots,
            value,
        )[i];
        assert(ballots[j].vote.height == s.height);
    }
}

/// Looking at the precommits decides nothing, or one value.
pub proof fn lemma_check_precommits_shape(s: BftView)
    requires
        inv(s),
        s.height < u64::MAX,
        past_precommit(s.step),
    ensures
        quiet(s, check_precommits(s)) || decides(s, check_precommits(s)),
{
    let ballots = ballots_at(s.votes, s.round, VoteType::Precommit);
    let total = total_vote_weight(s.params);
    match quorum_value(ballots, total) {
        Some(value) => {
            if value.len() > 0 {
                lemma_commit_decides(s, value);
            } else {
                lemma_single_action(crate::machine::timer_action(s, Step::PrecommitWait));
            }
        },
        None => {
            lemma_single_action(crate::machine::timer_action(s, Step::PrecommitWait));
        },
    }
}

/// Going to the precommit step decides nothing, or one value.
pub proof fn lemma_enter_precommit_shape(s: BftView, value: Seq<u8>)
    requires
        inv(s),
        s.height < u64::MAX,
    ensures
        quiet(s, enter_precommit(s, value)) || decides(s, enter_precommit(s, value)),
{
    let locked = BftView { step: Step::Precommit, lock: lock_after_prevotes(s, value), ..s };
    assert(inv(locked));
    lemma_cast_vote_inv(locked, VoteType::Precommit, value);
    let cast = cast_vote(locked, VoteType::Precommit, value);
    lemma_check_precommits_shape(cast.state);
    lemma_with_counted_keeps(locked, crate::machine::own_vote(locked, VoteType::Precommit, value));
    lemma_single_action(cast.actions[0]);
    assert(cast.actions =~= seq![cast.actions[0]]);
    assert(is_own_precommit(cast.actions[0], s.params.address, s.height, s.round));
    lemma_prepend(s, cast.state, cast.actions, check_precommits(cast.state));
}

/// Looking at the prevotes decides nothing, or one value.
pub proof fn lemma_check_prevotes_shape(s: BftView)
    requires
        inv(s),
        s.height < u64::MAX,
    ensures
        quiet(s, check_prevotes(s)) || decides(s, check_prevotes(s)),
{
    let ballots = ballots_at(s.votes, s.round, VoteType::Prevote);
    let total = total_vote_weight(s.params);
    match quorum_value(ballots, total) {
        Some(value) => {
            lemma_enter_precommit_shape(s, value);
        },
        None => {
            lemma_single_action(crate::machine::timer_action(s, Step::PrevoteWait));
        },
    }
}

/// Going to the prevote step decides nothing, or one value.
pub proof fn lemma_enter_prevote_shape(s: BftView)
    requires
        inv(s),
        s.height < u64::MAX,
    ensures
        quiet(s, enter_prevote(s)) || decides(s, enter_prevote(s)),
{
    let choice = prevote_choice(s.lock, usable_proposal(s));
    let chosen = BftView { step: Step::Prevote, lock: choice.1, ..s };
    let cast = cast_vote(chosen, VoteType::Prevote, choice.0);
    crate::always::lemma_enter_prevote_inv(s);
    crate::always::lemma_usable_proposal(s);
    match usable_proposal(s) {
        Some(p) => {
            let i = choose|i: int| 0 <= i < s.proposals.len() && s.proposals[i] == p;
            assert(crate::always::proposal_ok(s.height, s.proposals[i]));
        },
        None => {},
    }
    assert(inv(chosen));
    lemma_cast_vote_inv(chosen, VoteType::Prevote, choice.0);
    lemma_check_prevotes_shape(cast.state);
    lemma_with_counted_keeps(chosen, crate::machine::own_vote(chosen, VoteType::Prevote, choice.0));
    lemma_single_action(cast.actions[0]);
    assert(cast.actions =~= seq![cast.actions[0]]);
    lemma_prepend(s, cast.state, cast.actions, check_prevotes(cast.state));
}

/// Proposing decides nothing, or one value.
pub proof fn lemma_try_propose_shape(s: BftView)
    requires
        inv(s),
        s.height < u64::MAX,
    ensures
        quiet(s, try_propose(s)) || decides(s, try_propose(s)),
{
    if crate::machine::may_propose(s) {
        lemma_try_propose_shape_when(s);
    }
}

/// Proposing decides nothing, or one value, where the node is to propose.
proof fn lemma_try_propose_shape_when(s: BftView)
    requires
        inv(s),
        s.height < u64::MAX,
        crate::machine::may_propose(s),
    ensures
        quiet(s, try_propose(s)) || decides(s, try_propose(s)),
{
    match own_proposal(s) {
        Some(p) => {
            let kept = BftView {
                proposals: s.proposals.push(p),
                verified: with_own_verdict(s, p.content),
                ..s
            };
            if s.step == Step::Propose {
                crate::always::lemma_own_proposal_ok(s);
            }
            assert forall|i: int| 0 <= i < kept.proposals.len() implies crate::always::proposal_ok(
                kept.height,
                #[trigger] kept.proposals[i],
            ) by {
                if i < s.proposals.len() {
                    assert(kept.proposals[i] == s.proposals[i]);
                }
            }
            assert(inv(kept));
            lemma_enter_prevote_shape(kept);
            lemma_single_action(ActionView::Send(CoreOutputView::Proposal(p)));
            if crate::machine::may_propose(s) {
                lemma_prepend(
                    s,
                    kept,
                    seq![ActionView::Send(CoreOutputView::Proposal(p))],
                    enter_prevote(kept),
                );
            }
        },
        None => {},
    }
}

/// Starting a round decides nothing, or one value.
pub proof fn lemma_start_round_shape(s: BftView)
    requires
        inv(BftView { step: Step::Propose, ..s }),
        s.height < u64::MAX,
    ensures
        quiet(BftView { step: Step::Propose, ..s }, start_round(s)) || decides(
            BftView { step: Step::Propose, ..s },
            start_round(s),
        ),
{
    let state = BftView { step: Step::Propose, ..s };
    lemma_try_propose_shape(state);
    lemma_single_action(crate::machine::timer_action(state, Step::Propose));
    lemma_prepend(
        state,
        state,
        seq![crate::machine::timer_action(state, Step::Propose)],
        try_propose(state),
    );
}

/// On any event a node decides at most one value, and its height does not
/// fall. Where it decides one, it is for the height that the node was at,
/// the node moves to the propose step of round 0 of the height after it,
/// without a lock, and the decision is justified:
/// its value is not nil and it carries precommits for that value with two
/// thirds of the weight of all authorities or more. The decision comes
/// after the node's own precommit of that round: the node was past it
/// before the event, or it is among the actions before the decision. And a
/// node that is past its precommit after the event was so before, in the
/// same round, or the precommit of its round is among the actions. While
/// the node stays at its height, its lock moves as `lock_moves` says: it
/// is replaced by a lock of the same or a later round alone, and never
/// given up; and its ballots are added to, and none is changed or lost.
pub proof fn lemma_step_decides_once(s: BftView, event: EventView)
    requires
        inv(s),
        accepts(s, event),
    ensures
        step(s, event).state.height >= s.height,
        commits_of(step(s, event).actions).len() <= 1,
        commits_of(step(s, event).actions).len() == 1 ==> {
            let c = commits_of(step(s, event).actions)[0];
            &&& c.height == s.height
            &&& c.round >= s.round
            &&& c.address == s.params.address
            &&& step(s, event).state.height == s.height + 1
            &&& step(s, event).state.round == 0
            &&& step(s, event).state.step == Step::Propose
            &&& step(s, event).state.lock is None
            &&& step(s, event).state.commit_proof == Some(c)
            &&& justified(s.params, c)
            &&& (past_precommit(s.step) && c.round == s.round || backed_in(
                step(s, event).actions,
                c.address,
                c.height,
                c.round,
            ))
        },
        step(s, event).state.params.address == s.params.address,
        step(s, event).state.params == s.params || (event matches EventView::Input(
            CoreInputView::Status(status),
        ) && step(s, event).state.params == installed(s.params, status)),
        step(s, event).state.height == s.height ==> lock_moves(
            s.lock,
            step(s, event).state.lock,
            step(s, event).state.round,
        ),
        step(s, event).state.height == s.height ==> votes_kept(
            s.votes,
            step(s, event).state.votes,
        ),
        past_precommit(step(s, event).state.step) ==> (past_precommit(s.step) && step(
            s,
            event,
        ).state.height == s.height && step(s, event).state.round == s.round) || casts_precommit(
            step(s, event).actions,
            s.params.address,
            step(s, event).state.height,
            step(s, event).state.round,
        ),
{
    reveal(step);
    match event {
        EventView::Input(msg) => {
            match msg {
                CoreInputView::Proposal(p) => {
                    if takes_proposal(s, p) {
                        let kept = BftView { proposals: s.proposals.push(p), ..s };
                        assert forall|i: int|
                            0 <= i < kept.proposals.len() implies crate::always::proposal_ok(
                            kept.height,
                            #[trigger] kept.proposals[i],
                        ) by {
                            if i < s.proposals.len() {
                                assert(kept.proposals[i] == s.proposals[i]);
                            }
                        }
                        assert(inv(kept));
                        lemma_enter_prevote_shape(kept);
                    }
                },
                CoreInputView::Vote(v) => {
                    if takes_vote(s, v) {
                        let counted = BftView { votes: with_counted(s, v), ..s };
                        crate::always::lemma_with_counted_ok(s, v);
                        lemma_with_counted_keeps(s, v);
                        assert(inv(counted));
                        lemma_check_prevotes_shape(counted);
                        if past_precommit(s.step) {
                            lemma_check_precommits_shape(counted);
                        }
                        if step(s, event).state.height == s.height {
                            lemma_votes_kept_twice(
                                s.votes,
                                counted.votes,
                                step(s, event).state.votes,
                            );
                        }
                    }
                },
                CoreInputView::Feed(f) => {
                    if f.proposal.len() > 0 {
                        crate::always::lemma_with_feed_ok(s.feeds, f);
                        let kept = BftView { feeds: crate::machine::with_feed(s.feeds, f), ..s };
                        assert(inv(kept));
                        lemma_try_propose_shape(kept);
                    }
                },
                CoreInputView::VerifyResp(r) => {
                    let kept = BftView { verified: s.verified.push(r), ..s };
                    assert(inv(kept));
                    lemma_enter_prevote_shape(kept);
                },
                CoreInputView::Status(status) => {
                    lemma_enter_height_commits(
                        BftView { params: installed(s.params, status), ..s },
                        (status.height + 1) as u64,
                    );
                },
                CoreInputView::Commit(_) => {},
                CoreInputView::Pause => {},
                CoreInputView::Start => {
                    let started = BftView { running: true, ..s };
                    assert(inv(started));
                    if started.step == Step::Propose {
                        lemma_start_round_shape(started);
                    }
                },
            }
        },
        EventView::Timeout(info) => {
            lemma_enter_prevote_shape(s);
            let next = BftView { round: (s.round + 1) as u64, ..s };
            assert(inv(BftView { step: Step::Propose, ..next }));
            lemma_start_round_shape(next);
        },
    }
}

/// What a node does on a run of events, one after the other.
pub open spec fn run(s: BftView, events: Seq<EventView>) -> Outcome
    decreases events.len(),
{
    if events.len() == 0 {
        stay(s)
    } else {
        let before = run(s, events.drop_last());
        let last = step(before.state, events.last());
        Outcome { state: last.state, actions: before.actions + last.actions }
    }
}

/// Whether a run of events can be handed to a node in the state `s`, one
/// after the other.
pub open spec fn accepted(s: BftView, events: Seq<EventView>) -> bool
    decreases events.len(),
{
    events.len() == 0 || (accepted(s, events.drop_last()) && accepts(
        run(s, events.drop_last()).state,
        events.last(),
    ))
}

/// On any run of events the invariant holds at the end, the height of the
/// node has not fallen, and the decisions it has made are for heights that
/// rise from one to the next, from the height it started at to below the
/// one it ends at. So it decides at most once for a height.
pub proof fn lemma_run_decides_once_per_height(s: BftView, events: Seq<EventView>)
    requires
        inv(s),
        accepted(s, events),
    ensures
        inv(run(s, events).state),
        run(s, events).state.height >= s.height,
        forall|i: int|
            0 <= i < commits_of(run(s, events).actions).len() ==> s.height <= (
            #[trigger] commits_of(run(s, events).actions)[i]).height < run(
                s,
                events,
            ).state.height,
        forall|i: int, j: int|
            #![trigger commits_of(run(s, events).actions)[i], commits_of(run(s, events).actions)[j]]
            0 <= i < j < commits_of(run(s, events).actions).len() ==> commits_of(
                run(s, events).actions,
            )[i].height < commits_of(run(s, events).actions)[j].height,
    decreases events.len(),
{
    if events.len() == 0 {
        assert(commits_of(run(s, events).actions) =~= Seq::<CommitView>::empty());
    } else {
        let before = run(s, events.drop_last());
        let last = step(before.state, events.last());
        lemma_run_decides_once_per_height(s, events.drop_last());
        lemma_step_inv(before.state, events.last());
        lemma_step_decides_once(before.state, events.last());
        lemma_commits_of_concat(before.actions, last.actions);
        let old_commits = commits_of(before.actions);
        let new_commits = commits_of(last.actions);
        let all = commits_of(run(s, events).actions);
        assert(all == old_commits + new_commits);
        assert forall|i: int| 0 <= i < all.len() implies s.height <= (#[trigger] all[i]).height
            < run(s, events).state.height by {
            if i < old_commits.len() {
                assert(all[i] == old_commits[i]);
            } else {
                assert(all[i] == new_commits[i - old_commits.len()]);
            }
        }
        assert forall|i: int, j: int|
            #![trigger all[i], all[j]]
            0 <= i < j < all.len() implies all[i].height < all[j].height by {
            if j < old_commits.len() {
                assert(all[i] == old_commits[i] && all[j] == old_commits[j]);
            } else {
                assert(all[j] == new_commits[j - old_commits.len()]);
                assert(all[i] == old_commits[i]);
            }
        }
    }
}

/// The height of a node never falls over a run of events: after any first
/// part of the run it is at most what it is after the whole.
pub proof fn lemma_height_never_falls(s: BftView, events: Seq<EventView>, n: int)
    requires
        inv(s),
        accepted(s, events),
        0 <= n <= events.len(),
    ensures
        accepted(s, events.take(n)),
        run(s, events.take(n)).state.height <= run(s, events).state.height,
    decreases events.len() - n,
{
    if n == events.len() {
        assert(events.take(n) =~= events);
    } else {
        lemma_height_never_falls(s, events, n + 1);
        let longer = events.take(n + 1);
        assert(longer.drop_last() =~= events.take(n));
        lemma_run_decides_once_per_height(s, events.take(n));
        lemma_step_decides_once(run(s, events.take(n)).state, longer.last());
    }
}

/// A decision that is among the actions is among the decisions counted.
pub proof fn lemma_commit_counted(actions: Seq<ActionView>, j: int)
    requires
        0 <= j < actions.len(),
        is_commit(actions[j]),
    ensures
        actions[j] matches ActionView::Send(CoreOutputView::Commit(c)) && commits_of(
            actions,
        ).contains(c),
    decreases actions.len(),
{
    let before = actions.drop_last();
    let counted = commits_of(actions);
    if j == actions.len() - 1 {
        match actions.last() {
            ActionView::Send(CoreOutputView::Commit(c)) => {
                assert(counted[counted.len() - 1] == c);
            },
            _ => {},
        }
    } else {
        assert(before[j] == actions[j]);
        lemma_commit_counted(before, j);
        match actions[j] {
            ActionView::Send(CoreOutputView::Commit(c)) => {
                let k = choose|k: int| 0 <= k < commits_of(before).len() && commits_of(before)[k] == c;
                assert(counted[k] == c);
            },
            _ => {},
        }
    }
}

/// Whether every decision among the actions comes after a precommit of
/// the node that decides, for the height and round of the decision.
pub open spec fn commits_backed(actions: Seq<ActionView>) -> bool {
    forall|j: int|
        0 <= j < actions.len() ==> ((#[trigger] actions[j]) matches ActionView::Send(
            CoreOutputView::Commit(c),
        ) ==> casts_precommit(actions.take(j), c.address, c.height, c.round))
}

/// On any run of events from a state in which the node is not past its
/// precommit, every decision that the node makes comes after its own
/// precommit for the height and round of the decision.
pub proof fn lemma_run_commits_backed(s: BftView, events: Seq<EventView>)
    requires
        inv(s),
        accepted(s, events),
        !past_precommit(s.step),
    ensures
        commits_backed(run(s, events).actions),
        run(s, events).state.params.address == s.params.address,
        past_precommit(run(s, events).state.step) ==> casts_precommit(
            run(s, events).actions,
            s.params.address,
            run(s, events).state.height,
            run(s, events).state.round,
        ),
    decreases events.len(),
{
    if events.len() > 0 {
        let before = run(s, events.drop_last());
        let last = step(before.state, events.last());
        let all = before.actions + last.actions;
        let addr = s.params.address;
        lemma_run_commits_backed(s, events.drop_last());
        lemma_run_decides_once_per_height(s, events.drop_last());
        lemma_step_decides_once(before.state, events.last());
        if casts_precommit(before.actions, addr, before.state.height, before.state.round) {
            let i = choose|i: int|
                0 <= i < before.actions.len() && is_own_precommit(
                    #[trigger] before.actions[i],
                    addr,
                    before.state.height,
                    before.state.round,
                );
            assert(all[i] == before.actions[i]);
        }
        if casts_precommit(last.actions, addr, last.state.height, last.state.round) {
            let i = choose|i: int|
                0 <= i < last.actions.len() && is_own_precommit(
                    #[trigger] last.actions[i],
                    addr,
                    last.state.height,
                    last.state.round,
                );
            assert(all[before.actions.len() + i] == last.actions[i]);
        }
        assert forall|j: int| 0 <= j < all.len() implies ((#[trigger] all[j]) matches ActionView::Send(
            CoreOutputView::Commit(c),
        ) ==> casts_precommit(all.take(j), c.address, c.height, c.round)) by {
            if j < before.actions.len() {
                assert(all[j] == before.actions[j]);
                assert(all.take(j) =~= before.actions.take(j));
            } else {
                let inner = j - before.actions.len();
                assert(all[j] == last.actions[inner]);
                if is_commit(all[j]) {
                    lemma_commit_counted(last.actions, inner);
                    let c = commits_of(last.actions)[0];
                    assert(all[j] == ActionView::Send(CoreOutputView::Commit(c)));
                    if past_precommit(before.state.step) && c.round == before.state.round {
                        let i = choose|i: int|
                            0 <= i < before.actions.len() && is_own_precommit(
                                #[trigger] before.actions[i],
                                addr,
                                before.state.height,
                                before.state.round,
                            );
                        assert(all.take(j)[i] == before.actions[i]);
                    } else {
                        let i = choose|i: int|
                            0 <= i < last.actions.take(inner).len() && is_own_precommit(
                                #[trigger] last.actions.take(inner)[i],
                                c.address,
                                c.height,
                                c.round,
                            );
                        assert(all.take(j)[before.actions.len() + i] == last.actions.take(inner)[i]);
                    }
                }
            }
        }
    }
}

/// Whether the voters of `votes` that are not honest weigh less than a
/// third of all authorities, whichever votes of different voters are
/// taken.
pub open spec fn faults_below_third(p: ParamsView, honest: spec_fn(Seq<u8>) -> bool) -> bool {
    forall|votes: Seq<VoteView>|
        #![trigger votes_weight(p, votes)]
        distinct_voters(votes) && (forall|i: int|
            0 <= i < votes.len() ==> !honest((#[trigger] votes[i]).voter)) ==> votes_weight(
            p,
            votes,
        ) * 3 < total_vote_weight(p)
}

/// Two decisions for one height and round that are justified to nodes
/// with the same authorities are for the same value, where the voters that
/// are not honest weigh less than a third of all authorities and no honest
/// voter has precommitted two values in that round.
pub proof fn lemma_same_round_agreement(
    p: ParamsView,
    q: ParamsView,
    a: CommitView,
    b: CommitView,
    honest: spec_fn(Seq<u8>) -> bool,
)
    requires
        p.authorities == q.authorities,
        justified(p, a),
        justified(q, b),
        a.height == b.height,
        a.round == b.round,
        faults_below_third(p, honest),
        forall|i: int, j: int|
            #![trigger a.lock_votes[i], b.lock_votes[j]]
            0 <= i < a.lock_votes.len() && 0 <= j < b.lock_votes.len() && a.lock_votes[i].voter
                == b.lock_votes[j].voter && honest(a.lock_votes[i].voter)
                ==> a.lock_votes[i].proposal == b.lock_votes[j].proposal,
    ensures
        a.proposal == b.proposal,
{
    crate::quorum::lemma_votes_weight_by(p, b.lock_votes);
    crate::quorum::lemma_votes_weight_by(q, b.lock_votes);
    crate::quorum::lemma_quorums_intersect(p, a.lock_votes, b.lock_votes);
    let common = crate::quorum::shared(a.lock_votes, b.lock_votes);
    if forall|i: int| 0 <= i < common.len() ==> !honest((#[trigger] common[i]).voter) {
        assert(votes_weight(p, common) * 3 < total_vote_weight(p));
        assert(false);
    }
    let k = choose|k: int| 0 <= k < common.len() && honest((#[trigger] common[k]).voter);
    assert(crate::quorum::has_vote(a.lock_votes, common[k].voter));
    assert(b.lock_votes.contains(common[k]));
    let i = choose|i: int|
        0 <= i < a.lock_votes.len() && (#[trigger] a.lock_votes[i]).voter == common[k].voter;
    let j = choose|j: int| 0 <= j < b.lock_votes.len() && b.lock_votes[j] == common[k];
    assert(a.lock_votes[i].proposal == b.lock_votes[j].proposal);
}

} // verus!
