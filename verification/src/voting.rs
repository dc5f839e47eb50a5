use crate::always::{accepts, inv, lemma_step_inv};
use crate::machine::{
    cast_vote, check_precommits, check_prevotes, commit, enter_height, enter_precommit,
    enter_prevote, lock_after_prevotes, may_propose, own_proposal, prevote_choice, start_round,
    step, takes_proposal, takes_vote, try_propose, usable_proposal, with_counted, with_feed,
    with_own_verdict, ActionView, BftView, EventView, Outcome,
};
use crate::params::installed;
use crate::safety::{accepted, past_precommit, run};
use crate::step::Step;
use crate::types::{CoreInputView, CoreOutputView, VoteType, VoteView};
use vstd::prelude::*;

verus! {

/// Whether an action is a vote going out.
pub open spec fn is_vote(action: ActionView) -> bool {
    action matches ActionView::Send(CoreOutputView::Vote(_))
}

/// Whether an action is a vote of a kind going out.
pub open spec fn is_vote_of(action: ActionView, vote_type: VoteType) -> bool {
    action matches ActionView::Send(CoreOutputView::Vote(v)) && v.vote_type == vote_type
}

/// Whether a node in `step` has yet to cast its vote of a kind in its
/// round.
pub open spec fn to_cast(step: Step, vote_type: VoteType) -> bool {
    match vote_type {
        VoteType::Prevote => step == Step::Propose,
        VoteType::Precommit => step == Step::Propose || step == Step::Prevote || step
            == Step::PrevoteWait,
    }
}

/// Whether a node in `step` has cast its vote of a kind in its round.
pub open spec fn has_cast(step: Step, vote_type: VoteType) -> bool {
    match vote_type {
        VoteType::Prevote => step != Step::Propose,
        VoteType::Precommit => past_precommit(step),
    }
}

/// Whether no vote is among the actions.
pub open spec fn no_votes(actions: Seq<ActionView>) -> bool {
    forall|i: int| 0 <= i < actions.len() ==> !is_vote(#[trigger] actions[i])
}

/// Whether the votes among the actions are votes of the node in the state
/// `s` for its height and round, of kinds that it had yet to cast, and no
/// two of one kind; and whether the node has cast them in the state that
/// it is left in, where that is at the same height. The node does not go
/// back in the steps of its round.
pub open spec fn orderly(s: BftView, o: Outcome) -> bool {
    &&& forall|i: int|
        0 <= i < o.actions.len() ==> ((#[trigger] o.actions[i]) matches ActionView::Send(
            CoreOutputView::Vote(v),
        ) ==> v.height == s.height && v.round == s.round && v.voter == s.params.address
            && to_cast(s.step, v.vote_type) && (o.state.height == s.height ==> has_cast(
            o.state.step,
            v.vote_type,
        )))
    &&& forall|i: int, j: int, vote_type: VoteType|
        #![trigger is_vote_of(o.actions[i], vote_type), is_vote_of(o.actions[j], vote_type)]
        0 <= i < j < o.actions.len() ==> !(is_vote_of(o.actions[i], vote_type) && is_vote_of(
            o.actions[j],
            vote_type,
        ))
    &&& (o.state.height == s.height ==> o.state.round == s.round && o.state.step.rank()
        >= s.step.rank())
    &&& o.state.height >= s.height
    &&& o.state.params.address == s.params.address
}

/// Moving to a height casts no vote.
pub proof fn lemma_enter_height_no_votes(s: BftView, height: u64)
    ensures
        no_votes(enter_height(s, height).actions),
{
}

/// Looking at the precommits casts no vote, and leaves the node past its
/// precommit or at the next height.
pub proof fn lemma_check_precommits_orderly(s: BftView)
    requires
        past_precommit(s.step),
        s.height < u64::MAX,
    ensures
        no_votes(check_precommits(s).actions),
        orderly(s, check_precommits(s)),
        check_precommits(s).state.height == s.height ==> past_precommit(
            check_precommits(s).state.step,
        ),
{
    assert forall|value: Seq<u8>| no_votes(#[trigger] commit(s, value).actions) by {
        lemma_enter_height_no_votes(s, (s.height + 1) as u64);
    }
}

/// Actions that hold one vote at most, followed by an orderly outcome for
/// the state `kept` that they lead to, are orderly for the state `s` that
/// they come from.
pub proof fn lemma_prepend_orderly(s: BftView, kept: BftView, first: ActionView, o: Outcome)
    requires
        kept.height == s.height,
        kept.round == s.round,
        kept.params.address == s.params.address,
        kept.step.rank() >= s.step.rank(),
        kept.step != Step::Commit,
        orderly(kept, o),
        o.state.height == s.height ==> o.state.step != Step::Commit,
        first matches ActionView::Send(CoreOutputView::Vote(v)) ==> v.height == s.height
            && v.round == s.round && v.voter == s.params.address && to_cast(s.step, v.vote_type)
            && has_cast(kept.step, v.vote_type),
        forall|i: int|
            0 <= i < o.actions.len() ==> ((#[trigger] o.actions[i]) matches ActionView::Send(
                CoreOutputView::Vote(v),
            ) ==> to_cast(s.step, v.vote_type)),
    ensures
        orderly(s, Outcome { state: o.state, actions: seq![first] + o.actions }),
{
    let all = seq![first] + o.actions;
    assert forall|i: int| 0 <= i < all.len() implies ((#[trigger] all[i]) matches ActionView::Send(
        CoreOutputView::Vote(v),
    ) ==> v.height == s.height && v.round == s.round && v.voter == s.params.address && to_cast(
        s.step,
        v.vote_type,
    ) && (o.state.height == s.height ==> has_cast(o.state.step, v.vote_type))) by {
        if i > 0 {
            assert(all[i] == o.actions[i - 1]);
        }
    }
    assert forall|i: int, j: int, vote_type: VoteType|
        #![trigger is_vote_of(all[i], vote_type), is_vote_of(all[j], vote_type)]
        0 <= i < j < all.len() implies !(is_vote_of(all[i], vote_type) && is_vote_of(
        all[j],
        vote_type,
    )) by {
        assert(all[j] == o.actions[j - 1]);
        if i > 0 {
            assert(all[i] == o.actions[i - 1]);
            assert(!(is_vote_of(o.actions[i - 1], vote_type) && is_vote_of(
                o.actions[j - 1],
                vote_type,
            )));
        }
    }
}

/// Going to the precommit step is orderly for a node that has yet to
/// precommit.
pub proof fn lemma_enter_precommit_orderly(s: BftView, value: Seq<u8>)
    requires
        to_cast(s.step, VoteType::Precommit),
        s.height < u64::MAX,
    ensures
        orderly(s, enter_precommit(s, value)),
        enter_precommit(s, value).state.height == s.height ==> past_precommit(
            enter_precommit(s, value).state.step,
        ),
{
    let locked = BftView { step: Step::Precommit, lock: lock_after_prevotes(s, value), ..s };
    let cast = cast_vote(locked, VoteType::Precommit, value);
    lemma_check_precommits_orderly(cast.state);
    assert(cast.actions =~= seq![cast.actions[0]]);
    lemma_prepend_orderly(s, cast.state, cast.actions[0], check_precommits(cast.state));
}

/// Looking at the prevotes is orderly for a node that has cast its prevote
/// and has yet to precommit.
pub proof fn lemma_check_prevotes_orderly(s: BftView)
    requires
        s.step == Step::Prevote || s.step == Step::PrevoteWait,
        s.height < u64::MAX,
    ensures
        orderly(s, check_prevotes(s)),
        forall|i: int|
            0 <= i < check_prevotes(s).actions.len() ==> !is_vote_of(
                #[trigger] check_prevotes(s).actions[i],
                VoteType::Prevote,
            ),
        check_prevotes(s).state.height == s.height ==> check_prevotes(s).state.step
            != Step::Propose && check_prevotes(s).state.step != Step::Commit,
{
    assert forall|value: Seq<u8>|
        orderly(s, #[trigger] enter_precommit(s, value)) && (enter_precommit(
            s,
            value,
        ).state.height == s.height ==> past_precommit(enter_precommit(s, value).state.step)) by {
        lemma_enter_precommit_orderly(s, value);
    }
}

/// Going to the prevote step is orderly for a node in the propose step.
pub proof fn lemma_enter_prevote_orderly(s: BftView)
    requires
        s.step == Step::Propose,
        s.height < u64::MAX,
    ensures
        orderly(s, enter_prevote(s)),
        enter_prevote(s).state.height == s.height ==> enter_prevote(s).state.step
            != Step::Propose && enter_prevote(s).state.step != Step::Commit,
{
    let choice = prevote_choice(s.lock, usable_proposal(s));
    let chosen = BftView { step: Step::Prevote, lock: choice.1, ..s };
    let cast = cast_vote(chosen, VoteType::Prevote, choice.0);
    lemma_check_prevotes_orderly(cast.state);
    assert(cast.actions =~= seq![cast.actions[0]]);
    lemma_prepend_orderly(s, cast.state, cast.actions[0], check_prevotes(cast.state));
}

/// Proposing is orderly.
pub proof fn lemma_try_propose_orderly(s: BftView)
    requires
        s.height < u64::MAX,
        s.step != Step::Commit,
    ensures
        orderly(s, try_propose(s)),
        try_propose(s).state.height == s.height ==> try_propose(s).state.step != Step::Commit,
{
    if may_propose(s) {
        match own_proposal(s) {
            Some(p) => {
                let kept = BftView {
                    proposals: s.proposals.push(p),
                    verified: with_own_verdict(s, p.content),
                    ..s
                };
                lemma_enter_prevote_orderly(kept);
                lemma_prepend_orderly(
                    s,
                    kept,
                    ActionView::Send(CoreOutputView::Proposal(p)),
                    enter_prevote(kept),
                );
            },
            None => {},
        }
    }
}

/// Starting a round is orderly for the propose step of that round.
pub proof fn lemma_start_round_orderly(s: BftView)
    requires
        s.height < u64::MAX,
    ensures
        orderly(BftView { step: Step::Propose, ..s }, start_round(s)),
        start_round(s).state.height == s.height ==> start_round(s).state.step != Step::Commit,
{
    let state = BftView { step: Step::Propose, ..s };
    lemma_try_propose_orderly(state);
    lemma_prepend_orderly(
        state,
        state,
        crate::machine::timer_action(state, Step::Propose),
        try_propose(state),
    );
}

/// Whether a vote is one that a node in the state `s` has cast: for an
/// earlier height, for an earlier round of its height, or of a kind that
/// it has cast in its round.
pub open spec fn is_past(s: BftView, v: VoteView) -> bool {
    ||| v.height < s.height
    ||| v.height == s.height && v.round < s.round
    ||| v.height == s.height && v.round == s.round && has_cast(s.step, v.vote_type)
}

/// Whether a vote is one that a node in the state `s` may still cast: for
/// its height, and for a later round, or of a kind that it has yet to cast
/// in its round.
pub open spec fn is_ahead(s: BftView, v: VoteView) -> bool {
    &&& v.height == s.height
    &&& v.voter == s.params.address
    &&& (v.round > s.round || v.round == s.round && to_cast(s.step, v.vote_type))
}

/// On any event, the votes that a node casts are its own, for its height
/// and for rounds it has not voted in with that kind of vote; no two of
/// them are of one kind; and afterwards they, and all votes that were in
/// its past before, are in its past.
pub proof fn lemma_step_votes(s: BftView, event: EventView)
    requires
        inv(s),
        accepts(s, event),
    ensures
        forall|i: int|
            0 <= i < step(s, event).actions.len() ==> ((#[trigger] step(
                s,
                event,
            ).actions[i]) matches ActionView::Send(CoreOutputView::Vote(v)) ==> is_ahead(s, v)
                && is_past(step(s, event).state, v)),
        forall|i: int, j: int|
            #![trigger step(s, event).actions[i], step(s, event).actions[j]]
            0 <= i < j < step(s, event).actions.len() ==> !(step(
                s,
                event,
            ).actions[i] matches ActionView::Send(CoreOutputView::Vote(a)) && step(
                s,
                event,
            ).actions[j] matches ActionView::Send(CoreOutputView::Vote(b)) && a.vote_type
                == b.vote_type),
        forall|v: VoteView| is_past(s, v) ==> #[trigger] is_past(step(s, event).state, v),
        step(s, event).state.params.address == s.params.address,
        forall|i: int, j: int|
            #![trigger step(s, event).actions[i], step(s, event).actions[j]]
            0 <= i < step(s, event).actions.len() && 0 <= j < step(s, event).actions.len() ==> (
            step(s, event).actions[i] matches ActionView::Send(CoreOutputView::Vote(a)) ==> (step(
                s,
                event,
            ).actions[j] matches ActionView::Send(CoreOutputView::Vote(b)) ==> a.round
                == b.round)),
{
    reveal(step);
    let o = step(s, event);
    lemma_step_inv(s, event);
    let from = match event {
        EventView::Input(msg) => {
            match msg {
                CoreInputView::Proposal(p) => {
                    let kept = BftView { proposals: s.proposals.push(p), ..s };
                    if takes_proposal(s, p) && s.step == Step::Propose {
                        lemma_enter_prevote_orderly(kept);
                    }
                    kept
                },
                CoreInputView::Vote(v) => {
                    let counted = BftView { votes: with_counted(s, v), ..s };
                    if takes_vote(s, v) {
                        if s.step == Step::Prevote || s.step == Step::PrevoteWait {
                            lemma_check_prevotes_orderly(counted);
                        }
                        if past_precommit(s.step) {
                            lemma_check_precommits_orderly(counted);
                        }
                    }
                    counted
                },
                CoreInputView::Feed(f) => {
                    let kept = BftView { feeds: with_feed(s.feeds, f), ..s };
                    lemma_try_propose_orderly(kept);
                    kept
                },
                CoreInputView::VerifyResp(r) => {
                    let kept = BftView { verified: s.verified.push(r), ..s };
                    if s.step == Step::Propose {
                        lemma_enter_prevote_orderly(kept);
                    }
                    kept
                },
                CoreInputView::Status(status) => {
                    lemma_enter_height_no_votes(
                        BftView { params: installed(s.params, status), ..s },
                        (status.height + 1) as u64,
                    );
                    assert forall|i: int| 0 <= i < o.actions.len() implies !is_vote(
                        #[trigger] o.actions[i],
                    ) by {}
                    s
                },
                CoreInputView::Commit(_) => s,
                CoreInputView::Pause => s,
                CoreInputView::Start => {
                    let started = BftView { running: true, ..s };
                    lemma_start_round_orderly(started);
                    started
                },
            }
        },
        EventView::Timeout(info) => {
            if !s.running || info.height != s.height || info.round != s.round || info.step
                != s.step {
                s
            } else if s.step == Step::Propose {
                lemma_enter_prevote_orderly(s);
                s
            } else {
                let next = BftView { round: (s.round + 1) as u64, ..s };
                lemma_start_round_orderly(next);
                BftView { step: Step::Propose, ..next }
            }
        },
    };
    assert(orderly(from, o));
    assert forall|i: int, j: int|
        #![trigger o.actions[i], o.actions[j]]
        0 <= i < j < o.actions.len() implies !(o.actions[i] matches ActionView::Send(
        CoreOutputView::Vote(a),
    ) && o.actions[j] matches ActionView::Send(CoreOutputView::Vote(b)) && a.vote_type
        == b.vote_type) by {
        match o.actions[i] {
            ActionView::Send(CoreOutputView::Vote(a)) => {
                assert(!(is_vote_of(o.actions[i], a.vote_type) && is_vote_of(
                    o.actions[j],
                    a.vote_type,
                )));
            },
            _ => {},
        }
    }
    assert forall|i: int| 0 <= i < o.actions.len() implies ((
    #[trigger] o.actions[i]) matches ActionView::Send(CoreOutputView::Vote(a)) ==> a.round
        == from.round) by {
        match o.actions[i] {
            ActionView::Send(CoreOutputView::Vote(a)) => {
                assert(a.round == from.round);
            },
            _ => {},
        }
    }
}

/// Whether every vote among the actions is in the past of the node in the
/// state `s`.
pub open spec fn votes_past(actions: Seq<ActionView>, s: BftView) -> bool {
    forall|i: int|
        0 <= i < actions.len() ==> ((#[trigger] actions[i]) matches ActionView::Send(
            CoreOutputView::Vote(v),
        ) ==> is_past(s, v))
}

/// Whether the actions hold no two votes of one kind for one round of one
/// height.
pub open spec fn votes_once(actions: Seq<ActionView>) -> bool {
    forall|i: int, j: int|
        #![trigger actions[i], actions[j]]
        0 <= i < j < actions.len() ==> !(actions[i] matches ActionView::Send(
            CoreOutputView::Vote(a),
        ) && actions[j] matches ActionView::Send(CoreOutputView::Vote(b)) && a.vote_type
            == b.vote_type && a.height == b.height && a.round == b.round)
}

/// On any run of events a node casts at most one prevote and at most one
/// precommit for a round of a height, and all its votes are its own.
pub proof fn lemma_run_votes_once(s: BftView, events: Seq<EventView>)
    requires
        inv(s),
        accepted(s, events),
    ensures
        votes_once(run(s, events).actions),
        votes_past(run(s, events).actions, run(s, events).state),
        inv(run(s, events).state),
        run(s, events).state.params.address == s.params.address,
        forall|i: int|
            0 <= i < run(s, events).actions.len() ==> ((#[trigger] run(
                s,
                events,
            ).actions[i]) matches ActionView::Send(CoreOutputView::Vote(v)) ==> v.voter
                == s.params.address),
    decreases events.len(),
{
    if events.len() > 0 {
        let before = run(s, events.drop_last());
        let last = step(before.state, events.last());
        let all = before.actions + last.actions;
        lemma_run_votes_once(s, events.drop_last());
        lemma_step_inv(before.state, events.last());
        lemma_step_votes(before.state, events.last());
        assert forall|i: int| 0 <= i < all.len() implies ((#[trigger] all[i]) matches ActionView::Send(
            CoreOutputView::Vote(v),
        ) ==> is_past(last.state, v) && v.voter == s.params.address) by {
            if i < before.actions.len() {
                assert(all[i] == before.actions[i]);
            } else {
                assert(all[i] == last.actions[i - before.actions.len()]);
            }
        }
        assert forall|i: int, j: int|
            #![trigger all[i], all[j]]
            0 <= i < j < all.len() implies !(all[i] matches ActionView::Send(
            CoreOutputView::Vote(a),
        ) && all[j] matches ActionView::Send(CoreOutputView::Vote(b)) && a.vote_type
            == b.vote_type && a.height == b.height && a.round == b.round) by {
            if j < before.actions.len() {
                assert(all[i] == before.actions[i] && all[j] == before.actions[j]);
            } else if i < before.actions.len() {
                assert(all[i] == before.actions[i]);
                assert(all[j] == last.actions[j - before.actions.len()]);
            } else {
                assert(all[i] == last.actions[i - before.actions.len()]);
                assert(all[j] == last.actions[j - before.actions.len()]);
            }
        }
    }
}

} // verus!
