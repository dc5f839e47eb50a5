use crate::always::{accepts, inv, lemma_usable_proposal};
use crate::machine::{
    cast_vote, check_precommits, check_prevotes, commit, enter_height, enter_precommit,
    enter_prevote, may_propose, own_proposal, prevote_choice, start_round, step, takes_proposal,
    try_propose, usable_proposal, with_counted, with_feed, with_own_verdict, ActionView, BftView,
    EventView,
};
use crate::step::Step;
use crate::types::{CoreInputView, CoreOutputView, LockView, ProposalView, VoteType, VoteView};
use vstd::prelude::*;

verus! {

/// Whether an action is a prevote going out.
pub open spec fn is_prevote(action: ActionView) -> bool {
    action matches ActionView::Send(CoreOutputView::Vote(v)) && v.vote_type == VoteType::Prevote
}

/// Whether no prevote is among the actions.
pub open spec fn no_prevotes(actions: Seq<ActionView>) -> bool {
    forall|i: int| 0 <= i < actions.len() ==> !is_prevote(#[trigger] actions[i])
}

/// What a node that holds the lock `held` may prevote: the value it is
/// locked on, nil, or the value of a proposal among `known` for the round
/// of the vote that names a lock round not before that of `held`.
pub open spec fn may_prevote(held: LockView, vote: VoteView, known: Seq<ProposalView>) -> bool {
    ||| vote.proposal == held.proposal
    ||| vote.proposal.len() == 0
    ||| exists|k: int|
        0 <= k < known.len() && (#[trigger] known[k]).round == vote.round && known[k].content
            == vote.proposal && known[k].lock_round is Some && known[k].lock_round->0
            >= held.round
}

/// Whether every prevote among the actions is one that a node with the
/// lock `held` may cast.
pub open spec fn prevotes_keep_lock(
    actions: Seq<ActionView>,
    held: LockView,
    known: Seq<ProposalView>,
) -> bool {
    forall|i: int|
        0 <= i < actions.len() ==> ((#[trigger] actions[i]) matches ActionView::Send(
            CoreOutputView::Vote(v),
        ) ==> v.vote_type == VoteType::Prevote ==> may_prevote(held, v, known))
}

/// A locked node prevotes its locked value, nil, or the value of the
/// proposal where that names a lock round not before its own; in the last
/// case it takes over that lock, else it keeps its own.
pub proof fn lemma_locked_choice(held: LockView, proposal: Option<ProposalView>)
    ensures
        ({
            let choice = prevote_choice(Some(held), proposal);
            ||| choice.0 == held.proposal && choice.1 == Some(held)
            ||| choice.0.len() == 0 && choice.1 == Some(held)
            ||| proposal matches Some(p) && p.lock_round matches Some(lock_round) && lock_round
                >= held.round && choice.0 == p.content && choice.1 == Some(
                LockView { proposal: p.content, round: lock_round, votes: p.lock_votes },
            )
        }),
{
}

/// Moving to a height casts no prevote.
pub proof fn lemma_enter_height_no_prevotes(s: BftView, height: u64)
    ensures
        no_prevotes(enter_height(s, height).actions),
{
}

/// Looking at the precommits casts no prevote.
pub proof fn lemma_check_precommits_no_prevotes(s: BftView)
    ensures
        no_prevotes(check_precommits(s).actions),
{
    assert forall|value: Seq<u8>| no_prevotes(#[trigger] commit(s, value).actions) by {
        lemma_enter_height_no_prevotes(s, (s.height + 1) as u64);
    }
}

/// Going to the precommit step casts no prevote.
pub proof fn lemma_enter_precommit_no_prevotes(s: BftView, value: Seq<u8>)
    ensures
        no_prevotes(enter_precommit(s, value).actions),
{
    let locked = BftView {
        step: Step::Precommit,
        lock: crate::machine::lock_after_prevotes(s, value),
        ..s
    };
    let cast = cast_vote(locked, VoteType::Precommit, value);
    lemma_check_precommits_no_prevotes(cast.state);
}

/// Looking at the prevotes casts none.
pub proof fn lemma_check_prevotes_no_prevotes(s: BftView)
    ensures
        no_prevotes(check_prevotes(s).actions),
{
    assert forall|value: Seq<u8>| no_prevotes(#[trigger] enter_precommit(s, value).actions) by {
        lemma_enter_precommit_no_prevotes(s, value);
    }
}

/// The prevote that a locked node casts on going to the prevote step is
/// one that it may cast, with the proposals it keeps as those known.
pub proof fn lemma_enter_prevote_keeps_lock(s: BftView, held: LockView)
    requires
        s.lock == Some(held),
    ensures
        prevotes_keep_lock(enter_prevote(s).actions, held, s.proposals),
{
    lemma_usable_proposal(s);
    lemma_locked_choice(held, usable_proposal(s));
    let choice = prevote_choice(s.lock, usable_proposal(s));
    let chosen = BftView { step: Step::Prevote, lock: choice.1, ..s };
    let cast = cast_vote(chosen, VoteType::Prevote, choice.0);
    lemma_check_prevotes_no_prevotes(cast.state);
    let actions = enter_prevote(s).actions;
    assert forall|i: int| 0 <= i < actions.len() implies ((#[trigger] actions[i]) matches ActionView::Send(
        CoreOutputView::Vote(v),
    ) ==> v.vote_type == VoteType::Prevote ==> may_prevote(held, v, s.proposals)) by {
        if i == 0 {
            match usable_proposal(s) {
                Some(p) => {
                    let k = choose|k: int| 0 <= k < s.proposals.len() && s.proposals[k] == p;
                    assert(s.proposals[k].round == s.round);
                },
                None => {},
            }
        } else {
            assert(actions[i] == check_prevotes(cast.state).actions[i - 1]);
        }
    }
}

/// The prevote that a locked node casts on proposing is one that it may
/// cast, with the proposals it kept before as those known.
pub proof fn lemma_try_propose_keeps_lock(s: BftView, held: LockView)
    requires
        inv(s),
        s.lock == Some(held),
    ensures
        prevotes_keep_lock(try_propose(s).actions, held, s.proposals),
{
    if may_propose(s) {
        match own_proposal(s) {
            Some(p) => {
                let kept = BftView {
                    proposals: s.proposals.push(p),
                    verified: with_own_verdict(s, p.content),
                    ..s
                };
                lemma_enter_prevote_keeps_lock(kept, held);
                let inner = enter_prevote(kept).actions;
                let actions = try_propose(s).actions;
                assert forall|i: int| 0 <= i < actions.len() implies ((
                #[trigger] actions[i]) matches ActionView::Send(CoreOutputView::Vote(v))
                    ==> v.vote_type == VoteType::Prevote ==> may_prevote(held, v, s.proposals)) by {
                    if i > 0 {
                        assert(actions[i] == inner[i - 1]);
                        match actions[i] {
                            ActionView::Send(CoreOutputView::Vote(v)) => {
                                if v.vote_type == VoteType::Prevote {
                                    assert(may_prevote(held, v, kept.proposals));
                                    if !(v.proposal == held.proposal || v.proposal.len() == 0) {
                                        let k = choose|k: int|
                                            0 <= k < kept.proposals.len() && (
                                            #[trigger] kept.proposals[k]).round == v.round
                                                && kept.proposals[k].content == v.proposal
                                                && kept.proposals[k].lock_round is Some
                                                && kept.proposals[k].lock_round->0 >= held.round;
                                        if k < s.proposals.len() {
                                            assert(s.proposals[k] == kept.proposals[k]);
                                        }
                                    }
                                }
                            },
                            _ => {},
                        }
                    }
                }
            },
            None => {},
        }
    }
}

/// The prevote that a locked node casts on starting a round is one that
/// it may cast, with the proposals it kept before as those known.
pub proof fn lemma_start_round_keeps_lock(s: BftView, held: LockView)
    requires
        inv(BftView { step: Step::Propose, ..s }),
        s.lock == Some(held),
    ensures
        prevotes_keep_lock(start_round(s).actions, held, s.proposals),
{
    let state = BftView { step: Step::Propose, ..s };
    lemma_try_propose_keeps_lock(state, held);
    let inner = try_propose(state).actions;
    let actions = start_round(s).actions;
    assert forall|i: int| 0 <= i < actions.len() implies ((#[trigger] actions[i]) matches ActionView::Send(
        CoreOutputView::Vote(v),
    ) ==> v.vote_type == VoteType::Prevote ==> may_prevote(held, v, s.proposals)) by {
        if i > 0 {
            assert(actions[i] == inner[i - 1]);
        }
    }
}

/// The proposals that a node knows of on an event: those it keeps, and
/// the one that the event brings.
pub open spec fn known_on(s: BftView, event: EventView) -> Seq<ProposalView> {
    match event {
        EventView::Input(CoreInputView::Proposal(p)) => s.proposals.push(p),
        _ => s.proposals,
    }
}

/// Once locked, a node prevotes its locked value alone, unless it votes
/// nil or takes over the lock of a proposal it knows of that names a lock
/// round not before that of its own lock: on any event, every prevote that
/// a locked node casts is one that `may_prevote` allows.
pub proof fn lemma_step_keeps_lock(s: BftView, event: EventView, held: LockView)
    requires
        inv(s),
        accepts(s, event),
        s.lock == Some(held),
    ensures
        prevotes_keep_lock(step(s, event).actions, held, known_on(s, event)),
{
    reveal(step);
    match event {
        EventView::Input(msg) => {
            match msg {
                CoreInputView::Proposal(p) => {
                    if takes_proposal(s, p) {
                        let kept = BftView { proposals: s.proposals.push(p), ..s };
                        lemma_enter_prevote_keeps_lock(kept, held);
                    }
                },
                CoreInputView::Vote(v) => {
                    let counted = BftView { votes: with_counted(s, v), ..s };
                    lemma_check_prevotes_no_prevotes(counted);
                    lemma_check_precommits_no_prevotes(counted);
                },
                CoreInputView::Feed(f) => {
                    if f.proposal.len() > 0 {
                        crate::always::lemma_with_feed_ok(s.feeds, f);
                        let kept = BftView { feeds: with_feed(s.feeds, f), ..s };
                        assert(inv(kept));
                        lemma_try_propose_keeps_lock(kept, held);
                    }
                },
                CoreInputView::VerifyResp(r) => {
                    let kept = BftView { verified: s.verified.push(r), ..s };
                    lemma_enter_prevote_keeps_lock(kept, held);
                },
                CoreInputView::Status(status) => {
                    lemma_enter_height_no_prevotes(
                        BftView { params: crate::params::installed(s.params, status), ..s },
                        (status.height + 1) as u64,
                    );
                },
                CoreInputView::Commit(_) => {},
                CoreInputView::Pause => {},
                CoreInputView::Start => {
                    let started = BftView { running: true, ..s };
                    assert(inv(started));
                    if started.step == Step::Propose {
                        lemma_start_round_keeps_lock(started, held);
                    }
                },
            }
        },
        EventView::Timeout(info) => {
            lemma_enter_prevote_keeps_lock(s, held);
            let next = BftView { round: (s.round + 1) as u64, ..s };
            assert(inv(BftView { step: Step::Propose, ..next }));
            lemma_start_round_keeps_lock(next, held);
        },
    }
}

} // verus!
