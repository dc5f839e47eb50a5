use crate::agreement::shows;
use crate::always::{accepts, inv, lemma_cast_vote_inv, lemma_usable_proposal, proposal_ok};
use crate::machine::{
    after, cast_vote, check_precommits, check_prevotes, enter_height, enter_precommit,
    enter_prevote, lock_after_prevotes, may_propose, own_proposal, own_vote, prevote_choice,
    on_feed, on_proposal, on_start, on_timeout, on_verify_resp, on_vote, start_round, stay, step,
    takes_proposal, takes_vote, timer_action, try_propose, usable_proposal, with_counted,
    with_own_verdict, ActionView, BftView, EventView, Outcome,
};
use crate::params::{total_vote_weight, vote_weight};
use crate::safety::{
    lemma_ballots_at_ok, lemma_first_quorum_has, lemma_votes_for, lemma_votes_for_distinct,
    lemma_votes_weight,
};
use crate::step::Step;
use crate::types::{CoreInputView, CoreOutputView, LockView, VoteType, VoteView};
use crate::voteset::{
    ballots_at, classify, lemma_slot_index, quorum_value, slot_index, slots_with_vote,
    tally_values, votes_for, InsertOutcome,
};
use vstd::prelude::*;

verus! {

/// The votes that go out among the actions.
pub open spec fn cast_in(actions: Seq<ActionView>) -> Set<VoteView> {
    Set::new(
        |v: VoteView|
            exists|i: int|
                0 <= i < actions.len() && #[trigger] actions[i] == ActionView::Send(
                    CoreOutputView::Vote(v),
                ),
    )
}

/// Whether all of `votes` are among those `known`.
pub open spec fn all_known(votes: Seq<VoteView>, known: Set<VoteView>) -> bool {
    forall|i: int| 0 <= i < votes.len() ==> known.contains(#[trigger] votes[i])
}

/// Whether votes that are `known` show that `value` had two thirds of the
/// prevotes of a round of a height.
pub open spec fn polka_known(
    p: crate::params::ParamsView,
    known: Set<VoteView>,
    height: u64,
    round: u64,
    value: Seq<u8>,
) -> bool {
    exists|votes: Seq<VoteView>|
        #![trigger shows(p, votes, VoteType::Prevote, height, round, value)]
        shows(p, votes, VoteType::Prevote, height, round, value) && all_known(votes, known)
}

/// Whether what a node keeps rests on votes that are `known`: the votes of
/// its ballots are; the votes of its lock are, and show that the locked
/// value had two thirds of the prevotes of the round of the lock; and so
/// for the lock round and votes of each proposal that names a lock round.
pub open spec fn rests_on(s: BftView, known: Set<VoteView>) -> bool {
    &&& forall|k: int, i: int|
        0 <= k < s.votes.len() && 0 <= i < s.votes[k].ballots.len() ==> known.contains(
            (#[trigger] s.votes[k].ballots[i]).vote,
        )
    &&& (s.lock matches Some(held) ==> shows(
        s.params,
        held.votes,
        VoteType::Prevote,
        s.height,
        held.round,
        held.proposal,
    ) && all_known(held.votes, known))
    &&& forall|i: int|
        0 <= i < s.proposals.len() ==> ((#[trigger] s.proposals[i]).lock_round matches Some(
            lock_round,
        ) ==> shows(
            s.params,
            s.proposals[i].lock_votes,
            VoteType::Prevote,
            s.height,
            lock_round,
            s.proposals[i].content,
        ) && all_known(s.proposals[i].lock_votes, known))
}

/// Whether the prevote `v` of a node that held the lock `lock` before is
/// one that the lock allows: the value it is for had two thirds of the
/// prevotes of a round before that of the vote and not before that of the
/// lock, by votes that are `known`.
pub open spec fn prevote_grounded(
    p: crate::params::ParamsView,
    known: Set<VoteView>,
    lock: Option<LockView>,
    v: VoteView,
) -> bool {
    lock matches Some(held) ==> exists|lock_round: u64|
        held.round <= lock_round < v.round && #[trigger] polka_known(
            p,
            known,
            v.height,
            lock_round,
            v.proposal,
        )
}

/// Whether the outcome `o` of a node in the state `s`, whose state rested
/// on the votes `known`, is sound: its state rests on those votes and the
/// votes that go out; each precommit that goes out follows two thirds of
/// the prevotes of its round for what it is for, and one for a value
/// leaves the node with a lock of that round or a later one while it
/// stays at its height;
/// each prevote for a value that goes out is one that the lock held
/// before allows; and the precommits that a decision carries are known.
pub open spec fn sound(s: BftView, known: Set<VoteView>, o: Outcome) -> bool {
    &&& rests_on(o.state, known.union(cast_in(o.actions)))
    &&& forall|i: int|
        0 <= i < o.actions.len() ==> ((#[trigger] o.actions[i]) matches ActionView::Send(
            CoreOutputView::Vote(v),
        ) ==> (v.vote_type == VoteType::Precommit ==> polka_known(
            s.params,
            known.union(cast_in(o.actions)),
            v.height,
            v.round,
            v.proposal,
        ) && (v.proposal.len() > 0 && o.state.height == s.height ==> o.state.lock is Some
            && o.state.lock->0.round >= v.round)) && (v.vote_type == VoteType::Prevote
            && v.proposal.len() > 0 ==> prevote_grounded(s.params, known, s.lock, v)))
    &&& forall|i: int|
        0 <= i < o.actions.len() ==> ((#[trigger] o.actions[i]) matches ActionView::Send(
            CoreOutputView::Commit(c),
        ) ==> all_known(c.lock_votes, known.union(cast_in(o.actions))))
}

/// Votes that are known stay known when more become known.
pub proof fn lemma_all_known_grows(votes: Seq<VoteView>, known: Set<VoteView>, more: Set<VoteView>)
    requires
        all_known(votes, known),
        known.subset_of(more),
    ensures
        all_known(votes, more),
{
}

/// What known votes show, they show when more become known.
pub proof fn lemma_polka_known_grows(
    p: crate::params::ParamsView,
    known: Set<VoteView>,
    more: Set<VoteView>,
    height: u64,
    round: u64,
    value: Seq<u8>,
)
    requires
        polka_known(p, known, height, round, value),
        known.subset_of(more),
    ensures
        polka_known(p, more, height, round, value),
{
    let votes = choose|votes: Seq<VoteView>|
        #![trigger shows(p, votes, VoteType::Prevote, height, round, value)]
        shows(p, votes, VoteType::Prevote, height, round, value) && all_known(votes, known);
    lemma_all_known_grows(votes, known, more);
}

/// What a node keeps rests on more votes where it rests on fewer.
pub proof fn lemma_rests_on_grows(s: BftView, known: Set<VoteView>, more: Set<VoteView>)
    requires
        rests_on(s, known),
        known.subset_of(more),
    ensures
        rests_on(s, more),
{
    match s.lock {
        Some(held) => {
            lemma_all_known_grows(held.votes, known, more);
        },
        None => {},
    }
    assert forall|i: int| 0 <= i < s.proposals.len() implies ((
    #[trigger] s.proposals[i]).lock_round matches Some(lock_round) ==> shows(
        s.params,
        s.proposals[i].lock_votes,
        VoteType::Prevote,
        s.height,
        lock_round,
        s.proposals[i].content,
    ) && all_known(s.proposals[i].lock_votes, more)) by {
        if s.proposals[i].lock_round is Some {
            lemma_all_known_grows(s.proposals[i].lock_votes, known, more);
        }
    }
}

/// The votes that go out among two runs of actions are those of the one
/// and those of the other.
pub proof fn lemma_cast_in_concat(a: Seq<ActionView>, b: Seq<ActionView>)
    ensures
        cast_in(a + b) == cast_in(a).union(cast_in(b)),
{
    let all = a + b;
    assert forall|v: VoteView| cast_in(all).contains(v) <==> cast_in(a).union(cast_in(b)).contains(
        v,
    ) by {
        if cast_in(all).contains(v) {
            let i = choose|i: int|
                0 <= i < all.len() && #[trigger] all[i] == ActionView::Send(
                    CoreOutputView::Vote(v),
                );
            if i < a.len() {
                assert(a[i] == all[i]);
            } else {
                assert(b[i - a.len()] == all[i]);
            }
        }
        if cast_in(a).contains(v) {
            let i = choose|i: int|
                0 <= i < a.len() && #[trigger] a[i] == ActionView::Send(CoreOutputView::Vote(v));
            assert(all[i] == a[i]);
        }
        if cast_in(b).contains(v) {
            let i = choose|i: int|
                0 <= i < b.len() && #[trigger] b[i] == ActionView::Send(CoreOutputView::Vote(v));
            assert(all[a.len() + i] == b[i]);
        }
    }
    assert(cast_in(all) =~= cast_in(a).union(cast_in(b)));
}

/// Where a value has two thirds of the votes of a kind in the node's
/// round, the votes for it show so, and are known where the node's ballots
/// are.
pub proof fn lemma_quorum_shows(s: BftView, known: Set<VoteView>, vote_type: VoteType, value: Seq<u8>)
    requires
        inv(s),
        rests_on(s, known),
        quorum_value(ballots_at(s.votes, s.round, vote_type), total_vote_weight(s.params)) == Some(
            value,
        ),
    ensures
        shows(
            s.params,
            votes_for(ballots_at(s.votes, s.round, vote_type), value),
            vote_type,
            s.height,
            s.round,
            value,
        ),
        all_known(votes_for(ballots_at(s.votes, s.round, vote_type), value), known),
{
    let ballots = ballots_at(s.votes, s.round, vote_type);
    let votes = votes_for(ballots, value);
    lemma_first_quorum_has(tally_values(ballots), ballots, total_vote_weight(s.params));
    lemma_ballots_at_ok(s, vote_type);
    lemma_votes_for(ballots, value);
    lemma_votes_for_distinct(ballots, value);
    lemma_votes_weight(s.params, ballots, value);
    lemma_slot_index(s.votes, s.round, vote_type);
    assert forall|i: int| 0 <= i < votes.len() implies {
        &&& (#[trigger] votes[i]).vote_type == vote_type
        &&& votes[i].height == s.height
        &&& votes[i].round == s.round
        &&& votes[i].proposal == value
        &&& known.contains(votes[i])
    } by {
        let j = choose|j: int| 0 <= j < ballots.len() && (#[trigger] ballots[j]).vote == votes[i];
        assert(ballots[j].vote.height == s.height);
        match slot_index(s.votes, s.round, vote_type) {
            Some(k) => {
                assert(known.contains(s.votes[k].ballots[j].vote));
            },
            None => {},
        }
    }
}

/// Counting a vote that is known leaves what the node keeps resting on
/// what is known.
pub proof fn lemma_with_counted_rests(s: BftView, vote: VoteView, known: Set<VoteView>)
    requires
        rests_on(s, known),
        known.contains(vote),
    ensures
        rests_on(BftView { votes: with_counted(s, vote), ..s }, known),
{
    let w = vote_weight(s.params, vote.voter);
    let slots = s.votes;
    if w > 0 && classify(ballots_at(slots, vote.round, vote.vote_type), vote)
        == InsertOutcome::Added {
        let grown = slots_with_vote(slots, vote, w);
        lemma_slot_index(slots, vote.round, vote.vote_type);
        assert forall|k: int, i: int|
            0 <= k < grown.len() && 0 <= i < grown[k].ballots.len() implies known.contains(
            (#[trigger] grown[k].ballots[i]).vote,
        ) by {
            match slot_index(slots, vote.round, vote.vote_type) {
                Some(at) => {
                    if k == at {
                        if i < slots[at].ballots.len() {
                            assert(grown[k].ballots[i] == slots[k].ballots[i]);
                        }
                    } else {
                        assert(grown[k] == slots[k]);
                        assert(known.contains(slots[k].ballots[i].vote));
                    }
                },
                None => {
                    if k < slots.len() {
                        assert(grown[k] == slots[k]);
                        assert(known.contains(slots[k].ballots[i].vote));
                    }
                },
            }
        }
    }
}

/// Looking at the precommits casts no vote.
pub proof fn lemma_check_precommits_casts_none(s: BftView)
    requires
        s.height < u64::MAX,
    ensures
        cast_in(check_precommits(s).actions) == Set::<VoteView>::empty(),
        check_precommits(s).state.height == s.height ==> check_precommits(s).state.lock
            == s.lock,
{
    let actions = check_precommits(s).actions;
    assert forall|v: VoteView| !cast_in(actions).contains(v) by {
        if cast_in(actions).contains(v) {
            let i = choose|i: int|
                0 <= i < actions.len() && #[trigger] actions[i] == ActionView::Send(
                    CoreOutputView::Vote(v),
                );
            assert(false);
        }
    }
    assert(cast_in(actions) =~= Set::<VoteView>::empty());
}

/// A single action casts the vote that it sends out, and nothing else.
pub proof fn lemma_cast_in_single(action: ActionView)
    ensures
        action matches ActionView::Send(CoreOutputView::Vote(v)) ==> cast_in(seq![action])
            == Set::<VoteView>::empty().insert(v),
        !(action matches ActionView::Send(CoreOutputView::Vote(_))) ==> cast_in(seq![action])
            == Set::<VoteView>::empty(),
{
    let actions = seq![action];
    match action {
        ActionView::Send(CoreOutputView::Vote(v)) => {
            assert forall|u: VoteView| cast_in(actions).contains(u) <==> u == v by {
                if u == v {
                    assert(actions[0] == ActionView::Send(CoreOutputView::Vote(v)));
                }
            }
            assert(cast_in(actions) =~= Set::<VoteView>::empty().insert(v));
        },
        _ => {
            assert forall|u: VoteView| !cast_in(actions).contains(u) by {
                if cast_in(actions).contains(u) {
                    let i = choose|i: int|
                        0 <= i < actions.len() && #[trigger] actions[i] == ActionView::Send(
                            CoreOutputView::Vote(u),
                        );
                    assert(false);
                }
            }
            assert(cast_in(actions) =~= Set::<VoteView>::empty());
        },
    }
}

/// Looking at the precommits is sound.
pub proof fn lemma_check_precommits_sound(s: BftView, known: Set<VoteView>)
    requires
        inv(s),
        s.height < u64::MAX,
        rests_on(s, known),
    ensures
        sound(s, known, check_precommits(s)),
{
    lemma_check_precommits_casts_none(s);
    let o = check_precommits(s);
    assert(known.union(cast_in(o.actions)) =~= known);
    match quorum_value(
        ballots_at(s.votes, s.round, VoteType::Precommit),
        total_vote_weight(s.params),
    ) {
        Some(value) => {
            lemma_quorum_shows(s, known, VoteType::Precommit, value);
        },
        None => {},
    }
    assert forall|i: int| 0 <= i < o.actions.len() implies ((
    #[trigger] o.actions[i]) matches ActionView::Send(CoreOutputView::Commit(c)) ==> all_known(
        c.lock_votes,
        known,
    )) by {
        if i > 0 && o.actions.len() > 1 {
            let moved = enter_height(s, (s.height + 1) as u64);
            assert(o.actions[i] == moved.actions[i - 1]);
        }
    }
    assert forall|i: int| 0 <= i < o.actions.len() implies !((
    #[trigger] o.actions[i]) matches ActionView::Send(CoreOutputView::Vote(_))) by {
        match o.actions[i] {
            ActionView::Send(CoreOutputView::Vote(v)) => {
                assert(cast_in(o.actions).contains(v));
            },
            _ => {},
        }
    }
}

/// Going to the precommit step, after two thirds of the prevotes of the
/// round were for `value`, is sound.
pub proof fn lemma_enter_precommit_sound(s: BftView, value: Seq<u8>, known: Set<VoteView>)
    requires
        inv(s),
        s.height < u64::MAX,
        rests_on(s, known),
        quorum_value(
            ballots_at(s.votes, s.round, VoteType::Prevote),
            total_vote_weight(s.params),
        ) == Some(value),
    ensures
        sound(s, known, enter_precommit(s, value)),
{
    let locked = BftView { step: Step::Precommit, lock: lock_after_prevotes(s, value), ..s };
    lemma_quorum_shows(s, known, VoteType::Prevote, value);
    assert(inv(locked));
    assert(rests_on(locked, known));
    let own = own_vote(locked, VoteType::Precommit, value);
    let cast = cast_vote(locked, VoteType::Precommit, value);
    let known1 = known.insert(own);
    lemma_rests_on_grows(locked, known, known1);
    lemma_with_counted_rests(locked, own, known1);
    lemma_cast_vote_inv(locked, VoteType::Precommit, value);
    let chk = check_precommits(cast.state);
    lemma_check_precommits_sound(cast.state, known1);
    lemma_check_precommits_casts_none(cast.state);
    let o = enter_precommit(s, value);
    lemma_cast_in_concat(cast.actions, chk.actions);
    lemma_cast_in_single(cast.actions[0]);
    assert(cast.actions =~= seq![cast.actions[0]]);
    let later = known.union(cast_in(o.actions));
    assert(later =~= known1);
    assert(known1.union(cast_in(chk.actions)) =~= known1);
    assert forall|i: int| 0 <= i < o.actions.len() implies ((
    #[trigger] o.actions[i]) matches ActionView::Send(CoreOutputView::Vote(v)) ==> (v.vote_type
        == VoteType::Precommit ==> polka_known(s.params, later, v.height, v.round, v.proposal) && (
    v.proposal.len() > 0 && o.state.height == s.height ==> o.state.lock is Some
        && o.state.lock->0.round >= v.round)) && (v.vote_type == VoteType::Prevote
        && v.proposal.len() > 0 ==> prevote_grounded(s.params, known, s.lock, v))) by {
        if i == 0 {
            let votes = votes_for(ballots_at(s.votes, s.round, VoteType::Prevote), value);
            lemma_all_known_grows(votes, known, later);
            assert(shows(s.params, votes, VoteType::Prevote, s.height, s.round, value));
        } else {
            assert(o.actions[i] == chk.actions[i - 1]);
            match o.actions[i] {
                ActionView::Send(CoreOutputView::Vote(v)) => {
                    assert(cast_in(chk.actions).contains(v));
                },
                _ => {},
            }
        }
    }
    assert forall|i: int| 0 <= i < o.actions.len() implies ((
    #[trigger] o.actions[i]) matches ActionView::Send(CoreOutputView::Commit(c)) ==> all_known(
        c.lock_votes,
        later,
    )) by {
        if i > 0 {
            assert(o.actions[i] == chk.actions[i - 1]);
        }
    }
}

/// Looking at the prevotes is sound, and casts no prevote.
pub proof fn lemma_check_prevotes_sound(s: BftView, known: Set<VoteView>)
    requires
        inv(s),
        s.height < u64::MAX,
        rests_on(s, known),
    ensures
        sound(s, known, check_prevotes(s)),
        crate::locking::no_prevotes(check_prevotes(s).actions),
{
    crate::locking::lemma_check_prevotes_no_prevotes(s);
    let o = check_prevotes(s);
    match quorum_value(
        ballots_at(s.votes, s.round, VoteType::Prevote),
        total_vote_weight(s.params),
    ) {
        Some(value) => {
            lemma_enter_precommit_sound(s, value, known);
        },
        None => {
            lemma_cast_in_single(timer_action(s, Step::PrevoteWait));
            assert(cast_in(Seq::<ActionView>::empty()) =~= Set::<VoteView>::empty());
            assert(known.union(cast_in(o.actions)) =~= known);
        },
    }
}

/// Going to the prevote step is sound for a node in the propose step.
pub proof fn lemma_enter_prevote_sound(s: BftView, known: Set<VoteView>)
    requires
        inv(s),
        s.step == Step::Propose,
        s.height < u64::MAX,
        rests_on(s, known),
    ensures
        sound(s, known, enter_prevote(s)),
{
    lemma_usable_proposal(s);
    let choice = prevote_choice(s.lock, usable_proposal(s));
    let chosen = BftView { step: Step::Prevote, lock: choice.1, ..s };
    match usable_proposal(s) {
        Some(p) => {
            let k = choose|k: int| 0 <= k < s.proposals.len() && s.proposals[k] == p;
            assert(proposal_ok(s.height, s.proposals[k]));
        },
        None => {},
    }
    assert(inv(chosen));
    assert(rests_on(chosen, known));
    let own = own_vote(chosen, VoteType::Prevote, choice.0);
    let cast = cast_vote(chosen, VoteType::Prevote, choice.0);
    let known1 = known.insert(own);
    lemma_rests_on_grows(chosen, known, known1);
    lemma_with_counted_rests(chosen, own, known1);
    lemma_cast_vote_inv(chosen, VoteType::Prevote, choice.0);
    let chk = check_prevotes(cast.state);
    lemma_check_prevotes_sound(cast.state, known1);
    let o = enter_prevote(s);
    lemma_cast_in_concat(cast.actions, chk.actions);
    lemma_cast_in_single(cast.actions[0]);
    assert(cast.actions =~= seq![cast.actions[0]]);
    let later = known.union(cast_in(o.actions));
    assert(later =~= known1.union(cast_in(chk.actions)));
    assert(o.actions[0] == ActionView::Send(CoreOutputView::Vote(own)));
    if choice.0.len() > 0 {
        match s.lock {
            Some(held) => {
                if choice.0 == held.proposal && choice.1 == s.lock {
                    assert(shows(
                        s.params,
                        held.votes,
                        VoteType::Prevote,
                        s.height,
                        held.round,
                        choice.0,
                    ));
                    assert(polka_known(s.params, known, own.height, held.round, own.proposal));
                    assert(held.round <= held.round < own.round);
                } else {
                    let p = usable_proposal(s)->0;
                    let k = choose|k: int| 0 <= k < s.proposals.len() && s.proposals[k] == p;
                    assert(proposal_ok(s.height, s.proposals[k]));
                    assert(shows(
                        s.params,
                        p.lock_votes,
                        VoteType::Prevote,
                        s.height,
                        p.lock_round->0,
                        choice.0,
                    ));
                    assert(polka_known(s.params, known, own.height, p.lock_round->0, own.proposal));
                    assert(held.round <= p.lock_round->0 < own.round);
                }
                assert(prevote_grounded(s.params, known, s.lock, own));
            },
            None => {},
        }
    }
    assert(prevote_grounded(s.params, known, s.lock, own) || own.proposal.len() == 0);
    assert forall|i: int| 0 <= i < o.actions.len() implies ((
    #[trigger] o.actions[i]) matches ActionView::Send(CoreOutputView::Vote(v)) ==> (v.vote_type
        == VoteType::Precommit ==> polka_known(s.params, later, v.height, v.round, v.proposal) && (
    v.proposal.len() > 0 && o.state.height == s.height ==> o.state.lock is Some
        && o.state.lock->0.round >= v.round)) && (v.vote_type == VoteType::Prevote
        && v.proposal.len() > 0 ==> prevote_grounded(s.params, known, s.lock, v))) by {
        if i > 0 {
            assert(o.actions[i] == chk.actions[i - 1]);
            assert(!crate::locking::is_prevote(chk.actions[i - 1]));
        }
    }
    assert forall|i: int| 0 <= i < o.actions.len() implies ((
    #[trigger] o.actions[i]) matches ActionView::Send(CoreOutputView::Commit(c)) ==> all_known(
        c.lock_votes,
        later,
    )) by {
        if i > 0 {
            assert(o.actions[i] == chk.actions[i - 1]);
        }
    }
}

/// An action that is no vote, followed by a sound outcome for the state
/// `kept` that differs from `s` in what it keeps of proposals, feeds and
/// answers alone, is a sound outcome for `s`.
pub proof fn lemma_prepend_sound(
    s: BftView,
    kept: BftView,
    first: ActionView,
    o: Outcome,
    known: Set<VoteView>,
)
    requires
        !(first matches ActionView::Send(CoreOutputView::Vote(_))),
        !(first matches ActionView::Send(CoreOutputView::Commit(_))),
        kept.params == s.params,
        kept.lock == s.lock,
        kept.height == s.height,
        sound(kept, known, o),
    ensures
        sound(s, known, Outcome { state: o.state, actions: seq![first] + o.actions }),
{
    let all = seq![first] + o.actions;
    lemma_cast_in_concat(seq![first], o.actions);
    lemma_cast_in_single(first);
    assert(known.union(cast_in(all)) =~= known.union(cast_in(o.actions)));
    let later = known.union(cast_in(all));
    assert forall|i: int| 0 <= i < all.len() implies ((#[trigger] all[i]) matches ActionView::Send(
        CoreOutputView::Vote(v),
    ) ==> (v.vote_type == VoteType::Precommit ==> polka_known(
        s.params,
        later,
        v.height,
        v.round,
        v.proposal,
    ) && (v.proposal.len() > 0 && o.state.height == s.height ==> o.state.lock is Some
        && o.state.lock->0.round >= v.round)) && (v.vote_type == VoteType::Prevote
        && v.proposal.len() > 0 ==> prevote_grounded(s.params, known, s.lock, v))) by {
        if i > 0 {
            assert(all[i] == o.actions[i - 1]);
        }
    }
    assert forall|i: int| 0 <= i < all.len() implies ((#[trigger] all[i]) matches ActionView::Send(
        CoreOutputView::Commit(c),
    ) ==> all_known(c.lock_votes, later)) by {
        if i > 0 {
            assert(all[i] == o.actions[i - 1]);
        }
    }
}

/// Proposing is sound.
pub proof fn lemma_try_propose_sound(s: BftView, known: Set<VoteView>)
    requires
        inv(s),
        s.height < u64::MAX,
        rests_on(s, known),
    ensures
        sound(s, known, try_propose(s)),
{
    if may_propose(s) && own_proposal(s) is Some {
        let p = own_proposal(s)->0;
        let kept = BftView {
            proposals: s.proposals.push(p),
            verified: with_own_verdict(s, p.content),
            ..s
        };
        crate::always::lemma_own_proposal_ok(s);
        assert forall|i: int| 0 <= i < kept.proposals.len() implies proposal_ok(
            kept.height,
            #[trigger] kept.proposals[i],
        ) by {
            if i < s.proposals.len() {
                assert(kept.proposals[i] == s.proposals[i]);
            }
        }
        assert(inv(kept));
        assert forall|i: int| 0 <= i < kept.proposals.len() implies ((
        #[trigger] kept.proposals[i]).lock_round matches Some(lock_round) ==> shows(
            kept.params,
            kept.proposals[i].lock_votes,
            VoteType::Prevote,
            kept.height,
            lock_round,
            kept.proposals[i].content,
        ) && all_known(kept.proposals[i].lock_votes, known)) by {
            if i < s.proposals.len() {
                assert(kept.proposals[i] == s.proposals[i]);
            }
        }
        assert(rests_on(kept, known));
        lemma_enter_prevote_sound(kept, known);
        lemma_prepend_sound(
            s,
            kept,
            ActionView::Send(CoreOutputView::Proposal(p)),
            enter_prevote(kept),
            known,
        );
    } else {
        assert(cast_in(Seq::<ActionView>::empty()) =~= Set::<VoteView>::empty());
        assert(known.union(cast_in(try_propose(s).actions)) =~= known);
    }
}

/// Starting a round is sound for the propose step of that round.
pub proof fn lemma_start_round_sound(s: BftView, known: Set<VoteView>)
    requires
        inv(BftView { step: Step::Propose, ..s }),
        s.height < u64::MAX,
        rests_on(s, known),
    ensures
        sound(BftView { step: Step::Propose, ..s }, known, start_round(s)),
{
    let state = BftView { step: Step::Propose, ..s };
    assert(rests_on(state, known));
    lemma_try_propose_sound(state, known);
    lemma_prepend_sound(
        state,
        state,
        timer_action(state, Step::Propose),
        try_propose(state),
        known,
    );
}

/// The votes that an event brings: the vote itself, or the votes that a
/// proposal carries.
pub open spec fn received(event: EventView) -> Set<VoteView> {
    match event {
        EventView::Input(CoreInputView::Vote(v)) => Set::<VoteView>::empty().insert(v),
        EventView::Input(CoreInputView::Proposal(p)) => Set::new(
            |v: VoteView| p.lock_votes.contains(v),
        ),
        _ => Set::<VoteView>::empty(),
    }
}

/// Nothing among no actions is cast.
pub proof fn lemma_cast_in_empty()
    ensures
        cast_in(Seq::<ActionView>::empty()) == Set::<VoteView>::empty(),
{
    assert(cast_in(Seq::<ActionView>::empty()) =~= Set::<VoteView>::empty());
}

/// A sound outcome for a state is one for any state with the same
/// height, lock and parameters.
pub proof fn lemma_sound_for(s: BftView, like: BftView, known: Set<VoteView>, o: Outcome)
    requires
        sound(like, known, o),
        like.params == s.params,
        like.lock == s.lock,
        like.height == s.height,
    ensures
        sound(s, known, o),
{
}

/// An outcome in which nothing goes out is sound where its state rests on
/// what is known.
pub proof fn lemma_silent_sound(s: BftView, known: Set<VoteView>, state: BftView)
    requires
        rests_on(state, known),
    ensures
        sound(s, known, Outcome { state, actions: Seq::empty() }),
{
    lemma_cast_in_empty();
    assert(known.union(cast_in(Seq::<ActionView>::empty())) =~= known);
}

/// Taking a proposal is sound, with the votes that it carries known.
pub proof fn lemma_on_proposal_sound(s: BftView, p: crate::types::ProposalView, known: Set<VoteView>)
    requires
        inv(s),
        s.height < u64::MAX,
        rests_on(s, known),
        forall|j: int| 0 <= j < p.lock_votes.len() ==> known.contains(#[trigger] p.lock_votes[j]),
    ensures
        sound(s, known, on_proposal(s, p)),
{
    let o = on_proposal(s, p);
    if takes_proposal(s, p) {
        let kept = BftView { proposals: s.proposals.push(p), ..s };
        assert forall|i: int| 0 <= i < kept.proposals.len() implies proposal_ok(
            kept.height,
            #[trigger] kept.proposals[i],
        ) by {
            if i < s.proposals.len() {
                assert(kept.proposals[i] == s.proposals[i]);
            }
        }
        assert(inv(kept));
        assert forall|i: int| 0 <= i < kept.proposals.len() implies ((
        #[trigger] kept.proposals[i]).lock_round matches Some(lock_round) ==> shows(
            kept.params,
            kept.proposals[i].lock_votes,
            VoteType::Prevote,
            kept.height,
            lock_round,
            kept.proposals[i].content,
        ) && all_known(kept.proposals[i].lock_votes, known)) by {
            if i < s.proposals.len() {
                assert(kept.proposals[i] == s.proposals[i]);
            } else if p.lock_round is Some {
                assert forall|j: int| 0 <= j < p.lock_votes.len() implies {
                    &&& (#[trigger] p.lock_votes[j]).vote_type == VoteType::Prevote
                    &&& p.lock_votes[j].height == kept.height
                    &&& p.lock_votes[j].round == p.lock_round->0
                    &&& p.lock_votes[j].proposal == p.content
                } by {
                    assert(crate::params::supports(s.params, p, p.lock_round->0, p.lock_votes[j]));
                }
            }
        }
        assert(rests_on(kept, known));
        if o == enter_prevote(kept) {
            lemma_enter_prevote_sound(kept, known);
            lemma_sound_for(s, kept, known, o);
        } else {
            lemma_silent_sound(s, known, kept);
        }
    } else {
        lemma_silent_sound(s, known, s);
    }
}

/// Taking a vote is sound, with the vote known.
pub proof fn lemma_on_vote_sound(s: BftView, v: VoteView, known: Set<VoteView>)
    requires
        inv(s),
        s.height < u64::MAX,
        rests_on(s, known),
        known.contains(v),
    ensures
        sound(s, known, on_vote(s, v)),
{
    let o = on_vote(s, v);
    if takes_vote(s, v) {
        let counted = BftView { votes: with_counted(s, v), ..s };
        crate::always::lemma_with_counted_ok(s, v);
        assert(inv(counted));
        lemma_with_counted_rests(s, v, known);
        if o == check_prevotes(counted) {
            lemma_check_prevotes_sound(counted, known);
            lemma_sound_for(s, counted, known, o);
        } else if o == check_precommits(counted) {
            lemma_check_precommits_sound(counted, known);
            lemma_sound_for(s, counted, known, o);
        } else {
            lemma_silent_sound(s, known, counted);
        }
    } else {
        lemma_silent_sound(s, known, s);
    }
}

/// Taking a feed is sound.
pub proof fn lemma_on_feed_sound(s: BftView, f: crate::types::FeedView, known: Set<VoteView>)
    requires
        inv(s),
        s.height < u64::MAX,
        rests_on(s, known),
    ensures
        sound(s, known, on_feed(s, f)),
{
    let o = on_feed(s, f);
    if !s.running || f.proposal.len() == 0 || f.height < s.height {
        lemma_silent_sound(s, known, s);
    } else {
        crate::always::lemma_with_feed_ok(s.feeds, f);
        let kept = BftView { feeds: crate::machine::with_feed(s.feeds, f), ..s };
        assert(inv(kept));
        assert(rests_on(kept, known));
        if f.height == s.height {
            lemma_try_propose_sound(kept, known);
            lemma_sound_for(s, kept, known, o);
        } else {
            lemma_silent_sound(s, known, kept);
        }
    }
}

/// Taking the host's answer on a value is sound.
pub proof fn lemma_on_verify_resp_sound(
    s: BftView,
    r: crate::types::VerifyRespView,
    known: Set<VoteView>,
)
    requires
        inv(s),
        s.height < u64::MAX,
        rests_on(s, known),
    ensures
        sound(s, known, on_verify_resp(s, r)),
{
    let o = on_verify_resp(s, r);
    let kept = BftView { verified: s.verified.push(r), ..s };
    if o == stay(s) {
        lemma_silent_sound(s, known, s);
    } else if o == stay(kept) {
        assert(rests_on(kept, known));
        lemma_silent_sound(s, known, kept);
    } else {
        assert(inv(kept));
        assert(rests_on(kept, known));
        lemma_enter_prevote_sound(kept, known);
        lemma_sound_for(s, kept, known, o);
    }
}

/// Moving to a height is sound: nothing is kept, and nothing is cast or
/// decided.
pub proof fn lemma_enter_height_sound(s: BftView, like: BftView, height: u64, known: Set<VoteView>)
    ensures
        sound(like, known, enter_height(s, height)),
{
    let o = enter_height(s, height);
    assert forall|v: VoteView| !cast_in(o.actions).contains(v) by {
        if cast_in(o.actions).contains(v) {
            let i = choose|i: int|
                0 <= i < o.actions.len() && #[trigger] o.actions[i] == ActionView::Send(
                    CoreOutputView::Vote(v),
                );
            assert(false);
        }
    }
    assert(known.union(cast_in(o.actions)) =~= known);
}

/// Starting the node is sound.
pub proof fn lemma_on_start_sound(s: BftView, known: Set<VoteView>)
    requires
        inv(s),
        s.height < u64::MAX,
        rests_on(s, known),
    ensures
        sound(s, known, on_start(s)),
{
    let started = BftView { running: true, ..s };
    assert(inv(started));
    assert(rests_on(started, known));
    if started.params.authorities.len() > 0 && started.step == Step::Propose {
        lemma_start_round_sound(started, known);
        lemma_sound_for(s, BftView { step: Step::Propose, ..started }, known, on_start(s));
    } else {
        lemma_silent_sound(s, known, started);
    }
}

/// Taking a timeout that is due is sound.
pub proof fn lemma_on_timeout_sound(s: BftView, info: crate::timer::TimeoutInfo, known: Set<VoteView>)
    requires
        inv(s),
        s.height < u64::MAX,
        s.round < u64::MAX,
        rests_on(s, known),
    ensures
        sound(s, known, on_timeout(s, info)),
{
    if !s.running || info.height != s.height || info.round != s.round || info.step != s.step {
        lemma_silent_sound(s, known, s);
    } else if s.step == Step::Propose {
        lemma_enter_prevote_sound(s, known);
    } else {
        let next = BftView { round: (s.round + 1) as u64, ..s };
        assert(inv(BftView { step: Step::Propose, ..next }));
        assert(rests_on(next, known));
        lemma_start_round_sound(next, known);
        lemma_sound_for(s, BftView { step: Step::Propose, ..next }, known, on_timeout(s, info));
    }
}

/// On any event the outcome is sound, with the votes that the event
/// brings known besides those known before.
pub proof fn lemma_step_sound(s: BftView, event: EventView, known: Set<VoteView>)
    requires
        inv(s),
        accepts(s, event),
        rests_on(s, known),
    ensures
        sound(s, known.union(received(event)), step(s, event)),
{
    reveal(step);
    let given = known.union(received(event));
    lemma_rests_on_grows(s, known, given);
    match event {
        EventView::Input(msg) => {
            match msg {
                CoreInputView::Proposal(p) => {
                    assert forall|j: int| 0 <= j < p.lock_votes.len() implies given.contains(
                        #[trigger] p.lock_votes[j],
                    ) by {
                        assert(received(event).contains(p.lock_votes[j]));
                    }
                    lemma_on_proposal_sound(s, p, given);
                },
                CoreInputView::Vote(v) => {
                    assert(received(event).contains(v));
                    lemma_on_vote_sound(s, v, given);
                },
                CoreInputView::Feed(f) => {
                    lemma_on_feed_sound(s, f, given);
                },
                CoreInputView::VerifyResp(r) => {
                    lemma_on_verify_resp_sound(s, r, given);
                },
                CoreInputView::Status(status) => {
                    if status.height < s.height {
                        lemma_silent_sound(s, given, s);
                    } else {
                        lemma_enter_height_sound(
                            BftView { params: crate::params::installed(s.params, status), ..s },
                            s,
                            (status.height + 1) as u64,
                            given,
                        );
                    }
                },
                CoreInputView::Commit(_) => {
                    lemma_silent_sound(s, given, s);
                },
                CoreInputView::Pause => {
                    let paused = BftView { running: false, ..s };
                    assert(rests_on(paused, given));
                    lemma_silent_sound(s, given, paused);
                },
                CoreInputView::Start => {
                    lemma_on_start_sound(s, given);
                },
            }
        },
        EventView::Timeout(info) => {
            lemma_on_timeout_sound(s, info, given);
        },
    }
}

} // verus!
