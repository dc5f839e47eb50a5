use crate::agreement::{
    backed_by, has_quorum, lemma_agreement, lemma_decision_has_quorum, lock_rule, once_rule,
    precommit_rule, shows,
};
use crate::always::{accepts, inv, lemma_step_inv};
use crate::grounds::{
    all_known, cast_in, lemma_all_known_grows, lemma_cast_in_concat, lemma_cast_in_empty,
    lemma_polka_known_grows, lemma_step_sound, polka_known, prevote_grounded, received, rests_on,
};
use crate::machine::{step, ActionView, BftView, EventView};
use crate::params::ParamsView;
use crate::quorum::lemma_votes_weight_by;
use crate::safety::{
    accepted, commits_of, faults_below_third, justified, lemma_commit_counted,
    lemma_step_decides_once, run,
};
use crate::types::{CommitView, CoreInputView, CoreOutputView, NodeView, VoteType, VoteView};
use crate::voting::{is_ahead, is_past, lemma_step_votes};
use vstd::prelude::*;

verus! {

/// The votes that a run of events brings.
pub open spec fn received_in(events: Seq<EventView>) -> Set<VoteView> {
    Set::new(
        |v: VoteView|
            exists|k: int| 0 <= k < events.len() && received(#[trigger] events[k]).contains(v),
    )
}

/// The votes that a node knows of after a run of events: those that the
/// events brought, and those that it cast.
pub open spec fn known_after(s: BftView, events: Seq<EventView>) -> Set<VoteView> {
    received_in(events).union(cast_in(run(s, events).actions))
}

/// Whether a node in the state `s` keeps nothing that rests on votes: it
/// has no ballot, no lock and no proposal.
pub open spec fn fresh(s: BftView) -> bool {
    &&& inv(s)
    &&& s.votes.len() == 0
    &&& s.lock is None
    &&& s.proposals.len() == 0
}

/// Whether every status among the events names the authorities `auth`.
pub open spec fn keeps_authorities(events: Seq<EventView>, auth: Seq<NodeView>) -> bool {
    forall|k: int|
        0 <= k < events.len() ==> ((#[trigger] events[k]) matches EventView::Input(
            CoreInputView::Status(status),
        ) ==> status.authority_list == auth)
}

/// What votes show to a node, they show to any node with the same
/// authorities.
pub proof fn lemma_shows_same_authorities(
    p: ParamsView,
    q: ParamsView,
    votes: Seq<VoteView>,
    vote_type: VoteType,
    height: u64,
    round: u64,
    value: Seq<u8>,
)
    requires
        p.authorities == q.authorities,
        shows(p, votes, vote_type, height, round, value),
    ensures
        shows(q, votes, vote_type, height, round, value),
{
    lemma_votes_weight_by(p, votes);
    lemma_votes_weight_by(q, votes);
}

/// What known votes show to a node, they show to any node with the same
/// authorities.
pub proof fn lemma_polka_same_authorities(
    p: ParamsView,
    q: ParamsView,
    known: Set<VoteView>,
    height: u64,
    round: u64,
    value: Seq<u8>,
)
    requires
        p.authorities == q.authorities,
        polka_known(p, known, height, round, value),
    ensures
        polka_known(q, known, height, round, value),
{
    let votes = choose|votes: Seq<VoteView>|
        #![trigger shows(p, votes, VoteType::Prevote, height, round, value)]
        shows(p, votes, VoteType::Prevote, height, round, value) && all_known(votes, known);
    lemma_shows_same_authorities(p, q, votes, VoteType::Prevote, height, round, value);
}

/// A decision that is justified to a node is justified to any node with
/// the same authorities.
pub proof fn lemma_justified_same_authorities(p: ParamsView, q: ParamsView, c: CommitView)
    requires
        p.authorities == q.authorities,
        justified(p, c),
    ensures
        justified(q, c),
{
    lemma_votes_weight_by(p, c.lock_votes);
    lemma_votes_weight_by(q, c.lock_votes);
}

/// Whether a node in the state `s` that knows of the votes `known` and has
/// cast the votes `cast` keeps the rules of voting, with the authorities
/// of `base`: what it keeps rests on what it knows; the votes it has cast
/// are its own and in its past; each precommit followed two thirds of the
/// prevotes of its round for what it is for, and one for a value left the
/// node with a lock of that round or a later one for the rest of the
/// height;
/// and each prevote for a value that was cast in a later round of a height
/// than a precommit for a value followed two thirds of the prevotes for
/// the prevoted value of a round before its own and not before that of the
/// precommit.
pub open spec fn keeps_rules(
    base: ParamsView,
    s: BftView,
    known: Set<VoteView>,
    cast: Set<VoteView>,
) -> bool {
    &&& inv(s)
    &&& s.params.authorities == base.authorities
    &&& rests_on(s, known)
    &&& cast.subset_of(known)
    &&& forall|v: VoteView|
        #![trigger cast.contains(v)]
        cast.contains(v) ==> v.voter == s.params.address && is_past(s, v)
    &&& forall|v: VoteView|
        #![trigger cast.contains(v)]
        cast.contains(v) && v.vote_type == VoteType::Precommit ==> polka_known(
            base,
            known,
            v.height,
            v.round,
            v.proposal,
        ) && (v.proposal.len() > 0 && v.height == s.height ==> s.lock is Some && s.lock->0.round
            >= v.round)
    &&& forall|a: VoteView, b: VoteView|
        #![trigger cast.contains(a), cast.contains(b)]
        cast.contains(a) && cast.contains(b) && a.height == b.height && a.vote_type
            == VoteType::Precommit && a.proposal.len() > 0 && b.vote_type == VoteType::Prevote
            && b.proposal.len() > 0 && a.round < b.round ==> exists|lock_round: u64|
            a.round <= lock_round < b.round && #[trigger] polka_known(
                base,
                known,
                a.height,
                lock_round,
                b.proposal,
            )
}

/// A node that keeps the rules of voting keeps them on any event that
/// names no other authorities.
pub proof fn lemma_step_keeps_rules(
    base: ParamsView,
    s: BftView,
    known: Set<VoteView>,
    cast: Set<VoteView>,
    event: EventView,
)
    requires
        keeps_rules(base, s, known, cast),
        accepts(s, event),
        event matches EventView::Input(CoreInputView::Status(status)) ==> status.authority_list
            == base.authorities,
    ensures
        keeps_rules(
            base,
            step(s, event).state,
            known.union(received(event)).union(cast_in(step(s, event).actions)),
            cast.union(cast_in(step(s, event).actions)),
        ),
{
    let o = step(s, event);
    let given = known.union(received(event));
    let later = given.union(cast_in(o.actions));
    let more = cast.union(cast_in(o.actions));
    lemma_step_inv(s, event);
    lemma_step_sound(s, event, known);
    lemma_step_decides_once(s, event);
    lemma_step_votes(s, event);
    assert forall|v: VoteView| #![trigger more.contains(v)] more.contains(v) implies v.voter
        == o.state.params.address && is_past(o.state, v) by {
        if cast.contains(v) {
            assert(is_past(s, v));
        } else {
            let i = choose|i: int|
                0 <= i < o.actions.len() && #[trigger] o.actions[i] == ActionView::Send(
                    CoreOutputView::Vote(v),
                );
        }
    }
    assert forall|v: VoteView|
        #![trigger more.contains(v)]
        more.contains(v) && v.vote_type == VoteType::Precommit implies polka_known(
        base,
        later,
        v.height,
        v.round,
        v.proposal,
    ) && (v.proposal.len() > 0 && v.height == o.state.height ==> o.state.lock is Some
        && o.state.lock->0.round >= v.round) by {
        if cast.contains(v) {
            lemma_polka_known_grows(base, known, later, v.height, v.round, v.proposal);
            assert(is_past(s, v));
        } else {
            let i = choose|i: int|
                0 <= i < o.actions.len() && #[trigger] o.actions[i] == ActionView::Send(
                    CoreOutputView::Vote(v),
                );
            assert(is_ahead(s, v));
            lemma_polka_same_authorities(s.params, base, later, v.height, v.round, v.proposal);
        }
    }
    assert forall|a: VoteView, b: VoteView|
        #![trigger more.contains(a), more.contains(b)]
        more.contains(a) && more.contains(b) && a.height == b.height && a.vote_type
            == VoteType::Precommit && a.proposal.len() > 0 && b.vote_type == VoteType::Prevote
            && b.proposal.len() > 0 && a.round < b.round implies exists|lock_round: u64|
        a.round <= lock_round < b.round && #[trigger] polka_known(
            base,
            later,
            a.height,
            lock_round,
            b.proposal,
        ) by {
        if cast.contains(a) && cast.contains(b) {
            let lock_round = choose|lock_round: u64|
                a.round <= lock_round < b.round && #[trigger] polka_known(
                    base,
                    known,
                    a.height,
                    lock_round,
                    b.proposal,
                );
            lemma_polka_known_grows(base, known, later, a.height, lock_round, b.proposal);
        } else if cast.contains(a) {
            let j = choose|j: int|
                0 <= j < o.actions.len() && #[trigger] o.actions[j] == ActionView::Send(
                    CoreOutputView::Vote(b),
                );
            assert(is_ahead(s, b));
            assert(prevote_grounded(s.params, given, s.lock, b));
            let lock_round = choose|lock_round: u64|
                s.lock->0.round <= lock_round < b.round && #[trigger] polka_known(
                    s.params,
                    given,
                    b.height,
                    lock_round,
                    b.proposal,
                );
            lemma_polka_same_authorities(s.params, base, given, b.height, lock_round, b.proposal);
            lemma_polka_known_grows(base, given, later, a.height, lock_round, b.proposal);
        } else if cast.contains(b) {
            let i = choose|i: int|
                0 <= i < o.actions.len() && #[trigger] o.actions[i] == ActionView::Send(
                    CoreOutputView::Vote(a),
                );
            assert(is_ahead(s, a));
            assert(is_past(s, b));
            assert(false);
        } else {
            let i = choose|i: int|
                0 <= i < o.actions.len() && #[trigger] o.actions[i] == ActionView::Send(
                    CoreOutputView::Vote(a),
                );
            let j = choose|j: int|
                0 <= j < o.actions.len() && #[trigger] o.actions[j] == ActionView::Send(
                    CoreOutputView::Vote(b),
                );
            assert(a.round == b.round);
        }
    }
}

/// The votes that a run of events brings are those that all but the last
/// event bring, and those that the last brings.
pub proof fn lemma_received_in_last(events: Seq<EventView>)
    requires
        events.len() > 0,
    ensures
        received_in(events) == received_in(events.drop_last()).union(received(events.last())),
{
    let before = events.drop_last();
    assert forall|v: VoteView|
        received_in(events).contains(v) <==> received_in(before).union(
            received(events.last()),
        ).contains(v) by {
        if received_in(events).contains(v) {
            let k = choose|k: int|
                0 <= k < events.len() && received(#[trigger] events[k]).contains(v);
            if k < before.len() {
                assert(before[k] == events[k]);
            }
        }
        if received_in(before).contains(v) {
            let k = choose|k: int|
                0 <= k < before.len() && received(#[trigger] before[k]).contains(v);
            assert(events[k] == before[k]);
        }
        if received(events.last()).contains(v) {
            assert(events[events.len() - 1] == events.last());
        }
    }
    assert(received_in(events) =~= received_in(before).union(received(events.last())));
}

/// What a node knows of after a run of events is what it knew of after
/// all but the last, what the last event brings, and what the node casts
/// on it.
pub proof fn lemma_known_after_last(s: BftView, events: Seq<EventView>)
    requires
        events.len() > 0,
    ensures
        known_after(s, events) == known_after(s, events.drop_last()).union(
            received(events.last()),
        ).union(cast_in(step(run(s, events.drop_last()).state, events.last()).actions)),
        cast_in(run(s, events).actions) == cast_in(run(s, events.drop_last()).actions).union(
            cast_in(step(run(s, events.drop_last()).state, events.last()).actions),
        ),
{
    let before = run(s, events.drop_last());
    let last = step(before.state, events.last());
    lemma_received_in_last(events);
    lemma_cast_in_concat(before.actions, last.actions);
    assert(known_after(s, events) =~= known_after(s, events.drop_last()).union(
        received(events.last()),
    ).union(cast_in(last.actions)));
}

/// A node that starts fresh keeps the rules of voting over any run of
/// events that names no other authorities than its own.
pub proof fn lemma_run_keeps_rules(base: ParamsView, s: BftView, events: Seq<EventView>)
    requires
        fresh(s),
        s.params.authorities == base.authorities,
        accepted(s, events),
        keeps_authorities(events, base.authorities),
    ensures
        keeps_rules(
            base,
            run(s, events).state,
            known_after(s, events),
            cast_in(run(s, events).actions),
        ),
    decreases events.len(),
{
    if events.len() == 0 {
        lemma_cast_in_empty();
        assert(received_in(events) =~= Set::<VoteView>::empty());
        assert(known_after(s, events) =~= Set::<VoteView>::empty());
    } else {
        let before_events = events.drop_last();
        assert forall|k: int| 0 <= k < before_events.len() implies ((
        #[trigger] before_events[k]) matches EventView::Input(CoreInputView::Status(status))
            ==> status.authority_list == base.authorities) by {
            assert(before_events[k] == events[k]);
        }
        lemma_run_keeps_rules(base, s, before_events);
        let before = run(s, before_events);
        assert(events[events.len() - 1] == events.last());
        lemma_step_keeps_rules(
            base,
            before.state,
            known_after(s, before_events),
            cast_in(before.actions),
            events.last(),
        );
        lemma_known_after_last(s, events);
    }
}

/// Over any run of events that names no other authorities than its own,
/// each decision of a node that starts fresh is justified, and the node
/// knows of the precommits that the decision carries.
pub proof fn lemma_run_commits_known(base: ParamsView, s: BftView, events: Seq<EventView>)
    requires
        fresh(s),
        s.params.authorities == base.authorities,
        accepted(s, events),
        keeps_authorities(events, base.authorities),
    ensures
        forall|j: int|
            0 <= j < run(s, events).actions.len() ==> ((#[trigger] run(
                s,
                events,
            ).actions[j]) matches ActionView::Send(CoreOutputView::Commit(c)) ==> justified(
                base,
                c,
            ) && all_known(c.lock_votes, known_after(s, events))),
    decreases events.len(),
{
    if events.len() > 0 {
        let before_events = events.drop_last();
        assert forall|k: int| 0 <= k < before_events.len() implies ((
        #[trigger] before_events[k]) matches EventView::Input(CoreInputView::Status(status))
            ==> status.authority_list == base.authorities) by {
            assert(before_events[k] == events[k]);
        }
        lemma_run_commits_known(base, s, before_events);
        lemma_run_keeps_rules(base, s, before_events);
        let before = run(s, before_events);
        let last = step(before.state, events.last());
        let all = run(s, events).actions;
        let known_before = known_after(s, before_events);
        let known = known_after(s, events);
        lemma_known_after_last(s, events);
        lemma_step_sound(before.state, events.last(), known_before);
        lemma_step_decides_once(before.state, events.last());
        assert forall|j: int| 0 <= j < all.len() implies ((#[trigger] all[j]) matches ActionView::Send(
            CoreOutputView::Commit(c),
        ) ==> justified(base, c) && all_known(c.lock_votes, known)) by {
            match all[j] {
                ActionView::Send(CoreOutputView::Commit(c)) => {
                    if j < before.actions.len() {
                        assert(all[j] == before.actions[j]);
                        lemma_all_known_grows(c.lock_votes, known_before, known);
                    } else {
                        let inner = j - before.actions.len();
                        assert(all[j] == last.actions[inner]);
                        lemma_commit_counted(last.actions, inner);
                        assert(commits_of(last.actions)[0] == c);
                        lemma_justified_same_authorities(before.state.params, base, c);
                    }
                },
                _ => {},
            }
        }
    }
}

/// Whether a node that starts in the state `s` casts the vote `v` over a
/// run of events.
pub open spec fn casts(s: BftView, events: Seq<EventView>, v: VoteView) -> bool {
    cast_in(run(s, events).actions).contains(v)
}

/// Whether a node that starts in the state `s` makes the decision `c`
/// over a run of events.
pub open spec fn decides_on(s: BftView, events: Seq<EventView>, c: CommitView) -> bool {
    exists|j: int|
        0 <= j < run(s, events).actions.len() && #[trigger] run(s, events).actions[j]
            == ActionView::Send(CoreOutputView::Commit(c))
}

/// Whether the honest nodes of a network run as they should: each starts
/// fresh, under its own address and with the authorities of `base`; the
/// events that it is handed can be handed to it one after the other, and
/// name no other authorities; and every vote of an honest node that it is
/// handed is one that that node casts.
pub open spec fn runs_well(
    base: ParamsView,
    honest: spec_fn(Seq<u8>) -> bool,
    start: spec_fn(Seq<u8>) -> BftView,
    events: spec_fn(Seq<u8>) -> Seq<EventView>,
) -> bool {
    &&& forall|n: Seq<u8>|
        #![trigger start(n)]
        honest(n) ==> fresh(start(n)) && start(n).params.address == n
            && start(n).params.authorities == base.authorities && accepted(start(n), events(n))
            && keeps_authorities(events(n), base.authorities)
    &&& forall|n: Seq<u8>, v: VoteView|
        #![trigger received_in(events(n)).contains(v)]
        honest(n) && honest(v.voter) && received_in(events(n)).contains(v) ==> casts(
            start(v.voter),
            events(v.voter),
            v,
        )
}

/// The votes that the honest nodes of a network cast.
pub open spec fn cast_by_honest(
    honest: spec_fn(Seq<u8>) -> bool,
    start: spec_fn(Seq<u8>) -> BftView,
    events: spec_fn(Seq<u8>) -> Seq<EventView>,
) -> Set<VoteView> {
    Set::new(|v: VoteView| honest(v.voter) && casts(start(v.voter), events(v.voter), v))
}

/// The votes of honest voters among those that an honest node knows of
/// are votes that honest nodes cast.
pub proof fn lemma_known_is_cast(
    base: ParamsView,
    honest: spec_fn(Seq<u8>) -> bool,
    start: spec_fn(Seq<u8>) -> BftView,
    events: spec_fn(Seq<u8>) -> Seq<EventView>,
    n: Seq<u8>,
    votes: Seq<VoteView>,
)
    requires
        runs_well(base, honest, start, events),
        honest(n),
        all_known(votes, known_after(start(n), events(n))),
    ensures
        backed_by(votes, honest, cast_by_honest(honest, start, events)),
{
    let all = cast_by_honest(honest, start, events);
    lemma_run_keeps_rules(base, start(n), events(n));
    crate::voting::lemma_run_votes_once(start(n), events(n));
    assert forall|i: int| 0 <= i < votes.len() && honest((#[trigger] votes[i]).voter) implies all.contains(
        votes[i],
    ) by {
        let v = votes[i];
        assert(known_after(start(n), events(n)).contains(v));
        if received_in(events(n)).contains(v) {
            assert(casts(start(v.voter), events(v.voter), v));
        } else {
            assert(cast_in(run(start(n), events(n)).actions).contains(v));
            assert(v.voter == n);
        }
    }
}

/// What an honest node knows to have had two thirds of the prevotes of a
/// round had them by votes that honest nodes cast.
pub proof fn lemma_polka_is_cast(
    base: ParamsView,
    honest: spec_fn(Seq<u8>) -> bool,
    start: spec_fn(Seq<u8>) -> BftView,
    events: spec_fn(Seq<u8>) -> Seq<EventView>,
    n: Seq<u8>,
    height: u64,
    round: u64,
    value: Seq<u8>,
)
    requires
        runs_well(base, honest, start, events),
        honest(n),
        polka_known(base, known_after(start(n), events(n)), height, round, value),
    ensures
        has_quorum(
            base,
            honest,
            cast_by_honest(honest, start, events),
            VoteType::Prevote,
            height,
            round,
            value,
        ),
{
    let known = known_after(start(n), events(n));
    let votes = choose|votes: Seq<VoteView>|
        #![trigger shows(base, votes, VoteType::Prevote, height, round, value)]
        shows(base, votes, VoteType::Prevote, height, round, value) && all_known(votes, known);
    lemma_known_is_cast(base, honest, start, events, n, votes);
}

/// The honest nodes of a network that runs as it should keep the three
/// rules of voting.
pub proof fn lemma_honest_keep_rules(
    base: ParamsView,
    honest: spec_fn(Seq<u8>) -> bool,
    start: spec_fn(Seq<u8>) -> BftView,
    events: spec_fn(Seq<u8>) -> Seq<EventView>,
)
    requires
        runs_well(base, honest, start, events),
    ensures
        once_rule(cast_by_honest(honest, start, events)),
        precommit_rule(base, honest, cast_by_honest(honest, start, events)),
        lock_rule(base, honest, cast_by_honest(honest, start, events)),
{
    let all = cast_by_honest(honest, start, events);
    assert forall|a: VoteView, b: VoteView|
        #![trigger all.contains(a), all.contains(b)]
        all.contains(a) && all.contains(b) && a.voter == b.voter && a.vote_type == b.vote_type
            && a.height == b.height && a.round == b.round implies a.proposal == b.proposal by {
        let n = a.voter;
        let actions = run(start(n), events(n)).actions;
        crate::voting::lemma_run_votes_once(start(n), events(n));
        let i = choose|i: int|
            0 <= i < actions.len() && #[trigger] actions[i] == ActionView::Send(
                CoreOutputView::Vote(a),
            );
        let j = choose|j: int|
            0 <= j < actions.len() && #[trigger] actions[j] == ActionView::Send(
                CoreOutputView::Vote(b),
            );
        if i < j {
            assert(crate::voting::votes_once(actions));
            assert(false);
        } else if j < i {
            assert(crate::voting::votes_once(actions));
            assert(false);
        }
    }
    assert forall|v: VoteView|
        #![trigger all.contains(v)]
        all.contains(v) && v.vote_type == VoteType::Precommit implies has_quorum(
        base,
        honest,
        all,
        VoteType::Prevote,
        v.height,
        v.round,
        v.proposal,
    ) by {
        let n = v.voter;
        lemma_run_keeps_rules(base, start(n), events(n));
        lemma_polka_is_cast(base, honest, start, events, n, v.height, v.round, v.proposal);
    }
    assert forall|a: VoteView, b: VoteView|
        #![trigger all.contains(a), all.contains(b)]
        all.contains(a) && all.contains(b) && a.voter == b.voter && a.height == b.height
            && a.vote_type == VoteType::Precommit && a.proposal.len() > 0 && b.vote_type
            == VoteType::Prevote && b.proposal.len() > 0 && a.round < b.round implies exists|
        lock_round: u64,
    |
        a.round <= lock_round < b.round && #[trigger] has_quorum(
            base,
            honest,
            all,
            VoteType::Prevote,
            a.height,
            lock_round,
            b.proposal,
        ) by {
        let n = a.voter;
        lemma_run_keeps_rules(base, start(n), events(n));
        let known = known_after(start(n), events(n));
        let lock_round = choose|lock_round: u64|
            a.round <= lock_round < b.round && #[trigger] polka_known(
                base,
                known,
                a.height,
                lock_round,
                b.proposal,
            );
        lemma_polka_is_cast(base, honest, start, events, n, a.height, lock_round, b.proposal);
    }
}

/// No two honest nodes decide two values at one height: where the nodes
/// of a network that are not honest weigh less than a third of all
/// authorities, and the honest ones run as they should, any two decisions
/// of honest nodes for one height are for the same value.
pub proof fn lemma_nodes_agree(
    base: ParamsView,
    honest: spec_fn(Seq<u8>) -> bool,
    start: spec_fn(Seq<u8>) -> BftView,
    events: spec_fn(Seq<u8>) -> Seq<EventView>,
    one: Seq<u8>,
    other: Seq<u8>,
    first: CommitView,
    second: CommitView,
)
    requires
        faults_below_third(base, honest),
        runs_well(base, honest, start, events),
        honest(one),
        honest(other),
        decides_on(start(one), events(one), first),
        decides_on(start(other), events(other), second),
        first.height == second.height,
    ensures
        first.proposal == second.proposal,
{
    let all = cast_by_honest(honest, start, events);
    lemma_honest_keep_rules(base, honest, start, events);
    lemma_run_commits_known(base, start(one), events(one));
    lemma_run_commits_known(base, start(other), events(other));
    lemma_known_is_cast(base, honest, start, events, one, first.lock_votes);
    lemma_known_is_cast(base, honest, start, events, other, second.lock_votes);
    lemma_decision_has_quorum(base, honest, all, first);
    lemma_decision_has_quorum(base, honest, all, second);
    lemma_agreement(
        base,
        honest,
        all,
        first.height,
        first.round,
        first.proposal,
        second.round,
        second.proposal,
    );
}

/// The precommit that an honest node casts in the round in which it
/// decides is for the value that it decides: where the nodes of a network
/// that are not honest weigh less than a third of all authorities, and the
/// honest ones run as they should.
pub proof fn lemma_decision_is_precommitted(
    base: ParamsView,
    honest: spec_fn(Seq<u8>) -> bool,
    start: spec_fn(Seq<u8>) -> BftView,
    events: spec_fn(Seq<u8>) -> Seq<EventView>,
    node: Seq<u8>,
    decision: CommitView,
    precommit: VoteView,
)
    requires
        faults_below_third(base, honest),
        runs_well(base, honest, start, events),
        honest(node),
        decides_on(start(node), events(node), decision),
        casts(start(node), events(node), precommit),
        precommit.vote_type == VoteType::Precommit,
        precommit.height == decision.height,
        precommit.round == decision.round,
    ensures
        precommit.proposal == decision.proposal,
{
    let all = cast_by_honest(honest, start, events);
    lemma_honest_keep_rules(base, honest, start, events);
    lemma_run_commits_known(base, start(node), events(node));
    lemma_known_is_cast(base, honest, start, events, node, decision.lock_votes);
    lemma_decision_has_quorum(base, honest, all, decision);
    crate::agreement::lemma_polka_of_decision(
        base,
        honest,
        all,
        decision.height,
        decision.round,
        decision.proposal,
    );
    crate::voting::lemma_run_votes_once(start(node), events(node));
    lemma_run_keeps_rules(base, start(node), events(node));
    assert(all.contains(precommit));
    crate::agreement::lemma_one_polka(
        base,
        honest,
        all,
        decision.height,
        decision.round,
        decision.proposal,
        precommit.proposal,
    );
}

} // verus!
