use crate::params::{distinct_voters, total_vote_weight, votes_weight, ParamsView};
use crate::quorum::{has_vote, lemma_quorums_intersect, shared};
use crate::safety::{faults_below_third, justified};
use crate::types::{CommitView, VoteType, VoteView};
use crate::voteset::is_quorum;
use vstd::prelude::*;

verus! {

/// Whether `votes` show that `value` had two thirds of the votes of a kind
/// in a round of a height: they are votes of that kind, of different
/// voters, for that value in that round, with two thirds of the weight of
/// all authorities or more.
pub open spec fn shows(
    p: ParamsView,
    votes: Seq<VoteView>,
    vote_type: VoteType,
    height: u64,
    round: u64,
    value: Seq<u8>,
) -> bool {
    &&& distinct_voters(votes)
    &&& forall|i: int|
        0 <= i < votes.len() ==> {
            &&& (#[trigger] votes[i]).vote_type == vote_type
            &&& votes[i].height == height
            &&& votes[i].round == round
            &&& votes[i].proposal == value
        }
    &&& is_quorum(votes_weight(p, votes), total_vote_weight(p))
}

/// Whether every vote of an honest voter among `votes` is one that was
/// cast.
pub open spec fn backed_by(
    votes: Seq<VoteView>,
    honest: spec_fn(Seq<u8>) -> bool,
    cast: Set<VoteView>,
) -> bool {
    forall|i: int|
        0 <= i < votes.len() && honest((#[trigger] votes[i]).voter) ==> cast.contains(votes[i])
}

/// Whether `value` had two thirds of the votes of a kind in a round of a
/// height, as far as the honest voters go by votes that they cast.
pub open spec fn has_quorum(
    p: ParamsView,
    honest: spec_fn(Seq<u8>) -> bool,
    cast: Set<VoteView>,
    vote_type: VoteType,
    height: u64,
    round: u64,
    value: Seq<u8>,
) -> bool {
    exists|votes: Seq<VoteView>|
        #![trigger shows(p, votes, vote_type, height, round, value)]
        shows(p, votes, vote_type, height, round, value) && backed_by(votes, honest, cast)
}

/// No voter casts two votes of one kind for one round of one height.
pub open spec fn once_rule(cast: Set<VoteView>) -> bool {
    forall|a: VoteView, b: VoteView|
        #![trigger cast.contains(a), cast.contains(b)]
        cast.contains(a) && cast.contains(b) && a.voter == b.voter && a.vote_type == b.vote_type
            && a.height == b.height && a.round == b.round ==> a.proposal == b.proposal
}

/// A precommit is cast only after what it is for, a value or nil, had two
/// thirds of the prevotes of the round.
pub open spec fn precommit_rule(
    p: ParamsView,
    honest: spec_fn(Seq<u8>) -> bool,
    cast: Set<VoteView>,
) -> bool {
    forall|v: VoteView|
        #![trigger cast.contains(v)]
        cast.contains(v) && v.vote_type == VoteType::Precommit ==> has_quorum(
            p,
            honest,
            cast,
            VoteType::Prevote,
            v.height,
            v.round,
            v.proposal,
        )
}

/// A voter that has precommitted a value prevotes a value in a later
/// round of the height only where that value had two thirds of the
/// prevotes of a round in between, the round of the precommit included.
pub open spec fn lock_rule(
    p: ParamsView,
    honest: spec_fn(Seq<u8>) -> bool,
    cast: Set<VoteView>,
) -> bool {
    forall|a: VoteView, b: VoteView|
        #![trigger cast.contains(a), cast.contains(b)]
        cast.contains(a) && cast.contains(b) && a.voter == b.voter && a.height == b.height
            && a.vote_type == VoteType::Precommit && a.proposal.len() > 0 && b.vote_type
            == VoteType::Prevote && b.proposal.len() > 0 && a.round < b.round ==> exists|
            lock_round: u64,
        |
            a.round <= lock_round < b.round && #[trigger] has_quorum(
                p,
                honest,
                cast,
                VoteType::Prevote,
                a.height,
                lock_round,
                b.proposal,
            )
}

/// Two sets of votes that each show two thirds of the weight hold votes
/// of one honest voter, where the voters that are not honest weigh less
/// than a third.
pub proof fn lemma_common_honest_voter(
    p: ParamsView,
    honest: spec_fn(Seq<u8>) -> bool,
    a: Seq<VoteView>,
    b: Seq<VoteView>,
) -> (at: (int, int))
    requires
        faults_below_third(p, honest),
        distinct_voters(a),
        distinct_voters(b),
        is_quorum(votes_weight(p, a), total_vote_weight(p)),
        is_quorum(votes_weight(p, b), total_vote_weight(p)),
    ensures
        0 <= at.0 < a.len(),
        0 <= at.1 < b.len(),
        a[at.0].voter == b[at.1].voter,
        honest(a[at.0].voter),
{
    lemma_quorums_intersect(p, a, b);
    let common = shared(a, b);
    if forall|i: int| 0 <= i < common.len() ==> !honest((#[trigger] common[i]).voter) {
        assert(votes_weight(p, common) * 3 < total_vote_weight(p));
        assert(false);
    }
    let k = choose|k: int| 0 <= k < common.len() && honest((#[trigger] common[k]).voter);
    assert(has_vote(a, common[k].voter));
    assert(b.contains(common[k]));
    let i = choose|i: int| 0 <= i < a.len() && (#[trigger] a[i]).voter == common[k].voter;
    let j = choose|j: int| 0 <= j < b.len() && b[j] == common[k];
    (i, j)
}

/// Once a value has had two thirds of the precommits of a round, no other
/// value has two thirds of the prevotes of that round or a later one of
/// the height.
pub proof fn lemma_no_other_polka(
    p: ParamsView,
    honest: spec_fn(Seq<u8>) -> bool,
    cast: Set<VoteView>,
    height: u64,
    round: u64,
    value: Seq<u8>,
    later: u64,
    other: Seq<u8>,
)
    requires
        faults_below_third(p, honest),
        once_rule(cast),
        precommit_rule(p, honest, cast),
        lock_rule(p, honest, cast),
        value.len() > 0,
        other.len() > 0,
        round <= later,
        has_quorum(p, honest, cast, VoteType::Precommit, height, round, value),
        has_quorum(p, honest, cast, VoteType::Prevote, height, later, other),
    ensures
        other == value,
    decreases later,
{
    let decided = choose|votes: Seq<VoteView>|
        #![trigger shows(p, votes, VoteType::Precommit, height, round, value)]
        shows(p, votes, VoteType::Precommit, height, round, value) && backed_by(
            votes,
            honest,
            cast,
        );
    let polka = choose|votes: Seq<VoteView>|
        #![trigger shows(p, votes, VoteType::Prevote, height, later, other)]
        shows(p, votes, VoteType::Prevote, height, later, other) && backed_by(
            votes,
            honest,
            cast,
        );
    let at = lemma_common_honest_voter(p, honest, decided, polka);
    let precommit = decided[at.0];
    let prevote = polka[at.1];
    assert(cast.contains(precommit) && cast.contains(prevote));
    if later == round {
        assert(has_quorum(p, honest, cast, VoteType::Prevote, height, round, value));
        lemma_one_polka(p, honest, cast, height, round, value, other);
    } else {
        let lock_round = choose|lock_round: u64|
            precommit.round <= lock_round < prevote.round && #[trigger] has_quorum(
                p,
                honest,
                cast,
                VoteType::Prevote,
                precommit.height,
                lock_round,
                prevote.proposal,
            );
        lemma_no_other_polka(p, honest, cast, height, round, value, lock_round, other);
    }
}

/// No two values are decided at one height: where two values that are not
/// nil have each had two thirds of the precommits of a round of the
/// height, they are the same value. This holds where the voters that are
/// not honest weigh less than a third of all authorities, and the honest
/// ones keep the three rules of voting.
pub proof fn lemma_agreement(
    p: ParamsView,
    honest: spec_fn(Seq<u8>) -> bool,
    cast: Set<VoteView>,
    height: u64,
    round: u64,
    value: Seq<u8>,
    later: u64,
    other: Seq<u8>,
)
    requires
        faults_below_third(p, honest),
        once_rule(cast),
        precommit_rule(p, honest, cast),
        lock_rule(p, honest, cast),
        value.len() > 0,
        other.len() > 0,
        has_quorum(p, honest, cast, VoteType::Precommit, height, round, value),
        has_quorum(p, honest, cast, VoteType::Precommit, height, later, other),
    ensures
        other == value,
{
    if round <= later {
        lemma_polka_of_decision(p, honest, cast, height, later, other);
        lemma_no_other_polka(p, honest, cast, height, round, value, later, other);
    } else {
        lemma_polka_of_decision(p, honest, cast, height, round, value);
        lemma_no_other_polka(p, honest, cast, height, later, other, round, value);
    }
}

/// A value that has had two thirds of the precommits of a round has had
/// two thirds of its prevotes.
pub proof fn lemma_polka_of_decision(
    p: ParamsView,
    honest: spec_fn(Seq<u8>) -> bool,
    cast: Set<VoteView>,
    height: u64,
    round: u64,
    value: Seq<u8>,
)
    requires
        faults_below_third(p, honest),
        precommit_rule(p, honest, cast),
        value.len() > 0,
        has_quorum(p, honest, cast, VoteType::Precommit, height, round, value),
    ensures
        has_quorum(p, honest, cast, VoteType::Prevote, height, round, value),
{
    let decided = choose|votes: Seq<VoteView>|
        #![trigger shows(p, votes, VoteType::Precommit, height, round, value)]
        shows(p, votes, VoteType::Precommit, height, round, value) && backed_by(
            votes,
            honest,
            cast,
        );
    let at = lemma_common_honest_voter(p, honest, decided, decided);
    assert(cast.contains(decided[at.0]));
}

/// A decision that is justified, and whose precommits of honest voters
/// were cast, shows that its value had two thirds of the precommits of
/// its round.
pub proof fn lemma_decision_has_quorum(
    p: ParamsView,
    honest: spec_fn(Seq<u8>) -> bool,
    cast: Set<VoteView>,
    c: CommitView,
)
    requires
        justified(p, c),
        backed_by(c.lock_votes, honest, cast),
    ensures
        has_quorum(p, honest, cast, VoteType::Precommit, c.height, c.round, c.proposal),
{
    assert(shows(p, c.lock_votes, VoteType::Precommit, c.height, c.round, c.proposal));
}

/// What has two thirds of the prevotes of a round, a value or nil, is the
/// only one that has.
pub proof fn lemma_one_polka(
    p: ParamsView,
    honest: spec_fn(Seq<u8>) -> bool,
    cast: Set<VoteView>,
    height: u64,
    round: u64,
    value: Seq<u8>,
    other: Seq<u8>,
)
    requires
        faults_below_third(p, honest),
        once_rule(cast),
        has_quorum(p, honest, cast, VoteType::Prevote, height, round, value),
        has_quorum(p, honest, cast, VoteType::Prevote, height, round, other),
    ensures
        other == value,
{
    let first = choose|votes: Seq<VoteView>|
        #![trigger shows(p, votes, VoteType::Prevote, height, round, value)]
        shows(p, votes, VoteType::Prevote, height, round, value) && backed_by(
            votes,
            honest,
            cast,
        );
    let second = choose|votes: Seq<VoteView>|
        #![trigger shows(p, votes, VoteType::Prevote, height, round, other)]
        shows(p, votes, VoteType::Prevote, height, round, other) && backed_by(
            votes,
            honest,
            cast,
        );
    let both = lemma_common_honest_voter(p, honest, first, second);
    assert(cast.contains(first[both.0]) && cast.contains(second[both.1]));
    assert(first[both.0].proposal == second[both.1].proposal);
}

} // verus!
