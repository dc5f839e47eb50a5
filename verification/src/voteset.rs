use crate::types::{votes_view, Target, Vote, VoteType, VoteView};
use vstd::prelude::*;

verus! {

/// What came of handing a vote to a vote set.
#[derive(Clone, Copy, Debug, PartialEq, Eq, Structural)]
pub enum InsertOutcome {
    /// The voter had no vote in the set: the vote is in it now.
    Added,
    /// The voter had the same vote in the set: nothing changed.
    Duplicate,
    /// The voter had a vote for another value in the set: the first vote
    /// stays, and nothing changed.
    ConflictingFromVoter,
}

/// A vote with the weight that it counts for.
pub struct BallotView {
    pub vote: VoteView,
    pub weight: u64,
}

/// The sum of the weights of all ballots.
pub open spec fn total_of(ballots: Seq<BallotView>) -> int
    decreases ballots.len(),
{
    if ballots.len() == 0 {
        0
    } else {
        total_of(ballots.drop_last()) + ballots.last().weight
    }
}

/// The sum of the weights of the ballots for `value`.
pub open spec fn weight_for(ballots: Seq<BallotView>, value: Seq<u8>) -> int
    decreases ballots.len(),
{
    if ballots.len() == 0 {
        0
    } else {
        weight_for(ballots.drop_last(), value) + if ballots.last().vote.proposal == value {
            ballots.last().weight as int
        } else {
            0
        }
    }
}

/// The value that `voter` voted for, if it has a ballot.
pub open spec fn cast_by(ballots: Seq<BallotView>, voter: Seq<u8>) -> Option<Seq<u8>>
    decreases ballots.len(),
{
    if ballots.len() == 0 {
        None
    } else {
        match cast_by(ballots.drop_last(), voter) {
            Some(value) => Some(value),
            None => if ballots.last().vote.voter == voter {
                Some(ballots.last().vote.proposal)
            } else {
                None
            },
        }
    }
}

/// The values that have a ballot, each once, in the order of their first
/// ballots.
pub open spec fn tally_values(ballots: Seq<BallotView>) -> Seq<Seq<u8>>
    decreases ballots.len(),
{
    if ballots.len() == 0 {
        Seq::empty()
    } else {
        let before = tally_values(ballots.drop_last());
        if before.contains(ballots.last().vote.proposal) {
            before
        } else {
            before.push(ballots.last().vote.proposal)
        }
    }
}

/// The votes for `value`, in the order of the ballots.
pub open spec fn votes_for(ballots: Seq<BallotView>, value: Seq<u8>) -> Seq<VoteView>
    decreases ballots.len(),
{
    if ballots.len() == 0 {
        Seq::empty()
    } else {
        let before = votes_for(ballots.drop_last(), value);
        if ballots.last().vote.proposal == value {
            before.push(ballots.last().vote)
        } else {
            before
        }
    }
}

/// Whether a weight is two thirds of a total, or more.
pub open spec fn is_quorum(weight: int, total: int) -> bool {
    weight * 3 >= total * 2
}

/// The first of `values` for which the ballots reach two thirds of `total`.
pub open spec fn first_quorum(values: Seq<Seq<u8>>, ballots: Seq<BallotView>, total: int) -> Option<
    Seq<u8>,
>
    decreases values.len(),
{
    if values.len() == 0 {
        None
    } else {
        match first_quorum(values.drop_last(), ballots, total) {
            Some(value) => Some(value),
            None => if is_quorum(weight_for(ballots, values.last()), total) {
                Some(values.last())
            } else {
                None
            },
        }
    }
}

/// The value, first voted for among those that do, whose ballots reach two
/// thirds of `total`.
pub open spec fn quorum_value(ballots: Seq<BallotView>, total: int) -> Option<Seq<u8>> {
    first_quorum(tally_values(ballots), ballots, total)
}

/// What comes of handing `vote` to a set of ballots.
pub open spec fn classify(ballots: Seq<BallotView>, vote: VoteView) -> InsertOutcome {
    match cast_by(ballots, vote.voter) {
        None => InsertOutcome::Added,
        Some(value) => if value == vote.proposal {
            InsertOutcome::Duplicate
        } else {
            InsertOutcome::ConflictingFromVoter
        },
    }
}

/// The ballots once `vote` has been handed in with `weight`: one more
/// where the voter had none, else the same.
pub open spec fn with_vote(ballots: Seq<BallotView>, vote: VoteView, weight: u64) -> Seq<
    BallotView,
> {
    if classify(ballots, vote) == InsertOutcome::Added {
        ballots.push(BallotView { vote, weight })
    } else {
        ballots
    }
}

/// Each voter's value.
pub open spec fn by_voter(ballots: Seq<BallotView>) -> Map<Seq<u8>, Seq<u8>> {
    Map::new(
        |voter: Seq<u8>| cast_by(ballots, voter) is Some,
        |voter: Seq<u8>| cast_by(ballots, voter)->0,
    )
}

/// Each value's weight.
pub open spec fn by_value(ballots: Seq<BallotView>) -> Map<Seq<u8>, int> {
    Map::new(
        |value: Seq<u8>| tally_values(ballots).contains(value),
        |value: Seq<u8>| weight_for(ballots, value),
    )
}

/// The weight of one value never exceeds the weight of all ballots, and
/// neither is negative.
pub proof fn lemma_weight_bounds(ballots: Seq<BallotView>, value: Seq<u8>)
    ensures
        0 <= weight_for(ballots, value) <= total_of(ballots),
        total_of(ballots) <= ballots.len() * u64::MAX,
    decreases ballots.len(),
{
    if ballots.len() > 0 {
        lemma_weight_bounds(ballots.drop_last(), value);
        assert((ballots.len() - 1) * u64::MAX + u64::MAX == ballots.len() * u64::MAX)
            by (nonlinear_arith);
    }
}

/// The weights of two different values together never exceed the weight of
/// all ballots.
pub proof fn lemma_two_values_bound(ballots: Seq<BallotView>, a: Seq<u8>, b: Seq<u8>)
    requires
        a != b,
    ensures
        weight_for(ballots, a) + weight_for(ballots, b) <= total_of(ballots),
    decreases ballots.len(),
{
    if ballots.len() > 0 {
        lemma_two_values_bound(ballots.drop_last(), a, b);
    }
}

/// A value has ballots exactly if it is among the tallied values; one
/// without ballots has weight 0.
pub proof fn lemma_tally_values(ballots: Seq<BallotView>, value: Seq<u8>)
    ensures
        tally_values(ballots).contains(value) <==> exists|i: int|
            0 <= i < ballots.len() && (#[trigger] ballots[i]).vote.proposal == value,
        !tally_values(ballots).contains(value) ==> weight_for(ballots, value) == 0,
        tally_values(ballots).no_duplicates(),
    decreases ballots.len(),
{
    if ballots.len() > 0 {
        let before = ballots.drop_last();
        let last = ballots.last();
        lemma_tally_values(before, value);
        lemma_tally_values(before, last.vote.proposal);
        let tv = tally_values(ballots);
        let tb = tally_values(before);
        if tb.contains(last.vote.proposal) {
            assert(tv == tb);
        } else {
            assert(tv == tb.push(last.vote.proposal));
            assert(tv[tb.len() as int] == last.vote.proposal);
            assert forall|i: int, j: int| 0 <= i < j < tv.len() implies tv[i] != tv[j] by {
                if j == tb.len() {
                    assert(tb[i] == tv[i]);
                    assert(tb.contains(tv[i]));
                } else {
                    assert(tb[i] == tv[i] && tb[j] == tv[j]);
                }
            }
        }
        if tv.contains(value) {
            let k = choose|k: int| 0 <= k < tv.len() && tv[k] == value;
            if k < tb.len() {
                assert(tb[k] == value);
                assert(tb.contains(value));
                let i = choose|i: int|
                    0 <= i < before.len() && (#[trigger] before[i]).vote.proposal == value;
                assert(ballots[i] == before[i]);
            } else {
                assert(ballots[ballots.len() - 1].vote.proposal == value);
            }
        }
        if exists|i: int| 0 <= i < ballots.len() && (#[trigger] ballots[i]).vote.proposal == value {
            let i = choose|i: int|
                0 <= i < ballots.len() && (#[trigger] ballots[i]).vote.proposal == value;
            if i < before.len() {
                assert(before[i] == ballots[i]);
                assert(tb.contains(value));
                let k = choose|k: int| 0 <= k < tb.len() && tb[k] == value;
                assert(tv[k] == value);
            } else {
                if tb.contains(value) {
                    assert(tv == tb);
                } else {
                    assert(tv[tb.len() as int] == value);
                }
            }
        }
    } else {
        assert(tally_values(ballots) =~= Seq::<Seq<u8>>::empty());
    }
}

/// A voter has a ballot exactly if some ballot is the voter's.
pub proof fn lemma_cast_by(ballots: Seq<BallotView>, voter: Seq<u8>)
    ensures
        cast_by(ballots, voter) is Some <==> exists|i: int|
            0 <= i < ballots.len() && (#[trigger] ballots[i]).vote.voter == voter,
    decreases ballots.len(),
{
    if ballots.len() > 0 {
        let before = ballots.drop_last();
        lemma_cast_by(before, voter);
        if cast_by(before, voter) is Some {
            let i = choose|i: int| 0 <= i < before.len() && (#[trigger] before[i]).vote.voter == voter;
            assert(ballots[i] == before[i]);
        } else if ballots.last().vote.voter == voter {
            assert(ballots[ballots.len() - 1].vote.voter == voter);
        } else {
            if exists|i: int| 0 <= i < ballots.len() && (#[trigger] ballots[i]).vote.voter == voter {
                let i = choose|i: int|
                    0 <= i < ballots.len() && (#[trigger] ballots[i]).vote.voter == voter;
                assert(before[i] == ballots[i]);
            }
        }
    }
}

/// A vote that is handed in twice changes the set once: the second time it
/// is a duplicate, and the ballots stay as the first time left them.
pub proof fn lemma_duplicate_vote(ballots: Seq<BallotView>, vote: VoteView, weight: u64, again: u64)
    ensures
        classify(with_vote(ballots, vote, weight), vote) != InsertOutcome::Added,
        classify(ballots, vote) == InsertOutcome::Added ==> classify(
            with_vote(ballots, vote, weight),
            vote,
        ) == InsertOutcome::Duplicate,
        with_vote(with_vote(ballots, vote, weight), vote, again) == with_vote(ballots, vote, weight),
        total_of(with_vote(with_vote(ballots, vote, weight), vote, again)) == total_of(
            with_vote(ballots, vote, weight),
        ),
{
    if classify(ballots, vote) == InsertOutcome::Added {
        let grown = ballots.push(BallotView { vote, weight });
        assert(grown.drop_last() =~= ballots);
    }
}

/// Where the ballots weigh no more than `total` and `total` is positive,
/// two values cannot both reach two thirds of it.
pub proof fn lemma_quorum_unique(ballots: Seq<BallotView>, total: int, a: Seq<u8>, b: Seq<u8>)
    requires
        total > 0,
        total_of(ballots) <= total,
        is_quorum(weight_for(ballots, a), total),
        is_quorum(weight_for(ballots, b), total),
    ensures
        a == b,
{
    if a != b {
        lemma_two_values_bound(ballots, a, b);
    }
}

/// Whether `weight` is two thirds of `total`, or more.
pub fn reaches_quorum(weight: u128, total: u128) -> (reached: bool)
    ensures
        reached == is_quorum(weight as int, total as int),
{
    if weight >= total {
        true
    } else {
        weight / 2 >= total - weight
    }
}

/// A ballot: a vote with the weight that it counts for.
pub struct Ballot {
    pub vote: Vote,
    pub weight: u64,
}

impl View for Ballot {
    type V = BallotView;

    open spec fn view(&self) -> BallotView {
        BallotView { vote: self.vote@, weight: self.weight }
    }
}

/// The views of a sequence of ballots, in order.
pub open spec fn ballots_view(ballots: Seq<Ballot>) -> Seq<BallotView> {
    ballots.map_values(|b: Ballot| b@)
}

/// A value with the weight of its ballots.
pub struct Tally {
    pub value: Target,
    pub weight: u128,
}

/// The votes of one kind in one round of one height: one ballot for each
/// voter, the weight of each value, and the weight of all.
pub struct VoteSet {
    ballots: Vec<Ballot>,
    tallies: Vec<Tally>,
    total_weight: u128,
}

impl View for VoteSet {
    type V = Seq<BallotView>;

    closed spec fn view(&self) -> Seq<BallotView> {
        ballots_view(self.ballots@)
    }
}

impl VoteSet {
    /// The weights kept beside the ballots are those of the ballots.
    pub closed spec fn wf(&self) -> bool {
        &&& self.total_weight == total_of(self@)
        &&& self.tallies@.len() == tally_values(self@).len()
        &&& forall|k: int|
            0 <= k < self.tallies@.len() ==> (#[trigger] self.tallies@[k]).value@ == tally_values(
                self@,
            )[k] && self.tallies@[k].weight == weight_for(self@, tally_values(self@)[k])
    }

    /// A set without ballots.
    pub fn new() -> (set: VoteSet)
        ensures
            set.wf(),
            set@ == Seq::<BallotView>::empty(),
    {
        let set = VoteSet { ballots: Vec::new(), tallies: Vec::new(), total_weight: 0 };
        assert(set@ =~= Seq::<BallotView>::empty());
        set
    }

    /// The number of ballots.
    pub fn len(&self) -> (len: usize)
        ensures
            len == self@.len(),
    {
        self.ballots.len()
    }

    /// The weight of all ballots.
    pub fn total_weight(&self) -> (weight: u128)
        requires
            self.wf(),
        ensures
            weight == total_of(self@),
    {
        self.total_weight
    }

    /// The value that `voter` voted for, if it has a ballot.
    pub fn voted(&self, voter: &crate::types::Address) -> (value: Option<Target>)
        ensures
            match value {
                Some(v) => cast_by(self@, voter@) == Some(v@),
                None => cast_by(self@, voter@) is None,
            },
            value is Some == by_voter(self@).contains_key(voter@),
            value matches Some(v) ==> by_voter(self@)[voter@] == v@,
    {
        let mut i: usize = 0;
        assert(self@.take(0) =~= Seq::<BallotView>::empty());
        while i < self.ballots.len()
            invariant
                i <= self.ballots.len(),
                self@.len() == self.ballots@.len(),
                cast_by(self@.take(i as int), voter@) is None,
            decreases self.ballots.len() - i,
        {
            proof {
                assert(self@.take(i as int + 1).drop_last() =~= self@.take(i as int));
                assert(self@.take(i as int + 1).last() == self.ballots@[i as int]@);
            }
            if self.ballots[i].vote.voter.same(voter) {
                let value = self.ballots[i].vote.proposal.clone();
                proof {
                    lemma_cast_by_prefix(self@, i as int + 1, voter@);
                }
                return Some(value);
            }
            i += 1;
        }
        assert(self@.take(i as int) =~= self@);
        None
    }

    /// The weight of the ballots for `value`.
    pub fn weight_of(&self, value: &Target) -> (weight: u128)
        requires
            self.wf(),
        ensures
            weight == weight_for(self@, value@),
            by_value(self@).contains_key(value@) ==> weight == by_value(self@)[value@],
            !by_value(self@).contains_key(value@) ==> weight == 0,
    {
        let mut k: usize = 0;
        while k < self.tallies.len()
            invariant
                self.wf(),
                k <= self.tallies.len(),
                forall|j: int| 0 <= j < k ==> tally_values(self@)[j] != value@,
            decreases self.tallies.len() - k,
        {
            if self.tallies[k].value.same(value) {
                return self.tallies[k].weight;
            }
            k += 1;
        }
        proof {
            lemma_tally_values(self@, value@);
            if tally_values(self@).contains(value@) {
                let j = choose|j: int|
                    0 <= j < tally_values(self@).len() && tally_values(self@)[j] == value@;
                assert(false);
            }
        }
        0
    }

    /// Whether the ballots for `value` reach two thirds of `total`.
    pub fn quorum(&self, value: &Target, total: u128) -> (reached: bool)
        requires
            self.wf(),
        ensures
            reached == is_quorum(weight_for(self@, value@), total as int),
    {
        reaches_quorum(self.weight_of(value), total)
    }

    /// Whether all ballots together reach two thirds of `total`.
    pub fn any_quorum_total(&self, total: u128) -> (reached: bool)
        requires
            self.wf(),
        ensures
            reached == is_quorum(total_of(self@), total as int),
    {
        reaches_quorum(self.total_weight, total)
    }

    /// The value, first voted for among those that do, whose ballots reach
    /// two thirds of `total`.
    pub fn quorum_value(&self, total: u128) -> (value: Option<Target>)
        requires
            self.wf(),
        ensures
            match value {
                Some(v) => quorum_value(self@, total as int) == Some(v@),
                None => quorum_value(self@, total as int) is None,
            },
    {
        let mut k: usize = 0;
        let ghost values = tally_values(self@);
        assert(values.take(0) =~= Seq::<Seq<u8>>::empty());
        while k < self.tallies.len()
            invariant
                self.wf(),
                values == tally_values(self@),
                k <= self.tallies.len(),
                first_quorum(values.take(k as int), self@, total as int) is None,
            decreases self.tallies.len() - k,
        {
            proof {
                assert(values.take(k as int + 1).drop_last() =~= values.take(k as int));
                assert(values.take(k as int + 1).last() == values[k as int]);
            }
            if reaches_quorum(self.tallies[k].weight, total) {
                let value = self.tallies[k].value.clone();
                proof {
                    lemma_first_quorum_prefix(values, k as int + 1, self@, total as int);
                }
                return Some(value);
            }
            k += 1;
        }
        assert(values.take(k as int) =~= values);
        None
    }

    /// The votes for `value`, in the order in which they came.
    pub fn votes_for(&self, value: &Target) -> (votes: Vec<Vote>)
        ensures
            votes_view(votes@) == votes_for(self@, value@),
    {
        let mut votes: Vec<Vote> = Vec::new();
        let mut i: usize = 0;
        assert(self@.take(0) =~= Seq::<BallotView>::empty());
        assert(votes_view(votes@) =~= Seq::<VoteView>::empty());
        while i < self.ballots.len()
            invariant
                i <= self.ballots.len(),
                self@.len() == self.ballots@.len(),
                votes_view(votes@) == votes_for(self@.take(i as int), value@),
            decreases self.ballots.len() - i,
        {
            proof {
                assert(self@.take(i as int + 1).drop_last() =~= self@.take(i as int));
                assert(self@.take(i as int + 1).last() == self.ballots@[i as int]@);
            }
            if self.ballots[i].vote.proposal.same(value) {
                let ghost before = votes@;
                votes.push(self.ballots[i].vote.clone());
                proof {
                    assert(votes_view(votes@) =~= votes_view(before).push(
                        self.ballots@[i as int]@.vote,
                    ));
                }
            }
            i += 1;
        }
        assert(self@.take(i as int) =~= self@);
        votes
    }

    /// Hands a vote in with the weight that it counts for. The vote is
    /// added where the voter has no ballot yet; where it has one, the set
    /// stays as it is.
    pub fn insert(&mut self, vote: Vote, weight: u64) -> (outcome: InsertOutcome)
        requires
            old(self).wf(),
        ensures
            final(self).wf(),
            outcome == classify(old(self)@, vote@),
            final(self)@ == with_vote(old(self)@, vote@, weight),
    {
        match self.voted(&vote.voter) {
            Some(value) => {
                if value.same(&vote.proposal) {
                    InsertOutcome::Duplicate
                } else {
                    InsertOutcome::ConflictingFromVoter
                }
            },
            None => {
                let ghost before = self@;
                let count = self.ballots.len();
                assert(before.len() == count);
                let ghost ballot = BallotView { vote: vote@, weight };
                let ghost after = before.push(ballot);
                proof {
                    assert(after.drop_last() =~= before);
                    lemma_weight_bounds(before, vote@.proposal);
                    assert(before.len() * u64::MAX + u64::MAX <= u128::MAX) by (nonlinear_arith)
                        requires
                            before.len() <= usize::MAX,
                    ;
                    lemma_tally_values(before, vote@.proposal);
                }
                let mut k: usize = 0;
                let mut found = false;
                while k < self.tallies.len() && !found
                    invariant
                        self.wf(),
                        self@ == before,
                        k <= self.tallies.len(),
                        !found ==> forall|j: int|
                            0 <= j < k ==> tally_values(before)[j] != vote@.proposal,
                        found ==> k < self.tallies.len() && tally_values(before)[k as int]
                            == vote@.proposal,
                    decreases self.tallies.len() - k + if found {
                        0int
                    } else {
                        1int
                    },
                {
                    if self.tallies[k].value.same(&vote.proposal) {
                        found = true;
                    } else {
                        k += 1;
                    }
                }
                if found {
                    let tally = Tally {
                        value: vote.proposal.clone(),
                        weight: self.tallies[k].weight + weight as u128,
                    };
                    self.tallies.set(k, tally);
                    proof {
                        assert(tally_values(before).contains(vote@.proposal));
                        assert(tally_values(after) == tally_values(before));
                    }
                } else {
                    proof {
                        if tally_values(before).contains(vote@.proposal) {
                            let j = choose|j: int|
                                0 <= j < tally_values(before).len() && tally_values(before)[j]
                                    == vote@.proposal;
                            assert(false);
                        }
                        assert(tally_values(after) == tally_values(before).push(vote@.proposal));
                    }
                    self.tallies.push(Tally { value: vote.proposal.clone(), weight: weight as u128 });
                }
                self.total_weight = self.total_weight + weight as u128;
                self.ballots.push(Ballot { vote, weight });
                proof {
                    assert(self@ =~= after);
                    assert forall|j: int| 0 <= j < self.tallies@.len() implies (
                    #[trigger] self.tallies@[j]).value@ == tally_values(after)[j]
                        && self.tallies@[j].weight == weight_for(after, tally_values(after)[j]) by {
                        if j < tally_values(before).len() {
                            assert(tally_values(after)[j] == tally_values(before)[j]);
                            if found && j == k {
                            } else {
                                assert(self.tallies@[j] == old(self).tallies@[j]);
                            }
                        }
                    }
                }
                InsertOutcome::Added
            },
        }
    }
}

/// The first ballot of a voter among the first `n` ballots is the voter's
/// ballot in the whole set.
pub proof fn lemma_cast_by_prefix(ballots: Seq<BallotView>, n: int, voter: Seq<u8>)
    requires
        0 <= n <= ballots.len(),
        cast_by(ballots.take(n), voter) is Some,
    ensures
        cast_by(ballots, voter) == cast_by(ballots.take(n), voter),
    decreases ballots.len() - n,
{
    if n < ballots.len() {
        assert(ballots.take(n + 1).drop_last() =~= ballots.take(n));
        lemma_cast_by_prefix(ballots, n + 1, voter);
    } else {
        assert(ballots.take(n) =~= ballots);
    }
}

/// The first value with a quorum among the first `n` values is the first
/// among all of them.
pub proof fn lemma_first_quorum_prefix(
    values: Seq<Seq<u8>>,
    n: int,
    ballots: Seq<BallotView>,
    total: int,
)
    requires
        0 <= n <= values.len(),
        first_quorum(values.take(n), ballots, total) is Some,
    ensures
        first_quorum(values, ballots, total) == first_quorum(values.take(n), ballots, total),
    decreases values.len() - n,
{
    if n < values.len() {
        assert(values.take(n + 1).drop_last() =~= values.take(n));
        lemma_first_quorum_prefix(values, n + 1, ballots, total);
    } else {
        assert(values.take(n) =~= values);
    }
}

/// The votes of one kind in one round, as a vote collection keeps them.
pub struct SlotView {
    pub round: u64,
    pub vote_type: VoteType,
    pub ballots: Seq<BallotView>,
}

/// The place of the votes of a kind and round among the slots, if they
/// have one.
pub open spec fn slot_index(slots: Seq<SlotView>, round: u64, vote_type: VoteType) -> Option<int>
    decreases slots.len(),
{
    if slots.len() == 0 {
        None
    } else {
        match slot_index(slots.drop_last(), round, vote_type) {
            Some(k) => Some(k),
            None => if slots.last().round == round && slots.last().vote_type == vote_type {
                Some(slots.len() - 1)
            } else {
                None
            },
        }
    }
}

/// The ballots of a kind and round: none where there is no slot for them.
pub open spec fn ballots_at(slots: Seq<SlotView>, round: u64, vote_type: VoteType) -> Seq<
    BallotView,
> {
    match slot_index(slots, round, vote_type) {
        Some(k) => slots[k].ballots,
        None => Seq::empty(),
    }
}

/// The slots once `vote` has been handed in with `weight`.
pub open spec fn slots_with_vote(slots: Seq<SlotView>, vote: VoteView, weight: u64) -> Seq<
    SlotView,
> {
    match slot_index(slots, vote.round, vote.vote_type) {
        Some(k) => slots.update(
            k,
            SlotView { ballots: with_vote(slots[k].ballots, vote, weight), ..slots[k] },
        ),
        None => slots.push(
            SlotView {
                round: vote.round,
                vote_type: vote.vote_type,
                ballots: seq![BallotView { vote, weight }],
            },
        ),
    }
}

/// The index that `slot_index` gives is in range and holds a slot of the
/// kind and round asked for.
pub proof fn lemma_slot_index(slots: Seq<SlotView>, round: u64, vote_type: VoteType)
    ensures
        match slot_index(slots, round, vote_type) {
            Some(k) => 0 <= k < slots.len() && slots[k].round == round && slots[k].vote_type
                == vote_type,
            None => forall|j: int|
                0 <= j < slots.len() ==> !((#[trigger] slots[j]).round == round
                    && slots[j].vote_type == vote_type),
        },
    decreases slots.len(),
{
    if slots.len() > 0 {
        lemma_slot_index(slots.drop_last(), round, vote_type);
        match slot_index(slots.drop_last(), round, vote_type) {
            Some(k) => {
                assert(slots[k] == slots.drop_last()[k]);
            },
            None => {
                assert forall|j: int| 0 <= j < slots.len() - 1 implies !((
                #[trigger] slots[j]).round == round && slots[j].vote_type == vote_type) by {
                    assert(slots[j] == slots.drop_last()[j]);
                }
            },
        }
    }
}

/// The slot found among the first `n` slots is the slot among all.
pub proof fn lemma_slot_index_prefix(
    slots: Seq<SlotView>,
    n: int,
    round: u64,
    vote_type: VoteType,
)
    requires
        0 <= n <= slots.len(),
        slot_index(slots.take(n), round, vote_type) is Some,
    ensures
        slot_index(slots, round, vote_type) == slot_index(slots.take(n), round, vote_type),
    decreases slots.len() - n,
{
    if n < slots.len() {
        assert(slots.take(n + 1).drop_last() =~= slots.take(n));
        lemma_slot_index_prefix(slots, n + 1, round, vote_type);
    } else {
        assert(slots.take(n) =~= slots);
    }
}

/// The votes of one kind in one round.
pub struct Slot {
    pub round: u64,
    pub vote_type: VoteType,
    pub set: VoteSet,
}

impl View for Slot {
    type V = SlotView;

    open spec fn view(&self) -> SlotView {
        SlotView { round: self.round, vote_type: self.vote_type, ballots: self.set@ }
    }
}

/// The views of a sequence of slots, in order.
pub open spec fn slots_view(slots: Seq<Slot>) -> Seq<SlotView> {
    slots.map_values(|s: Slot| s@)
}

/// The votes of one height, by round and kind.
pub struct VoteCollection {
    slots: Vec<Slot>,
}

impl View for VoteCollection {
    type V = Seq<SlotView>;

    closed spec fn view(&self) -> Seq<SlotView> {
        slots_view(self.slots@)
    }
}

impl VoteCollection {
    /// Every vote set of the collection is well formed.
    pub closed spec fn wf(&self) -> bool {
        forall|k: int| 0 <= k < self.slots@.len() ==> (#[trigger] self.slots@[k]).set.wf()
    }

    /// A collection without votes.
    pub fn new() -> (votes: VoteCollection)
        ensures
            votes.wf(),
            votes@ == Seq::<SlotView>::empty(),
    {
        let votes = VoteCollection { slots: Vec::new() };
        assert(votes@ =~= Seq::<SlotView>::empty());
        votes
    }

    fn find(&self, round: u64, vote_type: VoteType) -> (index: Option<usize>)
        ensures
            match index {
                Some(k) => slot_index(self@, round, vote_type) == Some(k as int) && k
                    < self.slots@.len(),
                None => slot_index(self@, round, vote_type) is None,
            },
    {
        let mut k: usize = 0;
        assert(self@.take(0) =~= Seq::<SlotView>::empty());
        while k < self.slots.len()
            invariant
                k <= self.slots.len(),
                self@.len() == self.slots@.len(),
                slot_index(self@.take(k as int), round, vote_type) is None,
            decreases self.slots.len() - k,
        {
            proof {
                assert(self@.take(k as int + 1).drop_last() =~= self@.take(k as int));
                assert(self@.take(k as int + 1).last() == self.slots@[k as int]@);
            }
            if self.slots[k].round == round && self.slots[k].vote_type == vote_type {
                proof {
                    lemma_slot_index_prefix(self@, k as int + 1, round, vote_type);
                }
                return Some(k);
            }
            k += 1;
        }
        assert(self@.take(k as int) =~= self@);
        None
    }

    /// Hands a vote in with the weight that it counts for, to the votes of
    /// its round and kind.
    pub fn insert(&mut self, vote: Vote, weight: u64) -> (outcome: InsertOutcome)
        requires
            old(self).wf(),
        ensures
            final(self).wf(),
            outcome == classify(ballots_at(old(self)@, vote.round, vote.vote_type), vote@),
            outcome == InsertOutcome::Added ==> final(self)@ == slots_with_vote(
                old(self)@,
                vote@,
                weight,
            ),
            outcome != InsertOutcome::Added ==> final(self)@ == old(self)@,
    {
        let round = vote.round;
        let vote_type = vote.vote_type;
        let ghost vote_view = vote@;
        match self.find(round, vote_type) {
            Some(k) => {
                let mut set = VoteSet::new();
                let ghost before = self.slots@;
                std::mem::swap(&mut set, &mut self.slots[k].set);
                let outcome = set.insert(vote, weight);
                std::mem::swap(&mut set, &mut self.slots[k].set);
                proof {
                    assert(self.slots@[k as int].set@ == with_vote(
                        before[k as int].set@,
                        vote_view,
                        weight,
                    ));
                    if outcome == InsertOutcome::Added {
                        assert(self@ =~= slots_with_vote(old(self)@, vote_view, weight));
                    } else {
                        assert(self@ =~= old(self)@);
                    }
                }
                outcome
            },
            None => {
                let mut set = VoteSet::new();
                let outcome = set.insert(vote, weight);
                let ghost before = self@;
                self.slots.push(Slot { round, vote_type, set });
                proof {
                    assert(Seq::<BallotView>::empty().push(BallotView { vote: vote_view, weight })
                        =~= seq![BallotView { vote: vote_view, weight }]);
                    assert(self@ =~= slots_with_vote(before, vote_view, weight));
                }
                outcome
            },
        }
    }

    /// The weight of all votes of a kind and round.
    pub fn total_weight(&self, round: u64, vote_type: VoteType) -> (weight: u128)
        requires
            self.wf(),
        ensures
            weight == total_of(ballots_at(self@, round, vote_type)),
    {
        match self.find(round, vote_type) {
            Some(k) => self.slots[k].set.total_weight(),
            None => 0,
        }
    }

    /// Whether all votes of a kind and round together reach two thirds of
    /// `total`.
    pub fn any_quorum_total(&self, round: u64, vote_type: VoteType, total: u128) -> (reached: bool)
        requires
            self.wf(),
        ensures
            reached == is_quorum(total_of(ballots_at(self@, round, vote_type)), total as int),
    {
        reaches_quorum(self.total_weight(round, vote_type), total)
    }

    /// The value, first voted for among those that do, whose votes of a
    /// kind and round reach two thirds of `total`.
    pub fn quorum_value(&self, round: u64, vote_type: VoteType, total: u128) -> (value: Option<
        Target,
    >)
        requires
            self.wf(),
        ensures
            match value {
                Some(v) => quorum_value(ballots_at(self@, round, vote_type), total as int) == Some(
                    v@,
                ),
                None => quorum_value(ballots_at(self@, round, vote_type), total as int) is None,
            },
    {
        match self.find(round, vote_type) {
            Some(k) => self.slots[k].set.quorum_value(total),
            None => {
                assert(tally_values(Seq::<BallotView>::empty()) =~= Seq::<Seq<u8>>::empty());
                None
            },
        }
    }

    /// The votes of a kind and round for `value`, in the order in which
    /// they came.
    pub fn votes_for(&self, round: u64, vote_type: VoteType, value: &Target) -> (votes: Vec<Vote>)
        ensures
            votes_view(votes@) == votes_for(ballots_at(self@, round, vote_type), value@),
    {
        match self.find(round, vote_type) {
            Some(k) => self.slots[k].set.votes_for(value),
            None => {
                let votes: Vec<Vote> = Vec::new();
                assert(votes_view(votes@) =~= Seq::<VoteView>::empty());
                votes
            },
        }
    }

    /// Forgets all votes.
    pub fn clear(&mut self)
        ensures
            final(self).wf(),
            final(self)@ == Seq::<SlotView>::empty(),
    {
        self.slots = Vec::new();
        assert(self@ =~= Seq::<SlotView>::empty());
    }
}

} // verus!
