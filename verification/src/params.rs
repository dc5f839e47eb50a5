use crate::rand::{
    checked_total, get_index, get_index_rand, random_index, total_weight, weighted_index,
};
use crate::types::{
    clone_nodes, has_entry, nodes_view, propose_weights, vote_weight_entries, weights_view, Address,
    Node, NodeView, Proposal, ProposalView, Status, StatusView, VoteType, VoteView,
};
use crate::voteset::{is_quorum, reaches_quorum};
use vstd::prelude::*;

verus! {

/// How the proposer of a round is chosen. All nodes of a network use the
/// same policy.
#[derive(Clone, Copy, Debug, PartialEq, Eq, Structural)]
pub enum ProposerPolicy {
    /// By the remainder of height plus round by the sum of the weights.
    Weighted,
    /// By a sample from a generator seeded with height plus round.
    Random,
}

/// How the timeout of a step grows with the round.
#[derive(Clone, Copy, Debug, PartialEq, Eq, Structural)]
pub enum RoundScaling {
    /// The interval doubles with each round, up to `cap` times.
    Doubling { cap: u8 },
    /// The interval grows by `increment` milliseconds with each round.
    Additive { increment: u64 },
}

/// What a node is set up with.
#[derive(Clone, Copy, Debug, PartialEq, Eq, Structural)]
pub struct Config {
    /// The time interval of a step in round 0, in milliseconds.
    pub interval: u64,
    /// How the proposer of a round is chosen.
    pub policy: ProposerPolicy,
    /// How the timeout of a step grows with the round.
    pub scaling: RoundScaling,
    /// Whether a proposal waits for the host's answer on its value before
    /// it is voted for.
    pub async_verify: bool,
}

/// The interval of a step in round 0 unless another is asked for, in
/// milliseconds.
pub const DEFAULT_INTERVAL: u64 = 3000;

/// How often the interval doubles at most unless another cap is asked for.
pub const DEFAULT_DOUBLING_CAP: u8 = 10;

impl Default for Config {
    fn default() -> (config: Config)
        ensures
            config == (Config {
                interval: DEFAULT_INTERVAL,
                policy: ProposerPolicy::Weighted,
                scaling: RoundScaling::Doubling { cap: DEFAULT_DOUBLING_CAP },
                async_verify: false,
            }),
    {
        Config {
            interval: DEFAULT_INTERVAL,
            policy: ProposerPolicy::Weighted,
            scaling: RoundScaling::Doubling { cap: DEFAULT_DOUBLING_CAP },
            async_verify: false,
        }
    }
}

/// What the parameters of a node say.
pub struct ParamsView {
    pub address: Seq<u8>,
    pub authorities: Seq<NodeView>,
    pub interval: u64,
    pub policy: ProposerPolicy,
    pub scaling: RoundScaling,
    pub async_verify: bool,
}

/// The weight that the first entry for `addr` gives it; 0 where there is
/// none.
pub open spec fn weight_in(entries: Seq<(Seq<u8>, u64)>, addr: Seq<u8>) -> u64
    decreases entries.len(),
{
    if entries.len() == 0 {
        0
    } else if has_entry(entries.drop_last(), addr) {
        weight_in(entries.drop_last(), addr)
    } else if entries.last().0 == addr {
        entries.last().1
    } else {
        0
    }
}

/// The sum of the weights of all entries.
pub open spec fn entries_total(entries: Seq<(Seq<u8>, u64)>) -> int
    decreases entries.len(),
{
    if entries.len() == 0 {
        0
    } else {
        entries_total(entries.drop_last()) + entries.last().1
    }
}

/// The weight of the votes of `addr`: that of its first entry in the
/// authority list, and 0 where it has none.
pub open spec fn vote_weight(p: ParamsView, addr: Seq<u8>) -> u64 {
    weight_in(vote_weight_entries(p.authorities), addr)
}

/// The weight of the votes of all authorities together, each address
/// counted once.
pub open spec fn total_vote_weight(p: ParamsView) -> int {
    entries_total(vote_weight_entries(p.authorities))
}

/// The index in the authority list of the proposer of a round: none where
/// height plus round, or the sum of the propose weights, does not fit in 64
/// bits, or where that sum is 0.
pub open spec fn proposer_index(p: ParamsView, height: u64, round: u64) -> Option<int> {
    let weights = propose_weights(p.authorities);
    let sum = total_weight(weights);
    if height + round > u64::MAX || sum <= 0 || sum > u64::MAX {
        None
    } else {
        Some(
            match p.policy {
                ProposerPolicy::Weighted => weighted_index(weights, 1, (height + round) % sum),
                ProposerPolicy::Random => random_index((height + round) as u64, weights),
            },
        )
    }
}

/// Whether `addr` is the address of the proposer of a round.
pub open spec fn is_proposer(p: ParamsView, height: u64, round: u64, addr: Seq<u8>) -> bool {
    match proposer_index(p, height, round) {
        Some(i) => 0 <= i < p.authorities.len() && p.authorities[i].address == addr,
        None => false,
    }
}

/// `base` doubled `times` times, but never above `u64::MAX`.
pub open spec fn doubled(base: u64, times: nat) -> u64
    decreases times,
{
    if times == 0 {
        base
    } else {
        let before = doubled(base, (times - 1) as nat);
        if before * 2 > u64::MAX {
            u64::MAX
        } else {
            (before * 2) as u64
        }
    }
}

/// The timeout of a step in a round, in milliseconds: the interval, grown
/// with the round as the scaling says, but never above `u64::MAX`.
pub open spec fn timeout(p: ParamsView, round: u64) -> u64 {
    match p.scaling {
        RoundScaling::Doubling { cap } => doubled(
            p.interval,
            if round < cap {
                round as nat
            } else {
                cap as nat
            },
        ),
        RoundScaling::Additive { increment } => if p.interval + round * increment > u64::MAX {
            u64::MAX
        } else {
            (p.interval + round * increment) as u64
        },
    }
}

/// The parameters once a status has been applied: its authority list, and
/// its interval where it gives one.
pub open spec fn installed(p: ParamsView, status: StatusView) -> ParamsView {
    ParamsView {
        authorities: status.authority_list,
        interval: match status.interval {
            Some(interval) => interval,
            None => p.interval,
        },
        ..p
    }
}

/// The sum of the vote weights of the voters of `votes`.
pub open spec fn votes_weight(p: ParamsView, votes: Seq<VoteView>) -> int
    decreases votes.len(),
{
    if votes.len() == 0 {
        0
    } else {
        votes_weight(p, votes.drop_last()) + vote_weight(p, votes.last().voter)
    }
}

/// Whether `vote` is a prevote of an authority for the value of the
/// proposal, at its height and at the round `lock_round`.
pub open spec fn supports(p: ParamsView, proposal: ProposalView, lock_round: u64, vote: VoteView) -> bool {
    &&& vote.vote_type == VoteType::Prevote
    &&& vote.height == proposal.height
    &&& vote.round == lock_round
    &&& vote.proposal == proposal.content
    &&& vote_weight(p, vote.voter) > 0
}

/// Whether no two of the votes are of one voter.
pub open spec fn distinct_voters(votes: Seq<VoteView>) -> bool {
    forall|i: int, j: int|
        #![trigger votes[i], votes[j]]
        0 <= i < j < votes.len() ==> votes[i].voter != votes[j].voter
}

/// Whether a proposal that names a lock round proves it: the round is
/// before the proposal's own, and the votes it carries are prevotes of
/// different authorities for its value at that round, with two thirds of
/// the weight of all authorities or more.
pub open spec fn proves_lock(p: ParamsView, proposal: ProposalView) -> bool {
    &&& proposal.lock_round matches Some(lock_round)
    &&& lock_round < proposal.round
    &&& forall|i: int|
        0 <= i < proposal.lock_votes.len() ==> supports(
            p,
            proposal,
            lock_round,
            #[trigger] proposal.lock_votes[i],
        )
    &&& distinct_voters(proposal.lock_votes)
    &&& is_quorum(votes_weight(p, proposal.lock_votes), total_vote_weight(p))
}

/// The proposer of a round depends on the height, the round, the authority
/// list and the policy, and on nothing else: nodes that agree on these
/// agree on the proposer.
pub proof fn lemma_proposer_is_deterministic(p: ParamsView, q: ParamsView, height: u64, round: u64)
    requires
        p.authorities == q.authorities,
        p.policy == q.policy,
    ensures
        proposer_index(p, height, round) == proposer_index(q, height, round),
        forall|addr: Seq<u8>|
            is_proposer(p, height, round, addr) == is_proposer(q, height, round, addr),
{
}

/// The entry of an address among the first `n` entries gives the weight of
/// the address among all.
pub proof fn lemma_weight_in_prefix(entries: Seq<(Seq<u8>, u64)>, n: int, addr: Seq<u8>)
    requires
        0 <= n <= entries.len(),
        has_entry(entries.take(n), addr),
    ensures
        weight_in(entries, addr) == weight_in(entries.take(n), addr),
    decreases entries.len() - n,
{
    if n < entries.len() {
        let next = entries.take(n + 1);
        assert(next.drop_last() =~= entries.take(n));
        let k = choose|k: int|
            0 <= k < entries.take(n).len() && (#[trigger] entries.take(n)[k]).0 == addr;
        assert(next[k] == entries.take(n)[k]);
        assert(has_entry(next, addr));
        lemma_weight_in_prefix(entries, n + 1, addr);
    } else {
        assert(entries.take(n) =~= entries);
    }
}

/// The sum of the weights of `n` entries is at most `n` times `u64::MAX`.
pub proof fn lemma_entries_total_bound(entries: Seq<(Seq<u8>, u64)>)
    ensures
        0 <= entries_total(entries) <= entries.len() * u64::MAX,
    decreases entries.len(),
{
    if entries.len() > 0 {
        lemma_entries_total_bound(entries.drop_last());
        assert((entries.len() - 1) * u64::MAX + u64::MAX == entries.len() * u64::MAX)
            by (nonlinear_arith);
    }
}

/// The sum of the vote weights of `n` votes is at most `n` times
/// `u64::MAX`.
pub proof fn lemma_votes_weight_bound(p: ParamsView, votes: Seq<VoteView>)
    ensures
        0 <= votes_weight(p, votes) <= votes.len() * u64::MAX,
    decreases votes.len(),
{
    if votes.len() > 0 {
        lemma_votes_weight_bound(p, votes.drop_last());
        assert((votes.len() - 1) * u64::MAX + u64::MAX == votes.len() * u64::MAX)
            by (nonlinear_arith);
    }
}

/// The parameters of a node: who it is, who the authorities are and what
/// their weights are, and how long a step may take.
pub struct Params {
    address: Address,
    authority_list: Vec<Node>,
    propose_weights: Vec<u64>,
    vote_weights: Vec<(Address, u64)>,
    total_vote_weight: u128,
    interval: u64,
    policy: ProposerPolicy,
    scaling: RoundScaling,
    async_verify: bool,
}

impl View for Params {
    type V = ParamsView;

    closed spec fn view(&self) -> ParamsView {
        ParamsView {
            address: self.address@,
            authorities: nodes_view(self.authority_list@),
            interval: self.interval,
            policy: self.policy,
            scaling: self.scaling,
            async_verify: self.async_verify,
        }
    }
}

impl Params {
    /// The weights kept beside the authority list are those of the list.
    pub closed spec fn wf(&self) -> bool {
        &&& self.propose_weights@ == propose_weights(self@.authorities)
        &&& weights_view(self.vote_weights@) == vote_weight_entries(self@.authorities)
        &&& self.total_vote_weight == total_vote_weight(self@)
    }

    /// The parameters of a node that knows no authorities yet.
    pub fn new(address: Address, config: Config) -> (params: Params)
        ensures
            params.wf(),
            params@ == (ParamsView {
                address: address@,
                authorities: Seq::<NodeView>::empty(),
                interval: config.interval,
                policy: config.policy,
                scaling: config.scaling,
                async_verify: config.async_verify,
            }),
    {
        let params = Params {
            address,
            authority_list: Vec::new(),
            propose_weights: Vec::new(),
            vote_weights: Vec::new(),
            total_vote_weight: 0,
            interval: config.interval,
            policy: config.policy,
            scaling: config.scaling,
            async_verify: config.async_verify,
        };
        proof {
            assert(params@.authorities =~= Seq::<NodeView>::empty());
            assert(propose_weights(params@.authorities) =~= Seq::<u64>::empty());
            assert(weights_view(params.vote_weights@) =~= Seq::<(Seq<u8>, u64)>::empty());
        }
        params
    }

    /// The address of the node.
    pub fn address(&self) -> (address: &Address)
        ensures
            address@ == self@.address,
    {
        &self.address
    }

    /// Whether proposals wait for the host's answer on their value.
    pub fn async_verify(&self) -> (enabled: bool)
        ensures
            enabled == self@.async_verify,
    {
        self.async_verify
    }

    /// Whether an authority list is known.
    pub fn authority_known(&self) -> (known: bool)
        ensures
            known == (self@.authorities.len() > 0),
    {
        self.authority_list.len() > 0
    }

    /// The authority list in use.
    pub fn authority_list(&self) -> (nodes: Vec<Node>)
        ensures
            nodes_view(nodes@) == self@.authorities,
    {
        clone_nodes(&self.authority_list)
    }

    /// Applies a status: its authority list is the one in use from now on,
    /// and its interval too where it gives one.
    pub fn install(&mut self, status: &Status)
        ensures
            final(self).wf(),
            final(self)@ == installed(old(self)@, status@),
    {
        let entries = status.get_vote_weight_map();
        let mut total: u128 = 0;
        let mut i: usize = 0;
        let ghost view = weights_view(entries@);
        assert(view.take(0) =~= Seq::<(Seq<u8>, u64)>::empty());
        while i < entries.len()
            invariant
                i <= entries.len(),
                view == weights_view(entries@),
                total == entries_total(view.take(i as int)),
            decreases entries.len() - i,
        {
            proof {
                assert(view.take(i as int + 1).drop_last() =~= view.take(i as int));
                assert(view.take(i as int + 1).last() == view[i as int]);
                lemma_entries_total_bound(view.take(i as int));
                assert(i * u64::MAX + u64::MAX <= u128::MAX) by (nonlinear_arith)
                    requires
                        i <= usize::MAX,
                ;
            }
            total = total + entries[i].1 as u128;
            i += 1;
        }
        assert(view.take(i as int) =~= view);
        self.propose_weights = status.get_propose_weight_list();
        self.vote_weights = entries;
        self.total_vote_weight = total;
        self.authority_list = clone_nodes(&status.authority_list);
        match status.interval {
            Some(interval) => {
                self.interval = interval;
            },
            None => {},
        }
    }

    /// The weight of the votes of `addr`; 0 where it is no authority.
    pub fn vote_weight(&self, addr: &Address) -> (weight: u64)
        requires
            self.wf(),
        ensures
            weight == vote_weight(self@, addr@),
    {
        let mut i: usize = 0;
        let ghost view = weights_view(self.vote_weights@);
        assert(view.take(0) =~= Seq::<(Seq<u8>, u64)>::empty());
        while i < self.vote_weights.len()
            invariant
                self.wf(),
                i <= self.vote_weights.len(),
                view == weights_view(self.vote_weights@),
                !has_entry(view.take(i as int), addr@),
                weight_in(view.take(i as int), addr@) == 0,
            decreases self.vote_weights.len() - i,
        {
            proof {
                let next = view.take(i as int + 1);
                assert(next.drop_last() =~= view.take(i as int));
                assert(next.last() == view[i as int]);
                if has_entry(next, addr@) {
                    let k = choose|k: int| 0 <= k < next.len() && (#[trigger] next[k]).0 == addr@;
                    if k < i {
                        assert(view.take(i as int)[k] == next[k]);
                        assert(false);
                    }
                    assert(next[i as int].0 == addr@);
                }
                if view[i as int].0 == addr@ {
                    assert(next[i as int].0 == addr@);
                    assert(has_entry(next, addr@));
                }
            }
            if self.vote_weights[i].0.same(addr) {
                proof {
                    let next = view.take(i as int + 1);
                    assert(next.drop_last() =~= view.take(i as int));
                    assert(view[i as int] == (
                        self.vote_weights@[i as int].0@,
                        self.vote_weights@[i as int].1,
                    ));
                    assert(next.last() == view[i as int]);
                    assert(weight_in(next, addr@) == next.last().1);
                    lemma_weight_in_prefix(view, i as int + 1, addr@);
                }
                return self.vote_weights[i].1;
            }
            i += 1;
        }
        assert(view.take(i as int) =~= view);
        0
    }

    /// The weight of the votes of all authorities together.
    pub fn total_vote_weight(&self) -> (total: u128)
        requires
            self.wf(),
        ensures
            total == total_vote_weight(self@),
    {
        self.total_vote_weight
    }

    /// The index in the authority list of the proposer of a round.
    pub fn proposer(&self, height: u64, round: u64) -> (index: Option<usize>)
        requires
            self.wf(),
        ensures
            match index {
                Some(i) => proposer_index(self@, height, round) == Some(i as int) && i
                    < self@.authorities.len(),
                None => proposer_index(self@, height, round) is None,
            },
    {
        let seed = match height.checked_add(round) {
            Some(seed) => seed,
            None => {
                return None;
            },
        };
        let weights = self.propose_weights.as_slice();
        match checked_total(weights) {
            Some(sum) => {
                if sum == 0 {
                    None
                } else {
                    match self.policy {
                        ProposerPolicy::Weighted => Some(get_index(seed, weights)),
                        ProposerPolicy::Random => Some(get_index_rand(seed, weights)),
                    }
                }
            },
            None => None,
        }
    }

    /// Whether `addr` is the address of the proposer of a round.
    pub fn is_proposer(&self, height: u64, round: u64, addr: &Address) -> (yes: bool)
        requires
            self.wf(),
        ensures
            yes == is_proposer(self@, height, round, addr@),
    {
        match self.proposer(height, round) {
            Some(i) => self.authority_list[i].address.same(addr),
            None => false,
        }
    }

    /// The timeout of a step in a round, in milliseconds.
    pub fn timeout(&self, round: u64) -> (millis: u64)
        ensures
            millis == timeout(self@, round),
    {
        match self.scaling {
            RoundScaling::Doubling { cap } => {
                let times: u64 = if round < cap as u64 {
                    round
                } else {
                    cap as u64
                };
                let mut millis = self.interval;
                let mut k: u64 = 0;
                while k < times
                    invariant
                        k <= times,
                        millis == doubled(self.interval, k as nat),
                    decreases times - k,
                {
                    millis = if millis > u64::MAX / 2 {
                        u64::MAX
                    } else {
                        millis * 2
                    };
                    k += 1;
                }
                millis
            },
            RoundScaling::Additive { increment } => {
                assert(round * increment <= u64::MAX * u64::MAX) by (nonlinear_arith)
                    requires
                        round <= u64::MAX,
                        increment <= u64::MAX,
                ;
                let grown: u128 = self.interval as u128 + (round as u128) * (increment as u128);
                if grown > u64::MAX as u128 {
                    u64::MAX
                } else {
                    grown as u64
                }
            },
        }
    }

    /// Whether a proposal that names a lock round proves it, as
    /// `proves_lock` says.
    pub fn proves_lock(&self, proposal: &Proposal) -> (proved: bool)
        requires
            self.wf(),
        ensures
            proved == proves_lock(self@, proposal@),
    {
        let lock_round = match proposal.lock_round {
            Some(lock_round) => lock_round,
            None => {
                return false;
            },
        };
        if lock_round >= proposal.round {
            return false;
        }
        let ghost votes = proposal@.lock_votes;
        let mut weight: u128 = 0;
        let mut i: usize = 0;
        assert(votes.take(0) =~= Seq::<VoteView>::empty());
        while i < proposal.lock_votes.len()
            invariant
                self.wf(),
                i <= proposal.lock_votes.len(),
                votes == proposal@.lock_votes,
                votes.len() == proposal.lock_votes@.len(),
                proposal.lock_round == Some(lock_round),
                weight == votes_weight(self@, votes.take(i as int)),
                forall|k: int|
                    0 <= k < i ==> supports(self@, proposal@, lock_round, #[trigger] votes[k]),
                forall|a: int, b: int|
                    #![trigger votes[a], votes[b]]
                    0 <= a < b < i ==> votes[a].voter != votes[b].voter,
            decreases proposal.lock_votes.len() - i,
        {
            let vote = &proposal.lock_votes[i];
            assert(votes[i as int] == vote@);
            let counted = self.vote_weight(&vote.voter);
            let fits = vote.vote_type == VoteType::Prevote && vote.height == proposal.height
                && vote.round == lock_round && vote.proposal.same(&proposal.content) && counted > 0;
            if !fits {
                assert(!supports(self@, proposal@, lock_round, votes[i as int]));
                return false;
            }
            let mut k: usize = 0;
            while k < i
                invariant
                    k <= i,
                    i < proposal.lock_votes.len(),
                    votes == proposal@.lock_votes,
                    votes.len() == proposal.lock_votes@.len(),
                    forall|a: int| 0 <= a < k ==> (#[trigger] votes[a]).voter != votes[i as int].voter,
                decreases i - k,
            {
                assert(votes[k as int] == proposal.lock_votes@[k as int]@);
                assert(votes[i as int] == proposal.lock_votes@[i as int]@);
                if proposal.lock_votes[k].voter.same(&proposal.lock_votes[i].voter) {
                    assert(votes[k as int].voter == votes[i as int].voter);
                    assert(!distinct_voters(votes));
                    return false;
                }
                k += 1;
            }
            proof {
                assert(votes.take(i as int + 1).drop_last() =~= votes.take(i as int));
                assert(votes.take(i as int + 1).last() == votes[i as int]);
                lemma_votes_weight_bound(self@, votes.take(i as int));
                assert(i * u64::MAX + u64::MAX <= u128::MAX) by (nonlinear_arith)
                    requires
                        i <= usize::MAX,
                ;
            }
            weight = weight + counted as u128;
            i += 1;
        }
        assert(votes.take(i as int) =~= votes);
        reaches_quorum(weight, self.total_vote_weight)
    }
}

} // verus!
