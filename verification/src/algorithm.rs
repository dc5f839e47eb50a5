use crate::machine::{
    cast_vote, check_precommits, check_prevotes, commit, enter_height, enter_precommit,
    enter_prevote, feed_for, feed_index, feeds_from, initial, on_feed, on_input, on_proposal,
    on_start, on_status, on_timeout, on_verify_resp, on_vote, own_proposal, prevote_choice,
    proposal_for, start_round, step, takes_proposal, timer_action, try_propose, usable_proposal,
    verdict_for, with_feed, ActionView, BftView, EventView,
};
use crate::always::{inv, lemma_step_inv};
use crate::params::{
    Config, Params, ParamsView, ProposerPolicy, RoundScaling, DEFAULT_DOUBLING_CAP,
    DEFAULT_INTERVAL,
};
use crate::step::Step;
use crate::store::{first_index, lemma_first_index_prefix};
use crate::timer::{TimeoutInfo, TimerRequest};
use crate::types::{
    clone_votes, votes_view, Address, Commit, CommitView, CoreInput, CoreOutput, CoreOutputView,
    Feed, FeedView, LockStatus, LockView, NodeView, Proposal, ProposalView, Status, Target,
    VerifyResp, VerifyRespView, Vote, VoteType, VoteView,
};
use crate::voteset::{InsertOutcome, VoteCollection};
use vstd::prelude::*;

verus! {

/// The height at which a node starts.
pub const INIT_HEIGHT: u64 = 0;

/// The round at which a height starts.
pub const INIT_ROUND: u64 = 0;

/// What a node asks of its surroundings.
#[derive(Debug, PartialEq, Eq)]
pub enum Action {
    /// Hand a message to the host.
    Send(CoreOutput),
    /// Wake the node later.
    SetTimer(TimerRequest),
}

impl View for Action {
    type V = ActionView;

    open spec fn view(&self) -> ActionView {
        match self {
            Action::Send(msg) => ActionView::Send(msg@),
            Action::SetTimer(request) => ActionView::SetTimer(*request),
        }
    }
}

/// The views of a sequence of actions, in order.
pub open spec fn actions_view(actions: Seq<Action>) -> Seq<ActionView> {
    actions.map_values(|a: Action| a@)
}

/// The views of a sequence of feeds, in order.
pub open spec fn feeds_view(feeds: Seq<Feed>) -> Seq<FeedView> {
    feeds.map_values(|f: Feed| f@)
}

/// The views of a sequence of proposals, in order.
pub open spec fn proposals_view(proposals: Seq<Proposal>) -> Seq<ProposalView> {
    proposals.map_values(|p: Proposal| p@)
}

/// The views of a sequence of answers of the host, in order.
pub open spec fn verified_view(verified: Seq<VerifyResp>) -> Seq<VerifyRespView> {
    verified.map_values(|r: VerifyResp| r@)
}

/// The view of a lock, where there is one.
pub open spec fn lock_view(lock: Option<LockStatus>) -> Option<LockView> {
    match lock {
        Some(held) => Some(held@),
        None => None,
    }
}

/// The view of a decision, where there is one.
pub open spec fn commit_view(kept: Option<Commit>) -> Option<CommitView> {
    match kept {
        Some(commit) => Some(commit@),
        None => None,
    }
}

/// The place of the feed for `height`, if there is one.
fn find_feed(feeds: &Vec<Feed>, height: u64) -> (index: Option<usize>)
    ensures
        match index {
            Some(k) => feed_index(feeds_view(feeds@), height) == Some(k as int) && k < feeds@.len(),
            None => feed_index(feeds_view(feeds@), height) is None,
        },
{
    let ghost view = feeds_view(feeds@);
    let mut k: usize = 0;
    assert(view.take(0) =~= Seq::<FeedView>::empty());
    while k < feeds.len()
        invariant
            k <= feeds.len(),
            view == feeds_view(feeds@),
            first_index(view.take(k as int), feed_for(height)) is None,
        decreases feeds.len() - k,
    {
        proof {
            assert(view.take(k as int + 1).drop_last() =~= view.take(k as int));
            assert(view.take(k as int + 1).last() == feeds@[k as int]@);
        }
        if feeds[k].height == height {
            proof {
                lemma_first_index_prefix(view, k as int + 1, feed_for(height));
            }
            return Some(k);
        }
        k += 1;
    }
    assert(view.take(k as int) =~= view);
    None
}

/// The place of the proposal for `round`, if there is one.
fn find_proposal(proposals: &Vec<Proposal>, round: u64) -> (index: Option<usize>)
    ensures
        match index {
            Some(k) => first_index(proposals_view(proposals@), proposal_for(round)) == Some(
                k as int,
            ) && k < proposals@.len(),
            None => first_index(proposals_view(proposals@), proposal_for(round)) is None,
        },
{
    let ghost view = proposals_view(proposals@);
    let mut k: usize = 0;
    assert(view.take(0) =~= Seq::<ProposalView>::empty());
    while k < proposals.len()
        invariant
            k <= proposals.len(),
            view == proposals_view(proposals@),
            first_index(view.take(k as int), proposal_for(round)) is None,
        decreases proposals.len() - k,
    {
        proof {
            assert(view.take(k as int + 1).drop_last() =~= view.take(k as int));
            assert(view.take(k as int + 1).last() == proposals@[k as int]@);
        }
        if proposals[k].round == round {
            proof {
                lemma_first_index_prefix(view, k as int + 1, proposal_for(round));
            }
            return Some(k);
        }
        k += 1;
    }
    assert(view.take(k as int) =~= view);
    None
}

/// The place of the host's answer on `content`, if there is one.
fn find_verdict(verified: &Vec<VerifyResp>, content: &Target) -> (index: Option<usize>)
    ensures
        match index {
            Some(k) => first_index(verified_view(verified@), verdict_for(content@)) == Some(
                k as int,
            ) && k < verified@.len(),
            None => first_index(verified_view(verified@), verdict_for(content@)) is None,
        },
{
    let ghost view = verified_view(verified@);
    let mut k: usize = 0;
    assert(view.take(0) =~= Seq::<VerifyRespView>::empty());
    while k < verified.len()
        invariant
            k <= verified.len(),
            view == verified_view(verified@),
            first_index(view.take(k as int), verdict_for(content@)) is None,
        decreases verified.len() - k,
    {
        proof {
            assert(view.take(k as int + 1).drop_last() =~= view.take(k as int));
            assert(view.take(k as int + 1).last() == verified@[k as int]@);
        }
        if verified[k].proposal.same(content) {
            proof {
                lemma_first_index_prefix(view, k as int + 1, verdict_for(content@));
            }
            return Some(k);
        }
        k += 1;
    }
    assert(view.take(k as int) =~= view);
    None
}

/// The feeds for `height` and the heights after it, in order.
fn keep_feeds_from(feeds: &Vec<Feed>, height: u64) -> (kept: Vec<Feed>)
    ensures
        feeds_view(kept@) == feeds_from(feeds_view(feeds@), height),
{
    let ghost view = feeds_view(feeds@);
    let mut kept: Vec<Feed> = Vec::new();
    let mut i: usize = 0;
    assert(view.take(0) =~= Seq::<FeedView>::empty());
    assert(feeds_view(kept@) =~= Seq::<FeedView>::empty());
    while i < feeds.len()
        invariant
            i <= feeds.len(),
            view == feeds_view(feeds@),
            feeds_view(kept@) == feeds_from(view.take(i as int), height),
        decreases feeds.len() - i,
    {
        proof {
            assert(view.take(i as int + 1).drop_last() =~= view.take(i as int));
            assert(view.take(i as int + 1).last() == feeds@[i as int]@);
        }
        if feeds[i].height >= height {
            let ghost before = feeds_view(kept@);
            kept.push(feeds[i].clone());
            assert(feeds_view(kept@) =~= before.push(feeds@[i as int]@));
        }
        i += 1;
    }
    assert(view.take(i as int) =~= view);
    kept
}

/// Stores a feed: in the place of the one for its height where there is
/// one, else behind the others.
fn store_feed(feeds: &mut Vec<Feed>, feed: Feed)
    ensures
        feeds_view(final(feeds)@) == with_feed(feeds_view(old(feeds)@), feed@),
{
    let ghost before = feeds_view(feeds@);
    match find_feed(feeds, feed.height) {
        Some(k) => {
            feeds.set(k, feed);
            assert(feeds_view(feeds@) =~= before.update(k as int, feed@));
        },
        None => {
            feeds.push(feed);
            assert(feeds_view(feeds@) =~= before.push(feed@));
        },
    }
}

/// The consensus state machine of one node.
pub struct Bft {
    height: u64,
    round: u64,
    step: Step,
    running: bool,
    lock: Option<LockStatus>,
    feeds: Vec<Feed>,
    proposals: Vec<Proposal>,
    verified: Vec<VerifyResp>,
    votes: VoteCollection,
    commit_proof: Option<Commit>,
    params: Params,
}

impl View for Bft {
    type V = BftView;

    closed spec fn view(&self) -> BftView {
        BftView {
            height: self.height,
            round: self.round,
            step: self.step,
            running: self.running,
            lock: lock_view(self.lock),
            feeds: feeds_view(self.feeds@),
            proposals: proposals_view(self.proposals@),
            verified: verified_view(self.verified@),
            votes: self.votes@,
            commit_proof: commit_view(self.commit_proof),
            params: self.params@,
        }
    }
}

impl Bft {
    /// The parts of the node are well formed.
    pub closed spec fn parts_wf(&self) -> bool {
        &&& self.params.wf()
        &&& self.votes.wf()
    }

    /// The node is well formed: its parts are, and the invariant holds of
    /// its state.
    pub open spec fn wf(&self) -> bool {
        &&& self.parts_wf()
        &&& inv(self@)
    }

    /// A node with the address `address` that has seen nothing, set up as
    /// `config` says.
    pub fn with_config(address: Address, config: Config) -> (bft: Bft)
        ensures
            bft.wf(),
            bft@ == initial(
                ParamsView {
                    address: address@,
                    authorities: Seq::<NodeView>::empty(),
                    interval: config.interval,
                    policy: config.policy,
                    scaling: config.scaling,
                    async_verify: config.async_verify,
                },
            ),
    {
        let bft = Bft {
            height: INIT_HEIGHT,
            round: INIT_ROUND,
            step: Step::Propose,
            running: false,
            lock: None,
            feeds: Vec::new(),
            proposals: Vec::new(),
            verified: Vec::new(),
            votes: VoteCollection::new(),
            commit_proof: None,
            params: Params::new(address, config),
        };
        proof {
            assert(feeds_view(bft.feeds@) =~= Seq::<FeedView>::empty());
            assert(proposals_view(bft.proposals@) =~= Seq::<ProposalView>::empty());
            assert(verified_view(bft.verified@) =~= Seq::<VerifyRespView>::empty());
        }
        bft
    }

    /// A node with the address `address` that has seen nothing, set up in
    /// the usual way.
    pub fn new(address: Address) -> (bft: Bft)
        ensures
            bft.wf(),
            bft@ == initial(
                ParamsView {
                    address: address@,
                    authorities: Seq::<NodeView>::empty(),
                    interval: DEFAULT_INTERVAL,
                    policy: ProposerPolicy::Weighted,
                    scaling: RoundScaling::Doubling { cap: DEFAULT_DOUBLING_CAP },
                    async_verify: false,
                },
            ),
    {
        Bft::with_config(address, Config::default())
    }

    /// The height that the node works on.
    pub fn height(&self) -> (height: u64)
        ensures
            height == self@.height,
    {
        self.height
    }

    /// The round that the node is in.
    pub fn round(&self) -> (round: u64)
        ensures
            round == self@.round,
    {
        self.round
    }

    /// The step that the node is in.
    pub fn step(&self) -> (step: Step)
        ensures
            step == self@.step,
    {
        self.step
    }

    /// Whether the node takes part.
    pub fn is_running(&self) -> (running: bool)
        ensures
            running == self@.running,
    {
        self.running
    }

    /// The value that the node is locked on, with the round and the votes
    /// of the lock, where it is locked.
    pub fn lock(&self) -> (lock: Option<LockStatus>)
        ensures
            lock_view(lock) == self@.lock,
    {
        match &self.lock {
            Some(held) => Some(held.clone()),
            None => None,
        }
    }

    /// The decision of the height before, while the node keeps it.
    pub fn commit_proof(&self) -> (kept: Option<Commit>)
        ensures
            commit_view(kept) == self@.commit_proof,
    {
        match &self.commit_proof {
            Some(commit) => Some(commit.clone()),
            None => None,
        }
    }
}

/// The view of a proposal that is lent, where there is one.
pub open spec fn lent_view(proposal: Option<&Proposal>) -> Option<ProposalView> {
    match proposal {
        Some(p) => Some(p@),
        None => None,
    }
}

/// Adds an action behind those asked so far.
fn emit(out: &mut Vec<Action>, action: Action)
    ensures
        actions_view(final(out)@) == actions_view(old(out)@) + seq![action@],
{
    let ghost before = actions_view(out@);
    out.push(action);
    assert(actions_view(out@) =~= before + seq![action@]);
}

/// The value to prevote and the lock to hold from then on, as
/// `prevote_choice` says.
fn choose_prevote(lock: &Option<LockStatus>, proposal: Option<&Proposal>) -> (choice: (
    Target,
    Option<LockStatus>,
))
    ensures
        choice.0@ == prevote_choice(lock_view(*lock), lent_view(proposal)).0,
        lock_view(choice.1) == prevote_choice(lock_view(*lock), lent_view(proposal)).1,
{
    match lock {
        Some(held) => match proposal {
            Some(p) => {
                if p.content.same(&held.proposal) {
                    (held.proposal.clone(), Some(held.clone()))
                } else {
                    match p.lock_round {
                        Some(lock_round) => {
                            if lock_round >= held.round {
                                (
                                    p.content.clone(),
                                    Some(
                                        LockStatus {
                                            proposal: p.content.clone(),
                                            round: lock_round,
                                            votes: clone_votes(&p.lock_votes),
                                        },
                                    ),
                                )
                            } else {
                                (Target::new(Vec::new()), Some(held.clone()))
                            }
                        },
                        None => (Target::new(Vec::new()), Some(held.clone())),
                    }
                }
            },
            None => (Target::new(Vec::new()), Some(held.clone())),
        },
        None => match proposal {
            Some(p) => (p.content.clone(), None),
            None => (Target::new(Vec::new()), None),
        },
    }
}

impl Bft {
    /// The request for the timeout of `step` in the node's round.
    fn timer_request(&self, step: Step) -> (request: TimerRequest)
        ensures
            ActionView::SetTimer(request) == timer_action(self@, step),
    {
        TimerRequest {
            delay: self.params.timeout(self.round),
            height: self.height,
            round: self.round,
            step,
        }
    }

    /// Casts the node's vote for `value`, as `cast_vote` says.
    fn cast_vote(&mut self, vote_type: VoteType, value: Target, out: &mut Vec<Action>)
        requires
            old(self).parts_wf(),
        ensures
            final(self).parts_wf(),
            final(self)@ == cast_vote(old(self)@, vote_type, value@).state,
            actions_view(final(out)@) == actions_view(old(out)@) + cast_vote(
                old(self)@,
                vote_type,
                value@,
            ).actions,
    {
        let vote = Vote {
            vote_type,
            height: self.height,
            round: self.round,
            proposal: value,
            voter: self.params.address().clone(),
        };
        let weight = self.params.vote_weight(&vote.voter);
        if weight > 0 {
            let counted = vote.clone();
            let _ = self.votes.insert(counted, weight);
        }
        emit(out, Action::Send(CoreOutput::Vote(vote)));
    }

    /// The place of the proposal of the round that may be voted for, as
    /// `usable_proposal` says.
    fn usable_index(&self) -> (index: Option<usize>)
        ensures
            match index {
                Some(k) => k < self.proposals@.len() && usable_proposal(self@) == Some(
                    self.proposals@[k as int]@,
                ),
                None => usable_proposal(self@) is None,
            },
    {
        match find_proposal(&self.proposals, self.round) {
            Some(k) => {
                if !self.params.async_verify() {
                    Some(k)
                } else {
                    match find_verdict(&self.verified, &self.proposals[k].content) {
                        Some(v) => {
                            if self.verified[v].is_pass {
                                Some(k)
                            } else {
                                None
                            }
                        },
                        None => None,
                    }
                }
            },
            None => None,
        }
    }

    /// Goes from the propose step to the prevote step, as `enter_prevote`
    /// says.
    fn enter_prevote(&mut self, out: &mut Vec<Action>)
        requires
            old(self).parts_wf(),
            old(self)@.height < u64::MAX,
        ensures
            final(self).parts_wf(),
            final(self)@ == enter_prevote(old(self)@).state,
            actions_view(final(out)@) == actions_view(old(out)@) + enter_prevote(
                old(self)@,
            ).actions,
    {
        let ghost start = actions_view(out@);
        let (value, lock) = match self.usable_index() {
            Some(k) => choose_prevote(&self.lock, Some(&self.proposals[k])),
            None => choose_prevote(&self.lock, None),
        };
        self.step = Step::Prevote;
        self.lock = lock;
        let ghost mid = self@;
        self.cast_vote(VoteType::Prevote, value, out);
        let ghost cast = cast_vote(mid, VoteType::Prevote, value@);
        self.check_prevotes(out);
        proof {
            assert((start + cast.actions) + check_prevotes(cast.state).actions =~= start + (
            cast.actions + check_prevotes(cast.state).actions));
        }
    }

    /// Looks at the prevotes of the round, as `check_prevotes` says.
    fn check_prevotes(&mut self, out: &mut Vec<Action>)
        requires
            old(self).parts_wf(),
            old(self)@.height < u64::MAX,
        ensures
            final(self).parts_wf(),
            final(self)@ == check_prevotes(old(self)@).state,
            actions_view(final(out)@) == actions_view(old(out)@) + check_prevotes(
                old(self)@,
            ).actions,
    {
        let total = self.params.total_vote_weight();
        match self.votes.quorum_value(self.round, VoteType::Prevote, total) {
            Some(value) => {
                self.enter_precommit(value, out);
            },
            None => {
                if self.step == Step::Prevote && self.votes.any_quorum_total(
                    self.round,
                    VoteType::Prevote,
                    total,
                ) {
                    let request = self.timer_request(Step::PrevoteWait);
                    self.step = Step::PrevoteWait;
                    emit(out, Action::SetTimer(request));
                } else {
                    assert(actions_view(out@) =~= actions_view(out@) + Seq::<ActionView>::empty());
                }
            },
        }
    }

    /// Goes to the precommit step after two thirds of the prevotes of the
    /// round were for `value`, as `enter_precommit` says.
    fn enter_precommit(&mut self, value: Target, out: &mut Vec<Action>)
        requires
            old(self).parts_wf(),
            old(self)@.height < u64::MAX,
        ensures
            final(self).parts_wf(),
            final(self)@ == enter_precommit(old(self)@, value@).state,
            actions_view(final(out)@) == actions_view(old(out)@) + enter_precommit(
                old(self)@,
                value@,
            ).actions,
    {
        let ghost start = actions_view(out@);
        if !value.is_nil() {
            let votes = self.votes.votes_for(self.round, VoteType::Prevote, &value);
            self.lock = Some(LockStatus { proposal: value.clone(), round: self.round, votes });
        }
        self.step = Step::Precommit;
        let ghost mid = self@;
        let ghost value_view = value@;
        self.cast_vote(VoteType::Precommit, value, out);
        let ghost cast = cast_vote(mid, VoteType::Precommit, value_view);
        self.check_precommits(out);
        proof {
            assert((start + cast.actions) + check_precommits(cast.state).actions =~= start + (
            cast.actions + check_precommits(cast.state).actions));
        }
    }

    /// Looks at the precommits of the round, as `check_precommits` says.
    fn check_precommits(&mut self, out: &mut Vec<Action>)
        requires
            old(self).parts_wf(),
            old(self)@.height < u64::MAX,
        ensures
            final(self).parts_wf(),
            final(self)@ == check_precommits(old(self)@).state,
            actions_view(final(out)@) == actions_view(old(out)@) + check_precommits(
                old(self)@,
            ).actions,
    {
        let total = self.params.total_vote_weight();
        let decided = match self.votes.quorum_value(self.round, VoteType::Precommit, total) {
            Some(value) => {
                if value.is_nil() {
                    None
                } else {
                    Some(value)
                }
            },
            None => None,
        };
        match decided {
            Some(value) => {
                self.commit(value, out);
            },
            None => {
                if self.step == Step::Precommit && self.votes.any_quorum_total(
                    self.round,
                    VoteType::Precommit,
                    total,
                ) {
                    let request = self.timer_request(Step::PrecommitWait);
                    self.step = Step::PrecommitWait;
                    emit(out, Action::SetTimer(request));
                } else {
                    assert(actions_view(out@) =~= actions_view(out@) + Seq::<ActionView>::empty());
                }
            },
        }
    }

    /// Commits `value`, as `commit` says.
    fn commit(&mut self, value: Target, out: &mut Vec<Action>)
        requires
            old(self).parts_wf(),
            old(self)@.height < u64::MAX,
        ensures
            final(self).parts_wf(),
            final(self)@ == commit(old(self)@, value@).state,
            actions_view(final(out)@) == actions_view(old(out)@) + commit(old(self)@, value@).actions,
    {
        let ghost start = actions_view(out@);
        let lock_votes = self.votes.votes_for(self.round, VoteType::Precommit, &value);
        let decision = Commit {
            height: self.height,
            round: self.round,
            proposal: value,
            lock_votes,
            address: self.params.address().clone(),
        };
        emit(out, Action::Send(CoreOutput::Commit(decision.clone())));
        let ghost moved = enter_height(self@, (self.height + 1) as u64);
        self.enter_height(self.height + 1, out);
        self.commit_proof = Some(decision);
        proof {
            assert((start + seq![ActionView::Send(CoreOutputView::Commit(decision@))])
                + moved.actions =~= start + (seq![
                ActionView::Send(CoreOutputView::Commit(decision@)),
            ] + moved.actions));
        }
    }

    /// Moves to `height`, as `enter_height` says.
    fn enter_height(&mut self, height: u64, out: &mut Vec<Action>)
        requires
            old(self).parts_wf(),
        ensures
            final(self).parts_wf(),
            final(self)@ == enter_height(old(self)@, height).state,
            actions_view(final(out)@) == actions_view(old(out)@) + enter_height(
                old(self)@,
                height,
            ).actions,
    {
        let ghost start = actions_view(out@);
        self.height = height;
        self.round = INIT_ROUND;
        self.step = Step::Propose;
        self.lock = None;
        self.feeds = keep_feeds_from(&self.feeds, height);
        self.proposals = Vec::new();
        self.verified = Vec::new();
        self.votes.clear();
        self.commit_proof = None;
        proof {
            assert(proposals_view(self.proposals@) =~= Seq::<ProposalView>::empty());
            assert(verified_view(self.verified@) =~= Seq::<VerifyRespView>::empty());
        }
        emit(out, Action::Send(CoreOutput::GetProposalRequest(height)));
        if self.running && self.params.authority_known() {
            let request = self.timer_request(Step::Propose);
            emit(out, Action::SetTimer(request));
            proof {
                assert((start + seq![
                    ActionView::Send(CoreOutputView::GetProposalRequest(height)),
                ]) + seq![ActionView::SetTimer(request)] =~= start + seq![
                    ActionView::Send(CoreOutputView::GetProposalRequest(height)),
                    ActionView::SetTimer(request),
                ]);
            }
        }
    }

    /// What the node would propose in its round, as `own_proposal` says.
    fn own_proposal(&self) -> (proposal: Option<Proposal>)
        ensures
            (match proposal {
                Some(p) => Some(p@),
                None => None,
            }) == own_proposal(self@),
    {
        match &self.lock {
            Some(held) => Some(
                Proposal {
                    height: self.height,
                    round: self.round,
                    content: held.proposal.clone(),
                    lock_round: Some(held.round),
                    lock_votes: clone_votes(&held.votes),
                    proposer: self.params.address().clone(),
                },
            ),
            None => match find_feed(&self.feeds, self.height) {
                Some(k) => {
                    let lock_votes: Vec<Vote> = Vec::new();
                    assert(votes_view(lock_votes@) =~= Seq::<VoteView>::empty());
                    Some(
                        Proposal {
                            height: self.height,
                            round: self.round,
                            content: self.feeds[k].proposal.clone(),
                            lock_round: None,
                            lock_votes,
                            proposer: self.params.address().clone(),
                        },
                    )
                },
                None => None,
            },
        }
    }

    /// Proposes where the node is to and has something to propose, as
    /// `try_propose` says.
    fn try_propose(&mut self, out: &mut Vec<Action>)
        requires
            old(self).parts_wf(),
            old(self)@.height < u64::MAX,
        ensures
            final(self).parts_wf(),
            final(self)@ == try_propose(old(self)@).state,
            actions_view(final(out)@) == actions_view(old(out)@) + try_propose(old(self)@).actions,
    {
        let ghost start = actions_view(out@);
        let may = self.step == Step::Propose && self.params.is_proposer(
            self.height,
            self.round,
            self.params.address(),
        ) && find_proposal(&self.proposals, self.round).is_none();
        if !may {
            assert(start =~= start + Seq::<ActionView>::empty());
            return ;
        }
        match self.own_proposal() {
            Some(proposal) => {
                let ghost p = proposal@;
                if self.params.async_verify() && find_verdict(
                    &self.verified,
                    &proposal.content,
                ).is_none() {
                    let ghost before = verified_view(self.verified@);
                    let resp = VerifyResp { is_pass: true, proposal: proposal.content.clone() };
                    self.verified.push(resp);
                    assert(verified_view(self.verified@) =~= before.push(
                        VerifyRespView { is_pass: true, proposal: p.content },
                    ));
                }
                emit(out, Action::Send(CoreOutput::Proposal(proposal.clone())));
                let ghost before = proposals_view(self.proposals@);
                self.proposals.push(proposal);
                assert(proposals_view(self.proposals@) =~= before.push(p));
                let ghost mid = self@;
                self.enter_prevote(out);
                proof {
                    assert((start + seq![ActionView::Send(CoreOutputView::Proposal(p))])
                        + enter_prevote(mid).actions =~= start + (seq![
                        ActionView::Send(CoreOutputView::Proposal(p)),
                    ] + enter_prevote(mid).actions));
                }
            },
            None => {
                assert(start =~= start + Seq::<ActionView>::empty());
            },
        }
    }

    /// Starts the node's round, as `start_round` says.
    fn start_round(&mut self, out: &mut Vec<Action>)
        requires
            old(self).parts_wf(),
            old(self)@.height < u64::MAX,
        ensures
            final(self).parts_wf(),
            final(self)@ == start_round(old(self)@).state,
            actions_view(final(out)@) == actions_view(old(out)@) + start_round(old(self)@).actions,
    {
        let ghost start = actions_view(out@);
        self.step = Step::Propose;
        let request = self.timer_request(Step::Propose);
        emit(out, Action::SetTimer(request));
        let ghost mid = self@;
        self.try_propose(out);
        proof {
            assert((start + seq![ActionView::SetTimer(request)]) + try_propose(mid).actions
                =~= start + (seq![ActionView::SetTimer(request)] + try_propose(mid).actions));
        }
    }
}

impl Bft {
    /// The host starts the node, as `on_start` says.
    fn handle_start(&mut self, out: &mut Vec<Action>)
        requires
            old(self).parts_wf(),
            old(self)@.height < u64::MAX,
        ensures
            final(self).parts_wf(),
            final(self)@ == on_start(old(self)@).state,
            actions_view(final(out)@) == actions_view(old(out)@) + on_start(old(self)@).actions,
    {
        self.running = true;
        if self.params.authority_known() && self.step == Step::Propose {
            self.start_round(out);
        } else {
            assert(actions_view(out@) =~= actions_view(out@) + Seq::<ActionView>::empty());
        }
    }

    /// Applies a status, as `on_status` says.
    fn handle_status(&mut self, status: &Status, out: &mut Vec<Action>)
        requires
            old(self).parts_wf(),
            status.height < u64::MAX,
        ensures
            final(self).parts_wf(),
            final(self)@ == on_status(old(self)@, status@).state,
            actions_view(final(out)@) == actions_view(old(out)@) + on_status(
                old(self)@,
                status@,
            ).actions,
    {
        if status.height < self.height {
            assert(actions_view(out@) =~= actions_view(out@) + Seq::<ActionView>::empty());
        } else {
            self.params.install(status);
            self.enter_height(status.height + 1, out);
        }
    }

    /// Takes a feed, as `on_feed` says.
    fn handle_feed(&mut self, feed: Feed, out: &mut Vec<Action>)
        requires
            old(self).parts_wf(),
            old(self)@.height < u64::MAX,
        ensures
            final(self).parts_wf(),
            final(self)@ == on_feed(old(self)@, feed@).state,
            actions_view(final(out)@) == actions_view(old(out)@) + on_feed(old(self)@, feed@).actions,
    {
        if !self.running || feed.proposal.is_nil() || feed.height < self.height {
            assert(actions_view(out@) =~= actions_view(out@) + Seq::<ActionView>::empty());
        } else {
            let height = feed.height;
            store_feed(&mut self.feeds, feed);
            if height == self.height {
                self.try_propose(out);
            } else {
                assert(actions_view(out@) =~= actions_view(out@) + Seq::<ActionView>::empty());
            }
        }
    }

    /// Whether a proposal is taken, as `takes_proposal` says.
    fn takes_proposal(&self, proposal: &Proposal) -> (taken: bool)
        requires
            self.parts_wf(),
        ensures
            taken == takes_proposal(self@, proposal@),
    {
        if !self.running || proposal.height != self.height || proposal.content.is_nil() {
            return false;
        }
        if !self.params.is_proposer(proposal.height, proposal.round, &proposal.proposer) {
            return false;
        }
        if find_proposal(&self.proposals, proposal.round).is_some() {
            return false;
        }
        match proposal.lock_round {
            Some(_) => self.params.proves_lock(proposal),
            None => true,
        }
    }

    /// Takes a proposal, as `on_proposal` says.
    fn handle_proposal(&mut self, proposal: Proposal, out: &mut Vec<Action>)
        requires
            old(self).parts_wf(),
            old(self)@.height < u64::MAX,
        ensures
            final(self).parts_wf(),
            final(self)@ == on_proposal(old(self)@, proposal@).state,
            actions_view(final(out)@) == actions_view(old(out)@) + on_proposal(
                old(self)@,
                proposal@,
            ).actions,
    {
        if !self.takes_proposal(&proposal) {
            assert(actions_view(out@) =~= actions_view(out@) + Seq::<ActionView>::empty());
            return ;
        }
        let goes_on = proposal.round == self.round && self.step == Step::Propose && (
        !self.params.async_verify() || find_verdict(&self.verified, &proposal.content).is_some());
        let ghost before = proposals_view(self.proposals@);
        let ghost p = proposal@;
        self.proposals.push(proposal);
        assert(proposals_view(self.proposals@) =~= before.push(p));
        if goes_on {
            self.enter_prevote(out);
        } else {
            assert(actions_view(out@) =~= actions_view(out@) + Seq::<ActionView>::empty());
        }
    }

    /// Takes the host's answer on a value, as `on_verify_resp` says.
    fn handle_verify_resp(&mut self, resp: VerifyResp, out: &mut Vec<Action>)
        requires
            old(self).parts_wf(),
            old(self)@.height < u64::MAX,
        ensures
            final(self).parts_wf(),
            final(self)@ == on_verify_resp(old(self)@, resp@).state,
            actions_view(final(out)@) == actions_view(old(out)@) + on_verify_resp(
                old(self)@,
                resp@,
            ).actions,
    {
        if !self.running || !self.params.async_verify() || find_verdict(
            &self.verified,
            &resp.proposal,
        ).is_some() {
            assert(actions_view(out@) =~= actions_view(out@) + Seq::<ActionView>::empty());
            return ;
        }
        let goes_on = self.step == Step::Propose && match find_proposal(
            &self.proposals,
            self.round,
        ) {
            Some(k) => self.proposals[k].content.same(&resp.proposal),
            None => false,
        };
        let ghost before = verified_view(self.verified@);
        let ghost r = resp@;
        self.verified.push(resp);
        assert(verified_view(self.verified@) =~= before.push(r));
        if goes_on {
            self.enter_prevote(out);
        } else {
            assert(actions_view(out@) =~= actions_view(out@) + Seq::<ActionView>::empty());
        }
    }

    /// Takes a vote, as `on_vote` says.
    fn handle_vote(&mut self, vote: Vote, out: &mut Vec<Action>)
        requires
            old(self).parts_wf(),
            old(self)@.height < u64::MAX,
        ensures
            final(self).parts_wf(),
            final(self)@ == on_vote(old(self)@, vote@).state,
            actions_view(final(out)@) == actions_view(old(out)@) + on_vote(old(self)@, vote@).actions,
    {
        let ghost start = actions_view(out@);
        if !self.running || vote.height != self.height {
            assert(start =~= start + Seq::<ActionView>::empty());
            return ;
        }
        let weight = self.params.vote_weight(&vote.voter);
        if weight == 0 {
            assert(start =~= start + Seq::<ActionView>::empty());
            return ;
        }
        let round = vote.round;
        let vote_type = vote.vote_type;
        match self.votes.insert(vote, weight) {
            InsertOutcome::Added => {
                if round != self.round {
                    assert(start =~= start + Seq::<ActionView>::empty());
                } else if vote_type == VoteType::Prevote && (self.step == Step::Prevote
                    || self.step == Step::PrevoteWait) {
                    self.check_prevotes(out);
                } else if vote_type == VoteType::Precommit && (self.step == Step::Precommit
                    || self.step == Step::PrecommitWait) {
                    self.check_precommits(out);
                } else {
                    assert(start =~= start + Seq::<ActionView>::empty());
                }
            },
            _ => {
                assert(start =~= start + Seq::<ActionView>::empty());
            },
        }
    }

    /// What the node does on a message from the host: the state it is left
    /// in and what it asks of its surroundings are those that `on_input`
    /// gives, which is what `step` gives for the message as an event.
    pub fn process(&mut self, msg: CoreInput) -> (actions: Vec<Action>)
        requires
            old(self).wf(),
            old(self)@.height < u64::MAX,
            msg matches CoreInput::Status(status) ==> status.height < u64::MAX,
        ensures
            final(self).wf(),
            final(self)@ == on_input(old(self)@, msg@).state,
            actions_view(actions@) == on_input(old(self)@, msg@).actions,
            on_input(old(self)@, msg@) == step(old(self)@, EventView::Input(msg@)),
    {
        let ghost event = EventView::Input(msg@);
        let actions = self.dispatch(msg);
        proof {
            reveal(step);
            lemma_step_inv(old(self)@, event);
        }
        actions
    }

    /// Hands a message from the host to the part that takes it.
    fn dispatch(&mut self, msg: CoreInput) -> (actions: Vec<Action>)
        requires
            old(self).parts_wf(),
            old(self)@.height < u64::MAX,
            msg matches CoreInput::Status(status) ==> status.height < u64::MAX,
        ensures
            final(self).parts_wf(),
            final(self)@ == on_input(old(self)@, msg@).state,
            actions_view(actions@) == on_input(old(self)@, msg@).actions,
    {
        let mut out: Vec<Action> = Vec::new();
        assert(actions_view(out@) =~= Seq::<ActionView>::empty());
        let ghost wanted = on_input(self@, msg@).actions;
        match msg {
            CoreInput::Proposal(proposal) => {
                self.handle_proposal(proposal, &mut out);
            },
            CoreInput::Vote(vote) => {
                self.handle_vote(vote, &mut out);
            },
            CoreInput::Feed(feed) => {
                self.handle_feed(feed, &mut out);
            },
            CoreInput::VerifyResp(resp) => {
                self.handle_verify_resp(resp, &mut out);
            },
            CoreInput::Status(status) => {
                self.handle_status(&status, &mut out);
            },
            CoreInput::Commit(_) => {
                assert(wanted =~= Seq::<ActionView>::empty());
            },
            CoreInput::Pause => {
                self.running = false;
                assert(wanted =~= Seq::<ActionView>::empty());
            },
            CoreInput::Start => {
                self.handle_start(&mut out);
            },
        }
        assert(Seq::<ActionView>::empty() + wanted =~= wanted);
        out
    }

    /// What the node does on a timeout that is due: the state it is left
    /// in and what it asks of its surroundings are those that `on_timeout`
    /// gives, which is what `step` gives for the timeout as an event.
    pub fn timeout_process(&mut self, info: TimeoutInfo) -> (actions: Vec<Action>)
        requires
            old(self).wf(),
            old(self)@.height < u64::MAX,
            old(self)@.round < u64::MAX,
        ensures
            final(self).wf(),
            final(self)@ == on_timeout(old(self)@, info).state,
            actions_view(actions@) == on_timeout(old(self)@, info).actions,
            on_timeout(old(self)@, info) == step(old(self)@, EventView::Timeout(info)),
    {
        let actions = self.dispatch_timeout(info);
        proof {
            reveal(step);
            lemma_step_inv(old(self)@, EventView::Timeout(info));
        }
        actions
    }

    /// Hands a timeout that is due to the part that takes it.
    fn dispatch_timeout(&mut self, info: TimeoutInfo) -> (actions: Vec<Action>)
        requires
            old(self).parts_wf(),
            old(self)@.height < u64::MAX,
            old(self)@.round < u64::MAX,
        ensures
            final(self).parts_wf(),
            final(self)@ == on_timeout(old(self)@, info).state,
            actions_view(actions@) == on_timeout(old(self)@, info).actions,
    {
        let mut out: Vec<Action> = Vec::new();
        assert(actions_view(out@) =~= Seq::<ActionView>::empty());
        let ghost wanted = on_timeout(self@, info).actions;
        if !self.running || info.height != self.height || info.round != self.round || info.step
            != self.step {
            assert(wanted =~= Seq::<ActionView>::empty());
        } else if self.step == Step::Propose {
            self.enter_prevote(&mut out);
        } else {
            self.round = self.round + 1;
            self.start_round(&mut out);
        }
        assert(Seq::<ActionView>::empty() + wanted =~= wanted);
        out
    }
}

} // verus!
