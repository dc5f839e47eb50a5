use vstd::prelude::*;

verus! {

/// Compares two byte strings.
pub fn bytes_eq(a: &Vec<u8>, b: &Vec<u8>) -> (same: bool)
    ensures
        same == (a@ == b@),
{
    if a.len() != b.len() {
        return false;
    }
    let mut i: usize = 0;
    while i < a.len()
        invariant
            a.len() == b.len(),
            i <= a.len(),
            forall|k: int| 0 <= k < i ==> a@[k] == b@[k],
        decreases a.len() - i,
    {
        if a[i] != b[i] {
            return false;
        }
        i += 1;
    }
    assert(a@ =~= b@);
    true
}

/// The address of a node: an opaque byte string.
#[derive(Debug, PartialEq, Eq, Hash)]
pub struct Address(Vec<u8>);

impl View for Address {
    type V = Seq<u8>;

    closed spec fn view(&self) -> Seq<u8> {
        self.0@
    }
}

impl Clone for Address {
    fn clone(&self) -> (res: Self)
        ensures
            res@ == self@,
    {
        Address(self.0.clone())
    }
}

impl Address {
    /// Wraps the bytes of an address.
    pub fn new(addr: Vec<u8>) -> (res: Self)
        ensures
            res@ == addr@,
    {
        Address(addr)
    }

    /// Hands the bytes of the address back.
    pub fn into_vec(self) -> (res: Vec<u8>)
        ensures
            res@ == self@,
    {
        self.0
    }

    /// Whether two addresses are the same byte string.
    pub fn same(&self, other: &Address) -> (same: bool)
        ensures
            same == (self@ == other@),
    {
        bytes_eq(&self.0, &other.0)
    }
}

/// A proposed value: an opaque byte string. The empty string is nil, the
/// vote for no value.
#[derive(Debug, PartialEq, Eq, Hash)]
pub struct Target(Vec<u8>);

impl View for Target {
    type V = Seq<u8>;

    closed spec fn view(&self) -> Seq<u8> {
        self.0@
    }
}

impl Clone for Target {
    fn clone(&self) -> (res: Self)
        ensures
            res@ == self@,
    {
        Target(self.0.clone())
    }
}

impl Target {
    /// Wraps the bytes of a proposed value.
    pub fn new(ctx: Vec<u8>) -> (res: Self)
        ensures
            res@ == ctx@,
    {
        Target(ctx)
    }

    /// Whether this is nil, the empty byte string.
    pub fn is_nil(&self) -> (nil: bool)
        ensures
            nil == (self@.len() == 0),
    {
        self.0.len() == 0
    }

    /// Hands the bytes of the value back.
    pub fn into_vec(self) -> (res: Vec<u8>)
        ensures
            res@ == self@,
    {
        self.0
    }

    /// Whether two values are the same byte string.
    pub fn same(&self, other: &Target) -> (same: bool)
        ensures
            same == (self@ == other@),
    {
        bytes_eq(&self.0, &other.0)
    }
}

/// The two kinds of vote.
#[derive(Clone, Copy, Debug, PartialEq, Eq, Structural, Hash)]
pub enum VoteType {
    /// A vote of the prevote step.
    Prevote,
    /// A vote of the precommit step.
    Precommit,
}

/// What a vote says, with its byte strings as sequences.
pub struct VoteView {
    pub vote_type: VoteType,
    pub height: u64,
    pub round: u64,
    pub proposal: Seq<u8>,
    pub voter: Seq<u8>,
}

/// A vote of one node for one value (or nil) at a height and round.
#[derive(Debug, PartialEq, Eq, Hash)]
pub struct Vote {
    /// Prevote or precommit.
    pub vote_type: VoteType,
    /// The height of the vote.
    pub height: u64,
    /// The round of the vote.
    pub round: u64,
    /// The value voted for; nil where it is empty.
    pub proposal: Target,
    /// The address of the voter.
    pub voter: Address,
}

impl View for Vote {
    type V = VoteView;

    open spec fn view(&self) -> VoteView {
        VoteView {
            vote_type: self.vote_type,
            height: self.height,
            round: self.round,
            proposal: self.proposal@,
            voter: self.voter@,
        }
    }
}

impl Clone for Vote {
    fn clone(&self) -> (res: Self)
        ensures
            res@ == self@,
    {
        Vote {
            vote_type: self.vote_type,
            height: self.height,
            round: self.round,
            proposal: self.proposal.clone(),
            voter: self.voter.clone(),
        }
    }
}

impl Vote {
    /// Whether two votes agree in all five fields.
    pub fn same(&self, other: &Vote) -> (same: bool)
        ensures
            same == (self@ == other@),
    {
        self.vote_type == other.vote_type && self.height == other.height && self.round
            == other.round && self.proposal.same(&other.proposal) && self.voter.same(&other.voter)
    }
}

/// The views of a sequence of votes, in order.
pub open spec fn votes_view(votes: Seq<Vote>) -> Seq<VoteView> {
    votes.map_values(|v: Vote| v@)
}

/// Copies a list of votes.
pub fn clone_votes(votes: &Vec<Vote>) -> (res: Vec<Vote>)
    ensures
        votes_view(res@) == votes_view(votes@),
{
    let mut res: Vec<Vote> = Vec::new();
    let mut i: usize = 0;
    while i < votes.len()
        invariant
            i <= votes.len(),
            res@.len() == i,
            forall|k: int| 0 <= k < i ==> res@[k]@ == votes@[k]@,
        decreases votes.len() - i,
    {
        res.push(votes[i].clone());
        i += 1;
    }
    assert(votes_view(res@) =~= votes_view(votes@));
    res
}

/// What a proposal says, with its byte strings as sequences.
pub struct ProposalView {
    pub height: u64,
    pub round: u64,
    pub content: Seq<u8>,
    pub lock_round: Option<u64>,
    pub lock_votes: Seq<VoteView>,
    pub proposer: Seq<u8>,
}

/// A value proposed for a height and round.
#[derive(Debug, PartialEq, Eq)]
pub struct Proposal {
    /// The height of the proposal.
    pub height: u64,
    /// The round of the proposal.
    pub round: u64,
    /// The proposed value.
    pub content: Target,
    /// The round at which the proposer saw the value locked, if it did.
    pub lock_round: Option<u64>,
    /// The prevotes that justify `lock_round`; empty where there is none.
    pub lock_votes: Vec<Vote>,
    /// The address of the proposer.
    pub proposer: Address,
}

impl View for Proposal {
    type V = ProposalView;

    open spec fn view(&self) -> ProposalView {
        ProposalView {
            height: self.height,
            round: self.round,
            content: self.content@,
            lock_round: self.lock_round,
            lock_votes: votes_view(self.lock_votes@),
            proposer: self.proposer@,
        }
    }
}

impl Clone for Proposal {
    fn clone(&self) -> (res: Self)
        ensures
            res@ == self@,
    {
        Proposal {
            height: self.height,
            round: self.round,
            content: self.content.clone(),
            lock_round: self.lock_round,
            lock_votes: clone_votes(&self.lock_votes),
            proposer: self.proposer.clone(),
        }
    }
}

/// What a lock says, with its byte strings as sequences.
pub struct LockView {
    pub proposal: Seq<u8>,
    pub round: u64,
    pub votes: Seq<VoteView>,
}

/// The value a node is locked on, with the round of the lock and the
/// prevotes that justify it.
#[derive(Debug)]
pub struct LockStatus {
    /// The locked value.
    pub proposal: Target,
    /// The round of the lock.
    pub round: u64,
    /// The prevotes that justify the lock.
    pub votes: Vec<Vote>,
}

impl View for LockStatus {
    type V = LockView;

    open spec fn view(&self) -> LockView {
        LockView { proposal: self.proposal@, round: self.round, votes: votes_view(self.votes@) }
    }
}

impl Clone for LockStatus {
    fn clone(&self) -> (res: Self)
        ensures
            res@ == self@,
    {
        LockStatus {
            proposal: self.proposal.clone(),
            round: self.round,
            votes: clone_votes(&self.votes),
        }
    }
}

/// What a feed says, with its byte string as a sequence.
pub struct FeedView {
    pub height: u64,
    pub proposal: Seq<u8>,
}

/// The value that the host offers for a height.
#[derive(Debug, PartialEq, Eq)]
pub struct Feed {
    /// The height the value is offered for.
    pub height: u64,
    /// The offered value.
    pub proposal: Target,
}

impl View for Feed {
    type V = FeedView;

    open spec fn view(&self) -> FeedView {
        FeedView { height: self.height, proposal: self.proposal@ }
    }
}

impl Clone for Feed {
    fn clone(&self) -> (res: Self)
        ensures
            res@ == self@,
    {
        Feed { height: self.height, proposal: self.proposal.clone() }
    }
}

/// What a commit says, with its byte strings as sequences.
pub struct CommitView {
    pub height: u64,
    pub round: u64,
    pub proposal: Seq<u8>,
    pub lock_votes: Seq<VoteView>,
    pub address: Seq<u8>,
}

/// The value decided at a height.
#[derive(Debug, PartialEq, Eq)]
pub struct Commit {
    /// The height decided.
    pub height: u64,
    /// The round in which it was decided.
    pub round: u64,
    /// The decided value.
    pub proposal: Target,
    /// The precommits that prove the decision.
    pub lock_votes: Vec<Vote>,
    /// The address of the node that reports the decision.
    pub address: Address,
}

impl View for Commit {
    type V = CommitView;

    open spec fn view(&self) -> CommitView {
        CommitView {
            height: self.height,
            round: self.round,
            proposal: self.proposal@,
            lock_votes: votes_view(self.lock_votes@),
            address: self.address@,
        }
    }
}

impl Clone for Commit {
    fn clone(&self) -> (res: Self)
        ensures
            res@ == self@,
    {
        Commit {
            height: self.height,
            round: self.round,
            proposal: self.proposal.clone(),
            lock_votes: clone_votes(&self.lock_votes),
            address: self.address.clone(),
        }
    }
}

/// What a node entry says, with its address as a sequence.
pub struct NodeView {
    pub address: Seq<u8>,
    pub propose_weight: u64,
    pub vote_weight: u64,
}

/// One node of an authority list, with its two weights.
#[derive(Debug, PartialEq, Eq)]
pub struct Node {
    /// The address of the node.
    pub address: Address,
    /// The weight of the node when a proposer is chosen.
    pub propose_weight: u64,
    /// The weight of the node's votes.
    pub vote_weight: u64,
}

impl View for Node {
    type V = NodeView;

    open spec fn view(&self) -> NodeView {
        NodeView {
            address: self.address@,
            propose_weight: self.propose_weight,
            vote_weight: self.vote_weight,
        }
    }
}

impl Clone for Node {
    fn clone(&self) -> (res: Self)
        ensures
            res@ == self@,
    {
        Node {
            address: self.address.clone(),
            propose_weight: self.propose_weight,
            vote_weight: self.vote_weight,
        }
    }
}

impl Node {
    /// A node with both weights 1.
    pub fn new(address: Address) -> (res: Self)
        ensures
            res@ == (NodeView { address: address@, propose_weight: 1, vote_weight: 1 }),
    {
        Node { address, propose_weight: 1, vote_weight: 1 }
    }

    /// Sets the weight of the node when a proposer is chosen.
    pub fn set_propose_weight(&mut self, weight: u64)
        ensures
            final(self)@ == (NodeView { propose_weight: weight, ..old(self)@ }),
    {
        self.propose_weight = weight;
    }

    /// Sets the weight of the node's votes.
    pub fn set_vote_weight(&mut self, weight: u64)
        ensures
            final(self)@ == (NodeView { vote_weight: weight, ..old(self)@ }),
    {
        self.vote_weight = weight;
    }
}

/// The views of a sequence of nodes, in order.
pub open spec fn nodes_view(nodes: Seq<Node>) -> Seq<NodeView> {
    nodes.map_values(|n: Node| n@)
}

/// Copies a list of nodes.
pub fn clone_nodes(nodes: &Vec<Node>) -> (res: Vec<Node>)
    ensures
        nodes_view(res@) == nodes_view(nodes@),
{
    let mut res: Vec<Node> = Vec::new();
    let mut i: usize = 0;
    while i < nodes.len()
        invariant
            i <= nodes.len(),
            res@.len() == i,
            forall|k: int| 0 <= k < i ==> res@[k]@ == nodes@[k]@,
        decreases nodes.len() - i,
    {
        res.push(nodes[i].clone());
        i += 1;
    }
    assert(nodes_view(res@) =~= nodes_view(nodes@));
    res
}

/// What a status says, with its nodes as views.
pub struct StatusView {
    pub height: u64,
    pub interval: Option<u64>,
    pub authority_list: Seq<NodeView>,
}

/// The state of the chain after a height: the authorities of the next one.
#[derive(Debug, PartialEq, Eq)]
pub struct Status {
    /// The height that has been reached.
    pub height: u64,
    /// The time interval of the next height in milliseconds; `None` keeps
    /// the one in use.
    pub interval: Option<u64>,
    /// The authorities of the next height.
    pub authority_list: Vec<Node>,
}

impl View for Status {
    type V = StatusView;

    open spec fn view(&self) -> StatusView {
        StatusView {
            height: self.height,
            interval: self.interval,
            authority_list: nodes_view(self.authority_list@),
        }
    }
}

impl Clone for Status {
    fn clone(&self) -> (res: Self)
        ensures
            res@ == self@,
    {
        Status {
            height: self.height,
            interval: self.interval,
            authority_list: clone_nodes(&self.authority_list),
        }
    }
}

/// What a verification answer says, with its byte string as a sequence.
pub struct VerifyRespView {
    pub is_pass: bool,
    pub proposal: Seq<u8>,
}

/// The host's answer on whether a proposed value is valid.
#[derive(Debug, PartialEq, Eq)]
pub struct VerifyResp {
    /// Whether the value passed.
    pub is_pass: bool,
    /// The value that was verified.
    pub proposal: Target,
}

impl View for VerifyResp {
    type V = VerifyRespView;

    open spec fn view(&self) -> VerifyRespView {
        VerifyRespView { is_pass: self.is_pass, proposal: self.proposal@ }
    }
}

impl Clone for VerifyResp {
    fn clone(&self) -> (res: Self)
        ensures
            res@ == self@,
    {
        VerifyResp { is_pass: self.is_pass, proposal: self.proposal.clone() }
    }
}

/// What an input message says.
pub enum CoreInputView {
    Proposal(ProposalView),
    Vote(VoteView),
    Feed(FeedView),
    VerifyResp(VerifyRespView),
    Status(StatusView),
    Commit(CommitView),
    Pause,
    Start,
}

/// A message from the host to the consensus core.
#[derive(Debug, PartialEq, Eq)]
pub enum CoreInput {
    /// A proposal received from the network.
    Proposal(Proposal),
    /// A vote received from the network.
    Vote(Vote),
    /// The value that the host offers for a height.
    Feed(Feed),
    /// The host's answer on a proposed value.
    VerifyResp(VerifyResp),
    /// The state of the chain after a height.
    Status(Status),
    /// The host's acknowledgement of a commit.
    Commit(Commit),
    /// Stop taking part.
    Pause,
    /// Start taking part.
    Start,
}

impl View for CoreInput {
    type V = CoreInputView;

    open spec fn view(&self) -> CoreInputView {
        match self {
            CoreInput::Proposal(p) => CoreInputView::Proposal(p@),
            CoreInput::Vote(v) => CoreInputView::Vote(v@),
            CoreInput::Feed(f) => CoreInputView::Feed(f@),
            CoreInput::VerifyResp(r) => CoreInputView::VerifyResp(r@),
            CoreInput::Status(s) => CoreInputView::Status(s@),
            CoreInput::Commit(c) => CoreInputView::Commit(c@),
            CoreInput::Pause => CoreInputView::Pause,
            CoreInput::Start => CoreInputView::Start,
        }
    }
}

impl Clone for CoreInput {
    fn clone(&self) -> (res: Self)
        ensures
            res@ == self@,
    {
        match self {
            CoreInput::Proposal(p) => CoreInput::Proposal(p.clone()),
            CoreInput::Vote(v) => CoreInput::Vote(v.clone()),
            CoreInput::Feed(f) => CoreInput::Feed(f.clone()),
            CoreInput::VerifyResp(r) => CoreInput::VerifyResp(r.clone()),
            CoreInput::Status(s) => CoreInput::Status(s.clone()),
            CoreInput::Commit(c) => CoreInput::Commit(c.clone()),
            CoreInput::Pause => CoreInput::Pause,
            CoreInput::Start => CoreInput::Start,
        }
    }
}

/// What an output message says.
pub enum CoreOutputView {
    Proposal(ProposalView),
    Vote(VoteView),
    Commit(CommitView),
    GetProposalRequest(u64),
}

/// A message from the consensus core to the host.
#[derive(Debug, PartialEq, Eq)]
pub enum CoreOutput {
    /// A proposal to broadcast.
    Proposal(Proposal),
    /// A vote to broadcast.
    Vote(Vote),
    /// The value decided at a height.
    Commit(Commit),
    /// A request for the value that the host offers for a height.
    GetProposalRequest(u64),
}

impl View for CoreOutput {
    type V = CoreOutputView;

    open spec fn view(&self) -> CoreOutputView {
        match self {
            CoreOutput::Proposal(p) => CoreOutputView::Proposal(p@),
            CoreOutput::Vote(v) => CoreOutputView::Vote(v@),
            CoreOutput::Commit(c) => CoreOutputView::Commit(c@),
            CoreOutput::GetProposalRequest(h) => CoreOutputView::GetProposalRequest(*h),
        }
    }
}

impl Clone for CoreOutput {
    fn clone(&self) -> (res: Self)
        ensures
            res@ == self@,
    {
        match self {
            CoreOutput::Proposal(p) => CoreOutput::Proposal(p.clone()),
            CoreOutput::Vote(v) => CoreOutput::Vote(v.clone()),
            CoreOutput::Commit(c) => CoreOutput::Commit(c.clone()),
            CoreOutput::GetProposalRequest(h) => CoreOutput::GetProposalRequest(*h),
        }
    }
}

/// The addresses of an authority list, in order.
pub open spec fn node_addresses(nodes: Seq<NodeView>) -> Seq<Seq<u8>> {
    nodes.map_values(|n: NodeView| n.address)
}

/// The propose weights of an authority list, in order.
pub open spec fn propose_weights(nodes: Seq<NodeView>) -> Seq<u64> {
    nodes.map_values(|n: NodeView| n.propose_weight)
}

/// Whether one of the first `n` nodes has the address `addr`.
pub open spec fn listed_before(nodes: Seq<NodeView>, n: int, addr: Seq<u8>) -> bool {
    exists|j: int| 0 <= j < n && j < nodes.len() && (#[trigger] nodes[j]).address == addr
}

/// Whether an association list has an entry for the address `addr`.
pub open spec fn has_entry(entries: Seq<(Seq<u8>, u64)>, addr: Seq<u8>) -> bool {
    exists|k: int| 0 <= k < entries.len() && (#[trigger] entries[k]).0 == addr
}

/// The vote weights of an authority list by address: each address once,
/// in the order of first occurrence, with the weight of that occurrence.
pub open spec fn vote_weight_entries(nodes: Seq<NodeView>) -> Seq<(Seq<u8>, u64)>
    decreases nodes.len(),
{
    if nodes.len() == 0 {
        Seq::empty()
    } else {
        let before = vote_weight_entries(nodes.drop_last());
        let last = nodes.last();
        if listed_before(nodes, nodes.len() - 1, last.address) {
            before
        } else {
            before.push((last.address, last.vote_weight))
        }
    }
}

/// The views of an association list from addresses to weights.
pub open spec fn weights_view(entries: Seq<(Address, u64)>) -> Seq<(Seq<u8>, u64)> {
    entries.map_values(|e: (Address, u64)| (e.0@, e.1))
}

/// The addresses of a sequence of addresses, in order.
pub open spec fn addresses_view(addresses: Seq<Address>) -> Seq<Seq<u8>> {
    addresses.map_values(|a: Address| a@)
}

impl Status {
    /// The addresses of the authority list, in order.
    pub fn get_address_list(&self) -> (res: Vec<Address>)
        ensures
            addresses_view(res@) == node_addresses(self@.authority_list),
    {
        let mut res: Vec<Address> = Vec::new();
        let mut i: usize = 0;
        while i < self.authority_list.len()
            invariant
                i <= self.authority_list.len(),
                res@.len() == i,
                forall|k: int| 0 <= k < i ==> res@[k]@ == self.authority_list@[k].address@,
            decreases self.authority_list.len() - i,
        {
            res.push(self.authority_list[i].address.clone());
            i += 1;
        }
        assert(addresses_view(res@) =~= node_addresses(self@.authority_list));
        res
    }

    /// The propose weights of the authority list, in order.
    pub fn get_propose_weight_list(&self) -> (res: Vec<u64>)
        ensures
            res@ == propose_weights(self@.authority_list),
    {
        let mut res: Vec<u64> = Vec::new();
        let mut i: usize = 0;
        while i < self.authority_list.len()
            invariant
                i <= self.authority_list.len(),
                res@.len() == i,
                forall|k: int| 0 <= k < i ==> res@[k] == self.authority_list@[k].propose_weight,
            decreases self.authority_list.len() - i,
        {
            res.push(self.authority_list[i].propose_weight);
            i += 1;
        }
        assert(res@ =~= propose_weights(self@.authority_list));
        res
    }

    /// The vote weight of each address of the authority list. An address
    /// that occurs more than once keeps the weight of its first entry.
    pub fn get_vote_weight_map(&self) -> (res: Vec<(Address, u64)>)
        ensures
            weights_view(res@) == vote_weight_entries(self@.authority_list),
    {
        let mut res: Vec<(Address, u64)> = Vec::new();
        let mut i: usize = 0;
        let ghost nodes = self@.authority_list;
        assert(nodes.take(0) =~= Seq::<NodeView>::empty());
        while i < self.authority_list.len()
            invariant
                i <= self.authority_list.len(),
                nodes == self@.authority_list,
                weights_view(res@) == vote_weight_entries(nodes.take(i as int)),
                forall|addr: Seq<u8>|
                    has_entry(weights_view(res@), addr) <==> listed_before(nodes, i as int, addr),
            decreases self.authority_list.len() - i,
        {
            let node = &self.authority_list[i];
            let mut seen = false;
            let mut k: usize = 0;
            while k < res.len()
                invariant
                    k <= res.len(),
                    seen == has_entry(weights_view(res@).take(k as int), node.address@),
                decreases res.len() - k,
            {
                let ghost before = weights_view(res@).take(k as int);
                let ghost after = weights_view(res@).take(k as int + 1);
                proof {
                    assert(after =~= before.push(weights_view(res@)[k as int]));
                    if has_entry(before, node.address@) {
                        let m = choose|m: int|
                            0 <= m < before.len() && (#[trigger] before[m]).0 == node.address@;
                        assert(after[m] == before[m]);
                    }
                    if has_entry(after, node.address@) && !has_entry(before, node.address@) {
                        let m = choose|m: int|
                            0 <= m < after.len() && (#[trigger] after[m]).0 == node.address@;
                        if m < k {
                            assert(before[m] == after[m]);
                        }
                        assert(m == k);
                    }
                    if res@[k as int].0@ == node.address@ {
                        assert(after[k as int].0 == node.address@);
                    }
                }
                if res[k].0.same(&node.address) {
                    seen = true;
                }
                k += 1;
            }
            proof {
                assert(weights_view(res@).take(k as int) =~= weights_view(res@));
                let prefix = nodes.take(i as int + 1);
                assert(prefix.drop_last() =~= nodes.take(i as int));
                assert(prefix.last() == nodes[i as int]);
                assert(nodes[i as int] == self.authority_list@[i as int]@);
                if listed_before(prefix, prefix.len() - 1, prefix.last().address) {
                    let j = choose|j: int|
                        0 <= j < prefix.len() - 1 && j < prefix.len() && (#[trigger] prefix[j]).address
                            == prefix.last().address;
                    assert(nodes[j] == prefix[j]);
                    assert(listed_before(nodes, i as int, node.address@));
                }
                if listed_before(nodes, i as int, node.address@) {
                    let j = choose|j: int|
                        0 <= j < i && j < nodes.len() && (#[trigger] nodes[j]).address
                            == node.address@;
                    assert(prefix[j] == nodes[j]);
                    assert(listed_before(prefix, prefix.len() - 1, prefix.last().address));
                }
            }
            let ghost before = weights_view(res@);
            if !seen {
                res.push((node.address.clone(), node.vote_weight));
                proof {
                    assert(weights_view(res@) =~= before.push((node.address@, node.vote_weight)));
                }
            }
            proof {
                let now = weights_view(res@);
                assert forall|addr: Seq<u8>| has_entry(now, addr) <==> listed_before(
                    nodes,
                    i as int + 1,
                    addr,
                ) by {
                    if has_entry(now, addr) {
                        let m = choose|m: int|
                            0 <= m < now.len() && (#[trigger] now[m]).0 == addr;
                        if m < before.len() {
                            assert(before[m] == now[m]);
                            assert(has_entry(before, addr));
                            assert(listed_before(nodes, i as int, addr));
                            let j = choose|j: int|
                                0 <= j < i && j < nodes.len() && (#[trigger] nodes[j]).address
                                    == addr;
                            assert(nodes[j].address == addr);
                            assert(listed_before(nodes, i as int + 1, addr));
                        } else {
                            assert(nodes[i as int].address == addr);
                            assert(listed_before(nodes, i as int + 1, addr));
                        }
                    }
                    if listed_before(nodes, i as int + 1, addr) {
                        let j = choose|j: int|
                            0 <= j < i + 1 && j < nodes.len() && (#[trigger] nodes[j]).address
                                == addr;
                        if j < i {
                            assert(listed_before(nodes, i as int, addr));
                            let m = choose|m: int|
                                0 <= m < before.len() && (#[trigger] before[m]).0 == addr;
                            assert(now[m] == before[m]);
                        } else {
                            if seen {
                                assert(has_entry(now, addr));
                            } else {
                                assert(now[before.len() as int].0 == addr);
                            }
                        }
                    }
                }
            }
            i += 1;
        }
        assert(nodes.take(i as int) =~= nodes);
        res
    }
}

} // verus!
