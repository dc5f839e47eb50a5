use crate::params::{
    distinct_voters, entries_total, total_vote_weight, vote_weight, votes_weight, weight_in,
    ParamsView,
};
use crate::types::{has_entry, listed_before, vote_weight_entries, NodeView, VoteView};
use crate::voteset::is_quorum;
use vstd::prelude::*;

verus! {

/// Whether no two entries are for one address.
pub open spec fn distinct_entries(entries: Seq<(Seq<u8>, u64)>) -> bool {
    forall|i: int, j: int|
        #![trigger entries[i], entries[j]]
        0 <= i < j < entries.len() ==> entries[i].0 != entries[j].0
}

/// How many of the votes are of `voter`.
pub open spec fn votes_of(votes: Seq<VoteView>, voter: Seq<u8>) -> int
    decreases votes.len(),
{
    if votes.len() == 0 {
        0
    } else {
        votes_of(votes.drop_last(), voter) + if votes.last().voter == voter {
            1int
        } else {
            0int
        }
    }
}

/// The sum of the weights that `entries` gives the voters of `votes`.
pub open spec fn weight_by(entries: Seq<(Seq<u8>, u64)>, votes: Seq<VoteView>) -> int
    decreases votes.len(),
{
    if votes.len() == 0 {
        0
    } else {
        weight_by(entries, votes.drop_last()) + weight_in(entries, votes.last().voter)
    }
}

/// Whether `voter` has a vote among `votes`.
pub open spec fn has_vote(votes: Seq<VoteView>, voter: Seq<u8>) -> bool {
    exists|i: int| 0 <= i < votes.len() && (#[trigger] votes[i]).voter == voter
}

/// The votes of `b` whose voters have a vote among `a`, in order.
pub open spec fn shared(a: Seq<VoteView>, b: Seq<VoteView>) -> Seq<VoteView>
    decreases b.len(),
{
    if b.len() == 0 {
        Seq::empty()
    } else if has_vote(a, b.last().voter) {
        shared(a, b.drop_last()).push(b.last())
    } else {
        shared(a, b.drop_last())
    }
}

/// The votes of `b` whose voters have no vote among `a`, in order.
pub open spec fn apart(a: Seq<VoteView>, b: Seq<VoteView>) -> Seq<VoteView>
    decreases b.len(),
{
    if b.len() == 0 {
        Seq::empty()
    } else if has_vote(a, b.last().voter) {
        apart(a, b.drop_last())
    } else {
        apart(a, b.drop_last()).push(b.last())
    }
}

/// An address has an entry among the vote weights of an authority list
/// exactly if a node of the list has it; and no two entries are for one
/// address.
pub proof fn lemma_entries_of_nodes(nodes: Seq<NodeView>, addr: Seq<u8>)
    ensures
        has_entry(vote_weight_entries(nodes), addr) <==> listed_before(
            nodes,
            nodes.len() as int,
            addr,
        ),
        distinct_entries(vote_weight_entries(nodes)),
    decreases nodes.len(),
{
    let entries = vote_weight_entries(nodes);
    if nodes.len() > 0 {
        let before = nodes.drop_last();
        let last = nodes.last();
        let eb = vote_weight_entries(before);
        lemma_entries_of_nodes(before, addr);
        lemma_entries_of_nodes(before, last.address);
        let dup = listed_before(nodes, nodes.len() - 1, last.address);
        if listed_before(before, before.len() as int, last.address) {
            let j = choose|j: int|
                0 <= j < before.len() && j < before.len() && (#[trigger] before[j]).address
                    == last.address;
            assert(nodes[j] == before[j]);
            assert(dup);
        }
        if dup {
            let j = choose|j: int|
                0 <= j < nodes.len() - 1 && j < nodes.len() && (#[trigger] nodes[j]).address
                    == last.address;
            assert(before[j] == nodes[j]);
            assert(listed_before(before, before.len() as int, last.address));
        }
        if !dup {
            assert(entries == eb.push((last.address, last.vote_weight)));
            assert forall|i: int, j: int|
                #![trigger entries[i], entries[j]]
                0 <= i < j < entries.len() implies entries[i].0 != entries[j].0 by {
                if j == eb.len() {
                    assert(entries[i] == eb[i]);
                    assert(has_entry(eb, eb[i].0));
                } else {
                    assert(entries[i] == eb[i] && entries[j] == eb[j]);
                }
            }
        }
        if has_entry(entries, addr) {
            let k = choose|k: int| 0 <= k < entries.len() && (#[trigger] entries[k]).0 == addr;
            if k < eb.len() {
                assert(eb[k] == entries[k]);
                assert(has_entry(eb, addr));
                let j = choose|j: int|
                    0 <= j < before.len() && j < before.len() && (#[trigger] before[j]).address
                        == addr;
                assert(nodes[j] == before[j]);
            } else {
                assert(nodes[nodes.len() - 1].address == addr);
            }
        }
        if listed_before(nodes, nodes.len() as int, addr) {
            let j = choose|j: int|
                0 <= j < nodes.len() && j < nodes.len() && (#[trigger] nodes[j]).address == addr;
            if j < before.len() {
                assert(before[j] == nodes[j]);
                assert(listed_before(before, before.len() as int, addr));
                let k = choose|k: int| 0 <= k < eb.len() && (#[trigger] eb[k]).0 == addr;
                assert(entries[k] == eb[k]);
            } else {
                if dup {
                    assert(has_entry(eb, addr));
                } else {
                    assert(entries[eb.len() as int].0 == addr);
                }
            }
        }
    }
}

/// An address without an entry has weight 0.
pub proof fn lemma_weight_in_none(entries: Seq<(Seq<u8>, u64)>, addr: Seq<u8>)
    requires
        !has_entry(entries, addr),
    ensures
        weight_in(entries, addr) == 0,
    decreases entries.len(),
{
    if entries.len() > 0 {
        assert(entries[entries.len() - 1].0 != addr);
        if has_entry(entries.drop_last(), addr) {
            let k = choose|k: int|
                0 <= k < entries.drop_last().len() && (#[trigger] entries.drop_last()[k]).0 == addr;
            assert(entries[k] == entries.drop_last()[k]);
        }
    }
}

/// With one more entry, for an address that had none, the votes weigh what
/// they weighed before and the weight of the entry for each vote of that
/// address.
pub proof fn lemma_weight_by_push(
    entries: Seq<(Seq<u8>, u64)>,
    entry: (Seq<u8>, u64),
    votes: Seq<VoteView>,
)
    requires
        !has_entry(entries, entry.0),
    ensures
        weight_by(entries.push(entry), votes) == weight_by(entries, votes) + votes_of(
            votes,
            entry.0,
        ) * entry.1,
    decreases votes.len(),
{
    if votes.len() > 0 {
        lemma_weight_by_push(entries, entry, votes.drop_last());
        let grown = entries.push(entry);
        let voter = votes.last().voter;
        assert(grown.drop_last() =~= entries);
        if voter == entry.0 {
            lemma_weight_in_none(entries, voter);
        } else if !has_entry(entries, voter) {
            lemma_weight_in_none(entries, voter);
        }
        assert((votes_of(votes.drop_last(), entry.0) + 1) * entry.1 == votes_of(
            votes.drop_last(),
            entry.0,
        ) * entry.1 + entry.1) by (nonlinear_arith);
    }
}

/// Among votes of different voters, at most one is of a given voter.
pub proof fn lemma_votes_of_distinct(votes: Seq<VoteView>, voter: Seq<u8>)
    requires
        distinct_voters(votes),
    ensures
        0 <= votes_of(votes, voter) <= 1,
        votes_of(votes, voter) == 1 <==> has_vote(votes, voter),
    decreases votes.len(),
{
    if votes.len() > 0 {
        let before = votes.drop_last();
        assert forall|i: int, j: int|
            #![trigger before[i], before[j]]
            0 <= i < j < before.len() implies before[i].voter != before[j].voter by {
            assert(before[i] == votes[i] && before[j] == votes[j]);
        }
        lemma_votes_of_distinct(before, voter);
        if has_vote(before, voter) {
            let i = choose|i: int| 0 <= i < before.len() && (#[trigger] before[i]).voter == voter;
            assert(votes[i] == before[i]);
            assert(votes[votes.len() - 1] == votes.last());
            assert(has_vote(votes, voter));
        }
        if votes.last().voter == voter {
            assert(votes[votes.len() - 1].voter == voter);
        }
        if has_vote(votes, voter) && votes.last().voter != voter {
            let i = choose|i: int| 0 <= i < votes.len() && (#[trigger] votes[i]).voter == voter;
            assert(before[i] == votes[i]);
        }
    }
}

/// Votes of different voters weigh no more than all entries together,
/// where no two entries are for one address.
pub proof fn lemma_weight_by_bound(entries: Seq<(Seq<u8>, u64)>, votes: Seq<VoteView>)
    requires
        distinct_entries(entries),
        distinct_voters(votes),
    ensures
        0 <= weight_by(entries, votes) <= entries_total(entries),
    decreases entries.len(),
{
    if entries.len() == 0 {
        assert(entries =~= Seq::<(Seq<u8>, u64)>::empty());
        lemma_weight_by_empty(votes);
    } else {
        let before = entries.drop_last();
        let last = entries.last();
        assert forall|i: int, j: int|
            #![trigger before[i], before[j]]
            0 <= i < j < before.len() implies before[i].0 != before[j].0 by {
            assert(before[i] == entries[i] && before[j] == entries[j]);
        }
        lemma_weight_by_bound(before, votes);
        if has_entry(before, last.0) {
            let k = choose|k: int| 0 <= k < before.len() && (#[trigger] before[k]).0 == last.0;
            assert(entries[k] == before[k]);
            assert(entries[entries.len() - 1] == last);
            assert(false);
        }
        assert(before.push(last) =~= entries);
        lemma_weight_by_push(before, last, votes);
        lemma_votes_of_distinct(votes, last.0);
        assert(votes_of(votes, last.0) * last.1 <= last.1) by (nonlinear_arith)
            requires
                0 <= votes_of(votes, last.0) <= 1,
                0 <= last.1,
        ;
        assert(0 <= votes_of(votes, last.0) * last.1) by (nonlinear_arith)
            requires
                0 <= votes_of(votes, last.0) <= 1,
                0 <= last.1,
        ;
    }
}

/// Without entries, votes weigh nothing.
pub proof fn lemma_weight_by_empty(votes: Seq<VoteView>)
    ensures
        weight_by(Seq::<(Seq<u8>, u64)>::empty(), votes) == 0,
    decreases votes.len(),
{
    if votes.len() > 0 {
        lemma_weight_by_empty(votes.drop_last());
    }
}

/// The weight of votes to a node is the weight that the entries of its
/// authority list give them.
pub proof fn lemma_votes_weight_by(p: ParamsView, votes: Seq<VoteView>)
    ensures
        votes_weight(p, votes) == weight_by(vote_weight_entries(p.authorities), votes),
    decreases votes.len(),
{
    if votes.len() > 0 {
        lemma_votes_weight_by(p, votes.drop_last());
    }
}

/// Votes of different voters weigh no more than all authorities together.
pub proof fn lemma_votes_weight_bound(p: ParamsView, votes: Seq<VoteView>)
    requires
        distinct_voters(votes),
    ensures
        0 <= votes_weight(p, votes) <= total_vote_weight(p),
{
    lemma_entries_of_nodes(p.authorities, Seq::empty());
    lemma_votes_weight_by(p, votes);
    lemma_weight_by_bound(vote_weight_entries(p.authorities), votes);
}

/// The votes of `b` fall into those whose voters have a vote among `a` and
/// those whose voters have none: the two weigh what `b` weighs, every vote
/// of either part is a vote of `b`, and each part is of different voters
/// where `b` is.
pub proof fn lemma_split(p: ParamsView, a: Seq<VoteView>, b: Seq<VoteView>)
    ensures
        votes_weight(p, b) == votes_weight(p, shared(a, b)) + votes_weight(p, apart(a, b)),
        forall|i: int|
            0 <= i < shared(a, b).len() ==> has_vote(a, (#[trigger] shared(a, b)[i]).voter)
                && b.contains(shared(a, b)[i]),
        forall|i: int|
            0 <= i < apart(a, b).len() ==> !has_vote(a, (#[trigger] apart(a, b)[i]).voter)
                && b.contains(apart(a, b)[i]),
        distinct_voters(b) ==> distinct_voters(shared(a, b)) && distinct_voters(apart(a, b)),
    decreases b.len(),
{
    if b.len() > 0 {
        let before = b.drop_last();
        let last = b.last();
        lemma_split(p, a, before);
        let sh = shared(a, b);
        let ap = apart(a, b);
        let shb = shared(a, before);
        let apb = apart(a, before);
        assert(b[b.len() - 1] == last);
        if has_vote(a, last.voter) {
            assert(sh.drop_last() =~= shb);
        } else {
            assert(ap.drop_last() =~= apb);
        }
        assert forall|i: int| 0 <= i < sh.len() implies has_vote(a, (#[trigger] sh[i]).voter)
            && b.contains(sh[i]) by {
            if i < shb.len() {
                assert(sh[i] == shb[i]);
                let k = choose|k: int| 0 <= k < before.len() && before[k] == shb[i];
                assert(b[k] == before[k]);
            }
        }
        assert forall|i: int| 0 <= i < ap.len() implies !has_vote(a, (#[trigger] ap[i]).voter)
            && b.contains(ap[i]) by {
            if i < apb.len() {
                assert(ap[i] == apb[i]);
                let k = choose|k: int| 0 <= k < before.len() && before[k] == apb[i];
                assert(b[k] == before[k]);
            }
        }
        if distinct_voters(b) {
            assert forall|i: int, j: int|
                #![trigger before[i], before[j]]
                0 <= i < j < before.len() implies before[i].voter != before[j].voter by {
                assert(before[i] == b[i] && before[j] == b[j]);
            }
            assert forall|i: int, j: int|
                #![trigger sh[i], sh[j]]
                0 <= i < j < sh.len() implies sh[i].voter != sh[j].voter by {
                if j < shb.len() {
                    assert(sh[i] == shb[i] && sh[j] == shb[j]);
                } else {
                    assert(sh[i] == shb[i]);
                    let k = choose|k: int| 0 <= k < before.len() && before[k] == shb[i];
                    assert(b[k] == before[k]);
                    assert(b[k].voter != b[b.len() - 1].voter);
                }
            }
            assert forall|i: int, j: int|
                #![trigger ap[i], ap[j]]
                0 <= i < j < ap.len() implies ap[i].voter != ap[j].voter by {
                if j < apb.len() {
                    assert(ap[i] == apb[i] && ap[j] == apb[j]);
                } else {
                    assert(ap[i] == apb[i]);
                    let k = choose|k: int| 0 <= k < before.len() && before[k] == apb[i];
                    assert(b[k] == before[k]);
                    assert(b[k].voter != b[b.len() - 1].voter);
                }
            }
        }
    }
}

/// Two runs of votes, one after the other, weigh what the two weigh
/// together.
pub proof fn lemma_votes_weight_concat(p: ParamsView, a: Seq<VoteView>, b: Seq<VoteView>)
    ensures
        votes_weight(p, a + b) == votes_weight(p, a) + votes_weight(p, b),
    decreases b.len(),
{
    if b.len() == 0 {
        assert(a + b =~= a);
    } else {
        assert((a + b).drop_last() =~= a + b.drop_last());
        lemma_votes_weight_concat(p, a, b.drop_last());
    }
}

/// Two sets of votes, each of different voters and each with two thirds of
/// the weight of all authorities or more, share voters with a third of
/// that weight or more.
pub proof fn lemma_quorums_intersect(p: ParamsView, a: Seq<VoteView>, b: Seq<VoteView>)
    requires
        distinct_voters(a),
        distinct_voters(b),
        is_quorum(votes_weight(p, a), total_vote_weight(p)),
        is_quorum(votes_weight(p, b), total_vote_weight(p)),
    ensures
        votes_weight(p, shared(a, b)) * 3 >= total_vote_weight(p),
        distinct_voters(shared(a, b)),
        forall|i: int|
            0 <= i < shared(a, b).len() ==> has_vote(a, (#[trigger] shared(a, b)[i]).voter)
                && b.contains(shared(a, b)[i]),
{
    lemma_split(p, a, b);
    let rest = apart(a, b);
    let both = a + rest;
    assert forall|i: int, j: int|
        #![trigger both[i], both[j]]
        0 <= i < j < both.len() implies both[i].voter != both[j].voter by {
        if j < a.len() {
            assert(both[i] == a[i] && both[j] == a[j]);
        } else if i < a.len() {
            assert(both[i] == a[i]);
            assert(both[j] == rest[j - a.len()]);
            assert(!has_vote(a, rest[j - a.len()].voter));
        } else {
            assert(both[i] == rest[i - a.len()] && both[j] == rest[j - a.len()]);
        }
    }
    lemma_votes_weight_bound(p, both);
    lemma_votes_weight_concat(p, a, rest);
}

} // verus!
