use bft_core::types::{bytes_eq, clone_nodes, clone_votes, Address, Node, Status, Target, Vote, VoteType};

#[test]
fn an_address_wraps_its_bytes() {
    let address = Address::new(vec![1, 2, 3]);
    assert_eq!(address.clone().into_vec(), vec![1, 2, 3]);
    assert!(address.same(&Address::new(vec![1, 2, 3])));
    assert!(!address.same(&Address::new(vec![1, 2])));
    assert!(!address.same(&Address::new(vec![1, 2, 4])));
    assert_eq!(Address::new(vec![]).into_vec(), Vec::<u8>::new());
}

#[test]
fn a_target_wraps_its_bytes_and_nil_is_empty() {
    let target = Target::new(vec![6, 5, 5, 3, 5]);
    assert!(!target.is_nil());
    assert!(Target::new(vec![]).is_nil());
    assert!(!Target::new(vec![0]).is_nil());
    assert_eq!(target.clone().into_vec(), vec![6, 5, 5, 3, 5]);
    assert!(target.same(&target.clone()));
    assert!(!target.same(&Target::new(vec![])));
}

#[test]
fn byte_strings_are_compared_byte_by_byte() {
    assert!(bytes_eq(&vec![], &vec![]));
    assert!(bytes_eq(&vec![1, 2], &vec![1, 2]));
    assert!(!bytes_eq(&vec![1, 2], &vec![2, 1]));
    assert!(!bytes_eq(&vec![1], &vec![1, 0]));
}

#[test]
fn a_new_node_has_both_weights_one() {
    let mut node = Node::new(Address::new(vec![9]));
    assert_eq!(node.address, Address::new(vec![9]));
    assert_eq!(node.propose_weight, 1);
    assert_eq!(node.vote_weight, 1);
    node.set_propose_weight(7);
    assert_eq!((node.propose_weight, node.vote_weight), (7, 1));
    node.set_vote_weight(3);
    assert_eq!((node.propose_weight, node.vote_weight), (7, 3));
}

#[test]
fn votes_are_equal_in_all_five_fields() {
    let vote = Vote {
        vote_type: VoteType::Prevote,
        height: 1,
        round: 2,
        proposal: Target::new(vec![3]),
        voter: Address::new(vec![4]),
    };
    assert!(vote.same(&vote.clone()));
    assert!(!vote.same(&Vote { vote_type: VoteType::Precommit, ..vote.clone() }));
    assert!(!vote.same(&Vote { height: 2, ..vote.clone() }));
    assert!(!vote.same(&Vote { round: 3, ..vote.clone() }));
    assert!(!vote.same(&Vote { proposal: Target::new(vec![]), ..vote.clone() }));
    assert!(!vote.same(&Vote { voter: Address::new(vec![5]), ..vote.clone() }));
    assert_eq!(clone_votes(&vec![vote.clone(), vote.clone()]), vec![vote.clone(), vote]);
}

#[test]
fn a_status_lists_addresses_and_weights() {
    let mut a = Node::new(Address::new(vec![1]));
    a.set_propose_weight(10);
    a.set_vote_weight(20);
    let mut b = Node::new(Address::new(vec![2]));
    b.set_propose_weight(30);
    b.set_vote_weight(40);
    let mut again = Node::new(Address::new(vec![1]));
    again.set_propose_weight(50);
    again.set_vote_weight(60);
    let status = Status {
        height: 3,
        interval: Some(100),
        authority_list: vec![a.clone(), b.clone(), again.clone()],
    };
    assert_eq!(
        status.get_address_list(),
        vec![Address::new(vec![1]), Address::new(vec![2]), Address::new(vec![1])]
    );
    assert_eq!(status.get_propose_weight_list(), vec![10, 30, 50]);
    assert_eq!(
        status.get_vote_weight_map(),
        vec![(Address::new(vec![1]), 20), (Address::new(vec![2]), 40)]
    );
    assert_eq!(clone_nodes(&status.authority_list), vec![a, b, again]);
    assert_eq!(status.clone(), status);
    let empty = Status { height: 0, interval: None, authority_list: vec![] };
    assert_eq!(empty.get_address_list(), vec![]);
    assert_eq!(empty.get_propose_weight_list(), Vec::<u64>::new());
    assert_eq!(empty.get_vote_weight_map(), vec![]);
}
