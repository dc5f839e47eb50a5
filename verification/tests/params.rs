use bft_core::params::{Config, Params, ProposerPolicy, RoundScaling};
use bft_core::rand::get_index_rand;
use bft_core::types::{Address, Node, Proposal, Status, Target, Vote, VoteType};

fn addr(n: u8) -> Address {
    Address::new(vec![n])
}

fn node(n: u8, propose_weight: u64, vote_weight: u64) -> Node {
    let mut node = Node::new(addr(n));
    node.set_propose_weight(propose_weight);
    node.set_vote_weight(vote_weight);
    node
}

fn status(nodes: Vec<Node>) -> Status {
    Status { height: 0, interval: None, authority_list: nodes }
}

fn params(nodes: Vec<Node>) -> Params {
    let mut params = Params::new(addr(0), Config::default());
    params.install(&status(nodes));
    params
}

#[test]
fn the_usual_setup() {
    let config = Config::default();
    assert_eq!(config.interval, 3000);
    assert_eq!(config.policy, ProposerPolicy::Weighted);
    assert_eq!(config.scaling, RoundScaling::Doubling { cap: 10 });
    assert!(!config.async_verify);
    let params = Params::new(addr(4), config);
    assert_eq!(params.address(), &addr(4));
    assert!(!params.authority_known());
    assert!(!params.async_verify());
    assert_eq!(params.total_vote_weight(), 0);
    assert_eq!(params.vote_weight(&addr(4)), 0);
    assert_eq!(params.proposer(1, 0), None);
    assert!(!params.is_proposer(1, 0, &addr(4)));
}

#[test]
fn a_status_sets_the_authorities() {
    let nodes = vec![node(0, 1, 4), node(1, 2, 5), node(2, 3, 0)];
    let params = params(nodes.clone());
    assert!(params.authority_known());
    assert_eq!(params.authority_list(), nodes);
    assert_eq!(params.vote_weight(&addr(0)), 4);
    assert_eq!(params.vote_weight(&addr(1)), 5);
    assert_eq!(params.vote_weight(&addr(2)), 0);
    assert_eq!(params.vote_weight(&addr(3)), 0);
    assert_eq!(params.total_vote_weight(), 9);
}

#[test]
fn an_address_that_is_listed_twice_counts_once() {
    let params = params(vec![node(0, 1, 4), node(1, 1, 5), node(0, 1, 100)]);
    assert_eq!(params.vote_weight(&addr(0)), 4);
    assert_eq!(params.total_vote_weight(), 9);
}

#[test]
fn vote_weights_may_sum_beyond_64_bits() {
    let params = params(vec![node(0, 1, u64::MAX), node(1, 1, u64::MAX), node(2, 1, 7)]);
    assert_eq!(params.total_vote_weight(), 2 * (u64::MAX as u128) + 7);
}

#[test]
fn the_proposer_follows_height_plus_round() {
    let params = params(vec![node(0, 1, 1), node(1, 1, 1), node(2, 1, 1), node(3, 1, 1)]);
    assert_eq!(params.proposer(1, 0), Some(1));
    assert_eq!(params.proposer(1, 1), Some(2));
    assert_eq!(params.proposer(2, 0), Some(2));
    assert_eq!(params.proposer(5, 3), Some(0));
    assert!(params.is_proposer(1, 0, &addr(1)));
    assert!(!params.is_proposer(1, 0, &addr(0)));
    assert!(!params.is_proposer(1, 0, &addr(9)));
}

#[test]
fn propose_weights_decide_the_proposer() {
    let params = params(vec![node(0, 2, 1), node(1, 0, 1), node(2, 3, 1)]);
    let expected = [0usize, 0, 2, 2, 2];
    for seed in 0..15u64 {
        assert_eq!(params.proposer(seed, 0), Some(expected[(seed % 5) as usize]));
        assert_eq!(params.proposer(0, seed), Some(expected[(seed % 5) as usize]));
    }
}

#[test]
fn no_proposer_without_weight_or_beyond_64_bits() {
    assert_eq!(params(vec![node(0, 0, 1), node(1, 0, 1)]).proposer(1, 0), None);
    assert_eq!(params(vec![node(0, u64::MAX, 1), node(1, 1, 1)]).proposer(1, 0), None);
    let params = params(vec![node(0, 1, 1), node(1, 1, 1)]);
    assert_eq!(params.proposer(u64::MAX, 1), None);
    assert_eq!(params.proposer(u64::MAX, 0), Some(1));
    assert_eq!(params.proposer(u64::MAX - 1, 1), Some(1));
}

#[test]
fn the_random_policy_asks_the_generator() {
    let config = Config { policy: ProposerPolicy::Random, ..Config::default() };
    let mut params = Params::new(addr(0), config);
    params.install(&status(vec![node(0, 5, 1), node(1, 1, 1), node(2, 9, 1), node(3, 2, 1)]));
    let weights = [5u64, 1, 9, 2];
    for height in 0..20u64 {
        for round in 0..5u64 {
            assert_eq!(params.proposer(height, round), Some(get_index_rand(height + round, &weights)));
        }
    }
}

#[test]
fn the_timeout_doubles_with_the_round_up_to_the_cap() {
    let params = Params::new(addr(0), Config::default());
    assert_eq!(params.timeout(0), 3000);
    assert_eq!(params.timeout(1), 6000);
    assert_eq!(params.timeout(2), 12000);
    assert_eq!(params.timeout(10), 3000 * 1024);
    assert_eq!(params.timeout(11), 3000 * 1024);
    assert_eq!(params.timeout(u64::MAX), 3000 * 1024);
    let capped = Config { scaling: RoundScaling::Doubling { cap: 3 }, interval: 10, ..Config::default() };
    let params = Params::new(addr(0), capped);
    assert_eq!(params.timeout(2), 40);
    assert_eq!(params.timeout(3), 80);
    assert_eq!(params.timeout(4), 80);
    let large = Config {
        scaling: RoundScaling::Doubling { cap: 255 },
        interval: 1 << 62,
        ..Config::default()
    };
    let params = Params::new(addr(0), large);
    assert_eq!(params.timeout(1), 1 << 63);
    assert_eq!(params.timeout(2), u64::MAX);
    assert_eq!(params.timeout(200), u64::MAX);
}

#[test]
fn the_timeout_grows_by_the_increment() {
    let config = Config {
        scaling: RoundScaling::Additive { increment: 250 },
        interval: 1000,
        ..Config::default()
    };
    let params = Params::new(addr(0), config);
    assert_eq!(params.timeout(0), 1000);
    assert_eq!(params.timeout(1), 1250);
    assert_eq!(params.timeout(8), 3000);
    assert_eq!(params.timeout(u64::MAX), u64::MAX);
    assert_eq!(params.timeout(u64::MAX / 250), u64::MAX);
}

#[test]
fn a_status_changes_the_interval_where_it_gives_one() {
    let mut params = Params::new(addr(0), Config::default());
    params.install(&Status { height: 0, interval: Some(500), authority_list: vec![] });
    assert_eq!(params.timeout(0), 500);
    assert_eq!(params.timeout(1), 1000);
    params.install(&Status { height: 1, interval: None, authority_list: vec![] });
    assert_eq!(params.timeout(0), 500);
}

fn prevote(round: u64, proposal: u8, voter: u8) -> Vote {
    Vote {
        vote_type: VoteType::Prevote,
        height: 3,
        round,
        proposal: Target::new(vec![proposal]),
        voter: addr(voter),
    }
}

fn carried(round: u64, lock_round: Option<u64>, lock_votes: Vec<Vote>) -> Proposal {
    Proposal {
        height: 3,
        round,
        content: Target::new(vec![7]),
        lock_round,
        lock_votes,
        proposer: addr(1),
    }
}

#[test]
fn a_lock_is_proved_by_two_thirds_of_the_prevotes() {
    let params = params(vec![node(0, 1, 1), node(1, 1, 1), node(2, 1, 1), node(3, 1, 1)]);
    let three = vec![prevote(1, 7, 0), prevote(1, 7, 2), prevote(1, 7, 3)];
    assert!(params.proves_lock(&carried(2, Some(1), three.clone())));
    assert!(params.proves_lock(&carried(9, Some(1), three.clone())));
    // No lock round, a lock round that is not before the round of the proposal, too few votes.
    assert!(!params.proves_lock(&carried(2, None, three.clone())));
    assert!(!params.proves_lock(&carried(1, Some(1), three.clone())));
    assert!(!params.proves_lock(&carried(0, Some(1), three.clone())));
    assert!(!params.proves_lock(&carried(2, Some(1), vec![prevote(1, 7, 0), prevote(1, 7, 2)])));
    assert!(!params.proves_lock(&carried(2, Some(1), vec![])));
    // Votes of another round, for another value, of another kind, of another height.
    assert!(!params.proves_lock(&carried(2, Some(0), three.clone())));
    assert!(!params.proves_lock(&carried(
        2,
        Some(1),
        vec![prevote(1, 7, 0), prevote(1, 9, 2), prevote(1, 7, 3)]
    )));
    let mut precommit = three.clone();
    precommit[1].vote_type = VoteType::Precommit;
    assert!(!params.proves_lock(&carried(2, Some(1), precommit)));
    let mut elsewhere = three.clone();
    elsewhere[2].height = 4;
    assert!(!params.proves_lock(&carried(2, Some(1), elsewhere)));
    // A voter twice, and a voter that is no authority.
    assert!(!params.proves_lock(&carried(
        2,
        Some(1),
        vec![prevote(1, 7, 0), prevote(1, 7, 2), prevote(1, 7, 2)]
    )));
    assert!(!params.proves_lock(&carried(
        2,
        Some(1),
        vec![prevote(1, 7, 0), prevote(1, 7, 2), prevote(1, 7, 3), prevote(1, 7, 9)]
    )));
}
