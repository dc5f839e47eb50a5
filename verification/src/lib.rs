//! The core of a Byzantine fault tolerant consensus: a state machine that
//! takes proposals, votes, feeds, statuses and timeouts, and asks for
//! proposals, votes and commits to be sent out and for timeouts to be set.
//!
//! The state machine is stopped at first: `CoreInput::Start` lets it take
//! part, and `CoreInput::Pause` stops it again.

use vstd::prelude::*;

/// The front that hands the host's messages to the state machine.
pub mod actuator;
/// No two values are decided at a height by voters that keep the rules of voting.
pub mod agreement;
/// The state machine of one node, as it runs.
pub mod algorithm;
/// What holds of the state of a node at all times.
pub mod always;
/// Messages that change nothing.
pub mod dropped;
/// What can go wrong when a message is handed over.
pub mod error;
/// The votes that the votes, locks and decisions of a node rest on.
pub mod grounds;
/// What a locked node prevotes.
pub mod locking;
/// The state machine of one node, as a function from state and event to state and actions.
pub mod machine;
/// No two honest nodes decide two values at a height.
pub mod network;
/// The parameters of a node: authorities, weights, proposer and timeouts.
pub mod params;
/// Two sets of votes with two thirds of the weight share voters.
pub mod quorum;
/// The choice of a proposer by weight.
pub mod rand;
/// A node decides once for a height, justified, and after its own precommit.
pub mod safety;
/// The steps of a round.
pub mod step;
/// Finding the first of a list that is wanted.
pub mod store;
/// The pending timeouts of a node.
pub mod timer;
/// The messages and their parts.
pub mod types;
/// The votes of a height, by round and kind, with their weights.
pub mod voteset;
/// A node votes once in a round.
pub mod voting;

pub use crate::actuator::Core;
pub use crate::types::{
    Address, Commit, CoreInput, CoreOutput, Feed, Node, Proposal, Status, Target, VerifyResp, Vote,
};

verus! {

/// Where the consensus core hands its messages to the host.
pub trait FromCore {
    /// What can go wrong when a message is handed to the host.
    type Error: std::fmt::Debug;

    /// Hands a message to the host.
    fn send_msg(&mut self, msg: CoreOutput) -> Result<(), Self::Error>;
}

} // verus!
