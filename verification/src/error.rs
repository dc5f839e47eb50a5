use vstd::prelude::*;

verus! {

/// What can go wrong when a message is handed to the consensus core.
#[derive(Clone, Copy, Debug, PartialEq, Eq, Structural)]
pub enum BftError {
    /// The queue to the state machine is closed.
    SendMsgErr,
    /// The message is of another kind than the one asked for.
    MsgTypeErr,
}

} // verus!
