use crate::algorithm::INIT_HEIGHT;
use crate::error::BftError;
use crate::types::{CoreInput, CoreInputView};
use crossbeam_channel::SendError;
use crossbeam_channel::Sender;
use vstd::prelude::*;

verus! {

/// `crossbeam_channel::Sender`: the sending end of a queue. Nothing is
/// known of what it holds.
#[verifier::external_type_specification]
#[verifier::external_body]
#[verifier::reject_recursive_types(T)]
pub struct ExSender<T>(Sender<T>);

/// `crossbeam_channel::SendError`: the message that a closed queue did
/// not take. Nothing is read from it.
#[verifier::external_type_specification]
#[verifier::external_body]
#[verifier::reject_recursive_types(T)]
pub struct ExSendError<T>(SendError<T>);

/// `Sender::send`: hands the message to the queue. Whether that works
/// depends on the other end of the queue, so nothing is said of the result.
#[verifier::external_body]
fn queue_send(sender: &Sender<CoreInput>, msg: CoreInput) -> (sent: Result<
    (),
    SendError<CoreInput>,
>) {
    sender.send(msg)
}

/// The kinds of message from the host.
#[derive(Clone, Copy, Debug, PartialEq, Eq, Structural)]
pub enum InputKind {
    Proposal,
    Vote,
    Feed,
    VerifyResp,
    Status,
    Commit,
    Pause,
    Start,
}

/// The kind of a message.
pub open spec fn kind_of(msg: CoreInputView) -> InputKind {
    match msg {
        CoreInputView::Proposal(_) => InputKind::Proposal,
        CoreInputView::Vote(_) => InputKind::Vote,
        CoreInputView::Feed(_) => InputKind::Feed,
        CoreInputView::VerifyResp(_) => InputKind::VerifyResp,
        CoreInputView::Status(_) => InputKind::Status,
        CoreInputView::Commit(_) => InputKind::Commit,
        CoreInputView::Pause => InputKind::Pause,
        CoreInputView::Start => InputKind::Start,
    }
}

/// The height of the status that a message carries, if it is one.
pub open spec fn status_height(msg: CoreInputView) -> Option<u64> {
    match msg {
        CoreInputView::Status(status) => Some(status.height),
        _ => None,
    }
}

/// The height that the front shows once a message has been handed over:
/// after a status for its own height or a later one, the height after that
/// of the status; else the one it showed before.
pub open spec fn height_after(height: u64, status: Option<u64>) -> int {
    match status {
        Some(reached) => if height <= reached {
            reached + 1
        } else {
            height as int
        },
        None => height as int,
    }
}

/// The front of the consensus core: it hands the host's messages to the
/// state machine, and shows the height that the host has reached.
#[derive(Debug)]
pub struct Core {
    sender: Sender<CoreInput>,
    height: u64,
}

impl Core {
    /// The height that the front shows.
    pub closed spec fn height(&self) -> u64 {
        self.height
    }

    /// The sending end of the queue that the front hands messages to.
    pub closed spec fn queue(&self) -> Sender<CoreInput> {
        self.sender
    }

    /// A front that hands messages to the queue behind `sender`, and shows
    /// the height at which a node starts.
    pub fn new(sender: Sender<CoreInput>) -> (core: Core)
        ensures
            core.queue() == sender,
            core.height() == INIT_HEIGHT,
    {
        Core { sender, height: INIT_HEIGHT }
    }

    /// The kind of a message.
    pub fn kind(msg: &CoreInput) -> (kind: InputKind)
        ensures
            kind == kind_of(msg@),
    {
        match msg {
            CoreInput::Proposal(_) => InputKind::Proposal,
            CoreInput::Vote(_) => InputKind::Vote,
            CoreInput::Feed(_) => InputKind::Feed,
            CoreInput::VerifyResp(_) => InputKind::VerifyResp,
            CoreInput::Status(_) => InputKind::Status,
            CoreInput::Commit(_) => InputKind::Commit,
            CoreInput::Pause => InputKind::Pause,
            CoreInput::Start => InputKind::Start,
        }
    }

    /// Takes note of what came of handing a message to the queue. Where it
    /// was handed over, the height shown moves as `height_after` says;
    /// where it was not, the height stays and the error is `SendMsgErr`.
    pub fn settle(&mut self, status: Option<u64>, sent: bool) -> (res: Result<(), BftError>)
        requires
            status matches Some(reached) ==> reached < u64::MAX,
        ensures
            sent ==> res == Ok::<(), BftError>(()) && final(self).height() == height_after(
                old(self).height(),
                status,
            ),
            !sent ==> res == Err::<(), BftError>(BftError::SendMsgErr) && final(self).height()
                == old(self).height(),
            final(self).height() >= old(self).height(),
            final(self).queue() == old(self).queue(),
    {
        if !sent {
            return Err(BftError::SendMsgErr);
        }
        match status {
            Some(reached) => {
                if self.height <= reached {
                    self.height = reached + 1;
                }
            },
            None => {},
        }
        Ok(())
    }

    /// Hands a message to the queue of the front, which stays the same
    /// queue, for the state machine to take. The height shown never falls;
    /// it moves only where a status was handed over, as `height_after`
    /// says. Where the queue is closed the result is `SendMsgErr`, and the
    /// height stays.
    pub fn send_bft_msg(&mut self, msg: CoreInput) -> (res: Result<(), BftError>)
        requires
            msg matches CoreInput::Status(status) ==> status.height < u64::MAX,
        ensures
            res matches Ok(_) ==> final(self).height() == height_after(
                old(self).height(),
                status_height(msg@),
            ),
            res matches Err(e) ==> e == BftError::SendMsgErr && final(self).height() == old(self).height(),
            final(self).height() >= old(self).height(),
            final(self).queue() == old(self).queue(),
    {
        let status = match &msg {
            CoreInput::Status(status) => Some(status.height),
            _ => None,
        };
        let sent = queue_send(&self.sender, msg);
        match sent {
            Ok(_) => self.settle(status, true),
            Err(_) => self.settle(status, false),
        }
    }

    /// Hands a message to the state machine where it is of the kind asked
    /// for, as `send_bft_msg` does; where it is of another kind, nothing is
    /// handed over and the result is `MsgTypeErr`.
    pub fn send_as(&mut self, kind: InputKind, msg: CoreInput) -> (res: Result<(), BftError>)
        requires
            msg matches CoreInput::Status(status) ==> status.height < u64::MAX,
        ensures
            kind_of(msg@) != kind ==> res == Err::<(), BftError>(BftError::MsgTypeErr) && final(self).height() == old(self).height(),
            kind_of(msg@) == kind ==> (res matches Ok(_) ==> final(self).height() == height_after(
                old(self).height(),
                status_height(msg@),
            )) && (res matches Err(e) ==> e == BftError::SendMsgErr && final(self).height() == old(self).height()),
            final(self).height() >= old(self).height(),
            final(self).queue() == old(self).queue(),
    {
        if Core::kind(&msg) != kind {
            return Err(BftError::MsgTypeErr);
        }
        self.send_bft_msg(msg)
    }

    /// The height that the front shows: the next height for consensus to
    /// work on, as far as the host has told.
    pub fn get_height(&self) -> (height: u64)
        ensures
            height == self.height(),
    {
        self.height
    }
}

/// The height that the front shows never falls.
pub proof fn lemma_height_after_never_falls(height: u64, status: Option<u64>)
    ensures
        height_after(height, status) >= height,
{
}

/// A status for a height before the one shown leaves the height shown as
/// it is.
pub proof fn lemma_stale_status_keeps_height(height: u64, reached: u64)
    requires
        reached < height,
    ensures
        height_after(height, Some(reached)) == height,
{
}

/// A status for the height shown or a later one moves the height shown to
/// the height after that of the status; one for the height shown moves it
/// on by one.
pub proof fn lemma_status_moves_height(height: u64, reached: u64)
    requires
        height <= reached,
    ensures
        height_after(height, Some(reached)) == reached + 1,
        height_after(height, Some(height)) == height + 1,
{
}

} // verus!
