use bft_core::actuator::{Core, InputKind};
use bft_core::error::BftError;
use bft_core::types::{CoreInput, Status};
use crossbeam_channel::unbounded;

fn create_status(height: u64) -> CoreInput {
    CoreInput::Status(Status {
        height,
        interval: None,
        authority_list: vec![],
    })
}

#[test]
fn test_height_change() {
    let height: Vec<(u64, u64)> = vec![(1, 2), (2, 3), (1, 3), (4, 5), (6, 7), (5, 7)];
    let (sender, _receiver) = unbounded();
    let mut bft = Core::new(sender);
    assert_eq!(bft.get_height(), 0);

    for h in height.into_iter() {
        if let Ok(_) = bft.send_bft_msg(create_status(h.0)) {
            assert_eq!(bft.get_height(), h.1);
        } else {
            panic!("Send Error!");
        }
    }
}

#[test]
fn send_fails_when_queue_is_closed() {
    let (sender, receiver) = unbounded();
    let mut bft = Core::new(sender);
    drop(receiver);
    assert_eq!(bft.send_bft_msg(create_status(4)), Err(BftError::SendMsgErr));
    assert_eq!(bft.get_height(), 0);
}

#[test]
fn a_status_for_the_height_shown_moves_it_on() {
    let (sender, _receiver) = unbounded();
    let mut bft = Core::new(sender);
    assert_eq!(bft.send_bft_msg(create_status(0)), Ok(()));
    assert_eq!(bft.get_height(), 1);
    assert_eq!(bft.send_bft_msg(create_status(1)), Ok(()));
    assert_eq!(bft.get_height(), 2);
    // A status for a height before the one shown changes nothing.
    assert_eq!(bft.send_bft_msg(create_status(0)), Ok(()));
    assert_eq!(bft.get_height(), 2);
    assert_eq!(bft.send_bft_msg(create_status(u64::MAX - 1)), Ok(()));
    assert_eq!(bft.get_height(), u64::MAX);
}

#[test]
fn messages_are_handed_on_in_order_and_only_a_status_moves_the_height() {
    let (sender, receiver) = unbounded();
    let mut bft = Core::new(sender);
    assert_eq!(bft.send_bft_msg(CoreInput::Start), Ok(()));
    assert_eq!(bft.send_bft_msg(create_status(3)), Ok(()));
    assert_eq!(bft.send_bft_msg(CoreInput::Pause), Ok(()));
    assert_eq!(bft.get_height(), 4);
    assert_eq!(receiver.try_recv(), Ok(CoreInput::Start));
    assert_eq!(receiver.try_recv(), Ok(create_status(3)));
    assert_eq!(receiver.try_recv(), Ok(CoreInput::Pause));
    assert!(receiver.try_recv().is_err());
}

#[test]
fn a_message_of_another_kind_is_refused() {
    let (sender, receiver) = unbounded();
    let mut bft = Core::new(sender);
    assert_eq!(bft.send_as(InputKind::Vote, create_status(3)), Err(BftError::MsgTypeErr));
    assert_eq!(bft.send_as(InputKind::Status, CoreInput::Start), Err(BftError::MsgTypeErr));
    assert_eq!(bft.get_height(), 0);
    assert!(receiver.try_recv().is_err());
    assert_eq!(bft.send_as(InputKind::Status, create_status(3)), Ok(()));
    assert_eq!(bft.get_height(), 4);
    assert_eq!(bft.send_as(InputKind::Start, CoreInput::Start), Ok(()));
    assert_eq!(receiver.try_recv(), Ok(create_status(3)));
    assert_eq!(receiver.try_recv(), Ok(CoreInput::Start));
    drop(receiver);
    assert_eq!(bft.send_as(InputKind::Pause, CoreInput::Pause), Err(BftError::SendMsgErr));
    assert_eq!(bft.send_as(InputKind::Start, CoreInput::Pause), Err(BftError::MsgTypeErr));
}

#[test]
fn settling_moves_the_height_only_when_the_message_was_sent() {
    let (sender, _receiver) = unbounded();
    let mut bft = Core::new(sender);
    assert_eq!(bft.settle(Some(5), false), Err(BftError::SendMsgErr));
    assert_eq!(bft.get_height(), 0);
    assert_eq!(bft.settle(Some(5), true), Ok(()));
    assert_eq!(bft.get_height(), 6);
    assert_eq!(bft.settle(None, true), Ok(()));
    assert_eq!(bft.settle(Some(2), true), Ok(()));
    assert_eq!(bft.get_height(), 6);
    assert_eq!(bft.settle(Some(6), true), Ok(()));
    assert_eq!(bft.get_height(), 7);
}

#[test]
fn every_message_has_its_kind() {
    assert_eq!(Core::kind(&CoreInput::Start), InputKind::Start);
    assert_eq!(Core::kind(&CoreInput::Pause), InputKind::Pause);
    assert_eq!(Core::kind(&create_status(0)), InputKind::Status);
}
