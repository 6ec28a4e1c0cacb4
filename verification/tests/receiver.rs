use pnet_datalink::receiver::{PacketQueue, ReceiveAction, WaitOutcome};

#[test]
fn new_queue_waits_and_holds_zeroed_current_frame() {
    let mut queue = PacketQueue::new(8);
    assert_eq!(queue.packet(), &[0u8; 8][..]);
    assert_eq!(queue.begin(), ReceiveAction::Wait);
}

#[test]
fn frames_handed_out_in_read_order() {
    let mut queue = PacketQueue::new(0);
    assert_eq!(queue.begin(), ReceiveAction::Wait);
    assert_eq!(queue.on_wait(WaitOutcome::Signaled), ReceiveAction::Read);
    assert_eq!(queue.on_read(Some(vec![1, 2, 3])), ReceiveAction::Read);
    assert_eq!(queue.on_read(Some(vec![4])), ReceiveAction::Read);
    assert_eq!(queue.on_read(Some(vec![5, 6])), ReceiveAction::Read);
    assert_eq!(queue.on_read(None), ReceiveAction::Deliver);
    assert_eq!(queue.packet(), &[1, 2, 3][..]);
    assert_eq!(queue.begin(), ReceiveAction::Deliver);
    assert_eq!(queue.packet(), &[4][..]);
    assert_eq!(queue.begin(), ReceiveAction::Deliver);
    assert_eq!(queue.packet(), &[5, 6][..]);
    assert_eq!(queue.begin(), ReceiveAction::Wait);
    assert_eq!(queue.packet(), &[5, 6][..]);
}

#[test]
fn empty_frames_are_dropped() {
    let mut queue = PacketQueue::new(4);
    assert_eq!(queue.on_read(Some(Vec::new())), ReceiveAction::Read);
    assert_eq!(queue.on_read(None), ReceiveAction::Wait);
    assert_eq!(queue.on_read(Some(Vec::new())), ReceiveAction::Read);
    assert_eq!(queue.on_read(Some(vec![9])), ReceiveAction::Read);
    assert_eq!(queue.on_read(None), ReceiveAction::Deliver);
    assert_eq!(queue.packet(), &[9][..]);
}

#[test]
fn failed_wait_is_reported_and_timeout_reads() {
    let queue = PacketQueue::new(4);
    assert_eq!(queue.on_wait(WaitOutcome::Failed), ReceiveAction::Fail);
    assert_eq!(queue.on_wait(WaitOutcome::TimedOut), ReceiveAction::Read);
    assert_eq!(queue.on_wait(WaitOutcome::Signaled), ReceiveAction::Read);
}
