use pnet_datalink::sender::{SendAction, SendBatch, SendError, SendEvent, MAX_FRAME_SIZE};

fn run(batch: &mut SendBatch, driver_takes: &[bool]) -> Vec<SendAction> {
    let mut actions = Vec::new();
    let mut action = batch.step(SendEvent::Begin);
    let mut sends = 0;
    loop {
        actions.push(action);
        action = match action {
            SendAction::Build { .. } => batch.step(SendEvent::Built),
            SendAction::Transmit { .. } => {
                let taken = driver_takes[sends];
                sends += 1;
                batch.step(SendEvent::Transmitted(taken))
            }
            SendAction::Done(_) => break,
        };
    }
    actions
}

#[test]
fn batch_sends_frames_back_to_back() {
    let mut batch = SendBatch::new(3, 60, 4096).unwrap();
    let actions = run(&mut batch, &[true, true, true]);
    assert_eq!(
        actions,
        vec![
            SendAction::Build { start: 0, end: 60 },
            SendAction::Transmit { start: 0, end: 60 },
            SendAction::Build { start: 60, end: 120 },
            SendAction::Transmit { start: 60, end: 120 },
            SendAction::Build { start: 120, end: 180 },
            SendAction::Transmit { start: 120, end: 180 },
            SendAction::Done(Ok(())),
        ]
    );
}

#[test]
fn batch_too_large_for_buffer_is_refused() {
    assert!(SendBatch::new(3, 1500, 4096).is_none());
    assert!(SendBatch::new(1, 4097, 4096).is_none());
    assert!(SendBatch::new(2, 2048, 4096).is_some());
}

#[test]
fn empty_batch_ends_at_once() {
    let mut batch = SendBatch::new(0, 10_000, 0).unwrap();
    assert_eq!(batch.step(SendEvent::Begin), SendAction::Done(Ok(())));
}

#[test]
fn oversized_frame_refused_after_first_build() {
    let mut batch = SendBatch::new(2, MAX_FRAME_SIZE + 1, 10_000).unwrap();
    let actions = run(&mut batch, &[]);
    assert_eq!(
        actions,
        vec![
            SendAction::Build { start: 0, end: 1515 },
            SendAction::Done(Err(SendError::FrameTooLarge)),
        ]
    );
}

#[test]
fn largest_ethernet_frame_is_sent() {
    let mut batch = SendBatch::new(1, MAX_FRAME_SIZE, 4096).unwrap();
    let actions = run(&mut batch, &[true]);
    assert_eq!(actions[1], SendAction::Transmit { start: 0, end: 1514 });
    assert_eq!(actions[2], SendAction::Done(Ok(())));
}

#[test]
fn driver_refusal_ends_batch() {
    let mut batch = SendBatch::new(3, 100, 4096).unwrap();
    let actions = run(&mut batch, &[true, false]);
    assert_eq!(
        actions,
        vec![
            SendAction::Build { start: 0, end: 100 },
            SendAction::Transmit { start: 0, end: 100 },
            SendAction::Build { start: 100, end: 200 },
            SendAction::Transmit { start: 100, end: 200 },
            SendAction::Done(Err(SendError::DriverRejected)),
        ]
    );
}
