use screencast::client::on_length_read;
use screencast::client::on_payload_read;
use screencast::client::DisconnectHandle;
use screencast::client::LengthStep;
use screencast::client::PayloadStep;
use screencast::client::ReadOutcome;
use screencast::client::ReceiverError;
use screencast::codec::encode;
use screencast::codec::frame_record;
use screencast::codec::decode_record;
use screencast::screen::blank;
use screencast::screen::capture_step;
use screencast::screen::convert_bgra_to_rgba;
use screencast::screen::crop;
use screencast::screen::CaptureAction;
use screencast::screen::CaptureEvent;
use screencast::screen::CropValues;
use screencast::screen::sentinel_filter;
use screencast::screen::Frame;
use screencast::screen::ScreenCapture;
use screencast::server::ClientRegistry;

#[test]
fn convert_swaps_channels_and_drops_stride_padding() {
    // 2x2 BGRA frame with a 12-byte stride: each row is 8 pixel bytes plus
    // 4 bytes of alignment padding that must not survive conversion.
    let raw = vec![
        1, 2, 3, 4, 5, 6, 7, 8, 0xAA, 0xAA, 0xAA, 0xAA, // row 0
        9, 10, 11, 12, 13, 14, 15, 16, 0xBB, 0xBB, 0xBB, 0xBB, // row 1
    ];
    let rgba = convert_bgra_to_rgba(&raw, 2, 2);
    assert_eq!(
        rgba,
        vec![3, 2, 1, 4, 7, 6, 5, 8, 11, 10, 9, 12, 15, 14, 13, 16]
    );
}

#[test]
fn capture_step_publishes_converted_frame() {
    let raw = vec![1, 2, 3, 4, 5, 6, 7, 8];
    let action = capture_step(CaptureEvent::Captured(raw), 2, 1);
    match action {
        CaptureAction::Publish(f) => {
            assert_eq!(f.width, 2);
            assert_eq!(f.height, 1);
            assert_eq!(f.data, vec![3, 2, 1, 4, 7, 6, 5, 8]);
        }
        _ => panic!("captured buffer must be published"),
    }
}

#[test]
fn capture_step_retries_on_would_block_and_stops_on_failure() {
    assert!(matches!(
        capture_step(CaptureEvent::WouldBlock, 640, 480),
        CaptureAction::Retry
    ));
    assert!(matches!(
        capture_step(CaptureEvent::DeviceFailed, 640, 480),
        CaptureAction::Stop
    ));
}

#[test]
fn receive_frame_is_none_until_first_publish_then_peeks_latest() {
    let initial = Frame { data: Vec::new(), width: 0, height: 0 };
    let (tx, rx) = tokio::sync::watch::channel(initial);
    let mut capture = ScreenCapture { rx };
    assert!(capture.receive_frame().is_none());

    let f = Frame { data: vec![1, 2, 3, 4], width: 1, height: 1 };
    tx.send(f).unwrap();
    let first = capture.receive_frame().unwrap();
    assert_eq!(first.data, vec![1, 2, 3, 4]);
    // Peek, not pop: the same frame is seen again before a new publish.
    let second = capture.receive_frame().unwrap();
    assert_eq!(second.data, vec![1, 2, 3, 4]);

    // A new publish overwrites the slot; only the latest value is seen.
    tx.send(Frame { data: vec![9, 9, 9, 9], width: 1, height: 1 }).unwrap();
    assert_eq!(capture.receive_frame().unwrap().data, vec![9, 9, 9, 9]);
}

#[test]
fn sentinel_filter_drops_only_the_empty_sentinel() {
    let sentinel = Frame { data: Vec::new(), width: 0, height: 0 };
    assert!(sentinel_filter(sentinel).is_none());

    let f = Frame { data: vec![1, 2, 3, 4], width: 1, height: 1 };
    let passed = sentinel_filter(f.clone()).unwrap();
    // The frame comes back unchanged, not a substitute.
    assert_eq!(passed, f);
}

#[test]
fn registry_issues_handles_from_zero_upwards() {
    let mut reg = ClientRegistry::new();
    assert_eq!(reg.register(), 0);
    assert_eq!(reg.register(), 1);
    // Pruning does not reuse handles.
    reg.retain_delivered(&vec![false, false]);
    assert_eq!(reg.register(), 2);
}

#[test]
fn registry_keeps_only_delivered_clients() {
    let mut reg = ClientRegistry::new();
    let a = reg.register();
    let b = reg.register();
    let c = reg.register();
    assert_eq!(reg.len(), 3);
    assert!(a != b && b != c && a != c);

    // Client b's write failed; a and c still got the frame and stay.
    reg.retain_delivered(&vec![true, false, true]);
    assert_eq!(reg.len(), 2);
    assert_eq!(reg.id_at(0), a);
    assert_eq!(reg.id_at(1), c);
}

#[test]
fn registry_all_delivered_keeps_everyone() {
    let mut reg = ClientRegistry::new();
    reg.register();
    reg.register();
    reg.register();
    reg.retain_delivered(&vec![true, true, true]);
    assert_eq!(reg.len(), 3);
}

#[test]
fn registry_disconnect_clears_all_clients() {
    let mut reg = ClientRegistry::new();
    reg.register();
    reg.register();
    reg.clear();
    assert_eq!(reg.len(), 0);
    // New clients can still connect afterwards.
    reg.register();
    assert_eq!(reg.len(), 1);
}

#[test]
fn cancellation_wins_at_the_record_boundary() {
    // Even with a complete length prefix in hand, a cancelled loop stops.
    let step = on_length_read(true, ReadOutcome::Bytes(vec![0, 0, 0, 8]));
    assert!(matches!(step, LengthStep::Stop));
    let step = on_length_read(true, ReadOutcome::Eof);
    assert!(matches!(step, LengthStep::Stop));
}

#[test]
fn length_prefix_is_parsed_big_endian() {
    let step = on_length_read(false, ReadOutcome::Bytes(vec![0, 0, 1, 2]));
    match step {
        LengthStep::ReadPayload(n) => assert_eq!(n, 258),
        _ => panic!("a complete prefix must lead to the payload read"),
    }
}

#[test]
fn eof_on_length_read_forwards_sentinel_and_other_errors_do_not() {
    assert!(matches!(
        on_length_read(false, ReadOutcome::Eof),
        LengthStep::CloseWithSentinel
    ));
    assert!(matches!(
        on_length_read(false, ReadOutcome::Failed),
        LengthStep::Stop
    ));
}

#[test]
fn payload_outcomes_deliver_close_or_stop() {
    let f = Frame { data: vec![4, 3, 2, 1], width: 1, height: 1 };
    let step = on_payload_read(ReadOutcome::Bytes(encode(&f)));
    match step {
        PayloadStep::Deliver(got) => {
            assert_eq!(got.width, 1);
            assert_eq!(got.height, 1);
            assert_eq!(got.data, vec![4, 3, 2, 1]);
        }
        _ => panic!("a decodable payload must be delivered"),
    }

    // A decode failure is fatal to the connection: stop, no sentinel.
    assert!(matches!(
        on_payload_read(ReadOutcome::Bytes(vec![1, 2, 3])),
        PayloadStep::Stop
    ));
    // EOF mid-record still counts as a graceful remote close.
    assert!(matches!(
        on_payload_read(ReadOutcome::Eof),
        PayloadStep::CloseWithSentinel
    ));
    assert!(matches!(
        on_payload_read(ReadOutcome::Failed),
        PayloadStep::Stop
    ));
}

#[test]
fn disconnect_handle_sets_the_cancellation_flag() {
    let (tx, rx) = tokio::sync::watch::channel(false);
    let handle = DisconnectHandle { shutdown_tx: tx };
    handle.clone().disconnect();
    assert_eq!(*rx.borrow(), true);
}

#[test]
fn receiver_error_variants_are_distinguishable() {
    assert_ne!(ReceiverError::ConnectionError, ReceiverError::ReceiveError);
}

#[test]
fn end_to_end_crop_encode_broadcast_decode() {
    // A 64x64 all-red frame, left half cropped, survives the wire intact.
    let mut data = Vec::new();
    for _ in 0..(64 * 64) {
        data.extend_from_slice(&[255, 0, 0, 255]);
    }
    let mut f = Frame { data, width: 64, height: 64 };
    crop(&mut f, CropValues::new(50, 0, 0, 0));
    blank(&mut f, false);

    for y in 0..64usize {
        for x in 0..64usize {
            let i = (y * 64 + x) * 4;
            let expected: [u8; 4] = if x < 32 {
                [255, 255, 255, 255]
            } else {
                [255, 0, 0, 255]
            };
            assert_eq!(&f.data[i..i + 4], &expected);
        }
    }

    let rec = frame_record(&f);
    let (delivered, used) = decode_record(&rec).unwrap();
    assert_eq!(used, rec.len());
    assert_eq!(delivered.width, 64);
    assert_eq!(delivered.height, 64);
    assert_eq!(delivered.data, f.data);
}
