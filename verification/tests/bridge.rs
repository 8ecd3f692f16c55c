use win_can_utils::bridge::{
    bridge_step, channel_name, frame_message, next_auto_channel, split_message, BridgeAction, BridgeEvent,
    BridgePhase, CanServerConfig,
};

#[test]
fn envelope_prefix_is_the_payload_length() {
    assert_eq!(frame_message(&[]), Some(vec![0]));
    assert_eq!(frame_message(&[9, 8, 7]), Some(vec![3, 9, 8, 7]));
    let big = vec![0xAAu8; 255];
    let msg = frame_message(&big).unwrap();
    assert_eq!(msg.len(), 256);
    assert_eq!(msg[0], 255);
    assert_eq!(&msg[1..], &big[..]);
}

#[test]
fn oversized_payload_has_no_envelope() {
    assert_eq!(frame_message(&vec![0u8; 256]), None);
    assert_eq!(frame_message(&vec![0u8; 1000]), None);
}

#[test]
fn envelope_round_trip() {
    for len in [0usize, 1, 17, 254, 255] {
        let payload: Vec<u8> = (0..len).map(|i| (i * 7) as u8).collect();
        let mut stream = frame_message(&payload).unwrap();
        stream.extend_from_slice(&[3, 1, 2]);
        assert_eq!(split_message(&stream), Some((payload, len + 1)));
    }
    assert_eq!(split_message(&[]), None);
    assert_eq!(split_message(&[2, 1]), None);
    assert_eq!(split_message(&[0]), Some((vec![], 1)));
}

#[test]
fn channel_names_count_up() {
    assert_eq!(channel_name(b"can", 0), b"can0".to_vec());
    assert_eq!(channel_name(b"can", 9), b"can9".to_vec());
    assert_eq!(channel_name(b"can", 10), b"can10".to_vec());
    assert_eq!(channel_name(b"", 1234567), b"1234567".to_vec());
}

#[test]
fn auto_channel_is_the_first_free_slot() {
    assert_eq!(next_auto_channel(b"can", &[false]), Some(b"can0".to_vec()));
    assert_eq!(next_auto_channel(b"can", &[true, true, false, false]), Some(b"can2".to_vec()));
    assert_eq!(next_auto_channel(b"can", &[true, true]), None);
    assert_eq!(next_auto_channel(b"can", &[]), None);
}

#[test]
fn shutdown_closes_once_after_the_tasks_let_go() {
    let mut phase = BridgePhase::Running;
    let mut actions = Vec::new();
    for event in [
        BridgeEvent::TasksReleased,
        BridgeEvent::ShutdownSignal,
        BridgeEvent::OutboundEnded,
        BridgeEvent::InboundEnded,
        BridgeEvent::TasksReleased,
        BridgeEvent::TasksReleased,
        BridgeEvent::ShutdownSignal,
    ] {
        let (next, action) = bridge_step(phase, event);
        phase = next;
        actions.push(action);
    }
    assert_eq!(phase, BridgePhase::Closed);
    assert_eq!(
        actions,
        vec![
            BridgeAction::Nothing,
            BridgeAction::AbortTasks,
            BridgeAction::Nothing,
            BridgeAction::Nothing,
            BridgeAction::CloseChannel,
            BridgeAction::Nothing,
            BridgeAction::Nothing,
        ]
    );
}

#[test]
fn a_task_ending_also_starts_shutdown() {
    assert_eq!(
        bridge_step(BridgePhase::Running, BridgeEvent::InboundEnded),
        (BridgePhase::Draining, BridgeAction::AbortTasks)
    );
    assert_eq!(
        bridge_step(BridgePhase::Running, BridgeEvent::OutboundEnded),
        (BridgePhase::Draining, BridgeAction::AbortTasks)
    );
}

#[test]
fn server_config_holds_the_bitrate() {
    let c = CanServerConfig { bitrate: Some(500_000) };
    assert_eq!(c.bitrate, Some(500_000));
    assert_eq!(CanServerConfig { bitrate: None }.bitrate, None);
}
