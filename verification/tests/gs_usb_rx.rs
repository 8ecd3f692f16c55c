use win_can_utils::can::CanFrame;
use win_can_utils::gs_usb::driver::{ControlOut, UsbCommand};
use win_can_utils::gs_usb::event_loop::{RxRecovery, UsbEventLoop, WriteRecovery};
use win_can_utils::error::DriverError;
use win_can_utils::gs_usb::frames::{
    align_up, dlc_to_len, extend_timestamp, parse_host_frame_at, plausible_header, roundup8,
};

fn header(echo: u32, raw_id: u32, dlc: u8, chan: u8) -> Vec<u8> {
    let mut v = Vec::new();
    v.extend_from_slice(&echo.to_le_bytes());
    v.extend_from_slice(&raw_id.to_le_bytes());
    v.extend_from_slice(&[dlc, chan, 0, 0]);
    v
}

#[test]
fn dlc_to_len_table() {
    let expect = [0usize, 1, 2, 3, 4, 5, 6, 7, 8, 12, 16, 20, 24, 32, 48, 64];
    for dlc in 0u8..16 {
        assert_eq!(dlc_to_len(dlc), expect[dlc as usize]);
    }
    assert_eq!(dlc_to_len(16), 0);
    assert_eq!(dlc_to_len(255), 0);
}

#[test]
fn rounding_helpers() {
    assert_eq!(roundup8(0), 0);
    assert_eq!(roundup8(1), 8);
    assert_eq!(roundup8(8), 8);
    assert_eq!(roundup8(12), 16);
    assert_eq!(align_up(80, 32), 96);
    assert_eq!(align_up(64, 32), 64);
    assert_eq!(align_up(20, 0), 20);
    assert_eq!(align_up(20, 64), 64);
}

#[test]
fn plausible_header_checks_length_code_and_channel() {
    assert!(plausible_header(&header(0xFFFF_FFFF, 1, 8, 0), 0));
    assert!(!plausible_header(&header(0xFFFF_FFFF, 1, 16, 0), 0));
    assert!(!plausible_header(&header(0xFFFF_FFFF, 1, 8, 1), 0));
    assert!(!plausible_header(&[0u8; 11], 0));
}

#[test]
fn rx_standard_frame_with_three_bytes() {
    let bytes = [
        0xFF, 0xFF, 0xFF, 0xFF, 0x23, 0x01, 0x00, 0x00, 0x03, 0x00, 0x00, 0x00, 0xDE, 0xAD, 0xBE,
    ];
    let mut last = None;
    let (frame, consumed) = parse_host_frame_at(&bytes, 0, false, &mut last, 32, false).unwrap();
    let frame = frame.unwrap();
    assert_eq!(frame, CanFrame::new(0x123, &[0xDE, 0xAD, 0xBE]).unwrap());
    assert!(!frame.is_extended());
    assert_eq!(consumed, 15);
    assert_eq!(last, None);
}

#[test]
fn rx_echo_is_dropped_whole() {
    let bytes = [
        0x02, 0x00, 0x00, 0x00, 0x23, 0x01, 0x00, 0x00, 0x03, 0x00, 0x00, 0x00, 0xDE, 0xAD, 0xBE,
    ];
    let mut last = None;
    let (frame, consumed) = parse_host_frame_at(&bytes, 0, false, &mut last, 32, false).unwrap();
    assert!(frame.is_none());
    assert_eq!(consumed, 15);
}

#[test]
fn rx_full_classic_frame_takes_twenty_bytes() {
    let mut bytes = header(0xFFFF_FFFF, 0x123, 3, 0);
    bytes.extend_from_slice(&[1, 2, 3, 0, 0, 0, 0, 0, 0xAA, 0xBB]);
    let mut last = None;
    let (frame, consumed) = parse_host_frame_at(&bytes, 0, false, &mut last, 0, false).unwrap();
    assert_eq!(frame.unwrap().data(), &[1, 2, 3]);
    assert_eq!(consumed, 20);
}

#[test]
fn rx_dlc_zero_takes_twenty_bytes() {
    let mut bytes = header(0xFFFF_FFFF, 0x7FF, 0, 0);
    let mut last = None;
    assert!(parse_host_frame_at(&bytes, 0, false, &mut last, 32, false).is_none());
    bytes.extend_from_slice(&[0u8; 7]);
    assert!(parse_host_frame_at(&bytes, 0, false, &mut last, 32, false).is_none());
    bytes.push(0);
    bytes.extend_from_slice(&[0x55; 5]);
    let (frame, consumed) = parse_host_frame_at(&bytes, 0, false, &mut last, 32, false).unwrap();
    let frame = frame.unwrap();
    assert_eq!(frame.id(), 0x7FF);
    assert_eq!(frame.data().len(), 0);
    assert_eq!(consumed, 20);
}

#[test]
fn rx_dlc_fifteen_with_timestamp_and_padding_takes_ninety_six() {
    let mut bytes = header(0xFFFF_FFFF, 0x8000_0000 | 0x1ABCDE, 15, 0);
    let payload: Vec<u8> = (0u8..64).collect();
    bytes.extend_from_slice(&payload);
    bytes.extend_from_slice(&0x0102_0304u32.to_le_bytes());
    let mut last = None;
    assert!(parse_host_frame_at(&bytes, 0, true, &mut last, 32, true).is_none());
    bytes.extend_from_slice(&[0u8; 16]);
    let (frame, consumed) = parse_host_frame_at(&bytes, 0, true, &mut last, 32, true).unwrap();
    let frame = frame.unwrap();
    assert_eq!(consumed, 96);
    assert!(frame.is_extended());
    assert_eq!(frame.id(), 0x1ABCDE);
    assert_eq!(frame.dlc(), 15);
    assert_eq!(frame.data(), &payload[..]);
    assert_eq!(frame.timestamp(), Some(0x0102_0304));
    assert_eq!(last, Some(0x0102_0304));
}

#[test]
fn rx_short_header_waits() {
    let mut last = None;
    assert!(parse_host_frame_at(&[0u8; 11], 0, false, &mut last, 32, false).is_none());
}

#[test]
fn rx_bad_length_code_drops_one_byte() {
    let mut bytes = header(0xFFFF_FFFF, 1, 16, 0);
    bytes.extend_from_slice(&[0u8; 8]);
    let mut last = None;
    let (frame, consumed) = parse_host_frame_at(&bytes, 0, false, &mut last, 32, false).unwrap();
    assert!(frame.is_none());
    assert_eq!(consumed, 1);
}

#[test]
fn rx_other_channel_drops_one_byte() {
    let mut bytes = header(0xFFFF_FFFF, 1, 1, 3);
    bytes.extend_from_slice(&[0u8; 8]);
    let mut last = None;
    let (frame, consumed) = parse_host_frame_at(&bytes, 0, false, &mut last, 32, false).unwrap();
    assert!(frame.is_none());
    assert_eq!(consumed, 1);
}

#[test]
fn rx_waits_for_payload() {
    let mut bytes = header(0xFFFF_FFFF, 1, 4, 0);
    bytes.extend_from_slice(&[1, 2, 3]);
    let mut last = None;
    assert!(parse_host_frame_at(&bytes, 0, false, &mut last, 32, false).is_none());
}

#[test]
fn rx_classifies_by_flags() {
    let mut last = None;
    let mut rtr = header(0xFFFF_FFFF, 0x4000_0000 | 0x8000_0000 | 0x55, 15, 0);
    rtr.extend_from_slice(&[0u8; 64]);
    let (frame, _) = parse_host_frame_at(&rtr, 0, false, &mut last, 0, false).unwrap();
    assert_eq!(frame.unwrap(), CanFrame::new_remote(0x55, 8, true).unwrap());

    let mut err = header(0xFFFF_FFFF, 0x2000_0000 | 0x4000_0000 | 0x1234, 8, 0);
    err.extend_from_slice(&[9u8; 8]);
    let (frame, consumed) = parse_host_frame_at(&err, 0, false, &mut last, 0, false).unwrap();
    assert_eq!(frame.unwrap(), CanFrame::new_error(0x1234).unwrap());
    assert_eq!(consumed, 20);

    let mut std = header(0xFFFF_FFFF, 0x1FFF, 1, 0);
    std.extend_from_slice(&[7u8; 8]);
    let (frame, _) = parse_host_frame_at(&std, 0, false, &mut last, 0, false).unwrap();
    assert_eq!(frame.unwrap(), CanFrame::new(0x7FF, &[7]).unwrap());
}

#[test]
fn timestamp_extension_counts_wraps() {
    assert_eq!(extend_timestamp(None, 5), 5);
    assert_eq!(extend_timestamp(Some(10), 20), 20);
    assert_eq!(extend_timestamp(Some(0xFFFF_FFF0), 3), 0x1_0000_0003);
    assert_eq!(extend_timestamp(Some(0x1_0000_0003), 3), 0x1_0000_0003);
    assert_eq!(extend_timestamp(Some(0x5_0000_0010), 0xF), 0x6_0000_000F);
    assert_eq!(extend_timestamp(Some(0xFFFF_FFFF_0000_0001), 0), 0);
}

#[test]
fn timestamp_extension_is_monotone_over_a_wrapping_sequence() {
    let ticks: [u64; 7] = [1, 0xFFFF_FFFE, 0x1_0000_0005, 0x1_0000_0005, 0x1_F000_0000, 0x2_0000_0001, 0x2_FFFF_FFFF];
    let mut last: Option<u64> = None;
    for t in ticks {
        let out = extend_timestamp(last, t as u32);
        assert_eq!(out & 0xFFFF_FFFF, t & 0xFFFF_FFFF);
        assert_eq!(out, t);
        if let Some(prev) = last {
            assert!(out >= prev);
        }
        last = Some(out);
    }
}

#[test]
fn event_loop_hands_out_frames_in_order_and_keeps_the_tail() {
    let mut ev = UsbEventLoop::new(0, 0x81, 0x02, 32, false);
    let mut stream = header(0xFFFF_FFFF, 0x100, 1, 0);
    stream.extend_from_slice(&[0xAA, 0, 0, 0, 0, 0, 0, 0]);
    stream.extend_from_slice(&header(0x0000_0003, 0x200, 2, 0));
    stream.extend_from_slice(&[1, 2, 0, 0, 0, 0, 0, 0]);
    stream.extend_from_slice(&header(0xFFFF_FFFF, 0x300, 2, 0));
    stream.extend_from_slice(&[5, 6, 0, 0, 0, 0, 0, 0]);
    stream.extend_from_slice(&header(0xFFFF_FFFF, 0x400, 0, 0));
    let first = ev.process_rx_chunk(&stream[..30]);
    assert_eq!(first, vec![CanFrame::new(0x100, &[0xAA]).unwrap()]);
    let second = ev.process_rx_chunk(&stream[30..]);
    assert_eq!(second, vec![CanFrame::new(0x300, &[5, 6]).unwrap()]);
    let third = ev.process_rx_chunk(&[0u8; 8]);
    assert_eq!(third, vec![CanFrame::new(0x400, &[]).unwrap()]);
    assert!(ev.process_rx_chunk(&[]).is_empty());
}

#[test]
fn event_loop_resynchronises_after_garbage() {
    let mut ev = UsbEventLoop::new(0, 0x81, 0x02, 32, false);
    let mut stream = vec![0xEEu8; 3];
    stream.extend_from_slice(&header(0xFFFF_FFFF, 0x9F20_2055, 1, 0));
    stream.extend_from_slice(&[0x42, 0, 0, 0, 0, 0, 0, 0]);
    let frames = ev.process_rx_chunk(&stream);
    assert_eq!(frames, vec![CanFrame::new_eff(0x1F20_2055, &[0x42]).unwrap()]);
}

#[test]
fn event_loop_learns_from_commands() {
    let mut ev = UsbEventLoop::new(0, 0x81, 0x02, 32, false);
    assert_eq!(ev.rx_transfer_len(), 32);
    let ts = UsbCommand::ControlOut(ControlOut {
        request_type: 0x41,
        request: 0x06,
        value: 0,
        index: 0,
        data: vec![1, 0, 0, 0],
    });
    assert!(ev.handle_command(&ts));
    let start = UsbCommand::ControlOut(ControlOut {
        request_type: 0x41,
        request: 0x02,
        value: 1,
        index: 0,
        data: vec![1, 0, 0, 0, 0x90, 0, 0, 0],
    });
    assert!(ev.handle_command(&start));
    assert!(ev.handle_command(&UsbCommand::UpdateConfig { out_wmax: 4, pad_pkts_enabled: true }));
    assert_eq!(ev.rx_transfer_len(), 12);
    let (reset, restart) = ev.recover_after_stall();
    assert_eq!(reset.request, 0x02);
    assert_eq!(reset.value, 1);
    assert_eq!(reset.data, vec![0, 0, 0, 0, 0, 0, 0, 0]);
    assert_eq!(restart.data, vec![1, 0, 0, 0, 0x90, 0, 0, 0]);
    // A frame for channel 1 with a timestamp, padded to 4 bytes.
    let mut stream = header(0xFFFF_FFFF, 0x10, 1, 1);
    stream.extend_from_slice(&[9, 0, 0, 0, 0, 0, 0, 0]);
    stream.extend_from_slice(&77u32.to_le_bytes());
    let frames = ev.process_rx_chunk(&stream);
    assert_eq!(frames.len(), 1);
    assert_eq!(frames[0].timestamp(), Some(77));
    assert!(!ev.handle_command(&UsbCommand::Shutdown));
}

#[test]
fn event_loop_recovery_decisions() {
    assert_eq!(UsbEventLoop::handle_rx_completion(DriverError::DeviceAbsent), RxRecovery::Terminate);
    assert_eq!(UsbEventLoop::handle_rx_completion(DriverError::Stall), RxRecovery::ClearHaltAndResubmit);
    assert_eq!(UsbEventLoop::handle_rx_completion(DriverError::Timeout), RxRecovery::ClearHaltAndResubmit);
    assert_eq!(UsbEventLoop::bulk_write(DriverError::Stall), WriteRecovery { clear_halt: true, restart: true });
    assert_eq!(UsbEventLoop::bulk_write(DriverError::Timeout), WriteRecovery { clear_halt: true, restart: false });
    assert_eq!(UsbEventLoop::bulk_write(DriverError::Fatal), WriteRecovery { clear_halt: false, restart: false });
}

#[test]
fn conforming_stream_is_used_up() {
    // Three frames as an adapter sends them with timestamps on and padding to
    // 32 bytes: off the bus, a transmit confirmation, off the bus again with a
    // wrapped clock.
    let mut ev = UsbEventLoop::new(0, 0x81, 0x02, 32, true);
    let ts = UsbCommand::ControlOut(ControlOut {
        request_type: 0x41,
        request: 0x06,
        value: 0,
        index: 0,
        data: vec![1, 0, 0, 0],
    });
    ev.handle_command(&ts);
    let mut stream = Vec::new();
    for (echo, id, data, clock) in [
        (0xFFFF_FFFFu32, 0x101u32, vec![1u8, 2], 0xFFFF_FF00u32),
        (5, 0x102, vec![3], 0xFFFF_FF80),
        (0xFFFF_FFFF, 0x103, vec![], 0x0000_0010),
    ] {
        let mut wire = header(echo, id, data.len() as u8, 0);
        wire.extend_from_slice(&data);
        wire.resize(20, 0);
        wire.extend_from_slice(&clock.to_le_bytes());
        wire.resize(32, 0);
        stream.extend_from_slice(&wire);
    }
    let mut frames = Vec::new();
    for chunk in stream.chunks(7) {
        frames.extend(ev.process_rx_chunk(chunk));
    }
    let mut first = CanFrame::new(0x101, &[1, 2]).unwrap();
    first.set_timestamp(Some(0xFFFF_FF00));
    let mut last = CanFrame::new(0x103, &[]).unwrap();
    last.set_timestamp(Some(0x1_0000_0010));
    assert_eq!(frames, vec![first, last]);
    // Nothing is left over: a further frame is read from its first byte.
    let mut wire = header(0xFFFF_FFFF, 0x104, 0, 0);
    wire.resize(20, 0);
    wire.extend_from_slice(&0x20u32.to_le_bytes());
    wire.resize(32, 0);
    let more = ev.process_rx_chunk(&wire);
    assert_eq!(more.len(), 1);
    assert_eq!(more[0].id(), 0x104);
    assert_eq!(more[0].timestamp(), Some(0x1_0000_0020));
}
