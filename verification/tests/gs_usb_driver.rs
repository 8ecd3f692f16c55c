use win_can_utils::can::CanFrame;
use win_can_utils::error::DriverError;
use win_can_utils::gs_usb::bit_timing::GsDeviceBitTiming;
use win_can_utils::gs_usb::constants::{duration_to_timeout, request_type_in, request_type_out};
use win_can_utils::gs_usb::context::{map_libusb_error, map_transfer_status};
use win_can_utils::gs_usb::device::InterfaceInfo;
use win_can_utils::gs_usb::driver::{
    has_flag, mode_request, ControlIn, GsUsbDriver, HandshakePhase, Transfer, TransferResult, TxStep, UsbCommand,
    WriteOutcome,
};
use win_can_utils::gs_usb::frames::parse_host_frame_at;

fn info() -> InterfaceInfo {
    InterfaceInfo { interface: 2, alt_setting: 0, in_ep: 0x81, out_ep: 0x02, int_ep: None, out_wmax: 32 }
}

fn bt_const_reply(feature: u32) -> Vec<u8> {
    let mut b = Vec::new();
    for w in [feature, 48_000_000, 1, 16, 1, 8, 4, 1, 1024, 1] {
        b.extend_from_slice(&w.to_le_bytes());
    }
    b
}

fn negotiated(feature: u32) -> GsUsbDriver {
    let mut d = GsUsbDriver::open(info(), b"candleLight".to_vec());
    assert_eq!(d.accept_bt_const(true, Some(&bt_const_reply(feature))), Ok(true));
    d.read_features(Some(feature));
    d
}

#[test]
fn request_types_and_timeouts() {
    assert_eq!(request_type_out(), 0x41);
    assert_eq!(request_type_in(), 0xC1);
    assert_eq!(duration_to_timeout(0, 0), 0);
    assert_eq!(duration_to_timeout(0, 999_999), 1);
    assert_eq!(duration_to_timeout(0, 100_000_000), 100);
    assert_eq!(duration_to_timeout(2, 500_000_000), 2500);
    assert_eq!(duration_to_timeout(5_000_000, 0), u32::MAX);
    assert_eq!(duration_to_timeout(u64::MAX, 999_999_999), u32::MAX);
}

#[test]
fn handshake_requests() {
    let d = GsUsbDriver::open(info(), b"label".to_vec());
    assert_eq!(d.device_label(), &b"label".to_vec());
    let hf = d.send_host_format();
    assert_eq!((hf.request_type, hf.request, hf.value, hf.index), (0x41, 0x00, 1, 2));
    assert_eq!(hf.data, vec![0xEF, 0xBE, 0x00, 0x00]);
    assert_eq!(GsUsbDriver::check_host_format(4), Ok(()));
    assert_eq!(GsUsbDriver::check_host_format(3), Err(DriverError::Protocol));
    assert_eq!(
        d.read_bt_const(true),
        ControlIn { request_type: 0xC1, request: 0x0B, value: 0, index: 2, len: 52 }
    );
    assert_eq!(
        d.read_bt_const(false),
        ControlIn { request_type: 0xC1, request: 0x04, value: 0, index: 2, len: 40 }
    );
    assert_eq!(
        d.read_device_config(),
        ControlIn { request_type: 0xC1, request: 0x05, value: 1, index: 2, len: 8 }
    );
    assert_eq!(GsUsbDriver::check_device_config(&[1, 2, 3]), Err(DriverError::Protocol));
    assert_eq!(GsUsbDriver::check_device_config(&[1, 2, 3, 4]), Ok(vec![1, 2, 3, 4, 0, 0, 0, 0]));
    assert_eq!(
        GsUsbDriver::check_device_config(&[1, 2, 3, 4, 5, 6, 7, 8, 9]),
        Ok(vec![1, 2, 3, 4, 5, 6, 7, 8])
    );
    assert_eq!(GsUsbDriver::features_from_ext(&[0x90, 1, 0, 0, 7]), Some(0x190));
    assert_eq!(GsUsbDriver::features_from_ext(&[1, 2, 3]), None);
    assert_eq!(GsUsbDriver::features_from_plain(&[0x80, 0, 0, 0]), Ok(0x80));
    assert_eq!(GsUsbDriver::features_from_plain(&[0x80, 0, 0, 0, 0]), Err(DriverError::Protocol));
}

#[test]
fn short_extended_constants_fall_back() {
    let mut d = GsUsbDriver::open(info(), Vec::new());
    assert_eq!(d.accept_bt_const(true, Some(&[0u8; 39])), Ok(false));
    assert_eq!(d.accept_bt_const(true, None), Ok(false));
    assert_eq!(d.set_bitrate(500_000).unwrap_err(), DriverError::Protocol);
    assert_eq!(d.accept_bt_const(false, Some(&[0u8; 39])), Err(DriverError::Protocol));
    assert_eq!(d.accept_bt_const(false, None), Err(DriverError::Protocol));
    assert_eq!(d.accept_bt_const(false, Some(&bt_const_reply(0))), Ok(true));
    assert!(d.set_bitrate(500_000).is_ok());
}

#[test]
fn bitrate_program_is_reset_then_timing() {
    let mut d = negotiated(0);
    let (reset, timing) = d.set_bitrate(500_000).unwrap();
    assert_eq!((reset.request, reset.value, reset.index), (0x02, 0, 2));
    assert_eq!(reset.data, vec![0u8; 8]);
    assert_eq!((timing.request_type, timing.request, timing.value, timing.index), (0x41, 0x01, 0, 2));
    let expect = GsDeviceBitTiming { prop_seg: 7, phase_seg1: 6, phase_seg2: 2, sjw: 2, brp: 6 };
    assert_eq!(timing.data, expect.to_bytes());
    assert_eq!(d.get_bitrate(), None);
    d.bitrate_programmed(500_000);
    assert_eq!(d.get_bitrate(), Some(500_000));
    assert_eq!(d.set_bitrate(1).unwrap_err(), DriverError::InvalidInput);
}

#[test]
fn open_needs_a_bitrate() {
    let mut d = negotiated(0x90);
    assert_eq!(d.open_channel().unwrap_err(), DriverError::InvalidInput);
    assert_eq!(d.open_listen_only().unwrap_err(), DriverError::InvalidInput);
    assert!(!d.is_open());
}

#[test]
fn open_flags_follow_negotiation() {
    let mut d = negotiated(0x90);
    d.bitrate_programmed(250_000);
    let (reset, start) = d.open_channel().unwrap();
    assert_eq!(reset.data, vec![0u8; 8]);
    assert_eq!(start.data, vec![1, 0, 0, 0, 0x80, 0, 0, 0]);
    let ts = d.enable_timestamp();
    assert_eq!((ts.request, ts.value, ts.index), (0x06, 0, 2));
    assert_eq!(ts.data, vec![1, 0, 0, 0]);
    let (_, start) = d.open_channel().unwrap();
    assert_eq!(start.data, vec![1, 0, 0, 0, 0x90, 0, 0, 0]);
    let (_, start) = d.open_listen_only().unwrap();
    assert_eq!(start.data, vec![1, 0, 0, 0, 0x91, 0, 0, 0]);

    let mut plain = negotiated(0);
    plain.bitrate_programmed(250_000);
    let (_, start) = plain.open_channel().unwrap();
    assert_eq!(start.data, vec![1, 0, 0, 0, 0, 0, 0, 0]);
}

#[test]
fn close_twice_asks_the_same() {
    let mut d = negotiated(0);
    d.bitrate_programmed(125_000);
    assert!(d.open_channel().is_ok());
    assert!(d.is_open());
    let a = d.close_channel();
    assert!(!d.is_open());
    let b = d.close_channel();
    assert!(!d.is_open());
    assert_eq!(d.get_bitrate(), Some(125_000));
    assert_eq!(a, b);
    assert_eq!(a, mode_request(0, 2, 0, 0));
    assert_eq!(a.data, vec![0u8; 8]);
}

#[test]
fn read_features_sets_padding_and_tells_the_loop() {
    let mut d = GsUsbDriver::open(info(), Vec::new());
    assert_eq!(d.read_features(Some(0x80)), UsbCommand::UpdateConfig { out_wmax: 32, pad_pkts_enabled: true });
    assert_eq!(d.read_features(None), UsbCommand::UpdateConfig { out_wmax: 32, pad_pkts_enabled: false });
    assert!(has_flag(0x190, 0x100));
    assert!(!has_flag(0x090, 0x100));
}

#[test]
fn classic_tx_layout() {
    let mut d = negotiated(0);
    let f = CanFrame::new_eff(0x1234_5678 & 0x1FFF_FFFF, &[1, 2, 3]).unwrap();
    let buf = d.send_frame(&f);
    assert_eq!(
        buf,
        vec![0, 0, 0, 0, 0x78, 0x56, 0x34, 0x92, 3, 0, 0, 0, 1, 2, 3, 0, 0, 0, 0, 0]
    );
    let g = CanFrame::new_remote(0x7FF, 2, false).unwrap();
    let buf = d.send_frame(&g);
    assert_eq!(&buf[..12], &[1, 0, 0, 0, 0xFF, 0x07, 0x00, 0x40, 2, 0, 0, 0]);
    let e = CanFrame::new_error(0x1FFF).unwrap();
    let buf = d.encode_frame_minimal(&e);
    assert_eq!(&buf[..12], &[2, 0, 0, 0, 0xFF, 0x07, 0x00, 0x20, 0, 0, 0, 0]);
}

#[test]
fn echo_id_rotates_modulo_sixteen() {
    let mut d = negotiated(0);
    let f = CanFrame::new(1, &[]).unwrap();
    for k in 0u32..40 {
        let buf = d.send_frame(&f);
        assert_eq!(u32::from_le_bytes([buf[0], buf[1], buf[2], buf[3]]), k % 16);
    }
}

#[test]
fn fd_capable_adapter_uses_the_long_layout() {
    let mut d = negotiated(0x100);
    let payload: Vec<u8> = (1u8..=12).collect();
    let f = CanFrame::new(0x55, &payload).unwrap();
    let buf = d.send_frame(&f);
    assert_eq!(buf.len(), 76);
    assert_eq!(buf[8], 9);
    assert_eq!(&buf[12..24], &payload[..]);
    assert!(buf[24..].iter().all(|b| *b == 0));
    assert_eq!(d.encode_frame_tx_76(&f).len(), 76);
}

#[test]
fn padding_rounds_up_to_the_packet_size() {
    let mut d = negotiated(0x80);
    let f = CanFrame::new(0x55, &[1]).unwrap();
    let buf = d.send_frame(&f);
    assert_eq!(buf.len(), 32);
    assert_eq!(buf[12], 1);
    assert!(buf[13..].iter().all(|b| *b == 0));
    let mut both = negotiated(0x180);
    assert_eq!(both.send_frame(&f).len(), 96);
    assert_eq!(d.maybe_pad_tx(vec![7u8; 32]), vec![7u8; 32]);
    assert_eq!(d.maybe_pad_tx(vec![7u8; 33]).len(), 64);
}

#[test]
fn stall_on_padded_write_retries_once_unpadded() {
    let mut d = negotiated(0x80);
    d.bitrate_programmed(500_000);
    let f = CanFrame::new(0x55, &[1, 2]).unwrap();
    let first = d.send_frame(&f);
    assert_eq!(first.len(), 32);
    let step = d.try_tx(&f, first.len(), WriteOutcome::Failed(DriverError::Stall));
    let retry = match step {
        TxStep::Retry(bytes) => bytes,
        other => panic!("expected a retry, got {:?}", other),
    };
    assert_eq!(retry.len(), 20);
    assert_eq!(&retry[4..], &first[4..20]);
    assert_eq!(GsUsbDriver::retry_result(retry.len(), WriteOutcome::Written(20)), Ok(()));
    // Padding stays off: the next frame is bare and the start flags lose the bit.
    assert_eq!(d.send_frame(&f).len(), 20);
    let (_, start) = d.open_channel().unwrap();
    assert_eq!(start.data, vec![1, 0, 0, 0, 0, 0, 0, 0]);
    // A second stall is an error.
    assert_eq!(
        d.try_tx(&f, 20, WriteOutcome::Failed(DriverError::Stall)),
        TxStep::Failed(DriverError::Stall)
    );
}

#[test]
fn other_write_outcomes() {
    let mut d = negotiated(0x80);
    let f = CanFrame::new(0x55, &[1, 2]).unwrap();
    assert_eq!(d.try_tx(&f, 32, WriteOutcome::Written(32)), TxStep::Done);
    assert_eq!(d.try_tx(&f, 32, WriteOutcome::Written(20)), TxStep::Failed(DriverError::Protocol));
    assert_eq!(
        d.try_tx(&f, 32, WriteOutcome::Failed(DriverError::Timeout)),
        TxStep::Failed(DriverError::Timeout)
    );
    assert_eq!(d.send_frame(&f).len(), 32);
    assert_eq!(
        GsUsbDriver::retry_result(20, WriteOutcome::Written(19)),
        Err(DriverError::Protocol)
    );
    assert_eq!(
        GsUsbDriver::retry_result(20, WriteOutcome::Failed(DriverError::Stall)),
        Err(DriverError::Stall)
    );
}

#[test]
fn transmit_encoding_reads_back_as_the_frame() {
    let frames = [
        CanFrame::new(0x123, &[1, 2, 3]).unwrap(),
        CanFrame::new(0x7FF, &[]).unwrap(),
        CanFrame::new_eff(0x1FFF_FFFF, &[8, 7, 6, 5, 4, 3, 2, 1]).unwrap(),
        CanFrame::new_remote(0x10, 5, false).unwrap(),
        CanFrame::new_remote(0x10_0000, 0, true).unwrap(),
        CanFrame::new_error(0x7FF).unwrap(),
    ];
    for f in frames {
        let mut d = negotiated(0);
        let mut wire = d.encode_frame_minimal(&f);
        let mut last = None;
        // As sent it is a transmit confirmation and is skipped whole.
        let (echo, consumed) = parse_host_frame_at(&wire, 0, false, &mut last, 32, false).unwrap();
        assert!(echo.is_none());
        assert_eq!(consumed, 20);
        // As the adapter hands it back from the bus it is the frame.
        wire[..4].copy_from_slice(&[0xFF; 4]);
        let (frame, consumed) = parse_host_frame_at(&wire, 0, false, &mut last, 32, false).unwrap();
        assert_eq!(frame, Some(f));
        assert_eq!(consumed, 20);
    }
    let long = CanFrame::new_eff(0x1, &[0xAB; 64]).unwrap();
    let mut d = negotiated(0x100);
    let mut wire = d.encode_frame_tx_76(&long);
    wire[..4].copy_from_slice(&[0xFF; 4]);
    let mut last = None;
    let (frame, consumed) = parse_host_frame_at(&wire, 0, false, &mut last, 32, false).unwrap();
    assert_eq!(frame, Some(long));
    assert_eq!(consumed, 76);
}

#[test]
fn usb_error_codes() {
    assert_eq!(map_libusb_error(-7), DriverError::Timeout);
    assert_eq!(map_libusb_error(-9), DriverError::Stall);
    assert_eq!(map_libusb_error(-4), DriverError::DeviceAbsent);
    assert_eq!(map_libusb_error(-5), DriverError::NotFound);
    assert_eq!(map_libusb_error(-10), DriverError::Interrupted);
    assert_eq!(map_libusb_error(-1), DriverError::Fatal);
    assert_eq!(map_libusb_error(-99), DriverError::Fatal);
    assert_eq!(map_transfer_status(2), DriverError::Timeout);
    assert_eq!(map_transfer_status(4), DriverError::Stall);
    assert_eq!(map_transfer_status(5), DriverError::DeviceAbsent);
    assert_eq!(map_transfer_status(3), DriverError::Interrupted);
    assert_eq!(map_transfer_status(1), DriverError::Fatal);
    assert_eq!(map_transfer_status(6), DriverError::Fatal);
}

#[test]
fn handshake_with_extended_constants() {
    let mut d = GsUsbDriver::open(info(), Vec::new());
    assert_eq!(GsUsbDriver::host_config_bytes(), vec![0xEF, 0xBE, 0, 0]);
    match d.handshake_request(HandshakePhase::HostFormat) {
        Some(Transfer::Out(c)) => assert_eq!(c, d.send_host_format()),
        other => panic!("unexpected {:?}", other),
    }
    let mut phase = d.handshake_step(HandshakePhase::HostFormat, &TransferResult::Written(4)).unwrap();
    assert_eq!(phase, HandshakePhase::BtConstExt);
    assert_eq!(d.handshake_request(phase), Some(Transfer::In(d.read_bt_const(true))));
    let mut reply = bt_const_reply(0x190);
    reply.extend_from_slice(&[0u8; 12]);
    phase = d.handshake_step(phase, &TransferResult::Read(reply.clone())).unwrap();
    assert_eq!(phase, HandshakePhase::DeviceConfig);
    assert_eq!(d.handshake_request(phase), Some(Transfer::In(d.read_device_config())));
    phase = d.handshake_step(phase, &TransferResult::Read(vec![0u8; 8])).unwrap();
    assert_eq!(phase, HandshakePhase::FeaturesExt);
    phase = d.handshake_step(phase, &TransferResult::Read(reply)).unwrap();
    assert_eq!(phase, HandshakePhase::Done);
    assert_eq!(d.handshake_request(phase), None);
    assert_eq!(d.config_update(), UsbCommand::UpdateConfig { out_wmax: 32, pad_pkts_enabled: true });
    assert_eq!(d.send_frame(&CanFrame::new(1, &[]).unwrap()).len(), 96);
}

#[test]
fn handshake_falls_back_to_plain_requests() {
    let mut d = GsUsbDriver::open(info(), Vec::new());
    let mut phase = d.handshake_step(HandshakePhase::HostFormat, &TransferResult::Written(4)).unwrap();
    phase = d.handshake_step(phase, &TransferResult::Failed(DriverError::Stall)).unwrap();
    assert_eq!(phase, HandshakePhase::BtConst);
    assert_eq!(d.handshake_request(phase), Some(Transfer::In(d.read_bt_const(false))));
    phase = d.handshake_step(phase, &TransferResult::Read(bt_const_reply(0x80))).unwrap();
    assert_eq!(phase, HandshakePhase::DeviceConfig);
    phase = d.handshake_step(phase, &TransferResult::Read(vec![1, 2, 3, 4])).unwrap();
    phase = d.handshake_step(phase, &TransferResult::Read(vec![1, 2, 3])).unwrap();
    assert_eq!(phase, HandshakePhase::FeaturesPlain);
    assert_eq!(
        d.handshake_request(phase),
        Some(Transfer::In(ControlIn { request_type: 0xC1, request: 0x04, value: 0, index: 2, len: 4 }))
    );
    phase = d.handshake_step(phase, &TransferResult::Read(vec![0x80, 0, 0, 0])).unwrap();
    assert_eq!(phase, HandshakePhase::Done);
    assert_eq!(d.config_update(), UsbCommand::UpdateConfig { out_wmax: 32, pad_pkts_enabled: true });

    let mut none = GsUsbDriver::open(info(), Vec::new());
    assert_eq!(
        none.handshake_step(HandshakePhase::FeaturesPlain, &TransferResult::Failed(DriverError::Timeout)),
        Ok(HandshakePhase::Done)
    );
    assert_eq!(none.config_update(), UsbCommand::UpdateConfig { out_wmax: 32, pad_pkts_enabled: false });
}

#[test]
fn handshake_failures() {
    let mut d = GsUsbDriver::open(info(), Vec::new());
    assert_eq!(
        d.handshake_step(HandshakePhase::HostFormat, &TransferResult::Written(2)),
        Err(DriverError::Protocol)
    );
    assert_eq!(
        d.handshake_step(HandshakePhase::HostFormat, &TransferResult::Failed(DriverError::DeviceAbsent)),
        Err(DriverError::DeviceAbsent)
    );
    assert_eq!(
        d.handshake_step(HandshakePhase::BtConst, &TransferResult::Read(vec![0u8; 39])),
        Err(DriverError::Protocol)
    );
    assert_eq!(
        d.handshake_step(HandshakePhase::BtConst, &TransferResult::Failed(DriverError::Timeout)),
        Err(DriverError::Timeout)
    );
    assert_eq!(
        d.handshake_step(HandshakePhase::DeviceConfig, &TransferResult::Read(vec![0u8; 3])),
        Err(DriverError::Protocol)
    );
    assert_eq!(
        d.handshake_step(HandshakePhase::DeviceConfig, &TransferResult::Failed(DriverError::Stall)),
        Err(DriverError::Stall)
    );
    assert_eq!(d.set_bitrate(500_000).unwrap_err(), DriverError::Protocol);
}
