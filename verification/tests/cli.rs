use win_can_utils::can::CanFrame;
use win_can_utils::cli::{
    is_hex, parse_cansend_frame, parse_filter, parse_hex, Args, Filter, FilterError, InterfaceSpec, TimestampCtx,
    TimestampMode,
};
use win_can_utils::hex::parse_hex_plain;

#[test]
fn timestamp_mode_letters() {
    assert_eq!(TimestampMode::from_char('a'), Some(TimestampMode::Absolute));
    assert_eq!(TimestampMode::from_char('A'), Some(TimestampMode::AbsoluteDate));
    assert_eq!(TimestampMode::from_char('d'), Some(TimestampMode::Delta));
    assert_eq!(TimestampMode::from_char('z'), Some(TimestampMode::Zero));
    assert_eq!(TimestampMode::from_char('D'), None);
    assert_eq!(TimestampMode::from_char('x'), None);
}

#[test]
fn timestamp_context_modes() {
    let mut frame = CanFrame::new(1, &[]).unwrap();
    let mut hw = TimestampCtx::new(TimestampMode::Delta, true, 100);
    assert_eq!(hw.get_timestamp(&frame, 150, 7), Some(0));
    frame.set_timestamp(Some(42));
    assert_eq!(hw.get_timestamp(&frame, 150, 7), Some(42));
    assert_eq!(hw.last_instant, None);

    let mut off = TimestampCtx::new(TimestampMode::Off, false, 100);
    assert_eq!(off.get_timestamp(&frame, 150, 7), None);
    let mut abs = TimestampCtx::new(TimestampMode::Absolute, false, 100);
    assert_eq!(abs.get_timestamp(&frame, 150, 1_700_000_000_000_000), Some(1_700_000_000_000_000));
    let mut date = TimestampCtx::new(TimestampMode::AbsoluteDate, false, 100);
    assert_eq!(date.get_timestamp(&frame, 150, 9), Some(9));

    let mut delta = TimestampCtx::new(TimestampMode::Delta, false, 100);
    assert_eq!(delta.get_timestamp(&frame, 150, 7), Some(0));
    assert_eq!(delta.get_timestamp(&frame, 175, 7), Some(25));
    assert_eq!(delta.get_timestamp(&frame, 170, 7), Some(0));
    assert_eq!(delta.last_instant, Some(170));

    let mut zero = TimestampCtx::new(TimestampMode::Zero, false, 100);
    assert_eq!(zero.get_timestamp(&frame, 150, 7), Some(50));
    assert_eq!(zero.get_timestamp(&frame, 90, 7), Some(0));
    assert_eq!(zero.start_instant, 100);
    assert_eq!(zero.last_instant, None);
}

#[test]
fn hex_numbers() {
    assert_eq!(parse_hex(b"1F"), Some(0x1F));
    assert_eq!(parse_hex(b"0x1f"), Some(0x1F));
    assert_eq!(parse_hex(b"0XFFFFFFFF"), Some(0xFFFF_FFFF));
    assert_eq!(parse_hex(b"0000000000001"), Some(1));
    assert_eq!(parse_hex(b"100000000"), None);
    assert_eq!(parse_hex(b""), None);
    assert_eq!(parse_hex(b"0x"), None);
    assert_eq!(parse_hex(b"12g"), None);
    assert_eq!(parse_hex(b"0"), Some(0));
    assert_eq!(parse_hex_plain(b"0x10"), None);
    assert_eq!(parse_hex_plain(b"7ff"), Some(0x7FF));
    assert!(is_hex(b"09afAF"));
    assert!(is_hex(b""));
    assert!(!is_hex(b"0x1"));
}

#[test]
fn filter_tokens() {
    assert_eq!(parse_filter(b""), Ok(None));
    assert_eq!(parse_filter(b"j"), Ok(Some(Filter::Join)));
    assert_eq!(parse_filter(b"J"), Ok(Some(Filter::Join)));
    assert_eq!(parse_filter(b"123:7FF"), Ok(Some(Filter::Match { id: 0x123, mask: 0x7FF })));
    assert_eq!(parse_filter(b"0x123~0x7ff"), Ok(Some(Filter::NotMatch { id: 0x123, mask: 0x7FF })));
    assert_eq!(parse_filter(b"#FF"), Ok(Some(Filter::ErrorMask(0xFF))));
    assert_eq!(parse_filter(b"12345678"), Ok(Some(Filter::Match { id: 0x1234_5678, mask: 0xFFFF_FFFF })));
    assert_eq!(parse_filter(b"#"), Err(FilterError::InvalidErrorMask));
    assert_eq!(parse_filter(b"#zz"), Err(FilterError::InvalidErrorMask));
    assert_eq!(parse_filter(b"x:1"), Err(FilterError::InvalidId));
    assert_eq!(parse_filter(b"1:x"), Err(FilterError::InvalidMask));
    assert_eq!(parse_filter(b"1:2:3"), Err(FilterError::InvalidMask));
    assert_eq!(parse_filter(b"1~"), Err(FilterError::InvalidMask));
    assert_eq!(parse_filter(b"1~2:3"), Err(FilterError::InvalidId));
    assert_eq!(parse_filter(b"123456789"), Err(FilterError::InvalidId));
    assert_eq!(parse_filter(b"0x12"), Err(FilterError::Unrecognized));
    assert_eq!(parse_filter(b"hello"), Err(FilterError::Unrecognized));
}

#[test]
fn interface_specs() {
    assert_eq!(
        InterfaceSpec::parse(b"can0"),
        Ok(InterfaceSpec { ifname: b"can0".to_vec(), filters: vec![] })
    );
    assert_eq!(
        InterfaceSpec::parse(b"can1,123:7FF, j ,,#1F,7~F"),
        Ok(InterfaceSpec {
            ifname: b"can1".to_vec(),
            filters: vec![
                Filter::Match { id: 0x123, mask: 0x7FF },
                Filter::Join,
                Filter::ErrorMask(0x1F),
                Filter::NotMatch { id: 7, mask: 0xF },
            ],
        })
    );
    assert_eq!(InterfaceSpec::parse(b"can0,"), Ok(InterfaceSpec { ifname: b"can0".to_vec(), filters: vec![] }));
    assert_eq!(InterfaceSpec::parse(b""), Ok(InterfaceSpec { ifname: vec![], filters: vec![] }));
    assert_eq!(InterfaceSpec::parse(b"can0,12:34,what,#"), Err(FilterError::Unrecognized));
    assert_eq!(InterfaceSpec::parse(b"can0,#,what"), Err(FilterError::InvalidErrorMask));
}

#[test]
fn cansend_frames() {
    assert_eq!(parse_cansend_frame(b"123#11223344"), Some(CanFrame::new(0x123, &[0x11, 0x22, 0x33, 0x44]).unwrap()));
    assert_eq!(parse_cansend_frame(b"1ABCDEFC#11AA22"), Some(CanFrame::new_eff(0x1ABC_DEFC, &[0x11, 0xAA, 0x22]).unwrap()));
    assert_eq!(parse_cansend_frame(b"7FF#"), Some(CanFrame::new(0x7FF, &[]).unwrap()));
    assert_eq!(parse_cansend_frame(b"800#"), Some(CanFrame::new_eff(0x800, &[]).unwrap()));
    assert_eq!(parse_cansend_frame(b"123"), None);
    assert_eq!(parse_cansend_frame(b"123#11#22"), None);
    assert_eq!(parse_cansend_frame(b"#1122"), None);
    assert_eq!(parse_cansend_frame(b"123#112"), None);
    assert_eq!(parse_cansend_frame(b"123#11zz"), None);
    assert_eq!(parse_cansend_frame(b"20000000#11"), None);
    assert_eq!(parse_cansend_frame(b"123#112233445566778899"), None);
    assert_eq!(parse_cansend_frame(b"0x123#11"), None);
}

#[test]
fn dump_options_hold_what_was_given() {
    let args = Args {
        timestamp: Some('d'),
        hardware_ts: false,
        color_level: 0,
        binary_output: false,
        ascii: false,
        swap_bytes: false,
        silent_level: None,
        log: false,
        logfile: None,
        stdout_logformat: false,
        count: None,
        rcv_buf: None,
        dont_exit_on_down: false,
        monitor_drops: false,
        show_error_frames: false,
        raw_dlc: false,
        extra_infos: false,
        timeout_ms: None,
        interfaces: vec!["can0,123:7FF".to_string()],
    };
    let mode = args.timestamp.and_then(TimestampMode::from_char).unwrap_or(TimestampMode::Off);
    assert_eq!(mode, TimestampMode::Delta);
    let spec = InterfaceSpec::parse(args.interfaces[0].as_bytes()).unwrap();
    assert_eq!(spec.ifname, b"can0".to_vec());
    assert_eq!(spec.filters.len(), 1);
}
