use win_can_utils::can::{len_to_dlc, CanFrame, FrameError};

#[test]
fn standard_frame_keeps_its_fields() {
    let f = CanFrame::new(0x123, &[1, 2, 3]).unwrap();
    assert_eq!(f.id(), 0x123);
    assert!(!f.is_extended());
    assert!(!f.is_rtr());
    assert!(!f.is_error());
    assert_eq!(f.dlc(), 3);
    assert_eq!(f.data(), &[1, 2, 3]);
    assert_eq!(f.timestamp(), None);
}

#[test]
fn standard_frame_rejects_wide_id() {
    assert_eq!(CanFrame::new(0x800, &[]), Err(FrameError::InvalidId));
    assert!(CanFrame::new(0x7FF, &[]).is_ok());
}

#[test]
fn extended_frame_rejects_id_above_29_bits() {
    assert_eq!(CanFrame::new_eff(0x2000_0000, &[]), Err(FrameError::InvalidId));
    let f = CanFrame::new_eff(0x1FFF_FFFF, &[9]).unwrap();
    assert!(f.is_extended());
    assert_eq!(f.id(), 0x1FFF_FFFF);
}

#[test]
fn frame_rejects_length_without_code() {
    assert_eq!(CanFrame::new(1, &[0u8; 9]), Err(FrameError::InvalidLength));
    assert_eq!(CanFrame::new_eff(1, &[0u8; 63]), Err(FrameError::InvalidLength));
    assert_eq!(CanFrame::new(1, &[0u8; 12]).unwrap().dlc(), 9);
    assert_eq!(CanFrame::new(1, &[0u8; 64]).unwrap().dlc(), 15);
}

#[test]
fn remote_frame_has_zero_payload_of_requested_length() {
    let f = CanFrame::new_remote(0x42, 4, false).unwrap();
    assert!(f.is_rtr());
    assert_eq!(f.dlc(), 4);
    assert_eq!(f.data(), &[0, 0, 0, 0]);
    assert_eq!(CanFrame::new_remote(0x42, 9, false), Err(FrameError::InvalidLength));
    assert_eq!(CanFrame::new_remote(0x800, 1, false), Err(FrameError::InvalidId));
    assert!(CanFrame::new_remote(0x800, 1, true).is_ok());
}

#[test]
fn error_frame_is_empty() {
    let f = CanFrame::new_error(0x1234).unwrap();
    assert!(f.is_error());
    assert!(!f.is_extended());
    assert_eq!(f.dlc(), 0);
    assert_eq!(f.data().len(), 0);
    assert_eq!(CanFrame::new_error(0x2000_0000), Err(FrameError::InvalidId));
}

#[test]
fn set_timestamp_changes_only_the_timestamp() {
    let mut f = CanFrame::new(0x10, &[7]).unwrap();
    f.set_timestamp(Some(99));
    assert_eq!(f.timestamp(), Some(99));
    assert_eq!(f.id(), 0x10);
    assert_eq!(f.data(), &[7]);
}

#[test]
fn length_codes_cover_the_fd_lengths() {
    let lens = [0usize, 1, 2, 3, 4, 5, 6, 7, 8, 12, 16, 20, 24, 32, 48, 64];
    for (code, len) in lens.iter().enumerate() {
        assert_eq!(len_to_dlc(*len), Some(code as u8));
    }
    assert_eq!(len_to_dlc(9), None);
    assert_eq!(len_to_dlc(65), None);
}
