use win_can_utils::error::DriverError;
use win_can_utils::gs_usb::device::{
    bus_address, device_matches_identifier, eq_ignore_ascii_case, find_gs_usb_interface, is_gs_usb_device,
    names_index, read_product_label, select_device, AltSetting, DeviceSummary, EndpointDescriptor, InterfaceInfo,
};

fn ep(address: u8, attributes: u8, max_packet_size: u16) -> EndpointDescriptor {
    EndpointDescriptor { address, attributes, max_packet_size }
}

fn vendor_alt(alt: u8) -> AltSetting {
    AltSetting {
        interface_number: 1,
        alt_setting: alt,
        class: 0xFF,
        endpoints: vec![ep(0x83, 3, 8), ep(0x81, 2, 64), ep(0x02, 2, 32)],
    }
}

fn adapter(serial: &str, product: &str, bus: u8, address: u8) -> DeviceSummary {
    DeviceSummary {
        vendor_id: 0x1D50,
        product_id: 0x606F,
        alt_settings: vec![vendor_alt(0)],
        serial: Some(serial.as_bytes().to_vec()),
        product: Some(product.as_bytes().to_vec()),
        bus,
        address,
    }
}

#[test]
fn interface_scan_picks_first_vendor_setting_with_both_bulk_endpoints() {
    let alts = vec![
        AltSetting { interface_number: 0, alt_setting: 0, class: 0x02, endpoints: vec![ep(0x81, 2, 64), ep(0x01, 2, 64)] },
        AltSetting { interface_number: 1, alt_setting: 0, class: 0xFF, endpoints: vec![ep(0x81, 2, 64)] },
        vendor_alt(1),
        vendor_alt(2),
    ];
    assert_eq!(
        find_gs_usb_interface(&alts),
        Some(InterfaceInfo {
            interface: 1,
            alt_setting: 1,
            in_ep: 0x81,
            out_ep: 0x02,
            int_ep: Some(0x83),
            out_wmax: 32,
        })
    );
    assert_eq!(find_gs_usb_interface(&alts[..2].iter().map(|a| AltSetting {
        interface_number: a.interface_number,
        alt_setting: a.alt_setting,
        class: a.class,
        endpoints: a.endpoints.clone(),
    }).collect()), None);
    assert_eq!(find_gs_usb_interface(&Vec::new()), None);
}

#[test]
fn interface_scan_ignores_other_endpoint_kinds() {
    let alts = vec![AltSetting {
        interface_number: 3,
        alt_setting: 0,
        class: 0xFF,
        endpoints: vec![ep(0x03, 3, 8), ep(0x84, 1, 512), ep(0x85, 2, 16), ep(0x06, 2, 16)],
    }];
    assert_eq!(
        find_gs_usb_interface(&alts),
        Some(InterfaceInfo { interface: 3, alt_setting: 0, in_ep: 0x85, out_ep: 0x06, int_ep: None, out_wmax: 16 })
    );
}

#[test]
fn identifier_forms() {
    let serial = Some(b"ABC123".to_vec());
    let product = Some(b"candleLight USB".to_vec());
    assert!(device_matches_identifier(b"auto", 5, &None, &None, 1, 2));
    assert!(device_matches_identifier(b"  AuTo\n", 5, &None, &None, 1, 2));
    assert!(device_matches_identifier(b"5", 5, &None, &None, 1, 2));
    assert!(device_matches_identifier(b"005", 5, &None, &None, 1, 2));
    assert!(!device_matches_identifier(b"4", 5, &None, &None, 1, 2));
    assert!(!device_matches_identifier(b"99999999999999999999999999", 5, &None, &None, 1, 2));
    assert!(device_matches_identifier(b"abc123", 0, &serial, &product, 1, 2));
    assert!(device_matches_identifier(b"CANDLELIGHT usb", 0, &serial, &product, 1, 2));
    assert!(device_matches_identifier(b"001:002", 9, &serial, &product, 1, 2));
    assert!(!device_matches_identifier(b"1:2", 9, &serial, &product, 1, 2));
    assert!(!device_matches_identifier(b"", 9, &serial, &product, 1, 2));
    assert!(!device_matches_identifier(b"abc124", 0, &serial, &product, 1, 2));
}

#[test]
fn identifier_helpers() {
    assert!(eq_ignore_ascii_case(b"Hello-1", b"hELLO-1"));
    assert!(!eq_ignore_ascii_case(b"Hello", b"Hello "));
    assert!(!eq_ignore_ascii_case(b"@", b"`"));
    assert!(names_index(b"0", 0));
    assert!(names_index(b"12", 12));
    assert!(!names_index(b"", 0));
    assert!(!names_index(b"+1", 1));
    assert!(!names_index(b"1a", 1));
    assert_eq!(bus_address(1, 23), b"001:023".to_vec());
    assert_eq!(bus_address(255, 0), b"255:000".to_vec());
    assert!(is_gs_usb_device(0x1D50, 0x606F));
    assert!(!is_gs_usb_device(0x1D50, 0x606E));
}

#[test]
fn selection_counts_candidates_only() {
    let devices = vec![
        DeviceSummary {
            vendor_id: 0x1234,
            product_id: 0x5678,
            alt_settings: vec![vendor_alt(0)],
            serial: Some(b"two".to_vec()),
            product: None,
            bus: 1,
            address: 1,
        },
        DeviceSummary {
            vendor_id: 0x1D50,
            product_id: 0x606F,
            alt_settings: Vec::new(),
            serial: Some(b"two".to_vec()),
            product: None,
            bus: 1,
            address: 2,
        },
        adapter("one", "candle", 1, 3),
        adapter("two", "candle", 1, 4),
    ];
    assert_eq!(select_device(b"auto", &devices).unwrap().0, 2);
    assert_eq!(select_device(b"0", &devices).unwrap().0, 2);
    assert_eq!(select_device(b"1", &devices).unwrap().0, 3);
    assert_eq!(select_device(b" TWO ", &devices).unwrap().0, 3);
    assert_eq!(select_device(b"candle", &devices).unwrap().0, 2);
    assert_eq!(select_device(b"001:004", &devices).unwrap().0, 3);
    assert_eq!(select_device(b"2", &devices), Err(DriverError::DeviceAbsent));
    assert_eq!(select_device(b"001:001", &devices), Err(DriverError::DeviceAbsent));
    assert_eq!(select_device(b"auto", &Vec::new()), Err(DriverError::DeviceAbsent));
    let (_, info) = select_device(b"one", &devices).unwrap();
    assert_eq!(info.out_wmax, 32);
    assert_eq!(info.int_ep, Some(0x83));
}

#[test]
fn label_prefers_product_then_serial_then_ids() {
    let product = Some(b"candleLight".to_vec());
    let serial = Some(b"0042".to_vec());
    assert_eq!(read_product_label(&product, &serial, 0x1D50, 0x606F), b"candleLight".to_vec());
    assert_eq!(read_product_label(&None, &serial, 0x1D50, 0x606F), b"0042".to_vec());
    assert_eq!(read_product_label(&None, &None, 0x1D50, 0x606F), b"1d50:606f".to_vec());
    assert_eq!(read_product_label(&None, &None, 0x00AB, 0xFFFF), b"00ab:ffff".to_vec());
}
