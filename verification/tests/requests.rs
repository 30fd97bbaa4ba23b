use rust_usb::{ControlSetup, Direction, EndpointInfo, TransferType, UsbError};
use windows_core::{Error, HRESULT};

#[test]
fn get_descriptor_request() {
    let s = ControlSetup::get_descriptor(0x03, 0x02, 0x0409, 255);
    assert_eq!(s.request_type, 0x80);
    assert_eq!(s.request, 0x06);
    assert_eq!(s.value, 0x0302);
    assert_eq!(s.index, 0x0409);
    assert_eq!(s.length, 255);
}

#[test]
fn set_configuration_request() {
    let s = ControlSetup::set_configuration(2);
    assert_eq!((s.request_type, s.request, s.value, s.index, s.length), (0x00, 0x09, 2, 0, 0));
}

#[test]
fn set_interface_request() {
    let s = ControlSetup::set_interface(3, 1);
    assert_eq!((s.request_type, s.request, s.value, s.index, s.length), (0x01, 0x0B, 1, 3, 0));
}

#[test]
fn get_status_request() {
    let s = ControlSetup::get_status(2, 0x81);
    assert_eq!((s.request_type, s.request, s.value, s.index, s.length), (0x82, 0x00, 0, 0x81, 2));
    // The recipient keeps only its low five bits.
    let s = ControlSetup::get_status(0xE1, 0);
    assert_eq!(s.request_type, 0x81);
}

#[test]
fn clear_and_set_feature_requests() {
    let s = ControlSetup::clear_feature(2, 0, 0x81);
    assert_eq!((s.request_type, s.request, s.value, s.index, s.length), (0x02, 0x01, 0, 0x81, 0));
    let s = ControlSetup::set_feature(0, 1, 0);
    assert_eq!((s.request_type, s.request, s.value, s.index, s.length), (0x00, 0x03, 1, 0, 0));
    let s = ControlSetup::set_feature(0xFF, 2, 5);
    assert_eq!(s.request_type, 0x1F);
}

#[test]
fn endpoint_info_classification() {
    let e = EndpointInfo::new(0x81, 0x03, 64, 10);
    assert_eq!(e.pipe_id, 0x81);
    assert_eq!(e.number, 1);
    assert_eq!(e.direction, Direction::In);
    assert_eq!(e.transfer_type, TransferType::Interrupt);
    assert_eq!(e.max_packet_size, 64);
    assert_eq!(e.interval, 10);
    let e = EndpointInfo::new(0x0F, 0x02, 512, 0);
    assert_eq!(e.number, 15);
    assert_eq!(e.direction, Direction::Out);
    assert_eq!(e.transfer_type, TransferType::Bulk);
    let e = EndpointInfo::new(0x72, 0x0D, 1024, 1);
    assert_eq!(e.number, 2);
    assert_eq!(e.direction, Direction::Out);
    assert_eq!(e.transfer_type, TransferType::Isochronous);
    let e = EndpointInfo::new(0x80, 0xFC, 8, 0);
    assert_eq!(e.number, 0);
    assert_eq!(e.direction, Direction::In);
    assert_eq!(e.transfer_type, TransferType::Control);
}

#[test]
fn win32_error_codes() {
    assert!(matches!(UsbError::from_win32_code(5, String::new()), UsbError::PermissionDenied));
    assert!(matches!(UsbError::from_win32_code(6, String::new()), UsbError::InvalidHandle));
    assert!(matches!(UsbError::from_win32_code(2, String::new()), UsbError::DeviceNotFound));
    assert!(matches!(UsbError::from_win32_code(0x1B1, String::new()), UsbError::DeviceNotFound));
    assert!(matches!(UsbError::from_win32_code(0x48F, String::new()), UsbError::DeviceNotFound));
    assert!(matches!(UsbError::from_win32_code(0x79, String::new()), UsbError::Timeout));
    assert!(matches!(UsbError::from_win32_code(0x16, String::new()), UsbError::Stall));
    match UsbError::from_win32_code(0x8007_001F, "A device attached to the system is not functioning.".to_string()) {
        UsbError::Other(s) => assert_eq!(s, "A device attached to the system is not functioning."),
        other => panic!("unexpected {other:?}"),
    }
}

#[test]
fn windows_error_conversion() {
    assert!(matches!(UsbError::from(Error::from_hresult(HRESULT(5))), UsbError::PermissionDenied));
    assert!(matches!(UsbError::from(Error::from_hresult(HRESULT(0x79))), UsbError::Timeout));
    assert!(matches!(UsbError::from(Error::from_hresult(HRESULT(0x48F))), UsbError::DeviceNotFound));
    let e = Error::from_hresult(HRESULT(0x8000_4005u32 as i32));
    let text = e.to_string();
    match UsbError::from(e) {
        UsbError::Other(s) => assert_eq!(s, text),
        other => panic!("unexpected {other:?}"),
    }
}
