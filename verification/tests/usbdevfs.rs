use rust_usb::usbdevfs::{
    alternate_setting_from_response, bulk_length, claim_interface_error, config_total_length,
    control_data, device_descriptor_from_response, endpoint_table, get_interface_request,
    iso_completion, iso_packet_lengths, iso_transfer_length, map_errno_code, pipe_info_from_table,
    release_interface_error, require_endpoint_direction, reset_pipe_step, string_descriptor_from_response,
    timeout_millis, ControlData, PipeReset,
};
use rust_usb::{ConfigDescriptor, ControlSetup, Direction, EndpointInfo, TransferType, UsbError};

fn other_text(e: UsbError) -> String {
    match e {
        UsbError::Other(s) => s,
        other => panic!("expected Other, got {other:?}"),
    }
}

#[test]
fn errno_mapping() {
    assert!(matches!(map_errno_code(32), UsbError::Stall));
    assert!(matches!(map_errno_code(110), UsbError::Timeout));
    assert!(matches!(map_errno_code(19), UsbError::DeviceNotFound));
    assert!(matches!(map_errno_code(13), UsbError::PermissionDenied));
    assert!(matches!(map_errno_code(1), UsbError::PermissionDenied));
    assert_eq!(other_text(map_errno_code(5)), "errno 5");
    assert_eq!(other_text(map_errno_code(-71)), "errno -71");
    assert_eq!(other_text(map_errno_code(1234)), "errno 1234");
}

#[test]
fn claim_and_release_errors() {
    assert_eq!(other_text(claim_interface_error(16)), "interface already claimed");
    assert!(matches!(claim_interface_error(19), UsbError::DeviceNotFound));
    assert_eq!(other_text(claim_interface_error(5)), "EIO: I/O error");
    assert!(matches!(release_interface_error(19), UsbError::DeviceNotFound));
    assert_eq!(other_text(release_interface_error(22)), "EINVAL: Invalid argument");
}

#[test]
fn pipe_reset_steps() {
    assert!(matches!(reset_pipe_step(None), PipeReset::Done));
    assert!(matches!(reset_pipe_step(Some(25)), PipeReset::ResetEndpoint));
    assert!(matches!(reset_pipe_step(Some(22)), PipeReset::ResetEndpoint));
    assert!(matches!(reset_pipe_step(Some(19)), PipeReset::Failed(UsbError::DeviceNotFound)));
    assert!(matches!(reset_pipe_step(Some(32)), PipeReset::Failed(UsbError::Stall)));
}

#[test]
fn timeout_clamp() {
    assert_eq!(timeout_millis(0), 0);
    assert_eq!(timeout_millis(5000), 5000);
    assert_eq!(timeout_millis(0xFFFF_FFFF), 0xFFFF_FFFF);
    assert_eq!(timeout_millis(1 << 40), 0xFFFF_FFFF);
}

#[test]
fn device_descriptor_response() {
    let mut b = [0u8; 18];
    b[0] = 18;
    b[1] = 1;
    b[8] = 0x6B;
    b[9] = 0x1D;
    assert_eq!(device_descriptor_from_response(&b, 18).unwrap().vendor_id, 0x1D6B);
    assert!(matches!(device_descriptor_from_response(&b, 17), Err(UsbError::InvalidDescriptor)));
    b[1] = 2;
    assert!(matches!(device_descriptor_from_response(&b, 18), Err(UsbError::InvalidDescriptor)));
}

#[test]
fn config_header_response() {
    let hdr = [9u8, 2, 0x20, 0x01, 1, 1, 0, 0x80, 50];
    assert_eq!(config_total_length(&hdr, 9).unwrap(), 0x0120);
    assert!(matches!(config_total_length(&hdr, 8), Err(UsbError::InvalidDescriptor)));
    // The second read is clamped to 4096 bytes.
    let big = [9u8, 2, 0x00, 0x20, 1, 1, 0, 0x80, 50];
    assert_eq!(config_total_length(&big, 9).unwrap(), 4096);
    let edge = [9u8, 2, 0x00, 0x10, 1, 1, 0, 0x80, 50];
    assert_eq!(config_total_length(&edge, 9).unwrap(), 4096);
    let below = [9u8, 2, 0xFF, 0x0F, 1, 1, 0, 0x80, 50];
    assert_eq!(config_total_length(&below, 9).unwrap(), 4095);
    let short = [9u8, 2, 8, 0, 1, 1, 0, 0x80, 50];
    assert!(matches!(config_total_length(&short, 9), Err(UsbError::InvalidDescriptor)));
}

#[test]
fn get_interface_request_and_response() {
    let s = get_interface_request(2);
    assert_eq!((s.request_type, s.request, s.value, s.index, s.length), (0x81, 0x0A, 0, 2, 1));
    assert_eq!(alternate_setting_from_response(&[3], 1).unwrap(), 3);
    assert!(matches!(alternate_setting_from_response(&[3], 0), Err(UsbError::InvalidDescriptor)));
}

#[test]
fn string_descriptor_responses() {
    // "Hi" followed by a surrogate pair (U+1F600) and an unpaired high surrogate.
    let mut b = vec![0u8; 255];
    let units: [u16; 5] = [0x0048, 0x0069, 0xD83D, 0xDE00, 0xD800];
    b[0] = 2 + 2 * units.len() as u8;
    b[1] = 3;
    for (k, u) in units.iter().enumerate() {
        b[2 + 2 * k] = (u & 0xFF) as u8;
        b[3 + 2 * k] = (u >> 8) as u8;
    }
    let s = string_descriptor_from_response(&b, 12).unwrap();
    assert_eq!(s, "Hi\u{1F600}\u{FFFD}");
    // An odd length drops the trailing byte.
    b[0] = 5;
    assert_eq!(string_descriptor_from_response(&b, 12).unwrap(), "H");
    // bLength beyond what was received, or too small.
    b[0] = 12;
    assert!(matches!(string_descriptor_from_response(&b, 11), Err(UsbError::InvalidDescriptor)));
    b[0] = 1;
    assert!(matches!(string_descriptor_from_response(&b, 12), Err(UsbError::InvalidDescriptor)));
    assert!(matches!(string_descriptor_from_response(&b, 1), Err(UsbError::InvalidDescriptor)));
    b[0] = 2;
    assert_eq!(string_descriptor_from_response(&b, 2).unwrap(), "");
}

#[test]
fn control_data_stage() {
    let get = ControlSetup::get_descriptor(1, 0, 0, 18);
    assert!(matches!(control_data(&get, true), Ok(ControlData::CallerBuffer)));
    assert_eq!(other_text(control_data(&get, false).err().unwrap()), "IN transfer requires a data buffer");
    let mut set = ControlSetup::set_configuration(1);
    assert!(matches!(control_data(&set, false), Ok(ControlData::Zeroed(0))));
    set.length = 4;
    assert!(matches!(control_data(&set, false), Ok(ControlData::Zeroed(4))));
    assert!(matches!(control_data(&set, true), Ok(ControlData::CallerBuffer)));
}

#[test]
fn endpoint_direction_checks() {
    assert!(require_endpoint_direction("bulk_read", 0x81, true).is_ok());
    assert!(require_endpoint_direction("bulk_write", 0x02, false).is_ok());
    assert_eq!(
        other_text(require_endpoint_direction("bulk_read", 0x02, true).err().unwrap()),
        "bulk_read requires an IN endpoint, got 0x02"
    );
    assert_eq!(
        other_text(require_endpoint_direction("bulk_write", 0x81, false).err().unwrap()),
        "bulk_write requires an OUT endpoint, got 0x81"
    );
    assert_eq!(
        other_text(require_endpoint_direction("isoch_read", 0x0F, true).err().unwrap()),
        "isoch_read requires an IN endpoint, got 0x0f"
    );
}

#[test]
fn bulk_lengths() {
    assert_eq!(bulk_length(0).unwrap(), 0);
    assert_eq!(bulk_length(4096).unwrap(), 4096);
    assert_eq!(bulk_length(0xFFFF_FFFF).unwrap(), 0xFFFF_FFFF);
    if usize::BITS > 32 {
        let big = (u32::MAX as usize) + 1;
        assert_eq!(other_text(bulk_length(big).err().unwrap()), "bulk transfer buffer too large");
    }
}

fn two_interface_config() -> ConfigDescriptor {
    let mut b = vec![9u8, 0x02, 0, 0, 2, 1, 0, 0x80, 50];
    b.extend_from_slice(&[9, 0x04, 0, 0, 2, 0xFF, 0, 0, 0]);
    b.extend_from_slice(&[7, 0x05, 0x81, 0x02, 0x00, 0x02, 0]);
    b.extend_from_slice(&[7, 0x05, 0x01, 0x02, 0x00, 0x02, 0]);
    b.extend_from_slice(&[9, 0x04, 0, 1, 1, 0xFF, 0, 0, 0]);
    b.extend_from_slice(&[7, 0x05, 0x81, 0x01, 0x00, 0x04, 1]);
    b.extend_from_slice(&[7, 0x05, 0x83, 0x03, 0x08, 0x00, 4]);
    let total = b.len() as u16;
    b[2] = total as u8;
    ConfigDescriptor::from_bytes(&b).unwrap()
}

#[test]
fn endpoint_table_lookup() {
    let table = endpoint_table(&two_interface_config());
    assert_eq!(table.len(), 3);
    let e = pipe_info_from_table(&table, 0x01).unwrap();
    assert_eq!(e.direction, Direction::Out);
    assert_eq!(e.transfer_type, TransferType::Bulk);
    assert_eq!(e.max_packet_size, 512);
    // The later alternate setting's endpoint with the same address wins.
    let e = pipe_info_from_table(&table, 0x81).unwrap();
    assert_eq!(e.transfer_type, TransferType::Isochronous);
    assert_eq!(e.max_packet_size, 1024);
    assert_eq!(e.interval, 1);
    let e = pipe_info_from_table(&table, 0x83).unwrap();
    let expected = EndpointInfo::new(0x83, 0x03, 8, 4);
    assert_eq!(e.number, expected.number);
    assert_eq!(e.transfer_type, expected.transfer_type);
    assert_eq!(other_text(pipe_info_from_table(&table, 0x02).err().unwrap()), "endpoint 0x02 not found");
}

#[test]
fn iso_lengths_and_packets() {
    assert_eq!(iso_transfer_length(0).unwrap(), false);
    assert_eq!(iso_transfer_length(1).unwrap(), true);
    assert_eq!(iso_transfer_length(i32::MAX as usize).unwrap(), true);
    if usize::BITS > 32 {
        let big = i32::MAX as usize + 1;
        assert_eq!(other_text(iso_transfer_length(big).err().unwrap()), "isochronous transfer buffer too large");
    }
    // 3000 bytes over 1024-byte packets: three packets of 1000.
    assert_eq!(iso_packet_lengths(3000, None).unwrap(), vec![1000, 1000, 1000]);
    // 1001 bytes over 200-byte packets: six packets, the first five take the remainder.
    assert_eq!(iso_packet_lengths(1001, Some(200)).unwrap(), vec![167, 167, 167, 167, 167, 166]);
    // A zero maximum packet size falls back to 1024.
    assert_eq!(iso_packet_lengths(1024, Some(0)).unwrap(), vec![1024]);
    assert_eq!(iso_packet_lengths(5, Some(1)).unwrap(), vec![1, 1, 1, 1, 1]);
    let p = iso_packet_lengths(256 * 64, Some(64)).unwrap();
    assert_eq!(p.len(), 256);
    assert_eq!(p.iter().map(|x| *x as usize).sum::<usize>(), 256 * 64);
    assert_eq!(
        other_text(iso_packet_lengths(257 * 64, Some(64)).err().unwrap()),
        "isochronous transfer requires 257 packets; max supported is 256"
    );
}

#[test]
fn iso_completions() {
    assert_eq!(iso_completion(0, &[0, 0, 0], 3, 300).unwrap(), 300);
    assert_eq!(iso_completion(0, &[0, 0, 0], 3, -5).unwrap(), 0);
    assert!(matches!(iso_completion(-32, &[0], 1, 0), Err(UsbError::Stall)));
    assert!(matches!(iso_completion(0, &[0, 110, 32], 3, 0), Err(UsbError::Timeout)));
    // The status of a packet past `num_packets` is not looked at.
    assert_eq!(iso_completion(0, &[0, 0, 32], 2, 7).unwrap(), 7);
    // A negative packet status (stored unsigned) reads by its magnitude.
    assert!(matches!(iso_completion(0, &[(-19i32) as u32], 1, 0), Err(UsbError::DeviceNotFound)));
}
