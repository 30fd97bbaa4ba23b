use rust_usb::{
    BosCapability, BosCapabilityType, BosDescriptor, ConfigDescriptor, DeviceDescriptor,
    DeviceQualifierDescriptor, HubDescriptor, UsbError,
};

fn device_bytes() -> Vec<u8> {
    vec![
        18, 0x01, 0x00, 0x02, 0xEF, 0x02, 0x01, 64, 0x34, 0x12, 0x78, 0x56, 0x00, 0x01, 1, 2, 3, 1,
    ]
}

#[test]
fn device_descriptor_fields() {
    let d = DeviceDescriptor::from_bytes(&device_bytes()).unwrap();
    assert_eq!(d.bcd_usb, 0x0200);
    assert_eq!(d.device_class, 0xEF);
    assert_eq!(d.device_sub_class, 0x02);
    assert_eq!(d.device_protocol, 0x01);
    assert_eq!(d.max_packet_size0, 64);
    assert_eq!(d.vendor_id, 0x1234);
    assert_eq!(d.product_id, 0x5678);
    assert_eq!(d.bcd_device, 0x0100);
    assert_eq!(d.manufacturer_index, 1);
    assert_eq!(d.product_index, 2);
    assert_eq!(d.serial_number_index, 3);
    assert_eq!(d.num_configurations, 1);
}

#[test]
fn device_descriptor_rejects_short_and_wrong_type() {
    let b = device_bytes();
    assert!(matches!(DeviceDescriptor::from_bytes(&b[..17]), Err(UsbError::InvalidDescriptor)));
    let mut w = b.clone();
    w[1] = 0x02;
    assert!(matches!(DeviceDescriptor::from_bytes(&w), Err(UsbError::InvalidDescriptor)));
    assert!(matches!(DeviceDescriptor::from_bytes(&[]), Err(UsbError::InvalidDescriptor)));
}

#[test]
fn device_descriptor_ignores_extra_bytes() {
    let mut b = device_bytes();
    b.extend_from_slice(&[0xAA, 0xBB]);
    let d = DeviceDescriptor::from_bytes(&b).unwrap();
    assert_eq!(d.vendor_id, 0x1234);
    assert_eq!(d.num_configurations, 1);
}

#[test]
fn device_qualifier_fields() {
    let b = [10u8, 0x06, 0x00, 0x02, 0xFF, 0x01, 0x02, 64, 2, 0];
    let q = DeviceQualifierDescriptor::from_bytes(&b).unwrap();
    assert_eq!(q.bcd_usb, 0x0200);
    assert_eq!(q.device_class, 0xFF);
    assert_eq!(q.device_sub_class, 0x01);
    assert_eq!(q.device_protocol, 0x02);
    assert_eq!(q.max_packet_size0, 64);
    assert_eq!(q.num_configurations, 2);
    assert!(matches!(DeviceQualifierDescriptor::from_bytes(&b[..9]), Err(UsbError::InvalidDescriptor)));
    let mut w = b;
    w[1] = 0x01;
    assert!(matches!(DeviceQualifierDescriptor::from_bytes(&w), Err(UsbError::InvalidDescriptor)));
}

#[test]
fn hub_descriptor_fields() {
    let b = [9u8, 0x29, 4, 0x09, 0x00, 50, 100, 0x06, 0x01];
    let h = HubDescriptor::from_bytes(&b).unwrap();
    assert_eq!(h.num_ports, 4);
    assert_eq!(h.hub_characteristics, 0x0009);
    assert_eq!(h.power_on_to_power_good, 50);
    assert_eq!(h.hub_controller_current, 100);
    // Four ports: DeviceRemovable is the single byte 7; byte 8 is PortPwrCtrlMask.
    assert_eq!(h.device_removable, 0x0006);
    let r = HubDescriptor::from_bytes(&[9u8, 0x29, 4, 0x09, 0x00, 0x32, 0x64, 0x00, 0xFF]).unwrap();
    assert_eq!(r.device_removable, 0x0000);
    // Ten ports: the bitmap takes bytes 7 and 8.
    let w = HubDescriptor::from_bytes(&[10u8, 0x29, 10, 0x09, 0x00, 50, 100, 0x02, 0x04, 0xFF]).unwrap();
    assert_eq!(w.num_ports, 10);
    assert_eq!(w.device_removable, 0x0402);
    assert!(matches!(HubDescriptor::from_bytes(&b[..8]), Err(UsbError::InvalidDescriptor)));
    let mut w = b;
    w[1] = 0x2A;
    assert!(matches!(HubDescriptor::from_bytes(&w), Err(UsbError::InvalidDescriptor)));
}

/// Header, interface, HID, two endpoints and a SuperSpeed companion.
fn config_bytes() -> Vec<u8> {
    let mut b = vec![9u8, 0x02, 47, 0, 1, 1, 0, 0x80, 50];
    b.extend_from_slice(&[9, 0x04, 0, 0, 2, 0x03, 0x01, 0x02, 4]);
    b.extend_from_slice(&[9, 0x21, 0x11, 0x01, 0, 1, 0x22, 0x3F, 0x00]);
    b.extend_from_slice(&[7, 0x05, 0x81, 0x03, 0x08, 0x00, 10]);
    b.extend_from_slice(&[7, 0x05, 0x02, 0x02, 0x00, 0x02, 0]);
    b.extend_from_slice(&[6, 0x30, 3, 0, 0x00, 0x04]);
    assert_eq!(b.len(), 47);
    b
}

#[test]
fn config_descriptor_nested() {
    let c = ConfigDescriptor::from_bytes(&config_bytes()).unwrap();
    assert_eq!(c.total_length, 47);
    assert_eq!(c.num_interfaces, 1);
    assert_eq!(c.configuration_value, 1);
    assert_eq!(c.configuration_index, 0);
    assert_eq!(c.attributes, 0x80);
    assert_eq!(c.max_power, 50);
    assert_eq!(c.interfaces.len(), 1);
    let i = &c.interfaces[0];
    assert_eq!(i.interface_number, 0);
    assert_eq!(i.alternate_setting, 0);
    assert_eq!(i.num_endpoints, 2);
    assert_eq!(i.interface_class, 0x03);
    assert_eq!(i.interface_sub_class, 0x01);
    assert_eq!(i.interface_protocol, 0x02);
    assert_eq!(i.interface_index, 4);
    let hid = i.hid_descriptor.unwrap();
    assert_eq!(hid.bcd_hid, 0x0111);
    assert_eq!(hid.country_code, 0);
    assert_eq!(hid.num_descriptors, 1);
    assert_eq!(hid.descriptor_type, 0x22);
    assert_eq!(hid.descriptor_length, 0x3F);
    assert_eq!(i.endpoints.len(), 2);
    assert_eq!(i.endpoints[0].endpoint_address, 0x81);
    assert_eq!(i.endpoints[0].attributes, 0x03);
    assert_eq!(i.endpoints[0].max_packet_size, 8);
    assert_eq!(i.endpoints[0].interval, 10);
    assert!(i.endpoints[0].ss_companion.is_none());
    assert_eq!(i.endpoints[1].endpoint_address, 0x02);
    assert_eq!(i.endpoints[1].max_packet_size, 512);
    let ss = i.endpoints[1].ss_companion.unwrap();
    assert_eq!(ss.max_burst, 3);
    assert_eq!(ss.attributes, 0);
    assert_eq!(ss.bytes_per_interval, 0x0400);
}

#[test]
fn config_descriptor_ignores_bytes_past_total_length() {
    let mut b = config_bytes();
    b.extend_from_slice(&[9, 0x04, 1, 0, 0, 0xFF, 0, 0, 0]);
    let c = ConfigDescriptor::from_bytes(&b).unwrap();
    assert_eq!(c.interfaces.len(), 1);
    assert_eq!(c.interfaces[0].endpoints.len(), 2);
}

#[test]
fn config_descriptor_total_length_bounds_walk() {
    let mut b = config_bytes();
    b[2] = 18;
    let c = ConfigDescriptor::from_bytes(&b).unwrap();
    assert_eq!(c.total_length, 18);
    assert_eq!(c.interfaces.len(), 1);
    assert_eq!(c.interfaces[0].endpoints.len(), 0);
    assert!(c.interfaces[0].hid_descriptor.is_none());
}

#[test]
fn config_descriptor_stops_at_bad_length() {
    let mut b = vec![9u8, 0x02, 40, 0, 2, 1, 0, 0x80, 50];
    b.extend_from_slice(&[9, 0x04, 0, 0, 1, 0x08, 0x06, 0x50, 0]);
    b.extend_from_slice(&[1, 0x05, 0x81, 0x02, 0x00, 0x02, 0]);
    b.extend_from_slice(&[9, 0x04, 1, 0, 0, 0xFF, 0, 0, 0]);
    b.extend_from_slice(&[6, 6, 6, 6, 6]);
    let c = ConfigDescriptor::from_bytes(&b).unwrap();
    assert_eq!(c.interfaces.len(), 1);
    assert_eq!(c.interfaces[0].endpoints.len(), 0);
}

#[test]
fn config_descriptor_skips_orphans_and_unknown() {
    let mut b = vec![9u8, 0x02, 0, 0, 1, 1, 0, 0x80, 50];
    // Endpoint and companion before any interface, then an IAD.
    b.extend_from_slice(&[7, 0x05, 0x81, 0x02, 0x00, 0x02, 0]);
    b.extend_from_slice(&[6, 0x30, 1, 0, 0, 0]);
    b.extend_from_slice(&[8, 0x0B, 0, 2, 0x0E, 0x03, 0, 0]);
    b.extend_from_slice(&[9, 0x04, 0, 0, 1, 0x0E, 0x01, 0, 0]);
    // Companion for an interface with no endpoint yet, then a short endpoint.
    b.extend_from_slice(&[6, 0x30, 1, 0, 0, 0]);
    b.extend_from_slice(&[6, 0x05, 0x83, 0x03, 0x10, 0x00]);
    b.extend_from_slice(&[7, 0x05, 0x83, 0x03, 0x10, 0x00, 4]);
    let total = b.len() as u16;
    b[2] = (total & 0xFF) as u8;
    b[3] = (total >> 8) as u8;
    let c = ConfigDescriptor::from_bytes(&b).unwrap();
    assert_eq!(c.interfaces.len(), 1);
    assert_eq!(c.interfaces[0].interface_class, 0x0E);
    assert_eq!(c.interfaces[0].endpoints.len(), 1);
    assert_eq!(c.interfaces[0].endpoints[0].endpoint_address, 0x83);
    assert!(c.interfaces[0].endpoints[0].ss_companion.is_none());
}

#[test]
fn config_descriptor_hid_only_for_hid_interfaces() {
    // A DFU interface (class 0xFE) followed by its 9-byte 0x21 functional descriptor.
    let b = [9u8, 2, 27, 0, 1, 1, 0, 0x80, 0x32, 9, 4, 0, 0, 0, 0xFE, 1, 2, 0, 9, 0x21, 0x0B, 0xFF, 0, 0, 4, 0x10, 1];
    let c = ConfigDescriptor::from_bytes(&b).unwrap();
    assert_eq!(c.interfaces.len(), 1);
    assert_eq!(c.interfaces[0].interface_class, 0xFE);
    assert!(c.interfaces[0].hid_descriptor.is_none());
}

#[test]
fn config_descriptor_companion_must_follow_endpoint() {
    // A class-specific 0x25 record sits between the endpoint and the 0x30 record.
    let b = [
        9u8, 2, 35, 0, 1, 1, 0, 0x80, 0x32, 9, 4, 0, 0, 1, 1, 2, 0, 0, 7, 5, 0x81, 1, 0x40, 0, 1, 4, 0x25, 1, 0, 6,
        0x30, 0, 0, 0x40, 0,
    ];
    let c = ConfigDescriptor::from_bytes(&b).unwrap();
    assert_eq!(c.interfaces[0].endpoints.len(), 1);
    assert!(c.interfaces[0].endpoints[0].ss_companion.is_none());
}

#[test]
fn config_descriptor_rejects_bad_header() {
    let b = config_bytes();
    assert!(matches!(ConfigDescriptor::from_bytes(&b[..8]), Err(UsbError::InvalidDescriptor)));
    let mut w = b.clone();
    w[1] = 0x01;
    assert!(matches!(ConfigDescriptor::from_bytes(&w), Err(UsbError::InvalidDescriptor)));
}

fn bos_bytes() -> Vec<u8> {
    let mut b = vec![5u8, 0x0F, 0, 0, 4];
    b.extend_from_slice(&[7, 0x10, 0x02, 0x06, 0x00, 0x00, 0x00]);
    b.extend_from_slice(&[10, 0x10, 0x03, 0x00, 0x0E, 0x00, 0x01, 0x0A, 0xFF, 0x07]);
    let mut c = vec![20u8, 0x10, 0x04, 0x00];
    c.extend((0u8..16).map(|i| 0xA0 + i));
    b.extend_from_slice(&c);
    b.extend_from_slice(&[3, 0x11, 0x00]);
    b.extend_from_slice(&[6, 0x10, 0x05, 0x00, 0xAA, 0xBB]);
    let total = b.len() as u16;
    b[2] = (total & 0xFF) as u8;
    b[3] = (total >> 8) as u8;
    b
}

#[test]
fn bos_descriptor_capabilities() {
    let d = BosDescriptor::from_bytes(&bos_bytes()).unwrap();
    assert_eq!(d.total_length, 51);
    assert_eq!(d.num_device_caps, 4);
    assert_eq!(d.capabilities.len(), 4);
    match &d.capabilities[0] {
        BosCapability::Usb20Extension(c) => assert_eq!(c.attributes, 6),
        other => panic!("unexpected {other:?}"),
    }
    match &d.capabilities[1] {
        BosCapability::SuperSpeedUsb(c) => {
            assert_eq!(c.attributes, 0);
            assert_eq!(c.speed_supported, 0x000E);
            assert_eq!(c.functionality_support, 1);
            assert_eq!(c.u1_dev_exit_lat, 0x0A);
            assert_eq!(c.u2_dev_exit_lat, 0x07FF);
        }
        other => panic!("unexpected {other:?}"),
    }
    match &d.capabilities[2] {
        BosCapability::ContainerId(c) => {
            let expected: Vec<u8> = (0u8..16).map(|i| 0xA0 + i).collect();
            assert_eq!(c.container_id.to_vec(), expected);
        }
        other => panic!("unexpected {other:?}"),
    }
    match &d.capabilities[3] {
        BosCapability::Unknown { cap_type, data } => {
            assert_eq!(*cap_type, 5);
            assert_eq!(data, &vec![0x00, 0xAA, 0xBB]);
        }
        other => panic!("unexpected {other:?}"),
    }
}

#[test]
fn bos_descriptor_short_known_capability_is_unknown() {
    let mut b = vec![5u8, 0x0F, 11, 0, 1];
    b.extend_from_slice(&[6, 0x10, 0x02, 0x01, 0x02, 0x03]);
    let d = BosDescriptor::from_bytes(&b).unwrap();
    match &d.capabilities[0] {
        BosCapability::Unknown { cap_type, data } => {
            assert_eq!(*cap_type, 2);
            assert_eq!(data, &vec![0x01, 0x02, 0x03]);
        }
        other => panic!("unexpected {other:?}"),
    }
}

#[test]
fn bos_descriptor_ignores_bytes_past_total_length() {
    let mut b = bos_bytes();
    b.extend_from_slice(&[7, 0x10, 0x02, 0, 0, 0, 0]);
    let d = BosDescriptor::from_bytes(&b).unwrap();
    assert_eq!(d.capabilities.len(), 4);
}

#[test]
fn bos_descriptor_rejects_bad_header() {
    let b = bos_bytes();
    assert!(matches!(BosDescriptor::from_bytes(&b[..4]), Err(UsbError::InvalidDescriptor)));
    let mut w = b.clone();
    w[1] = 0x10;
    assert!(matches!(BosDescriptor::from_bytes(&w), Err(UsbError::InvalidDescriptor)));
}

#[test]
fn bos_capability_type_from_byte() {
    assert_eq!(BosCapabilityType::from(0x01), BosCapabilityType::WirelessUsb);
    assert_eq!(BosCapabilityType::from(0x02), BosCapabilityType::Usb20Extension);
    assert_eq!(BosCapabilityType::from(0x03), BosCapabilityType::SuperSpeedUsb);
    assert_eq!(BosCapabilityType::from(0x04), BosCapabilityType::ContainerId);
    assert_eq!(BosCapabilityType::from(0x05), BosCapabilityType::Platform);
    assert_eq!(BosCapabilityType::from(0x0A), BosCapabilityType::SuperSpeedPlus);
    assert_eq!(BosCapabilityType::from(0x06), BosCapabilityType::Unknown(0x06));
    assert_eq!(BosCapabilityType::from(0x00), BosCapabilityType::Unknown(0x00));
}
