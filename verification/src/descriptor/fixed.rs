use vstd::prelude::*;
use crate::error::UsbError;
use super::bytes::{le16, read_le16, u16_from_le};
use crate::offsets::{
    device_descriptor_at_offsets, device_qualifier_at_offsets, hub_descriptor_at_offsets,
    lemma_device_descriptor_offsets, lemma_device_qualifier_offsets, lemma_hub_descriptor_offsets,
};

verus! {

/// Parsed USB Device Descriptor (18 bytes, bDescriptorType = 0x01).
#[derive(Debug, Clone, Copy)]
pub struct DeviceDescriptor {
    pub bcd_usb: u16,
    pub device_class: u8,
    pub device_sub_class: u8,
    pub device_protocol: u8,
    pub max_packet_size0: u8,
    pub vendor_id: u16,
    pub product_id: u16,
    pub bcd_device: u16,
    pub manufacturer_index: u8,
    pub product_index: u8,
    pub serial_number_index: u8,
    pub num_configurations: u8,
}

/// A device descriptor is at least 18 bytes with type byte 0x01.
pub open spec fn is_device_descriptor(s: Seq<u8>) -> bool {
    s.len() >= 18 && s[1] == 0x01
}

/// The fields of the device descriptor held in `s`.
pub open spec fn device_descriptor_of(s: Seq<u8>) -> DeviceDescriptor {
    DeviceDescriptor {
        bcd_usb: le16(s, 2),
        device_class: s[4],
        device_sub_class: s[5],
        device_protocol: s[6],
        max_packet_size0: s[7],
        vendor_id: le16(s, 8),
        product_id: le16(s, 10),
        bcd_device: le16(s, 12),
        manufacturer_index: s[14],
        product_index: s[15],
        serial_number_index: s[16],
        num_configurations: s[17],
    }
}

impl DeviceDescriptor {
    /// Parse from a raw 18-byte buffer returned by GET_DESCRIPTOR(Device).
    pub fn from_bytes(buf: &[u8]) -> (r: Result<Self, UsbError>)
        ensures
            is_device_descriptor(buf@) ==> r == Ok::<Self, UsbError>(device_descriptor_of(buf@)),
            !is_device_descriptor(buf@) ==> r matches Err(UsbError::InvalidDescriptor),
            r matches Ok(d) ==> device_descriptor_at_offsets(buf@, d),
            (r is Ok) == (buf@.len() >= 18 && buf@[1] == 0x01),
    {
        if buf.len() < 18 {
            return Err(UsbError::InvalidDescriptor);
        }
        if buf[1] != 0x01 {
            return Err(UsbError::InvalidDescriptor);
        }
        proof {
            lemma_device_descriptor_offsets(buf@);
        }
        Ok(Self {
            bcd_usb: read_le16(buf, 2),
            device_class: buf[4],
            device_sub_class: buf[5],
            device_protocol: buf[6],
            max_packet_size0: buf[7],
            vendor_id: read_le16(buf, 8),
            product_id: read_le16(buf, 10),
            bcd_device: read_le16(buf, 12),
            manufacturer_index: buf[14],
            product_index: buf[15],
            serial_number_index: buf[16],
            num_configurations: buf[17],
        })
    }
}

/// Device Qualifier Descriptor — describes full/high-speed characteristics
/// of a device that supports both speeds (10 bytes, bDescriptorType = 0x06).
#[derive(Debug, Clone, Copy)]
pub struct DeviceQualifierDescriptor {
    pub bcd_usb: u16,
    pub device_class: u8,
    pub device_sub_class: u8,
    pub device_protocol: u8,
    pub max_packet_size0: u8,
    pub num_configurations: u8,
}

/// A device qualifier descriptor is at least 10 bytes with type byte 0x06.
pub open spec fn is_device_qualifier_descriptor(s: Seq<u8>) -> bool {
    s.len() >= 10 && s[1] == 0x06
}

/// The fields of the device qualifier descriptor held in `s`.
pub open spec fn device_qualifier_descriptor_of(s: Seq<u8>) -> DeviceQualifierDescriptor {
    DeviceQualifierDescriptor {
        bcd_usb: le16(s, 2),
        device_class: s[4],
        device_sub_class: s[5],
        device_protocol: s[6],
        max_packet_size0: s[7],
        num_configurations: s[8],
    }
}

impl DeviceQualifierDescriptor {
    /// Parse from a raw 10-byte GET_DESCRIPTOR(Device_Qualifier) response.
    pub fn from_bytes(buf: &[u8]) -> (r: Result<Self, UsbError>)
        ensures
            is_device_qualifier_descriptor(buf@) ==> r == Ok::<Self, UsbError>(device_qualifier_descriptor_of(buf@)),
            !is_device_qualifier_descriptor(buf@) ==> r matches Err(UsbError::InvalidDescriptor),
            r matches Ok(d) ==> device_qualifier_at_offsets(buf@, d),
            (r is Ok) == (buf@.len() >= 10 && buf@[1] == 0x06),
    {
        if buf.len() < 10 {
            return Err(UsbError::InvalidDescriptor);
        }
        if buf[1] != 0x06 {
            return Err(UsbError::InvalidDescriptor);
        }
        proof {
            lemma_device_qualifier_offsets(buf@);
        }
        Ok(Self {
            bcd_usb: read_le16(buf, 2),
            device_class: buf[4],
            device_sub_class: buf[5],
            device_protocol: buf[6],
            max_packet_size0: buf[7],
            num_configurations: buf[8],
        })
    }
}

/// USB Hub Descriptor (bDescriptorType = 0x29).
#[derive(Debug, Clone, Copy)]
pub struct HubDescriptor {
    /// Number of downstream-facing ports.
    pub num_ports: u8,
    /// wHubCharacteristics — logical power switching, compound device, over-current protection, etc.
    pub hub_characteristics: u16,
    /// Time (in 2 ms units) from power-on to when the port is ready (bPwrOn2PwrGood).
    pub power_on_to_power_good: u8,
    /// Maximum current requirements of the hub controller (mA).
    pub hub_controller_current: u8,
    /// Per-port removable device bitmask (one bit per port starting at bit 1).
    pub device_removable: u16,
}

/// A hub descriptor is at least 9 bytes with type byte 0x29.
pub open spec fn is_hub_descriptor(s: Seq<u8>) -> bool {
    s.len() >= 9 && s[1] == 0x29
}

/// How many bytes of the DeviceRemovable bitmap are read for a hub with
/// `num_ports` ports: one bit per port from bit 1 on, so one byte for up to
/// 7 ports and two (the most the field holds, up to 15 ports) beyond.
pub open spec fn removable_bytes(num_ports: u8) -> int {
    if num_ports < 8 { 1 } else { 2 }
}

/// The fields of the hub descriptor held in `s`; DeviceRemovable starts at
/// byte 7 and its length follows the port count.
pub open spec fn hub_descriptor_of(s: Seq<u8>) -> HubDescriptor {
    HubDescriptor {
        num_ports: s[2],
        hub_characteristics: le16(s, 3),
        power_on_to_power_good: s[5],
        hub_controller_current: s[6],
        device_removable: if removable_bytes(s[2]) == 1 { s[7] as u16 } else { le16(s, 7) },
    }
}

impl HubDescriptor {
    /// Parse from the raw buffer returned by the hub GET_DESCRIPTOR(Hub) request.
    pub fn from_bytes(buf: &[u8]) -> (r: Result<Self, UsbError>)
        ensures
            is_hub_descriptor(buf@) ==> r == Ok::<Self, UsbError>(hub_descriptor_of(buf@)),
            !is_hub_descriptor(buf@) ==> r matches Err(UsbError::InvalidDescriptor),
            r matches Ok(d) ==> hub_descriptor_at_offsets(buf@, d),
            (r is Ok) == (buf@.len() >= 9 && buf@[1] == 0x29),
    {
        if buf.len() < 9 {
            return Err(UsbError::InvalidDescriptor);
        }
        if buf[1] != 0x29 {
            return Err(UsbError::InvalidDescriptor);
        }
        proof {
            lemma_hub_descriptor_offsets(buf@);
        }
        let num_ports = buf[2];
        let hub_characteristics = read_le16(buf, 3);
        let power_on_to_power_good = buf[5];
        let hub_controller_current = buf[6];
        // DeviceRemovable is a variable-length bitmask starting at byte 7,
        // one bit per port from bit 1 on; what follows it is PortPwrCtrlMask.
        // Up to 2 bytes are read (supports up to 15 ports).
        let removable_lo = buf[7];
        let removable_hi = if num_ports >= 8 && buf.len() > 8 { buf[8] } else { 0 };
        let device_removable = u16_from_le(removable_lo, removable_hi);
        Ok(Self {
            num_ports,
            hub_characteristics,
            power_on_to_power_good,
            hub_controller_current,
            device_removable,
        })
    }
}

} // verus!
