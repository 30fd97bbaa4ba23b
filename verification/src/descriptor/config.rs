use vstd::prelude::*;
use crate::error::UsbError;
use super::bytes::{le16, read_le16};

verus! {

/// Parsed USB Endpoint Descriptor (7 bytes, bDescriptorType = 0x05).
#[derive(Debug, Clone, Copy)]
pub struct EndpointDescriptor {
    pub endpoint_address: u8,
    pub attributes: u8,
    pub max_packet_size: u16,
    pub interval: u8,
    /// Present only for SuperSpeed endpoints (bDescriptorType = 0x30, immediately follows).
    pub ss_companion: Option<SuperSpeedEndpointCompanion>,
}

/// SuperSpeed Endpoint Companion Descriptor (USB 3.x, 6 bytes, bDescriptorType = 0x30).
#[derive(Debug, Clone, Copy)]
pub struct SuperSpeedEndpointCompanion {
    /// Maximum number of additional packets per service interval (0–15 for bulk/interrupt).
    pub max_burst: u8,
    /// Endpoint type-specific attributes (streams for bulk, mult for isochronous).
    pub attributes: u8,
    /// Total bytes per service interval (isochronous/interrupt only; 0 for bulk).
    pub bytes_per_interval: u16,
}

/// HID class descriptor embedded within the configuration descriptor blob
/// (9 bytes minimum, bDescriptorType = 0x21).
#[derive(Debug, Clone, Copy)]
pub struct HidDescriptor {
    pub bcd_hid: u16,
    pub country_code: u8,
    /// Number of subordinate class descriptors.
    pub num_descriptors: u8,
    /// Type of the first subordinate descriptor (0x22 = Report).
    pub descriptor_type: u8,
    /// Length of the first subordinate descriptor in bytes.
    pub descriptor_length: u16,
}

/// Parsed USB Interface Descriptor (9 bytes, bDescriptorType = 0x04).
#[derive(Debug, Clone)]
pub struct InterfaceDescriptor {
    pub interface_number: u8,
    pub alternate_setting: u8,
    pub num_endpoints: u8,
    pub interface_class: u8,
    pub interface_sub_class: u8,
    pub interface_protocol: u8,
    pub interface_index: u8,
    pub endpoints: Vec<EndpointDescriptor>,
    /// HID class descriptor, present when `interface_class == 0x03`.
    pub hid_descriptor: Option<HidDescriptor>,
}

/// Parsed USB Configuration Descriptor (9-byte header + nested descriptors).
#[derive(Debug, Clone)]
pub struct ConfigDescriptor {
    pub total_length: u16,
    pub num_interfaces: u8,
    pub configuration_value: u8,
    pub configuration_index: u8,
    pub attributes: u8,
    pub max_power: u8,
    pub interfaces: Vec<InterfaceDescriptor>,
}

/// The value of an interface descriptor, with its endpoints as a sequence.
#[verifier::ext_equal]
pub struct InterfaceModel {
    pub interface_number: u8,
    pub alternate_setting: u8,
    pub num_endpoints: u8,
    pub interface_class: u8,
    pub interface_sub_class: u8,
    pub interface_protocol: u8,
    pub interface_index: u8,
    pub endpoints: Seq<EndpointDescriptor>,
    pub hid_descriptor: Option<HidDescriptor>,
}

/// The value of a configuration descriptor, with its interfaces as a sequence.
#[verifier::ext_equal]
pub struct ConfigModel {
    pub total_length: u16,
    pub num_interfaces: u8,
    pub configuration_value: u8,
    pub configuration_index: u8,
    pub attributes: u8,
    pub max_power: u8,
    pub interfaces: Seq<InterfaceModel>,
}

impl View for InterfaceDescriptor {
    type V = InterfaceModel;

    open spec fn view(&self) -> InterfaceModel {
        InterfaceModel {
            interface_number: self.interface_number,
            alternate_setting: self.alternate_setting,
            num_endpoints: self.num_endpoints,
            interface_class: self.interface_class,
            interface_sub_class: self.interface_sub_class,
            interface_protocol: self.interface_protocol,
            interface_index: self.interface_index,
            endpoints: self.endpoints@,
            hid_descriptor: self.hid_descriptor,
        }
    }
}

/// The values of a sequence of interface descriptors.
pub open spec fn interface_models(s: Seq<InterfaceDescriptor>) -> Seq<InterfaceModel> {
    s.map_values(|i: InterfaceDescriptor| i@)
}

impl View for ConfigDescriptor {
    type V = ConfigModel;

    open spec fn view(&self) -> ConfigModel {
        ConfigModel {
            total_length: self.total_length,
            num_interfaces: self.num_interfaces,
            configuration_value: self.configuration_value,
            configuration_index: self.configuration_index,
            attributes: self.attributes,
            max_power: self.max_power,
            interfaces: interface_models(self.interfaces@),
        }
    }
}

// ---------------------------------------------------------------------------
// Single descriptors inside a configuration blob
// ---------------------------------------------------------------------------

/// The interface descriptor held in `d` (no endpoints or HID descriptor yet).
pub open spec fn interface_of(d: Seq<u8>) -> InterfaceModel {
    InterfaceModel {
        interface_number: d[2],
        alternate_setting: d[3],
        num_endpoints: d[4],
        interface_class: d[5],
        interface_sub_class: d[6],
        interface_protocol: d[7],
        interface_index: d[8],
        endpoints: Seq::empty(),
        hid_descriptor: None,
    }
}

/// The endpoint descriptor held in `d` (no companion yet).
pub open spec fn endpoint_of(d: Seq<u8>) -> EndpointDescriptor {
    EndpointDescriptor {
        endpoint_address: d[2],
        attributes: d[3],
        max_packet_size: le16(d, 4),
        interval: d[6],
        ss_companion: None,
    }
}

/// The SuperSpeed endpoint companion held in `d`.
pub open spec fn companion_of(d: Seq<u8>) -> SuperSpeedEndpointCompanion {
    SuperSpeedEndpointCompanion { max_burst: d[2], attributes: d[3], bytes_per_interval: le16(d, 4) }
}

/// The HID descriptor held in `d`.
pub open spec fn hid_of(d: Seq<u8>) -> HidDescriptor {
    HidDescriptor {
        bcd_hid: le16(d, 2),
        country_code: d[4],
        num_descriptors: d[5],
        descriptor_type: d[6],
        descriptor_length: le16(d, 7),
    }
}

impl InterfaceDescriptor {
    fn from_bytes_at(buf: &[u8]) -> (r: Result<Self, UsbError>)
        ensures
            buf@.len() >= 9 && buf@[1] == 0x04 ==> (r matches Ok(i) && i@ == interface_of(buf@)),
            !(buf@.len() >= 9 && buf@[1] == 0x04) ==> r matches Err(UsbError::InvalidDescriptor),
            r matches Ok(i) ==> i.interface_number == buf@[2] && i.alternate_setting == buf@[3] && i.num_endpoints
                == buf@[4] && i.interface_class == buf@[5] && i.interface_sub_class == buf@[6]
                && i.interface_protocol == buf@[7] && i.interface_index == buf@[8] && i.endpoints@.len() == 0
                && i.hid_descriptor is None,
    {
        if buf.len() < 9 || buf[1] != 0x04 {
            return Err(UsbError::InvalidDescriptor);
        }
        let r = Self {
            interface_number: buf[2],
            alternate_setting: buf[3],
            num_endpoints: buf[4],
            interface_class: buf[5],
            interface_sub_class: buf[6],
            interface_protocol: buf[7],
            interface_index: buf[8],
            endpoints: Vec::new(),
            hid_descriptor: None,
        };
        assert(r@ =~= interface_of(buf@));
        Ok(r)
    }
}

impl EndpointDescriptor {
    fn from_bytes_at(buf: &[u8]) -> (r: Result<Self, UsbError>)
        ensures
            buf@.len() >= 7 && buf@[1] == 0x05 ==> r == Ok::<Self, UsbError>(endpoint_of(buf@)),
            !(buf@.len() >= 7 && buf@[1] == 0x05) ==> r matches Err(UsbError::InvalidDescriptor),
            r matches Ok(e) ==> e.endpoint_address == buf@[2] && e.attributes == buf@[3] && e.max_packet_size
                == buf@[4] + buf@[5] * 256 && e.interval == buf@[6] && e.ss_companion is None,
    {
        if buf.len() < 7 || buf[1] != 0x05 {
            return Err(UsbError::InvalidDescriptor);
        }
        Ok(Self {
            endpoint_address: buf[2],
            attributes: buf[3],
            max_packet_size: read_le16(buf, 4),
            interval: buf[6],
            ss_companion: None,
        })
    }
}

impl SuperSpeedEndpointCompanion {
    pub(crate) fn from_bytes_at(buf: &[u8]) -> (r: Result<Self, UsbError>)
        ensures
            buf@.len() >= 6 && buf@[1] == 0x30 ==> r == Ok::<Self, UsbError>(companion_of(buf@)),
            !(buf@.len() >= 6 && buf@[1] == 0x30) ==> r matches Err(UsbError::InvalidDescriptor),
            r matches Ok(c) ==> c.max_burst == buf@[2] && c.attributes == buf@[3] && c.bytes_per_interval
                == buf@[4] + buf@[5] * 256,
    {
        if buf.len() < 6 || buf[1] != 0x30 {
            return Err(UsbError::InvalidDescriptor);
        }
        Ok(Self { max_burst: buf[2], attributes: buf[3], bytes_per_interval: read_le16(buf, 4) })
    }
}

impl HidDescriptor {
    fn from_bytes_at(buf: &[u8]) -> (r: Result<Self, UsbError>)
        ensures
            buf@.len() >= 9 && buf@[1] == 0x21 ==> r == Ok::<Self, UsbError>(hid_of(buf@)),
            !(buf@.len() >= 9 && buf@[1] == 0x21) ==> r matches Err(UsbError::InvalidDescriptor),
            r matches Ok(h) ==> h.bcd_hid == buf@[2] + buf@[3] * 256 && h.country_code == buf@[4]
                && h.num_descriptors == buf@[5] && h.descriptor_type == buf@[6] && h.descriptor_length == buf@[7]
                + buf@[8] * 256,
    {
        if buf.len() < 9 || buf[1] != 0x21 {
            return Err(UsbError::InvalidDescriptor);
        }
        Ok(Self {
            bcd_hid: read_le16(buf, 2),
            country_code: buf[4],
            num_descriptors: buf[5],
            descriptor_type: buf[6],
            descriptor_length: read_le16(buf, 7),
        })
    }
}

// ---------------------------------------------------------------------------
// Walking the descriptor chain
// ---------------------------------------------------------------------------

/// `ifaces` with its last interface replaced by `i`.
pub open spec fn with_last(ifaces: Seq<InterfaceModel>, i: InterfaceModel) -> Seq<InterfaceModel> {
    ifaces.update(ifaces.len() - 1, i)
}

/// Whether the nested descriptor `d` is an endpoint descriptor long enough
/// to be read, so that a SuperSpeed companion right after it belongs to it.
pub open spec fn is_endpoint_record(d: Seq<u8>) -> bool {
    d[1] == 0x05 && d.len() >= 7
}

/// The effect of one nested descriptor `d` (its `bLength` bytes) on the
/// interfaces gathered so far. An interface descriptor starts a new
/// interface; an endpoint descriptor attaches to the last interface; a HID
/// descriptor attaches to the last interface when that is of the HID class
/// (0x03); a SuperSpeed companion attaches to the last endpoint of the last
/// interface when it immediately follows that endpoint's descriptor
/// (`after_endpoint`); anything else, or a descriptor too short for its
/// type, is skipped.
pub open spec fn attach_descriptor(ifaces: Seq<InterfaceModel>, d: Seq<u8>, after_endpoint: bool) -> Seq<InterfaceModel> {
    let t = d[1];
    let n = ifaces.len();
    if t == 0x04 {
        if d.len() >= 9 { ifaces.push(interface_of(d)) } else { ifaces }
    } else if t == 0x05 {
        if d.len() >= 7 && n > 0 {
            let last = ifaces[n - 1];
            with_last(ifaces, InterfaceModel { endpoints: last.endpoints.push(endpoint_of(d)), ..last })
        } else {
            ifaces
        }
    } else if t == 0x21 {
        if d.len() >= 9 && n > 0 && ifaces[n - 1].interface_class == 0x03 {
            let last = ifaces[n - 1];
            with_last(ifaces, InterfaceModel { hid_descriptor: Some(hid_of(d)), ..last })
        } else {
            ifaces
        }
    } else if t == 0x30 {
        if after_endpoint && d.len() >= 6 && n > 0 && ifaces[n - 1].endpoints.len() > 0 {
            let last = ifaces[n - 1];
            let m = last.endpoints.len();
            let ep = last.endpoints[m - 1];
            let ep2 = EndpointDescriptor { ss_companion: Some(companion_of(d)), ..ep };
            with_last(ifaces, InterfaceModel { endpoints: last.endpoints.update(m - 1, ep2), ..last })
        } else {
            ifaces
        }
    } else {
        ifaces
    }
}

/// Walk the chain of descriptors in `buf` from offset `pos` up to `end`,
/// each introduced by its `bLength` and `bDescriptorType` bytes;
/// `after_endpoint` tells whether the record before `pos` was an endpoint
/// descriptor. The walk stops at the first descriptor whose length is below
/// 2 or runs past `end`.
pub open spec fn walk_config(buf: Seq<u8>, pos: int, end: int, ifaces: Seq<InterfaceModel>, after_endpoint: bool) -> Seq<InterfaceModel>
    decreases end - pos,
{
    if pos < 0 || pos + 2 > end {
        ifaces
    } else {
        let len = buf[pos] as int;
        if len < 2 || pos + len > end {
            ifaces
        } else {
            let d = buf.subrange(pos, pos + len);
            walk_config(buf, pos + len, end, attach_descriptor(ifaces, d, after_endpoint), is_endpoint_record(d))
        }
    }
}

/// A configuration descriptor starts with a 9-byte header of type 0x02.
pub open spec fn is_config_descriptor(s: Seq<u8>) -> bool {
    s.len() >= 9 && s[1] == 0x02
}

/// How far the walk of a configuration blob may go: `wTotalLength`,
/// clamped to the bytes present.
pub open spec fn config_walk_end(s: Seq<u8>) -> int {
    let t = le16(s, 2) as int;
    if t < s.len() { t } else { s.len() as int }
}

/// The configuration descriptor held in `s`.
pub open spec fn config_of(s: Seq<u8>) -> ConfigModel {
    ConfigModel {
        total_length: le16(s, 2),
        num_interfaces: s[4],
        configuration_value: s[5],
        configuration_index: s[6],
        attributes: s[7],
        max_power: s[8],
        interfaces: walk_config(s, 9, config_walk_end(s), Seq::empty(), false),
    }
}

impl ConfigDescriptor {
    /// Parse a full configuration descriptor blob (first 9 bytes are the header;
    /// the remaining bytes contain Interface and Endpoint descriptors).
    pub fn from_bytes(buf: &[u8]) -> (r: Result<Self, UsbError>)
        ensures
            is_config_descriptor(buf@) ==> (r matches Ok(c) && c@ == config_of(buf@)),
            !is_config_descriptor(buf@) ==> r matches Err(UsbError::InvalidDescriptor),
            (r is Ok) == (buf@.len() >= 9 && buf@[1] == 0x02),
            r matches Ok(c) ==> crate::offsets::interfaces_from_blob(buf@, c@.interfaces),
            r matches Ok(c) ==> crate::offsets::config_header_at_offsets(buf@, c@),
            r matches Ok(c) ==> crate::offsets::interfaces_at(
                buf@,
                c@.interfaces,
                crate::offsets::record_offsets(buf@, 9, crate::offsets::config_chain_end(buf@), 0x04, 9),
                buf@.len() as int,
            ),
            r matches Ok(c) ==> crate::offsets::hids_from_segments(
                buf@,
                c@.interfaces,
                crate::offsets::record_offsets(buf@, 9, crate::offsets::config_chain_end(buf@), 0x04, 9),
                crate::offsets::config_chain_end(buf@),
            ),
            r matches Ok(c) ==> crate::offsets::companions_from_segments(
                buf@,
                c@.interfaces,
                crate::offsets::record_offsets(buf@, 9, crate::offsets::config_chain_end(buf@), 0x04, 9),
                crate::offsets::config_chain_end(buf@),
            ),
            r matches Ok(c) ==> crate::offsets::endpoints_from_segments(
                buf@,
                c@.interfaces,
                crate::offsets::record_offsets(buf@, 9, crate::offsets::config_chain_end(buf@), 0x04, 9),
                crate::offsets::config_chain_end(buf@),
            ),
    {
        if buf.len() < 9 {
            return Err(UsbError::InvalidDescriptor);
        }
        if buf[1] != 0x02 {
            return Err(UsbError::InvalidDescriptor);
        }
        let total_length = read_le16(buf, 2);
        let num_interfaces = buf[4];
        let configuration_value = buf[5];
        let configuration_index = buf[6];
        let attributes = buf[7];
        let max_power = buf[8];

        // Walk the descriptor chain after the 9-byte config header.
        let mut interfaces: Vec<InterfaceDescriptor> = Vec::new();
        let mut pos = 9usize;
        let end = if (total_length as usize) < buf.len() { total_length as usize } else { buf.len() };
        let mut after_endpoint = false;
        let ghost s = buf@;
        assert(end == config_walk_end(s));
        assert(interface_models(interfaces@) =~= Seq::empty());

        while pos < end && end - pos >= 2
            invariant
                s == buf@,
                end <= buf.len(),
                9 <= pos,
                walk_config(s, pos as int, end as int, interface_models(interfaces@), after_endpoint)
                    == walk_config(s, 9, end as int, Seq::empty(), false),
            ensures
                interface_models(interfaces@) == walk_config(s, 9, end as int, Seq::empty(), false),
            decreases end - pos,
        {
            let b_length = buf[pos] as usize;
            let b_type = buf[pos + 1];

            if b_length < 2 || b_length > end - pos {
                break;
            }
            let ghost before = interface_models(interfaces@);
            let d = vstd::slice::slice_subrange(buf, pos, pos + b_length);
            assert(d@ == s.subrange(pos as int, pos + b_length));

            if b_type == 0x04 {
                // Interface descriptor
                if b_length >= 9 {
                    match InterfaceDescriptor::from_bytes_at(d) {
                        Ok(iface) => interfaces.push(iface),
                        Err(e) => return Err(e),
                    }
                }
            } else if b_type == 0x05 {
                // Endpoint descriptor — attach to last interface
                if b_length >= 7 {
                    match EndpointDescriptor::from_bytes_at(d) {
                        Ok(ep) => {
                            let n = interfaces.len();
                            if n > 0 {
                                interfaces[n - 1].endpoints.push(ep);
                            }
                        },
                        Err(e) => return Err(e),
                    }
                }
            } else if b_type == 0x21 {
                // HID descriptor — attach to the last interface when it is a HID interface
                if b_length >= 9 {
                    match HidDescriptor::from_bytes_at(d) {
                        Ok(hid) => {
                            let n = interfaces.len();
                            if n > 0 && interfaces[n - 1].interface_class == 0x03 {
                                interfaces[n - 1].hid_descriptor = Some(hid);
                            }
                        },
                        Err(e) => return Err(e),
                    }
                }
            } else if b_type == 0x30 {
                // SuperSpeed Endpoint Companion — attach to the endpoint it immediately follows
                if after_endpoint && b_length >= 6 {
                    if let Ok(ssc) = SuperSpeedEndpointCompanion::from_bytes_at(d) {
                        let n = interfaces.len();
                        if n > 0 {
                            let m = interfaces[n - 1].endpoints.len();
                            if m > 0 {
                                interfaces[n - 1].endpoints[m - 1].ss_companion = Some(ssc);
                            }
                        }
                    }
                }
            }
            // Other descriptor types (IAD 0x0B, etc.) are skipped.

            assert(interface_models(interfaces@) =~= attach_descriptor(before, d@, after_endpoint));
            after_endpoint = b_type == 0x05 && b_length >= 7;
            pos += b_length;
        }

        proof {
            crate::offsets::lemma_config_interfaces_from_records(buf@);
            crate::offsets::lemma_config_header_offsets(buf@);
            crate::offsets::lemma_config_interfaces_in_order(buf@);
            crate::offsets::lemma_config_endpoints_from_segments(buf@);
            crate::offsets::lemma_config_companions_from_records(buf@);
            crate::offsets::lemma_config_hids_from_records(buf@);
        }
        let r = Self {
            total_length,
            num_interfaces,
            configuration_value,
            configuration_index,
            attributes,
            max_power,
            interfaces,
        };
        assert(r@ =~= config_of(buf@));
        Ok(r)
    }
}

} // verus!
