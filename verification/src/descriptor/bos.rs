use vstd::prelude::*;
use crate::error::UsbError;
use super::bytes::{le16, le32, read_le16, read_le32};

verus! {

/// Raw capability type constants embedded inside a BOS descriptor.
#[derive(Debug, Clone, Copy, PartialEq, Eq, Structural)]
pub enum BosCapabilityType {
    WirelessUsb,
    Usb20Extension,
    SuperSpeedUsb,
    ContainerId,
    Platform,
    SuperSpeedPlus,
    Unknown(u8),
}

/// The capability type named by `bDevCapabilityType` byte `v`.
pub open spec fn capability_type_of(v: u8) -> BosCapabilityType {
    if v == 0x01 {
        BosCapabilityType::WirelessUsb
    } else if v == 0x02 {
        BosCapabilityType::Usb20Extension
    } else if v == 0x03 {
        BosCapabilityType::SuperSpeedUsb
    } else if v == 0x04 {
        BosCapabilityType::ContainerId
    } else if v == 0x05 {
        BosCapabilityType::Platform
    } else if v == 0x0A {
        BosCapabilityType::SuperSpeedPlus
    } else {
        BosCapabilityType::Unknown(v)
    }
}

/// The `bDevCapabilityType` byte that names capability type `t`.
pub open spec fn capability_type_code(t: BosCapabilityType) -> u8 {
    match t {
        BosCapabilityType::WirelessUsb => 0x01,
        BosCapabilityType::Usb20Extension => 0x02,
        BosCapabilityType::SuperSpeedUsb => 0x03,
        BosCapabilityType::ContainerId => 0x04,
        BosCapabilityType::Platform => 0x05,
        BosCapabilityType::SuperSpeedPlus => 0x0A,
        BosCapabilityType::Unknown(v) => v,
    }
}

impl From<u8> for BosCapabilityType {
    fn from(v: u8) -> (r: Self) {
        match v {
            0x01 => Self::WirelessUsb,
            0x02 => Self::Usb20Extension,
            0x03 => Self::SuperSpeedUsb,
            0x04 => Self::ContainerId,
            0x05 => Self::Platform,
            0x0A => Self::SuperSpeedPlus,
            other => Self::Unknown(other),
        }
    }
}

impl vstd::std_specs::convert::FromSpecImpl<u8> for BosCapabilityType {
    open spec fn obeys_from_spec() -> bool {
        true
    }

    open spec fn from_spec(v: u8) -> Self {
        capability_type_of(v)
    }
}

/// USB 2.0 Extension capability (bDevCapabilityType = 0x02, 7 bytes total).
#[derive(Debug, Clone, Copy)]
pub struct Usb20ExtensionCapability {
    /// bmAttributes — bit 1: LPM support, bit 2: BESL support.
    pub attributes: u32,
}

/// SuperSpeed USB device capability (bDevCapabilityType = 0x03, 10 bytes total).
#[derive(Debug, Clone, Copy)]
pub struct SuperSpeedCapability {
    pub attributes: u8,
    /// Bitmap of supported speeds: bit 1=FS, bit 2=HS, bit 3=SS.
    pub speed_supported: u16,
    /// Lowest speed at which all functionality is available.
    pub functionality_support: u8,
    /// U1 device exit latency (μs).
    pub u1_dev_exit_lat: u8,
    /// U2 device exit latency (μs × 256).
    pub u2_dev_exit_lat: u16,
}

/// Container ID capability (bDevCapabilityType = 0x04, 20 bytes total).
#[derive(Debug, Clone, Copy)]
pub struct ContainerIdCapability {
    pub container_id: [u8; 16],
}

/// A single capability record parsed from a BOS descriptor.
#[derive(Debug, Clone)]
pub enum BosCapability {
    Usb20Extension(Usb20ExtensionCapability),
    SuperSpeedUsb(SuperSpeedCapability),
    ContainerId(ContainerIdCapability),
    /// Any capability not explicitly understood; carries the raw bytes.
    Unknown { cap_type: u8, data: Vec<u8> },
}

/// Binary Object Store (BOS) descriptor, returned by GET_DESCRIPTOR(BOS, 0).
#[derive(Debug, Clone)]
pub struct BosDescriptor {
    pub total_length: u16,
    pub num_device_caps: u8,
    pub capabilities: Vec<BosCapability>,
}

/// The value of a capability record, with byte arrays as sequences.
pub enum CapabilityModel {
    Usb20Extension(Usb20ExtensionCapability),
    SuperSpeedUsb(SuperSpeedCapability),
    ContainerId(Seq<u8>),
    Unknown { cap_type: u8, data: Seq<u8> },
}

/// The value of a BOS descriptor.
#[verifier::ext_equal]
pub struct BosModel {
    pub total_length: u16,
    pub num_device_caps: u8,
    pub capabilities: Seq<CapabilityModel>,
}

impl View for BosCapability {
    type V = CapabilityModel;

    open spec fn view(&self) -> CapabilityModel {
        match self {
            BosCapability::Usb20Extension(c) => CapabilityModel::Usb20Extension(*c),
            BosCapability::SuperSpeedUsb(c) => CapabilityModel::SuperSpeedUsb(*c),
            BosCapability::ContainerId(c) => CapabilityModel::ContainerId(c.container_id@),
            BosCapability::Unknown { cap_type, data } => CapabilityModel::Unknown {
                cap_type: *cap_type,
                data: data@,
            },
        }
    }
}

/// The values of a sequence of capability records.
pub open spec fn capability_models(s: Seq<BosCapability>) -> Seq<CapabilityModel> {
    s.map_values(|c: BosCapability| c@)
}

impl View for BosDescriptor {
    type V = BosModel;

    open spec fn view(&self) -> BosModel {
        BosModel {
            total_length: self.total_length,
            num_device_caps: self.num_device_caps,
            capabilities: capability_models(self.capabilities@),
        }
    }
}

/// The capability record held in the device capability descriptor `d`
/// (its `bLength` bytes, at least 3): a known type long enough for its
/// fields is decoded, anything else is kept as raw bytes after the header.
pub open spec fn capability_of(d: Seq<u8>) -> CapabilityModel {
    let t = capability_type_of(d[2]);
    if t == BosCapabilityType::Usb20Extension && d.len() >= 7 {
        CapabilityModel::Usb20Extension(Usb20ExtensionCapability { attributes: le32(d, 3) })
    } else if t == BosCapabilityType::SuperSpeedUsb && d.len() >= 10 {
        CapabilityModel::SuperSpeedUsb(
            SuperSpeedCapability {
                attributes: d[3],
                speed_supported: le16(d, 4),
                functionality_support: d[6],
                u1_dev_exit_lat: d[7],
                u2_dev_exit_lat: le16(d, 8),
            },
        )
    } else if t == BosCapabilityType::ContainerId && d.len() >= 20 {
        CapabilityModel::ContainerId(d.subrange(4, 20))
    } else {
        CapabilityModel::Unknown { cap_type: d[2], data: d.subrange(3, d.len() as int) }
    }
}

/// Walk the device capability descriptors in `buf` from offset `pos` up to
/// `end`. A descriptor whose type byte is not 0x10 is skipped; the walk
/// stops at the first descriptor whose length is below 3 or runs past `end`.
pub open spec fn walk_bos(buf: Seq<u8>, pos: int, end: int, caps: Seq<CapabilityModel>) -> Seq<CapabilityModel>
    decreases end - pos,
{
    if pos < 0 || pos + 3 > end {
        caps
    } else {
        let len = buf[pos] as int;
        if len < 3 || pos + len > end {
            caps
        } else if buf[pos + 1] != 0x10 {
            walk_bos(buf, pos + len, end, caps)
        } else {
            walk_bos(buf, pos + len, end, caps.push(capability_of(buf.subrange(pos, pos + len))))
        }
    }
}

/// A BOS descriptor starts with a 5-byte header of type 0x0F.
pub open spec fn is_bos_descriptor(s: Seq<u8>) -> bool {
    s.len() >= 5 && s[1] == 0x0F
}

/// How far the walk of a BOS blob may go: `wTotalLength`, clamped to the
/// bytes present.
pub open spec fn bos_walk_end(s: Seq<u8>) -> int {
    let t = le16(s, 2) as int;
    if t < s.len() { t } else { s.len() as int }
}

/// The BOS descriptor held in `s`.
pub open spec fn bos_of(s: Seq<u8>) -> BosModel {
    BosModel {
        total_length: le16(s, 2),
        num_device_caps: s[4],
        capabilities: walk_bos(s, 5, bos_walk_end(s), Seq::empty()),
    }
}

/// Decode one device capability descriptor `cap_data` (at least 3 bytes).
fn parse_capability(cap_data: &[u8]) -> (r: BosCapability)
    requires
        cap_data@.len() >= 3,
    ensures
        r@ == capability_of(cap_data@),
        crate::offsets::capability_at_offsets(cap_data@, r@),
{
    proof {
        crate::offsets::lemma_capability_at_offsets(cap_data@);
    }
    let b_length = cap_data.len();
    let b_cap_type = cap_data[2];
    match BosCapabilityType::from(b_cap_type) {
        BosCapabilityType::Usb20Extension if b_length >= 7 => {
            BosCapability::Usb20Extension(
                Usb20ExtensionCapability { attributes: read_le32(cap_data, 3) },
            )
        },
        BosCapabilityType::SuperSpeedUsb if b_length >= 10 => {
            BosCapability::SuperSpeedUsb(
                SuperSpeedCapability {
                    attributes: cap_data[3],
                    speed_supported: read_le16(cap_data, 4),
                    functionality_support: cap_data[6],
                    u1_dev_exit_lat: cap_data[7],
                    u2_dev_exit_lat: read_le16(cap_data, 8),
                },
            )
        },
        BosCapabilityType::ContainerId if b_length >= 20 => {
            let mut id = [0u8; 16];
            for i in 0..16
                invariant
                    b_length == cap_data@.len(),
                    b_length >= 20,
                    forall|j: int| 0 <= j < i ==> id@[j] == cap_data@[4 + j],
            {
                id[i] = cap_data[4 + i];
            }
            assert(id@ =~= cap_data@.subrange(4, 20));
            BosCapability::ContainerId(ContainerIdCapability { container_id: id })
        },
        _ => {
            let data = vstd::slice::slice_to_vec(vstd::slice::slice_subrange(cap_data, 3, b_length));
            BosCapability::Unknown { cap_type: b_cap_type, data }
        },
    }
}

impl BosDescriptor {
    /// Parse a full BOS descriptor blob (must contain the complete wTotalLength bytes).
    pub fn from_bytes(buf: &[u8]) -> (r: Result<Self, UsbError>)
        ensures
            is_bos_descriptor(buf@) ==> (r matches Ok(b) && b@ == bos_of(buf@)),
            !is_bos_descriptor(buf@) ==> r matches Err(UsbError::InvalidDescriptor),
            (r is Ok) == (buf@.len() >= 5 && buf@[1] == 0x0F),
            r matches Ok(b) ==> crate::offsets::capabilities_from_blob(buf@, b@.capabilities),
            r matches Ok(b) ==> crate::offsets::capabilities_at(
                buf@,
                b@.capabilities,
                crate::offsets::capability_offsets(buf@, 5, crate::offsets::bos_chain_end(buf@)),
            ),
            r matches Ok(b) ==> b.total_length == buf@[2] + buf@[3] * 256 && b.num_device_caps == buf@[4],
    {
        if buf.len() < 5 {
            return Err(UsbError::InvalidDescriptor);
        }
        if buf[1] != 0x0F {
            return Err(UsbError::InvalidDescriptor);
        }
        let total_length = read_le16(buf, 2);
        let num_caps = buf[4];
        let end = if (total_length as usize) < buf.len() { total_length as usize } else { buf.len() };
        let ghost s = buf@;

        let mut capabilities: Vec<BosCapability> = Vec::new();
        let mut pos = 5usize;  // skip the 5-byte BOS header
        assert(capability_models(capabilities@) =~= Seq::empty());

        while pos < end && end - pos >= 3
            invariant
                s == buf@,
                end == bos_walk_end(s),
                end <= buf.len(),
                5 <= pos,
                walk_bos(s, pos as int, end as int, capability_models(capabilities@))
                    == walk_bos(s, 5, end as int, Seq::empty()),
            ensures
                capability_models(capabilities@) == walk_bos(s, 5, end as int, Seq::empty()),
            decreases end - pos,
        {
            let b_length = buf[pos] as usize;
            let b_desc_type = buf[pos + 1];

            if b_length < 3 || b_length > end - pos {
                break;
            }
            if b_desc_type != 0x10 {
                // Not a Device Capability descriptor — skip
                pos += b_length;
                continue;
            }
            let cap_data = vstd::slice::slice_subrange(buf, pos, pos + b_length);
            let cap = parse_capability(cap_data);
            let ghost before = capability_models(capabilities@);
            capabilities.push(cap);
            assert(capability_models(capabilities@) =~= before.push(cap@));
            pos += b_length;
        }

        proof {
            crate::offsets::lemma_bos_capabilities_from_records(buf@);
            crate::offsets::lemma_bos_capabilities_in_order(buf@);
        }
        let r = Self { total_length, num_device_caps: num_caps, capabilities };
        assert(r@ =~= bos_of(buf@));
        Ok(r)
    }
}

} // verus!
