//! Where each parsed value comes from: every field of a parsed descriptor
//! at its byte offset in the USB layout, which records of a configuration
//! or BOS descriptor chain become which interfaces, endpoints, companions,
//! HID descriptors and capabilities, the classification of an endpoint in
//! terms of its address and attribute bits, what the endpoint table holds,
//! and which error each kernel or Windows code yields. These are stated
//! over the raw inputs, apart from the models the parsers are specified by.

use vstd::prelude::*;
use crate::descriptor::fixed::{
    DeviceDescriptor, DeviceQualifierDescriptor, HubDescriptor, device_descriptor_of,
    device_qualifier_descriptor_of, hub_descriptor_of, is_device_descriptor, is_device_qualifier_descriptor,
    is_hub_descriptor,
};
use crate::endpoint::{Direction, EndpointInfo, TransferType, endpoint_info_spec};
use crate::error::{UsbError, win32_error_matches};
use crate::usbdevfs::{ErrnoKind, errno_kind_of, errno_maps_to, is_other_with};
use crate::text::decimal_text;
use crate::usbdevfs::{endpoint_table_of, enter_endpoints, string_descriptor_units};
use crate::descriptor::bos::{
    BosModel, CapabilityModel, bos_of, bos_walk_end, capability_of, is_bos_descriptor, walk_bos,
};
use crate::descriptor::config::{
    ConfigModel,
    EndpointDescriptor, HidDescriptor, InterfaceModel, SuperSpeedEndpointCompanion, attach_descriptor,
    config_of, config_walk_end, is_config_descriptor, is_endpoint_record, walk_config,
};

verus! {

/// Every field of a device descriptor at its offset: bcdUSB at 2..4,
/// class, subclass, protocol, bMaxPacketSize0 at 4..8, idVendor at 8..10,
/// idProduct at 10..12, bcdDevice at 12..14, the three string indexes at
/// 14, 15, 16 and bNumConfigurations at 17 (16-bit fields little-endian).
pub open spec fn device_descriptor_at_offsets(s: Seq<u8>, d: DeviceDescriptor) -> bool {
    &&& d.bcd_usb == s[2] + s[3] * 256
    &&& d.device_class == s[4]
    &&& d.device_sub_class == s[5]
    &&& d.device_protocol == s[6]
    &&& d.max_packet_size0 == s[7]
    &&& d.vendor_id == s[8] + s[9] * 256
    &&& d.product_id == s[10] + s[11] * 256
    &&& d.bcd_device == s[12] + s[13] * 256
    &&& d.manufacturer_index == s[14]
    &&& d.product_index == s[15]
    &&& d.serial_number_index == s[16]
    &&& d.num_configurations == s[17]
}

/// A parsed device descriptor holds each field at its offset.
pub proof fn lemma_device_descriptor_offsets(s: Seq<u8>)
    requires
        is_device_descriptor(s),
    ensures
        device_descriptor_at_offsets(s, device_descriptor_of(s)),
{
}

/// Every field of a device qualifier descriptor at its offset: bcdUSB at
/// 2..4, class, subclass, protocol, bMaxPacketSize0 at 4..8 and
/// bNumConfigurations at 8.
pub open spec fn device_qualifier_at_offsets(s: Seq<u8>, d: DeviceQualifierDescriptor) -> bool {
    &&& d.bcd_usb == s[2] + s[3] * 256
    &&& d.device_class == s[4]
    &&& d.device_sub_class == s[5]
    &&& d.device_protocol == s[6]
    &&& d.max_packet_size0 == s[7]
    &&& d.num_configurations == s[8]
}

/// A parsed device qualifier descriptor holds each field at its offset.
pub proof fn lemma_device_qualifier_offsets(s: Seq<u8>)
    requires
        is_device_qualifier_descriptor(s),
    ensures
        device_qualifier_at_offsets(s, device_qualifier_descriptor_of(s)),
{
}

/// Every field of a hub descriptor at its offset: bNbrPorts at 2,
/// wHubCharacteristics at 3..5, bPwrOn2PwrGood at 5, bHubContrCurrent at
/// 6, and DeviceRemovable from 7 on, one byte for up to 7 ports and two
/// beyond.
pub open spec fn hub_descriptor_at_offsets(s: Seq<u8>, d: HubDescriptor) -> bool {
    &&& d.num_ports == s[2]
    &&& d.hub_characteristics == s[3] + s[4] * 256
    &&& d.power_on_to_power_good == s[5]
    &&& d.hub_controller_current == s[6]
    &&& d.device_removable == if s[2] < 8 { s[7] as int } else { s[7] + s[8] * 256 }
}

/// A parsed hub descriptor holds each field at its offset.
pub proof fn lemma_hub_descriptor_offsets(s: Seq<u8>)
    requires
        is_hub_descriptor(s),
    ensures
        hub_descriptor_at_offsets(s, hub_descriptor_of(s)),
{
}

/// How an endpoint is classified: the raw address is kept, the number is
/// its low four bits, the direction is IN exactly when bit 7 is set, and
/// the transfer type is read from the low two attribute bits (0 control,
/// 1 isochronous, 2 bulk, 3 interrupt).
pub open spec fn endpoint_classified(address: u8, attributes: u8, max_packet_size: u16, interval: u8, r: EndpointInfo) -> bool {
    &&& r.pipe_id == address
    &&& r.number == address % 16
    &&& r.number < 16
    &&& (r.direction == Direction::In) == (address >= 0x80)
    &&& (r.direction == Direction::Out) == (address < 0x80)
    &&& (r.transfer_type == TransferType::Control) == (attributes % 4 == 0)
    &&& (r.transfer_type == TransferType::Isochronous) == (attributes % 4 == 1)
    &&& (r.transfer_type == TransferType::Bulk) == (attributes % 4 == 2)
    &&& (r.transfer_type == TransferType::Interrupt) == (attributes % 4 == 3)
    &&& r.max_packet_size == max_packet_size
    &&& r.interval == interval
}

/// `EndpointInfo::new` classifies its endpoint by the address and attribute bits.
pub proof fn lemma_endpoint_classification(address: u8, attributes: u8, max_packet_size: u16, interval: u8)
    ensures
        endpoint_classified(
            address,
            attributes,
            max_packet_size,
            interval,
            endpoint_info_spec(address, attributes, max_packet_size, interval),
        ),
{
}

/// Which error a kernel error number yields: a stall exactly for `EPIPE`,
/// a time-out exactly for `ETIMEDOUT`, a missing device exactly for
/// `ENODEV`, a refused permission exactly for `EACCES` and `EPERM`, and
/// for every other number `Other("errno <n>")`.
pub open spec fn errno_classified(errno: i32, e: UsbError) -> bool {
    let k = errno_kind_of(errno);
    &&& (e is Stall) == (k == ErrnoKind::BrokenPipe)
    &&& (e is Timeout) == (k == ErrnoKind::TimedOut)
    &&& (e is DeviceNotFound) == (k == ErrnoKind::NoDevice)
    &&& (e is PermissionDenied) == (k == ErrnoKind::AccessDenied || k == ErrnoKind::NotPermitted)
    &&& !(e is Io) && !(e is InvalidDescriptor) && !(e is InvalidHandle) && !(e is Unsupported)
    &&& (k != ErrnoKind::BrokenPipe && k != ErrnoKind::TimedOut && k != ErrnoKind::NoDevice
        && k != ErrnoKind::AccessDenied && k != ErrnoKind::NotPermitted) ==> is_other_with(
        e,
        "errno "@ + decimal_text(errno as int),
    )
}

/// The error `map_errno_code` gives is classified by the error number.
pub proof fn lemma_errno_classification(errno: i32, e: UsbError)
    requires
        errno_maps_to(errno, e),
    ensures
        errno_classified(errno, e),
{
}

/// Which error a Windows code yields: access denied exactly for 5, an
/// invalid handle exactly for 6, a missing device exactly for 2, 0x1B1
/// and 0x48F, a time-out exactly for 0x79, a stall exactly for 0x16, and
/// for every other code the error's own message.
pub open spec fn win32_classified(code: u32, message: Seq<char>, e: UsbError) -> bool {
    &&& (e is PermissionDenied) == (code == 5)
    &&& (e is InvalidHandle) == (code == 6)
    &&& (e is DeviceNotFound) == (code == 2 || code == 0x1B1 || code == 0x48F)
    &&& (e is Timeout) == (code == 0x79)
    &&& (e is Stall) == (code == 0x16)
    &&& !(e is Io) && !(e is InvalidDescriptor) && !(e is Unsupported)
    &&& (code != 5 && code != 6 && code != 2 && code != 0x1B1 && code != 0x48F && code != 0x79 && code
        != 0x16) ==> is_other_with(e, message)
}

/// The error `UsbError::from_win32_code` gives is classified by the code.
pub proof fn lemma_win32_classification(code: u32, message: Seq<char>, e: UsbError)
    requires
        win32_error_matches(code, message, e),
    ensures
        win32_classified(code, message, e),
{
}

/// `i` has the fields of the interface descriptor record at `p` in `s`:
/// bLength at least 9, type 0x04, then bInterfaceNumber, bAlternateSetting,
/// bNumEndpoints, class, subclass, protocol and iInterface at offsets 2..9.
pub open spec fn interface_record(s: Seq<u8>, p: int, i: InterfaceModel) -> bool {
    &&& 0 <= p && p + 9 <= s.len() && s[p] >= 9 && s[p + 1] == 0x04
    &&& i.interface_number == s[p + 2]
    &&& i.alternate_setting == s[p + 3]
    &&& i.num_endpoints == s[p + 4]
    &&& i.interface_class == s[p + 5]
    &&& i.interface_sub_class == s[p + 6]
    &&& i.interface_protocol == s[p + 7]
    &&& i.interface_index == s[p + 8]
}

/// `e` has the fields of the endpoint descriptor record at `p` in `s`:
/// bLength at least 7, type 0x05, then bEndpointAddress, bmAttributes,
/// wMaxPacketSize (little-endian) and bInterval at offsets 2..7.
pub open spec fn endpoint_record(s: Seq<u8>, p: int, e: EndpointDescriptor) -> bool {
    &&& 0 <= p && p + 7 <= s.len() && s[p] >= 7 && s[p + 1] == 0x05
    &&& e.endpoint_address == s[p + 2]
    &&& e.attributes == s[p + 3]
    &&& e.max_packet_size == s[p + 4] + s[p + 5] * 256
    &&& e.interval == s[p + 6]
}

/// `c` has the fields of the SuperSpeed companion record at `q` in `s`:
/// bLength at least 6, type 0x30, then bMaxBurst, bmAttributes and
/// wBytesPerInterval (little-endian) at offsets 2..6.
pub open spec fn companion_record(s: Seq<u8>, q: int, c: SuperSpeedEndpointCompanion) -> bool {
    &&& 0 <= q && q + 6 <= s.len() && s[q] >= 6 && s[q + 1] == 0x30
    &&& c.max_burst == s[q + 2]
    &&& c.attributes == s[q + 3]
    &&& c.bytes_per_interval == s[q + 4] + s[q + 5] * 256
}

/// `h` has the fields of the HID descriptor record at `p` in `s`: bLength
/// at least 9, type 0x21, then bcdHID (little-endian), bCountryCode,
/// bNumDescriptors, bDescriptorType and wDescriptorLength (little-endian)
/// at offsets 2..9.
pub open spec fn hid_record(s: Seq<u8>, p: int, h: HidDescriptor) -> bool {
    &&& 0 <= p && p + 9 <= s.len() && s[p] >= 9 && s[p + 1] == 0x21
    &&& h.bcd_hid == s[p + 2] + s[p + 3] * 256
    &&& h.country_code == s[p + 4]
    &&& h.num_descriptors == s[p + 5]
    &&& h.descriptor_type == s[p + 6]
    &&& h.descriptor_length == s[p + 7] + s[p + 8] * 256
}

/// An endpoint read from an endpoint record of `s`; when it has a
/// companion, that is read from the companion record that immediately
/// follows the endpoint record.
pub open spec fn endpoint_from_blob(s: Seq<u8>, e: EndpointDescriptor) -> bool {
    &&& exists|p: int| endpoint_record(s, p, e)
    &&& e.ss_companion matches Some(c) ==> exists|p: int| endpoint_record(s, p, e) && companion_record(s, p + s[p], c)
}

/// When the record before `pos` was an endpoint record (`after`), either
/// no interface has begun, or that record, at `prev`, holds the last
/// endpoint of the last interface, which has no companion yet.
pub open spec fn last_endpoint_at(s: Seq<u8>, acc: Seq<InterfaceModel>, after: bool, prev: int, pos: int) -> bool {
    after ==> (acc.len() == 0 || {
        let last = acc.last();
        &&& last.endpoints.len() > 0
        &&& endpoint_record(s, prev, last.endpoints.last())
        &&& prev + s[prev] == pos
        &&& last.endpoints.last().ss_companion is None
    })
}

/// An interface read from an interface record of `s`, whose endpoints are
/// read from endpoint records of `s`, and which has a HID descriptor only
/// when it is of the HID class (0x03), read from a HID record of `s`.
pub open spec fn interface_from_blob(s: Seq<u8>, i: InterfaceModel) -> bool {
    &&& exists|p: int| interface_record(s, p, i)
    &&& forall|j: int| 0 <= j < i.endpoints.len() ==> endpoint_from_blob(s, #[trigger] i.endpoints[j])
    &&& i.hid_descriptor matches Some(h) ==> i.interface_class == 0x03 && exists|p: int| hid_record(s, p, h)
}

/// Every interface of `ifaces` is read from records of `s`.
pub open spec fn interfaces_from_blob(s: Seq<u8>, ifaces: Seq<InterfaceModel>) -> bool {
    forall|k: int| 0 <= k < ifaces.len() ==> interface_from_blob(s, #[trigger] ifaces[k])
}

proof fn lemma_attach_from_blob(s: Seq<u8>, pos: int, len: int, acc: Seq<InterfaceModel>, after: bool, prev: int)
    requires
        0 <= pos,
        2 <= len,
        len == s[pos],
        pos + len <= s.len(),
        interfaces_from_blob(s, acc),
        last_endpoint_at(s, acc, after, prev, pos),
    ensures
        interfaces_from_blob(s, attach_descriptor(acc, s.subrange(pos, pos + len), after)),
        last_endpoint_at(
            s,
            attach_descriptor(acc, s.subrange(pos, pos + len), after),
            is_endpoint_record(s.subrange(pos, pos + len)),
            pos,
            pos + len,
        ),
{
    let d = s.subrange(pos, pos + len);
    let r = attach_descriptor(acc, d, after);
    let n = acc.len();
    let t = d[1];
    assert(forall|k: int| 0 <= k < len ==> d[k] == s[pos + k]);
    if t == 0x04 && len >= 9 {
        let i = r[n as int];
        assert(interface_record(s, pos, i));
        assert(interface_from_blob(s, i));
        assert forall|k: int| 0 <= k < r.len() implies interface_from_blob(s, #[trigger] r[k]) by {
            if k < n {
                assert(r[k] == acc[k]);
            }
        }
    } else if n > 0 && ((t == 0x05 && len >= 7) || (t == 0x21 && len >= 9 && acc[n - 1].interface_class
        == 0x03) || (t == 0x30 && after && len >= 6 && acc[n - 1].endpoints.len() > 0)) {
        let last = acc[n - 1];
        let new_last = r[n - 1];
        assert(interface_from_blob(s, last));
        let p = choose|p: int| interface_record(s, p, last);
        assert(interface_record(s, p, new_last));
        if t == 0x05 {
            assert(endpoint_record(s, pos, new_last.endpoints[last.endpoints.len() as int]));
            assert forall|j: int| 0 <= j < new_last.endpoints.len() implies endpoint_from_blob(
                s,
                #[trigger] new_last.endpoints[j],
            ) by {
                if j < last.endpoints.len() {
                    assert(new_last.endpoints[j] == last.endpoints[j]);
                    assert(endpoint_from_blob(s, last.endpoints[j]));
                }
            }
        } else if t == 0x21 {
            assert(hid_record(s, pos, new_last.hid_descriptor->0));
            assert forall|j: int| 0 <= j < new_last.endpoints.len() implies endpoint_from_blob(
                s,
                #[trigger] new_last.endpoints[j],
            ) by {
                assert(new_last.endpoints[j] == last.endpoints[j]);
                assert(endpoint_from_blob(s, last.endpoints[j]));
            }
        } else {
            let m = last.endpoints.len();
            let ep = last.endpoints[m - 1];
            assert(endpoint_from_blob(s, ep));
            assert(endpoint_record(s, prev, new_last.endpoints[m - 1]));
            assert(companion_record(s, prev + s[prev], new_last.endpoints[m - 1].ss_companion->0));
            assert forall|j: int| 0 <= j < new_last.endpoints.len() implies endpoint_from_blob(
                s,
                #[trigger] new_last.endpoints[j],
            ) by {
                if j < m - 1 {
                    assert(new_last.endpoints[j] == last.endpoints[j]);
                    assert(endpoint_from_blob(s, last.endpoints[j]));
                }
            }
            if last.hid_descriptor is Some {
                assert(last.hid_descriptor == new_last.hid_descriptor);
            }
        }
        if t != 0x21 && last.hid_descriptor is Some {
            assert(last.hid_descriptor == new_last.hid_descriptor);
        }
        assert(interface_from_blob(s, new_last));
        assert forall|k: int| 0 <= k < r.len() implies interface_from_blob(s, #[trigger] r[k]) by {
            if k < n - 1 {
                assert(r[k] == acc[k]);
            }
        }
    } else {
        assert(r == acc);
    }
}

proof fn lemma_walk_from_blob(s: Seq<u8>, pos: int, end: int, acc: Seq<InterfaceModel>, after: bool, prev: int)
    requires
        end <= s.len(),
        interfaces_from_blob(s, acc),
        last_endpoint_at(s, acc, after, prev, pos),
    ensures
        interfaces_from_blob(s, walk_config(s, pos, end, acc, after)),
    decreases end - pos,
{
    if pos >= 0 && pos + 2 <= end {
        let len = s[pos] as int;
        if len >= 2 && pos + len <= end {
            let d = s.subrange(pos, pos + len);
            lemma_attach_from_blob(s, pos, len, acc, after, prev);
            lemma_walk_from_blob(s, pos + len, end, attach_descriptor(acc, d, after), is_endpoint_record(d), pos);
        }
    }
}

/// Every interface of a parsed configuration is read from an interface
/// record of the blob (bInterfaceNumber at byte 2 of the record,
/// bAlternateSetting at byte 3, and so on), each of its endpoints from an
/// endpoint record, each companion from a companion record, and a HID
/// descriptor only for a HID-class interface, from a HID record.
pub proof fn lemma_config_interfaces_from_records(s: Seq<u8>)
    requires
        is_config_descriptor(s),
    ensures
        interfaces_from_blob(s, config_of(s).interfaces),
{
    lemma_walk_from_blob(s, 9, config_walk_end(s), Seq::empty(), false, 0);
}

/// The header fields of a configuration descriptor at their offsets:
/// wTotalLength at 2..4 (little-endian), bNumInterfaces at 4,
/// bConfigurationValue at 5, iConfiguration at 6, bmAttributes at 7 and
/// bMaxPower at 8.
pub open spec fn config_header_at_offsets(s: Seq<u8>, c: ConfigModel) -> bool {
    &&& c.total_length == s[2] + s[3] * 256
    &&& c.num_interfaces == s[4]
    &&& c.configuration_value == s[5]
    &&& c.configuration_index == s[6]
    &&& c.attributes == s[7]
    &&& c.max_power == s[8]
}

/// A parsed configuration holds its header fields at their offsets.
pub proof fn lemma_config_header_offsets(s: Seq<u8>)
    requires
        is_config_descriptor(s),
    ensures
        config_header_at_offsets(s, config_of(s)),
{
}

/// `c` has the fields of the device capability record at `p` in `s`
/// (bLength at least 3, type 0x10, bDevCapabilityType at byte 2): a USB 2.0
/// Extension (type 2, at least 7 bytes) has bmAttributes from bytes 3..7
/// (little-endian); a SuperSpeed USB capability (type 3, at least 10 bytes)
/// has bmAttributes at 3, wSpeedsSupported at 4..6, bFunctionalitySupport
/// at 6, bU1DevExitLat at 7 and wU2DevExitLat at 8..10; a Container ID
/// (type 4, at least 20 bytes) has the 16 bytes from 4; any other record
/// keeps its type and the bytes after its header.
pub open spec fn capability_record(s: Seq<u8>, p: int, c: CapabilityModel) -> bool {
    let len = s[p] as int;
    &&& 0 <= p && len >= 3 && p + len <= s.len() && s[p + 1] == 0x10
    &&& match c {
        CapabilityModel::Usb20Extension(x) => s[p + 2] == 0x02 && len >= 7 && x.attributes == s[p + 3] + s[p + 4]
            * 0x100 + s[p + 5] * 0x1_0000 + s[p + 6] * 0x100_0000,
        CapabilityModel::SuperSpeedUsb(x) => s[p + 2] == 0x03 && len >= 10 && x.attributes == s[p + 3]
            && x.speed_supported == s[p + 4] + s[p + 5] * 256 && x.functionality_support == s[p + 6]
            && x.u1_dev_exit_lat == s[p + 7] && x.u2_dev_exit_lat == s[p + 8] + s[p + 9] * 256,
        CapabilityModel::ContainerId(id) => s[p + 2] == 0x04 && len >= 20 && id == s.subrange(p + 4, p + 20),
        CapabilityModel::Unknown { cap_type, data } => cap_type == s[p + 2] && data == s.subrange(p + 3, p + len)
            && !(s[p + 2] == 0x02 && len >= 7) && !(s[p + 2] == 0x03 && len >= 10) && !(s[p + 2] == 0x04 && len
            >= 20),
    }
}

/// Every capability of `caps` is read from a device capability record of `s`.
pub open spec fn capabilities_from_blob(s: Seq<u8>, caps: Seq<CapabilityModel>) -> bool {
    forall|k: int| 0 <= k < caps.len() ==> capability_from_blob(s, #[trigger] caps[k])
}

/// `c` is read from some device capability record of `s`.
pub open spec fn capability_from_blob(s: Seq<u8>, c: CapabilityModel) -> bool {
    exists|p: int| capability_record(s, p, c)
}

proof fn lemma_capability_of_record(s: Seq<u8>, pos: int)
    requires
        0 <= pos < s.len(),
        s[pos] >= 3,
        pos + s[pos] <= s.len(),
        s[pos + 1] == 0x10,
    ensures
        capability_record(s, pos, capability_of(s.subrange(pos, pos + s[pos]))),
{
    let len = s[pos] as int;
    let d = s.subrange(pos, pos + len);
    assert(forall|k: int| 0 <= k < len ==> d[k] == s[pos + k]);
    assert(d[2] == s[pos + 2]);
    if len >= 7 {
        assert(d[3] == s[pos + 3] && d[4] == s[pos + 4] && d[5] == s[pos + 5] && d[6] == s[pos + 6]);
    }
    if len >= 10 {
        assert(d[7] == s[pos + 7] && d[8] == s[pos + 8] && d[9] == s[pos + 9]);
    }
    if len >= 20 {
        assert(d.subrange(4, 20) =~= s.subrange(pos + 4, pos + 20));
    }
    assert(d.subrange(3, d.len() as int) =~= s.subrange(pos + 3, pos + len));
}

proof fn lemma_walk_bos_from_blob(s: Seq<u8>, pos: int, end: int, caps: Seq<CapabilityModel>)
    requires
        end <= s.len(),
        capabilities_from_blob(s, caps),
    ensures
        capabilities_from_blob(s, walk_bos(s, pos, end, caps)),
    decreases end - pos,
{
    if pos >= 0 && pos + 3 <= end {
        let len = s[pos] as int;
        if len >= 3 && pos + len <= end {
            if s[pos + 1] != 0x10 {
                lemma_walk_bos_from_blob(s, pos + len, end, caps);
            } else {
                let c = capability_of(s.subrange(pos, pos + len));
                lemma_capability_of_record(s, pos);
                let caps2 = caps.push(c);
                assert forall|k: int| 0 <= k < caps2.len() implies capability_from_blob(s, #[trigger] caps2[k]) by {
                    if k < caps.len() {
                        assert(caps2[k] == caps[k]);
                    } else {
                        assert(capability_record(s, pos, caps2[k]));
                    }
                }
                lemma_walk_bos_from_blob(s, pos + len, end, caps2);
            }
        }
    }
}

/// Every capability of a parsed BOS descriptor is read from a device
/// capability record of the blob, each field at its offset; and the header
/// holds wTotalLength at 2..4 and bNumDeviceCaps at 4.
pub proof fn lemma_bos_capabilities_from_records(s: Seq<u8>)
    requires
        is_bos_descriptor(s),
    ensures
        capabilities_from_blob(s, bos_of(s).capabilities),
        bos_of(s).total_length == s[2] + s[3] * 256,
        bos_of(s).num_device_caps == s[4],
{
    lemma_walk_bos_from_blob(s, 5, bos_walk_end(s), Seq::empty());
}

/// `info` is the classification of an endpoint of `ifaces` whose address is `k`.
pub open spec fn entry_from_endpoint(ifaces: Seq<InterfaceModel>, k: u8, info: crate::endpoint::EndpointInfo) -> bool {
    exists|i: int, j: int|
        0 <= i < ifaces.len() && 0 <= j < ifaces[i].endpoints.len() && #[trigger] ifaces[i].endpoints[j].endpoint_address
            == k && endpoint_classified(
            ifaces[i].endpoints[j].endpoint_address,
            ifaces[i].endpoints[j].attributes,
            ifaces[i].endpoints[j].max_packet_size,
            ifaces[i].endpoints[j].interval,
            info,
        )
}

/// Every entry of `m` classifies an endpoint of `ifaces` with the entry's address.
pub open spec fn table_from_endpoints(ifaces: Seq<InterfaceModel>, m: Map<u8, crate::endpoint::EndpointInfo>) -> bool {
    forall|k: u8| #[trigger] m.contains_key(k) ==> entry_from_endpoint(ifaces, k, m[k])
}

proof fn lemma_enter_from_endpoints(ifaces: Seq<InterfaceModel>, m: Map<u8, crate::endpoint::EndpointInfo>, i: int, n: int)
    requires
        table_from_endpoints(ifaces, m),
        0 <= i < ifaces.len(),
        0 <= n <= ifaces[i].endpoints.len(),
    ensures
        table_from_endpoints(ifaces, enter_endpoints(m, ifaces[i].endpoints.take(n))),
    decreases n,
{
    let eps = ifaces[i].endpoints;
    if n > 0 {
        assert(eps.take(n).drop_last() =~= eps.take(n - 1));
        lemma_enter_from_endpoints(ifaces, m, i, n - 1);
        let e = eps[n - 1];
        assert(eps.take(n).last() == e);
        lemma_endpoint_classification(e.endpoint_address, e.attributes, e.max_packet_size, e.interval);
        let prev = enter_endpoints(m, eps.take(n - 1));
        let r = enter_endpoints(m, eps.take(n));
        assert(r == prev.insert(e.endpoint_address, crate::usbdevfs::endpoint_info_of(e)));
        assert forall|k: u8| #[trigger] r.contains_key(k) implies entry_from_endpoint(ifaces, k, r[k]) by {
            if k == e.endpoint_address {
                assert(ifaces[i].endpoints[n - 1].endpoint_address == k);
            } else {
                assert(prev.contains_key(k));
            }
        }
    } else {
        assert(eps.take(0) =~= Seq::<EndpointDescriptor>::empty());
    }
}

proof fn lemma_table_prefix_from_endpoints(ifaces: Seq<InterfaceModel>, t: int)
    requires
        0 <= t <= ifaces.len(),
    ensures
        table_from_endpoints(ifaces, endpoint_table_of(ifaces.take(t))),
    decreases t,
{
    if t > 0 {
        assert(ifaces.take(t).drop_last() =~= ifaces.take(t - 1));
        assert(ifaces.take(t).last() == ifaces[t - 1]);
        lemma_table_prefix_from_endpoints(ifaces, t - 1);
        let eps = ifaces[t - 1].endpoints;
        assert(eps.take(eps.len() as int) =~= eps);
        lemma_enter_from_endpoints(ifaces, endpoint_table_of(ifaces.take(t - 1)), t - 1, eps.len() as int);
    } else {
        assert(ifaces.take(0) =~= Seq::<InterfaceModel>::empty());
        assert(endpoint_table_of(ifaces.take(0)) =~= Map::empty());
    }
}

/// Every entry of the endpoint table is keyed by the address of an
/// endpoint of the configuration and classifies that endpoint: the raw
/// address kept, its number, direction and transfer type read from its
/// address and attribute bits, its packet size and interval copied.
pub proof fn lemma_endpoint_table_entries(ifaces: Seq<InterfaceModel>)
    ensures
        table_from_endpoints(ifaces, endpoint_table_of(ifaces)),
{
    lemma_table_prefix_from_endpoints(ifaces, ifaces.len() as int);
    assert(ifaces.take(ifaces.len() as int) =~= ifaces);
}

/// The UTF-16 code units of a string descriptor of length `str_len` are
/// the little-endian pairs at bytes 2 and 3, 4 and 5, and so on, as many
/// whole pairs as follow the 2-byte header.
pub open spec fn string_units_at_offsets(s: Seq<u8>, str_len: int, u: Seq<u16>) -> bool {
    &&& u.len() == (str_len - 2) / 2
    &&& forall|k: int| 0 <= k < u.len() ==> #[trigger] u[k] == s[2 + 2 * k] + s[3 + 2 * k] * 256
}

/// A string descriptor's code units are read from its bytes in pairs after the header.
pub proof fn lemma_string_units_offsets(s: Seq<u8>, str_len: int)
    requires
        2 <= str_len <= s.len(),
    ensures
        string_units_at_offsets(s, str_len, string_descriptor_units(s, str_len)),
{
}

/// Each endpoint of `i` is read from an endpoint record lying strictly
/// between offsets `lo` and `hi` of `s`.
pub open spec fn endpoints_between(s: Seq<u8>, i: InterfaceModel, lo: int, hi: int) -> bool {
    forall|j: int| 0 <= j < i.endpoints.len() ==> endpoint_between(s, #[trigger] i.endpoints[j], lo, hi)
}

/// `e` is read from an endpoint record lying strictly between offsets `lo`
/// and `hi` of `s`.
pub open spec fn endpoint_between(s: Seq<u8>, e: EndpointDescriptor, lo: int, hi: int) -> bool {
    exists|q: int| lo < q < hi && endpoint_record(s, q, e)
}

proof fn lemma_endpoints_between_widen(s: Seq<u8>, i: InterfaceModel, lo: int, hi: int, hi2: int)
    requires
        endpoints_between(s, i, lo, hi),
        hi <= hi2,
    ensures
        endpoints_between(s, i, lo, hi2),
{
    assert forall|j: int| 0 <= j < i.endpoints.len() implies endpoint_between(s, #[trigger] i.endpoints[j], lo, hi2) by {
        assert(endpoint_between(s, i.endpoints[j], lo, hi));
        let q = choose|q: int| lo < q < hi && endpoint_record(s, q, i.endpoints[j]);
        assert(lo < q < hi2 && endpoint_record(s, q, i.endpoints[j]));
    }
}

/// The interfaces `ifaces` are read, in order, from interface records of
/// `s` at the increasing offsets `ps`, and the endpoints of each interface
/// are read from endpoint records after its own interface record and
/// before the next one (or before `end` for the last interface).
pub open spec fn interfaces_at(s: Seq<u8>, ifaces: Seq<InterfaceModel>, ps: Seq<int>, end: int) -> bool {
    &&& ps.len() == ifaces.len()
    &&& forall|k: int| 0 <= k < ifaces.len() ==> interface_record(s, #[trigger] ps[k], ifaces[k])
    &&& forall|k: int| 0 <= k < ifaces.len() - 1 ==> #[trigger] ps[k] < ps[k + 1]
    &&& forall|k: int|
        0 <= k < ifaces.len() ==> endpoints_between(
            s,
            #[trigger] ifaces[k],
            ps[k],
            if k + 1 < ifaces.len() { ps[k + 1] } else { end },
        )
}

/// The offsets, in order, of the records of type `ty` and at least
/// `min_len` bytes in the chain of descriptors that starts at `pos` and
/// ends before `end`: each record's first byte is its length, the next
/// record starts right after it, and the chain stops at a record shorter
/// than 2 bytes or running past `end`.
pub open spec fn record_offsets(s: Seq<u8>, pos: int, end: int, ty: u8, min_len: int) -> Seq<int>
    decreases end - pos,
{
    if 0 <= pos && pos + 2 <= end && s[pos] >= 2 && pos + s[pos] <= end {
        let rest = record_offsets(s, pos + s[pos], end, ty, min_len);
        if s[pos + 1] == ty && s[pos] >= min_len {
            seq![pos] + rest
        } else {
            rest
        }
    } else {
        Seq::empty()
    }
}

/// Where the descriptor chain of a configuration blob ends: at
/// wTotalLength (bytes 2..4, little-endian) or at the end of the blob,
/// whichever comes first.
pub open spec fn config_chain_end(s: Seq<u8>) -> int {
    let t = s[2] + s[3] * 256;
    if t < s.len() { t } else { s.len() as int }
}

proof fn lemma_attach_in_order(s: Seq<u8>, pos: int, len: int, acc: Seq<InterfaceModel>, after: bool, ps: Seq<int>) -> (ps2: Seq<int>)
    requires
        0 <= pos < s.len(),
        2 <= len,
        len == s[pos],
        pos + len <= s.len(),
        interfaces_at(s, acc, ps, pos),
        forall|k: int| 0 <= k < ps.len() ==> #[trigger] ps[k] < pos,
    ensures
        interfaces_at(s, attach_descriptor(acc, s.subrange(pos, pos + len), after), ps2, pos + len),
        forall|k: int| 0 <= k < ps2.len() ==> #[trigger] ps2[k] < pos + len,
        ps2 == if s[pos + 1] == 0x04 && len >= 9 { ps.push(pos) } else { ps },
{
    let d = s.subrange(pos, pos + len);
    let r = attach_descriptor(acc, d, after);
    let n = acc.len();
    let t = d[1];
    assert(forall|k: int| 0 <= k < len ==> d[k] == s[pos + k]);
    if t == 0x04 && len >= 9 {
        let ps2 = ps.push(pos);
        assert(interface_record(s, pos, r[n as int]));
        assert forall|k: int| 0 <= k < r.len() implies interface_record(s, #[trigger] ps2[k], r[k]) by {
            if k < n {
                assert(r[k] == acc[k] && ps2[k] == ps[k]);
            }
        }
        assert forall|k: int| 0 <= k < r.len() - 1 implies #[trigger] ps2[k] < ps2[k + 1] by {
            if k < n - 1 {
                assert(ps2[k] == ps[k] && ps2[k + 1] == ps[k + 1]);
            }
        }
        assert forall|k: int| 0 <= k < r.len() implies endpoints_between(
            s,
            #[trigger] r[k],
            ps2[k],
            if k + 1 < r.len() { ps2[k + 1] } else { pos + len },
        ) by {
            if k < n {
                assert(r[k] == acc[k] && ps2[k] == ps[k]);
                let hi_old = if k + 1 < n { ps[k + 1] } else { pos };
                let hi_new = if k + 1 < r.len() { ps2[k + 1] } else { pos + len };
                assert(hi_old <= hi_new);
                assert(endpoints_between(s, acc[k], ps[k], hi_old));
                lemma_endpoints_between_widen(s, acc[k], ps[k], hi_old, hi_new);
            }
        }
        ps2
    } else if n > 0 && ((t == 0x05 && len >= 7) || (t == 0x21 && len >= 9 && acc[n - 1].interface_class
        == 0x03) || (t == 0x30 && after && len >= 6 && acc[n - 1].endpoints.len() > 0)) {
        let last = acc[n - 1];
        let new_last = r[n - 1];
        assert forall|k: int| 0 <= k < r.len() implies interface_record(s, #[trigger] ps[k], r[k]) by {
            if k < n - 1 {
                assert(r[k] == acc[k]);
            }
        }
        assert forall|k: int| 0 <= k < r.len() implies endpoints_between(
            s,
            #[trigger] r[k],
            ps[k],
            if k + 1 < r.len() { ps[k + 1] } else { pos + len },
        ) by {
            if k < n - 1 {
                assert(r[k] == acc[k]);
            } else {
                assert(endpoints_between(s, last, ps[k], pos));
                lemma_endpoints_between_widen(s, last, ps[k], pos, pos + len);
                assert forall|j: int| 0 <= j < new_last.endpoints.len() implies endpoint_between(
                    s,
                    #[trigger] new_last.endpoints[j],
                    ps[k],
                    pos + len,
                ) by {
                    if j < last.endpoints.len() {
                        let e0 = last.endpoints[j];
                        let e1 = new_last.endpoints[j];
                        assert(endpoint_between(s, e0, ps[k], pos + len));
                        let q = choose|q: int| ps[k] < q < pos + len && endpoint_record(s, q, e0);
                        assert(e1.endpoint_address == e0.endpoint_address && e1.attributes == e0.attributes
                            && e1.max_packet_size == e0.max_packet_size && e1.interval == e0.interval);
                        assert(ps[k] < q < pos + len && endpoint_record(s, q, e1));
                    } else {
                        assert(ps[k] < pos && endpoint_record(s, pos, new_last.endpoints[j]));
                    }
                }
            }
        }
        ps
    } else {
        assert(r == acc);
        assert forall|k: int| 0 <= k < r.len() implies endpoints_between(
            s,
            #[trigger] r[k],
            ps[k],
            if k + 1 < r.len() { ps[k + 1] } else { pos + len },
        ) by {
            if k == n - 1 {
                assert(endpoints_between(s, acc[k], ps[k], pos));
                lemma_endpoints_between_widen(s, acc[k], ps[k], pos, pos + len);
            }
        }
        ps
    }
}

proof fn lemma_walk_in_order(s: Seq<u8>, pos: int, end: int, acc: Seq<InterfaceModel>, after: bool, ps: Seq<int>) -> (ps2: Seq<int>)
    requires
        0 <= pos <= s.len(),
        end <= s.len(),
        interfaces_at(s, acc, ps, pos),
        forall|k: int| 0 <= k < ps.len() ==> #[trigger] ps[k] < pos,
    ensures
        interfaces_at(s, walk_config(s, pos, end, acc, after), ps2, s.len() as int),
        ps2 == ps + record_offsets(s, pos, end, 0x04, 9),
    decreases end - pos,
{
    if pos + 2 <= end {
        let len = s[pos] as int;
        if len >= 2 && pos + len <= end {
            let d = s.subrange(pos, pos + len);
            let ps1 = lemma_attach_in_order(s, pos, len, acc, after, ps);
            let ps2 = lemma_walk_in_order(s, pos + len, end, attach_descriptor(acc, d, after), is_endpoint_record(d), ps1);
            let rest = record_offsets(s, pos + len, end, 0x04, 9);
            if s[pos + 1] == 0x04 && len >= 9 {
                assert(ps.push(pos) + rest =~= ps + (seq![pos] + rest));
            }
            return ps2;
        }
    }
    lemma_interfaces_at_widen(s, acc, ps, pos, s.len() as int);
    assert(ps + record_offsets(s, pos, end, 0x04, 9) =~= ps);
    ps
}

proof fn lemma_interfaces_at_widen(s: Seq<u8>, acc: Seq<InterfaceModel>, ps: Seq<int>, hi: int, hi2: int)
    requires
        interfaces_at(s, acc, ps, hi),
        hi <= hi2,
    ensures
        interfaces_at(s, acc, ps, hi2),
{
    let n = acc.len();
    assert forall|k: int| 0 <= k < n implies endpoints_between(
        s,
        #[trigger] acc[k],
        ps[k],
        if k + 1 < n { ps[k + 1] } else { hi2 },
    ) by {
        if k == n - 1 {
            assert(endpoints_between(s, acc[k], ps[k], hi));
            lemma_endpoints_between_widen(s, acc[k], ps[k], hi, hi2);
        }
    }
}

/// The interfaces of a parsed configuration are exactly the interface
/// records (type 0x04, at least 9 bytes) of the descriptor chain that
/// follows the 9-byte header, one for each and in the chain's order; and
/// each endpoint belongs to the interface whose record is the last
/// interface record before the endpoint's own record.
pub proof fn lemma_config_interfaces_in_order(s: Seq<u8>)
    requires
        is_config_descriptor(s),
    ensures
        interfaces_at(s, config_of(s).interfaces, record_offsets(s, 9, config_chain_end(s), 0x04, 9), s.len() as int),
{
    let ps = lemma_walk_in_order(s, 9, config_walk_end(s), Seq::empty(), false, Seq::empty());
    assert(config_chain_end(s) == config_walk_end(s));
    assert(ps =~= record_offsets(s, 9, config_chain_end(s), 0x04, 9));
}

/// The offsets, in order, of the endpoint records (type 0x05, at least 7
/// bytes) in the descriptor chain from `pos` up to the next interface
/// record (type 0x04, at least 9 bytes) or the end of the chain.
pub open spec fn endpoint_offsets(s: Seq<u8>, pos: int, end: int) -> Seq<int>
    decreases end - pos,
{
    if 0 <= pos && pos + 2 <= end && s[pos] >= 2 && pos + s[pos] <= end {
        if s[pos + 1] == 0x04 && s[pos] >= 9 {
            Seq::empty()
        } else {
            let rest = endpoint_offsets(s, pos + s[pos], end);
            if s[pos + 1] == 0x05 && s[pos] >= 7 {
                seq![pos] + rest
            } else {
                rest
            }
        }
    } else {
        Seq::empty()
    }
}

/// The endpoints of `i`, whose interface record is at `p`, are read one
/// for one and in order from the endpoint records that follow that
/// interface record in the chain, up to the next interface record.
pub open spec fn endpoints_exact(s: Seq<u8>, i: InterfaceModel, p: int, end: int) -> bool {
    let eo = endpoint_offsets(s, p + s[p], end);
    &&& i.endpoints.len() == eo.len()
    &&& forall|j: int| 0 <= j < eo.len() ==> endpoint_record(s, #[trigger] eo[j], i.endpoints[j])
}

/// The endpoints of each interface of `ifaces` (records at `ps`) are
/// exactly those of its segment of the chain.
pub open spec fn endpoints_from_segments(s: Seq<u8>, ifaces: Seq<InterfaceModel>, ps: Seq<int>, end: int) -> bool {
    forall|k: int| 0 <= k < ifaces.len() ==> endpoints_exact(s, #[trigger] ifaces[k], ps[k], end)
}

/// While the walk stands at `pos`: every interface but the last is done,
/// and the endpoints of the last one so far are the first of its segment,
/// the rest of which is what the chain holds from `pos` on.
pub open spec fn segments_so_far(s: Seq<u8>, acc: Seq<InterfaceModel>, ps: Seq<int>, pos: int, end: int) -> bool {
    let n = acc.len();
    &&& ps.len() == n
    &&& forall|k: int| 0 <= k < n - 1 ==> endpoints_exact(s, #[trigger] acc[k], ps[k], end)
    &&& n > 0 ==> {
        let eo = endpoint_offsets(s, ps[n - 1] + s[ps[n - 1]], end);
        let m = acc[n - 1].endpoints.len() as int;
        &&& m <= eo.len()
        &&& eo == eo.take(m) + endpoint_offsets(s, pos, end)
        &&& forall|j: int| 0 <= j < m ==> endpoint_record(s, #[trigger] eo[j], acc[n - 1].endpoints[j])
    }
}

proof fn lemma_attach_segments(s: Seq<u8>, pos: int, end: int, acc: Seq<InterfaceModel>, after: bool, ps: Seq<int>)
    requires
        0 <= pos,
        pos + 2 <= end,
        end <= s.len(),
        s[pos] >= 2,
        pos + s[pos] <= end,
        segments_so_far(s, acc, ps, pos, end),
    ensures
        segments_so_far(
            s,
            attach_descriptor(acc, s.subrange(pos, pos + s[pos]), after),
            if s[pos + 1] == 0x04 && s[pos] >= 9 { ps.push(pos) } else { ps },
            pos + s[pos],
            end,
        ),
{
    let len = s[pos] as int;
    let d = s.subrange(pos, pos + len);
    let r = attach_descriptor(acc, d, after);
    let n = acc.len();
    let t = d[1];
    assert(forall|k: int| 0 <= k < len ==> d[k] == s[pos + k]);
    let rest = endpoint_offsets(s, pos + len, end);
    if t == 0x04 && len >= 9 {
        let ps2 = ps.push(pos);
        assert(endpoint_offsets(s, pos, end) =~= Seq::<int>::empty());
        if n > 0 {
            let eo = endpoint_offsets(s, ps[n - 1] + s[ps[n - 1]], end);
            let m = acc[n - 1].endpoints.len() as int;
            assert(eo.take(m) + Seq::<int>::empty() =~= eo.take(m));
            assert(eo.len() == m);
            assert(endpoints_exact(s, acc[n - 1], ps[n - 1], end));
        }
        assert forall|k: int| 0 <= k < r.len() - 1 implies endpoints_exact(s, #[trigger] r[k], ps2[k], end) by {
            assert(r[k] == acc[k] && ps2[k] == ps[k]);
        }
        let eo = endpoint_offsets(s, ps2[n as int] + s[ps2[n as int]], end);
        assert(r[n as int].endpoints.len() == 0);
        assert(eo == eo.take(0) + rest) by {
            assert(eo.take(0) + rest =~= rest);
        }
    } else if n > 0 && t == 0x05 && len >= 7 {
        let last = acc[n - 1];
        let new_last = r[n - 1];
        let m = last.endpoints.len() as int;
        let eo = endpoint_offsets(s, ps[n - 1] + s[ps[n - 1]], end);
        assert(endpoint_offsets(s, pos, end) == seq![pos] + rest);
        assert(eo.take(m) + (seq![pos] + rest) =~= eo.take(m + 1) + rest) by {
            assert(eo[m] == (eo.take(m) + (seq![pos] + rest))[m]);
        }
        assert(eo[m] == pos) by {
            assert((eo.take(m) + (seq![pos] + rest))[m] == pos);
        }
        assert(new_last.endpoints.len() == m + 1);
        assert forall|j: int| 0 <= j < m + 1 implies endpoint_record(s, #[trigger] eo[j], new_last.endpoints[j]) by {
            if j < m {
                assert(new_last.endpoints[j] == last.endpoints[j]);
            } else {
                assert(endpoint_record(s, pos, new_last.endpoints[j]));
            }
        }
        assert forall|k: int| 0 <= k < r.len() - 1 implies endpoints_exact(s, #[trigger] r[k], ps[k], end) by {
            assert(r[k] == acc[k]);
        }
    } else {
        if !(t == 0x05 && len >= 7) {
            assert(endpoint_offsets(s, pos, end) == rest);
        }
        if n > 0 {
            let last = acc[n - 1];
            let new_last = r[n - 1];
            let m = last.endpoints.len() as int;
            let eo = endpoint_offsets(s, ps[n - 1] + s[ps[n - 1]], end);
            assert(new_last.endpoints.len() == m);
            assert forall|j: int| 0 <= j < m implies endpoint_record(s, #[trigger] eo[j], new_last.endpoints[j]) by {
                let e0 = last.endpoints[j];
                let e1 = new_last.endpoints[j];
                assert(endpoint_record(s, eo[j], e0));
                assert(e1.endpoint_address == e0.endpoint_address && e1.attributes == e0.attributes
                    && e1.max_packet_size == e0.max_packet_size && e1.interval == e0.interval);
            }
            assert forall|k: int| 0 <= k < r.len() - 1 implies endpoints_exact(s, #[trigger] r[k], ps[k], end) by {
                assert(r[k] == acc[k]);
            }
        }
    }
}

proof fn lemma_walk_segments(s: Seq<u8>, pos: int, end: int, acc: Seq<InterfaceModel>, after: bool, ps: Seq<int>)
    requires
        0 <= pos,
        end <= s.len(),
        segments_so_far(s, acc, ps, pos, end),
    ensures
        endpoints_from_segments(s, walk_config(s, pos, end, acc, after), ps + record_offsets(s, pos, end, 0x04, 9), end),
    decreases end - pos,
{
    if pos + 2 <= end && s[pos] >= 2 && pos + s[pos] <= end {
        let len = s[pos] as int;
        let d = s.subrange(pos, pos + len);
        let ps1 = if s[pos + 1] == 0x04 && len >= 9 { ps.push(pos) } else { ps };
        lemma_attach_segments(s, pos, end, acc, after, ps);
        lemma_walk_segments(s, pos + len, end, attach_descriptor(acc, d, after), is_endpoint_record(d), ps1);
        let rest = record_offsets(s, pos + len, end, 0x04, 9);
        if s[pos + 1] == 0x04 && len >= 9 {
            assert(ps.push(pos) + rest =~= ps + (seq![pos] + rest));
        }
    } else {
        let n = acc.len();
        assert(ps + record_offsets(s, pos, end, 0x04, 9) =~= ps);
        assert(endpoint_offsets(s, pos, end) =~= Seq::<int>::empty());
        if n > 0 {
            let eo = endpoint_offsets(s, ps[n - 1] + s[ps[n - 1]], end);
            let m = acc[n - 1].endpoints.len() as int;
            assert(eo.take(m) + Seq::<int>::empty() =~= eo.take(m));
        }
        assert forall|k: int| 0 <= k < n implies endpoints_exact(s, #[trigger] acc[k], ps[k], end) by {
            if k == n - 1 {
                let eo = endpoint_offsets(s, ps[n - 1] + s[ps[n - 1]], end);
                let m = acc[n - 1].endpoints.len() as int;
                assert(eo.len() == m);
            }
        }
    }
}

/// The endpoints of each interface of a parsed configuration are exactly
/// the endpoint records (type 0x05, at least 7 bytes) that follow its
/// interface record in the descriptor chain, up to the next interface
/// record: one for one, in order, each field at its offset.
pub proof fn lemma_config_endpoints_from_segments(s: Seq<u8>)
    requires
        is_config_descriptor(s),
    ensures
        endpoints_from_segments(
            s,
            config_of(s).interfaces,
            record_offsets(s, 9, config_chain_end(s), 0x04, 9),
            config_chain_end(s),
        ),
{
    assert(config_chain_end(s) == config_walk_end(s));
    lemma_walk_segments(s, 9, config_walk_end(s), Seq::empty(), false, Seq::empty());
    assert(Seq::<int>::empty() + record_offsets(s, 9, config_chain_end(s), 0x04, 9) =~= record_offsets(
        s,
        9,
        config_chain_end(s),
        0x04,
        9,
    ));
}

/// A SuperSpeed companion record (type 0x30, at least 6 bytes) is the next
/// record of the chain after the record at `q`.
pub open spec fn companion_follows(s: Seq<u8>, q: int, end: int) -> bool {
    let c = q + s[q];
    &&& 0 <= c && c + 2 <= end && s[c] >= 6 && c + s[c] <= end
    &&& s[c + 1] == 0x30
}

/// The endpoint `e`, read from the record at `q`, has a companion exactly
/// when a companion record immediately follows that record, and then it
/// is read from that companion record.
pub open spec fn companion_matches(s: Seq<u8>, q: int, end: int, e: EndpointDescriptor) -> bool {
    &&& (e.ss_companion is Some) == companion_follows(s, q, end)
    &&& e.ss_companion matches Some(c) ==> companion_record(s, q + s[q], c)
}

/// Each endpoint of `i` (interface record at `p`) has the companion, if
/// any, that immediately follows its endpoint record in the chain.
pub open spec fn companions_exact(s: Seq<u8>, i: InterfaceModel, p: int, end: int) -> bool {
    let eo = endpoint_offsets(s, p + s[p], end);
    forall|j: int| 0 <= j < eo.len() ==> companion_matches(s, #[trigger] eo[j], end, i.endpoints[j])
}

/// Each endpoint of each interface of `ifaces` (records at `ps`) has the
/// companion that immediately follows its record, if any.
pub open spec fn companions_from_segments(s: Seq<u8>, ifaces: Seq<InterfaceModel>, ps: Seq<int>, end: int) -> bool {
    forall|k: int| 0 <= k < ifaces.len() ==> companions_exact(s, #[trigger] ifaces[k], ps[k], end)
}

/// While the walk stands at `pos`: every endpoint has its final companion,
/// except the last endpoint of the last interface when the record just
/// before `pos` was its endpoint record (`after`); that one has none yet.
pub open spec fn companions_so_far(s: Seq<u8>, acc: Seq<InterfaceModel>, ps: Seq<int>, pos: int, end: int, after: bool) -> bool {
    let n = acc.len();
    &&& forall|k: int| 0 <= k < n - 1 ==> companions_exact(s, #[trigger] acc[k], ps[k], end)
    &&& n > 0 ==> {
        let eo = endpoint_offsets(s, ps[n - 1] + s[ps[n - 1]], end);
        let m = acc[n - 1].endpoints.len() as int;
        &&& forall|j: int|
            0 <= j < m && !(after && j == m - 1) ==> companion_matches(s, #[trigger] eo[j], end, acc[n - 1].endpoints[j])
        &&& after ==> m > 0 && eo[m - 1] + s[eo[m - 1]] == pos && acc[n - 1].endpoints[m - 1].ss_companion is None
    }
}

proof fn lemma_attach_companions(s: Seq<u8>, pos: int, end: int, acc: Seq<InterfaceModel>, after: bool, ps: Seq<int>)
    requires
        0 <= pos,
        pos + 2 <= end,
        end <= s.len(),
        s[pos] >= 2,
        pos + s[pos] <= end,
        segments_so_far(s, acc, ps, pos, end),
        companions_so_far(s, acc, ps, pos, end, after),
    ensures
        companions_so_far(
            s,
            attach_descriptor(acc, s.subrange(pos, pos + s[pos]), after),
            if s[pos + 1] == 0x04 && s[pos] >= 9 { ps.push(pos) } else { ps },
            pos + s[pos],
            end,
            is_endpoint_record(s.subrange(pos, pos + s[pos])),
        ),
{
    let len = s[pos] as int;
    let d = s.subrange(pos, pos + len);
    let r = attach_descriptor(acc, d, after);
    let n = acc.len();
    let t = d[1];
    let after2 = is_endpoint_record(d);
    assert(forall|k: int| 0 <= k < len ==> d[k] == s[pos + k]);
    lemma_attach_segments(s, pos, end, acc, after, ps);
    let rest = endpoint_offsets(s, pos + len, end);
    if n > 0 {
        let last = acc[n - 1];
        let m = last.endpoints.len() as int;
        let eo = endpoint_offsets(s, ps[n - 1] + s[ps[n - 1]], end);
        // The last endpoint so far gets its final companion status at this record.
        if after {
            assert(companion_follows(s, eo[m - 1], end) == (t == 0x30 && len >= 6));
        }
        if t == 0x04 && len >= 9 {
            let ps2 = ps.push(pos);
            assert forall|k: int| 0 <= k < r.len() - 1 implies companions_exact(s, #[trigger] r[k], ps2[k], end) by {
                assert(r[k] == acc[k] && ps2[k] == ps[k]);
                if k == n - 1 {
                    assert(eo.len() == m);
                    assert forall|j: int| 0 <= j < eo.len() implies companion_matches(
                        s,
                        #[trigger] eo[j],
                        end,
                        last.endpoints[j],
                    ) by {}
                }
            }
        } else if t == 0x05 && len >= 7 {
            let new_last = r[n - 1];
            assert(eo[m] == pos);
            assert forall|j: int| 0 <= j < m + 1 && !(after2 && j == m) implies companion_matches(
                s,
                #[trigger] eo[j],
                end,
                new_last.endpoints[j],
            ) by {
                assert(new_last.endpoints[j] == last.endpoints[j]);
            }
            assert forall|k: int| 0 <= k < r.len() - 1 implies companions_exact(s, #[trigger] r[k], ps[k], end) by {
                assert(r[k] == acc[k]);
            }
        } else if t == 0x30 && after && len >= 6 && m > 0 {
            let new_last = r[n - 1];
            assert(new_last.endpoints.len() == m);
            assert forall|j: int| 0 <= j < m implies companion_matches(s, #[trigger] eo[j], end, new_last.endpoints[j]) by {
                if j < m - 1 {
                    assert(new_last.endpoints[j] == last.endpoints[j]);
                } else {
                    assert(companion_record(s, pos, new_last.endpoints[j].ss_companion->0));
                }
            }
            assert forall|k: int| 0 <= k < r.len() - 1 implies companions_exact(s, #[trigger] r[k], ps[k], end) by {
                assert(r[k] == acc[k]);
            }
        } else {
            let new_last = r[n - 1];
            assert(new_last.endpoints.len() == m);
            assert forall|j: int| 0 <= j < m && !(after2 && j == m - 1) implies companion_matches(
                s,
                #[trigger] eo[j],
                end,
                new_last.endpoints[j],
            ) by {
                assert(new_last.endpoints[j].ss_companion == last.endpoints[j].ss_companion);
            }
            assert forall|k: int| 0 <= k < r.len() - 1 implies companions_exact(s, #[trigger] r[k], ps[k], end) by {
                assert(r[k] == acc[k]);
            }
        }
    }
}

proof fn lemma_walk_companions(s: Seq<u8>, pos: int, end: int, acc: Seq<InterfaceModel>, after: bool, ps: Seq<int>)
    requires
        0 <= pos,
        end <= s.len(),
        segments_so_far(s, acc, ps, pos, end),
        companions_so_far(s, acc, ps, pos, end, after),
    ensures
        companions_from_segments(s, walk_config(s, pos, end, acc, after), ps + record_offsets(s, pos, end, 0x04, 9), end),
    decreases end - pos,
{
    if pos + 2 <= end && s[pos] >= 2 && pos + s[pos] <= end {
        let len = s[pos] as int;
        let d = s.subrange(pos, pos + len);
        let ps1 = if s[pos + 1] == 0x04 && len >= 9 { ps.push(pos) } else { ps };
        lemma_attach_segments(s, pos, end, acc, after, ps);
        lemma_attach_companions(s, pos, end, acc, after, ps);
        lemma_walk_companions(s, pos + len, end, attach_descriptor(acc, d, after), is_endpoint_record(d), ps1);
        let rest = record_offsets(s, pos + len, end, 0x04, 9);
        if s[pos + 1] == 0x04 && len >= 9 {
            assert(ps.push(pos) + rest =~= ps + (seq![pos] + rest));
        }
    } else {
        let n = acc.len();
        assert(ps + record_offsets(s, pos, end, 0x04, 9) =~= ps);
        assert(endpoint_offsets(s, pos, end) =~= Seq::<int>::empty());
        assert forall|k: int| 0 <= k < n implies companions_exact(s, #[trigger] acc[k], ps[k], end) by {
            if k == n - 1 {
                let eo = endpoint_offsets(s, ps[n - 1] + s[ps[n - 1]], end);
                let m = acc[n - 1].endpoints.len() as int;
                assert(eo.take(m) + Seq::<int>::empty() =~= eo.take(m));
                assert(eo.len() == m);
                if after {
                    assert(!companion_follows(s, eo[m - 1], end));
                }
            }
        }
    }
}

/// Each endpoint of a parsed configuration has a SuperSpeed companion
/// exactly when a companion record (type 0x30, at least 6 bytes) is the
/// record that immediately follows its endpoint record in the chain, and
/// then the companion's fields are read from that record.
pub proof fn lemma_config_companions_from_records(s: Seq<u8>)
    requires
        is_config_descriptor(s),
    ensures
        companions_from_segments(
            s,
            config_of(s).interfaces,
            record_offsets(s, 9, config_chain_end(s), 0x04, 9),
            config_chain_end(s),
        ),
{
    assert(config_chain_end(s) == config_walk_end(s));
    lemma_walk_companions(s, 9, config_walk_end(s), Seq::empty(), false, Seq::empty());
    assert(Seq::<int>::empty() + record_offsets(s, 9, config_chain_end(s), 0x04, 9) =~= record_offsets(
        s,
        9,
        config_chain_end(s),
        0x04,
        9,
    ));
}

/// The offsets, in order, of the HID records (type 0x21, at least 9
/// bytes) in the descriptor chain from `pos` up to the next interface
/// record (type 0x04, at least 9 bytes) or the end of the chain.
pub open spec fn hid_offsets(s: Seq<u8>, pos: int, end: int) -> Seq<int>
    decreases end - pos,
{
    if 0 <= pos && pos + 2 <= end && s[pos] >= 2 && pos + s[pos] <= end {
        if s[pos + 1] == 0x04 && s[pos] >= 9 {
            Seq::empty()
        } else {
            let rest = hid_offsets(s, pos + s[pos], end);
            if s[pos + 1] == 0x21 && s[pos] >= 9 {
                seq![pos] + rest
            } else {
                rest
            }
        }
    } else {
        Seq::empty()
    }
}

/// The interface `i` (record at `p`) has a HID descriptor exactly when it
/// is of the HID class (0x03) and a HID record follows its interface
/// record in the chain before the next interface record; the descriptor
/// is then read from the last such HID record.
pub open spec fn hid_exact(s: Seq<u8>, i: InterfaceModel, p: int, end: int) -> bool {
    let ho = hid_offsets(s, p + s[p], end);
    &&& (i.hid_descriptor is Some) == (i.interface_class == 0x03 && ho.len() > 0)
    &&& i.hid_descriptor matches Some(h) ==> hid_record(s, ho.last(), h)
}

/// Each interface of `ifaces` (records at `ps`) has the HID descriptor of
/// its segment of the chain, as `hid_exact` says.
pub open spec fn hids_from_segments(s: Seq<u8>, ifaces: Seq<InterfaceModel>, ps: Seq<int>, end: int) -> bool {
    forall|k: int| 0 <= k < ifaces.len() ==> hid_exact(s, #[trigger] ifaces[k], ps[k], end)
}

/// While the walk stands at `pos`: every interface but the last has its
/// final HID descriptor, and the last one has that of the HID records of
/// its segment seen so far.
pub open spec fn hids_so_far(s: Seq<u8>, acc: Seq<InterfaceModel>, ps: Seq<int>, pos: int, end: int) -> bool {
    let n = acc.len();
    &&& ps.len() == n
    &&& forall|k: int| 0 <= k < n - 1 ==> hid_exact(s, #[trigger] acc[k], ps[k], end)
    &&& n > 0 ==> {
        let ho = hid_offsets(s, ps[n - 1] + s[ps[n - 1]], end);
        let rem = hid_offsets(s, pos, end);
        let a = ho.len() - rem.len();
        &&& a >= 0
        &&& ho == ho.take(a) + rem
        &&& (acc[n - 1].hid_descriptor is Some) == (acc[n - 1].interface_class == 0x03 && a > 0)
        &&& acc[n - 1].hid_descriptor matches Some(h) ==> hid_record(s, ho[a - 1], h)
    }
}

proof fn lemma_attach_hids(s: Seq<u8>, pos: int, end: int, acc: Seq<InterfaceModel>, after: bool, ps: Seq<int>)
    requires
        0 <= pos,
        pos + 2 <= end,
        end <= s.len(),
        s[pos] >= 2,
        pos + s[pos] <= end,
        hids_so_far(s, acc, ps, pos, end),
    ensures
        hids_so_far(
            s,
            attach_descriptor(acc, s.subrange(pos, pos + s[pos]), after),
            if s[pos + 1] == 0x04 && s[pos] >= 9 { ps.push(pos) } else { ps },
            pos + s[pos],
            end,
        ),
{
    let len = s[pos] as int;
    let d = s.subrange(pos, pos + len);
    let r = attach_descriptor(acc, d, after);
    let n = acc.len();
    let t = d[1];
    assert(forall|k: int| 0 <= k < len ==> d[k] == s[pos + k]);
    let rest = hid_offsets(s, pos + len, end);
    if t == 0x04 && len >= 9 {
        let ps2 = ps.push(pos);
        assert(hid_offsets(s, pos, end) =~= Seq::<int>::empty());
        if n > 0 {
            let ho = hid_offsets(s, ps[n - 1] + s[ps[n - 1]], end);
            let a = ho.len() as int;
            assert(ho.take(a) + Seq::<int>::empty() =~= ho.take(a));
            assert(hid_exact(s, acc[n - 1], ps[n - 1], end));
        }
        assert forall|k: int| 0 <= k < r.len() - 1 implies hid_exact(s, #[trigger] r[k], ps2[k], end) by {
            assert(r[k] == acc[k] && ps2[k] == ps[k]);
        }
        let ho = hid_offsets(s, ps2[n as int] + s[ps2[n as int]], end);
        assert(ho == ho.take(0) + rest) by {
            assert(ho.take(0) + rest =~= rest);
        }
    } else if n > 0 {
        let last = acc[n - 1];
        let new_last = r[n - 1];
        let ho = hid_offsets(s, ps[n - 1] + s[ps[n - 1]], end);
        let rem = hid_offsets(s, pos, end);
        let a = ho.len() - rem.len();
        assert(new_last.interface_class == last.interface_class);
        if t == 0x21 && len >= 9 {
            assert(rem == seq![pos] + rest);
            assert(ho.take(a) + (seq![pos] + rest) =~= ho.take(a + 1) + rest) by {
                assert(ho[a] == (ho.take(a) + (seq![pos] + rest))[a]);
            }
            assert(ho[a] == pos) by {
                assert((ho.take(a) + (seq![pos] + rest))[a] == pos);
            }
            if last.interface_class == 0x03 {
                assert(hid_record(s, pos, new_last.hid_descriptor->0));
            } else {
                assert(new_last.hid_descriptor == last.hid_descriptor);
            }
        } else {
            assert(rem == rest);
            assert(new_last.hid_descriptor == last.hid_descriptor);
        }
        assert forall|k: int| 0 <= k < r.len() - 1 implies hid_exact(s, #[trigger] r[k], ps[k], end) by {
            assert(r[k] == acc[k]);
        }
    }
}

proof fn lemma_walk_hids(s: Seq<u8>, pos: int, end: int, acc: Seq<InterfaceModel>, after: bool, ps: Seq<int>)
    requires
        0 <= pos,
        end <= s.len(),
        hids_so_far(s, acc, ps, pos, end),
    ensures
        hids_from_segments(s, walk_config(s, pos, end, acc, after), ps + record_offsets(s, pos, end, 0x04, 9), end),
    decreases end - pos,
{
    if pos + 2 <= end && s[pos] >= 2 && pos + s[pos] <= end {
        let len = s[pos] as int;
        let d = s.subrange(pos, pos + len);
        let ps1 = if s[pos + 1] == 0x04 && len >= 9 { ps.push(pos) } else { ps };
        lemma_attach_hids(s, pos, end, acc, after, ps);
        lemma_walk_hids(s, pos + len, end, attach_descriptor(acc, d, after), is_endpoint_record(d), ps1);
        let rest = record_offsets(s, pos + len, end, 0x04, 9);
        if s[pos + 1] == 0x04 && len >= 9 {
            assert(ps.push(pos) + rest =~= ps + (seq![pos] + rest));
        }
    } else {
        let n = acc.len();
        assert(ps + record_offsets(s, pos, end, 0x04, 9) =~= ps);
        assert(hid_offsets(s, pos, end) =~= Seq::<int>::empty());
        assert forall|k: int| 0 <= k < n implies hid_exact(s, #[trigger] acc[k], ps[k], end) by {
            if k == n - 1 {
                let ho = hid_offsets(s, ps[n - 1] + s[ps[n - 1]], end);
                let a = ho.len() as int;
                assert(ho.take(a) + Seq::<int>::empty() =~= ho.take(a));
            }
        }
    }
}

/// Each interface of a parsed configuration has a HID descriptor exactly
/// when it is of the HID class (0x03) and a HID record (type 0x21, at
/// least 9 bytes) follows its interface record before the next interface
/// record; the descriptor is then read from the last such HID record.
pub proof fn lemma_config_hids_from_records(s: Seq<u8>)
    requires
        is_config_descriptor(s),
    ensures
        hids_from_segments(
            s,
            config_of(s).interfaces,
            record_offsets(s, 9, config_chain_end(s), 0x04, 9),
            config_chain_end(s),
        ),
{
    assert(config_chain_end(s) == config_walk_end(s));
    lemma_walk_hids(s, 9, config_walk_end(s), Seq::empty(), false, Seq::empty());
    assert(Seq::<int>::empty() + record_offsets(s, 9, config_chain_end(s), 0x04, 9) =~= record_offsets(
        s,
        9,
        config_chain_end(s),
        0x04,
        9,
    ));
}

/// The offsets, in order, of the device capability records (type 0x10)
/// in the chain of records of at least 3 bytes that starts at `pos` and
/// stops at a record shorter than 3 bytes or running past `end`.
pub open spec fn capability_offsets(s: Seq<u8>, pos: int, end: int) -> Seq<int>
    decreases end - pos,
{
    if 0 <= pos && pos + 3 <= end && s[pos] >= 3 && pos + s[pos] <= end {
        let rest = capability_offsets(s, pos + s[pos], end);
        if s[pos + 1] == 0x10 {
            seq![pos] + rest
        } else {
            rest
        }
    } else {
        Seq::empty()
    }
}

/// Where the capability chain of a BOS blob ends: at wTotalLength (bytes
/// 2..4, little-endian) or at the end of the blob, whichever comes first.
pub open spec fn bos_chain_end(s: Seq<u8>) -> int {
    let t = s[2] + s[3] * 256;
    if t < s.len() { t } else { s.len() as int }
}

/// `caps` are read one for one, in order, from the device capability
/// records at the offsets `co`.
pub open spec fn capabilities_at(s: Seq<u8>, caps: Seq<CapabilityModel>, co: Seq<int>) -> bool {
    &&& caps.len() == co.len()
    &&& forall|k: int| 0 <= k < co.len() ==> capability_record(s, #[trigger] co[k], caps[k])
}

proof fn lemma_walk_bos_in_order(s: Seq<u8>, pos: int, end: int, caps: Seq<CapabilityModel>, co: Seq<int>)
    requires
        end <= s.len(),
        capabilities_at(s, caps, co),
    ensures
        capabilities_at(s, walk_bos(s, pos, end, caps), co + capability_offsets(s, pos, end)),
    decreases end - pos,
{
    if pos >= 0 && pos + 3 <= end && s[pos] >= 3 && pos + s[pos] <= end {
        let len = s[pos] as int;
        let rest = capability_offsets(s, pos + len, end);
        if s[pos + 1] != 0x10 {
            lemma_walk_bos_in_order(s, pos + len, end, caps, co);
        } else {
            let c = capability_of(s.subrange(pos, pos + len));
            lemma_capability_of_record(s, pos);
            let caps2 = caps.push(c);
            let co2 = co.push(pos);
            assert forall|k: int| 0 <= k < co2.len() implies capability_record(s, #[trigger] co2[k], caps2[k]) by {
                if k < co.len() {
                    assert(caps2[k] == caps[k] && co2[k] == co[k]);
                }
            }
            lemma_walk_bos_in_order(s, pos + len, end, caps2, co2);
            assert(co.push(pos) + rest =~= co + (seq![pos] + rest));
        }
    } else {
        assert(co + capability_offsets(s, pos, end) =~= co);
    }
}

/// The capabilities of a parsed BOS descriptor are exactly the device
/// capability records (type 0x10) of the chain that follows the 5-byte
/// header, one for each and in the chain's order, each field at its
/// offset.
pub proof fn lemma_bos_capabilities_in_order(s: Seq<u8>)
    requires
        is_bos_descriptor(s),
    ensures
        capabilities_at(s, bos_of(s).capabilities, capability_offsets(s, 5, bos_chain_end(s))),
{
    assert(bos_chain_end(s) == bos_walk_end(s));
    lemma_walk_bos_in_order(s, 5, bos_walk_end(s), Seq::empty(), Seq::empty());
    assert(Seq::<int>::empty() + capability_offsets(s, 5, bos_chain_end(s)) =~= capability_offsets(
        s,
        5,
        bos_chain_end(s),
    ));
}

/// Endpoint `j` of interface `i` comes among the first `t` interfaces, or
/// among the first `n` endpoints of interface `t`.
pub open spec fn in_prefix(ifaces: Seq<InterfaceModel>, t: int, n: int, i: int, j: int) -> bool {
    &&& 0 <= i < ifaces.len() && 0 <= j < ifaces[i].endpoints.len()
    &&& i < t || (i == t && j < n)
}

/// `info` classifies an endpoint of the prefix whose address is `k`, and
/// no endpoint after it in the prefix has that address.
pub open spec fn last_in_prefix(ifaces: Seq<InterfaceModel>, t: int, n: int, k: u8, info: EndpointInfo) -> bool {
    exists|i: int, j: int|
        #[trigger] in_prefix(ifaces, t, n, i, j) && ifaces[i].endpoints[j].endpoint_address == k && endpoint_classified(
            ifaces[i].endpoints[j].endpoint_address,
            ifaces[i].endpoints[j].attributes,
            ifaces[i].endpoints[j].max_packet_size,
            ifaces[i].endpoints[j].interval,
            info,
        ) && no_later_address(ifaces, t, n, i, j, k)
}

/// No endpoint of the prefix after endpoint `j` of interface `i` has the
/// address `k`.
pub open spec fn no_later_address(ifaces: Seq<InterfaceModel>, t: int, n: int, i: int, j: int, k: u8) -> bool {
    forall|i2: int, j2: int|
        #[trigger] in_prefix(ifaces, t, n, i2, j2) && (i2 > i || (i2 == i && j2 > j)) ==> ifaces[i2].endpoints[j2].endpoint_address
            != k
}

/// `m` holds an entry for the address of each endpoint of the prefix, and
/// each entry classifies the last endpoint of the prefix with its address.
pub open spec fn table_of_prefix(ifaces: Seq<InterfaceModel>, t: int, n: int, m: Map<u8, EndpointInfo>) -> bool {
    &&& forall|k: u8| #[trigger] m.contains_key(k) ==> last_in_prefix(ifaces, t, n, k, m[k])
    &&& forall|i: int, j: int|
        #[trigger] in_prefix(ifaces, t, n, i, j) ==> m.contains_key(ifaces[i].endpoints[j].endpoint_address)
}

proof fn lemma_enter_last(ifaces: Seq<InterfaceModel>, m: Map<u8, EndpointInfo>, t: int, n: int)
    requires
        0 <= t < ifaces.len(),
        0 <= n <= ifaces[t].endpoints.len(),
        table_of_prefix(ifaces, t, 0, m),
    ensures
        table_of_prefix(ifaces, t, n, enter_endpoints(m, ifaces[t].endpoints.take(n))),
    decreases n,
{
    let eps = ifaces[t].endpoints;
    if n > 0 {
        assert(eps.take(n).drop_last() =~= eps.take(n - 1));
        lemma_enter_last(ifaces, m, t, n - 1);
        let e = eps[n - 1];
        assert(eps.take(n).last() == e);
        lemma_endpoint_classification(e.endpoint_address, e.attributes, e.max_packet_size, e.interval);
        let prev = enter_endpoints(m, eps.take(n - 1));
        let r = enter_endpoints(m, eps.take(n));
        assert(r == prev.insert(e.endpoint_address, crate::usbdevfs::endpoint_info_of(e)));
        assert forall|k: u8| #[trigger] r.contains_key(k) implies last_in_prefix(ifaces, t, n, k, r[k]) by {
            if k == e.endpoint_address {
                assert(in_prefix(ifaces, t, n, t, n - 1));
                assert forall|i2: int, j2: int|
                    #[trigger] in_prefix(ifaces, t, n, i2, j2) && (i2 > t || (i2 == t && j2 > n - 1)) implies ifaces[i2].endpoints[j2].endpoint_address
                        != k by {}
                assert(no_later_address(ifaces, t, n, t, n - 1, k));
            } else {
                assert(prev.contains_key(k));
                assert(last_in_prefix(ifaces, t, n - 1, k, prev[k]));
                let (i, j) = choose|i: int, j: int|
                    #[trigger] in_prefix(ifaces, t, n - 1, i, j) && ifaces[i].endpoints[j].endpoint_address == k
                        && endpoint_classified(
                        ifaces[i].endpoints[j].endpoint_address,
                        ifaces[i].endpoints[j].attributes,
                        ifaces[i].endpoints[j].max_packet_size,
                        ifaces[i].endpoints[j].interval,
                        prev[k],
                    ) && no_later_address(ifaces, t, n - 1, i, j, k);
                assert(in_prefix(ifaces, t, n, i, j));
                assert forall|i2: int, j2: int|
                    #[trigger] in_prefix(ifaces, t, n, i2, j2) && (i2 > i || (i2 == i && j2 > j)) implies ifaces[i2].endpoints[j2].endpoint_address
                        != k by {
                    if !(i2 == t && j2 == n - 1) {
                        assert(in_prefix(ifaces, t, n - 1, i2, j2));
                    }
                }
                assert(no_later_address(ifaces, t, n, i, j, k));
            }
        }
        assert forall|i: int, j: int| #[trigger] in_prefix(ifaces, t, n, i, j) implies r.contains_key(
            ifaces[i].endpoints[j].endpoint_address,
        ) by {
            if !(i == t && j == n - 1) {
                assert(in_prefix(ifaces, t, n - 1, i, j));
            }
        }
    } else {
        assert(eps.take(0) =~= Seq::<EndpointDescriptor>::empty());
    }
}

proof fn lemma_prefix_next_interface(ifaces: Seq<InterfaceModel>, t: int, m: Map<u8, EndpointInfo>)
    requires
        0 <= t < ifaces.len(),
        table_of_prefix(ifaces, t, ifaces[t].endpoints.len() as int, m),
    ensures
        table_of_prefix(ifaces, t + 1, 0, m),
{
    let n = ifaces[t].endpoints.len() as int;
    assert forall|i: int, j: int| in_prefix(ifaces, t, n, i, j) == in_prefix(ifaces, t + 1, 0, i, j) by {}
    assert forall|k: u8| #[trigger] m.contains_key(k) implies last_in_prefix(ifaces, t + 1, 0, k, m[k]) by {
        assert(last_in_prefix(ifaces, t, n, k, m[k]));
        let (i, j) = choose|i: int, j: int|
            #[trigger] in_prefix(ifaces, t, n, i, j) && ifaces[i].endpoints[j].endpoint_address == k && endpoint_classified(
                ifaces[i].endpoints[j].endpoint_address,
                ifaces[i].endpoints[j].attributes,
                ifaces[i].endpoints[j].max_packet_size,
                ifaces[i].endpoints[j].interval,
                m[k],
            ) && no_later_address(ifaces, t, n, i, j, k);
        assert(in_prefix(ifaces, t + 1, 0, i, j));
        assert forall|i2: int, j2: int|
            #[trigger] in_prefix(ifaces, t + 1, 0, i2, j2) && (i2 > i || (i2 == i && j2 > j)) implies ifaces[i2].endpoints[j2].endpoint_address
                != k by {
            assert(in_prefix(ifaces, t, n, i2, j2));
        }
        assert(no_later_address(ifaces, t + 1, 0, i, j, k));
    }
    assert forall|i: int, j: int| #[trigger] in_prefix(ifaces, t + 1, 0, i, j) implies m.contains_key(
        ifaces[i].endpoints[j].endpoint_address,
    ) by {
        assert(in_prefix(ifaces, t, n, i, j));
    }
}

proof fn lemma_table_of_prefix(ifaces: Seq<InterfaceModel>, t: int)
    requires
        0 <= t <= ifaces.len(),
    ensures
        table_of_prefix(ifaces, t, 0, endpoint_table_of(ifaces.take(t))),
    decreases t,
{
    if t > 0 {
        assert(ifaces.take(t).drop_last() =~= ifaces.take(t - 1));
        assert(ifaces.take(t).last() == ifaces[t - 1]);
        lemma_table_of_prefix(ifaces, t - 1);
        let eps = ifaces[t - 1].endpoints;
        assert(eps.take(eps.len() as int) =~= eps);
        lemma_enter_last(ifaces, endpoint_table_of(ifaces.take(t - 1)), t - 1, eps.len() as int);
        lemma_prefix_next_interface(ifaces, t - 1, endpoint_table_of(ifaces.take(t)));
    } else {
        assert(ifaces.take(0) =~= Seq::<InterfaceModel>::empty());
        assert(endpoint_table_of(ifaces.take(0)) =~= Map::empty());
    }
}

/// The endpoint table holds an entry for the address of every endpoint
/// of every interface, and nothing else; where several endpoints share an
/// address, the entry classifies the last of them (interfaces in order,
/// and endpoints in order within each).
pub proof fn lemma_endpoint_table_complete(ifaces: Seq<InterfaceModel>)
    ensures
        table_of_prefix(ifaces, ifaces.len() as int, 0, endpoint_table_of(ifaces)),
{
    lemma_table_of_prefix(ifaces, ifaces.len() as int);
    assert(ifaces.take(ifaces.len() as int) =~= ifaces);
}

/// `c` has the fields of the device capability record `d` (its bLength
/// bytes) by the record's own length and bDevCapabilityType (byte 2): a
/// USB 2.0 Extension (type 2, at least 7 bytes) has bmAttributes from bytes
/// 3..7 (little-endian); a SuperSpeed USB capability (type 3, at least 10
/// bytes) has bmAttributes at 3, wSpeedsSupported at 4..6,
/// bFunctionalitySupport at 6, bU1DevExitLat at 7 and wU2DevExitLat at
/// 8..10; a Container ID (type 4, at least 20 bytes) has the 16 bytes from
/// 4; any other record keeps its type and the bytes from 3 on.
pub open spec fn capability_at_offsets(d: Seq<u8>, c: CapabilityModel) -> bool {
    let len = d.len() as int;
    if d[2] == 0x02 && len >= 7 {
        c matches CapabilityModel::Usb20Extension(x) && x.attributes == d[3] + d[4] * 0x100 + d[5] * 0x1_0000
            + d[6] * 0x100_0000
    } else if d[2] == 0x03 && len >= 10 {
        c matches CapabilityModel::SuperSpeedUsb(x) && x.attributes == d[3] && x.speed_supported == d[4] + d[5]
            * 256 && x.functionality_support == d[6] && x.u1_dev_exit_lat == d[7] && x.u2_dev_exit_lat == d[8]
            + d[9] * 256
    } else if d[2] == 0x04 && len >= 20 {
        c matches CapabilityModel::ContainerId(id) && id == d.subrange(4, 20)
    } else {
        c matches CapabilityModel::Unknown { cap_type, data } && cap_type == d[2] && data == d.subrange(3, len)
    }
}

/// A device capability record is decoded field by field at its offsets.
pub proof fn lemma_capability_at_offsets(d: Seq<u8>)
    requires
        d.len() >= 3,
    ensures
        capability_at_offsets(d, capability_of(d)),
{
}

} // verus!
