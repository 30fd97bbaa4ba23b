//! Decisions of the Linux usbdevfs backend: how kernel error numbers map to
//! library errors, how responses to standard requests are checked, which
//! buffer a control transfer uses, how an isochronous transfer is split
//! into packets, and the endpoint table kept per open device. The ioctl
//! calls themselves are made by the caller.

use vstd::prelude::*;
use crate::error::UsbError;
use crate::endpoint::{EndpointInfo, endpoint_info_spec};
use crate::transfer::{ControlSetup, is_device_to_host};
use crate::descriptor::bytes::{le16, read_le16};
use crate::descriptor::fixed::{DeviceDescriptor, is_device_descriptor, device_descriptor_of};
use crate::descriptor::config::{ConfigDescriptor, EndpointDescriptor, InterfaceModel, interface_models};
use crate::text::{
    decimal_text, format_hex_byte, format_i32, format_usize, hex_byte_text, string_from_utf16_lossy,
    utf16_lossy,
};
use std::collections::HashMap;

verus! {

broadcast use vstd::std_specs::hash::group_hash_axioms;

/// The kernel error numbers that the usbdevfs decisions tell apart.
#[derive(Debug, Clone, Copy, PartialEq, Eq, Structural)]
pub enum ErrnoKind {
    /// `EPIPE`: the endpoint stalled.
    BrokenPipe,
    /// `ETIMEDOUT`.
    TimedOut,
    /// `ENODEV`: the device is gone.
    NoDevice,
    /// `EACCES`.
    AccessDenied,
    /// `EPERM`.
    NotPermitted,
    /// `EBUSY`.
    Busy,
    /// `ENOTTY`: the request is unknown to the kernel.
    NotTty,
    /// `EINVAL`.
    InvalidArgument,
    /// Any other number.
    Other,
}

/// Which of the error numbers told apart the raw number `code` is, by the
/// target's `nix::errno::Errno` numbering.
pub uninterp spec fn errno_kind_of(code: i32) -> ErrnoKind;

/// Classify a raw error number (`nix::errno::Errno::from_raw`, one arm per
/// variant told apart).
#[verifier::external_body]
fn errno_kind(code: i32) -> (r: ErrnoKind)
    ensures
        r == errno_kind_of(code),
{
    match nix::errno::Errno::from_raw(code) {
        nix::errno::Errno::EPIPE => ErrnoKind::BrokenPipe,
        nix::errno::Errno::ETIMEDOUT => ErrnoKind::TimedOut,
        nix::errno::Errno::ENODEV => ErrnoKind::NoDevice,
        nix::errno::Errno::EACCES => ErrnoKind::AccessDenied,
        nix::errno::Errno::EPERM => ErrnoKind::NotPermitted,
        nix::errno::Errno::EBUSY => ErrnoKind::Busy,
        nix::errno::Errno::ENOTTY => ErrnoKind::NotTty,
        nix::errno::Errno::EINVAL => ErrnoKind::InvalidArgument,
        _ => ErrnoKind::Other,
    }
}

/// Most packets one isochronous URB carries.
pub const MAX_ISO_PACKETS: usize = 256;

/// `e` is `UsbError::Other` with message `text`.
pub open spec fn is_other_with(e: UsbError, text: Seq<char>) -> bool {
    e matches UsbError::Other(s) && s@ == text
}

/// The error that a failed usbdevfs request with error number `errno`
/// reports: a stalled pipe, a time-out, a vanished device and a refused
/// access have variants of their own; anything else is `errno <n>`.
pub open spec fn errno_maps_to(errno: i32, e: UsbError) -> bool {
    let k = errno_kind_of(errno);
    if k == ErrnoKind::BrokenPipe {
        e is Stall
    } else if k == ErrnoKind::TimedOut {
        e is Timeout
    } else if k == ErrnoKind::NoDevice {
        e is DeviceNotFound
    } else if k == ErrnoKind::AccessDenied || k == ErrnoKind::NotPermitted {
        e is PermissionDenied
    } else {
        is_other_with(e, "errno "@ + decimal_text(errno as int))
    }
}

/// Map a kernel error number from a usbdevfs request to a library error.
pub fn map_errno_code(errno: i32) -> (r: UsbError)
    ensures
        errno_maps_to(errno, r),
        crate::offsets::errno_classified(errno, r),
{
    proof {
        assert forall|e: UsbError| errno_maps_to(errno, e) implies crate::offsets::errno_classified(errno, e) by {
            crate::offsets::lemma_errno_classification(errno, e);
        }
    }
    let k = errno_kind(errno);
    if k == ErrnoKind::BrokenPipe {
        UsbError::Stall
    } else if k == ErrnoKind::TimedOut {
        UsbError::Timeout
    } else if k == ErrnoKind::NoDevice {
        UsbError::DeviceNotFound
    } else if k == ErrnoKind::AccessDenied || k == ErrnoKind::NotPermitted {
        UsbError::PermissionDenied
    } else {
        let mut s = String::new();
        s.append("errno ");
        s.append(format_i32(errno).as_str());
        UsbError::Other(s)
    }
}

/// The text of `nix::errno::Errno` for the raw error number `code`: its
/// symbolic name, a colon and its description.
pub uninterp spec fn errno_text_of(code: i32) -> Seq<char>;

/// The text of an error number (`nix::errno::Errno::from_raw`, then its
/// `Display`).
#[verifier::external_body]
fn errno_text(code: i32) -> (r: String)
    ensures
        r@ == errno_text_of(code),
{
    nix::errno::Errno::from_raw(code).to_string()
}

/// The error for a failed CLAIMINTERFACE request with error number `errno`.
pub fn claim_interface_error(errno: i32) -> (r: UsbError)
    ensures
        errno_kind_of(errno) == ErrnoKind::Busy ==> is_other_with(r, "interface already claimed"@),
        errno_kind_of(errno) == ErrnoKind::NoDevice ==> r is DeviceNotFound,
        errno_kind_of(errno) != ErrnoKind::Busy && errno_kind_of(errno) != ErrnoKind::NoDevice
            ==> is_other_with(r, errno_text_of(errno)),
{
    let k = errno_kind(errno);
    if k == ErrnoKind::Busy {
        UsbError::Other("interface already claimed".to_string())
    } else if k == ErrnoKind::NoDevice {
        UsbError::DeviceNotFound
    } else {
        UsbError::Other(errno_text(errno))
    }
}

/// The error for a failed RELEASEINTERFACE request with error number `errno`.
pub fn release_interface_error(errno: i32) -> (r: UsbError)
    ensures
        errno_kind_of(errno) == ErrnoKind::NoDevice ==> r is DeviceNotFound,
        errno_kind_of(errno) != ErrnoKind::NoDevice ==> is_other_with(r, errno_text_of(errno)),
{
    if errno_kind(errno) == ErrnoKind::NoDevice {
        UsbError::DeviceNotFound
    } else {
        UsbError::Other(errno_text(errno))
    }
}

/// What follows a CLEAR_HALT request when resetting a pipe.
pub enum PipeReset {
    /// The halt was cleared.
    Done,
    /// The kernel does not know CLEAR_HALT; issue RESETEP instead.
    ResetEndpoint,
    /// The request failed with this error.
    Failed(UsbError),
}

/// Decide how a pipe reset goes on after CLEAR_HALT, given its error
/// number (`None` when it succeeded): older kernels answer `ENOTTY` or
/// `EINVAL`, and then RESETEP is tried.
pub fn reset_pipe_step(clear_halt_errno: Option<i32>) -> (r: PipeReset)
    ensures
        clear_halt_errno is None ==> r is Done,
        clear_halt_errno matches Some(e) && (errno_kind_of(e) == ErrnoKind::NotTty || errno_kind_of(e)
            == ErrnoKind::InvalidArgument) ==> r is ResetEndpoint,
        clear_halt_errno matches Some(e) && errno_kind_of(e) != ErrnoKind::NotTty && errno_kind_of(e)
            != ErrnoKind::InvalidArgument ==> (r matches PipeReset::Failed(f)
            && errno_maps_to(clear_halt_errno->0, f)),
        r matches PipeReset::Failed(f) ==> crate::offsets::errno_classified(clear_halt_errno->0, f),
{
    match clear_halt_errno {
        None => PipeReset::Done,
        Some(e) => if errno_kind(e) == ErrnoKind::NotTty || errno_kind(e) == ErrnoKind::InvalidArgument {
            PipeReset::ResetEndpoint
        } else {
            PipeReset::Failed(map_errno_code(e))
        },
    }
}

/// A timeout in milliseconds, clamped to what the kernel request holds.
pub fn timeout_millis(millis: u128) -> (r: u32)
    ensures
        r == if millis < 0xFFFF_FFFF { millis } else { 0xFFFF_FFFF },
{
    if millis < 0xFFFF_FFFFu128 {
        millis as u32
    } else {
        0xFFFF_FFFFu32
    }
}

/// Check the answer to GET_DESCRIPTOR(Device): `n` bytes were received
/// into `buf`.
pub fn device_descriptor_from_response(buf: &[u8], n: usize) -> (r: Result<DeviceDescriptor, UsbError>)
    ensures
        n >= 18 && is_device_descriptor(buf@) ==> r == Ok::<DeviceDescriptor, UsbError>(
            device_descriptor_of(buf@),
        ),
        !(n >= 18 && is_device_descriptor(buf@)) ==> r matches Err(UsbError::InvalidDescriptor),
        (r is Ok) == (n >= 18 && buf@.len() >= 18 && buf@[1] == 0x01),
        r matches Ok(d) ==> crate::offsets::device_descriptor_at_offsets(buf@, d),
{
    if n < 18 {
        return Err(UsbError::InvalidDescriptor);
    }
    DeviceDescriptor::from_bytes(buf)
}

/// Most bytes the second pass of a descriptor read asks for.
pub const MAX_DESCRIPTOR_READ: usize = 4096;

/// Check the 9-byte header read in the first pass of a configuration
/// descriptor read (`n` bytes received) and return the number of bytes to
/// request in the second pass: `wTotalLength`, clamped to 4096.
pub fn config_total_length(hdr: &[u8], n: usize) -> (r: Result<usize, UsbError>)
    requires
        hdr@.len() >= 9,
    ensures
        n >= 9 && le16(hdr@, 2) >= 9 ==> r == Ok::<usize, UsbError>(
            if le16(hdr@, 2) < MAX_DESCRIPTOR_READ { le16(hdr@, 2) as usize } else { MAX_DESCRIPTOR_READ },
        ),
        !(n >= 9 && le16(hdr@, 2) >= 9) ==> r matches Err(UsbError::InvalidDescriptor),
{
    if n < 9 {
        return Err(UsbError::InvalidDescriptor);
    }
    let total_len = read_le16(hdr, 2) as usize;
    if total_len < 9 {
        return Err(UsbError::InvalidDescriptor);
    }
    Ok(if total_len < MAX_DESCRIPTOR_READ { total_len } else { MAX_DESCRIPTOR_READ })
}

/// The GET_INTERFACE request (IN | Standard | Interface) for `interface`.
pub fn get_interface_request(interface: u8) -> (r: ControlSetup)
    ensures
        r.request_type == 0x81,
        r.request == 0x0A,
        r.value == 0,
        r.index == interface,
        r.length == 1,
{
    ControlSetup { request_type: 0x81, request: 0x0A, value: 0, index: interface as u16, length: 1 }
}

/// Check the answer to GET_INTERFACE (`n` bytes received into `buf`) and
/// return the alternate setting.
pub fn alternate_setting_from_response(buf: &[u8], n: usize) -> (r: Result<u8, UsbError>)
    requires
        buf@.len() >= 1,
    ensures
        n >= 1 ==> r == Ok::<u8, UsbError>(buf@[0]),
        n < 1 ==> r matches Err(UsbError::InvalidDescriptor),
{
    if n < 1 {
        return Err(UsbError::InvalidDescriptor);
    }
    Ok(buf[0])
}

/// The UTF-16 code units of a string descriptor whose `bLength` is
/// `str_len`: the little-endian pairs after the 2-byte header (an odd
/// trailing byte is dropped).
pub open spec fn string_descriptor_units(s: Seq<u8>, str_len: int) -> Seq<u16> {
    Seq::new(((str_len - 2) / 2) as nat, |k: int| le16(s, 2 + 2 * k))
}

/// A string descriptor answer of `n` bytes is usable when it holds its
/// own header and its `bLength` lies between 2 and `n`.
pub open spec fn is_string_response(s: Seq<u8>, n: int) -> bool {
    n >= 2 && s[0] >= 2 && s[0] <= n
}

/// Decode the answer to GET_DESCRIPTOR(String): `n` bytes were received
/// into `buf`.
pub fn string_descriptor_from_response(buf: &[u8], n: usize) -> (r: Result<String, UsbError>)
    requires
        n <= buf@.len(),
    ensures
        is_string_response(buf@, n as int) ==> (r matches Ok(s) && s@ == utf16_lossy(
            string_descriptor_units(buf@, buf@[0] as int),
        )),
        is_string_response(buf@, n as int) ==> crate::offsets::string_units_at_offsets(
            buf@,
            buf@[0] as int,
            string_descriptor_units(buf@, buf@[0] as int),
        ),
        !is_string_response(buf@, n as int) ==> r matches Err(UsbError::InvalidDescriptor),
        (r is Ok) == (n >= 2 && 2 <= buf@[0] <= n),
{
    if n < 2 {
        return Err(UsbError::InvalidDescriptor);
    }
    let str_len = buf[0] as usize;
    if str_len < 2 || str_len > n {
        return Err(UsbError::InvalidDescriptor);
    }
    proof {
        crate::offsets::lemma_string_units_offsets(buf@, str_len as int);
    }
    // String content starts at byte 2, UTF-16LE
    let count = (str_len - 2) / 2;
    let mut chars: Vec<u16> = Vec::new();
    let mut k: usize = 0;
    while k < count
        invariant
            count == (str_len - 2) / 2,
            2 <= str_len <= n <= buf@.len(),
            k <= count,
            chars@ =~= string_descriptor_units(buf@, str_len as int).take(k as int),
        decreases count - k,
    {
        chars.push(read_le16(buf, 2 + 2 * k));
        k += 1;
    }
    assert(chars@ =~= string_descriptor_units(buf@, str_len as int));
    Ok(string_from_utf16_lossy(chars.as_slice()))
}

/// Where the data stage of a control transfer comes from.
pub enum ControlData {
    /// The caller's buffer.
    CallerBuffer,
    /// A zero-filled buffer of this many bytes (an OUT request without data).
    Zeroed(usize),
}

/// Decide the data stage of a control transfer: a device-to-host request
/// needs the caller's buffer; a host-to-device request sends the caller's
/// data, or `wLength` zero bytes when there is none.
pub fn control_data(setup: &ControlSetup, has_data: bool) -> (r: Result<ControlData, UsbError>)
    ensures
        is_device_to_host(setup.request_type) && !has_data ==> (r matches Err(e) && is_other_with(
            e,
            "IN transfer requires a data buffer"@,
        )),
        has_data ==> r matches Ok(ControlData::CallerBuffer),
        !is_device_to_host(setup.request_type) && !has_data ==> (r matches Ok(ControlData::Zeroed(len))
            && len == setup.length),
{
    let request_type = setup.request_type;
    let is_in = (request_type & 0x80) != 0;
    assert(((request_type & 0x80) != 0) == (request_type >= 0x80)) by (bit_vector);
    if is_in {
        if has_data {
            Ok(ControlData::CallerBuffer)
        } else {
            Err(UsbError::Other("IN transfer requires a data buffer".to_string()))
        }
    } else {
        if has_data {
            Ok(ControlData::CallerBuffer)
        } else {
            Ok(ControlData::Zeroed(setup.length as usize))
        }
    }
}

/// The message for an endpoint of the wrong direction given to `op`.
pub open spec fn direction_error_text(op: Seq<char>, want_in: bool, endpoint: u8) -> Seq<char> {
    op + (if want_in { " requires an IN endpoint, got "@ } else { " requires an OUT endpoint, got "@ })
        + hex_byte_text(endpoint)
}

/// Check that `endpoint` has the direction that `op` needs: an IN endpoint
/// (bit 7 set) when `want_in`, an OUT endpoint otherwise.
pub fn require_endpoint_direction(op: &str, endpoint: u8, want_in: bool) -> (r: Result<(), UsbError>)
    ensures
        (endpoint >= 0x80) == want_in ==> r is Ok,
        (endpoint >= 0x80) != want_in ==> (r matches Err(e) && is_other_with(
            e,
            direction_error_text(op@, want_in, endpoint),
        )),
{
    let is_in = endpoint & 0x80 != 0;
    assert((endpoint & 0x80 != 0) == (endpoint >= 0x80)) by (bit_vector);
    if is_in == want_in {
        return Ok(());
    }
    let mut s = String::new();
    s.append(op);
    if want_in {
        s.append(" requires an IN endpoint, got ");
    } else {
        s.append(" requires an OUT endpoint, got ");
    }
    s.append(format_hex_byte(endpoint).as_str());
    Err(UsbError::Other(s))
}

/// The length field of a usbdevfs bulk request for a buffer of `len` bytes.
pub fn bulk_length(len: usize) -> (r: Result<u32, UsbError>)
    ensures
        len <= 0xFFFF_FFFF ==> r == Ok::<u32, UsbError>(len as u32),
        len > 0xFFFF_FFFF ==> (r matches Err(e) && is_other_with(e, "bulk transfer buffer too large"@)),
{
    if len as u128 > 0xFFFF_FFFFu128 {
        return Err(UsbError::Other("bulk transfer buffer too large".to_string()));
    }
    Ok(len as u32)
}

/// The endpoint information for endpoint descriptor `ep`.
pub open spec fn endpoint_info_of(ep: EndpointDescriptor) -> EndpointInfo {
    endpoint_info_spec(ep.endpoint_address, ep.attributes, ep.max_packet_size, ep.interval)
}

/// `m` with an entry for each endpoint of `eps`, keyed by its address and
/// entered in order, so that a later endpoint replaces an earlier one with
/// the same address.
pub open spec fn enter_endpoints(m: Map<u8, EndpointInfo>, eps: Seq<EndpointDescriptor>) -> Map<u8, EndpointInfo>
    decreases eps.len(),
{
    if eps.len() == 0 {
        m
    } else {
        enter_endpoints(m, eps.drop_last()).insert(eps.last().endpoint_address, endpoint_info_of(eps.last()))
    }
}

/// The endpoint table of the interfaces `ifaces`: every endpoint of every
/// interface, entered interface by interface.
pub open spec fn endpoint_table_of(ifaces: Seq<InterfaceModel>) -> Map<u8, EndpointInfo>
    decreases ifaces.len(),
{
    if ifaces.len() == 0 {
        Map::empty()
    } else {
        enter_endpoints(endpoint_table_of(ifaces.drop_last()), ifaces.last().endpoints)
    }
}

/// Build the table from endpoint address to endpoint information that an
/// open device keeps for the configuration `cfg`.
pub fn endpoint_table(cfg: &ConfigDescriptor) -> (r: HashMap<u8, EndpointInfo>)
    ensures
        r@ == endpoint_table_of(cfg@.interfaces),
        crate::offsets::table_from_endpoints(cfg@.interfaces, r@),
        crate::offsets::table_of_prefix(cfg@.interfaces, cfg@.interfaces.len() as int, 0, r@),
{
    proof {
        crate::offsets::lemma_endpoint_table_entries(cfg@.interfaces);
        crate::offsets::lemma_endpoint_table_complete(cfg@.interfaces);
    }
    let mut map: HashMap<u8, EndpointInfo> = HashMap::new();
    let ghost ifaces = cfg@.interfaces;
    let n = cfg.interfaces.len();
    let mut i: usize = 0;
    assert(ifaces.take(0) =~= Seq::<InterfaceModel>::empty());
    while i < n
        invariant
            n == cfg.interfaces@.len(),
            ifaces == interface_models(cfg.interfaces@),
            i <= n,
            map@ == endpoint_table_of(ifaces.take(i as int)),
        decreases n - i,
    {
        let iface = &cfg.interfaces[i];
        let ghost base = map@;
        let m = iface.endpoints.len();
        let mut j: usize = 0;
        assert(iface.endpoints@.take(0) =~= Seq::<EndpointDescriptor>::empty());
        while j < m
            invariant
                m == iface.endpoints@.len(),
                j <= m,
                map@ == enter_endpoints(base, iface.endpoints@.take(j as int)),
            decreases m - j,
        {
            let ep = &iface.endpoints[j];
            map.insert(
                ep.endpoint_address,
                EndpointInfo::new(ep.endpoint_address, ep.attributes, ep.max_packet_size, ep.interval),
            );
            assert(iface.endpoints@.take(j + 1).drop_last() =~= iface.endpoints@.take(j as int));
            j += 1;
        }
        assert(iface.endpoints@.take(m as int) =~= iface.endpoints@);
        assert(ifaces.take(i + 1).drop_last() =~= ifaces.take(i as int));
        assert(ifaces[i as int] == iface@);
        i += 1;
    }
    assert(ifaces.take(n as int) =~= ifaces);
    map
}

/// Look up the information of `endpoint` in an endpoint table.
pub fn pipe_info_from_table(table: &HashMap<u8, EndpointInfo>, endpoint: u8) -> (r: Result<EndpointInfo, UsbError>)
    ensures
        table@.contains_key(endpoint) ==> r == Ok::<EndpointInfo, UsbError>(table@[endpoint]),
        !table@.contains_key(endpoint) ==> (r matches Err(e) && is_other_with(
            e,
            "endpoint "@ + hex_byte_text(endpoint) + " not found"@,
        )),
{
    match table.get(&endpoint) {
        Some(info) => Ok(*info),
        None => {
            let mut s = String::new();
            s.append("endpoint ");
            s.append(format_hex_byte(endpoint).as_str());
            s.append(" not found");
            Err(UsbError::Other(s))
        },
    }
}

/// Whether an isochronous transfer of `len` bytes goes ahead: nothing is
/// sent for an empty buffer, and a buffer beyond `i32::MAX` bytes is refused.
pub fn iso_transfer_length(len: usize) -> (r: Result<bool, UsbError>)
    ensures
        len == 0 ==> r == Ok::<bool, UsbError>(false),
        0 < len <= i32::MAX ==> r == Ok::<bool, UsbError>(true),
        len > i32::MAX ==> (r matches Err(e) && is_other_with(e, "isochronous transfer buffer too large"@)),
{
    if len == 0 {
        return Ok(false);
    }
    if len as u128 > i32::MAX as u128 {
        return Err(UsbError::Other("isochronous transfer buffer too large".to_string()));
    }
    Ok(true)
}

/// The packet size an isochronous transfer is split by: the endpoint's
/// maximum packet size when it is known and not zero, else 1024.
pub open spec fn iso_packet_hint(max_packet_size: Option<u16>) -> int {
    match max_packet_size {
        Some(s) => if s > 0 { s as int } else { 1024 },
        None => 1024,
    }
}

/// How many packets carry `len` bytes of at most `hint` bytes each (at least one).
pub open spec fn iso_packet_count(len: int, hint: int) -> int {
    let c = (len + hint - 1) / hint;
    if c < 1 { 1 } else { c }
}

/// The length of packet `i` when `len` bytes are spread over `count`
/// packets as evenly as possible, the first ones taking the remainder.
pub open spec fn iso_packet_len(len: int, count: int, i: int) -> int {
    len / count + if i < len % count { 1int } else { 0int }
}

/// The sum of a sequence of packet lengths.
pub open spec fn packet_sum(s: Seq<u32>) -> int
    decreases s.len(),
{
    if s.len() == 0 { 0 } else { packet_sum(s.drop_last()) + s.last() }
}

/// The message for a transfer that needs more packets than one URB holds.
pub open spec fn too_many_packets_text(count: int) -> Seq<char> {
    "isochronous transfer requires "@ + decimal_text(count) + " packets; max supported is "@
        + decimal_text(MAX_ISO_PACKETS as int)
}

proof fn lemma_packet_prefix_sum(s: Seq<u32>, len: int, count: int, k: int)
    requires
        0 < count,
        0 <= len,
        0 <= k <= s.len(),
        s.len() == count,
        forall|i: int| 0 <= i < count ==> s[i] == iso_packet_len(len, count, i),
    ensures
        packet_sum(s.take(k)) == k * (len / count) + if k < len % count { k } else { len % count },
    decreases k,
{
    if k > 0 {
        let b = len / count;
        let m = len % count;
        lemma_packet_prefix_sum(s, len, count, k - 1);
        assert(s.take(k).drop_last() =~= s.take(k - 1));
        assert(s.take(k).last() == s[k - 1]);
        assert(packet_sum(s.take(k)) == packet_sum(s.take(k).drop_last()) + s.take(k).last());
        assert(s[k - 1] == b + if k - 1 < m { 1int } else { 0int });
        assert(k * b == (k - 1) * b + b) by (nonlinear_arith);
        assert(0 <= m);
        if k - 1 < m {
            assert(packet_sum(s.take(k)) == (k - 1) * b + (k - 1) + b + 1);
        } else {
            assert(packet_sum(s.take(k)) == (k - 1) * b + m + b);
        }
    } else {
        assert(s.take(0) =~= Seq::<u32>::empty());
    }
}

proof fn lemma_packet_bound(len: int, hint: int, count: int)
    requires
        0 < len,
        0 < hint,
        count == iso_packet_count(len, hint),
    ensures
        1 <= count <= len,
        len / count + (if len % count > 0 { 1int } else { 0int }) <= hint,
        len / count >= 1,
{
    let c = (len + hint - 1) / hint;
    assert(c >= 1) by (nonlinear_arith)
        requires
            c == (len + hint - 1) / hint,
            len > 0,
            hint > 0,
    ;
    assert(count == c);
    assert(c * hint >= len) by (nonlinear_arith)
        requires
            c == (len + hint - 1) / hint,
            len > 0,
            hint > 0,
    ;
    assert(c <= len) by (nonlinear_arith)
        requires
            c == (len + hint - 1) / hint,
            len > 0,
            hint > 0,
    ;
    let b = len / c;
    let m = len % c;
    assert(len == c * b + m && 0 <= m < c) by (nonlinear_arith)
        requires
            c >= 1,
            b == len / c,
            m == len % c,
    ;
    assert(b >= 1) by (nonlinear_arith)
        requires
            len == c * b + m,
            0 <= m < c,
            c <= len,
    ;
    assert(b + (if m > 0 { 1int } else { 0int }) <= hint) by (nonlinear_arith)
        requires
            len == c * b + m,
            0 <= m < c,
            c * hint >= len,
            c >= 1,
    ;
}

/// Split an isochronous transfer of `len` bytes (0 < `len` <= `i32::MAX`)
/// into packet lengths for one URB, given the endpoint's maximum packet
/// size when it is known.
pub fn iso_packet_lengths(len: usize, max_packet_size: Option<u16>) -> (r: Result<Vec<u32>, UsbError>)
    requires
        0 < len <= i32::MAX,
    ensures
        ({
            let hint = iso_packet_hint(max_packet_size);
            let count = iso_packet_count(len as int, hint);
            &&& count > MAX_ISO_PACKETS ==> (r matches Err(e) && is_other_with(e, too_many_packets_text(count)))
            &&& count <= MAX_ISO_PACKETS ==> (r matches Ok(v) && {
                &&& v@.len() == count
                &&& forall|i: int| 0 <= i < count ==> v@[i] == iso_packet_len(len as int, count, i)
                &&& packet_sum(v@) == len
                &&& forall|i: int| 0 <= i < count ==> 0 < #[trigger] v@[i] <= hint
            })
        }),
{
    let packet_hint: usize = match max_packet_size {
        Some(s) => if s > 0 { s as usize } else { 1024 },
        None => 1024,
    };
    let ghost hint = iso_packet_hint(max_packet_size);
    assert(packet_hint == hint);
    let c = (len + packet_hint - 1) / packet_hint;
    let num_packets = if c < 1 { 1 } else { c };
    proof {
        lemma_packet_bound(len as int, hint, num_packets as int);
    }
    if num_packets > MAX_ISO_PACKETS {
        let mut s = String::new();
        s.append("isochronous transfer requires ");
        s.append(format_usize(num_packets).as_str());
        s.append(" packets; max supported is ");
        s.append(format_usize(MAX_ISO_PACKETS).as_str());
        return Err(UsbError::Other(s));
    }
    let base = len / num_packets;
    let rem = len % num_packets;
    let mut packets: Vec<u32> = Vec::new();
    let mut i: usize = 0;
    while i < num_packets
        invariant
            1 <= num_packets <= len <= i32::MAX,
            base == len / num_packets,
            rem == len % num_packets,
            i <= num_packets,
            packets@.len() == i,
            forall|j: int| 0 <= j < i ==> packets@[j] == iso_packet_len(len as int, num_packets as int, j),
        decreases num_packets - i,
    {
        let packet_len = if i < rem { base + 1 } else { base };
        packets.push(packet_len as u32);
        i += 1;
    }
    proof {
        let count = num_packets as int;
        lemma_packet_prefix_sum(packets@, len as int, count, count);
        assert(packets@.take(count) =~= packets@);
        assert(len as int == count * (len as int / count) + len as int % count) by (nonlinear_arith)
            requires
                count >= 1,
        ;
        assert forall|i: int| 0 <= i < count implies 0 < #[trigger] packets@[i] <= hint by {
            assert(packets@[i] == iso_packet_len(len as int, count, i));
        }
    }
    Ok(packets)
}

/// A packet status field read as the signed number the kernel stores there.
pub open spec fn packet_status_code(u: u32) -> i32 {
    #[verifier::truncate]
    (u as i32)
}

/// The absolute value of a usbdevfs status field.
pub open spec fn abs_status(x: i32) -> i32 {
    (if x < 0 { -x } else { x as int }) as i32
}

/// The first of the `n` packet statuses in `fs` from index `i` on that is
/// not zero, or `n` when they all are.
pub open spec fn first_failed_packet(fs: Seq<u32>, i: int, n: int) -> int
    decreases n - i,
{
    if i >= n {
        n
    } else if fs[i] != 0 {
        i
    } else {
        first_failed_packet(fs, i + 1, n)
    }
}

/// The outcome of a reaped isochronous URB: its status, the statuses of its
/// first `num_packets` packets and the number of bytes transferred. The
/// URB's own status is checked first, then each packet's in order; a
/// negative byte count reads as 0.
pub fn iso_completion(status: i32, frame_status: &[u32], num_packets: usize, actual_length: i32) -> (r: Result<usize, UsbError>)
    requires
        status != i32::MIN,
        num_packets <= frame_status@.len(),
        forall|i: int| 0 <= i < num_packets ==> packet_status_code(#[trigger] frame_status@[i]) != i32::MIN,
    ensures
        status != 0 ==> (r matches Err(e) && errno_maps_to(abs_status(status), e)),
        status != 0 ==> (r matches Err(e) && crate::offsets::errno_classified(
            (if status < 0 { -status } else { status as int }) as i32,
            e,
        )),
        ({
            let k = first_failed_packet(frame_status@, 0, num_packets as int);
            &&& status == 0 && k < num_packets ==> (r matches Err(e) && errno_maps_to(
                abs_status(packet_status_code(frame_status@[k])),
                e,
            ))
            &&& status == 0 && k < num_packets ==> (r matches Err(e) && crate::offsets::errno_classified(
                abs_status(packet_status_code(frame_status@[k])),
                e,
            ))
            &&& status == 0 && k == num_packets ==> r == Ok::<usize, UsbError>(
                if actual_length < 0 { 0 } else { actual_length as usize },
            )
        }),
{
    if status != 0 {
        let code = if status < 0 { -status } else { status };
        assert(code == abs_status(status));
        return Err(map_errno_code(code));
    }
    let mut i: usize = 0;
    while i < num_packets
        invariant
            status == 0,
            num_packets <= frame_status@.len(),
            i <= num_packets,
            forall|j: int| 0 <= j < num_packets ==> packet_status_code(#[trigger] frame_status@[j]) != i32::MIN,
            first_failed_packet(frame_status@, 0, num_packets as int) == first_failed_packet(
                frame_status@,
                i as int,
                num_packets as int,
            ),
        decreases num_packets - i,
    {
        if frame_status[i] != 0 {
            let s = #[verifier::truncate] (frame_status[i] as i32);
            assert(s == packet_status_code(frame_status@[i as int]));
            let code = if s < 0 { -s } else { s };
            return Err(map_errno_code(code));
        }
        i += 1;
    }
    Ok(if actual_length < 0 { 0 } else { actual_length as usize })
}

} // verus!
