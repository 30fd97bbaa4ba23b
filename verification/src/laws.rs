//! Properties of the parsers and tables that hold across inputs.

use vstd::prelude::*;
use crate::descriptor::bytes::le16;
use crate::descriptor::config::{
    InterfaceModel, attach_descriptor, is_endpoint_record, config_of, config_walk_end, is_config_descriptor, walk_config,
};
use crate::descriptor::bos::{
    CapabilityModel, bos_of, bos_walk_end, capability_of, capability_type_code, capability_type_of,
    is_bos_descriptor, walk_bos,
};
use crate::usbdevfs::{endpoint_table_of, enter_endpoints, endpoint_info_of};
use crate::device::{decimal_attr_value, hex_attr_value};
use crate::text::{
    decimal_digit, decimal_digits, decimal_text, digit_value, digits_value, hex_digit, is_white_space, trim_end, trim_start,
};
use crate::descriptor::fixed::{
    device_descriptor_of, device_qualifier_descriptor_of, hub_descriptor_of, is_device_descriptor,
    is_device_qualifier_descriptor, is_hub_descriptor,
};

verus! {

/// A device, device qualifier or hub descriptor reads only its own bytes:
/// appending bytes after it changes neither whether it parses nor what it
/// holds.
pub proof fn lemma_fixed_descriptors_ignore_trailing_bytes(s: Seq<u8>, extra: Seq<u8>)
    ensures
        is_device_descriptor(s) ==> is_device_descriptor(s + extra) && device_descriptor_of(s + extra)
            == device_descriptor_of(s),
        is_device_qualifier_descriptor(s) ==> is_device_qualifier_descriptor(s + extra)
            && device_qualifier_descriptor_of(s + extra) == device_qualifier_descriptor_of(s),
        is_hub_descriptor(s) ==> is_hub_descriptor(s + extra) && hub_descriptor_of(s + extra)
            == hub_descriptor_of(s),
{
    let t = s + extra;
    if s.len() >= 9 {
        assert(forall|i: int| 0 <= i < s.len() ==> t[i] == s[i]);
        assert(le16(t, 2) == le16(s, 2));
        assert(le16(t, 3) == le16(s, 3));
        assert(le16(t, 7) == le16(s, 7));
    }
    if s.len() >= 18 {
        assert(le16(t, 8) == le16(s, 8));
        assert(le16(t, 10) == le16(s, 10));
        assert(le16(t, 12) == le16(s, 12));
    }
}

proof fn lemma_walk_config_prefix(a: Seq<u8>, b: Seq<u8>, pos: int, end: int, acc: Seq<InterfaceModel>, after: bool)
    requires
        end <= a.len(),
        end <= b.len(),
        forall|i: int| 0 <= i < end ==> a[i] == b[i],
    ensures
        walk_config(a, pos, end, acc, after) == walk_config(b, pos, end, acc, after),
    decreases end - pos,
{
    if pos >= 0 && pos + 2 <= end {
        let len = a[pos] as int;
        if len >= 2 && pos + len <= end {
            assert(a.subrange(pos, pos + len) =~= b.subrange(pos, pos + len));
            let d = a.subrange(pos, pos + len);
            lemma_walk_config_prefix(a, b, pos + len, end, attach_descriptor(acc, d, after), is_endpoint_record(d));
        }
    }
}

/// Bytes past `wTotalLength` do not change a configuration descriptor:
/// a blob that holds its whole `wTotalLength` parses the same with any
/// bytes appended.
pub proof fn lemma_config_ignores_trailing_bytes(s: Seq<u8>, extra: Seq<u8>)
    requires
        is_config_descriptor(s),
        le16(s, 2) <= s.len(),
    ensures
        is_config_descriptor(s + extra),
        config_of(s + extra) == config_of(s),
{
    let t = s + extra;
    assert(t[1] == s[1] && t[2] == s[2] && t[3] == s[3]);
    assert(le16(t, 2) == le16(s, 2));
    assert(config_walk_end(t) == config_walk_end(s));
    lemma_walk_config_prefix(t, s, 9, config_walk_end(s), Seq::empty(), false);
    assert(config_of(t) =~= config_of(s));
}

proof fn lemma_walk_bos_prefix(a: Seq<u8>, b: Seq<u8>, pos: int, end: int, acc: Seq<CapabilityModel>)
    requires
        end <= a.len(),
        end <= b.len(),
        forall|i: int| 0 <= i < end ==> a[i] == b[i],
    ensures
        walk_bos(a, pos, end, acc) == walk_bos(b, pos, end, acc),
    decreases end - pos,
{
    if pos >= 0 && pos + 3 <= end {
        let len = a[pos] as int;
        if len >= 3 && pos + len <= end {
            assert(a.subrange(pos, pos + len) =~= b.subrange(pos, pos + len));
            if a[pos + 1] != 0x10 {
                lemma_walk_bos_prefix(a, b, pos + len, end, acc);
            } else {
                lemma_walk_bos_prefix(a, b, pos + len, end, acc.push(capability_of(a.subrange(pos, pos + len))));
            }
        }
    }
}

/// Bytes past `wTotalLength` do not change a BOS descriptor: a blob that
/// holds its whole `wTotalLength` parses the same with any bytes appended.
pub proof fn lemma_bos_ignores_trailing_bytes(s: Seq<u8>, extra: Seq<u8>)
    requires
        is_bos_descriptor(s),
        le16(s, 2) <= s.len(),
    ensures
        is_bos_descriptor(s + extra),
        bos_of(s + extra) == bos_of(s),
{
    let t = s + extra;
    assert(t[1] == s[1] && t[2] == s[2] && t[3] == s[3] && t[4] == s[4]);
    assert(le16(t, 2) == le16(s, 2));
    assert(bos_walk_end(t) == bos_walk_end(s));
    lemma_walk_bos_prefix(t, s, 5, bos_walk_end(s), Seq::empty());
    assert(bos_of(t) =~= bos_of(s));
}

/// The capability type that `BosCapabilityType::from` gives for a byte is
/// the type whose code is that byte.
pub proof fn lemma_capability_type_round_trip(v: u8)
    ensures
        capability_type_code(capability_type_of(v)) == v,
{
}

proof fn lemma_enter_endpoints_keeps(m: Map<u8, crate::endpoint::EndpointInfo>, eps: Seq<crate::descriptor::config::EndpointDescriptor>, k: u8)
    requires
        m.contains_key(k),
    ensures
        enter_endpoints(m, eps).contains_key(k),
    decreases eps.len(),
{
    if eps.len() > 0 {
        lemma_enter_endpoints_keeps(m, eps.drop_last(), k);
    }
}

proof fn lemma_enter_endpoints_has(m: Map<u8, crate::endpoint::EndpointInfo>, eps: Seq<crate::descriptor::config::EndpointDescriptor>, j: int)
    requires
        0 <= j < eps.len(),
    ensures
        enter_endpoints(m, eps).contains_key(eps[j].endpoint_address),
    decreases eps.len(),
{
    if j < eps.len() - 1 {
        lemma_enter_endpoints_has(m, eps.drop_last(), j);
    }
}

proof fn lemma_table_keeps(ifaces: Seq<InterfaceModel>, i: int, k: u8)
    requires
        0 <= i <= ifaces.len(),
        endpoint_table_of(ifaces.take(i)).contains_key(k),
    ensures
        endpoint_table_of(ifaces).contains_key(k),
    decreases ifaces.len() - i,
{
    if i < ifaces.len() {
        assert(ifaces.take(i + 1).drop_last() =~= ifaces.take(i));
        lemma_enter_endpoints_keeps(endpoint_table_of(ifaces.take(i)), ifaces.take(i + 1).last().endpoints, k);
        lemma_table_keeps(ifaces, i + 1, k);
    } else {
        assert(ifaces.take(i) =~= ifaces);
    }
}

/// Every endpoint of every interface of a configuration has an entry in
/// the endpoint table built from it, so looking up its address finds it.
pub proof fn lemma_endpoint_table_covers(ifaces: Seq<InterfaceModel>, i: int, j: int)
    requires
        0 <= i < ifaces.len(),
        0 <= j < ifaces[i].endpoints.len(),
    ensures
        endpoint_table_of(ifaces).contains_key(ifaces[i].endpoints[j].endpoint_address),
{
    let pre = ifaces.take(i + 1);
    assert(pre.drop_last() =~= ifaces.take(i));
    assert(pre.last() == ifaces[i]);
    lemma_enter_endpoints_has(endpoint_table_of(ifaces.take(i)), ifaces[i].endpoints, j);
    lemma_table_keeps(ifaces, i + 1, ifaces[i].endpoints[j].endpoint_address);
}

/// An endpoint whose address no other endpoint of the configuration
/// shares has, in the endpoint table, the information that
/// `EndpointInfo::new` builds from its descriptor fields.
pub proof fn lemma_endpoint_table_entry(ifaces: Seq<InterfaceModel>, i: int, j: int)
    requires
        0 <= i < ifaces.len(),
        0 <= j < ifaces[i].endpoints.len(),
        forall|i2: int, j2: int|
            0 <= i2 < ifaces.len() && 0 <= j2 < ifaces[i2].endpoints.len() && (i2 != i || j2 != j)
                ==> #[trigger] ifaces[i2].endpoints[j2].endpoint_address != ifaces[i].endpoints[j].endpoint_address,
    ensures
        endpoint_table_of(ifaces).contains_key(ifaces[i].endpoints[j].endpoint_address),
        endpoint_table_of(ifaces)[ifaces[i].endpoints[j].endpoint_address] == endpoint_info_of(ifaces[i].endpoints[j]),
    decreases ifaces.len(),
{
    let k = ifaces[i].endpoints[j].endpoint_address;
    let last = ifaces.last();
    let prev = ifaces.drop_last();
    if i == ifaces.len() - 1 {
        assert forall|j2: int| 0 <= j2 < last.endpoints.len() && j2 != j implies last.endpoints[j2].endpoint_address
            != last.endpoints[j].endpoint_address by {
            assert(ifaces[i].endpoints[j2].endpoint_address != k);
        }
        lemma_enter_endpoints_value(endpoint_table_of(prev), last.endpoints, j);
        lemma_enter_endpoints_has(endpoint_table_of(prev), last.endpoints, j);
    } else {
        assert forall|i2: int, j2: int|
            0 <= i2 < prev.len() && 0 <= j2 < prev[i2].endpoints.len() && (i2 != i || j2 != j)
                implies #[trigger] prev[i2].endpoints[j2].endpoint_address != prev[i].endpoints[j].endpoint_address by {
            assert(prev[i2] == ifaces[i2]);
            assert(ifaces[i2].endpoints[j2].endpoint_address != k);
        }
        lemma_endpoint_table_entry(prev, i, j);
        assert forall|j2: int| 0 <= j2 < last.endpoints.len() implies last.endpoints[j2].endpoint_address != k by {
            assert(ifaces[ifaces.len() - 1].endpoints[j2].endpoint_address != k);
        }
        lemma_enter_endpoints_other(endpoint_table_of(prev), last.endpoints, k);
    }
}

proof fn lemma_enter_endpoints_other(m: Map<u8, crate::endpoint::EndpointInfo>, eps: Seq<crate::descriptor::config::EndpointDescriptor>, k: u8)
    requires
        forall|j: int| 0 <= j < eps.len() ==> eps[j].endpoint_address != k,
    ensures
        enter_endpoints(m, eps).contains_key(k) == m.contains_key(k),
        enter_endpoints(m, eps)[k] == m[k],
    decreases eps.len(),
{
    if eps.len() > 0 {
        let d = eps.drop_last();
        assert forall|j: int| 0 <= j < d.len() implies d[j].endpoint_address != k by {
            assert(d[j] == eps[j]);
        }
        lemma_enter_endpoints_other(m, d, k);
        assert(eps.last() == eps[eps.len() - 1]);
    }
}

proof fn lemma_enter_endpoints_value(m: Map<u8, crate::endpoint::EndpointInfo>, eps: Seq<crate::descriptor::config::EndpointDescriptor>, j: int)
    requires
        0 <= j < eps.len(),
        forall|k: int| 0 <= k < eps.len() && k != j ==> eps[k].endpoint_address != eps[j].endpoint_address,
    ensures
        enter_endpoints(m, eps).contains_key(eps[j].endpoint_address),
        enter_endpoints(m, eps)[eps[j].endpoint_address] == endpoint_info_of(eps[j]),
    decreases eps.len(),
{
    if j < eps.len() - 1 {
        let d = eps.drop_last();
        assert forall|k: int| 0 <= k < d.len() && k != j implies d[k].endpoint_address != d[j].endpoint_address by {
            assert(d[k] == eps[k]);
        }
        lemma_enter_endpoints_value(m, d, j);
        assert(eps.last() == eps[eps.len() - 1]);
    }
}

/// The four lower-case hexadecimal digits of `v`, most significant first,
/// as sysfs writes `idVendor` and `idProduct`.
pub open spec fn hex4_text(v: u16) -> Seq<char> {
    seq![
        hex_digit((v / 4096) as int),
        hex_digit(((v / 256) % 16) as int),
        hex_digit(((v / 16) % 16) as int),
        hex_digit((v % 16) as int),
    ]
}

proof fn lemma_hex_digit(n: int)
    requires
        0 <= n < 16,
    ensures
        digit_value(hex_digit(n)) == n,
        !is_white_space(hex_digit(n)),
        hex_digit(n) != '+',
{
}

proof fn lemma_decimal_digits(n: nat)
    ensures
        digits_value(decimal_digits(n), 10) == Some(n as int),
        decimal_digits(n).len() > 0,
        forall|k: int| 0 <= k < decimal_digits(n).len() ==> 48 <= #[trigger] (decimal_digits(n)[k] as u32) <= 57,
    decreases n,
{
    if n >= 10 {
        lemma_decimal_digits(n / 10);
        let s = decimal_digits(n);
        assert(s.drop_last() =~= decimal_digits(n / 10));
        assert(s.last() == decimal_digit((n % 10) as int));
        assert(digit_value(s.last()) == n % 10);
        assert((n / 10) * 10 + n % 10 == n);
        assert forall|k: int| 0 <= k < s.len() implies 48 <= #[trigger] (s[k] as u32) <= 57 by {
            if k < s.len() - 1 {
                assert(s[k] == decimal_digits(n / 10)[k]);
            }
        }
    } else {
        let s = decimal_digits(n);
        assert(s.drop_last() =~= Seq::<char>::empty());
        assert(s.last() == decimal_digit(n as int));
        assert(digit_value(s.last()) == n);
        assert(digits_value(s.drop_last(), 10) == Some(0int));
    }
}

/// A text of at least one character whose first and last characters are
/// not white space, followed by a newline, trims back to itself.
proof fn lemma_trim_newline(s: Seq<char>)
    requires
        s.len() > 0,
        !is_white_space(s[0]),
        !is_white_space(s.last()),
    ensures
        trim_end(trim_start(s.push('\n'))) == s,
{
    let t = s.push('\n');
    assert(t[0] == s[0]);
    assert(trim_start(t) == t);
    assert(is_white_space(t.last()));
    assert(t.drop_last() =~= s);
    assert(trim_end(s) == s);
}

/// An `idVendor` or `idProduct` attribute as sysfs writes it (four
/// lower-case hexadecimal digits and a newline) reads back as the number
/// it was written from.
pub proof fn lemma_hex_attr_round_trip(v: u16)
    ensures
        hex_attr_value(Some(hex4_text(v).push('\n'))) == v,
{
    let s = hex4_text(v);
    let d0 = (v / 4096) as int;
    let d1 = ((v / 256) % 16) as int;
    let d2 = ((v / 16) % 16) as int;
    let d3 = (v % 16) as int;
    lemma_hex_digit(d0);
    lemma_hex_digit(d1);
    lemma_hex_digit(d2);
    lemma_hex_digit(d3);
    lemma_trim_newline(s);
    assert(s.drop_last().drop_last().drop_last().drop_last() =~= Seq::<char>::empty());
    assert(s.drop_last().drop_last().drop_last() =~= seq![s[0]]);
    assert(s.drop_last().drop_last() =~= seq![s[0], s[1]]);
    assert(s.drop_last() =~= seq![s[0], s[1], s[2]]);
    assert(seq![s[0]].drop_last() =~= Seq::<char>::empty());
    assert(digits_value(Seq::<char>::empty(), 16) == Some(0int));
    assert(seq![s[0]].last() == s[0]);
    assert(digits_value(seq![s[0]], 16) == Some(d0));
    assert(seq![s[0], s[1]].drop_last() =~= seq![s[0]]);
    assert(seq![s[0], s[1], s[2]].drop_last() =~= seq![s[0], s[1]]);
    assert(digits_value(seq![s[0], s[1]], 16) == Some(d0 * 16 + d1));
    assert(digits_value(seq![s[0], s[1], s[2]], 16) == Some((d0 * 16 + d1) * 16 + d2));
    assert(digits_value(s, 16) == Some(((d0 * 16 + d1) * 16 + d2) * 16 + d3));
    assert(((d0 * 16 + d1) * 16 + d2) * 16 + d3 == v as int);
}

/// A `busnum` or `devnum` attribute as sysfs writes it (the number in
/// decimal and a newline) reads back as that number.
pub proof fn lemma_decimal_attr_round_trip(v: u8)
    ensures
        decimal_attr_value(Some(decimal_text(v as int).push('\n'))) == v,
{
    let s = decimal_text(v as int);
    lemma_decimal_digits(v as nat);
    assert(48 <= (s[0] as u32) <= 57);
    assert(48 <= (s[s.len() - 1] as u32) <= 57);
    lemma_trim_newline(s);
}

} // verus!
