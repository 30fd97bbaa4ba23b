use vstd::prelude::*;
use crate::text::{parse_decimal_u8, parse_hex_u16, str_trim, trimmed, u16_from_hex, u8_from_decimal};

verus! {

/// Information about a connected USB device discovered during enumeration.
#[derive(Debug, Clone)]
pub struct DeviceInfo {
    /// USB Vendor ID
    pub vendor_id: u16,
    /// USB Product ID
    pub product_id: u16,
    /// USB bus number (0 if not available on this platform)
    pub bus_number: u8,
    /// USB device address on the bus (0 if not available on this platform)
    pub device_address: u8,
    /// Platform-specific device path used to open the device
    pub path: String,
    /// Manufacturer string read from the device (None if unavailable)
    pub manufacturer: Option<String>,
    /// Product string read from the device (None if unavailable)
    pub product: Option<String>,
    /// Serial number string read from the device (None if unavailable)
    pub serial_number: Option<String>,
}

/// A hexadecimal sysfs attribute (`idVendor`, `idProduct`): its trimmed
/// text read as a `u16`, or 0 when it is missing or not a valid number.
pub open spec fn hex_attr_value(value: Option<Seq<char>>) -> u16 {
    match value {
        Some(s) => match parse_hex_u16(trimmed(s)) {
            Some(v) => v,
            None => 0,
        },
        None => 0,
    }
}

/// A decimal sysfs attribute (`busnum`, `devnum`): its trimmed text read as
/// a `u8`, or 0 when it is missing or not a valid number.
pub open spec fn decimal_attr_value(value: Option<Seq<char>>) -> u8 {
    match value {
        Some(s) => match parse_decimal_u8(trimmed(s)) {
            Some(v) => v,
            None => 0,
        },
        None => 0,
    }
}

/// The text of an optional attribute.
pub open spec fn attr_text(value: Option<&str>) -> Option<Seq<char>> {
    match value {
        Some(s) => Some(s@),
        None => None,
    }
}

/// The text of an optional owned string.
pub open spec fn opt_text(value: Option<String>) -> Option<Seq<char>> {
    match value {
        Some(s) => Some(s@),
        None => None,
    }
}

/// Read a hexadecimal attribute value; a missing or malformed value reads as 0.
pub fn parse_hex_attr(value: Option<&str>) -> (r: u16)
    ensures
        r == hex_attr_value(attr_text(value)),
        value is None ==> r == 0,
{
    match value {
        Some(s) => match u16_from_hex(str_trim(s)) {
            Some(v) => v,
            None => 0,
        },
        None => 0,
    }
}

/// Read a decimal attribute value; a missing or malformed value reads as 0.
pub fn parse_decimal_attr(value: Option<&str>) -> (r: u8)
    ensures
        r == decimal_attr_value(attr_text(value)),
        value is None ==> r == 0,
{
    match value {
        Some(s) => match u8_from_decimal(str_trim(s)) {
            Some(v) => v,
            None => 0,
        },
        None => 0,
    }
}

impl DeviceInfo {
    /// Assemble the information of one enumerated device from its device
    /// node path and the text of its sysfs attributes (`idVendor`,
    /// `idProduct`, `busnum`, `devnum`, `manufacturer`, `product`, `serial`).
    pub fn from_attributes(
        path: String,
        id_vendor: Option<&str>,
        id_product: Option<&str>,
        busnum: Option<&str>,
        devnum: Option<&str>,
        manufacturer: Option<String>,
        product: Option<String>,
        serial_number: Option<String>,
    ) -> (r: Self)
        ensures
            r.vendor_id == hex_attr_value(attr_text(id_vendor)),
            r.product_id == hex_attr_value(attr_text(id_product)),
            r.bus_number == decimal_attr_value(attr_text(busnum)),
            r.device_address == decimal_attr_value(attr_text(devnum)),
            r.path@ == path@,
            opt_text(r.manufacturer) == opt_text(manufacturer),
            opt_text(r.product) == opt_text(product),
            opt_text(r.serial_number) == opt_text(serial_number),
    {
        let vendor_id = parse_hex_attr(id_vendor);
        let product_id = parse_hex_attr(id_product);
        let bus_number = parse_decimal_attr(busnum);
        let device_address = parse_decimal_attr(devnum);
        DeviceInfo {
            vendor_id,
            product_id,
            bus_number,
            device_address,
            path,
            manufacturer,
            product,
            serial_number,
        }
    }
}

} // verus!
