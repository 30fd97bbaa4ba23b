use rust_usb::device::{parse_decimal_attr, parse_hex_attr};
use rust_usb::DeviceInfo;

#[test]
fn hex_attributes() {
    assert_eq!(parse_hex_attr(Some("1d6b")), 0x1d6b);
    assert_eq!(parse_hex_attr(Some("  046D\n")), 0x046d);
    assert_eq!(parse_hex_attr(Some("+ff")), 0xff);
    assert_eq!(parse_hex_attr(Some("10000")), 0);
    assert_eq!(parse_hex_attr(Some("0x12")), 0);
    assert_eq!(parse_hex_attr(Some("")), 0);
    assert_eq!(parse_hex_attr(Some("  ")), 0);
    assert_eq!(parse_hex_attr(Some("-1")), 0);
    assert_eq!(parse_hex_attr(None), 0);
}

#[test]
fn decimal_attributes() {
    assert_eq!(parse_decimal_attr(Some("3")), 3);
    assert_eq!(parse_decimal_attr(Some("\t255 \n")), 255);
    assert_eq!(parse_decimal_attr(Some("256")), 0);
    assert_eq!(parse_decimal_attr(Some("1a")), 0);
    assert_eq!(parse_decimal_attr(Some("+7")), 7);
    assert_eq!(parse_decimal_attr(None), 0);
}

#[test]
fn device_info_from_attributes() {
    let d = DeviceInfo::from_attributes(
        "/dev/bus/usb/001/004".to_string(),
        Some("046d\n"),
        Some("c52b\n"),
        Some("1\n"),
        Some("4\n"),
        Some("Logitech".to_string()),
        None,
        Some("ABC".to_string()),
    );
    assert_eq!(d.vendor_id, 0x046d);
    assert_eq!(d.product_id, 0xc52b);
    assert_eq!(d.bus_number, 1);
    assert_eq!(d.device_address, 4);
    assert_eq!(d.path, "/dev/bus/usb/001/004");
    assert_eq!(d.manufacturer.as_deref(), Some("Logitech"));
    assert_eq!(d.product, None);
    assert_eq!(d.serial_number.as_deref(), Some("ABC"));
    let d = DeviceInfo::from_attributes("x".to_string(), None, Some("zz"), None, Some("999"), None, None, None);
    assert_eq!((d.vendor_id, d.product_id, d.bus_number, d.device_address), (0, 0, 0, 0));
}
