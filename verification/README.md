# rust_usb

A USB host library whose parsing and decision logic is verified with Verus.

- `src/` — the verified library:
  - `descriptor/` — device, device qualifier, hub, configuration (with
    interfaces, endpoints, HID and SuperSpeed companion descriptors) and BOS
    descriptor parsers, each specified against a model of the bytes;
  - `transfer.rs` — builders for standard control requests;
  - `endpoint.rs` — endpoint classification;
  - `device.rs` — device information assembled from sysfs attributes;
  - `usbdevfs.rs` — the Linux backend's decisions: error-number mapping,
    response checks, control data stages, isochronous packet splitting and
    the per-device endpoint table;
  - `text.rs` — number rendering and parsing, and UTF-16 decoding;
  - `laws.rs` — properties that span inputs (bytes past `wTotalLength`
    are ignored, capability type codes round-trip, the endpoint table
    covers every endpoint);
  - `error.rs` — the error type.
- `app/` — the system side: udev enumeration, usbdevfs ioctls, the
  `UsbContext` and `DeviceHandle` types and an error type with `Display`.
- `tests/` — tests of the library on concrete inputs.
