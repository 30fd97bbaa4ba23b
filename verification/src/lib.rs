//! Parsing and decision logic of a USB host library: descriptor parsers,
//! control-request builders, endpoint classification and the usbdevfs
//! decision helpers, each with a contract proved by Verus.

pub mod error;
pub mod endpoint;
pub mod transfer;
pub mod descriptor;
pub mod text;
pub mod device;
pub mod usbdevfs;
pub mod laws;
pub mod offsets;

pub use descriptor::bos::{
    BosCapability, BosCapabilityType, BosDescriptor, ContainerIdCapability, SuperSpeedCapability,
    Usb20ExtensionCapability,
};
pub use descriptor::config::{
    ConfigDescriptor, EndpointDescriptor, HidDescriptor, InterfaceDescriptor, SuperSpeedEndpointCompanion,
};
pub use descriptor::fixed::{DeviceDescriptor, DeviceQualifierDescriptor, HubDescriptor};
pub use device::DeviceInfo;
pub use endpoint::{Direction, EndpointInfo, TransferType};
pub use error::UsbError;
pub use transfer::ControlSetup;
