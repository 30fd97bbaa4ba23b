use vstd::prelude::*;
use crate::offsets::{endpoint_classified, lemma_endpoint_classification};

verus! {

/// Direction of a USB endpoint transfer.
#[derive(Debug, Clone, Copy, PartialEq, Eq, Structural)]
pub enum Direction {
    /// Device-to-host (IN endpoint, bit 7 = 1)
    In,
    /// Host-to-device (OUT endpoint, bit 7 = 0)
    Out,
}

/// USB transfer type encoded in endpoint bmAttributes bits 1:0.
#[derive(Debug, Clone, Copy, PartialEq, Eq, Structural)]
pub enum TransferType {
    Control,
    Isochronous,
    Bulk,
    Interrupt,
}

/// Parsed endpoint information derived from an endpoint descriptor.
#[derive(Debug, Clone, Copy)]
pub struct EndpointInfo {
    /// Raw endpoint address byte (bEndpointAddress)
    pub pipe_id: u8,
    /// Endpoint number (bits 3:0 of pipe_id)
    pub number: u8,
    pub direction: Direction,
    pub transfer_type: TransferType,
    pub max_packet_size: u16,
    /// Polling interval (bInterval)
    pub interval: u8,
}

/// The direction that bit 7 of an endpoint address selects.
pub open spec fn direction_of(address: u8) -> Direction {
    if address >= 0x80 { Direction::In } else { Direction::Out }
}

/// The transfer type that bits 1:0 of bmAttributes select.
pub open spec fn transfer_type_of(attributes: u8) -> TransferType {
    let t = attributes % 4;
    if t == 0 {
        TransferType::Control
    } else if t == 1 {
        TransferType::Isochronous
    } else if t == 2 {
        TransferType::Bulk
    } else {
        TransferType::Interrupt
    }
}

/// The endpoint information that `EndpointInfo::new` builds from its fields.
pub open spec fn endpoint_info_spec(address: u8, attributes: u8, max_packet_size: u16, interval: u8) -> EndpointInfo {
    EndpointInfo {
        pipe_id: address,
        number: (address % 16) as u8,
        direction: direction_of(address),
        transfer_type: transfer_type_of(attributes),
        max_packet_size,
        interval,
    }
}

impl EndpointInfo {
    /// Classify an endpoint from its descriptor fields.
    pub fn new(address: u8, attributes: u8, max_packet_size: u16, interval: u8) -> (r: Self)
        ensures
            r == endpoint_info_spec(address, attributes, max_packet_size, interval),
            endpoint_classified(address, attributes, max_packet_size, interval, r),
    {
        proof {
            lemma_endpoint_classification(address, attributes, max_packet_size, interval);
        }
        let direction = if address & 0x80 != 0 {
            Direction::In
        } else {
            Direction::Out
        };
        assert((address & 0x80 != 0) == (address >= 0x80)) by (bit_vector);
        assert(address & 0x03 == address % 4) by (bit_vector);
        assert(address & 0x0F == address % 16) by (bit_vector);
        assert(attributes & 0x03 == attributes % 4) by (bit_vector);
        let transfer_type = match attributes & 0x03 {
            0x00 => TransferType::Control,
            0x01 => TransferType::Isochronous,
            0x02 => TransferType::Bulk,
            _ => TransferType::Interrupt,
        };
        Self {
            pipe_id: address,
            number: address & 0x0F,
            direction,
            transfer_type,
            max_packet_size,
            interval,
        }
    }
}

} // verus!
