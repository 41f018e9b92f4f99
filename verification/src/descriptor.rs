//! What a device says about itself, held as plain values.

use vstd::prelude::*;

verus! {

/// Direction of an endpoint, seen from the host.
#[derive(Debug, Clone, Copy, PartialEq, Eq, Structural)]
pub enum Direction {
    /// Device to host.
    In,
    /// Host to device.
    Out,
}

/// How an endpoint moves data.
#[derive(Debug, Clone, Copy, PartialEq, Eq, Structural)]
pub enum TransferType {
    Control,
    Isochronous,
    Bulk,
    Interrupt,
}

/// Vendor and product identifier of a device. Used only for matching.
#[derive(Debug, Clone, Copy, PartialEq, Eq, Structural)]
pub struct DeviceIdentity {
    pub vendor_id: u16,
    pub product_id: u16,
}

/// One endpoint of a device, with the place it has in the descriptor tree.
#[derive(Debug, Clone, Copy, PartialEq, Eq, Structural)]
pub struct Endpoint {
    /// Number of the configuration that declares the endpoint.
    pub config: u8,
    /// Number of the interface.
    pub iface: u8,
    /// Alternate setting of the interface.
    pub setting: u8,
    /// Endpoint address.
    pub address: u8,
    pub direction: Direction,
    pub transfer_type: TransferType,
}

/// An endpoint as its own descriptor presents it.
#[derive(Debug, Clone, Copy, PartialEq, Eq, Structural)]
pub struct EndpointInfo {
    pub address: u8,
    pub direction: Direction,
    pub transfer_type: TransferType,
}

/// One alternate setting of an interface, with its endpoints in declaration order.
#[derive(Debug, Clone)]
pub struct InterfaceSetting {
    pub interface_number: u8,
    pub setting_number: u8,
    pub endpoints: Vec<EndpointInfo>,
}

/// An interface: its alternate settings in declaration order.
#[derive(Debug, Clone)]
pub struct Interface {
    pub settings: Vec<InterfaceSetting>,
}

/// A configuration: its interfaces in declaration order.
#[derive(Debug, Clone)]
pub struct Configuration {
    pub number: u8,
    pub interfaces: Vec<Interface>,
}

/// The descriptor tree of one device.
///
/// Entry `n` of `configurations` is what reading the configuration with index
/// `n` gave: `None` where it could not be read. The length is the number of
/// configurations that the device declares.
#[derive(Debug, Clone)]
pub struct DeviceLayout {
    pub configurations: Vec<Option<Configuration>>,
}

impl Endpoint {
    /// The endpoint that `info` describes, placed at `(config, iface, setting)`.
    pub open spec fn located(config: u8, iface: u8, setting: u8, info: EndpointInfo) -> Endpoint {
        Endpoint {
            config,
            iface,
            setting,
            address: info.address,
            direction: info.direction,
            transfer_type: info.transfer_type,
        }
    }

    /// Places a described endpoint in the tree.
    pub fn new(config: u8, iface: u8, setting: u8, info: &EndpointInfo) -> (r: Endpoint)
        ensures
            r == Endpoint::located(config, iface, setting, *info),
    {
        Endpoint {
            config,
            iface,
            setting,
            address: info.address,
            direction: info.direction,
            transfer_type: info.transfer_type,
        }
    }

    /// Whether the endpoint has the given direction and transfer type.
    pub open spec fn is_kind(self, direction: Direction, transfer_type: TransferType) -> bool {
        self.direction == direction && self.transfer_type == transfer_type
    }

    /// Tests the endpoint's direction and transfer type.
    pub fn has_kind(&self, direction: Direction, transfer_type: TransferType) -> (r: bool)
        ensures
            r == self.is_kind(direction, transfer_type),
    {
        self.direction == direction && self.transfer_type == transfer_type
    }
}

impl DeviceIdentity {
    /// Whether a device whose descriptor read gave `descriptor` is the wanted
    /// one. A device whose descriptor could not be read matches nothing.
    pub open spec fn matches(self, descriptor: Option<DeviceIdentity>) -> bool {
        descriptor == Some(self)
    }

    /// Compares a device's descriptor, if it could be read, with this identity.
    pub fn is_match(&self, descriptor: &Option<DeviceIdentity>) -> (r: bool)
        ensures
            r == self.matches(*descriptor),
    {
        match descriptor {
            Some(found) => found.vendor_id == self.vendor_id && found.product_id
                == self.product_id,
            None => false,
        }
    }
}

} // verus!
