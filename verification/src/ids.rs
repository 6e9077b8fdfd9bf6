//! Stable identifiers. Every object the broker knows is named by an
//! identifier and resolved through a registry, so a dead referent shows up
//! as a lookup miss and never as a dangling access.

use vstd::prelude::*;

verus! {

/// One client connection, named by the transport layer.
#[derive(Clone, Copy, Debug, PartialEq, Eq, Structural, Hash)]
pub struct ClientId(pub u64);

/// One seat, named by the seat registry.
#[derive(Clone, Copy, Debug, PartialEq, Eq, Structural, Hash)]
pub struct SeatId(pub u64);

/// One data source, named by the broker when the source is created.
#[derive(Clone, Copy, Debug, PartialEq, Eq, Structural, Hash)]
pub struct SourceId(pub u64);

/// One data-control device, named by the broker when the device is bound.
#[derive(Clone, Copy, Debug, PartialEq, Eq, Structural, Hash)]
pub struct DeviceId(pub u64);

/// One offer: what one device was told of one selection event. The serial
/// names the event, the device says whose view of it this is.
#[derive(Clone, Copy, Debug, PartialEq, Eq, Structural, Hash)]
pub struct OfferId {
    pub serial: u64,
    pub device: DeviceId,
}

} // verus!
