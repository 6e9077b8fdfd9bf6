//! Data-control devices, the offers they are handed, and what they are told.

use vstd::prelude::*;

use crate::broker::{Broker, SetSelection};
use crate::error::ProtocolViolation;
use crate::ids::{ClientId, DeviceId, OfferId, SeatId, SourceId};
use crate::seat_data::Selection;

verus! {

/// The handle through which one client observes, and asks to change, the
/// selection of one seat.
#[derive(Clone, Copy, Debug, PartialEq, Eq, Structural)]
pub struct Device {
    pub id: DeviceId,
    pub client: ClientId,
    pub seat: SeatId,
}

/// One client's read-only view of one selection: the proxy through which the
/// client of `id.device` may ask what `source` offers, for as long as that
/// source stays the seat's selection.
#[derive(Clone, Copy, Debug, PartialEq, Eq, Structural)]
pub struct Offer {
    pub id: OfferId,
    pub client: ClientId,
    pub source: SourceId,
}

/// What the broker tells a device when its seat's selection changes.
#[derive(Clone, Copy, Debug, PartialEq, Eq, Structural)]
pub enum Notification {
    /// The seat has a new selection; `offer` is this device's proxy for it.
    SelectionOffer { device: DeviceId, offer: OfferId },
    /// The seat has no selection any more.
    SelectionCleared { device: DeviceId },
}

impl Notification {
    /// The device that is to receive this notification.
    pub open spec fn recipient(self) -> DeviceId {
        match self {
            Notification::SelectionOffer { device, .. } => device,
            Notification::SelectionCleared { device } => device,
        }
    }

    /// The device that is to receive this notification.
    pub fn device(&self) -> (device: DeviceId)
        ensures
            device == self.recipient(),
    {
        match self {
            Notification::SelectionOffer { device, .. } => *device,
            Notification::SelectionCleared { device } => *device,
        }
    }
}

/// Which devices leave a seat.
#[derive(Clone, Copy, Debug, PartialEq, Eq, Structural)]
pub enum Departure {
    /// The one device of this name.
    Device(DeviceId),
    /// Every device of this client.
    Client(ClientId),
}

impl Departure {
    /// Whether `device` stays.
    pub open spec fn spares(self, device: Device) -> bool {
        match self {
            Departure::Device(id) => device.id != id,
            Departure::Client(client) => device.client != client,
        }
    }

    /// Whether `offer` stays: an offer leaves with its device.
    pub open spec fn spares_offer(self, offer: Offer) -> bool {
        match self {
            Departure::Device(id) => offer.id.device != id,
            Departure::Client(client) => offer.client != client,
        }
    }

    /// `spares`, as a predicate to filter with.
    pub open spec fn staying(self) -> spec_fn(Device) -> bool {
        |device: Device| self.spares(device)
    }

    /// `spares_offer`, as a predicate to filter with.
    pub open spec fn staying_offers(self) -> spec_fn(Offer) -> bool {
        |offer: Offer| self.spares_offer(offer)
    }

    /// Whether `device` stays.
    pub fn keeps(&self, device: &Device) -> (stays: bool)
        ensures
            stays == self.spares(*device),
    {
        match self {
            Departure::Device(id) => device.id != *id,
            Departure::Client(client) => device.client != *client,
        }
    }

    /// Whether `offer` stays.
    pub fn keeps_offer(&self, offer: &Offer) -> (stays: bool)
        ensures
            stays == self.spares_offer(*offer),
    {
        match self {
            Departure::Device(id) => offer.id.device != *id,
            Departure::Client(client) => offer.client != *client,
        }
    }
}

/// What a client can ask of one of its devices.
#[derive(Clone, Copy, Debug, PartialEq, Eq, Structural)]
pub enum Request {
    /// Make `source` the selection of the device's seat, or clear the
    /// selection where `source` is `None`.
    SetSelection { source: Option<SourceId> },
    /// Destroy the device.
    Destroy,
}

impl Request {
    /// Whether the request asks for a source to become the selection.
    pub open spec fn names_source(self) -> bool {
        match self {
            Request::SetSelection { source: Some(_) } => true,
            _ => false,
        }
    }
}

/// What became of a request made of a device.
#[derive(Debug)]
pub enum Reply {
    /// The selection was not set: the requester does not hold the keyboard
    /// focus. Nothing changed and nobody is told.
    Denied,
    /// The selection was set; these notifications are to be delivered.
    Installed(Vec<Notification>),
    /// The device was destroyed. Nobody is told.
    Destroyed,
}

/// Handles `asked`, a request made of the device named `device`. `has_focus` is the
/// focus collaborator's answer to whether the device's client holds the
/// keyboard focus on the device's seat right now; only a request to set the
/// selection depends on it.
pub fn request(broker: &mut Broker, device: DeviceId, asked: Request, has_focus: bool) -> (done:
    Result<Reply, ProtocolViolation>)
    requires
        old(broker).wf(),
        has_focus && asked.names_source() ==> old(broker)@.next_id < u64::MAX,
    ensures
        final(broker).wf(),
        match asked {
            Request::SetSelection { source } => match done {
                Ok(Reply::Installed(notifications)) => {
                    &&& old(broker)@.violation(device, source) is None
                    &&& has_focus
                    &&& final(broker)@ == old(broker)@.with_selection(
                        device,
                        Selection::of(source),
                    )
                    &&& notifications@ == old(broker)@.announcements(
                        device,
                        Selection::of(source),
                    )
                },
                Ok(Reply::Denied) => {
                    &&& old(broker)@.violation(device, source) is None
                    &&& !has_focus
                    &&& final(broker)@ == old(broker)@
                },
                Ok(Reply::Destroyed) => false,
                Err(violation) => {
                    &&& old(broker)@.violation(device, source) == Some(violation)
                    &&& final(broker)@ == old(broker)@
                },
            },
            Request::Destroy => match done {
                Ok(Reply::Destroyed) => old(broker)@.has_device(device) && final(broker)@ == old(
                    broker,
                )@.without_device(device),
                Ok(_) => false,
                Err(violation) => violation == ProtocolViolation::DeadDevice && !old(
                    broker,
                )@.has_device(device) && final(broker)@ == old(broker)@,
            },
        },
{
    match asked {
        Request::SetSelection { source } => match broker.set_selection(device, source, has_focus) {
            Ok(SetSelection::Installed(notifications)) => Ok(Reply::Installed(notifications)),
            Ok(SetSelection::Denied) => Ok(Reply::Denied),
            Err(violation) => Err(violation),
        },
        Request::Destroy => match broker.destroy_device(device) {
            Ok(()) => Ok(Reply::Destroyed),
            Err(violation) => Err(violation),
        },
    }
}

} // verus!
