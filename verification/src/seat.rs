//! A registered seat and its lazily created selection state.

use vstd::prelude::*;

use crate::device::{Departure, Device, Notification, Offer};
use crate::ids::{DeviceId, OfferId, SeatId, SourceId};
use crate::seat_data::{SeatDataView, SeatSelectionState, Selection};

verus! {

/// What a registered seat is, mathematically.
pub struct SeatView {
    pub id: SeatId,
    /// The seat's selection state; `None` until the first device is bound.
    pub data: Option<SeatDataView>,
}

impl SeatView {
    /// A seat that was registered and not used yet.
    pub open spec fn new(id: SeatId) -> SeatView {
        SeatView { id, data: None }
    }

    /// The seat's selection state, counting a seat that was not used yet as
    /// one without selection and without devices.
    pub open spec fn state(self) -> SeatDataView {
        match self.data {
            Some(data) => data,
            None => SeatDataView::new(),
        }
    }

    /// The seat's selection.
    pub open spec fn current(self) -> Selection {
        self.state().current
    }

    /// The live devices bound to the seat, oldest first.
    pub open spec fn devices(self) -> Seq<Device> {
        self.state().devices
    }

    /// The offers for the seat's selection that are still good.
    pub open spec fn offers(self) -> Seq<Offer> {
        self.state().offers
    }

    /// Whether a device named `id` is bound to the seat.
    pub open spec fn has_device(self, id: DeviceId) -> bool {
        self.state().has_device(id)
    }

    /// Whether the offer named `id` is good on this seat.
    pub open spec fn has_offer(self, id: OfferId) -> bool {
        self.state().has_offer(id)
    }

    /// The seat after `device` was bound to it; this creates the selection
    /// state if the seat had none.
    pub open spec fn with_device(self, device: Device) -> SeatView {
        SeatView { id: self.id, data: Some(self.state().with_device(device)) }
    }

    /// The seat after the devices that `departure` names have left.
    pub open spec fn without(self, departure: Departure) -> SeatView {
        SeatView {
            id: self.id,
            data: match self.data {
                Some(data) => Some(data.without(departure)),
                None => None,
            },
        }
    }

    /// The seat after `selection` was installed in the event named `serial`.
    pub open spec fn with_selection(self, selection: Selection, serial: u64) -> SeatView {
        SeatView {
            id: self.id,
            data: match self.data {
                Some(data) => Some(data.with_selection(selection, serial)),
                None => None,
            },
        }
    }

    /// The seat after `source` died.
    pub open spec fn without_source(self, source: SourceId) -> SeatView {
        SeatView {
            id: self.id,
            data: match self.data {
                Some(data) => Some(data.without_source(source)),
                None => None,
            },
        }
    }

    /// What the seat's devices are told when `source` dies.
    pub open spec fn obituary(self, source: SourceId) -> Seq<Notification> {
        self.state().obituary(source)
    }
}

/// A registered seat.
#[derive(Debug)]
pub struct Seat {
    id: SeatId,
    data: Option<SeatSelectionState>,
}

impl View for Seat {
    type V = SeatView;

    closed spec fn view(&self) -> SeatView {
        SeatView {
            id: self.id,
            data: match self.data {
                Some(data) => Some(data@),
                None => None,
            },
        }
    }
}

impl Seat {
    /// A seat that was registered and not used yet.
    pub fn new(id: SeatId) -> (seat: Self)
        ensures
            seat@ == SeatView::new(id),
    {
        Seat { id, data: None }
    }

    /// The seat's name.
    pub fn id(&self) -> (id: SeatId)
        ensures
            id == self@.id,
    {
        self.id
    }

    /// The seat's selection state, if it was created yet.
    pub fn data(&self) -> (data: Option<&SeatSelectionState>)
        ensures
            match data {
                Some(data) => self@.data == Some(data@),
                None => self@.data is None,
            },
    {
        self.data.as_ref()
    }

    /// The seat's selection.
    pub fn current(&self) -> (current: Selection)
        ensures
            current == self@.current(),
    {
        match &self.data {
            Some(data) => data.current(),
            None => Selection::Empty,
        }
    }

    /// The first device named `id`, if one is bound to the seat.
    pub fn device(&self, id: DeviceId) -> (found: Option<Device>)
        ensures
            match found {
                Some(device) => device.id == id && self@.devices().contains(device),
                None => !self@.has_device(id),
            },
    {
        match &self.data {
            Some(data) => data.device(id),
            None => None,
        }
    }

    /// The first offer named `id`, if it is good on this seat.
    pub fn offer(&self, id: OfferId) -> (found: Option<Offer>)
        ensures
            match found {
                Some(offer) => offer.id == id && self@.offers().contains(offer),
                None => !self@.has_offer(id),
            },
    {
        match &self.data {
            Some(data) => data.offer(id),
            None => None,
        }
    }

    /// Binds `device` to the seat, creating the selection state if the seat
    /// had none.
    pub fn add_device(&mut self, device: Device)
        ensures
            final(self)@ == old(self)@.with_device(device),
    {
        match &mut self.data {
            Some(data) => {
                data.add_device(device);
            },
            None => {
                let mut data = SeatSelectionState::new();
                data.add_device(device);
                self.data = Some(data);
            },
        }
    }

    /// Drops the devices that `departure` names, and their offers.
    pub fn retain_devices(&mut self, departure: Departure)
        ensures
            final(self)@ == old(self)@.without(departure),
    {
        match &mut self.data {
            Some(data) => {
                data.retain_devices(departure);
            },
            None => {},
        }
    }

    /// Installs `selection` in the event named `serial` and says what each
    /// device is to be told.
    pub fn set_selection(&mut self, selection: Selection, serial: u64) -> (notifications: Vec<
        Notification,
    >)
        ensures
            final(self)@ == old(self)@.with_selection(selection, serial),
            notifications@ == old(self)@.state().announcements(selection, serial),
    {
        match &mut self.data {
            Some(data) => data.set_selection(selection, serial),
            None => Vec::new(),
        }
    }

    /// Takes note that `source` died, and says what each device is to be
    /// told.
    pub fn source_destroyed(&mut self, source: SourceId) -> (notifications: Vec<Notification>)
        ensures
            final(self)@ == old(self)@.without_source(source),
            notifications@ == old(self)@.obituary(source),
    {
        match &mut self.data {
            Some(data) => data.source_destroyed(source),
            None => Vec::new(),
        }
    }
}

} // verus!
