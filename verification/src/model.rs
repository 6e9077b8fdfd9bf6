//! The broker as mathematics: its state, what each request makes of it, and
//! what holds of every state that requests can reach.

use vstd::prelude::*;

use crate::device::{Departure, Device, Notification, Offer};
use crate::error::ProtocolViolation;
use crate::ids::{ClientId, DeviceId, OfferId, SeatId, SourceId};
use crate::seat::SeatView;
use crate::seat_data::Selection;
use crate::source::{Demise, SourceView};

verus! {

/// What the broker is, mathematically.
pub struct BrokerView {
    /// The registered seats, oldest first.
    pub seats: Seq<SeatView>,
    /// The live sources, oldest first.
    pub sources: Seq<SourceView>,
    /// The number that names the next source, device or selection event.
    /// Names are never used twice.
    pub next_id: u64,
}

/// Binds `device` to the seat it names.
pub open spec fn bind(device: Device) -> spec_fn(SeatView) -> SeatView {
    |seat: SeatView|
        if seat.id == device.seat {
            seat.with_device(device)
        } else {
            seat
        }
}

/// Takes the devices that `departure` names from a seat.
pub open spec fn depart(departure: Departure) -> spec_fn(SeatView) -> SeatView {
    |seat: SeatView| seat.without(departure)
}

/// Installs `selection` on the seat that `device` is bound to.
pub open spec fn install(device: DeviceId, selection: Selection, serial: u64) -> spec_fn(
    SeatView,
) -> SeatView {
    |seat: SeatView|
        if seat.has_device(device) {
            seat.with_selection(selection, serial)
        } else {
            seat
        }
}

/// Clears a seat's selection if `source` holds it.
pub open spec fn bury(source: SourceId) -> spec_fn(SeatView) -> SeatView {
    |seat: SeatView| seat.without_source(source)
}

/// What a seat's devices are told when `source` dies.
pub open spec fn mourn(source: SourceId) -> spec_fn(SeatView) -> Seq<Notification> {
    |seat: SeatView| seat.obituary(source)
}

/// Adds `mime_type` to what `source` offers.
pub open spec fn extend(source: SourceId, mime_type: Seq<char>) -> spec_fn(SourceView)
    -> SourceView {
    |entry: SourceView|
        if entry.id == source {
            entry.offered(mime_type)
        } else {
            entry
        }
}

/// Whether `sources` holds a source named `source` that belongs to `client`.
pub open spec fn owned_by(sources: Seq<SourceView>, source: SourceId, client: ClientId) -> bool {
    exists|i: int|
        0 <= i < sources.len() && #[trigger] sources[i].id == source && sources[i].client
            == client
}

/// Whether a seat loses its selection when `client` disconnects: it does if
/// the source that holds it belongs to `client`.
pub open spec fn bereaved(seat: SeatView, client: ClientId, sources: Seq<SourceView>) -> bool {
    match seat.current() {
        Selection::Owned(source) => owned_by(sources, source, client),
        Selection::Empty => false,
    }
}

/// Takes from a seat what belongs to `client`: its devices, and the
/// selection if one of its sources holds it.
pub open spec fn release(client: ClientId, sources: Seq<SourceView>) -> spec_fn(SeatView)
    -> SeatView {
    |seat: SeatView|
        {
            let left = seat.without(Departure::Client(client));
            if bereaved(seat, client, sources) {
                left.with_selection(Selection::Empty, 0)
            } else {
                left
            }
        }
}

/// What the devices that stay on a seat are told when `client` disconnects.
pub open spec fn farewell(client: ClientId, sources: Seq<SourceView>) -> spec_fn(SeatView) -> Seq<
    Notification,
> {
    |seat: SeatView|
        if bereaved(seat, client, sources) {
            seat.without(Departure::Client(client)).state().announcements(Selection::Empty, 0)
        } else {
            Seq::empty()
        }
}

impl BrokerView {
    /// A broker that knows no seat and no source.
    pub open spec fn new() -> BrokerView {
        BrokerView { seats: Seq::empty(), sources: Seq::empty(), next_id: 0 }
    }

    /// Whether a seat named `seat` is registered.
    pub open spec fn has_seat(self, seat: SeatId) -> bool {
        exists|i: int| 0 <= i < self.seats.len() && #[trigger] self.seats[i].id == seat
    }

    /// The registered seat named `seat`.
    pub open spec fn seat(self, seat: SeatId) -> SeatView
        recommends
            self.has_seat(seat),
    {
        self.seats[choose|i: int| 0 <= i < self.seats.len() && #[trigger] self.seats[i].id == seat]
    }

    /// Whether a live source is named `source`.
    pub open spec fn has_source(self, source: SourceId) -> bool {
        exists|i: int| 0 <= i < self.sources.len() && #[trigger] self.sources[i].id == source
    }

    /// The live source named `source`.
    pub open spec fn source(self, source: SourceId) -> SourceView
        recommends
            self.has_source(source),
    {
        self.sources[choose|i: int|
            0 <= i < self.sources.len() && #[trigger] self.sources[i].id == source]
    }

    /// Whether `device` is bound to a seat.
    pub open spec fn binds(self, device: Device) -> bool {
        exists|i: int|
            0 <= i < self.seats.len() && #[trigger] self.seats[i].devices().contains(device)
    }

    /// Whether a live device is named `device`.
    pub open spec fn has_device(self, device: DeviceId) -> bool {
        exists|i: int| 0 <= i < self.seats.len() && #[trigger] self.seats[i].has_device(device)
    }

    /// The live device named `device`.
    pub open spec fn device(self, device: DeviceId) -> Device
        recommends
            self.has_device(device),
    {
        choose|found: Device| self.binds(found) && found.id == device
    }

    /// Whether `offer` is good: it was handed out for the selection that its
    /// seat still has, to a device that is still alive.
    pub open spec fn holds(self, offer: Offer) -> bool {
        exists|i: int|
            0 <= i < self.seats.len() && #[trigger] self.seats[i].offers().contains(offer)
    }

    /// Whether the offer named `offer` is good.
    pub open spec fn has_offer(self, offer: OfferId) -> bool {
        exists|i: int| 0 <= i < self.seats.len() && #[trigger] self.seats[i].has_offer(offer)
    }

    /// The good offer named `offer`.
    pub open spec fn offer(self, offer: OfferId) -> Offer
        recommends
            self.has_offer(offer),
    {
        choose|found: Offer| self.holds(found) && found.id == offer
    }

    /// The state after a seat named `seat` was registered: unchanged if it
    /// was registered before.
    pub open spec fn with_seat(self, seat: SeatId) -> BrokerView {
        if self.has_seat(seat) {
            self
        } else {
            BrokerView { seats: self.seats.push(SeatView::new(seat)), ..self }
        }
    }

    /// The name that the next source gets.
    pub open spec fn next_source(self) -> SourceId {
        SourceId(self.next_id)
    }

    /// The name that the next device gets.
    pub open spec fn next_device(self) -> DeviceId {
        DeviceId(self.next_id)
    }

    /// The state after `client` created a source: the source is alive,
    /// offers nothing yet, and no seat is touched.
    pub open spec fn with_source(self, client: ClientId) -> BrokerView {
        BrokerView {
            seats: self.seats,
            sources: self.sources.push(
                SourceView { id: self.next_source(), client, mime_types: Seq::empty() },
            ),
            next_id: (self.next_id + 1) as u64,
        }
    }

    /// The state after `client` bound a device to the registered seat named
    /// `seat`.
    pub open spec fn with_device(self, client: ClientId, seat: SeatId) -> BrokerView {
        BrokerView {
            seats: self.seats.map_values(bind(Device { id: self.next_device(), client, seat })),
            sources: self.sources,
            next_id: (self.next_id + 1) as u64,
        }
    }

    /// The state after `mime_type` was offered through `source`.
    pub open spec fn offered(self, source: SourceId, mime_type: Seq<char>) -> BrokerView {
        BrokerView { sources: self.sources.map_values(extend(source, mime_type)), ..self }
    }

    /// The state after `source` was destroyed: the source is gone, and every
    /// seat whose selection it held has none.
    pub open spec fn without_source(self, source: SourceId) -> BrokerView {
        BrokerView {
            seats: self.seats.map_values(bury(source)),
            sources: self.sources.filter(Demise::Source(source).surviving()),
            next_id: self.next_id,
        }
    }

    /// What is told when `source` is destroyed: on every seat whose
    /// selection it held, each device learns that the selection is cleared.
    pub open spec fn obituaries(self, source: SourceId) -> Seq<Notification> {
        self.seats.map_values(mourn(source)).flatten()
    }

    /// What is wrong with a request to set the selection to `source` through
    /// `device`, whoever holds the focus: nothing, if the device is alive
    /// and the source, where one is named, is alive and of the same client.
    pub open spec fn violation(self, device: DeviceId, source: Option<SourceId>) -> Option<
        ProtocolViolation,
    > {
        if !self.has_device(device) {
            Some(ProtocolViolation::DeadDevice)
        } else {
            match source {
                Some(source) => if !self.has_source(source) {
                    Some(ProtocolViolation::DeadSource)
                } else if self.source(source).client != self.device(device).client {
                    Some(ProtocolViolation::ForeignSource)
                } else {
                    None
                },
                None => None,
            }
        }
    }

    /// The state after `selection` was installed through `device`. The
    /// selection event takes a name only if there is something to offer.
    pub open spec fn with_selection(self, device: DeviceId, selection: Selection) -> BrokerView {
        BrokerView {
            seats: self.seats.map_values(install(device, selection, self.next_id)),
            sources: self.sources,
            next_id: match selection {
                Selection::Owned(_) => (self.next_id + 1) as u64,
                Selection::Empty => self.next_id,
            },
        }
    }

    /// The seat that the live device named `device` is bound to.
    pub open spec fn home(self, device: DeviceId) -> SeatView
        recommends
            self.has_device(device),
    {
        self.seat(self.device(device).seat)
    }

    /// What is told when `selection` is installed through `device`: each
    /// device of that seat, the requester's own too, learns of it once.
    pub open spec fn announcements(self, device: DeviceId, selection: Selection) -> Seq<
        Notification,
    > {
        self.home(device).state().announcements(selection, self.next_id)
    }

    /// The state after the devices that `departure` names have left their
    /// seats.
    pub open spec fn departed(self, departure: Departure) -> BrokerView {
        BrokerView { seats: self.seats.map_values(depart(departure)), ..self }
    }

    /// The state after `device` was destroyed.
    pub open spec fn without_device(self, device: DeviceId) -> BrokerView {
        self.departed(Departure::Device(device))
    }

    /// The state after `client` disconnected: its devices and sources are
    /// gone, and every seat whose selection one of its sources held has
    /// none.
    pub open spec fn without_client(self, client: ClientId) -> BrokerView {
        BrokerView {
            seats: self.seats.map_values(release(client, self.sources)),
            sources: self.sources.filter(Demise::Client(client).surviving()),
            next_id: self.next_id,
        }
    }

    /// What is told when `client` disconnects: on every seat that loses its
    /// selection, each device that stays learns that it is cleared.
    pub open spec fn farewells(self, client: ClientId) -> Seq<Notification> {
        self.seats.map_values(farewell(client, self.sources)).flatten()
    }

    /// No two seats share a name.
    pub open spec fn distinct_seats(self) -> bool {
        forall|i: int, j: int|
            0 <= i < j < self.seats.len() ==> #[trigger] self.seats[i].id
                != #[trigger] self.seats[j].id
    }

    /// No two live sources share a name.
    pub open spec fn distinct_sources(self) -> bool {
        forall|i: int, j: int|
            0 <= i < j < self.sources.len() ==> #[trigger] self.sources[i].id
                != #[trigger] self.sources[j].id
    }

    /// No two devices on different seats share a name.
    pub open spec fn distinct_devices(self) -> bool {
        forall|i: int, j: int, k: int, l: int|
            0 <= i < k < self.seats.len() && 0 <= j < self.seats[i].devices().len() && 0 <= l
                < self.seats[k].devices().len() ==> #[trigger] self.seats[i].devices()[j].id
                != #[trigger] self.seats[k].devices()[l].id
    }

    /// No two offers on different seats stem from the same selection event.
    pub open spec fn distinct_events(self) -> bool {
        forall|i: int, j: int, k: int, l: int|
            0 <= i < k < self.seats.len() && 0 <= j < self.seats[i].offers().len() && 0 <= l
                < self.seats[k].offers().len() ==> #[trigger] self.seats[i].offers()[j].id.serial
                != #[trigger] self.seats[k].offers()[l].id.serial
    }

    /// Each seat's own state is well formed, and each device names the seat
    /// it is bound to.
    pub open spec fn seats_wf(self) -> bool {
        &&& forall|i: int| 0 <= i < self.seats.len() ==> #[trigger] self.seats[i].state().wf()
        &&& forall|i: int, j: int|
            0 <= i < self.seats.len() && 0 <= j < self.seats[i].devices().len()
                ==> #[trigger] self.seats[i].devices()[j].seat == self.seats[i].id
    }

    /// Every name in use was given out before: the next name is new.
    pub open spec fn names_spent(self) -> bool {
        &&& forall|i: int|
            0 <= i < self.sources.len() ==> (#[trigger] self.sources[i]).id.0 < self.next_id
        &&& forall|i: int, j: int|
            0 <= i < self.seats.len() && 0 <= j < self.seats[i].devices().len() ==> (
            #[trigger] self.seats[i].devices()[j]).id.0 < self.next_id
        &&& forall|i: int, k: int|
            0 <= i < self.seats.len() && 0 <= k < self.seats[i].offers().len() ==> (
            #[trigger] self.seats[i].offers()[k]).id.serial < self.next_id
    }

    /// Whether `selection` could be installed without dangling: it is empty,
    /// or the source that it names is alive.
    pub open spec fn admits(self, selection: Selection) -> bool {
        match selection {
            Selection::Owned(source) => self.has_source(source),
            Selection::Empty => true,
        }
    }

    /// A source that holds a selection is alive: no seat is left with a
    /// dangling selection.
    pub open spec fn holders_alive(self) -> bool {
        forall|i: int| 0 <= i < self.seats.len() ==> self.admits(#[trigger] self.seats[i].current())
    }

    /// What holds of every state that requests can reach.
    pub open spec fn wf(self) -> bool {
        &&& self.distinct_seats()
        &&& self.distinct_sources()
        &&& self.distinct_devices()
        &&& self.distinct_events()
        &&& self.seats_wf()
        &&& self.names_spent()
        &&& self.holders_alive()
    }
}

/// One thing that happens to the broker: a request of a client, or news from
/// a collaborator.
#[allow(inconsistent_fields)]
pub enum Step {
    /// The seat registry made a seat known.
    SeatAdded { seat: SeatId },
    /// A client asked its manager for a source.
    SourceCreated { client: ClientId },
    /// A client asked its manager for a device on a seat.
    DeviceBound { client: ClientId, seat: SeatId },
    /// A client offered a MIME type through a source.
    Offered { source: SourceId, mime_type: Seq<char> },
    /// A client destroyed a source.
    SourceDestroyed { source: SourceId },
    /// A client asked through a device to set the selection, while the
    /// focus collaborator said `has_focus` of it.
    SelectionSet { device: DeviceId, source: Option<SourceId>, has_focus: bool },
    /// A client destroyed a device.
    DeviceDestroyed { device: DeviceId },
    /// The transport layer reported that a client is gone.
    Disconnected { client: ClientId },
}

impl BrokerView {
    /// The state after `step`. A step that is refused, as a protocol
    /// violation or for want of focus or of a seat, leaves the state as it
    /// is.
    pub open spec fn after(self, step: Step) -> BrokerView {
        match step {
            Step::SeatAdded { seat } => self.with_seat(seat),
            Step::SourceCreated { client } => self.with_source(client),
            Step::DeviceBound { client, seat } => if self.has_seat(seat) {
                self.with_device(client, seat)
            } else {
                self
            },
            Step::Offered { source, mime_type } => if self.has_source(source) {
                self.offered(source, mime_type)
            } else {
                self
            },
            Step::SourceDestroyed { source } => if self.has_source(source) {
                self.without_source(source)
            } else {
                self
            },
            Step::SelectionSet { device, source, has_focus } => if has_focus && self.violation(
                device,
                source,
            ) is None {
                self.with_selection(device, Selection::of(source))
            } else {
                self
            },
            Step::DeviceDestroyed { device } => if self.has_device(device) {
                self.without_device(device)
            } else {
                self
            },
            Step::Disconnected { client } => self.without_client(client),
        }
    }

    /// What `step` has the broker tell, and to whom, in order.
    pub open spec fn told(self, step: Step) -> Seq<Notification> {
        match step {
            Step::SourceDestroyed { source } => if self.has_source(source) {
                self.obituaries(source)
            } else {
                Seq::empty()
            },
            Step::SelectionSet { device, source, has_focus } => if has_focus && self.violation(
                device,
                source,
            ) is None {
                self.announcements(device, Selection::of(source))
            } else {
                Seq::empty()
            },
            Step::Disconnected { client } => self.farewells(client),
            _ => Seq::empty(),
        }
    }

    /// The state that a broker is in after `steps`, made from scratch.
    pub open spec fn reached(steps: Seq<Step>) -> BrokerView
        decreases steps.len(),
    {
        if steps.len() == 0 {
            BrokerView::new()
        } else {
            BrokerView::reached(steps.drop_last()).after(steps.last())
        }
    }
}

} // verus!
