//! The selection broker: the seats, the live sources, and the requests that
//! change them.

use vstd::prelude::*;

use crate::device::{Departure, Device, Notification, Offer};
use crate::error::{ProtocolViolation, StaleOffer, TransferDenied, UnmanagedResource};
use crate::ids::{ClientId, DeviceId, OfferId, SeatId, SourceId};
use crate::model::{
    bereaved, bind, bury, depart, extend, farewell, install, mourn, owned_by, release, BrokerView,
    Step,
};
use crate::seat::{Seat, SeatView};
use crate::seat_data::Selection;
use crate::source::{Demise, Metadata, Source, SourceView};

verus! {

/// What became of a request to set the selection.
#[derive(Debug)]
pub enum SetSelection {
    /// The requester does not hold the keyboard focus. Nothing changed and
    /// nobody is told, the requester least of all: an answer would tell it
    /// who holds the focus.
    Denied,
    /// The selection was installed. Each of these notifications is to be
    /// delivered before the request counts as processed.
    Installed(Vec<Notification>),
}

/// The selection broker.
#[derive(Debug)]
pub struct Broker {
    seats: Vec<Seat>,
    sources: Vec<Source>,
    next_id: u64,
}

impl View for Broker {
    type V = BrokerView;

    closed spec fn view(&self) -> BrokerView {
        BrokerView {
            seats: seat_views(self.seats@),
            sources: source_views(self.sources@),
            next_id: self.next_id,
        }
    }
}

/// The place of the source named `id` among `sources`, if it is there.
fn source_index(sources: &Vec<Source>, id: SourceId) -> (found: Option<usize>)
    ensures
        match found {
            Some(i) => i < sources.len() && sources@[i as int].id == id,
            None => forall|i: int| 0 <= i < sources.len() ==> sources@[i].id != id,
        },
{
    let mut i: usize = 0;
    while i < sources.len()
        invariant
            i <= sources.len(),
            forall|k: int| 0 <= k < i ==> sources@[k].id != id,
        decreases sources.len() - i,
    {
        if sources[i].id == id {
            return Some(i);
        }
        i += 1;
    }
    None
}

/// The views of `sources`, in their order.
pub open spec fn source_views(sources: Seq<Source>) -> Seq<SourceView> {
    sources.map_values(|source: Source| source@)
}

/// The views of `seats`, in their order.
pub open spec fn seat_views(seats: Seq<Seat>) -> Seq<SeatView> {
    seats.map_values(|seat: Seat| seat@)
}

/// Drops the sources that `demise` names.
fn retain_sources(sources: &mut Vec<Source>, demise: Demise)
    ensures
        source_views(final(sources)@) == source_views(old(sources)@).filter(demise.surviving()),
{
    let ghost before = source_views(sources@);
    let ghost mut seen: int = 0;
    let mut i: usize = 0;
    proof {
        assert(before.take(0).filter(demise.surviving()) == Seq::<SourceView>::empty()) by {
            reveal(Seq::filter);
        }
        assert(source_views(sources@) == before.take(0).filter(demise.surviving()) + before.skip(
            0,
        ));
    }
    while i < sources.len()
        invariant
            0 <= seen <= before.len(),
            i == before.take(seen).filter(demise.surviving()).len(),
            source_views(sources@) == before.take(seen).filter(demise.surviving()) + before.skip(
                seen,
            ),
        decreases before.len() - seen,
    {
        let ghost kept = before.take(seen).filter(demise.surviving());
        proof {
            assert(source_views(sources@)[i as int] == before[seen]);
            assert(before.take(seen + 1) == before.take(seen).push(before[seen]));
            before.take(seen).lemma_filter_push(before[seen], demise.surviving());
        }
        if demise.keeps(&sources[i]) {
            proof {
                assert(kept.push(before[seen]) + before.skip(seen + 1) == kept + before.skip(seen));
            }
            i += 1;
        } else {
            let ghost whole = sources@;
            sources.remove(i);
            proof {
                assert(source_views(whole.remove(i as int)) == source_views(whole).remove(
                    i as int,
                ));
                assert((kept + before.skip(seen)).remove(i as int) == kept + before.skip(seen + 1));
            }
        }
        proof {
            seen = seen + 1;
        }
    }
    proof {
        assert(seen == before.len()) by {
            if seen < before.len() {
                assert((before.take(seen).filter(demise.surviving()) + before.skip(seen)).len()
                    > i);
            }
        }
        assert(before.take(before.len() as int) == before);
        assert(before.skip(before.len() as int) == Seq::<SourceView>::empty());
        assert(before.filter(demise.surviving()) + Seq::<SourceView>::empty()
            == before.filter(demise.surviving()));
    }
}

impl Broker {
    /// Whether the broker is in a state that requests can reach. Every
    /// request needs this, and every request keeps it.
    pub open spec fn wf(&self) -> bool {
        self@.wf()
    }

    /// A broker that knows no seat and no source.
    pub fn new() -> (broker: Self)
        ensures
            broker@ == BrokerView::new(),
            broker.wf(),
    {
        let broker = Broker { seats: Vec::new(), sources: Vec::new(), next_id: 0 };
        proof {
            assert(broker@.seats == Seq::<SeatView>::empty());
            assert(broker@.sources == Seq::<SourceView>::empty());
        }
        broker
    }

    /// The place of the seat named `id`, if it is registered.
    fn seat_index(&self, id: SeatId) -> (found: Option<usize>)
        ensures
            match found {
                Some(i) => i < self.seats.len() && self.seats@[i as int]@.id == id,
                None => forall|i: int| 0 <= i < self.seats.len() ==> self.seats@[i]@.id != id,
            },
    {
        let mut i: usize = 0;
        while i < self.seats.len()
            invariant
                i <= self.seats.len(),
                forall|k: int| 0 <= k < i ==> self.seats@[k]@.id != id,
            decreases self.seats.len() - i,
        {
            if self.seats[i].id() == id {
                return Some(i);
            }
            i += 1;
        }
        None
    }

    /// Whether a seat named `seat` is registered.
    pub fn has_seat(&self, seat: SeatId) -> (known: bool)
        ensures
            known == self@.has_seat(seat),
    {
        let found = self.seat_index(seat);
        proof {
            if let Some(i) = found {
                assert(self@.seats[i as int].id == seat);
            }
        }
        found.is_some()
    }

    /// Registers a seat named `seat`, and tells whether it was new. A seat
    /// starts without selection state; the state is made when the first
    /// device is bound.
    pub fn add_seat(&mut self, seat: SeatId) -> (added: bool)
        requires
            old(self).wf(),
        ensures
            final(self).wf(),
            final(self)@ == old(self)@.with_seat(seat),
            final(self)@ == old(self)@.after(Step::SeatAdded { seat }),
            added == !old(self)@.has_seat(seat),
    {
        if self.has_seat(seat) {
            false
        } else {
            self.seats.push(Seat::new(seat));
            proof {
                assert(self@.seats == old(self)@.seats.push(SeatView::new(seat)));
                old(self)@.lemma_with_seat_wf(seat);
            }
            true
        }
    }

    /// How many names the broker can still give out.
    pub fn spare_ids(&self) -> (spare: u64)
        ensures
            spare == u64::MAX - self@.next_id,
    {
        u64::MAX - self.next_id
    }

    /// The seat that the device named `id` is bound to, and the device, if
    /// it is alive.
    fn device_home(&self, id: DeviceId) -> (found: Option<(usize, Device)>)
        ensures
            match found {
                Some((i, device)) => i < self.seats.len() && device.id == id
                    && self@.seats[i as int].devices().contains(device),
                None => forall|i: int|
                    0 <= i < self.seats.len() ==> !(#[trigger] self@.seats[i]).has_device(id),
            },
    {
        let mut i: usize = 0;
        while i < self.seats.len()
            invariant
                i <= self.seats.len(),
                forall|k: int| 0 <= k < i ==> !(#[trigger] self@.seats[k]).has_device(id),
            decreases self.seats.len() - i,
        {
            if let Some(device) = self.seats[i].device(id) {
                return Some((i, device));
            }
            i += 1;
        }
        None
    }

    /// Whether a live source named `source` belongs to `client`.
    fn owns(sources: &Vec<Source>, source: SourceId, client: ClientId) -> (owned: bool)
        requires
            forall|i: int, j: int|
                0 <= i < j < sources.len() ==> #[trigger] sources@[i].id
                    != #[trigger] sources@[j].id,
        ensures
            owned == owned_by(source_views(sources@), source, client),
    {
        match source_index(sources, source) {
            Some(at) => {
                proof {
                    let views = source_views(sources@);
                    assert(views[at as int].id == source);
                    if owned_by(views, source, client) {
                        let i = choose|i: int|
                            0 <= i < views.len() && #[trigger] views[i].id == source
                                && views[i].client == client;
                        if i < at {
                            assert(sources@[i].id != sources@[at as int].id);
                        } else if at < i {
                            assert(sources@[at as int].id != sources@[i].id);
                        }
                    }
                }
                sources[at].client == client
            },
            None => {
                proof {
                    let views = source_views(sources@);
                    if owned_by(views, source, client) {
                        let i = choose|i: int|
                            0 <= i < views.len() && #[trigger] views[i].id == source
                                && views[i].client == client;
                        assert(sources@[i].id != source);
                    }
                }
                false
            },
        }
    }

    /// Creates a source for `client`: alive, offering nothing yet. No seat
    /// is touched and nobody is told.
    pub fn create_source(&mut self, client: ClientId) -> (source: SourceId)
        requires
            old(self).wf(),
            old(self)@.next_id < u64::MAX,
        ensures
            final(self).wf(),
            final(self)@ == old(self)@.with_source(client),
            final(self)@ == old(self)@.after(Step::SourceCreated { client }),
            source == old(self)@.next_source(),
    {
        let source = SourceId(self.next_id);
        self.sources.push(Source::new(source, client));
        self.next_id = self.next_id + 1;
        proof {
            assert(self@.sources == old(self)@.with_source(client).sources);
            old(self)@.lemma_with_source_wf(client);
        }
        source
    }

    /// Binds a device of `client` to the seat named `seat`. If no such seat
    /// is registered, nothing happens and no device is made. Else the seat's
    /// selection state is made if it had none, and the new device joins the
    /// seat's devices. The device is told nothing.
    pub fn get_device(&mut self, client: ClientId, seat: SeatId) -> (device: Option<DeviceId>)
        requires
            old(self).wf(),
            old(self)@.next_id < u64::MAX,
        ensures
            final(self).wf(),
            final(self)@ == old(self)@.after(Step::DeviceBound { client, seat }),
            match device {
                Some(device) => old(self)@.has_seat(seat) && device == old(self)@.next_device()
                    && final(self)@ == old(self)@.with_device(client, seat),
                None => !old(self)@.has_seat(seat) && final(self)@ == old(self)@,
            },
    {
        match self.seat_index(seat) {
            Some(at) => {
                let id = DeviceId(self.next_id);
                let device = Device { id, client, seat };
                self.seats[at].add_device(device);
                self.next_id = self.next_id + 1;
                proof {
                    let before = old(self)@;
                    assert(before.seats[at as int].id == seat);
                    assert forall|i: int| 0 <= i < before.seats.len() implies self@.seats[i]
                        == bind(device)(#[trigger] before.seats[i]) by {
                        if i < at {
                            assert(before.seats[i].id != before.seats[at as int].id);
                        } else if at < i {
                            assert(before.seats[at as int].id != before.seats[i].id);
                        }
                    }
                    assert(self@.seats == before.with_device(client, seat).seats);
                    before.lemma_with_device_wf(client, seat);
                }
                Some(id)
            },
            None => {
                proof {
                    if self@.has_seat(seat) {
                        let i = self@.lemma_find_seat(seat);
                        assert(self.seats@[i]@.id != seat);
                    }
                }
                None
            },
        }
    }

    /// Appends `mime_type` to what the source named `source` offers.
    /// Duplicates are kept. Valid at any point of the source's life: offers
    /// that refer to the source read through to the new list.
    pub fn offer(&mut self, source: SourceId, mime_type: String) -> (done: Result<
        (),
        ProtocolViolation,
    >)
        requires
            old(self).wf(),
        ensures
            final(self).wf(),
            final(self)@ == old(self)@.after(Step::Offered { source, mime_type: mime_type@ }),
            match done {
                Ok(()) => old(self)@.has_source(source) && final(self)@ == old(self)@.offered(
                    source,
                    mime_type@,
                ),
                Err(violation) => violation == ProtocolViolation::DeadSource && !old(
                    self,
                )@.has_source(source) && final(self)@ == old(self)@,
            },
    {
        match source_index(&self.sources, source) {
            Some(at) => {
                let ghost offered = mime_type@;
                self.sources[at].metadata.offer(mime_type);
                proof {
                    let before = old(self)@;
                    assert(before.sources[at as int].id == source);
                    assert forall|i: int| 0 <= i < before.sources.len() implies self@.sources[i]
                        == extend(source, offered)(#[trigger] before.sources[i]) by {
                        if i < at {
                            assert(before.sources[i].id != before.sources[at as int].id);
                        } else if at < i {
                            assert(before.sources[at as int].id != before.sources[i].id);
                        }
                    }
                    assert(self@.sources == before.offered(source, offered).sources);
                    before.lemma_offered_wf(source, offered);
                }
                Ok(())
            },
            None => {
                proof {
                    if self@.has_source(source) {
                        let i = self@.lemma_find_source(source);
                        assert(self.sources@[i].id != source);
                    }
                }
                Err(ProtocolViolation::DeadSource)
            },
        }
    }

    /// Destroys the source named `source`. Every seat whose selection it
    /// held is left without selection, in the same step, and each device of
    /// such a seat is to be told once that the selection is cleared. Seats
    /// whose selection it did not hold are not touched.
    ///
    /// A source dies once: a second destroy is a protocol violation.
    pub fn destroy_source(&mut self, source: SourceId) -> (done: Result<
        Vec<Notification>,
        ProtocolViolation,
    >)
        requires
            old(self).wf(),
        ensures
            final(self).wf(),
            final(self)@ == old(self)@.after(Step::SourceDestroyed { source }),
            done matches Ok(notifications) ==> notifications@ == old(self)@.told(
                Step::SourceDestroyed { source },
            ),
            match done {
                Ok(notifications) => old(self)@.has_source(source) && final(self)@ == old(
                    self,
                )@.without_source(source) && notifications@ == old(self)@.obituaries(source),
                Err(violation) => violation == ProtocolViolation::DeadSource && !old(
                    self,
                )@.has_source(source) && final(self)@ == old(self)@,
            },
    {
        let ghost found: int;
        match source_index(&self.sources, source) {
            Some(at) => {
                proof {
                    found = at as int;
                }
            },
            None => {
                proof {
                    if self@.has_source(source) {
                        let i = self@.lemma_find_source(source);
                        assert(self.sources@[i].id != source);
                    }
                }
                return Err(ProtocolViolation::DeadSource);
            },
        }
        let ghost before = self@;
        let mut notifications: Vec<Notification> = Vec::new();
        let mut i: usize = 0;
        proof {
            assert(before.seats.take(0).map_values(mourn(source)) == Seq::<
                Seq<Notification>,
            >::empty());
        }
        while i < self.seats.len()
            invariant
                i <= self.seats.len(),
                self.seats.len() == before.seats.len(),
                self.sources == old(self).sources,
                self.next_id == old(self).next_id,
                forall|k: int|
                    0 <= k < i ==> (#[trigger] self.seats@[k])@ == bury(source)(before.seats[k]),
                forall|k: int|
                    i <= k < before.seats.len() ==> (#[trigger] self.seats@[k])@
                        == before.seats[k],
                notifications@ == before.seats.take(i as int).map_values(mourn(source)).flatten(),
            decreases self.seats.len() - i,
        {
            let mut told = self.seats[i].source_destroyed(source);
            proof {
                let told_so_far = before.seats.take(i as int).map_values(mourn(source));
                assert(before.seats.take(i + 1).map_values(mourn(source)) == told_so_far.push(
                    told@,
                ));
                told_so_far.lemma_flatten_push(told@);
            }
            notifications.append(&mut told);
            i += 1;
        }
        retain_sources(&mut self.sources, Demise::Source(source));
        proof {
            assert(before.seats.take(before.seats.len() as int) == before.seats);
            assert(self@.seats == before.without_source(source).seats);
            assert(before.sources[found].id == source);
            before.lemma_without_source_wf(source);
        }
        Ok(notifications)
    }

    /// Drops from every seat the devices that `departure` names, and their
    /// offers.
    fn retain_devices(&mut self, departure: Departure)
        requires
            old(self).wf(),
        ensures
            final(self).wf(),
            final(self)@ == old(self)@.departed(departure),
    {
        let ghost before = self@;
        let mut i: usize = 0;
        while i < self.seats.len()
            invariant
                i <= self.seats.len(),
                self.seats.len() == before.seats.len(),
                self.sources == old(self).sources,
                self.next_id == old(self).next_id,
                forall|k: int|
                    0 <= k < i ==> (#[trigger] self.seats@[k])@ == depart(departure)(
                        before.seats[k],
                    ),
                forall|k: int|
                    i <= k < before.seats.len() ==> (#[trigger] self.seats@[k])@
                        == before.seats[k],
            decreases self.seats.len() - i,
        {
            self.seats[i].retain_devices(departure);
            i += 1;
        }
        proof {
            assert(self@.seats == before.departed(departure).seats);
            before.lemma_departed_wf(departure);
        }
    }

    /// Destroys the device named `device`: it leaves its seat, and the offer
    /// it held goes with it. Nobody is told.
    pub fn destroy_device(&mut self, device: DeviceId) -> (done: Result<(), ProtocolViolation>)
        requires
            old(self).wf(),
        ensures
            final(self).wf(),
            final(self)@ == old(self)@.after(Step::DeviceDestroyed { device }),
            match done {
                Ok(()) => old(self)@.has_device(device) && final(self)@ == old(
                    self,
                )@.without_device(device),
                Err(violation) => violation == ProtocolViolation::DeadDevice && !old(
                    self,
                )@.has_device(device) && final(self)@ == old(self)@,
            },
    {
        match self.device_home(device) {
            Some((at, found)) => {
                proof {
                    self@.seats[at as int].devices().lemma_contains_to_index(found);
                    assert(self@.seats[at as int].has_device(device));
                }
                self.retain_devices(Departure::Device(device));
                Ok(())
            },
            None => Err(ProtocolViolation::DeadDevice),
        }
    }

    /// Handles a request, made through the device named `device`, to set its
    /// seat's selection to `source`, or to clear it where `source` is
    /// `None`. `has_focus` is the focus collaborator's answer to whether the
    /// device's client holds the keyboard focus on that seat right now.
    ///
    /// A request that names a dead device, a dead source or a source of
    /// another client is a protocol violation, whoever holds the focus. Else,
    /// without focus the request is denied and nothing changes. With focus the
    /// selection is replaced in full: the source that held it, if any, is
    /// not destroyed and merely stops being current, every earlier offer of the seat goes
    /// stale, and each device of the seat, the requester's own too, is to be
    /// told once.
    pub fn set_selection(
        &mut self,
        device: DeviceId,
        source: Option<SourceId>,
        has_focus: bool,
    ) -> (done: Result<SetSelection, ProtocolViolation>)
        requires
            old(self).wf(),
            has_focus && source is Some ==> old(self)@.next_id < u64::MAX,
        ensures
            final(self).wf(),
            final(self)@ == old(self)@.after(Step::SelectionSet { device, source, has_focus }),
            done matches Ok(SetSelection::Installed(notifications)) ==> notifications@ == old(
                self,
            )@.told(Step::SelectionSet { device, source, has_focus }),
            !has_focus ==> final(self)@ == old(self)@,
            match done {
                Ok(SetSelection::Installed(notifications)) => {
                    &&& old(self)@.violation(device, source) is None
                    &&& has_focus
                    &&& final(self)@ == old(self)@.with_selection(device, Selection::of(source))
                    &&& notifications@ == old(self)@.announcements(device, Selection::of(source))
                },
                Ok(SetSelection::Denied) => {
                    &&& old(self)@.violation(device, source) is None
                    &&& !has_focus
                    &&& final(self)@ == old(self)@
                },
                Err(violation) => {
                    &&& old(self)@.violation(device, source) == Some(violation)
                    &&& final(self)@ == old(self)@
                },
            },
    {
        let (at, requester) = match self.device_home(device) {
            Some(found) => found,
            None => {
                proof {
                    if self@.has_device(device) {
                        let place = self@.lemma_find_device(device);
                    }
                }
                return Err(ProtocolViolation::DeadDevice);
            },
        };
        proof {
            let j = self@.seats[at as int].devices().lemma_contains_to_index(requester);
            self@.lemma_device_at(at as int, j);
        }
        if let Some(named) = source {
            match source_index(&self.sources, named) {
                Some(w) => {
                    proof {
                        assert(self@.sources[w as int].id == named);
                        self@.lemma_source_at(w as int);
                    }
                    if self.sources[w].client != requester.client {
                        return Err(ProtocolViolation::ForeignSource);
                    }
                },
                None => {
                    proof {
                        if self@.has_source(named) {
                            let i = self@.lemma_find_source(named);
                            assert(self.sources@[i].id != named);
                        }
                    }
                    return Err(ProtocolViolation::DeadSource);
                },
            }
        }
        if !has_focus {
            return Ok(SetSelection::Denied);
        }
        let selection = Selection::from_source(source);
        let serial = self.next_id;
        let notifications = self.seats[at].set_selection(selection, serial);
        if source.is_some() {
            self.next_id = self.next_id + 1;
        }
        proof {
            let before = old(self)@;
            assert forall|i: int| 0 <= i < before.seats.len() implies self@.seats[i] == install(
                device,
                selection,
                serial,
            )(#[trigger] before.seats[i]) by {
                if i != at {
                    assert(!before.seats[i].has_device(device));
                }
            }
            assert(self@.seats == before.with_selection(device, selection).seats);
            before.lemma_with_selection_wf(device, selection);
        }
        Ok(SetSelection::Installed(notifications))
    }

    /// Takes note that `client` disconnected: each of its devices and each
    /// of its sources is destroyed as if the client had asked for it. The
    /// devices go first, so that what is told goes to devices that can
    /// still hear it: on every seat whose selection one of the client's
    /// sources held, the selection is cleared and each device that stays is
    /// to be told once. What belongs to other clients is not touched.
    pub fn disconnect(&mut self, client: ClientId) -> (notifications: Vec<Notification>)
        requires
            old(self).wf(),
        ensures
            final(self).wf(),
            final(self)@ == old(self)@.without_client(client),
            final(self)@ == old(self)@.after(Step::Disconnected { client }),
            notifications@ == old(self)@.farewells(client),
            notifications@ == old(self)@.told(Step::Disconnected { client }),
    {
        let ghost before = self@;
        let mut notifications: Vec<Notification> = Vec::new();
        let mut i: usize = 0;
        proof {
            assert(before.seats.take(0).map_values(farewell(client, before.sources)) == Seq::<
                Seq<Notification>,
            >::empty());
            assert forall|a: int, b: int| 0 <= a < b < self.sources.len() implies
                #[trigger] self.sources@[a].id != #[trigger] self.sources@[b].id by {
                assert(before.sources[a].id != before.sources[b].id);
            }
        }
        while i < self.seats.len()
            invariant
                i <= self.seats.len(),
                self.seats.len() == before.seats.len(),
                self.sources == old(self).sources,
                before.sources == source_views(self.sources@),
                self.next_id == old(self).next_id,
                forall|a: int, b: int|
                    0 <= a < b < self.sources.len() ==> #[trigger] self.sources@[a].id
                        != #[trigger] self.sources@[b].id,
                forall|k: int|
                    0 <= k < i ==> (#[trigger] self.seats@[k])@ == release(client, before.sources)(
                        before.seats[k],
                    ),
                forall|k: int|
                    i <= k < before.seats.len() ==> (#[trigger] self.seats@[k])@
                        == before.seats[k],
                notifications@ == before.seats.take(i as int).map_values(
                    farewell(client, before.sources),
                ).flatten(),
            decreases self.seats.len() - i,
        {
            let bereft = match self.seats[i].current().source() {
                Some(holder) => Self::owns(&self.sources, holder, client),
                None => false,
            };
            assert(bereft == bereaved(before.seats[i as int], client, before.sources));
            self.seats[i].retain_devices(Departure::Client(client));
            let mut told = if bereft {
                self.seats[i].set_selection(Selection::Empty, 0)
            } else {
                Vec::new()
            };
            proof {
                let told_so_far = before.seats.take(i as int).map_values(
                    farewell(client, before.sources),
                );
                assert(told@ == farewell(client, before.sources)(before.seats[i as int]));
                assert(before.seats.take(i + 1).map_values(farewell(client, before.sources))
                    == told_so_far.push(told@));
                told_so_far.lemma_flatten_push(told@);
            }
            notifications.append(&mut told);
            i += 1;
        }
        retain_sources(&mut self.sources, Demise::Client(client));
        proof {
            assert(before.seats.take(before.seats.len() as int) == before.seats);
            assert(self@.seats == before.without_client(client).seats);
            before.lemma_without_client_wf(client);
        }
        notifications
    }

    /// The selection of the seat named `seat`, if such a seat is registered.
    /// A seat that was never used has none.
    pub fn selection(&self, seat: SeatId) -> (current: Option<Selection>)
        requires
            self.wf(),
        ensures
            match current {
                Some(current) => self@.has_seat(seat) && current == self@.seat(seat).current(),
                None => !self@.has_seat(seat),
            },
    {
        match self.seat_index(seat) {
            Some(at) => {
                proof {
                    self@.lemma_seat_at(at as int);
                }
                Some(self.seats[at].current())
            },
            None => {
                proof {
                    if self@.has_seat(seat) {
                        let i = self@.lemma_find_seat(seat);
                        assert(self.seats@[i]@.id != seat);
                    }
                }
                None
            },
        }
    }

    /// The live devices bound to the seat named `seat`, oldest first, if
    /// such a seat is registered.
    pub fn devices(&self, seat: SeatId) -> (devices: Option<Vec<Device>>)
        requires
            self.wf(),
        ensures
            match devices {
                Some(devices) => self@.has_seat(seat) && devices@ == self@.seat(seat).devices(),
                None => !self@.has_seat(seat),
            },
    {
        match self.seat_index(seat) {
            Some(at) => {
                proof {
                    self@.lemma_seat_at(at as int);
                }
                let mut devices: Vec<Device> = Vec::new();
                if let Some(data) = self.seats[at].data() {
                    let bound = data.devices();
                    let mut j: usize = 0;
                    while j < bound.len()
                        invariant
                            j <= bound.len(),
                            devices@ == bound@.take(j as int),
                        decreases bound.len() - j,
                    {
                        devices.push(bound[j]);
                        j += 1;
                    }
                    proof {
                        assert(bound@.take(bound@.len() as int) == bound@);
                    }
                }
                Some(devices)
            },
            None => {
                proof {
                    if self@.has_seat(seat) {
                        let i = self@.lemma_find_seat(seat);
                        assert(self.seats@[i]@.id != seat);
                    }
                }
                None
            },
        }
    }

    /// The device named `device`, if it is alive.
    pub fn device(&self, device: DeviceId) -> (found: Option<Device>)
        requires
            self.wf(),
        ensures
            match found {
                Some(found) => self@.has_device(device) && found == self@.device(device),
                None => !self@.has_device(device),
            },
    {
        match self.device_home(device) {
            Some((at, found)) => {
                proof {
                    let j = self@.seats[at as int].devices().lemma_contains_to_index(found);
                    self@.lemma_device_at(at as int, j);
                }
                Some(found)
            },
            None => None,
        }
    }

    /// The source named `source`, if it is alive.
    pub fn source(&self, source: SourceId) -> (found: Option<&Source>)
        requires
            self.wf(),
        ensures
            match found {
                Some(found) => self@.has_source(source) && found@ == self@.source(source),
                None => !self@.has_source(source),
            },
    {
        match source_index(&self.sources, source) {
            Some(at) => {
                proof {
                    assert(self@.sources[at as int].id == source);
                    self@.lemma_source_at(at as int);
                }
                Some(&self.sources[at])
            },
            None => {
                proof {
                    if self@.has_source(source) {
                        let i = self@.lemma_find_source(source);
                        assert(self.sources@[i].id != source);
                    }
                }
                None
            },
        }
    }

    /// Whether the source named `source` is alive: created, and not
    /// destroyed since, neither on request nor with its client.
    pub fn alive(&self, source: SourceId) -> (alive: bool)
        requires
            self.wf(),
        ensures
            alive == self@.has_source(source),
    {
        self.source(source).is_some()
    }

    /// The offer named `offer`, if it is still good.
    pub fn good_offer(&self, offer: OfferId) -> (found: Option<Offer>)
        requires
            self.wf(),
        ensures
            match found {
                Some(found) => self@.has_offer(offer) && found == self@.offer(offer)
                    && self@.has_source(found.source),
                None => !self@.has_offer(offer),
            },
    {
        let mut i: usize = 0;
        while i < self.seats.len()
            invariant
                i <= self.seats.len(),
                self.wf(),
                forall|k: int| 0 <= k < i ==> !(#[trigger] self@.seats[k]).has_offer(offer),
            decreases self.seats.len() - i,
        {
            if let Some(found) = self.seats[i].offer(offer) {
                proof {
                    let k = self@.seats[i as int].offers().lemma_contains_to_index(found);
                    self@.lemma_offer_at(i as int, k);
                }
                return Some(found);
            }
            i += 1;
        }
        None
    }

    /// What the source behind the offer named `offer` offers right now. The
    /// metadata is read through, not remembered: MIME types that were
    /// offered after the offer was handed out are seen. A stale offer is
    /// refused.
    pub fn offer_metadata(&self, offer: OfferId) -> (metadata: Result<&Metadata, StaleOffer>)
        requires
            self.wf(),
        ensures
            match metadata {
                Ok(metadata) => self@.has_offer(offer) && metadata@ == self@.source(
                    self@.offer(offer).source,
                ).mime_types,
                Err(_) => !self@.has_offer(offer),
            },
    {
        match self.good_offer(offer) {
            Some(found) => {
                match self.source(found.source) {
                    Some(source) => Ok(&source.metadata),
                    None => Err(StaleOffer),
                }
            },
            None => Err(StaleOffer),
        }
    }

    /// Says whether the client that holds the offer named `offer` may pull
    /// data of `mime_type` through it, and from which source. The pair of
    /// offer and source is authorized while the offer is good and the
    /// source advertises the type; the transfer itself is not the broker's
    /// business.
    pub fn authorize_transfer(&self, offer: OfferId, mime_type: &String) -> (source: Result<
        SourceId,
        TransferDenied,
    >)
        requires
            self.wf(),
        ensures
            match source {
                Ok(source) => self@.has_offer(offer) && source == self@.offer(offer).source
                    && self@.has_source(source) && self@.source(source).mime_types.contains(
                    mime_type@,
                ),
                Err(TransferDenied::StaleOffer) => !self@.has_offer(offer),
                Err(TransferDenied::NotOffered) => self@.has_offer(offer) && !self@.source(
                    self@.offer(offer).source,
                ).mime_types.contains(mime_type@),
            },
    {
        match self.good_offer(offer) {
            Some(found) => match self.source(found.source) {
                Some(source) => if source.metadata.offers(mime_type) {
                    Ok(found.source)
                } else {
                    Err(TransferDenied::NotOffered)
                },
                None => Err(TransferDenied::StaleOffer),
            },
            None => Err(TransferDenied::StaleOffer),
        }
    }
}

/// Access the metadata of a data source
///
/// Calls `f` on what the source named `source` offers right now. Fails with
/// `UnmanagedResource`, and does not call `f`, if the name stands for no
/// source data: the source is dead, or never was.
pub fn with_source_metadata<T, F: FnOnce(&Metadata) -> T>(
    broker: &Broker,
    source: SourceId,
    f: F,
) -> (outcome: Result<T, UnmanagedResource>)
    requires
        broker.wf(),
        forall|metadata: &Metadata|
            broker@.has_source(source) && metadata@ == broker@.source(source).mime_types
                ==> f.requires((metadata,)),
    ensures
        match outcome {
            Ok(value) => broker@.has_source(source) && exists|metadata: &Metadata|
                metadata@ == broker@.source(source).mime_types && f.ensures((metadata,), value),
            Err(_) => !broker@.has_source(source),
        },
{
    match broker.source(source) {
        Some(data) => Ok(f(&data.metadata)),
        None => Err(UnmanagedResource),
    }
}

} // verus!
