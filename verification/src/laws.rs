//! What holds of the broker whatever its clients do.

use vstd::prelude::*;

use crate::device::{Departure, Device, Notification, Offer};
use crate::ids::{ClientId, DeviceId, OfferId, SeatId, SourceId};
use crate::model::{bereaved, farewell, mourn, owned_by, BrokerView, Step};
use crate::seat_data::{announcement, SeatDataView, Selection};
use crate::sequences::{
    lemma_filter_keeps, lemma_filter_origin, lemma_times_absent, lemma_times_flatten,
    lemma_times_once, times,
};
use crate::source::Demise;

verus! {

impl BrokerView {
    /// Whether `source` holds the selection of the seat named `seat`.
    pub open spec fn selected(self, seat: SeatId, source: SourceId) -> bool {
        exists|i: int|
            0 <= i < self.seats.len() && #[trigger] self.seats[i].id == seat
                && self.seats[i].current() == Selection::Owned(source)
    }

    /// The state after each of `types` was offered through `source`, in
    /// order.
    pub open spec fn offered_all(self, source: SourceId, types: Seq<Seq<char>>) -> BrokerView
        decreases types.len(),
    {
        if types.len() == 0 {
            self
        } else {
            self.offered_all(source, types.drop_last()).offered(source, types.last())
        }
    }
}

/// A step leaves the seats their names and their order, and adds one seat at
/// most.
proof fn lemma_step_keeps_seats(state: BrokerView, step: Step)
    requires
        state.distinct_seats(),
    ensures
        state.after(step).distinct_seats(),
{
    let next = state.after(step);
    if next.seats.len() == state.seats.len() {
        assert forall|i: int| 0 <= i < state.seats.len() implies (#[trigger] next.seats[i]).id
            == state.seats[i].id by {}
        assert forall|i: int, j: int| 0 <= i < j < next.seats.len() implies
            #[trigger] next.seats[i].id != #[trigger] next.seats[j].id by {
            assert(state.seats[i].id != state.seats[j].id);
        }
    } else {
        let seat = step->SeatAdded_seat;
        assert(step is SeatAdded && !state.has_seat(seat));
        assert forall|i: int, j: int| 0 <= i < j < next.seats.len() implies
            #[trigger] next.seats[i].id != #[trigger] next.seats[j].id by {
            if j == state.seats.len() {
                assert(state.seats[i].id != seat);
            } else {
                assert(state.seats[i].id != state.seats[j].id);
            }
        }
    }
}

/// Whatever happened before, no two seats share a name.
proof fn lemma_reached_distinct_seats(steps: Seq<Step>)
    ensures
        BrokerView::reached(steps).distinct_seats(),
    decreases steps.len(),
{
    if steps.len() > 0 {
        lemma_reached_distinct_seats(steps.drop_last());
        lemma_step_keeps_seats(BrokerView::reached(steps.drop_last()), steps.last());
    }
}

/// At any time a seat has one selection holder at most: whatever the clients
/// did, in whatever order, two sources never hold the selection of one seat.
pub proof fn law_one_holder(steps: Seq<Step>, seat: SeatId, a: SourceId, b: SourceId)
    requires
        BrokerView::reached(steps).selected(seat, a),
        BrokerView::reached(steps).selected(seat, b),
    ensures
        a == b,
{
    let state = BrokerView::reached(steps);
    lemma_reached_distinct_seats(steps);
    let i = choose|i: int|
        0 <= i < state.seats.len() && #[trigger] state.seats[i].id == seat
            && state.seats[i].current() == Selection::Owned(a);
    let j = choose|j: int|
        0 <= j < state.seats.len() && #[trigger] state.seats[j].id == seat
            && state.seats[j].current() == Selection::Owned(b);
    if i < j {
        assert(state.seats[i].id != state.seats[j].id);
    } else if j < i {
        assert(state.seats[j].id != state.seats[i].id);
    }
}

/// Every step keeps the state well formed, as long as there are names left
/// to give out, and takes one name at most.
pub proof fn law_step_wf(state: BrokerView, step: Step)
    requires
        state.wf(),
        state.next_id < u64::MAX,
    ensures
        state.after(step).wf(),
        state.next_id <= state.after(step).next_id <= state.next_id + 1,
{
    match step {
        Step::SeatAdded { seat } => {
            state.lemma_with_seat_wf(seat);
        },
        Step::SourceCreated { client } => {
            state.lemma_with_source_wf(client);
        },
        Step::DeviceBound { client, seat } => {
            if state.has_seat(seat) {
                state.lemma_with_device_wf(client, seat);
            }
        },
        Step::Offered { source, mime_type } => {
            if state.has_source(source) {
                state.lemma_offered_wf(source, mime_type);
            }
        },
        Step::SourceDestroyed { source } => {
            if state.has_source(source) {
                state.lemma_without_source_wf(source);
            }
        },
        Step::SelectionSet { device, source, has_focus } => {
            if has_focus && state.violation(device, source) is None {
                state.lemma_with_selection_wf(device, Selection::of(source));
            }
        },
        Step::DeviceDestroyed { device } => {
            if state.has_device(device) {
                state.lemma_departed_wf(Departure::Device(device));
            }
        },
        Step::Disconnected { client } => {
            state.lemma_without_client_wf(client);
        },
    }
}

/// Whatever the clients did, in whatever order, the broker is in a well
/// formed state: no selection dangles, and no name stands for two things.
/// The one limit is the supply of names: each step takes one at most.
pub proof fn law_reached_wf(steps: Seq<Step>)
    requires
        steps.len() <= u64::MAX,
    ensures
        BrokerView::reached(steps).wf(),
        BrokerView::reached(steps).next_id <= steps.len(),
    decreases steps.len(),
{
    if steps.len() == 0 {
        BrokerView::lemma_new_wf();
    } else {
        law_reached_wf(steps.drop_last());
        law_step_wf(BrokerView::reached(steps.drop_last()), steps.last());
    }
}

/// A request to set the selection that comes without keyboard focus changes
/// nothing and tells nobody, whatever it names.
pub proof fn law_unfocused_set_is_dropped(
    state: BrokerView,
    device: DeviceId,
    source: Option<SourceId>,
)
    ensures
        state.after(Step::SelectionSet { device, source, has_focus: false }) == state,
        state.told(Step::SelectionSet { device, source, has_focus: false }) == Seq::<
            Notification,
        >::empty(),
{
}

/// When a selection is announced to the devices of a seat, each device is
/// told once, and what it is told is for it.
proof fn lemma_announced_once(data: SeatDataView, selection: Selection, serial: u64, j: int)
    requires
        data.distinct_devices(),
        0 <= j < data.devices.len(),
    ensures
        times(
            data.announcements(selection, serial),
            announcement(selection, serial)(data.devices[j]),
        ) == 1,
        forall|k: int|
            0 <= k < data.devices.len() ==> (#[trigger] data.announcements(
                selection,
                serial,
            )[k]).recipient() == data.devices[k].id,
{
    let notes = data.announcements(selection, serial);
    assert forall|a: int, b: int|
        0 <= a < notes.len() && 0 <= b < notes.len() && a != b implies notes[a] != notes[b] by {
        if a < b {
            assert(data.devices[a].id != data.devices[b].id);
        } else {
            assert(data.devices[b].id != data.devices[a].id);
        }
        assert(notes[a].recipient() == data.devices[a].id);
        assert(notes[b].recipient() == data.devices[b].id);
    }
    lemma_times_once(notes, j);
}

/// Destroying the source that holds a seat's selection leaves the seat
/// without selection and with the devices it had, and has each of these
/// devices told once, and once only, that the selection is cleared.
pub proof fn law_destroyed_holder_is_cleared(
    state: BrokerView,
    source: SourceId,
    seat: SeatId,
    device: Device,
)
    requires
        state.wf(),
        state.selected(seat, source),
        state.seat(seat).devices().contains(device),
    ensures
        state.has_source(source),
        state.after(Step::SourceDestroyed { source }).has_seat(seat),
        state.after(Step::SourceDestroyed { source }).seat(seat).current() == Selection::Empty,
        state.after(Step::SourceDestroyed { source }).seat(seat).devices() == state.seat(
            seat,
        ).devices(),
        state.after(Step::SourceDestroyed { source }).seat(seat).offers() == Seq::<
            Offer,
        >::empty(),
        times(
            state.told(Step::SourceDestroyed { source }),
            Notification::SelectionCleared { device: device.id },
        ) == 1,
        forall|offer: OfferId|
            state.told(Step::SourceDestroyed { source }).contains(
                Notification::SelectionOffer { device: device.id, offer },
            ) == false,
{
    let after = state.after(Step::SourceDestroyed { source });
    let i = choose|i: int|
        0 <= i < state.seats.len() && #[trigger] state.seats[i].id == seat
            && state.seats[i].current() == Selection::Owned(source);
    state.lemma_seat_at(i);
    assert(state.admits(state.seats[i].current()));
    state.lemma_without_source_wf(source);
    assert(after.seats[i].id == seat);
    after.lemma_seat_at(i);
    let j = state.seats[i].devices().lemma_contains_to_index(device);
    let parts = state.seats.map_values(mourn(source));
    let note = Notification::SelectionCleared { device: device.id };
    assert(state.seats[i].state().wf());
    lemma_announced_once(state.seats[i].state(), Selection::Empty, 0, j);
    assert forall|k: int| 0 <= k < parts.len() && k != i implies !(#[trigger] parts[k]).contains(
        note,
    ) by {
        if parts[k].contains(note) {
            let l = parts[k].lemma_contains_to_index(note);
            assert(state.seats[k].devices()[l].id == device.id);
            state.lemma_device_once(i, j, k, l);
        }
    }
    lemma_times_flatten(parts, note, i);
    assert forall|offer: OfferId|
        state.told(Step::SourceDestroyed { source }).contains(
            Notification::SelectionOffer { device: device.id, offer },
        ) == false by {
        let offered = Notification::SelectionOffer { device: device.id, offer };
        assert forall|k: int| 0 <= k < parts.len() implies !(#[trigger] parts[k]).contains(
            offered,
        ) by {
            if parts[k].contains(offered) {
                let l = parts[k].lemma_contains_to_index(offered);
            }
        }
        crate::sequences::lemma_times_flatten_none(parts, offered);
        parts.flatten().to_multiset_ensures();
    }
}

/// Installing a selection has each device of the requester's seat, the
/// requester's own too, told once and once only: of its new offer where a
/// source was named, that the selection is cleared where none was. The
/// offer that a device is told of is good from then on, is for the client
/// of that device alone, and refers to the source that was named.
pub proof fn law_installed_is_announced(
    state: BrokerView,
    device: DeviceId,
    source: Option<SourceId>,
    witness: Device,
)
    requires
        state.wf(),
        state.violation(device, source) is None,
        source is Some ==> state.next_id < u64::MAX,
        state.home(device).devices().contains(witness),
    ensures
        times(
            state.told(Step::SelectionSet { device, source, has_focus: true }),
            announcement(Selection::of(source), state.next_id)(witness),
        ) == 1,
        state.told(Step::SelectionSet { device, source, has_focus: true }).len() == state.home(
            device,
        ).devices().len(),
        source matches Some(named) ==> {
            let after = state.after(Step::SelectionSet { device, source, has_focus: true });
            let id = OfferId { serial: state.next_id, device: witness.id };
            after.has_offer(id) && after.offer(id) == Offer {
                id,
                client: witness.client,
                source: named,
            }
        },
{
    let home = state.home(device);
    let j = home.devices().lemma_contains_to_index(witness);
    let (i, l) = state.lemma_find_device(device);
    state.lemma_device_at(i, l);
    assert(state.seats[i].state().wf());
    lemma_announced_once(home.state(), Selection::of(source), state.next_id, j);
    if let Some(named) = source {
        let after = state.after(Step::SelectionSet { device, source, has_focus: true });
        state.lemma_with_selection_wf(device, Selection::of(source));
        assert(after.seats[i].offers()[j] == Offer {
            id: OfferId { serial: state.next_id, device: witness.id },
            client: witness.client,
            source: named,
        });
        after.lemma_offer_at(i, j);
    }
}

/// One offer of a MIME type adds it to the end of what the source offers,
/// and to nothing else.
proof fn lemma_offered_source(state: BrokerView, source: SourceId, mime_type: Seq<char>)
    requires
        state.distinct_sources(),
        state.has_source(source),
    ensures
        state.offered(source, mime_type).distinct_sources(),
        state.offered(source, mime_type).has_source(source),
        state.offered(source, mime_type).source(source) == state.source(source).offered(mime_type),
{
    let after = state.offered(source, mime_type);
    let at = state.lemma_find_source(source);
    state.lemma_source_at(at);
    assert forall|i: int, j: int| 0 <= i < j < after.sources.len() implies
        #[trigger] after.sources[i].id != #[trigger] after.sources[j].id by {
        assert(state.sources[i].id != state.sources[j].id);
    }
    assert(after.sources[at].id == source);
    after.lemma_source_at(at);
}

/// What a source offers after a run of offers is what it offered before,
/// followed by the MIME types of the run: each of them, in the order of the
/// offers, duplicates included.
pub proof fn law_offers_accumulate(state: BrokerView, source: SourceId, types: Seq<Seq<char>>)
    requires
        state.distinct_sources(),
        state.has_source(source),
    ensures
        state.offered_all(source, types).distinct_sources(),
        state.offered_all(source, types).has_source(source),
        state.offered_all(source, types).source(source).mime_types == state.source(
            source,
        ).mime_types + types,
        state.offered_all(source, types).source(source).client == state.source(source).client,
    decreases types.len(),
{
    if types.len() == 0 {
        assert(state.source(source).mime_types + types == state.source(source).mime_types);
    } else {
        let sooner = state.offered_all(source, types.drop_last());
        law_offers_accumulate(state, source, types.drop_last());
        lemma_offered_source(sooner, source, types.last());
        assert((state.source(source).mime_types + types.drop_last()).push(types.last())
            == state.source(source).mime_types + types);
    }
}

/// A source that was just created offers, after a run of offers, exactly
/// the MIME types of the run, in the order of the offers, duplicates
/// included.
pub proof fn law_offers_are_kept(state: BrokerView, client: ClientId, types: Seq<Seq<char>>)
    requires
        state.wf(),
        state.next_id < u64::MAX,
    ensures
        state.with_source(client).offered_all(state.next_source(), types).source(
            state.next_source(),
        ).mime_types == types,
{
    let fresh = state.with_source(client);
    state.lemma_with_source_wf(client);
    assert(fresh.sources[state.sources.len() as int].id == state.next_source());
    fresh.lemma_source_at(state.sources.len() as int);
    law_offers_accumulate(fresh, state.next_source(), types);
    assert(Seq::<Seq<char>>::empty() + types == types);
}

/// After a disconnect the live sources are those of the other clients, each
/// as it was.
proof fn lemma_disconnect_sources(state: BrokerView, client: ClientId, source: SourceId)
    requires
        state.wf(),
    ensures
        state.without_client(client).has_source(source) <==> state.has_source(source)
            && state.source(source).client != client,
        state.without_client(client).has_source(source) ==> state.without_client(client).source(
            source,
        ) == state.source(source),
{
    let after = state.without_client(client);
    let keep = Demise::Client(client).surviving();
    state.lemma_without_client_wf(client);
    if after.has_source(source) {
        let to = after.lemma_find_source(source);
        let from = lemma_filter_origin(state.sources, keep, to);
        state.lemma_source_at(from);
        after.lemma_source_at(to);
    }
    if state.has_source(source) && state.source(source).client != client {
        let from = state.lemma_find_source(source);
        state.lemma_source_at(from);
        let to = lemma_filter_keeps(state.sources, keep, from);
        assert(after.sources[to].id == source);
    }
}

/// After a disconnect the live devices are those of the other clients, each
/// as it was.
proof fn lemma_disconnect_devices(state: BrokerView, client: ClientId, device: DeviceId)
    requires
        state.wf(),
    ensures
        state.without_client(client).has_device(device) <==> state.has_device(device)
            && state.device(device).client != client,
        state.without_client(client).has_device(device) ==> state.without_client(client).device(
            device,
        ) == state.device(device),
{
    let after = state.without_client(client);
    let departure = Departure::Client(client);
    state.lemma_without_client_wf(client);
    if after.has_device(device) {
        let (i, to) = after.lemma_find_device(device);
        let from = state.seats[i].state().lemma_without_devices(departure, to);
        state.lemma_device_at(i, from);
        after.lemma_device_at(i, to);
    }
    if state.has_device(device) && state.device(device).client != client {
        let (i, from) = state.lemma_find_device(device);
        state.lemma_device_at(i, from);
        let to = state.seats[i].state().lemma_without_keeps(departure, from);
        assert(after.seats[i].state().devices[to].id == device);
        assert(after.seats[i].has_device(device));
    }
}

/// After a disconnect every seat is still registered, and has the selection
/// it had unless a source of the client held it.
proof fn lemma_disconnect_seats(state: BrokerView, client: ClientId, seat: SeatId)
    requires
        state.wf(),
    ensures
        state.without_client(client).has_seat(seat) <==> state.has_seat(seat),
        state.has_seat(seat) ==> state.without_client(client).seat(seat).current() == if bereaved(
            state.seat(seat),
            client,
            state.sources,
        ) {
            Selection::Empty
        } else {
            state.seat(seat).current()
        },
{
    let after = state.without_client(client);
    state.lemma_without_client_wf(client);
    if after.has_seat(seat) {
        let i = after.lemma_find_seat(seat);
        assert(state.seats[i].id == seat);
    }
    if state.has_seat(seat) {
        let i = state.lemma_find_seat(seat);
        assert(after.seats[i].id == seat);
        state.lemma_seat_at(i);
        after.lemma_seat_at(i);
    }
}

/// After a disconnect the good offers are those that were good, belong to
/// another client and refer to a source of another client, each as it was.
proof fn lemma_disconnect_offers(state: BrokerView, client: ClientId, offer: OfferId)
    requires
        state.wf(),
    ensures
        state.without_client(client).has_offer(offer) <==> state.has_offer(offer) && state.offer(
            offer,
        ).client != client && state.source(state.offer(offer).source).client != client,
        state.without_client(client).has_offer(offer) ==> state.without_client(client).offer(offer)
            == state.offer(offer),
{
    let after = state.without_client(client);
    let departure = Departure::Client(client);
    state.lemma_without_client_wf(client);
    if after.has_offer(offer) {
        let (i, to) = after.lemma_find_offer(offer);
        assert(!bereaved(state.seats[i], client, state.sources));
        let from = state.seats[i].state().lemma_without_offers(departure, to);
        state.lemma_offer_at(i, from);
        after.lemma_offer_at(i, to);
        let held = state.seats[i].offers()[from];
        let at = state.lemma_find_source(held.source);
        state.lemma_source_at(at);
        assert(!owned_by(state.sources, held.source, client));
    }
    if state.has_offer(offer) && state.offer(offer).client != client && state.source(
        state.offer(offer).source,
    ).client != client {
        let (i, from) = state.lemma_find_offer(offer);
        state.lemma_offer_at(i, from);
        let held = state.seats[i].offers()[from];
        if owned_by(state.sources, held.source, client) {
            let at = choose|at: int|
                0 <= at < state.sources.len() && #[trigger] state.sources[at].id == held.source
                    && state.sources[at].client == client;
            state.lemma_source_at(at);
        }
        assert(!bereaved(state.seats[i], client, state.sources));
        let to = lemma_filter_keeps(state.seats[i].offers(), departure.staying_offers(), from);
        assert(after.seats[i].state().offers[to].id == offer);
        assert(after.seats[i].has_offer(offer));
    }
}

/// A disconnect destroys exactly what the client owned and leaves
/// everything else as it was. The sources and the devices that are alive
/// after it are those of the other clients, unchanged. Every seat is still
/// registered, and keeps its selection unless a source of the client held
/// it, in which case it has none. The offers that are good after it are
/// those that were good and have neither their device nor their source from
/// the client.
pub proof fn law_disconnect_is_exact(state: BrokerView, client: ClientId)
    requires
        state.wf(),
    ensures
        forall|source: SourceId|
            #![trigger state.after(Step::Disconnected { client }).has_source(source)]
            {
                let after = state.after(Step::Disconnected { client });
                &&& after.has_source(source) <==> state.has_source(source) && state.source(
                    source,
                ).client != client
                &&& after.has_source(source) ==> after.source(source) == state.source(source)
            },
        forall|device: DeviceId|
            #![trigger state.after(Step::Disconnected { client }).has_device(device)]
            {
                let after = state.after(Step::Disconnected { client });
                &&& after.has_device(device) <==> state.has_device(device) && state.device(
                    device,
                ).client != client
                &&& after.has_device(device) ==> after.device(device) == state.device(device)
            },
        forall|seat: SeatId|
            #![trigger state.after(Step::Disconnected { client }).has_seat(seat)]
            {
                let after = state.after(Step::Disconnected { client });
                &&& after.has_seat(seat) <==> state.has_seat(seat)
                &&& state.has_seat(seat) ==> after.seat(seat).current() == if bereaved(
                    state.seat(seat),
                    client,
                    state.sources,
                ) {
                    Selection::Empty
                } else {
                    state.seat(seat).current()
                }
            },
        forall|offer: OfferId|
            #![trigger state.after(Step::Disconnected { client }).has_offer(offer)]
            {
                let after = state.after(Step::Disconnected { client });
                &&& after.has_offer(offer) <==> state.has_offer(offer) && state.offer(offer).client
                    != client && state.source(state.offer(offer).source).client != client
                &&& after.has_offer(offer) ==> after.offer(offer) == state.offer(offer)
            },
{
    assert forall|source: SourceId|
        #![trigger state.after(Step::Disconnected { client }).has_source(source)]
        {
            let after = state.after(Step::Disconnected { client });
            &&& after.has_source(source) <==> state.has_source(source) && state.source(
                source,
            ).client != client
            &&& after.has_source(source) ==> after.source(source) == state.source(source)
        } by {
        lemma_disconnect_sources(state, client, source);
    }
    assert forall|device: DeviceId|
        #![trigger state.after(Step::Disconnected { client }).has_device(device)]
        {
            let after = state.after(Step::Disconnected { client });
            &&& after.has_device(device) <==> state.has_device(device) && state.device(
                device,
            ).client != client
            &&& after.has_device(device) ==> after.device(device) == state.device(device)
        } by {
        lemma_disconnect_devices(state, client, device);
    }
    assert forall|seat: SeatId|
        #![trigger state.after(Step::Disconnected { client }).has_seat(seat)]
        {
            let after = state.after(Step::Disconnected { client });
            &&& after.has_seat(seat) <==> state.has_seat(seat)
            &&& state.has_seat(seat) ==> after.seat(seat).current() == if bereaved(
                state.seat(seat),
                client,
                state.sources,
            ) {
                Selection::Empty
            } else {
                state.seat(seat).current()
            }
        } by {
        lemma_disconnect_seats(state, client, seat);
    }
    assert forall|offer: OfferId|
        #![trigger state.after(Step::Disconnected { client }).has_offer(offer)]
        {
            let after = state.after(Step::Disconnected { client });
            &&& after.has_offer(offer) <==> state.has_offer(offer) && state.offer(offer).client
                != client && state.source(state.offer(offer).source).client != client
            &&& after.has_offer(offer) ==> after.offer(offer) == state.offer(offer)
        } by {
        lemma_disconnect_offers(state, client, offer);
    }
}

/// An offer that is good after a step was good on the same seat before it,
/// or stems from the selection event that the step is.
proof fn lemma_step_offers(state: BrokerView, step: Step, i: int, k: int)
    requires
        0 <= i < state.after(step).seats.len(),
        0 <= k < state.after(step).seats[i].offers().len(),
    ensures
        state.after(step).seats[i].offers()[k].id.serial == state.next_id || (i < state.seats.len()
            && state.seats[i].offers().contains(state.after(step).seats[i].offers()[k])),
{
    let after = state.after(step);
    let offer = after.seats[i].offers()[k];
    if i < state.seats.len() {
        match step {
            Step::SourceDestroyed { source } => {
                assert(state.seats[i].offers()[k] == offer);
            },
            Step::SelectionSet { device, source, has_focus } => {
                if state.seats[i].offers() == after.seats[i].offers() {
                    assert(state.seats[i].offers()[k] == offer);
                }
            },
            Step::DeviceDestroyed { device } => {
                if state.has_device(device) {
                    let from = state.seats[i].state().lemma_without_offers(
                        Departure::Device(device),
                        k,
                    );
                } else {
                    assert(state.seats[i].offers()[k] == offer);
                }
            },
            Step::Disconnected { client } => {
                let from = state.seats[i].state().lemma_without_offers(
                    Departure::Client(client),
                    k,
                );
            },
            _ => {
                assert(state.seats[i].offers()[k] == offer);
            },
        }
    }
}

/// An offer that is stale stays stale through a step, if the selection
/// event that it stems from lies in the past.
proof fn lemma_step_keeps_stale(state: BrokerView, step: Step, offer: OfferId)
    requires
        offer.serial < state.next_id,
        !state.has_offer(offer),
    ensures
        !state.after(step).has_offer(offer),
{
    let after = state.after(step);
    if after.has_offer(offer) {
        let (i, k) = after.lemma_find_offer(offer);
        lemma_step_offers(state, step, i, k);
        let from = state.seats[i].offers().lemma_contains_to_index(after.seats[i].offers()[k]);
        assert(state.seats[i].state().offers[from].id == offer);
        assert(state.seats[i].has_offer(offer));
    }
}

/// An offer that went stale is stale for good. Whatever the clients do
/// after it went stale, the offer is never good again: not when its source
/// comes to hold the selection once more, and not for want of new names.
pub proof fn law_stale_is_forever(past: Seq<Step>, future: Seq<Step>, offer: OfferId)
    requires
        (past + future).len() <= u64::MAX,
        offer.serial < BrokerView::reached(past).next_id,
        !BrokerView::reached(past).has_offer(offer),
    ensures
        !BrokerView::reached(past + future).has_offer(offer),
        offer.serial < BrokerView::reached(past + future).next_id,
    decreases future.len(),
{
    if future.len() == 0 {
        assert(past + future == past);
    } else {
        let sooner = past + future.drop_last();
        assert(past + future == sooner.push(future.last()));
        assert((past + future).drop_last() == sooner);
        law_stale_is_forever(past, future.drop_last(), offer);
        law_reached_wf(sooner);
        law_step_wf(BrokerView::reached(sooner), future.last());
        lemma_step_keeps_stale(BrokerView::reached(sooner), future.last(), offer);
    }
}

/// Every step that changes the selection of a seat makes the offers that
/// were good on that seat stale.
pub proof fn law_replaced_selection_stales_offers(
    state: BrokerView,
    device: DeviceId,
    source: Option<SourceId>,
    offer: Offer,
)
    requires
        state.wf(),
        state.violation(device, source) is None,
        state.home(device).offers().contains(offer),
    ensures
        state.has_offer(offer.id),
        !state.after(Step::SelectionSet { device, source, has_focus: true }).has_offer(offer.id),
{
    let step = Step::SelectionSet { device, source, has_focus: true };
    let after = state.after(step);
    let (i, l) = state.lemma_find_device(device);
    state.lemma_device_at(i, l);
    let k = state.seats[i].offers().lemma_contains_to_index(offer);
    state.lemma_offer_at(i, k);
    if after.has_offer(offer.id) {
        let (m, n) = after.lemma_find_offer(offer.id);
        if m == i {
            assert(after.seats[m].offers()[n].id.serial == state.next_id || source is None);
            assert(state.seats[i].offers()[k].id.serial < state.next_id);
        } else {
            assert(!state.seats[m].has_device(device));
            assert(after.seats[m] == state.seats[m]);
            state.lemma_offer_once(i, k, m, n);
        }
    }
}

/// When a client disconnects while one of its sources holds a seat's
/// selection, each device that stays on that seat is told once, and once
/// only, that the selection is cleared. The devices of the client itself are
/// told nothing: they are gone.
pub proof fn law_bereaved_seat_is_told(
    state: BrokerView,
    client: ClientId,
    source: SourceId,
    seat: SeatId,
    device: Device,
)
    requires
        state.wf(),
        state.selected(seat, source),
        state.source(source).client == client,
        state.seat(seat).devices().contains(device),
    ensures
        state.after(Step::Disconnected { client }).has_seat(seat),
        state.after(Step::Disconnected { client }).seat(seat).current() == Selection::Empty,
        times(
            state.told(Step::Disconnected { client }),
            Notification::SelectionCleared { device: device.id },
        ) == if device.client == client {
            0nat
        } else {
            1nat
        },
{
    let step = Step::Disconnected { client };
    let after = state.after(step);
    let departure = Departure::Client(client);
    let i = choose|i: int|
        0 <= i < state.seats.len() && #[trigger] state.seats[i].id == seat
            && state.seats[i].current() == Selection::Owned(source);
    state.lemma_seat_at(i);
    assert(state.admits(state.seats[i].current()));
    let at = state.lemma_find_source(source);
    state.lemma_source_at(at);
    assert(bereaved(state.seats[i], client, state.sources));
    state.lemma_without_client_wf(client);
    assert(after.seats[i].id == seat);
    after.lemma_seat_at(i);
    let j = state.seats[i].devices().lemma_contains_to_index(device);
    let parts = state.seats.map_values(farewell(client, state.sources));
    let note = Notification::SelectionCleared { device: device.id };
    let left = state.seats[i].state().without(departure);
    assert(state.seats[i].state().wf());
    state.seats[i].state().lemma_without_wf(departure);
    // Elsewhere nobody is told about this device: it is bound to this seat.
    assert forall|k: int| 0 <= k < parts.len() && k != i implies !(#[trigger] parts[k]).contains(
        note,
    ) by {
        if parts[k].contains(note) {
            let l = parts[k].lemma_contains_to_index(note);
            let stayed = state.seats[k].state().without(departure);
            assert(stayed.devices[l].id == device.id);
            let from = state.seats[k].state().lemma_without_devices(departure, l);
            state.lemma_device_once(i, j, k, from);
        }
    }
    lemma_times_flatten(parts, note, i);
    if device.client == client {
        if parts[i].contains(note) {
            let l = parts[i].lemma_contains_to_index(note);
            assert(left.devices[l].id == device.id);
            let from = state.seats[i].state().lemma_without_devices(departure, l);
            state.lemma_device_once(i, j, i, from);
        }
        lemma_times_absent(parts[i], note);
    } else {
        let to = state.seats[i].state().lemma_without_keeps(departure, j);
        lemma_announced_once(left, Selection::Empty, 0, to);
    }
}

} // verus!
