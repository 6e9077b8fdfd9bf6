//! Why every state that requests can reach is well formed: each request
//! keeps what `BrokerView::wf` states.

use vstd::prelude::*;

use crate::device::{Departure, Device};
use crate::ids::{ClientId, DeviceId, OfferId, SeatId, SourceId};
use crate::model::{bereaved, BrokerView};
use crate::seat::SeatView;
use crate::seat_data::Selection;
use crate::sequences::{
    lemma_filter_keeps, lemma_filter_origin, lemma_filter_pairwise, pairwise,
};
use crate::source::{Demise, SourceView};

verus! {

/// Two sources with different names.
pub open spec fn other_source() -> spec_fn(SourceView, SourceView) -> bool {
    |a: SourceView, b: SourceView| a.id != b.id
}

/// Filtering sources whose names differ leaves sources whose names differ.
pub(crate) proof fn lemma_filter_distinct_sources(
    sources: Seq<SourceView>,
    keep: spec_fn(SourceView) -> bool,
)
    requires
        forall|i: int, j: int|
            0 <= i < j < sources.len() ==> #[trigger] sources[i].id != #[trigger] sources[j].id,
    ensures
        forall|i: int, j: int|
            0 <= i < j < sources.filter(keep).len() ==> #[trigger] sources.filter(keep)[i].id
                != #[trigger] sources.filter(keep)[j].id,
{
    let kept = sources.filter(keep);
    assert(pairwise(sources, other_source()));
    lemma_filter_pairwise(sources, keep, other_source());
    assert forall|i: int, j: int| 0 <= i < j < kept.len() implies #[trigger] kept[i].id
        != #[trigger] kept[j].id by {
        assert(other_source()(kept[i], kept[j]));
    }
}

impl BrokerView {
    /// A broker that knows nothing is well formed.
    pub(crate) proof fn lemma_new_wf()
        ensures
            BrokerView::new().wf(),
    {
    }

    /// Registering a seat keeps the state well formed.
    pub(crate) proof fn lemma_with_seat_wf(self, seat: SeatId)
        requires
            self.wf(),
        ensures
            self.with_seat(seat).wf(),
    {
        let after = self.with_seat(seat);
        if !self.has_seat(seat) {
            assert forall|i: int, j: int| 0 <= i < j < after.seats.len() implies
                #[trigger] after.seats[i].id != #[trigger] after.seats[j].id by {
                if j == self.seats.len() {
                    assert(self.seats[i].id != seat);
                } else {
                    assert(self.seats[i].id != self.seats[j].id);
                }
            }
            assert forall|i: int| 0 <= i < after.seats.len() implies after.admits(
                #[trigger] after.seats[i].current(),
            ) by {
                if i < self.seats.len() {
                    assert(after.seats[i] == self.seats[i]);
                    assert(self.admits(self.seats[i].current()));
                    if let Selection::Owned(source) = self.seats[i].current() {
                        let w = self.lemma_find_source(source);
                        assert(after.sources[w].id == source);
                    }
                } else {
                    assert(after.seats[i] == SeatView::new(seat));
                    assert(after.seats[i].current() == Selection::Empty);
                }
            }
        }
    }

    /// Where the seat named `seat` is registered.
    pub proof fn lemma_find_seat(self, seat: SeatId) -> (i: int)
        requires
            self.has_seat(seat),
        ensures
            0 <= i < self.seats.len(),
            self.seats[i].id == seat,
    {
        choose|i: int| 0 <= i < self.seats.len() && #[trigger] self.seats[i].id == seat
    }

    /// Where the live source named `source` is kept.
    pub proof fn lemma_find_source(self, source: SourceId) -> (i: int)
        requires
            self.has_source(source),
        ensures
            0 <= i < self.sources.len(),
            self.sources[i].id == source,
    {
        choose|i: int| 0 <= i < self.sources.len() && #[trigger] self.sources[i].id == source
    }

    /// Where the live device named `device` is bound: the place of its
    /// seat, and its place on that seat.
    pub proof fn lemma_find_device(self, device: DeviceId) -> (place: (int, int))
        requires
            self.has_device(device),
        ensures
            0 <= place.0 < self.seats.len(),
            0 <= place.1 < self.seats[place.0].devices().len(),
            self.seats[place.0].devices()[place.1].id == device,
            self.seats[place.0].has_device(device),
    {
        let i = choose|i: int|
            0 <= i < self.seats.len() && #[trigger] self.seats[i].has_device(device);
        (i, self.seats[i].state().lemma_find_device(device))
    }

    /// Where the good offer named `offer` is held: the place of its seat,
    /// and its place on that seat.
    pub proof fn lemma_find_offer(self, offer: OfferId) -> (place: (int, int))
        requires
            self.has_offer(offer),
        ensures
            0 <= place.0 < self.seats.len(),
            0 <= place.1 < self.seats[place.0].offers().len(),
            self.seats[place.0].offers()[place.1].id == offer,
            self.seats[place.0].has_offer(offer),
    {
        let i = choose|i: int|
            0 <= i < self.seats.len() && #[trigger] self.seats[i].has_offer(offer);
        (i, self.seats[i].state().lemma_find_offer(offer))
    }

    /// The source at place `i` is alive, and it is the one its name stands
    /// for.
    pub proof fn lemma_source_at(self, i: int)
        requires
            self.distinct_sources(),
            0 <= i < self.sources.len(),
        ensures
            self.has_source(self.sources[i].id),
            self.source(self.sources[i].id) == self.sources[i],
    {
        let id = self.sources[i].id;
        assert(self.sources[i].id == id);
        let at = self.lemma_find_source(id);
        if at < i {
            assert(self.sources[at].id != self.sources[i].id);
        } else if i < at {
            assert(self.sources[i].id != self.sources[at].id);
        }
    }

    /// The seat at place `i` is registered, and it is the one its name
    /// stands for.
    pub proof fn lemma_seat_at(self, i: int)
        requires
            self.distinct_seats(),
            0 <= i < self.seats.len(),
        ensures
            self.has_seat(self.seats[i].id),
            self.seat(self.seats[i].id) == self.seats[i],
    {
        let id = self.seats[i].id;
        assert(self.seats[i].id == id);
        let at = self.lemma_find_seat(id);
        if at < i {
            assert(self.seats[at].id != self.seats[i].id);
        } else if i < at {
            assert(self.seats[i].id != self.seats[at].id);
        }
    }

    /// A device is bound to one seat only, and under one entry only.
    pub proof fn lemma_device_once(self, i: int, j: int, k: int, l: int)
        requires
            self.wf(),
            0 <= i < self.seats.len(),
            0 <= j < self.seats[i].devices().len(),
            0 <= k < self.seats.len(),
            0 <= l < self.seats[k].devices().len(),
            self.seats[i].devices()[j].id == self.seats[k].devices()[l].id,
        ensures
            i == k,
            j == l,
    {
        if i < k {
            assert(self.seats[i].devices()[j].id != self.seats[k].devices()[l].id);
        } else if k < i {
            assert(self.seats[k].devices()[l].id != self.seats[i].devices()[j].id);
        } else {
            assert(self.seats[i].state().wf());
            if j < l {
                assert(self.seats[i].state().devices[j].id != self.seats[i].state().devices[l].id);
            } else if l < j {
                assert(self.seats[i].state().devices[l].id != self.seats[i].state().devices[j].id);
            }
        }
    }

    /// The device at place `j` of the seat at place `i` is alive, it is the
    /// one its name stands for, and that seat is its home.
    pub proof fn lemma_device_at(self, i: int, j: int)
        requires
            self.wf(),
            0 <= i < self.seats.len(),
            0 <= j < self.seats[i].devices().len(),
        ensures
            self.has_device(self.seats[i].devices()[j].id),
            self.binds(self.seats[i].devices()[j]),
            self.device(self.seats[i].devices()[j].id) == self.seats[i].devices()[j],
            self.home(self.seats[i].devices()[j].id) == self.seats[i],
            forall|k: int|
                0 <= k < self.seats.len() && k != i ==> !(#[trigger] self.seats[k]).has_device(
                    self.seats[i].devices()[j].id,
                ),
    {
        let device = self.seats[i].devices()[j];
        assert(self.seats[i].state().devices[j].id == device.id);
        assert(self.seats[i].has_device(device.id));
        assert(self.seats[i].devices().contains(device));
        assert(self.binds(device));
        let found = self.device(device.id);
        assert(self.binds(found) && found.id == device.id);
        let k = choose|k: int|
            0 <= k < self.seats.len() && #[trigger] self.seats[k].devices().contains(found);
        let l = self.seats[k].devices().lemma_contains_to_index(found);
        self.lemma_device_once(i, j, k, l);
        assert(device.seat == self.seats[i].id);
        self.lemma_seat_at(i);
        assert forall|k: int| 0 <= k < self.seats.len() && k != i implies !(
        #[trigger] self.seats[k]).has_device(device.id) by {
            if self.seats[k].has_device(device.id) {
                let l = self.seats[k].state().lemma_find_device(device.id);
                self.lemma_device_once(i, j, k, l);
            }
        }
    }

    /// An offer is good on one seat only, and under one entry only.
    pub proof fn lemma_offer_once(self, i: int, j: int, k: int, l: int)
        requires
            self.wf(),
            0 <= i < self.seats.len(),
            0 <= j < self.seats[i].offers().len(),
            0 <= k < self.seats.len(),
            0 <= l < self.seats[k].offers().len(),
            self.seats[i].offers()[j].id == self.seats[k].offers()[l].id,
        ensures
            i == k,
            j == l,
    {
        if i < k {
            assert(self.seats[i].offers()[j].id.serial != self.seats[k].offers()[l].id.serial);
        } else if k < i {
            assert(self.seats[k].offers()[l].id.serial != self.seats[i].offers()[j].id.serial);
        } else {
            assert(self.seats[i].state().wf());
            if j < l {
                assert(self.seats[i].state().offers[j].id.device
                    != self.seats[i].state().offers[l].id.device);
            } else if l < j {
                assert(self.seats[i].state().offers[l].id.device
                    != self.seats[i].state().offers[j].id.device);
            }
        }
    }

    /// The offer at place `k` of the seat at place `i` is good, it is the
    /// one its name stands for, and its source is alive and holds that
    /// seat's selection.
    pub proof fn lemma_offer_at(self, i: int, k: int)
        requires
            self.wf(),
            0 <= i < self.seats.len(),
            0 <= k < self.seats[i].offers().len(),
        ensures
            self.has_offer(self.seats[i].offers()[k].id),
            self.holds(self.seats[i].offers()[k]),
            self.offer(self.seats[i].offers()[k].id) == self.seats[i].offers()[k],
            self.seats[i].current() == Selection::Owned(self.seats[i].offers()[k].source),
            self.has_source(self.seats[i].offers()[k].source),
    {
        let offer = self.seats[i].offers()[k];
        assert(self.seats[i].state().offers[k].id == offer.id);
        assert(self.seats[i].has_offer(offer.id));
        assert(self.seats[i].offers().contains(offer));
        assert(self.holds(offer));
        let found = self.offer(offer.id);
        assert(self.holds(found) && found.id == offer.id);
        let m = choose|m: int|
            0 <= m < self.seats.len() && #[trigger] self.seats[m].offers().contains(found);
        let l = self.seats[m].offers().lemma_contains_to_index(found);
        self.lemma_offer_once(i, k, m, l);
        assert(self.seats[i].state().wf());
        assert(self.seats[i].state().current == Selection::Owned(
            self.seats[i].state().offers[k].source,
        ));
        assert(self.admits(self.seats[i].current()));
    }

    /// A selection that could be installed before can be installed after, if
    /// every source that was alive still is.
    pub(crate) proof fn lemma_admits_still(self, after: BrokerView, selection: Selection)
        requires
            self.admits(selection),
            forall|i: int|
                0 <= i < self.sources.len() ==> after.has_source((#[trigger] self.sources[i]).id),
        ensures
            after.admits(selection),
    {
        if let Selection::Owned(source) = selection {
            let at = self.lemma_find_source(source);
            assert(after.has_source(self.sources[at].id));
        }
    }

    /// Creating a source keeps the state well formed.
    pub(crate) proof fn lemma_with_source_wf(self, client: ClientId)
        requires
            self.wf(),
            self.next_id < u64::MAX,
        ensures
            self.with_source(client).wf(),
            !self.has_source(self.next_source()),
    {
        let after = self.with_source(client);
        assert forall|i: int, j: int| 0 <= i < j < after.sources.len() implies
            #[trigger] after.sources[i].id != #[trigger] after.sources[j].id by {
            if j == self.sources.len() {
                assert(self.sources[i].id.0 < self.next_id);
            } else {
                assert(self.sources[i].id != self.sources[j].id);
            }
        }
        assert forall|i: int| 0 <= i < after.sources.len() implies (
        #[trigger] after.sources[i]).id.0 < after.next_id by {
            if i < self.sources.len() {
                assert(self.sources[i].id.0 < self.next_id);
            }
        }
        assert forall|i: int, j: int|
            0 <= i < after.seats.len() && 0 <= j < after.seats[i].devices().len() implies (
        #[trigger] after.seats[i].devices()[j]).id.0 < after.next_id by {
            assert(self.seats[i].devices()[j].id.0 < self.next_id);
        }
        assert forall|i: int, k: int|
            0 <= i < after.seats.len() && 0 <= k < after.seats[i].offers().len() implies (
        #[trigger] after.seats[i].offers()[k]).id.serial < after.next_id by {
            assert(self.seats[i].offers()[k].id.serial < self.next_id);
        }
        assert forall|i: int| 0 <= i < self.sources.len() implies after.has_source(
            (#[trigger] self.sources[i]).id,
        ) by {
            assert(after.sources[i].id == self.sources[i].id);
        }
        assert forall|i: int| 0 <= i < after.seats.len() implies after.admits(
            #[trigger] after.seats[i].current(),
        ) by {
            assert(self.admits(self.seats[i].current()));
            self.lemma_admits_still(after, self.seats[i].current());
        }
        if self.has_source(self.next_source()) {
            let at = self.lemma_find_source(self.next_source());
            assert(self.sources[at].id.0 < self.next_id);
        }
    }

    /// No live device bears the name that the next device gets.
    pub(crate) proof fn lemma_next_device_new(self)
        requires
            self.wf(),
        ensures
            !self.has_device(self.next_device()),
            forall|i: int|
                0 <= i < self.seats.len() ==> !(#[trigger] self.seats[i]).has_device(
                    self.next_device(),
                ),
    {
        assert forall|i: int| 0 <= i < self.seats.len() implies !(
        #[trigger] self.seats[i]).has_device(self.next_device()) by {
            if self.seats[i].has_device(self.next_device()) {
                let j = self.seats[i].state().lemma_find_device(self.next_device());
                assert(self.seats[i].devices()[j].id.0 < self.next_id);
            }
        }
    }

    /// Binding a device keeps the state well formed.
    pub(crate) proof fn lemma_with_device_wf(self, client: ClientId, seat: SeatId)
        requires
            self.wf(),
            self.next_id < u64::MAX,
        ensures
            self.with_device(client, seat).wf(),
    {
        let after = self.with_device(client, seat);
        let device = Device { id: self.next_device(), client, seat };
        self.lemma_next_device_new();
        assert forall|i: int, j: int| 0 <= i < j < after.seats.len() implies
            #[trigger] after.seats[i].id != #[trigger] after.seats[j].id by {
            assert(self.seats[i].id != self.seats[j].id);
        }
        // What a device of a seat is after the request: the new one, or one
        // that was there.
        assert forall|i: int, j: int|
            0 <= i < after.seats.len() && 0 <= j < after.seats[i].devices().len() implies (
        #[trigger] after.seats[i].devices()[j] == device && self.seats[i].id == seat) || (j
            < self.seats[i].devices().len() && after.seats[i].devices()[j]
            == self.seats[i].devices()[j]) by {}
        assert forall|i: int| 0 <= i < after.seats.len() implies #[trigger] after.seats[
            i
        ].state().wf() by {
            assert(self.seats[i].state().wf());
            if self.seats[i].id == seat {
                assert(!self.seats[i].has_device(device.id));
                self.seats[i].state().lemma_with_device_wf(device);
            }
        }
        assert forall|i: int, j: int|
            0 <= i < after.seats.len() && 0 <= j < after.seats[i].devices().len() implies
            #[trigger] after.seats[i].devices()[j].seat == after.seats[i].id by {
            if j < self.seats[i].devices().len() {
                assert(self.seats[i].devices()[j].seat == self.seats[i].id);
            }
        }
        assert forall|i: int, j: int, k: int, l: int|
            0 <= i < k < after.seats.len() && 0 <= j < after.seats[i].devices().len() && 0 <= l
                < after.seats[k].devices().len() implies #[trigger] after.seats[i].devices()[j].id
            != #[trigger] after.seats[k].devices()[l].id by {
            assert(self.seats[i].id != self.seats[k].id);
            let a = after.seats[i].devices()[j];
            let b = after.seats[k].devices()[l];
            if j < self.seats[i].devices().len() && a == self.seats[i].devices()[j] {
                assert(self.seats[i].devices()[j].id.0 < self.next_id);
                if l < self.seats[k].devices().len() && b == self.seats[k].devices()[l] {
                    assert(self.seats[i].devices()[j].id != self.seats[k].devices()[l].id);
                }
            } else {
                assert(self.seats[k].devices()[l].id.0 < self.next_id);
            }
        }
        assert forall|i: int, j: int, k: int, l: int|
            0 <= i < k < after.seats.len() && 0 <= j < after.seats[i].offers().len() && 0 <= l
                < after.seats[k].offers().len() implies
            #[trigger] after.seats[i].offers()[j].id.serial
            != #[trigger] after.seats[k].offers()[l].id.serial by {
            assert(self.seats[i].offers()[j].id.serial != self.seats[k].offers()[l].id.serial);
        }
        assert forall|i: int, j: int|
            0 <= i < after.seats.len() && 0 <= j < after.seats[i].devices().len() implies (
        #[trigger] after.seats[i].devices()[j]).id.0 < after.next_id by {
            if j < self.seats[i].devices().len() {
                assert(self.seats[i].devices()[j].id.0 < self.next_id);
            }
        }
        assert forall|i: int, k: int|
            0 <= i < after.seats.len() && 0 <= k < after.seats[i].offers().len() implies (
        #[trigger] after.seats[i].offers()[k]).id.serial < after.next_id by {
            assert(self.seats[i].offers()[k].id.serial < self.next_id);
        }
        assert forall|i: int| 0 <= i < after.sources.len() implies (
        #[trigger] after.sources[i]).id.0 < after.next_id by {
            assert(self.sources[i].id.0 < self.next_id);
        }
        assert forall|i: int| 0 <= i < self.sources.len() implies after.has_source(
            (#[trigger] self.sources[i]).id,
        ) by {
            assert(after.sources[i].id == self.sources[i].id);
        }
        assert forall|i: int| 0 <= i < after.seats.len() implies after.admits(
            #[trigger] after.seats[i].current(),
        ) by {
            assert(self.admits(self.seats[i].current()));
            self.lemma_admits_still(after, self.seats[i].current());
        }
    }

    /// An offer of a MIME type keeps the state well formed.
    pub(crate) proof fn lemma_offered_wf(self, source: SourceId, mime_type: Seq<char>)
        requires
            self.wf(),
        ensures
            self.offered(source, mime_type).wf(),
    {
        let after = self.offered(source, mime_type);
        assert forall|i: int, j: int| 0 <= i < j < after.sources.len() implies
            #[trigger] after.sources[i].id != #[trigger] after.sources[j].id by {
            assert(self.sources[i].id != self.sources[j].id);
        }
        assert forall|i: int| 0 <= i < after.sources.len() implies (
        #[trigger] after.sources[i]).id.0 < after.next_id by {
            assert(self.sources[i].id.0 < self.next_id);
        }
        assert forall|i: int| 0 <= i < self.sources.len() implies after.has_source(
            (#[trigger] self.sources[i]).id,
        ) by {
            assert(after.sources[i].id == self.sources[i].id);
        }
        assert forall|i: int| 0 <= i < after.seats.len() implies after.admits(
            #[trigger] after.seats[i].current(),
        ) by {
            assert(self.admits(self.seats[i].current()));
            self.lemma_admits_still(after, self.seats[i].current());
        }
    }

    /// The seats keep their names, their devices and the order of both when
    /// only selections and offers change.
    pub open spec fn same_devices(self, after: BrokerView) -> bool {
        &&& after.seats.len() == self.seats.len()
        &&& forall|i: int|
            0 <= i < self.seats.len() ==> (#[trigger] after.seats[i]).id == self.seats[i].id
                && after.seats[i].devices() == self.seats[i].devices()
    }

    /// What rests on the devices alone holds after a request that leaves
    /// the devices as they were.
    pub(crate) proof fn lemma_same_devices(self, after: BrokerView)
        requires
            self.wf(),
            self.same_devices(after),
            self.next_id <= after.next_id,
        ensures
            after.distinct_seats(),
            after.distinct_devices(),
            forall|i: int, j: int|
                0 <= i < after.seats.len() && 0 <= j < after.seats[i].devices().len()
                    ==> #[trigger] after.seats[i].devices()[j].seat == after.seats[i].id,
            forall|i: int, j: int|
                0 <= i < after.seats.len() && 0 <= j < after.seats[i].devices().len() ==> (
                #[trigger] after.seats[i].devices()[j]).id.0 < after.next_id,
    {
        assert forall|i: int, j: int| 0 <= i < j < after.seats.len() implies
            #[trigger] after.seats[i].id != #[trigger] after.seats[j].id by {
            assert(self.seats[i].id != self.seats[j].id);
        }
        assert forall|i: int, j: int, k: int, l: int|
            0 <= i < k < after.seats.len() && 0 <= j < after.seats[i].devices().len() && 0 <= l
                < after.seats[k].devices().len() implies #[trigger] after.seats[i].devices()[j].id
            != #[trigger] after.seats[k].devices()[l].id by {
            assert(self.seats[i].devices()[j].id != self.seats[k].devices()[l].id);
        }
        assert forall|i: int, j: int|
            0 <= i < after.seats.len() && 0 <= j < after.seats[i].devices().len() implies
            #[trigger] after.seats[i].devices()[j].seat == after.seats[i].id by {
            assert(self.seats[i].devices()[j].seat == self.seats[i].id);
        }
        assert forall|i: int, j: int|
            0 <= i < after.seats.len() && 0 <= j < after.seats[i].devices().len() implies (
        #[trigger] after.seats[i].devices()[j]).id.0 < after.next_id by {
            assert(self.seats[i].devices()[j].id.0 < self.next_id);
        }
    }

    /// The death of a source keeps the state well formed, and the source is
    /// dead after it.
    pub(crate) proof fn lemma_without_source_wf(self, source: SourceId)
        requires
            self.wf(),
        ensures
            self.without_source(source).wf(),
            !self.without_source(source).has_source(source),
    {
        let after = self.without_source(source);
        assert forall|i: int| 0 <= i < self.seats.len() implies (#[trigger] after.seats[i]).id
            == self.seats[i].id && after.seats[i].devices() == self.seats[i].devices() by {}
        self.lemma_same_devices(after);
        lemma_filter_distinct_sources(self.sources, Demise::Source(source).surviving());
        assert forall|i: int| 0 <= i < after.sources.len() implies (
        #[trigger] after.sources[i]).id.0 < after.next_id && after.sources[i].id != source by {
            let at = lemma_filter_origin(self.sources, Demise::Source(source).surviving(), i);
            assert(self.sources[at].id.0 < self.next_id);
        }
        assert forall|i: int| 0 <= i < after.seats.len() implies #[trigger] after.seats[
            i
        ].state().wf() by {
            assert(self.seats[i].state().wf());
            self.seats[i].state().lemma_without_source_wf(source);
        }
        // An offer of a seat after the request was an offer of that seat.
        assert forall|i: int, k: int|
            0 <= i < after.seats.len() && 0 <= k < after.seats[i].offers().len() implies k
            < self.seats[i].offers().len() && #[trigger] after.seats[i].offers()[k]
            == self.seats[i].offers()[k] by {}
        assert forall|i: int, j: int, k: int, l: int|
            0 <= i < k < after.seats.len() && 0 <= j < after.seats[i].offers().len() && 0 <= l
                < after.seats[k].offers().len() implies
            #[trigger] after.seats[i].offers()[j].id.serial
            != #[trigger] after.seats[k].offers()[l].id.serial by {
            assert(self.seats[i].offers()[j].id.serial != self.seats[k].offers()[l].id.serial);
        }
        assert forall|i: int, k: int|
            0 <= i < after.seats.len() && 0 <= k < after.seats[i].offers().len() implies (
        #[trigger] after.seats[i].offers()[k]).id.serial < after.next_id by {
            assert(self.seats[i].offers()[k].id.serial < self.next_id);
        }
        assert forall|i: int| 0 <= i < after.seats.len() implies after.admits(
            #[trigger] after.seats[i].current(),
        ) by {
            assert(self.admits(self.seats[i].current()));
            if let Selection::Owned(holder) = after.seats[i].current() {
                assert(self.seats[i].current() == Selection::Owned(holder));
                assert(holder != source);
                let was = self.lemma_find_source(holder);
                let at = lemma_filter_keeps(self.sources, Demise::Source(source).surviving(), was);
                assert(after.sources[at].id == holder);
            }
        }
        if after.has_source(source) {
            let at = after.lemma_find_source(source);
            assert(after.sources[at].id != source);
        }
    }

    /// Installing a selection that does not dangle keeps the state well
    /// formed.
    pub(crate) proof fn lemma_with_selection_wf(self, device: DeviceId, selection: Selection)
        requires
            self.wf(),
            self.admits(selection),
            selection is Owned ==> self.next_id < u64::MAX,
        ensures
            self.with_selection(device, selection).wf(),
    {
        let after = self.with_selection(device, selection);
        assert forall|i: int| 0 <= i < self.seats.len() implies (#[trigger] after.seats[i]).id
            == self.seats[i].id && after.seats[i].devices() == self.seats[i].devices() by {}
        self.lemma_same_devices(after);
        assert forall|i: int| 0 <= i < after.seats.len() implies #[trigger] after.seats[
            i
        ].state().wf() by {
            assert(self.seats[i].state().wf());
            self.seats[i].state().lemma_with_selection_wf(selection, self.next_id);
        }
        // An offer of a seat after the request is new, or was an offer of
        // that seat.
        assert forall|i: int, k: int|
            0 <= i < after.seats.len() && 0 <= k < after.seats[i].offers().len() implies (
        #[trigger] after.seats[i].offers()[k]).id.serial == self.next_id && selection is Owned
            && self.seats[i].has_device(device) || (!self.seats[i].has_device(device) && k
            < self.seats[i].offers().len() && after.seats[i].offers()[k]
            == self.seats[i].offers()[k]) by {}
        assert forall|i: int, j: int, k: int, l: int|
            0 <= i < k < after.seats.len() && 0 <= j < after.seats[i].offers().len() && 0 <= l
                < after.seats[k].offers().len() implies
            #[trigger] after.seats[i].offers()[j].id.serial
            != #[trigger] after.seats[k].offers()[l].id.serial by {
            let a = after.seats[i].offers()[j];
            let b = after.seats[k].offers()[l];
            if self.seats[i].has_device(device) {
                let m = self.seats[i].state().lemma_find_device(device);
                self.lemma_device_at(i, m);
                assert(!self.seats[k].has_device(device));
                assert(self.seats[k].offers()[l].id.serial < self.next_id);
            } else if self.seats[k].has_device(device) {
                assert(self.seats[i].offers()[j].id.serial < self.next_id);
            } else {
                assert(self.seats[i].offers()[j].id.serial != self.seats[k].offers()[l].id.serial);
            }
        }
        assert forall|i: int, k: int|
            0 <= i < after.seats.len() && 0 <= k < after.seats[i].offers().len() implies (
        #[trigger] after.seats[i].offers()[k]).id.serial < after.next_id by {
            if k < self.seats[i].offers().len() && after.seats[i].offers()[k]
                == self.seats[i].offers()[k] {
                assert(self.seats[i].offers()[k].id.serial < self.next_id);
            }
        }
        assert forall|i: int| 0 <= i < after.sources.len() implies (
        #[trigger] after.sources[i]).id.0 < after.next_id by {
            assert(self.sources[i].id.0 < self.next_id);
        }
        assert forall|i: int| 0 <= i < self.sources.len() implies after.has_source(
            (#[trigger] self.sources[i]).id,
        ) by {
            assert(after.sources[i].id == self.sources[i].id);
        }
        self.lemma_admits_still(after, selection);
        assert forall|i: int| 0 <= i < after.seats.len() implies after.admits(
            #[trigger] after.seats[i].current(),
        ) by {
            assert(self.admits(self.seats[i].current()));
            self.lemma_admits_still(after, self.seats[i].current());
        }
    }

    /// The seats keep their names and their order, and lose devices and
    /// offers at most.
    pub open spec fn fewer_devices(self, after: BrokerView) -> bool {
        &&& after.seats.len() == self.seats.len()
        &&& forall|i: int|
            0 <= i < self.seats.len() ==> (#[trigger] after.seats[i]).id == self.seats[i].id
        &&& forall|i: int, j: int|
            0 <= i < after.seats.len() && 0 <= j < after.seats[i].devices().len()
                ==> self.seats[i].devices().contains(#[trigger] after.seats[i].devices()[j])
        &&& forall|i: int, k: int|
            0 <= i < after.seats.len() && 0 <= k < after.seats[i].offers().len()
                ==> self.seats[i].offers().contains(#[trigger] after.seats[i].offers()[k])
    }

    /// What holds between seats holds after a request that only takes
    /// devices and offers away.
    pub(crate) proof fn lemma_fewer_devices(self, after: BrokerView)
        requires
            self.wf(),
            self.fewer_devices(after),
            self.next_id <= after.next_id,
        ensures
            after.distinct_seats(),
            after.distinct_devices(),
            after.distinct_events(),
            forall|i: int, j: int|
                0 <= i < after.seats.len() && 0 <= j < after.seats[i].devices().len()
                    ==> #[trigger] after.seats[i].devices()[j].seat == after.seats[i].id,
            forall|i: int, j: int|
                0 <= i < after.seats.len() && 0 <= j < after.seats[i].devices().len() ==> (
                #[trigger] after.seats[i].devices()[j]).id.0 < after.next_id,
            forall|i: int, k: int|
                0 <= i < after.seats.len() && 0 <= k < after.seats[i].offers().len() ==> (
                #[trigger] after.seats[i].offers()[k]).id.serial < after.next_id,
    {
        assert forall|i: int, j: int| 0 <= i < j < after.seats.len() implies
            #[trigger] after.seats[i].id != #[trigger] after.seats[j].id by {
            assert(self.seats[i].id != self.seats[j].id);
        }
        assert forall|i: int, j: int, k: int, l: int|
            0 <= i < k < after.seats.len() && 0 <= j < after.seats[i].devices().len() && 0 <= l
                < after.seats[k].devices().len() implies #[trigger] after.seats[i].devices()[j].id
            != #[trigger] after.seats[k].devices()[l].id by {
            let a = after.seats[i].devices()[j];
            let b = after.seats[k].devices()[l];
            assert(self.seats[i].devices().contains(a));
            assert(self.seats[k].devices().contains(b));
            let m = self.seats[i].devices().lemma_contains_to_index(a);
            let n = self.seats[k].devices().lemma_contains_to_index(b);
            assert(self.seats[i].devices()[m].id != self.seats[k].devices()[n].id);
        }
        assert forall|i: int, j: int, k: int, l: int|
            0 <= i < k < after.seats.len() && 0 <= j < after.seats[i].offers().len() && 0 <= l
                < after.seats[k].offers().len() implies
            #[trigger] after.seats[i].offers()[j].id.serial
            != #[trigger] after.seats[k].offers()[l].id.serial by {
            let a = after.seats[i].offers()[j];
            let b = after.seats[k].offers()[l];
            assert(self.seats[i].offers().contains(a));
            assert(self.seats[k].offers().contains(b));
            let m = self.seats[i].offers().lemma_contains_to_index(a);
            let n = self.seats[k].offers().lemma_contains_to_index(b);
            assert(self.seats[i].offers()[m].id.serial != self.seats[k].offers()[n].id.serial);
        }
        assert forall|i: int, j: int|
            0 <= i < after.seats.len() && 0 <= j < after.seats[i].devices().len() implies
            #[trigger] after.seats[i].devices()[j].seat == after.seats[i].id && (
        after.seats[i].devices()[j]).id.0 < after.next_id by {
            let a = after.seats[i].devices()[j];
            assert(self.seats[i].devices().contains(a));
            let m = self.seats[i].devices().lemma_contains_to_index(a);
            assert(self.seats[i].devices()[m].seat == self.seats[i].id);
            assert(self.seats[i].devices()[m].id.0 < self.next_id);
        }
        assert forall|i: int, k: int|
            0 <= i < after.seats.len() && 0 <= k < after.seats[i].offers().len() implies (
        #[trigger] after.seats[i].offers()[k]).id.serial < after.next_id by {
            let a = after.seats[i].offers()[k];
            assert(self.seats[i].offers().contains(a));
            let m = self.seats[i].offers().lemma_contains_to_index(a);
            assert(self.seats[i].offers()[m].id.serial < self.next_id);
        }
    }

    /// Departures keep the state well formed.
    pub(crate) proof fn lemma_departed_wf(self, departure: Departure)
        requires
            self.wf(),
        ensures
            self.departed(departure).wf(),
    {
        let after = self.departed(departure);
        assert forall|i: int, j: int|
            0 <= i < after.seats.len() && 0 <= j < after.seats[i].devices().len() implies
            self.seats[i].devices().contains(#[trigger] after.seats[i].devices()[j]) by {
            let at = self.seats[i].state().lemma_without_devices(departure, j);
        }
        assert forall|i: int, k: int|
            0 <= i < after.seats.len() && 0 <= k < after.seats[i].offers().len() implies
            self.seats[i].offers().contains(#[trigger] after.seats[i].offers()[k]) by {
            let at = self.seats[i].state().lemma_without_offers(departure, k);
        }
        self.lemma_fewer_devices(after);
        assert forall|i: int| 0 <= i < after.seats.len() implies #[trigger] after.seats[
            i
        ].state().wf() by {
            assert(self.seats[i].state().wf());
            self.seats[i].state().lemma_without_wf(departure);
        }
        assert forall|i: int| 0 <= i < after.sources.len() implies (
        #[trigger] after.sources[i]).id.0 < after.next_id by {
            assert(self.sources[i].id.0 < self.next_id);
        }
        assert forall|i: int| 0 <= i < self.sources.len() implies after.has_source(
            (#[trigger] self.sources[i]).id,
        ) by {
            assert(after.sources[i].id == self.sources[i].id);
        }
        assert forall|i: int| 0 <= i < after.seats.len() implies after.admits(
            #[trigger] after.seats[i].current(),
        ) by {
            assert(self.admits(self.seats[i].current()));
            self.lemma_admits_still(after, self.seats[i].current());
        }
    }

    /// A disconnect keeps the state well formed, and nothing of the client
    /// is alive after it.
    pub(crate) proof fn lemma_without_client_wf(self, client: ClientId)
        requires
            self.wf(),
        ensures
            self.without_client(client).wf(),
    {
        let after = self.without_client(client);
        let departure = Departure::Client(client);
        assert forall|i: int, j: int|
            0 <= i < after.seats.len() && 0 <= j < after.seats[i].devices().len() implies
            self.seats[i].devices().contains(#[trigger] after.seats[i].devices()[j]) by {
            let at = self.seats[i].state().lemma_without_devices(departure, j);
        }
        assert forall|i: int, k: int|
            0 <= i < after.seats.len() && 0 <= k < after.seats[i].offers().len() implies
            self.seats[i].offers().contains(#[trigger] after.seats[i].offers()[k]) by {
            let at = self.seats[i].state().lemma_without_offers(departure, k);
        }
        self.lemma_fewer_devices(after);
        assert forall|i: int| 0 <= i < after.seats.len() implies #[trigger] after.seats[
            i
        ].state().wf() by {
            assert(self.seats[i].state().wf());
            self.seats[i].state().lemma_without_wf(departure);
            self.seats[i].state().without(departure).lemma_with_selection_wf(Selection::Empty, 0);
        }
        lemma_filter_distinct_sources(self.sources, Demise::Client(client).surviving());
        assert forall|i: int| 0 <= i < after.sources.len() implies (
        #[trigger] after.sources[i]).id.0 < after.next_id by {
            let at = lemma_filter_origin(self.sources, Demise::Client(client).surviving(), i);
            assert(self.sources[at].id.0 < self.next_id);
        }
        assert forall|i: int| 0 <= i < after.seats.len() implies after.admits(
            #[trigger] after.seats[i].current(),
        ) by {
            assert(self.admits(self.seats[i].current()));
            if let Selection::Owned(holder) = after.seats[i].current() {
                assert(self.seats[i].current() == Selection::Owned(holder));
                assert(!bereaved(self.seats[i], client, self.sources));
                let was = self.lemma_find_source(holder);
                assert(self.sources[was].client != client);
                let at = lemma_filter_keeps(self.sources, Demise::Client(client).surviving(), was);
                assert(after.sources[at].id == holder);
            }
        }
    }
}

} // verus!
