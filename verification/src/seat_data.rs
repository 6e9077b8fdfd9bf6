//! The selection state of one seat: who holds the selection, which devices
//! watch it, and which offers for it are still good.

use vstd::prelude::*;

use crate::device::{Departure, Device, Notification, Offer};
use crate::ids::{DeviceId, OfferId, SourceId};
use crate::sequences::{
    lemma_filter_keeps, lemma_filter_origin, lemma_filter_pairwise, pairwise,
};

verus! {

/// The selection of a seat: nothing, or the one source that holds it.
#[derive(Clone, Copy, Debug, PartialEq, Eq, Structural)]
pub enum Selection {
    Empty,
    Owned(SourceId),
}

impl Selection {
    /// The selection a request names: the source, or nothing.
    pub open spec fn of(source: Option<SourceId>) -> Selection {
        match source {
            Some(source) => Selection::Owned(source),
            None => Selection::Empty,
        }
    }

    /// The source that holds the selection, if one does.
    pub open spec fn holder(self) -> Option<SourceId> {
        match self {
            Selection::Owned(source) => Some(source),
            Selection::Empty => None,
        }
    }

    /// The selection a request names: the source, or nothing.
    pub fn from_source(source: Option<SourceId>) -> (selection: Selection)
        ensures
            selection == Selection::of(source),
    {
        match source {
            Some(source) => Selection::Owned(source),
            None => Selection::Empty,
        }
    }

    /// The source that holds the selection, if one does.
    pub fn source(&self) -> (source: Option<SourceId>)
        ensures
            source == self.holder(),
    {
        match self {
            Selection::Owned(source) => Some(*source),
            Selection::Empty => None,
        }
    }
}

/// What the selection state of a seat is, mathematically.
pub struct SeatDataView {
    /// The seat's selection.
    pub current: Selection,
    /// The live devices bound to the seat, oldest first.
    pub devices: Seq<Device>,
    /// The offers that are still good: those handed out for `current` to
    /// devices that are still alive.
    pub offers: Seq<Offer>,
}

/// The offer that `device` is handed when `source` becomes the selection in
/// the event named `serial`.
pub open spec fn offer_for(source: SourceId, serial: u64) -> spec_fn(Device) -> Offer {
    |device: Device|
        Offer { id: OfferId { serial, device: device.id }, client: device.client, source }
}

/// What `device` is told when `selection` is installed in the event named
/// `serial`.
pub open spec fn announcement(selection: Selection, serial: u64) -> spec_fn(Device)
    -> Notification {
    |device: Device|
        match selection {
            Selection::Owned(_) => Notification::SelectionOffer {
                device: device.id,
                offer: OfferId { serial, device: device.id },
            },
            Selection::Empty => Notification::SelectionCleared { device: device.id },
        }
}

impl SeatDataView {
    /// The state a seat starts with: no selection, no device.
    pub open spec fn new() -> SeatDataView {
        SeatDataView { current: Selection::Empty, devices: Seq::empty(), offers: Seq::empty() }
    }

    /// Whether a device named `id` is bound to the seat.
    pub open spec fn has_device(self, id: DeviceId) -> bool {
        exists|j: int| 0 <= j < self.devices.len() && #[trigger] self.devices[j].id == id
    }

    /// Whether the offer named `id` is still good.
    pub open spec fn has_offer(self, id: OfferId) -> bool {
        exists|k: int| 0 <= k < self.offers.len() && #[trigger] self.offers[k].id == id
    }

    /// The state after `device` was bound to the seat.
    pub open spec fn with_device(self, device: Device) -> SeatDataView {
        SeatDataView { devices: self.devices.push(device), ..self }
    }

    /// The state after the devices that `departure` names have left, and
    /// their offers with them.
    pub open spec fn without(self, departure: Departure) -> SeatDataView {
        SeatDataView {
            current: self.current,
            devices: self.devices.filter(departure.staying()),
            offers: self.offers.filter(departure.staying_offers()),
        }
    }

    /// The state after `selection` was installed in the event named
    /// `serial`: a full replace. Every earlier offer is gone, and each
    /// device holds one new offer if there is a selection to offer.
    pub open spec fn with_selection(self, selection: Selection, serial: u64) -> SeatDataView {
        SeatDataView {
            current: selection,
            devices: self.devices,
            offers: match selection {
                Selection::Owned(source) => self.devices.map_values(offer_for(source, serial)),
                Selection::Empty => Seq::empty(),
            },
        }
    }

    /// What the devices are told when `selection` is installed in the event
    /// named `serial`: one notification for each device, oldest device first.
    pub open spec fn announcements(self, selection: Selection, serial: u64) -> Seq<
        Notification,
    > {
        self.devices.map_values(announcement(selection, serial))
    }

    /// The state after the selection was cleared.
    pub open spec fn cleared(self) -> SeatDataView {
        self.with_selection(Selection::Empty, 0)
    }

    /// The state after `source` died: cleared if `source` held the
    /// selection, unchanged if not.
    pub open spec fn without_source(self, source: SourceId) -> SeatDataView {
        if self.current == Selection::Owned(source) {
            self.cleared()
        } else {
            self
        }
    }

    /// What the devices are told when `source` dies: that the selection is
    /// cleared if `source` held it, nothing if not.
    pub open spec fn obituary(self, source: SourceId) -> Seq<Notification> {
        if self.current == Selection::Owned(source) {
            self.announcements(Selection::Empty, 0)
        } else {
            Seq::empty()
        }
    }

    /// No two devices share a name.
    pub open spec fn distinct_devices(self) -> bool {
        forall|i: int, j: int|
            0 <= i < j < self.devices.len() ==> #[trigger] self.devices[i].id
                != #[trigger] self.devices[j].id
    }

    /// No device holds two offers.
    pub open spec fn distinct_offers(self) -> bool {
        forall|k: int, l: int|
            0 <= k < l < self.offers.len() ==> #[trigger] self.offers[k].id.device
                != #[trigger] self.offers[l].id.device
    }

    /// Every offer is for the current selection; without a selection there
    /// is no offer.
    pub open spec fn offers_current(self) -> bool {
        forall|k: int|
            0 <= k < self.offers.len() ==> self.current == Selection::Owned(
                #[trigger] self.offers[k].source,
            )
    }

    /// The state is well formed.
    pub open spec fn wf(self) -> bool {
        &&& self.distinct_devices()
        &&& self.distinct_offers()
        &&& self.offers_current()
    }
}

impl SeatDataView {
    /// Where the device named `id` is bound.
    pub proof fn lemma_find_device(self, id: DeviceId) -> (j: int)
        requires
            self.has_device(id),
        ensures
            0 <= j < self.devices.len(),
            self.devices[j].id == id,
    {
        choose|j: int| 0 <= j < self.devices.len() && #[trigger] self.devices[j].id == id
    }

    /// Where the good offer named `id` is held.
    pub proof fn lemma_find_offer(self, id: OfferId) -> (k: int)
        requires
            self.has_offer(id),
        ensures
            0 <= k < self.offers.len(),
            self.offers[k].id == id,
    {
        choose|k: int| 0 <= k < self.offers.len() && #[trigger] self.offers[k].id == id
    }

    /// Binding a device whose name is new keeps the state well formed.
    pub(crate) proof fn lemma_with_device_wf(self, device: Device)
        requires
            self.wf(),
            !self.has_device(device.id),
        ensures
            self.with_device(device).wf(),
    {
        let after = self.with_device(device);
        assert forall|i: int, j: int| 0 <= i < j < after.devices.len() implies
            #[trigger] after.devices[i].id != #[trigger] after.devices[j].id by {
            if j == self.devices.len() {
                assert(self.devices[i].id != device.id);
            } else {
                assert(self.devices[i].id != self.devices[j].id);
            }
        }
    }

    /// A device that stays was there before, and `departure` spares it.
    pub(crate) proof fn lemma_without_devices(self, departure: Departure, j: int) -> (at: int)
        requires
            0 <= j < self.without(departure).devices.len(),
        ensures
            0 <= at < self.devices.len(),
            self.devices[at] == self.without(departure).devices[j],
            departure.spares(self.devices[at]),
    {
        lemma_filter_origin(self.devices, departure.staying(), j)
    }

    /// An offer that stays was there before, and `departure` spares it.
    pub(crate) proof fn lemma_without_offers(self, departure: Departure, k: int) -> (at: int)
        requires
            0 <= k < self.without(departure).offers.len(),
        ensures
            0 <= at < self.offers.len(),
            self.offers[at] == self.without(departure).offers[k],
            departure.spares_offer(self.offers[at]),
    {
        lemma_filter_origin(self.offers, departure.staying_offers(), k)
    }

    /// A device that `departure` spares stays.
    pub(crate) proof fn lemma_without_keeps(self, departure: Departure, j: int) -> (at: int)
        requires
            0 <= j < self.devices.len(),
            departure.spares(self.devices[j]),
        ensures
            0 <= at < self.without(departure).devices.len(),
            self.without(departure).devices[at] == self.devices[j],
    {
        lemma_filter_keeps(self.devices, departure.staying(), j)
    }

    /// Departures keep the state well formed.
    pub(crate) proof fn lemma_without_wf(self, departure: Departure)
        requires
            self.wf(),
        ensures
            self.without(departure).wf(),
    {
        let after = self.without(departure);
        lemma_filter_distinct_devices(self.devices, departure.staying());
        lemma_filter_distinct_offers(self.offers, departure.staying_offers());
        assert forall|k: int| 0 <= k < after.offers.len() implies after.current
            == Selection::Owned(#[trigger] after.offers[k].source) by {
            let at = self.lemma_without_offers(departure, k);
            assert(self.current == Selection::Owned(self.offers[at].source));
        }
    }

    /// Installing a selection keeps the state well formed.
    pub(crate) proof fn lemma_with_selection_wf(self, selection: Selection, serial: u64)
        requires
            self.distinct_devices(),
        ensures
            self.with_selection(selection, serial).wf(),
    {
        let after = self.with_selection(selection, serial);
        assert forall|k: int, l: int| 0 <= k < l < after.offers.len() implies
            #[trigger] after.offers[k].id.device != #[trigger] after.offers[l].id.device by {
            assert(self.devices[k].id != self.devices[l].id);
        }
    }

    /// The death of a source keeps the state well formed.
    pub(crate) proof fn lemma_without_source_wf(self, source: SourceId)
        requires
            self.wf(),
        ensures
            self.without_source(source).wf(),
            self.without_source(source).current != Selection::Owned(source),
    {
        self.lemma_with_selection_wf(Selection::Empty, 0);
    }
}

/// Two devices with different names.
pub open spec fn other_device() -> spec_fn(Device, Device) -> bool {
    |a: Device, b: Device| a.id != b.id
}

/// Two offers to different devices.
pub open spec fn other_recipient() -> spec_fn(Offer, Offer) -> bool {
    |a: Offer, b: Offer| a.id.device != b.id.device
}

/// Filtering devices whose names differ leaves devices whose names differ.
pub(crate) proof fn lemma_filter_distinct_devices(
    devices: Seq<Device>,
    keep: spec_fn(Device) -> bool,
)
    requires
        forall|i: int, j: int|
            0 <= i < j < devices.len() ==> #[trigger] devices[i].id != #[trigger] devices[j].id,
    ensures
        forall|i: int, j: int|
            0 <= i < j < devices.filter(keep).len() ==> #[trigger] devices.filter(keep)[i].id
                != #[trigger] devices.filter(keep)[j].id,
{
    let kept = devices.filter(keep);
    assert(pairwise(devices, other_device()));
    lemma_filter_pairwise(devices, keep, other_device());
    assert forall|i: int, j: int| 0 <= i < j < kept.len() implies #[trigger] kept[i].id
        != #[trigger] kept[j].id by {
        assert(other_device()(kept[i], kept[j]));
    }
}

/// Filtering offers to different devices leaves offers to different devices.
pub(crate) proof fn lemma_filter_distinct_offers(
    offers: Seq<Offer>,
    keep: spec_fn(Offer) -> bool,
)
    requires
        forall|k: int, l: int|
            0 <= k < l < offers.len() ==> #[trigger] offers[k].id.device
                != #[trigger] offers[l].id.device,
    ensures
        forall|k: int, l: int|
            0 <= k < l < offers.filter(keep).len() ==> #[trigger] offers.filter(keep)[k].id.device
                != #[trigger] offers.filter(keep)[l].id.device,
{
    let kept = offers.filter(keep);
    assert(pairwise(offers, other_recipient()));
    lemma_filter_pairwise(offers, keep, other_recipient());
    assert forall|k: int, l: int| 0 <= k < l < kept.len() implies #[trigger] kept[k].id.device
        != #[trigger] kept[l].id.device by {
        assert(other_recipient()(kept[k], kept[l]));
    }
}

/// The selection state of one seat.
#[derive(Debug)]
pub struct SeatSelectionState {
    current: Selection,
    devices: Vec<Device>,
    offers: Vec<Offer>,
}

impl View for SeatSelectionState {
    type V = SeatDataView;

    closed spec fn view(&self) -> SeatDataView {
        SeatDataView { current: self.current, devices: self.devices@, offers: self.offers@ }
    }
}

impl SeatSelectionState {
    /// The state a seat starts with: no selection, no device.
    pub fn new() -> (state: Self)
        ensures
            state@ == SeatDataView::new(),
    {
        SeatSelectionState { current: Selection::Empty, devices: Vec::new(), offers: Vec::new() }
    }

    /// The seat's selection.
    pub fn current(&self) -> (current: Selection)
        ensures
            current == self@.current,
    {
        self.current
    }

    /// The live devices bound to the seat, oldest first.
    pub fn devices(&self) -> (devices: &Vec<Device>)
        ensures
            devices@ == self@.devices,
    {
        &self.devices
    }

    /// The offers that are still good.
    pub fn offers(&self) -> (offers: &Vec<Offer>)
        ensures
            offers@ == self@.offers,
    {
        &self.offers
    }

    /// The first device named `id`, if one is bound to the seat.
    pub fn device(&self, id: DeviceId) -> (found: Option<Device>)
        ensures
            match found {
                Some(device) => device.id == id && self@.devices.contains(device),
                None => !self@.has_device(id),
            },
    {
        let mut j: usize = 0;
        while j < self.devices.len()
            invariant
                j <= self.devices.len(),
                forall|k: int| 0 <= k < j ==> self.devices@[k].id != id,
            decreases self.devices.len() - j,
        {
            if self.devices[j].id == id {
                return Some(self.devices[j]);
            }
            j += 1;
        }
        None
    }

    /// The first offer named `id`, if it is still good.
    pub fn offer(&self, id: OfferId) -> (found: Option<Offer>)
        ensures
            match found {
                Some(offer) => offer.id == id && self@.offers.contains(offer),
                None => !self@.has_offer(id),
            },
    {
        let mut k: usize = 0;
        while k < self.offers.len()
            invariant
                k <= self.offers.len(),
                forall|l: int| 0 <= l < k ==> self.offers@[l].id != id,
            decreases self.offers.len() - k,
        {
            if self.offers[k].id == id {
                return Some(self.offers[k]);
            }
            k += 1;
        }
        None
    }

    /// Binds `device` to the seat. The device is told nothing.
    pub fn add_device(&mut self, device: Device)
        ensures
            final(self)@ == old(self)@.with_device(device),
    {
        self.devices.push(device);
    }

    /// Drops the devices that `departure` names, and their offers. Nobody is
    /// told: a dead device cannot observe anything.
    pub fn retain_devices(&mut self, departure: Departure)
        ensures
            final(self)@ == old(self)@.without(departure),
    {
        let mut devices: Vec<Device> = Vec::new();
        let mut j: usize = 0;
        while j < self.devices.len()
            invariant
                j <= self.devices.len(),
                devices@ == self.devices@.take(j as int).filter(departure.staying()),
            decreases self.devices.len() - j,
        {
            let device = self.devices[j];
            proof {
                assert(self.devices@.take(j + 1) == self.devices@.take(j as int).push(device));
                self.devices@.take(j as int).lemma_filter_push(device, departure.staying());
            }
            if departure.keeps(&device) {
                devices.push(device);
            }
            j += 1;
        }
        let mut offers: Vec<Offer> = Vec::new();
        let mut k: usize = 0;
        while k < self.offers.len()
            invariant
                k <= self.offers.len(),
                offers@ == self.offers@.take(k as int).filter(departure.staying_offers()),
            decreases self.offers.len() - k,
        {
            let offer = self.offers[k];
            proof {
                assert(self.offers@.take(k + 1) == self.offers@.take(k as int).push(offer));
                self.offers@.take(k as int).lemma_filter_push(offer, departure.staying_offers());
            }
            if departure.keeps_offer(&offer) {
                offers.push(offer);
            }
            k += 1;
        }
        proof {
            assert(self.devices@.take(self.devices@.len() as int) == self.devices@);
            assert(self.offers@.take(self.offers@.len() as int) == self.offers@);
        }
        self.devices = devices;
        self.offers = offers;
    }

    /// Installs `selection` in the event named `serial` and says what each
    /// device is to be told. Always a full replace: the earlier selection,
    /// if any, merely stops being current, and every earlier offer goes
    /// stale.
    pub fn set_selection(&mut self, selection: Selection, serial: u64) -> (notifications: Vec<
        Notification,
    >)
        ensures
            final(self)@ == old(self)@.with_selection(selection, serial),
            notifications@ == old(self)@.announcements(selection, serial),
    {
        let mut offers: Vec<Offer> = Vec::new();
        let mut notifications: Vec<Notification> = Vec::new();
        let mut j: usize = 0;
        while j < self.devices.len()
            invariant
                j <= self.devices.len(),
                notifications@ == self.devices@.take(j as int).map_values(
                    announcement(selection, serial),
                ),
                match selection {
                    Selection::Owned(source) => offers@ == self.devices@.take(j as int).map_values(
                        offer_for(source, serial),
                    ),
                    Selection::Empty => offers@ == Seq::<Offer>::empty(),
                },
            decreases self.devices.len() - j,
        {
            let device = self.devices[j];
            proof {
                assert(self.devices@.take(j + 1) == self.devices@.take(j as int).push(device));
            }
            let id = OfferId { serial, device: device.id };
            match selection {
                Selection::Owned(source) => {
                    offers.push(Offer { id, client: device.client, source });
                    notifications.push(
                        Notification::SelectionOffer { device: device.id, offer: id },
                    );
                },
                Selection::Empty => {
                    notifications.push(Notification::SelectionCleared { device: device.id });
                },
            }
            j += 1;
        }
        proof {
            assert(self.devices@.take(self.devices@.len() as int) == self.devices@);
        }
        self.current = selection;
        self.offers = offers;
        notifications
    }

    /// Takes note that `source` died. If it held the selection, the
    /// selection is cleared and every device is to be told so.
    pub fn source_destroyed(&mut self, source: SourceId) -> (notifications: Vec<Notification>)
        ensures
            final(self)@ == old(self)@.without_source(source),
            notifications@ == old(self)@.obituary(source),
    {
        if self.current == Selection::Owned(source) {
            self.set_selection(Selection::Empty, 0)
        } else {
            Vec::new()
        }
    }
}

} // verus!
