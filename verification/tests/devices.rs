use selection_broker::broker::{Broker, SetSelection};
use selection_broker::device::{request, Departure, Device, Notification, Offer, Reply, Request};
use selection_broker::error::ProtocolViolation;
use selection_broker::ids::{ClientId, DeviceId, OfferId, SeatId, SourceId};
use selection_broker::seat::Seat;
use selection_broker::seat_data::{SeatSelectionState, Selection};

const C1: ClientId = ClientId(1);
const C2: ClientId = ClientId(2);
const S1: SeatId = SeatId(10);
const S2: SeatId = SeatId(20);

#[test]
fn a_set_through_a_dead_device_is_a_violation() {
    let mut broker = Broker::new();
    broker.add_seat(S1);
    let x1 = broker.create_source(C1);
    assert!(matches!(
        broker.set_selection(DeviceId(77), Some(x1), true),
        Err(ProtocolViolation::DeadDevice)
    ));
    let d1 = broker.get_device(C1, S1).unwrap();
    broker.destroy_device(d1).unwrap();
    assert!(matches!(
        broker.set_selection(d1, None, true),
        Err(ProtocolViolation::DeadDevice)
    ));
    assert_eq!(broker.selection(S1), Some(Selection::Empty));
}

#[test]
fn a_set_to_a_dead_source_is_a_violation() {
    let mut broker = Broker::new();
    broker.add_seat(S1);
    let d1 = broker.get_device(C1, S1).unwrap();
    let held = broker.create_source(C1);
    let dead = broker.create_source(C1);
    broker.set_selection(d1, Some(held), true).unwrap();
    broker.destroy_source(dead).unwrap();
    // With the focus or without it.
    for has_focus in [true, false] {
        assert!(matches!(
            broker.set_selection(d1, Some(dead), has_focus),
            Err(ProtocolViolation::DeadSource)
        ));
        assert!(matches!(
            broker.set_selection(d1, Some(SourceId(1000)), has_focus),
            Err(ProtocolViolation::DeadSource)
        ));
    }
    assert_eq!(broker.selection(S1), Some(Selection::Owned(held)));
}

#[test]
fn a_set_to_another_clients_source_is_a_violation() {
    let mut broker = Broker::new();
    broker.add_seat(S1);
    let d1 = broker.get_device(C1, S1).unwrap();
    let theirs = broker.create_source(C2);
    for has_focus in [true, false] {
        assert!(matches!(
            broker.set_selection(d1, Some(theirs), has_focus),
            Err(ProtocolViolation::ForeignSource)
        ));
    }
    assert_eq!(broker.selection(S1), Some(Selection::Empty));
}

#[test]
fn a_set_without_focus_changes_nothing() {
    let mut broker = Broker::new();
    broker.add_seat(S1);
    let d1 = broker.get_device(C1, S1).unwrap();
    let x1 = broker.create_source(C1);
    assert!(matches!(
        broker.set_selection(d1, Some(x1), false),
        Ok(SetSelection::Denied)
    ));
    assert_eq!(broker.selection(S1), Some(Selection::Empty));
    broker.set_selection(d1, Some(x1), true).unwrap();
    // Clearing needs the focus as well.
    assert!(matches!(
        broker.set_selection(d1, None, false),
        Ok(SetSelection::Denied)
    ));
    assert_eq!(broker.selection(S1), Some(Selection::Owned(x1)));
}

#[test]
fn clearing_tells_each_device() {
    let mut broker = Broker::new();
    broker.add_seat(S1);
    let d1 = broker.get_device(C1, S1).unwrap();
    let d2 = broker.get_device(C2, S1).unwrap();
    let x1 = broker.create_source(C1);
    broker.set_selection(d1, Some(x1), true).unwrap();
    match broker.set_selection(d1, None, true) {
        Ok(SetSelection::Installed(notifications)) => assert_eq!(
            notifications,
            vec![
                Notification::SelectionCleared { device: d1 },
                Notification::SelectionCleared { device: d2 },
            ]
        ),
        other => panic!("the selection was not cleared: {:?}", other),
    }
    assert_eq!(broker.selection(S1), Some(Selection::Empty));
    assert!(broker.alive(x1));
}

#[test]
fn a_set_reaches_the_devices_of_its_seat_only() {
    let mut broker = Broker::new();
    broker.add_seat(S1);
    broker.add_seat(S2);
    let here = broker.get_device(C1, S1).unwrap();
    let there = broker.get_device(C2, S2).unwrap();
    let x1 = broker.create_source(C1);
    match broker.set_selection(here, Some(x1), true) {
        Ok(SetSelection::Installed(notifications)) => assert_eq!(
            notifications,
            vec![Notification::SelectionOffer {
                device: here,
                offer: OfferId { serial: 3, device: here },
            }]
        ),
        other => panic!("the selection was not installed: {:?}", other),
    }
    assert_eq!(broker.selection(S1), Some(Selection::Owned(x1)));
    assert_eq!(broker.selection(S2), Some(Selection::Empty));
    assert_eq!(broker.device(there), Some(Device { id: there, client: C2, seat: S2 }));
}

#[test]
fn a_destroyed_device_leaves_its_seat_unnoticed() {
    let mut broker = Broker::new();
    broker.add_seat(S1);
    let d1 = broker.get_device(C1, S1).unwrap();
    let d2 = broker.get_device(C2, S1).unwrap();
    let x1 = broker.create_source(C1);
    broker.set_selection(d1, Some(x1), true).unwrap();

    assert_eq!(broker.destroy_device(d1), Ok(()));

    assert_eq!(broker.devices(S1), Some(vec![Device { id: d2, client: C2, seat: S1 }]));
    assert_eq!(broker.device(d1), None);
    // The selection outlives the device that set it.
    assert_eq!(broker.selection(S1), Some(Selection::Owned(x1)));
    assert_eq!(broker.destroy_device(d1), Err(ProtocolViolation::DeadDevice));
    assert_eq!(broker.destroy_device(DeviceId(99)), Err(ProtocolViolation::DeadDevice));
}

#[test]
fn a_disconnect_takes_what_the_client_owned_and_nothing_else() {
    let mut broker = Broker::new();
    broker.add_seat(S1);
    broker.add_seat(S2);
    let mine_1 = broker.get_device(C1, S1).unwrap();
    let theirs_1 = broker.get_device(C2, S1).unwrap();
    let mine_2 = broker.get_device(C1, S2).unwrap();
    let theirs_2 = broker.get_device(C2, S2).unwrap();
    let mine = broker.create_source(C1);
    let idle = broker.create_source(C1);
    let theirs = broker.create_source(C2);
    broker.offer(theirs, String::from("text/plain")).unwrap();
    broker.set_selection(mine_1, Some(mine), true).unwrap();
    let theirs_offer = match broker.set_selection(theirs_2, Some(theirs), true) {
        Ok(SetSelection::Installed(notifications)) => match notifications[1] {
            Notification::SelectionOffer { device, offer } if device == theirs_2 => offer,
            other => panic!("expected an offer, got {:?}", other),
        },
        other => panic!("the selection was not installed: {:?}", other),
    };

    let notifications = broker.disconnect(C1);

    // Only the seat that C1's source held is cleared, and only who stays is told.
    assert_eq!(notifications, vec![Notification::SelectionCleared { device: theirs_1 }]);
    assert_eq!(broker.selection(S1), Some(Selection::Empty));
    assert_eq!(broker.selection(S2), Some(Selection::Owned(theirs)));
    assert_eq!(broker.devices(S1), Some(vec![Device { id: theirs_1, client: C2, seat: S1 }]));
    assert_eq!(broker.devices(S2), Some(vec![Device { id: theirs_2, client: C2, seat: S2 }]));
    assert_eq!(broker.device(mine_1), None);
    assert_eq!(broker.device(mine_2), None);
    assert!(!broker.alive(mine));
    assert!(!broker.alive(idle));
    assert!(broker.alive(theirs));
    assert_eq!(
        broker.source(theirs).unwrap().metadata.mime_types,
        vec![String::from("text/plain")]
    );
    assert_eq!(
        broker.good_offer(theirs_offer),
        Some(Offer { id: theirs_offer, client: C2, source: theirs })
    );
    // Nothing is left of C1: a second disconnect finds nothing to do.
    assert_eq!(broker.disconnect(C1), vec![]);
    assert_eq!(broker.selection(S2), Some(Selection::Owned(theirs)));
}

#[test]
fn a_disconnect_of_a_client_without_anything_changes_nothing() {
    let mut broker = Broker::new();
    broker.add_seat(S1);
    let d1 = broker.get_device(C1, S1).unwrap();
    let x1 = broker.create_source(C1);
    broker.set_selection(d1, Some(x1), true).unwrap();
    assert_eq!(broker.disconnect(C2), vec![]);
    assert_eq!(broker.selection(S1), Some(Selection::Owned(x1)));
    assert_eq!(broker.devices(S1).unwrap().len(), 1);
    assert!(broker.alive(x1));
}

#[test]
fn device_requests_are_handled() {
    let mut broker = Broker::new();
    broker.add_seat(S1);
    let d1 = broker.get_device(C1, S1).unwrap();
    let x1 = broker.create_source(C1);
    let set = Request::SetSelection { source: Some(x1) };
    assert!(matches!(request(&mut broker, d1, set, false), Ok(Reply::Denied)));
    assert_eq!(broker.selection(S1), Some(Selection::Empty));
    match request(&mut broker, d1, set, true) {
        Ok(Reply::Installed(notifications)) => assert_eq!(notifications.len(), 1),
        other => panic!("the selection was not installed: {:?}", other),
    }
    assert_eq!(broker.selection(S1), Some(Selection::Owned(x1)));
    let foreign = broker.create_source(C2);
    assert!(matches!(
        request(&mut broker, d1, Request::SetSelection { source: Some(foreign) }, true),
        Err(ProtocolViolation::ForeignSource)
    ));
    assert!(matches!(request(&mut broker, d1, Request::Destroy, false), Ok(Reply::Destroyed)));
    assert_eq!(broker.devices(S1), Some(vec![]));
    assert!(matches!(
        request(&mut broker, d1, Request::Destroy, true),
        Err(ProtocolViolation::DeadDevice)
    ));
    assert!(matches!(
        request(&mut broker, d1, set, true),
        Err(ProtocolViolation::DeadDevice)
    ));
}

#[test]
fn a_notification_names_its_recipient() {
    let offer = OfferId { serial: 4, device: DeviceId(2) };
    assert_eq!(
        Notification::SelectionOffer { device: DeviceId(2), offer }.device(),
        DeviceId(2)
    );
    assert_eq!(Notification::SelectionCleared { device: DeviceId(3) }.device(), DeviceId(3));
}

#[test]
fn a_departure_spares_the_others() {
    let mine = Device { id: DeviceId(1), client: C1, seat: S1 };
    let theirs = Device { id: DeviceId(2), client: C2, seat: S1 };
    assert!(!Departure::Device(DeviceId(1)).keeps(&mine));
    assert!(Departure::Device(DeviceId(1)).keeps(&theirs));
    assert!(!Departure::Client(C1).keeps(&mine));
    assert!(Departure::Client(C1).keeps(&theirs));
    let my_offer = Offer {
        id: OfferId { serial: 9, device: DeviceId(1) },
        client: C1,
        source: SourceId(0),
    };
    assert!(!Departure::Device(DeviceId(1)).keeps_offer(&my_offer));
    assert!(Departure::Device(DeviceId(2)).keeps_offer(&my_offer));
    assert!(!Departure::Client(C1).keeps_offer(&my_offer));
    assert!(Departure::Client(C2).keeps_offer(&my_offer));
}

#[test]
fn a_selection_is_what_the_request_names() {
    assert_eq!(Selection::from_source(None), Selection::Empty);
    assert_eq!(Selection::from_source(Some(SourceId(4))), Selection::Owned(SourceId(4)));
    assert_eq!(Selection::Empty.source(), None);
    assert_eq!(Selection::Owned(SourceId(4)).source(), Some(SourceId(4)));
}

#[test]
fn seat_state_is_replaced_in_full() {
    let mut state = SeatSelectionState::new();
    assert_eq!(state.current(), Selection::Empty);
    assert!(state.devices().is_empty());
    let first = Device { id: DeviceId(1), client: C1, seat: S1 };
    let second = Device { id: DeviceId(2), client: C2, seat: S1 };
    state.add_device(first);
    state.add_device(second);
    assert_eq!(state.devices(), &vec![first, second]);
    assert_eq!(state.device(DeviceId(2)), Some(second));
    assert_eq!(state.device(DeviceId(3)), None);

    let told = state.set_selection(Selection::Owned(SourceId(7)), 40);
    let to_first = OfferId { serial: 40, device: DeviceId(1) };
    let to_second = OfferId { serial: 40, device: DeviceId(2) };
    assert_eq!(
        told,
        vec![
            Notification::SelectionOffer { device: DeviceId(1), offer: to_first },
            Notification::SelectionOffer { device: DeviceId(2), offer: to_second },
        ]
    );
    assert_eq!(
        state.offers(),
        &vec![
            Offer { id: to_first, client: C1, source: SourceId(7) },
            Offer { id: to_second, client: C2, source: SourceId(7) },
        ]
    );
    assert_eq!(state.offer(to_second), Some(Offer { id: to_second, client: C2, source: SourceId(7) }));

    state.set_selection(Selection::Owned(SourceId(8)), 41);
    assert_eq!(state.current(), Selection::Owned(SourceId(8)));
    assert_eq!(state.offer(to_first), None);
    assert_eq!(state.offers().len(), 2);

    state.retain_devices(Departure::Client(C1));
    assert_eq!(state.devices(), &vec![second]);
    assert_eq!(
        state.offers(),
        &vec![Offer { id: OfferId { serial: 41, device: DeviceId(2) }, client: C2, source: SourceId(8) }]
    );

    assert_eq!(state.source_destroyed(SourceId(7)), vec![]);
    assert_eq!(state.current(), Selection::Owned(SourceId(8)));
    assert_eq!(
        state.source_destroyed(SourceId(8)),
        vec![Notification::SelectionCleared { device: DeviceId(2) }]
    );
    assert_eq!(state.current(), Selection::Empty);
    assert!(state.offers().is_empty());
}

#[test]
fn a_seat_makes_its_state_with_the_first_device() {
    let mut seat = Seat::new(S2);
    assert_eq!(seat.id(), S2);
    assert!(seat.data().is_none());
    assert_eq!(seat.current(), Selection::Empty);
    assert_eq!(seat.set_selection(Selection::Empty, 0), vec![]);
    assert_eq!(seat.source_destroyed(SourceId(1)), vec![]);
    seat.retain_devices(Departure::Client(C1));
    assert!(seat.data().is_none());

    let device = Device { id: DeviceId(5), client: C1, seat: S2 };
    seat.add_device(device);
    assert_eq!(seat.data().expect("the state was made").devices(), &vec![device]);
    assert_eq!(seat.device(DeviceId(5)), Some(device));
    assert_eq!(seat.device(DeviceId(6)), None);
    assert_eq!(seat.offer(OfferId { serial: 0, device: DeviceId(5) }), None);
    assert_eq!(
        seat.set_selection(Selection::Owned(SourceId(1)), 6),
        vec![Notification::SelectionOffer {
            device: DeviceId(5),
            offer: OfferId { serial: 6, device: DeviceId(5) },
        }]
    );
    assert_eq!(seat.current(), Selection::Owned(SourceId(1)));
    assert!(seat.offer(OfferId { serial: 6, device: DeviceId(5) }).is_some());
}
