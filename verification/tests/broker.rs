use selection_broker::broker::{Broker, SetSelection};
use selection_broker::device::{Device, Notification};
use selection_broker::error::ProtocolViolation;
use selection_broker::ids::{ClientId, DeviceId, OfferId, SeatId, SourceId};
use selection_broker::seat_data::Selection;

const C1: ClientId = ClientId(1);
const C2: ClientId = ClientId(2);
const C3: ClientId = ClientId(3);
const S1: SeatId = SeatId(10);
const S2: SeatId = SeatId(20);

fn installed(done: Result<SetSelection, ProtocolViolation>) -> Vec<Notification> {
    match done {
        Ok(SetSelection::Installed(notifications)) => notifications,
        other => panic!("the selection was not installed: {:?}", other),
    }
}

fn mime_types(broker: &Broker, offer: OfferId) -> Vec<String> {
    broker.offer_metadata(offer).expect("the offer is good").mime_types.clone()
}

#[test]
fn a_new_device_sees_an_empty_selection() {
    let mut broker = Broker::new();
    assert!(broker.add_seat(S1));
    let d1 = broker.get_device(C1, S1).expect("the seat is registered");
    assert_eq!(broker.selection(S1), Some(Selection::Empty));
    assert_eq!(
        broker.devices(S1),
        Some(vec![Device { id: d1, client: C1, seat: S1 }])
    );
}

#[test]
fn a_focused_set_reaches_the_other_client_with_the_offered_type() {
    let mut broker = Broker::new();
    broker.add_seat(S1);
    let d2 = broker.get_device(C2, S1).unwrap();
    let d1 = broker.get_device(C1, S1).unwrap();
    let x1 = broker.create_source(C1);
    assert_eq!(broker.offer(x1, String::from("text/plain")), Ok(()));

    let notifications = installed(broker.set_selection(d1, Some(x1), true));

    assert_eq!(broker.selection(S1), Some(Selection::Owned(x1)));
    let to_d2: Vec<&Notification> = notifications.iter().filter(|n| n.device() == d2).collect();
    assert_eq!(to_d2.len(), 1);
    let offer = match to_d2[0] {
        Notification::SelectionOffer { device, offer } => {
            assert_eq!(*device, d2);
            *offer
        }
        other => panic!("expected an offer, got {:?}", other),
    };
    assert_eq!(mime_types(&broker, offer), vec![String::from("text/plain")]);
    let good = broker.good_offer(offer).expect("the offer is good");
    assert_eq!(good.client, C2);
    assert_eq!(good.source, x1);
    // The requester's own device is told too, each device once.
    assert_eq!(notifications.len(), 2);
    assert_eq!(notifications.iter().filter(|n| n.device() == d1).count(), 1);
}

#[test]
fn an_unfocused_set_leaves_the_other_clients_selection() {
    let mut broker = Broker::new();
    broker.add_seat(S1);
    let d3 = broker.get_device(C3, S1).unwrap();
    let d1 = broker.get_device(C1, S1).unwrap();
    let x0 = broker.create_source(C3);
    let x1 = broker.create_source(C1);
    let first = installed(broker.set_selection(d3, Some(x0), true));
    let offer_to_d1 = match first[1] {
        Notification::SelectionOffer { device, offer } if device == d1 => offer,
        other => panic!("expected an offer to the second device, got {:?}", other),
    };

    let done = broker.set_selection(d1, Some(x1), false);

    assert!(matches!(done, Ok(SetSelection::Denied)));
    assert_eq!(broker.selection(S1), Some(Selection::Owned(x0)));
    // Nothing went stale: nobody was told anything.
    assert!(broker.good_offer(offer_to_d1).is_some());
    assert!(broker.alive(x0));
    assert!(broker.alive(x1));
}

#[test]
fn a_disconnect_of_the_owner_clears_the_selection() {
    let mut broker = Broker::new();
    broker.add_seat(S1);
    let d1 = broker.get_device(C1, S1).unwrap();
    let d2 = broker.get_device(C2, S1).unwrap();
    let d3 = broker.get_device(C3, S1).unwrap();
    let x1 = broker.create_source(C1);
    installed(broker.set_selection(d1, Some(x1), true));
    assert_eq!(broker.selection(S1), Some(Selection::Owned(x1)));

    let notifications = broker.disconnect(C1);

    assert_eq!(broker.selection(S1), Some(Selection::Empty));
    assert_eq!(
        notifications,
        vec![
            Notification::SelectionCleared { device: d2 },
            Notification::SelectionCleared { device: d3 },
        ]
    );
    let left = broker.devices(S1).unwrap();
    assert!(left.iter().all(|device| device.id != d1));
    assert_eq!(
        left,
        vec![
            Device { id: d2, client: C2, seat: S1 },
            Device { id: d3, client: C3, seat: S1 },
        ]
    );
    assert!(!broker.alive(x1));
    assert_eq!(broker.device(d1), None);
}

#[test]
fn names_are_given_out_in_order_and_never_twice() {
    let mut broker = Broker::new();
    broker.add_seat(S1);
    assert_eq!(broker.spare_ids(), u64::MAX);
    assert_eq!(broker.create_source(C1), SourceId(0));
    assert_eq!(broker.get_device(C1, S1), Some(DeviceId(1)));
    assert_eq!(broker.create_source(C2), SourceId(2));
    assert_eq!(broker.spare_ids(), u64::MAX - 3);
    let notifications = installed(broker.set_selection(DeviceId(1), Some(SourceId(0)), true));
    assert_eq!(
        notifications,
        vec![Notification::SelectionOffer {
            device: DeviceId(1),
            offer: OfferId { serial: 3, device: DeviceId(1) },
        }]
    );
    assert_eq!(broker.spare_ids(), u64::MAX - 4);
    // Clearing names no selection event, and a denied request names nothing.
    installed(broker.set_selection(DeviceId(1), None, true));
    assert!(matches!(
        broker.set_selection(DeviceId(1), Some(SourceId(0)), false),
        Ok(SetSelection::Denied)
    ));
    assert_eq!(broker.spare_ids(), u64::MAX - 4);
    assert_eq!(broker.destroy_source(SourceId(0)), Ok(vec![]));
    assert_eq!(broker.create_source(C1), SourceId(4));
}

#[test]
fn a_seat_is_registered_once() {
    let mut broker = Broker::new();
    assert!(!broker.has_seat(S1));
    assert!(broker.add_seat(S1));
    assert!(broker.has_seat(S1));
    let d1 = broker.get_device(C1, S1).unwrap();
    assert!(!broker.add_seat(S1));
    assert_eq!(broker.devices(S1), Some(vec![Device { id: d1, client: C1, seat: S1 }]));
    assert!(broker.add_seat(S2));
    assert_eq!(broker.devices(S2), Some(vec![]));
    assert_eq!(broker.selection(S2), Some(Selection::Empty));
}

#[test]
fn an_unknown_seat_gets_no_device() {
    let mut broker = Broker::new();
    broker.add_seat(S1);
    let spare = broker.spare_ids();
    assert_eq!(broker.get_device(C1, S2), None);
    assert_eq!(broker.spare_ids(), spare);
    assert_eq!(broker.selection(S2), None);
    assert_eq!(broker.devices(S2), None);
    assert_eq!(broker.devices(S1), Some(vec![]));
}

/// A small generator of numbers, so that the run below is the same each
/// time.
fn next(seed: &mut u64) -> u64 {
    *seed = seed.wrapping_mul(6364136223846793005).wrapping_add(1442695040888963407);
    *seed >> 33
}

#[test]
fn no_interleaving_leaves_a_dangling_or_second_holder() {
    let seats = [S1, S2];
    let clients = [C1, C2, C3];
    let mut broker = Broker::new();
    for seat in seats {
        broker.add_seat(seat);
    }
    let mut sources: Vec<SourceId> = Vec::new();
    let mut devices: Vec<DeviceId> = Vec::new();
    let mut seed = 7u64;
    for _ in 0..2000 {
        let client = clients[(next(&mut seed) % 3) as usize];
        match next(&mut seed) % 7 {
            0 => sources.push(broker.create_source(client)),
            1 => {
                let seat = seats[(next(&mut seed) % 2) as usize];
                devices.push(broker.get_device(client, seat).unwrap());
            }
            2 | 3 if !devices.is_empty() => {
                let device = devices[(next(&mut seed) as usize) % devices.len()];
                let source = if sources.is_empty() || next(&mut seed) % 4 == 0 {
                    None
                } else {
                    Some(sources[(next(&mut seed) as usize) % sources.len()])
                };
                let has_focus = next(&mut seed) % 2 == 0;
                let before: Vec<Option<Selection>> =
                    seats.iter().map(|seat| broker.selection(*seat)).collect();
                let done = broker.set_selection(device, source, has_focus);
                let after: Vec<Option<Selection>> =
                    seats.iter().map(|seat| broker.selection(*seat)).collect();
                match done {
                    Ok(SetSelection::Installed(notifications)) => {
                        assert!(has_focus);
                        let home = broker.device(device).unwrap().seat;
                        assert_eq!(broker.selection(home), Some(Selection::from_source(source)));
                        let bound = broker.devices(home).unwrap();
                        assert_eq!(notifications.len(), bound.len());
                        for (told, device) in notifications.iter().zip(bound.iter()) {
                            assert_eq!(told.device(), device.id);
                        }
                    }
                    _ => assert_eq!(before, after),
                }
            }
            4 if !sources.is_empty() => {
                let source = sources[(next(&mut seed) as usize) % sources.len()];
                let was_alive = broker.alive(source);
                assert_eq!(broker.destroy_source(source).is_ok(), was_alive);
                assert!(!broker.alive(source));
            }
            5 if !devices.is_empty() => {
                let device = devices[(next(&mut seed) as usize) % devices.len()];
                let was_alive = broker.device(device).is_some();
                assert_eq!(broker.destroy_device(device).is_ok(), was_alive);
                assert_eq!(broker.device(device), None);
            }
            6 => {
                broker.disconnect(client);
            }
            _ => {}
        }
        for seat in seats {
            // One selection for each seat, and its holder is alive.
            match broker.selection(seat).expect("the seat stays registered") {
                Selection::Owned(holder) => assert!(broker.alive(holder)),
                Selection::Empty => {}
            }
            for device in broker.devices(seat).unwrap() {
                assert_eq!(device.seat, seat);
                assert_eq!(broker.device(device.id), Some(device));
            }
        }
    }
}
