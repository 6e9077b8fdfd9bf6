use selection_broker::broker::{with_source_metadata, Broker, SetSelection};
use selection_broker::device::Notification;
use selection_broker::error::{ProtocolViolation, UnmanagedResource};
use selection_broker::ids::{ClientId, SeatId, SourceId};
use selection_broker::seat_data::Selection;
use selection_broker::source::{request, Demise, Metadata, Request, Source};

const C1: ClientId = ClientId(1);
const C2: ClientId = ClientId(2);
const S1: SeatId = SeatId(10);
const S2: SeatId = SeatId(20);

fn texts(types: &[&str]) -> Vec<String> {
    types.iter().map(|mime_type| String::from(*mime_type)).collect()
}

#[test]
fn metadata_starts_empty() {
    assert_eq!(Metadata::new().mime_types, Vec::<String>::new());
    assert_eq!(Metadata::default().mime_types, Vec::<String>::new());
}

#[test]
fn metadata_keeps_every_offer_in_order() {
    let mut metadata = Metadata::new();
    let offered = ["text/plain", "image/png", "text/plain", "", "text/html"];
    for mime_type in offered {
        metadata.offer(String::from(mime_type));
    }
    assert_eq!(metadata.mime_types, texts(&offered));
}

#[test]
fn metadata_clone_is_a_copy_of_its_own() {
    let mut metadata = Metadata::new();
    metadata.offer(String::from("text/plain"));
    let mut copy = metadata.clone();
    assert_eq!(copy.mime_types, texts(&["text/plain"]));
    copy.offer(String::from("image/png"));
    assert_eq!(metadata.mime_types, texts(&["text/plain"]));
    assert_eq!(copy.mime_types, texts(&["text/plain", "image/png"]));
}

#[test]
fn a_new_source_offers_nothing() {
    let source = Source::new(SourceId(5), C1);
    assert_eq!(source.id, SourceId(5));
    assert_eq!(source.client, C1);
    assert!(source.metadata.mime_types.is_empty());

    let mut broker = Broker::new();
    let x1 = broker.create_source(C1);
    let found = broker.source(x1).expect("the source is alive");
    assert_eq!(found.id, x1);
    assert_eq!(found.client, C1);
    assert!(found.metadata.mime_types.is_empty());
    assert!(broker.alive(x1));
}

#[test]
fn creating_a_source_touches_no_seat() {
    let mut broker = Broker::new();
    broker.add_seat(S1);
    let d1 = broker.get_device(C1, S1).unwrap();
    let devices = broker.devices(S1);
    broker.create_source(C1);
    assert_eq!(broker.selection(S1), Some(Selection::Empty));
    assert_eq!(broker.devices(S1), devices);
    assert!(broker.device(d1).is_some());
}

#[test]
fn a_source_offers_what_was_offered_in_order_with_duplicates() {
    let mut broker = Broker::new();
    let other = broker.create_source(C2);
    let x1 = broker.create_source(C1);
    let offered = ["text/plain", "text/plain;charset=utf-8", "text/plain", "image/png"];
    for mime_type in offered {
        assert_eq!(broker.offer(x1, String::from(mime_type)), Ok(()));
    }
    assert_eq!(
        with_source_metadata(&broker, x1, |metadata| metadata.mime_types.clone()),
        Ok(texts(&offered))
    );
    assert_eq!(
        with_source_metadata(&broker, x1, |metadata| metadata.mime_types.len()),
        Ok(4)
    );
    // The other source was offered nothing.
    assert_eq!(
        with_source_metadata(&broker, other, |metadata| metadata.mime_types.clone()),
        Ok(vec![])
    );
}

#[test]
fn metadata_of_no_source_is_unmanaged() {
    let mut broker = Broker::new();
    assert_eq!(
        with_source_metadata(&broker, SourceId(0), |metadata| metadata.mime_types.len()),
        Err(UnmanagedResource)
    );
    let x1 = broker.create_source(C1);
    broker.offer(x1, String::from("text/plain")).unwrap();
    broker.destroy_source(x1).unwrap();
    let mut called = false;
    let outcome = with_source_metadata(&broker, x1, |_| called = true);
    assert_eq!(outcome, Err(UnmanagedResource));
    assert!(!called);
}

#[test]
fn an_offer_through_a_dead_source_is_a_violation() {
    let mut broker = Broker::new();
    assert_eq!(
        broker.offer(SourceId(3), String::from("text/plain")),
        Err(ProtocolViolation::DeadSource)
    );
    let x1 = broker.create_source(C1);
    broker.destroy_source(x1).unwrap();
    assert_eq!(
        broker.offer(x1, String::from("text/plain")),
        Err(ProtocolViolation::DeadSource)
    );
}

#[test]
fn a_source_dies_once() {
    let mut broker = Broker::new();
    let x1 = broker.create_source(C1);
    let x2 = broker.create_source(C1);
    assert_eq!(broker.destroy_source(x1), Ok(vec![]));
    assert!(!broker.alive(x1));
    assert!(broker.source(x1).is_none());
    assert_eq!(broker.destroy_source(x1), Err(ProtocolViolation::DeadSource));
    assert!(broker.alive(x2));
}

#[test]
fn destroying_the_holder_clears_the_seat_and_tells_each_device_once() {
    let mut broker = Broker::new();
    broker.add_seat(S1);
    let d1 = broker.get_device(C1, S1).unwrap();
    let d2 = broker.get_device(C2, S1).unwrap();
    let x1 = broker.create_source(C1);
    broker.set_selection(d1, Some(x1), true).unwrap();
    // A device that came after the selection was set is still to be told.
    let d3 = broker.get_device(C2, S1).unwrap();

    let notifications = broker.destroy_source(x1).unwrap();

    assert_eq!(broker.selection(S1), Some(Selection::Empty));
    assert_eq!(
        notifications,
        vec![
            Notification::SelectionCleared { device: d1 },
            Notification::SelectionCleared { device: d2 },
            Notification::SelectionCleared { device: d3 },
        ]
    );
    assert_eq!(broker.devices(S1).unwrap().len(), 3);
}

#[test]
fn destroying_a_source_that_holds_nothing_tells_nobody() {
    let mut broker = Broker::new();
    broker.add_seat(S1);
    let d1 = broker.get_device(C1, S1).unwrap();
    let x1 = broker.create_source(C1);
    let x2 = broker.create_source(C1);
    broker.set_selection(d1, Some(x1), true).unwrap();
    assert_eq!(broker.destroy_source(x2), Ok(vec![]));
    assert_eq!(broker.selection(S1), Some(Selection::Owned(x1)));
}

#[test]
fn destroying_the_holder_of_two_seats_clears_both() {
    let mut broker = Broker::new();
    broker.add_seat(S1);
    broker.add_seat(S2);
    let on_first = broker.get_device(C1, S1).unwrap();
    let on_second = broker.get_device(C1, S2).unwrap();
    let watcher = broker.get_device(C2, S2).unwrap();
    let x1 = broker.create_source(C1);
    broker.set_selection(on_first, Some(x1), true).unwrap();
    broker.set_selection(on_second, Some(x1), true).unwrap();
    assert_eq!(broker.selection(S1), Some(Selection::Owned(x1)));
    assert_eq!(broker.selection(S2), Some(Selection::Owned(x1)));

    let notifications = broker.destroy_source(x1).unwrap();

    assert_eq!(broker.selection(S1), Some(Selection::Empty));
    assert_eq!(broker.selection(S2), Some(Selection::Empty));
    assert_eq!(
        notifications,
        vec![
            Notification::SelectionCleared { device: on_first },
            Notification::SelectionCleared { device: on_second },
            Notification::SelectionCleared { device: watcher },
        ]
    );
}

#[test]
fn a_superseded_source_stays_alive() {
    let mut broker = Broker::new();
    broker.add_seat(S1);
    let d1 = broker.get_device(C1, S1).unwrap();
    let d2 = broker.get_device(C2, S1).unwrap();
    let old = broker.create_source(C1);
    let new = broker.create_source(C2);
    broker.offer(old, String::from("text/plain")).unwrap();
    broker.set_selection(d1, Some(old), true).unwrap();
    assert!(matches!(
        broker.set_selection(d2, Some(new), true),
        Ok(SetSelection::Installed(_))
    ));
    assert_eq!(broker.selection(S1), Some(Selection::Owned(new)));
    assert!(broker.alive(old));
    // It can still be offered through, and destroyed without telling anyone.
    assert_eq!(broker.offer(old, String::from("image/png")), Ok(()));
    assert_eq!(
        with_source_metadata(&broker, old, |metadata| metadata.mime_types.clone()),
        Ok(texts(&["text/plain", "image/png"]))
    );
    assert_eq!(broker.destroy_source(old), Ok(vec![]));
    assert_eq!(broker.selection(S1), Some(Selection::Owned(new)));
}

#[test]
fn source_requests_are_handled() {
    let mut broker = Broker::new();
    broker.add_seat(S1);
    let d1 = broker.get_device(C1, S1).unwrap();
    let x1 = broker.create_source(C1);
    assert_eq!(
        request(&mut broker, x1, Request::Offer { mime_type: String::from("text/plain") }),
        Ok(vec![])
    );
    assert_eq!(
        broker.source(x1).unwrap().metadata.mime_types,
        texts(&["text/plain"])
    );
    broker.set_selection(d1, Some(x1), true).unwrap();
    assert_eq!(
        request(&mut broker, x1, Request::Destroy),
        Ok(vec![Notification::SelectionCleared { device: d1 }])
    );
    assert!(!broker.alive(x1));
    assert_eq!(
        request(&mut broker, x1, Request::Destroy),
        Err(ProtocolViolation::DeadSource)
    );
    assert_eq!(
        request(&mut broker, x1, Request::Offer { mime_type: String::from("text/plain") }),
        Err(ProtocolViolation::DeadSource)
    );
}

#[test]
fn a_demise_spares_the_others() {
    let mine = Source::new(SourceId(1), C1);
    let theirs = Source::new(SourceId(2), C2);
    assert!(!Demise::Source(SourceId(1)).keeps(&mine));
    assert!(Demise::Source(SourceId(1)).keeps(&theirs));
    assert!(!Demise::Client(C1).keeps(&mine));
    assert!(Demise::Client(C1).keeps(&theirs));
}

#[test]
fn metadata_knows_what_it_offers() {
    let mut metadata = Metadata::new();
    assert!(!metadata.offers(&String::from("text/plain")));
    metadata.offer(String::from("text/plain"));
    metadata.offer(String::from("image/png"));
    assert!(metadata.offers(&String::from("text/plain")));
    assert!(metadata.offers(&String::from("image/png")));
    assert!(!metadata.offers(&String::from("image/jpeg")));
    assert!(!metadata.offers(&String::from("")));
}
