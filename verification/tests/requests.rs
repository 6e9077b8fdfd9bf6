use selection_broker::broker::Broker;
use selection_broker::device::Device;
use selection_broker::ids::{ClientId, DeviceId, SeatId, SourceId};
use selection_broker::manager::{Manager, Reply, Request};
use selection_broker::seat_data::Selection;

const C1: ClientId = ClientId(1);
const C2: ClientId = ClientId(2);
const S1: SeatId = SeatId(10);
const S2: SeatId = SeatId(20);

#[test]
fn a_manager_is_bound_to_its_client() {
    assert_eq!(Manager::bind(C1).client(), C1);
    assert_ne!(Manager::bind(C1), Manager::bind(C2));
}

#[test]
fn a_manager_creates_sources_for_its_client() {
    let mut broker = Broker::new();
    let manager = Manager::bind(C2);
    assert_eq!(
        manager.request(&mut broker, Request::CreateDataSource),
        Reply::Source(SourceId(0))
    );
    assert_eq!(
        manager.request(&mut broker, Request::CreateDataSource),
        Reply::Source(SourceId(1))
    );
    assert_eq!(broker.source(SourceId(0)).unwrap().client, C2);
    assert_eq!(broker.source(SourceId(1)).unwrap().client, C2);
    assert!(broker.source(SourceId(1)).unwrap().metadata.mime_types.is_empty());
}

#[test]
fn a_manager_binds_devices_to_registered_seats() {
    let mut broker = Broker::new();
    broker.add_seat(S1);
    let manager = Manager::bind(C1);
    assert_eq!(
        manager.request(&mut broker, Request::GetDataDevice { seat: S1 }),
        Reply::Device(DeviceId(0))
    );
    assert_eq!(
        broker.devices(S1),
        Some(vec![Device { id: DeviceId(0), client: C1, seat: S1 }])
    );
    assert_eq!(broker.selection(S1), Some(Selection::Empty));
}

#[test]
fn a_manager_ignores_a_seat_it_does_not_know() {
    let mut broker = Broker::new();
    broker.add_seat(S1);
    let manager = Manager::bind(C1);
    assert_eq!(
        manager.request(&mut broker, Request::GetDataDevice { seat: S2 }),
        Reply::UnmanagedSeat
    );
    assert_eq!(broker.devices(S1), Some(vec![]));
    assert!(!broker.has_seat(S2));
    // No name was spent on the request.
    assert_eq!(
        manager.request(&mut broker, Request::CreateDataSource),
        Reply::Source(SourceId(0))
    );
}

#[test]
fn destroying_a_manager_leaves_what_it_made() {
    let mut broker = Broker::new();
    broker.add_seat(S1);
    let manager = Manager::bind(C1);
    manager.request(&mut broker, Request::CreateDataSource);
    manager.request(&mut broker, Request::GetDataDevice { seat: S1 });
    assert_eq!(manager.request(&mut broker, Request::Destroy), Reply::Destroyed);
    assert!(broker.alive(SourceId(0)));
    assert!(broker.device(DeviceId(1)).is_some());
}
