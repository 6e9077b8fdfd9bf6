//! The manager: the entry point that one client connection binds once, and
//! the factory of that client's sources and devices.

use vstd::prelude::*;

use crate::broker::Broker;
use crate::ids::{ClientId, DeviceId, SeatId, SourceId};

verus! {

/// What a client can ask of its manager.
#[derive(Clone, Copy, Debug, PartialEq, Eq, Structural)]
pub enum Request {
    /// Create a data source.
    CreateDataSource,
    /// Bind a data device to the seat that the handle `seat` stands for.
    GetDataDevice { seat: SeatId },
    /// Release the manager.
    Destroy,
}

/// What became of a request made of a manager.
#[derive(Clone, Copy, Debug, PartialEq, Eq, Structural)]
pub enum Reply {
    /// The source that was created.
    Source(SourceId),
    /// The device that was bound.
    Device(DeviceId),
    /// The seat handle stands for no registered seat. Nothing was done and
    /// no object was made: a client that misbehaves, not a fatal error.
    UnmanagedSeat,
    /// The manager was released. What it had created lives on.
    Destroyed,
}

/// The manager that a client connection has bound.
#[derive(Clone, Copy, Debug, PartialEq, Eq, Structural)]
pub struct Manager {
    client: ClientId,
}

impl View for Manager {
    type V = ClientId;

    /// The client that bound the manager.
    closed spec fn view(&self) -> ClientId {
        self.client
    }
}

impl Manager {
    /// The manager that `client` gets when it binds the global.
    pub fn bind(client: ClientId) -> (manager: Self)
        ensures
            manager@ == client,
    {
        Manager { client }
    }

    /// The client that bound the manager.
    pub fn client(&self) -> (client: ClientId)
        ensures
            client == self@,
    {
        self.client
    }

    /// Handles `request` on behalf of the manager's client.
    pub fn request(&self, broker: &mut Broker, request: Request) -> (reply: Reply)
        requires
            old(broker).wf(),
            !(request is Destroy) ==> old(broker)@.next_id < u64::MAX,
        ensures
            final(broker).wf(),
            match request {
                Request::CreateDataSource => reply == Reply::Source(old(broker)@.next_source())
                    && final(broker)@ == old(broker)@.with_source(self@),
                Request::GetDataDevice { seat } => if old(broker)@.has_seat(seat) {
                    reply == Reply::Device(old(broker)@.next_device()) && final(broker)@ == old(
                        broker,
                    )@.with_device(self@, seat)
                } else {
                    reply == Reply::UnmanagedSeat && final(broker)@ == old(broker)@
                },
                Request::Destroy => reply == Reply::Destroyed && final(broker)@ == old(broker)@,
            },
    {
        match request {
            Request::CreateDataSource => Reply::Source(broker.create_source(self.client)),
            Request::GetDataDevice { seat } => match broker.get_device(self.client, seat) {
                Some(device) => Reply::Device(device),
                None => Reply::UnmanagedSeat,
            },
            Request::Destroy => Reply::Destroyed,
        }
    }
}

} // verus!
