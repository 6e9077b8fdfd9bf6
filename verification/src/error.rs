//! What a request to the broker can fail with.

use vstd::prelude::*;

verus! {

/// A request that a correct client never sends. The transport layer answers
/// it with a fatal protocol error and disconnects the client; the broker
/// itself carries on, its state untouched.
#[derive(Clone, Copy, Debug, PartialEq, Eq, Structural)]
pub enum ProtocolViolation {
    /// The request names a source that is not alive: it was destroyed, or
    /// never created.
    DeadSource,
    /// The request names a device that is not alive.
    DeadDevice,
    /// The request names a source that belongs to another client.
    ForeignSource,
}

/// A lookup was made through a handle that carries no source data.
#[derive(Clone, Copy, Debug, PartialEq, Eq, Structural)]
pub struct UnmanagedResource;

/// A query was made through an offer whose source no longer holds the
/// selection, or whose device is gone.
#[derive(Clone, Copy, Debug, PartialEq, Eq, Structural)]
pub struct StaleOffer;

/// Why a transfer through an offer is not authorized.
#[derive(Clone, Copy, Debug, PartialEq, Eq, Structural)]
pub enum TransferDenied {
    /// The offer is stale.
    StaleOffer,
    /// The source behind the offer does not advertise the MIME type that
    /// was asked for.
    NotOffered,
}

} // verus!
