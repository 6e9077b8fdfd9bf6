//! Data sources: one client's offer of data for a seat's selection, and the
//! metadata that describes what it offers.

use vstd::prelude::*;

use crate::broker::Broker;
use crate::device::Notification;
use crate::error::ProtocolViolation;
use crate::ids::{ClientId, SourceId};

verus! {

/// The metadata describing a data source
#[derive(Debug)]
pub struct Metadata {
    /// The MIME types supported by this source
    pub mime_types: Vec<String>,
}

impl View for Metadata {
    type V = Seq<Seq<char>>;

    /// The offered MIME types, in the order in which they were offered.
    open spec fn view(&self) -> Seq<Seq<char>> {
        self.mime_types@.map_values(|s: String| s@)
    }
}

impl Metadata {
    /// Metadata that offers nothing yet.
    pub fn new() -> (metadata: Self)
        ensures
            metadata@ == Seq::<Seq<char>>::empty(),
    {
        Metadata { mime_types: Vec::new() }
    }

    /// Whether `mime_type` is among the offered MIME types.
    pub fn offers(&self, mime_type: &String) -> (offered: bool)
        ensures
            offered == self@.contains(mime_type@),
    {
        let mut i: usize = 0;
        while i < self.mime_types.len()
            invariant
                i <= self.mime_types.len(),
                forall|k: int| 0 <= k < i ==> self@[k] != mime_type@,
            decreases self.mime_types.len() - i,
        {
            if self.mime_types[i] == *mime_type {
                assert(self@[i as int] == mime_type@);
                return true;
            }
            i += 1;
        }
        false
    }

    /// Appends one MIME type. Duplicates are kept: the list records every
    /// offer in order.
    pub fn offer(&mut self, mime_type: String)
        ensures
            final(self)@ == old(self)@.push(mime_type@),
    {
        self.mime_types.push(mime_type);
    }
}

impl Default for Metadata {
    fn default() -> (metadata: Self)
        ensures
            metadata@ == Seq::<Seq<char>>::empty(),
    {
        Metadata::new()
    }
}

impl Clone for Metadata {
    fn clone(&self) -> (copy: Self)
        ensures
            copy@ == self@,
    {
        let mut mime_types: Vec<String> = Vec::new();
        let mut i: usize = 0;
        while i < self.mime_types.len()
            invariant
                i <= self.mime_types.len(),
                mime_types@ == self.mime_types@.take(i as int),
            decreases self.mime_types.len() - i,
        {
            mime_types.push(self.mime_types[i].clone());
            i += 1;
        }
        Metadata { mime_types }
    }
}

/// A live data source, as the broker records it.
#[derive(Debug)]
pub struct Source {
    /// The name the broker gave this source.
    pub id: SourceId,
    /// The client that created the source and alone may use it.
    pub client: ClientId,
    /// What the source offers so far.
    pub metadata: Metadata,
}

/// What a source is, mathematically.
pub struct SourceView {
    pub id: SourceId,
    pub client: ClientId,
    pub mime_types: Seq<Seq<char>>,
}

impl SourceView {
    /// This source after one more MIME type was offered.
    pub open spec fn offered(self, mime_type: Seq<char>) -> SourceView {
        SourceView { mime_types: self.mime_types.push(mime_type), ..self }
    }
}

impl View for Source {
    type V = SourceView;

    open spec fn view(&self) -> SourceView {
        SourceView { id: self.id, client: self.client, mime_types: self.metadata@ }
    }
}

impl Source {
    /// A fresh source of `client` that offers nothing yet.
    pub fn new(id: SourceId, client: ClientId) -> (source: Self)
        ensures
            source@ == (SourceView { id, client, mime_types: Seq::empty() }),
    {
        Source { id, client, metadata: Metadata::new() }
    }
}

/// Which sources die.
#[derive(Clone, Copy, Debug, PartialEq, Eq, Structural)]
pub enum Demise {
    /// The one source of this name.
    Source(SourceId),
    /// Every source of this client.
    Client(ClientId),
}

impl Demise {
    /// Whether `source` stays alive.
    pub open spec fn spares(self, source: SourceView) -> bool {
        match self {
            Demise::Source(id) => source.id != id,
            Demise::Client(client) => source.client != client,
        }
    }

    /// `spares`, as a predicate to filter with.
    pub open spec fn surviving(self) -> spec_fn(SourceView) -> bool {
        |source: SourceView| self.spares(source)
    }

    /// Whether `source` stays alive.
    pub fn keeps(&self, source: &Source) -> (stays: bool)
        ensures
            stays == self.spares(source@),
    {
        match self {
            Demise::Source(id) => source.id != *id,
            Demise::Client(client) => source.client != *client,
        }
    }
}

/// What a client can ask of one of its sources.
#[derive(Debug)]
pub enum Request {
    /// Add a MIME type to what the source offers.
    Offer { mime_type: String },
    /// Destroy the source.
    Destroy,
}

/// Handles `asked`, a request made of the source named `source`, and says what is to
/// be told to whom. An offer tells nobody; a destroy tells the devices of
/// each seat whose selection the source held.
pub fn request(broker: &mut Broker, source: SourceId, asked: Request) -> (done: Result<
    Vec<Notification>,
    ProtocolViolation,
>)
    requires
        old(broker).wf(),
    ensures
        final(broker).wf(),
        match done {
            Ok(notifications) => old(broker)@.has_source(source) && match asked {
                Request::Offer { mime_type } => final(broker)@ == old(broker)@.offered(
                    source,
                    mime_type@,
                ) && notifications@ == Seq::<Notification>::empty(),
                Request::Destroy => final(broker)@ == old(broker)@.without_source(source)
                    && notifications@ == old(broker)@.obituaries(source),
            },
            Err(violation) => violation == ProtocolViolation::DeadSource && !old(
                broker,
            )@.has_source(source) && final(broker)@ == old(broker)@,
        },
{
    match asked {
        Request::Offer { mime_type } => match broker.offer(source, mime_type) {
            Ok(()) => Ok(Vec::new()),
            Err(violation) => Err(violation),
        },
        Request::Destroy => broker.destroy_source(source),
    }
}

} // verus!
