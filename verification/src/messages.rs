//! Messages that cross the boundary between the client and the coordinator.

use vstd::prelude::*;
use crate::ids::CorrelationId;

verus! {

/// What a client asks the coordinator to do.
#[derive(Clone, Copy, Debug, PartialEq, Eq, Structural)]
pub enum RequestMessage {
    Heartbeat,
}

/// A client request, as it is handed to the synchronous call.
#[derive(Clone, Copy, Debug, PartialEq, Eq, Structural)]
pub struct Request {
    pub message: RequestMessage,
}

/// A request on its way across the boundary, with the correlation id under
/// which its results will be pushed back.
#[derive(Clone, Copy, Debug, PartialEq, Eq, Structural)]
pub struct Call {
    pub guid: CorrelationId,
    pub request: Request,
}

/// A result: the reply to a call, or the payload of a pushed emission.
#[derive(Clone, Debug, PartialEq, Eq)]
pub enum Response {
    /// The request with this correlation id was taken up.
    Ack(CorrelationId),
    /// An opaque, already serialized result of a process.
    LongRunner(String),
}

/// Mathematical value of a [`Response`].
pub enum ResponseView {
    Ack(CorrelationId),
    LongRunner(Seq<char>),
}

impl View for Response {
    type V = ResponseView;

    open spec fn view(&self) -> ResponseView {
        match self {
            Response::Ack(guid) => ResponseView::Ack(*guid),
            Response::LongRunner(text) => ResponseView::LongRunner(text@),
        }
    }
}

/// A pushed notification, independent of any synchronous reply.
#[derive(Clone, Debug, PartialEq, Eq)]
pub struct Emission {
    /// Correlation id of the request that caused it.
    pub guid: CorrelationId,
    pub message: Response,
}

/// Mathematical value of an [`Emission`].
pub struct EmissionView {
    pub guid: CorrelationId,
    pub message: ResponseView,
}

impl View for Emission {
    type V = EmissionView;

    open spec fn view(&self) -> EmissionView {
        EmissionView { guid: self.guid, message: self.message@ }
    }
}

/// The values of a sequence of emissions.
pub open spec fn views(emissions: Seq<Emission>) -> Seq<EmissionView> {
    emissions.map_values(|emission: Emission| emission@)
}

/// The event that carries an emission over the push channel.
#[derive(Clone, Debug, PartialEq, Eq)]
pub struct EmissionEvent {
    pub payload: Emission,
}

impl View for EmissionEvent {
    type V = EmissionView;

    open spec fn view(&self) -> EmissionView {
        self.payload@
    }
}

impl Response {
    /// An independent copy of this response.
    pub fn duplicate(&self) -> (copy: Response)
        ensures
            copy == *self,
    {
        match self {
            Response::Ack(guid) => Response::Ack(*guid),
            Response::LongRunner(text) => Response::LongRunner(text.clone()),
        }
    }
}

impl Emission {
    /// The emission that acknowledges the request `guid`.
    pub fn ack(guid: CorrelationId) -> (emission: Emission)
        ensures
            emission@ == (EmissionView { guid, message: ResponseView::Ack(guid) }),
    {
        Emission { guid, message: Response::Ack(guid) }
    }

    /// The emission that carries `payload`, a result of the request `guid`.
    pub fn result(guid: CorrelationId, payload: String) -> (emission: Emission)
        ensures
            emission@ == (EmissionView { guid, message: ResponseView::LongRunner(payload@) }),
            emission.message == Response::LongRunner(payload),
    {
        Emission { guid, message: Response::LongRunner(payload) }
    }
}

impl EmissionEvent {
    /// Wraps `payload` for the push channel.
    pub fn new(payload: Emission) -> (event: EmissionEvent)
        ensures
            event.payload == payload,
    {
        EmissionEvent { payload }
    }

    /// The emission that the event carries.
    pub fn into_emission(self) -> (emission: Emission)
        ensures
            emission == self.payload,
    {
        self.payload
    }
}

} // verus!
