//! The steps of accepting a connection behind a proxy.
//!
//! First the header is read, within a time limit. Then the inner acceptor takes the stream, from
//! which the header is gone, and the service. What it makes of them is handed out, with the service
//! wrapped to forward the client address. [`AcceptState`] decides what to do as these two
//! operations are polled; whoever owns them does the polling.
use crate::address::ClientAddress;
use crate::forward::ForwardClientIp;
use vstd::prelude::*;

verus! {

/// The state of accepting a connection.
pub enum AcceptState<S> {
    /// The header is being read; `service` waits for the inner acceptor.
    ReadHeader { service: S },
    /// The inner acceptor is at work; the header gave this client address.
    ForwardIp { client_address: Option<ClientAddress> },
}

/// What polling the read of the header brought.
pub enum HeaderEvent<I, E, T> {
    /// It is not done yet.
    Pending,
    /// The header was read from the stream.
    Read { stream: I, client_address: Option<ClientAddress> },
    /// It failed.
    Failed(E),
    /// It took too long.
    TimedOut(T),
}

/// What to do after polling the read of the header.
pub enum HeaderAction<I, S, E, T> {
    /// Wait for it.
    Wait,
    /// Give the stream and the service to the inner acceptor, and poll that.
    Accept { stream: I, service: S },
    /// Give up with this error.
    Fail(E),
    /// Give up because the time is up.
    TimeOut(T),
}

/// What polling the inner acceptor brought.
pub enum AcceptEvent<I, S, E> {
    /// It is not done yet.
    Pending,
    /// It accepted the connection.
    Accepted { stream: I, service: S },
    /// It failed.
    Failed(E),
}

/// What to do after polling the inner acceptor.
pub enum AcceptAction<I, S, E> {
    /// Wait for it.
    Wait,
    /// Hand out the stream and the service.
    Complete { stream: I, service: ForwardClientIp<S> },
    /// Give up with this error.
    Fail(E),
}

/// The state and the action that follow on polling the read of the header.
pub open spec fn after_header<S, I, E, T>(service: S, event: HeaderEvent<I, E, T>) -> (
    AcceptState<S>,
    HeaderAction<I, S, E, T>,
) {
    match event {
        HeaderEvent::Pending => (AcceptState::ReadHeader { service }, HeaderAction::Wait),
        HeaderEvent::Read { stream, client_address } => (
            AcceptState::ForwardIp { client_address },
            HeaderAction::Accept { stream, service },
        ),
        HeaderEvent::Failed(e) => (AcceptState::ReadHeader { service }, HeaderAction::Fail(e)),
        HeaderEvent::TimedOut(t) => (AcceptState::ReadHeader { service }, HeaderAction::TimeOut(t)),
    }
}

/// The action that follows on polling the inner acceptor.
pub open spec fn after_accept<I, S, E>(
    client_address: Option<ClientAddress>,
    event: AcceptEvent<I, S, E>,
) -> AcceptAction<I, S, E> {
    match event {
        AcceptEvent::Pending => AcceptAction::Wait,
        AcceptEvent::Accepted { stream, service } => AcceptAction::Complete {
            stream,
            service: ForwardClientIp { inner: service, client_address },
        },
        AcceptEvent::Failed(e) => AcceptAction::Fail(e),
    }
}

impl<S> AcceptState<S> {
    /// Starts accepting a connection for a service.
    pub fn new(service: S) -> (state: Self)
        ensures
            state == (AcceptState::ReadHeader { service }),
    {
        AcceptState::ReadHeader { service }
    }
}

/// Takes what polling the read of the header brought, for a service that waits, and says what
/// follows. A header that was not read leaves the service in the state.
pub fn header_polled<S, I, E, T>(service: S, event: HeaderEvent<I, E, T>) -> (next: (
    AcceptState<S>,
    HeaderAction<I, S, E, T>,
))
    ensures
        next == after_header(service, event),
{
    match event {
        HeaderEvent::Pending => (AcceptState::ReadHeader { service }, HeaderAction::Wait),
        HeaderEvent::Read { stream, client_address } => (
            AcceptState::ForwardIp { client_address },
            HeaderAction::Accept { stream, service },
        ),
        HeaderEvent::Failed(e) => (AcceptState::ReadHeader { service }, HeaderAction::Fail(e)),
        HeaderEvent::TimedOut(t) => (AcceptState::ReadHeader { service }, HeaderAction::TimeOut(t)),
    }
}

/// Takes what polling the inner acceptor brought, for a client address, and says what to do.
pub fn accept_polled<I, S, E>(
    client_address: Option<ClientAddress>,
    event: AcceptEvent<I, S, E>,
) -> (action: AcceptAction<I, S, E>)
    ensures
        action == after_accept(client_address, event),
{
    match event {
        AcceptEvent::Pending => AcceptAction::Wait,
        AcceptEvent::Accepted { stream, service } => AcceptAction::Complete {
            stream,
            service: ForwardClientIp { inner: service, client_address },
        },
        AcceptEvent::Failed(e) => AcceptAction::Fail(e),
    }
}

} // verus!
