//! A byte proxy between TCP clients and a serial channel: which client to serve,
//! and what to do with what either side has to say.
use crate::error::Error;
use vstd::prelude::*;

verus! {

/// What became of the proxy's last action.
#[derive(Debug)]
pub enum ProxyEvent {
    /// The client sent bytes; none at all means that it hung up.
    FromClient(Result<Vec<u8>, Error>),
    /// The serial channel has bytes.
    FromSerial(Result<Vec<u8>, Error>),
    /// The bytes were passed on, or could not be.
    Written(Result<(), Error>),
}

/// What the proxy wants done next.
#[derive(Debug)]
pub enum ProxyAction {
    /// Wait for bytes from either side.
    Listen,
    ToSerial(Vec<u8>),
    ToClient(Vec<u8>),
    /// The client is done with.
    Finish(Result<(), Error>),
}

/// What the proxy does next, given what became of its last action.
pub open spec fn proxy_next(event: ProxyEvent) -> ProxyAction {
    match event {
        ProxyEvent::FromClient(Ok(bytes)) => if bytes@.len() == 0 {
            ProxyAction::Finish(Ok(()))
        } else {
            ProxyAction::ToSerial(bytes)
        },
        ProxyEvent::FromSerial(Ok(bytes)) => ProxyAction::ToClient(bytes),
        ProxyEvent::Written(Ok(_)) => ProxyAction::Listen,
        ProxyEvent::FromClient(Err(error)) => ProxyAction::Finish(Err(error)),
        ProxyEvent::FromSerial(Err(error)) => ProxyAction::Finish(Err(error)),
        ProxyEvent::Written(Err(error)) => ProxyAction::Finish(Err(error)),
    }
}

/// Passes on what one side sends to the other until the client hangs up or
/// something fails.
pub fn proxy_client(event: ProxyEvent) -> (action: ProxyAction)
    ensures
        action == proxy_next(event),
        match event {
            ProxyEvent::FromClient(Ok(bytes)) => if bytes@.len() == 0 {
                action == ProxyAction::Finish(Ok(()))
            } else {
                action == ProxyAction::ToSerial(bytes)
            },
            ProxyEvent::FromSerial(Ok(bytes)) => action == ProxyAction::ToClient(bytes),
            ProxyEvent::Written(Ok(_)) => action == ProxyAction::Listen,
            ProxyEvent::FromClient(Err(error)) => action == ProxyAction::Finish(Err(error)),
            ProxyEvent::FromSerial(Err(error)) => action == ProxyAction::Finish(Err(error)),
            ProxyEvent::Written(Err(error)) => action == ProxyAction::Finish(Err(error)),
        },
{
    match event {
        ProxyEvent::FromClient(Ok(bytes)) => {
            if bytes.len() == 0 {
                ProxyAction::Finish(Ok(()))
            } else {
                ProxyAction::ToSerial(bytes)
            }
        },
        ProxyEvent::FromSerial(Ok(bytes)) => ProxyAction::ToClient(bytes),
        ProxyEvent::Written(Ok(_)) => ProxyAction::Listen,
        ProxyEvent::FromClient(Err(error)) => ProxyAction::Finish(Err(error)),
        ProxyEvent::FromSerial(Err(error)) => ProxyAction::Finish(Err(error)),
        ProxyEvent::Written(Err(error)) => ProxyAction::Finish(Err(error)),
    }
}

/// What became of the server's last action.
#[derive(Debug)]
pub enum ServerEvent {
    /// A client was accepted, or none can be.
    Accepted(Result<(), Error>),
    /// The client that was served is done with.
    Served(Result<(), Error>),
}

/// What the server wants done next.
#[derive(Debug, Clone, Copy, PartialEq, Eq, Structural)]
pub enum ServerAction {
    /// Wait for a client.
    Accept,
    /// Serve the client that was accepted.
    Serve,
    /// There is no more to do.
    Stop,
}

/// Serves one client at a time, whatever becomes of it, until no more can be
/// accepted.
pub fn run_server(event: ServerEvent) -> (action: ServerAction)
    ensures
        action == (match event {
            ServerEvent::Accepted(Ok(_)) => ServerAction::Serve,
            ServerEvent::Accepted(Err(_)) => ServerAction::Stop,
            ServerEvent::Served(_) => ServerAction::Accept,
        }),
{
    match event {
        ServerEvent::Accepted(Ok(_)) => ServerAction::Serve,
        ServerEvent::Accepted(Err(_)) => ServerAction::Stop,
        ServerEvent::Served(_) => ServerAction::Accept,
    }
}

} // verus!
