//! The client side: a connection to the server, and what its answers mean.

use crate::proto::Response;
use vstd::prelude::*;

verus! {

/// Error returned when the protocol fails.
pub enum ProtocolError<E> {
    /// The response to the message was not the one expected.
    UnexpectedResponse,
    /// The stream ended before a message could be fully decoded.
    UnexpectedEof,
    /// The underlying communication failed, e.g. with an I/O error.
    Communication(E),
}

/// A connection to the server, through which the shared configuration is
/// read, changed and watched.
pub struct Client<C> {
    connection: C,
}

impl<C> Client<C> {
    /// The connection the client talks through.
    pub closed spec fn connection_spec(&self) -> C {
        self.connection
    }

    /// A client that talks through `connection`, a stream of responses and a
    /// sink of requests.
    pub fn custom(connection: C) -> (r: Self)
        ensures
            r.connection_spec() == connection,
    {
        Client { connection }
    }

    /// Gives the connection back.
    pub fn into_connection(self) -> (r: C)
        ensures
            r == self.connection_spec(),
    {
        self.connection
    }
}

/// What the answer to a `Get` means: the value it carries, an end of stream
/// where none came, or an unexpected response.
pub fn get_result<Val, E>(answer: Option<Response<Val>>) -> (r: Result<Val, ProtocolError<E>>)
    ensures
        match answer {
            Some(Response::Value { key: _, value }) => r == Ok::<Val, ProtocolError<E>>(value),
            Some(_) => r is Err && r->Err_0 is UnexpectedResponse,
            None => r is Err && r->Err_0 is UnexpectedEof,
        },
{
    match answer {
        Some(Response::Value { key: _, value }) => Ok(value),
        None => Err(ProtocolError::UnexpectedEof),
        Some(_) => Err(ProtocolError::UnexpectedResponse),
    }
}

/// The (key, value) that a message received while listening carries, if it
/// is a notification; responses to requests carry none.
pub fn notification<Val>(message: Response<Val>) -> (r: Option<(String, Val)>)
    ensures
        match message {
            Response::Value { key, value } => r == Some((key, value)),
            _ => r is None,
        },
{
    match message {
        Response::Value { key, value } => Some((key, value)),
        _ => None,
    }
}

} // verus!
