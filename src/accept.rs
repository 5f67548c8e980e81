//! The decisions of the accept loop: what becomes of the server when a
//! client could not be handed to the executor, or when it is stopping.

use vstd::prelude::*;

verus! {

/// Error that ends the server.
pub enum HandlingError<E> {
    /// Accepting a connection failed.
    AcceptError(E),
    /// The server is stopping.
    Shutdown,
}

/// Marks a server that writes no log.
pub struct DiscardLogs;

/// What became of the attempt to run a new session.
pub enum Spawn {
    /// The session runs.
    Started,
    /// The executor had no room for it.
    NoCapacity,
    /// The executor failed in another way.
    Failed,
}

/// Whether the accept loop goes on after a spawn: a session that found no
/// room is dropped and the loop goes on; any other executor failure ends the
/// server with `Shutdown`.
pub fn after_spawn<E>(outcome: Spawn) -> (r: Result<(), HandlingError<E>>)
    ensures
        match outcome {
            Spawn::Failed => r is Err && r->Err_0 is Shutdown,
            _ => r is Ok,
        },
{
    match outcome {
        Spawn::Started => Ok(()),
        Spawn::NoCapacity => Ok(()),
        Spawn::Failed => Err(HandlingError::Shutdown),
    }
}

} // verus!
