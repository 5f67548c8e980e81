//! The messages exchanged between a client and the server.

use vstd::prelude::*;

verus! {

/// Request sent from a client to the server.
pub enum Request<Val> {
    /// Sets the value of `key` to `value`.
    SetValue { key: String, value: Val },
    /// Asks for the value of `key`; a `Value` response follows.
    Get { key: String },
    /// Asks for notifications whenever `key` changes. With `notify_now` the
    /// current value is sent at once, before the response.
    Subscribe { key: String, notify_now: bool },
    /// Stops the notifications for `key`.
    Unsubscribe { key: String },
}

/// Response or notification sent to a client.
pub enum Response<Val> {
    /// The value of a key.
    Value { key: String, value: Val },
    /// The operation was performed.
    OperationOk,
    /// The operation failed.
    OperationFailed,
    /// The operation did not have to be performed: the client was already
    /// subscribed, or was not subscribed.
    Ignored,
}

} // verus!
