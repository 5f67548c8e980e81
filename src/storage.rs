//! The interface to the configuration store, and the errors it reports.

use vstd::prelude::*;

verus! {

/// What a store holds: a value for each key that was set.
pub type Contents = Map<Seq<char>, serde_json::Value>;

/// The value stored at `key`, if any.
pub open spec fn lookup(m: Contents, key: Seq<char>) -> Option<serde_json::Value> {
    if m.contains_key(key) {
        Some(m[key])
    } else {
        None
    }
}

/// Tells whether an error is fatal: whether all future operations will very
/// likely fail too, so that the server should stop.
pub trait IsFatalError {
    /// Whether the error is fatal.
    spec fn fatal(&self) -> bool;

    /// Returns `true` if all future operations will (very likely) fail.
    fn is_fatal(&self) -> (r: bool)
        ensures
            r == self.fatal(),
    ;
}

/// A place where the configuration is kept. Implement it to store the
/// configuration in a new way.
pub trait Storage {
    /// Error which may occur when writing to the storage.
    type SetError: IsFatalError;
    /// Error which may occur when reading from the storage.
    type GetError: IsFatalError;

    /// The values the storage holds, by key.
    spec fn contents(&self) -> Contents;

    /// The storage's own invariant, which every operation keeps.
    spec fn wf(&self) -> bool;

    /// Whether reads of this storage never fail; every operation keeps it.
    spec fn reads_infallible(&self) -> bool;

    /// Stores `value` for `key`. On failure no other key changes.
    fn set(&mut self, key: String, value: serde_json::Value) -> (r: Result<(), Self::SetError>)
        requires
            old(self).wf(),
        ensures
            final(self).wf(),
            final(self).reads_infallible() == old(self).reads_infallible(),
            r is Ok ==> final(self).contents() == old(self).contents().insert(key@, value),
            r is Err ==> final(self).contents().remove(key@) == old(self).contents().remove(key@),
    ;

    /// The value at `key`, `None` if there is none, or an error.
    fn get(&mut self, key: &String) -> (r: Result<Option<serde_json::Value>, Self::GetError>)
        requires
            old(self).wf(),
        ensures
            final(self).wf(),
            final(self).reads_infallible() == old(self).reads_infallible(),
            old(self).reads_infallible() ==> r is Ok,
            final(self).contents() == old(self).contents(),
            r is Ok ==> r->Ok_0 == lookup(old(self).contents(), key@),
    ;
}

/// Error of a storage that is shared behind a lock.
pub enum SyncOpResult<T> {
    /// The lock was poisoned: a holder panicked.
    Poisoned,
    /// The underlying storage failed.
    Other(T),
}

impl<T: IsFatalError> IsFatalError for SyncOpResult<T> {
    open spec fn fatal(&self) -> bool {
        match self {
            SyncOpResult::Poisoned => true,
            SyncOpResult::Other(err) => err.fatal(),
        }
    }

    fn is_fatal(&self) -> (r: bool) {
        match self {
            SyncOpResult::Poisoned => true,
            SyncOpResult::Other(err) => err.is_fatal(),
        }
    }
}


/// Declares `void::Void`, the read error of a store whose reads never fail.
#[verifier::external_type_specification]
#[verifier::external_body]
pub struct ExVoid(void::Void);

/// A `void::Void` error never exists, so no call ever asks it.
impl IsFatalError for void::Void {
    open spec fn fatal(&self) -> bool {
        true
    }

    fn is_fatal(&self) -> (r: bool) {
        true
    }
}

impl<T: Storage> Storage for Box<T> {
    type SetError = T::SetError;
    type GetError = T::GetError;

    open spec fn contents(&self) -> Contents {
        (**self).contents()
    }

    open spec fn wf(&self) -> bool {
        (**self).wf()
    }

    open spec fn reads_infallible(&self) -> bool {
        (**self).reads_infallible()
    }

    fn set(&mut self, key: String, value: serde_json::Value) -> (r: Result<(), Self::SetError>) {
        (**self).set(key, value)
    }

    fn get(&mut self, key: &String) -> (r: Result<Option<serde_json::Value>, Self::GetError>) {
        (**self).get(key)
    }
}

} // verus!
