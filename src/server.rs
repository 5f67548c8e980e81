//! The server's state and the handling of each client request.
//!
//! A `Server` holds the storage, the subscription registry and one mailbox
//! per connected session. Handling a request updates them and returns the
//! direct response; notifications go to the mailboxes of the sessions they
//! are meant for, in the order they were made. The code that owns the
//! connections writes each session's mailbox and responses to its client.

use crate::json::{copy_value, is_json_null, null_value};
use crate::proto::{Request, Response};
use crate::registry::Subscriptions;
use crate::storage::{lookup, Contents, IsFatalError, Storage};
use std::collections::HashMap;
use vstd::prelude::*;

verus! {

broadcast use vstd::std_specs::hash::group_hash_axioms;

/// A response or notification carrying a JSON value.
pub type Message = Response<serde_json::Value>;

/// `m` gives the value found at `key`: the stored value, or JSON null where
/// nothing is stored.
pub open spec fn answers(m: Message, key: Seq<char>, found: Option<serde_json::Value>) -> bool {
    &&& m is Value
    &&& m->Value_key@ == key
    &&& match found {
        Some(v) => m->Value_value == v,
        None => is_json_null(m->Value_value),
    }
}

/// `new` is `old` with one message added at its end, and that message gives
/// the value found at `key`.
pub open spec fn appended(new: Seq<Message>, old: Seq<Message>, key: Seq<char>, found: Option<serde_json::Value>) -> bool {
    &&& new.len() == old.len() + 1
    &&& new.drop_last() == old
    &&& answers(new.last(), key, found)
}

/// Each mailbox of `targets` got one message giving the value found at `key`;
/// the other mailboxes did not change, and no mailbox came or went.
pub open spec fn delivered(
    old: Map<u64, Seq<Message>>,
    new: Map<u64, Seq<Message>>,
    targets: Set<u64>,
    key: Seq<char>,
    found: Option<serde_json::Value>,
) -> bool {
    &&& new.dom() == old.dom()
    &&& forall|id: u64| #[trigger]
        old.contains_key(id) ==> if targets.contains(id) {
            appended(new[id], old[id], key, found)
        } else {
            new[id] == old[id]
        }
}

/// The response to a subscription of `session` to `key`, given the
/// subscriptions before it: `OperationOk` when it is new, `Ignored` when it
/// existed.
pub open spec fn subscribe_answer(subs: Set<(Seq<char>, u64)>, key: Seq<char>, session: u64) -> Message {
    if subs.contains((key, session)) {
        Message::Ignored
    } else {
        Message::OperationOk
    }
}

/// The response to an unsubscription of `session` from `key`, given the
/// subscriptions before it: `OperationOk` when it existed, `Ignored` when
/// it did not.
pub open spec fn unsubscribe_answer(subs: Set<(Seq<char>, u64)>, key: Seq<char>, session: u64) -> Message {
    if subs.contains((key, session)) {
        Message::OperationOk
    } else {
        Message::Ignored
    }
}

/// The response to a read of `key` that found `found`: its value, or JSON
/// null where nothing is stored.
pub fn value_response(key: String, found: Option<serde_json::Value>) -> (r: Message)
    ensures
        answers(r, key@, found),
        r->Value_key == key,
{
    match found {
        Some(value) => Message::Value { key, value },
        None => Message::Value { key, value: null_value() },
    }
}

/// The shared state of a running server.
pub struct Server<S: Storage> {
    storage: S,
    subscriptions: Subscriptions,
    mailboxes: HashMap<u64, Vec<Message>>,
    next_session: u64,
    shutdown: bool,
}

impl<S: Storage> Server<S> {
    /// What the storage holds.
    pub closed spec fn contents(&self) -> Contents {
        self.storage.contents()
    }

    /// The subscriptions, as (key, session) pairs.
    pub closed spec fn subscriptions(&self) -> Set<(Seq<char>, u64)> {
        self.subscriptions@
    }

    /// The undelivered messages of each connected session, oldest first.
    pub closed spec fn mailboxes(&self) -> Map<u64, Seq<Message>> {
        self.mailboxes@.map_values(|q: Vec<Message>| q@)
    }

    /// The sessions subscribed to `key`.
    pub closed spec fn subscribers_of(&self, key: Seq<char>) -> Set<u64> {
        self.subscriptions.subscribers_of(key)
    }

    /// How many session identities were given out: the next one is this
    /// number.
    pub closed spec fn issued(&self) -> u64 {
        self.next_session
    }

    /// Whether reads of the storage never fail.
    pub closed spec fn reads_infallible(&self) -> bool {
        self.storage.reads_infallible()
    }

    /// Whether a fatal storage error asked the server to stop.
    pub closed spec fn stopping(&self) -> bool {
        self.shutdown
    }

    /// Subscriptions name connected sessions only, and every session got an
    /// identity that is never given out again.
    pub closed spec fn wf(&self) -> bool {
        &&& self.storage.wf()
        &&& self.subscriptions.wf()
        &&& forall|p: (Seq<char>, u64)| #[trigger]
            self.subscriptions@.contains(p) ==> self.mailboxes@.contains_key(p.1)
        &&& forall|id: u64| #[trigger] self.mailboxes@.contains_key(id) ==> id < self.next_session
    }

    /// A server over `storage`, with no session yet.
    pub fn new(storage: S) -> (r: Self)
        requires
            storage.wf(),
        ensures
            r.wf(),
            r.contents() == storage.contents(),
            r.subscriptions() == Set::<(Seq<char>, u64)>::empty(),
            r.mailboxes() == Map::<u64, Seq<Message>>::empty(),
            r.reads_infallible() == storage.reads_infallible(),
            r.issued() == 0,
            !r.stopping(),
    {
        let r = Server {
            storage,
            subscriptions: Subscriptions::new(),
            mailboxes: HashMap::new(),
            next_session: 0,
            shutdown: false,
        };
        assert(r.mailboxes() =~= Map::<u64, Seq<Message>>::empty());
        r
    }

    /// Whether a fatal storage error asked the server to stop.
    pub fn shutdown_requested(&self) -> (r: bool)
        ensures
            r == self.stopping(),
    {
        self.shutdown
    }

    /// Whether `session` is connected.
    pub fn is_connected(&self, session: u64) -> (r: bool)
        ensures
            r == self.mailboxes().contains_key(session),
    {
        self.mailboxes.contains_key(&session)
    }

    /// Opens a session with a fresh identity and an empty mailbox; `None`
    /// once every identity has been given out.
    pub fn connect(&mut self) -> (r: Option<u64>)
        requires
            old(self).wf(),
        ensures
            final(self).wf(),
            final(self).contents() == old(self).contents(),
            final(self).subscriptions() == old(self).subscriptions(),
            final(self).stopping() == old(self).stopping(),
            final(self).reads_infallible() == old(self).reads_infallible(),
            r is None <==> old(self).issued() == u64::MAX,
            match r {
                Some(id) => {
                    &&& id == old(self).issued()
                    &&& final(self).issued() == id + 1
                    &&& !old(self).mailboxes().contains_key(id)
                    &&& final(self).mailboxes() == old(self).mailboxes().insert(id, Seq::<Message>::empty())
                },
                None => final(self).mailboxes() == old(self).mailboxes() && final(self).issued() == old(self).issued(),
            },
    {
        if self.next_session == u64::MAX {
            return None;
        }
        let id = self.next_session;
        self.mailboxes.insert(id, Vec::new());
        self.next_session = id + 1;
        assert(self.mailboxes() =~= old(self).mailboxes().insert(id, Seq::<Message>::empty()));
        Some(id)
    }

    /// Ends `session`: drops every subscription of it, then its mailbox.
    pub fn disconnect(&mut self, session: u64)
        requires
            old(self).wf(),
        ensures
            final(self).wf(),
            final(self).contents() == old(self).contents(),
            final(self).subscriptions() == old(self).subscriptions().filter(
                |p: (Seq<char>, u64)| p.1 != session,
            ),
            forall|k: Seq<char>| !final(self).subscriptions().contains((k, session)),
            final(self).mailboxes() == old(self).mailboxes().remove(session),
            final(self).stopping() == old(self).stopping(),
            final(self).issued() == old(self).issued(),
            final(self).reads_infallible() == old(self).reads_infallible(),
    {
        self.subscriptions.unsubscribe_all(session);
        self.mailboxes.remove(&session);
        assert(self.mailboxes() =~= old(self).mailboxes().remove(session));
    }

    /// Hands out the messages waiting for `session`, oldest first, and
    /// empties its mailbox.
    pub fn take_messages(&mut self, session: u64) -> (r: Vec<Message>)
        requires
            old(self).wf(),
            old(self).mailboxes().contains_key(session),
        ensures
            final(self).wf(),
            r@ == old(self).mailboxes()[session],
            final(self).mailboxes() == old(self).mailboxes().insert(session, Seq::<Message>::empty()),
            final(self).contents() == old(self).contents(),
            final(self).subscriptions() == old(self).subscriptions(),
            final(self).stopping() == old(self).stopping(),
            final(self).issued() == old(self).issued(),
            final(self).reads_infallible() == old(self).reads_infallible(),
    {
        let r = match self.mailboxes.remove(&session) {
            Some(q) => q,
            None => Vec::new(),
        };
        self.mailboxes.insert(session, Vec::new());
        assert(self.mailboxes() =~= old(self).mailboxes().insert(session, Seq::<Message>::empty()));
        r
    }

    /// Adds `m` at the end of the mailbox of `session`.
    fn post(&mut self, session: u64, m: Message)
        requires
            old(self).wf(),
            old(self).mailboxes().contains_key(session),
        ensures
            final(self).wf(),
            final(self).mailboxes() == old(self).mailboxes().insert(
                session,
                old(self).mailboxes()[session].push(m),
            ),
            final(self).contents() == old(self).contents(),
            final(self).subscriptions() == old(self).subscriptions(),
            final(self).stopping() == old(self).stopping(),
            final(self).issued() == old(self).issued(),
            final(self).reads_infallible() == old(self).reads_infallible(),
    {
        let mut q = match self.mailboxes.remove(&session) {
            Some(q) => q,
            None => Vec::new(),
        };
        q.push(m);
        self.mailboxes.insert(session, q);
        assert(self.mailboxes() =~= old(self).mailboxes().insert(
            session,
            old(self).mailboxes()[session].push(m),
        ));
    }

    /// Sends `value` as the value of `key` to every subscriber of `key`.
    fn broadcast(&mut self, key: &String, value: &serde_json::Value)
        requires
            old(self).wf(),
        ensures
            final(self).wf(),
            delivered(
                old(self).mailboxes(),
                final(self).mailboxes(),
                old(self).subscriptions.subscribers_of(key@),
                key@,
                Some(*value),
            ),
            final(self).contents() == old(self).contents(),
            final(self).subscriptions() == old(self).subscriptions(),
            final(self).stopping() == old(self).stopping(),
            final(self).issued() == old(self).issued(),
            final(self).reads_infallible() == old(self).reads_infallible(),
    {
        let targets = self.subscriptions.subscribers(key);
        let mut j: usize = 0;
        while j < targets.len()
            invariant
                j <= targets@.len(),
                self.wf(),
                targets@.no_duplicates(),
                forall|c: u64| targets@.contains(c) == old(self).subscriptions@.contains((key@, c)),
                delivered(
                    old(self).mailboxes(),
                    self.mailboxes(),
                    Set::new(|c: u64| targets@.take(j as int).contains(c)),
                    key@,
                    Some(*value),
                ),
                self.contents() == old(self).contents(),
                self.subscriptions() == old(self).subscriptions(),
                self.stopping() == old(self).stopping(),
                self.issued() == old(self).issued(),
                self.reads_infallible() == old(self).reads_infallible(),
            decreases targets@.len() - j,
        {
            let id = targets[j];
            let ghost prefix = targets@.take(j as int);
            let ghost set_before = Set::new(|c: u64| prefix.contains(c));
            proof {
                assert(targets@[j as int] == id);
                assert(targets@.contains(id));
                if prefix.contains(id) {
                    let m = choose|m: int| 0 <= m < prefix.len() && prefix[m] == id;
                    assert(targets@[m] == targets@[j as int]);
                }
            }
            let ghost before = self.mailboxes();
            proof {
                assert(self.subscriptions@.contains((key@, id)));
                assert(old(self).mailboxes().contains_key(id));
                assert(!set_before.contains(id));
                assert(before[id] == old(self).mailboxes()[id]);
            }
            let m = Response::Value { key: key.clone(), value: copy_value(value) };
            self.post(id, m);
            j = j + 1;
            proof {
                let next = targets@.take(j as int);
                assert(next =~= prefix.push(id));
                let set_after = Set::new(|c: u64| next.contains(c));
                assert forall|c: u64| #[trigger] set_after.contains(c) == (set_before.contains(c) || c == id) by {
                    if prefix.contains(c) {
                        let m = choose|m: int| 0 <= m < prefix.len() && prefix[m] == c;
                        assert(next[m] == c);
                    }
                    if c == id {
                        assert(next[prefix.len() as int] == c);
                    }
                    if next.contains(c) {
                        let m = choose|m: int| 0 <= m < next.len() && next[m] == c;
                        if m < prefix.len() {
                            assert(prefix[m] == c);
                        }
                    }
                }
                assert(before[id].push(m).drop_last() =~= before[id]);
                assert(answers(m, key@, Some(*value)));
                assert(before[id] == old(self).mailboxes()[id]);
                assert(self.mailboxes().dom() =~= old(self).mailboxes().dom());
                assert forall|c: u64| #[trigger] old(self).mailboxes().contains_key(c) implies if set_after.contains(c) {
                    appended(self.mailboxes()[c], old(self).mailboxes()[c], key@, Some(*value))
                } else {
                    self.mailboxes()[c] == old(self).mailboxes()[c]
                } by {
                    assert(before.contains_key(c));
                }
            }
        }
        assert(targets@.take(j as int) =~= targets@);
        assert(Set::new(|c: u64| targets@.take(j as int).contains(c)) =~= old(self).subscriptions.subscribers_of(key@));
    }

    /// Records a failed storage call: a fatal error asks the server to stop.
    fn note_failure<E: IsFatalError>(&mut self, err: &E)
        ensures
            final(self).stopping() == (old(self).stopping() || err.fatal()),
            final(self).storage == old(self).storage,
            final(self).subscriptions == old(self).subscriptions,
            final(self).mailboxes == old(self).mailboxes,
            final(self).next_session == old(self).next_session,
    {
        if err.is_fatal() {
            self.shutdown = true;
        }
    }

    /// Subscribes `session` to `key`: `OperationOk` when new, `Ignored`
    /// when it was subscribed already.
    fn add_subscription(&mut self, session: u64, key: String) -> (r: Message)
        requires
            old(self).wf(),
            old(self).mailboxes().contains_key(session),
        ensures
            final(self).wf(),
            r == subscribe_answer(old(self).subscriptions(), key@, session),
            final(self).subscriptions() == old(self).subscriptions().insert((key@, session)),
            final(self).storage == old(self).storage,
            final(self).mailboxes == old(self).mailboxes,
            final(self).next_session == old(self).next_session,
            final(self).shutdown == old(self).shutdown,
    {
        let ghost boxes = self.mailboxes@;
        if self.subscriptions.subscribe(session, key) {
            assert(boxes.contains_key(session));
            Message::OperationOk
        } else {
            Message::Ignored
        }
    }

    /// Ends a `SetValue` of `value` at `key` whose storage write had
    /// `outcome`. A stored value goes to every subscriber of `key`, the
    /// writer included, and the answer is `OperationOk`. A failed write
    /// answers `OperationFailed` and notifies no one; a fatal failure also
    /// asks the server to stop.
    pub fn finish_write<E: IsFatalError>(
        &mut self,
        key: &String,
        value: &serde_json::Value,
        outcome: Result<(), E>,
    ) -> (r: Message)
        requires
            old(self).wf(),
        ensures
            final(self).wf(),
            final(self).contents() == old(self).contents(),
            final(self).subscriptions() == old(self).subscriptions(),
            final(self).issued() == old(self).issued(),
            final(self).reads_infallible() == old(self).reads_infallible(),
            match outcome {
                Ok(_) => {
                    &&& r is OperationOk
                    &&& delivered(
                        old(self).mailboxes(),
                        final(self).mailboxes(),
                        old(self).subscribers_of(key@),
                        key@,
                        Some(*value),
                    )
                    &&& final(self).stopping() == old(self).stopping()
                },
                Err(e) => {
                    &&& r is OperationFailed
                    &&& final(self).mailboxes() == old(self).mailboxes()
                    &&& final(self).stopping() == (old(self).stopping() || e.fatal())
                },
            },
    {
        match outcome {
            Ok(_) => {
                self.broadcast(key, value);
                Message::OperationOk
            },
            Err(err) => {
                self.note_failure(&err);
                Message::OperationFailed
            },
        }
    }

    /// Ends a `Get` of `key` whose storage read had `outcome`: the value
    /// found, or JSON null where there is none; a failed read answers
    /// `OperationFailed`, and a fatal one also asks the server to stop.
    pub fn finish_read<E: IsFatalError>(&mut self, key: String, outcome: Result<Option<serde_json::Value>, E>) -> (r: Message)
        requires
            old(self).wf(),
        ensures
            final(self).wf(),
            final(self).contents() == old(self).contents(),
            final(self).subscriptions() == old(self).subscriptions(),
            final(self).mailboxes() == old(self).mailboxes(),
            final(self).issued() == old(self).issued(),
            final(self).reads_infallible() == old(self).reads_infallible(),
            match outcome {
                Ok(found) => answers(r, key@, found) && final(self).stopping() == old(self).stopping(),
                Err(e) => r is OperationFailed && final(self).stopping() == (old(self).stopping() || e.fatal()),
            },
    {
        match outcome {
            Ok(found) => value_response(key, found),
            Err(err) => {
                self.note_failure(&err);
                Message::OperationFailed
            },
        }
    }

    /// Ends a `Subscribe` of `session` to `key` with `notify_now`, whose
    /// storage read had `outcome`. The value found, or JSON null, goes to
    /// the session's mailbox first; then the session is subscribed, with
    /// `OperationOk` when new and `Ignored` when it was subscribed already.
    /// A failed read answers `OperationFailed` and subscribes nothing; a
    /// fatal one also asks the server to stop.
    pub fn finish_subscribe<E: IsFatalError>(
        &mut self,
        session: u64,
        key: String,
        outcome: Result<Option<serde_json::Value>, E>,
    ) -> (r: Message)
        requires
            old(self).wf(),
            old(self).mailboxes().contains_key(session),
        ensures
            final(self).wf(),
            final(self).contents() == old(self).contents(),
            final(self).issued() == old(self).issued(),
            final(self).reads_infallible() == old(self).reads_infallible(),
            match outcome {
                Ok(found) => {
                    &&& r == subscribe_answer(old(self).subscriptions(), key@, session)
                    &&& final(self).subscriptions() == old(self).subscriptions().insert((key@, session))
                    &&& delivered(old(self).mailboxes(), final(self).mailboxes(), set![session], key@, found)
                    &&& final(self).stopping() == old(self).stopping()
                },
                Err(e) => {
                    &&& r is OperationFailed
                    &&& final(self).subscriptions() == old(self).subscriptions()
                    &&& final(self).mailboxes() == old(self).mailboxes()
                    &&& final(self).stopping() == (old(self).stopping() || e.fatal())
                },
            },
    {
        match outcome {
            Ok(found) => {
                let ghost before = self.mailboxes();
                let m = value_response(key.clone(), found);
                self.post(session, m);
                assert(before[session].push(m).drop_last() =~= before[session]);
                assert(self.mailboxes().dom() =~= before.dom());
                self.add_subscription(session, key)
            },
            Err(err) => {
                self.note_failure(&err);
                Message::OperationFailed
            },
        }
    }

    /// Handles one request of `session` and returns the direct response.
    ///
    /// `SetValue` writes to the storage and ends as `finish_write` says,
    /// `Get` reads it and ends as `finish_read` says, and `Subscribe` with
    /// `notify_now` reads it and ends as `finish_subscribe` says; without
    /// `notify_now` it subscribes at once. `Unsubscribe` answers
    /// `OperationOk` when the session was subscribed, `Ignored` otherwise.
    /// Only a storage error answers `OperationFailed`, and reads of a
    /// storage whose reads never fail always succeed.
    pub fn handle(&mut self, session: u64, request: Request<serde_json::Value>) -> (r: Message)
        requires
            old(self).wf(),
            old(self).mailboxes().contains_key(session),
        ensures
            final(self).wf(),
            final(self).issued() == old(self).issued(),
            final(self).reads_infallible() == old(self).reads_infallible(),
            old(self).stopping() ==> final(self).stopping(),
            !(r is OperationFailed) ==> final(self).stopping() == old(self).stopping(),
            match request {
                Request::SetValue { key, value } => {
                    &&& final(self).subscriptions() == old(self).subscriptions()
                    &&& r is OperationOk || r is OperationFailed
                    &&& r is OperationOk ==> {
                        &&& final(self).contents() == old(self).contents().insert(key@, value)
                        &&& delivered(
                            old(self).mailboxes(),
                            final(self).mailboxes(),
                            old(self).subscribers_of(key@),
                            key@,
                            Some(value),
                        )
                    }
                    &&& r is OperationFailed ==> {
                        &&& final(self).contents().remove(key@) == old(self).contents().remove(key@)
                        &&& final(self).mailboxes() == old(self).mailboxes()
                    }
                },
                Request::Get { key } => {
                    &&& final(self).contents() == old(self).contents()
                    &&& final(self).subscriptions() == old(self).subscriptions()
                    &&& final(self).mailboxes() == old(self).mailboxes()
                    &&& answers(r, key@, lookup(old(self).contents(), key@)) || r is OperationFailed
                    &&& old(self).reads_infallible() ==> answers(r, key@, lookup(old(self).contents(), key@))
                },
                Request::Subscribe { key, notify_now } => {
                    &&& final(self).contents() == old(self).contents()
                    &&& old(self).reads_infallible() ==> !(r is OperationFailed)
                    &&& if r is OperationFailed {
                        &&& notify_now
                        &&& final(self).subscriptions() == old(self).subscriptions()
                        &&& final(self).mailboxes() == old(self).mailboxes()
                    } else {
                        &&& r == subscribe_answer(old(self).subscriptions(), key@, session)
                        &&& final(self).subscriptions() == old(self).subscriptions().insert((key@, session))
                        &&& if notify_now {
                            delivered(
                                old(self).mailboxes(),
                                final(self).mailboxes(),
                                set![session],
                                key@,
                                lookup(old(self).contents(), key@),
                            )
                        } else {
                            final(self).mailboxes() == old(self).mailboxes()
                        }
                    }
                },
                Request::Unsubscribe { key } => {
                    &&& final(self).contents() == old(self).contents()
                    &&& final(self).mailboxes() == old(self).mailboxes()
                    &&& final(self).subscriptions() == old(self).subscriptions().remove((key@, session))
                    &&& r == unsubscribe_answer(old(self).subscriptions(), key@, session)
                    &&& final(self).stopping() == old(self).stopping()
                },
            },
    {
        match request {
            Request::SetValue { key, value } => {
                let stored = copy_value(&value);
                let outcome = self.storage.set(key.clone(), value);
                self.finish_write(&key, &stored, outcome)
            },
            Request::Get { key } => {
                let outcome = self.storage.get(&key);
                self.finish_read(key, outcome)
            },
            Request::Subscribe { key, notify_now } => {
                if notify_now {
                    let outcome = self.storage.get(&key);
                    self.finish_subscribe(session, key, outcome)
                } else {
                    self.add_subscription(session, key)
                }
            },
            Request::Unsubscribe { key } => {
                if self.subscriptions.unsubscribe(session, &key) {
                    Message::OperationOk
                } else {
                    Message::Ignored
                }
            },
        }
    }
}


/// A value that was set is the value read back: after a successful
/// `SetValue` of `value` at `key`, a `Get` of `key`, from any session,
/// answers `value` or fails.
pub proof fn law_round_trip(before: Contents, key: Seq<char>, value: serde_json::Value, answer: Message)
    requires
        answers(answer, key, lookup(before.insert(key, value), key)),
    ensures
        answer is Value,
        answer->Value_key@ == key,
        answer->Value_value == value,
{
}

/// A key that was never set reads as JSON null.
pub proof fn law_absent_key(contents: Contents, key: Seq<char>, answer: Message)
    requires
        !contents.contains_key(key),
        answers(answer, key, lookup(contents, key)),
    ensures
        answer is Value,
        answer->Value_key@ == key,
        is_json_null(answer->Value_value),
{
}

/// Subscribing twice to one key from one session answers `OperationOk`,
/// then `Ignored`, and leaves the session subscribed once.
pub proof fn law_subscribe_twice(subs: Set<(Seq<char>, u64)>, key: Seq<char>, session: u64)
    requires
        !subs.contains((key, session)),
    ensures
        subscribe_answer(subs, key, session) is OperationOk,
        subscribe_answer(subs.insert((key, session)), key, session) is Ignored,
        subs.insert((key, session)).insert((key, session)) == subs.insert((key, session)),
        subs.insert((key, session)).filter(|p: (Seq<char>, u64)| p.1 == session && p.0 == key) == set![(key, session)],
{
    assert(subs.insert((key, session)).insert((key, session)) =~= subs.insert((key, session)));
    assert(subs.insert((key, session)).filter(|p: (Seq<char>, u64)| p.1 == session && p.0 == key) =~= set![(key, session)]);
}

/// Unsubscribing a session that is not subscribed answers `Ignored` and
/// changes nothing.
pub proof fn law_unsubscribe_absent(subs: Set<(Seq<char>, u64)>, key: Seq<char>, session: u64)
    requires
        !subs.contains((key, session)),
    ensures
        unsubscribe_answer(subs, key, session) is Ignored,
        subs.remove((key, session)) == subs,
{
    assert(subs.remove((key, session)) =~= subs);
}

impl<S: Storage> Server<S> {
    /// Once a session is gone, no subscription names it and nothing is
    /// delivered to it: after `disconnect`, no key lists it as a
    /// subscriber and it has no mailbox that a later notification could
    /// reach.
    pub proof fn law_disconnect_cleanup(before: Self, after: Self, session: u64, key: Seq<char>)
        requires
            after.subscriptions() == before.subscriptions().filter(|p: (Seq<char>, u64)| p.1 != session),
            after.mailboxes() == before.mailboxes().remove(session),
        ensures
            !after.subscribers_of(key).contains(session),
            forall|new: Map<u64, Seq<Message>>, found: Option<serde_json::Value>|
                #[trigger] delivered(after.mailboxes(), new, after.subscribers_of(key), key, found)
                    ==> !new.contains_key(session),
    {
    }

    /// A stored value reaches every subscriber of its key: when a
    /// `SetValue` of `value` at `key` delivers, each session subscribed to
    /// `key`, the writer included, gets one more message, which carries
    /// `key` and `value`.
    pub proof fn law_fan_out(
        before: Self,
        after: Map<u64, Seq<Message>>,
        key: Seq<char>,
        value: serde_json::Value,
        session: u64,
    )
        requires
            before.wf(),
            before.subscriptions().contains((key, session)),
            delivered(before.mailboxes(), after, before.subscribers_of(key), key, Some(value)),
        ensures
            after[session].len() == before.mailboxes()[session].len() + 1,
            after[session].drop_last() == before.mailboxes()[session],
            after[session].last() is Value,
            after[session].last()->Value_key@ == key,
            after[session].last()->Value_value == value,
    {
        assert(before.mailboxes@.contains_key(session));
        assert(before.mailboxes().contains_key(session));
        assert(before.subscribers_of(key).contains(session));
    }
}

} // verus!
