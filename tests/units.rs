use dscfg::accept::{after_spawn, HandlingError, Spawn};
use dscfg::client::{get_result, notification, Client, ProtocolError};
use dscfg::file_storage::{temp_file_path, CachedFileStorage, Commit, IoOperation, StorageError};
use dscfg::proto::Response;
use dscfg::registry::Subscriptions;
use dscfg::storage::{IsFatalError, Storage, SyncOpResult};
use serde_json::Value;
use std::io::{Error, ErrorKind};

#[test]
fn it_works() {
    assert_eq!(2 + 2, 4);
}

#[test]
fn temp_path_sits_beside_the_file() {
    assert_eq!(temp_file_path(&"/var/lib/cfg.json".to_string()), Some("/var/lib/.cfg.json.tmp".to_string()));
    assert_eq!(temp_file_path(&"cfg.json".to_string()), Some(".cfg.json.tmp".to_string()));
    assert_eq!(temp_file_path(&"dir/cfg".to_string()), Some("dir/.cfg.tmp".to_string()));
}

#[test]
fn temp_path_needs_a_file_name() {
    assert_eq!(temp_file_path(&"/".to_string()), None);
    assert_eq!(temp_file_path(&"".to_string()), None);
    assert_eq!(temp_file_path(&"a/..".to_string()), None);
}

#[test]
fn write_errors_are_fatal() {
    let e = StorageError::write_error("f".to_string(), Error::new(ErrorKind::Interrupted, "x"));
    assert!(e.is_fatal());
    assert!(matches!(e.operation(), IoOperation::Write(p) if p == "f"));
}

#[test]
fn transient_open_and_move_errors_are_not_fatal() {
    let e = StorageError::open_error("f".to_string(), Error::new(ErrorKind::Interrupted, "x"));
    assert!(!e.is_fatal());
    let e = StorageError::move_error("a".to_string(), "b".to_string(), Error::new(ErrorKind::WouldBlock, "x"));
    assert!(!e.is_fatal());
    assert!(matches!(e.operation(), IoOperation::Move(a, b) if a == "a" && b == "b"));
}

#[test]
fn other_open_and_move_errors_are_fatal() {
    let e = StorageError::open_error("f".to_string(), Error::new(ErrorKind::PermissionDenied, "x"));
    assert!(e.is_fatal());
    assert_eq!(e.io_error().kind(), ErrorKind::PermissionDenied);
    let e = StorageError::move_error("a".to_string(), "b".to_string(), Error::new(ErrorKind::NotFound, "x"));
    assert!(e.is_fatal());
}

#[test]
fn poisoned_lock_is_fatal() {
    let p: SyncOpResult<StorageError> = SyncOpResult::Poisoned;
    assert!(p.is_fatal());
    let inner = StorageError::open_error("f".to_string(), Error::new(ErrorKind::Interrupted, "x"));
    assert!(!SyncOpResult::Other(inner).is_fatal());
}

#[test]
fn get_answer_meanings() {
    let ok: Result<Value, ProtocolError<()>> =
        get_result(Some(Response::Value { key: "k".to_string(), value: Value::from(3) }));
    assert!(matches!(ok, Ok(v) if v == Value::from(3)));
    let eof: Result<Value, ProtocolError<()>> = get_result(None);
    assert!(matches!(eof, Err(ProtocolError::UnexpectedEof)));
    let odd: Result<Value, ProtocolError<()>> = get_result(Some(Response::Ignored));
    assert!(matches!(odd, Err(ProtocolError::UnexpectedResponse)));
}

#[test]
fn notifications_carry_key_and_value() {
    let n = notification(Response::Value { key: "k".to_string(), value: Value::Bool(false) });
    assert_eq!(n, Some(("k".to_string(), Value::Bool(false))));
    assert_eq!(notification::<Value>(Response::OperationOk), None);
    assert_eq!(notification::<Value>(Response::OperationFailed), None);
}

#[test]
fn client_keeps_its_connection() {
    let c = Client::custom(vec![1u8, 2]);
    assert_eq!(c.into_connection(), vec![1u8, 2]);
}

#[test]
fn spawn_outcomes() {
    assert!(after_spawn::<()>(Spawn::Started).is_ok());
    assert!(after_spawn::<()>(Spawn::NoCapacity).is_ok());
    assert!(matches!(after_spawn::<()>(Spawn::Failed), Err(HandlingError::Shutdown)));
}

#[test]
fn registry_set_semantics() {
    let mut r = Subscriptions::new();
    assert!(r.subscribe(1, "a".to_string()));
    assert!(!r.subscribe(1, "a".to_string()));
    assert!(r.subscribe(2, "a".to_string()));
    assert!(r.subscribe(1, "b".to_string()));
    let mut subs = r.subscribers(&"a".to_string());
    subs.sort();
    assert_eq!(subs, vec![1, 2]);
    assert!(r.unsubscribe(2, &"a".to_string()));
    assert!(!r.unsubscribe(2, &"a".to_string()));
    r.unsubscribe_all(1);
    assert!(r.subscribers(&"a".to_string()).is_empty());
    assert!(r.subscribers(&"b".to_string()).is_empty());
    assert!(!r.contains(1, &"b".to_string()));
}

struct NoDisk;

impl Commit for NoDisk {
    fn commit(&mut self, _: &String, _: &String, _: &Vec<(String, Value)>) -> Result<(), StorageError> {
        Ok(())
    }
}

#[test]
fn loaded_entries_later_ones_win() {
    let entries = vec![
        ("a".to_string(), Value::from(1)),
        ("b".to_string(), Value::from(2)),
        ("a".to_string(), Value::from(3)),
    ];
    let mut store = CachedFileStorage::with_contents("c.json".to_string(), entries, NoDisk).unwrap();
    assert_eq!(store.temp_file(), ".c.json.tmp");
    assert_eq!(store.file_path(), "c.json");
    assert_eq!(store.entries().len(), 2);
    assert!(matches!(store.get(&"a".to_string()), Ok(Some(v)) if v == Value::from(3)));
    assert!(store.set("c".to_string(), Value::from(4)).is_ok());
    assert_eq!(store.value(&"c".to_string()), Some(Value::from(4)));
    assert!(matches!(store.get(&"zz".to_string()), Ok(None)));
    store.remove(&"a".to_string());
    assert_eq!(store.value(&"a".to_string()), None);
}

#[test]
fn store_needs_a_file_name() {
    assert!(CachedFileStorage::with_contents("/".to_string(), Vec::new(), NoDisk).is_none());
}
