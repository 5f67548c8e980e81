use dscfg::file_storage::{CachedFileStorage, Commit, StorageError};
use dscfg::proto::{Request, Response};
use dscfg::server::Server;
use serde_json::Value;
use std::cell::RefCell;
use std::collections::HashMap;
use std::rc::Rc;

/// An in-memory file system: path → bytes.
#[derive(Clone, Default)]
struct Disk {
    files: Rc<RefCell<HashMap<String, Vec<u8>>>>,
    fail_writes: bool,
}

impl Commit for Disk {
    fn commit(
        &mut self,
        temp: &String,
        target: &String,
        entries: &Vec<(String, Value)>,
    ) -> Result<(), StorageError> {
        if self.fail_writes {
            let err = std::io::Error::new(std::io::ErrorKind::Other, "disk full");
            return Err(StorageError::write_error(temp.clone(), err));
        }
        let mut object = serde_json::Map::new();
        for (k, v) in entries {
            object.insert(k.clone(), v.clone());
        }
        let bytes = serde_json::to_vec(&Value::Object(object)).unwrap();
        let mut files = self.files.borrow_mut();
        files.insert(temp.clone(), bytes);
        let image = files.remove(temp).unwrap();
        files.insert(target.clone(), image);
        Ok(())
    }
}

fn server(disk: &Disk) -> Server<CachedFileStorage<Disk>> {
    let store = CachedFileStorage::with_contents("/tmp/cfg.json".to_string(), Vec::new(), disk.clone()).unwrap();
    Server::new(store)
}

fn set(key: &str, value: Value) -> Request<Value> {
    Request::SetValue { key: key.to_string(), value }
}

fn get(key: &str) -> Request<Value> {
    Request::Get { key: key.to_string() }
}

fn subscribe(key: &str, notify_now: bool) -> Request<Value> {
    Request::Subscribe { key: key.to_string(), notify_now }
}

fn value_of(m: &Response<Value>) -> (String, Value) {
    match m {
        Response::Value { key, value } => (key.clone(), value.clone()),
        _ => panic!("not a value"),
    }
}

fn is_ok(m: &Response<Value>) -> bool {
    matches!(m, Response::OperationOk)
}

fn is_ignored(m: &Response<Value>) -> bool {
    matches!(m, Response::Ignored)
}

#[test]
fn write_then_read() {
    let disk = Disk::default();
    let mut srv = server(&disk);
    let s1 = srv.connect().unwrap();
    assert!(is_ok(&srv.handle(s1, set("a", Value::from(1)))));
    let r = srv.handle(s1, get("a"));
    assert_eq!(value_of(&r), ("a".to_string(), Value::from(1)));
    let files = disk.files.borrow();
    let on_disk: Value = serde_json::from_slice(&files["/tmp/cfg.json"]).unwrap();
    let mut expected = serde_json::Map::new();
    expected.insert("a".to_string(), Value::from(1));
    assert_eq!(on_disk, Value::Object(expected));
    assert!(!files.contains_key("/tmp/.cfg.json.tmp"));
}

#[test]
fn notify_on_subscribe() {
    let disk = Disk::default();
    let mut srv = server(&disk);
    let s1 = srv.connect().unwrap();
    assert!(is_ok(&srv.handle(s1, set("x", Value::from("hi")))));
    let s2 = srv.connect().unwrap();
    let r = srv.handle(s2, subscribe("x", true));
    let queued = srv.take_messages(s2);
    assert_eq!(queued.len(), 1);
    assert_eq!(value_of(&queued[0]), ("x".to_string(), Value::from("hi")));
    assert!(is_ok(&r));
}

#[test]
fn fan_out() {
    let disk = Disk::default();
    let mut srv = server(&disk);
    let s1 = srv.connect().unwrap();
    let s2 = srv.connect().unwrap();
    let s3 = srv.connect().unwrap();
    assert!(is_ok(&srv.handle(s2, subscribe("k", false))));
    assert!(is_ok(&srv.handle(s3, subscribe("k", false))));
    let list = Value::Array(vec![Value::from(1), Value::from(2)]);
    assert!(is_ok(&srv.handle(s1, set("k", list.clone()))));
    for s in [s2, s3] {
        let queued = srv.take_messages(s);
        assert_eq!(queued.len(), 1);
        assert_eq!(value_of(&queued[0]), ("k".to_string(), list.clone()));
    }
    assert!(srv.take_messages(s1).is_empty());
}

#[test]
fn disconnect_cleanup() {
    let disk = Disk::default();
    let mut srv = server(&disk);
    let s1 = srv.connect().unwrap();
    let s2 = srv.connect().unwrap();
    assert!(is_ok(&srv.handle(s2, subscribe("k", false))));
    srv.disconnect(s2);
    assert!(!srv.is_connected(s2));
    assert!(is_ok(&srv.handle(s1, set("k", Value::from(42)))));
    assert!(srv.take_messages(s1).is_empty());
    assert!(!srv.is_connected(s2));
    assert!(!srv.shutdown_requested());
}

#[test]
fn duplicate_subscribe() {
    let disk = Disk::default();
    let mut srv = server(&disk);
    let s2 = srv.connect().unwrap();
    assert!(is_ok(&srv.handle(s2, subscribe("k", false))));
    assert!(is_ignored(&srv.handle(s2, subscribe("k", false))));
    let s1 = srv.connect().unwrap();
    assert!(is_ok(&srv.handle(s1, set("k", Value::from(7)))));
    assert_eq!(srv.take_messages(s2).len(), 1);
}

#[test]
fn missing_key() {
    let disk = Disk::default();
    let mut srv = server(&disk);
    let s1 = srv.connect().unwrap();
    let r = srv.handle(s1, get("none"));
    assert_eq!(value_of(&r), ("none".to_string(), Value::Null));
}

#[test]
fn unsubscribe_when_not_subscribed() {
    let disk = Disk::default();
    let mut srv = server(&disk);
    let s1 = srv.connect().unwrap();
    let r = srv.handle(s1, Request::Unsubscribe { key: "k".to_string() });
    assert!(is_ignored(&r));
    assert!(is_ok(&srv.handle(s1, subscribe("k", false))));
    assert!(is_ok(&srv.handle(s1, Request::Unsubscribe { key: "k".to_string() })));
    assert!(is_ignored(&srv.handle(s1, Request::Unsubscribe { key: "k".to_string() })));
}

#[test]
fn round_trip_across_sessions() {
    let disk = Disk::default();
    let mut srv = server(&disk);
    let s1 = srv.connect().unwrap();
    let s2 = srv.connect().unwrap();
    let mut obj = serde_json::Map::new();
    obj.insert("on".to_string(), Value::Bool(true));
    assert!(is_ok(&srv.handle(s1, set("cfg", Value::Object(obj.clone())))));
    assert_eq!(value_of(&srv.handle(s2, get("cfg"))), ("cfg".to_string(), Value::Object(obj)));
    assert!(is_ok(&srv.handle(s2, set("cfg", Value::Null))));
    assert_eq!(value_of(&srv.handle(s1, get("cfg"))), ("cfg".to_string(), Value::Null));
}

#[test]
fn writer_is_notified_when_subscribed() {
    let disk = Disk::default();
    let mut srv = server(&disk);
    let s1 = srv.connect().unwrap();
    assert!(is_ok(&srv.handle(s1, subscribe("k", false))));
    assert!(is_ok(&srv.handle(s1, set("k", Value::from(5)))));
    let queued = srv.take_messages(s1);
    assert_eq!(queued.len(), 1);
    assert_eq!(value_of(&queued[0]), ("k".to_string(), Value::from(5)));
}

#[test]
fn subscribe_now_to_missing_key_sends_null() {
    let disk = Disk::default();
    let mut srv = server(&disk);
    let s1 = srv.connect().unwrap();
    assert!(is_ok(&srv.handle(s1, subscribe("nothing", true))));
    let queued = srv.take_messages(s1);
    assert_eq!(queued.len(), 1);
    assert_eq!(value_of(&queued[0]), ("nothing".to_string(), Value::Null));
}

#[test]
fn failed_write_keeps_old_value_and_stops_server() {
    let disk = Disk::default();
    let mut srv = server(&disk);
    let s1 = srv.connect().unwrap();
    let s2 = srv.connect().unwrap();
    assert!(is_ok(&srv.handle(s1, set("k", Value::from(1)))));
    assert!(is_ok(&srv.handle(s2, subscribe("k", false))));
    let failing = Disk { files: disk.files.clone(), fail_writes: true };
    let store = CachedFileStorage::with_contents(
        "/tmp/cfg.json".to_string(),
        vec![("k".to_string(), Value::from(1))],
        failing,
    )
    .unwrap();
    let mut broken = Server::new(store);
    let b1 = broken.connect().unwrap();
    let b2 = broken.connect().unwrap();
    assert!(is_ok(&broken.handle(b2, subscribe("k", false))));
    let r = broken.handle(b1, set("k", Value::from(2)));
    assert!(matches!(r, Response::OperationFailed));
    assert!(broken.shutdown_requested());
    assert!(broken.take_messages(b2).is_empty());
    assert_eq!(value_of(&broken.handle(b1, get("k"))), ("k".to_string(), Value::from(1)));
    assert_eq!(value_of(&broken.handle(b1, get("new"))), ("new".to_string(), Value::Null));
}

fn io(kind: std::io::ErrorKind) -> std::io::Error {
    std::io::Error::new(kind, "x")
}

#[test]
fn connect_gives_fresh_identities() {
    let disk = Disk::default();
    let mut srv = server(&disk);
    let a = srv.connect().unwrap();
    let b = srv.connect().unwrap();
    assert_ne!(a, b);
    srv.disconnect(a);
    let c = srv.connect().unwrap();
    assert_ne!(c, a);
    assert_ne!(c, b);
    assert!(srv.is_connected(c));
}

#[test]
fn finish_write_outcomes() {
    let disk = Disk::default();
    let mut srv = server(&disk);
    let s1 = srv.connect().unwrap();
    let s2 = srv.connect().unwrap();
    assert!(is_ok(&srv.handle(s2, subscribe("k", false))));
    let key = "k".to_string();
    let ok: Result<(), StorageError> = Ok(());
    assert!(is_ok(&srv.finish_write(&key, &Value::from(9), ok)));
    let queued = srv.take_messages(s2);
    assert_eq!(queued.len(), 1);
    assert_eq!(value_of(&queued[0]), ("k".to_string(), Value::from(9)));
    let transient = Err(StorageError::open_error("t".to_string(), io(std::io::ErrorKind::Interrupted)));
    assert!(matches!(srv.finish_write(&key, &Value::from(10), transient), Response::OperationFailed));
    assert!(srv.take_messages(s2).is_empty());
    assert!(!srv.shutdown_requested());
    let fatal = Err(StorageError::write_error("t".to_string(), io(std::io::ErrorKind::Other)));
    assert!(matches!(srv.finish_write(&key, &Value::from(11), fatal), Response::OperationFailed));
    assert!(srv.shutdown_requested());
    assert!(srv.take_messages(s1).is_empty());
}

#[test]
fn finish_read_outcomes() {
    let disk = Disk::default();
    let mut srv = server(&disk);
    let ok: Result<Option<Value>, StorageError> = Ok(Some(Value::from("v")));
    assert_eq!(value_of(&srv.finish_read("k".to_string(), ok)), ("k".to_string(), Value::from("v")));
    let none: Result<Option<Value>, StorageError> = Ok(None);
    assert_eq!(value_of(&srv.finish_read("k".to_string(), none)), ("k".to_string(), Value::Null));
    let fatal = Err(StorageError::move_error("a".to_string(), "b".to_string(), io(std::io::ErrorKind::NotFound)));
    assert!(matches!(srv.finish_read("k".to_string(), fatal), Response::OperationFailed));
    assert!(srv.shutdown_requested());
}

#[test]
fn finish_subscribe_outcomes() {
    let disk = Disk::default();
    let mut srv = server(&disk);
    let s1 = srv.connect().unwrap();
    let failed = Err(StorageError::open_error("t".to_string(), io(std::io::ErrorKind::WouldBlock)));
    assert!(matches!(srv.finish_subscribe(s1, "k".to_string(), failed), Response::OperationFailed));
    assert!(srv.take_messages(s1).is_empty());
    assert!(!srv.shutdown_requested());
    let ok: Result<Option<Value>, StorageError> = Ok(Some(Value::from(1)));
    assert!(is_ok(&srv.finish_subscribe(s1, "k".to_string(), ok)));
    let queued = srv.take_messages(s1);
    assert_eq!(value_of(&queued[0]), ("k".to_string(), Value::from(1)));
    let again: Result<Option<Value>, StorageError> = Ok(None);
    assert!(is_ignored(&srv.finish_subscribe(s1, "k".to_string(), again)));
    assert_eq!(value_of(&srv.take_messages(s1)[0]), ("k".to_string(), Value::Null));
}

#[test]
fn store_write_restores_on_failure() {
    let failing = Disk { files: Default::default(), fail_writes: true };
    let mut store =
        CachedFileStorage::with_contents("d/c.json".to_string(), vec![("k".to_string(), Value::from(1))], failing)
            .unwrap();
    let err = store.write("k".to_string(), Value::from(2)).unwrap_err();
    assert_eq!(err.io_error().kind(), std::io::ErrorKind::Other);
    assert_eq!(store.value(&"k".to_string()), Some(Value::from(1)));
    assert!(store.write("new".to_string(), Value::from(3)).is_err());
    assert_eq!(store.value(&"new".to_string()), None);
    assert_eq!(store.temp_file(), "d/.c.json.tmp");
    assert_eq!(store.file_path(), "d/c.json");
}

#[test]
fn store_write_then_read() {
    let disk = Disk::default();
    let mut store = CachedFileStorage::with_contents("c.json".to_string(), Vec::new(), disk.clone()).unwrap();
    assert!(store.write("a".to_string(), Value::from(1)).is_ok());
    assert_eq!(store.value(&"a".to_string()), Some(Value::from(1)));
    assert!(disk.files.borrow().contains_key("c.json"));
}
