//! A store kept in one JSON file, replaced atomically on every write.
//!
//! The values live in memory; each successful write also commits the whole
//! map as a JSON object to a temporary file beside the target, then renames
//! it over the target, so the file on disk is always a complete image. This
//! module holds the store's state and rules; the file work itself is done by
//! the code that owns the file system.

use crate::json::copy_value;
use crate::storage::{lookup, Contents, IsFatalError, Storage};
use vstd::prelude::*;
use vstd::string::StringExecFns;

verus! {

/// Declares `std::io::Error`, carried inside a `StorageError`.
#[verifier::external_type_specification]
#[verifier::external_body]
pub struct ExIoError(std::io::Error);

/// The last component of the path `p`, when it is a normal name.
pub uninterp spec fn file_name_of(p: Seq<char>) -> Option<Seq<char>>;

/// The path `p` without its last component, if it has one.
pub uninterp spec fn parent_of(p: Seq<char>) -> Option<Seq<char>>;

/// The relative path `name` placed in the directory `dir`: a separator
/// goes between them unless `dir` is empty or already ends in one.
pub open spec fn joined(dir: Seq<char>, name: Seq<char>) -> Seq<char> {
    if dir.len() == 0 || dir.last() == '/' {
        dir + name
    } else {
        dir + seq!['/'] + name
    }
}

/// Relies on `std::path::Path::file_name`: the final component of a path,
/// `None` when the path ends in `..` or is a root or empty.
#[verifier::external_body]
fn file_name(p: &String) -> (r: Option<String>)
    ensures
        r is None <==> file_name_of(p@) is None,
        r is Some ==> file_name_of(p@) == Some(r->0@),
{
    std::path::Path::new(p.as_str()).file_name().map(|n| n.to_string_lossy().into_owned())
}

/// Relies on `std::path::Path::parent`: the path without its final
/// component, `None` for a root or an empty path.
#[verifier::external_body]
fn parent(p: &String) -> (r: Option<String>)
    ensures
        r is None <==> parent_of(p@) is None,
        r is Some ==> parent_of(p@) == Some(r->0@),
{
    std::path::Path::new(p.as_str()).parent().map(|d| d.to_string_lossy().into_owned())
}

/// Relies on `std::path::Path::join`: a relative `name` extends `dir`, with
/// a separator added unless `dir` is empty or ends in one.
#[verifier::external_body]
fn join(dir: &String, name: &String) -> (r: String)
    requires
        name@.len() > 0,
        name@[0] != '/',
    ensures
        r@ == joined(dir@, name@),
{
    std::path::Path::new(dir.as_str()).join(name.as_str()).to_string_lossy().into_owned()
}

/// The name of the temporary file for a file named `name`: `.<name>.tmp`.
pub open spec fn temp_name(name: Seq<char>) -> Seq<char> {
    seq!['.'] + name + seq!['.', 't', 'm', 'p']
}

/// The temporary file beside `path`, if `path` names a file.
pub open spec fn temp_path_of(path: Seq<char>) -> Option<Seq<char>> {
    match file_name_of(path) {
        None => None,
        Some(name) => {
            let dir = match parent_of(path) {
                Some(d) => d,
                None => Seq::<char>::empty(),
            };
            Some(joined(dir, temp_name(name)))
        },
    }
}

/// The file next to `original_path`, in the same directory, that a new
/// image is written to before it replaces the original: `.<name>.tmp`.
/// `None` when the path does not end in a file name.
pub fn temp_file_path(original_path: &String) -> (r: Option<String>)
    ensures
        r is None <==> temp_path_of(original_path@) is None,
        r is Some ==> temp_path_of(original_path@) == Some(r->0@),
{
    match file_name(original_path) {
        None => None,
        Some(name) => {
            let mut hidden = String::from_str(".");
            hidden.append(name.as_str());
            hidden.append(".tmp");
            let dir = match parent(original_path) {
                Some(d) => d,
                None => String::new(),
            };
            proof {
                reveal_strlit(".");
                reveal_strlit(".tmp");
                assert(hidden@ =~= temp_name(name@));
            }
            Some(join(&dir, &hidden))
        },
    }
}


/// The file operation that failed.
pub enum IoOperation {
    /// Opening or creating the file at the path.
    Open(String),
    /// Writing to, or syncing, the file at the path.
    Write(String),
    /// Renaming the first path to the second.
    Move(String, String),
}

/// How an I/O error bears on trying again.
pub enum IoErrorClass {
    /// The call was interrupted before it completed.
    Interrupted,
    /// The call would have blocked.
    WouldBlock,
    /// Anything else.
    Other,
}

/// Relies on `std::io::Error::kind`, telling `Interrupted` and `WouldBlock`
/// apart from every other kind.
#[verifier::external_body]
fn classify(error: &std::io::Error) -> (r: IoErrorClass) {
    match error.kind() {
        std::io::ErrorKind::Interrupted => IoErrorClass::Interrupted,
        std::io::ErrorKind::WouldBlock => IoErrorClass::WouldBlock,
        _ => IoErrorClass::Other,
    }
}

/// A failed file operation of the store, with the I/O error behind it.
pub struct StorageError {
    operation: IoOperation,
    error: std::io::Error,
    class: IoErrorClass,
}

impl StorageError {
    /// The operation that failed.
    pub closed spec fn operation_spec(&self) -> IoOperation {
        self.operation
    }

    /// The I/O error behind the failure.
    pub closed spec fn error_spec(&self) -> std::io::Error {
        self.error
    }

    /// How the I/O error behind it bears on trying again.
    pub closed spec fn class_spec(&self) -> IoErrorClass {
        self.class
    }

    /// Opening `file` failed with `error`.
    pub fn open_error(file: String, error: std::io::Error) -> (r: Self)
        ensures
            r.operation_spec() == IoOperation::Open(file),
            r.error_spec() == error,
    {
        let class = classify(&error);
        StorageError { operation: IoOperation::Open(file), error, class }
    }

    /// Writing `file` failed with `error`.
    pub fn write_error(file: String, error: std::io::Error) -> (r: Self)
        ensures
            r.operation_spec() == IoOperation::Write(file),
            r.error_spec() == error,
    {
        let class = classify(&error);
        StorageError { operation: IoOperation::Write(file), error, class }
    }

    /// Renaming `from` to `to` failed with `error`.
    pub fn move_error(from: String, to: String, error: std::io::Error) -> (r: Self)
        ensures
            r.operation_spec() == IoOperation::Move(from, to),
            r.error_spec() == error,
    {
        let class = classify(&error);
        StorageError { operation: IoOperation::Move(from, to), error, class }
    }

    /// The operation that failed.
    pub fn operation(&self) -> (r: &IoOperation)
        ensures
            *r == self.operation_spec(),
    {
        &self.operation
    }

    /// The I/O error behind the failure.
    pub fn io_error(&self) -> (r: &std::io::Error)
        ensures
            *r == self.error_spec(),
    {
        &self.error
    }
}

impl IsFatalError for StorageError {
    /// A failed write is always fatal: the file may be damaged. A failed
    /// open or rename is fatal unless it was interrupted or would block.
    open spec fn fatal(&self) -> bool {
        self.operation_spec() is Write || self.class_spec() is Other
    }

    fn is_fatal(&self) -> (r: bool) {
        match self.operation {
            IoOperation::Write(_) => true,
            _ => match self.class {
                IoErrorClass::Interrupted => false,
                IoErrorClass::WouldBlock => false,
                IoErrorClass::Other => true,
            },
        }
    }
}


/// No two pairs of `s` have the same key.
pub open spec fn distinct_keys(s: Seq<(String, serde_json::Value)>) -> bool {
    forall|a: int, b: int| 0 <= a < b < s.len() ==> (#[trigger] s[a]).0@ != (#[trigger] s[b]).0@
}

/// The map that a list of pairs with distinct keys stands for.
pub open spec fn pairs_map(s: Seq<(String, serde_json::Value)>) -> Contents {
    Map::new(
        |k: Seq<char>| exists|i: int| 0 <= i < s.len() && (#[trigger] s[i]).0@ == k,
        |k: Seq<char>| s[choose|i: int| 0 <= i < s.len() && (#[trigger] s[i]).0@ == k].1,
    )
}

/// The map that a list of pairs stands for when a later pair overrides an
/// earlier one of the same key.
pub open spec fn entries_map(s: Seq<(String, serde_json::Value)>) -> Contents
    decreases s.len(),
{
    if s.len() == 0 {
        Map::empty()
    } else {
        entries_map(s.drop_last()).insert(s.last().0@, s.last().1)
    }
}

proof fn lemma_pairs_map_at(s: Seq<(String, serde_json::Value)>, j: int)
    requires
        distinct_keys(s),
        0 <= j < s.len(),
    ensures
        pairs_map(s).contains_key(s[j].0@),
        pairs_map(s)[s[j].0@] == s[j].1,
{
    let k = s[j].0@;
    assert(exists|i: int| 0 <= i < s.len() && (#[trigger] s[i]).0@ == k);
    let c = choose|i: int| 0 <= i < s.len() && (#[trigger] s[i]).0@ == k;
    if c != j {
        if c < j {
            assert(s[c].0@ != s[j].0@);
        } else {
            assert(s[j].0@ != s[c].0@);
        }
    }
}

/// Puts a store's image on disk: the whole map as one JSON object, written
/// to `temp` and synced, then renamed over `target`. The file system decides
/// the outcome.
pub trait Commit {
    /// Writes `entries` to `temp`, then renames `temp` to `target`.
    fn commit(
        &mut self,
        temp: &String,
        target: &String,
        entries: &Vec<(String, serde_json::Value)>,
    ) -> Result<(), StorageError>;
}

/// The store: where its file is, the values it holds, and what commits its
/// image to disk.
pub struct CachedFileStorage<W> {
    file_path: String,
    temp_file: String,
    data: Vec<(String, serde_json::Value)>,
    writer: W,
}

impl<W> CachedFileStorage<W> {
    /// The values held, by key.
    pub closed spec fn held(&self) -> Contents {
        pairs_map(self.data@)
    }

    /// The file that holds the image.
    pub closed spec fn file_path_spec(&self) -> Seq<char> {
        self.file_path@
    }

    /// The file that a new image is written to before it replaces the
    /// image.
    pub closed spec fn temp_file_spec(&self) -> Seq<char> {
        self.temp_file@
    }

    /// Each key is held once.
    pub closed spec fn well_formed(&self) -> bool {
        distinct_keys(self.data@)
    }

    /// A store for the file at `file_path` that holds `entries`, a later
    /// entry overriding an earlier one of the same key. `None` when the path
    /// does not end in a file name.
    pub fn with_contents(file_path: String, entries: Vec<(String, serde_json::Value)>, writer: W) -> (r: Option<Self>)
        ensures
            r is None <==> temp_path_of(file_path@) is None,
            r is Some ==> {
                &&& r->0.well_formed()
                &&& r->0.held() == entries_map(entries@)
                &&& r->0.file_path_spec() == file_path@
                &&& Some(r->0.temp_file_spec()) == temp_path_of(file_path@)
            },
    {
        let temp_file = match temp_file_path(&file_path) {
            Some(t) => t,
            None => return None,
        };
        let mut store = CachedFileStorage { file_path, temp_file, data: Vec::new(), writer };
        assert(store.held() =~= entries_map(entries@.take(0)));
        let mut i: usize = 0;
        while i < entries.len()
            invariant
                i <= entries@.len(),
                store.well_formed(),
                store.held() == entries_map(entries@.take(i as int)),
                store.file_path@ == file_path@,
                Some(store.temp_file@) == temp_path_of(file_path@),
            decreases entries@.len() - i,
        {
            let ghost prefix = entries@.take(i as int);
            assert(entries@.take(i + 1).drop_last() =~= prefix);
            store.insert(entries[i].0.clone(), copy_value(&entries[i].1));
            i = i + 1;
        }
        assert(entries@.take(i as int) =~= entries@);
        Some(store)
    }

    /// Where `key` is held, if it is.
    fn find(&self, key: &String) -> (r: Option<usize>)
        requires
            self.well_formed(),
        ensures
            r is None ==> !self.held().contains_key(key@),
            r is Some ==> r->0 < self.data@.len() && self.data@[r->0 as int].0@ == key@,
    {
        let mut i: usize = 0;
        while i < self.data.len()
            invariant
                i <= self.data@.len(),
                forall|j: int| 0 <= j < i ==> (#[trigger] self.data@[j]).0@ != key@,
            decreases self.data@.len() - i,
        {
            if self.data[i].0 == *key {
                return Some(i);
            }
            i = i + 1;
        }
        None
    }

    /// The value held for `key`, if any.
    pub fn value(&self, key: &String) -> (r: Option<serde_json::Value>)
        requires
            self.well_formed(),
        ensures
            r == lookup(self.held(), key@),
    {
        match self.find(key) {
            Some(i) => {
                proof { lemma_pairs_map_at(self.data@, i as int); }
                Some(copy_value(&self.data[i].1))
            },
            None => None,
        }
    }

    /// Holds `value` for `key` in memory, and returns what was held before.
    pub fn insert(&mut self, key: String, value: serde_json::Value) -> (r: Option<serde_json::Value>)
        requires
            old(self).well_formed(),
        ensures
            final(self).well_formed(),
            final(self).held() == old(self).held().insert(key@, value),
            r == lookup(old(self).held(), key@),
            final(self).file_path_spec() == old(self).file_path_spec(),
            final(self).temp_file_spec() == old(self).temp_file_spec(),
    {
        let ghost k = key@;
        let ghost d0 = self.data@;
        match self.find(&key) {
            Some(i) => {
                proof { lemma_pairs_map_at(d0, i as int); }
                let previous = copy_value(&self.data[i].1);
                self.data.set(i, (key, value));
                let ghost d1 = self.data@;
                assert(distinct_keys(d1)) by {
                    assert forall|a: int, b: int| 0 <= a < b < d1.len() implies (#[trigger] d1[a]).0@ != (#[trigger] d1[b]).0@ by {
                        if a != i && b != i {
                            assert(d0[a] == d1[a] && d0[b] == d1[b]);
                        } else if a == i {
                            assert(d0[b] == d1[b]);
                            assert(d0[a].0@ != d0[b].0@);
                        } else {
                            assert(d0[a] == d1[a]);
                            assert(d0[a].0@ != d0[b].0@);
                        }
                    }
                }
                assert forall|q: Seq<char>| #[trigger] pairs_map(d1).contains_key(q) == pairs_map(d0).insert(k, value).contains_key(q) && (pairs_map(d1).contains_key(q) ==> pairs_map(d1)[q] == pairs_map(d0).insert(k, value)[q]) by {
                    if q == k {
                        lemma_pairs_map_at(d1, i as int);
                    } else {
                        if pairs_map(d0).contains_key(q) {
                            let j = choose|j: int| 0 <= j < d0.len() && (#[trigger] d0[j]).0@ == q;
                            assert(j != i);
                            assert(d1[j] == d0[j]);
                            lemma_pairs_map_at(d0, j);
                            lemma_pairs_map_at(d1, j);
                        }
                        if pairs_map(d1).contains_key(q) {
                            let j = choose|j: int| 0 <= j < d1.len() && (#[trigger] d1[j]).0@ == q;
                            assert(d1[j] == d0[j]);
                        }
                    }
                }
                assert(pairs_map(d1) =~= pairs_map(d0).insert(k, value));
                Some(previous)
            },
            None => {
                self.data.push((key, value));
                let ghost d1 = self.data@;
                let ghost n = d0.len() as int;
                assert(distinct_keys(d1)) by {
                    assert forall|a: int, b: int| 0 <= a < b < d1.len() implies (#[trigger] d1[a]).0@ != (#[trigger] d1[b]).0@ by {
                        assert(d1[a] == d0[a]);
                        if b < n {
                            assert(d1[b] == d0[b]);
                        } else {
                            assert(!pairs_map(d0).contains_key(k));
                            assert(d0[a].0@ == d1[a].0@);
                        }
                    }
                }
                assert forall|q: Seq<char>| #[trigger] pairs_map(d1).contains_key(q) == pairs_map(d0).insert(k, value).contains_key(q) && (pairs_map(d1).contains_key(q) ==> pairs_map(d1)[q] == pairs_map(d0).insert(k, value)[q]) by {
                    if q == k {
                        lemma_pairs_map_at(d1, n);
                    } else {
                        if pairs_map(d0).contains_key(q) {
                            let j = choose|j: int| 0 <= j < d0.len() && (#[trigger] d0[j]).0@ == q;
                            assert(d1[j] == d0[j]);
                            lemma_pairs_map_at(d0, j);
                            lemma_pairs_map_at(d1, j);
                        }
                        if pairs_map(d1).contains_key(q) {
                            let j = choose|j: int| 0 <= j < d1.len() && (#[trigger] d1[j]).0@ == q;
                            if j < n {
                                assert(d1[j] == d0[j]);
                            }
                        }
                    }
                }
                assert(pairs_map(d1) =~= pairs_map(d0).insert(k, value));
                None
            },
        }
    }

    /// Forgets `key`.
    pub fn remove(&mut self, key: &String)
        requires
            old(self).well_formed(),
        ensures
            final(self).well_formed(),
            final(self).held() == old(self).held().remove(key@),
            final(self).file_path_spec() == old(self).file_path_spec(),
            final(self).temp_file_spec() == old(self).temp_file_spec(),
    {
        let ghost k = key@;
        let ghost d0 = self.data@;
        match self.find(key) {
            None => {
                assert(pairs_map(d0) =~= pairs_map(d0).remove(k));
            },
            Some(i) => {
                self.data.remove(i);
                let ghost d1 = self.data@;
                assert forall|j: int| 0 <= j < d1.len() implies #[trigger] d1[j] == if j < i { d0[j] } else { d0[j + 1] } by {}
                assert(distinct_keys(d1)) by {
                    assert forall|a: int, b: int| 0 <= a < b < d1.len() implies (#[trigger] d1[a]).0@ != (#[trigger] d1[b]).0@ by {
                        let a0 = if a < i { a } else { a + 1 };
                        let b0 = if b < i { b } else { b + 1 };
                        assert(d0[a0].0@ != d0[b0].0@);
                    }
                }
                assert forall|q: Seq<char>| #[trigger] pairs_map(d1).contains_key(q) == pairs_map(d0).remove(k).contains_key(q) && (pairs_map(d1).contains_key(q) ==> pairs_map(d1)[q] == pairs_map(d0)[q]) by {
                    if pairs_map(d1).contains_key(q) {
                        let j = choose|j: int| 0 <= j < d1.len() && (#[trigger] d1[j]).0@ == q;
                        let j0 = if j < i { j } else { j + 1 };
                        assert(d1[j] == d0[j0]);
                        assert(j0 != i as int);
                        assert(d0[j0].0@ != d0[i as int].0@);
                        lemma_pairs_map_at(d0, j0);
                        lemma_pairs_map_at(d1, j);
                    }
                    if q != k && pairs_map(d0).contains_key(q) {
                        let j0 = choose|j: int| 0 <= j < d0.len() && (#[trigger] d0[j]).0@ == q;
                        assert(j0 != i as int);
                        let j = if j0 < i { j0 } else { j0 - 1 };
                        assert(d1[j] == d0[j0]);
                    }
                }
                assert(pairs_map(d1) =~= pairs_map(d0).remove(k));
            },
        }
    }

    /// Puts `key` back as it was before a write: `previous` is what was
    /// held for it, `None` for nothing.
    pub fn restore(&mut self, key: String, previous: Option<serde_json::Value>)
        requires
            old(self).well_formed(),
        ensures
            final(self).well_formed(),
            final(self).held() == match previous {
                Some(v) => old(self).held().insert(key@, v),
                None => old(self).held().remove(key@),
            },
            final(self).file_path_spec() == old(self).file_path_spec(),
            final(self).temp_file_spec() == old(self).temp_file_spec(),
    {
        match previous {
            Some(v) => {
                self.insert(key, v);
            },
            None => self.remove(&key),
        }
    }

    /// Ends a write of `key` whose commit to disk had `outcome`, where
    /// `previous` is what `insert` returned: on failure the value held
    /// before is put back, so memory keeps matching the file.
    pub fn finish_set(
        &mut self,
        key: String,
        previous: Option<serde_json::Value>,
        outcome: Result<(), StorageError>,
    ) -> (r: Result<(), StorageError>)
        requires
            old(self).well_formed(),
        ensures
            final(self).well_formed(),
            r == outcome,
            outcome is Ok ==> final(self).held() == old(self).held(),
            outcome is Err ==> final(self).held() == match previous {
                Some(v) => old(self).held().insert(key@, v),
                None => old(self).held().remove(key@),
            },
            final(self).file_path_spec() == old(self).file_path_spec(),
            final(self).temp_file_spec() == old(self).temp_file_spec(),
    {
        match outcome {
            Ok(done) => Ok(done),
            Err(e) => {
                self.restore(key, previous);
                Err(e)
            },
        }
    }

    /// Every (key, value) pair held, each key once: the image to write.
    pub fn entries(&self) -> (r: Vec<(String, serde_json::Value)>)
        requires
            self.well_formed(),
        ensures
            distinct_keys(r@),
            pairs_map(r@) == self.held(),
    {
        let mut r: Vec<(String, serde_json::Value)> = Vec::new();
        let mut i: usize = 0;
        while i < self.data.len()
            invariant
                i <= self.data@.len(),
                r@ == self.data@.take(i as int),
            decreases self.data@.len() - i,
        {
            r.push((self.data[i].0.clone(), copy_value(&self.data[i].1)));
            assert(r@ =~= self.data@.take(i + 1));
            i = i + 1;
        }
        assert(r@ =~= self.data@);
        r
    }

    /// The file that holds the image.
    pub fn file_path(&self) -> (r: &String)
        ensures
            r@ == self.file_path_spec(),
    {
        &self.file_path
    }

    /// The file that a new image is written to before it replaces the
    /// image.
    pub fn temp_file(&self) -> (r: &String)
        ensures
            r@ == self.temp_file_spec(),
    {
        &self.temp_file
    }
}


impl<W: Commit> CachedFileStorage<W> {
    /// Stores `value` for `key`: holds it in memory, then commits the whole
    /// image to `temp_file` and renames that over `file_path`. Where the
    /// commit fails, the value held before is put back, so memory matches
    /// the file, and the commit's error is returned.
    pub fn write(&mut self, key: String, value: serde_json::Value) -> (r: Result<(), StorageError>)
        requires
            old(self).well_formed(),
        ensures
            final(self).well_formed(),
            r is Ok ==> final(self).held() == old(self).held().insert(key@, value),
            r is Err ==> final(self).held() == old(self).held(),
            final(self).file_path_spec() == old(self).file_path_spec(),
            final(self).temp_file_spec() == old(self).temp_file_spec(),
    {
        let ghost c0 = pairs_map(self.data@);
        let previous = self.insert(key.clone(), value);
        let entries = self.entries();
        let outcome = self.writer.commit(&self.temp_file, &self.file_path, &entries);
        let r = self.finish_set(key, previous, outcome);
        proof {
            lemma_failed_write_restores(c0, key@, value);
        }
        r
    }
}

impl<W: Commit> Storage for CachedFileStorage<W> {
    type SetError = StorageError;
    type GetError = void::Void;

    open spec fn contents(&self) -> Contents {
        self.held()
    }

    open spec fn wf(&self) -> bool {
        self.well_formed()
    }

    /// Reads come from memory and never fail.
    open spec fn reads_infallible(&self) -> bool {
        true
    }

    fn set(&mut self, key: String, value: serde_json::Value) -> (r: Result<(), StorageError>) {
        self.write(key, value)
    }

    fn get(&mut self, key: &String) -> (r: Result<Option<serde_json::Value>, void::Void>) {
        Ok(self.value(key))
    }
}

/// A write whose commit failed leaves the store as it was: `insert`
/// followed by `restore` with what `insert` returned gives the contents back.
pub proof fn lemma_failed_write_restores(c: Contents, key: Seq<char>, value: serde_json::Value)
    ensures
        ({
            let staged = c.insert(key, value);
            match lookup(c, key) {
                Some(v) => staged.insert(key, v),
                None => staged.remove(key),
            }
        }) == c,
{
    match lookup(c, key) {
        Some(v) => {
            assert(c.insert(key, value).insert(key, v) =~= c);
        },
        None => {
            assert(c.insert(key, value).remove(key) =~= c);
        },
    }
}


/// On the file store, a value that was written is the value read back:
/// after a `write` (or `Storage::set`) of `value` at `key` returned `Ok`,
/// a read of `key` succeeds and gives `value`.
pub proof fn law_store_round_trip<W: Commit>(
    before: CachedFileStorage<W>,
    after: CachedFileStorage<W>,
    key: Seq<char>,
    value: serde_json::Value,
)
    requires
        after.held() == before.held().insert(key, value),
    ensures
        after.reads_infallible(),
        lookup(after.contents(), key) == Some(value),
{
}

} // verus!
