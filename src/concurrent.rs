//! The store shared between concurrent callers: one lock over the whole
//! store, taken for the full length of each operation.
use vstd::prelude::*;
use vstd::rwlock::{RwLock, RwLockPredicate};
use std::sync::Arc;
use crate::database::{Database, Lookup, is_identifier};
use crate::document::{Document, with_id_field};

verus! {

/// The one error an operation on the shared store can report: the store
/// could not be reached.
#[derive(Debug, PartialEq)]
pub struct DatabaseError {
    pub message: String,
}

impl DatabaseError {
    pub fn new(message: &str) -> (r: DatabaseError)
        ensures
            r.message@ == message@,
    {
        DatabaseError { message: message.to_owned() }
    }
}

/// What the lock keeps of the store whenever nobody holds it.
pub struct StoreInvariant;

impl RwLockPredicate<Database> for StoreInvariant {
    open spec fn inv(self, v: Database) -> bool {
        v.wf()
    }
}

/// Operations on a store that many callers share. An operation fails only
/// where the store cannot be reached; a path or an identifier that is not
/// there is an empty answer, never an error.
pub trait DatabaseAccess: Sized {
    /// An empty store.
    fn new() -> Self;

    /// Stores `doc` under `path` with a freshly generated identifier and
    /// returns what was stored.
    fn insert(&mut self, path: &str, doc: Document) -> (r: Result<Document, DatabaseError>)
        ensures
            r is Ok,
            r matches Ok(d) ==> exists|id: Seq<char>|
                is_identifier(id) && d@ == with_id_field(doc@, id),
    ;

    /// One document or a collection, as `Database::get` resolves `path`.
    fn get(&self, path: &str) -> (r: Result<Lookup, DatabaseError>)
        ensures
            r is Ok,
    ;

    /// Every document of the collection at `path`.
    fn get_all(&self, path: &str) -> (r: Result<Vec<Document>, DatabaseError>)
        ensures
            r is Ok,
    ;

    /// The document stored under `id` in the collection at `path`, if any.
    fn get_by_id(&self, path: &str, id: &str) -> (r: Result<Option<Document>, DatabaseError>)
        ensures
            r is Ok,
    ;
}

/// A store behind one lock, cheap to hand to each concurrent caller: clones
/// share the same store. Reads and writes alike take the lock exclusively,
/// so no caller sees a collection half updated. The lock cannot be left
/// broken: no operation can panic while it holds it.
#[derive(Clone)]
pub struct ConcurrentDatabase {
    lock: Arc<RwLock<Database, StoreInvariant>>,
}

impl DatabaseAccess for ConcurrentDatabase {
    fn new() -> ConcurrentDatabase {
        let db = Database::new();
        ConcurrentDatabase { lock: Arc::new(RwLock::new(db, Ghost(StoreInvariant))) }
    }

    fn insert(&mut self, path: &str, doc: Document) -> (r: Result<Document, DatabaseError>) {
        let (mut db, handle) = self.lock.acquire_write();
        let stored = db.insert(path, doc);
        handle.release_write(db);
        Ok(stored)
    }

    fn get(&self, path: &str) -> (r: Result<Lookup, DatabaseError>) {
        let (db, handle) = self.lock.acquire_write();
        let found = db.get(path);
        handle.release_write(db);
        Ok(found)
    }

    fn get_all(&self, path: &str) -> (r: Result<Vec<Document>, DatabaseError>) {
        let (db, handle) = self.lock.acquire_write();
        let items = db.get_all(path);
        handle.release_write(db);
        Ok(items)
    }

    fn get_by_id(&self, path: &str, id: &str) -> (r: Result<Option<Document>, DatabaseError>) {
        let (db, handle) = self.lock.acquire_write();
        let found = db.get_by_id(path, id);
        handle.release_write(db);
        Ok(found)
    }
}

} // verus!
