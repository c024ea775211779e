//! The alternate engine: a thin layer over the embedded sled database that
//! meets the shared engine contract. Every write is flushed before the call
//! returns, and removing an absent key is the `NonExistantKey` error.

use vstd::prelude::*;
use crate::KvsError;
use crate::codec::string_from_utf8;
use vstd::utf8::{decode_utf8, valid_utf8};

verus! {

#[verifier::external_type_specification]
#[verifier::external_body]
pub struct ExSledDb(sled::Db);

#[verifier::external_type_specification]
#[verifier::external_body]
pub struct ExSledError(sled::Error);

/// Relies on sled::open: it opens the database under the directory,
/// creating it when absent.
#[verifier::external_body]
fn sled_open(dir: &str) -> (r: Result<sled::Db, sled::Error>) {
    sled::open(dir)
}

/// Relies on sled::Db::insert: it maps the key bytes to the value bytes
/// and returns the bytes the key was mapped to before, if any.
#[verifier::external_body]
fn sled_insert(db: &sled::Db, key: &str, value: &str) -> (r: Result<
    Option<Vec<u8>>,
    sled::Error,
>) {
    db.insert(key.as_bytes(), value.as_bytes()).map(|prev| prev.map(|iv| iv.to_vec()))
}

/// Relies on sled::Db::get: it returns the bytes the key is mapped to, if
/// the key is present.
#[verifier::external_body]
fn sled_get(db: &sled::Db, key: &str) -> (r: Result<Option<Vec<u8>>, sled::Error>) {
    db.get(key.as_bytes()).map(|found| found.map(|iv| iv.to_vec()))
}

/// Relies on sled::Db::remove: it unmaps the key and returns the bytes the
/// key was mapped to before, if any.
#[verifier::external_body]
fn sled_remove(db: &sled::Db, key: &str) -> (r: Result<Option<Vec<u8>>, sled::Error>) {
    db.remove(key.as_bytes()).map(|prev| prev.map(|iv| iv.to_vec()))
}

/// Relies on sled::Db::flush: it makes every earlier write durable.
#[verifier::external_body]
fn sled_flush(db: &sled::Db) -> (r: Result<usize, sled::Error>) {
    db.flush()
}

/// Relies on sled::Error's Display implementation for the error text.
#[verifier::external_body]
fn sled_error_string(e: &sled::Error) -> (r: String) {
    e.to_string()
}

/// Relies on sled::Db::clone: clones share one underlying database.
#[verifier::external_body]
fn sled_clone(db: &sled::Db) -> (r: sled::Db) {
    db.clone()
}

/// The alternate storage engine, backed by an embedded sled database.
pub struct SledKvsEngine {
    db: sled::Db,
}

impl Clone for SledKvsEngine {
    fn clone(&self) -> (r: SledKvsEngine) {
        SledKvsEngine { db: sled_clone(&self.db) }
    }
}

/// What opening hands on, for each value sled returned: a database handle
/// becomes the engine, an error becomes the library's `IOError`.
pub fn opened_to_engine(opened: Result<sled::Db, sled::Error>) -> (r: Result<
    SledKvsEngine,
    KvsError,
>)
    ensures
        opened is Ok <==> r is Ok,
        r is Err ==> r->Err_0 is IOError,
{
    match opened {
        Ok(db) => Ok(SledKvsEngine { db }),
        Err(e) => Err(KvsError::IOError(sled_error_string(&e))),
    }
}

/// What a read answers, for each value sled returned: an absent key is
/// `Ok(None)`, present bytes are read back as the string they encode, and
/// bytes that are not UTF-8 are the `SerializationError`.
pub fn found_to_value(found: Option<Vec<u8>>) -> (r: Result<Option<String>, KvsError>)
    ensures
        found is None ==> (r matches Ok(v) && v is None),
        found matches Some(b) ==> (valid_utf8(b@) ==> (r matches Ok(v) && v matches Some(s) && s@
            == decode_utf8(b@))),
        found matches Some(b) ==> (!valid_utf8(b@) ==> (r matches Err(e) && e
            is SerializationError)),
{
    match found {
        None => Ok(None),
        Some(bytes) => match string_from_utf8(bytes) {
            Some(s) => Ok(Some(s)),
            None => Err(KvsError::SerializationError("value is not UTF-8".to_owned())),
        },
    }
}

/// What a remove reports, for each value sled returned: sled answering that
/// nothing was removed is exactly the `NonExistantKey` error.
pub fn removed_to_result(prev: Option<Vec<u8>>) -> (r: Result<(), KvsError>)
    ensures
        prev is Some <==> r is Ok,
        prev is None ==> (r matches Err(e) && e == KvsError::NonExistantKey),
{
    match prev {
        Some(_) => Ok(()),
        None => Err(KvsError::NonExistantKey),
    }
}

impl SledKvsEngine {
    /// Open or create the sled database under the directory.
    pub fn new(db_dir: &str) -> (r: Result<SledKvsEngine, KvsError>)
        ensures
            r is Err ==> r->Err_0 is IOError,
    {
        opened_to_engine(sled_open(db_dir))
    }

    /// Map the key to the value and flush: the write is durable before the
    /// call returns.
    pub fn set(&mut self, key: String, value: String) -> (r: Result<(), KvsError>)
        ensures
            r is Err ==> r->Err_0 is IOError,
    {
        match sled_insert(&self.db, key.as_str(), value.as_str()) {
            Ok(_prev) => match sled_flush(&self.db) {
                Ok(_) => Ok(()),
                Err(e) => Err(KvsError::IOError(sled_error_string(&e))),
            },
            Err(e) => Err(KvsError::IOError(sled_error_string(&e))),
        }
    }

    /// The value sled maps the key to, read back as a string.
    pub fn get(&self, key: String) -> (r: Result<Option<String>, KvsError>)
        ensures
            r is Err ==> (r->Err_0 is IOError || r->Err_0 is SerializationError),
    {
        match sled_get(&self.db, key.as_str()) {
            Ok(found) => found_to_value(found),
            Err(e) => Err(KvsError::IOError(sled_error_string(&e))),
        }
    }

    /// Unmap the key and flush; removing a key sled does not hold is the
    /// `NonExistantKey` error.
    pub fn remove(&mut self, key: String) -> (r: Result<(), KvsError>)
        ensures
            r is Err ==> (r->Err_0 == KvsError::NonExistantKey || r->Err_0 is IOError),
    {
        match sled_remove(&self.db, key.as_str()) {
            Ok(prev) => match removed_to_result(prev) {
                Ok(_) => match sled_flush(&self.db) {
                    Ok(_) => Ok(()),
                    Err(e) => Err(KvsError::IOError(sled_error_string(&e))),
                },
                Err(e) => Err(e),
            },
            Err(e) => Err(KvsError::IOError(sled_error_string(&e))),
        }
    }
}

} // verus!
