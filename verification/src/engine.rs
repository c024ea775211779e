//! The engine abstraction: one contract shared by the log-structured store
//! and the alternate sled-backed engine, so the server can drive either.

use vstd::prelude::*;
use crate::KvsError;
use crate::store::KvStore;
use crate::sled_engine::SledKvsEngine;

verus! {

/// Marks a type usable as a store key.
pub trait Key {

}

/// Marks a type usable as a store value.
pub trait Value {

}

impl Key for String {

}

impl Value for String {

}

/// The operations every storage engine offers. Each engine carries its own
/// invariant, which opening establishes and every operation preserves.
pub trait KvsEngine<K: Key, V: Value>: Sized {
    spec fn engine_inv(&self) -> bool;

    /// Map the key to the value, durably.
    fn set(&mut self, key: K, value: V) -> (r: Result<(), KvsError>)
        requires
            old(self).engine_inv(),
        ensures
            final(self).engine_inv(),
    ;

    /// The value the engine maps the key to, or `None` for an absent key.
    fn get(&self, key: K) -> (r: Result<Option<V>, KvsError>)
        requires
            self.engine_inv(),
    ;

    /// Unmap the key, durably; `NonExistantKey` when it is absent.
    fn remove(&mut self, key: K) -> (r: Result<(), KvsError>)
        requires
            old(self).engine_inv(),
        ensures
            final(self).engine_inv(),
    ;
}

impl KvsEngine<String, String> for KvStore {
    open spec fn engine_inv(&self) -> bool {
        self.wf()
    }

    fn set(&mut self, key: String, value: String) -> (r: Result<(), KvsError>) {
        self.set(key, value)
    }

    fn get(&self, key: String) -> (r: Result<Option<String>, KvsError>) {
        self.get(key)
    }

    fn remove(&mut self, key: String) -> (r: Result<(), KvsError>) {
        self.remove(key)
    }
}

impl KvsEngine<String, String> for SledKvsEngine {
    open spec fn engine_inv(&self) -> bool {
        true
    }

    fn set(&mut self, key: String, value: String) -> (r: Result<(), KvsError>) {
        self.set(key, value)
    }

    fn get(&self, key: String) -> (r: Result<Option<String>, KvsError>) {
        self.get(key)
    }

    fn remove(&mut self, key: String) -> (r: Result<(), KvsError>) {
        self.remove(key)
    }
}

} // verus!
