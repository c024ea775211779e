//! The request/response values of the wire protocol. The server reads one
//! request per connection and writes back one response envelope; the byte
//! framing around these values lives with the I/O shell.

use vstd::prelude::*;
use crate::KvsError;

verus! {

/// One client request: write a pair, remove a key, or read a key.
#[derive(Debug, PartialEq, Eq)]
pub enum KvRequest<K, V> {
    Put((K, V)),
    Rm(K),
    Get(K),
}

/// The response envelope: the value read, `None` where the operation
/// returns no value, or the error the engine reported.
#[derive(Debug, PartialEq, Eq)]
pub struct KvResponse<V> {
    pub value: Result<Option<V>, KvsError>,
}

} // verus!
