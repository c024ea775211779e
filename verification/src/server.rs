//! The computing half of the server glue: dispatch one decoded request to
//! the engine and build the response envelope. The accept loop, the worker
//! pool, and the byte framing stay with the I/O shell.

use vstd::prelude::*;
use crate::KvsError;
use crate::protocol::{KvRequest, KvResponse};
use crate::store::KvStore;

verus! {

/// Run one request against the store and wrap the outcome as the response
/// the server writes back: a put answers `Ok(None)`, a get answers the
/// value the store maps the key to, a remove answers `Ok(None)` or the
/// `NonExistantKey` error.
pub fn handle_request(store: &mut KvStore, req: KvRequest<String, String>) -> (resp: KvResponse<
    String,
>)
    requires
        old(store).wf(),
    ensures
        final(store).wf(),
        match req {
            KvRequest::Put((k, v)) => {
                &&& final(store)@ == old(store)@.insert(k@, v@)
                &&& resp.value is Ok
                &&& resp.value->Ok_0 is None
            },
            KvRequest::Get(k) => {
                &&& final(store)@ == old(store)@
                &&& resp.value is Ok
                &&& (old(store)@.contains_key(k@) ==> (resp.value->Ok_0 matches Some(v) && v@
                    == old(store)@[k@]))
                &&& (!old(store)@.contains_key(k@) ==> resp.value->Ok_0 is None)
            },
            KvRequest::Rm(k) => {
                &&& (old(store)@.contains_key(k@) ==> final(store)@ == old(store)@.remove(k@)
                    && resp.value is Ok && resp.value->Ok_0 is None)
                &&& (!old(store)@.contains_key(k@) ==> final(store)@ == old(store)@ && resp.value
                    is Err && resp.value->Err_0 == KvsError::NonExistantKey)
            },
        },
{
    match req {
        KvRequest::Put((key, value)) => match store.set(key, value) {
            Ok(_) => KvResponse { value: Ok(None) },
            Err(e) => KvResponse { value: Err(e) },
        },
        KvRequest::Get(key) => match store.get(key) {
            Ok(v) => KvResponse { value: Ok(v) },
            Err(e) => KvResponse { value: Err(e) },
        },
        KvRequest::Rm(key) => match store.remove(key) {
            Ok(_) => KvResponse { value: Ok(None) },
            Err(e) => KvResponse { value: Err(e) },
        },
    }
}

} // verus!
