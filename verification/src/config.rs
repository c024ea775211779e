//! Engine selection: the database directory records which engine type it
//! was created with, and a later start must not switch engines. The library
//! decides the choice and frames the small configuration document; reading
//! and writing `config.info` stays with the I/O shell.

use vstd::prelude::*;
use crate::KvsError;

verus! {

/// Which storage backend serves the database directory.
#[derive(Debug, Clone, Copy, PartialEq, Eq, Structural)]
pub enum KvsEngineType {
    Sled,
    Kvs,
}

/// Decide the engine a server start uses. A recorded previous choice wins:
/// a requested engine that contradicts it is the `WrongEngine` error, and
/// no request keeps it. With nothing recorded, the requested engine is
/// used, defaulting to the log-structured one.
pub fn resolve_engine(previous: Option<KvsEngineType>, requested: Option<KvsEngineType>) -> (r:
    Result<KvsEngineType, KvsError>)
    ensures
        match previous {
            Some(p) => if requested is Some && requested->0 != p {
                r is Err && r->Err_0 == KvsError::WrongEngine
            } else {
                r is Ok && r->Ok_0 == p
            },
            None => r is Ok && r->Ok_0 == (if requested is Some {
                requested->0
            } else {
                KvsEngineType::Kvs
            }),
        },
{
    match previous {
        Some(p) => match requested {
            Some(e) => if e != p {
                Err(KvsError::WrongEngine)
            } else {
                Ok(p)
            },
            None => Ok(p),
        },
        None => match requested {
            Some(e) => Ok(e),
            None => Ok(KvsEngineType::Kvs),
        },
    }
}

/// The bytes of the configuration document for an engine type: the type's
/// name as a quoted string.
pub open spec fn spec_config_bytes(t: KvsEngineType) -> Seq<u8> {
    match t {
        KvsEngineType::Kvs => seq![34u8, 75u8, 118u8, 115u8, 34u8],
        KvsEngineType::Sled => seq![34u8, 83u8, 108u8, 101u8, 100u8, 34u8],
    }
}

/// Frame the configuration document that records the engine type.
pub fn encode_engine_config(t: KvsEngineType) -> (out: Vec<u8>)
    ensures
        out@ == spec_config_bytes(t),
{
    let mut out: Vec<u8> = Vec::new();
    match t {
        KvsEngineType::Kvs => {
            out.push(34);
            out.push(75);
            out.push(118);
            out.push(115);
            out.push(34);
        }
        KvsEngineType::Sled => {
            out.push(34);
            out.push(83);
            out.push(108);
            out.push(101);
            out.push(100);
            out.push(34);
        }
    }
    proof {
        assert(out@ =~= spec_config_bytes(t));
    }
    out
}

/// Read the engine type back out of a configuration document. Succeeds
/// exactly on the two documents the library writes.
pub fn parse_engine_config(bytes: &Vec<u8>) -> (r: Result<KvsEngineType, KvsError>)
    ensures
        bytes@ == spec_config_bytes(KvsEngineType::Kvs) <==> r is Ok && r->Ok_0
            == KvsEngineType::Kvs,
        bytes@ == spec_config_bytes(KvsEngineType::Sled) <==> r is Ok && r->Ok_0
            == KvsEngineType::Sled,
        r is Err ==> r->Err_0 is SerializationError,
{
    if bytes.len() == 5 && bytes[0] == 34 && bytes[1] == 75 && bytes[2] == 118 && bytes[3] == 115
        && bytes[4] == 34 {
        proof {
            assert(bytes@ =~= spec_config_bytes(KvsEngineType::Kvs));
        }
        Ok(KvsEngineType::Kvs)
    } else if bytes.len() == 6 && bytes[0] == 34 && bytes[1] == 83 && bytes[2] == 108 && bytes[3]
        == 101 && bytes[4] == 100 && bytes[5] == 34 {
        proof {
            assert(bytes@ =~= spec_config_bytes(KvsEngineType::Sled));
        }
        Ok(KvsEngineType::Sled)
    } else {
        proof {
            assert(bytes@ != spec_config_bytes(KvsEngineType::Kvs));
            assert(bytes@ != spec_config_bytes(KvsEngineType::Sled));
        }
        Err(KvsError::SerializationError("unrecognized engine configuration".to_owned()))
    }
}

} // verus!
