//! The record codec: frames one key/value record or tombstone as a
//! self-delimiting byte string, so that a concatenation of records can be
//! decoded back one record at a time with no separators.
//!
//! Layout of an encoded record: a one-byte tag, then for each string field
//! an 8-byte little-endian byte length followed by that many bytes of UTF-8.

use vstd::prelude::*;
use vstd::bytes::{spec_u64_from_le_bytes, spec_u64_to_le_bytes, u64_from_le_bytes, u64_to_le_bytes,
    lemma_auto_spec_u64_to_from_le_bytes};
use vstd::utf8::{valid_utf8, decode_utf8, encode_utf8, encode_utf8_valid_utf8, encode_utf8_decode_utf8};
use vstd::slice::slice_subrange;
use vstd::string::StringSliceAdditionalSpecFns;
use crate::KvsError;

verus! {

pub const TAG_PUT: u8 = 0;

pub const TAG_RM: u8 = 1;

/// One record of the log: a key/value pair, or a tombstone for a removed key.
#[derive(Debug, Clone, PartialEq, Eq)]
pub enum KvRecord {
    Put { key: String, value: String },
    Rm { key: String },
}

/// The mathematical shape of a record: its strings as character sequences.
pub enum RecordModel {
    Put { key: Seq<char>, value: Seq<char> },
    Rm { key: Seq<char> },
}

impl View for KvRecord {
    type V = RecordModel;

    open spec fn view(&self) -> RecordModel {
        match self {
            KvRecord::Put { key, value } => RecordModel::Put { key: key@, value: value@ },
            KvRecord::Rm { key } => RecordModel::Rm { key: key@ },
        }
    }
}

/// A string field encoded as an 8-byte little-endian length and UTF-8 bytes.
pub open spec fn spec_encode_str(s: Seq<char>) -> Seq<u8> {
    spec_u64_to_le_bytes(encode_utf8(s).len() as u64) + encode_utf8(s)
}

/// The bytes that stand for one record in the log.
pub open spec fn spec_encode_record(r: RecordModel) -> Seq<u8> {
    match r {
        RecordModel::Put { key, value } => seq![TAG_PUT] + spec_encode_str(key) + spec_encode_str(value),
        RecordModel::Rm { key } => seq![TAG_RM] + spec_encode_str(key),
    }
}

/// A record is encodable when each field's UTF-8 byte length fits the
/// 8-byte length prefix. Every record built from executable strings does.
pub open spec fn encodable(r: RecordModel) -> bool {
    match r {
        RecordModel::Put { key, value } =>
            encode_utf8(key).len() <= u64::MAX && encode_utf8(value).len() <= u64::MAX,
        RecordModel::Rm { key } => encode_utf8(key).len() <= u64::MAX,
    }
}

/// What decoding finds at a given position of a byte string: a record and
/// the exact count of bytes it occupies, too few bytes to finish a record,
/// or bytes that no record encodes to.
pub enum DecodeStep {
    Rec { rec: RecordModel, len: int },
    Short,
    Bad,
}

/// What decoding one length-prefixed string field finds at a position.
pub enum StrStep {
    Str { s: Seq<char>, len: int },
    Short,
    Bad,
}

/// Decode one string field at position `pos` of `b`.
pub open spec fn spec_decode_str(b: Seq<u8>, pos: int) -> StrStep {
    if pos + 8 > b.len() {
        StrStep::Short
    } else {
        let n = spec_u64_from_le_bytes(b.subrange(pos, pos + 8)) as int;
        if pos + 8 + n > b.len() {
            StrStep::Short
        } else {
            let sb = b.subrange(pos + 8, pos + 8 + n);
            if valid_utf8(sb) {
                StrStep::Str { s: decode_utf8(sb), len: 8 + n }
            } else {
                StrStep::Bad
            }
        }
    }
}

/// Decode one record at position `pos` of `b`. Consumes exactly the bytes
/// of that record: the following bytes play no part.
pub open spec fn spec_decode_record(b: Seq<u8>, pos: int) -> DecodeStep {
    if pos + 1 > b.len() {
        DecodeStep::Short
    } else if b[pos] == TAG_PUT {
        match spec_decode_str(b, pos + 1) {
            StrStep::Str { s: key, len: n1 } => match spec_decode_str(b, pos + 1 + n1) {
                StrStep::Str { s: value, len: n2 } =>
                    DecodeStep::Rec { rec: RecordModel::Put { key, value }, len: 1 + n1 + n2 },
                StrStep::Short => DecodeStep::Short,
                StrStep::Bad => DecodeStep::Bad,
            },
            StrStep::Short => DecodeStep::Short,
            StrStep::Bad => DecodeStep::Bad,
        }
    } else if b[pos] == TAG_RM {
        match spec_decode_str(b, pos + 1) {
            StrStep::Str { s: key, len: n1 } =>
                DecodeStep::Rec { rec: RecordModel::Rm { key }, len: 1 + n1 },
            StrStep::Short => DecodeStep::Short,
            StrStep::Bad => DecodeStep::Bad,
        }
    } else {
        DecodeStep::Bad
    }
}

/// A decoded record occupies at least 9 bytes and lies inside `b`.
pub proof fn lemma_decode_bounds(b: Seq<u8>, pos: int)
    requires
        0 <= pos,
        spec_decode_record(b, pos) is Rec,
    ensures
        9 <= spec_decode_record(b, pos)->Rec_len,
        pos + spec_decode_record(b, pos)->Rec_len <= b.len(),
{
}

/// Decoding a string field reads only the bytes of that field: it finds the
/// same field after any extension of the byte string.
proof fn lemma_decode_str_extend(b: Seq<u8>, ext: Seq<u8>, pos: int)
    requires
        0 <= pos,
        spec_decode_str(b, pos) is Str,
    ensures
        spec_decode_str(b + ext, pos) == spec_decode_str(b, pos),
{
    assert(pos + 8 <= b.len());
    assert((b + ext).subrange(pos, pos + 8) =~= b.subrange(pos, pos + 8));
    let n = spec_u64_from_le_bytes(b.subrange(pos, pos + 8)) as int;
    assert(pos + 8 + n <= b.len());
    assert((b + ext).subrange(pos + 8, pos + 8 + n) =~= b.subrange(pos + 8, pos + 8 + n));
}

/// Decoding a record reads only the bytes of that record: it finds the same
/// record after any extension of the byte string.
pub proof fn lemma_decode_extend(b: Seq<u8>, ext: Seq<u8>, pos: int)
    requires
        0 <= pos,
        spec_decode_record(b, pos) is Rec,
    ensures
        spec_decode_record(b + ext, pos) == spec_decode_record(b, pos),
{
    assert(pos + 1 <= b.len());
    assert((b + ext)[pos] == b[pos]);
    if b[pos] == TAG_PUT {
        let n1 = spec_decode_str(b, pos + 1)->Str_len;
        lemma_decode_str_extend(b, ext, pos + 1);
        lemma_decode_str_extend(b, ext, pos + 1 + n1);
    } else {
        lemma_decode_str_extend(b, ext, pos + 1);
    }
}

/// Decoding an encoded string field at the position where it was written
/// yields the field back.
proof fn lemma_decode_str_encode(b: Seq<u8>, pos: int, s: Seq<char>)
    requires
        0 <= pos,
        encode_utf8(s).len() <= u64::MAX,
        pos + spec_encode_str(s).len() <= b.len(),
        b.subrange(pos, pos + spec_encode_str(s).len()) == spec_encode_str(s),
    ensures
        spec_decode_str(b, pos) == (StrStep::Str { s, len: spec_encode_str(s).len() as int }),
{
    lemma_auto_spec_u64_to_from_le_bytes();
    let sb = encode_utf8(s);
    let e = spec_encode_str(s);
    assert(e.len() == 8 + sb.len());
    assert(b.subrange(pos, pos + 8) =~= e.subrange(0, 8));
    assert(e.subrange(0, 8) =~= spec_u64_to_le_bytes(sb.len() as u64));
    let n = spec_u64_from_le_bytes(b.subrange(pos, pos + 8)) as int;
    assert(n == sb.len());
    assert(b.subrange(pos + 8, pos + 8 + n) =~= e.subrange(8, e.len() as int));
    assert(e.subrange(8, e.len() as int) =~= sb);
    encode_utf8_valid_utf8(s);
    encode_utf8_decode_utf8(s);
    assert(decode_utf8(sb) == s);
}

/// Decoding at the position where a record was encoded yields that record
/// back, together with its exact extent: the codec is self-delimiting.
pub proof fn lemma_decode_encode(b: Seq<u8>, pos: int, r: RecordModel)
    requires
        0 <= pos,
        encodable(r),
        pos + spec_encode_record(r).len() <= b.len(),
        b.subrange(pos, pos + spec_encode_record(r).len()) == spec_encode_record(r),
    ensures
        spec_decode_record(b, pos) == (DecodeStep::Rec {
            rec: r,
            len: spec_encode_record(r).len() as int,
        }),
{
    lemma_auto_spec_u64_to_from_le_bytes();
    let e = spec_encode_record(r);
    assert(b[pos] == e[0]);
    match r {
        RecordModel::Put { key, value } => {
            let ek = spec_encode_str(key);
            let ev = spec_encode_str(value);
            assert(e =~= seq![TAG_PUT] + ek + ev);
            assert(e[0] == TAG_PUT);
            assert(b.subrange(pos + 1, pos + 1 + ek.len()) =~= ek) by {
                assert forall|i: int| 0 <= i < ek.len() implies b.subrange(
                    pos + 1,
                    pos + 1 + ek.len() as int,
                )[i] == ek[i] by {
                    assert(b[pos + 1 + i] == e[1 + i]);
                }
            }
            lemma_decode_str_encode(b, pos + 1, key);
            assert(b.subrange(pos + 1 + ek.len(), pos + 1 + ek.len() + ev.len()) =~= ev) by {
                assert forall|i: int| 0 <= i < ev.len() implies b.subrange(
                    pos + 1 + ek.len() as int,
                    pos + 1 + ek.len() + ev.len(),
                )[i] == ev[i] by {
                    assert(b[pos + 1 + ek.len() + i] == e[1 + ek.len() + i]);
                }
            }
            lemma_decode_str_encode(b, pos + 1 + ek.len() as int, value);
        }
        RecordModel::Rm { key } => {
            let ek = spec_encode_str(key);
            assert(e =~= seq![TAG_RM] + ek);
            assert(e[0] == TAG_RM);
            assert(b.subrange(pos + 1, pos + 1 + ek.len()) =~= ek) by {
                assert forall|i: int| 0 <= i < ek.len() implies b.subrange(
                    pos + 1,
                    pos + 1 + ek.len() as int,
                )[i] == ek[i] by {
                    assert(b[pos + 1 + i] == e[1 + i]);
                }
            }
            lemma_decode_str_encode(b, pos + 1, key);
        }
    }
}

/// Relies on String::from_utf8: it succeeds exactly on valid UTF-8 input
/// and returns the string those bytes encode.
#[verifier::external_body]
pub(crate) fn string_from_utf8(bytes: Vec<u8>) -> (r: Option<String>)
    ensures
        r is Some <==> valid_utf8(bytes@),
        r is Some ==> r->0@ == decode_utf8(bytes@),
{
    String::from_utf8(bytes).ok()
}

/// Encode one record. Total: every executable record is encodable.
pub fn encode_record(r: &KvRecord) -> (out: Vec<u8>)
    ensures
        out@ == spec_encode_record(r@),
        encodable(r@),
{
    proof {
        lemma_auto_spec_u64_to_from_le_bytes();
    }
    let mut out: Vec<u8> = Vec::new();
    match r {
        KvRecord::Put { key, value } => {
            out.push(TAG_PUT);
            append_str_field(&mut out, key);
            append_str_field(&mut out, value);
            proof {
                assert(out@ =~= spec_encode_record(r@));
            }
        }
        KvRecord::Rm { key } => {
            out.push(TAG_RM);
            append_str_field(&mut out, key);
            proof {
                assert(out@ =~= spec_encode_record(r@));
            }
        }
    }
    out
}

/// Append one length-prefixed string field to `out`.
fn append_str_field(out: &mut Vec<u8>, s: &String)
    ensures
        final(out)@ == old(out)@ + spec_encode_str(s@),
        encode_utf8(s@).len() <= u64::MAX,
{
    proof {
        lemma_auto_spec_u64_to_from_le_bytes();
    }
    let sb = s.as_str().as_bytes();
    let mut lenb = u64_to_le_bytes(sb.len() as u64);
    out.append(&mut lenb);
    let mut sv = vstd::slice::slice_to_vec(sb);
    out.append(&mut sv);
    proof {
        assert(out@ =~= old(out)@ + spec_encode_str(s@));
    }
}

/// Decode one length-prefixed string field at `pos`.
fn decode_str_at(log: &Vec<u8>, pos: usize) -> (r: Result<(String, usize), KvsError>)
    requires
        pos <= log@.len(),
    ensures
        match spec_decode_str(log@, pos as int) {
            StrStep::Str { s, len } => {
                &&& r matches Ok((rs, rn))
                &&& rs@ == s
                &&& rn == len
            },
            StrStep::Short => r matches Err(e) && e is IOError,
            StrStep::Bad => r matches Err(e) && e is SerializationError,
        },
{
    let n = log.len();
    if n - pos < 8 {
        return Err(KvsError::IOError("unexpected end of log".to_owned()));
    }
    let lenb = slice_subrange(log.as_slice(), pos, pos + 8);
    let m64 = u64_from_le_bytes(lenb);
    if ((n - pos - 8) as u64) < m64 {
        return Err(KvsError::IOError("unexpected end of log".to_owned()));
    }
    let m = m64 as usize;
    let sb = slice_subrange(log.as_slice(), pos + 8, pos + 8 + m);
    let sv = vstd::slice::slice_to_vec(sb);
    match string_from_utf8(sv) {
        Some(s) => Ok((s, 8 + m)),
        None => Err(KvsError::SerializationError("invalid UTF-8 in record".to_owned())),
    }
}

/// Decode the one record that starts at position `pos` of `log`, returning
/// it with the exact count of bytes it occupies. Fails with `IOError` when
/// the bytes end before the record does, and with `SerializationError` when
/// they are not the encoding of any record.
pub fn decode_record_at(log: &Vec<u8>, pos: usize) -> (r: Result<(KvRecord, usize), KvsError>)
    requires
        pos <= log@.len(),
    ensures
        match spec_decode_record(log@, pos as int) {
            DecodeStep::Rec { rec, len } => {
                &&& r matches Ok((rr, rn))
                &&& rr@ == rec
                &&& rn == len
            },
            DecodeStep::Short => r matches Err(e) && e is IOError,
            DecodeStep::Bad => r matches Err(e) && e is SerializationError,
        },
{
    if pos >= log.len() {
        return Err(KvsError::IOError("unexpected end of log".to_owned()));
    }
    let tag = log[pos];
    if tag == TAG_PUT {
        match decode_str_at(log, pos + 1) {
            Ok((key, n1)) => match decode_str_at(log, pos + 1 + n1) {
                Ok((value, n2)) => Ok((KvRecord::Put { key, value }, 1 + n1 + n2)),
                Err(e) => Err(e),
            },
            Err(e) => Err(e),
        }
    } else if tag == TAG_RM {
        match decode_str_at(log, pos + 1) {
            Ok((key, n1)) => Ok((KvRecord::Rm { key }, 1 + n1)),
            Err(e) => Err(e),
        }
    } else {
        Err(KvsError::SerializationError("unknown record tag".to_owned()))
    }
}

} // verus!
