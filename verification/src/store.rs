//! The log-structured storage engine: an append-only record log, the
//! in-memory index of latest locations, and size-triggered compaction.
//!
//! The engine core works on the log as a byte string. Opening replays the
//! log into an index; every set appends a `Put` record; every remove
//! appends a tombstone; compaction rewrites only the live records into a
//! fresh log. A shell around the engine persists the same bytes in a file.

use vstd::prelude::*;
use crate::KvsError;
use crate::codec::{KvRecord, RecordModel, DecodeStep, spec_decode_record, spec_encode_record,
    encodable, encode_record, decode_record_at, lemma_decode_bounds, lemma_decode_extend,
    lemma_decode_encode};
use crate::index::{ValueData, LocModel, dash_view, dash_new, dash_insert, dash_get, dash_remove,
    dash_keys, empty_index};

verus! {

/// Compaction is triggered when this many bytes of the log have been
/// superseded by later writes or removes.
pub const COMPACT_BYTES: u128 = 1000000;

/// How one replayed record changes the index: a `Put` maps its key to the
/// record's location, a tombstone unmaps its key.
pub open spec fn spec_apply_record(
    m: Map<Seq<char>, LocModel>,
    r: RecordModel,
    pos: int,
    n: int,
) -> Map<Seq<char>, LocModel> {
    match r {
        RecordModel::Put { key, value } => m.insert(key, LocModel { offset: pos, len: n }),
        RecordModel::Rm { key } => m.remove(key),
    }
}

/// Replay the log from `pos` onward, starting from index `m`: decode one
/// record at a time and apply each to the index. `None` when the bytes from
/// `pos` on are not a concatenation of records.
pub open spec fn spec_replay_from(
    b: Seq<u8>,
    pos: int,
    m: Map<Seq<char>, LocModel>,
) -> Option<Map<Seq<char>, LocModel>>
    decreases b.len() - pos,
    when 0 <= pos <= b.len()
{
    if pos == b.len() {
        Some(m)
    } else {
        match spec_decode_record(b, pos) {
            DecodeStep::Rec { rec, len } => if len < 1 || pos + len > b.len() {
                // a decoded record never has this shape; the test bounds the recursion
                None
            } else {
                spec_replay_from(b, pos + len, spec_apply_record(m, rec, pos, len))
            },
            DecodeStep::Short => None,
            DecodeStep::Bad => None,
        }
    }
}

/// The index that the full recorded history of the log produces.
pub open spec fn spec_replay(b: Seq<u8>) -> Option<Map<Seq<char>, LocModel>> {
    spec_replay_from(b, 0, empty_index())
}

/// How a failing replay fails from `pos` onward: `true` when it stops on a
/// record the bytes end in the middle of, `false` when it stops on bytes no
/// record encodes to. Meaningful only where replay fails.
pub open spec fn spec_replay_stops_short(b: Seq<u8>, pos: int) -> bool
    decreases b.len() - pos,
    when 0 <= pos <= b.len()
{
    if pos == b.len() {
        false
    } else {
        match spec_decode_record(b, pos) {
            DecodeStep::Rec { rec, len } => if len < 1 || pos + len > b.len() {
                false
            } else {
                spec_replay_stops_short(b, pos + len)
            },
            DecodeStep::Short => true,
            DecodeStep::Bad => false,
        }
    }
}

/// Every entry of the index points at a whole `Put` record inside the log
/// whose key is the entry's own key.
pub open spec fn index_wf(b: Seq<u8>, m: Map<Seq<char>, LocModel>) -> bool {
    forall|k: Seq<char>| #[trigger] m.contains_key(k) ==> {
        &&& 0 <= m[k].offset
        &&& 9 <= m[k].len
        &&& m[k].offset + m[k].len <= b.len()
        &&& spec_decode_record(b, m[k].offset) is Rec
        &&& spec_decode_record(b, m[k].offset)->Rec_len == m[k].len
        &&& spec_decode_record(b, m[k].offset)->Rec_rec is Put
        &&& spec_decode_record(b, m[k].offset)->Rec_rec->Put_key == k
    }
}

/// The value of the `Put` record at offset `off` of the log.
pub open spec fn spec_value_at(b: Seq<u8>, off: int) -> Seq<char> {
    spec_decode_record(b, off)->Rec_rec->Put_value
}

/// The key-to-value map that a log and its index describe.
pub open spec fn spec_kv_map(b: Seq<u8>, m: Map<Seq<char>, LocModel>) -> Map<Seq<char>, Seq<char>> {
    Map::new(|k: Seq<char>| m.contains_key(k), |k: Seq<char>| spec_value_at(b, m[k].offset))
}

/// Byte `i` of the log lies inside the record of some live key: nothing at
/// that position is stale.
pub open spec fn spec_in_live_record(m: Map<Seq<char>, LocModel>, i: int) -> bool {
    exists|k: Seq<char>| #[trigger] m.contains_key(k) && m[k].offset <= i < m[k].offset + m[k].len
}

/// The bytes the records of the listed keys occupy: the sum of their
/// lengths in the index.
pub open spec fn spec_records_size(ks: Seq<Seq<char>>, m: Map<Seq<char>, LocModel>) -> int
    decreases ks.len(),
{
    if ks.len() == 0 {
        0
    } else {
        spec_records_size(ks.drop_last(), m) + m[ks.last()].len
    }
}

/// Mapping one more key changes no listed key's share of the size.
proof fn lemma_records_size_insert_absent(
    ks: Seq<Seq<char>>,
    m: Map<Seq<char>, LocModel>,
    k: Seq<char>,
    v: LocModel,
)
    requires
        !ks.contains(k),
    ensures
        spec_records_size(ks, m.insert(k, v)) == spec_records_size(ks, m),
    decreases ks.len(),
{
    if ks.len() > 0 {
        assert(ks.last() != k);
        assert(!ks.drop_last().contains(k)) by {
            if ks.drop_last().contains(k) {
                let j = choose|j: int| 0 <= j < ks.drop_last().len() && ks.drop_last()[j] == k;
                assert(ks[j] == k);
            }
        }
        lemma_records_size_insert_absent(ks.drop_last(), m, k, v);
    }
}

/// The key-to-value map that opening a directory holding exactly the bytes
/// `b` reconstructs; `None` when the bytes are malformed.
pub open spec fn spec_open_view(b: Seq<u8>) -> Option<Map<Seq<char>, Seq<char>>> {
    match spec_replay(b) {
        Some(m) => Some(spec_kv_map(b, m)),
        None => None,
    }
}

/// Replay keeps every index entry pointing at a whole `Put` record for its
/// own key.
pub proof fn lemma_replay_from_wf(b: Seq<u8>, pos: int, m: Map<Seq<char>, LocModel>)
    requires
        0 <= pos <= b.len(),
        index_wf(b, m),
        spec_replay_from(b, pos, m) is Some,
    ensures
        index_wf(b, spec_replay_from(b, pos, m)->0),
    decreases b.len() - pos,
{
    if pos == b.len() {
    } else {
        let step = spec_decode_record(b, pos);
        let rec = step->Rec_rec;
        let n = step->Rec_len;
        lemma_decode_bounds(b, pos);
        let m2 = spec_apply_record(m, rec, pos, n);
        assert(index_wf(b, m2)) by {
            match rec {
                RecordModel::Put { key, value } => {
                    assert forall|k: Seq<char>| #[trigger] m2.contains_key(k) implies {
                        &&& 0 <= m2[k].offset
                        &&& 9 <= m2[k].len
                        &&& m2[k].offset + m2[k].len <= b.len()
                        &&& spec_decode_record(b, m2[k].offset) is Rec
                        &&& spec_decode_record(b, m2[k].offset)->Rec_len == m2[k].len
                        &&& spec_decode_record(b, m2[k].offset)->Rec_rec is Put
                        &&& spec_decode_record(b, m2[k].offset)->Rec_rec->Put_key == k
                    } by {
                        if k != key {
                            assert(m.contains_key(k));
                        }
                    }
                }
                RecordModel::Rm { key } => {
                    assert forall|k: Seq<char>| #[trigger] m2.contains_key(k) implies {
                        &&& 0 <= m2[k].offset
                        &&& 9 <= m2[k].len
                        &&& m2[k].offset + m2[k].len <= b.len()
                        &&& spec_decode_record(b, m2[k].offset) is Rec
                        &&& spec_decode_record(b, m2[k].offset)->Rec_len == m2[k].len
                        &&& spec_decode_record(b, m2[k].offset)->Rec_rec is Put
                        &&& spec_decode_record(b, m2[k].offset)->Rec_rec->Put_key == k
                    } by {
                        assert(m.contains_key(k));
                    }
                }
            }
        }
        lemma_replay_from_wf(b, pos + n, m2);
    }
}

/// The index that replaying a whole log produces is well formed.
pub proof fn lemma_replay_wf(b: Seq<u8>)
    requires
        spec_replay(b) is Some,
    ensures
        index_wf(b, spec_replay(b)->0),
{
    lemma_replay_from_wf(b, 0, empty_index());
}

/// Replaying an extended log passes through the state the original log
/// replays to: the extension is replayed from there.
pub proof fn lemma_replay_from_extend(b: Seq<u8>, ext: Seq<u8>, pos: int, m: Map<Seq<char>, LocModel>)
    requires
        0 <= pos <= b.len(),
        spec_replay_from(b, pos, m) is Some,
    ensures
        spec_replay_from(b + ext, pos, m) == spec_replay_from(
            b + ext,
            b.len() as int,
            spec_replay_from(b, pos, m)->0,
        ),
    decreases b.len() - pos,
{
    if pos == b.len() {
        assert(pos == (b + ext).len() || spec_decode_record(b + ext, pos) is Rec || !(
        spec_decode_record(b + ext, pos) is Rec));
    } else {
        let step = spec_decode_record(b, pos);
        let rec = step->Rec_rec;
        let n = step->Rec_len;
        lemma_decode_bounds(b, pos);
        lemma_decode_extend(b, ext, pos);
        lemma_replay_from_extend(b, ext, pos + n, spec_apply_record(m, rec, pos, n));
    }
}

/// Appending one encoded record to a well-formed log replays to the old
/// index with that one record applied at the old end of the log.
pub proof fn lemma_replay_append_record(b: Seq<u8>, m: Map<Seq<char>, LocModel>, r: RecordModel)
    requires
        spec_replay(b) == Some(m),
        encodable(r),
    ensures
        spec_replay(b + spec_encode_record(r)) == Some(
            spec_apply_record(m, r, b.len() as int, spec_encode_record(r).len() as int),
        ),
{
    let e = spec_encode_record(r);
    let b2 = b + e;
    vstd::bytes::lemma_auto_spec_u64_to_from_le_bytes();
    assert(e.len() >= 9);
    assert(b2.subrange(b.len() as int, b.len() + e.len() as int) =~= e);
    lemma_decode_encode(b2, b.len() as int, r);
    lemma_replay_from_extend(b, e, 0, empty_index());
    assert(spec_replay_from(b2, b.len() as int, m) == spec_replay_from(
        b2,
        b.len() + e.len() as int,
        spec_apply_record(m, r, b.len() as int, e.len() as int),
    ));
}

/// Durability of a write: reopening a log extended by the record of
/// `set(k, v)` reconstructs the old map with `k` mapped to `v`. The last
/// value set before a reopen is the one read after it.
pub proof fn lemma_reopen_after_set(b: Seq<u8>, k: Seq<char>, v: Seq<char>)
    requires
        spec_open_view(b) is Some,
        encodable(RecordModel::Put { key: k, value: v }),
    ensures
        spec_open_view(b + spec_encode_record(RecordModel::Put { key: k, value: v })) == Some(
            spec_open_view(b)->0.insert(k, v),
        ),
{
    let m = spec_replay(b)->0;
    let r = RecordModel::Put { key: k, value: v };
    let e = spec_encode_record(r);
    let b2 = b + e;
    lemma_replay_wf(b);
    lemma_replay_append_record(b, m, r);
    let m2 = spec_apply_record(m, r, b.len() as int, e.len() as int);
    assert(b2.subrange(b.len() as int, b.len() + e.len() as int) =~= e);
    lemma_decode_encode(b2, b.len() as int, r);
    assert(spec_kv_map(b2, m2) =~= spec_kv_map(b, m).insert(k, v)) by {
        assert forall|kk: Seq<char>| #[trigger] m2.contains_key(kk) && kk != k implies
            spec_value_at(b2, m2[kk].offset) == spec_value_at(b, m[kk].offset) by {
            assert(m.contains_key(kk));
            lemma_decode_extend(b, e, m[kk].offset);
        }
    }
}

/// Durability of a remove: reopening a log extended by the tombstone of
/// `remove(k)` reconstructs the old map without `k`. A removed key stays
/// absent after a reopen.
pub proof fn lemma_reopen_after_remove(b: Seq<u8>, k: Seq<char>)
    requires
        spec_open_view(b) is Some,
        encodable(RecordModel::Rm { key: k }),
    ensures
        spec_open_view(b + spec_encode_record(RecordModel::Rm { key: k })) == Some(
            spec_open_view(b)->0.remove(k),
        ),
{
    let m = spec_replay(b)->0;
    let r = RecordModel::Rm { key: k };
    let e = spec_encode_record(r);
    let b2 = b + e;
    lemma_replay_wf(b);
    lemma_replay_append_record(b, m, r);
    let m2 = spec_apply_record(m, r, b.len() as int, e.len() as int);
    assert(spec_kv_map(b2, m2) =~= spec_kv_map(b, m).remove(k)) by {
        assert forall|kk: Seq<char>| #[trigger] m2.contains_key(kk) implies spec_value_at(
            b2,
            m2[kk].offset,
        ) == spec_value_at(b, m[kk].offset) by {
            assert(m.contains_key(kk));
            lemma_decode_extend(b, e, m[kk].offset);
        }
    }
}

/// What a write makes a later read return: inserting a pair maps the key to
/// exactly that value, and leaves every other key as it was. This ties the
/// contract of `set` to the contract of `get`.
pub proof fn lemma_set_then_get(m: Map<Seq<char>, Seq<char>>, k: Seq<char>, v: Seq<char>)
    ensures
        m.insert(k, v).contains_key(k),
        m.insert(k, v)[k] == v,
        forall|k2: Seq<char>| k2 != k && m.contains_key(k2) ==> #[trigger] m.insert(k, v)[k2]
            == m[k2],
{
}

/// The storage engine core. It owns the active log as bytes, the index,
/// and the count of superseded bytes; a persistence shell writes the same
/// bytes to the active file.
pub struct KvStore {
    log: Vec<u8>,
    index: dashmap::DashMap<String, ValueData>,
    uncompacted_bytes: u128,
}

impl View for KvStore {
    type V = Map<Seq<char>, Seq<char>>;

    closed spec fn view(&self) -> Map<Seq<char>, Seq<char>> {
        spec_kv_map(self.log@, dash_view(self.index))
    }
}

impl KvStore {
    /// The bytes of the active log.
    pub closed spec fn log_view(self) -> Seq<u8> {
        self.log@
    }

    /// The count of bytes superseded by later writes, not yet reclaimed.
    pub closed spec fn uncompacted(self) -> u128 {
        self.uncompacted_bytes
    }

    /// The structural invariant: replaying the log yields exactly the index.
    pub closed spec fn inv(self) -> bool {
        spec_replay(self.log@) == Some(dash_view(self.index))
    }

    /// Well formed: structurally sound, with the superseded-byte count at or
    /// under the compaction threshold.
    pub open spec fn wf(self) -> bool {
        &&& self.inv()
        &&& self.uncompacted() <= COMPACT_BYTES
    }

    /// Durability: what the store shows is exactly what reopening its log
    /// bytes reconstructs.
    pub proof fn lemma_view_durable(self)
        requires
            self.inv(),
        ensures
            spec_open_view(self.log_view()) == Some(self@),
    {
    }

    /// How many bytes the active log holds.
    pub fn log_len(&self) -> (r: usize)
        ensures
            r == self.log_view().len(),
    {
        self.log.len()
    }

    /// The bytes of the active log, for a shell that persists them.
    pub fn log_bytes(&self) -> (r: &Vec<u8>)
        ensures
            r@ == self.log_view(),
    {
        &self.log
    }

    /// Open a store from the bytes of its log: replay every record in file
    /// order, a `Put` overwriting the key's entry and a tombstone removing
    /// it. Succeeds exactly when the bytes are a concatenation of records.
    pub fn open(log: Vec<u8>) -> (r: Result<KvStore, KvsError>)
        ensures
            r is Ok <==> spec_open_view(log@) is Some,
            r matches Ok(s) ==> {
                &&& s.wf()
                &&& s.log_view() == log@
                &&& s.uncompacted() == 0
                &&& Some(s@) == spec_open_view(log@)
            },
            r matches Err(e) ==> (e is IOError <==> spec_replay_stops_short(log@, 0)) && (e
                is IOError || e is SerializationError),
    {
        let mut index = dash_new();
        let mut pos: usize = 0;
        let n = log.len();
        while pos < n
            invariant
                pos <= n,
                n == log@.len(),
                spec_replay_from(log@, pos as int, dash_view(index)) == spec_replay(log@),
                spec_replay_stops_short(log@, pos as int) == spec_replay_stops_short(log@, 0),
            decreases n - pos,
        {
            match decode_record_at(&log, pos) {
                Ok((rec, rn)) => {
                    proof {
                        lemma_decode_bounds(log@, pos as int);
                    }
                    match rec {
                        KvRecord::Put { key, value: _ } => {
                            dash_insert(&mut index, key, ValueData { offset: pos as u64, size: rn });
                        }
                        KvRecord::Rm { key } => {
                            dash_remove(&mut index, &key);
                        }
                    }
                    pos = pos + rn;
                }
                Err(e) => {
                    return Err(e);
                }
            }
        }
        Ok(KvStore { log, index, uncompacted_bytes: 0 })
    }

    /// Rewrite the log so that it holds exactly one `Put` record for each
    /// live key, swap the index to the fresh locations, and reset the
    /// superseded-byte count. The map of keys to values is unchanged.
    pub fn compact(&mut self)
        requires
            old(self).inv(),
        ensures
            final(self).wf(),
            final(self)@ == old(self)@,
            final(self).uncompacted() == 0,
            forall|i: int| 0 <= i < final(self).log_view().len() ==> spec_in_live_record(
                spec_replay(final(self).log_view())->0,
                i,
            ),
            exists|ks: Seq<Seq<char>>| {
                &&& ks.no_duplicates()
                &&& ks.to_set() == spec_replay(final(self).log_view())->0.dom()
                &&& final(self).log_view().len() == #[trigger] spec_records_size(
                    ks,
                    spec_replay(final(self).log_view())->0,
                )
            },
    {
        let keys = dash_keys(&self.index);
        let mut new_log: Vec<u8> = Vec::new();
        let mut new_index = dash_new();
        let ghost old_b = self.log@;
        let ghost old_m = dash_view(self.index);
        let ghost kseq = keys@.map_values(|k: String| k@);
        proof {
            lemma_replay_wf(old_b);
        }
        let nkeys = keys.len();
        let mut i: usize = 0;
        while i < nkeys
            invariant
                i <= nkeys,
                nkeys == keys@.len(),
                kseq == keys@.map_values(|k: String| k@),
                kseq.to_set() == old_m.dom(),
                self.log@ == old_b,
                dash_view(self.index) == old_m,
                index_wf(old_b, old_m),
                spec_replay(new_log@) == Some(dash_view(new_index)),
                dash_view(new_index).dom() == kseq.take(i as int).to_set(),
                kseq.no_duplicates(),
                forall|j: int| 0 <= j < new_log@.len() ==> spec_in_live_record(
                    dash_view(new_index),
                    j,
                ),
                forall|kk: Seq<char>| #[trigger] dash_view(new_index).contains_key(kk)
                    ==> old_m.contains_key(kk) && spec_value_at(
                    new_log@,
                    dash_view(new_index)[kk].offset,
                ) == spec_value_at(old_b, old_m[kk].offset),
                new_log@.len() == spec_records_size(kseq.take(i as int), dash_view(new_index)),
            decreases nkeys - i,
        {
            let k = &keys[i];
            proof {
                assert(kseq[i as int] == k@);
                assert(kseq.to_set().contains(k@));
                assert(old_m.contains_key(k@));
            }
            match dash_get(&self.index, k) {
                Some(vd) => {
                    let loglen = self.log.len();
                    proof {
                        assert(vd@ == old_m[k@]);
                        assert(vd.offset as int + vd.size as int <= loglen as int);
                    }
                    let off = vd.offset as usize;
                    match decode_record_at(&self.log, off) {
                        Ok((rec, _rn)) => {
                            let mut bytes = encode_record(&rec);
                            let off2 = new_log.len();
                            let size2 = bytes.len();
                            let ghost prev_log = new_log@;
                            let ghost prev_m = dash_view(new_index);
                            let ghost enc = spec_encode_record(rec@);
                            proof {
                                lemma_replay_append_record(prev_log, prev_m, rec@);
                                lemma_replay_from_wf(prev_log, 0, empty_index());
                            }
                            new_log.append(&mut bytes);
                            dash_insert(
                                &mut new_index,
                                k.clone(),
                                ValueData { offset: off2 as u64, size: size2 },
                            );
                            proof {
                                let m2 = dash_view(new_index);
                                assert(new_log@ == prev_log + enc);
                                assert(m2 == prev_m.insert(
                                    k@,
                                    LocModel { offset: off2 as int, len: size2 as int },
                                ));
                                assert(kseq.take(i + 1) =~= kseq.take(i as int).push(
                                    kseq[i as int],
                                ));
                                assert(m2.dom() =~= kseq.take(i + 1).to_set()) by {
                                    assert forall|a: Seq<char>| kseq.take(i + 1).to_set().contains(
                                        a,
                                    ) implies m2.dom().contains(a) by {
                                        if a != k@ {
                                            assert(kseq.take(i as int).contains(a));
                                        }
                                    }
                                    assert forall|a: Seq<char>| m2.dom().contains(a) implies kseq.take(
                                        i + 1,
                                    ).to_set().contains(a) by {
                                        if a == k@ {
                                            assert(kseq.take(i + 1)[i as int] == a);
                                        } else {
                                            assert(kseq.take(i as int).contains(a));
                                            let j = choose|j: int|
                                                0 <= j < i && kseq.take(i as int)[j] == a;
                                            assert(kseq.take(i + 1)[j] == a);
                                        }
                                    }
                                }
                                assert(new_log@.subrange(off2 as int, off2 + enc.len()) =~= enc);
                                lemma_decode_encode(new_log@, off2 as int, rec@);
                                assert forall|kk: Seq<char>| #[trigger] m2.contains_key(kk)
                                    implies old_m.contains_key(kk) && spec_value_at(
                                    new_log@,
                                    m2[kk].offset,
                                ) == spec_value_at(old_b, old_m[kk].offset) by {
                                    if kk == k@ {
                                        assert(spec_value_at(new_log@, off2 as int)
                                            == rec@->Put_value);
                                    } else {
                                        assert(prev_m.contains_key(kk));
                                        lemma_decode_extend(prev_log, enc, prev_m[kk].offset);
                                    }
                                }
                                assert(!prev_m.contains_key(k@)) by {
                                    if kseq.take(i as int).to_set().contains(k@) {
                                        let j = choose|j: int|
                                            0 <= j < i && kseq.take(i as int)[j] == k@;
                                        assert(kseq[j] == kseq[i as int]);
                                    }
                                }
                                assert forall|j: int| 0 <= j < new_log@.len() implies
                                    spec_in_live_record(m2, j) by {
                                    if j < prev_log.len() {
                                        assert(spec_in_live_record(prev_m, j));
                                        let kk = choose|kk: Seq<char>|
                                            #[trigger] prev_m.contains_key(kk)
                                                && prev_m[kk].offset <= j < prev_m[kk].offset
                                                + prev_m[kk].len;
                                        assert(kk != k@);
                                        assert(m2.contains_key(kk) && m2[kk] == prev_m[kk]);
                                    } else {
                                        assert(m2.contains_key(k@) && m2[k@].offset <= j < m2[k@].offset
                                            + m2[k@].len);
                                    }
                                }
                                assert(!kseq.take(i as int).contains(k@)) by {
                                    if kseq.take(i as int).contains(k@) {
                                        let j = choose|j: int|
                                            0 <= j < i && kseq.take(i as int)[j] == k@;
                                        assert(kseq[j] == kseq[i as int]);
                                    }
                                }
                                lemma_records_size_insert_absent(
                                    kseq.take(i as int),
                                    prev_m,
                                    k@,
                                    LocModel { offset: off2 as int, len: size2 as int },
                                );
                                assert(kseq.take(i + 1).drop_last() =~= kseq.take(i as int));
                                assert(kseq.take(i + 1).last() == kseq[i as int]);
                                assert(kseq.take(i + 1).len() == i + 1);
                                assert(m2[k@] == LocModel { offset: off2 as int, len: size2 as int });
                                assert(spec_records_size(kseq.take(i as int), m2)
                                    == spec_records_size(kseq.take(i as int), prev_m));
                                assert(spec_records_size(kseq.take(i + 1), m2)
                                    == spec_records_size(kseq.take(i + 1).drop_last(), m2)
                                    + m2[kseq.take(i + 1).last()].len);
                                assert(spec_records_size(kseq.take(i + 1).drop_last(), m2)
                                    == spec_records_size(kseq.take(i as int), m2));
                                assert(m2[kseq.take(i + 1).last()].len == size2 as int);
                                assert(prev_log.len() == spec_records_size(
                                    kseq.take(i as int),
                                    prev_m,
                                ));
                                assert(size2 == enc.len());
                                assert(new_log@.len() == prev_log.len() + size2);
                                assert(spec_records_size(kseq.take(i + 1), m2) == new_log@.len());
                            }
                        }
                        Err(_e) => {
                            proof {
                                assert(false);
                            }
                        }
                    }
                }
                None => {
                    proof {
                        assert(false);
                    }
                }
            }
            i = i + 1;
        }
        self.log = new_log;
        self.index = new_index;
        self.uncompacted_bytes = 0;
        proof {
            assert(kseq.take(nkeys as int) =~= kseq);
            let m2 = dash_view(self.index);
            assert(spec_kv_map(self.log@, m2) =~= spec_kv_map(old_b, old_m)) by {
                assert(m2.dom() =~= old_m.dom());
            }
            assert(spec_replay(self.log@)->0 == m2);
            assert(self.log@.len() == spec_records_size(kseq, m2));
            assert(exists|ks: Seq<Seq<char>>|
                ks.no_duplicates() && ks.to_set() == spec_replay(self.log@)->0.dom()
                    && self.log@.len() == #[trigger] spec_records_size(
                    ks,
                    spec_replay(self.log@)->0,
                )) by {
                assert(kseq.no_duplicates() && kseq.to_set() == spec_replay(self.log@)->0.dom()
                    && self.log@.len() == spec_records_size(kseq, spec_replay(self.log@)->0));
            }
        }
    }

    /// Append a `Put` record for the pair to the log and point the index at
    /// it. Counts the superseded bytes of any record the pair overwrites,
    /// and compacts once the count crosses the threshold.
    pub fn set(&mut self, key: String, value: String) -> (r: Result<(), KvsError>)
        requires
            old(self).wf(),
        ensures
            r is Ok,
            final(self).wf(),
            final(self)@ == old(self)@.insert(key@, value@),
            final(self).log_view() == old(self).log_view() + spec_encode_record(
                RecordModel::Put { key: key@, value: value@ },
            ) || final(self).uncompacted() == 0,
            final(self).uncompacted() >= old(self).uncompacted() || final(self).uncompacted()
                == 0,
    {
        let ghost gkey = key@;
        let ghost gvalue = value@;
        let rec = KvRecord::Put { key: key.clone(), value };
        let mut bytes = encode_record(&rec);
        let off = self.log.len();
        let size = bytes.len();
        let ghost old_b = self.log@;
        let ghost old_m = dash_view(self.index);
        let ghost enc = spec_encode_record(rec@);
        proof {
            lemma_replay_wf(old_b);
            lemma_replay_append_record(old_b, old_m, rec@);
        }
        self.log.append(&mut bytes);
        let prev = dash_insert(&mut self.index, key, ValueData { offset: off as u64, size });
        proof {
            let m2 = dash_view(self.index);
            assert(self.log@ == old_b + enc);
            assert(m2 == old_m.insert(gkey, LocModel { offset: off as int, len: size as int }));
            assert(spec_replay(self.log@) == Some(m2));
            assert(self.log@.subrange(off as int, off + enc.len() as int) =~= enc);
            lemma_decode_encode(self.log@, off as int, rec@);
            assert(spec_kv_map(self.log@, m2) =~= spec_kv_map(old_b, old_m).insert(gkey, gvalue))
                by {
                assert forall|kk: Seq<char>| #[trigger] m2.contains_key(kk) && kk != gkey implies
                    spec_value_at(self.log@, m2[kk].offset) == spec_value_at(
                    old_b,
                    old_m[kk].offset,
                ) by {
                    assert(old_m.contains_key(kk));
                    lemma_decode_extend(old_b, enc, old_m[kk].offset);
                }
            }
        }
        if let Some(pv) = prev {
            self.uncompacted_bytes = self.uncompacted_bytes + pv.size as u128;
            if self.uncompacted_bytes > COMPACT_BYTES {
                self.compact();
            }
        }
        Ok(())
    }

    /// Remove the key: unmap it in the index and append a tombstone record
    /// to the log. Returns `NonExistantKey`, changing nothing, when the key
    /// is absent. Counts the superseded record and the tombstone itself as
    /// uncompacted bytes, and compacts once the count crosses the threshold.
    pub fn remove(&mut self, key: String) -> (r: Result<(), KvsError>)
        requires
            old(self).wf(),
        ensures
            final(self).wf(),
            old(self)@.contains_key(key@) ==> r is Ok && final(self)@ == old(self)@.remove(key@)
                && (final(self).log_view() == old(self).log_view() + spec_encode_record(
                RecordModel::Rm { key: key@ },
            ) || final(self).uncompacted() == 0),
            !old(self)@.contains_key(key@) ==> r is Err && r->Err_0 == KvsError::NonExistantKey
                && final(self)@ == old(self)@ && final(self).log_view() == old(self).log_view()
                && final(self).uncompacted() == old(self).uncompacted(),
            final(self).uncompacted() >= old(self).uncompacted() || final(self).uncompacted()
                == 0,
    {
        let ghost old_b = self.log@;
        let ghost old_m = dash_view(self.index);
        let ghost gkey = key@;
        proof {
            lemma_replay_wf(old_b);
        }
        let prev = dash_remove(&mut self.index, &key);
        match prev {
            None => {
                proof {
                    assert(dash_view(self.index) =~= old_m);
                }
                Err(KvsError::NonExistantKey)
            }
            Some(pv) => {
                let rec = KvRecord::Rm { key };
                let mut bytes = encode_record(&rec);
                let size = bytes.len();
                let ghost enc = spec_encode_record(rec@);
                proof {
                    lemma_replay_append_record(old_b, old_m, rec@);
                }
                self.log.append(&mut bytes);
                proof {
                    let m2 = dash_view(self.index);
                    assert(self.log@ == old_b + enc);
                    assert(m2 == old_m.remove(gkey));
                    assert(spec_replay(self.log@) == Some(m2));
                    assert(spec_kv_map(self.log@, m2) =~= spec_kv_map(old_b, old_m).remove(gkey))
                        by {
                        assert forall|kk: Seq<char>| #[trigger] m2.contains_key(kk) implies
                            spec_value_at(self.log@, m2[kk].offset) == spec_value_at(
                            old_b,
                            old_m[kk].offset,
                        ) by {
                            assert(old_m.contains_key(kk));
                            lemma_decode_extend(old_b, enc, old_m[kk].offset);
                        }
                    }
                }
                self.uncompacted_bytes = self.uncompacted_bytes + pv.size as u128 + size as u128;
                if self.uncompacted_bytes > COMPACT_BYTES {
                    self.compact();
                }
                Ok(())
            }
        }
    }

    /// Look the key up in the index and read its record back from the log:
    /// the value the store maps the key to, or `None` for an absent key.
    pub fn get(&self, key: String) -> (r: Result<Option<String>, KvsError>)
        requires
            self.wf(),
        ensures
            r is Ok,
            self@.contains_key(key@) ==> (r->Ok_0 matches Some(v) && v@ == self@[key@]),
            !self@.contains_key(key@) ==> r->Ok_0 is None,
    {
        match dash_get(&self.index, &key) {
            None => Ok(None),
            Some(vd) => {
                let loglen = self.log.len();
                proof {
                    lemma_replay_wf(self.log@);
                    let m = dash_view(self.index);
                    assert(m.contains_key(key@));
                    assert(spec_decode_record(self.log@, m[key@].offset) is Rec);
                    assert(vd@ == m[key@]);
                    assert(vd.offset as int + vd.size as int <= loglen as int);
                }
                let off = vd.offset as usize;
                match decode_record_at(&self.log, off) {
                    Ok((KvRecord::Put { key: _rk, value }, _rn)) => Ok(Some(value)),
                    Ok((KvRecord::Rm { key: _rk }, _rn)) => {
                        proof {
                            assert(false);
                        }
                        Err(KvsError::SerializationError("tombstone at a live location".to_owned()))
                    }
                    Err(e) => {
                        proof {
                            assert(false);
                        }
                        Err(e)
                    }
                }
            }
        }
    }
}

} // verus!
