//! The history store: a durable, time-ordered log of completed work
//! sessions.
//!
//! Each record sits under the 8-byte big-endian key of its start time
//! (seconds since the Unix epoch) with its duration, timer name and tag
//! encoded as the value. Range scans come back in time order because
//! the key bytes order exactly as the timestamps do
//! (`keys::lemma_key_order_agrees`). Entries that do not decode — a
//! foreign key length, a corrupt value — are skipped, never surfaced
//! as errors, and storage failures are swallowed: an operation that
//! fails leaves the contents unchanged and the caller none the wiser.

use crate::codec::{decode_record, encode_record, spec_decode, spec_encode};
use crate::keys::{
    be_bytes, decode_key, encode_key, lemma_key_of_num, lemma_key_order_agrees, lex_lt,
};
use crate::store::{db_flush, db_get, db_insert, db_remove, db_scan, db_view};
use vstd::prelude::*;

verus! {

/// One completed work session, as read back from the store.
#[derive(Debug)]
pub struct Record {
    /// Start of the session, seconds since the Unix epoch; the
    /// record's key.
    pub start_time: u64,
    /// Length of the session in seconds.
    pub duration: u64,
    /// Name of the timer profile at the time of recording.
    pub timer_name: String,
    /// User-assigned category; the one field that may change later.
    pub tag: String,
}

/// The mathematical shape of a record.
pub struct RecordV {
    pub start_time: u64,
    pub duration: u64,
    pub timer_name: Seq<char>,
    pub tag: Seq<char>,
}

impl View for Record {
    type V = RecordV;

    open spec fn view(&self) -> RecordV {
        RecordV {
            start_time: self.start_time,
            duration: self.duration,
            timer_name: self.timer_name@,
            tag: self.tag@,
        }
    }
}

impl DeepView for Record {
    type V = RecordV;

    open spec fn deep_view(&self) -> RecordV {
        self.view()
    }
}

/// The store with one record's tag replaced: if the timestamp holds a
/// decodable record, that record is re-encoded with the new tag;
/// otherwise nothing changes.
pub open spec fn spec_modify_tag(m: Map<Seq<u8>, Seq<u8>>, start_time: u64, tag: Seq<char>) -> Map<
    Seq<u8>,
    Seq<u8>,
> {
    let k = be_bytes(start_time);
    if m.dom().contains(k) {
        match spec_decode(m[k]) {
            Some(rec) => m.insert(k, spec_encode(rec.0, rec.1, tag)),
            None => m,
        }
    } else {
        m
    }
}

/// One entry of a listing: a record of the window `[start, end)`,
/// decoded from the store's value at its key.
pub open spec fn listed_entry(m: Map<Seq<u8>, Seq<u8>>, start: u64, end: u64, rv: RecordV) -> bool {
    &&& start <= rv.start_time < end
    &&& m.dom().contains(be_bytes(rv.start_time))
    &&& spec_decode(m[be_bytes(rv.start_time)]) == Some((rv.duration, rv.timer_name, rv.tag))
}

/// `rs` lists exactly the records of the window `[start, end)`: every
/// entry is such a record, start times strictly ascend, and every
/// timestamp of the window holding a decodable record appears. These
/// three clauses pin `rs` down completely.
pub open spec fn is_record_listing(
    m: Map<Seq<u8>, Seq<u8>>,
    start: u64,
    end: u64,
    rs: Seq<RecordV>,
) -> bool {
    &&& forall|i: int| 0 <= i < rs.len() ==> listed_entry(m, start, end, #[trigger] rs[i])
    &&& forall|i: int, j: int|
        #![trigger rs[i], rs[j]]
        0 <= i < j < rs.len() ==> rs[i].start_time < rs[j].start_time
    &&& forall|t: u64|
        start <= t < end && m.dom().contains(#[trigger] be_bytes(t)) && spec_decode(m[be_bytes(t)])
            is Some ==> exists|i: int| 0 <= i < rs.len() && #[trigger] rs[i].start_time == t
}

/// The history store, over a sled database it owns.
pub struct History {
    db: sled::Db,
}

impl History {
    /// The raw contents: the byte map the underlying store holds.
    pub closed spec fn raw(&self) -> Map<Seq<u8>, Seq<u8>> {
        db_view(self.db)
    }

    /// Wraps an opened database. Opening — a filesystem matter — is
    /// the caller's business.
    pub fn new(db: sled::Db) -> (r: History)
        ensures
            r.raw() == db_view(db),
    {
        History { db }
    }

    /// Writes the record for a session that started at `start_time`,
    /// silently replacing any record already under that second, and
    /// flushes. A storage failure is swallowed: the record is then
    /// simply not there.
    pub fn add_record(&mut self, start_time: u64, duration: u64, name: &str, tag: &str)
        ensures
            final(self).raw() == old(self).raw().insert(
                be_bytes(start_time),
                spec_encode(duration, name@, tag@),
            ) || final(self).raw() == old(self).raw(),
    {
        let key = encode_key(start_time);
        let value = encode_record(duration, name, tag);
        let _ = db_insert(&mut self.db, key.as_slice(), value.as_slice());
        let _ = db_flush(&mut self.db);
    }

    /// Deletes the record at exactly `start_time` and flushes; a miss
    /// or a storage failure changes nothing and raises nothing.
    pub fn remove(&mut self, start_time: u64)
        ensures
            final(self).raw() == old(self).raw().remove(be_bytes(start_time)) || final(self).raw()
                == old(self).raw(),
    {
        let key = encode_key(start_time);
        let _ = db_remove(&mut self.db, key.as_slice());
        let _ = db_flush(&mut self.db);
    }

    /// Replaces the tag of the record at `start_time` and flushes,
    /// leaving duration and name as they were. A missing or
    /// undecodable record, or a storage failure, changes nothing.
    pub fn modify_tag(&mut self, start_time: u64, tag: &str)
        ensures
            final(self).raw() == spec_modify_tag(old(self).raw(), start_time, tag@)
                || final(self).raw() == old(self).raw(),
    {
        let key = encode_key(start_time);
        match db_get(&self.db, key.as_slice()) {
            Some(Some(value)) => {
                match decode_record(value.as_slice()) {
                    Some((duration, name, _)) => {
                        let new_value = encode_record(duration, name.as_str(), tag);
                        let _ = db_insert(&mut self.db, key.as_slice(), new_value.as_slice());
                        let _ = db_flush(&mut self.db);
                    },
                    None => {},
                }
            },
            _ => {},
        }
    }

    /// Flushes buffered writes; the contents stay as they are. There
    /// is no open handshake to undo, so this is all closing means.
    pub fn close(&mut self)
        ensures
            final(self).raw() == old(self).raw(),
    {
        let _ = db_flush(&mut self.db);
    }

    /// All records whose start time lies in `[start, end)`, ascending
    /// by start time, or fully reversed when `reverse` is set. Entries
    /// that do not decode are skipped; a scan that fails partway
    /// reports nothing at all.
    pub fn get_records(&self, start: u64, end: u64, reverse: bool) -> (r: Vec<Record>)
        ensures
            is_record_listing(
                self.raw(),
                start,
                end,
                if reverse {
                    r.deep_view().reverse()
                } else {
                    r.deep_view()
                },
            ) || r@.len() == 0,
    {
        let lo = encode_key(start);
        let hi = encode_key(end);
        let mut out: Vec<Record> = Vec::new();
        let pairs = match db_scan(&self.db, lo.as_slice(), hi.as_slice()) {
            Some(pairs) => pairs,
            None => {
                return out;
            },
        };
        let ghost m = self.raw();
        let n = pairs.len();
        let mut idx: usize = 0;
        while idx < n
            invariant
                idx <= n,
                n == pairs@.len(),
                m == self.raw(),
                forall|i: int|
                    0 <= i < pairs@.len() ==> {
                        &&& m.contains_pair(#[trigger] pairs@[i].0@, pairs@[i].1@)
                        &&& !lex_lt(pairs@[i].0@, be_bytes(start))
                        &&& lex_lt(pairs@[i].0@, be_bytes(end))
                    },
                forall|i: int, j: int|
                    #![trigger pairs@[i], pairs@[j]]
                    0 <= i < j < pairs@.len() ==> lex_lt(pairs@[i].0@, pairs@[j].0@),
                forall|a: int|
                    0 <= a < out.deep_view().len() ==> listed_entry(
                        m,
                        start,
                        end,
                        #[trigger] out.deep_view()[a],
                    ),
                forall|a: int, b: int|
                    #![trigger out.deep_view()[a], out.deep_view()[b]]
                    0 <= a < b < out.deep_view().len() ==> out.deep_view()[a].start_time
                        < out.deep_view()[b].start_time,
                forall|a: int|
                    0 <= a < out.deep_view().len() ==> exists|p: int|
                        0 <= p < idx && pairs@[p].0@ == be_bytes(
                            (#[trigger] out.deep_view()[a]).start_time,
                        ),
                forall|p: int|
                    0 <= p < idx && pairs@[p].0@.len() == 8 && spec_decode(#[trigger] pairs@[p].1@)
                        is Some ==> exists|a: int|
                        0 <= a < out.deep_view().len() && be_bytes(
                            (#[trigger] out.deep_view()[a]).start_time,
                        ) == pairs@[p].0@,
            decreases n - idx,
        {
            let k_len = pairs[idx].0.len();
            if k_len == 8 {
                let t = decode_key(pairs[idx].0.as_slice());
                proof {
                    lemma_key_of_num(pairs@[idx as int].0@);
                    assert(be_bytes(t) =~= pairs@[idx as int].0@);
                    lemma_key_order_agrees(t, start);
                    lemma_key_order_agrees(t, end);
                }
                match decode_record(pairs[idx].1.as_slice()) {
                    Some((duration, timer_name, tag)) => {
                        let ghost prev = out.deep_view();
                        let rec = Record { start_time: t, duration, timer_name, tag };
                        proof {
                            assert forall|a: int| 0 <= a < prev.len() implies prev[a].start_time
                                < t by {
                                let p = choose|p: int|
                                    0 <= p < idx && pairs@[p].0@ == be_bytes(prev[a].start_time);
                                lemma_key_order_agrees(prev[a].start_time, t);
                            }
                        }
                        out.push(rec);
                        proof {
                            assert(out.deep_view() =~= prev.push(rec@));
                            let newdv = out.deep_view();
                            assert(newdv[prev.len() as int] == rec@);
                            assert forall|p: int|
                                0 <= p < idx + 1 && pairs@[p].0@.len() == 8 && spec_decode(
                                    pairs@[p].1@,
                                ) is Some implies exists|a: int|
                                0 <= a < newdv.len() && be_bytes((#[trigger] newdv[a]).start_time)
                                    == pairs@[p].0@ by {
                                if p < idx {
                                    let a = choose|a: int|
                                        0 <= a < prev.len() && be_bytes(
                                            (#[trigger] prev[a]).start_time,
                                        ) == pairs@[p].0@;
                                    assert(newdv[a] == prev[a]);
                                    assert(be_bytes(newdv[a].start_time) == pairs@[p].0@);
                                } else {
                                    assert(be_bytes(newdv[prev.len() as int].start_time)
                                        == pairs@[p].0@);
                                }
                            }
                        }
                    },
                    None => {},
                }
            }
            idx = idx + 1;
        }
        proof {
            assert forall|t: u64|
                start <= t < end && m.dom().contains(#[trigger] be_bytes(t)) && spec_decode(
                    m[be_bytes(t)],
                ) is Some implies exists|a: int|
                0 <= a < out.deep_view().len() && out.deep_view()[a].start_time == t by {
                lemma_key_order_agrees(t, start);
                lemma_key_order_agrees(t, end);
                crate::keys::lemma_be_bytes_num(t);
                let p = choose|p: int| 0 <= p < pairs@.len() && pairs@[p].0@ == be_bytes(t);
                assert(m.contains_pair(pairs@[p].0@, pairs@[p].1@));
                let a = choose|a: int|
                    0 <= a < out.deep_view().len() && be_bytes(out.deep_view()[a].start_time)
                        == pairs@[p].0@;
                crate::keys::lemma_be_num_injective(
                    be_bytes(out.deep_view()[a].start_time),
                    be_bytes(t),
                );
                crate::keys::lemma_be_bytes_num(out.deep_view()[a].start_time);
            }
            assert(is_record_listing(m, start, end, out.deep_view()));
        }
        if reverse {
            let r = reversed(out);
            proof {
                assert(r.deep_view().reverse() =~= out.deep_view());
            }
            r
        } else {
            out
        }
    }
}

/// Changing a record's tag and nothing else: in a store that was just
/// given the record `(duration, name, tag_a)` at `t`, re-tagging `t`
/// to `tag_b` leaves exactly `(duration, name, tag_b)` there — the
/// duration and the name survive the mutation — and every other key
/// keeps its value. (Every real `String` meets the length bounds.)
pub proof fn lemma_tag_round_trip(
    m: Map<Seq<u8>, Seq<u8>>,
    t: u64,
    duration: u64,
    name: Seq<char>,
    tag_a: Seq<char>,
    tag_b: Seq<char>,
)
    requires
        vstd::utf8::encode_utf8(name).len() <= u64::MAX,
        vstd::utf8::encode_utf8(tag_a).len() <= u64::MAX,
        vstd::utf8::encode_utf8(tag_b).len() <= u64::MAX,
    ensures
        ({
            let m1 = m.insert(be_bytes(t), spec_encode(duration, name, tag_a));
            let m2 = spec_modify_tag(m1, t, tag_b);
            &&& m2.dom().contains(be_bytes(t))
            &&& spec_decode(m2[be_bytes(t)]) == Some((duration, name, tag_b))
            &&& forall|k: Seq<u8>|
                k != be_bytes(t) ==> ((#[trigger] m2.dom().contains(k)) <==> m.dom().contains(k))
                    && (m2.dom().contains(k) ==> m2[k] == m[k])
        }),
{
    crate::codec::lemma_codec_round_trip(duration, name, tag_a);
    crate::codec::lemma_codec_round_trip(duration, name, tag_b);
}

/// Removing a timestamp that holds no record leaves the store's
/// contents exactly as they were, whichever way the delete itself
/// goes.
pub proof fn lemma_remove_absent(m: Map<Seq<u8>, Seq<u8>>, start_time: u64)
    requires
        !m.dom().contains(be_bytes(start_time)),
    ensures
        m.remove(be_bytes(start_time)) == m,
{
    assert(m.remove(be_bytes(start_time)) =~= m);
}

fn reversed(v: Vec<Record>) -> (r: Vec<Record>)
    ensures
        r.deep_view() == v.deep_view().reverse(),
{
    let ghost orig = v.deep_view();
    let mut v = v;
    let mut r: Vec<Record> = Vec::new();
    while v.len() > 0
        invariant
            v.deep_view() == orig.subrange(0, v@.len() as int),
            r.deep_view() == orig.subrange(v@.len() as int, orig.len() as int).reverse(),
            orig.len() == v@.len() + r@.len(),
        decreases v@.len(),
    {
        let ghost vlen = v@.len() as int;
        let ghost prev_vv = v@;
        let ghost prev_v = v.deep_view();
        let ghost prev_r = r.deep_view();
        let x = v.pop().unwrap();
        proof {
            assert(x == prev_vv[vlen - 1]);
            assert(prev_v[vlen - 1] == prev_vv[vlen - 1].deep_view());
            assert(x@ == orig[vlen - 1]);
            assert forall|i: int| 0 <= i < v.deep_view().len() implies v.deep_view()[i]
                == orig.subrange(0, vlen - 1)[i] by {
                assert(v@[i] == prev_vv[i]);
                assert(prev_v[i] == prev_vv[i].deep_view());
            }
            assert(v.deep_view() =~= orig.subrange(0, vlen - 1));
        }
        r.push(x);
        proof {
            assert(r.deep_view() =~= prev_r.push(orig[vlen - 1]));
            assert(r.deep_view() =~= orig.subrange(vlen - 1, orig.len() as int).reverse());
        }
    }
    proof {
        assert(r.deep_view() =~= orig.reverse());
    }
    r
}

} // verus!
