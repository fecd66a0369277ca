//! Trusted access to the sled key-value store that backs the history.
//!
//! sled keeps an ordered, durable map from byte-string keys to
//! byte-string values; keys compare as raw bytes. [`db_view`] names
//! those contents, and each wrapper states over that name what the
//! corresponding sled call does to them. Storage errors stay possible
//! in every contract: an operation that fails may leave the contents
//! unchanged, and a scan that fails reports nothing rather than a
//! partial truth.

use crate::keys::lex_lt;
use vstd::prelude::*;

verus! {

/// Declares `sled::Db`, the handle to an opened sled database, so
/// that the history can own one.
#[verifier::external_type_specification]
#[verifier::external_body]
pub struct ExDb(sled::Db);

/// The contents of a sled database: the map it holds, keys and values
/// as byte strings.
pub uninterp spec fn db_view(db: sled::Db) -> Map<Seq<u8>, Seq<u8>>;

/// Relies on `sled::Tree::insert`: maps the key to the value. An
/// insert that reports an error may instead leave the tree as it was.
#[verifier::external_body]
pub(crate) fn db_insert(db: &mut sled::Db, key: &[u8], value: &[u8]) -> (ok: bool)
    ensures
        db_view(*final(db)) == db_view(*old(db)).insert(key@, value@) || (!ok && db_view(
            *final(db),
        ) == db_view(*old(db))),
{
    db.insert(key, value).is_ok()
}

/// Relies on `sled::Tree::remove`: deletes the key. A remove that
/// reports an error may instead leave the tree as it was.
#[verifier::external_body]
pub(crate) fn db_remove(db: &mut sled::Db, key: &[u8]) -> (ok: bool)
    ensures
        db_view(*final(db)) == db_view(*old(db)).remove(key@) || (!ok && db_view(*final(db))
            == db_view(*old(db))),
{
    db.remove(key).is_ok()
}

/// Relies on `sled::Tree::get`: the value at the key, or the fact that
/// the key is absent. A read error comes back as the outer `None`.
#[verifier::external_body]
pub(crate) fn db_get(db: &sled::Db, key: &[u8]) -> (r: Option<Option<Vec<u8>>>)
    ensures
        match r {
            Some(Some(v)) => db_view(*db).contains_pair(key@, v@),
            Some(None) => !db_view(*db).dom().contains(key@),
            None => true,
        },
{
    match db.get(key) {
        Ok(Some(v)) => Some(Some(v.as_ref().to_vec())),
        Ok(None) => Some(None),
        Err(_) => None,
    }
}

/// Relies on `sled::Tree::flush`: it writes buffered state to disk and
/// leaves the logical contents as they are.
#[verifier::external_body]
pub(crate) fn db_flush(db: &mut sled::Db) -> (ok: bool)
    ensures
        db_view(*final(db)) == db_view(*old(db)),
{
    db.flush().is_ok()
}

/// Relies on `sled::Tree::range`: iterating the range yields every
/// pair whose key lies in `[lo, hi)` by byte order, in ascending byte
/// order, each with the value the tree holds for it. A scan in which
/// any step reports an error comes back as `None`.
#[verifier::external_body]
pub(crate) fn db_scan(db: &sled::Db, lo: &[u8], hi: &[u8]) -> (r: Option<Vec<(Vec<u8>, Vec<u8>)>>)
    ensures
        match r {
            Some(pairs) => {
                &&& forall|i: int|
                    0 <= i < pairs@.len() ==> {
                        &&& db_view(*db).contains_pair(#[trigger] pairs@[i].0@, pairs@[i].1@)
                        &&& !lex_lt(pairs@[i].0@, lo@)
                        &&& lex_lt(pairs@[i].0@, hi@)
                    }
                &&& forall|i: int, j: int|
                    0 <= i < j < pairs@.len() ==> lex_lt(#[trigger] pairs@[i].0@, #[trigger] pairs@[j].0@)
                &&& forall|k: Seq<u8>|
                    (#[trigger] db_view(*db).dom().contains(k)) && !lex_lt(k, lo@) && lex_lt(k, hi@)
                        ==> exists|i: int| 0 <= i < pairs@.len() && pairs@[i].0@ == k
            },
            None => true,
        },
{
    let mut out: Vec<(Vec<u8>, Vec<u8>)> = Vec::new();
    for item in db.range(lo..hi) {
        match item {
            Ok((k, v)) => out.push((k.as_ref().to_vec(), v.as_ref().to_vec())),
            Err(_) => return None,
        }
    }
    Some(out)
}

} // verus!
