//! The durable tier (L4): a `sled` database holding byte values.
//!
//! What a `sled` database holds lives on disk and is shared by every
//! handle to it, so nothing here claims what a read returns. The
//! contracts state what each database call was asked (through relations
//! between a request and its answer, which two calls need not share) and
//! how each outcome becomes the tier's answer.

use vstd::prelude::*;
use vstd::string::StringExecFns;

use crate::error::CacheError;
use crate::model::{CacheEntry, Tier};

verus! {

#[verifier::external_type_specification]
#[verifier::external_body]
pub struct ExSledDb(sled::Db);

#[verifier::external_type_specification]
#[verifier::external_body]
pub struct ExSledError(sled::Error);

/// That `found` is an answer the database gave to a read of `key`.
pub uninterp spec fn sled_read_answer(key: Seq<char>, found: Option<Seq<u8>>) -> bool;

/// That the database accepted a write of `value` under `key`.
pub uninterp spec fn sled_write_done(key: Seq<char>, value: Seq<u8>) -> bool;

/// That the database carried out a removal of the key with these bytes.
pub uninterp spec fn sled_remove_done(key: Seq<u8>) -> bool;

/// That `listed` (keys, or `None` where an error stood) is what a scan
/// of the database for `prefix` gave.
pub uninterp spec fn sled_scan_answer(prefix: Seq<char>, listed: Seq<Option<Seq<u8>>>) -> bool;

/// That the database `db` carried out a clearing of its default tree.
pub uninterp spec fn sled_cleared(db: sled::Db) -> bool;

/// The bytes of a value read, if any.
pub open spec fn found_view(found: Option<Vec<u8>>) -> Option<Seq<u8>> {
    match found {
        Some(v) => Some(v@),
        None => None,
    }
}

/// The keys of a scan's items, with `None` in place of an error.
pub open spec fn scan_view(items: Seq<Result<Vec<u8>, sled::Error>>) -> Seq<Option<Seq<u8>>> {
    items.map_values(
        |r: Result<Vec<u8>, sled::Error>|
            match r {
                Ok(k) => Some(k@),
                Err(_) => None,
            },
    )
}

/// `sled::Tree::get` on the database's default tree, with the value
/// copied out as bytes. What comes back on success is an answer to a
/// read of `key`; what the disk holds is not claimed.
#[verifier::external_body]
fn sled_get(db: &sled::Db, key: &str) -> (res: Result<Option<Vec<u8>>, sled::Error>)
    ensures
        res matches Ok(f) ==> sled_read_answer(key@, found_view(f)),
{
    db.get(key).map(|found| found.map(|v| v.to_vec()))
}

/// `sled::Tree::insert` of `value` under `key`. Success means the
/// database accepted that write; whether it succeeds is not claimed.
#[verifier::external_body]
fn sled_insert(db: &sled::Db, key: &str, value: Vec<u8>) -> (res: Result<(), sled::Error>)
    ensures
        res is Ok ==> sled_write_done(key@, value@),
{
    db.insert(key, value).map(|_| ())
}

/// `sled::Tree::remove` of `key`. Success means the database carried
/// out that removal; whether it succeeds is not claimed.
#[verifier::external_body]
fn sled_remove(db: &sled::Db, key: &[u8]) -> (res: Result<(), sled::Error>)
    ensures
        res is Ok ==> sled_remove_done(key@),
{
    db.remove(key).map(|_| ())
}

/// `sled::Tree::scan_prefix`, run until it ends or fails: for each entry
/// whose key starts with the bytes of `prefix`, its key; an error met on
/// the way is kept as the last item and ends the list. The list is an
/// answer to a scan for `prefix`; which keys the disk holds is not claimed.
#[verifier::external_body]
fn sled_scan_prefix(db: &sled::Db, prefix: &str) -> (res: Vec<Result<Vec<u8>, sled::Error>>)
    ensures
        sled_scan_answer(prefix@, scan_view(res@)),
{
    db.scan_prefix(prefix)
        .scan(false, |failed, item| {
            if *failed {
                return None;
            }
            *failed = item.is_err();
            Some(item.map(|(k, _)| k.to_vec()))
        })
        .collect()
}

/// `sled::Tree::clear`. Success means the database carried out the
/// clearing of its default tree; whether it succeeds is not claimed.
#[verifier::external_body]
fn sled_clear(db: &sled::Db) -> (res: Result<(), sled::Error>)
    ensures
        res is Ok ==> sled_cleared(*db),
{
    db.clear()
}

/// The text of a `sled::Error`, as its `Display` impl writes it.
#[verifier::external_body]
fn sled_error_text(e: &sled::Error) -> (res: String) {
    format!("{}", e)
}

/// The tier's error for a failed database call: `context` followed by
/// the database's own text.
pub fn failure(context: &str, detail: &str) -> (res: CacheError)
    ensures
        res.0@ == context@ + detail@,
{
    let mut s = String::from_str(context);
    s.append(detail);
    CacheError(s)
}

/// The tier's answer to a read, from what the database returned.
pub fn found_entry(found: Option<Vec<u8>>) -> (res: Option<CacheEntry<Vec<u8>>>)
    ensures
        match found {
            Some(bytes) => res == Some(CacheEntry { value: bytes, origin_tier: Tier::L4 }),
            None => res is None,
        },
{
    match found {
        Some(bytes) => Some(CacheEntry { value: bytes, origin_tier: Tier::L4 }),
        None => None,
    }
}

/// That every listed key is a key (no error stood in the list) and the
/// database carried out its removal.
pub open spec fn all_removed(listed: Seq<Option<Seq<u8>>>) -> bool {
    forall|i: int|
        0 <= i < listed.len() ==> #[trigger] listed[i] is Some && sled_remove_done(
            listed[i]->Some_0,
        )
}

/// Whether an error's text starts with `context`.
pub open spec fn reports(e: CacheError, context: Seq<char>) -> bool {
    context.is_prefix_of(e.0@)
}

/// A cache tier over a `sled` database; values are bytes.
#[derive(Debug)]
pub struct SledCache {
    db: sled::Db,
}

impl SledCache {
    pub closed spec fn database(&self) -> sled::Db {
        self.db
    }

    pub fn new(db: sled::Db) -> (res: Self)
        ensures
            res.database() == db,
    {
        SledCache { db }
    }

    /// The tier this cache serves.
    pub fn tier(&self) -> (res: Tier)
        ensures
            res == Tier::L4,
    {
        Tier::L4
    }

    /// Reads `key`; a value found comes back as an entry from tier L4.
    pub fn get(&self, key: &str) -> (res: Result<Option<CacheEntry<Vec<u8>>>, CacheError>)
        ensures
            match res {
                Ok(Some(e)) => e.origin_tier == Tier::L4 && sled_read_answer(key@, Some(e.value@)),
                Ok(None) => sled_read_answer(key@, None),
                Err(e) => reports(e, "sled get error: "@),
            },
    {
        match sled_get(&self.db, key) {
            Ok(found) => Ok(found_entry(found)),
            Err(e) => Err(failure("sled get error: ", sled_error_text(&e).as_str())),
        }
    }

    /// Writes `value` under `key`. The tier stores bytes only: a value
    /// that is not bytes (`None`) is refused before the database is asked.
    pub fn set(&self, key: &str, value: Option<Vec<u8>>) -> (res: Result<(), CacheError>)
        ensures
            value is None ==> (res matches Err(e) && e.0@
                == "SledCache requires Vec<u8> values; serialize before set"@),
            value is Some ==> match res {
                Ok(()) => sled_write_done(key@, value.unwrap()@),
                Err(e) => reports(e, "sled insert error: "@),
            },
    {
        match value {
            None => Err(CacheError::new("SledCache requires Vec<u8> values; serialize before set")),
            Some(bytes) => match sled_insert(&self.db, key, bytes) {
                Ok(()) => Ok(()),
                Err(e) => Err(failure("sled insert error: ", sled_error_text(&e).as_str())),
            },
        }
    }

    /// Removes `key`.
    pub fn delete(&self, key: &str) -> (res: Result<(), CacheError>)
        ensures
            res is Ok ==> sled_remove_done(vstd::utf8::encode_utf8(key@)),
            res matches Err(e) ==> reports(e, "sled remove error: "@),
    {
        match sled_remove(&self.db, key.as_bytes()) {
            Ok(()) => Ok(()),
            Err(e) => Err(failure("sled remove error: ", sled_error_text(&e).as_str())),
        }
    }

    /// Removes every key that starts with `prefix`, one by one, and
    /// returns how many it removed. The first failure stops the walk. On
    /// success, the database's scan for `prefix` listed that many keys
    /// and no error, and each listed key was removed.
    pub fn delete_prefix(&self, prefix: &str) -> (res: Result<u64, CacheError>)
        ensures
            res matches Ok(n) ==> exists|listed: Seq<Option<Seq<u8>>>|
                #[trigger] sled_scan_answer(prefix@, listed) && listed.len() == n && all_removed(
                    listed,
                ),
            res matches Ok(n) ==> n <= usize::MAX,
            res matches Err(e) ==> reports(e, "sled scan error: "@) || reports(
                e,
                "sled remove error: "@,
            ),
    {
        let items = sled_scan_prefix(&self.db, prefix);
        let listed: usize = items.len();
        proof {
            assert(items@.len() == listed);
        }
        self.remove_listed(&items)
    }

    /// Removes, in order, the keys that a prefix scan listed, and returns
    /// how many it removed. An empty list succeeds with 0. The first
    /// failure stops the walk: every item before it was a key and was
    /// removed, and the failure is reported as a scan error when that item
    /// is a scan error, and as a removal error when removing its key
    /// failed. The count, when the walk succeeds, is the length of the
    /// list, and the walk cannot succeed when the list holds a scan error.
    pub fn remove_listed(&self, items: &Vec<Result<Vec<u8>, sled::Error>>) -> (res: Result<
        u64,
        CacheError,
    >)
        ensures
            items@.len() == 0 ==> res == Ok::<u64, CacheError>(0),
            res matches Ok(n) ==> n == items@.len() && all_removed(scan_view(items@)),
            (exists|i: int| 0 <= i < items@.len() && #[trigger] items@[i] is Err) ==> res is Err,
            res matches Err(e) ==> exists|k: int|
                0 <= k < items@.len() && #[trigger] all_removed(scan_view(items@).take(k)) && (
                if items@[k] is Err {
                    reports(e, "sled scan error: "@)
                } else {
                    reports(e, "sled remove error: "@)
                }),
    {
        let mut count: u64 = 0;
        let mut i: usize = 0;
        while i < items.len()
            invariant
                i <= items.len(),
                count == i,
                forall|j: int|
                    0 <= j < i ==> #[trigger] scan_view(items@)[j] is Some && sled_remove_done(
                        scan_view(items@)[j]->Some_0,
                    ),
            decreases items.len() - i,
        {
            proof {
                assert forall|j: int| 0 <= j < i implies #[trigger] scan_view(items@).take(
                    i as int,
                )[j] is Some && sled_remove_done(scan_view(items@).take(i as int)[j]->Some_0) by {
                    assert(scan_view(items@).take(i as int)[j] == scan_view(items@)[j]);
                }
                assert(all_removed(scan_view(items@).take(i as int)));
            }
            match &items[i] {
                Err(e) => {
                    return Err(failure("sled scan error: ", sled_error_text(e).as_str()));
                },
                Ok(key) => {
                    match sled_remove(&self.db, key.as_slice()) {
                        Ok(()) => {},
                        Err(e) => {
                            return Err(
                                failure("sled remove error: ", sled_error_text(&e).as_str()),
                            );
                        },
                    }
                },
            }
            count = count + 1;
            i = i + 1;
        }
        proof {
            assert forall|k: int| 0 <= k < items@.len() implies #[trigger] items@[k] is Ok by {
                assert(scan_view(items@)[k] is Some);
            }
        }
        Ok(count)
    }

    /// `delete_prefix`, with the count as a `usize`.
    pub fn shake(&self, prefix: &str) -> (res: Result<usize, CacheError>)
        ensures
            res matches Ok(n) ==> exists|listed: Seq<Option<Seq<u8>>>|
                #[trigger] sled_scan_answer(prefix@, listed) && listed.len() == n && all_removed(
                    listed,
                ),
            res matches Err(e) ==> reports(e, "sled scan error: "@) || reports(
                e,
                "sled remove error: "@,
            ),
    {
        match self.delete_prefix(prefix) {
            Ok(n) => Ok(n as usize),
            Err(e) => Err(e),
        }
    }

    /// Removes every key.
    pub fn clear(&self) -> (res: Result<(), CacheError>)
        ensures
            res is Ok ==> sled_cleared(self.database()),
            res matches Err(e) ==> reports(e, "sled clear error: "@),
    {
        match sled_clear(&self.db) {
            Ok(()) => Ok(()),
            Err(e) => Err(failure("sled clear error: ", sled_error_text(&e).as_str())),
        }
    }
}

} // verus!
