//! The snapshot codec: a store's trees to bytes and back, through bincode.
use crate::error::DbError;
use crate::store::{restored_current, snapshot_state, InMemoryDb, Snapshot, TreeView};
use vstd::prelude::*;

verus! {

#[verifier::external_type_specification]
#[verifier::external_body]
pub struct ExBincodeErrorKind(bincode::ErrorKind);

/// Relies on bincode::serialize to encode a snapshot: with no size limit and
/// sequences of known length it cannot fail, and bincode::deserialize reads
/// the bytes back as the same state. The bytes themselves depend on the order
/// in which each tree's hash map is walked.
#[verifier::external_body]
fn encode_snapshot(s: &Snapshot) -> (r: Result<Vec<u8>, Box<bincode::ErrorKind>>)
    ensures
        r is Ok,
        r matches Ok(b) ==> decoded_state(b@) == Some(snapshot_state(*s)),
{
    bincode::serialize(s)
}

/// The current tree name and the trees that bincode decodes from `bytes`, or
/// `None` where they do not decode as a snapshot.
pub uninterp spec fn decoded_state(bytes: Seq<u8>) -> Option<(Option<Seq<char>>, Map<Seq<char>, TreeView>)>;

/// Relies on bincode::deserialize to decode a snapshot: what it decodes
/// depends on the bytes alone, and a snapshot starts with its length, so an
/// empty input fails.
#[verifier::external_body]
fn decode_snapshot(bytes: &[u8]) -> (r: Result<Snapshot, Box<bincode::ErrorKind>>)
    ensures
        match r {
            Ok(s) => decoded_state(bytes@) == Some(snapshot_state(s)),
            Err(_) => decoded_state(bytes@) is None,
        },
        bytes@.len() == 0 ==> r is Err,
{
    bincode::deserialize(bytes)
}

/// The bytes of a snapshot of `db`, which decode to its current tree name
/// and its trees.
pub fn snapshot_bytes(db: &InMemoryDb) -> (r: Vec<u8>)
    requires
        db.wf(),
    ensures
        decoded_state(r@) == Some((db.current_name(), db.tree_map())),
{
    let snapshot = db.to_snapshot();
    match encode_snapshot(&snapshot) {
        Ok(bytes) => bytes,
        Err(_) => Vec::new(),
    }
}

/// The store that a decoded snapshot describes, or an empty store when
/// decoding failed.
pub fn recover(decoded: Option<Snapshot>) -> (r: InMemoryDb)
    ensures
        r.wf(),
        match decoded {
            Some(s) => {
                &&& r.tree_map() == snapshot_state(s).1
                &&& r.current_name() == restored_current(snapshot_state(s).0, r.tree_map())
            },
            None => r.tree_map() == Map::<Seq<char>, TreeView>::empty() && r.current_name() is None,
        },
{
    match decoded {
        Some(s) => InMemoryDb::from_snapshot(s),
        None => InMemoryDb::new(),
    }
}

/// The store that `bytes` hold, its recorded current tree selected; bytes
/// that do not decode, an empty input among them, give an empty store rather
/// than an error.
pub fn restore(bytes: &[u8]) -> (r: InMemoryDb)
    ensures
        r.wf(),
        match decoded_state(bytes@) {
            Some((c, m)) => r.tree_map() == m && r.current_name() == restored_current(c, m),
            None => r.tree_map() == Map::<Seq<char>, TreeView>::empty() && r.current_name() is None,
        },
        bytes@.len() == 0 ==> r.tree_map() == Map::<Seq<char>, TreeView>::empty() && r.current_name() is None,
{
    match decode_snapshot(bytes) {
        Ok(s) => recover(Some(s)),
        Err(_) => recover(None),
    }
}

/// Writes `db` as snapshot bytes and reads them back: the store that comes
/// back has the same trees and the same current tree.
pub fn flush_and_reopen(db: &InMemoryDb) -> (r: InMemoryDb)
    requires
        db.wf(),
    ensures
        r.wf(),
        r.tree_map() == db.tree_map(),
        r.current_name() == db.current_name(),
{
    let bytes = snapshot_bytes(db);
    proof {
        db.lemma_current_exists();
    }
    restore(&bytes)
}

} // verus!
