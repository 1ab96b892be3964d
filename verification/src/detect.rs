//! Subvolume metadata and change detection.
//!
//! A snapshot records, at creation time, its parent's identity (the parent
//! uuid) and the parent's transaction counter (the creation transaction id).
//! Creating a new snapshot is pointless exactly when the source still shows
//! that same identity and counter.

use vstd::prelude::*;

verus! {

/// Read-only snapshot of the filesystem's bookkeeping for one subvolume, as
/// decoded from the metadata-query response.
pub struct SubvolumeMetadata {
    /// This subvolume's uuid (16 bytes).
    pub uuid: Vec<u8>,
    /// Uuid of the subvolume this one was snapshotted from (16 bytes).
    pub parent_uuid: Vec<u8>,
    /// Latest transaction id of this subvolume.
    pub generation: u64,
    /// Transaction id at which this subvolume was created.
    pub creation_transaction_id: u64,
}

impl SubvolumeMetadata {
    /// Both uuid fields hold exactly 16 bytes.
    pub open spec fn wf(&self) -> bool {
        self.uuid@.len() == 16 && self.parent_uuid@.len() == 16
    }
}

/// Byte-wise equality of two byte vectors.
fn bytes_eq(a: &Vec<u8>, b: &Vec<u8>) -> (r: bool)
    ensures
        r <==> a@ =~= b@,
{
    if a.len() != b.len() {
        return false;
    }
    let mut i: usize = 0;
    while i < a.len()
        invariant
            0 <= i <= a@.len(),
            a@.len() == b@.len(),
            forall|j: int| 0 <= j < i ==> a@[j] == b@[j],
        decreases a@.len() - i,
    {
        if a[i] != b[i] {
            return false;
        }
        i = i + 1;
    }
    true
}

/// Change detection: a fresh snapshot may be skipped iff no modifying
/// transaction has happened on the source since the latest snapshot was
/// taken, witnessed by the source's generation equalling the snapshot's
/// creation transaction id while the source is still the snapshot's parent.
pub fn should_skip_create(source: &SubvolumeMetadata, latest: &SubvolumeMetadata) -> (r: bool)
    ensures
        r <==> (source.generation == latest.creation_transaction_id
            && source.uuid@ =~= latest.parent_uuid@),
{
    source.generation == latest.creation_transaction_id
        && bytes_eq(&source.uuid, &latest.parent_uuid)
}

} // verus!
