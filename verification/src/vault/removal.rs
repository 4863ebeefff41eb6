//! The order of a removal's file operations: the entry leaves the metadata, the
//! metadata is written, and only then is the entry's blob deleted. Where the write
//! fails, the entry goes back into the metadata. The caller performs each action
//! and reports what came of it.
use vstd::prelude::*;
use crate::error::BxResult;
use crate::vault::store::{
    lemma_first_named, remove_spec, restore_spec, same_version_removed, RemovedEntry,
    VaultMetadata,
};

verus! {

/// Where a removal stands between its file operations.
pub enum Removal {
    /// The entry is out of the metadata in memory; the metadata on disk still holds it.
    Unwritten { name: String, removed: RemovedEntry },
    /// The metadata without the entry is on disk; the entry's blob file remains.
    Written { id_hex: String },
    /// Nothing is left to do.
    Over,
}

/// What the caller does next.
pub enum RemovalAction {
    /// Write the metadata to disk.
    WriteMetadata,
    /// Delete the blob file of the entry with this hex ID.
    DeleteBlob(String),
    /// The removal is complete.
    Done,
    /// The metadata write failed and the entry is back in the metadata: report
    /// the write's error.
    RolledBack,
}

/// What the caller's action came to.
pub enum RemovalEvent {
    MetadataWritten,
    MetadataWriteFailed,
    BlobDeleted,
}

/// The hex ID of a removed entry.
pub open spec fn removed_id(removed: RemovedEntry) -> Seq<char> {
    match removed {
        RemovedEntry::V1 { index: _, entry } => entry.id@,
        RemovedEntry::V2(entry) => crate::vault::meta::hex_spec(entry.id@),
    }
}

/// `state` is a removal that can go on from the metadata `meta`.
pub open spec fn removal_fits(meta: VaultMetadata, state: Removal) -> bool {
    match state {
        Removal::Unwritten { name: _, removed } => same_version_removed(meta.view_entries(), removed),
        _ => true,
    }
}

/// Starts removing the entry named `name`, as [`VaultMetadata::remove_entry`] does,
/// and asks for the metadata to be written.
pub fn begin_removal(meta: &mut VaultMetadata, name: &str) -> (r: BxResult<(Removal, RemovalAction)>)
    requires
        old(meta).wf(),
    ensures
        final(meta).wf(),
        final(meta).same_header(*old(meta)),
        r is Err ==> final(meta).view_entries() == old(meta).view_entries(),
        *old(meta) is V2 && crate::vault::store::holds_name(old(meta).view_entries(), name@)
            ==> r is Ok,
        r matches Ok((state, action)) ==> action is WriteMetadata && removal_fits(*final(meta), state)
            && match state {
            Removal::Unwritten { name: n, removed } => n@ == name@ && final(meta).view_entries()
                == remove_spec(old(meta).view_entries(), name@).0 && remove_spec(
                old(meta).view_entries(),
                name@,
            ).1 == Some(removed),
            _ => false,
        },
{
    let removed = meta.remove_entry(name)?;
    proof {
        if let VaultMetadata::V1(m) = *old(meta) {
            lemma_first_named(m.entries@, name@);
        }
    }
    Ok((Removal::Unwritten { name: crate::text::string_of(name), removed }, RemovalAction::WriteMetadata))
}

/// The next step of a removal, given what the last action came to.
///
/// After the metadata is written, the blob of the removed entry is to be deleted;
/// after a failed write, the entry is put back and the removal is rolled back;
/// after the blob is deleted, the removal is done. An event that does not answer
/// the action due leaves the removal where it is and asks for that action again.
pub fn removal_step(meta: &mut VaultMetadata, state: Removal, event: RemovalEvent) -> (r: (
    Removal,
    RemovalAction,
))
    requires
        old(meta).wf(),
        removal_fits(*old(meta), state),
    ensures
        final(meta).wf(),
        final(meta).same_header(*old(meta)),
        removal_fits(*final(meta), r.0),
        match (state, event) {
            (Removal::Unwritten { name, removed }, RemovalEvent::MetadataWritten) => final(meta).view_entries() == old(meta).view_entries() && (r.0 matches Removal::Written { id_hex }
                && id_hex@ == removed_id(removed)) && (r.1 matches RemovalAction::DeleteBlob(id)
                && id@ == removed_id(removed)),
            (Removal::Unwritten { name, removed }, RemovalEvent::MetadataWriteFailed) => final(meta).view_entries() == restore_spec(old(meta).view_entries(), name@, removed) && r.0 is Over
                && r.1 is RolledBack,
            (Removal::Written { id_hex: _ }, RemovalEvent::BlobDeleted) => final(meta).view_entries()
                == old(meta).view_entries() && r.0 is Over && r.1 is Done,
            (Removal::Unwritten { name: _, removed: _ }, RemovalEvent::BlobDeleted) => final(meta).view_entries() == old(meta).view_entries() && r.0 == state && r.1 is WriteMetadata,
            (Removal::Written { id_hex }, _) => final(meta).view_entries() == old(meta).view_entries() && r.0 == state && (r.1 matches RemovalAction::DeleteBlob(id) && id@
                == id_hex@),
            (Removal::Over, _) => final(meta).view_entries() == old(meta).view_entries() && r.0 is Over
                && r.1 is Done,
        },
{
    match (state, event) {
        (Removal::Unwritten { name: _, removed }, RemovalEvent::MetadataWritten) => {
            let id_hex = removed.id_hex();
            let id = id_hex.clone();
            (Removal::Written { id_hex }, RemovalAction::DeleteBlob(id))
        },
        (Removal::Unwritten { name, removed }, RemovalEvent::MetadataWriteFailed) => {
            meta.restore_removed_entry(name.as_str(), removed);
            (Removal::Over, RemovalAction::RolledBack)
        },
        (Removal::Unwritten { name, removed }, RemovalEvent::BlobDeleted) => {
            (Removal::Unwritten { name, removed }, RemovalAction::WriteMetadata)
        },
        (Removal::Written { id_hex: _ }, RemovalEvent::BlobDeleted) => (
            Removal::Over,
            RemovalAction::Done,
        ),
        (Removal::Written { id_hex }, _) => {
            let id = id_hex.clone();
            (Removal::Written { id_hex }, RemovalAction::DeleteBlob(id))
        },
        (Removal::Over, _) => (Removal::Over, RemovalAction::Done),
    }
}

} // verus!
