//! The record every pruning strategy works on.

use vstd::prelude::*;
use crate::date_time::Timestamp;

verus! {

/// One stored backup, as the storage collaborator lists it.
///
/// `id` addresses the artifact in the storage backend and is assumed (not
/// enforced) unique per run; `human_readable_id` is purely informational.
/// Strategies read and reorder records, but never change their contents.
#[derive(Debug)]
pub struct BackupFileMeta {
    pub id: String,
    pub human_readable_id: String,
    pub date: Timestamp,
}

/// All records in the sequence carry a well-formed timestamp.
pub open spec fn dates_wf(backups: Seq<BackupFileMeta>) -> bool {
    forall|i: int| 0 <= i < backups.len() ==> (#[trigger] backups[i]).date.wf()
}

} // verus!
