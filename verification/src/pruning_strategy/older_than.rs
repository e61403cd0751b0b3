//! The age-threshold strategy.

use vstd::prelude::*;
use crate::backup_file_meta::BackupFileMeta;
use crate::backup_file_meta::dates_wf;
use crate::date_time::Duration;
use crate::date_time::Timestamp;
use super::PruningStrategy;

verus! {

/// Whether `backup` lies strictly more than `duration` before
/// `reference_time`. A backup exactly `duration` old is not too old.
pub open spec fn too_old_spec(
    reference_time: Timestamp,
    duration: Duration,
    backup: BackupFileMeta,
) -> bool {
    reference_time.as_seconds() - backup.date.as_seconds() > duration.secs
}

/// Considers all backups expendable that are older than `duration` from
/// `reference_time`. Both output partitions keep the input's relative order.
#[derive(Clone, Copy, Debug)]
pub struct OlderThan {
    pub duration: Duration,
    pub reference_time: Timestamp,
}

impl OlderThan {
    pub fn new(duration: Duration, reference_time: Timestamp) -> (r: OlderThan)
        ensures
            r == (OlderThan { duration, reference_time }),
    {
        OlderThan { duration, reference_time }
    }

    /// Whether this strategy considers `backup` expendable.
    pub open spec fn spec_too_old(self, backup: BackupFileMeta) -> bool {
        too_old_spec(self.reference_time, self.duration, backup)
    }

    fn too_old(&self, backup: &BackupFileMeta) -> (r: bool)
        requires
            self.reference_time.wf(),
            backup.date.wf(),
        ensures
            r == self.spec_too_old(*backup),
    {
        self.reference_time.seconds() - backup.date.seconds() > self.duration.secs
    }
}

/// A record exactly `duration` before the reference instant is kept; a record
/// one second older than that is expendable.
pub proof fn lemma_older_than_boundary(
    strategy: OlderThan,
    at_bound: BackupFileMeta,
    past_bound: BackupFileMeta,
)
    requires
        strategy.reference_time.as_seconds() - at_bound.date.as_seconds()
            == strategy.duration.secs,
        strategy.reference_time.as_seconds() - past_bound.date.as_seconds()
            == strategy.duration.secs + 1,
    ensures
        !strategy.spec_too_old(at_bound),
        strategy.spec_too_old(past_bound),
{
}

impl PruningStrategy for OlderThan {
    open spec fn wf(&self) -> bool {
        self.reference_time.wf()
    }

    /// A stable partition by age: the kept records are exactly the ones not
    /// too old, the expendable ones exactly the too-old ones, each in the
    /// input's relative order.
    open spec fn partitions(
        &self,
        input: Seq<BackupFileMeta>,
        kept: Seq<BackupFileMeta>,
        expendable: Seq<BackupFileMeta>,
    ) -> bool {
        &&& kept == input.filter(|b: BackupFileMeta| !self.spec_too_old(b))
        &&& expendable == input.filter(|b: BackupFileMeta| self.spec_too_old(b))
    }

    #[verifier::loop_isolation(false)]
    fn expendable_backups(&self, backups: &mut Vec<BackupFileMeta>) -> (expendable: Vec<
        BackupFileMeta,
    >) {
        let mut work: Vec<BackupFileMeta> = Vec::new();
        core::mem::swap(backups, &mut work);
        let ghost input = work@;
        let ghost keep_pred = |b: BackupFileMeta| !self.spec_too_old(b);
        let ghost drop_pred = |b: BackupFileMeta| self.spec_too_old(b);
        let mut kept: Vec<BackupFileMeta> = Vec::new();
        let mut expendable: Vec<BackupFileMeta> = Vec::new();
        let ghost mut processed: int = 0;
        while work.len() > 0
            invariant
                0 <= processed <= input.len(),
                work@ == input.skip(processed),
                kept@ == input.take(processed).filter(keep_pred),
                expendable@ == input.take(processed).filter(drop_pred),
            decreases work.len(),
        {
            let backup = work.remove(0);
            proof {
                assert(backup == input[processed]);
                assert(work@ =~= input.skip(processed + 1));
                assert(input.take(processed + 1) =~= input.take(processed).push(backup));
                super::lemma_filter_push(input.take(processed), backup, keep_pred);
                super::lemma_filter_push(input.take(processed), backup, drop_pred);
            }
            if self.too_old(&backup) {
                expendable.push(backup);
            } else {
                kept.push(backup);
            }
            proof {
                processed = processed + 1;
            }
        }
        proof {
            assert(input.take(processed) =~= input);
            super::lemma_filter_partition_multiset(input, keep_pred, drop_pred);
            if input.len() == 0 {
                reveal_with_fuel(Seq::filter, 1);
            }
        }
        *backups = kept;
        expendable
    }
}

} // verus!
