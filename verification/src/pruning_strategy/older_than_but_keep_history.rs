//! The age-tiered strategy with monthly decimation.

use vstd::prelude::*;
use vstd::seq_lib::lemma_multiset_commutative;
use crate::backup_file_meta::BackupFileMeta;
use crate::date_time::Duration;
use crate::date_time::Timestamp;
use super::PruningStrategy;
use super::older_than::OlderThan;
use super::older_than::too_old_spec;
use super::keep_one_per_month::KeepOnePerMonth;
use super::keep_one_per_month::monthly_expendable;
use super::keep_one_per_month::monthly_kept;
use super::keep_one_per_month::sort_by_date;

verus! {

/// A contradictory configuration: `keep_all_within` must not exceed
/// `one_per_month_within`.
#[derive(Debug)]
pub struct ConfigurationError;

/// Considers backups expendable that are older than `keep_all_within` from
/// `reference_time`, but still keeps one per month of those within
/// `one_per_month_within` from `reference_time`.
#[derive(Clone, Copy, Debug)]
pub struct OlderThanButKeepOnePerMonth {
    /// The current time.
    pub reference_time: Timestamp,
    /// Backups within `keep_all_within` from `reference_time` are untouched.
    pub keep_all_within: Duration,
    /// A backup belonging to a month must be within `one_per_month_tolerance`
    /// from the 1st of the respective month.
    pub one_per_month_tolerance: Duration,
    /// Backups older than `one_per_month_within` from `reference_time` are
    /// unconditionally expendable.
    pub one_per_month_within: Duration,
}

impl OlderThanButKeepOnePerMonth {
    /// Builds the strategy. A configuration whose unconditional retention
    /// window reaches past its decimation window is contradictory and is
    /// rejected before any record is processed; windows of equal length are
    /// accepted.
    pub fn new(
        reference_time: Timestamp,
        keep_all_within: Duration,
        one_per_month_tolerance: Duration,
        one_per_month_within: Duration,
    ) -> (r: Result<OlderThanButKeepOnePerMonth, ConfigurationError>)
        ensures
            r is Ok <==> keep_all_within.secs <= one_per_month_within.secs,
            r is Ok ==> r->Ok_0 == (OlderThanButKeepOnePerMonth {
                reference_time,
                keep_all_within,
                one_per_month_tolerance,
                one_per_month_within,
            }),
    {
        if keep_all_within.secs <= one_per_month_within.secs {
            Ok(
                OlderThanButKeepOnePerMonth {
                    reference_time,
                    keep_all_within,
                    one_per_month_tolerance,
                    one_per_month_within,
                },
            )
        } else {
            Err(ConfigurationError)
        }
    }
}

impl PruningStrategy for OlderThanButKeepOnePerMonth {
    open spec fn wf(&self) -> bool {
        &&& self.reference_time.wf()
        &&& self.keep_all_within.secs <= self.one_per_month_within.secs
    }

    /// Three ordered passes over one shared collection. Records older than
    /// `one_per_month_within` are expendable first, in input order. Records
    /// within `keep_all_within` are kept untouched, in input order. The
    /// records between the two windows are decimated to one per month; their
    /// survivors follow the untouched records in date order, their discards
    /// follow the very old records in date order.
    open spec fn partitions(
        &self,
        input: Seq<BackupFileMeta>,
        kept: Seq<BackupFileMeta>,
        expendable: Seq<BackupFileMeta>,
    ) -> bool {
        let very_old = input.filter(
            |b: BackupFileMeta| too_old_spec(self.reference_time, self.one_per_month_within, b),
        );
        let remains = input.filter(
            |b: BackupFileMeta| !too_old_spec(self.reference_time, self.one_per_month_within, b),
        );
        let recent = remains.filter(
            |b: BackupFileMeta| !too_old_spec(self.reference_time, self.keep_all_within, b),
        );
        let candidates = remains.filter(
            |b: BackupFileMeta| too_old_spec(self.reference_time, self.keep_all_within, b),
        );
        let s = sort_by_date(candidates);
        let tolerance = self.one_per_month_tolerance.secs as int;
        &&& kept == recent + monthly_kept(s, tolerance)
        &&& expendable == very_old + monthly_expendable(s, tolerance)
    }

    fn expendable_backups(&self, backups: &mut Vec<BackupFileMeta>) -> (expendable: Vec<
        BackupFileMeta,
    >) {
        let ghost input = backups@;
        let ghost drop_very_old = |b: BackupFileMeta|
            too_old_spec(self.reference_time, self.one_per_month_within, b);
        let ghost keep_very_old = |b: BackupFileMeta|
            !too_old_spec(self.reference_time, self.one_per_month_within, b);
        let ghost drop_recent = |b: BackupFileMeta|
            too_old_spec(self.reference_time, self.keep_all_within, b);
        let ghost keep_recent = |b: BackupFileMeta|
            !too_old_spec(self.reference_time, self.keep_all_within, b);

        let first_pass = OlderThan::new(self.one_per_month_within, self.reference_time);
        let mut expendable = first_pass.expendable_backups(backups);
        proof {
            super::lemma_filter_congruence(
                input,
                |b: BackupFileMeta| !first_pass.spec_too_old(b),
                keep_very_old,
            );
            super::lemma_filter_congruence(
                input,
                |b: BackupFileMeta| first_pass.spec_too_old(b),
                drop_very_old,
            );
            super::lemma_dates_wf_filter(input, keep_very_old);
        }
        let ghost mid = input.filter(keep_very_old);
        let ghost very_old = input.filter(drop_very_old);

        let second_pass = OlderThan::new(self.keep_all_within, self.reference_time);
        let mut older = second_pass.expendable_backups(backups);
        proof {
            super::lemma_filter_congruence(
                mid,
                |b: BackupFileMeta| !second_pass.spec_too_old(b),
                keep_recent,
            );
            super::lemma_filter_congruence(
                mid,
                |b: BackupFileMeta| second_pass.spec_too_old(b),
                drop_recent,
            );
            super::lemma_dates_wf_filter(mid, drop_recent);
        }
        let ghost recent = mid.filter(keep_recent);
        let ghost candidates = mid.filter(drop_recent);

        let monthly = KeepOnePerMonth::new(self.one_per_month_tolerance);
        let mut monthly_discards = monthly.expendable_backups(&mut older);
        let ghost s = sort_by_date(candidates);
        let ghost tolerance = self.one_per_month_tolerance.secs as int;

        expendable.append(&mut monthly_discards);
        backups.append(&mut older);
        proof {
            broadcast use vstd::multiset::group_multiset_axioms;

            assert(backups@ == recent + monthly_kept(s, tolerance));
            assert(expendable@ == very_old + monthly_expendable(s, tolerance));
            lemma_multiset_commutative(recent, monthly_kept(s, tolerance));
            lemma_multiset_commutative(very_old, monthly_expendable(s, tolerance));
            assert(backups@.to_multiset().add(expendable@.to_multiset()) =~= input.to_multiset());
        }
        expendable
    }
}

} // verus!
