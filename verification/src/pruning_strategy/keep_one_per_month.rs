//! The monthly decimation strategy.

pub mod date_time_utilities;

use vstd::prelude::*;
use vstd::math::abs;
use vstd::multiset::Multiset;
use vstd::seq_lib::group_to_multiset_ensures;
use vstd::seq_lib::lemma_multiset_commutative;
use crate::backup_file_meta::BackupFileMeta;
use crate::backup_file_meta::dates_wf;
use crate::date_time::Duration;
use crate::date_time::civil_seconds;
use crate::date_time::civil_secs;
use crate::date_time::Timestamp;
use super::PruningStrategy;

verus! {

/// The second count of a record's timestamp.
pub open spec fn date_seconds(backup: BackupFileMeta) -> int {
    backup.date.as_seconds()
}

/// Inserts `backup` into the date-sorted `s`, after every record dated at or
/// before it, so that records of equal date keep their relative order.
pub open spec fn insert_by_date(s: Seq<BackupFileMeta>, backup: BackupFileMeta) -> Seq<
    BackupFileMeta,
>
    decreases s.len(),
{
    if s.len() == 0 {
        seq![backup]
    } else if date_seconds(s.last()) <= date_seconds(backup) {
        s.push(backup)
    } else {
        insert_by_date(s.drop_last(), backup).push(s.last())
    }
}

/// The stable sort of `s` by ascending date: records of equal date keep their
/// relative order.
pub open spec fn sort_by_date(s: Seq<BackupFileMeta>) -> Seq<BackupFileMeta>
    decreases s.len(),
{
    if s.len() == 0 {
        Seq::empty()
    } else {
        insert_by_date(sort_by_date(s.drop_last()), s.last())
    }
}

/// Months since the calendar origin of the month holding `t`.
pub open spec fn month_number(t: Timestamp) -> int {
    t.year * 12 + t.month - 1
}

/// The second count of the first instant of month number `m`.
pub open spec fn month_anchor_seconds(m: int) -> int {
    civil_seconds(m / 12, m % 12 + 1, 1, 0, 0, 0)
}

/// The least index at or past `from` whose record is dated at or after `lo`;
/// the length of `s` if there is none.
pub open spec fn first_at_or_after(s: Seq<BackupFileMeta>, from: int, lo: int) -> int
    decreases s.len() - from
        when 0 <= from <= s.len()
{
    if from >= s.len() {
        s.len() as int
    } else if date_seconds(s[from]) >= lo {
        from
    } else {
        first_at_or_after(s, from + 1, lo)
    }
}

/// Starting from candidate `i`, slides to each following record of
/// date-sorted `s` while it stays within `anchor + tolerance` and is strictly
/// closer to the anchor than the current candidate; a tie never replaces the
/// candidate.
pub open spec fn best_candidate(s: Seq<BackupFileMeta>, i: int, anchor: int, tolerance: int) -> int
    decreases s.len() - i
        when 0 <= i < s.len()
{
    if i + 1 < s.len() && date_seconds(s[i + 1]) <= anchor + tolerance && abs(
        date_seconds(s[i + 1]) - anchor,
    ) < abs(date_seconds(s[i]) - anchor) {
        best_candidate(s, i + 1, anchor, tolerance)
    } else {
        i
    }
}

/// The index of the record kept for the month anchored at `anchor`, scanning
/// date-sorted `s` from `cursor` on: the first record dated in
/// `[anchor - tolerance, anchor + tolerance]` slid to the best of its run, or
/// nothing if no record at or past `cursor` falls within the window.
pub open spec fn month_pick(s: Seq<BackupFileMeta>, cursor: int, anchor: int, tolerance: int) -> Option<
    int,
> {
    let f = first_at_or_after(s, cursor, anchor - tolerance);
    if f < s.len() && date_seconds(s[f]) <= anchor + tolerance {
        Some(best_candidate(s, f, anchor, tolerance))
    } else {
        None
    }
}

/// The indices of the records of date-sorted `s` committed while processing
/// month numbers `m` through `m_last` with the search cursor at `cursor`. A
/// committed record advances the cursor past itself, so neither it nor any
/// earlier record is ever reconsidered; a month without a pick leaves the
/// cursor where it stood.
pub open spec fn keep_indices(
    s: Seq<BackupFileMeta>,
    tolerance: int,
    m: int,
    m_last: int,
    cursor: int,
) -> Seq<int>
    decreases m_last + 1 - m,
{
    if m > m_last {
        Seq::empty()
    } else {
        match month_pick(s, cursor, month_anchor_seconds(m), tolerance) {
            Some(k) => seq![k] + keep_indices(s, tolerance, m + 1, m_last, k + 1),
            None => keep_indices(s, tolerance, m + 1, m_last, cursor),
        }
    }
}

/// The committed indices for the whole of date-sorted `s`: months run from
/// the month of the earliest record through the month after the latest one,
/// inclusive.
pub open spec fn monthly_keep_indices(s: Seq<BackupFileMeta>, tolerance: int) -> Seq<int> {
    if s.len() == 0 {
        Seq::empty()
    } else {
        keep_indices(
            s,
            tolerance,
            month_number(s[0].date),
            month_number(s[s.len() - 1].date) + 1,
            0,
        )
    }
}

/// The records of `s` at or past `i` whose index is committed in `keep`, in
/// index order.
pub open spec fn picked(s: Seq<BackupFileMeta>, keep: Seq<int>, i: int) -> Seq<BackupFileMeta>
    decreases s.len() - i
        when 0 <= i <= s.len()
{
    if i >= s.len() {
        Seq::empty()
    } else if keep.contains(i) {
        seq![s[i]] + picked(s, keep, i + 1)
    } else {
        picked(s, keep, i + 1)
    }
}

/// The records of `s` at or past `i` whose index is not committed in `keep`,
/// in index order.
pub open spec fn rejected(s: Seq<BackupFileMeta>, keep: Seq<int>, i: int) -> Seq<BackupFileMeta>
    decreases s.len() - i
        when 0 <= i <= s.len()
{
    if i >= s.len() {
        Seq::empty()
    } else if keep.contains(i) {
        rejected(s, keep, i + 1)
    } else {
        seq![s[i]] + rejected(s, keep, i + 1)
    }
}

/// The records monthly decimation keeps from date-sorted `s`, in sorted
/// order.
pub open spec fn monthly_kept(s: Seq<BackupFileMeta>, tolerance: int) -> Seq<BackupFileMeta> {
    picked(s, monthly_keep_indices(s, tolerance), 0)
}

/// The records monthly decimation discards from date-sorted `s`, in sorted
/// order.
pub open spec fn monthly_expendable(s: Seq<BackupFileMeta>, tolerance: int) -> Seq<
    BackupFileMeta,
> {
    rejected(s, monthly_keep_indices(s, tolerance), 0)
}

/// Inserting into a sequence adds the record to its multiset.
proof fn lemma_insert_by_date_multiset(s: Seq<BackupFileMeta>, backup: BackupFileMeta)
    ensures
        insert_by_date(s, backup).to_multiset() == s.to_multiset().insert(backup),
    decreases s.len(),
{
    broadcast use group_to_multiset_ensures;

    if s.len() == 0 {
        assert(seq![backup] =~= Seq::<BackupFileMeta>::empty().push(backup));
        assert(Seq::<BackupFileMeta>::empty().to_multiset() =~= Multiset::<
            BackupFileMeta,
        >::empty()) by {
            assert forall|b: BackupFileMeta|
                Seq::<BackupFileMeta>::empty().to_multiset().count(b) == 0 by {
                assert(!Seq::<BackupFileMeta>::empty().contains(b));
            }
        }
        assert(insert_by_date(s, backup).to_multiset() =~= s.to_multiset().insert(backup));
    } else if date_seconds(s.last()) <= date_seconds(backup) {
        assert(s =~= s.drop_last().push(s.last()));
    } else {
        lemma_insert_by_date_multiset(s.drop_last(), backup);
        assert(s =~= s.drop_last().push(s.last()));
        assert(insert_by_date(s, backup).to_multiset() =~= s.to_multiset().insert(backup)) by {
            assert(insert_by_date(s, backup).to_multiset() == insert_by_date(
                s.drop_last(),
                backup,
            ).to_multiset().insert(s.last()));
            assert(s.to_multiset() == s.drop_last().to_multiset().insert(s.last()));
        }
    }
}

/// The records are in ascending date order.
pub open spec fn dates_ascending(s: Seq<BackupFileMeta>) -> bool {
    forall|i: int, j: int| 0 <= i < j < s.len() ==> date_seconds(s[i]) <= date_seconds(s[j])
}

/// Inserting into an ascending sequence keeps it ascending.
proof fn lemma_insert_by_date_ascending(s: Seq<BackupFileMeta>, backup: BackupFileMeta)
    requires
        dates_ascending(s),
    ensures
        dates_ascending(insert_by_date(s, backup)),
    decreases s.len(),
{
    broadcast use group_to_multiset_ensures;
    broadcast use vstd::multiset::group_multiset_axioms;

    let out = insert_by_date(s, backup);
    if s.len() == 0 {
    } else if date_seconds(s.last()) <= date_seconds(backup) {
        assert forall|i: int, j: int| 0 <= i < j < out.len() implies date_seconds(out[i])
            <= date_seconds(out[j]) by {
            if j == out.len() - 1 {
                assert(out[i] == s[i]);
                assert(date_seconds(s[i]) <= date_seconds(s.last()));
            }
        }
    } else {
        assert(dates_ascending(s.drop_last()));
        lemma_insert_by_date_ascending(s.drop_last(), backup);
        lemma_insert_by_date_multiset(s.drop_last(), backup);
        let t = insert_by_date(s.drop_last(), backup);
        assert(out == t.push(s.last()));
        assert forall|i: int, j: int| 0 <= i < j < out.len() implies date_seconds(out[i])
            <= date_seconds(out[j]) by {
            if j == out.len() - 1 {
                assert(out[i] == t[i]);
                assert(t.contains(t[i]));
                assert(t.to_multiset().count(t[i]) > 0);
                if t[i] == backup {
                    assert(date_seconds(backup) < date_seconds(s.last()));
                } else {
                    assert(s.drop_last().to_multiset().count(t[i]) > 0);
                    assert(s.drop_last().contains(t[i]));
                    let idx = choose|idx: int|
                        0 <= idx < s.drop_last().len() && s.drop_last()[idx] == t[i];
                    assert(s[idx] == t[i]);
                    assert(date_seconds(s[idx]) <= date_seconds(s.last()));
                }
            }
        }
    }
}

/// The stable sort indeed sorts: its output ascends by date.
pub proof fn lemma_sort_by_date_ascending(s: Seq<BackupFileMeta>)
    ensures
        dates_ascending(sort_by_date(s)),
    decreases s.len(),
{
    if s.len() > 0 {
        lemma_sort_by_date_ascending(s.drop_last());
        lemma_insert_by_date_ascending(sort_by_date(s.drop_last()), s.last());
    }
}

/// The stable sort is a permutation: it leaves the multiset unchanged.
pub proof fn lemma_sort_by_date_multiset(s: Seq<BackupFileMeta>)
    ensures
        sort_by_date(s).to_multiset() == s.to_multiset(),
    decreases s.len(),
{
    broadcast use group_to_multiset_ensures;

    if s.len() == 0 {
        assert(sort_by_date(s).to_multiset() =~= s.to_multiset());
    } else {
        lemma_sort_by_date_multiset(s.drop_last());
        lemma_insert_by_date_multiset(sort_by_date(s.drop_last()), s.last());
        assert(s =~= s.drop_last().push(s.last()));
    }
}

/// Committed and uncommitted records together restore the records at or past
/// `i`, as multisets.
proof fn lemma_picked_rejected_multiset(s: Seq<BackupFileMeta>, keep: Seq<int>, i: int)
    requires
        0 <= i <= s.len(),
    ensures
        picked(s, keep, i).to_multiset().add(rejected(s, keep, i).to_multiset()) == s.skip(
            i,
        ).to_multiset(),
    decreases s.len() - i,
{
    broadcast use group_to_multiset_ensures;

    if i == s.len() {
        assert(s.skip(i) =~= Seq::<BackupFileMeta>::empty());
        assert forall|b: BackupFileMeta| s.skip(i).to_multiset().count(b) == 0 by {
            assert(!s.skip(i).contains(b));
        }
        assert(picked(s, keep, i).to_multiset().add(rejected(s, keep, i).to_multiset()) =~= s.skip(
            i,
        ).to_multiset());
    } else {
        lemma_picked_rejected_multiset(s, keep, i + 1);
        assert(s.skip(i) =~= seq![s[i]] + s.skip(i + 1));
        lemma_multiset_commutative(seq![s[i]], s.skip(i + 1));
        assert(seq![s[i]].to_multiset() =~= Multiset::<BackupFileMeta>::empty().insert(s[i])) by {
            assert(seq![s[i]] =~= Seq::<BackupFileMeta>::empty().push(s[i]));
            assert forall|b: BackupFileMeta|
                Seq::<BackupFileMeta>::empty().to_multiset().count(b) == 0 by {
                assert(!Seq::<BackupFileMeta>::empty().contains(b));
            }
            assert(Seq::<BackupFileMeta>::empty().to_multiset() =~= Multiset::<
                BackupFileMeta,
            >::empty());
        }
        if keep.contains(i) {
            lemma_multiset_commutative(seq![s[i]], picked(s, keep, i + 1));
            assert(picked(s, keep, i).to_multiset().add(rejected(s, keep, i).to_multiset())
                =~= s.skip(i).to_multiset());
        } else {
            lemma_multiset_commutative(seq![s[i]], rejected(s, keep, i + 1));
            assert(picked(s, keep, i).to_multiset().add(rejected(s, keep, i).to_multiset())
                =~= s.skip(i).to_multiset());
        }
    }
}

/// `first_at_or_after` never looks backwards and never runs past the end.
proof fn lemma_first_at_or_after_range(s: Seq<BackupFileMeta>, from: int, lo: int)
    requires
        0 <= from <= s.len(),
    ensures
        from <= first_at_or_after(s, from, lo) <= s.len(),
    decreases s.len() - from,
{
    if from < s.len() && date_seconds(s[from]) < lo {
        lemma_first_at_or_after_range(s, from + 1, lo);
    }
}

/// The best candidate lies between the first candidate and the end.
proof fn lemma_best_candidate_range(s: Seq<BackupFileMeta>, i: int, anchor: int, tolerance: int)
    requires
        0 <= i < s.len(),
    ensures
        i <= best_candidate(s, i, anchor, tolerance) < s.len(),
    decreases s.len() - i,
{
    if i + 1 < s.len() && date_seconds(s[i + 1]) <= anchor + tolerance && abs(
        date_seconds(s[i + 1]) - anchor,
    ) < abs(date_seconds(s[i]) - anchor) {
        lemma_best_candidate_range(s, i + 1, anchor, tolerance);
    }
}

/// The committed indices strictly increase and lie between the cursor and the
/// end of the collection.
proof fn lemma_keep_indices_increasing(
    s: Seq<BackupFileMeta>,
    tolerance: int,
    m: int,
    m_last: int,
    cursor: int,
)
    requires
        0 <= cursor <= s.len(),
    ensures
        ({
            let keep = keep_indices(s, tolerance, m, m_last, cursor);
            &&& forall|p: int, q: int| 0 <= p < q < keep.len() ==> keep[p] < keep[q]
            &&& forall|p: int| 0 <= p < keep.len() ==> cursor <= #[trigger] keep[p] < s.len()
        }),
    decreases m_last + 1 - m,
{
    let keep = keep_indices(s, tolerance, m, m_last, cursor);
    if m <= m_last {
        let anchor = month_anchor_seconds(m);
        let f = first_at_or_after(s, cursor, anchor - tolerance);
        lemma_first_at_or_after_range(s, cursor, anchor - tolerance);
        if f < s.len() && date_seconds(s[f]) <= anchor + tolerance {
            let k = best_candidate(s, f, anchor, tolerance);
            lemma_best_candidate_range(s, f, anchor, tolerance);
            lemma_keep_indices_increasing(s, tolerance, m + 1, m_last, k + 1);
            assert(month_pick(s, cursor, anchor, tolerance) == Some(k));
            let rest = keep_indices(s, tolerance, m + 1, m_last, k + 1);
            assert(keep == seq![k] + rest);
            assert forall|p: int, q: int| 0 <= p < q < keep.len() implies keep[p] < keep[q] by {
                assert(keep[q] == rest[q - 1]);
                if p > 0 {
                    assert(keep[p] == rest[p - 1]);
                }
            }
            assert forall|p: int| 0 <= p < keep.len() implies cursor <= #[trigger] keep[p]
                < s.len() by {
                if p > 0 {
                    assert(keep[p] == rest[p - 1]);
                }
            }
        } else {
            lemma_keep_indices_increasing(s, tolerance, m + 1, m_last, cursor);
            assert(month_pick(s, cursor, anchor, tolerance) is None);
            assert(keep == keep_indices(s, tolerance, m + 1, m_last, cursor));
        }
    } else {
        assert(keep.len() == 0);
    }
}

/// Monotonic consumption: a record committed as one month's nearest match
/// advances the cursor past itself, so the committed indices strictly
/// increase and the record is never reused for a later month — not even when
/// it lies closer to the later month's anchor than that month's own pick.
pub proof fn lemma_monthly_keep_indices_increasing(s: Seq<BackupFileMeta>, tolerance: int)
    ensures
        ({
            let keep = monthly_keep_indices(s, tolerance);
            &&& forall|p: int, q: int| 0 <= p < q < keep.len() ==> keep[p] < keep[q]
            &&& forall|p: int| 0 <= p < keep.len() ==> 0 <= #[trigger] keep[p] < s.len()
        }),
{
    if s.len() > 0 {
        lemma_keep_indices_increasing(
            s,
            tolerance,
            month_number(s[0].date),
            month_number(s[s.len() - 1].date) + 1,
            0,
        );
    }
}

/// Keeps one backup for each month: the one closest to the first instant of
/// the respective month, provided it is within `tolerance` of that instant.
/// Processing sorts the collection by date — a permanent, documented side
/// effect on the records that remain.
#[derive(Clone, Copy, Debug)]
pub struct KeepOnePerMonth {
    pub tolerance: Duration,
}

impl KeepOnePerMonth {
    pub fn new(tolerance: Duration) -> (r: KeepOnePerMonth)
        ensures
            r == (KeepOnePerMonth { tolerance }),
    {
        KeepOnePerMonth { tolerance }
    }
}

/// The indices of a committed-index vector, as mathematical integers.
spec fn idx_view(indices: Seq<usize>) -> Seq<int> {
    indices.map_values(|u: usize| u as int)
}

/// Whether `x` is one of the committed indices.
#[verifier::loop_isolation(false)]
fn contains_index(indices: &Vec<usize>, x: usize) -> (r: bool)
    ensures
        r == idx_view(indices@).contains(x as int),
{
    let n = indices.len();
    let mut j: usize = 0;
    while j < n
        invariant
            j <= n,
            forall|t: int| 0 <= t < j ==> idx_view(indices@)[t] != x as int,
        decreases n - j,
    {
        if indices[j] == x {
            proof {
                assert(idx_view(indices@)[j as int] == x as int);
            }
            return true;
        }
        j += 1;
    }
    proof {
        assert(!idx_view(indices@).contains(x as int));
    }
    false
}

/// The second count of the first instant of month number `m`, in machine
/// integers.
fn month_anchor_secs(m: u32) -> (r: i64)
    requires
        12 <= m <= 120000,
    ensures
        r == month_anchor_seconds(m as int),
        0 <= r <= 400_000_000_000,
{
    let year = m / 12;
    let month = m % 12 + 1;
    civil_secs(year as u64, month as u64, 1, 0, 0, 0)
}

/// Inserts `backup` into the date-sorted vector, after every record dated at
/// or before it.
fn insert_sorted(sorted: &mut Vec<BackupFileMeta>, backup: BackupFileMeta)
    requires
        dates_wf(old(sorted)@),
        backup.date.wf(),
    ensures
        final(sorted)@ == insert_by_date(old(sorted)@, backup),
        dates_wf(final(sorted)@),
{
    let ghost s0 = sorted@;
    let backup_secs = backup.date.seconds();
    let n = sorted.len();
    let mut j: usize = n;
    proof {
        assert(s0.take(n as int) =~= s0);
        assert(insert_by_date(s0, backup) + s0.skip(n as int) =~= insert_by_date(s0, backup));
    }
    while j > 0
        invariant
            j <= n,
            n == s0.len(),
            sorted@ == s0,
            dates_wf(s0),
            backup_secs == date_seconds(backup),
            insert_by_date(s0, backup) == insert_by_date(s0.take(j as int), backup) + s0.skip(
                j as int,
            ),
        ensures
            j <= n,
            insert_by_date(s0, backup) == insert_by_date(s0.take(j as int), backup) + s0.skip(
                j as int,
            ),
            j == 0 || date_seconds(s0[j - 1]) <= date_seconds(backup),
        decreases j,
    {
        proof {
            assert(s0[j - 1].date.wf());
        }
        if sorted[j - 1].date.seconds() > backup_secs {
            proof {
                let t = s0.take(j as int);
                assert(t.last() == s0[j - 1]);
                assert(t.drop_last() =~= s0.take(j as int - 1));
                assert(insert_by_date(t, backup) == insert_by_date(
                    s0.take(j as int - 1),
                    backup,
                ).push(s0[j - 1]));
                assert(insert_by_date(s0.take(j as int - 1), backup).push(s0[j - 1]) + s0.skip(
                    j as int,
                ) =~= insert_by_date(s0.take(j as int - 1), backup) + s0.skip(j as int - 1));
            }
            j -= 1;
        } else {
            break;
        }
    }
    proof {
        let t = s0.take(j as int);
        if j == 0 {
            assert(t =~= Seq::<BackupFileMeta>::empty());
            assert(insert_by_date(t, backup) =~= t.push(backup));
        } else {
            assert(t.last() == s0[j - 1]);
            assert(insert_by_date(t, backup) == t.push(backup));
        }
        assert(s0.insert(j as int, backup) =~= t.push(backup) + s0.skip(j as int));
    }
    sorted.insert(j, backup);
    proof {
        assert(sorted@ == insert_by_date(s0, backup));
        assert forall|i: int| 0 <= i < sorted@.len() implies (#[trigger] sorted@[i]).date.wf() by {
            if i < j {
                assert(sorted@[i] == s0[i]);
            } else if i == j {
                assert(sorted@[i] == backup);
            } else {
                assert(sorted@[i] == s0[i - 1]);
            }
        }
    }
}

impl PruningStrategy for KeepOnePerMonth {
    open spec fn wf(&self) -> bool {
        true
    }

    /// The input is sorted by ascending date; months from the earliest
    /// record's month through the month after the latest are each given at
    /// most one record, and the collection splits along those committed
    /// indices, both halves in sorted order.
    open spec fn partitions(
        &self,
        input: Seq<BackupFileMeta>,
        kept: Seq<BackupFileMeta>,
        expendable: Seq<BackupFileMeta>,
    ) -> bool {
        let s = sort_by_date(input);
        let tolerance = self.tolerance.secs as int;
        &&& kept == monthly_kept(s, tolerance)
        &&& expendable == monthly_expendable(s, tolerance)
    }

    #[verifier::loop_isolation(false)]
    #[verifier::rlimit(60)]
    fn expendable_backups(&self, backups: &mut Vec<BackupFileMeta>) -> (expendable: Vec<
        BackupFileMeta,
    >) {
        let mut work: Vec<BackupFileMeta> = Vec::new();
        core::mem::swap(backups, &mut work);
        let ghost input = work@;
        let ghost tol = self.tolerance.secs as int;

        if work.len() == 0 {
            proof {
                broadcast use vstd::multiset::group_multiset_axioms;

                super::lemma_to_multiset_empty(input);
                super::lemma_to_multiset_empty(backups@);
                super::lemma_to_multiset_empty(Seq::<BackupFileMeta>::empty());
                assert(Multiset::<BackupFileMeta>::empty().add(
                    Multiset::<BackupFileMeta>::empty(),
                ) =~= Multiset::<BackupFileMeta>::empty());
            }
            return Vec::new();
        }

        // Sort ascending by date; the reorder of the kept records is this
        // strategy's documented side effect.
        let mut sorted: Vec<BackupFileMeta> = Vec::new();
        let ghost mut processed: int = 0;
        while work.len() > 0
            invariant
                0 <= processed <= input.len(),
                work@ == input.skip(processed),
                sorted@ == sort_by_date(input.take(processed)),
                dates_wf(sorted@),
            decreases work.len(),
        {
            let backup = work.remove(0);
            proof {
                assert(backup == input[processed]);
                assert(work@ =~= input.skip(processed + 1));
                assert(input.take(processed + 1).drop_last() =~= input.take(processed));
                assert(input.take(processed + 1).last() == backup);
            }
            insert_sorted(&mut sorted, backup);
            proof {
                processed = processed + 1;
            }
        }
        proof {
            assert(input.take(processed) =~= input);
        }
        let ghost s = sorted@;

        let n = sorted.len();
        let first_date = sorted[0].date;
        let last_date = sorted[n - 1].date;
        proof {
            assert(s[0].date.wf());
            assert(s[n - 1].date.wf());
        }
        let m0: u32 = first_date.year * 12 + first_date.month - 1;
        let m_last: u32 = last_date.year * 12 + last_date.month;
        let ghost full_keep = monthly_keep_indices(s, tol);
        proof {
            assert(m0 as int == month_number(s[0].date));
            assert(m_last as int == month_number(s[s.len() - 1].date) + 1);
            assert(full_keep == keep_indices(s, tol, m0 as int, m_last as int, 0));
        }

        let mut kidx: Vec<usize> = Vec::new();
        let mut cursor: usize = 0;
        let mut m: u32 = m0;
        while m <= m_last
            invariant
                m0 <= m,
                cursor <= n,
                full_keep == idx_view(kidx@) + keep_indices(
                    s,
                    tol,
                    m as int,
                    m_last as int,
                    cursor as int,
                ),
            decreases m_last as int + 1 - m as int,
        {
            let anchor: i64 = month_anchor_secs(m);
            let ghost anchor_spec = month_anchor_seconds(m as int);
            let ghost lo = anchor_spec - tol;

            // Skip records dated before the window.
            let mut j: usize = cursor;
            #[verifier::loop_isolation(true)]
            while j < n
                invariant
                    cursor <= j <= n,
                    n == s.len(),
                    sorted@ == s,
                    dates_wf(s),
                    anchor as int == anchor_spec,
                    lo == anchor_spec - tol,
                    tol == self.tolerance.secs as int,
                    first_at_or_after(s, cursor as int, lo) == first_at_or_after(s, j as int, lo),
                ensures
                    cursor <= j <= n,
                    first_at_or_after(s, cursor as int, lo) == j as int,
                decreases n - j,
            {
                proof {
                    assert(s[j as int].date.wf());
                }
                let d = sorted[j].date.seconds();
                if d as i128 >= anchor as i128 - self.tolerance.secs as i128 {
                    proof {
                        assert(date_seconds(s[j as int]) >= lo);
                        assert(first_at_or_after(s, j as int, lo) == j as int);
                    }
                    break;
                }
                proof {
                    assert(date_seconds(s[j as int]) < lo);
                }
                j += 1;
            }

            // The first record in the window starts a run of ever-closer
            // records; the run's last record is the month's pick.
            let picked_index: Option<usize> = if j < n && sorted[j].date.seconds() as i128
                <= anchor as i128 + self.tolerance.secs as i128 {
                let mut c: usize = j;
                #[verifier::loop_isolation(true)]
                while c + 1 < n
                    invariant
                        j <= c < n,
                        n == s.len(),
                        sorted@ == s,
                        dates_wf(s),
                        anchor as int == anchor_spec,
                        0 <= anchor <= 400_000_000_000,
                        tol == self.tolerance.secs as int,
                        best_candidate(s, j as int, anchor_spec, tol) == best_candidate(
                            s,
                            c as int,
                            anchor_spec,
                            tol,
                        ),
                    ensures
                        j <= c < n,
                        best_candidate(s, j as int, anchor_spec, tol) == c as int,
                    decreases n - c,
                {
                    proof {
                        assert(s[c as int].date.wf());
                        assert(s[c as int + 1].date.wf());
                    }
                    let next_secs = sorted[c + 1].date.seconds();
                    let cur_secs = sorted[c].date.seconds();
                    let within = (next_secs as i128) <= (anchor as i128) + (
                    self.tolerance.secs as i128);
                    let next_dist = if next_secs >= anchor {
                        next_secs - anchor
                    } else {
                        anchor - next_secs
                    };
                    let cur_dist = if cur_secs >= anchor {
                        cur_secs - anchor
                    } else {
                        anchor - cur_secs
                    };
                    if within && next_dist < cur_dist {
                        c += 1;
                    } else {
                        proof {
                            assert(best_candidate(s, c as int, anchor_spec, tol) == c as int);
                        }
                        break;
                    }
                }
                Some(c)
            } else {
                None
            };

            proof {
                let pick = month_pick(s, cursor as int, anchor_spec, tol);
                match picked_index {
                    Some(k) => {
                        assert(pick == Some(k as int));
                    },
                    None => {
                        assert(pick is None);
                    },
                }
            }
            match picked_index {
                Some(k) => {
                    let ghost old_kidx = kidx@;
                    kidx.push(k);
                    cursor = k + 1;
                    proof {
                        assert(idx_view(kidx@) =~= idx_view(old_kidx) + seq![k as int]);
                        assert(idx_view(old_kidx) + (seq![k as int] + keep_indices(
                            s,
                            tol,
                            m as int + 1,
                            m_last as int,
                            k as int + 1,
                        )) =~= (idx_view(old_kidx) + seq![k as int]) + keep_indices(
                            s,
                            tol,
                            m as int + 1,
                            m_last as int,
                            k as int + 1,
                        ));
                    }
                },
                None => {},
            }
            m += 1;
        }
        proof {
            assert(keep_indices(s, tol, m as int, m_last as int, cursor as int)
                =~= Seq::<int>::empty());
            assert(full_keep =~= idx_view(kidx@));
        }

        // Split the sorted records along the committed indices.
        let mut kept: Vec<BackupFileMeta> = Vec::new();
        let mut expendable: Vec<BackupFileMeta> = Vec::new();
        let mut i: usize = 0;
        while sorted.len() > 0
            invariant
                0 <= i as int <= s.len(),
                sorted@ == s.skip(i as int),
                monthly_kept(s, tol) == kept@ + picked(s, full_keep, i as int),
                monthly_expendable(s, tol) == expendable@ + rejected(s, full_keep, i as int),
            decreases sorted.len(),
        {
            let backup = sorted.remove(0);
            proof {
                assert(backup == s[i as int]);
                assert(sorted@ =~= s.skip(i as int + 1));
            }
            if contains_index(&kidx, i) {
                proof {
                    assert(full_keep.contains(i as int));
                    assert(kept@ + (seq![s[i as int]] + picked(s, full_keep, i as int + 1))
                        =~= kept@.push(backup) + picked(s, full_keep, i as int + 1));
                }
                kept.push(backup);
            } else {
                proof {
                    assert(!full_keep.contains(i as int));
                    assert(expendable@ + (seq![s[i as int]] + rejected(s, full_keep, i as int + 1))
                        =~= expendable@.push(backup) + rejected(s, full_keep, i as int + 1));
                }
                expendable.push(backup);
            }
            i += 1;
        }
        proof {
            assert(i as int == s.len());
            assert(kept@ + picked(s, full_keep, i as int) =~= kept@);
            assert(expendable@ + rejected(s, full_keep, i as int) =~= expendable@);
            lemma_picked_rejected_multiset(s, full_keep, 0);
            assert(s.skip(0) =~= s);
            lemma_sort_by_date_multiset(input);
        }
        *backups = kept;
        expendable
    }
}

} // verus!
