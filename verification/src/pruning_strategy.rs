//! Strategies for deciding which of the stored backups are expendable.

mod older_than;
pub mod keep_one_per_month;
mod older_than_but_keep_history;

use vstd::prelude::*;
use vstd::seq_lib::group_to_multiset_ensures;
use vstd::multiset::Multiset;
use crate::backup_file_meta::BackupFileMeta;
use crate::backup_file_meta::dates_wf;

pub use older_than::OlderThan;
pub use older_than::too_old_spec;
pub use keep_one_per_month::KeepOnePerMonth;
pub use older_than_but_keep_history::ConfigurationError;
pub use older_than_but_keep_history::OlderThanButKeepOnePerMonth;

verus! {

/// A pruning strategy partitions a collection of backups: the records being
/// kept stay in the collection, the expendable ones are returned.
///
/// The trait contract holds for every strategy. The records are never
/// duplicated or lost: kept and expendable records together are a permutation
/// of the input. An empty input yields an empty collection and an empty
/// expendable set. What lands where — and in which order — is pinned down
/// exactly by each implementer's `partitions` relation.
pub trait PruningStrategy {
    /// The strategy's configuration is usable.
    spec fn wf(&self) -> bool;

    /// The exact partition this strategy produces from `input`.
    spec fn partitions(
        &self,
        input: Seq<BackupFileMeta>,
        kept: Seq<BackupFileMeta>,
        expendable: Seq<BackupFileMeta>,
    ) -> bool;

    /// Removes all expendable backups from `backups` and returns them.
    fn expendable_backups(&self, backups: &mut Vec<BackupFileMeta>) -> (expendable: Vec<
        BackupFileMeta,
    >)
        requires
            self.wf(),
            dates_wf(old(backups)@),
        ensures
            self.partitions(old(backups)@, final(backups)@, expendable@),
            final(backups)@.to_multiset().add(expendable@.to_multiset()) == old(
                backups,
            )@.to_multiset(),
            old(backups)@.len() == 0 ==> final(backups)@.len() == 0 && expendable@.len() == 0,
    ;
}

// What follows is shared proof machinery for the strategy implementations.

/// An empty sequence has the empty multiset.
proof fn lemma_to_multiset_empty<A>(s: Seq<A>)
    requires
        s.len() == 0,
    ensures
        s.to_multiset() == Multiset::<A>::empty(),
{
    broadcast use group_to_multiset_ensures;
    broadcast use vstd::multiset::group_multiset_axioms;

    assert forall|a: A| s.to_multiset().count(a) == 0 by {
        assert(!s.contains(a));
    }
    assert(s.to_multiset() =~= Multiset::<A>::empty());
}

/// Filtering a one-element sequence keeps or drops that element.
proof fn lemma_filter_singleton<A>(x: A, pred: spec_fn(A) -> bool)
    ensures
        seq![x].filter(pred) == (if pred(x) {
            seq![x]
        } else {
            Seq::<A>::empty()
        }),
{
    reveal_with_fuel(Seq::filter, 2);
    assert(seq![x].drop_last() =~= Seq::<A>::empty());
    if pred(x) {
        assert(Seq::<A>::empty().push(x) =~= seq![x]);
    }
}

/// Filtering commutes with appending one element.
proof fn lemma_filter_push<A>(s: Seq<A>, x: A, pred: spec_fn(A) -> bool)
    ensures
        s.push(x).filter(pred) == (if pred(x) {
            s.filter(pred).push(x)
        } else {
            s.filter(pred)
        }),
{
    assert(s.push(x) =~= s + seq![x]);
    Seq::filter_distributes_over_add(s, seq![x], pred);
    lemma_filter_singleton(x, pred);
    if pred(x) {
        assert(s.filter(pred) + seq![x] =~= s.filter(pred).push(x));
    } else {
        assert(s.filter(pred) + Seq::<A>::empty() =~= s.filter(pred));
    }
}

/// Two complementary predicates split a sequence into two halves whose
/// multisets add back up to the whole.
proof fn lemma_filter_partition_multiset<A>(
    s: Seq<A>,
    keep_pred: spec_fn(A) -> bool,
    drop_pred: spec_fn(A) -> bool,
)
    requires
        forall|a: A| #[trigger] keep_pred(a) == !drop_pred(a),
    ensures
        s.filter(keep_pred).to_multiset().add(s.filter(drop_pred).to_multiset())
            == s.to_multiset(),
    decreases s.len(),
{
    broadcast use group_to_multiset_ensures;

    reveal(Seq::filter);
    if s.len() == 0 {
        assert(s.filter(keep_pred).to_multiset().add(s.filter(drop_pred).to_multiset())
            =~= s.to_multiset());
    } else {
        let t = s.drop_last();
        let x = s.last();
        lemma_filter_partition_multiset(t, keep_pred, drop_pred);
        assert(s =~= t.push(x));
        lemma_filter_push(t, x, drop_pred);
        lemma_filter_push(t, x, keep_pred);
        assert(s.filter(keep_pred).to_multiset().add(s.filter(drop_pred).to_multiset())
            =~= t.to_multiset().insert(x)) by {
            if drop_pred(x) {
                assert(s.filter(drop_pred).to_multiset() =~= t.filter(
                    drop_pred,
                ).to_multiset().insert(x));
            } else {
                assert(s.filter(keep_pred).to_multiset() =~= t.filter(
                    keep_pred,
                ).to_multiset().insert(x));
            }
        }
    }
}

/// Filters by pointwise-equal predicates coincide.
proof fn lemma_filter_congruence<A>(s: Seq<A>, p: spec_fn(A) -> bool, q: spec_fn(A) -> bool)
    requires
        forall|a: A| #[trigger] p(a) == q(a),
    ensures
        s.filter(p) == s.filter(q),
    decreases s.len(),
{
    reveal(Seq::filter);
    if s.len() > 0 {
        lemma_filter_congruence(s.drop_last(), p, q);
    }
}

/// Filtering keeps timestamps well-formed.
proof fn lemma_dates_wf_filter(s: Seq<BackupFileMeta>, pred: spec_fn(BackupFileMeta) -> bool)
    requires
        dates_wf(s),
    ensures
        dates_wf(s.filter(pred)),
    decreases s.len(),
{
    if s.len() > 0 {
        let t = s.drop_last();
        let x = s.last();
        assert(dates_wf(t));
        lemma_dates_wf_filter(t, pred);
        assert(s =~= t.push(x));
        lemma_filter_push(t, x, pred);
        if pred(x) {
            let out = t.filter(pred).push(x);
            assert forall|i: int| 0 <= i < out.len() implies (#[trigger] out[i]).date.wf() by {
                if i < out.len() - 1 {
                    assert(out[i] == t.filter(pred)[i]);
                }
            }
        }
    } else {
        reveal_with_fuel(Seq::filter, 1);
    }
}

} // verus!
