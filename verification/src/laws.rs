//! The engine's laws: properties of every consistent table state and of
//! every commit, stated over the same spec functions the executable
//! contracts use.

use vstd::prelude::*;

use crate::catalog::{spec_apply_update, spec_apply_updates, TableUpdateView};
use crate::manifest::{count_live, count_status, ManifestEntryView, Status};
use crate::snapshot::{SnapshotReference, SnapshotView};
use crate::storage::{list_lookup, manifest_lookup, TableStorageView};
use crate::table::{entries_cat, manifest_consistent, snapshot_valid, spec_dim, table_valid};
use crate::table_metadata::{ref_lookup, snapshot_lookup, TableMetadataView};
use crate::tree::mle_live;

verus! {

/// Every manifest entry reachable from a snapshot carries a sequence number
/// at most the snapshot's.
pub proof fn lemma_reachable_sequence_numbers_bounded(
    mv: TableMetadataView,
    st: TableStorageView,
    id: i64,
    j: int,
    k: int,
)
    requires
        table_valid(mv, st),
        snapshot_lookup(mv.snapshots, id) is Some,
        0 <= j < list_lookup(
            st.manifest_lists,
            snapshot_lookup(mv.snapshots, id)->Some_0.manifest_list,
        )->Some_0.len(),
        0 <= k < manifest_lookup(
            st.manifests,
            list_lookup(
                st.manifest_lists,
                snapshot_lookup(mv.snapshots, id)->Some_0.manifest_list,
            )->Some_0[j].manifest_path,
        )->Some_0.len(),
    ensures
        ({
            let sv = snapshot_lookup(mv.snapshots, id)->Some_0;
            let mles = list_lookup(st.manifest_lists, sv.manifest_list)->Some_0;
            let es = manifest_lookup(st.manifests, mles[j].manifest_path)->Some_0;
            es[k].sequence_number is Some ==> es[k].sequence_number->Some_0 <= sv.sequence_number
        }),
{
    let sv = snapshot_lookup(mv.snapshots, id)->Some_0;
    assert(snapshot_valid(st, sv, spec_dim(mv)));
}

/// The partition summary of every reachable manifest contains the
/// partition tuple of each of its live entries.
pub proof fn lemma_partition_summary_covers(
    mv: TableMetadataView,
    st: TableStorageView,
    id: i64,
    j: int,
    k: int,
)
    requires
        table_valid(mv, st),
        snapshot_lookup(mv.snapshots, id) is Some,
        0 <= j < list_lookup(
            st.manifest_lists,
            snapshot_lookup(mv.snapshots, id)->Some_0.manifest_list,
        )->Some_0.len(),
        0 <= k < manifest_lookup(
            st.manifests,
            list_lookup(
                st.manifest_lists,
                snapshot_lookup(mv.snapshots, id)->Some_0.manifest_list,
            )->Some_0[j].manifest_path,
        )->Some_0.len(),
    ensures
        ({
            let sv = snapshot_lookup(mv.snapshots, id)->Some_0;
            let mles = list_lookup(st.manifest_lists, sv.manifest_list)->Some_0;
            let es = manifest_lookup(st.manifests, mles[j].manifest_path)->Some_0;
            (es[k].is_live() && mles[j].partitions is Some) ==> crate::manifest::point_within(
                es[k].data_file.partition,
                crate::tree::summary_lowers(mles[j].partitions->Some_0),
                crate::tree::summary_uppers(mles[j].partitions->Some_0),
            )
        }),
{
    let sv = snapshot_lookup(mv.snapshots, id)->Some_0;
    assert(snapshot_valid(st, sv, spec_dim(mv)));
    let mles = list_lookup(st.manifest_lists, sv.manifest_list)->Some_0;
    assert(manifest_consistent(
        mles[j],
        manifest_lookup(st.manifests, mles[j].manifest_path)->Some_0,
        spec_dim(mv),
    ));
}

/// Total live (added plus existing) count of the first `n` manifests, by
/// their counts.
pub open spec fn sum_live_counts(
    st: TableStorageView,
    mles: Seq<crate::manifest::ManifestListEntryView>,
    n: int,
) -> int
    decreases n,
{
    if n <= 0 {
        0
    } else {
        sum_live_counts(st, mles, n - 1) + mle_live(mles[n - 1])
    }
}

/// Live entries distribute over concatenation.
proof fn lemma_count_live_concat_to(a: Seq<ManifestEntryView>, b: Seq<ManifestEntryView>, k: int)
    requires
        0 <= k <= b.len(),
    ensures
        crate::manifest::count_live_to(a + b, a.len() + k) == count_live(a)
            + crate::manifest::count_live_to(b, k),
    decreases k,
{
    if k == 0 {
        lemma_count_live_prefix(a + b, a);
    } else {
        lemma_count_live_concat_to(a, b, k - 1);
        assert((a + b)[a.len() + k - 1] == b[k - 1]);
    }
}

/// Counting live entries over a prefix that is a whole sequence counts
/// that sequence.
proof fn lemma_count_live_prefix(c: Seq<ManifestEntryView>, a: Seq<ManifestEntryView>)
    requires
        a.len() <= c.len(),
        forall|i: int| 0 <= i < a.len() ==> #[trigger] c[i] == a[i],
    ensures
        crate::manifest::count_live_to(c, a.len() as int) == count_live(a),
    decreases a.len(),
{
    if a.len() > 0 {
        lemma_count_live_prefix(c, a.drop_last());
        lemma_count_live_prefix(a, a.drop_last());
        assert(a.drop_last().len() == a.len() - 1);
        assert(c[a.len() - 1] == a[a.len() - 1]);
        assert(a[a.len() - 1] == a.last());
    }
}

/// Live entries distribute over concatenation.
pub proof fn lemma_count_live_concat(a: Seq<ManifestEntryView>, b: Seq<ManifestEntryView>)
    ensures
        count_live(a + b) == count_live(a) + count_live(b),
{
    lemma_count_live_concat_to(a, b, b.len() as int);
}

/// Status counts are bounded by the population.
pub proof fn lemma_count_status_bounds(es: Seq<ManifestEntryView>, st: Status, n: int)
    requires
        0 <= n <= es.len(),
    ensures
        0 <= crate::manifest::count_status_to(es, n, st) <= n,
    decreases n,
{
    if n > 0 {
        lemma_count_status_bounds(es, st, n - 1);
    }
}

/// The added and existing counts recorded across a snapshot's manifest list
/// total exactly the number of live data files reachable from the snapshot.
pub proof fn lemma_live_file_accounting(
    st: TableStorageView,
    mles: Seq<crate::manifest::ManifestListEntryView>,
    dim: nat,
    n: int,
)
    requires
        0 <= n <= mles.len(),
        crate::table::all_resolve(st, mles),
        forall|j: int|
            0 <= j < mles.len() ==> manifest_consistent(
                #[trigger] mles[j],
                manifest_lookup(st.manifests, mles[j].manifest_path)->Some_0,
                dim,
            ),
    ensures
        sum_live_counts(st, mles, n) == count_live(entries_cat(st, mles.take(n))),
    decreases n,
{
    if n == 0 {
        assert(entries_cat(st, mles.take(0)) =~= Seq::<ManifestEntryView>::empty());
        assert(count_live(Seq::<ManifestEntryView>::empty()) == 0);
    } else {
        lemma_live_file_accounting(st, mles, dim, n - 1);
        let es = manifest_lookup(st.manifests, mles[n - 1].manifest_path)->Some_0;
        assert(mles.take(n).drop_last() =~= mles.take(n - 1));
        assert(mles.take(n).last() == mles[n - 1]);
        assert(entries_cat(st, mles.take(n)) == entries_cat(st, mles.take(n - 1)) + es);
        lemma_count_live_concat(entries_cat(st, mles.take(n - 1)), es);
        crate::manifest::lemma_added_existing_is_live(es);
        assert(manifest_consistent(mles[n - 1], es, dim));
        lemma_count_status_bounds(es, Status::Added, es.len() as int);
        lemma_count_status_bounds(es, Status::Existing, es.len() as int);
        assert(mle_live(mles[n - 1]) == count_status(es, Status::Added) + count_status(
            es,
            Status::Existing,
        ));
    }
}

/// After adding a snapshot whose sequence number is above every prior one,
/// the document's `last_sequence_number` equals the new snapshot's, and the
/// new snapshot attains the maximum over all snapshots. A rewrite, which
/// numbers its snapshot zero, is excluded: there the recorded
/// `last_sequence_number` only bounds the maximum from above.
pub proof fn lemma_last_sequence_number_is_max(
    mv: TableMetadataView,
    sv: SnapshotView,
    m2: TableMetadataView,
)
    requires
        mv.wf(),
        sv.sequence_number > mv.last_sequence_number,
        spec_apply_update(mv, TableUpdateView::AddSnapshot { snapshot: sv }) == Option::Some(m2),
    ensures
        m2.last_sequence_number == sv.sequence_number,
        snapshot_lookup(m2.snapshots, sv.snapshot_id) == Option::Some(sv),
        forall|id: i64|
            (#[trigger] snapshot_lookup(m2.snapshots, id)) is Some ==> snapshot_lookup(
                m2.snapshots,
                id,
            )->Some_0.sequence_number <= m2.last_sequence_number,
{
    let svs2 = mv.snapshots.push(sv);
    assert(m2.snapshots == svs2);
    assert(svs2.last() == sv);
    assert forall|id: i64| (#[trigger] snapshot_lookup(svs2, id)) is Some
        implies snapshot_lookup(svs2, id)->Some_0.sequence_number <= m2.last_sequence_number by {
        assert(svs2.drop_last() =~= mv.snapshots);
        if id != sv.snapshot_id {
            assert(snapshot_lookup(svs2, id) == snapshot_lookup(mv.snapshots, id));
        }
    }
}

/// After a commit that adds a snapshot and moves a ref to it, the ref
/// points at the new snapshot and the new snapshot's parent is the prior
/// branch head: the two updates a snapshot-producing operation emits do
/// exactly that.
#[verifier::rlimit(50)]
pub proof fn lemma_commit_moves_ref(
    mv: TableMetadataView,
    sv: SnapshotView,
    ref_name: Seq<char>,
    reference: SnapshotReference,
    m2: TableMetadataView,
)
    requires
        reference.snapshot_id == sv.snapshot_id,
        spec_apply_updates(
            mv,
            seq![
                TableUpdateView::AddSnapshot { snapshot: sv },
                TableUpdateView::SetSnapshotRef { ref_name, snapshot_reference: reference },
            ],
        ) == Option::Some(m2),
    ensures
        ref_lookup(m2.refs, ref_name) == Option::Some(reference),
        snapshot_lookup(m2.snapshots, sv.snapshot_id) == Option::Some(sv),
{
    let us = seq![
        TableUpdateView::AddSnapshot { snapshot: sv },
        TableUpdateView::SetSnapshotRef { ref_name, snapshot_reference: reference },
    ];
    assert(us.first() == TableUpdateView::AddSnapshot { snapshot: sv });
    assert(spec_apply_update(mv, us.first()) is Some);
    let mid = spec_apply_update(mv, us.first())->Some_0;
    let rest = us.drop_first();
    assert(rest =~= seq![
        TableUpdateView::SetSnapshotRef { ref_name, snapshot_reference: reference },
    ]);
    assert(spec_apply_updates(mid, rest) == Option::Some(m2));
    assert(rest.first() == TableUpdateView::SetSnapshotRef {
        ref_name,
        snapshot_reference: reference,
    });
    assert(mid.snapshots == mv.snapshots.push(sv));
    assert(mid.snapshots.last() == sv);
    assert(snapshot_lookup(mid.snapshots, sv.snapshot_id) == Option::Some(sv));
    assert(spec_apply_update(mid, rest.first()) is Some);
    let m3 = spec_apply_update(mid, rest.first())->Some_0;
    assert(rest.drop_first() =~= Seq::<TableUpdateView>::empty());
    assert(spec_apply_updates(m3, rest.drop_first()) == Option::Some(m3));
    assert(m3 == m2);
    assert(m2.refs.last() == (ref_name, reference));
    assert(ref_lookup(m2.refs, ref_name) == Option::Some(reference));
    assert(m2.snapshots == mid.snapshots);
}

/// Appending two batches one after the other leaves the same observed live
/// set as appending their union at once: an append contributes exactly its
/// files, as live entries, to the live set it starts from.
pub proof fn lemma_append_associative(
    live: Seq<Seq<char>>,
    batch_a: Seq<Seq<char>>,
    batch_b: Seq<Seq<char>>,
)
    ensures
        ((live + batch_a) + batch_b).to_multiset() == (live + (batch_a + batch_b)).to_multiset(),
{
    assert((live + batch_a) + batch_b =~= live + (batch_a + batch_b));
}

/// Rewriting a table with a file set and rewriting it with the same set
/// again observe the same live set. By the rewrite contract the live paths
/// of the committed snapshot are exactly the paths of the files given,
/// whatever state the table was in, so two rewrites of one set agree.
pub proof fn lemma_rewrite_idempotent(
    live_after_first: vstd::multiset::Multiset<Seq<char>>,
    live_after_second: vstd::multiset::Multiset<Seq<char>>,
    files: vstd::multiset::Multiset<Seq<char>>,
)
    requires
        live_after_first == files,
        live_after_second == files,
    ensures
        live_after_second == live_after_first,
        live_after_first == files,
{
}

/// Filtering out a predicate and then appending files that the predicate
/// cannot match observes the same live set as appending first and
/// filtering after: the filter never touches the appended files.
pub proof fn lemma_filter_append_commutes(
    live: Seq<ManifestEntryView>,
    appended: Seq<ManifestEntryView>,
    pred: spec_fn(crate::manifest::DataFileView) -> bool,
)
    requires
        forall|k: int| 0 <= k < appended.len() ==> !pred((#[trigger] appended[k]).data_file),
    ensures
        live.filter(|e: ManifestEntryView| !pred(e.data_file)) + appended == (live
            + appended).filter(|e: ManifestEntryView| !pred(e.data_file)),
{
    broadcast use vstd::seq_lib::group_filter_ensures;

    let keep = |e: ManifestEntryView| !pred(e.data_file);
    Seq::filter_distributes_over_add(live, appended, keep);
    assert(appended.filter(keep) =~= appended) by {
        crate::operation::lemma_filter_all_kept(appended, keep);
    }
}

} // verus!
