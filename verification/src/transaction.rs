//! Transactions: an ordered batch of operations against one table and
//! branch, compiled on commit into a single atomic catalog commit.
//!
//! Staging merges operations: consecutive appends fold by concatenating
//! their file lists and merging summaries, consecutive property updates
//! fold, and a rewrite discards prior appends and rewrites on the branch.

use vstd::prelude::*;

use crate::catalog::{spec_apply_update, spec_apply_updates, tabular_lookup, CatalogState, CommitTable, Identifier, TableRequirement, TableUpdate, TableUpdateView, TabularMetadataView};
use crate::manifest::DataFile;
use crate::operation::Operation;
use crate::pruning::PrunePredicate;
use crate::snapshot::{SnapshotReference, SourceTable};
use crate::storage::TableStorage;
use crate::table::{snapshot_valid, spec_dim, table_valid};
use crate::table_metadata::{ref_lookup, snapshot_lookup, TableMetadata, TableMetadataView};
use crate::Error;

verus! {

/// Snapshot ids identify their snapshots: every stored snapshot is what the
/// lookup of its id returns.
pub open spec fn snapshots_unique(svs: Seq<crate::snapshot::SnapshotView>) -> bool {
    forall|i: int|
        0 <= i < svs.len() ==> snapshot_lookup(svs, (#[trigger] svs[i]).snapshot_id)
            == Option::Some(svs[i])
}

/// An update leaves the partition specs of the document alone.
pub open spec fn keeps_specs(u: TableUpdateView) -> bool {
    !(u is AddPartitionSpec) && !(u is SetDefaultSpec)
}

/// A snapshot surviving a removal was among the stored snapshots.
proof fn lemma_remove_snapshots_sub(
    svs: Seq<crate::snapshot::SnapshotView>,
    ids: Seq<i64>,
    x: crate::snapshot::SnapshotView,
)
    requires
        crate::catalog::spec_remove_snapshots(svs, ids).contains(x),
    ensures
        svs.contains(x),
    decreases svs.len(),
{
    reveal(Seq::filter);
    if svs.len() > 0 {
        let prefix = svs.drop_last();
        if svs.last() == x {
            assert(svs[svs.len() - 1] == x);
        } else {
            if crate::catalog::spec_remove_snapshots(prefix, ids).contains(x) {
                lemma_remove_snapshots_sub(prefix, ids, x);
                let i = choose|i: int| 0 <= i < prefix.len() && prefix[i] == x;
                assert(svs[i] == x);
            } else {
                assert(crate::catalog::spec_remove_snapshots(svs, ids)
                    == if !ids.contains(svs.last().snapshot_id) {
                    crate::catalog::spec_remove_snapshots(prefix, ids).push(svs.last())
                } else {
                    crate::catalog::spec_remove_snapshots(prefix, ids)
                });
            }
        }
    }
}

/// One update keeps every reachable snapshot consistent: snapshots it
/// retains were consistent before, and a snapshot it adds is consistent by
/// construction.
proof fn lemma_apply_update_valid(
    mv: TableMetadataView,
    st: crate::storage::TableStorageView,
    u: TableUpdateView,
    m2: TableMetadataView,
)
    requires
        spec_apply_update(mv, u) == Option::Some(m2),
        snapshots_unique(mv.snapshots),
        forall|id: i64|
            (#[trigger] snapshot_lookup(mv.snapshots, id)) is Some ==> snapshot_valid(
                st,
                snapshot_lookup(mv.snapshots, id)->Some_0,
                spec_dim(mv),
            ),
        u matches TableUpdateView::AddSnapshot { snapshot } ==> snapshot_valid(
            st,
            snapshot,
            spec_dim(mv),
        ),
        keeps_specs(u),
    ensures
        m2.partition_specs == mv.partition_specs,
        m2.default_spec_id == mv.default_spec_id,
        snapshots_unique(m2.snapshots),
        forall|id: i64|
            (#[trigger] snapshot_lookup(m2.snapshots, id)) is Some ==> snapshot_valid(
                st,
                snapshot_lookup(m2.snapshots, id)->Some_0,
                spec_dim(m2),
            ),
{
    broadcast use vstd::seq_lib::group_filter_ensures;

    assert(spec_dim(m2) == spec_dim(mv));
    match u {
        TableUpdateView::AddSnapshot { snapshot } => {
            let svs2 = mv.snapshots.push(snapshot);
            assert(m2.snapshots == svs2);
            assert(snapshot_lookup(mv.snapshots, snapshot.snapshot_id) is None);
            assert forall|id: i64| (#[trigger] snapshot_lookup(svs2, id)) is Some
                implies snapshot_valid(st, snapshot_lookup(svs2, id)->Some_0, spec_dim(mv)) by {
                assert(svs2.last() == snapshot);
                assert(svs2.drop_last() =~= mv.snapshots);
                if id != snapshot.snapshot_id {
                    assert(snapshot_lookup(svs2, id) == snapshot_lookup(mv.snapshots, id));
                }
            }
            assert forall|i: int| 0 <= i < svs2.len() implies snapshot_lookup(
                svs2,
                (#[trigger] svs2[i]).snapshot_id,
            ) == Option::Some(svs2[i]) by {
                assert(svs2.drop_last() =~= mv.snapshots);
                if i < mv.snapshots.len() {
                    assert(svs2[i] == mv.snapshots[i]);
                    crate::catalog::lemma_snapshot_lookup_member(
                        mv.snapshots,
                        snapshot.snapshot_id,
                    );
                    assert(mv.snapshots[i].snapshot_id != snapshot.snapshot_id);
                } else {
                    assert(svs2[i] == snapshot);
                }
            }
        },
        TableUpdateView::RemoveSnapshots { snapshot_ids } => {
            let svs2 = crate::catalog::spec_remove_snapshots(mv.snapshots, snapshot_ids);
            assert(m2.snapshots == svs2);
            assert forall|i: int| 0 <= i < svs2.len() implies mv.snapshots.contains(
                #[trigger] svs2[i],
            ) by {
                assert(svs2.contains(svs2[i]));
                lemma_remove_snapshots_sub(mv.snapshots, snapshot_ids, svs2[i]);
            }
            assert forall|id: i64| (#[trigger] snapshot_lookup(svs2, id)) is Some
                implies snapshot_valid(st, snapshot_lookup(svs2, id)->Some_0, spec_dim(mv)) by {
                crate::catalog::lemma_snapshot_lookup_member(svs2, id);
                let x = snapshot_lookup(svs2, id)->Some_0;
                let i = choose|i: int| 0 <= i < svs2.len() && svs2[i] == x;
                assert(mv.snapshots.contains(x));
                let i0 = choose|i0: int|
                    0 <= i0 < mv.snapshots.len() && mv.snapshots[i0] == x;
                assert(snapshot_lookup(mv.snapshots, x.snapshot_id) == Option::Some(x));
            }
            assert forall|i: int| 0 <= i < svs2.len() implies snapshot_lookup(
                svs2,
                (#[trigger] svs2[i]).snapshot_id,
            ) == Option::Some(svs2[i]) by {
                crate::catalog::lemma_snapshot_lookup_member(svs2, svs2[i].snapshot_id);
                assert(snapshot_lookup(svs2, svs2[i].snapshot_id) is Some);
                let y = snapshot_lookup(svs2, svs2[i].snapshot_id)->Some_0;
                let iy = choose|iy: int| 0 <= iy < svs2.len() && svs2[iy] == y;
                assert(mv.snapshots.contains(y));
                assert(mv.snapshots.contains(svs2[i]));
                let jy = choose|jy: int| 0 <= jy < mv.snapshots.len() && mv.snapshots[jy] == y;
                let ji = choose|ji: int|
                    0 <= ji < mv.snapshots.len() && mv.snapshots[ji] == svs2[i];
                assert(snapshot_lookup(mv.snapshots, y.snapshot_id) == Option::Some(y));
                assert(snapshot_lookup(mv.snapshots, svs2[i].snapshot_id) == Option::Some(
                    svs2[i],
                ));
                assert(y.snapshot_id == svs2[i].snapshot_id);
            }
        },
        _ => {
            assert(m2.snapshots == mv.snapshots);
        },
    }
}

/// A list of spec-keeping updates keeps every reachable snapshot
/// consistent.
pub proof fn lemma_apply_updates_valid(
    mv: TableMetadataView,
    st: crate::storage::TableStorageView,
    us: Seq<TableUpdateView>,
    m2: TableMetadataView,
)
    requires
        spec_apply_updates(mv, us) == Option::Some(m2),
        snapshots_unique(mv.snapshots),
        forall|id: i64|
            (#[trigger] snapshot_lookup(mv.snapshots, id)) is Some ==> snapshot_valid(
                st,
                snapshot_lookup(mv.snapshots, id)->Some_0,
                spec_dim(mv),
            ),
        forall|j: int|
            0 <= j < us.len() ==> ((#[trigger] us[j]) matches TableUpdateView::AddSnapshot {
                snapshot,
            } ==> snapshot_valid(st, snapshot, spec_dim(mv))),
        forall|j: int| 0 <= j < us.len() ==> keeps_specs(#[trigger] us[j]),
    ensures
        m2.partition_specs == mv.partition_specs,
        m2.default_spec_id == mv.default_spec_id,
        snapshots_unique(m2.snapshots),
        forall|id: i64|
            (#[trigger] snapshot_lookup(m2.snapshots, id)) is Some ==> snapshot_valid(
                st,
                snapshot_lookup(m2.snapshots, id)->Some_0,
                spec_dim(m2),
            ),
    decreases us.len(),
{
    if us.len() == 0 {
        assert(m2 == mv);
    } else {
        let mid = spec_apply_update(mv, us.first())->Some_0;
        lemma_apply_update_valid(mv, st, us.first(), mid);
        assert(spec_dim(mid) == spec_dim(mv));
        assert forall|j: int| 0 <= j < us.drop_first().len() implies ((#[trigger] us.drop_first()[
            j
        ]) matches TableUpdateView::AddSnapshot { snapshot } ==> snapshot_valid(
            st,
            snapshot,
            spec_dim(mid),
        )) by {
            assert(us.drop_first()[j] == us[j + 1]);
        }
        assert forall|j: int| 0 <= j < us.drop_first().len() implies keeps_specs(
            #[trigger] us.drop_first()[j],
        ) by {
            assert(us.drop_first()[j] == us[j + 1]);
        }
        lemma_apply_updates_valid(mid, st, us.drop_first(), m2);
    }
}

/// Two optional summary-pair lists merged: the later pairs stand after the
/// earlier ones, so a lookup by key sees the later value win.
pub open spec fn summaries_merged(
    prior: Option<Vec<(String, String)>>,
    given: Option<Vec<(String, String)>>,
    merged: Option<Vec<(String, String)>>,
) -> bool {
    match (prior, given) {
        (Option::None, Option::None) => merged is None,
        (Option::Some(p), Option::None) => merged == Option::Some(p),
        (Option::None, Option::Some(a)) => merged == Option::Some(a),
        (Option::Some(p), Option::Some(a)) => merged matches Option::Some(m) && m@ == p@ + a@,
    }
}

/// The staged operations a rewrite keeps: everything except appends and
/// rewrites, whose effect the rewrite replaces.
pub open spec fn ops_kept_by_rewrite(ops: Seq<Operation>) -> Seq<Operation> {
    ops.filter(|op: Operation| !(op is Append) && !(op is Rewrite))
}

/// What compiling a lone append stages: an `AddSnapshot` of a snapshot
/// whose manifest list accounts for the old live files plus the appended
/// ones, and a `SetSnapshotRef` moving the branch to it.
pub open spec fn compiled_single_append(
    op: Operation,
    md: TableMetadataView,
    st0: crate::storage::TableStorageView,
    stf: crate::storage::TableStorageView,
    ups: Seq<TableUpdateView>,
) -> bool {
    op matches Operation::Append { branch, files, additional_summary } ==> {
        &&& ups.len() == 2
        &&& (ups[0] matches TableUpdateView::AddSnapshot { snapshot } && {
            &&& crate::storage::list_lookup(stf.manifest_lists, snapshot.manifest_list) is Some
            &&& crate::manifest::count_live(
                crate::table::entries_cat(
                    stf,
                    crate::storage::list_lookup(
                        stf.manifest_lists,
                        snapshot.manifest_list,
                    )->Some_0,
                ),
            ) == crate::manifest::count_live(
                crate::operation::filter_source_entries(
                    md,
                    st0,
                    crate::operation::branch_view(branch),
                ),
            ) + files@.len()
            &&& (ups[1] matches TableUpdateView::SetSnapshotRef { ref_name, snapshot_reference }
                && ref_name == crate::operation::spec_branch_name(branch)
                && snapshot_reference.snapshot_id == snapshot.snapshot_id)
        })
    }
}

/// A lone staged append shows up in the committed document: the branch ref
/// points at a snapshot of the document whose manifest list accounts for
/// the handle's old live files plus exactly the appended ones.
pub open spec fn op_outcome_tied(
    op: Operation,
    md: TableMetadataView,
    st0: crate::storage::TableStorageView,
    stf: crate::storage::TableStorageView,
    m2: TableMetadataView,
) -> bool {
    op matches Operation::Append { branch, files, additional_summary } ==> exists|
        sv: crate::snapshot::SnapshotView,
    |
        {
            &&& #[trigger] snapshot_lookup(m2.snapshots, sv.snapshot_id) == Option::Some(sv)
            &&& (ref_lookup(m2.refs, crate::operation::spec_branch_name(branch))
                matches Option::Some(rf) && rf.snapshot_id == sv.snapshot_id)
            &&& crate::storage::list_lookup(stf.manifest_lists, sv.manifest_list) is Some
            &&& crate::manifest::count_live(
                crate::table::entries_cat(
                    stf,
                    crate::storage::list_lookup(
                        stf.manifest_lists,
                        sv.manifest_list,
                    )->Some_0,
                ),
            ) == crate::manifest::count_live(
                crate::operation::filter_source_entries(
                    md,
                    st0,
                    crate::operation::branch_view(branch),
                ),
            ) + files@.len()
        }
}

/// An ordered batch of operations against one table and branch.
pub struct Transaction {
    pub branch: Option<String>,
    pub operations: Vec<Operation>,
}

impl Transaction {
    /// Starts an empty transaction on a branch.
    pub fn new(branch: Option<String>) -> (r: Transaction)
        ensures
            r.operations@.len() == 0,
            crate::operation::branch_view(r.branch) == crate::operation::branch_view(branch),
    {
        Transaction { branch, operations: Vec::new() }
    }

    /// Copies the transaction's branch argument.
    fn branch_arg(&self) -> (r: Option<String>)
        ensures
            crate::operation::branch_view(r) == crate::operation::branch_view(self.branch),
    {
        match &self.branch {
            Option::Some(b) => Option::Some(b.clone()),
            Option::None => Option::None,
        }
    }

    /// Stages an append. A staged append directly before it folds in: the
    /// file lists concatenate and the summaries merge, later pairs winning.
    pub fn append(&mut self, files: Vec<DataFile>, additional_summary: Option<Vec<(String, String)>>)
        ensures
            final(self).branch == old(self).branch,
            ({
                let ops = old(self).operations@;
                let new_ops = final(self).operations@;
                if ops.len() > 0 && (ops.last() matches Operation::Append { .. }) {
                    &&& new_ops.len() == ops.len()
                    &&& new_ops.take(ops.len() - 1) == ops.take(ops.len() - 1)
                    &&& (ops.last() matches Operation::Append {
                        branch: b0,
                        files: f0,
                        additional_summary: s0,
                    } ==> (new_ops.last() matches Operation::Append {
                        branch: b1,
                        files: f1,
                        additional_summary: s1,
                    } && b1 == b0 && f1@ == f0@ + files@ && summaries_merged(
                        s0,
                        additional_summary,
                        s1,
                    )))
                } else {
                    &&& new_ops.len() == ops.len() + 1
                    &&& new_ops.take(ops.len() as int) == ops
                    &&& (new_ops.last() matches Operation::Append {
                        branch: b1,
                        files: f1,
                        additional_summary: s1,
                    } && crate::operation::branch_view(b1) == crate::operation::branch_view(
                        old(self).branch,
                    ) && f1 == files && s1 == additional_summary)
                }
            }),
    {
        let ghost ops0 = self.operations@;
        let n = self.operations.len();
        if n > 0 {
            let folded: bool = matches!(&self.operations[n - 1], Operation::Append { .. });
            if folded {
                let prior = self.operations.remove(n - 1);
                proof {
                    assert(prior == ops0.last());
                    assert(self.operations@ =~= ops0.take(n - 1));
                }
                match prior {
                    Operation::Append {
                        branch: b,
                        files: mut prior_files,
                        additional_summary: prior_summary,
                    } => {
                        let ghost f0 = prior_files@;
                        let ghost given = files@;
                        let mut rest = files;
                        let ghost i: int = 0;
                        while rest.len() > 0
                            invariant
                                0 <= i <= given.len(),
                                rest@ =~= given.skip(i),
                                prior_files@ =~= f0 + given.take(i),
                            decreases rest@.len(),
                        {
                            proof {
                                assert(given.skip(i).len() > 0);
                                assert(given.skip(i)[0] == given[i]);
                            }
                            let f = rest.remove(0);
                            proof {
                                assert(rest@ =~= given.skip(i).remove(0));
                                assert(given.skip(i).remove(0) =~= given.skip(i + 1));
                            }
                            prior_files.push(f);
                            proof {
                                assert(prior_files@ =~= (f0 + given.take(i)).push(given[i]));
                                assert((f0 + given.take(i)).push(given[i]) =~= f0 + given.take(
                                    i + 1,
                                ));
                                i = i + 1;
                            }
                        }
                        proof {
                            assert(given.skip(i).len() == 0);
                            assert(given.take(i) =~= given);
                            assert(prior_files@ =~= f0 + given);
                        }
                        let merged: Option<Vec<(String, String)>> = match (
                            prior_summary,
                            additional_summary,
                        ) {
                            (Option::None, Option::None) => Option::None,
                            (Option::Some(p), Option::None) => Option::Some(p),
                            (Option::None, Option::Some(a)) => Option::Some(a),
                            (Option::Some(mut p), Option::Some(a)) => {
                                let ghost p0 = p@;
                                let ghost a0 = a@;
                                let mut rest = a;
                                let ghost i: int = 0;
                                while rest.len() > 0
                                    invariant
                                        0 <= i <= a0.len(),
                                        rest@ =~= a0.skip(i),
                                        p@ =~= p0 + a0.take(i),
                                    decreases rest@.len(),
                                {
                                    proof {
                                        assert(a0.skip(i).len() > 0);
                                        assert(a0.skip(i)[0] == a0[i]);
                                    }
                                    let pair = rest.remove(0);
                                    proof {
                                        assert(rest@ =~= a0.skip(i).remove(0));
                                        assert(a0.skip(i).remove(0) =~= a0.skip(i + 1));
                                    }
                                    p.push(pair);
                                    proof {
                                        assert(p@ =~= (p0 + a0.take(i)).push(a0[i]));
                                        assert((p0 + a0.take(i)).push(a0[i]) =~= p0 + a0.take(
                                            i + 1,
                                        ));
                                        i = i + 1;
                                    }
                                }
                                proof {
                                    assert(a0.skip(i).len() == 0);
                                    assert(a0.take(i) =~= a0);
                                    assert(p@ =~= p0 + a0);
                                }
                                Option::Some(p)
                            },
                        };
                        self.operations.push(
                            Operation::Append {
                                branch: b,
                                files: prior_files,
                                additional_summary: merged,
                            },
                        );
                        proof {
                            assert(self.operations@.take(ops0.len() - 1) =~= ops0.take(
                                ops0.len() - 1,
                            ));
                        }
                    },
                    other => {
                        self.operations.push(other);
                    },
                }
                return ;
            }
        }
        let branch = self.branch_arg();
        self.operations.push(Operation::Append { branch, files, additional_summary });
        proof {
            assert(self.operations@.take(ops0.len() as int) =~= ops0);
        }
    }

    /// Stages a rewrite, discarding staged appends and rewrites on the
    /// branch: the rewrite replaces whatever they would have produced.
    pub fn rewrite(
        &mut self,
        files: Vec<DataFile>,
        additional_summary: Option<Vec<(String, String)>>,
    )
        ensures
            final(self).branch == old(self).branch,
            ({
                let kept = ops_kept_by_rewrite(old(self).operations@);
                let new_ops = final(self).operations@;
                &&& new_ops.len() == kept.len() + 1
                &&& new_ops.take(kept.len() as int) == kept
                &&& (new_ops.last() matches Operation::Rewrite {
                    branch: b1,
                    files: f1,
                    additional_summary: s1,
                    sources: src1,
                } && crate::operation::branch_view(b1) == crate::operation::branch_view(
                    old(self).branch,
                ) && f1 == files && s1 == additional_summary && src1@.len() == 0)
            }),
    {
        self.rewrite_with_sources(files, additional_summary, Vec::new());
    }

    /// Stages a rewrite carrying source-table bookkeeping, discarding
    /// staged appends and rewrites on the branch.
    pub fn rewrite_with_sources(
        &mut self,
        files: Vec<DataFile>,
        additional_summary: Option<Vec<(String, String)>>,
        sources: Vec<SourceTable>,
    )
        ensures
            final(self).branch == old(self).branch,
            ({
                let kept = ops_kept_by_rewrite(old(self).operations@);
                let new_ops = final(self).operations@;
                &&& new_ops.len() == kept.len() + 1
                &&& new_ops.take(kept.len() as int) == kept
                &&& (new_ops.last() matches Operation::Rewrite {
                    branch: b1,
                    files: f1,
                    additional_summary: s1,
                    sources: src1,
                } && crate::operation::branch_view(b1) == crate::operation::branch_view(
                    old(self).branch,
                ) && f1 == files && s1 == additional_summary && src1 == sources)
            }),
    {
        let ghost ops0 = self.operations@;
        let mut reversed: Vec<Operation> = Vec::new();
        while self.operations.len() > 0
            invariant
                self.branch == old(self).branch,
                self.operations@.len() + reversed@.len() == ops0.len(),
                self.operations@ =~= ops0.take(self.operations@.len() as int),
                reversed@ =~= ops0.skip(self.operations@.len() as int).reverse(),
            decreases self.operations@.len(),
        {
            let ghost m = self.operations@.len() as int;
            match self.operations.pop() {
                Option::Some(op) => {
                    proof {
                        assert(op == ops0.take(m).last());
                        assert(ops0.take(m).last() == ops0[m - 1]);
                        assert(ops0.take(m).drop_last() =~= ops0.take(m - 1));
                    }
                    reversed.push(op);
                    proof {
                        assert(reversed@ =~= ops0.skip(m - 1).reverse()) by {
                            assert(reversed@.len() == ops0.skip(m - 1).reverse().len());
                            assert(forall|k: int|
                                0 <= k < reversed@.len() ==> #[trigger] reversed@[k] == ops0.skip(
                                    m - 1,
                                ).reverse()[k]);
                        }
                    }
                },
                Option::None => {},
            }
        }
        proof {
            assert(reversed@ =~= ops0.reverse()) by {
                assert(ops0.skip(0) =~= ops0);
            }
            reveal(Seq::filter);
            assert(ops_kept_by_rewrite(ops0.take(0)) =~= Seq::<Operation>::empty());
        }
        let ghost j: int = 0;
        while reversed.len() > 0
            invariant
                0 <= j <= ops0.len(),
                self.branch == old(self).branch,
                reversed@ =~= ops0.skip(j).reverse(),
                self.operations@ =~= ops_kept_by_rewrite(ops0.take(j)),
            decreases reversed@.len(),
        {
            proof {
                assert(ops0.skip(j).reverse().len() > 0);
                assert(j < ops0.len());
            }
            match reversed.pop() {
                Option::Some(op) => {
                    proof {
                        assert(op == ops0.skip(j).reverse().last());
                        assert(ops0.skip(j).reverse().last() == ops0.skip(j)[0]);
                        assert(ops0.skip(j)[0] == ops0[j]);
                        assert(ops0.skip(j).reverse().drop_last() =~= ops0.skip(j + 1).reverse());
                    }
                    let discard: bool = matches!(
                        &op,
                        Operation::Append { .. } | Operation::Rewrite { .. },
                    );
                    let ghost kept_before = self.operations@;
                    if !discard {
                        self.operations.push(op);
                    }
                    proof {
                        reveal(Seq::filter);
                        assert(ops0.take(j + 1).drop_last() =~= ops0.take(j));
                        assert(ops0.take(j + 1).last() == ops0[j]);
                        assert(self.operations@ =~= ops_kept_by_rewrite(ops0.take(j + 1)));
                        j = j + 1;
                    }
                },
                Option::None => {},
            }
        }
        proof {
            assert(ops0.skip(j).reverse().len() == 0);
            assert(j == ops0.len());
            assert(ops0.take(j) =~= ops0);
        }
        let ghost kept = self.operations@;
        let branch = self.branch_arg();
        self.operations.push(Operation::Rewrite { branch, files, additional_summary, sources });
        proof {
            assert(self.operations@.take(kept.len() as int) =~= kept);
        }
    }

    /// Stages a filter: a logical delete by predicate followed by an append
    /// of `new_files`.
    pub fn filter(
        &mut self,
        predicate: Option<PrunePredicate>,
        new_files: Vec<DataFile>,
        additional_summary: Option<Vec<(String, String)>>,
    )
        ensures
            final(self).branch == old(self).branch,
            final(self).operations@.len() == old(self).operations@.len() + 1,
            final(self).operations@.take(old(self).operations@.len() as int) == old(
                self,
            ).operations@,
            (final(self).operations@.last() matches Operation::Filter {
                branch: b1,
                predicate: p1,
                additional_summary: s1,
                new_files: f1,
            } && crate::operation::branch_view(b1) == crate::operation::branch_view(
                old(self).branch,
            ) && p1 == predicate && s1 == additional_summary && f1 == new_files),
    {
        let ghost ops0 = self.operations@;
        let branch = self.branch_arg();
        self.operations.push(
            Operation::Filter { branch, predicate, additional_summary, new_files },
        );
        proof {
            assert(self.operations@.take(ops0.len() as int) =~= ops0);
        }
    }

    /// Stages a property update. One staged directly before folds in by
    /// pair-list union, later pairs winning.
    pub fn update_properties(&mut self, entries: Vec<(String, String)>)
        ensures
            final(self).branch == old(self).branch,
            ({
                let ops = old(self).operations@;
                let new_ops = final(self).operations@;
                if ops.len() > 0 && (ops.last() matches Operation::UpdateProperties(_)) {
                    &&& new_ops.len() == ops.len()
                    &&& new_ops.take(ops.len() - 1) == ops.take(ops.len() - 1)
                    &&& (ops.last() matches Operation::UpdateProperties(p0)
                        ==> (new_ops.last() matches Operation::UpdateProperties(p1) && p1@ == p0@
                            + entries@))
                } else {
                    &&& new_ops.len() == ops.len() + 1
                    &&& new_ops.take(ops.len() as int) == ops
                    &&& (new_ops.last() matches Operation::UpdateProperties(p1) && p1 == entries)
                }
            }),
    {
        let ghost ops0 = self.operations@;
        let n = self.operations.len();
        if n > 0 {
            let folded: bool = matches!(&self.operations[n - 1], Operation::UpdateProperties(_));
            if folded {
                let prior = self.operations.remove(n - 1);
                proof {
                    assert(prior == ops0.last());
                    assert(self.operations@ =~= ops0.take(n - 1));
                }
                match prior {
                    Operation::UpdateProperties(mut pairs) => {
                        let ghost p0 = pairs@;
                        let ghost a0 = entries@;
                        let mut rest = entries;
                        let ghost i: int = 0;
                        while rest.len() > 0
                            invariant
                                0 <= i <= a0.len(),
                                rest@ =~= a0.skip(i),
                                pairs@ =~= p0 + a0.take(i),
                            decreases rest@.len(),
                        {
                            proof {
                                assert(a0.skip(i).len() > 0);
                                assert(a0.skip(i)[0] == a0[i]);
                            }
                            let pair = rest.remove(0);
                            proof {
                                assert(rest@ =~= a0.skip(i).remove(0));
                                assert(a0.skip(i).remove(0) =~= a0.skip(i + 1));
                            }
                            pairs.push(pair);
                            proof {
                                assert(pairs@ =~= (p0 + a0.take(i)).push(a0[i]));
                                assert((p0 + a0.take(i)).push(a0[i]) =~= p0 + a0.take(i + 1));
                                i = i + 1;
                            }
                        }
                        proof {
                            assert(a0.skip(i).len() == 0);
                            assert(a0.take(i) =~= a0);
                            assert(pairs@ =~= p0 + a0);
                        }
                        self.operations.push(Operation::UpdateProperties(pairs));
                        proof {
                            assert(self.operations@.take(ops0.len() - 1) =~= ops0.take(
                                ops0.len() - 1,
                            ));
                        }
                    },
                    other => {
                        self.operations.push(other);
                    },
                }
                return ;
            }
        }
        self.operations.push(Operation::UpdateProperties(entries));
        proof {
            assert(self.operations@.take(ops0.len() as int) =~= ops0);
        }
    }

    /// Stages a schema addition.
    pub fn add_schema(&mut self, schema: crate::schema::Schema)
        ensures
            final(self).branch == old(self).branch,
            final(self).operations@.len() == old(self).operations@.len() + 1,
            final(self).operations@.take(old(self).operations@.len() as int) == old(
                self,
            ).operations@,
            (final(self).operations@.last() matches Operation::AddSchema(s1) && s1 == schema),
    {
        let ghost ops0 = self.operations@;
        self.operations.push(Operation::AddSchema(schema));
        proof {
            assert(self.operations@.take(ops0.len() as int) =~= ops0);
        }
    }

    /// Stages a default-spec change.
    pub fn set_default_spec(&mut self, spec_id: i32)
        ensures
            final(self).branch == old(self).branch,
            final(self).operations@.len() == old(self).operations@.len() + 1,
            final(self).operations@.take(old(self).operations@.len() as int) == old(
                self,
            ).operations@,
            final(self).operations@.last() == Operation::SetDefaultSpec(spec_id),
    {
        let ghost ops0 = self.operations@;
        self.operations.push(Operation::SetDefaultSpec(spec_id));
        proof {
            assert(self.operations@.take(ops0.len() as int) =~= ops0);
        }
    }

    /// Stages a ref move.
    pub fn set_snapshot_ref(&mut self, ref_name: String, reference: SnapshotReference)
        ensures
            final(self).branch == old(self).branch,
            final(self).operations@.len() == old(self).operations@.len() + 1,
            final(self).operations@.take(old(self).operations@.len() as int) == old(
                self,
            ).operations@,
            (final(self).operations@.last() matches Operation::SetSnapshotRef(pair) && pair.0
                == ref_name && pair.1 == reference),
    {
        let ghost ops0 = self.operations@;
        self.operations.push(Operation::SetSnapshotRef((ref_name, reference)));
        proof {
            assert(self.operations@.take(ops0.len() as int) =~= ops0);
        }
    }

    /// Stages a full refresh of a materialized view's storage table: a
    /// rewrite carrying the source-table snapshots the new contents were
    /// computed from, which the committed snapshot's summary records.
    pub fn full_refresh(&mut self, files: Vec<DataFile>, source_tables: Vec<SourceTable>)
        ensures
            final(self).branch == old(self).branch,
            ({
                let kept = ops_kept_by_rewrite(old(self).operations@);
                let new_ops = final(self).operations@;
                &&& new_ops.len() == kept.len() + 1
                &&& new_ops.take(kept.len() as int) == kept
                &&& (new_ops.last() matches Operation::Rewrite {
                    branch: b1,
                    files: f1,
                    additional_summary: s1,
                    sources: src1,
                } && crate::operation::branch_view(b1) == crate::operation::branch_view(
                    old(self).branch,
                ) && f1 == files && s1 is None && src1 == source_tables)
            }),
    {
        self.rewrite_with_sources(files, Option::None, source_tables);
    }

    /// Compiles the staged operations in order and submits one atomic
    /// commit. On success the catalog points the table at the new document,
    /// which is returned; on a conflict the catalog is unchanged and the
    /// caller reloads and replans.
    pub fn commit(
        self,
        table_metadata: &TableMetadata,
        storage: &mut TableStorage,
        catalog: &mut CatalogState,
        identifier: &Identifier,
        new_metadata_location: String,
        timestamp_ms: i64,
    ) -> (r: Result<TableMetadata, Error>)
        requires
            table_valid(table_metadata@, old(storage)@),
        ensures
            old(storage)@.le(&final(storage)@),
            match r {
                Result::Ok(m2) => {
                    &&& tabular_lookup(old(catalog)@.tabulars, identifier@) is Some
                    &&& tabular_lookup(old(catalog)@.tabulars, identifier@)->Some_0.0 is Table
                    &&& m2@.wf()
                    &&& tabular_lookup(final(catalog)@.tabulars, identifier@) == Option::Some(
                        (TabularMetadataView::Table(m2@), new_metadata_location@),
                    )
                    &&& forall|other: crate::catalog::IdentifierView|
                        other != identifier@ ==> #[trigger] tabular_lookup(
                            final(catalog)@.tabulars,
                            other,
                        ) == tabular_lookup(old(catalog)@.tabulars, other)
                    &&& final(catalog)@.namespaces == old(catalog)@.namespaces
                    &&& {
                        let pre_md = tabular_lookup(
                            old(catalog)@.tabulars,
                            identifier@,
                        )->Some_0.0->Table_0;
                        exists|ups: Seq<TableUpdateView>|
                            {
                                &&& #[trigger] spec_apply_updates(pre_md, ups) == Option::Some(
                                    m2@,
                                )
                                &&& ((snapshots_unique(pre_md.snapshots) && spec_dim(pre_md)
                                    == spec_dim(table_metadata@) && table_valid(
                                    pre_md,
                                    old(storage)@,
                                ) && (forall|j: int| 0 <= j < ups.len() ==> keeps_specs(#[trigger] ups[j])))
                                    ==> table_valid(m2@, final(storage)@))
                            }
                    }
                },
                Result::Err(e) => {
                    &&& final(catalog)@ == old(catalog)@
                    &&& (e is NotFound || e is InvalidFormat || e is IO || e is Conflict)
                    &&& (e is Conflict ==> tabular_lookup(old(catalog)@.tabulars, identifier@)
                        is Some && tabular_lookup(old(catalog)@.tabulars, identifier@)->Some_0.0
                        is Table)
                },
            },
            ({
                let ops0 = self.operations@;
                (ops0.len() == 1 && r is Ok) ==> {
                    let m2 = r->Ok_0;
                    op_outcome_tied(
                        ops0[0],
                        table_metadata@,
                        old(storage)@,
                        final(storage)@,
                        m2@,
                    )
                }
            }),
    {
        let ghost st0 = storage@;
        let ghost ops0 = self.operations@;
        let mut requirements: Vec<TableRequirement> = Vec::new();
        let mut updates: Vec<TableUpdate> = Vec::new();
        let mut ops = self.operations;
        while ops.len() > 0
            invariant
                st0.le(&storage@),
                st0 == old(storage)@,
                table_valid(table_metadata@, st0),
                ops@.len() <= ops0.len(),
                ops0.len() == 1 && ops@.len() == 1 ==> (ops@ =~= ops0 && updates@.len() == 0
                    && storage@ == st0),
                ops0.len() == 1 && ops@.len() == 0 ==> compiled_single_append(
                    ops0[0],
                    table_metadata@,
                    st0,
                    storage@,
                    crate::catalog::updates_view(updates@),
                ),
                forall|j: int|
                    0 <= j < updates@.len() ==> ((#[trigger] crate::catalog::updates_view(
                        updates@,
                    )[j]) matches TableUpdateView::AddSnapshot { snapshot } ==> snapshot_valid(
                        storage@,
                        snapshot,
                        spec_dim(table_metadata@),
                    )),
            decreases ops@.len(),
        {
            let ghost single = ops0.len() == 1 && ops@.len() == 1;
            let op = ops.remove(0);
            let ghost op0 = op;
            proof {
                crate::table::lemma_table_valid_mono(table_metadata@, st0, storage@);
            }
            let ghost st_pre = storage@;
            let (req, mut ups) = match op.execute(table_metadata, storage, timestamp_ms) {
                Result::Ok(x) => x,
                Result::Err(e) => {
                    proof {
                        crate::storage::lemma_le_trans(st0, st_pre, storage@);
                    }
                    return Result::Err(e);
                },
            };
            proof {
                crate::storage::lemma_le_trans(st0, st_pre, storage@);
            }
            match req {
                Option::Some(q) => {
                    requirements.push(q);
                },
                Option::None => {},
            }
            let ghost upv_old = crate::catalog::updates_view(updates@);
            let ghost upv_new = crate::catalog::updates_view(ups@);
            proof {
                assert forall|j: int| 0 <= j < upv_old.len() implies ((#[trigger] upv_old[j])
                    matches TableUpdateView::AddSnapshot { snapshot } ==> snapshot_valid(
                    storage@,
                    snapshot,
                    spec_dim(table_metadata@),
                )) by {
                    match upv_old[j] {
                        TableUpdateView::AddSnapshot { snapshot } => {
                            crate::table::lemma_snapshot_valid_mono(
                                st_pre,
                                storage@,
                                snapshot,
                                spec_dim(table_metadata@),
                            );
                        },
                        _ => {},
                    }
                }
            }
            let ghost i: int = 0;
            while ups.len() > 0
                invariant
                    0 <= i <= upv_new.len(),
                    crate::catalog::updates_view(ups@) =~= upv_new.skip(i),
                    crate::catalog::updates_view(updates@) =~= upv_old + upv_new.take(i),
                decreases ups@.len(),
            {
                let ghost restv = crate::catalog::updates_view(ups@);
                let ghost outv = crate::catalog::updates_view(updates@);
                let u = ups.remove(0);
                proof {
                    assert(restv =~= upv_new.skip(i));
                    assert(restv.len() == ups@.len() + 1);
                    assert(upv_new.skip(i)[0] == upv_new[i]);
                    assert(u@ == restv[0]);
                    assert(crate::catalog::updates_view(ups@) =~= restv.remove(0));
                    assert(restv.remove(0) =~= upv_new.skip(i + 1));
                }
                updates.push(u);
                proof {
                    assert(crate::catalog::updates_view(updates@) =~= outv.push(upv_new[i]));
                    assert(outv.push(upv_new[i]) =~= upv_old + upv_new.take(i + 1));
                    i = i + 1;
                }
            }
            proof {
                assert(upv_new.take(upv_new.len() as int) =~= upv_new);
                assert(crate::catalog::updates_view(ups@).len() == ups@.len());
                assert(crate::catalog::updates_view(updates@) =~= upv_old + upv_new);
                if single {
                    assert(op0 == ops0[0]);
                    assert(upv_old.len() == 0);
                    let uv = crate::catalog::updates_view(updates@);
                    assert(uv =~= upv_new);
                    match op0 {
                        Operation::Append { branch, files, additional_summary } => {
                            assert(uv.len() == 2);
                            assert(uv[0] == upv_new[0]);
                            assert(uv[1] == upv_new[1]);
                            assert(compiled_single_append(
                                op0,
                                table_metadata@,
                                st0,
                                storage@,
                                uv,
                            )) by {
                                match uv[0] {
                                    TableUpdateView::AddSnapshot { snapshot } => {
                                        assert(snapshot_valid(
                                            storage@,
                                            snapshot,
                                            spec_dim(table_metadata@),
                                        ));
                                    },
                                    _ => {},
                                }
                            }
                        },
                        _ => {},
                    }
                }
            }
        }
        let ghost st_final = storage@;
        let ghost final_ups = crate::catalog::updates_view(updates@);
        let commit = CommitTable {
            identifier: crate::catalog::clone_identifier(identifier),
            requirements,
            updates,
        };
        proof {
            assert(commit.identifier@ == identifier@);
        }
        let result = catalog.update_table(commit, new_metadata_location);
        match result {
            Result::Ok(m2) => {
                proof {
                    let pre_md = tabular_lookup(
                        old(catalog)@.tabulars,
                        identifier@,
                    )->Some_0.0->Table_0;
                    assert(spec_apply_updates(pre_md, final_ups) == Option::Some(m2@));
                    if snapshots_unique(pre_md.snapshots) && spec_dim(pre_md) == spec_dim(
                        table_metadata@,
                    ) && table_valid(pre_md, st0) && (forall|j: int|
                        0 <= j < final_ups.len() ==> keeps_specs(#[trigger] final_ups[j])) {
                        assert forall|id: i64| (#[trigger] snapshot_lookup(
                            pre_md.snapshots,
                            id,
                        )) is Some implies snapshot_valid(
                            st_final,
                            snapshot_lookup(pre_md.snapshots, id)->Some_0,
                            spec_dim(pre_md),
                        ) by {
                            crate::table::lemma_snapshot_valid_mono(
                                st0,
                                st_final,
                                snapshot_lookup(pre_md.snapshots, id)->Some_0,
                                spec_dim(pre_md),
                            );
                        }
                        lemma_apply_updates_valid(pre_md, st_final, final_ups, m2@);
                        assert(table_valid(m2@, st_final));
                    }
                    if ops0.len() == 1 {
                        match ops0[0] {
                            Operation::Append { branch, files, additional_summary } => {
                                assert(compiled_single_append(
                                    ops0[0],
                                    table_metadata@,
                                    st0,
                                    st_final,
                                    final_ups,
                                ));
                                match (final_ups[0], final_ups[1]) {
                                    (
                                        TableUpdateView::AddSnapshot { snapshot: sv },
                                        TableUpdateView::SetSnapshotRef {
                                            ref_name,
                                            snapshot_reference,
                                        },
                                    ) => {
                                        assert(final_ups =~= seq![
                                            TableUpdateView::AddSnapshot { snapshot: sv },
                                            TableUpdateView::SetSnapshotRef {
                                                ref_name,
                                                snapshot_reference,
                                            },
                                        ]);
                                        crate::laws::lemma_commit_moves_ref(
                                            pre_md,
                                            sv,
                                            ref_name,
                                            snapshot_reference,
                                            m2@,
                                        );
                                        assert(snapshot_lookup(m2@.snapshots, sv.snapshot_id)
                                            == Option::Some(sv));
                                        assert(ref_lookup(
                                            m2@.refs,
                                            crate::operation::spec_branch_name(branch),
                                        ) == Option::Some(snapshot_reference));
                                        assert(op_outcome_tied(
                                            ops0[0],
                                            table_metadata@,
                                            st0,
                                            st_final,
                                            m2@,
                                        ));
                                    },
                                    _ => {
                                        assert(false);
                                    },
                                }
                            },
                            _ => {},
                        }
                    }
                }
                Result::Ok(m2)
            },
            Result::Err(e) => Result::Err(e),
        }
    }
}

} // verus!
