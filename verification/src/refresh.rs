//! The materialized-view refresh state machine: compare the source-table
//! snapshots recorded by the storage table with the sources' current
//! snapshots, and decide whether the materialization is fresh, outdated or
//! invalid — and whether a refresh must rewrite the storage table.
//!
//! The engine never partially advances the bookkeeping: either a refresh
//! commits one rewrite carrying the full set of observed source snapshots,
//! or it commits nothing.

use vstd::prelude::*;

use crate::snapshot::{SourceTable, SourceTableView};
use crate::table_metadata::TableMetadata;
use crate::Error;

verus! {

/// Freshness of the storage table with respect to one source table.
#[derive(Clone, Copy, Debug, PartialEq, Eq, Structural)]
pub enum StorageTableState {
    /// The recorded snapshot is the source's current snapshot.
    Fresh,
    /// The source advanced; an incremental refresh would replay from the
    /// recorded snapshot.
    Outdated(i64),
    /// No snapshot of the source was ever consumed; a full refresh is
    /// required.
    Invalid,
}

/// The sentinel recorded when no snapshot of a source has been consumed.
pub const NO_RECORDED_SNAPSHOT: i64 = -1;

/// How one source classifies: fresh when the recorded snapshot is current,
/// invalid when nothing was recorded, outdated otherwise.
pub open spec fn spec_classify(recorded: i64, current: i64) -> StorageTableState {
    if recorded == current {
        StorageTableState::Fresh
    } else if recorded == NO_RECORDED_SNAPSHOT {
        StorageTableState::Invalid
    } else {
        StorageTableState::Outdated(recorded)
    }
}

/// Classifies one source table.
pub fn classify_source_state(recorded: i64, current: i64) -> (r: StorageTableState)
    ensures
        r == spec_classify(recorded, current),
{
    if recorded == current {
        StorageTableState::Fresh
    } else if recorded == NO_RECORDED_SNAPSHOT {
        StorageTableState::Invalid
    } else {
        StorageTableState::Outdated(recorded)
    }
}

/// The source-table snapshots recorded by a storage table: those in the
/// summary of its current snapshot; `None` when nothing is recorded.
pub fn recorded_source_tables(storage_metadata: &TableMetadata, branch: Option<&str>) -> (r:
    Result<Option<Vec<SourceTable>>, Error>)
    ensures
        match r {
            Result::Ok(opt) => match storage_metadata@.spec_current_snapshot(
                crate::table_metadata::opt_name_view(branch),
            ) {
                Option::Some(sv) => if sv.summary.sources.len() > 0 {
                    &&& opt is Some
                    &&& crate::snapshot::sources_view(opt->Some_0@) == sv.summary.sources
                } else {
                    opt is None
                },
                Option::None => opt is None,
            },
            Result::Err(e) => e is InvalidFormat,
        },
{
    match storage_metadata.current_snapshot(branch) {
        Result::Ok(Option::Some(s)) => {
            if s.summary.sources.len() > 0 {
                Result::Ok(Option::Some(crate::snapshot::clone_sources(&s.summary.sources)))
            } else {
                Result::Ok(Option::None)
            }
        },
        Result::Ok(Option::None) => Result::Ok(Option::None),
        Result::Err(e) => Result::Err(e),
    }
}

/// What a refresh must do.
pub enum RefreshPlan {
    /// Every source is fresh: commit nothing.
    NoChange,
    /// Rewrite the storage table; the new snapshot records these observed
    /// source snapshots.
    FullRefresh { observed: Vec<SourceTable> },
}

/// Plans a refresh from the recorded source snapshots and the sources'
/// current snapshot ids, aligned by position. When every source is fresh
/// nothing is committed; otherwise the storage table is rewritten and the
/// observed ids are recorded.
pub fn plan_refresh(recorded: &Vec<SourceTable>, current_ids: &Vec<i64>) -> (r: Result<
    RefreshPlan,
    Error,
>)
    ensures
        match r {
            Result::Ok(plan) => {
                &&& recorded@.len() == current_ids@.len()
                &&& match plan {
                    RefreshPlan::NoChange => forall|j: int|
                        0 <= j < recorded@.len() ==> spec_classify(
                            (#[trigger] crate::snapshot::sources_view(recorded@)[j]).snapshot_id,
                            current_ids@[j],
                        ) is Fresh,
                    RefreshPlan::FullRefresh { observed } => {
                        &&& !(forall|j: int|
                            0 <= j < recorded@.len() ==> spec_classify(
                                (#[trigger] crate::snapshot::sources_view(
                                    recorded@,
                                )[j]).snapshot_id,
                                current_ids@[j],
                            ) is Fresh)
                        &&& observed@.len() == recorded@.len()
                        &&& forall|j: int|
                            0 <= j < observed@.len() ==> {
                                let o = #[trigger] crate::snapshot::sources_view(observed@)[j];
                                &&& o.identifier == crate::snapshot::sources_view(
                                    recorded@,
                                )[j].identifier
                                &&& o.snapshot_id == current_ids@[j]
                            }
                    },
                }
            },
            Result::Err(e) => recorded@.len() != current_ids@.len() && e is InvalidFormat,
        },
{
    if recorded.len() != current_ids.len() {
        return Result::Err(
            Error::InvalidFormat(String::from_str("source list length mismatch")),
        );
    }
    let mut fresh = true;
    let mut i: usize = 0;
    while i < recorded.len()
        invariant
            i <= recorded@.len(),
            recorded@.len() == current_ids@.len(),
            fresh <==> (forall|j: int|
                0 <= j < i ==> spec_classify(
                    (#[trigger] crate::snapshot::sources_view(recorded@)[j]).snapshot_id,
                    current_ids@[j],
                ) is Fresh),
        decreases recorded@.len() - i,
    {
        proof {
            assert(crate::snapshot::sources_view(recorded@)[i as int] == recorded@[i as int]@);
        }
        let state = classify_source_state(recorded[i].snapshot_id, current_ids[i]);
        if !matches!(state, StorageTableState::Fresh) {
            fresh = false;
        }
        i = i + 1;
    }
    if fresh {
        return Result::Ok(RefreshPlan::NoChange);
    }
    let mut observed: Vec<SourceTable> = Vec::new();
    let mut i: usize = 0;
    while i < recorded.len()
        invariant
            i <= recorded@.len(),
            recorded@.len() == current_ids@.len(),
            observed@.len() == i,
            forall|j: int|
                0 <= j < i ==> {
                    let o = #[trigger] crate::snapshot::sources_view(observed@)[j];
                    &&& o.identifier == crate::snapshot::sources_view(recorded@)[j].identifier
                    &&& o.snapshot_id == current_ids@[j]
                },
        decreases recorded@.len() - i,
    {
        let ghost outv = crate::snapshot::sources_view(observed@);
        observed.push(
            SourceTable {
                identifier: recorded[i].identifier.clone(),
                snapshot_id: current_ids[i],
            },
        );
        proof {
            assert(crate::snapshot::sources_view(observed@) =~= outv.push(
                observed@[i as int]@,
            ));
            assert(crate::snapshot::sources_view(observed@)[i as int] == observed@[i as int]@);
            assert(crate::snapshot::sources_view(recorded@)[i as int] == recorded@[i as int]@);
            assert(forall|j: int|
                0 <= j < i ==> #[trigger] crate::snapshot::sources_view(observed@)[j] == outv[j]);
        }
        i = i + 1;
    }
    Result::Ok(RefreshPlan::FullRefresh { observed })
}

/// Initial bookkeeping for sources named by the view's definition when the
/// storage table records nothing: each starts with no consumed snapshot.
pub fn initial_source_tables(relations: Vec<String>) -> (r: Vec<SourceTable>)
    ensures
        r@.len() == relations@.len(),
        forall|j: int|
            0 <= j < r@.len() ==> {
                let o = #[trigger] crate::snapshot::sources_view(r@)[j];
                &&& o.identifier == crate::snapshot::strings_view(relations@)[j]
                &&& o.snapshot_id == NO_RECORDED_SNAPSHOT
            },
{
    let ghost rels = crate::snapshot::strings_view(relations@);
    let mut out: Vec<SourceTable> = Vec::new();
    let mut rest = relations;
    let ghost i: int = 0;
    while rest.len() > 0
        invariant
            0 <= i <= rels.len(),
            crate::snapshot::strings_view(rest@) =~= rels.skip(i),
            out@.len() == i,
            forall|j: int|
                0 <= j < i ==> {
                    let o = #[trigger] crate::snapshot::sources_view(out@)[j];
                    &&& o.identifier == rels[j]
                    &&& o.snapshot_id == NO_RECORDED_SNAPSHOT
                },
        decreases rest@.len(),
    {
        let ghost restv = crate::snapshot::strings_view(rest@);
        let name = rest.remove(0);
        proof {
            assert(restv =~= rels.skip(i));
            assert(restv.len() == rest@.len() + 1);
            assert(rels.skip(i)[0] == rels[i]);
            assert(name@ == restv[0]);
            assert(crate::snapshot::strings_view(rest@) =~= restv.remove(0));
            assert(restv.remove(0) =~= rels.skip(i + 1));
        }
        let ghost outv = crate::snapshot::sources_view(out@);
        out.push(SourceTable { identifier: name, snapshot_id: NO_RECORDED_SNAPSHOT });
        proof {
            assert(crate::snapshot::sources_view(out@) =~= outv.push(out@[i]@));
            assert(forall|j: int|
                0 <= j < i ==> #[trigger] crate::snapshot::sources_view(out@)[j] == outv[j]);
            i = i + 1;
        }
    }
    proof {
        assert(crate::snapshot::strings_view(rest@).len() == rest@.len());
        assert(rels.skip(i).len() == 0);
    }
    out
}

/// Refreshing twice with no source changes is idempotent: once a rewrite
/// records the observed source snapshots and the sources do not move, every
/// source classifies fresh, so the second refresh commits nothing.
pub proof fn lemma_refresh_idempotent(recorded: Seq<SourceTableView>, current_ids: Seq<i64>)
    requires
        recorded.len() == current_ids.len(),
        forall|j: int| 0 <= j < recorded.len() ==> (#[trigger] recorded[j]).snapshot_id
            == current_ids[j],
    ensures
        forall|j: int|
            0 <= j < recorded.len() ==> spec_classify(
                (#[trigger] recorded[j]).snapshot_id,
                current_ids[j],
            ) is Fresh,
{
}

} // verus!
