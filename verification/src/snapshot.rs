//! Snapshots, refs and snapshot summaries.

use vstd::prelude::*;

verus! {

/// The kind of operation that produced a snapshot.
#[derive(Clone, Copy, Debug, PartialEq, Eq, Structural)]
pub enum SnapshotOperation {
    Append,
    Replace,
    Overwrite,
    Delete,
}

/// The spec-level record of a property list: key/value pairs as sequences.
pub open spec fn kv_view(v: Seq<(String, String)>) -> Seq<(Seq<char>, Seq<char>)> {
    v.map_values(|p: (String, String)| (p.0@, p.1@))
}

/// The spec-level records of a list of snapshots.
pub open spec fn snapshots_view(v: Seq<Snapshot>) -> Seq<SnapshotView> {
    v.map_values(|s: Snapshot| s@)
}

/// The spec-level records of a list of refs.
pub open spec fn refs_view(v: Seq<(String, SnapshotReference)>) -> Seq<
    (Seq<char>, SnapshotReference),
> {
    v.map_values(|p: (String, SnapshotReference)| (p.0@, p.1))
}

/// The spec-level records of a list of strings.
pub open spec fn strings_view(v: Seq<String>) -> Seq<Seq<char>> {
    v.map_values(|s: String| s@)
}

/// A snapshot summary: the operation, free-form key/value pairs, and, for a
/// snapshot produced by a materialized-view refresh, the source-table
/// snapshots it consumed.
pub struct Summary {
    pub operation: SnapshotOperation,
    pub other: Vec<(String, String)>,
    pub sources: Vec<SourceTable>,
}

/// The spec-level records of a list of source tables.
pub open spec fn sources_view(v: Seq<SourceTable>) -> Seq<SourceTableView> {
    v.map_values(|s: SourceTable| s@)
}

/// The spec-level record of a summary.
#[verifier::ext_equal]
pub struct SummaryView {
    pub operation: SnapshotOperation,
    pub other: Seq<(Seq<char>, Seq<char>)>,
    pub sources: Seq<SourceTableView>,
}

impl View for Summary {
    type V = SummaryView;

    open spec fn view(&self) -> SummaryView {
        SummaryView {
            operation: self.operation,
            other: kv_view(self.other@),
            sources: sources_view(self.sources@),
        }
    }
}

/// How long a ref's snapshots are retained.
#[derive(Clone, Copy, Debug, PartialEq, Eq, Structural)]
pub enum SnapshotRetention {
    Branch {
        min_snapshots_to_keep: Option<i32>,
        max_snapshot_age_ms: Option<i64>,
        max_ref_age_ms: Option<i64>,
    },
    Tag {
        max_ref_age_ms: Option<i64>,
    },
}

impl Default for SnapshotRetention {
    /// A branch with no retention limits.
    fn default() -> (r: SnapshotRetention)
        ensures
            r == (SnapshotRetention::Branch {
                min_snapshots_to_keep: Option::<i32>::None,
                max_snapshot_age_ms: Option::<i64>::None,
                max_ref_age_ms: Option::<i64>::None,
            }),
    {
        SnapshotRetention::Branch {
            min_snapshots_to_keep: Option::None,
            max_snapshot_age_ms: Option::None,
            max_ref_age_ms: Option::None,
        }
    }
}

/// A named pointer to a snapshot.
#[derive(Clone, Copy, Debug, PartialEq, Eq, Structural)]
pub struct SnapshotReference {
    pub snapshot_id: i64,
    pub retention: SnapshotRetention,
}

/// One step of the table's history.
#[derive(Clone, Copy, Debug, PartialEq, Eq, Structural)]
pub struct SnapshotLog {
    pub snapshot_id: i64,
    pub timestamp_ms: i64,
}

/// An immutable point-in-time view of a table.
pub struct Snapshot {
    /// Random 63-bit identifier.
    pub snapshot_id: i64,
    pub parent_snapshot_id: Option<i64>,
    /// Monotone per branch; stamped into entries this snapshot introduces.
    pub sequence_number: i64,
    pub timestamp_ms: i64,
    /// Path of the manifest list object of this snapshot.
    pub manifest_list: String,
    pub summary: Summary,
    pub schema_id: Option<i32>,
}

/// The spec-level record of a snapshot.
#[verifier::ext_equal]
pub struct SnapshotView {
    pub snapshot_id: i64,
    pub parent_snapshot_id: Option<i64>,
    pub sequence_number: i64,
    pub timestamp_ms: i64,
    pub manifest_list: Seq<char>,
    pub summary: SummaryView,
    pub schema_id: Option<i32>,
}

impl View for Snapshot {
    type V = SnapshotView;

    open spec fn view(&self) -> SnapshotView {
        SnapshotView {
            snapshot_id: self.snapshot_id,
            parent_snapshot_id: self.parent_snapshot_id,
            sequence_number: self.sequence_number,
            timestamp_ms: self.timestamp_ms,
            manifest_list: self.manifest_list@,
            summary: self.summary@,
            schema_id: self.schema_id,
        }
    }
}

/// A source table observed during a materialized-view refresh: the qualified
/// relation name and the snapshot that was read.
pub struct SourceTable {
    pub identifier: String,
    /// `-1` when no snapshot of the source has been consumed yet.
    pub snapshot_id: i64,
}

/// The spec-level record of a source table.
#[verifier::ext_equal]
pub struct SourceTableView {
    pub identifier: Seq<char>,
    pub snapshot_id: i64,
}

impl View for SourceTable {
    type V = SourceTableView;

    open spec fn view(&self) -> SourceTableView {
        SourceTableView { identifier: self.identifier@, snapshot_id: self.snapshot_id }
    }
}

/// Copies a property list.
pub fn clone_kv(v: &Vec<(String, String)>) -> (r: Vec<(String, String)>)
    ensures
        kv_view(r@) == kv_view(v@),
        r@.len() == v@.len(),
{
    let mut out: Vec<(String, String)> = Vec::new();
    let mut i: usize = 0;
    while i < v.len()
        invariant
            i <= v@.len(),
            out@.len() == i,
            forall|j: int|
                0 <= j < i ==> (#[trigger] out@[j]).0@ == v@[j].0@ && out@[j].1@ == v@[j].1@,
        decreases v@.len() - i,
    {
        let (k, val) = (&v[i].0, &v[i].1);
        out.push((k.clone(), val.clone()));
        i = i + 1;
    }
    proof {
        assert(kv_view(out@) =~= kv_view(v@));
    }
    out
}

/// Copies a list of source tables.
pub fn clone_sources(v: &Vec<SourceTable>) -> (r: Vec<SourceTable>)
    ensures
        sources_view(r@) == sources_view(v@),
        r@.len() == v@.len(),
{
    let mut out: Vec<SourceTable> = Vec::new();
    let mut i: usize = 0;
    while i < v.len()
        invariant
            i <= v@.len(),
            out@.len() == i,
            forall|j: int| 0 <= j < i ==> #[trigger] out@[j]@ == v@[j]@,
        decreases v@.len() - i,
    {
        out.push(
            SourceTable {
                identifier: v[i].identifier.clone(),
                snapshot_id: v[i].snapshot_id,
            },
        );
        i = i + 1;
    }
    proof {
        assert(sources_view(out@) =~= sources_view(v@));
    }
    out
}

/// Copies a summary.
pub fn clone_summary(s: &Summary) -> (r: Summary)
    ensures
        r@ == s@,
{
    Summary {
        operation: s.operation,
        other: clone_kv(&s.other),
        sources: clone_sources(&s.sources),
    }
}

/// Copies a snapshot.
pub fn clone_snapshot(s: &Snapshot) -> (r: Snapshot)
    ensures
        r@ == s@,
{
    Snapshot {
        snapshot_id: s.snapshot_id,
        parent_snapshot_id: s.parent_snapshot_id,
        sequence_number: s.sequence_number,
        timestamp_ms: s.timestamp_ms,
        manifest_list: s.manifest_list.clone(),
        summary: clone_summary(&s.summary),
        schema_id: s.schema_id,
    }
}

} // verus!
