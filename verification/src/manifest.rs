//! Manifest entries, data files and manifest-list entries, and the
//! construction of a manifest's summary: exact added/existing/deleted counts
//! and the tight partition bounding rectangle of its live entries.

use vstd::prelude::*;

use crate::tree::{expanded_max, expanded_min, spec_max_i64, spec_min_i64, Rectangle};

verus! {

/// Status of a manifest entry within its snapshot generation.
#[derive(Clone, Copy, Debug, PartialEq, Eq, Structural)]
pub enum Status {
    Added,
    Existing,
    Deleted,
}

/// What a data file holds.
#[derive(Clone, Copy, Debug, PartialEq, Eq, Structural)]
pub enum Content {
    Data,
    PositionDeletes,
    EqualityDeletes,
}

/// An immutable data file, with its partition tuple and per-column
/// statistics. Column statistics are association lists keyed by field id.
pub struct DataFile {
    pub file_path: String,
    pub content: Content,
    /// Canonical partition coordinates, one per partition dimension.
    pub partition: Vec<i64>,
    pub record_count: u64,
    pub file_size_in_bytes: u64,
    pub null_value_counts: Vec<(i32, u64)>,
    pub distinct_counts: Vec<(i32, u64)>,
    pub lower_bounds: Vec<(i32, i64)>,
    pub upper_bounds: Vec<(i32, i64)>,
}

/// The spec-level record of a data file.
#[verifier::ext_equal]
pub struct DataFileView {
    pub file_path: Seq<char>,
    pub content: Content,
    pub partition: Seq<i64>,
    pub record_count: u64,
    pub file_size_in_bytes: u64,
    pub null_value_counts: Seq<(i32, u64)>,
    pub distinct_counts: Seq<(i32, u64)>,
    pub lower_bounds: Seq<(i32, i64)>,
    pub upper_bounds: Seq<(i32, i64)>,
}

impl View for DataFile {
    type V = DataFileView;

    open spec fn view(&self) -> DataFileView {
        DataFileView {
            file_path: self.file_path@,
            content: self.content,
            partition: self.partition@,
            record_count: self.record_count,
            file_size_in_bytes: self.file_size_in_bytes,
            null_value_counts: self.null_value_counts@,
            distinct_counts: self.distinct_counts@,
            lower_bounds: self.lower_bounds@,
            upper_bounds: self.upper_bounds@,
        }
    }
}

/// One entry of a manifest: a data file with its status and provenance.
pub struct ManifestEntry {
    pub status: Status,
    /// The snapshot that introduced the entry.
    pub snapshot_id: Option<i64>,
    /// The sequence number of that snapshot; absent until stamped.
    pub sequence_number: Option<i64>,
    pub data_file: DataFile,
}

/// The spec-level record of a manifest entry.
#[verifier::ext_equal]
pub struct ManifestEntryView {
    pub status: Status,
    pub snapshot_id: Option<i64>,
    pub sequence_number: Option<i64>,
    pub data_file: DataFileView,
}

impl View for ManifestEntry {
    type V = ManifestEntryView;

    open spec fn view(&self) -> ManifestEntryView {
        ManifestEntryView {
            status: self.status,
            snapshot_id: self.snapshot_id,
            sequence_number: self.sequence_number,
            data_file: self.data_file@,
        }
    }
}

impl ManifestEntryView {
    /// An entry is live unless it is marked deleted.
    pub open spec fn is_live(&self) -> bool {
        self.status != Status::Deleted
    }
}

/// Per-dimension bounds of the partition tuples in a manifest.
#[derive(Clone, Copy, Debug, PartialEq, Eq, Structural)]
pub struct FieldSummary {
    pub lower_bound: i64,
    pub upper_bound: i64,
}

/// Whether a manifest lists data files or delete files.
#[derive(Clone, Copy, Debug, PartialEq, Eq, Structural)]
pub enum ManifestContent {
    Data,
    Deletes,
}

/// One entry of a manifest list: the manifest's path, counts and partition
/// summary.
pub struct ManifestListEntry {
    pub manifest_path: String,
    pub content: ManifestContent,
    pub sequence_number: i64,
    pub added_files_count: Option<u32>,
    pub existing_files_count: Option<u32>,
    pub deleted_files_count: Option<u32>,
    pub partitions: Option<Vec<FieldSummary>>,
}

/// The spec-level record of a manifest-list entry.
#[verifier::ext_equal]
pub struct ManifestListEntryView {
    pub manifest_path: Seq<char>,
    pub content: ManifestContent,
    pub sequence_number: i64,
    pub added_files_count: Option<u32>,
    pub existing_files_count: Option<u32>,
    pub deleted_files_count: Option<u32>,
    pub partitions: Option<Seq<FieldSummary>>,
}

impl View for ManifestListEntry {
    type V = ManifestListEntryView;

    open spec fn view(&self) -> ManifestListEntryView {
        ManifestListEntryView {
            manifest_path: self.manifest_path@,
            content: self.content,
            sequence_number: self.sequence_number,
            added_files_count: self.added_files_count,
            existing_files_count: self.existing_files_count,
            deleted_files_count: self.deleted_files_count,
            partitions: match self.partitions {
                Option::None => Option::None,
                Option::Some(v) => Option::Some(v@),
            },
        }
    }
}

/// The spec-level records of a list of entries.
pub open spec fn entries_view(es: Seq<ManifestEntry>) -> Seq<ManifestEntryView> {
    es.map_values(|e: ManifestEntry| e@)
}

/// The spec-level records of a manifest list.
pub open spec fn mles_view(ms: Seq<ManifestListEntry>) -> Seq<ManifestListEntryView> {
    ms.map_values(|m: ManifestListEntry| m@)
}

/// Copies a statistics association list.
pub fn clone_stats_u64(v: &Vec<(i32, u64)>) -> (r: Vec<(i32, u64)>)
    ensures
        r@ == v@,
{
    let mut out: Vec<(i32, u64)> = Vec::new();
    let mut i: usize = 0;
    while i < v.len()
        invariant
            i <= v@.len(),
            out@ == v@.take(i as int),
        decreases v@.len() - i,
    {
        out.push(v[i]);
        proof {
            assert(out@ =~= v@.take(i as int + 1));
        }
        i = i + 1;
    }
    proof {
        assert(v@.take(v@.len() as int) =~= v@);
    }
    out
}

/// Copies a bounds association list.
pub fn clone_stats_i64(v: &Vec<(i32, i64)>) -> (r: Vec<(i32, i64)>)
    ensures
        r@ == v@,
{
    let mut out: Vec<(i32, i64)> = Vec::new();
    let mut i: usize = 0;
    while i < v.len()
        invariant
            i <= v@.len(),
            out@ == v@.take(i as int),
        decreases v@.len() - i,
    {
        out.push(v[i]);
        proof {
            assert(out@ =~= v@.take(i as int + 1));
        }
        i = i + 1;
    }
    proof {
        assert(v@.take(v@.len() as int) =~= v@);
    }
    out
}

/// Copies a data file.
pub fn clone_data_file(f: &DataFile) -> (r: DataFile)
    ensures
        r@ == f@,
{
    DataFile {
        file_path: f.file_path.clone(),
        content: f.content,
        partition: crate::tree::clone_coords(&f.partition),
        record_count: f.record_count,
        file_size_in_bytes: f.file_size_in_bytes,
        null_value_counts: clone_stats_u64(&f.null_value_counts),
        distinct_counts: clone_stats_u64(&f.distinct_counts),
        lower_bounds: clone_stats_i64(&f.lower_bounds),
        upper_bounds: clone_stats_i64(&f.upper_bounds),
    }
}

/// Copies a manifest entry.
pub fn clone_entry(e: &ManifestEntry) -> (r: ManifestEntry)
    ensures
        r@ == e@,
{
    ManifestEntry {
        status: e.status,
        snapshot_id: e.snapshot_id,
        sequence_number: e.sequence_number,
        data_file: clone_data_file(&e.data_file),
    }
}

/// Copies a manifest-list entry.
pub fn clone_list_entry(m: &ManifestListEntry) -> (r: ManifestListEntry)
    ensures
        r@ == m@,
{
    ManifestListEntry {
        manifest_path: m.manifest_path.clone(),
        content: m.content,
        sequence_number: m.sequence_number,
        added_files_count: m.added_files_count,
        existing_files_count: m.existing_files_count,
        deleted_files_count: m.deleted_files_count,
        partitions: match &m.partitions {
            Option::None => Option::None,
            Option::Some(v) => {
                let mut out: Vec<FieldSummary> = Vec::new();
                let mut i: usize = 0;
                while i < v.len()
                    invariant
                        i <= v@.len(),
                        out@ == v@.take(i as int),
                    decreases v@.len() - i,
                {
                    out.push(v[i]);
                    proof {
                        assert(out@ =~= v@.take(i as int + 1));
                    }
                    i = i + 1;
                }
                proof {
                    assert(v@.take(v@.len() as int) =~= v@);
                }
                Option::Some(out)
            },
        },
    }
}

/// How many of the first `n` entries carry the given status.
pub open spec fn count_status_to(entries: Seq<ManifestEntryView>, n: int, s: Status) -> int
    decreases n,
{
    if n <= 0 {
        0
    } else {
        count_status_to(entries, n - 1, s) + if entries[n - 1].status == s {
            1int
        } else {
            0int
        }
    }
}

/// How many entries of the manifest carry the given status.
pub open spec fn count_status(entries: Seq<ManifestEntryView>, s: Status) -> int {
    count_status_to(entries, entries.len() as int, s)
}

/// How many of the first `n` entries are live.
pub open spec fn count_live_to(entries: Seq<ManifestEntryView>, n: int) -> int
    decreases n,
{
    if n <= 0 {
        0
    } else {
        count_live_to(entries, n - 1) + if entries[n - 1].is_live() {
            1int
        } else {
            0int
        }
    }
}

/// How many entries of the manifest are live.
pub open spec fn count_live(entries: Seq<ManifestEntryView>) -> int {
    count_live_to(entries, entries.len() as int)
}

/// The added and existing counts together are exactly the live population:
/// every entry is added, existing or deleted.
pub proof fn lemma_added_existing_is_live(entries: Seq<ManifestEntryView>)
    ensures
        count_status(entries, Status::Added) + count_status(entries, Status::Existing)
            == count_live(entries),
{
    lemma_added_existing_is_live_to(entries, entries.len() as int);
}

proof fn lemma_added_existing_is_live_to(entries: Seq<ManifestEntryView>, n: int)
    ensures
        count_status_to(entries, n, Status::Added) + count_status_to(entries, n, Status::Existing)
            == count_live_to(entries, n),
    decreases n,
{
    if n > 0 {
        lemma_added_existing_is_live_to(entries, n - 1);
    }
}

/// The tight bounding rectangle (as min/max coordinate sequences) of the
/// partition tuples of the live entries among the first `n` entries; `None`
/// when no live entry exists there.
pub open spec fn tight_bounds_to(entries: Seq<ManifestEntryView>, n: int) -> Option<
    (Seq<i64>, Seq<i64>),
>
    decreases n,
{
    if n <= 0 {
        Option::None
    } else {
        let prev = tight_bounds_to(entries, n - 1);
        if entries[n - 1].status == Status::Deleted {
            prev
        } else {
            let p = entries[n - 1].data_file.partition;
            match prev {
                Option::None => Option::Some((p, p)),
                Option::Some((mn, mx)) => Option::Some(
                    (expanded_min(mn, p), expanded_max(mx, p)),
                ),
            }
        }
    }
}

/// The tight bounding rectangle of the live entries of a manifest.
pub open spec fn tight_bounds(entries: Seq<ManifestEntryView>) -> Option<(Seq<i64>, Seq<i64>)> {
    tight_bounds_to(entries, entries.len() as int)
}

/// All partition tuples have the table's number of partition dimensions.
pub open spec fn entries_have_dim(entries: Seq<ManifestEntryView>, dim: nat) -> bool {
    forall|i: int|
        0 <= i < entries.len() ==> (#[trigger] entries[i]).data_file.partition.len() == dim
}

/// The tight bounds of a manifest contain the partition tuple of each of its
/// live entries, and bound each other.
pub proof fn lemma_tight_bounds_contain(entries: Seq<ManifestEntryView>, dim: nat, n: int)
    requires
        entries_have_dim(entries, dim),
        n <= entries.len(),
    ensures
        tight_bounds_to(entries, n) is Some ==> {
            let (mn, mx) = tight_bounds_to(entries, n)->Some_0;
            &&& mn.len() == dim
            &&& mx.len() == dim
            &&& forall|d: int| 0 <= d < dim ==> mn[d] <= mx[d]
            &&& forall|i: int|
                0 <= i < n && entries[i].is_live() ==> point_within(
                    entries[i].data_file.partition,
                    mn,
                    mx,
                )
        },
        tight_bounds_to(entries, n) is None ==> forall|i: int|
            0 <= i < n ==> !(entries[i].is_live()),
    decreases n,
{
    if n > 0 {
        lemma_tight_bounds_contain(entries, dim, n - 1);
    }
}

/// The point `p` lies within the min/max coordinate bounds.
pub open spec fn point_within(p: Seq<i64>, mn: Seq<i64>, mx: Seq<i64>) -> bool {
    &&& p.len() == mn.len()
    &&& forall|d: int| 0 <= d < p.len() ==> mn[d] <= p[d] && p[d] <= mx[d]
}

/// Builds the partition summary of a manifest: `None` when the manifest has
/// no live entry or the table is unpartitioned, else one `FieldSummary` per
/// dimension holding the tight bounds of the live entries.
pub fn partition_summary(entries: &Vec<ManifestEntry>, dim: usize) -> (r: Option<Vec<FieldSummary>>)
    requires
        entries_have_dim(entries_view(entries@), dim as nat),
    ensures
        match tight_bounds(entries_view(entries@)) {
            Option::None => r is None,
            Option::Some((mn, mx)) => if dim == 0 {
                r is None
            } else {
                &&& r is Some
                &&& r->Some_0@.len() == dim
                &&& forall|d: int|
                    0 <= d < dim ==> (#[trigger] r->Some_0@[d]).lower_bound == mn[d]
                        && r->Some_0@[d].upper_bound == mx[d]
            },
        },
{
    let ghost gentries = entries_view(entries@);
    let mut found: bool = false;
    let mut rect = Rectangle { min: Vec::new(), max: Vec::new() };
    let mut i: usize = 0;
    while i < entries.len()
        invariant
            i <= gentries.len(),
            entries_view(entries@) == gentries,
            entries_have_dim(gentries, dim as nat),
            !found ==> tight_bounds_to(gentries, i as int) is None,
            found ==> tight_bounds_to(gentries, i as int) == Option::Some(
                (rect.min@, rect.max@),
            ),
            found ==> rect.wf() && rect.dim() == dim as nat,
        decreases gentries.len() - i,
    {
        if !matches!(entries[i].status, Status::Deleted) {
            proof {
                lemma_tight_bounds_contain(gentries, dim as nat, i as int);
                assert(gentries[i as int] == entries@[i as int]@);
            }
            if !found {
                rect = Rectangle::from_point(&entries[i].data_file.partition);
                found = true;
            } else {
                rect.expand_with_node(&entries[i].data_file.partition);
                proof {
                    assert(tight_bounds_to(gentries, i as int + 1)->Some_0.0 =~= rect.min@);
                    assert(tight_bounds_to(gentries, i as int + 1)->Some_0.1 =~= rect.max@);
                }
            }
        }
        i = i + 1;
    }
    if !found || dim == 0 {
        return Option::None;
    }
    let mut out: Vec<FieldSummary> = Vec::new();
    let mut d: usize = 0;
    while d < dim
        invariant
            d <= dim,
            rect.wf(),
            rect.dim() == dim as nat,
            out@.len() == d,
            forall|k: int|
                0 <= k < d ==> (#[trigger] out@[k]).lower_bound == rect.min@[k]
                    && out@[k].upper_bound == rect.max@[k],
        decreases dim - d,
    {
        out.push(FieldSummary { lower_bound: rect.min[d], upper_bound: rect.max[d] });
        d = d + 1;
    }
    Option::Some(out)
}

/// Builds the manifest-list entry for a manifest that was just written:
/// exact status counts and the tight partition summary of its live entries.
pub fn build_list_entry(
    manifest_path: String,
    content: ManifestContent,
    sequence_number: i64,
    entries: &Vec<ManifestEntry>,
    dim: usize,
) -> (r: ManifestListEntry)
    requires
        entries_have_dim(entries_view(entries@), dim as nat),
        entries@.len() <= u32::MAX,
    ensures
        r@.manifest_path == manifest_path@,
        r@.content == content,
        r@.sequence_number == sequence_number,
        r@.added_files_count == Option::Some(
            count_status(entries_view(entries@), Status::Added) as u32,
        ),
        r@.existing_files_count == Option::Some(
            count_status(entries_view(entries@), Status::Existing) as u32,
        ),
        r@.deleted_files_count == Option::Some(
            count_status(entries_view(entries@), Status::Deleted) as u32,
        ),
        match tight_bounds(entries_view(entries@)) {
            Option::None => r@.partitions is None,
            Option::Some((mn, mx)) => if dim == 0 {
                r@.partitions is None
            } else {
                &&& r@.partitions is Some
                &&& r@.partitions->Some_0.len() == dim
                &&& forall|d: int|
                    0 <= d < dim ==> (#[trigger] r@.partitions->Some_0[d]).lower_bound == mn[d]
                        && r@.partitions->Some_0[d].upper_bound == mx[d]
            },
        },
{
    let partitions = partition_summary(entries, dim);
    let mut added: u32 = 0;
    let mut existing: u32 = 0;
    let mut deleted: u32 = 0;
    let mut i: usize = 0;
    while i < entries.len()
        invariant
            i <= entries@.len(),
            entries@.len() <= u32::MAX,
            added as int == count_status_to(entries_view(entries@), i as int, Status::Added),
            existing as int == count_status_to(entries_view(entries@), i as int, Status::Existing),
            deleted as int == count_status_to(entries_view(entries@), i as int, Status::Deleted),
            added as int + existing as int + deleted as int <= i as int,
        decreases entries@.len() - i,
    {
        proof {
            assert(entries_view(entries@)[i as int] == entries@[i as int]@);
        }
        match entries[i].status {
            Status::Added => {
                added = added + 1;
            },
            Status::Existing => {
                existing = existing + 1;
            },
            Status::Deleted => {
                deleted = deleted + 1;
            },
        }
        i = i + 1;
    }
    ManifestListEntry {
        manifest_path,
        content,
        sequence_number,
        added_files_count: Option::Some(added),
        existing_files_count: Option::Some(existing),
        deleted_files_count: Option::Some(deleted),
        partitions,
    }
}

} // verus!
