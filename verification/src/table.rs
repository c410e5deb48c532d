//! The table handle and the reachability model: what a snapshot can see in
//! the object store, and the consistency invariant every reachable snapshot
//! keeps.

use vstd::prelude::*;

use crate::catalog::Identifier;
use crate::manifest::{clone_entry, clone_list_entry, count_status, entries_have_dim, entries_view, mles_view, Content, DataFile, DataFileView, FieldSummary, ManifestEntry, ManifestEntryView, ManifestListEntry, ManifestListEntryView, Status};
use crate::schema::Schema;
use crate::storage::{list_lookup, manifest_lookup, TableStorage, TableStorageView};
use crate::snapshot::SnapshotView;
use crate::table_metadata::{opt_name_view, partition_spec_lookup, snapshot_lookup, TableMetadata, TableMetadataView};
use crate::tree::{opt_count, summary_wf};
use crate::Error;

verus! {

/// The concatenated entries of the manifests of a list; a manifest missing
/// from the store contributes nothing.
pub open spec fn entries_cat(st: TableStorageView, mles: Seq<ManifestListEntryView>) -> Seq<
    ManifestEntryView,
>
    decreases mles.len(),
{
    if mles.len() == 0 {
        Seq::empty()
    } else {
        entries_cat(st, mles.drop_last()) + match manifest_lookup(
            st.manifests,
            mles.last().manifest_path,
        ) {
            Option::Some(es) => es,
            Option::None => Seq::empty(),
        }
    }
}

/// Every manifest of the list is present in the store.
pub open spec fn all_resolve(st: TableStorageView, mles: Seq<ManifestListEntryView>) -> bool {
    forall|j: int|
        0 <= j < mles.len() ==> manifest_lookup(
            st.manifests,
            (#[trigger] mles[j]).manifest_path,
        ) is Some
}

/// The live entries of a manifest: those not marked deleted.
pub open spec fn live_entries(es: Seq<ManifestEntryView>) -> Seq<ManifestEntryView> {
    es.filter(|e: ManifestEntryView| e.is_live())
}

/// The data-file paths of a sequence of entries.
pub open spec fn entry_paths(es: Seq<ManifestEntryView>) -> Seq<Seq<char>> {
    es.map_values(|e: ManifestEntryView| e.data_file.file_path)
}

/// The data-file paths of the live entries.
pub open spec fn live_paths(es: Seq<ManifestEntryView>) -> Seq<Seq<char>> {
    entry_paths(live_entries(es))
}

/// The spec-level records of a list of data files.
pub open spec fn files_view(fs: Seq<DataFile>) -> Seq<DataFileView> {
    fs.map_values(|f: DataFile| f@)
}

/// The paths of a list of data files.
pub open spec fn file_paths(fs: Seq<DataFileView>) -> Seq<Seq<char>> {
    fs.map_values(|f: DataFileView| f.file_path)
}

/// Every stamped sequence number among the entries is at most `bound`.
pub open spec fn entries_seq_bounded(es: Seq<ManifestEntryView>, bound: i64) -> bool {
    forall|k: int|
        0 <= k < es.len() ==> ((#[trigger] es[k]).sequence_number is Some
            ==> es[k].sequence_number->Some_0 <= bound)
}

/// The partition summary of a manifest covers the partition tuple of each of
/// its live entries; a manifest without a summary must be unpartitioned or
/// hold no live entry.
pub open spec fn summary_covers(
    partitions: Option<Seq<FieldSummary>>,
    es: Seq<ManifestEntryView>,
    dim: nat,
) -> bool {
    match partitions {
        Option::Some(s) => summary_wf(s, dim) && forall|k: int|
            0 <= k < es.len() && (#[trigger] es[k]).is_live() ==> crate::manifest::point_within(
                es[k].data_file.partition,
                crate::tree::summary_lowers(s),
                crate::tree::summary_uppers(s),
            ),
        Option::None => dim == 0 || forall|k: int| 0 <= k < es.len() ==> !(#[trigger] es[k]).is_live(),
    }
}

/// A manifest-list entry agrees with the manifest it names: the counts are
/// exact and the partition summary covers every live entry.
pub open spec fn manifest_consistent(
    mle: ManifestListEntryView,
    es: Seq<ManifestEntryView>,
    dim: nat,
) -> bool {
    &&& entries_have_dim(es, dim)
    &&& mle.added_files_count == Option::Some(count_status(es, Status::Added) as u32)
    &&& mle.existing_files_count == Option::Some(count_status(es, Status::Existing) as u32)
    &&& mle.deleted_files_count == Option::Some(count_status(es, Status::Deleted) as u32)
    &&& es.len() <= u32::MAX
    &&& summary_covers(mle.partitions, es, dim)
}

/// A snapshot resolves in the store and its tree is consistent: the
/// manifest list is present, every manifest it names is present and agrees
/// with its list entry, and no reachable entry carries a sequence number
/// above the snapshot's.
pub open spec fn snapshot_valid(st: TableStorageView, sv: SnapshotView, dim: nat) -> bool {
    &&& list_lookup(st.manifest_lists, sv.manifest_list) is Some
    &&& {
        let mles = list_lookup(st.manifest_lists, sv.manifest_list)->Some_0;
        &&& all_resolve(st, mles)
        &&& forall|j: int|
            0 <= j < mles.len() ==> manifest_consistent(
                #[trigger] mles[j],
                manifest_lookup(st.manifests, mles[j].manifest_path)->Some_0,
                dim,
            )
        &&& forall|j: int| 0 <= j < mles.len() ==> (#[trigger] mles[j]).sequence_number <= sv.sequence_number
        &&& forall|j: int|
            0 <= j < mles.len() ==> entries_seq_bounded(
                manifest_lookup(st.manifests, (#[trigger] mles[j]).manifest_path)->Some_0,
                sv.sequence_number,
            )
    }
}

/// The number of partition dimensions of the table's default spec.
pub open spec fn spec_dim(mv: TableMetadataView) -> nat {
    match partition_spec_lookup(mv.partition_specs, mv.default_spec_id) {
        Option::Some(s) => s.fields.len(),
        Option::None => 0,
    }
}

/// The table is consistent: the metadata document is well formed and every
/// snapshot of the table resolves to a consistent manifest tree.
pub open spec fn table_valid(mv: TableMetadataView, st: TableStorageView) -> bool {
    &&& mv.wf()
    &&& forall|id: i64|
        (#[trigger] snapshot_lookup(mv.snapshots, id)) is Some ==> snapshot_valid(
            st,
            snapshot_lookup(mv.snapshots, id)->Some_0,
            spec_dim(mv),
        )
}

/// Concatenated entries distribute over manifest-list concatenation.
pub proof fn lemma_entries_cat_concat(
    st: TableStorageView,
    a: Seq<ManifestListEntryView>,
    b: Seq<ManifestListEntryView>,
)
    ensures
        entries_cat(st, a + b) == entries_cat(st, a) + entries_cat(st, b),
    decreases b.len(),
{
    if b.len() == 0 {
        assert(a + b =~= a);
        assert(entries_cat(st, a) + entries_cat(st, b) =~= entries_cat(st, a));
    } else {
        lemma_entries_cat_concat(st, a, b.drop_last());
        assert((a + b).drop_last() =~= a + b.drop_last());
        assert((a + b).last() == b.last());
        assert(entries_cat(st, a) + entries_cat(st, b.drop_last()) + match manifest_lookup(
            st.manifests,
            b.last().manifest_path,
        ) {
            Option::Some(es) => es,
            Option::None => Seq::empty(),
        } =~= entries_cat(st, a) + entries_cat(st, b));
    }
}

/// Two stores that resolve a list's manifests identically concatenate its
/// entries identically.
pub proof fn lemma_entries_cat_congruent(
    st1: TableStorageView,
    st2: TableStorageView,
    mles: Seq<ManifestListEntryView>,
)
    requires
        forall|j: int|
            0 <= j < mles.len() ==> manifest_lookup(
                st1.manifests,
                (#[trigger] mles[j]).manifest_path,
            ) == manifest_lookup(st2.manifests, mles[j].manifest_path),
    ensures
        entries_cat(st1, mles) == entries_cat(st2, mles),
    decreases mles.len(),
{
    if mles.len() > 0 {
        lemma_entries_cat_congruent(st1, st2, mles.drop_last());
        assert(mles.last() == mles[mles.len() - 1]);
    }
}

/// Snapshot consistency survives growing the store: objects are immutable,
/// so everything a snapshot reaches is unchanged.
pub proof fn lemma_snapshot_valid_mono(
    st1: TableStorageView,
    st2: TableStorageView,
    sv: SnapshotView,
    dim: nat,
)
    requires
        st1.le(&st2),
        snapshot_valid(st1, sv, dim),
    ensures
        snapshot_valid(st2, sv, dim),
{
    let mles = list_lookup(st1.manifest_lists, sv.manifest_list)->Some_0;
    assert(list_lookup(st2.manifest_lists, sv.manifest_list) == list_lookup(
        st1.manifest_lists,
        sv.manifest_list,
    ));
    assert forall|j: int| 0 <= j < mles.len() implies manifest_lookup(
        st2.manifests,
        (#[trigger] mles[j]).manifest_path,
    ) == manifest_lookup(st1.manifests, mles[j].manifest_path) by {
        assert(manifest_lookup(st1.manifests, mles[j].manifest_path) is Some);
    }
}

/// Table consistency survives growing the store.
pub proof fn lemma_table_valid_mono(
    mv: TableMetadataView,
    st1: TableStorageView,
    st2: TableStorageView,
)
    requires
        st1.le(&st2),
        table_valid(mv, st1),
    ensures
        table_valid(mv, st2),
{
    assert forall|id: i64| (#[trigger] snapshot_lookup(mv.snapshots, id)) is Some
        implies snapshot_valid(st2, snapshot_lookup(mv.snapshots, id)->Some_0, spec_dim(mv)) by {
        lemma_snapshot_valid_mono(st1, st2, snapshot_lookup(mv.snapshots, id)->Some_0, spec_dim(mv));
    }
}

/// A table handle: the identifier, the metadata document observed when the
/// handle was loaded, and the location of that document.
pub struct Table {
    pub identifier: Identifier,
    pub metadata: TableMetadata,
    pub metadata_location: String,
}

/// The manifests kept when reading from `start` (exclusive): those with a
/// higher sequence number, or all of them when no lower bound is given.
pub open spec fn manifests_since(
    mles: Seq<ManifestListEntryView>,
    start: Option<i64>,
) -> Seq<ManifestListEntryView> {
    match start {
        Option::None => mles,
        Option::Some(s) => mles.filter(|m: ManifestListEntryView| m.sequence_number > s),
    }
}

impl Table {
    /// Creates a table handle.
    pub fn new(identifier: Identifier, metadata: TableMetadata, metadata_location: &str) -> (r:
        Table)
        ensures
            r.identifier@ == identifier@,
            r.metadata@ == metadata@,
            r.metadata_location@ == metadata_location@,
    {
        Table { identifier, metadata, metadata_location: metadata_location.to_owned() }
    }

    /// The table identifier in the catalog.
    pub fn identifier(&self) -> (r: &Identifier)
        ensures
            r@ == self.identifier@,
    {
        &self.identifier
    }

    /// The metadata of the table.
    pub fn metadata(&self) -> (r: &TableMetadata)
        ensures
            r@ == self.metadata@,
    {
        &self.metadata
    }

    /// The location of the current metadata document.
    pub fn metadata_location(&self) -> (r: &str)
        ensures
            r@ == self.metadata_location@,
    {
        self.metadata_location.as_str()
    }

    /// The schema of the table for a given branch.
    pub fn current_schema(&self, branch: Option<&str>) -> (r: Result<&Schema, Error>)
        ensures
            match r {
                Result::Ok(s) => crate::table_metadata::schema_lookup(
                    self.metadata@.schemas,
                    self.metadata@.effective_schema_id(opt_name_view(branch)),
                ) == Option::Some(s@),
                Result::Err(e) => e is InvalidFormat,
            },
    {
        self.metadata.current_schema(branch)
    }

    /// The manifests reachable from snapshot `end` (default: the current
    /// snapshot), filtered to those with a sequence number above `start`'s
    /// when a start snapshot is given. A start snapshot with sequence number
    /// zero imposes no bound.
    pub fn manifests(&self, storage: &TableStorage, start: Option<i64>, end: Option<i64>) -> (r:
        Result<Vec<ManifestListEntry>, Error>)
        ensures
            match r {
                Result::Ok(v) => match self.spec_end_snapshot(end) {
                    Option::None => v@.len() == 0,
                    Option::Some(sv) => list_lookup(storage@.manifest_lists, sv.manifest_list)
                        is Some && mles_view(v@) == manifests_since(
                        list_lookup(storage@.manifest_lists, sv.manifest_list)->Some_0,
                        self.spec_start_bound(start),
                    ),
                },
                Result::Err(e) => e is NotFound || e is InvalidFormat,
            },
    {
        let end_snapshot: &crate::snapshot::Snapshot = match end {
            Option::Some(id) => match self.metadata.find_snapshot(id) {
                Option::Some(s) => s,
                Option::None => {
                    match self.metadata.current_snapshot(Option::None) {
                        Result::Ok(Option::Some(s)) => s,
                        Result::Ok(Option::None) => {
                            return Result::Ok(Vec::new());
                        },
                        Result::Err(e) => {
                            return Result::Err(e);
                        },
                    }
                },
            },
            Option::None => {
                match self.metadata.current_snapshot(Option::None) {
                    Result::Ok(Option::Some(s)) => s,
                    Result::Ok(Option::None) => {
                        return Result::Ok(Vec::new());
                    },
                    Result::Err(e) => {
                        return Result::Err(e);
                    },
                }
            },
        };
        let start_bound: Option<i64> = match start {
            Option::Some(id) => match self.metadata.find_snapshot(id) {
                Option::Some(s) => if s.sequence_number == 0 {
                    Option::None
                } else {
                    Option::Some(s.sequence_number)
                },
                Option::None => Option::None,
            },
            Option::None => Option::None,
        };
        let stored = match storage.get_manifest_list(end_snapshot.manifest_list.as_str()) {
            Option::Some(l) => l,
            Option::None => {
                return Result::Err(
                    Error::NotFound(
                        String::from_str("Manifest"),
                        String::from_str("list object"),
                    ),
                );
            },
        };
        let ghost src = mles_view(stored@);
        let mut out: Vec<ManifestListEntry> = Vec::new();
        let mut i: usize = 0;
        proof {
            if start_bound is Some {
                reveal(Seq::filter);
                assert(manifests_since(src.take(0), start_bound) =~= Seq::<
                    ManifestListEntryView,
                >::empty());
            }
            assert(mles_view(out@) =~= Seq::<ManifestListEntryView>::empty());
        }
        while i < stored.len()
            invariant
                i <= stored@.len(),
                src == mles_view(stored@),
                mles_view(out@) =~= manifests_since(src.take(i as int), start_bound),
            decreases stored@.len() - i,
        {
            let ghost outv = mles_view(out@);
            proof {
                assert(src[i as int] == stored@[i as int]@);
            }
            let keep: bool = match start_bound {
                Option::None => true,
                Option::Some(s) => stored[i].sequence_number > s,
            };
            if keep {
                out.push(clone_list_entry(&stored[i]));
            }
            proof {
                reveal(Seq::filter);
                assert(src.take(i as int + 1).drop_last() =~= src.take(i as int));
                assert(src.take(i as int + 1).last() == src[i as int]);
                if keep {
                    assert(mles_view(out@) =~= outv.push(src[i as int]));
                }
                assert(mles_view(out@) =~= manifests_since(src.take(i as int + 1), start_bound));
            }
            i = i + 1;
        }
        proof {
            assert(src.take(src.len() as int) =~= src);
        }
        Result::Ok(out)
    }

    /// The snapshot an `end` argument resolves to: the named snapshot if it
    /// exists, else the current one.
    pub open spec fn spec_end_snapshot(&self, end: Option<i64>) -> Option<SnapshotView> {
        let named = match end {
            Option::Some(id) => snapshot_lookup(self.metadata@.snapshots, id),
            Option::None => Option::None,
        };
        match named {
            Option::Some(sv) => Option::Some(sv),
            Option::None => self.metadata@.spec_current_snapshot(Option::None),
        }
    }

    /// The sequence-number bound a `start` argument resolves to.
    pub open spec fn spec_start_bound(&self, start: Option<i64>) -> Option<i64> {
        match start {
            Option::Some(id) => match snapshot_lookup(self.metadata@.snapshots, id) {
                Option::Some(sv) => if sv.sequence_number == 0 {
                    Option::None
                } else {
                    Option::Some(sv.sequence_number)
                },
                Option::None => Option::None,
            },
            Option::None => Option::None,
        }
    }

    /// All entries of the given manifests, in order.
    pub fn datafiles(&self, storage: &TableStorage, manifests: &Vec<ManifestListEntry>) -> (r:
        Result<Vec<ManifestEntry>, Error>)
        ensures
            match r {
                Result::Ok(v) => all_resolve(storage@, mles_view(manifests@)) && entries_view(v@)
                    == entries_cat(storage@, mles_view(manifests@)),
                Result::Err(e) => !all_resolve(storage@, mles_view(manifests@)) && e is NotFound,
            },
    {
        datafiles(storage, manifests)
    }

    /// Whether any entry of the given range holds something other than
    /// plain data (a position- or equality-delete file).
    pub fn datafiles_contains_delete(
        &self,
        storage: &TableStorage,
        start: Option<i64>,
        end: Option<i64>,
    ) -> (r: Result<bool, Error>)
        ensures
            r is Err ==> (r->Err_0 is NotFound || r->Err_0 is InvalidFormat),
            r matches Result::Ok(b) ==> match self.spec_end_snapshot(end) {
                Option::None => b == false,
                Option::Some(sv) => {
                    let es = entries_cat(
                        storage@,
                        manifests_since(
                            list_lookup(storage@.manifest_lists, sv.manifest_list)->Some_0,
                            self.spec_start_bound(start),
                        ),
                    );
                    b == exists|k: int|
                        0 <= k < es.len() && (#[trigger] es[k]).data_file.content
                            != Content::Data
                },
            },
    {
        let manifests = match self.manifests(storage, start, end) {
            Result::Ok(m) => m,
            Result::Err(e) => {
                return Result::Err(e);
            },
        };
        let entries = match self.datafiles(storage, &manifests) {
            Result::Ok(es) => es,
            Result::Err(e) => {
                return Result::Err(e);
            },
        };
        let ghost es = entries_view(entries@);
        let mut i: usize = 0;
        while i < entries.len()
            invariant
                i <= entries@.len(),
                es == entries_view(entries@),
                es == entries_cat(storage@, mles_view(manifests@)),
                self.spec_end_snapshot(end) is None ==> manifests@.len() == 0,
                self.spec_end_snapshot(end) matches Option::Some(sv) ==> (list_lookup(
                    storage@.manifest_lists,
                    sv.manifest_list,
                ) is Some && mles_view(manifests@) == manifests_since(
                    list_lookup(storage@.manifest_lists, sv.manifest_list)->Some_0,
                    self.spec_start_bound(start),
                )),
                forall|k: int|
                    0 <= k < i ==> (#[trigger] es[k]).data_file.content == Content::Data,
            decreases entries@.len() - i,
        {
            proof {
                assert(es[i as int] == entries@[i as int]@);
            }
            if !matches!(entries[i].data_file.content, Content::Data) {
                proof {
                    assert(es[i as int].data_file.content != Content::Data);
                    if self.spec_end_snapshot(end) is None {
                        assert(manifests@.len() == 0);
                        assert(mles_view(manifests@).len() == 0);
                        assert(entries_cat(storage@, mles_view(manifests@)) =~= Seq::<
                            ManifestEntryView,
                        >::empty());
                        assert(es.len() == entries@.len());
                        assert(false);
                    }
                }
                return Result::Ok(true);
            }
            i = i + 1;
        }
        Result::Ok(false)
    }
}

/// The manifest paths of a manifest list.
pub open spec fn mle_paths(mles: Seq<ManifestListEntryView>) -> Seq<Seq<char>> {
    mles.map_values(|m: ManifestListEntryView| m.manifest_path)
}

/// The manifest-list paths of a list of snapshots.
pub open spec fn snapshot_list_paths(svs: Seq<SnapshotView>) -> Seq<Seq<char>> {
    svs.map_values(|s: SnapshotView| s.manifest_list)
}

impl Table {
    /// Every object path a drop of the table would delete: the data files
    /// and manifests reachable from the current snapshot, the manifest list
    /// of every snapshot, and the metadata document itself. The deletes are
    /// plain object-store calls performed outside the library.
    pub fn deletion_paths(&self, storage: &TableStorage) -> (r: Result<Vec<String>, Error>)
        ensures
            match r {
                Result::Ok(v) => crate::snapshot::strings_view(v@) == entry_paths(
                    match self.spec_end_snapshot(Option::None) {
                        Option::Some(sv) => entries_cat(
                            storage@,
                            list_lookup(storage@.manifest_lists, sv.manifest_list)->Some_0,
                        ),
                        Option::None => Seq::empty(),
                    },
                ) + mle_paths(
                    match self.spec_end_snapshot(Option::None) {
                        Option::Some(sv) => list_lookup(
                            storage@.manifest_lists,
                            sv.manifest_list,
                        )->Some_0,
                        Option::None => Seq::empty(),
                    },
                ) + snapshot_list_paths(self.metadata@.snapshots) + seq![
                    self.metadata_location@
                ],
                Result::Err(e) => e is NotFound || e is InvalidFormat,
            },
    {
        let manifests = match self.manifests(storage, Option::None, Option::None) {
            Result::Ok(m) => m,
            Result::Err(e) => {
                return Result::Err(e);
            },
        };
        let entries = match self.datafiles(storage, &manifests) {
            Result::Ok(es) => es,
            Result::Err(e) => {
                return Result::Err(e);
            },
        };
        let ghost es = entries_view(entries@);
        let ghost mlesv = mles_view(manifests@);
        let ghost svs = self.metadata@.snapshots;
        let mut out: Vec<String> = Vec::new();
        let mut i: usize = 0;
        proof {
            assert(crate::snapshot::strings_view(out@) =~= Seq::<Seq<char>>::empty());
            assert(entry_paths(es).take(0) =~= Seq::<Seq<char>>::empty());
        }
        while i < entries.len()
            invariant
                i <= entries@.len(),
                es == entries_view(entries@),
                crate::snapshot::strings_view(out@) =~= entry_paths(es).take(i as int),
            decreases entries@.len() - i,
        {
            let ghost outv = crate::snapshot::strings_view(out@);
            out.push(entries[i].data_file.file_path.clone());
            proof {
                assert(es[i as int] == entries@[i as int]@);
                assert(entry_paths(es)[i as int] == es[i as int].data_file.file_path);
                assert(crate::snapshot::strings_view(out@) =~= outv.push(
                    entry_paths(es)[i as int],
                ));
                assert(outv.push(entry_paths(es)[i as int]) =~= entry_paths(es).take(
                    i as int + 1,
                ));
            }
            i = i + 1;
        }
        proof {
            assert(entry_paths(es).take(es.len() as int) =~= entry_paths(es));
            assert(crate::snapshot::strings_view(out@) =~= entry_paths(es));
        }
        let mut i: usize = 0;
        while i < manifests.len()
            invariant
                i <= manifests@.len(),
                es == entries_view(entries@),
                mlesv == mles_view(manifests@),
                crate::snapshot::strings_view(out@) =~= entry_paths(es) + mle_paths(mlesv).take(
                    i as int,
                ),
            decreases manifests@.len() - i,
        {
            let ghost outv = crate::snapshot::strings_view(out@);
            out.push(manifests[i].manifest_path.clone());
            proof {
                assert(mlesv[i as int] == manifests@[i as int]@);
                assert(mle_paths(mlesv)[i as int] == mlesv[i as int].manifest_path);
                assert(crate::snapshot::strings_view(out@) =~= outv.push(
                    mle_paths(mlesv)[i as int],
                ));
                assert(outv.push(mle_paths(mlesv)[i as int]) =~= entry_paths(es) + mle_paths(
                    mlesv,
                ).take(i as int + 1));
            }
            i = i + 1;
        }
        proof {
            assert(mle_paths(mlesv).take(mlesv.len() as int) =~= mle_paths(mlesv));
        }
        let mut i: usize = 0;
        while i < self.metadata.snapshots.len()
            invariant
                i <= self.metadata.snapshots@.len(),
                es == entries_view(entries@),
                mlesv == mles_view(manifests@),
                svs == self.metadata@.snapshots,
                crate::snapshot::strings_view(out@) =~= entry_paths(es) + mle_paths(mlesv)
                    + snapshot_list_paths(svs).take(i as int),
            decreases self.metadata.snapshots@.len() - i,
        {
            let ghost outv = crate::snapshot::strings_view(out@);
            out.push(self.metadata.snapshots[i].manifest_list.clone());
            proof {
                assert(svs[i as int] == self.metadata.snapshots@[i as int]@);
                assert(snapshot_list_paths(svs)[i as int] == svs[i as int].manifest_list);
                assert(crate::snapshot::strings_view(out@) =~= outv.push(
                    snapshot_list_paths(svs)[i as int],
                ));
                assert(outv.push(snapshot_list_paths(svs)[i as int]) =~= entry_paths(es)
                    + mle_paths(mlesv) + snapshot_list_paths(svs).take(i as int + 1));
            }
            i = i + 1;
        }
        proof {
            assert(snapshot_list_paths(svs).take(svs.len() as int) =~= snapshot_list_paths(svs));
        }
        let ghost outv = crate::snapshot::strings_view(out@);
        out.push(self.metadata_location.clone());
        proof {
            assert(crate::snapshot::strings_view(out@) =~= outv.push(self.metadata_location@));
            if self.spec_end_snapshot(Option::None) is None {
                assert(manifests@.len() == 0);
                assert(mles_view(manifests@).len() == 0);
                assert(entries_cat(storage@, mles_view(manifests@)) =~= Seq::<
                    ManifestEntryView,
                >::empty());
                assert(es.len() == entries@.len());
                assert(entry_paths(es) =~= entry_paths(Seq::empty()));
                assert(mle_paths(mlesv) =~= mle_paths(Seq::empty()));
            }
            assert(crate::snapshot::strings_view(out@) =~= entry_paths(
                match self.spec_end_snapshot(Option::None) {
                    Option::Some(sv) => entries_cat(
                        storage@,
                        list_lookup(storage@.manifest_lists, sv.manifest_list)->Some_0,
                    ),
                    Option::None => Seq::empty(),
                },
            ) + mle_paths(
                match self.spec_end_snapshot(Option::None) {
                    Option::Some(sv) => list_lookup(
                        storage@.manifest_lists,
                        sv.manifest_list,
                    )->Some_0,
                    Option::None => Seq::empty(),
                },
            ) + snapshot_list_paths(self.metadata@.snapshots) + seq![self.metadata_location@]);
        }
        Result::Ok(out)
    }
}

/// All entries of the given manifests, in order.
pub fn datafiles(storage: &TableStorage, manifests: &Vec<ManifestListEntry>) -> (r: Result<
    Vec<ManifestEntry>,
    Error,
>)
    ensures
        match r {
            Result::Ok(v) => all_resolve(storage@, mles_view(manifests@)) && entries_view(v@)
                == entries_cat(storage@, mles_view(manifests@)),
            Result::Err(e) => !all_resolve(storage@, mles_view(manifests@)) && e is NotFound,
        },
{
    let ghost src = mles_view(manifests@);
    let mut out: Vec<ManifestEntry> = Vec::new();
    let mut i: usize = 0;
    proof {
        assert(entries_cat(storage@, src.take(0)) =~= Seq::<ManifestEntryView>::empty());
        assert(entries_view(out@) =~= Seq::<ManifestEntryView>::empty());
    }
    while i < manifests.len()
        invariant
            i <= manifests@.len(),
            src == mles_view(manifests@),
            entries_view(out@) =~= entries_cat(storage@, src.take(i as int)),
            forall|j: int|
                0 <= j < i ==> manifest_lookup(
                    storage@.manifests,
                    (#[trigger] src[j]).manifest_path,
                ) is Some,
        decreases manifests@.len() - i,
    {
        proof {
            assert(src[i as int] == manifests@[i as int]@);
        }
        let stored = match storage.get_manifest(manifests[i].manifest_path.as_str()) {
            Option::Some(es) => es,
            Option::None => {
                return Result::Err(
                    Error::NotFound(
                        String::from_str("Manifest"),
                        manifests[i].manifest_path.clone(),
                    ),
                );
            },
        };
        let ghost outv = entries_view(out@);
        let mut k: usize = 0;
        while k < stored.len()
            invariant
                k <= stored@.len(),
                entries_view(out@) =~= outv + entries_view(stored@).take(k as int),
            decreases stored@.len() - k,
        {
            out.push(clone_entry(&stored[k]));
            proof {
                assert(entries_view(stored@)[k as int] == stored@[k as int]@);
                assert(entries_view(out@) =~= (outv + entries_view(stored@).take(k as int)).push(
                    stored@[k as int]@,
                ));
                assert((outv + entries_view(stored@).take(k as int)).push(stored@[k as int]@)
                    =~= outv + entries_view(stored@).take(k as int + 1));
            }
            k = k + 1;
        }
        proof {
            assert(entries_view(stored@).take(stored@.len() as int) =~= entries_view(stored@));
            assert(src.take(i as int + 1).drop_last() =~= src.take(i as int));
            assert(src.take(i as int + 1).last() == src[i as int]);
            assert(entries_view(out@) =~= entries_cat(storage@, src.take(i as int + 1)));
        }
        i = i + 1;
    }
    proof {
        assert(src.take(src.len() as int) =~= src);
    }
    Result::Ok(out)
}

} // verus!
