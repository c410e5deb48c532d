//! The operations a transaction stages against a table, and their
//! compilation into new manifests, a new manifest list and a snapshot,
//! plus the commit requirement and updates handed to the catalog.

use vstd::prelude::*;

use crate::catalog::{TableRequirement, TableUpdate};
use crate::manifest::{build_list_entry, clone_data_file, clone_entry, entries_view, mles_view, DataFile, ManifestContent, ManifestEntry, ManifestEntryView, ManifestListEntry, ManifestListEntryView, Status};
use crate::pruning::PrunePredicate;
use crate::schema::Schema;
use crate::snapshot::{clone_kv, clone_sources, sources_view, SnapshotReference, SourceTable, Summary};
use crate::storage::{list_lookup, manifest_lookup, TableStorage};
use crate::table::{entries_seq_bounded, manifest_consistent, snapshot_valid, spec_dim, table_valid};
use crate::table_metadata::TableMetadata;
use crate::util::{format_i64_nonneg, format_u64, generate_snapshot_id, new_uuid_string};
use crate::Error;

verus! {

/// A staged change to a table.
pub enum Operation {
    /// Add a schema to the document.
    AddSchema(Schema),
    /// Make the given spec the default.
    SetDefaultSpec(i32),
    /// Merge properties into the document.
    UpdateProperties(Vec<(String, String)>),
    /// Point a ref at a snapshot.
    SetSnapshotRef((String, SnapshotReference)),
    /// Append new files to the table.
    Append {
        branch: Option<String>,
        files: Vec<DataFile>,
        additional_summary: Option<Vec<(String, String)>>,
    },
    /// Replace all files of the table with the given ones, recording which
    /// source-table snapshots produced them when the rewrite refreshes a
    /// materialized view's storage table.
    Rewrite {
        branch: Option<String>,
        files: Vec<DataFile>,
        additional_summary: Option<Vec<(String, String)>>,
        sources: Vec<SourceTable>,
    },
    /// Delete the files whose statistics certainly match the predicate, then
    /// append `new_files`.
    Filter {
        branch: Option<String>,
        predicate: Option<PrunePredicate>,
        additional_summary: Option<Vec<(String, String)>>,
        new_files: Vec<DataFile>,
    },
}

/// The branch a branch argument names.
pub open spec fn branch_view(branch: Option<String>) -> Option<Seq<char>> {
    match branch {
        Option::Some(b) => Option::Some(b@),
        Option::None => Option::None,
    }
}

/// The ref moved by an operation on a branch argument: the named branch, or
/// `main`.
pub open spec fn spec_branch_name(branch: Option<String>) -> Seq<char> {
    match branch {
        Option::Some(b) => b@,
        Option::None => "main"@,
    }
}

/// Resolves a branch argument to the ref name it moves.
pub fn branch_name(branch: &Option<String>) -> (r: String)
    ensures
        r@ == spec_branch_name(*branch),
{
    match branch {
        Option::Some(b) => b.clone(),
        Option::None => String::from_str("main"),
    }
}

/// Builds the object path of a snapshot's manifest list.
pub fn manifest_list_path(location: &str, snapshot_id: i64, uuid: &str) -> (r: String)
    requires
        snapshot_id >= 0,
    ensures
        r@ == location@ + "/metadata/snap-"@ + crate::util::dec_rep(snapshot_id as int) + "-"@
            + uuid@ + ".avro"@,
{
    let mut s = location.to_owned();
    s.append("/metadata/snap-");
    let id_str = format_i64_nonneg(snapshot_id);
    s.append(id_str.as_str());
    s.append("-");
    s.append(uuid);
    s.append(".avro");
    s
}

/// Builds the object path of the `k`-th manifest written by one operation.
pub fn manifest_path(location: &str, uuid: &str, k: u64) -> (r: String)
    ensures
        r@ == location@ + "/metadata/"@ + uuid@ + "-m"@ + crate::util::dec_rep(k as int)
            + ".avro"@,
{
    let mut s = location.to_owned();
    s.append("/metadata/");
    s.append(uuid);
    s.append("-m");
    let k_str = format_u64(k);
    s.append(k_str.as_str());
    s.append(".avro");
    s
}

/// Inherits the entries of an existing manifest into a new one: added
/// entries become existing, and entries without a sequence number are
/// stamped with the sequence number of the snapshot that introduced them.
/// An entry whose provenance does not resolve, or whose sequence number
/// exceeds `bound`, marks the manifest corrupt.
pub fn inherit_entries(entries: &Vec<ManifestEntry>, metadata: &TableMetadata, bound: i64) -> (r:
    Result<Vec<ManifestEntry>, Error>)
    ensures
        match r {
            Result::Ok(v) => {
                &&& v@.len() == entries@.len()
                &&& forall|i: int|
                    0 <= i < v@.len() ==> {
                        let old_e = #[trigger] entries_view(entries@)[i];
                        let new_e = entries_view(v@)[i];
                        &&& new_e.data_file == old_e.data_file
                        &&& new_e.status == (if old_e.status == Status::Deleted {
                            Status::Deleted
                        } else {
                            Status::Existing
                        })
                        &&& new_e.snapshot_id == old_e.snapshot_id
                        &&& new_e.sequence_number is Some
                        &&& new_e.sequence_number->Some_0 <= bound
                        &&& (old_e.sequence_number is Some ==> new_e.sequence_number
                            == old_e.sequence_number)
                    }
            },
            Result::Err(e) => e is InvalidFormat && !entries_provenance_ok(
                metadata@,
                entries_view(entries@),
                bound as int,
            ),
        },
{
    let mut out: Vec<ManifestEntry> = Vec::new();
    let mut i: usize = 0;
    while i < entries.len()
        invariant
            i <= entries@.len(),
            out@.len() == i,
            forall|j: int|
                0 <= j < i ==> {
                    let old_e = #[trigger] entries_view(entries@)[j];
                    let new_e = entries_view(out@)[j];
                    &&& new_e.data_file == old_e.data_file
                    &&& new_e.status == (if old_e.status == Status::Deleted {
                        Status::Deleted
                    } else {
                        Status::Existing
                    })
                    &&& new_e.snapshot_id == old_e.snapshot_id
                    &&& new_e.sequence_number is Some
                    &&& new_e.sequence_number->Some_0 <= bound
                    &&& (old_e.sequence_number is Some ==> new_e.sequence_number
                        == old_e.sequence_number)
                },
        decreases entries@.len() - i,
    {
        let e = &entries[i];
        let seq: i64 = match e.sequence_number {
            Option::Some(s) => s,
            Option::None => {
                let sid = match e.snapshot_id {
                    Option::Some(sid) => sid,
                    Option::None => {
                        proof {
                            assert(entries_view(entries@)[i as int] == entries@[i as int]@);
                            assert(!entries_provenance_ok(
                                metadata@,
                                entries_view(entries@),
                                bound as int,
                            ));
                        }
                        return Result::Err(
                            Error::InvalidFormat(
                                String::from_str("snapshot id missing in manifest entry"),
                            ),
                        );
                    },
                };
                match metadata.sequence_number(sid) {
                    Option::Some(s) => s,
                    Option::None => {
                        proof {
                            assert(entries_view(entries@)[i as int] == entries@[i as int]@);
                            assert(!entries_provenance_ok(
                                metadata@,
                                entries_view(entries@),
                                bound as int,
                            ));
                        }
                        return Result::Err(
                            Error::InvalidFormat(
                                String::from_str("manifest entry provenance does not resolve"),
                            ),
                        );
                    },
                }
            },
        };
        if seq > bound {
            proof {
                assert(entries_view(entries@)[i as int] == entries@[i as int]@);
                assert(!entries_provenance_ok(metadata@, entries_view(entries@), bound as int));
            }
            return Result::Err(
                Error::InvalidFormat(
                    String::from_str("manifest entry sequence number out of range"),
                ),
            );
        }
        let status = match e.status {
            Status::Deleted => Status::Deleted,
            _ => Status::Existing,
        };
        out.push(
            ManifestEntry {
                status,
                snapshot_id: e.snapshot_id,
                sequence_number: Option::Some(seq),
                data_file: clone_data_file(&e.data_file),
            },
        );
        proof {
            assert(entries_view(out@)[i as int] == out@[i as int]@);
            assert(entries_view(entries@)[i as int] == entries@[i as int]@);
        }
        i = i + 1;
    }
    Result::Ok(out)
}

/// Turns the new data files into added entries of the new snapshot.
pub fn entries_from_files(files: Vec<DataFile>, snapshot_id: i64, sequence_number: Option<i64>) -> (
    r: Vec<ManifestEntry>)
    ensures
        r@.len() == files@.len(),
        forall|i: int|
            0 <= i < r@.len() ==> {
                let e = #[trigger] entries_view(r@)[i];
                &&& e.status == Status::Added
                &&& e.snapshot_id == Option::Some(snapshot_id)
                &&& e.sequence_number == sequence_number
                &&& e.data_file == crate::table::files_view(files@)[i]
            },
{
    let ghost fv = crate::table::files_view(files@);
    let mut out: Vec<ManifestEntry> = Vec::new();
    let mut rest = files;
    let ghost i: int = 0;
    while rest.len() > 0
        invariant
            0 <= i <= fv.len(),
            crate::table::files_view(rest@) =~= fv.skip(i),
            out@.len() == i,
            forall|j: int|
                0 <= j < i ==> {
                    let e = #[trigger] entries_view(out@)[j];
                    &&& e.status == Status::Added
                    &&& e.snapshot_id == Option::Some(snapshot_id)
                    &&& e.sequence_number == sequence_number
                    &&& e.data_file == fv[j]
                },
        decreases rest@.len(),
    {
        let ghost restv = crate::table::files_view(rest@);
        let ghost outv = entries_view(out@);
        let f = rest.remove(0);
        proof {
            assert(restv =~= fv.skip(i));
            assert(restv.len() == rest@.len() + 1);
            assert(fv.skip(i)[0] == fv[i]);
            assert(restv[0] == fv[i]);
            assert(f@ == restv[0]);
            assert(crate::table::files_view(rest@) =~= restv.remove(0));
            assert(restv.remove(0) =~= fv.skip(i + 1));
        }
        out.push(
            ManifestEntry {
                status: Status::Added,
                snapshot_id: Option::Some(snapshot_id),
                sequence_number,
                data_file: f,
            },
        );
        proof {
            assert(entries_view(out@) =~= outv.push(out@[i]@));
            assert(entries_view(out@)[i] == out@[i]@);
            assert(forall|j: int| 0 <= j < i ==> #[trigger] entries_view(out@)[j] == outv[j]);
            i = i + 1;
        }
    }
    proof {
        assert(crate::table::files_view(rest@).len() == rest@.len());
        assert(fv.skip(i).len() == 0);
        assert(i == fv.len());
    }
    out
}

/// Writes each group of entries as a fresh manifest object and builds its
/// manifest-list entry: exact counts, tight partition summary, and the new
/// snapshot's sequence number.
pub fn write_groups(
    groups: Vec<Vec<ManifestEntry>>,
    storage: &mut TableStorage,
    location: &str,
    uuid: &str,
    sequence_number: i64,
    dim: usize,
    Ghost(bound): Ghost<i64>,
) -> (r: Result<Vec<ManifestListEntry>, Error>)
    requires
        forall|g: int|
            0 <= g < groups@.len() ==> crate::manifest::entries_have_dim(
                entries_view((#[trigger] groups@[g])@),
                dim as nat,
            ),
        forall|g: int| 0 <= g < groups@.len() ==> (#[trigger] groups@[g])@.len() <= u32::MAX,
        forall|g: int|
            0 <= g < groups@.len() ==> entries_seq_bounded(
                entries_view((#[trigger] groups@[g])@),
                bound,
            ),
    ensures
        old(storage)@.le(&final(storage)@),
        match r {
            Result::Ok(v) => {
                &&& v@.len() == groups@.len()
                &&& forall|j: int|
                    0 <= j < v@.len() ==> {
                        let mv = #[trigger] mles_view(v@)[j];
                        &&& manifest_lookup(final(storage)@.manifests, mv.manifest_path) is Some
                        &&& manifest_lookup(final(storage)@.manifests, mv.manifest_path)
                            == Option::Some(entries_view(groups@[j]@))
                        &&& manifest_consistent(
                            mv,
                            manifest_lookup(final(storage)@.manifests, mv.manifest_path)->Some_0,
                            dim as nat,
                        )
                        &&& mv.sequence_number == sequence_number
                        &&& entries_seq_bounded(
                            manifest_lookup(final(storage)@.manifests, mv.manifest_path)->Some_0,
                            bound,
                        )
                    }
            },
            Result::Err(e) => e is IO,
        },
{
    let ghost gs = groups@;
    let ghost st0 = storage@;
    let mut out: Vec<ManifestListEntry> = Vec::new();
    let mut rest = groups;
    let ghost i: int = 0;
    while rest.len() > 0
        invariant
            0 <= i <= gs.len(),
            rest@ =~= gs.skip(i),
            out@.len() == i,
            st0 == old(storage)@,
            st0.le(&storage@),
            forall|g: int|
                0 <= g < gs.len() ==> crate::manifest::entries_have_dim(
                    entries_view((#[trigger] gs[g])@),
                    dim as nat,
                ),
            forall|g: int| 0 <= g < gs.len() ==> (#[trigger] gs[g])@.len() <= u32::MAX,
            forall|g: int|
                0 <= g < gs.len() ==> entries_seq_bounded(
                    entries_view((#[trigger] gs[g])@),
                    bound,
                ),
            forall|j: int|
                0 <= j < i ==> {
                    let mv = #[trigger] mles_view(out@)[j];
                    &&& manifest_lookup(storage@.manifests, mv.manifest_path) is Some
                    &&& manifest_lookup(storage@.manifests, mv.manifest_path) == Option::Some(
                        entries_view(gs[j]@),
                    )
                    &&& manifest_consistent(
                        mv,
                        manifest_lookup(storage@.manifests, mv.manifest_path)->Some_0,
                        dim as nat,
                    )
                    &&& mv.sequence_number == sequence_number
                    &&& entries_seq_bounded(
                        manifest_lookup(storage@.manifests, mv.manifest_path)->Some_0,
                        bound,
                    )
                },
        decreases rest@.len(),
    {
        let g = rest.remove(0);
        proof {
            assert(g == gs[i]);
            assert(gs.skip(i).remove(0) =~= gs.skip(i + 1));
        }
        let path = manifest_path(location, uuid, out.len() as u64);
        let mle = build_list_entry(
            path.clone(),
            ManifestContent::Data,
            sequence_number,
            &g,
            dim,
        );
        let ghost pre_put = storage@;
        let ghost outv = mles_view(out@);
        let ghost gv = entries_view(g@);
        match storage.put_manifest(path, g) {
            Result::Ok(()) => {},
            Result::Err(e) => {
                return Result::Err(e);
            },
        }
        out.push(mle);
        proof {
            assert(mles_view(out@) =~= outv.push(out@[i]@));
            assert(mles_view(out@)[i] == out@[i]@);
            let mv = mles_view(out@)[i];
            assert(manifest_lookup(storage@.manifests, mv.manifest_path) == Option::Some(gv));
            assert(manifest_consistent(mv, gv, dim as nat)) by {
                crate::manifest::lemma_tight_bounds_contain(gv, dim as nat, gv.len() as int);
                match crate::manifest::tight_bounds(gv) {
                    Option::None => {
                        assert(mv.partitions is None);
                        assert(forall|k: int| 0 <= k < gv.len() ==> !(#[trigger] gv[k]).is_live());
                    },
                    Option::Some((mn, mx)) => {
                        if dim == 0 {
                            assert(mv.partitions is None);
                        } else {
                            let s = mv.partitions->Some_0;
                            assert(crate::tree::summary_lowers(s) =~= mn);
                            assert(crate::tree::summary_uppers(s) =~= mx);
                            assert(crate::tree::summary_wf(s, dim as nat));
                        }
                    },
                }
            }
            assert(forall|j: int|
                0 <= j < i ==> #[trigger] mles_view(out@)[j] == outv[j]);
            assert forall|j: int| 0 <= j < i implies {
                let mv2 = #[trigger] mles_view(out@)[j];
                manifest_lookup(storage@.manifests, mv2.manifest_path) is Some
                    && manifest_lookup(storage@.manifests, mv2.manifest_path)
                    == manifest_lookup(pre_put.manifests, mv2.manifest_path)
            } by {
                let mv2 = mles_view(out@)[j];
                assert(manifest_lookup(pre_put.manifests, mv2.manifest_path) is Some);
            }
            i = i + 1;
        }
    }
    proof {
        assert(gs.skip(i).len() == 0);
        assert(i == gs.len());
    }
    Result::Ok(out)
}

/// Total entry count of a manifest list, over its records.
pub open spec fn sum_total_counts(mles: Seq<ManifestListEntryView>, n: int) -> int
    decreases n,
{
    if n <= 0 {
        0
    } else {
        sum_total_counts(mles, n - 1) + crate::tree::mle_total(mles[n - 1])
    }
}

/// The executable total agrees with the record-level sum.
proof fn lemma_total_entries_view(ms: Seq<ManifestListEntry>, n: int)
    requires
        0 <= n <= ms.len(),
    ensures
        crate::tree::total_entries_to(ms, n) == sum_total_counts(mles_view(ms), n),
    decreases n,
{
    if n > 0 {
        lemma_total_entries_view(ms, n - 1);
        assert(mles_view(ms)[n - 1] == ms[n - 1]@);
    }
}

/// Every manifest's count is at most the list's total.
proof fn lemma_total_counts_bound(mles: Seq<ManifestListEntryView>, n: int, j: int)
    requires
        0 <= j < n <= mles.len(),
    ensures
        crate::tree::mle_total(mles[j]) <= sum_total_counts(mles, n),
    decreases n,
{
    if j < n - 1 {
        lemma_total_counts_bound(mles, n - 1, j);
    } else {
        lemma_sum_total_nonneg(mles, n - 1);
    }
}

/// Totals are never negative.
proof fn lemma_sum_total_nonneg(mles: Seq<ManifestListEntryView>, n: int)
    ensures
        sum_total_counts(mles, n) >= 0,
    decreases n,
{
    if n > 0 {
        lemma_sum_total_nonneg(mles, n - 1);
    }
}

/// Every entry carries exactly one status, so the three counts total the
/// population.
proof fn lemma_status_partition(es: Seq<ManifestEntryView>, n: int)
    requires
        0 <= n <= es.len(),
    ensures
        crate::manifest::count_status_to(es, n, Status::Added) + crate::manifest::count_status_to(
            es,
            n,
            Status::Existing,
        ) + crate::manifest::count_status_to(es, n, Status::Deleted) == n,
    decreases n,
{
    if n > 0 {
        lemma_status_partition(es, n - 1);
    }
}

/// Every entry can be inherited under `bound`: either its stamped sequence
/// number is within the bound, or its introducing snapshot resolves with a
/// sequence number within the bound.
pub open spec fn entries_provenance_ok(
    md: crate::table_metadata::TableMetadataView,
    es: Seq<ManifestEntryView>,
    bound: int,
) -> bool {
    forall|k: int|
        0 <= k < es.len() ==> {
            let e = #[trigger] es[k];
            match e.sequence_number {
                Option::Some(s) => s <= bound,
                Option::None => {
                    &&& e.snapshot_id is Some
                    &&& crate::table_metadata::snapshot_lookup(md.snapshots, e.snapshot_id->0)
                        is Some
                    &&& crate::table_metadata::snapshot_lookup(
                        md.snapshots,
                        e.snapshot_id->0,
                    )->Some_0.sequence_number <= bound
                },
            }
        }
}

/// The inputs on which an append owes a snapshot, leaving only the entropy
/// source and object naming able to fail: files of the right dimension, a
/// resolvable schema, a head whose numbering can advance, a population
/// within the counters, usable partition summaries, and inheritable
/// provenance everywhere the append may read.
#[verifier::opaque]
pub open spec fn append_inputs_ok(
    md: crate::table_metadata::TableMetadataView,
    st: crate::storage::TableStorageView,
    branch: Option<Seq<char>>,
    filesv: Seq<crate::manifest::DataFileView>,
) -> bool {
    &&& filesv.len() > 0
    &&& (forall|j: int|
        0 <= j < filesv.len() ==> (#[trigger] filesv[j]).partition.len() == spec_dim(md))
    &&& crate::table_metadata::schema_lookup(md.schemas, md.effective_schema_id(branch)) is Some
    &&& match md.spec_current_snapshot(branch) {
        Option::None => filesv.len() <= u32::MAX,
        Option::Some(osv) => {
            let mles = list_lookup(st.manifest_lists, osv.manifest_list)->Some_0;
            &&& 0 <= osv.sequence_number < i64::MAX
            &&& sum_total_counts(mles, mles.len() as int) + filesv.len() <= u32::MAX
            &&& (spec_dim(md) > 0 ==> forall|j: int|
                0 <= j < mles.len() ==> (#[trigger] mles[j].partitions) is Some
                    && crate::tree::summary_wf(mles[j].partitions->Some_0, spec_dim(md)))
            &&& forall|j: int|
                0 <= j < mles.len() ==> entries_provenance_ok(
                    md,
                    manifest_lookup(st.manifests, (#[trigger] mles[j]).manifest_path)->Some_0,
                    osv.sequence_number as int,
                )
        },
    }
}

/// Unfolds the append input bundle into its conjuncts.
proof fn lemma_append_inputs_facts(
    md: crate::table_metadata::TableMetadataView,
    st: crate::storage::TableStorageView,
    branch: Option<Seq<char>>,
    filesv: Seq<crate::manifest::DataFileView>,
)
    requires
        append_inputs_ok(md, st, branch, filesv),
    ensures
        filesv.len() > 0,
        forall|j: int|
            0 <= j < filesv.len() ==> (#[trigger] filesv[j]).partition.len() == spec_dim(md),
        crate::table_metadata::schema_lookup(md.schemas, md.effective_schema_id(branch)) is Some,
        match md.spec_current_snapshot(branch) {
            Option::None => filesv.len() <= u32::MAX,
            Option::Some(osv) => {
                let mles = list_lookup(st.manifest_lists, osv.manifest_list)->Some_0;
                &&& 0 <= osv.sequence_number < i64::MAX
                &&& sum_total_counts(mles, mles.len() as int) + filesv.len() <= u32::MAX
                &&& (spec_dim(md) > 0 ==> forall|j: int|
                    0 <= j < mles.len() ==> (#[trigger] mles[j].partitions) is Some
                        && crate::tree::summary_wf(mles[j].partitions->Some_0, spec_dim(md)))
                &&& forall|j: int|
                    0 <= j < mles.len() ==> entries_provenance_ok(
                        md,
                        manifest_lookup(st.manifests, (#[trigger] mles[j]).manifest_path)->Some_0,
                        osv.sequence_number as int,
                    )
            },
        },
{
    reveal(append_inputs_ok);
}

/// Provenance under a bound still holds under any larger bound.
proof fn lemma_provenance_relax(
    md: crate::table_metadata::TableMetadataView,
    es: Seq<ManifestEntryView>,
    b1: int,
    b2: int,
)
    requires
        entries_provenance_ok(md, es, b1),
        b1 <= b2,
    ensures
        entries_provenance_ok(md, es, b2),
{
    assert forall|k: int| 0 <= k < es.len() implies {
        let e = #[trigger] es[k];
        match e.sequence_number {
            Option::Some(sq) => sq <= b2,
            Option::None => {
                &&& e.snapshot_id is Some
                &&& crate::table_metadata::snapshot_lookup(md.snapshots, e.snapshot_id->0)
                    is Some
                &&& crate::table_metadata::snapshot_lookup(
                    md.snapshots,
                    e.snapshot_id->0,
                )->Some_0.sequence_number <= b2
            },
        }
    } by {
        assert(0 <= k < es.len());
    }
}

/// Summary well-formedness carries from record views to the list the
/// selection walked.
proof fn lemma_summaries_transfer(
    owned_seq: Seq<ManifestListEntry>,
    old_list: Seq<ManifestListEntryView>,
    d: nat,
)
    requires
        mles_view(owned_seq) == old_list,
        forall|j: int|
            0 <= j < old_list.len() ==> (#[trigger] old_list[j].partitions) is Some
                && crate::tree::summary_wf(old_list[j].partitions->Some_0, d),
    ensures
        forall|j: int|
            0 <= j < owned_seq.len() ==> ((#[trigger] owned_seq[j]@).partitions) is Some
                && crate::tree::summary_wf(owned_seq[j]@.partitions->Some_0, d),
{
    assert forall|j: int| 0 <= j < owned_seq.len() implies ((#[trigger] owned_seq[j]@).partitions)
        is Some && crate::tree::summary_wf(owned_seq[j]@.partitions->Some_0, d) by {
        assert(mles_view(owned_seq)[j] == owned_seq[j]@);
    }
}

/// A consistent manifest's stored population equals its recorded total.
proof fn lemma_consistent_len(
    mle: ManifestListEntryView,
    es: Seq<ManifestEntryView>,
    dim: nat,
)
    requires
        manifest_consistent(mle, es, dim),
    ensures
        es.len() == crate::tree::mle_total(mle),
{
    lemma_status_partition(es, es.len() as int);
    crate::laws::lemma_count_status_bounds(es, Status::Added, es.len() as int);
    crate::laws::lemma_count_status_bounds(es, Status::Existing, es.len() as int);
    crate::laws::lemma_count_status_bounds(es, Status::Deleted, es.len() as int);
}

/// The inputs on which a rewrite owes a snapshot: files of the right
/// dimension within the counters, a resolvable schema.
pub open spec fn rewrite_inputs_ok(
    md: crate::table_metadata::TableMetadataView,
    branch: Option<Seq<char>>,
    filesv: Seq<crate::manifest::DataFileView>,
) -> bool {
    &&& filesv.len() > 0
    &&& filesv.len() <= u32::MAX
    &&& (forall|j: int|
        0 <= j < filesv.len() ==> (#[trigger] filesv[j]).partition.len() == spec_dim(md))
    &&& crate::table_metadata::schema_lookup(md.schemas, md.effective_schema_id(branch)) is Some
}

/// The inputs on which a filter owes a snapshot: new files of the right
/// dimension, a resolvable schema, a head whose numbering can advance, a
/// reachable population within the counters with inheritable provenance.
pub open spec fn filter_inputs_ok(
    md: crate::table_metadata::TableMetadataView,
    st: crate::storage::TableStorageView,
    branch: Option<Seq<char>>,
    new_filesv: Seq<crate::manifest::DataFileView>,
) -> bool {
    &&& (forall|j: int|
        0 <= j < new_filesv.len() ==> (#[trigger] new_filesv[j]).partition.len() == spec_dim(md))
    &&& crate::table_metadata::schema_lookup(md.schemas, md.effective_schema_id(branch)) is Some
    &&& match md.spec_current_snapshot(branch) {
        Option::None => new_filesv.len() <= u32::MAX,
        Option::Some(osv) => {
            &&& 0 <= osv.sequence_number < i64::MAX
            &&& filter_source_entries(md, st, branch).len() + new_filesv.len() <= u32::MAX
            &&& entries_provenance_ok(
                md,
                filter_source_entries(md, st, branch),
                osv.sequence_number as int,
            )
        },
    }
}

/// The view of an optional requirement.
pub open spec fn opt_req_view(
    r: Option<TableRequirement>,
) -> Option<crate::catalog::TableRequirementView> {
    match r {
        Option::Some(q) => Option::Some(q@),
        Option::None => Option::None,
    }
}

/// The summary pairs an optional argument contributes.
pub open spec fn summary_other_view(
    additional: Option<Vec<(String, String)>>,
) -> Seq<(Seq<char>, Seq<char>)> {
    match additional {
        Option::Some(v) => crate::snapshot::kv_view(v@),
        Option::None => Seq::empty(),
    }
}

/// The sequence number the next append on a branch receives: one above the
/// branch head's, or zero on a branch without a snapshot.
pub open spec fn next_sequence_number(
    md: crate::table_metadata::TableMetadataView,
    branch: Option<Seq<char>>,
) -> int {
    match md.spec_current_snapshot(branch) {
        Option::Some(osv) => osv.sequence_number + 1,
        Option::None => 0,
    }
}

/// What a snapshot-producing operation hands the catalog: the optimistic
/// requirement on the branch head, an `AddSnapshot` of a fresh consistent
/// snapshot with the given operation kind and sequence number, and a
/// `SetSnapshotRef` moving the branch to it.
pub open spec fn snapshot_commit_shape(
    md: crate::table_metadata::TableMetadataView,
    st: crate::storage::TableStorageView,
    branch: Option<String>,
    additional: Option<Vec<(String, String)>>,
    sources: Seq<crate::snapshot::SourceTableView>,
    expected_seq: int,
    expected_op: crate::snapshot::SnapshotOperation,
    ts: i64,
    req: Option<TableRequirement>,
    add_snapshot: TableUpdate,
    set_ref: TableUpdate,
) -> bool {
    &&& add_snapshot matches TableUpdate::AddSnapshot { snapshot } && {
        let sv = snapshot@;
        &&& sv.snapshot_id >= 0
        &&& sv.parent_snapshot_id == md.head_snapshot_id(branch_view(branch))
        &&& sv.sequence_number == expected_seq
        &&& sv.timestamp_ms == ts
        &&& sv.schema_id == Option::Some(md.effective_schema_id(branch_view(branch)))
        &&& sv.summary.operation == expected_op
        &&& sv.summary.other == summary_other_view(additional)
        &&& sv.summary.sources == sources
        &&& snapshot_valid(st, sv, spec_dim(md))
        &&& (set_ref matches TableUpdate::SetSnapshotRef { ref_name, snapshot_reference }
            && ref_name@ == spec_branch_name(branch) && snapshot_reference.snapshot_id
            == sv.snapshot_id)
    }
    &&& match md.spec_current_snapshot(branch_view(branch)) {
        Option::Some(osv) => opt_req_view(req) == Option::Some(
            crate::catalog::TableRequirementView::AssertRefSnapshotId {
                ref_name: spec_branch_name(branch),
                snapshot_id: osv.snapshot_id,
            },
        ),
        Option::None => req is None,
    }
}

/// Copies a manifest list.
fn clone_manifest_list(v: &Vec<ManifestListEntry>) -> (r: Vec<ManifestListEntry>)
    ensures
        mles_view(r@) == mles_view(v@),
        r@.len() == v@.len(),
{
    let mut out: Vec<ManifestListEntry> = Vec::new();
    let mut i: usize = 0;
    while i < v.len()
        invariant
            i <= v@.len(),
            out@.len() == i,
            forall|j: int| 0 <= j < i ==> #[trigger] mles_view(out@)[j] == mles_view(v@)[j],
        decreases v@.len() - i,
    {
        let ghost outv = mles_view(out@);
        out.push(crate::manifest::clone_list_entry(&v[i]));
        proof {
            assert(mles_view(out@) =~= outv.push(out@[i as int]@));
            assert(mles_view(out@)[i as int] == out@[i as int]@);
            assert(mles_view(v@)[i as int] == v@[i as int]@);
            assert(forall|j: int| 0 <= j < i ==> #[trigger] mles_view(out@)[j] == outv[j]);
        }
        i = i + 1;
    }
    proof {
        assert(mles_view(out@) =~= mles_view(v@));
    }
    out
}

/// Copies a manifest's entries.
fn clone_entries(v: &Vec<ManifestEntry>) -> (r: Vec<ManifestEntry>)
    ensures
        entries_view(r@) == entries_view(v@),
        r@.len() == v@.len(),
{
    let mut out: Vec<ManifestEntry> = Vec::new();
    let mut i: usize = 0;
    while i < v.len()
        invariant
            i <= v@.len(),
            out@.len() == i,
            forall|j: int| 0 <= j < i ==> #[trigger] entries_view(out@)[j] == entries_view(v@)[j],
        decreases v@.len() - i,
    {
        let ghost outv = entries_view(out@);
        out.push(clone_entry(&v[i]));
        proof {
            assert(entries_view(out@) =~= outv.push(out@[i as int]@));
            assert(entries_view(out@)[i as int] == out@[i as int]@);
            assert(entries_view(v@)[i as int] == v@[i as int]@);
            assert(forall|j: int| 0 <= j < i ==> #[trigger] entries_view(out@)[j] == outv[j]);
        }
        i = i + 1;
    }
    proof {
        assert(entries_view(out@) =~= entries_view(v@));
    }
    out
}

/// Moves the elements of `tail` onto the end of `head`.
fn concat_entries(head: Vec<ManifestEntry>, tail: Vec<ManifestEntry>) -> (r: Vec<ManifestEntry>)
    ensures
        entries_view(r@) == entries_view(head@) + entries_view(tail@),
{
    let ghost hv = entries_view(head@);
    let ghost tv = entries_view(tail@);
    let mut out = head;
    let mut rest = tail;
    let ghost i: int = 0;
    while rest.len() > 0
        invariant
            0 <= i <= tv.len(),
            entries_view(rest@) =~= tv.skip(i),
            entries_view(out@) =~= hv + tv.take(i),
        decreases rest@.len(),
    {
        let ghost restv = entries_view(rest@);
        let ghost outv = entries_view(out@);
        let e = rest.remove(0);
        proof {
            assert(restv =~= tv.skip(i));
            assert(restv.len() == rest@.len() + 1);
            assert(tv.skip(i)[0] == tv[i]);
            assert(e@ == restv[0]);
            assert(entries_view(rest@) =~= restv.remove(0));
            assert(restv.remove(0) =~= tv.skip(i + 1));
        }
        out.push(e);
        proof {
            assert(entries_view(out@) =~= outv.push(tv[i]));
            assert(outv.push(tv[i]) =~= hv + tv.take(i + 1));
            i = i + 1;
        }
    }
    proof {
        assert(entries_view(rest@).len() == rest@.len());
        assert(tv.skip(i).len() == 0);
        assert(tv.take(i) =~= tv);
        assert(entries_view(out@) =~= hv + tv);
    }
    out
}

/// Moves the elements of `tail` onto the end of `head`.
fn concat_mles(head: Vec<ManifestListEntry>, tail: Vec<ManifestListEntry>) -> (r: Vec<
    ManifestListEntry,
>)
    ensures
        mles_view(r@) == mles_view(head@) + mles_view(tail@),
{
    let ghost hv = mles_view(head@);
    let ghost tv = mles_view(tail@);
    let mut out = head;
    let mut rest = tail;
    let ghost i: int = 0;
    while rest.len() > 0
        invariant
            0 <= i <= tv.len(),
            mles_view(rest@) =~= tv.skip(i),
            mles_view(out@) =~= hv + tv.take(i),
        decreases rest@.len(),
    {
        let ghost restv = mles_view(rest@);
        let ghost outv = mles_view(out@);
        let e = rest.remove(0);
        proof {
            assert(restv =~= tv.skip(i));
            assert(restv.len() == rest@.len() + 1);
            assert(tv.skip(i)[0] == tv[i]);
            assert(e@ == restv[0]);
            assert(mles_view(rest@) =~= restv.remove(0));
            assert(restv.remove(0) =~= tv.skip(i + 1));
        }
        out.push(e);
        proof {
            assert(mles_view(out@) =~= outv.push(tv[i]));
            assert(outv.push(tv[i]) =~= hv + tv.take(i + 1));
            i = i + 1;
        }
    }
    proof {
        assert(mles_view(rest@).len() == rest@.len());
        assert(tv.skip(i).len() == 0);
        assert(tv.take(i) =~= tv);
        assert(mles_view(out@) =~= hv + tv);
    }
    out
}

/// An element of a flattened sequence of sequences comes from one of them.
proof fn lemma_flatten_member<A>(ss: Seq<Seq<A>>, g: int, k: int)
    requires
        0 <= g < ss.len(),
        0 <= k < ss[g].len(),
    ensures
        ss.flatten().contains(ss[g][k]),
    decreases ss.len(),
{
    if ss.len() > 0 {
        let first = ss.first();
        let rest = ss.drop_first();
        assert(ss.flatten() == first + rest.flatten());
        if g == 0 {
            assert(ss.flatten()[k] == ss[g][k]);
        } else {
            lemma_flatten_member(rest, g - 1, k);
            let j = choose|j: int|
                0 <= j < rest.flatten().len() && rest.flatten()[j] == ss[g][k];
            assert(ss.flatten()[first.len() + j] == ss[g][k]);
        }
    }
}

/// There is an input entry whose record equals the given group entry's.
pub open spec fn group_entry_from_input(
    groups: Seq<Vec<ManifestEntry>>,
    input: Seq<ManifestEntry>,
    g: int,
    k: int,
) -> bool {
    exists|i: int| 0 <= i < input.len() && input[i]@ == groups[g]@[k]@
}

/// Every entry of every split group occurs among the input entries, and no
/// group is larger than the input.
proof fn lemma_groups_entries_from_input(groups: Seq<Vec<ManifestEntry>>, input: Seq<ManifestEntry>)
    requires
        entries_view(crate::tree::groups_flat(groups)).to_multiset() == entries_view(
            input,
        ).to_multiset(),
    ensures
        forall|g: int, k: int|
            0 <= g < groups.len() && 0 <= k < groups[g]@.len() ==> #[trigger] group_entry_from_input(
                groups,
                input,
                g,
                k,
            ),
        forall|g: int| 0 <= g < groups.len() ==> (#[trigger] groups[g])@.len() <= input.len(),
{
    broadcast use vstd::seq_lib::group_to_multiset_ensures;

    let mapped = groups.map_values(|v: Vec<ManifestEntry>| v@);
    let flat = crate::tree::groups_flat(groups);
    assert(flat == mapped.flatten());
    assert forall|g: int, k: int|
        0 <= g < groups.len() && 0 <= k < groups[g]@.len() implies #[trigger] group_entry_from_input(
        groups,
        input,
        g,
        k,
    ) by {
        assert(mapped[g] == groups[g]@);
        lemma_flatten_member(mapped, g, k);
        let e = groups[g]@[k];
        assert(flat.contains(e));
        let fi = choose|fi: int| 0 <= fi < flat.len() && flat[fi] == e;
        assert(entries_view(flat)[fi] == e@);
        assert(entries_view(flat).contains(e@));
        assert(entries_view(flat).to_multiset().count(e@) > 0);
        assert(entries_view(input).to_multiset().count(e@) > 0);
        assert(entries_view(input).contains(e@));
        let i = choose|i: int| 0 <= i < entries_view(input).len() && entries_view(input)[i] == e@;
        assert(input[i]@ == e@);
    }
    assert forall|g: int| 0 <= g < groups.len() implies (#[trigger] groups[g])@.len()
        <= input.len() by {
        let gl = groups[g]@.len();
        assert(mapped[g] == groups[g]@);
        mapped.lemma_flatten_length_ge_single_element_length(g);
        mapped.lemma_flatten_and_flatten_alt_are_equivalent();
        assert(flat.len() >= gl);
        assert(entries_view(flat).len() == flat.len());
        assert(entries_view(input).len() == input.len());
        assert(entries_view(flat).len() == entries_view(flat).to_multiset().len());
        assert(entries_view(input).len() == entries_view(input).to_multiset().len());
        assert(entries_view(flat).len() == entries_view(input).len());
    }
}

/// Appending writes fresh manifests holding the combined entries and keeps
/// the untouched manifests, so the new snapshot's live population is the
/// old one's plus the appended files.
#[verifier::rlimit(100)]
proof fn lemma_append_live_accounting(
    st0: crate::storage::TableStorageView,
    st2: crate::storage::TableStorageView,
    old_list: Seq<ManifestListEntryView>,
    restv: Seq<ManifestListEntryView>,
    newv: Seq<ManifestListEntryView>,
    fullv: Seq<ManifestListEntryView>,
    sel: Option<ManifestListEntryView>,
    sel_index: int,
    groups_seq: Seq<Vec<ManifestEntry>>,
    all_seq: Seq<ManifestEntry>,
    files_len: int,
    old_sel_live: int,
)
    requires
        fullv == restv + newv,
        newv.len() == groups_seq.len(),
        forall|j: int|
            0 <= j < newv.len() ==> manifest_lookup(
                st2.manifests,
                (#[trigger] newv[j]).manifest_path,
            ) == Option::Some(entries_view(groups_seq[j]@)),
        entries_view(crate::tree::groups_flat(groups_seq)).to_multiset() == entries_view(
            all_seq,
        ).to_multiset(),
        crate::manifest::count_live(entries_view(all_seq)) == files_len + old_sel_live,
        forall|j: int|
            0 <= j < restv.len() ==> manifest_lookup(
                st2.manifests,
                (#[trigger] restv[j]).manifest_path,
            ) == manifest_lookup(st0.manifests, restv[j].manifest_path),
        match sel {
            Option::None => restv.len() == 0 && old_list.len() == 0 && old_sel_live == 0,
            Option::Some(smle) => {
                &&& 0 <= sel_index < old_list.len()
                &&& old_list.len() == restv.len() + 1
                &&& old_list[sel_index] == smle
                &&& (forall|j: int| 0 <= j < sel_index ==> #[trigger] restv[j] == old_list[j])
                &&& (forall|j: int|
                    sel_index <= j < restv.len() ==> #[trigger] restv[j] == old_list[j + 1])
                &&& manifest_lookup(st0.manifests, smle.manifest_path) is Some
                &&& old_sel_live == crate::manifest::count_live(
                    manifest_lookup(st0.manifests, smle.manifest_path)->Some_0,
                )
            },
        },
    ensures
        crate::manifest::count_live(crate::table::entries_cat(st2, fullv))
            == crate::manifest::count_live(crate::table::entries_cat(st0, old_list)) + files_len,
{
    crate::table::lemma_entries_cat_concat(st2, restv, newv);
    crate::laws::lemma_count_live_concat(
        crate::table::entries_cat(st2, restv),
        crate::table::entries_cat(st2, newv),
    );
    let ess = groups_seq.map_values(|g: Vec<ManifestEntry>| entries_view(g@));
    assert forall|j: int| 0 <= j < newv.len() implies manifest_lookup(
        st2.manifests,
        (#[trigger] newv[j]).manifest_path,
    ) == Option::Some(ess[j]) by {
        assert(ess[j] == entries_view(groups_seq[j]@));
    }
    lemma_entries_cat_exact(st2, newv, ess);
    ess.lemma_flatten_and_flatten_alt_are_equivalent();
    lemma_entries_view_flatten(groups_seq);
    assert(crate::table::entries_cat(st2, newv) == entries_view(
        crate::tree::groups_flat(groups_seq),
    ));
    lemma_count_live_multiset(
        entries_view(crate::tree::groups_flat(groups_seq)),
        entries_view(all_seq),
    );
    assert(crate::manifest::count_live(crate::table::entries_cat(st2, newv)) == files_len
        + old_sel_live);
    crate::table::lemma_entries_cat_congruent(st2, st0, restv);
    match sel {
        Option::Some(smle) => {
            let single = seq![old_list[sel_index]];
            assert(old_list =~= restv.take(sel_index) + single + restv.skip(sel_index));
            assert(restv =~= restv.take(sel_index) + restv.skip(sel_index));
            crate::table::lemma_entries_cat_concat(
                st0,
                restv.take(sel_index) + single,
                restv.skip(sel_index),
            );
            crate::table::lemma_entries_cat_concat(st0, restv.take(sel_index), single);
            crate::table::lemma_entries_cat_concat(
                st0,
                restv.take(sel_index),
                restv.skip(sel_index),
            );
            assert(single.drop_last() =~= Seq::<ManifestListEntryView>::empty());
            assert(crate::table::entries_cat(st0, single) == manifest_lookup(
                st0.manifests,
                old_list[sel_index].manifest_path,
            )->Some_0) by {
                assert(crate::table::entries_cat(st0, Seq::<ManifestListEntryView>::empty())
                    =~= Seq::<ManifestEntryView>::empty());
                assert(Seq::<ManifestEntryView>::empty() + manifest_lookup(
                    st0.manifests,
                    old_list[sel_index].manifest_path,
                )->Some_0 =~= manifest_lookup(
                    st0.manifests,
                    old_list[sel_index].manifest_path,
                )->Some_0);
            }
            crate::laws::lemma_count_live_concat(
                crate::table::entries_cat(st0, restv.take(sel_index) + single),
                crate::table::entries_cat(st0, restv.skip(sel_index)),
            );
            crate::laws::lemma_count_live_concat(
                crate::table::entries_cat(st0, restv.take(sel_index)),
                crate::table::entries_cat(st0, single),
            );
            crate::laws::lemma_count_live_concat(
                crate::table::entries_cat(st0, restv.take(sel_index)),
                crate::table::entries_cat(st0, restv.skip(sel_index)),
            );
        },
        Option::None => {
            assert(crate::table::entries_cat(st2, restv) =~= Seq::<ManifestEntryView>::empty());
            assert(crate::table::entries_cat(st0, old_list) =~= Seq::<
                ManifestEntryView,
            >::empty());
        },
    }
}

/// The snapshot an append writes is consistent and accounts for its live
/// files: untouched manifests keep their consistency from the old snapshot,
/// the fresh manifests carry the combined entries, and the live population
/// grows by exactly the appended files.
proof fn lemma_append_snapshot_facts(
    st0: crate::storage::TableStorageView,
    st1: crate::storage::TableStorageView,
    st2: crate::storage::TableStorageView,
    old_list: Seq<ManifestListEntryView>,
    restv: Seq<ManifestListEntryView>,
    newv: Seq<ManifestListEntryView>,
    fullv: Seq<ManifestListEntryView>,
    sel_view: Option<ManifestListEntryView>,
    sel_index: int,
    groups_seq: Seq<Vec<ManifestEntry>>,
    all_seq: Seq<ManifestEntry>,
    files_len: int,
    old_sel_live: int,
    osv_opt: Option<crate::snapshot::SnapshotView>,
    sv: crate::snapshot::SnapshotView,
    dim: nat,
)
    requires
        fullv == restv + newv,
        newv.len() == groups_seq.len(),
        forall|j: int|
            0 <= j < newv.len() ==> manifest_lookup(
                st1.manifests,
                (#[trigger] newv[j]).manifest_path,
            ) == Option::Some(entries_view(groups_seq[j]@)),
        forall|j: int|
            0 <= j < newv.len() ==> manifest_consistent(
                #[trigger] newv[j],
                manifest_lookup(st1.manifests, newv[j].manifest_path)->Some_0,
                dim,
            ),
        forall|j: int| 0 <= j < newv.len() ==> (#[trigger] newv[j]).sequence_number
            == sv.sequence_number,
        forall|j: int|
            0 <= j < newv.len() ==> entries_seq_bounded(
                manifest_lookup(st1.manifests, (#[trigger] newv[j]).manifest_path)->Some_0,
                sv.sequence_number,
            ),
        st0.le(&st2),
        st1.le(&st2),
        list_lookup(st2.manifest_lists, sv.manifest_list) == Option::Some(fullv),
        entries_view(crate::tree::groups_flat(groups_seq)).to_multiset() == entries_view(
            all_seq,
        ).to_multiset(),
        crate::manifest::count_live(entries_view(all_seq)) == files_len + old_sel_live,
        osv_opt is None ==> sel_view is None,
        match osv_opt {
            Option::None => old_list.len() == 0 && restv.len() == 0 && old_sel_live == 0,
            Option::Some(osv) => {
                &&& snapshot_valid(st0, osv, dim)
                &&& list_lookup(st0.manifest_lists, osv.manifest_list) == Option::Some(old_list)
                &&& osv.sequence_number + 1 == sv.sequence_number
                &&& match sel_view {
                    Option::None => old_list.len() == 0 && restv.len() == 0 && old_sel_live
                        == 0,
                    Option::Some(smle) => {
                        &&& 0 <= sel_index < old_list.len()
                        &&& old_list.len() == restv.len() + 1
                        &&& old_list[sel_index] == smle
                        &&& (forall|j: int|
                            0 <= j < sel_index ==> #[trigger] restv[j] == old_list[j])
                        &&& (forall|j: int|
                            sel_index <= j < restv.len() ==> #[trigger] restv[j] == old_list[
                                j + 1
                            ])
                        &&& manifest_lookup(st0.manifests, smle.manifest_path) is Some
                        &&& old_sel_live == crate::manifest::count_live(
                            manifest_lookup(st0.manifests, smle.manifest_path)->Some_0,
                        )
                    },
                }
            },
        },
    ensures
        snapshot_valid(st2, sv, dim),
        crate::manifest::count_live(crate::table::entries_cat(st2, fullv))
            == crate::manifest::count_live(
            match osv_opt {
                Option::Some(_) => crate::table::entries_cat(st0, old_list),
                Option::None => Seq::<ManifestEntryView>::empty(),
            },
        ) + files_len,
{
    assert(snapshot_valid(st2, sv, dim)) by {
        assert forall|j: int| 0 <= j < fullv.len() implies {
            let mv = #[trigger] fullv[j];
            &&& manifest_lookup(st2.manifests, mv.manifest_path) is Some
            &&& manifest_consistent(
                mv,
                manifest_lookup(st2.manifests, mv.manifest_path)->Some_0,
                dim,
            )
            &&& mv.sequence_number <= sv.sequence_number
            &&& entries_seq_bounded(
                manifest_lookup(st2.manifests, mv.manifest_path)->Some_0,
                sv.sequence_number,
            )
        } by {
            if j < restv.len() {
                let osv = osv_opt->Some_0;
                let j0 = if j < sel_index {
                    j
                } else {
                    j + 1
                };
                assert(old_list[j0] == restv[j]);
                assert(restv[j] == fullv[j]);
                assert(manifest_lookup(st0.manifests, old_list[j0].manifest_path) is Some);
                assert(manifest_lookup(st2.manifests, fullv[j].manifest_path) == manifest_lookup(
                    st0.manifests,
                    old_list[j0].manifest_path,
                ));
                assert(entries_seq_bounded(
                    manifest_lookup(st0.manifests, old_list[j0].manifest_path)->Some_0,
                    osv.sequence_number,
                ));
            } else {
                let j1 = j - restv.len();
                assert(newv[j1] == fullv[j]);
                assert(manifest_lookup(st1.manifests, newv[j1].manifest_path) is Some);
                assert(manifest_lookup(st2.manifests, fullv[j].manifest_path) == manifest_lookup(
                    st1.manifests,
                    newv[j1].manifest_path,
                ));
            }
        }
    }
    assert forall|j: int| 0 <= j < newv.len() implies manifest_lookup(
        st2.manifests,
        (#[trigger] newv[j]).manifest_path,
    ) == Option::Some(entries_view(groups_seq[j]@)) by {
        assert(manifest_lookup(st1.manifests, newv[j].manifest_path) == Option::Some(
            entries_view(groups_seq[j]@),
        ));
        assert(manifest_lookup(st2.manifests, newv[j].manifest_path) == manifest_lookup(
            st1.manifests,
            newv[j].manifest_path,
        ));
    }
    assert forall|j: int| 0 <= j < restv.len() implies manifest_lookup(
        st2.manifests,
        (#[trigger] restv[j]).manifest_path,
    ) == manifest_lookup(st0.manifests, restv[j].manifest_path) by {
        let j0 = if j < sel_index {
            j
        } else {
            j + 1
        };
        assert(old_list[j0] == restv[j]);
        assert(manifest_lookup(st0.manifests, old_list[j0].manifest_path) is Some);
    }
    lemma_append_live_accounting(
        st0,
        st2,
        old_list,
        restv,
        newv,
        fullv,
        sel_view,
        sel_index,
        groups_seq,
        all_seq,
        files_len,
        old_sel_live,
    );
    if osv_opt is None {
        assert(crate::table::entries_cat(st0, old_list) =~= Seq::<ManifestEntryView>::empty());
        assert(crate::manifest::count_live(Seq::<ManifestEntryView>::empty()) == 0);
    }
}

/// Compiles an append: chooses a manifest to extend, splits it when it
/// would grow past the dynamic limit, writes the new manifests and manifest
/// list, and produces the optimistic requirement and the updates that add
/// the new snapshot and move the branch to it.
#[verifier::rlimit(100)]
pub fn append_execute(
    branch: Option<String>,
    files: Vec<DataFile>,
    additional_summary: Option<Vec<(String, String)>>,
    table_metadata: &TableMetadata,
    storage: &mut TableStorage,
    timestamp_ms: i64,
) -> (r: Result<(Option<TableRequirement>, Vec<TableUpdate>), Error>)
    requires
        table_valid(table_metadata@, old(storage)@),
    ensures
        old(storage)@.le(&final(storage)@),
        match r {
            Result::Ok((req, ups)) => {
                &&& files@.len() > 0
                &&& ups@.len() == 2
                &&& snapshot_commit_shape(
                    table_metadata@,
                    final(storage)@,
                    branch,
                    additional_summary,
                    Seq::empty(),
                    next_sequence_number(table_metadata@, branch_view(branch)),
                    crate::snapshot::SnapshotOperation::Append,
                    timestamp_ms,
                    req,
                    ups@[0],
                    ups@[1],
                )
                &&& (ups@[0] matches TableUpdate::AddSnapshot { snapshot }
                    && crate::manifest::count_live(
                    crate::table::entries_cat(
                        final(storage)@,
                        list_lookup(
                            final(storage)@.manifest_lists,
                            snapshot@.manifest_list,
                        )->Some_0,
                    ),
                ) == crate::manifest::count_live(
                    filter_source_entries(
                        table_metadata@,
                        old(storage)@,
                        branch_view(branch),
                    ),
                ) + files@.len())
            },
            Result::Err(e) => {
                &&& (files@.len() == 0 ==> (e matches Error::NotFound(what, key) && what@
                    == "Bounding"@ && key@ == "rectangle"@ && final(storage)@ == old(storage)@))
                &&& (e is NotFound || e is InvalidFormat || e is IO)
                &&& (append_inputs_ok(
                    table_metadata@,
                    old(storage)@,
                    branch_view(branch),
                    crate::table::files_view(files@),
                ) ==> e is IO)
            },
        },
{
    if files.len() == 0 {
        proof {
            reveal(append_inputs_ok);
        }
        return Result::Err(
            Error::NotFound(String::from_str("Bounding"), String::from_str("rectangle")),
        );
    }
    let ghost md = table_metadata@;
    let ghost st0 = storage@;
    let ghost inputs_ok = append_inputs_ok(
        table_metadata@,
        old(storage)@,
        branch_view(branch),
        crate::table::files_view(files@),
    );
    let branch_str: Option<&str> = match &branch {
        Option::Some(b) => Option::Some(b.as_str()),
        Option::None => Option::None,
    };
    proof {
        assert(crate::table_metadata::opt_name_view(branch_str) == branch_view(branch));
    }
    let spec_fields = match table_metadata.default_partition_spec() {
        Result::Ok(s) => s,
        Result::Err(e) => {
            proof {
                assert(md.wf());
            }
            return Result::Err(e);
        },
    };
    let dim = spec_fields.fields.len();
    proof {
        assert(dim as nat == spec_dim(md));
    }
    let schema_id: i32 = match table_metadata.current_schema(branch_str) {
        Result::Ok(s) => s.schema_id,
        Result::Err(e) => {
            proof {
                if inputs_ok {
                    lemma_append_inputs_facts(
                        md,
                        st0,
                        branch_view(branch),
                        crate::table::files_view(files@),
                    );
                }
            }
            return Result::Err(e);
        },
    };
    let old_snapshot: Option<(i64, i64, String)> = match table_metadata.current_snapshot(
        branch_str,
    ) {
        Result::Ok(Option::Some(s)) => Option::Some(
            (s.snapshot_id, s.sequence_number, s.manifest_list.clone()),
        ),
        Result::Ok(Option::None) => Option::None,
        Result::Err(e) => {
            proof {
                assert(md.wf());
                assert(false) by {
                    match branch_view(branch) {
                        Option::Some(name) => {
                            assert(crate::table_metadata::ref_lookup(md.refs, name) is Some);
                        },
                        Option::None => {},
                    }
                }
            }
            return Result::Err(e);
        },
    };
    let mut i: usize = 0;
    while i < files.len()
        invariant
            i <= files@.len(),
            md == table_metadata@,
            st0 == old(storage)@,
            dim as nat == spec_dim(md),
            inputs_ok == append_inputs_ok(
                table_metadata@,
                old(storage)@,
                branch_view(branch),
                crate::table::files_view(files@),
            ),
            forall|j: int|
                0 <= j < i ==> (#[trigger] crate::table::files_view(files@)[j]).partition.len()
                    == dim as nat,
        decreases files@.len() - i,
    {
        proof {
            assert(crate::table::files_view(files@)[i as int] == files@[i as int]@);
        }
        if files[i].partition.len() != dim {
            proof {
                assert(crate::table::files_view(files@)[i as int].partition.len() != spec_dim(
                    md,
                ));
                if inputs_ok {
                    lemma_append_inputs_facts(
                        md,
                        st0,
                        branch_view(branch),
                        crate::table::files_view(files@),
                    );
                }
            }
            return Result::Err(
                Error::InvalidFormat(String::from_str("partition tuple dimension mismatch")),
            );
        }
        i = i + 1;
    }
    let ghost filesv = crate::table::files_view(files@);
    let new_seq: i64 = match &old_snapshot {
        Option::Some((_, s, _)) => {
            if *s == i64::MAX || *s < 0 {
                proof {
                    assert(md.spec_current_snapshot(branch_view(branch))->Some_0.sequence_number
                        == *s);
                    if inputs_ok {
                        lemma_append_inputs_facts(
                            md,
                            st0,
                            branch_view(branch),
                            crate::table::files_view(files@),
                        );
                    }
                }
                return Result::Err(
                    Error::InvalidFormat(String::from_str("sequence number out of range")),
                );
            }
            *s + 1
        },
        Option::None => 0,
    };
    proof {
        assert(new_seq == next_sequence_number(md, branch_view(branch)));
    }
    let snapshot_id = match generate_snapshot_id() {
        Result::Ok(id) => id,
        Result::Err(e) => {
            return Result::Err(e);
        },
    };
    let uuid = match new_uuid_string() {
        Option::Some(u) => u,
        Option::None => {
            return Result::Err(Error::IO(String::from_str("entropy source unavailable")));
        },
    };

    // The bounding rectangle of the new files, for a partitioned table.
    let file_bounds: Option<crate::tree::Rectangle> = if dim > 0 {
        proof {
            assert(crate::table::files_view(files@)[0] == files@[0]@);
        }
        let mut bounds = crate::tree::Rectangle::from_point(&files[0].partition);
        let mut k: usize = 1;
        while k < files.len()
            invariant
                1 <= k <= files@.len(),
                bounds.wf(),
                bounds.dim() == dim as nat,
                forall|j: int|
                    0 <= j < files@.len() ==> (#[trigger] crate::table::files_view(
                        files@,
                    )[j]).partition.len() == dim as nat,
            decreases files@.len() - k,
        {
            proof {
                assert(crate::table::files_view(files@)[k as int] == files@[k as int]@);
            }
            bounds.expand_with_node(&files[k].partition);
            k = k + 1;
        }
        Option::Some(bounds)
    } else {
        Option::None
    };
    proof {
        assert(file_bounds matches Option::Some(b) ==> b.wf() && b.dim() == dim as nat);
        assert(file_bounds is None ==> dim == 0);
    }

    // Choose the manifest to extend and collect the untouched rest.
    let ghost old_snapshot_view = md.spec_current_snapshot(branch_view(branch));
    let mut selected: Option<ManifestListEntry> = Option::None;
    let mut rest: Vec<ManifestListEntry> = Vec::new();
    let mut existing_file_count: usize = 0;
    let mut selected_file_count: usize = 0;
    let ghost old_list: Seq<ManifestListEntryView> = Seq::empty();
    let ghost sel_index: int = 0;
    match &old_snapshot {
        Option::Some((_, _, list_path)) => {
            let stored = match storage.get_manifest_list(list_path.as_str()) {
                Option::Some(l) => l,
                Option::None => {
                    proof {
                        assert(snapshot_valid(st0, old_snapshot_view->Some_0, spec_dim(md)));
                        assert(false);
                    }
                    return Result::Err(
                        Error::NotFound(
                            String::from_str("Manifest"),
                            String::from_str("list object"),
                        ),
                    );
                },
            };
            proof {
                old_list = mles_view(stored@);
                assert(list_lookup(st0.manifest_lists, old_snapshot_view->Some_0.manifest_list)
                    == Option::Some(old_list));
            }
            let owned = clone_manifest_list(stored);
            let ghost owned_seq = owned@;
            proof {
                assert(mles_view(owned_seq) == old_list);
            }
            if owned.len() > 0 {
                let total128 = crate::tree::total_entries_of(&owned);
                proof {
                    lemma_total_entries_view(owned_seq, owned_seq.len() as int);
                    assert(mles_view(owned_seq) == old_list);
                    assert(total128 as int == sum_total_counts(old_list, old_list.len() as int));
                }
                if total128 > usize::MAX as u128 {
                    proof {
                        if inputs_ok {
                            lemma_append_inputs_facts(
                            md,
                            st0,
                            branch_view(branch),
                            crate::table::files_view(files@),
                        );
                            assert(u32::MAX as int <= usize::MAX as int);
                            assert(false);
                        }
                    }
                    return Result::Err(
                        Error::InvalidFormat(String::from_str("file population out of range")),
                    );
                }
                let sel_result = match &file_bounds {
                    Option::None => crate::tree::select_manifest_unpartitioned(owned),
                    Option::Some(bounds) => crate::tree::select_manifest_partitioned(
                        owned,
                        bounds,
                    ),
                };
                let (sel, others) = match sel_result {
                    Result::Ok(x) => x,
                    Result::Err(e) => {
                        proof {
                            if inputs_ok {
                                lemma_append_inputs_facts(
                                    md,
                                    st0,
                                    branch_view(branch),
                                    crate::table::files_view(files@),
                                );
                                assert(owned_seq.len() > 0);
                                match file_bounds {
                                    Option::None => {
                                        assert(false);
                                    },
                                    Option::Some(b) => {
                                        assert(b.dim() == dim as nat);
                                        lemma_summaries_transfer(
                                            owned_seq,
                                            old_list,
                                            spec_dim(md),
                                        );
                                        assert(false);
                                    },
                                }
                            }
                        }
                        return Result::Err(e);
                    },
                };
                let live = crate::tree::mle_live_exec(&sel.manifest);
                proof {
                    let i0 = choose|i0: int|
                        {
                            &&& 0 <= i0 < owned_seq.len()
                            &&& #[trigger] sel.manifest@ == owned_seq[i0]@
                            &&& forall|j: int|
                                0 <= j < i0 ==> #[trigger] others@[j]@ == owned_seq[j]@
                            &&& forall|j: int|
                                i0 <= j < others@.len() ==> #[trigger] others@[j]@ == owned_seq[
                                    j + 1
                                ]@
                        };
                    sel_index = i0;
                    assert(old_list[i0] == mles_view(owned_seq)[i0]);
                    assert(mles_view(owned_seq)[i0] == owned_seq[i0]@);
                    assert(sel.manifest@ == old_list[i0]);
                    assert forall|j: int| 0 <= j < i0 implies #[trigger] mles_view(others@)[j]
                        == old_list[j] by {
                        assert(mles_view(others@)[j] == others@[j]@);
                        assert(old_list[j] == mles_view(owned_seq)[j]);
                    }
                    assert forall|j: int| i0 <= j < mles_view(others@).len() implies #[trigger] mles_view(
                        others@,
                    )[j] == old_list[j + 1] by {
                        assert(mles_view(others@)[j] == others@[j]@);
                        assert(old_list[j + 1] == mles_view(owned_seq)[j + 1]);
                    }
                    lemma_total_counts_bound(old_list, old_list.len() as int, sel_index);
                }
                if live > usize::MAX as u64 {
                    proof {
                        if inputs_ok {
                            lemma_append_inputs_facts(
                            md,
                            st0,
                            branch_view(branch),
                            crate::table::files_view(files@),
                        );
                            lemma_total_counts_bound(old_list, old_list.len() as int, sel_index);
                            assert(u32::MAX as int <= usize::MAX as int);
                            assert(false);
                        }
                    }
                    return Result::Err(
                        Error::InvalidFormat(String::from_str("file population out of range")),
                    );
                }
                existing_file_count = sel.file_count_all_entries;
                selected_file_count = live as usize;
                selected = Option::Some(sel.manifest);
                rest = others;
            }
        },
        Option::None => {},
    }
    let ghost restv = mles_view(rest@);
    proof {
        // Each untouched manifest is one of the old list's, so its facts
        // carry over from the old snapshot's consistency.
        if old_snapshot_view is Some {
            assert(snapshot_valid(st0, old_snapshot_view->Some_0, spec_dim(md)));
        }
        assert forall|j: int| 0 <= j < restv.len() implies exists|j0: int|
            0 <= j0 < old_list.len() && old_list[j0] == #[trigger] restv[j] by {
            if j < sel_index {
                assert(old_list[j] == restv[j]);
            } else {
                assert(old_list[j + 1] == restv[j]);
            }
        }
        assert(selected is None ==> old_list.len() == 0 && restv.len() == 0);
        assert(selected is Some ==> {
            &&& 0 <= sel_index < old_list.len()
            &&& old_list.len() == restv.len() + 1
            &&& old_list[sel_index] == selected->Some_0@
            &&& (forall|j: int| 0 <= j < sel_index ==> #[trigger] restv[j] == old_list[j])
            &&& (forall|j: int|
                sel_index <= j < restv.len() ==> #[trigger] restv[j] == old_list[j + 1])
        });
        assert(old_snapshot_view is Some ==> list_lookup(
            st0.manifest_lists,
            old_snapshot_view->Some_0.manifest_list,
        ) == Option::Some(old_list));
        assert(old_snapshot_view is None ==> old_list.len() == 0);
        assert(selected is None ==> existing_file_count == 0 && selected_file_count == 0);
        assert(selected is Some ==> existing_file_count as int == sum_total_counts(
            old_list,
            old_list.len() as int,
        ) && selected_file_count as int <= crate::tree::mle_total(old_list[sel_index]));
    }

    // Work out how many manifests the combined entries are split into.
    if existing_file_count as u128 + files.len() as u128 > u64::MAX as u128 {
        proof {
            if inputs_ok {
                lemma_append_inputs_facts(
                    md,
                    st0,
                    branch_view(branch),
                    crate::table::files_view(files@),
                );
                lemma_sum_total_nonneg(old_list, old_list.len() as int);
                assert(false);
            }
        }
        return Result::Err(
            Error::InvalidFormat(String::from_str("file population out of range")),
        );
    }
    if selected_file_count as u128 + files.len() as u128 > u64::MAX as u128 {
        proof {
            if inputs_ok {
                lemma_append_inputs_facts(
                    md,
                    st0,
                    branch_view(branch),
                    crate::table::files_view(files@),
                );
                if selected is Some {
                    lemma_total_counts_bound(old_list, old_list.len() as int, sel_index);
                }
                lemma_sum_total_nonneg(old_list, old_list.len() as int);
                assert(false);
            }
        }
        return Result::Err(
            Error::InvalidFormat(String::from_str("file population out of range")),
        );
    }
    let new_file_count = files.len();
    let n_splits = crate::tree::compute_n_splits(
        existing_file_count,
        new_file_count,
        selected_file_count,
    );

    // Gather the new and inherited entries.
    let new_entries = entries_from_files(files, snapshot_id, Option::None);
    let (all_entries, split_bounds) = match &selected {
        Option::Some(sel_mle) => {
            let stored = match storage.get_manifest(sel_mle.manifest_path.as_str()) {
                Option::Some(es) => es,
                Option::None => {
                    proof {
                        assert(snapshot_valid(st0, old_snapshot_view->Some_0, spec_dim(md)));
                        assert(sel_mle@ == old_list[sel_index]);
                        assert(false);
                    }
                    return Result::Err(
                        Error::NotFound(
                            String::from_str("Manifest"),
                            sel_mle.manifest_path.clone(),
                        ),
                    );
                },
            };
            proof {
                assert(snapshot_valid(st0, old_snapshot_view->Some_0, spec_dim(md)));
                assert(sel_mle@ == old_list[sel_index]);
                assert(crate::manifest::entries_have_dim(
                    entries_view(stored@),
                    dim as nat,
                )) by {
                    assert(manifest_consistent(
                        old_list[sel_index],
                        manifest_lookup(st0.manifests, old_list[sel_index].manifest_path)->Some_0,
                        dim as nat,
                    ));
                }
            }
            let owned_entries = clone_entries(stored);
            proof {
                assert(manifest_lookup(st0.manifests, old_list[sel_index].manifest_path)
                    == Option::Some(entries_view(stored@)));
            }
            let inherited = match inherit_entries(&owned_entries, table_metadata, new_seq) {
                Result::Ok(v) => v,
                Result::Err(e) => {
                    proof {
                        if inputs_ok {
                            lemma_append_inputs_facts(
                                md,
                                st0,
                                branch_view(branch),
                                crate::table::files_view(files@),
                            );
                            let osv = old_snapshot_view->Some_0;
                            let es = entries_view(stored@);
                            assert(entries_provenance_ok(md, es, osv.sequence_number as int));
                            lemma_provenance_relax(
                                md,
                                es,
                                osv.sequence_number as int,
                                new_seq as int,
                            );
                            assert(entries_view(owned_entries@) == es);
                            assert(false);
                        }
                    }
                    return Result::Err(e);
                },
            };
            let bounds: crate::tree::Rectangle = match &file_bounds {
                Option::Some(fb) => {
                    let summary = match &sel_mle.partitions {
                        Option::Some(s) => s,
                        Option::None => {
                            proof {
                                if inputs_ok {
                                    lemma_append_inputs_facts(
                                md,
                                st0,
                                branch_view(branch),
                                crate::table::files_view(files@),
                            );
                                    assert(old_list[sel_index].partitions is Some);
                                    assert(false);
                                }
                            }
                            return Result::Err(
                                Error::InvalidFormat(
                                    String::from_str("manifest without partition summary"),
                                ),
                            );
                        },
                    };
                    let rect = match crate::tree::summary_to_rectangle(summary) {
                        Result::Ok(rect) => rect,
                        Result::Err(e) => {
                            proof {
                                if inputs_ok {
                                    lemma_append_inputs_facts(
                                md,
                                st0,
                                branch_view(branch),
                                crate::table::files_view(files@),
                            );
                                    assert(crate::tree::summary_wf(
                                        old_list[sel_index].partitions->Some_0,
                                        spec_dim(md),
                                    ));
                                    assert(false);
                                }
                            }
                            return Result::Err(e);
                        },
                    };
                    if rect.min.len() != dim {
                        proof {
                            if inputs_ok {
                                lemma_append_inputs_facts(
                                md,
                                st0,
                                branch_view(branch),
                                crate::table::files_view(files@),
                            );
                                assert(crate::tree::summary_wf(
                                    old_list[sel_index].partitions->Some_0,
                                    spec_dim(md),
                                ));
                                assert(false);
                            }
                        }
                        return Result::Err(
                            Error::InvalidFormat(
                                String::from_str("partition summary dimension mismatch"),
                            ),
                        );
                    }
                    rect.expanded_copy(fb)
                },
                Option::None => crate::tree::Rectangle { min: Vec::new(), max: Vec::new() },
            };
            let ghost nv = entries_view(new_entries@);
            let ghost inhv = entries_view(inherited@);
            let ghost ownedv = entries_view(owned_entries@);
            let combined = concat_entries(new_entries, inherited);
            proof {
                let cv = entries_view(combined@);
                assert(cv == nv + inhv);
                crate::laws::lemma_count_live_concat(nv, inhv);
                assert forall|k: int| 0 <= k < nv.len() implies (#[trigger] nv[k]).is_live() by {}
                lemma_count_live_all(nv, nv.len() as int);
                assert forall|k: int| 0 <= k < inhv.len() implies (#[trigger] inhv[k]).is_live()
                    == ownedv[k].is_live() by {}
                lemma_count_live_pointwise(inhv, ownedv, inhv.len() as int);
                assert(crate::manifest::count_live(cv) == nv.len()
                    + crate::manifest::count_live(ownedv));
                assert(manifest_lookup(st0.manifests, sel_mle.manifest_path@) == Option::Some(
                    entries_view(stored@),
                ));
                assert(crate::manifest::count_live(cv) == filesv.len()
                    + crate::manifest::count_live(
                    manifest_lookup(st0.manifests, sel_mle.manifest_path@)->Some_0,
                ));
                assert forall|k: int| 0 <= k < cv.len() implies {
                    let e = #[trigger] cv[k];
                    &&& e.data_file.partition.len() == dim as nat
                    &&& (e.sequence_number is Some ==> e.sequence_number->Some_0 <= new_seq)
                } by {
                    if k < nv.len() {
                        assert(cv[k] == nv[k]);
                        assert(nv[k].data_file == filesv[k]);
                        assert(filesv[k].partition.len() == dim as nat);
                    } else {
                        let k2 = k - nv.len();
                        assert(cv[k] == inhv[k2]);
                        assert(inhv[k2].data_file == ownedv[k2].data_file);
                        assert(ownedv[k2].data_file.partition.len() == dim as nat);
                    }
                }
                assert(bounds.wf());
                assert(dim > 0 ==> bounds.dim() == dim as nat);
                assert(dim == 0 ==> bounds.dim() == 0);
            }
            (combined, bounds)
        },
        Option::None => {
            let bounds: crate::tree::Rectangle = match file_bounds {
                Option::Some(fb) => fb,
                Option::None => crate::tree::Rectangle { min: Vec::new(), max: Vec::new() },
            };
            proof {
                let cv = entries_view(new_entries@);
                assert forall|k: int| 0 <= k < cv.len() implies {
                    let e = #[trigger] cv[k];
                    &&& e.data_file.partition.len() == dim as nat
                    &&& (e.sequence_number is Some ==> e.sequence_number->Some_0 <= new_seq)
                } by {
                    assert(cv[k].data_file == filesv[k]);
                    assert(filesv[k].partition.len() == dim as nat);
                }
                assert forall|k: int| 0 <= k < cv.len() implies (#[trigger] cv[k]).is_live() by {}
                lemma_count_live_all(cv, cv.len() as int);
                assert(bounds.wf());
                assert(dim > 0 ==> bounds.dim() == dim as nat);
                assert(dim == 0 ==> bounds.dim() == 0);
            }
            (new_entries, bounds)
        },
    };
    if all_entries.len() > u32::MAX as usize {
        proof {
            if inputs_ok {
                lemma_append_inputs_facts(
                    md,
                    st0,
                    branch_view(branch),
                    crate::table::files_view(files@),
                );
                match &selected {
                    Option::Some(sel_mle) => {
                        let es = manifest_lookup(
                            st0.manifests,
                            old_list[sel_index].manifest_path,
                        )->Some_0;
                        assert(manifest_consistent(old_list[sel_index], es, spec_dim(md)));
                        lemma_consistent_len(old_list[sel_index], es, spec_dim(md));
                        lemma_total_counts_bound(old_list, old_list.len() as int, sel_index);
                    },
                    Option::None => {},
                }
                assert(false);
            }
        }
        return Result::Err(
            Error::InvalidFormat(String::from_str("manifest population out of range")),
        );
    }
    let ghost all_seq = all_entries@;
    let ghost allv = entries_view(all_entries@);
    let ghost old_sel_live: int = if selected is Some {
        crate::manifest::count_live(
            manifest_lookup(st0.manifests, selected->Some_0.manifest_path@)->Some_0,
        )
    } else {
        0
    };
    proof {
        assert(crate::manifest::entries_have_dim(allv, dim as nat));
        assert(crate::manifest::entries_have_dim(allv, split_bounds.dim())) by {
            if dim > 0 {
                assert(split_bounds.dim() == dim as nat);
            } else {
                assert(split_bounds.dim() == 0);
            }
        }
        assert(entries_seq_bounded(allv, new_seq));
        assert(allv.len() <= u32::MAX);
        assert(crate::manifest::count_live(allv) == filesv.len() + old_sel_live);
    }

    // Split when the limit is exceeded, then write the manifests.
    let groups: Vec<Vec<ManifestEntry>> = if n_splits == 0 {
        let mut g: Vec<Vec<ManifestEntry>> = Vec::new();
        g.push(all_entries);
        proof {
            assert(crate::tree::groups_flat(g@) =~= all_seq) by {
                let mapped = g@.map_values(|v: Vec<ManifestEntry>| v@);
                assert(mapped =~= seq![all_seq]);
                seq![all_seq].lemma_flatten_one_element();
            }
        }
        g
    } else {
        proof {
            lemma_split_fits(
                existing_file_count as nat,
                new_file_count as nat,
                selected_file_count as nat,
                n_splits as nat,
            );
        }
        crate::tree::split_datafiles(all_entries, &split_bounds, n_splits)
    };
    proof {
        if n_splits > 0 {
            lemma_groups_entries_from_input(groups@, all_seq);
        }
        assert(entries_view(crate::tree::groups_flat(groups@)).to_multiset() == entries_view(
            all_seq,
        ).to_multiset()) by {
            if n_splits == 0 {
                assert(crate::tree::groups_flat(groups@) == all_seq);
            }
        }
        assert forall|g: int| 0 <= g < groups@.len() implies {
            &&& crate::manifest::entries_have_dim(
                entries_view((#[trigger] groups@[g])@),
                dim as nat,
            )
            &&& groups@[g]@.len() <= u32::MAX
            &&& entries_seq_bounded(entries_view(groups@[g]@), new_seq)
        } by {
            if n_splits == 0 {
                assert(groups@[g]@ == all_seq);
                assert(entries_view(groups@[g]@) == allv);
                if allv.len() > 0 {
                    assert(allv[0].data_file.partition.len() == split_bounds.dim());
                }
                assert(crate::manifest::entries_have_dim(entries_view(groups@[g]@), dim as nat));
            } else {
                assert(crate::manifest::entries_have_dim(
                    entries_view(groups@[g]@),
                    split_bounds.dim(),
                ));
                assert forall|k: int| 0 <= k < entries_view(groups@[g]@).len() implies {
                    let e = #[trigger] entries_view(groups@[g]@)[k];
                    &&& e.data_file.partition.len() == dim as nat
                    &&& (e.sequence_number is Some ==> e.sequence_number->Some_0 <= new_seq)
                } by {
                    assert(group_entry_from_input(groups@, all_seq, g, k));
                    let i0 = choose|i0: int|
                        0 <= i0 < all_seq.len() && all_seq[i0]@ == groups@[g]@[k]@;
                    assert(allv[i0] == all_seq[i0]@);
                    assert(entries_view(groups@[g]@)[k] == groups@[g]@[k]@);
                }
            }
        }
    }
    let ghost groups_seq = groups@;
    let location = table_metadata.location.clone();
    let new_mles = match write_groups(
        groups,
        storage,
        location.as_str(),
        uuid.as_str(),
        new_seq,
        dim,
        Ghost(new_seq),
    ) {
        Result::Ok(v) => v,
        Result::Err(e) => {
            proof {
                crate::storage::lemma_le_trans(st0, st0, storage@);
            }
            return Result::Err(e);
        },
    };
    let ghost st1 = storage@;
    let ghost newv = mles_view(new_mles@);

    // Assemble the new manifest list and write it.
    let full_list = concat_mles(rest, new_mles);
    let ghost fullv = mles_view(full_list@);
    let list_path = manifest_list_path(location.as_str(), snapshot_id, uuid.as_str());
    match storage.put_manifest_list(list_path.clone(), full_list) {
        Result::Ok(()) => {},
        Result::Err(e) => {
            proof {
                crate::storage::lemma_le_trans(st0, st1, storage@);
            }
            return Result::Err(e);
        },
    }
    let ghost st2 = storage@;
    proof {
        crate::storage::lemma_le_trans(st0, st1, st2);
    }

    // Build the snapshot and the commit the catalog will verify and apply.
    let other: Vec<(String, String)> = match &additional_summary {
        Option::Some(v) => clone_kv(v),
        Option::None => Vec::new(),
    };
    let snapshot = crate::snapshot::Snapshot {
        snapshot_id,
        parent_snapshot_id: match &old_snapshot {
            Option::Some((oid, _, _)) => Option::Some(*oid),
            Option::None => Option::None,
        },
        sequence_number: new_seq,
        timestamp_ms,
        manifest_list: list_path,
        summary: Summary {
            operation: crate::snapshot::SnapshotOperation::Append,
            other,
            sources: Vec::new(),
        },
        schema_id: Option::Some(schema_id),
    };
    let ghost sv = snapshot@;
    proof {
        assert(sv.summary.other =~= summary_other_view(additional_summary));
        assert(sv.summary.sources =~= Seq::<crate::snapshot::SourceTableView>::empty());
        let ghost sel_view: Option<ManifestListEntryView> = match &selected {
            Option::Some(m) => Option::Some(m@),
            Option::None => Option::None,
        };
        lemma_append_snapshot_facts(
            st0,
            st1,
            st2,
            old_list,
            restv,
            newv,
            fullv,
            sel_view,
            sel_index,
            groups_seq,
            all_seq,
            filesv.len() as int,
            old_sel_live,
            old_snapshot_view,
            sv,
            dim as nat,
        );
        if old_snapshot_view is Some {
            assert(filter_source_entries(md, st0, branch_view(branch))
                == crate::table::entries_cat(st0, old_list));
        } else {
            assert(filter_source_entries(md, st0, branch_view(branch)) =~= Seq::<
                ManifestEntryView,
            >::empty());
        }
    }
    let reference = SnapshotReference {
        snapshot_id,
        retention: crate::snapshot::SnapshotRetention::default(),
    };
    let set_ref = TableUpdate::SetSnapshotRef {
        ref_name: branch_name(&branch),
        snapshot_reference: reference,
    };
    let req: Option<TableRequirement> = match &old_snapshot {
        Option::Some((oid, _, _)) => Option::Some(
            TableRequirement::AssertRefSnapshotId {
                ref_name: branch_name(&branch),
                snapshot_id: *oid,
            },
        ),
        Option::None => Option::None,
    };
    let mut ups: Vec<TableUpdate> = Vec::new();
    ups.push(TableUpdate::AddSnapshot { snapshot });
    ups.push(set_ref);
    proof {
        assert(md.wf());
        lemma_schema_lookup_id(md.schemas, md.effective_schema_id(branch_view(branch)));
        assert(sv.schema_id == Option::Some(md.effective_schema_id(branch_view(branch))));
        assert(sv.parent_snapshot_id == md.head_snapshot_id(branch_view(branch)));
        assert(sv.sequence_number == next_sequence_number(md, branch_view(branch)));
        assert(sv.summary.other == summary_other_view(additional_summary));
        assert(snapshot_valid(final(storage)@, sv, spec_dim(md)));
        assert(ups@.len() == 2);
        assert(ups@[0] == (TableUpdate::AddSnapshot { snapshot }));
        assert(ups@[1] == set_ref);
    }
    Result::Ok((req, ups))
}

/// The ids of a list of snapshots.
pub open spec fn snapshot_ids_of(svs: Seq<crate::snapshot::SnapshotView>) -> Seq<i64> {
    svs.map_values(|s: crate::snapshot::SnapshotView| s.snapshot_id)
}

/// Fresh manifests holding exactly the added entries of the given files
/// make the files the snapshot's whole live set.
proof fn lemma_rewrite_live_set(
    st: crate::storage::TableStorageView,
    fullv: Seq<ManifestListEntryView>,
    groups_seq: Seq<Vec<ManifestEntry>>,
    all_seq: Seq<ManifestEntry>,
    filesv: Seq<crate::manifest::DataFileView>,
)
    requires
        fullv.len() == groups_seq.len(),
        forall|j: int|
            0 <= j < fullv.len() ==> manifest_lookup(
                st.manifests,
                (#[trigger] fullv[j]).manifest_path,
            ) == Option::Some(entries_view(groups_seq[j]@)),
        entries_view(crate::tree::groups_flat(groups_seq)).to_multiset() == entries_view(
            all_seq,
        ).to_multiset(),
        entries_view(all_seq).len() == filesv.len(),
        forall|k: int|
            0 <= k < all_seq.len() ==> (#[trigger] entries_view(all_seq)[k]).status
                == Status::Added,
        forall|k: int|
            0 <= k < all_seq.len() ==> (#[trigger] entries_view(all_seq)[k]).data_file == filesv[
                k
            ],
    ensures
        crate::table::live_paths(crate::table::entries_cat(st, fullv)).to_multiset()
            == crate::table::file_paths(filesv).to_multiset(),
{
    let ess = groups_seq.map_values(|g: Vec<ManifestEntry>| entries_view(g@));
    assert(fullv.len() == ess.len());
    assert forall|j: int| 0 <= j < fullv.len() implies manifest_lookup(
        st.manifests,
        (#[trigger] fullv[j]).manifest_path,
    ) == Option::Some(ess[j]) by {
        assert(ess[j] == entries_view(groups_seq[j]@));
    }
    lemma_entries_cat_exact(st, fullv, ess);
    ess.lemma_flatten_and_flatten_alt_are_equivalent();
    lemma_entries_view_flatten(groups_seq);
    let cat = crate::table::entries_cat(st, fullv);
    assert(cat == entries_view(crate::tree::groups_flat(groups_seq)));
    assert(cat.to_multiset() == entries_view(all_seq).to_multiset());
    assert forall|k: int| 0 <= k < cat.len() implies (#[trigger] cat[k]).is_live() by {
        broadcast use vstd::seq_lib::group_to_multiset_ensures;

        assert(cat.contains(cat[k]));
        assert(cat.to_multiset().count(cat[k]) > 0);
        assert(entries_view(all_seq).to_multiset().count(cat[k]) > 0);
        assert(entries_view(all_seq).contains(cat[k]));
        let i0 = choose|i0: int|
            0 <= i0 < entries_view(all_seq).len() && entries_view(all_seq)[i0] == cat[k];
        assert(entries_view(all_seq)[i0].status == Status::Added);
    }
    lemma_filter_all_kept(cat, |e: ManifestEntryView| e.is_live());
    assert(crate::table::live_entries(cat) == cat);
    lemma_paths_multiset(cat, entries_view(all_seq));
    assert(crate::table::entry_paths(entries_view(all_seq)) =~= crate::table::file_paths(filesv));
}

/// Compiles a rewrite: replaces every file of the table with the given
/// ones, dropping all prior snapshots. The new snapshot starts the sequence
/// numbering over at zero.
#[verifier::rlimit(100)]
pub fn rewrite_execute(
    branch: Option<String>,
    files: Vec<DataFile>,
    additional_summary: Option<Vec<(String, String)>>,
    sources: Vec<SourceTable>,
    table_metadata: &TableMetadata,
    storage: &mut TableStorage,
    timestamp_ms: i64,
) -> (r: Result<(Option<TableRequirement>, Vec<TableUpdate>), Error>)
    requires
        table_valid(table_metadata@, old(storage)@),
    ensures
        old(storage)@.le(&final(storage)@),
        match r {
            Result::Ok((req, ups)) => {
                &&& files@.len() > 0
                &&& ups@.len() == 3
                &&& ups@[0] matches TableUpdate::RemoveSnapshots { snapshot_ids }
                    && snapshot_ids@ == snapshot_ids_of(table_metadata@.snapshots)
                &&& snapshot_commit_shape(
                    table_metadata@,
                    final(storage)@,
                    branch,
                    additional_summary,
                    sources_view(sources@),
                    0,
                    crate::snapshot::SnapshotOperation::Replace,
                    timestamp_ms,
                    req,
                    ups@[1],
                    ups@[2],
                )
                &&& (ups@[1] matches TableUpdate::AddSnapshot { snapshot }
                    && crate::table::live_paths(
                    crate::table::entries_cat(
                        final(storage)@,
                        list_lookup(
                            final(storage)@.manifest_lists,
                            snapshot@.manifest_list,
                        )->Some_0,
                    ),
                ).to_multiset() == crate::table::file_paths(
                    crate::table::files_view(files@),
                ).to_multiset())
            },
            Result::Err(e) => {
                &&& (files@.len() == 0 ==> (e matches Error::NotFound(what, key) && what@
                    == "Bounding"@ && key@ == "rectangle"@ && final(storage)@ == old(storage)@))
                &&& (e is NotFound || e is InvalidFormat || e is IO)
                &&& (rewrite_inputs_ok(
                    table_metadata@,
                    branch_view(branch),
                    crate::table::files_view(files@),
                ) ==> e is IO)
            },
        },
{
    if files.len() == 0 {
        return Result::Err(
            Error::NotFound(String::from_str("Bounding"), String::from_str("rectangle")),
        );
    }
    let ghost md = table_metadata@;
    let ghost st0 = storage@;
    let ghost inputs_ok = rewrite_inputs_ok(
        table_metadata@,
        branch_view(branch),
        crate::table::files_view(files@),
    );
    let branch_str: Option<&str> = match &branch {
        Option::Some(b) => Option::Some(b.as_str()),
        Option::None => Option::None,
    };
    proof {
        assert(crate::table_metadata::opt_name_view(branch_str) == branch_view(branch));
    }
    let spec_fields = match table_metadata.default_partition_spec() {
        Result::Ok(s) => s,
        Result::Err(e) => {
            proof {
                assert(md.wf());
            }
            return Result::Err(e);
        },
    };
    let dim = spec_fields.fields.len();
    proof {
        assert(dim as nat == spec_dim(md));
    }
    let schema_id: i32 = match table_metadata.current_schema(branch_str) {
        Result::Ok(s) => s.schema_id,
        Result::Err(e) => {
            proof {
                if inputs_ok {
                    lemma_append_inputs_facts(
                        md,
                        st0,
                        branch_view(branch),
                        crate::table::files_view(files@),
                    );
                }
            }
            return Result::Err(e);
        },
    };
    let old_snapshot: Option<(i64, i64)> = match table_metadata.current_snapshot(branch_str) {
        Result::Ok(Option::Some(s)) => Option::Some((s.snapshot_id, s.sequence_number)),
        Result::Ok(Option::None) => Option::None,
        Result::Err(e) => {
            proof {
                assert(md.wf());
                assert(false) by {
                    match branch_view(branch) {
                        Option::Some(name) => {
                            assert(crate::table_metadata::ref_lookup(md.refs, name) is Some);
                        },
                        Option::None => {},
                    }
                }
            }
            return Result::Err(e);
        },
    };
    let mut i: usize = 0;
    while i < files.len()
        invariant
            i <= files@.len(),
            md == table_metadata@,
            dim as nat == spec_dim(md),
            inputs_ok == rewrite_inputs_ok(
                table_metadata@,
                branch_view(branch),
                crate::table::files_view(files@),
            ),
            forall|j: int|
                0 <= j < i ==> (#[trigger] crate::table::files_view(files@)[j]).partition.len()
                    == dim as nat,
        decreases files@.len() - i,
    {
        proof {
            assert(crate::table::files_view(files@)[i as int] == files@[i as int]@);
        }
        if files[i].partition.len() != dim {
            proof {
                assert(crate::table::files_view(files@)[i as int].partition.len() != spec_dim(
                    md,
                ));
                assert(!inputs_ok);
            }
            return Result::Err(
                Error::InvalidFormat(String::from_str("partition tuple dimension mismatch")),
            );
        }
        i = i + 1;
    }
    let ghost filesv = crate::table::files_view(files@);
    let snapshot_id = match generate_snapshot_id() {
        Result::Ok(id) => id,
        Result::Err(e) => {
            return Result::Err(e);
        },
    };
    let uuid = match new_uuid_string() {
        Option::Some(u) => u,
        Option::None => {
            return Result::Err(Error::IO(String::from_str("entropy source unavailable")));
        },
    };

    let split_bounds: crate::tree::Rectangle = if dim > 0 {
        proof {
            assert(crate::table::files_view(files@)[0] == files@[0]@);
        }
        let mut bounds = crate::tree::Rectangle::from_point(&files[0].partition);
        let mut k: usize = 1;
        while k < files.len()
            invariant
                1 <= k <= files@.len(),
                bounds.wf(),
                bounds.dim() == dim as nat,
                forall|j: int|
                    0 <= j < files@.len() ==> (#[trigger] crate::table::files_view(
                        files@,
                    )[j]).partition.len() == dim as nat,
            decreases files@.len() - k,
        {
            proof {
                assert(crate::table::files_view(files@)[k as int] == files@[k as int]@);
            }
            bounds.expand_with_node(&files[k].partition);
            k = k + 1;
        }
        bounds
    } else {
        crate::tree::Rectangle { min: Vec::new(), max: Vec::new() }
    };

    let new_file_count = files.len();
    if new_file_count > u32::MAX as usize {
        proof {
            assert(!inputs_ok);
        }
        return Result::Err(
            Error::InvalidFormat(String::from_str("manifest population out of range")),
        );
    }
    let n_splits = crate::tree::compute_n_splits(0, new_file_count, 0);
    let all_entries = entries_from_files(files, snapshot_id, Option::Some(0));
    let ghost all_seq = all_entries@;
    let ghost allv = entries_view(all_entries@);
    proof {
        assert forall|k: int| 0 <= k < allv.len() implies {
            let e = #[trigger] allv[k];
            &&& e.data_file.partition.len() == dim as nat
            &&& (e.sequence_number is Some ==> e.sequence_number->Some_0 <= 0)
        } by {
            assert(allv[k].data_file == filesv[k]);
        }
        assert(crate::manifest::entries_have_dim(allv, split_bounds.dim()));
        assert(entries_seq_bounded(allv, 0));
    }
    let groups: Vec<Vec<ManifestEntry>> = if n_splits == 0 {
        let mut g: Vec<Vec<ManifestEntry>> = Vec::new();
        g.push(all_entries);
        proof {
            assert(crate::tree::groups_flat(g@) =~= all_seq) by {
                let mapped = g@.map_values(|v: Vec<ManifestEntry>| v@);
                assert(mapped =~= seq![all_seq]);
                seq![all_seq].lemma_flatten_one_element();
            }
        }
        g
    } else {
        proof {
            lemma_split_fits(0, new_file_count as nat, 0, n_splits as nat);
        }
        crate::tree::split_datafiles(all_entries, &split_bounds, n_splits)
    };
    proof {
        if n_splits > 0 {
            lemma_groups_entries_from_input(groups@, all_seq);
        }
        assert(entries_view(crate::tree::groups_flat(groups@)).to_multiset() == entries_view(
            all_seq,
        ).to_multiset()) by {
            if n_splits == 0 {
                assert(crate::tree::groups_flat(groups@) == all_seq);
            }
        }
        assert forall|g: int| 0 <= g < groups@.len() implies {
            &&& crate::manifest::entries_have_dim(
                entries_view((#[trigger] groups@[g])@),
                dim as nat,
            )
            &&& groups@[g]@.len() <= u32::MAX
            &&& entries_seq_bounded(entries_view(groups@[g]@), 0)
        } by {
            if n_splits == 0 {
                assert(groups@[g]@ == all_seq);
                assert(entries_view(groups@[g]@) == allv);
            } else {
                assert forall|k: int| 0 <= k < entries_view(groups@[g]@).len() implies {
                    let e = #[trigger] entries_view(groups@[g]@)[k];
                    &&& e.data_file.partition.len() == dim as nat
                    &&& (e.sequence_number is Some ==> e.sequence_number->Some_0 <= 0)
                } by {
                    assert(group_entry_from_input(groups@, all_seq, g, k));
                    let i0 = choose|i0: int|
                        0 <= i0 < all_seq.len() && all_seq[i0]@ == groups@[g]@[k]@;
                    assert(allv[i0] == all_seq[i0]@);
                    assert(entries_view(groups@[g]@)[k] == groups@[g]@[k]@);
                }
            }
        }
    }
    let ghost groups_seq = groups@;
    let location = table_metadata.location.clone();
    let new_mles = match write_groups(
        groups,
        storage,
        location.as_str(),
        uuid.as_str(),
        0,
        dim,
        Ghost(0),
    ) {
        Result::Ok(v) => v,
        Result::Err(e) => {
            return Result::Err(e);
        },
    };
    let ghost st1 = storage@;
    let ghost newv = mles_view(new_mles@);
    let list_path = manifest_list_path(location.as_str(), snapshot_id, uuid.as_str());
    let ghost fullv = mles_view(new_mles@);
    match storage.put_manifest_list(list_path.clone(), new_mles) {
        Result::Ok(()) => {},
        Result::Err(e) => {
            proof {
                crate::storage::lemma_le_trans(st0, st1, storage@);
            }
            return Result::Err(e);
        },
    }
    let ghost st2 = storage@;
    proof {
        crate::storage::lemma_le_trans(st0, st1, st2);
    }

    let other: Vec<(String, String)> = match &additional_summary {
        Option::Some(v) => clone_kv(v),
        Option::None => Vec::new(),
    };
    let snapshot = crate::snapshot::Snapshot {
        snapshot_id,
        parent_snapshot_id: match &old_snapshot {
            Option::Some((oid, _)) => Option::Some(*oid),
            Option::None => Option::None,
        },
        sequence_number: 0,
        timestamp_ms,
        manifest_list: list_path,
        summary: Summary {
            operation: crate::snapshot::SnapshotOperation::Replace,
            other,
            sources: clone_sources(&sources),
        },
        schema_id: Option::Some(schema_id),
    };
    let ghost sv = snapshot@;
    proof {
        assert(sv.summary.other =~= summary_other_view(additional_summary));
        assert(sv.summary.sources == sources_view(sources@));
        assert(snapshot_valid(st2, sv, dim as nat)) by {
            assert(list_lookup(st2.manifest_lists, sv.manifest_list) == Option::Some(fullv));
            assert forall|j: int| 0 <= j < fullv.len() implies {
                let mv = #[trigger] fullv[j];
                &&& manifest_lookup(st2.manifests, mv.manifest_path) is Some
                &&& manifest_consistent(
                    mv,
                    manifest_lookup(st2.manifests, mv.manifest_path)->Some_0,
                    dim as nat,
                )
                &&& mv.sequence_number <= sv.sequence_number
                &&& entries_seq_bounded(
                    manifest_lookup(st2.manifests, mv.manifest_path)->Some_0,
                    sv.sequence_number,
                )
            } by {
                assert(newv[j] == fullv[j]);
                assert(manifest_lookup(st1.manifests, newv[j].manifest_path) is Some);
                assert(manifest_lookup(st2.manifests, fullv[j].manifest_path)
                    == manifest_lookup(st1.manifests, newv[j].manifest_path));
            }
        }
        // The live set of the new snapshot is exactly the given files.
        assert forall|j: int| 0 <= j < fullv.len() implies manifest_lookup(
            st2.manifests,
            (#[trigger] fullv[j]).manifest_path,
        ) == Option::Some(entries_view(groups_seq[j]@)) by {
            assert(manifest_lookup(st1.manifests, fullv[j].manifest_path) == Option::Some(
                entries_view(groups_seq[j]@),
            ));
            assert(manifest_lookup(st2.manifests, fullv[j].manifest_path) == manifest_lookup(
                st1.manifests,
                fullv[j].manifest_path,
            ));
        }
        lemma_rewrite_live_set(st2, fullv, groups_seq, all_seq, filesv);
    }

    // Collect the snapshots the rewrite discards.
    let mut old_ids: Vec<i64> = Vec::new();
    let mut k: usize = 0;
    while k < table_metadata.snapshots.len()
        invariant
            k <= table_metadata.snapshots@.len(),
            old_ids@ =~= snapshot_ids_of(
                crate::snapshot::snapshots_view(table_metadata.snapshots@),
            ).take(k as int),
        decreases table_metadata.snapshots@.len() - k,
    {
        proof {
            assert(crate::snapshot::snapshots_view(table_metadata.snapshots@)[k as int]
                == table_metadata.snapshots@[k as int]@);
            assert(snapshot_ids_of(crate::snapshot::snapshots_view(table_metadata.snapshots@))[
                k as int
            ] == table_metadata.snapshots@[k as int]@.snapshot_id);
        }
        old_ids.push(table_metadata.snapshots[k].snapshot_id);
        proof {
            assert(old_ids@ =~= snapshot_ids_of(
                crate::snapshot::snapshots_view(table_metadata.snapshots@),
            ).take(k as int + 1));
        }
        k = k + 1;
    }
    proof {
        let ids = snapshot_ids_of(crate::snapshot::snapshots_view(table_metadata.snapshots@));
        assert(ids.take(ids.len() as int) =~= ids);
        assert(old_ids@ =~= ids);
    }

    let reference = SnapshotReference {
        snapshot_id,
        retention: crate::snapshot::SnapshotRetention::default(),
    };
    let set_ref = TableUpdate::SetSnapshotRef {
        ref_name: branch_name(&branch),
        snapshot_reference: reference,
    };
    let req: Option<TableRequirement> = match &old_snapshot {
        Option::Some((oid, _)) => Option::Some(
            TableRequirement::AssertRefSnapshotId {
                ref_name: branch_name(&branch),
                snapshot_id: *oid,
            },
        ),
        Option::None => Option::None,
    };
    let mut ups: Vec<TableUpdate> = Vec::new();
    ups.push(TableUpdate::RemoveSnapshots { snapshot_ids: old_ids });
    ups.push(TableUpdate::AddSnapshot { snapshot });
    ups.push(set_ref);
    proof {
        assert(md.wf());
        lemma_schema_lookup_id(md.schemas, md.effective_schema_id(branch_view(branch)));
        assert(ups@.len() == 3);
    }
    Result::Ok((req, ups))
}

/// Whether an optional predicate certainly matches every row of a file.
pub open spec fn spec_prune_opt(
    p: Option<PrunePredicate>,
    f: crate::manifest::DataFileView,
) -> bool {
    match p {
        Option::Some(q) => crate::pruning::spec_prune_file(q, f),
        Option::None => false,
    }
}

/// Compiles a filter: walks every live file of the current snapshot, marks
/// those whose statistics certainly match the predicate as deleted, inherits
/// the rest as existing, and appends `new_files` as added, all in one new
/// manifest. With no predicate and no new files it is a no-op.
#[verifier::rlimit(100)]
pub fn filter_execute(
    branch: Option<String>,
    predicate: Option<PrunePredicate>,
    additional_summary: Option<Vec<(String, String)>>,
    new_files: Vec<DataFile>,
    table_metadata: &TableMetadata,
    storage: &mut TableStorage,
    timestamp_ms: i64,
) -> (r: Result<(Option<TableRequirement>, Vec<TableUpdate>), Error>)
    requires
        table_valid(table_metadata@, old(storage)@),
    ensures
        old(storage)@.le(&final(storage)@),
        match r {
            Result::Ok((req, ups)) => {
                if predicate is None && new_files@.len() == 0 {
                    &&& req is None
                    &&& ups@.len() == 0
                    &&& final(storage)@ == old(storage)@
                } else {
                    &&& ups@.len() == 2
                    &&& snapshot_commit_shape(
                        table_metadata@,
                        final(storage)@,
                        branch,
                        additional_summary,
                        Seq::empty(),
                        next_sequence_number(table_metadata@, branch_view(branch)),
                        crate::snapshot::SnapshotOperation::Overwrite,
                        timestamp_ms,
                        req,
                        ups@[0],
                        ups@[1],
                    )
                    &&& (ups@[0] matches TableUpdate::AddSnapshot { snapshot } && {
                        let nl = list_lookup(
                            final(storage)@.manifest_lists,
                            snapshot@.manifest_list,
                        )->Some_0;
                        &&& nl.len() == 1
                        &&& {
                            let es = manifest_lookup(
                                final(storage)@.manifests,
                                nl[0].manifest_path,
                            )->Some_0;
                            let old_live = filter_source_live(
                                table_metadata@,
                                old(storage)@,
                                branch_view(branch),
                            );
                            &&& es.len() == old_live.len() + new_files@.len()
                            &&& forall|k: int|
                                0 <= k < old_live.len() ==> {
                                    let e = #[trigger] es[k];
                                    &&& e.data_file == old_live[k].data_file
                                    &&& e.status == (if spec_prune_opt(
                                        predicate,
                                        old_live[k].data_file,
                                    ) {
                                        Status::Deleted
                                    } else {
                                        Status::Existing
                                    })
                                }
                            &&& forall|k: int|
                                old_live.len() <= k < es.len() ==> {
                                    let e = #[trigger] es[k];
                                    &&& e.status == Status::Added
                                    &&& e.data_file == crate::table::files_view(new_files@)[
                                        k - old_live.len()
                                    ]
                                }
                        }
                    })
                }
            },
            Result::Err(e) => {
                &&& (e is NotFound || e is InvalidFormat || e is IO)
                &&& (filter_inputs_ok(
                    table_metadata@,
                    old(storage)@,
                    branch_view(branch),
                    crate::table::files_view(new_files@),
                ) ==> e is IO)
            },
        },
{
    let ghost md = table_metadata@;
    let ghost st0 = storage@;
    let ghost inputs_ok = filter_inputs_ok(
        table_metadata@,
        old(storage)@,
        branch_view(branch),
        crate::table::files_view(new_files@),
    );
    if matches!(predicate, Option::None) && new_files.len() == 0 {
        return Result::Ok((Option::None, Vec::new()));
    }
    let branch_str: Option<&str> = match &branch {
        Option::Some(b) => Option::Some(b.as_str()),
        Option::None => Option::None,
    };
    proof {
        assert(crate::table_metadata::opt_name_view(branch_str) == branch_view(branch));
    }
    let spec_fields = match table_metadata.default_partition_spec() {
        Result::Ok(s) => s,
        Result::Err(e) => {
            proof {
                assert(md.wf());
            }
            return Result::Err(e);
        },
    };
    let dim = spec_fields.fields.len();
    proof {
        assert(dim as nat == spec_dim(md));
    }
    let schema_id: i32 = match table_metadata.current_schema(branch_str) {
        Result::Ok(s) => s.schema_id,
        Result::Err(e) => {
            proof {
                assert(!inputs_ok);
            }
            return Result::Err(e);
        },
    };
    let old_snapshot: Option<(i64, i64, String)> = match table_metadata.current_snapshot(
        branch_str,
    ) {
        Result::Ok(Option::Some(s)) => Option::Some(
            (s.snapshot_id, s.sequence_number, s.manifest_list.clone()),
        ),
        Result::Ok(Option::None) => Option::None,
        Result::Err(e) => {
            proof {
                assert(md.wf());
                assert(false) by {
                    match branch_view(branch) {
                        Option::Some(name) => {
                            assert(crate::table_metadata::ref_lookup(md.refs, name) is Some);
                        },
                        Option::None => {},
                    }
                }
            }
            return Result::Err(e);
        },
    };
    let mut i: usize = 0;
    while i < new_files.len()
        invariant
            i <= new_files@.len(),
            md == table_metadata@,
            dim as nat == spec_dim(md),
            inputs_ok == filter_inputs_ok(
                table_metadata@,
                old(storage)@,
                branch_view(branch),
                crate::table::files_view(new_files@),
            ),
            forall|j: int|
                0 <= j < i ==> (#[trigger] crate::table::files_view(new_files@)[j]).partition.len()
                    == dim as nat,
        decreases new_files@.len() - i,
    {
        proof {
            assert(crate::table::files_view(new_files@)[i as int] == new_files@[i as int]@);
        }
        if new_files[i].partition.len() != dim {
            proof {
                assert(crate::table::files_view(new_files@)[i as int].partition.len()
                    != spec_dim(md));
                assert(!inputs_ok);
            }
            return Result::Err(
                Error::InvalidFormat(String::from_str("partition tuple dimension mismatch")),
            );
        }
        i = i + 1;
    }
    let ghost filesv = crate::table::files_view(new_files@);
    let new_seq: i64 = match &old_snapshot {
        Option::Some((_, s, _)) => {
            if *s == i64::MAX || *s < 0 {
                proof {
                    assert(md.spec_current_snapshot(branch_view(branch))->Some_0.sequence_number
                        == *s);
                    assert(!inputs_ok);
                }
                return Result::Err(
                    Error::InvalidFormat(String::from_str("sequence number out of range")),
                );
            }
            *s + 1
        },
        Option::None => 0,
    };
    let snapshot_id = match generate_snapshot_id() {
        Result::Ok(id) => id,
        Result::Err(e) => {
            return Result::Err(e);
        },
    };
    let uuid = match new_uuid_string() {
        Option::Some(u) => u,
        Option::None => {
            return Result::Err(Error::IO(String::from_str("entropy source unavailable")));
        },
    };
    let ghost old_snapshot_view = md.spec_current_snapshot(branch_view(branch));

    // Gather every entry reachable from the current snapshot.
    let collected: Vec<ManifestEntry> = match &old_snapshot {
        Option::Some((_, _, list_path)) => {
            let stored = match storage.get_manifest_list(list_path.as_str()) {
                Option::Some(l) => l,
                Option::None => {
                    proof {
                        assert(snapshot_valid(st0, old_snapshot_view->Some_0, spec_dim(md)));
                        assert(false);
                    }
                    return Result::Err(
                        Error::NotFound(
                            String::from_str("Manifest"),
                            String::from_str("list object"),
                        ),
                    );
                },
            };
            proof {
                assert(snapshot_valid(st0, old_snapshot_view->Some_0, spec_dim(md)));
            }
            let owned = clone_manifest_list(stored);
            proof {
                assert(mles_view(owned@) == list_lookup(
                    st0.manifest_lists,
                    old_snapshot_view->Some_0.manifest_list,
                )->Some_0);
            }
            match crate::table::datafiles(storage, &owned) {
                Result::Ok(es) => es,
                Result::Err(e) => {
                    proof {
                        assert(snapshot_valid(st0, old_snapshot_view->Some_0, spec_dim(md)));
                        assert(crate::table::all_resolve(st0, mles_view(owned@)));
                        assert(false);
                    }
                    return Result::Err(e);
                },
            }
        },
        Option::None => Vec::new(),
    };
    let ghost cv = entries_view(collected@);
    proof {
        assert(cv == filter_source_entries(md, st0, branch_view(branch)));
        if old_snapshot_view is Some {
            let osv = old_snapshot_view->Some_0;
            let mles = list_lookup(st0.manifest_lists, osv.manifest_list)->Some_0;
            lemma_entries_cat_props(st0, mles, dim as nat, osv.sequence_number);
        }
        assert(crate::manifest::entries_have_dim(cv, dim as nat));
        assert(entries_seq_bounded(cv, new_seq));
    }

    // Mark, inherit and append into one new manifest.
    let mut marked: Vec<ManifestEntry> = Vec::new();
    let mut i: usize = 0;
    proof {
        reveal(Seq::filter);
        assert(crate::table::live_entries(cv.take(0)) =~= Seq::<ManifestEntryView>::empty());
    }
    while i < collected.len()
        invariant
            i <= collected@.len(),
            md == table_metadata@,
            st0 == old(storage)@,
            inputs_ok == filter_inputs_ok(
                table_metadata@,
                old(storage)@,
                branch_view(branch),
                crate::table::files_view(new_files@),
            ),
            cv == filter_source_entries(md, st0, branch_view(branch)),
            (md.spec_current_snapshot(branch_view(branch)) matches Option::Some(osv)
                ==> new_seq == osv.sequence_number + 1),
            md.spec_current_snapshot(branch_view(branch)) is Some || cv.len() == 0,
            cv == entries_view(collected@),
            crate::manifest::entries_have_dim(cv, dim as nat),
            entries_seq_bounded(cv, new_seq),
            marked@.len() == crate::table::live_entries(cv.take(i as int)).len(),
            forall|k: int|
                0 <= k < marked@.len() ==> {
                    let e = #[trigger] entries_view(marked@)[k];
                    let src = crate::table::live_entries(cv.take(i as int))[k];
                    &&& e.data_file == src.data_file
                    &&& e.status == (if spec_prune_opt(predicate, src.data_file) {
                        Status::Deleted
                    } else {
                        Status::Existing
                    })
                    &&& e.sequence_number is Some
                    &&& e.sequence_number->Some_0 <= new_seq
                },
        decreases collected@.len() - i,
    {
        let ghost mv_prev = entries_view(marked@);
        proof {
            assert(cv[i as int] == collected@[i as int]@);
            reveal(Seq::filter);
            assert(cv.take(i as int + 1).drop_last() =~= cv.take(i as int));
            assert(cv.take(i as int + 1).last() == cv[i as int]);
        }
        let e = &collected[i];
        if !matches!(e.status, Status::Deleted) {
            let seq: i64 = match e.sequence_number {
                Option::Some(s) => s,
                Option::None => {
                    let sid = match e.snapshot_id {
                        Option::Some(sid) => sid,
                        Option::None => {
                            proof {
                                if inputs_ok {
                                    assert(cv[i as int] == collected@[i as int]@);
                                    assert(false);
                                }
                            }
                            return Result::Err(
                                Error::InvalidFormat(
                                    String::from_str("snapshot id missing in manifest entry"),
                                ),
                            );
                        },
                    };
                    match table_metadata.sequence_number(sid) {
                        Option::Some(s) => s,
                        Option::None => {
                            proof {
                                if inputs_ok {
                                    assert(cv[i as int] == collected@[i as int]@);
                                    assert(false);
                                }
                            }
                            return Result::Err(
                                Error::InvalidFormat(
                                    String::from_str(
                                        "manifest entry provenance does not resolve",
                                    ),
                                ),
                            );
                        },
                    }
                },
            };
            if seq > new_seq {
                proof {
                    if inputs_ok {
                        assert(cv[i as int] == collected@[i as int]@);
                        let osv = md.spec_current_snapshot(branch_view(branch))->Some_0;
                        assert(osv.sequence_number + 1 == new_seq);
                        assert(false);
                    }
                }
                return Result::Err(
                    Error::InvalidFormat(
                        String::from_str("manifest entry sequence number out of range"),
                    ),
                );
            }
            let pruned: bool = match &predicate {
                Option::Some(p) => crate::pruning::prune_file(p, &e.data_file),
                Option::None => false,
            };
            let status = if pruned {
                Status::Deleted
            } else {
                Status::Existing
            };
            marked.push(
                ManifestEntry {
                    status,
                    snapshot_id: e.snapshot_id,
                    sequence_number: Option::Some(seq),
                    data_file: clone_data_file(&e.data_file),
                },
            );
            proof {
                assert(entries_view(marked@) =~= mv_prev.push(marked@[marked@.len() - 1]@));
                assert(crate::table::live_entries(cv.take(i as int + 1))
                    =~= crate::table::live_entries(cv.take(i as int)).push(cv[i as int]));
            }
        } else {
            proof {
                assert(crate::table::live_entries(cv.take(i as int + 1))
                    =~= crate::table::live_entries(cv.take(i as int)));
            }
        }
        i = i + 1;
    }
    let ghost old_live = crate::table::live_entries(cv);
    proof {
        assert(cv.take(cv.len() as int) =~= cv);
    }
    let new_entries = entries_from_files(new_files, snapshot_id, Option::None);
    let ghost markedv = entries_view(marked@);
    let ghost newv_e = entries_view(new_entries@);
    let all_entries = concat_entries(marked, new_entries);
    let ghost es_final = entries_view(all_entries@);
    if all_entries.len() > u32::MAX as usize {
        proof {
            if inputs_ok {
                broadcast use vstd::seq_lib::group_filter_ensures;

                assert(es_final.len() == markedv.len() + newv_e.len());
                assert(newv_e.len() == crate::table::files_view(new_files@).len());
                assert(cv.take(cv.len() as int) =~= cv);
                assert(markedv.len() == crate::table::live_entries(cv).len());
                assert(crate::table::live_entries(cv).len() <= cv.len());
                assert(cv == filter_source_entries(md, st0, branch_view(branch)));
                match md.spec_current_snapshot(branch_view(branch)) {
                    Option::None => {
                        assert(cv.len() == 0);
                        assert(crate::table::files_view(new_files@).len() <= u32::MAX);
                    },
                    Option::Some(osv) => {
                        assert(cv.len() + crate::table::files_view(new_files@).len()
                            <= u32::MAX);
                    },
                }
                assert(es_final.len() <= u32::MAX);
                assert(false);
            }
        }
        return Result::Err(
            Error::InvalidFormat(String::from_str("manifest population out of range")),
        );
    }
    proof {
        assert(es_final == markedv + newv_e);
        assert forall|k: int| 0 <= k < es_final.len() implies (#[trigger] es_final[
            k
        ]).data_file.partition.len() == dim as nat by {
            if k < markedv.len() {
                assert(es_final[k] == markedv[k]);
                assert(markedv[k].data_file == old_live[k].data_file);
                lemma_live_entries_member(cv, k);
            } else {
                assert(es_final[k] == newv_e[k - markedv.len()]);
                assert(newv_e[k - markedv.len()].data_file == filesv[k - markedv.len()]);
            }
        }
        assert forall|k: int| 0 <= k < es_final.len() implies ((#[trigger] es_final[
            k
        ]).sequence_number is Some ==> es_final[k].sequence_number->Some_0 <= new_seq) by {
            if k < markedv.len() {
                assert(es_final[k] == markedv[k]);
            } else {
                assert(es_final[k] == newv_e[k - markedv.len()]);
            }
        }
    }
    let location = table_metadata.location.clone();
    let mut groups: Vec<Vec<ManifestEntry>> = Vec::new();
    groups.push(all_entries);
    let new_mles = match write_groups(
        groups,
        storage,
        location.as_str(),
        uuid.as_str(),
        new_seq,
        dim,
        Ghost(new_seq),
    ) {
        Result::Ok(v) => v,
        Result::Err(e) => {
            return Result::Err(e);
        },
    };
    let ghost st1 = storage@;
    let ghost fullv = mles_view(new_mles@);
    let list_path = manifest_list_path(location.as_str(), snapshot_id, uuid.as_str());
    match storage.put_manifest_list(list_path.clone(), new_mles) {
        Result::Ok(()) => {},
        Result::Err(e) => {
            proof {
                crate::storage::lemma_le_trans(st0, st1, storage@);
            }
            return Result::Err(e);
        },
    }
    let ghost st2 = storage@;
    proof {
        crate::storage::lemma_le_trans(st0, st1, st2);
    }
    let other: Vec<(String, String)> = match &additional_summary {
        Option::Some(v) => clone_kv(v),
        Option::None => Vec::new(),
    };
    let snapshot = crate::snapshot::Snapshot {
        snapshot_id,
        parent_snapshot_id: match &old_snapshot {
            Option::Some((oid, _, _)) => Option::Some(*oid),
            Option::None => Option::None,
        },
        sequence_number: new_seq,
        timestamp_ms,
        manifest_list: list_path,
        summary: Summary {
            operation: crate::snapshot::SnapshotOperation::Overwrite,
            other,
            sources: Vec::new(),
        },
        schema_id: Option::Some(schema_id),
    };
    let ghost sv = snapshot@;
    proof {
        assert(sv.summary.other =~= summary_other_view(additional_summary));
        assert(sv.summary.sources =~= Seq::<crate::snapshot::SourceTableView>::empty());
        assert(snapshot_valid(st2, sv, dim as nat)) by {
            assert(list_lookup(st2.manifest_lists, sv.manifest_list) == Option::Some(fullv));
            assert forall|j: int| 0 <= j < fullv.len() implies {
                let mv = #[trigger] fullv[j];
                &&& manifest_lookup(st2.manifests, mv.manifest_path) is Some
                &&& manifest_consistent(
                    mv,
                    manifest_lookup(st2.manifests, mv.manifest_path)->Some_0,
                    dim as nat,
                )
                &&& mv.sequence_number <= sv.sequence_number
                &&& entries_seq_bounded(
                    manifest_lookup(st2.manifests, mv.manifest_path)->Some_0,
                    sv.sequence_number,
                )
            } by {
                assert(manifest_lookup(st1.manifests, fullv[j].manifest_path) is Some);
                assert(manifest_lookup(st2.manifests, fullv[j].manifest_path)
                    == manifest_lookup(st1.manifests, fullv[j].manifest_path));
            }
        }
        assert(manifest_lookup(st2.manifests, fullv[0].manifest_path)->Some_0 == es_final);
        assert(old_live == filter_source_live(md, st0, branch_view(branch)));
    }
    let reference = SnapshotReference {
        snapshot_id,
        retention: crate::snapshot::SnapshotRetention::default(),
    };
    let set_ref = TableUpdate::SetSnapshotRef {
        ref_name: branch_name(&branch),
        snapshot_reference: reference,
    };
    let req: Option<TableRequirement> = match &old_snapshot {
        Option::Some((oid, _, _)) => Option::Some(
            TableRequirement::AssertRefSnapshotId {
                ref_name: branch_name(&branch),
                snapshot_id: *oid,
            },
        ),
        Option::None => Option::None,
    };
    let mut ups: Vec<TableUpdate> = Vec::new();
    ups.push(TableUpdate::AddSnapshot { snapshot });
    ups.push(set_ref);
    proof {
        assert(md.wf());
        lemma_schema_lookup_id(md.schemas, md.effective_schema_id(branch_view(branch)));
    }
    Result::Ok((req, ups))
}

impl Operation {
    /// Compiles the staged operation against the given metadata document
    /// into the requirement and updates of a commit, writing any new
    /// manifests and manifest list to the store.
    pub fn execute(
        self,
        table_metadata: &TableMetadata,
        storage: &mut TableStorage,
        timestamp_ms: i64,
    ) -> (r: Result<(Option<TableRequirement>, Vec<TableUpdate>), Error>)
        requires
            table_valid(table_metadata@, old(storage)@),
        ensures
            old(storage)@.le(&final(storage)@),
            match self {
                Operation::UpdateProperties(entries) => match r {
                    Result::Ok((req, ups)) => {
                        &&& req is None
                        &&& ups@.len() == 1
                        &&& ups@[0] matches TableUpdate::SetProperties { updates }
                            && crate::snapshot::kv_view(updates@) == crate::snapshot::kv_view(
                            entries@,
                        )
                        &&& final(storage)@ == old(storage)@
                    },
                    Result::Err(_) => false,
                },
                Operation::SetSnapshotRef((key, value)) => match r {
                    Result::Ok((req, ups)) => {
                        &&& ups@.len() == 1
                        &&& ups@[0] matches TableUpdate::SetSnapshotRef {
                            ref_name,
                            snapshot_reference,
                        } && ref_name@ == key@ && snapshot_reference == value
                        &&& match crate::table_metadata::ref_lookup(table_metadata@.refs, key@) {
                            Option::Some(rr) => opt_req_view(req) == Option::Some(
                                crate::catalog::TableRequirementView::AssertRefSnapshotId {
                                    ref_name: key@,
                                    snapshot_id: rr.snapshot_id,
                                },
                            ),
                            Option::None => req is None,
                        }
                        &&& final(storage)@ == old(storage)@
                    },
                    Result::Err(_) => false,
                },
                Operation::AddSchema(schema) => match r {
                    Result::Ok((req, ups)) => {
                        &&& req is None
                        &&& ups@.len() == 1
                        &&& ups@[0] matches TableUpdate::AddSchema { schema: s2, last_column_id }
                            && s2@ == schema@ && last_column_id == schema.spec_max_field_id()
                        &&& final(storage)@ == old(storage)@
                    },
                    Result::Err(_) => false,
                },
                Operation::SetDefaultSpec(spec_id) => match r {
                    Result::Ok((req, ups)) => {
                        &&& req is None
                        &&& ups@.len() == 1
                        &&& ups@[0] matches TableUpdate::SetDefaultSpec { spec_id: s2 } && s2
                            == spec_id
                        &&& final(storage)@ == old(storage)@
                    },
                    Result::Err(_) => false,
                },
                Operation::Append { branch, files, additional_summary } => match r {
                    Result::Ok((req, ups)) => {
                        &&& files@.len() > 0
                        &&& ups@.len() == 2
                        &&& snapshot_commit_shape(
                            table_metadata@,
                            final(storage)@,
                            branch,
                            additional_summary,
                            Seq::empty(),
                            next_sequence_number(table_metadata@, branch_view(branch)),
                            crate::snapshot::SnapshotOperation::Append,
                            timestamp_ms,
                            req,
                            ups@[0],
                            ups@[1],
                        )
                        &&& (ups@[0] matches TableUpdate::AddSnapshot { snapshot }
                            && crate::manifest::count_live(
                            crate::table::entries_cat(
                                final(storage)@,
                                list_lookup(
                                    final(storage)@.manifest_lists,
                                    snapshot@.manifest_list,
                                )->Some_0,
                            ),
                        ) == crate::manifest::count_live(
                            filter_source_entries(
                                table_metadata@,
                                old(storage)@,
                                branch_view(branch),
                            ),
                        ) + files@.len())
                    },
                    Result::Err(e) => {
                        &&& (files@.len() == 0 ==> (e matches Error::NotFound(what, key)
                            && what@ == "Bounding"@ && key@ == "rectangle"@ && final(storage)@
                            == old(storage)@))
                        &&& (e is NotFound || e is InvalidFormat || e is IO)
                        &&& (append_inputs_ok(
                            table_metadata@,
                            old(storage)@,
                            branch_view(branch),
                            crate::table::files_view(files@),
                        ) ==> e is IO)
                    },
                },
                Operation::Rewrite { branch, files, additional_summary, sources } => match r {
                    Result::Ok((req, ups)) => {
                        &&& files@.len() > 0
                        &&& ups@.len() == 3
                        &&& ups@[0] matches TableUpdate::RemoveSnapshots { snapshot_ids }
                            && snapshot_ids@ == snapshot_ids_of(table_metadata@.snapshots)
                        &&& snapshot_commit_shape(
                            table_metadata@,
                            final(storage)@,
                            branch,
                            additional_summary,
                            sources_view(sources@),
                            0,
                            crate::snapshot::SnapshotOperation::Replace,
                            timestamp_ms,
                            req,
                            ups@[1],
                            ups@[2],
                        )
                        &&& (ups@[1] matches TableUpdate::AddSnapshot { snapshot }
                            && crate::table::live_paths(
                            crate::table::entries_cat(
                                final(storage)@,
                                list_lookup(
                                    final(storage)@.manifest_lists,
                                    snapshot@.manifest_list,
                                )->Some_0,
                            ),
                        ).to_multiset() == crate::table::file_paths(
                            crate::table::files_view(files@),
                        ).to_multiset())
                    },
                    Result::Err(e) => {
                        &&& (files@.len() == 0 ==> (e matches Error::NotFound(what, key)
                            && what@ == "Bounding"@ && key@ == "rectangle"@ && final(storage)@
                            == old(storage)@))
                        &&& (e is NotFound || e is InvalidFormat || e is IO)
                        &&& (rewrite_inputs_ok(
                            table_metadata@,
                            branch_view(branch),
                            crate::table::files_view(files@),
                        ) ==> e is IO)
                    },
                },
                Operation::Filter { branch, predicate, additional_summary, new_files } => match r {
                    Result::Ok((req, ups)) => {
                        if predicate is None && new_files@.len() == 0 {
                            &&& req is None
                            &&& ups@.len() == 0
                            &&& final(storage)@ == old(storage)@
                        } else {
                            &&& ups@.len() == 2
                            &&& snapshot_commit_shape(
                                table_metadata@,
                                final(storage)@,
                                branch,
                                additional_summary,
                                Seq::empty(),
                                next_sequence_number(table_metadata@, branch_view(branch)),
                                crate::snapshot::SnapshotOperation::Overwrite,
                                timestamp_ms,
                                req,
                                ups@[0],
                                ups@[1],
                            )
                            &&& (ups@[0] matches TableUpdate::AddSnapshot { snapshot } && {
                                let nl = list_lookup(
                                    final(storage)@.manifest_lists,
                                    snapshot@.manifest_list,
                                )->Some_0;
                                &&& nl.len() == 1
                                &&& {
                                    let es = manifest_lookup(
                                        final(storage)@.manifests,
                                        nl[0].manifest_path,
                                    )->Some_0;
                                    let old_live = filter_source_live(
                                        table_metadata@,
                                        old(storage)@,
                                        branch_view(branch),
                                    );
                                    &&& es.len() == old_live.len() + new_files@.len()
                                    &&& forall|k: int|
                                        0 <= k < old_live.len() ==> {
                                            let e = #[trigger] es[k];
                                            &&& e.data_file == old_live[k].data_file
                                            &&& e.status == (if spec_prune_opt(
                                                predicate,
                                                old_live[k].data_file,
                                            ) {
                                                Status::Deleted
                                            } else {
                                                Status::Existing
                                            })
                                        }
                                    &&& forall|k: int|
                                        old_live.len() <= k < es.len() ==> {
                                            let e = #[trigger] es[k];
                                            &&& e.status == Status::Added
                                            &&& e.data_file == crate::table::files_view(
                                                new_files@,
                                            )[k - old_live.len()]
                                        }
                                }
                            })
                        }
                    },
                    Result::Err(e) => {
                        &&& (e is NotFound || e is InvalidFormat || e is IO)
                        &&& (filter_inputs_ok(
                            table_metadata@,
                            old(storage)@,
                            branch_view(branch),
                            crate::table::files_view(new_files@),
                        ) ==> e is IO)
                    },
                },
            },
    {
        match self {
            Operation::UpdateProperties(entries) => {
                let mut ups: Vec<TableUpdate> = Vec::new();
                ups.push(TableUpdate::SetProperties { updates: entries });
                Result::Ok((Option::None, ups))
            },
            Operation::SetSnapshotRef((key, value)) => {
                let req: Option<TableRequirement> = match table_metadata.get_ref(key.as_str()) {
                    Option::Some(rr) => Option::Some(
                        TableRequirement::AssertRefSnapshotId {
                            ref_name: key.clone(),
                            snapshot_id: rr.snapshot_id,
                        },
                    ),
                    Option::None => Option::None,
                };
                let mut ups: Vec<TableUpdate> = Vec::new();
                ups.push(TableUpdate::SetSnapshotRef { ref_name: key, snapshot_reference: value });
                Result::Ok((req, ups))
            },
            Operation::AddSchema(schema) => {
                let last_column_id = schema.max_field_id();
                let mut ups: Vec<TableUpdate> = Vec::new();
                ups.push(TableUpdate::AddSchema { schema, last_column_id });
                Result::Ok((Option::None, ups))
            },
            Operation::SetDefaultSpec(spec_id) => {
                let mut ups: Vec<TableUpdate> = Vec::new();
                ups.push(TableUpdate::SetDefaultSpec { spec_id });
                Result::Ok((Option::None, ups))
            },
            Operation::Append { branch, files, additional_summary } => append_execute(
                branch,
                files,
                additional_summary,
                table_metadata,
                storage,
                timestamp_ms,
            ),
            Operation::Rewrite { branch, files, additional_summary, sources } => rewrite_execute(
                branch,
                files,
                additional_summary,
                sources,
                table_metadata,
                storage,
                timestamp_ms,
            ),
            Operation::Filter { branch, predicate, additional_summary, new_files } => {
                filter_execute(
                    branch,
                    predicate,
                    additional_summary,
                    new_files,
                    table_metadata,
                    storage,
                    timestamp_ms,
                )
            },
        }
    }
}

/// The entries reachable from the branch head in the given store.
pub open spec fn filter_source_entries(
    md: crate::table_metadata::TableMetadataView,
    st: crate::storage::TableStorageView,
    branch: Option<Seq<char>>,
) -> Seq<ManifestEntryView> {
    match md.spec_current_snapshot(branch) {
        Option::Some(osv) => crate::table::entries_cat(
            st,
            list_lookup(st.manifest_lists, osv.manifest_list)->Some_0,
        ),
        Option::None => Seq::empty(),
    }
}

/// The live entries reachable from the branch head in the given store.
pub open spec fn filter_source_live(
    md: crate::table_metadata::TableMetadataView,
    st: crate::storage::TableStorageView,
    branch: Option<Seq<char>>,
) -> Seq<ManifestEntryView> {
    crate::table::live_entries(filter_source_entries(md, st, branch))
}

/// A live entry is one of the underlying entries.
proof fn lemma_live_entries_member(es: Seq<ManifestEntryView>, k: int)
    requires
        0 <= k < crate::table::live_entries(es).len(),
    ensures
        es.contains(crate::table::live_entries(es)[k]),
{
    broadcast use vstd::seq_lib::group_filter_ensures;

    assert(crate::table::live_entries(es).contains(crate::table::live_entries(es)[k]));
    let e = crate::table::live_entries(es)[k];
    reveal(Seq::filter);
    lemma_filter_sub(es, e);
}

/// Everything the live filter keeps occurs in the source.
proof fn lemma_filter_sub(es: Seq<ManifestEntryView>, e: ManifestEntryView)
    requires
        crate::table::live_entries(es).contains(e),
    ensures
        es.contains(e),
    decreases es.len(),
{
    reveal(Seq::filter);
    if es.len() > 0 {
        let prefix = es.drop_last();
        if es.last() == e {
            assert(es[es.len() - 1] == e);
        } else {
            if crate::table::live_entries(prefix).contains(e) {
                lemma_filter_sub(prefix, e);
                let i = choose|i: int| 0 <= i < prefix.len() && prefix[i] == e;
                assert(es[i] == e);
            } else {
                assert(crate::table::live_entries(es) == if es.last().is_live() {
                    crate::table::live_entries(prefix).push(es.last())
                } else {
                    crate::table::live_entries(prefix)
                });
            }
        }
    }
}

/// The entries reachable from a consistent snapshot's list have the
/// table's partition dimensions and bounded sequence numbers.
proof fn lemma_entries_cat_props(
    st: crate::storage::TableStorageView,
    mles: Seq<ManifestListEntryView>,
    dim: nat,
    bound: i64,
)
    requires
        crate::table::all_resolve(st, mles),
        forall|j: int|
            0 <= j < mles.len() ==> manifest_consistent(
                #[trigger] mles[j],
                manifest_lookup(st.manifests, mles[j].manifest_path)->Some_0,
                dim,
            ),
        forall|j: int|
            0 <= j < mles.len() ==> entries_seq_bounded(
                manifest_lookup(st.manifests, (#[trigger] mles[j]).manifest_path)->Some_0,
                bound,
            ),
    ensures
        crate::manifest::entries_have_dim(crate::table::entries_cat(st, mles), dim),
        entries_seq_bounded(crate::table::entries_cat(st, mles), bound),
    decreases mles.len(),
{
    if mles.len() > 0 {
        lemma_entries_cat_props(st, mles.drop_last(), dim, bound);
    }
}

/// A manifest list whose manifests store exactly the given entry groups
/// concatenates to those groups flattened.
proof fn lemma_entries_cat_exact(
    st: crate::storage::TableStorageView,
    mles: Seq<ManifestListEntryView>,
    ess: Seq<Seq<ManifestEntryView>>,
)
    requires
        mles.len() == ess.len(),
        forall|j: int|
            0 <= j < mles.len() ==> manifest_lookup(
                st.manifests,
                (#[trigger] mles[j]).manifest_path,
            ) == Option::Some(ess[j]),
    ensures
        crate::table::entries_cat(st, mles) == ess.flatten_alt(),
    decreases mles.len(),
{
    if mles.len() == 0 {
        assert(ess.flatten_alt() =~= Seq::<ManifestEntryView>::empty());
        assert(crate::table::entries_cat(st, mles) =~= Seq::<ManifestEntryView>::empty());
    } else {
        assert(mles.drop_last().len() == ess.drop_last().len());
        assert forall|j: int| 0 <= j < mles.drop_last().len() implies manifest_lookup(
            st.manifests,
            (#[trigger] mles.drop_last()[j]).manifest_path,
        ) == Option::Some(ess.drop_last()[j]) by {
            assert(mles.drop_last()[j] == mles[j]);
            assert(ess.drop_last()[j] == ess[j]);
        }
        lemma_entries_cat_exact(st, mles.drop_last(), ess.drop_last());
        assert(ess.flatten_alt() == ess.drop_last().flatten_alt() + ess.last());
        assert(mles.last() == mles[mles.len() - 1]);
        assert(manifest_lookup(st.manifests, mles.last().manifest_path) == Option::Some(
            ess.last(),
        ));
    }
}

/// Taking entry records commutes with flattening groups of entries.
proof fn lemma_entries_view_flatten(ss: Seq<Vec<ManifestEntry>>)
    ensures
        entries_view(crate::tree::groups_flat(ss)) == ss.map_values(
            |g: Vec<ManifestEntry>| entries_view(g@),
        ).flatten(),
    decreases ss.len(),
{
    let mapped = ss.map_values(|v: Vec<ManifestEntry>| v@);
    let emapped = ss.map_values(|g: Vec<ManifestEntry>| entries_view(g@));
    if ss.len() == 0 {
        assert(mapped.flatten() =~= Seq::<ManifestEntry>::empty());
        assert(emapped.flatten() =~= Seq::<ManifestEntryView>::empty());
        assert(entries_view(crate::tree::groups_flat(ss)) =~= Seq::<ManifestEntryView>::empty());
    } else {
        lemma_entries_view_flatten(ss.drop_first());
        assert(mapped.first() == ss.first()@);
        assert(mapped.drop_first() =~= ss.drop_first().map_values(
            |v: Vec<ManifestEntry>| v@,
        ));
        assert(mapped.flatten() == mapped.first() + mapped.drop_first().flatten());
        assert(emapped.first() == entries_view(ss.first()@));
        assert(emapped.drop_first() =~= ss.drop_first().map_values(
            |g: Vec<ManifestEntry>| entries_view(g@),
        ));
        assert(emapped.flatten() == emapped.first() + emapped.drop_first().flatten());
        assert(entries_view(ss.first()@ + mapped.drop_first().flatten()) =~= entries_view(
            ss.first()@,
        ) + entries_view(mapped.drop_first().flatten()));
        assert(crate::tree::groups_flat(ss.drop_first()) == mapped.drop_first().flatten());
    }
}

/// Sequences with the same entry multiset have the same multiset of
/// data-file paths.
proof fn lemma_paths_multiset(a: Seq<ManifestEntryView>, b: Seq<ManifestEntryView>)
    requires
        a.to_multiset() == b.to_multiset(),
    ensures
        crate::table::entry_paths(a).to_multiset() == crate::table::entry_paths(b).to_multiset(),
    decreases a.len(),
{
    broadcast use vstd::seq_lib::group_to_multiset_ensures;

    a.to_multiset_ensures();
    b.to_multiset_ensures();
    if a.len() == 0 {
        assert(b.to_multiset().len() == 0);
        assert(b.len() == 0);
        assert(crate::table::entry_paths(a) =~= Seq::<Seq<char>>::empty());
        assert(crate::table::entry_paths(b) =~= Seq::<Seq<char>>::empty());
    } else {
        assert(a.to_multiset().len() == a.len());
        assert(b.to_multiset().len() == b.len());
        assert(b.len() == a.len());
        let x = a.last();
        assert(a.drop_last() =~= a.remove(a.len() - 1));
        assert(a.remove(a.len() - 1).to_multiset() =~= a.to_multiset().remove(x)) by {
            assert(a[a.len() - 1] == x);
        }
        assert(a.contains(x)) by {
            assert(a[a.len() - 1] == x);
        }
        assert(a.to_multiset().count(x) > 0);
        assert(b.to_multiset().count(x) > 0);
        assert(b.contains(x));
        let i = choose|i: int| 0 <= i < b.len() && b[i] == x;
        assert(b.remove(i).to_multiset() =~= b.to_multiset().remove(x));
        lemma_paths_multiset(a.drop_last(), b.remove(i));
        let pa = crate::table::entry_paths(a);
        let pb = crate::table::entry_paths(b);
        assert(crate::table::entry_paths(a.drop_last()) =~= pa.drop_last());
        assert(crate::table::entry_paths(b.remove(i)) =~= pb.remove(i));
        assert(pa.drop_last() =~= pa.remove(pa.len() - 1));
        assert(pa.remove(pa.len() - 1).to_multiset() =~= pa.to_multiset().remove(
            pa[pa.len() - 1],
        ));
        assert(pb.remove(i).to_multiset() =~= pb.to_multiset().remove(pb[i]));
        assert(pa[pa.len() - 1] == x.data_file.file_path);
        assert(pb[i] == x.data_file.file_path);
        assert(pa.contains(pa[pa.len() - 1])) by {
            assert(0 <= pa.len() - 1 < pa.len());
        }
        assert(pb.contains(pb[i]));
        assert(pa.to_multiset().count(x.data_file.file_path) > 0);
        assert(pb.to_multiset().count(x.data_file.file_path) > 0);
        assert(pa.to_multiset() =~= pb.to_multiset()) by {
            broadcast use vstd::multiset::group_multiset_axioms;

            let p = x.data_file.file_path;
            assert(pa.to_multiset().remove(p) == pb.to_multiset().remove(p));
            assert forall|y: Seq<char>| pa.to_multiset().count(y) == #[trigger] pb.to_multiset().count(
                y,
            ) by {
                if y == p {
                    assert(pa.to_multiset().remove(p).count(p) == pa.to_multiset().count(p) - 1);
                    assert(pb.to_multiset().remove(p).count(p) == pb.to_multiset().count(p) - 1);
                } else {
                    assert(pa.to_multiset().remove(p).count(y) == pa.to_multiset().count(y));
                    assert(pb.to_multiset().remove(p).count(y) == pb.to_multiset().count(y));
                }
            }
        }
    }
}

/// Every element of a filter-kept sequence also stands in the source, so a
/// predicate true of every source element is true of every kept one; with
/// every element kept, the filter is the identity.
pub proof fn lemma_filter_all_kept(
    es: Seq<ManifestEntryView>,
    keep: spec_fn(ManifestEntryView) -> bool,
)
    requires
        forall|k: int| 0 <= k < es.len() ==> keep(#[trigger] es[k]),
    ensures
        es.filter(keep) == es,
    decreases es.len(),
{
    reveal(Seq::filter);
    if es.len() > 0 {
        lemma_filter_all_kept(es.drop_last(), keep);
        assert(keep(es.last())) by {
            assert(es[es.len() - 1] == es.last());
        }
        assert(es.filter(keep) == es.drop_last().filter(keep).push(es.last()));
        assert(es.drop_last().push(es.last()) =~= es);
    }
}

/// Sequences with the same entry multiset hold the same number of live
/// entries.
proof fn lemma_count_live_multiset(a: Seq<ManifestEntryView>, b: Seq<ManifestEntryView>)
    requires
        a.to_multiset() == b.to_multiset(),
    ensures
        crate::manifest::count_live(a) == crate::manifest::count_live(b),
    decreases a.len(),
{
    broadcast use vstd::seq_lib::group_to_multiset_ensures;

    a.to_multiset_ensures();
    b.to_multiset_ensures();
    if a.len() == 0 {
        assert(b.to_multiset().len() == 0);
        assert(b.len() == 0);
    } else {
        assert(a.to_multiset().len() == a.len());
        assert(b.to_multiset().len() == b.len());
        let x = a.last();
        assert(a.drop_last() =~= a.remove(a.len() - 1));
        assert(a.remove(a.len() - 1).to_multiset() =~= a.to_multiset().remove(x)) by {
            assert(a[a.len() - 1] == x);
        }
        assert(a.contains(x)) by {
            assert(a[a.len() - 1] == x);
        }
        assert(a.to_multiset().count(x) > 0);
        assert(b.to_multiset().count(x) > 0);
        assert(b.contains(x));
        let i = choose|i: int| 0 <= i < b.len() && b[i] == x;
        assert(b.remove(i).to_multiset() =~= b.to_multiset().remove(x));
        lemma_count_live_multiset(a.drop_last(), b.remove(i));
        lemma_count_live_split(a, a.len() - 1);
        lemma_count_live_split(b, i);
    }
}

/// Removing one entry lowers the live count by that entry's liveness.
proof fn lemma_count_live_split(s: Seq<ManifestEntryView>, i: int)
    requires
        0 <= i < s.len(),
    ensures
        crate::manifest::count_live(s) == crate::manifest::count_live(s.remove(i)) + if s[
            i
        ].is_live() {
            1int
        } else {
            0int
        },
{
    assert(s =~= s.take(i) + seq![s[i]] + s.skip(i + 1));
    assert(s.remove(i) =~= s.take(i) + s.skip(i + 1));
    crate::laws::lemma_count_live_concat(s.take(i) + seq![s[i]], s.skip(i + 1));
    crate::laws::lemma_count_live_concat(s.take(i), seq![s[i]]);
    crate::laws::lemma_count_live_concat(s.take(i), s.skip(i + 1));
    assert(crate::manifest::count_live(seq![s[i]]) == if s[i].is_live() {
        1int
    } else {
        0int
    }) by {
        let single = seq![s[i]];
        assert(single.len() == 1);
        assert(single[0] == s[i]);
        assert(crate::manifest::count_live(single) == crate::manifest::count_live_to(single, 1));
        assert(crate::manifest::count_live_to(single, 0) == 0);
    }
    assert(crate::manifest::count_live(s.take(i) + seq![s[i]] + s.skip(i + 1))
        == crate::manifest::count_live(s)) by {
        assert(s.take(i) + seq![s[i]] + s.skip(i + 1) =~= s);
    }
}

/// Entries that agree pointwise on liveness count the same live total.
proof fn lemma_count_live_pointwise(a: Seq<ManifestEntryView>, b: Seq<ManifestEntryView>, n: int)
    requires
        0 <= n <= a.len(),
        a.len() == b.len(),
        forall|k: int| 0 <= k < a.len() ==> (#[trigger] a[k]).is_live() == b[k].is_live(),
    ensures
        crate::manifest::count_live_to(a, n) == crate::manifest::count_live_to(b, n),
    decreases n,
{
    if n > 0 {
        lemma_count_live_pointwise(a, b, n - 1);
    }
}

/// A sequence of entirely live entries counts its whole length.
proof fn lemma_count_live_all(a: Seq<ManifestEntryView>, n: int)
    requires
        0 <= n <= a.len(),
        forall|k: int| 0 <= k < a.len() ==> (#[trigger] a[k]).is_live(),
    ensures
        crate::manifest::count_live_to(a, n) == n,
    decreases n,
{
    if n > 0 {
        lemma_count_live_all(a, n - 1);
    }
}

/// A resolved schema lookup returns a schema with the requested id.
proof fn lemma_schema_lookup_id(schemas: Seq<crate::schema::SchemaView>, id: i32)
    ensures
        crate::table_metadata::schema_lookup(schemas, id) is Some
            ==> crate::table_metadata::schema_lookup(schemas, id)->Some_0.schema_id == id,
    decreases schemas.len(),
{
    if schemas.len() > 0 {
        lemma_schema_lookup_id(schemas.drop_last(), id);
    }
}

/// After a split, the number of groups fits the machine: the split count is
/// bounded by the population that induced it.
proof fn lemma_split_fits(existing: nat, new: nat, selected: nat, n: nat)
    requires
        n == crate::tree::spec_n_splits(existing, new, selected),
        n > 0,
        existing + new <= u64::MAX,
        selected + new <= u64::MAX,
        existing <= usize::MAX,
        selected <= usize::MAX,
        new <= usize::MAX,
    ensures
        crate::tree::pow2n(n) <= usize::MAX,
{
    let limit = crate::tree::manifest_limit(existing, new);
    let t = selected + new;
    let q = t / limit;
    assert(limit >= 4);
    assert(q >= 1);
    crate::tree::lemma_log2_floor_props(q);
    assert(crate::tree::pow2n(n) == 2 * crate::tree::pow2n(crate::tree::log2_floor(q)));
    assert(crate::tree::pow2n(crate::tree::log2_floor(q)) <= q);
    assert(q <= t / 4) by (nonlinear_arith)
        requires
            limit >= 4 && q == t / limit && t >= 0,
    ;
    assert(2 * (t / 4) <= t / 2) by (nonlinear_arith)
        requires
            t >= 0,
    ;
    assert(t / 2 <= usize::MAX) by (nonlinear_arith)
        requires
            t <= 2 * (usize::MAX as nat),
    ;
    assert(crate::tree::pow2n(n) <= 2 * q);
}


} // verus!
