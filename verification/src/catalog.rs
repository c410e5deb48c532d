//! The catalog contract: identifiers, commit requirements and updates, and
//! an in-memory catalog state that applies a commit atomically.
//!
//! A commit names a table, a list of requirements and a list of updates. The
//! catalog verifies every requirement against the current document and, only
//! if all hold, applies the updates in order, checks the resulting document,
//! and swaps the pointer. On a failed requirement it reports a conflict and
//! changes nothing.

use vstd::prelude::*;

use crate::schema::{clone_partition_spec, clone_schema, PartitionSpec, PartitionSpecView, Schema, SchemaView};
use crate::snapshot::{clone_kv, clone_snapshot, kv_view, refs_view, snapshots_view, strings_view, Snapshot, SnapshotLog, SnapshotReference, SnapshotView};
use crate::table_metadata::{clone_metadata, partition_spec_lookup, ref_lookup, schema_lookup, snapshot_lookup, TableMetadata, TableMetadataView};
use crate::util::string_eq_str;
use crate::view::{clone_materialized_view_metadata, clone_view_metadata, MaterializedViewMetadata, MaterializedViewMetadataView, ViewMetadata, ViewMetadataView};
use crate::Error;

verus! {

/// A table identifier: a namespace path and a name.
pub struct Identifier {
    pub namespace: Vec<String>,
    pub name: String,
}

/// The spec-level record of an identifier.
#[verifier::ext_equal]
pub struct IdentifierView {
    pub namespace: Seq<Seq<char>>,
    pub name: Seq<char>,
}

impl View for Identifier {
    type V = IdentifierView;

    open spec fn view(&self) -> IdentifierView {
        IdentifierView {
            namespace: self.namespace@.map_values(|s: String| s@),
            name: self.name@,
        }
    }
}

/// Copies an identifier.
pub fn clone_identifier(id: &Identifier) -> (r: Identifier)
    ensures
        r@ == id@,
{
    let mut namespace: Vec<String> = Vec::new();
    let mut i: usize = 0;
    while i < id.namespace.len()
        invariant
            i <= id.namespace@.len(),
            namespace@.len() == i,
            forall|j: int| 0 <= j < i ==> (#[trigger] namespace@[j])@ == id.namespace@[j]@,
        decreases id.namespace@.len() - i,
    {
        namespace.push(id.namespace[i].clone());
        i = i + 1;
    }
    let r = Identifier { namespace, name: id.name.clone() };
    proof {
        assert(r@.namespace =~= id@.namespace);
    }
    r
}

/// Compares two identifiers by contents.
pub fn identifier_eq(a: &Identifier, b: &Identifier) -> (r: bool)
    ensures
        r == (a@ == b@),
{
    if a.namespace.len() != b.namespace.len() {
        proof {
            assert(a@.namespace.len() != b@.namespace.len());
        }
        return false;
    }
    let mut i: usize = 0;
    while i < a.namespace.len()
        invariant
            i <= a.namespace@.len(),
            a.namespace@.len() == b.namespace@.len(),
            forall|j: int| 0 <= j < i ==> a@.namespace[j] == b@.namespace[j],
        decreases a.namespace@.len() - i,
    {
        if !(a.namespace[i] == b.namespace[i]) {
            proof {
                assert(a@.namespace[i as int] != b@.namespace[i as int]);
            }
            return false;
        }
        i = i + 1;
    }
    let same_name = a.name == b.name;
    proof {
        if same_name {
            assert(a@.namespace =~= b@.namespace);
        }
    }
    same_name
}

/// A condition the catalog must verify before applying a commit.
pub enum TableRequirement {
    /// The table must not exist yet.
    AssertCreate,
    /// The named ref must point at exactly this snapshot.
    AssertRefSnapshotId { ref_name: String, snapshot_id: i64 },
}

/// The spec-level record of a requirement.
#[verifier::ext_equal]
pub enum TableRequirementView {
    AssertCreate,
    AssertRefSnapshotId { ref_name: Seq<char>, snapshot_id: i64 },
}

impl View for TableRequirement {
    type V = TableRequirementView;

    open spec fn view(&self) -> TableRequirementView {
        match self {
            TableRequirement::AssertCreate => TableRequirementView::AssertCreate,
            TableRequirement::AssertRefSnapshotId { ref_name, snapshot_id } => {
                TableRequirementView::AssertRefSnapshotId {
                    ref_name: ref_name@,
                    snapshot_id: *snapshot_id,
                }
            },
        }
    }
}

/// One step of a commit: a change to the metadata document.
pub enum TableUpdate {
    AddSchema { schema: Schema, last_column_id: Option<i32> },
    SetCurrentSchema { schema_id: i32 },
    AddPartitionSpec { spec: PartitionSpec },
    SetDefaultSpec { spec_id: i32 },
    AddSnapshot { snapshot: Snapshot },
    SetSnapshotRef { ref_name: String, snapshot_reference: SnapshotReference },
    RemoveSnapshots { snapshot_ids: Vec<i64> },
    SetProperties { updates: Vec<(String, String)> },
    RemoveProperties { removals: Vec<String> },
}

/// The spec-level record of an update.
#[verifier::ext_equal]
pub enum TableUpdateView {
    AddSchema { schema: SchemaView, last_column_id: Option<i32> },
    SetCurrentSchema { schema_id: i32 },
    AddPartitionSpec { spec: PartitionSpecView },
    SetDefaultSpec { spec_id: i32 },
    AddSnapshot { snapshot: SnapshotView },
    SetSnapshotRef { ref_name: Seq<char>, snapshot_reference: SnapshotReference },
    RemoveSnapshots { snapshot_ids: Seq<i64> },
    SetProperties { updates: Seq<(Seq<char>, Seq<char>)> },
    RemoveProperties { removals: Seq<Seq<char>> },
}

impl View for TableUpdate {
    type V = TableUpdateView;

    open spec fn view(&self) -> TableUpdateView {
        match self {
            TableUpdate::AddSchema { schema, last_column_id } => TableUpdateView::AddSchema {
                schema: schema@,
                last_column_id: *last_column_id,
            },
            TableUpdate::SetCurrentSchema { schema_id } => TableUpdateView::SetCurrentSchema {
                schema_id: *schema_id,
            },
            TableUpdate::AddPartitionSpec { spec } => TableUpdateView::AddPartitionSpec {
                spec: spec@,
            },
            TableUpdate::SetDefaultSpec { spec_id } => TableUpdateView::SetDefaultSpec {
                spec_id: *spec_id,
            },
            TableUpdate::AddSnapshot { snapshot } => TableUpdateView::AddSnapshot {
                snapshot: snapshot@,
            },
            TableUpdate::SetSnapshotRef { ref_name, snapshot_reference } => {
                TableUpdateView::SetSnapshotRef {
                    ref_name: ref_name@,
                    snapshot_reference: *snapshot_reference,
                }
            },
            TableUpdate::RemoveSnapshots { snapshot_ids } => TableUpdateView::RemoveSnapshots {
                snapshot_ids: snapshot_ids@,
            },
            TableUpdate::SetProperties { updates } => TableUpdateView::SetProperties {
                updates: kv_view(updates@),
            },
            TableUpdate::RemoveProperties { removals } => TableUpdateView::RemoveProperties {
                removals: strings_view(removals@),
            },
        }
    }
}

/// Whether a requirement holds of the current document (`None`: the table
/// does not exist).
pub open spec fn spec_requirement_holds(
    md: Option<TableMetadataView>,
    req: TableRequirementView,
) -> bool {
    match req {
        TableRequirementView::AssertCreate => md is None,
        TableRequirementView::AssertRefSnapshotId { ref_name, snapshot_id } => match md {
            Option::Some(m) => match ref_lookup(m.refs, ref_name) {
                Option::Some(r) => r.snapshot_id == snapshot_id,
                Option::None => false,
            },
            Option::None => false,
        },
    }
}

/// Whether every requirement of a commit holds.
pub open spec fn spec_requirements_hold(
    md: Option<TableMetadataView>,
    reqs: Seq<TableRequirementView>,
) -> bool {
    forall|i: int| 0 <= i < reqs.len() ==> spec_requirement_holds(md, #[trigger] reqs[i])
}

/// The spec-level records of a list of requirements.
pub open spec fn reqs_view(v: Seq<TableRequirement>) -> Seq<TableRequirementView> {
    v.map_values(|q: TableRequirement| q@)
}

/// The spec-level records of a list of updates.
pub open spec fn updates_view(v: Seq<TableUpdate>) -> Seq<TableUpdateView> {
    v.map_values(|u: TableUpdate| u@)
}

/// The snapshots left after removing the given ids.
pub open spec fn spec_remove_snapshots(v: Seq<SnapshotView>, ids: Seq<i64>) -> Seq<SnapshotView> {
    v.filter(|s: SnapshotView| !ids.contains(s.snapshot_id))
}

/// The refs left after removing those that point at the given ids.
pub open spec fn spec_remove_refs(v: Seq<(Seq<char>, SnapshotReference)>, ids: Seq<i64>) -> Seq<
    (Seq<char>, SnapshotReference),
> {
    v.filter(|p: (Seq<char>, SnapshotReference)| !ids.contains(p.1.snapshot_id))
}

/// The log entries left after removing the given ids.
pub open spec fn spec_remove_log(v: Seq<SnapshotLog>, ids: Seq<i64>) -> Seq<SnapshotLog> {
    v.filter(|l: SnapshotLog| !ids.contains(l.snapshot_id))
}

/// The properties left after removing the given keys.
pub open spec fn spec_remove_props(
    v: Seq<(Seq<char>, Seq<char>)>,
    removals: Seq<Seq<char>>,
) -> Seq<(Seq<char>, Seq<char>)> {
    v.filter(|p: (Seq<char>, Seq<char>)| !removals.contains(p.0))
}

/// The larger of two values.
pub open spec fn spec_max_i64_v(a: i64, b: i64) -> i64 {
    if a > b {
        a
    } else {
        b
    }
}

/// The document produced by one update, or `None` when the update does not
/// apply (a pointer it sets does not resolve, or a snapshot id is reused).
pub open spec fn spec_apply_update(
    mv: TableMetadataView,
    u: TableUpdateView,
) -> Option<TableMetadataView> {
    match u {
        TableUpdateView::AddSchema { schema, last_column_id } => Option::Some(
            TableMetadataView { schemas: mv.schemas.push(schema), ..mv },
        ),
        TableUpdateView::SetCurrentSchema { schema_id } => {
            if schema_lookup(mv.schemas, schema_id) is Some {
                Option::Some(TableMetadataView { current_schema_id: schema_id, ..mv })
            } else {
                Option::None
            }
        },
        TableUpdateView::AddPartitionSpec { spec } => Option::Some(
            TableMetadataView { partition_specs: mv.partition_specs.push(spec), ..mv },
        ),
        TableUpdateView::SetDefaultSpec { spec_id } => {
            if partition_spec_lookup(mv.partition_specs, spec_id) is Some {
                Option::Some(TableMetadataView { default_spec_id: spec_id, ..mv })
            } else {
                Option::None
            }
        },
        TableUpdateView::AddSnapshot { snapshot } => {
            if snapshot_lookup(mv.snapshots, snapshot.snapshot_id) is Some
                || snapshot.sequence_number < 0 {
                Option::None
            } else {
                Option::Some(
                    TableMetadataView {
                        snapshots: mv.snapshots.push(snapshot),
                        last_sequence_number: spec_max_i64_v(
                            mv.last_sequence_number,
                            snapshot.sequence_number,
                        ),
                        last_updated_ms: snapshot.timestamp_ms,
                        ..mv
                    },
                )
            }
        },
        TableUpdateView::SetSnapshotRef { ref_name, snapshot_reference } => {
            match snapshot_lookup(mv.snapshots, snapshot_reference.snapshot_id) {
                Option::None => Option::None,
                Option::Some(target) => {
                    let with_ref = TableMetadataView {
                        refs: mv.refs.push((ref_name, snapshot_reference)),
                        ..mv
                    };
                    if ref_name == "main"@ {
                        Option::Some(
                            TableMetadataView {
                                current_snapshot_id: Option::Some(snapshot_reference.snapshot_id),
                                snapshot_log: mv.snapshot_log.push(
                                    SnapshotLog {
                                        snapshot_id: snapshot_reference.snapshot_id,
                                        timestamp_ms: target.timestamp_ms,
                                    },
                                ),
                                ..with_ref
                            },
                        )
                    } else {
                        Option::Some(with_ref)
                    }
                },
            }
        },
        TableUpdateView::RemoveSnapshots { snapshot_ids } => Option::Some(
            TableMetadataView {
                snapshots: spec_remove_snapshots(mv.snapshots, snapshot_ids),
                refs: spec_remove_refs(mv.refs, snapshot_ids),
                snapshot_log: spec_remove_log(mv.snapshot_log, snapshot_ids),
                current_snapshot_id: match mv.current_snapshot_id {
                    Option::Some(id) => if snapshot_ids.contains(id) {
                        Option::None
                    } else {
                        Option::Some(id)
                    },
                    Option::None => Option::None,
                },
                ..mv
            },
        ),
        TableUpdateView::SetProperties { updates } => Option::Some(
            TableMetadataView { properties: mv.properties + updates, ..mv },
        ),
        TableUpdateView::RemoveProperties { removals } => Option::Some(
            TableMetadataView { properties: spec_remove_props(mv.properties, removals), ..mv },
        ),
    }
}

/// Decides whether a value occurs in a list.
pub fn contains_i64(v: &Vec<i64>, x: i64) -> (r: bool)
    ensures
        r == v@.contains(x),
{
    let mut i: usize = 0;
    while i < v.len()
        invariant
            i <= v@.len(),
            forall|j: int| 0 <= j < i ==> v@[j] != x,
        decreases v@.len() - i,
    {
        if v[i] == x {
            assert(v@.contains(x)) by {
                assert(v@[i as int] == x);
            }
            return true;
        }
        i = i + 1;
    }
    false
}

/// Decides whether a string occurs in a list.
pub fn contains_string(v: &Vec<String>, x: &String) -> (r: bool)
    ensures
        r == strings_view(v@).contains(x@),
{
    let mut i: usize = 0;
    while i < v.len()
        invariant
            i <= v@.len(),
            forall|j: int| 0 <= j < i ==> strings_view(v@)[j] != x@,
        decreases v@.len() - i,
    {
        if string_eq_str(&v[i], x.as_str()) {
            assert(strings_view(v@).contains(x@)) by {
                assert(strings_view(v@)[i as int] == x@);
            }
            return true;
        }
        i = i + 1;
    }
    false
}

/// A resolved ref lookup names one of the stored pairs, and any stored pair
/// makes the lookup of its name succeed.
pub proof fn lemma_ref_lookup_member(refs: Seq<(Seq<char>, SnapshotReference)>, name: Seq<char>)
    ensures
        ref_lookup(refs, name) is Some ==> exists|i: int|
            0 <= i < refs.len() && #[trigger] refs[i].0 == name && refs[i].1 == ref_lookup(
                refs,
                name,
            )->Some_0,
        (exists|i: int| 0 <= i < refs.len() && #[trigger] refs[i].0 == name) ==> ref_lookup(
            refs,
            name,
        ) is Some,
    decreases refs.len(),
{
    if refs.len() > 0 {
        lemma_ref_lookup_member(refs.drop_last(), name);
        if refs.last().0 == name {
            assert(refs[refs.len() - 1].0 == name);
        } else {
            if ref_lookup(refs, name) is Some {
                let i = choose|i: int|
                    0 <= i < refs.drop_last().len() && #[trigger] refs.drop_last()[i].0 == name
                        && refs.drop_last()[i].1 == ref_lookup(refs.drop_last(), name)->Some_0;
                assert(refs[i].0 == name);
            }
            if exists|i: int| 0 <= i < refs.len() && #[trigger] refs[i].0 == name {
                let i = choose|i: int| 0 <= i < refs.len() && #[trigger] refs[i].0 == name;
                assert(i < refs.len() - 1);
                assert(refs.drop_last()[i].0 == name);
            }
        }
    }
}

/// A resolved snapshot lookup returns one of the stored snapshots with the
/// requested id, and any stored snapshot makes the lookup of its id succeed.
pub proof fn lemma_snapshot_lookup_member(snaps: Seq<SnapshotView>, id: i64)
    ensures
        snapshot_lookup(snaps, id) is Some ==> {
            &&& snapshot_lookup(snaps, id)->Some_0.snapshot_id == id
            &&& exists|i: int|
                0 <= i < snaps.len() && #[trigger] snaps[i] == snapshot_lookup(snaps, id)->Some_0
        },
        (exists|i: int| 0 <= i < snaps.len() && (#[trigger] snaps[i]).snapshot_id == id)
            ==> snapshot_lookup(snaps, id) is Some,
    decreases snaps.len(),
{
    if snaps.len() > 0 {
        lemma_snapshot_lookup_member(snaps.drop_last(), id);
        if snaps.last().snapshot_id == id {
            assert(snaps[snaps.len() - 1] == snaps.last());
        } else {
            if snapshot_lookup(snaps, id) is Some {
                let i = choose|i: int|
                    0 <= i < snaps.drop_last().len() && #[trigger] snaps.drop_last()[i]
                        == snapshot_lookup(snaps.drop_last(), id)->Some_0;
                assert(snaps[i] == snapshot_lookup(snaps, id)->Some_0);
            }
            if exists|i: int| 0 <= i < snaps.len() && (#[trigger] snaps[i]).snapshot_id == id {
                let i = choose|i: int|
                    0 <= i < snaps.len() && (#[trigger] snaps[i]).snapshot_id == id;
                assert(i < snaps.len() - 1);
                assert(snaps.drop_last()[i].snapshot_id == id);
            }
        }
    }
}

/// The view of an optional document.
pub open spec fn opt_md_view(md: Option<&TableMetadata>) -> Option<TableMetadataView> {
    match md {
        Option::Some(m) => Option::Some(m@),
        Option::None => Option::None,
    }
}

/// Decides whether a requirement holds of the current document.
pub fn check_requirement(md: Option<&TableMetadata>, req: &TableRequirement) -> (r: bool)
    ensures
        r == spec_requirement_holds(opt_md_view(md), req@),
{
    match req {
        TableRequirement::AssertCreate => md.is_none(),
        TableRequirement::AssertRefSnapshotId { ref_name, snapshot_id } => match md {
            Option::Some(m) => match m.get_ref(ref_name.as_str()) {
                Option::Some(r) => r.snapshot_id == *snapshot_id,
                Option::None => false,
            },
            Option::None => false,
        },
    }
}

/// Decides whether every requirement of a commit holds.
pub fn check_requirements(md: Option<&TableMetadata>, reqs: &Vec<TableRequirement>) -> (r: bool)
    ensures
        r == spec_requirements_hold(opt_md_view(md), reqs_view(reqs@)),
{
    let ghost qs = reqs_view(reqs@);
    let mut i: usize = 0;
    while i < reqs.len()
        invariant
            i <= reqs@.len(),
            qs == reqs_view(reqs@),
            forall|j: int| 0 <= j < i ==> spec_requirement_holds(opt_md_view(md), #[trigger] qs[j]),
        decreases reqs@.len() - i,
    {
        if !check_requirement(md, &reqs[i]) {
            assert(!spec_requirement_holds(opt_md_view(md), qs[i as int]));
            return false;
        }
        i = i + 1;
    }
    true
}

/// Removes the snapshots with the given ids.
fn filter_snapshots(snaps: Vec<Snapshot>, ids: &Vec<i64>) -> (r: Vec<Snapshot>)
    ensures
        snapshots_view(r@) == spec_remove_snapshots(snapshots_view(snaps@), ids@),
{
    let ghost src = snapshots_view(snaps@);
    let mut out: Vec<Snapshot> = Vec::new();
    let mut rest = snaps;
    let ghost i: int = 0;
    proof {
        reveal(Seq::filter);
        assert(spec_remove_snapshots(src.take(0), ids@) =~= Seq::<SnapshotView>::empty());
        assert(snapshots_view(out@) =~= Seq::<SnapshotView>::empty());
    }
    while rest.len() > 0
        invariant
            0 <= i <= src.len(),
            src == snapshots_view(snaps@),
            snapshots_view(rest@) =~= src.skip(i),
            snapshots_view(out@) =~= spec_remove_snapshots(src.take(i), ids@),
        decreases rest@.len(),
    {
        let ghost outv = snapshots_view(out@);
        let ghost restv = snapshots_view(rest@);
        let e = rest.remove(0);
        proof {
            assert(restv =~= src.skip(i));
            assert(restv.len() > 0);
            assert(src.skip(i)[0] == src[i]);
            assert(restv[0] == src[i]);
            assert(e@ == restv[0]);
            assert(snapshots_view(rest@) =~= restv.remove(0));
            assert(restv.remove(0) =~= src.skip(i + 1));
        }
        let keep = !contains_i64(ids, e.snapshot_id);
        if keep {
            out.push(e);
        }
        proof {
            reveal(Seq::filter);
            assert(src.take(i + 1).drop_last() =~= src.take(i));
            assert(src.take(i + 1).last() == src[i]);
            if keep {
                assert(snapshots_view(out@) =~= outv.push(src[i]));
            }
            assert(snapshots_view(out@) =~= spec_remove_snapshots(src.take(i + 1), ids@));
            i = i + 1;
        }
    }
    proof {
        assert(src.take(src.len() as int) =~= src);
    }
    out
}

/// Removes the refs that point at any of the given snapshot ids.
fn filter_refs(refs: Vec<(String, SnapshotReference)>, ids: &Vec<i64>) -> (r: Vec<
    (String, SnapshotReference),
>)
    ensures
        refs_view(r@) == spec_remove_refs(refs_view(refs@), ids@),
{
    let ghost src = refs_view(refs@);
    let mut out: Vec<(String, SnapshotReference)> = Vec::new();
    let mut rest = refs;
    let ghost i: int = 0;
    proof {
        reveal(Seq::filter);
        assert(spec_remove_refs(src.take(0), ids@) =~= Seq::<
            (Seq<char>, SnapshotReference),
        >::empty());
        assert(refs_view(out@) =~= Seq::<(Seq<char>, SnapshotReference)>::empty());
    }
    while rest.len() > 0
        invariant
            0 <= i <= src.len(),
            src == refs_view(refs@),
            refs_view(rest@) =~= src.skip(i),
            refs_view(out@) =~= spec_remove_refs(src.take(i), ids@),
        decreases rest@.len(),
    {
        let ghost outv = refs_view(out@);
        let ghost restv = refs_view(rest@);
        let e = rest.remove(0);
        proof {
            assert(restv =~= src.skip(i));
            assert(restv.len() > 0);
            assert(src.skip(i)[0] == src[i]);
            assert(restv[0] == src[i]);
            assert((e.0@, e.1) == restv[0]);
            assert(refs_view(rest@) =~= restv.remove(0));
            assert(restv.remove(0) =~= src.skip(i + 1));
        }
        let keep = !contains_i64(ids, e.1.snapshot_id);
        if keep {
            out.push(e);
        }
        proof {
            reveal(Seq::filter);
            assert(src.take(i + 1).drop_last() =~= src.take(i));
            assert(src.take(i + 1).last() == src[i]);
            if keep {
                assert(refs_view(out@) =~= outv.push(src[i]));
            }
            assert(refs_view(out@) =~= spec_remove_refs(src.take(i + 1), ids@));
            i = i + 1;
        }
    }
    proof {
        assert(src.take(src.len() as int) =~= src);
    }
    out
}

/// Removes the log entries of the given snapshot ids.
fn filter_log(log: Vec<SnapshotLog>, ids: &Vec<i64>) -> (r: Vec<SnapshotLog>)
    ensures
        r@ == spec_remove_log(log@, ids@),
{
    let ghost src = log@;
    let mut out: Vec<SnapshotLog> = Vec::new();
    let mut i: usize = 0;
    proof {
        reveal(Seq::filter);
        assert(spec_remove_log(src.take(0), ids@) =~= Seq::<SnapshotLog>::empty());
    }
    while i < log.len()
        invariant
            i <= src.len(),
            log@ == src,
            out@ =~= spec_remove_log(src.take(i as int), ids@),
        decreases src.len() - i,
    {
        let e = log[i];
        let keep = !contains_i64(ids, e.snapshot_id);
        if keep {
            out.push(e);
        }
        proof {
            reveal(Seq::filter);
            assert(src.take(i as int + 1).drop_last() =~= src.take(i as int));
            assert(src.take(i as int + 1).last() == src[i as int]);
            assert(out@ =~= spec_remove_log(src.take(i as int + 1), ids@));
        }
        i = i + 1;
    }
    proof {
        assert(src.take(src.len() as int) =~= src);
    }
    out
}

/// Removes the properties with the given keys.
fn filter_props(props: Vec<(String, String)>, removals: &Vec<String>) -> (r: Vec<(String, String)>)
    ensures
        kv_view(r@) == spec_remove_props(kv_view(props@), strings_view(removals@)),
{
    let ghost src = kv_view(props@);
    let mut out: Vec<(String, String)> = Vec::new();
    let mut rest = props;
    let ghost i: int = 0;
    proof {
        reveal(Seq::filter);
        assert(spec_remove_props(src.take(0), strings_view(removals@)) =~= Seq::<
            (Seq<char>, Seq<char>),
        >::empty());
        assert(kv_view(out@) =~= Seq::<(Seq<char>, Seq<char>)>::empty());
    }
    while rest.len() > 0
        invariant
            0 <= i <= src.len(),
            kv_view(rest@) =~= src.skip(i),
            kv_view(out@) =~= spec_remove_props(src.take(i), strings_view(removals@)),
        decreases rest@.len(),
    {
        let ghost outv = kv_view(out@);
        let ghost restv = kv_view(rest@);
        let e = rest.remove(0);
        proof {
            assert(restv =~= src.skip(i));
            assert(restv.len() > 0);
            assert(src.skip(i)[0] == src[i]);
            assert(restv[0] == src[i]);
            assert((e.0@, e.1@) == restv[0]);
            assert(kv_view(rest@) =~= restv.remove(0));
            assert(restv.remove(0) =~= src.skip(i + 1));
        }
        let keep = !contains_string(removals, &e.0);
        if keep {
            out.push(e);
        }
        proof {
            reveal(Seq::filter);
            assert(src.take(i + 1).drop_last() =~= src.take(i));
            assert(src.take(i + 1).last() == src[i]);
            if keep {
                assert(kv_view(out@) =~= outv.push(src[i]));
            }
            assert(kv_view(out@) =~= spec_remove_props(src.take(i + 1), strings_view(removals@)));
            i = i + 1;
        }
    }
    proof {
        assert(src.take(src.len() as int) =~= src);
    }
    out
}

/// Applies one update to a document, producing the next document. Fails,
/// changing nothing, when the update does not apply: a pointer it sets does
/// not resolve, a snapshot id is reused, or a sequence number is negative.
pub fn apply_update(md: TableMetadata, u: &TableUpdate) -> (r: Result<TableMetadata, Error>)
    ensures
        match r {
            Result::Ok(m2) => spec_apply_update(md@, u@) == Option::Some(m2@),
            Result::Err(e) => spec_apply_update(md@, u@) is None && (e is NotFound || e
                is InvalidFormat),
        },
{
    let ghost pre = md@;
    let mut md = md;
    match u {
        TableUpdate::AddSchema { schema, last_column_id } => {
            md.schemas.push(clone_schema(schema));
            proof {
                assert(md@.schemas =~= pre.schemas.push(schema@));
                assert(spec_apply_update(pre, u@) == Option::Some(md@)) by {
                    assert(spec_apply_update(pre, u@)->Some_0 =~= md@);
                }
            }
            Result::Ok(md)
        },
        TableUpdate::SetCurrentSchema { schema_id } => {
            if md.find_schema(*schema_id).is_none() {
                return Result::Err(
                    Error::NotFound(String::from_str("Schema"), crate::util::format_u64(
                        if *schema_id >= 0 {
                            *schema_id as u64
                        } else {
                            0
                        },
                    )),
                );
            }
            md.current_schema_id = *schema_id;
            proof {
                assert(spec_apply_update(pre, u@)->Some_0 =~= md@);
            }
            Result::Ok(md)
        },
        TableUpdate::AddPartitionSpec { spec } => {
            md.partition_specs.push(clone_partition_spec(spec));
            proof {
                assert(md@.partition_specs =~= pre.partition_specs.push(spec@));
                assert(spec_apply_update(pre, u@)->Some_0 =~= md@);
            }
            Result::Ok(md)
        },
        TableUpdate::SetDefaultSpec { spec_id } => {
            if md.find_partition_spec(*spec_id).is_none() {
                return Result::Err(
                    Error::NotFound(String::from_str("Partition spec"), crate::util::format_u64(
                        if *spec_id >= 0 {
                            *spec_id as u64
                        } else {
                            0
                        },
                    )),
                );
            }
            md.default_spec_id = *spec_id;
            proof {
                assert(spec_apply_update(pre, u@)->Some_0 =~= md@);
            }
            Result::Ok(md)
        },
        TableUpdate::AddSnapshot { snapshot } => {
            if snapshot.sequence_number < 0 {
                return Result::Err(
                    Error::InvalidFormat(String::from_str("negative sequence number")),
                );
            }
            if md.find_snapshot(snapshot.snapshot_id).is_some() {
                return Result::Err(
                    Error::InvalidFormat(String::from_str("snapshot id already exists")),
                );
            }
            if md.last_sequence_number < snapshot.sequence_number {
                md.last_sequence_number = snapshot.sequence_number;
            }
            md.last_updated_ms = snapshot.timestamp_ms;
            md.snapshots.push(clone_snapshot(snapshot));
            proof {
                assert(md@.snapshots =~= pre.snapshots.push(snapshot@));
                assert(spec_apply_update(pre, u@)->Some_0 =~= md@);
            }
            Result::Ok(md)
        },
        TableUpdate::SetSnapshotRef { ref_name, snapshot_reference } => {
            let target_ts: i64 = match md.find_snapshot(snapshot_reference.snapshot_id) {
                Option::Some(s) => s.timestamp_ms,
                Option::None => {
                    return Result::Err(
                        Error::NotFound(
                            String::from_str("Snapshot"),
                            String::from_str("for ref"),
                        ),
                    );
                },
            };
            md.refs.push((ref_name.clone(), *snapshot_reference));
            if string_eq_str(ref_name, "main") {
                md.current_snapshot_id = Option::Some(snapshot_reference.snapshot_id);
                md.snapshot_log.push(
                    SnapshotLog {
                        snapshot_id: snapshot_reference.snapshot_id,
                        timestamp_ms: target_ts,
                    },
                );
            }
            proof {
                assert(md@.refs =~= pre.refs.push((ref_name@, *snapshot_reference)));
                assert(spec_apply_update(pre, u@)->Some_0 =~= md@);
            }
            Result::Ok(md)
        },
        TableUpdate::RemoveSnapshots { snapshot_ids } => {
            let TableMetadata {
                format_version,
                table_uuid,
                location,
                last_sequence_number,
                last_updated_ms,
                current_schema_id,
                schemas,
                partition_specs,
                default_spec_id,
                snapshots,
                current_snapshot_id,
                refs,
                snapshot_log,
                properties,
            } = md;
            let snapshots = filter_snapshots(snapshots, snapshot_ids);
            let refs = filter_refs(refs, snapshot_ids);
            let snapshot_log = filter_log(snapshot_log, snapshot_ids);
            let current_snapshot_id = match current_snapshot_id {
                Option::Some(id) => if contains_i64(snapshot_ids, id) {
                    Option::None
                } else {
                    Option::Some(id)
                },
                Option::None => Option::None,
            };
            let md = TableMetadata {
                format_version,
                table_uuid,
                location,
                last_sequence_number,
                last_updated_ms,
                current_schema_id,
                schemas,
                partition_specs,
                default_spec_id,
                snapshots,
                current_snapshot_id,
                refs,
                snapshot_log,
                properties,
            };
            proof {
                assert(spec_apply_update(pre, u@)->Some_0 =~= md@);
            }
            Result::Ok(md)
        },
        TableUpdate::SetProperties { updates } => {
            let ghost upd = kv_view(updates@);
            let mut i: usize = 0;
            while i < updates.len()
                invariant
                    i <= updates@.len(),
                    upd == kv_view(updates@),
                    md@ =~= (TableMetadataView {
                        properties: pre.properties + upd.take(i as int),
                        ..pre
                    }),
                decreases updates@.len() - i,
            {
                let ghost pv = kv_view(md.properties@);
                let (k, v) = (&updates[i].0, &updates[i].1);
                md.properties.push((k.clone(), v.clone()));
                proof {
                    assert(upd[i as int] == (updates@[i as int].0@, updates@[i as int].1@));
                    assert(kv_view(md.properties@) =~= pv.push(upd[i as int]));
                    assert(pre.properties + upd.take(i as int + 1) =~= (pre.properties + upd.take(
                        i as int,
                    )).push(upd[i as int]));
                    assert(md@ =~= (TableMetadataView {
                        properties: pre.properties + upd.take(i as int + 1),
                        ..pre
                    }));
                }
                i = i + 1;
            }
            proof {
                assert(upd.take(updates@.len() as int) =~= upd);
                assert(spec_apply_update(pre, u@)->Some_0 =~= md@);
            }
            Result::Ok(md)
        },
        TableUpdate::RemoveProperties { removals } => {
            let TableMetadata {
                format_version,
                table_uuid,
                location,
                last_sequence_number,
                last_updated_ms,
                current_schema_id,
                schemas,
                partition_specs,
                default_spec_id,
                snapshots,
                current_snapshot_id,
                refs,
                snapshot_log,
                properties,
            } = md;
            let properties = filter_props(properties, removals);
            let md = TableMetadata {
                format_version,
                table_uuid,
                location,
                last_sequence_number,
                last_updated_ms,
                current_schema_id,
                schemas,
                partition_specs,
                default_spec_id,
                snapshots,
                current_snapshot_id,
                refs,
                snapshot_log,
                properties,
            };
            proof {
                assert(spec_apply_update(pre, u@)->Some_0 =~= md@);
            }
            Result::Ok(md)
        },
    }
}

/// Applies a list of updates in order. Fails, reporting the first update
/// that does not apply, without producing a document.
pub fn apply_updates(md: TableMetadata, us: &Vec<TableUpdate>) -> (r: Result<TableMetadata, Error>)
    ensures
        match r {
            Result::Ok(m2) => spec_apply_updates(md@, updates_view(us@)) == Option::Some(m2@),
            Result::Err(e) => spec_apply_updates(md@, updates_view(us@)) is None && (e
                is NotFound || e is InvalidFormat),
        },
{
    let ghost pre = md@;
    let ghost uvs = updates_view(us@);
    let mut acc = md;
    let mut i: usize = 0;
    proof {
        assert(uvs.skip(0) =~= uvs);
    }
    while i < us.len()
        invariant
            i <= us@.len(),
            pre == md@,
            uvs == updates_view(us@),
            spec_apply_updates(pre, uvs) == spec_apply_updates(acc@, uvs.skip(i as int)),
        decreases us@.len() - i,
    {
        proof {
            assert(uvs.skip(i as int).first() == uvs[i as int]);
            assert(uvs.skip(i as int).drop_first() =~= uvs.skip(i as int + 1));
        }
        acc = match apply_update(acc, &us[i]) {
            Result::Ok(m2) => m2,
            Result::Err(e) => {
                proof {
                    assert(spec_apply_updates(pre, uvs) is None);
                }
                return Result::Err(e);
            },
        };
        i = i + 1;
    }
    proof {
        assert(uvs.skip(us@.len() as int) =~= Seq::<TableUpdateView>::empty());
    }
    Result::Ok(acc)
}

/// Decides whether a document is internally consistent.
pub fn check_wf(md: &TableMetadata) -> (r: bool)
    ensures
        r == md@.wf(),
{
    if md.last_sequence_number < 0 {
        return false;
    }
    let mut i: usize = 0;
    while i < md.refs.len()
        invariant
            i <= md.refs@.len(),
            forall|j: int|
                0 <= j < i ==> {
                    let nm = (#[trigger] md@.refs[j]).0;
                    ref_lookup(md@.refs, nm) is Some && snapshot_lookup(
                        md@.snapshots,
                        ref_lookup(md@.refs, nm)->Some_0.snapshot_id,
                    ) is Some
                },
        decreases md.refs@.len() - i,
    {
        let rr = match md.get_ref(md.refs[i].0.as_str()) {
            Option::Some(rr) => rr,
            Option::None => {
                proof {
                    lemma_ref_lookup_member(md@.refs, md@.refs[i as int].0);
                    assert(md@.refs[i as int].0 == md@.refs[i as int].0);
                }
                return false;
            },
        };
        if md.find_snapshot(rr.snapshot_id).is_none() {
            proof {
                assert(!md@.wf()) by {
                    let nm = md@.refs[i as int].0;
                    assert(ref_lookup(md@.refs, nm) is Some);
                    assert(snapshot_lookup(
                        md@.snapshots,
                        ref_lookup(md@.refs, nm)->Some_0.snapshot_id,
                    ) is None);
                }
            }
            return false;
        }
        i = i + 1;
    }
    match md.current_snapshot_id {
        Option::Some(id) => {
            if md.find_snapshot(id).is_none() {
                return false;
            }
        },
        Option::None => {},
    }
    match md.get_ref("main") {
        Option::Some(rr) => {
            let matches_current = match md.current_snapshot_id {
                Option::Some(id) => id == rr.snapshot_id,
                Option::None => false,
            };
            if !matches_current {
                return false;
            }
        },
        Option::None => {},
    }
    let mut i: usize = 0;
    while i < md.snapshots.len()
        invariant
            i <= md.snapshots@.len(),
            md.last_sequence_number >= 0,
            forall|j: int|
                0 <= j < i ==> {
                    let sid = (#[trigger] md@.snapshots[j]).snapshot_id;
                    snapshot_lookup(md@.snapshots, sid) is Some && {
                        let s = snapshot_lookup(md@.snapshots, sid)->Some_0;
                        0 <= s.sequence_number <= md@.last_sequence_number
                    }
                },
        decreases md.snapshots@.len() - i,
    {
        let sid = md.snapshots[i].snapshot_id;
        let s = match md.find_snapshot(sid) {
            Option::Some(s) => s,
            Option::None => {
                proof {
                    lemma_snapshot_lookup_member(md@.snapshots, sid);
                    assert(md@.snapshots[i as int].snapshot_id == sid);
                }
                return false;
            },
        };
        if s.sequence_number < 0 || s.sequence_number > md.last_sequence_number {
            proof {
                assert(!md@.wf()) by {
                    assert(snapshot_lookup(md@.snapshots, sid) is Some);
                }
            }
            return false;
        }
        i = i + 1;
    }
    if md.find_schema(md.current_schema_id).is_none() {
        return false;
    }
    if md.find_partition_spec(md.default_spec_id).is_none() {
        return false;
    }
    proof {
        assert(md@.wf()) by {
            assert forall|name: Seq<char>| (#[trigger] ref_lookup(md@.refs, name)) is Some
                implies snapshot_lookup(
                md@.snapshots,
                ref_lookup(md@.refs, name)->Some_0.snapshot_id,
            ) is Some by {
                lemma_ref_lookup_member(md@.refs, name);
                let j = choose|j: int|
                    0 <= j < md@.refs.len() && #[trigger] md@.refs[j].0 == name && md@.refs[j].1
                        == ref_lookup(md@.refs, name)->Some_0;
                assert(ref_lookup(md@.refs, md@.refs[j].0) is Some);
            }
            assert forall|id: i64| (#[trigger] snapshot_lookup(md@.snapshots, id)) is Some
                implies {
                let s = snapshot_lookup(md@.snapshots, id)->Some_0;
                0 <= s.sequence_number <= md@.last_sequence_number && s.snapshot_id == id
            } by {
                lemma_snapshot_lookup_member(md@.snapshots, id);
                let j = choose|j: int|
                    0 <= j < md@.snapshots.len() && #[trigger] md@.snapshots[j] == snapshot_lookup(
                        md@.snapshots,
                        id,
                    )->Some_0;
                assert(md@.snapshots[j].snapshot_id == id);
            }
        }
    }
    true
}

/// The metadata document of any tabular: a table, a view, or a
/// materialized view.
pub enum TabularMetadata {
    Table(TableMetadata),
    View(ViewMetadata),
    MaterializedView(MaterializedViewMetadata),
}

/// The spec-level record of a tabular document.
#[verifier::ext_equal]
pub enum TabularMetadataView {
    Table(TableMetadataView),
    View(ViewMetadataView),
    MaterializedView(MaterializedViewMetadataView),
}

impl View for TabularMetadata {
    type V = TabularMetadataView;

    open spec fn view(&self) -> TabularMetadataView {
        match self {
            TabularMetadata::Table(m) => TabularMetadataView::Table(m@),
            TabularMetadata::View(m) => TabularMetadataView::View(m@),
            TabularMetadata::MaterializedView(m) => TabularMetadataView::MaterializedView(m@),
        }
    }
}

/// Copies a tabular document.
pub fn clone_tabular_metadata(t: &TabularMetadata) -> (r: TabularMetadata)
    ensures
        r@ == t@,
{
    match t {
        TabularMetadata::Table(m) => TabularMetadata::Table(clone_metadata(m)),
        TabularMetadata::View(m) => TabularMetadata::View(clone_view_metadata(m)),
        TabularMetadata::MaterializedView(m) => TabularMetadata::MaterializedView(
            clone_materialized_view_metadata(m),
        ),
    }
}

/// A commit: the table it addresses, the conditions to verify, and the
/// changes to apply, atomically.
pub struct CommitTable {
    pub identifier: Identifier,
    pub requirements: Vec<TableRequirement>,
    pub updates: Vec<TableUpdate>,
}

/// The spec-level records of the catalog's tabulars.
pub open spec fn tabulars_view(v: Seq<(Identifier, TabularMetadata, String)>) -> Seq<
    (IdentifierView, TabularMetadataView, Seq<char>),
> {
    v.map_values(|t: (Identifier, TabularMetadata, String)| (t.0@, t.1@, t.2@))
}

/// Looks a tabular up by identifier; the latest entry wins.
pub open spec fn tabular_lookup(
    tabs: Seq<(IdentifierView, TabularMetadataView, Seq<char>)>,
    id: IdentifierView,
) -> Option<(TabularMetadataView, Seq<char>)>
    decreases tabs.len(),
{
    if tabs.len() == 0 {
        Option::None
    } else if tabs.last().0 == id {
        Option::Some((tabs.last().1, tabs.last().2))
    } else {
        tabular_lookup(tabs.drop_last(), id)
    }
}

/// The spec-level records of the namespaces.
pub open spec fn namespaces_view(v: Seq<Vec<String>>) -> Seq<Seq<Seq<char>>> {
    v.map_values(|ns: Vec<String>| strings_view(ns@))
}

/// The identifiers registered under a namespace.
pub open spec fn spec_list_tabulars(
    tabs: Seq<(IdentifierView, TabularMetadataView, Seq<char>)>,
    namespace: Seq<Seq<char>>,
) -> Seq<IdentifierView> {
    tabs.filter(
        |t: (IdentifierView, TabularMetadataView, Seq<char>)| t.0.namespace == namespace,
    ).map_values(|t: (IdentifierView, TabularMetadataView, Seq<char>)| t.0)
}

/// The registrations left after dropping an identifier.
pub open spec fn spec_drop_tabular(
    tabs: Seq<(IdentifierView, TabularMetadataView, Seq<char>)>,
    id: IdentifierView,
) -> Seq<(IdentifierView, TabularMetadataView, Seq<char>)> {
    tabs.filter(|t: (IdentifierView, TabularMetadataView, Seq<char>)| t.0 != id)
}

/// A dropped identifier no longer resolves.
proof fn lemma_drop_tabular_lookup(
    tabs: Seq<(IdentifierView, TabularMetadataView, Seq<char>)>,
    id: IdentifierView,
)
    ensures
        tabular_lookup(spec_drop_tabular(tabs, id), id) is None,
    decreases tabs.len(),
{
    reveal(Seq::filter);
    if tabs.len() > 0 {
        lemma_drop_tabular_lookup(tabs.drop_last(), id);
        let rest = spec_drop_tabular(tabs.drop_last(), id);
        if tabs.last().0 != id {
            assert(spec_drop_tabular(tabs, id) =~= rest.push(tabs.last()));
            assert(rest.push(tabs.last()).drop_last() =~= rest);
        } else {
            assert(spec_drop_tabular(tabs, id) =~= rest);
        }
    }
}

/// Dropping one identifier leaves every other lookup unchanged.
proof fn lemma_drop_tabular_other(
    tabs: Seq<(IdentifierView, TabularMetadataView, Seq<char>)>,
    id: IdentifierView,
    other: IdentifierView,
)
    requires
        other != id,
    ensures
        tabular_lookup(spec_drop_tabular(tabs, id), other) == tabular_lookup(tabs, other),
    decreases tabs.len(),
{
    reveal(Seq::filter);
    if tabs.len() > 0 {
        lemma_drop_tabular_other(tabs.drop_last(), id, other);
        let rest = spec_drop_tabular(tabs.drop_last(), id);
        if tabs.last().0 != id {
            assert(spec_drop_tabular(tabs, id) =~= rest.push(tabs.last()));
            assert(rest.push(tabs.last()).drop_last() =~= rest);
        } else {
            assert(spec_drop_tabular(tabs, id) =~= rest);
        }
    }
}

/// An in-memory catalog: namespaces and tabulars with the location of each
/// tabular's current metadata document.
pub struct CatalogState {
    pub namespaces: Vec<Vec<String>>,
    pub tabulars: Vec<(Identifier, TabularMetadata, String)>,
}

/// The spec-level record of a catalog.
#[verifier::ext_equal]
pub struct CatalogStateView {
    pub namespaces: Seq<Seq<Seq<char>>>,
    pub tabulars: Seq<(IdentifierView, TabularMetadataView, Seq<char>)>,
}

impl View for CatalogState {
    type V = CatalogStateView;

    open spec fn view(&self) -> CatalogStateView {
        CatalogStateView {
            namespaces: namespaces_view(self.namespaces@),
            tabulars: tabulars_view(self.tabulars@),
        }
    }
}

/// Compares two namespaces by contents.
pub fn namespace_eq(a: &Vec<String>, b: &Vec<String>) -> (r: bool)
    ensures
        r == (strings_view(a@) == strings_view(b@)),
{
    if a.len() != b.len() {
        proof {
            assert(strings_view(a@).len() != strings_view(b@).len());
        }
        return false;
    }
    let mut i: usize = 0;
    while i < a.len()
        invariant
            i <= a@.len(),
            a@.len() == b@.len(),
            forall|j: int| 0 <= j < i ==> strings_view(a@)[j] == strings_view(b@)[j],
        decreases a@.len() - i,
    {
        if !(a[i] == b[i]) {
            proof {
                assert(strings_view(a@)[i as int] != strings_view(b@)[i as int]);
            }
            return false;
        }
        i = i + 1;
    }
    proof {
        assert(strings_view(a@) =~= strings_view(b@));
    }
    true
}

impl CatalogState {
    /// An empty catalog.
    pub fn new() -> (r: CatalogState)
        ensures
            r@.namespaces =~= Seq::<Seq<Seq<char>>>::empty(),
            r@.tabulars =~= Seq::<(IdentifierView, TabularMetadataView, Seq<char>)>::empty(),
    {
        CatalogState { namespaces: Vec::new(), tabulars: Vec::new() }
    }

    /// Decides whether a namespace exists.
    pub fn namespace_exists(&self, namespace: &Vec<String>) -> (r: bool)
        ensures
            r == self@.namespaces.contains(strings_view(namespace@)),
    {
        let mut i: usize = 0;
        while i < self.namespaces.len()
            invariant
                i <= self.namespaces@.len(),
                forall|j: int| 0 <= j < i ==> self@.namespaces[j] != strings_view(namespace@),
            decreases self.namespaces@.len() - i,
        {
            if namespace_eq(&self.namespaces[i], namespace) {
                assert(self@.namespaces.contains(strings_view(namespace@))) by {
                    assert(self@.namespaces[i as int] == strings_view(namespace@));
                }
                return true;
            }
            i = i + 1;
        }
        false
    }

    /// Creates a namespace. Fails with a conflict when it already exists.
    pub fn create_namespace(&mut self, namespace: Vec<String>) -> (r: Result<(), Error>)
        ensures
            match r {
                Result::Ok(()) => {
                    &&& !old(self)@.namespaces.contains(strings_view(namespace@))
                    &&& final(self)@.namespaces == old(self)@.namespaces.push(
                        strings_view(namespace@),
                    )
                    &&& final(self)@.tabulars == old(self)@.tabulars
                },
                Result::Err(e) => {
                    &&& old(self)@.namespaces.contains(strings_view(namespace@))
                    &&& e is Conflict
                    &&& final(self)@ == old(self)@
                },
            },
    {
        if self.namespace_exists(&namespace) {
            return Result::Err(Error::Conflict(String::from_str("namespace already exists")));
        }
        let ghost prior = self@;
        self.namespaces.push(namespace);
        proof {
            assert(final(self)@.namespaces.drop_last() =~= prior.namespaces);
            assert(final(self)@.namespaces =~= prior.namespaces.push(
                final(self)@.namespaces.last(),
            ));
            assert(final(self)@.tabulars =~= prior.tabulars);
        }
        Result::Ok(())
    }

    /// Finds a tabular entry by identifier.
    fn find_tabular(&self, id: &Identifier) -> (r: Option<&(Identifier, TabularMetadata, String)>)
        ensures
            match r {
                Option::Some(t) => tabular_lookup(self@.tabulars, id@) == Option::Some(
                    (t.1@, t.2@),
                ),
                Option::None => tabular_lookup(self@.tabulars, id@) is None,
            },
    {
        let mut i: usize = self.tabulars.len();
        proof {
            assert(self@.tabulars.take(i as int) =~= self@.tabulars);
        }
        while i > 0
            invariant
                i <= self.tabulars@.len(),
                tabular_lookup(self@.tabulars, id@) == tabular_lookup(
                    self@.tabulars.take(i as int),
                    id@,
                ),
            decreases i,
        {
            proof {
                assert(self@.tabulars.take(i as int).last() == self@.tabulars[i - 1]);
                assert(self@.tabulars.take(i as int).drop_last() =~= self@.tabulars.take(
                    i as int - 1,
                ));
            }
            if identifier_eq(&self.tabulars[i - 1].0, id) {
                return Option::Some(&self.tabulars[i - 1]);
            }
            i = i - 1;
        }
        proof {
            assert(self@.tabulars.take(0) =~= Seq::<
                (IdentifierView, TabularMetadataView, Seq<char>),
            >::empty());
        }
        Option::None
    }

    /// Decides whether a tabular exists.
    pub fn tabular_exists(&self, id: &Identifier) -> (r: bool)
        ensures
            r == tabular_lookup(self@.tabulars, id@) is Some,
    {
        self.find_tabular(id).is_some()
    }

    /// Loads the current document of a tabular.
    pub fn load_tabular(&self, id: &Identifier) -> (r: Result<TabularMetadata, Error>)
        ensures
            match r {
                Result::Ok(t) => tabular_lookup(self@.tabulars, id@) is Some && tabular_lookup(
                    self@.tabulars,
                    id@,
                )->Some_0.0 == t@,
                Result::Err(e) => tabular_lookup(self@.tabulars, id@) is None && e is NotFound,
            },
    {
        match self.find_tabular(id) {
            Option::Some(t) => Result::Ok(clone_tabular_metadata(&t.1)),
            Option::None => Result::Err(
                Error::NotFound(String::from_str("Tabular"), id.name.clone()),
            ),
        }
    }

    /// The location of the current metadata document of a tabular.
    pub fn metadata_location(&self, id: &Identifier) -> (r: Result<String, Error>)
        ensures
            match r {
                Result::Ok(loc) => tabular_lookup(self@.tabulars, id@) is Some && tabular_lookup(
                    self@.tabulars,
                    id@,
                )->Some_0.1 == loc@,
                Result::Err(e) => tabular_lookup(self@.tabulars, id@) is None && e is NotFound,
            },
    {
        match self.find_tabular(id) {
            Option::Some(t) => Result::Ok(t.2.clone()),
            Option::None => Result::Err(
                Error::NotFound(String::from_str("Tabular"), id.name.clone()),
            ),
        }
    }

    /// Registers a table. Fails with a conflict when the identifier is
    /// taken, and refuses an inconsistent document.
    pub fn create_table(
        &mut self,
        identifier: Identifier,
        metadata: TableMetadata,
        metadata_location: String,
    ) -> (r: Result<(), Error>)
        ensures
            match r {
                Result::Ok(()) => {
                    &&& tabular_lookup(old(self)@.tabulars, identifier@) is None
                    &&& metadata@.wf()
                    &&& tabular_lookup(final(self)@.tabulars, identifier@) == Option::Some(
                        (TabularMetadataView::Table(metadata@), metadata_location@),
                    )
                    &&& forall|other: IdentifierView|
                        other != identifier@ ==> #[trigger] tabular_lookup(
                            final(self)@.tabulars,
                            other,
                        ) == tabular_lookup(old(self)@.tabulars, other)
                    &&& final(self)@.namespaces == old(self)@.namespaces
                },
                Result::Err(e) => {
                    &&& final(self)@ == old(self)@
                    &&& (tabular_lookup(old(self)@.tabulars, identifier@) is Some && e
                        is Conflict) || (tabular_lookup(old(self)@.tabulars, identifier@) is None
                        && !metadata@.wf() && e is InvalidFormat)
                },
            },
    {
        if self.find_tabular(&identifier).is_some() {
            return Result::Err(Error::Conflict(String::from_str("tabular already exists")));
        }
        if !check_wf(&metadata) {
            return Result::Err(
                Error::InvalidFormat(String::from_str("inconsistent table metadata")),
            );
        }
        let ghost prior = self@;
        self.tabulars.push((identifier, TabularMetadata::Table(metadata), metadata_location));
        proof {
            assert(final(self)@.tabulars.drop_last() =~= prior.tabulars);
            assert(final(self)@.namespaces =~= prior.namespaces);
        }
        Result::Ok(())
    }

    /// Registers a view. Fails with a conflict when the identifier is taken.
    pub fn create_view(
        &mut self,
        identifier: Identifier,
        metadata: ViewMetadata,
        metadata_location: String,
    ) -> (r: Result<(), Error>)
        ensures
            match r {
                Result::Ok(()) => {
                    &&& tabular_lookup(old(self)@.tabulars, identifier@) is None
                    &&& tabular_lookup(final(self)@.tabulars, identifier@) == Option::Some(
                        (TabularMetadataView::View(metadata@), metadata_location@),
                    )
                    &&& forall|other: IdentifierView|
                        other != identifier@ ==> #[trigger] tabular_lookup(
                            final(self)@.tabulars,
                            other,
                        ) == tabular_lookup(old(self)@.tabulars, other)
                    &&& final(self)@.namespaces == old(self)@.namespaces
                },
                Result::Err(e) => {
                    &&& final(self)@ == old(self)@
                    &&& tabular_lookup(old(self)@.tabulars, identifier@) is Some
                    &&& e is Conflict
                },
            },
    {
        if self.find_tabular(&identifier).is_some() {
            return Result::Err(Error::Conflict(String::from_str("tabular already exists")));
        }
        let ghost prior = self@;
        self.tabulars.push((identifier, TabularMetadata::View(metadata), metadata_location));
        proof {
            assert(final(self)@.tabulars.drop_last() =~= prior.tabulars);
            assert(final(self)@.namespaces =~= prior.namespaces);
        }
        Result::Ok(())
    }

    /// Registers a materialized view. Fails with a conflict when the
    /// identifier is taken.
    pub fn create_materialized_view(
        &mut self,
        identifier: Identifier,
        metadata: MaterializedViewMetadata,
        metadata_location: String,
    ) -> (r: Result<(), Error>)
        ensures
            match r {
                Result::Ok(()) => {
                    &&& tabular_lookup(old(self)@.tabulars, identifier@) is None
                    &&& tabular_lookup(final(self)@.tabulars, identifier@) == Option::Some(
                        (TabularMetadataView::MaterializedView(metadata@), metadata_location@),
                    )
                    &&& forall|other: IdentifierView|
                        other != identifier@ ==> #[trigger] tabular_lookup(
                            final(self)@.tabulars,
                            other,
                        ) == tabular_lookup(old(self)@.tabulars, other)
                    &&& final(self)@.namespaces == old(self)@.namespaces
                },
                Result::Err(e) => {
                    &&& final(self)@ == old(self)@
                    &&& tabular_lookup(old(self)@.tabulars, identifier@) is Some
                    &&& e is Conflict
                },
            },
    {
        if self.find_tabular(&identifier).is_some() {
            return Result::Err(Error::Conflict(String::from_str("tabular already exists")));
        }
        let ghost prior = self@;
        self.tabulars.push(
            (identifier, TabularMetadata::MaterializedView(metadata), metadata_location),
        );
        proof {
            assert(final(self)@.tabulars.drop_last() =~= prior.tabulars);
            assert(final(self)@.namespaces =~= prior.namespaces);
        }
        Result::Ok(())
    }

    /// Lists every namespace of the catalog.
    pub fn list_namespaces(&self) -> (r: Vec<Vec<String>>)
        ensures
            namespaces_view(r@) == self@.namespaces,
    {
        let mut out: Vec<Vec<String>> = Vec::new();
        let mut i: usize = 0;
        while i < self.namespaces.len()
            invariant
                i <= self.namespaces@.len(),
                out@.len() == i,
                forall|j: int|
                    0 <= j < i ==> #[trigger] namespaces_view(out@)[j] == self@.namespaces[j],
            decreases self.namespaces@.len() - i,
        {
            let ghost outv = namespaces_view(out@);
            let mut ns: Vec<String> = Vec::new();
            let mut k: usize = 0;
            while k < self.namespaces[i].len()
                invariant
                    i < self.namespaces@.len(),
                    k <= self.namespaces@[i as int]@.len(),
                    strings_view(ns@) =~= strings_view(self.namespaces@[i as int]@).take(k as int),
                decreases self.namespaces@[i as int]@.len() - k,
            {
                let ghost nsv = strings_view(ns@);
                ns.push(self.namespaces[i][k].clone());
                proof {
                    assert(strings_view(ns@) =~= nsv.push(ns@[k as int]@));
                    assert(strings_view(self.namespaces@[i as int]@)[k as int]
                        == self.namespaces@[i as int]@[k as int]@);
                    assert(nsv.push(ns@[k as int]@) =~= strings_view(
                        self.namespaces@[i as int]@,
                    ).take(k as int + 1));
                }
                k = k + 1;
            }
            proof {
                let full = strings_view(self.namespaces@[i as int]@);
                assert(full.take(full.len() as int) =~= full);
            }
            out.push(ns);
            proof {
                assert(namespaces_view(out@) =~= outv.push(strings_view(out@[i as int]@)));
                assert(forall|j: int| 0 <= j < i ==> #[trigger] namespaces_view(out@)[j] == outv[j]);
                assert(namespaces_view(out@)[i as int] == self@.namespaces[i as int]);
            }
            i = i + 1;
        }
        proof {
            assert(namespaces_view(out@) =~= self@.namespaces);
        }
        out
    }

    /// The identifiers of the tabulars in a namespace, in registration
    /// order (an identifier re-registered by a commit appears once per
    /// pointer swap, the latest standing for the current document).
    pub fn list_tabulars(&self, namespace: &Vec<String>) -> (r: Vec<Identifier>)
        ensures
            r@.map_values(|id: Identifier| id@) == spec_list_tabulars(
                self@.tabulars,
                strings_view(namespace@),
            ),
    {
        let ghost tabs = self@.tabulars;
        let ghost ns = strings_view(namespace@);
        let mut out: Vec<Identifier> = Vec::new();
        let mut i: usize = 0;
        proof {
            reveal(Seq::filter);
            assert(spec_list_tabulars(tabs.take(0), ns) =~= Seq::<IdentifierView>::empty());
            assert(out@.map_values(|id: Identifier| id@) =~= Seq::<IdentifierView>::empty());
        }
        while i < self.tabulars.len()
            invariant
                i <= self.tabulars@.len(),
                tabs == self@.tabulars,
                ns == strings_view(namespace@),
                out@.map_values(|id: Identifier| id@) =~= spec_list_tabulars(
                    tabs.take(i as int),
                    ns,
                ),
            decreases self.tabulars@.len() - i,
        {
            let ghost outv = out@.map_values(|id: Identifier| id@);
            proof {
                assert(tabs[i as int] == (self.tabulars@[i as int].0@,
                    self.tabulars@[i as int].1@, self.tabulars@[i as int].2@));
            }
            let keep = namespace_eq(&self.tabulars[i].0.namespace, namespace);
            if keep {
                out.push(clone_identifier(&self.tabulars[i].0));
            }
            proof {
                reveal(Seq::filter);
                assert(tabs.take(i as int + 1).drop_last() =~= tabs.take(i as int));
                assert(tabs.take(i as int + 1).last() == tabs[i as int]);
                if keep {
                    assert(out@.map_values(|id: Identifier| id@) =~= outv.push(
                        tabs[i as int].0,
                    ));
                }
                assert(out@.map_values(|id: Identifier| id@) =~= spec_list_tabulars(
                    tabs.take(i as int + 1),
                    ns,
                ));
            }
            i = i + 1;
        }
        proof {
            assert(tabs.take(tabs.len() as int) =~= tabs);
        }
        out
    }

    /// Removes every registration of a tabular. After the drop the
    /// identifier no longer resolves; other tabulars are untouched.
    pub fn drop_tabular(&mut self, id: &Identifier)
        ensures
            final(self)@.tabulars == spec_drop_tabular(old(self)@.tabulars, id@),
            final(self)@.namespaces == old(self)@.namespaces,
            tabular_lookup(final(self)@.tabulars, id@) is None,
            forall|other: IdentifierView|
                other != id@ ==> #[trigger] tabular_lookup(final(self)@.tabulars, other)
                    == tabular_lookup(old(self)@.tabulars, other),
    {
        let ghost tabs = self@.tabulars;
        let mut out: Vec<(Identifier, TabularMetadata, String)> = Vec::new();
        let mut rest: Vec<(Identifier, TabularMetadata, String)> = Vec::new();
        core::mem::swap(&mut rest, &mut self.tabulars);
        proof {
            reveal(Seq::filter);
            assert(spec_drop_tabular(tabs.take(0), id@) =~= Seq::<
                (IdentifierView, TabularMetadataView, Seq<char>),
            >::empty());
            assert(tabulars_view(out@) =~= Seq::<
                (IdentifierView, TabularMetadataView, Seq<char>),
            >::empty());
        }
        let ghost i: int = 0;
        while rest.len() > 0
            invariant
                0 <= i <= tabs.len(),
                tabulars_view(rest@) =~= tabs.skip(i),
                tabulars_view(out@) =~= spec_drop_tabular(tabs.take(i), id@),
            decreases rest@.len(),
        {
            let ghost restv = tabulars_view(rest@);
            let ghost outv = tabulars_view(out@);
            let entry = rest.remove(0);
            proof {
                assert(restv =~= tabs.skip(i));
                assert(restv.len() == rest@.len() + 1);
                assert(tabs.skip(i)[0] == tabs[i]);
                assert((entry.0@, entry.1@, entry.2@) == restv[0]);
                assert(tabulars_view(rest@) =~= restv.remove(0));
                assert(restv.remove(0) =~= tabs.skip(i + 1));
            }
            let keep = !identifier_eq(&entry.0, id);
            if keep {
                out.push(entry);
            }
            proof {
                reveal(Seq::filter);
                assert(tabs.take(i + 1).drop_last() =~= tabs.take(i));
                assert(tabs.take(i + 1).last() == tabs[i]);
                if keep {
                    assert(tabulars_view(out@) =~= outv.push(tabs[i]));
                }
                assert(tabulars_view(out@) =~= spec_drop_tabular(tabs.take(i + 1), id@));
                i = i + 1;
            }
        }
        proof {
            assert(tabs.take(tabs.len() as int) =~= tabs);
        }
        self.tabulars = out;
        proof {
            lemma_drop_tabular_lookup(tabs, id@);
            assert forall|other: IdentifierView| other != id@ implies #[trigger] tabular_lookup(
                spec_drop_tabular(tabs, id@),
                other,
            ) == tabular_lookup(tabs, other) by {
                lemma_drop_tabular_other(tabs, id@, other);
            }
        }
    }

    /// Atomically updates a table: verifies every requirement against the
    /// current document and, only if all hold, applies the updates in order,
    /// checks the result, and swaps the pointer. Returns the new document.
    ///
    /// On a failed requirement the commit is refused with a conflict and the
    /// catalog is unchanged; the caller reloads and replans.
    pub fn update_table(&mut self, commit: CommitTable, new_metadata_location: String) -> (r:
        Result<TableMetadata, Error>)
        ensures
            match r {
                Result::Ok(m2) => {
                    &&& tabular_lookup(old(self)@.tabulars, commit.identifier@) is Some
                    &&& tabular_lookup(old(self)@.tabulars, commit.identifier@)->Some_0.0
                        is Table
                    &&& {
                        let pre_md = tabular_lookup(
                            old(self)@.tabulars,
                            commit.identifier@,
                        )->Some_0.0->Table_0;
                        &&& spec_requirements_hold(
                            Option::Some(pre_md),
                            reqs_view(commit.requirements@),
                        )
                        &&& spec_apply_updates(pre_md, updates_view(commit.updates@))
                            == Option::Some(m2@)
                        &&& m2@.wf()
                    }
                    &&& tabular_lookup(final(self)@.tabulars, commit.identifier@) == Option::Some(
                        (TabularMetadataView::Table(m2@), new_metadata_location@),
                    )
                    &&& forall|other: IdentifierView|
                        other != commit.identifier@ ==> #[trigger] tabular_lookup(
                            final(self)@.tabulars,
                            other,
                        ) == tabular_lookup(old(self)@.tabulars, other)
                    &&& final(self)@.namespaces == old(self)@.namespaces
                },
                Result::Err(e) => {
                    &&& final(self)@ == old(self)@
                    &&& match tabular_lookup(old(self)@.tabulars, commit.identifier@) {
                        Option::None => e is NotFound,
                        Option::Some((t, _)) => match t {
                            TabularMetadataView::Table(pre_md) => {
                                if !spec_requirements_hold(
                                    Option::Some(pre_md),
                                    reqs_view(commit.requirements@),
                                ) {
                                    e is Conflict
                                } else {
                                    match spec_apply_updates(
                                        pre_md,
                                        updates_view(commit.updates@),
                                    ) {
                                        Option::None => e is NotFound || e is InvalidFormat,
                                        Option::Some(m2) => !m2.wf() && e is InvalidFormat,
                                    }
                                }
                            },
                            _ => e is InvalidFormat,
                        },
                    }
                },
            },
    {
        let current: TableMetadata = match self.find_tabular(&commit.identifier) {
            Option::None => {
                return Result::Err(
                    Error::NotFound(String::from_str("Table"), commit.identifier.name.clone()),
                );
            },
            Option::Some(t) => match &t.1 {
                TabularMetadata::Table(tm) => clone_metadata(tm),
                _ => {
                    return Result::Err(
                        Error::InvalidFormat(String::from_str("tabular is not a table")),
                    );
                },
            },
        };
        if !check_requirements(Option::Some(&current), &commit.requirements) {
            return Result::Err(Error::Conflict(String::from_str("commit requirement failed")));
        }
        let new_md = match apply_updates(current, &commit.updates) {
            Result::Ok(m) => m,
            Result::Err(e) => {
                return Result::Err(e);
            },
        };
        if !check_wf(&new_md) {
            return Result::Err(
                Error::InvalidFormat(String::from_str("updates produce an inconsistent document")),
            );
        }
        let result = clone_metadata(&new_md);
        let ghost prior = self@;
        self.tabulars.push(
            (commit.identifier, TabularMetadata::Table(new_md), new_metadata_location),
        );
        proof {
            assert(final(self)@.tabulars.drop_last() =~= prior.tabulars);
            assert(final(self)@.namespaces =~= prior.namespaces);
        }
        Result::Ok(result)
    }
}

/// The document produced by a list of updates applied in order.
pub open spec fn spec_apply_updates(
    mv: TableMetadataView,
    us: Seq<TableUpdateView>,
) -> Option<TableMetadataView>
    decreases us.len(),
{
    if us.len() == 0 {
        Option::Some(mv)
    } else {
        match spec_apply_update(mv, us.first()) {
            Option::None => Option::None,
            Option::Some(m2) => spec_apply_updates(m2, us.drop_first()),
        }
    }
}

} // verus!
