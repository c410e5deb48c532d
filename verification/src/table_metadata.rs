//! The table metadata document: schemas, partition specs, snapshots, refs,
//! properties, and the lookups the engine relies on.
//!
//! Association lists use last-wins semantics: a lookup walks from the end,
//! so pushing a pair is an insert-or-replace at the map level.

use vstd::prelude::*;

use crate::schema::{clone_partition_spec, clone_schema, PartitionSpec, PartitionSpecView, Schema, SchemaView};
use crate::snapshot::{clone_kv, clone_snapshot, kv_view, Snapshot, SnapshotLog, SnapshotReference, SnapshotView};
use crate::Error;

verus! {

/// The table format version.
#[derive(Clone, Copy, Debug, PartialEq, Eq, Structural)]
pub enum FormatVersion {
    V1,
    V2,
}

/// The current metadata document of a table.
pub struct TableMetadata {
    pub format_version: FormatVersion,
    pub table_uuid: String,
    pub location: String,
    /// At least the highest sequence number of any snapshot.
    pub last_sequence_number: i64,
    pub last_updated_ms: i64,
    pub current_schema_id: i32,
    pub schemas: Vec<Schema>,
    pub partition_specs: Vec<PartitionSpec>,
    pub default_spec_id: i32,
    pub snapshots: Vec<Snapshot>,
    pub current_snapshot_id: Option<i64>,
    pub refs: Vec<(String, SnapshotReference)>,
    pub snapshot_log: Vec<SnapshotLog>,
    pub properties: Vec<(String, String)>,
}

/// The spec-level record of a metadata document.
#[verifier::ext_equal]
pub struct TableMetadataView {
    pub format_version: FormatVersion,
    pub table_uuid: Seq<char>,
    pub location: Seq<char>,
    pub last_sequence_number: i64,
    pub last_updated_ms: i64,
    pub current_schema_id: i32,
    pub schemas: Seq<SchemaView>,
    pub partition_specs: Seq<PartitionSpecView>,
    pub default_spec_id: i32,
    pub snapshots: Seq<SnapshotView>,
    pub current_snapshot_id: Option<i64>,
    pub refs: Seq<(Seq<char>, SnapshotReference)>,
    pub snapshot_log: Seq<SnapshotLog>,
    pub properties: Seq<(Seq<char>, Seq<char>)>,
}

impl View for TableMetadata {
    type V = TableMetadataView;

    open spec fn view(&self) -> TableMetadataView {
        TableMetadataView {
            format_version: self.format_version,
            table_uuid: self.table_uuid@,
            location: self.location@,
            last_sequence_number: self.last_sequence_number,
            last_updated_ms: self.last_updated_ms,
            current_schema_id: self.current_schema_id,
            schemas: crate::schema::schemas_view(self.schemas@),
            partition_specs: crate::schema::partition_specs_view(self.partition_specs@),
            default_spec_id: self.default_spec_id,
            snapshots: crate::snapshot::snapshots_view(self.snapshots@),
            current_snapshot_id: self.current_snapshot_id,
            refs: crate::snapshot::refs_view(self.refs@),
            snapshot_log: self.snapshot_log@,
            properties: kv_view(self.properties@),
        }
    }
}

/// Looks a ref up by name; the latest pair for a name wins.
pub open spec fn ref_lookup(
    refs: Seq<(Seq<char>, SnapshotReference)>,
    name: Seq<char>,
) -> Option<SnapshotReference>
    decreases refs.len(),
{
    if refs.len() == 0 {
        Option::None
    } else if refs.last().0 == name {
        Option::Some(refs.last().1)
    } else {
        ref_lookup(refs.drop_last(), name)
    }
}

/// Looks a snapshot up by id; the latest one with the id wins.
pub open spec fn snapshot_lookup(snaps: Seq<SnapshotView>, id: i64) -> Option<SnapshotView>
    decreases snaps.len(),
{
    if snaps.len() == 0 {
        Option::None
    } else if snaps.last().snapshot_id == id {
        Option::Some(snaps.last())
    } else {
        snapshot_lookup(snaps.drop_last(), id)
    }
}

/// Looks a property up by key; the latest pair for a key wins.
pub open spec fn prop_lookup(
    props: Seq<(Seq<char>, Seq<char>)>,
    key: Seq<char>,
) -> Option<Seq<char>>
    decreases props.len(),
{
    if props.len() == 0 {
        Option::None
    } else if props.last().0 == key {
        Option::Some(props.last().1)
    } else {
        prop_lookup(props.drop_last(), key)
    }
}

/// Looks a schema up by id; the latest one with the id wins.
pub open spec fn schema_lookup(schemas: Seq<SchemaView>, id: i32) -> Option<SchemaView>
    decreases schemas.len(),
{
    if schemas.len() == 0 {
        Option::None
    } else if schemas.last().schema_id == id {
        Option::Some(schemas.last())
    } else {
        schema_lookup(schemas.drop_last(), id)
    }
}

/// Looks a partition spec up by id; the latest one with the id wins.
pub open spec fn partition_spec_lookup(
    specs: Seq<PartitionSpecView>,
    id: i32,
) -> Option<PartitionSpecView>
    decreases specs.len(),
{
    if specs.len() == 0 {
        Option::None
    } else if specs.last().spec_id == id {
        Option::Some(specs.last())
    } else {
        partition_spec_lookup(specs.drop_last(), id)
    }
}

/// The name a branch argument resolves to.
pub open spec fn opt_name_view(branch: Option<&str>) -> Option<Seq<char>> {
    match branch {
        Option::Some(s) => Option::Some(s@),
        Option::None => Option::None,
    }
}

impl TableMetadataView {
    /// The snapshot id the given branch argument points at: a named branch
    /// goes through the refs, no branch through `current_snapshot_id`.
    pub open spec fn head_snapshot_id(&self, branch: Option<Seq<char>>) -> Option<i64> {
        match branch {
            Option::Some(name) => match ref_lookup(self.refs, name) {
                Option::Some(r) => Option::Some(r.snapshot_id),
                Option::None => Option::None,
            },
            Option::None => self.current_snapshot_id,
        }
    }

    /// The current snapshot of the branch, if any.
    pub open spec fn spec_current_snapshot(&self, branch: Option<Seq<char>>) -> Option<
        SnapshotView,
    > {
        match self.head_snapshot_id(branch) {
            Option::Some(id) => snapshot_lookup(self.snapshots, id),
            Option::None => Option::None,
        }
    }

    /// The metadata is internally consistent: every pointer resolves, the
    /// `main` ref agrees with `current_snapshot_id`, and
    /// `last_sequence_number` bounds every snapshot's sequence number.
    pub open spec fn wf(&self) -> bool {
        &&& self.last_sequence_number >= 0
        &&& forall|name: Seq<char>|
            (#[trigger] ref_lookup(self.refs, name)) is Some ==> snapshot_lookup(
                self.snapshots,
                ref_lookup(self.refs, name)->Some_0.snapshot_id,
            ) is Some
        &&& self.current_snapshot_id is Some ==> snapshot_lookup(
            self.snapshots,
            self.current_snapshot_id->Some_0,
        ) is Some
        &&& ref_lookup(self.refs, "main"@) is Some ==> self.current_snapshot_id == Option::Some(
            ref_lookup(self.refs, "main"@)->Some_0.snapshot_id,
        )
        &&& forall|id: i64|
            (#[trigger] snapshot_lookup(self.snapshots, id)) is Some ==> {
                &&& snapshot_lookup(self.snapshots, id)->Some_0.sequence_number >= 0
                &&& snapshot_lookup(self.snapshots, id)->Some_0.sequence_number
                    <= self.last_sequence_number
                &&& snapshot_lookup(self.snapshots, id)->Some_0.snapshot_id == id
            }
        &&& schema_lookup(self.schemas, self.current_schema_id) is Some
        &&& partition_spec_lookup(self.partition_specs, self.default_spec_id) is Some
    }
}

impl TableMetadata {
    /// Finds a ref by name.
    pub fn get_ref(&self, name: &str) -> (r: Option<SnapshotReference>)
        ensures
            r == ref_lookup(self@.refs, name@),
    {
        let mut i: usize = self.refs.len();
        proof {
            assert(self@.refs.take(i as int) =~= self@.refs);
        }
        while i > 0
            invariant
                i <= self.refs@.len(),
                ref_lookup(self@.refs, name@) == ref_lookup(self@.refs.take(i as int), name@),
            decreases i,
        {
            proof {
                assert(self@.refs.take(i as int).last() == self@.refs[i - 1]);
                assert(self@.refs.take(i as int).drop_last() =~= self@.refs.take(i as int - 1));
            }
            if crate::util::string_eq_str(&self.refs[i - 1].0, name) {
                return Option::Some(self.refs[i - 1].1);
            }
            i = i - 1;
        }
        proof {
            assert(self@.refs.take(0) =~= Seq::<(Seq<char>, SnapshotReference)>::empty());
        }
        Option::None
    }

    /// Finds a snapshot by id.
    pub fn find_snapshot(&self, id: i64) -> (r: Option<&Snapshot>)
        ensures
            match r {
                Option::Some(s) => snapshot_lookup(self@.snapshots, id) == Option::Some(s@),
                Option::None => snapshot_lookup(self@.snapshots, id) is None,
            },
    {
        let mut i: usize = self.snapshots.len();
        proof {
            assert(self@.snapshots.take(i as int) =~= self@.snapshots);
        }
        while i > 0
            invariant
                i <= self.snapshots@.len(),
                snapshot_lookup(self@.snapshots, id) == snapshot_lookup(
                    self@.snapshots.take(i as int),
                    id,
                ),
            decreases i,
        {
            proof {
                assert(self@.snapshots.take(i as int).last() == self@.snapshots[i - 1]);
                assert(self@.snapshots.take(i as int).drop_last() =~= self@.snapshots.take(
                    i as int - 1,
                ));
            }
            if self.snapshots[i - 1].snapshot_id == id {
                return Option::Some(&self.snapshots[i - 1]);
            }
            i = i - 1;
        }
        proof {
            assert(self@.snapshots.take(0) =~= Seq::<SnapshotView>::empty());
        }
        Option::None
    }

    /// Finds a schema by id.
    pub fn find_schema(&self, id: i32) -> (r: Option<&Schema>)
        ensures
            match r {
                Option::Some(s) => schema_lookup(self@.schemas, id) == Option::Some(s@),
                Option::None => schema_lookup(self@.schemas, id) is None,
            },
    {
        let mut i: usize = self.schemas.len();
        proof {
            assert(self@.schemas.take(i as int) =~= self@.schemas);
        }
        while i > 0
            invariant
                i <= self.schemas@.len(),
                schema_lookup(self@.schemas, id) == schema_lookup(
                    self@.schemas.take(i as int),
                    id,
                ),
            decreases i,
        {
            proof {
                assert(self@.schemas.take(i as int).last() == self@.schemas[i - 1]);
                assert(self@.schemas.take(i as int).drop_last() =~= self@.schemas.take(
                    i as int - 1,
                ));
            }
            if self.schemas[i - 1].schema_id == id {
                return Option::Some(&self.schemas[i - 1]);
            }
            i = i - 1;
        }
        proof {
            assert(self@.schemas.take(0) =~= Seq::<SchemaView>::empty());
        }
        Option::None
    }

    /// Finds a partition spec by id.
    pub fn find_partition_spec(&self, id: i32) -> (r: Option<&PartitionSpec>)
        ensures
            match r {
                Option::Some(s) => partition_spec_lookup(self@.partition_specs, id)
                    == Option::Some(s@),
                Option::None => partition_spec_lookup(self@.partition_specs, id) is None,
            },
    {
        let mut i: usize = self.partition_specs.len();
        proof {
            assert(self@.partition_specs.take(i as int) =~= self@.partition_specs);
        }
        while i > 0
            invariant
                i <= self.partition_specs@.len(),
                partition_spec_lookup(self@.partition_specs, id) == partition_spec_lookup(
                    self@.partition_specs.take(i as int),
                    id,
                ),
            decreases i,
        {
            proof {
                assert(self@.partition_specs.take(i as int).last() == self@.partition_specs[i
                    - 1]);
                assert(self@.partition_specs.take(i as int).drop_last()
                    =~= self@.partition_specs.take(i as int - 1));
            }
            if self.partition_specs[i - 1].spec_id == id {
                return Option::Some(&self.partition_specs[i - 1]);
            }
            i = i - 1;
        }
        proof {
            assert(self@.partition_specs.take(0) =~= Seq::<PartitionSpecView>::empty());
        }
        Option::None
    }

    /// The current snapshot for a branch argument: a named branch goes
    /// through the refs (absent ref: no snapshot), no branch through
    /// `current_snapshot_id`. A pointer that does not resolve is a corrupt
    /// document.
    pub fn current_snapshot(&self, branch: Option<&str>) -> (r: Result<Option<&Snapshot>, Error>)
        ensures
            match r {
                Result::Ok(opt) => match opt {
                    Option::Some(s) => self@.spec_current_snapshot(opt_name_view(branch))
                        == Option::Some(s@),
                    Option::None => self@.head_snapshot_id(opt_name_view(branch)) is None,
                },
                Result::Err(e) => self@.head_snapshot_id(opt_name_view(branch)) is Some
                    && self@.spec_current_snapshot(opt_name_view(branch)) is None && e
                    is InvalidFormat,
            },
    {
        let id_opt: Option<i64> = match branch {
            Option::Some(name) => match self.get_ref(name) {
                Option::Some(r) => Option::Some(r.snapshot_id),
                Option::None => Option::None,
            },
            Option::None => self.current_snapshot_id,
        };
        match id_opt {
            Option::None => Result::Ok(Option::None),
            Option::Some(id) => match self.find_snapshot(id) {
                Option::Some(s) => Result::Ok(Option::Some(s)),
                Option::None => Result::Err(
                    Error::InvalidFormat(String::from_str("snapshot pointer does not resolve")),
                ),
            },
        }
    }

    /// The schema for a branch argument: the branch head snapshot's schema
    /// when it names one, else the table's current schema.
    pub fn current_schema(&self, branch: Option<&str>) -> (r: Result<&Schema, Error>)
        ensures
            match r {
                Result::Ok(s) => schema_lookup(self@.schemas, self@.effective_schema_id(
                    opt_name_view(branch),
                )) == Option::Some(s@),
                Result::Err(e) => schema_lookup(self@.schemas, self@.effective_schema_id(
                    opt_name_view(branch),
                )) is None && e is InvalidFormat,
            },
    {
        let id: i32 = match branch {
            Option::Some(name) => match self.current_snapshot(Option::Some(name)) {
                Result::Ok(Option::Some(s)) => match s.schema_id {
                    Option::Some(sid) => sid,
                    Option::None => self.current_schema_id,
                },
                _ => self.current_schema_id,
            },
            Option::None => self.current_schema_id,
        };
        match self.find_schema(id) {
            Option::Some(s) => Result::Ok(s),
            Option::None => Result::Err(
                Error::InvalidFormat(String::from_str("schema pointer does not resolve")),
            ),
        }
    }

    /// The partition fields of the table's default spec.
    pub fn default_partition_spec(&self) -> (r: Result<&PartitionSpec, Error>)
        ensures
            match r {
                Result::Ok(s) => partition_spec_lookup(self@.partition_specs, self@.default_spec_id)
                    == Option::Some(s@),
                Result::Err(e) => partition_spec_lookup(
                    self@.partition_specs,
                    self@.default_spec_id,
                ) is None && e is InvalidFormat,
            },
    {
        match self.find_partition_spec(self.default_spec_id) {
            Option::Some(s) => Result::Ok(s),
            Option::None => Result::Err(
                Error::InvalidFormat(String::from_str("default partition spec does not resolve")),
            ),
        }
    }

    /// The sequence number of the snapshot with the given id.
    pub fn sequence_number(&self, snapshot_id: i64) -> (r: Option<i64>)
        ensures
            match snapshot_lookup(self@.snapshots, snapshot_id) {
                Option::Some(s) => r == Option::Some(s.sequence_number),
                Option::None => r is None,
            },
    {
        match self.find_snapshot(snapshot_id) {
            Option::Some(s) => Option::Some(s.sequence_number),
            Option::None => Option::None,
        }
    }
}

impl TableMetadataView {
    /// The schema id the branch argument resolves to: the branch snapshot's
    /// schema id when present, else the current schema id.
    pub open spec fn effective_schema_id(&self, branch: Option<Seq<char>>) -> i32 {
        match branch {
            Option::Some(_) => match self.spec_current_snapshot(branch) {
                Option::Some(s) => match s.schema_id {
                    Option::Some(sid) => sid,
                    Option::None => self.current_schema_id,
                },
                Option::None => self.current_schema_id,
            },
            Option::None => self.current_schema_id,
        }
    }
}

/// Copies a metadata document.
pub fn clone_metadata(m: &TableMetadata) -> (r: TableMetadata)
    ensures
        r@ == m@,
{
    let mut schemas: Vec<Schema> = Vec::new();
    let mut i: usize = 0;
    while i < m.schemas.len()
        invariant
            i <= m.schemas@.len(),
            schemas@.len() == i,
            forall|j: int| 0 <= j < i ==> #[trigger] schemas@[j]@ == m.schemas@[j]@,
        decreases m.schemas@.len() - i,
    {
        schemas.push(clone_schema(&m.schemas[i]));
        i = i + 1;
    }
    let mut partition_specs: Vec<PartitionSpec> = Vec::new();
    let mut i: usize = 0;
    while i < m.partition_specs.len()
        invariant
            i <= m.partition_specs@.len(),
            partition_specs@.len() == i,
            forall|j: int|
                0 <= j < i ==> #[trigger] partition_specs@[j]@ == m.partition_specs@[j]@,
        decreases m.partition_specs@.len() - i,
    {
        partition_specs.push(clone_partition_spec(&m.partition_specs[i]));
        i = i + 1;
    }
    let mut snapshots: Vec<Snapshot> = Vec::new();
    let mut i: usize = 0;
    while i < m.snapshots.len()
        invariant
            i <= m.snapshots@.len(),
            snapshots@.len() == i,
            forall|j: int| 0 <= j < i ==> #[trigger] snapshots@[j]@ == m.snapshots@[j]@,
        decreases m.snapshots@.len() - i,
    {
        snapshots.push(clone_snapshot(&m.snapshots[i]));
        i = i + 1;
    }
    let mut refs: Vec<(String, SnapshotReference)> = Vec::new();
    let mut i: usize = 0;
    while i < m.refs.len()
        invariant
            i <= m.refs@.len(),
            refs@.len() == i,
            forall|j: int|
                0 <= j < i ==> (#[trigger] refs@[j]).0@ == m.refs@[j].0@ && refs@[j].1 == m.refs@[
                    j
                ].1,
        decreases m.refs@.len() - i,
    {
        refs.push((m.refs[i].0.clone(), m.refs[i].1));
        i = i + 1;
    }
    let mut snapshot_log: Vec<SnapshotLog> = Vec::new();
    let mut i: usize = 0;
    while i < m.snapshot_log.len()
        invariant
            i <= m.snapshot_log@.len(),
            snapshot_log@ =~= m.snapshot_log@.take(i as int),
        decreases m.snapshot_log@.len() - i,
    {
        snapshot_log.push(m.snapshot_log[i]);
        proof {
            assert(snapshot_log@ =~= m.snapshot_log@.take(i as int + 1));
        }
        i = i + 1;
    }
    proof {
        assert(m.snapshot_log@.take(m.snapshot_log@.len() as int) =~= m.snapshot_log@);
    }
    let r = TableMetadata {
        format_version: m.format_version,
        table_uuid: m.table_uuid.clone(),
        location: m.location.clone(),
        last_sequence_number: m.last_sequence_number,
        last_updated_ms: m.last_updated_ms,
        current_schema_id: m.current_schema_id,
        schemas,
        partition_specs,
        default_spec_id: m.default_spec_id,
        snapshots,
        current_snapshot_id: m.current_snapshot_id,
        refs,
        snapshot_log,
        properties: clone_kv(&m.properties),
    };
    proof {
        assert(r@.schemas =~= m@.schemas);
        assert(r@.partition_specs =~= m@.partition_specs);
        assert(r@.snapshots =~= m@.snapshots);
        assert(r@.refs =~= m@.refs);
        assert(r@.properties =~= m@.properties);
    }
    r
}

} // verus!
