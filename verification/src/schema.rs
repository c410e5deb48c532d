//! Logical types, schemas and partition specs.
//!
//! Partition transforms map column values to canonical partition coordinates;
//! the engine models a coordinate as a 64-bit integer (the calendar
//! transforms, `bucket` and `truncate` produce integers, and `identity` on an
//! integer column is the value itself), ordered by the integer order.

use vstd::prelude::*;

verus! {

/// Primitive logical types of column values.
#[derive(Clone, Copy, Debug, PartialEq, Eq, Structural)]
pub enum PrimitiveType {
    Boolean,
    Int,
    Long,
    Float,
    Double,
    /// Days since the epoch.
    Date,
    /// Microseconds since midnight.
    Time,
    /// Microseconds since the epoch, no zone.
    Timestamp,
    /// Microseconds since the epoch, UTC-adjusted.
    Timestamptz,
    Text,
    /// 16-byte identifier.
    Uuid,
    Fixed(u64),
    Binary,
    Decimal { precision: u32, scale: u32 },
}

/// A named field of a schema.
pub struct StructField {
    /// Stable id, unique within the table; once assigned, never reused.
    pub id: i32,
    pub name: String,
    pub required: bool,
    pub field_type: PrimitiveType,
}

/// The spec-level record of a field.
#[verifier::ext_equal]
pub struct StructFieldView {
    pub id: i32,
    pub name: Seq<char>,
    pub required: bool,
    pub field_type: PrimitiveType,
}

impl View for StructField {
    type V = StructFieldView;

    open spec fn view(&self) -> StructFieldView {
        StructFieldView {
            id: self.id,
            name: self.name@,
            required: self.required,
            field_type: self.field_type,
        }
    }
}

/// The spec-level records of a list of schemas.
pub open spec fn schemas_view(v: Seq<Schema>) -> Seq<SchemaView> {
    v.map_values(|s: Schema| s@)
}

/// The spec-level records of a list of partition specs.
pub open spec fn partition_specs_view(v: Seq<PartitionSpec>) -> Seq<PartitionSpecView> {
    v.map_values(|s: PartitionSpec| s@)
}

/// An ordered list of fields with an id.
pub struct Schema {
    pub schema_id: i32,
    pub fields: Vec<StructField>,
}

/// The spec-level record of a schema.
#[verifier::ext_equal]
pub struct SchemaView {
    pub schema_id: i32,
    pub fields: Seq<StructFieldView>,
}

impl View for Schema {
    type V = SchemaView;

    open spec fn view(&self) -> SchemaView {
        SchemaView {
            schema_id: self.schema_id,
            fields: self.fields@.map_values(|f: StructField| f@),
        }
    }
}

/// Copies a schema.
pub fn clone_schema(s: &Schema) -> (r: Schema)
    ensures
        r@ == s@,
{
    let mut fields: Vec<StructField> = Vec::new();
    let mut i: usize = 0;
    while i < s.fields.len()
        invariant
            i <= s.fields@.len(),
            fields@.len() == i,
            forall|j: int| 0 <= j < i ==> #[trigger] fields@[j]@ == s.fields@[j]@,
        decreases s.fields@.len() - i,
    {
        let f = &s.fields[i];
        fields.push(
            StructField {
                id: f.id,
                name: f.name.clone(),
                required: f.required,
                field_type: f.field_type,
            },
        );
        i = i + 1;
    }
    let r = Schema { schema_id: s.schema_id, fields };
    proof {
        assert(r@.fields =~= s@.fields);
    }
    r
}

impl Schema {
    /// Field ids are unique within a schema.
    pub open spec fn wf(&self) -> bool {
        forall|i: int, j: int|
            0 <= i < j < self.fields@.len() ==> self.fields@[i].id != self.fields@[j].id
    }

    /// The largest field id, if any field exists.
    pub open spec fn spec_max_field_id(&self) -> Option<i32> {
        if self.fields@.len() == 0 {
            Option::None
        } else {
            Option::Some(max_id_up_to(self.fields@, self.fields@.len() as int))
        }
    }

    /// Computes the largest field id of the schema.
    pub fn max_field_id(&self) -> (r: Option<i32>)
        ensures
            r == self.spec_max_field_id(),
    {
        let mut best: Option<i32> = Option::None;
        let mut i: usize = 0;
        while i < self.fields.len()
            invariant
                i <= self.fields@.len(),
                i == 0 ==> best is None,
                i > 0 ==> best == Option::Some(max_id_up_to(self.fields@, i as int)),
            decreases self.fields@.len() - i,
        {
            let id = self.fields[i].id;
            best = match best {
                Option::None => Option::Some(id),
                Option::Some(b) => if id > b {
                    Option::Some(id)
                } else {
                    Option::Some(b)
                },
            };
            i = i + 1;
        }
        best
    }
}

/// The largest field id among the first `n` fields.
pub open spec fn max_id_up_to(fields: Seq<StructField>, n: int) -> i32
    decreases n,
{
    if n <= 1 {
        fields[0].id
    } else {
        let prev = max_id_up_to(fields, n - 1);
        if fields[n - 1].id > prev {
            fields[n - 1].id
        } else {
            prev
        }
    }
}

/// A partition transform from a column value to a canonical coordinate.
#[derive(Clone, Copy, Debug, PartialEq, Eq, Structural)]
pub enum Transform {
    Identity,
    Year,
    Month,
    Day,
    Hour,
    Bucket(u32),
    Truncate(u32),
}

/// One partition dimension.
pub struct PartitionField {
    /// Id of the source column in the schema.
    pub source_id: i32,
    /// Id of this partition field.
    pub field_id: i32,
    pub name: String,
    pub transform: Transform,
}

/// The spec-level record of a partition field.
#[verifier::ext_equal]
pub struct PartitionFieldView {
    pub source_id: i32,
    pub field_id: i32,
    pub name: Seq<char>,
    pub transform: Transform,
}

impl View for PartitionField {
    type V = PartitionFieldView;

    open spec fn view(&self) -> PartitionFieldView {
        PartitionFieldView {
            source_id: self.source_id,
            field_id: self.field_id,
            name: self.name@,
            transform: self.transform,
        }
    }
}

/// An ordered list of partition dimensions with an id.
pub struct PartitionSpec {
    pub spec_id: i32,
    pub fields: Vec<PartitionField>,
}

/// The spec-level record of a partition spec.
#[verifier::ext_equal]
pub struct PartitionSpecView {
    pub spec_id: i32,
    pub fields: Seq<PartitionFieldView>,
}

impl View for PartitionSpec {
    type V = PartitionSpecView;

    open spec fn view(&self) -> PartitionSpecView {
        PartitionSpecView {
            spec_id: self.spec_id,
            fields: self.fields@.map_values(|f: PartitionField| f@),
        }
    }
}

/// Copies a partition spec.
pub fn clone_partition_spec(s: &PartitionSpec) -> (r: PartitionSpec)
    ensures
        r@ == s@,
{
    let mut fields: Vec<PartitionField> = Vec::new();
    let mut i: usize = 0;
    while i < s.fields.len()
        invariant
            i <= s.fields@.len(),
            fields@.len() == i,
            forall|j: int| 0 <= j < i ==> #[trigger] fields@[j]@ == s.fields@[j]@,
        decreases s.fields@.len() - i,
    {
        let f = &s.fields[i];
        fields.push(
            PartitionField {
                source_id: f.source_id,
                field_id: f.field_id,
                name: f.name.clone(),
                transform: f.transform,
            },
        );
        i = i + 1;
    }
    let r = PartitionSpec { spec_id: s.spec_id, fields };
    proof {
        assert(r@.fields =~= s@.fields);
    }
    r
}

} // verus!
