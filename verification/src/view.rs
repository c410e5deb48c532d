//! Views and materialized views: version lists with SQL representations,
//! and the storage-table pointer of a materialized view.

use vstd::prelude::*;

use crate::schema::{clone_schema, Schema, SchemaView};
use crate::snapshot::{clone_kv, kv_view};
use crate::Error;

verus! {

/// How a view version is expressed.
pub enum ViewRepresentation {
    Sql { sql: String, dialect: String },
}

/// The spec-level record of a representation.
#[verifier::ext_equal]
pub struct ViewRepresentationView {
    pub sql: Seq<char>,
    pub dialect: Seq<char>,
}

impl View for ViewRepresentation {
    type V = ViewRepresentationView;

    open spec fn view(&self) -> ViewRepresentationView {
        match self {
            ViewRepresentation::Sql { sql, dialect } => ViewRepresentationView {
                sql: sql@,
                dialect: dialect@,
            },
        }
    }
}

/// One version of a view definition.
pub struct Version {
    pub version_id: i32,
    pub schema_id: i32,
    pub representations: Vec<ViewRepresentation>,
}

/// The spec-level record of a version.
#[verifier::ext_equal]
pub struct VersionView {
    pub version_id: i32,
    pub schema_id: i32,
    pub representations: Seq<ViewRepresentationView>,
}

impl View for Version {
    type V = VersionView;

    open spec fn view(&self) -> VersionView {
        VersionView {
            version_id: self.version_id,
            schema_id: self.schema_id,
            representations: self.representations@.map_values(|r: ViewRepresentation| r@),
        }
    }
}

/// Copies a version.
pub fn clone_version(v: &Version) -> (r: Version)
    ensures
        r@ == v@,
{
    let mut reps: Vec<ViewRepresentation> = Vec::new();
    let mut i: usize = 0;
    while i < v.representations.len()
        invariant
            i <= v.representations@.len(),
            reps@.len() == i,
            forall|j: int| 0 <= j < i ==> #[trigger] reps@[j]@ == v.representations@[j]@,
        decreases v.representations@.len() - i,
    {
        match &v.representations[i] {
            ViewRepresentation::Sql { sql, dialect } => {
                reps.push(ViewRepresentation::Sql { sql: sql.clone(), dialect: dialect.clone() });
            },
        }
        i = i + 1;
    }
    let r = Version {
        version_id: v.version_id,
        schema_id: v.schema_id,
        representations: reps,
    };
    proof {
        assert(r@.representations =~= v@.representations);
    }
    r
}

/// Looks a version up by id; the latest one with the id wins.
pub open spec fn version_lookup(versions: Seq<VersionView>, id: i32) -> Option<VersionView>
    decreases versions.len(),
{
    if versions.len() == 0 {
        Option::None
    } else if versions.last().version_id == id {
        Option::Some(versions.last())
    } else {
        version_lookup(versions.drop_last(), id)
    }
}

/// Properties of a plain view.
pub struct ViewProperties {
    pub other: Vec<(String, String)>,
}

/// The metadata document of a plain view.
pub struct ViewMetadata {
    pub location: String,
    pub current_version_id: i32,
    pub versions: Vec<Version>,
    pub schemas: Vec<Schema>,
    pub properties: ViewProperties,
}

/// The spec-level record of a view document.
#[verifier::ext_equal]
pub struct ViewMetadataView {
    pub location: Seq<char>,
    pub current_version_id: i32,
    pub versions: Seq<VersionView>,
    pub schemas: Seq<SchemaView>,
    pub properties: Seq<(Seq<char>, Seq<char>)>,
}

impl View for ViewMetadata {
    type V = ViewMetadataView;

    open spec fn view(&self) -> ViewMetadataView {
        ViewMetadataView {
            location: self.location@,
            current_version_id: self.current_version_id,
            versions: self.versions@.map_values(|v: Version| v@),
            schemas: self.schemas@.map_values(|s: Schema| s@),
            properties: kv_view(self.properties.other@),
        }
    }
}

/// Properties of a materialized view: the pointer to its storage table's
/// metadata document, plus free-form pairs.
#[verifier::ext_equal]
pub struct MaterializedViewProperties {
    pub metadata_location: String,
    pub other: Vec<(String, String)>,
}

/// The metadata document of a materialized view.
#[verifier::ext_equal]
pub struct MaterializedViewMetadata {
    pub location: String,
    pub current_version_id: i32,
    pub versions: Vec<Version>,
    pub schemas: Vec<Schema>,
    pub properties: MaterializedViewProperties,
}

/// The spec-level record of a materialized-view document.
#[verifier::ext_equal]
pub struct MaterializedViewMetadataView {
    pub location: Seq<char>,
    pub current_version_id: i32,
    pub versions: Seq<VersionView>,
    pub schemas: Seq<SchemaView>,
    pub metadata_location: Seq<char>,
    pub properties: Seq<(Seq<char>, Seq<char>)>,
}

impl View for MaterializedViewMetadata {
    type V = MaterializedViewMetadataView;

    open spec fn view(&self) -> MaterializedViewMetadataView {
        MaterializedViewMetadataView {
            location: self.location@,
            current_version_id: self.current_version_id,
            versions: self.versions@.map_values(|v: Version| v@),
            schemas: self.schemas@.map_values(|s: Schema| s@),
            metadata_location: self.properties.metadata_location@,
            properties: kv_view(self.properties.other@),
        }
    }
}

/// Copies a list of versions.
pub fn clone_versions(vs: &Vec<Version>) -> (r: Vec<Version>)
    ensures
        r@.map_values(|v: Version| v@) == vs@.map_values(|v: Version| v@),
{
    let mut out: Vec<Version> = Vec::new();
    let mut i: usize = 0;
    while i < vs.len()
        invariant
            i <= vs@.len(),
            out@.len() == i,
            forall|j: int| 0 <= j < i ==> #[trigger] out@[j]@ == vs@[j]@,
        decreases vs@.len() - i,
    {
        out.push(clone_version(&vs[i]));
        i = i + 1;
    }
    proof {
        assert(out@.map_values(|v: Version| v@) =~= vs@.map_values(|v: Version| v@));
    }
    out
}

/// Copies a list of schemas.
pub fn clone_schemas(ss: &Vec<Schema>) -> (r: Vec<Schema>)
    ensures
        r@.map_values(|s: Schema| s@) == ss@.map_values(|s: Schema| s@),
{
    let mut out: Vec<Schema> = Vec::new();
    let mut i: usize = 0;
    while i < ss.len()
        invariant
            i <= ss@.len(),
            out@.len() == i,
            forall|j: int| 0 <= j < i ==> #[trigger] out@[j]@ == ss@[j]@,
        decreases ss@.len() - i,
    {
        out.push(clone_schema(&ss[i]));
        i = i + 1;
    }
    proof {
        assert(out@.map_values(|s: Schema| s@) =~= ss@.map_values(|s: Schema| s@));
    }
    out
}

/// Copies a view document.
pub fn clone_view_metadata(m: &ViewMetadata) -> (r: ViewMetadata)
    ensures
        r@ == m@,
{
    ViewMetadata {
        location: m.location.clone(),
        current_version_id: m.current_version_id,
        versions: clone_versions(&m.versions),
        schemas: clone_schemas(&m.schemas),
        properties: ViewProperties { other: clone_kv(&m.properties.other) },
    }
}

/// Copies a materialized-view document.
pub fn clone_materialized_view_metadata(m: &MaterializedViewMetadata) -> (r:
    MaterializedViewMetadata)
    ensures
        r@ == m@,
{
    MaterializedViewMetadata {
        location: m.location.clone(),
        current_version_id: m.current_version_id,
        versions: clone_versions(&m.versions),
        schemas: clone_schemas(&m.schemas),
        properties: MaterializedViewProperties {
            metadata_location: m.properties.metadata_location.clone(),
            other: clone_kv(&m.properties.other),
        },
    }
}

impl ViewMetadata {
    /// The current version of the view definition.
    pub fn current_version(&self) -> (r: Option<&Version>)
        ensures
            match r {
                Option::Some(v) => version_lookup(self@.versions, self@.current_version_id)
                    == Option::Some(v@),
                Option::None => version_lookup(self@.versions, self@.current_version_id) is None,
            },
    {
        find_version(&self.versions, self.current_version_id)
    }
}

impl MaterializedViewMetadata {
    /// The current version of the view definition.
    pub fn current_version(&self) -> (r: Option<&Version>)
        ensures
            match r {
                Option::Some(v) => version_lookup(self@.versions, self@.current_version_id)
                    == Option::Some(v@),
                Option::None => version_lookup(self@.versions, self@.current_version_id) is None,
            },
    {
        find_version(&self.versions, self.current_version_id)
    }
}

/// A view handle: the identifier and the metadata document observed when
/// the handle was loaded.
pub struct ViewHandle {
    pub identifier: crate::catalog::Identifier,
    pub metadata: ViewMetadata,
}

impl ViewHandle {
    /// Creates a view handle.
    pub fn new(identifier: crate::catalog::Identifier, metadata: ViewMetadata) -> (r: ViewHandle)
        ensures
            r.identifier@ == identifier@,
            r.metadata@ == metadata@,
    {
        ViewHandle { identifier, metadata }
    }

    /// The view identifier in the catalog.
    pub fn identifier(&self) -> (r: &crate::catalog::Identifier)
        ensures
            r@ == self.identifier@,
    {
        &self.identifier
    }

    /// The metadata of the view.
    pub fn metadata(&self) -> (r: &ViewMetadata)
        ensures
            r@ == self.metadata@,
    {
        &self.metadata
    }
}

/// A materialized-view handle: the identifier and the metadata document,
/// whose properties point at the storage table's metadata document.
pub struct MaterializedView {
    pub identifier: crate::catalog::Identifier,
    pub metadata: MaterializedViewMetadata,
}

impl MaterializedView {
    /// Creates a materialized-view handle.
    pub fn new(
        identifier: crate::catalog::Identifier,
        metadata: MaterializedViewMetadata,
    ) -> (r: MaterializedView)
        ensures
            r.identifier@ == identifier@,
            r.metadata@ == metadata@,
    {
        MaterializedView { identifier, metadata }
    }

    /// The view identifier in the catalog.
    pub fn identifier(&self) -> (r: &crate::catalog::Identifier)
        ensures
            r@ == self.identifier@,
    {
        &self.identifier
    }

    /// The metadata of the view.
    pub fn metadata(&self) -> (r: &MaterializedViewMetadata)
        ensures
            r@ == self.metadata@,
    {
        &self.metadata
    }

    /// The location of the storage table's metadata document.
    pub fn storage_table_location(&self) -> (r: &str)
        ensures
            r@ == self.metadata@.metadata_location,
    {
        self.metadata.properties.metadata_location.as_str()
    }

    /// Unwraps the storage table from the tabular document loaded at the
    /// storage-table location. Anything but a table document is a corrupt
    /// materialization.
    pub fn storage_table(&self, document: crate::catalog::TabularMetadata) -> (r: Result<
        crate::table_metadata::TableMetadata,
        Error,
    >)
        ensures
            match r {
                Result::Ok(m) => document@ matches crate::catalog::TabularMetadataView::Table(mv)
                    && mv == m@,
                Result::Err(e) => !(document@ is Table) && e is InvalidFormat,
            },
    {
        match document {
            crate::catalog::TabularMetadata::Table(m) => Result::Ok(m),
            _ => Result::Err(Error::InvalidFormat(String::from_str("storage table"))),
        }
    }

    /// Starts a transaction that rewrites the storage table.
    pub fn new_transaction(&self, branch: Option<&str>) -> (r: crate::transaction::Transaction)
        ensures
            r.operations@.len() == 0,
    {
        let b: Option<String> = match branch {
            Option::Some(s) => Option::Some(s.to_owned()),
            Option::None => Option::None,
        };
        crate::transaction::Transaction::new(b)
    }
}

/// Builds a view: one version holding the SQL text, registered in the
/// catalog on build.
pub struct ViewBuilder {
    pub identifier: crate::catalog::Identifier,
    pub metadata: ViewMetadata,
}

impl ViewBuilder {
    /// Starts a builder with version one of the given SQL definition, in
    /// the ANSI dialect, over the given schema; the version ref `main`
    /// points at version one through the view properties.
    pub fn new(sql: &str, identifier: crate::catalog::Identifier, schema: Schema) -> (r:
        ViewBuilder)
        ensures
            r.identifier@ == identifier@,
            r.metadata@.current_version_id == 1,
            r.metadata@.versions.len() == 1,
            version_lookup(r.metadata@.versions, 1) is Some,
            version_lookup(r.metadata@.versions, 1)->Some_0.representations.len() == 1,
            version_lookup(r.metadata@.versions, 1)->Some_0.representations[0].sql == sql@,
            version_lookup(r.metadata@.versions, 1)->Some_0.representations[0].dialect
                == "ANSI"@,
            version_lookup(r.metadata@.versions, 1)->Some_0.schema_id == schema@.schema_id,
            crate::table_metadata::prop_lookup(r.metadata@.properties, "version-ref-main"@)
                == Option::Some("1"@),
    {
        let mut representations: Vec<ViewRepresentation> = Vec::new();
        representations.push(
            ViewRepresentation::Sql { sql: sql.to_owned(), dialect: String::from_str("ANSI") },
        );
        let schema_id = schema.schema_id;
        let mut versions: Vec<Version> = Vec::new();
        versions.push(Version { version_id: 1, schema_id, representations });
        let mut schemas: Vec<Schema> = Vec::new();
        schemas.push(schema);
        let mut properties: Vec<(String, String)> = Vec::new();
        properties.push((String::from_str("version-ref-main"), String::from_str("1")));
        let metadata = ViewMetadata {
            location: String::new(),
            current_version_id: 1,
            versions,
            schemas,
            properties: ViewProperties { other: properties },
        };
        let r = ViewBuilder { identifier, metadata };
        proof {
            assert(r.metadata@.versions.drop_last() =~= Seq::<VersionView>::empty());
            assert(r.metadata@.versions[0].representations[0].sql == sql@);
            assert(r.metadata@.properties.len() == 1);
            assert(r.metadata@.properties.last() == ("version-ref-main"@, "1"@));
        }
        r
    }

    /// Sets the view's location.
    pub fn location(&mut self, location: &str)
        ensures
            final(self).metadata@.location == location@,
            final(self).identifier@ == old(self).identifier@,
            final(self).metadata@.versions == old(self).metadata@.versions,
            final(self).metadata@.current_version_id == old(self).metadata@.current_version_id,
    {
        self.metadata.location = location.to_owned();
    }

    /// Registers the view in the catalog and returns the handle.
    pub fn build(
        self,
        catalog: &mut crate::catalog::CatalogState,
        metadata_location: String,
    ) -> (r: Result<ViewHandle, Error>)
        ensures
            match r {
                Result::Ok(v) => {
                    &&& v.identifier@ == self.identifier@
                    &&& v.metadata@ == self.metadata@
                    &&& crate::catalog::tabular_lookup(final(catalog)@.tabulars, self.identifier@)
                        == Option::Some(
                        (
                            crate::catalog::TabularMetadataView::View(self.metadata@),
                            metadata_location@,
                        ),
                    )
                },
                Result::Err(e) => e is Conflict && final(catalog)@ == old(catalog)@,
            },
    {
        let handle_metadata = clone_view_metadata(&self.metadata);
        let handle_identifier = crate::catalog::clone_identifier(&self.identifier);
        match catalog.create_view(self.identifier, self.metadata, metadata_location) {
            Result::Ok(()) => Result::Ok(
                ViewHandle { identifier: handle_identifier, metadata: handle_metadata },
            ),
            Result::Err(e) => Result::Err(e),
        }
    }
}

/// Finds a version by id.
pub fn find_version(versions: &Vec<Version>, id: i32) -> (r: Option<&Version>)
    ensures
        match r {
            Option::Some(v) => version_lookup(
                versions@.map_values(|v2: Version| v2@),
                id,
            ) == Option::Some(v@),
            Option::None => version_lookup(versions@.map_values(|v2: Version| v2@), id) is None,
        },
{
    let ghost vs = versions@.map_values(|v2: Version| v2@);
    let mut i: usize = versions.len();
    proof {
        assert(vs.take(i as int) =~= vs);
    }
    while i > 0
        invariant
            i <= versions@.len(),
            vs == versions@.map_values(|v2: Version| v2@),
            version_lookup(vs, id) == version_lookup(vs.take(i as int), id),
        decreases i,
    {
        proof {
            assert(vs.take(i as int).last() == vs[i - 1]);
            assert(vs.take(i as int).drop_last() =~= vs.take(i as int - 1));
        }
        if versions[i - 1].version_id == id {
            return Option::Some(&versions[i - 1]);
        }
        i = i - 1;
    }
    proof {
        assert(vs.take(0) =~= Seq::<VersionView>::empty());
    }
    Option::None
}

} // verus!
