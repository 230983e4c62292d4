//! Tenant provisioning: creating an isolated schema for a new tenant by
//! structural cloning of the template schema, the companion existence check,
//! the statement texts it runs, and the typed mapping of database failures to
//! outcomes.

use vstd::prelude::*;
use crate::outcome::{ServiceOutcome, StatusCategory};

verus! {

/// A tenant, identified by name.
#[derive(Debug)]
pub struct Tenant {
    pub name: String,
}

/// The failure categories the relational backend can report, as a closed
/// enum. An attempt to create something that is already there is its own
/// variant, not a text match.
#[derive(Clone, Copy, Debug, PartialEq, Eq, Structural)]
pub enum DbFailure {
    ConnectionAcquire,
    TryInto,
    Conn,
    Exec,
    Query,
    ConvertFromU64,
    UnpackInsertId,
    UpdateGetPrimaryKey,
    RecordNotFound,
    AttrNotSet,
    Custom,
    Type,
    Json,
    Migration,
    AlreadyExists,
}

/// The status category each database failure maps to.
pub open spec fn spec_db_failure_status(f: DbFailure) -> StatusCategory {
    match f {
        DbFailure::ConnectionAcquire => StatusCategory::Unavailable,
        DbFailure::TryInto => StatusCategory::BadRequest,
        DbFailure::Conn => StatusCategory::Internal,
        DbFailure::Exec => StatusCategory::Internal,
        DbFailure::Query => StatusCategory::Internal,
        DbFailure::ConvertFromU64 => StatusCategory::BadRequest,
        DbFailure::UnpackInsertId => StatusCategory::Internal,
        DbFailure::UpdateGetPrimaryKey => StatusCategory::BadRequest,
        DbFailure::RecordNotFound => StatusCategory::NotFound,
        DbFailure::AttrNotSet => StatusCategory::BadRequest,
        DbFailure::Custom => StatusCategory::Internal,
        DbFailure::Type => StatusCategory::BadRequest,
        DbFailure::Json => StatusCategory::BadRequest,
        DbFailure::Migration => StatusCategory::Internal,
        DbFailure::AlreadyExists => StatusCategory::Conflict,
    }
}

/// Map a database failure and its description to the outcome reported to the
/// caller. An already-exists failure is normalized to the fixed conflict
/// detail; every other failure passes its description through.
pub fn db_failure_outcome(f: DbFailure, message: String) -> (r: ServiceOutcome)
    ensures
        r.status == spec_db_failure_status(f),
        f == DbFailure::AlreadyExists ==> r.detail@ == "Tenant already exists"@,
        f != DbFailure::AlreadyExists ==> r.detail@ == message@,
{
    let status = match f {
        DbFailure::ConnectionAcquire => StatusCategory::Unavailable,
        DbFailure::TryInto => StatusCategory::BadRequest,
        DbFailure::Conn => StatusCategory::Internal,
        DbFailure::Exec => StatusCategory::Internal,
        DbFailure::Query => StatusCategory::Internal,
        DbFailure::ConvertFromU64 => StatusCategory::BadRequest,
        DbFailure::UnpackInsertId => StatusCategory::Internal,
        DbFailure::UpdateGetPrimaryKey => StatusCategory::BadRequest,
        DbFailure::RecordNotFound => StatusCategory::NotFound,
        DbFailure::AttrNotSet => StatusCategory::BadRequest,
        DbFailure::Custom => StatusCategory::Internal,
        DbFailure::Type => StatusCategory::BadRequest,
        DbFailure::Json => StatusCategory::BadRequest,
        DbFailure::Migration => StatusCategory::Internal,
        DbFailure::AlreadyExists => StatusCategory::Conflict,
    };
    if matches!(f, DbFailure::AlreadyExists) {
        ServiceOutcome { detail: String::from_str("Tenant already exists"), status }
    } else {
        ServiceOutcome { detail: message, status }
    }
}

/// Whether a character may open a tenant name: a lowercase ASCII letter.
pub open spec fn is_name_head_char(c: char) -> bool {
    'a' <= c <= 'z'
}

/// Whether a character may appear in a tenant name.
pub open spec fn is_name_char(c: char) -> bool {
    is_name_head_char(c) || ('0' <= c <= '9') || c == '_'
}

/// A valid tenant name: one to sixty-three characters, lowercase letters,
/// digits and underscores, opening with a letter. Only such a name is ever
/// interpolated into a statement.
pub open spec fn spec_is_valid_tenant_name(s: Seq<char>) -> bool {
    &&& 1 <= s.len() <= 63
    &&& is_name_head_char(s[0])
    &&& forall|i: int| 0 <= i < s.len() ==> is_name_char(#[trigger] s[i])
}

/// Check a tenant name against the allow-list shape.
pub fn is_valid_tenant_name(s: &str) -> (r: bool)
    ensures
        r == spec_is_valid_tenant_name(s@),
{
    let n = s.unicode_len();
    if n < 1 || n > 63 {
        return false;
    }
    let c0 = s.get_char(0);
    if !('a' <= c0 && c0 <= 'z') {
        return false;
    }
    let mut i: usize = 0;
    while i < n
        invariant
            i <= n,
            n == s@.len(),
            1 <= n <= 63,
            is_name_head_char(s@[0]),
            forall|t: int| 0 <= t < i ==> is_name_char(#[trigger] s@[t]),
        decreases n - i,
    {
        let c = s.get_char(i);
        if !(('a' <= c && c <= 'z') || ('0' <= c && c <= '9') || c == '_') {
            return false;
        }
        i = i + 1;
    }
    true
}

/// The statement that creates a tenant's schema.
pub fn create_schema_sql(name: &String) -> (r: String)
    ensures
        r@ == "CREATE SCHEMA "@ + name@,
{
    String::from_str("CREATE SCHEMA ").concat(name.as_str())
}

/// The statement that clones one template table, constraints and indexes
/// included, into a tenant's schema.
pub fn clone_table_sql(schema: &String, table: &String) -> (r: String)
    ensures
        r@ == "CREATE TABLE "@ + schema@ + "."@ + table@ + " (LIKE public."@ + table@
            + " INCLUDING ALL)"@,
{
    String::from_str("CREATE TABLE ").concat(schema.as_str()).concat(".").concat(
        table.as_str(),
    ).concat(" (LIKE public.").concat(table.as_str()).concat(" INCLUDING ALL)")
}

/// The statement that creates one matching sequence in a tenant's schema.
pub fn create_sequence_sql(schema: &String, sequence: &String) -> (r: String)
    ensures
        r@ == "CREATE SEQUENCE "@ + schema@ + "."@ + sequence@,
{
    String::from_str("CREATE SEQUENCE ").concat(schema.as_str()).concat(".").concat(
        sequence.as_str(),
    )
}

/// The catalog query behind the existence check.
pub fn tenant_exists_sql(name: &String) -> (r: String)
    ensures
        r@ == "SELECT EXISTS (SELECT * FROM pg_catalog.pg_namespace WHERE nspname = '"@ + name@
            + "');"@,
{
    String::from_str("SELECT EXISTS (SELECT * FROM pg_catalog.pg_namespace WHERE nspname = '")
        .concat(name.as_str()).concat("');")
}

/// The contents of one tenant's schema.
pub ghost struct SchemaView {
    pub tables: Seq<Seq<char>>,
    pub sequences: Seq<Seq<char>>,
}

/// One provisioned schema: its name and the objects cloned into it.
#[derive(Debug)]
pub struct TenantSchema {
    pub name: String,
    pub tables: Vec<String>,
    pub sequences: Vec<String>,
}

pub open spec fn schema_view(s: TenantSchema) -> SchemaView {
    SchemaView { tables: s.tables.deep_view(), sequences: s.sequences.deep_view() }
}

/// The provisioner's picture of the database: the template's tables and
/// sequences, and one schema per provisioned tenant.
#[derive(Debug)]
pub struct TenantDirectory {
    template_tables: Vec<String>,
    template_sequences: Vec<String>,
    schemas: Vec<TenantSchema>,
}

impl View for TenantDirectory {
    type V = Map<Seq<char>, SchemaView>;

    closed spec fn view(&self) -> Map<Seq<char>, SchemaView> {
        Map::new(
            |k: Seq<char>|
                exists|i: int| 0 <= i < self.schemas@.len() && self.schemas@[i].name@ == k,
            |k: Seq<char>|
                schema_view(
                    self.schemas@[choose|i: int|
                        0 <= i < self.schemas@.len() && self.schemas@[i].name@ == k],
                ),
        )
    }
}

impl TenantDirectory {
    /// Schema names are unique.
    pub closed spec fn wf(&self) -> bool {
        forall|i: int, j: int|
            0 <= i < j < self.schemas@.len() ==> self.schemas@[i].name@ != self.schemas@[j].name@
    }

    /// The template's tables, which every new schema is cloned from.
    pub closed spec fn spec_template_tables(&self) -> Seq<Seq<char>> {
        self.template_tables.deep_view()
    }

    /// The template's sequences.
    pub closed spec fn spec_template_sequences(&self) -> Seq<Seq<char>> {
        self.template_sequences.deep_view()
    }

    proof fn lemma_view_index(&self, i: int)
        requires
            self.wf(),
            0 <= i < self.schemas@.len(),
        ensures
            self@.contains_key(self.schemas@[i].name@),
            self@[self.schemas@[i].name@] == schema_view(self.schemas@[i]),
    {
        let k = self.schemas@[i].name@;
        assert(exists|t: int| 0 <= t < self.schemas@.len() && self.schemas@[t].name@ == k);
        let j = choose|t: int| 0 <= t < self.schemas@.len() && self.schemas@[t].name@ == k;
        assert(j == i);
    }

    /// A directory over a template, with no tenants yet.
    pub fn new(template_tables: Vec<String>, template_sequences: Vec<String>) -> (r:
        TenantDirectory)
        ensures
            r.wf(),
            r@ == Map::<Seq<char>, SchemaView>::empty(),
            r.spec_template_tables() == template_tables.deep_view(),
            r.spec_template_sequences() == template_sequences.deep_view(),
    {
        let r = TenantDirectory { template_tables, template_sequences, schemas: Vec::new() };
        proof {
            assert(r@ =~= Map::<Seq<char>, SchemaView>::empty());
        }
        r
    }

    fn find_idx(&self, name: &String) -> (r: Option<usize>)
        requires
            self.wf(),
        ensures
            r matches Some(i) ==> i < self.schemas@.len() && self.schemas@[i as int].name@
                == name@,
            r is None ==> forall|i: int|
                0 <= i < self.schemas@.len() ==> (#[trigger] self.schemas@[i].name@) != name@,
    {
        let n = self.schemas.len();
        let mut i: usize = 0;
        while i < n
            invariant
                i <= n,
                n == self.schemas@.len(),
                forall|t: int| 0 <= t < i ==> (#[trigger] self.schemas@[t].name@) != name@,
            decreases n - i,
        {
            if self.schemas[i].name.eq(name) {
                return Some(i);
            }
            i = i + 1;
        }
        None
    }

    /// The companion existence check: whether a schema of that name is there.
    pub fn tenant_exists(&self, name: &String) -> (r: bool)
        requires
            self.wf(),
        ensures
            r == self@.contains_key(name@),
    {
        match self.find_idx(name) {
            Some(i) => {
                proof {
                    self.lemma_view_index(i as int);
                }
                true
            },
            None => {
                proof {
                    assert(!self@.contains_key(name@));
                }
                false
            },
        }
    }

    /// Provision a tenant: reject a name outside the allow-list, report a
    /// conflict when the schema is already there, and otherwise create the
    /// schema and clone every template table and sequence into it.
    pub fn provision(&mut self, name: &String) -> (r: ServiceOutcome)
        requires
            old(self).wf(),
        ensures
            final(self).wf(),
            final(self).spec_template_tables() == old(self).spec_template_tables(),
            final(self).spec_template_sequences() == old(self).spec_template_sequences(),
            !spec_is_valid_tenant_name(name@) ==> r.status == StatusCategory::BadRequest
                && r.detail@ == "Invalid tenant name"@ && final(self)@ == old(self)@,
            spec_is_valid_tenant_name(name@) && old(self)@.contains_key(name@) ==> r.status
                == StatusCategory::Conflict && r.detail@ == "Tenant already exists"@ && final(self)@ == old(self)@,
            spec_is_valid_tenant_name(name@) && !old(self)@.contains_key(name@) ==> r.status
                == StatusCategory::Created && r.detail@ == "Tenant created"@ && final(self)@
                == old(self)@.insert(
                name@,
                SchemaView {
                    tables: old(self).spec_template_tables(),
                    sequences: old(self).spec_template_sequences(),
                },
            ),
    {
        if !is_valid_tenant_name(name.as_str()) {
            return ServiceOutcome {
                detail: String::from_str("Invalid tenant name"),
                status: StatusCategory::BadRequest,
            };
        }
        match self.find_idx(name) {
            Some(i) => {
                proof {
                    self.lemma_view_index(i as int);
                }
                ServiceOutcome {
                    detail: String::from_str("Tenant already exists"),
                    status: StatusCategory::Conflict,
                }
            },
            None => {
                let ghost oldself = *self;
                let schema = TenantSchema {
                    name: name.clone(),
                    tables: self.template_tables.clone(),
                    sequences: self.template_sequences.clone(),
                };
                let ghost sv = schema_view(schema);
                self.schemas.push(schema);
                proof {
                    let n = self.schemas@.len() - 1;
                    assert forall|a: int, b: int|
                        0 <= a < b < self.schemas@.len() implies self.schemas@[a].name@
                        != self.schemas@[b].name@ by {
                        if b < n {
                            assert(self.schemas@[a] == oldself.schemas@[a]);
                            assert(self.schemas@[b] == oldself.schemas@[b]);
                        } else {
                            assert(self.schemas@[a] == oldself.schemas@[a]);
                        }
                    }
                    assert(self.schemas@[n].tables.deep_view()
                        == oldself.template_tables.deep_view());
                    assert(self.schemas@[n].sequences.deep_view()
                        == oldself.template_sequences.deep_view());
                    assert forall|k: Seq<char>| true implies #[trigger] self@.contains_key(k)
                        == oldself@.insert(name@, sv).contains_key(k) by {
                        if k == name@ {
                            self.lemma_view_index(n);
                        } else {
                            if self@.contains_key(k) {
                                let w = choose|t: int|
                                    0 <= t < self.schemas@.len() && self.schemas@[t].name@ == k;
                                assert(w < n);
                                assert(oldself.schemas@[w].name@ == k);
                            }
                            if oldself@.contains_key(k) {
                                let w = choose|t: int|
                                    0 <= t < oldself.schemas@.len() && oldself.schemas@[t].name@
                                        == k;
                                assert(self.schemas@[w].name@ == k);
                            }
                        }
                    }
                    assert forall|k: Seq<char>| self@.contains_key(k) implies self@[k]
                        == oldself@.insert(name@, sv)[k] by {
                        if k == name@ {
                            self.lemma_view_index(n);
                        } else {
                            let w = choose|t: int|
                                0 <= t < self.schemas@.len() && self.schemas@[t].name@ == k;
                            self.lemma_view_index(w);
                            assert(w < n);
                            oldself.lemma_view_index(w);
                            assert(oldself.schemas@[w] == self.schemas@[w]);
                        }
                    }
                    assert(self@ =~= oldself@.insert(name@, sv));
                }
                ServiceOutcome {
                    detail: String::from_str("Tenant created"),
                    status: StatusCategory::Created,
                }
            },
        }
    }
}

/// Provisioning the same name twice conflicts: once a schema is in the
/// directory, it is found there, so the second attempt reports the conflict
/// outcome with its normalized detail.
pub proof fn lemma_provision_twice_conflicts(
    m: Map<Seq<char>, SchemaView>,
    name: Seq<char>,
    sv: SchemaView,
)
    ensures
        m.insert(name, sv).contains_key(name),
{
}

} // verus!
