//! Role and privilege rows for the catalog views.
//!
//! The rows report what was granted. Nothing here is checked when data is read
//! or written: a row of `information_schema.table_privileges` means that
//! somebody ran `GRANT`, not that access is restricted.
//!
//! The roles `postgres` and `helios` are built in. They are listed first and
//! are never stored.

use crate::schema;
use crate::schema::{Column, ColumnModel, Tuple, TupleModel};
use crate::text;
use crate::value;
use crate::value::{DataType, Value, ValueModel};
use vstd::prelude::*;
use vstd::string::*;

verus! {

/// The identifiers of the built-in roles.
pub const BUILTIN_POSTGRES_ROLE_OID: u32 = 10;

pub const BUILTIN_HELIOS_ROLE_OID: u32 = 11;

/// A role and its attributes.
pub struct RoleRecord {
    pub oid: u32,
    pub name: String,
    pub rolsuper: bool,
    pub rolinherit: bool,
    pub rolcreaterole: bool,
    pub rolcreatedb: bool,
    pub rolcanlogin: bool,
    pub rolreplication: bool,
    pub rolbypassrls: bool,
    pub rolconnlimit: i32,
    pub rolvaliduntil: Option<String>,
    pub password: Option<String>,
}

#[verifier::ext_equal]
pub struct RoleModel {
    pub oid: u32,
    pub name: Seq<char>,
    pub rolsuper: bool,
    pub rolinherit: bool,
    pub rolcreaterole: bool,
    pub rolcreatedb: bool,
    pub rolcanlogin: bool,
    pub rolreplication: bool,
    pub rolbypassrls: bool,
    pub rolconnlimit: i32,
    pub rolvaliduntil: Option<Seq<char>>,
    pub password: Option<Seq<char>>,
}

impl View for RoleRecord {
    type V = RoleModel;

    open spec fn view(&self) -> RoleModel {
        RoleModel {
            oid: self.oid,
            name: self.name@,
            rolsuper: self.rolsuper,
            rolinherit: self.rolinherit,
            rolcreaterole: self.rolcreaterole,
            rolcreatedb: self.rolcreatedb,
            rolcanlogin: self.rolcanlogin,
            rolreplication: self.rolreplication,
            rolbypassrls: self.rolbypassrls,
            rolconnlimit: self.rolconnlimit,
            rolvaliduntil: schema::opt_text(self.rolvaliduntil),
            password: schema::opt_text(self.password),
        }
    }
}

impl Clone for RoleRecord {
    fn clone(&self) -> (r: RoleRecord)
        ensures
            r@ == self@,
    {
        RoleRecord {
            oid: self.oid,
            name: self.name.clone(),
            rolsuper: self.rolsuper,
            rolinherit: self.rolinherit,
            rolcreaterole: self.rolcreaterole,
            rolcreatedb: self.rolcreatedb,
            rolcanlogin: self.rolcanlogin,
            rolreplication: self.rolreplication,
            rolbypassrls: self.rolbypassrls,
            rolconnlimit: self.rolconnlimit,
            rolvaliduntil: self.rolvaliduntil.clone(),
            password: self.password.clone(),
        }
    }
}

/// What was granted on one object to one role: each privilege, and whether it
/// may be granted on.
pub struct AclRecord {
    pub object_type: String,
    pub object_name: String,
    pub grantee: String,
    pub grantor: String,
    pub privileges: Vec<(String, bool)>,
}

pub struct AclModel {
    pub object_type: Seq<char>,
    pub object_name: Seq<char>,
    pub grantee: Seq<char>,
    pub grantor: Seq<char>,
    pub privileges: Seq<(Seq<char>, bool)>,
}

pub open spec fn privileges_model(s: Seq<(String, bool)>) -> Seq<(Seq<char>, bool)> {
    Seq::new(s.len(), |i: int| (s[i].0@, s[i].1))
}

impl View for AclRecord {
    type V = AclModel;

    open spec fn view(&self) -> AclModel {
        AclModel {
            object_type: self.object_type@,
            object_name: self.object_name@,
            grantee: self.grantee@,
            grantor: self.grantor@,
            privileges: privileges_model(self.privileges@),
        }
    }
}

/// The stored roles, by name, and the stored grants, in catalog order.
pub struct Catalog {
    pub roles: Vec<RoleRecord>,
    pub acls: Vec<AclRecord>,
}

pub open spec fn roles_model(s: Seq<RoleRecord>) -> Seq<RoleModel> {
    Seq::new(s.len(), |i: int| s[i]@)
}

pub open spec fn acls_model(s: Seq<AclRecord>) -> Seq<AclModel> {
    Seq::new(s.len(), |i: int| s[i]@)
}

/// Texts by their characters.
pub open spec fn names(s: Seq<&str>) -> Seq<Seq<char>> {
    Seq::new(s.len(), |i: int| s[i]@)
}

/// The privileges of a table, in the order in which `GRANT ALL` expands.
pub open spec fn table_privileges() -> Seq<Seq<char>> {
    seq![
        "SELECT"@,
        "INSERT"@,
        "UPDATE"@,
        "DELETE"@,
        "TRUNCATE"@,
        "REFERENCES"@,
        "TRIGGER"@,
    ]
}

/// The privileges of a sequence.
pub open spec fn sequence_privileges() -> Seq<Seq<char>> {
    seq!["USAGE"@, "SELECT"@, "UPDATE"@]
}

/// All privileges of an object type, `None` for a type that is not modelled.
pub open spec fn privileges_of(object_type: Seq<char>) -> Option<Seq<Seq<char>>> {
    if object_type == "table"@ {
        Some(table_privileges())
    } else if object_type == "sequence"@ {
        Some(sequence_privileges())
    } else {
        None
    }
}

/// Expands `GRANT ALL PRIVILEGES` for an object type. An object type that is
/// not modelled has no expansion, not an empty one.
pub fn all_privileges_for(object_type: &str) -> (r: Option<Vec<&'static str>>)
    ensures
        match r {
            Some(v) => privileges_of(object_type@) == Some(names(v@)),
            None => privileges_of(object_type@) is None,
        },
{
    if text::same_text(object_type, "table") {
        let v: Vec<&'static str> =
            vec![
            "SELECT",
            "INSERT",
            "UPDATE",
            "DELETE",
            "TRUNCATE",
            "REFERENCES",
            "TRIGGER",
        ];
        assert(names(v@) =~= table_privileges());
        Some(v)
    } else if text::same_text(object_type, "sequence") {
        proof {
            reveal_strlit("table");
            reveal_strlit("sequence");
        }
        let v: Vec<&'static str> = vec!["USAGE", "SELECT", "UPDATE"];
        assert(names(v@) =~= sequence_privileges());
        Some(v)
    } else {
        None
    }
}

/// Whether a privilege exists for an object type.
pub fn is_valid_privilege(object_type: &str, privilege: &str) -> (r: bool)
    ensures
        r == match privileges_of(object_type@) {
            Some(list) => list.contains(privilege@),
            None => false,
        },
{
    match all_privileges_for(object_type) {
        Some(list) => {
            for i in 0..list.len()
                invariant
                    privileges_of(object_type@) == Some(names(list@)),
                    forall|j: int| 0 <= j < i ==> #[trigger] names(list@)[j] != privilege@,
            {
                assert(names(list@)[i as int] == list@[i as int]@);
                if text::same_text(list[i], privilege) {
                    return true;
                }
            }
            false
        },
        None => false,
    }
}

/// A built-in role: everything allowed, no limit, no password.
pub open spec fn builtin_role(oid: u32, name: Seq<char>) -> RoleModel {
    RoleModel {
        oid,
        name,
        rolsuper: true,
        rolinherit: true,
        rolcreaterole: true,
        rolcreatedb: true,
        rolcanlogin: true,
        rolreplication: true,
        rolbypassrls: true,
        rolconnlimit: -1i32,
        rolvaliduntil: None,
        password: None,
    }
}

/// The two built-in roles.
pub open spec fn builtins() -> Seq<RoleModel> {
    seq![
        builtin_role(BUILTIN_POSTGRES_ROLE_OID, "postgres"@),
        builtin_role(BUILTIN_HELIOS_ROLE_OID, "helios"@),
    ]
}

/// Every role: the built-in ones, then the stored ones.
pub open spec fn every_role(stored: Seq<RoleModel>) -> Seq<RoleModel> {
    builtins() + stored
}

fn builtin(oid: u32, name: &str) -> (r: RoleRecord)
    ensures
        r@ == builtin_role(oid, name@),
{
    RoleRecord {
        oid,
        name: name.to_owned(),
        rolsuper: true,
        rolinherit: true,
        rolcreaterole: true,
        rolcreatedb: true,
        rolcanlogin: true,
        rolreplication: true,
        rolbypassrls: true,
        rolconnlimit: -1,
        rolvaliduntil: None,
        password: None,
    }
}

/// Every role the catalog knows: the built-in ones first, then the stored ones.
pub fn all_roles(catalog: &Catalog) -> (r: Vec<RoleRecord>)
    ensures
        roles_model(r@) == every_role(roles_model(catalog.roles@)),
{
    let mut out: Vec<RoleRecord> = Vec::new();
    out.push(builtin(BUILTIN_POSTGRES_ROLE_OID, "postgres"));
    out.push(builtin(BUILTIN_HELIOS_ROLE_OID, "helios"));
    assert(roles_model(out@) =~= builtins());
    for i in 0..catalog.roles.len()
        invariant
            roles_model(out@) == builtins() + roles_model(catalog.roles@).take(i as int),
    {
        let ghost was = roles_model(out@);
        out.push(catalog.roles[i].clone());
        assert(roles_model(out@) =~= was.push(catalog.roles@[i as int]@));
        assert(roles_model(catalog.roles@).take(i + 1) =~= roles_model(catalog.roles@).take(
            i as int,
        ).push(catalog.roles@[i as int]@));
        assert(roles_model(out@) =~= builtins() + roles_model(catalog.roles@).take(i + 1));
    }
    assert(roles_model(catalog.roles@).take(catalog.roles.len() as int) =~= roles_model(
        catalog.roles@,
    ));
    out
}

/// A text value, or NULL.
pub open spec fn text_or_null(t: Option<Seq<char>>) -> ValueModel {
    match t {
        Some(s) => ValueModel::String(s),
        None => ValueModel::Null,
    }
}

/// What is shown of a password: that there is one.
pub open spec fn mask(password: Option<Seq<char>>) -> ValueModel {
    match password {
        Some(_) => ValueModel::String("********"@),
        None => ValueModel::Null,
    }
}

fn oid_value(oid: u32) -> (r: Value)
    ensures
        r@ == ValueModel::Int4(oid as i32),
{
    Value::Int4(#[verifier::truncate] (oid as i32))
}

fn opt_text(value: &Option<String>) -> (r: Value)
    ensures
        r@ == text_or_null(schema::opt_text(*value)),
{
    match value {
        Some(t) => Value::String(t.clone()),
        None => Value::Null,
    }
}

fn masked_password(password: &Option<String>) -> (r: Value)
    ensures
        r@ == mask(schema::opt_text(*password)),
{
    match password {
        Some(_) => Value::String("********".to_owned()),
        None => Value::Null,
    }
}

fn row(values: Vec<Value>) -> (r: Tuple)
    ensures
        r@ == schema::loose_row(value::values_model(values@)),
{
    Tuple::new(values)
}

/// A column as a name and a type.
pub open spec fn plain_columns(s: Seq<(Seq<char>, DataType)>) -> Seq<ColumnModel> {
    Seq::new(s.len(), |i: int| schema::plain_column(s[i].0, s[i].1))
}

/// The columns of `pg_roles`.
pub open spec fn role_columns() -> Seq<ColumnModel> {
    plain_columns(
        seq![
            ("oid"@, DataType::Int4),
            ("rolname"@, DataType::Text),
            ("rolsuper"@, DataType::Boolean),
            ("rolinherit"@, DataType::Boolean),
            ("rolcreaterole"@, DataType::Boolean),
            ("rolcreatedb"@, DataType::Boolean),
            ("rolcanlogin"@, DataType::Boolean),
            ("rolreplication"@, DataType::Boolean),
            ("rolconnlimit"@, DataType::Int4),
            ("rolpassword"@, DataType::Text),
            ("rolvaliduntil"@, DataType::Text),
            ("rolbypassrls"@, DataType::Boolean),
        ],
    )
}

/// The columns of `pg_roles`.
pub fn pg_roles_columns() -> (r: Vec<Column>)
    ensures
        schema::columns_model(r@) == role_columns(),
{
    let v: Vec<Column> =
        vec![
        Column::new("oid", DataType::Int4),
        Column::new("rolname", DataType::Text),
        Column::new("rolsuper", DataType::Boolean),
        Column::new("rolinherit", DataType::Boolean),
        Column::new("rolcreaterole", DataType::Boolean),
        Column::new("rolcreatedb", DataType::Boolean),
        Column::new("rolcanlogin", DataType::Boolean),
        Column::new("rolreplication", DataType::Boolean),
        Column::new("rolconnlimit", DataType::Int4),
        Column::new("rolpassword", DataType::Text),
        Column::new("rolvaliduntil", DataType::Text),
        Column::new("rolbypassrls", DataType::Boolean),
    ];
    assert(schema::columns_model(v@) =~= role_columns());
    v
}

/// One row of `pg_roles`. The password is never part of it.
pub open spec fn role_row(r: RoleModel) -> TupleModel {
    schema::loose_row(
        seq![
            ValueModel::Int4(r.oid as i32),
            ValueModel::String(r.name),
            ValueModel::Boolean(r.rolsuper),
            ValueModel::Boolean(r.rolinherit),
            ValueModel::Boolean(r.rolcreaterole),
            ValueModel::Boolean(r.rolcreatedb),
            ValueModel::Boolean(r.rolcanlogin),
            ValueModel::Boolean(r.rolreplication),
            ValueModel::Int4(r.rolconnlimit),
            mask(r.password),
            text_or_null(r.rolvaliduntil),
            ValueModel::Boolean(r.rolbypassrls),
        ],
    )
}

/// The rows of `pg_roles`.
pub open spec fn role_rows(roles: Seq<RoleModel>) -> Seq<TupleModel> {
    Seq::new(roles.len(), |i: int| role_row(roles[i]))
}

/// The rows of `pg_roles`. A password shows as `********`, none as NULL.
pub fn pg_roles_rows(catalog: &Catalog) -> (r: Vec<Tuple>)
    ensures
        schema::rows_model(r@) == role_rows(every_role(roles_model(catalog.roles@))),
{
    let roles: Vec<RoleRecord> = all_roles(catalog);
    let ghost all = roles_model(roles@);
    let mut out: Vec<Tuple> = Vec::new();
    for i in 0..roles.len()
        invariant
            all == roles_model(roles@),
            out.len() == i,
            forall|j: int| 0 <= j < i ==> (#[trigger] out@[j])@ == role_row(all[j]),
    {
        let role: &RoleRecord = &roles[i];
        let values: Vec<Value> =
            vec![
            oid_value(role.oid),
            Value::String(role.name.clone()),
            Value::Boolean(role.rolsuper),
            Value::Boolean(role.rolinherit),
            Value::Boolean(role.rolcreaterole),
            Value::Boolean(role.rolcreatedb),
            Value::Boolean(role.rolcanlogin),
            Value::Boolean(role.rolreplication),
            Value::Int4(role.rolconnlimit),
            masked_password(&role.password),
            opt_text(&role.rolvaliduntil),
            Value::Boolean(role.rolbypassrls),
        ];
        proof {
            value::lemma_values_model(values@);
            assert(all[i as int] == role@);
            assert(value::values_model(values@) =~= role_row(role@).values);
        }
        out.push(row(values));
    }
    assert(schema::rows_model(out@) =~= role_rows(all));
    out
}

/// The columns of `pg_user`.
pub open spec fn user_columns() -> Seq<ColumnModel> {
    plain_columns(
        seq![
            ("usename"@, DataType::Text),
            ("usesysid"@, DataType::Int4),
            ("usecreatedb"@, DataType::Boolean),
            ("usesuper"@, DataType::Boolean),
            ("userepl"@, DataType::Boolean),
            ("usebypassrls"@, DataType::Boolean),
            ("passwd"@, DataType::Text),
            ("valuntil"@, DataType::Text),
            ("useconfig"@, DataType::Text),
        ],
    )
}

/// The columns of `pg_user`.
pub fn pg_user_columns() -> (r: Vec<Column>)
    ensures
        schema::columns_model(r@) == user_columns(),
{
    let v: Vec<Column> =
        vec![
        Column::new("usename", DataType::Text),
        Column::new("usesysid", DataType::Int4),
        Column::new("usecreatedb", DataType::Boolean),
        Column::new("usesuper", DataType::Boolean),
        Column::new("userepl", DataType::Boolean),
        Column::new("usebypassrls", DataType::Boolean),
        Column::new("passwd", DataType::Text),
        Column::new("valuntil", DataType::Text),
        Column::new("useconfig", DataType::Text),
    ];
    assert(schema::columns_model(v@) =~= user_columns());
    v
}

/// One row of `pg_user`.
pub open spec fn user_row(r: RoleModel) -> TupleModel {
    schema::loose_row(
        seq![
            ValueModel::String(r.name),
            ValueModel::Int4(r.oid as i32),
            ValueModel::Boolean(r.rolcreatedb),
            ValueModel::Boolean(r.rolsuper),
            ValueModel::Boolean(r.rolreplication),
            ValueModel::Boolean(r.rolbypassrls),
            mask(r.password),
            text_or_null(r.rolvaliduntil),
            ValueModel::Null,
        ],
    )
}

/// The rows of `pg_user`: the roles that can log in.
pub open spec fn user_rows(roles: Seq<RoleModel>) -> Seq<TupleModel>
    decreases roles.len(),
{
    if roles.len() == 0 {
        Seq::empty()
    } else {
        let before = user_rows(roles.drop_last());
        if roles.last().rolcanlogin {
            before.push(user_row(roles.last()))
        } else {
            before
        }
    }
}

/// The rows of `pg_user`: the roles that can log in.
pub fn pg_user_rows(catalog: &Catalog) -> (r: Vec<Tuple>)
    ensures
        schema::rows_model(r@) == user_rows(every_role(roles_model(catalog.roles@))),
{
    let roles: Vec<RoleRecord> = all_roles(catalog);
    let ghost all = roles_model(roles@);
    let mut out: Vec<Tuple> = Vec::new();
    assert(all.take(0) =~= Seq::<RoleModel>::empty());
    assert(schema::rows_model(out@) =~= user_rows(all.take(0)));
    for i in 0..roles.len()
        invariant
            all == roles_model(roles@),
            schema::rows_model(out@) == user_rows(all.take(i as int)),
    {
        let role: &RoleRecord = &roles[i];
        let ghost was = schema::rows_model(out@);
        proof {
            assert(all[i as int] == role@);
            assert(all.take(i + 1).drop_last() =~= all.take(i as int));
            assert(all.take(i + 1).last() == role@);
        }
        if role.rolcanlogin {
            let values: Vec<Value> =
                vec![
                Value::String(role.name.clone()),
                oid_value(role.oid),
                Value::Boolean(role.rolcreatedb),
                Value::Boolean(role.rolsuper),
                Value::Boolean(role.rolreplication),
                Value::Boolean(role.rolbypassrls),
                masked_password(&role.password),
                opt_text(&role.rolvaliduntil),
                Value::Null,
            ];
            proof {
                value::lemma_values_model(values@);
                assert(value::values_model(values@) =~= user_row(role@).values);
            }
            out.push(row(values));
            assert(schema::rows_model(out@) =~= was.push(user_row(role@)));
        }
    }
    assert(all.take(roles.len() as int) =~= all);
    out
}

/// The columns of `pg_authid`: those of `pg_roles`.
pub fn pg_authid_columns() -> (r: Vec<Column>)
    ensures
        schema::columns_model(r@) == role_columns(),
{
    pg_roles_columns()
}

/// The rows of `pg_authid`: those of `pg_roles`, the masked password included.
pub fn pg_authid_rows(catalog: &Catalog) -> (r: Vec<Tuple>)
    ensures
        schema::rows_model(r@) == role_rows(every_role(roles_model(catalog.roles@))),
{
    pg_roles_rows(catalog)
}

/// The columns of `\du`.
pub open spec fn du_columns() -> Seq<ColumnModel> {
    plain_columns(
        seq![
            ("rolname"@, DataType::Text),
            ("rolsuper"@, DataType::Boolean),
            ("rolinherit"@, DataType::Boolean),
            ("rolcreaterole"@, DataType::Boolean),
            ("rolcreatedb"@, DataType::Boolean),
            ("rolcanlogin"@, DataType::Boolean),
            ("rolconnlimit"@, DataType::Int4),
            ("rolvaliduntil"@, DataType::Text),
            ("memberof"@, DataType::Text),
            ("rolreplication"@, DataType::Boolean),
            ("rolbypassrls"@, DataType::Boolean),
        ],
    )
}

/// The columns that psql's `\du` expects.
pub fn psql_du_columns() -> (r: Vec<Column>)
    ensures
        schema::columns_model(r@) == du_columns(),
{
    let v: Vec<Column> =
        vec![
        Column::new("rolname", DataType::Text),
        Column::new("rolsuper", DataType::Boolean),
        Column::new("rolinherit", DataType::Boolean),
        Column::new("rolcreaterole", DataType::Boolean),
        Column::new("rolcreatedb", DataType::Boolean),
        Column::new("rolcanlogin", DataType::Boolean),
        Column::new("rolconnlimit", DataType::Int4),
        Column::new("rolvaliduntil", DataType::Text),
        Column::new("memberof", DataType::Text),
        Column::new("rolreplication", DataType::Boolean),
        Column::new("rolbypassrls", DataType::Boolean),
    ];
    assert(schema::columns_model(v@) =~= du_columns());
    v
}

/// One row of `\du`. No role is a member of another.
pub open spec fn du_row(r: RoleModel) -> TupleModel {
    schema::loose_row(
        seq![
            ValueModel::String(r.name),
            ValueModel::Boolean(r.rolsuper),
            ValueModel::Boolean(r.rolinherit),
            ValueModel::Boolean(r.rolcreaterole),
            ValueModel::Boolean(r.rolcreatedb),
            ValueModel::Boolean(r.rolcanlogin),
            ValueModel::Int4(r.rolconnlimit),
            text_or_null(r.rolvaliduntil),
            ValueModel::String("{}"@),
            ValueModel::Boolean(r.rolreplication),
            ValueModel::Boolean(r.rolbypassrls),
        ],
    )
}

pub open spec fn du_rows(roles: Seq<RoleModel>) -> Seq<TupleModel> {
    Seq::new(roles.len(), |i: int| du_row(roles[i]))
}

/// The rows of `\du`.
pub fn psql_du_rows(catalog: &Catalog) -> (r: Vec<Tuple>)
    ensures
        schema::rows_model(r@) == du_rows(every_role(roles_model(catalog.roles@))),
{
    let roles: Vec<RoleRecord> = all_roles(catalog);
    let ghost all = roles_model(roles@);
    let mut out: Vec<Tuple> = Vec::new();
    for i in 0..roles.len()
        invariant
            all == roles_model(roles@),
            out.len() == i,
            forall|j: int| 0 <= j < i ==> (#[trigger] out@[j])@ == du_row(all[j]),
    {
        let role: &RoleRecord = &roles[i];
        let values: Vec<Value> =
            vec![
            Value::String(role.name.clone()),
            Value::Boolean(role.rolsuper),
            Value::Boolean(role.rolinherit),
            Value::Boolean(role.rolcreaterole),
            Value::Boolean(role.rolcreatedb),
            Value::Boolean(role.rolcanlogin),
            Value::Int4(role.rolconnlimit),
            opt_text(&role.rolvaliduntil),
            Value::String("{}".to_owned()),
            Value::Boolean(role.rolreplication),
            Value::Boolean(role.rolbypassrls),
        ];
        proof {
            value::lemma_values_model(values@);
            assert(all[i as int] == role@);
            assert(value::values_model(values@) =~= du_row(role@).values);
        }
        out.push(row(values));
    }
    assert(schema::rows_model(out@) =~= du_rows(all));
    out
}

/// The columns of `table_privileges` and `role_table_grants`.
pub open spec fn privilege_columns() -> Seq<ColumnModel> {
    plain_columns(
        seq![
            ("grantor"@, DataType::Text),
            ("grantee"@, DataType::Text),
            ("table_catalog"@, DataType::Text),
            ("table_schema"@, DataType::Text),
            ("table_name"@, DataType::Text),
            ("privilege_type"@, DataType::Text),
            ("is_grantable"@, DataType::Text),
        ],
    )
}

/// The columns of `table_privileges` and `role_table_grants`.
pub fn table_privileges_columns() -> (r: Vec<Column>)
    ensures
        schema::columns_model(r@) == privilege_columns(),
{
    let v: Vec<Column> =
        vec![
        Column::new("grantor", DataType::Text),
        Column::new("grantee", DataType::Text),
        Column::new("table_catalog", DataType::Text),
        Column::new("table_schema", DataType::Text),
        Column::new("table_name", DataType::Text),
        Column::new("privilege_type", DataType::Text),
        Column::new("is_grantable", DataType::Text),
    ];
    assert(schema::columns_model(v@) =~= privilege_columns());
    v
}

/// A key split at its first dot into schema and object; without a dot the
/// schema is `public`.
pub open spec fn split_key(key: Seq<char>) -> (Seq<char>, Seq<char>) {
    let at = text::first_position(key, '.');
    if at < key.len() {
        (key.take(at as int), key.skip(at as int + 1))
    } else {
        ("public"@, key)
    }
}

/// Splits a key into schema and object.
pub fn split_schema_key(key: &str) -> (r: (String, String))
    ensures
        (r.0@, r.1@) == split_key(key@),
{
    let v: Vec<char> = text::chars_of(key);
    let mut i: usize = 0;
    assert(key@.skip(0) =~= key@);
    while i < v.len()
        invariant
            v@ == key@,
            i <= v.len(),
            text::first_position(key@, '.') == i + text::first_position(key@.skip(i as int), '.'),
        decreases v.len() - i,
    {
        assert(key@.skip(i as int)[0] == key@[i as int]);
        assert(key@.skip(i as int).drop_first() =~= key@.skip(i + 1));
        if v[i] == '.' {
            let s: String = key.substring_char(0, i).to_owned();
            let t: String = key.substring_char(i + 1, v.len()).to_owned();
            assert(s@ =~= key@.take(i as int));
            assert(t@ =~= key@.skip(i + 1));
            return (s, t);
        }
        i = i + 1;
    }
    ("public".to_owned(), key.to_owned())
}

/// One row of `table_privileges`.
pub open spec fn privilege_row(a: AclModel, i: int) -> TupleModel {
    let key = split_key(a.object_name);
    schema::loose_row(
        seq![
            ValueModel::String(a.grantor),
            ValueModel::String(a.grantee),
            ValueModel::String("heliosdb"@),
            ValueModel::String(key.0),
            ValueModel::String(key.1),
            ValueModel::String(a.privileges[i].0),
            ValueModel::String(
                if a.privileges[i].1 {
                    "YES"@
                } else {
                    "NO"@
                },
            ),
        ],
    )
}

/// The rows of one record: one for each privilege on a table.
pub open spec fn record_rows(a: AclModel) -> Seq<TupleModel> {
    if a.object_type == "table"@ {
        Seq::new(a.privileges.len(), |i: int| privilege_row(a, i))
    } else {
        Seq::empty()
    }
}

/// The rows of `table_privileges`.
pub open spec fn privilege_rows(acls: Seq<AclModel>) -> Seq<TupleModel>
    decreases acls.len(),
{
    if acls.len() == 0 {
        Seq::empty()
    } else {
        privilege_rows(acls.drop_last()) + record_rows(acls.last())
    }
}

fn acl_rows(acl: &AclRecord, out: &mut Vec<Tuple>)
    ensures
        schema::rows_model(final(out)@) == schema::rows_model(old(out)@) + record_rows(acl@),
{
    let ghost before = schema::rows_model(out@);
    if !text::same_text(acl.object_type.as_str(), "table") {
        assert(before + record_rows(acl@) =~= before);
        return;
    }
    let (schema_name, table): (String, String) = split_schema_key(acl.object_name.as_str());
    let ghost all = record_rows(acl@);
    assert(before + all.take(0) =~= before);
    for i in 0..acl.privileges.len()
        invariant
            all == record_rows(acl@),
            all.len() == acl.privileges.len(),
            acl@.object_type == "table"@,
            (schema_name@, table@) == split_key(acl@.object_name),
            schema::rows_model(out@) == before + all.take(i as int),
    {
        let grantable: &str = if acl.privileges[i].1 {
            "YES"
        } else {
            "NO"
        };
        let values: Vec<Value> =
            vec![
            Value::String(acl.grantor.clone()),
            Value::String(acl.grantee.clone()),
            Value::String("heliosdb".to_owned()),
            Value::String(schema_name.clone()),
            Value::String(table.clone()),
            Value::String(acl.privileges[i].0.clone()),
            Value::String(grantable.to_owned()),
        ];
        let ghost was = schema::rows_model(out@);
        proof {
            value::lemma_values_model(values@);
            assert(value::values_model(values@) =~= privilege_row(acl@, i as int).values);
        }
        out.push(row(values));
        assert(schema::rows_model(out@) =~= was.push(all[i as int]));
        assert(all.take(i + 1) =~= all.take(i as int).push(all[i as int]));
        assert(schema::rows_model(out@) =~= before + all.take(i + 1));
    }
    assert(all.take(acl.privileges.len() as int) =~= all);
}

/// The rows of `table_privileges`: one for each stored privilege on a table.
/// Grants on sequences are not listed.
pub fn table_privileges_rows(catalog: &Catalog) -> (r: Vec<Tuple>)
    ensures
        schema::rows_model(r@) == privilege_rows(acls_model(catalog.acls@)),
{
    let ghost all = acls_model(catalog.acls@);
    let mut out: Vec<Tuple> = Vec::new();
    assert(all.take(0) =~= Seq::<AclModel>::empty());
    assert(schema::rows_model(out@) =~= privilege_rows(all.take(0)));
    for i in 0..catalog.acls.len()
        invariant
            all == acls_model(catalog.acls@),
            schema::rows_model(out@) == privilege_rows(all.take(i as int)),
    {
        assert(all[i as int] == catalog.acls@[i as int]@);
        assert(all.take(i + 1).drop_last() =~= all.take(i as int));
        acl_rows(&catalog.acls[i], &mut out);
    }
    assert(all.take(catalog.acls.len() as int) =~= all);
    out
}

/// The rows of `role_table_grants`. No session has an identity to filter by, so
/// they are those of `table_privileges`.
pub fn role_table_grants_rows(catalog: &Catalog) -> (r: Vec<Tuple>)
    ensures
        schema::rows_model(r@) == privilege_rows(acls_model(catalog.acls@)),
{
    table_privileges_rows(catalog)
}

/// The names of privileges, with commas between them.
pub open spec fn listed(s: Seq<(Seq<char>, bool)>) -> Seq<char>
    decreases s.len(),
{
    if s.len() == 0 {
        Seq::empty()
    } else if s.len() == 1 {
        s[0].0
    } else {
        listed(s.drop_last()) + ", "@ + s.last().0
    }
}

/// Whether a privilege may be granted on.
pub open spec fn any_grantable(s: Seq<(Seq<char>, bool)>) -> bool {
    exists|i: int| 0 <= i < s.len() && (#[trigger] s[i]).1
}

/// The line that says that an account exists.
pub open spec fn usage_line(user: Seq<char>) -> Seq<char> {
    "GRANT USAGE ON *.* TO '"@ + user + "'@'%'"@
}

/// The line for one record.
pub open spec fn grant_line(user: Seq<char>, a: AclModel) -> Seq<char> {
    let key = split_key(a.object_name);
    "GRANT "@ + listed(a.privileges) + " ON `"@ + key.0 + "`.`"@ + key.1 + "` TO '"@ + user
        + "'@'%'"@ + if any_grantable(a.privileges) {
        " WITH GRANT OPTION"@
    } else {
        ""@
    }
}

/// Whether a record is shown to a user: it names the user, or `public`, and
/// grants something on a table.
pub open spec fn shown_to(user: Seq<char>, a: AclModel) -> bool {
    a.object_type == "table"@ && a.privileges.len() > 0 && (a.grantee == user || a.grantee
        == "public"@)
}

/// The lines of `SHOW GRANTS`.
pub open spec fn grant_lines(user: Seq<char>, acls: Seq<AclModel>) -> Seq<Seq<char>>
    decreases acls.len(),
{
    if acls.len() == 0 {
        seq![usage_line(user)]
    } else {
        let before = grant_lines(user, acls.drop_last());
        if shown_to(user, acls.last()) {
            before.push(grant_line(user, acls.last()))
        } else {
            before
        }
    }
}

fn list_privileges(s: &Vec<(String, bool)>) -> (r: String)
    ensures
        r@ == listed(privileges_model(s@)),
{
    let ghost all = privileges_model(s@);
    let mut out: String = String::new();
    assert(all.take(0) =~= Seq::<(Seq<char>, bool)>::empty());
    assert(out@ =~= listed(all.take(0)));
    for i in 0..s.len()
        invariant
            all == privileges_model(s@),
            out@ == listed(all.take(i as int)),
    {
        assert(all.take(i + 1).drop_last() =~= all.take(i as int));
        assert(all.take(i + 1).last() == (s@[i as int].0@, s@[i as int].1));
        if i > 0 {
            out.append(", ");
        }
        out.append(s[i].0.as_str());
        assert(out@ =~= listed(all.take(i + 1)));
    }
    assert(all.take(s.len() as int) =~= all);
    out
}

fn has_grantable(s: &Vec<(String, bool)>) -> (r: bool)
    ensures
        r == any_grantable(privileges_model(s@)),
{
    for i in 0..s.len()
        invariant
            forall|j: int| 0 <= j < i ==> !(#[trigger] privileges_model(s@)[j]).1,
    {
        if s[i].1 {
            assert(privileges_model(s@)[i as int].1);
            return true;
        }
    }
    false
}

/// The lines of MySQL's `SHOW GRANTS` for one user: that the account exists,
/// then one line for each record that names the user or `public`. Only stored
/// privileges are listed.
pub fn mysql_show_grants_lines(user: &str, acls: &[AclRecord]) -> (r: Vec<String>)
    ensures
        schema::texts(r@) == grant_lines(user@, acls_model(acls@)),
{
    let ghost all = acls_model(acls@);
    let mut lines: Vec<String> = Vec::new();
    lines.push(text::concat3("GRANT USAGE ON *.* TO '", user, "'@'%'"));
    assert(all.take(0) =~= Seq::<AclModel>::empty());
    assert(schema::texts(lines@) =~= grant_lines(user@, all.take(0)));
    for i in 0..acls.len()
        invariant
            all == acls_model(acls@),
            schema::texts(lines@) == grant_lines(user@, all.take(i as int)),
    {
        let acl: &AclRecord = &acls[i];
        let ghost was = schema::texts(lines@);
        assert(all[i as int] == acl@);
        assert(all.take(i + 1).drop_last() =~= all.take(i as int));
        assert(all.take(i + 1).last() == acl@);
        let shown: bool = text::same_text(acl.object_type.as_str(), "table") && acl.privileges.len()
            > 0 && (text::same_text(acl.grantee.as_str(), user) || text::same_text(
            acl.grantee.as_str(),
            "public",
        ));
        if shown {
            let (schema_name, table): (String, String) = split_schema_key(
                acl.object_name.as_str(),
            );
            let mut line: String = "GRANT ".to_owned();
            line.append(list_privileges(&acl.privileges).as_str());
            line.append(" ON `");
            line.append(schema_name.as_str());
            line.append("`.`");
            line.append(table.as_str());
            line.append("` TO '");
            line.append(user);
            line.append("'@'%'");
            if has_grantable(&acl.privileges) {
                line.append(" WITH GRANT OPTION");
            } else {
                line.append("");
            }
            assert(line@ == grant_line(user@, acl@));
            lines.push(line);
            assert(schema::texts(lines@) =~= was.push(grant_line(user@, acl@)));
        }
    }
    assert(all.take(acls.len() as int) =~= all);
    lines
}

/// No view shows anything of a password but that there is one.
pub proof fn law_passwords_stay_hidden(r: RoleModel, other: Seq<char>)
    requires
        r.password is Some,
    ensures
        role_row(r) == role_row(RoleModel { password: Some(other), ..r }),
        user_row(r) == user_row(RoleModel { password: Some(other), ..r }),
        du_row(r) == du_row(RoleModel { password: Some(other), ..r }),
{
}

/// Every role is listed in `pg_roles`; one that cannot log in adds nothing to
/// `pg_user`, one that can adds its row.
pub proof fn law_users_are_the_roles_that_can_log_in(roles: Seq<RoleModel>, r: RoleModel)
    ensures
        role_rows(roles.push(r)) == role_rows(roles).push(role_row(r)),
        user_rows(roles.push(r)) == if r.rolcanlogin {
            user_rows(roles).push(user_row(r))
        } else {
            user_rows(roles)
        },
{
    assert(roles.push(r).drop_last() =~= roles);
    assert(role_rows(roles.push(r)) =~= role_rows(roles).push(role_row(r)));
}

proof fn lemma_grant_lines_start(user: Seq<char>, acls: Seq<AclModel>)
    ensures
        grant_lines(user, acls).len() > 0,
        grant_lines(user, acls)[0] == usage_line(user),
    decreases acls.len(),
{
    if acls.len() > 0 {
        lemma_grant_lines_start(user, acls.drop_last());
    }
}

/// The grants of a user always start with the line that grants nothing, and
/// every further line is that of a stored record that is shown to the user.
pub proof fn law_only_stored_grants_are_shown(user: Seq<char>, acls: Seq<AclModel>, i: int)
    requires
        0 <= i < grant_lines(user, acls).len(),
    ensures
        grant_lines(user, acls)[0] == usage_line(user),
        i > 0 ==> exists|k: int|
            0 <= k < acls.len() && shown_to(user, #[trigger] acls[k]) && grant_lines(user, acls)[i]
                == grant_line(user, acls[k]),
    decreases acls.len(),
{
    lemma_grant_lines_start(user, acls);
    if acls.len() > 0 {
        let prior = acls.drop_last();
        let before = grant_lines(user, prior);
        if i < before.len() {
            law_only_stored_grants_are_shown(user, prior, i);
            if i > 0 {
                let k = choose|k: int|
                    0 <= k < prior.len() && shown_to(user, #[trigger] prior[k]) && before[i]
                        == grant_line(user, prior[k]);
                assert(acls[k] == prior[k]);
            }
        } else {
            lemma_grant_lines_start(user, prior);
            assert(acls[acls.len() - 1] == acls.last());
        }
    }
}

} // verus!
