//! Creating the table of an entity.
use crate::ast::DbParam;
use crate::flow::{
    answers, checks_access, failure, failure_in, missing_entity, refuse, refused,
    say_missing_entity, succeed, succeeded, told, touches_data, Action, ActionV, Outcome, Work, WorkV,
};
use crate::json::{json_text, lemma_array_view, lemma_object_view, set_in, with_field, Json, JsonV};
use crate::model::{Column, DbType, ForeignKey, Index, TableSchema};
use crate::post::Fields;
use crate::repositories::data_trace_repo::{db_name, name_of_db};
use crate::text::{
    contains, copy_texts, has_text, listed, lowercase, push_item, same, same_but_case,
    same_ignoring_case, to_lowercase, trim, trimmed,
};
use vstd::prelude::*;
use vstd::string::*;

verus! {

// ---------------------------------------------------------------------------
// Definitions
// ---------------------------------------------------------------------------

/// The definition of a column.
#[derive(Debug, PartialEq)]
pub struct ColumnDef {
    pub name: String,
    pub col_type: String,
    pub nullable: bool,
    pub auto_increment: bool,
    pub collate: Option<String>,
}

/// What the definition of a column is.
pub struct ColumnDefV {
    pub name: Seq<char>,
    pub col_type: Seq<char>,
    pub nullable: bool,
    pub auto_increment: bool,
    pub collate: Option<Seq<char>>,
}

impl DeepView for ColumnDef {
    type V = ColumnDefV;

    open spec fn deep_view(&self) -> ColumnDefV {
        ColumnDefV {
            name: self.name@,
            col_type: self.col_type@,
            nullable: self.nullable,
            auto_increment: self.auto_increment,
            collate: self.collate.deep_view(),
        }
    }
}

/// What happens to a row when the row that it refers to goes or changes.
#[derive(Debug, PartialEq, Eq, Clone, Copy, Structural)]
pub enum KeyAction {
    Cascade,
    SetNull,
    Restrict,
    NoAction,
}

/// A constraint of a table.
#[derive(Debug, PartialEq)]
pub enum TableConstraint {
    PrimaryKey(Vec<String>),
    /// The name of an index, its columns, and whether it is unique.
    Index(String, Vec<String>, bool),
    /// The name of a reference, its column, the table and the column that it
    /// refers to, and what happens when these go or change.
    ForeignKey(String, String, String, String, Option<KeyAction>, Option<KeyAction>),
}

/// What a constraint of a table is.
pub enum TableConstraintV {
    PrimaryKey(Seq<Seq<char>>),
    Index(Seq<char>, Seq<Seq<char>>, bool),
    ForeignKey(Seq<char>, Seq<char>, Seq<char>, Seq<char>, Option<KeyAction>, Option<KeyAction>),
}

impl DeepView for TableConstraint {
    type V = TableConstraintV;

    open spec fn deep_view(&self) -> TableConstraintV {
        match self {
            TableConstraint::PrimaryKey(c) => TableConstraintV::PrimaryKey(c.deep_view()),
            TableConstraint::Index(n, c, u) => TableConstraintV::Index(n@, c.deep_view(), *u),
            TableConstraint::ForeignKey(n, c, t, r, d, u) => TableConstraintV::ForeignKey(
                n@,
                c@,
                t@,
                r@,
                *d,
                *u,
            ),
        }
    }
}

/// The definition of a table, which is created unless it is there.
#[derive(Debug, PartialEq)]
pub struct CreateTable {
    pub name: String,
    pub columns: Vec<ColumnDef>,
    pub constraints: Vec<TableConstraint>,
    pub collate: Option<String>,
}

/// What the definition of a table is.
pub struct CreateTableV {
    pub name: Seq<char>,
    pub columns: Seq<ColumnDefV>,
    pub constraints: Seq<TableConstraintV>,
    pub collate: Option<Seq<char>>,
}

impl DeepView for CreateTable {
    type V = CreateTableV;

    open spec fn deep_view(&self) -> CreateTableV {
        CreateTableV {
            name: self.name@,
            columns: self.columns.deep_view(),
            constraints: self.constraints.deep_view(),
            collate: self.collate.deep_view(),
        }
    }
}

// ---------------------------------------------------------------------------
// Columns
// ---------------------------------------------------------------------------

/// The type of a column that records when a row was written, in a dialect.
pub open spec fn time_type(dialect: Seq<char>) -> Seq<char> {
    if dialect == "postgres"@ {
        "timestamp"@
    } else if dialect == "sqlite"@ {
        "text"@
    } else if dialect == "mssql"@ {
        "datetime2"@
    } else {
        "datetime"@
    }
}

/// The type of a column that records who wrote a row, in a dialect.
pub open spec fn writer_type(dialect: Seq<char>) -> Seq<char> {
    if dialect == "postgres"@ || dialect == "mssql"@ {
        "bigint"@
    } else if dialect == "sqlite"@ {
        "integer"@
    } else {
        "bigint unsigned"@
    }
}

fn find_time_type(dialect: &str) -> (r: String)
    ensures
        r@ == time_type(dialect@),
{
    if same(dialect, "postgres") {
        "timestamp".to_owned()
    } else if same(dialect, "sqlite") {
        "text".to_owned()
    } else if same(dialect, "mssql") {
        "datetime2".to_owned()
    } else {
        "datetime".to_owned()
    }
}

fn find_writer_type(dialect: &str) -> (r: String)
    ensures
        r@ == writer_type(dialect@),
{
    if same(dialect, "postgres") || same(dialect, "mssql") {
        "bigint".to_owned()
    } else if same(dialect, "sqlite") {
        "integer".to_owned()
    } else {
        "bigint unsigned".to_owned()
    }
}

/// The names of some columns.
pub open spec fn column_names(cols: Seq<ColumnDefV>) -> Seq<Seq<char>> {
    Seq::new(cols.len(), |i: int| cols[i].name)
}

/// Columns with one of the audit trail, unless one of its name is there.
pub open spec fn with_audit_column(
    cols: Seq<ColumnDefV>,
    name: Seq<char>,
    col_type: Seq<char>,
) -> Seq<ColumnDefV> {
    if column_names(cols).contains(name) {
        cols
    } else {
        cols.push(
            ColumnDefV { name, col_type, nullable: true, auto_increment: false, collate: None },
        )
    }
}

/// Columns with those of the audit trail.
pub open spec fn with_audit_columns(cols: Seq<ColumnDefV>, dialect: Seq<char>) -> Seq<ColumnDefV> {
    let t = time_type(dialect);
    let w = writer_type(dialect);
    let c1 = with_audit_column(cols, "created_at"@, t);
    let c2 = with_audit_column(c1, "updated_at"@, t);
    let c3 = with_audit_column(c2, "deleted_at"@, t);
    let c4 = with_audit_column(c3, "created_by_id"@, w);
    let c5 = with_audit_column(c4, "updated_by_id"@, w);
    with_audit_column(c5, "deleted_by_id"@, w)
}

fn add_audit_column(cols: &mut Vec<ColumnDef>, name: &str, col_type: String)
    ensures
        final(cols).deep_view() == with_audit_column(old(cols).deep_view(), name@, col_type@),
{
    let ghost cv = cols.deep_view();
    let ghost names = column_names(cv);
    let mut i: usize = 0;
    while i < cols.len()
        invariant
            i <= cols@.len(),
            cv == cols.deep_view(),
            cols.deep_view() == old(cols).deep_view(),
            names == column_names(cv),
            forall|k: int| 0 <= k < i ==> #[trigger] names[k] != name@,
        decreases cols.len() - i,
    {
        assert(cv[i as int] == cols@[i as int].deep_view());
        assert(names[i as int] == cols@[i as int].name@);
        if same(cols[i].name.as_str(), name) {
            assert(names.contains(name@));
            return ;
        }
        i += 1;
    }
    assert(!names.contains(name@)) by {
        assert(names.len() == cols@.len());
    }
    push_item(
        cols,
        ColumnDef {
            name: name.to_owned(),
            col_type,
            nullable: true,
            auto_increment: false,
            collate: None,
        },
    );
}

/// Adds the columns of the audit trail that are not there.
pub fn add_audit_columns(cols: &mut Vec<ColumnDef>, db_type: &str)
    ensures
        final(cols).deep_view() == with_audit_columns(old(cols).deep_view(), db_type@),
{
    add_audit_column(cols, "created_at", find_time_type(db_type));
    add_audit_column(cols, "updated_at", find_time_type(db_type));
    add_audit_column(cols, "deleted_at", find_time_type(db_type));
    add_audit_column(cols, "created_by_id", find_writer_type(db_type));
    add_audit_column(cols, "updated_by_id", find_writer_type(db_type));
    add_audit_column(cols, "deleted_by_id", find_writer_type(db_type));
}

/// A text without the white space around it; None where nothing is left.
pub open spec fn not_blank(s: Seq<char>) -> Option<Seq<char>> {
    if trim(s).len() == 0 {
        None
    } else {
        Some(trim(s))
    }
}

fn read_not_blank(s: &str) -> (r: Option<String>)
    ensures
        r.deep_view() == not_blank(s@),
{
    let t = trimmed(s);
    if t.as_str().is_empty() {
        None
    } else {
        Some(t)
    }
}

/// Whether the database numbers a column that is the whole primary key.
pub open spec fn numbers_key(c: Column, pk: Seq<Seq<char>>) -> bool {
    pk.len() == 1 && pk.contains(c.name@) && c.auto_increment
}

/// The type of a column as it is configured, in a dialect.
pub open spec fn configured_type(c: Column, dialect: Seq<char>) -> Seq<char> {
    if dialect == "mssql"@ && same_but_case(c.type_data@, "timestamp"@) {
        "datetime"@
    } else {
        c.type_data@
    }
}

/// The type of a column in a dialect: a column that the database numbers has one
/// of its own.
pub open spec fn dialect_type(c: Column, pk: Seq<Seq<char>>, dialect: Seq<char>) -> Seq<char> {
    let t = configured_type(c, dialect);
    if numbers_key(c, pk) {
        if dialect == "postgres"@ {
            "BIGSERIAL"@
        } else if dialect == "mssql"@ {
            if contains(lowercase(t), "identity"@) {
                t
            } else {
                t + " IDENTITY(1,1)"@
            }
        } else if dialect == "sqlite"@ {
            "INTEGER PRIMARY KEY AUTOINCREMENT"@
        } else {
            t
        }
    } else {
        t
    }
}

/// The definition of a column.
pub open spec fn column_def(c: Column, pk: Seq<Seq<char>>, dialect: Seq<char>) -> ColumnDefV {
    ColumnDefV {
        name: c.name@,
        col_type: dialect_type(c, pk, dialect),
        nullable: c.nullable,
        auto_increment: dialect == "mysql"@ && numbers_key(c, pk),
        collate: not_blank(c.collate@),
    }
}

/// The definitions of columns.
pub open spec fn column_defs(columns: Seq<Column>, pk: Seq<Seq<char>>, dialect: Seq<char>) -> Seq<
    ColumnDefV,
> {
    Seq::new(columns.len(), |i: int| column_def(columns[i], pk, dialect))
}

fn key_numbered(c: &Column, pk: &Vec<String>) -> (r: bool)
    ensures
        r == numbers_key(*c, pk.deep_view()),
{
    assert(pk.deep_view().len() == pk@.len());
    pk.len() == 1 && listed(pk, c.name.as_str()) && c.auto_increment
}

fn build_column_def(c: &Column, pk: &Vec<String>, dialect: &str) -> (r: ColumnDef)
    ensures
        r.deep_view() == column_def(*c, pk.deep_view(), dialect@),
{
    let mut ty = if same(dialect, "mssql") && same_ignoring_case(
        c.type_data.as_str(),
        "timestamp",
    ) {
        "datetime".to_owned()
    } else {
        c.type_data.clone()
    };
    let numbered = key_numbered(c, pk);
    if numbered {
        if same(dialect, "postgres") {
            ty = "BIGSERIAL".to_owned();
        } else if same(dialect, "mssql") {
            let low = to_lowercase(ty.as_str());
            if !has_text(low.as_str(), "identity") {
                ty.append(" IDENTITY(1,1)");
            }
        } else if same(dialect, "sqlite") {
            ty = "INTEGER PRIMARY KEY AUTOINCREMENT".to_owned();
        }
    }
    ColumnDef {
        name: c.name.clone(),
        col_type: ty,
        nullable: c.nullable,
        auto_increment: same(dialect, "mysql") && numbered,
        collate: read_not_blank(c.collate.as_str()),
    }
}

fn build_column_defs(columns: &Vec<Column>, pk: &Vec<String>, dialect: &str) -> (r: Vec<ColumnDef>)
    ensures
        r.deep_view() == column_defs(columns@, pk.deep_view(), dialect@),
{
    let ghost all = column_defs(columns@, pk.deep_view(), dialect@);
    let mut out: Vec<ColumnDef> = Vec::new();
    let mut i: usize = 0;
    while i < columns.len()
        invariant
            i <= columns@.len(),
            all == column_defs(columns@, pk.deep_view(), dialect@),
            out.deep_view() == all.take(i as int),
        decreases columns.len() - i,
    {
        push_item(&mut out, build_column_def(&columns[i], pk, dialect));
        i += 1;
        assert(all.take(i as int) =~= all.take(i - 1).push(all[i - 1]));
    }
    assert(all.take(columns@.len() as int) =~= all);
    out
}

// ---------------------------------------------------------------------------
// Constraints
// ---------------------------------------------------------------------------

/// Whether the primary key is declared with its column.
pub open spec fn declares_key_inline(
    columns: Seq<Column>,
    pk: Seq<Seq<char>>,
    dialect: Seq<char>,
) -> bool {
    dialect == "sqlite"@ && exists|i: int|
        0 <= i < columns.len() && numbers_key(#[trigger] columns[i], pk)
}

fn key_inline(columns: &Vec<Column>, pk: &Vec<String>, dialect: &str) -> (r: bool)
    ensures
        r == declares_key_inline(columns@, pk.deep_view(), dialect@),
{
    if !same(dialect, "sqlite") {
        return false;
    }
    let mut i: usize = 0;
    while i < columns.len()
        invariant
            i <= columns@.len(),
            dialect@ == "sqlite"@,
            forall|k: int| 0 <= k < i ==> !numbers_key(#[trigger] columns@[k], pk.deep_view()),
        decreases columns.len() - i,
    {
        if key_numbered(&columns[i], pk) {
            assert(numbers_key(columns@[i as int], pk.deep_view()));
            return true;
        }
        i += 1;
    }
    false
}

/// The name of an index: with that of the table in it.
pub open spec fn index_name(table: Seq<char>, name: Seq<char>) -> Seq<char> {
    if contains(name, table) {
        name
    } else {
        table + "_"@ + name
    }
}

fn write_index_name(table: &str, name: &str) -> (r: String)
    ensures
        r@ == index_name(table@, name@),
{
    if has_text(name, table) {
        name.to_owned()
    } else {
        let mut n = told(table, "_");
        n.append(name);
        n
    }
}

/// Whether an index is declared: it has columns, and is not that of the primary
/// key alone.
pub open spec fn is_declared(ix: Index, pk: Seq<Seq<char>>) -> bool {
    ix.columns.deep_view().len() > 0 && !(pk.len() == 1 && ix.columns.deep_view().len() == 1
        && ix.columns.deep_view()[0] == pk[0])
}

/// The indexes of a table that are declared.
pub open spec fn index_constraints(indexes: Seq<Index>, pk: Seq<Seq<char>>, table: Seq<char>) -> Seq<
    TableConstraintV,
>
    decreases indexes.len(),
{
    if indexes.len() == 0 {
        Seq::empty()
    } else {
        let before = index_constraints(indexes.drop_last(), pk, table);
        let ix = indexes.last();
        if is_declared(ix, pk) {
            before.push(
                TableConstraintV::Index(
                    index_name(table, ix.name@),
                    ix.columns.deep_view(),
                    ix.unique,
                ),
            )
        } else {
            before
        }
    }
}

/// What happens to a row when the row that it refers to goes or changes, by what
/// is configured.
pub open spec fn key_action(s: Seq<char>) -> Option<KeyAction> {
    let t = lowercase(s);
    if t == "cascade"@ {
        Some(KeyAction::Cascade)
    } else if t == "set null"@ {
        Some(KeyAction::SetNull)
    } else if t == "restrict"@ {
        Some(KeyAction::Restrict)
    } else if t == "no action"@ {
        Some(KeyAction::NoAction)
    } else {
        None
    }
}

fn map_action(s: &str) -> (r: Option<KeyAction>)
    ensures
        r == key_action(s@),
{
    let low = to_lowercase(s);
    let t = low.as_str();
    if same(t, "cascade") {
        Some(KeyAction::Cascade)
    } else if same(t, "set null") {
        Some(KeyAction::SetNull)
    } else if same(t, "restrict") {
        Some(KeyAction::Restrict)
    } else if same(t, "no action") {
        Some(KeyAction::NoAction)
    } else {
        None
    }
}

/// The reference of a foreign key.
pub open spec fn key_constraint(fk: ForeignKey, table: Seq<char>) -> TableConstraintV {
    TableConstraintV::ForeignKey(
        "fk_"@ + table + "_"@ + fk.column@ + "_"@ + fk.reference_table@,
        fk.column@,
        fk.reference_table@,
        fk.reference_column@,
        key_action(fk.on_delete@),
        key_action(fk.on_update@),
    )
}

/// The references of a table.
pub open spec fn key_constraints(keys: Seq<ForeignKey>, table: Seq<char>) -> Seq<TableConstraintV> {
    Seq::new(keys.len(), |i: int| key_constraint(keys[i], table))
}

/// All constraints of a table: its primary key, unless that is declared with its
/// column, its indexes and its references.
pub open spec fn constraints_of(data: TableSchema, dialect: Seq<char>) -> Seq<TableConstraintV> {
    let pk = data.primary_key.deep_view();
    let key = if !declares_key_inline(data.columns@, pk, dialect) && pk.len() > 0 {
        seq![TableConstraintV::PrimaryKey(pk)]
    } else {
        Seq::empty()
    };
    key + index_constraints(data.indexes@, pk, data.table@) + key_constraints(
        data.foreign_keys@,
        data.table@,
    )
}

fn push_index_constraints(
    out: &mut Vec<TableConstraint>,
    indexes: &Vec<Index>,
    pk: &Vec<String>,
    table: &str,
)
    ensures
        final(out).deep_view() == old(out).deep_view() + index_constraints(
            indexes@,
            pk.deep_view(),
            table@,
        ),
{
    let ghost start = out.deep_view();
    let ghost pv = pk.deep_view();
    let mut i: usize = 0;
    assert(start + index_constraints(indexes@.take(0), pv, table@) =~= start);
    while i < indexes.len()
        invariant
            i <= indexes@.len(),
            pv == pk.deep_view(),
            out.deep_view() == start + index_constraints(indexes@.take(i as int), pv, table@),
        decreases indexes.len() - i,
    {
        assert(indexes@.take(i + 1).drop_last() =~= indexes@.take(i as int));
        let ix = &indexes[i];
        assert(ix.columns.deep_view().len() == ix.columns@.len());
        assert(pv.len() == pk@.len());
        let alone = pk.len() == 1 && ix.columns.len() == 1 && same(
            ix.columns[0].as_str(),
            pk[0].as_str(),
        );
        if ix.columns.len() > 0 && !alone {
            push_item(
                out,
                TableConstraint::Index(
                    write_index_name(table, ix.name.as_str()),
                    copy_texts(&ix.columns),
                    ix.unique,
                ),
            );
        }
        i += 1;
        assert(out.deep_view() =~= start + index_constraints(
            indexes@.take(i as int),
            pv,
            table@,
        ));
    }
    assert(indexes@.take(indexes@.len() as int) =~= indexes@);
}

fn push_key_constraints(out: &mut Vec<TableConstraint>, keys: &Vec<ForeignKey>, table: &str)
    ensures
        final(out).deep_view() == old(out).deep_view() + key_constraints(keys@, table@),
{
    let ghost start = out.deep_view();
    let ghost all = key_constraints(keys@, table@);
    let mut i: usize = 0;
    assert(start + all.take(0) =~= start);
    while i < keys.len()
        invariant
            i <= keys@.len(),
            all == key_constraints(keys@, table@),
            out.deep_view() == start + all.take(i as int),
        decreases keys.len() - i,
    {
        let fk = &keys[i];
        let mut name = told("fk_", table);
        name.append("_");
        name.append(fk.column.as_str());
        name.append("_");
        name.append(fk.reference_table.as_str());
        push_item(
            out,
            TableConstraint::ForeignKey(
                name,
                fk.column.clone(),
                fk.reference_table.clone(),
                fk.reference_column.clone(),
                map_action(fk.on_delete.as_str()),
                map_action(fk.on_update.as_str()),
            ),
        );
        i += 1;
        assert(start + all.take(i as int) =~= (start + all.take(i - 1)).push(all[i - 1]));
    }
    assert(all.take(keys@.len() as int) =~= all);
}

/// The definition of the table of an entity, in a dialect.
pub open spec fn table_of(data: TableSchema, dialect: Seq<char>) -> CreateTableV {
    CreateTableV {
        name: data.table@,
        columns: with_audit_columns(
            column_defs(data.columns@, data.primary_key.deep_view(), dialect),
            dialect,
        ),
        constraints: constraints_of(data, dialect),
        collate: not_blank(data.collate@),
    }
}

/// The definition of the table of an entity, in a dialect.
pub fn generate_table(dialect: &str, data: &TableSchema) -> (r: CreateTable)
    ensures
        r.deep_view() == table_of(*data, dialect@),
{
    let mut columns = build_column_defs(&data.columns, &data.primary_key, dialect);
    add_audit_columns(&mut columns, dialect);
    let mut constraints: Vec<TableConstraint> = Vec::new();
    assert(constraints.deep_view() =~= Seq::empty());
    assert(data.primary_key.deep_view().len() == data.primary_key@.len());
    if !key_inline(&data.columns, &data.primary_key, dialect) && data.primary_key.len() > 0 {
        push_item(&mut constraints, TableConstraint::PrimaryKey(copy_texts(&data.primary_key)));
        assert(constraints.deep_view() =~= seq![
            TableConstraintV::PrimaryKey(data.primary_key.deep_view()),
        ]);
    }
    push_index_constraints(
        &mut constraints,
        &data.indexes,
        &data.primary_key,
        data.table.as_str(),
    );
    push_key_constraints(&mut constraints, &data.foreign_keys, data.table.as_str());
    CreateTable {
        name: data.table.clone(),
        columns,
        constraints,
        collate: read_not_blank(data.collate.as_str()),
    }
}

// ---------------------------------------------------------------------------
// Laws of tables
// ---------------------------------------------------------------------------

/// Whether no name of a column stands twice.
pub open spec fn names_differ(cols: Seq<ColumnDefV>) -> bool {
    forall|i: int, j: int|
        0 <= i < j < cols.len() ==> (#[trigger] cols[i]).name != (#[trigger] cols[j]).name
}

proof fn lemma_audit_column(cols: Seq<ColumnDefV>, name: Seq<char>, col_type: Seq<char>)
    ensures
        ({
            let out = with_audit_column(cols, name, col_type);
            &&& column_names(out).contains(name)
            &&& names_differ(cols) ==> names_differ(out)
            &&& cols.len() <= out.len() && out.take(cols.len() as int) == cols
            &&& forall|n: Seq<char>|
                #[trigger] column_names(cols).contains(n) ==> column_names(out).contains(n)
        }),
{
    let out = with_audit_column(cols, name, col_type);
    if column_names(cols).contains(name) {
        assert(out.take(cols.len() as int) =~= cols);
    } else {
        assert(out.take(cols.len() as int) =~= cols);
        assert(column_names(out)[cols.len() as int] == name);
        assert forall|n: Seq<char>| #[trigger] column_names(cols).contains(n) implies column_names(
            out,
        ).contains(n) by {
            let i = choose|i: int| 0 <= i < column_names(cols).len() && column_names(cols)[i] == n;
            assert(column_names(out)[i] == n);
        }
        if names_differ(cols) {
            assert forall|i: int, j: int| 0 <= i < j < out.len() implies (#[trigger] out[i]).name
                != (#[trigger] out[j]).name by {
                if j == cols.len() {
                    assert(column_names(cols)[i] == out[i].name);
                }
            }
        }
    }
}

/// A table has every column of the audit trail, and its own columns stand first,
/// unchanged. Where no name stands twice among its own columns, none does among
/// all.
pub proof fn law_tables_have_an_audit_trail(cols: Seq<ColumnDefV>, dialect: Seq<char>)
    ensures
        ({
            let out = with_audit_columns(cols, dialect);
            let names = column_names(out);
            &&& names.contains("created_at"@)
            &&& names.contains("updated_at"@)
            &&& names.contains("deleted_at"@)
            &&& names.contains("created_by_id"@)
            &&& names.contains("updated_by_id"@)
            &&& names.contains("deleted_by_id"@)
            &&& cols.len() <= out.len() && out.take(cols.len() as int) =~= cols
            &&& names_differ(cols) ==> names_differ(out)
        }),
{
    let t = time_type(dialect);
    let w = writer_type(dialect);
    let c1 = with_audit_column(cols, "created_at"@, t);
    let c2 = with_audit_column(c1, "updated_at"@, t);
    let c3 = with_audit_column(c2, "deleted_at"@, t);
    let c4 = with_audit_column(c3, "created_by_id"@, w);
    let c5 = with_audit_column(c4, "updated_by_id"@, w);
    let c6 = with_audit_column(c5, "deleted_by_id"@, w);
    lemma_audit_column(cols, "created_at"@, t);
    lemma_audit_column(c1, "updated_at"@, t);
    lemma_audit_column(c2, "deleted_at"@, t);
    lemma_audit_column(c3, "created_by_id"@, w);
    lemma_audit_column(c4, "updated_by_id"@, w);
    lemma_audit_column(c5, "deleted_by_id"@, w);
    assert forall|i: int| 0 <= i < cols.len() implies c6[i] == cols[i] by {
        assert(c1.take(cols.len() as int)[i] == cols[i]);
        assert(c2.take(c1.len() as int)[i] == c1[i]);
        assert(c3.take(c2.len() as int)[i] == c2[i]);
        assert(c4.take(c3.len() as int)[i] == c3[i]);
        assert(c5.take(c4.len() as int)[i] == c4[i]);
        assert(c6.take(c5.len() as int)[i] == c5[i]);
    }
}

/// Whether a constraint is a primary key.
pub open spec fn is_key(c: TableConstraintV) -> bool {
    c is PrimaryKey
}

proof fn lemma_indexes_are_no_keys(indexes: Seq<Index>, pk: Seq<Seq<char>>, table: Seq<char>)
    ensures
        forall|i: int|
            0 <= i < index_constraints(indexes, pk, table).len() ==> !is_key(
                #[trigger] index_constraints(indexes, pk, table)[i],
            ),
    decreases indexes.len(),
{
    if indexes.len() > 0 {
        lemma_indexes_are_no_keys(indexes.drop_last(), pk, table);
        let before = index_constraints(indexes.drop_last(), pk, table);
        let all = index_constraints(indexes, pk, table);
        assert forall|i: int| 0 <= i < all.len() implies !is_key(#[trigger] all[i]) by {
            if i < before.len() {
                assert(all[i] == before[i]);
            }
        }
    }
}

/// The primary key of a table is declared once: as a constraint, or with its
/// column.
pub proof fn law_keys_are_declared_once(data: TableSchema, dialect: Seq<char>, i: int)
    requires
        0 <= i < constraints_of(data, dialect).len(),
        is_key(constraints_of(data, dialect)[i]),
    ensures
        i == 0,
        !declares_key_inline(data.columns@, data.primary_key.deep_view(), dialect),
{
    let pk = data.primary_key.deep_view();
    lemma_indexes_are_no_keys(data.indexes@, pk, data.table@);
    let ixs = index_constraints(data.indexes@, pk, data.table@);
    let fks = key_constraints(data.foreign_keys@, data.table@);
    let key = if !declares_key_inline(data.columns@, pk, dialect) && pk.len() > 0 {
        seq![TableConstraintV::PrimaryKey(pk)]
    } else {
        Seq::empty()
    };
    let all = constraints_of(data, dialect);
    if i >= key.len() {
        if i < key.len() + ixs.len() {
            assert(all[i] == ixs[i - key.len()]);
        } else {
            assert(all[i] == fks[i - key.len() - ixs.len()]);
        }
    }
}

// ---------------------------------------------------------------------------
// Indexes of documents
// ---------------------------------------------------------------------------

/// The columns of an index, in ascending order.
pub open spec fn ascending(columns: Seq<Seq<char>>) -> Fields
    decreases columns.len(),
{
    if columns.len() == 0 {
        Seq::empty()
    } else {
        with_field(ascending(columns.drop_last()), columns.last(), JsonV::Int(1))
    }
}

/// The command that creates an index of a collection.
pub open spec fn index_command(table: Seq<char>, key: Fields, name: Seq<char>, unique: bool) -> JsonV {
    JsonV::Object(
        seq![
            ("createIndexes"@, JsonV::Str(table)),
            (
                "indexes"@,
                JsonV::Array(
                    seq![
                        JsonV::Object(
                            seq![
                                ("key"@, JsonV::Object(key)),
                                ("name"@, JsonV::Str(name)),
                                ("unique"@, JsonV::Bool(unique)),
                            ],
                        ),
                    ],
                ),
            ),
        ],
    )
}

fn build_ascending(columns: &Vec<String>) -> (r: Vec<(String, Json)>)
    ensures
        r.deep_view() == ascending(columns.deep_view()),
{
    let ghost cv = columns.deep_view();
    let mut out: Vec<(String, Json)> = Vec::new();
    assert(out.deep_view() =~= Seq::empty());
    let mut i: usize = 0;
    while i < columns.len()
        invariant
            i <= columns@.len(),
            cv == columns.deep_view(),
            out.deep_view() == ascending(cv.take(i as int)),
        decreases columns.len() - i,
    {
        assert(cv.take(i + 1).drop_last() =~= cv.take(i as int));
        assert(cv[i as int] == columns@[i as int]@);
        set_in(&mut out, columns[i].as_str(), Json::Int(1));
        i += 1;
    }
    assert(cv.take(cv.len() as int) =~= cv);
    out
}

fn build_index_command(table: &str, key: Vec<(String, Json)>, name: &str, unique: bool) -> (r: Json)
    ensures
        r.deep_view() == index_command(table@, key.deep_view(), name@, unique),
{
    broadcast use {lemma_object_view, lemma_array_view};

    let ghost kv = key.deep_view();
    let mut index: Vec<(String, Json)> = Vec::new();
    push_item(&mut index, ("key".to_owned(), Json::Object(key)));
    push_item(&mut index, ("name".to_owned(), Json::Str(name.to_owned())));
    push_item(&mut index, ("unique".to_owned(), Json::Bool(unique)));
    let ghost iv = seq![
        ("key"@, JsonV::Object(kv)),
        ("name"@, JsonV::Str(name@)),
        ("unique"@, JsonV::Bool(unique)),
    ];
    assert(index.deep_view() =~= iv);
    let mut indexes: Vec<Json> = Vec::new();
    push_item(&mut indexes, Json::Object(index));
    assert(indexes.deep_view() =~= seq![JsonV::Object(iv)]);
    let mut command: Vec<(String, Json)> = Vec::new();
    push_item(&mut command, ("createIndexes".to_owned(), Json::Str(table.to_owned())));
    push_item(&mut command, ("indexes".to_owned(), Json::Array(indexes)));
    assert(command.deep_view() =~= seq![
        ("createIndexes"@, JsonV::Str(table@)),
        ("indexes"@, JsonV::Array(seq![JsonV::Object(iv)])),
    ]);
    Json::Object(command)
}

/// The commands for the configured indexes of a collection.
pub open spec fn index_commands(indexes: Seq<Index>, table: Seq<char>) -> Seq<Seq<char>>
    decreases indexes.len(),
{
    if indexes.len() == 0 {
        Seq::empty()
    } else {
        let before = index_commands(indexes.drop_last(), table);
        let ix = indexes.last();
        if ix.columns.deep_view().len() == 0 {
            before
        } else {
            before.push(
                json_text(
                    index_command(
                        table,
                        ascending(ix.columns.deep_view()),
                        index_name(table, ix.name@),
                        ix.unique,
                    ),
                ),
            )
        }
    }
}

/// Whether an index is on a column alone.
pub open spec fn is_indexed(indexes: Seq<Index>, column: Seq<char>) -> bool {
    exists|i: int| 0 <= i < indexes.len() && covers(#[trigger] indexes[i], column)
}

/// Whether this index is on a column alone.
pub open spec fn covers(ix: Index, column: Seq<char>) -> bool {
    ix.columns.deep_view().len() == 1 && ix.columns.deep_view()[0] == column
}

/// The commands for the columns of a collection that refer to others and have no
/// index.
pub open spec fn reference_commands(
    keys: Seq<ForeignKey>,
    indexes: Seq<Index>,
    table: Seq<char>,
) -> Seq<Seq<char>>
    decreases keys.len(),
{
    if keys.len() == 0 {
        Seq::empty()
    } else {
        let before = reference_commands(keys.drop_last(), indexes, table);
        let fk = keys.last();
        if is_indexed(indexes, fk.column@) {
            before
        } else {
            before.push(
                json_text(
                    index_command(
                        table,
                        ascending(seq![fk.column@]),
                        "idx_fk_"@ + table + "_"@ + fk.column@,
                        false,
                    ),
                ),
            )
        }
    }
}

/// The commands that create the indexes of a collection.
pub open spec fn mongo_commands(data: TableSchema) -> Seq<Seq<char>> {
    index_commands(data.indexes@, data.table@) + reference_commands(
        data.foreign_keys@,
        data.indexes@,
        data.table@,
    )
}

fn indexed(indexes: &Vec<Index>, column: &str) -> (r: bool)
    ensures
        r == is_indexed(indexes@, column@),
{
    let mut i: usize = 0;
    while i < indexes.len()
        invariant
            i <= indexes@.len(),
            forall|k: int| 0 <= k < i ==> !covers(#[trigger] indexes@[k], column@),
        decreases indexes.len() - i,
    {
        let ix = &indexes[i];
        assert(ix.columns.deep_view().len() == ix.columns@.len());
        if ix.columns.len() == 1 && same(ix.columns[0].as_str(), column) {
            assert(covers(indexes@[i as int], column@));
            return true;
        }
        i += 1;
    }
    false
}

fn push_index_commands(out: &mut Vec<String>, indexes: &Vec<Index>, table: &str)
    ensures
        final(out).deep_view() == old(out).deep_view() + index_commands(indexes@, table@),
{
    let ghost start = out.deep_view();
    let mut i: usize = 0;
    assert(start + index_commands(indexes@.take(0), table@) =~= start);
    while i < indexes.len()
        invariant
            i <= indexes@.len(),
            out.deep_view() == start + index_commands(indexes@.take(i as int), table@),
        decreases indexes.len() - i,
    {
        assert(indexes@.take(i + 1).drop_last() =~= indexes@.take(i as int));
        let ix = &indexes[i];
        assert(ix.columns.deep_view().len() == ix.columns@.len());
        if ix.columns.len() > 0 {
            let key = build_ascending(&ix.columns);
            let name = write_index_name(table, ix.name.as_str());
            let command = build_index_command(table, key, name.as_str(), ix.unique);
            push_item(out, command.text());
        }
        i += 1;
        assert(out.deep_view() =~= start + index_commands(indexes@.take(i as int), table@));
    }
    assert(indexes@.take(indexes@.len() as int) =~= indexes@);
}

fn push_reference_commands(
    out: &mut Vec<String>,
    keys: &Vec<ForeignKey>,
    indexes: &Vec<Index>,
    table: &str,
)
    ensures
        final(out).deep_view() == old(out).deep_view() + reference_commands(
            keys@,
            indexes@,
            table@,
        ),
{
    let ghost start = out.deep_view();
    let mut i: usize = 0;
    assert(start + reference_commands(keys@.take(0), indexes@, table@) =~= start);
    while i < keys.len()
        invariant
            i <= keys@.len(),
            out.deep_view() == start + reference_commands(
                keys@.take(i as int),
                indexes@,
                table@,
            ),
        decreases keys.len() - i,
    {
        assert(keys@.take(i + 1).drop_last() =~= keys@.take(i as int));
        let fk = &keys[i];
        if !indexed(indexes, fk.column.as_str()) {
            let mut columns: Vec<String> = Vec::new();
            push_item(&mut columns, fk.column.clone());
            assert(columns.deep_view() =~= seq![fk.column@]);
            let key = build_ascending(&columns);
            let mut name = told("idx_fk_", table);
            name.append("_");
            name.append(fk.column.as_str());
            let command = build_index_command(table, key, name.as_str(), false);
            push_item(out, command.text());
        }
        i += 1;
        assert(out.deep_view() =~= start + reference_commands(
            keys@.take(i as int),
            indexes@,
            table@,
        ));
    }
    assert(keys@.take(keys@.len() as int) =~= keys@);
}

/// The commands that create the indexes of a collection.
pub fn generate_mongo_indexes(data: &TableSchema) -> (r: Vec<String>)
    ensures
        r.deep_view() == mongo_commands(*data),
{
    let mut out: Vec<String> = Vec::new();
    let ghost none = out.deep_view();
    assert(none =~= Seq::empty());
    push_index_commands(&mut out, &data.indexes, data.table.as_str());
    push_reference_commands(&mut out, &data.foreign_keys, &data.indexes, data.table.as_str());
    assert(out.deep_view() =~= mongo_commands(*data));
    out
}

// ---------------------------------------------------------------------------
// Carrying it out
// ---------------------------------------------------------------------------

/// What is carried out, in one transaction, to create a table.
#[derive(Debug)]
pub struct TableWork {
    pub table: String,
    /// The statements: for a database, that of the table and those of its
    /// indexes.
    pub statements: Vec<String>,
    /// Whether they are commands for a store of documents.
    pub mongodb: bool,
}

/// Whether a failure to create an index counts for nothing.
pub open spec fn is_tolerated(mongodb: bool, e: Seq<char>) -> bool {
    if mongodb {
        contains(e, "Index with name"@) && contains(e, "already exists"@)
    } else {
        contains(e, "Duplicate key name"@) || contains(e, "already exists"@) || contains(
            e,
            "doesn't exist"@,
        ) || contains(e, "Key column"@)
    }
}

/// What is said once the `k`-th statement failed, behind what was said before. A
/// failure of the table itself always counts.
pub open spec fn with_failure(q: TableWork, k: int, said: Seq<char>, e: Seq<char>) -> Seq<char> {
    if !q.mongodb && k == 0 {
        "Failed to create table "@ + q.table@ + " with error : "@ + e
    } else if is_tolerated(q.mongodb, e) {
        said
    } else if q.mongodb {
        said + "\nFailed to create index: "@ + e
    } else {
        said + " \nFailed to create index "@ + q.table@ + " with error : "@ + e
    }
}

fn tolerated(mongodb: bool, e: &str) -> (r: bool)
    ensures
        r == is_tolerated(mongodb, e@),
{
    if mongodb {
        has_text(e, "Index with name") && has_text(e, "already exists")
    } else {
        has_text(e, "Duplicate key name") || has_text(e, "already exists") || has_text(
            e,
            "doesn't exist",
        ) || has_text(e, "Key column")
    }
}

fn add_failure(q: &TableWork, k: usize, said: &mut String, e: &str)
    ensures
        final(said)@ == with_failure(*q, k as int, old(said)@, e@),
{
    if !q.mongodb && k == 0 {
        let mut m = told("Failed to create table ", q.table.as_str());
        m.append(" with error : ");
        m.append(e);
        *said = m;
    } else if !tolerated(q.mongodb, e) {
        if q.mongodb {
            said.append("\nFailed to create index: ");
            said.append(e);
        } else {
            said.append(" \nFailed to create index ");
            said.append(q.table.as_str());
            said.append(" with error : ");
            said.append(e);
        }
    }
}

/// Where the work stands.
#[derive(Debug, PartialEq, Eq, Clone, Copy, Structural)]
pub enum TableStage {
    Start,
    Beginning,
    /// This statement is run.
    Running(usize),
    Committing,
    Ended,
}

/// Work under way, with what was said of failures.
#[derive(Debug)]
pub struct TableBuild {
    pub work: TableWork,
    pub stage: TableStage,
    pub said: String,
}

/// What follows from a step: where the work stands, what was said, and what is
/// asked for.
pub type TableTurn = (TableStage, Seq<char>, WorkV);

/// The `k`-th statement is run; once all are, the work is committed, or rolled
/// back where one failed.
pub open spec fn table_statement(q: TableWork, said: Seq<char>, k: int) -> TableTurn {
    if 0 <= k < q.statements.deep_view().len() {
        (
            TableStage::Running(k as usize),
            said,
            WorkV::Ask(ActionV::RunSql(q.statements.deep_view()[k], Seq::empty())),
        )
    } else if said.len() == 0 {
        (TableStage::Committing, said, WorkV::Ask(ActionV::Commit))
    } else {
        (TableStage::Ended, said, WorkV::Abort(said))
    }
}

/// What is said where no transaction can be begun.
pub open spec fn no_transaction(mongodb: bool, e: Seq<char>) -> Seq<char> {
    if mongodb {
        "Error starting tx: "@ + e
    } else {
        "Error starting transaction: "@ + e
    }
}

/// The next step of the work: every statement is tried, whatever came of those
/// before it.
pub open spec fn table_next(q: TableWork, stage: TableStage, said: Seq<char>, o: Outcome) -> TableTurn {
    match stage {
        TableStage::Start => (TableStage::Beginning, said, WorkV::Ask(ActionV::Begin)),
        TableStage::Beginning => match failure_in(o) {
            Some(e) => (TableStage::Ended, said, WorkV::Fail(no_transaction(q.mongodb, e))),
            None => table_statement(q, said, 0),
        },
        TableStage::Running(k) => match failure_in(o) {
            Some(e) => table_statement(q, with_failure(q, k as int, said, e), k + 1),
            None => table_statement(q, said, k + 1),
        },
        TableStage::Committing => (
            TableStage::Ended,
            said,
            WorkV::Finish("success"@, 1, JsonV::Null),
        ),
        TableStage::Ended => (TableStage::Ended, said, WorkV::Ask(ActionV::Nothing)),
    }
}

/// Work that has not begun.
pub fn execute_generate_table(work: TableWork) -> (r: TableBuild)
    ensures
        r.work == work,
        r.stage == TableStage::Start,
        r.said@ == Seq::<char>::empty(),
{
    TableBuild { work, stage: TableStage::Start, said: String::new() }
}

impl TableBuild {
    fn statement(&mut self, k: usize) -> (r: Work)
        ensures
            final(self).work == old(self).work,
            (final(self).stage, final(self).said@, r.deep_view()) == table_statement(
                old(self).work,
                old(self).said@,
                k as int,
            ),
    {
        assert(self.work.statements.deep_view().len() == self.work.statements@.len());
        if k < self.work.statements.len() {
            assert(self.work.statements.deep_view()[k as int]
                == self.work.statements@[k as int]@);
            let none: Vec<DbParam> = Vec::new();
            assert(none.deep_view() =~= Seq::empty());
            let sql = self.work.statements[k].clone();
            self.stage = TableStage::Running(k);
            Work::Ask(Action::RunSql(sql, none))
        } else if self.said.as_str().is_empty() {
            self.stage = TableStage::Committing;
            Work::Ask(Action::Commit)
        } else {
            self.stage = TableStage::Ended;
            Work::Abort(self.said.clone())
        }
    }

    /// Takes the next step of the work, with what came of the last one.
    pub fn step(&mut self, outcome: Outcome) -> (r: Work)
        ensures
            final(self).work == old(self).work,
            (final(self).stage, final(self).said@, r.deep_view()) == table_next(
                old(self).work,
                old(self).stage,
                old(self).said@,
                outcome,
            ),
    {
        match self.stage {
            TableStage::Start => {
                self.stage = TableStage::Beginning;
                Work::Ask(Action::Begin)
            },
            TableStage::Beginning => match failure(&outcome) {
                Some(e) => {
                    self.stage = TableStage::Ended;
                    if self.work.mongodb {
                        Work::Fail(told("Error starting tx: ", e))
                    } else {
                        Work::Fail(told("Error starting transaction: ", e))
                    }
                },
                None => self.statement(0),
            },
            TableStage::Running(k) => {
                match failure(&outcome) {
                    Some(e) => {
                        add_failure(&self.work, k, &mut self.said, e);
                    },
                    None => {},
                }
                assert(self.work.statements.deep_view().len() == self.work.statements@.len());
                if k < self.work.statements.len() {
                    self.statement(k + 1)
                } else {
                    self.statement(k)
                }
            },
            TableStage::Committing => {
                self.stage = TableStage::Ended;
                Work::Finish("success".to_owned(), 1, Json::Null)
            },
            TableStage::Ended => Work::Ask(Action::Nothing),
        }
    }

    /// Whether the work is over.
    pub fn ended(&self) -> (r: bool)
        ensures
            r == (self.stage == TableStage::Ended),
    {
        match self.stage {
            TableStage::Ended => true,
            _ => false,
        }
    }
}

/// A table counts as created only where nothing was said of failures, and the
/// commit was tried; else the transaction is rolled back. The failure of the
/// table itself is never passed over.
pub proof fn law_tables_are_created_wholly(
    q: TableWork,
    stage: TableStage,
    said: Seq<char>,
    o: Outcome,
)
    ensures
        ({
            let (s, after, w) = table_next(q, stage, said, o);
            &&& w is Finish ==> stage == TableStage::Committing
            &&& s == TableStage::Committing ==> after.len() == 0
            &&& w is Abort ==> stage is Running || stage == TableStage::Beginning
            &&& w is Fail ==> stage == TableStage::Beginning
            &&& stage == TableStage::Running(0) && !q.mongodb && failure_in(o) is Some ==> after.len()
                > 0
            &&& w is Ask ==> !answers(w->Ask_0)
        }),
{
    reveal_strlit("Failed to create table ");
}

// ---------------------------------------------------------------------------
// The request
// ---------------------------------------------------------------------------

/// A request to create the table of an entity.
#[derive(Debug)]
pub struct TableRequest {
    pub route: String,
    /// Whether the route is open to everyone.
    pub is_public: bool,
    /// Whether routes that are not open ask for a token.
    pub require_auth: bool,
    pub schema: TableSchema,
    pub db: DbType,
    /// The collation of tables for which none is configured.
    pub default_collate: String,
}

/// The collation of the table: the usual one where none is configured and the
/// database has them.
pub open spec fn collation(q: TableRequest) -> Seq<char> {
    if trim(q.schema.collate@).len() == 0 && q.db == DbType::Mysql {
        q.default_collate@
    } else {
        q.schema.collate@
    }
}

/// The definition of the table.
pub open spec fn requested_table(q: TableRequest) -> CreateTableV {
    CreateTableV { collate: not_blank(collation(q)), ..table_of(q.schema, db_name(q.db)) }
}

/// The definition of the table.
pub fn build_requested_table(q: &TableRequest) -> (r: CreateTable)
    ensures
        r.deep_view() == requested_table(*q),
{
    let mut t = generate_table(name_of_db(q.db), &q.schema);
    let blank = trimmed(q.schema.collate.as_str());
    t.collate = if blank.as_str().is_empty() && q.db == DbType::Mysql {
        read_not_blank(q.default_collate.as_str())
    } else {
        read_not_blank(q.schema.collate.as_str())
    };
    t
}

/// Where the request stands.
#[derive(Debug, PartialEq, Eq, Clone, Copy, Structural)]
pub enum CreationStage {
    Start,
    Token,
    Access,
    Compiling,
    Working,
    Ended,
}

/// A request under way, with the work that is carried out for it.
#[derive(Debug)]
pub struct TableCreation {
    pub request: TableRequest,
    pub stage: CreationStage,
    pub build: TableBuild,
}

/// What a request remembers: the statements, where the work stands, and what was
/// said.
pub struct CreationMemoV {
    pub statements: Seq<Seq<char>>,
    pub work: TableStage,
    pub said: Seq<char>,
}

/// What follows from a step: where the request stands, what it remembers and
/// what it asks for.
pub type CreationTurn = (CreationStage, CreationMemoV, ActionV);

/// The request is refused.
pub open spec fn creation_fails(m: CreationMemoV, status: u16, message: Seq<char>) -> CreationTurn {
    (CreationStage::Ended, m, ActionV::Answer(refused(status, message)))
}

/// Whether the request needs a token.
pub open spec fn creation_guarded(q: TableRequest) -> bool {
    q.require_auth && !q.is_public
}

/// The definition is compiled; commands for a store of documents are carried out
/// at once.
pub open spec fn creation_admitted(q: TableRequest, m: CreationMemoV) -> CreationTurn {
    if q.schema.table@.len() == 0 {
        creation_fails(m, 424, missing_entity(q.route@))
    } else if q.db == DbType::Mongodb {
        (
            CreationStage::Working,
            CreationMemoV {
                statements: mongo_commands(q.schema),
                work: TableStage::Beginning,
                ..m
            },
            ActionV::Begin,
        )
    } else {
        (CreationStage::Compiling, m, ActionV::CompileTable(requested_table(q)))
    }
}

/// The statements that were compiled.
pub open spec fn compiled_in(o: Outcome) -> Seq<Seq<char>> {
    match o {
        Outcome::Texts(ts) => ts.deep_view(),
        _ => Seq::empty(),
    }
}

/// What follows from a step of the work.
pub open spec fn creation_works(q: TableRequest, m: CreationMemoV, w: WorkV) -> CreationTurn {
    match w {
        WorkV::Ask(a) => (
            if m.work == TableStage::Ended {
                CreationStage::Ended
            } else {
                CreationStage::Working
            },
            m,
            a,
        ),
        WorkV::Fail(e) => creation_fails(m, 500, e),
        WorkV::Abort(e) => (CreationStage::Ended, m, ActionV::Abort(refused(500, e))),
        WorkV::Abandon(e) => (CreationStage::Ended, m, ActionV::Abandon(refused(500, e))),
        WorkV::Finish(_, _, _) => (
            CreationStage::Ended,
            m,
            ActionV::Answer(
                succeeded(
                    if q.db == DbType::Mongodb {
                        "Table (Indexes) created (MongoDB)"@
                    } else {
                        "Table created"@
                    },
                    1,
                    JsonV::Null,
                ),
            ),
        ),
    }
}

/// The next step of a request, whose work is `work`.
pub open spec fn creation_next(
    q: TableRequest,
    work: TableWork,
    stage: CreationStage,
    m: CreationMemoV,
    o: Outcome,
) -> CreationTurn {
    match stage {
        CreationStage::Start => if creation_guarded(q) {
            (CreationStage::Token, m, ActionV::VerifyToken)
        } else {
            creation_admitted(q, m)
        },
        CreationStage::Token => match o {
            Outcome::Identified(_) => (CreationStage::Access, m, ActionV::CheckRequest),
            _ => creation_fails(m, 401, "Invalid token"@),
        },
        CreationStage::Access => match failure_in(o) {
            Some(e) => creation_fails(m, 401, "Unauthorized: "@ + e),
            None => creation_admitted(q, m),
        },
        CreationStage::Compiling => (
            CreationStage::Working,
            CreationMemoV { statements: compiled_in(o), work: TableStage::Beginning, ..m },
            ActionV::Begin,
        ),
        CreationStage::Working => {
            let (s, said, w) = table_next(work, m.work, m.said, o);
            creation_works(q, CreationMemoV { work: s, said, ..m }, w)
        },
        CreationStage::Ended => (CreationStage::Ended, m, ActionV::Nothing),
    }
}

/// A request that has not begun.
pub fn create_table(request: TableRequest) -> (r: TableCreation)
    ensures
        r.request == request,
        r.stage == CreationStage::Start,
        r.memo() == (CreationMemoV {
            statements: Seq::empty(),
            work: TableStage::Start,
            said: Seq::empty(),
        }),
        r.build.work.table@ == request.schema.table@,
        r.build.work.mongodb == (request.db == DbType::Mongodb),
{
    let statements: Vec<String> = Vec::new();
    assert(statements.deep_view() =~= Seq::empty());
    let work = TableWork {
        table: request.schema.table.clone(),
        statements,
        mongodb: request.db == DbType::Mongodb,
    };
    TableCreation {
        request,
        stage: CreationStage::Start,
        build: execute_generate_table(work),
    }
}

impl TableCreation {
    /// What the request remembers.
    pub open spec fn memo(&self) -> CreationMemoV {
        CreationMemoV {
            statements: self.build.work.statements.deep_view(),
            work: self.build.stage,
            said: self.build.said@,
        }
    }

    /// Where the request stands, what it remembers, and what it asks for.
    pub open spec fn turn(&self, a: Action) -> CreationTurn {
        (self.stage, self.memo(), a.deep_view())
    }

    /// Whether the request and what its work is about are as they were.
    pub open spec fn is_same(&self, other: TableCreation) -> bool {
        &&& self.request == other.request
        &&& self.build.work.table == other.build.work.table
        &&& self.build.work.mongodb == other.build.work.mongodb
    }

    fn fail(&mut self, status: u16, message: String) -> (r: Action)
        ensures
            final(self).is_same(*old(self)),
            final(self).turn(r) == creation_fails(old(self).memo(), status, message@),
    {
        self.stage = CreationStage::Ended;
        Action::Answer(refuse(status, message))
    }

    fn admitted(&mut self) -> (r: Action)
        ensures
            final(self).is_same(*old(self)),
            final(self).turn(r) == creation_admitted(old(self).request, old(self).memo()),
    {
        if self.request.schema.table.as_str().is_empty() {
            let m = say_missing_entity(self.request.route.as_str());
            self.fail(424, m)
        } else if self.request.db == DbType::Mongodb {
            self.build.work.statements = generate_mongo_indexes(&self.request.schema);
            self.build.stage = TableStage::Beginning;
            self.stage = CreationStage::Working;
            Action::Begin
        } else {
            let t = build_requested_table(&self.request);
            self.stage = CreationStage::Compiling;
            Action::CompileTable(t)
        }
    }

    fn works(&mut self, w: Work) -> (r: Action)
        ensures
            final(self).is_same(*old(self)),
            final(self).turn(r) == creation_works(
                old(self).request,
                old(self).memo(),
                w.deep_view(),
            ),
    {
        match w {
            Work::Ask(a) => {
                self.stage = if self.build.ended() {
                    CreationStage::Ended
                } else {
                    CreationStage::Working
                };
                a
            },
            Work::Fail(e) => self.fail(500, e),
            Work::Abort(e) => {
                self.stage = CreationStage::Ended;
                Action::Abort(refuse(500, e))
            },
            Work::Abandon(e) => {
                self.stage = CreationStage::Ended;
                Action::Abandon(refuse(500, e))
            },
            Work::Finish(_, _, _) => {
                self.stage = CreationStage::Ended;
                if self.request.db == DbType::Mongodb {
                    Action::Answer(succeed("Table (Indexes) created (MongoDB)", 1, Json::Null))
                } else {
                    Action::Answer(succeed("Table created", 1, Json::Null))
                }
            },
        }
    }

    /// Takes the next step of the request, with what came of the last one.
    pub fn step(&mut self, outcome: Outcome) -> (r: Action)
        ensures
            final(self).is_same(*old(self)),
            (final(self).stage, final(self).memo(), r.deep_view()) == creation_next(
                old(self).request,
                old(self).build.work,
                old(self).stage,
                old(self).memo(),
                outcome,
            ),
    {
        match self.stage {
            CreationStage::Start => {
                if self.request.require_auth && !self.request.is_public {
                    self.stage = CreationStage::Token;
                    Action::VerifyToken
                } else {
                    self.admitted()
                }
            },
            CreationStage::Token => match outcome {
                Outcome::Identified(_) => {
                    self.stage = CreationStage::Access;
                    Action::CheckRequest
                },
                _ => self.fail(401, "Invalid token".to_owned()),
            },
            CreationStage::Access => match failure(&outcome) {
                Some(e) => self.fail(401, told("Unauthorized: ", e)),
                None => self.admitted(),
            },
            CreationStage::Compiling => {
                let statements: Vec<String> = match outcome {
                    Outcome::Texts(ts) => ts,
                    _ => {
                        let none: Vec<String> = Vec::new();
                        assert(none.deep_view() =~= Seq::empty());
                        none
                    },
                };
                self.build.work.statements = statements;
                self.build.stage = TableStage::Beginning;
                self.stage = CreationStage::Working;
                Action::Begin
            },
            CreationStage::Working => {
                let w = self.build.step(outcome);
                self.works(w)
            },
            CreationStage::Ended => Action::Nothing,
        }
    }
}

/// A table is created for a request that needs a token only once access was
/// granted: what leads from before the check of access to behind it is a check
/// that did not fail.
pub proof fn law_creation_is_guarded(
    q: TableRequest,
    work: TableWork,
    stage: CreationStage,
    m: CreationMemoV,
    o: Outcome,
)
    requires
        creation_guarded(q),
    ensures
        ({
            let (s, _, a) = creation_next(q, work, stage, m, o);
            let before = stage == CreationStage::Start || stage == CreationStage::Token || stage
                == CreationStage::Access;
            &&& before && (s == CreationStage::Compiling || s == CreationStage::Working) ==> stage
                == CreationStage::Access && failure_in(o) is None
            &&& before && touches_data(a) ==> stage == CreationStage::Access && failure_in(o)
                is None
            &&& s == CreationStage::Access ==> checks_access(a)
            &&& s == CreationStage::Access ==> stage == CreationStage::Token
        }),
{
}

/// A table is created as it is configured: under its name, each configured column in
/// its place, with its name and whether it may be null, and with its type, but for a
/// key that the database numbers.
pub proof fn law_tables_have_their_columns(data: TableSchema, dialect: Seq<char>, i: int)
    requires
        0 <= i < data.columns@.len(),
    ensures
        ({
            let t = table_of(data, dialect);
            let c = data.columns@[i];
            &&& t.name == data.table@
            &&& i < t.columns.len()
            &&& t.columns[i].name == c.name@
            &&& t.columns[i].nullable == c.nullable
            &&& !c.auto_increment && dialect != "mssql"@ ==> t.columns[i].col_type == c.type_data@
                && !t.columns[i].auto_increment
        }),
{
    let own = column_defs(data.columns@, data.primary_key.deep_view(), dialect);
    law_tables_have_an_audit_trail(own, dialect);
    assert(own[i] == column_def(data.columns@[i], data.primary_key.deep_view(), dialect));
}

proof fn lemma_index_is_declared(indexes: Seq<Index>, pk: Seq<Seq<char>>, table: Seq<char>, i: int)
    requires
        0 <= i < indexes.len(),
        is_declared(indexes[i], pk),
    ensures
        exists|k: int|
            {
                &&& 0 <= k < index_constraints(indexes, pk, table).len()
                &&& declares_index(#[trigger] index_constraints(indexes, pk, table)[k], indexes[i])
            },
    decreases indexes.len(),
{
    let before = index_constraints(indexes.drop_last(), pk, table);
    let all = index_constraints(indexes, pk, table);
    if i < indexes.len() - 1 {
        lemma_index_is_declared(indexes.drop_last(), pk, table, i);
        let k = choose|k: int|
            {
                &&& 0 <= k < before.len()
                &&& declares_index(
                    #[trigger] index_constraints(indexes.drop_last(), pk, table)[k],
                    indexes[i],
                )
            };
        assert(all[k] == before[k]);
        assert(declares_index(all[k], indexes[i]));
    } else {
        assert(declares_index(all[all.len() - 1], indexes[i]));
    }
}

/// Whether a constraint is that of an index: on its columns, and unique where it is.
pub open spec fn declares_index(c: TableConstraintV, ix: Index) -> bool {
    match c {
        TableConstraintV::Index(_, columns, unique) => columns == ix.columns.deep_view() && unique
            == ix.unique,
        _ => false,
    }
}

/// Whether a constraint is that of a foreign key: from its column to the one that it
/// refers to, and with what follows from a deletion or a change.
pub open spec fn declares_reference(c: TableConstraintV, fk: ForeignKey) -> bool {
    match c {
        TableConstraintV::ForeignKey(_, column, table, to, on_delete, on_update) => {
            &&& column == fk.column@
            &&& table == fk.reference_table@
            &&& to == fk.reference_column@
            &&& lowercase(fk.on_delete@) == "cascade"@ ==> on_delete == Some(KeyAction::Cascade)
            &&& lowercase(fk.on_delete@) == "set null"@ ==> on_delete == Some(KeyAction::SetNull)
            &&& lowercase(fk.on_delete@) == "restrict"@ ==> on_delete == Some(KeyAction::Restrict)
            &&& lowercase(fk.on_update@) == "cascade"@ ==> on_update == Some(KeyAction::Cascade)
            &&& lowercase(fk.on_update@) == "set null"@ ==> on_update == Some(KeyAction::SetNull)
            &&& lowercase(fk.on_update@) == "restrict"@ ==> on_update == Some(KeyAction::Restrict)
        },
        _ => false,
    }
}

/// A table has the constraints that are configured: its primary key, unless its
/// column declares it, each index that is not the key itself, and each foreign key.
pub proof fn law_tables_have_their_constraints(
    data: TableSchema,
    dialect: Seq<char>,
    i: int,
    j: int,
)
    ensures
        ({
            let cs = table_of(data, dialect).constraints;
            let pk = data.primary_key.deep_view();
            &&& pk.len() > 0 && dialect != "sqlite"@ ==> cs.len() > 0 && cs[0]
                == TableConstraintV::PrimaryKey(pk)
            &&& 0 <= i < data.indexes@.len() && data.indexes@[i].columns@.len() > 0 && !(pk.len()
                == 1 && data.indexes@[i].columns@.len() == 1) ==> exists|k: int|
                0 <= k < cs.len() && declares_index(#[trigger] cs[k], data.indexes@[i])
            &&& 0 <= j < data.foreign_keys@.len() ==> exists|k: int|
                0 <= k < cs.len() && declares_reference(#[trigger] cs[k], data.foreign_keys@[j])
        }),
{
    let pk = data.primary_key.deep_view();
    let cs = constraints_of(data, dialect);
    let ixs = index_constraints(data.indexes@, pk, data.table@);
    let fks = key_constraints(data.foreign_keys@, data.table@);
    let n = if !declares_key_inline(data.columns@, pk, dialect) && pk.len() > 0 {
        1int
    } else {
        0
    };
    if 0 <= i < data.indexes@.len() && data.indexes@[i].columns@.len() > 0 && !(pk.len() == 1
        && data.indexes@[i].columns@.len() == 1) {
        assert(data.indexes@[i].columns.deep_view().len() == data.indexes@[i].columns@.len());
        lemma_index_is_declared(data.indexes@, pk, data.table@, i);
        let k = choose|k: int|
            {
                &&& 0 <= k < ixs.len()
                &&& declares_index(
                    #[trigger] index_constraints(data.indexes@, pk, data.table@)[k],
                    data.indexes@[i],
                )
            };
        assert(cs[n + k] == ixs[k]);
        assert(declares_index(cs[n + k], data.indexes@[i]));
    }
    if 0 <= j < data.foreign_keys@.len() {
        lemma_key_actions(data.foreign_keys@[j].on_delete@);
        lemma_key_actions(data.foreign_keys@[j].on_update@);
        assert(cs[n + ixs.len() + j] == fks[j]);
        assert(declares_reference(cs[n + ixs.len() + j], data.foreign_keys@[j]));
    }
}

proof fn lemma_key_actions(s: Seq<char>)
    ensures
        lowercase(s) == "cascade"@ ==> key_action(s) == Some(KeyAction::Cascade),
        lowercase(s) == "set null"@ ==> key_action(s) == Some(KeyAction::SetNull),
        lowercase(s) == "restrict"@ ==> key_action(s) == Some(KeyAction::Restrict),
{
    reveal_strlit("cascade");
    reveal_strlit("set null");
    reveal_strlit("restrict");
    assert("cascade"@[0] == 'c' && "set null"@[0] == 's' && "restrict"@[0] == 'r');
}

/// The statements that create a table run one after the other, and none is left out.
pub proof fn law_statements_run_in_order(
    q: TableWork,
    stage: TableStage,
    said: Seq<char>,
    o: Outcome,
)
    requires
        q.statements@.len() <= usize::MAX,
        failure_in(o) is None,
    ensures
        ({
            let (s, t, w) = table_next(q, stage, said, o);
            &&& t == said
            &&& stage == TableStage::Beginning && q.statements@.len() > 0 ==> s
                == TableStage::Running(0) && w == WorkV::Ask(
                ActionV::RunSql(q.statements@[0]@, Seq::empty()),
            )
            &&& stage is Running && stage->Running_0 + 1 < q.statements@.len() ==> s
                == TableStage::Running((stage->Running_0 + 1) as usize) && w == WorkV::Ask(
                ActionV::RunSql(q.statements@[stage->Running_0 + 1]@, Seq::empty()),
            )
            &&& stage is Running && stage->Running_0 + 1 >= q.statements@.len() && said.len() == 0
                ==> s == TableStage::Committing && w == WorkV::Ask(ActionV::Commit)
        }),
{
    assert(q.statements.deep_view().len() == q.statements@.len());
}

/// A request to create a table compiles the table of its entity.
pub proof fn law_creations_compile_their_table(
    q: TableRequest,
    work: TableWork,
    stage: CreationStage,
    m: CreationMemoV,
    o: Outcome,
)
    requires
        creation_next(q, work, stage, m, o).2 is CompileTable,
    ensures
        ({
            let t = creation_next(q, work, stage, m, o).2->CompileTable_0;
            let own = table_of(q.schema, db_name(q.db));
            &&& t.name == q.schema.table@
            &&& t.columns == own.columns
            &&& t.constraints == own.constraints
            &&& trim(q.schema.collate@).len() > 0 ==> t.collate == Some(trim(q.schema.collate@))
        }),
{
    let (s, said, w) = table_next(work, m.work, m.said, o);
}

} // verus!
