//! The configuration of an entity: its table, and what each kind of request may
//! do with it.
use crate::json::Json;
use crate::text::same;
use vstd::prelude::*;

verus! {

/// A column of a table.
#[derive(Debug, Default)]
pub struct Column {
    pub name: String,
    pub type_data: String,
    pub nullable: bool,
    pub auto_increment: bool,
    pub encrypt: bool,
    /// How a value of the column is made, where it is generated.
    pub function: String,
    /// Where the next number of a generated value is asked for.
    pub function_endpoint: String,
    /// The path of the number in the answer.
    pub function_endpoint_path: String,
    pub collate: String,
}

/// An index of a table.
#[derive(Debug, Default)]
pub struct Index {
    pub name: String,
    pub columns: Vec<String>,
    pub unique: bool,
}

/// A column that refers to a column of another table.
#[derive(Debug, Default)]
pub struct ForeignKey {
    pub column: String,
    pub reference_table: String,
    pub reference_column: String,
    pub on_delete: String,
    pub on_update: String,
}

/// A table that is joined to the result of a request.
#[derive(Debug, Default)]
pub struct JoinTable {
    pub table: String,
    pub type_join: String,
    pub logical: String,
    pub columns: Vec<String>,
}

/// What may be read.
#[derive(Debug, Default)]
pub struct GetConfig {
    pub parameters: Vec<String>,
    pub columns: Vec<String>,
    pub order_by: Vec<String>,
    pub join_tables: Vec<JoinTable>,
    pub column_groups: Vec<String>,
    pub having: Vec<String>,
    pub where_clause: Vec<String>,
}

/// What may be written, and what is run before and after.
#[derive(Debug, Default)]
pub struct WriteConfig {
    pub columns: Vec<String>,
    pub validate_data: String,
    pub pre_process: String,
    pub post_process: String,
}

/// How rows are deleted.
#[derive(Debug, Default)]
pub struct DeleteConfig {
    pub type_delete: String,
    pub columns: Vec<String>,
    pub pre_process: String,
    pub post_process: String,
}

/// The stored procedure behind an entity.
#[derive(Debug, Default)]
pub struct PatchConfig {
    pub parameters: Vec<String>,
    pub pre_process_sp: String,
    pub return_mode: String,
}

/// How rows of an entity are copied into another table.
#[derive(Debug, Default)]
pub struct TraceConfig {
    pub parameters: Vec<String>,
    pub column_selects: Vec<String>,
    pub column_inserts: Vec<String>,
    pub column_groups: Vec<String>,
    pub column_conflicts: Vec<String>,
    pub join_tables: Vec<JoinTable>,
    pub insert_into: String,
}

/// Rows of another table that belong to a row of this one.
#[derive(Debug, Default)]
pub struct DetailConfig {
    pub field: String,
    pub target_table: String,
    pub foreign_key_column: String,
    pub update_strategy: String,
    pub cascade_delete: bool,
}

/// An entity.
#[derive(Debug, Default)]
pub struct TableSchema {
    pub table: String,
    pub collate: String,
    pub columns: Vec<Column>,
    pub primary_key: Vec<String>,
    pub indexes: Vec<Index>,
    pub foreign_keys: Vec<ForeignKey>,
    pub get: GetConfig,
    pub post: WriteConfig,
    pub put: WriteConfig,
    pub del: DeleteConfig,
    pub patch: PatchConfig,
    pub trace: TraceConfig,
    pub details: Vec<DetailConfig>,
    /// Fields that lock a row while they hold one of some values.
    pub locked_when: Vec<(String, Json)>,
    /// How many action triggers are configured.
    pub action_triggers: usize,
    /// How long a cached answer lives, in seconds.
    pub redis_ttl: i64,
}

/// What happens to the rows of a table that refer to a changed row.
#[derive(Debug, Default)]
pub struct ForeignAction {
    pub action: String,
    pub type_delete: String,
    pub table: String,
    pub column: String,
}

/// The tables that refer to a table.
#[derive(Debug, Default)]
pub struct ReferenceForeignKey {
    pub table: String,
    pub on_delete_action: ForeignAction,
    pub on_update_action: ForeignAction,
}

/// The kind of a database.
#[derive(Debug, PartialEq, Eq, Clone, Copy, Structural)]
pub enum DbType {
    Mysql,
    Postgres,
    Sqlite,
    Mssql,
    Mongodb,
}

/// The position of the first column with a name, at or after `from`.
pub open spec fn column_at(columns: Seq<Column>, name: Seq<char>, from: int) -> Option<int>
    decreases columns.len() - from,
{
    if from < 0 || from >= columns.len() {
        None
    } else if columns[from].name@ == name {
        Some(from)
    } else {
        column_at(columns, name, from + 1)
    }
}

/// The first column with a name.
pub open spec fn column_named(columns: Seq<Column>, name: Seq<char>) -> Option<Column> {
    match column_at(columns, name, 0) {
        Some(i) => Some(columns[i]),
        None => None,
    }
}

/// The first column with a name.
pub fn find_column<'a>(columns: &'a Vec<Column>, name: &str) -> (r: Option<&'a Column>)
    ensures
        match r {
            Some(c) => column_named(columns@, name@) == Some(*c),
            None => column_named(columns@, name@) is None,
        },
{
    let mut i: usize = 0;
    while i < columns.len()
        invariant
            i <= columns@.len(),
            column_at(columns@, name@, 0) == column_at(columns@, name@, i as int),
        decreases columns.len() - i,
    {
        if same(columns[i].name.as_str(), name) {
            return Some(&columns[i]);
        }
        i += 1;
    }
    None
}

/// The type of a column; that of integers where there is no such column.
pub open spec fn type_or_int(columns: Seq<Column>, name: Seq<char>) -> Seq<char> {
    match column_named(columns, name) {
        Some(c) => c.type_data@,
        None => "int"@,
    }
}

/// The type of a column; that of integers where there is no such column.
pub fn column_type(columns: &Vec<Column>, name: &str) -> (r: String)
    ensures
        r@ == type_or_int(columns@, name@),
{
    match find_column(columns, name) {
        Some(c) => c.type_data.clone(),
        None => "int".to_owned(),
    }
}

} // verus!
