//! The data-source facing surface: the column-record type the pipeline
//! consumes, and the decidable parts of introspection — dialect detection
//! from a connection string, the catalog query text per dialect, and the
//! interpretation of the catalog's nullability column. Connecting and
//! running the query is the surrounding application's job.

use vstd::prelude::*;

use crate::strings::is_prefix_of;

verus! {

/// The mathematical value of one column record.
pub ghost struct TableColumnDefinitionView {
    pub table_name: Seq<char>,
    pub column_name: Seq<char>,
    pub nullable: bool,
    pub data_type: Seq<char>,
}

/// One row of the `INFORMATION_SCHEMA.COLUMNS` query: the flat (table,
/// column, nullability, native type) tuple this pipeline consumes. That
/// catalog table has many more columns; these are the ones used here.
#[derive(Debug, Clone, PartialEq)]
pub struct TableColumnDefinition {
    pub table_name: String,
    pub column_name: String,
    pub nullable: bool,
    pub data_type: String,
}

impl View for TableColumnDefinition {
    type V = TableColumnDefinitionView;

    open spec fn view(&self) -> TableColumnDefinitionView {
        TableColumnDefinitionView {
            table_name: self.table_name@,
            column_name: self.column_name@,
            nullable: self.nullable,
            data_type: self.data_type@,
        }
    }
}

impl DeepView for TableColumnDefinition {
    type V = TableColumnDefinitionView;

    open spec fn deep_view(&self) -> TableColumnDefinitionView {
        self.view()
    }
}

/// The two supported database dialects.
#[derive(Debug, Clone, Copy, PartialEq, Eq, Structural)]
pub enum SqlDialect {
    Postgres,
    MySql,
}

/// The dialect a connection string selects: `postgres...` strings select
/// Postgres, `mysql...` strings select MySQL, anything else is unsupported.
pub open spec fn dialect_of(s: Seq<char>) -> Option<SqlDialect> {
    if is_prefix_of("postgres"@, s) {
        Some(SqlDialect::Postgres)
    } else if is_prefix_of("mysql"@, s) {
        Some(SqlDialect::MySql)
    } else {
        None
    }
}

/// Decides which dialect a connection string addresses. Returns `None`
/// exactly when the string starts with neither `postgres` nor `mysql`; the
/// caller reports that as an unsupported-database error.
pub fn detect_dialect(connection_string: &str) -> (r: Option<SqlDialect>)
    ensures
        r == dialect_of(connection_string@),
{
    if crate::strings::str_has_prefix(connection_string, "postgres") {
        Some(SqlDialect::Postgres)
    } else if crate::strings::str_has_prefix(connection_string, "mysql") {
        Some(SqlDialect::MySql)
    } else {
        None
    }
}

/// The catalog query each dialect runs: the same four columns of
/// `INFORMATION_SCHEMA.COLUMNS` for one schema, ordered by table name then
/// column name, in each dialect's placeholder and identifier style.
pub open spec fn columns_query_chars(dialect: SqlDialect) -> Seq<char> {
    match dialect {
        SqlDialect::Postgres => "SELECT table_name, column_name, is_nullable, data_type FROM INFORMATION_SCHEMA.COLUMNS where table_schema = $1 order by table_name, column_name"@,
        SqlDialect::MySql => "SELECT TABLE_NAME, COLUMN_NAME, IS_NULLABLE, DATA_TYPE FROM INFORMATION_SCHEMA.COLUMNS where TABLE_SCHEMA = ? order by TABLE_NAME, COLUMN_NAME"@,
    }
}

/// The text of the column-catalog query for the given dialect, with one
/// bind parameter for the schema name.
pub fn columns_query(dialect: SqlDialect) -> (q: String)
    ensures
        q@ == columns_query_chars(dialect),
{
    match dialect {
        SqlDialect::Postgres => String::from_str(
            "SELECT table_name, column_name, is_nullable, data_type FROM INFORMATION_SCHEMA.COLUMNS where table_schema = $1 order by table_name, column_name",
        ),
        SqlDialect::MySql => String::from_str(
            "SELECT TABLE_NAME, COLUMN_NAME, IS_NULLABLE, DATA_TYPE FROM INFORMATION_SCHEMA.COLUMNS where TABLE_SCHEMA = ? order by TABLE_NAME, COLUMN_NAME",
        ),
    }
}

/// The boolean a catalog `IS_NULLABLE` value denotes: `YES` or `NO`,
/// anything else is unexpected.
pub open spec fn nullable_flag_of(s: Seq<char>) -> Option<bool> {
    if s == "YES"@ {
        Some(true)
    } else if s == "NO"@ {
        Some(false)
    } else {
        None
    }
}

/// Interprets the catalog's `IS_NULLABLE` column. Returns `None` exactly
/// when the value is neither `YES` nor `NO`.
pub fn parse_is_nullable(value: &str) -> (r: Option<bool>)
    ensures
        r == nullable_flag_of(value@),
{
    if crate::strings::str_eq(value, "YES") {
        Some(true)
    } else if crate::strings::str_eq(value, "NO") {
        Some(false)
    } else {
        None
    }
}

} // verus!
