//! Schemas of table functions.

use vstd::prelude::*;

verus! {

/// Whether a table function reads or writes.
#[derive(Clone, Copy, Debug, PartialEq, Eq, Structural)]
pub enum TableFunctionKind {
    Read,
    Write,
}

/// SQL-shaped types that can be marshalled end to end.
#[derive(Clone, Copy, Debug, PartialEq, Eq, Structural)]
pub enum Type {
    Bool,
    Int64,
    Float64,
    Text,
    Bytes,
    Date,
    Timestamp,
    Json,
}

impl Type {
    /// The name of the Postgres type.
    pub open spec fn pg_name(self) -> Seq<char> {
        match self {
            Type::Bool => "boolean"@,
            Type::Int64 => "bigint"@,
            Type::Float64 => "double precision"@,
            Type::Text => "text"@,
            Type::Bytes => "bytea"@,
            Type::Date => "date"@,
            Type::Timestamp => "timestamp with time zone"@,
            Type::Json => "jsonb"@,
        }
    }

    /// The Postgres type name this maps to in `CREATE FUNCTION` statements.
    pub fn pg_type(&self) -> (name: &'static str)
        ensures
            name@ == self.pg_name(),
    {
        match self {
            Type::Bool => "boolean",
            Type::Int64 => "bigint",
            Type::Float64 => "double precision",
            Type::Text => "text",
            Type::Bytes => "bytea",
            Type::Date => "date",
            Type::Timestamp => "timestamp with time zone",
            Type::Json => "jsonb",
        }
    }
}

/// One input or one result column.
#[derive(Clone, Debug)]
pub struct ColumnSchema {
    pub name: String,
    pub ty: Type,
    pub nullable: bool,
    pub description: String,
}

/// What a table function is called, takes and returns.
#[derive(Clone, Debug)]
pub struct TableFunctionSchema {
    pub name: String,
    pub kind: TableFunctionKind,
    pub inputs: Vec<ColumnSchema>,
    pub columns: Vec<ColumnSchema>,
    pub description: String,
    pub shard_key: Option<String>,
    /// Estimated row count for the planner.
    pub estimated_rows: u32,
    /// Per-call deadline. `None` means no timeout on the daemon's side.
    pub timeout_ms: Option<u64>,
}

/// A [`ColumnSchema`] with its texts as character sequences.
pub struct ColumnSchemaView {
    pub name: Seq<char>,
    pub ty: Type,
    pub nullable: bool,
    pub description: Seq<char>,
}

impl View for ColumnSchema {
    type V = ColumnSchemaView;

    open spec fn view(&self) -> ColumnSchemaView {
        ColumnSchemaView {
            name: self.name@,
            ty: self.ty,
            nullable: self.nullable,
            description: self.description@,
        }
    }
}

/// A [`TableFunctionSchema`] with its texts as character sequences.
pub struct TableFunctionSchemaView {
    pub name: Seq<char>,
    pub kind: TableFunctionKind,
    pub inputs: Seq<ColumnSchemaView>,
    pub columns: Seq<ColumnSchemaView>,
    pub description: Seq<char>,
    pub shard_key: Option<Seq<char>>,
    pub estimated_rows: u32,
    pub timeout_ms: Option<u64>,
}

impl View for TableFunctionSchema {
    type V = TableFunctionSchemaView;

    open spec fn view(&self) -> TableFunctionSchemaView {
        TableFunctionSchemaView {
            name: self.name@,
            kind: self.kind,
            inputs: self.inputs@.map_values(|c: ColumnSchema| c@),
            columns: self.columns@.map_values(|c: ColumnSchema| c@),
            description: self.description@,
            shard_key: match self.shard_key {
                Some(k) => Some(k@),
                None => None,
            },
            estimated_rows: self.estimated_rows,
            timeout_ms: self.timeout_ms,
        }
    }
}

/// The estimated row count of a schema that gives none.
pub fn default_rows() -> (rows: u32)
    ensures
        rows == 100,
{
    100
}

/// The names of the Postgres types.
pub proof fn law_pg_types(ty: &Type, name: &'static str)
    requires
        call_ensures(Type::pg_type, (ty,), name),
    ensures
        *ty == Type::Bool ==> name@ == "boolean"@,
        *ty == Type::Int64 ==> name@ == "bigint"@,
        *ty == Type::Float64 ==> name@ == "double precision"@,
        *ty == Type::Text ==> name@ == "text"@,
        *ty == Type::Bytes ==> name@ == "bytea"@,
        *ty == Type::Date ==> name@ == "date"@,
        *ty == Type::Timestamp ==> name@ == "timestamp with time zone"@,
        *ty == Type::Json ==> name@ == "jsonb"@,
{
}

} // verus!
