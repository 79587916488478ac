//! Connection settings and catalog entries shared by the form, the storage
//! and the workspace.

use vstd::prelude::*;

verus! {

/// Supported database servers.
#[derive(Debug, Clone, Copy, PartialEq, Eq, Structural)]
pub enum DatabaseType {
    MySQL,
    PostgreSQL,
}

/// The display name of a server kind.
pub open spec fn db_type_name(t: DatabaseType) -> Seq<char> {
    match t {
        DatabaseType::MySQL => "MySQL"@,
        DatabaseType::PostgreSQL => "PostgreSQL"@,
    }
}

impl DatabaseType {
    /// The display name, as the form's type picker shows it.
    pub fn as_str(&self) -> (r: &'static str)
        ensures
            r@ == db_type_name(*self),
    {
        match self {
            DatabaseType::MySQL => "MySQL",
            DatabaseType::PostgreSQL => "PostgreSQL",
        }
    }
}

/// Settings of one connection.
#[derive(Debug)]
pub struct DbConnectionConfig {
    pub id: String,
    pub database_type: DatabaseType,
    pub name: String,
    pub host: String,
    pub port: u16,
    pub username: String,
    pub password: String,
    pub database: Option<String>,
}

/// A column of a table, as the server describes it.
#[derive(Debug)]
pub struct ColumnInfo {
    pub name: String,
    pub data_type: String,
    pub is_nullable: bool,
    pub comment: Option<String>,
}

} // verus!
