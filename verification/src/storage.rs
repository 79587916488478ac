//! Records kept in the local store: saved connections and key/value pairs,
//! and how their fields are written to and read from the store's columns.

use vstd::prelude::*;
use crate::connection::{DatabaseType, DbConnectionConfig};
use crate::text::{chars_eq, chars_of, decimal, push_char, push_decimal};

verus! {

/// A saved connection.
#[derive(Debug)]
pub struct StoredConnection {
    pub id: Option<i64>,
    pub name: String,
    pub db_type: DatabaseType,
    pub host: String,
    pub port: u16,
    pub username: String,
    pub password: String,
    pub database: Option<String>,
    pub created_at: Option<i64>,
    pub updated_at: Option<i64>,
}

/// A stored key/value pair.
#[derive(Debug)]
pub struct KeyValue {
    pub id: Option<i64>,
    pub key: String,
    pub value: String,
    pub created_at: Option<i64>,
    pub updated_at: Option<i64>,
}

impl KeyValue {
    /// A pair not stored yet.
    pub fn new(key: String, value: String) -> (r: Self)
        ensures
            r.id is None,
            r.key == key,
            r.value == value,
            r.created_at is None,
            r.updated_at is None,
    {
        KeyValue { id: None, key, value, created_at: None, updated_at: None }
    }
}

/// The decimal notation of a signed integer, with `-` before a negative one.
pub open spec fn signed_decimal(i: int) -> Seq<char> {
    if i < 0 {
        seq!['-'] + decimal((-i) as nat)
    } else {
        decimal(i as nat)
    }
}

/// Writes a signed integer in decimal.
pub fn i64_to_string(i: i64) -> (r: String)
    ensures
        r@ == signed_decimal(i as int),
{
    let mut s = String::new();
    if i < 0 {
        push_char(&mut s, '-');
        let m: u64 = ((-(i + 1)) as u64) + 1;
        push_decimal(&mut s, m);
    } else {
        push_decimal(&mut s, i as u64);
    }
    s
}

impl StoredConnection {
    /// A connection to be saved: not stored yet, so without id or times.
    pub fn new(db_type: DatabaseType, connection: DbConnectionConfig) -> (r: Self)
        ensures
            r.id is None,
            r.name == connection.name,
            r.db_type == db_type,
            r.host == connection.host,
            r.port == connection.port,
            r.username == connection.username,
            r.password == connection.password,
            r.database == connection.database,
            r.created_at is None,
            r.updated_at is None,
    {
        StoredConnection {
            id: None,
            name: connection.name,
            db_type,
            host: connection.host,
            port: connection.port,
            username: connection.username,
            password: connection.password,
            database: connection.database,
            created_at: None,
            updated_at: None,
        }
    }

    /// The settings to connect with; the id is the stored id in decimal.
    pub fn to_db_connection(&self) -> (r: DbConnectionConfig)
        requires
            self.id is Some,
        ensures
            r.id@ == signed_decimal(self.id->0 as int),
            r.database_type == self.db_type,
            r.name@ == self.name@,
            r.host@ == self.host@,
            r.port == self.port,
            r.username@ == self.username@,
            r.password@ == self.password@,
            r.database.deep_view() == self.database.deep_view(),
    {
        let id = match self.id {
            Some(i) => i,
            None => 0,
        };
        let database = match &self.database {
            Some(d) => Some(d.clone()),
            None => None,
        };
        DbConnectionConfig {
            id: i64_to_string(id),
            database_type: self.db_type,
            name: self.name.clone(),
            host: self.host.clone(),
            port: self.port,
            username: self.username.clone(),
            password: self.password.clone(),
            database,
        }
    }
}

/// How a server kind is written in the store (its `Debug` name).
pub open spec fn stored_type_name(t: DatabaseType) -> Seq<char> {
    match t {
        DatabaseType::MySQL => "MySQL"@,
        DatabaseType::PostgreSQL => "PostgreSQL"@,
    }
}

/// The server kind read back from the store: MySQL for any unknown name.
pub open spec fn stored_type(name: Seq<char>) -> DatabaseType {
    if name == "PostgreSQL"@ {
        DatabaseType::PostgreSQL
    } else {
        DatabaseType::MySQL
    }
}

/// The name under which a server kind is stored.
pub fn db_type_to_stored(t: DatabaseType) -> (r: String)
    ensures
        r@ == stored_type_name(t),
{
    match t {
        DatabaseType::MySQL => "MySQL".to_owned(),
        DatabaseType::PostgreSQL => "PostgreSQL".to_owned(),
    }
}

/// Reads a stored server kind; an unknown name reads as MySQL.
pub fn db_type_from_stored(name: &str) -> (r: DatabaseType)
    ensures
        r == stored_type(name@),
{
    let c = chars_of(name);
    let pg = chars_of("PostgreSQL");
    if chars_eq(c.as_slice(), pg.as_slice()) {
        DatabaseType::PostgreSQL
    } else {
        DatabaseType::MySQL
    }
}

/// The port column holds a 64-bit integer; reading it keeps its low 16
/// bits, as `as u16` does.
pub open spec fn stored_port(p: i64) -> u16 {
    (p as int % 65536) as u16
}

/// Reads the port column.
pub fn port_from_stored(p: i64) -> (r: u16)
    ensures
        r == stored_port(p),
{
    let m: i64 = p % 65536;
    let m: i64 = if m < 0 {
        m + 65536
    } else {
        m
    };
    m as u16
}

/// Writes the port column.
pub fn port_to_stored(p: u16) -> (r: i64)
    ensures
        r == p as int,
{
    p as i64
}

/// A row of the connections table, as the store returns it.
#[derive(Debug)]
pub struct ConnectionRow {
    pub id: i64,
    pub name: String,
    pub db_type: String,
    pub host: String,
    pub port: i64,
    pub username: String,
    pub password: String,
    pub database: Option<String>,
    pub created_at: i64,
    pub updated_at: i64,
}

/// Reads a stored connection from its row.
pub fn connection_from_row(row: ConnectionRow) -> (r: StoredConnection)
    ensures
        r.id == Some(row.id),
        r.name == row.name,
        r.db_type == stored_type(row.db_type@),
        r.host == row.host,
        r.port == stored_port(row.port),
        r.username == row.username,
        r.password == row.password,
        r.database == row.database,
        r.created_at == Some(row.created_at),
        r.updated_at == Some(row.updated_at),
{
    let db_type = db_type_from_stored(row.db_type.as_str());
    let port = port_from_stored(row.port);
    StoredConnection {
        id: Some(row.id),
        name: row.name,
        db_type,
        host: row.host,
        port,
        username: row.username,
        password: row.password,
        database: row.database,
        created_at: Some(row.created_at),
        updated_at: Some(row.updated_at),
    }
}

/// A server kind written to the store reads back as itself.
pub proof fn law_db_type_round_trip(t: DatabaseType)
    ensures
        stored_type(stored_type_name(t)) == t,
{
    reveal_strlit("MySQL");
    reveal_strlit("PostgreSQL");
    if t == DatabaseType::MySQL {
        assert(stored_type_name(t)[0] != "PostgreSQL"@[0]);
    }
}

/// A port written to the store reads back as itself.
pub proof fn law_port_round_trip(p: u16)
    ensures
        stored_port(p as i64) == p,
{
}

} // verus!

verus! {

/// Error reported by a store.
#[derive(Debug)]
pub struct StorageError {
    pub message: String,
}

/// Create, read, update and delete for records of type `T`, by id.
pub trait Storage<T> {
    /// Inserts a record and returns its id.
    fn insert(&self, item: &T) -> Result<i64, StorageError>;

    /// Replaces the record with this id.
    fn update(&self, id: i64, item: &T) -> Result<(), StorageError>;

    /// Deletes the record with this id.
    fn delete(&self, id: i64) -> Result<(), StorageError>;

    /// The record with this id, if any.
    fn get(&self, id: i64) -> Result<Option<T>, StorageError>;

    /// All records.
    fn list(&self) -> Result<Vec<T>, StorageError>;

    /// Deletes all records.
    fn clear(&self) -> Result<(), StorageError>;
}

/// Queries on records of type `T`.
pub trait Queryable<T> {
    /// Records whose field has this value.
    fn find_by(&self, field: &str, value: &str) -> Result<Vec<T>, StorageError>;

    /// One record whose field has this value, if any.
    fn find_one_by(&self, field: &str, value: &str) -> Result<Option<T>, StorageError>;

    /// Number of records.
    fn count(&self) -> Result<i64, StorageError>;

    /// Whether a record with this id exists.
    fn contains_id(&self, id: i64) -> Result<bool, StorageError>;
}

} // verus!
