use crate::event_id::bytes_value;
use crate::types::{Error, EventId, KnownEvent};
use rusqlite::Connection;
use rusqlite::Error as RusqliteError;
use rusqlite::OptionalExtension;
use vstd::prelude::*;

verus! {

// ---------------------------------------------------------------------------
// The relational backend: events are rows `(id, uuid, payload)` in one table
// of a SQLite database file.  The engine assigns `id`, an increasing integer;
// `uuid` is the identifier's sixteen-byte form and is unique — this backend
// enforces the identifier uniqueness that the flat-file backend does not;
// `payload` is the serialized payload.
//
// The database engine is outside code.  Every call into it goes through one
// of the trusted wrappers below; what comes back from the engine depends on
// what is on disk, so the wrappers promise nothing of their outcomes, and the
// verified functions that follow them state what holds whatever came back.
// The row-to-event conversion, with its exact contract, is `rows_to_events`.
// ---------------------------------------------------------------------------
/// The connection type of the `rusqlite` database engine, declared so that it
/// can be carried through verified code.  Verus sees nothing inside a value
/// of it; every use goes through the trusted wrappers below.
#[verifier::external_type_specification]
#[verifier::external_body]
pub struct ExConnection(Connection);

/// The error type of the `rusqlite` database engine, declared so that
/// verified code can hold and pass along an engine failure.
#[verifier::external_type_specification]
#[verifier::external_body]
pub struct ExSqliteError(RusqliteError);

/// Relies on `rusqlite::Connection::open`: opens (creating if absent) the
/// database file at `path`.  Whether it succeeds depends on the file system,
/// so nothing is promised of the outcome.
#[verifier::external_body]
fn open_connection(path: &str) -> Result<Connection, RusqliteError> {
    Connection::open(path)
}

/// Relies on `rusqlite::Connection::execute`: runs one parameterless SQL
/// statement.  The outcome depends on the database file.
#[verifier::external_body]
fn execute_sql(conn: &Connection, sql: &str) -> Result<usize, RusqliteError> {
    conn.execute(sql, ())
}

/// Relies on `rusqlite::Connection::execute` with two parameters, bound as a
/// BLOB and as TEXT where the payload is valid UTF-8, else as a BLOB: runs one
/// insert.  The outcome depends on the database file (a uniqueness violation
/// surfaces here as the engine's error).
#[verifier::external_body]
fn execute_insert(
    conn: &Connection,
    sql: &str,
    uuid: &Vec<u8>,
    payload: &Vec<u8>,
) -> Result<usize, RusqliteError> {
    match std::str::from_utf8(payload) {
        Ok(text) => conn.execute(sql, (uuid.as_slice(), text)),
        Err(_) => conn.execute(sql, (uuid.as_slice(), payload.as_slice())),
    }
}

/// Relies on `rusqlite::Connection::query_row` and
/// `rusqlite::OptionalExtension::optional`: runs a query expected to yield at
/// most one row holding one BLOB column, `None` when it yields no row.
#[verifier::external_body]
fn query_single_blob(conn: &Connection, sql: &str) -> Result<Option<Vec<u8>>, RusqliteError> {
    conn.query_row(sql, (), |row| row.get::<usize, Vec<u8>>(0)).optional()
}

/// Relies on `rusqlite::Connection::query_row`: runs a query with one BLOB
/// parameter, expected to yield one row holding one integer column.
#[verifier::external_body]
fn query_single_int(conn: &Connection, sql: &str, uuid: &Vec<u8>) -> Result<i64, RusqliteError> {
    conn.query_row(sql, (uuid.as_slice(),), |row| row.get::<usize, i64>(0))
}

/// Relies on `rusqlite::Statement::query_map`: runs a query whose rows hold
/// `(id, uuid, payload)`, and hands back each row's uuid BLOB and payload
/// bytes (`ValueRef::as_bytes` accepts TEXT and BLOB values), in the order the
/// engine yields them.
#[verifier::external_body]
fn query_event_rows(conn: &Connection, sql: &str) -> Result<Vec<(Vec<u8>, Vec<u8>)>, RusqliteError> {
    let mut stmt = conn.prepare(sql)?;
    let rows = stmt.query_map((), |row| {
        let uuid: Vec<u8> = row.get(1)?;
        let payload = row.get_ref(2)?.as_bytes()?.to_vec();
        Ok((uuid, payload))
    })?;
    rows.collect()
}

/// Relies on `rusqlite::Statement::query_map`, as `query_event_rows`, with one
/// integer parameter.
#[verifier::external_body]
fn query_event_rows_from(
    conn: &Connection,
    sql: &str,
    seq: i64,
) -> Result<Vec<(Vec<u8>, Vec<u8>)>, RusqliteError> {
    let mut stmt = conn.prepare(sql)?;
    let rows = stmt.query_map((seq,), |row| {
        let uuid: Vec<u8> = row.get(1)?;
        let payload = row.get_ref(2)?.as_bytes()?.to_vec();
        Ok((uuid, payload))
    })?;
    rows.collect()
}

/// Relies on the `Display` rendering of `rusqlite::Error`: the engine's own
/// description of a failure, for error messages.
#[verifier::external_body]
pub(crate) fn sqlite_error_text(e: &RusqliteError) -> String {
    format!("{e}")
}

// ---------------------------------------------------------------------------
// Query construction: exact, verified string building.
// ---------------------------------------------------------------------------
/// The idempotent table-creation statement for `table`.
pub open spec fn create_table_sql(table: Seq<char>) -> Seq<char> {
    "CREATE TABLE IF NOT EXISTS "@ + table
        + " (\n  id INTEGER PRIMARY KEY AUTOINCREMENT NOT NULL,\n  uuid BLOB CHECK(length(uuid) = 16) UNIQUE NOT NULL,\n  payload TEXT NOT NULL\n)"@
}

/// The insert statement for `table`.
pub open spec fn insert_sql(table: Seq<char>) -> Seq<char> {
    "INSERT INTO "@ + table + " (uuid, payload) VALUES (?, ?)"@
}

/// The latest-event query for `table`: the identifier of the row with the
/// greatest sequence number.
pub open spec fn latest_sql(table: Seq<char>) -> Seq<char> {
    "SELECT uuid FROM "@ + table + " ORDER BY id DESC LIMIT 1"@
}

/// The point lookup resolving an identifier to its sequence number.
pub open spec fn id_lookup_sql(table: Seq<char>) -> Seq<char> {
    "SELECT id FROM "@ + table + " WHERE uuid = ? LIMIT 1"@
}

/// The full-scan read query for `table`, in sequence order.
pub open spec fn select_all_sql(table: Seq<char>) -> Seq<char> {
    "SELECT id, uuid, payload FROM "@ + table + " ORDER BY id"@
}

/// The resuming read query for `table`: every row at or after a sequence
/// number, in sequence order.
pub open spec fn select_from_sql(table: Seq<char>) -> Seq<char> {
    "SELECT id, uuid, payload FROM "@ + table + " WHERE id >= ? ORDER BY id"@
}

fn build_sql(prefix: &str, table: &str, suffix: &str) -> (r: String)
    ensures
        r@ == prefix@ + table@ + suffix@,
{
    let mut s = String::from_str(prefix);
    s.append(table);
    s.append(suffix);
    s
}

// ---------------------------------------------------------------------------
// Row conversion: the verified half of reading.
// ---------------------------------------------------------------------------
/// How one converted read element realizes a database row: a sixteen-byte
/// uuid column becomes an envelope carrying that identifier and the payload
/// bytes; any other uuid column is a malformed-identifier error.
pub open spec fn row_matches(uuid: Seq<u8>, payload: Seq<u8>, r: Result<
    KnownEvent<Vec<u8>>,
    Error,
>) -> bool {
    if uuid.len() == 16 {
        r matches Ok(ev) && ev.uuid.0 as int == bytes_value(uuid) && ev.payload@ == payload
    } else {
        r matches Err(Error::UuidError(_, _))
    }
}

/// Elementwise realization of a whole row sequence.
pub open spec fn realizes_rows(rows: Seq<(Seq<u8>, Seq<u8>)>, r: Seq<
    Result<KnownEvent<Vec<u8>>, Error>,
>) -> bool {
    r.len() == rows.len() && (forall|i: int|
        0 <= i < rows.len() ==> row_matches(rows[i].0, rows[i].1, #[trigger] r[i]))
}

/// Convert the rows a read query yielded, in order, each row on its own: a
/// malformed row yields an error at its position without corrupting later
/// rows.
pub fn rows_to_events(rows: &Vec<(Vec<u8>, Vec<u8>)>) -> (r: Vec<Result<KnownEvent<Vec<u8>>, Error>>)
    ensures
        r@.len() == rows@.len(),
        forall|i: int|
            0 <= i < rows@.len() ==> row_matches(rows@[i].0@, rows@[i].1@, #[trigger] r@[i]),
{
    let mut r: Vec<Result<KnownEvent<Vec<u8>>, Error>> = Vec::new();
    let mut i: usize = 0;
    while i < rows.len()
        invariant
            0 <= i <= rows@.len(),
            r@.len() == i,
            forall|j: int|
                0 <= j < i ==> row_matches(rows@[j].0@, rows@[j].1@, #[trigger] r@[j]),
        decreases rows@.len() - i,
    {
        let uuid_blob = copy_bytes(&rows[i].0);
        match EventId::from_bytes(&uuid_blob) {
            Some(uuid) => {
                let payload = copy_bytes(&rows[i].1);
                r.push(Ok(KnownEvent { uuid, payload }));
            },
            None => {
                r.push(
                    Err(
                        Error::UuidError(
                            uuid_blob,
                            String::from_str("stored identifier is not sixteen bytes"),
                        ),
                    ),
                );
            },
        }
        i += 1;
    }
    r
}

/// Copy a byte vector.
fn copy_bytes(v: &Vec<u8>) -> (r: Vec<u8>)
    ensures
        r@ == v@,
{
    let mut r: Vec<u8> = Vec::new();
    let mut i: usize = 0;
    while i < v.len()
        invariant
            0 <= i <= v@.len(),
            r@ =~= v@.take(i as int),
        decreases v@.len() - i,
    {
        r.push(v[i]);
        proof {
            assert(r@ =~= v@.take(i as int + 1));
        }
        i += 1;
    }
    proof {
        assert(v@.take(v@.len() as int) =~= v@);
    }
    r
}

/// What asking the relational store for its latest event makes of the row the
/// engine handed back: no row means an empty store, a sixteen-byte uuid column
/// is the identifier, anything else is a malformed-identifier error.
pub fn latest_from_row(row: Option<Vec<u8>>) -> (r: Result<Option<EventId>, Error>)
    ensures
        match row {
            Some(b) => if b@.len() == 16 {
                r matches Ok(o) && o matches Some(e) && e.0 as int == bytes_value(b@)
            } else {
                r matches Err(Error::UuidError(_, _))
            },
            None => r matches Ok(o) && o is None,
        },
{
    match row {
        None => Ok(None),
        Some(blob) => match EventId::from_bytes(&blob) {
            Some(uuid) => Ok(Some(uuid)),
            None => Err(
                Error::UuidError(blob, String::from_str("stored identifier is not sixteen bytes")),
            ),
        },
    }
}

// ---------------------------------------------------------------------------
// The store.
// ---------------------------------------------------------------------------
/// A relational event store: events are rows of the table named `table` in
/// the SQLite database file at `file`.
///
/// The store is stateless beyond those two names: every operation opens its
/// own connection and releases it before returning.  Resuming a read from an
/// identifier that the table does not hold is an error — unlike the flat-file
/// backend, which yields an empty result; both choices are deliberate and
/// kept.
pub struct SqliteEventStore {
    pub file: String,
    pub table: String,
}

impl SqliteEventStore {
    /// A store over `table` in the database file at `file`.  Construction
    /// eagerly ensures the table exists; it never validates or alters a table
    /// that already exists.
    pub fn new(file: &str, table: &str) -> (r: Result<SqliteEventStore, RusqliteError>)
        ensures
            r matches Ok(s) ==> s.file@ == file@ && s.table@ == table@,
    {
        let store = SqliteEventStore { file: String::from_str(file), table: String::from_str(
            table,
        ) };
        match store.create_table() {
            Ok(_) => Ok(store),
            Err(e) => Err(e),
        }
    }

    fn get_conn(&self) -> Result<Connection, RusqliteError> {
        open_connection(self.file.as_str())
    }

    /// Run the idempotent creation of the backing table: exactly the statement
    /// `create_table_sql(self.table@)`.  Whether it succeeds depends on the
    /// database file; an existing table is left untouched either way.
    pub fn create_table(&self) -> Result<(), RusqliteError> {
        let sql = build_sql(
            "CREATE TABLE IF NOT EXISTS ",
            self.table.as_str(),
            " (\n  id INTEGER PRIMARY KEY AUTOINCREMENT NOT NULL,\n  uuid BLOB CHECK(length(uuid) = 16) UNIQUE NOT NULL,\n  payload TEXT NOT NULL\n)",
        );
        proof {
            assert(sql@ == create_table_sql(self.table@));
        }
        let conn = match self.get_conn() {
            Ok(conn) => conn,
            Err(e) => {
                return Err(e);
            },
        };
        match execute_sql(&conn, sql.as_str()) {
            Ok(_) => Ok(()),
            Err(e) => Err(e),
        }
    }

    /// Resolve an identifier to its engine-assigned sequence number: exactly
    /// the query `id_lookup_sql(self.table@)` on the identifier's sixteen-byte
    /// form.  An identifier the table does not hold surfaces as the engine's
    /// no-rows error.
    fn get_id_from_uuid(&self, uuid: EventId) -> Result<i64, RusqliteError> {
        let sql = build_sql("SELECT id FROM ", self.table.as_str(), " WHERE uuid = ? LIMIT 1");
        proof {
            assert(sql@ == id_lookup_sql(self.table@));
        }
        let conn = match self.get_conn() {
            Ok(conn) => conn,
            Err(e) => {
                return Err(e);
            },
        };
        let blob = uuid.to_bytes();
        query_single_int(&conn, sql.as_str(), &blob)
    }

    /// Publish one event: insert `(uuid, payload)` as a row of the table,
    /// the identifier in its sixteen-byte form, and let the engine assign the
    /// sequence number.  On success the result is exactly the identifier
    /// published.  Publishing an identifier the table already holds violates
    /// the table's uniqueness constraint and fails with the engine's error;
    /// the table keeps the row it had.  A failure is always an engine
    /// failure.
    pub fn publish(&self, uuid: EventId, payload: &Vec<u8>) -> (r: Result<EventId, Error>)
        ensures
            r matches Ok(id) ==> id == uuid,
            r matches Err(e) ==> e is SqliteError,
    {
        let sql = build_sql("INSERT INTO ", self.table.as_str(), " (uuid, payload) VALUES (?, ?)");
        proof {
            assert(sql@ == insert_sql(self.table@));
        }
        let conn = match self.get_conn() {
            Ok(conn) => conn,
            Err(e) => {
                return Err(
                    Error::SqliteError(e, String::from_str("failed to open the database to publish")),
                );
            },
        };
        let blob = uuid.to_bytes();
        match execute_insert(&conn, sql.as_str(), &blob, payload) {
            Ok(_) => Ok(uuid),
            Err(e) => Err(Error::SqliteError(e, String::from_str("failed to publish event"))),
        }
    }

    /// The identifier of the most recently published event, `None` on an
    /// empty table: exactly the query `latest_sql(self.table@)`, read at call
    /// time, with the engine's row made into the result by `latest_from_row`.
    /// Whatever the engine returned, a failure is an engine failure or a
    /// malformed stored identifier, never anything else.
    pub fn get_latest_event(&self) -> (r: Result<Option<EventId>, Error>)
        ensures
            r matches Err(e) ==> e is SqliteError || e is UuidError,
    {
        let sql = build_sql("SELECT uuid FROM ", self.table.as_str(), " ORDER BY id DESC LIMIT 1");
        proof {
            assert(sql@ == latest_sql(self.table@));
        }
        let conn = match self.get_conn() {
            Ok(conn) => conn,
            Err(e) => {
                return Err(
                    Error::SqliteError(
                        e,
                        String::from_str("failed to open the database for the latest event"),
                    ),
                );
            },
        };
        match query_single_blob(&conn, sql.as_str()) {
            Ok(row) => latest_from_row(row),
            Err(e) => Err(
                Error::SqliteError(e, String::from_str("sqlite error when getting latest event")),
            ),
        }
    }

    /// Every event of the table in sequence order, eagerly materialized (the
    /// whole result is read before this returns; a caller of a large log pays
    /// that memory).  With `starting_from` given, the identifier is first
    /// resolved to its sequence number — an identifier the table does not
    /// hold makes the whole read a single error element — and the rows at or
    /// after it are read, the resumption point inclusive.  Each row is
    /// converted on its own by `rows_to_events`, whose contract states the
    /// conversion exactly; a failure to open or query the database is a
    /// single error element.  Whatever the engine returned, the result is
    /// either that single error element or the elementwise conversion of some
    /// row sequence, and every error element is an engine failure or a
    /// malformed stored identifier.
    pub fn read_events(&self, starting_from: Option<EventId>) -> (r: Vec<
        Result<KnownEvent<Vec<u8>>, Error>,
    >)
        ensures
            forall|i: int|
                0 <= i < r@.len() ==> (#[trigger] r@[i] matches Err(e) ==> e is SqliteError
                    || e is UuidError),
            (r@.len() == 1 && r@[0] is Err) || (exists|rows: Seq<(Seq<u8>, Seq<u8>)>|
                realizes_rows(rows, r@)),
    {
        let seq: Option<i64> = match starting_from {
            None => None,
            Some(uuid) => match self.get_id_from_uuid(uuid) {
                Ok(s) => Some(s),
                Err(e) => {
                    let mut out: Vec<Result<KnownEvent<Vec<u8>>, Error>> = Vec::new();
                    out.push(
                        Err(Error::SqliteError(e, String::from_str("failed to get id from UUID"))),
                    );
                    return out;
                },
            },
        };
        let conn = match self.get_conn() {
            Ok(conn) => conn,
            Err(e) => {
                let mut out: Vec<Result<KnownEvent<Vec<u8>>, Error>> = Vec::new();
                out.push(
                    Err(Error::SqliteError(e, String::from_str("failed to get Sqlite connection"))),
                );
                return out;
            },
        };
        let rows = match seq {
            None => {
                let sql = build_sql("SELECT id, uuid, payload FROM ", self.table.as_str(), " ORDER BY id");
                proof {
                    assert(sql@ == select_all_sql(self.table@));
                }
                query_event_rows(&conn, sql.as_str())
            },
            Some(s) => {
                let sql = build_sql(
                    "SELECT id, uuid, payload FROM ",
                    self.table.as_str(),
                    " WHERE id >= ? ORDER BY id",
                );
                proof {
                    assert(sql@ == select_from_sql(self.table@));
                }
                query_event_rows_from(&conn, sql.as_str(), s)
            },
        };
        match rows {
            Ok(rows) => {
                let events = rows_to_events(&rows);
                proof {
                    let grows = Seq::new(rows@.len() as nat, |i: int| (rows@[i].0@, rows@[i].1@));
                    assert(realizes_rows(grows, events@));
                    assert forall|i: int|
                        0 <= i < events@.len() implies (#[trigger] events@[i] matches Err(e)
                        ==> e is SqliteError || e is UuidError) by {
                        assert(row_matches(rows@[i].0@, rows@[i].1@, events@[i]));
                    }
                }
                events
            },
            Err(e) => {
                let mut out: Vec<Result<KnownEvent<Vec<u8>>, Error>> = Vec::new();
                out.push(Err(Error::SqliteError(e, String::from_str("failed to get rows"))));
                out
            },
        }
    }
}

} // verus!
