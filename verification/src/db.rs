//! The persistent store: two sqlite relations behind trusted wrappers.
//!
//! The abstract contents of a connection's database are given by the two
//! uninterpreted maps [`db_sets`] and [`db_charts`]; every wrapper states
//! its effect on them.  A table that does not exist yet counts as empty.

use vstd::prelude::*;
use crate::changed::ChangedNotechart;
use crate::CachedNoteChart;
use crate::NotechartSet;
use rusqlite::OptionalExtension;
use sha2::Digest;

verus! {

#[verifier::external_type_specification]
#[verifier::external_body]
pub struct ExConnection(rusqlite::Connection);

#[verifier::external_type_specification]
#[verifier::external_body]
pub struct ExSqlError(rusqlite::Error);

#[verifier::external_type_specification]
#[verifier::external_body]
pub struct ExIoError(std::io::Error);

/// One notechart row, abstractly.
pub ghost struct ChartRow {
    pub set_id: i64,
    pub hash: Seq<char>,
    pub artist: Seq<char>,
    pub title: Seq<char>,
    pub version: Seq<char>,
    pub filename: Seq<char>,
    pub audio: Seq<char>,
    pub background: Seq<char>,
}

/// Contents of the `notechart_sets` relation: set id to directory path.
pub uninterp spec fn db_sets(conn: rusqlite::Connection) -> Map<i64, Seq<char>>;

/// Contents of the `notecharts` relation: notechart id to its row.
pub uninterp spec fn db_charts(conn: rusqlite::Connection) -> Map<i64, ChartRow>;

/// Whether the connection has an open transaction.
pub uninterp spec fn db_in_tx(conn: rusqlite::Connection) -> bool;

/// The set relation as it stood at the last BEGIN.
pub uninterp spec fn db_saved_sets(conn: rusqlite::Connection) -> Map<i64, Seq<char>>;

/// The chart relation as it stood at the last BEGIN.
pub uninterp spec fn db_saved_charts(conn: rusqlite::Connection) -> Map<i64, ChartRow>;

/// A failed statement or commit leaves the rows as they were, unless
/// sqlite rolled the whole open transaction back on its own (which the
/// sqlite sources allow on errors such as FULL, IOERR or BUSY): then the
/// rows stand as saved at the last BEGIN and the transaction is closed.
pub open spec fn error_outcome(pre: rusqlite::Connection, post: rusqlite::Connection) -> bool {
    ||| {
        &&& db_in_tx(post) == db_in_tx(pre)
        &&& db_sets(post) == db_sets(pre)
        &&& db_charts(post) == db_charts(pre)
    }
    ||| {
        &&& db_in_tx(pre)
        &&& !db_in_tx(post)
        &&& db_sets(post) == db_saved_sets(pre)
        &&& db_charts(post) == db_saved_charts(pre)
    }
}

/// Some set row holds this directory path.
pub open spec fn path_present(sets: Map<i64, Seq<char>>, p: Seq<char>) -> bool {
    exists|id: i64| #[trigger] sets.contains_key(id) && sets[id] == p
}

/// Some notechart row holds this content hash.
pub open spec fn hash_present(charts: Map<i64, ChartRow>, h: Seq<char>) -> bool {
    exists|id: i64| #[trigger] charts.contains_key(id) && charts[id].hash == h
}

/// Distinct set rows hold distinct paths.
pub open spec fn sets_unique(sets: Map<i64, Seq<char>>) -> bool {
    forall|a: i64, b: i64|
        sets.contains_key(a) && sets.contains_key(b) && a != b ==> sets[a] != sets[b]
}

/// Distinct notechart rows hold distinct hashes.
pub open spec fn charts_unique(charts: Map<i64, ChartRow>) -> bool {
    forall|a: i64, b: i64|
        charts.contains_key(a) && charts.contains_key(b) && a != b ==> charts[a].hash
            != charts[b].hash
}

/// The store's invariant: unique set paths, unique notechart hashes.
pub open spec fn store_inv(sets: Map<i64, Seq<char>>, charts: Map<i64, ChartRow>) -> bool {
    sets_unique(sets) && charts_unique(charts)
}

/// Relies on rusqlite::Connection::open, which opens (or creates) the
/// database file at `path`.  Nothing is promised of the contents: the
/// file on disk decides them, and `schema_matches` checks the layout.
#[verifier::external_body]
pub(crate) fn open_connection(path: &str) -> (r: Result<rusqlite::Connection, rusqlite::Error>)
{
    rusqlite::Connection::open(path)
}

/// Both relations hold no rows at all.
pub open spec fn store_is_empty(c: rusqlite::Connection) -> bool {
    db_sets(c) == Map::<i64, Seq<char>>::empty() && db_charts(c) == Map::<
        i64,
        ChartRow,
    >::empty()
}

/// Relies on rusqlite::Connection::open_in_memory: a fresh database holds
/// no rows at all.
#[verifier::external_body]
pub(crate) fn open_memory() -> (r: Result<rusqlite::Connection, rusqlite::Error>)
    ensures
        r matches Ok(c) ==> store_is_empty(c),
{
    rusqlite::Connection::open_in_memory()
}

/// Relies on rusqlite::Connection::execute_batch running two CREATE TABLE
/// IF NOT EXISTS statements: creating tables adds and removes no rows.
#[verifier::external_body]
pub(crate) fn create_tables(conn: &mut rusqlite::Connection) -> (r: Result<(), rusqlite::Error>)
    ensures
        db_sets(*final(conn)) == db_sets(*old(conn)),
        db_charts(*final(conn)) == db_charts(*old(conn)),
{
    conn.execute_batch(
        "CREATE TABLE IF NOT EXISTS notecharts (id INTEGER NOT NULL UNIQUE, set_id INTEGER NOT NULL, hash TEXT NOT NULL UNIQUE, artist TEXT, title TEXT, version TEXT, filename TEXT NOT NULL, audio TEXT, background TEXT, PRIMARY KEY(id AUTOINCREMENT)); CREATE TABLE IF NOT EXISTS notechart_sets (id INTEGER NOT NULL UNIQUE, path TEXT UNIQUE, PRIMARY KEY(id AUTOINCREMENT));",
    )
}

/// Relies on rusqlite::Connection::execute_batch with BEGIN: opening a
/// transaction reads and writes no rows; on success the current rows
/// become the transaction's saved state.
#[verifier::external_body]
pub(crate) fn tx_begin(conn: &mut rusqlite::Connection) -> (r: Result<(), rusqlite::Error>)
    ensures
        db_sets(*final(conn)) == db_sets(*old(conn)),
        db_charts(*final(conn)) == db_charts(*old(conn)),
        r is Ok ==> db_in_tx(*final(conn)),
        r is Ok ==> db_saved_sets(*final(conn)) == db_sets(*old(conn)),
        r is Ok ==> db_saved_charts(*final(conn)) == db_charts(*old(conn)),
{
    conn.execute_batch("BEGIN")
}

/// Relies on rusqlite::Connection::execute_batch with COMMIT: a
/// successful commit keeps the rows this connection already sees and
/// closes the transaction.  A failed commit leaves either the rows
/// unchanged with the transaction still open, or (when sqlite rolled
/// back on its own) the saved rows with the transaction closed.
#[verifier::external_body]
pub(crate) fn tx_commit(conn: &mut rusqlite::Connection) -> (r: Result<(), rusqlite::Error>)
    ensures
        r is Ok ==> db_sets(*final(conn)) == db_sets(*old(conn)),
        r is Ok ==> db_charts(*final(conn)) == db_charts(*old(conn)),
        r is Ok ==> !db_in_tx(*final(conn)),
        r is Err ==> db_saved_sets(*final(conn)) == db_saved_sets(*old(conn)),
        r is Err ==> db_saved_charts(*final(conn)) == db_saved_charts(*old(conn)),
        r is Err ==> error_outcome(*old(conn), *final(conn)),
{
    conn.execute_batch("COMMIT")
}

/// Relies on rusqlite::Connection::execute_batch with ROLLBACK, and on
/// sqlite's transaction atomicity: with a transaction open the rows
/// revert to the state saved at BEGIN; with none open (for instance
/// after sqlite already rolled back on its own) nothing changes and the
/// call's error is ignored.  Either way no transaction remains open.
#[verifier::external_body]
pub(crate) fn tx_rollback(conn: &mut rusqlite::Connection)
    ensures
        db_in_tx(*old(conn)) ==> db_sets(*final(conn)) == db_saved_sets(*old(conn)),
        db_in_tx(*old(conn)) ==> db_charts(*final(conn)) == db_saved_charts(*old(conn)),
        !db_in_tx(*old(conn)) ==> db_sets(*final(conn)) == db_sets(*old(conn)),
        !db_in_tx(*old(conn)) ==> db_charts(*final(conn)) == db_charts(*old(conn)),
        !db_in_tx(*final(conn)),
{
    let _ = conn.execute_batch("ROLLBACK");
}

/// Relies on rusqlite::Connection::query_row over `SELECT id FROM
/// notechart_sets WHERE path=?1`: an id comes back exactly when a set row
/// holds that path.
#[verifier::external_body]
pub(crate) fn select_set_id(conn: &rusqlite::Connection, path: &str) -> (r: Result<
    Option<i64>,
    rusqlite::Error,
>)
    ensures
        r matches Ok(Some(id)) ==> db_sets(*conn).contains_key(id) && db_sets(*conn)[id] == path@,
        r matches Ok(None) ==> !path_present(db_sets(*conn), path@),
{
    conn.query_row("SELECT id FROM notechart_sets WHERE path=?1", (path,), |row| row.get(0))
        .optional()
}

/// Relies on rusqlite::Connection::execute with `INSERT INTO
/// notechart_sets`, the UNIQUE constraint on `path`, AUTOINCREMENT row
/// ids (never reused), and last_insert_rowid for the fresh id.  A failed
/// insert changes no row itself, but sqlite may have rolled the open
/// transaction back (`error_outcome`).
#[verifier::external_body]
pub(crate) fn new_set(conn: &mut rusqlite::Connection, path: &str) -> (r: Result<
    i64,
    rusqlite::Error,
>)
    ensures
        r matches Ok(id) ==> !db_sets(*old(conn)).contains_key(id) && !path_present(
            db_sets(*old(conn)),
            path@,
        ) && db_sets(*final(conn)) == db_sets(*old(conn)).insert(id, path@) && db_charts(
            *final(conn),
        ) == db_charts(*old(conn)),
        r is Ok ==> db_in_tx(*final(conn)) == db_in_tx(*old(conn)),
        db_saved_sets(*final(conn)) == db_saved_sets(*old(conn)),
        db_saved_charts(*final(conn)) == db_saved_charts(*old(conn)),
        r is Err ==> error_outcome(*old(conn), *final(conn)),
{
    conn.execute("INSERT INTO notechart_sets (path) VALUES (?1)", (path,))?;
    Ok(conn.last_insert_rowid())
}

/// Relies on rusqlite::Connection::query_row over `SELECT EXISTS (SELECT 1
/// FROM notecharts WHERE hash=?1)`.
#[verifier::external_body]
pub(crate) fn chart_hash_exists(conn: &rusqlite::Connection, hash: &str) -> (r: Result<
    bool,
    rusqlite::Error,
>)
    ensures
        r matches Ok(b) ==> b == hash_present(db_charts(*conn), hash@),
{
    conn.query_row("SELECT EXISTS (SELECT 1 FROM notecharts WHERE hash = ?1)", (hash,), |row| {
        row.get(0)
    })
}

/// Relies on rusqlite::Connection::execute with `INSERT INTO notecharts`,
/// the UNIQUE constraint on `hash`, AUTOINCREMENT row ids (never reused),
/// and last_insert_rowid for the fresh id.
#[verifier::external_body]
pub(crate) fn insert_chart_row(
    conn: &mut rusqlite::Connection,
    set_id: i64,
    hash: &str,
    artist: &str,
    title: &str,
    version: &str,
    filename: &str,
    audio: &str,
    background: &str,
) -> (r: Result<i64, rusqlite::Error>)
    ensures
        r matches Ok(id) ==> !db_charts(*old(conn)).contains_key(id) && !hash_present(
            db_charts(*old(conn)),
            hash@,
        ) && db_charts(*final(conn)) == db_charts(*old(conn)).insert(
            id,
            (ChartRow {
                set_id: set_id,
                hash: hash@,
                artist: artist@,
                title: title@,
                version: version@,
                filename: filename@,
                audio: audio@,
                background: background@,
            }),
        ) && db_sets(*final(conn)) == db_sets(*old(conn)),
        r is Ok ==> db_in_tx(*final(conn)) == db_in_tx(*old(conn)),
        db_saved_sets(*final(conn)) == db_saved_sets(*old(conn)),
        db_saved_charts(*final(conn)) == db_saved_charts(*old(conn)),
        r is Err ==> error_outcome(*old(conn), *final(conn)),
{
    conn.execute(
        "INSERT INTO notecharts (set_id, hash, artist, title, version, filename, audio, background) VALUES (?1, ?2, ?3, ?4, ?5, ?6, ?7, ?8)",
        (set_id, hash, artist, title, version, filename, audio, background),
    )?;
    Ok(conn.last_insert_rowid())
}

/// Relies on rusqlite::Connection::execute with `UPDATE notecharts ...
/// WHERE id=?`: at most the one row with that id changes, and the UNIQUE
/// constraint on `hash` admits the new hash only when no other row holds
/// it.  The row's filename is not touched.
#[verifier::external_body]
pub(crate) fn update_chart_row(
    conn: &mut rusqlite::Connection,
    id: i64,
    set_id: i64,
    hash: &str,
    artist: &str,
    title: &str,
    version: &str,
    audio: &str,
    background: &str,
) -> (r: Result<(), rusqlite::Error>)
    ensures
        r is Ok && db_charts(*old(conn)).contains_key(id) ==> db_charts(*final(conn)) == db_charts(
            *old(conn),
        ).insert(
            id,
            (ChartRow {
                set_id: set_id,
                hash: hash@,
                artist: artist@,
                title: title@,
                version: version@,
                filename: db_charts(*old(conn))[id].filename,
                audio: audio@,
                background: background@,
            }),
        ) && (forall|o: i64|
            db_charts(*old(conn)).contains_key(o) && o != id ==> db_charts(*old(conn))[o].hash
                != hash@),
        r is Ok && !db_charts(*old(conn)).contains_key(id) ==> db_charts(*final(conn)) == db_charts(
            *old(conn),
        ),
        r is Ok ==> db_sets(*final(conn)) == db_sets(*old(conn)),
        r is Ok ==> db_in_tx(*final(conn)) == db_in_tx(*old(conn)),
        db_saved_sets(*final(conn)) == db_saved_sets(*old(conn)),
        db_saved_charts(*final(conn)) == db_saved_charts(*old(conn)),
        r is Err ==> error_outcome(*old(conn), *final(conn)),
{
    conn.execute(
        "UPDATE notecharts SET set_id=?1, hash=?2, artist=?3, title=?4, version=?5, audio=?6, background=?7 WHERE id=?8",
        (set_id, hash, artist, title, version, audio, background, id),
    )?;
    Ok(())
}

/// Relies on rusqlite::Connection::execute with `DELETE FROM notecharts
/// WHERE id=?1`: exactly the row with that id, if any, goes away.
#[verifier::external_body]
pub(crate) fn delete_chart_row(conn: &mut rusqlite::Connection, id: i64) -> (r: Result<
    (),
    rusqlite::Error,
>)
    ensures
        r is Ok ==> db_charts(*final(conn)) == db_charts(*old(conn)).remove(id) && db_sets(
            *final(conn),
        ) == db_sets(*old(conn)),
        r is Ok ==> db_in_tx(*final(conn)) == db_in_tx(*old(conn)),
        db_saved_sets(*final(conn)) == db_saved_sets(*old(conn)),
        db_saved_charts(*final(conn)) == db_saved_charts(*old(conn)),
        r is Err ==> error_outcome(*old(conn), *final(conn)),
{
    conn.execute("DELETE FROM notecharts WHERE id=?1", (id,))?;
    Ok(())
}

/// `v` enumerates exactly the notechart rows whose owning set exists,
/// faithfully and without repetition.
pub open spec fn charts_listing(
    v: Seq<ChangedNotechart>,
    sets: Map<i64, Seq<char>>,
    charts: Map<i64, ChartRow>,
) -> bool {
    &&& forall|k: int|
        0 <= k < v.len() ==> {
            let row = #[trigger] v[k];
            &&& charts.contains_key(row.id)
            &&& charts[row.id].set_id == row.set_id
            &&& charts[row.id].hash == row.hash@
            &&& charts[row.id].filename == row.filename@
            &&& sets.contains_key(row.set_id)
            &&& sets[row.set_id] == row.set_path@
        }
    &&& forall|k1: int, k2: int|
        0 <= k1 < v.len() && 0 <= k2 < v.len() && k1 != k2 ==> (#[trigger] v[k1]).id != (
        #[trigger] v[k2]).id
    &&& forall|id: i64|
        #[trigger] charts.contains_key(id) && sets.contains_key(charts[id].set_id) ==> exists|
            k: int,
        | 0 <= k < v.len() && (#[trigger] v[k]).id == id
}

/// `v` enumerates exactly the set rows, faithfully and without
/// repetition.
pub open spec fn sets_listing(v: Seq<NotechartSet>, sets: Map<i64, Seq<char>>) -> bool {
    &&& forall|k: int|
        0 <= k < v.len() ==> sets.contains_key((#[trigger] v[k]).id) && sets[v[k].id] == v[
            k
        ].path@
    &&& forall|k1: int, k2: int|
        0 <= k1 < v.len() && 0 <= k2 < v.len() && k1 != k2 ==> (#[trigger] v[k1]).id != (
        #[trigger] v[k2]).id
    &&& forall|id: i64|
        #[trigger] sets.contains_key(id) ==> exists|k: int|
            0 <= k < v.len() && (#[trigger] v[k]).id == id
}

/// Relies on rusqlite prepare/query_map over a join of the two relations:
/// one row per notechart whose owning set exists, carrying the set's path.
#[verifier::external_body]
pub(crate) fn select_charts(conn: &rusqlite::Connection) -> (r: Result<
    Vec<ChangedNotechart>,
    rusqlite::Error,
>)
    ensures
        r matches Ok(v) ==> charts_listing(v@, db_sets(*conn), db_charts(*conn)),
{
    let mut stmt = conn.prepare(
        "SELECT n.id, n.set_id, n.hash, n.filename, s.path FROM notecharts n JOIN notechart_sets s ON n.set_id = s.id",
    )?;
    let rows = stmt.query_map((), |row| {
        Ok(ChangedNotechart {
            id: row.get(0)?, set_id: row.get(1)?, hash: row.get(2)?,
            set_path: row.get(4)?, filename: row.get(3)?,
        })
    })?;
    rows.collect()
}

/// Relies on rusqlite prepare/query_map over `SELECT id, path FROM
/// notechart_sets`: one row per set.
#[verifier::external_body]
pub(crate) fn select_sets(conn: &rusqlite::Connection) -> (r: Result<
    Vec<NotechartSet>,
    rusqlite::Error,
>)
    ensures
        r matches Ok(v) ==> sets_listing(v@, db_sets(*conn)),
{
    let mut stmt = conn.prepare("SELECT id, path FROM notechart_sets")?;
    let rows = stmt.query_map((), |row| {
        Ok(NotechartSet { id: row.get(0)?, path: row.get(1)? })
    })?;
    rows.collect()
}

/// Relies on rusqlite::Connection::query_row over `SELECT ... FROM
/// notecharts WHERE id=?1`: the stored metadata of that one row.  The
/// returned record's `path` field carries the stored file name; `id` and
/// `set_id` carry the row's identity.
#[verifier::external_body]
pub(crate) fn select_chart_meta(conn: &rusqlite::Connection, id: i64) -> (r: Result<
    Option<CachedNoteChart>,
    rusqlite::Error,
>)
    ensures
        r matches Ok(Some(c)) ==> {
            let row = db_charts(*conn)[id];
            &&& db_charts(*conn).contains_key(id)
            &&& c.id == id
            &&& c.set_id == Some(row.set_id)
            &&& c.artist@ == row.artist
            &&& c.title@ == row.title
            &&& c.version@ == row.version
            &&& c.path@ == row.filename
            &&& c.audio@ == row.audio
            &&& c.background@ == row.background
        },
        r matches Ok(None) ==> !db_charts(*conn).contains_key(id),
{
    conn.query_row(
        "SELECT set_id, artist, title, version, filename, audio, background FROM notecharts WHERE id=?1",
        (id,),
        |row| {
            Ok(CachedNoteChart {
                id, set_id: Some(row.get(0)?), artist: row.get(1)?, title: row.get(2)?,
                path: row.get(4)?, audio: row.get(5)?, background: row.get(6)?,
                version: row.get(3)?,
            })
        },
    ).optional()
}

/// The SHA-256 digest of a byte sequence: a function of the bytes alone.
pub uninterp spec fn sha256_of(data: Seq<u8>) -> Seq<u8>;

/// Relies on sha2::Sha256 (via the Digest trait): the digest depends on
/// the bytes alone and is 32 bytes long.
#[verifier::external_body]
pub(crate) fn sha256_digest(data: &[u8]) -> (r: Vec<u8>)
    ensures
        r@ == sha256_of(data@),
        r@.len() == 32,
{
    sha2::Sha256::digest(data).to_vec()
}

/// Relies on walkdir::WalkDir with follow_links: every directory and file
/// under `root`, each as its path and whether it is a directory.  A walk
/// error aborts with the underlying io error.  Paths are rendered
/// lossily, so two entries may render to the same string; the grouping
/// deduplicates.
#[verifier::external_body]
pub(crate) fn walk_entries(root: &str) -> (r: Result<Vec<(String, bool)>, std::io::Error>)
{
    let mut v = Vec::new();
    for entry in walkdir::WalkDir::new(root).follow_links(true) {
        let e = entry?;
        v.push((e.path().display().to_string(), e.file_type().is_dir()));
    }
    Ok(v)
}

/// Relies on rusqlite::Connection::query_row over sqlite_master, which
/// stores each table's CREATE text, and on sqlite enforcing declared
/// constraints: a `notecharts` table whose stored text is this library's
/// declares `hash` UNIQUE, so its rows hold pairwise distinct hashes,
/// and likewise `notechart_sets.path`.
#[verifier::external_body]
pub(crate) fn table_schema(conn: &rusqlite::Connection, name: &str) -> (r: Result<
    Option<String>,
    rusqlite::Error,
>)
    ensures
        r matches Ok(Some(s)) && name@ == "notecharts"@ && s@
            == "CREATE TABLE notecharts (id INTEGER NOT NULL UNIQUE, set_id INTEGER NOT NULL, hash TEXT NOT NULL UNIQUE, artist TEXT, title TEXT, version TEXT, filename TEXT NOT NULL, audio TEXT, background TEXT, PRIMARY KEY(id AUTOINCREMENT))"@
            ==> charts_unique(db_charts(*conn)),
        r matches Ok(Some(s)) && name@ == "notechart_sets"@ && s@
            == "CREATE TABLE notechart_sets (id INTEGER NOT NULL UNIQUE, path TEXT UNIQUE, PRIMARY KEY(id AUTOINCREMENT))"@
            ==> sets_unique(db_sets(*conn)),
{
    conn.query_row(
        "SELECT sql FROM sqlite_master WHERE type='table' AND name=?1",
        (name,),
        |row| row.get(0),
    )
        .optional()
}

/// Relies on rusqlite::Connection::prepare failing on text that is not
/// SQL; used to surface a schema mismatch as the connection's own error.
#[verifier::external_body]
pub(crate) fn schema_mismatch_error(conn: &rusqlite::Connection) -> (r: rusqlite::Error)
{
    match conn.prepare("SCHEMA MISMATCH") {
        Ok(_) => rusqlite::Error::InvalidQuery,
        Err(e) => e,
    }
}

/// Whether the two relations carry this library's schema, UNIQUE
/// constraints included; `Ok(true)` establishes the store invariant.
pub fn schema_matches(conn: &rusqlite::Connection) -> (r: Result<bool, rusqlite::Error>)
    ensures
        r matches Ok(true) ==> store_inv(db_sets(*conn), db_charts(*conn)),
{
    let charts_sql = match table_schema(conn, "notecharts") {
        Ok(Some(s)) => s,
        Ok(None) => return Ok(false),
        Err(e) => return Err(e),
    };
    let expected_charts = String::from_str(
        "CREATE TABLE notecharts (id INTEGER NOT NULL UNIQUE, set_id INTEGER NOT NULL, hash TEXT NOT NULL UNIQUE, artist TEXT, title TEXT, version TEXT, filename TEXT NOT NULL, audio TEXT, background TEXT, PRIMARY KEY(id AUTOINCREMENT))",
    );
    if charts_sql != expected_charts {
        return Ok(false);
    }
    let sets_sql = match table_schema(conn, "notechart_sets") {
        Ok(Some(s)) => s,
        Ok(None) => return Ok(false),
        Err(e) => return Err(e),
    };
    let expected_sets = String::from_str(
        "CREATE TABLE notechart_sets (id INTEGER NOT NULL UNIQUE, path TEXT UNIQUE, PRIMARY KEY(id AUTOINCREMENT))",
    );
    if sets_sql != expected_sets {
        return Ok(false);
    }
    Ok(true)
}

/// Every notechart row whose owning set exists, with identity, stored
/// hash, file name and the owning set's path.
pub fn all_notecharts(conn: &rusqlite::Connection) -> (r: Result<
    Vec<ChangedNotechart>,
    crate::error::CacheError,
>)
    ensures
        r matches Ok(v) ==> charts_listing(v@, db_sets(*conn), db_charts(*conn)),
        r matches Err(e) ==> e is DbSelectError,
{
    match select_charts(conn) {
        Ok(v) => Ok(v),
        Err(e) => Err(crate::error::CacheError::DbSelectError(e)),
    }
}

/// Every set row, with identity and path.
pub fn all_sets(conn: &rusqlite::Connection) -> (r: Result<
    Vec<NotechartSet>,
    crate::error::CacheError,
>)
    ensures
        r matches Ok(v) ==> sets_listing(v@, db_sets(*conn)),
        r matches Err(e) ==> e is DbSelectError,
{
    match select_sets(conn) {
        Ok(v) => Ok(v),
        Err(e) => Err(crate::error::CacheError::DbSelectError(e)),
    }
}

/// The stored record of one notechart, if present.  The record's `path`
/// field carries the stored file name.
pub fn get_notechart(conn: &rusqlite::Connection, id: i64) -> (r: Result<
    Option<CachedNoteChart>,
    crate::error::CacheError,
>)
    ensures
        r matches Ok(Some(c)) ==> {
            let row = db_charts(*conn)[id];
            &&& db_charts(*conn).contains_key(id)
            &&& c.id == id
            &&& c.set_id == Some(row.set_id)
            &&& c.artist@ == row.artist
            &&& c.title@ == row.title
            &&& c.version@ == row.version
            &&& c.path@ == row.filename
            &&& c.audio@ == row.audio
            &&& c.background@ == row.background
        },
        r matches Ok(None) ==> !db_charts(*conn).contains_key(id),
        r matches Err(e) ==> e is DbSelectError,
{
    match select_chart_meta(conn, id) {
        Ok(o) => Ok(o),
        Err(e) => Err(crate::error::CacheError::DbSelectError(e)),
    }
}

} // verus!
