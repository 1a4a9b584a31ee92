//! Content-addressed metadata cache for notechart files.
//!
//! The cache keeps two relations, notechart sets (directories) and
//! notecharts (chart files), in a sqlite database and keeps them in
//! step with the filesystem: changed files are re-read, vanished files
//! are dropped, new files are discovered and attributed to their set.

use vstd::prelude::*;

pub mod changed;
pub mod db;
pub mod error;
pub mod new;
pub mod parse;

verus! {

/// A row of the notechart set relation: a directory that holds chart files.
#[derive(Debug)]
pub struct NotechartSet {
    pub id: i64,
    pub path: String,
}

/// One parsed chart file's cached record.
#[derive(Debug)]
pub struct CachedNoteChart {
    pub id: i64,
    pub set_id: Option<i64>,
    pub artist: String,
    pub title: String,
    pub version: String,
    pub path: String,
    pub background: String,
    pub audio: String,
}

/// Opens the cache at its fixed location, creating the two relations if
/// they are absent, and verifies that the stored schema is this
/// library's (UNIQUE constraints included): a store with another layout
/// is rejected, so an open store satisfies the store invariant.
pub fn get_connection() -> (r: Result<rusqlite::Connection, rusqlite::Error>)
    ensures
        r matches Ok(c) ==> db::store_inv(db::db_sets(c), db::db_charts(c)),
{
    let mut conn = match db::open_connection("userdata/notechart.db") {
        Ok(c) => c,
        Err(e) => return Err(e),
    };
    if let Err(e) = create_default(&mut conn) {
        return Err(e);
    }
    match db::schema_matches(&conn) {
        Ok(true) => Ok(conn),
        Ok(false) => Err(db::schema_mismatch_error(&conn)),
        Err(e) => Err(e),
    }
}

/// Opens a fresh cache held in memory: empty, and satisfying the store
/// invariant.
pub fn memory_connection() -> (r: Result<rusqlite::Connection, rusqlite::Error>)
    ensures
        r matches Ok(c) ==> db::store_is_empty(c) && db::store_inv(db::db_sets(c), db::db_charts(c)),
{
    let mut conn = match db::open_memory() {
        Ok(c) => c,
        Err(e) => return Err(e),
    };
    match create_default(&mut conn) {
        Ok(_) => Ok(conn),
        Err(e) => Err(e),
    }
}

/// Makes sure the two relations exist; row contents are untouched.
fn create_default(conn: &mut rusqlite::Connection) -> (r: Result<(), rusqlite::Error>)
    ensures
        db::db_sets(*final(conn)) == db::db_sets(*old(conn)),
        db::db_charts(*final(conn)) == db::db_charts(*old(conn)),
{
    db::create_tables(conn)
}

// ---------------------------------------------------------------------------
// Content hashing
// ---------------------------------------------------------------------------

/// The lowercase hex digit of a value below 16.
pub open spec fn hex_digit(n: int) -> char {
    if n == 0 {
        '0'
    } else if n == 1 {
        '1'
    } else if n == 2 {
        '2'
    } else if n == 3 {
        '3'
    } else if n == 4 {
        '4'
    } else if n == 5 {
        '5'
    } else if n == 6 {
        '6'
    } else if n == 7 {
        '7'
    } else if n == 8 {
        '8'
    } else if n == 9 {
        '9'
    } else if n == 10 {
        'a'
    } else if n == 11 {
        'b'
    } else if n == 12 {
        'c'
    } else if n == 13 {
        'd'
    } else if n == 14 {
        'e'
    } else {
        'f'
    }
}

/// Lowercase hex rendering of a byte sequence, two digits per byte.
pub open spec fn hex_of(bytes: Seq<u8>) -> Seq<char>
    decreases bytes.len(),
{
    if bytes.len() == 0 {
        Seq::<char>::empty()
    } else {
        hex_of(bytes.drop_last()).push(hex_digit((bytes.last() as int) / 16)).push(
            hex_digit((bytes.last() as int) % 16),
        )
    }
}

pub proof fn lemma_hex_of_len(bytes: Seq<u8>)
    ensures
        hex_of(bytes).len() == 2 * bytes.len(),
    decreases bytes.len(),
{
    if bytes.len() > 0 {
        lemma_hex_of_len(bytes.drop_last());
    }
}

/// The content digest as stored and compared: the SHA-256 of the bytes,
/// rendered as 64 lowercase hex digits.
#[verifier::opaque]
pub open spec fn content_hash(data: Seq<u8>) -> Seq<char> {
    hex_of(db::sha256_of(data))
}

fn push_hex_digit(s: &mut String, d: u8)
    requires
        d < 16,
    ensures
        final(s)@ == old(s)@.push(hex_digit(d as int)),
{
    match d {
        0 => {
            s.append("0");
            proof {
                reveal_strlit("0");
                assert(s@ =~= old(s)@.push(hex_digit(d as int)));
            }
        },
        1 => {
            s.append("1");
            proof {
                reveal_strlit("1");
                assert(s@ =~= old(s)@.push(hex_digit(d as int)));
            }
        },
        2 => {
            s.append("2");
            proof {
                reveal_strlit("2");
                assert(s@ =~= old(s)@.push(hex_digit(d as int)));
            }
        },
        3 => {
            s.append("3");
            proof {
                reveal_strlit("3");
                assert(s@ =~= old(s)@.push(hex_digit(d as int)));
            }
        },
        4 => {
            s.append("4");
            proof {
                reveal_strlit("4");
                assert(s@ =~= old(s)@.push(hex_digit(d as int)));
            }
        },
        5 => {
            s.append("5");
            proof {
                reveal_strlit("5");
                assert(s@ =~= old(s)@.push(hex_digit(d as int)));
            }
        },
        6 => {
            s.append("6");
            proof {
                reveal_strlit("6");
                assert(s@ =~= old(s)@.push(hex_digit(d as int)));
            }
        },
        7 => {
            s.append("7");
            proof {
                reveal_strlit("7");
                assert(s@ =~= old(s)@.push(hex_digit(d as int)));
            }
        },
        8 => {
            s.append("8");
            proof {
                reveal_strlit("8");
                assert(s@ =~= old(s)@.push(hex_digit(d as int)));
            }
        },
        9 => {
            s.append("9");
            proof {
                reveal_strlit("9");
                assert(s@ =~= old(s)@.push(hex_digit(d as int)));
            }
        },
        10 => {
            s.append("a");
            proof {
                reveal_strlit("a");
                assert(s@ =~= old(s)@.push(hex_digit(d as int)));
            }
        },
        11 => {
            s.append("b");
            proof {
                reveal_strlit("b");
                assert(s@ =~= old(s)@.push(hex_digit(d as int)));
            }
        },
        12 => {
            s.append("c");
            proof {
                reveal_strlit("c");
                assert(s@ =~= old(s)@.push(hex_digit(d as int)));
            }
        },
        13 => {
            s.append("d");
            proof {
                reveal_strlit("d");
                assert(s@ =~= old(s)@.push(hex_digit(d as int)));
            }
        },
        14 => {
            s.append("e");
            proof {
                reveal_strlit("e");
                assert(s@ =~= old(s)@.push(hex_digit(d as int)));
            }
        },
        _ => {
            s.append("f");
            proof {
                reveal_strlit("f");
                assert(s@ =~= old(s)@.push(hex_digit(d as int)));
            }
        },
    }
}

/// Renders bytes as lowercase hex, two digits per byte.
pub fn to_hex(bytes: &Vec<u8>) -> (r: String)
    ensures
        r@ == hex_of(bytes@),
{
    let mut r = String::new();
    let n = bytes.len();
    let mut i: usize = 0;
    while i < n
        invariant
            i <= n,
            n == bytes@.len(),
            r@ == hex_of(bytes@.take(i as int)),
        decreases n - i,
    {
        let b = bytes[i];
        push_hex_digit(&mut r, b / 16);
        push_hex_digit(&mut r, b % 16);
        proof {
            assert(bytes@.take((i + 1) as int).drop_last() =~= bytes@.take(i as int));
            assert(r@ =~= hex_of(bytes@.take((i + 1) as int)));
        }
        i = i + 1;
    }
    proof {
        assert(bytes@.take(n as int) =~= bytes@);
    }
    r
}

/// The content digest of a byte string, as a 64-character lowercase hex
/// string.  The whole byte string is digested at once; callers that read
/// files hand their full contents in.
pub fn get_hash(content: &[u8]) -> (r: String)
    ensures
        r@ == content_hash(content@),
        r@.len() == 64,
{
    let digest = db::sha256_digest(content);
    proof {
        reveal(content_hash);
        lemma_hex_of_len(digest@);
    }
    to_hex(&digest)
}

// ---------------------------------------------------------------------------
// The sync run
// ---------------------------------------------------------------------------

/// What one root directory's discovery needs: its candidate sets and,
/// for each candidate file, the outcome of reading it.
pub struct DirScan {
    pub sets: Vec<new::NotechartSetDir>,
    pub contents: Vec<Vec<Result<Vec<u8>, std::io::Error>>>,
}

/// A scan is well formed when contents and candidates line up and no two
/// candidates share a path.
pub open spec fn scan_wf(s: DirScan) -> bool {
    &&& s.contents@.len() == s.sets@.len()
    &&& forall|i: int|
        0 <= i < s.sets@.len() ==> (#[trigger] s.contents@[i])@.len()
            == s.sets@[i].file_paths@.len()
    &&& forall|i1: int, i2: int|
        0 <= i1 < s.sets@.len() && 0 <= i2 < s.sets@.len() && i1 != i2 ==> (#[trigger] s.sets@[
            i1
        ]).path@ != (#[trigger] s.sets@[i2]).path@
}

/// After a fully successful run: the old set rows are all kept, the
/// reconciled chart rows are all kept, and the store invariant is
/// preserved.
pub open spec fn run_kept(
    sets0: Map<i64, Seq<char>>,
    charts0: Map<i64, db::ChartRow>,
    rec: Map<i64, db::ChartRow>,
    sets_f: Map<i64, Seq<char>>,
    charts_f: Map<i64, db::ChartRow>,
) -> bool {
    &&& (forall|id: i64|
        #[trigger] sets0.contains_key(id) ==> sets_f.contains_key(id) && sets_f[id] == sets0[id])
    &&& (forall|id: i64|
        #[trigger] rec.contains_key(id) ==> charts_f.contains_key(id) && charts_f[id] == rec[id])
    &&& (db::store_inv(sets0, charts0) ==> db::store_inv(sets_f, charts_f))
}

/// Every candidate path of this scan has a set row, and every candidate
/// file's bytes were read and hash to a chart row.
pub open spec fn scan_present(
    s: DirScan,
    sets_f: Map<i64, Seq<char>>,
    charts_f: Map<i64, db::ChartRow>,
) -> bool {
    &&& (forall|i: int|
        0 <= i < s.sets@.len() ==> db::path_present(sets_f, (#[trigger] s.sets@[i]).path@))
    &&& (forall|i: int, j: int|
        #![trigger s.contents@[i]@[j]]
        0 <= i < s.contents@.len() && 0 <= j < s.contents@[i]@.len() ==> s.contents@[i]@[j] is Ok
            && db::hash_present(charts_f, content_hash(s.contents@[i]@[j]->Ok_0@)))
}

/// Every directory reported successful holds its candidates in the store.
pub open spec fn dirs_done(
    scans: Seq<DirScan>,
    reports: Seq<Option<error::CacheError>>,
    upto: int,
    sets_f: Map<i64, Seq<char>>,
    charts_f: Map<i64, db::ChartRow>,
) -> bool {
    forall|d: int|
        0 <= d < upto && (#[trigger] reports[d]) is None ==> scan_present(
            scans[d],
            sets_f,
            charts_f,
        )
}

/// The chart row derives from some scanned candidate file.
pub open spec fn row_from_scans(
    row: db::ChartRow,
    scans: Seq<DirScan>,
    sets_f: Map<i64, Seq<char>>,
) -> bool {
    exists|d: int|
        0 <= d < scans.len() && new::new_row_from(
            row,
            (#[trigger] scans[d]).sets@,
            scans[d].contents@,
            sets_f,
        )
}

/// The path is some scanned candidate directory's.
pub open spec fn path_from_scans(p: Seq<char>, scans: Seq<DirScan>) -> bool {
    exists|d: int, i: int|
        #![trigger scans[d].sets@[i]]
        0 <= d < scans.len() && 0 <= i < scans[d].sets@.len() && p == scans[d].sets@[i].path@
}

/// One of the error kinds a discovery pass can report.
pub open spec fn discovery_error(e: error::CacheError) -> bool {
    e is FileReadError || e is DbSelectError || e is TransactionError || e is DbInsertError
}

/// A scan's candidates stay present when the store's rows are kept.
proof fn lemma_scan_present_persists(
    s: DirScan,
    sets_a: Map<i64, Seq<char>>,
    charts_a: Map<i64, db::ChartRow>,
    sets_b: Map<i64, Seq<char>>,
    charts_b: Map<i64, db::ChartRow>,
)
    requires
        scan_present(s, sets_a, charts_a),
        forall|id: i64|
            #[trigger] sets_a.contains_key(id) ==> sets_b.contains_key(id) && sets_b[id]
                == sets_a[id],
        forall|id: i64|
            #[trigger] charts_a.contains_key(id) ==> charts_b.contains_key(id) && charts_b[id]
                == charts_a[id],
    ensures
        scan_present(s, sets_b, charts_b),
{
    assert forall|i: int| 0 <= i < s.sets@.len() implies db::path_present(
        sets_b,
        (#[trigger] s.sets@[i]).path@,
    ) by {
        let w = choose|w: i64|
            #[trigger] sets_a.contains_key(w) && sets_a[w] == s.sets@[i].path@;
        assert(sets_b.contains_key(w) && sets_b[w] == s.sets@[i].path@);
    }
    assert forall|i: int, j: int|
        #![trigger s.contents@[i]@[j]]
        0 <= i < s.contents@.len() && 0 <= j < s.contents@[i]@.len() implies s.contents@[i]@[
        j
    ] is Ok && db::hash_present(charts_b, content_hash(s.contents@[i]@[j]->Ok_0@)) by {
        let w = choose|w: i64|
            #[trigger] charts_a.contains_key(w) && charts_a[w].hash == content_hash(
                s.contents@[i]@[j]->Ok_0@,
            );
        assert(charts_b.contains_key(w) && charts_b[w].hash == content_hash(
            s.contents@[i]@[j]->Ok_0@,
        ));
    }
}

/// One full sync run: reconciles every cached chart against the observed
/// file contents, commits, then runs discovery over each scanned root
/// directory in order.  A directory whose discovery fails is reported in
/// the result and does not stop the remaining directories.  On success:
/// old set rows and reconciled chart rows are kept, every successfully
/// scanned directory's candidate paths and content hashes are in the
/// store, any other new row derives from a scanned candidate, and the
/// store invariant is preserved.
#[verifier::rlimit(100)]
pub fn update(
    conn: &mut rusqlite::Connection,
    observed: &Vec<changed::ChartContent>,
    scans: Vec<DirScan>,
) -> (r: Result<Vec<Option<error::CacheError>>, error::CacheError>)
    requires
        forall|d: int| 0 <= d < scans@.len() ==> scan_wf(#[trigger] scans@[d]),
    ensures
        r matches Ok(reports) ==> reports@.len() == scans@.len(),
        r matches Ok(reports) ==> {
            let sets0 = db::db_sets(*old(conn));
            let charts0 = db::db_charts(*old(conn));
            let rec = changed::reconcile_spec(charts0, sets0, observed@);
            let sets_f = db::db_sets(*final(conn));
            let charts_f = db::db_charts(*final(conn));
            &&& run_kept(sets0, charts0, rec, sets_f, charts_f)
            &&& dirs_done(scans@, reports@, scans@.len() as int, sets_f, charts_f)
            &&& (forall|id: i64|
                #[trigger] charts_f.contains_key(id) && !rec.contains_key(id) ==> row_from_scans(
                    charts_f[id],
                    scans@,
                    sets_f,
                ))
            &&& (forall|id: i64|
                #[trigger] sets_f.contains_key(id) && !sets0.contains_key(id) ==> path_from_scans(
                    sets_f[id],
                    scans@,
                ))
            &&& (forall|d: int|
                0 <= d < reports@.len() ==> ((#[trigger] reports@[d]) matches Some(e)
                    ==> discovery_error(e)))
        },
        r matches Err(e) ==> e is DbSelectError || e is TransactionError || e is DbUpdateError
            || e is DbDeleteError,
        r is Err ==> db::db_sets(*final(conn)) == db::db_sets(*old(conn)),
        r is Err ==> db::db_charts(*final(conn)) == db::db_charts(*old(conn)),
{
    let ghost sets0 = db::db_sets(*conn);
    let ghost charts0 = db::db_charts(*conn);
    if let Err(e) = changed::fix_changed(conn, observed) {
        return Err(e);
    }
    let ghost rec = changed::reconcile_spec(charts0, sets0, observed@);
    let ghost scans0 = scans@;
    let mut scans = scans;
    let mut reports: Vec<Option<error::CacheError>> = Vec::new();
    let nd = scans.len();
    let mut d: usize = 0;
    proof {
        assert(scans0.skip(0) =~= scans0);
        assert(run_kept(sets0, charts0, rec, db::db_sets(*conn), db::db_charts(*conn)));
    }
    while d < nd
        invariant
            d <= nd,
            nd == scans0.len(),
            scans@ == scans0.skip(d as int),
            reports@.len() == d,
            forall|d2: int| 0 <= d2 < scans0.len() ==> scan_wf(#[trigger] scans0[d2]),
            sets0 == db::db_sets(*old(conn)),
            charts0 == db::db_charts(*old(conn)),
            rec == changed::reconcile_spec(charts0, sets0, observed@),
            run_kept(sets0, charts0, rec, db::db_sets(*conn), db::db_charts(*conn)),
            dirs_done(scans0, reports@, d as int, db::db_sets(*conn), db::db_charts(*conn)),
            forall|id: i64|
                #[trigger] db::db_charts(*conn).contains_key(id) && !rec.contains_key(id)
                    ==> row_from_scans(db::db_charts(*conn)[id], scans0, db::db_sets(*conn)),
            forall|id: i64|
                #[trigger] db::db_sets(*conn).contains_key(id) && !sets0.contains_key(id)
                    ==> path_from_scans(db::db_sets(*conn)[id], scans0),
            forall|d2: int|
                0 <= d2 < d ==> ((#[trigger] reports@[d2]) matches Some(e) ==> discovery_error(
                    e,
                )),
        decreases nd - d,
    {
        proof {
            assert(scans0.skip(d as int)[0] == scans0[d as int]);
            assert(scans0.skip(d as int).remove(0) =~= scans0.skip(d as int + 1));
            assert(scan_wf(scans0[d as int]));
        }
        let scan = scans.remove(0);
        let ghost sets_mid = db::db_sets(*conn);
        let ghost charts_mid = db::db_charts(*conn);
        let res = new::find_new(conn, &scan.sets, scan.contents);
        proof {
            let sets_now = db::db_sets(*conn);
            let charts_now = db::db_charts(*conn);
            // both outcomes keep old set rows and, for Err, the charts whole
            assert forall|id: i64| #[trigger] sets0.contains_key(id) implies sets_now.contains_key(
                id,
            ) && sets_now[id] == sets0[id] by {
                assert(sets_mid.contains_key(id) && sets_mid[id] == sets0[id]);
            }
            assert forall|id: i64| #[trigger] rec.contains_key(id) implies charts_now.contains_key(
                id,
            ) && charts_now[id] == rec[id] by {
                assert(charts_mid.contains_key(id) && charts_mid[id] == rec[id]);
            }
            assert(run_kept(sets0, charts0, rec, sets_now, charts_now));
            // candidates of earlier successful directories stay present
            assert forall|d2: int|
                0 <= d2 < d && (#[trigger] reports@[d2]) is None implies scan_present(
                scans0[d2],
                sets_now,
                charts_now,
            ) by {
                lemma_scan_present_persists(
                    scans0[d2],
                    sets_mid,
                    charts_mid,
                    sets_now,
                    charts_now,
                );
            }
            // rows beyond the reconciled ones still derive from scans
            assert forall|id: i64|
                #[trigger] charts_now.contains_key(id) && !rec.contains_key(id)
                    implies row_from_scans(charts_now[id], scans0, sets_now) by {
                if charts_mid.contains_key(id) {
                    assert(charts_now[id] == charts_mid[id]);
                    let d2 = choose|d2: int|
                        0 <= d2 < scans0.len() && new::new_row_from(
                            charts_mid[id],
                            (#[trigger] scans0[d2]).sets@,
                            scans0[d2].contents@,
                            sets_mid,
                        );
                    new::lemma_new_row_from_persists(
                        charts_mid[id],
                        scans0[d2].sets@,
                        scans0[d2].contents@,
                        sets_mid,
                        sets_now,
                    );
                } else {
                    assert(res is Ok);
                    assert(new::new_row_from(
                        charts_now[id],
                        scans0[d as int].sets@,
                        scans0[d as int].contents@,
                        sets_now,
                    ));
                }
            }
            // new set rows carry scanned candidate paths
            assert forall|id: i64|
                #[trigger] sets_now.contains_key(id) && !sets0.contains_key(id)
                    implies path_from_scans(sets_now[id], scans0) by {
                if sets_mid.contains_key(id) {
                    assert(sets_now[id] == sets_mid[id]);
                } else {
                    let i = choose|i: int|
                        0 <= i < scans0[d as int].sets@.len() && sets_now[id] == (
                        #[trigger] scans0[d as int].sets@[i]).path@;
                    assert(scans0[d as int].sets@[i].path@ == sets_now[id]);
                }
            }
        }
        match res {
            Ok(_) => {
                reports.push(None);
                proof {
                    assert(scan_present(
                        scans0[d as int],
                        db::db_sets(*conn),
                        db::db_charts(*conn),
                    ));
                }
            },
            Err(e) => {
                reports.push(Some(e));
            },
        }
        d = d + 1;
    }
    proof {
        assert(reports@.len() == scans0.len());
    }
    Ok(reports)
}

} // verus!
