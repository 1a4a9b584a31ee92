//! Reconciliation: bringing existing cache rows in line with the current
//! state of their files.
//!
//! The caller observes every cached chart's file (by id) and hands the
//! outcome in: the file's bytes, or the read error for a file that is
//! gone.  Classification and the transactional apply are verified: a
//! chart whose bytes hash to the stored value is untouched, a chart
//! whose bytes hash differently gets a full update from the fresh
//! bytes, a chart whose file is unreadable is deleted.

use vstd::prelude::*;
use crate::db;
use crate::db::ChartRow;
use crate::error::CacheError;
use crate::parse;

verus! {

/// A cached notechart row as the reconciler reads it: identity, stored
/// hash, and the pieces that rebuild its on-disk path.
#[derive(Debug, Clone)]
pub struct ChangedNotechart {
    pub id: i64,
    pub set_id: i64,
    pub hash: String,
    pub set_path: String,
    pub filename: String,
}

/// What the caller observed of one cached chart's file: its bytes, or
/// the error that reading them gave.
pub struct ChartContent {
    pub id: i64,
    pub content: Result<Vec<u8>, std::io::Error>,
}

// ---------------------------------------------------------------------------
// Classification, specified
// ---------------------------------------------------------------------------

/// Index of the first observation for `id`, or -1.
pub open spec fn find_obs(obs: Seq<ChartContent>, id: i64) -> int
    decreases obs.len(),
{
    if obs.len() == 0 {
        -1
    } else if obs[0].id == id {
        0
    } else {
        let r = find_obs(obs.drop_first(), id);
        if r < 0 {
            -1
        } else {
            r + 1
        }
    }
}

pub proof fn lemma_find_obs(obs: Seq<ChartContent>, id: i64)
    ensures
        -1 <= find_obs(obs, id) < obs.len(),
        find_obs(obs, id) >= 0 ==> obs[find_obs(obs, id)].id == id,
        find_obs(obs, id) == -1 ==> forall|k: int| 0 <= k < obs.len() ==> obs[k].id != id,
    decreases obs.len(),
{
    if obs.len() > 0 && obs[0].id != id {
        lemma_find_obs(obs.drop_first(), id);
        assert forall|k: int| find_obs(obs, id) == -1 && 0 <= k < obs.len() implies obs[k].id
            != id by {
            if k > 0 {
                assert(obs.drop_first()[k - 1] == obs[k]);
            }
        }
    }
}

/// `find_obs` finds the first matching index.
pub proof fn lemma_find_obs_at(obs: Seq<ChartContent>, id: i64, k: int)
    requires
        0 <= k < obs.len(),
        obs[k].id == id,
        forall|j: int| 0 <= j < k ==> obs[j].id != id,
    ensures
        find_obs(obs, id) == k,
    decreases obs.len(),
{
    if k > 0 {
        assert forall|j: int| 0 <= j < k - 1 implies obs.drop_first()[j].id != id by {
            assert(obs.drop_first()[j] == obs[j + 1]);
        }
        assert(obs.drop_first()[k - 1] == obs[k]);
        lemma_find_obs_at(obs.drop_first(), id, k - 1);
    }
}

/// The chart's file was observed unreadable: it is gone.
pub open spec fn obs_removed(obs: Seq<ChartContent>, id: i64) -> bool {
    find_obs(obs, id) >= 0 && obs[find_obs(obs, id)].content is Err
}

/// The chart's file was observed with these bytes.
pub open spec fn obs_bytes(obs: Seq<ChartContent>, id: i64) -> Seq<u8> {
    obs[find_obs(obs, id)].content->Ok_0@
}

/// The chart's file was read and its bytes hash differently from `h`.
pub open spec fn obs_changed(obs: Seq<ChartContent>, id: i64, h: Seq<char>) -> bool {
    find_obs(obs, id) >= 0 && obs[find_obs(obs, id)].content is Ok && crate::content_hash(
        obs_bytes(obs, id),
    ) != h
}

/// The row a changed chart is updated to: fresh hash and metadata from
/// the observed bytes; identity, owning set and filename are kept.
pub open spec fn reconciled_row(row: ChartRow, bytes: Seq<u8>) -> ChartRow {
    ChartRow {
        set_id: row.set_id,
        hash: crate::content_hash(bytes),
        artist: parse::extracted_artist(parse::utf8_decode_of(bytes)),
        title: parse::extracted_title(parse::utf8_decode_of(bytes)),
        version: parse::extracted_version(parse::utf8_decode_of(bytes)),
        filename: row.filename,
        audio: parse::extracted_audio(parse::utf8_decode_of(bytes)),
        background: parse::extracted_background(parse::utf8_decode_of(bytes)),
    }
}

/// The chart relation after one reconciliation pass.  Rows whose owning
/// set is missing are skipped; observed-unreadable rows go away; observed
/// rows with a differing hash are rewritten from their bytes; everything
/// else is untouched.
pub open spec fn reconcile_spec(
    charts: Map<i64, ChartRow>,
    sets: Map<i64, Seq<char>>,
    obs: Seq<ChartContent>,
) -> Map<i64, ChartRow> {
    Map::<i64, ChartRow>::new(
        |id: i64|
            charts.contains_key(id) && !(sets.contains_key(charts[id].set_id) && obs_removed(
                obs,
                id,
            )),
        |id: i64|
            if sets.contains_key(charts[id].set_id) && obs_changed(obs, id, charts[id].hash) {
                reconciled_row(charts[id], obs_bytes(obs, id))
            } else {
                charts[id]
            },
    )
}

/// With no observation reporting a removed or changed file, one
/// reconciliation pass keeps the chart relation exactly as it is.
pub proof fn lemma_reconcile_unchanged(
    charts: Map<i64, ChartRow>,
    sets: Map<i64, Seq<char>>,
    obs: Seq<ChartContent>,
)
    requires
        forall|id: i64|
            charts.contains_key(id) ==> !obs_removed(obs, id) && !obs_changed(
                obs,
                id,
                charts[id].hash,
            ),
    ensures
        reconcile_spec(charts, sets, obs) == charts,
{
    assert(reconcile_spec(charts, sets, obs) =~= charts);
}

// ---------------------------------------------------------------------------
// Classification, executed
// ---------------------------------------------------------------------------

/// Position of the observation for `id`, if any.
fn find_content(observed: &Vec<ChartContent>, id: i64) -> (r: Option<usize>)
    ensures
        match r {
            Some(k) => k < observed@.len() && find_obs(observed@, id) == k as int,
            None => find_obs(observed@, id) == -1,
        },
{
    let n = observed.len();
    let mut k: usize = 0;
    while k < n
        invariant
            k <= n,
            n == observed@.len(),
            forall|j: int| 0 <= j < k ==> observed@[j].id != id,
        decreases n - k,
    {
        if observed[k].id == id {
            proof {
                lemma_find_obs_at(observed@, id, k as int);
            }
            return Some(k);
        }
        k = k + 1;
    }
    proof {
        lemma_find_obs(observed@, id);
        if find_obs(observed@, id) >= 0 {
            assert(observed@[find_obs(observed@, id)].id == id);
        }
    }
    None
}

/// A reconciler row, abstractly.
pub ghost struct ClassRow {
    pub id: i64,
    pub set_id: i64,
    pub hash: Seq<char>,
    pub set_path: Seq<char>,
    pub filename: Seq<char>,
}

pub open spec fn class_of(r: ChangedNotechart) -> ClassRow {
    ClassRow { id: r.id, set_id: r.set_id, hash: r.hash@, set_path: r.set_path@, filename: r.filename@ }
}

/// The abstract row of a changed chart: its hash replaced by the hash of
/// the observed bytes.
pub open spec fn class_changed(r: ChangedNotechart, obs: Seq<ChartContent>) -> ClassRow {
    ClassRow {
        id: r.id,
        set_id: r.set_id,
        hash: crate::content_hash(obs_bytes(obs, r.id)),
        set_path: r.set_path@,
        filename: r.filename@,
    }
}

/// The rows classified as changed, in order, with their new hashes.
pub open spec fn changed_spec(rows: Seq<ChangedNotechart>, obs: Seq<ChartContent>) -> Seq<
    ClassRow,
>
    decreases rows.len(),
{
    if rows.len() == 0 {
        Seq::<ClassRow>::empty()
    } else {
        changed_spec(rows.drop_last(), obs) + (if obs_changed(
            obs,
            rows.last().id,
            rows.last().hash@,
        ) {
            seq![class_changed(rows.last(), obs)]
        } else {
            Seq::<ClassRow>::empty()
        })
    }
}

/// The rows classified as removed, in order.
pub open spec fn removed_spec(rows: Seq<ChangedNotechart>, obs: Seq<ChartContent>) -> Seq<
    ClassRow,
>
    decreases rows.len(),
{
    if rows.len() == 0 {
        Seq::<ClassRow>::empty()
    } else {
        removed_spec(rows.drop_last(), obs) + (if obs_removed(obs, rows.last().id) {
            seq![class_of(rows.last())]
        } else {
            Seq::<ClassRow>::empty()
        })
    }
}

/// Classifies every row against the observations: rows whose bytes hash
/// differently come back in the first vector, with the new hash filled
/// in; rows whose file was unreadable come back in the second.
pub fn find_changed_notecharts(rows: &Vec<ChangedNotechart>, observed: &Vec<ChartContent>) -> (r: (
    Vec<ChangedNotechart>,
    Vec<ChangedNotechart>,
))
    ensures
        r.0@.map_values(|c: ChangedNotechart| class_of(c)) == changed_spec(rows@, observed@),
        r.1@.map_values(|c: ChangedNotechart| class_of(c)) == removed_spec(rows@, observed@),
{
    let n = rows.len();
    let mut changed: Vec<ChangedNotechart> = Vec::new();
    let mut removed: Vec<ChangedNotechart> = Vec::new();
    let mut k: usize = 0;
    proof {
        assert(rows@.take(0) =~= Seq::<ChangedNotechart>::empty());
        assert(changed@.map_values(|c: ChangedNotechart| class_of(c)) =~= changed_spec(
            rows@.take(0),
            observed@,
        ));
        assert(removed@.map_values(|c: ChangedNotechart| class_of(c)) =~= removed_spec(
            rows@.take(0),
            observed@,
        ));
    }
    while k < n
        invariant
            k <= n,
            n == rows@.len(),
            changed@.map_values(|c: ChangedNotechart| class_of(c)) == changed_spec(
                rows@.take(k as int),
                observed@,
            ),
            removed@.map_values(|c: ChangedNotechart| class_of(c)) == removed_spec(
                rows@.take(k as int),
                observed@,
            ),
        decreases n - k,
    {
        let row = &rows[k];
        proof {
            assert(rows@[k as int] == *row);
            assert(rows@.take(k as int + 1).drop_last() =~= rows@.take(k as int));
            assert(rows@.take(k as int + 1).last() == rows@[k as int]);
        }
        match find_content(observed, row.id) {
            Some(c) => {
                match &observed[c].content {
                    Ok(bytes) => {
                        proof {
                            assert(observed@[c as int].content is Ok);
                            assert(obs_bytes(observed@, row.id) == bytes@);
                        }
                        let new_hash = crate::get_hash(bytes.as_slice());
                        if new_hash != row.hash {
                            proof {
                                assert(obs_changed(observed@, rows@[k as int].id, rows@[
                                    k as int
                                ].hash@));
                            }
                            changed.push(ChangedNotechart {
                                id: row.id,
                                set_id: row.set_id,
                                hash: new_hash,
                                set_path: row.set_path.clone(),
                                filename: row.filename.clone(),
                            });
                            proof {
                                assert(class_of(changed@.last()) == class_changed(
                                    rows@[k as int],
                                    observed@,
                                ));
                            }
                        } else {
                            proof {
                                assert(!obs_changed(observed@, rows@[k as int].id, rows@[
                                    k as int
                                ].hash@));
                                assert(!obs_removed(observed@, rows@[k as int].id));
                            }
                        }
                    },
                    Err(_) => {
                        proof {
                            assert(obs_removed(observed@, rows@[k as int].id));
                            assert(!obs_changed(observed@, rows@[k as int].id, rows@[
                                k as int
                            ].hash@));
                        }
                        removed.push(ChangedNotechart {
                            id: row.id,
                            set_id: row.set_id,
                            hash: row.hash.clone(),
                            set_path: row.set_path.clone(),
                            filename: row.filename.clone(),
                        });
                        proof {
                            assert(class_of(removed@.last()) == class_of(rows@[k as int]));
                        }
                    },
                }
            },
            None => {
                proof {
                    lemma_find_obs(observed@, row.id);
                    assert(!obs_changed(observed@, rows@[k as int].id, rows@[k as int].hash@));
                    assert(!obs_removed(observed@, rows@[k as int].id));
                }
            },
        }
        proof {
            assert(changed@.map_values(|c: ChangedNotechart| class_of(c)) =~= changed_spec(
                rows@.take(k as int + 1),
                observed@,
            ));
            assert(removed@.map_values(|c: ChangedNotechart| class_of(c)) =~= removed_spec(
                rows@.take(k as int + 1),
                observed@,
            ));
        }
        k = k + 1;
    }
    proof {
        assert(rows@.take(n as int) =~= rows@);
    }
    (changed, removed)
}

// ---------------------------------------------------------------------------
// Applying the reconciliation
// ---------------------------------------------------------------------------

/// Index of the first row with this id, or -1.
pub open spec fn row_index(rows: Seq<ChangedNotechart>, id: i64) -> int
    decreases rows.len(),
{
    if rows.len() == 0 {
        -1
    } else if rows[0].id == id {
        0
    } else {
        let r = row_index(rows.drop_first(), id);
        if r < 0 {
            -1
        } else {
            r + 1
        }
    }
}

proof fn lemma_row_index(rows: Seq<ChangedNotechart>, id: i64)
    ensures
        -1 <= row_index(rows, id) < rows.len(),
        row_index(rows, id) >= 0 ==> rows[row_index(rows, id)].id == id,
        row_index(rows, id) == -1 ==> forall|k: int| 0 <= k < rows.len() ==> rows[k].id != id,
    decreases rows.len(),
{
    if rows.len() > 0 && rows[0].id != id {
        lemma_row_index(rows.drop_first(), id);
        assert forall|k: int| row_index(rows, id) == -1 && 0 <= k < rows.len() implies rows[k].id
            != id by {
            if k > 0 {
                assert(rows.drop_first()[k - 1] == rows[k]);
            }
        }
    }
}

proof fn lemma_row_index_at(rows: Seq<ChangedNotechart>, id: i64, k: int)
    requires
        0 <= k < rows.len(),
        rows[k].id == id,
        forall|j: int| 0 <= j < k ==> rows[j].id != id,
    ensures
        row_index(rows, id) == k,
    decreases rows.len(),
{
    if k > 0 {
        assert forall|j: int| 0 <= j < k - 1 implies rows.drop_first()[j].id != id by {
            assert(rows.drop_first()[j] == rows[j + 1]);
        }
        assert(rows.drop_first()[k - 1] == rows[k]);
        lemma_row_index_at(rows.drop_first(), id, k - 1);
    }
}

/// The chart relation after reconciling only the first `k` enumerated
/// rows.
pub open spec fn reconcile_upto(
    charts: Map<i64, ChartRow>,
    obs: Seq<ChartContent>,
    rows: Seq<ChangedNotechart>,
    k: int,
) -> Map<i64, ChartRow> {
    Map::<i64, ChartRow>::new(
        |id: i64|
            charts.contains_key(id) && !(0 <= row_index(rows, id) < k && obs_removed(obs, id)),
        |id: i64|
            if 0 <= row_index(rows, id) < k && obs_changed(obs, id, charts[id].hash) {
                reconciled_row(charts[id], obs_bytes(obs, id))
            } else {
                charts[id]
            },
    )
}

/// Reconciles the cache against the observed file contents: every cached
/// chart whose file was read unchanged is untouched, every chart whose
/// file was read with a differing hash is updated from those bytes, and
/// every chart whose file was unreadable is deleted, all in one
/// transaction.  Charts without an observation, and charts whose owning
/// set row is missing, are left alone.
#[verifier::rlimit(100)]
pub fn fix_changed(conn: &mut rusqlite::Connection, observed: &Vec<ChartContent>) -> (r: Result<
    (),
    CacheError,
>)
    ensures
        r is Ok ==> db::db_sets(*final(conn)) == db::db_sets(*old(conn)),
        r is Ok ==> db::db_charts(*final(conn)) == reconcile_spec(
            db::db_charts(*old(conn)),
            db::db_sets(*old(conn)),
            observed@,
        ),
        r is Ok && db::charts_unique(db::db_charts(*old(conn))) ==> db::charts_unique(
            db::db_charts(*final(conn)),
        ),
        r matches Err(e) ==> e is DbSelectError || e is TransactionError || e is DbUpdateError
            || e is DbDeleteError,
        r is Err ==> db::db_sets(*final(conn)) == db::db_sets(*old(conn)),
        r is Err ==> db::db_charts(*final(conn)) == db::db_charts(*old(conn)),
{
    let ghost charts0 = db::db_charts(*conn);
    let ghost sets0 = db::db_sets(*conn);
    let rows = match db::select_charts(conn) {
        Ok(v) => v,
        Err(e) => return Err(CacheError::DbSelectError(e)),
    };
    if let Err(e) = db::tx_begin(conn) {
        return Err(CacheError::TransactionError(e));
    }
    let n = rows.len();
    let mut k: usize = 0;
    proof {
        assert(reconcile_upto(charts0, observed@, rows@, 0) =~= charts0);
    }
    while k < n
        invariant
            k <= n,
            n == rows@.len(),
            db::db_sets(*conn) == sets0,
            db::db_charts(*conn) == reconcile_upto(charts0, observed@, rows@, k as int),
            db::charts_unique(charts0) ==> db::charts_unique(db::db_charts(*conn)),
            db::db_in_tx(*conn),
            db::db_saved_sets(*conn) == sets0,
            db::db_saved_charts(*conn) == charts0,
            sets0 == db::db_sets(*old(conn)),
            charts0 == db::db_charts(*old(conn)),
            forall|i: int|
                0 <= i < rows@.len() ==> {
                    let row = #[trigger] rows@[i];
                    &&& charts0.contains_key(row.id)
                    &&& charts0[row.id].set_id == row.set_id
                    &&& charts0[row.id].hash == row.hash@
                    &&& charts0[row.id].filename == row.filename@
                    &&& sets0.contains_key(row.set_id)
                },
            forall|i1: int, i2: int|
                0 <= i1 < rows@.len() && 0 <= i2 < rows@.len() && i1 != i2 ==> (#[trigger] rows@[
                    i1
                ]).id != (#[trigger] rows@[i2]).id,
        decreases n - k,
    {
        let row = &rows[k];
        let ghost id = row.id;
        let ghost before = db::db_charts(*conn);
        proof {
            assert(rows@[k as int] == *row);
            assert forall|j: int| 0 <= j < k implies rows@[j].id != id by {}
            lemma_row_index_at(rows@, id, k as int);
            lemma_row_index(rows@, id);
            assert(before.contains_key(id));
            assert(before[id] == charts0[id]);
        }
        match find_content(observed, row.id) {
            Some(ci) => {
                match &observed[ci].content {
                    Ok(bytes) => {
                        proof {
                            assert(observed@[ci as int].content is Ok);
                            assert(obs_bytes(observed@, id) == bytes@);
                        }
                        let new_hash = crate::get_hash(bytes.as_slice());
                        if new_hash != row.hash {
                            proof {
                                assert(obs_changed(observed@, id, charts0[id].hash));
                            }
                            let path = crate::new::full_path(
                                row.set_path.as_str(),
                                row.filename.as_str(),
                            );
                            let data = parse::get_notechart_data(path.as_str(), bytes);
                            let res = db::update_chart_row(
                                conn,
                                row.id,
                                row.set_id,
                                new_hash.as_str(),
                                data.artist.as_str(),
                                data.title.as_str(),
                                data.version.as_str(),
                                data.audio.as_str(),
                                data.background.as_str(),
                            );
                            if let Err(e) = res {
                                db::tx_rollback(conn);
                                proof {
                                    assert(db::db_sets(*conn) == sets0);
                                    assert(db::db_charts(*conn) == charts0);
                                }
                                return Err(CacheError::DbUpdateError(e));
                            }
                            proof {
                                let now = db::db_charts(*conn);
                                assert(now == before.insert(
                                    id,
                                    reconciled_row(charts0[id], obs_bytes(observed@, id)),
                                ));
                                if db::charts_unique(charts0) {
                                    assert forall|a: i64, b: i64|
                                        now.contains_key(a) && now.contains_key(b) && a
                                            != b implies now[a].hash != now[b].hash by {
                                        if a != id && b != id {
                                            assert(now[a] == before[a]);
                                            assert(now[b] == before[b]);
                                        } else if a == id {
                                            assert(now[b] == before[b]);
                                            assert(before.contains_key(b));
                                        } else {
                                            assert(now[a] == before[a]);
                                            assert(before.contains_key(a));
                                        }
                                    }
                                }
                            }
                        } else {
                            proof {
                                assert(!obs_changed(observed@, id, charts0[id].hash));
                                assert(!obs_removed(observed@, id));
                            }
                        }
                    },
                    Err(_) => {
                        proof {
                            assert(obs_removed(observed@, id));
                            assert(!obs_changed(observed@, id, charts0[id].hash));
                        }
                        if let Err(e) = db::delete_chart_row(conn, row.id) {
                            db::tx_rollback(conn);
                            proof {
                                assert(db::db_sets(*conn) == sets0);
                                assert(db::db_charts(*conn) == charts0);
                            }
                            return Err(CacheError::DbDeleteError(e));
                        }
                        proof {
                            let now = db::db_charts(*conn);
                            if db::charts_unique(charts0) {
                                assert forall|a: i64, b: i64|
                                    now.contains_key(a) && now.contains_key(b) && a
                                        != b implies now[a].hash != now[b].hash by {
                                    assert(now[a] == before[a]);
                                    assert(now[b] == before[b]);
                                }
                            }
                        }
                    },
                }
            },
            None => {
                proof {
                    lemma_find_obs(observed@, id);
                    assert(!obs_changed(observed@, id, charts0[id].hash));
                    assert(!obs_removed(observed@, id));
                }
            },
        }
        proof {
            let m1 = db::db_charts(*conn);
            let m2 = reconcile_upto(charts0, observed@, rows@, k as int + 1);
            assert forall|x: i64| m2.contains_key(x) == m1.contains_key(x) by {
                lemma_row_index(rows@, x);
            }
            assert forall|x: i64| m1.contains_key(x) && m2.contains_key(x) implies m1[x]
                == m2[x] by {
                lemma_row_index(rows@, x);
            }
            assert(m1 =~= m2);
        }
        k = k + 1;
    }
    if let Err(e) = db::tx_commit(conn) {
        db::tx_rollback(conn);
        proof {
            assert(db::db_sets(*conn) == sets0);
            assert(db::db_charts(*conn) == charts0);
        }
        return Err(CacheError::TransactionError(e));
    }
    proof {
        let m1 = db::db_charts(*conn);
        let m2 = reconcile_spec(charts0, sets0, observed@);
        assert forall|x: i64| m2.contains_key(x) == m1.contains_key(x) by {
            lemma_row_index(rows@, x);
            lemma_reconcile_visible(charts0, sets0, rows@, x);
        }
        assert forall|x: i64| m1.contains_key(x) && m2.contains_key(x) implies m1[x] == m2[x] by {
            lemma_row_index(rows@, x);
            lemma_reconcile_visible(charts0, sets0, rows@, x);
        }
        assert(m1 =~= m2);
    }
    Ok(())
}

/// A chart id is enumerated by the reconciler exactly when its row exists
/// and its owning set exists.
proof fn lemma_reconcile_visible(
    charts: Map<i64, ChartRow>,
    sets: Map<i64, Seq<char>>,
    rows: Seq<ChangedNotechart>,
    x: i64,
)
    requires
        forall|i: int|
            0 <= i < rows.len() ==> {
                let row = #[trigger] rows[i];
                &&& charts.contains_key(row.id)
                &&& charts[row.id].set_id == row.set_id
                &&& sets.contains_key(row.set_id)
            },
        forall|id: i64|
            #[trigger] charts.contains_key(id) && sets.contains_key(charts[id].set_id)
                ==> exists|i: int| 0 <= i < rows.len() && (#[trigger] rows[i]).id == id,
    ensures
        row_index(rows, x) >= 0 <==> (charts.contains_key(x) && sets.contains_key(
            charts[x].set_id,
        )),
{
    lemma_row_index(rows, x);
    if row_index(rows, x) >= 0 {
        assert(rows[row_index(rows, x)].id == x);
    }
    if charts.contains_key(x) && sets.contains_key(charts[x].set_id) {
        let i = choose|i: int| 0 <= i < rows.len() && (#[trigger] rows[i]).id == x;
        if row_index(rows, x) == -1 {
            assert(rows[i].id != x);
        }
    }
}

} // verus!
