use notechart_cache::changed::{fix_changed, ChartContent};
use notechart_cache::db::{all_notecharts, all_sets, get_notechart};
use notechart_cache::new::{find_new, get_set_id, is_notechart_exists};
use notechart_cache::new::NotechartSetDir;
use notechart_cache::{get_hash, memory_connection, update, DirScan};

fn store() -> rusqlite::Connection {
    memory_connection().expect("in-memory store")
}

fn cand(path: &str, files: &[&str]) -> NotechartSetDir {
    NotechartSetDir {
        id: 0,
        path: path.to_string(),
        file_paths: files.iter().map(|f| f.to_string()).collect(),
    }
}

fn chart(title: &str, artist: &str) -> Vec<u8> {
    format!(
        "[General]\nAudioFilename: song.mp3\n[Metadata]\nTitle:{}\nArtist:{}\nVersion:Normal\n[Events]\n0,0,\"bg.png\",0,0\n",
        title, artist
    )
    .into_bytes()
}

/// Store empty; one directory with two distinct charts: one set row, two
/// notechart rows attributed to it.
#[test]
fn scenario_two_new_charts_one_set() {
    let mut conn = store();
    let c1 = chart("One", "A");
    let c2 = chart("Two", "B");
    let sets = vec![cand("R/SetA", &["chart1.osu", "chart2.osu"])];
    find_new(&mut conn, &sets, vec![vec![Ok(c1.clone()), Ok(c2.clone())]]).expect("discover");

    let set_rows = all_sets(&conn).unwrap();
    assert_eq!(set_rows.len(), 1);
    assert_eq!(set_rows[0].path, "R/SetA");
    let set_id = set_rows[0].id;
    assert_eq!(get_set_id(&conn, "R/SetA").unwrap(), Some(set_id));

    let rows = all_notecharts(&conn).unwrap();
    assert_eq!(rows.len(), 2);
    for r in &rows {
        assert_eq!(r.set_id, set_id);
        assert_eq!(r.set_path, "R/SetA");
    }
    let hashes: Vec<String> = rows.iter().map(|r| r.hash.clone()).collect();
    assert!(hashes.contains(&get_hash(&c1)));
    assert!(hashes.contains(&get_hash(&c2)));
    assert!(is_notechart_exists(&get_hash(&c1), &conn).unwrap());
    assert!(!is_notechart_exists(&get_hash(b"other"), &conn).unwrap());
}

/// As above, then chart1 is edited: the count stays two, chart1's row
/// keeps its id and set but gets the new hash and metadata, chart2's row
/// is untouched.
#[test]
fn scenario_edit_updates_hash_and_metadata() {
    let mut conn = store();
    let c1 = chart("One", "A");
    let c2 = chart("Two", "B");
    let sets = vec![cand("R/SetA", &["chart1.osu", "chart2.osu"])];
    find_new(&mut conn, &sets, vec![vec![Ok(c1.clone()), Ok(c2.clone())]]).unwrap();

    let before = all_notecharts(&conn).unwrap();
    let r1 = before.iter().find(|r| r.filename == "chart1.osu").unwrap().clone();
    let r2 = before.iter().find(|r| r.filename == "chart2.osu").unwrap().clone();

    let c1_new = chart("One (remastered)", "A2");
    let observed = vec![
        ChartContent { id: r1.id, content: Ok(c1_new.clone()) },
        ChartContent { id: r2.id, content: Ok(c2.clone()) },
    ];
    fix_changed(&mut conn, &observed).expect("reconcile");

    let after = all_notecharts(&conn).unwrap();
    assert_eq!(after.len(), 2);
    let a1 = after.iter().find(|r| r.id == r1.id).unwrap();
    assert_eq!(a1.hash, get_hash(&c1_new));
    assert_eq!(a1.set_id, r1.set_id);
    assert_eq!(a1.filename, "chart1.osu");
    let m1 = get_notechart(&conn, r1.id).unwrap().unwrap();
    assert_eq!(m1.artist, "A2");
    assert_eq!(m1.title, "One (remastered)");
    let a2 = after.iter().find(|r| r.id == r2.id).unwrap();
    assert_eq!(a2.hash, r2.hash);
}

/// As above, then chart2's file disappears: exactly that row goes away.
#[test]
fn scenario_removed_file_deletes_exactly_one_row() {
    let mut conn = store();
    let c1 = chart("One", "A");
    let c2 = chart("Two", "B");
    let sets = vec![cand("R/SetA", &["chart1.osu", "chart2.osu"])];
    find_new(&mut conn, &sets, vec![vec![Ok(c1.clone()), Ok(c2.clone())]]).unwrap();
    let before = all_notecharts(&conn).unwrap();
    let r1 = before.iter().find(|r| r.filename == "chart1.osu").unwrap().clone();
    let r2 = before.iter().find(|r| r.filename == "chart2.osu").unwrap().clone();

    let observed = vec![
        ChartContent { id: r1.id, content: Ok(c1.clone()) },
        ChartContent {
            id: r2.id,
            content: Err(std::io::Error::new(std::io::ErrorKind::NotFound, "gone")),
        },
    ];
    fix_changed(&mut conn, &observed).expect("reconcile");

    let after = all_notecharts(&conn).unwrap();
    assert_eq!(after.len(), 1);
    assert_eq!(after[0].id, r1.id);
    assert_eq!(after[0].hash, r1.hash);
    assert!(get_notechart(&conn, r2.id).unwrap().is_none());
}

/// A previously unseen directory with two charts adds exactly one set
/// row and two chart rows pointing at it.
#[test]
fn scenario_new_set_attribution() {
    let mut conn = store();
    find_new(
        &mut conn,
        &vec![cand("R/SetA", &["a.osu"])],
        vec![vec![Ok(chart("A", "A"))]],
    )
    .unwrap();
    assert_eq!(all_sets(&conn).unwrap().len(), 1);

    let c1 = chart("B1", "B");
    let c2 = chart("B2", "B");
    find_new(
        &mut conn,
        &vec![cand("R/SetB", &["b1.osu", "b2.osu"])],
        vec![vec![Ok(c1.clone()), Ok(c2.clone())]],
    )
    .unwrap();

    let set_rows = all_sets(&conn).unwrap();
    assert_eq!(set_rows.len(), 2);
    let b_id = set_rows.iter().find(|s| s.path == "R/SetB").unwrap().id;
    let rows = all_notecharts(&conn).unwrap();
    assert_eq!(rows.len(), 3);
    let b_rows: Vec<_> = rows.iter().filter(|r| r.set_id == b_id).collect();
    assert_eq!(b_rows.len(), 2);
    for r in &b_rows {
        assert_eq!(r.set_path, "R/SetB");
    }
}

/// Byte-identical content in two different directories yields one chart
/// row, whichever directory is scanned first.
#[test]
fn scenario_duplicate_content_inserted_once() {
    for flip in [false, true] {
        let mut conn = store();
        let same = chart("Same", "S");
        let mut sets = vec![cand("R/SetA", &["a.osu"]), cand("R/SetB", &["b.osu"])];
        let mut contents = vec![vec![Ok(same.clone())], vec![Ok(same.clone())]];
        if flip {
            sets.reverse();
            contents.reverse();
        }
        find_new(&mut conn, &sets, contents).unwrap();
        assert_eq!(all_sets(&conn).unwrap().len(), 2);
        let rows = all_notecharts(&conn).unwrap();
        assert_eq!(rows.len(), 1);
        assert_eq!(rows[0].hash, get_hash(&same));
    }
}

/// Running a full sync twice with nothing changed on disk writes nothing
/// the second time: both relations read back identical.
#[test]
fn scenario_second_sync_is_identity() {
    let mut conn = store();
    let c1 = chart("One", "A");
    let c2 = chart("Two", "B");

    let scans = |c1: &Vec<u8>, c2: &Vec<u8>| {
        vec![DirScan {
            sets: vec![cand("R/SetA", &["chart1.osu", "chart2.osu"])],
            contents: vec![vec![Ok(c1.clone()), Ok(c2.clone())]],
        }]
    };

    let reports = update(&mut conn, &vec![], scans(&c1, &c2)).expect("first run");
    assert!(reports.iter().all(|r| r.is_none()));

    let sets_before = all_sets(&conn).unwrap();
    let rows_before = all_notecharts(&conn).unwrap();

    // second run: every cached file reads back unchanged
    let observed: Vec<ChartContent> = rows_before
        .iter()
        .map(|r| ChartContent {
            id: r.id,
            content: Ok(if r.filename == "chart1.osu" { c1.clone() } else { c2.clone() }),
        })
        .collect();
    let reports = update(&mut conn, &observed, scans(&c1, &c2)).expect("second run");
    assert!(reports.iter().all(|r| r.is_none()));

    let sets_after = all_sets(&conn).unwrap();
    let rows_after = all_notecharts(&conn).unwrap();
    assert_eq!(sets_before.len(), sets_after.len());
    assert_eq!(rows_before.len(), rows_after.len());
    for s in &sets_before {
        let t = sets_after.iter().find(|t| t.id == s.id).unwrap();
        assert_eq!(t.path, s.path);
    }
    for r in &rows_before {
        let t = rows_after.iter().find(|t| t.id == r.id).unwrap();
        assert_eq!(t.hash, r.hash);
        assert_eq!(t.set_id, r.set_id);
        assert_eq!(t.filename, r.filename);
    }
}

/// Unique hashes and unique set paths hold after any mix of operations.
#[test]
fn uniqueness_of_hashes_and_paths() {
    let mut conn = store();
    let c1 = chart("One", "A");
    let c2 = chart("Two", "B");
    find_new(
        &mut conn,
        &vec![cand("R/SetA", &["a.osu"]), cand("R/SetB", &["b.osu", "dup.osu"])],
        vec![vec![Ok(c1.clone())], vec![Ok(c2.clone()), Ok(c1.clone())]],
    )
    .unwrap();
    // re-discover the same tree
    find_new(
        &mut conn,
        &vec![cand("R/SetA", &["a.osu"]), cand("R/SetB", &["b.osu", "dup.osu"])],
        vec![vec![Ok(c1.clone())], vec![Ok(c2.clone()), Ok(c1.clone())]],
    )
    .unwrap();
    let sets = all_sets(&conn).unwrap();
    let rows = all_notecharts(&conn).unwrap();
    assert_eq!(sets.len(), 2);
    assert_eq!(rows.len(), 2);
    for (i, a) in sets.iter().enumerate() {
        for (j, b) in sets.iter().enumerate() {
            if i != j {
                assert_ne!(a.path, b.path);
            }
        }
    }
    for (i, a) in rows.iter().enumerate() {
        for (j, b) in rows.iter().enumerate() {
            if i != j {
                assert_ne!(a.hash, b.hash);
            }
        }
    }
}

/// An unreadable file aborts the whole directory's discovery before
/// anything is written.
#[test]
fn unreadable_file_aborts_directory() {
    let mut conn = store();
    let err = notechart_cache::new::find_new(
        &mut conn,
        &vec![cand("R/SetA", &["a.osu", "b.osu"])],
        vec![vec![
            Ok(chart("A", "A")),
            Err(std::io::Error::new(std::io::ErrorKind::PermissionDenied, "no")),
        ]],
    )
    .unwrap_err();
    assert_eq!(err.describe(), "Failed to read file");
    assert_eq!(all_sets(&conn).unwrap().len(), 0);
    assert_eq!(all_notecharts(&conn).unwrap().len(), 0);
}

/// A store created by this library carries exactly the declared schema,
/// so the layout check accepts it; a foreign table layout is rejected.
#[test]
fn schema_check_accepts_own_store() {
    let conn = store();
    assert_eq!(notechart_cache::db::schema_matches(&conn).unwrap(), true);

    let other = rusqlite::Connection::open_in_memory().unwrap();
    other
        .execute_batch("CREATE TABLE notecharts (id INTEGER, hash TEXT); CREATE TABLE notechart_sets (id INTEGER, path TEXT);")
        .unwrap();
    assert_eq!(notechart_cache::db::schema_matches(&other).unwrap(), false);
    let missing = rusqlite::Connection::open_in_memory().unwrap();
    assert_eq!(notechart_cache::db::schema_matches(&missing).unwrap(), false);
}

/// Reading the relations of a database that was never initialized fails
/// with a select error.
#[test]
fn select_on_uninitialized_store_fails() {
    let conn = rusqlite::Connection::open_in_memory().unwrap();
    let err = all_notecharts(&conn).unwrap_err();
    assert_eq!(err.describe(), "Failed to select row");
    let err = all_sets(&conn).unwrap_err();
    assert_eq!(err.describe(), "Failed to select row");
}
