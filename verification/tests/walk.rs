use notechart_cache::db::{all_notecharts, all_sets};
use notechart_cache::new::{find_new, get_sets_and_notecharts};
use notechart_cache::{get_hash, memory_connection};
use std::io::{Read, Seek, Write};

#[test]
fn walk_groups_chart_files_by_directory() {
    let root = tempfile::TempDir::new().unwrap();
    let set_a = tempfile::Builder::new().prefix("SetA").tempdir_in(root.path()).unwrap();
    let set_b = tempfile::Builder::new().prefix("SetB").tempdir_in(root.path()).unwrap();
    let empty = tempfile::Builder::new().prefix("NoCharts").tempdir_in(root.path()).unwrap();

    let mut f1 = tempfile::Builder::new().suffix(".osu").tempfile_in(set_a.path()).unwrap();
    f1.write_all(b"[Metadata]\nArtist:A\n").unwrap();
    let mut f2 = tempfile::Builder::new().suffix(".osu").tempfile_in(set_a.path()).unwrap();
    f2.write_all(b"[Metadata]\nArtist:B\n").unwrap();
    let mut f3 = tempfile::Builder::new().suffix(".osu").tempfile_in(set_b.path()).unwrap();
    f3.write_all(b"[Metadata]\nArtist:C\n").unwrap();
    let mut other = tempfile::Builder::new().suffix(".txt").tempfile_in(empty.path()).unwrap();
    other.write_all(b"not a chart").unwrap();

    let cands = get_sets_and_notecharts(root.path().to_str().unwrap()).unwrap();
    assert_eq!(cands.len(), 2);
    let a = cands
        .iter()
        .find(|c| c.path == set_a.path().to_str().unwrap())
        .expect("set A found");
    assert_eq!(a.file_paths.len(), 2);
    let b = cands
        .iter()
        .find(|c| c.path == set_b.path().to_str().unwrap())
        .expect("set B found");
    assert_eq!(b.file_paths.len(), 1);
    assert_eq!(
        b.file_paths[0],
        f3.path().file_name().unwrap().to_str().unwrap()
    );
}

#[test]
fn walk_then_discover_inserts_real_files() {
    let root = tempfile::TempDir::new().unwrap();
    let set_a = tempfile::Builder::new().prefix("SetA").tempdir_in(root.path()).unwrap();
    let mut f1 = tempfile::Builder::new().suffix(".osu").tempfile_in(set_a.path()).unwrap();
    let content = b"[Metadata]\nTitle:Real\nArtist:OnDisk\n".to_vec();
    f1.write_all(&content).unwrap();
    f1.flush().unwrap();

    let cands = get_sets_and_notecharts(root.path().to_str().unwrap()).unwrap();
    assert_eq!(cands.len(), 1);

    // read each candidate file back, as a sync run would
    let mut contents = Vec::new();
    for c in &cands {
        let mut per_set = Vec::new();
        for _name in &c.file_paths {
            let mut buf = Vec::new();
            let mut handle = f1.reopen().unwrap();
            handle.rewind().unwrap();
            handle.read_to_end(&mut buf).unwrap();
            per_set.push(Ok(buf));
        }
        contents.push(per_set);
    }

    let mut conn = memory_connection().unwrap();
    find_new(&mut conn, &cands, contents).unwrap();
    let sets = all_sets(&conn).unwrap();
    assert_eq!(sets.len(), 1);
    assert_eq!(sets[0].path, set_a.path().to_str().unwrap());
    let rows = all_notecharts(&conn).unwrap();
    assert_eq!(rows.len(), 1);
    assert_eq!(rows[0].hash, get_hash(&content));
}

#[test]
fn walking_a_missing_root_fails() {
    let err = get_sets_and_notecharts("/nonexistent/zqx/root").unwrap_err();
    assert_eq!(err.kind(), std::io::ErrorKind::NotFound);
}
