//! Discovery: walking root directories, grouping chart files into
//! candidate sets, and inserting previously unseen charts.

use vstd::prelude::*;
use vstd::string::*;

verus! {

// ---------------------------------------------------------------------------
// Path reasoning
// ---------------------------------------------------------------------------

/// Index of the last occurrence of `c` in `s`, or -1 if `c` does not occur.
pub open spec fn last_index_of(s: Seq<char>, c: char) -> int
    decreases s.len(),
{
    if s.len() == 0 {
        -1
    } else if s[s.len() - 1] == c {
        s.len() - 1
    } else {
        last_index_of(s.drop_last(), c)
    }
}

pub proof fn lemma_last_index_of(s: Seq<char>, c: char)
    ensures
        -1 <= last_index_of(s, c) < s.len(),
        last_index_of(s, c) >= 0 ==> s[last_index_of(s, c)] == c,
        forall|j: int| last_index_of(s, c) < j < s.len() ==> s[j] != c,
    decreases s.len(),
{
    if s.len() == 0 {
    } else if s[s.len() - 1] == c {
    } else {
        lemma_last_index_of(s.drop_last(), c);
        assert forall|j: int| last_index_of(s, c) < j < s.len() implies s[j] != c by {
            if j < s.len() - 1 {
                assert(s.drop_last()[j] == s[j]);
            }
        }
    }
}

/// `last_index_of` is the unique maximal index holding `c`.
pub proof fn lemma_last_index_of_unique(s: Seq<char>, c: char, k: int)
    requires
        if k == -1 {
            forall|j: int| 0 <= j < s.len() ==> s[j] != c
        } else {
            0 <= k < s.len() && s[k] == c && (forall|j: int| k < j < s.len() ==> s[j] != c)
        },
    ensures
        last_index_of(s, c) == k,
{
    lemma_last_index_of(s, c);
    if k == -1 {
        if last_index_of(s, c) >= 0 {
            assert(s[last_index_of(s, c)] == c);
        }
    } else {
        if last_index_of(s, c) < k {
            assert(s[k] != c);
        }
        if last_index_of(s, c) > k {
            assert(s[last_index_of(s, c)] != c);
        }
    }
}

/// The directory part of a path: everything before the last '/',
/// empty when the path holds no '/'.
pub open spec fn parent_of(p: Seq<char>) -> Seq<char> {
    if last_index_of(p, '/') < 0 {
        Seq::<char>::empty()
    } else {
        p.take(last_index_of(p, '/'))
    }
}

/// The file-name part of a path: everything after the last '/'.
pub open spec fn file_name_of(p: Seq<char>) -> Seq<char> {
    p.skip(last_index_of(p, '/') + 1)
}

/// A path names a notechart iff its file name has a non-empty stem and
/// the extension "osu".
pub open spec fn is_notechart_path(p: Seq<char>) -> bool {
    let name = file_name_of(p);
    let dot = last_index_of(name, '.');
    dot > 0 && name.skip(dot + 1) == seq!['o', 's', 'u']
}

/// `dir`, a path separator, then `name`.
pub open spec fn join_path(dir: Seq<char>, name: Seq<char>) -> Seq<char> {
    dir + seq!['/'] + name
}

/// Position of the last occurrence of `c` in `s`, if any.
fn rfind_char(s: &str, c: char) -> (r: Option<usize>)
    ensures
        match r {
            Some(i) => i < s@.len() && last_index_of(s@, c) == i as int,
            None => last_index_of(s@, c) == -1,
        },
{
    let n = s.unicode_len();
    let mut i = n;
    while i > 0
        invariant
            i <= n,
            n == s@.len(),
            forall|j: int| i <= j < n ==> s@[j] != c,
        decreases i,
    {
        if s.get_char(i - 1) == c {
            proof {
                lemma_last_index_of_unique(s@, c, i - 1);
            }
            return Some(i - 1);
        }
        i = i - 1;
    }
    proof {
        lemma_last_index_of_unique(s@, c, -1);
    }
    None
}

/// Directory part of `path`: everything before the last '/', the empty
/// string when there is none.
pub fn get_parent(path: &str) -> (r: &str)
    ensures
        r@ == parent_of(path@),
{
    match rfind_char(path, '/') {
        Some(i) => {
            let r = path.substring_char(0, i);
            proof {
                assert(r@ =~= parent_of(path@));
            }
            r
        },
        None => {
            proof {
                reveal_strlit("");
                assert(""@ =~= parent_of(path@));
            }
            ""
        },
    }
}

/// Whether `path` names a notechart file, decided by its extension.
pub fn is_notechart(path: &str) -> (r: bool)
    ensures
        r == is_notechart_path(path@),
{
    let n = path.unicode_len();
    let start: usize = match rfind_char(path, '/') {
        Some(i) => i + 1,
        None => 0,
    };
    proof {
        lemma_last_index_of(path@, '/');
        assert(file_name_of(path@) == path@.skip(start as int));
    }
    let dot: usize = match rfind_char(path, '.') {
        Some(d) => d,
        None => {
            proof {
                lemma_no_char_in_suffix(path@, '.', start as int);
            }
            return false;
        },
    };
    proof {
        lemma_last_index_of(path@, '.');
        lemma_skip_last_index(path@, '.', start as int);
    }
    if dot <= start {
        return false;
    }
    // extension is path@[dot+1 .. n]
    if n - dot != 4 {
        proof {
            assert(file_name_of(path@).skip(
                last_index_of(file_name_of(path@), '.') + 1,
            ).len() != 3);
        }
        return false;
    }
    let r = path.get_char(dot + 1) == 'o' && path.get_char(dot + 2) == 's' && path.get_char(
        dot + 3,
    ) == 'u';
    proof {
        let name = file_name_of(path@);
        let d = last_index_of(name, '.');
        assert(name.skip(d + 1) =~= path@.skip(dot + 1));
        assert(path@.skip(dot + 1).len() == 3);
        if r {
            assert(path@.skip(dot + 1) =~= seq!['o', 's', 'u']);
        } else {
            assert(path@.skip(dot + 1) != seq!['o', 's', 'u']) by {
                if path@.skip(dot + 1) == seq!['o', 's', 'u'] {
                    assert(path@.skip(dot + 1)[0] == 'o');
                    assert(path@.skip(dot + 1)[1] == 's');
                    assert(path@.skip(dot + 1)[2] == 'u');
                }
            }
        }
    }
    r
}

/// If the last occurrence of `c` in `p` is before `start`, the suffix from
/// `start` holds no `c`; otherwise its last occurrence sits at the shifted
/// position.
proof fn lemma_skip_last_index(p: Seq<char>, c: char, start: int)
    requires
        0 <= start <= p.len(),
    ensures
        last_index_of(p, c) >= start ==> last_index_of(p.skip(start), c) == last_index_of(p, c)
            - start,
        last_index_of(p, c) < start ==> last_index_of(p.skip(start), c) == -1,
{
    lemma_last_index_of(p, c);
    let k = last_index_of(p, c);
    if k >= start {
        assert(p.skip(start)[k - start] == p[k]);
        assert forall|j: int| k - start < j < p.skip(start).len() implies p.skip(start)[j] != c by {
            assert(p.skip(start)[j] == p[j + start]);
        }
        lemma_last_index_of_unique(p.skip(start), c, k - start);
    } else {
        assert forall|j: int| 0 <= j < p.skip(start).len() implies p.skip(start)[j] != c by {
            assert(p.skip(start)[j] == p[j + start]);
        }
        lemma_last_index_of_unique(p.skip(start), c, -1);
    }
}

/// When `p` holds no `c` at all, neither does any suffix.
proof fn lemma_no_char_in_suffix(p: Seq<char>, c: char, start: int)
    requires
        0 <= start <= p.len(),
        last_index_of(p, c) == -1,
    ensures
        last_index_of(p.skip(start), c) == -1,
        !is_notechart_path(p) || c != '.',
{
    lemma_skip_last_index(p, c, start);
    if c == '.' {
        lemma_last_index_of(p, '/');
        lemma_skip_last_index(p, '.', last_index_of(p, '/') + 1);
    }
}

/// Joins a set directory and a chart file name into the file's path.
pub fn full_path(dir: &str, name: &str) -> (r: String)
    ensures
        r@ == join_path(dir@, name@),
{
    let mut s = dir.to_owned();
    s.append("/");
    s.append(name);
    proof {
        reveal_strlit("/");
        assert("/"@ =~= seq!['/']);
        assert(s@ =~= join_path(dir@, name@));
    }
    s
}

// ---------------------------------------------------------------------------
// Candidate sets: grouping walked entries
// ---------------------------------------------------------------------------

/// A directory holding notechart files, as discovery found it on disk.
#[derive(Debug)]
pub struct NotechartSetDir {
    pub id: i64,
    pub path: String,
    pub file_paths: Vec<String>,
}

/// A candidate set, abstractly.
pub ghost struct CandSet {
    pub path: Seq<char>,
    pub files: Seq<Seq<char>>,
}

/// The names of the notechart files among `entries` that sit directly in
/// `dir`, in order.
pub open spec fn files_in_dir(entries: Seq<(String, bool)>, dir: Seq<char>) -> Seq<Seq<char>>
    decreases entries.len(),
{
    if entries.len() == 0 {
        Seq::<Seq<char>>::empty()
    } else {
        let e = entries.last();
        files_in_dir(entries.drop_last(), dir) + (if !e.1 && is_notechart_path(e.0@) && parent_of(
            e.0@,
        ) == dir {
            seq![file_name_of(e.0@)]
        } else {
            Seq::<Seq<char>>::empty()
        })
    }
}

/// An earlier directory entry renders to the same path as entry `k`.
pub open spec fn dir_seen(entries: Seq<(String, bool)>, k: int) -> bool {
    exists|e: int| 0 <= e < k && (#[trigger] entries[e]).1 && entries[e].0@ == entries[k].0@
}

/// The candidate sets among the first `k` entries: one per distinct
/// directory path with at least one notechart file directly inside it
/// (a repeated directory path carries the same file list and is taken
/// once).
pub open spec fn cand_spec(entries: Seq<(String, bool)>, k: int) -> Seq<CandSet>
    decreases k,
{
    if k <= 0 {
        Seq::<CandSet>::empty()
    } else {
        cand_spec(entries, k - 1) + (if entries[k - 1].1 && !dir_seen(entries, k - 1)
            && files_in_dir(entries, entries[k - 1].0@).len() > 0 {
            seq![
                CandSet {
                    path: entries[k - 1].0@,
                    files: files_in_dir(entries, entries[k - 1].0@),
                },
            ]
        } else {
            Seq::<CandSet>::empty()
        })
    }
}

/// Whether the two strings hold the same characters.
fn str_eq(a: &str, b: &str) -> (r: bool)
    ensures
        r == (a@ == b@),
{
    let n = a.unicode_len();
    if n != b.unicode_len() {
        return false;
    }
    let mut i: usize = 0;
    while i < n
        invariant
            i <= n,
            n == a@.len(),
            n == b@.len(),
            forall|j: int| 0 <= j < i ==> a@[j] == b@[j],
        decreases n - i,
    {
        if a.get_char(i) != b.get_char(i) {
            return false;
        }
        i = i + 1;
    }
    proof {
        assert(a@ =~= b@);
    }
    true
}

/// The notechart file names among `entries` directly inside `dir`.
fn get_notecharts(entries: &Vec<(String, bool)>, dir: &str) -> (r: Vec<String>)
    ensures
        r.deep_view() == files_in_dir(entries@, dir@),
{
    let n = entries.len();
    let mut out: Vec<String> = Vec::new();
    let mut m: usize = 0;
    proof {
        assert(entries@.take(0) =~= Seq::<(String, bool)>::empty());
        assert(out.deep_view() =~= files_in_dir(entries@.take(0), dir@));
    }
    while m < n
        invariant
            m <= n,
            n == entries@.len(),
            out.deep_view() == files_in_dir(entries@.take(m as int), dir@),
        decreases n - m,
    {
        let e = &entries[m];
        proof {
            assert(entries@.take(m as int + 1).drop_last() =~= entries@.take(m as int));
            assert(entries@.take(m as int + 1).last() == entries@[m as int]);
        }
        if !e.1 && is_notechart(e.0.as_str()) {
            let ln = e.0.unicode_len();
            let name_start: usize = match rfind_char(e.0.as_str(), '/') {
                Some(i) => i + 1,
                None => 0,
            };
            let parent = get_parent(e.0.as_str());
            if str_eq(parent, dir) {
                let name = e.0.substring_char(name_start, ln);
                proof {
                    lemma_last_index_of(e.0@, '/');
                    assert(name@ =~= file_name_of(e.0@));
                }
                out.push(name.to_owned());
            }
        }
        proof {
            assert(out.deep_view() =~= files_in_dir(entries@.take(m as int + 1), dir@));
        }
        m = m + 1;
    }
    proof {
        assert(entries@.take(n as int) =~= entries@);
    }
    out
}

/// Whether an earlier entry is a directory with the same path as entry `m`.
fn dir_seen_before(entries: &Vec<(String, bool)>, m: usize) -> (r: bool)
    requires
        m < entries@.len(),
    ensures
        r == dir_seen(entries@, m as int),
{
    let mut t: usize = 0;
    while t < m
        invariant
            t <= m < entries@.len(),
            forall|e2: int|
                0 <= e2 < t ==> !((#[trigger] entries@[e2]).1 && entries@[e2].0@ == entries@[
                    m as int
                ].0@),
        decreases m - t,
    {
        if entries[t].1 && str_eq(entries[t].0.as_str(), entries[m].0.as_str()) {
            proof {
                assert((#[trigger] entries@[t as int]).1 && entries@[t as int].0@ == entries@[
                    m as int
                ].0@);
            }
            return true;
        }
        t = t + 1;
    }
    false
}

/// Groups walked entries into candidate sets: one per distinct directory
/// path that directly holds at least one notechart file.
pub fn group_candidates(entries: &Vec<(String, bool)>) -> (r: Vec<NotechartSetDir>)
    ensures
        r@.map_values(
            |s: NotechartSetDir| CandSet { path: s.path@, files: s.file_paths.deep_view() },
        ) == cand_spec(entries@, entries@.len() as int),
        forall|i: int| 0 <= i < r@.len() ==> (#[trigger] r@[i]).id == 0,
        forall|i: int| 0 <= i < r@.len() ==> (#[trigger] r@[i]).file_paths@.len() > 0,
        forall|c1: int, c2: int|
            0 <= c1 < r@.len() && 0 <= c2 < r@.len() && c1 != c2 ==> (#[trigger] r@[c1]).path@ != (
            #[trigger] r@[c2]).path@,
{
    let n = entries.len();
    let mut out: Vec<NotechartSetDir> = Vec::new();
    let mut m: usize = 0;
    proof {
        assert(out@.map_values(
            |s: NotechartSetDir| CandSet { path: s.path@, files: s.file_paths.deep_view() },
        ) =~= cand_spec(entries@, 0));
    }
    while m < n
        invariant
            m <= n,
            n == entries@.len(),
            out@.map_values(
                |s: NotechartSetDir| CandSet { path: s.path@, files: s.file_paths.deep_view() },
            ) == cand_spec(entries@, m as int),
            forall|i: int| 0 <= i < out@.len() ==> (#[trigger] out@[i]).id == 0,
            forall|i: int| 0 <= i < out@.len() ==> (#[trigger] out@[i]).file_paths@.len() > 0,
        decreases n - m,
    {
        let e = &entries[m];
        if e.1 && !dir_seen_before(entries, m) {
            let files = get_notecharts(entries, e.0.as_str());
            if files.len() > 0 {
                out.push(
                    NotechartSetDir { id: 0, path: e.0.clone(), file_paths: files },
                );
            }
        }
        proof {
            assert(out@.map_values(
                |s: NotechartSetDir| CandSet { path: s.path@, files: s.file_paths.deep_view() },
            ) =~= cand_spec(entries@, m as int + 1));
        }
        m = m + 1;
    }
    proof {
        assert forall|c1: int, c2: int|
            0 <= c1 < out@.len() && 0 <= c2 < out@.len() && c1 != c2 implies (#[trigger] out@[
            c1
        ]).path@ != (#[trigger] out@[c2]).path@ by {
            let view = out@.map_values(
                |s2: NotechartSetDir| CandSet { path: s2.path@, files: s2.file_paths.deep_view() },
            );
            assert(view[c1].path == out@[c1].path@);
            assert(view[c2].path == out@[c2].path@);
            if c1 < c2 {
                lemma_cand_spec_distinct(entries@, n as int, c1, c2);
            } else {
                lemma_cand_spec_distinct(entries@, n as int, c2, c1);
            }
        }
    }
    out
}

/// Two distinct candidates never share a path: each comes from the
/// first directory entry rendering to its path.
proof fn lemma_cand_spec_distinct(entries: Seq<(String, bool)>, k: int, c1: int, c2: int)
    requires
        0 <= c1 < c2 < cand_spec(entries, k).len(),
        k <= entries.len(),
    ensures
        cand_spec(entries, k)[c1].path != cand_spec(entries, k)[c2].path,
    decreases k,
{
    if c2 < cand_spec(entries, k - 1).len() {
        lemma_cand_spec_distinct(entries, k - 1, c1, c2);
        assert(cand_spec(entries, k)[c1] == cand_spec(entries, k - 1)[c1]);
        assert(cand_spec(entries, k)[c2] == cand_spec(entries, k - 1)[c2]);
    } else {
        assert(cand_spec(entries, k)[c2].path == entries[k - 1].0@);
        assert(!dir_seen(entries, k - 1));
        assert(cand_spec(entries, k)[c1] == cand_spec(entries, k - 1)[c1]);
        lemma_cand_spec_from_entries(entries, k - 1);
        let e = choose|e: int|
            0 <= e < k - 1 && #[trigger] entries[e].0@ == cand_spec(entries, k - 1)[c1].path
                && entries[e].1;
        if entries[e].0@ == entries[k - 1].0@ {
            assert(dir_seen(entries, k - 1)) by {
                assert((#[trigger] entries[e]).1 && entries[e].0@ == entries[k - 1].0@);
            }
        }
    }
}

/// Every candidate's path is some prefix directory entry's path.
proof fn lemma_cand_spec_from_entries(entries: Seq<(String, bool)>, k: int)
    requires
        k <= entries.len(),
    ensures
        forall|c: int|
            0 <= c < cand_spec(entries, k).len() ==> exists|e: int|
                0 <= e < k && #[trigger] entries[e].0@ == (#[trigger] cand_spec(entries, k)[
                    c
                ]).path && entries[e].1,
    decreases k,
{
    if k > 0 {
        lemma_cand_spec_from_entries(entries, k - 1);
        assert forall|c: int| 0 <= c < cand_spec(entries, k).len() implies exists|e: int|
            0 <= e < k && #[trigger] entries[e].0@ == (#[trigger] cand_spec(entries, k)[c]).path
                && entries[e].1 by {
            if c < cand_spec(entries, k - 1).len() {
                assert(cand_spec(entries, k)[c] == cand_spec(entries, k - 1)[c]);
                let e = choose|e: int|
                    0 <= e < k - 1 && #[trigger] entries[e].0@ == cand_spec(entries, k - 1)[c].path
                        && entries[e].1;
                assert(entries[e].0@ == cand_spec(entries, k)[c].path);
            } else {
                assert(entries[k - 1].0@ == cand_spec(entries, k)[c].path);
            }
        }
    }
}

/// Walks one root directory and returns its candidate sets: each
/// directory that directly holds at least one notechart file, with those
/// files' names.  Set ids are not resolved yet.
pub fn get_sets_and_notecharts(dir_path: &str) -> (r: Result<Vec<NotechartSetDir>, std::io::Error>)
    ensures
        r matches Ok(v) ==> forall|c1: int, c2: int|
            0 <= c1 < v@.len() && 0 <= c2 < v@.len() && c1 != c2 ==> (#[trigger] v@[c1]).path@ != (
            #[trigger] v@[c2]).path@,
        r matches Ok(v) ==> forall|i: int|
            0 <= i < v@.len() ==> (#[trigger] v@[i]).file_paths@.len() > 0,
{
    let entries = match crate::db::walk_entries(dir_path) {
        Ok(v) => v,
        Err(e) => return Err(e),
    };
    Ok(group_candidates(&entries))
}

// ---------------------------------------------------------------------------
// Inserting new notecharts
// ---------------------------------------------------------------------------

/// Looks up the set row holding exactly this directory path.
pub fn get_set_id(conn: &rusqlite::Connection, path: &str) -> (r: Result<
    Option<i64>,
    rusqlite::Error,
>)
    ensures
        r matches Ok(Some(id)) ==> crate::db::db_sets(*conn).contains_key(id) && crate::db::db_sets(
            *conn,
        )[id] == path@,
        r matches Ok(None) ==> !crate::db::path_present(crate::db::db_sets(*conn), path@),
{
    crate::db::select_set_id(conn, path)
}

/// Whether some notechart row holds this content hash.
pub fn is_notechart_exists(hash: &str, conn: &rusqlite::Connection) -> (r: Result<
    bool,
    rusqlite::Error,
>)
    ensures
        r matches Ok(b) ==> b == crate::db::hash_present(crate::db::db_charts(*conn), hash@),
{
    crate::db::chart_hash_exists(conn, hash)
}

/// One file of one candidate set, flattened for the insertion pass.
struct FileJob {
    set_idx: usize,
    file_idx: usize,
    filename: String,
    bytes: Vec<u8>,
}

spec fn job_ok(
    jb: FileJob,
    sets: Seq<NotechartSetDir>,
    c0: Seq<Vec<Result<Vec<u8>, std::io::Error>>>,
) -> bool {
    &&& (jb.set_idx as int) < sets.len()
    &&& (jb.file_idx as int) < c0[jb.set_idx as int]@.len()
    &&& c0[jb.set_idx as int]@[jb.file_idx as int] is Ok
    &&& jb.bytes@ == c0[jb.set_idx as int]@[jb.file_idx as int]->Ok_0@
    &&& jb.filename@ == sets[jb.set_idx as int].file_paths@[jb.file_idx as int]@
}

spec fn flat_len(c0: Seq<Vec<Result<Vec<u8>, std::io::Error>>>, i: int) -> int
    decreases i,
{
    if i <= 0 {
        0
    } else {
        flat_len(c0, i - 1) + c0[i - 1]@.len()
    }
}

proof fn lemma_flat_len_le(c0: Seq<Vec<Result<Vec<u8>, std::io::Error>>>, a: int, b: int)
    requires
        0 <= a <= b,
    ensures
        flat_len(c0, a) <= flat_len(c0, b),
    decreases b,
{
    if a < b {
        lemma_flat_len_le(c0, a, b - 1);
    }
}

proof fn lemma_flat_index_inj(
    c0: Seq<Vec<Result<Vec<u8>, std::io::Error>>>,
    i1: int,
    j1: int,
    i2: int,
    j2: int,
)
    requires
        0 <= i1 < c0.len(),
        0 <= j1 < c0[i1]@.len(),
        0 <= i2 < c0.len(),
        0 <= j2 < c0[i2]@.len(),
        flat_len(c0, i1) + j1 == flat_len(c0, i2) + j2,
    ensures
        i1 == i2,
        j1 == j2,
{
    if i1 < i2 {
        assert(flat_len(c0, i1 + 1) == flat_len(c0, i1) + c0[i1]@.len());
        lemma_flat_len_le(c0, i1 + 1, i2);
    } else if i2 < i1 {
        assert(flat_len(c0, i2 + 1) == flat_len(c0, i2) + c0[i2]@.len());
        lemma_flat_len_le(c0, i2 + 1, i1);
    }
}

spec fn job_row(jb: FileJob, resolved: Seq<i64>) -> crate::db::ChartRow {
    crate::db::ChartRow {
        set_id: resolved[jb.set_idx as int],
        hash: crate::content_hash(jb.bytes@),
        artist: crate::parse::extracted_artist(crate::parse::utf8_decode_of(jb.bytes@)),
        title: crate::parse::extracted_title(crate::parse::utf8_decode_of(jb.bytes@)),
        version: crate::parse::extracted_version(crate::parse::utf8_decode_of(jb.bytes@)),
        filename: jb.filename@,
        audio: crate::parse::extracted_audio(crate::parse::utf8_decode_of(jb.bytes@)),
        background: crate::parse::extracted_background(crate::parse::utf8_decode_of(jb.bytes@)),
    }
}

/// A chart row discovery may have inserted: it carries the hash and
/// metadata of one candidate file and points at the set row holding that
/// candidate's directory path.
pub open spec fn new_row_from(
    row: crate::db::ChartRow,
    sets: Seq<NotechartSetDir>,
    contents: Seq<Vec<Result<Vec<u8>, std::io::Error>>>,
    sets_after: Map<i64, Seq<char>>,
) -> bool {
    exists|i: int, j: int|
        #![trigger contents[i]@[j]]
        {
            &&& 0 <= i < sets.len()
            &&& 0 <= j < contents[i]@.len()
            &&& contents[i]@[j] is Ok
            &&& row.hash == crate::content_hash(contents[i]@[j]->Ok_0@)
            &&& row.filename == sets[i].file_paths@[j]@
            &&& row.artist == crate::parse::extracted_artist(
                crate::parse::utf8_decode_of(contents[i]@[j]->Ok_0@),
            )
            &&& row.title == crate::parse::extracted_title(
                crate::parse::utf8_decode_of(contents[i]@[j]->Ok_0@),
            )
            &&& row.version == crate::parse::extracted_version(
                crate::parse::utf8_decode_of(contents[i]@[j]->Ok_0@),
            )
            &&& row.audio == crate::parse::extracted_audio(
                crate::parse::utf8_decode_of(contents[i]@[j]->Ok_0@),
            )
            &&& row.background == crate::parse::extracted_background(
                crate::parse::utf8_decode_of(contents[i]@[j]->Ok_0@),
            )
            &&& sets_after.contains_key(row.set_id)
            &&& sets_after[row.set_id] == sets[i].path@
        }
}

/// What any failed discovery pass leaves behind: the chart relation is
/// untouched; old set rows are kept; any new set row carries a candidate
/// path (set rows committed by the first transaction may remain); set
/// path uniqueness is preserved.
pub open spec fn discover_err_state(
    sets0: Map<i64, Seq<char>>,
    charts0: Map<i64, crate::db::ChartRow>,
    sets_f: Map<i64, Seq<char>>,
    charts_f: Map<i64, crate::db::ChartRow>,
    sets: Seq<NotechartSetDir>,
) -> bool {
    &&& charts_f == charts0
    &&& (forall|id: i64|
        #[trigger] sets0.contains_key(id) ==> sets_f.contains_key(id) && sets_f[id] == sets0[id])
    &&& (forall|id: i64|
        #[trigger] sets_f.contains_key(id) && !sets0.contains_key(id) ==> exists|i: int|
            0 <= i < sets.len() && sets_f[id] == (#[trigger] sets[i]).path@)
    &&& (crate::db::sets_unique(sets0) ==> crate::db::sets_unique(sets_f))
}

/// Discovers the given candidate sets: resolves or creates a set row for
/// every candidate path (committed first, in its own transaction), then
/// inserts one notechart row for every candidate file whose content hash
/// is not in the store yet, under a second transaction.  `contents[i][j]`
/// is what reading the file `sets[i].file_paths[j]` gave; a single failed
/// read aborts the whole pass before anything is written — deliberately
/// stricter than committing the set rows first, since the contents are
/// read before discovery begins.  Set rows committed by the first
/// transaction do survive a failure in the second.
#[verifier::rlimit(100)]
pub fn find_new(
    conn: &mut rusqlite::Connection,
    sets: &Vec<NotechartSetDir>,
    contents: Vec<Vec<Result<Vec<u8>, std::io::Error>>>,
) -> (r: Result<(), crate::error::CacheError>)
    requires
        contents@.len() == sets@.len(),
        forall|i: int|
            0 <= i < sets@.len() ==> (#[trigger] contents@[i])@.len()
                == sets@[i].file_paths@.len(),
        forall|i1: int, i2: int|
            0 <= i1 < sets@.len() && 0 <= i2 < sets@.len() && i1 != i2 ==> (#[trigger] sets@[
                i1
            ]).path@ != (#[trigger] sets@[i2]).path@,
    ensures
        r is Ok ==> {
            let sets0 = crate::db::db_sets(*old(conn));
            let sets1 = crate::db::db_sets(*final(conn));
            let charts0 = crate::db::db_charts(*old(conn));
            let charts1 = crate::db::db_charts(*final(conn));
            &&& (forall|id: i64|
                #[trigger] sets0.contains_key(id) ==> sets1.contains_key(id) && sets1[id]
                    == sets0[id])
            &&& (forall|i: int|
                0 <= i < sets@.len() ==> crate::db::path_present(
                    sets1,
                    (#[trigger] sets@[i]).path@,
                ))
            &&& (forall|id: i64|
                #[trigger] sets1.contains_key(id) && !sets0.contains_key(id) ==> exists|i: int|
                    0 <= i < sets@.len() && sets1[id] == (#[trigger] sets@[i]).path@)
            &&& (crate::db::sets_unique(sets0) ==> crate::db::sets_unique(sets1))
            &&& (forall|id: i64|
                #[trigger] charts0.contains_key(id) ==> charts1.contains_key(id) && charts1[id]
                    == charts0[id])
            &&& (forall|i: int, j: int|
                #![trigger contents@[i]@[j]]
                0 <= i < sets@.len() && 0 <= j < contents@[i]@.len() ==> contents@[i]@[j] is Ok
                    && crate::db::hash_present(
                    charts1,
                    crate::content_hash(contents@[i]@[j]->Ok_0@),
                ))
            &&& (forall|id: i64|
                #[trigger] charts1.contains_key(id) && !charts0.contains_key(id) ==> new_row_from(
                    charts1[id],
                    sets@,
                    contents@,
                    sets1,
                ))
            &&& (crate::db::charts_unique(charts0) ==> crate::db::charts_unique(charts1))
        },
        r matches Err(e) ==> e is FileReadError || e is DbSelectError || e is TransactionError
            || e is DbInsertError,
        r is Err ==> discover_err_state(
            crate::db::db_sets(*old(conn)),
            crate::db::db_charts(*old(conn)),
            crate::db::db_sets(*final(conn)),
            crate::db::db_charts(*final(conn)),
            sets@,
        ),
        (r matches Err(e) && e is FileReadError) ==> crate::db::db_sets(*final(conn))
            == crate::db::db_sets(*old(conn)) && crate::db::db_charts(*final(conn))
            == crate::db::db_charts(*old(conn)),
        (r matches Err(e) && e is FileReadError) ==> exists|i: int, j: int|
            #![trigger contents@[i]@[j]]
            0 <= i < sets@.len() && 0 <= j < contents@[i]@.len() && contents@[i]@[j] is Err,
        (r matches Err(e) && !(e is FileReadError)) ==> forall|i: int, j: int|
            #![trigger contents@[i]@[j]]
            0 <= i < sets@.len() && 0 <= j < contents@[i]@.len() ==> contents@[i]@[j] is Ok,
{
    let ghost sets0 = crate::db::db_sets(*conn);
    let ghost charts0 = crate::db::db_charts(*conn);
    let ghost c0 = contents@;
    let n = sets.len();

    // flatten the per-set contents into one job list, aborting on the
    // first unreadable file, before anything is written
    let mut remaining = contents;
    let mut jobs: Vec<FileJob> = Vec::new();
    let mut i: usize = 0;
    while i < n
        invariant
            i <= n,
            n == sets@.len(),
            c0.len() == n,
            forall|i2: int|
                0 <= i2 < n ==> (#[trigger] c0[i2])@.len() == sets@[i2].file_paths@.len(),
            remaining@ == c0.skip(i as int),
            c0 == contents@,
            jobs@.len() == flat_len(c0, i as int),
            forall|t: int| 0 <= t < jobs@.len() ==> job_ok(#[trigger] jobs@[t], sets@, c0),
            forall|t: int|
                0 <= t < jobs@.len() ==> flat_len(c0, (#[trigger] jobs@[t]).set_idx as int)
                    + jobs@[t].file_idx == t,
            crate::db::db_sets(*conn) == sets0,
            crate::db::db_charts(*conn) == charts0,
        decreases n - i,
    {
        let mut row = remaining.remove(0);
        let ghost r0 = c0[i as int]@;
        proof {
            assert(c0.skip(i as int)[0] == c0[i as int]);
            assert(row@ == r0);
            assert(c0.skip(i as int).remove(0) =~= c0.skip(i as int + 1));
            lemma_flat_len_le(c0, 0, i as int);
        }
        let rn = row.len();
        let mut j: usize = 0;
        while j < rn
            invariant
                j <= rn,
                rn == r0.len(),
                i < n,
                n == sets@.len(),
                c0.len() == n,
                r0 == c0[i as int]@,
                forall|i2: int|
                    0 <= i2 < n ==> (#[trigger] c0[i2])@.len() == sets@[i2].file_paths@.len(),
                row@ == r0.skip(j as int),
                c0 == contents@,
                jobs@.len() == flat_len(c0, i as int) + j,
                forall|t: int| 0 <= t < jobs@.len() ==> job_ok(#[trigger] jobs@[t], sets@, c0),
                forall|t: int|
                    0 <= t < jobs@.len() ==> flat_len(c0, (#[trigger] jobs@[t]).set_idx as int)
                        + jobs@[t].file_idx == t,

                crate::db::db_sets(*conn) == sets0,
                crate::db::db_charts(*conn) == charts0,
            decreases rn - j,
        {
            proof {
                assert(r0.skip(j as int)[0] == r0[j as int]);
                assert(r0.skip(j as int).remove(0) =~= r0.skip(j as int + 1));
            }
            let item = row.remove(0);
            proof {
                assert(item == r0[j as int]);
                assert(r0[j as int] == c0[i as int]@[j as int]);
            }
            match item {
                Ok(bytes) => {
                    jobs.push(
                        FileJob {
                            set_idx: i,
                            file_idx: j,
                            filename: sets[i].file_paths[j].clone(),
                            bytes,
                        },
                    );
                    proof {
                        assert(job_ok(jobs@[jobs@.len() - 1], sets@, c0));
                        assert(flat_len(
                            c0,
                            jobs@[jobs@.len() - 1].set_idx as int,
                        ) + jobs@[jobs@.len() - 1].file_idx == jobs@.len() - 1);
                    }
                },
                Err(e) => {
                    proof {
                        assert(c0[i as int]@[j as int] is Err);
                        assert(contents@[i as int]@[j as int] is Err);
                        assert((i as int) < sets@.len());
                        assert((j as int) < contents@[i as int]@.len());
                    }
                    return Err(crate::error::CacheError::FileReadError(e));
                },
            }
            j = j + 1;
        }
        proof {
            assert(r0.skip(rn as int) =~= Seq::<Result<Vec<u8>, std::io::Error>>::empty());
            assert(flat_len(c0, i as int + 1) == flat_len(c0, i as int) + r0.len());
        }
        i = i + 1;
    }

    proof {
        assert forall|i2: int, j2: int|
            #![trigger c0[i2]@[j2]]
            0 <= i2 < n && 0 <= j2 < c0[i2]@.len() implies c0[i2]@[j2] is Ok by {
            assert(flat_len(c0, i2 + 1) == flat_len(c0, i2) + c0[i2]@.len());
            lemma_flat_len_le(c0, i2 + 1, n as int);
            lemma_flat_len_le(c0, 0, i2);
            let tt = flat_len(c0, i2) + j2;
            assert(job_ok(jobs@[tt], sets@, c0));
            assert(flat_len(c0, jobs@[tt].set_idx as int) + jobs@[tt].file_idx == tt);
            lemma_flat_index_inj(c0, jobs@[tt].set_idx as int, jobs@[tt].file_idx as int, i2, j2);
        }
    }

    // resolve every candidate path against the existing set rows
    let mut lookups: Vec<Option<i64>> = Vec::new();
    let mut k: usize = 0;
    while k < n
        invariant
            k <= n,
            n == sets@.len(),
            lookups@.len() == k,
            forall|k2: int|
                0 <= k2 < k ==> match #[trigger] lookups@[k2] {
                    Some(id) => sets0.contains_key(id) && sets0[id] == sets@[k2].path@,
                    None => !crate::db::path_present(sets0, sets@[k2].path@),
                },
            crate::db::db_sets(*conn) == sets0,
            crate::db::db_charts(*conn) == charts0,
            sets0 == crate::db::db_sets(*old(conn)),
            charts0 == crate::db::db_charts(*old(conn)),
            c0.len() == n,
            c0 == contents@,
            forall|i2: int, j2: int|
                #![trigger c0[i2]@[j2]]
                0 <= i2 < n && 0 <= j2 < c0[i2]@.len() ==> c0[i2]@[j2] is Ok,
        decreases n - k,
    {
        match crate::db::select_set_id(conn, sets[k].path.as_str()) {
            Ok(o) => lookups.push(o),
            Err(e) => {
                proof {
                    assert(crate::db::db_sets(*conn) == sets0);
                    assert(crate::db::db_charts(*conn) == charts0);
                }
                return Err(crate::error::CacheError::DbSelectError(e));
            },
        }
        k = k + 1;
    }

    // create the missing set rows, in their own committed transaction
    if let Err(e) = crate::db::tx_begin(conn) {
        return Err(crate::error::CacheError::TransactionError(e));
    }
    let mut resolved: Vec<i64> = Vec::new();
    let mut k: usize = 0;
    while k < n
        invariant
            k <= n,
            n == sets@.len(),
            lookups@.len() == n,
            resolved@.len() == k,
            forall|k2: int|
                0 <= k2 < n ==> match #[trigger] lookups@[k2] {
                    Some(id) => sets0.contains_key(id) && sets0[id] == sets@[k2].path@,
                    None => !crate::db::path_present(sets0, sets@[k2].path@),
                },
            forall|id: i64|
                #[trigger] sets0.contains_key(id) ==> crate::db::db_sets(*conn).contains_key(id)
                    && crate::db::db_sets(*conn)[id] == sets0[id],
            forall|id: i64|
                #[trigger] crate::db::db_sets(*conn).contains_key(id) && !sets0.contains_key(id)
                    ==> exists|k2: int|
                    0 <= k2 < k && crate::db::db_sets(*conn)[id] == (#[trigger] sets@[
                        k2
                    ]).path@,
            forall|k2: int|
                0 <= k2 < k ==> crate::db::db_sets(*conn).contains_key(
                    #[trigger] resolved@[k2],
                ) && crate::db::db_sets(*conn)[resolved@[k2]] == sets@[k2].path@,
            crate::db::sets_unique(sets0) ==> crate::db::sets_unique(crate::db::db_sets(*conn)),
            crate::db::db_charts(*conn) == charts0,
            crate::db::db_in_tx(*conn),
            crate::db::db_saved_sets(*conn) == sets0,
            crate::db::db_saved_charts(*conn) == charts0,
            sets0 == crate::db::db_sets(*old(conn)),
            charts0 == crate::db::db_charts(*old(conn)),
            c0.len() == n,
            c0 == contents@,
            forall|i2: int, j2: int|
                #![trigger c0[i2]@[j2]]
                0 <= i2 < n && 0 <= j2 < c0[i2]@.len() ==> c0[i2]@[j2] is Ok,
        decreases n - k,
    {
        let ghost sets_before = crate::db::db_sets(*conn);
        match lookups[k] {
            Some(id) => {
                resolved.push(id);
            },
            None => {
                match crate::db::new_set(conn, sets[k].path.as_str()) {
                    Ok(id) => {
                        proof {
                            let sets_now = crate::db::db_sets(*conn);
                            if crate::db::sets_unique(sets0) {
                                assert forall|a: i64, b: i64|
                                    sets_now.contains_key(a) && sets_now.contains_key(b) && a
                                        != b implies sets_now[a] != sets_now[b] by {
                                    if a != id && b != id {
                                        assert(sets_now[a] == sets_before[a]);
                                        assert(sets_now[b] == sets_before[b]);
                                    } else if a == id {
                                        assert(sets_now[b] == sets_before[b]);
                                        assert(sets_before.contains_key(b));
                                    } else {
                                        assert(sets_now[a] == sets_before[a]);
                                        assert(sets_before.contains_key(a));
                                    }
                                }
                            }
                        }
                        resolved.push(id);
                    },
                    Err(e) => {
                        crate::db::tx_rollback(conn);
                        proof {
                            assert(crate::db::db_sets(*conn) == sets0);
                            assert(crate::db::db_charts(*conn) == charts0);
                        }
                        return Err(crate::error::CacheError::DbInsertError(e));
                    },
                }
            },
        }
        k = k + 1;
    }
    if let Err(e) = crate::db::tx_commit(conn) {
        crate::db::tx_rollback(conn);
        proof {
            assert(crate::db::db_sets(*conn) == sets0);
            assert(crate::db::db_charts(*conn) == charts0);
        }
        return Err(crate::error::CacheError::TransactionError(e));
    }
    let ghost sets1 = crate::db::db_sets(*conn);

    // insert a notechart row for every candidate file whose hash is new,
    // under one transaction
    if let Err(e) = crate::db::tx_begin(conn) {
        proof {
            assert(crate::db::db_sets(*conn) == sets1);
            assert(crate::db::db_charts(*conn) == charts0);
        }
        return Err(crate::error::CacheError::TransactionError(e));
    }
    let jn = jobs.len();
    let mut t: usize = 0;
    while t < jn
        invariant
            t <= jn,
            jn == jobs@.len(),
            n == sets@.len(),
            c0.len() == n,
            resolved@.len() == n,
            jobs@.len() == flat_len(c0, n as int),
            forall|t2: int| 0 <= t2 < jobs@.len() ==> job_ok(#[trigger] jobs@[t2], sets@, c0),
            forall|t2: int|
                0 <= t2 < jobs@.len() ==> flat_len(c0, (#[trigger] jobs@[t2]).set_idx as int)
                    + jobs@[t2].file_idx == t2,
            forall|k2: int|
                0 <= k2 < n ==> sets1.contains_key(#[trigger] resolved@[k2]) && sets1[resolved@[
                    k2
                ]] == sets@[k2].path@,
            crate::db::db_sets(*conn) == sets1,
            crate::db::db_in_tx(*conn),
            crate::db::db_saved_sets(*conn) == sets1,
            crate::db::db_saved_charts(*conn) == charts0,
            sets0 == crate::db::db_sets(*old(conn)),
            charts0 == crate::db::db_charts(*old(conn)),
            forall|id: i64|
                #[trigger] sets0.contains_key(id) ==> sets1.contains_key(id) && sets1[id]
                    == sets0[id],
            forall|id: i64|
                #[trigger] sets1.contains_key(id) && !sets0.contains_key(id) ==> exists|k2: int|
                    0 <= k2 < n && sets1[id] == (#[trigger] sets@[k2]).path@,
            crate::db::sets_unique(sets0) ==> crate::db::sets_unique(sets1),
            c0 == contents@,
            forall|i2: int, j2: int|
                #![trigger c0[i2]@[j2]]
                0 <= i2 < n && 0 <= j2 < c0[i2]@.len() ==> c0[i2]@[j2] is Ok,
            forall|id: i64|
                #[trigger] charts0.contains_key(id) ==> crate::db::db_charts(
                    *conn,
                ).contains_key(id) && crate::db::db_charts(*conn)[id] == charts0[id],
            forall|id: i64|
                #[trigger] crate::db::db_charts(*conn).contains_key(id)
                    && !charts0.contains_key(id) ==> exists|t2: int|
                    0 <= t2 < t && crate::db::db_charts(*conn)[id] == job_row(
                        #[trigger] jobs@[t2],
                        resolved@,
                    ),
            forall|t2: int|
                0 <= t2 < t ==> crate::db::hash_present(
                    crate::db::db_charts(*conn),
                    crate::content_hash((#[trigger] jobs@[t2]).bytes@),
                ),
            crate::db::charts_unique(charts0) ==> crate::db::charts_unique(
                crate::db::db_charts(*conn),
            ),
        decreases jn - t,
    {
        let jb = &jobs[t];
        let ghost charts_before = crate::db::db_charts(*conn);
        let hash = crate::get_hash(jb.bytes.as_slice());
        let ex = match crate::db::chart_hash_exists(conn, hash.as_str()) {
            Ok(b) => b,
            Err(e) => {
                crate::db::tx_rollback(conn);
                proof {
                    assert(crate::db::db_sets(*conn) == sets1);
                    assert(crate::db::db_charts(*conn) == charts0);
                }
                return Err(crate::error::CacheError::DbSelectError(e));
            },
        };
        if !ex {
            let path = full_path(sets[jb.set_idx].path.as_str(), jb.filename.as_str());
            let data = crate::parse::get_notechart_data(path.as_str(), &jb.bytes);
            let res = crate::db::insert_chart_row(
                conn,
                resolved[jb.set_idx],
                hash.as_str(),
                data.artist.as_str(),
                data.title.as_str(),
                data.version.as_str(),
                jb.filename.as_str(),
                data.audio.as_str(),
                data.background.as_str(),
            );
            match res {
                Ok(idn) => {
                    proof {
                        let charts_now = crate::db::db_charts(*conn);
                        assert(jobs@[t as int] == *jb);
                        assert(charts_now[idn] == job_row(jobs@[t as int], resolved@));
                        assert forall|t2: int|
                            0 <= t2 < t + 1 implies crate::db::hash_present(
                            charts_now,
                            crate::content_hash((#[trigger] jobs@[t2]).bytes@),
                        ) by {
                            if t2 < t {
                                let w = choose|w: i64|
                                    #[trigger] charts_before.contains_key(w) && charts_before[
                                        w
                                    ].hash == crate::content_hash(jobs@[t2].bytes@);
                                assert(charts_now.contains_key(w) && charts_now[w].hash
                                    == crate::content_hash(jobs@[t2].bytes@));
                            } else {
                                assert(charts_now.contains_key(idn) && charts_now[idn].hash
                                    == crate::content_hash(jobs@[t2].bytes@));
                            }
                        }
                        if crate::db::charts_unique(charts0) {
                            assert forall|a: i64, b: i64|
                                charts_now.contains_key(a) && charts_now.contains_key(b) && a
                                    != b implies charts_now[a].hash != charts_now[b].hash by {
                                if a != idn && b != idn {
                                    assert(charts_now[a] == charts_before[a]);
                                    assert(charts_now[b] == charts_before[b]);
                                } else if a == idn {
                                    assert(charts_now[b] == charts_before[b]);
                                    assert(charts_before.contains_key(b));
                                } else {
                                    assert(charts_now[a] == charts_before[a]);
                                    assert(charts_before.contains_key(a));
                                }
                            }
                        }
                    }
                },
                Err(e) => {
                    crate::db::tx_rollback(conn);
                    proof {
                        assert(crate::db::db_sets(*conn) == sets1);
                        assert(crate::db::db_charts(*conn) == charts0);
                    }
                    return Err(crate::error::CacheError::DbInsertError(e));
                },
            }
        } else {
            proof {
                assert(crate::db::hash_present(
                    crate::db::db_charts(*conn),
                    crate::content_hash(jobs@[t as int].bytes@),
                ));
            }
        }
        t = t + 1;
    }
    if let Err(e) = crate::db::tx_commit(conn) {
        crate::db::tx_rollback(conn);
        proof {
            assert(crate::db::db_sets(*conn) == sets1);
            assert(crate::db::db_charts(*conn) == charts0);
        }
        return Err(crate::error::CacheError::TransactionError(e));
    }

    proof {
        let sets_f = crate::db::db_sets(*conn);
        let charts_f = crate::db::db_charts(*conn);
        assert forall|i2: int| 0 <= i2 < sets@.len() implies crate::db::path_present(
            sets_f,
            (#[trigger] sets@[i2]).path@,
        ) by {
            assert(sets_f.contains_key(resolved@[i2]) && sets_f[resolved@[i2]] == sets@[
                i2
            ].path@);
        }
        assert forall|i2: int, j2: int|
            #![trigger c0[i2]@[j2]]
            0 <= i2 < sets@.len() && 0 <= j2 < c0[i2]@.len() implies c0[i2]@[j2] is Ok
                && crate::db::hash_present(
            charts_f,
            crate::content_hash(c0[i2]@[j2]->Ok_0@),
        ) by {
            assert(flat_len(c0, i2 + 1) == flat_len(c0, i2) + c0[i2]@.len());
            lemma_flat_len_le(c0, i2 + 1, n as int);
            lemma_flat_len_le(c0, 0, i2);
            let tt = flat_len(c0, i2) + j2;
            assert(0 <= tt < jobs@.len());
            assert(job_ok(jobs@[tt], sets@, c0));
            assert(flat_len(c0, jobs@[tt].set_idx as int) + jobs@[tt].file_idx == tt);
            lemma_flat_index_inj(c0, jobs@[tt].set_idx as int, jobs@[tt].file_idx as int, i2, j2);
            assert(jobs@[tt].set_idx == i2 && jobs@[tt].file_idx == j2);
            assert(crate::db::hash_present(
                charts_f,
                crate::content_hash(jobs@[tt].bytes@),
            ));
        }
        assert forall|id: i64|
            #[trigger] charts_f.contains_key(id) && !charts0.contains_key(id) implies new_row_from(
            charts_f[id],
            sets@,
            c0,
            sets_f,
        ) by {
            let t2 = choose|t2: int|
                0 <= t2 < jn && charts_f[id] == job_row(#[trigger] jobs@[t2], resolved@);
            let jb2 = jobs@[t2];
            assert(job_ok(jb2, sets@, c0));
            let ii = jb2.set_idx as int;
            let jj = jb2.file_idx as int;
            assert(0 <= ii < sets@.len());
            assert(0 <= jj < (c0[ii])@.len());
            assert(c0[ii]@[jj] is Ok);
            assert(charts_f[id].hash == crate::content_hash(c0[ii]@[jj]->Ok_0@));
            assert(sets_f.contains_key(charts_f[id].set_id) && sets_f[charts_f[id].set_id]
                == sets@[ii].path@);
        }
    }
    Ok(())
}

/// A row derived from a candidate file stays derived when the set rows
/// it points at are kept.
pub proof fn lemma_new_row_from_persists(
    row: crate::db::ChartRow,
    sets: Seq<NotechartSetDir>,
    contents: Seq<Vec<Result<Vec<u8>, std::io::Error>>>,
    sets_a: Map<i64, Seq<char>>,
    sets_b: Map<i64, Seq<char>>,
)
    requires
        new_row_from(row, sets, contents, sets_a),
        forall|id: i64|
            #[trigger] sets_a.contains_key(id) ==> sets_b.contains_key(id) && sets_b[id]
                == sets_a[id],
    ensures
        new_row_from(row, sets, contents, sets_b),
{
    let (i, j) = choose|i: int, j: int|
        #![trigger contents[i]@[j]]
        {
            &&& 0 <= i < sets.len()
            &&& 0 <= j < contents[i]@.len()
            &&& contents[i]@[j] is Ok
            &&& row.hash == crate::content_hash(contents[i]@[j]->Ok_0@)
            &&& row.filename == sets[i].file_paths@[j]@
            &&& row.artist == crate::parse::extracted_artist(
                crate::parse::utf8_decode_of(contents[i]@[j]->Ok_0@),
            )
            &&& row.title == crate::parse::extracted_title(
                crate::parse::utf8_decode_of(contents[i]@[j]->Ok_0@),
            )
            &&& row.version == crate::parse::extracted_version(
                crate::parse::utf8_decode_of(contents[i]@[j]->Ok_0@),
            )
            &&& row.audio == crate::parse::extracted_audio(
                crate::parse::utf8_decode_of(contents[i]@[j]->Ok_0@),
            )
            &&& row.background == crate::parse::extracted_background(
                crate::parse::utf8_decode_of(contents[i]@[j]->Ok_0@),
            )
            &&& sets_a.contains_key(row.set_id)
            &&& sets_a[row.set_id] == sets[i].path@
        };
    assert(sets_b.contains_key(row.set_id) && sets_b[row.set_id] == sets[i].path@);
}

/// Idempotence of discovery: when every candidate path already has its
/// set row and every candidate file's bytes already hash to a stored
/// chart row, a successful discovery pass leaves both relations exactly
/// as they were.  The premises are what `find_new` ensures of a
/// successful pass over a store satisfying the uniqueness invariant.
pub proof fn lemma_discover_unchanged(
    sets0: Map<i64, Seq<char>>,
    sets1: Map<i64, Seq<char>>,
    charts0: Map<i64, crate::db::ChartRow>,
    charts1: Map<i64, crate::db::ChartRow>,
    sets: Seq<NotechartSetDir>,
    contents: Seq<Vec<Result<Vec<u8>, std::io::Error>>>,
)
    requires
        crate::db::sets_unique(sets1),
        crate::db::charts_unique(charts1),
        forall|id: i64|
            #[trigger] sets0.contains_key(id) ==> sets1.contains_key(id) && sets1[id]
                == sets0[id],
        forall|id: i64|
            #[trigger] sets1.contains_key(id) && !sets0.contains_key(id) ==> exists|i: int|
                0 <= i < sets.len() && sets1[id] == (#[trigger] sets[i]).path@,
        forall|id: i64|
            #[trigger] charts0.contains_key(id) ==> charts1.contains_key(id) && charts1[id]
                == charts0[id],
        forall|id: i64|
            #[trigger] charts1.contains_key(id) && !charts0.contains_key(id) ==> new_row_from(
                charts1[id],
                sets,
                contents,
                sets1,
            ),
        forall|i: int|
            0 <= i < sets.len() ==> crate::db::path_present(sets0, (#[trigger] sets[i]).path@),
        forall|i: int, j: int|
            #![trigger contents[i]@[j]]
            0 <= i < sets.len() && 0 <= j < contents[i]@.len() && contents[i]@[j] is Ok
                ==> crate::db::hash_present(
                charts0,
                crate::content_hash(contents[i]@[j]->Ok_0@),
            ),
    ensures
        sets1 == sets0,
        charts1 == charts0,
{
    assert forall|id: i64| sets1.contains_key(id) == sets0.contains_key(id) by {
        if sets1.contains_key(id) && !sets0.contains_key(id) {
            let i = choose|i: int|
                0 <= i < sets.len() && sets1[id] == (#[trigger] sets[i]).path@;
            let w = choose|w: i64|
                #[trigger] sets0.contains_key(w) && sets0[w] == sets[i].path@;
            assert(sets1.contains_key(w) && sets1[w] == sets[i].path@);
            assert(w != id);
            assert(sets1[w] != sets1[id]);
        }
    }
    assert(sets1 =~= sets0);
    assert forall|id: i64| charts1.contains_key(id) == charts0.contains_key(id) by {
        if charts1.contains_key(id) && !charts0.contains_key(id) {
            assert(new_row_from(charts1[id], sets, contents, sets1));
            let (i, j) = choose|i: int, j: int|
                #![trigger contents[i]@[j]]
                {
                    &&& 0 <= i < sets.len()
                    &&& 0 <= j < contents[i]@.len()
                    &&& contents[i]@[j] is Ok
                    &&& charts1[id].hash == crate::content_hash(contents[i]@[j]->Ok_0@)
                    &&& charts1[id].filename == sets[i].file_paths@[j]@
                    &&& charts1[id].artist == crate::parse::extracted_artist(
                        crate::parse::utf8_decode_of(contents[i]@[j]->Ok_0@),
                    )
                    &&& charts1[id].title == crate::parse::extracted_title(
                        crate::parse::utf8_decode_of(contents[i]@[j]->Ok_0@),
                    )
                    &&& charts1[id].version == crate::parse::extracted_version(
                        crate::parse::utf8_decode_of(contents[i]@[j]->Ok_0@),
                    )
                    &&& charts1[id].audio == crate::parse::extracted_audio(
                        crate::parse::utf8_decode_of(contents[i]@[j]->Ok_0@),
                    )
                    &&& charts1[id].background == crate::parse::extracted_background(
                        crate::parse::utf8_decode_of(contents[i]@[j]->Ok_0@),
                    )
                    &&& sets1.contains_key(charts1[id].set_id)
                    &&& sets1[charts1[id].set_id] == sets[i].path@
                };
            assert(crate::db::hash_present(
                charts0,
                crate::content_hash(contents[i]@[j]->Ok_0@),
            ));
            let w = choose|w: i64|
                #[trigger] charts0.contains_key(w) && charts0[w].hash == crate::content_hash(
                    contents[i]@[j]->Ok_0@,
                );
            assert(charts1.contains_key(w) && charts1[w].hash == charts1[id].hash);
            assert(w != id);
            assert(charts1[w].hash != charts1[id].hash);
        }
    }
    assert(charts1 =~= charts0);
}

} // verus!
