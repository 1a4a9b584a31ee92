//! Metadata extraction from a chart file's text.
//!
//! A chart file is line-oriented: `Key:value` pairs carry the metadata,
//! and the section opened by the `[Events]` header lists events as
//! comma-separated fields.  The background image is the third field of
//! the first event of type "0", with surrounding double quotes stripped;
//! absence yields the empty string, never an error.

use vstd::prelude::*;
use vstd::string::*;

verus! {

// ---------------------------------------------------------------------------
// Specification: lines, fields, extraction
// ---------------------------------------------------------------------------

/// The text a byte string decodes to: a function of the bytes alone.
pub uninterp spec fn utf8_decode_of(bytes: Seq<u8>) -> Seq<char>;

/// Relies on String::from_utf8_lossy: the decoded text depends on the
/// bytes alone; valid UTF-8 decodes exactly, invalid bytes are replaced.
#[verifier::external_body]
pub(crate) fn decode_lossy(bytes: &[u8]) -> (r: String)
    ensures
        r@ == utf8_decode_of(bytes@),
{
    String::from_utf8_lossy(bytes).into_owned()
}

/// Relies on String implementing FromIterator<char>: collecting chars
/// yields exactly that string.
#[verifier::external_body]
pub(crate) fn chars_to_string(v: &Vec<char>) -> (r: String)
    ensures
        r@ == v@,
{
    v.iter().cloned().collect()
}

/// The text split at line breaks; a break is '\n' or "\r\n".
pub open spec fn split_lines(t: Seq<char>) -> Seq<Seq<char>>
    decreases t.len(),
{
    if t.len() == 0 {
        seq![Seq::<char>::empty()]
    } else if t[0] == '\n' {
        seq![Seq::<char>::empty()] + split_lines(t.drop_first())
    } else if t[0] == '\r' && t.len() >= 2 && t[1] == '\n' {
        seq![Seq::<char>::empty()] + split_lines(t.skip(2))
    } else {
        let rest = split_lines(t.drop_first());
        seq![seq![t[0]] + rest[0]] + rest.drop_first()
    }
}

pub proof fn lemma_split_lines_nonempty(t: Seq<char>)
    ensures
        split_lines(t).len() >= 1,
    decreases t.len(),
{
    if t.len() == 0 {
    } else if t[0] == '\n' {
    } else if t[0] == '\r' && t.len() >= 2 && t[1] == '\n' {
    } else {
        lemma_split_lines_nonempty(t.drop_first());
    }
}

/// A line split at commas.
pub open spec fn split_commas(l: Seq<char>) -> Seq<Seq<char>>
    decreases l.len(),
{
    if l.len() == 0 {
        seq![Seq::<char>::empty()]
    } else if l[0] == ',' {
        seq![Seq::<char>::empty()] + split_commas(l.drop_first())
    } else {
        let rest = split_commas(l.drop_first());
        seq![seq![l[0]] + rest[0]] + rest.drop_first()
    }
}

pub proof fn lemma_split_commas_nonempty(l: Seq<char>)
    ensures
        split_commas(l).len() >= 1,
    decreases l.len(),
{
    if l.len() == 0 {
    } else if l[0] == ',' {
    } else {
        lemma_split_commas_nonempty(l.drop_first());
    }
}

/// `l` with leading and trailing spaces removed.
pub open spec fn trim_spaces(l: Seq<char>) -> Seq<char>
    decreases l.len(),
{
    if l.len() > 0 && l[0] == ' ' {
        trim_spaces(l.drop_first())
    } else if l.len() > 0 && l.last() == ' ' {
        trim_spaces(l.drop_last())
    } else {
        l
    }
}

pub open spec fn starts_with(l: Seq<char>, p: Seq<char>) -> bool {
    l.len() >= p.len() && l.take(p.len() as int) == p
}

/// The trimmed value of the first line starting with `key`, or the empty
/// string when no line does.
pub open spec fn value_for(lines: Seq<Seq<char>>, key: Seq<char>) -> Seq<char>
    decreases lines.len(),
{
    if lines.len() == 0 {
        Seq::<char>::empty()
    } else if starts_with(lines[0], key) {
        trim_spaces(lines[0].skip(key.len() as int))
    } else {
        value_for(lines.drop_first(), key)
    }
}

/// A section header line: begins with '['.
pub open spec fn is_section_header(l: Seq<char>) -> bool {
    l.len() > 0 && l[0] == '['
}

/// An event of the declared background type: first comma field exactly "0".
pub open spec fn is_background_event(l: Seq<char>) -> bool {
    l.len() >= 2 && l[0] == '0' && l[1] == ','
}

/// `f` without one pair of surrounding double quotes.
pub open spec fn unquote(f: Seq<char>) -> Seq<char> {
    if f.len() >= 2 && f[0] == '"' && f.last() == '"' {
        f.subrange(1, f.len() - 1)
    } else {
        f
    }
}

/// The background file of an event line: its third comma field, unquoted;
/// empty when the line has fewer than three fields.
pub open spec fn background_of_line(l: Seq<char>) -> Seq<char> {
    let fs = split_commas(l);
    if fs.len() >= 3 {
        unquote(fs[2])
    } else {
        Seq::<char>::empty()
    }
}

/// The background of the chart: from the first background event inside
/// the events section; empty when there is none.
pub open spec fn events_background(lines: Seq<Seq<char>>, in_events: bool) -> Seq<char>
    decreases lines.len(),
{
    if lines.len() == 0 {
        Seq::<char>::empty()
    } else if is_section_header(lines[0]) {
        events_background(lines.drop_first(), lines[0] == "[Events]"@)
    } else if in_events && is_background_event(lines[0]) {
        background_of_line(lines[0])
    } else {
        events_background(lines.drop_first(), in_events)
    }
}

pub open spec fn extracted_artist(t: Seq<char>) -> Seq<char> {
    value_for(split_lines(t), "Artist:"@)
}

pub open spec fn extracted_title(t: Seq<char>) -> Seq<char> {
    value_for(split_lines(t), "Title:"@)
}

pub open spec fn extracted_version(t: Seq<char>) -> Seq<char> {
    value_for(split_lines(t), "Version:"@)
}

pub open spec fn extracted_audio(t: Seq<char>) -> Seq<char> {
    value_for(split_lines(t), "AudioFilename:"@)
}

pub open spec fn extracted_background(t: Seq<char>) -> Seq<char> {
    events_background(split_lines(t), false)
}

// ---------------------------------------------------------------------------
// Executable parsing
// ---------------------------------------------------------------------------

/// The characters of a string as a vector.
fn str_chars(s: &str) -> (r: Vec<char>)
    ensures
        r@ == s@,
{
    let n = s.unicode_len();
    let mut r: Vec<char> = Vec::new();
    let mut i: usize = 0;
    while i < n
        invariant
            i <= n,
            n == s@.len(),
            r@ =~= s@.take(i as int),
        decreases n - i,
    {
        r.push(s.get_char(i));
        i = i + 1;
    }
    proof {
        assert(s@.take(n as int) =~= s@);
    }
    r
}

/// `v[a..b]` as a fresh vector.
fn vec_slice(v: &Vec<char>, a: usize, b: usize) -> (r: Vec<char>)
    requires
        a <= b <= v@.len(),
    ensures
        r@ == v@.subrange(a as int, b as int),
{
    let mut r: Vec<char> = Vec::new();
    let mut i: usize = a;
    while i < b
        invariant
            a <= i <= b <= v@.len(),
            r@ =~= v@.subrange(a as int, i as int),
        decreases b - i,
    {
        r.push(v[i]);
        proof {
            assert(r@ =~= v@.subrange(a as int, (i + 1) as int));
        }
        i = i + 1;
    }
    r
}

/// Splits text into lines, on '\n' and "\r\n".
fn split_into_lines(text: &Vec<char>) -> (r: Vec<Vec<char>>)
    ensures
        r.deep_view() == split_lines(text@),
{
    let n = text.len();
    let mut out: Vec<Vec<char>> = Vec::new();
    let mut cur: Vec<char> = Vec::new();
    let mut i: usize = 0;
    proof {
        lemma_split_lines_nonempty(text@);
        assert(text@.skip(0) =~= text@);
        assert(split_lines(text@) =~~= out.deep_view() + seq![
            cur@ + split_lines(text@.skip(0))[0],
        ] + split_lines(text@.skip(0)).drop_first());
    }
    while i < n
        invariant
            i <= n,
            n == text@.len(),
            split_lines(text@) =~~= out.deep_view() + seq![cur@ + split_lines(text@.skip(i as int))[0]]
                + split_lines(text@.skip(i as int)).drop_first(),
            split_lines(text@.skip(i as int)).len() >= 1,
        decreases n - i,
    {
        let c = text[i];
        proof {
            assert(text@.skip(i as int)[0] == text@[i as int]);
            if i + 1 < n {
                assert(text@.skip(i as int)[1] == text@[i as int + 1]);
            }
            lemma_split_lines_nonempty(text@.skip(i as int + 1));
            assert(text@.skip(i as int).drop_first() =~= text@.skip(i as int + 1));
            if i + 2 <= n {
                lemma_split_lines_nonempty(text@.skip(i as int + 2));
                assert(text@.skip(i as int).skip(2) =~= text@.skip(i as int + 2));
            }
        }
        if c == '\n' {
            out.push(cur);
            cur = Vec::new();
            i = i + 1;
        } else if c == '\r' && i + 1 < n && text[i + 1] == '\n' {
            out.push(cur);
            cur = Vec::new();
            i = i + 2;
        } else {
            cur.push(c);
            i = i + 1;
        }
    }
    proof {
        assert(text@.skip(n as int) =~= Seq::<char>::empty());
    }
    out.push(cur);
    proof {
        assert(out.deep_view() =~~= split_lines(text@));
    }
    out
}

/// Splits one line into comma fields.
fn split_at_commas(line: &Vec<char>) -> (r: Vec<Vec<char>>)
    ensures
        r.deep_view() == split_commas(line@),
{
    let n = line.len();
    let mut out: Vec<Vec<char>> = Vec::new();
    let mut cur: Vec<char> = Vec::new();
    let mut i: usize = 0;
    proof {
        lemma_split_commas_nonempty(line@);
        assert(line@.skip(0) =~= line@);
        assert(split_commas(line@) =~~= out.deep_view() + seq![
            cur@ + split_commas(line@.skip(0))[0],
        ] + split_commas(line@.skip(0)).drop_first());
    }
    while i < n
        invariant
            i <= n,
            n == line@.len(),
            split_commas(line@) =~~= out.deep_view() + seq![
                cur@ + split_commas(line@.skip(i as int))[0],
            ] + split_commas(line@.skip(i as int)).drop_first(),
            split_commas(line@.skip(i as int)).len() >= 1,
        decreases n - i,
    {
        let c = line[i];
        proof {
            assert(line@.skip(i as int)[0] == line@[i as int]);
            lemma_split_commas_nonempty(line@.skip(i as int + 1));
            assert(line@.skip(i as int).drop_first() =~= line@.skip(i as int + 1));
        }
        if c == ',' {
            out.push(cur);
            cur = Vec::new();
        } else {
            cur.push(c);
        }
        i = i + 1;
    }
    proof {
        assert(line@.skip(n as int) =~= Seq::<char>::empty());
    }
    out.push(cur);
    proof {
        assert(out.deep_view() =~~= split_commas(line@));
    }
    out
}

proof fn lemma_trim_subrange(l: Seq<char>, a: int, b: int)
    requires
        0 <= a <= b <= l.len(),
        forall|j: int| 0 <= j < a ==> l[j] == ' ',
        forall|j: int| b <= j < l.len() ==> l[j] == ' ',
        a == b || (l[a] != ' ' && l[b - 1] != ' '),
    ensures
        trim_spaces(l) == l.subrange(a, b),
    decreases l.len(),
{
    if l.len() > 0 && l[0] == ' ' {
        assert(a > 0 || b == 0 || l[a] != ' ');
        if a == 0 && b > 0 {
            assert(l[0] != ' ');
        }
        if a == 0 && b == 0 {
            lemma_trim_subrange(l.drop_first(), 0, 0);
            assert(l.drop_first().subrange(0, 0) =~= l.subrange(0, 0));
        } else {
            lemma_trim_subrange(l.drop_first(), a - 1, b - 1);
            assert(l.drop_first().subrange(a - 1, b - 1) =~= l.subrange(a, b));
        }
    } else if l.len() > 0 && l.last() == ' ' {
        assert(b < l.len() || a == b || l[b - 1] != ' ');
        if b == l.len() && a < b {
            assert(l[b - 1] != ' ');
        }
        if b == l.len() {
            // then a == b == l.len(), but l.last() == ' ' sits at l.len()-1 >= a,
            // so the third premise gives a == b; subrange is empty
            lemma_trim_subrange(l.drop_last(), if a > l.len() - 1 {
                l.len() - 1
            } else {
                a
            }, if b > l.len() - 1 {
                l.len() - 1
            } else {
                b
            });
            assert(l.subrange(a, b) =~= l.drop_last().subrange(
                if a > l.len() - 1 { l.len() - 1 } else { a },
                if b > l.len() - 1 { l.len() - 1 } else { b },
            ));
        } else {
            lemma_trim_subrange(l.drop_last(), a, b);
            assert(l.drop_last().subrange(a, b) =~= l.subrange(a, b));
        }
    } else {
        assert(l.subrange(a, b) =~= l) by {
            if l.len() > 0 {
                assert(a == 0 || l[0] == ' ' || a == b);
                if a > 0 {
                    assert(l[0] == ' ');
                }
                assert(b == l.len() || l.last() == ' ' || a == b);
                if b < l.len() {
                    assert(l[l.len() - 1] == ' ');
                }
            }
        }
    }
}

/// Removes leading and trailing spaces.
fn trim(l: &Vec<char>) -> (r: Vec<char>)
    ensures
        r@ == trim_spaces(l@),
{
    let n = l.len();
    let mut a: usize = 0;
    while a < n && l[a] == ' '
        invariant
            a <= n,
            n == l@.len(),
            forall|j: int| 0 <= j < a ==> l@[j] == ' ',
        decreases n - a,
    {
        a = a + 1;
    }
    if a == n {
        proof {
            lemma_trim_subrange(l@, 0, 0);
            assert(l@.subrange(0, 0) =~= Seq::<char>::empty());
        }
        return Vec::new();
    }
    let mut b: usize = n;
    while b > a && l[b - 1] == ' '
        invariant
            a <= b <= n,
            n == l@.len(),
            forall|j: int| b <= j < n ==> l@[j] == ' ',
        decreases b,
    {
        b = b - 1;
    }
    proof {
        lemma_trim_subrange(l@, a as int, b as int);
    }
    vec_slice(l, a, b)
}

/// Whether `l` begins with `p`.
fn has_prefix(l: &Vec<char>, p: &Vec<char>) -> (r: bool)
    ensures
        r == starts_with(l@, p@),
{
    let pn = p.len();
    if l.len() < pn {
        return false;
    }
    let mut i: usize = 0;
    while i < pn
        invariant
            i <= pn,
            pn == p@.len(),
            l@.len() >= pn,
            forall|j: int| 0 <= j < i ==> l@[j] == p@[j],
        decreases pn - i,
    {
        if l[i] != p[i] {
            assert(l@.take(pn as int)[i as int] != p@[i as int]);
            return false;
        }
        i = i + 1;
    }
    proof {
        assert(l@.take(pn as int) =~= p@);
    }
    true
}

/// Whether the two vectors hold the same characters.
fn vec_chars_eq(a: &Vec<char>, b: &Vec<char>) -> (r: bool)
    ensures
        r == (a@ == b@),
{
    if a.len() != b.len() {
        return false;
    }
    let n = a.len();
    let mut i: usize = 0;
    while i < n
        invariant
            i <= n,
            n == a@.len(),
            n == b@.len(),
            forall|j: int| 0 <= j < i ==> a@[j] == b@[j],
        decreases n - i,
    {
        if a[i] != b[i] {
            return false;
        }
        i = i + 1;
    }
    proof {
        assert(a@ =~= b@);
    }
    true
}

/// The trimmed value of the first line starting with `key`.
fn find_value(lines: &Vec<Vec<char>>, key: &Vec<char>) -> (r: Vec<char>)
    ensures
        r@ == value_for(lines.deep_view(), key@),
{
    let n = lines.len();
    let mut k: usize = 0;
    proof {
        assert(lines.deep_view().skip(0) =~= lines.deep_view());
    }
    while k < n
        invariant
            k <= n,
            n == lines.deep_view().len(),
            value_for(lines.deep_view(), key@) == value_for(
                lines.deep_view().skip(k as int),
                key@,
            ),
        decreases n - k,
    {
        proof {
            assert(lines.deep_view().skip(k as int)[0] == lines.deep_view()[k as int]);
            assert(lines.deep_view().skip(k as int).drop_first() =~= lines.deep_view().skip(
                k as int + 1,
            ));
            assert(lines.deep_view()[k as int] == lines@[k as int]@);
        }
        if has_prefix(&lines[k], key) {
            let line = &lines[k];
            let val = vec_slice(line, key.len(), line.len());
            proof {
                assert(val@ == lines.deep_view()[k as int].skip(key@.len() as int));
            }
            return trim(&val);
        }
        k = k + 1;
    }
    proof {
        assert(lines.deep_view().skip(n as int) =~= Seq::<Seq<char>>::empty());
    }
    Vec::new()
}

/// The background of the chart, scanning the events section.
fn find_background(lines: &Vec<Vec<char>>) -> (r: Vec<char>)
    ensures
        r@ == events_background(lines.deep_view(), false),
{
    let events_header = str_chars("[Events]");
    let n = lines.len();
    let mut k: usize = 0;
    let mut in_events = false;
    proof {
        assert(lines.deep_view().skip(0) =~= lines.deep_view());
    }
    while k < n
        invariant
            k <= n,
            n == lines.deep_view().len(),
            events_header@ == "[Events]"@,
            events_background(lines.deep_view(), false) == events_background(
                lines.deep_view().skip(k as int),
                in_events,
            ),
        decreases n - k,
    {
        proof {
            assert(lines.deep_view().skip(k as int)[0] == lines.deep_view()[k as int]);
            assert(lines.deep_view().skip(k as int).drop_first() =~= lines.deep_view().skip(
                k as int + 1,
            ));
            assert(lines.deep_view()[k as int] == lines@[k as int]@);
        }
        let line = &lines[k];
        if line.len() > 0 && line[0] == '[' {
            in_events = vec_chars_eq(line, &events_header);
        } else if in_events && line.len() >= 2 && line[0] == '0' && line[1] == ',' {
            let fields = split_at_commas(line);
            proof {
                lemma_split_commas_nonempty(line@);
            }
            if fields.len() >= 3 {
                let f = &fields[2];
                proof {
                    assert(fields.deep_view()[2] == fields@[2]@);
                }
                if f.len() >= 2 && f[0] == '"' && f[f.len() - 1] == '"' {
                    return vec_slice(f, 1, f.len() - 1);
                }
                let g = vec_slice(f, 0, f.len());
                proof {
                    assert(g@ =~= fields.deep_view()[2]);
                }
                return g;
            }
            return Vec::new();
        }
        k = k + 1;
    }
    proof {
        assert(lines.deep_view().skip(n as int) =~= Seq::<Seq<char>>::empty());
    }
    Vec::new()
}

/// Extracts a chart's metadata from its file text.  The record carries
/// the given path, no owning set and no identity yet.
pub fn get_notechart_data(path: &str, content: &Vec<u8>) -> (r: crate::CachedNoteChart)
    ensures
        r.id == 0,
        r.set_id is None,
        r.path@ == path@,
        r.artist@ == extracted_artist(utf8_decode_of(content@)),
        r.title@ == extracted_title(utf8_decode_of(content@)),
        r.version@ == extracted_version(utf8_decode_of(content@)),
        r.audio@ == extracted_audio(utf8_decode_of(content@)),
        r.background@ == extracted_background(utf8_decode_of(content@)),
{
    let text = decode_lossy(content.as_slice());
    let chars = str_chars(text.as_str());
    let lines = split_into_lines(&chars);
    let artist = find_value(&lines, &str_chars("Artist:"));
    let title = find_value(&lines, &str_chars("Title:"));
    let version = find_value(&lines, &str_chars("Version:"));
    let audio = find_value(&lines, &str_chars("AudioFilename:"));
    let background = find_background(&lines);
    crate::CachedNoteChart {
        id: 0,
        set_id: None,
        artist: chars_to_string(&artist),
        title: chars_to_string(&title),
        version: chars_to_string(&version),
        path: path.to_owned(),
        background: chars_to_string(&background),
        audio: chars_to_string(&audio),
    }
}

} // verus!
