//! The diff model: the files a unified diff changes, and its hunks.
use vstd::prelude::*;
use crate::text::{
    chars_of, copy_range, ends_with, has_prefix, has_suffix, matches_at, occurs_at, parse_first_piece,
    parse_second_piece, first_piece, second_piece, parse_or, push_all, split_lines, split_words, starts_with,
    string_of, lines_of, views_of, words_of,
};

verus! {

/// One hunk of a diff.
#[derive(Debug, Clone)]
pub struct DiffHunk {
    pub file: String,
    pub old_start: usize,
    pub old_count: usize,
    pub new_start: usize,
    pub new_count: usize,
    pub content: String,
}

pub struct HunkView {
    pub file: Seq<char>,
    pub old_start: usize,
    pub old_count: usize,
    pub new_start: usize,
    pub new_count: usize,
    pub content: Seq<char>,
}

impl View for DiffHunk {
    type V = HunkView;

    open spec fn view(&self) -> HunkView {
        HunkView {
            file: self.file@,
            old_start: self.old_start,
            old_count: self.old_count,
            new_start: self.new_start,
            new_count: self.new_count,
            content: self.content@,
        }
    }
}

/// A diff, parsed.
#[derive(Debug, Clone)]
pub struct ParsedDiff {
    pub files: Vec<String>,
    pub hunks: Vec<DiffHunk>,
    pub raw: String,
}

pub open spec fn string_views(v: Seq<String>) -> Seq<Seq<char>> {
    v.map_values(|x: String| x@)
}

pub open spec fn hunk_views(v: Seq<DiffHunk>) -> Seq<HunkView> {
    v.map_values(|h: DiffHunk| h@)
}

// ---------------------------------------------------------------------------
// Hunk headers

pub type Header = (usize, usize, usize, usize);

/// One word of a hunk header: `-a,b` sets the old range, `+c,d` the new one
/// (not `---` or `+++`); a start that is not a number reads as 0, a count
/// that is not a number as 1, and a missing count leaves the count as it was.
pub open spec fn header_step(h: Header, w: Seq<char>) -> Header {
    if has_prefix(w, seq!['-']) && !has_prefix(w, seq!['-', '-', '-']) {
        let nums = w.drop_first();
        (
            parse_or(first_piece(nums), 0),
            match second_piece(nums) {
                Some(p) => parse_or(p, 1),
                None => h.1,
            },
            h.2,
            h.3,
        )
    } else if has_prefix(w, seq!['+']) && !has_prefix(w, seq!['+', '+', '+']) {
        let nums = w.drop_first();
        (
            h.0,
            h.1,
            parse_or(first_piece(nums), 0),
            match second_piece(nums) {
                Some(p) => parse_or(p, 1),
                None => h.3,
            },
        )
    } else {
        h
    }
}

pub open spec fn header_scan(ws: Seq<Seq<char>>) -> Header
    decreases ws.len(),
{
    if ws.len() == 0 {
        (0, 1, 0, 1)
    } else {
        header_step(header_scan(ws.drop_last()), ws.last())
    }
}

/// Old start, old count, new start and new count of a `@@ -a,b +c,d @@` line.
pub open spec fn hunk_header_spec(line: Seq<char>) -> Header {
    header_scan(words_of(line))
}

fn header_word(h: Header, w: &[char]) -> (r: Header)
    ensures
        r == header_step(h, w@),
{
    let len = w.len();
    let minus = vec!['-'];
    let minus3 = vec!['-', '-', '-'];
    let plus = vec!['+'];
    let plus3 = vec!['+', '+', '+'];
    proof {
        assert(minus@ == seq!['-']);
        assert(minus3@ == seq!['-', '-', '-']);
        assert(plus@ == seq!['+']);
        assert(plus3@ == seq!['+', '+', '+']);
    }
    if starts_with(w, minus.as_slice()) && !starts_with(w, minus3.as_slice()) {
        proof {
            assert(w@.drop_first() == w@.subrange(1, len as int));
        }
        let start = parse_first_piece(w, 1, 0);
        let count = match parse_second_piece(w, 1, 1) {
            Some(c) => c,
            None => h.1,
        };
        (start, count, h.2, h.3)
    } else if starts_with(w, plus.as_slice()) && !starts_with(w, plus3.as_slice()) {
        proof {
            assert(w@.drop_first() == w@.subrange(1, len as int));
        }
        let start = parse_first_piece(w, 1, 0);
        let count = match parse_second_piece(w, 1, 1) {
            Some(c) => c,
            None => h.3,
        };
        (h.0, h.1, start, count)
    } else {
        h
    }
}

fn header_of(line: &[char]) -> (r: Header)
    ensures
        r == hunk_header_spec(line@),
{
    let words = split_words(line);
    let ghost ws = views_of(words@);
    let mut h: Header = (0, 1, 0, 1);
    let mut i: usize = 0;
    while i < words.len()
        invariant
            i <= words@.len(),
            ws == views_of(words@),
            ws == words_of(line@),
            h == header_scan(ws.subrange(0, i as int)),
        decreases words@.len() - i,
    {
        proof {
            let t = ws.subrange(0, i + 1);
            assert(t.drop_last() == ws.subrange(0, i as int));
            assert(t.last() == words@[i as int]@);
        }
        h = header_word(h, words[i].as_slice());
        i = i + 1;
    }
    proof {
        assert(ws.subrange(0, words@.len() as int) == ws);
    }
    h
}

/// Reads a hunk header line: old start, old count, new start, new count.
pub fn parse_hunk_header(line: &str) -> (r: (usize, usize, usize, usize))
    ensures
        r == hunk_header_spec(line@),
{
    let s = chars_of(line);
    header_of(s.as_slice())
}

// ---------------------------------------------------------------------------
// Whole diffs

pub open spec fn diff_marker() -> Seq<char> {
    seq!['d', 'i', 'f', 'f', ' ', '-', '-', 'g', 'i', 't']
}

pub open spec fn hunk_marker() -> Seq<char> {
    seq!['@', '@']
}

pub open spec fn b_side() -> Seq<char> {
    seq![' ', 'b', '/']
}

/// The first index at or after `k` where `p` occurs in `s`.
pub open spec fn find_from(s: Seq<char>, p: Seq<char>, k: int) -> Option<int>
    decreases s.len() + 1 - k,
{
    if k < 0 || k > s.len() {
        None
    } else if occurs_at(s, p, k) {
        Some(k)
    } else {
        find_from(s, p, k + 1)
    }
}

/// The new-side path of a `diff --git a/x b/y` line: what follows the first
/// ` b/`, up to the next ` b/` if there is one.
pub open spec fn marker_path(line: Seq<char>) -> Option<Seq<char>> {
    match find_from(line, b_side(), 0) {
        None => None,
        Some(i) => {
            let end = match find_from(line, b_side(), i + 3) {
                Some(j) => j,
                None => line.len() as int,
            };
            Some(line.subrange(i + 3, end))
        },
    }
}

fn find_seq(s: &[char], p: &[char], from: usize) -> (r: Option<usize>)
    requires
        from <= s@.len(),
    ensures
        match r {
            Some(i) => find_from(s@, p@, from as int) == Some(i as int) && from <= i && i + p@.len() <= s@.len(),
            None => find_from(s@, p@, from as int) is None,
        },
{
    let len = s.len();
    let mut i: usize = from;
    while i < len
        invariant
            from <= i <= len,
            len == s@.len(),
            find_from(s@, p@, from as int) == find_from(s@, p@, i as int),
        decreases len - i,
    {
        if matches_at(s, i, p) {
            return Some(i);
        }
        i = i + 1;
    }
    if matches_at(s, len, p) {
        return Some(len);
    }
    proof {
        assert(find_from(s@, p@, len + 1) is None);
    }
    None
}

fn marker_path_of(line: &[char]) -> (r: Option<Vec<char>>)
    ensures
        match r {
            Some(p) => marker_path(line@) == Some(p@),
            None => marker_path(line@) is None,
        },
{
    let len = line.len();
    let sep = vec![' ', 'b', '/'];
    match find_seq(line, sep.as_slice(), 0) {
        None => None,
        Some(i) => {
            let end = match find_seq(line, sep.as_slice(), i + 3) {
                Some(j) => j,
                None => len,
            };
            Some(copy_range(line, i + 3, end))
        },
    }
}

/// The files of a diff so far, and each file at most once.
pub open spec fn add_file(files: Seq<Seq<char>>, p: Seq<char>) -> Seq<Seq<char>> {
    if files.contains(p) {
        files
    } else {
        files.push(p)
    }
}

/// Files, finished hunks, the current file, and the hunk still open.
pub type DiffState = (Seq<Seq<char>>, Seq<HunkView>, Option<Seq<char>>, Option<HunkView>);

pub open spec fn close_hunk(st: DiffState) -> DiffState {
    match st.3 {
        Some(h) => (st.0, st.1.push(h), st.2, None),
        None => st,
    }
}

/// One line of a diff: a `diff --git` line starts a file, a `@@` line
/// starts a hunk of the current file, and any other line belongs to the
/// open hunk.
pub open spec fn diff_step(st: DiffState, line: Seq<char>) -> DiffState {
    if has_prefix(line, diff_marker()) {
        let c = close_hunk(st);
        match marker_path(line) {
            Some(p) => (add_file(c.0, p), c.1, Some(p), c.3),
            None => c,
        }
    } else if has_prefix(line, hunk_marker()) {
        let c = close_hunk(st);
        match c.2 {
            Some(f) => {
                let h = hunk_header_spec(line);
                (c.0, c.1, c.2, Some(HunkView {
                    file: f,
                    old_start: h.0,
                    old_count: h.1,
                    new_start: h.2,
                    new_count: h.3,
                    content: Seq::empty(),
                }))
            },
            None => c,
        }
    } else {
        match st.3 {
            Some(h) => (st.0, st.1, st.2, Some(HunkView { content: h.content + line + seq!['\n'], ..h })),
            None => st,
        }
    }
}

pub open spec fn diff_scan(lines: Seq<Seq<char>>) -> DiffState
    decreases lines.len(),
{
    if lines.len() == 0 {
        (Seq::empty(), Seq::empty(), None, None)
    } else {
        diff_step(diff_scan(lines.drop_last()), lines.last())
    }
}

/// The files and hunks of a diff.
pub open spec fn parsed_spec(diff: Seq<char>) -> (Seq<Seq<char>>, Seq<HunkView>) {
    let st = close_hunk(diff_scan(lines_of(diff)));
    (st.0, st.1)
}

/// The new-side paths of a diff's `diff --git` lines, each once, in the
/// order they first appear.
pub open spec fn marker_files(lines: Seq<Seq<char>>) -> Seq<Seq<char>>
    decreases lines.len(),
{
    if lines.len() == 0 {
        Seq::empty()
    } else {
        let prev = marker_files(lines.drop_last());
        let l = lines.last();
        if has_prefix(l, diff_marker()) && marker_path(l) is Some {
            add_file(prev, marker_path(l)->Some_0)
        } else {
            prev
        }
    }
}

proof fn lemma_scan_files(lines: Seq<Seq<char>>)
    ensures
        diff_scan(lines).0 == marker_files(lines),
    decreases lines.len(),
{
    if lines.len() > 0 {
        lemma_scan_files(lines.drop_last());
    }
}

/// A `diff --git` line that names a new-side path `p`.
pub open spec fn names_file(l: Seq<char>, p: Seq<char>) -> bool {
    has_prefix(l, diff_marker()) && marker_path(l) == Some(p)
}

proof fn lemma_marker_files(lines: Seq<Seq<char>>)
    ensures
        marker_files(lines).no_duplicates(),
        forall|p: Seq<char>| #[trigger] marker_files(lines).contains(p) <==> exists|i: int| 0 <= i < lines.len() && names_file(#[trigger] lines[i], p),
    decreases lines.len(),
{
    if lines.len() > 0 {
        let pl = lines.drop_last();
        lemma_marker_files(pl);
        let prev = marker_files(pl);
        let l = lines.last();
        assert forall|p: Seq<char>| #[trigger] marker_files(lines).contains(p) <==> exists|i: int| 0 <= i < lines.len() && names_file(#[trigger] lines[i], p) by {
            if marker_files(lines).contains(p) {
                if prev.contains(p) {
                    let i = choose|i: int| 0 <= i < pl.len() && names_file(#[trigger] pl[i], p);
                    assert(names_file(lines[i], p));
                } else {
                    assert(names_file(lines[lines.len() - 1], p));
                }
            }
            if exists|i: int| 0 <= i < lines.len() && names_file(#[trigger] lines[i], p) {
                let i = choose|i: int| 0 <= i < lines.len() && names_file(#[trigger] lines[i], p);
                if i < lines.len() - 1 {
                    assert(names_file(pl[i], p));
                    assert(prev.contains(p));
                    if has_prefix(l, diff_marker()) && marker_path(l) is Some && !prev.contains(marker_path(l)->Some_0) {
                        assert(marker_files(lines) == prev.push(marker_path(l)->Some_0));
                        let k = choose|k: int| 0 <= k < prev.len() && prev[k] == p;
                        assert(marker_files(lines)[k] == p);
                    }
                } else {
                    if !prev.contains(p) {
                        assert(marker_files(lines) == prev.push(p));
                        assert(marker_files(lines)[prev.len() as int] == p);
                    }
                }
            }
        }
    }
}

/// The files of a parsed diff are exactly the new-side paths named by its
/// `diff --git` lines, each once, in the order they first appear.
pub proof fn lemma_parsed_files(diff: Seq<char>)
    ensures
        parsed_spec(diff).0 == marker_files(lines_of(diff)),
        parsed_spec(diff).0.no_duplicates(),
        forall|p: Seq<char>| #[trigger] parsed_spec(diff).0.contains(p) <==> exists|i: int| 0 <= i < lines_of(diff).len() && names_file(#[trigger] lines_of(diff)[i], p),
{
    lemma_scan_files(lines_of(diff));
    lemma_marker_files(lines_of(diff));
}

/// Files listed in the order of their first naming lines: whenever a line
/// names a later file, an earlier line names each file before it.
/// Some line before `b` names `p`.
pub open spec fn first_named_before(lines: Seq<Seq<char>>, p: Seq<char>, b: int) -> bool {
    exists|a: int| 0 <= a < b && #[trigger] names_file(lines[a], p)
}

pub open spec fn in_first_seen_order(lines: Seq<Seq<char>>, fs: Seq<Seq<char>>) -> bool {
    forall|i: int, j: int, b: int|
        #![trigger names_file(lines[b], fs[j]), fs[i]]
        0 <= i < j < fs.len() && 0 <= b < lines.len() && names_file(lines[b], fs[j])
            ==> first_named_before(lines, fs[i], b)
}

proof fn lemma_marker_files_order(lines: Seq<Seq<char>>)
    ensures
        in_first_seen_order(lines, marker_files(lines)),
    decreases lines.len(),
{
    if lines.len() > 0 {
        let pl = lines.drop_last();
        lemma_marker_files_order(pl);
        lemma_marker_files(pl);
        lemma_marker_files(lines);
        let prev = marker_files(pl);
        let fs = marker_files(lines);
        let n = lines.len() - 1;
        let l = lines.last();
        let adds = has_prefix(l, diff_marker()) && marker_path(l) is Some && !prev.contains(marker_path(l)->Some_0);
        if adds {
            assert(fs == prev.push(marker_path(l)->Some_0));
        } else {
            assert(fs == prev);
        }
        assert forall|i: int, j: int, b: int|
            #![trigger names_file(lines[b], fs[j]), fs[i]]
            0 <= i < j < fs.len() && 0 <= b < lines.len() && names_file(lines[b], fs[j])
                implies first_named_before(lines, fs[i], b) by {
            assert(i < prev.len());
            assert(fs[i] == prev[i]);
            assert(prev.contains(prev[i]));
            let a0 = choose|a: int| 0 <= a < pl.len() && names_file(#[trigger] pl[a], prev[i]);
            assert(names_file(lines[a0], fs[i]));
            if b < n {
                assert(names_file(pl[b], fs[j]));
                if j < prev.len() {
                    assert(fs[j] == prev[j]);
                    assert(names_file(pl[b], prev[j]));
                    let a = choose|a: int| 0 <= a < b && #[trigger] names_file(pl[a], prev[i]);
                    assert(names_file(lines[a], fs[i]));
                } else {
                    assert(adds);
                    assert(fs[j] == marker_path(l)->Some_0);
                    assert(prev.contains(fs[j]));
                }
            }
        }
        assert(in_first_seen_order(lines, fs));
    }
}

/// The files of a parsed diff are listed in the order of their first
/// `diff --git` lines.
pub proof fn lemma_parsed_files_in_first_seen_order(diff: Seq<char>)
    ensures
        in_first_seen_order(lines_of(diff), parsed_spec(diff).0),
{
    lemma_scan_files(lines_of(diff));
    lemma_marker_files_order(lines_of(diff));
    assert(parsed_spec(diff).0 == marker_files(lines_of(diff)));
}

/// A hunk being read.
struct OpenHunk {
    file: String,
    old_start: usize,
    old_count: usize,
    new_start: usize,
    new_count: usize,
    content: Vec<char>,
}

impl View for OpenHunk {
    type V = HunkView;

    closed spec fn view(&self) -> HunkView {
        HunkView {
            file: self.file@,
            old_start: self.old_start,
            old_count: self.old_count,
            new_start: self.new_start,
            new_count: self.new_count,
            content: self.content@,
        }
    }
}

spec fn open_view(o: Option<OpenHunk>) -> Option<HunkView> {
    match o {
        Some(h) => Some(h@),
        None => None,
    }
}

spec fn file_view(o: Option<String>) -> Option<Seq<char>> {
    match o {
        Some(f) => Some(f@),
        None => None,
    }
}

fn close_open_hunk(hunks: &mut Vec<DiffHunk>, cur: Option<OpenHunk>)
    ensures
        hunk_views(final(hunks)@) == (match open_view(cur) {
            Some(h) => hunk_views(old(hunks)@).push(h),
            None => hunk_views(old(hunks)@),
        }),
{
    if let Some(h) = cur {
        let d = DiffHunk {
            file: h.file,
            old_start: h.old_start,
            old_count: h.old_count,
            new_start: h.new_start,
            new_count: h.new_count,
            content: string_of(h.content.as_slice()),
        };
        hunks.push(d);
        proof {
            assert(hunk_views(hunks@) == hunk_views(old(hunks)@).push(d@));
        }
    }
}

fn add_file_exec(files: &mut Vec<String>, p: String)
    ensures
        string_views(final(files)@) == add_file(string_views(old(files)@), p@),
{
    let ghost fs = string_views(files@);
    let mut i: usize = 0;
    while i < files.len()
        invariant
            i <= files@.len(),
            fs == string_views(files@),
            files@ == old(files)@,
            forall|k: int| 0 <= k < i ==> fs[k] != p@,
        decreases files@.len() - i,
    {
        if files[i] == p {
            proof {
                assert(fs[i as int] == p@);
                assert(fs.contains(p@));
            }
            return;
        }
        i = i + 1;
    }
    proof {
        assert(!fs.contains(p@));
    }
    files.push(p);
    proof {
        assert(string_views(files@) == fs.push(p@));
    }
}

impl ParsedDiff {
    /// Parses a unified diff into the files it changes and its hunks.
    pub fn parse(diff: &str) -> (r: ParsedDiff)
        ensures
            (string_views(r.files@), hunk_views(r.hunks@)) == parsed_spec(diff@),
            r.raw@ == diff@,
    {
        let text = chars_of(diff);
        let lines = split_lines(text.as_slice());
        let ghost ls = views_of(lines@);
        let mut files: Vec<String> = Vec::new();
        let mut hunks: Vec<DiffHunk> = Vec::new();
        let mut current_file: Option<String> = None;
        let mut current_hunk: Option<OpenHunk> = None;
        let marker = vec!['d', 'i', 'f', 'f', ' ', '-', '-', 'g', 'i', 't'];
        let at = vec!['@', '@'];
        let mut i: usize = 0;
        while i < lines.len()
            invariant
                i <= lines@.len(),
                ls == views_of(lines@),
                ls == lines_of(diff@),
                marker@ == diff_marker(),
                at@ == hunk_marker(),
                (string_views(files@), hunk_views(hunks@), file_view(current_file), open_view(current_hunk))
                    == diff_scan(ls.subrange(0, i as int)),
            decreases lines@.len() - i,
        {
            let line = &lines[i];
            proof {
                let t = ls.subrange(0, i + 1);
                assert(t.drop_last() == ls.subrange(0, i as int));
                assert(t.last() == line@);
            }
            if starts_with(line.as_slice(), marker.as_slice()) {
                let h = current_hunk;
                current_hunk = None;
                close_open_hunk(&mut hunks, h);
                match marker_path_of(line.as_slice()) {
                    Some(p) => {
                        let name = string_of(p.as_slice());
                        let copy = name.clone();
                        proof {
                            assert(copy@ == name@);
                        }
                        add_file_exec(&mut files, copy);
                        current_file = Some(name);
                    },
                    None => {},
                }
            } else if starts_with(line.as_slice(), at.as_slice()) {
                let h = current_hunk;
                current_hunk = None;
                close_open_hunk(&mut hunks, h);
                match &current_file {
                    Some(f) => {
                        let (a, b, c, d) = header_of(line.as_slice());
                        current_hunk = Some(OpenHunk {
                            file: f.clone(),
                            old_start: a,
                            old_count: b,
                            new_start: c,
                            new_count: d,
                            content: Vec::new(),
                        });
                    },
                    None => {},
                }
            } else {
                match current_hunk {
                    Some(mut h) => {
                        let ghost before = h@;
                        push_all(&mut h.content, line.as_slice());
                        h.content.push('\n');
                        proof {
                            assert(h.content@ =~= before.content + line@ + seq!['\n']);
                            assert(h@ == HunkView { content: before.content + line@ + seq!['\n'], ..before });
                        }
                        current_hunk = Some(h);
                    },
                    None => {
                        current_hunk = None;
                    },
                }
            }
            i = i + 1;
        }
        proof {
            assert(ls.subrange(0, lines@.len() as int) == ls);
        }
        close_open_hunk(&mut hunks, current_hunk);
        ParsedDiff { files, hunks, raw: string_of(text.as_slice()) }
    }
}

// ---------------------------------------------------------------------------
// Documentation-only changes

/// The extensions of files that are not code.
pub open spec fn doc_extensions() -> Seq<Seq<char>> {
    seq![
        seq!['.', 'm', 'd'],
        seq!['.', 't', 'x', 't'],
        seq!['.', 'r', 's', 't'],
        seq!['.', 't', 'o', 'm', 'l'],
        seq!['.', 'y', 'a', 'm', 'l'],
        seq!['.', 'y', 'm', 'l'],
        seq!['.', 'j', 's', 'o', 'n'],
    ]
}

pub open spec fn is_doc_file(f: Seq<char>) -> bool {
    exists|k: int| 0 <= k < doc_extensions().len() && has_suffix(f, #[trigger] doc_extensions()[k])
}

fn doc_file(f: &[char]) -> (r: bool)
    ensures
        r == is_doc_file(f@),
{
    let exts: Vec<Vec<char>> = vec![
        vec!['.', 'm', 'd'],
        vec!['.', 't', 'x', 't'],
        vec!['.', 'r', 's', 't'],
        vec!['.', 't', 'o', 'm', 'l'],
        vec!['.', 'y', 'a', 'm', 'l'],
        vec!['.', 'y', 'm', 'l'],
        vec!['.', 'j', 's', 'o', 'n'],
    ];
    proof {
        assert(views_of(exts@) == doc_extensions());
    }
    let mut k: usize = 0;
    while k < exts.len()
        invariant
            k <= exts@.len(),
            views_of(exts@) == doc_extensions(),
            forall|j: int| 0 <= j < k ==> !has_suffix(f@, #[trigger] doc_extensions()[j]),
        decreases exts@.len() - k,
    {
        if ends_with(f, exts[k].as_slice()) {
            proof {
                assert(has_suffix(f@, doc_extensions()[k as int]));
            }
            return true;
        }
        k = k + 1;
    }
    false
}

/// Whether every file the diff changes is a documentation or configuration
/// file (by extension).
pub fn is_docs_only_diff(diff: &ParsedDiff) -> (r: bool)
    ensures
        r == (forall|i: int| 0 <= i < diff.files@.len() ==> is_doc_file(#[trigger] diff.files@[i]@)),
{
    let mut i: usize = 0;
    while i < diff.files.len()
        invariant
            i <= diff.files@.len(),
            forall|j: int| 0 <= j < i ==> is_doc_file(#[trigger] diff.files@[j]@),
        decreases diff.files@.len() - i,
    {
        let f = chars_of(diff.files[i].as_str());
        if !doc_file(f.as_slice()) {
            return false;
        }
        i = i + 1;
    }
    true
}

/// The extensions of documentation files proper.
pub open spec fn prose_extensions() -> Seq<Seq<char>> {
    seq![seq!['.', 'm', 'd'], seq!['.', 't', 'x', 't'], seq!['.', 'r', 's', 't']]
}

pub open spec fn is_prose_file(f: Seq<char>) -> bool {
    exists|k: int| 0 <= k < prose_extensions().len() && has_suffix(f, #[trigger] prose_extensions()[k])
}

/// The documentation files among the lines of a `git log --name-only`
/// listing: the non-empty lines that end in `.md`, `.txt` or `.rst`, in order.
pub open spec fn changed_docs_spec(lines: Seq<Seq<char>>) -> Seq<Seq<char>>
    decreases lines.len(),
{
    if lines.len() == 0 {
        Seq::empty()
    } else {
        let prev = changed_docs_spec(lines.drop_last());
        let l = lines.last();
        if l.len() > 0 && is_prose_file(l) {
            prev.push(l)
        } else {
            prev
        }
    }
}

fn prose_file(f: &[char]) -> (r: bool)
    ensures
        r == is_prose_file(f@),
{
    let exts: Vec<Vec<char>> = vec![vec!['.', 'm', 'd'], vec!['.', 't', 'x', 't'], vec!['.', 'r', 's', 't']];
    proof {
        assert(views_of(exts@) == prose_extensions());
    }
    let mut k: usize = 0;
    while k < exts.len()
        invariant
            k <= exts@.len(),
            views_of(exts@) == prose_extensions(),
            forall|j: int| 0 <= j < k ==> !has_suffix(f@, #[trigger] prose_extensions()[j]),
        decreases exts@.len() - k,
    {
        if ends_with(f, exts[k].as_slice()) {
            proof {
                assert(has_suffix(f@, prose_extensions()[k as int]));
            }
            return true;
        }
        k = k + 1;
    }
    false
}

/// The documentation files named in a `git log --name-only` listing.
pub fn recently_changed_docs(log: &str) -> (r: Vec<String>)
    ensures
        string_views(r@) == changed_docs_spec(lines_of(log@)),
{
    let text = chars_of(log);
    let lines = split_lines(text.as_slice());
    let ghost ls = views_of(lines@);
    let mut out: Vec<String> = Vec::new();
    let mut i: usize = 0;
    while i < lines.len()
        invariant
            i <= lines@.len(),
            ls == views_of(lines@),
            ls == lines_of(log@),
            string_views(out@) == changed_docs_spec(ls.subrange(0, i as int)),
        decreases lines@.len() - i,
    {
        let line = &lines[i];
        proof {
            let t = ls.subrange(0, i + 1);
            assert(t.drop_last() == ls.subrange(0, i as int));
            assert(t.last() == line@);
        }
        if line.len() > 0 && prose_file(line.as_slice()) {
            let name = string_of(line.as_slice());
            out.push(name);
            proof {
                assert(string_views(out@) == string_views(out@.drop_last()).push(name@));
            }
        }
        i = i + 1;
    }
    proof {
        assert(ls.subrange(0, lines@.len() as int) == ls);
    }
    out
}

} // verus!
