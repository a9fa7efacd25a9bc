//! Reading a unified-diff patch into hunks of context, added and removed lines.
use vstd::prelude::*;
use crate::text::{
    chars_of, copy_range, first_piece, has_prefix, parse_first_piece, parse_or, parse_second_piece, second_piece,
    split_lines, split_words, starts_with, string_of, lines_of, views_of, words_of,
};

verus! {

/// One line of a hunk.
#[derive(Debug, Clone)]
pub enum DiffLine {
    Context(String),
    Add(String),
    Remove(String),
}

pub enum DiffLineView {
    Context(Seq<char>),
    Add(Seq<char>),
    Remove(Seq<char>),
}

impl View for DiffLine {
    type V = DiffLineView;

    open spec fn view(&self) -> DiffLineView {
        match self {
            DiffLine::Context(s) => DiffLineView::Context(s@),
            DiffLine::Add(s) => DiffLineView::Add(s@),
            DiffLine::Remove(s) => DiffLineView::Remove(s@),
        }
    }
}

/// One hunk of a patch.
#[derive(Debug, Clone)]
pub struct DiffHunk {
    pub original_start: usize,
    pub original_count: usize,
    pub new_start: usize,
    pub new_count: usize,
    pub lines: Vec<DiffLine>,
}

pub struct PatchHunkView {
    pub original_start: usize,
    pub original_count: usize,
    pub new_start: usize,
    pub new_count: usize,
    pub lines: Seq<DiffLineView>,
}

pub open spec fn line_views(v: Seq<DiffLine>) -> Seq<DiffLineView> {
    v.map_values(|l: DiffLine| l@)
}

impl View for DiffHunk {
    type V = PatchHunkView;

    open spec fn view(&self) -> PatchHunkView {
        PatchHunkView {
            original_start: self.original_start,
            original_count: self.original_count,
            new_start: self.new_start,
            new_count: self.new_count,
            lines: line_views(self.lines@),
        }
    }
}

pub open spec fn patch_views(v: Seq<DiffHunk>) -> Seq<PatchHunkView> {
    v.map_values(|h: DiffHunk| h@)
}

/// `s` with every leading `c` removed.
pub open spec fn strip_leading(s: Seq<char>, c: char) -> Seq<char>
    decreases s.len(),
{
    if s.len() > 0 && s[0] == c {
        strip_leading(s.drop_first(), c)
    } else {
        s
    }
}

/// Start and count of a `start,count` range; a start that is not a number,
/// or a missing or unreadable count, reads as 1.
pub open spec fn range_spec(r: Seq<char>) -> (usize, usize) {
    (
        parse_or(first_piece(r), 1),
        match second_piece(r) {
            Some(p) => parse_or(p, 1),
            None => 1,
        },
    )
}

fn range_from(s: &[char], lo: usize) -> (r: (usize, usize))
    requires
        lo <= s@.len(),
    ensures
        r == range_spec(s@.subrange(lo as int, s@.len() as int)),
{
    let start = parse_first_piece(s, lo, 1);
    let count = match parse_second_piece(s, lo, 1) {
        Some(c) => c,
        None => 1,
    };
    (start, count)
}

/// Reads a `start,count` range.
pub fn parse_range(range: &str) -> (r: (usize, usize))
    ensures
        r == range_spec(range@),
{
    let s = chars_of(range);
    proof {
        assert(s@.subrange(0, s@.len() as int) == s@);
    }
    range_from(s.as_slice(), 0)
}

proof fn lemma_strip_leading_suffix(s: Seq<char>, c: char, k: int)
    requires
        0 <= k <= s.len(),
        forall|j: int| 0 <= j < k ==> s[j] == c,
    ensures
        strip_leading(s, c) == strip_leading(s.subrange(k, s.len() as int), c),
    decreases k,
{
    if k > 0 {
        assert(s.drop_first().subrange(k - 1, s.drop_first().len() as int) == s.subrange(k, s.len() as int));
        lemma_strip_leading_suffix(s.drop_first(), c, k - 1);
    } else {
        assert(s.subrange(0, s.len() as int) == s);
    }
}

/// The index of the first character of `s` that is not `c`.
fn skip_leading(s: &[char], c: char) -> (r: usize)
    ensures
        r <= s@.len(),
        strip_leading(s@, c) == s@.subrange(r as int, s@.len() as int),
{
    let mut i: usize = 0;
    while i < s.len() && s[i] == c
        invariant
            i <= s@.len(),
            forall|j: int| 0 <= j < i ==> s@[j] == c,
        decreases s@.len() - i,
    {
        i = i + 1;
    }
    proof {
        lemma_strip_leading_suffix(s@, c, i as int);
        let t = s@.subrange(i as int, s@.len() as int);
        if t.len() > 0 {
            assert(t[0] == s@[i as int]);
        }
    }
    i
}

/// The hunk that a `@@ -a,b +c,d @@` line opens: the second word, without
/// its leading `-`, is the old range and the third, without its
/// leading `+`, the new one. A line of fewer than three words opens none.
pub open spec fn patch_header_spec(line: Seq<char>) -> Option<PatchHunkView> {
    let ws = words_of(line);
    if ws.len() < 3 {
        None
    } else {
        let (a, b) = range_spec(strip_leading(ws[1], '-'));
        let (c, d) = range_spec(strip_leading(ws[2], '+'));
        Some(PatchHunkView { original_start: a, original_count: b, new_start: c, new_count: d, lines: Seq::empty() })
    }
}

fn patch_header(line: &[char]) -> (r: Option<DiffHunk>)
    ensures
        match r {
            Some(h) => patch_header_spec(line@) == Some(h@),
            None => patch_header_spec(line@) is None,
        },
{
    let words = split_words(line);
    if words.len() < 3 {
        return None;
    }
    let w1 = &words[1];
    let w2 = &words[2];
    let k1 = skip_leading(w1.as_slice(), '-');
    let k2 = skip_leading(w2.as_slice(), '+');
    let (a, b) = range_from(w1.as_slice(), k1);
    let (c, d) = range_from(w2.as_slice(), k2);
    let h = DiffHunk { original_start: a, original_count: b, new_start: c, new_count: d, lines: Vec::new() };
    proof {
        assert(views_of(words@)[1] == w1@);
        assert(views_of(words@)[2] == w2@);
        assert(line_views(h.lines@) == Seq::<DiffLineView>::empty());
    }
    Some(h)
}

/// Reads a hunk header line.
pub fn parse_hunk_header(line: &str) -> (r: Option<DiffHunk>)
    ensures
        match r {
            Some(h) => patch_header_spec(line@) == Some(h@),
            None => patch_header_spec(line@) is None,
        },
{
    let s = chars_of(line);
    patch_header(s.as_slice())
}

/// Finished hunks and the hunk still open.
pub type PatchState = (Seq<PatchHunkView>, Option<PatchHunkView>);

pub open spec fn close_patch_hunk(st: PatchState) -> PatchState {
    match st.1 {
        Some(h) => (st.0.push(h), None),
        None => st,
    }
}

/// What a line inside a hunk adds to it: `+` an added line and `-` a removed
/// one (not `+++` or `---`), a space or an empty line a context line;
/// anything else nothing.
pub open spec fn body_line(line: Seq<char>) -> Option<DiffLineView> {
    if has_prefix(line, seq!['+']) && !has_prefix(line, seq!['+', '+', '+']) {
        Some(DiffLineView::Add(line.drop_first()))
    } else if has_prefix(line, seq!['-']) && !has_prefix(line, seq!['-', '-', '-']) {
        Some(DiffLineView::Remove(line.drop_first()))
    } else if line.len() == 0 {
        Some(DiffLineView::Context(Seq::empty()))
    } else if has_prefix(line, seq![' ']) {
        Some(DiffLineView::Context(line.drop_first()))
    } else {
        None
    }
}

pub open spec fn patch_step(st: PatchState, line: Seq<char>) -> PatchState {
    if has_prefix(line, seq!['@', '@']) {
        let c = close_patch_hunk(st);
        (c.0, patch_header_spec(line))
    } else {
        match st.1 {
            Some(h) => match body_line(line) {
                Some(l) => (st.0, Some(PatchHunkView { lines: h.lines.push(l), ..h })),
                None => st,
            },
            None => st,
        }
    }
}

pub open spec fn patch_scan(lines: Seq<Seq<char>>) -> PatchState
    decreases lines.len(),
{
    if lines.len() == 0 {
        (Seq::empty(), None)
    } else {
        patch_step(patch_scan(lines.drop_last()), lines.last())
    }
}

/// The hunks of a patch.
pub open spec fn patch_spec(diff: Seq<char>) -> Seq<PatchHunkView> {
    close_patch_hunk(patch_scan(lines_of(diff))).0
}

fn body_line_of(line: &[char]) -> (r: Option<DiffLine>)
    ensures
        match r {
            Some(l) => body_line(line@) == Some(l@),
            None => body_line(line@) is None,
        },
{
    let len = line.len();
    let plus = vec!['+'];
    let plus3 = vec!['+', '+', '+'];
    let minus = vec!['-'];
    let minus3 = vec!['-', '-', '-'];
    let space = vec![' '];
    proof {
        assert(plus@ == seq!['+']);
        assert(plus3@ == seq!['+', '+', '+']);
        assert(minus@ == seq!['-']);
        assert(minus3@ == seq!['-', '-', '-']);
        assert(space@ == seq![' ']);
    }
    if starts_with(line, plus.as_slice()) && !starts_with(line, plus3.as_slice()) {
        let rest = copy_range(line, 1, len);
        proof {
            assert(rest@ == line@.drop_first());
        }
        Some(DiffLine::Add(string_of(rest.as_slice())))
    } else if starts_with(line, minus.as_slice()) && !starts_with(line, minus3.as_slice()) {
        let rest = copy_range(line, 1, len);
        proof {
            assert(rest@ == line@.drop_first());
        }
        Some(DiffLine::Remove(string_of(rest.as_slice())))
    } else if len == 0 {
        let empty: Vec<char> = Vec::new();
        let e = string_of(empty.as_slice());
        proof {
            assert(e@ == Seq::<char>::empty());
        }
        Some(DiffLine::Context(e))
    } else if starts_with(line, space.as_slice()) {
        let rest = copy_range(line, 1, len);
        proof {
            assert(rest@ == line@.drop_first());
        }
        Some(DiffLine::Context(string_of(rest.as_slice())))
    } else {
        None
    }
}

spec fn open_patch_view(o: Option<DiffHunk>) -> Option<PatchHunkView> {
    match o {
        Some(h) => Some(h@),
        None => None,
    }
}

/// Parses a unified diff into its hunks.
pub fn parse_unified_diff(diff: &str) -> (r: Vec<DiffHunk>)
    ensures
        patch_views(r@) == patch_spec(diff@),
{
    let text = chars_of(diff);
    let lines = split_lines(text.as_slice());
    let ghost ls = views_of(lines@);
    let mut hunks: Vec<DiffHunk> = Vec::new();
    let mut current: Option<DiffHunk> = None;
    let at = vec!['@', '@'];
    let mut i: usize = 0;
    while i < lines.len()
        invariant
            i <= lines@.len(),
            ls == views_of(lines@),
            ls == lines_of(diff@),
            at@ == seq!['@', '@'],
            (patch_views(hunks@), open_patch_view(current)) == patch_scan(ls.subrange(0, i as int)),
        decreases lines@.len() - i,
    {
        let line = &lines[i];
        proof {
            let t = ls.subrange(0, i + 1);
            assert(t.drop_last() == ls.subrange(0, i as int));
            assert(t.last() == line@);
        }
        if starts_with(line.as_slice(), at.as_slice()) {
            if let Some(h) = current {
                hunks.push(h);
                proof {
                    assert(patch_views(hunks@) == patch_views(hunks@.drop_last()).push(h@));
                }
            }
            current = patch_header(line.as_slice());
        } else {
            match current {
                Some(mut h) => {
                    match body_line_of(line.as_slice()) {
                        Some(l) => {
                            let ghost before = h@;
                            h.lines.push(l);
                            proof {
                                assert(line_views(h.lines@) == before.lines.push(l@));
                            }
                        },
                        None => {},
                    }
                    current = Some(h);
                },
                None => {
                    current = None;
                },
            }
        }
        i = i + 1;
    }
    proof {
        assert(ls.subrange(0, lines@.len() as int) == ls);
    }
    if let Some(h) = current {
        hunks.push(h);
        proof {
            assert(patch_views(hunks@) == patch_views(hunks@.drop_last()).push(h@));
        }
    }
    hunks
}

} // verus!
