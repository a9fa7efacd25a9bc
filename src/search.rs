//! Documentation search results: parsing the search tool's line-numbered
//! output into chunks, de-duplicating and ordering them, and merging chunks
//! that lie close together in one file.
use vstd::prelude::*;
use crate::text::{chars_of, copy_range, parse_usize, parse_usize_spec, push_all, split_lines, string_of, lines_of, views_of, is_digit};

verus! {

/// A run of documentation lines found by a search.
#[derive(Debug, Clone)]
pub struct DocChunk {
    pub file: String,
    pub start_line: usize,
    pub end_line: usize,
    pub content: String,
}

/// The mathematical value of a chunk.
pub struct ChunkView {
    pub file: Seq<char>,
    pub start_line: usize,
    pub end_line: usize,
    pub content: Seq<char>,
}

impl View for DocChunk {
    type V = ChunkView;

    open spec fn view(&self) -> ChunkView {
        ChunkView {
            file: self.file@,
            start_line: self.start_line,
            end_line: self.end_line,
            content: self.content@,
        }
    }
}

pub open spec fn chunk_views(v: Seq<DocChunk>) -> Seq<ChunkView> {
    v.map_values(|c: DocChunk| c@)
}

// ---------------------------------------------------------------------------
// One line of search output

/// The first index at or after `k` where `sep` is directly followed by a digit.
pub open spec fn sep_digit_from(s: Seq<char>, sep: char, k: int) -> Option<int>
    decreases s.len() - k,
{
    if k < 0 || k + 1 >= s.len() {
        None
    } else if s[k] == sep && is_digit(s[k + 1]) {
        Some(k)
    } else {
        sep_digit_from(s, sep, k + 1)
    }
}

/// The first index at or after `k` that holds `c`.
pub open spec fn char_from(s: Seq<char>, c: char, k: int) -> Option<int>
    decreases s.len() - k,
{
    if k < 0 || k >= s.len() {
        None
    } else if s[k] == c {
        Some(k)
    } else {
        char_from(s, c, k + 1)
    }
}

/// Reads `path<sep>number<sep>content`, where the first separator is the
/// first `sep` directly followed by a digit, and the number ends at the next
/// `sep`.
pub open spec fn split_rg_line(s: Seq<char>, sep: char) -> Option<(Seq<char>, usize, Seq<char>)> {
    match sep_digit_from(s, sep, 0) {
        None => None,
        Some(i) => {
            let rest = s.subrange(i + 1, s.len() as int);
            match char_from(rest, sep, 0) {
                None => None,
                Some(j) => match parse_usize_spec(rest.subrange(0, j)) {
                    None => None,
                    Some(n) => Some((s.subrange(0, i), n, rest.subrange(j + 1, rest.len() as int))),
                },
            }
        },
    }
}

/// A match line (`:`) if the line reads as one, else a context line (`-`).
pub open spec fn rg_line_spec(s: Seq<char>) -> Option<(Seq<char>, usize, Seq<char>)> {
    match split_rg_line(s, ':') {
        Some(r) => Some(r),
        None => split_rg_line(s, '-'),
    }
}

fn find_sep_digit(s: &[char], sep: char) -> (r: Option<usize>)
    ensures
        match r {
            Some(i) => sep_digit_from(s@, sep, 0) == Some(i as int) && i + 1 < s@.len(),
            None => sep_digit_from(s@, sep, 0) is None,
        },
{
    let mut i: usize = 0;
    while s.len() - i > 1
        invariant
            i <= s@.len(),
            sep_digit_from(s@, sep, 0) == sep_digit_from(s@, sep, i as int),
        decreases s@.len() - i,
    {
        let c = s[i + 1];
        if s[i] == sep && '0' <= c && c <= '9' {
            return Some(i);
        }
        i = i + 1;
    }
    None
}

fn find_char(s: &[char], c: char, from: usize) -> (r: Option<usize>)
    requires
        from <= s@.len(),
    ensures
        match r {
            Some(i) => char_from(s@, c, from as int) == Some(i as int) && from <= i < s@.len(),
            None => char_from(s@, c, from as int) is None,
        },
{
    let mut i: usize = from;
    while i < s.len()
        invariant
            from <= i <= s@.len(),
            char_from(s@, c, from as int) == char_from(s@, c, i as int),
        decreases s@.len() - i,
    {
        if s[i] == c {
            return Some(i);
        }
        i = i + 1;
    }
    None
}

proof fn lemma_char_from_shift(s: Seq<char>, c: char, off: int, k: int)
    requires
        0 <= off <= s.len(),
        0 <= k,
    ensures
        char_from(s.subrange(off, s.len() as int), c, k) == (match char_from(s, c, off + k) {
            Some(x) => Some(x - off),
            None => None,
        }),
    decreases s.len() - off - k,
{
    if off + k < s.len() {
        lemma_char_from_shift(s, c, off, k + 1);
    }
}

fn split_rg_chars(s: &[char], sep: char) -> (r: Option<(Vec<char>, usize, Vec<char>)>)
    ensures
        match r {
            Some((f, n, c)) => split_rg_line(s@, sep) == Some((f@, n, c@)),
            None => split_rg_line(s@, sep) is None,
        },
{
    let len = s.len();
    match find_sep_digit(s, sep) {
        None => None,
        Some(i) => {
            let ghost rest = s@.subrange(i + 1, s@.len() as int);
            match find_char(s, sep, i + 1) {
                None => {
                    proof {
                        lemma_char_from_shift(s@, sep, i + 1, 0);
                    }
                    None
                },
                Some(j) => {
                    proof {
                        lemma_char_from_shift(s@, sep, i + 1, 0);
                        assert(rest.subrange(0, j - (i + 1)) == s@.subrange(i + 1, j as int));
                        assert(rest.subrange(j - (i + 1) + 1, rest.len() as int) == s@.subrange(j + 1, s@.len() as int));
                    }
                    match parse_usize(s, i + 1, j) {
                        None => None,
                        Some(n) => {
                            let f = copy_range(s, 0, i);
                            let c = copy_range(s, j + 1, len);
                            Some((f, n, c))
                        },
                    }
                },
            }
        },
    }
}

fn rg_line_chars(s: &[char]) -> (r: Option<(Vec<char>, usize, Vec<char>)>)
    ensures
        match r {
            Some((f, n, c)) => rg_line_spec(s@) == Some((f@, n, c@)),
            None => rg_line_spec(s@) is None,
        },
{
    match split_rg_chars(s, ':') {
        Some(r) => Some(r),
        None => split_rg_chars(s, '-'),
    }
}

/// Splits a line at the first `sep` that is directly followed by a digit:
/// the path before it, and the rest after it, which starts with the line
/// number.
pub fn split_at_line_number(line: &str, sep: char) -> (r: Option<(String, String)>)
    ensures
        match sep_digit_from(line@, sep, 0) {
            Some(i) => r is Some && r->Some_0.0@ == line@.subrange(0, i) && r->Some_0.1@ == line@.subrange(i + 1, line@.len() as int),
            None => r is None,
        },
{
    let s = chars_of(line);
    let len = s.len();
    match find_sep_digit(s.as_slice(), sep) {
        None => None,
        Some(i) => {
            let file = copy_range(s.as_slice(), 0, i);
            let rest = copy_range(s.as_slice(), i + 1, len);
            Some((string_of(file.as_slice()), string_of(rest.as_slice())))
        },
    }
}

/// Reads one line of search output into its file, line number and content.
pub fn parse_rg_line(line: &str) -> (r: Option<(String, usize, String)>)
    ensures
        match r {
            Some((f, n, c)) => rg_line_spec(line@) == Some((f@, n, c@)),
            None => rg_line_spec(line@) is None,
        },
{
    let s = chars_of(line);
    match rg_line_chars(s.as_slice()) {
        None => None,
        Some((f, n, c)) => Some((string_of(f.as_slice()), n, string_of(c.as_slice()))),
    }
}

// ---------------------------------------------------------------------------
// Chunks from the whole output

/// The contents joined by newlines.
pub open spec fn join_lines(ls: Seq<Seq<char>>) -> Seq<char>
    decreases ls.len(),
{
    if ls.len() == 0 {
        Seq::empty()
    } else if ls.len() == 1 {
        ls[0]
    } else {
        join_lines(ls.drop_last()) + seq!['\n'] + ls.last()
    }
}

pub open spec fn numbered_views(v: Seq<(usize, Vec<char>)>) -> Seq<(usize, Seq<char>)> {
    v.map_values(|p: (usize, Vec<char>)| (p.0, p.1@))
}

/// The chunk made of consecutive numbered lines of one file.
pub open spec fn chunk_of(file: Seq<char>, lines: Seq<(usize, Seq<char>)>) -> ChunkView {
    ChunkView {
        file,
        start_line: if lines.len() > 0 { lines[0].0 } else { 1 },
        end_line: if lines.len() > 0 { lines.last().0 } else { 1 },
        content: join_lines(lines.map_values(|p: (usize, Seq<char>)| p.1)),
    }
}

fn create_chunk(file: &[char], lines: &Vec<(usize, Vec<char>)>) -> (r: DocChunk)
    ensures
        r@ == chunk_of(file@, numbered_views(lines@)),
{
    let ghost ls = numbered_views(lines@).map_values(|p: (usize, Seq<char>)| p.1);
    let mut content: Vec<char> = Vec::new();
    let mut i: usize = 0;
    while i < lines.len()
        invariant
            i <= lines@.len(),
            ls == numbered_views(lines@).map_values(|p: (usize, Seq<char>)| p.1),
            content@ == join_lines(ls.subrange(0, i as int)),
        decreases lines@.len() - i,
    {
        if i > 0 {
            content.push('\n');
        }
        push_all(&mut content, lines[i].1.as_slice());
        proof {
            let t = ls.subrange(0, i + 1);
            assert(t.drop_last() == ls.subrange(0, i as int));
            assert(t.last() == lines@[i as int].1@);
            if i == 0 {
                assert(t.len() == 1);
            }
        }
        i = i + 1;
    }
    proof {
        assert(ls.subrange(0, lines@.len() as int) == ls);
    }
    let start_line: usize = if lines.len() > 0 { lines[0].0 } else { 1 };
    let end_line: usize = if lines.len() > 0 { lines[lines.len() - 1].0 } else { 1 };
    DocChunk {
        file: string_of(file),
        start_line,
        end_line,
        content: string_of(content.as_slice()),
    }
}

/// Chunks finished so far, the file being read, and its lines not yet in a chunk.
pub type RgState = (Seq<ChunkView>, Option<Seq<char>>, Seq<(usize, Seq<char>)>);

/// Closes the open chunk, if it has lines.
pub open spec fn rg_flush(st: RgState) -> RgState {
    match st.1 {
        Some(f) => if st.2.len() > 0 {
            (st.0.push(chunk_of(f, st.2)), st.1, Seq::empty())
        } else {
            st
        },
        None => st,
    }
}

pub open spec fn rg_separator() -> Seq<char> {
    seq!['-', '-']
}

/// One output line: `--` closes the chunk; a line of another file closes it
/// and opens that file; any readable line joins the open chunk.
pub open spec fn rg_step(st: RgState, line: Seq<char>) -> RgState {
    if line == rg_separator() {
        rg_flush(st)
    } else {
        match rg_line_spec(line) {
            None => st,
            Some((f, n, c)) => {
                let st2 = if st.1 != Some(f) {
                    let fl = rg_flush(st);
                    (fl.0, Some(f), fl.2)
                } else {
                    st
                };
                (st2.0, st2.1, st2.2.push((n, c)))
            },
        }
    }
}

pub open spec fn rg_scan(lines: Seq<Seq<char>>) -> RgState
    decreases lines.len(),
{
    if lines.len() == 0 {
        (Seq::empty(), None, Seq::empty())
    } else {
        rg_step(rg_scan(lines.drop_last()), lines.last())
    }
}

/// The chunks that search output describes, in the order it gives them.
pub open spec fn rg_chunks(output: Seq<char>) -> Seq<ChunkView> {
    rg_flush(rg_scan(lines_of(output))).0
}

pub open spec fn opt_view(o: Option<Vec<char>>) -> Option<Seq<char>> {
    match o {
        Some(v) => Some(v@),
        None => None,
    }
}

fn flush_chunk(
    chunks: &mut Vec<DocChunk>,
    file: &Option<Vec<char>>,
    lines: &mut Vec<(usize, Vec<char>)>,
)
    ensures
        (chunk_views(final(chunks)@), opt_view(*file), numbered_views(final(lines)@)) == rg_flush(
            (chunk_views(old(chunks)@), opt_view(*file), numbered_views(old(lines)@)),
        ),
{
    if let Some(f) = file {
        if lines.len() > 0 {
            let c = create_chunk(f.as_slice(), lines);
            chunks.push(c);
            *lines = Vec::new();
            proof {
                assert(chunk_views(chunks@) == chunk_views(old(chunks)@).push(c@));
                assert(numbered_views(lines@) == Seq::<(usize, Seq<char>)>::empty());
            }
        }
    }
}

/// Parses the search tool's output into chunks.
pub fn parse_ripgrep_output(output: &str) -> (r: Vec<DocChunk>)
    ensures
        chunk_views(r@) == rg_chunks(output@),
{
    let text = chars_of(output);
    let lines = split_lines(text.as_slice());
    let ghost ls = views_of(lines@);
    let mut chunks: Vec<DocChunk> = Vec::new();
    let mut current_file: Option<Vec<char>> = None;
    let mut current_lines: Vec<(usize, Vec<char>)> = Vec::new();
    let sep = vec!['-', '-'];
    let mut i: usize = 0;
    while i < lines.len()
        invariant
            i <= lines@.len(),
            ls == views_of(lines@),
            ls == lines_of(output@),
            sep@ == rg_separator(),
            (chunk_views(chunks@), opt_view(current_file), numbered_views(current_lines@)) == rg_scan(
                ls.subrange(0, i as int),
            ),
        decreases lines@.len() - i,
    {
        let line = &lines[i];
        proof {
            let t = ls.subrange(0, i + 1);
            assert(t.drop_last() == ls.subrange(0, i as int));
            assert(t.last() == line@);
        }
        let is_sep = line.len() == 2 && line[0] == '-' && line[1] == '-';
        proof {
            if is_sep {
                assert(line@ == rg_separator());
            } else if line@ == rg_separator() {
                assert(line@[0] == '-' && line@[1] == '-');
            }
        }
        if is_sep {
            flush_chunk(&mut chunks, &current_file, &mut current_lines);
        } else {
            match rg_line_chars(line.as_slice()) {
                None => {},
                Some((f, n, c)) => {
                    let same = match &current_file {
                        Some(cf) => vec_eq(cf.as_slice(), f.as_slice()),
                        None => false,
                    };
                    proof {
                        assert(same == (opt_view(current_file) == Some(f@)));
                    }
                    if !same {
                        flush_chunk(&mut chunks, &current_file, &mut current_lines);
                        current_file = Some(f);
                    }
                    let ghost before = current_lines@;
                    current_lines.push((n, c));
                    proof {
                        assert(numbered_views(current_lines@) == numbered_views(before).push((n, c@)));
                    }
                },
            }
        }
        i = i + 1;
    }
    proof {
        assert(ls.subrange(0, lines@.len() as int) == ls);
    }
    flush_chunk(&mut chunks, &current_file, &mut current_lines);
    chunks
}


// ---------------------------------------------------------------------------
// Ordering and de-duplication

/// Lexicographic order of character sequences, the order of `String`.
pub open spec fn seq_lt(a: Seq<char>, b: Seq<char>) -> bool
    decreases a.len(),
{
    if b.len() == 0 {
        false
    } else if a.len() == 0 {
        true
    } else if a[0] != b[0] {
        a[0] < b[0]
    } else {
        seq_lt(a.drop_first(), b.drop_first())
    }
}

proof fn lemma_seq_lt_irrefl(a: Seq<char>)
    ensures
        !seq_lt(a, a),
    decreases a.len(),
{
    if a.len() > 0 {
        lemma_seq_lt_irrefl(a.drop_first());
    }
}

proof fn lemma_seq_lt_trans(a: Seq<char>, b: Seq<char>, c: Seq<char>)
    requires
        seq_lt(a, b),
        seq_lt(b, c),
    ensures
        seq_lt(a, c),
    decreases a.len(),
{
    if a.len() > 0 && b.len() > 0 && c.len() > 0 && a[0] == b[0] && b[0] == c[0] {
        lemma_seq_lt_trans(a.drop_first(), b.drop_first(), c.drop_first());
    }
}

proof fn lemma_seq_lt_total(a: Seq<char>, b: Seq<char>)
    requires
        a != b,
    ensures
        seq_lt(a, b) || seq_lt(b, a),
    decreases a.len(),
{
    if a.len() == 0 || b.len() == 0 {
        if a.len() == 0 && b.len() == 0 {
            assert(a == b);
        }
    } else if a[0] == b[0] {
        if a.drop_first() == b.drop_first() {
            assert(a == seq![a[0]] + a.drop_first());
            assert(b == seq![b[0]] + b.drop_first());
        }
        lemma_seq_lt_total(a.drop_first(), b.drop_first());
    }
}

/// Compares two character sequences in the order of `seq_lt`.
pub fn chars_lt(a: &[char], b: &[char]) -> (r: bool)
    ensures
        r == seq_lt(a@, b@),
{
    let alen = a.len();
    let blen = b.len();
    let mut i: usize = 0;
    proof {
        assert(a@.subrange(0, alen as int) == a@);
        assert(b@.subrange(0, blen as int) == b@);
    }
    while i < alen && i < blen && a[i] == b[i]
        invariant
            alen == a@.len(),
            blen == b@.len(),
            i <= alen,
            i <= blen,
            seq_lt(a@, b@) == seq_lt(a@.subrange(i as int, alen as int), b@.subrange(i as int, blen as int)),
        decreases alen - i,
    {
        proof {
            let x = a@.subrange(i as int, alen as int);
            let y = b@.subrange(i as int, blen as int);
            assert(x.drop_first() == a@.subrange(i + 1, alen as int));
            assert(y.drop_first() == b@.subrange(i + 1, blen as int));
        }
        i = i + 1;
    }
    if i == blen {
        false
    } else if i == alen {
        true
    } else {
        a[i] < b[i]
    }
}

/// The order chunks are reported in: by file, then by first line.
pub open spec fn key_lt(x: ChunkView, y: ChunkView) -> bool {
    seq_lt(x.file, y.file) || (x.file == y.file && x.start_line < y.start_line)
}

/// Two chunks at the same position: same file, same first line.
pub open spec fn same_key(x: ChunkView, y: ChunkView) -> bool {
    x.file == y.file && x.start_line == y.start_line
}

proof fn lemma_key_lt_trans(x: ChunkView, y: ChunkView, z: ChunkView)
    requires
        key_lt(x, y),
        key_lt(y, z),
    ensures
        key_lt(x, z),
{
    if seq_lt(x.file, y.file) && seq_lt(y.file, z.file) {
        lemma_seq_lt_trans(x.file, y.file, z.file);
    }
}

proof fn lemma_key_lt_total(x: ChunkView, y: ChunkView)
    requires
        !same_key(x, y),
    ensures
        key_lt(x, y) || key_lt(y, x),
{
    if x.file != y.file {
        lemma_seq_lt_total(x.file, y.file);
    }
}

/// Every chunk comes before every later one.
pub open spec fn sorted_by_key(s: Seq<ChunkView>) -> bool {
    forall|i: int, j: int| 0 <= i < j < s.len() ==> key_lt(#[trigger] s[i], #[trigger] s[j])
}

pub open spec fn has_key(s: Seq<ChunkView>, c: ChunkView) -> bool {
    exists|k: int| 0 <= k < s.len() && same_key(#[trigger] s[k], c)
}

/// The first index at or after `k` whose chunk does not come before `c`.
pub open spec fn first_not_less(s: Seq<ChunkView>, c: ChunkView, k: int) -> int
    decreases s.len() - k,
{
    if k < 0 || k >= s.len() {
        s.len() as int
    } else if key_lt(s[k], c) {
        first_not_less(s, c, k + 1)
    } else {
        k
    }
}

/// Adds `c` at its place in the order, unless its position is already there.
pub open spec fn dedup_insert(s: Seq<ChunkView>, c: ChunkView) -> Seq<ChunkView> {
    if has_key(s, c) {
        s
    } else {
        s.insert(first_not_less(s, c, 0), c)
    }
}

/// The chunks, the first of each position kept, ordered by position.
pub open spec fn dedup_sorted(s: Seq<ChunkView>) -> Seq<ChunkView>
    decreases s.len(),
{
    if s.len() == 0 {
        Seq::empty()
    } else {
        dedup_insert(dedup_sorted(s.drop_last()), s.last())
    }
}

proof fn lemma_first_not_less(s: Seq<ChunkView>, c: ChunkView, k: int)
    requires
        0 <= k <= s.len(),
        forall|j: int| 0 <= j < k ==> key_lt(#[trigger] s[j], c),
    ensures
        k <= first_not_less(s, c, k) <= s.len(),
        forall|j: int| 0 <= j < first_not_less(s, c, k) ==> key_lt(#[trigger] s[j], c),
        first_not_less(s, c, k) < s.len() ==> !key_lt(s[first_not_less(s, c, k)], c),
    decreases s.len() - k,
{
    if k < s.len() && key_lt(s[k], c) {
        lemma_first_not_less(s, c, k + 1);
    }
}

proof fn lemma_dedup_insert_sorted(s: Seq<ChunkView>, c: ChunkView)
    requires
        sorted_by_key(s),
    ensures
        sorted_by_key(dedup_insert(s, c)),
{
    if !has_key(s, c) {
        lemma_first_not_less(s, c, 0);
        let p = first_not_less(s, c, 0);
        let t = s.insert(p, c);
        if p < s.len() {
            if same_key(s[p], c) {
                assert(has_key(s, c));
            }
            lemma_key_lt_total(s[p], c);
        }
        assert forall|i: int, j: int| 0 <= i < j < t.len() implies key_lt(#[trigger] t[i], #[trigger] t[j]) by {
            if i < p && j == p {
            } else if i == p && j > p {
                if j > p + 1 {
                    lemma_key_lt_trans(c, s[p], s[j - 1]);
                }
            } else if i < p && j > p {
                assert(key_lt(s[i], s[j - 1]));
            } else if j < p {
                assert(key_lt(s[i], s[j]));
            } else {
                assert(key_lt(s[i - 1], s[j - 1]));
            }
        }
    }
}

/// The result of `dedup_sorted` is ordered by position.
pub proof fn lemma_dedup_sorted_is_sorted(s: Seq<ChunkView>)
    ensures
        sorted_by_key(dedup_sorted(s)),
    decreases s.len(),
{
    if s.len() > 0 {
        lemma_dedup_sorted_is_sorted(s.drop_last());
        lemma_dedup_insert_sorted(dedup_sorted(s.drop_last()), s.last());
    }
}

/// Every position found is kept by `dedup_sorted`.
pub proof fn lemma_dedup_sorted_keeps_positions(s: Seq<ChunkView>, i: int)
    requires
        0 <= i < s.len(),
    ensures
        has_key(dedup_sorted(s), s[i]),
    decreases s.len(),
{
    let prev = dedup_sorted(s.drop_last());
    if i < s.len() - 1 {
        lemma_dedup_sorted_keeps_positions(s.drop_last(), i);
        if !has_key(prev, s.last()) {
            let p = first_not_less(prev, s.last(), 0);
            lemma_first_not_less(prev, s.last(), 0);
            let k = choose|k: int| 0 <= k < prev.len() && same_key(#[trigger] prev[k], s[i]);
            let t = prev.insert(p, s.last());
            if k < p {
                assert(t[k] == prev[k]);
            } else {
                assert(t[k + 1] == prev[k]);
            }
        }
    } else if !has_key(prev, s.last()) {
        lemma_first_not_less(prev, s.last(), 0);
        let p = first_not_less(prev, s.last(), 0);
        assert(prev.insert(p, s.last())[p] == s.last());
    }
}

/// A copy of a chunk.
pub fn copy_chunk(c: &DocChunk) -> (r: DocChunk)
    ensures
        r@ == c@,
{
    DocChunk {
        file: c.file.clone(),
        start_line: c.start_line,
        end_line: c.end_line,
        content: c.content.clone(),
    }
}

fn chunk_key_lt(x: &DocChunk, y: &DocChunk) -> (r: bool)
    ensures
        r == key_lt(x@, y@),
{
    let xf = chars_of(x.file.as_str());
    let yf = chars_of(y.file.as_str());
    if chars_lt(xf.as_slice(), yf.as_slice()) {
        true
    } else {
        x.file == y.file && x.start_line < y.start_line
    }
}

/// Keeps the first chunk of each position and orders the chunks by position.
pub fn dedup_sort(chunks: &Vec<DocChunk>) -> (r: Vec<DocChunk>)
    ensures
        chunk_views(r@) == dedup_sorted(chunk_views(chunks@)),
{
    let ghost cs = chunk_views(chunks@);
    let mut out: Vec<DocChunk> = Vec::new();
    let mut i: usize = 0;
    while i < chunks.len()
        invariant
            i <= chunks@.len(),
            cs == chunk_views(chunks@),
            chunk_views(out@) == dedup_sorted(cs.subrange(0, i as int)),
        decreases chunks@.len() - i,
    {
        let c = &chunks[i];
        let ghost acc = chunk_views(out@);
        proof {
            let t = cs.subrange(0, i + 1);
            assert(t.drop_last() == cs.subrange(0, i as int));
            assert(t.last() == c@);
        }
        let mut found = false;
        let mut k: usize = 0;
        while k < out.len()
            invariant
                k <= out@.len(),
                acc == chunk_views(out@),
                found ==> has_key(acc, c@),
                !found ==> forall|j: int| 0 <= j < k ==> !same_key(#[trigger] acc[j], c@),
            decreases out@.len() - k,
        {
            if out[k].file == c.file && out[k].start_line == c.start_line {
                proof {
                    assert(same_key(acc[k as int], c@));
                }
                found = true;
            }
            k = k + 1;
        }
        if !found {
            let mut p: usize = 0;
            while p < out.len() && chunk_key_lt(&out[p], c)
                invariant
                    p <= out@.len(),
                    acc == chunk_views(out@),
                    first_not_less(acc, c@, 0) == first_not_less(acc, c@, p as int),
                decreases out@.len() - p,
            {
                p = p + 1;
            }
            out.insert(p, copy_chunk(c));
            proof {
                assert(chunk_views(out@) == acc.insert(p as int, c@));
            }
        }
        i = i + 1;
    }
    proof {
        assert(cs.subrange(0, chunks@.len() as int) == cs);
    }
    out
}

// ---------------------------------------------------------------------------
// Merging chunks that lie close together

/// The largest gap in lines across which two chunks of a file are merged.
pub const MERGE_DISTANCE: usize = 5;

/// `next` starts within the merge distance of the end of `prev`, in the same file.
pub open spec fn close_to(prev: ChunkView, next: ChunkView) -> bool {
    prev.file == next.file && next.start_line <= prev.end_line + MERGE_DISTANCE
}

pub open spec fn ellipsis() -> Seq<char> {
    seq!['\n', '.', '.', '.', '\n']
}

/// `prev` extended by `next`: the later of the two end lines, and both
/// contents with an ellipsis line between them.
pub open spec fn merge_into(prev: ChunkView, next: ChunkView) -> ChunkView {
    ChunkView {
        file: prev.file,
        start_line: prev.start_line,
        end_line: if next.end_line > prev.end_line { next.end_line } else { prev.end_line },
        content: prev.content + ellipsis() + next.content,
    }
}

pub open spec fn merge_step(acc: Seq<ChunkView>, c: ChunkView) -> Seq<ChunkView> {
    if acc.len() > 0 && close_to(acc.last(), c) {
        acc.drop_last().push(merge_into(acc.last(), c))
    } else {
        acc.push(c)
    }
}

/// The chunks with each one that starts close to the end of the one before
/// it merged into that one.
pub open spec fn merged(s: Seq<ChunkView>) -> Seq<ChunkView>
    decreases s.len(),
{
    if s.len() == 0 {
        Seq::empty()
    } else {
        merge_step(merged(s.drop_last()), s.last())
    }
}

/// No chunk starts close to the end of the one before it.
pub open spec fn separated(s: Seq<ChunkView>) -> bool {
    forall|i: int| 0 <= i < s.len() - 1 ==> !close_to(#[trigger] s[i], s[i + 1])
}

/// After merging, no two neighbouring chunks of one file are within the
/// merge distance of each other.
pub proof fn lemma_merged_separated(s: Seq<ChunkView>)
    ensures
        separated(merged(s)),
    decreases s.len(),
{
    if s.len() > 0 {
        lemma_merged_separated(s.drop_last());
        let acc = merged(s.drop_last());
        let out = merged(s);
        assert forall|i: int| 0 <= i < out.len() - 1 implies !close_to(#[trigger] out[i], out[i + 1]) by {
            assert(out[i] == acc[i]);
            if i + 1 < acc.len() {
                assert(!close_to(acc[i], acc[i + 1]));
            }
        }
    }
}

/// Merging chunks that are already separated leaves them as they are.
pub proof fn lemma_merged_of_separated(s: Seq<ChunkView>)
    requires
        separated(s),
    ensures
        merged(s) == s,
    decreases s.len(),
{
    if s.len() > 0 {
        let p = s.drop_last();
        assert(separated(p)) by {
            assert forall|i: int| 0 <= i < p.len() - 1 implies !close_to(#[trigger] p[i], p[i + 1]) by {
                assert(!close_to(s[i], s[i + 1]));
            }
        }
        lemma_merged_of_separated(p);
        if s.len() > 1 {
            assert(!close_to(s[s.len() - 2], s[s.len() - 1]));
        }
        assert(p.push(s.last()) == s);
    }
}

/// Merging is idempotent: merging merged chunks changes nothing.
pub proof fn lemma_merge_idempotent(s: Seq<ChunkView>)
    ensures
        merged(merged(s)) == merged(s),
{
    lemma_merged_separated(s);
    lemma_merged_of_separated(merged(s));
}

/// The last merged chunk is in the file of the last chunk and reaches at
/// least to its end line.
proof fn lemma_merged_last(s: Seq<ChunkView>)
    requires
        s.len() > 0,
    ensures
        merged(s).len() > 0,
        merged(s).last().file == s.last().file,
        merged(s).last().end_line >= s.last().end_line,
    decreases s.len(),
{
    if s.len() > 1 {
        lemma_merged_last(s.drop_last());
    }
}

/// Two neighbouring chunks of one file within the merge distance end up in
/// one merged chunk: the second joins the merged chunk that holds the first.
pub proof fn lemma_close_chunks_join(s: Seq<ChunkView>, k: int)
    requires
        0 <= k,
        k + 1 < s.len(),
        close_to(s[k], s[k + 1]),
    ensures
        merged(s.subrange(0, k + 2)) == ({
            let m = merged(s.subrange(0, k + 1));
            m.drop_last().push(merge_into(m.last(), s[k + 1]))
        }),
{
    let p = s.subrange(0, k + 1);
    let q = s.subrange(0, k + 2);
    assert(q.drop_last() == p);
    assert(q.last() == s[k + 1]);
    assert(p.last() == s[k]);
    lemma_merged_last(p);
}

fn merge_chunk(prev: &DocChunk, next: &DocChunk) -> (r: DocChunk)
    ensures
        r@ == merge_into(prev@, next@),
{
    let mut content = chars_of(prev.content.as_str());
    let sep = vec!['\n', '.', '.', '.', '\n'];
    push_all(&mut content, sep.as_slice());
    let more = chars_of(next.content.as_str());
    push_all(&mut content, more.as_slice());
    DocChunk {
        file: prev.file.clone(),
        start_line: prev.start_line,
        end_line: if next.end_line > prev.end_line { next.end_line } else { prev.end_line },
        content: string_of(content.as_slice()),
    }
}

/// Merges each chunk that starts within the merge distance of the end of the
/// chunk before it, in the same file, into that chunk.
pub fn merge_adjacent_chunks(chunks: Vec<DocChunk>) -> (r: Vec<DocChunk>)
    ensures
        chunk_views(r@) == merged(chunk_views(chunks@)),
        separated(chunk_views(r@)),
{
    let ghost cs = chunk_views(chunks@);
    let mut out: Vec<DocChunk> = Vec::new();
    let mut i: usize = 0;
    while i < chunks.len()
        invariant
            i <= chunks@.len(),
            cs == chunk_views(chunks@),
            chunk_views(out@) == merged(cs.subrange(0, i as int)),
        decreases chunks@.len() - i,
    {
        let c = &chunks[i];
        proof {
            let t = cs.subrange(0, i + 1);
            assert(t.drop_last() == cs.subrange(0, i as int));
            assert(t.last() == c@);
        }
        let n = out.len();
        let close = n > 0 && out[n - 1].file == c.file && (c.start_line <= out[n - 1].end_line
            || c.start_line - out[n - 1].end_line <= MERGE_DISTANCE);
        if close {
            let last = out.pop().unwrap();
            let m = merge_chunk(&last, c);
            out.push(m);
            proof {
                assert(chunk_views(out@) == chunk_views(out@.drop_last()).push(m@));
            }
        } else {
            out.push(copy_chunk(c));
            proof {
                assert(chunk_views(out@) == chunk_views(out@.drop_last()).push(c@));
            }
        }
        i = i + 1;
    }
    proof {
        assert(cs.subrange(0, chunks@.len() as int) == cs);
        lemma_merged_separated(cs);
    }
    out
}


// ---------------------------------------------------------------------------
// Results of all queries

/// The chunks of every query, query after query.
pub open spec fn concat_all(s: Seq<Seq<ChunkView>>) -> Seq<ChunkView>
    decreases s.len(),
{
    if s.len() == 0 {
        Seq::empty()
    } else {
        concat_all(s.drop_last()) + s.last()
    }
}

pub open spec fn result_views(v: Seq<Vec<DocChunk>>) -> Seq<Seq<ChunkView>> {
    v.map_values(|r: Vec<DocChunk>| chunk_views(r@))
}

/// What a search reports for the chunks that its queries found: the first
/// chunk of each position, ordered by position, close ones merged.
pub open spec fn combined(results: Seq<Seq<ChunkView>>) -> Seq<ChunkView> {
    merged(dedup_sorted(concat_all(results)))
}

proof fn lemma_key_lt_same_left(x: ChunkView, y: ChunkView, z: ChunkView)
    requires
        same_key(x, y),
        key_lt(y, z),
    ensures
        key_lt(x, z),
{
}

/// Merging ordered chunks keeps them ordered; each merged chunk starts where
/// one of the chunks did.
proof fn lemma_merged_sorted(s: Seq<ChunkView>)
    requires
        sorted_by_key(s),
    ensures
        sorted_by_key(merged(s)),
        forall|k: int| 0 <= k < merged(s).len() ==> exists|j: int| 0 <= j < s.len() && same_key(#[trigger] merged(s)[k], s[j]),
    decreases s.len(),
{
    if s.len() > 0 {
        let p = s.drop_last();
        assert(sorted_by_key(p)) by {
            assert forall|i: int, j: int| 0 <= i < j < p.len() implies key_lt(#[trigger] p[i], #[trigger] p[j]) by {
                assert(key_lt(s[i], s[j]));
            }
        }
        lemma_merged_sorted(p);
        let acc = merged(p);
        let out = merged(s);
        let c = s.last();
        assert forall|k: int| 0 <= k < acc.len() implies key_lt(#[trigger] acc[k], c) by {
            let j = choose|j: int| 0 <= j < p.len() && same_key(acc[k], #[trigger] p[j]);
            assert(key_lt(s[j], s[s.len() - 1]));
            lemma_key_lt_same_left(acc[k], p[j], c);
        }
        assert forall|k: int| 0 <= k < out.len() implies exists|j: int| 0 <= j < s.len() && same_key(#[trigger] out[k], s[j]) by {
            if k < acc.len() {
                let j = choose|j: int| 0 <= j < p.len() && same_key(acc[k], #[trigger] p[j]);
                assert(same_key(out[k], s[j]));
            } else {
                assert(same_key(out[k], s[s.len() - 1]));
            }
        }
        assert forall|i: int, j: int| 0 <= i < j < out.len() implies key_lt(#[trigger] out[i], #[trigger] out[j]) by {
            if j < acc.len() {
                assert(key_lt(acc[i], acc[j]));
            } else {
                assert(key_lt(acc[i], c));
            }
        }
    }
}

/// Two chunks in order are at different positions.
proof fn lemma_key_lt_not_same(x: ChunkView, y: ChunkView)
    requires
        key_lt(x, y),
    ensures
        !same_key(x, y),
{
    lemma_seq_lt_irrefl(x.file);
}

/// De-duplication across queries: a position that any query found is kept,
/// and the final list holds no two chunks at one position.
pub proof fn lemma_one_chunk_per_position(results: Seq<Seq<ChunkView>>)
    ensures
        forall|i: int| 0 <= i < concat_all(results).len() ==> has_key(dedup_sorted(concat_all(results)), #[trigger] concat_all(results)[i]),
        forall|i: int, j: int| 0 <= i < j < combined(results).len() ==> !same_key(#[trigger] combined(results)[i], #[trigger] combined(results)[j]),
        sorted_by_key(combined(results)),
{
    let all = concat_all(results);
    assert forall|i: int| 0 <= i < all.len() implies has_key(dedup_sorted(all), #[trigger] all[i]) by {
        lemma_dedup_sorted_keeps_positions(all, i);
    }
    lemma_dedup_sorted_is_sorted(all);
    lemma_merged_sorted(dedup_sorted(all));
    let out = combined(results);
    assert forall|i: int, j: int| 0 <= i < j < out.len() implies !same_key(#[trigger] out[i], #[trigger] out[j]) by {
        lemma_key_lt_not_same(out[i], out[j]);
    }
}

/// Chunk `c` is in file `f` and its lines include line `n`.
pub open spec fn covers(c: ChunkView, f: Seq<char>, n: usize) -> bool {
    c.file == f && c.start_line <= n <= c.end_line
}

/// Every chunk starts no later than it ends.
pub open spec fn well_formed_chunks(s: Seq<ChunkView>) -> bool {
    forall|i: int| 0 <= i < s.len() ==> (#[trigger] s[i]).start_line <= s[i].end_line
}

/// Two chunks of one file in this order: the first ends before the second starts.
pub open spec fn ranges_apart(s: Seq<ChunkView>) -> bool {
    forall|p: int, q: int| 0 <= p < q < s.len() && (#[trigger] s[p]).file == (#[trigger] s[q]).file ==> s[p].end_line < s[q].start_line
}

/// Some chunk of `s` covers the first line of `x`.
pub open spec fn start_covered(s: Seq<ChunkView>, x: ChunkView) -> bool {
    exists|p: int| 0 <= p < s.len() && #[trigger] covers(s[p], x.file, x.start_line)
}

/// Merging ordered, well-formed chunks gives well-formed chunks whose line
/// ranges within a file do not meet, and each chunk's first line lies in
/// one of them.
#[verifier::rlimit(60)]
proof fn lemma_merged_ranges(s: Seq<ChunkView>)
    requires
        sorted_by_key(s),
        well_formed_chunks(s),
    ensures
        well_formed_chunks(merged(s)),
        ranges_apart(merged(s)),
        forall|i: int| 0 <= i < s.len() ==> start_covered(merged(s), #[trigger] s[i]),
        s.len() > 0 ==> merged(s).len() > 0 && merged(s).last().file == s.last().file
            && merged(s).last().start_line <= s.last().start_line,
    decreases s.len(),
{
    if s.len() > 0 {
        let p = s.drop_last();
        assert(sorted_by_key(p)) by {
            assert forall|i: int, j: int| 0 <= i < j < p.len() implies key_lt(#[trigger] p[i], #[trigger] p[j]) by {
                assert(key_lt(s[i], s[j]));
            }
        }
        assert(well_formed_chunks(p)) by {
            assert forall|i: int| 0 <= i < p.len() implies (#[trigger] p[i]).start_line <= p[i].end_line by {
                assert(s[i].start_line <= s[i].end_line);
            }
        }
        lemma_merged_ranges(p);
        lemma_merged_sorted(p);
        let acc = merged(p);
        let out = merged(s);
        let c = s.last();
        let n = acc.len() - 1;
        assert(c.start_line <= c.end_line);
        assert forall|k: int| 0 <= k < acc.len() implies key_lt(#[trigger] acc[k], c) by {
            let j = choose|j: int| 0 <= j < p.len() && same_key(acc[k], #[trigger] p[j]);
            assert(key_lt(s[j], s[s.len() - 1]));
            lemma_key_lt_same_left(acc[k], p[j], c);
        }
        if p.len() > 0 {
            assert(key_lt(s[s.len() - 2], s[s.len() - 1]));
            assert(p.last() == s[s.len() - 2]);
        }
        if acc.len() > 0 && close_to(acc.last(), c) {
            let m = merge_into(acc.last(), c);
            assert(out == acc.drop_last().push(m));
            lemma_seq_lt_irrefl(c.file);
            assert(p.last().file == c.file);
            assert(acc.last().start_line < c.start_line);
            assert forall|i: int| 0 <= i < out.len() implies (#[trigger] out[i]).start_line <= out[i].end_line by {
                if i < n {
                    assert(out[i] == acc[i]);
                }
            }
            assert forall|a: int, b: int| 0 <= a < b < out.len() && (#[trigger] out[a]).file == (#[trigger] out[b]).file implies out[a].end_line < out[b].start_line by {
                assert(out[a] == acc[a]);
                if b < n {
                    assert(out[b] == acc[b]);
                } else {
                    assert(acc[a].end_line < acc[n].start_line);
                }
            }
            assert forall|i: int| 0 <= i < s.len() implies start_covered(out, #[trigger] s[i]) by {
                if i < p.len() {
                    assert(s[i] == p[i]);
                    let q = choose|q: int| 0 <= q < acc.len() && #[trigger] covers(acc[q], p[i].file, p[i].start_line);
                    if q < n {
                        assert(out[q] == acc[q]);
                        assert(covers(out[q], s[i].file, s[i].start_line));
                    } else {
                        assert(covers(out[n], s[i].file, s[i].start_line));
                    }
                } else {
                    assert(covers(out[n], s[i].file, s[i].start_line));
                }
            }
        } else {
            assert(out == acc.push(c));
            assert forall|i: int| 0 <= i < out.len() implies (#[trigger] out[i]).start_line <= out[i].end_line by {
                if i < acc.len() {
                    assert(out[i] == acc[i]);
                }
            }
            assert forall|a: int, b: int| 0 <= a < b < out.len() && (#[trigger] out[a]).file == (#[trigger] out[b]).file implies out[a].end_line < out[b].start_line by {
                assert(out[a] == acc[a]);
                if b < acc.len() {
                    assert(out[b] == acc[b]);
                } else {
                    if acc[n].file == c.file {
                        if a < n {
                            assert(acc[a].end_line < acc[n].start_line);
                        }
                    } else {
                        assert(a < n);
                        assert(key_lt(acc[a], acc[n]));
                        assert(key_lt(acc[n], c));
                        lemma_seq_lt_trans(acc[a].file, acc[n].file, c.file);
                        lemma_seq_lt_irrefl(c.file);
                    }
                }
            }
            assert forall|i: int| 0 <= i < s.len() implies start_covered(out, #[trigger] s[i]) by {
                if i < p.len() {
                    assert(s[i] == p[i]);
                    let q = choose|q: int| 0 <= q < acc.len() && #[trigger] covers(acc[q], p[i].file, p[i].start_line);
                    assert(out[q] == acc[q]);
                    assert(covers(out[q], s[i].file, s[i].start_line));
                } else {
                    assert(covers(out[acc.len() as int], s[i].file, s[i].start_line));
                }
            }
        }
    }
}

/// Every chunk that `dedup_sorted` keeps is one of its input chunks.
proof fn lemma_dedup_sorted_from_input(s: Seq<ChunkView>)
    ensures
        forall|k: int| 0 <= k < dedup_sorted(s).len() ==> exists|i: int| 0 <= i < s.len() && #[trigger] dedup_sorted(s)[k] == s[i],
    decreases s.len(),
{
    if s.len() > 0 {
        let p = s.drop_last();
        lemma_dedup_sorted_from_input(p);
        let prev = dedup_sorted(p);
        let d = dedup_sorted(s);
        if !has_key(prev, s.last()) {
            lemma_first_not_less(prev, s.last(), 0);
        }
        assert forall|k: int| 0 <= k < d.len() implies exists|i: int| 0 <= i < s.len() && #[trigger] d[k] == s[i] by {
            if has_key(prev, s.last()) {
                let i = choose|i: int| 0 <= i < p.len() && prev[k] == p[i];
                assert(d[k] == s[i]);
            } else {
                let at = first_not_less(prev, s.last(), 0);
                if k < at {
                    let i = choose|i: int| 0 <= i < p.len() && prev[k] == p[i];
                    assert(d[k] == s[i]);
                } else if k == at {
                    assert(d[k] == s[s.len() - 1]);
                } else {
                    let i = choose|i: int| 0 <= i < p.len() && prev[k - 1] == p[i];
                    assert(d[k] == s[i]);
                }
            }
        }
    }
}

/// A line that a query found at the start of a chunk lies within exactly
/// one chunk of the final list, provided every chunk found starts no later
/// than it ends.
pub proof fn lemma_found_position_in_one_chunk(results: Seq<Seq<ChunkView>>, i: int)
    requires
        well_formed_chunks(concat_all(results)),
        0 <= i < concat_all(results).len(),
    ensures
        start_covered(combined(results), concat_all(results)[i]),
        forall|p: int, q: int|
            0 <= p < combined(results).len() && 0 <= q < combined(results).len()
                && covers(#[trigger] combined(results)[p], concat_all(results)[i].file, concat_all(results)[i].start_line)
                && covers(#[trigger] combined(results)[q], concat_all(results)[i].file, concat_all(results)[i].start_line)
                ==> p == q,
{
    let all = concat_all(results);
    let d = dedup_sorted(all);
    let out = combined(results);
    let x = all[i];
    lemma_dedup_sorted_is_sorted(all);
    lemma_dedup_sorted_from_input(all);
    assert(well_formed_chunks(d)) by {
        assert forall|k: int| 0 <= k < d.len() implies (#[trigger] d[k]).start_line <= d[k].end_line by {
            let j = choose|j: int| 0 <= j < all.len() && d[k] == all[j];
            assert(all[j].start_line <= all[j].end_line);
        }
    }
    lemma_merged_ranges(d);
    lemma_dedup_sorted_keeps_positions(all, i);
    let k = choose|k: int| 0 <= k < d.len() && same_key(#[trigger] d[k], x);
    assert(start_covered(out, d[k]));
    let p0 = choose|p: int| 0 <= p < out.len() && #[trigger] covers(out[p], d[k].file, d[k].start_line);
    assert(covers(out[p0], x.file, x.start_line));
    assert forall|p: int, q: int|
        0 <= p < out.len() && 0 <= q < out.len() && covers(#[trigger] out[p], x.file, x.start_line)
            && covers(#[trigger] out[q], x.file, x.start_line) implies p == q by {
        if p < q {
            assert(out[p].end_line < out[q].start_line);
        } else if q < p {
            assert(out[q].end_line < out[p].start_line);
        }
    }
}

/// Combines the chunks that each query's search found into what the search
/// reports.
pub fn combine_search_results(results: &Vec<Vec<DocChunk>>) -> (r: Vec<DocChunk>)
    ensures
        chunk_views(r@) == combined(result_views(results@)),
        separated(chunk_views(r@)),
        sorted_by_key(chunk_views(r@)),
{
    let ghost rs = result_views(results@);
    let mut all: Vec<DocChunk> = Vec::new();
    let mut q: usize = 0;
    while q < results.len()
        invariant
            q <= results@.len(),
            rs == result_views(results@),
            chunk_views(all@) == concat_all(rs.subrange(0, q as int)),
        decreases results@.len() - q,
    {
        let found = &results[q];
        let ghost before = chunk_views(all@);
        let mut k: usize = 0;
        while k < found.len()
            invariant
                k <= found@.len(),
                chunk_views(all@) == before + chunk_views(found@).subrange(0, k as int),
            decreases found@.len() - k,
        {
            let ghost prev = all@;
            all.push(copy_chunk(&found[k]));
            proof {
                assert(chunk_views(found@).subrange(0, k + 1) == chunk_views(found@).subrange(0, k as int).push(found@[k as int]@));
                assert(all@.drop_last() == prev);
                assert(chunk_views(all@) == chunk_views(prev).push(found@[k as int]@));
            }
            k = k + 1;
        }
        proof {
            let t = rs.subrange(0, q + 1);
            assert(t.drop_last() == rs.subrange(0, q as int));
            assert(t.last() == chunk_views(found@));
            assert(chunk_views(found@).subrange(0, found@.len() as int) == chunk_views(found@));
        }
        q = q + 1;
    }
    proof {
        assert(rs.subrange(0, results@.len() as int) == rs);
    }
    let sorted = dedup_sort(&all);
    let r = merge_adjacent_chunks(sorted);
    proof {
        lemma_one_chunk_per_position(rs);
    }
    r
}

/// Whether two character vectors are equal.
pub fn vec_eq(a: &[char], b: &[char]) -> (r: bool)
    ensures
        r == (a@ == b@),
{
    if a.len() != b.len() {
        return false;
    }
    let mut i: usize = 0;
    while i < a.len()
        invariant
            a@.len() == b@.len(),
            i <= a@.len(),
            forall|k: int| 0 <= k < i ==> a@[k] == b@[k],
        decreases a@.len() - i,
    {
        if a[i] != b[i] {
            return false;
        }
        i = i + 1;
    }
    proof {
        assert(a@ == b@);
    }
    true
}

} // verus!
