//! Character-level helpers shared by the parsers: line splitting, decimal
//! numbers, prefixes, suffixes and substring search over `Seq<char>`.
use vstd::prelude::*;

verus! {

/// The characters of `s`, in order.
pub fn chars_of(s: &str) -> (r: Vec<char>)
    ensures
        r@ == s@,
{
    broadcast use vstd::string::axiom_spec_iter;
    let mut r: Vec<char> = Vec::new();
    for c in it: s.chars()
        invariant
            it.seq() == s@,
            r@ == it.seq().take(it.index() as int),
    {
        r.push(c);
    }
    r
}

/// Relies on `String`'s `FromIterator<char>` (through `collect`): a string
/// made of exactly these characters, in order.
#[verifier::external_body]
pub fn string_of(v: &[char]) -> (r: String)
    ensures
        r@ == v@,
{
    v.iter().collect()
}

/// Copies `v[lo..hi]` into a new vector.
pub fn copy_range(v: &[char], lo: usize, hi: usize) -> (r: Vec<char>)
    requires
        lo <= hi <= v@.len(),
    ensures
        r@ == v@.subrange(lo as int, hi as int),
{
    let mut r: Vec<char> = Vec::new();
    let mut i: usize = lo;
    while i < hi
        invariant
            lo <= i <= hi <= v@.len(),
            r@ == v@.subrange(lo as int, i as int),
        decreases hi - i,
    {
        r.push(v[i]);
        proof {
            assert(v@.subrange(lo as int, i + 1) == v@.subrange(lo as int, i as int).push(v@[i as int]));
        }
        i = i + 1;
    }
    r
}

/// Appends all of `src` to `dst`.
pub fn push_all(dst: &mut Vec<char>, src: &[char])
    ensures
        final(dst)@ == old(dst)@ + src@,
{
    let mut i: usize = 0;
    while i < src.len()
        invariant
            i <= src@.len(),
            dst@ == old(dst)@ + src@.subrange(0, i as int),
        decreases src@.len() - i,
    {
        dst.push(src[i]);
        proof {
            assert(src@.subrange(0, i + 1) == src@.subrange(0, i as int).push(src@[i as int]));
        }
        i = i + 1;
    }
    proof {
        assert(src@.subrange(0, src@.len() as int) == src@);
    }
}

/// A line with one trailing carriage return removed.
pub open spec fn strip_cr(s: Seq<char>) -> Seq<char> {
    if s.len() > 0 && s.last() == '\r' {
        s.drop_last()
    } else {
        s
    }
}

/// Scanning `s` from the left: the lines ended by a newline so far, and the
/// characters of the line still open.
pub open spec fn line_scan(s: Seq<char>) -> (Seq<Seq<char>>, Seq<char>)
    decreases s.len(),
{
    if s.len() == 0 {
        (Seq::empty(), Seq::empty())
    } else {
        let (done, cur) = line_scan(s.drop_last());
        if s.last() == '\n' {
            (done.push(strip_cr(cur)), Seq::empty())
        } else {
            (done, cur.push(s.last()))
        }
    }
}

/// The lines of a text: split at `\n`, a `\r` right before it dropped, and a
/// final line without newline kept only when it is not empty.
pub open spec fn lines_of(s: Seq<char>) -> Seq<Seq<char>> {
    let (done, cur) = line_scan(s);
    if cur.len() > 0 {
        done.push(cur)
    } else {
        done
    }
}

pub open spec fn views_of(v: Seq<Vec<char>>) -> Seq<Seq<char>> {
    v.map_values(|l: Vec<char>| l@)
}

/// Splits a text into its lines.
pub fn split_lines(s: &[char]) -> (r: Vec<Vec<char>>)
    ensures
        views_of(r@) == lines_of(s@),
{
    let mut done: Vec<Vec<char>> = Vec::new();
    let mut cur: Vec<char> = Vec::new();
    let mut i: usize = 0;
    while i < s.len()
        invariant
            i <= s@.len(),
            (views_of(done@), cur@) == line_scan(s@.subrange(0, i as int)),
        decreases s@.len() - i,
    {
        let c = s[i];
        proof {
            let t = s@.subrange(0, i + 1);
            assert(t.drop_last() == s@.subrange(0, i as int));
            assert(t.last() == c);
        }
        if c == '\n' {
            if cur.len() > 0 && cur[cur.len() - 1] == '\r' {
                cur.pop();
            }
            let line = cur;
            done.push(line);
            cur = Vec::new();
            proof {
                assert(views_of(done@) == views_of(done@.drop_last()).push(line@));
            }
        } else {
            cur.push(c);
        }
        i = i + 1;
    }
    proof {
        assert(s@.subrange(0, s@.len() as int) == s@);
    }
    if cur.len() > 0 {
        let line = cur;
        done.push(line);
        proof {
            assert(views_of(done@) == views_of(done@.drop_last()).push(line@));
        }
    }
    done
}

pub open spec fn is_digit(c: char) -> bool {
    '0' <= c && c <= '9'
}

pub open spec fn all_digits(s: Seq<char>) -> bool {
    forall|i: int| 0 <= i < s.len() ==> is_digit(#[trigger] s[i])
}

pub open spec fn digit_value(c: char) -> int {
    c as int - '0' as int
}

/// The number that a string of decimal digits writes.
pub open spec fn decimal_value(s: Seq<char>) -> int
    decreases s.len(),
{
    if s.len() == 0 {
        0
    } else {
        decimal_value(s.drop_last()) * 10 + digit_value(s.last())
    }
}

/// The digits that follow an optional leading `+`.
pub open spec fn unsigned_digits(s: Seq<char>) -> Seq<char> {
    if s.len() > 0 && s[0] == '+' {
        s.drop_first()
    } else {
        s
    }
}

/// What `usize::from_str` gives: an optional `+`, at least one digit, nothing
/// else, and a value that fits.
pub open spec fn parse_usize_spec(s: Seq<char>) -> Option<usize> {
    let d = unsigned_digits(s);
    if d.len() > 0 && all_digits(d) && decimal_value(d) <= usize::MAX {
        Some(decimal_value(d) as usize)
    } else {
        None
    }
}

proof fn lemma_decimal_nonneg(s: Seq<char>)
    requires
        all_digits(s),
    ensures
        decimal_value(s) >= 0,
    decreases s.len(),
{
    if s.len() > 0 {
        lemma_decimal_nonneg(s.drop_last());
    }
}

proof fn lemma_decimal_grows(s: Seq<char>)
    requires
        all_digits(s),
        s.len() > 0,
    ensures
        decimal_value(s) >= decimal_value(s.drop_last()),
{
    lemma_decimal_nonneg(s.drop_last());
}

/// Parses `s[lo..hi]` as `usize::from_str` does.
pub fn parse_usize(s: &[char], lo: usize, hi: usize) -> (r: Option<usize>)
    requires
        lo <= hi <= s@.len(),
    ensures
        r == parse_usize_spec(s@.subrange(lo as int, hi as int)),
{
    let ghost t = s@.subrange(lo as int, hi as int);
    let mut start: usize = lo;
    if lo < hi && s[lo] == '+' {
        start = lo + 1;
    }
    let ghost d = s@.subrange(start as int, hi as int);
    proof {
        assert(d == unsigned_digits(t));
    }
    if start >= hi {
        return None;
    }
    let mut v: usize = 0;
    let mut i: usize = start;
    while i < hi
        invariant
            lo <= start <= i <= hi <= s@.len(),
            t == s@.subrange(lo as int, hi as int),
            d == unsigned_digits(t),
            d == s@.subrange(start as int, hi as int),
            all_digits(s@.subrange(start as int, i as int)),
            v as int == decimal_value(s@.subrange(start as int, i as int)),
        decreases hi - i,
    {
        let c = s[i];
        let ghost p = s@.subrange(start as int, i + 1);
        proof {
            assert(p.drop_last() == s@.subrange(start as int, i as int));
            assert(p.last() == c);
        }
        if !('0' <= c && c <= '9') {
            proof {
                assert(d[i - start] == c);
                assert(!all_digits(d));
            }
            return None;
        }
        let dv: usize = (c as u32 - '0' as u32) as usize;
        proof {
            assert(all_digits(p));
        }
        match v.checked_mul(10) {
            None => {
                proof {
                    assert(decimal_value(p) > usize::MAX);
                    let rest = s@.subrange(i + 1, hi as int);
                    lemma_prefix_value_bound(d, (i + 1 - start) as int);
                    if all_digits(d) {
                        assert(d.subrange(0, (i + 1 - start) as int) == p);
                    }
                }
                return None;
            }
            Some(m) => match m.checked_add(dv) {
                None => {
                    proof {
                        assert(decimal_value(p) > usize::MAX);
                        lemma_prefix_value_bound(d, (i + 1 - start) as int);
                        if all_digits(d) {
                            assert(d.subrange(0, (i + 1 - start) as int) == p);
                        }
                    }
                    return None;
                }
                Some(n) => {
                    v = n;
                },
            },
        }
        i = i + 1;
    }
    proof {
        assert(s@.subrange(start as int, hi as int) == d);
    }
    Some(v)
}

/// A prefix of a digit string never writes a larger number than the whole.
proof fn lemma_prefix_value_bound(d: Seq<char>, k: int)
    requires
        0 <= k <= d.len(),
    ensures
        all_digits(d) ==> decimal_value(d.subrange(0, k)) <= decimal_value(d),
    decreases d.len() - k,
{
    if k < d.len() && all_digits(d) {
        lemma_prefix_value_bound(d, k + 1);
        let p = d.subrange(0, k + 1);
        assert(p.drop_last() == d.subrange(0, k));
        assert(all_digits(p));
        lemma_decimal_grows(p);
    } else if k == d.len() {
        assert(d.subrange(0, k) == d);
    }
}

pub open spec fn has_prefix(s: Seq<char>, p: Seq<char>) -> bool {
    p.len() <= s.len() && s.subrange(0, p.len() as int) == p
}

pub open spec fn has_suffix(s: Seq<char>, p: Seq<char>) -> bool {
    p.len() <= s.len() && s.subrange(s.len() - p.len(), s.len() as int) == p
}

/// `p` occurs in `s` starting at `i`.
pub open spec fn occurs_at(s: Seq<char>, p: Seq<char>, i: int) -> bool {
    0 <= i && i + p.len() <= s.len() && s.subrange(i, i + p.len()) == p
}

pub open spec fn contains_seq(s: Seq<char>, p: Seq<char>) -> bool {
    exists|i: int| occurs_at(s, p, i)
}

/// Whether `s[at..]` begins with `p`.
pub fn matches_at(s: &[char], at: usize, p: &[char]) -> (r: bool)
    requires
        at <= s@.len(),
    ensures
        r == occurs_at(s@, p@, at as int),
{
    if p.len() > s.len() - at {
        return false;
    }
    let mut j: usize = 0;
    while j < p.len()
        invariant
            at <= s@.len() <= usize::MAX,
            at + p@.len() <= s@.len(),
            j <= p@.len(),
            s@.subrange(at as int, at + j) == p@.subrange(0, j as int),
        decreases p@.len() - j,
    {
        if s[at + j] != p[j] {
            proof {
                assert(s@.subrange(at as int, at + p@.len())[j as int] == s@[at + j]);
            }
            return false;
        }
        proof {
            assert(s@.subrange(at as int, at + j + 1) == s@.subrange(at as int, at + j).push(s@[at + j]));
            assert(p@.subrange(0, j + 1) == p@.subrange(0, j as int).push(p@[j as int]));
        }
        j = j + 1;
    }
    proof {
        assert(p@.subrange(0, p@.len() as int) == p@);
    }
    true
}

pub fn starts_with(s: &[char], p: &[char]) -> (r: bool)
    ensures
        r == has_prefix(s@, p@),
{
    matches_at(s, 0, p)
}

pub fn ends_with(s: &[char], p: &[char]) -> (r: bool)
    ensures
        r == has_suffix(s@, p@),
{
    if p.len() > s.len() {
        return false;
    }
    matches_at(s, s.len() - p.len(), p)
}

/// Whether `p` occurs anywhere in `s`.
pub fn contains(s: &[char], p: &[char]) -> (r: bool)
    ensures
        r == contains_seq(s@, p@),
{
    let mut i: usize = 0;
    while i < s.len()
        invariant
            i <= s@.len(),
            forall|k: int| 0 <= k < i ==> !occurs_at(s@, p@, k),
        decreases s@.len() - i,
    {
        if matches_at(s, i, p) {
            return true;
        }
        i = i + 1;
    }
    if matches_at(s, s.len(), p) {
        return true;
    }
    proof {
        assert forall|k: int| !occurs_at(s@, p@, k) by {
            if 0 <= k && k + p@.len() <= s@.len() && k != s@.len() {
                assert(k < i);
            }
        }
    }
    false
}

/// Unicode's `White_Space` characters, those of `char::is_whitespace`.
pub open spec fn is_ws(c: char) -> bool {
    c == '\t' || c == '\n' || c == '\u{0B}' || c == '\u{0C}' || c == '\r' || c == ' '
        || c == '\u{85}' || c == '\u{A0}' || c == '\u{1680}' || ('\u{2000}' <= c && c <= '\u{200A}')
        || c == '\u{2028}' || c == '\u{2029}' || c == '\u{202F}' || c == '\u{205F}' || c == '\u{3000}'
}

pub fn is_whitespace(c: char) -> (r: bool)
    ensures
        r == is_ws(c),
{
    c == '\t' || c == '\n' || c == '\u{0B}' || c == '\u{0C}' || c == '\r' || c == ' '
        || c == '\u{85}' || c == '\u{A0}' || c == '\u{1680}' || ('\u{2000}' <= c && c <= '\u{200A}')
        || c == '\u{2028}' || c == '\u{2029}' || c == '\u{202F}' || c == '\u{205F}' || c == '\u{3000}'
}

/// Scanning `s` from the left: the words ended so far, and the word still open.
pub open spec fn word_scan(s: Seq<char>) -> (Seq<Seq<char>>, Seq<char>)
    decreases s.len(),
{
    if s.len() == 0 {
        (Seq::empty(), Seq::empty())
    } else {
        let (done, cur) = word_scan(s.drop_last());
        if is_ws(s.last()) {
            if cur.len() > 0 {
                (done.push(cur), Seq::empty())
            } else {
                (done, cur)
            }
        } else {
            (done, cur.push(s.last()))
        }
    }
}

/// The non-empty runs of non-whitespace characters, as `str::split_whitespace` gives them.
pub open spec fn words_of(s: Seq<char>) -> Seq<Seq<char>> {
    let (done, cur) = word_scan(s);
    if cur.len() > 0 {
        done.push(cur)
    } else {
        done
    }
}

/// Splits a text into its whitespace-separated words.
pub fn split_words(s: &[char]) -> (r: Vec<Vec<char>>)
    ensures
        views_of(r@) == words_of(s@),
{
    let mut done: Vec<Vec<char>> = Vec::new();
    let mut cur: Vec<char> = Vec::new();
    let mut i: usize = 0;
    while i < s.len()
        invariant
            i <= s@.len(),
            (views_of(done@), cur@) == word_scan(s@.subrange(0, i as int)),
        decreases s@.len() - i,
    {
        let c = s[i];
        proof {
            let t = s@.subrange(0, i + 1);
            assert(t.drop_last() == s@.subrange(0, i as int));
            assert(t.last() == c);
        }
        if is_whitespace(c) {
            if cur.len() > 0 {
                let w = cur;
                done.push(w);
                cur = Vec::new();
                proof {
                    assert(views_of(done@) == views_of(done@.drop_last()).push(w@));
                }
            }
        } else {
            cur.push(c);
        }
        i = i + 1;
    }
    proof {
        assert(s@.subrange(0, s@.len() as int) == s@);
    }
    if cur.len() > 0 {
        let w = cur;
        done.push(w);
        proof {
            assert(views_of(done@) == views_of(done@.drop_last()).push(w@));
        }
    }
    done
}

/// The first index at or after `k` that holds `c`, or the length if none does.
pub open spec fn index_or_end(s: Seq<char>, c: char, k: int) -> int
    decreases s.len() - k,
{
    if k < 0 || k >= s.len() {
        s.len() as int
    } else if s[k] == c {
        k
    } else {
        index_or_end(s, c, k + 1)
    }
}

proof fn lemma_index_or_end_range(s: Seq<char>, c: char, k: int)
    requires
        0 <= k <= s.len(),
    ensures
        k <= index_or_end(s, c, k) <= s.len(),
    decreases s.len() - k,
{
    if k < s.len() && s[k] != c {
        lemma_index_or_end_range(s, c, k + 1);
    }
}

pub fn find_or_end(s: &[char], c: char, from: usize) -> (r: usize)
    requires
        from <= s@.len(),
    ensures
        r == index_or_end(s@, c, from as int),
        from <= r <= s@.len(),
{
    proof {
        lemma_index_or_end_range(s@, c, from as int);
    }
    let mut i: usize = from;
    while i < s.len()
        invariant
            from <= i <= s@.len(),
            index_or_end(s@, c, from as int) == index_or_end(s@, c, i as int),
        decreases s@.len() - i,
    {
        if s[i] == c {
            return i;
        }
        i = i + 1;
    }
    i
}

/// The first of the comma-separated pieces of `s`.
pub open spec fn first_piece(s: Seq<char>) -> Seq<char> {
    s.subrange(0, index_or_end(s, ',', 0))
}

/// The second of the comma-separated pieces of `s`, if there is a comma.
pub open spec fn second_piece(s: Seq<char>) -> Option<Seq<char>> {
    let a = index_or_end(s, ',', 0);
    if a >= s.len() {
        None
    } else {
        Some(s.subrange(a + 1, index_or_end(s, ',', a + 1)))
    }
}

/// The parsed number, or `default` when the text is not one.
pub open spec fn parse_or(s: Seq<char>, default: usize) -> usize {
    match parse_usize_spec(s) {
        Some(n) => n,
        None => default,
    }
}

/// The number written by the first comma-separated piece of `s[lo..]`, or `default`.
pub fn parse_first_piece(s: &[char], lo: usize, default: usize) -> (r: usize)
    requires
        lo <= s@.len(),
    ensures
        r == parse_or(first_piece(s@.subrange(lo as int, s@.len() as int)), default),
{
    let len = s.len();
    let ghost t = s@.subrange(lo as int, len as int);
    let a = find_or_end(s, ',', lo);
    proof {
        lemma_index_or_end_shift(s@, ',', lo as int, 0);
        assert(t.subrange(0, a - lo) == s@.subrange(lo as int, a as int));
    }
    match parse_usize(s, lo, a) {
        Some(n) => n,
        None => default,
    }
}

/// The number written by the second comma-separated piece of `s[lo..]`, or
/// `default` when that piece is there but is not a number; `None` when there
/// is no comma.
pub fn parse_second_piece(s: &[char], lo: usize, default: usize) -> (r: Option<usize>)
    requires
        lo <= s@.len(),
    ensures
        r == (match second_piece(s@.subrange(lo as int, s@.len() as int)) {
            Some(p) => Some(parse_or(p, default)),
            None => None,
        }),
{
    let len = s.len();
    let ghost t = s@.subrange(lo as int, len as int);
    let a = find_or_end(s, ',', lo);
    proof {
        lemma_index_or_end_shift(s@, ',', lo as int, 0);
    }
    if a >= len {
        return None;
    }
    let b = find_or_end(s, ',', a + 1);
    proof {
        lemma_index_or_end_shift(s@, ',', lo as int, a + 1 - lo);
        assert(t.subrange(a + 1 - lo, b - lo) == s@.subrange(a + 1, b as int));
    }
    match parse_usize(s, a + 1, b) {
        Some(n) => Some(n),
        None => Some(default),
    }
}

proof fn lemma_index_or_end_shift(s: Seq<char>, c: char, off: int, k: int)
    requires
        0 <= off <= s.len(),
        0 <= k <= s.len() - off,
    ensures
        index_or_end(s.subrange(off, s.len() as int), c, k) == index_or_end(s, c, off + k) - off,
    decreases s.len() - off - k,
{
    if off + k < s.len() {
        lemma_index_or_end_shift(s, c, off, k + 1);
    }
}

} // verus!
