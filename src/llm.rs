//! Reading the language model's free-text answers: locating the JSON array
//! in them, decoding search queries, and telling "no issues" apart from an
//! unreadable answer.
use vstd::prelude::*;
use crate::error::DriftcheckError;
use crate::text::{chars_of, contains, contains_seq, copy_range, string_of};

verus! {

/// An issue as the model reports it.
#[derive(Debug, Clone)]
pub struct RawIssue {
    pub file: String,
    pub line: usize,
    pub description: String,
    pub doc_excerpt: String,
    pub suggested_fix: Option<String>,
}

/// What `serde_json` decodes from a text as an array of strings, if it is one.
pub uninterp spec fn json_string_array(s: Seq<char>) -> Option<Seq<Seq<char>>>;

/// What `str::to_lowercase` makes of a text.
pub uninterp spec fn lower_of(s: Seq<char>) -> Seq<char>;

pub open spec fn string_views(v: Seq<String>) -> Seq<Seq<char>> {
    v.map_values(|x: String| x@)
}

/// Relies on `serde_json::from_str::<Vec<String>>`: decodes a JSON array of
/// strings, or fails with a message.
#[verifier::external_body]
fn decode_string_array(s: &str) -> (r: Result<Vec<String>, String>)
    ensures
        match r {
            Ok(v) => json_string_array(s@) == Some(string_views(v@)),
            Err(_) => json_string_array(s@) is None,
        },
{
    serde_json::from_str::<Vec<String>>(s).map_err(|e| e.to_string())
}

/// Relies on `str::to_lowercase`: the result depends on the characters alone.
#[verifier::external_body]
fn lowercase(s: &str) -> (r: String)
    ensures
        r@ == lower_of(s@),
{
    s.to_lowercase()
}

/// The first index at or after `k` that holds `c`.
pub open spec fn first_index_from(s: Seq<char>, c: char, k: int) -> Option<int>
    decreases s.len() - k,
{
    if k < 0 || k >= s.len() {
        None
    } else if s[k] == c {
        Some(k)
    } else {
        first_index_from(s, c, k + 1)
    }
}

/// The last index below `k` that holds `c`.
pub open spec fn last_index_below(s: Seq<char>, c: char, k: int) -> Option<int>
    decreases k,
{
    if k <= 0 || k > s.len() {
        None
    } else if s[k - 1] == c {
        Some(k - 1)
    } else {
        last_index_below(s, c, k - 1)
    }
}

/// The text from the first `[` to the last `]`, both included, when both
/// are there in that order.
pub open spec fn bracketed(s: Seq<char>) -> Option<Seq<char>> {
    match (first_index_from(s, '[', 0), last_index_below(s, ']', s.len() as int)) {
        (Some(a), Some(b)) => if a <= b {
            Some(s.subrange(a, b + 1))
        } else {
            None
        },
        _ => None,
    }
}

fn first_index(s: &[char], c: char) -> (r: Option<usize>)
    ensures
        match r {
            Some(i) => first_index_from(s@, c, 0) == Some(i as int) && i < s@.len(),
            None => first_index_from(s@, c, 0) is None,
        },
{
    let mut i: usize = 0;
    while i < s.len()
        invariant
            i <= s@.len(),
            first_index_from(s@, c, 0) == first_index_from(s@, c, i as int),
        decreases s@.len() - i,
    {
        if s[i] == c {
            return Some(i);
        }
        i = i + 1;
    }
    None
}

fn last_index(s: &[char], c: char) -> (r: Option<usize>)
    ensures
        match r {
            Some(i) => last_index_below(s@, c, s@.len() as int) == Some(i as int) && i < s@.len(),
            None => last_index_below(s@, c, s@.len() as int) is None,
        },
{
    let mut k: usize = s.len();
    while k > 0
        invariant
            k <= s@.len(),
            last_index_below(s@, c, s@.len() as int) == last_index_below(s@, c, k as int),
        decreases k,
    {
        if s[k - 1] == c {
            return Some(k - 1);
        }
        k = k - 1;
    }
    None
}

/// The bracketed part of `s`, if any.
fn bracketed_chars(s: &[char]) -> (r: Option<Vec<char>>)
    ensures
        match r {
            Some(v) => bracketed(s@) == Some(v@),
            None => bracketed(s@) is None,
        },
{
    let _len = s.len();
    match (first_index(s, '['), last_index(s, ']')) {
        (Some(a), Some(b)) => if a <= b {
            Some(copy_range(s, a, b + 1))
        } else {
            None
        },
        _ => None,
    }
}

pub open spec fn parse_error(r: Result<Vec<String>, DriftcheckError>) -> bool {
    r is Err && r->Err_0 is LlmResponseParse
}

/// Reads the search queries from the model's answer: the JSON array of
/// strings from its first `[` to its last `]`.
pub fn parse_search_queries(response: &str) -> (r: Result<Vec<String>, DriftcheckError>)
    ensures
        match bracketed(response@) {
            Some(a) => match json_string_array(a) {
                Some(q) => r is Ok && string_views(r->Ok_0@) == q,
                None => parse_error(r),
            },
            None => parse_error(r),
        },
{
    let s = chars_of(response);
    match bracketed_chars(s.as_slice()) {
        None => Err(DriftcheckError::LlmResponseParse(string_of(&['N', 'o', ' ', 'J', 'S', 'O', 'N', ' ', 'a', 'r', 'r', 'a', 'y', ' ', 'f', 'o', 'u', 'n', 'd']))),
        Some(a) => {
            let text = string_of(a.as_slice());
            match decode_string_array(text.as_str()) {
                Ok(q) => Ok(q),
                Err(msg) => Err(DriftcheckError::LlmResponseParse(msg)),
            }
        },
    }
}

/// How an analysis answer reads.
#[derive(Debug, Clone, PartialEq, Eq)]
pub enum IssueText {
    /// No issues: an empty array, or a plain-language negative.
    NoIssues,
    /// A JSON array to decode into issues.
    Array(String),
}

pub open spec fn no_issues_phrase() -> Seq<char> {
    seq!['n', 'o', ' ', 'i', 's', 's', 'u', 'e', 's']
}

pub open spec fn no_documentation_phrase() -> Seq<char> {
    seq!['n', 'o', ' ', 'd', 'o', 'c', 'u', 'm', 'e', 'n', 't', 'a', 't', 'i', 'o', 'n']
}

pub open spec fn empty_array() -> Seq<char> {
    seq!['[', ']']
}

/// What an analysis answer says, given its lower-cased text: with no `[`,
/// "no issues" or "no documentation" in it means no issues, and anything
/// else cannot be read; with a `[` there must be a later `]`, and `[]`
/// means no issues.
pub open spec fn issue_text_spec(s: Seq<char>, lowered: Seq<char>) -> Option<IssueTextView> {
    match first_index_from(s, '[', 0) {
        None => if contains_seq(lowered, no_issues_phrase()) || contains_seq(lowered, no_documentation_phrase()) {
            Some(IssueTextView::NoIssues)
        } else {
            None
        },
        Some(_) => match bracketed(s) {
            None => None,
            Some(a) => if a == empty_array() {
                Some(IssueTextView::NoIssues)
            } else {
                Some(IssueTextView::Array(a))
            },
        },
    }
}

/// The value of an `IssueText`.
pub enum IssueTextView {
    NoIssues,
    Array(Seq<char>),
}

impl View for IssueText {
    type V = IssueTextView;

    open spec fn view(&self) -> IssueTextView {
        match self {
            IssueText::NoIssues => IssueTextView::NoIssues,
            IssueText::Array(a) => IssueTextView::Array(a@),
        }
    }
}

/// Reads an analysis answer whose lower-cased text is `lowered`.
pub fn classify_issue_text(response: &str, lowered: &str) -> (r: Result<IssueText, DriftcheckError>)
    ensures
        match issue_text_spec(response@, lowered@) {
            Some(t) => r is Ok && r->Ok_0@ == t,
            None => r is Err && r->Err_0 is LlmResponseParse,
        },
{
    let s = chars_of(response);
    match first_index(s.as_slice(), '[') {
        None => {
            let low = chars_of(lowered);
            let p1 = vec!['n', 'o', ' ', 'i', 's', 's', 'u', 'e', 's'];
            let p2 = vec!['n', 'o', ' ', 'd', 'o', 'c', 'u', 'm', 'e', 'n', 't', 'a', 't', 'i', 'o', 'n'];
            if contains(low.as_slice(), p1.as_slice()) || contains(low.as_slice(), p2.as_slice()) {
                Ok(IssueText::NoIssues)
            } else {
                Err(DriftcheckError::LlmResponseParse(string_of(&['C', 'o', 'u', 'l', 'd', ' ', 'n', 'o', 't', ' ', 'p', 'a', 'r', 's', 'e', ' ', 'i', 's', 's', 'u', 'e', 's'])))
            }
        },
        Some(_) => match bracketed_chars(s.as_slice()) {
            None => Err(DriftcheckError::LlmResponseParse(string_of(&['N', 'o', ' ', 'c', 'l', 'o', 's', 'i', 'n', 'g', ' ', 'b', 'r', 'a', 'c', 'k', 'e', 't']))),
            Some(a) => {
                if a.len() == 2 && a[0] == '[' && a[1] == ']' {
                    proof {
                        assert(a@ == empty_array());
                    }
                    Ok(IssueText::NoIssues)
                } else {
                    proof {
                        if a@ == empty_array() {
                            assert(a@[0] == '[' && a@[1] == ']');
                        }
                    }
                    Ok(IssueText::Array(string_of(a.as_slice())))
                }
            },
        },
    }
}

/// Reads an analysis answer: no issues, a JSON array of issues to decode,
/// or an error when it can be read as neither.
pub fn frame_issues(response: &str) -> (r: Result<IssueText, DriftcheckError>)
    ensures
        match issue_text_spec(response@, lower_of(response@)) {
            Some(t) => r is Ok && r->Ok_0@ == t,
            None => r is Err && r->Err_0 is LlmResponseParse,
        },
{
    let lowered = lowercase(response);
    classify_issue_text(response, lowered.as_str())
}

/// Milliseconds to wait before the first retry; each later retry waits twice
/// as long as the one before.
pub const BASE_DELAY_MS: u64 = 500;

/// The wait before retry number `attempt` (counted from 1): 500 ms doubled
/// `attempt - 1` times.
pub fn backoff_delay_ms(attempt: u32) -> (r: u64)
    requires
        1 <= attempt <= 56,
    ensures
        r == BASE_DELAY_MS * pow2((attempt - 1) as nat),
{
    let mut d: u64 = BASE_DELAY_MS;
    let mut k: u32 = 1;
    while k < attempt
        invariant
            1 <= k <= attempt <= 56,
            d == BASE_DELAY_MS * pow2((k - 1) as nat),
        decreases attempt - k,
    {
        proof {
            lemma_pow2_bound((k - 1) as nat);
            assert(BASE_DELAY_MS * pow2(k as nat) == 2 * (BASE_DELAY_MS * pow2((k - 1) as nat))) by {
                assert(pow2(k as nat) == 2 * pow2((k - 1) as nat));
            }
        }
        d = d * 2;
        k = k + 1;
    }
    d
}

/// After attempt `failed` (counted from 0) has failed: retry after the
/// returned wait while attempts remain, or give up (`None`) after attempt
/// `max_retries`.
pub fn retry_after_ms(failed: u32, max_retries: u32) -> (r: Option<u64>)
    requires
        failed < 56 || failed >= max_retries,
    ensures
        failed < max_retries ==> r is Some && r->Some_0 == BASE_DELAY_MS * pow2(failed as nat),
        failed >= max_retries ==> r is None,
{
    if failed < max_retries {
        Some(backoff_delay_ms(failed + 1))
    } else {
        None
    }
}

pub open spec fn pow2(n: nat) -> nat
    decreases n,
{
    if n == 0 {
        1
    } else {
        2 * pow2((n - 1) as nat)
    }
}

proof fn lemma_pow2_pos(n: nat)
    ensures
        pow2(n) >= 1,
    decreases n,
{
    if n > 0 {
        lemma_pow2_pos((n - 1) as nat);
    }
}

proof fn lemma_pow2_mono(n: nat, m: nat)
    requires
        n <= m,
    ensures
        pow2(n) <= pow2(m),
    decreases m,
{
    if n < m {
        lemma_pow2_mono(n, (m - 1) as nat);
        lemma_pow2_pos((m - 1) as nat);
    }
}

proof fn lemma_pow2_bound(n: nat)
    requires
        n <= 54,
    ensures
        BASE_DELAY_MS * pow2(n) * 2 <= u64::MAX,
{
    lemma_pow2_mono(n, 54);
    reveal_with_fuel(pow2, 55);
    assert(pow2(54) == 18014398509481984);
    assert(BASE_DELAY_MS * pow2(n) * 2 <= 500 * 18014398509481984 * 2) by (nonlinear_arith)
        requires pow2(n) <= 18014398509481984;
}

} // verus!
