//! Issues reported by an analysis, and the choice of documentation excerpts
//! that fit the model's context budget.
use vstd::prelude::*;
use crate::cache::CacheLookup;
use crate::error::DriftcheckError;
use crate::git::{ParsedDiff, parsed_spec};
use crate::llm::RawIssue;
use crate::search::{ChunkView, DocChunk, chunk_views, copy_chunk};
use crate::text::{chars_of, copy_range, string_of};

verus! {

/// An issue detected by the analysis.
#[derive(Debug, Clone)]
pub struct Issue {
    pub file: String,
    pub line: usize,
    pub description: String,
    pub doc_excerpt: String,
    pub suggested_fix: Option<String>,
}

impl From<RawIssue> for Issue {
    fn from(raw: RawIssue) -> (r: Issue) {
        Issue {
            file: raw.file,
            line: raw.line,
            description: raw.description,
            doc_excerpt: raw.doc_excerpt,
            suggested_fix: raw.suggested_fix,
        }
    }
}

impl vstd::std_specs::convert::FromSpecImpl<RawIssue> for Issue {
    open spec fn obeys_from_spec() -> bool {
        true
    }

    open spec fn from_spec(raw: RawIssue) -> Issue {
        issue_of(raw)
    }
}

/// The issue that the model reported.
pub open spec fn issue_of(raw: RawIssue) -> Issue {
    Issue {
        file: raw.file,
        line: raw.line,
        description: raw.description,
        doc_excerpt: raw.doc_excerpt,
        suggested_fix: raw.suggested_fix,
    }
}

/// Characters allowed per token of the model's context.
pub const CHARS_PER_TOKEN: usize = 4;

/// `c` placed after every chunk of `s` whose content is not longer.
pub open spec fn insert_by_len(s: Seq<ChunkView>, c: ChunkView) -> Seq<ChunkView> {
    s.insert(first_longer(s, c.content.len(), 0), c)
}

/// The first index at or after `k` whose chunk's content is longer than `n`.
pub open spec fn first_longer(s: Seq<ChunkView>, n: nat, k: int) -> int
    decreases s.len() - k,
{
    if k < 0 || k >= s.len() {
        s.len() as int
    } else if s[k].content.len() > n {
        k
    } else {
        first_longer(s, n, k + 1)
    }
}

/// The chunks ordered by content length, shortest first; chunks of equal
/// length keep their order.
pub open spec fn sorted_by_len(s: Seq<ChunkView>) -> Seq<ChunkView>
    decreases s.len(),
{
    if s.len() == 0 {
        Seq::empty()
    } else {
        insert_by_len(sorted_by_len(s.drop_last()), s.last())
    }
}

/// A chunk cut to its first `n` characters.
pub open spec fn cut_to(c: ChunkView, n: nat) -> ChunkView {
    ChunkView { content: c.content.take(n as int), ..c }
}

/// Takes chunks from the front while the running total of content length
/// stays within `budget`; if the first chunk alone is over, it is cut to
/// the budget and taken alone.
pub open spec fn fill_budget(s: Seq<ChunkView>, budget: nat, total: nat, first: bool) -> Seq<ChunkView>
    decreases s.len(),
{
    if s.len() == 0 {
        Seq::empty()
    } else if total + s[0].content.len() > budget {
        if first {
            seq![cut_to(s[0], budget)]
        } else {
            Seq::empty()
        }
    } else {
        seq![s[0]] + fill_budget(s.drop_first(), budget, total + s[0].content.len(), false)
    }
}

/// The excerpts sent for analysis under a budget of `max_tokens` tokens.
pub open spec fn budgeted(s: Seq<ChunkView>, max_tokens: nat) -> Seq<ChunkView> {
    fill_budget(sorted_by_len(s), max_tokens * CHARS_PER_TOKEN as nat, 0, true)
}

/// The total length of the chunks' contents.
pub open spec fn total_len(s: Seq<ChunkView>) -> nat
    decreases s.len(),
{
    if s.len() == 0 {
        0
    } else {
        s[0].content.len() + total_len(s.drop_first())
    }
}

proof fn lemma_fill_within(s: Seq<ChunkView>, budget: nat, total: nat, first: bool)
    requires
        total <= budget,
        first ==> total == 0,
    ensures
        total + total_len(fill_budget(s, budget, total, first)) <= budget,
        first && s.len() > 0 ==> fill_budget(s, budget, total, first).len() > 0,
    decreases s.len(),
{
    let r = fill_budget(s, budget, total, first);
    if s.len() > 0 {
        if total + s[0].content.len() > budget {
            if first {
                assert(r.drop_first() == Seq::<ChunkView>::empty());
                assert(total_len(r.drop_first()) == 0);
                assert(r[0].content.len() == budget);
            }
        } else {
            lemma_fill_within(s.drop_first(), budget, total + s[0].content.len(), false);
            assert(r.drop_first() == fill_budget(s.drop_first(), budget, total + s[0].content.len(), false));
        }
    }
}

proof fn lemma_sorted_by_len_len(s: Seq<ChunkView>)
    ensures
        sorted_by_len(s).len() == s.len(),
    decreases s.len(),
{
    if s.len() > 0 {
        lemma_sorted_by_len_len(s.drop_last());
        lemma_first_longer_range(sorted_by_len(s.drop_last()), s.last().content.len(), 0);
    }
}

proof fn lemma_first_longer_range(s: Seq<ChunkView>, n: nat, k: int)
    requires
        0 <= k <= s.len(),
    ensures
        k <= first_longer(s, n, k) <= s.len(),
    decreases s.len() - k,
{
    if k < s.len() && s[k].content.len() <= n {
        lemma_first_longer_range(s, n, k + 1);
    }
}

/// The excerpts never exceed the budget in total, and some excerpt is
/// offered whenever there are chunks.
pub proof fn lemma_budget_respected(s: Seq<ChunkView>, max_tokens: nat)
    ensures
        total_len(budgeted(s, max_tokens)) <= max_tokens * CHARS_PER_TOKEN,
        s.len() > 0 ==> budgeted(s, max_tokens).len() > 0,
{
    lemma_sorted_by_len_len(s);
    lemma_fill_within(sorted_by_len(s), max_tokens * CHARS_PER_TOKEN as nat, 0, true);
}

fn content_len(c: &DocChunk) -> (r: usize)
    ensures
        r == c.content@.len(),
{
    chars_of(c.content.as_str()).len()
}

/// Orders chunks by content length, shortest first, keeping the order of
/// chunks of equal length.
pub fn sort_by_content_len(chunks: &Vec<DocChunk>) -> (r: Vec<DocChunk>)
    ensures
        chunk_views(r@) == sorted_by_len(chunk_views(chunks@)),
{
    let ghost cs = chunk_views(chunks@);
    let mut out: Vec<DocChunk> = Vec::new();
    let mut i: usize = 0;
    while i < chunks.len()
        invariant
            i <= chunks@.len(),
            cs == chunk_views(chunks@),
            chunk_views(out@) == sorted_by_len(cs.subrange(0, i as int)),
        decreases chunks@.len() - i,
    {
        let c = &chunks[i];
        proof {
            let t = cs.subrange(0, i + 1);
            assert(t.drop_last() == cs.subrange(0, i as int));
            assert(t.last() == c@);
        }
        let n = content_len(c);
        let ghost acc = chunk_views(out@);
        let mut p: usize = 0;
        while p < out.len() && content_len(&out[p]) <= n
            invariant
                p <= out@.len(),
                acc == chunk_views(out@),
                n == c@.content.len(),
                first_longer(acc, n as nat, 0) == first_longer(acc, n as nat, p as int),
            decreases out@.len() - p,
        {
            p = p + 1;
        }
        out.insert(p, copy_chunk(c));
        proof {
            assert(chunk_views(out@) == acc.insert(p as int, c@));
        }
        i = i + 1;
    }
    proof {
        assert(cs.subrange(0, chunks@.len() as int) == cs);
    }
    out
}

/// Keeps the excerpts that fit a budget of `max_tokens` tokens: shortest
/// first, while the running total of content length stays within
/// `max_tokens * 4` characters; a first excerpt that alone is over is cut to
/// the budget.
pub fn truncate_to_budget(chunks: Vec<DocChunk>, max_tokens: usize) -> (r: Vec<DocChunk>)
    ensures
        chunk_views(r@) == budgeted(chunk_views(chunks@), max_tokens as nat),
        total_len(chunk_views(r@)) <= max_tokens * CHARS_PER_TOKEN,
        chunks@.len() > 0 ==> r@.len() > 0,
{
    let budget: u128 = max_tokens as u128 * CHARS_PER_TOKEN as u128;
    let sorted = sort_by_content_len(&chunks);
    let ghost s = chunk_views(sorted@);
    let mut out: Vec<DocChunk> = Vec::new();
    let mut total: u128 = 0;
    let mut i: usize = 0;
    let mut done = false;
    proof {
        assert(s.subrange(0, s.len() as int) == s);
        assert(chunk_views(out@) + fill_budget(s, budget as nat, 0, true) == fill_budget(s, budget as nat, 0, true));
    }
    while i < sorted.len() && !done
        invariant
            i <= sorted@.len(),
            s == chunk_views(sorted@),
            total <= budget,
            budget == max_tokens * CHARS_PER_TOKEN,
            !done && i == 0 ==> out@.len() == 0 && total == 0,
            done ==> fill_budget(s, budget as nat, 0, true) == chunk_views(out@),
            !done ==> fill_budget(s, budget as nat, 0, true) == chunk_views(out@) + fill_budget(
                s.subrange(i as int, s.len() as int),
                budget as nat,
                total as nat,
                i == 0,
            ),
        decreases sorted@.len() - i + (if done { 0int } else { 1int }),
    {
        let c = &sorted[i];
        let n = content_len(c);
        let ghost rest = s.subrange(i as int, s.len() as int);
        proof {
            assert(rest[0] == c@);
            assert(rest.drop_first() == s.subrange(i + 1, s.len() as int));
        }
        if n as u128 > budget - total {
            if i == 0 {
                let text = chars_of(c.content.as_str());
                let cut = copy_range(text.as_slice(), 0, budget as usize);
                let piece = DocChunk {
                    file: c.file.clone(),
                    start_line: c.start_line,
                    end_line: c.end_line,
                    content: string_of(cut.as_slice()),
                };
                proof {
                    assert(piece@ == cut_to(c@, budget as nat));
                }
                out.push(piece);
                proof {
                    assert(chunk_views(out@) == seq![piece@]);
                }
            } else {
                proof {
                    assert(chunk_views(out@) + Seq::<ChunkView>::empty() == chunk_views(out@));
                }
            }
            done = true;
        } else {
            let ghost before = out@;
            out.push(copy_chunk(c));
            total = total + n as u128;
            proof {
                assert(chunk_views(out@) == chunk_views(before).push(c@));
                assert(chunk_views(out@) + fill_budget(s.subrange(i + 1, s.len() as int), budget as nat, total as nat, false)
                    == chunk_views(before) + (seq![c@] + fill_budget(rest.drop_first(), budget as nat, total as nat, false)));
            }
            i = i + 1;
        }
    }
    proof {
        if !done {
            assert(s.subrange(i as int, s.len() as int).len() == 0);
            assert(chunk_views(out@) + Seq::<ChunkView>::empty() == chunk_views(out@));
        }
        lemma_budget_respected(chunk_views(chunks@), max_tokens as nat);
        lemma_sorted_by_len_len(chunk_views(chunks@));
    }
    out
}

// ---------------------------------------------------------------------------
// The analysis pipeline, one decision at a time

/// What the analysis does next.
#[derive(Debug)]
pub enum AnalysisStep {
    /// The analysis is over, with these issues.
    Finished(Vec<Issue>),
    /// Look the diff's queries up in the cache.
    LookupCache,
    /// Ask the model for search queries.
    GenerateQueries,
    /// Ask the model for search queries and store them in the cache; failing
    /// to store them does not stop the analysis.
    GenerateAndCacheQueries,
    /// Search the documentation with these queries.
    Search(Vec<String>),
    /// Ask the model to check these excerpts against the diff.
    Analyze(Vec<DocChunk>),
}

pub open spec fn finished_empty(r: AnalysisStep) -> bool {
    r is Finished && r->Finished_0@.len() == 0
}

/// Starts an analysis of `diff`. A diff that changes no file ends it at
/// once with no issues, before any cache lookup, search or model request.
pub fn begin_analysis(diff: &str, cache_enabled: bool) -> (r: AnalysisStep)
    ensures
        parsed_spec(diff@).0.len() == 0 ==> finished_empty(r),
        parsed_spec(diff@).0.len() > 0 && cache_enabled ==> r is LookupCache,
        parsed_spec(diff@).0.len() > 0 && !cache_enabled ==> r is GenerateQueries,
{
    let parsed = ParsedDiff::parse(diff);
    if parsed.files.len() == 0 {
        AnalysisStep::Finished(Vec::new())
    } else if cache_enabled {
        AnalysisStep::LookupCache
    } else {
        AnalysisStep::GenerateQueries
    }
}

/// Search queries are at hand: with none the analysis ends with no issues.
pub fn queries_ready(queries: Vec<String>) -> (r: AnalysisStep)
    ensures
        queries@.len() == 0 ==> finished_empty(r),
        queries@.len() > 0 ==> r is Search && r->Search_0@ == queries@,
{
    if queries.len() == 0 {
        AnalysisStep::Finished(Vec::new())
    } else {
        AnalysisStep::Search(queries)
    }
}

/// The cache answered: a live entry gives the queries; anything else sends
/// the request to the model, and its answer is to be cached.
pub fn after_cache_lookup(found: CacheLookup) -> (r: AnalysisStep)
    ensures
        match found {
            CacheLookup::Hit(q) => if q@.len() == 0 {
                finished_empty(r)
            } else {
                r is Search && r->Search_0@ == q@
            },
            _ => r is GenerateAndCacheQueries,
        },
{
    match found {
        CacheLookup::Hit(q) => queries_ready(q),
        _ => AnalysisStep::GenerateAndCacheQueries,
    }
}

/// The search is done: with no chunks the analysis ends with no issues;
/// otherwise the excerpts that fit the budget go to the model.
pub fn chunks_found(chunks: Vec<DocChunk>, max_tokens: usize) -> (r: AnalysisStep)
    ensures
        chunks@.len() == 0 ==> finished_empty(r),
        chunks@.len() > 0 ==> r is Analyze && chunk_views(r->Analyze_0@) == budgeted(chunk_views(chunks@), max_tokens as nat)
            && r->Analyze_0@.len() > 0,
{
    if chunks.len() == 0 {
        AnalysisStep::Finished(Vec::new())
    } else {
        AnalysisStep::Analyze(truncate_to_budget(chunks, max_tokens))
    }
}

/// The issues of the model's answer, in its order.
pub fn issues_from(raw: Vec<RawIssue>) -> (r: Vec<Issue>)
    ensures
        r@.len() == raw@.len(),
        forall|i: int| 0 <= i < raw@.len() ==> #[trigger] r@[i] == issue_of(raw@[i]),
{
    let mut out: Vec<Issue> = Vec::new();
    let mut rest = raw;
    let ghost all = rest@;
    while rest.len() > 0
        invariant
            out@.len() + rest@.len() == all.len(),
            forall|i: int| 0 <= i < out@.len() ==> #[trigger] out@[i] == issue_of(all[i]),
            rest@ == all.subrange(out@.len() as int, all.len() as int),
        decreases rest@.len(),
    {
        let item = rest.remove(0);
        proof {
            assert(item == all[out@.len() as int]);
        }
        out.push(Issue::from(item));
        proof {
            assert(rest@ == all.subrange(out@.len() as int, all.len() as int));
        }
    }
    out
}

/// The exit status of a run that printed its issues: failure when there
/// are any.
pub fn exit_code(issue_count: usize) -> (r: i32)
    ensures
        r == (if issue_count == 0 { 0i32 } else { 1i32 }),
{
    if issue_count == 0 {
        0
    } else {
        1
    }
}

// ---------------------------------------------------------------------------
// The pre-push hook's policy

/// What the pre-push hook does about an outcome.
#[derive(Debug, Clone, Copy, PartialEq, Eq, Structural)]
pub enum HookVerdict {
    /// Let the push go on, silently.
    Allow,
    /// Print a warning and let the push go on.
    WarnAndAllow,
    /// Stop the push with the error.
    Block,
}

/// Loading the configuration failed: without a configuration the tool is not
/// set up, and the push goes on; any other failure stops it.
pub fn config_error_verdict(e: &DriftcheckError) -> (r: HookVerdict)
    ensures
        r == (if *e is ConfigNotFound { HookVerdict::Allow } else { HookVerdict::Block }),
{
    match e {
        DriftcheckError::ConfigNotFound => HookVerdict::Allow,
        _ => HookVerdict::Block,
    }
}

/// Getting the diff failed: a branch without upstream is a first push and
/// goes on; otherwise the configured policy decides between a warning and
/// stopping the push.
pub fn diff_error_verdict(e: &DriftcheckError, allow_push_on_error: bool) -> (r: HookVerdict)
    ensures
        r == (if *e is NoUpstream {
            HookVerdict::Allow
        } else if allow_push_on_error {
            HookVerdict::WarnAndAllow
        } else {
            HookVerdict::Block
        }),
{
    match e {
        DriftcheckError::NoUpstream => HookVerdict::Allow,
        _ => analysis_error_verdict(allow_push_on_error),
    }
}

/// The analysis failed: the configured policy alone decides between a
/// warning and stopping the push.
pub fn analysis_error_verdict(allow_push_on_error: bool) -> (r: HookVerdict)
    ensures
        r == (if allow_push_on_error { HookVerdict::WarnAndAllow } else { HookVerdict::Block }),
{
    if allow_push_on_error {
        HookVerdict::WarnAndAllow
    } else {
        HookVerdict::Block
    }
}

} // verus!
