//! Text shown to people and sent to the model: an issue, the report of all
//! issues, and the documentation excerpts with the diff.
use vstd::prelude::*;
use crate::analyzer::Issue;
use crate::search::{ChunkView, DocChunk, chunk_views};
use crate::text::{chars_of, lines_of, push_all, split_lines, string_of, views_of};

verus! {

/// The decimal digits of `n`.
pub open spec fn decimal_chars(n: nat) -> Seq<char>
    decreases n,
{
    if n < 10 {
        seq![digit_char(n)]
    } else {
        decimal_chars(n / 10) + seq![digit_char(n % 10)]
    }
}

pub open spec fn digit_chars() -> Seq<char> {
    seq!['0', '1', '2', '3', '4', '5', '6', '7', '8', '9']
}

pub open spec fn digit_char(d: nat) -> char {
    digit_chars()[d as int]
}

/// Appends the decimal digits of `n`.
pub fn push_decimal(out: &mut Vec<char>, n: usize)
    ensures
        final(out)@ == old(out)@ + decimal_chars(n as nat),
    decreases n,
{
    if n >= 10 {
        push_decimal(out, n / 10);
    }
    let digits = vec!['0', '1', '2', '3', '4', '5', '6', '7', '8', '9'];
    proof {
        assert(digits@ == digit_chars());
    }
    out.push(digits[n % 10]);
    proof {
        if n < 10 {
            assert(n % 10 == n);
        }
    }
}

/// Appends each character of `c` `n` times.
fn push_repeat(out: &mut Vec<char>, c: char, n: usize)
    ensures
        final(out)@ == old(out)@ + Seq::new(n as nat, |i: int| c),
{
    let mut i: usize = 0;
    while i < n
        invariant
            i <= n,
            out@ == old(out)@ + Seq::new(i as nat, |k: int| c),
        decreases n - i,
    {
        out.push(c);
        i = i + 1;
        proof {
            assert(out@ == old(out)@ + Seq::new(i as nat, |k: int| c));
        }
    }
}

// ---------------------------------------------------------------------------
// One issue

pub open spec fn rule(c: char, n: nat) -> Seq<char> {
    Seq::new(n, |i: int| c)
}

/// Each line indented by two spaces and ended by a newline.
pub open spec fn indented_lines(ls: Seq<Seq<char>>, indent: Seq<char>) -> Seq<char>
    decreases ls.len(),
{
    if ls.len() == 0 {
        Seq::empty()
    } else {
        indented_lines(ls.drop_last(), indent) + indent + ls.last() + seq!['\n']
    }
}

pub open spec fn doc_excerpt_heading() -> Seq<char> {
    seq!['\n', 'D', 'o', 'c', ' ', 'e', 'x', 'c', 'e', 'r', 'p', 't', ':', '\n']
}

pub open spec fn suggested_fix_label() -> Seq<char> {
    seq!['S', 'u', 'g', 'g', 'e', 's', 't', 'e', 'd', ' ', 'f', 'i', 'x', ':', ' ']
}

/// An issue for display: its place, a rule, its description, the
/// documentation excerpt line by line if there is one, and the suggested fix
/// if there is one.
pub open spec fn format_issue_spec(i: Issue) -> Seq<char> {
    let head = seq!['📄', ' '] + i.file@ + seq![':'] + decimal_chars(i.line as nat) + seq!['\n']
        + rule('─', 60) + seq!['\n'] + i.description@ + seq!['\n'];
    let excerpt = if i.doc_excerpt@.len() > 0 {
        doc_excerpt_heading() + indented_lines(lines_of(i.doc_excerpt@), seq![' ', ' '])
    } else {
        Seq::empty()
    };
    let fix = match i.suggested_fix {
        Some(f) => seq!['\n'] + suggested_fix_label() + f@ + seq!['\n'],
        None => Seq::empty(),
    };
    head + excerpt + fix
}

/// Appends the lines, each after `indent` and ended by a newline.
fn push_indented(out: &mut Vec<char>, lines: &Vec<Vec<char>>, indent: &[char])
    ensures
        final(out)@ == old(out)@ + indented_lines(views_of(lines@), indent@),
{
    let ghost ls = views_of(lines@);
    let mut i: usize = 0;
    while i < lines.len()
        invariant
            i <= lines@.len(),
            ls == views_of(lines@),
            out@ == old(out)@ + indented_lines(ls.subrange(0, i as int), indent@),
        decreases lines@.len() - i,
    {
        push_all(out, indent);
        push_all(out, lines[i].as_slice());
        out.push('\n');
        proof {
            let t = ls.subrange(0, i + 1);
            assert(t.drop_last() == ls.subrange(0, i as int));
            assert(t.last() == lines@[i as int]@);
            assert(out@ == old(out)@ + indented_lines(t, indent@));
        }
        i = i + 1;
    }
    proof {
        assert(ls.subrange(0, lines@.len() as int) == ls);
    }
}

/// Formats a single issue for display.
pub fn format_issue(issue: &Issue) -> (r: String)
    ensures
        r@ == format_issue_spec(*issue),
{
    let mut out: Vec<char> = Vec::new();
    out.push('📄');
    out.push(' ');
    let file = chars_of(issue.file.as_str());
    push_all(&mut out, file.as_slice());
    out.push(':');
    push_decimal(&mut out, issue.line);
    out.push('\n');
    push_repeat(&mut out, '─', 60);
    out.push('\n');
    let desc = chars_of(issue.description.as_str());
    push_all(&mut out, desc.as_slice());
    out.push('\n');
    let ghost head = out@;
    proof {
        assert(head == seq!['📄', ' '] + issue.file@ + seq![':'] + decimal_chars(issue.line as nat) + seq!['\n']
            + rule('─', 60) + seq!['\n'] + issue.description@ + seq!['\n']);
    }
    let excerpt = chars_of(issue.doc_excerpt.as_str());
    if excerpt.len() > 0 {
        let heading = vec!['\n', 'D', 'o', 'c', ' ', 'e', 'x', 'c', 'e', 'r', 'p', 't', ':', '\n'];
        push_all(&mut out, heading.as_slice());
        let lines = split_lines(excerpt.as_slice());
        let indent = vec![' ', ' '];
        push_indented(&mut out, &lines, indent.as_slice());
        proof {
            assert(heading@ == doc_excerpt_heading());
            assert(indent@ == seq![' ', ' ']);
        }
    }
    let ghost mid = out@;
    match &issue.suggested_fix {
        Some(f) => {
            let label = vec!['\n', 'S', 'u', 'g', 'g', 'e', 's', 't', 'e', 'd', ' ', 'f', 'i', 'x', ':', ' '];
            push_all(&mut out, label.as_slice());
            let fc = chars_of(f.as_str());
            push_all(&mut out, fc.as_slice());
            out.push('\n');
            proof {
                assert(label@ == seq!['\n'] + suggested_fix_label());
                assert(out@ == mid + (seq!['\n'] + suggested_fix_label() + f@ + seq!['\n']));
            }
        },
        None => {
            proof {
                assert(out@ == mid + Seq::<char>::empty());
            }
        },
    }
    proof {
        assert(out@ == format_issue_spec(*issue));
    }
    string_of(out.as_slice())
}

// ---------------------------------------------------------------------------
// The documentation excerpts sent for analysis

/// `--- file (lines a-b) ---` and the content.
pub open spec fn chunk_block(c: ChunkView) -> Seq<char> {
    seq!['-', '-', '-', ' '] + c.file + seq![' ', '(', 'l', 'i', 'n', 'e', 's', ' '] + decimal_chars(
        c.start_line as nat,
    ) + seq!['-'] + decimal_chars(c.end_line as nat) + seq![')', ' ', '-', '-', '-', '\n'] + c.content
}

/// The blocks of all chunks, separated by blank lines.
pub open spec fn doc_context_spec(cs: Seq<ChunkView>) -> Seq<char>
    decreases cs.len(),
{
    if cs.len() == 0 {
        Seq::empty()
    } else if cs.len() == 1 {
        chunk_block(cs[0])
    } else {
        doc_context_spec(cs.drop_last()) + seq!['\n', '\n'] + chunk_block(cs.last())
    }
}

fn push_chunk_block(out: &mut Vec<char>, c: &DocChunk)
    ensures
        final(out)@ == old(out)@ + chunk_block(c@),
{
    let open = vec!['-', '-', '-', ' '];
    push_all(out, open.as_slice());
    let f = chars_of(c.file.as_str());
    push_all(out, f.as_slice());
    let lines = vec![' ', '(', 'l', 'i', 'n', 'e', 's', ' '];
    push_all(out, lines.as_slice());
    push_decimal(out, c.start_line);
    out.push('-');
    push_decimal(out, c.end_line);
    let close = vec![')', ' ', '-', '-', '-', '\n'];
    push_all(out, close.as_slice());
    let content = chars_of(c.content.as_str());
    push_all(out, content.as_slice());
    proof {
        assert(open@ == seq!['-', '-', '-', ' ']);
        assert(lines@ == seq![' ', '(', 'l', 'i', 'n', 'e', 's', ' ']);
        assert(close@ == seq![')', ' ', '-', '-', '-', '\n']);
        assert(out@ == old(out)@ + chunk_block(c@));
    }
}

/// The documentation excerpts as the analysis prompt shows them.
pub fn format_doc_context(chunks: &Vec<DocChunk>) -> (r: String)
    ensures
        r@ == doc_context_spec(chunk_views(chunks@)),
{
    let ghost cs = chunk_views(chunks@);
    let mut out: Vec<char> = Vec::new();
    let mut i: usize = 0;
    while i < chunks.len()
        invariant
            i <= chunks@.len(),
            cs == chunk_views(chunks@),
            out@ == doc_context_spec(cs.subrange(0, i as int)),
        decreases chunks@.len() - i,
    {
        let ghost before = out@;
        if i > 0 {
            out.push('\n');
            out.push('\n');
        }
        push_chunk_block(&mut out, &chunks[i]);
        proof {
            let t = cs.subrange(0, i + 1);
            assert(t.drop_last() == cs.subrange(0, i as int));
            assert(t.last() == chunks@[i as int]@);
            if i == 0 {
                assert(t.len() == 1);
                assert(out@ == chunk_block(t[0]));
            } else {
                assert(out@ == before + seq!['\n', '\n'] + chunk_block(t.last()));
            }
        }
        i = i + 1;
    }
    proof {
        assert(cs.subrange(0, chunks@.len() as int) == cs);
    }
    string_of(out.as_slice())
}

pub open spec fn diff_heading() -> Seq<char> {
    seq![
        '#', '#', ' ', 'C', 'o', 'd', 'e', ' ', 'D', 'i', 'f', 'f', ' ', '(', 'c', 'h', 'a', 'n', 'g', 'e', 's',
        ' ', 'b', 'e', 'i', 'n', 'g', ' ', 'p', 'u', 's', 'h', 'e', 'd', ')', '\n', '`', '`', '`', 'd', 'i', 'f',
        'f', '\n',
    ]
}

pub open spec fn excerpts_heading() -> Seq<char> {
    seq![
        '\n', '`', '`', '`', '\n', '\n', '#', '#', ' ', 'D', 'o', 'c', 'u', 'm', 'e', 'n', 't', 'a', 't', 'i', 'o',
        'n', ' ', 'E', 'x', 'c', 'e', 'r', 'p', 't', 's', '\n',
    ]
}

/// The analysis request: the diff in a fenced block, then the excerpts.
pub open spec fn analysis_message_spec(diff: Seq<char>, cs: Seq<ChunkView>) -> Seq<char> {
    diff_heading() + diff + excerpts_heading() + doc_context_spec(cs)
}

/// Builds the analysis request from the diff and the chosen excerpts.
pub fn analysis_message(diff: &str, chunks: &Vec<DocChunk>) -> (r: String)
    ensures
        r@ == analysis_message_spec(diff@, chunk_views(chunks@)),
{
    let head = vec![
        '#', '#', ' ', 'C', 'o', 'd', 'e', ' ', 'D', 'i', 'f', 'f', ' ', '(', 'c', 'h', 'a', 'n', 'g', 'e', 's',
        ' ', 'b', 'e', 'i', 'n', 'g', ' ', 'p', 'u', 's', 'h', 'e', 'd', ')', '\n', '`', '`', '`', 'd', 'i', 'f',
        'f', '\n',
    ];
    let mid = vec![
        '\n', '`', '`', '`', '\n', '\n', '#', '#', ' ', 'D', 'o', 'c', 'u', 'm', 'e', 'n', 't', 'a', 't', 'i', 'o',
        'n', ' ', 'E', 'x', 'c', 'e', 'r', 'p', 't', 's', '\n',
    ];
    let mut out: Vec<char> = Vec::new();
    push_all(&mut out, head.as_slice());
    let d = chars_of(diff);
    push_all(&mut out, d.as_slice());
    push_all(&mut out, mid.as_slice());
    let ctx = format_doc_context(chunks);
    let cc = chars_of(ctx.as_str());
    push_all(&mut out, cc.as_slice());
    proof {
        assert(head@ == diff_heading());
        assert(mid@ == excerpts_heading());
        assert(out@ == analysis_message_spec(diff@, chunk_views(chunks@)));
    }
    string_of(out.as_slice())
}

// ---------------------------------------------------------------------------
// The report of all issues, for a terminal that is not interactive

pub open spec fn first_lines(ls: Seq<Seq<char>>, n: nat) -> Seq<Seq<char>> {
    if ls.len() <= n {
        ls
    } else {
        ls.take(n as int)
    }
}

/// Lines of the excerpt shown per issue.
pub const EXCERPT_LINES: usize = 5;

pub open spec fn report_banner() -> Seq<char> {
    seq![
        '\n', 'd', 'o', 'c', 'g', 'u', 'a', 'r', 'd', ':', ' ', 'D', 'o', 'c', 'u', 'm', 'e', 'n', 't', 'a', 't',
        'i', 'o', 'n', ' ', 'd', 'r', 'i', 'f', 't', ' ', 'd', 'e', 't', 'e', 'c', 't', 'e', 'd', '!', '\n', '\n',
    ]
}

pub open spec fn documentation_says() -> Seq<char> {
    seq![
        '\n', ' ', ' ', 'D', 'o', 'c', 'u', 'm', 'e', 'n', 't', 'a', 't', 'i', 'o', 'n', ' ', 's', 'a', 'y', 's',
        ':', '\n',
    ]
}

pub open spec fn report_head(number: nat, i: Issue) -> Seq<char> {
    seq!['I', 's', 's', 'u', 'e', ' '] + decimal_chars(number) + seq![':', ' '] + i.file@ + seq![':']
        + decimal_chars(i.line as nat) + seq!['\n', ' ', ' '] + i.description@ + seq!['\n']
}

pub open spec fn report_excerpt(excerpt: Seq<char>) -> Seq<char> {
    if excerpt.len() > 0 {
        documentation_says() + indented_lines(first_lines(lines_of(excerpt), EXCERPT_LINES as nat), seq![' ', ' ', ' ', ' '])
    } else {
        Seq::empty()
    }
}

pub open spec fn report_fix(fix: Option<String>) -> Seq<char> {
    match fix {
        Some(f) => seq!['\n', ' ', ' '] + suggested_fix_label() + f@ + seq!['\n'],
        None => Seq::empty(),
    }
}

/// One issue of the report, numbered from 1: its place, its description,
/// up to five lines of the excerpt, and the suggested fix.
pub open spec fn report_item(number: nat, i: Issue) -> Seq<char> {
    report_head(number, i) + report_excerpt(i.doc_excerpt@) + report_fix(i.suggested_fix) + seq!['\n']
}

pub open spec fn report_items(issues: Seq<Issue>) -> Seq<char>
    decreases issues.len(),
{
    if issues.len() == 0 {
        Seq::empty()
    } else {
        report_items(issues.drop_last()) + report_item(issues.len() as nat, issues.last())
    }
}

/// The whole report: a banner and a rule, each issue, and a closing rule.
pub open spec fn report_spec(issues: Seq<Issue>) -> Seq<char> {
    report_banner() + rule('━', 72) + seq!['\n', '\n'] + report_items(issues) + rule('━', 72) + seq!['\n']
}

fn push_report_head(out: &mut Vec<char>, number: usize, issue: &Issue)
    ensures
        final(out)@ == old(out)@ + report_head(number as nat, *issue),
{
    let label = vec!['I', 's', 's', 'u', 'e', ' '];
    push_all(out, label.as_slice());
    push_decimal(out, number);
    out.push(':');
    out.push(' ');
    let file = chars_of(issue.file.as_str());
    push_all(out, file.as_slice());
    out.push(':');
    push_decimal(out, issue.line);
    out.push('\n');
    out.push(' ');
    out.push(' ');
    let desc = chars_of(issue.description.as_str());
    push_all(out, desc.as_slice());
    out.push('\n');
    proof {
        assert(label@ == seq!['I', 's', 's', 'u', 'e', ' ']);
        assert(out@ == old(out)@ + report_head(number as nat, *issue));
    }
}

fn push_report_excerpt(out: &mut Vec<char>, doc_excerpt: &String)
    ensures
        final(out)@ == old(out)@ + report_excerpt(doc_excerpt@),
{
    let excerpt = chars_of(doc_excerpt.as_str());
    if excerpt.len() > 0 {
        let says = vec![
            '\n', ' ', ' ', 'D', 'o', 'c', 'u', 'm', 'e', 'n', 't', 'a', 't', 'i', 'o', 'n', ' ', 's', 'a', 'y',
            's', ':', '\n',
        ];
        push_all(out, says.as_slice());
        let mut lines = split_lines(excerpt.as_slice());
        let ghost all = views_of(lines@);
        if lines.len() > EXCERPT_LINES {
            lines.truncate(EXCERPT_LINES);
            proof {
                assert(views_of(lines@) == all.take(EXCERPT_LINES as int));
            }
        }
        let indent = vec![' ', ' ', ' ', ' '];
        push_indented(out, &lines, indent.as_slice());
        proof {
            assert(says@ == documentation_says());
            assert(indent@ == seq![' ', ' ', ' ', ' ']);
            assert(views_of(lines@) == first_lines(lines_of(doc_excerpt@), EXCERPT_LINES as nat));
            assert(out@ == old(out)@ + report_excerpt(doc_excerpt@));
        }
    } else {
        proof {
            assert(out@ == old(out)@ + Seq::<char>::empty());
        }
    }
}

fn push_report_fix(out: &mut Vec<char>, fix: &Option<String>)
    ensures
        final(out)@ == old(out)@ + report_fix(*fix),
{
    match fix {
        Some(f) => {
            let label = vec!['\n', ' ', ' ', 'S', 'u', 'g', 'g', 'e', 's', 't', 'e', 'd', ' ', 'f', 'i', 'x', ':', ' '];
            push_all(out, label.as_slice());
            let fc = chars_of(f.as_str());
            push_all(out, fc.as_slice());
            out.push('\n');
            proof {
                assert(label@ == seq!['\n', ' ', ' '] + suggested_fix_label());
                assert(out@ == old(out)@ + (seq!['\n', ' ', ' '] + suggested_fix_label() + f@ + seq!['\n']));
            }
        },
        None => {
            proof {
                assert(out@ == old(out)@ + Seq::<char>::empty());
            }
        },
    }
}

fn push_report_item(out: &mut Vec<char>, number: usize, issue: &Issue)
    ensures
        final(out)@ == old(out)@ + report_item(number as nat, *issue),
{
    push_report_head(out, number, issue);
    push_report_excerpt(out, &issue.doc_excerpt);
    push_report_fix(out, &issue.suggested_fix);
    out.push('\n');
    proof {
        assert(out@ == old(out)@ + report_item(number as nat, *issue));
    }
}

/// The report of all issues that a non-interactive run prints.
pub fn issues_report(issues: &Vec<Issue>) -> (r: String)
    ensures
        r@ == report_spec(issues@),
{
    let banner = vec![
        '\n', 'd', 'o', 'c', 'g', 'u', 'a', 'r', 'd', ':', ' ', 'D', 'o', 'c', 'u', 'm', 'e', 'n', 't', 'a', 't',
        'i', 'o', 'n', ' ', 'd', 'r', 'i', 'f', 't', ' ', 'd', 'e', 't', 'e', 'c', 't', 'e', 'd', '!', '\n', '\n',
    ];
    let mut out: Vec<char> = Vec::new();
    push_all(&mut out, banner.as_slice());
    push_repeat(&mut out, '━', 72);
    out.push('\n');
    out.push('\n');
    let ghost start = out@;
    proof {
        assert(banner@ == report_banner());
        assert(start == report_banner() + rule('━', 72) + seq!['\n', '\n']);
    }
    let mut i: usize = 0;
    while i < issues.len()
        invariant
            i <= issues@.len(),
            out@ == start + report_items(issues@.subrange(0, i as int)),
        decreases issues@.len() - i,
    {
        push_report_item(&mut out, i + 1, &issues[i]);
        proof {
            let t = issues@.subrange(0, i + 1);
            assert(t.drop_last() == issues@.subrange(0, i as int));
            assert(t.last() == issues@[i as int]);
        }
        i = i + 1;
    }
    proof {
        assert(issues@.subrange(0, issues@.len() as int) == issues@);
    }
    push_repeat(&mut out, '━', 72);
    out.push('\n');
    string_of(out.as_slice())
}

} // verus!
