use driftcheck::cache::{cache_file_name, cache_key, encode, is_expired, lookup, CacheEntry, CacheLookup};
use driftcheck::config::{default_doc_paths, default_model, default_ttl, Config};
use driftcheck::error::DriftcheckError;
use driftcheck::fix::{parse_range, parse_unified_diff, DiffLine};
use driftcheck::git::{is_docs_only_diff, parse_hunk_header, recently_changed_docs, ParsedDiff};
use driftcheck::llm::{backoff_delay_ms, retry_after_ms, classify_issue_text, frame_issues, parse_search_queries, IssueText};
use driftcheck::analyzer::Issue;
use driftcheck::output::{format_doc_context, format_issue, issues_report};
use driftcheck::search::DocChunk;

#[test]
fn parse_collects_new_side_paths_once_in_order() {
    let diff = "diff --git a/src/a.rs b/src/a.rs\nindex 1..2\n@@ -1,2 +1,3 @@\n ctx\n+added\ndiff --git a/old.md b/new.md\n@@ -4 +4 @@\n-x\n+y\ndiff --git a/src/a.rs b/src/a.rs\n";
    let parsed = ParsedDiff::parse(diff);
    assert_eq!(parsed.files, vec!["src/a.rs".to_string(), "new.md".to_string()]);
    assert_eq!(parsed.hunks.len(), 2);
    assert_eq!(parsed.hunks[0].file, "src/a.rs");
    assert_eq!((parsed.hunks[0].old_start, parsed.hunks[0].old_count, parsed.hunks[0].new_start, parsed.hunks[0].new_count), (1, 2, 1, 3));
    assert_eq!(parsed.hunks[0].content, " ctx\n+added\n");
    assert_eq!((parsed.hunks[1].old_count, parsed.hunks[1].new_count), (1, 1));
    assert_eq!(parsed.raw, diff);
}

#[test]
fn parse_empty_diff() {
    let parsed = ParsedDiff::parse("");
    assert!(parsed.files.is_empty());
    assert!(parsed.hunks.is_empty());
}

#[test]
fn hunk_header_counts() {
    assert_eq!(parse_hunk_header("@@ -7,6 +7,7 @@ fn main()"), (7, 6, 7, 7));
    assert_eq!(parse_hunk_header("@@ -3 +4 @@"), (3, 1, 4, 1));
    assert_eq!(parse_hunk_header("@@ -x,y +5,z @@"), (0, 1, 5, 1));
}

#[test]
fn docs_only() {
    let docs = ParsedDiff::parse("diff --git a/README.md b/README.md\ndiff --git a/c.toml b/c.toml\n");
    assert!(is_docs_only_diff(&docs));
    let code = ParsedDiff::parse("diff --git a/README.md b/README.md\ndiff --git a/src/x.rs b/src/x.rs\n");
    assert!(!is_docs_only_diff(&code));
}

#[test]
fn patch_lines() {
    let hunks = parse_unified_diff("--- a/x\n+++ b/x\n@@ -1,2 +1,2 @@\n keep\n-old\n+new\n\n@@ -9 +9,2 @@\n+more\n");
    assert_eq!(hunks.len(), 2);
    assert_eq!((hunks[0].original_start, hunks[0].original_count, hunks[0].new_start, hunks[0].new_count), (1, 2, 1, 2));
    assert_eq!(hunks[0].lines.len(), 4);
    assert!(matches!(&hunks[0].lines[0], DiffLine::Context(s) if s == "keep"));
    assert!(matches!(&hunks[0].lines[1], DiffLine::Remove(s) if s == "old"));
    assert!(matches!(&hunks[0].lines[2], DiffLine::Add(s) if s == "new"));
    assert!(matches!(&hunks[0].lines[3], DiffLine::Context(s) if s.is_empty()));
    assert_eq!((hunks[1].original_start, hunks[1].original_count, hunks[1].new_count), (9, 1, 2));
}

#[test]
fn ranges() {
    assert_eq!(parse_range("5"), (5, 1));
    assert_eq!(parse_range("5,3"), (5, 3));
    assert_eq!(parse_range("x,3"), (1, 3));
    assert_eq!(parse_range("+7,2"), (7, 2));
}

#[test]
fn hex_encoding() {
    assert_eq!(encode(&[0x0f, 0xa0, 0x00, 0xff]), "0fa000ff");
    assert_eq!(encode(&[]), "");
}

#[test]
fn cache_key_is_digest_prefix() {
    assert_eq!(cache_key(""), "e3b0c44298fc1c14");
    assert_eq!(cache_file_name(""), "e3b0c44298fc1c14.json");
    assert_ne!(cache_key("a"), cache_key("b"));
}

#[test]
fn expired_entry_is_a_miss() {
    assert!(is_expired(0, 3_600_001, 3600));
    assert!(!is_expired(0, 3_600_000, 3600));
    let entry = CacheEntry { queries: vec!["q".to_string()], created_at: 1_000_000 };
    assert!(matches!(lookup(Some(entry.clone()), 1_000_000 + 3_601_000, 3600), CacheLookup::Expired));
    match lookup(Some(entry), 1_100_000, 3600) {
        CacheLookup::Hit(q) => assert_eq!(q, vec!["q".to_string()]),
        other => panic!("unexpected {:?}", other),
    }
    assert!(matches!(lookup(None, 0, 3600), CacheLookup::Miss));
}

#[test]
fn queries_from_answers() {
    assert_eq!(parse_search_queries("[\"a\", \"b\"]").unwrap(), vec!["a".to_string(), "b".to_string()]);
    assert!(matches!(parse_search_queries("nothing here"), Err(DriftcheckError::LlmResponseParse(_))));
    assert!(matches!(parse_search_queries("] then ["), Err(DriftcheckError::LlmResponseParse(_))));
    assert!(matches!(parse_search_queries("[1, 2]"), Err(DriftcheckError::LlmResponseParse(_))));
}

#[test]
fn issue_answers() {
    assert_eq!(frame_issues("No issues found.").unwrap(), IssueText::NoIssues);
    assert_eq!(frame_issues("NO DOCUMENTATION problems").unwrap(), IssueText::NoIssues);
    assert_eq!(frame_issues("Result: []").unwrap(), IssueText::NoIssues);
    assert_eq!(frame_issues("x [{\"file\":\"a\"}] y").unwrap(), IssueText::Array("[{\"file\":\"a\"}]".to_string()));
    assert!(matches!(frame_issues("I am not sure"), Err(DriftcheckError::LlmResponseParse(_))));
    assert!(matches!(frame_issues("[ no close"), Err(DriftcheckError::LlmResponseParse(_))));
    assert_eq!(classify_issue_text("NO ISSUES", "no issues").unwrap(), IssueText::NoIssues);
    assert!(classify_issue_text("NO ISSUES", "NO ISSUES").is_err());
}

#[test]
fn defaults() {
    let c = Config::default();
    assert!(c.general.enabled);
    assert_eq!(c.docs.max_context_tokens, 8000);
    assert_eq!(c.cache.ttl, 3600);
    assert_eq!(c.cache.dir, ".git/driftcheck_cache");
    assert_eq!(default_doc_paths(), vec!["README.md".to_string(), "docs/**/*.md".to_string()]);
    assert_eq!(default_model(), "gpt-4o");
    assert_eq!(default_ttl(), 3600);
    assert!(c.prompts.search_queries.contains("JSON array"));
}

#[test]
fn issue_text() {
    let issue = Issue {
        file: "docs/a.md".to_string(),
        line: 42,
        description: "Wrong".to_string(),
        doc_excerpt: "one\ntwo".to_string(),
        suggested_fix: Some("Fix it".to_string()),
    };
    let expected = format!("📄 docs/a.md:42\n{}\nWrong\n\nDoc excerpt:\n  one\n  two\n\nSuggested fix: Fix it\n", "─".repeat(60));
    assert_eq!(format_issue(&issue), expected);
    let bare = Issue { doc_excerpt: String::new(), suggested_fix: None, ..issue };
    assert_eq!(format_issue(&bare), format!("📄 docs/a.md:42\n{}\nWrong\n", "─".repeat(60)));
}

#[test]
fn doc_context_blocks() {
    let chunks = vec![
        DocChunk { file: "a.md".to_string(), start_line: 1, end_line: 3, content: "x".to_string() },
        DocChunk { file: "b.md".to_string(), start_line: 100, end_line: 105, content: "y".to_string() },
    ];
    assert_eq!(format_doc_context(&chunks), "--- a.md (lines 1-3) ---\nx\n\n--- b.md (lines 100-105) ---\ny");
}

#[test]
fn report_lists_issues() {
    let issues = vec![Issue {
        file: "docs/api.md".to_string(),
        line: 12,
        description: "Signature changed".to_string(),
        doc_excerpt: "a\nb\nc\nd\ne\nf".to_string(),
        suggested_fix: Some("Use u16".to_string()),
    }];
    let rule = "━".repeat(72);
    let expected = format!(
        "\ndocguard: Documentation drift detected!\n\n{rule}\n\nIssue 1: docs/api.md:12\n  Signature changed\n\n  Documentation says:\n    a\n    b\n    c\n    d\n    e\n\n  Suggested fix: Use u16\n\n{rule}\n"
    );
    assert_eq!(issues_report(&issues), expected);
    assert_eq!(issues_report(&vec![]), format!("\ndocguard: Documentation drift detected!\n\n{rule}\n\n{rule}\n"));
}

#[test]
fn changed_docs_from_log() {
    let docs = recently_changed_docs("README.md\nsrc/main.rs\n\ndocs/guide.rst\nnotes.txt\r\nCargo.toml\n");
    assert_eq!(docs, vec!["README.md".to_string(), "docs/guide.rst".to_string(), "notes.txt".to_string()]);
    assert!(recently_changed_docs("").is_empty());
}

#[test]
fn retry_waits_double() {
    assert_eq!(backoff_delay_ms(1), 500);
    assert_eq!(backoff_delay_ms(2), 1000);
    assert_eq!(backoff_delay_ms(4), 4000);
}

#[test]
fn retries_until_exhausted() {
    assert_eq!(retry_after_ms(0, 2), Some(500));
    assert_eq!(retry_after_ms(1, 2), Some(1000));
    assert_eq!(retry_after_ms(2, 2), None);
    assert_eq!(retry_after_ms(0, 0), None);
}
