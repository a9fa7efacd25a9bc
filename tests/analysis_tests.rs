use driftcheck::analyzer::{after_cache_lookup, begin_analysis, chunks_found, analysis_error_verdict, config_error_verdict, diff_error_verdict, exit_code, issues_from, queries_ready, truncate_to_budget, AnalysisStep, HookVerdict};
use driftcheck::error::DriftcheckError;
use driftcheck::cache::CacheLookup;
use driftcheck::llm::{frame_issues, parse_search_queries, IssueText, RawIssue};
use driftcheck::output::{analysis_message, format_issue};
use driftcheck::search::{combine_search_results, parse_ripgrep_output, DocChunk};

fn chunk(file: &str, start: usize, end: usize, content: &str) -> DocChunk {
    DocChunk { file: file.to_string(), start_line: start, end_line: end, content: content.to_string() }
}

#[test]
fn budget_takes_shortest_first() {
    let out = truncate_to_budget(vec![chunk("a", 1, 1, "0123456789"), chunk("b", 1, 1, "abc"), chunk("c", 1, 1, "abcdefg")], 3);
    let contents: Vec<&str> = out.iter().map(|c| c.content.as_str()).collect();
    assert_eq!(contents, vec!["abc", "abcdefg"]);
}

#[test]
fn budget_cuts_oversized_first_chunk() {
    let out = truncate_to_budget(vec![chunk("a", 1, 9, "abcdefghijklmnopqrst")], 2);
    assert_eq!(out.len(), 1);
    assert_eq!(out[0].content, "abcdefgh");
    assert_eq!(out[0].file, "a");
}

#[test]
fn budget_never_exceeded() {
    let chunks: Vec<DocChunk> = (0..20).map(|i| chunk("f", i, i, &"x".repeat(i * 3 + 1))).collect();
    let out = truncate_to_budget(chunks, 10);
    let total: usize = out.iter().map(|c| c.content.chars().count()).sum();
    assert!(total <= 40);
    assert!(!out.is_empty());
}

#[test]
fn budget_stable_for_equal_lengths() {
    let out = truncate_to_budget(vec![chunk("a", 1, 1, "xx"), chunk("b", 1, 1, "yy")], 100);
    assert_eq!(out[0].file, "a");
    assert_eq!(out[1].file, "b");
}

#[test]
fn budget_of_nothing_is_nothing() {
    assert!(truncate_to_budget(vec![], 5).is_empty());
}

#[test]
fn empty_diff_finishes_at_once() {
    match begin_analysis("", true) {
        AnalysisStep::Finished(issues) => assert!(issues.is_empty()),
        other => panic!("unexpected step {:?}", other),
    }
    match begin_analysis("just some text\nwithout markers\n", false) {
        AnalysisStep::Finished(issues) => assert!(issues.is_empty()),
        other => panic!("unexpected step {:?}", other),
    }
}

#[test]
fn api_change_reports_one_issue() {
    let diff = "diff --git a/src/api.rs b/src/api.rs\n@@ -1,3 +1,3 @@\n-fn process_data(a: u8)\n+fn process_data(a: u16)\n";
    assert!(matches!(begin_analysis(diff, true), AnalysisStep::LookupCache));
    assert!(matches!(after_cache_lookup(CacheLookup::Miss), AnalysisStep::GenerateAndCacheQueries));
    let queries = parse_search_queries("Here you go: [\"process_data\"]").unwrap();
    assert_eq!(queries, vec!["process_data".to_string()]);
    let queries = match queries_ready(queries) {
        AnalysisStep::Search(q) => q,
        other => panic!("unexpected step {:?}", other),
    };
    assert_eq!(queries.len(), 1);
    let found = parse_ripgrep_output("docs/api.md-10-## API\ndocs/api.md-11-\ndocs/api.md:12:Call process_data(a: u8).\ndocs/api.md-13-\ndocs/api.md-14-End\n");
    let chunks = combine_search_results(&vec![found]);
    assert_eq!(chunks.len(), 1);
    assert_eq!((chunks[0].file.as_str(), chunks[0].start_line, chunks[0].end_line), ("docs/api.md", 10, 14));
    let chunks = match chunks_found(chunks, 8000) {
        AnalysisStep::Analyze(c) => c,
        other => panic!("unexpected step {:?}", other),
    };
    let message = analysis_message(diff, &chunks);
    assert!(message.contains("--- docs/api.md (lines 10-14) ---\n## API"));
    let answer = "[{\"file\": \"docs/api.md\", \"line\": 12, \"description\": \"signature changed\"}]";
    let text = match frame_issues(answer).unwrap() {
        IssueText::Array(t) => t,
        IssueText::NoIssues => panic!("expected issues"),
    };
    assert!(text.starts_with('[') && text.ends_with(']'));
    let issues = issues_from(vec![RawIssue {
        file: "docs/api.md".to_string(),
        line: 12,
        description: "signature changed".to_string(),
        doc_excerpt: String::new(),
        suggested_fix: None,
    }]);
    assert_eq!(issues.len(), 1);
    assert!(format_issue(&issues[0]).contains("docs/api.md:12"));
    assert_eq!(exit_code(issues.len()), 1);
}

#[test]
fn readme_change_without_matches_reports_nothing() {
    let diff = "diff --git a/README.md b/README.md\n@@ -1 +1 @@\n-old\n+new\n";
    assert!(matches!(begin_analysis(diff, false), AnalysisStep::GenerateQueries));
    assert!(matches!(queries_ready(vec!["install".to_string()]), AnalysisStep::Search(_)));
    let chunks = combine_search_results(&vec![parse_ripgrep_output("")]);
    match chunks_found(chunks, 8000) {
        AnalysisStep::Finished(issues) => assert!(issues.is_empty()),
        other => panic!("unexpected step {:?}", other),
    }
    assert_eq!(exit_code(0), 0);
}

#[test]
fn cache_hit_goes_to_search() {
    match after_cache_lookup(CacheLookup::Hit(vec!["q".to_string()])) {
        AnalysisStep::Search(q) => assert_eq!(q, vec!["q".to_string()]),
        other => panic!("unexpected step {:?}", other),
    }
    assert!(matches!(after_cache_lookup(CacheLookup::Expired), AnalysisStep::GenerateAndCacheQueries));
    assert!(matches!(after_cache_lookup(CacheLookup::Hit(vec![])), AnalysisStep::Finished(_)));
}

#[test]
fn hook_policy() {
    assert_eq!(config_error_verdict(&DriftcheckError::ConfigNotFound), HookVerdict::Allow);
    assert_eq!(config_error_verdict(&DriftcheckError::ConfigInvalid("x".to_string())), HookVerdict::Block);
    assert_eq!(diff_error_verdict(&DriftcheckError::NoUpstream, false), HookVerdict::Allow);
    assert_eq!(diff_error_verdict(&DriftcheckError::GitError("x".to_string()), true), HookVerdict::WarnAndAllow);
    assert_eq!(diff_error_verdict(&DriftcheckError::GitError("x".to_string()), false), HookVerdict::Block);
    assert_eq!(analysis_error_verdict(false), HookVerdict::Block);
    assert_eq!(analysis_error_verdict(true), HookVerdict::WarnAndAllow);
}
