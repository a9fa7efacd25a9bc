use driftcheck::search::{combine_search_results, dedup_sort, merge_adjacent_chunks, parse_rg_line, parse_ripgrep_output, split_at_line_number, DocChunk};

fn chunk(file: &str, start: usize, end: usize, content: &str) -> DocChunk {
    DocChunk { file: file.to_string(), start_line: start, end_line: end, content: content.to_string() }
}

#[test]
fn test_parse_rg_line_match() {
    let result = parse_rg_line("README.md:10:Some content here");
    assert!(result.is_some());
    let (file, line, content) = result.unwrap();
    assert_eq!(file, "README.md");
    assert_eq!(line, 10);
    assert_eq!(content, "Some content here");
}

#[test]
fn test_parse_rg_line_context() {
    let result = parse_rg_line("README.md-8-context line here");
    assert!(result.is_some());
    let (file, line, content) = result.unwrap();
    assert_eq!(file, "README.md");
    assert_eq!(line, 8);
    assert_eq!(content, "context line here");
}

#[test]
fn test_parse_rg_line_nested_path() {
    let result = parse_rg_line("docs/api/reference.md:42:API documentation");
    assert!(result.is_some());
    let (file, line, content) = result.unwrap();
    assert_eq!(file, "docs/api/reference.md");
    assert_eq!(line, 42);
    assert_eq!(content, "API documentation");
}

#[test]
fn test_parse_rg_line_content_with_colons() {
    let result = parse_rg_line("README.md:5:time: 12:30:00");
    assert!(result.is_some());
    let (file, line, content) = result.unwrap();
    assert_eq!(file, "README.md");
    assert_eq!(line, 5);
    assert_eq!(content, "time: 12:30:00");
}

#[test]
fn parse_rg_line_rejects_lines_without_number() {
    assert!(parse_rg_line("no separators here").is_none());
    assert!(parse_rg_line("file.md:abc:content").is_none());
    assert!(parse_rg_line("").is_none());
}

#[test]
fn parse_rg_line_dash_in_path() {
    let (file, line, content) = parse_rg_line("my-docs/guide.md-3-text").unwrap();
    assert_eq!(file, "my-docs/guide.md");
    assert_eq!(line, 3);
    assert_eq!(content, "text");
}

#[test]
fn parse_output_groups_and_separates() {
    let out = "a.md-1-one\na.md:2:two\n--\na.md:9:nine\nb.md:4:four\n";
    let chunks = parse_ripgrep_output(out);
    assert_eq!(chunks.len(), 3);
    assert_eq!(chunks[0].file, "a.md");
    assert_eq!((chunks[0].start_line, chunks[0].end_line), (1, 2));
    assert_eq!(chunks[0].content, "one\ntwo");
    assert_eq!((chunks[1].start_line, chunks[1].end_line), (9, 9));
    assert_eq!(chunks[2].file, "b.md");
    assert_eq!(chunks[2].content, "four");
}

#[test]
fn parse_output_empty() {
    assert!(parse_ripgrep_output("").is_empty());
    assert!(parse_ripgrep_output("--\n--\n").is_empty());
}

#[test]
fn merge_close_chunks() {
    let merged = merge_adjacent_chunks(vec![
        chunk("a.md", 1, 3, "x"),
        chunk("a.md", 8, 9, "y"),
        chunk("a.md", 15, 16, "z"),
        chunk("b.md", 16, 17, "w"),
    ]);
    assert_eq!(merged.len(), 3);
    assert_eq!((merged[0].start_line, merged[0].end_line), (1, 9));
    assert_eq!(merged[0].content, "x\n...\ny");
    assert_eq!((merged[1].start_line, merged[1].end_line), (15, 16));
    assert_eq!(merged[2].file, "b.md");
}

#[test]
fn merge_is_idempotent() {
    let input = vec![chunk("a.md", 1, 3, "x"), chunk("a.md", 5, 6, "y"), chunk("a.md", 30, 31, "z")];
    let once = merge_adjacent_chunks(input);
    let again = merge_adjacent_chunks(once.clone());
    assert_eq!(once.len(), again.len());
    for (a, b) in once.iter().zip(again.iter()) {
        assert_eq!((a.file.as_str(), a.start_line, a.end_line, a.content.as_str()), (b.file.as_str(), b.start_line, b.end_line, b.content.as_str()));
    }
}

#[test]
fn merge_leaves_no_close_boundary() {
    let merged = merge_adjacent_chunks(vec![chunk("a.md", 1, 2, "p"), chunk("a.md", 7, 7, "q"), chunk("a.md", 13, 14, "r")]);
    assert_eq!(merged.len(), 2);
    assert_eq!(merged[0].end_line, 7);
    assert!(merged[1].start_line > merged[0].end_line + 5);
}

#[test]
fn merge_empty() {
    assert!(merge_adjacent_chunks(vec![]).is_empty());
}

#[test]
fn dedup_keeps_first_and_orders() {
    let out = dedup_sort(&vec![chunk("b.md", 4, 5, "first"), chunk("a.md", 9, 9, "a"), chunk("b.md", 4, 6, "second"), chunk("a.md", 2, 2, "c")]);
    assert_eq!(out.len(), 3);
    assert_eq!((out[0].file.as_str(), out[0].start_line), ("a.md", 2));
    assert_eq!((out[1].file.as_str(), out[1].start_line), ("a.md", 9));
    assert_eq!(out[2].content, "first");
}

#[test]
fn two_queries_same_position_give_one_chunk() {
    let results = vec![vec![chunk("docs/x.md", 10, 12, "alpha")], vec![chunk("docs/x.md", 10, 11, "beta"), chunk("docs/y.md", 1, 1, "gamma")]];
    let out = combine_search_results(&results);
    let at: Vec<_> = out.iter().filter(|c| c.file == "docs/x.md" && c.start_line == 10).collect();
    assert_eq!(at.len(), 1);
    assert_eq!(at[0].content, "alpha");
    assert_eq!(out.len(), 2);
}

#[test]
fn split_at_first_separator_before_digit() {
    assert_eq!(split_at_line_number("a:b.md:12:x:1", ':'), Some(("a:b.md".to_string(), "12:x:1".to_string())));
    assert_eq!(split_at_line_number("no-digits-here", '-'), None);
}

#[test]
fn merge_keeps_the_later_end_line() {
    let merged = merge_adjacent_chunks(vec![chunk("a.md", 1, 100, "big"), chunk("a.md", 2, 8, "inner"), chunk("a.md", 104, 110, "near")]);
    assert_eq!(merged.len(), 1);
    assert_eq!((merged[0].start_line, merged[0].end_line), (1, 110));
    assert_eq!(merged[0].content, "big\n...\ninner\n...\nnear");
}

#[test]
fn found_position_lies_in_one_final_chunk() {
    let results = vec![
        vec![chunk("docs/x.md", 10, 12, "a"), chunk("docs/x.md", 40, 41, "far")],
        vec![chunk("docs/x.md", 14, 16, "b"), chunk("docs/x.md", 10, 11, "again")],
    ];
    let out = combine_search_results(&results);
    let covering: Vec<_> = out.iter().filter(|c| c.file == "docs/x.md" && c.start_line <= 14 && 14 <= c.end_line).collect();
    assert_eq!(covering.len(), 1);
    assert_eq!((covering[0].start_line, covering[0].end_line), (10, 16));
    assert_eq!(out.len(), 2);
}
