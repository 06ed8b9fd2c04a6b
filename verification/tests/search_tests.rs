use knowledge_mcp::search::{
    PatternMatcher, SearchResult,
    backlinks_options, backlinks_pattern, file_result, search_matcher, search_pattern, SearchCollector, SearchError, SearchOptions,
};

#[test]
fn search_literal_queries_are_escaped() {
    let options = SearchOptions::default();
    assert_eq!(search_pattern("[[Deep Work]]", &options), "(?i)\\[\\[Deep Work\\]\\]");
    let exact = SearchOptions { case_sensitive: true, ..SearchOptions::default() };
    assert_eq!(search_pattern("a.b", &exact), "a\\.b");
    let regex = SearchOptions { regex: true, case_sensitive: true, ..SearchOptions::default() };
    assert_eq!(search_pattern("product\\w+", &regex), "product\\w+");
    assert_eq!(search_pattern("x", &SearchOptions { regex: true, ..SearchOptions::default() }), "(?i)x");
}

#[test]
fn search_backlink_pattern_matches_link_forms() {
    let p = backlinks_pattern("Deep Work");
    assert_eq!(p, "\\[\\[Deep Work\\s*(?:[|#][^\\]]+)?\\]\\]");
    let re = regex::Regex::new(&format!("(?i){}", p)).unwrap();
    assert!(re.is_match("see [[Deep Work]]"));
    assert!(re.is_match("see [[deep work|alias]]"));
    assert!(re.is_match("see [[Deep Work#Part]]"));
    assert!(!re.is_match("see [[Deep Workshop]]"));
    let o = backlinks_options();
    assert!(o.regex && !o.case_sensitive && o.limit.is_none());
}

#[test]
fn search_file_result_trims_lines_and_names_the_note() {
    let lines = vec![(3u64, "  Deep work is focused.\n".to_string())];
    let r = file_result("/vault", "/vault/sub/Deep Work.md", &lines).unwrap();
    assert_eq!(r.note_name, "Deep Work");
    assert_eq!(r.path, "sub/Deep Work.md");
    assert_eq!(r.matches.len(), 1);
    assert_eq!(r.matches[0].line_number, 3);
    assert_eq!(r.matches[0].line_content, "Deep work is focused.");
    assert!(file_result("/vault", "/vault/x.md", &Vec::new()).is_none());
    let outside = file_result("/vault", "/other/y.md", &lines).unwrap();
    assert_eq!(outside.path, "/other/y.md");
}

#[test]
fn search_collector_stops_at_the_limit() {
    let options = SearchOptions { limit: Some(1), ..SearchOptions::default() };
    let mut c = SearchCollector::new("/v", &options);
    assert!(!c.is_full());
    assert!(c.wants("/v/a.md"));
    assert!(!c.wants("/v/a.txt"));
    c.add_file("/v/a.md", &Vec::new());
    assert!(!c.is_full());
    c.add_file("/v/b.md", &vec![(1, "hit".to_string())]);
    assert!(c.is_full());
    let results = c.finish();
    assert_eq!(results.len(), 1);
    assert_eq!(results[0].note_name, "b");
}

#[test]
fn search_without_limit_never_fills() {
    let mut c = SearchCollector::new("/v", &SearchOptions::default());
    for i in 0..10 {
        c.add_file(&format!("/v/{}.md", i), &vec![(1, "x".to_string())]);
    }
    assert!(!c.is_full());
    assert_eq!(c.finish().len(), 10);
}

#[test]
fn search_matcher_refuses_invalid_regex_only() {
    let regex = SearchOptions { regex: true, ..SearchOptions::default() };
    assert!(matches!(search_matcher("(unclosed", &regex), Err(SearchError::InvalidPattern(_))));
    assert!(search_matcher("(unclosed", &SearchOptions::default()).is_ok());
    assert!(search_matcher("product\\w+", &regex).is_ok());
}

/// The test vault's files, in walk order.
fn vault_files() -> Vec<(&'static str, &'static str)> {
    vec![
        (
            "/vault/Deep Work.md",
            "# Deep Work\n\nDeep work is focused concentration.\n\n## Benefits\n\nIt helps with productivity and learning.\n",
        ),
        ("/vault/Flow State.md", "# Flow State\n\nFlow is related to [[Deep Work]].\n\nDeep concentration leads to flow state.\n"),
        (
            "/vault/Productivity.md",
            "# Productivity\n\nProductivity requires [[Deep Work]] and [[Flow State]].\n\nBeing productive means getting things done.\n",
        ),
    ]
}

/// Search the test vault's files, as the walk over the vault would.
fn search(query: &str, options: &SearchOptions) -> Vec<SearchResult> {
    let matcher: PatternMatcher = search_matcher(query, options).unwrap();
    let mut collector = SearchCollector::new("/vault", options);
    for (path, content) in vault_files() {
        if collector.is_full() {
            break;
        }
        if collector.wants(path) {
            collector.search_file(&matcher, path, content.as_bytes()).unwrap();
        }
    }
    collector.finish()
}

fn names(results: &[SearchResult]) -> Vec<&str> {
    results.iter().map(|r| r.note_name.as_str()).collect()
}

#[test]
fn test_search_literal() {
    let results = search("concentration", &SearchOptions::default());
    assert_eq!(results.len(), 2);
    assert!(names(&results).contains(&"Deep Work"));
    assert!(names(&results).contains(&"Flow State"));
    assert_eq!(results[0].matches[0].line_number, 3);
    assert_eq!(results[0].matches[0].line_content, "Deep work is focused concentration.");
    assert_eq!(results[0].path, "Deep Work.md");
}

#[test]
fn test_search_case_insensitive() {
    let results = search("DEEP WORK", &SearchOptions { case_sensitive: false, ..SearchOptions::default() });
    assert!(!results.is_empty());
}

#[test]
fn test_search_case_sensitive() {
    let results = search("DEEP WORK", &SearchOptions { case_sensitive: true, ..SearchOptions::default() });
    assert!(results.is_empty());
}

#[test]
fn test_search_regex() {
    let results = search("product\\w+", &SearchOptions { regex: true, case_sensitive: false, ..SearchOptions::default() });
    assert_eq!(results.len(), 2);
    assert!(names(&results).contains(&"Productivity"));
    assert!(names(&results).contains(&"Deep Work"));
}

#[test]
fn test_search_with_limit() {
    let results = search("the", &SearchOptions { limit: Some(1), ..SearchOptions::default() });
    assert!(results.len() <= 1);
}

#[test]
fn test_search_backlinks() {
    let results = search(&backlinks_pattern("Deep Work"), &backlinks_options());
    assert_eq!(results.len(), 2);
    assert!(names(&results).contains(&"Flow State"));
    assert!(names(&results).contains(&"Productivity"));
}

#[test]
fn test_search_no_results() {
    let results = search("xyznonexistent", &SearchOptions::default());
    assert!(results.is_empty());
}

#[test]
fn test_search_special_characters() {
    let results = search("[[Deep Work]]", &SearchOptions { regex: false, ..SearchOptions::default() });
    assert_eq!(results.len(), 2);
}

#[test]
fn search_file_refuses_non_utf8_matching_line() {
    let matcher = search_matcher("bad", &SearchOptions::default()).unwrap();
    let mut collector = SearchCollector::new("/vault", &SearchOptions::default());
    let r = collector.search_file(&matcher, "/vault/x.md", b"bad \xff line\n");
    assert!(matches!(r, Err(SearchError::SearchFailed(_))));
    assert!(collector.finish().is_empty());
}
