//! Full-text search over the markdown files of a vault.
//!
//! The pattern searched for, the search of each file's bytes and the
//! results gathered from their matching lines are this module's part;
//! walking the directory and reading the files is the caller's.

use vstd::prelude::*;
use crate::paths::{file_stem, has_markdown_extension, is_markdown_path};
use crate::text::{chars_of, push_chars, string_of, trim, trim_str};
use std::path::Path;
use grep_regex::RegexMatcher;
use grep_searcher::sinks::UTF8;
use grep_searcher::Searcher;

verus! {

#[verifier::external_type_specification]
#[verifier::external_body]
pub struct ExRegexMatcher(RegexMatcher);

#[verifier::external_type_specification]
#[verifier::external_body]
pub struct ExRegexError(grep_regex::Error);

/// Errors that can occur during search operations.
#[derive(Debug)]
pub enum SearchError {
    /// The search pattern is not a valid regular expression.
    InvalidPattern(String),
    /// A file could not be searched.
    SearchFailed(String),
    /// The vault directory could not be walked.
    WalkError(String),
}

/// A single match within a file.
#[derive(Debug, Clone)]
pub struct Match {
    /// Line number (1-based).
    pub line_number: u64,
    /// The matching line content (trimmed).
    pub line_content: String,
}

/// Search result for a single file.
#[derive(Debug, Clone)]
pub struct SearchResult {
    /// The note name (filename without .md).
    pub note_name: String,
    /// Relative path to the file.
    pub path: String,
    /// Matches found in the file.
    pub matches: Vec<Match>,
}

/// Search options.
#[derive(Debug, Clone)]
pub struct SearchOptions {
    /// Treat the query as a regex pattern.
    pub regex: bool,
    /// Case-sensitive search.
    pub case_sensitive: bool,
    /// Maximum number of results to return.
    pub limit: Option<usize>,
    /// Number of context lines before/after match (reserved for future use).
    pub context_lines: usize,
}

impl Default for SearchOptions {
    /// A literal, case-insensitive search without a limit.
    fn default() -> (o: Self)
        ensures
            !o.regex,
            !o.case_sensitive,
            o.limit is None,
            o.context_lines == 0,
    {
        SearchOptions { regex: false, case_sensitive: false, limit: None, context_lines: 0 }
    }
}

/// The characters with a meaning in a regular expression.
pub open spec fn is_meta(c: char) -> bool {
    c == '\\' || c == '.' || c == '+' || c == '*' || c == '?' || c == '(' || c == ')' || c == '|'
        || c == '[' || c == ']' || c == '{' || c == '}' || c == '^' || c == '$' || c == '#' || c
        == '&' || c == '-' || c == '~'
}

/// `text` with a backslash before every meta character.
pub open spec fn escaped(text: Seq<char>) -> Seq<char>
    decreases text.len(),
{
    if text.len() == 0 {
        Seq::empty()
    } else {
        let c = text.last();
        escaped(text.drop_last()) + if is_meta(c) {
            seq!['\\', c]
        } else {
            seq![c]
        }
    }
}

/// `regex::escape`: as its source shows, a backslash goes before every
/// character of `regex_syntax::is_meta_character`.
#[verifier::external_body]
fn regex_escape(text: &str) -> (r: String)
    ensures
        r@ == escaped(text@),
{
    regex::escape(text)
}

/// The pattern searched for: the query itself as a regular expression, or
/// escaped to match literally, marked case-insensitive unless the search
/// is case-sensitive.
pub open spec fn pattern_of(query: Seq<char>, regex: bool, case_sensitive: bool) -> Seq<char> {
    let p = if regex {
        query
    } else {
        escaped(query)
    };
    if case_sensitive {
        p
    } else {
        "(?i)"@ + p
    }
}

/// Build the regular expression to search for.
pub fn search_pattern(query: &str, options: &SearchOptions) -> (r: String)
    ensures
        r@ == pattern_of(query@, options.regex, options.case_sensitive),
{
    let p = if options.regex {
        query.to_owned()
    } else {
        regex_escape(query)
    };
    if options.case_sensitive {
        p
    } else {
        let mut v = chars_of("(?i)");
        push_chars(&mut v, chars_of(p.as_str()).as_slice());
        string_of(v.as_slice())
    }
}

/// Whether `grep_regex::RegexMatcher::new` accepts `pattern`, which the
/// regular expression syntax of the regex crate (and its size limits) decides.
pub uninterp spec fn matcher_compiles(pattern: Seq<char>) -> bool;

/// `grep_regex::RegexMatcher::new`: compiles `pattern` with the default
/// configuration. The contract claims only that it succeeds exactly when the
/// pattern compiles, a property of the pattern alone; what the matcher
/// matches is left unsaid.
#[verifier::external_body]
fn new_matcher(pattern: &str) -> (r: Result<RegexMatcher, grep_regex::Error>)
    ensures
        r is Ok == matcher_compiles(pattern@),
{
    RegexMatcher::new(pattern)
}

/// The message of a `grep_regex::Error`, as its `Display` writes it; the
/// contract says nothing of the text.
#[verifier::external_body]
fn matcher_error_text(e: &grep_regex::Error) -> String {
    e.to_string()
}

/// A compiled search pattern, with the pattern it was compiled from.
pub struct PatternMatcher {
    matcher: RegexMatcher,
    pattern: Ghost<Seq<char>>,
}

impl PatternMatcher {
    /// The pattern the matcher was compiled from.
    pub closed spec fn pattern(&self) -> Seq<char> {
        self.pattern@
    }
}

/// Compile the pattern of `query` under `options` into a matcher; a pattern
/// that does not compile is an [`SearchError::InvalidPattern`].
pub fn search_matcher(query: &str, options: &SearchOptions) -> (r: Result<PatternMatcher, SearchError>)
    ensures
        match r {
            Ok(m) => matcher_compiles(pattern_of(query@, options.regex, options.case_sensitive)) && m.pattern()
                == pattern_of(query@, options.regex, options.case_sensitive),
            Err(e) => !matcher_compiles(pattern_of(query@, options.regex, options.case_sensitive))
                && e is InvalidPattern,
        },
{
    let pattern = search_pattern(query, options);
    match new_matcher(pattern.as_str()) {
        Ok(m) => Ok(PatternMatcher { matcher: m, pattern: Ghost(pattern@) }),
        Err(e) => Err(SearchError::InvalidPattern(matcher_error_text(&e))),
    }
}

/// The lines of UTF-8 text `content` that the regular expression `pattern`
/// matches, each with its (1-based) line number and its text with the line
/// terminator, as grep-searcher's default `Searcher` reports them through
/// the `UTF8` sink; `None` when the search fails (a matching line that is
/// not UTF-8).
pub uninterp spec fn matched_lines(pattern: Seq<char>, content: Seq<u8>) -> Option<Seq<(u64, Seq<char>)>>;

/// `grep_searcher::Searcher::search_slice` with the default searcher and the
/// `UTF8` sink, collecting each reported line. A `PatternMatcher` is only
/// made by [`search_matcher`], which compiles its matcher from its pattern,
/// so the contract names the outcome by that pattern and the bytes.
#[verifier::external_body]
fn searcher_lines(m: &PatternMatcher, content: &[u8]) -> (r: Result<Vec<(u64, String)>, String>)
    ensures
        match r {
            Ok(v) => matched_lines(m.pattern(), content@) == Some(line_views(v@)),
            Err(_) => matched_lines(m.pattern(), content@) is None,
        },
{
    let mut lines: Vec<(u64, String)> = Vec::new();
    let sink = UTF8(|n, line| {
        lines.push((n, line.to_string()));
        Ok(true)
    });
    match Searcher::new().search_slice(&m.matcher, content, sink) {
        Ok(()) => Ok(lines),
        Err(e) => Err(e.to_string()),
    }
}

/// The pattern of a wiki link to `target`: `[[Target]]`, `[[Target|alias]]`
/// or `[[Target#heading]]`.
pub open spec fn backlinks_pattern_of(target: Seq<char>) -> Seq<char> {
    "\\[\\["@ + escaped(target) + "\\s*(?:[|#][^\\]]+)?\\]\\]"@
}

/// Build the pattern of wiki links to `target`.
pub fn backlinks_pattern(target: &str) -> (r: String)
    ensures
        r@ == backlinks_pattern_of(target@),
{
    let mut v = chars_of("\\[\\[");
    push_chars(&mut v, chars_of(regex_escape(target).as_str()).as_slice());
    push_chars(&mut v, chars_of("\\s*(?:[|#][^\\]]+)?\\]\\]").as_slice());
    string_of(v.as_slice())
}

/// The options of a backlink search: a case-insensitive regular expression
/// without a limit.
pub fn backlinks_options() -> (o: SearchOptions)
    ensures
        o.regex,
        !o.case_sensitive,
        o.limit is None,
        o.context_lines == 0,
{
    SearchOptions { regex: true, case_sensitive: false, limit: None, context_lines: 0 }
}

/// What `Path::strip_prefix` gives: `path` relative to `base`, or `None`
/// when `base` is not a prefix of it.
pub uninterp spec fn stripped(path: Seq<char>, base: Seq<char>) -> Option<Seq<char>>;

/// `Path::strip_prefix`, converted to a string (both inputs are UTF-8, so
/// the conversion loses nothing). The contract names the result.
#[verifier::external_body]
fn path_strip_prefix(path: &str, base: &str) -> (r: Option<String>)
    ensures
        match r {
            Some(s) => stripped(path@, base@) == Some(s@),
            None => stripped(path@, base@) is None,
        },
{
    match Path::new(path).strip_prefix(base) {
        Ok(p) => Some(p.to_string_lossy().into_owned()),
        Err(_) => None,
    }
}

/// Mathematical model of a [`Match`].
pub type MatchView = (u64, Seq<char>);

/// Mathematical model of a [`SearchResult`].
pub struct SearchResultView {
    pub note_name: Seq<char>,
    pub path: Seq<char>,
    pub matches: Seq<MatchView>,
}

impl View for SearchResult {
    type V = SearchResultView;

    open spec fn view(&self) -> SearchResultView {
        SearchResultView {
            note_name: self.note_name@,
            path: self.path@,
            matches: self.matches@.map_values(|m: Match| (m.line_number, m.line_content@)),
        }
    }
}

/// The result for the file at `path` with matching `lines` (number, text):
/// none without lines; else its note name (its file stem, or `unknown`),
/// its path relative to the vault, and the lines trimmed.
pub open spec fn file_result_of(vault: Seq<char>, path: Seq<char>, lines: Seq<(u64, Seq<char>)>) -> Option<SearchResultView> {
    if lines.len() == 0 {
        None
    } else {
        Some(
            SearchResultView {
                note_name: match file_stem(path) {
                    Some(s) => s,
                    None => "unknown"@,
                },
                path: match stripped(path, vault) {
                    Some(p) => p,
                    None => path,
                },
                matches: lines.map_values(|l: (u64, Seq<char>)| (l.0, trim(l.1))),
            },
        )
    }
}

/// The views of matching lines.
pub open spec fn line_views(lines: Seq<(u64, String)>) -> Seq<(u64, Seq<char>)> {
    lines.map_values(|l: (u64, String)| (l.0, l.1@))
}

/// The search result for the file at `path` with matching `lines`.
pub fn file_result(vault_path: &str, path: &str, lines: &Vec<(u64, String)>) -> (r: Option<SearchResult>)
    ensures
        match r {
            Some(res) => file_result_of(vault_path@, path@, line_views(lines@)) == Some(res@),
            None => file_result_of(vault_path@, path@, line_views(lines@)) is None,
        },
{
    if lines.len() == 0 {
        return None;
    }
    let mut matches: Vec<Match> = Vec::new();
    let mut i: usize = 0;
    while i < lines.len()
        invariant
            i <= lines@.len(),
            matches@.map_values(|m: Match| (m.line_number, m.line_content@)) == line_views(lines@).take(
                i as int,
            ).map_values(|l: (u64, Seq<char>)| (l.0, trim(l.1))),
        decreases lines@.len() - i,
    {
        let content = trim_str(lines[i].1.as_str());
        let ghost before = matches@.map_values(|m: Match| (m.line_number, m.line_content@));
        let ghost lv = line_views(lines@);
        assert(lv[i as int] == (lines@[i as int].0, lines@[i as int].1@));
        matches.push(Match { line_number: lines[i].0, line_content: content });
        assert(matches@.map_values(|m: Match| (m.line_number, m.line_content@)) =~= before.push((lv[i as int].0, trim(lv[i as int].1))));
        assert(lv.take(i + 1) =~= lv.take(i as int).push(lv[i as int]));
        assert(matches@.map_values(|m: Match| (m.line_number, m.line_content@)) =~= line_views(lines@).take(
            i + 1,
        ).map_values(|l: (u64, Seq<char>)| (l.0, trim(l.1))));
        i = i + 1;
    }
    assert(line_views(lines@).take(lines@.len() as int) == line_views(lines@));
    let note_name = match crate::paths::path_file_stem(path) {
        Some(s) => s,
        None => "unknown".to_owned(),
    };
    let rel = match path_strip_prefix(path, vault_path) {
        Some(p) => p,
        None => path.to_owned(),
    };
    let r = SearchResult { note_name, path: rel, matches };
    assert(r@ == file_result_of(vault_path@, path@, line_views(lines@))->0);
    Some(r)
}

/// Mathematical model of a [`SearchCollector`].
pub struct CollectorView {
    pub vault_path: Seq<char>,
    pub limit: nat,
    pub results: Seq<SearchResultView>,
}

/// The results of a search, gathered file by file up to the limit.
pub struct SearchCollector {
    vault_path: String,
    limit: usize,
    results: Vec<SearchResult>,
}

impl View for SearchCollector {
    type V = CollectorView;

    closed spec fn view(&self) -> CollectorView {
        CollectorView {
            vault_path: self.vault_path@,
            limit: self.limit as nat,
            results: self.results@.map_values(|r: SearchResult| r@),
        }
    }
}

impl SearchCollector {
    #[verifier::type_invariant]
    closed spec fn inv(self) -> bool {
        self.results@.len() <= self.limit
    }

    /// A search never gathers more results than its limit.
    pub fn within_limit(&self)
        ensures
            self@.results.len() <= self@.limit,
    {
        proof {
            use_type_invariant(self);
        }
    }

    /// Start a search of the vault at `vault_path` with `options`: no
    /// results yet, at most `options.limit` of them (no limit without one).
    pub fn new(vault_path: &str, options: &SearchOptions) -> (c: Self)
        ensures
            c@.vault_path == vault_path@,
            c@.limit == match options.limit {
                Some(l) => l as nat,
                None => usize::MAX as nat,
            },
            c@.results.len() == 0,
    {
        let limit = match options.limit {
            Some(l) => l,
            None => usize::MAX,
        };
        let c = SearchCollector { vault_path: vault_path.to_owned(), limit, results: Vec::new() };
        assert(c@.results =~= Seq::<SearchResultView>::empty());
        c
    }

    /// Whether the search has found as many results as it may: the walk stops.
    pub fn is_full(&self) -> (b: bool)
        ensures
            b == (self@.results.len() >= self@.limit),
    {
        self.results.len() >= self.limit
    }

    /// Whether the file at `path` is searched: markdown files only.
    pub fn wants(&self, path: &str) -> (b: bool)
        ensures
            b == is_markdown_path(path@),
    {
        has_markdown_extension(path)
    }

    /// Take in the matching `lines` of the file at `path`: a file with lines
    /// adds a result, unless the search is full.
    pub fn add_file(&mut self, path: &str, lines: &Vec<(u64, String)>)
        ensures
            final(self)@.vault_path == old(self)@.vault_path,
            final(self)@.limit == old(self)@.limit,
            final(self)@.results == if old(self)@.results.len() >= old(self)@.limit {
                old(self)@.results
            } else {
                match file_result_of(old(self)@.vault_path, path@, line_views(lines@)) {
                    Some(r) => old(self)@.results.push(r),
                    None => old(self)@.results,
                }
            },
    {
        if self.results.len() >= self.limit {
            return;
        }
        match file_result(self.vault_path.as_str(), path, lines) {
            Some(r) => {
                let ghost before = self@.results;
                let mut results: Vec<SearchResult> = Vec::new();
                std::mem::swap(&mut results, &mut self.results);
                results.push(r);
                self.results = results;
                assert(self@.results =~= before.push(r@));
            },
            None => {},
        }
    }

    /// Search `content`, the bytes of the file at `path`, with `matcher` and
    /// take in the lines it matches (as [`SearchCollector::add_file`] does).
    /// A full search searches nothing; a file the searcher fails on is a
    /// [`SearchError::SearchFailed`] and leaves the search as it was.
    pub fn search_file(&mut self, matcher: &PatternMatcher, path: &str, content: &[u8]) -> (r: Result<
        (),
        SearchError,
    >)
        ensures
            final(self)@.vault_path == old(self)@.vault_path,
            final(self)@.limit == old(self)@.limit,
            if old(self)@.results.len() >= old(self)@.limit {
                r is Ok && final(self)@.results == old(self)@.results
            } else {
                match matched_lines(matcher.pattern(), content@) {
                    Some(lines) => r is Ok && final(self)@.results == match file_result_of(
                        old(self)@.vault_path,
                        path@,
                        lines,
                    ) {
                        Some(x) => old(self)@.results.push(x),
                        None => old(self)@.results,
                    },
                    None => r matches Err(e) && e is SearchFailed && final(self)@.results == old(self)@.results,
                }
            },
    {
        if self.results.len() >= self.limit {
            return Ok(());
        }
        match searcher_lines(matcher, content) {
            Ok(lines) => {
                self.add_file(path, &lines);
                Ok(())
            },
            Err(e) => Err(SearchError::SearchFailed(e)),
        }
    }

    /// The results, in the order the files were taken in.
    pub fn finish(self) -> (r: Vec<SearchResult>)
        ensures
            r@.map_values(|x: SearchResult| x@) == self@.results,
    {
        self.results
    }
}

} // verus!
