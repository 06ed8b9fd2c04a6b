//! Sensitive data detection for content filtering.
//!
//! Keyword-based detection of potentially sensitive content in notes,
//! so that a user can confirm before such content is exposed.

use vstd::prelude::*;
use crate::text::{chars_of, contains, contains_chars, lowercase, strs, to_lowercase};

verus! {

/// Result of checking content for sensitive data.
#[derive(Debug, Clone)]
pub struct SensitiveCheckResult {
    /// Whether sensitive data was detected.
    pub is_sensitive: bool,
    /// Keywords that were matched.
    pub matched_keywords: Vec<String>,
}

/// Filter for detecting sensitive data in content.
#[derive(Debug, Clone)]
pub struct SensitiveDataFilter {
    keywords: Vec<String>,
}

/// The keywords (in their order, as given) whose lowercase form occurs in the
/// lowercase form of `content`: matching ignores case.
pub open spec fn matched_keywords(keywords: Seq<Seq<char>>, content: Seq<char>) -> Seq<Seq<char>> {
    keywords.filter(|k: Seq<char>| contains(lowercase(content), lowercase(k)))
}

impl SensitiveDataFilter {
    /// The keywords of the filter.
    pub closed spec fn keywords(&self) -> Seq<Seq<char>> {
        strs(self.keywords@)
    }

    /// Create a new filter with the given keywords.
    pub fn new(keywords: Vec<String>) -> (f: Self)
        ensures
            f.keywords() == strs(keywords@),
    {
        Self { keywords }
    }

    /// Check content for sensitive data.
    ///
    /// Performs case-insensitive keyword matching: a keyword matches when
    /// its lowercase form occurs in the lowercase form of the content.
    pub fn check(&self, content: &str) -> (r: SensitiveCheckResult)
        ensures
            strs(r.matched_keywords@) == matched_keywords(self.keywords(), content@),
            r.is_sensitive == (matched_keywords(self.keywords(), content@).len() > 0),
    {
        let lower_string = to_lowercase(content);
        let lower = chars_of(lower_string.as_str());
        let ghost ks = strs(self.keywords@);
        let ghost pred = |k: Seq<char>| contains(lowercase(content@), lowercase(k));
        let mut matched: Vec<String> = Vec::new();
        let mut i: usize = 0;
        while i < self.keywords.len()
            invariant
                i <= self.keywords@.len(),
                ks == strs(self.keywords@),
                lower@ == lowercase(content@),
                pred == (|k: Seq<char>| contains(lowercase(content@), lowercase(k))),
                strs(matched@) == ks.take(i as int).filter(pred),
            decreases self.keywords@.len() - i,
        {
            let kw_lower = to_lowercase(self.keywords[i].as_str());
            let kw = chars_of(kw_lower.as_str());
            assert(ks.take(i + 1) == ks.take(i as int).push(ks[i as int]));
            let ghost mv = strs(matched@);
            if contains_chars(lower.as_slice(), kw.as_slice()) {
                let k = self.keywords[i].clone();
                matched.push(k);
                assert(strs(matched@) =~= mv.push(ks[i as int]));
            }
            proof {
                ks.take(i as int).lemma_filter_push(ks[i as int], pred);
            }
            i = i + 1;
        }
        assert(ks.take(ks.len() as int) == ks);
        let is_sensitive = matched.len() > 0;
        SensitiveCheckResult { is_sensitive, matched_keywords: matched }
    }
}

} // verus!
