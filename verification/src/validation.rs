//! Content validation for notes.
//!
//! Checks note content against Zettelkasten conventions and returns helpful
//! warnings (never hard errors): a missing H1 title, no wiki-links, content
//! that is too short or too long, and empty content.

use vstd::prelude::*;
use crate::text::{
    chars_of, contains, contains_chars, decimal, decimal_string, lines, lines_of, starts_with,
    starts_with_chars, string_of, trim, trim_chars,
};

verus! {

/// The meaning of a validation warning.
pub struct WarningView {
    pub code: Seq<char>,
    pub message: Seq<char>,
    pub suggestion: Option<Seq<char>>,
}

/// A validation warning for note content.
#[derive(Debug, Clone)]
pub struct ValidationWarning {
    /// A short code identifying the warning type.
    pub code: String,
    /// Human-readable description of the issue.
    pub message: String,
    /// Optional suggestion for how to fix the issue.
    pub suggestion: Option<String>,
}

impl View for ValidationWarning {
    type V = WarningView;

    open spec fn view(&self) -> WarningView {
        WarningView {
            code: self.code@,
            message: self.message@,
            suggestion: match self.suggestion {
                Some(s) => Some(s@),
                None => None,
            },
        }
    }
}

/// The views of a sequence of warnings.
pub open spec fn warning_views(v: Seq<ValidationWarning>) -> Seq<WarningView> {
    v.map_values(|w: ValidationWarning| w@)
}

/// Result of validating note content.
#[derive(Debug, Clone)]
pub struct ValidationResult {
    /// Whether the note passed all validations (always true, since we only warn).
    pub valid: bool,
    /// List of validation warnings.
    pub warnings: Vec<ValidationWarning>,
}

impl ValidationResult {
    /// Create a new validation result with no warnings.
    pub fn ok() -> (r: Self)
        ensures
            r.valid,
            r.warnings@.len() == 0,
    {
        ValidationResult { valid: true, warnings: Vec::new() }
    }

    /// Add a warning to the result.
    pub fn warn(&mut self, code: &str, message: &str)
        ensures
            final(self).valid == old(self).valid,
            warning_views(final(self).warnings@) == warning_views(old(self).warnings@).push(
                WarningView { code: code@, message: message@, suggestion: None },
            ),
    {
        let w = ValidationWarning { code: code.to_owned(), message: message.to_owned(), suggestion: None };
        let ghost before = self.warnings@;
        self.warnings.push(w);
        assert(warning_views(self.warnings@) =~= warning_views(before).push(w@));
    }

    /// Add a warning with a suggestion to the result.
    pub fn warn_with_suggestion(&mut self, code: &str, message: &str, suggestion: &str)
        ensures
            final(self).valid == old(self).valid,
            warning_views(final(self).warnings@) == warning_views(old(self).warnings@).push(
                WarningView { code: code@, message: message@, suggestion: Some(suggestion@) },
            ),
    {
        let w = ValidationWarning {
            code: code.to_owned(),
            message: message.to_owned(),
            suggestion: Some(suggestion.to_owned()),
        };
        let ghost before = self.warnings@;
        self.warnings.push(w);
        assert(warning_views(self.warnings@) =~= warning_views(before).push(w@));
    }

    /// Check if there are any warnings.
    pub fn has_warnings(&self) -> (b: bool)
        ensures
            b == (self.warnings@.len() > 0),
    {
        self.warnings.len() > 0
    }
}

/// Whether a line is an H1 heading: trimmed, it starts with `"# "` but not `"## "`.
pub open spec fn is_h1_line(line: Seq<char>) -> bool {
    starts_with(trim(line), "# "@) && !starts_with(trim(line), "## "@)
}

/// Whether some line of the content is an H1 heading.
pub open spec fn has_h1(content: Seq<char>) -> bool {
    exists|i: int| 0 <= i < lines(content).len() && is_h1_line(#[trigger] lines(content)[i])
}

/// Fewer characters than this make a note too short.
pub const MIN_NOTE_CHARS: usize = 50;

/// More characters than this make a note too long.
pub const MAX_NOTE_CHARS: usize = 5000;

/// The warning for a missing title of note `name`.
pub open spec fn missing_title_warning(name: Seq<char>) -> WarningView {
    WarningView {
        code: "missing_title"@,
        message: "Note has no H1 heading"@,
        suggestion: Some("Add '# "@ + name + "' at the beginning of the note"@),
    }
}

/// The warning for content without wiki-links.
pub open spec fn no_links_warning() -> WarningView {
    WarningView {
        code: "no_links"@,
        message: "Note has no wiki-links to other notes"@,
        suggestion: Some("Consider linking to related concepts with [[Note Name]] syntax"@),
    }
}

/// The warning for content of `n` characters, too few.
pub open spec fn too_short_warning(n: nat) -> WarningView {
    WarningView {
        code: "too_short"@,
        message: "Note is very short ("@ + decimal(n) + " characters)"@,
        suggestion: Some(
            "Atomic notes should still be self-contained with enough context to be understood on their own"@,
        ),
    }
}

/// The warning for content of `n` characters, too many.
pub open spec fn too_long_warning(n: nat) -> WarningView {
    WarningView {
        code: "too_long"@,
        message: "Note is quite long ("@ + decimal(n) + " characters)"@,
        suggestion: Some("Consider splitting into multiple atomic notes, each focused on a single concept"@),
    }
}

/// The warning for empty content.
pub open spec fn empty_content_warning() -> WarningView {
    WarningView { code: "empty_content"@, message: "Note content is empty"@, suggestion: None }
}

/// A warning when `b` holds, none otherwise.
pub open spec fn warn_if(b: bool, w: WarningView) -> Seq<WarningView> {
    if b {
        seq![w]
    } else {
        Seq::empty()
    }
}

/// The warnings for note `name` with `content`, in the order they are checked.
pub open spec fn content_warnings(name: Seq<char>, content: Seq<char>) -> Seq<WarningView> {
    let n = content.len();
    warn_if(!has_h1(content), missing_title_warning(name)) + warn_if(
        !contains(content, "[["@),
        no_links_warning(),
    ) + warn_if(n < MIN_NOTE_CHARS, too_short_warning(n)) + warn_if(
        n >= MIN_NOTE_CHARS && n > MAX_NOTE_CHARS,
        too_long_warning(n),
    ) + warn_if(trim(content).len() == 0, empty_content_warning())
}

/// The `no_links` warning is given exactly when the content holds no `[[`,
/// the opening of a wiki link: two `'['` in a row anywhere in it.
pub proof fn lemma_no_links_exactly_without_wiki_links(name: Seq<char>, content: Seq<char>)
    ensures
        (exists|k: int| 0 <= k < content_warnings(name, content).len() && (#[trigger] content_warnings(name, content)[k]).code
            == "no_links"@) <==> !(exists|i: int|
            0 <= i && i + 1 < content.len() && #[trigger] content[i] == '[' && content[i + 1] == '['),
{
    reveal_strlit("[[");
    reveal_strlit("no_links");
    reveal_strlit("missing_title");
    reveal_strlit("too_short");
    reveal_strlit("too_long");
    reveal_strlit("empty_content");
    let opens = exists|i: int| 0 <= i && i + 1 < content.len() && #[trigger] content[i] == '[' && content[i + 1] == '[';
    assert(contains(content, "[["@) <==> opens) by {
        if opens {
            let i = choose|i: int| 0 <= i && i + 1 < content.len() && #[trigger] content[i] == '[' && content[i + 1] == '[';
            assert(content.subrange(i, i + 2) =~= "[["@);
            assert(crate::text::contains_at(content, "[["@, i));
        }
        if contains(content, "[["@) {
            let i = choose|i: int| crate::text::contains_at(content, "[["@, i);
            assert(content.subrange(i, i + 2)[0] == content[i]);
            assert(content.subrange(i, i + 2)[1] == content[i + 1]);
        }
    }
    let n = content.len();
    let a = warn_if(!has_h1(content), missing_title_warning(name));
    let b = warn_if(!contains(content, "[["@), no_links_warning());
    let c = warn_if(n < MIN_NOTE_CHARS, too_short_warning(n));
    let d = warn_if(n >= MIN_NOTE_CHARS && n > MAX_NOTE_CHARS, too_long_warning(n));
    let e = warn_if(trim(content).len() == 0, empty_content_warning());
    let w = content_warnings(name, content);
    assert(w == a + b + c + d + e);
    assert("missing_title"@ != "no_links"@) by {
        assert("missing_title"@.len() != "no_links"@.len());
    }
    assert("too_short"@ != "no_links"@) by {
        assert("too_short"@.len() != "no_links"@.len());
    }
    assert("too_long"@ != "no_links"@) by {
        assert("too_long"@[0] != "no_links"@[0]);
    }
    assert("empty_content"@ != "no_links"@) by {
        assert("empty_content"@.len() != "no_links"@.len());
    }
    if !contains(content, "[["@) {
        assert(w[a.len() as int] == no_links_warning());
    } else {
        assert forall|k: int| 0 <= k < w.len() implies (#[trigger] w[k]).code != "no_links"@ by {
            if k < a.len() {
                assert(w[k] == a[k]);
            } else if k < a.len() + b.len() {
                assert(b.len() == 0);
            } else if k < a.len() + b.len() + c.len() {
                assert(w[k] == c[k - a.len() - b.len()]);
            } else if k < a.len() + b.len() + c.len() + d.len() {
                assert(w[k] == d[k - a.len() - b.len() - c.len()]);
            } else {
                assert(w[k] == e[k - a.len() - b.len() - c.len() - d.len()]);
            }
        }
    }
}

/// Whether some line of `content` is an H1 heading.
fn find_h1(content: &[char]) -> (b: bool)
    ensures
        b == has_h1(content@),
{
    let ls = lines_of(content);
    let h1 = chars_of("# ");
    let h2 = chars_of("## ");
    let ghost lv = lines(content@);
    let mut i: usize = 0;
    while i < ls.len()
        invariant
            i <= ls@.len(),
            ls@.len() == lv.len(),
            forall|k: int| 0 <= k < ls@.len() ==> (#[trigger] ls@[k])@ == lv[k],
            lv == lines(content@),
            h1@ == "# "@,
            h2@ == "## "@,
            forall|k: int| 0 <= k < i ==> !is_h1_line(#[trigger] lv[k]),
        decreases ls@.len() - i,
    {
        assert(ls@[i as int]@ == lv[i as int]);
        let t = trim_chars(ls[i].as_slice());
        if starts_with_chars(t.as_slice(), h1.as_slice()) && !starts_with_chars(t.as_slice(), h2.as_slice()) {
            assert(is_h1_line(lv[i as int]));
            return true;
        }
        i = i + 1;
    }
    false
}

/// `prefix`, then `mid`, then `suffix`, as one string.
fn concat3(prefix: &str, mid: &[char], suffix: &str) -> (s: String)
    ensures
        s@ == prefix@ + mid@ + suffix@,
{
    let mut v = chars_of(prefix);
    let mut i: usize = 0;
    let ghost start = v@;
    while i < mid.len()
        invariant
            i <= mid@.len(),
            v@ == start + mid@.take(i as int),
        decreases mid@.len() - i,
    {
        v.push(mid[i]);
        assert(mid@.take(i + 1) == mid@.take(i as int).push(mid@[i as int]));
        i = i + 1;
    }
    assert(mid@.take(mid@.len() as int) == mid@);
    let tail = chars_of(suffix);
    let ghost before = v@;
    let mut j: usize = 0;
    while j < tail.len()
        invariant
            j <= tail@.len(),
            v@ == before + tail@.take(j as int),
        decreases tail@.len() - j,
    {
        v.push(tail[j]);
        assert(tail@.take(j + 1) == tail@.take(j as int).push(tail@[j as int]));
        j = j + 1;
    }
    assert(tail@.take(tail@.len() as int) == tail@);
    string_of(v.as_slice())
}

/// Validate note content against Zettelkasten conventions.
///
/// This returns warnings (not errors) to help guide the agent toward
/// better note structure without blocking note creation.
pub fn validate_note_content(name: &str, content: &str) -> (r: ValidationResult)
    ensures
        r.valid,
        warning_views(r.warnings@) == content_warnings(name@, content@),
{
    let cs = chars_of(content);
    let mut result = ValidationResult::ok();
    let ghost w0 = warning_views(result.warnings@);
    assert(w0 =~= Seq::<WarningView>::empty());

    if !find_h1(cs.as_slice()) {
        let suggestion = concat3("Add '# ", chars_of(name).as_slice(), "' at the beginning of the note");
        result.warn_with_suggestion("missing_title", "Note has no H1 heading", suggestion.as_str());
    }
    let ghost w1 = warning_views(result.warnings@);
    assert(w1 =~= warn_if(!has_h1(content@), missing_title_warning(name@)));

    let open = chars_of("[[");
    if !contains_chars(cs.as_slice(), open.as_slice()) {
        result.warn_with_suggestion(
            "no_links",
            "Note has no wiki-links to other notes",
            "Consider linking to related concepts with [[Note Name]] syntax",
        );
    }
    let ghost w2 = warning_views(result.warnings@);
    assert(w2 =~= w1 + warn_if(!contains(content@, "[["@), no_links_warning()));

    let char_count = cs.len();
    let digits = chars_of(decimal_string(char_count).as_str());
    if char_count < MIN_NOTE_CHARS {
        let message = concat3("Note is very short (", digits.as_slice(), " characters)");
        result.warn_with_suggestion(
            "too_short",
            message.as_str(),
            "Atomic notes should still be self-contained with enough context to be understood on their own",
        );
    } else if char_count > MAX_NOTE_CHARS {
        let message = concat3("Note is quite long (", digits.as_slice(), " characters)");
        result.warn_with_suggestion(
            "too_long",
            message.as_str(),
            "Consider splitting into multiple atomic notes, each focused on a single concept",
        );
    }
    let ghost w3 = warning_views(result.warnings@);
    let ghost n = content@.len();
    assert(w3 =~= w2 + warn_if(n < MIN_NOTE_CHARS, too_short_warning(n)) + warn_if(
        n >= MIN_NOTE_CHARS && n > MAX_NOTE_CHARS,
        too_long_warning(n),
    ));

    if trim_chars(cs.as_slice()).len() == 0 {
        result.warn("empty_content", "Note content is empty");
    }
    result
}

} // verus!
