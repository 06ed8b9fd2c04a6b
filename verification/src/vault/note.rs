//! Notes, wiki links and headings.

use vstd::prelude::*;

verus! {

/// The text view of an optional string.
pub open spec fn opt_str(o: Option<String>) -> Option<Seq<char>> {
    match o {
        Some(s) => Some(s@),
        None => None,
    }
}

/// Mathematical model of a [`WikiLink`].
pub struct WikiLinkView {
    pub target: Seq<char>,
    pub display: Option<Seq<char>>,
    pub heading: Option<Seq<char>>,
}

/// A wiki-style link extracted from a note.
#[derive(Debug, Clone, PartialEq, Eq)]
pub struct WikiLink {
    /// The target note name (e.g., "Deep Work" from `[[Deep Work]]`).
    pub target: String,
    /// Optional display text (e.g., "alias" from `[[Note|alias]]`).
    pub display: Option<String>,
    /// Optional heading reference (e.g., "section" from `[[Note#section]]`).
    pub heading: Option<String>,
}

impl View for WikiLink {
    type V = WikiLinkView;

    open spec fn view(&self) -> WikiLinkView {
        WikiLinkView {
            target: self.target@,
            display: opt_str(self.display),
            heading: opt_str(self.heading),
        }
    }
}

impl WikiLink {
    /// Create a new wiki link with just a target.
    pub fn new(target: &str) -> (l: Self)
        ensures
            l@ == (WikiLinkView { target: target@, display: None, heading: None }),
    {
        Self { target: target.to_owned(), display: None, heading: None }
    }

    /// Create a wiki link with a display alias.
    pub fn with_display(target: &str, display: &str) -> (l: Self)
        ensures
            l@ == (WikiLinkView { target: target@, display: Some(display@), heading: None }),
    {
        Self { target: target.to_owned(), display: Some(display.to_owned()), heading: None }
    }

    /// Create a wiki link with a heading reference.
    pub fn with_heading(target: &str, heading: &str) -> (l: Self)
        ensures
            l@ == (WikiLinkView { target: target@, display: None, heading: Some(heading@) }),
    {
        Self { target: target.to_owned(), display: None, heading: Some(heading.to_owned()) }
    }
}

/// Mathematical model of a [`Heading`].
pub struct HeadingView {
    pub level: u8,
    pub text: Seq<char>,
}

/// A heading extracted from a note.
#[derive(Debug, Clone, PartialEq, Eq)]
pub struct Heading {
    /// The heading level (1-6).
    pub level: u8,
    /// The heading text content.
    pub text: String,
}

impl View for Heading {
    type V = HeadingView;

    open spec fn view(&self) -> HeadingView {
        HeadingView { level: self.level, text: self.text@ }
    }
}

impl Heading {
    /// Create a heading.
    pub fn new(level: u8, text: &str) -> (h: Self)
        ensures
            h@ == (HeadingView { level, text: text@ }),
    {
        Self { level, text: text.to_owned() }
    }
}

/// The views of a sequence of links.
pub open spec fn link_views(v: Seq<WikiLink>) -> Seq<WikiLinkView> {
    v.map_values(|l: WikiLink| l@)
}

/// The views of a sequence of headings.
pub open spec fn heading_views(v: Seq<Heading>) -> Seq<HeadingView> {
    v.map_values(|h: Heading| h@)
}

/// Mathematical model of a [`Note`].
pub struct NoteView {
    pub name: Seq<char>,
    pub path: Seq<char>,
    pub title: Option<Seq<char>>,
    pub links: Seq<WikiLinkView>,
    pub headings: Seq<HeadingView>,
    pub modified: u128,
}

/// A note in the knowledge vault.
#[derive(Debug, Clone)]
pub struct Note {
    /// The note name (filename without .md extension).
    pub name: String,
    /// Full path to the note file.
    pub path: String,
    /// The title (first H1 heading if present).
    pub title: Option<String>,
    /// Outgoing wiki links from this note.
    pub links: Vec<WikiLink>,
    /// Headings in the document.
    pub headings: Vec<Heading>,
    /// Last modification time, in nanoseconds since the Unix epoch.
    pub modified: u128,
}

impl View for Note {
    type V = NoteView;

    open spec fn view(&self) -> NoteView {
        NoteView {
            name: self.name@,
            path: self.path@,
            title: opt_str(self.title),
            links: link_views(self.links@),
            headings: heading_views(self.headings@),
            modified: self.modified,
        }
    }
}

/// The current time, in nanoseconds since the Unix epoch (0 for a clock set
/// before the epoch), from `SystemTime::now`. Nothing is promised of the value.
#[verifier::external_body]
pub(crate) fn now_nanos() -> u128 {
    std::time::SystemTime::now().duration_since(std::time::UNIX_EPOCH).map(|d| d.as_nanos()).unwrap_or(0)
}

/// The name under which a note is shown: its title if it has one, else its name.
pub open spec fn display_name_of(n: NoteView) -> Seq<char> {
    match n.title {
        Some(t) => t,
        None => n.name,
    }
}

impl Note {
    /// Create a new note with basic information, modified now.
    pub fn new(name: &str, path: &str) -> (n: Self)
        ensures
            n@.name == name@,
            n@.path == path@,
            n@.title == None::<Seq<char>>,
            n@.links.len() == 0,
            n@.headings.len() == 0,
    {
        let n = Self {
            name: name.to_owned(),
            path: path.to_owned(),
            title: None,
            links: Vec::new(),
            headings: Vec::new(),
            modified: now_nanos(),
        };
        assert(n@.links =~= Seq::empty());
        n
    }

    /// Get the display name (title if available, otherwise name).
    pub fn display_name(&self) -> (s: &str)
        ensures
            s@ == display_name_of(self@),
    {
        match &self.title {
            Some(t) => t.as_str(),
            None => self.name.as_str(),
        }
    }

    /// Get the names of all notes this note links to, in link order.
    pub fn link_targets(&self) -> (v: Vec<&str>)
        ensures
            v@.len() == self.links@.len(),
            forall|i: int| 0 <= i < v@.len() ==> v@[i]@ == self@.links[i].target,
    {
        let mut v: Vec<&str> = Vec::new();
        let mut i: usize = 0;
        while i < self.links.len()
            invariant
                i <= self.links@.len(),
                v@.len() == i,
                forall|j: int| 0 <= j < i ==> v@[j]@ == self.links@[j].target@,
            decreases self.links@.len() - i,
        {
            v.push(self.links[i].target.as_str());
            i = i + 1;
        }
        v
    }
}

} // verus!
