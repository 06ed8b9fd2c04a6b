//! Markdown parsing with wiki-link extraction.
//!
//! pulldown-cmark tokenizes the markdown (with its wiki-link extension);
//! this module turns its event stream into links, headings and a title.

use vstd::prelude::*;
use pulldown_cmark::{Event as E, LinkType, Options as O, Parser, Tag, TagEnd};
use crate::text::{chars_of, first_at, string_of, trim, trim_chars};
use crate::vault::note::{Heading, HeadingView, WikiLink, WikiLinkView, heading_views, link_views, opt_str};

verus! {

/// Mathematical model of an [`MdEvent`].
pub enum MdEventView {
    WikiLinkStart { dest: Seq<char>, has_pothole: bool },
    Text(Seq<char>),
    LinkEnd,
    HeadingStart(u8),
    HeadingEnd,
    Other,
}

/// The markdown events this parser reacts to, as plain values.
#[derive(Debug, Clone)]
pub enum MdEvent {
    /// Start of a wiki link `[[dest]]` (`has_pothole` for `[[dest|alias]]`).
    WikiLinkStart { dest: String, has_pothole: bool },
    /// A text node.
    Text(String),
    /// End of any link.
    LinkEnd,
    /// Start of a heading of the given level (1-6).
    HeadingStart(u8),
    /// End of a heading.
    HeadingEnd,
    /// Any other event.
    Other,
}

impl View for MdEvent {
    type V = MdEventView;

    open spec fn view(&self) -> MdEventView {
        match self {
            MdEvent::WikiLinkStart { dest, has_pothole } => MdEventView::WikiLinkStart {
                dest: dest@,
                has_pothole: *has_pothole,
            },
            MdEvent::Text(t) => MdEventView::Text(t@),
            MdEvent::LinkEnd => MdEventView::LinkEnd,
            MdEvent::HeadingStart(l) => MdEventView::HeadingStart(*l),
            MdEvent::HeadingEnd => MdEventView::HeadingEnd,
            MdEvent::Other => MdEventView::Other,
        }
    }
}

/// The views of a sequence of events.
pub open spec fn event_views(v: Seq<MdEvent>) -> Seq<MdEventView> {
    v.map_values(|e: MdEvent| e@)
}

/// pulldown-cmark's `Options::ENABLE_TABLES` bit (`1 << 1`).
pub const ENABLE_TABLES: u32 = 2;

/// pulldown-cmark's `Options::ENABLE_STRIKETHROUGH` bit (`1 << 3`).
pub const ENABLE_STRIKETHROUGH: u32 = 8;

/// pulldown-cmark's `Options::ENABLE_TASKLISTS` bit (`1 << 4`).
pub const ENABLE_TASKLISTS: u32 = 16;

/// pulldown-cmark's `Options::ENABLE_HEADING_ATTRIBUTES` bit (`1 << 6`).
pub const ENABLE_HEADING_ATTRIBUTES: u32 = 64;

/// pulldown-cmark's `Options::ENABLE_YAML_STYLE_METADATA_BLOCKS` bit (`1 << 7`).
pub const ENABLE_YAML_STYLE_METADATA_BLOCKS: u32 = 128;

/// pulldown-cmark's `Options::ENABLE_WIKILINKS` bit (`1 << 15`).
pub const ENABLE_WIKILINKS: u32 = 32768;

/// The options this parser uses: wiki links, YAML metadata blocks,
/// strikethrough, tables, task lists and heading attributes.
pub open spec fn markdown_options() -> u32 {
    ENABLE_WIKILINKS | ENABLE_YAML_STYLE_METADATA_BLOCKS | ENABLE_STRIKETHROUGH | ENABLE_TABLES
        | ENABLE_TASKLISTS | ENABLE_HEADING_ATTRIBUTES
}

/// Whether every heading in `events` has a level from 1 to 6.
pub open spec fn heading_levels_valid(events: Seq<MdEventView>) -> bool {
    forall|i: int| 0 <= i < events.len() ==> (#[trigger] events[i] matches MdEventView::HeadingStart(l) ==> 1 <= l
        <= 6)
}

/// What pulldown-cmark's `Parser::new_ext(content, options)` yields, each
/// event as an [`MdEventView`].
pub uninterp spec fn markdown_events(content: Seq<char>, options: u32) -> Seq<MdEventView>;

/// Parser options for pulldown-cmark with wiki-link support, as the bits of
/// `pulldown_cmark::Options`.
pub fn parser_options() -> (o: u32)
    ensures
        o == markdown_options(),
{
    ENABLE_WIKILINKS | ENABLE_YAML_STYLE_METADATA_BLOCKS | ENABLE_STRIKETHROUGH | ENABLE_TABLES
        | ENABLE_TASKLISTS | ENABLE_HEADING_ATTRIBUTES
}

/// Runs pulldown-cmark's `Parser::new_ext` over `content` with the options
/// whose bits `options` holds, and converts each event, one for one, to an
/// [`MdEvent`]. The contract names the result ([`markdown_events`]) and
/// claims of it only that heading levels are 1 to 6, the values of
/// pulldown-cmark's `HeadingLevel` (`H1 = 1` to `H6`).
#[verifier::external_body]
fn markdown_event_list(content: &str, options: u32) -> (r: Vec<MdEvent>)
    ensures
        event_views(r@) == markdown_events(content@, options),
        heading_levels_valid(event_views(r@)),
{
    Parser::new_ext(content, O::from_bits_truncate(options))
        .map(|e| match e {
            E::Start(Tag::Link { link_type: LinkType::WikiLink { has_pothole }, dest_url, .. }) =>
                MdEvent::WikiLinkStart { dest: dest_url.to_string(), has_pothole },
            E::Text(t) => MdEvent::Text(t.to_string()),
            E::End(TagEnd::Link) => MdEvent::LinkEnd,
            E::Start(Tag::Heading { level, .. }) => MdEvent::HeadingStart(level as u8),
            E::End(TagEnd::Heading(_)) => MdEvent::HeadingEnd,
            _ => MdEvent::Other,
        })
        .collect()
}

/// The wiki link for destination `dest`, pothole flag and link text:
/// the destination is trimmed and split at its first `'#'` into target and
/// heading; with a pothole, a non-empty text that differs from the target is
/// the (trimmed) display text.
pub open spec fn wiki_link_of(dest: Seq<char>, has_pothole: bool, text: Seq<char>) -> WikiLinkView {
    let d = trim(dest);
    let base = match first_at(d, seq!['#']) {
        Some(i) => d.take(i),
        None => d,
    };
    let heading = match first_at(d, seq!['#']) {
        Some(i) => Some(d.skip(i + 1)),
        None => None,
    };
    let display = if has_pothole && text.len() > 0 && text != base {
        Some(trim(text))
    } else {
        None
    };
    WikiLinkView { target: base, display, heading }
}

/// Parse a wiki link from its destination and text content.
///
/// - For `[[Note]]`, dest = "Note", has_pothole = false, text = "Note"
/// - For `[[Note|alias]]`, dest = "Note", has_pothole = true, text = "alias"
/// - For `[[Note#heading]]`, dest = "Note#heading", has_pothole = false
pub fn parse_wiki_link_with_text(dest: &str, has_pothole: bool, text: &str) -> (l: WikiLink)
    ensures
        l@ == wiki_link_of(dest@, has_pothole, text@),
{
    let dv = chars_of(dest);
    let d = trim_chars(dv.as_slice());
    let hash = vec!['#'];
    assert(hash@ == seq!['#']);
    let pos = crate::text::find(d.as_slice(), hash.as_slice());
    let (target_chars, heading) = match pos {
        Some(i) => {
            let (mut b, mut h) = (Vec::new(), Vec::new());
            let mut k: usize = 0;
            while k < d.len()
                invariant
                    i < d@.len(),
                    k <= d@.len(),
                    k <= i ==> b@ == d@.take(k as int) && h@.len() == 0,
                    k > i ==> b@ == d@.take(i as int) && h@ == d@.subrange(i + 1, k as int),
                decreases d@.len() - k,
            {
                if k < i {
                    b.push(d[k]);
                } else if k > i {
                    h.push(d[k]);
                }
                k = k + 1;
            }
            assert(h@ == d@.skip(i + 1));
            (b, Some(string_of(h.as_slice())))
        },
        None => (d.clone(), None),
    };
    let target = string_of(target_chars.as_slice());
    proof {
        if let Some(i) = pos {
            assert(first_at(d@, hash@) == Some(i as int));
        }
        assert(hash@ == seq!['#']);
    }
    let tv = chars_of(text);
    let display = if has_pothole && tv.len() > 0 && !crate::text::eq_chars(tv.as_slice(), target_chars.as_slice()) {
        let t = trim_chars(tv.as_slice());
        Some(string_of(t.as_slice()))
    } else {
        None
    };
    WikiLink { target, display, heading }
}

/// Parse a wiki link destination without link text.
pub fn parse_wiki_link(dest: &str) -> (l: WikiLink)
    ensures
        l@ == wiki_link_of(dest@, false, Seq::empty()),
{
    parse_wiki_link_with_text(dest, false, "")
}

/// State of the event walk of [`parse_markdown`].
pub ghost struct ParseState {
    pub links: Seq<WikiLinkView>,
    pub headings: Seq<HeadingView>,
    pub title: Option<Seq<char>>,
    pub level: Option<u8>,
    pub heading_text: Seq<char>,
    pub wiki: Option<(Seq<char>, bool)>,
    pub wiki_text: Seq<char>,
}

/// The state before the first event.
pub open spec fn initial_state() -> ParseState {
    ParseState {
        links: Seq::empty(),
        headings: Seq::empty(),
        title: None,
        level: None,
        heading_text: Seq::empty(),
        wiki: None,
        wiki_text: Seq::empty(),
    }
}

/// How one event changes the state: a wiki link collects its text (outside
/// headings) and becomes a link at its end; a heading collects its text, and at
/// its end, when the trimmed text is not empty, becomes a heading (the first
/// level-1 one also the title).
pub open spec fn step(st: ParseState, e: MdEventView) -> ParseState {
    match e {
        MdEventView::WikiLinkStart { dest, has_pothole } => ParseState {
            wiki: Some((dest, has_pothole)),
            wiki_text: Seq::empty(),
            ..st
        },
        MdEventView::Text(t) => if st.wiki is Some && st.level is None {
            ParseState { wiki_text: st.wiki_text + t, ..st }
        } else if st.level is Some {
            ParseState { heading_text: st.heading_text + t, ..st }
        } else {
            st
        },
        MdEventView::LinkEnd => match st.wiki {
            Some((dest, has_pothole)) => ParseState {
                links: st.links.push(wiki_link_of(dest, has_pothole, st.wiki_text)),
                wiki: None,
                ..st
            },
            None => st,
        },
        MdEventView::HeadingStart(level) => ParseState {
            level: Some(level),
            heading_text: Seq::empty(),
            ..st
        },
        MdEventView::HeadingEnd => match st.level {
            Some(level) => {
                let text = trim(st.heading_text);
                if text.len() > 0 {
                    ParseState {
                        level: None,
                        heading_text: Seq::empty(),
                        title: if level == 1 && st.title is None {
                            Some(text)
                        } else {
                            st.title
                        },
                        headings: st.headings.push(HeadingView { level, text }),
                        ..st
                    }
                } else {
                    ParseState { level: None, heading_text: Seq::empty(), ..st }
                }
            },
            None => st,
        },
        MdEventView::Other => st,
    }
}

/// The state after all of `events`.
pub open spec fn run(events: Seq<MdEventView>) -> ParseState
    decreases events.len(),
{
    if events.len() == 0 {
        initial_state()
    } else {
        step(run(events.drop_last()), events.last())
    }
}

/// Result of parsing a markdown document.
#[derive(Debug)]
pub struct ParseResult {
    /// Wiki links found in the document.
    pub links: Vec<WikiLink>,
    /// Headings found in the document.
    pub headings: Vec<Heading>,
    /// The first H1 heading (used as title).
    pub title: Option<String>,
}

impl ParseResult {
    /// Whether this result holds what the walk over `events` collected.
    pub open spec fn is_result_of(&self, events: Seq<MdEventView>) -> bool {
        &&& link_views(self.links@) == run(events).links
        &&& heading_views(self.headings@) == run(events).headings
        &&& opt_str(self.title) == run(events).title
    }
}

/// Walks a markdown event stream and collects links, headings and title.
pub fn parse_events(events: &[MdEvent]) -> (r: ParseResult)
    ensures
        r.is_result_of(event_views(events@)),
{
    let ghost ev = event_views(events@);
    let mut links: Vec<WikiLink> = Vec::new();
    let mut headings: Vec<Heading> = Vec::new();
    let mut title: Option<String> = None;
    let mut level: Option<u8> = None;
    let mut heading_text: Vec<char> = Vec::new();
    let mut wiki: Option<(String, bool)> = None;
    let mut wiki_text: Vec<char> = Vec::new();
    let mut i: usize = 0;
    assert(ev.take(0) =~= Seq::<MdEventView>::empty());
    while i < events.len()
        invariant
            i <= events@.len(),
            ev == event_views(events@),
            ({
                let st = run(ev.take(i as int));
                &&& link_views(links@) == st.links
                &&& heading_views(headings@) == st.headings
                &&& opt_str(title) == st.title
                &&& level == st.level
                &&& heading_text@ == st.heading_text
                &&& wiki_text@ == st.wiki_text
                &&& match wiki {
                    Some((d, p)) => st.wiki == Some((d@, p)),
                    None => st.wiki is None,
                }
            }),
        decreases events@.len() - i,
    {
        let ghost st = run(ev.take(i as int));
        assert(ev.take(i + 1).drop_last() == ev.take(i as int));
        assert(ev.take(i + 1).last() == events@[i as int]@);
        match &events[i] {
            MdEvent::WikiLinkStart { dest, has_pothole } => {
                wiki = Some((dest.clone(), *has_pothole));
                wiki_text = Vec::new();
            },
            MdEvent::Text(t) => {
                if wiki.is_some() && level.is_none() {
                    let mut tv = chars_of(t.as_str());
                    wiki_text.append(&mut tv);
                } else if level.is_some() {
                    let mut tv = chars_of(t.as_str());
                    heading_text.append(&mut tv);
                }
            },
            MdEvent::LinkEnd => {
                if let Some((dest, has_pothole)) = wiki {
                    let text = string_of(wiki_text.as_slice());
                    let link = parse_wiki_link_with_text(dest.as_str(), has_pothole, text.as_str());
                    let ghost lv = link_views(links@);
                    let ghost l = link@;
                    links.push(link);
                    assert(link_views(links@) =~= lv.push(l));
                    wiki = None;
                } else {
                }
            },
            MdEvent::HeadingStart(l) => {
                level = Some(*l);
                heading_text = Vec::new();
            },
            MdEvent::HeadingEnd => {
                if let Some(lv) = level {
                    let text = trim_chars(heading_text.as_slice());
                    level = None;
                    heading_text = Vec::new();
                    if text.len() > 0 {
                        if lv == 1 && title.is_none() {
                            title = Some(string_of(text.as_slice()));
                        }
                        let h = Heading { level: lv, text: string_of(text.as_slice()) };
                        let ghost hv = heading_views(headings@);
                        let ghost hh = h@;
                        headings.push(h);
                        assert(heading_views(headings@) =~= hv.push(hh));
                    }
                }
            },
            MdEvent::Other => {},
        }
        i = i + 1;
    }
    assert(ev.take(events@.len() as int) == ev);
    ParseResult { links, headings, title }
}

/// When every heading event has a level from 1 to 6, so does every heading
/// the walk collects (and the heading it is inside, if any).
pub proof fn lemma_run_heading_levels(events: Seq<MdEventView>)
    requires
        heading_levels_valid(events),
    ensures
        forall|k: int| 0 <= k < run(events).headings.len() ==> 1 <= (#[trigger] run(events).headings[k]).level <= 6,
        run(events).level matches Some(l) ==> 1 <= l <= 6,
    decreases events.len(),
{
    if events.len() > 0 {
        let rest = events.drop_last();
        assert forall|i: int| 0 <= i < rest.len() implies (#[trigger] rest[i] matches MdEventView::HeadingStart(l)
            ==> 1 <= l <= 6) by {
            assert(rest[i] == events[i]);
        }
        lemma_run_heading_levels(rest);
        assert(events.last() == events[events.len() - 1]);
    }
}

/// Parse a markdown document and extract wiki links and headings; every
/// heading has a level from 1 to 6.
pub fn parse_markdown(content: &str) -> (r: ParseResult)
    ensures
        r.is_result_of(markdown_events(content@, markdown_options())),
        forall|k: int| 0 <= k < r.headings@.len() ==> 1 <= (#[trigger] r.headings@[k]).level <= 6,
{
    let options = parser_options();
    let events = markdown_event_list(content, options);
    let r = parse_events(events.as_slice());
    proof {
        lemma_run_heading_levels(event_views(events@));
        assert forall|k: int| 0 <= k < r.headings@.len() implies 1 <= (#[trigger] r.headings@[k]).level <= 6 by {
            assert(heading_views(r.headings@)[k] == r.headings@[k]@);
        }
    }
    r
}

} // verus!
