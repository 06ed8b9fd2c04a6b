//! Preparing notes for semantic search with embeddings.
//!
//! A note is embedded as chunks of its content, each prefixed with the
//! note's title and the headings above it, plus an optional chunk of its
//! link context (its links and backlinks). A content hash over the content
//! and the link context tells when a note must be embedded again. The
//! vectors themselves and the similarity search live with the embedding
//! model, outside this library.

pub mod chunking;
pub mod keys;
pub mod sections;

use vstd::prelude::*;
use std::hash::{Hash, Hasher};
use crate::order::{sort_dedup, sorted_set};
use crate::text::{chars_of, join, join_strs, push_chars, string_of, strs, trim, trim_str};
use crate::vault::note::{display_name_of, Note, NoteView, WikiLinkView};
use chunking::{char_len, eff_max, split_halts, split_text_with_overlap, text_chunks, truncate_to_chars, truncated};
use keys::{embedding_id, embedding_key, embedding_note_name, key_note_name, EmbeddingKind};
use sections::{build_content_prefix, content_prefix, split_markdown_sections, section_views, sections_of, SectionView};

verus! {

/// Version of the way notes are prepared; part of every content hash.
pub const EMBEDDING_FORMAT_VERSION: u8 = 3;

/// How note text is prepared for embedding.
#[derive(Debug, Clone, Copy)]
pub struct EmbeddingTextConfig {
    /// Maximum characters per content chunk.
    pub max_content_chars: usize,
    /// Overlap size between content chunks (in characters).
    pub chunk_overlap_chars: usize,
    /// Whether to include headings in the embedding text.
    pub include_headings: bool,
    /// Whether to include a link-context embedding per note.
    pub include_link_context: bool,
    /// Maximum characters for link-context embedding text.
    pub link_context_max_chars: usize,
}

impl EmbeddingTextConfig {
    /// The default preparation: chunks of 1800 characters overlapping by
    /// 200, with headings and a link context of 320 characters.
    pub fn new() -> (c: Self)
        ensures
            c.max_content_chars == 1800,
            c.chunk_overlap_chars == 200,
            c.include_headings,
            c.include_link_context,
            c.link_context_max_chars == 320,
    {
        EmbeddingTextConfig {
            max_content_chars: 1800,
            chunk_overlap_chars: 200,
            include_headings: true,
            include_link_context: true,
            link_context_max_chars: 320,
        }
    }
}

/// Mathematical model of a [`PreparedChunk`]: (key, text).
pub type ChunkView = (Seq<char>, Seq<char>);

/// A text ready for embedding, with the key it is stored under.
#[derive(Debug, Clone)]
pub struct PreparedChunk {
    pub id: String,
    pub text: String,
}

impl View for PreparedChunk {
    type V = ChunkView;

    open spec fn view(&self) -> ChunkView {
        (self.id@, self.text@)
    }
}

/// The views of a sequence of chunks.
pub open spec fn chunk_views(v: Seq<PreparedChunk>) -> Seq<ChunkView> {
    v.map_values(|c: PreparedChunk| c@)
}

/// Mathematical model of a [`PreparedNote`].
pub struct PreparedNoteView {
    pub note_name: Seq<char>,
    pub hash: u64,
    pub chunks: Seq<ChunkView>,
}

/// The texts of a note ready for embedding, with its content hash.
#[derive(Debug, Clone)]
pub struct PreparedNote {
    pub note_name: String,
    pub hash: u64,
    pub chunks: Vec<PreparedChunk>,
}

impl View for PreparedNote {
    type V = PreparedNoteView;

    open spec fn view(&self) -> PreparedNoteView {
        PreparedNoteView { note_name: self.note_name@, hash: self.hash, chunks: chunk_views(self.chunks@) }
    }
}

/// The window for the chunks of a section whose prefix has `prefix_len`
/// characters: what the prefix leaves of the chunk size, at least one.
pub open spec fn section_window(max_chars: nat, prefix_len: nat) -> nat {
    let m = eff_max(max_chars);
    if prefix_len < m {
        (m - prefix_len) as nat
    } else {
        1
    }
}

/// The overlap of the chunks of a section: less than its window.
pub open spec fn section_overlap(overlap: nat, window: nat) -> nat {
    if overlap < window - 1 {
        overlap
    } else {
        (window - 1) as nat
    }
}

/// The prefix of the chunks of section `sec`.
pub open spec fn section_prefix(cfg: EmbeddingTextConfig, title: Seq<char>, sec: SectionView) -> Seq<char> {
    content_prefix(title, sec.heading_path, cfg.include_headings)
}

/// The window of the chunks of section `sec`.
pub open spec fn window_of(cfg: EmbeddingTextConfig, title: Seq<char>, sec: SectionView) -> nat {
    section_window(cfg.max_content_chars as nat, section_prefix(cfg, title, sec).len())
}

/// The overlap of the chunks of section `sec`.
pub open spec fn overlap_of(cfg: EmbeddingTextConfig, title: Seq<char>, sec: SectionView) -> nat {
    section_overlap(cfg.chunk_overlap_chars as nat, window_of(cfg, title, sec))
}

/// The texts of chunks `bodies`: each non-blank one trimmed after the
/// prefix, cut to `max_chars`.
pub open spec fn chunk_texts(prefix: Seq<char>, bodies: Seq<Seq<char>>, max_chars: nat) -> Seq<Seq<char>>
    decreases bodies.len(),
{
    if bodies.len() == 0 {
        Seq::empty()
    } else {
        let r = chunk_texts(prefix, bodies.drop_last(), max_chars);
        let b = bodies.last();
        if trim(b).len() == 0 {
            r
        } else {
            r.push(truncated(prefix + trim(b), max_chars))
        }
    }
}

/// The texts of the content chunks of section `sec`.
pub open spec fn section_texts(cfg: EmbeddingTextConfig, title: Seq<char>, sec: SectionView) -> Seq<Seq<char>> {
    chunk_texts(
        section_prefix(cfg, title, sec),
        text_chunks(sec.body, window_of(cfg, title, sec), overlap_of(cfg, title, sec)),
        cfg.max_content_chars as nat,
    )
}

/// The texts of the content chunks of sections `secs`, in order.
pub open spec fn all_section_texts(cfg: EmbeddingTextConfig, title: Seq<char>, secs: Seq<SectionView>) -> Seq<Seq<char>>
    decreases secs.len(),
{
    if secs.len() == 0 {
        Seq::empty()
    } else {
        all_section_texts(cfg, title, secs.drop_last()) + section_texts(cfg, title, secs.last())
    }
}

/// Whether splitting every section into chunks comes to an end.
pub open spec fn sections_halt(cfg: EmbeddingTextConfig, title: Seq<char>, secs: Seq<SectionView>) -> bool {
    forall|i: int| 0 <= i < secs.len() ==> split_halts(
        (#[trigger] secs[i]).body,
        window_of(cfg, title, secs[i]),
        overlap_of(cfg, title, secs[i]),
    )
}

/// Whether preparing the content of `note` comes to an end.
pub open spec fn content_chunking_halts(cfg: EmbeddingTextConfig, note: NoteView, content: Seq<char>) -> bool {
    sections_halt(cfg, display_name_of(note), sections_of(content))
}

/// The content chunks of `note` with `content`: numbered in order; when
/// there is no text, one chunk of the prefix alone.
pub open spec fn content_chunks(cfg: EmbeddingTextConfig, note: NoteView, content: Seq<char>) -> Seq<ChunkView> {
    let title = display_name_of(note);
    let texts = all_section_texts(cfg, title, sections_of(content));
    if texts.len() == 0 {
        seq![
            (
                embedding_key(note.name, EmbeddingKind::Content, 0),
                truncated(content_prefix(title, Seq::empty(), cfg.include_headings), cfg.max_content_chars as nat),
            ),
        ]
    } else {
        Seq::new(texts.len(), |i: int| (embedding_key(note.name, EmbeddingKind::Content, i as nat), texts[i]))
    }
}

/// Content chunks with the texts `texts`, numbered from zero.
pub open spec fn numbered(name: Seq<char>, texts: Seq<Seq<char>>) -> Seq<ChunkView> {
    Seq::new(texts.len(), |i: int| (embedding_key(name, EmbeddingKind::Content, i as nat), texts[i]))
}

/// With an overlap of at most half of each window, preparing any content
/// comes to an end.
pub proof fn lemma_chunking_halts(cfg: EmbeddingTextConfig, note: NoteView, content: Seq<char>)
    requires
        forall|i: int| 0 <= i < sections_of(content).len() ==> 2 * overlap_of(
            cfg,
            display_name_of(note),
            #[trigger] sections_of(content)[i],
        ) <= window_of(cfg, display_name_of(note), sections_of(content)[i]),
    ensures
        content_chunking_halts(cfg, note, content),
{
    let title = display_name_of(note);
    let secs = sections_of(content);
    assert forall|i: int| 0 <= i < secs.len() implies split_halts(
        (#[trigger] secs[i]).body,
        window_of(cfg, title, secs[i]),
        overlap_of(cfg, title, secs[i]),
    ) by {
        let w = window_of(cfg, title, secs[i]);
        let o = overlap_of(cfg, title, secs[i]);
        assert(eff_max(w) == w);
        chunking::lemma_halts_with_small_overlap(trim(secs[i].body), 0, w, chunking::eff_overlap(w, o));
    }
}

/// Whether preparing the content of `note` comes to an end.
pub fn content_chunking_comes_to_end(cfg: &EmbeddingTextConfig, note: &Note, content: &str) -> (b: bool)
    ensures
        b == content_chunking_halts(*cfg, note@, content@),
{
    let title = note.display_name();
    let ghost tv = display_name_of(note@);
    let sections = split_markdown_sections(content);
    let ghost secs = section_views(sections@);
    let max_chars: usize = if cfg.max_content_chars == 0 {
        1
    } else {
        cfg.max_content_chars
    };
    let mut i: usize = 0;
    while i < sections.len()
        invariant
            i <= sections@.len(),
            secs == section_views(sections@),
            secs == sections_of(content@),
            tv == display_name_of(note@),
            title@ == tv,
            max_chars as nat == eff_max(cfg.max_content_chars as nat),
            forall|k: int| 0 <= k < i ==> split_halts(
                (#[trigger] secs[k]).body,
                window_of(*cfg, tv, secs[k]),
                overlap_of(*cfg, tv, secs[k]),
            ),
        decreases sections@.len() - i,
    {
        let section = &sections[i];
        let ghost sv = secs[i as int];
        assert(section@ == sv);
        let prefix = build_content_prefix(title, section.heading_path.as_slice(), cfg.include_headings);
        let prefix_len = char_len(prefix.as_str());
        let available: usize = if prefix_len < max_chars {
            max_chars - prefix_len
        } else {
            1
        };
        let overlap: usize = if cfg.chunk_overlap_chars < available - 1 {
            cfg.chunk_overlap_chars
        } else {
            available - 1
        };
        assert(available == window_of(*cfg, tv, sv));
        assert(overlap == overlap_of(*cfg, tv, sv));
        if !chunking::split_comes_to_end(section.body.as_str(), available, overlap) {
            return false;
        }
        i = i + 1;
    }
    true
}

/// Build the content chunks of a note.
pub fn build_content_chunks(cfg: &EmbeddingTextConfig, note: &Note, content: &str) -> (r: Vec<PreparedChunk>)
    requires
        content_chunking_halts(*cfg, note@, content@),
    ensures
        chunk_views(r@) == content_chunks(*cfg, note@, content@),
{
    let title = note.display_name();
    let ghost tv = display_name_of(note@);
    let sections = split_markdown_sections(content);
    let ghost secs = section_views(sections@);
    let max_chars: usize = if cfg.max_content_chars == 0 {
        1
    } else {
        cfg.max_content_chars
    };
    let mut chunks: Vec<PreparedChunk> = Vec::new();
    let mut chunk_index: usize = 0;
    let mut i: usize = 0;
    assert(secs.take(0) =~= Seq::<SectionView>::empty());
    assert(chunk_views(chunks@) =~= numbered(note@.name, Seq::empty()));
    while i < sections.len()
        invariant
            i <= sections@.len(),
            secs == section_views(sections@),
            secs == sections_of(content@),
            tv == display_name_of(note@),
            title@ == tv,
            max_chars as nat == eff_max(cfg.max_content_chars as nat),
            sections_halt(*cfg, tv, secs),
            chunk_index == chunks@.len(),
            chunk_views(chunks@) == numbered(note@.name, all_section_texts(*cfg, tv, secs.take(i as int))),
        decreases sections@.len() - i,
    {
        let section = &sections[i];
        let ghost sv = secs[i as int];
        assert(section@ == sv);
        let prefix = build_content_prefix(title, section.heading_path.as_slice(), cfg.include_headings);
        let prefix_len = char_len(prefix.as_str());
        let available: usize = if prefix_len < max_chars {
            max_chars - prefix_len
        } else {
            1
        };
        let overlap: usize = if cfg.chunk_overlap_chars < available - 1 {
            cfg.chunk_overlap_chars
        } else {
            available - 1
        };
        assert(available == window_of(*cfg, tv, sv));
        assert(overlap == overlap_of(*cfg, tv, sv));
        assert(split_halts(sv.body, available as nat, overlap as nat));
        let body_chunks = split_text_with_overlap(section.body.as_str(), available, overlap);
        let ghost bodies = strs(body_chunks@);
        let ghost done = all_section_texts(*cfg, tv, secs.take(i as int));
        let mut j: usize = 0;
        assert(bodies.take(0) =~= Seq::<Seq<char>>::empty());
        assert(done + chunk_texts(prefix@, bodies.take(0), cfg.max_content_chars as nat) =~= done);
        while j < body_chunks.len()
            invariant
                j <= body_chunks@.len(),
                bodies == strs(body_chunks@),
                title@ == tv,
                max_chars as nat == eff_max(cfg.max_content_chars as nat),
                chunk_index == chunks@.len(),
                chunk_views(chunks@) == numbered(
                    note@.name,
                    done + chunk_texts(prefix@, bodies.take(j as int), cfg.max_content_chars as nat),
                ),
            decreases body_chunks@.len() - j,
        {
            let ghost before = done + chunk_texts(prefix@, bodies.take(j as int), cfg.max_content_chars as nat);
            assert(bodies.take(j + 1).drop_last() == bodies.take(j as int));
            assert(bodies.take(j + 1).last() == body_chunks@[j as int]@);
            let body = trim_str(body_chunks[j].as_str());
            if body.as_str().is_empty() {
                assert(done + chunk_texts(prefix@, bodies.take(j + 1), cfg.max_content_chars as nat) == before);
            } else {
                let mut joined = chars_of(prefix.as_str());
                push_chars(&mut joined, chars_of(body.as_str()).as_slice());
                let joined_str = string_of(joined.as_slice());
                let text = truncate_to_chars(joined_str.as_str(), max_chars);
                let id = embedding_id(note.name.as_str(), EmbeddingKind::Content, chunk_index);
                let ghost cv = chunk_views(chunks@);
                let ghost item = truncated(prefix@ + trim(bodies[j as int]), cfg.max_content_chars as nat);
                assert(body@ == trim(bodies[j as int]));
                assert(joined_str@ == prefix@ + trim(bodies[j as int]));
                assert(text@ == item);
                chunks.push(PreparedChunk { id, text });
                proof {
                    let after = done + chunk_texts(prefix@, bodies.take(j + 1), cfg.max_content_chars as nat);
                    assert(after =~= before.push(item));
                    assert(chunk_views(chunks@) =~= cv.push((embedding_key(note@.name, EmbeddingKind::Content, chunk_index as nat), item)));
                    assert(chunk_views(chunks@) =~= numbered(note@.name, after));
                }
                chunk_index = chunks.len();
            }
            j = j + 1;
        }
        proof {
            assert(bodies.take(bodies.len() as int) == bodies);
            assert(secs.take(i + 1).drop_last() == secs.take(i as int));
            assert(secs.take(i + 1).last() == sv);
            assert(all_section_texts(*cfg, tv, secs.take(i + 1)) == done + section_texts(*cfg, tv, sv));
        }
        i = i + 1;
    }
    assert(secs.take(secs.len() as int) == secs);
    if chunks.len() == 0 {
        let empty: Vec<String> = Vec::new();
        assert(strs(empty@) =~= Seq::<Seq<char>>::empty());
        let prefix = build_content_prefix(title, empty.as_slice(), cfg.include_headings);
        let text = truncate_to_chars(prefix.as_str(), max_chars);
        let id = embedding_id(note.name.as_str(), EmbeddingKind::Content, 0);
        chunks.push(PreparedChunk { id, text });
        assert(chunk_views(chunks@) =~= content_chunks(*cfg, note@, content@));
    } else {
        assert(chunk_views(chunks@) =~= content_chunks(*cfg, note@, content@));
    }
    chunks
}

/// The link-context chunk of a note, when there is one.
pub open spec fn link_chunk(cfg: EmbeddingTextConfig, note: NoteView, link_context: Seq<char>) -> Seq<ChunkView> {
    if cfg.include_link_context && trim(link_context).len() > 0 {
        let limit = if (cfg.link_context_max_chars as nat) < eff_max(cfg.max_content_chars as nat) {
            cfg.link_context_max_chars as nat
        } else {
            eff_max(cfg.max_content_chars as nat)
        };
        seq![
            (
                embedding_key(note.name, EmbeddingKind::LinkContext, 0),
                truncated(display_name_of(note) + ". "@ + trim(link_context), limit),
            ),
        ]
    } else {
        Seq::empty()
    }
}

/// The prepared texts of `note`.
pub open spec fn prepared_of(
    cfg: EmbeddingTextConfig,
    note: NoteView,
    content: Seq<char>,
    link_context: Seq<char>,
    hash: u64,
) -> PreparedNoteView {
    PreparedNoteView {
        note_name: note.name,
        hash,
        chunks: content_chunks(cfg, note, content) + link_chunk(cfg, note, link_context),
    }
}

/// Prepare the texts of a note: its content chunks, then its link context.
pub fn prepare_note_with_link_context(
    cfg: &EmbeddingTextConfig,
    note: &Note,
    content: &str,
    link_context: &str,
    hash: u64,
) -> (r: PreparedNote)
    requires
        content_chunking_halts(*cfg, note@, content@),
    ensures
        r@ == prepared_of(*cfg, note@, content@, link_context@, hash),
{
    let mut chunks = build_content_chunks(cfg, note, content);
    let ghost cc = chunk_views(chunks@);
    let trimmed = trim_str(link_context);
    if cfg.include_link_context && !trimmed.as_str().is_empty() {
        let mut text = chars_of(note.display_name());
        push_chars(&mut text, chars_of(". ").as_slice());
        push_chars(&mut text, chars_of(trimmed.as_str()).as_slice());
        let max_content: usize = if cfg.max_content_chars == 0 {
            1
        } else {
            cfg.max_content_chars
        };
        let limit = if cfg.link_context_max_chars < max_content {
            cfg.link_context_max_chars
        } else {
            max_content
        };
        let text = truncate_to_chars(string_of(text.as_slice()).as_str(), limit);
        let id = embedding_id(note.name.as_str(), EmbeddingKind::LinkContext, 0);
        chunks.push(PreparedChunk { id, text });
        assert(chunk_views(chunks@) =~= cc + link_chunk(*cfg, note@, link_context@));
    } else {
        assert(chunk_views(chunks@) =~= cc + link_chunk(*cfg, note@, link_context@));
    }
    PreparedNote { note_name: note.name.clone(), hash, chunks }
}

/// How a link is listed in a link context: its target, with its display
/// text in parentheses when it has one.
pub open spec fn link_label(l: WikiLinkView) -> Seq<char> {
    match l.display {
        Some(d) => l.target + " ("@ + d + ")"@,
        None => l.target,
    }
}

/// The labels of the links with a target, in order.
pub open spec fn outgoing_labels(links: Seq<WikiLinkView>) -> Seq<Seq<char>>
    decreases links.len(),
{
    if links.len() == 0 {
        Seq::empty()
    } else {
        let r = outgoing_labels(links.drop_last());
        if links.last().target.len() > 0 {
            r.push(link_label(links.last()))
        } else {
            r
        }
    }
}

/// A list part of a link context: the heading, the items and a full stop,
/// or nothing when there are no items.
pub open spec fn list_part(heading: Seq<char>, items: Seq<Seq<char>>) -> Seq<char> {
    if items.len() > 0 {
        heading + join(items, ", "@) + ". "@
    } else {
        Seq::empty()
    }
}

/// The link context of `note` with `backlinks`: its links and its
/// backlinks, each sorted without duplicates, cut to the configured length.
pub open spec fn link_context_of(cfg: EmbeddingTextConfig, note: NoteView, backlinks: Seq<Seq<char>>) -> Seq<char> {
    if !cfg.include_link_context {
        Seq::empty()
    } else {
        let o = sorted_set(outgoing_labels(note.links));
        let b = sorted_set(backlinks);
        if o.len() == 0 && b.len() == 0 {
            Seq::empty()
        } else {
            truncated(list_part("Links: "@, o) + list_part("Backlinks: "@, b), cfg.link_context_max_chars as nat)
        }
    }
}

/// Append a list part of a link context to `text`.
fn push_list_part(text: &mut Vec<char>, heading: &str, items: &Vec<String>)
    ensures
        final(text)@ == old(text)@ + list_part(heading@, strs(items@)),
{
    if items.len() > 0 {
        push_chars(text, chars_of(heading).as_slice());
        let joined = join_strs(items.as_slice(), ", ");
        push_chars(text, chars_of(joined.as_str()).as_slice());
        push_chars(text, chars_of(". ").as_slice());
    } else {
        assert(old(text)@ + list_part(heading@, strs(items@)) =~= old(text)@);
    }
}

/// Build the link-context text of a note for embeddings.
pub fn build_link_context(cfg: &EmbeddingTextConfig, note: &Note, backlinks: &[String]) -> (r: String)
    ensures
        r@ == link_context_of(*cfg, note@, strs(backlinks@)),
{
    if !cfg.include_link_context {
        return String::new();
    }
    let mut outgoing: Vec<String> = Vec::new();
    let mut i: usize = 0;
    while i < note.links.len()
        invariant
            i <= note.links@.len(),
            strs(outgoing@) == outgoing_labels(note@.links.take(i as int)),
        decreases note.links@.len() - i,
    {
        let link = &note.links[i];
        let ghost lv = note@.links[i as int];
        assert(link@ == lv);
        assert(note@.links.take(i + 1).drop_last() == note@.links.take(i as int));
        assert(note@.links.take(i + 1).last() == lv);
        if !link.target.as_str().is_empty() {
            let label = match &link.display {
                Some(display) => {
                    let mut v = chars_of(link.target.as_str());
                    push_chars(&mut v, chars_of(" (").as_slice());
                    push_chars(&mut v, chars_of(display.as_str()).as_slice());
                    push_chars(&mut v, chars_of(")").as_slice());
                    string_of(v.as_slice())
                },
                None => link.target.clone(),
            };
            let ghost before = strs(outgoing@);
            outgoing.push(label);
            assert(strs(outgoing@) =~= before.push(link_label(lv)));
        }
        i = i + 1;
    }
    assert(note@.links.take(note@.links.len() as int) == note@.links);
    let outgoing = sort_dedup(outgoing.as_slice());
    let backlinks = sort_dedup(backlinks);
    if outgoing.len() == 0 && backlinks.len() == 0 {
        return String::new();
    }
    let mut text: Vec<char> = Vec::new();
    push_list_part(&mut text, "Links: ", &outgoing);
    push_list_part(&mut text, "Backlinks: ", &backlinks);
    assert(text@ =~= list_part("Links: "@, strs(outgoing@)) + list_part("Backlinks: "@, strs(backlinks@)));
    truncate_to_chars(string_of(text.as_slice()).as_str(), cfg.link_context_max_chars)
}

/// Errors that can occur during embedding operations.
#[derive(Debug)]
pub enum EmbeddingError {
    /// The embedding model could not be initialized.
    ModelInitError(String),
    /// Embeddings could not be generated.
    EmbedError(String),
    /// The note has no embeddings.
    NoteNotFound(String),
    /// Stored embeddings could not be read or written.
    StorageError(String),
}

/// Input for embedding a note with its content and backlinks.
#[derive(Debug, Clone)]
pub struct EmbeddingInput {
    pub note: Note,
    pub content: String,
    pub backlinks: Vec<String>,
}

/// Embedding index statistics.
#[derive(Debug, Clone)]
pub struct EmbeddingStats {
    pub note_count: usize,
    pub dimensions: usize,
    pub model_name: String,
}

/// What a `seahash::SeaHasher` gives after `Hash` has fed it a version
/// byte and two texts, in this order.
pub uninterp spec fn sea_digest(version: u8, first: Seq<char>, second: Seq<char>) -> u64;

/// `seahash::SeaHasher` fed, through `Hash`, `version` then `first` then
/// `second`. The hasher has fixed keys, so the digest depends on the
/// inputs alone; the contract names it.
#[verifier::external_body]
fn seahash_digest(version: u8, first: &str, second: &str) -> (h: u64)
    ensures
        h == sea_digest(version, first@, second@),
{
    let mut hasher = seahash::SeaHasher::new();
    version.hash(&mut hasher);
    first.hash(&mut hasher);
    second.hash(&mut hasher);
    hasher.finish()
}

/// The content hash of a note: of the format version, its content and its
/// link context.
pub open spec fn note_hash_of(content: Seq<char>, link_context: Seq<char>) -> u64 {
    sea_digest(EMBEDDING_FORMAT_VERSION, content, link_context)
}

/// The content hash of a note's content and link context.
pub fn note_hash(content: &str, link_context: &str) -> (h: u64)
    ensures
        h == note_hash_of(content@, link_context@),
{
    seahash_digest(EMBEDDING_FORMAT_VERSION, content, link_context)
}

/// Whether a note whose embeddings were made with hash `stored` (if any)
/// must be embedded again for content hash `hash`.
pub open spec fn stale(stored: Option<u64>, hash: u64) -> bool {
    match stored {
        Some(old) => old != hash,
        None => true,
    }
}

/// Check if a note needs re-embedding based on content hash.
pub fn needs_update_hash(stored: Option<u64>, hash: u64) -> (b: bool)
    ensures
        b == stale(stored, hash),
{
    match stored {
        Some(old) => old != hash,
        None => true,
    }
}

/// Check if a note needs re-embedding based on content + link context.
pub fn needs_update(stored: Option<u64>, content: &str, link_context: &str) -> (b: bool)
    ensures
        b == stale(stored, note_hash_of(content@, link_context@)),
{
    let hash = note_hash(content, link_context);
    needs_update_hash(stored, hash)
}

/// A note must be embedded again exactly when no hash is stored for it or
/// the stored hash differs from seahash's digest of the format version, its
/// content and its link context: the link context counts as much as the
/// content.
pub proof fn lemma_update_follows_digest(stored: Option<u64>, content: Seq<char>, link_context: Seq<char>)
    ensures
        stale(stored, note_hash_of(content, link_context)) <==> stored != Some(
            sea_digest(EMBEDDING_FORMAT_VERSION, content, link_context),
        ),
{
}

/// After a note's link context changes (its content the same), the hash
/// stored for the old context asks for new embeddings unless the digests of
/// the two contexts collide. (seahash gives 64 bits, so distinct texts can
/// share a digest; nothing here claims otherwise.)
pub proof fn lemma_link_context_change_refreshes(content: Seq<char>, old_context: Seq<char>, new_context: Seq<char>)
    ensures
        stale(Some(note_hash_of(content, old_context)), note_hash_of(content, new_context)) <==> sea_digest(
            EMBEDDING_FORMAT_VERSION,
            content,
            old_context,
        ) != sea_digest(EMBEDDING_FORMAT_VERSION, content, new_context),
{
}

/// What embedding `note` asks for, given the hash its embeddings were made
/// with (if any): nothing when its content hash is unchanged, else its
/// prepared texts.
pub open spec fn embedding_work(
    cfg: EmbeddingTextConfig,
    note: NoteView,
    content: Seq<char>,
    backlinks: Seq<Seq<char>>,
    stored: Option<u64>,
) -> Option<PreparedNoteView> {
    let link = link_context_of(cfg, note, backlinks);
    let hash = note_hash_of(content, link);
    if stale(stored, hash) {
        Some(prepared_of(cfg, note, content, link, hash))
    } else {
        None
    }
}

/// Prepare a note for embedding unless its embeddings, made with hash
/// `stored`, are up to date.
pub fn prepare_for_embedding(
    cfg: &EmbeddingTextConfig,
    note: &Note,
    content: &str,
    backlinks: &[String],
    stored: Option<u64>,
) -> (r: Option<PreparedNote>)
    requires
        content_chunking_halts(*cfg, note@, content@),
    ensures
        match r {
            Some(p) => embedding_work(*cfg, note@, content@, strs(backlinks@), stored) == Some(p@),
            None => embedding_work(*cfg, note@, content@, strs(backlinks@), stored) is None,
        },
{
    let link_context = build_link_context(cfg, note, backlinks);
    let hash = note_hash(content, link_context.as_str());
    if !needs_update_hash(stored, hash) {
        return None;
    }
    Some(prepare_note_with_link_context(cfg, note, content, link_context.as_str(), hash))
}

/// Embedding a note twice asks for work only once: once the hash of what
/// was prepared for it is stored, the same note with the same content and
/// backlinks needs nothing; and a note whose stored hash is its current
/// content hash never needs work.
pub proof fn lemma_embed_twice(
    cfg: EmbeddingTextConfig,
    note: NoteView,
    content: Seq<char>,
    backlinks: Seq<Seq<char>>,
    stored: Option<u64>,
)
    ensures
        embedding_work(cfg, note, content, backlinks, stored) matches Some(p) ==> embedding_work(
            cfg,
            note,
            content,
            backlinks,
            Some(p.hash),
        ) is None,
        embedding_work(
            cfg,
            note,
            content,
            backlinks,
            Some(note_hash_of(content, link_context_of(cfg, note, backlinks))),
        ) is None,
{
}

/// The texts to embed for prepared notes, in order, each with the note's
/// name, its hash and the chunk's key.
pub open spec fn batch_items(notes: Seq<PreparedNoteView>) -> Seq<(Seq<char>, u64, Seq<char>, Seq<char>)>
    decreases notes.len(),
{
    if notes.len() == 0 {
        Seq::empty()
    } else {
        let n = notes.last();
        batch_items(notes.drop_last()) + n.chunks.map_values(
            |c: ChunkView| (n.note_name, n.hash, c.0, c.1),
        )
    }
}

/// The views of a sequence of prepared notes.
pub open spec fn prepared_views(v: Seq<PreparedNote>) -> Seq<PreparedNoteView> {
    v.map_values(|p: PreparedNote| p@)
}

/// The texts of prepared notes, and for each the note name, hash and key it
/// is stored under.
pub fn batch_texts(notes: &[PreparedNote]) -> (r: (Vec<String>, Vec<(String, u64, String)>))
    ensures
        r.0@.len() == r.1@.len() == batch_items(prepared_views(notes@)).len(),
        forall|k: int| 0 <= k < r.0@.len() ==> {
            let it = #[trigger] batch_items(prepared_views(notes@))[k];
            &&& r.0@[k]@ == it.3
            &&& r.1@[k].0@ == it.0
            &&& r.1@[k].1 == it.1
            &&& r.1@[k].2@ == it.2
        },
{
    let mut texts: Vec<String> = Vec::new();
    let mut meta: Vec<(String, u64, String)> = Vec::new();
    let ghost pv = prepared_views(notes@);
    let mut i: usize = 0;
    while i < notes.len()
        invariant
            i <= notes@.len(),
            pv == prepared_views(notes@),
            texts@.len() == meta@.len() == batch_items(pv.take(i as int)).len(),
            forall|k: int| 0 <= k < texts@.len() ==> {
                let it = #[trigger] batch_items(pv.take(i as int))[k];
                &&& texts@[k]@ == it.3
                &&& meta@[k].0@ == it.0
                &&& meta@[k].1 == it.1
                &&& meta@[k].2@ == it.2
            },
        decreases notes@.len() - i,
    {
        let p = &notes[i];
        let ghost n = pv[i as int];
        assert(p@ == n);
        assert(pv.take(i + 1).drop_last() == pv.take(i as int));
        assert(pv.take(i + 1).last() == n);
        let ghost prev = batch_items(pv.take(i as int));
        let ghost mine = n.chunks.map_values(|c: ChunkView| (n.note_name, n.hash, c.0, c.1));
        assert(batch_items(pv.take(i + 1)) == prev + mine);
        let mut j: usize = 0;
        while j < p.chunks.len()
            invariant
                j <= p.chunks@.len(),
                p@ == n,
                mine == n.chunks.map_values(|c: ChunkView| (n.note_name, n.hash, c.0, c.1)),
                texts@.len() == meta@.len() == prev.len() + j,
                forall|k: int| 0 <= k < texts@.len() ==> {
                    let it = #[trigger] (prev + mine)[k];
                    &&& texts@[k]@ == it.3
                    &&& meta@[k].0@ == it.0
                    &&& meta@[k].1 == it.1
                    &&& meta@[k].2@ == it.2
                },
            decreases p.chunks@.len() - j,
        {
            let c = &p.chunks[j];
            assert(c@ == n.chunks[j as int]);
            texts.push(c.text.clone());
            meta.push((p.note_name.clone(), p.hash, c.id.clone()));
            assert((prev + mine)[prev.len() + j] == mine[j as int]);
            j = j + 1;
        }
        i = i + 1;
    }
    assert(pv.take(pv.len() as int) == pv);
    (texts, meta)
}

/// The number of notes among stored embedding keys: the distinct note
/// names of the keys.
pub open spec fn key_note_count(keys: Seq<Seq<char>>) -> nat {
    sorted_set(keys.map_values(|k: Seq<char>| key_note_name(k))).len()
}

/// The number of embedded notes among stored embedding keys: the number of
/// distinct note names of the keys.
pub fn key_note_total(keys: &[String]) -> (n: usize)
    ensures
        n == key_note_count(strs(keys@)),
{
    let mut names: Vec<String> = Vec::new();
    let mut i: usize = 0;
    while i < keys.len()
        invariant
            i <= keys@.len(),
            strs(names@) == strs(keys@).take(i as int).map_values(|k: Seq<char>| key_note_name(k)),
        decreases keys@.len() - i,
    {
        let ghost before = strs(names@);
        let name = embedding_note_name(keys[i].as_str());
        assert(keys@[i as int]@ == strs(keys@)[i as int]);
        names.push(name);
        assert(strs(names@) =~= before.push(key_note_name(strs(keys@)[i as int])));
        assert(strs(keys@).take(i + 1) =~= strs(keys@).take(i as int).push(strs(keys@)[i as int]));
        assert(strs(names@) =~= strs(keys@).take(i + 1).map_values(|k: Seq<char>| key_note_name(k)));
        i = i + 1;
    }
    assert(strs(keys@).take(keys@.len() as int) == strs(keys@));
    let distinct = sort_dedup(names.as_slice());
    distinct.len()
}

/// The number of embedded notes for the index's statistics: the number of
/// content hashes when there are some, else the number of distinct note
/// names among the keys.
pub fn stored_note_count(hash_count: usize, keys: &[String]) -> (n: usize)
    ensures
        n == if hash_count > 0 {
            hash_count as nat
        } else {
            key_note_count(strs(keys@))
        },
{
    if hash_count > 0 {
        return hash_count;
    }
    key_note_total(keys)
}

/// The hexadecimal digit for `d < 16`, in lowercase.
pub open spec fn hex_char(d: nat) -> char {
    if d < 10 {
        ((d + 48) as u32) as char
    } else {
        ((d + 87) as u32) as char
    }
}

/// The last `count` hexadecimal digits of `n`, most significant first.
pub open spec fn hex_digits(n: nat, count: nat) -> Seq<char>
    decreases count,
{
    if count == 0 {
        Seq::empty()
    } else {
        hex_digits(n / 16, (count - 1) as nat).push(hex_char(n % 16))
    }
}

/// The last `count` hexadecimal digits of `n`.
fn hex_digit_chars(n: u64, count: usize) -> (r: Vec<char>)
    ensures
        r@ == hex_digits(n as nat, count as nat),
    decreases count,
{
    if count == 0 {
        Vec::new()
    } else {
        let mut r = hex_digit_chars(n / 16, count - 1);
        let d = (n % 16) as u8;
        let c = if d < 10 {
            (d + 48) as char
        } else {
            (d + 87) as char
        };
        r.push(c);
        r
    }
}

/// A vault id: a hash written as sixteen lowercase hexadecimal digits.
pub fn hex_id(hash: u64) -> (r: String)
    ensures
        r@ == hex_digits(hash as nat, 16),
{
    string_of(hex_digit_chars(hash, 16).as_slice())
}

/// What `seahash::hash` gives for the UTF-8 bytes of a text.
pub uninterp spec fn sea_hash_text(text: Seq<char>) -> u64;

/// `seahash::hash` of the UTF-8 bytes of `text`. The hash has fixed keys,
/// so it depends on the text alone; the contract names it.
#[verifier::external_body]
fn seahash_text(text: &str) -> (h: u64)
    ensures
        h == sea_hash_text(text@),
{
    seahash::hash(text.as_bytes())
}

/// Generate a vault ID from the vault path for cache storage: the path's
/// hash in sixteen hexadecimal digits.
pub fn vault_id_from_path(path: &str) -> (r: String)
    ensures
        r@ == hex_digits(sea_hash_text(path@) as nat, 16),
{
    hex_id(seahash_text(path))
}

} // verus!
