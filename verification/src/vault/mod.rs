//! Vault management for indexing and accessing markdown notes.
//!
//! A `Vault` holds the parsed notes of a directory, keyed by the lowercase form
//! of their names (lookups are case-insensitive). Reading files is the
//! caller's part: the vault takes file contents as [`NoteSource`] values.

pub mod note;
pub mod parser;

use vstd::prelude::*;
use crate::paths::{file_stem, has_markdown_extension, is_markdown_path, join, path_file_stem, path_join};
use crate::text::{chars_of, contains, contains_chars, lowercase, string_of, to_lowercase, trim, trim_chars};
use vstd::string::*;
pub use note::Note;
use note::{NoteView, WikiLinkView};
pub use parser::parse_markdown;
use parser::{markdown_events, markdown_options, run};

verus! {

/// Errors that can occur during vault operations.
#[derive(Debug)]
pub enum VaultError {
    /// The vault path does not exist.
    PathNotFound(String),
    /// A file could not be read.
    ReadError { path: String, reason: String },
    /// A file could not be written.
    WriteError { path: String, reason: String },
    /// A file could not be deleted.
    DeleteError { path: String, reason: String },
    /// A note name breaks the naming rules.
    InvalidNoteName(String),
    /// A note with this name already exists.
    NoteAlreadyExists(String),
    /// No note with this name exists.
    NoteNotFound(String),
    /// The vault directory could not be walked.
    WalkError(String),
}

/// Mathematical model of a [`NoteSource`].
pub struct NoteSourceView {
    pub path: Seq<char>,
    pub content: Seq<char>,
    pub modified: u128,
}

/// A note file as read from disk: its path, content and modification time
/// (nanoseconds since the Unix epoch).
#[derive(Debug, Clone)]
pub struct NoteSource {
    pub path: String,
    pub content: String,
    pub modified: u128,
}

impl View for NoteSource {
    type V = NoteSourceView;

    open spec fn view(&self) -> NoteSourceView {
        NoteSourceView { path: self.path@, content: self.content@, modified: self.modified }
    }
}

/// The note name of a file: its file stem, or "untitled" when it has none.
pub open spec fn note_name_of(path: Seq<char>) -> Seq<char> {
    match file_stem(path) {
        Some(s) => s,
        None => "untitled"@,
    }
}

/// The note parsed from a file.
pub open spec fn note_of(src: NoteSourceView) -> NoteView {
    let st = run(markdown_events(src.content, markdown_options()));
    NoteView {
        name: note_name_of(src.path),
        path: src.path,
        title: st.title,
        links: st.links,
        headings: st.headings,
        modified: src.modified,
    }
}

impl Note {
    /// Parse a note from its file.
    pub fn from_source(src: &NoteSource) -> (n: Note)
        ensures
            n@ == note_of(src@),
    {
        let parsed = parse_markdown(src.content.as_str());
        let name = match path_file_stem(src.path.as_str()) {
            Some(s) => s,
            None => "untitled".to_owned(),
        };
        Note {
            name,
            path: src.path.clone(),
            title: parsed.title,
            links: parsed.links,
            headings: parsed.headings,
            modified: src.modified,
        }
    }
}

/// The lookup key of a note name: its lowercase form.
pub open spec fn key_of(name: Seq<char>) -> Seq<char> {
    lowercase(name)
}

/// Whether note `n` has lookup key `key`.
pub open spec fn has_key(n: NoteView, key: Seq<char>) -> bool {
    key_of(n.name) == key
}

/// No two notes share a lookup key.
pub open spec fn distinct_keys(ns: Seq<NoteView>) -> bool {
    forall|i: int, j: int|
        0 <= i < ns.len() && 0 <= j < ns.len() && i != j ==> key_of(#[trigger] ns[i].name) != key_of(
            #[trigger] ns[j].name,
        )
}

/// The position of the note with lookup key `key`, if there is one.
pub open spec fn find_note(ns: Seq<NoteView>, key: Seq<char>) -> Option<int> {
    if exists|i: int| 0 <= i < ns.len() && #[trigger] has_key(ns[i], key) {
        Some(choose|i: int| 0 <= i < ns.len() && #[trigger] has_key(ns[i], key))
    } else {
        None
    }
}

/// The notes after adding `n`: it replaces the note with its key, or comes last.
pub open spec fn insert_note(ns: Seq<NoteView>, n: NoteView) -> Seq<NoteView> {
    match find_note(ns, key_of(n.name)) {
        Some(i) => ns.update(i, n),
        None => ns.push(n),
    }
}

/// The notes after removing the one with key `key`.
pub open spec fn remove_note_key(ns: Seq<NoteView>, key: Seq<char>) -> Seq<NoteView> {
    match find_note(ns, key) {
        Some(i) => ns.remove(i),
        None => ns,
    }
}

/// The notes after taking in one file: a markdown file's note replaces the
/// note with its key, or comes last; any other file changes nothing.
pub open spec fn take_file(ns: Seq<NoteView>, file: NoteSourceView) -> Seq<NoteView> {
    if is_markdown_path(file.path) {
        insert_note(ns, note_of(file))
    } else {
        ns
    }
}

/// The notes of a vault indexed from `files`: each markdown file taken in,
/// in order.
pub open spec fn indexed_notes(files: Seq<NoteSourceView>) -> Seq<NoteView>
    decreases files.len(),
{
    if files.len() == 0 {
        Seq::empty()
    } else {
        take_file(indexed_notes(files.drop_last()), files.last())
    }
}

/// Incremental updates agree with indexing: taking in one more file after
/// indexing gives the vault that indexing all the files gives.
pub proof fn lemma_update_matches_index(files: Seq<NoteSourceView>, file: NoteSourceView)
    ensures
        take_file(indexed_notes(files), file) == indexed_notes(files.push(file)),
{
    assert(files.push(file).drop_last() == files);
}

/// With distinct keys, the note found for a key is the one that has it.
pub proof fn lemma_find_note_unique(ns: Seq<NoteView>, key: Seq<char>, i: int)
    requires
        distinct_keys(ns),
        0 <= i < ns.len(),
        has_key(ns[i], key),
    ensures
        find_note(ns, key) == Some(i),
{
    let k = choose|k: int| 0 <= k < ns.len() && #[trigger] has_key(ns[k], key);
    assert(has_key(ns[k], key));
    if k != i {
        assert(key_of(ns[k].name) != key_of(ns[i].name));
    }
}

/// Adding a note keeps the keys distinct.
pub proof fn lemma_insert_distinct(ns: Seq<NoteView>, n: NoteView)
    requires
        distinct_keys(ns),
    ensures
        distinct_keys(insert_note(ns, n)),
        find_note(insert_note(ns, n), key_of(n.name)) is Some,
        insert_note(ns, n)[find_note(insert_note(ns, n), key_of(n.name))->0] == n,
{
    let r = insert_note(ns, n);
    match find_note(ns, key_of(n.name)) {
        Some(i) => {
            assert(has_key(ns[i], key_of(n.name)));
            assert forall|a: int, b: int|
                0 <= a < r.len() && 0 <= b < r.len() && a != b implies key_of(#[trigger] r[a].name)
                != key_of(#[trigger] r[b].name) by {
                if a == i {
                    assert(key_of(ns[b].name) != key_of(ns[i].name));
                } else if b == i {
                    assert(key_of(ns[a].name) != key_of(ns[i].name));
                } else {
                    assert(key_of(ns[a].name) != key_of(ns[b].name));
                }
            }
            assert(has_key(r[i], key_of(n.name)));
            lemma_find_note_unique(r, key_of(n.name), i);
        },
        None => {
            assert forall|a: int, b: int|
                0 <= a < r.len() && 0 <= b < r.len() && a != b implies key_of(#[trigger] r[a].name)
                != key_of(#[trigger] r[b].name) by {
                if a == ns.len() {
                    assert(!has_key(ns[b], key_of(n.name)));
                } else if b == ns.len() {
                    assert(!has_key(ns[a], key_of(n.name)));
                } else {
                    assert(key_of(ns[a].name) != key_of(ns[b].name));
                }
            }
            assert(has_key(r[ns.len() as int], key_of(n.name)));
            lemma_find_note_unique(r, key_of(n.name), ns.len() as int);
        },
    }
}

/// Removing a note keeps the keys distinct, and its key is then absent.
pub proof fn lemma_remove_distinct(ns: Seq<NoteView>, key: Seq<char>)
    requires
        distinct_keys(ns),
    ensures
        distinct_keys(remove_note_key(ns, key)),
        find_note(remove_note_key(ns, key), key) is None,
{
    let r = remove_note_key(ns, key);
    match find_note(ns, key) {
        Some(i) => {
            assert(has_key(ns[i], key));
            assert forall|a: int, b: int|
                0 <= a < r.len() && 0 <= b < r.len() && a != b implies key_of(#[trigger] r[a].name)
                != key_of(#[trigger] r[b].name) by {
                let a2 = if a < i { a } else { a + 1 };
                let b2 = if b < i { b } else { b + 1 };
                assert(r[a] == ns[a2]);
                assert(r[b] == ns[b2]);
                assert(key_of(ns[a2].name) != key_of(ns[b2].name));
            }
            assert forall|a: int| 0 <= a < r.len() implies !(#[trigger] has_key(r[a], key)) by {
                let a2 = if a < i { a } else { a + 1 };
                assert(r[a] == ns[a2]);
                assert(key_of(ns[a2].name) != key_of(ns[i].name));
            }
        },
        None => {
            assert forall|a: int| 0 <= a < r.len() implies !(#[trigger] has_key(r[a], key)) by {}
        },
    }
}

/// Whether note `n` has a link whose target has lookup key `key`.
pub open spec fn links_to(n: NoteView, key: Seq<char>) -> bool {
    exists|j: int| 0 <= j < n.links.len() && key_of(#[trigger] n.links[j].target) == key
}

/// The notes (in order) that link to the note named `name`.
pub open spec fn backlinks_of(ns: Seq<NoteView>, name: Seq<char>) -> Seq<NoteView> {
    ns.filter(|n: NoteView| links_to(n, key_of(name)))
}

/// Whether a link of a note in `ns` points to no note of `ns` (a link to a
/// heading of the same note, with an empty target, is never broken).
pub open spec fn is_broken(l: WikiLinkView, ns: Seq<NoteView>) -> bool {
    l.target.len() > 0 && find_note(ns, key_of(l.target)) is None
}

/// Mathematical model of a [`BrokenLink`].
pub struct BrokenLinkView {
    pub source: Seq<char>,
    pub target: Seq<char>,
}

/// The broken links of note `n` of `ns`, in link order.
pub open spec fn broken_of(n: NoteView, links: Seq<WikiLinkView>, ns: Seq<NoteView>) -> Seq<BrokenLinkView> {
    links.filter(|l: WikiLinkView| is_broken(l, ns)).map_values(
        |l: WikiLinkView| BrokenLinkView { source: n.name, target: l.target },
    )
}

/// The broken links of the notes `prefix` of `ns`, note by note.
pub open spec fn broken_in(prefix: Seq<NoteView>, ns: Seq<NoteView>) -> Seq<BrokenLinkView>
    decreases prefix.len(),
{
    if prefix.len() == 0 {
        Seq::empty()
    } else {
        broken_in(prefix.drop_last(), ns) + broken_of(prefix.last(), prefix.last().links, ns)
    }
}

/// Whether note `n` links to some note of `ns`.
pub open spec fn has_outgoing(n: NoteView, ns: Seq<NoteView>) -> bool {
    exists|j: int|
        0 <= j < n.links.len() && (#[trigger] n.links[j]).target.len() > 0 && find_note(
            ns,
            key_of(n.links[j].target),
        ) is Some
}

/// Whether some note of `ns` links to note `n`.
pub open spec fn has_incoming(n: NoteView, ns: Seq<NoteView>) -> bool {
    exists|k: int| 0 <= k < ns.len() && links_to(#[trigger] ns[k], key_of(n.name))
}

/// The notes of `ns` with neither outgoing nor incoming links.
pub open spec fn orphans_of(ns: Seq<NoteView>) -> Seq<NoteView> {
    ns.filter(|n: NoteView| !has_outgoing(n, ns) && !has_incoming(n, ns))
}

/// The broken links of the notes `prefix` are exactly the links of those
/// notes with a non-empty target whose key is the key of no note of `ns`,
/// each with the name of the note it is in, whatever its heading or display.
pub proof fn lemma_broken_in_exact(prefix: Seq<NoteView>, ns: Seq<NoteView>)
    ensures
        forall|i: int, j: int|
            #![trigger prefix[i].links[j]]
            0 <= i < prefix.len() && 0 <= j < prefix[i].links.len() && prefix[i].links[j].target.len() > 0 && (forall|
                m: int,
            |
                0 <= m < ns.len() ==> key_of(#[trigger] ns[m].name) != key_of(prefix[i].links[j].target))
                ==> broken_in(prefix, ns).contains(
                BrokenLinkView { source: prefix[i].name, target: prefix[i].links[j].target },
            ),
        forall|b: BrokenLinkView|
            #[trigger] broken_in(prefix, ns).contains(b) ==> exists|i: int, j: int|
                0 <= i < prefix.len() && 0 <= j < prefix[i].links.len() && b.source == prefix[i].name && b.target
                    == #[trigger] prefix[i].links[j].target && b.target.len() > 0 && (forall|m: int|
                    0 <= m < ns.len() ==> key_of(#[trigger] ns[m].name) != key_of(b.target)),
    decreases prefix.len(),
{
    broadcast use vstd::seq_lib::group_filter_ensures;

    if prefix.len() > 0 {
        let rest = prefix.drop_last();
        let n = prefix.last();
        let pred = |l: WikiLinkView| is_broken(l, ns);
        let f = n.links.filter(pred);
        let mine = broken_of(n, n.links, ns);
        let before = broken_in(rest, ns);
        lemma_broken_in_exact(rest, ns);
        assert(broken_in(prefix, ns) == before + mine);
        assert forall|i: int, j: int|
            #![trigger prefix[i].links[j]]
            0 <= i < prefix.len() && 0 <= j < prefix[i].links.len() && prefix[i].links[j].target.len() > 0 && (forall|
                m: int,
            |
                0 <= m < ns.len() ==> key_of(#[trigger] ns[m].name) != key_of(prefix[i].links[j].target))
                implies broken_in(prefix, ns).contains(
                BrokenLinkView { source: prefix[i].name, target: prefix[i].links[j].target },
            ) by {
            let want = BrokenLinkView { source: prefix[i].name, target: prefix[i].links[j].target };
            if i < rest.len() {
                assert(rest[i] == prefix[i]);
                assert(rest[i].links[j] == prefix[i].links[j]);
                assert(before.contains(want));
                let x = choose|x: int| 0 <= x < before.len() && before[x] == want;
                assert((before + mine)[x] == want);
            } else {
                let l = n.links[j];
                assert(find_note(ns, key_of(l.target)) is None) by {
                    if exists|w: int| 0 <= w < ns.len() && #[trigger] has_key(ns[w], key_of(l.target)) {
                        let w = choose|w: int| 0 <= w < ns.len() && #[trigger] has_key(ns[w], key_of(l.target));
                        assert(key_of(ns[w].name) != key_of(l.target));
                    }
                }
                assert(pred(l));
                n.links.lemma_filter_contains(pred, j);
                let y = choose|y: int| 0 <= y < f.len() && f[y] == l;
                assert(mine[y] == want);
                assert((before + mine)[before.len() + y] == want);
            }
        }
        assert forall|b: BrokenLinkView| #[trigger] broken_in(prefix, ns).contains(b) implies exists|i: int, j: int|
            0 <= i < prefix.len() && 0 <= j < prefix[i].links.len() && b.source == prefix[i].name && b.target
                == #[trigger] prefix[i].links[j].target && b.target.len() > 0 && (forall|m: int|
                0 <= m < ns.len() ==> key_of(#[trigger] ns[m].name) != key_of(b.target)) by {
            let x = choose|x: int| 0 <= x < (before + mine).len() && (before + mine)[x] == b;
            if x < before.len() {
                assert(before[x] == b);
                assert(before.contains(b));
                let (i, j) = choose|i: int, j: int|
                    0 <= i < rest.len() && 0 <= j < rest[i].links.len() && b.source == rest[i].name && b.target
                        == #[trigger] rest[i].links[j].target && b.target.len() > 0 && (forall|m: int|
                        0 <= m < ns.len() ==> key_of(#[trigger] ns[m].name) != key_of(b.target));
                assert(prefix[i] == rest[i]);
                assert(prefix[i].links[j] == rest[i].links[j]);
            } else {
                let y = x - before.len();
                assert(mine[y] == b);
                let l = f[y];
                assert(pred(l));
                assert(n.links.filter(pred).contains(l));
                n.links.lemma_filter_contains_rev(pred, l);
                let j = choose|j: int| 0 <= j < n.links.len() && n.links[j] == l;
                let i = prefix.len() - 1;
                assert(prefix[i] == n);
                assert(b.source == prefix[i].name && b.target == prefix[i].links[j].target);
                assert forall|m: int| 0 <= m < ns.len() implies key_of(#[trigger] ns[m].name) != key_of(b.target) by {
                    if key_of(ns[m].name) == key_of(b.target) {
                        assert(has_key(ns[m], key_of(l.target)));
                    }
                }
            }
        }
    }
}

/// An orphan links to no note of the vault, and no note of the vault links
/// to it; and every note with neither kind of link is an orphan.
pub proof fn lemma_orphans_are_unlinked(ns: Seq<NoteView>)
    ensures
        forall|k: int, j: int, m: int|
            #![trigger orphans_of(ns)[k].links[j], ns[m]]
            0 <= k < orphans_of(ns).len() && 0 <= j < orphans_of(ns)[k].links.len() && orphans_of(ns)[k].links[j].target.len()
                > 0 && 0 <= m < ns.len() ==> key_of(ns[m].name) != key_of(orphans_of(ns)[k].links[j].target),
        forall|k: int, m: int, j: int|
            #![trigger orphans_of(ns)[k], ns[m].links[j]]
            0 <= k < orphans_of(ns).len() && 0 <= m < ns.len() && 0 <= j < ns[m].links.len() ==> key_of(
                ns[m].links[j].target,
            ) != key_of(orphans_of(ns)[k].name),
        forall|i: int|
            0 <= i < ns.len() && (forall|j: int, m: int|
                #![trigger ns[i].links[j], ns[m]]
                0 <= j < ns[i].links.len() && ns[i].links[j].target.len() > 0 && 0 <= m < ns.len() ==> key_of(ns[m].name)
                    != key_of(ns[i].links[j].target)) && (forall|m: int, j: int|
                #![trigger ns[m].links[j]]
                0 <= m < ns.len() && 0 <= j < ns[m].links.len() ==> key_of(ns[m].links[j].target) != key_of(
                    ns[i].name,
                )) ==> #[trigger] orphans_of(ns).contains(ns[i]),
{
    broadcast use vstd::seq_lib::group_filter_ensures;

    let pred = |n: NoteView| !has_outgoing(n, ns) && !has_incoming(n, ns);
    assert forall|k: int, j: int, m: int|
        #![trigger orphans_of(ns)[k].links[j], ns[m]]
        0 <= k < orphans_of(ns).len() && 0 <= j < orphans_of(ns)[k].links.len() && orphans_of(ns)[k].links[j].target.len()
            > 0 && 0 <= m < ns.len() implies key_of(ns[m].name) != key_of(orphans_of(ns)[k].links[j].target) by {
        let o = orphans_of(ns)[k];
        assert(pred(o));
        assert(!has_outgoing(o, ns));
        assert(find_note(ns, key_of(o.links[j].target)) is None);
        if key_of(ns[m].name) == key_of(o.links[j].target) {
            assert(has_key(ns[m], key_of(o.links[j].target)));
        }
    }
    assert forall|k: int, m: int, j: int|
        #![trigger orphans_of(ns)[k], ns[m].links[j]]
        0 <= k < orphans_of(ns).len() && 0 <= m < ns.len() && 0 <= j < ns[m].links.len() implies key_of(
            ns[m].links[j].target,
        ) != key_of(orphans_of(ns)[k].name) by {
        let o = orphans_of(ns)[k];
        assert(pred(o));
        assert(!has_incoming(o, ns));
        if key_of(ns[m].links[j].target) == key_of(o.name) {
            assert(links_to(ns[m], key_of(o.name)));
        }
    }
    assert forall|i: int|
        0 <= i < ns.len() && (forall|j: int, m: int|
            #![trigger ns[i].links[j], ns[m]]
            0 <= j < ns[i].links.len() && ns[i].links[j].target.len() > 0 && 0 <= m < ns.len() ==> key_of(ns[m].name)
                != key_of(ns[i].links[j].target)) && (forall|m: int, j: int|
            #![trigger ns[m].links[j]]
            0 <= m < ns.len() && 0 <= j < ns[m].links.len() ==> key_of(ns[m].links[j].target) != key_of(
                ns[i].name,
            )) implies #[trigger] orphans_of(ns).contains(ns[i]) by {
        let n = ns[i];
        if has_outgoing(n, ns) {
            let j = choose|j: int|
                0 <= j < n.links.len() && (#[trigger] n.links[j]).target.len() > 0 && find_note(
                    ns,
                    key_of(n.links[j].target),
                ) is Some;
            let w = choose|w: int| 0 <= w < ns.len() && #[trigger] has_key(ns[w], key_of(n.links[j].target));
            assert(key_of(ns[w].name) == key_of(n.links[j].target));
        }
        if has_incoming(n, ns) {
            let m = choose|m: int| 0 <= m < ns.len() && links_to(#[trigger] ns[m], key_of(n.name));
            let j = choose|j: int| 0 <= j < ns[m].links.len() && key_of(#[trigger] ns[m].links[j].target) == key_of(
                n.name,
            );
            assert(key_of(ns[m].links[j].target) != key_of(n.name));
        }
        assert(pred(n));
        ns.lemma_filter_contains(pred, i);
    }
}

/// Characters a note name cannot hold, in the order they are checked.
pub open spec fn invalid_name_chars() -> Seq<char> {
    seq!['/', '\\', ':', '*', '?', '"', '<', '>', '|']
}

/// The first of `cs` that occurs in `t`.
pub open spec fn first_contained(t: Seq<char>, cs: Seq<char>) -> Option<char>
    decreases cs.len(),
{
    if cs.len() == 0 {
        None
    } else if t.contains(cs[0]) {
        Some(cs[0])
    } else {
        first_contained(t, cs.drop_first())
    }
}

/// What is wrong with a note name, if anything, as the message of the error:
/// checked on the trimmed name, in this order: empty; over 200 characters;
/// a leading dot; one of [`invalid_name_chars`]; a `..`.
pub open spec fn name_problem(name: Seq<char>) -> Option<Seq<char>> {
    let t = trim(name);
    if t.len() == 0 {
        Some("Note name cannot be empty"@)
    } else if t.len() > 200 {
        Some("Note name must be 200 characters or less"@)
    } else if t[0] == '.' {
        Some("Note name cannot start with a dot"@)
    } else if first_contained(t, invalid_name_chars()) is Some {
        Some("Note name cannot contain '"@ + seq![first_contained(t, invalid_name_chars())->0] + "'"@)
    } else if contains(t, seq!['.', '.']) {
        Some("Note name cannot contain '..'"@)
    } else {
        None
    }
}

/// A broken link (link to a non-existent note).
#[derive(Debug, Clone, PartialEq, Eq)]
pub struct BrokenLink {
    /// The note containing the broken link.
    pub source: String,
    /// The non-existent target.
    pub target: String,
}

impl View for BrokenLink {
    type V = BrokenLinkView;

    open spec fn view(&self) -> BrokenLinkView {
        BrokenLinkView { source: self.source@, target: self.target@ }
    }
}

/// Whether `note` links to a note with key `key`.
fn note_links_to(note: &Note, key: &String) -> (b: bool)
    ensures
        b == links_to(note@, key@),
{
    let mut j: usize = 0;
    while j < note.links.len()
        invariant
            j <= note.links@.len(),
            forall|k: int| 0 <= k < j ==> key_of(#[trigger] note@.links[k].target) != key@,
        decreases note.links@.len() - j,
    {
        let lk = to_lowercase(note.links[j].target.as_str());
        if lk == *key {
            assert(key_of(note@.links[j as int].target) == key@);
            return true;
        }
        j = j + 1;
    }
    false
}

/// Whether `c` occurs in `t`.
fn has_char(t: &[char], c: char) -> (b: bool)
    ensures
        b == t@.contains(c),
{
    let mut i: usize = 0;
    while i < t.len()
        invariant
            i <= t@.len(),
            forall|k: int| 0 <= k < i ==> t@[k] != c,
        decreases t@.len() - i,
    {
        if t[i] == c {
            return true;
        }
        i = i + 1;
    }
    false
}

/// A knowledge vault containing markdown notes.
#[derive(Debug)]
pub struct Vault {
    /// Path to the vault root directory.
    path: String,
    /// Indexed notes with their lookup keys (lowercase names).
    entries: Vec<(String, Note)>,
    /// Whether the vault has been indexed.
    indexed: bool,
}

/// The notes held by a list of keyed entries.
pub open spec fn entry_notes(es: Seq<(String, Note)>) -> Seq<NoteView> {
    es.map_values(|e: (String, Note)| e.1@)
}

impl Vault {
    #[verifier::type_invariant]
    closed spec fn inv(self) -> bool {
        &&& forall|i: int|
            0 <= i < self.entries@.len() ==> (#[trigger] self.entries@[i]).0@ == key_of(
                self.entries@[i].1.name@,
            )
        &&& distinct_keys(entry_notes(self.entries@))
    }

    /// The notes of the vault, in order.
    pub closed spec fn notes_view(&self) -> Seq<NoteView> {
        entry_notes(self.entries@)
    }

    /// The vault root path.
    pub closed spec fn root(&self) -> Seq<char> {
        self.path@
    }

    /// Whether the vault has been indexed.
    pub closed spec fn indexed(&self) -> bool {
        self.indexed
    }

    /// The notes of a vault always have distinct keys.
    pub fn keys_are_distinct(&self)
        ensures
            distinct_keys(self.notes_view()),
    {
        proof {
            use_type_invariant(self);
        }
    }

    /// Create a new vault at the given path.
    pub fn new(path: &str) -> (v: Self)
        ensures
            v.root() == path@,
            v.notes_view() == Seq::<NoteView>::empty(),
            !v.indexed(),
    {
        let v = Self { path: path.to_owned(), entries: Vec::new(), indexed: false };
        assert(v.notes_view() =~= Seq::<NoteView>::empty());
        v
    }

    /// Get the vault root path.
    pub fn path(&self) -> (p: &str)
        ensures
            p@ == self.root(),
    {
        self.path.as_str()
    }

    /// Check if the vault has been indexed.
    pub fn is_indexed(&self) -> (b: bool)
        ensures
            b == self.indexed(),
    {
        self.indexed
    }

    /// The position of the note with lookup key `key`.
    fn position(&self, key: &String) -> (r: Option<usize>)
        ensures
            match r {
                Some(i) => find_note(self.notes_view(), key@) == Some(i as int),
                None => find_note(self.notes_view(), key@) is None,
            },
    {
        proof {
            use_type_invariant(self);
        }
        let mut i: usize = 0;
        while i < self.entries.len()
            invariant
                i <= self.entries@.len(),
                forall|j: int| 0 <= j < i ==> !(#[trigger] has_key(self.notes_view()[j], key@)),
                forall|j: int|
                    0 <= j < self.entries@.len() ==> (#[trigger] self.entries@[j]).0@ == key_of(
                        self.entries@[j].1.name@,
                    ),
                distinct_keys(self.notes_view()),
            decreases self.entries@.len() - i,
        {
            if self.entries[i].0 == *key {
                assert(has_key(self.notes_view()[i as int], key@));
                proof {
                    lemma_find_note_unique(self.notes_view(), key@, i as int);
                }
                return Some(i);
            }
            assert(!has_key(self.notes_view()[i as int], key@));
            i = i + 1;
        }
        assert forall|j: int| 0 <= j < self.notes_view().len() implies !(#[trigger] has_key(
            self.notes_view()[j],
            key@,
        )) by {}
        None
    }

    /// Add a note, replacing the note with the same key.
    fn insert(&mut self, note: Note)
        ensures
            final(self).notes_view() == insert_note(old(self).notes_view(), note@),
            final(self).root() == old(self).root(),
            final(self).indexed() == old(self).indexed(),
    {
        proof {
            use_type_invariant(&*self);
        }
        let key = to_lowercase(note.name.as_str());
        let pos = self.position(&key);
        let ghost nv = note@;
        let ghost old_notes = self.notes_view();
        proof {
            lemma_insert_distinct(old_notes, nv);
        }
        let mut entries: Vec<(String, Note)> = Vec::new();
        std::mem::swap(&mut entries, &mut self.entries);
        assert(entry_notes(entries@) == old_notes);
        match pos {
            Some(i) => {
                entries.set(i, (key, note));
                assert(entry_notes(entries@) =~= old_notes.update(i as int, nv));
            },
            None => {
                entries.push((key, note));
                assert(entry_notes(entries@) =~= old_notes.push(nv));
            },
        }
        self.entries = entries;
    }

    /// Index the given files: the vault then holds exactly the notes parsed
    /// from the markdown files among them (a later file replaces an earlier
    /// one with the same key).
    pub fn index(&mut self, files: Vec<NoteSource>)
        ensures
            final(self).notes_view() == indexed_notes(files@.map_values(|f: NoteSource| f@)),
            final(self).indexed(),
            final(self).root() == old(self).root(),
    {
        let ghost fv = files@.map_values(|f: NoteSource| f@);
        self.entries = Vec::new();
        assert(self.notes_view() =~= Seq::<NoteView>::empty());
        let mut i: usize = 0;
        assert(fv.take(0) =~= Seq::<NoteSourceView>::empty());
        while i < files.len()
            invariant
                i <= files@.len(),
                fv == files@.map_values(|f: NoteSource| f@),
                self.notes_view() == indexed_notes(fv.take(i as int)),
                self.root() == old(self).root(),
            decreases files@.len() - i,
        {
            if has_markdown_extension(files[i].path.as_str()) {
                let note = Note::from_source(&files[i]);
                self.insert(note);
            }
            assert(fv.take(i + 1).drop_last() == fv.take(i as int));
            assert(fv.take(i + 1).last() == files@[i as int]@);
            i = i + 1;
        }
        assert(fv.take(files@.len() as int) == fv);
        proof {
            use_type_invariant(&*self);
        }
        self.indexed = true;
    }

    /// Ensure the vault is indexed: when it is not yet, index the files that
    /// `read` gives (an error of `read` is passed on and leaves the vault as
    /// it was).
    pub fn ensure_indexed<F: FnOnce() -> Result<Vec<NoteSource>, VaultError>>(&mut self, read: F) -> (r: Result<
        (),
        VaultError,
    >)
        requires
            !old(self).indexed() ==> read.requires(()),
        ensures
            final(self).root() == old(self).root(),
            old(self).indexed() ==> r is Ok && final(self).notes_view() == old(self).notes_view()
                && final(self).indexed(),
            !old(self).indexed() ==> exists|res: Result<Vec<NoteSource>, VaultError>|
                #[trigger] read.ensures((), res) && match res {
                    Ok(files) => r is Ok && final(self).indexed() && final(self).notes_view() == indexed_notes(
                        files@.map_values(|f: NoteSource| f@),
                    ),
                    Err(e) => r == Err::<(), VaultError>(e) && !final(self).indexed() && final(self).notes_view()
                        == old(self).notes_view(),
                },
    {
        if self.indexed {
            return Ok(());
        }
        let res = read();
        match res {
            Ok(files) => {
                self.index(files);
                Ok(())
            },
            Err(e) => Err(e),
        }
    }

    /// Add or update a single note from its file. Only markdown files are
    /// taken; any other file leaves the vault unchanged.
    pub fn upsert_note(&mut self, source: NoteSource)
        ensures
            final(self).notes_view() == take_file(old(self).notes_view(), source@),
            final(self).root() == old(self).root(),
            final(self).indexed() == old(self).indexed(),
    {
        if has_markdown_extension(source.path.as_str()) {
            let note = Note::from_source(&source);
            self.insert(note);
        }
    }

    /// Remove a note from the index by name (case-insensitive).
    pub fn remove_note(&mut self, name: &str)
        ensures
            final(self).notes_view() == remove_note_key(old(self).notes_view(), key_of(name@)),
            final(self).root() == old(self).root(),
            final(self).indexed() == old(self).indexed(),
    {
        proof {
            use_type_invariant(&*self);
        }
        let key = to_lowercase(name);
        let pos = self.position(&key);
        let ghost old_notes = self.notes_view();
        proof {
            lemma_remove_distinct(old_notes, key@);
        }
        if let Some(i) = pos {
            let mut entries: Vec<(String, Note)> = Vec::new();
            std::mem::swap(&mut entries, &mut self.entries);
            assert(entry_notes(entries@) == old_notes);
            entries.remove(i);
            assert(entry_notes(entries@) =~= old_notes.remove(i as int));
            self.entries = entries;
        }
    }

    /// Remove a note from the index by the path of its file.
    pub fn remove_note_by_path(&mut self, path: &str)
        ensures
            final(self).notes_view() == match file_stem(path@) {
                Some(name) => remove_note_key(old(self).notes_view(), key_of(name)),
                None => old(self).notes_view(),
            },
            final(self).root() == old(self).root(),
            final(self).indexed() == old(self).indexed(),
    {
        if let Some(name) = path_file_stem(path) {
            self.remove_note(name.as_str());
        }
    }

    /// Get a note by name (case-insensitive).
    pub fn get_note(&self, name: &str) -> (r: Option<&Note>)
        ensures
            match find_note(self.notes_view(), key_of(name@)) {
                Some(i) => r is Some && r->0@ == self.notes_view()[i],
                None => r is None,
            },
    {
        let key = to_lowercase(name);
        match self.position(&key) {
            Some(i) => Some(&self.entries[i].1),
            None => None,
        }
    }

    /// Check if a note exists (case-insensitive).
    pub fn note_exists(&self, name: &str) -> (b: bool)
        ensures
            b == find_note(self.notes_view(), key_of(name@)) is Some,
    {
        let key = to_lowercase(name);
        self.position(&key).is_some()
    }

    /// Get the number of notes in the vault.
    pub fn note_count(&self) -> (n: usize)
        ensures
            n == self.notes_view().len(),
    {
        self.entries.len()
    }

    /// Get all notes in the vault, in order.
    pub fn notes(&self) -> (r: Vec<&Note>)
        ensures
            r@.map_values(|n: &Note| n@) == self.notes_view(),
    {
        let mut r: Vec<&Note> = Vec::new();
        let mut i: usize = 0;
        while i < self.entries.len()
            invariant
                i <= self.entries@.len(),
                r@.map_values(|n: &Note| n@) == self.notes_view().take(i as int),
            decreases self.entries@.len() - i,
        {
            let ghost rv = r@.map_values(|n: &Note| n@);
            r.push(&self.entries[i].1);
            assert(r@.map_values(|n: &Note| n@) =~= rv.push(self.notes_view()[i as int]));
            assert(self.notes_view().take(i + 1) =~= self.notes_view().take(i as int).push(self.notes_view()[i as int]));
            i = i + 1;
        }
        assert(self.notes_view().take(self.notes_view().len() as int) == self.notes_view());
        r
    }

    /// Get all note names, in order.
    pub fn note_names(&self) -> (r: Vec<&str>)
        ensures
            r@.len() == self.notes_view().len(),
            forall|i: int| 0 <= i < r@.len() ==> r@[i]@ == self.notes_view()[i].name,
    {
        let mut r: Vec<&str> = Vec::new();
        let mut i: usize = 0;
        while i < self.entries.len()
            invariant
                i <= self.entries@.len(),
                r@.len() == i,
                forall|j: int| 0 <= j < i ==> r@[j]@ == self.notes_view()[j].name,
            decreases self.entries@.len() - i,
        {
            r.push(self.entries[i].1.name.as_str());
            i = i + 1;
        }
        r
    }

    /// Check if a note needs re-indexing, given the current modification time
    /// of its file (`None` when it could not be read): it does unless the
    /// vault has the note and the file is not newer than it.
    pub fn note_needs_update(&self, path: &str, mtime: Option<u128>) -> (b: bool)
        ensures
            b == match file_stem(path@) {
                None => true,
                Some(name) => match find_note(self.notes_view(), key_of(name)) {
                    None => true,
                    Some(i) => match mtime {
                        Some(m) => m > self.notes_view()[i].modified,
                        None => true,
                    },
                },
            },
    {
        let name = match path_file_stem(path) {
            Some(n) => n,
            None => return true,
        };
        match self.get_note(name.as_str()) {
            Some(note) => match mtime {
                Some(m) => m > note.modified,
                None => true,
            },
            None => true,
        }
    }

    /// Get the file path for a note (doesn't check if it exists).
    pub fn note_path(&self, name: &str) -> (p: String)
        ensures
            p@ == join(self.root(), name@ + ".md"@),
    {
        let mut file = name.to_owned();
        file.append(".md");
        path_join(self.path.as_str(), file.as_str())
    }
    /// Validate a note name for safety and convention.
    ///
    /// Rules (on the trimmed name):
    /// - Must not be empty
    /// - Must be 200 characters or less
    /// - Must not start with a dot (hidden files)
    /// - Must not contain path separators (/, \) or other invalid filename
    ///   characters (:, *, ?, ", <, >, |)
    /// - Must not contain `..` (path traversal)
    pub fn validate_note_name(name: &str) -> (r: Result<(), VaultError>)
        ensures
            match name_problem(name@) {
                Some(msg) => r matches Err(VaultError::InvalidNoteName(m)) && m@ == msg,
                None => r is Ok,
            },
    {
        let nv = chars_of(name);
        let tv = trim_chars(nv.as_slice());
        let t = string_of(tv.as_slice());
        if tv.len() == 0 {
            return Err(VaultError::InvalidNoteName(String::from_str("Note name cannot be empty")));
        }
        if tv.len() > 200 {
            return Err(
                VaultError::InvalidNoteName(String::from_str("Note name must be 200 characters or less")),
            );
        }
        if tv[0] == '.' {
            return Err(VaultError::InvalidNoteName(String::from_str("Note name cannot start with a dot")));
        }
        let invalid = vec!['/', '\\', ':', '*', '?', '"', '<', '>', '|'];
        assert(invalid@ == invalid_name_chars());
        let mut k: usize = 0;
        assert(invalid@.skip(0) == invalid@);
        while k < invalid.len()
            invariant
                k <= invalid@.len(),
                invalid@ == invalid_name_chars(),
                tv@ == trim(name@),
                tv@.len() > 0,
                tv@.len() <= 200,
                tv@[0] != '.',
                first_contained(tv@, invalid@) == first_contained(tv@, invalid@.skip(k as int)),
            decreases invalid@.len() - k,
        {
            let c = invalid[k];
            assert(invalid@.skip(k as int)[0] == c);
            assert(invalid@.skip(k as int).drop_first() == invalid@.skip(k + 1));
            if has_char(tv.as_slice(), c) {
                assert(first_contained(tv@, invalid@) == Some(c));
                let mut m = String::from_str("Note name cannot contain '");
                m.push(c);
                m.append("'");
                assert(m@ == "Note name cannot contain '"@ + seq![c] + "'"@);
                return Err(VaultError::InvalidNoteName(m));
            }
            k = k + 1;
        }
        assert(invalid@.skip(invalid@.len() as int).len() == 0);
        let dots = vec!['.', '.'];
        assert(dots@ == seq!['.', '.']);
        if contains_chars(tv.as_slice(), dots.as_slice()) {
            return Err(VaultError::InvalidNoteName(String::from_str("Note name cannot contain '..'")));
        }
        Ok(())
    }

    /// The file path for a new or existing note, once its name is valid.
    pub fn checked_note_path(&self, name: &str) -> (r: Result<String, VaultError>)
        ensures
            match name_problem(name@) {
                Some(msg) => r matches Err(VaultError::InvalidNoteName(m)) && m@ == msg,
                None => r matches Ok(p) && p@ == join(self.root(), name@ + ".md"@),
            },
    {
        Self::validate_note_name(name)?;
        Ok(self.note_path(name))
    }

    /// Get backlinks to a note: the notes (in order) that link to it.
    pub fn backlinks(&self, name: &str) -> (r: Vec<&Note>)
        ensures
            r@.map_values(|n: &Note| n@) == backlinks_of(self.notes_view(), name@),
    {
        let key = to_lowercase(name);
        let ghost ns = self.notes_view();
        let ghost pred = |n: NoteView| links_to(n, key_of(name@));
        let mut r: Vec<&Note> = Vec::new();
        let mut i: usize = 0;
        while i < self.entries.len()
            invariant
                i <= self.entries@.len(),
                ns == self.notes_view(),
                key@ == key_of(name@),
                pred == (|n: NoteView| links_to(n, key_of(name@))),
                r@.map_values(|n: &Note| n@) == ns.take(i as int).filter(pred),
            decreases self.entries@.len() - i,
        {
            let note = &self.entries[i].1;
            let ghost rv = r@.map_values(|n: &Note| n@);
            assert(ns.take(i + 1) == ns.take(i as int).push(ns[i as int]));
            assert(ns[i as int] == note@);
            proof {
                ns.take(i as int).lemma_filter_push(ns[i as int], pred);
            }
            if note_links_to(note, &key) {
                r.push(note);
                assert(r@.map_values(|n: &Note| n@) =~= rv.push(note@));
            }
            i = i + 1;
        }
        assert(ns.take(ns.len() as int) == ns);
        r
    }

    /// Find broken links (links to non-existent notes), note by note.
    pub fn broken_links(&self) -> (r: Vec<BrokenLink>)
        ensures
            r@.map_values(|b: BrokenLink| b@) == broken_in(self.notes_view(), self.notes_view()),
    {
        let ghost ns = self.notes_view();
        let mut r: Vec<BrokenLink> = Vec::new();
        let mut i: usize = 0;
        assert(ns.take(0) =~= Seq::<NoteView>::empty());
        while i < self.entries.len()
            invariant
                i <= self.entries@.len(),
                ns == self.notes_view(),
                r@.map_values(|b: BrokenLink| b@) == broken_in(ns.take(i as int), ns),
            decreases self.entries@.len() - i,
        {
            let note = &self.entries[i].1;
            let ghost before = r@.map_values(|b: BrokenLink| b@);
            let ghost nv = note@;
            let ghost pred = |l: WikiLinkView| is_broken(l, ns);
            let ghost f = |l: WikiLinkView| BrokenLinkView { source: nv.name, target: l.target };
            assert(ns[i as int] == nv);
            let mut j: usize = 0;
            assert(nv.links.take(0) =~= Seq::<WikiLinkView>::empty());
            assert(nv.links.take(0).filter(pred) =~= Seq::<WikiLinkView>::empty()) by {
                reveal(Seq::filter);
            }
            assert(before + broken_of(nv, nv.links.take(0), ns) =~= before);
            while j < note.links.len()
                invariant
                    j <= note.links@.len(),
                    nv == note@,
                    ns == self.notes_view(),
                    pred == (|l: WikiLinkView| is_broken(l, ns)),
                    f == (|l: WikiLinkView| BrokenLinkView { source: nv.name, target: l.target }),
                    r@.map_values(|b: BrokenLink| b@) == before + broken_of(nv, nv.links.take(j as int), ns),
                decreases note.links@.len() - j,
            {
                let link = &note.links[j];
                let ghost lv = link@;
                assert(nv.links[j as int] == lv);
                assert(nv.links.take(j + 1) == nv.links.take(j as int).push(lv));
                proof {
                    nv.links.take(j as int).lemma_filter_push(lv, pred);
                }
                let ghost rv = r@.map_values(|b: BrokenLink| b@);
                if !link.target.as_str().is_empty() && !self.note_exists(link.target.as_str()) {
                    assert(link.target@.len() > 0);
                    let b = BrokenLink { source: note.name.clone(), target: link.target.clone() };
                    r.push(b);
                    assert(r@.map_values(|b: BrokenLink| b@) =~= rv.push(f(lv)));
                    assert(nv.links.take(j as int).filter(pred).push(lv).map_values(f)
                        =~= nv.links.take(j as int).filter(pred).map_values(f).push(f(lv)));
                } else {
                    assert(!is_broken(lv, ns)) by {
                        if link.target@.len() == 0 {
                        }
                    }
                }
                j = j + 1;
            }
            assert(nv.links.take(nv.links.len() as int) == nv.links);
            assert(ns.take(i + 1).drop_last() == ns.take(i as int));
            assert(ns.take(i + 1).last() == nv);
            i = i + 1;
        }
        assert(ns.take(ns.len() as int) == ns);
        r
    }

    /// Whether `note` links to some note of the vault.
    fn note_has_outgoing(&self, note: &Note) -> (b: bool)
        ensures
            b == has_outgoing(note@, self.notes_view()),
    {
        let mut j: usize = 0;
        while j < note.links.len()
            invariant
                j <= note.links@.len(),
                forall|k: int|
                    0 <= k < j ==> !((#[trigger] note@.links[k]).target.len() > 0 && find_note(
                        self.notes_view(),
                        key_of(note@.links[k].target),
                    ) is Some),
            decreases note.links@.len() - j,
        {
            if !note.links[j].target.as_str().is_empty() && self.note_exists(note.links[j].target.as_str()) {
                assert(note@.links[j as int].target.len() > 0);
                return true;
            }
            assert(note.links@[j as int]@ == note@.links[j as int]);
            j = j + 1;
        }
        false
    }

    /// Whether some note of the vault links to `note`.
    fn note_has_incoming(&self, note: &Note) -> (b: bool)
        ensures
            b == has_incoming(note@, self.notes_view()),
    {
        let key = to_lowercase(note.name.as_str());
        let mut k: usize = 0;
        while k < self.entries.len()
            invariant
                k <= self.entries@.len(),
                key@ == key_of(note@.name),
                forall|m: int| 0 <= m < k ==> !links_to(#[trigger] self.notes_view()[m], key@),
            decreases self.entries@.len() - k,
        {
            if note_links_to(&self.entries[k].1, &key) {
                assert(links_to(self.notes_view()[k as int], key@));
                return true;
            }
            k = k + 1;
        }
        false
    }

    /// Find orphan notes (notes with no incoming or outgoing links).
    pub fn orphans(&self) -> (r: Vec<&Note>)
        ensures
            r@.map_values(|n: &Note| n@) == orphans_of(self.notes_view()),
    {
        let ghost ns = self.notes_view();
        let ghost pred = |n: NoteView| !has_outgoing(n, ns) && !has_incoming(n, ns);
        let mut r: Vec<&Note> = Vec::new();
        let mut i: usize = 0;
        while i < self.entries.len()
            invariant
                i <= self.entries@.len(),
                ns == self.notes_view(),
                pred == (|n: NoteView| !has_outgoing(n, ns) && !has_incoming(n, ns)),
                r@.map_values(|n: &Note| n@) == ns.take(i as int).filter(pred),
            decreases self.entries@.len() - i,
        {
            let note = &self.entries[i].1;
            let ghost rv = r@.map_values(|n: &Note| n@);
            assert(ns.take(i + 1) == ns.take(i as int).push(ns[i as int]));
            assert(ns[i as int] == note@);
            proof {
                ns.take(i as int).lemma_filter_push(ns[i as int], pred);
            }
            if !self.note_has_outgoing(note) && !self.note_has_incoming(note) {
                r.push(note);
                assert(r@.map_values(|n: &Note| n@) =~= rv.push(note@));
            }
            i = i + 1;
        }
        assert(ns.take(ns.len() as int) == ns);
        r
    }
}

} // verus!
