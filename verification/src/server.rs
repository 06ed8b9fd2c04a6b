//! The decisions of the knowledge server's tools.
//!
//! Which notes a file change touches, whether content may be shown, how a
//! confirmation answer is taken, how notes are ranked in semantic search and
//! what a note's details list; the server runs the I/O around them.

use vstd::prelude::*;
use crate::config::Config;
use crate::embedding::EmbeddingTextConfig;
use crate::filter::{matched_keywords, SensitiveDataFilter};
use crate::graph::{find_name, in_neighbors, names_at, out_neighbors, KnowledgeGraph};
use crate::order::{sort_dedup, sorted_set};
use crate::paths::{file_stem, path_file_stem};
use crate::text::{chars_of, eq_chars, join, join_strs, push_chars, string_of, strs, trim, trim_chars};
use crate::vault::note::{Note, NoteView, WikiLinkView};
use crate::vault::{find_note, key_of, remove_note_key, take_file, NoteSource, Vault};
use std::path::Path;

verus! {

/// The targets of the links with a target, in order.
pub open spec fn nonempty_targets(links: Seq<WikiLinkView>) -> Seq<Seq<char>>
    decreases links.len(),
{
    if links.len() == 0 {
        Seq::empty()
    } else {
        let r = nonempty_targets(links.drop_last());
        if links.last().target.len() > 0 {
            r.push(links.last().target)
        } else {
            r
        }
    }
}

/// The names of the notes a note links to (links within the note itself
/// left out), in link order.
pub fn note_link_names(note: &Note) -> (r: Vec<String>)
    ensures
        strs(r@) == nonempty_targets(note@.links),
{
    let mut r: Vec<String> = Vec::new();
    let mut i: usize = 0;
    while i < note.links.len()
        invariant
            i <= note.links@.len(),
            strs(r@) == nonempty_targets(note@.links.take(i as int)),
        decreases note.links@.len() - i,
    {
        let ghost lv = note@.links[i as int];
        assert(note.links@[i as int]@ == lv);
        assert(note@.links.take(i + 1).drop_last() == note@.links.take(i as int));
        assert(note@.links.take(i + 1).last() == lv);
        if !note.links[i].target.as_str().is_empty() {
            let ghost before = strs(r@);
            r.push(note.links[i].target.clone());
            assert(strs(r@) =~= before.push(lv.target));
        }
        i = i + 1;
    }
    assert(note@.links.take(note@.links.len() as int) == note@.links);
    r
}

/// The notes a change touches: the changed note itself (when named), and
/// every note linked from it before or after the change; each once, sorted.
pub open spec fn impacted_of(changed: Option<Seq<char>>, before: Seq<Seq<char>>, after: Seq<Seq<char>>) -> Seq<Seq<char>> {
    let own = match changed {
        Some(n) => seq![n],
        None => Seq::empty(),
    };
    sorted_set(own + before + after)
}

/// The notes a change touches, each once, in sorted order.
pub fn impacted_notes(changed: &Option<String>, before: &Vec<String>, after: &Vec<String>) -> (r: Vec<String>)
    ensures
        strs(r@) == impacted_of(
            match *changed {
                Some(n) => Some(n@),
                None => None,
            },
            strs(before@),
            strs(after@),
        ),
{
    let mut all: Vec<String> = Vec::new();
    match changed {
        Some(n) => {
            let c = n.clone();
            all.push(c);
            assert(strs(all@) =~= seq![n@]);
        },
        None => {
            assert(strs(all@) =~= Seq::<Seq<char>>::empty());
        },
    }
    let ghost own = strs(all@);
    let mut i: usize = 0;
    while i < before.len()
        invariant
            i <= before@.len(),
            strs(all@) == own + strs(before@).take(i as int),
        decreases before@.len() - i,
    {
        let ghost prev = strs(all@);
        let c = before[i].clone();
        all.push(c);
        assert(strs(all@) =~= prev.push(before@[i as int]@));
        assert(strs(before@).take(i + 1) == strs(before@).take(i as int).push(before@[i as int]@));
        assert(strs(all@) =~= own + strs(before@).take(i + 1));
        i = i + 1;
    }
    assert(strs(before@).take(before@.len() as int) == strs(before@));
    let ghost mid = strs(all@);
    let mut j: usize = 0;
    while j < after.len()
        invariant
            j <= after@.len(),
            strs(all@) == mid + strs(after@).take(j as int),
        decreases after@.len() - j,
    {
        let ghost prev = strs(all@);
        let c = after[j].clone();
        all.push(c);
        assert(strs(all@) =~= prev.push(after@[j as int]@));
        assert(strs(after@).take(j + 1) == strs(after@).take(j as int).push(after@[j as int]@));
        assert(strs(all@) =~= mid + strs(after@).take(j + 1));
        j = j + 1;
    }
    assert(strs(after@).take(after@.len() as int) == strs(after@));
    assert(strs(all@) == own + strs(before@) + strs(after@));
    sort_dedup(all.as_slice())
}

/// What the server does after a file change: drop the cached content of
/// `changed_note` (when named), drop its embeddings too when
/// `remove_embeddings`, and embed the `impacted` notes again.
#[derive(Debug, Clone)]
pub struct ChangeActions {
    pub changed_note: Option<String>,
    pub remove_embeddings: bool,
    pub impacted: Vec<String>,
}

/// The link targets of the note named `name` in `ns`, if there is one.
pub open spec fn targets_of_named(ns: Seq<NoteView>, name: Option<Seq<char>>) -> Seq<Seq<char>> {
    match name {
        Some(n) => match find_note(ns, key_of(n)) {
            Some(i) => nonempty_targets(ns[i].links),
            None => Seq::empty(),
        },
        None => Seq::empty(),
    }
}

/// The link targets of the note named `name` in the vault, if there is one.
fn vault_targets(vault: &Vault, name: &Option<String>) -> (r: Vec<String>)
    ensures
        strs(r@) == targets_of_named(
            vault.notes_view(),
            match *name {
                Some(n) => Some(n@),
                None => None,
            },
        ),
{
    match name {
        Some(n) => match vault.get_note(n.as_str()) {
            Some(note) => note_link_names(note),
            None => {
                let r: Vec<String> = Vec::new();
                assert(strs(r@) =~= Seq::<Seq<char>>::empty());
                r
            },
        },
        None => {
            let r: Vec<String> = Vec::new();
            assert(strs(r@) =~= Seq::<Seq<char>>::empty());
            r
        },
    }
}

/// The text views of an optional string.
pub open spec fn opt_text(o: Option<String>) -> Option<Seq<char>> {
    match o {
        Some(s) => Some(s@),
        None => None,
    }
}

/// Take in a file that was created or modified (as read after the change):
/// the vault updates the note, and the note and every note it linked to
/// before or links to now are embedded again.
pub fn apply_file_update(vault: &mut Vault, source: NoteSource) -> (a: ChangeActions)
    ensures
        final(vault).notes_view() == take_file(old(vault).notes_view(), source@),
        final(vault).root() == old(vault).root(),
        final(vault).indexed() == old(vault).indexed(),
        opt_text(a.changed_note) == file_stem(source@.path),
        !a.remove_embeddings,
        strs(a.impacted@) == impacted_of(
            file_stem(source@.path),
            targets_of_named(old(vault).notes_view(), file_stem(source@.path)),
            targets_of_named(final(vault).notes_view(), file_stem(source@.path)),
        ),
{
    let name = path_file_stem(source.path.as_str());
    let before = vault_targets(vault, &name);
    vault.upsert_note(source);
    let after = vault_targets(vault, &name);
    let impacted = impacted_notes(&name, &before, &after);
    ChangeActions { changed_note: name, remove_embeddings: false, impacted }
}

/// Take in a file that was removed: the vault drops the note, its cached
/// content and embeddings are dropped, and the notes it linked to are
/// embedded again.
pub fn apply_file_removal(vault: &mut Vault, path: &str) -> (a: ChangeActions)
    ensures
        final(vault).notes_view() == match file_stem(path@) {
            Some(name) => remove_note_key(old(vault).notes_view(), key_of(name)),
            None => old(vault).notes_view(),
        },
        final(vault).root() == old(vault).root(),
        final(vault).indexed() == old(vault).indexed(),
        opt_text(a.changed_note) == file_stem(path@),
        a.remove_embeddings,
        strs(a.impacted@) == impacted_of(
            None,
            targets_of_named(old(vault).notes_view(), file_stem(path@)),
            Seq::empty(),
        ),
{
    let name = path_file_stem(path);
    let before = vault_targets(vault, &name);
    vault.remove_note_by_path(path);
    let none: Option<String> = None;
    let after: Vec<String> = Vec::new();
    assert(strs(after@) =~= Seq::<Seq<char>>::empty());
    let impacted = impacted_notes(&none, &before, &after);
    ChangeActions { changed_note: name, remove_embeddings: true, impacted }
}

/// Whether content may be shown.
#[derive(Debug, Clone, PartialEq, Eq)]
pub enum ContentGate {
    /// Nothing sensitive: show it.
    Allow,
    /// Sensitive: ask the user, with this question.
    Ask(String),
    /// Sensitive and the user cannot be asked: refuse, with this message.
    Block(String),
}

/// The question asked about content with sensitive `keywords`.
pub open spec fn ask_message(keywords: Seq<char>) -> Seq<char> {
    "This content may contain sensitive data ("@ + keywords + ").\nDo you want to proceed?"@
}

/// The refusal for content with sensitive `keywords` when the user cannot be asked.
pub open spec fn block_message(keywords: Seq<char>) -> Seq<char> {
    "This content may contain sensitive data ("@ + keywords
        + "). Your client doesn't support confirmation dialogs. Access blocked."@
}

/// Whether content may be shown: freely when no keyword matches; else the
/// user is asked when the client can ask, and the content is refused when
/// it cannot.
pub fn sensitive_gate(filter: &SensitiveDataFilter, content: &str, can_confirm: bool) -> (g: ContentGate)
    ensures
        ({
            let m = matched_keywords(filter.keywords(), content@);
            let kw = join(m, ", "@);
            if m.len() == 0 {
                g is Allow
            } else if can_confirm {
                g matches ContentGate::Ask(q) && q@ == ask_message(kw)
            } else {
                g matches ContentGate::Block(q) && q@ == block_message(kw)
            }
        }),
{
    let check = filter.check(content);
    if !check.is_sensitive {
        return ContentGate::Allow;
    }
    let keywords = join_strs(check.matched_keywords.as_slice(), ", ");
    let mut v = chars_of("This content may contain sensitive data (");
    push_chars(&mut v, chars_of(keywords.as_str()).as_slice());
    if can_confirm {
        push_chars(&mut v, chars_of(").\nDo you want to proceed?").as_slice());
        ContentGate::Ask(string_of(v.as_slice()))
    } else {
        push_chars(
            &mut v,
            chars_of("). Your client doesn't support confirmation dialogs. Access blocked.").as_slice(),
        );
        ContentGate::Block(string_of(v.as_slice()))
    }
}

/// The user's answer to a confirmation request.
#[derive(Debug, Clone)]
pub enum ConfirmationReply {
    /// Accepted, with the `confirm` field when the form held a boolean.
    Accepted(Option<bool>),
    /// Declined.
    Declined,
    /// Cancelled.
    Cancelled,
    /// The request failed, with the reason.
    Failed(String),
}

/// The message for an accepted form without a confirmation.
pub open spec fn not_confirmed_message() -> Seq<char> {
    "Access to sensitive content was not confirmed."@
}

/// Whether the answer lets the content be shown; else the message to show.
pub fn confirmation_outcome(reply: &ConfirmationReply) -> (r: Result<(), String>)
    ensures
        match *reply {
            ConfirmationReply::Accepted(Some(true)) => r is Ok,
            ConfirmationReply::Accepted(_) => r matches Err(m) && m@ == not_confirmed_message(),
            ConfirmationReply::Declined => r matches Err(m) && m@
                == "User declined to view sensitive content."@,
            ConfirmationReply::Cancelled => r matches Err(m) && m@ == "Request cancelled by user."@,
            ConfirmationReply::Failed(e) => r matches Err(m) && m@
                == "Could not confirm access to sensitive content: "@ + e@,
        },
{
    match reply {
        ConfirmationReply::Accepted(Some(true)) => Ok(()),
        ConfirmationReply::Accepted(_) => Err("Access to sensitive content was not confirmed.".to_owned()),
        ConfirmationReply::Declined => Err("User declined to view sensitive content.".to_owned()),
        ConfirmationReply::Cancelled => Err("Request cancelled by user.".to_owned()),
        ConfirmationReply::Failed(e) => {
            let mut v = chars_of("Could not confirm access to sensitive content: ");
            push_chars(&mut v, chars_of(e.as_str()).as_slice());
            Err(string_of(v.as_slice()))
        },
    }
}

/// ASCII lowercase of a character.
pub open spec fn ascii_lower(c: char) -> char {
    if 'A' <= c && c <= 'Z' {
        ((c as u32) + 32) as char
    } else {
        c
    }
}

/// `str::eq_ignore_ascii_case`: equal but for the case of ASCII letters.
pub open spec fn eq_ignore_ascii_case(a: Seq<char>, b: Seq<char>) -> bool {
    a.len() == b.len() && forall|i: int| 0 <= i < a.len() ==> ascii_lower(#[trigger] a[i]) == ascii_lower(b[i])
}

/// Whether two texts are equal but for the case of ASCII letters.
pub fn text_eq_ignore_ascii_case(a: &str, b: &str) -> (r: bool)
    ensures
        r == eq_ignore_ascii_case(a@, b@),
{
    let x = chars_of(a);
    let y = chars_of(b);
    if x.len() != y.len() {
        return false;
    }
    let mut i: usize = 0;
    while i < x.len()
        invariant
            i <= x@.len(),
            x@.len() == y@.len(),
            x@ == a@,
            y@ == b@,
            forall|k: int| 0 <= k < i ==> ascii_lower(#[trigger] x@[k]) == ascii_lower(y@[k]),
        decreases x@.len() - i,
    {
        let c = x[i];
        let d = y[i];
        let lc = if 'A' <= c && c <= 'Z' {
            ((c as u32) + 32) as u8 as char
        } else {
            c
        };
        let ld = if 'A' <= d && d <= 'Z' {
            ((d as u32) + 32) as u8 as char
        } else {
            d
        };
        if lc != ld {
            return false;
        }
        i = i + 1;
    }
    true
}

/// What `Path::components` gives for a path, each component as text.
pub uninterp spec fn components(path: Seq<char>) -> Seq<Seq<char>>;

/// `Path::components`, each converted to a string. The contract names the result.
#[verifier::external_body]
fn path_components(path: &str) -> (r: Vec<String>)
    ensures
        strs(r@) == components(path@),
{
    Path::new(path).components().map(|c| c.as_os_str().to_string_lossy().into_owned()).collect()
}

/// Whether a component of `path` is `component`, ignoring ASCII case.
pub open spec fn has_component(path: Seq<char>, component: Seq<char>) -> bool {
    exists|i: int| 0 <= i < components(path).len() && eq_ignore_ascii_case(#[trigger] components(path)[i], component)
}

/// Whether a component of `path` is `component`, ignoring ASCII case.
pub fn path_has_component(path: &str, component: &str) -> (b: bool)
    ensures
        b == has_component(path@, component@),
{
    let cs = path_components(path);
    let mut i: usize = 0;
    while i < cs.len()
        invariant
            i <= cs@.len(),
            strs(cs@) == components(path@),
            forall|k: int| 0 <= k < i ==> !eq_ignore_ascii_case(#[trigger] components(path@)[k], component@),
        decreases cs@.len() - i,
    {
        assert(cs@[i as int]@ == components(path@)[i as int]);
        if text_eq_ignore_ascii_case(cs[i].as_str(), component) {
            return true;
        }
        i = i + 1;
    }
    false
}

/// Whether a note lies in an archive folder: its score is lowered.
pub open spec fn in_archive(n: NoteView) -> bool {
    has_component(n.path, "archive"@)
}

/// Whether a note is a journal entry (named `index`, or in a `journal` or
/// `daily` folder): its score is lowered.
pub open spec fn is_journal(n: NoteView) -> bool {
    eq_ignore_ascii_case(n.name, "index"@) || has_component(n.path, "journal"@) || has_component(
        n.path,
        "daily"@,
    )
}

/// Whether a note lies in an archive folder.
pub fn note_in_archive(note: &Note) -> (b: bool)
    ensures
        b == in_archive(note@),
{
    path_has_component(note.path.as_str(), "archive")
}

/// Whether a note is a journal entry.
pub fn note_is_journal(note: &Note) -> (b: bool)
    ensures
        b == is_journal(note@),
{
    text_eq_ignore_ascii_case(note.name.as_str(), "index") || path_has_component(note.path.as_str(), "journal")
        || path_has_component(note.path.as_str(), "daily")
}

/// How many seeds of a semantic search spread their score to their neighbors.
pub const GRAPH_EXPANSION_TOP_K: usize = 5;

/// The number of results asked of the embedding index: the limit, but at
/// least four per expansion seed.
pub fn semantic_base_limit(limit: usize) -> (n: usize)
    ensures
        n == if limit > GRAPH_EXPANSION_TOP_K * 4 {
            limit as int
        } else {
            GRAPH_EXPANSION_TOP_K * 4
        },
{
    if limit > GRAPH_EXPANSION_TOP_K * 4 {
        limit
    } else {
        GRAPH_EXPANSION_TOP_K * 4
    }
}

/// Whether a query is blank, which the search tools refuse.
pub fn query_is_blank(query: &str) -> (b: bool)
    ensures
        b == (trim(query@).len() == 0),
{
    trim_chars(chars_of(query).as_slice()).len() == 0
}

/// One outgoing link of a note, with whether its target exists.
#[derive(Debug, Clone)]
pub struct LinkDetail {
    pub target: String,
    pub display: Option<String>,
    pub exists: bool,
}

/// The outgoing links of a note (links within the note itself left out),
/// each with whether the vault has its target.
pub fn link_details(vault: &Vault, note: &Note) -> (r: Vec<LinkDetail>)
    ensures
        r@.len() == nonempty_targets(note@.links).len(),
        forall|k: int| 0 <= k < r@.len() ==> {
            &&& (#[trigger] r@[k]).target@ == nonempty_targets(note@.links)[k]
            &&& r@[k].exists == find_note(vault.notes_view(), key_of(r@[k].target@)) is Some
        },
{
    let mut r: Vec<LinkDetail> = Vec::new();
    let mut i: usize = 0;
    while i < note.links.len()
        invariant
            i <= note.links@.len(),
            r@.len() == nonempty_targets(note@.links.take(i as int)).len(),
            forall|k: int| 0 <= k < r@.len() ==> {
                &&& (#[trigger] r@[k]).target@ == nonempty_targets(note@.links.take(i as int))[k]
                &&& r@[k].exists == find_note(vault.notes_view(), key_of(r@[k].target@)) is Some
            },
        decreases note.links@.len() - i,
    {
        let link = &note.links[i];
        let ghost lv = note@.links[i as int];
        assert(link@ == lv);
        assert(note@.links.take(i + 1).drop_last() == note@.links.take(i as int));
        assert(note@.links.take(i + 1).last() == lv);
        if !link.target.as_str().is_empty() {
            let exists = vault.note_exists(link.target.as_str());
            r.push(LinkDetail { target: link.target.clone(), display: link.display.clone(), exists });
        }
        i = i + 1;
    }
    assert(note@.links.take(note@.links.len() as int) == note@.links);
    r
}

/// The names of the notes that link to the note named `name`, in order.
pub fn backlink_names(vault: &Vault, name: &str) -> (r: Vec<String>)
    ensures
        strs(r@) == crate::vault::backlinks_of(vault.notes_view(), name@).map_values(|n: NoteView| n.name),
{
    let notes = vault.backlinks(name);
    let ghost want = crate::vault::backlinks_of(vault.notes_view(), name@).map_values(|n: NoteView| n.name);
    let mut r: Vec<String> = Vec::new();
    let mut i: usize = 0;
    while i < notes.len()
        invariant
            i <= notes@.len(),
            notes@.map_values(|n: &Note| n@) == crate::vault::backlinks_of(vault.notes_view(), name@),
            want == crate::vault::backlinks_of(vault.notes_view(), name@).map_values(|n: NoteView| n.name),
            strs(r@) == want.take(i as int),
        decreases notes@.len() - i,
    {
        let ghost before = strs(r@);
        let c = notes[i].name.clone();
        r.push(c);
        assert(notes@[i as int]@ == crate::vault::backlinks_of(vault.notes_view(), name@)[i as int]);
        assert(strs(r@) =~= before.push(want[i as int]));
        assert(strs(r@) =~= want.take(i + 1));
        i = i + 1;
    }
    assert(want.take(want.len() as int) == want);
    r
}

/// The names in `ns` other than `name`, in order.
pub open spec fn without_name(ns: Seq<Seq<char>>, name: Seq<char>) -> Seq<Seq<char>>
    decreases ns.len(),
{
    if ns.len() == 0 {
        Seq::empty()
    } else {
        let r = without_name(ns.drop_last(), name);
        if ns.last() == name {
            r
        } else {
            r.push(ns.last())
        }
    }
}

/// The neighbors of the note keyed like `seed` in a graph: the notes that
/// link to it, then the notes it links to.
pub open spec fn around_of(names: Seq<Seq<char>>, edges: Seq<(usize, usize)>, seed: Seq<char>) -> Seq<Seq<char>> {
    match find_name(names, key_of(seed)) {
        Some(k) => names_at(names, in_neighbors(edges, k as usize)) + names_at(
            names,
            out_neighbors(edges, k as usize),
        ),
        None => Seq::empty(),
    }
}

/// The names a seed of a semantic search passes its score on to: its
/// backlinks, then its outgoing links, each time it occurs, with the seed's
/// own name left out.
pub fn expansion_neighbors(graph: &KnowledgeGraph, seed: &str) -> (r: Vec<String>)
    ensures
        strs(r@) == without_name(around_of(graph.names(), graph.edges(), seed@), seed@),
{
    let mut all = graph.backlinks(seed);
    let mut outgoing = graph.outgoing_links(seed);
    let ghost a0 = all@;
    let ghost b0 = outgoing@;
    all.append(&mut outgoing);
    let ghost around = around_of(graph.names(), graph.edges(), seed@);
    assert(strs(all@) =~= strs(a0) + strs(b0));
    assert(strs(all@) == around);
    let seed_chars = chars_of(seed);
    let mut r: Vec<String> = Vec::new();
    let mut i: usize = 0;
    while i < all.len()
        invariant
            i <= all@.len(),
            seed_chars@ == seed@,
            strs(all@) == around,
            strs(r@) == without_name(around.take(i as int), seed@),
        decreases all@.len() - i,
    {
        let ghost before = strs(r@);
        assert(around.take(i + 1).drop_last() == around.take(i as int));
        assert(around.take(i + 1).last() == all@[i as int]@);
        let c = chars_of(all[i].as_str());
        if !eq_chars(c.as_slice(), seed_chars.as_slice()) {
            r.push(all[i].clone());
            assert(strs(r@) =~= before.push(all@[i as int]@));
        }
        i = i + 1;
    }
    assert(around.take(around.len() as int) == around);
    r
}

/// Whether the file watcher may start under `config`: refused, with the
/// reason, when the configuration disables it.
pub fn watcher_permission(config: &Config) -> (r: Result<(), String>)
    ensures
        match r {
            Ok(()) => config.enable_watcher,
            Err(m) => !config.enable_watcher && m@ == "File watcher is disabled in configuration"@,
        },
{
    if config.enable_watcher {
        Ok(())
    } else {
        Err(String::from_str("File watcher is disabled in configuration"))
    }
}

/// How notes are prepared for embedding under `config`: its chunk size,
/// with the default overlap, headings and link context.
pub fn embedding_text_config(config: &Config) -> (c: EmbeddingTextConfig)
    ensures
        c.max_content_chars == config.embedding_max_chars,
        c.chunk_overlap_chars == 200,
        c.include_headings,
        c.include_link_context,
        c.link_context_max_chars == 320,
{
    let mut c = EmbeddingTextConfig::new();
    c.max_content_chars = config.embedding_max_chars;
    c
}

} // verus!
