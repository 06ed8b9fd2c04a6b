//! Keys of stored embeddings.
//!
//! A key is `note|kind|index`: the note's name, the kind of text that was
//! embedded (`c` for a content chunk, `l` for the link context) and the
//! chunk's number. A note's embeddings are found again by the prefix
//! `note|`.

use vstd::prelude::*;
use crate::text::{chars_of, decimal, decimal_string, eq_chars, push_chars, split, split_chars, starts_with, starts_with_chars, string_of};

verus! {

/// Separator of the parts of a key.
pub const EMBEDDING_KEY_DELIM: char = '|';

/// The kind of text an embedding was made from.
#[derive(Debug, Clone, Copy, PartialEq, Eq, Structural)]
pub enum EmbeddingKind {
    /// A chunk of the note's content.
    Content,
    /// The note's links and backlinks.
    LinkContext,
}

/// The code of a kind in a key.
pub open spec fn kind_code(kind: EmbeddingKind) -> Seq<char> {
    match kind {
        EmbeddingKind::Content => seq!['c'],
        EmbeddingKind::LinkContext => seq!['l'],
    }
}

/// The kind a code stands for: `l` is the link context, anything else content.
pub open spec fn kind_of_code(code: Seq<char>) -> EmbeddingKind {
    if code == seq!['l'] {
        EmbeddingKind::LinkContext
    } else {
        EmbeddingKind::Content
    }
}

impl EmbeddingKind {
    /// The code of this kind in a key.
    pub fn code(self) -> (s: String)
        ensures
            s@ == kind_code(self),
    {
        let mut s = String::new();
        match self {
            EmbeddingKind::Content => s.push('c'),
            EmbeddingKind::LinkContext => s.push('l'),
        }
        s
    }

    /// The kind a code stands for: `l` is the link context, anything else content.
    pub fn from_code(code: &str) -> (k: Self)
        ensures
            k == kind_of_code(code@),
    {
        let cs = chars_of(code);
        let l = vec!['l'];
        assert(l@ == seq!['l']);
        if eq_chars(cs.as_slice(), l.as_slice()) {
            EmbeddingKind::LinkContext
        } else {
            EmbeddingKind::Content
        }
    }
}

/// The key of chunk `index` of kind `kind` of note `name`.
pub open spec fn embedding_key(name: Seq<char>, kind: EmbeddingKind, index: nat) -> Seq<char> {
    name + seq![EMBEDDING_KEY_DELIM] + kind_code(kind) + seq![EMBEDDING_KEY_DELIM] + decimal(index)
}

/// The note name of a key: its text up to the first separator.
pub open spec fn key_note_name(key: Seq<char>) -> Seq<char> {
    split(key, EMBEDDING_KEY_DELIM)[0]
}

/// The kind of a key: what its second part stands for (content if it has none).
pub open spec fn key_kind(key: Seq<char>) -> EmbeddingKind {
    let parts = split(key, EMBEDDING_KEY_DELIM);
    kind_of_code(if parts.len() > 1 { parts[1] } else { Seq::empty() })
}

/// The key of chunk `chunk_index` of kind `kind` of note `note_name`.
pub fn embedding_id(note_name: &str, kind: EmbeddingKind, chunk_index: usize) -> (r: String)
    ensures
        r@ == embedding_key(note_name@, kind, chunk_index as nat),
{
    let mut v = chars_of(note_name);
    v.push(EMBEDDING_KEY_DELIM);
    push_chars(&mut v, chars_of(kind.code().as_str()).as_slice());
    v.push(EMBEDDING_KEY_DELIM);
    push_chars(&mut v, chars_of(decimal_string(chunk_index).as_str()).as_slice());
    string_of(v.as_slice())
}

/// The note name of a key.
pub fn embedding_note_name(key: &str) -> (r: String)
    ensures
        r@ == key_note_name(key@),
{
    let parts = split_chars(chars_of(key).as_slice(), EMBEDDING_KEY_DELIM);
    proof {
        crate::text::lemma_split_nonempty(key@, EMBEDDING_KEY_DELIM);
    }
    string_of(parts[0].as_slice())
}

/// The kind of a key.
pub fn embedding_kind(key: &str) -> (k: EmbeddingKind)
    ensures
        k == key_kind(key@),
{
    let parts = split_chars(chars_of(key).as_slice(), EMBEDDING_KEY_DELIM);
    if parts.len() > 1 {
        assert(parts@[1]@ == split(key@, EMBEDDING_KEY_DELIM)[1]);
        EmbeddingKind::from_code(string_of(parts[1].as_slice()).as_str())
    } else {
        proof {
            reveal_strlit("");
        }
        assert(""@ =~= Seq::<char>::empty());
        assert(split(key@, EMBEDDING_KEY_DELIM).len() == parts@.len());
        EmbeddingKind::from_code("")
    }
}

/// Whether `key` is an embedding of note `note_name`: the key is the name,
/// or starts with the name and a separator.
pub open spec fn key_of_note(key: Seq<char>, note_name: Seq<char>) -> bool {
    key == note_name || starts_with(key, note_name + seq![EMBEDDING_KEY_DELIM])
}

/// Whether `key` is an embedding of note `note_name`.
pub fn key_belongs_to_note(key: &str, note_name: &str) -> (b: bool)
    ensures
        b == key_of_note(key@, note_name@),
{
    let k = chars_of(key);
    let n = chars_of(note_name);
    let mut prefix = chars_of(note_name);
    prefix.push(EMBEDDING_KEY_DELIM);
    assert(prefix@ =~= note_name@ + seq![EMBEDDING_KEY_DELIM]);
    eq_chars(k.as_slice(), n.as_slice()) || starts_with_chars(k.as_slice(), prefix.as_slice())
}

/// A text without separators splits into itself.
proof fn lemma_split_plain(a: Seq<char>, sep: char)
    requires
        !a.contains(sep),
    ensures
        split(a, sep) == seq![a],
    decreases a.len(),
{
    if a.len() > 0 {
        let b = a.drop_last();
        assert(!b.contains(sep)) by {
            if b.contains(sep) {
                let i = choose|i: int| 0 <= i < b.len() && b[i] == sep;
                assert(a[i] == sep);
            }
        }
        lemma_split_plain(b, sep);
        assert(a.last() == a[a.len() - 1]);
        assert(b.push(a.last()) == a);
    } else {
        assert(a == Seq::<char>::empty());
    }
}

/// Splitting at a first separator: the text before it, then the pieces of the rest.
proof fn lemma_split_first(a: Seq<char>, sep: char, b: Seq<char>)
    requires
        !a.contains(sep),
    ensures
        split(a + seq![sep] + b, sep) == seq![a] + split(b, sep),
    decreases b.len(),
{
    let s = a + seq![sep] + b;
    if b.len() == 0 {
        assert(s == (a + seq![sep]));
        assert(s.drop_last() == a);
        assert(s.last() == sep);
        lemma_split_plain(a, sep);
        assert(split(b, sep) == seq![Seq::<char>::empty()]);
        assert(split(s, sep) == seq![a].push(Seq::<char>::empty()));
        assert(seq![a].push(Seq::<char>::empty()) =~= seq![a] + split(b, sep));
    } else {
        let b2 = b.drop_last();
        let c = b.last();
        lemma_split_first(a, sep, b2);
        assert(s.drop_last() == a + seq![sep] + b2);
        assert(s.last() == c);
        crate::text::lemma_split_nonempty(b2, sep);
        let r = split(a + seq![sep] + b2, sep);
        let rb = split(b2, sep);
        assert(r == seq![a] + rb);
        if c == sep {
            assert(split(s, sep) == r.push(Seq::<char>::empty()));
            assert(split(b, sep) == rb.push(Seq::<char>::empty()));
            assert(r.push(Seq::<char>::empty()) =~= seq![a] + rb.push(Seq::<char>::empty()));
        } else {
            assert(split(s, sep) == r.update(r.len() - 1, r.last().push(c)));
            assert(split(b, sep) == rb.update(rb.len() - 1, rb.last().push(c)));
            assert(r.update(r.len() - 1, r.last().push(c)) =~= seq![a] + rb.update(rb.len() - 1, rb.last().push(c)));
        }
    }
}

/// A key gives back the note name and kind it was made from, when the name
/// holds no separator.
pub proof fn lemma_key_round_trip(name: Seq<char>, kind: EmbeddingKind, index: nat)
    requires
        !name.contains(EMBEDDING_KEY_DELIM),
    ensures
        key_note_name(embedding_key(name, kind, index)) == name,
        key_kind(embedding_key(name, kind, index)) == kind,
        key_of_note(embedding_key(name, kind, index), name),
{
    let code = kind_code(kind);
    let rest = code + seq![EMBEDDING_KEY_DELIM] + decimal(index);
    let key = embedding_key(name, kind, index);
    assert(key == name + seq![EMBEDDING_KEY_DELIM] + rest);
    lemma_split_first(name, EMBEDDING_KEY_DELIM, rest);
    assert(!code.contains(EMBEDDING_KEY_DELIM)) by {
        if code.contains(EMBEDDING_KEY_DELIM) {
            let i = choose|i: int| 0 <= i < code.len() && code[i] == EMBEDDING_KEY_DELIM;
        }
    }
    lemma_split_first(code, EMBEDDING_KEY_DELIM, decimal(index));
    let parts = split(key, EMBEDDING_KEY_DELIM);
    assert(parts[0] == name);
    assert(parts[1] == split(rest, EMBEDDING_KEY_DELIM)[0]);
    assert(split(rest, EMBEDDING_KEY_DELIM)[0] == code);
    assert(seq!['c'] != seq!['l']) by {
        assert(seq!['c'][0] != seq!['l'][0]);
    }
    assert(key.take((name + seq![EMBEDDING_KEY_DELIM]).len() as int) == name + seq![EMBEDDING_KEY_DELIM]);
}

} // verus!
