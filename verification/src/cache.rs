//! Content caching with modification time tracking.
//!
//! An LRU cache (the `lru` crate's) of note contents that remembers each
//! file's modification time, so that unchanged files are not read again.
//! Reading a file is the caller's part: [`ContentCache::get_or_read`] takes
//! the file's modification time and a reader that it calls on a miss.

use vstd::prelude::*;
use lru::LruCache;
use std::num::NonZeroUsize;

verus! {

#[verifier::external_type_specification]
#[verifier::external_body]
#[verifier::reject_recursive_types(K)]
#[verifier::reject_recursive_types(V)]
#[verifier::reject_recursive_types(S)]
pub struct ExLruCache<K, V, S>(LruCache<K, V, S>);

#[verifier::external_type_specification]
#[verifier::external_body]
pub struct ExDefaultHasher(lru::DefaultHasher);

/// The entries of an LRU cache of (content, modification time) by name:
/// (name, content, modification time), the most recently used first.
pub uninterp spec fn lru_entries(c: LruCache<String, (String, u128)>) -> Seq<(Seq<char>, Seq<char>, u128)>;

/// The capacity an LRU cache was made with.
pub uninterp spec fn lru_capacity(c: LruCache<String, (String, u128)>) -> nat;

/// A cache entry: (name, content, modification time).
pub type Entry = (Seq<char>, Seq<char>, u128);

/// The position of the entry for `name`, if there is one.
pub open spec fn find_entry(es: Seq<Entry>, name: Seq<char>) -> Option<int> {
    if exists|i: int| 0 <= i < es.len() && (#[trigger] es[i]).0 == name {
        Some(choose|i: int| 0 <= i < es.len() && (#[trigger] es[i]).0 == name)
    } else {
        None
    }
}

/// No two entries share a name.
pub open spec fn distinct_names(es: Seq<Entry>) -> bool {
    forall|i: int, j: int| 0 <= i < es.len() && 0 <= j < es.len() && i != j ==> (#[trigger] es[i]).0 != (#[trigger] es[j]).0
}

/// The entries after entry `i` is used: it moves to the front.
pub open spec fn promote(es: Seq<Entry>, i: int) -> Seq<Entry> {
    seq![es[i]] + es.remove(i)
}

/// The entries after putting `e` into a cache of capacity `cap`: it replaces
/// the entry with its name, or else evicts the least recently used entry
/// when the cache is full, and comes first.
pub open spec fn put_entry(es: Seq<Entry>, cap: nat, e: Entry) -> Seq<Entry> {
    match find_entry(es, e.0) {
        Some(i) => seq![e] + es.remove(i),
        None => if es.len() == cap {
            seq![e] + es.drop_last()
        } else {
            seq![e] + es
        },
    }
}

/// The entries after removing the one for `name`.
pub open spec fn remove_entry(es: Seq<Entry>, name: Seq<char>) -> Seq<Entry> {
    match find_entry(es, name) {
        Some(i) => es.remove(i),
        None => es,
    }
}

/// `LruCache::new`: an empty cache that holds at most `cap` entries.
#[verifier::external_body]
fn lru_new(cap: usize) -> (c: LruCache<String, (String, u128)>)
    requires
        cap > 0,
    ensures
        lru_entries(c) == Seq::<Entry>::empty(),
        lru_capacity(c) == cap,
{
    LruCache::new(NonZeroUsize::new(cap).unwrap())
}

/// `LruCache::get` (the value cloned): the entry for `name`, which becomes
/// the most recently used. It does not panic.
#[verifier::external_body]
fn lru_get(c: &mut LruCache<String, (String, u128)>, name: &str) -> (r: Option<(String, u128)>)
    ensures
        lru_capacity(*final(c)) == lru_capacity(*old(c)),
        match find_entry(lru_entries(*old(c)), name@) {
            Some(i) => r matches Some(v) && v.0@ == lru_entries(*old(c))[i].1 && v.1 == lru_entries(*old(c))[i].2
                && lru_entries(*final(c)) == promote(lru_entries(*old(c)), i),
            None => r is None && lru_entries(*final(c)) == lru_entries(*old(c)),
        },
    no_unwind
{
    c.get(name).cloned()
}

/// `LruCache::put`: the entry for `name` becomes `value`, the most recently
/// used; a new name evicts the least recently used entry of a full cache.
/// It does not panic (an allocation failure aborts).
#[verifier::external_body]
fn lru_put(c: &mut LruCache<String, (String, u128)>, name: String, value: (String, u128))
    ensures
        lru_capacity(*final(c)) == lru_capacity(*old(c)),
        lru_entries(*final(c)) == put_entry(lru_entries(*old(c)), lru_capacity(*old(c)), (name@, value.0@, value.1)),
    no_unwind
{
    c.put(name, value);
}

/// `LruCache::pop`: removes the entry for `name`. It does not panic.
#[verifier::external_body]
fn lru_pop(c: &mut LruCache<String, (String, u128)>, name: &str)
    ensures
        lru_capacity(*final(c)) == lru_capacity(*old(c)),
        lru_entries(*final(c)) == remove_entry(lru_entries(*old(c)), name@),
    no_unwind
{
    c.pop(name);
}

/// `LruCache::clear`: removes every entry. It does not panic.
#[verifier::external_body]
fn lru_clear(c: &mut LruCache<String, (String, u128)>)
    ensures
        lru_capacity(*final(c)) == lru_capacity(*old(c)),
        lru_entries(*final(c)) == Seq::<Entry>::empty(),
    no_unwind
{
    c.clear();
}

/// `LruCache::len`: the number of entries.
#[verifier::external_body]
fn lru_len(c: &LruCache<String, (String, u128)>) -> (n: usize)
    ensures
        n == lru_entries(*c).len(),
{
    c.len()
}

/// `LruCache::cap`: the capacity the cache was made with.
#[verifier::external_body]
fn lru_cap(c: &LruCache<String, (String, u128)>) -> (n: usize)
    ensures
        n == lru_capacity(*c),
{
    c.cap().get()
}

/// Errors that can occur during cache operations.
#[derive(Debug)]
pub enum CacheError {
    /// A file could not be read.
    ReadError { path: String, reason: String },
    /// A file's metadata could not be read.
    MetadataError { path: String, reason: String },
}

/// Model of a [`ContentCache`].
pub struct CacheView {
    /// (name, content, modification time), the most recently used first.
    pub entries: Seq<Entry>,
    /// The most entries the cache holds.
    pub capacity: nat,
}

/// LRU cache for note contents with modification time tracking.
pub struct ContentCache {
    cache: LruCache<String, (String, u128)>,
}

/// Cache statistics for debugging/monitoring.
#[derive(Debug, Clone)]
pub struct CacheStats {
    pub entries: usize,
    pub capacity: usize,
}

impl View for ContentCache {
    type V = CacheView;

    closed spec fn view(&self) -> CacheView {
        CacheView { entries: lru_entries(self.cache), capacity: lru_capacity(self.cache) }
    }
}

/// The capacity a cache made with `capacity` gets: at least one entry.
pub open spec fn effective_capacity(capacity: nat) -> nat {
    if capacity == 0 {
        1
    } else {
        capacity
    }
}

/// The entries after a lookup of `name`: a found entry becomes the most
/// recently used.
pub open spec fn touch(es: Seq<Entry>, name: Seq<char>) -> Seq<Entry> {
    match find_entry(es, name) {
        Some(i) => promote(es, i),
        None => es,
    }
}

/// The cached content of `name`, if it was cached with modification time `mtime`.
pub open spec fn fresh_content(es: Seq<Entry>, name: Seq<char>, mtime: u128) -> Option<Seq<char>> {
    match find_entry(es, name) {
        Some(i) => if es[i].2 == mtime {
            Some(es[i].1)
        } else {
            None
        },
        None => None,
    }
}

/// With distinct names, the entry found for a name is the one that has it.
proof fn lemma_find_entry_unique(es: Seq<Entry>, name: Seq<char>, i: int)
    requires
        distinct_names(es),
        0 <= i < es.len(),
        es[i].0 == name,
    ensures
        find_entry(es, name) == Some(i),
{
    let k = choose|k: int| 0 <= k < es.len() && (#[trigger] es[k]).0 == name;
    assert(es[k].0 == name);
}

/// Putting an entry keeps the names distinct and the size within capacity.
pub proof fn lemma_put_keeps_inv(es: Seq<Entry>, cap: nat, e: Entry)
    requires
        distinct_names(es),
        es.len() <= cap,
        cap > 0,
    ensures
        distinct_names(put_entry(es, cap, e)),
        put_entry(es, cap, e).len() <= cap,
        find_entry(put_entry(es, cap, e), e.0) == Some(0int),
        put_entry(es, cap, e)[0] == e,
{
    let r = put_entry(es, cap, e);
    let rest = match find_entry(es, e.0) {
        Some(i) => es.remove(i),
        None => if es.len() == cap {
            es.drop_last()
        } else {
            es
        },
    };
    assert(r == seq![e] + rest);
    match find_entry(es, e.0) {
        Some(i) => {
            assert(es[i].0 == e.0);
            assert forall|k: int| 0 <= k < rest.len() implies (#[trigger] rest[k]).0 != e.0 by {
                let k2 = if k < i { k } else { k + 1 };
                assert(rest[k] == es[k2]);
            }
            assert forall|a: int, b: int| 0 <= a < rest.len() && 0 <= b < rest.len() && a != b implies (#[trigger] rest[a]).0
                != (#[trigger] rest[b]).0 by {
                let a2 = if a < i { a } else { a + 1 };
                let b2 = if b < i { b } else { b + 1 };
                assert(rest[a] == es[a2]);
                assert(rest[b] == es[b2]);
            }
        },
        None => {
            assert forall|k: int| 0 <= k < rest.len() implies (#[trigger] rest[k]).0 != e.0 by {
                assert(rest[k] == es[k]);
            }
            assert forall|a: int, b: int| 0 <= a < rest.len() && 0 <= b < rest.len() && a != b implies (#[trigger] rest[a]).0
                != (#[trigger] rest[b]).0 by {
                assert(rest[a] == es[a]);
                assert(rest[b] == es[b]);
            }
        },
    }
    assert forall|a: int, b: int| 0 <= a < r.len() && 0 <= b < r.len() && a != b implies (#[trigger] r[a]).0 != (
    #[trigger] r[b]).0 by {
        if a > 0 {
            assert(r[a] == rest[a - 1]);
        }
        if b > 0 {
            assert(r[b] == rest[b - 1]);
        }
    }
    assert(r[0] == e);
    lemma_find_entry_unique(r, e.0, 0);
}

/// Using an entry keeps the names distinct and the size.
pub proof fn lemma_touch_keeps_inv(es: Seq<Entry>, name: Seq<char>)
    requires
        distinct_names(es),
    ensures
        distinct_names(touch(es, name)),
        touch(es, name).len() == es.len(),
{
    match find_entry(es, name) {
        Some(i) => {
            let rest = es.remove(i);
            let r = promote(es, i);
            assert forall|a: int, b: int| 0 <= a < r.len() && 0 <= b < r.len() && a != b implies (#[trigger] r[a]).0
                != (#[trigger] r[b]).0 by {
                let a2 = if a == 0 { i } else if a - 1 < i { a - 1 } else { a };
                let b2 = if b == 0 { i } else if b - 1 < i { b - 1 } else { b };
                assert(r[a] == es[a2]);
                assert(r[b] == es[b2]);
            }
        },
        None => {},
    }
}

/// Removing an entry keeps the names distinct, and the name is then absent.
pub proof fn lemma_remove_keeps_inv(es: Seq<Entry>, name: Seq<char>)
    requires
        distinct_names(es),
    ensures
        distinct_names(remove_entry(es, name)),
        remove_entry(es, name).len() <= es.len(),
        find_entry(remove_entry(es, name), name) is None,
{
    match find_entry(es, name) {
        Some(i) => {
            let r = es.remove(i);
            assert(es[i].0 == name);
            assert forall|a: int, b: int| 0 <= a < r.len() && 0 <= b < r.len() && a != b implies (#[trigger] r[a]).0
                != (#[trigger] r[b]).0 by {
                let a2 = if a < i { a } else { a + 1 };
                let b2 = if b < i { b } else { b + 1 };
                assert(r[a] == es[a2]);
                assert(r[b] == es[b2]);
            }
            assert forall|a: int| 0 <= a < r.len() implies (#[trigger] r[a]).0 != name by {
                let a2 = if a < i { a } else { a + 1 };
                assert(r[a] == es[a2]);
            }
        },
        None => {},
    }
}

/// What was just read and cached is served from the cache: a lookup with
/// the same modification time hits and returns it.
pub proof fn lemma_read_then_hit(es: Seq<Entry>, cap: nat, name: Seq<char>, content: Seq<char>, mtime: u128)
    requires
        distinct_names(es),
        es.len() <= cap,
        cap > 0,
    ensures
        fresh_content(put_entry(touch(es, name), cap, (name, content, mtime)), name, mtime) == Some(content),
{
    lemma_touch_keeps_inv(es, name);
    lemma_put_keeps_inv(touch(es, name), cap, (name, content, mtime));
}

/// A file whose modification time changed is read again: a lookup with
/// another modification time than the cached one misses.
pub proof fn lemma_changed_misses(es: Seq<Entry>, cap: nat, name: Seq<char>, content: Seq<char>, mtime: u128, other: u128)
    requires
        distinct_names(es),
        es.len() <= cap,
        cap > 0,
        other != mtime,
    ensures
        fresh_content(put_entry(touch(es, name), cap, (name, content, mtime)), name, other) is None,
{
    lemma_touch_keeps_inv(es, name);
    lemma_put_keeps_inv(touch(es, name), cap, (name, content, mtime));
}

/// After invalidation a note is not served from the cache.
pub proof fn lemma_invalidated_misses(es: Seq<Entry>, name: Seq<char>, mtime: u128)
    requires
        distinct_names(es),
    ensures
        fresh_content(remove_entry(es, name), name, mtime) is None,
{
    lemma_remove_keeps_inv(es, name);
}

impl ContentCache {
    #[verifier::type_invariant]
    closed spec fn inv(self) -> bool {
        let es = lru_entries(self.cache);
        &&& distinct_names(es)
        &&& es.len() <= lru_capacity(self.cache)
        &&& lru_capacity(self.cache) > 0
        &&& lru_capacity(self.cache) <= usize::MAX
    }

    /// Create a new content cache with the specified capacity (at least one).
    pub fn new(capacity: usize) -> (c: Self)
        ensures
            c@.entries == Seq::<Entry>::empty(),
            c@.capacity == effective_capacity(capacity as nat),
            c@.capacity <= usize::MAX,
    {
        let cap = if capacity == 0 {
            1
        } else {
            capacity
        };
        ContentCache { cache: lru_new(cap) }
    }

    /// Get content from the cache, or else from `read`.
    ///
    /// Returns the cached content if the note is in the cache with the
    /// modification time `mtime` of its file; otherwise calls `read` and, when
    /// it succeeds, caches what it read with `mtime`.
    pub fn get_or_read<F: FnOnce() -> Result<String, CacheError>>(
        &mut self,
        note_name: &str,
        mtime: u128,
        read: F,
    ) -> (r: Result<String, CacheError>)
        requires
            read.requires(()),
        ensures
            final(self)@.capacity == old(self)@.capacity,
            distinct_names(final(self)@.entries),
            final(self)@.entries.len() <= final(self)@.capacity,
            match fresh_content(old(self)@.entries, note_name@, mtime) {
                Some(content) => r matches Ok(s) && s@ == content && final(self)@.entries == touch(
                    old(self)@.entries,
                    note_name@,
                ),
                None => read.ensures((), r) && match r {
                    Ok(s) => final(self)@.entries == put_entry(
                        touch(old(self)@.entries, note_name@),
                        old(self)@.capacity,
                        (note_name@, s@, mtime),
                    ),
                    Err(_) => final(self)@.entries == touch(old(self)@.entries, note_name@),
                },
            },
    {
        proof {
            use_type_invariant(&*self);
        }
        let ghost es = lru_entries(self.cache);
        let cached = lru_get(&mut self.cache, note_name);
        proof {
            lemma_touch_keeps_inv(es, note_name@);
        }
        assert(lru_entries(self.cache) == touch(es, note_name@));
        if let Some(entry) = cached {
            if entry.1 == mtime {
                return Ok(entry.0);
            }
        }
        let result = read();
        match result {
            Ok(content) => {
                let ghost before = lru_entries(self.cache);
                proof {
                    lemma_put_keeps_inv(before, lru_capacity(self.cache), (note_name@, content@, mtime));
                }
                lru_put(&mut self.cache, note_name.to_owned(), (content.clone(), mtime));
                Ok(content)
            },
            Err(e) => Err(e),
        }
    }

    /// Invalidate a specific cache entry.
    pub fn invalidate(&mut self, note_name: &str)
        ensures
            final(self)@.capacity == old(self)@.capacity,
            distinct_names(final(self)@.entries),
            final(self)@.entries.len() <= final(self)@.capacity,
            final(self)@.entries == remove_entry(old(self)@.entries, note_name@),
    {
        proof {
            use_type_invariant(&*self);
            lemma_remove_keeps_inv(lru_entries(self.cache), note_name@);
        }
        lru_pop(&mut self.cache, note_name);
    }

    /// Clear the entire cache.
    pub fn clear(&mut self)
        ensures
            final(self)@.capacity == old(self)@.capacity,
            final(self)@.entries == Seq::<Entry>::empty(),
    {
        proof {
            use_type_invariant(&*self);
        }
        lru_clear(&mut self.cache);
    }

    /// Get the number of cached entries.
    pub fn len(&self) -> (n: usize)
        ensures
            n == self@.entries.len(),
            n <= self@.capacity,
            distinct_names(self@.entries),
    {
        proof {
            use_type_invariant(self);
        }
        lru_len(&self.cache)
    }

    /// Check if the cache is empty.
    pub fn is_empty(&self) -> (b: bool)
        ensures
            b == (self@.entries.len() == 0),
    {
        lru_len(&self.cache) == 0
    }

    /// Get cache statistics for debugging.
    pub fn stats(&self) -> (s: CacheStats)
        ensures
            s.entries == self@.entries.len(),
            s.capacity == self@.capacity,
            s.entries <= s.capacity,
    {
        proof {
            use_type_invariant(self);
        }
        CacheStats { entries: lru_len(&self.cache), capacity: lru_cap(&self.cache) }
    }
}

} // verus!
