//! Changes to the files of a vault, as a file watcher reports them.
//!
//! Watching the file system and broadcasting the changes is the caller's
//! part; which changes are reported, and how, is this module's.

use vstd::prelude::*;
use crate::paths::{has_markdown_extension, is_markdown_path};

verus! {

/// Types of vault changes detected by the file watcher.
#[derive(Debug, Clone, PartialEq, Eq)]
pub enum VaultChange {
    /// A new file was created.
    Created(String),
    /// An existing file was modified.
    Modified(String),
    /// A file was removed.
    Removed(String),
}

/// The path of a change.
pub open spec fn change_path(c: VaultChange) -> Seq<char> {
    match c {
        VaultChange::Created(p) => p@,
        VaultChange::Modified(p) => p@,
        VaultChange::Removed(p) => p@,
    }
}

impl VaultChange {
    /// Get the path associated with this change.
    pub fn path(&self) -> (p: &str)
        ensures
            p@ == change_path(*self),
    {
        match self {
            VaultChange::Created(p) => p.as_str(),
            VaultChange::Modified(p) => p.as_str(),
            VaultChange::Removed(p) => p.as_str(),
        }
    }

    /// Check if this change affects a markdown file.
    pub fn is_markdown(&self) -> (b: bool)
        ensures
            b == is_markdown_path(change_path(*self)),
    {
        has_markdown_extension(self.path())
    }
}

/// The change a debounced event on `path` stands for: a file that exists
/// was created or modified (both are reported as modified, since the vault
/// parses the file again either way); one that does not was removed.
pub fn debounced_event_to_change(path: String, exists: bool) -> (c: VaultChange)
    ensures
        change_path(c) == path@,
        exists ==> c is Modified,
        !exists ==> c is Removed,
{
    if exists {
        VaultChange::Modified(path)
    } else {
        VaultChange::Removed(path)
    }
}

/// The change to broadcast for a debounced event on `path`: changes to
/// markdown files only.
pub fn change_to_broadcast(path: String, exists: bool) -> (r: Option<VaultChange>)
    ensures
        match r {
            Some(c) => is_markdown_path(path@) && change_path(c) == path@ && (exists ==> c is Modified) && (
            !exists ==> c is Removed),
            None => !is_markdown_path(path@),
        },
{
    let change = debounced_event_to_change(path, exists);
    if change.is_markdown() {
        Some(change)
    } else {
        None
    }
}

/// The debounce duration in milliseconds: the one given, or 500.
pub fn debounce_millis(debounce_ms: Option<u64>) -> (ms: u64)
    ensures
        ms == match debounce_ms {
            Some(d) => d,
            None => 500,
        },
{
    match debounce_ms {
        Some(d) => d,
        None => 500,
    }
}

} // verus!
