use knowledge_mcp::vault::{NoteSource, Vault, VaultError};

fn source(path: &str, content: &str, modified: u128) -> NoteSource {
    NoteSource { path: path.to_string(), content: content.to_string(), modified }
}

fn test_files() -> Vec<NoteSource> {
    vec![
        source("/vault/Note A.md", "# Note A\n\nThis links to [[Note B]] and [[Note C]].", 10),
        source("/vault/Note B.md", "# Note B\n\nThis links back to [[Note A]].", 10),
        source("/vault/Note C.md", "# Note C\n\nThis has a [[Broken Link]] to nowhere.", 10),
        source("/vault/Orphan.md", "# Orphan Note\n\nThis note has no links.", 10),
    ]
}

fn create_test_vault() -> Vault {
    let mut vault = Vault::new("/vault");
    vault.index(test_files());
    vault
}

#[test]
fn test_vault_index() {
    let vault = create_test_vault();
    assert!(vault.is_indexed());
    assert_eq!(vault.note_count(), 4);
}

#[test]
fn test_vault_get_note() {
    let vault = create_test_vault();

    let note = vault.get_note("Note A").unwrap();
    assert_eq!(note.name, "Note A");
    assert_eq!(note.title, Some("Note A".to_string()));

    // Case insensitive
    let note2 = vault.get_note("note a").unwrap();
    assert_eq!(note2.name, "Note A");

    // Non-existent
    assert!(vault.get_note("Does Not Exist").is_none());
}

#[test]
fn test_vault_backlinks() {
    let vault = create_test_vault();

    let backlinks = vault.backlinks("Note B");
    assert_eq!(backlinks.len(), 1);
    assert_eq!(backlinks[0].name, "Note A");

    let backlinks_a = vault.backlinks("Note A");
    assert_eq!(backlinks_a.len(), 1);
    assert_eq!(backlinks_a[0].name, "Note B");
}

#[test]
fn test_vault_broken_links() {
    let vault = create_test_vault();

    let broken = vault.broken_links();
    assert_eq!(broken.len(), 1);
    assert_eq!(broken[0].source, "Note C");
    assert_eq!(broken[0].target, "Broken Link");
}

#[test]
fn test_vault_orphans() {
    let vault = create_test_vault();

    let orphans = vault.orphans();
    assert_eq!(orphans.len(), 1);
    assert_eq!(orphans[0].name, "Orphan");
}

#[test]
fn test_vault_note_names() {
    let vault = create_test_vault();

    let names = vault.note_names();
    assert_eq!(names.len(), 4);
    assert!(names.contains(&"Note A"));
    assert!(names.contains(&"Note B"));
    assert!(names.contains(&"Note C"));
    assert!(names.contains(&"Orphan"));
}

#[test]
fn test_vault_upsert_note() {
    let mut vault = create_test_vault();
    assert_eq!(vault.note_count(), 4);

    vault.upsert_note(source("/vault/New Note.md", "# New Note\n\nThis is a new note.", 20));
    assert_eq!(vault.note_count(), 5);
    assert!(vault.get_note("New Note").is_some());
}

#[test]
fn test_vault_remove_note() {
    let mut vault = create_test_vault();
    assert_eq!(vault.note_count(), 4);

    vault.remove_note("Note A");
    assert_eq!(vault.note_count(), 3);
    assert!(vault.get_note("Note A").is_none());
}

#[test]
fn test_vault_remove_note_by_path() {
    let mut vault = create_test_vault();
    assert_eq!(vault.note_count(), 4);

    vault.remove_note_by_path("/vault/Note A.md");
    assert_eq!(vault.note_count(), 3);
    assert!(vault.get_note("Note A").is_none());
}

#[test]
fn test_vault_note_needs_update() {
    let vault = create_test_vault();

    // Note was just indexed, shouldn't need update
    assert!(!vault.note_needs_update("/vault/Note A.md", Some(10)));

    // Non-existent note should need update
    assert!(vault.note_needs_update("/vault/New Note.md", Some(10)));
}

#[test]
fn test_validate_note_name_valid() {
    assert!(Vault::validate_note_name("Simple Note").is_ok());
    assert!(Vault::validate_note_name("Note-With-Dashes").is_ok());
    assert!(Vault::validate_note_name("Note_With_Underscores").is_ok());
    assert!(Vault::validate_note_name("Note 123").is_ok());
    assert!(Vault::validate_note_name("日本語ノート").is_ok()); // Unicode
}

#[test]
fn test_validate_note_name_invalid() {
    // Empty
    assert!(Vault::validate_note_name("").is_err());
    assert!(Vault::validate_note_name("   ").is_err());

    // Path traversal
    assert!(Vault::validate_note_name("../etc/passwd").is_err());
    assert!(Vault::validate_note_name("foo/bar").is_err());
    assert!(Vault::validate_note_name("foo\\bar").is_err());
    assert!(Vault::validate_note_name("..").is_err());

    // Invalid characters
    assert!(Vault::validate_note_name("Note:Invalid").is_err());
    assert!(Vault::validate_note_name("Note*Invalid").is_err());
    assert!(Vault::validate_note_name("Note?Invalid").is_err());
    assert!(Vault::validate_note_name("Note<Invalid").is_err());
    assert!(Vault::validate_note_name("Note>Invalid").is_err());
    assert!(Vault::validate_note_name("Note|Invalid").is_err());

    // Hidden files
    assert!(Vault::validate_note_name(".hidden").is_err());

    // Too long
    let long_name = "a".repeat(201);
    assert!(Vault::validate_note_name(&long_name).is_err());
}

#[test]
fn vault_name_errors_carry_messages() {
    match Vault::validate_note_name("   ") {
        Err(VaultError::InvalidNoteName(m)) => assert_eq!(m, "Note name cannot be empty"),
        _ => panic!("expected an invalid name"),
    }
    match Vault::validate_note_name("a/b") {
        Err(VaultError::InvalidNoteName(m)) => assert_eq!(m, "Note name cannot contain '/'"),
        _ => panic!("expected an invalid name"),
    }
    match Vault::validate_note_name(".x") {
        Err(VaultError::InvalidNoteName(m)) => assert_eq!(m, "Note name cannot start with a dot"),
        _ => panic!("expected an invalid name"),
    }
    match Vault::validate_note_name("a..b") {
        Err(VaultError::InvalidNoteName(m)) => assert_eq!(m, "Note name cannot contain '..'"),
        _ => panic!("expected an invalid name"),
    }
    // 201 characters (of three bytes each): one over the limit.
    let wide = "語".repeat(201);
    match Vault::validate_note_name(&wide) {
        Err(VaultError::InvalidNoteName(m)) => assert_eq!(m, "Note name must be 200 characters or less"),
        _ => panic!("expected an invalid name"),
    }
}

#[test]
fn vault_upsert_then_get_returns_the_new_note() {
    let mut vault = create_test_vault();
    vault.upsert_note(source("/vault/note a.md", "# Rewritten\n\n[[Orphan]]", 30));
    assert_eq!(vault.note_count(), 4);
    let note = vault.get_note("NOTE A").unwrap();
    assert_eq!(note.name, "note a");
    assert_eq!(note.title.as_deref(), Some("Rewritten"));
    assert_eq!(note.modified, 30);
    assert!(vault.orphans().is_empty() || vault.orphans().iter().all(|n| n.name != "Orphan"));
}

#[test]
fn vault_upsert_ignores_other_files() {
    let mut vault = create_test_vault();
    vault.upsert_note(source("/vault/readme.txt", "# Not a note", 1));
    assert_eq!(vault.note_count(), 4);
    assert!(vault.get_note("readme").is_none());
}

#[test]
fn vault_index_keeps_the_later_of_two_files_with_one_key() {
    let mut vault = Vault::new("/v");
    vault.index(vec![source("/v/a/Topic.md", "# One", 1), source("/v/b/topic.md", "# Two", 2)]);
    assert_eq!(vault.note_count(), 1);
    assert_eq!(vault.get_note("TOPIC").unwrap().title.as_deref(), Some("Two"));
}

#[test]
fn vault_note_needs_update_follows_the_modification_time() {
    let vault = create_test_vault();
    assert!(vault.note_needs_update("/vault/Note A.md", Some(11)));
    assert!(!vault.note_needs_update("/vault/Note A.md", Some(9)));
    assert!(vault.note_needs_update("/vault/Note A.md", None));
}

#[test]
fn vault_checked_note_path() {
    let vault = create_test_vault();
    assert_eq!(vault.checked_note_path("Fresh").unwrap(), "/vault/Fresh.md");
    assert!(matches!(vault.checked_note_path("a:b"), Err(VaultError::InvalidNoteName(_))));
    assert_eq!(vault.note_path("X"), "/vault/X.md");
    assert_eq!(vault.path(), "/vault");
}

#[test]
fn vault_new_is_empty_and_not_indexed() {
    let vault = Vault::new("/somewhere");
    assert!(!vault.is_indexed());
    assert_eq!(vault.note_count(), 0);
    assert!(vault.notes().is_empty());
}

#[test]
fn vault_index_takes_markdown_files_only() {
    let mut vault = Vault::new("/v");
    vault.index(vec![source("/v/a.md", "# A", 1), source("/v/b.txt", "# B", 1)]);
    assert_eq!(vault.note_count(), 1);
    assert!(vault.get_note("b").is_none());
}

#[test]
fn vault_update_matches_reindex() {
    let mut incremental = create_test_vault();
    let extra = source("/vault/Note B.md", "# Note B\n\nNow links to [[Orphan]].", 40);
    incremental.upsert_note(extra.clone());
    let mut files = test_files();
    files.push(extra);
    let mut whole = Vault::new("/vault");
    whole.index(files);
    let a: Vec<(String, Option<String>, usize)> =
        incremental.notes().iter().map(|n| (n.name.clone(), n.title.clone(), n.links.len())).collect();
    let b: Vec<(String, Option<String>, usize)> =
        whole.notes().iter().map(|n| (n.name.clone(), n.title.clone(), n.links.len())).collect();
    assert_eq!(a, b);
}

#[test]
fn vault_ensure_indexed_reads_once() {
    let mut vault = Vault::new("/vault");
    assert!(vault.ensure_indexed(|| Ok(test_files())).is_ok());
    assert_eq!(vault.note_count(), 4);
    assert!(vault.ensure_indexed(|| -> Result<Vec<NoteSource>, VaultError> { panic!("read twice") }).is_ok());
    let mut other = Vault::new("/nowhere");
    let r = other.ensure_indexed(|| Err(VaultError::PathNotFound("/nowhere".to_string())));
    assert!(matches!(r, Err(VaultError::PathNotFound(_))));
    assert!(!other.is_indexed());
}

#[test]
fn vault_name_limit_counts_characters() {
    assert!(Vault::validate_note_name(&"日".repeat(200)).is_ok());
    assert!(Vault::validate_note_name(&"日".repeat(201)).is_err());
    assert!(Vault::validate_note_name(&"a".repeat(200)).is_ok());
}
