use knowledge_mcp::config::Config;
use knowledge_mcp::filter::SensitiveDataFilter;
use knowledge_mcp::server::{
    apply_file_removal, apply_file_update, backlink_names, confirmation_outcome, embedding_text_config,
    expansion_neighbors, watcher_permission,
    impacted_notes, link_details, note_in_archive, note_is_journal, note_link_names, path_has_component,
    query_is_blank, semantic_base_limit, sensitive_gate, text_eq_ignore_ascii_case, ConfirmationReply,
    ContentGate,
};
use knowledge_mcp::graph::KnowledgeGraph;
use knowledge_mcp::vault::note::Note;
use knowledge_mcp::vault::{NoteSource, Vault};

fn source(path: &str, content: &str) -> NoteSource {
    NoteSource { path: path.to_string(), content: content.to_string(), modified: 1 }
}

fn vault() -> Vault {
    let mut v = Vault::new("/v");
    v.index(vec![
        source("/v/A.md", "# A\n[[B]] [[C|see C]] [[#Local]]"),
        source("/v/B.md", "# B\n[[A]]"),
        source("/v/C.md", "# C"),
    ]);
    v
}

#[test]
fn server_impacted_notes_are_sorted_and_distinct() {
    let r = impacted_notes(
        &Some("M".to_string()),
        &vec!["Z".to_string(), "A".to_string()],
        &vec!["A".to_string(), "M".to_string()],
    );
    assert_eq!(r, vec!["A", "M", "Z"]);
    assert!(impacted_notes(&None, &Vec::new(), &Vec::new()).is_empty());
}

#[test]
fn server_file_update_touches_old_and_new_links() {
    let mut v = vault();
    let actions = apply_file_update(&mut v, source("/v/A.md", "# A\n[[D]]"));
    assert_eq!(actions.changed_note.as_deref(), Some("A"));
    assert!(!actions.remove_embeddings);
    assert_eq!(actions.impacted, vec!["A", "B", "C", "D"]);
    assert_eq!(v.get_note("a").unwrap().links.len(), 1);
}

#[test]
fn server_file_removal_touches_linked_notes() {
    let mut v = vault();
    let actions = apply_file_removal(&mut v, "/v/A.md");
    assert_eq!(actions.changed_note.as_deref(), Some("A"));
    assert!(actions.remove_embeddings);
    assert_eq!(actions.impacted, vec!["B", "C"]);
    assert!(v.get_note("A").is_none());
    let none = apply_file_removal(&mut v, "/v/Missing.md");
    assert!(none.impacted.is_empty());
}

#[test]
fn server_sensitive_gate_messages() {
    let filter = SensitiveDataFilter::new(vec!["salary".to_string(), "ssn".to_string()]);
    assert_eq!(sensitive_gate(&filter, "nothing here", true), ContentGate::Allow);
    assert_eq!(
        sensitive_gate(&filter, "SSN and Salary", true),
        ContentGate::Ask("This content may contain sensitive data (salary, ssn).\nDo you want to proceed?".to_string())
    );
    assert_eq!(
        sensitive_gate(&filter, "my salary", false),
        ContentGate::Block(
            "This content may contain sensitive data (salary). Your client doesn't support confirmation dialogs. Access blocked."
                .to_string()
        )
    );
}

#[test]
fn server_confirmation_outcomes() {
    assert_eq!(confirmation_outcome(&ConfirmationReply::Accepted(Some(true))), Ok(()));
    assert_eq!(
        confirmation_outcome(&ConfirmationReply::Accepted(Some(false))),
        Err("Access to sensitive content was not confirmed.".to_string())
    );
    assert_eq!(
        confirmation_outcome(&ConfirmationReply::Accepted(None)),
        Err("Access to sensitive content was not confirmed.".to_string())
    );
    assert_eq!(
        confirmation_outcome(&ConfirmationReply::Declined),
        Err("User declined to view sensitive content.".to_string())
    );
    assert_eq!(confirmation_outcome(&ConfirmationReply::Cancelled), Err("Request cancelled by user.".to_string()));
    assert_eq!(
        confirmation_outcome(&ConfirmationReply::Failed("timeout".to_string())),
        Err("Could not confirm access to sensitive content: timeout".to_string())
    );
}

#[test]
fn server_note_ranking_flags() {
    assert!(text_eq_ignore_ascii_case("Archive", "archive"));
    assert!(!text_eq_ignore_ascii_case("Archivé", "archive"));
    assert!(path_has_component("/notes/ARCHIVE/x.md", "archive"));
    assert!(!path_has_component("/notes/archived/x.md", "archive"));
    assert!(note_in_archive(&Note::new("x", "/v/Archive/x.md")));
    assert!(!note_in_archive(&Note::new("x", "/v/x.md")));
    assert!(note_is_journal(&Note::new("Index", "/v/Index.md")));
    assert!(note_is_journal(&Note::new("2024-01-01", "/v/Daily/2024-01-01.md")));
    assert!(note_is_journal(&Note::new("x", "/v/journal/x.md")));
    assert!(!note_is_journal(&Note::new("x", "/v/notes/x.md")));
}

#[test]
fn server_note_details() {
    let v = vault();
    let a = v.get_note("A").unwrap();
    assert_eq!(note_link_names(a), vec!["B", "C"]);
    let details = link_details(&v, a);
    assert_eq!(details.len(), 2);
    assert_eq!(details[1].target, "C");
    assert_eq!(details[1].display.as_deref(), Some("see C"));
    assert!(details[0].exists && details[1].exists);
    assert_eq!(backlink_names(&v, "a"), vec!["B"]);
    assert!(backlink_names(&v, "C") == vec!["A"]);
}

#[test]
fn server_small_decisions() {
    assert_eq!(semantic_base_limit(3), 20);
    assert_eq!(semantic_base_limit(50), 50);
    assert!(query_is_blank("  \t"));
    assert!(!query_is_blank(" x "));
    let mut config = Config::with_path("/v");
    config.embedding_max_chars = 99;
    let c = embedding_text_config(&config);
    assert_eq!(c.max_content_chars, 99);
    assert_eq!(c.chunk_overlap_chars, 200);
}

#[test]
fn server_expansion_neighbors_list_backlinks_then_links() {
    let v = vault();
    let g = KnowledgeGraph::from_vault(&v);
    assert_eq!(expansion_neighbors(&g, "A"), vec!["B", "C", "B"]);
    assert_eq!(expansion_neighbors(&g, "C"), vec!["A"]);
    assert!(expansion_neighbors(&g, "Missing").is_empty());
}

#[test]
fn server_watcher_permission_follows_config() {
    let mut config = Config::with_path("/v");
    assert!(watcher_permission(&config).is_ok());
    config.enable_watcher = false;
    assert_eq!(watcher_permission(&config), Err("File watcher is disabled in configuration".to_string()));
}
