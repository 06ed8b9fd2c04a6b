use knowledge_mcp::watcher::{change_to_broadcast, debounce_millis, debounced_event_to_change, VaultChange};

#[test]
fn test_vault_change_is_markdown() {
    let md_change = VaultChange::Created("test.md".to_string());
    let txt_change = VaultChange::Created("test.txt".to_string());
    let no_ext_change = VaultChange::Created("test".to_string());

    assert!(md_change.is_markdown());
    assert!(!txt_change.is_markdown());
    assert!(!no_ext_change.is_markdown());
}

#[test]
fn watcher_events_become_changes() {
    assert_eq!(debounced_event_to_change("/v/a.md".to_string(), true), VaultChange::Modified("/v/a.md".to_string()));
    assert_eq!(debounced_event_to_change("/v/a.md".to_string(), false), VaultChange::Removed("/v/a.md".to_string()));
    assert_eq!(change_to_broadcast("/v/a.txt".to_string(), true), None);
    assert_eq!(change_to_broadcast("/v/a.md".to_string(), false), Some(VaultChange::Removed("/v/a.md".to_string())));
    assert_eq!(VaultChange::Removed("/x/y.md".to_string()).path(), "/x/y.md");
    assert_eq!(debounce_millis(None), 500);
    assert_eq!(debounce_millis(Some(100)), 100);
}
