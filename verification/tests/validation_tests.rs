use knowledge_mcp::validation::{validate_note_content, ValidationResult};

#[test]
fn test_validate_good_note() {
    let content = r#"# My Note

This is a well-structured note about [[Some Topic]].

## Details

More information here with a link to [[Another Note]].
"#;

    let result = validate_note_content("My Note", content);
    assert!(result.valid);
    assert!(!result.has_warnings());
}

#[test]
fn test_validate_missing_title() {
    let content = r#"This note has no H1 heading.

It links to [[Other Note]] though.
"#;

    let result = validate_note_content("Test Note", content);
    assert!(result.valid); // Still valid, just has warnings
    assert!(result.has_warnings());
    assert!(result.warnings.iter().any(|w| w.code == "missing_title"));
}

#[test]
fn test_validate_no_links() {
    let content = r#"# Isolated Note

This note doesn't link to anything else.
It's completely standalone.
"#;

    let result = validate_note_content("Isolated Note", content);
    assert!(result.valid);
    assert!(result.has_warnings());
    assert!(result.warnings.iter().any(|w| w.code == "no_links"));
}

#[test]
fn test_validate_too_short() {
    let content = "# Short\n\nToo brief.";

    let result = validate_note_content("Short", content);
    assert!(result.valid);
    assert!(result.has_warnings());
    assert!(result.warnings.iter().any(|w| w.code == "too_short"));
}

#[test]
fn test_validate_too_long() {
    let content = format!("# Long Note\n\n{}\n\n[[Link]]", "x".repeat(6000));

    let result = validate_note_content("Long Note", &content);
    assert!(result.valid);
    assert!(result.has_warnings());
    assert!(result.warnings.iter().any(|w| w.code == "too_long"));
}

#[test]
fn test_validate_empty_content() {
    let result = validate_note_content("Empty", "");
    assert!(result.valid);
    assert!(result.has_warnings());
    assert!(result.warnings.iter().any(|w| w.code == "empty_content"));
}

#[test]
fn test_validate_multiple_warnings() {
    let content = "No heading, no links, too short.";

    let result = validate_note_content("Test", content);
    assert!(result.valid);
    assert!(result.warnings.len() >= 2); // At least missing_title and no_links
}

#[test]
fn validation_messages_are_exact() {
    let result = validate_note_content("Test", "No heading, no links, too short.");
    let codes: Vec<&str> = result.warnings.iter().map(|w| w.code.as_str()).collect();
    assert_eq!(codes, vec!["missing_title", "no_links", "too_short"]);
    assert_eq!(result.warnings[0].message, "Note has no H1 heading");
    assert_eq!(
        result.warnings[0].suggestion.as_deref(),
        Some("Add '# Test' at the beginning of the note")
    );
    assert_eq!(result.warnings[2].message, "Note is very short (32 characters)");
}

#[test]
fn validation_empty_content_gets_every_warning() {
    let result = validate_note_content("Empty", "   \n ");
    let codes: Vec<&str> = result.warnings.iter().map(|w| w.code.as_str()).collect();
    assert_eq!(codes, vec!["missing_title", "no_links", "too_short", "empty_content"]);
    assert!(result.warnings[3].suggestion.is_none());
}

#[test]
fn validation_long_note_message_counts_characters() {
    let content = format!("# Long\n[[L]]{}", "é".repeat(5000));
    let result = validate_note_content("Long", &content);
    assert_eq!(result.warnings.len(), 1);
    assert_eq!(result.warnings[0].code, "too_long");
    assert_eq!(result.warnings[0].message, "Note is quite long (5012 characters)");
}

#[test]
fn validation_second_level_heading_is_no_title() {
    let content = "## Only a section\n\nSee [[Other]] for a longer explanation of everything here.";
    let result = validate_note_content("X", content);
    let codes: Vec<&str> = result.warnings.iter().map(|w| w.code.as_str()).collect();
    assert_eq!(codes, vec!["missing_title"]);
}

#[test]
fn validation_result_builders() {
    let mut r = ValidationResult::ok();
    assert!(r.valid && !r.has_warnings());
    r.warn("a", "first");
    r.warn_with_suggestion("b", "second", "fix it");
    assert_eq!(r.warnings.len(), 2);
    assert_eq!(r.warnings[0].code, "a");
    assert!(r.warnings[0].suggestion.is_none());
    assert_eq!(r.warnings[1].suggestion.as_deref(), Some("fix it"));
    assert!(r.has_warnings());
}
