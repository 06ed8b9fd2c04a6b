use knowledge_mcp::vault::note::{Heading, Note, WikiLink};

#[test]
fn test_wiki_link_new() {
    let link = WikiLink::new("Deep Work");
    assert_eq!(link.target, "Deep Work");
    assert!(link.display.is_none());
    assert!(link.heading.is_none());
}

#[test]
fn test_wiki_link_with_display() {
    let link = WikiLink::with_display("Deep Work", "Cal Newport's book");
    assert_eq!(link.target, "Deep Work");
    assert_eq!(link.display, Some("Cal Newport's book".to_string()));
}

#[test]
fn test_wiki_link_with_heading() {
    let link = WikiLink::with_heading("Deep Work", "Chapter 1");
    assert_eq!(link.target, "Deep Work");
    assert_eq!(link.heading, Some("Chapter 1".to_string()));
}

#[test]
fn test_heading_new() {
    let heading = Heading::new(2, "Introduction");
    assert_eq!(heading.level, 2);
    assert_eq!(heading.text, "Introduction");
}

#[test]
fn test_note_new() {
    let note = Note::new("Test Note", "/path/to/test.md");
    assert_eq!(note.name, "Test Note");
    assert_eq!(note.path, "/path/to/test.md");
    assert!(note.title.is_none());
    assert!(note.links.is_empty());
}

#[test]
fn test_note_display_name() {
    let mut note = Note::new("test-note", "/path/to/test-note.md");
    assert_eq!(note.display_name(), "test-note");

    note.title = Some("My Test Note".to_string());
    assert_eq!(note.display_name(), "My Test Note");
}

#[test]
fn test_note_link_targets() {
    let mut note = Note::new("Test", "/test.md");
    note.links = vec![
        WikiLink::new("Note A"),
        WikiLink::new("Note B"),
        WikiLink::with_display("Note C", "alias"),
    ];

    let targets = note.link_targets();
    assert_eq!(targets, vec!["Note A", "Note B", "Note C"]);
}
