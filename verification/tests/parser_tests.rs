use knowledge_mcp::vault::note::Heading;
use knowledge_mcp::vault::parser::{parse_markdown, parse_wiki_link};

#[test]
fn test_parse_simple_wiki_link() {
    let content = "Check out [[Deep Work]] for more info.";
    let result = parse_markdown(content);

    assert_eq!(result.links.len(), 1);
    assert_eq!(result.links[0].target, "Deep Work");
    assert!(result.links[0].display.is_none());
    assert!(result.links[0].heading.is_none());
}

#[test]
fn test_parse_wiki_link_with_alias() {
    let content = "See [[Deep Work|Cal Newport's book]] here.";
    let result = parse_markdown(content);

    assert_eq!(result.links.len(), 1);
    assert_eq!(result.links[0].target, "Deep Work");
    assert_eq!(result.links[0].display, Some("Cal Newport's book".to_string()));
}

#[test]
fn test_parse_wiki_link_with_heading() {
    let content = "Check [[Note#Section One]] for details.";
    let result = parse_markdown(content);

    assert_eq!(result.links.len(), 1);
    assert_eq!(result.links[0].target, "Note");
    assert_eq!(result.links[0].heading, Some("Section One".to_string()));
}

#[test]
fn test_parse_multiple_links() {
    let content = r#"
# My Note

This references [[Note A]] and [[Note B]].
Also see [[Note C|alias]].
"#;
    let result = parse_markdown(content);

    assert_eq!(result.links.len(), 3);
    assert_eq!(result.links[0].target, "Note A");
    assert_eq!(result.links[1].target, "Note B");
    assert_eq!(result.links[2].target, "Note C");
    assert_eq!(result.links[2].display, Some("alias".to_string()));
}

#[test]
fn test_parse_headings() {
    let content = r#"
# Main Title

Some text.

## Section One

More text.

### Subsection

Even more text.

## Section Two
"#;
    let result = parse_markdown(content);

    assert_eq!(result.title, Some("Main Title".to_string()));
    assert_eq!(result.headings.len(), 4);
    assert_eq!(result.headings[0], Heading::new(1, "Main Title"));
    assert_eq!(result.headings[1], Heading::new(2, "Section One"));
    assert_eq!(result.headings[2], Heading::new(3, "Subsection"));
    assert_eq!(result.headings[3], Heading::new(2, "Section Two"));
}

#[test]
fn test_parse_no_title_if_no_h1() {
    let content = r#"
## Not a title

Some content with [[Link]].
"#;
    let result = parse_markdown(content);

    assert!(result.title.is_none());
    assert_eq!(result.headings.len(), 1);
    assert_eq!(result.headings[0].level, 2);
}

#[test]
fn test_parse_zettelkasten_example() {
    let content = r#"
# Zettelkasten Method

The Zettelkasten is a knowledge management method.

## Benefits

- Encourages [[Deep Work]] and focused thinking
- Builds a personal [[Knowledge Graph]]
- Supports [[Spaced Repetition]] through review

## Related Concepts

- [[Plain Text Files]] - The preferred format
- [[Linked Data]] - The web of connections
"#;
    let result = parse_markdown(content);

    assert_eq!(result.title, Some("Zettelkasten Method".to_string()));
    assert_eq!(result.links.len(), 5);

    let targets: Vec<&str> = result.links.iter().map(|l| l.target.as_str()).collect();
    assert!(targets.contains(&"Deep Work"));
    assert!(targets.contains(&"Knowledge Graph"));
    assert!(targets.contains(&"Spaced Repetition"));
    assert!(targets.contains(&"Plain Text Files"));
    assert!(targets.contains(&"Linked Data"));
}

#[test]
fn test_parse_empty_content() {
    let result = parse_markdown("");

    assert!(result.links.is_empty());
    assert!(result.headings.is_empty());
    assert!(result.title.is_none());
}

#[test]
fn test_parse_content_without_links() {
    let content = r#"
# Just a Note

This note has no wiki links, just plain text.
And some **bold** and *italic* formatting.
"#;
    let result = parse_markdown(content);

    assert!(result.links.is_empty());
    assert_eq!(result.title, Some("Just a Note".to_string()));
    assert_eq!(result.headings.len(), 1);
}

#[test]
fn test_parse_same_file_heading_link() {
    let content = "See [[#Local Section]] for more.";
    let result = parse_markdown(content);

    assert_eq!(result.links.len(), 1);
    assert_eq!(result.links[0].target, "");
    assert_eq!(result.links[0].heading, Some("Local Section".to_string()));
}

#[test]
fn parse_wiki_link_splits_target_and_heading() {
    let l = parse_wiki_link("  Note#Part  ");
    assert_eq!(l.target, "Note");
    assert_eq!(l.heading.as_deref(), Some("Part"));
    assert!(l.display.is_none());
    let plain = parse_wiki_link("Plain");
    assert_eq!(plain.target, "Plain");
    assert!(plain.heading.is_none());
}

#[test]
fn parse_first_h1_is_title() {
    let result = parse_markdown("# First\n\n# Second\n");
    assert_eq!(result.title, Some("First".to_string()));
    assert_eq!(result.headings.len(), 2);
}

#[test]
fn parser_options_are_the_six_extensions() {
    assert_eq!(knowledge_mcp::vault::parser::parser_options(), 32768 + 128 + 8 + 2 + 16 + 64);
}

#[test]
fn parser_skips_yaml_front_matter() {
    let result = parse_markdown("---\ntitle: x\n---\n# Real\n\n- [ ] task with ~~strike~~\n");
    assert_eq!(result.headings.len(), 1);
    assert_eq!(result.headings[0].text, "Real");
    assert_eq!(result.title, Some("Real".to_string()));
}
