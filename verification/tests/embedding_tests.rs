use knowledge_mcp::embedding::chunking::{char_len, split_comes_to_end, split_text_with_overlap, truncate_to_chars};
use knowledge_mcp::embedding::keys::{
    embedding_id, embedding_kind, embedding_note_name, key_belongs_to_note, EmbeddingKind,
};
use knowledge_mcp::embedding::sections::{build_content_prefix, parse_heading_line, split_markdown_sections};
use knowledge_mcp::embedding::{
    batch_texts, build_content_chunks, build_link_context, content_chunking_comes_to_end, hex_id, needs_update, needs_update_hash, note_hash,
    prepare_for_embedding, prepare_note_with_link_context, stored_note_count, key_note_total, vault_id_from_path,
    EmbeddingTextConfig,
};
use knowledge_mcp::vault::note::{Note, WikiLink};

#[test]
fn test_vault_id_from_path() {
    let id1 = vault_id_from_path("/home/user/vault1");
    let id2 = vault_id_from_path("/home/user/vault2");

    assert_ne!(id1, id2);
    assert_eq!(id1.len(), 16);
}

#[test]
fn test_note_hash() {
    let content1 = "Hello world";
    let content2 = "Hello world";
    let content3 = "Different content";

    assert_eq!(note_hash(content1, ""), note_hash(content2, ""));
    assert_ne!(note_hash(content1, ""), note_hash(content3, ""));
}

#[test]
fn test_split_markdown_sections_respects_code_fences() {
    let content = r#"# Title

Intro text.

```
# Not a heading
```

## Section One

Body text.
"#;
    let sections = split_markdown_sections(content);
    assert_eq!(sections.len(), 2);
    assert!(sections[0].body.contains("# Not a heading"));
    assert_eq!(sections[1].heading_path, vec!["Title", "Section One"]);
}

#[test]
fn test_split_text_with_overlap() {
    let text = "abcdefghijklmnopqrstuvwxyz";
    let chunks = split_text_with_overlap(text, 10, 3);
    assert!(!chunks.is_empty());
    for chunk in &chunks {
        assert!(char_len(chunk) <= 10);
    }
}

#[test]
fn embedding_split_text_exact_chunks() {
    assert_eq!(
        split_text_with_overlap("abcdefghijklmnopqrstuvwxyz", 10, 3),
        vec!["abcdefghij", "hijklmnopq", "opqrstuvwx", "vwxyz"]
    );
    // Breaks after whitespace when that keeps more than half the window;
    // without overlap the next chunk starts one character after the end.
    assert_eq!(split_text_with_overlap("aaaa bbbb cccc", 8, 0), vec!["aaaa", "bbb cccc"]);
    assert_eq!(split_text_with_overlap("aaaa bbbb cccc", 8, 2), vec!["aaaa", "a bbbb", "b cccc"]);
    assert!(split_text_with_overlap("   ", 5, 1).is_empty());
    assert_eq!(split_text_with_overlap("xy", 0, 0), vec!["x"]);
}

#[test]
fn embedding_hex_id_is_padded_lowercase() {
    assert_eq!(hex_id(0), "0000000000000000");
    assert_eq!(hex_id(0xabc), "0000000000000abc");
    assert_eq!(hex_id(u64::MAX), "ffffffffffffffff");
    assert_eq!(vault_id_from_path("/v"), format!("{:016x}", seahash::hash(b"/v")));
}

#[test]
fn embedding_keys_round_trip() {
    let id = embedding_id("Deep Work", EmbeddingKind::Content, 12);
    assert_eq!(id, "Deep Work|c|12");
    assert_eq!(embedding_note_name(&id), "Deep Work");
    assert_eq!(embedding_kind(&id), EmbeddingKind::Content);
    let l = embedding_id("N", EmbeddingKind::LinkContext, 0);
    assert_eq!(l, "N|l|0");
    assert_eq!(embedding_kind(&l), EmbeddingKind::LinkContext);
    assert_eq!(embedding_kind("plain"), EmbeddingKind::Content);
    assert_eq!(EmbeddingKind::from_code("l"), EmbeddingKind::LinkContext);
    assert_eq!(EmbeddingKind::from_code("x"), EmbeddingKind::Content);
    assert_eq!(EmbeddingKind::LinkContext.code(), "l");
    assert!(key_belongs_to_note("N|l|0", "N"));
    assert!(key_belongs_to_note("N", "N"));
    assert!(!key_belongs_to_note("No|c|0", "N"));
}

#[test]
fn embedding_heading_lines() {
    assert_eq!(parse_heading_line("  ## Title  "), Some((2, "Title".to_string())));
    assert_eq!(parse_heading_line("####### Seven"), None);
    assert_eq!(parse_heading_line("#"), None);
    assert_eq!(parse_heading_line("#NoSpace"), Some((1, "NoSpace".to_string())));
    assert_eq!(parse_heading_line("text"), None);
}

#[test]
fn embedding_prefix_and_truncation() {
    let path = vec!["A".to_string(), "B".to_string()];
    assert_eq!(build_content_prefix("T", &path, true), "T. Section: A > B. ");
    assert_eq!(build_content_prefix("T", &path, false), "T. ");
    assert_eq!(build_content_prefix("T", &[], true), "T. ");
    assert_eq!(truncate_to_chars("héllo", 2), "hé");
    assert_eq!(truncate_to_chars("héllo", 0), "h");
    assert_eq!(truncate_to_chars("hi", 10), "hi");
}

#[test]
fn embedding_sections_heading_stack() {
    let sections = split_markdown_sections("# A\na\n## B\nb\n# C\nc\n");
    let paths: Vec<Vec<String>> = sections.iter().map(|s| s.heading_path.clone()).collect();
    assert_eq!(paths, vec![vec!["A"], vec!["A", "B"], vec!["C"]]);
    assert_eq!(sections[1].body, "b\n");
    let plain = split_markdown_sections("just text");
    assert_eq!(plain.len(), 1);
    assert!(plain[0].heading_path.is_empty());
    assert_eq!(plain[0].body, "just text\n");
    assert!(split_markdown_sections("  \n").is_empty());
}

fn linked_note() -> Note {
    let mut note = Note::new("Deep Work", "/v/Deep Work.md");
    note.title = Some("Deep Work Title".to_string());
    note.links = vec![
        WikiLink::new("Flow"),
        WikiLink::with_display("Focus", "attention"),
        WikiLink::new("Flow"),
        WikiLink::with_heading("", "Local"),
    ];
    note
}

#[test]
fn embedding_link_context_sorted_without_duplicates() {
    let cfg = EmbeddingTextConfig::new();
    let note = linked_note();
    let backlinks = vec!["Zeta".to_string(), "Alpha".to_string(), "Zeta".to_string()];
    assert_eq!(
        build_link_context(&cfg, &note, &backlinks),
        "Links: Flow, Focus (attention). Backlinks: Alpha, Zeta. "
    );
    let mut off = cfg;
    off.include_link_context = false;
    assert_eq!(build_link_context(&off, &note, &backlinks), "");
    let bare = Note::new("x", "/x.md");
    assert_eq!(build_link_context(&cfg, &bare, &[]), "");
    let mut short = cfg;
    short.link_context_max_chars = 5;
    assert_eq!(build_link_context(&short, &note, &backlinks), "Links");
}

#[test]
fn embedding_content_chunks() {
    let cfg = EmbeddingTextConfig::new();
    let note = linked_note();
    let chunks = build_content_chunks(&cfg, &note, "# Intro\nHello.\n## Part\nMore.\n");
    let ids: Vec<&str> = chunks.iter().map(|c| c.id.as_str()).collect();
    assert_eq!(ids, vec!["Deep Work|c|0", "Deep Work|c|1"]);
    assert_eq!(chunks[0].text, "Deep Work Title. Section: Intro. Hello.");
    assert_eq!(chunks[1].text, "Deep Work Title. Section: Intro > Part. More.");
    let empty = build_content_chunks(&cfg, &note, "");
    assert_eq!(empty.len(), 1);
    assert_eq!(empty[0].id, "Deep Work|c|0");
    assert_eq!(empty[0].text, "Deep Work Title. ");
}

#[test]
fn embedding_prepared_note_has_link_chunk_last() {
    let cfg = EmbeddingTextConfig::new();
    let note = linked_note();
    let p = prepare_note_with_link_context(&cfg, &note, "Body.", "  Links: Flow.  ", 7);
    assert_eq!(p.note_name, "Deep Work");
    assert_eq!(p.hash, 7);
    assert_eq!(p.chunks.len(), 2);
    assert_eq!(p.chunks[1].id, "Deep Work|l|0");
    assert_eq!(p.chunks[1].text, "Deep Work Title. Links: Flow.");
    let (texts, meta) = batch_texts(&[p.clone()]);
    assert_eq!(texts.len(), 2);
    assert_eq!(texts[1], "Deep Work Title. Links: Flow.");
    assert_eq!(meta[1], ("Deep Work".to_string(), 7, "Deep Work|l|0".to_string()));
}

#[test]
fn embedding_skips_notes_with_unchanged_hash() {
    let cfg = EmbeddingTextConfig::new();
    let note = linked_note();
    let first = prepare_for_embedding(&cfg, &note, "Body.", &[], None).unwrap();
    assert!(prepare_for_embedding(&cfg, &note, "Body.", &[], Some(first.hash)).is_none());
    assert!(prepare_for_embedding(&cfg, &note, "Body changed.", &[], Some(first.hash)).is_some());
    let link = build_link_context(&cfg, &note, &[]);
    assert_eq!(first.hash, note_hash("Body.", &link));
    assert!(needs_update(None, "a", "b"));
    assert!(!needs_update(Some(note_hash("a", "b")), "a", "b"));
    assert!(needs_update_hash(Some(1), 2));
    assert!(!needs_update_hash(Some(2), 2));
}

#[test]
fn embedding_stored_note_count() {
    let keys = vec!["A|c|0".to_string(), "A|c|1".to_string(), "B|l|0".to_string()];
    assert_eq!(stored_note_count(0, &keys), 2);
    assert_eq!(stored_note_count(5, &keys), 5);
    assert_eq!(stored_note_count(0, &[]), 0);
    assert_eq!(key_note_total(&keys), 2);
    assert_eq!(key_note_total(&[]), 0);
}

#[test]
fn embedding_split_ends_unless_a_step_stands_still() {
    assert!(split_comes_to_end("abcdefghijklmnopqrstuvwxyz", 10, 3));
    assert!(split_comes_to_end("aaaa bbbb cccc", 8, 2));
    assert!(split_comes_to_end("", 1, 5));
    // A break after whitespace leaves a chunk no longer than the overlap.
    assert!(!split_comes_to_end("abc def", 4, 3));
    let cfg = EmbeddingTextConfig::new();
    assert!(content_chunking_comes_to_end(&cfg, &linked_note(), "# A\nsome text\n"));
}

#[test]
fn sections_heading_paths_follow_levels() {
    let content = "# A\n## B\n### C\ntext\n## D\nmore\n####### not a heading\n";
    let sections = split_markdown_sections(content);
    for s in &sections {
        assert!(s.heading_path.len() <= 6);
        assert!(!s.body.trim().is_empty() || !s.heading_path.is_empty());
    }
    let last = sections.last().unwrap();
    assert_eq!(last.heading_path, vec!["A", "D"]);
    assert!(last.body.contains("####### not a heading"));
    assert_eq!(sections.len(), 4);
}
