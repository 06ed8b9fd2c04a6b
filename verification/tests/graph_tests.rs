use knowledge_mcp::graph::KnowledgeGraph;
use knowledge_mcp::vault::{NoteSource, Vault};

fn create_test_vault() -> Vault {
    let notes = [
        ("Hub Note.md", "# Hub Note\n\nLinks to [[Note A]], [[Note B]], and [[Note C]]."),
        ("Note A.md", "# Note A\n\nLinks back to [[Hub Note]]."),
        ("Note B.md", "# Note B\n\nLinks to [[Note A]] and [[Hub Note]]."),
        ("Note C.md", "# Note C\n\nLinks to [[Hub Note]]."),
        ("Orphan.md", "# Orphan\n\nNo links here."),
    ];
    let files: Vec<NoteSource> = notes
        .iter()
        .map(|(name, content)| NoteSource {
            path: format!("/vault/{}", name),
            content: content.to_string(),
            modified: 1,
        })
        .collect();
    let mut vault = Vault::new("/vault");
    vault.index(files);
    vault
}

#[test]
fn test_graph_from_vault() {
    let vault = create_test_vault();
    let graph = KnowledgeGraph::from_vault(&vault);

    assert_eq!(graph.node_count(), 5);
    assert!(graph.edge_count() > 0);
}

#[test]
fn test_graph_backlinks() {
    let vault = create_test_vault();
    let graph = KnowledgeGraph::from_vault(&vault);

    let backlinks = graph.backlinks("Hub Note");
    assert_eq!(backlinks.len(), 3); // Note A, Note B, Note C all link to Hub
}

#[test]
fn test_graph_outgoing_links() {
    let vault = create_test_vault();
    let graph = KnowledgeGraph::from_vault(&vault);

    let outgoing = graph.outgoing_links("Hub Note");
    assert_eq!(outgoing.len(), 3); // Hub links to A, B, C
}

#[test]
fn test_graph_orphans() {
    let vault = create_test_vault();
    let graph = KnowledgeGraph::from_vault(&vault);

    let orphans = graph.orphans();
    assert_eq!(orphans.len(), 1);
    assert_eq!(orphans[0], "Orphan");
}

#[test]
fn test_graph_hubs() {
    let vault = create_test_vault();
    let graph = KnowledgeGraph::from_vault(&vault);

    let hubs = graph.hubs(3);
    assert!(!hubs.is_empty());

    // Hub Note should be the most connected
    assert_eq!(hubs[0].0, "Hub Note");
}

#[test]
fn test_graph_degree() {
    let vault = create_test_vault();
    let graph = KnowledgeGraph::from_vault(&vault);

    let degree = graph.degree("Hub Note");
    assert!(degree >= 3);

    // Orphan: 0 connections
    let orphan_degree = graph.degree("Orphan");
    assert_eq!(orphan_degree, 0);
}

#[test]
fn mod_test_graph_stats() {
    let vault = create_test_vault();
    let graph = KnowledgeGraph::from_vault(&vault);

    let stats = graph.stats();
    assert_eq!(stats.total_notes, 5);
    assert!(stats.total_links > 0);
    assert_eq!(stats.orphan_count, 1);
    assert_eq!(stats.orphan_notes, vec!["Orphan"]);
}

#[test]
fn test_graph_case_insensitive() {
    let vault = create_test_vault();
    let graph = KnowledgeGraph::from_vault(&vault);

    let backlinks1 = graph.backlinks("Hub Note");
    let backlinks2 = graph.backlinks("hub note");
    let backlinks3 = graph.backlinks("HUB NOTE");

    assert_eq!(backlinks1.len(), backlinks2.len());
    assert_eq!(backlinks2.len(), backlinks3.len());
}

#[test]
fn test_graph_nonexistent_note() {
    let vault = create_test_vault();
    let graph = KnowledgeGraph::from_vault(&vault);

    let backlinks = graph.backlinks("Does Not Exist");
    assert!(backlinks.is_empty());

    let outgoing = graph.outgoing_links("Does Not Exist");
    assert!(outgoing.is_empty());
}

#[test]
fn graph_counts_each_link_once_per_occurrence() {
    let vault = create_test_vault();
    let graph = KnowledgeGraph::from_vault(&vault);
    // Hub: 3 out + 3 in; A: 1 out + 2 in; B: 2 out + 1 in; C: 1 out + 1 in.
    assert_eq!(graph.edge_count(), 7);
    assert_eq!(graph.degree("Hub Note"), 6);
    assert_eq!(graph.degree("note a"), 3);
    assert_eq!(graph.degree("Note B"), 3);
    assert_eq!(graph.degree("Note C"), 2);
    assert_eq!(graph.degree("missing"), 0);
}

#[test]
fn graph_hubs_are_sorted_and_stable() {
    let vault = create_test_vault();
    let graph = KnowledgeGraph::from_vault(&vault);
    let hubs = graph.hubs(10);
    assert_eq!(hubs.len(), 5);
    for w in hubs.windows(2) {
        assert!(w[0].1 >= w[1].1);
    }
    assert_eq!(hubs[0], ("Hub Note".to_string(), 6));
    assert_eq!(hubs[4], ("Orphan".to_string(), 0));
    let top = graph.hubs(2);
    assert_eq!(top.len(), 2);
    assert_eq!(top[0], hubs[0]);
    assert!(graph.hubs(0).is_empty());
}

#[test]
fn graph_skips_self_links_and_missing_targets() {
    let mut vault = Vault::new("/v");
    vault.index(vec![
        NoteSource { path: "/v/Self.md".to_string(), content: "[[Self]] [[Nowhere]] [[#Top]]".to_string(), modified: 1 },
        NoteSource { path: "/v/Other.md".to_string(), content: "[[self]]".to_string(), modified: 1 },
    ]);
    let graph = KnowledgeGraph::from_vault(&vault);
    assert_eq!(graph.edge_count(), 1);
    assert_eq!(graph.backlinks("Self"), vec!["Other"]);
    assert!(graph.outgoing_links("Self").is_empty());
}

#[test]
fn graph_backlinks_mirror_outgoing_links() {
    let vault = create_test_vault();
    let graph = KnowledgeGraph::from_vault(&vault);
    let names = ["Hub Note", "Note A", "Note B", "Note C", "Orphan"];
    for a in names {
        for b in names {
            let back = graph.backlinks(a).iter().any(|n| n == b);
            let out = graph.outgoing_links(b).iter().any(|n| n == a);
            assert_eq!(back, out, "{} / {}", a, b);
        }
    }
}

#[test]
fn graph_degree_is_backlinks_plus_links() {
    let vault = create_test_vault();
    let graph = KnowledgeGraph::from_vault(&vault);
    graph.has_no_self_loops();
    for name in ["Hub Note", "Note A", "Note B", "Note C", "Orphan"] {
        assert_eq!(graph.degree(name), graph.backlinks(name).len() + graph.outgoing_links(name).len());
    }
    assert_eq!(graph.degree("Hub Note"), 6);
}

#[test]
fn graph_small_vault_fits() {
    let vault = create_test_vault();
    assert!(knowledge_mcp::graph::fits_graph(&vault));
    assert!(knowledge_mcp::graph::fits_graph(&Vault::new("/empty")));
}
