use hikki::links::{
    extract_wiki_links, find_broken_links, index_vault, vault_backlinks, wiki_link_at_cursor, BacklinkIndex,
    TitleMap, WikiLink,
};

fn link(target: &str) -> WikiLink {
    WikiLink { target: target.into(), display: None, heading: None, start: 0, end: 0 }
}

fn titles(pairs: &[(&str, &str)]) -> TitleMap {
    let mut m = TitleMap::new();
    for (k, v) in pairs {
        m.insert(k.to_string(), v.to_string());
    }
    m
}

#[test]
fn extract_simple_link() {
    let links = extract_wiki_links("See [[my-note]] for details.");
    assert_eq!(links.len(), 1);
    assert_eq!(links[0].target, "my-note");
    assert!(links[0].display.is_none());
    assert!(links[0].heading.is_none());
}

#[test]
fn extract_link_with_display() {
    let links = extract_wiki_links("See [[my-note|My Note]] for details.");
    assert_eq!(links.len(), 1);
    assert_eq!(links[0].target, "my-note");
    assert_eq!(links[0].display.as_deref(), Some("My Note"));
}

#[test]
fn extract_link_with_heading() {
    let links = extract_wiki_links("See [[my-note#section]] for details.");
    assert_eq!(links.len(), 1);
    assert_eq!(links[0].target, "my-note");
    assert_eq!(links[0].heading.as_deref(), Some("section"));
}

#[test]
fn extract_link_with_heading_and_display() {
    let links = extract_wiki_links("See [[my-note#section|Display]] for details.");
    assert_eq!(links.len(), 1);
    assert_eq!(links[0].target, "my-note");
    assert_eq!(links[0].heading.as_deref(), Some("section"));
    assert_eq!(links[0].display.as_deref(), Some("Display"));
}

#[test]
fn extract_multiple_links() {
    let links = extract_wiki_links("Link to [[a]] and [[b]] and [[c|See C]].");
    assert_eq!(links.len(), 3);
    assert_eq!(links[0].target, "a");
    assert_eq!(links[1].target, "b");
    assert_eq!(links[2].target, "c");
    assert_eq!(links[2].display.as_deref(), Some("See C"));
}

#[test]
fn extract_no_links() {
    let links = extract_wiki_links("No wiki links here.");
    assert!(links.is_empty());
}

#[test]
fn display_text_with_alias() {
    let link = WikiLink {
        target: "my-note".into(),
        display: Some("Custom Display".into()),
        heading: None,
        start: 0,
        end: 0,
    };
    assert_eq!(link.display_text(), "Custom Display");
}

#[test]
fn display_text_without_alias() {
    let link = WikiLink { target: "my-note".into(), display: None, heading: None, start: 0, end: 0 };
    assert_eq!(link.display_text(), "my-note");
}

#[test]
fn wiki_link_at_cursor_inside() {
    let content = "text [[my-no";
    let result = wiki_link_at_cursor(content, 12);
    assert_eq!(result.as_deref(), Some("my-no"));
}

#[test]
fn wiki_link_at_cursor_outside() {
    let content = "text [[my-note]] more text";
    let result = wiki_link_at_cursor(content, 20);
    assert!(result.is_none());
}

#[test]
fn wiki_link_at_cursor_no_open() {
    let result = wiki_link_at_cursor("just text", 5);
    assert!(result.is_none());
}

#[test]
fn backlink_index_basic() {
    let mut idx = BacklinkIndex::new();
    let title_map = titles(&[("note-b", "note-b")]);
    let links = vec![link("note-b")];
    idx.update_note("note-a", &links, &title_map);
    assert_eq!(idx.backlinks_for("note-b"), vec!["note-a"]);
    assert_eq!(idx.forward_links_for("note-a"), vec!["note-b"]);
}

#[test]
fn backlink_index_update_replaces() {
    let mut idx = BacklinkIndex::new();
    let title_map = titles(&[("b", "b"), ("c", "c")]);
    // First: a -> b
    idx.update_note("a", &[link("b")], &title_map);
    assert_eq!(idx.backlinks_for("b"), vec!["a"]);
    // Update: a -> c (not b anymore)
    idx.update_note("a", &[link("c")], &title_map);
    assert!(idx.backlinks_for("b").is_empty());
    assert_eq!(idx.backlinks_for("c"), vec!["a"]);
}

#[test]
fn backlink_index_remove() {
    let mut idx = BacklinkIndex::new();
    let title_map = titles(&[("b", "b")]);
    idx.update_note("a", &[link("b")], &title_map);
    idx.remove_note("a");
    assert!(idx.backlinks_for("b").is_empty());
}

#[test]
fn orphan_detection() {
    let mut idx = BacklinkIndex::new();
    let title_map = titles(&[("b", "b")]);
    idx.update_note("a", &[link("b")], &title_map);
    let all_ids = vec!["a".to_string(), "b".to_string(), "c".to_string()];
    let orphans = idx.orphans(&all_ids);
    // "c" has no links at all
    assert_eq!(orphans, vec!["c"]);
}

#[test]
fn find_broken_links_basic() {
    let title_map = titles(&[("existing", "existing")]);
    let links = vec![link("existing"), link("missing")];
    let broken = find_broken_links(&links, &title_map);
    assert_eq!(broken.len(), 1);
    assert_eq!(broken[0].target, "missing");
}

#[test]
fn link_count() {
    let mut idx = BacklinkIndex::new();
    let title_map = titles(&[("b", "b"), ("c", "c")]);
    idx.update_note("a", &[link("b"), link("c")], &title_map);
    assert_eq!(idx.link_count(), 2);
}

#[test]
fn link_targets_resolve_ignoring_case() {
    let mut idx = BacklinkIndex::new();
    let title_map = titles(&[("note b", "note-b")]);
    idx.update_note("a", &[link("Note B")], &title_map);
    assert_eq!(idx.backlinks_for("note-b"), vec!["a"]);
}

#[test]
fn backlinks_are_sorted_and_unique() {
    let mut idx = BacklinkIndex::new();
    let title_map = titles(&[("t", "t")]);
    idx.update_note("zeta", &[link("t"), link("t")], &title_map);
    idx.update_note("alpha", &[link("t")], &title_map);
    assert_eq!(idx.backlinks_for("t"), vec!["alpha", "zeta"]);
    assert_eq!(idx.link_count(), 2);
}

#[test]
fn unresolved_links_are_not_indexed() {
    let mut idx = BacklinkIndex::new();
    let title_map = titles(&[]);
    idx.update_note("a", &[link("nowhere")], &title_map);
    assert_eq!(idx.link_count(), 0);
    assert!(idx.forward_links_for("a").is_empty());
}

#[test]
fn remove_note_clears_both_directions() {
    let mut idx = BacklinkIndex::new();
    let title_map = titles(&[("a", "a"), ("b", "b")]);
    idx.update_note("a", &[link("b")], &title_map);
    idx.update_note("b", &[link("a")], &title_map);
    idx.remove_note("a");
    assert!(idx.forward_links_for("a").is_empty());
    assert!(idx.backlinks_for("a").is_empty());
    assert!(idx.backlinks_for("b").is_empty());
    assert!(idx.forward_links_for("b").is_empty());
    assert_eq!(idx.link_count(), 0);
}

#[test]
fn remove_note_keeps_links_between_other_notes() {
    let mut idx = BacklinkIndex::new();
    let title_map = titles(&[("a", "a"), ("b", "b"), ("c", "c")]);
    idx.update_note("a", &[link("b")], &title_map);
    idx.update_note("b", &[link("c"), link("a")], &title_map);
    idx.update_note("c", &[link("b")], &title_map);
    idx.remove_note("a");
    assert_eq!(idx.forward_links_for("b"), vec!["c"]);
    assert_eq!(idx.forward_links_for("c"), vec!["b"]);
    assert_eq!(idx.backlinks_for("b"), vec!["c"]);
    assert_eq!(idx.backlinks_for("c"), vec!["b"]);
    assert_eq!(idx.link_count(), 2);
    idx.remove_note("a");
    assert_eq!(idx.link_count(), 2);
    assert_eq!(idx.backlinks_for("b"), vec!["c"]);
}

#[test]
fn index_vault_collects_backlinks() {
    let title_map = titles(&[("b", "b"), ("c", "c")]);
    let notes = vec![
        ("a".to_string(), "links to [[b]] and [[c]]".to_string()),
        ("b".to_string(), "back to [[c|see c]]".to_string()),
        ("c".to_string(), "no links".to_string()),
    ];
    let idx = index_vault(&notes, &title_map);
    assert_eq!(idx.backlinks_for("c"), vec!["a", "b"]);
    assert_eq!(idx.backlinks_for("b"), vec!["a"]);
    assert_eq!(idx.link_count(), 3);
}

#[test]
fn link_offsets_are_bytes() {
    let links = extract_wiki_links("é [[x]]");
    assert_eq!(links.len(), 1);
    assert_eq!(links[0].start, 3);
    assert_eq!(links[0].end, 8);
}

#[test]
fn title_map_get_and_contains() {
    let m = titles(&[("my note", "my-note")]);
    assert!(m.contains_key("my note"));
    assert!(!m.contains_key("other"));
    assert_eq!(m.get("my note").map(|s| s.as_str()), Some("my-note"));
}

#[test]
fn vault_index_backlinks_mirror_links() {
    let title_map = titles(&[("a", "a"), ("b", "b"), ("c", "c")]);
    let notes = vec![
        ("a".to_string(), "[[b]] [[c]]".to_string()),
        ("b".to_string(), "[[a]]".to_string()),
        ("c".to_string(), "[[c]] [[missing]]".to_string()),
    ];
    let idx = index_vault(&notes, &title_map);
    for s in ["a", "b", "c"] {
        for t in ["a", "b", "c"] {
            let links = idx.forward_links_for(s).contains(&t.to_string());
            let back = idx.backlinks_for(t).contains(&s.to_string());
            assert_eq!(links, back, "{s} -> {t}");
        }
    }
}

#[test]
fn vault_backlinks_lists_the_linking_notes() {
    let title_map = titles(&[("b", "b")]);
    let notes = vec![
        ("a".to_string(), "see [[B]]".to_string()),
        ("b".to_string(), "# B".to_string()),
        ("c".to_string(), "[[nowhere]]".to_string()),
    ];
    assert_eq!(vault_backlinks(&notes, &title_map, "b"), vec!["a"]);
    assert!(vault_backlinks(&notes, &title_map, "a").is_empty());
}
