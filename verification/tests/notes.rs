use hikki::notes::{
    extract_inline_tags, fuzzy_score, join_path, new_note_content, note_id_from_path,
    note_id_from_title,
    parse_front_matter, resolve_title, strip_front_matter, FrontMatter, NoteMeta, Vault,
};

#[test]
fn parse_front_matter_basic() {
    let content = "---\ntitle: My Note\ntags: [rust, notes]\naliases: [my, note]\n---\n\n# My Note\n";
    let fm = parse_front_matter(content);
    assert_eq!(fm.title.as_deref(), Some("My Note"));
    assert_eq!(fm.tags, vec!["rust", "notes"]);
    assert_eq!(fm.aliases, vec!["my", "note"]);
}

#[test]
fn parse_front_matter_empty() {
    let fm = parse_front_matter("no front matter here");
    assert!(fm.title.is_none());
    assert!(fm.tags.is_empty());
}

#[test]
fn resolve_title_from_front_matter() {
    let fm = FrontMatter { title: Some("Custom Title".into()), ..FrontMatter::default() };
    assert_eq!(resolve_title(&fm, "# Heading", "file-id"), "Custom Title");
}

#[test]
fn resolve_title_from_heading() {
    let fm = FrontMatter::default();
    assert_eq!(resolve_title(&fm, "# My Heading\n\nContent", "file-id"), "My Heading");
}

#[test]
fn resolve_title_from_id() {
    let fm = FrontMatter::default();
    assert_eq!(resolve_title(&fm, "", "some/path/my-note"), "my-note");
}

#[test]
fn strip_front_matter_works() {
    let content = "---\ntitle: test\n---\n\n# Heading\n";
    let body = strip_front_matter(content);
    assert!(body.contains("# Heading"));
    // Body starts after the closing --- plus one newline
    let trimmed = body.trim_start();
    assert!(trimmed.starts_with("# Heading"));
}

#[test]
fn strip_front_matter_no_front_matter() {
    let content = "# Just a heading\n";
    assert_eq!(strip_front_matter(content), content);
}

#[test]
fn extract_inline_tags_basic() {
    let mut tags = Vec::new();
    extract_inline_tags("hello #rust and #notes here", &mut tags);
    assert!(tags.contains(&"rust".to_string()));
    assert!(tags.contains(&"notes".to_string()));
}

#[test]
fn extract_inline_tags_dedup() {
    let mut tags = vec!["rust".to_string()];
    extract_inline_tags("hello #rust again", &mut tags);
    assert_eq!(tags.len(), 1);
}

#[test]
fn fuzzy_score_exact() {
    assert!(fuzzy_score("hello", "hello") > 0);
}

#[test]
fn fuzzy_score_subsequence() {
    assert!(fuzzy_score("hlo", "hello") > 0);
}

#[test]
fn fuzzy_score_no_match() {
    assert_eq!(fuzzy_score("xyz", "hello"), 0);
}

#[test]
fn fuzzy_score_empty_query() {
    assert!(fuzzy_score("", "anything") > 0);
}

fn listed(id: &str, title: &str) -> NoteMeta {
    let note = Vault::create_note(id, title, 0);
    NoteMeta::from_content(id, &note.content, 0)
}

#[test]
fn vault_fuzzy_find() {
    let notes = vec![
        listed("meeting-notes", "Meeting Notes"),
        listed("project-ideas", "Project Ideas"),
        listed("daily-log", "Daily Log"),
    ];
    let results = Vault::fuzzy_find(notes, "meet");
    assert!(!results.is_empty());
    assert_eq!(results[0].id, "meeting-notes");
}

#[test]
fn vault_search_text() {
    let notes = vec![listed("rust-notes", "Rust Notes"), listed("python-notes", "Python Notes")];
    let results = Vault::search_text(notes, "rust");
    assert_eq!(results.len(), 1);
    assert_eq!(results[0].id, "rust-notes");
}

#[test]
fn vault_title_map() {
    let notes = vec![listed("my-note", "My Custom Title")];
    let map = Vault::build_title_map(&notes);
    assert!(map.contains_key("my-note"));
    assert!(map.contains_key("my custom title"));
}

#[test]
fn fuzzy_score_exact_values() {
    // A matched character scores 1, or 2 right after another match.
    assert_eq!(fuzzy_score("ab", "ab"), 3);
    assert_eq!(fuzzy_score("hlo", "hello"), 3);
    assert_eq!(fuzzy_score("", "anything"), 1);
}

#[test]
fn front_matter_without_closing_fence_is_ignored() {
    let fm = parse_front_matter("---\ntitle: Open\n");
    assert!(fm.title.is_none());
    assert_eq!(strip_front_matter("---\ntitle: Open\n"), "---\ntitle: Open\n");
}

#[test]
fn resolve_title_cuts_first_line_to_80() {
    let long = "x".repeat(100);
    let fm = FrontMatter::default();
    assert_eq!(resolve_title(&fm, &long, "id"), "x".repeat(80));
}

#[test]
fn inline_tags_drop_trailing_punctuation() {
    let mut tags = Vec::new();
    extract_inline_tags("done #todo, and #next.", &mut tags);
    assert_eq!(tags, vec!["todo", "next"]);
}

#[test]
fn new_note_content_template() {
    let c = new_note_content("T", &["a".to_string(), "b".to_string()], "body");
    assert_eq!(c, "---\ntitle: T\ntags: [a, b]\n---\n\n# T\n\nbody");
    let e = new_note_content("T", &[], "");
    assert_eq!(e, "---\ntitle: T\ntags: []\n---\n\n# T\n\n");
}

#[test]
fn note_ids_from_titles() {
    assert_eq!(note_id_from_title("My Note"), "my-note");
    assert_eq!(note_id_from_title("Hello, World!"), "hello-world");
    assert_eq!(note_id_from_title("Ünïcode Ok"), "ünïcode-ok");
}

#[test]
fn joined_paths() {
    assert_eq!(join_path("/notes", "a.md"), "/notes/a.md");
    assert_eq!(join_path("/notes/", "a.md"), "/notes/a.md");
    assert_eq!(join_path("/notes", "/abs.md"), "/abs.md");
    assert_eq!(join_path("", "a.md"), "a.md");
}

#[test]
fn vault_paths_and_listing_order() {
    let v = Vault::with_root("/vault");
    assert_eq!(v.id_to_path("sub/n"), "/vault/sub/n.md");
    let mut a = listed("a", "A");
    a.modified = 1;
    let mut b = listed("b", "B");
    b.modified = 3;
    let mut c = listed("c", "C");
    c.modified = 1;
    let sorted = Vault::list_notes(vec![a, b, c]);
    let ids: Vec<&str> = sorted.iter().map(|n| n.id.as_str()).collect();
    assert_eq!(ids, vec!["b", "a", "c"]);
}

#[test]
fn limit_results_defaults_to_twenty() {
    let many: Vec<NoteMeta> = (0..25).map(|i| listed(&format!("n{i}"), "T")).collect();
    assert_eq!(Vault::limit_results(many.clone(), None).len(), 20);
    let few = Vault::limit_results(many.clone(), Some(3));
    let ids: Vec<&str> = few.iter().map(|n| n.id.as_str()).collect();
    assert_eq!(ids, vec!["n0", "n1", "n2"]);
    assert_eq!(Vault::limit_results(many, Some(100)).len(), 25);
}

#[test]
fn fuzzy_needs_the_order() {
    // The same characters out of order do not match.
    assert_eq!(fuzzy_score("ba", "ab"), 0);
    assert!(fuzzy_score("ace", "abcde") > 0);
}

#[test]
fn title_map_covers_ids_titles_and_aliases() {
    let mut n = listed("deep/id", "Some Title");
    n.aliases = vec!["Alias One".to_string()];
    let map = Vault::build_title_map(&[n]);
    assert_eq!(map.get("deep/id").map(|s| s.as_str()), Some("deep/id"));
    assert_eq!(map.get("some title").map(|s| s.as_str()), Some("deep/id"));
    assert_eq!(map.get("alias one").map(|s| s.as_str()), Some("deep/id"));
}

#[test]
fn resolve_title_prefers_a_later_heading_to_the_first_line() {
    let fm = FrontMatter::default();
    assert_eq!(resolve_title(&fm, "intro line\n# Heading", "x"), "Heading");
}

#[test]
fn resolve_title_uses_first_line_without_heading() {
    let fm = FrontMatter::default();
    assert_eq!(resolve_title(&fm, "\n---\n  first words  \n## sub", "x"), "first words");
}

#[test]
fn note_id_from_path_drops_the_extension() {
    assert_eq!(note_id_from_path("my-note.md"), "my-note");
    assert_eq!(note_id_from_path("projects/hikki.md"), "projects/hikki");
    assert_eq!(note_id_from_path("a.b/c.d.md"), "a.b/c.d");
    assert_eq!(note_id_from_path("dir/plain"), "dir/plain");
    assert_eq!(note_id_from_path("dir/.hidden"), "dir/.hidden");
    assert_eq!(note_id_from_path("sub\\note.md"), "sub/note");
}

#[test]
fn search_notes_finds_content_matches_after_title_matches() {
    let notes = vec![
        NoteMeta::from_content("x", "# Alpha\n\nzebra", 0),
        listed("zebra-facts", "Zebra Facts"),
        NoteMeta::from_content("y", "# Beta\n\nnothing here", 0),
    ];
    let contents = vec![
        "# Alpha\n\nzebra".to_string(),
        "# Zebra Facts\n".to_string(),
        "# Beta\n\nnothing here".to_string(),
    ];
    let results = Vault::search_notes(notes, &contents, "ZEBRA");
    let ids: Vec<&str> = results.iter().map(|n| n.id.as_str()).collect();
    assert_eq!(ids, vec!["zebra-facts", "x"]);
}

#[test]
fn search_notes_content_only_match() {
    let notes = vec![NoteMeta::from_content("x", "# Alpha\n\nzebra", 0)];
    let contents = vec!["# Alpha\n\nzebra".to_string()];
    let results = Vault::search_notes(notes, &contents, "zebra");
    assert_eq!(results.len(), 1);
    assert_eq!(results[0].id, "x");
}

#[test]
fn search_notes_empty_query_keeps_listing() {
    let notes = vec![listed("a", "A"), listed("b", "B")];
    let contents = vec![String::new(), String::new()];
    let results = Vault::search_notes(notes, &contents, "");
    assert_eq!(results.len(), 2);
    assert_eq!(results[0].id, "a");
}

#[test]
fn fuzzy_score_bounds_on_examples() {
    // All adjacent: 2n - 1; none adjacent: n.
    assert_eq!(fuzzy_score("abc", "abc"), 5);
    assert_eq!(fuzzy_score("abc", "axbxc"), 3);
    assert_eq!(fuzzy_score("abc", "acb"), 0);
}

#[test]
fn inline_tags_keep_repeated_old_tags_in_front() {
    let mut tags = vec!["a".to_string(), "a".to_string()];
    extract_inline_tags("#a #b text #b #c", &mut tags);
    assert_eq!(tags, vec!["a", "a", "b", "c"]);
}

#[test]
fn body_is_whole_content_without_front_matter() {
    let content = "# Title\n\nbody";
    assert_eq!(strip_front_matter(content), content);
    let with_fm = "---\ntitle: x\n---\nrest";
    assert_eq!(strip_front_matter(with_fm), "rest");
    assert!(with_fm.ends_with(strip_front_matter(with_fm)));
}
