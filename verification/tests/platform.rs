use hikki::platform::macos::MacOSNoteStorage;
use hikki::platform::NoteMeta;

fn meta(id: &str, title: &str, modified: u128, tags: &[&str]) -> NoteMeta {
    NoteMeta {
        id: id.to_string(),
        title: title.to_string(),
        modified,
        tags: tags.iter().map(|t| t.to_string()).collect(),
    }
}

#[test]
fn storage_titles() {
    assert_eq!(MacOSNoteStorage::extract_title("\n\n# Heading\nbody"), "Heading");
    assert_eq!(MacOSNoteStorage::extract_title("  first line  \n# later"), "first line");
    assert_eq!(MacOSNoteStorage::extract_title("   \n\t\n"), "Untitled");
    assert_eq!(MacOSNoteStorage::extract_title(&"y".repeat(90)), "y".repeat(80));
    // The text after "# " is kept as it is.
    assert_eq!(MacOSNoteStorage::extract_title("#  Spaced"), " Spaced");
}

#[test]
fn storage_tags() {
    assert_eq!(
        MacOSNoteStorage::extract_tags("---\ntags: rust, notes , ,x\n---\ntags: other"),
        vec!["rust", "notes", "x"]
    );
    assert!(MacOSNoteStorage::extract_tags("no tags here").is_empty());
    assert!(MacOSNoteStorage::extract_tags("tags:").is_empty());
}

#[test]
fn storage_paths() {
    let s = MacOSNoteStorage::new("/notes");
    assert_eq!(s.note_path("idea"), "/notes/idea.md");
    assert_eq!(s.notes_dir(), "/notes");
}

#[test]
fn storage_listing_is_newest_first_and_stable() {
    let listed = MacOSNoteStorage::newest_first(vec![
        meta("old", "Old", 1, &[]),
        meta("new", "New", 9, &[]),
        meta("tie-a", "A", 5, &[]),
        meta("tie-b", "B", 5, &[]),
    ]);
    let ids: Vec<&str> = listed.iter().map(|n| n.id.as_str()).collect();
    assert_eq!(ids, vec!["new", "tie-a", "tie-b", "old"]);
}

#[test]
fn storage_search_matches_title_or_tag_ignoring_case() {
    let found = MacOSNoteStorage::matching(
        vec![
            meta("a", "Rust Book", 0, &[]),
            meta("b", "Cooking", 0, &["RUSTY"]),
            meta("c", "Garden", 0, &["plants"]),
        ],
        "rust",
    );
    let ids: Vec<&str> = found.iter().map(|n| n.id.as_str()).collect();
    assert_eq!(ids, vec!["a", "b"]);
}

#[test]
fn storage_meta_for_reads_title_and_tags() {
    let m = MacOSNoteStorage::meta_for("n", "tags: a, b\n# Title", 7);
    assert_eq!(m.id, "n");
    assert_eq!(m.title, "tags: a, b");
    assert_eq!(m.tags, vec!["a", "b"]);
    assert_eq!(m.modified, 7);
}
