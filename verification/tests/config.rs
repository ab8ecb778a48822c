use hikki::config::{notes_dir_from, EditorConfig, StorageConfig, SyncConfig};

#[test]
fn storage_format_is_markdown() {
    let storage = StorageConfig::default();
    assert_eq!(storage.format, "markdown");
}

#[test]
fn sync_defaults() {
    let sync = SyncConfig::default();
    assert!(!sync.enable);
    assert_eq!(sync.method, "git");
    assert!(sync.auto_commit);
}

#[test]
fn storage_daily_dir() {
    let storage = StorageConfig::default();
    assert_eq!(storage.daily_dir, "daily");
    assert!(storage.front_matter);
}

#[test]
fn editor_defaults_and_bare() {
    let d = EditorConfig::default();
    assert_eq!(d.tab_size, 4);
    assert!(d.word_wrap);
    assert_eq!(d.auto_save_secs, 30);
    let b = EditorConfig::bare();
    assert_eq!(b.tab_size, 0);
    assert!(!b.word_wrap);
}

#[test]
fn bare_storage_and_sync_are_empty() {
    let s = StorageConfig::bare();
    assert!(s.notes_dir.is_empty());
    assert!(s.format.is_empty());
    assert!(!s.front_matter);
    let y = SyncConfig::bare();
    assert!(!y.enable);
    assert!(y.method.is_empty());
    assert!(!y.auto_commit);
}

#[test]
fn notes_dir_fallbacks() {
    assert_eq!(notes_dir_from(Some("/home/a/Documents"), Some("/home/a")), "/home/a/Documents/hikki");
    assert_eq!(notes_dir_from(None, Some("/home/a/")), "/home/a/hikki");
    assert_eq!(notes_dir_from(None, None), "/hikki");
}

#[test]
fn default_notes_dir_ends_in_hikki() {
    let s = StorageConfig::default();
    assert!(s.notes_dir.ends_with("hikki"));
}
