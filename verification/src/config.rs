//! Configuration sections whose values the library decides: editor
//! behaviour, note storage and sync.  Discovery, loading and the sections
//! that hold floating-point values live with the application.

use crate::notes::{join_path, path_join};
use vstd::prelude::*;
use vstd::string::StringExecFns;

verus! {

/// Editor behavior settings.
#[derive(Clone, Debug)]
pub struct EditorConfig {
    /// Tab size in spaces.
    pub tab_size: u32,
    /// Enable word wrap.
    pub word_wrap: bool,
    /// Enable spell checking.
    pub spell_check: bool,
    /// Auto-save interval in seconds (0 to disable).
    pub auto_save_secs: u32,
    /// Auto-close brackets and quotes.
    pub auto_pairs: bool,
}

impl Default for EditorConfig {
    fn default() -> (c: Self)
        ensures
            c.tab_size == 4,
            c.word_wrap,
            !c.spell_check,
            c.auto_save_secs == 30,
            c.auto_pairs,
    {
        Self { tab_size: 4, word_wrap: true, spell_check: false, auto_save_secs: 30, auto_pairs: true }
    }
}

impl EditorConfig {
    /// The zero-opinion floor: every number zero, every toggle off.
    pub fn bare() -> (c: Self)
        ensures
            c.tab_size == 0,
            !c.word_wrap,
            !c.spell_check,
            c.auto_save_secs == 0,
            !c.auto_pairs,
    {
        Self { tab_size: 0, word_wrap: false, spell_check: false, auto_save_secs: 0, auto_pairs: false }
    }
}

/// Note storage settings.
#[derive(Clone, Debug)]
pub struct StorageConfig {
    /// Directory where notes are stored.
    pub notes_dir: String,
    /// Note file format.
    pub format: String,
    /// Enable automatic backups.
    pub auto_backup: bool,
    /// Daily notes subdirectory (relative to notes_dir).
    pub daily_dir: String,
    /// Generate front matter on new notes.
    pub front_matter: bool,
}

/// The default notes directory: `hikki` under the documents directory,
/// else under the home directory, else under `/`.
pub open spec fn default_notes_dir(document: Option<Seq<char>>, home: Option<Seq<char>>) -> Seq<
    char,
> {
    let base = match document {
        Some(d) => d,
        None => match home {
            Some(h) => h,
            None => "/"@,
        },
    };
    path_join(base, "hikki"@)
}

/// The user's documents directory (`dirs::document_dir`), as a string.
/// Nothing is stated of the result: it depends on the platform and the
/// environment.
#[verifier::external_body]
fn document_dir() -> (d: Option<String>) {
    match dirs::document_dir() {
        Some(p) => Some(p.to_string_lossy().into_owned()),
        None => None,
    }
}

/// The user's home directory (`dirs::home_dir`), as a string.  Nothing is
/// stated of the result: it depends on the platform and the environment.
#[verifier::external_body]
fn home_dir() -> (h: Option<String>) {
    match dirs::home_dir() {
        Some(p) => Some(p.to_string_lossy().into_owned()),
        None => None,
    }
}

/// The default notes directory for the given documents and home
/// directories.
pub fn notes_dir_from(document: Option<&str>, home: Option<&str>) -> (dir: String)
    ensures
        dir@ == default_notes_dir(
            match document {
                Some(d) => Some(d@),
                None => None,
            },
            match home {
                Some(h) => Some(h@),
                None => None,
            },
        ),
{
    let base = match document {
        Some(d) => d,
        None => match home {
            Some(h) => h,
            None => "/",
        },
    };
    proof {
        reveal_strlit("/");
    }
    join_path(base, "hikki")
}

impl Default for StorageConfig {
    fn default() -> (c: Self)
        ensures
            exists|d: Option<Seq<char>>, h: Option<Seq<char>>|
                c.notes_dir@ == #[trigger] default_notes_dir(d, h),
            c.format@ == "markdown"@,
            c.auto_backup,
            c.daily_dir@ == "daily"@,
            c.front_matter,
    {
        let document = document_dir();
        let home = home_dir();
        let notes_dir = notes_dir_from(
            match &document {
                Some(d) => Some(d.as_str()),
                None => None,
            },
            match &home {
                Some(h) => Some(h.as_str()),
                None => None,
            },
        );
        Self {
            notes_dir,
            format: String::from_str("markdown"),
            auto_backup: true,
            daily_dir: String::from_str("daily"),
            front_matter: true,
        }
    }
}

impl StorageConfig {
    /// The zero-opinion floor: empty paths and strings, every toggle off.
    pub fn bare() -> (c: Self)
        ensures
            c.notes_dir@ == Seq::<char>::empty(),
            c.format@ == Seq::<char>::empty(),
            !c.auto_backup,
            c.daily_dir@ == Seq::<char>::empty(),
            !c.front_matter,
    {
        Self {
            notes_dir: String::new(),
            format: String::new(),
            auto_backup: false,
            daily_dir: String::new(),
            front_matter: false,
        }
    }
}

/// Sync configuration.
#[derive(Clone, Debug)]
pub struct SyncConfig {
    /// Enable note synchronization.
    pub enable: bool,
    /// Sync method: "git" or "webdav".
    pub method: String,
    /// Remote URL for git sync.
    pub remote_url: Option<String>,
    /// Auto-commit on save.
    pub auto_commit: bool,
    /// Commit message for auto-commits.
    pub commit_message: String,
}

impl Default for SyncConfig {
    fn default() -> (c: Self)
        ensures
            !c.enable,
            c.method@ == "git"@,
            c.remote_url is None,
            c.auto_commit,
            c.commit_message@ == "hikki: auto-save"@,
    {
        Self {
            enable: false,
            method: String::from_str("git"),
            remote_url: None,
            auto_commit: true,
            commit_message: String::from_str("hikki: auto-save"),
        }
    }
}

impl SyncConfig {
    /// The zero-opinion floor: sync off, empty strings, no remote.
    pub fn bare() -> (c: Self)
        ensures
            !c.enable,
            c.method@ == Seq::<char>::empty(),
            c.remote_url is None,
            !c.auto_commit,
            c.commit_message@ == Seq::<char>::empty(),
    {
        Self {
            enable: false,
            method: String::new(),
            remote_url: None,
            auto_commit: false,
            commit_message: String::new(),
        }
    }
}

} // verus!
