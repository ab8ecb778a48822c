//! Notes as the platform storage lists them.
//!
//! The storage itself reads and writes files; what it decides about the
//! notes it finds (titles, tags, order, matches) lives in [`macos`].

pub mod macos;

use crate::notes::strs;
use vstd::prelude::*;

verus! {

/// Metadata for a note (lightweight, used in listings).
#[derive(Debug, Clone)]
pub struct NoteMeta {
    /// Unique note identifier (filename stem or UUID).
    pub id: String,
    /// Note title (first heading or filename).
    pub title: String,
    /// Last modification time, in nanoseconds since the Unix epoch.
    pub modified: u128,
    /// Tags extracted from front-matter or content.
    pub tags: Vec<String>,
}

/// A full note with content.
#[derive(Debug, Clone)]
pub struct Note {
    /// Note metadata.
    pub meta: NoteMeta,
    /// Full note content (markdown).
    pub content: String,
}

/// The abstract metadata of a listed note.
#[verifier::ext_equal]
pub struct StoredMetaView {
    pub id: Seq<char>,
    pub title: Seq<char>,
    pub modified: int,
    pub tags: Seq<Seq<char>>,
}

impl View for NoteMeta {
    type V = StoredMetaView;

    open spec fn view(&self) -> StoredMetaView {
        StoredMetaView {
            id: self.id@,
            title: self.title@,
            modified: self.modified as int,
            tags: strs(self.tags@),
        }
    }
}

} // verus!
