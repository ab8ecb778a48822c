//! Hikki: the verified core of a markdown note editor — wiki links and
//! backlinks, front matter and titles, vim-style key handling, and a
//! rope-backed editing buffer with undo and redo.

pub mod text;
pub mod input;
pub mod links;
pub mod notes;
pub mod rope;
pub mod editor;
pub mod config;
pub mod platform;
pub mod render;
pub mod session;
