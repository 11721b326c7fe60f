//! Triage of the files of one directory: discovery of the ordered file list,
//! and the session that walks it and records a Keep or Trash decision per file.

pub mod domain;
pub mod tui;
