//! A verified core for a markdown-file task tracker.
//!
//! Each task lives in one text file: a delimited key-value metadata block
//! followed by a free-form markdown body with optional `## Notes` and
//! `## Checklist` sections.  This crate holds the verified logic: the
//! metadata codec, the section editor, the in-memory store with id
//! assignment and filtering, the checklist operations, and the decision
//! functions of the git branch workflow.  All file, process and terminal
//! handling stays outside, handing plain values in and out.
pub mod checklist;
pub mod codec;
pub mod gitflow;
pub mod lines;
pub mod numbers;
pub mod sections;
pub mod store;
pub mod task;
pub mod text;
