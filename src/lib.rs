//! A plain-text Markdown task list: reading a document into tasks and
//! sections, and the line edits that commit changes back to its text.
//!
//! - `text`, `lines`: characters, trimming and the document's lines.
//! - `syntax`: the line grammar (task lines, headers, comments, focus).
//! - `model`: tasks and sections, and what a text says they are.
//! - `tasks`: reading a document, the views over its tasks, canonical lines,
//!   line edits and section search.
//! - `cmd_add`, `cmd_check`, `cmd_focus`, `cmd_focus_section`, `cmd_prune`,
//!   `cmd_list`: what each command computes from a document.
//! - `services`: how tasks are shown to a user.
//! - `laws`: properties proved across these functions.

pub mod cmd_add;
pub mod cmd_check;
pub mod cmd_focus;
pub mod cmd_focus_section;
pub mod cmd_list;
pub mod cmd_prune;
pub mod laws;
pub mod lines;
pub mod model;
pub mod services;
pub mod syntax;
pub mod tasks;
pub mod text;
