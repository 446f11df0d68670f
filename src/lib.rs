//! A small interactive command shell: a line editor, a tokenizer and evaluator
//! for command lines, and a dispatcher for built-in and external commands.
//!
//! Everything here is logic over plain values. Reading keys, listing
//! directories, changing directory and spawning processes are left to the
//! caller, which feeds the results back in.

pub mod complete;
pub mod editor;
pub mod environment;
pub mod evaluate;
pub mod shell;
pub mod table;
pub mod text;
pub mod tokenize;

pub use complete::{Completion, Entry, candidates, complete_line, completion_request};
pub use editor::{Edit, Editor, Key, history_entries, should_record};
pub use environment::{expand_tilde, expand_tilde_with, format_prompt};
pub use shell::{Action, Evaluation, Shell, ShellError};
pub use table::Table;
pub use text::chars_of;
pub use tokenize::{apply_assignments, split_words};
