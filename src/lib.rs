//! Core logic of an interactive command shell: tokenizing command lines,
//! planning pipelines and redirections, the line editor's state machine,
//! tab completion, the history log and its text format, and path resolution
//! for `cd`.

pub mod text;
pub mod tokenizer;
pub mod completion;
pub mod keys;
pub mod editor;
pub mod history;
pub mod planner;
pub mod builtins;
pub mod paths;
pub mod wiring;
