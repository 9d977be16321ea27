//! An editor in the manner of vi: its text, its commands, its history, its
//! screen and the keys it takes. What touches files, the terminal or the
//! environment is left to the host: the library tells it what to do and takes
//! its answers.
pub mod address;
pub mod addressing;
pub mod bytes;
pub mod changes;
pub mod clipboard;
pub mod colon;
pub mod commands;
pub mod counting;
pub mod document;
pub mod drawing;
pub mod editing;
pub mod editor;
pub mod edits;
pub mod excmd;
pub mod files;
pub mod filing;
pub mod highlight;
pub mod highlighting;
pub mod history;
pub mod insert;
pub mod keeping;
pub mod keys;
pub mod laws;
pub mod leaving;
pub mod machine;
pub mod matching;
pub mod messages;
pub mod motion;
pub mod mouse;
pub mod moving;
pub mod operating;
pub mod operators;
pub mod pattern;
pub mod pointing;
pub mod pressing;
pub mod render;
pub mod repeating;
pub mod replacing;
pub mod resting;
pub mod rewriting;
pub mod run;
pub mod screen;
pub mod searching;
pub mod selection;
pub mod setting;
pub mod showing;
pub mod spelling;
pub mod starting;
pub mod strings;
pub mod styling;
pub mod substitute;
pub mod substitution;
pub mod syntax;
pub mod telling;
pub mod text;
pub mod typing;
pub mod viewport;

pub use crate::editor::Editor;
pub use crate::highlight::{HighlightColor, HighlightSpan, HighlightStyle};
pub use crate::run::run;
pub use crate::syntax::SyntaxHighlighter;
