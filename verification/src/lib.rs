//! A typing trainer's core: source lines split into what is typed and what is
//! skipped, the state machine of a typing session, and its statistics.

pub mod text;
pub mod source;
pub mod stats;
pub mod app;
pub mod overlay;
pub mod diff;
pub mod scopes;
pub mod parser;
pub mod cli;
