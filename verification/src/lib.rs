//! Core of an interactive fuzzy finder.
//!
//! The library holds the verified heart of the program: the coalescing
//! event mailbox, the append-only candidate pool, the fuzzy scoring
//! engine with its cancel/restart protocol, the ranked result set, and
//! the interaction (query/selection) state machine. Terminal rendering,
//! key decoding and the candidate-producing subprocess are thin I/O
//! collaborators that live outside the library.

pub mod chars;
pub mod keymap;
pub mod mailbox;
pub mod matcher;
pub mod model;
pub mod pool;
pub mod query;
pub mod ranked;
pub mod score;
pub mod selection;
