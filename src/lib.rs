//! Flashcard core.
//!
//! - `cardfile`, `parser`, `filesync`: reading card files, writing assigned
//!   IDs back into them, deck paths and content digests.
//! - `roundtrip`, `id_roundtrip`: what reading after writing gives back.
//! - `matching`: whitespace normalisation, edit distance and word diff of
//!   typed answers.
//! - `schedule`: the discrete part of a review (status and counters).
//! - `upload`, `sync_engine`: the server's ID allocation and orphan detection,
//!   and the client's sync cycle as a state machine.
//! - `dates`, `watch`: the study day, and what a changed card file means.
//! - `types`, `models`, `desktop`, `error`, `text`: shared records and
//!   character-level primitives.

pub mod cardfile;
pub mod dates;
pub mod desktop;
pub mod error;
pub mod filesync;
pub mod id_roundtrip;
pub mod matching;
pub mod models;
pub mod parser;
pub mod queue;
pub mod roundtrip;
pub mod schedule;
pub mod settings;
pub mod sync_engine;
pub mod text;
pub mod types;
pub mod upload;
pub mod watch;
