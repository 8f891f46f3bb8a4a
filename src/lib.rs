//! Parsing, linting and merging of the "Upcoming Events" section of a
//! newsletter draft.
//!
//! - `grammar` reads one line into a typed line; `reader` hands out the
//!   numbered lines of a text or of its events section.
//! - `linter` is the state machine that checks a section and gathers its
//!   listings; `merge` merges two sets of listings and renders them.
//! - `laws` and `roundtrip` state and prove how these fit together.
pub mod text;
pub mod date;
pub mod events;
pub mod links;
pub mod grammar;
pub mod reader;
pub mod linter;
pub mod merge;
pub mod collect;
pub mod records;
pub mod args;
pub mod laws;
pub mod roundtrip;
