//! A small cooperative-polling library: a non-blocking poll protocol
//! (`Pollable`), a suspending timer backed by an environment-run timer
//! service (`Sleep`), first-to-finish and wait-for-all combinators
//! (`Race`, `Join`), a sequence container with list-style operations
//! (`Node`), and a word-position indexer.

pub mod after;
pub mod index;
pub mod join;
pub mod list;
pub mod poll;
pub mod race;
pub mod timer;
pub mod wake;

pub use poll::Poll;
pub use poll::Pollable;
