//! The messages of the three protocols, and the intents that name their ends.

pub mod pty;
pub mod sessions;
