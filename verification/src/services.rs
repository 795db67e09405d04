//! What the two services decide. Each service is driven by the embedding
//! program, which performs the receives, sends and launches and reports how
//! each one ended; the functions here say what is to happen next.

pub mod pty;
pub mod sessions;
