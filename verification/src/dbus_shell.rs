//! What a shell launcher is asked for.
//!
//! The launcher itself is a service of the system that the embedding
//! program talks to. It answers with the master side of a fresh
//! pseudo-terminal, open for reading and writing and shared with nobody.

use vstd::prelude::*;

use crate::ipc::codec::texts;

verus! {

/// The machine name that stands for the host itself.
pub const HOST_MACHINE: &'static str = ".host";

/// Specification for a shell session requested.
#[derive(Debug)]
pub struct ShellSpec<'a> {
    /// Name of the container to run the shell in, or [`HOST_MACHINE`].
    pub machine: &'a str,
    /// Name of the user to start the session as.
    pub user: &'a str,
    /// Absolute path of the shell to run; empty for the user's own.
    pub program: &'a str,
    /// Arguments to the shell, the name of the program first. They count
    /// only where `program` is set.
    pub args: &'a [String],
    /// Environment variables to pass.
    pub environment: &'a [String],
}

pub struct ShellSpecView {
    pub machine: Seq<char>,
    pub user: Seq<char>,
    pub program: Seq<char>,
    pub args: Seq<Seq<char>>,
    pub environment: Seq<Seq<char>>,
}

impl<'a> View for ShellSpec<'a> {
    type V = ShellSpecView;

    open spec fn view(&self) -> ShellSpecView {
        ShellSpecView {
            machine: self.machine@,
            user: self.user@,
            program: self.program@,
            args: texts(self.args@),
            environment: texts(self.environment@),
        }
    }
}

} // verus!
