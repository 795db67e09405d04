//! Core of a server that brokers interactive shell sessions over UNIX domain
//! sockets: a typed, length-bounded message transport that passes file
//! descriptors, a versioned handshake, socket activation, and the decisions of
//! the sessions broker and of the pty relay.
//!
//! Nothing in this crate touches a socket, a file or the environment. The
//! embedding program performs the system calls and hands plain values in;
//! what is decided about those values is decided, and proved, here.

pub mod dbus_shell;
pub mod ipc;
pub mod proto;
pub mod pty_master;
pub mod services;
pub mod socket_activation;
