//! Messages over `SOCK_SEQPACKET` sockets, with descriptors travelling as
//! ancillary data beside the payload.
//!
//! A message type says how large it can get ([`Message`]) and how it is laid
//! out on the wire ([`Wire`]). A transport ([`IPC`]) moves whole messages.
//! [`seqpacket`] holds what a socket transport decides before a send and
//! after a receive; the system calls themselves are the embedding program's.

use vstd::prelude::*;

use crate::ipc::codec::{Sink, Source};
use crate::ipc::wire::{DecodeError, Packet, Parsed};

pub mod codec;
pub mod handshake;
pub mod ownedfd;
pub mod passfd;
pub mod seqpacket;
pub mod wire;

verus! {

/// `std::io::Error` of std: the error of a system call. It is carried
/// through as it came; nothing here looks inside it.
#[verifier::external_type_specification]
#[verifier::external_body]
pub struct ExIoError(std::io::Error);

/// Bounds that a message type declares for the transport.
pub trait Message: Sized + std::fmt::Debug {
    /// Largest payload, in bytes, that a message of this type can have,
    /// whatever it holds.
    const MAX_SIZE: usize = 8192;

    /// Largest number of descriptors that a message of this type can carry,
    /// whatever it holds.
    const MAX_FDS: usize = 0;
}

/// The layout of a message type on the wire.
///
/// Fields are visited once and in a fixed order. A descriptor field adds no
/// payload byte and takes the next place among the packet's descriptors.
pub trait Wire: Sized {
    /// What the message puts on the wire.
    spec fn wire(&self) -> Packet;

    /// Reads one message of this type off the front of `input`: the wire form
    /// of the message found there and what follows it, or why there is none.
    spec fn recognize(input: Packet) -> Parsed<Packet>;

    /// Writes the message at the end of `sink`.
    fn encode(&self, sink: &mut Sink)
        ensures
            final(sink)@ == old(sink)@.followed_by(self.wire()),
    ;

    /// Reads one message off the front of `source`. Where that fails,
    /// nothing is said of how far `source` was read.
    fn decode(source: &mut Source) -> (r: Result<Self, DecodeError>)
        ensures
            match Self::recognize(old(source)@) {
                Ok((form, rest)) => (r matches Ok(message) && message.wire() == form)
                    && final(source)@ == rest,
                Err(e) => r matches Err(got) && got == e,
            },
    ;

    /// A message's payload is read back as that message with whatever
    /// descriptors come with it, as long as there are as many as it carries;
    /// what follows the message is left untouched.
    proof fn lemma_recognizes_wire(&self, fds: Seq<i32>, rest: Packet)
        requires
            self.wire().bytes.len() <= u64::MAX,
            fds.len() == self.wire().fds.len(),
        ensures
            Self::recognize((Packet { bytes: self.wire().bytes, fds }).followed_by(rest)) == Ok::<
                (Packet, Packet),
                DecodeError,
            >((Packet { bytes: self.wire().bytes, fds }, rest)),
    ;

    /// Whatever is read is exactly the front of the input.
    proof fn lemma_recognizes_only_wire(input: Packet)
        ensures
            Self::recognize(input) matches Ok((form, rest)) ==> input == form.followed_by(rest),
    ;
}

/// Which half of a connection to shut down.
#[derive(Debug, Clone, Copy, PartialEq, Eq, Structural)]
pub enum Shutdown {
    Read,
    Write,
    Both,
}

/// An entry of the ancillary data that is no list of descriptors.
#[derive(Debug, Clone, Copy, PartialEq, Eq, Structural)]
pub enum AncillaryError {
    /// An entry of a level and type that are not known here.
    Unknown { cmsg_level: i32, cmsg_type: i32 },
}

/// Why a message was not sent.
#[derive(Debug)]
pub enum SendError {
    /// The message could not be encoded; the text says why.
    Serialize(String),
    /// The send itself failed.
    Socket(std::io::Error),
}

/// Why no message was received.
#[derive(Debug)]
pub enum ReceiveError {
    /// The peer has closed the connection.
    End,
    /// More payload arrived than the message type allows.
    TooLarge,
    /// The payload is no message of the expected type.
    Deserialize(DecodeError),
    /// The receive itself failed.
    Socket(std::io::Error),
    /// The ancillary data could not be read.
    Ancillary(AncillaryError),
    /// More ancillary data arrived than the buffer reserved for `max_fds`
    /// descriptors, `bytes_cap` bytes, could take.
    AncillaryTruncated { max_fds: usize, bytes_cap: usize },
    /// `orig` descriptors arrived, `extra` more than the message has fields for.
    TooManyFds { orig: usize, extra: usize },
}

/// Why a connection was not shut down.
#[derive(Debug)]
pub enum ShutdownError {
    /// The system refused to shut down the half `how`.
    Io { how: Shutdown, source: std::io::Error },
}

/// A connection that moves whole messages, descriptors included.
///
/// What a send or a receive comes to is up to the connection and to its
/// peer: the methods promise nothing. What is made of their results is said
/// where the results are used.
pub trait IPC {
    /// Sends `message` with the descriptors it holds.
    fn send_with_fds<M: 'static + Message + Wire>(&self, message: &M) -> (r: Result<(), SendError>);

    /// Receives a message of type `M` with the descriptors it holds.
    fn receive_with_fds<M: 'static + Message + Wire>(&self) -> (r: Result<M, ReceiveError>);

    /// Shuts down the read half, the write half, or both.
    fn shutdown(&self, how: Shutdown) -> (r: Result<(), ShutdownError>);
}

} // verus!
