//! The pty service: it is given one terminal, and attaches to it one client
//! at a time.
//!
//! The service handshakes as a server on the connection from the broker,
//! takes the terminal from the first message, and from there on accepts
//! clients. A new client takes the place of the one attached before it: the
//! earlier attachment is cancelled before the new one is installed.

use vstd::prelude::*;

use crate::ipc::handshake;
use crate::ipc::ownedfd::OwnedFd;
use crate::ipc::ReceiveError;
use crate::proto::pty::{Init, Request};

pub mod user;

verus! {

/// Why the service has ended.
#[derive(Debug)]
pub enum Error {
    /// The handshake with the broker failed.
    Handshake(handshake::Error),
    /// A message from the broker could not be received.
    Receive(ReceiveError),
    /// The terminal could not be made non-blocking.
    NonBlockingPty(std::io::Error),
}

/// After the handshake with the broker: the service goes on to receive the
/// terminal only if the handshake succeeded.
pub fn handshaken(outcome: Result<(), handshake::Error>) -> (r: Result<(), Error>)
    ensures
        r == (match outcome {
            Ok(()) => Ok::<(), Error>(()),
            Err(e) => Err::<(), Error>(Error::Handshake(e)),
        }),
{
    match outcome {
        Ok(()) => Ok(()),
        Err(e) => Err(Error::Handshake(e)),
    }
}

/// The service once it has its terminal: it accepts clients.
///
/// `H` is whatever the embedding program holds an attachment by. At most one
/// handle is kept, that of the attachment that is current.
#[derive(Debug)]
pub struct Accepting<H> {
    pty: OwnedFd,
    attached: Option<H>,
}

/// What the service is to do after a receive.
#[derive(Debug)]
pub enum Step<H> {
    /// Cancel the attachment `cancel`, if there is one, and only after that
    /// start serving `client`; install the handle of the new attachment
    /// with [`Accepting::install`], and receive again.
    Attach { cancel: Option<H>, client: OwnedFd },
    /// Cancel the attachment `cancel`, if there is one, and end with `error`.
    Exit { error: Error, cancel: Option<H> },
}

/// After the receive of the first message: with the terminal, the service
/// accepts clients, none attached yet; without it, the service ends.
pub fn initialized<H>(received: Result<Init, ReceiveError>) -> (r: Result<Accepting<H>, Error>)
    ensures
        match received {
            Ok(init) => r matches Ok(service) && service.pty() == init.pty_master@
                && service.attached() == None::<H>,
            Err(e) => r matches Err(error) && error == Error::Receive(e),
        },
{
    match received {
        Ok(init) => Ok(Accepting { pty: init.pty_master, attached: None }),
        Err(e) => Err(Error::Receive(e)),
    }
}

impl<H> Accepting<H> {
    /// The terminal's descriptor.
    pub closed spec fn pty(self) -> i32 {
        self.pty@
    }

    /// The handle of the current attachment.
    pub closed spec fn attached(self) -> Option<H> {
        self.attached
    }

    /// The terminal's descriptor, for the attachments to read and write.
    pub fn pty_fd(&self) -> (fd: i32)
        ensures
            fd == self.pty(),
    {
        self.pty.as_raw_fd()
    }

    /// After a receive.
    ///
    /// A new client is to be attached, and the handle of the attachment
    /// that was current is given up for cancellation, so that none is held
    /// while the new attachment is being set up. A failed receive ends the
    /// service. The terminal stays with the service either way.
    pub fn on_request(&mut self, received: Result<Request, ReceiveError>) -> (step: Step<H>)
        ensures
            final(self).pty() == old(self).pty(),
            final(self).attached() == None::<H>,
            match received {
                Ok(Request::NewClient { _dummy, fd }) => step == (Step::Attach {
                    cancel: old(self).attached(),
                    client: fd,
                }),
                Err(e) => step == (Step::Exit {
                    error: Error::Receive(e),
                    cancel: old(self).attached(),
                }),
            },
    {
        let cancel = self.attached.take();
        match received {
            Ok(Request::NewClient { _dummy, fd }) => Step::Attach { cancel, client: fd },
            Err(e) => Step::Exit { error: Error::Receive(e), cancel },
        }
    }

    /// Makes `handle` the current attachment. Whatever handle was held is
    /// handed back to be cancelled; after [`Accepting::on_request`] there is
    /// none.
    pub fn install(&mut self, handle: H) -> (displaced: Option<H>)
        ensures
            displaced == old(self).attached(),
            final(self).attached() == Some(handle),
            final(self).pty() == old(self).pty(),
    {
        let displaced = self.attached.take();
        self.attached = Some(handle);
        displaced
    }

    /// Ends the service: the terminal, to be closed, and the handle of the
    /// current attachment, to be cancelled.
    pub fn into_parts(self) -> (parts: (OwnedFd, Option<H>))
        ensures
            parts.0@ == self.pty(),
            parts.1 == self.attached(),
    {
        (self.pty, self.attached)
    }
}

} // verus!
