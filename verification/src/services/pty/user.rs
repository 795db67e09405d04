//! One attachment: the relay between a client and the terminal.
//!
//! The service handshakes as a server on the client's socket. Then two
//! tasks run side by side. The input task receives what the user typed and
//! writes it to the terminal. The output task reads what the terminal
//! wrote, at most [`READ_SIZE`] bytes at a time, and sends it to the client.
//! When the terminal is gone the output task ends cleanly and the read half
//! of the client's socket is shut down, so that the input task ends too.

use vstd::prelude::*;

use crate::ipc::handshake;
use crate::ipc::{ReceiveError, SendError, Shutdown, ShutdownError};
use crate::proto::pty::user::{Input, Output};
use crate::pty_master::{read_outcome, ReadError, ReadOutcome, EIO};

verus! {

/// Largest number of bytes that one read from the terminal asks for.
pub const READ_SIZE: usize = 1024;

/// Why an attachment has ended.
#[derive(Debug)]
pub enum ServeUserError {
    /// The handshake with the client failed.
    Handshake(handshake::Error),
    /// A message from the client could not be received.
    Receive(ReceiveError),
    /// A message to the client could not be sent.
    Send(SendError),
    /// The client's socket could not be shut down.
    SocketShutdown(ShutdownError),
    /// Reading from the terminal or writing to it failed.
    PtyIo(std::io::Error),
}

/// After the handshake with the client: the relay starts only if it
/// succeeded.
pub fn handshaken(outcome: Result<(), handshake::Error>) -> (r: Result<(), ServeUserError>)
    ensures
        r == (match outcome {
            Ok(()) => Ok::<(), ServeUserError>(()),
            Err(e) => Err::<(), ServeUserError>(ServeUserError::Handshake(e)),
        }),
{
    match outcome {
        Ok(()) => Ok(()),
        Err(e) => Err(ServeUserError::Handshake(e)),
    }
}

/// What the input task is to do after a receive.
#[derive(Debug)]
pub enum InputStep {
    /// Write all of these bytes to the terminal, then receive again.
    Write(Vec<u8>),
    /// End with this error.
    Stop(ServeUserError),
}

/// The input task, after a receive: keyboard input goes to the terminal as
/// it is, and a failed receive ends the task.
pub fn on_input(received: Result<Input, ReceiveError>) -> (step: InputStep)
    ensures
        step == (match received {
            Ok(Input::KeyboardInput(bytes)) => InputStep::Write(bytes),
            Err(e) => InputStep::Stop(ServeUserError::Receive(e)),
        }),
{
    match received {
        Ok(Input::KeyboardInput(bytes)) => InputStep::Write(bytes),
        Err(e) => InputStep::Stop(ServeUserError::Receive(e)),
    }
}

/// The input task, after a write to the terminal: a failed write ends the
/// task.
pub fn on_written(written: Result<(), std::io::Error>) -> (r: Result<(), ServeUserError>)
    ensures
        r == (match written {
            Ok(()) => Ok::<(), ServeUserError>(()),
            Err(e) => Err::<(), ServeUserError>(ServeUserError::PtyIo(e)),
        }),
{
    match written {
        Ok(()) => Ok(()),
        Err(e) => Err(ServeUserError::PtyIo(e)),
    }
}

/// What the output task is to do after a read.
#[derive(Debug)]
pub enum OutputStep {
    /// Send this message to the client, then read again.
    Send(Output),
    /// End: cleanly, or with this error.
    Stop(Result<(), ServeUserError>),
}

/// What the output task does after a read that gave `result` in `buffer`.
pub open spec fn output_step(result: Result<usize, ReadError>, buffer: Seq<u8>) -> Result<
    Seq<u8>,
    Result<(), ServeUserError>,
> {
    match result {
        Ok(n) => Ok(
            if n <= buffer.len() {
                buffer.take(n as int)
            } else {
                buffer
            },
        ),
        Err(e) => if e.errno == Some(EIO) {
            Err(Ok(()))
        } else {
            Err(Err(ServeUserError::PtyIo(e.source)))
        },
    }
}

/// The output task, after a read into `buffer`. The bytes that were read go
/// to the client in one message. A terminal that is gone ends the task
/// cleanly, any other failure ends it with that failure.
pub fn on_read(result: Result<usize, ReadError>, buffer: Vec<u8>) -> (step: OutputStep)
    ensures
        match output_step(result, buffer@) {
            Ok(bytes) => step matches OutputStep::Send(message) && message@ == bytes,
            Err(end) => step == OutputStep::Stop(end),
        },
{
    match read_outcome(result) {
        ReadOutcome::Data(n) => {
            let mut bytes = buffer;
            bytes.truncate(n);
            OutputStep::Send(Output::SessionOutput(bytes))
        },
        ReadOutcome::End => OutputStep::Stop(Ok(())),
        ReadOutcome::Failed(e) => OutputStep::Stop(Err(ServeUserError::PtyIo(e))),
    }
}

/// The output task, after a send: a failed send ends the task.
pub fn on_sent(sent: Result<(), SendError>) -> (r: Result<(), ServeUserError>)
    ensures
        r == (match sent {
            Ok(()) => Ok::<(), ServeUserError>(()),
            Err(e) => Err::<(), ServeUserError>(ServeUserError::Send(e)),
        }),
{
    match sent {
        Ok(()) => Ok(()),
        Err(e) => Err(ServeUserError::Send(e)),
    }
}

/// The half of the client's socket that is shut down once the output task
/// has ended: the read half, so that the input task sees the end of the
/// stream.
pub fn shutdown_after_output() -> (how: Shutdown)
    ensures
        how == Shutdown::Read,
{
    Shutdown::Read
}

/// How an attachment ends, once the output task has ended, the socket has
/// been shut down and the input task has ended: with the failure of the
/// shutdown where it failed, else as the input task ended. How the output
/// task ended does not count.
pub fn finish(shutdown: Result<(), ShutdownError>, input: Result<(), ServeUserError>) -> (r: Result<
    (),
    ServeUserError,
>)
    ensures
        r == (match shutdown {
            Err(e) => Err::<(), ServeUserError>(ServeUserError::SocketShutdown(e)),
            Ok(()) => input,
        }),
{
    match shutdown {
        Err(e) => Err(ServeUserError::SocketShutdown(e)),
        Ok(()) => input,
    }
}

} // verus!
