//! What a `SOCK_SEQPACKET` transport decides around its two system calls.
//!
//! One message is one packet. A send is [`pack`], which lays a message out
//! for one vectored send, the send itself, and [`after_send`]. A receive is
//! the receive itself, into room for the bounds of the message type, and
//! [`after_receive`], which judges with [`unpack`] what the receive
//! brought. On every path out of a receive each descriptor that arrived is
//! accounted for: it is either held by the message or handed back to be
//! closed.

use std::collections::VecDeque;
use vstd::prelude::*;

use crate::ipc::ownedfd::{numbers, OwnedFd};
use crate::ipc::passfd::{gather_fds_to_vec, scatter_fds_from_vec_deque};
use crate::ipc::wire::{DecodeError, Packet};
use crate::ipc::{Message, ReceiveError, SendError, Wire};

verus! {

/// The socket type `SOCK_SEQPACKET`.
pub const SOCK_SEQPACKET: i32 = 5;

/// Bytes that one descriptor takes in ancillary data.
pub const FD_BYTES: usize = 4;

/// Why a socket is no message transport.
#[derive(Debug, Clone, Copy, PartialEq, Eq, Structural)]
pub enum SocketConversionError {
    /// It is not of type `SOCK_SEQPACKET`, or its type could not be told.
    NotSeqPacket,
}

/// Whether a socket whose type was asked for is a `SOCK_SEQPACKET`.
/// `socket_type` is `None` where the question itself failed.
pub fn is_seq_packet(socket_type: Option<i32>) -> (yes: bool)
    ensures
        yes == (socket_type == Some(SOCK_SEQPACKET)),
{
    match socket_type {
        Some(t) => t == SOCK_SEQPACKET,
        None => false,
    }
}

/// Admits a socket as a message transport only if it is a `SOCK_SEQPACKET`.
pub fn require_seq_packet(socket_type: Option<i32>) -> (r: Result<(), SocketConversionError>)
    ensures
        r == (if socket_type == Some(SOCK_SEQPACKET) {
            Ok::<(), SocketConversionError>(())
        } else {
            Err::<(), SocketConversionError>(SocketConversionError::NotSeqPacket)
        }),
{
    if is_seq_packet(socket_type) {
        Ok(())
    } else {
        Err(SocketConversionError::NotSeqPacket)
    }
}

/// Length of the ancillary payload that carries `count` descriptors, where it
/// can be told in 32 bits.
pub fn fd_payload_len(count: usize) -> (r: Option<u32>)
    ensures
        r == (if FD_BYTES * count <= u32::MAX {
            Some((FD_BYTES * count) as u32)
        } else {
            None::<u32>
        }),
{
    if count <= (u32::MAX as usize) / FD_BYTES {
        Some((FD_BYTES * count) as u32)
    } else {
        None
    }
}

/// A message laid out for one send.
#[derive(Debug)]
pub struct Outgoing {
    /// The payload.
    pub payload: Vec<u8>,
    /// The descriptors to attach as one `SCM_RIGHTS` entry, in field order.
    /// They still belong to the message.
    pub fds: Vec<i32>,
}

/// Lays `message` out for one send: the payload, and exactly the descriptors
/// of its descriptor fields, in field order.
pub fn pack<M: Message + Wire>(message: &M) -> (out: Outgoing)
    ensures
        out.payload@ == message.wire().bytes,
        out.fds@ == message.wire().fds,
{
    let mut fds: Vec<i32> = Vec::new();
    let payload = gather_fds_to_vec(&mut fds, message);
    assert(fds@ =~= message.wire().fds);
    Outgoing { payload, fds }
}

/// What one receive brought.
#[derive(Debug)]
pub struct Datagram {
    /// The payload bytes that arrived.
    pub payload: Vec<u8>,
    /// Whether payload was cut off for want of room.
    pub truncated: bool,
    /// Every descriptor that arrived, in the order of arrival, whatever
    /// ancillary entry it came in. The receiver owns them all.
    pub fds: Vec<i32>,
    /// Whether ancillary data was cut off for want of room.
    pub ancillary_truncated: bool,
    /// The room that was reserved for ancillary data, in bytes.
    pub ancillary_capacity: usize,
}

/// A receive that yields no message.
#[derive(Debug)]
pub struct Rejected {
    pub error: ReceiveError,
    /// The descriptors that arrived and now belong to nobody: the caller
    /// closes each of them.
    pub unclaimed: Vec<OwnedFd>,
}

/// The verdict on a datagram that is to hold one message of type `M`: the wire
/// form of that message, or the error that the receive ends with.
pub open spec fn receive_verdict<M: Message + Wire>(datagram: Datagram) -> Result<
    Packet,
    ReceiveError,
> {
    let input = Packet { bytes: datagram.payload@, fds: datagram.fds@ };
    if datagram.truncated || datagram.payload@.len() > M::MAX_SIZE {
        Err(ReceiveError::TooLarge)
    } else if datagram.ancillary_truncated {
        Err(
            ReceiveError::AncillaryTruncated {
                max_fds: M::MAX_FDS,
                bytes_cap: datagram.ancillary_capacity,
            },
        )
    } else if datagram.payload@.len() == 0 {
        Err(ReceiveError::End)
    } else {
        match M::recognize(input) {
            Err(e) => Err(ReceiveError::Deserialize(e)),
            Ok((form, rest)) => if rest.bytes.len() > 0 {
                Err(ReceiveError::Deserialize(DecodeError::TrailingBytes))
            } else if rest.fds.len() > 0 {
                Err(
                    ReceiveError::TooManyFds {
                        orig: datagram.fds@.len() as usize,
                        extra: rest.fds.len() as usize,
                    },
                )
            } else {
                Ok(form)
            },
        }
    }
}

/// Takes over every descriptor of `fds`, in order.
fn adopt_all(fds: &Vec<i32>) -> (owned: VecDeque<OwnedFd>)
    ensures
        numbers(owned@) == fds@,
{
    let mut owned: VecDeque<OwnedFd> = VecDeque::new();
    let mut i: usize = 0;
    assert(numbers(owned@) =~= fds@.take(0));
    while i < fds.len()
        invariant
            i <= fds@.len(),
            numbers(owned@) == fds@.take(i as int),
        decreases fds@.len() - i,
    {
        let ghost before = owned@;
        let fd = OwnedFd::from_raw(fds[i]);
        owned.push_back(fd);
        assert(owned@ == before.push(fd));
        assert(before.len() == i) by {
            assert(numbers(before).len() == before.len());
        }
        assert forall|j: int| 0 <= j < i + 1 implies numbers(owned@)[j] == fds@[j] by {
            if j < i {
                assert(owned@[j] == before[j]);
                assert(numbers(before)[j] == fds@.take(i as int)[j]);
            }
        }
        assert(numbers(owned@) =~= fds@.take(i + 1));
        i = i + 1;
    }
    assert(fds@.take(i as int) =~= fds@);
    owned
}

/// Turns a receive down: every descriptor that arrived goes back to the
/// caller.
fn reject(error: ReceiveError, fds: &Vec<i32>) -> (rejected: Rejected)
    ensures
        rejected.error == error,
        numbers(rejected.unclaimed@) == fds@,
{
    let mut queue = adopt_all(fds);
    let mut unclaimed: Vec<OwnedFd> = Vec::new();
    let ghost all = queue@;
    assert(all.take(0) =~= unclaimed@);
    assert(all.skip(0) =~= queue@);
    while queue.len() > 0
        invariant
            unclaimed@.len() <= all.len(),
            unclaimed@ == all.take(unclaimed@.len() as int),
            queue@ == all.skip(unclaimed@.len() as int),
        decreases queue@.len(),
    {
        let ghost n = unclaimed@.len() as int;
        match queue.pop_front() {
            Some(fd) => {
                unclaimed.push(fd);
            },
            None => {},
        }
        assert(unclaimed@ =~= all.take(n + 1));
        assert(queue@ =~= all.skip(n + 1));
    }
    assert(unclaimed@ =~= all);
    Rejected { error, unclaimed }
}

/// Judges what one receive brought.
///
/// Every descriptor that arrived is taken over before anything else is
/// looked at. A message comes out only of a datagram that is whole and is,
/// to the last byte and the last descriptor, the wire form of a message of
/// type `M`; the message then owns every descriptor that arrived, in field
/// order. Otherwise the error says what was wrong, and every descriptor
/// that arrived is handed back unclaimed.
pub fn unpack<M: Message + Wire>(datagram: Datagram) -> (r: Result<M, Rejected>)
    ensures
        match receive_verdict::<M>(datagram) {
            Ok(form) => r matches Ok(message) && message.wire() == form && form == (Packet {
                bytes: datagram.payload@,
                fds: datagram.fds@,
            }),
            Err(e) => r matches Err(rejected) && rejected.error == e && numbers(
                rejected.unclaimed@,
            ) == datagram.fds@,
        },
{
    if datagram.truncated || datagram.payload.len() > M::MAX_SIZE {
        return Err(reject(ReceiveError::TooLarge, &datagram.fds));
    }
    if datagram.ancillary_truncated {
        return Err(
            reject(
                ReceiveError::AncillaryTruncated {
                    max_fds: M::MAX_FDS,
                    bytes_cap: datagram.ancillary_capacity,
                },
                &datagram.fds,
            ),
        );
    }
    if datagram.payload.len() == 0 {
        return Err(reject(ReceiveError::End, &datagram.fds));
    }
    let mut fds = adopt_all(&datagram.fds);
    let orig_num_fds = fds.len();
    proof {
        M::lemma_recognizes_only_wire(Packet { bytes: datagram.payload@, fds: datagram.fds@ });
    }
    match scatter_fds_from_vec_deque::<M>(&mut fds, datagram.payload.as_slice()) {
        Err(e) => Err(reject(ReceiveError::Deserialize(e), &datagram.fds)),
        Ok(message) => {
            let fds_left = fds.len();
            if fds_left != 0 {
                Err(
                    reject(
                        ReceiveError::TooManyFds { orig: orig_num_fds, extra: fds_left },
                        &datagram.fds,
                    ),
                )
            } else {
                proof {
                    let form = message.wire();
                    assert(datagram.fds@.take(form.fds.len() as int) =~= datagram.fds@);
                }
                Ok(message)
            }
        },
    }
}

/// How a receive on the socket ended, whole: what the caller gets, and the
/// descriptors that are to be closed before the caller gets it.
#[derive(Debug)]
pub struct Receipt<M> {
    /// The message, or why there is none.
    pub result: Result<M, ReceiveError>,
    /// The descriptors that arrived and belong to nobody.
    pub close: Vec<OwnedFd>,
}

/// After the one receive on the socket. A receive that failed is reported
/// as it failed; nothing arrived with it. What a receive brought is judged
/// by [`unpack`]: a message owns every descriptor that arrived, and with
/// every error every descriptor that arrived is to be closed.
pub fn after_receive<M: Message + Wire>(outcome: Result<Datagram, std::io::Error>) -> (receipt:
    Receipt<M>)
    ensures
        match outcome {
            Err(e) => (receipt.result matches Err(error) && error == ReceiveError::Socket(e))
                && receipt.close@.len() == 0,
            Ok(datagram) => match receive_verdict::<M>(datagram) {
                Ok(form) => (receipt.result matches Ok(message) && message.wire() == form && form
                    == (Packet { bytes: datagram.payload@, fds: datagram.fds@ }))
                    && receipt.close@.len() == 0,
                Err(e) => (receipt.result matches Err(error) && error == e) && numbers(
                    receipt.close@,
                ) == datagram.fds@,
            },
        },
{
    match outcome {
        Err(e) => Receipt { result: Err(ReceiveError::Socket(e)), close: Vec::new() },
        Ok(datagram) => match unpack::<M>(datagram) {
            Ok(message) => Receipt { result: Ok(message), close: Vec::new() },
            Err(rejected) => Receipt { result: Err(rejected.error), close: rejected.unclaimed },
        },
    }
}

/// After the one send on the socket of what [`pack`] laid out: the message
/// is sent where the send succeeded, and a failed send is reported as it
/// failed.
pub fn after_send(outcome: Result<(), std::io::Error>) -> (r: Result<(), SendError>)
    ensures
        r == (match outcome {
            Ok(()) => Ok::<(), SendError>(()),
            Err(e) => Err::<(), SendError>(SendError::Socket(e)),
        }),
{
    match outcome {
        Ok(()) => Ok(()),
        Err(e) => Err(SendError::Socket(e)),
    }
}

/// What is too large is turned down, and nothing else is turned down as too
/// large: the verdict is `TooLarge` exactly on a datagram whose payload was
/// cut off or is longer than the bound of the message type. A whole payload
/// of exactly that many bytes is not too large.
pub proof fn lemma_too_large<M: Message + Wire>(datagram: Datagram)
    ensures
        receive_verdict::<M>(datagram) == Err::<Packet, ReceiveError>(ReceiveError::TooLarge) <==> (
        datagram.truncated || datagram.payload@.len() > M::MAX_SIZE),
{
}

/// Ancillary data that was cut off turns a receive down, unless the payload
/// is too large already; the error names the bound of the message type and
/// the room that was reserved.
pub proof fn lemma_ancillary_truncated<M: Message + Wire>(datagram: Datagram)
    requires
        !datagram.truncated,
        datagram.payload@.len() <= M::MAX_SIZE,
        datagram.ancillary_truncated,
    ensures
        receive_verdict::<M>(datagram) == Err::<Packet, ReceiveError>(
            ReceiveError::AncillaryTruncated {
                max_fds: M::MAX_FDS,
                bytes_cap: datagram.ancillary_capacity,
            },
        ),
{
}

/// No descriptor is without an owner after a receive: where the verdict is
/// a message, the message's descriptor fields hold every descriptor that
/// arrived, in the order of arrival.
pub proof fn lemma_accepted_owns_all<M: Message + Wire>(datagram: Datagram)
    ensures
        receive_verdict::<M>(datagram) matches Ok(form) ==> form == (Packet {
            bytes: datagram.payload@,
            fds: datagram.fds@,
        }),
{
    let input = Packet { bytes: datagram.payload@, fds: datagram.fds@ };
    M::lemma_recognizes_only_wire(input);
    if let Ok(form) = receive_verdict::<M>(datagram) {
        let rest = M::recognize(input)->Ok_0.1;
        assert(form.followed_by(rest) =~= form);
    }
}

/// What is sent is what is received.
///
/// Take a message within its type's size bound, with a payload of at least
/// one byte, and a datagram that holds that payload whole and as many
/// descriptors as the message carries, under whatever numbers the receiving
/// process knows them. Then the verdict on the datagram is the message's own
/// wire form with the descriptors that arrived in the places of those that
/// left.
pub proof fn lemma_sent_is_received<M: Message + Wire>(message: M, arrived: Datagram)
    requires
        0 < message.wire().bytes.len() <= M::MAX_SIZE,
        arrived.payload@ == message.wire().bytes,
        arrived.fds@.len() == message.wire().fds.len(),
        !arrived.truncated,
        !arrived.ancillary_truncated,
    ensures
        receive_verdict::<M>(arrived) == Ok::<Packet, ReceiveError>(
            Packet { bytes: message.wire().bytes, fds: arrived.fds@ },
        ),
{
    let form = Packet { bytes: message.wire().bytes, fds: arrived.fds@ };
    message.lemma_recognizes_wire(arrived.fds@, Packet::empty());
    assert(form.followed_by(Packet::empty()) =~= form);
}

} // verus!
