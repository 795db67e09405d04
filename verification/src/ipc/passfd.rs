//! Descriptor fields, and the two lists that carry descriptors beside a
//! payload.
//!
//! A descriptor field writes no payload byte. On the way out it adds its
//! descriptor to the list that goes into the ancillary data; on the way in
//! it takes the descriptor at the head of the queue of those that arrived.

use std::collections::VecDeque;
use vstd::prelude::*;

use crate::ipc::codec::{reads_as, Sink, Source};
use crate::ipc::ownedfd::{numbers, OwnedFd};
use crate::ipc::wire::{parse_fd, DecodeError, Packet};
use crate::ipc::Wire;

verus! {

/// Writes a descriptor field. The descriptor stays with its owner.
pub fn serialize(fd: &OwnedFd, sink: &mut Sink)
    ensures
        final(sink)@ == old(sink)@.followed_by(Packet::of_fd(fd@)),
{
    sink.put_fd(fd.as_raw_fd());
}

/// Reads a descriptor field: the next descriptor that arrived, which the
/// field now owns.
pub fn deserialize(source: &mut Source) -> (r: Result<OwnedFd, DecodeError>)
    ensures
        reads_as(r, final(source)@, parse_fd(old(source)@)),
{
    match source.take_fd() {
        Err(e) => Err(e),
        Ok(fd) => Ok(OwnedFd::from_raw(fd)),
    }
}

/// Encodes `message` and gathers the descriptors of its descriptor fields,
/// in field order, at the end of `out`. The payload is returned.
///
/// The descriptors gathered are still the message's own: they are to be
/// sent, not closed.
pub fn gather_fds_to_vec<M: Wire>(out: &mut Vec<i32>, message: &M) -> (payload: Vec<u8>)
    ensures
        payload@ == message.wire().bytes,
        final(out)@ == old(out)@ + message.wire().fds,
{
    let mut sink = Sink::new();
    message.encode(&mut sink);
    assert(sink@ =~= message.wire());
    let (payload, mut fds) = sink.into_parts();
    out.append(&mut fds);
    payload
}

/// The numbers of the descriptors in `fds`, in order.
fn numbers_of(fds: &VecDeque<OwnedFd>) -> (list: Vec<i32>)
    ensures
        list@ == numbers(fds@),
{
    let mut list: Vec<i32> = Vec::new();
    let mut i: usize = 0;
    while i < fds.len()
        invariant
            i <= fds@.len(),
            list@ == numbers(fds@.take(i as int)),
        decreases fds@.len() - i,
    {
        list.push(fds[i].as_raw_fd());
        assert(list@ =~= numbers(fds@.take(i + 1)));
        i = i + 1;
    }
    assert(fds@.take(i as int) =~= fds@);
    list
}

/// Decodes a message from `payload`, its descriptor fields taking their
/// descriptors from the head of `fds`.
///
/// A message comes out only where the whole of `payload` is one message.
/// Its descriptor fields then own the descriptors that they took, which are
/// gone from `fds`; what is left in `fds` the message had no field for.
/// Where no message comes out, `fds` is as it was.
pub fn scatter_fds_from_vec_deque<M: Wire>(fds: &mut VecDeque<OwnedFd>, payload: &[u8]) -> (r:
    Result<M, DecodeError>)
    ensures
        match M::recognize(Packet { bytes: payload@, fds: numbers(old(fds)@) }) {
            Ok((form, rest)) => if rest.bytes.len() > 0 {
                r matches Err(e) && e == DecodeError::TrailingBytes && final(fds)@ == old(fds)@
            } else {
                r matches Ok(message) && message.wire() == form && form.fds.len() <= old(
                    fds,
                )@.len() && form == (Packet {
                    bytes: payload@,
                    fds: numbers(old(fds)@).take(form.fds.len() as int),
                }) && final(fds)@ == old(fds)@.skip(form.fds.len() as int)
            },
            Err(e) => r matches Err(got) && got == e && final(fds)@ == old(fds)@,
        },
{
    let arrived = numbers_of(fds);
    let ghost input = Packet { bytes: payload@, fds: arrived@ };
    let mut source = Source::new(payload, arrived.as_slice());
    let decoded = M::decode(&mut source);
    let bytes_left = source.bytes_left();
    let fds_left = source.fds_left();
    proof {
        M::lemma_recognizes_only_wire(input);
    }
    match decoded {
        Err(e) => Err(e),
        Ok(message) => {
            if bytes_left > 0 {
                return Err(DecodeError::TrailingBytes);
            }
            let ghost (form, rest) = M::recognize(input)->Ok_0;
            let taken = arrived.len() - fds_left;
            proof {
                assert(input.bytes =~= form.bytes + rest.bytes);
                assert(input.fds =~= form.fds + rest.fds);
                assert(form.bytes =~= payload@);
                assert(form.fds =~= arrived@.take(taken as int));
            }
            let mut i: usize = 0;
            while i < taken
                invariant
                    i <= taken <= old(fds)@.len(),
                    fds@ == old(fds)@.skip(i as int),
                decreases taken - i,
            {
                let _ = fds.pop_front();
                assert(fds@ =~= old(fds)@.skip(i + 1));
                i = i + 1;
            }
            Ok(message)
        },
    }
}

} // verus!
