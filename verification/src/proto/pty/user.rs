//! Between a pty service and the client attached to it.

use vstd::prelude::*;

use crate::ipc::codec::{reads_as, Sink, Source};
use crate::ipc::wire::{
    enc_bytes, enc_u32, lemma_parse_bytes_read, lemma_parse_bytes_written,
    lemma_parse_variant_read, lemma_parse_variant_written, parse_bytes, parse_variant,
    DecodeError, Packet, Parsed,
};
use crate::ipc::{Message, Wire};

verus! {

pub const CLIENT_INTENT: &'static str = "tere 2021-06-22T12:12:30 pty_user client";

pub const SERVER_INTENT: &'static str = "tere 2021-06-22T12:12:51 pty_user server";

/// The wire form of an enum with one variant that holds a byte vector.
pub open spec fn bytes_message_wire(data: Seq<u8>) -> Packet {
    Packet::of_bytes(enc_u32(0) + enc_bytes(data))
}

/// Reads an enum with one variant that holds a byte vector.
pub open spec fn parse_bytes_message(input: Packet) -> Parsed<Seq<u8>> {
    match parse_variant(input, 1) {
        Err(e) => Err(e),
        Ok((_, rest)) => parse_bytes(rest),
    }
}

pub proof fn lemma_bytes_message_written(data: Seq<u8>, fds: Seq<i32>, rest: Packet)
    requires
        data.len() <= u64::MAX,
        fds.len() == 0,
    ensures
        parse_bytes_message(
            (Packet { bytes: bytes_message_wire(data).bytes, fds }).followed_by(rest),
        ) == Ok::<(Seq<u8>, Packet), DecodeError>((data, rest)),
{
    let input = (Packet { bytes: bytes_message_wire(data).bytes, fds }).followed_by(rest);
    let middle = rest.after_bytes(enc_bytes(data));
    assert(input =~= middle.after_bytes(enc_u32(0)));
    lemma_parse_variant_written(0, 1, middle);
    lemma_parse_bytes_written(data, rest);
}

/// Two such messages with the same wire form carry the same bytes.
pub proof fn lemma_bytes_message_wire_determines(data: Seq<u8>, other: Seq<u8>)
    requires
        data.len() <= u64::MAX,
        other.len() <= u64::MAX,
        bytes_message_wire(data) == bytes_message_wire(other),
    ensures
        data == other,
{
    lemma_bytes_message_written(data, Seq::empty(), Packet::empty());
    lemma_bytes_message_written(other, Seq::empty(), Packet::empty());
}

pub proof fn lemma_bytes_message_read(input: Packet)
    ensures
        parse_bytes_message(input) matches Ok((data, rest)) ==> input == bytes_message_wire(
            data,
        ).followed_by(rest),
{
    if let Ok((data, rest)) = parse_bytes_message(input) {
        lemma_parse_variant_read(input, 1);
        let middle = parse_variant(input, 1)->Ok_0.1;
        lemma_parse_bytes_read(middle);
        assert(input =~= bytes_message_wire(data).followed_by(rest));
    }
}

/// From the pty service to the attached client.
#[derive(Debug)]
pub enum Output {
    /// Bytes that the session wrote to its terminal.
    SessionOutput(Vec<u8>),
}

impl View for Output {
    type V = Seq<u8>;

    /// The bytes carried.
    open spec fn view(&self) -> Seq<u8> {
        match *self {
            Output::SessionOutput(data) => data@,
        }
    }
}

impl Message for Output {
    const MAX_SIZE: usize = 8192;

    const MAX_FDS: usize = 0;
}

impl Wire for Output {
    open spec fn wire(&self) -> Packet {
        bytes_message_wire(self@)
    }

    open spec fn recognize(input: Packet) -> Parsed<Packet> {
        match parse_bytes_message(input) {
            Ok((data, rest)) => Ok((bytes_message_wire(data), rest)),
            Err(e) => Err(e),
        }
    }

    fn encode(&self, sink: &mut Sink) {
        match self {
            Output::SessionOutput(data) => {
                sink.put_u32(0);
                sink.put_bytes(data.as_slice());
            },
        }
        assert(sink@ =~= old(sink)@.followed_by(self.wire()));
    }

    fn decode(source: &mut Source) -> (r: Result<Self, DecodeError>)
        ensures
            reads_as(r, final(source)@, parse_bytes_message(old(source)@)),
    {
        match source.take_variant(1) {
            Err(e) => Err(e),
            Ok(_) => match source.take_bytes() {
                Err(e) => Err(e),
                Ok(data) => Ok(Output::SessionOutput(data)),
            },
        }
    }

    proof fn lemma_recognizes_wire(&self, fds: Seq<i32>, rest: Packet) {
        lemma_bytes_message_written(self@, fds, rest);
        assert(fds =~= Seq::empty());
    }

    proof fn lemma_recognizes_only_wire(input: Packet) {
        lemma_bytes_message_read(input);
    }
}

/// The bounds of [`Output`].
pub proof fn lemma_output_limits()
    ensures
        Output::MAX_SIZE == 8192,
        Output::MAX_FDS == 0,
{
}

/// From the attached client to the pty service.
#[derive(Debug)]
pub enum Input {
    /// Bytes that the user typed.
    KeyboardInput(Vec<u8>),
}

impl View for Input {
    type V = Seq<u8>;

    /// The bytes carried.
    open spec fn view(&self) -> Seq<u8> {
        match *self {
            Input::KeyboardInput(data) => data@,
        }
    }
}

impl Message for Input {
    const MAX_SIZE: usize = 8192;

    const MAX_FDS: usize = 0;
}

/// The bounds of [`Input`].
pub proof fn lemma_input_limits()
    ensures
        Input::MAX_SIZE == 8192,
        Input::MAX_FDS == 0,
{
}

impl Wire for Input {
    open spec fn wire(&self) -> Packet {
        bytes_message_wire(self@)
    }

    open spec fn recognize(input: Packet) -> Parsed<Packet> {
        match parse_bytes_message(input) {
            Ok((data, rest)) => Ok((bytes_message_wire(data), rest)),
            Err(e) => Err(e),
        }
    }

    fn encode(&self, sink: &mut Sink) {
        match self {
            Input::KeyboardInput(data) => {
                sink.put_u32(0);
                sink.put_bytes(data.as_slice());
            },
        }
        assert(sink@ =~= old(sink)@.followed_by(self.wire()));
    }

    fn decode(source: &mut Source) -> (r: Result<Self, DecodeError>)
        ensures
            reads_as(r, final(source)@, parse_bytes_message(old(source)@)),
    {
        match source.take_variant(1) {
            Err(e) => Err(e),
            Ok(_) => match source.take_bytes() {
                Err(e) => Err(e),
                Ok(data) => Ok(Input::KeyboardInput(data)),
            },
        }
    }

    proof fn lemma_recognizes_wire(&self, fds: Seq<i32>, rest: Packet) {
        lemma_bytes_message_written(self@, fds, rest);
        assert(fds =~= Seq::empty());
    }

    proof fn lemma_recognizes_only_wire(input: Packet) {
        lemma_bytes_message_read(input);
    }
}

} // verus!
