//! Between the sessions service and a pty service.

use vstd::prelude::*;

use crate::ipc::codec::{reads_as, Sink, Source};
use crate::ipc::ownedfd::OwnedFd;
use crate::ipc::passfd;
use crate::ipc::wire::{
    enc_u32, enc_u8, lemma_parse_fd_read, lemma_parse_fd_written, lemma_parse_u8_read,
    lemma_parse_u8_written, lemma_parse_variant_read, lemma_parse_variant_written, parse_fd,
    parse_u8, parse_variant, DecodeError, Packet, Parsed,
};
use crate::ipc::{Message, Wire};

pub mod user;

verus! {

pub const CLIENT_INTENT: &'static str = "tere 2021-06-11T21:34:03 pty client";

pub const SERVER_INTENT: &'static str = "tere 2021-06-11T21:35:37 pty server";

/// The first message to a pty service: the terminal that it is to serve.
#[derive(Debug)]
pub struct Init {
    /// One byte of payload, so that there is a packet for the descriptor to
    /// travel with.
    pub _dummy: u8,
    /// The master side of the pseudo-terminal.
    pub pty_master: OwnedFd,
}

pub struct InitView {
    pub dummy: u8,
    pub pty_master: i32,
}

impl View for Init {
    type V = InitView;

    open spec fn view(&self) -> InitView {
        InitView { dummy: self._dummy, pty_master: self.pty_master@ }
    }
}

impl InitView {
    /// One payload byte and one descriptor.
    pub open spec fn wire(self) -> Packet {
        Packet { bytes: enc_u8(self.dummy), fds: seq![self.pty_master] }
    }

    pub open spec fn parse(input: Packet) -> Parsed<InitView> {
        match parse_u8(input) {
            Err(e) => Err(e),
            Ok((dummy, rest)) => match parse_fd(rest) {
                Err(e) => Err(e),
                Ok((pty_master, after)) => Ok((InitView { dummy, pty_master }, after)),
            },
        }
    }

    pub proof fn lemma_written(self, rest: Packet)
        ensures
            Self::parse(self.wire().followed_by(rest)) == Ok::<(InitView, Packet), DecodeError>(
                (self, rest),
            ),
    {
        let middle = rest.after_fd(self.pty_master);
        assert(self.wire().followed_by(rest) =~= middle.after_bytes(enc_u8(self.dummy)));
        lemma_parse_u8_written(self.dummy, middle);
        lemma_parse_fd_written(self.pty_master, rest);
    }

    /// Two messages with the same wire form are the same message.
    pub proof fn lemma_wire_determines(self, other: InitView)
        requires
            self.wire() == other.wire(),
        ensures
            self == other,
    {
        self.lemma_written(Packet::empty());
        other.lemma_written(Packet::empty());
    }

    pub proof fn lemma_read(input: Packet)
        ensures
            Self::parse(input) matches Ok((v, rest)) ==> input == v.wire().followed_by(rest),
    {
        if let Ok((v, rest)) = Self::parse(input) {
            lemma_parse_u8_read(input);
            let middle = parse_u8(input)->Ok_0.1;
            lemma_parse_fd_read(middle);
            assert(input =~= v.wire().followed_by(rest));
        }
    }
}

impl Message for Init {
    const MAX_SIZE: usize = 1;

    const MAX_FDS: usize = 1;
}

/// The bounds of [`Init`].
pub proof fn lemma_init_limits()
    ensures
        Init::MAX_SIZE == 1,
        Init::MAX_FDS == 1,
{
}

impl Wire for Init {
    open spec fn wire(&self) -> Packet {
        self@.wire()
    }

    open spec fn recognize(input: Packet) -> Parsed<Packet> {
        match InitView::parse(input) {
            Ok((v, rest)) => Ok((v.wire(), rest)),
            Err(e) => Err(e),
        }
    }

    fn encode(&self, sink: &mut Sink) {
        sink.put_u8(self._dummy);
        passfd::serialize(&self.pty_master, sink);
        assert(sink@ =~= old(sink)@.followed_by(self.wire()));
    }

    fn decode(source: &mut Source) -> (r: Result<Self, DecodeError>)
        ensures
            reads_as(r, final(source)@, InitView::parse(old(source)@)),
    {
        let dummy = match source.take_u8() {
            Err(e) => {
                return Err(e);
            },
            Ok(dummy) => dummy,
        };
        let pty_master = match passfd::deserialize(source) {
            Err(e) => {
                return Err(e);
            },
            Ok(fd) => fd,
        };
        Ok(Init { _dummy: dummy, pty_master })
    }

    proof fn lemma_recognizes_wire(&self, fds: Seq<i32>, rest: Packet) {
        let v = InitView { dummy: self@.dummy, pty_master: fds[0] };
        assert(v.wire() =~= (Packet { bytes: self.wire().bytes, fds }));
        v.lemma_written(rest);
    }

    proof fn lemma_recognizes_only_wire(input: Packet) {
        InitView::lemma_read(input);
    }
}

/// What the sessions service asks of a pty service once the terminal is
/// there.
#[derive(Debug)]
pub enum Request {
    /// Attach this client, in place of whoever is attached.
    NewClient {
        /// One byte of payload for the descriptor to travel with.
        _dummy: u8,
        /// A connected `SOCK_SEQPACKET` socket to the client.
        fd: OwnedFd,
    },
}

pub struct RequestView {
    pub dummy: u8,
    pub fd: i32,
}

impl View for Request {
    type V = RequestView;

    open spec fn view(&self) -> RequestView {
        match *self {
            Request::NewClient { _dummy, fd } => RequestView { dummy: _dummy, fd: fd@ },
        }
    }
}

impl RequestView {
    /// The discriminant and one payload byte, and one descriptor.
    pub open spec fn wire(self) -> Packet {
        Packet { bytes: enc_u32(0) + enc_u8(self.dummy), fds: seq![self.fd] }
    }

    pub open spec fn parse(input: Packet) -> Parsed<RequestView> {
        match parse_variant(input, 1) {
            Err(e) => Err(e),
            Ok((_, rest)) => match parse_u8(rest) {
                Err(e) => Err(e),
                Ok((dummy, middle)) => match parse_fd(middle) {
                    Err(e) => Err(e),
                    Ok((fd, after)) => Ok((RequestView { dummy, fd }, after)),
                },
            },
        }
    }

    pub proof fn lemma_written(self, rest: Packet)
        ensures
            Self::parse(self.wire().followed_by(rest)) == Ok::<
                (RequestView, Packet),
                DecodeError,
            >((self, rest)),
    {
        let r2 = rest.after_fd(self.fd);
        let r1 = r2.after_bytes(enc_u8(self.dummy));
        assert(self.wire().followed_by(rest) =~= r1.after_bytes(enc_u32(0)));
        lemma_parse_variant_written(0, 1, r1);
        lemma_parse_u8_written(self.dummy, r2);
        lemma_parse_fd_written(self.fd, rest);
    }

    /// Two messages with the same wire form are the same message.
    pub proof fn lemma_wire_determines(self, other: RequestView)
        requires
            self.wire() == other.wire(),
        ensures
            self == other,
    {
        self.lemma_written(Packet::empty());
        other.lemma_written(Packet::empty());
    }

    pub proof fn lemma_read(input: Packet)
        ensures
            Self::parse(input) matches Ok((v, rest)) ==> input == v.wire().followed_by(rest),
    {
        if let Ok((v, rest)) = Self::parse(input) {
            lemma_parse_variant_read(input, 1);
            let r1 = parse_variant(input, 1)->Ok_0.1;
            lemma_parse_u8_read(r1);
            let r2 = parse_u8(r1)->Ok_0.1;
            lemma_parse_fd_read(r2);
            assert(input =~= v.wire().followed_by(rest));
        }
    }
}

impl Message for Request {
    const MAX_SIZE: usize = 8192;

    const MAX_FDS: usize = 1;
}

/// The bounds of [`Request`].
pub proof fn lemma_request_limits()
    ensures
        Request::MAX_SIZE == 8192,
        Request::MAX_FDS == 1,
{
}

impl Wire for Request {
    open spec fn wire(&self) -> Packet {
        self@.wire()
    }

    open spec fn recognize(input: Packet) -> Parsed<Packet> {
        match RequestView::parse(input) {
            Ok((v, rest)) => Ok((v.wire(), rest)),
            Err(e) => Err(e),
        }
    }

    fn encode(&self, sink: &mut Sink) {
        match self {
            Request::NewClient { _dummy, fd } => {
                sink.put_u32(0);
                sink.put_u8(*_dummy);
                passfd::serialize(fd, sink);
            },
        }
        assert(sink@ =~= old(sink)@.followed_by(self.wire()));
    }

    fn decode(source: &mut Source) -> (r: Result<Self, DecodeError>)
        ensures
            reads_as(r, final(source)@, RequestView::parse(old(source)@)),
    {
        match source.take_variant(1) {
            Err(e) => {
                return Err(e);
            },
            Ok(_) => {},
        }
        let dummy = match source.take_u8() {
            Err(e) => {
                return Err(e);
            },
            Ok(dummy) => dummy,
        };
        let fd = match passfd::deserialize(source) {
            Err(e) => {
                return Err(e);
            },
            Ok(fd) => fd,
        };
        Ok(Request::NewClient { _dummy: dummy, fd })
    }

    proof fn lemma_recognizes_wire(&self, fds: Seq<i32>, rest: Packet) {
        let v = RequestView { dummy: self@.dummy, fd: fds[0] };
        assert(v.wire() =~= (Packet { bytes: self.wire().bytes, fds }));
        v.lemma_written(rest);
    }

    proof fn lemma_recognizes_only_wire(input: Packet) {
        RequestView::lemma_read(input);
    }
}

} // verus!
