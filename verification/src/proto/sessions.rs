//! Between a controller and the sessions service.

use vstd::prelude::*;
use vstd::utf8::*;

use crate::ipc::codec::{opt_text, opt_texts, reads_as, Sink, Source};
use crate::ipc::ownedfd::OwnedFd;
use crate::ipc::passfd;
use crate::ipc::wire::{
    enc_opt_str, enc_opt_strs, enc_str, enc_strs, enc_u32, lemma_parse_fd_read,
    lemma_parse_fd_written, lemma_parse_opt_str_read, lemma_parse_opt_str_written,
    lemma_parse_opt_strs_read, lemma_parse_opt_strs_written, lemma_parse_str_read,
    lemma_parse_str_written, lemma_parse_variant_read, lemma_parse_variant_written,
    lemma_enc_str_len, lemma_opt_str_fits, lemma_opt_strs_fit, parse_fd, parse_opt_str, parse_opt_strs, parse_str, parse_variant, strs_fit,
    DecodeError, Packet, Parsed,
};
use crate::ipc::{Message, Wire};

verus! {

pub const CLIENT_INTENT: &'static str = "tere 2021-07-01T19:41:51 sessions client";

pub const SERVER_INTENT: &'static str = "tere 2021-07-01T19:42:20 sessions server";

/// Where a shell is to run.
#[derive(Debug)]
pub enum Machine {
    /// On the host itself.
    Host,
    /// In the container of this name.
    Container(String),
}

pub enum MachineView {
    Host,
    Container(Seq<char>),
}

impl View for Machine {
    type V = MachineView;

    open spec fn view(&self) -> MachineView {
        match *self {
            Machine::Host => MachineView::Host,
            Machine::Container(name) => MachineView::Container(name@),
        }
    }
}

impl MachineView {
    /// The discriminant, and behind it the name of a container.
    #[verifier::opaque]
    pub open spec fn enc(self) -> Seq<u8> {
        match self {
            MachineView::Host => enc_u32(0),
            MachineView::Container(name) => enc_u32(1) + enc_str(name),
        }
    }

    #[verifier::opaque]
    pub open spec fn parse(input: Packet) -> Parsed<MachineView> {
        match parse_variant(input, 2) {
            Err(e) => Err(e),
            Ok((index, rest)) => if index == 0 {
                Ok((MachineView::Host, rest))
            } else {
                match parse_str(rest) {
                    Err(e) => Err(e),
                    Ok((name, after)) => Ok((MachineView::Container(name), after)),
                }
            },
        }
    }

    /// Whether the strings in it have lengths that fit in 64 bits.
    pub open spec fn fits(self) -> bool {
        self matches MachineView::Container(name) ==> encode_utf8(name).len() <= u64::MAX
    }

    /// A machine whose encoding has a length that fits in 64 bits names a
    /// container, where it names one, by a string that fits.
    pub proof fn lemma_fits(self)
        requires
            self.enc().len() <= u64::MAX,
        ensures
            self.fits(),
    {
        reveal(MachineView::enc);
        if let MachineView::Container(name) = self {
            lemma_enc_str_len(name);
        }
    }

    pub proof fn lemma_written(self, rest: Packet)
        requires
            self.fits(),
        ensures
            Self::parse(rest.after_bytes(self.enc())) == Ok::<(MachineView, Packet), DecodeError>(
                (self, rest),
            ),
    {
        reveal(MachineView::enc);
        reveal(MachineView::parse);
        match self {
            MachineView::Host => {
                lemma_parse_variant_written(0, 2, rest);
            },
            MachineView::Container(name) => {
                let middle = rest.after_bytes(enc_str(name));
                assert(rest.after_bytes(self.enc()) =~= middle.after_bytes(enc_u32(1)));
                lemma_parse_variant_written(1, 2, middle);
                lemma_parse_str_written(name, rest);
            },
        }
    }

    pub proof fn lemma_read(input: Packet)
        ensures
            Self::parse(input) matches Ok((v, rest)) ==> v.fits() && input == rest.after_bytes(
                v.enc(),
            ),
    {
        reveal(MachineView::enc);
        reveal(MachineView::parse);
        if let Ok((v, rest)) = Self::parse(input) {
            lemma_parse_variant_read(input, 2);
            let (index, middle) = parse_variant(input, 2)->Ok_0;
            if index != 0 {
                lemma_parse_str_read(middle);
                assert(input =~= rest.after_bytes(v.enc()));
            }
        }
    }
}

impl Machine {
    pub fn encode(&self, sink: &mut Sink)
        ensures
            final(sink)@ == old(sink)@.followed_by(Packet::of_bytes(self@.enc())),
    {
        proof {
            reveal(MachineView::enc);
        }
        match self {
            Machine::Host => {
                sink.put_u32(0);
            },
            Machine::Container(name) => {
                sink.put_u32(1);
                sink.put_str(name.as_str());
                assert(sink@ =~= old(sink)@.followed_by(Packet::of_bytes(self@.enc())));
            },
        }
    }

    pub fn decode(source: &mut Source) -> (r: Result<Machine, DecodeError>)
        ensures
            reads_as(r, final(source)@, MachineView::parse(old(source)@)),
    {
        proof {
            reveal(MachineView::parse);
        }
        let index = match source.take_variant(2) {
            Err(e) => {
                return Err(e);
            },
            Ok(index) => index,
        };
        if index == 0 {
            Ok(Machine::Host)
        } else {
            match source.take_str() {
                Err(e) => Err(e),
                Ok(name) => Ok(Machine::Container(name)),
            }
        }
    }
}

/// The request for a new shell session.
#[derive(Debug)]
pub struct CreateShellSession {
    /// A connected `SOCK_SEQPACKET` socket to the client of the session.
    pub fd: OwnedFd,
    pub machine: Machine,
    /// Name of the user to start the session as.
    pub user: String,
    /// Absolute path of the shell to run.
    pub program: Option<String>,
    /// Arguments to the shell, the name of the program first.
    pub args: Option<Vec<String>>,
    /// Environment variables to pass.
    pub env: Option<Vec<String>>,
}

pub struct CreateShellSessionView {
    pub fd: i32,
    pub machine: MachineView,
    pub user: Seq<char>,
    pub program: Option<Seq<char>>,
    pub args: Option<Seq<Seq<char>>>,
    pub env: Option<Seq<Seq<char>>>,
}

impl View for CreateShellSession {
    type V = CreateShellSessionView;

    open spec fn view(&self) -> CreateShellSessionView {
        CreateShellSessionView {
            fd: self.fd@,
            machine: self.machine@,
            user: self.user@,
            program: opt_text(self.program),
            args: opt_texts(self.args),
            env: opt_texts(self.env),
        }
    }
}

impl CreateShellSessionView {
    /// The fields in order; the descriptor adds no byte.
    pub open spec fn wire(self) -> Packet {
        Packet {
            bytes: self.machine.enc() + enc_str(self.user) + enc_opt_str(self.program)
                + enc_opt_strs(self.args) + enc_opt_strs(self.env),
            fds: seq![self.fd],
        }
    }

    pub open spec fn parse(input: Packet) -> Parsed<CreateShellSessionView> {
        match parse_fd(input) {
            Err(e) => Err(e),
            Ok((fd, r1)) => match MachineView::parse(r1) {
                Err(e) => Err(e),
                Ok((machine, r2)) => match parse_str(r2) {
                    Err(e) => Err(e),
                    Ok((user, r3)) => match parse_opt_str(r3) {
                        Err(e) => Err(e),
                        Ok((program, r4)) => match parse_opt_strs(r4) {
                            Err(e) => Err(e),
                            Ok((args, r5)) => match parse_opt_strs(r5) {
                                Err(e) => Err(e),
                                Ok((env, after)) => Ok(
                                    (
                                        CreateShellSessionView {
                                            fd,
                                            machine,
                                            user,
                                            program,
                                            args,
                                            env,
                                        },
                                        after,
                                    ),
                                ),
                            },
                        },
                    },
                },
            },
        }
    }

    /// Whether the strings and lists in it have lengths that fit in 64 bits.
    pub open spec fn fits(self) -> bool {
        &&& self.machine.fits()
        &&& encode_utf8(self.user).len() <= u64::MAX
        &&& (self.program matches Some(text) ==> encode_utf8(text).len() <= u64::MAX)
        &&& (self.args matches Some(items) ==> items.len() <= u64::MAX && strs_fit(items))
        &&& (self.env matches Some(items) ==> items.len() <= u64::MAX && strs_fit(items))
    }

    /// A request whose payload has a length that fits in 64 bits holds only
    /// strings and lists that fit.
    pub proof fn lemma_fits(self)
        requires
            self.wire().bytes.len() <= u64::MAX,
        ensures
            self.fits(),
    {
        self.machine.lemma_fits();
        lemma_enc_str_len(self.user);
        lemma_opt_str_fits(self.program);
        lemma_opt_strs_fit(self.args);
        lemma_opt_strs_fit(self.env);
    }

    pub proof fn lemma_written(self, rest: Packet)
        requires
            self.fits(),
        ensures
            Self::parse(self.wire().followed_by(rest)) == Ok::<
                (CreateShellSessionView, Packet),
                DecodeError,
            >((self, rest)),
    {
        let r5 = rest.after_bytes(enc_opt_strs(self.env));
        let r4 = r5.after_bytes(enc_opt_strs(self.args));
        let r3 = r4.after_bytes(enc_opt_str(self.program));
        let r2 = r3.after_bytes(enc_str(self.user));
        let r1 = r2.after_bytes(self.machine.enc());
        assert(self.wire().followed_by(rest) =~= r1.after_fd(self.fd));
        lemma_parse_fd_written(self.fd, r1);
        self.machine.lemma_written(r2);
        lemma_parse_str_written(self.user, r3);
        lemma_parse_opt_str_written(self.program, r4);
        lemma_parse_opt_strs_written(self.args, r5);
        lemma_parse_opt_strs_written(self.env, rest);
    }

    pub proof fn lemma_read(input: Packet)
        ensures
            Self::parse(input) matches Ok((v, rest)) ==> v.fits() && input == v.wire().followed_by(
                rest,
            ),
    {
        if let Ok((v, rest)) = Self::parse(input) {
            lemma_parse_fd_read(input);
            let r1 = parse_fd(input)->Ok_0.1;
            MachineView::lemma_read(r1);
            let r2 = MachineView::parse(r1)->Ok_0.1;
            lemma_parse_str_read(r2);
            let r3 = parse_str(r2)->Ok_0.1;
            lemma_parse_opt_str_read(r3);
            let r4 = parse_opt_str(r3)->Ok_0.1;
            lemma_parse_opt_strs_read(r4);
            let r5 = parse_opt_strs(r4)->Ok_0.1;
            lemma_parse_opt_strs_read(r5);
            assert(input =~= v.wire().followed_by(rest));
        }
    }
}

impl CreateShellSession {
    pub fn encode(&self, sink: &mut Sink)
        ensures
            final(sink)@ == old(sink)@.followed_by(self@.wire()),
    {
        passfd::serialize(&self.fd, sink);
        self.machine.encode(sink);
        sink.put_str(self.user.as_str());
        sink.put_opt_str(&self.program);
        sink.put_opt_strs(&self.args);
        sink.put_opt_strs(&self.env);
        assert(sink@ =~= old(sink)@.followed_by(self@.wire()));
    }

    pub fn decode(source: &mut Source) -> (r: Result<CreateShellSession, DecodeError>)
        ensures
            reads_as(r, final(source)@, CreateShellSessionView::parse(old(source)@)),
    {
        let fd = match passfd::deserialize(source) {
            Err(e) => {
                return Err(e);
            },
            Ok(fd) => fd,
        };
        let machine = match Machine::decode(source) {
            Err(e) => {
                return Err(e);
            },
            Ok(machine) => machine,
        };
        let user = match source.take_str() {
            Err(e) => {
                return Err(e);
            },
            Ok(user) => user,
        };
        let program = match source.take_opt_str() {
            Err(e) => {
                return Err(e);
            },
            Ok(program) => program,
        };
        let args = match source.take_opt_strs() {
            Err(e) => {
                return Err(e);
            },
            Ok(args) => args,
        };
        let env = match source.take_opt_strs() {
            Err(e) => {
                return Err(e);
            },
            Ok(env) => env,
        };
        Ok(CreateShellSession { fd, machine, user, program, args, env })
    }
}

/// What a controller asks of the sessions service.
#[derive(Debug)]
pub enum Request {
    CreateShellSession(CreateShellSession),
}

impl View for Request {
    type V = CreateShellSessionView;

    /// The request that it holds.
    open spec fn view(&self) -> CreateShellSessionView {
        match *self {
            Request::CreateShellSession(create) => create@,
        }
    }
}

/// The wire form of a [`Request`]: the discriminant, then the request.
pub open spec fn request_wire(v: CreateShellSessionView) -> Packet {
    v.wire().after_bytes(enc_u32(0))
}

pub open spec fn parse_request(input: Packet) -> Parsed<CreateShellSessionView> {
    match parse_variant(input, 1) {
        Err(e) => Err(e),
        Ok((_, rest)) => CreateShellSessionView::parse(rest),
    }
}

pub proof fn lemma_request_written(v: CreateShellSessionView, rest: Packet)
    requires
        v.fits(),
    ensures
        parse_request(request_wire(v).followed_by(rest)) == Ok::<
            (CreateShellSessionView, Packet),
            DecodeError,
        >((v, rest)),
{
    let middle = v.wire().followed_by(rest);
    assert(request_wire(v).followed_by(rest) =~= middle.after_bytes(enc_u32(0)));
    lemma_parse_variant_written(0, 1, middle);
    v.lemma_written(rest);
}

/// Two requests with the same wire form are the same request.
pub proof fn lemma_request_wire_determines(v: CreateShellSessionView, other: CreateShellSessionView)
    requires
        v.fits(),
        other.fits(),
        request_wire(v) == request_wire(other),
    ensures
        v == other,
{
    lemma_request_written(v, Packet::empty());
    lemma_request_written(other, Packet::empty());
}

pub proof fn lemma_request_read(input: Packet)
    ensures
        parse_request(input) matches Ok((v, rest)) ==> v.fits() && input == request_wire(
            v,
        ).followed_by(rest),
{
    if let Ok((v, rest)) = parse_request(input) {
        lemma_parse_variant_read(input, 1);
        let middle = parse_variant(input, 1)->Ok_0.1;
        CreateShellSessionView::lemma_read(middle);
        assert(input =~= request_wire(v).followed_by(rest));
    }
}

impl Message for Request {
    const MAX_SIZE: usize = 8192;

    const MAX_FDS: usize = 1;
}

/// The bounds of [`Request`].
pub proof fn lemma_request_limits()
    ensures
        Request::MAX_SIZE == 8192,
        Request::MAX_FDS == 1,
{
}

impl Wire for Request {
    open spec fn wire(&self) -> Packet {
        request_wire(self@)
    }

    open spec fn recognize(input: Packet) -> Parsed<Packet> {
        match parse_request(input) {
            Ok((v, rest)) => Ok((request_wire(v), rest)),
            Err(e) => Err(e),
        }
    }

    fn encode(&self, sink: &mut Sink) {
        match self {
            Request::CreateShellSession(create) => {
                sink.put_u32(0);
                create.encode(sink);
            },
        }
        assert(sink@ =~= old(sink)@.followed_by(self.wire()));
    }

    fn decode(source: &mut Source) -> (r: Result<Self, DecodeError>)
        ensures
            reads_as(r, final(source)@, parse_request(old(source)@)),
    {
        match source.take_variant(1) {
            Err(e) => {
                return Err(e);
            },
            Ok(_) => {},
        }
        match CreateShellSession::decode(source) {
            Err(e) => Err(e),
            Ok(create) => Ok(Request::CreateShellSession(create)),
        }
    }

    proof fn lemma_recognizes_wire(&self, fds: Seq<i32>, rest: Packet) {
        let v = CreateShellSessionView { fd: fds[0], ..self@ };
        assert(request_wire(v) =~= (Packet { bytes: self.wire().bytes, fds }));
        assert(v.wire().bytes.len() <= self.wire().bytes.len());
        v.lemma_fits();
        lemma_request_written(v, rest);
    }

    proof fn lemma_recognizes_only_wire(input: Packet) {
        lemma_request_read(input);
    }
}

} // verus!
