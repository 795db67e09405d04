//! The first exchange on a connection: each side says which end of which
//! protocol it is, and in which revision, before any other message flows.
//!
//! The client sends first and then receives; the server receives, judges, and
//! answers only a peer that it accepts. The order is laid down step by step:
//! each step takes how the last send or receive ended and gives back what
//! comes next. [`client_opens`] gives the message to send and an
//! [`Opening`]; [`Opening::sent`] gives an [`Awaiting`], for which a message
//! is to be received; [`Awaiting::received`] ends the client's side.
//! [`server_listens`] gives a [`Listening`], for which a message is to be
//! received; [`Listening::received`] gives the answer to send and an
//! [`Answering`]; [`Answering::sent`] ends the server's side.
//! [`handshake_as_client`] and [`handshake_as_server`] walk these steps over
//! a connection.

use vstd::prelude::*;
use vstd::string::*;
use vstd::utf8::*;

use crate::ipc::codec::{reads_as, same_bytes, Sink, Source};
use crate::ipc::wire::{
    enc_str, lemma_enc_str_len, lemma_parse_array_read, lemma_parse_array_written,
    lemma_parse_str_read, lemma_parse_str_written, parse_array, parse_str, DecodeError, Packet,
    Parsed,
};
use crate::ipc::{Message, ReceiveError, SendError, Wire, IPC};

verus! {

/// Names the revision of the protocols that this crate speaks. Two builds
/// whose messages or exchanges differ carry different identities.
pub const PROTOCOL_IDENTITY: &'static str =
    "ae366cf1e1f28f63d86c677f19d738658e773528a5faad018bb50bebec021ef3";

/// Length of a build id, in bytes.
pub const KEY_LEN: usize = 32;

/// The 32 bytes that BLAKE3's key derivation gives for a context string and
/// key material.
pub uninterp spec fn derive_key_spec(context: Seq<char>, key_material: Seq<u8>) -> Seq<u8>;

/// `blake3::derive_key` with an output of 32 bytes: the result is BLAKE3's
/// derived key for `context` and `key_material`, and depends on nothing else.
#[verifier::external_body]
fn derive_key(context: &str, key_material: &[u8]) -> (out: [u8; 32])
    ensures
        out@ == derive_key_spec(context@, key_material@),
{
    let mut out = [0u8; 32];
    blake3::derive_key(context, key_material, &mut out);
    out
}

/// The build id that goes with `intent` in this revision of the protocols.
pub open spec fn protocol_key(intent: Seq<char>) -> Seq<u8> {
    derive_key_spec(intent, encode_utf8(PROTOCOL_IDENTITY@))
}

/// Derives the build id that goes with the intent `context`.
pub fn identify(context: &str) -> (key: [u8; 32])
    ensures
        key@ == protocol_key(context@),
{
    derive_key(context, PROTOCOL_IDENTITY.as_bytes())
}

/// Whether two strings are the same text.
fn same_text(a: &str, b: &str) -> (same: bool)
    ensures
        same == (a@ == b@),
{
    proof {
        encode_utf8_decode_utf8(a@);
        encode_utf8_decode_utf8(b@);
    }
    same_bytes(a.as_bytes(), b.as_bytes())
}

/// The message that each side sends first.
#[derive(Debug)]
pub struct Handshake {
    /// Which end of which protocol the sender is.
    pub intent: String,
    /// The build id that the sender derived for its intent.
    pub build_id: [u8; 32],
}

pub struct HandshakeView {
    pub intent: Seq<char>,
    pub build_id: Seq<u8>,
}

impl View for Handshake {
    type V = HandshakeView;

    open spec fn view(&self) -> HandshakeView {
        HandshakeView { intent: self.intent@, build_id: self.build_id@ }
    }
}

impl HandshakeView {
    /// The intent as a string, then the 32 bytes of the build id.
    pub open spec fn wire(self) -> Packet {
        Packet::of_bytes(enc_str(self.intent) + self.build_id)
    }

    pub open spec fn parse(input: Packet) -> Parsed<HandshakeView> {
        match parse_str(input) {
            Err(e) => Err(e),
            Ok((intent, rest)) => match parse_array(rest, KEY_LEN as nat) {
                Err(e) => Err(e),
                Ok((build_id, after)) => Ok((HandshakeView { intent, build_id }, after)),
            },
        }
    }

    /// Whether this is what the holder of `intent` sends in this revision.
    pub open spec fn is_from(self, intent: Seq<char>) -> bool {
        self.build_id == protocol_key(intent) && self.intent == intent
    }

    pub proof fn lemma_written(self, rest: Packet)
        requires
            encode_utf8(self.intent).len() <= u64::MAX,
            self.build_id.len() == KEY_LEN,
        ensures
            Self::parse(rest.after_bytes(self.wire().bytes)) == Ok::<
                (HandshakeView, Packet),
                DecodeError,
            >((self, rest)),
    {
        let middle = rest.after_bytes(self.build_id);
        assert(rest.after_bytes(self.wire().bytes) =~= middle.after_bytes(enc_str(self.intent)));
        lemma_parse_str_written(self.intent, middle);
        lemma_parse_array_written(self.build_id, rest);
    }

    /// Two messages with the same wire form are the same message.
    pub proof fn lemma_wire_determines(self, other: HandshakeView)
        requires
            encode_utf8(self.intent).len() <= u64::MAX,
            encode_utf8(other.intent).len() <= u64::MAX,
            self.build_id.len() == KEY_LEN,
            other.build_id.len() == KEY_LEN,
            self.wire() == other.wire(),
        ensures
            self == other,
    {
        self.lemma_written(Packet::empty());
        other.lemma_written(Packet::empty());
    }

    pub proof fn lemma_read(input: Packet)
        ensures
            Self::parse(input) matches Ok((v, rest)) ==> input == rest.after_bytes(v.wire().bytes)
                && v.build_id.len() == KEY_LEN,
    {
        if let Ok((v, rest)) = Self::parse(input) {
            lemma_parse_str_read(input);
            let middle = parse_str(input)->Ok_0.1;
            lemma_parse_array_read(middle, KEY_LEN as nat);
            assert(input =~= rest.after_bytes(v.wire().bytes));
        }
    }
}

/// Why a handshake did not succeed.
#[derive(Debug)]
pub enum Error {
    /// Our own message could not be sent.
    Send(SendError),
    /// The peer's message could not be received.
    Receive(ReceiveError),
    /// The peer runs another revision of the protocols.
    WrongVersion,
    /// The peer is the end of some other protocol.
    WrongService,
}

/// The verdict on a peer's first message where the peer is expected to hold
/// `expected`: the build id is judged first, the intent second.
pub open spec fn peer_verdict(peer: HandshakeView, expected: Seq<char>) -> Result<(), Error> {
    if peer.build_id != protocol_key(expected) {
        Err(Error::WrongVersion)
    } else if peer.intent != expected {
        Err(Error::WrongService)
    } else {
        Ok(())
    }
}

impl Handshake {
    /// The message that the holder of `intent` sends.
    pub fn new(intent: &'static str) -> (hello: Handshake)
        ensures
            hello@.is_from(intent@),
    {
        Handshake { intent: intent.to_owned(), build_id: identify(intent) }
    }

    /// Judges this message as the first message of a peer that is expected to
    /// hold `expected_intent`. It is accepted only if it carries the build id
    /// derived for that intent and names that very intent. Both comparisons
    /// are made whatever the first one gives.
    pub fn check(&self, expected_intent: &str) -> (r: Result<(), Error>)
        ensures
            r == peer_verdict(self@, expected_intent@),
            r is Ok <==> self@.is_from(expected_intent@),
    {
        let expected_build_id = identify(expected_intent);
        let version_matches = same_bytes(self.build_id.as_slice(), expected_build_id.as_slice());
        let service_matches = same_text(self.intent.as_str(), expected_intent);
        if !version_matches {
            Err(Error::WrongVersion)
        } else if !service_matches {
            Err(Error::WrongService)
        } else {
            Ok(())
        }
    }
}

/// What a handshake comes to once the receive of the peer's message has
/// ended: a failed receive is reported as it is, a message is judged by
/// [`Handshake::check`].
pub fn conclude(received: Result<Handshake, ReceiveError>, expected_intent: &str) -> (r: Result<
    (),
    Error,
>)
    ensures
        r == (match received {
            Err(e) => Err::<(), Error>(Error::Receive(e)),
            Ok(peer) => peer_verdict(peer@, expected_intent@),
        }),
{
    match received {
        Err(e) => Err(Error::Receive(e)),
        Ok(peer) => peer.check(expected_intent),
    }
}

/// The client's side before its message has been sent.
#[derive(Debug)]
pub struct Opening {
    server_intent: &'static str,
}

/// The client's side once its message has been sent: the server's message
/// is to be received.
#[derive(Debug)]
pub struct Awaiting {
    server_intent: &'static str,
}

/// The server's side before the client's message has been received.
#[derive(Debug)]
pub struct Listening {
    client_intent: &'static str,
    server_intent: &'static str,
}

/// The server's side once it has accepted the client: its own message is
/// being sent.
#[derive(Debug)]
pub struct Answering {}

/// The client goes first: this is the message that it sends before
/// anything else, that of the holder of `client_intent`. The server is
/// expected to hold `server_intent`.
pub fn client_opens(client_intent: &'static str, server_intent: &'static str) -> (first: (
    Handshake,
    Opening,
))
    ensures
        first.0@.is_from(client_intent@),
        first.1.expects() == server_intent@,
{
    (Handshake::new(client_intent), Opening { server_intent })
}

impl Opening {
    /// The intent that the server is expected to hold.
    pub closed spec fn expects(self) -> Seq<char> {
        self.server_intent@
    }

    /// After the send of the client's message. Where it was sent, the
    /// server's message is to be received next. Where it was not, the
    /// handshake has failed and nothing is received.
    pub fn sent(self, outcome: Result<(), SendError>) -> (r: Result<Awaiting, Error>)
        ensures
            match outcome {
                Ok(()) => r matches Ok(next) && next.expects() == self.expects(),
                Err(e) => r matches Err(error) && error == Error::Send(e),
            },
    {
        match outcome {
            Ok(()) => Ok(Awaiting { server_intent: self.server_intent }),
            Err(e) => Err(Error::Send(e)),
        }
    }
}

impl Awaiting {
    /// The intent that the server is expected to hold.
    pub closed spec fn expects(self) -> Seq<char> {
        self.server_intent@
    }

    /// After the receive of the server's message: the client's side ends
    /// with what [`conclude`] makes of the receive.
    pub fn received(self, outcome: Result<Handshake, ReceiveError>) -> (r: Result<(), Error>)
        ensures
            r == concluded(outcome, self.expects()),
    {
        conclude(outcome, self.server_intent)
    }
}

/// The server waits first: before anything is sent, the message of a client
/// that is expected to hold `client_intent` is to be received. The server
/// holds `server_intent`.
pub fn server_listens(client_intent: &'static str, server_intent: &'static str) -> (listening:
    Listening)
    ensures
        listening.expects() == client_intent@,
        listening.answers_as() == server_intent@,
{
    Listening { client_intent, server_intent }
}

impl Listening {
    /// The intent that the client is expected to hold.
    pub closed spec fn expects(self) -> Seq<char> {
        self.client_intent@
    }

    /// The intent that the server holds.
    pub closed spec fn answers_as(self) -> Seq<char> {
        self.server_intent@
    }

    /// After the receive of the client's message. A client that
    /// [`conclude`] accepts is answered: the server's own message is to be
    /// sent next. Where the receive failed, and where the client is turned
    /// down for its build id or for its intent, the handshake has failed
    /// and nothing is sent.
    pub fn received(self, outcome: Result<Handshake, ReceiveError>) -> (r: Result<
        (Handshake, Answering),
        Error,
    >)
        ensures
            match concluded(outcome, self.expects()) {
                Ok(()) => r matches Ok(answer) && answer.0@.is_from(self.answers_as()),
                Err(e) => r matches Err(error) && error == e,
            },
    {
        match conclude(outcome, self.client_intent) {
            Ok(()) => Ok((Handshake::new(self.server_intent), Answering {})),
            Err(e) => Err(e),
        }
    }
}

impl Answering {
    /// After the send of the server's message: the server's side ends as
    /// the send ended.
    pub fn sent(self, outcome: Result<(), SendError>) -> (r: Result<(), Error>)
        ensures
            r == (match outcome {
                Ok(()) => Ok::<(), Error>(()),
                Err(e) => Err::<(), Error>(Error::Send(e)),
            }),
    {
        match outcome {
            Ok(()) => Ok(()),
            Err(e) => Err(Error::Send(e)),
        }
    }
}

/// Runs the client's side over `conn`, step by step: [`client_opens`], a
/// send, [`Opening::sent`], a receive, [`Awaiting::received`]. Nothing is
/// received where the send fails.
pub fn handshake_as_client<C: IPC>(
    conn: &C,
    client_intent: &'static str,
    server_intent: &'static str,
) -> (r: Result<(), Error>)
    ensures
        client_handshake(conn, client_intent@, server_intent@, r),
{
    let (hello, opening) = client_opens(client_intent, server_intent);
    let sent = conn.send_with_fds(&hello);
    assert(can_send(conn, hello, sent));
    let awaiting = match opening.sent(sent) {
        Err(e) => {
            return Err(e);
        },
        Ok(awaiting) => awaiting,
    };
    let received = conn.receive_with_fds::<Handshake>();
    assert(can_receive(conn, received));
    awaiting.received(received)
}

/// Runs the server's side over `conn`, step by step: [`server_listens`], a
/// receive, [`Listening::received`], a send, [`Answering::sent`]. Nothing is
/// sent to a client that is turned down.
pub fn handshake_as_server<C: IPC>(
    conn: &C,
    client_intent: &'static str,
    server_intent: &'static str,
) -> (r: Result<(), Error>)
    ensures
        server_handshake(conn, client_intent@, server_intent@, r),
{
    let listening = server_listens(client_intent, server_intent);
    let received = conn.receive_with_fds::<Handshake>();
    assert(can_receive(conn, received));
    let (hello, answering) = match listening.received(received) {
        Err(e) => {
            return Err(e);
        },
        Ok(answer) => answer,
    };
    let sent = conn.send_with_fds(&hello);
    assert(can_send(conn, hello, sent));
    answering.sent(sent)
}

/// `sent` is a result that the connection can give to a send of `hello`.
pub open spec fn can_send<C: IPC>(conn: &C, hello: Handshake, sent: Result<(), SendError>) -> bool {
    call_ensures(C::send_with_fds::<Handshake>, (conn, &hello), sent)
}

/// `received` is a result that the connection can give to a receive of a
/// handshake message.
pub open spec fn can_receive<C: IPC>(conn: &C, received: Result<Handshake, ReceiveError>) -> bool {
    call_ensures(C::receive_with_fds::<Handshake>, (conn,), received)
}

/// What [`conclude`] makes of a receive.
pub open spec fn concluded(received: Result<Handshake, ReceiveError>, expected: Seq<char>) -> Result<
    (),
    Error,
> {
    match received {
        Err(e) => Err(Error::Receive(e)),
        Ok(peer) => peer_verdict(peer@, expected),
    }
}

/// `r` is how the client's side ends on `conn`. The message of the holder
/// of `client_intent` is sent. Where the send fails, `r` is that failure.
/// Where it succeeds, a message is received, and `r` is what [`conclude`]
/// makes of the receive, the server being expected to hold
/// `server_intent`.
pub open spec fn client_handshake<C: IPC>(
    conn: &C,
    client_intent: Seq<char>,
    server_intent: Seq<char>,
    r: Result<(), Error>,
) -> bool {
    exists|hello: Handshake, sent: Result<(), SendError>|
        hello@.is_from(client_intent) && #[trigger] can_send(conn, hello, sent) && match sent {
            Err(e) => r == Err::<(), Error>(Error::Send(e)),
            Ok(()) => exists|received: Result<Handshake, ReceiveError>|
                #[trigger] can_receive(conn, received) && r == concluded(received, server_intent),
        }
}

/// `r` is how the server's side ends on `conn`. A message is received.
/// Where [`conclude`] turns the receive down, the client being expected to
/// hold `client_intent`, `r` is that verdict and nothing is sent. Where it
/// accepts the client, the message of the holder of `server_intent` is
/// sent, and `r` is how the send ended.
pub open spec fn server_handshake<C: IPC>(
    conn: &C,
    client_intent: Seq<char>,
    server_intent: Seq<char>,
    r: Result<(), Error>,
) -> bool {
    exists|received: Result<Handshake, ReceiveError>|
        #[trigger] can_receive(conn, received) && match concluded(received, client_intent) {
            Err(e) => r == Err::<(), Error>(e),
            Ok(()) => exists|hello: Handshake, sent: Result<(), SendError>|
                hello@.is_from(server_intent) && #[trigger] can_send(conn, hello, sent) && r == (
                match sent {
                    Err(e) => Err::<(), Error>(Error::Send(e)),
                    Ok(()) => Ok::<(), Error>(()),
                }),
        }
}

impl Message for Handshake {
    const MAX_SIZE: usize = 8192;

    const MAX_FDS: usize = 0;
}

/// The bounds of [`Handshake`].
pub proof fn lemma_handshake_limits()
    ensures
        Handshake::MAX_SIZE == 8192,
        Handshake::MAX_FDS == 0,
{
}

impl Wire for Handshake {
    open spec fn wire(&self) -> Packet {
        self@.wire()
    }

    open spec fn recognize(input: Packet) -> Parsed<Packet> {
        match HandshakeView::parse(input) {
            Ok((v, rest)) => Ok((v.wire(), rest)),
            Err(e) => Err(e),
        }
    }

    fn encode(&self, sink: &mut Sink) {
        sink.put_str(self.intent.as_str());
        sink.put_raw(self.build_id.as_slice());
        assert(sink@ =~= old(sink)@.followed_by(self.wire()));
    }

    fn decode(source: &mut Source) -> (r: Result<Self, DecodeError>)
        ensures
            reads_as(r, final(source)@, HandshakeView::parse(old(source)@)),
    {
        let intent = match source.take_str() {
            Err(e) => {
                return Err(e);
            },
            Ok(intent) => intent,
        };
        let raw = match source.take_raw(KEY_LEN) {
            Err(e) => {
                return Err(e);
            },
            Ok(raw) => raw,
        };
        let mut build_id = [0u8; 32];
        let mut i: usize = 0;
        while i < KEY_LEN
            invariant
                i <= KEY_LEN,
                raw@.len() == KEY_LEN,
                build_id@.take(i as int) == raw@.take(i as int),
            decreases KEY_LEN - i,
        {
            build_id[i] = raw[i];
            assert(build_id@.take(i + 1) =~= raw@.take(i + 1)) by {
                assert(build_id@.take(i + 1).take(i as int) =~= build_id@.take(i as int));
            }
            i = i + 1;
        }
        assert(build_id@.take(KEY_LEN as int) =~= build_id@ && raw@.take(KEY_LEN as int) =~= raw@);
        Ok(Handshake { intent, build_id })
    }

    proof fn lemma_recognizes_wire(&self, fds: Seq<i32>, rest: Packet) {
        assert(fds =~= Seq::empty());
        let input = (Packet { bytes: self.wire().bytes, fds }).followed_by(rest);
        assert(input =~= rest.after_bytes(self@.wire().bytes));
        lemma_enc_str_len(self@.intent);
        self@.lemma_written(rest);
    }

    proof fn lemma_recognizes_only_wire(input: Packet) {
        HandshakeView::lemma_read(input);
        if let Ok((v, rest)) = HandshakeView::parse(input) {
            assert(input =~= v.wire().followed_by(rest));
        }
    }
}

} // verus!
