use tere_server::ipc::codec::{Sink, Source};
use tere_server::ipc::ownedfd::OwnedFd;
use tere_server::ipc::passfd;
use tere_server::ipc::seqpacket::{
    after_receive, after_send, fd_payload_len, is_seq_packet, pack, require_seq_packet, unpack,
    Datagram, SocketConversionError, FD_BYTES, SOCK_SEQPACKET,
};
use tere_server::ipc::wire::{DecodeError, Packet, Parsed};
use tere_server::ipc::{Message, ReceiveError, SendError, Wire};
use tere_server::proto::pty;
use tere_server::proto::pty::user::Input;

#[derive(Debug)]
struct DummyMessage {
    greeting: String,
    one: OwnedFd,
    two: OwnedFd,
}

impl Message for DummyMessage {
    const MAX_SIZE: usize = 4000;
    const MAX_FDS: usize = 3;
}

impl Wire for DummyMessage {
    fn wire(&self) -> Packet {
        unreachable!()
    }

    fn recognize(_input: Packet) -> Parsed<Packet> {
        unreachable!()
    }

    fn encode(&self, sink: &mut Sink) {
        sink.put_str(&self.greeting);
        passfd::serialize(&self.one, sink);
        passfd::serialize(&self.two, sink);
    }

    fn decode(source: &mut Source) -> Result<Self, DecodeError> {
        let greeting = source.take_str()?;
        let one = passfd::deserialize(source)?;
        let two = passfd::deserialize(source)?;
        Ok(DummyMessage { greeting, one, two })
    }

    fn lemma_recognizes_wire(&self, _fds: vstd::seq::Seq<i32>, _rest: Packet) {
        unreachable!()
    }

    fn lemma_recognizes_only_wire(_input: Packet) {
        unreachable!()
    }
}

fn fds_are_unique(mut fds: Vec<i32>) -> bool {
    let orig_len = fds.len();
    fds.sort();
    fds.dedup();
    fds.len() == orig_len
}

fn whole(payload: Vec<u8>, fds: Vec<i32>) -> Datagram {
    Datagram {
        payload,
        truncated: false,
        fds,
        ancillary_truncated: false,
        ancillary_capacity: 32,
    }
}

fn numbers(fds: &[OwnedFd]) -> Vec<i32> {
    fds.iter().map(|fd| fd.as_raw_fd()).collect()
}

#[test]
fn roundtrip() {
    let msg = DummyMessage {
        greeting: "Hello, world\n".to_string(),
        one: OwnedFd::from_raw(10),
        two: OwnedFd::from_raw(11),
    };

    println!("send: {:?}", msg);
    let sent = pack(&msg);
    // The ancillary data carries as many descriptors as the message has
    // descriptor fields, in field order.
    assert_eq!(sent.fds, vec![10, 11]);
    assert_eq!(
        sent.payload,
        bincode::serialize(&("Hello, world\n", (), ())).expect("bincode")
    );

    // The receiving process knows the descriptors under numbers of its own.
    let arrived = whole(sent.payload, vec![20, 21]);
    let got: DummyMessage = unpack(arrived)
        .map_err(|rejected| rejected.error)
        .expect("recvmsg");
    println!("receive: {:?}", got);
    assert_eq!(msg.greeting, got.greeting);
    assert!(got.one.as_raw_fd() >= 0);
    assert!(got.two.as_raw_fd() >= 0);
    assert_eq!(got.one.as_raw_fd(), 20);
    assert_eq!(got.two.as_raw_fd(), 21);
    assert!(fds_are_unique(vec![
        msg.one.as_raw_fd(),
        msg.two.as_raw_fd(),
        got.one.as_raw_fd(),
        got.two.as_raw_fd(),
    ]));
}

#[test]
fn pack_gathers_one_descriptor_per_descriptor_field() {
    let init = pty::Init {
        _dummy: 0,
        pty_master: OwnedFd::from_raw(4),
    };
    assert_eq!(pack(&init).fds.len(), 1);
    let input = Input::KeyboardInput(vec![1, 2, 3]);
    assert_eq!(pack(&input).fds.len(), 0);
}

#[test]
fn truncated_payload_is_too_large() {
    let mut datagram = whole(vec![0], vec![30, 31]);
    datagram.truncated = true;
    let rejected = unpack::<pty::Init>(datagram).expect_err("must be refused");
    assert!(matches!(rejected.error, ReceiveError::TooLarge));
    assert_eq!(numbers(&rejected.unclaimed), vec![30, 31]);
}

#[test]
fn payload_over_the_bound_is_too_large() {
    // A message of this type has one byte of payload at most.
    let rejected = unpack::<pty::Init>(whole(vec![0, 0], vec![30])).expect_err("must be refused");
    assert!(matches!(rejected.error, ReceiveError::TooLarge));
    assert_eq!(numbers(&rejected.unclaimed), vec![30]);

    let payload = pack(&Input::KeyboardInput(vec![b'x'; 8192])).payload;
    assert_eq!(payload.len(), 8192 + 12);
    let rejected = unpack::<Input>(whole(payload, vec![])).expect_err("must be refused");
    assert!(matches!(rejected.error, ReceiveError::TooLarge));
}

#[test]
fn payload_at_the_bound_is_accepted() {
    let payload = pack(&Input::KeyboardInput(vec![b'x'; 8192 - 12])).payload;
    assert_eq!(payload.len(), 8192);
    let got = unpack::<Input>(whole(payload, vec![]))
        .map_err(|rejected| rejected.error)
        .expect("a payload of the largest size");
    match got {
        Input::KeyboardInput(bytes) => assert_eq!(bytes.len(), 8192 - 12),
    }
}

#[test]
fn truncated_ancillary_data_hands_every_descriptor_back() {
    let mut datagram = whole(vec![0], vec![30, 31, 32]);
    datagram.ancillary_truncated = true;
    datagram.ancillary_capacity = 24;
    let rejected = unpack::<pty::Init>(datagram).expect_err("must be refused");
    match rejected.error {
        ReceiveError::AncillaryTruncated { max_fds, bytes_cap } => {
            assert_eq!(max_fds, 1);
            assert_eq!(bytes_cap, 24);
        }
        other => panic!("wrong error: {:?}", other),
    }
    assert_eq!(numbers(&rejected.unclaimed), vec![30, 31, 32]);
}

#[test]
fn truncated_payload_is_judged_before_truncated_ancillary_data() {
    let mut datagram = whole(vec![0], vec![30]);
    datagram.truncated = true;
    datagram.ancillary_truncated = true;
    let rejected = unpack::<pty::Init>(datagram).expect_err("must be refused");
    assert!(matches!(rejected.error, ReceiveError::TooLarge));
}

#[test]
fn empty_payload_is_the_end() {
    let rejected = unpack::<pty::Init>(whole(vec![], vec![])).expect_err("must be refused");
    assert!(matches!(rejected.error, ReceiveError::End));
    assert!(rejected.unclaimed.is_empty());
    let rejected = unpack::<Input>(whole(vec![], vec![30])).expect_err("must be refused");
    assert!(matches!(rejected.error, ReceiveError::End));
    assert_eq!(numbers(&rejected.unclaimed), vec![30]);
}

#[test]
fn too_many_descriptors() {
    let rejected =
        unpack::<pty::Init>(whole(vec![0], vec![30, 31, 32])).expect_err("must be refused");
    match rejected.error {
        ReceiveError::TooManyFds { orig, extra } => {
            assert_eq!(orig, 3);
            assert_eq!(extra, 2);
        }
        other => panic!("wrong error: {:?}", other),
    }
    assert_eq!(numbers(&rejected.unclaimed), vec![30, 31, 32]);
}

#[test]
fn descriptors_for_a_message_without_descriptor_fields() {
    let payload = pack(&Input::KeyboardInput(vec![1])).payload;
    let rejected = unpack::<Input>(whole(payload, vec![30])).expect_err("must be refused");
    match rejected.error {
        ReceiveError::TooManyFds { orig, extra } => {
            assert_eq!(orig, 1);
            assert_eq!(extra, 1);
        }
        other => panic!("wrong error: {:?}", other),
    }
    assert_eq!(numbers(&rejected.unclaimed), vec![30]);
}

#[test]
fn too_few_descriptors() {
    let sent = pack(&DummyMessage {
        greeting: "hi".to_string(),
        one: OwnedFd::from_raw(10),
        two: OwnedFd::from_raw(11),
    });
    let rejected =
        unpack::<DummyMessage>(whole(sent.payload, vec![20])).expect_err("must be refused");
    assert!(matches!(
        rejected.error,
        ReceiveError::Deserialize(DecodeError::TooFewFds)
    ));
    // The one that did arrive is not lost.
    assert_eq!(numbers(&rejected.unclaimed), vec![20]);
}

#[test]
fn undecodable_payload_hands_every_descriptor_back() {
    let rejected =
        unpack::<pty::Request>(whole(vec![9, 9, 9, 9, 0], vec![30])).expect_err("must be refused");
    assert!(matches!(
        rejected.error,
        ReceiveError::Deserialize(DecodeError::InvalidTag)
    ));
    assert_eq!(numbers(&rejected.unclaimed), vec![30]);
}

#[test]
fn trailing_bytes_are_judged_before_left_over_descriptors() {
    let rejected = unpack::<pty::Request>(whole(vec![0, 0, 0, 0, 0, 1], vec![30, 31]))
        .expect_err("must be refused");
    assert!(matches!(
        rejected.error,
        ReceiveError::Deserialize(DecodeError::TrailingBytes)
    ));
    assert_eq!(numbers(&rejected.unclaimed), vec![30, 31]);
}

#[test]
fn accepted_message_owns_what_arrived() {
    let got = unpack::<pty::Init>(whole(vec![0], vec![30]))
        .map_err(|rejected| rejected.error)
        .expect("one byte and one descriptor");
    assert_eq!(got.pty_master.as_raw_fd(), 30);
}

#[test]
fn fd_payload_len_is_four_bytes_a_descriptor() {
    assert_eq!(fd_payload_len(0), Some(0));
    assert_eq!(fd_payload_len(1), Some(4));
    assert_eq!(fd_payload_len(3), Some(12));
    assert_eq!(fd_payload_len(1_073_741_823), Some(4_294_967_292));
    assert_eq!(fd_payload_len(1_073_741_824), None);
    assert_eq!(fd_payload_len(usize::MAX), None);
}

#[test]
fn constants_are_the_platform_s() {
    assert_eq!(SOCK_SEQPACKET, libc::SOCK_SEQPACKET);
    assert_eq!(FD_BYTES, std::mem::size_of::<libc::c_int>());
}

#[test]
fn only_seqpacket_sockets_are_admitted() {
    assert!(is_seq_packet(Some(libc::SOCK_SEQPACKET)));
    assert!(!is_seq_packet(Some(libc::SOCK_STREAM)));
    assert!(!is_seq_packet(Some(libc::SOCK_DGRAM)));
    assert!(!is_seq_packet(None));
    assert_eq!(require_seq_packet(Some(libc::SOCK_SEQPACKET)), Ok(()));
    assert_eq!(
        require_seq_packet(Some(libc::SOCK_DGRAM)),
        Err(SocketConversionError::NotSeqPacket)
    );
    assert_eq!(
        require_seq_packet(None),
        Err(SocketConversionError::NotSeqPacket)
    );
}

#[test]
fn failed_receive_is_reported_as_it_failed() {
    let failed = std::io::Error::from_raw_os_error(libc::ECONNRESET);
    let receipt = after_receive::<pty::Init>(Err(failed));
    match receipt.result {
        Err(ReceiveError::Socket(e)) => assert_eq!(e.raw_os_error(), Some(libc::ECONNRESET)),
        other => panic!("wrong result: {:?}", other),
    }
    assert!(receipt.close.is_empty());
}

#[test]
fn received_message_leaves_nothing_to_close() {
    let receipt = after_receive::<pty::Init>(Ok(whole(vec![0], vec![30])));
    let message = receipt.result.expect("one byte and one descriptor");
    assert_eq!(message.pty_master.as_raw_fd(), 30);
    assert!(receipt.close.is_empty());
}

#[test]
fn every_error_after_a_receive_closes_what_arrived() {
    let mut too_large = whole(vec![0], vec![30, 31]);
    too_large.truncated = true;
    let mut cut_off = whole(vec![0], vec![30, 31]);
    cut_off.ancillary_truncated = true;
    let cases = vec![
        too_large,
        cut_off,
        whole(vec![], vec![30, 31]),
        whole(vec![0, 0], vec![30, 31]),
        whole(vec![0], vec![30, 31]),
    ];
    for datagram in cases {
        let receipt = after_receive::<pty::Init>(Ok(datagram));
        assert!(receipt.result.is_err());
        assert_eq!(numbers(&receipt.close), vec![30, 31]);
    }
    // A message whose descriptor did not arrive.
    let receipt = after_receive::<pty::Init>(Ok(whole(vec![0], vec![])));
    assert!(matches!(
        receipt.result,
        Err(ReceiveError::Deserialize(DecodeError::TooFewFds))
    ));
    assert!(receipt.close.is_empty());
}

#[test]
fn send_ends_as_the_system_call_ended() {
    assert!(after_send(Ok(())).is_ok());
    match after_send(Err(std::io::Error::from_raw_os_error(libc::EPIPE))) {
        Err(SendError::Socket(e)) => assert_eq!(e.raw_os_error(), Some(libc::EPIPE)),
        other => panic!("wrong result: {:?}", other),
    }
}
