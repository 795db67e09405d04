use tere_server::ipc::handshake::Handshake;
use tere_server::ipc::ownedfd::OwnedFd;
use tere_server::ipc::seqpacket::{pack, unpack, Datagram};
use tere_server::ipc::wire::DecodeError;
use tere_server::ipc::{Message, ReceiveError, Wire};
use tere_server::proto::pty;
use tere_server::proto::pty::user::{Input, Output};
use tere_server::proto::sessions;
use tere_server::proto::sessions::{CreateShellSession, Machine};

fn whole(payload: Vec<u8>, fds: Vec<i32>) -> Datagram {
    Datagram {
        payload,
        truncated: false,
        fds,
        ancillary_truncated: false,
        ancillary_capacity: 64,
    }
}

fn decode<M: Message + Wire>(payload: Vec<u8>, fds: Vec<i32>) -> Result<M, ReceiveError> {
    unpack::<M>(whole(payload, fds)).map_err(|rejected| rejected.error)
}

fn decode_error<M: Message + Wire>(payload: Vec<u8>, fds: Vec<i32>) -> DecodeError {
    match decode::<M>(payload, fds) {
        Err(ReceiveError::Deserialize(e)) => e,
        Err(other) => panic!("wrong error: {:?}", other),
        Ok(message) => panic!("decoded: {:?}", message),
    }
}

fn strings(items: &[&str]) -> Vec<String> {
    items.iter().map(|s| s.to_string()).collect()
}

#[test]
fn handshake_layout() {
    let mut build_id = [0u8; 32];
    for (i, b) in build_id.iter_mut().enumerate() {
        *b = (i + 1) as u8;
    }
    let hello = Handshake {
        intent: "ab".to_string(),
        build_id,
    };
    let out = pack(&hello);
    let mut want = vec![2u8, 0, 0, 0, 0, 0, 0, 0, b'a', b'b'];
    want.extend_from_slice(&build_id);
    assert_eq!(out.payload, want);
    assert!(out.fds.is_empty());
}

#[test]
fn handshake_is_laid_out_as_bincode_lays_it_out() {
    let hello = Handshake::new("tere 2021-06-10T13:38:10 testing client");
    let want = bincode::serialize(&(hello.intent.clone(), hello.build_id)).expect("bincode");
    assert_eq!(pack(&hello).payload, want);
}

#[test]
fn handshake_roundtrip() {
    let hello = Handshake::new("tere 2021-06-10T13:38:43 testing server");
    let out = pack(&hello);
    let got: Handshake = decode(out.payload, out.fds).expect("decode");
    assert_eq!(got.intent, hello.intent);
    assert_eq!(got.build_id, hello.build_id);
}

#[test]
fn handshake_non_ascii_intent_roundtrip() {
    let hello = Handshake {
        intent: "p\u{e4}\u{e4}te \u{2713} \u{1f600}".to_string(),
        build_id: [9u8; 32],
    };
    let out = pack(&hello);
    assert_eq!(out.payload.len(), 8 + hello.intent.len() + 32);
    assert_eq!(
        out.payload,
        bincode::serialize(&(hello.intent.clone(), hello.build_id)).expect("bincode")
    );
    let got: Handshake = decode(out.payload, out.fds).expect("decode");
    assert_eq!(got.intent, hello.intent);
}

#[test]
fn handshake_short_build_id() {
    let mut payload = vec![1u8, 0, 0, 0, 0, 0, 0, 0, b'x'];
    payload.extend_from_slice(&[0u8; 31]);
    assert_eq!(
        decode_error::<Handshake>(payload, vec![]),
        DecodeError::UnexpectedEof
    );
}

#[test]
fn handshake_trailing_byte() {
    let mut payload = vec![1u8, 0, 0, 0, 0, 0, 0, 0, b'x'];
    payload.extend_from_slice(&[0u8; 33]);
    assert_eq!(
        decode_error::<Handshake>(payload, vec![]),
        DecodeError::TrailingBytes
    );
}

#[test]
fn handshake_invalid_utf8() {
    let mut payload = vec![2u8, 0, 0, 0, 0, 0, 0, 0, 0xc3, 0x28];
    payload.extend_from_slice(&[0u8; 32]);
    assert_eq!(
        decode_error::<Handshake>(payload, vec![]),
        DecodeError::InvalidUtf8
    );
}

#[test]
fn handshake_length_beyond_payload() {
    let mut payload = vec![0xffu8, 0xff, 0xff, 0xff, 0xff, 0xff, 0xff, 0xff, b'x'];
    payload.extend_from_slice(&[0u8; 32]);
    assert_eq!(
        decode_error::<Handshake>(payload, vec![]),
        DecodeError::UnexpectedEof
    );
}

#[test]
fn handshake_short_length() {
    assert_eq!(
        decode_error::<Handshake>(vec![1, 0, 0], vec![]),
        DecodeError::UnexpectedEof
    );
}

#[test]
fn output_layout() {
    let out = pack(&Output::SessionOutput(b"hi!".to_vec()));
    assert_eq!(
        out.payload,
        vec![0u8, 0, 0, 0, 3, 0, 0, 0, 0, 0, 0, 0, b'h', b'i', b'!']
    );
    assert!(out.fds.is_empty());
    assert_eq!(
        out.payload,
        bincode::serialize(&(0u32, b"hi!".to_vec())).expect("bincode")
    );
}

#[test]
fn output_roundtrip() {
    let out = pack(&Output::SessionOutput(vec![0, 255, 10, 13]));
    let got: Output = decode(out.payload, out.fds).expect("decode");
    match got {
        Output::SessionOutput(bytes) => assert_eq!(bytes, vec![0, 255, 10, 13]),
    }
}

#[test]
fn input_layout_and_roundtrip() {
    let message = Input::KeyboardInput(b"printf '%sbar%s' 'foo' 'quux'\r\n".to_vec());
    let out = pack(&message);
    assert_eq!(
        out.payload,
        bincode::serialize(&(0u32, b"printf '%sbar%s' 'foo' 'quux'\r\n".to_vec()))
            .expect("bincode")
    );
    let got: Input = decode(out.payload, out.fds).expect("decode");
    match got {
        Input::KeyboardInput(bytes) => {
            assert_eq!(bytes, b"printf '%sbar%s' 'foo' 'quux'\r\n".to_vec())
        }
    }
}

#[test]
fn input_empty_bytes() {
    let out = pack(&Input::KeyboardInput(vec![]));
    assert_eq!(out.payload, vec![0u8, 0, 0, 0, 0, 0, 0, 0, 0, 0, 0, 0]);
    let got: Input = decode(out.payload, vec![]).expect("decode");
    match got {
        Input::KeyboardInput(bytes) => assert!(bytes.is_empty()),
    }
}

#[test]
fn input_unknown_variant() {
    let payload = vec![1u8, 0, 0, 0, 0, 0, 0, 0, 0, 0, 0, 0];
    assert_eq!(
        decode_error::<Input>(payload, vec![]),
        DecodeError::InvalidTag
    );
}

#[test]
fn input_bounds_are_the_defaults() {
    assert_eq!(<Input as Message>::MAX_SIZE, 8192);
    assert_eq!(<Input as Message>::MAX_FDS, 0);
    assert_eq!(<Output as Message>::MAX_SIZE, 8192);
    assert_eq!(<Output as Message>::MAX_FDS, 0);
    assert_eq!(<Handshake as Message>::MAX_SIZE, 8192);
    assert_eq!(<Handshake as Message>::MAX_FDS, 0);
}

#[test]
fn init_layout() {
    let message = pty::Init {
        _dummy: 0,
        pty_master: OwnedFd::from_raw(11),
    };
    let out = pack(&message);
    assert_eq!(out.payload, vec![0u8]);
    assert_eq!(out.fds, vec![11]);
    assert_eq!(<pty::Init as Message>::MAX_SIZE, 1);
    assert_eq!(<pty::Init as Message>::MAX_FDS, 1);
}

#[test]
fn init_roundtrip() {
    let got: pty::Init = decode(vec![7], vec![42]).expect("decode");
    assert_eq!(got._dummy, 7);
    assert_eq!(got.pty_master.as_raw_fd(), 42);
}

#[test]
fn init_without_descriptor() {
    assert_eq!(
        decode_error::<pty::Init>(vec![0], vec![]),
        DecodeError::TooFewFds
    );
}

#[test]
fn new_client_layout_and_roundtrip() {
    let message = pty::Request::NewClient {
        _dummy: 0,
        fd: OwnedFd::from_raw(5),
    };
    let out = pack(&message);
    assert_eq!(out.payload, vec![0u8, 0, 0, 0, 0]);
    assert_eq!(out.payload, bincode::serialize(&(0u32, 0u8, ())).expect("bincode"));
    assert_eq!(out.fds, vec![5]);
    assert_eq!(<pty::Request as Message>::MAX_FDS, 1);
    let got: pty::Request = decode(out.payload, vec![9]).expect("decode");
    match got {
        pty::Request::NewClient { _dummy, fd } => {
            assert_eq!(_dummy, 0);
            assert_eq!(fd.as_raw_fd(), 9);
        }
    }
}

fn create(machine: Machine) -> sessions::Request {
    sessions::Request::CreateShellSession(CreateShellSession {
        fd: OwnedFd::from_raw(8),
        machine,
        user: "testuser".to_string(),
        program: Some("/bin/sh".to_string()),
        args: Some(strings(&["sh", "-l"])),
        env: None,
    })
}

#[test]
fn create_shell_session_on_host_is_laid_out_as_bincode_lays_it_out() {
    let out = pack(&create(Machine::Host));
    let want = bincode::serialize(&(
        0u32,
        (),
        0u32,
        "testuser",
        Some("/bin/sh"),
        Some(strings(&["sh", "-l"])),
        None::<Vec<String>>,
    ))
    .expect("bincode");
    assert_eq!(out.payload, want);
    assert_eq!(out.fds, vec![8]);
}

#[test]
fn create_shell_session_in_container_is_laid_out_as_bincode_lays_it_out() {
    let out = pack(&create(Machine::Container("web".to_string())));
    let want = bincode::serialize(&(
        0u32,
        (),
        (1u32, "web"),
        "testuser",
        Some("/bin/sh"),
        Some(strings(&["sh", "-l"])),
        None::<Vec<String>>,
    ))
    .expect("bincode");
    assert_eq!(out.payload, want);
}

#[test]
fn create_shell_session_minimal_layout() {
    let message = sessions::Request::CreateShellSession(CreateShellSession {
        fd: OwnedFd::from_raw(3),
        machine: Machine::Host,
        user: "u".to_string(),
        program: None,
        args: None,
        env: None,
    });
    let out = pack(&message);
    assert_eq!(
        out.payload,
        vec![
            0u8, 0, 0, 0, // the request's variant
            0, 0, 0, 0, // Machine::Host
            1, 0, 0, 0, 0, 0, 0, 0, b'u', // user
            0,    // no program
            0,    // no args
            0,    // no env
        ]
    );
    assert_eq!(out.fds, vec![3]);
}

#[test]
fn create_shell_session_roundtrip() {
    let message = sessions::Request::CreateShellSession(CreateShellSession {
        fd: OwnedFd::from_raw(8),
        machine: Machine::Container("db-1".to_string()),
        user: "testuser".to_string(),
        program: Some("/bin/bash".to_string()),
        args: Some(strings(&["bash", "--login", ""])),
        env: Some(strings(&["TERM=xterm", "LANG=C"])),
    });
    let out = pack(&message);
    let got: sessions::Request = decode(out.payload, vec![77]).expect("decode");
    let sessions::Request::CreateShellSession(got) = got;
    assert_eq!(got.fd.as_raw_fd(), 77);
    match got.machine {
        Machine::Container(name) => assert_eq!(name, "db-1"),
        Machine::Host => panic!("wrong machine"),
    }
    assert_eq!(got.user, "testuser");
    assert_eq!(got.program, Some("/bin/bash".to_string()));
    assert_eq!(got.args, Some(strings(&["bash", "--login", ""])));
    assert_eq!(got.env, Some(strings(&["TERM=xterm", "LANG=C"])));
}

#[test]
fn create_shell_session_empty_lists_roundtrip() {
    let message = sessions::Request::CreateShellSession(CreateShellSession {
        fd: OwnedFd::from_raw(8),
        machine: Machine::Host,
        user: String::new(),
        program: Some(String::new()),
        args: Some(vec![]),
        env: Some(vec![]),
    });
    let out = pack(&message);
    let got: sessions::Request = decode(out.payload, out.fds).expect("decode");
    let sessions::Request::CreateShellSession(got) = got;
    assert!(matches!(got.machine, Machine::Host));
    assert_eq!(got.user, "");
    assert_eq!(got.program, Some(String::new()));
    assert_eq!(got.args, Some(vec![]));
    assert_eq!(got.env, Some(vec![]));
}

#[test]
fn create_shell_session_unknown_machine() {
    let payload = vec![0u8, 0, 0, 0, 2, 0, 0, 0];
    assert_eq!(
        decode_error::<sessions::Request>(payload, vec![1]),
        DecodeError::InvalidTag
    );
}

#[test]
fn create_shell_session_bad_option_tag() {
    let payload = vec![
        0u8, 0, 0, 0, // the request's variant
        0, 0, 0, 0, // Machine::Host
        0, 0, 0, 0, 0, 0, 0, 0, // user ""
        2, // neither None nor Some
        0, 0,
    ];
    assert_eq!(
        decode_error::<sessions::Request>(payload, vec![1]),
        DecodeError::InvalidTag
    );
}

#[test]
fn create_shell_session_list_count_beyond_payload() {
    let payload = vec![
        0u8, 0, 0, 0, // the request's variant
        0, 0, 0, 0, // Machine::Host
        0, 0, 0, 0, 0, 0, 0, 0, // user ""
        0, // no program
        1, 0xff, 0xff, 0xff, 0xff, 0xff, 0xff, 0xff, 0xff, // args: a huge count
    ];
    assert_eq!(
        decode_error::<sessions::Request>(payload, vec![1]),
        DecodeError::UnexpectedEof
    );
}

#[test]
fn create_shell_session_without_descriptor() {
    let out = pack(&create(Machine::Host));
    assert_eq!(
        decode_error::<sessions::Request>(out.payload, vec![]),
        DecodeError::TooFewFds
    );
}
