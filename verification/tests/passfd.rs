use std::collections::VecDeque;

use tere_server::ipc::codec::{is_utf8, same_bytes, Sink, Source};
use tere_server::ipc::ownedfd::OwnedFd;
use tere_server::ipc::passfd::{
    deserialize, gather_fds_to_vec, scatter_fds_from_vec_deque, serialize,
};
use tere_server::ipc::wire::DecodeError;
use tere_server::proto::pty;
use tere_server::proto::pty::user::Input;

fn queue(fds: &[i32]) -> VecDeque<OwnedFd> {
    fds.iter().map(|fd| OwnedFd::from_raw(*fd)).collect()
}

fn numbers(fds: &VecDeque<OwnedFd>) -> Vec<i32> {
    fds.iter().map(|fd| fd.as_raw_fd()).collect()
}

#[test]
fn owned_fd_keeps_its_number() {
    let owned = OwnedFd::from_raw(17);
    assert_eq!(owned.as_raw_fd(), 17);
    assert_eq!(owned.as_raw_fd(), 17);
    assert_eq!(owned.into_raw_fd(), 17);
}

#[test]
fn owned_fd_roundtrip_through_raw() {
    let one = OwnedFd::from_raw(5);
    let two = OwnedFd::from_raw(one.into_raw_fd());
    assert_eq!(two.into_raw_fd(), 5);
}

#[test]
fn descriptor_field_writes_no_byte() {
    let mut sink = Sink::new();
    sink.put_u8(1);
    serialize(&OwnedFd::from_raw(9), &mut sink);
    sink.put_u8(2);
    serialize(&OwnedFd::from_raw(8), &mut sink);
    let (payload, fds) = sink.into_parts();
    assert_eq!(payload, vec![1, 2]);
    assert_eq!(fds, vec![9, 8]);
}

#[test]
fn descriptor_field_takes_the_head_of_the_queue() {
    let payload = [1u8];
    let fds = [30, 31];
    let mut source = Source::new(&payload, &fds);
    assert_eq!(source.fds_left(), 2);
    assert_eq!(deserialize(&mut source).expect("first").as_raw_fd(), 30);
    assert_eq!(source.fds_left(), 1);
    assert_eq!(source.bytes_left(), 1);
    assert_eq!(deserialize(&mut source).expect("second").as_raw_fd(), 31);
    assert_eq!(
        deserialize(&mut source).expect_err("none left"),
        DecodeError::TooFewFds
    );
}

#[test]
fn gather_appends_to_what_is_there() {
    let mut out = vec![1, 2];
    let message = pty::Init {
        _dummy: 3,
        pty_master: OwnedFd::from_raw(44),
    };
    let payload = gather_fds_to_vec(&mut out, &message);
    assert_eq!(payload, vec![3]);
    assert_eq!(out, vec![1, 2, 44]);
    let payload = gather_fds_to_vec(&mut out, &Input::KeyboardInput(vec![7]));
    assert_eq!(payload.len(), 13);
    assert_eq!(out, vec![1, 2, 44]);
}

#[test]
fn scatter_takes_what_the_message_has_fields_for() {
    let mut fds = queue(&[30, 31, 32]);
    let message: pty::Init = scatter_fds_from_vec_deque(&mut fds, &[0]).expect("decode");
    assert_eq!(message.pty_master.as_raw_fd(), 30);
    assert_eq!(numbers(&fds), vec![31, 32]);
}

#[test]
fn scatter_leaves_the_queue_alone_when_it_fails() {
    let mut fds = queue(&[30, 31]);
    let error = scatter_fds_from_vec_deque::<pty::Request>(&mut fds, &[0, 0, 0, 0]).unwrap_err();
    assert_eq!(error, DecodeError::UnexpectedEof);
    assert_eq!(numbers(&fds), vec![30, 31]);

    let error = scatter_fds_from_vec_deque::<pty::Init>(&mut fds, &[0, 0]).unwrap_err();
    assert_eq!(error, DecodeError::TrailingBytes);
    assert_eq!(numbers(&fds), vec![30, 31]);

    let mut none = queue(&[]);
    let error = scatter_fds_from_vec_deque::<pty::Init>(&mut none, &[0]).unwrap_err();
    assert_eq!(error, DecodeError::TooFewFds);
    assert!(none.is_empty());
}

#[test]
fn sink_and_source_agree_on_every_kind_of_value() {
    let mut sink = Sink::new();
    sink.put_u8(0xab);
    sink.put_u32(0x0102_0304);
    sink.put_u64(0x0102_0304_0506_0708);
    sink.put_flag(true);
    sink.put_flag(false);
    sink.put_raw(&[9, 8, 7]);
    sink.put_bytes(&[1, 2]);
    sink.put_str("h\u{e9}");
    sink.put_opt_str(&None);
    sink.put_opt_str(&Some("x".to_string()));
    sink.put_strs(&vec!["a".to_string(), String::new()]);
    sink.put_opt_strs(&None);
    sink.put_opt_strs(&Some(vec!["b".to_string()]));
    sink.put_fd(3);
    let (payload, fds) = sink.into_parts();
    assert_eq!(
        &payload[..16],
        &[0xab, 4, 3, 2, 1, 8, 7, 6, 5, 4, 3, 2, 1, 1, 0, 9]
    );

    let mut source = Source::new(&payload, &fds);
    assert_eq!(source.take_u8(), Ok(0xab));
    assert_eq!(source.take_u32(), Ok(0x0102_0304));
    assert_eq!(source.take_u64(), Ok(0x0102_0304_0506_0708));
    assert_eq!(source.take_flag(), Ok(true));
    assert_eq!(source.take_flag(), Ok(false));
    assert_eq!(source.take_raw(3), Ok(vec![9, 8, 7]));
    assert_eq!(source.take_bytes(), Ok(vec![1, 2]));
    assert_eq!(source.take_str(), Ok("h\u{e9}".to_string()));
    assert_eq!(source.take_opt_str(), Ok(None));
    assert_eq!(source.take_opt_str(), Ok(Some("x".to_string())));
    assert_eq!(
        source.take_strs(),
        Ok(vec!["a".to_string(), String::new()])
    );
    assert_eq!(source.take_opt_strs(), Ok(None));
    assert_eq!(source.take_opt_strs(), Ok(Some(vec!["b".to_string()])));
    assert_eq!(source.take_fd(), Ok(3));
    assert_eq!(source.bytes_left(), 0);
    assert_eq!(source.fds_left(), 0);
    assert_eq!(source.take_u8(), Err(DecodeError::UnexpectedEof));
    assert_eq!(source.take_fd(), Err(DecodeError::TooFewFds));
}

#[test]
fn variant_must_name_a_variant() {
    let payload = [2u8, 0, 0, 0, 3, 0, 0, 0];
    let mut source = Source::new(&payload, &[]);
    assert_eq!(source.take_variant(3), Ok(2));
    assert_eq!(source.take_variant(3), Err(DecodeError::InvalidTag));
}

#[test]
fn flag_is_zero_or_one() {
    let payload = [2u8];
    let mut source = Source::new(&payload, &[]);
    assert_eq!(source.take_flag(), Err(DecodeError::InvalidTag));
}

#[test]
fn utf8_is_told_from_what_is_not() {
    assert!(is_utf8(b""));
    assert!(is_utf8(b"plain"));
    assert!(is_utf8("h\u{e9}\u{1f600}".as_bytes()));
    assert!(!is_utf8(&[0xff]));
    assert!(!is_utf8(&[0xc3, 0x28]));
    assert!(!is_utf8(&[0xed, 0xa0, 0x80]));
    assert!(!is_utf8(&[0xc0, 0xaf]));
}

#[test]
fn bytes_are_compared_in_full() {
    assert!(same_bytes(b"", b""));
    assert!(same_bytes(b"abc", b"abc"));
    assert!(!same_bytes(b"abc", b"abd"));
    assert!(!same_bytes(b"abc", b"ab"));
    assert!(!same_bytes(b"ab", b"abc"));
    assert!(!same_bytes(b"xbc", b"abc"));
}
