use tere_server::dbus_shell::HOST_MACHINE;
use tere_server::ipc::handshake;
use tere_server::ipc::ownedfd::OwnedFd;
use tere_server::ipc::{ReceiveError, SendError};
use tere_server::proto::pty;
use tere_server::proto::sessions::{CreateShellSession, Machine, Request};
use tere_server::services::sessions::{
    accept, handshaken, pick_listener, received, resolve_machine, shell_spec, Abandoned,
    ConnError, Initialized, RequestError, Reserved, ServiceError, SessionId, Sessions,
    RESERVE_ATTEMPTS, SESSION_ID_BYTES, SOCKET_NAME,
};
use tere_server::socket_activation::{Environment, FdIter, SocketActivation};

type Launch = String;

fn create(machine: Machine) -> CreateShellSession {
    CreateShellSession {
        fd: OwnedFd::from_raw(40),
        machine,
        user: "testuser".to_string(),
        program: None,
        args: None,
        env: None,
    }
}

fn numbers(fds: &[OwnedFd]) -> Vec<i32> {
    fds.iter().map(|fd| fd.as_raw_fd()).collect()
}

fn reserved(sessions: &mut Sessions<u32>) -> Reserved {
    accept::<u32, Launch>(create(Machine::Host), sessions).expect("a request for the host")
}

fn initialized(sessions: &mut Sessions<u32>) -> (SessionId, Initialized) {
    let reserved = reserved(sessions);
    let id = reserved.session_id();
    let launched = reserved
        .launched::<u32, Launch>(Ok(OwnedFd::from_raw(50)), sessions)
        .expect("launched");
    let (init, initializing) = launched
        .serviced::<u32, Launch>(Ok(()), sessions)
        .expect("serviced");
    let then = initializing
        .init_sent::<u32, Launch>(Ok(()), init, 7, sessions)
        .expect("init sent");
    (id, then)
}

fn send_failed() -> SendError {
    SendError::Socket(std::io::Error::from_raw_os_error(libc::EPIPE))
}

#[test]
fn session_ids_are_24_bytes() {
    assert_eq!(SESSION_ID_BYTES, 24);
    let id: SessionId = [0u8; SESSION_ID_BYTES];
    assert_eq!(id.len(), 24);
}

#[test]
fn table_reserves_an_id_once() {
    let mut sessions: Sessions<u32> = Sessions::new();
    let id = [1u8; 24];
    assert!(!sessions.contains(&id));
    assert!(sessions.reserve(id));
    assert!(sessions.contains(&id));
    assert!(!sessions.is_ready(&id));
    assert!(!sessions.reserve(id));
    assert!(sessions.reserve([2u8; 24]));
    assert!(sessions.contains(&id));
    assert!(sessions.contains(&[2u8; 24]));
    assert!(!sessions.contains(&[3u8; 24]));
}

#[test]
fn table_tells_ids_apart_by_every_byte() {
    let mut sessions: Sessions<u32> = Sessions::new();
    let mut id = [0u8; 24];
    assert!(sessions.reserve(id));
    id[23] = 1;
    assert!(!sessions.contains(&id));
    assert!(sessions.reserve(id));
}

#[test]
fn session_gets_its_terminal_once() {
    let mut sessions: Sessions<u32> = Sessions::new();
    let id = [1u8; 24];
    assert!(sessions.reserve(id));
    assert_eq!(sessions.make_ready(&id, 50, 7), Ok(()));
    assert!(sessions.is_ready(&id));
    // A second time the connection comes back and nothing changes.
    assert_eq!(sessions.make_ready(&id, 51, 8), Err(8));
    assert!(sessions.is_ready(&id));
    match sessions.release(&id) {
        Some(tere_server::services::sessions::Session::Ready {
            pty_master,
            pty_service_conn,
        }) => {
            assert_eq!(pty_master, 50);
            assert_eq!(pty_service_conn, 7);
        }
        other => panic!("wrong session: {:?}", other),
    }
}

#[test]
fn session_that_is_not_there_gets_no_terminal() {
    let mut sessions: Sessions<u32> = Sessions::new();
    assert_eq!(sessions.make_ready(&[1u8; 24], 50, 7), Err(7));
    assert!(!sessions.contains(&[1u8; 24]));
}

#[test]
fn release_gives_the_id_up() {
    let mut sessions: Sessions<u32> = Sessions::new();
    assert!(sessions.reserve([1u8; 24]));
    assert!(sessions.reserve([2u8; 24]));
    assert!(sessions.reserve([3u8; 24]));
    assert!(matches!(
        sessions.release(&[2u8; 24]),
        Some(tere_server::services::sessions::Session::Creating)
    ));
    assert!(sessions.contains(&[1u8; 24]));
    assert!(!sessions.contains(&[2u8; 24]));
    assert!(sessions.contains(&[3u8; 24]));
    assert!(sessions.release(&[2u8; 24]).is_none());
    assert!(sessions.reserve([2u8; 24]));
}

#[test]
fn fresh_ids_differ() {
    let mut sessions: Sessions<u32> = Sessions::new();
    let mut ids: Vec<SessionId> = Vec::new();
    for _ in 0..32 {
        let id = sessions.reserve_fresh().expect("a fresh id");
        assert!(sessions.contains(&id));
        assert!(!ids.contains(&id));
        ids.push(id);
    }
    // Drawn at random: not all zero, and not all the same byte.
    assert!(ids.iter().any(|id| id.iter().any(|b| *b != id[0])));
    assert!(RESERVE_ATTEMPTS >= 1);
}

#[test]
fn host_goes_by_its_own_name() {
    assert_eq!(HOST_MACHINE, ".host");
    assert_eq!(resolve_machine(&Machine::Host), Some(".host"));
}

#[test]
fn container_goes_by_its_name() {
    assert_eq!(
        resolve_machine(&Machine::Container("web".to_string())),
        Some("web")
    );
    assert_eq!(
        resolve_machine(&Machine::Container("a.b".to_string())),
        Some("a.b")
    );
    assert_eq!(
        resolve_machine(&Machine::Container(String::new())),
        Some("")
    );
    assert_eq!(
        resolve_machine(&Machine::Container("\u{e4}.".to_string())),
        Some("\u{e4}.")
    );
}

#[test]
fn container_name_cannot_begin_with_a_dot() {
    assert_eq!(
        resolve_machine(&Machine::Container(".host".to_string())),
        None
    );
    assert_eq!(resolve_machine(&Machine::Container(".".to_string())), None);
    assert_eq!(
        resolve_machine(&Machine::Container(".web".to_string())),
        None
    );
}

#[test]
fn shell_spec_takes_what_the_request_gives() {
    let request = CreateShellSession {
        fd: OwnedFd::from_raw(40),
        machine: Machine::Container("web".to_string()),
        user: "testuser".to_string(),
        program: Some("/bin/sh".to_string()),
        args: Some(vec!["sh".to_string(), "-l".to_string()]),
        env: Some(vec!["TERM=xterm".to_string()]),
    };
    let spec = shell_spec(&request).expect("a machine that resolves");
    assert_eq!(spec.machine, "web");
    assert_eq!(spec.user, "testuser");
    assert_eq!(spec.program, "/bin/sh");
    assert_eq!(spec.args, &["sh".to_string(), "-l".to_string()][..]);
    assert_eq!(spec.environment, &["TERM=xterm".to_string()][..]);
}

#[test]
fn shell_spec_leaves_empty_what_the_request_leaves_out() {
    let request = create(Machine::Host);
    let spec = shell_spec(&request).expect("the host");
    assert_eq!(spec.machine, ".host");
    assert_eq!(spec.user, "testuser");
    assert_eq!(spec.program, "");
    assert!(spec.args.is_empty());
    assert!(spec.environment.is_empty());
}

#[test]
fn shell_spec_refuses_a_dotted_container() {
    assert!(shell_spec(&create(Machine::Container(".host".to_string()))).is_none());
}

#[test]
fn connection_ends_on_a_failed_handshake() {
    assert!(handshaken(Ok(())).is_ok());
    assert!(matches!(
        handshaken(Err(handshake::Error::WrongVersion)),
        Err(ConnError::Handshake(handshake::Error::WrongVersion))
    ));
}

#[test]
fn connection_ends_on_a_failed_receive() {
    let request = received(Ok(Request::CreateShellSession(create(Machine::Host))))
        .expect("a request");
    assert_eq!(request.user, "testuser");
    assert_eq!(request.fd.as_raw_fd(), 40);
    assert!(matches!(
        received(Err(ReceiveError::End)),
        Err(ConnError::Receive(ReceiveError::End))
    ));
}

#[test]
fn accepted_request_has_a_session() {
    let mut sessions: Sessions<u32> = Sessions::new();
    let reserved = reserved(&mut sessions);
    let id = reserved.session_id();
    assert!(sessions.contains(&id));
    assert!(!sessions.is_ready(&id));
    let spec = reserved.shell_spec();
    assert_eq!(spec.machine, ".host");
    assert_eq!(spec.user, "testuser");
}

#[test]
fn dotted_container_is_abandoned_at_once() {
    let mut sessions: Sessions<u32> = Sessions::new();
    assert!(sessions.reserve([9u8; 24]));
    let abandoned: Abandoned<Launch> =
        accept(create(Machine::Container(".host".to_string())), &mut sessions)
            .expect_err("must be refused");
    assert!(matches!(abandoned.error, RequestError::Machine));
    assert_eq!(numbers(&abandoned.close), vec![40]);
    assert!(sessions.contains(&[9u8; 24]));
}

#[test]
fn launcher_failure_gives_the_session_up() {
    let mut sessions: Sessions<u32> = Sessions::new();
    let reserved = reserved(&mut sessions);
    let id = reserved.session_id();
    let abandoned = reserved
        .launched::<u32, Launch>(Err("no such machine".to_string()), &mut sessions)
        .expect_err("must be abandoned");
    match abandoned.error {
        RequestError::Launcher(e) => assert_eq!(e, "no such machine"),
        other => panic!("wrong error: {:?}", other),
    }
    assert_eq!(numbers(&abandoned.close), vec![40]);
    assert!(!sessions.contains(&id));
}

#[test]
fn pty_service_failure_closes_client_and_terminal() {
    let mut sessions: Sessions<u32> = Sessions::new();
    let reserved = reserved(&mut sessions);
    let id = reserved.session_id();
    let launched = reserved
        .launched::<u32, Launch>(Ok(OwnedFd::from_raw(50)), &mut sessions)
        .expect("launched");
    assert!(sessions.contains(&id));
    let outcome = Err(ServiceError::Handshake(handshake::Error::WrongVersion));
    let abandoned = launched
        .serviced::<u32, Launch>(outcome, &mut sessions)
        .expect_err("must be abandoned");
    assert!(matches!(
        abandoned.error,
        RequestError::PtyService(ServiceError::Handshake(handshake::Error::WrongVersion))
    ));
    assert_eq!(numbers(&abandoned.close), vec![40, 50]);
    assert!(!sessions.contains(&id));
}

#[test]
fn pty_service_that_cannot_be_reached() {
    let mut sessions: Sessions<u32> = Sessions::new();
    let launched = reserved(&mut sessions)
        .launched::<u32, Launch>(Ok(OwnedFd::from_raw(50)), &mut sessions)
        .expect("launched");
    let outcome = Err(ServiceError::Connect(std::io::Error::from_raw_os_error(
        libc::ECONNREFUSED,
    )));
    let abandoned = launched
        .serviced::<u32, Launch>(outcome, &mut sessions)
        .expect_err("must be abandoned");
    match abandoned.error {
        RequestError::PtyService(ServiceError::Connect(e)) => {
            assert_eq!(e.raw_os_error(), Some(libc::ECONNREFUSED))
        }
        other => panic!("wrong error: {:?}", other),
    }
}

#[test]
fn terminal_goes_into_the_first_message() {
    let mut sessions: Sessions<u32> = Sessions::new();
    let launched = reserved(&mut sessions)
        .launched::<u32, Launch>(Ok(OwnedFd::from_raw(50)), &mut sessions)
        .expect("launched");
    let (init, _) = launched
        .serviced::<u32, Launch>(Ok(()), &mut sessions)
        .expect("serviced");
    assert_eq!(init._dummy, 0);
    assert_eq!(init.pty_master.as_raw_fd(), 50);
}

#[test]
fn session_is_ready_once_the_terminal_is_sent() {
    let mut sessions: Sessions<u32> = Sessions::new();
    let (id, then) = initialized(&mut sessions);
    assert!(sessions.is_ready(&id));
    // The terminal is the pty service's; ours is to be closed.
    assert_eq!(then.close.as_raw_fd(), 50);
    // The client goes out next.
    match &then.message {
        pty::Request::NewClient { _dummy, fd } => {
            assert_eq!(*_dummy, 0);
            assert_eq!(fd.as_raw_fd(), 40);
        }
    }
    match sessions.release(&id) {
        Some(tere_server::services::sessions::Session::Ready {
            pty_master,
            pty_service_conn,
        }) => {
            assert_eq!(pty_master, 50);
            assert_eq!(pty_service_conn, 7);
        }
        other => panic!("wrong session: {:?}", other),
    }
}

#[test]
fn failed_send_of_the_terminal_gives_the_session_up() {
    let mut sessions: Sessions<u32> = Sessions::new();
    let reserved = reserved(&mut sessions);
    let id = reserved.session_id();
    let launched = reserved
        .launched::<u32, Launch>(Ok(OwnedFd::from_raw(50)), &mut sessions)
        .expect("launched");
    let (init, initializing) = launched
        .serviced::<u32, Launch>(Ok(()), &mut sessions)
        .expect("serviced");
    let abandoned = initializing
        .init_sent::<u32, Launch>(Err(send_failed()), init, 7, &mut sessions)
        .expect_err("must be abandoned");
    assert!(matches!(
        abandoned.error,
        RequestError::InitSend(SendError::Socket(_))
    ));
    assert_eq!(numbers(&abandoned.close), vec![40, 50]);
    assert!(!sessions.contains(&id));
}

#[test]
fn session_that_was_taken_away_gets_no_terminal() {
    let mut sessions: Sessions<u32> = Sessions::new();
    let reserved = reserved(&mut sessions);
    let id = reserved.session_id();
    let launched = reserved
        .launched::<u32, Launch>(Ok(OwnedFd::from_raw(50)), &mut sessions)
        .expect("launched");
    let (init, initializing) = launched
        .serviced::<u32, Launch>(Ok(()), &mut sessions)
        .expect("serviced");
    // Somebody else made the session ready in the meantime.
    assert_eq!(sessions.make_ready(&id, 99, 1), Ok(()));
    let abandoned = initializing
        .init_sent::<u32, Launch>(Ok(()), init, 7, &mut sessions)
        .expect_err("must be abandoned");
    assert!(matches!(abandoned.error, RequestError::SessionTaken));
    assert_eq!(numbers(&abandoned.close), vec![40, 50]);
    assert!(!sessions.contains(&id));
}

#[test]
fn request_is_done_once_the_client_is_sent() {
    let mut sessions: Sessions<u32> = Sessions::new();
    let (id, then) = initialized(&mut sessions);
    let done = then
        .next
        .client_sent::<Launch>(Ok(()), then.message)
        .expect("client sent");
    assert_eq!(done.id, id);
    assert_eq!(done.close.as_raw_fd(), 40);
    assert!(sessions.is_ready(&id));
}

#[test]
fn failed_send_of_the_client_leaves_the_session_ready() {
    let mut sessions: Sessions<u32> = Sessions::new();
    let (id, then) = initialized(&mut sessions);
    let abandoned = then
        .next
        .client_sent::<Launch>(Err(send_failed()), then.message)
        .expect_err("must be abandoned");
    assert!(matches!(
        abandoned.error,
        RequestError::ClientSend(SendError::Socket(_))
    ));
    assert_eq!(numbers(&abandoned.close), vec![40]);
    assert!(sessions.is_ready(&id));
}

#[test]
fn two_requests_get_two_sessions() {
    let mut sessions: Sessions<u32> = Sessions::new();
    let (first, _) = initialized(&mut sessions);
    let (second, _) = initialized(&mut sessions);
    assert_ne!(first, second);
    assert!(sessions.is_ready(&first));
    assert!(sessions.is_ready(&second));
}

fn roster(count: &str, names: &str) -> FdIter {
    let environment = Environment {
        listen_pid: None,
        listen_fds: Some(count.as_bytes().to_vec()),
        listen_fdnames: Some(names.as_bytes().to_vec()),
    };
    SocketActivation::new().parse(environment, 1).expect("parse")
}

#[test]
fn listener_goes_by_its_name() {
    assert_eq!(SOCKET_NAME, "tere-sessions");
    let mut roster = roster("3", "other:tere-sessions:s_saved");
    let picked = pick_listener(&mut roster);
    assert_eq!(picked.listener.map(|fd| fd.as_raw_fd()), Some(4));
    assert_eq!(numbers(&picked.close), vec![3, 5]);
    assert_eq!(roster.len(), 0);
    assert!(roster.next().is_none());
}

#[test]
fn listener_alone() {
    let mut roster = roster("1", "tere-sessions");
    let picked = pick_listener(&mut roster);
    assert_eq!(picked.listener.map(|fd| fd.as_raw_fd()), Some(3));
    assert!(picked.close.is_empty());
}

#[test]
fn last_of_several_listeners_is_picked() {
    let mut roster = roster("4", "tere-sessions:x:tere-sessions:y");
    let picked = pick_listener(&mut roster);
    assert_eq!(picked.listener.map(|fd| fd.as_raw_fd()), Some(5));
    assert_eq!(numbers(&picked.close), vec![3, 4, 6]);
}

#[test]
fn no_listener_in_the_roster() {
    let mut roster = roster("3", "tere:tere-sessions2:");
    let picked = pick_listener(&mut roster);
    assert!(picked.listener.is_none());
    assert_eq!(numbers(&picked.close), vec![3, 4, 5]);

    let mut empty = roster_of_nothing();
    let picked = pick_listener(&mut empty);
    assert!(picked.listener.is_none());
    assert!(picked.close.is_empty());
}

fn roster_of_nothing() -> FdIter {
    roster("0", "tere-sessions")
}

#[test]
fn listener_is_picked_from_what_is_left() {
    let mut roster = roster("3", "tere-sessions:a:tere-sessions");
    let first = roster.next().expect("first");
    assert_eq!(first.take_fd().as_raw_fd(), 3);
    let picked = pick_listener(&mut roster);
    assert_eq!(picked.listener.map(|fd| fd.as_raw_fd()), Some(5));
    assert_eq!(numbers(&picked.close), vec![4]);
}
