//! The sessions service: the broker.
//!
//! A controller asks for a shell session and hands over one end of a socket
//! pair. The broker has a shell launched on a fresh pseudo-terminal, gives
//! the terminal to a pty service, and then gives that service the
//! controller's socket as its client.

use vstd::prelude::*;
use vstd::string::*;
use vstd::utf8::*;

use crate::dbus_shell::{ShellSpec, ShellSpecView, HOST_MACHINE};
use crate::ipc::codec::{same_bytes, texts};
use crate::ipc::handshake;
use crate::ipc::ownedfd::{numbers, OwnedFd};
use crate::ipc::{ReceiveError, SendError};
use crate::proto::pty;
use crate::proto::sessions::{
    CreateShellSession, CreateShellSessionView, Machine, MachineView, Request,
};
use crate::socket_activation::{EntryView, FdIter};

verus! {

/// Length of a session id, in bytes.
pub const SESSION_ID_BYTES: usize = 24;

/// Names a session. Ids are drawn at random.
pub type SessionId = [u8; SESSION_ID_BYTES];

/// How many ids are drawn for one session before the broker gives up.
pub const RESERVE_ATTEMPTS: usize = 16;

/// `rand::random` for a session id: 24 bytes from the thread's random
/// number generator. Nothing is promised of them.
#[verifier::external_body]
fn random_session_id() -> SessionId {
    rand::random()
}

/// What the broker knows of a session.
#[derive(Debug)]
pub enum Session<C> {
    /// The id is taken; the terminal is not there yet.
    Creating,
    /// The terminal has gone to a pty service.
    Ready {
        /// The number that the terminal's descriptor had here. The
        /// descriptor itself is the pty service's.
        pty_master: i32,
        /// The connection to the pty service.
        pty_service_conn: C,
    },
}

#[derive(Debug)]
struct Entry<C> {
    id: SessionId,
    session: Session<C>,
}

spec fn as_map<C>(entries: Seq<Entry<C>>) -> Map<Seq<u8>, Session<C>>
    decreases entries.len(),
{
    if entries.len() == 0 {
        Map::empty()
    } else {
        as_map(entries.drop_last()).insert(entries.last().id@, entries.last().session)
    }
}

spec fn distinct<C>(entries: Seq<Entry<C>>) -> bool {
    forall|i: int, j: int| 0 <= i < j < entries.len() ==> entries[i].id@ != entries[j].id@
}

proof fn lemma_as_map_keys<C>(entries: Seq<Entry<C>>, key: Seq<u8>)
    ensures
        as_map(entries).contains_key(key) <==> exists|i: int|
            0 <= i < entries.len() && #[trigger] entries[i].id@ == key,
    decreases entries.len(),
{
    if entries.len() > 0 {
        let front = entries.drop_last();
        lemma_as_map_keys(front, key);
        if as_map(entries).contains_key(key) {
            if entries.last().id@ == key {
                assert(entries[entries.len() - 1].id@ == key);
            } else {
                let i = choose|i: int| 0 <= i < front.len() && #[trigger] front[i].id@ == key;
                assert(entries[i].id@ == key);
            }
        }
        if exists|i: int| 0 <= i < entries.len() && #[trigger] entries[i].id@ == key {
            let i = choose|i: int| 0 <= i < entries.len() && #[trigger] entries[i].id@ == key;
            if i < entries.len() - 1 {
                assert(front[i].id@ == key);
            }
        }
    }
}

/// Entries that hold no id twice hold none twice in front of the last.
proof fn lemma_distinct_front<C>(entries: Seq<Entry<C>>)
    requires
        distinct(entries),
        entries.len() > 0,
    ensures
        distinct(entries.drop_last()),
{
    let front = entries.drop_last();
    assert forall|a: int, b: int| 0 <= a < b < front.len() implies front[a].id@
        != front[b].id@ by {
        assert(front[a] == entries[a] && front[b] == entries[b]);
    }
}

/// One more entry, under an id that is not taken, keeps the ids apart and
/// puts its session under its id.
proof fn lemma_distinct_push<C>(entries: Seq<Entry<C>>, entry: Entry<C>)
    requires
        distinct(entries),
        !as_map(entries).contains_key(entry.id@),
    ensures
        distinct(entries.push(entry)),
        as_map(entries.push(entry)) == as_map(entries).insert(entry.id@, entry.session),
{
    let longer = entries.push(entry);
    lemma_as_map_keys(entries, entry.id@);
    assert(longer.drop_last() =~= entries);
    assert forall|a: int, b: int| 0 <= a < b < longer.len() implies longer[a].id@
        != longer[b].id@ by {
        assert(longer[a] == entries[a]);
        if b < entries.len() {
            assert(longer[b] == entries[b]);
        }
    }
}

proof fn lemma_as_map_value<C>(entries: Seq<Entry<C>>, i: int)
    requires
        distinct(entries),
        0 <= i < entries.len(),
    ensures
        as_map(entries).contains_key(entries[i].id@),
        as_map(entries)[entries[i].id@] == entries[i].session,
    decreases entries.len(),
{
    let front = entries.drop_last();
    if i < entries.len() - 1 {
        lemma_distinct_front(entries);
        assert(front[i] == entries[i]);
        lemma_as_map_value(front, i);
    }
}

proof fn lemma_as_map_remove<C>(entries: Seq<Entry<C>>, i: int)
    requires
        distinct(entries),
        0 <= i < entries.len(),
    ensures
        distinct(entries.remove(i)),
        as_map(entries.remove(i)) == as_map(entries).remove(entries[i].id@),
    decreases entries.len(),
{
    let removed = entries.remove(i);
    let front = entries.drop_last();
    assert(distinct(removed)) by {
        assert forall|a: int, b: int| 0 <= a < b < removed.len() implies removed[a].id@
            != removed[b].id@ by {
            let a2 = if a < i { a } else { a + 1 };
            let b2 = if b < i { b } else { b + 1 };
            assert(removed[a] == entries[a2] && removed[b] == entries[b2]);
        }
    }
    if i == entries.len() - 1 {
        assert(removed =~= front);
        lemma_as_map_keys(front, entries[i].id@);
        assert(as_map(removed) =~= as_map(entries).remove(entries[i].id@));
    } else {
        lemma_distinct_front(entries);
        assert(front[i] == entries[i]);
        lemma_as_map_remove(front, i);
        assert(removed.drop_last() =~= front.remove(i));
        assert(removed.last() == entries.last());
        assert(as_map(removed) =~= as_map(entries).remove(entries[i].id@));
    }
}

/// The sessions of one broker, by id.
#[derive(Debug)]
pub struct Sessions<C> {
    entries: Vec<Entry<C>>,
}

impl<C> View for Sessions<C> {
    type V = Map<Seq<u8>, Session<C>>;

    closed spec fn view(&self) -> Map<Seq<u8>, Session<C>> {
        as_map(self.entries@)
    }
}

impl<C> Sessions<C> {
    #[verifier::type_invariant]
    spec fn no_id_twice(self) -> bool {
        distinct(self.entries@)
    }

    /// Whether no session id is taken.
    pub open spec fn vacant(self) -> bool {
        forall|id: SessionId| !self@.contains_key(#[trigger] id@)
    }

    pub fn new() -> (sessions: Sessions<C>)
        ensures
            sessions@ == Map::<Seq<u8>, Session<C>>::empty(),
    {
        Sessions { entries: Vec::new() }
    }

    /// Takes the entries out, to be put back changed.
    fn take_entries(&mut self) -> (entries: Vec<Entry<C>>)
        ensures
            entries@ == old(self).entries@,
    {
        let mut taken = Sessions { entries: Vec::new() };
        core::mem::swap(self, &mut taken);
        taken.entries
    }

    fn position(&self, id: &SessionId) -> (at: Option<usize>)
        ensures
            match at {
                Some(i) => i < self.entries@.len() && self.entries@[i as int].id@ == id@,
                None => !self@.contains_key(id@),
            },
    {
        let mut i: usize = 0;
        while i < self.entries.len()
            invariant
                i <= self.entries@.len(),
                forall|j: int| 0 <= j < i ==> (#[trigger] self.entries@[j]).id@ != id@,
            decreases self.entries@.len() - i,
        {
            if same_bytes(self.entries[i].id.as_slice(), id.as_slice()) {
                return Some(i);
            }
            i = i + 1;
        }
        proof {
            lemma_as_map_keys(self.entries@, id@);
        }
        None
    }

    /// Whether the id is taken.
    pub fn contains(&self, id: &SessionId) -> (yes: bool)
        ensures
            yes == self@.contains_key(id@),
    {
        proof {
            use_type_invariant(self);
        }
        match self.position(id) {
            Some(i) => {
                proof {
                    lemma_as_map_value(self.entries@, i as int);
                }
                true
            },
            None => false,
        }
    }

    /// Whether the session `id` is there and has its terminal.
    pub fn is_ready(&self, id: &SessionId) -> (yes: bool)
        ensures
            yes == (self@.contains_key(id@) && self@[id@] is Ready),
    {
        proof {
            use_type_invariant(self);
        }
        match self.position(id) {
            Some(i) => {
                proof {
                    lemma_as_map_value(self.entries@, i as int);
                }
                match &self.entries[i].session {
                    Session::Creating => false,
                    Session::Ready { .. } => true,
                }
            },
            None => false,
        }
    }

    /// Takes a fresh id for a new session. Ids are drawn at random, up to
    /// [`RESERVE_ATTEMPTS`] of them, until one is found that is not taken.
    /// Where no id is taken at all, the first one drawn is free, so that an
    /// id is found whatever is drawn.
    pub fn reserve_fresh(&mut self) -> (r: Option<SessionId>)
        ensures
            match r {
                Some(id) => !old(self)@.contains_key(id@) && final(self)@ == old(self)@.insert(
                    id@,
                    Session::Creating,
                ),
                None => final(self)@ == old(self)@,
            },
            old(self).vacant() ==> r is Some,
    {
        let mut attempt: usize = 0;
        while attempt < RESERVE_ATTEMPTS
            invariant
                self@ == old(self)@,
                old(self).vacant() ==> attempt == 0,
            decreases RESERVE_ATTEMPTS - attempt,
        {
            let id = random_session_id();
            if self.reserve(id) {
                return Some(id);
            }
            assert(old(self)@.contains_key(id@));
            attempt = attempt + 1;
        }
        None
    }

    /// Takes the id for a new session, unless it is taken already.
    pub fn reserve(&mut self, id: SessionId) -> (taken: bool)
        ensures
            taken == !old(self)@.contains_key(id@),
            final(self)@ == (if taken {
                old(self)@.insert(id@, Session::Creating)
            } else {
                old(self)@
            }),
    {
        proof {
            use_type_invariant(&*self);
        }
        match self.position(&id) {
            Some(i) => {
                proof {
                    lemma_as_map_value(self.entries@, i as int);
                }
                false
            },
            None => {
                let entry = Entry { id, session: Session::Creating };
                proof {
                    lemma_distinct_push(self.entries@, entry);
                }
                let mut entries = self.take_entries();
                entries.push(entry);
                self.entries = entries;
                true
            },
        }
    }

    /// Gives the id up, and says what was known of the session.
    pub fn release(&mut self, id: &SessionId) -> (was: Option<Session<C>>)
        ensures
            final(self)@ == old(self)@.remove(id@),
            was == (if old(self)@.contains_key(id@) {
                Some(old(self)@[id@])
            } else {
                None::<Session<C>>
            }),
    {
        proof {
            use_type_invariant(&*self);
        }
        match self.position(id) {
            Some(i) => {
                proof {
                    lemma_as_map_value(self.entries@, i as int);
                    lemma_as_map_remove(self.entries@, i as int);
                }
                let mut entries = self.take_entries();
                let entry = entries.remove(i);
                self.entries = entries;
                Some(entry.session)
            },
            None => {
                assert(self@ =~= old(self)@.remove(id@));
                None
            },
        }
    }

    /// Records that the terminal of the session `id` has gone to the pty
    /// service behind `pty_service_conn`. This is done once for a session:
    /// the session must be there and be without a terminal so far. Otherwise
    /// nothing changes and the connection is handed back.
    pub fn make_ready(&mut self, id: &SessionId, pty_master: i32, pty_service_conn: C) -> (r:
        Result<(), C>)
        ensures
            r is Ok <==> (old(self)@.contains_key(id@) && old(self)@[id@] is Creating),
            r is Ok ==> final(self)@ == old(self)@.insert(
                id@,
                Session::Ready { pty_master, pty_service_conn },
            ),
            r matches Err(conn) ==> conn == pty_service_conn && final(self)@ == old(self)@,
    {
        proof {
            use_type_invariant(&*self);
        }
        match self.position(id) {
            Some(i) => {
                proof {
                    lemma_as_map_value(self.entries@, i as int);
                }
                match &self.entries[i].session {
                    Session::Ready { .. } => Err(pty_service_conn),
                    Session::Creating => {
                        proof {
                            lemma_as_map_remove(self.entries@, i as int);
                        }
                        let mut entries = self.take_entries();
                        let entry = entries.remove(i);
                        let ready = Entry {
                            id: entry.id,
                            session: Session::Ready { pty_master, pty_service_conn },
                        };
                        proof {
                            lemma_distinct_push(entries@, ready);
                        }
                        entries.push(ready);
                        self.entries = entries;
                        proof {
                            assert(self@ =~= old(self)@.insert(
                                id@,
                                Session::Ready { pty_master, pty_service_conn },
                            ));
                        }
                        Ok(())
                    },
                }
            },
            None => Err(pty_service_conn),
        }
    }
}

// ---------------------------------------------------------------------------
// The listening socket

/// The name under which the supervisor hands over the socket that the
/// sessions service listens on.
pub const SOCKET_NAME: &'static str = "tere-sessions";

/// The index of the last entry of `roster` that goes by `name`.
pub open spec fn last_named(roster: Seq<EntryView>, name: Seq<u8>) -> Option<int>
    decreases roster.len(),
{
    if roster.len() == 0 {
        None
    } else if roster.last().name == Some(name) {
        Some(roster.len() - 1)
    } else {
        last_named(roster.drop_last(), name)
    }
}

/// The descriptor numbers of a roster, in order.
pub open spec fn roster_fds(roster: Seq<EntryView>) -> Seq<i32> {
    Seq::new(roster.len(), |i: int| roster[i].fd as i32)
}

/// What the broker makes of the roster.
#[derive(Debug)]
pub struct Picked {
    /// The socket to listen on, where one was handed over.
    pub listener: Option<OwnedFd>,
    /// Every other descriptor that was handed over: the broker has no use
    /// for them and closes each.
    pub close: Vec<OwnedFd>,
}

/// Goes through the roster and picks the socket to listen on: the entry
/// that goes by [`SOCKET_NAME`], the last of them where there are several.
/// All other entries are to be closed. The roster is used up.
pub fn pick_listener(roster: &mut FdIter) -> (picked: Picked)
    ensures
        final(roster)@.len() == 0,
        match last_named(old(roster)@, encode_utf8(SOCKET_NAME@)) {
            Some(i) => (picked.listener matches Some(fd) && fd@ == old(roster)@[i].fd) && numbers(
                picked.close@,
            ) == roster_fds(old(roster)@.remove(i)),
            None => picked.listener is None && numbers(picked.close@) == roster_fds(old(roster)@),
        },
{
    let ghost all = roster@;
    let ghost name = encode_utf8(SOCKET_NAME@);
    // First all entries are taken over, and the last of ours is marked.
    let mut fds: Vec<OwnedFd> = Vec::new();
    let mut last: Option<usize> = None;
    proof {
        assert(all.take(0) =~= Seq::<EntryView>::empty());
        assert(all.skip(0) =~= all);
    }
    while roster.len() > 0
        invariant
            fds@.len() <= all.len(),
            name == encode_utf8(SOCKET_NAME@),
            roster@ == all.skip(fds@.len() as int),
            forall|j: int| 0 <= j < fds@.len() ==> (#[trigger] fds@[j])@ == all[j].fd,
            match last_named(all.take(fds@.len() as int), name) {
                Some(i) => last == Some(i as usize) && 0 <= i < fds@.len(),
                None => last is None,
            },
        decreases roster@.len(),
    {
        let ghost seen = fds@.len() as int;
        let ghost before = all.take(seen);
        let ghost after = all.take(seen + 1);
        match roster.next() {
            None => {},
            Some(entry) => {
                proof {
                    assert(entry@ == all[seen]);
                    assert(after.drop_last() =~= before);
                    assert(after.last() == all[seen]);
                    assert(all.skip(seen).skip(1) =~= all.skip(seen + 1));
                }
                let ours = match entry.name() {
                    Some(bytes) => same_bytes(bytes, SOCKET_NAME.as_bytes()),
                    None => false,
                };
                if ours {
                    last = Some(fds.len());
                }
                let ghost held = fds@;
                let fd = entry.take_fd();
                fds.push(fd);
                proof {
                    assert forall|j: int| 0 <= j < seen + 1 implies (#[trigger] fds@[j])@
                        == all[j].fd by {
                        if j < seen {
                            assert(fds@[j] == held[j]);
                        }
                    }
                }
            },
        }
    }
    proof {
        assert(all.take(fds@.len() as int) =~= all);
    }
    // Then the marked one is set apart from the others.
    let total: usize = fds.len();
    let ghost taken = fds@;
    let mut listener: Option<OwnedFd> = None;
    let mut close: Vec<OwnedFd> = Vec::new();
    let mut at: usize = 0;
    proof {
        assert(taken.skip(0) =~= taken);
        assert(numbers(close@) =~= numbers(taken.take(0)));
    }
    while fds.len() > 0
        invariant
            at <= taken.len() <= usize::MAX,
            fds@ == taken.skip(at as int),
            last matches Some(i) ==> i < taken.len(),
            taken.len() == all.len(),
            forall|j: int| 0 <= j < taken.len() ==> (#[trigger] taken[j])@ == all[j].fd,
            match last_named(all, name) {
                Some(i) => last == Some(i as usize),
                None => last is None,
            },
            match last {
                Some(i) => if i < at {
                    (listener matches Some(fd) && fd == taken[i as int]) && close@
                        == taken.take(at as int).remove(i as int)
                } else {
                    listener is None && close@ == taken.take(at as int)
                },
                None => listener is None && close@ == taken.take(at as int),
            },
        decreases fds@.len(),
    {
        let ghost so_far = taken.take(at as int);
        let ghost next = taken.take(at + 1);
        let fd = fds.remove(0);
        proof {
            assert(fd == taken[at as int]);
            assert(fds@ =~= taken.skip(at + 1));
            assert(next =~= so_far.push(fd));
        }
        let ours = match last {
            Some(i) => i == at,
            None => false,
        };
        if ours {
            listener = Some(fd);
            assert(close@ =~= next.remove(at as int));
        } else {
            close.push(fd);
            proof {
                match last {
                    Some(i) => {
                        if i < at {
                            assert(close@ =~= next.remove(i as int));
                        } else {
                            assert(close@ =~= next);
                        }
                    },
                    None => {
                        assert(close@ =~= next);
                    },
                }
            }
        }
        at = at + 1;
    }
    proof {
        assert(taken.take(at as int) =~= taken);
        match last {
            Some(i) => {
                assert forall|j: int| 0 <= j < taken.len() - 1 implies numbers(
                    taken.remove(i as int),
                )[j] == roster_fds(all.remove(i as int))[j] by {
                    let k = if j < i { j } else { j + 1 };
                    assert(taken[k]@ == all[k].fd);
                }
                assert(numbers(taken.remove(i as int)) =~= roster_fds(all.remove(i as int)));
            },
            None => {
                assert forall|j: int| 0 <= j < taken.len() implies numbers(taken)[j]
                    == roster_fds(all)[j] by {
                    assert(taken[j]@ == all[j].fd);
                }
                assert(numbers(taken) =~= roster_fds(all));
            },
        }
    }
    Picked { listener, close }
}

proof fn lemma_last_named_in_range(roster: Seq<EntryView>, name: Seq<u8>)
    ensures
        last_named(roster, name) matches Some(i) ==> 0 <= i < roster.len() && roster[i].name
            == Some(name),
    decreases roster.len(),
{
    if roster.len() > 0 && roster.last().name != Some(name) {
        lemma_last_named_in_range(roster.drop_last(), name);
    }
}

// ---------------------------------------------------------------------------
// One connection

/// Why a connection from a controller has ended.
#[derive(Debug)]
pub enum ConnError {
    /// The handshake with the controller failed.
    Handshake(handshake::Error),
    /// A request could not be received.
    Receive(ReceiveError),
}

/// After the handshake with the controller: requests are received only if
/// it succeeded.
pub fn handshaken(outcome: Result<(), handshake::Error>) -> (r: Result<(), ConnError>)
    ensures
        r == (match outcome {
            Ok(()) => Ok::<(), ConnError>(()),
            Err(e) => Err::<(), ConnError>(ConnError::Handshake(e)),
        }),
{
    match outcome {
        Ok(()) => Ok(()),
        Err(e) => Err(ConnError::Handshake(e)),
    }
}

/// After a receive: a request is worked on, a failed receive ends the
/// connection.
pub fn received(outcome: Result<Request, ReceiveError>) -> (r: Result<CreateShellSession, ConnError>)
    ensures
        r == (match outcome {
            Ok(Request::CreateShellSession(create)) => Ok::<CreateShellSession, ConnError>(create),
            Err(e) => Err::<CreateShellSession, ConnError>(ConnError::Receive(e)),
        }),
{
    match outcome {
        Ok(Request::CreateShellSession(create)) => Ok(create),
        Err(e) => Err(ConnError::Receive(e)),
    }
}

// ---------------------------------------------------------------------------
// One request

/// The name by which the launcher knows a machine. The host goes by
/// [`HOST_MACHINE`]. A container goes by its own name, which therefore
/// cannot begin with a dot: such a name is refused.
pub open spec fn machine_name(machine: MachineView) -> Option<Seq<char>> {
    match machine {
        MachineView::Host => Some(HOST_MACHINE@),
        MachineView::Container(name) => if name.len() > 0 && name[0] == '.' {
            None
        } else {
            Some(name)
        },
    }
}

/// Resolves a machine to the name that the launcher knows it by.
pub fn resolve_machine<'a>(machine: &'a Machine) -> (r: Option<&'a str>)
    ensures
        match machine_name(machine@) {
            Some(name) => r matches Some(got) && got@ == name,
            None => r is None,
        },
{
    match machine {
        Machine::Host => Some(HOST_MACHINE),
        Machine::Container(name) => {
            let name = name.as_str();
            if !name.is_empty() && name.get_char(0) == '.' {
                None
            } else {
                Some(name)
            }
        },
    }
}

/// What the launcher is asked for on behalf of a request: the machine by
/// its resolved name, the user, and the program, arguments and environment
/// as far as the request gives them.
pub open spec fn shell_spec_for(create: CreateShellSessionView) -> Option<ShellSpecView> {
    match machine_name(create.machine) {
        None => None,
        Some(machine) => Some(
            ShellSpecView {
                machine,
                user: create.user,
                program: match create.program {
                    Some(program) => program,
                    None => Seq::empty(),
                },
                args: match create.args {
                    Some(args) => args,
                    None => Seq::empty(),
                },
                environment: match create.env {
                    Some(env) => env,
                    None => Seq::empty(),
                },
            },
        ),
    }
}

/// Makes the launcher's order out of a request, unless the request names a
/// machine that is refused.
pub fn shell_spec<'a>(create: &'a CreateShellSession) -> (r: Option<ShellSpec<'a>>)
    ensures
        match shell_spec_for(create@) {
            Some(spec) => r matches Some(got) && got@ == spec,
            None => r is None,
        },
{
    let machine = match resolve_machine(&create.machine) {
        None => {
            return None;
        },
        Some(machine) => machine,
    };
    let program: &str = match &create.program {
        Some(program) => program.as_str(),
        None => "",
    };
    let args: &[String] = match &create.args {
        Some(args) => args.as_slice(),
        None => &[],
    };
    let environment: &[String] = match &create.env {
        Some(env) => env.as_slice(),
        None => &[],
    };
    proof {
        reveal_strlit("");
        assert(program@ =~= shell_spec_for(create@)->Some_0.program);
        assert(texts(args@) =~= shell_spec_for(create@)->Some_0.args);
        assert(texts(environment@) =~= shell_spec_for(create@)->Some_0.environment);
    }
    Some(ShellSpec { machine, user: create.user.as_str(), program, args, environment })
}

/// Why the pty service of a session could not be used.
#[derive(Debug)]
pub enum ServiceError {
    /// The connection could not be made.
    Connect(std::io::Error),
    /// The handshake with the pty service failed.
    Handshake(handshake::Error),
}

/// Why a request came to nothing. `E` is the launcher's own error.
#[derive(Debug)]
pub enum RequestError<E> {
    /// The request names a container by a name that begins with a dot.
    Machine,
    /// No free session id was found.
    SessionIds,
    /// The launcher did not open a shell.
    Launcher(E),
    /// The pty service could not be used.
    PtyService(ServiceError),
    /// The terminal could not be sent to the pty service.
    InitSend(SendError),
    /// The session was not waiting for its terminal any more.
    SessionTaken,
    /// The client could not be sent to the pty service.
    ClientSend(SendError),
}

/// A request that came to nothing. The connection to the controller stays
/// open for the next request.
#[derive(Debug)]
pub struct Abandoned<E> {
    pub error: RequestError<E>,
    /// The descriptors that the broker still owns on behalf of the request:
    /// it closes each of them.
    pub close: Vec<OwnedFd>,
}

fn abandon<E>(error: RequestError<E>, first: OwnedFd, second: Option<OwnedFd>) -> (abandoned:
    Abandoned<E>)
    ensures
        abandoned.error == error,
        numbers(abandoned.close@) == (match second {
            Some(fd) => seq![first@, fd@],
            None => seq![first@],
        }),
{
    let mut close: Vec<OwnedFd> = Vec::new();
    close.push(first);
    match second {
        Some(fd) => {
            close.push(fd);
            assert(numbers(close@) =~= seq![first@, fd@]);
        },
        None => {
            assert(numbers(close@) =~= seq![first@]);
        },
    }
    Abandoned { error, close }
}

/// A request that has its session id. Next the launcher is asked for the
/// shell that [`Reserved::shell_spec`] describes.
#[derive(Debug)]
pub struct Reserved {
    id: SessionId,
    create: CreateShellSession,
}

/// Takes a request up: its machine is resolved, and a fresh session id is
/// reserved for it.
///
/// A request that names a refused machine is abandoned, and so is one for
/// which no free id was found; the session table is then as it was. The
/// controller's socket is the one descriptor to close. A request whose
/// machine resolves is taken up for certain where no id is taken yet:
/// whatever id is drawn is then free.
pub fn accept<C, E>(create: CreateShellSession, sessions: &mut Sessions<C>) -> (r: Result<
    Reserved,
    Abandoned<E>,
>)
    ensures
        machine_name(create@.machine) is None ==> r is Err,
        machine_name(create@.machine) is Some && old(sessions).vacant() ==> r is Ok,
        match r {
            Ok(reserved) => reserved.request() == create@ && !old(sessions)@.contains_key(
                reserved.id()@,
            ) && final(sessions)@ == old(sessions)@.insert(reserved.id()@, Session::Creating),
            Err(abandoned) => abandoned.error == (if machine_name(create@.machine) is None {
                RequestError::<E>::Machine
            } else {
                RequestError::<E>::SessionIds
            }) && numbers(abandoned.close@) == seq![create@.fd] && final(sessions)@ == old(
                sessions,
            )@,
        },
{
    if resolve_machine(&create.machine).is_none() {
        return Err(abandon(RequestError::Machine, create.fd, None));
    }
    match sessions.reserve_fresh() {
        None => Err(abandon(RequestError::SessionIds, create.fd, None)),
        Some(id) => Ok(Reserved { id, create }),
    }
}

impl Reserved {
    #[verifier::type_invariant]
    spec fn machine_resolves(self) -> bool {
        machine_name(self.create@.machine) is Some
    }

    /// The id of the session.
    pub closed spec fn id(self) -> SessionId {
        self.id
    }

    /// The request.
    pub closed spec fn request(self) -> CreateShellSessionView {
        self.create@
    }

    pub fn session_id(&self) -> (id: SessionId)
        ensures
            id == self.id(),
    {
        self.id
    }

    /// What the launcher is asked for.
    pub fn shell_spec<'a>(&'a self) -> (spec: ShellSpec<'a>)
        ensures
            shell_spec_for(self.request()) == Some(spec@),
    {
        proof {
            use_type_invariant(self);
        }
        match shell_spec(&self.create) {
            Some(spec) => spec,
            None => vstd::pervasive::unreached(),
        }
    }

    /// After the launcher has answered. With the terminal the request goes
    /// on to the pty service. Without it the request is abandoned: the
    /// session id is given up and the controller's socket is to be closed.
    pub fn launched<C, E>(self, outcome: Result<OwnedFd, E>, sessions: &mut Sessions<C>) -> (r:
        Result<Launched, Abandoned<E>>)
        ensures
            match outcome {
                Ok(pty_master) => r matches Ok(launched) && launched.id() == self.id()
                    && launched.client() == self.request().fd && launched.pty_master()
                    == pty_master@ && final(sessions)@ == old(sessions)@,
                Err(e) => r matches Err(abandoned) && abandoned.error == RequestError::Launcher(e)
                    && numbers(abandoned.close@) == seq![self.request().fd] && final(sessions)@
                    == old(sessions)@.remove(self.id()@),
            },
    {
        match outcome {
            Ok(pty_master) => Ok(Launched { id: self.id, client: self.create.fd, pty_master }),
            Err(e) => {
                let _ = sessions.release(&self.id);
                Err(abandon(RequestError::Launcher(e), self.create.fd, None))
            },
        }
    }
}

/// A request whose shell runs. Next the broker connects to a pty service
/// and handshakes with it as a client.
#[derive(Debug)]
pub struct Launched {
    id: SessionId,
    client: OwnedFd,
    pty_master: OwnedFd,
}

impl Launched {
    pub closed spec fn id(self) -> SessionId {
        self.id
    }

    /// The controller's socket.
    pub closed spec fn client(self) -> i32 {
        self.client@
    }

    /// The terminal.
    pub closed spec fn pty_master(self) -> i32 {
        self.pty_master@
    }

    /// After the connection to the pty service has been made and the
    /// handshake run. With the service there, the terminal is put into the
    /// first message for it, which is to be sent next. Without it the
    /// request is abandoned: the session id is given up, and the
    /// controller's socket and the terminal are to be closed.
    pub fn serviced<C, E>(self, outcome: Result<(), ServiceError>, sessions: &mut Sessions<C>) -> (r:
        Result<(pty::Init, Initializing), Abandoned<E>>)
        ensures
            match outcome {
                Ok(()) => r matches Ok((message, next)) && message@ == (pty::InitView {
                    dummy: 0,
                    pty_master: self.pty_master(),
                }) && next.id() == self.id() && next.client() == self.client() && final(sessions)@
                    == old(sessions)@,
                Err(e) => r matches Err(abandoned) && abandoned.error
                    == RequestError::<E>::PtyService(e) && numbers(abandoned.close@) == seq![
                    self.client(),
                    self.pty_master(),
                ] && final(sessions)@ == old(sessions)@.remove(self.id()@),
            },
    {
        match outcome {
            Ok(()) => Ok(
                (
                    pty::Init { _dummy: 0, pty_master: self.pty_master },
                    Initializing { id: self.id, client: self.client },
                ),
            ),
            Err(e) => {
                let _ = sessions.release(&self.id);
                Err(abandon(RequestError::PtyService(e), self.client, Some(self.pty_master)))
            },
        }
    }
}

/// A request whose terminal is on its way to the pty service.
#[derive(Debug)]
pub struct Initializing {
    id: SessionId,
    client: OwnedFd,
}

/// A request whose terminal is with the pty service.
#[derive(Debug)]
pub struct Attaching {
    id: SessionId,
}

/// What follows a terminal that has been sent.
#[derive(Debug)]
pub struct Initialized {
    /// The message to send next, on the same connection: it holds the
    /// controller's socket.
    pub message: pty::Request,
    pub next: Attaching,
    /// The terminal's descriptor. It is the pty service's now; the
    /// broker's own is to be closed.
    pub close: OwnedFd,
}

impl Initializing {
    pub closed spec fn id(self) -> SessionId {
        self.id
    }

    /// The controller's socket.
    pub closed spec fn client(self) -> i32 {
        self.client@
    }

    /// After the send of the first message, `message`, on the connection
    /// `conn`.
    ///
    /// Where it was sent, the session gets its terminal: it is recorded as
    /// ready, with the terminal's number and the connection, and the
    /// controller's socket is put into the message that is to be sent next.
    /// This happens only for a session that was waiting for its terminal.
    /// Otherwise, and where the send failed, the request is abandoned: the
    /// session id is given up, and the controller's socket and the terminal
    /// are to be closed.
    pub fn init_sent<C, E>(
        self,
        outcome: Result<(), SendError>,
        message: pty::Init,
        conn: C,
        sessions: &mut Sessions<C>,
    ) -> (r: Result<Initialized, Abandoned<E>>)
        ensures
            match outcome {
                Ok(()) => if old(sessions)@.contains_key(self.id()@) && old(
                    sessions,
                )@[self.id()@] is Creating {
                    r matches Ok(then) && then.message@ == (pty::RequestView {
                        dummy: 0,
                        fd: self.client(),
                    }) && then.next.id() == self.id() && then.close@ == message@.pty_master
                        && final(sessions)@ == old(sessions)@.insert(
                        self.id()@,
                        Session::Ready {
                            pty_master: message@.pty_master,
                            pty_service_conn: conn,
                        },
                    )
                } else {
                    r matches Err(abandoned) && abandoned.error
                        == RequestError::<E>::SessionTaken && numbers(abandoned.close@) == seq![
                        self.client(),
                        message@.pty_master,
                    ] && final(sessions)@ == old(sessions)@.remove(self.id()@)
                },
                Err(e) => r matches Err(abandoned) && abandoned.error
                    == RequestError::<E>::InitSend(e) && numbers(abandoned.close@) == seq![
                    self.client(),
                    message@.pty_master,
                ] && final(sessions)@ == old(sessions)@.remove(self.id()@),
            },
    {
        match outcome {
            Ok(()) => {
                let number = message.pty_master.as_raw_fd();
                match sessions.make_ready(&self.id, number, conn) {
                    Ok(()) => Ok(
                        Initialized {
                            message: pty::Request::NewClient { _dummy: 0, fd: self.client },
                            next: Attaching { id: self.id },
                            close: message.pty_master,
                        },
                    ),
                    Err(_) => {
                        let _ = sessions.release(&self.id);
                        Err(
                            abandon(
                                RequestError::SessionTaken,
                                self.client,
                                Some(message.pty_master),
                            ),
                        )
                    },
                }
            },
            Err(e) => {
                let _ = sessions.release(&self.id);
                Err(abandon(RequestError::InitSend(e), self.client, Some(message.pty_master)))
            },
        }
    }
}

/// A request that has been carried out.
#[derive(Debug)]
pub struct Completed {
    /// The session that was created.
    pub id: SessionId,
    /// The controller's socket. It is the pty service's now; the broker's
    /// own is to be closed.
    pub close: OwnedFd,
}

impl Attaching {
    pub closed spec fn id(self) -> SessionId {
        self.id
    }

    /// After the send of the second message, `message`. Where it was sent
    /// the request is done. Where it was not, the request is abandoned;
    /// the session stays as it is, with its terminal at the pty service.
    /// The controller's socket is to be closed either way.
    pub fn client_sent<E>(self, outcome: Result<(), SendError>, message: pty::Request) -> (r:
        Result<Completed, Abandoned<E>>)
        ensures
            match outcome {
                Ok(()) => r matches Ok(done) && done.id == self.id() && done.close@
                    == message@.fd,
                Err(e) => r matches Err(abandoned) && abandoned.error
                    == RequestError::<E>::ClientSend(e) && numbers(abandoned.close@) == seq![
                    message@.fd,
                ],
            },
    {
        match message {
            pty::Request::NewClient { _dummy, fd } => match outcome {
                Ok(()) => Ok(Completed { id: self.id, close: fd }),
                Err(e) => Err(abandon(RequestError::ClientSend(e), fd, None)),
            },
        }
    }
}

} // verus!
