//! Socket activation after the manner of systemd: a supervisor opens the
//! listening sockets, hands them over as the descriptors from 3 upwards, and
//! says so in the environment.
//!
//! `LISTEN_PID` names the process that the descriptors are meant for,
//! `LISTEN_FDS` says how many there are, and `LISTEN_FDNAMES`, where it is
//! set, names them, colon by colon. The embedding program reads the three
//! variables, clears them, and hands their values to
//! [`SocketActivation::parse`].

use vstd::prelude::*;
use vstd::slice::*;
use vstd::utf8::*;

use crate::ipc::codec::is_utf8;
use crate::ipc::ownedfd::OwnedFd;

verus! {

/// Number of the first descriptor that a supervisor hands over.
pub const LISTEN_FDS_START: i32 = 3;

/// Why a string of bytes is no decimal number.
#[derive(Debug, Clone, Copy, PartialEq, Eq, Structural)]
pub enum IntError {
    /// There is nothing to read.
    Empty,
    /// A character is no digit, or a sign stands alone.
    InvalidDigit,
    /// The number is larger than the largest that is allowed.
    PosOverflow,
}

pub open spec fn is_digit(byte: u8) -> bool {
    0x30 <= byte <= 0x39
}

/// The number that the decimal digits `digits` denote.
pub open spec fn decimal_value(digits: Seq<u8>) -> nat
    decreases digits.len(),
{
    if digits.len() == 0 {
        0
    } else {
        10 * decimal_value(digits.drop_last()) + (digits.last() - 0x30) as nat
    }
}

pub open spec fn all_digits(digits: Seq<u8>) -> bool {
    forall|i: int| 0 <= i < digits.len() ==> is_digit(#[trigger] digits[i])
}

/// Reads `digits` from the left, with `so_far` read before them, and stops at
/// the first byte that is no digit or that takes the number over `max`.
pub open spec fn scan_digits(digits: Seq<u8>, so_far: nat, max: nat) -> Result<nat, IntError>
    decreases digits.len(),
{
    if digits.len() == 0 {
        Ok(so_far)
    } else if !is_digit(digits[0]) {
        Err(IntError::InvalidDigit)
    } else if 10 * so_far + (digits[0] - 0x30) > max {
        Err(IntError::PosOverflow)
    } else {
        scan_digits(digits.skip(1), 10 * so_far + (digits[0] - 0x30) as nat, max)
    }
}

/// `text` without the plus sign that may stand in front of a number.
pub open spec fn unsigned_part(text: Seq<u8>) -> Seq<u8> {
    if text.len() > 0 && text[0] == 0x2b {
        text.skip(1)
    } else {
        text
    }
}

/// The number that `text` denotes in decimal, where it is at most `max`: an
/// optional plus sign, then one digit or more, and nothing else.
pub open spec fn parse_decimal(text: Seq<u8>, max: nat) -> Result<nat, IntError> {
    if text.len() == 0 {
        Err(IntError::Empty)
    } else if unsigned_part(text).len() == 0 {
        Err(IntError::InvalidDigit)
    } else {
        scan_digits(unsigned_part(text), 0, max)
    }
}

proof fn lemma_decimal_value_step(digits: Seq<u8>, i: int)
    requires
        0 <= i < digits.len(),
    ensures
        decimal_value(digits.take(i + 1)) == 10 * decimal_value(digits.take(i)) + (digits[i]
            - 0x30) as nat,
{
    let front = digits.take(i + 1);
    assert(front.drop_last() =~= digits.take(i));
    assert(front.last() == digits[i]);
}

proof fn lemma_decimal_value_grows(digits: Seq<u8>, i: int)
    requires
        0 <= i <= digits.len(),
    ensures
        decimal_value(digits.take(i)) <= decimal_value(digits),
    decreases digits.len() - i,
{
    if i < digits.len() {
        lemma_decimal_value_step(digits, i);
        lemma_decimal_value_grows(digits, i + 1);
    } else {
        assert(digits.take(i) =~= digits);
    }
}

proof fn lemma_scan_digits(all: Seq<u8>, i: int, max: nat)
    requires
        0 <= i <= all.len(),
        forall|j: int| 0 <= j < i ==> is_digit(#[trigger] all[j]),
        decimal_value(all.take(i)) <= max,
    ensures
        scan_digits(all.skip(i), decimal_value(all.take(i)), max) matches Ok(v) <==> all_digits(
            all,
        ) && decimal_value(all) <= max,
        scan_digits(all.skip(i), decimal_value(all.take(i)), max) matches Ok(v) ==> v
            == decimal_value(all),
    decreases all.len() - i,
{
    let rest = all.skip(i);
    if i == all.len() {
        assert(all.take(i) =~= all);
    } else {
        assert(rest[0] == all[i]);
        lemma_decimal_value_step(all, i);
        if !is_digit(all[i]) {
        } else if decimal_value(all.take(i + 1)) > max {
            lemma_decimal_value_grows(all, i + 1);
        } else {
            assert(rest.skip(1) =~= all.skip(i + 1));
            assert forall|j: int| 0 <= j < i + 1 implies is_digit(#[trigger] all[j]) by {}
            lemma_scan_digits(all, i + 1, max);
        }
    }
}

/// A text is read as a number exactly when it is an optional plus sign in
/// front of one digit or more that denote a number of at most `max`; the
/// number read is the number denoted.
pub proof fn lemma_parse_decimal(text: Seq<u8>, max: nat)
    ensures
        parse_decimal(text, max) is Ok <==> unsigned_part(text).len() > 0 && all_digits(
            unsigned_part(text),
        ) && decimal_value(unsigned_part(text)) <= max,
        parse_decimal(text, max) matches Ok(v) ==> v == decimal_value(unsigned_part(text)),
{
    let digits = unsigned_part(text);
    if digits.len() > 0 {
        assert(digits.take(0) =~= Seq::<u8>::empty());
        assert(digits.skip(0) =~= digits);
        lemma_scan_digits(digits, 0, max);
    }
}

/// Reads a decimal number of at most `max`.
pub fn read_decimal(text: &[u8], max: u64) -> (r: Result<u64, IntError>)
    ensures
        r matches Ok(v) ==> v <= max && parse_decimal(text@, max as nat) == Ok::<nat, IntError>(
            v as nat,
        ),
        r matches Err(e) ==> parse_decimal(text@, max as nat) == Err::<nat, IntError>(e),
{
    if text.len() == 0 {
        return Err(IntError::Empty);
    }
    let start: usize = if text[0] == 0x2b { 1 } else { 0 };
    if start == text.len() {
        return Err(IntError::InvalidDigit);
    }
    let ghost digits = unsigned_part(text@);
    let mut i: usize = start;
    let mut value: u64 = 0;
    assert(digits.skip(0) =~= digits);
    while i < text.len()
        invariant
            start <= i <= text@.len(),
            digits == text@.skip(start as int),
            value <= max,
            parse_decimal(text@, max as nat) == scan_digits(digits, 0, max as nat),
            scan_digits(digits, 0, max as nat) == scan_digits(
                digits.skip(i - start),
                value as nat,
                max as nat,
            ),
        decreases text@.len() - i,
    {
        let byte = text[i];
        let ghost rest = digits.skip(i - start);
        assert(rest[0] == byte);
        assert(rest.skip(1) =~= digits.skip(i + 1 - start));
        if byte < 0x30 || byte > 0x39 {
            return Err(IntError::InvalidDigit);
        }
        let digit = (byte - 0x30) as u64;
        if digit > max || value > (max - digit) / 10 {
            assert(10 * value + digit > max);
            return Err(IntError::PosOverflow);
        }
        value = 10 * value + digit;
        i = i + 1;
    }
    Ok(value)
}

// ---------------------------------------------------------------------------
// Names

/// Number of bytes of `names` in front of its first colon, or of all of it
/// where it holds none.
pub open spec fn field_len(names: Seq<u8>) -> nat
    decreases names.len(),
{
    if names.len() == 0 || names[0] == 0x3a {
        0
    } else {
        1 + field_len(names.skip(1))
    }
}

/// What follows the first colon of `names`; nothing where it holds none.
pub open spec fn after_field(names: Seq<u8>) -> Seq<u8> {
    if field_len(names) < names.len() {
        names.skip(field_len(names) as int + 1)
    } else {
        Seq::empty()
    }
}

/// The `i`-th of the fields that colons part `names` into, counted from 0;
/// empty where `names` has fewer fields.
pub open spec fn nth_field(names: Seq<u8>, i: nat) -> Seq<u8>
    decreases i,
{
    if i == 0 {
        names.take(field_len(names) as int)
    } else {
        nth_field(after_field(names), (i - 1) as nat)
    }
}

/// A field as a name: an empty field names nothing.
pub open spec fn name_of(field: Seq<u8>) -> Option<Seq<u8>> {
    if field.len() == 0 {
        None
    } else {
        Some(field)
    }
}

/// Number of colons in `names`.
pub open spec fn colons(names: Seq<u8>) -> nat
    decreases names.len(),
{
    if names.len() == 0 {
        0
    } else if names[0] == 0x3a {
        1 + colons(names.skip(1))
    } else {
        colons(names.skip(1))
    }
}

proof fn lemma_after_field_colons(names: Seq<u8>)
    ensures
        field_len(names) <= names.len(),
        field_len(names) < names.len() ==> colons(names) == 1 + colons(after_field(names)),
        field_len(names) == names.len() ==> colons(names) == 0,
    decreases names.len(),
{
    if names.len() == 0 {
    } else if names[0] == 0x3a {
        assert(field_len(names) == 0);
    } else {
        let tail = names.skip(1);
        lemma_after_field_colons(tail);
        if field_len(tail) < tail.len() {
            assert(tail.skip(field_len(tail) as int + 1) =~= names.skip(field_len(names) as int + 1));
        }
    }
}

/// Names run out: with `n` colons there are `n + 1` fields, and every field
/// after them is empty, so that it names nothing.
pub proof fn lemma_names_run_out(names: Seq<u8>, i: nat)
    requires
        i > colons(names),
    ensures
        nth_field(names, i).len() == 0,
        name_of(nth_field(names, i)) is None,
    decreases i,
{
    lemma_after_field_colons(names);
    if i > 0 {
        if field_len(names) < names.len() {
            lemma_names_run_out(after_field(names), (i - 1) as nat);
        } else {
            lemma_empty_has_no_field((i - 1) as nat);
        }
    }
}

proof fn lemma_empty_has_no_field(i: nat)
    ensures
        nth_field(Seq::empty(), i).len() == 0,
    decreases i,
{
    let none = Seq::<u8>::empty();
    if i > 0 {
        assert(after_field(none) =~= none);
        lemma_empty_has_no_field((i - 1) as nat);
    }
}

// ---------------------------------------------------------------------------
// The roster

/// One descriptor that was handed over.
pub struct EntryView {
    /// Its name, where it was given one.
    pub name: Option<Seq<u8>>,
    /// Its number.
    pub fd: int,
}

/// The descriptors `start`, `start + 1`, ... up to `count` of them, the
/// `i`-th under the `i`-th name of `names`.
pub open spec fn entries(start: int, count: nat, names: Seq<u8>) -> Seq<EntryView> {
    Seq::new(count, |i: int| EntryView { name: name_of(nth_field(names, i as nat)), fd: start + i })
}

/// What the `i`-th entry of a roster is: the `i`-th descriptor from `start`,
/// named by the `i`-th field of `names` unless that field is empty.
pub proof fn lemma_entry(start: int, count: nat, names: Seq<u8>, i: int)
    requires
        0 <= i < count,
    ensures
        entries(start, count, names)[i].fd == start + i,
        nth_field(names, i as nat).len() == 0 ==> entries(start, count, names)[i].name is None,
        nth_field(names, i as nat).len() > 0 ==> entries(start, count, names)[i].name == Some(
            nth_field(names, i as nat),
        ),
{
}

/// A colon right behind a colon leaves an empty field between the two, and
/// so does a colon at the very front.
pub proof fn lemma_empty_between_colons(names: Seq<u8>)
    ensures
        names.len() > 0 && names[0] == 0x3a ==> nth_field(names, 0).len() == 0,
        field_len(names) + 1 < names.len() && names[field_len(names) as int + 1] == 0x3a ==> nth_field(
            names,
            1,
        ).len() == 0,
{
    lemma_after_field_colons(names);
    if field_len(names) + 1 < names.len() && names[field_len(names) as int + 1] == 0x3a {
        let rest = after_field(names);
        assert(rest[0] == 0x3a);
        assert(field_len(rest) == 0);
        reveal_with_fuel(nth_field, 2);
    }
}

/// A descriptor that was handed over, with the name it was given.
#[derive(Debug)]
pub struct FileDescriptor {
    name_: Option<Vec<u8>>,
    fd: i32,
}

impl View for FileDescriptor {
    type V = EntryView;

    closed spec fn view(&self) -> EntryView {
        EntryView {
            name: match self.name_ {
                Some(name) => Some(name@),
                None => None,
            },
            fd: self.fd as int,
        }
    }
}

impl FileDescriptor {
    /// The name that the supervisor gave the descriptor, if any.
    pub fn name(&self) -> (name: Option<&[u8]>)
        ensures
            match name {
                Some(bytes) => self@.name == Some(bytes@),
                None => self@.name is None,
            },
    {
        match &self.name_ {
            Some(name) => Some(name.as_slice()),
            None => None,
        }
    }

    /// Takes the descriptor over.
    pub fn take_fd(self) -> (owned: OwnedFd)
        ensures
            owned@ == self@.fd,
    {
        OwnedFd::from_raw(self.fd)
    }
}

/// The descriptors that were handed over and not taken yet, in order.
#[derive(Debug)]
pub struct FdIter {
    next: i32,
    count: usize,
    names: Vec<u8>,
    name_offset: usize,
}

impl View for FdIter {
    type V = Seq<EntryView>;

    /// The entries still to come.
    closed spec fn view(&self) -> Seq<EntryView> {
        entries(self.next as int, self.count as nat, self.names@.skip(self.name_offset as int))
    }
}

impl FdIter {
    #[verifier::type_invariant]
    spec fn in_range(self) -> bool {
        self.next + self.count <= i32::MAX && self.name_offset <= self.names@.len()
    }

    fn empty() -> (iter: FdIter)
        ensures
            iter@ == Seq::<EntryView>::empty(),
    {
        let iter = FdIter { next: -1, count: 0, names: Vec::new(), name_offset: 0 };
        assert(iter@ =~= Seq::<EntryView>::empty());
        iter
    }

    /// Number of entries still to come.
    pub fn len(&self) -> (n: usize)
        ensures
            n == self@.len(),
    {
        self.count
    }

    /// The next entry, where one is left.
    pub fn next(&mut self) -> (r: Option<FileDescriptor>)
        ensures
            old(self)@.len() == 0 ==> r is None && final(self)@ == old(self)@,
            old(self)@.len() > 0 ==> (r matches Some(entry) && entry@ == old(self)@[0])
                && final(self)@ == old(self)@.skip(1),
    {
        proof {
            use_type_invariant(&*self);
        }
        if self.count == 0 {
            return None;
        }
        let ghost rest = self.names@.skip(self.name_offset as int);
        let begin: usize = self.name_offset;
        let mut end: usize = begin;
        assert(self.names@.skip(end as int) =~= rest);
        while end < self.names.len() && self.names[end] != 0x3a
            invariant
                begin <= end <= self.names@.len(),
                rest == self.names@.skip(begin as int),
                field_len(rest) == (end - begin) + field_len(self.names@.skip(end as int)),
            decreases self.names@.len() - end,
        {
            assert(self.names@.skip(end as int).skip(1) =~= self.names@.skip(end + 1));
            end = end + 1;
        }
        assert(field_len(rest) == end - begin);
        let name = if end == begin {
            None
        } else {
            Some(slice_to_vec(slice_subrange(self.names.as_slice(), begin, end)))
        };
        let fd = self.next;
        let entry = FileDescriptor { name_: name, fd };
        proof {
            assert(rest.take(field_len(rest) as int) =~= self.names@.subrange(
                begin as int,
                end as int,
            ));
            assert(entry@ == old(self)@[0]);
        }
        self.name_offset = if end < self.names.len() {
            end + 1
        } else {
            end
        };
        self.count = self.count - 1;
        self.next = self.next + 1;
        proof {
            assert(self.names@.skip(self.name_offset as int) =~= after_field(rest));
            assert(self@ =~= old(self)@.skip(1));
        }
        Some(entry)
    }
}

// ---------------------------------------------------------------------------
// The environment

/// Name of the variable that says which process the descriptors are for.
pub const LISTEN_PID: &'static str = "LISTEN_PID";

/// Name of the variable that says how many descriptors there are.
pub const LISTEN_FDS: &'static str = "LISTEN_FDS";

/// Name of the variable that names the descriptors.
pub const LISTEN_FDNAMES: &'static str = "LISTEN_FDNAMES";

/// The values of the three variables as the process found them, each as raw
/// bytes, or `None` where it is not set.
#[derive(Debug)]
pub struct Environment {
    pub listen_pid: Option<Vec<u8>>,
    pub listen_fds: Option<Vec<u8>>,
    pub listen_fdnames: Option<Vec<u8>>,
}

/// The bytes of an optional byte vector.
pub open spec fn opt_bytes(value: Option<Vec<u8>>) -> Option<Seq<u8>> {
    match value {
        Some(v) => Some(v@),
        None => None,
    }
}

/// Why a variable gives no number.
#[derive(Debug)]
pub enum EnvError {
    /// It is not set.
    NotPresent,
    /// Its value, given here, is not valid Unicode.
    NotUnicode(Vec<u8>),
    /// Its value is no decimal number in range.
    NotInt(IntError),
}

pub enum EnvErrorView {
    NotPresent,
    NotUnicode(Seq<u8>),
    NotInt(IntError),
}

impl View for EnvError {
    type V = EnvErrorView;

    open spec fn view(&self) -> EnvErrorView {
        match *self {
            EnvError::NotPresent => EnvErrorView::NotPresent,
            EnvError::NotUnicode(bytes) => EnvErrorView::NotUnicode(bytes@),
            EnvError::NotInt(e) => EnvErrorView::NotInt(e),
        }
    }
}

#[derive(Debug)]
pub enum Error {
    /// The variable `key` holds a value that cannot be used.
    Env { key: String, source: EnvError },
}

pub struct ErrorView {
    pub key: Seq<char>,
    pub source: EnvErrorView,
}

impl View for Error {
    type V = ErrorView;

    open spec fn view(&self) -> ErrorView {
        match *self {
            Error::Env { key, source } => ErrorView { key: key@, source: source@ },
        }
    }
}

/// The number of at most `max` that a variable holds.
pub open spec fn variable_number(value: Option<Seq<u8>>, max: nat) -> Result<nat, EnvErrorView> {
    match value {
        None => Err(EnvErrorView::NotPresent),
        Some(bytes) => if !valid_utf8(bytes) {
            Err(EnvErrorView::NotUnicode(bytes))
        } else {
            match parse_decimal(bytes, max) {
                Ok(n) => Ok(n),
                Err(e) => Err(EnvErrorView::NotInt(e)),
            }
        },
    }
}

/// Whether the descriptors are meant for the process `pid`: they are where
/// `LISTEN_PID` is not set, and where it holds `pid`.
pub open spec fn meant_for(listen_pid: Option<Seq<u8>>, pid: u32) -> Result<bool, EnvErrorView> {
    match variable_number(listen_pid, u32::MAX as nat) {
        Ok(n) => Ok(n == pid),
        Err(EnvErrorView::NotPresent) => Ok(true),
        Err(e) => Err(e),
    }
}

/// The largest number of descriptors that can follow `start`.
pub open spec fn max_count(start: int) -> nat {
    (i32::MAX - start) as nat
}

/// The roster that the three variables describe to the process `pid`.
///
/// `LISTEN_PID` is judged first. Descriptors that are meant for another
/// process are none of ours: the roster is empty, whatever the other
/// variables hold. It is empty too where `LISTEN_FDS` is not set.
pub open spec fn activation(
    listen_pid: Option<Seq<u8>>,
    listen_fds: Option<Seq<u8>>,
    listen_fdnames: Option<Seq<u8>>,
    pid: u32,
    start: int,
) -> Result<Seq<EntryView>, ErrorView> {
    match meant_for(listen_pid, pid) {
        Err(e) => Err(ErrorView { key: LISTEN_PID@, source: e }),
        Ok(false) => Ok(Seq::empty()),
        Ok(true) => match variable_number(listen_fds, max_count(start)) {
            Err(EnvErrorView::NotPresent) => Ok(Seq::empty()),
            Err(e) => Err(ErrorView { key: LISTEN_FDS@, source: e }),
            Ok(count) => Ok(
                entries(
                    start,
                    count,
                    match listen_fdnames {
                        Some(names) => names,
                        None => Seq::empty(),
                    },
                ),
            ),
        },
    }
}

/// The size of the roster.
///
/// Where the descriptors are meant for the process and `LISTEN_FDS` holds
/// the number `n`, the roster has `n` entries, numbered from `start`
/// upwards. And a roster that holds `n` entries, one at least, comes
/// about in no other way.
pub proof fn lemma_roster_size(
    listen_pid: Option<Seq<u8>>,
    listen_fds: Option<Seq<u8>>,
    listen_fdnames: Option<Seq<u8>>,
    pid: u32,
    start: int,
    n: nat,
)
    ensures
        (meant_for(listen_pid, pid) == Ok::<bool, EnvErrorView>(true) && variable_number(
            listen_fds,
            max_count(start),
        ) == Ok::<nat, EnvErrorView>(n)) ==> (activation(
            listen_pid,
            listen_fds,
            listen_fdnames,
            pid,
            start,
        ) matches Ok(roster) && roster.len() == n && forall|i: int|
            0 <= i < n ==> (#[trigger] roster[i]).fd == start + i),
        (n > 0 && (activation(listen_pid, listen_fds, listen_fdnames, pid, start) matches Ok(
            roster,
        ) && roster.len() == n)) ==> (meant_for(listen_pid, pid) == Ok::<bool, EnvErrorView>(true)
            && variable_number(listen_fds, max_count(start)) == Ok::<nat, EnvErrorView>(n)),
{
}

/// Reads the number of at most `max` that a variable holds.
fn read_variable(value: &Option<Vec<u8>>, max: u64) -> (r: Result<u64, EnvError>)
    ensures
        match variable_number(opt_bytes(*value), max as nat) {
            Ok(n) => r matches Ok(got) && got == n && got <= max,
            Err(e) => r matches Err(got) && got@ == e,
        },
{
    match value {
        None => Err(EnvError::NotPresent),
        Some(bytes) => {
            if !is_utf8(bytes.as_slice()) {
                return Err(EnvError::NotUnicode(slice_to_vec(bytes.as_slice())));
            }
            match read_decimal(bytes.as_slice(), max) {
                Ok(n) => Ok(n),
                Err(e) => Err(EnvError::NotInt(e)),
            }
        },
    }
}

/// Socket activation, before the environment has been looked at.
#[derive(Debug)]
pub struct SocketActivation {
    start: i32,
}

impl SocketActivation {
    #[verifier::type_invariant]
    spec fn starts_in_range(self) -> bool {
        0 <= self.start
    }

    /// Number of the first descriptor.
    pub closed spec fn start(self) -> int {
        self.start as int
    }

    pub fn new() -> (activation: SocketActivation)
        ensures
            activation.start() == LISTEN_FDS_START,
    {
        SocketActivation { start: LISTEN_FDS_START }
    }

    /// Makes the roster of what was handed over to the process `pid`.
    ///
    /// The result is what [`activation`] says of the three values: an error
    /// where `LISTEN_PID` or, if the descriptors are ours, `LISTEN_FDS` is set
    /// to something that is no number in range, and else the roster, which is
    /// empty where the descriptors are meant for another process.
    pub fn parse(self, env: Environment, pid: u32) -> (r: Result<FdIter, Error>)
        ensures
            match activation(
                opt_bytes(env.listen_pid),
                opt_bytes(env.listen_fds),
                opt_bytes(env.listen_fdnames),
                pid,
                self.start(),
            ) {
                Ok(roster) => r matches Ok(iter) && iter@ == roster,
                Err(e) => r matches Err(got) && got@ == e,
            },
    {
        proof {
            use_type_invariant(&self);
        }
        let for_us = match read_variable(&env.listen_pid, u32::MAX as u64) {
            Ok(n) => n == pid as u64,
            Err(EnvError::NotPresent) => true,
            Err(e) => {
                return Err(Error::Env { key: LISTEN_PID.to_owned(), source: e });
            },
        };
        if !for_us {
            return Ok(FdIter::empty());
        }
        let count = match read_variable(&env.listen_fds, (i32::MAX - self.start) as u64) {
            Ok(n) => n,
            Err(EnvError::NotPresent) => {
                return Ok(FdIter::empty());
            },
            Err(e) => {
                return Err(Error::Env { key: LISTEN_FDS.to_owned(), source: e });
            },
        };
        let names = match env.listen_fdnames {
            Some(names) => names,
            None => Vec::new(),
        };
        let iter = FdIter { next: self.start, count: count as usize, names, name_offset: 0 };
        assert(iter.names@.skip(0) =~= iter.names@);
        Ok(iter)
    }
}

impl Default for SocketActivation {
    fn default() -> (activation: SocketActivation)
        ensures
            activation.start() == LISTEN_FDS_START,
    {
        SocketActivation::new()
    }
}

} // verus!
