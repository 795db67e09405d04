//! The wire format: little-endian, fixed-width integers; sequences, strings
//! and byte vectors behind a 64-bit length; a 32-bit discriminant in front of
//! an enum's payload; one tag byte in front of an optional value. A descriptor
//! contributes no payload byte: it takes the next place in the packet's
//! descriptor list.

use vstd::prelude::*;
use vstd::utf8::*;

verus! {

/// What one message puts on a socket: the payload bytes, and the descriptors
/// for the ancillary data, both in field order.
#[verifier::ext_equal]
pub struct Packet {
    pub bytes: Seq<u8>,
    pub fds: Seq<i32>,
}

impl Packet {
    pub open spec fn empty() -> Packet {
        Packet { bytes: Seq::empty(), fds: Seq::empty() }
    }

    pub open spec fn of_bytes(bytes: Seq<u8>) -> Packet {
        Packet { bytes, fds: Seq::empty() }
    }

    pub open spec fn of_fd(fd: i32) -> Packet {
        Packet { bytes: Seq::empty(), fds: seq![fd] }
    }

    /// `self` followed by `next`.
    pub open spec fn followed_by(self, next: Packet) -> Packet {
        Packet { bytes: self.bytes + next.bytes, fds: self.fds + next.fds }
    }

    /// `self` with `bytes` in front of its payload.
    pub open spec fn after_bytes(self, bytes: Seq<u8>) -> Packet {
        Packet { bytes: bytes + self.bytes, fds: self.fds }
    }

    /// `self` with `fd` in front of its descriptors.
    pub open spec fn after_fd(self, fd: i32) -> Packet {
        Packet { bytes: self.bytes, fds: seq![fd] + self.fds }
    }

    /// `self` without its first `n` payload bytes.
    pub open spec fn skip_bytes(self, n: int) -> Packet {
        Packet { bytes: self.bytes.skip(n), fds: self.fds }
    }

    /// `self` without its first descriptor.
    pub open spec fn skip_fd(self) -> Packet {
        Packet { bytes: self.bytes, fds: self.fds.skip(1) }
    }
}

/// Why a packet is not the encoding of a value.
#[derive(Debug, Clone, Copy, PartialEq, Eq, Structural)]
pub enum DecodeError {
    /// The payload ends inside a value.
    UnexpectedEof,
    /// A discriminant, an option tag or a flag holds a value that names nothing.
    InvalidTag,
    /// A string's bytes are not UTF-8.
    InvalidUtf8,
    /// A descriptor field found the packet's descriptor list used up.
    TooFewFds,
    /// Payload bytes follow the value.
    TrailingBytes,
}

/// Result of reading one value off the front of a packet: the value and what
/// follows it, or the reason the front of the packet is no such value.
pub type Parsed<T> = Result<(T, Packet), DecodeError>;

// ---------------------------------------------------------------------------
// Integers

/// The `width` little-endian base-256 digits of `value`.
pub open spec fn le_bytes(value: nat, width: nat) -> Seq<u8>
    decreases width,
{
    if width == 0 {
        Seq::empty()
    } else {
        seq![(value % 256) as u8] + le_bytes(value / 256, (width - 1) as nat)
    }
}

/// The number whose little-endian base-256 digits are `digits`.
pub open spec fn le_value(digits: Seq<u8>) -> nat
    decreases digits.len(),
{
    if digits.len() == 0 {
        0
    } else {
        digits[0] as nat + 256 * le_value(digits.skip(1))
    }
}

/// One more than the largest number that `width` digits can hold.
pub open spec fn le_limit(width: nat) -> nat
    decreases width,
{
    if width == 0 {
        1
    } else {
        256 * le_limit((width - 1) as nat)
    }
}

pub proof fn lemma_le_bytes_len(value: nat, width: nat)
    ensures
        le_bytes(value, width).len() == width,
    decreases width,
{
    if width > 0 {
        lemma_le_bytes_len(value / 256, (width - 1) as nat);
    }
}

pub proof fn lemma_le_value_bound(digits: Seq<u8>)
    ensures
        le_value(digits) < le_limit(digits.len()),
    decreases digits.len(),
{
    if digits.len() > 0 {
        lemma_le_value_bound(digits.skip(1));
    }
}

/// Digits written for a number that fits are read back as that number.
pub proof fn lemma_le_value_of_bytes(value: nat, width: nat)
    requires
        value < le_limit(width),
    ensures
        le_value(le_bytes(value, width)) == value,
    decreases width,
{
    if width > 0 {
        let rest = le_bytes(value / 256, (width - 1) as nat);
        let all = le_bytes(value, width);
        lemma_le_bytes_len(value / 256, (width - 1) as nat);
        lemma_le_value_of_bytes(value / 256, (width - 1) as nat);
        assert(all.skip(1) =~= rest);
        assert(all[0] == (value % 256) as u8);
    }
}

/// Digits read as a number are the digits written for that number.
pub proof fn lemma_le_bytes_of_value(digits: Seq<u8>)
    ensures
        le_bytes(le_value(digits), digits.len()) == digits,
    decreases digits.len(),
{
    if digits.len() > 0 {
        let tail = digits.skip(1);
        lemma_le_bytes_of_value(tail);
        let v = le_value(digits);
        assert(v % 256 == digits[0] as nat);
        assert(v / 256 == le_value(tail));
        assert(le_bytes(v, digits.len()) =~= digits);
    } else {
        assert(le_bytes(le_value(digits), digits.len()) =~= digits);
    }
}

pub proof fn lemma_le_limits()
    ensures
        le_limit(1) == 0x100,
        le_limit(4) == 0x1_0000_0000,
        le_limit(8) == 0x1_0000_0000_0000_0000,
{
    reveal_with_fuel(le_limit, 9);
}

pub open spec fn enc_u8(value: u8) -> Seq<u8> {
    seq![value]
}

pub open spec fn enc_u32(value: u32) -> Seq<u8> {
    le_bytes(value as nat, 4)
}

pub open spec fn enc_u64(value: u64) -> Seq<u8> {
    le_bytes(value as nat, 8)
}

pub open spec fn parse_u8(input: Packet) -> Parsed<u8> {
    if input.bytes.len() < 1 {
        Err(DecodeError::UnexpectedEof)
    } else {
        Ok((input.bytes[0], input.skip_bytes(1)))
    }
}

pub open spec fn parse_u32(input: Packet) -> Parsed<u32> {
    if input.bytes.len() < 4 {
        Err(DecodeError::UnexpectedEof)
    } else {
        Ok((le_value(input.bytes.take(4)) as u32, input.skip_bytes(4)))
    }
}

pub open spec fn parse_u64(input: Packet) -> Parsed<u64> {
    if input.bytes.len() < 8 {
        Err(DecodeError::UnexpectedEof)
    } else {
        Ok((le_value(input.bytes.take(8)) as u64, input.skip_bytes(8)))
    }
}

// ---------------------------------------------------------------------------
// Byte vectors, strings, fixed arrays

/// A byte vector: its length in 64 bits, then the bytes.
pub open spec fn enc_bytes(data: Seq<u8>) -> Seq<u8> {
    le_bytes(data.len(), 8) + data
}

/// A string: its UTF-8 form as a byte vector.
#[verifier::opaque]
pub open spec fn enc_str(text: Seq<char>) -> Seq<u8> {
    enc_bytes(encode_utf8(text))
}

/// `width` bytes with no length in front of them.
pub open spec fn parse_array(input: Packet, width: nat) -> Parsed<Seq<u8>> {
    if input.bytes.len() < width {
        Err(DecodeError::UnexpectedEof)
    } else {
        Ok((input.bytes.take(width as int), input.skip_bytes(width as int)))
    }
}

pub open spec fn parse_bytes(input: Packet) -> Parsed<Seq<u8>> {
    match parse_u64(input) {
        Err(e) => Err(e),
        Ok((len, rest)) => parse_array(rest, len as nat),
    }
}

#[verifier::opaque]
pub open spec fn parse_str(input: Packet) -> Parsed<Seq<char>> {
    match parse_bytes(input) {
        Err(e) => Err(e),
        Ok((data, rest)) => if valid_utf8(data) {
            Ok((decode_utf8(data), rest))
        } else {
            Err(DecodeError::InvalidUtf8)
        },
    }
}

// ---------------------------------------------------------------------------
// Tags

/// A flag: one byte, 0 or 1.
pub open spec fn enc_flag(flag: bool) -> Seq<u8> {
    seq![if flag { 1u8 } else { 0u8 }]
}

pub open spec fn parse_flag(input: Packet) -> Parsed<bool> {
    match parse_u8(input) {
        Err(e) => Err(e),
        Ok((tag, rest)) => if tag == 0 {
            Ok((false, rest))
        } else if tag == 1 {
            Ok((true, rest))
        } else {
            Err(DecodeError::InvalidTag)
        },
    }
}

/// The discriminant of an enum with `variants` variants.
pub open spec fn parse_variant(input: Packet, variants: u32) -> Parsed<u32> {
    match parse_u32(input) {
        Err(e) => Err(e),
        Ok((index, rest)) => if index < variants {
            Ok((index, rest))
        } else {
            Err(DecodeError::InvalidTag)
        },
    }
}

// ---------------------------------------------------------------------------
// Optional strings, lists of strings

#[verifier::opaque]
pub open spec fn enc_opt_str(value: Option<Seq<char>>) -> Seq<u8> {
    match value {
        None => enc_flag(false),
        Some(text) => enc_flag(true) + enc_str(text),
    }
}

#[verifier::opaque]
pub open spec fn parse_opt_str(input: Packet) -> Parsed<Option<Seq<char>>> {
    match parse_flag(input) {
        Err(e) => Err(e),
        Ok((present, rest)) => if present {
            match parse_str(rest) {
                Err(e) => Err(e),
                Ok((text, after)) => Ok((Some(text), after)),
            }
        } else {
            Ok((None, rest))
        },
    }
}

/// The strings of a list, one after the other.
pub open spec fn enc_str_items(items: Seq<Seq<char>>) -> Seq<u8>
    decreases items.len(),
{
    if items.len() == 0 {
        Seq::empty()
    } else {
        enc_str(items[0]) + enc_str_items(items.skip(1))
    }
}

/// A list of strings: the number of strings in 64 bits, then the strings.
#[verifier::opaque]
pub open spec fn enc_strs(items: Seq<Seq<char>>) -> Seq<u8> {
    le_bytes(items.len(), 8) + enc_str_items(items)
}

pub open spec fn parse_str_items(input: Packet, count: nat) -> Parsed<Seq<Seq<char>>>
    decreases count,
{
    if count == 0 {
        Ok((Seq::empty(), input))
    } else {
        match parse_str(input) {
            Err(e) => Err(e),
            Ok((text, rest)) => match parse_str_items(rest, (count - 1) as nat) {
                Err(e) => Err(e),
                Ok((more, after)) => Ok((seq![text] + more, after)),
            },
        }
    }
}

/// `head` in front of the strings that `parsed` holds.
pub open spec fn prepend_items(head: Seq<Seq<char>>, parsed: Parsed<Seq<Seq<char>>>) -> Parsed<
    Seq<Seq<char>>,
> {
    match parsed {
        Ok((more, rest)) => Ok((head + more, rest)),
        Err(e) => Err(e),
    }
}

#[verifier::opaque]
pub open spec fn parse_strs(input: Packet) -> Parsed<Seq<Seq<char>>> {
    match parse_u64(input) {
        Err(e) => Err(e),
        Ok((count, rest)) => parse_str_items(rest, count as nat),
    }
}

#[verifier::opaque]
pub open spec fn enc_opt_strs(value: Option<Seq<Seq<char>>>) -> Seq<u8> {
    match value {
        None => enc_flag(false),
        Some(items) => enc_flag(true) + enc_strs(items),
    }
}

#[verifier::opaque]
pub open spec fn parse_opt_strs(input: Packet) -> Parsed<Option<Seq<Seq<char>>>> {
    match parse_flag(input) {
        Err(e) => Err(e),
        Ok((present, rest)) => if present {
            match parse_strs(rest) {
                Err(e) => Err(e),
                Ok((items, after)) => Ok((Some(items), after)),
            }
        } else {
            Ok((None, rest))
        },
    }
}

// ---------------------------------------------------------------------------
// Descriptors

/// A descriptor field: no payload byte, the next descriptor of the packet.
pub open spec fn parse_fd(input: Packet) -> Parsed<i32> {
    if input.fds.len() < 1 {
        Err(DecodeError::TooFewFds)
    } else {
        Ok((input.fds[0], input.skip_fd()))
    }
}

// ---------------------------------------------------------------------------
// What is written is read back, and nothing else is.

pub proof fn lemma_parse_u8_written(value: u8, rest: Packet)
    ensures
        parse_u8(rest.after_bytes(enc_u8(value))) == Ok::<(u8, Packet), DecodeError>((value, rest)),
{
    let input = rest.after_bytes(enc_u8(value));
    assert(input.skip_bytes(1) =~= rest);
}

pub proof fn lemma_parse_u8_read(input: Packet)
    ensures
        parse_u8(input) matches Ok((value, rest)) ==> input == rest.after_bytes(enc_u8(value)),
{
    if let Ok((value, rest)) = parse_u8(input) {
        assert(input =~= rest.after_bytes(enc_u8(value)));
    }
}

pub proof fn lemma_parse_u32_written(value: u32, rest: Packet)
    ensures
        parse_u32(rest.after_bytes(enc_u32(value))) == Ok::<(u32, Packet), DecodeError>((value, rest)),
{
    let input = rest.after_bytes(enc_u32(value));
    lemma_le_bytes_len(value as nat, 4);
    lemma_le_limits();
    lemma_le_value_of_bytes(value as nat, 4);
    assert(input.bytes.take(4) =~= enc_u32(value));
    assert(input.skip_bytes(4) =~= rest);
}

pub proof fn lemma_parse_u32_read(input: Packet)
    ensures
        parse_u32(input) matches Ok((value, rest)) ==> input == rest.after_bytes(enc_u32(value)),
{
    if let Ok((value, rest)) = parse_u32(input) {
        let digits = input.bytes.take(4);
        lemma_le_value_bound(digits);
        lemma_le_limits();
        lemma_le_bytes_of_value(digits);
        assert(input =~= rest.after_bytes(enc_u32(value)));
    }
}

pub proof fn lemma_parse_u64_written(value: u64, rest: Packet)
    ensures
        parse_u64(rest.after_bytes(enc_u64(value))) == Ok::<(u64, Packet), DecodeError>((value, rest)),
{
    let input = rest.after_bytes(enc_u64(value));
    lemma_le_bytes_len(value as nat, 8);
    lemma_le_limits();
    lemma_le_value_of_bytes(value as nat, 8);
    assert(input.bytes.take(8) =~= enc_u64(value));
    assert(input.skip_bytes(8) =~= rest);
}

pub proof fn lemma_parse_u64_read(input: Packet)
    ensures
        parse_u64(input) matches Ok((value, rest)) ==> input == rest.after_bytes(enc_u64(value)),
{
    if let Ok((value, rest)) = parse_u64(input) {
        let digits = input.bytes.take(8);
        lemma_le_value_bound(digits);
        lemma_le_limits();
        lemma_le_bytes_of_value(digits);
        assert(input =~= rest.after_bytes(enc_u64(value)));
    }
}

pub proof fn lemma_parse_array_written(data: Seq<u8>, rest: Packet)
    ensures
        parse_array(rest.after_bytes(data), data.len()) == Ok::<(Seq<u8>, Packet), DecodeError>(
            (data, rest),
        ),
{
    let input = rest.after_bytes(data);
    assert(input.bytes.take(data.len() as int) =~= data);
    assert(input.skip_bytes(data.len() as int) =~= rest);
}

pub proof fn lemma_parse_array_read(input: Packet, width: nat)
    ensures
        parse_array(input, width) matches Ok((data, rest)) ==> data.len() == width && input
            == rest.after_bytes(data),
{
    if let Ok((data, rest)) = parse_array(input, width) {
        assert(input =~= rest.after_bytes(data));
    }
}

pub proof fn lemma_parse_bytes_written(data: Seq<u8>, rest: Packet)
    requires
        data.len() <= u64::MAX,
    ensures
        parse_bytes(rest.after_bytes(enc_bytes(data))) == Ok::<(Seq<u8>, Packet), DecodeError>(
            (data, rest),
        ),
{
    let input = rest.after_bytes(enc_bytes(data));
    let middle = rest.after_bytes(data);
    assert(input =~= middle.after_bytes(enc_u64(data.len() as u64)));
    lemma_parse_u64_written(data.len() as u64, middle);
    lemma_parse_array_written(data, rest);
}

pub proof fn lemma_parse_bytes_read(input: Packet)
    ensures
        parse_bytes(input) matches Ok((data, rest)) ==> data.len() <= u64::MAX && input
            == rest.after_bytes(enc_bytes(data)),
{
    if let Ok((data, rest)) = parse_bytes(input) {
        lemma_parse_u64_read(input);
        let middle = parse_u64(input)->Ok_0.1;
        lemma_parse_array_read(middle, parse_u64(input)->Ok_0.0 as nat);
        assert(input =~= rest.after_bytes(enc_bytes(data)));
    }
}

pub proof fn lemma_parse_str_written(text: Seq<char>, rest: Packet)
    requires
        encode_utf8(text).len() <= u64::MAX,
    ensures
        parse_str(rest.after_bytes(enc_str(text))) == Ok::<(Seq<char>, Packet), DecodeError>(
            (text, rest),
        ),
{
    reveal(enc_str);
    reveal(parse_str);
    lemma_parse_bytes_written(encode_utf8(text), rest);
    encode_utf8_valid_utf8(text);
    encode_utf8_decode_utf8(text);
}

pub proof fn lemma_parse_str_read(input: Packet)
    ensures
        parse_str(input) matches Ok((text, rest)) ==> encode_utf8(text).len() <= u64::MAX && input
            == rest.after_bytes(enc_str(text)),
{
    reveal(enc_str);
    reveal(parse_str);
    if let Ok((text, rest)) = parse_str(input) {
        lemma_parse_bytes_read(input);
        let data = parse_bytes(input)->Ok_0.0;
        decode_utf8_encode_utf8(data);
    }
}

pub proof fn lemma_parse_flag_written(flag: bool, rest: Packet)
    ensures
        parse_flag(rest.after_bytes(enc_flag(flag))) == Ok::<(bool, Packet), DecodeError>(
            (flag, rest),
        ),
{
    lemma_parse_u8_written(if flag { 1u8 } else { 0u8 }, rest);
}

pub proof fn lemma_parse_flag_read(input: Packet)
    ensures
        parse_flag(input) matches Ok((flag, rest)) ==> input == rest.after_bytes(enc_flag(flag)),
{
    lemma_parse_u8_read(input);
}

pub proof fn lemma_parse_variant_written(index: u32, variants: u32, rest: Packet)
    requires
        index < variants,
    ensures
        parse_variant(rest.after_bytes(enc_u32(index)), variants) == Ok::<
            (u32, Packet),
            DecodeError,
        >((index, rest)),
{
    lemma_parse_u32_written(index, rest);
}

pub proof fn lemma_parse_variant_read(input: Packet, variants: u32)
    ensures
        parse_variant(input, variants) matches Ok((index, rest)) ==> index < variants && input
            == rest.after_bytes(enc_u32(index)),
{
    lemma_parse_u32_read(input);
}

pub proof fn lemma_parse_fd_written(fd: i32, rest: Packet)
    ensures
        parse_fd(rest.after_fd(fd)) == Ok::<(i32, Packet), DecodeError>((fd, rest)),
{
    assert(rest.after_fd(fd).skip_fd() =~= rest);
}

pub proof fn lemma_parse_fd_read(input: Packet)
    ensures
        parse_fd(input) matches Ok((fd, rest)) ==> input == rest.after_fd(fd),
{
    if let Ok((fd, rest)) = parse_fd(input) {
        assert(input =~= rest.after_fd(fd));
    }
}

pub proof fn lemma_parse_opt_str_written(value: Option<Seq<char>>, rest: Packet)
    requires
        value matches Some(text) ==> encode_utf8(text).len() <= u64::MAX,
    ensures
        parse_opt_str(rest.after_bytes(enc_opt_str(value))) == Ok::<
            (Option<Seq<char>>, Packet),
            DecodeError,
        >((value, rest)),
{
    reveal(enc_opt_str);
    reveal(parse_opt_str);
    match value {
        None => {
            lemma_parse_flag_written(false, rest);
        },
        Some(text) => {
            let middle = rest.after_bytes(enc_str(text));
            assert(rest.after_bytes(enc_opt_str(value)) =~= middle.after_bytes(enc_flag(true)));
            lemma_parse_flag_written(true, middle);
            lemma_parse_str_written(text, rest);
        },
    }
}

pub proof fn lemma_parse_opt_str_read(input: Packet)
    ensures
        parse_opt_str(input) matches Ok((value, rest)) ==> input == rest.after_bytes(
            enc_opt_str(value),
        ) && (value matches Some(text) ==> encode_utf8(text).len() <= u64::MAX),
{
    reveal(enc_opt_str);
    reveal(parse_opt_str);
    if let Ok((value, rest)) = parse_opt_str(input) {
        lemma_parse_flag_read(input);
        let middle = parse_flag(input)->Ok_0.1;
        if let Some(text) = value {
            lemma_parse_str_read(middle);
            assert(input =~= rest.after_bytes(enc_opt_str(value)));
        }
    }
}

/// Every string of `items` has a UTF-8 form whose length fits in 64 bits.
pub open spec fn strs_fit(items: Seq<Seq<char>>) -> bool {
    forall|i: int| 0 <= i < items.len() ==> encode_utf8(#[trigger] items[i]).len() <= u64::MAX
}

/// A string's encoding is eight bytes longer than its UTF-8 form.
pub proof fn lemma_enc_str_len(text: Seq<char>)
    ensures
        enc_str(text).len() == 8 + encode_utf8(text).len(),
{
    reveal(enc_str);
    lemma_le_bytes_len(encode_utf8(text).len(), 8);
}

/// An optional string whose encoding has a length that fits in 64 bits is,
/// where there is one, a string that fits.
pub proof fn lemma_opt_str_fits(value: Option<Seq<char>>)
    requires
        enc_opt_str(value).len() <= u64::MAX,
    ensures
        value matches Some(text) ==> encode_utf8(text).len() <= u64::MAX,
{
    reveal(enc_opt_str);
    if let Some(text) = value {
        lemma_enc_str_len(text);
    }
}

/// An optional list whose encoding has a length that fits in 64 bits is,
/// where there is one, a list that fits and holds strings that fit.
pub proof fn lemma_opt_strs_fit(value: Option<Seq<Seq<char>>>)
    requires
        enc_opt_strs(value).len() <= u64::MAX,
    ensures
        value matches Some(items) ==> items.len() <= u64::MAX && strs_fit(items),
{
    reveal(enc_opt_strs);
    if let Some(items) = value {
        lemma_strs_fit(items);
    }
}

/// A list's encoding is at least as long as each of its strings, and holds
/// at least eight bytes for each.
pub proof fn lemma_enc_str_items_len(items: Seq<Seq<char>>)
    ensures
        8 * items.len() <= enc_str_items(items).len(),
        forall|i: int|
            0 <= i < items.len() ==> encode_utf8(#[trigger] items[i]).len() <= enc_str_items(
                items,
            ).len(),
    decreases items.len(),
{
    reveal(enc_str);
    if items.len() > 0 {
        let tail = items.skip(1);
        lemma_enc_str_items_len(tail);
        lemma_le_bytes_len(encode_utf8(items[0]).len(), 8);
        assert forall|i: int| 0 <= i < items.len() implies encode_utf8(#[trigger] items[i]).len()
            <= enc_str_items(items).len() by {
            if i > 0 {
                assert(items[i] == tail[i - 1]);
            }
        }
    }
}

/// A list whose encoding fits in 64 bits of length holds strings that fit.
pub proof fn lemma_strs_fit(items: Seq<Seq<char>>)
    requires
        enc_strs(items).len() <= u64::MAX,
    ensures
        items.len() <= u64::MAX,
        strs_fit(items),
{
    reveal(enc_strs);
    lemma_enc_str_items_len(items);
}

/// One more string at the end of a list adds its encoding at the end.
pub proof fn lemma_enc_str_items_push(items: Seq<Seq<char>>, last: Seq<char>)
    ensures
        enc_str_items(items.push(last)) == enc_str_items(items) + enc_str(last),
    decreases items.len(),
{
    let all = items.push(last);
    if items.len() == 0 {
        assert(all.skip(1) =~= Seq::<Seq<char>>::empty());
        assert(enc_str_items(all.skip(1)) =~= Seq::<u8>::empty());
        assert(enc_str_items(all) =~= enc_str_items(items) + enc_str(last));
    } else {
        assert(all.skip(1) =~= items.skip(1).push(last));
        lemma_enc_str_items_push(items.skip(1), last);
        assert(enc_str_items(all) =~= enc_str_items(items) + enc_str(last));
    }
}

pub proof fn lemma_parse_str_items_written(items: Seq<Seq<char>>, rest: Packet)
    requires
        strs_fit(items),
    ensures
        parse_str_items(rest.after_bytes(enc_str_items(items)), items.len()) == Ok::<
            (Seq<Seq<char>>, Packet),
            DecodeError,
        >((items, rest)),
    decreases items.len(),
{
    if items.len() == 0 {
        assert(rest.after_bytes(enc_str_items(items)) =~= rest);
        assert(items =~= Seq::empty());
    } else {
        let tail = items.skip(1);
        let middle = rest.after_bytes(enc_str_items(tail));
        assert(rest.after_bytes(enc_str_items(items)) =~= middle.after_bytes(enc_str(items[0])));
        lemma_parse_str_written(items[0], middle);
        assert forall|i: int| 0 <= i < tail.len() implies encode_utf8(#[trigger] tail[i]).len()
            <= u64::MAX by {
            assert(tail[i] == items[i + 1]);
        }
        lemma_parse_str_items_written(tail, rest);
        assert(seq![items[0]] + tail =~= items);
    }
}

pub proof fn lemma_parse_str_items_read(input: Packet, count: nat)
    ensures
        parse_str_items(input, count) matches Ok((items, rest)) ==> items.len() == count
            && strs_fit(items) && input == rest.after_bytes(enc_str_items(items)),
    decreases count,
{
    if let Ok((items, rest)) = parse_str_items(input, count) {
        if count == 0 {
            assert(input =~= rest.after_bytes(enc_str_items(items)));
        } else {
            lemma_parse_str_read(input);
            let (text, middle) = parse_str(input)->Ok_0;
            lemma_parse_str_items_read(middle, (count - 1) as nat);
            let more = parse_str_items(middle, (count - 1) as nat)->Ok_0.0;
            assert(items.skip(1) =~= more);
            assert(items[0] == text);
            assert(input =~= rest.after_bytes(enc_str_items(items)));
            assert forall|i: int| 0 <= i < items.len() implies encode_utf8(
                #[trigger] items[i],
            ).len() <= u64::MAX by {
                if i > 0 {
                    assert(items[i] == more[i - 1]);
                }
            }
        }
    }
}

pub proof fn lemma_parse_strs_written(items: Seq<Seq<char>>, rest: Packet)
    requires
        items.len() <= u64::MAX,
        strs_fit(items),
    ensures
        parse_strs(rest.after_bytes(enc_strs(items))) == Ok::<
            (Seq<Seq<char>>, Packet),
            DecodeError,
        >((items, rest)),
{
    reveal(enc_strs);
    reveal(parse_strs);
    let middle = rest.after_bytes(enc_str_items(items));
    assert(rest.after_bytes(enc_strs(items)) =~= middle.after_bytes(
        enc_u64(items.len() as u64),
    ));
    lemma_parse_u64_written(items.len() as u64, middle);
    lemma_parse_str_items_written(items, rest);
}

pub proof fn lemma_parse_strs_read(input: Packet)
    ensures
        parse_strs(input) matches Ok((items, rest)) ==> items.len() <= u64::MAX && strs_fit(items)
            && input == rest.after_bytes(enc_strs(items)),
{
    reveal(enc_strs);
    reveal(parse_strs);
    if let Ok((items, rest)) = parse_strs(input) {
        lemma_parse_u64_read(input);
        let (count, middle) = parse_u64(input)->Ok_0;
        lemma_parse_str_items_read(middle, count as nat);
        assert(input =~= rest.after_bytes(enc_strs(items)));
    }
}

pub proof fn lemma_parse_opt_strs_written(value: Option<Seq<Seq<char>>>, rest: Packet)
    requires
        value matches Some(items) ==> items.len() <= u64::MAX && strs_fit(items),
    ensures
        parse_opt_strs(rest.after_bytes(enc_opt_strs(value))) == Ok::<
            (Option<Seq<Seq<char>>>, Packet),
            DecodeError,
        >((value, rest)),
{
    reveal(enc_opt_strs);
    reveal(parse_opt_strs);
    match value {
        None => {
            lemma_parse_flag_written(false, rest);
        },
        Some(items) => {
            let middle = rest.after_bytes(enc_strs(items));
            assert(rest.after_bytes(enc_opt_strs(value)) =~= middle.after_bytes(enc_flag(true)));
            lemma_parse_flag_written(true, middle);
            lemma_parse_strs_written(items, rest);
        },
    }
}

pub proof fn lemma_parse_opt_strs_read(input: Packet)
    ensures
        parse_opt_strs(input) matches Ok((value, rest)) ==> input == rest.after_bytes(
            enc_opt_strs(value),
        ) && (value matches Some(items) ==> items.len() <= u64::MAX && strs_fit(items)),
{
    reveal(enc_opt_strs);
    reveal(parse_opt_strs);
    if let Ok((value, rest)) = parse_opt_strs(input) {
        lemma_parse_flag_read(input);
        let middle = parse_flag(input)->Ok_0.1;
        if let Some(items) = value {
            lemma_parse_strs_read(middle);
            assert(input =~= rest.after_bytes(enc_opt_strs(value)));
        }
    }
}

} // verus!
