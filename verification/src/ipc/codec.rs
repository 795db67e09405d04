//! Writing values into a packet and reading them off one, byte for byte as
//! the wire format says.

use vstd::prelude::*;
use vstd::slice::*;
use vstd::utf8::*;

use crate::ipc::wire::{
    enc_bytes, enc_flag, enc_opt_str, enc_opt_strs, enc_str, enc_str_items, enc_strs, enc_u32,
    enc_u64, enc_u8, le_bytes, le_limit, le_value, lemma_enc_str_items_push, lemma_le_limits,
    lemma_le_value_bound, parse_array, parse_bytes, parse_fd, parse_flag, parse_opt_str,
    parse_opt_strs, parse_str, parse_str_items, parse_strs, parse_u32, parse_u64, parse_u8,
    parse_variant, prepend_items, DecodeError, Packet, Parsed,
};

verus! {

/// The texts of a list of strings.
pub open spec fn texts(items: Seq<String>) -> Seq<Seq<char>> {
    Seq::new(items.len(), |i: int| items[i]@)
}

/// The text of an optional string.
pub open spec fn opt_text(value: Option<String>) -> Option<Seq<char>> {
    match value {
        Some(s) => Some(s@),
        None => None,
    }
}

/// The texts of an optional list of strings.
pub open spec fn opt_texts(value: Option<Vec<String>>) -> Option<Seq<Seq<char>>> {
    match value {
        Some(v) => Some(texts(v@)),
        None => None,
    }
}

/// `got`, with the packet `after` left behind it, is what `expected` says of
/// the packet that was read: the same value and the same rest, or the same
/// error.
pub open spec fn reads<T>(got: Result<T, DecodeError>, after: Packet, expected: Parsed<T>) -> bool {
    match expected {
        Ok((value, rest)) => got == Ok::<T, DecodeError>(value) && after == rest,
        Err(e) => got == Err::<T, DecodeError>(e),
    }
}

/// As [`reads`], for a value that is known by its view.
pub open spec fn reads_as<T: View>(
    got: Result<T, DecodeError>,
    after: Packet,
    expected: Parsed<T::V>,
) -> bool {
    match expected {
        Ok((value, rest)) => (got matches Ok(x) && x@ == value) && after == rest,
        Err(e) => got == Err::<T, DecodeError>(e),
    }
}

/// As [`reads`], for an optional string.
pub open spec fn reads_opt_text(
    got: Result<Option<String>, DecodeError>,
    after: Packet,
    expected: Parsed<Option<Seq<char>>>,
) -> bool {
    match expected {
        Ok((value, rest)) => (got matches Ok(x) && opt_text(x) == value) && after == rest,
        Err(e) => got == Err::<Option<String>, DecodeError>(e),
    }
}

/// As [`reads`], for a list of strings.
pub open spec fn reads_texts(
    got: Result<Vec<String>, DecodeError>,
    after: Packet,
    expected: Parsed<Seq<Seq<char>>>,
) -> bool {
    match expected {
        Ok((value, rest)) => (got matches Ok(x) && texts(x@) == value) && after == rest,
        Err(e) => got == Err::<Vec<String>, DecodeError>(e),
    }
}

/// As [`reads`], for an optional list of strings.
pub open spec fn reads_opt_texts(
    got: Result<Option<Vec<String>>, DecodeError>,
    after: Packet,
    expected: Parsed<Option<Seq<Seq<char>>>>,
) -> bool {
    match expected {
        Ok((value, rest)) => (got matches Ok(x) && opt_texts(x) == value) && after == rest,
        Err(e) => got == Err::<Option<Vec<String>>, DecodeError>(e),
    }
}

/// Appends the `width` little-endian digits of `value`.
fn push_le(out: &mut Vec<u8>, value: u64, width: usize)
    ensures
        final(out)@ == old(out)@ + le_bytes(value as nat, width as nat),
    decreases width,
{
    if width == 0 {
        assert(out@ =~= old(out)@ + le_bytes(value as nat, 0));
    } else {
        out.push((value % 256) as u8);
        push_le(out, value / 256, width - 1);
        assert(out@ =~= old(out)@ + le_bytes(value as nat, width as nat));
    }
}

/// The number whose little-endian digits are the `width` bytes at `at`.
fn read_le(bytes: &[u8], at: usize, width: usize) -> (value: u64)
    requires
        width <= 8,
        at + width <= bytes@.len() <= usize::MAX,
    ensures
        value == le_value(bytes@.subrange(at as int, at + width)),
    decreases width,
{
    let ghost digits = bytes@.subrange(at as int, at + width);
    if width == 0 {
        0
    } else {
        let high = read_le(bytes, at + 1, width - 1);
        proof {
            assert(digits.skip(1) =~= bytes@.subrange(at + 1, at + width));
            lemma_le_value_bound(digits.skip(1));
            reveal_with_fuel(le_limit, 9);
        }
        bytes[at] as u64 + 256 * high
    }
}

/// `String::from_utf8` of std: the bytes become a string exactly when they
/// are UTF-8, and the string is then made of those very bytes.
#[verifier::external_body]
pub(crate) fn string_from_utf8(bytes: Vec<u8>) -> (r: Option<String>)
    ensures
        r is Some <==> valid_utf8(bytes@),
        r matches Some(s) ==> encode_utf8(s@) == bytes@,
{
    String::from_utf8(bytes).ok()
}

/// Whether two byte strings are the same.
pub fn same_bytes(a: &[u8], b: &[u8]) -> (same: bool)
    ensures
        same == (a@ == b@),
{
    if a.len() != b.len() {
        return false;
    }
    let mut i: usize = 0;
    let mut same = true;
    assert(a@.take(0) =~= b@.take(0));
    while i < a.len()
        invariant
            i <= a@.len(),
            a@.len() == b@.len(),
            same == (a@.take(i as int) == b@.take(i as int)),
        decreases a@.len() - i,
    {
        if a[i] != b[i] {
            same = false;
        }
        proof {
            let (x, y) = (a@.take(i + 1), b@.take(i + 1));
            assert(x.take(i as int) =~= a@.take(i as int));
            assert(y.take(i as int) =~= b@.take(i as int));
            assert(x[i as int] == a@[i as int] && y[i as int] == b@[i as int]);
            if a@.take(i as int) == b@.take(i as int) && a@[i as int] == b@[i as int] {
                assert(x =~= y);
            }
        }
        i = i + 1;
    }
    assert(a@.take(i as int) =~= a@ && b@.take(i as int) =~= b@);
    same
}

/// Whether `bytes` are UTF-8.
pub fn is_utf8(bytes: &[u8]) -> (yes: bool)
    ensures
        yes == valid_utf8(bytes@),
{
    string_from_utf8(slice_to_vec(bytes)).is_some()
}

/// A packet under construction.
pub struct Sink {
    bytes: Vec<u8>,
    fds: Vec<i32>,
}

impl View for Sink {
    type V = Packet;

    closed spec fn view(&self) -> Packet {
        Packet { bytes: self.bytes@, fds: self.fds@ }
    }
}

impl Sink {
    pub fn new() -> (sink: Sink)
        ensures
            sink@ == Packet::empty(),
    {
        let sink = Sink { bytes: Vec::new(), fds: Vec::new() };
        assert(sink@ =~= Packet::empty());
        sink
    }

    /// The packet as it stands: payload, then descriptors.
    pub fn into_parts(self) -> (parts: (Vec<u8>, Vec<i32>))
        ensures
            parts.0@ == self@.bytes,
            parts.1@ == self@.fds,
    {
        (self.bytes, self.fds)
    }

    pub fn put_u8(&mut self, value: u8)
        ensures
            final(self)@ == old(self)@.followed_by(Packet::of_bytes(enc_u8(value))),
    {
        self.bytes.push(value);
        assert(self@ =~= old(self)@.followed_by(Packet::of_bytes(enc_u8(value))));
    }

    pub fn put_u32(&mut self, value: u32)
        ensures
            final(self)@ == old(self)@.followed_by(Packet::of_bytes(enc_u32(value))),
    {
        push_le(&mut self.bytes, value as u64, 4);
        assert(self@ =~= old(self)@.followed_by(Packet::of_bytes(enc_u32(value))));
    }

    pub fn put_u64(&mut self, value: u64)
        ensures
            final(self)@ == old(self)@.followed_by(Packet::of_bytes(enc_u64(value))),
    {
        push_le(&mut self.bytes, value, 8);
        assert(self@ =~= old(self)@.followed_by(Packet::of_bytes(enc_u64(value))));
    }

    pub fn put_flag(&mut self, flag: bool)
        ensures
            final(self)@ == old(self)@.followed_by(Packet::of_bytes(enc_flag(flag))),
    {
        self.bytes.push(if flag { 1u8 } else { 0u8 });
        assert(self@ =~= old(self)@.followed_by(Packet::of_bytes(enc_flag(flag))));
    }

    /// Bytes as they are, with no length in front.
    pub fn put_raw(&mut self, data: &[u8])
        ensures
            final(self)@ == old(self)@.followed_by(Packet::of_bytes(data@)),
    {
        self.bytes.extend_from_slice(data);
        assert(self@ =~= old(self)@.followed_by(Packet::of_bytes(data@)));
    }

    pub fn put_bytes(&mut self, data: &[u8])
        ensures
            final(self)@ == old(self)@.followed_by(Packet::of_bytes(enc_bytes(data@))),
    {
        push_le(&mut self.bytes, data.len() as u64, 8);
        self.bytes.extend_from_slice(data);
        assert(self@ =~= old(self)@.followed_by(Packet::of_bytes(enc_bytes(data@))));
    }

    pub fn put_str(&mut self, text: &str)
        ensures
            final(self)@ == old(self)@.followed_by(Packet::of_bytes(enc_str(text@))),
    {
        proof {
            reveal(enc_str);
        }
        self.put_bytes(text.as_bytes());
    }

    pub fn put_opt_str(&mut self, value: &Option<String>)
        ensures
            final(self)@ == old(self)@.followed_by(Packet::of_bytes(enc_opt_str(opt_text(*value)))),
    {
        proof {
            reveal(enc_opt_str);
        }
        match value {
            None => {
                self.put_flag(false);
            },
            Some(text) => {
                self.put_flag(true);
                self.put_str(text.as_str());
                assert(self@ =~= old(self)@.followed_by(
                    Packet::of_bytes(enc_opt_str(opt_text(*value))),
                ));
            },
        }
    }

    pub fn put_strs(&mut self, items: &Vec<String>)
        ensures
            final(self)@ == old(self)@.followed_by(Packet::of_bytes(enc_strs(texts(items@)))),
    {
        proof {
            reveal(enc_strs);
        }
        let ghost all = texts(items@);
        self.put_u64(items.len() as u64);
        let mut i: usize = 0;
        assert(all.take(0) =~= Seq::<Seq<char>>::empty());
        assert(self@ =~= old(self)@.followed_by(
            Packet::of_bytes(le_bytes(all.len(), 8) + enc_str_items(all.take(0))),
        ));
        while i < items.len()
            invariant
                i <= items.len(),
                all == texts(items@),
                self@ == old(self)@.followed_by(
                    Packet::of_bytes(le_bytes(all.len(), 8) + enc_str_items(all.take(i as int))),
                ),
            decreases items.len() - i,
        {
            let ghost before = self@;
            self.put_str(items[i].as_str());
            proof {
                lemma_enc_str_items_push(all.take(i as int), all[i as int]);
                assert(all.take(i as int).push(all[i as int]) =~= all.take(i + 1));
                assert(self@ =~= old(self)@.followed_by(
                    Packet::of_bytes(le_bytes(all.len(), 8) + enc_str_items(all.take(i + 1))),
                ));
            }
            i = i + 1;
        }
        assert(all.take(i as int) =~= all);
    }

    pub fn put_opt_strs(&mut self, value: &Option<Vec<String>>)
        ensures
            final(self)@ == old(self)@.followed_by(
                Packet::of_bytes(enc_opt_strs(opt_texts(*value))),
            ),
    {
        proof {
            reveal(enc_opt_strs);
        }
        match value {
            None => {
                self.put_flag(false);
            },
            Some(items) => {
                self.put_flag(true);
                self.put_strs(items);
                assert(self@ =~= old(self)@.followed_by(
                    Packet::of_bytes(enc_opt_strs(opt_texts(*value))),
                ));
            },
        }
    }

    pub fn put_fd(&mut self, fd: i32)
        ensures
            final(self)@ == old(self)@.followed_by(Packet::of_fd(fd)),
    {
        self.fds.push(fd);
        assert(self@ =~= old(self)@.followed_by(Packet::of_fd(fd)));
    }
}

/// A received packet, read from the front.
pub struct Source<'a> {
    bytes: &'a [u8],
    at: usize,
    fds: &'a [i32],
    fd_at: usize,
}

impl<'a> View for Source<'a> {
    type V = Packet;

    /// What is still to be read.
    closed spec fn view(&self) -> Packet {
        Packet { bytes: self.bytes@.skip(self.at as int), fds: self.fds@.skip(self.fd_at as int) }
    }
}

impl<'a> Source<'a> {
    #[verifier::type_invariant]
    spec fn in_bounds(self) -> bool {
        self.at <= self.bytes@.len() && self.fd_at <= self.fds@.len()
    }

    pub fn new(bytes: &'a [u8], fds: &'a [i32]) -> (source: Source<'a>)
        ensures
            source@ == (Packet { bytes: bytes@, fds: fds@ }),
    {
        let source = Source { bytes, at: 0, fds, fd_at: 0 };
        assert(source@ =~= (Packet { bytes: bytes@, fds: fds@ }));
        source
    }

    /// Number of payload bytes still to be read.
    pub fn bytes_left(&self) -> (n: usize)
        ensures
            n == self@.bytes.len(),
    {
        proof {
            use_type_invariant(self);
        }
        self.bytes.len() - self.at
    }

    /// Number of descriptors still to be read.
    pub fn fds_left(&self) -> (n: usize)
        ensures
            n == self@.fds.len(),
    {
        proof {
            use_type_invariant(self);
        }
        self.fds.len() - self.fd_at
    }

    pub fn take_u8(&mut self) -> (r: Result<u8, DecodeError>)
        ensures
            reads(r, final(self)@, parse_u8(old(self)@)),
    {
        proof {
            use_type_invariant(&*self);
        }
        if self.bytes.len() - self.at < 1 {
            return Err(DecodeError::UnexpectedEof);
        }
        let value = self.bytes[self.at];
        self.at = self.at + 1;
        assert(self@ =~= old(self)@.skip_bytes(1));
        Ok(value)
    }

    pub fn take_u32(&mut self) -> (r: Result<u32, DecodeError>)
        ensures
            reads(r, final(self)@, parse_u32(old(self)@)),
    {
        proof {
            use_type_invariant(&*self);
        }
        if self.bytes.len() - self.at < 4 {
            return Err(DecodeError::UnexpectedEof);
        }
        let value = read_le(self.bytes, self.at, 4);
        proof {
            assert(self.bytes@.subrange(self.at as int, self.at + 4) =~= old(self)@.bytes.take(4));
            lemma_le_value_bound(old(self)@.bytes.take(4));
            lemma_le_limits();
        }
        self.at = self.at + 4;
        assert(self@ =~= old(self)@.skip_bytes(4));
        Ok(value as u32)
    }

    pub fn take_u64(&mut self) -> (r: Result<u64, DecodeError>)
        ensures
            reads(r, final(self)@, parse_u64(old(self)@)),
    {
        proof {
            use_type_invariant(&*self);
        }
        if self.bytes.len() - self.at < 8 {
            return Err(DecodeError::UnexpectedEof);
        }
        let value = read_le(self.bytes, self.at, 8);
        proof {
            assert(self.bytes@.subrange(self.at as int, self.at + 8) =~= old(self)@.bytes.take(8));
        }
        self.at = self.at + 8;
        assert(self@ =~= old(self)@.skip_bytes(8));
        Ok(value)
    }

    pub fn take_flag(&mut self) -> (r: Result<bool, DecodeError>)
        ensures
            reads(r, final(self)@, parse_flag(old(self)@)),
    {
        match self.take_u8() {
            Err(e) => Err(e),
            Ok(tag) => if tag == 0 {
                Ok(false)
            } else if tag == 1 {
                Ok(true)
            } else {
                Err(DecodeError::InvalidTag)
            },
        }
    }

    /// The discriminant of an enum with `variants` variants.
    pub fn take_variant(&mut self, variants: u32) -> (r: Result<u32, DecodeError>)
        ensures
            reads(r, final(self)@, parse_variant(old(self)@, variants)),
    {
        match self.take_u32() {
            Err(e) => Err(e),
            Ok(index) => if index < variants {
                Ok(index)
            } else {
                Err(DecodeError::InvalidTag)
            },
        }
    }

    /// `width` bytes with no length in front of them.
    pub fn take_raw(&mut self, width: usize) -> (r: Result<Vec<u8>, DecodeError>)
        ensures
            reads_as(r, final(self)@, parse_array(old(self)@, width as nat)),
    {
        proof {
            use_type_invariant(&*self);
        }
        if self.bytes.len() - self.at < width {
            return Err(DecodeError::UnexpectedEof);
        }
        let data = slice_to_vec(slice_subrange(self.bytes, self.at, self.at + width));
        assert(data@ =~= old(self)@.bytes.take(width as int));
        self.at = self.at + width;
        assert(self@ =~= old(self)@.skip_bytes(width as int));
        Ok(data)
    }

    pub fn take_bytes(&mut self) -> (r: Result<Vec<u8>, DecodeError>)
        ensures
            reads_as(r, final(self)@, parse_bytes(old(self)@)),
    {
        let len = match self.take_u64() {
            Err(e) => {
                return Err(e);
            },
            Ok(len) => len,
        };
        if len > self.bytes_left() as u64 {
            return Err(DecodeError::UnexpectedEof);
        }
        self.take_raw(len as usize)
    }

    pub fn take_str(&mut self) -> (r: Result<String, DecodeError>)
        ensures
            reads_as(r, final(self)@, parse_str(old(self)@)),
    {
        proof {
            reveal(parse_str);
        }
        match self.take_bytes() {
            Err(e) => Err(e),
            Ok(data) => match string_from_utf8(data) {
                Some(text) => {
                    proof {
                        encode_utf8_decode_utf8(text@);
                    }
                    Ok(text)
                },
                None => Err(DecodeError::InvalidUtf8),
            },
        }
    }

    pub fn take_opt_str(&mut self) -> (r: Result<Option<String>, DecodeError>)
        ensures
            reads_opt_text(r, final(self)@, parse_opt_str(old(self)@)),
    {
        proof {
            reveal(parse_opt_str);
        }
        match self.take_flag() {
            Err(e) => Err(e),
            Ok(false) => Ok(None),
            Ok(true) => match self.take_str() {
                Err(e) => Err(e),
                Ok(text) => Ok(Some(text)),
            },
        }
    }

    pub fn take_strs(&mut self) -> (r: Result<Vec<String>, DecodeError>)
        ensures
            reads_texts(r, final(self)@, parse_strs(old(self)@)),
    {
        proof {
            reveal(parse_strs);
        }
        let count = match self.take_u64() {
            Err(e) => {
                return Err(e);
            },
            Ok(count) => count,
        };
        let ghost start = self@;
        let mut items: Vec<String> = Vec::new();
        let mut i: u64 = 0;
        assert(texts(items@) =~= Seq::<Seq<char>>::empty());
        assert(parse_str_items(start, count as nat) == prepend_items(
            texts(items@),
            parse_str_items(self@, (count - i) as nat),
        )) by {
            match parse_str_items(self@, count as nat) {
                Ok((more, rest)) => {
                    assert(texts(items@) + more =~= more);
                },
                Err(e) => {},
            }
        }
        while i < count
            invariant
                i <= count,
                parse_u64(old(self)@) == Ok::<(u64, Packet), DecodeError>((count, start)),
                parse_str_items(start, count as nat) == prepend_items(
                    texts(items@),
                    parse_str_items(self@, (count - i) as nat),
                ),
            decreases count - i,
        {
            let ghost so_far = texts(items@);
            proof {
                reveal(parse_strs);
            }
            match self.take_str() {
                Err(e) => {
                    return Err(e);
                },
                Ok(text) => {
                    items.push(text);
                    proof {
                        assert(texts(items@) =~= so_far.push(text@));
                        match parse_str_items(self@, (count - i - 1) as nat) {
                            Ok((more, rest)) => {
                                assert(so_far + (seq![text@] + more) =~= texts(items@) + more);
                            },
                            Err(e) => {},
                        }
                    }
                },
            }
            i = i + 1;
        }
        assert(texts(items@) + Seq::<Seq<char>>::empty() =~= texts(items@));
        Ok(items)
    }

    pub fn take_opt_strs(&mut self) -> (r: Result<Option<Vec<String>>, DecodeError>)
        ensures
            reads_opt_texts(r, final(self)@, parse_opt_strs(old(self)@)),
    {
        proof {
            reveal(parse_opt_strs);
        }
        match self.take_flag() {
            Err(e) => Err(e),
            Ok(false) => Ok(None),
            Ok(true) => match self.take_strs() {
                Err(e) => Err(e),
                Ok(items) => Ok(Some(items)),
            },
        }
    }

    pub fn take_fd(&mut self) -> (r: Result<i32, DecodeError>)
        ensures
            reads(r, final(self)@, parse_fd(old(self)@)),
    {
        proof {
            use_type_invariant(&*self);
        }
        if self.fds.len() - self.fd_at < 1 {
            return Err(DecodeError::TooFewFds);
        }
        let fd = self.fds[self.fd_at];
        self.fd_at = self.fd_at + 1;
        assert(self@ =~= old(self)@.skip_fd());
        Ok(fd)
    }
}

} // verus!
