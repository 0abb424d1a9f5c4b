//! The primitives both frames are built from: big-endian length prefixes,
//! length-prefixed blocks of bytes, and topics as UTF-8.

use byteorder::{BigEndian, ByteOrder};
use vstd::prelude::*;
use vstd::slice::{slice_subrange, slice_to_vec};
use vstd::utf8::*;

use crate::error::{Error, IoFailure};

verus! {

/// The four bytes that stand for `n` on the wire, most significant first.
pub open spec fn u32_be_bytes(n: u32) -> Seq<u8> {
    seq![(n >> 24) as u8, (n >> 16) as u8, (n >> 8) as u8, n as u8]
}

/// The number that the first four bytes of `bytes` stand for.
pub open spec fn u32_from_be_bytes(bytes: Seq<u8>) -> u32
    recommends
        bytes.len() >= 4,
{
    (bytes[0] as u32) << 24 | (bytes[1] as u32) << 16 | (bytes[2] as u32) << 8 | (bytes[3] as u32)
}

/// Decoding the four bytes of a number gives the number back.
pub proof fn lemma_u32_be_round_trip(n: u32)
    ensures
        u32_be_bytes(n).len() == 4,
        u32_from_be_bytes(u32_be_bytes(n)) == n,
{
    assert((((n >> 24) as u8) as u32) << 24 | (((n >> 16) as u8) as u32) << 16 | (((n >> 8) as u8)
        as u32) << 8 | ((n as u8) as u32) == n) by (bit_vector);
}

/// The bytes that `byteorder::BigEndian::write_u32` stores for `n`: the
/// number's four bytes, most significant first.
#[verifier::external_body]
fn encode_u32(n: u32) -> (bytes: [u8; 4])
    ensures
        bytes@ == u32_be_bytes(n),
{
    let mut buf = [0u8; 4];
    BigEndian::write_u32(&mut buf, n);
    buf
}

/// The number that `byteorder::BigEndian::read_u32` reads from the first
/// four bytes of `buf`, taking the first as the most significant. It panics on
/// fewer than four bytes, which the precondition rules out.
#[verifier::external_body]
fn decode_u32(buf: &[u8]) -> (n: u32)
    requires
        buf@.len() >= 4,
    ensures
        n == u32_from_be_bytes(buf@),
{
    BigEndian::read_u32(buf)
}

/// `String::from_utf8`: the text that the bytes encode when they are valid
/// UTF-8, and otherwise the same bytes handed back.
#[verifier::external_body]
fn string_from_utf8(bytes: Vec<u8>) -> (r: Result<String, Vec<u8>>)
    ensures
        match r {
            Ok(text) => valid_utf8(bytes@) && text@ == decode_utf8(bytes@),
            Err(rejected) => !valid_utf8(bytes@) && rejected@ == bytes@,
        },
{
    match String::from_utf8(bytes) {
        Ok(text) => Ok(text),
        Err(e) => Err(e.into_bytes()),
    }
}

/// What reading one value from a byte stream comes to, before it is turned
/// into a `Result`.
pub enum Outcome<T> {
    /// The value was there in full.
    Value(T),
    /// The stream ended before a declared length was satisfied.
    ShortRead,
    /// A topic's bytes are not UTF-8; these are the bytes.
    InvalidUtf8(Seq<u8>),
}

/// Whether a `Result` is the outcome `expected`, each side taken by its view.
pub open spec fn agrees<T: View>(r: Result<T, Error>, expected: Outcome<T::V>) -> bool {
    match expected {
        Outcome::Value(v) => r matches Ok(value) && value@ == v,
        Outcome::ShortRead => r matches Err(Error::Io(IoFailure::UnexpectedEof)),
        Outcome::InvalidUtf8(bytes) => r matches Err(Error::FromUtf8(rejected)) && rejected@
            == bytes,
    }
}

/// Whether a read that returned `r` and left `after` unread did what
/// `expected` says: the outcome, and the bytes that stay unread.
pub open spec fn reads<T: View>(
    r: Result<T, Error>,
    after: Seq<u8>,
    expected: (Outcome<T::V>, Seq<u8>),
) -> bool {
    agrees(r, expected.0) && after == expected.1
}

/// Reading a length prefix: four bytes, or a short read that drains the
/// stream.
pub open spec fn spec_read_be_u32(input: Seq<u8>) -> (Outcome<u32>, Seq<u8>) {
    if input.len() >= 4 {
        (Outcome::Value(u32_from_be_bytes(input)), input.skip(4))
    } else {
        (Outcome::ShortRead, Seq::empty())
    }
}

/// Reading exactly `n` bytes, or a short read that drains the stream.
pub open spec fn spec_read_exact(input: Seq<u8>, n: nat) -> (Outcome<Seq<u8>>, Seq<u8>) {
    if input.len() >= n {
        (Outcome::Value(input.take(n as int)), input.skip(n as int))
    } else {
        (Outcome::ShortRead, Seq::empty())
    }
}

/// Reading a block: a length prefix, then that many bytes.
pub open spec fn spec_read_block(input: Seq<u8>) -> (Outcome<Seq<u8>>, Seq<u8>) {
    match spec_read_be_u32(input) {
        (Outcome::Value(len), rest) => spec_read_exact(rest, len as nat),
        (_, rest) => (Outcome::ShortRead, rest),
    }
}

/// Reading a topic: a block whose bytes must be UTF-8.
pub open spec fn spec_read_topic(input: Seq<u8>) -> (Outcome<Seq<char>>, Seq<u8>) {
    match spec_read_block(input) {
        (Outcome::Value(bytes), rest) => if valid_utf8(bytes) {
            (Outcome::Value(decode_utf8(bytes)), rest)
        } else {
            (Outcome::InvalidUtf8(bytes), rest)
        },
        (_, rest) => (Outcome::ShortRead, rest),
    }
}

/// Whether the length of `bytes` can be written as a length prefix.
pub open spec fn fits_prefix(bytes: Seq<u8>) -> bool {
    bytes.len() <= u32::MAX
}

/// A block on the wire: the length in four bytes, then exactly that many
/// bytes. Only bytes whose length fits the prefix have a block.
pub open spec fn spec_block(bytes: Seq<u8>) -> Seq<u8>
    recommends
        fits_prefix(bytes),
{
    u32_be_bytes(bytes.len() as u32) + bytes
}

/// A topic on the wire: the block of its UTF-8 bytes.
pub open spec fn spec_topic(topic: Seq<char>) -> Seq<u8>
    recommends
        fits_prefix(encode_utf8(topic)),
{
    spec_block(encode_utf8(topic))
}

/// A block followed by anything reads back as the block's bytes, and what
/// followed stays unread.
pub proof fn lemma_block_round_trip(bytes: Seq<u8>, rest: Seq<u8>)
    requires
        fits_prefix(bytes),
    ensures
        spec_read_block(spec_block(bytes) + rest) == (Outcome::Value(bytes), rest),
{
    let input = spec_block(bytes) + rest;
    let len = bytes.len() as u32;
    lemma_u32_be_round_trip(len);
    assert(u32_from_be_bytes(input) == u32_from_be_bytes(u32_be_bytes(len)));
    assert(input.skip(4) =~= bytes + rest);
    assert((bytes + rest).take(bytes.len() as int) =~= bytes);
    assert((bytes + rest).skip(bytes.len() as int) =~= rest);
}

/// A block cut short anywhere reads as a short read that drains the stream.
pub proof fn lemma_block_truncated(bytes: Seq<u8>, k: int)
    requires
        fits_prefix(bytes),
        0 <= k < spec_block(bytes).len(),
    ensures
        spec_read_block(spec_block(bytes).take(k)) == (
            Outcome::<Seq<u8>>::ShortRead,
            Seq::<u8>::empty(),
        ),
{
    let cut = spec_block(bytes).take(k);
    let len = bytes.len() as u32;
    lemma_u32_be_round_trip(len);
    if k >= 4 {
        assert(u32_from_be_bytes(cut) == u32_from_be_bytes(u32_be_bytes(len)));
        assert(cut.skip(4).len() == k - 4);
    }
}

/// A topic followed by anything reads back as the topic, and what followed
/// stays unread.
pub proof fn lemma_topic_round_trip(topic: Seq<char>, rest: Seq<u8>)
    requires
        fits_prefix(encode_utf8(topic)),
    ensures
        spec_read_topic(spec_topic(topic) + rest) == (Outcome::Value(topic), rest),
{
    lemma_block_round_trip(encode_utf8(topic), rest);
    encode_utf8_valid_utf8(topic);
    encode_utf8_decode_utf8(topic);
}

/// A topic cut short anywhere reads as a short read that drains the stream.
pub proof fn lemma_topic_truncated(topic: Seq<char>, k: int)
    requires
        fits_prefix(encode_utf8(topic)),
        0 <= k < spec_topic(topic).len(),
    ensures
        spec_read_topic(spec_topic(topic).take(k)) == (
            Outcome::<Seq<char>>::ShortRead,
            Seq::<u8>::empty(),
        ),
{
    lemma_block_truncated(encode_utf8(topic), k);
}

/// How many bytes a stream that holds `input` must still yield before a
/// block can be read from it whole; zero when the block is there.
pub open spec fn spec_block_missing(input: Seq<u8>) -> nat {
    if input.len() < 4 {
        (4 - input.len()) as nat
    } else if input.len() - 4 < u32_from_be_bytes(input) {
        (u32_from_be_bytes(input) - (input.len() - 4)) as nat
    } else {
        0
    }
}

/// Of a block cut short, what is missing is its end and no more. Of a block
/// that is whole, whatever follows it, nothing is missing.
pub proof fn lemma_block_missing_within(bytes: Seq<u8>, k: int, rest: Seq<u8>)
    requires
        fits_prefix(bytes),
        0 <= k < spec_block(bytes).len(),
    ensures
        0 < spec_block_missing(spec_block(bytes).take(k)) <= spec_block(bytes).len() - k,
        spec_block_missing(spec_block(bytes) + rest) == 0,
{
    let len = bytes.len() as u32;
    let cut = spec_block(bytes).take(k);
    let whole = spec_block(bytes) + rest;
    lemma_u32_be_round_trip(len);
    assert(u32_from_be_bytes(whole) == u32_from_be_bytes(u32_be_bytes(len)));
    if k >= 4 {
        assert(u32_from_be_bytes(cut) == u32_from_be_bytes(u32_be_bytes(len)));
    }
}

/// A byte stream that is read from the front.
pub struct ByteReader<'a> {
    bytes: &'a [u8],
    position: usize,
}

impl<'a> View for ByteReader<'a> {
    type V = Seq<u8>;

    /// The bytes not yet read.
    closed spec fn view(&self) -> Seq<u8> {
        self.bytes@.skip(self.position as int)
    }
}

impl<'a> ByteReader<'a> {
    #[verifier::type_invariant]
    spec fn well_formed(self) -> bool {
        self.position <= self.bytes@.len()
    }

    /// A reader at the start of `bytes`.
    pub fn new(bytes: &'a [u8]) -> (reader: Self)
        ensures
            reader@ == bytes@,
    {
        Self { bytes, position: 0 }
    }

    /// How many bytes are still unread.
    pub fn remaining(&self) -> (n: usize)
        ensures
            n == self@.len(),
    {
        proof {
            use_type_invariant(self);
        }
        self.bytes.len() - self.position
    }

    /// How many bytes the stream must still yield before a block can be
    /// read from it whole; zero when the block is there.
    pub fn block_missing(&self) -> (n: u64)
        ensures
            n == spec_block_missing(self@),
    {
        proof {
            use_type_invariant(self);
        }
        let start = self.position;
        let unread = self.bytes.len() - start;
        if unread < 4 {
            return (4 - unread) as u64;
        }
        let len = decode_u32(slice_subrange(self.bytes, start, start + 4));
        assert(u32_from_be_bytes(self.bytes@.subrange(start as int, start + 4))
            == u32_from_be_bytes(self@));
        if unread - 4 < len as usize {
            (len as usize - (unread - 4)) as u64
        } else {
            0
        }
    }

    /// Reads a big-endian `u32`. With fewer than four bytes left the stream
    /// is drained and the read fails as a short read.
    pub fn read_be_u32(&mut self) -> (r: Result<u32, Error>)
        ensures
            reads(r, final(self)@, spec_read_be_u32(old(self)@)),
    {
        proof {
            use_type_invariant(&*self);
        }
        let start = self.position;
        if self.bytes.len() - start < 4 {
            self.position = self.bytes.len();
            assert(self@ =~= Seq::<u8>::empty());
            return Err(Error::Io(IoFailure::UnexpectedEof));
        }
        let n = decode_u32(slice_subrange(self.bytes, start, start + 4));
        self.position = start + 4;
        proof {
            let unread = self.bytes@.skip(start as int);
            assert(u32_from_be_bytes(self.bytes@.subrange(start as int, start + 4))
                == u32_from_be_bytes(unread));
            assert(self.bytes@.skip(start + 4) =~= unread.skip(4));
        }
        Ok(n)
    }

    /// Reads exactly `n` bytes. With fewer left the stream is drained and
    /// the read fails as a short read.
    pub fn read_exact(&mut self, n: usize) -> (r: Result<Vec<u8>, Error>)
        ensures
            reads(r, final(self)@, spec_read_exact(old(self)@, n as nat)),
    {
        proof {
            use_type_invariant(&*self);
        }
        let start = self.position;
        if self.bytes.len() - start < n {
            self.position = self.bytes.len();
            assert(self@ =~= Seq::<u8>::empty());
            return Err(Error::Io(IoFailure::UnexpectedEof));
        }
        let taken = slice_to_vec(slice_subrange(self.bytes, start, start + n));
        self.position = start + n;
        proof {
            let unread = self.bytes@.skip(start as int);
            assert(taken@ =~= unread.take(n as int));
            assert(self.bytes@.skip(start + n) =~= unread.skip(n as int));
        }
        Ok(taken)
    }

    /// Reads a block: a length prefix, then that many bytes.
    pub fn read_block(&mut self) -> (r: Result<Vec<u8>, Error>)
        ensures
            reads(r, final(self)@, spec_read_block(old(self)@)),
    {
        match self.read_be_u32() {
            Ok(len) => self.read_exact(len as usize),
            Err(e) => Err(e),
        }
    }

    /// Reads a topic: a block whose bytes must be UTF-8.
    pub fn read_topic(&mut self) -> (r: Result<String, Error>)
        ensures
            reads(r, final(self)@, spec_read_topic(old(self)@)),
    {
        match self.read_block() {
            Ok(bytes) => match string_from_utf8(bytes) {
                Ok(topic) => Ok(topic),
                Err(rejected) => Err(Error::FromUtf8(rejected)),
            },
            Err(e) => Err(e),
        }
    }
}

/// Appends `bytes` to `writer`.
pub fn write_bytes(writer: &mut Vec<u8>, bytes: &[u8])
    ensures
        final(writer)@ == old(writer)@ + bytes@,
{
    let mut i: usize = 0;
    while i < bytes.len()
        invariant
            i <= bytes@.len(),
            writer@ == old(writer)@ + bytes@.take(i as int),
        decreases bytes@.len() - i,
    {
        writer.push(bytes[i]);
        i += 1;
        assert(bytes@.take(i as int) =~= bytes@.take(i - 1).push(bytes@[i - 1]));
    }
    assert(bytes@.take(i as int) =~= bytes@);
}

/// Appends `n` as four bytes, most significant first.
pub fn write_be_u32(writer: &mut Vec<u8>, n: u32)
    ensures
        final(writer)@ == old(writer)@ + u32_be_bytes(n),
{
    let bytes = encode_u32(n);
    write_bytes(writer, bytes.as_slice());
}

/// Whether the length of `bytes` can be written as a length prefix.
pub fn fits_in_prefix(bytes: &[u8]) -> (ok: bool)
    ensures
        ok == fits_prefix(bytes@),
{
    bytes.len() <= u32::MAX as usize
}

/// Appends `bytes` as a block: the length, then the bytes.
pub fn write_block(writer: &mut Vec<u8>, bytes: &[u8])
    requires
        fits_prefix(bytes@),
    ensures
        final(writer)@ == old(writer)@ + spec_block(bytes@),
{
    write_be_u32(writer, bytes.len() as u32);
    write_bytes(writer, bytes);
    assert(writer@ =~= old(writer)@ + spec_block(bytes@));
}

/// Appends `topic` as a block of its UTF-8 bytes.
pub fn write_topic(writer: &mut Vec<u8>, topic: &str)
    requires
        fits_prefix(encode_utf8(topic@)),
    ensures
        final(writer)@ == old(writer)@ + spec_topic(topic@),
{
    write_block(writer, topic.as_bytes());
}

} // verus!
