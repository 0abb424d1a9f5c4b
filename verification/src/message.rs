//! A published message and its frame on the wire.

use vstd::prelude::*;

use crate::error::Error;
use crate::wire::{
    fits_in_prefix, fits_prefix, lemma_block_missing_within, lemma_block_round_trip,
    lemma_block_truncated, lemma_topic_round_trip, lemma_topic_truncated, reads, spec_block,
    spec_block_missing, spec_read_block, spec_read_topic, spec_topic, write_block, write_topic,
    ByteReader, Outcome,
};
use vstd::utf8::encode_utf8;

verus! {

/// What a message is: its topic as text and its payload as bytes.
pub struct MessageView {
    pub topic: Seq<char>,
    pub data: Seq<u8>,
}

impl MessageView {
    /// The frame of the message: the topic as a block of UTF-8 bytes, then
    /// the payload as a block.
    pub open spec fn frame(self) -> Seq<u8>
        recommends
            self.fits(),
    {
        spec_topic(self.topic) + spec_block(self.data)
    }

    /// Whether both lengths can be written as length prefixes.
    pub open spec fn fits(self) -> bool {
        fits_prefix(encode_utf8(self.topic)) && fits_prefix(self.data)
    }

    /// Reading one message frame from the front of `input`: the outcome and
    /// the bytes that stay unread.
    pub open spec fn parse(input: Seq<u8>) -> (Outcome<MessageView>, Seq<u8>) {
        match spec_read_topic(input) {
            (Outcome::Value(topic), rest) => match spec_read_block(rest) {
                (Outcome::Value(data), rest) => (Outcome::Value(MessageView { topic, data }), rest),
                (_, rest) => (Outcome::ShortRead, rest),
            },
            (Outcome::ShortRead, rest) => (Outcome::ShortRead, rest),
            (Outcome::InvalidUtf8(bytes), rest) => (Outcome::InvalidUtf8(bytes), rest),
        }
    }

    /// How many bytes a stream that holds `input` must still yield before
    /// the next decision on the frame can be made; zero when the frame is
    /// whole, or is known to fail on its topic.
    pub open spec fn missing(input: Seq<u8>) -> nat {
        if spec_block_missing(input) > 0 {
            spec_block_missing(input)
        } else {
            match spec_read_topic(input) {
                (Outcome::Value(_), rest) => spec_block_missing(rest),
                _ => 0,
            }
        }
    }

    /// Nothing is missing exactly when decoding does not end in a short
    /// read.
    pub proof fn lemma_missing_none(input: Seq<u8>)
        ensures
            Self::missing(input) == 0 <==> !(Self::parse(input).0 is ShortRead),
    {
    }

    /// Of a frame cut short, what is missing lies within the frame: a
    /// reader that takes what is missing, again and again, never takes a
    /// byte of what follows the frame.
    pub proof fn lemma_missing_within(self, k: int)
        requires
            self.fits(),
            0 <= k < self.frame().len(),
        ensures
            0 < Self::missing(self.frame().take(k)) <= self.frame().len() - k,
    {
        let head = spec_topic(self.topic);
        let tail = spec_block(self.data);
        if k < head.len() {
            assert(self.frame().take(k) =~= head.take(k));
            lemma_block_missing_within(encode_utf8(self.topic), k, Seq::empty());
        } else {
            let cut = tail.take(k - head.len());
            assert(self.frame().take(k) =~= head + cut);
            lemma_block_missing_within(encode_utf8(self.topic), 0, cut);
            lemma_topic_round_trip(self.topic, cut);
            lemma_block_missing_within(self.data, k - head.len(), Seq::empty());
        }
    }

    /// Encoding a message and decoding it again gives the message back and
    /// leaves what followed the frame unread.
    pub proof fn lemma_round_trip(self, rest: Seq<u8>)
        requires
            self.fits(),
        ensures
            Self::parse(self.frame() + rest) == (Outcome::Value(self), rest),
    {
        let tail = spec_block(self.data) + rest;
        assert(self.frame() + rest =~= spec_topic(self.topic) + tail);
        lemma_topic_round_trip(self.topic, tail);
        lemma_block_round_trip(self.data, rest);
    }

    /// A frame cut short anywhere decodes to a short read, never to a
    /// message, and the stream is drained.
    pub proof fn lemma_truncated(self, k: int)
        requires
            self.fits(),
            0 <= k < self.frame().len(),
        ensures
            Self::parse(self.frame().take(k)) == (
                Outcome::<MessageView>::ShortRead,
                Seq::<u8>::empty(),
            ),
    {
        let head = spec_topic(self.topic);
        let tail = spec_block(self.data);
        if k < head.len() {
            assert(self.frame().take(k) =~= head.take(k));
            lemma_topic_truncated(self.topic, k);
        } else {
            assert(self.frame().take(k) =~= head + tail.take(k - head.len()));
            lemma_topic_round_trip(self.topic, tail.take(k - head.len()));
            lemma_block_truncated(self.data, k - head.len());
        }
    }
}

/// A payload tagged with the topic it is published to.
#[derive(Debug, PartialEq, Eq)]
pub struct Message {
    topic: String,
    data: Vec<u8>,
}

impl View for Message {
    type V = MessageView;

    closed spec fn view(&self) -> MessageView {
        MessageView { topic: self.topic@, data: self.data@ }
    }
}

impl Clone for Message {
    fn clone(&self) -> (copy: Self)
        ensures
            copy@ == self@,
    {
        let copy = Message { topic: self.topic.clone(), data: self.data.clone() };
        assert(copy.data@ =~= self.data@);
        copy
    }
}

impl Message {
    pub fn new(topic: String, data: Vec<u8>) -> (message: Self)
        ensures
            message@ == (MessageView { topic: topic@, data: data@ }),
    {
        Self { topic, data }
    }

    /// The topic the message is published to.
    pub fn topic(&self) -> (topic: &String)
        ensures
            topic@ == self@.topic,
    {
        &self.topic
    }

    /// The payload.
    pub fn data(&self) -> (data: &Vec<u8>)
        ensures
            data@ == self@.data,
    {
        &self.data
    }

    /// Decodes one message frame from the front of `reader`. A stream that
    /// ends inside the frame gives a short-read error; topic bytes that are
    /// not UTF-8 give them back in the error.
    pub fn read(reader: &mut ByteReader<'_>) -> (r: Result<Self, Error>)
        ensures
            reads(r, final(reader)@, MessageView::parse(old(reader)@)),
    {
        let topic = match reader.read_topic() {
            Ok(topic) => topic,
            Err(e) => {
                return Err(e);
            },
        };
        let data = match reader.read_block() {
            Ok(data) => data,
            Err(e) => {
                return Err(e);
            },
        };
        Ok(Self { topic, data })
    }

    /// How many bytes must still be read into `buffer` before the next
    /// decision on the frame it holds can be made; zero when `read` will
    /// not end in a short read.
    pub fn bytes_missing(buffer: &[u8]) -> (n: u64)
        ensures
            n == MessageView::missing(buffer@),
    {
        let mut reader = ByteReader::new(buffer);
        let first = reader.block_missing();
        if first > 0 {
            return first;
        }
        match reader.read_topic() {
            Ok(_) => reader.block_missing(),
            Err(_) => 0,
        }
    }

    /// Whether the message has a frame: whether the lengths of its topic
    /// and of its payload can each be written as a length prefix.
    pub fn fits(&self) -> (ok: bool)
        ensures
            ok == self@.fits(),
    {
        fits_in_prefix(self.topic.as_str().as_bytes()) && fits_in_prefix(self.data.as_slice())
    }

    /// Appends the message's frame to `writer`. A message without a frame
    /// cannot be written: test `fits` first.
    pub fn write(&self, writer: &mut Vec<u8>)
        requires
            self@.fits(),
        ensures
            final(writer)@ == old(writer)@ + self@.frame(),
    {
        write_topic(writer, self.topic.as_str());
        write_block(writer, self.data.as_slice());
        assert(writer@ =~= old(writer)@ + self@.frame());
    }
}

} // verus!
