//! The list of topics a subscriber asks for, and its frame on the wire.

use vstd::prelude::*;
use vstd::utf8::encode_utf8;

use crate::error::Error;
use crate::wire::{
    fits_in_prefix, fits_prefix, lemma_block_missing_within, lemma_topic_round_trip,
    lemma_topic_truncated, lemma_u32_be_round_trip, reads, spec_block_missing,
    spec_read_be_u32, spec_read_topic, spec_topic, u32_be_bytes, u32_from_be_bytes,
    write_be_u32, write_topic, ByteReader, Outcome,
};

verus! {

/// The topics of a request one after the other, each as on the wire.
pub open spec fn spec_topics(topics: Seq<Seq<char>>) -> Seq<u8>
    decreases topics.len(),
{
    if topics.len() == 0 {
        Seq::empty()
    } else {
        spec_topic(topics.first()) + spec_topics(topics.drop_first())
    }
}

/// The frame of a request: the number of topics in four bytes, then
/// exactly that many topics, in order. Only topics that fit have a frame.
pub open spec fn spec_frame(topics: Seq<Seq<char>>) -> Seq<u8>
    recommends
        fits(topics),
{
    u32_be_bytes(topics.len() as u32) + spec_topics(topics)
}

/// Whether the number of topics and the length of each can be written as a
/// length prefix.
pub open spec fn fits(topics: Seq<Seq<char>>) -> bool {
    &&& topics.len() <= u32::MAX
    &&& forall|i: int| 0 <= i < topics.len() ==> fits_prefix(#[trigger] encode_utf8(topics[i]))
}

/// A read that went well, with `before` put in front of the topics it gave.
pub open spec fn put_before(
    before: Seq<Seq<char>>,
    read: (Outcome<Seq<Seq<char>>>, Seq<u8>),
) -> (Outcome<Seq<Seq<char>>>, Seq<u8>) {
    match read {
        (Outcome::Value(topics), rest) => (Outcome::Value(before + topics), rest),
        failed => failed,
    }
}

/// Reading `count` topics from the front of `input`. The first topic that
/// fails decides the outcome.
pub open spec fn spec_read_topics(input: Seq<u8>, count: nat) -> (
    Outcome<Seq<Seq<char>>>,
    Seq<u8>,
)
    decreases count,
{
    if count == 0 {
        (Outcome::Value(Seq::empty()), input)
    } else {
        match spec_read_topic(input) {
            (Outcome::Value(topic), rest) => put_before(
                seq![topic],
                spec_read_topics(rest, (count - 1) as nat),
            ),
            (Outcome::ShortRead, rest) => (Outcome::ShortRead, rest),
            (Outcome::InvalidUtf8(bytes), rest) => (Outcome::InvalidUtf8(bytes), rest),
        }
    }
}

/// Reading one request frame from the front of `input`: the outcome and the
/// bytes that stay unread.
pub open spec fn spec_parse(input: Seq<u8>) -> (Outcome<Seq<Seq<char>>>, Seq<u8>) {
    match spec_read_be_u32(input) {
        (Outcome::Value(count), rest) => spec_read_topics(rest, count as nat),
        (_, rest) => (Outcome::ShortRead, rest),
    }
}

/// What fits as a whole fits without its first topic.
proof fn lemma_fits_later(topics: Seq<Seq<char>>)
    requires
        fits(topics),
        topics.len() > 0,
    ensures
        fits(topics.drop_first()),
{
    let later = topics.drop_first();
    assert forall|i: int| 0 <= i < later.len() implies fits_prefix(
        #[trigger] encode_utf8(later[i]),
    ) by {
        assert(later[i] == topics[i + 1]);
    }
}

/// The topics written one after the other grow at the end as the list does.
pub proof fn lemma_topics_push(topics: Seq<Seq<char>>, topic: Seq<char>)
    ensures
        spec_topics(topics.push(topic)) == spec_topics(topics) + spec_topic(topic),
    decreases topics.len(),
{
    let longer = topics.push(topic);
    if topics.len() == 0 {
        assert(longer.drop_first() =~= Seq::<Seq<char>>::empty());
        assert(spec_topics(longer.drop_first()) =~= Seq::<u8>::empty());
        assert(spec_topics(longer) =~= spec_topic(topic));
        assert(spec_topics(topics) + spec_topic(topic) =~= spec_topic(topic));
    } else {
        lemma_topics_push(topics.drop_first(), topic);
        assert(longer.drop_first() =~= topics.drop_first().push(topic));
        assert(spec_topics(longer) =~= spec_topics(topics) + spec_topic(topic));
    }
}

/// Topics written one after the other and followed by anything read back
/// as the same topics in the same order.
pub proof fn lemma_topics_round_trip(topics: Seq<Seq<char>>, rest: Seq<u8>)
    requires
        fits(topics),
    ensures
        spec_read_topics(spec_topics(topics) + rest, topics.len()) == (
            Outcome::Value(topics),
            rest,
        ),
    decreases topics.len(),
{
    if topics.len() == 0 {
        assert(spec_topics(topics) + rest =~= rest);
        assert(topics =~= Seq::<Seq<char>>::empty());
    } else {
        let later = topics.drop_first();
        let tail = spec_topics(later) + rest;
        assert(spec_topics(topics) + rest =~= spec_topic(topics.first()) + tail);
        lemma_topic_round_trip(topics.first(), tail);
        lemma_fits_later(topics);
        lemma_topics_round_trip(later, rest);
        assert(seq![topics.first()] + later =~= topics);
    }
}

/// Topics written one after the other and cut short anywhere read as a
/// short read that drains the stream.
pub proof fn lemma_topics_truncated(topics: Seq<Seq<char>>, k: int)
    requires
        fits(topics),
        0 <= k < spec_topics(topics).len(),
    ensures
        spec_read_topics(spec_topics(topics).take(k), topics.len()) == (
            Outcome::<Seq<Seq<char>>>::ShortRead,
            Seq::<u8>::empty(),
        ),
    decreases topics.len(),
{
    let later = topics.drop_first();
    let head = spec_topic(topics.first());
    let tail = spec_topics(later);
    if k < head.len() {
        assert(spec_topics(topics).take(k) =~= head.take(k));
        lemma_topic_truncated(topics.first(), k);
    } else {
        assert(spec_topics(topics).take(k) =~= head + tail.take(k - head.len()));
        lemma_topic_round_trip(topics.first(), tail.take(k - head.len()));
        lemma_fits_later(topics);
        lemma_topics_truncated(later, k - head.len());
    }
}

/// Encoding a request and decoding it again gives the same topics in the
/// same order and leaves what followed the frame unread.
pub proof fn lemma_round_trip(topics: Seq<Seq<char>>, rest: Seq<u8>)
    requires
        fits(topics),
    ensures
        spec_parse(spec_frame(topics) + rest) == (Outcome::Value(topics), rest),
{
    let count = topics.len() as u32;
    let input = spec_frame(topics) + rest;
    lemma_u32_be_round_trip(count);
    assert(u32_from_be_bytes(input) == u32_from_be_bytes(u32_be_bytes(count)));
    assert(input.skip(4) =~= spec_topics(topics) + rest);
    lemma_topics_round_trip(topics, rest);
}

/// A request frame cut short anywhere decodes to a short read, never to a
/// request, and the stream is drained.
pub proof fn lemma_truncated(topics: Seq<Seq<char>>, k: int)
    requires
        fits(topics),
        0 <= k < spec_frame(topics).len(),
    ensures
        spec_parse(spec_frame(topics).take(k)) == (
            Outcome::<Seq<Seq<char>>>::ShortRead,
            Seq::<u8>::empty(),
        ),
{
    let count = topics.len() as u32;
    let cut = spec_frame(topics).take(k);
    lemma_u32_be_round_trip(count);
    if k >= 4 {
        assert(u32_from_be_bytes(cut) == u32_from_be_bytes(u32_be_bytes(count)));
        assert(cut.skip(4) =~= spec_topics(topics).take(k - 4));
        lemma_topics_truncated(topics, k - 4);
    }
}

/// How many bytes a stream that holds `input` must still yield before the
/// next decision on `count` topics can be made; zero when they are whole,
/// or one of them is known to fail.
pub open spec fn spec_topics_missing(input: Seq<u8>, count: nat) -> nat
    decreases count,
{
    if count == 0 {
        0
    } else if spec_block_missing(input) > 0 {
        spec_block_missing(input)
    } else {
        match spec_read_topic(input) {
            (Outcome::Value(_), rest) => spec_topics_missing(rest, (count - 1) as nat),
            _ => 0,
        }
    }
}

/// How many bytes a stream that holds `input` must still yield before the
/// next decision on the request frame can be made; zero when the frame is
/// whole, or is known to fail on a topic.
pub open spec fn spec_missing(input: Seq<u8>) -> nat {
    match spec_read_be_u32(input) {
        (Outcome::Value(count), rest) => spec_topics_missing(rest, count as nat),
        _ => (4 - input.len()) as nat,
    }
}

/// Nothing is missing of some topics exactly when reading them does not
/// end in a short read.
pub proof fn lemma_topics_missing_none(input: Seq<u8>, count: nat)
    ensures
        spec_topics_missing(input, count) == 0 <==> !(spec_read_topics(input, count).0
            is ShortRead),
    decreases count,
{
    if count > 0 {
        if let (Outcome::Value(_), rest) = spec_read_topic(input) {
            lemma_topics_missing_none(rest, (count - 1) as nat);
        }
    }
}

/// Nothing is missing of a request exactly when decoding it does not end
/// in a short read.
pub proof fn lemma_missing_none(input: Seq<u8>)
    ensures
        spec_missing(input) == 0 <==> !(spec_parse(input).0 is ShortRead),
{
    if let (Outcome::Value(count), rest) = spec_read_be_u32(input) {
        lemma_topics_missing_none(rest, count as nat);
    }
}

/// Of topics cut short, what is missing lies within them.
pub proof fn lemma_topics_missing_within(topics: Seq<Seq<char>>, k: int)
    requires
        fits(topics),
        0 <= k < spec_topics(topics).len(),
    ensures
        0 < spec_topics_missing(spec_topics(topics).take(k), topics.len()) <= spec_topics(
            topics,
        ).len() - k,
    decreases topics.len(),
{
    let later = topics.drop_first();
    let head = spec_topic(topics.first());
    let tail = spec_topics(later);
    if k < head.len() {
        assert(spec_topics(topics).take(k) =~= head.take(k));
        lemma_block_missing_within(encode_utf8(topics.first()), k, Seq::empty());
    } else {
        let cut = tail.take(k - head.len());
        assert(spec_topics(topics).take(k) =~= head + cut);
        lemma_block_missing_within(encode_utf8(topics.first()), 0, cut);
        lemma_topic_round_trip(topics.first(), cut);
        lemma_fits_later(topics);
        lemma_topics_missing_within(later, k - head.len());
    }
}

/// Of a request frame cut short, what is missing lies within the frame: a
/// reader that takes what is missing, again and again, never takes a byte
/// of what follows the frame.
pub proof fn lemma_missing_within(topics: Seq<Seq<char>>, k: int)
    requires
        fits(topics),
        0 <= k < spec_frame(topics).len(),
    ensures
        0 < spec_missing(spec_frame(topics).take(k)) <= spec_frame(topics).len() - k,
{
    let count = topics.len() as u32;
    let cut = spec_frame(topics).take(k);
    lemma_u32_be_round_trip(count);
    if k >= 4 {
        assert(u32_from_be_bytes(cut) == u32_from_be_bytes(u32_be_bytes(count)));
        assert(cut.skip(4) =~= spec_topics(topics).take(k - 4));
        lemma_topics_missing_within(topics, k - 4);
    }
}

/// The topics a subscriber wants, in the order it named them. A topic named
/// twice stays twice.
#[derive(Debug, PartialEq, Eq)]
pub struct SubscriptionRequest {
    topics: Vec<String>,
}

impl View for SubscriptionRequest {
    type V = Seq<Seq<char>>;

    closed spec fn view(&self) -> Seq<Seq<char>> {
        self.topics.deep_view()
    }
}

impl SubscriptionRequest {
    pub fn new(topics: Vec<String>) -> (request: Self)
        ensures
            request@ == topics.deep_view(),
    {
        Self { topics }
    }

    /// The topics, in request order.
    pub fn topics(&self) -> (topics: &Vec<String>)
        ensures
            topics.deep_view() == self@,
    {
        &self.topics
    }

    /// Decodes one request frame from the front of `reader`. A stream that
    /// ends inside the frame gives a short-read error; topic bytes that are
    /// not UTF-8 give them back in the error.
    pub fn read(reader: &mut ByteReader<'_>) -> (r: Result<Self, Error>)
        ensures
            reads(r, final(reader)@, spec_parse(old(reader)@)),
    {
        let count = match reader.read_be_u32() {
            Ok(count) => count,
            Err(e) => {
                return Err(e);
            },
        };
        let ghost expected = spec_parse(old(reader)@);
        let mut topics: Vec<String> = Vec::new();
        let mut i: u32 = 0;
        assert(topics.deep_view() =~= Seq::<Seq<char>>::empty());
        while i < count
            invariant
                i <= count,
                expected == spec_parse(old(reader)@),
                put_before(topics.deep_view(), spec_read_topics(reader@, (count - i) as nat))
                    == expected,
            decreases count - i,
        {
            let ghost before = topics.deep_view();
            let ghost unread = reader@;
            match reader.read_topic() {
                Ok(topic) => {
                    topics.push(topic);
                    proof {
                        let later = spec_read_topics(reader@, (count - i - 1) as nat);
                        assert(topics.deep_view() =~= before.push(topic@));
                        assert(spec_read_topics(unread, (count - i) as nat) == put_before(
                            seq![topic@],
                            later,
                        ));
                        if let (Outcome::Value(found), _) = later {
                            assert(before + (seq![topic@] + found) =~= before.push(topic@)
                                + found);
                        }
                    }
                },
                Err(e) => {
                    assert(spec_read_topics(unread, (count - i) as nat).1 == spec_read_topic(
                        unread,
                    ).1);
                    return Err(e);
                },
            }
            i += 1;
        }
        let request = Self { topics };
        assert(request@ + Seq::<Seq<char>>::empty() =~= request@);
        Ok(request)
    }

    /// How many bytes must still be read into `buffer` before the next
    /// decision on the frame it holds can be made; zero when `read` will
    /// not end in a short read.
    pub fn bytes_missing(buffer: &[u8]) -> (n: u64)
        ensures
            n == spec_missing(buffer@),
    {
        let mut reader = ByteReader::new(buffer);
        let count = match reader.read_be_u32() {
            Ok(count) => count,
            Err(_) => {
                return (4 - buffer.len()) as u64;
            },
        };
        let mut i: u32 = 0;
        while i < count
            invariant
                i <= count,
                spec_topics_missing(reader@, (count - i) as nat) == spec_missing(buffer@),
            decreases count - i,
        {
            let first = reader.block_missing();
            if first > 0 {
                return first;
            }
            match reader.read_topic() {
                Ok(_) => {},
                Err(_) => {
                    return 0;
                },
            }
            i += 1;
        }
        0
    }

    /// Whether the request has a frame: whether the number of its topics
    /// and the length of each can be written as a length prefix.
    pub fn fits(&self) -> (ok: bool)
        ensures
            ok == fits(self@),
    {
        if self.topics.len() > u32::MAX as usize {
            return false;
        }
        let mut i: usize = 0;
        while i < self.topics.len()
            invariant
                i <= self.topics.len(),
                self@.len() == self.topics.len(),
                forall|j: int| 0 <= j < i ==> fits_prefix(#[trigger] encode_utf8(self@[j])),
            decreases self.topics.len() - i,
        {
            if !fits_in_prefix(self.topics[i].as_str().as_bytes()) {
                assert(!fits_prefix(encode_utf8(self@[i as int])));
                return false;
            }
            i += 1;
        }
        true
    }

    /// Appends the request's frame to `writer`. A request without a frame
    /// cannot be written: test `fits` first.
    pub fn write(&self, writer: &mut Vec<u8>)
        requires
            fits(self@),
        ensures
            final(writer)@ == old(writer)@ + spec_frame(self@),
    {
        write_be_u32(writer, self.topics.len() as u32);
        let ghost start = writer@;
        let mut i: usize = 0;
        assert(self@.take(0) =~= Seq::<Seq<char>>::empty());
        assert(start + spec_topics(self@.take(0)) =~= start);
        while i < self.topics.len()
            invariant
                i <= self.topics.len(),
                self@.len() == self.topics.len(),
                fits(self@),
                writer@ == start + spec_topics(self@.take(i as int)),
            decreases self.topics.len() - i,
        {
            assert(fits_prefix(encode_utf8(self@[i as int])));
            write_topic(writer, self.topics[i].as_str());
            proof {
                lemma_topics_push(self@.take(i as int), self@[i as int]);
                assert(self@.take(i + 1) =~= self@.take(i as int).push(self@[i as int]));
                assert(writer@ =~= start + spec_topics(self@.take(i + 1)));
            }
            i += 1;
        }
        assert(self@.take(i as int) =~= self@);
        assert(writer@ =~= old(writer)@ + spec_frame(self@));
    }
}

} // verus!
