use pubsub::error::IoFailure;
use pubsub::wire::{
    fits_in_prefix, write_be_u32, write_block, write_bytes, write_topic, ByteReader,
};
use pubsub::{Error, Message, SubscriptionRequest};

fn encode_message(message: &Message) -> Vec<u8> {
    assert!(message.fits());
    let mut frame = Vec::new();
    message.write(&mut frame);
    frame
}

fn encode_request(request: &SubscriptionRequest) -> Vec<u8> {
    assert!(request.fits());
    let mut frame = Vec::new();
    request.write(&mut frame);
    frame
}

fn topics(names: &[&str]) -> Vec<String> {
    names.iter().map(|name| name.to_string()).collect()
}

#[test]
fn message_new_keeps_topic_and_data() {
    let message = Message::new("hello".to_string(), vec![1, 2, 3]);
    assert_eq!(message.topic(), "hello");
    assert_eq!(message.data(), &vec![1, 2, 3]);
}

#[test]
fn message_clone_is_equal() {
    let message = Message::new("hello".to_string(), vec![9, 8, 7]);
    assert_eq!(message.clone(), message);
}

#[test]
fn message_frame_is_length_prefixed_big_endian() {
    let message = Message::new("ab".to_string(), vec![1, 2, 3]);
    assert_eq!(
        encode_message(&message),
        vec![0, 0, 0, 2, b'a', b'b', 0, 0, 0, 3, 1, 2, 3]
    );
}

#[test]
fn message_frame_of_empty_message_is_two_zero_lengths() {
    let message = Message::new(String::new(), Vec::new());
    assert_eq!(encode_message(&message), vec![0, 0, 0, 0, 0, 0, 0, 0]);
}

#[test]
fn message_write_appends_to_what_is_there() {
    let message = Message::new("t".to_string(), vec![7]);
    let mut writer = vec![0xaa, 0xbb];
    message.write(&mut writer);
    assert_eq!(writer, vec![0xaa, 0xbb, 0, 0, 0, 1, b't', 0, 0, 0, 1, 7]);
}

#[test]
fn message_length_prefix_carries_all_four_bytes() {
    let data: Vec<u8> = (0..0x0001_0203u32).map(|i| (i % 251) as u8).collect();
    let message = Message::new("big".to_string(), data.clone());
    let frame = encode_message(&message);
    assert_eq!(&frame[7..11], &[0x00, 0x01, 0x02, 0x03]);
    let mut reader = ByteReader::new(&frame);
    assert_eq!(Message::read(&mut reader), Ok(message));
    assert_eq!(reader.remaining(), 0);
}

#[test]
fn message_round_trip() {
    let message = Message::new("weather/berlin".to_string(), vec![0, 255, 1, 254, 2]);
    let frame = encode_message(&message);
    let mut reader = ByteReader::new(&frame);
    assert_eq!(Message::read(&mut reader), Ok(message));
    assert_eq!(reader.remaining(), 0);
}

#[test]
fn message_round_trip_with_topic_beyond_ascii() {
    let message = Message::new("météo/東京/🌧".to_string(), b"rain".to_vec());
    let frame = encode_message(&message);
    assert_eq!("météo/東京/🌧".len(), 19);
    assert_eq!(&frame[0..4], &[0, 0, 0, 19]);
    let mut reader = ByteReader::new(&frame);
    assert_eq!(Message::read(&mut reader), Ok(message));
}

#[test]
fn message_read_leaves_what_follows_the_frame() {
    let first = Message::new("a".to_string(), vec![1]);
    let second = Message::new("b".to_string(), vec![2, 3]);
    let mut stream = encode_message(&first);
    second.write(&mut stream);
    stream.push(0x5a);
    let mut reader = ByteReader::new(&stream);
    assert_eq!(Message::read(&mut reader), Ok(first));
    assert_eq!(Message::read(&mut reader), Ok(second));
    assert_eq!(reader.remaining(), 1);
    assert_eq!(
        Message::read(&mut reader),
        Err(Error::Io(IoFailure::UnexpectedEof))
    );
    assert_eq!(reader.remaining(), 0);
}

#[test]
fn message_cut_short_anywhere_is_a_short_read() {
    let message = Message::new("topic".to_string(), vec![1, 2, 3, 4]);
    let frame = encode_message(&message);
    for cut in 0..frame.len() {
        let mut reader = ByteReader::new(&frame[..cut]);
        assert_eq!(
            Message::read(&mut reader),
            Err(Error::Io(IoFailure::UnexpectedEof)),
            "cut at {}",
            cut
        );
        assert_eq!(reader.remaining(), 0);
    }
}

#[test]
fn message_with_a_declared_length_beyond_the_stream_is_a_short_read() {
    let bytes = vec![0xff, 0xff, 0xff, 0xff, b'a', b'b'];
    let mut reader = ByteReader::new(&bytes);
    assert_eq!(
        Message::read(&mut reader),
        Err(Error::Io(IoFailure::UnexpectedEof))
    );
}

#[test]
fn message_with_a_topic_that_is_not_utf8_is_refused() {
    let bytes = vec![0, 0, 0, 2, 0xc3, 0x28, 0, 0, 0, 1, 9];
    let mut reader = ByteReader::new(&bytes);
    assert_eq!(
        Message::read(&mut reader),
        Err(Error::FromUtf8(vec![0xc3, 0x28]))
    );
    assert_eq!(reader.remaining(), 5);
}

#[test]
fn message_payload_need_not_be_utf8() {
    let bytes = vec![0, 0, 0, 1, b'x', 0, 0, 0, 2, 0xc3, 0x28];
    let mut reader = ByteReader::new(&bytes);
    assert_eq!(
        Message::read(&mut reader),
        Ok(Message::new("x".to_string(), vec![0xc3, 0x28]))
    );
}

#[test]
fn request_new_keeps_topics_in_order() {
    let request = SubscriptionRequest::new(topics(&["b", "a", "b"]));
    assert_eq!(request.topics(), &topics(&["b", "a", "b"]));
}

#[test]
fn request_frame_is_count_then_topics() {
    let request = SubscriptionRequest::new(topics(&["a", "bc"]));
    assert_eq!(
        encode_request(&request),
        vec![0, 0, 0, 2, 0, 0, 0, 1, b'a', 0, 0, 0, 2, b'b', b'c']
    );
}

#[test]
fn request_round_trip() {
    let request = SubscriptionRequest::new(topics(&["hello", "bye", "test"]));
    let frame = encode_request(&request);
    let mut reader = ByteReader::new(&frame);
    assert_eq!(SubscriptionRequest::read(&mut reader), Ok(request));
    assert_eq!(reader.remaining(), 0);
}

#[test]
fn request_round_trip_keeps_duplicates_and_order() {
    let request = SubscriptionRequest::new(topics(&["a", "a", "", "é", "a"]));
    let frame = encode_request(&request);
    let mut reader = ByteReader::new(&frame);
    let decoded = SubscriptionRequest::read(&mut reader).unwrap();
    assert_eq!(decoded.topics(), &topics(&["a", "a", "", "é", "a"]));
}

#[test]
fn request_round_trip_of_no_topics() {
    let request = SubscriptionRequest::new(Vec::new());
    let frame = encode_request(&request);
    assert_eq!(frame, vec![0, 0, 0, 0]);
    let mut reader = ByteReader::new(&frame);
    assert_eq!(SubscriptionRequest::read(&mut reader), Ok(request));
}

#[test]
fn request_cut_short_anywhere_is_a_short_read() {
    let request = SubscriptionRequest::new(topics(&["one", "", "three"]));
    let frame = encode_request(&request);
    for cut in 0..frame.len() {
        let mut reader = ByteReader::new(&frame[..cut]);
        assert_eq!(
            SubscriptionRequest::read(&mut reader),
            Err(Error::Io(IoFailure::UnexpectedEof)),
            "cut at {}",
            cut
        );
        assert_eq!(reader.remaining(), 0);
    }
}

#[test]
fn request_with_a_count_beyond_the_stream_is_a_short_read() {
    let bytes = vec![0xff, 0xff, 0xff, 0xff, 0, 0, 0, 1, b'a'];
    let mut reader = ByteReader::new(&bytes);
    assert_eq!(
        SubscriptionRequest::read(&mut reader),
        Err(Error::Io(IoFailure::UnexpectedEof))
    );
}

#[test]
fn request_with_a_topic_that_is_not_utf8_is_refused() {
    let bytes = vec![0, 0, 0, 2, 0, 0, 0, 1, b'a', 0, 0, 0, 1, 0xff, 7, 7];
    let mut reader = ByteReader::new(&bytes);
    assert_eq!(
        SubscriptionRequest::read(&mut reader),
        Err(Error::FromUtf8(vec![0xff]))
    );
    assert_eq!(reader.remaining(), 2);
}

#[test]
fn reader_reads_a_big_endian_u32() {
    let bytes = vec![0x12, 0x34, 0x56, 0x78, 0x9a];
    let mut reader = ByteReader::new(&bytes);
    assert_eq!(reader.read_be_u32(), Ok(0x1234_5678));
    assert_eq!(reader.remaining(), 1);
    assert_eq!(reader.read_be_u32(), Err(Error::Io(IoFailure::UnexpectedEof)));
    assert_eq!(reader.remaining(), 0);
}

#[test]
fn reader_reads_exactly_what_is_asked() {
    let bytes = vec![1, 2, 3, 4, 5];
    let mut reader = ByteReader::new(&bytes);
    assert_eq!(reader.read_exact(0), Ok(vec![]));
    assert_eq!(reader.read_exact(2), Ok(vec![1, 2]));
    assert_eq!(reader.read_exact(3), Ok(vec![3, 4, 5]));
    assert_eq!(reader.read_exact(1), Err(Error::Io(IoFailure::UnexpectedEof)));
    assert_eq!(reader.read_exact(0), Ok(vec![]));
}

#[test]
fn reader_reads_blocks_and_topics() {
    let bytes = vec![0, 0, 0, 2, 7, 8, 0, 0, 0, 3, b'a', b'b', b'c'];
    let mut reader = ByteReader::new(&bytes);
    assert_eq!(reader.read_block(), Ok(vec![7, 8]));
    assert_eq!(reader.read_topic(), Ok("abc".to_string()));
    assert_eq!(reader.remaining(), 0);
}

#[test]
fn writers_append_in_wire_form() {
    let mut writer = Vec::new();
    write_be_u32(&mut writer, 0xdead_beef);
    write_bytes(&mut writer, &[1, 2]);
    write_block(&mut writer, &[3]);
    write_topic(&mut writer, "é");
    assert_eq!(
        writer,
        vec![0xde, 0xad, 0xbe, 0xef, 1, 2, 0, 0, 0, 1, 3, 0, 0, 0, 2, 0xc3, 0xa9]
    );
}

#[test]
fn message_bytes_missing_follows_the_frame() {
    let message = Message::new("ab".to_string(), vec![1, 2, 3]);
    let frame = encode_message(&message);
    let expected = [4, 3, 2, 1, 2, 1, 4, 3, 2, 1, 3, 2, 1, 0];
    for cut in 0..=frame.len() {
        assert_eq!(
            Message::bytes_missing(&frame[..cut]),
            expected[cut],
            "cut at {}",
            cut
        );
    }
}

#[test]
fn message_bytes_missing_is_zero_once_the_topic_is_known_to_fail() {
    assert_eq!(Message::bytes_missing(&[0, 0, 0, 1, 0xff]), 0);
}

#[test]
fn message_bytes_missing_counts_a_full_length_prefix() {
    assert_eq!(
        Message::bytes_missing(&[0xff, 0xff, 0xff, 0xff]),
        0xffff_ffff
    );
}

#[test]
fn request_bytes_missing_follows_the_frame() {
    let request = SubscriptionRequest::new(topics(&["a", "bc"]));
    let frame = encode_request(&request);
    let expected = [4, 3, 2, 1, 4, 3, 2, 1, 1, 4, 3, 2, 1, 2, 1, 0];
    for cut in 0..=frame.len() {
        assert_eq!(
            SubscriptionRequest::bytes_missing(&frame[..cut]),
            expected[cut],
            "cut at {}",
            cut
        );
    }
}

#[test]
fn request_bytes_missing_is_zero_once_a_topic_is_known_to_fail() {
    assert_eq!(
        SubscriptionRequest::bytes_missing(&[0, 0, 0, 2, 0, 0, 0, 1, 0x80]),
        0
    );
}

#[test]
fn reading_what_is_missing_takes_one_frame_and_no_more() {
    let first = Message::new("x".to_string(), vec![1, 2, 3, 4, 5]);
    let second = Message::new("yz".to_string(), vec![6]);
    let mut stream = encode_message(&first);
    let first_len = stream.len();
    second.write(&mut stream);
    let mut taken = 0usize;
    loop {
        let missing = Message::bytes_missing(&stream[..taken]) as usize;
        if missing == 0 {
            break;
        }
        taken += missing;
    }
    assert_eq!(taken, first_len);
    let mut reader = ByteReader::new(&stream[..taken]);
    assert_eq!(Message::read(&mut reader), Ok(first));
}

#[test]
fn error_descriptions() {
    assert_eq!(
        Error::ChannelReceive.description(),
        "failed receiving from channel"
    );
    assert_eq!(
        Error::ChannelSendMessage(Message::new("t".to_string(), vec![])).description(),
        "failed sending Message to channel"
    );
    assert_eq!(
        Error::Io(IoFailure::UnexpectedEof).description(),
        "I/O error: failed to fill whole buffer"
    );
    assert_eq!(Error::Io(IoFailure::Other).description(), "I/O error");
    assert_eq!(
        Error::FromUtf8(vec![0xff]).description(),
        "failed converting byte vector to UTF-8 String"
    );
}

#[test]
fn messages_and_requests_of_ordinary_size_fit() {
    assert!(Message::new(String::new(), Vec::new()).fits());
    assert!(Message::new("topic".to_string(), vec![0; 70_000]).fits());
    assert!(SubscriptionRequest::new(Vec::new()).fits());
    assert!(SubscriptionRequest::new(topics(&["a", "", "ü"])).fits());
    assert!(fits_in_prefix(&[]));
    assert!(fits_in_prefix(&[1, 2, 3]));
}
