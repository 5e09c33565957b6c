use bytes::BytesMut;
use rabbitmq_stream_client::codec::RabbitMqStreamCodec;
use rabbitmq_stream_client::error::{ClientError, DecodeFailure};
use rabbitmq_stream_client::layout::{are_values_shallow, is_readable, step_frame};
use rabbitmq_stream_client::response::{DeliverCommand, ResponseKind};
use rabbitmq_stream_client::walk::{Malformed, Step};
use rabbitmq_stream_protocol::codec::{Decoder, Encoder};
use rabbitmq_stream_protocol::error::DecodeError;
use rabbitmq_stream_protocol::message::Message;
use rabbitmq_stream_protocol::Response;

/// The frame of a delivery of messages.
fn delivery(messages: &[Vec<u8>]) -> Vec<u8> {
    let mut bytes = vec![0, 0, 0, 0, 0, 8, 0, 1, 5, 0x50, 0, 0, 1];
    bytes.extend((messages.len() as u32).to_be_bytes());
    bytes.extend([0; 16]);
    bytes.extend([0, 0, 0, 0, 0, 0, 1, 2]);
    bytes.extend([0; 16]);
    for message in messages {
        bytes.extend((message.len() as u32).to_be_bytes());
        bytes.extend(message);
    }
    bytes
}

fn read(messages: &[Vec<u8>]) -> Result<Option<DeliverCommand>, DecodeFailure> {
    let mut bytes = delivery(messages);
    bytes.extend([9, 9]);
    let mut buf = BytesMut::from(&bytes[..]);
    match RabbitMqStreamCodec.checked_decode(&mut buf).unwrap() {
        Ok(Some(response)) => {
            assert_eq!(buf.to_vec(), [9, 9]);
            assert_eq!(response.correlation_id, None);
            match response.kind {
                ResponseKind::Deliver(body) => Ok(Some(body)),
                other => panic!("{:?}", other),
            }
        }
        Ok(None) => {
            assert_eq!(buf.to_vec(), bytes);
            Ok(None)
        }
        Err(ClientError::Decode(failure)) => {
            assert_eq!(buf.to_vec(), bytes);
            Err(failure)
        }
        Err(other) => panic!("{:?}", other),
    }
}

/// A section with a descriptor of one byte.
fn section(descriptor: u8, value: &[u8]) -> Vec<u8> {
    [&[0, 0x53, descriptor], value].concat()
}

fn accepts(descriptor: u8, value: &[u8]) -> bool {
    matches!(read(&[section(descriptor, value)]), Ok(Some(_)))
}

fn is_cut(descriptor: u8, value: &[u8]) -> bool {
    matches!(read(&[section(descriptor, value)]), Ok(None))
}

fn is_misplaced(descriptor: u8, value: &[u8]) -> bool {
    matches!(read(&[section(descriptor, value)]), Err(DecodeFailure::MessageParse(_)))
}

fn is_outside(descriptor: u8, value: &[u8]) -> bool {
    !is_readable(&delivery(&[section(descriptor, value)]))
}

#[test]
fn deliveries_hold_their_messages() {
    let one = section(117, &[0xa0, 3, b'f', b'o', b'o']);
    let long = section(117, &[&[0xb0, 0, 0, 1, 44][..], &[7; 300]].concat());
    let twice = [section(117, &[0xa0, 1, 8]), section(117, &[0xa0, 1, 9])].concat();
    let body = read(&[one.clone(), long, twice, vec![]]).unwrap().unwrap();
    assert_eq!(body.subscription_id, 5);
    assert_eq!(body.chunk_first_offset, 258);
    assert_eq!(body.messages.len(), 4);
    assert_eq!(body.messages[0].data(), Some(&b"foo"[..]));
    assert_eq!(body.messages[0].content, one);
    assert_eq!(body.messages[1].data(), Some(&[7; 300][..]));
    assert_eq!(body.messages[2].data(), Some(&[8][..]));
    assert_eq!(body.messages[3].data(), None);
    assert_eq!(body.messages[3].content, []);
    assert!(read(&[]).unwrap().unwrap().messages.is_empty());
}

#[test]
fn deliveries_arrive_in_parts() {
    let whole = delivery(&[section(117, &[0xa0, 1, 8]), section(119, &[0x40])]);
    for length in 0..whole.len() {
        let mut buf = BytesMut::from(&whole[..length]);
        assert!(matches!(RabbitMqStreamCodec.checked_decode(&mut buf), Some(Ok(None))));
        assert_eq!(buf.len(), length);
    }
    assert!(is_readable(&whole));
}

#[test]
fn messages_with_properties_are_delivered() {
    let message = Message::builder()
        .properties()
        .message_id(7u64)
        .subject("s")
        .content_type("text")
        .message_builder()
        .application_properties()
        .insert("k", "v")
        .insert("n", 5u64)
        .message_builder()
        .message_annotations()
        .insert("a", 300u32)
        .message_builder()
        .body("foo")
        .build();
    let mut content = Vec::new();
    message.encode(&mut content).unwrap();
    let body = read(&[content.clone()]).unwrap().unwrap();
    assert_eq!(body.messages.len(), 1);
    assert_eq!(body.messages[0].data(), Some(&b"foo"[..]));
    assert_eq!(body.messages[0].content, content);
    let (_, again) = <Message as Decoder>::decode(&body.messages[0].content).unwrap();
    assert_eq!(again, message);
}

#[test]
fn messages_without_data_are_delivered() {
    let value = section(119, &[0xa1, 1, b'v']);
    let body = read(&[value]).unwrap().unwrap();
    assert_eq!(body.messages[0].data(), None);
    let header = section(112, &[0xc0, 9, 5, 0x41, 0x50, 4, 0x40, 0x42, 0x52, 3]);
    let data = [header, section(117, &[0xa0, 1, 8])].concat();
    let body = read(&[data]).unwrap().unwrap();
    assert_eq!(body.messages[0].data(), Some(&[8][..]));
}

#[test]
fn descriptors_can_be_written_in_several_ways() {
    let long = vec![0, 0x80, 0, 0, 0, 0, 0, 0, 0, 117, 0xa0, 1, 8];
    let body = read(&[long]).unwrap().unwrap();
    assert_eq!(body.messages[0].data(), Some(&[8][..]));
    for descriptor in [vec![0, 0x44], vec![0, 0xa3, 1, b's'], vec![0, 0x53, 121], vec![0x40], vec![0, 0x40]] {
        let failure = read(&[descriptor]).unwrap_err();
        assert!(matches!(failure, DecodeFailure::MessageParse(_)));
    }
    let failure = read(&[vec![0, 0xa3, 1, 0xff]]).unwrap_err();
    assert!(matches!(failure, DecodeFailure::Utf8Error));
    let failure = read(&[vec![0, 0x57]]).unwrap_err();
    assert!(matches!(failure, DecodeFailure::InvalidFormatCode(0x57)));
    assert!(read(&[vec![0]]).unwrap().is_none());
    assert!(read(&[vec![0, 0x53]]).unwrap().is_none());
}

#[test]
fn simple_values_are_followed() {
    let widths: [(&[u8], usize); 6] = [
        (&[0x40, 0x41, 0x42, 0x43, 0x44], 0),
        (&[0x50, 0x51, 0x52, 0x53, 0x54, 0x55, 0x56], 1),
        (&[0x60, 0x61], 2),
        (&[0x70, 0x71, 0x72, 0x73], 4),
        (&[0x80, 0x81, 0x82, 0x83], 8),
        (&[0x98], 16),
    ];
    for (codes, width) in widths {
        for code in codes {
            let value = [vec![*code], vec![0; width]].concat();
            assert!(accepts(119, &value));
            for length in 0..value.len() {
                assert!(is_cut(119, &value[..length]));
            }
        }
    }
    for code in [0xa0, 0xa1, 0xa3] {
        assert!(accepts(119, &[code, 2, b'a', b'b']));
        assert!(is_cut(119, &[code, 2, b'a']));
    }
    for code in [0xb0, 0xb1, 0xb3] {
        assert!(accepts(119, &[code, 0, 0, 0, 2, b'a', b'b']));
        assert!(is_cut(119, &[code, 0, 0, 0, 2, b'a']));
        assert!(is_cut(119, &[code, 0xff, 0xff, 0xff, 0xff, b'a']));
    }
    assert!(accepts(119, &[0xa0, 1, 0xff]));
    let failure = read(&[section(119, &[0xa1, 1, 0xff])]).unwrap_err();
    assert!(matches!(failure, DecodeFailure::Utf8Error));
    for code in [0x01, 0x46, 0x57, 0x62, 0x74, 0x84, 0x90, 0xa2, 0xb2, 0xc2, 0xff] {
        match read(&[section(119, &[code])]).unwrap_err() {
            DecodeFailure::InvalidFormatCode(number) => assert_eq!(number, code),
            other => panic!("{:?}", other),
        }
    }
}

#[test]
fn characters_and_times_have_limits() {
    assert!(accepts(119, &[0x73, 0, 0, 0xd7, 0xff]));
    assert!(is_misplaced(119, &[0x73, 0, 0, 0xd8, 0]));
    assert!(is_misplaced(119, &[0x73, 0, 0, 0xdf, 0xff]));
    assert!(accepts(119, &[0x73, 0, 0, 0xe0, 0]));
    assert!(accepts(119, &[0x73, 0, 0x10, 0xff, 0xff]));
    assert!(is_misplaced(119, &[0x73, 0, 0x11, 0, 0]));
    let time = |millis: i64| [&[0x83][..], &millis.to_be_bytes()].concat();
    assert!(accepts(119, &time(8_210_266_876_799_999)));
    assert!(is_misplaced(119, &time(8_210_266_876_800_000)));
    assert!(accepts(119, &time(-8_334_601_228_800_000)));
    assert!(is_misplaced(119, &time(-8_334_601_228_800_001)));
    assert!(is_misplaced(119, &time(i64::MAX)));
    assert!(is_misplaced(119, &time(i64::MIN)));
    assert!(accepts(119, &time(-1)));
}

#[test]
fn collections_are_followed() {
    assert!(accepts(118, &[0x45]));
    assert!(accepts(118, &[0xc0, 0, 2, 0x40, 0x41]));
    assert!(accepts(118, &[0xd0, 0, 0, 0, 0, 0, 0, 0, 1, 0x40]));
    assert!(is_cut(118, &[0xc0, 0, 2, 0x40]));
    assert!(is_cut(118, &[0xd0, 0, 0, 0, 0, 0xff, 0xff, 0xff, 0xff, 0x40]));
    assert!(is_misplaced(118, &[0x40]));
    assert!(is_misplaced(118, &[0xc1, 0, 0]));
    assert!(accepts(119, &[0xc0, 0, 1, 0xc0, 0, 1, 0x45]));
    assert!(accepts(119, &[0, 0, 0x53, 1, 0x40]));
    assert!(is_misplaced(119, &[0, 0x53, 1, 0x40]));
    assert!(is_misplaced(119, &[0xe0, 0, 0]));
    assert!(is_misplaced(119, &[0xf0, 0, 0]));
    assert!(accepts(119, &[0xc1, 0, 2, 0x40, 0xc1, 0, 0]));
    assert!(accepts(119, &[0xd1, 0, 0, 0, 0, 0, 0, 0, 2, 0x40, 0x41]));
    assert!(is_cut(119, &[0xd1, 0, 0, 0, 0, 0, 0]));
}

#[test]
fn maps_have_keys_and_values() {
    for descriptor in [113, 114, 120] {
        assert!(accepts(descriptor, &[0xc1, 0, 4, 0xa3, 1, b'k', 0x45, 0x44, 0xc1, 0, 0]));
        assert!(accepts(descriptor, &[0xc1, 0, 4, 0x55, 1, 0x40, 0x53, 1, 0x40]));
        assert!(is_misplaced(descriptor, &[0xc1, 0, 2, 0xa1, 1, b'k', 0x40]));
        assert!(is_misplaced(descriptor, &[0xc0, 0, 0]));
        assert!(is_outside(descriptor, &[0xc1, 0, 3, 0x44, 0x40, 0x44]));
        assert!(is_outside(descriptor, &[0xc1, 0, 1]));
    }
    assert!(accepts(116, &[0xc1, 0, 2, 0xa1, 1, b'k', 0xa1, 1, b'v']));
    assert!(is_misplaced(116, &[0xc1, 0, 2, 0xa3, 1, b'k', 0xa1, 1, b'v']));
    assert!(is_misplaced(116, &[0xc1, 0, 2, 0xa1, 1, b'k', 0x45]));
    assert!(is_outside(116, &[0xc1, 0, 3, 0xa1, 1, b'k', 0x40]));
    assert!(is_misplaced(116, &[0xc1, 0, 3, 0x40]));
    assert!(is_outside(119, &[0xc1, 0, 2, 0xc1, 0, 0, 0x40]));
    assert!(is_outside(119, &[0xc1, 0, 2, 0xc0, 0, 1, 0xc1, 0, 0, 0x40]));
    assert!(is_cut(119, &[0xc1, 0, 2, 0xc1, 0, 0]));
    assert!(is_outside(119, &[0xc1, 0, 1, 0x40]));
}

#[test]
fn records_have_fields() {
    assert!(accepts(112, &[0x45]));
    assert!(accepts(112, &[0xc0, 0, 2, 0x40, 0x50, 1]));
    assert!(is_misplaced(112, &[0xc0, 0, 1, 0x50, 1]));
    assert!(is_misplaced(112, &[0xc1, 0, 0]));
    assert!(is_misplaced(112, &[0xc0, 0, 2, 0x40, 0x41]));
    let full = [0xc0, 0, 13, 0xa1, 1, b'm', 0xa0, 0, 0x40, 0xa1, 0, 0x40, 0x98];
    let rest = [0xa3, 1, b'c', 0x40, 0x83, 0, 0, 0, 0, 0, 0, 0, 0, 0x40, 0xa1, 0, 0x43, 0x40];
    assert!(accepts(115, &[&full[..], &[0; 16], &rest[..]].concat()));
    assert!(is_misplaced(115, &[0xc0, 0, 1, 0x43]));
    assert!(is_cut(115, &[0xc0, 0, 1]));
    // What follows the last field that is known is the next section.
    let extra = [section(112, &[0xc0, 0, 9, 0x40, 0x40, 0x40, 0x40, 0x40]), section(117, &[0xa0, 1, 8])];
    assert_eq!(read(&[extra.concat()]).unwrap().unwrap().messages[0].data(), Some(&[8][..]));
}

#[test]
fn values_are_nested_deeply() {
    let nested = |depth: usize, end: &[u8]| [[0xc0, 0, 1].repeat(depth), end.to_vec()].concat();
    for depth in [1, 127, 128, 129, 200, 1000] {
        let data = section(117, &[0xa0, 1, 8]);
        let message = [section(119, &nested(depth, &[0x40])), data.clone()].concat();
        let body = read(&[message.clone(), data]).unwrap().unwrap();
        assert_eq!((body.subscription_id, body.chunk_first_offset), (5, 258));
        assert_eq!(body.messages.len(), 2);
        assert_eq!(body.messages[0].data(), Some(&[8][..]));
        assert_eq!(body.messages[0].content, message);
        assert_eq!(body.messages[1].data(), Some(&[8][..]));
        assert_eq!(read(&[section(119, &nested(depth, &[0x40]))]).unwrap().unwrap().messages[0].data(), None);
        assert!(is_cut(119, &nested(depth, &[])));
        assert!(is_misplaced(119, &nested(depth, &[0xe0])));
        assert!(is_outside(119, &nested(depth, &[0xc1, 0, 1])));
        let failure = read(&[section(119, &nested(depth, &[0x57]))]).unwrap_err();
        assert!(matches!(failure, DecodeFailure::InvalidFormatCode(0x57)));
        let failure = read(&[section(119, &nested(depth, &[0xa1, 1, 0xff]))]).unwrap_err();
        assert!(matches!(failure, DecodeFailure::Utf8Error));
    }
    for depth in [127, 128, 129, 200] {
        for end in [&[0x40][..], &[], &[0xe0], &[0x57], &[0xa1, 1, 0xff]] {
            let message = section(119, &nested(depth, end));
            assert!(agrees(&delivery(&[message, section(117, &[0xa0, 0])])));
        }
        let described = section(119, &[[0, 0, 0x53, 1].repeat(depth), vec![0x40]].concat());
        assert!(agrees(&delivery(&[described.clone()])));
        assert!(read(&[described]).unwrap().is_some());
    }
}

#[test]
fn deep_values_are_told_apart() {
    let nested = |depth: usize| section(119, &[[0xc0, 0, 1].repeat(depth), vec![0x40]].concat());
    assert!(are_values_shallow(&delivery(&[nested(128)])));
    assert!(!are_values_shallow(&delivery(&[nested(1), nested(129)])));
    assert!(are_values_shallow(&[]));
}

#[test]
fn sizes_of_messages_have_limits() {
    let mut bytes = delivery(&[]);
    bytes[16] = 1;
    bytes.extend([0x80, 0, 0, 0]);
    assert!(!is_readable(&bytes));
}

/// Numbers that look like chance.
struct Numbers(u64);

impl Numbers {
    fn below(&mut self, limit: u64) -> u64 {
        self.0 = self.0.wrapping_mul(6364136223846793005).wrapping_add(1442695040888963407);
        (self.0 >> 33) % limit
    }

    fn pick<T: Copy>(&mut self, choices: &[T]) -> T {
        choices[self.below(choices.len() as u64) as usize]
    }

    fn bytes(&mut self, count: usize) -> Vec<u8> {
        (0..count).map(|_| self.below(0x80) as u8).collect()
    }

    fn sized(&mut self, code: u8) -> Vec<u8> {
        let count = self.below(4) as usize;
        let head = if code < 0xb0 { vec![code, count as u8] } else { vec![code, 0, 0, 0, count as u8] };
        [head, self.bytes(count)].concat()
    }

    fn simple(&mut self) -> Vec<u8> {
        let codes = [
            0x40, 0x41, 0x42, 0x43, 0x44, 0x50, 0x51, 0x52, 0x53, 0x54, 0x55, 0x56, 0x60, 0x61, 0x70, 0x71, 0x72,
            0x73, 0x80, 0x81, 0x82, 0x83, 0x98, 0xa0, 0xa1, 0xa3, 0xb0, 0xb1, 0xb3,
        ];
        let code: u8 = self.pick(&codes);
        match code {
            0xa0.. => self.sized(code),
            0x73 => [vec![code, 0, 0], self.bytes(2)].concat(),
            0x83 => [vec![code, 0, 0], self.bytes(6)].concat(),
            0x98 => [vec![code], self.bytes(16)].concat(),
            _ => [vec![code], self.bytes([0, 1, 2, 4, 8][(code >> 4) as usize - 4])].concat(),
        }
    }

    fn value(&mut self, depth: u64) -> Vec<u8> {
        if depth == 0 || self.below(3) > 0 {
            return self.simple();
        }
        match self.below(4) {
            0 => [vec![0, 0, 0x53, 1], self.value(depth - 1)].concat(),
            1 => {
                let count = self.below(3) * 2;
                self.items(0xc1, count, |numbers, _| numbers.value(depth - 1))
            }
            _ => {
                let count = self.below(4);
                self.items(0xc0, count, |numbers, _| numbers.value(depth - 1))
            }
        }
    }

    fn items(&mut self, code: u8, count: u64, make: impl Fn(&mut Numbers, u64) -> Vec<u8>) -> Vec<u8> {
        let mut bytes = vec![code, 0, count as u8];
        for i in 0..count {
            bytes.extend(make(self, i));
        }
        bytes
    }

    fn annotations(&mut self) -> Vec<u8> {
        let count = self.below(3) * 2;
        self.items(0xc1, count, |numbers, i| match (i % 2, numbers.below(3)) {
            (1, _) => numbers.value(2),
            (_, 0) => numbers.sized(0xa3),
            (_, 1) => vec![0x53, 1],
            _ => vec![0x44],
        })
    }

    fn properties(&mut self) -> Vec<u8> {
        let count = self.below(14);
        self.items(0xc0, count, |numbers, i| {
            if numbers.below(3) == 0 {
                return vec![0x40];
            }
            match i {
                0 | 5 => match numbers.below(4) {
                    0 => vec![0x44],
                    1 => vec![0x55, 1],
                    2 => [vec![0x98], numbers.bytes(16)].concat(),
                    _ => numbers.sized(0xa1),
                },
                1 => numbers.sized(0xa0),
                6 | 7 => numbers.sized(0xa3),
                8 | 9 => vec![0x83, 0, 0, 0, 0, 0, 0, 0, 1],
                11 => vec![0x52, 1],
                _ => numbers.sized(0xb1),
            }
        })
    }

    fn header(&mut self) -> Vec<u8> {
        let count = self.below(6);
        self.items(0xc0, count, |_, i| match i {
            0 | 3 => vec![0x56, 1],
            1 => vec![0x50, 1],
            _ => vec![0x70, 0, 0, 0, 1],
        })
    }

    fn section(&mut self) -> Vec<u8> {
        let descriptor = 112 + self.below(9) as u8;
        let value = match descriptor {
            112 => self.header(),
            113 | 114 | 120 => self.annotations(),
            115 => self.properties(),
            116 => {
                let count = self.below(3) * 2;
                self.items(0xc1, count, |numbers, i| match i % 2 {
                    0 => numbers.sized(0xa1),
                    _ => numbers.simple(),
                })
            }
            117 => self.sized(0xa0),
            118 => {
                let count = self.below(4);
                self.items(0xc0, count, |numbers, _| numbers.value(2))
            }
            _ => self.value(3),
        };
        section(descriptor, &value)
    }

    fn message(&mut self) -> Vec<u8> {
        let mut content = Vec::new();
        for _ in 0..self.below(4) {
            content.extend(self.section());
        }
        match self.below(3) {
            0 if !content.is_empty() => {
                let at = self.below(content.len() as u64) as usize;
                let codes = [
                    0x00, 0x01, 0x03, 0x40, 0x44, 0x45, 0x52, 0x53, 0x70, 0x72, 0x73, 0x74, 0x75, 0x77, 0x83, 0xa0,
                    0xa1, 0xa3, 0xb1, 0xc0, 0xc1, 0xd1, 0xe0, 0xff,
                ];
                content[at] = self.pick(&codes);
            }
            1 => {
                let length = self.below(content.len() as u64 + 1) as usize;
                content.truncate(length);
            }
            _ => (),
        }
        content
    }
}

/// What the protocol crate makes of a frame is what the library says of it.
fn agrees(bytes: &[u8]) -> bool {
    match step_frame(bytes) {
        Step::Outside => true,
        Step::At(end) => match Response::decode(bytes) {
            Ok((rest, _)) => rest.len() == bytes.len() - end,
            Err(_) => false,
        },
        Step::Short => matches!(Response::decode(bytes), Err(DecodeError::Incomplete(_))),
        Step::Bad(Malformed::Text) => matches!(Response::decode(bytes), Err(DecodeError::Utf8Error(_))),
        Step::Bad(Malformed::Message) => {
            matches!(Response::decode(bytes), Err(DecodeError::MessageParse(_)))
        }
        Step::Bad(Malformed::Format(code)) => {
            matches!(Response::decode(bytes), Err(DecodeError::InvalidFormatCode(number)) if number == code)
        }
        Step::Bad(Malformed::Code(code)) => {
            matches!(Response::decode(bytes), Err(DecodeError::UnknownResponseCode(number)) if number == code)
        }
        Step::Bad(Malformed::Key(key)) => {
            matches!(Response::decode(bytes), Err(DecodeError::UnsupportedResponseType(number)) if number == key)
        }
    }
}

#[test]
fn messages_reach_as_far_as_they_are_read() {
    let mut numbers = Numbers(1);
    let mut whole = 0;
    let mut outside = 0;
    for _ in 0..20_000 {
        let messages = [numbers.message(), numbers.message()];
        let bytes = delivery(&messages);
        assert!(agrees(&bytes), "{:?}", messages);
        match step_frame(&bytes) {
            Step::At(_) => {
                whole += 1;
                let body = read(&messages).unwrap().unwrap();
                for (message, content) in body.messages.iter().zip(&messages) {
                    let (_, original) = <Message as Decoder>::decode(content).unwrap();
                    assert_eq!(message.data(), original.data());
                    assert_eq!(&message.content, content);
                }
            }
            Step::Outside => outside += 1,
            _ => (),
        }
    }
    assert!(whole > 2_000);
    assert!(outside < 10_000);
}

impl Numbers {
    fn text(&mut self) -> Vec<u8> {
        let count = self.below(4) as usize;
        let mut bytes = vec![0, count as u8];
        bytes.extend((0..count).map(|_| self.pick(&[b'a', b'b', b'c', 0xff])));
        bytes
    }

    fn code(&mut self) -> Vec<u8> {
        vec![0, self.pick(&[0, 1, 1, 1, 2, 19, 20])]
    }

    fn listed(&mut self, make: impl Fn(&mut Numbers) -> Vec<u8>) -> Vec<u8> {
        let count = self.below(4) as u8;
        let mut bytes = vec![0, 0, 0, count];
        for _ in 0..count {
            bytes.extend(make(self));
        }
        bytes
    }

    fn body(&mut self, key: u8) -> Vec<u8> {
        let outcome = [vec![0, 0, 0, 1], self.code()].concat();
        match key {
            3 => [vec![1], self.listed(|numbers| numbers.bytes(8))].concat(),
            4 => [vec![1], self.listed(|numbers| [numbers.bytes(8), numbers.code()].concat())].concat(),
            5 | 11 => [outcome, self.bytes(8)].concat(),
            9 => [self.code(), vec![1]].concat(),
            15 => {
                let broker = |numbers: &mut Numbers| [vec![0, 1], numbers.text(), vec![0, 0, 0, 9]].concat();
                let replica = |numbers: &mut Numbers| numbers.bytes(2);
                let stream = |numbers: &mut Numbers| {
                    [numbers.text(), numbers.code(), vec![0, 1], numbers.listed(replica)].concat()
                };
                [vec![0, 0, 0, 1], self.listed(broker), self.listed(stream)].concat()
            }
            16 => [self.code(), self.text()].concat(),
            17 | 21 => [outcome, self.listed(|numbers| [numbers.text(), numbers.text()].concat())].concat(),
            18 | 24 | 25 => [outcome, self.listed(Numbers::text)].concat(),
            20 => self.bytes(8),
            26 => self.bytes(6),
            27 => [outcome, self.listed(|numbers| numbers.bytes(6))].concat(),
            _ => outcome,
        }
    }
}

#[test]
fn frames_reach_as_far_as_they_are_read() {
    let mut numbers = Numbers(2);
    let mut whole = 0;
    for round in 0..20_000u32 {
        let key = (round % 32) as u8;
        if key == 8 {
            continue;
        }
        let body = numbers.body(key);
        let mut bytes = vec![0, 0, 0, 0, marked(round), key, 0, 1];
        bytes.extend(body);
        if numbers.below(2) == 0 {
            let length = numbers.below(bytes.len() as u64 + 1) as usize;
            bytes.truncate(length);
        } else {
            let more = numbers.below(3) as usize;
            bytes.extend(numbers.bytes(more));
        }
        assert!(agrees(&bytes), "{:?}", bytes);
        if let Step::At(_) = step_frame(&bytes) {
            whole += 1;
            let mut buf = BytesMut::from(&bytes[..]);
            let response = RabbitMqStreamCodec.checked_decode(&mut buf).unwrap().unwrap().unwrap();
            let (_, original) = Response::decode(&bytes).unwrap();
            assert_eq!(response.correlation_id, original.correlation_id());
        }
    }
    assert!(whole > 2_000);
}

/// The first byte of a key, which tells a request from an answer.
fn marked(round: u32) -> u8 {
    if round % 3 == 0 {
        0
    } else {
        0x80
    }
}
