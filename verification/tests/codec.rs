use bytes::BytesMut;
use rabbitmq_stream_client::codec::{buffered_len, RabbitMqStreamCodec};
use rabbitmq_stream_client::error::{ClientError, DecodeFailure, EncodeFailure};
use rabbitmq_stream_client::layout::is_readable;
use rabbitmq_stream_client::properties::Properties;
use rabbitmq_stream_client::request::{OffsetSpecification, PublishedData, Request};
use rabbitmq_stream_client::response::{Response, ResponseCode, ResponseKind};
use rabbitmq_stream_client::sizes::fits;

fn encoded(request: Request) -> Vec<u8> {
    let mut buf = BytesMut::new();
    assert!(fits(&request, buf.len()));
    RabbitMqStreamCodec.encode(request, &mut buf).unwrap();
    buf.to_vec()
}

fn framed(key: u16, body: &[u8]) -> Vec<u8> {
    let mut bytes = ((body.len() + 4) as u32).to_be_bytes().to_vec();
    bytes.extend(key.to_be_bytes());
    bytes.extend([0, 1]);
    bytes.extend(body);
    bytes
}

fn decoded(bytes: &[u8]) -> (Result<Option<Response>, ClientError>, Vec<u8>) {
    assert!(is_readable(bytes));
    let mut buf = BytesMut::from(bytes);
    let result = RabbitMqStreamCodec.decode(&mut buf);
    (result, buf.to_vec())
}

/// Decodes one frame with other bytes behind it.
fn one(key: u16, body: &[u8]) -> Response {
    let mut bytes = framed(key, body);
    bytes.extend([9, 9, 9]);
    let (result, rest) = decoded(&bytes);
    assert_eq!(rest, [9, 9, 9]);
    result.unwrap().unwrap()
}

fn one_property() -> Properties {
    Properties::new().insert("k".to_string(), "vw".to_string())
}

const ONE_PROPERTY: [u8; 11] = [0, 0, 0, 1, 0, 1, b'k', 0, 2, b'v', b'w'];

fn body(parts: &[&[u8]]) -> Vec<u8> {
    parts.concat()
}

#[test]
fn heartbeats_have_no_body() {
    assert_eq!(encoded(Request::Heartbeat), [0, 0, 0, 4, 0, 23, 0, 1]);
}

#[test]
fn session_requests_are_encoded() {
    assert_eq!(
        encoded(Request::PeerProperties { correlation_id: 1, client_properties: one_property() }),
        framed(17, &body(&[&[0, 0, 0, 1], &ONE_PROPERTY]))
    );
    assert_eq!(
        encoded(Request::SaslHandshake { correlation_id: 0x01020304 }),
        framed(18, &[1, 2, 3, 4]),
    );
    assert_eq!(
        encoded(Request::SaslAuthenticate {
            correlation_id: 3,
            mechanism: "PLAIN".to_string(),
            sasl_data: vec![0, 7],
        }),
        framed(19, &body(&[&[0, 0, 0, 3, 0, 5], b"PLAIN", &[0, 0, 0, 2, 0, 7]]))
    );
    assert_eq!(
        encoded(Request::Tunes { max_frame_size: 258, heartbeat: 60 }),
        framed(20, &[0, 0, 1, 2, 0, 0, 0, 60])
    );
    assert_eq!(
        encoded(Request::Open { correlation_id: 4, virtual_host: "/ä".to_string() }),
        framed(21, &body(&[&[0, 0, 0, 4, 0, 3], "/ä".as_bytes()]))
    );
    assert_eq!(
        encoded(Request::Close {
            correlation_id: 5,
            closing_code: ResponseCode::OffsetNotFound,
            closing_reason: "Ok".to_string(),
        }),
        framed(22, &body(&[&[0, 0, 0, 5, 0, 19, 0, 2], b"Ok"]))
    );
    assert_eq!(
        encoded(Request::ExchangeCommandVersions { correlation_id: 6 }),
        framed(27, &[0, 0, 0, 6, 0, 0, 0, 0])
    );
}

#[test]
fn stream_requests_are_encoded() {
    assert_eq!(
        encoded(Request::CreateStream {
            correlation_id: 1,
            stream: "s".to_string(),
            arguments: one_property(),
        }),
        framed(13, &body(&[&[0, 0, 0, 1, 0, 1, b's'], &ONE_PROPERTY]))
    );
    assert_eq!(
        encoded(Request::Delete { correlation_id: 1, stream: "st".to_string() }),
        framed(14, &[0, 0, 0, 1, 0, 2, b's', b't'])
    );
    assert_eq!(
        encoded(Request::Metadata {
            correlation_id: 2,
            streams: vec!["a".to_string(), "bc".to_string()],
        }),
        framed(15, &[0, 0, 0, 2, 0, 0, 0, 2, 0, 1, b'a', 0, 2, b'b', b'c'])
    );
    assert_eq!(
        encoded(Request::CreateSuperStream {
            correlation_id: 3,
            super_stream: "s".to_string(),
            partitions: vec!["s-0".to_string()],
            binding_keys: vec!["0".to_string()],
            arguments: Properties::new(),
        }),
        framed(
            29,
            &[
                0, 0, 0, 3, 0, 1, b's', 0, 0, 0, 1, 0, 3, b's', b'-', b'0', 0, 0, 0, 1, 0, 1, b'0', 0, 0, 0,
                0
            ]
        )
    );
    assert_eq!(
        encoded(Request::DeleteSuperStream { correlation_id: 1, super_stream: "s".to_string() }),
        framed(30, &[0, 0, 0, 1, 0, 1, b's'])
    );
    assert_eq!(
        encoded(
            Request::SuperStreamPartitions { correlation_id: 1, super_stream: "s".to_string() },
        ),
        framed(25, &[0, 0, 0, 1, 0, 1, b's'])
    );
    assert_eq!(
        encoded(Request::SuperStreamRoute {
            correlation_id: 1,
            routing_key: "k".to_string(),
            super_stream: "s".to_string(),
        }),
        framed(24, &[0, 0, 0, 1, 0, 1, b'k', 0, 1, b's'])
    );
}

#[test]
fn publishing_requests_are_encoded() {
    assert_eq!(
        encoded(Request::DeclarePublisher {
            correlation_id: 1,
            publisher_id: 9,
            publisher_reference: Some("r".to_string()),
            stream: "s".to_string(),
        }),
        framed(1, &[0, 0, 0, 1, 9, 0, 1, b'r', 0, 1, b's'])
    );
    assert_eq!(
        encoded(Request::DeclarePublisher {
            correlation_id: 1,
            publisher_id: 9,
            publisher_reference: None,
            stream: "s".to_string(),
        }),
        framed(1, &[0, 0, 0, 1, 9, 0, 0, 0, 1, b's'])
    );
    assert_eq!(
        encoded(Request::DeletePublisher { correlation_id: 1, publisher_id: 255 }),
        framed(6, &[0, 0, 0, 1, 255])
    );
    assert_eq!(
        encoded(Request::QueryPublisherSequence {
            correlation_id: 1,
            reference: "r".to_string(),
            stream: "s".to_string(),
        }),
        framed(5, &[0, 0, 0, 1, 0, 1, b'r', 0, 1, b's'])
    );
}

#[test]
fn consuming_requests_are_encoded() {
    let starts: [(OffsetSpecification, Vec<u8>); 6] = [
        (OffsetSpecification::First, vec![0, 1]),
        (OffsetSpecification::Last, vec![0, 2]),
        (OffsetSpecification::Next, vec![0, 3]),
        (OffsetSpecification::Offset(258), vec![0, 4, 0, 0, 0, 0, 0, 0, 1, 2]),
        (OffsetSpecification::Timestamp(258), vec![0, 5, 0, 0, 0, 0, 0, 0, 1, 2]),
        (OffsetSpecification::Timestamp(-2), vec![0, 5, 255, 255, 255, 255, 255, 255, 255, 254]),
    ];
    for (offset_specification, start) in starts {
        assert_eq!(
            encoded(Request::Subscribe {
                correlation_id: 1,
                subscription_id: 7,
                stream: "s".to_string(),
                offset_specification,
                credit: 515,
                properties: one_property(),
            }),
            framed(7, &body(&[&[0, 0, 0, 1, 7, 0, 1, b's'], &start, &[2, 3], &ONE_PROPERTY]))
        );
        assert_eq!(
            encoded(
                Request::ConsumerUpdateRequest {
                    correlation_id: 1,
                    response_code: 1,
                    offset_specification,
                },
            ),
            framed(32794, &body(&[&[0, 0, 0, 1, 0, 1], &start]))
        );
    }
    assert_eq!(
        encoded(Request::Unsubscribe { correlation_id: 1, subscription_id: 7 }),
        framed(12, &[0, 0, 0, 1, 7])
    );
    assert_eq!(encoded(Request::Credit { subscription_id: 7, credit: 515 }), framed(9, &[7, 2, 3]));
    assert_eq!(
        encoded(
            Request::StoreOffset {
                reference: "r".to_string(),
                stream: "s".to_string(),
                offset: 258,
            },
        ),
        framed(10, &[0, 1, b'r', 0, 1, b's', 0, 0, 0, 0, 0, 0, 1, 2])
    );
    assert_eq!(
        encoded(Request::QueryOffset {
            correlation_id: 1,
            reference: "r".to_string(),
            stream: "s".to_string(),
        }),
        framed(11, &[0, 0, 0, 1, 0, 1, b'r', 0, 1, b's'])
    );
}

fn message(publishing_id: u64, data: Vec<u8>, filter: Option<&str>) -> PublishedData {
    PublishedData { publishing_id, data, filter_value: filter.map(|value| value.to_string()) }
}

fn framed_version(key: u16, version: u8, body: &[u8]) -> Vec<u8> {
    let mut bytes = framed(key, body);
    bytes[7] = version;
    bytes
}

#[test]
fn messages_are_encoded() {
    let foo: &[u8] = &[0, 0x53, 0x75, 0xa0, 3, b'f', b'o', b'o'];
    let first = body(&[&[0, 0, 0, 0, 0, 0, 1, 2], &[0, 0, 0, 8], foo]);
    assert_eq!(
        encoded(Request::Publish {
            publisher_id: 9,
            messages: vec![message(258, b"foo".to_vec(), Some("f"))],
            version: 1,
        }),
        framed_version(2, 1, &body(&[&[9, 0, 0, 0, 1], &first]))
    );
    assert_eq!(
        encoded(Request::Publish {
            publisher_id: 9,
            messages: vec![message(1, b"foo".to_vec(), Some("f")), message(2, vec![], None)],
            version: 2,
        }),
        framed_version(
            2,
            2,
            &body(&[
                &[9, 0, 0, 0, 2],
                &[0, 0, 0, 0, 0, 0, 0, 1, 0, 1, b'f', 0, 0, 0, 8],
                foo,
                &[0, 0, 0, 0, 0, 0, 0, 2, 0, 0, 0, 0, 0, 5, 0, 0x53, 0x75, 0xa0, 0],
            ])
        )
    );
    let long = vec![7; 256];
    assert_eq!(
        encoded(Request::Publish { publisher_id: 1, messages: vec![message(0, long.clone(), None)], version: 1 }),
        framed_version(
            2,
            1,
            &body(&[
                &[1, 0, 0, 0, 1, 0, 0, 0, 0, 0, 0, 0, 0, 0, 0, 1, 8],
                &[0, 0x53, 0x75, 0xb0, 0, 0, 1, 0],
                &long,
            ])
        )
    );
}

/// The body of a delivery.
#[test]
fn tables_are_encoded_in_some_order() {
    let client_properties = one_property().insert("x".to_string(), "y".to_string());
    let bytes = encoded(Request::PeerProperties { correlation_id: 1, client_properties });
    let first: &[u8] = &[0, 1, b'k', 0, 2, b'v', b'w'];
    let second: &[u8] = &[0, 1, b'x', 0, 1, b'y'];
    let head: &[u8] = &[0, 0, 0, 1, 0, 0, 0, 2];
    let one_way = framed(17, &body(&[head, first, second]));
    let other_way = framed(17, &body(&[head, second, first]));
    assert!(bytes == one_way || bytes == other_way);
}

#[test]
fn frames_are_appended() {
    let mut buf = BytesMut::from(&[1u8, 2][..]);
    RabbitMqStreamCodec.encode(Request::Heartbeat, &mut buf).unwrap();
    assert_eq!(buf.to_vec(), [1, 2, 0, 0, 0, 4, 0, 23, 0, 1]);
}

#[test]
fn long_references_are_refused() {
    let long = "ä".repeat(128);
    let kept = "r".repeat(255);
    let mut bytes = vec![0, 0, 0, 1, 0, 255];
    bytes.extend(kept.as_bytes());
    bytes.extend([0, 1, b's']);
    assert_eq!(
        encoded(
            Request::QueryOffset { correlation_id: 1, reference: kept, stream: "s".to_string() },
        ),
        framed(11, &bytes)
    );
    let requests = [
        (11u8, 8 + 4 + 2 + 256 + 3 - 4, Request::QueryOffset {
            correlation_id: 1,
            reference: long.clone(),
            stream: "s".to_string(),
        }),
        (5, 8 + 4 + 2 + 256 + 3 - 4, Request::QueryPublisherSequence {
            correlation_id: 1,
            reference: long.clone(),
            stream: "s".to_string(),
        }),
        (
            10,
            8 + 2 + 256 + 3 + 8 - 4,
            Request::StoreOffset { reference: long, stream: "s".to_string(), offset: 1 },
        ),
    ];
    for (key, size, request) in requests {
        let mut buf = BytesMut::new();
        let result = RabbitMqStreamCodec.encode(request, &mut buf);
        assert!(matches!(result, Err(ClientError::Encode(EncodeFailure::MaxSizeError(256)))));
        let size = (size as u32).to_be_bytes();
        assert_eq!(buf.to_vec(), [size[0], size[1], size[2], size[3], 0, key, 0, 1]);
    }
}

#[test]
fn requests_fit_into_small_buffers() {
    assert!(fits(&Request::Heartbeat, 0));
    assert!(fits(&Request::Heartbeat, isize::MAX as usize - 8));
    assert!(!fits(&Request::Heartbeat, isize::MAX as usize - 7));
    let request = Request::CreateStream {
        correlation_id: 1,
        stream: "s".to_string(),
        arguments: one_property(),
    };
    let size = 8 + 7 + ONE_PROPERTY.len();
    assert!(fits(&request, isize::MAX as usize - size));
    assert!(!fits(&request, isize::MAX as usize - size + 1));
}

#[test]
fn outcomes_are_decoded() {
    for key in [1, 6, 7, 12, 13, 14, 19, 29, 30] {
        let response = one(key | 0x8000, &[0, 0, 1, 2, 0, 5]);
        assert_eq!(response.correlation_id, Some(258));
        match response.kind {
            ResponseKind::Generic(body) => {
                assert!(body.code == ResponseCode::StreamAlreadyExists);
                assert!(!body.is_ok());
            }
            other => panic!("{:?}", other),
        }
    }
}

#[test]
fn session_responses_are_decoded() {
    let response = one(17 | 0x8000, &body(&[&[0, 0, 0, 1, 0, 1], &ONE_PROPERTY]));
    assert_eq!(response.correlation_id, Some(1));
    match response.kind {
        ResponseKind::PeerProperties(body) => {
            assert_eq!(body.server_properties.len(), 1);
            assert_eq!(body.server_properties.get("k").unwrap(), "vw");
        }
        other => panic!("{:?}", other),
    }
    let response = one(18, &[0, 0, 0, 2, 0, 1, 0, 0, 0, 3, 0, 1, b'P', 0, 0, 0, 2, b'A', b'B']);
    assert_eq!(response.correlation_id, Some(2));
    match response.kind {
        ResponseKind::SaslHandshake(body) => assert_eq!(body.mechanisms, ["P", "AB"]),
        other => panic!("{:?}", other),
    }
    let response = one(20, &[0, 0, 1, 2, 0, 0, 0, 60]);
    assert_eq!(response.correlation_id, None);
    match response.kind {
        ResponseKind::Tunes(body) => assert_eq!((body.max_frame_size, body.heartbeat), (258, 60)),
        other => panic!("{:?}", other),
    }
    let response = one(21, &body(&[&[0, 0, 0, 4, 0, 1], &ONE_PROPERTY]));
    assert_eq!(response.correlation_id, Some(4));
    match response.kind {
        ResponseKind::Open(body) => {
            assert!(body.is_ok());
            assert_eq!(body.connection_properties.get("k").unwrap(), "vw");
        }
        other => panic!("{:?}", other),
    }
    match one(21, &[0, 0, 0, 4, 0, 12]).kind {
        ResponseKind::Open(body) => {
            assert!(body.code == ResponseCode::VirtualHostAccessFailure);
            assert_eq!(body.connection_properties.len(), 0);
        }
        other => panic!("{:?}", other),
    }
    let response = one(22, &[0, 0, 0, 5, 0, 1]);
    assert_eq!(response.correlation_id, Some(5));
    assert!(matches!(response.kind, ResponseKind::Close(body) if body.ok));
    assert!(matches!(one(22, &[0, 0, 0, 5, 0, 2]).kind, ResponseKind::Close(body) if !body.ok));
    let response = one(23, &[]);
    assert_eq!(response.correlation_id, None);
    assert!(matches!(response.kind, ResponseKind::Heartbeat));
}

#[test]
fn texts_are_decoded_up_to_their_longest() {
    let content = "ä".repeat(16383) + "x";
    let mut bytes = vec![0, 0, 0, 2, 0, 1, 0, 0, 0, 1, 0x7f, 0xff];
    bytes.extend(content.as_bytes());
    match one(18, &bytes).kind {
        ResponseKind::SaslHandshake(body) => assert_eq!(body.mechanisms, [content]),
        other => panic!("{:?}", other),
    }
}

#[test]
fn later_properties_replace_earlier_ones() {
    let pairs: [&[u8]; 4] = [
        &[0, 1, b'k', 0, 1, b'a'],
        &[0, 1, b'k', 0, 1, b'b'],
        &[0, 0, 0, 1, b'c'],
        &[0, 1, b'l', 0, 0],
    ];
    let bytes = body(&[&[0, 0, 0, 1, 0, 1, 0, 0, 0, 4], pairs[0], pairs[1], pairs[2], pairs[3]]);
    match one(17, &bytes).kind {
        ResponseKind::PeerProperties(body) => {
            assert_eq!(body.server_properties.len(), 1);
            assert_eq!(body.server_properties.get("k").unwrap(), "b");
        }
        other => panic!("{:?}", other),
    }
}

#[test]
fn versions_are_decoded() {
    let commands: &[u8] = &[0, 0, 0, 3, 0, 1, 0, 3, 0, 4, 0, 2, 0, 1, 0, 2, 0, 2, 0, 9, 0, 9];
    let response = one(27, &body(&[&[0, 0, 0, 5, 0, 1], commands]));
    assert_eq!(response.correlation_id, Some(5));
    match response.kind {
        ResponseKind::ExchangeCommandVersions(body) => {
            assert!(body.is_ok());
            assert_eq!(body.key_version(2), (1, 2));
            assert_eq!(body.key_version(1), (3, 4));
            assert_eq!(body.key_version(7), (1, 1));
            assert_eq!(body.commands.len(), 3);
            assert_eq!((body.commands[2].min_version, body.commands[2].max_version), (9, 9));
        }
        other => panic!("{:?}", other),
    }
    match one(27, &[0, 0, 0, 5, 0, 15, 0, 0, 0, 0]).kind {
        ResponseKind::ExchangeCommandVersions(body) => {
            assert!(body.code() == ResponseCode::InternalError);
            assert_eq!(body.key_version(2), (1, 1));
            assert!(body.commands.is_empty());
        }
        other => panic!("{:?}", other),
    }
}

#[test]
fn queries_are_decoded() {
    let response = one(11, &[0, 0, 0, 6, 0, 1, 0, 0, 0, 0, 0, 0, 1, 2]);
    assert_eq!(response.correlation_id, Some(6));
    match response.kind {
        ResponseKind::QueryOffset(body) => {
            assert!(body.is_ok());
            assert_eq!(body.offset, 258);
        }
        other => panic!("{:?}", other),
    }
    let response = one(5, &[0, 0, 0, 7, 0, 1, 1, 0, 0, 0, 0, 0, 0, 2]);
    assert_eq!(response.correlation_id, Some(7));
    match response.kind {
        ResponseKind::QueryPublisherSequence(body) => assert_eq!(body.sequence, 0x0100000000000002),
        other => panic!("{:?}", other),
    }
    let streams: &[u8] = &[0, 0, 0, 2, 0, 1, b'a', 0, 1, b'b'];
    let response = one(25, &body(&[&[0, 0, 0, 8, 0, 1], streams]));
    assert_eq!(response.correlation_id, Some(8));
    match response.kind {
        ResponseKind::SuperStreamPartitions(body) => {
            assert!(body.ok);
            assert_eq!(body.streams, ["a", "b"]);
        }
        other => panic!("{:?}", other),
    }
    let response = one(24, &body(&[&[0, 0, 0, 9, 0, 2], streams]));
    assert_eq!(response.correlation_id, Some(9));
    match response.kind {
        ResponseKind::SuperStreamRoute(body) => {
            assert!(!body.ok);
            assert_eq!(body.streams, ["a", "b"]);
        }
        other => panic!("{:?}", other),
    }
}

#[test]
fn metadata_is_decoded() {
    let brokers: &[u8] = &[0, 0, 0, 2, 0, 1, 0, 1, b'h', 0, 0, 21, 176, 0, 2, 0, 2, b'h', b'2', 0, 0, 0, 1];
    let streams: &[u8] = &[0, 0, 0, 1, 0, 1, b's', 0, 1, 0, 2, 0, 0, 0, 2, 0, 1, 0, 3];
    let response = one(15, &body(&[&[0, 0, 0, 3], brokers, streams]));
    assert_eq!(response.correlation_id, Some(3));
    match response.kind {
        ResponseKind::Metadata(body) => {
            assert_eq!(body.brokers.len(), 2);
            assert_eq!((body.brokers[0].reference, body.brokers[0].port), (1, 5552));
            assert_eq!(body.brokers[0].host, "h");
            assert_eq!((body.brokers[1].reference, body.brokers[1].port), (2, 1));
            assert_eq!(body.brokers[1].host, "h2");
            assert_eq!(body.stream_metadata.len(), 1);
            assert_eq!(body.stream_metadata[0].stream_name, "s");
            assert!(body.stream_metadata[0].code == ResponseCode::Success);
            assert_eq!(body.stream_metadata[0].leader_reference, 2);
            assert_eq!(body.stream_metadata[0].replicas_references, [1, 3]);
        }
        other => panic!("{:?}", other),
    }
}

#[test]
fn confirmations_are_decoded() {
    let ids: &[u8] = &[0, 0, 0, 2, 0, 0, 0, 0, 0, 0, 0, 5, 1, 0, 0, 0, 0, 0, 0, 6];
    let response = one(3, &body(&[&[7], ids]));
    assert_eq!(response.correlation_id, None);
    match response.kind {
        ResponseKind::PublishConfirm(body) => {
            assert_eq!(body.publisher_id, 7);
            assert_eq!(body.publishing_ids, [5, 0x0100000000000006]);
        }
        other => panic!("{:?}", other),
    }
    let errors: &[u8] = &[0, 0, 0, 2, 0, 0, 0, 0, 0, 0, 0, 5, 0, 18, 0, 0, 0, 0, 0, 0, 0, 6, 0, 2];
    let response = one(4, &body(&[&[8], errors]));
    assert_eq!(response.correlation_id, None);
    match response.kind {
        ResponseKind::PublishError(body) => {
            assert_eq!(body.publisher_id, 8);
            assert_eq!(body.publishing_errors.len(), 2);
            assert_eq!(body.publishing_errors[0].publishing_id, 5);
            assert!(body.publishing_errors[0].error_code == ResponseCode::PublisherDoesNotExist);
            assert_eq!(body.publishing_errors[1].publishing_id, 6);
            assert!(body.publishing_errors[1].error_code == ResponseCode::StreamDoesNotExist);
        }
        other => panic!("{:?}", other),
    }
}

#[test]
fn notices_are_decoded() {
    let response = one(9, &[0, 4, 3]);
    assert_eq!(response.correlation_id, None);
    match response.kind {
        ResponseKind::Credit(body) => {
            assert!(body.code == ResponseCode::SubscriptionIdDoesNotExist);
            assert_eq!(body.subscription_id, 3);
        }
        other => panic!("{:?}", other),
    }
    let response = one(16, &[0, 6, 0, 3, 0xc3, 0xa9, b's']);
    assert_eq!(response.correlation_id, None);
    match response.kind {
        ResponseKind::MetadataUpdate(body) => {
            assert!(body.code == ResponseCode::StreamNotAvailable);
            assert_eq!(body.stream, "\u{e9}s");
        }
        other => panic!("{:?}", other),
    }
    let response = one(26, &[0, 0, 1, 7, 2, 1]);
    assert_eq!(response.correlation_id, Some(263));
    match response.kind {
        ResponseKind::ConsumerUpdate(body) => {
            assert_eq!(body.get_correlation_id(), 263);
            assert_eq!(body.subscription_id, 2);
            assert_eq!(body.is_active(), 1);
        }
        other => panic!("{:?}", other),
    }
}

#[test]
fn incomplete_frames_stay_in_the_buffer() {
    let whole = framed(13, &[0, 0, 0, 1, 0, 1]);
    for length in 0..whole.len() {
        let (result, rest) = decoded(&whole[..length]);
        assert!(matches!(result, Ok(None)));
        assert_eq!(rest, whole[..length]);
    }
    let (result, rest) = decoded(&whole);
    assert!(matches!(result, Ok(Some(_))));
    assert!(rest.is_empty());
}

#[test]
fn frames_are_decoded_one_after_the_other() {
    let mut buf = BytesMut::new();
    buf.extend_from_slice(&framed(23, &[]));
    buf.extend_from_slice(&framed(13, &[0, 0, 0, 1, 0, 1]));
    buf.extend_from_slice(&[0, 0]);
    let mut codec = RabbitMqStreamCodec;
    assert!(matches!(codec.decode(&mut buf).unwrap().unwrap().kind, ResponseKind::Heartbeat));
    assert!(matches!(codec.decode(&mut buf).unwrap().unwrap().kind, ResponseKind::Generic(_)));
    assert!(codec.decode(&mut buf).unwrap().is_none());
    assert_eq!(buf.to_vec(), [0, 0]);
}

#[test]
fn malformed_frames_are_errors() {
    let (result, rest) = decoded(&framed(99, &[1]));
    assert!(matches!(
        result,
        Err(ClientError::Decode(DecodeFailure::UnsupportedResponseType(99)))
    ));
    assert_eq!(rest, framed(99, &[1]));
    let (result, _) = decoded(&framed(2, &[]));
    assert!(matches!(result, Err(ClientError::Decode(DecodeFailure::UnsupportedResponseType(2)))));
    for number in [0u8, 20] {
        let (result, _) = decoded(&framed(13, &[0, 0, 0, 1, 0, number]));
        match result {
            Err(ClientError::Decode(DecodeFailure::UnknownResponseCode(code))) => {
                assert_eq!(code, number as u16)
            }
            other => panic!("{:?}", other),
        }
    }
    let (result, _) = decoded(&framed(18, &[0, 0, 0, 1, 0, 1, 0, 0, 0, 1, 0, 1, 0xff]));
    assert!(matches!(result, Err(ClientError::Decode(DecodeFailure::Utf8Error))));
}

#[test]
fn frames_that_cannot_be_followed_are_told_apart() {
    assert!(!is_readable(&framed(18, &[0, 0, 0, 1, 0, 1, 0, 0, 0, 1, 0, 2, b'a'])));
    assert!(!is_readable(&framed(18, &[0, 0, 0, 1, 0, 1, 0, 0, 0, 1, 0x80, 0])));
    assert!(!is_readable(&framed(16, &[0, 1, 0, 0])));
    assert!(!is_readable(&framed(3, &[1, 0x80, 0, 0, 0])));
    assert!(!is_readable(&framed(15, &[0, 0, 0, 1, 0x80, 0, 0, 0])));
    assert!(!is_readable(&framed(15, &[0, 0, 0, 1, 0, 0, 0, 1, 0, 1, 0, 0, 0, 0, 0, 1])));
    assert!(is_readable(&framed(15, &[0, 0, 0, 1, 0, 0, 0, 1, 0, 1, 0, 0, 0, 0, 0])));
    assert!(is_readable(&framed(4, &[1, 0x80, 0, 0, 0])));
    assert!(is_readable(&[]));
}

#[test]
fn frames_that_cannot_be_followed_stay_in_the_buffer() {
    let mut codec = RabbitMqStreamCodec;
    let mut buf = BytesMut::from(&framed(16, &[0, 1, 0, 0])[..]);
    assert!(codec.checked_decode(&mut buf).is_none());
    assert_eq!(buffered_len(&buf), 12);
    let mut buf = BytesMut::from(&framed(23, &[])[..]);
    assert!(matches!(codec.checked_decode(&mut buf), Some(Ok(Some(_)))));
    assert_eq!(buffered_len(&buf), 0);
}

#[test]
fn requests_that_fit_are_written() {
    let mut codec = RabbitMqStreamCodec;
    let mut buf = BytesMut::new();
    assert!(matches!(codec.checked_encode(Request::Heartbeat, &mut buf), Some(Ok(()))));
    assert_eq!(buf.to_vec(), [0, 0, 0, 4, 0, 23, 0, 1]);
}

#[test]
fn an_outcome_of_reading_is_settled() {
    let mut codec = RabbitMqStreamCodec;
    let mut buf = BytesMut::from(&[1u8, 2, 3, 4][..]);
    assert!(codec.settle(Err(DecodeFailure::Incomplete(4)), &mut buf).unwrap().is_none());
    let result = codec.settle(Err(DecodeFailure::Empty), &mut buf);
    assert!(matches!(result, Err(ClientError::Decode(DecodeFailure::Empty))));
    let result = codec.settle(Err(DecodeFailure::MessageParse("m".to_string())), &mut buf);
    assert!(matches!(result, Err(ClientError::Decode(DecodeFailure::MessageParse(_)))));
    assert_eq!(buf.len(), 4);
    let response = Response { correlation_id: None, kind: ResponseKind::Heartbeat };
    assert!(matches!(codec.settle(Ok((1, response)), &mut buf), Ok(Some(_))));
    assert_eq!(buf.to_vec(), [4]);
}
