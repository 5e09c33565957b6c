use rabbitmq_stream_client::client2::Client2;
use rabbitmq_stream_client::error::{ClientError, StreamCreateError};
use rabbitmq_stream_client::metadata::from_response;
use rabbitmq_stream_client::options::{ClientOptions, ConnectionData};
use rabbitmq_stream_client::properties::Properties;
use rabbitmq_stream_client::publishing::assign_ids;
use rabbitmq_stream_client::request::Request;
use rabbitmq_stream_client::response::{
    BrokerEntry, GenericResponse, MetadataResponse, Response, ResponseCode, ResponseKind, StreamEntry,
};
use rabbitmq_stream_client::stream_creator2::{
    partitions_of, ByteCapacity, Environment2, LeaderLocator, StreamClosing, StreamCreator2,
};
use rabbitmq_stream_client::text::decimal_text;

fn options() -> ClientOptions {
    ClientOptions {
        host: "localhost".to_string(),
        port: 5552,
        user: "guest".to_string(),
        password: "guest".to_string(),
        v_host: "/".to_string(),
        heartbeat: 60,
        max_frame_size: 1048576,
        load_balancer_mode: false,
        client_provided_name: "name".to_string(),
    }
}

fn client() -> Client2 {
    let data = ConnectionData {
        client_options: options(),
        client_properties: Properties::new(),
        server_properties: Properties::new(),
        connection_properties: Properties::new(),
        filtering_supported: true,
        heartbeat: 60,
        max_frame_size: 1048576,
        handshake_mechanisms: vec![],
    };
    Client2::connect(data, 0)
}

fn closed_client() -> Client2 {
    let mut client = client();
    client.close().unwrap();
    client
}

fn creator() -> StreamCreator2 {
    StreamCreator2::new(Environment2 { client_options: options() })
}

fn outcome(code: ResponseCode) -> Option<Response> {
    Some(
        Response { correlation_id: Some(0), kind: ResponseKind::Generic(GenericResponse { code }) },
    )
}

fn created(code: ResponseCode) -> StreamClosing {
    let (creation, _) = creator().create("s", Ok(client()), 1).unwrap();
    creation.answered(outcome(code)).unwrap()
}

fn super_created(code: ResponseCode) -> StreamClosing {
    let (creation, _) = creator().create_super_stream("s", 1, None, Ok(client()), 1).unwrap();
    creation.answered(outcome(code)).unwrap()
}

fn broker(reference: u16, host: &str, port: u32) -> BrokerEntry {
    BrokerEntry { reference, host: host.to_string(), port }
}

fn stream(name: &str, code: ResponseCode, leader: u16, replicas: &[u16]) -> StreamEntry {
    StreamEntry {
        stream_name: name.to_string(),
        code,
        leader_reference: leader,
        replicas_references: replicas.to_vec(),
    }
}

#[test]
fn a_creator_spreads_leaders() {
    let creator = creator();
    assert_eq!(creator.options.len(), 1);
    assert_eq!(creator.options.get("queue-leader-locator").unwrap(), "least-leaders");
    assert_eq!(creator.env.client_options.host, "localhost");
}

#[test]
fn settings_become_options() {
    let creator = creator()
        .max_age(3600)
        .leader_locator(LeaderLocator::Random)
        .max_length(ByteCapacity { count: 5000000000 })
        .max_segment_size(ByteCapacity { count: 500 });
    assert_eq!(creator.options.len(), 4);
    assert_eq!(creator.options.get("max-age").unwrap(), "3600s");
    assert_eq!(creator.options.get("queue-leader-locator").unwrap(), "random");
    assert_eq!(creator.options.get("max-length-bytes").unwrap(), "5000000000");
    assert_eq!(creator.options.get("stream-max-segment-size-bytes").unwrap(), "500");
}

#[test]
fn settings_come_in_any_order() {
    let length = ByteCapacity { count: 10 };
    let segment = ByteCapacity { count: 20 };
    let locator = LeaderLocator::Random;
    let one_way =
        creator().max_age(7).leader_locator(locator).max_length(length).max_segment_size(segment);
    let other_way =
        creator().max_segment_size(segment).max_length(length).leader_locator(locator).max_age(7);
    let mut first = one_way.options.to_entries();
    let mut second = other_way.options.to_entries();
    first.sort();
    second.sort();
    assert_eq!(first, second);
}

#[test]
fn the_last_setting_counts() {
    let creator = creator().max_age(1).leader_locator(LeaderLocator::ClientLocal).max_age(0);
    assert_eq!(creator.options.get("max-age").unwrap(), "0s");
    assert_eq!(creator.options.get("queue-leader-locator").unwrap(), "client-local");
}

#[test]
fn leader_locators_have_names() {
    assert_eq!(LeaderLocator::ClientLocal.as_ref(), "client-local");
    assert_eq!(LeaderLocator::Random.as_ref(), "random");
    assert_eq!(LeaderLocator::LeastLeaders.as_ref(), "least-leaders");
    assert_eq!(ByteCapacity { count: 7 }.bytes(), 7);
}

#[test]
fn a_stream_is_created() {
    let (creation, request) = creator().max_age(5).create("s", Ok(client()), 1).unwrap();
    match request {
        Request::CreateStream { correlation_id, stream, arguments } => {
            assert_eq!((correlation_id, stream.as_str()), (0, "s"));
            assert_eq!(arguments.get("max-age").unwrap(), "5s");
        }
        other => panic!("{:?}", other),
    }
    let closing = creation.answered(outcome(ResponseCode::Success)).unwrap();
    assert!(closing.closed.is_ok());
    assert!(closing.client.is_closed());
    assert!(closing.finish(Ok(())).is_ok());
}

#[test]
fn a_refused_stream_is_an_error() {
    match created(ResponseCode::StreamAlreadyExists).finish(Ok(())) {
        Err(StreamCreateError::Create { stream, status }) => {
            assert_eq!(stream, "s");
            assert!(status == ResponseCode::StreamAlreadyExists);
        }
        other => panic!("{:?}", other),
    }
    assert!(matches!(
        super_created(ResponseCode::AccessRefused).finish(Ok(())),
        Err(StreamCreateError::Create { status: ResponseCode::AccessRefused, .. })
    ));
}

#[test]
fn only_super_streams_need_the_client_to_close() {
    let broken = || Err(ClientError::Io("broken".to_string()));
    assert!(created(ResponseCode::Success).finish(broken()).is_ok());
    assert!(matches!(
        super_created(ResponseCode::Success).finish(broken()),
        Err(StreamCreateError::Client(ClientError::Io(_)))
    ));
    assert!(matches!(
        super_created(ResponseCode::AccessRefused).finish(broken()),
        Err(StreamCreateError::Client(ClientError::Io(_)))
    ));
    let (mut creation, _) = creator().create_super_stream("s", 1, None, Ok(client()), 1).unwrap();
    creation.client.raw_client.receive_stopped().unwrap();
    let closing = creation.answered(outcome(ResponseCode::Success)).unwrap();
    assert!(matches!(closing.closed, Err(ClientError::ConnectionClosed)));
    assert!(matches!(
        closing.finish(Ok(())),
        Err(StreamCreateError::Client(ClientError::ConnectionClosed))
    ));
}

#[test]
fn creation_needs_a_client() {
    assert!(matches!(
        creator().create("s", Err(ClientError::Io("refused".to_string())), 1),
        Err(StreamCreateError::Client(ClientError::Io(_)))
    ));
    assert!(matches!(
        creator().create("s", Ok(closed_client()), 1),
        Err(StreamCreateError::Client(ClientError::ConnectionClosed))
    ));
    assert!(matches!(
        creator().create_super_stream("s", 1, None, Ok(closed_client()), 1),
        Err(StreamCreateError::Client(ClientError::ConnectionClosed))
    ));
    let (creation, _) = creator().create("s", Ok(client()), 1).unwrap();
    assert!(matches!(
        creation.answered(None),
        Err(StreamCreateError::Client(ClientError::ConnectionClosed))
    ));
}

#[test]
fn a_super_stream_has_numbered_partitions() {
    let (_, request) = creator().create_super_stream("invoices", 3, None, Ok(client()), 1).unwrap();
    match request {
        Request::CreateSuperStream { super_stream, partitions, binding_keys, arguments, .. } => {
            assert_eq!(super_stream, "invoices");
            assert_eq!(partitions, ["invoices-0", "invoices-1", "invoices-2"]);
            assert_eq!(binding_keys, ["0", "1", "2"]);
            assert_eq!(arguments.len(), 1);
        }
        other => panic!("{:?}", other),
    }
}

#[test]
fn binding_keys_name_the_partitions() {
    let keys = Some(vec!["emea".to_string(), "apac".to_string()]);
    let (names, keys) = partitions_of("invoices", 7, keys);
    assert_eq!(names, ["invoices-emea", "invoices-apac"]);
    assert_eq!(keys, ["emea", "apac"]);
    let (names, keys) = partitions_of("s", 12, None);
    assert_eq!(names[11], "s-11");
    assert_eq!(keys.len(), 12);
    let (names, keys) = partitions_of("s", 0, None);
    assert!(names.is_empty() && keys.is_empty());
}

#[test]
fn numbers_are_written_in_decimal() {
    assert_eq!(decimal_text(0), "0");
    assert_eq!(decimal_text(9), "9");
    assert_eq!(decimal_text(10), "10");
    assert_eq!(decimal_text(u64::MAX), u64::MAX.to_string());
}

#[test]
fn metadata_names_the_brokers() {
    let table = from_response(MetadataResponse {
        brokers: vec![broker(1, "one", 5552), broker(2, "two", 5553), broker(1, "uno", 5554)],
        stream_metadata: vec![
            stream("a", ResponseCode::Success, 2, &[1, 9, 2]),
            stream("b", ResponseCode::Success, 9, &[1]),
        ],
    });
    assert_eq!(table.len(), 1);
    assert_eq!(table[0].stream, "a");
    assert!(table[0].response_code == ResponseCode::Success);
    assert_eq!((table[0].leader.host.as_str(), table[0].leader.port), ("two", 5553));
    assert_eq!(table[0].replicas.len(), 2);
    assert_eq!((table[0].replicas[0].host.as_str(), table[0].replicas[0].port), ("uno", 5554));
    assert_eq!((table[0].replicas[1].host.as_str(), table[0].replicas[1].port), ("two", 5553));
}

#[test]
fn the_last_entry_of_a_stream_counts() {
    let table = from_response(MetadataResponse {
        brokers: vec![broker(1, "one", 5552)],
        stream_metadata: vec![
            stream("a", ResponseCode::Success, 1, &[]),
            stream("b", ResponseCode::Success, 1, &[]),
            stream("a", ResponseCode::StreamNotAvailable, 1, &[1]),
        ],
    });
    assert_eq!(table.len(), 2);
    let a = table.iter().find(|entry| entry.stream == "a").unwrap();
    assert!(a.response_code == ResponseCode::StreamNotAvailable);
    assert_eq!(a.replicas.len(), 1);
}

#[test]
fn identifiers_come_from_the_sequence() {
    assert_eq!(assign_ids(&vec![None, Some(3), None, Some(5)], 7), (vec![7, 3, 8, 5], 9));
    assert_eq!(assign_ids(&vec![], 7), (vec![], 7));
    assert_eq!(assign_ids(&vec![None, None], u64::MAX), (vec![u64::MAX, 0], 1));
}

#[test]
fn properties_keep_the_last_value() {
    let properties = Properties::new()
        .insert("a".to_string(), "1".to_string())
        .insert("b".to_string(), "2".to_string())
        .insert("a".to_string(), "3".to_string());
    assert_eq!(properties.len(), 2);
    assert_eq!(properties.get("a").unwrap(), "3");
    assert_eq!(properties.get("b").unwrap(), "2");
    assert!(properties.get("c").is_none());
    let copy = properties.copy().insert("c".to_string(), "4".to_string());
    assert_eq!(copy.len(), 3);
    assert_eq!(properties.len(), 2);
    let mut entries = copy.to_entries();
    entries.sort();
    assert_eq!(entries[2], ("c".to_string(), "4".to_string()));
}

#[test]
fn response_codes_have_numbers() {
    for number in 1..=19 {
        assert_eq!(ResponseCode::from_number(number).unwrap().number(), number);
    }
    assert!(ResponseCode::from_number(0).is_none());
    assert!(ResponseCode::from_number(20).is_none());
    assert_eq!(ResponseCode::Success.number(), 1);
    assert_eq!(ResponseCode::PublisherDoesNotExist.number(), 18);
}
