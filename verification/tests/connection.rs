use bytes::BytesMut;
use rabbitmq_stream_client::client::{Client, Recipient};
use rabbitmq_stream_client::codec::RabbitMqStreamCodec;
use rabbitmq_stream_client::connection::{Connection, ConnectionEvent};
use rabbitmq_stream_client::error::ClientError;
use rabbitmq_stream_client::options::{ClientOptions, ConnectionData};
use rabbitmq_stream_client::properties::Properties;
use rabbitmq_stream_client::publishing::ClientMessage;
use rabbitmq_stream_client::request::{OffsetSpecification, PublishedData, Request};
use rabbitmq_stream_client::response::{
    CloseResponse, GenericResponse, MetadataResponse, QueryOffsetResponse, QueryPublisherResponse, Response,
    ResponseCode, ResponseKind,
};
use rabbitmq_stream_client::routing::Routing;

fn options() -> ClientOptions {
    ClientOptions {
        host: "localhost".to_string(),
        port: 5552,
        user: "guest".to_string(),
        password: "guest".to_string(),
        v_host: "/".to_string(),
        heartbeat: 2,
        max_frame_size: 1048576,
        load_balancer_mode: false,
        client_provided_name: "name".to_string(),
    }
}

fn connection() -> Connection {
    Connection::connected(ConnectionData {
        client_options: options(),
        client_properties: Properties::new(),
        server_properties: Properties::new().insert("product".to_string(), "RabbitMQ".to_string()),
        connection_properties: Properties::new().insert(
            "advertised_host".to_string(),
            "a".to_string(),
        ),
        filtering_supported: true,
        heartbeat: 2,
        max_frame_size: 1048576,
        handshake_mechanisms: vec!["PLAIN".to_string()],
    })
}

fn client() -> Client {
    Client::connect(options(), connection())
}

fn generic(correlation_id: Option<u32>) -> Response {
    let kind = ResponseKind::Generic(GenericResponse { code: ResponseCode::Success });
    Response { correlation_id, kind }
}

fn farewell(correlation_id: u32) -> Response {
    Response {
        correlation_id: Some(correlation_id),
        kind: ResponseKind::Close(CloseResponse { ok: true }),
    }
}

fn answer(kind: ResponseKind) -> Option<Response> {
    Some(Response { correlation_id: Some(5), kind })
}

/// Closes a connection to its end; returns whether somebody was told.
fn close(connection: &mut Connection) -> bool {
    let told = match connection.close() {
        Some(told) => told,
        None => return false,
    };
    let id = connection.correlation_id;
    match connection.close_request(900).request {
        Request::Close { correlation_id, closing_code, closing_reason } => {
            assert_eq!(correlation_id, id);
            assert!(closing_code == ResponseCode::Success);
            assert_eq!(closing_reason, "Ok");
        }
        other => panic!("{:?}", other),
    }
    match connection.receive(Some(Ok(farewell(id)))) {
        ConnectionEvent::Deliver(Routing::ToWaiter(900, response)) => {
            connection.close_answered(Some(response)).unwrap()
        }
        other => panic!("{:?}", other),
    }
    told
}

#[test]
fn test_new_client_close() {
    let mut client = connection();
    client.set_close_callback();
    assert!(matches!(client.heartbeat_tick(), Some(Request::Heartbeat)));

    assert!(close(&mut client));

    assert!(!client.is_connected());
    assert!(client.heartbeat_tick().is_none());
}

#[test]
fn test_new_client_drop_connection() {
    let mut client = connection();
    client.set_close_callback();

    assert!(matches!(client.receive(None), ConnectionEvent::Close));

    assert_eq!(client.close(), Some(true));
    assert!(!client.is_connected());
}

#[test]
fn test_new_client_double_close() {
    let mut client = connection();
    client.set_close_callback();

    assert!(close(&mut client));
    assert!(!close(&mut client));
    assert_eq!(client.close(), None);
}

#[test]
fn a_failure_closes_the_connection() {
    let mut connection = connection();
    let failure = Some(Err(ClientError::Io("reset".to_string())));
    assert!(matches!(connection.receive(failure), ConnectionEvent::Close));
    assert_eq!(connection.close(), Some(false));
}

#[test]
fn a_lost_farewell_keeps_the_heartbeats() {
    let mut connection = connection();
    connection.close();
    connection.close_request(1);
    assert!(matches!(connection.close_answered(None), Err(ClientError::GenericError)));
    assert!(matches!(
        connection.close_answered(Some(generic(Some(5)))),
        Err(ClientError::CastError(text))
            if text == "Cannot cast response to rabbitmq_stream_protocol::commands::close::CloseResponse."
    ));
    assert!(matches!(connection.heartbeat_tick(), Some(Request::Heartbeat)));
    connection.close_answered(Some(farewell(5))).unwrap();
    assert!(connection.heartbeat_tick().is_none());
}

#[test]
fn identifiers_go_on_after_the_handshake() {
    let mut connection = connection();
    assert_eq!(connection.register(1), None);
    assert_eq!(connection.register(2), None);
    assert_eq!(connection.correlation_id, 7);
    assert!(matches!(connection.handle_response(generic(Some(6))), Routing::ToWaiter(2, _)));
    assert!(matches!(connection.handle_response(generic(Some(6))), Routing::Dropped));
    assert!(matches!(connection.handle_response(generic(Some(5))), Routing::ToWaiter(1, _)));
    connection.correlation_id = u32::MAX;
    connection.register(3);
    assert_eq!(connection.correlation_id, 0);
}

#[test]
fn the_handler_gets_only_what_answers_nothing() {
    let mut connection = connection();
    assert!(matches!(connection.handle_response(generic(None)), Routing::Dropped));
    connection.set_handle_response_message();
    assert!(matches!(connection.handle_response(generic(None)), Routing::ToHandler(_)));
    assert!(matches!(connection.handle_response(generic(Some(3))), Routing::Dropped));
}

#[test]
fn properties_are_those_of_the_handshake() {
    let connection = connection();
    assert_eq!(connection.server_properties().get("product").unwrap(), "RabbitMQ");
    assert_eq!(connection.connection_properties().get("advertised_host").unwrap(), "a");
    assert!(connection.filtering_supported());
    assert!(connection.is_connected());
    let client = client();
    assert_eq!(client.server_properties().get("product").unwrap(), "RabbitMQ");
    assert_eq!(client.connection_properties().get("advertised_host").unwrap(), "a");
    assert!(client.filtering_supported());
}

#[test]
fn messages_go_to_the_handler() {
    let mut client = client();
    assert!(client.handle_message(None).is_none());
    client.set_handler();
    assert!(matches!(client.handle_message(None), Some((Recipient::Given, None))));
    assert!(matches!(
        client.handle_message(Some(Ok(generic(None)))),
        Some((Recipient::Given, Some(Ok(_))))
    ));
    assert!(matches!(
        client.handle_message(Some(Err(ClientError::ConnectionClosed))),
        Some((Recipient::Given, Some(Err(ClientError::ConnectionClosed))))
    ));
}

#[test]
fn a_client_numbers_its_requests() {
    let mut client = client();
    let table = Properties::new;
    assert!(matches!(
        client.subscribe(1, 4, "s", OffsetSpecification::First, 1, table()).request,
        Request::Subscribe { correlation_id: 5, subscription_id: 4, credit: 1, .. }
    ));
    assert!(
        matches!(client.unsubscribe(1, 4).request, Request::Unsubscribe { correlation_id: 6, .. }),
    );
    assert!(matches!(
        client.partitions(1, "s".to_string()).request,
        Request::SuperStreamPartitions { correlation_id: 7, .. }
    ));
    assert!(matches!(
        client.route(1, "k".to_string(), "s".to_string()).request,
        Request::SuperStreamRoute { correlation_id: 8, .. }
    ));
    assert!(matches!(
        client.create_stream(1, "s", table()).request,
        Request::CreateStream { correlation_id: 9, .. }
    ));
    assert!(matches!(
        client.create_super_stream(1, "s", vec![], vec![], table()).request,
        Request::CreateSuperStream { correlation_id: 10, .. }
    ));
    assert!(
        matches!(client.delete_stream(1, "s").request, Request::Delete { correlation_id: 11, .. }),
    );
    assert!(matches!(
        client.delete_super_stream(1, "s").request,
        Request::DeleteSuperStream { correlation_id: 12, .. }
    ));
    assert!(
        matches!(client.metadata(1, vec![]).request, Request::Metadata { correlation_id: 13, .. }),
    );
    assert!(matches!(
        client.query_offset(1, "r".to_string(), "s").request,
        Request::QueryOffset { correlation_id: 14, .. }
    ));
    assert!(matches!(
        client.declare_publisher(1, 1, None, "s").request,
        Request::DeclarePublisher { correlation_id: 15, .. }
    ));
    assert!(matches!(
        client.delete_publisher(1, 1).request,
        Request::DeletePublisher { correlation_id: 16, .. }
    ));
    assert!(matches!(
        client.query_publisher_sequence(1, "r", "s").request,
        Request::QueryPublisherSequence { correlation_id: 17, .. }
    ));
    assert!(matches!(
        client.exchange_command_versions(1).request,
        Request::ExchangeCommandVersions { correlation_id: 18 }
    ));
    assert!(matches!(
        client.consumer_update(1, 99, OffsetSpecification::Last).request,
        Request::ConsumerUpdateRequest { correlation_id: 99, response_code: 1, .. }
    ));
    assert!(matches!(client.credit(1, 2), Request::Credit { subscription_id: 1, credit: 2 }));
    assert!(matches!(client.store_offset("r", "s", 3), Request::StoreOffset { offset: 3, .. }));
    assert_eq!(client.connection.correlation_id, 20);
}

#[test]
fn a_client_closes_its_connection() {
    let mut client = client();
    client.connection.set_close_callback();
    assert_eq!(client.close(), Some(true));
    assert_eq!(client.close(), None);
    assert!(matches!(client.unsubscribe(1, 4).request, Request::Unsubscribe { .. }));
}

#[test]
fn a_client_gives_messages_identifiers() {
    let mut client = client();
    client.publish_sequence = u64::MAX;
    let messages = [None, None, Some(u64::MAX)].map(|publishing_id| ClientMessage {
        publishing_id,
        message: (),
        filter_value: None,
    });
    assert_eq!(client.publish(1, messages.into(), 1).ids, [u64::MAX, 0, u64::MAX]);
    assert_eq!(client.publish_sequence, 1);
}

#[test]
fn a_client_publishes_messages() {
    let mut client = client();
    let messages = vec![
        ClientMessage { publishing_id: Some(7), message: vec![1], filter_value: None },
        ClientMessage { publishing_id: None, message: vec![2], filter_value: None },
    ];
    let publication = client.publish(4, messages, 1);
    assert_eq!(publication.ids, [7, 0]);
    assert!(matches!(
        publication.into_request(),
        Request::Publish { publisher_id: 4, version: 1, messages } if messages[1].data == [2]
    ));
    assert_eq!(client.publish_sequence, 1);
}

#[test]
fn a_client_unpacks_answers() {
    let generic = ResponseKind::Generic(GenericResponse { code: ResponseCode::Success });
    assert!(Client::receive_answer::<GenericResponse>(answer(generic)).unwrap().is_ok());
    assert!(matches!(
        Client::receive_answer::<GenericResponse>(None),
        Err(ClientError::GenericError)
    ));
    let known = ResponseKind::QueryOffset(
        QueryOffsetResponse { code: ResponseCode::Success, offset: 7 },
    );
    assert_eq!(Client::receive_offset(answer(known)).unwrap(), 7);
    let unknown =
        ResponseKind::QueryOffset(
            QueryOffsetResponse { code: ResponseCode::OffsetNotFound, offset: 0 },
        );
    assert!(matches!(
        Client::receive_offset(answer(unknown)),
        Err(ClientError::RequestError(ResponseCode::OffsetNotFound))
    ));
    let sequence = ResponseKind::QueryPublisherSequence(QueryPublisherResponse { sequence: 9 });
    assert_eq!(Client::receive_publisher_sequence(answer(sequence)).unwrap(), 9);
    match Client::receive_publisher_sequence(answer(ResponseKind::Heartbeat)) {
        Err(ClientError::CastError(text)) => assert_eq!(
            text,
            "Cannot cast response to rabbitmq_stream_protocol::commands::query_publisher_sequence::QueryPublisherResponse."
        ),
        other => panic!("{:?}", other),
    }
    let body = MetadataResponse { brokers: vec![], stream_metadata: vec![] };
    assert!(Client::receive_metadata(answer(ResponseKind::Metadata(body))).unwrap().is_empty());
    assert!(matches!(Client::receive_metadata(None), Err(ClientError::GenericError)));
}

/// The frame in which a server delivers messages that were published.
fn delivered(published: &[&[u8]]) -> BytesMut {
    let mut bytes = vec![0, 0, 0, 0, 0, 8, 0, 1, 1, 0x50, 0, 0, published.len() as u8];
    bytes.extend((published.len() as u32).to_be_bytes());
    bytes.extend([0; 40]);
    for message in published {
        bytes.extend((message.len() as u32).to_be_bytes());
        bytes.extend(*message);
    }
    BytesMut::from(&bytes[..])
}

/// The messages of a request as they stand in its frame, which publishes one message.
fn published(request: Request) -> Vec<u8> {
    let mut buf = BytesMut::new();
    RabbitMqStreamCodec.checked_encode(request, &mut buf).unwrap().unwrap();
    buf[25..].to_vec()
}

fn succeed(connection: &mut Connection) {
    let id = connection.correlation_id;
    connection.register(7);
    match connection.receive(Some(Ok(generic(Some(id))))) {
        ConnectionEvent::Deliver(Routing::ToWaiter(7, response)) => {
            assert!(Connection::receive_answer::<GenericResponse>(Some(response)).unwrap().is_ok())
        }
        other => panic!("{:?}", other),
    }
}

#[test]
fn test_new_client_publish_consume() {
    let mut client = connection();
    client.set_handle_response_message();
    // The stream is created, the publisher declared and the subscription made.
    succeed(&mut client);
    succeed(&mut client);
    succeed(&mut client);

    let messages = vec![PublishedData { publishing_id: 1, data: b"foo".to_vec(), filter_value: None }];
    let message = published(Request::Publish { publisher_id: 1, messages, version: 1 });

    let mut buf = delivered(&[&message]);
    let arrived = RabbitMqStreamCodec.checked_decode(&mut buf).unwrap().unwrap().unwrap();
    let deliver_command = match client.receive(Some(Ok(arrived))) {
        ConnectionEvent::Deliver(Routing::ToHandler(response)) => match response.kind {
            ResponseKind::Deliver(deliver_command) => deliver_command,
            other => panic!("{:?}", other),
        },
        other => panic!("{:?}", other),
    };

    assert_eq!(1, deliver_command.messages.len());
    let data = deliver_command.messages[0].data().unwrap();
    assert_eq!("foo", std::str::from_utf8(data).unwrap());
    assert_eq!(deliver_command.messages[0].content, message);

    assert!(!close(&mut client));
}

#[test]
fn old_super_stream_single_active_consumer_test_1() {
    let message_count: u32 = 3;
    let mut client = client();
    client.set_handler();
    client.subscribe(1, 1, "s", OffsetSpecification::First, 10, Properties::new());
    let mut received_messages: u32 = 1;
    for n in 0..message_count {
        let data = format!("message{}", n).into_bytes();
        let messages = vec![PublishedData { publishing_id: n as u64, data, filter_value: None }];
        let message = published(Request::Publish { publisher_id: 1, messages, version: 1 });
        let mut buf = delivered(&[&message]);
        let arrived = RabbitMqStreamCodec.checked_decode(&mut buf).unwrap().unwrap().unwrap();
        let response = match client.connection.receive(Some(Ok(arrived))) {
            ConnectionEvent::Deliver(Routing::ToHandler(response)) => response,
            other => panic!("{:?}", other),
        };
        match client.handle_message(Some(Ok(response))) {
            Some((Recipient::Given, Some(Ok(response)))) => match response.kind {
                ResponseKind::Deliver(body) => {
                    assert_eq!(body.messages.len(), 1);
                    assert_eq!(body.messages[0].data().unwrap(), format!("message{}", n).as_bytes());
                    received_messages += 1;
                }
                other => panic!("{:?}", other),
            },
            other => panic!("{:?}", other),
        }
    }
    assert!(received_messages == message_count + 1);
}

#[test]
fn responses_reach_the_handler_that_was_set() {
    let mut client = client();
    let unhandled = client.connection.receive(Some(Ok(generic(None))));
    assert!(matches!(unhandled, ConnectionEvent::Deliver(Routing::ToHandler(_))));
    assert!(client.handle_message(Some(Ok(generic(None)))).is_none());
    client.set_handler();
    client.unsubscribe(4, 1);
    let handled = client.connection.receive(Some(Ok(generic(None))));
    assert!(matches!(handled, ConnectionEvent::Deliver(Routing::ToHandler(_))));
    let forwarded = client.handle_message(Some(Ok(generic(None))));
    assert!(matches!(forwarded, Some((Recipient::Given, Some(Ok(_))))));
    client.close();
    let late = client.connection.receive(Some(Ok(generic(None))));
    assert!(matches!(late, ConnectionEvent::Deliver(Routing::ToHandler(_))));
}

#[test]
fn nothing_is_received_after_the_end() {
    for end in [None, Some(Err(ClientError::GenericError))] {
        let mut connection = connection();
        connection.set_handle_response_message();
        connection.register(1);
        let first = connection.receive(Some(Ok(generic(None))));
        assert!(matches!(first, ConnectionEvent::Deliver(Routing::ToHandler(_))));
        let second = connection.receive(Some(Ok(generic(Some(5)))));
        assert!(matches!(second, ConnectionEvent::Deliver(Routing::ToWaiter(1, _))));
        connection.register(2);
        assert!(matches!(connection.receive(end), ConnectionEvent::Close));
        assert!(matches!(connection.receive(Some(Ok(generic(None)))), ConnectionEvent::Ignore));
        assert!(matches!(connection.receive(Some(Ok(generic(Some(6))))), ConnectionEvent::Ignore));
        assert!(matches!(connection.receive(None), ConnectionEvent::Ignore));
        connection.register(3);
        connection.close();
        assert!(matches!(connection.receive(Some(Ok(generic(Some(7))))), ConnectionEvent::Ignore));
    }
}

#[test]
fn the_first_heartbeat_waits() {
    let mut connection = connection();
    assert_eq!(connection.first_heartbeat_after(), 2);
    connection.heartbeat = 60;
    assert_eq!(connection.first_heartbeat_after(), 60);
}
