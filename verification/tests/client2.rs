use rabbitmq_stream_client::client2::{
    heartbeat_interval, Client2, ClientEvent, CloseReason, RawClient, Received, RequestSender,
    ShareClientRawState, Submission,
};
use rabbitmq_stream_client::error::ClientError;
use rabbitmq_stream_client::options::{ClientOptions, ConnectionData};
use rabbitmq_stream_client::properties::Properties;
use rabbitmq_stream_client::publishing::ClientMessage;
use rabbitmq_stream_client::request::{OffsetSpecification, Request};
use rabbitmq_stream_client::response::{
    BrokerEntry, GenericResponse, MetadataResponse, QueryOffsetResponse, QueryPublisherResponse, Response,
    ResponseCode, ResponseKind, StreamEntry,
};
use rabbitmq_stream_client::routing::Routing;
use rabbitmq_stream_protocol::message::Message;

fn data(heartbeat: u32) -> ConnectionData {
    ConnectionData {
        client_options: ClientOptions {
            host: "localhost".to_string(),
            port: 5552,
            user: "guest".to_string(),
            password: "guest".to_string(),
            v_host: "/".to_string(),
            heartbeat: 60,
            max_frame_size: 1048576,
            load_balancer_mode: false,
            client_provided_name: "name".to_string(),
        },
        client_properties: Properties::new(),
        server_properties: Properties::new().insert("product".to_string(), "RabbitMQ".to_string()),
        connection_properties: Properties::new().insert(
            "advertised_host".to_string(),
            "a".to_string(),
        ),
        filtering_supported: true,
        heartbeat,
        max_frame_size: 1048576,
        handshake_mechanisms: vec!["PLAIN".to_string()],
    }
}

fn client() -> Client2 {
    Client2::connect(data(60), 10)
}

fn closed_client() -> Client2 {
    let mut client = client();
    client.close().unwrap();
    client
}

fn generic(correlation_id: Option<u32>) -> Response {
    let kind = ResponseKind::Generic(GenericResponse { code: ResponseCode::Success });
    Response { correlation_id, kind }
}

fn heartbeat() -> Response {
    Response { correlation_id: None, kind: ResponseKind::Heartbeat }
}

fn answer(kind: ResponseKind) -> Option<Response> {
    Some(Response { correlation_id: Some(0), kind })
}

fn is_refused(submission: &Submission) -> bool {
    matches!(submission.request, Err(ClientError::ConnectionClosed))
}

fn strings(list: &[&str]) -> Vec<String> {
    list.iter().map(|text| text.to_string()).collect()
}

#[test]
fn test_raw_client() {
    let mut raw_client = RawClient::connect(data(60), 0);
    raw_client.close(CloseReason::User).unwrap();
    raw_client.closed(Ok(())).unwrap();

    assert!(!raw_client.response_loop);

    let res = raw_client.send_request(Request::Credit { subscription_id: 1, credit: 1 });
    assert!(matches!(res, Err(ClientError::ConnectionClosed)));
}

#[test]
fn test_client_close() {
    let mut client = client();

    client.close().unwrap();

    let res = client.credit(1, 1);
    assert!(matches!(res, Err(ClientError::ConnectionClosed)));
}

#[test]
fn a_sender_closes_once() {
    let mut sender = RequestSender { closed: false };
    assert!(!sender.is_closed());
    assert!(matches!(sender.send(Request::Heartbeat), Ok(Request::Heartbeat)));
    assert!(sender.close().is_ok());
    assert!(sender.is_closed());
    assert!(matches!(sender.close(), Err(ClientError::ConnectionClosed)));
    assert!(matches!(sender.send(Request::Heartbeat), Err(ClientError::ConnectionClosed)));
}

#[test]
fn the_first_reason_is_kept() {
    let mut state = ShareClientRawState {
        response_handler: false,
        last_heatbeat: 0,
        request_sender: RequestSender { closed: false },
        close_reason: None,
    };
    assert!(state.close(CloseReason::Error(ClientError::GenericError)).is_ok());
    assert!(matches!(state.close(CloseReason::User), Err(ClientError::ConnectionClosed)));
    assert!(matches!(state.close_reason, Some(CloseReason::Error(ClientError::GenericError))));
    assert!(state.request_sender.is_closed());
}

#[test]
fn heartbeats_come_twice_as_often_as_expected() {
    assert_eq!(heartbeat_interval(0), None);
    assert_eq!(heartbeat_interval(1), Some(1));
    assert_eq!(heartbeat_interval(2), Some(1));
    assert_eq!(heartbeat_interval(3), Some(1));
    assert_eq!(heartbeat_interval(60), Some(30));
    assert_eq!(heartbeat_interval(u32::MAX), Some(0x7fffffff));
    assert_eq!(RawClient::connect(data(60), 0).heartbeat_task, Some(30));
    assert_eq!(RawClient::connect(data(0), 0).heartbeat_task, None);
}

#[test]
fn heartbeats_stop_with_the_sender() {
    let mut raw_client = RawClient::connect(data(60), 0);
    assert!(matches!(raw_client.heartbeat_tick(), Some(Request::Heartbeat)));
    raw_client.heartbeat_sent(Ok(()));
    assert_eq!(raw_client.heartbeat_task, Some(30));
    raw_client.receive_stopped().unwrap();
    assert!(matches!(raw_client.state.close_reason, Some(CloseReason::ConnectionClosed)));
    assert!(raw_client.heartbeat_tick().is_none());
    assert_eq!(raw_client.heartbeat_task, None);
}

#[test]
fn heartbeats_stop_with_a_failure() {
    let mut raw_client = RawClient::connect(data(60), 0);
    raw_client.heartbeat_sent(Err(ClientError::Io("broken".to_string())));
    assert_eq!(raw_client.heartbeat_task, None);
}

#[test]
fn a_failing_transport_keeps_the_tasks() {
    let mut raw_client = RawClient::connect(data(60), 0);
    raw_client.close(CloseReason::User).unwrap();
    assert!(matches!(
        raw_client.closed(Err(ClientError::Io("broken".to_string()))),
        Err(ClientError::Io(_))
    ));
    assert!(raw_client.response_loop);
    assert_eq!(raw_client.heartbeat_task, Some(30));
}

#[test]
fn heartbeats_of_the_server_are_noted() {
    let mut client = client();
    assert_eq!(client.raw_client.state.last_heatbeat, 10);
    assert!(matches!(client.receive(Some(Ok(heartbeat())), 25), ClientEvent::Ignore));
    assert_eq!(client.raw_client.state.last_heatbeat, 25);
}

#[test]
fn nothing_is_handled_without_a_handler() {
    let mut raw_client = RawClient::connect(data(60), 10);
    assert!(matches!(raw_client.receive(Some(Ok(heartbeat())), 25), Received::Ignore));
    assert_eq!(raw_client.state.last_heatbeat, 10);
    assert!(matches!(raw_client.receive(Some(Ok(generic(Some(0)))), 25), Received::Ignore));
    raw_client.state.response_handler = true;
    assert!(matches!(raw_client.receive(Some(Ok(generic(Some(0)))), 25), Received::Handle(_)));
}

#[test]
fn the_end_of_the_stream_stops_the_client() {
    let mut client = client();
    assert!(matches!(client.receive(None, 0), ClientEvent::Stop));
    assert!(!client.raw_client.response_loop);
    client.raw_client.receive_stopped().unwrap();
    assert!(client.is_closed());
    assert!(matches!(client.close(), Err(ClientError::ConnectionClosed)));
}

#[test]
fn a_failure_stops_the_client() {
    let mut client = client();
    let failure = Some(Err(ClientError::Io("reset".to_string())));
    assert!(matches!(client.receive(failure, 0), ClientEvent::Stop));
}

#[test]
fn an_answer_reaches_its_waiter_once() {
    let mut client = client();
    client.delete_stream(77, "a").request.unwrap();
    client.delete_stream(78, "b").request.unwrap();
    match client.receive(Some(Ok(generic(Some(1)))), 0) {
        ClientEvent::Deliver(Routing::ToWaiter(waiter, response)) => {
            assert_eq!(waiter, 78);
            assert_eq!(response.correlation_id, Some(1));
        }
        other => panic!("{:?}", other),
    }
    assert!(matches!(
        client.receive(Some(Ok(generic(Some(1)))), 0),
        ClientEvent::Deliver(Routing::Dropped)
    ));
    assert!(matches!(
        client.receive(Some(Ok(generic(Some(0)))), 0),
        ClientEvent::Deliver(Routing::ToWaiter(77, _))
    ));
}

#[test]
fn the_handler_gets_what_nobody_waits_for() {
    let mut client = client();
    assert!(matches!(client.handle_response(generic(None)), Routing::Dropped));
    assert!(client.on_closed(CloseReason::User).is_none());
    client.set_handler();
    assert!(matches!(client.handle_response(generic(None)), Routing::ToHandler(_)));
    assert!(matches!(client.handle_response(generic(Some(5))), Routing::ToHandler(_)));
    assert!(matches!(client.on_closed(CloseReason::User), Some(CloseReason::User)));
}

#[test]
fn identifiers_start_over() {
    let mut client = client();
    client.unsubscribe(1, 1).request.unwrap();
    client.correlation_id = u32::MAX;
    match client.unsubscribe(2, 1).request.unwrap() {
        Request::Unsubscribe { correlation_id, .. } => assert_eq!(correlation_id, u32::MAX),
        other => panic!("{:?}", other),
    }
    let submission = client.unsubscribe(3, 1);
    assert_eq!(submission.replaced, Some(1));
    assert!(matches!(submission.request, Ok(Request::Unsubscribe { correlation_id: 0, .. })));
    assert!(matches!(client.handle_response(generic(Some(0))), Routing::ToWaiter(3, _)));
}

#[test]
fn properties_are_those_of_the_connection() {
    let client = client();
    assert_eq!(client.server_properties().get("product").unwrap(), "RabbitMQ");
    assert_eq!(client.connection_properties().get("advertised_host").unwrap(), "a");
    assert!(client.filtering_supported());
    assert!(!client.is_closed());
}

#[test]
fn commands_carry_their_arguments() {
    let mut client = client();
    let table = || Properties::new().insert("k".to_string(), "v".to_string());
    match client.subscribe(1, 4, "s", OffsetSpecification::Next, 9, table()).request.unwrap() {
        Request::Subscribe {
            correlation_id,
            subscription_id,
            stream,
            offset_specification,
            credit,
            properties,
        } => {
            assert_eq!((correlation_id, subscription_id, stream.as_str(), credit), (0, 4, "s", 9));
            assert!(offset_specification == OffsetSpecification::Next);
            assert_eq!(properties.get("k").unwrap(), "v");
        }
        other => panic!("{:?}", other),
    }
    match client.partitions(1, "super".to_string()).request.unwrap() {
        Request::SuperStreamPartitions { correlation_id, super_stream } => {
            assert_eq!((correlation_id, super_stream.as_str()), (1, "super"))
        }
        other => panic!("{:?}", other),
    }
    match client.route(1, "key".to_string(), "super".to_string()).request.unwrap() {
        Request::SuperStreamRoute { correlation_id, routing_key, super_stream } => {
            assert_eq!(
                (correlation_id, routing_key.as_str(), super_stream.as_str()),
                (2, "key", "super"),
            )
        }
        other => panic!("{:?}", other),
    }
    match client.create_stream(1, "s", table()).request.unwrap() {
        Request::CreateStream { correlation_id, stream, arguments } => {
            assert_eq!((correlation_id, stream.as_str(), arguments.len()), (3, "s", 1))
        }
        other => panic!("{:?}", other),
    }
    match client.create_super_stream(
        1,
        "s",
        strings(&["s-a"]),
        strings(&["a"]),
        table(),
    ).request.unwrap() {
        Request::CreateSuperStream {
            correlation_id,
            super_stream,
            partitions,
            binding_keys,
            arguments,
        } => {
            assert_eq!((correlation_id, super_stream.as_str(), arguments.len()), (4, "s", 1));
            assert_eq!(partitions, ["s-a"]);
            assert_eq!(binding_keys, ["a"]);
        }
        other => panic!("{:?}", other),
    }
    match client.delete_super_stream(1, "s").request.unwrap() {
        Request::DeleteSuperStream { correlation_id, super_stream } => {
            assert_eq!((correlation_id, super_stream.as_str()), (5, "s"))
        }
        other => panic!("{:?}", other),
    }
    match client.metadata(1, strings(&["a", "b"])).request.unwrap() {
        Request::Metadata { correlation_id, streams } => {
            assert_eq!(correlation_id, 6);
            assert_eq!(streams, ["a", "b"]);
        }
        other => panic!("{:?}", other),
    }
    match client.query_offset(1, "r".to_string(), "s").request.unwrap() {
        Request::QueryOffset { correlation_id, reference, stream } => {
            assert_eq!((correlation_id, reference.as_str(), stream.as_str()), (7, "r", "s"))
        }
        other => panic!("{:?}", other),
    }
    match client.declare_publisher(1, 3, Some("r".to_string()), "s").request.unwrap() {
        Request::DeclarePublisher { correlation_id, publisher_id, publisher_reference, stream } => {
            assert_eq!((correlation_id, publisher_id, stream.as_str()), (8, 3, "s"));
            assert_eq!(publisher_reference.as_deref(), Some("r"));
        }
        other => panic!("{:?}", other),
    }
    assert!(matches!(
        client.delete_publisher(1, 3).request,
        Ok(Request::DeletePublisher { correlation_id: 9, publisher_id: 3 })
    ));
    match client.query_publisher_sequence(1, "r", "s").request.unwrap() {
        Request::QueryPublisherSequence { correlation_id, reference, stream } => {
            assert_eq!((correlation_id, reference.as_str(), stream.as_str()), (10, "r", "s"))
        }
        other => panic!("{:?}", other),
    }
    assert!(matches!(
        client.exchange_command_versions(1).request,
        Ok(Request::ExchangeCommandVersions { correlation_id: 11 })
    ));
    assert!(matches!(
        client.credit(2, 5),
        Ok(Request::Credit { subscription_id: 2, credit: 5 })
    ));
    match client.store_offset("r", "s", 12).unwrap() {
        Request::StoreOffset { reference, stream, offset } => {
            assert_eq!((reference.as_str(), stream.as_str(), offset), ("r", "s", 12))
        }
        other => panic!("{:?}", other),
    }
    assert_eq!(client.correlation_id, 12);
}

#[test]
fn a_consumer_update_keeps_its_own_identifier() {
    let mut client = client();
    match client.consumer_update(8, 99, OffsetSpecification::Offset(3)).request.unwrap() {
        Request::ConsumerUpdateRequest { correlation_id, response_code, offset_specification } => {
            assert_eq!((correlation_id, response_code), (99, 1));
            assert!(offset_specification == OffsetSpecification::Offset(3));
        }
        other => panic!("{:?}", other),
    }
    assert!(matches!(client.handle_response(generic(Some(99))), Routing::Dropped));
    assert!(matches!(client.handle_response(generic(Some(0))), Routing::ToWaiter(8, _)));
}

#[test]
fn a_closed_client_refuses_every_request() {
    let mut client = closed_client();
    assert!(client.is_closed());
    assert!(
        is_refused(&client.subscribe(1, 1, "s", OffsetSpecification::First, 1, Properties::new())),
    );
    assert!(is_refused(&client.unsubscribe(1, 1)));
    assert!(is_refused(&client.partitions(1, "s".to_string())));
    assert!(is_refused(&client.route(1, "k".to_string(), "s".to_string())));
    assert!(is_refused(&client.create_stream(1, "s", Properties::new())));
    assert!(is_refused(&client.create_super_stream(1, "s", vec![], vec![], Properties::new())));
    assert!(is_refused(&client.delete_stream(1, "s")));
    assert!(is_refused(&client.delete_super_stream(1, "s")));
    assert!(is_refused(&client.metadata(1, vec![])));
    assert!(is_refused(&client.query_offset(1, "r".to_string(), "s")));
    assert!(is_refused(&client.declare_publisher(1, 1, None, "s")));
    assert!(is_refused(&client.delete_publisher(1, 1)));
    assert!(is_refused(&client.query_publisher_sequence(1, "r", "s")));
    assert!(is_refused(&client.exchange_command_versions(1)));
    assert!(is_refused(&client.consumer_update(1, 1, OffsetSpecification::Last)));
    assert!(matches!(client.store_offset("r", "s", 1), Err(ClientError::ConnectionClosed)));
    assert_eq!(client.correlation_id, 15);
}

fn unnamed(wanted: &[Option<u64>]) -> Vec<ClientMessage<()>> {
    let message = |id: &Option<u64>| ClientMessage { publishing_id: *id, message: (), filter_value: None };
    wanted.iter().map(message).collect()
}

#[test]
fn messages_get_their_identifiers() {
    let mut client = client();
    assert_eq!(client.publish(1, unnamed(&[None, Some(40), None]), 1).unwrap().ids, [0, 40, 1]);
    assert_eq!(client.publish(1, unnamed(&[None]), 1).unwrap().ids, [2]);
    assert_eq!(client.publish(1, unnamed(&[]), 1).unwrap().ids, []);
    client.close().unwrap();
    let refused = client.publish(1, unnamed(&[None, None]), 1);
    assert!(matches!(refused, Err(ClientError::ConnectionClosed)));
    assert_eq!(client.publish_sequence, 5);
}

fn message<M>(publishing_id: Option<u64>, message: M, filter: Option<&str>) -> ClientMessage<M> {
    let filter_value = filter.map(|value| value.to_string());
    ClientMessage { publishing_id, message, filter_value }
}

#[test]
fn messages_are_published_with_their_identifiers() {
    let mut client = client();
    let messages = || {
        vec![
            message(None, b"a".to_vec(), Some("f")),
            message(Some(40), b"b".to_vec(), None),
            message(None, vec![], None),
        ]
    };
    let publication = client.publish(3, messages(), 2).unwrap();
    assert_eq!(publication.ids, [0, 40, 1]);
    match publication.into_request() {
        Request::Publish { publisher_id, messages, version } => {
            assert_eq!((publisher_id, version), (3, 2));
            assert_eq!(messages.len(), 3);
            assert_eq!((messages[0].publishing_id, messages[0].data.as_slice()), (0, &b"a"[..]));
            assert_eq!(messages[0].filter_value.as_deref(), Some("f"));
            assert_eq!((messages[1].publishing_id, messages[1].data.as_slice()), (40, &b"b"[..]));
            assert_eq!(messages[1].filter_value, None);
            assert_eq!((messages[2].publishing_id, messages[2].data.len()), (1, 0));
        }
        other => panic!("{:?}", other),
    }
    client.close().unwrap();
    assert!(matches!(client.publish(3, messages(), 1), Err(ClientError::ConnectionClosed)));
    assert_eq!(client.publish_sequence, 4);
}

#[test]
fn messages_of_any_kind_are_published() {
    let mut client = client();
    let with_properties = |body: &str| {
        let properties = Message::builder().application_properties().insert("k", "v").message_builder();
        properties.body(body).build()
    };
    let messages = vec![
        message(Some(9), with_properties("a"), Some("f")),
        message(None, with_properties("b"), None),
    ];
    let publication = client.publish(3, messages, 2).unwrap();
    assert_eq!(publication.ids, [9, 0]);
    assert_eq!((publication.publisher_id, publication.version), (3, 2));
    assert_eq!(publication.published.len(), 2);
    assert_eq!(publication.published[0].publishing_id, 9);
    assert_eq!(publication.published[0].filter_value.as_deref(), Some("f"));
    assert_eq!(publication.published[0].message, with_properties("a"));
    assert_eq!(publication.published[1].publishing_id, 0);
    assert_eq!(publication.published[1].filter_value, None);
    assert_eq!(publication.published[1].message, with_properties("b"));
}

#[test]
fn nothing_is_handed_on_after_the_end() {
    for end in [None, Some(Err(ClientError::GenericError))] {
        let mut client = client();
        client.set_handler();
        client.unsubscribe(4, 1).request.unwrap();
        assert!(matches!(client.receive(end, 1), ClientEvent::Stop));
        assert!(matches!(client.receive(Some(Ok(generic(Some(0)))), 2), ClientEvent::Ignore));
        client.raw_client.receive_stopped().unwrap();
        assert!(matches!(client.receive(Some(Ok(generic(None))), 2), ClientEvent::Ignore));
        assert!(matches!(client.receive(Some(Ok(heartbeat())), 3), ClientEvent::Ignore));
        assert!(matches!(client.receive(None, 3), ClientEvent::Ignore));
        assert_eq!(client.raw_client.state.last_heatbeat, 10);
        let reason = &client.raw_client.state.close_reason;
        assert!(matches!(reason, Some(CloseReason::ConnectionClosed)));
        let request = client.raw_client.send_request(Request::Heartbeat);
        assert!(matches!(request, Err(ClientError::ConnectionClosed)));
    }
}

#[test]
fn answers_are_unpacked() {
    let kind = ResponseKind::Generic(GenericResponse { code: ResponseCode::StreamDoesNotExist });
    let body: GenericResponse = Client2::receive_answer(answer(kind)).unwrap();
    assert!(body.code() == ResponseCode::StreamDoesNotExist);
    let lost = Client2::receive_answer::<GenericResponse>(None);
    assert!(matches!(lost, Err(ClientError::ConnectionClosed)));
    match Client2::receive_answer::<GenericResponse>(answer(ResponseKind::Heartbeat)) {
        Err(ClientError::CastError(text)) => assert_eq!(
            text,
            "Cannot cast response to rabbitmq_stream_protocol::commands::generic::GenericResponse"
        ),
        other => panic!("{:?}", other),
    }
}

#[test]
fn offsets_are_unpacked() {
    let known = ResponseKind::QueryOffset(
        QueryOffsetResponse { code: ResponseCode::Success, offset: 7 },
    );
    assert_eq!(Client2::receive_offset(answer(known)).unwrap(), 7);
    let unknown =
        ResponseKind::QueryOffset(
            QueryOffsetResponse { code: ResponseCode::OffsetNotFound, offset: 0 },
        );
    assert!(matches!(
        Client2::receive_offset(answer(unknown)),
        Err(ClientError::RequestError(ResponseCode::OffsetNotFound))
    ));
    assert!(matches!(Client2::receive_offset(None), Err(ClientError::ConnectionClosed)));
    assert!(matches!(
        Client2::receive_offset(answer(ResponseKind::Heartbeat)),
        Err(ClientError::CastError(_))
    ));
}

#[test]
fn sequence_numbers_are_unpacked() {
    let kind = ResponseKind::QueryPublisherSequence(QueryPublisherResponse { sequence: 9 });
    assert_eq!(Client2::receive_publisher_sequence(answer(kind)).unwrap(), 9);
    assert!(
        matches!(Client2::receive_publisher_sequence(None), Err(ClientError::ConnectionClosed)),
    );
    assert!(matches!(
        Client2::receive_publisher_sequence(answer(ResponseKind::Heartbeat)),
        Err(ClientError::CastError(_))
    ));
}

#[test]
fn metadata_is_unpacked() {
    let body = MetadataResponse {
        brokers: vec![BrokerEntry { reference: 1, host: "h".to_string(), port: 5552 }],
        stream_metadata: vec![StreamEntry {
            stream_name: "s".to_string(),
            code: ResponseCode::Success,
            leader_reference: 1,
            replicas_references: vec![1],
        }],
    };
    let table = Client2::receive_metadata(answer(ResponseKind::Metadata(body))).unwrap();
    assert_eq!(table.len(), 1);
    assert_eq!(table[0].leader.host, "h");
    assert!(matches!(Client2::receive_metadata(None), Err(ClientError::ConnectionClosed)));
    assert!(matches!(
        Client2::receive_metadata(answer(ResponseKind::Heartbeat)),
        Err(ClientError::CastError(_))
    ));
}

#[test]
fn the_first_heartbeat_of_a_client_waits() {
    assert_eq!(RawClient::connect(data(60), 0).first_heartbeat_after(), Some(30));
    assert_eq!(RawClient::connect(data(1), 0).first_heartbeat_after(), Some(1));
    assert_eq!(RawClient::connect(data(0), 0).first_heartbeat_after(), None);
}
