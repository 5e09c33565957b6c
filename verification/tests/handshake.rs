use rabbitmq_stream_client::client2::initialize;
use rabbitmq_stream_client::connection::Connection;
use rabbitmq_stream_client::error::ClientError;
use rabbitmq_stream_client::handshake::{
    filtering_from, negotiate_value, Handshake, HandshakeOutcome, HandshakeStep, HandshakeStyle,
};
use rabbitmq_stream_client::options::{get_client_properties, ClientOptions, ConnectionData};
use rabbitmq_stream_client::properties::Properties;
use rabbitmq_stream_client::request::Request;
use rabbitmq_stream_client::response::{
    CommandVersions, ExchangeCommandVersionsResponse, GenericResponse, OpenResponse, PeerPropertiesResponse, Response,
    ResponseCode, ResponseKind, SaslHandshakeResponse, TunesCommand,
};

fn options() -> ClientOptions {
    ClientOptions {
        host: "localhost".to_string(),
        port: 5552,
        user: "guest".to_string(),
        password: "pä".to_string(),
        v_host: "/".to_string(),
        heartbeat: 60,
        max_frame_size: 1048576,
        load_balancer_mode: false,
        client_provided_name: "name".to_string(),
    }
}

fn arrived(
    correlation_id: Option<u32>,
    kind: ResponseKind,
) -> Option<Result<Response, ClientError>> {
    Some(Ok(Response { correlation_id, kind }))
}

fn peer() -> Option<Result<Response, ClientError>> {
    let server_properties = Properties::new().insert("product".to_string(), "RabbitMQ".to_string());
    arrived(Some(1), ResponseKind::PeerProperties(PeerPropertiesResponse { server_properties }))
}

fn mechanisms(list: &[&str]) -> Option<Result<Response, ClientError>> {
    let mechanisms = list.iter().map(|name| name.to_string()).collect();
    arrived(Some(2), ResponseKind::SaslHandshake(SaslHandshakeResponse { mechanisms }))
}

fn signed_in(code: ResponseCode) -> Option<Result<Response, ClientError>> {
    arrived(Some(3), ResponseKind::Generic(GenericResponse { code }))
}

fn tunes(max_frame_size: u32, heartbeat: u32) -> Option<Result<Response, ClientError>> {
    arrived(None, ResponseKind::Tunes(TunesCommand { max_frame_size, heartbeat }))
}

fn opened(code: ResponseCode) -> Option<Result<Response, ClientError>> {
    let connection_properties = Properties::new().insert(
        "advertised_host".to_string(),
        "a".to_string(),
    );
    arrived(Some(4), ResponseKind::Open(OpenResponse { code, connection_properties }))
}

fn versions(low: u16, high: u16) -> Option<Result<Response, ClientError>> {
    let body = ExchangeCommandVersionsResponse {
        code: ResponseCode::Success,
        commands: vec![
            CommandVersions { command: 1, min_version: 1, max_version: 9 },
            CommandVersions { command: 2, min_version: low, max_version: high },
        ],
    };
    arrived(Some(5), ResponseKind::ExchangeCommandVersions(body))
}

fn go(
    handshake: Handshake,
    answer: Option<Result<Response, ClientError>>,
) -> (Handshake, Vec<Request>) {
    match handshake.advance(answer) {
        HandshakeOutcome::Continue(next, requests) => (next, requests),
        other => panic!("{:?}", other),
    }
}

fn fail(handshake: Handshake, answer: Option<Result<Response, ClientError>>) -> ClientError {
    match handshake.advance(answer) {
        HandshakeOutcome::Failed(error) => error,
        other => panic!("{:?}", other),
    }
}

fn at_mechanisms(style: HandshakeStyle) -> Handshake {
    go(Handshake::start(options(), style).0, peer()).0
}

fn at_authentication(style: HandshakeStyle) -> Handshake {
    go(at_mechanisms(style), mechanisms(&["PLAIN"])).0
}

fn at_tuning(style: HandshakeStyle) -> Handshake {
    go(at_authentication(style), signed_in(ResponseCode::Success)).0
}

fn at_opening(style: HandshakeStyle) -> Handshake {
    go(at_tuning(style), tunes(2000, 30)).0
}

fn at_versions(style: HandshakeStyle) -> Handshake {
    go(at_opening(style), opened(ResponseCode::Success)).0
}

fn finish(style: HandshakeStyle, high: u16) -> ConnectionData {
    match at_versions(style).advance(versions(1, high)) {
        HandshakeOutcome::Done(data) => data,
        other => panic!("{:?}", other),
    }
}

#[test]
fn negotiation_of_limits() {
    assert_eq!(negotiate_value(0, 0), 0);
    assert_eq!(negotiate_value(0, 60), 60);
    assert_eq!(negotiate_value(30, 0), 30);
    assert_eq!(negotiate_value(30, 60), 30);
    assert_eq!(negotiate_value(60, 30), 30);
    assert_eq!(negotiate_value(u32::MAX, u32::MAX), u32::MAX);
}

#[test]
fn negotiation_is_symmetric() {
    for (client, server) in [(0, 7), (3, 7), (7, 7)] {
        assert_eq!(negotiate_value(client, server), negotiate_value(server, client));
    }
}

#[test]
fn filtering_starts_at_the_second_version() {
    assert!(!filtering_from(0));
    assert!(!filtering_from(1));
    assert!(filtering_from(2));
    assert!(filtering_from(3));
}

#[test]
fn a_client_introduces_itself() {
    let properties = get_client_properties(&options());
    assert_eq!(properties.len(), 6);
    assert_eq!(properties.get("product").unwrap(), "RabbitMQ");
    assert_eq!(properties.get("version").unwrap(), "0.1.0");
    assert_eq!(properties.get("platform").unwrap(), "Rust");
    assert_eq!(
        properties.get("copyright").unwrap(),
        "Copyright (c) 2017-2023 Broadcom. All Rights Reserved. The term Broadcom refers to Broadcom Inc. and/or its subsidiaries.",
    );
    assert_eq!(
        properties.get("information").unwrap(),
        "Licensed under the Apache 2.0 and MPL 2.0 licenses. See https://www.rabbitmq.com/"
    );
    assert_eq!(properties.get("connection_name").unwrap(), "name");
}

#[test]
fn both_clients_start_with_their_properties() {
    let (negotiating, first) = Connection::connect(options());
    assert!(negotiating.style == HandshakeStyle::Negotiating);
    assert!(matches!(first, Request::PeerProperties { correlation_id: 1, .. }));
    let (accepting, first) = initialize(options());
    assert!(accepting.style == HandshakeStyle::Accepting);
    assert!(accepting.step == HandshakeStep::PeerProperties);
    assert!(matches!(first, Request::PeerProperties { correlation_id: 1, .. }));
}

#[test]
fn each_answer_leads_to_the_next_request() {
    let (handshake, _) = Connection::connect(options());
    let (handshake, requests) = go(handshake, peer());
    assert_eq!(requests.len(), 1);
    assert!(matches!(requests[0], Request::SaslHandshake { correlation_id: 2 }));
    let (handshake, requests) = go(handshake, mechanisms(&["EXTERNAL", "PLAIN"]));
    assert_eq!(requests.len(), 1);
    match &requests[0] {
        Request::SaslAuthenticate { correlation_id, mechanism, sasl_data } => {
            assert_eq!(*correlation_id, 3);
            assert_eq!(mechanism, "PLAIN");
            assert_eq!(sasl_data, "\u{0}guest\u{0}pä".as_bytes());
        }
        other => panic!("{:?}", other),
    }
    let (handshake, requests) = go(handshake, signed_in(ResponseCode::Success));
    assert!(requests.is_empty());
    let (handshake, requests) = go(handshake, tunes(2000, 90));
    assert_eq!(requests.len(), 2);
    assert!(matches!(requests[0], Request::Tunes { max_frame_size: 2000, heartbeat: 60 }));
    match &requests[1] {
        Request::Open { correlation_id, virtual_host } => {
            assert_eq!(*correlation_id, 4);
            assert_eq!(virtual_host, "/");
        }
        other => panic!("{:?}", other),
    }
    let (handshake, requests) = go(handshake, opened(ResponseCode::Success));
    assert_eq!(requests.len(), 1);
    assert!(matches!(requests[0], Request::ExchangeCommandVersions { correlation_id: 5 }));
    match handshake.advance(versions(1, 2)) {
        HandshakeOutcome::Done(data) => {
            assert_eq!(data.heartbeat, 60);
            assert_eq!(data.max_frame_size, 2000);
            assert!(data.filtering_supported);
            assert_eq!(data.handshake_mechanisms, ["EXTERNAL", "PLAIN"]);
            assert_eq!(data.server_properties.get("product").unwrap(), "RabbitMQ");
            assert_eq!(data.connection_properties.get("advertised_host").unwrap(), "a");
            assert_eq!(data.client_properties.get("connection_name").unwrap(), "name");
            assert_eq!(data.client_options.user, "guest");
        }
        other => panic!("{:?}", other),
    }
}

#[test]
fn limits_are_negotiated_or_accepted() {
    let negotiated = finish(HandshakeStyle::Negotiating, 1);
    assert_eq!((negotiated.max_frame_size, negotiated.heartbeat), (2000, 30));
    assert!(!negotiated.filtering_supported);
    let (_, requests) = go(at_tuning(HandshakeStyle::Accepting), tunes(9999999, 90));
    assert!(matches!(requests[0], Request::Tunes { max_frame_size: 9999999, heartbeat: 90 }));
    let (_, requests) = go(at_tuning(HandshakeStyle::Negotiating), tunes(9999999, 90));
    assert!(matches!(requests[0], Request::Tunes { max_frame_size: 1048576, heartbeat: 60 }));
}

#[test]
fn credentials_need_the_mechanism() {
    match fail(at_mechanisms(HandshakeStyle::Negotiating), mechanisms(&["EXTERNAL"])) {
        ClientError::UnsupportedAuthMechanism(wanted, offered) => {
            assert_eq!(wanted, "PLAIN");
            assert_eq!(offered, ["EXTERNAL"]);
        }
        other => panic!("{:?}", other),
    }
    let (_, requests) = go(at_mechanisms(HandshakeStyle::Accepting), mechanisms(&["EXTERNAL"]));
    assert!(matches!(requests[0], Request::SaslAuthenticate { correlation_id: 3, .. }));
}

#[test]
fn refusals_end_the_handshake() {
    for style in [HandshakeStyle::Negotiating, HandshakeStyle::Accepting] {
        let error = fail(at_authentication(style), signed_in(ResponseCode::AuthenticationFailure));
        assert!(matches!(error, ClientError::RequestError(ResponseCode::AuthenticationFailure)));
        let error = fail(at_opening(style), opened(ResponseCode::VirtualHostAccessFailure));
        assert!(matches!(error, ClientError::RequestError(ResponseCode::VirtualHostAccessFailure)));
    }
}

#[test]
fn a_lost_connection_ends_the_handshake() {
    for style in [HandshakeStyle::Negotiating, HandshakeStyle::Accepting] {
        assert!(matches!(fail(at_mechanisms(style), None), ClientError::ConnectionClosed));
        assert!(matches!(fail(at_tuning(style), None), ClientError::ConnectionClosed));
        let failure = Some(Err(ClientError::Io("reset".to_string())));
        assert!(
            matches!(fail(at_versions(style), failure), ClientError::Io(text) if text == "reset"),
        );
    }
}

#[test]
fn an_unexpected_answer_ends_the_handshake() {
    match fail(at_tuning(HandshakeStyle::Negotiating), signed_in(ResponseCode::Success)) {
        ClientError::CastError(text) => assert_eq!(
            text,
            "Cannot cast response to rabbitmq_stream_protocol::commands::tune::TunesCommand."
        ),
        other => panic!("{:?}", other),
    }
    match fail(at_tuning(HandshakeStyle::Accepting), signed_in(ResponseCode::Success)) {
        ClientError::CastError(text) => assert_eq!(
            text,
            "Cannot cast response to rabbitmq_stream_protocol::commands::tune::TunesCommand"
        ),
        other => panic!("{:?}", other),
    }
}
