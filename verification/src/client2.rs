//! The client whose connection is closed once and for all.

use crate::error::{ClientError, RabbitMQStreamResult};
use crate::handshake::{introduces, Handshake, HandshakeStep, HandshakeStyle};
use crate::options::{client_properties, ClientOptions, ConnectionData};
use crate::pending::{dash_entries, dash_insert, dash_new, dash_remove};
use crate::metadata::{from_response, lists, metadata_map, StreamMetadata};
use crate::properties::Properties;
use crate::publishing::{
    next_sequence, publication_of, publishes, wanted_ids, ClientMessage, Publication,
};
use crate::receive::{
    answered, offset_answered, sequence_answered, take_answer, take_offset, take_sequence,
};
use crate::request::{
    is_create_stream, is_create_super_stream, is_declare_publisher, is_delete, is_delete_super_stream,
    is_query_offset, is_query_publisher, is_store_offset, is_subscribe, OffsetSpecification, Request,
};
use crate::response::{
    FromResponse, GenericResponse, MetadataResponse, Response, ResponseCode, ResponseKind,
};
use crate::routing::{entry_of, next_id, routed, still_pending, Routing};
use dashmap::DashMap;
use vstd::prelude::*;

verus! {

/// Starts to open a connection; returns the handshake with the first request.
pub fn initialize(client_options: ClientOptions) -> (started: (Handshake, Request))
    ensures
        started.0.style == HandshakeStyle::Accepting,
        started.0.options == client_options,
        started.0.step == HandshakeStep::PeerProperties,
        started.0.client_properties@ == client_properties(client_options.client_provided_name@),
        introduces(started.1, client_options),
{
    Handshake::start(client_options, HandshakeStyle::Accepting)
}

/// Why a connection was closed.
#[derive(Debug)]
pub enum CloseReason {
    ConnectionClosed,
    User,
    Error(ClientError),
}

/// The sending half of a connection.
#[derive(Debug)]
pub struct RequestSender {
    pub closed: bool,
}

/// What becomes of a request that is handed to a sender.
pub open spec fn admitted(sender: RequestSender, item: Request) -> Result<Request, ClientError> {
    if sender.closed {
        Err(ClientError::ConnectionClosed)
    } else {
        Ok(item)
    }
}

impl RequestSender {
    /// Returns the request that is to be written, unless the sender is closed.
    pub fn send(&self, item: Request) -> (admission: RabbitMQStreamResult<Request>)
        ensures
            admission == admitted(*self, item),
    {
        if self.is_closed() {
            return Err(ClientError::ConnectionClosed);
        }
        Ok(item)
    }

    /// Closes the sender, unless it is closed already.
    pub fn close(&mut self) -> (result: RabbitMQStreamResult<()>)
        ensures
            final(self).closed,
            result == (if old(self).closed {
                Err::<(), ClientError>(ClientError::ConnectionClosed)
            } else {
                Ok(())
            }),
    {
        if self.closed {
            return Err(ClientError::ConnectionClosed);
        }
        self.closed = true;
        Ok(())
    }

    /// Returns whether the sender is closed.
    pub fn is_closed(&self) -> (closed: bool)
        ensures
            closed == self.closed,
    {
        self.closed
    }
}

/// The state of a connection that requests, responses and heartbeats share.
#[derive(Debug)]
pub struct ShareClientRawState {
    /// Whether responses have somebody to go to.
    pub response_handler: bool,
    /// When the server was last heard of.
    pub last_heatbeat: u64,
    pub request_sender: RequestSender,
    pub close_reason: Option<CloseReason>,
}

impl ShareClientRawState {
    /// The sender is closed once there is a reason for it, and only then.
    pub open spec fn well_formed(self) -> bool {
        self.close_reason is Some <==> self.request_sender.closed
    }

    /// The state after closing for the given reason.
    pub open spec fn after_close(self, reason: CloseReason) -> ShareClientRawState {
        if self.close_reason is Some {
            self
        } else {
            ShareClientRawState {
                close_reason: Some(reason),
                request_sender: RequestSender { closed: true },
                ..self
            }
        }
    }

    /// The result of closing.
    pub open spec fn close_result(self) -> Result<(), ClientError> {
        if self.close_reason is Some || self.request_sender.closed {
            Err(ClientError::ConnectionClosed)
        } else {
            Ok(())
        }
    }

    /// Closes the connection, unless it is closed already; the first reason is kept.
    pub fn close(&mut self, reason: CloseReason) -> (result: RabbitMQStreamResult<()>)
        ensures
            *final(self) == old(self).after_close(reason),
            result == old(self).close_result(),
            old(self).well_formed() ==> final(self).well_formed(),
    {
        if self.close_reason.is_some() {
            return Err(ClientError::ConnectionClosed);
        }
        self.close_reason = Some(reason);
        self.request_sender.close()
    }
}

/// What is to be done with what arrived.
#[derive(Debug)]
pub enum Received {
    /// Hand the response on.
    Handle(Response),
    /// Nothing.
    Ignore,
    /// Stop receiving, and close the connection.
    Stop,
}

/// The seconds between two heartbeats of the client, for a server that expects one every
/// `heartbeat` seconds; none if the server expects none.
pub open spec fn spec_heartbeat_interval(heartbeat: u32) -> Option<u32> {
    if heartbeat == 0 {
        None
    } else if heartbeat < 2 {
        Some(1)
    } else {
        Some(heartbeat / 2)
    }
}

/// Returns the seconds between two heartbeats of the client, for a server that expects one
/// every `heartbeat` seconds; none if the server expects none.
pub fn heartbeat_interval(heartbeat: u32) -> (interval: Option<u32>)
    ensures
        interval == spec_heartbeat_interval(heartbeat),
{
    if heartbeat == 0 {
        return None;
    }
    let half: u32 = heartbeat / 2;
    if half < 1 {
        Some(1)
    } else {
        Some(half)
    }
}

/// A server that expects heartbeats gets at least one in time: the interval is positive and no
/// longer than the server waits, and from two seconds on at most half of that.
pub proof fn law_heartbeats_are_in_time(heartbeat: u32)
    ensures
        spec_heartbeat_interval(heartbeat) is None <==> heartbeat == 0,
        heartbeat > 0 ==> 1 <= spec_heartbeat_interval(heartbeat)->0 <= heartbeat,
        heartbeat >= 2 ==> 2 * spec_heartbeat_interval(heartbeat)->0 <= heartbeat,
{
}

/// An open connection, with its receiving loop and its heartbeats.
#[derive(Debug)]
pub struct RawClient {
    pub connection_data: ConnectionData,
    pub state: ShareClientRawState,
    /// Whether the receiving loop runs.
    pub response_loop: bool,
    /// The seconds between two heartbeats, while they are sent.
    pub heartbeat_task: Option<u32>,
}

impl RawClient {
    /// Whether the parts fit together.
    pub open spec fn well_formed(self) -> bool {
        self.state.well_formed()
    }

    /// Returns the client of a connection that was opened at the time `now`.
    pub fn connect(connection_data: ConnectionData, now: u64) -> (client: RawClient)
        ensures
            client.well_formed(),
            client.connection_data == connection_data,
            client.state == (ShareClientRawState {
                response_handler: false,
                last_heatbeat: now,
                request_sender: RequestSender { closed: false },
                close_reason: None,
            }),
            client.response_loop,
            client.heartbeat_task == spec_heartbeat_interval(connection_data.heartbeat),
    {
        let heartbeat_task = heartbeat_interval(connection_data.heartbeat);
        RawClient {
            connection_data,
            state: ShareClientRawState {
                response_handler: false,
                last_heatbeat: now,
                request_sender: RequestSender { closed: false },
                close_reason: None,
            },
            response_loop: true,
            heartbeat_task,
        }
    }

    /// What is to be done with what arrived; nothing, once the receiving loop has stopped.
    pub open spec fn reception(self, arrived: Option<Result<Response, ClientError>>) -> Received {
        if !self.response_loop {
            Received::Ignore
        } else {
            match arrived {
                Some(Ok(response)) => if self.state.response_handler && !(
                    response.kind is Heartbeat
                ) {
                    Received::Handle(response)
                } else {
                    Received::Ignore
                },
                _ => Received::Stop,
            }
        }
    }

    /// The client after something arrived at the time `now`.
    pub open spec fn after_reception(
        self,
        arrived: Option<Result<Response, ClientError>>,
        now: u64,
    ) -> RawClient {
        if !self.response_loop {
            self
        } else {
            match arrived {
                Some(Ok(response)) => if self.state.response_handler && response.kind is Heartbeat {
                    RawClient {
                        state: ShareClientRawState { last_heatbeat: now, ..self.state },
                        ..self
                    }
                } else {
                    self
                },
                _ => RawClient { response_loop: false, ..self },
            }
        }
    }

    /// The client after the receiving loop has stopped and the connection was closed for that.
    pub open spec fn after_stop(self) -> RawClient {
        RawClient { state: self.state.after_close(CloseReason::ConnectionClosed), ..self }
    }

    /// Takes what arrived at the time `now`. A heartbeat is noted and not handed on; the end of
    /// the stream and a failure stop the receiving loop, after which nothing is taken.
    pub fn receive(&mut self, arrived: Option<Result<Response, ClientError>>, now: u64) -> (received:
        Received)
        ensures
            received == old(self).reception(arrived),
            arrived matches Some(Ok(response)) ==> old(self).response_loop && old(
                self,
            ).state.response_handler && !(response.kind is Heartbeat) ==> received
                == Received::Handle(response),
            *final(self) == old(self).after_reception(arrived, now),
            old(self).well_formed() ==> final(self).well_formed(),
    {
        if !self.response_loop {
            return Received::Ignore;
        }
        match arrived {
            Some(Ok(response)) => {
                if !self.state.response_handler {
                    return Received::Ignore;
                }
                match response.kind {
                    ResponseKind::Heartbeat => {
                        self.state.last_heatbeat = now;
                        Received::Ignore
                    },
                    _ => Received::Handle(response),
                }
            },
            _ => {
                self.response_loop = false;
                Received::Stop
            },
        }
    }

    /// Closes the connection after the receiving loop has stopped.
    pub fn receive_stopped(&mut self) -> (result: RabbitMQStreamResult<()>)
        ensures
            *final(self) == old(self).after_stop(),
            result == old(self).state.close_result(),
            old(self).well_formed() ==> final(self).well_formed(),
    {
        self.state.close(CloseReason::ConnectionClosed)
    }

    /// Returns after how many seconds the first heartbeat is due: as many as there are between two
    /// of them; none if no heartbeats are sent.
    pub fn first_heartbeat_after(&self) -> (seconds: Option<u32>)
        ensures
            seconds == self.heartbeat_task,
    {
        self.heartbeat_task
    }

    /// Returns the heartbeat that is due; none, and no more heartbeats, once the sender is closed.
    pub fn heartbeat_tick(&mut self) -> (due: Option<Request>)
        ensures
            due == (if old(self).state.request_sender.closed {
                None::<Request>
            } else {
                Some(Request::Heartbeat)
            }),
            *final(self) == (if old(self).state.request_sender.closed {
                RawClient { heartbeat_task: None, ..*old(self) }
            } else {
                *old(self)
            }),
    {
        if self.state.request_sender.is_closed() {
            self.heartbeat_task = None;
            return None;
        }
        Some(Request::Heartbeat)
    }

    /// Notes whether a heartbeat was sent; the first failure ends the heartbeats.
    pub fn heartbeat_sent(&mut self, sent: RabbitMQStreamResult<()>)
        ensures
            *final(self) == (if sent is Ok {
                *old(self)
            } else {
                RawClient { heartbeat_task: None, ..*old(self) }
            }),
    {
        if sent.is_err() {
            self.heartbeat_task = None;
        }
    }

    /// Returns the request that is to be written, unless the connection is closed.
    pub fn send_request(&self, request: Request) -> (admission: RabbitMQStreamResult<Request>)
        ensures
            admission == admitted(self.state.request_sender, request),
    {
        self.state.request_sender.send(request)
    }

    /// Closes the connection, unless it is closed already. On success the transport is to be
    /// closed, and [`RawClient::closed`] to be told how that ended.
    pub fn close(&mut self, reason: CloseReason) -> (result: RabbitMQStreamResult<()>)
        ensures
            *final(self) == (
                RawClient { state: old(self).state.after_close(reason), ..*old(self) }
            ),
            result == old(self).state.close_result(),
            old(self).well_formed() ==> final(self).well_formed(),
    {
        self.state.close(reason)
    }

    /// Stops the heartbeats and the receiving loop once the transport is closed; leaves them
    /// where closing it failed.
    pub fn closed(
        &mut self,
        transport: RabbitMQStreamResult<()>,
    ) -> (result: RabbitMQStreamResult<()>)
        ensures
            result == transport,
            *final(self) == (if transport is Ok {
                RawClient { response_loop: false, heartbeat_task: None, ..*old(self) }
            } else {
                *old(self)
            }),
    {
        if transport.is_ok() {
            self.response_loop = false;
            self.heartbeat_task = None;
        }
        transport
    }
}

/// An open connection can be closed; closing it a second time is refused and changes nothing:
/// the first reason stays.
pub proof fn law_closed_once(state: ShareClientRawState, first: CloseReason, second: CloseReason)
    requires
        state.well_formed(),
    ensures
        state.close_result() is Ok <==> state.close_reason is None,
        state.after_close(first).after_close(second) == state.after_close(first),
        state.after_close(first).close_result() == Err::<(), ClientError>(
            ClientError::ConnectionClosed,
        ),
        state.close_reason is None ==> state.after_close(first).close_reason == Some(first),
{
}

/// A closed connection refuses every request.
pub proof fn law_closed_refuses_requests(
    state: ShareClientRawState,
    reason: CloseReason,
    request: Request,
)
    requires
        state.well_formed(),
    ensures
        admitted(state.after_close(reason).request_sender, request) == Err::<Request, ClientError>(
            ClientError::ConnectionClosed,
        ),
{
}

/// Where nobody has closed the connection, the end of the stream or a failure closes it. From then
/// on nothing that arrives is handed on or changes anything, and every request is refused.
pub proof fn law_nothing_is_received_after_the_end(
    client: RawClient,
    end: Option<Result<Response, ClientError>>,
    now: u64,
    later: Option<Result<Response, ClientError>>,
    then: u64,
    request: Request,
)
    requires
        client.well_formed(),
        client.response_loop,
        client.state.close_reason is None,
        !(end matches Some(Ok(_))),
    ensures
        client.reception(end) == Received::Stop,
        client.after_reception(end, now).reception(later) == Received::Ignore,
        ({
            let stopped = client.after_reception(end, now).after_stop();
            &&& stopped.state.close_reason == Some(CloseReason::ConnectionClosed)
            &&& stopped.reception(later) == Received::Ignore
            &&& stopped.after_reception(later, then) == stopped
            &&& admitted(stopped.state.request_sender, request) == Err::<Request, ClientError>(
                ClientError::ConnectionClosed,
            )
        }),
{
}

/// A request on its way to the server.
#[derive(Debug)]
pub struct Submission {
    /// The request that is to be written, unless the connection is closed.
    pub request: RabbitMQStreamResult<Request>,
    /// One who waited for an answer with the same identifier, and will not get it.
    pub replaced: Option<u64>,
}

/// What is to be done with what arrived.
#[derive(Debug)]
pub enum ClientEvent {
    /// Hand the response on.
    Deliver(Routing),
    /// Nothing.
    Ignore,
    /// Stop receiving, and close the connection.
    Stop,
}

/// A client: it gives each request an identifier and each answer to the one who waits for it.
#[derive(Debug)]
pub struct Client2 {
    pub raw_client: RawClient,
    /// The identifier of the next request.
    pub correlation_id: u32,
    /// The identifier of the next message that has none of its own.
    pub publish_sequence: u64,
    /// Those who wait for an answer.
    pub requests: DashMap<u32, u64>,
    /// Whether there is a handler for the other responses.
    pub handler: bool,
}

/// Whether `waiter` is registered for the next answer, nothing else has changed, and the request
/// is refused exactly if the connection is closed.
pub open spec fn submitted(
    before: Client2,
    after: Client2,
    waiter: u64,
    submission: Submission,
) -> bool {
    &&& after.raw_client == before.raw_client
    &&& after.publish_sequence == before.publish_sequence
    &&& after.handler == before.handler
    &&& after.correlation_id == next_id(before.correlation_id)
    &&& after.pending() == before.pending().insert(before.correlation_id, waiter)
    &&& submission.replaced == entry_of(before.pending(), before.correlation_id)
    &&& match submission.request {
        Ok(request) => !before.is_shut(),
        Err(error) => before.is_shut() && error == ClientError::ConnectionClosed,
    }
}

/// Whether an event is what a client makes of what arrived.
pub open spec fn yields(
    before: Client2,
    arrived: Option<Result<Response, ClientError>>,
    event: ClientEvent,
) -> bool {
    match before.raw_client.reception(arrived) {
        Received::Handle(response) => event == ClientEvent::Deliver(
            routed(before.pending(), before.handler, response),
        ),
        Received::Ignore => event == ClientEvent::Ignore,
        Received::Stop => event == ClientEvent::Stop,
    }
}

impl Client2 {
    /// Whether the parts fit together.
    pub open spec fn well_formed(self) -> bool {
        self.raw_client.well_formed() && self.raw_client.state.response_handler
    }

    /// Those who wait for an answer, by the identifier of the request.
    pub open spec fn pending(self) -> Map<u32, u64> {
        dash_entries(self.requests)
    }

    /// Whether the connection takes no more requests.
    pub open spec fn is_shut(self) -> bool {
        self.raw_client.state.request_sender.closed
    }

    /// Returns the client of a connection that was opened at the time `now`.
    pub fn connect(connection_data: ConnectionData, now: u64) -> (client: Client2)
        ensures
            client.well_formed(),
            !client.is_shut(),
            client.raw_client.connection_data == connection_data,
            client.raw_client.state == (ShareClientRawState {
                response_handler: true,
                last_heatbeat: now,
                request_sender: RequestSender { closed: false },
                close_reason: None,
            }),
            client.raw_client.response_loop,
            client.raw_client.heartbeat_task == spec_heartbeat_interval(connection_data.heartbeat),
            client.correlation_id == 0,
            client.publish_sequence == 0,
            client.pending() == Map::<u32, u64>::empty(),
            !client.handler,
    {
        let mut raw_client = RawClient::connect(connection_data, now);
        raw_client.state.response_handler = true;
        Client2 {
            raw_client,
            correlation_id: 0,
            publish_sequence: 0,
            requests: dash_new(),
            handler: false,
        }
    }

    /// Sets a handler for the responses for which nobody waits.
    pub fn set_handler(&mut self)
        ensures
            *final(self) == (Client2 {
                handler: true,
                raw_client: RawClient {
                    state: ShareClientRawState {
                        response_handler: true,
                        ..old(self).raw_client.state
                    },
                    ..old(self).raw_client
                },
                ..*old(self)
            }),
    {
        self.handler = true;
        self.raw_client.state.response_handler = true;
    }

    /// Returns the properties of the server.
    pub fn server_properties(&self) -> (properties: Properties)
        ensures
            properties@ == self.raw_client.connection_data.server_properties@,
    {
        self.raw_client.connection_data.server_properties.copy()
    }

    /// Returns the properties of the connection.
    pub fn connection_properties(&self) -> (properties: Properties)
        ensures
            properties@ == self.raw_client.connection_data.connection_properties@,
    {
        self.raw_client.connection_data.connection_properties.copy()
    }

    /// Returns whether the server can filter messages.
    pub fn filtering_supported(&self) -> (supported: bool)
        ensures
            supported == self.raw_client.connection_data.filtering_supported,
    {
        self.raw_client.connection_data.filtering_supported
    }

    /// Returns whether the connection has been closed.
    pub fn is_closed(&self) -> (closed: bool)
        ensures
            closed == self.raw_client.state.close_reason is Some,
            self.well_formed() ==> closed == self.is_shut(),
    {
        self.raw_client.state.close_reason.is_some()
    }

    /// Closes the connection on behalf of the user, unless it is closed already.
    pub fn close(&mut self) -> (result: RabbitMQStreamResult<()>)
        ensures
            *final(self) == (Client2 {
                raw_client: RawClient {
                    state: old(self).raw_client.state.after_close(CloseReason::User),
                    ..old(self).raw_client
                },
                ..*old(self)
            }),
            result == old(self).raw_client.state.close_result(),
            old(self).well_formed() ==> final(self).well_formed() && final(self).is_shut(),
    {
        self.raw_client.close(CloseReason::User)
    }

    /// Takes what arrived at the time `now`.
    pub fn receive(&mut self, arrived: Option<Result<Response, ClientError>>, now: u64) -> (event:
        ClientEvent)
        ensures
            old(self).well_formed() ==> final(self).well_formed(),
            final(self).correlation_id == old(self).correlation_id,
            final(self).publish_sequence == old(self).publish_sequence,
            final(self).handler == old(self).handler,
            final(self).raw_client == old(self).raw_client.after_reception(arrived, now),
            yields(*old(self), arrived, event),
            arrived matches Some(Ok(response)) ==> old(self).well_formed() && old(
                self,
            ).raw_client.response_loop && old(self).handler && response.correlation_id is None && !(
            response.kind is Heartbeat) ==> event == ClientEvent::Deliver(
                Routing::ToHandler(response),
            ),
            match old(self).raw_client.reception(arrived) {
                Received::Handle(response) => event == ClientEvent::Deliver(
                    routed(old(self).pending(), old(self).handler, response),
                ) && final(self).pending() == still_pending(old(self).pending(), response),
                Received::Ignore => event == ClientEvent::Ignore && final(self).pending() == old(
                    self,
                ).pending(),
                Received::Stop => event == ClientEvent::Stop && final(self).pending() == old(
                    self,
                ).pending(),
            },
    {
        match self.raw_client.receive(arrived, now) {
            Received::Handle(response) => ClientEvent::Deliver(self.handle_response(response)),
            Received::Ignore => ClientEvent::Ignore,
            Received::Stop => ClientEvent::Stop,
        }
    }

    /// Gives a response to the one who waits for it, or else to the handler.
    pub fn handle_response(&mut self, response: Response) -> (routing: Routing)
        ensures
            routing == routed(old(self).pending(), old(self).handler, response),
            final(self).pending() == still_pending(old(self).pending(), response),
            final(self).raw_client == old(self).raw_client,
            final(self).correlation_id == old(self).correlation_id,
            final(self).publish_sequence == old(self).publish_sequence,
            final(self).handler == old(self).handler,
    {
        if let Some(correlation_id) = response.correlation_id {
            if let Some(waiter) = dash_remove(&mut self.requests, correlation_id) {
                return Routing::ToWaiter(waiter, response);
            }
        }
        if self.handler {
            Routing::ToHandler(response)
        } else {
            Routing::Dropped
        }
    }

    /// Returns the reason that the handler is told, if there is a handler.
    pub fn on_closed(&self, reason: CloseReason) -> (told: Option<CloseReason>)
        ensures
            told == (if self.handler {
                Some(reason)
            } else {
                None
            }),
    {
        if self.handler {
            Some(reason)
        } else {
            None
        }
    }

    /// Registers the one who waits for the answer to `request`.
    fn submit(&mut self, waiter: u64, request: Request) -> (submission: Submission)
        ensures
            submitted(*old(self), *final(self), waiter, submission),
            submission.request matches Ok(sent) ==> sent == request,
    {
        let correlation_id: u32 = self.correlation_id;
        self.correlation_id = correlation_id.wrapping_add(1);
        let replaced = dash_insert(&mut self.requests, correlation_id, waiter);
        Submission { request: self.raw_client.send_request(request), replaced }
    }

    /// Takes a body of the wanted type from the answer to a request; there is no answer if the
    /// one who waits for it has been forgotten.
    pub fn receive_answer<R: FromResponse>(answer: Option<Response>) -> (
        result: RabbitMQStreamResult<R>
    )
        ensures
            answered::<R>(answer, result, ClientError::ConnectionClosed, ""@),
    {
        take_answer::<R>(answer, ClientError::ConnectionClosed, "")
    }

    /// Takes the offset from the answer to [`Client2::query_offset`].
    pub fn receive_offset(answer: Option<Response>) -> (result: RabbitMQStreamResult<u64>)
        ensures
            offset_answered(answer, result, ClientError::ConnectionClosed, ""@),
    {
        take_offset(answer, ClientError::ConnectionClosed, "")
    }

    /// Takes the number from the answer to [`Client2::query_publisher_sequence`].
    pub fn receive_publisher_sequence(answer: Option<Response>) -> (
        result: RabbitMQStreamResult<u64>
    )
        ensures
            sequence_answered(answer, result, ClientError::ConnectionClosed, ""@),
    {
        take_sequence(answer, ClientError::ConnectionClosed, "")
    }

    /// Takes the brokers of the streams from the answer to [`Client2::metadata`].
    pub fn receive_metadata(answer: Option<Response>) -> (result: RabbitMQStreamResult<
        Vec<StreamMetadata>,
    >)
        ensures
            match result {
                Ok(table) => answer is Some && match MetadataResponse::body_of(answer->0) {
                    Some(body) => lists(table@, metadata_map(body.brokers@, body.stream_metadata@)),
                    None => false,
                },
                Err(error) => answered::<MetadataResponse>(
                    answer,
                    Err(error),
                    ClientError::ConnectionClosed,
                    ""@,
                ),
            },
    {
        match take_answer::<MetadataResponse>(answer, ClientError::ConnectionClosed, "") {
            Ok(response) => Ok(from_response(response)),
            Err(error) => Err(error),
        }
    }

    /// Subscribes to a stream.
    pub fn subscribe(
        &mut self,
        waiter: u64,
        subscription_id: u8,
        stream: &str,
        offset_specification: OffsetSpecification,
        credit: u16,
        properties: Properties,
    ) -> (submission: Submission)
        ensures
            submitted(*old(self), *final(self), waiter, submission),
            submission.request matches Ok(request) ==> is_subscribe(
                request,
                old(self).correlation_id,
                subscription_id,
                stream@,
                offset_specification,
                credit,
                properties,
            ),
    {
        let request = Request::Subscribe {
            correlation_id: self.correlation_id,
            subscription_id,
            stream: stream.to_owned(),
            offset_specification,
            credit,
            properties,
        };
        self.submit(waiter, request)
    }

    /// Ends a subscription.
    pub fn unsubscribe(&mut self, waiter: u64, subscription_id: u8) -> (submission: Submission)
        ensures
            submitted(*old(self), *final(self), waiter, submission),
            submission.request matches Ok(request) ==> request == (
                Request::Unsubscribe { correlation_id: old(self).correlation_id, subscription_id }
            ),
    {
        let request = Request::Unsubscribe { correlation_id: self.correlation_id, subscription_id };
        self.submit(waiter, request)
    }

    /// Asks for the streams of a super stream.
    pub fn partitions(&mut self, waiter: u64, super_stream: String) -> (submission: Submission)
        ensures
            submitted(*old(self), *final(self), waiter, submission),
            submission.request matches Ok(request) ==> request == (
                Request::SuperStreamPartitions {
                    correlation_id: old(self).correlation_id,
                    super_stream,
                }
            ),
    {
        let request = Request::SuperStreamPartitions {
            correlation_id: self.correlation_id,
            super_stream,
        };
        self.submit(waiter, request)
    }

    /// Asks to which streams of a super stream a routing key leads.
    pub fn route(
        &mut self,
        waiter: u64,
        routing_key: String,
        super_stream: String,
    ) -> (submission: Submission)
        ensures
            submitted(*old(self), *final(self), waiter, submission),
            submission.request matches Ok(request) ==> request == (
                Request::SuperStreamRoute {
                    correlation_id: old(self).correlation_id,
                    routing_key,
                    super_stream,
                }
            ),
    {
        let request = Request::SuperStreamRoute {
            correlation_id: self.correlation_id,
            routing_key,
            super_stream,
        };
        self.submit(waiter, request)
    }

    /// Creates a stream.
    pub fn create_stream(
        &mut self,
        waiter: u64,
        stream: &str,
        options: Properties,
    ) -> (submission: Submission)
        ensures
            submitted(*old(self), *final(self), waiter, submission),
            submission.request matches Ok(request) ==> is_create_stream(
                request,
                old(self).correlation_id,
                stream@,
                options,
            ),
    {
        let request = Request::CreateStream {
            correlation_id: self.correlation_id,
            stream: stream.to_owned(),
            arguments: options,
        };
        self.submit(waiter, request)
    }

    /// Creates a super stream.
    pub fn create_super_stream(
        &mut self,
        waiter: u64,
        super_stream: &str,
        partitions: Vec<String>,
        binding_keys: Vec<String>,
        options: Properties,
    ) -> (submission: Submission)
        ensures
            submitted(*old(self), *final(self), waiter, submission),
            submission.request matches Ok(request) ==> is_create_super_stream(
                request,
                old(self).correlation_id,
                super_stream@,
                partitions,
                binding_keys,
                options,
            ),
    {
        let request = Request::CreateSuperStream {
            correlation_id: self.correlation_id,
            super_stream: super_stream.to_owned(),
            partitions,
            binding_keys,
            arguments: options,
        };
        self.submit(waiter, request)
    }

    /// Deletes a stream.
    pub fn delete_stream(&mut self, waiter: u64, stream: &str) -> (submission: Submission)
        ensures
            submitted(*old(self), *final(self), waiter, submission),
            submission.request matches Ok(request) ==> is_delete(
                request,
                old(self).correlation_id,
                stream@,
            ),
    {
        let request = Request::Delete {
            correlation_id: self.correlation_id,
            stream: stream.to_owned(),
        };
        self.submit(waiter, request)
    }

    /// Deletes a super stream.
    pub fn delete_super_stream(
        &mut self,
        waiter: u64,
        super_stream: &str,
    ) -> (submission: Submission)
        ensures
            submitted(*old(self), *final(self), waiter, submission),
            submission.request matches Ok(request) ==> is_delete_super_stream(
                request,
                old(self).correlation_id,
                super_stream@,
            ),
    {
        let request = Request::DeleteSuperStream {
            correlation_id: self.correlation_id,
            super_stream: super_stream.to_owned(),
        };
        self.submit(waiter, request)
    }

    /// Asks which brokers hold the streams.
    pub fn metadata(&mut self, waiter: u64, streams: Vec<String>) -> (submission: Submission)
        ensures
            submitted(*old(self), *final(self), waiter, submission),
            submission.request matches Ok(request) ==> request == (
                Request::Metadata { correlation_id: old(self).correlation_id, streams }
            ),
    {
        let request = Request::Metadata { correlation_id: self.correlation_id, streams };
        self.submit(waiter, request)
    }

    /// Asks for the offset that is stored under a reference.
    pub fn query_offset(
        &mut self,
        waiter: u64,
        reference: String,
        stream: &str,
    ) -> (submission: Submission)
        ensures
            submitted(*old(self), *final(self), waiter, submission),
            submission.request matches Ok(request) ==> is_query_offset(
                request,
                old(self).correlation_id,
                reference,
                stream@,
            ),
    {
        let request = Request::QueryOffset {
            correlation_id: self.correlation_id,
            reference,
            stream: stream.to_owned(),
        };
        self.submit(waiter, request)
    }

    /// Declares a publisher of a stream.
    pub fn declare_publisher(
        &mut self,
        waiter: u64,
        publisher_id: u8,
        publisher_reference: Option<String>,
        stream: &str,
    ) -> (submission: Submission)
        ensures
            submitted(*old(self), *final(self), waiter, submission),
            submission.request matches Ok(request) ==> is_declare_publisher(
                request,
                old(self).correlation_id,
                publisher_id,
                publisher_reference,
                stream@,
            ),
    {
        let request = Request::DeclarePublisher {
            correlation_id: self.correlation_id,
            publisher_id,
            publisher_reference,
            stream: stream.to_owned(),
        };
        self.submit(waiter, request)
    }

    /// Deletes a publisher.
    pub fn delete_publisher(&mut self, waiter: u64, publisher_id: u8) -> (submission: Submission)
        ensures
            submitted(*old(self), *final(self), waiter, submission),
            submission.request matches Ok(request) ==> request == (
                Request::DeletePublisher { correlation_id: old(self).correlation_id, publisher_id }
            ),
    {
        let request = Request::DeletePublisher {
            correlation_id: self.correlation_id,
            publisher_id,
        };
        self.submit(waiter, request)
    }

    /// Asks for the last sequence number of a publisher.
    pub fn query_publisher_sequence(
        &mut self,
        waiter: u64,
        reference: &str,
        stream: &str,
    ) -> (submission: Submission)
        ensures
            submitted(*old(self), *final(self), waiter, submission),
            submission.request matches Ok(request) ==> is_query_publisher(
                request,
                old(self).correlation_id,
                reference@,
                stream@,
            ),
    {
        let request = Request::QueryPublisherSequence {
            correlation_id: self.correlation_id,
            reference: reference.to_owned(),
            stream: stream.to_owned(),
        };
        self.submit(waiter, request)
    }

    /// Asks which versions of the commands the server takes.
    pub fn exchange_command_versions(&mut self, waiter: u64) -> (submission: Submission)
        ensures
            submitted(*old(self), *final(self), waiter, submission),
            submission.request matches Ok(request) ==> request == (
                Request::ExchangeCommandVersions { correlation_id: old(self).correlation_id }
            ),
    {
        let request = Request::ExchangeCommandVersions { correlation_id: self.correlation_id };
        self.submit(waiter, request)
    }

    /// Answers a consumer update. The answer carries the identifier of the update, not the one
    /// under which `waiter` is registered.
    pub fn consumer_update(
        &mut self,
        waiter: u64,
        correlation_id: u32,
        offset_specification: OffsetSpecification,
    ) -> (submission: Submission)
        ensures
            submitted(*old(self), *final(self), waiter, submission),
            submission.request matches Ok(request) ==> request == (Request::ConsumerUpdateRequest {
                correlation_id,
                response_code: 1,
                offset_specification,
            }),
    {
        let request = Request::ConsumerUpdateRequest {
            correlation_id,
            response_code: 1,
            offset_specification,
        };
        self.submit(waiter, request)
    }

    /// Grants credit to a subscription.
    pub fn credit(
        &self,
        subscription_id: u8,
        credit: u16,
    ) -> (request: RabbitMQStreamResult<Request>)
        ensures
            request == admitted(
                self.raw_client.state.request_sender,
                Request::Credit { subscription_id, credit },
            ),
    {
        self.raw_client.send_request(Request::Credit { subscription_id, credit })
    }

    /// Stores an offset under a reference.
    pub fn store_offset(&self, reference: &str, stream: &str, offset: u64) -> (request:
        RabbitMQStreamResult<Request>)
        ensures
            match request {
                Ok(sent) => !self.is_shut() && is_store_offset(sent, reference@, stream@, offset),
                Err(error) => self.is_shut() && error == ClientError::ConnectionClosed,
            },
    {
        self.raw_client.send_request(
            Request::StoreOffset {
                reference: reference.to_owned(),
                stream: stream.to_owned(),
                offset,
            },
        )
    }

    /// Gives the messages their identifiers; returns them as they are to be published, unless the
    /// connection is closed. The sequence goes on in either case.
    pub fn publish<M>(
        &mut self,
        publisher_id: u8,
        messages: Vec<ClientMessage<M>>,
        version: u16,
    ) -> (result: RabbitMQStreamResult<Publication<M>>)
        ensures
            *final(self) == (Client2 {
                publish_sequence: next_sequence(wanted_ids(messages@), old(self).publish_sequence),
                ..*old(self)
            }),
            match result {
                Ok(publication) => !old(self).is_shut() && publishes(
                    publication,
                    publisher_id,
                    messages@,
                    version,
                    old(self).publish_sequence,
                ),
                Err(error) => old(self).is_shut() && error == ClientError::ConnectionClosed,
            },
            result matches Ok(publication) ==> publication.published@.len() == messages@.len() && (
            forall|i: int|
                0 <= i < messages@.len() ==> (#[trigger] publication.published@[i]).message
                    == messages@[i].message && publication.published@[i].filter_value
                    == messages@[i].filter_value),
    {
        let (publication, next) = publication_of(
            publisher_id,
            messages,
            version,
            self.publish_sequence,
        );
        self.publish_sequence = next;
        if self.raw_client.state.request_sender.is_closed() {
            return Err(ClientError::ConnectionClosed);
        }
        Ok(publication)
    }
}

/// A client whose connection is closed refuses every request, and stays closed.
pub proof fn law_closed_client_refuses(
    before: Client2,
    after: Client2,
    waiter: u64,
    submission: Submission,
)
    requires
        before.is_shut(),
        submitted(before, after, waiter, submission),
    ensures
        submission.request == Err::<Request, ClientError>(ClientError::ConnectionClosed),
        after.is_shut(),
{
}

/// The first response with the identifier of a request reaches the one who waits for its answer.
pub proof fn law_answer_reaches_the_submitter(
    before: Client2,
    after: Client2,
    waiter: u64,
    submission: Submission,
    answer: Response,
)
    requires
        submitted(before, after, waiter, submission),
        answer.correlation_id == Some(before.correlation_id),
    ensures
        routed(after.pending(), after.handler, answer) == Routing::ToWaiter(waiter, answer),
{
}

/// While the receiving loop runs and there is somebody to take the responses, every response that is
/// no heartbeat is handed on unchanged and changes nothing in the client; a heartbeat is not handed
/// on, and only the time at which the server was last heard of changes.
pub proof fn law_responses_are_handed_on(client: RawClient, response: Response, now: u64)
    requires
        client.response_loop,
        client.state.response_handler,
    ensures
        ({
            let arrived: Option<Result<Response, ClientError>> = Some(Ok(response));
            &&& !(response.kind is Heartbeat) ==> client.reception(arrived) == Received::Handle(
                response,
            )
            &&& !(response.kind is Heartbeat) ==> client.after_reception(arrived, now) == client
            &&& response.kind is Heartbeat ==> client.reception(arrived) == Received::Ignore
            &&& response.kind is Heartbeat ==> client.after_reception(arrived, now) == (RawClient {
                state: ShareClientRawState { last_heatbeat: now, ..client.state },
                ..client
            })
        }),
{
}

/// Without anybody to take the responses none is handed on, and none changes the client.
pub proof fn law_responses_need_a_taker(client: RawClient, response: Response, now: u64)
    requires
        client.response_loop,
        !client.state.response_handler,
    ensures
        ({
            let arrived: Option<Result<Response, ClientError>> = Some(Ok(response));
            &&& client.reception(arrived) == Received::Ignore
            &&& client.after_reception(arrived, now) == client
        }),
{
}

/// The end of the stream and every failure stop the receiving loop and change nothing else; closing
/// the connection is left to what follows.
pub proof fn law_the_end_stops_receiving(client: RawClient, failure: ClientError, now: u64)
    requires
        client.response_loop,
    ensures
        client.reception(None) == Received::Stop,
        client.reception(Some(Err(failure))) == Received::Stop,
        client.after_reception(None, now) == (RawClient { response_loop: false, ..client }),
        client.after_reception(Some(Err(failure)), now) == (
            RawClient { response_loop: false, ..client }
        ),
{
}

/// As long as the client receives, a response that is no heartbeat, whatever it holds, goes to the
/// one who waits for it, and if nobody does to the handler that was set.
pub proof fn law_responses_reach_waiter_or_handler(
    client: Client2,
    response: Response,
    event: ClientEvent,
)
    requires
        client.well_formed(),
        client.raw_client.response_loop,
        !(response.kind is Heartbeat),
        yields(client, Some(Ok(response)), event),
    ensures
        response.correlation_id is None && client.handler ==> event == ClientEvent::Deliver(
            Routing::ToHandler(response),
        ),
        response.correlation_id matches Some(id) ==> if client.pending().contains_key(id) {
            event == ClientEvent::Deliver(Routing::ToWaiter(client.pending()[id], response))
        } else {
            client.handler ==> event == ClientEvent::Deliver(Routing::ToHandler(response))
        },
        !client.handler && (response.correlation_id is None || !client.pending().contains_key(
            response.correlation_id->0,
        )) ==> event == ClientEvent::Deliver(Routing::Dropped),
{
}

/// The heartbeats come as rarely as they can: the interval is half of what the server expects,
/// rounded down, and never less than a second.
pub proof fn law_heartbeats_come_at_half_time(heartbeat: u32)
    ensures
        heartbeat >= 2 ==> (spec_heartbeat_interval(heartbeat) matches Some(interval) && 2 * interval
            <= heartbeat < 2 * interval + 2),
        heartbeat == 1 ==> spec_heartbeat_interval(heartbeat) == Some(1u32),
        heartbeat == 0 ==> spec_heartbeat_interval(heartbeat) is None,
{
}

/// An open connection takes every request, and hands it on unchanged.
pub proof fn law_open_connection_takes_requests(sender: RequestSender, request: Request)
    ensures
        !sender.closed ==> admitted(sender, request) == Ok::<Request, ClientError>(request),
        sender.closed ==> admitted(sender, request) == Err::<Request, ClientError>(
            ClientError::ConnectionClosed,
        ),
{
}

/// Closing an open connection closes its sender and notes the reason, whatever it is, and changes
/// nothing else.
pub proof fn law_closing_notes_the_reason(state: ShareClientRawState, reason: CloseReason)
    requires
        state.well_formed(),
        state.close_reason is None,
    ensures
        state.close_result() == Ok::<(), ClientError>(()),
        state.after_close(reason) == (ShareClientRawState {
            response_handler: state.response_handler,
            last_heatbeat: state.last_heatbeat,
            request_sender: RequestSender { closed: true },
            close_reason: Some(reason),
        }),
        state.after_close(reason).well_formed(),
{
}

/// A request gets the identifier of its turn, the next one gets another, and those who wait for other
/// answers go on waiting. It is refused exactly if the connection is closed.
pub proof fn law_submitting_registers_the_waiter(
    before: Client2,
    after: Client2,
    waiter: u64,
    submission: Submission,
    other: u32,
)
    requires
        submitted(before, after, waiter, submission),
    ensures
        after.pending().contains_key(before.correlation_id),
        after.pending()[before.correlation_id] == waiter,
        other != before.correlation_id ==> after.pending().contains_key(other)
            == before.pending().contains_key(other),
        other != before.correlation_id && before.pending().contains_key(other)
            ==> after.pending()[other] == before.pending()[other],
        submission.replaced == (if before.pending().contains_key(before.correlation_id) {
            Some(before.pending()[before.correlation_id])
        } else {
            None
        }),
        after.correlation_id == (if before.correlation_id == u32::MAX {
            0
        } else {
            before.correlation_id + 1
        }),
        after.raw_client == before.raw_client,
        after.handler == before.handler,
        after.publish_sequence == before.publish_sequence,
        submission.request is Ok <==> !before.raw_client.state.request_sender.closed,
        submission.request matches Err(error) ==> error == ClientError::ConnectionClosed,
{
}

/// Closing after the receiving loop has stopped notes that the connection was closed, unless another
/// reason was noted before, and leaves everything else as it is.
pub proof fn law_stopping_closes_the_connection(client: RawClient)
    requires
        client.well_formed(),
    ensures
        client.state.close_reason is None ==> client.after_stop().state.close_reason == Some(
            CloseReason::ConnectionClosed,
        ),
        client.state.close_reason is Some ==> client.after_stop() == client,
        client.after_stop().state.request_sender.closed,
        client.after_stop().state.response_handler == client.state.response_handler,
        client.after_stop().state.last_heatbeat == client.state.last_heatbeat,
        client.after_stop().connection_data == client.connection_data,
        client.after_stop().response_loop == client.response_loop,
        client.after_stop().heartbeat_task == client.heartbeat_task,
{
}

/// Closing fails exactly if there is a reason already or the sender is closed, whatever else holds of
/// the state.
pub proof fn law_only_open_connections_can_be_closed(state: ShareClientRawState)
    ensures
        state.close_result() == (if state.close_reason is None && !state.request_sender.closed {
            Ok::<(), ClientError>(())
        } else {
            Err::<(), ClientError>(ClientError::ConnectionClosed)
        }),
{
}

/// The end of the stream and every failure stop a client that receives; one that does not receive
/// ignores all that arrives.
pub proof fn law_clients_stop_at_the_end(
    client: Client2,
    failure: ClientError,
    arrived: Option<Result<Response, ClientError>>,
    event: ClientEvent,
)
    requires
        yields(client, arrived, event),
    ensures
        client.raw_client.response_loop && (arrived is None || arrived == Some(
            Err::<Response, ClientError>(failure),
        )) ==> event == ClientEvent::Stop,
        !client.raw_client.response_loop ==> event == ClientEvent::Ignore,
        client.raw_client.response_loop && (arrived matches Some(Ok(response))
            && response.kind is Heartbeat) ==> event == ClientEvent::Ignore,
{
}

/// A connection that receives hands every response on that is no heartbeat, whatever it is, as long as
/// somebody takes them.
pub proof fn law_received_responses_are_handed_on(
    client: &mut RawClient,
    response: Response,
    now: u64,
    received: Received,
)
    requires
        call_ensures(RawClient::receive, (client, Some(Ok(response)), now), received),
        old(client).response_loop,
        old(client).state.response_handler,
    ensures
        !(response.kind is Heartbeat) ==> received == Received::Handle(response) && *final(client)
            == *old(client),
        response.kind is Heartbeat ==> received == Received::Ignore && final(client).state.last_heatbeat == now,
{
}

/// A client that receives gives every response that is no heartbeat to the one who waits for it, and
/// otherwise to its handler; who got an answer waits no longer, and the others go on waiting.
pub proof fn law_received_responses_find_their_taker(
    client: &mut Client2,
    response: Response,
    now: u64,
    event: ClientEvent,
)
    requires
        call_ensures(Client2::receive, (client, Some(Ok(response)), now), event),
        old(client).well_formed(),
        old(client).raw_client.response_loop,
        !(response.kind is Heartbeat),
    ensures
        response.correlation_id matches Some(id) ==> if old(client).pending().contains_key(id) {
            event == ClientEvent::Deliver(Routing::ToWaiter(old(client).pending()[id], response))
        } else {
            event == ClientEvent::Deliver(
                if old(client).handler {
                    Routing::ToHandler(response)
                } else {
                    Routing::Dropped
                },
            )
        },
        response.correlation_id is None ==> event == ClientEvent::Deliver(
            if old(client).handler {
                Routing::ToHandler(response)
            } else {
                Routing::Dropped
            },
        ),
        final(client).pending() == (match response.correlation_id {
            Some(id) => old(client).pending().remove(id),
            None => old(client).pending(),
        }),
        final(client).handler == old(client).handler,
        final(client).correlation_id == old(client).correlation_id,
{
}

/// A client with a handler gives it all that nobody waits for, from the moment at which it is set.
pub proof fn law_a_handler_gets_what_comes(
    client: &mut Client2,
    nothing: (),
    later: &mut Client2,
    response: Response,
    now: u64,
    event: ClientEvent,
)
    requires
        call_ensures(Client2::set_handler, (client,), nothing),
        *old(later) == *final(client),
        call_ensures(Client2::receive, (later, Some(Ok(response)), now), event),
        old(client).raw_client.response_loop,
        !(response.kind is Heartbeat),
        response.correlation_id is None,
    ensures
        event == ClientEvent::Deliver(Routing::ToHandler(response)),
{
}

/// A fresh client is open, receives, has nobody waiting and no handler, and sends heartbeats twice as
/// often as the server expects them, if it expects any.
pub proof fn law_fresh_clients_are_open(data: ConnectionData, now: u64, client: Client2)
    requires
        call_ensures(Client2::connect, (data, now), client),
    ensures
        client.raw_client.connection_data == data,
        client.raw_client.response_loop,
        client.raw_client.state.response_handler,
        client.raw_client.state.last_heatbeat == now,
        client.raw_client.state.close_reason is None,
        !client.raw_client.state.request_sender.closed,
        client.pending() == Map::<u32, u64>::empty(),
        !client.handler,
        client.correlation_id == 0,
        client.publish_sequence == 0,
        data.heartbeat == 0 ==> client.raw_client.heartbeat_task is None,
        data.heartbeat == 1 ==> client.raw_client.heartbeat_task == Some(1u32),
        data.heartbeat >= 2 ==> (client.raw_client.heartbeat_task matches Some(seconds) && 2
            * seconds <= data.heartbeat < 2 * seconds + 2),
{
}

/// A connection is closed once: the second attempt fails and changes nothing, the first reason stays,
/// and no request is taken any more.
pub proof fn law_closing_twice_fails(
    client: &mut RawClient,
    first: CloseReason,
    result: RabbitMQStreamResult<()>,
    later: &mut RawClient,
    second: CloseReason,
    again: RabbitMQStreamResult<()>,
    request: Request,
    admission: RabbitMQStreamResult<Request>,
)
    requires
        old(client).well_formed(),
        old(client).state.close_reason is None,
        call_ensures(RawClient::close, (client, first), result),
        *old(later) == *final(client),
        call_ensures(RawClient::close, (later, second), again),
        call_ensures(RawClient::send_request, (&*final(later), request), admission),
    ensures
        result is Ok,
        again == Err::<(), ClientError>(ClientError::ConnectionClosed),
        *final(later) == *final(client),
        final(later).state.close_reason == Some(first),
        admission == Err::<Request, ClientError>(ClientError::ConnectionClosed),
{
}

/// An open connection takes every request as it is, and is due a heartbeat at every tick; a closed one
/// sends no more heartbeats.
pub proof fn law_open_connections_send(
    client: &RawClient,
    request: Request,
    admission: RabbitMQStreamResult<Request>,
    ticking: &mut RawClient,
    due: Option<Request>,
)
    requires
        call_ensures(RawClient::send_request, (client, request), admission),
        call_ensures(RawClient::heartbeat_tick, (ticking,), due),
    ensures
        !client.state.request_sender.closed ==> admission == Ok::<Request, ClientError>(request),
        !old(ticking).state.request_sender.closed ==> due == Some(Request::Heartbeat)
            && *final(ticking) == *old(ticking),
        old(ticking).state.request_sender.closed ==> due is None && final(ticking).heartbeat_task is None,
{
}

/// A heartbeat that was sent changes nothing, and the first that was not ends the heartbeats and
/// nothing else. Closing the transport ends them too, and the receiving loop, if it succeeds.
pub proof fn law_heartbeats_end_with_a_failure(
    client: &mut RawClient,
    sent: RabbitMQStreamResult<()>,
    nothing: (),
    closing: &mut RawClient,
    transport: RabbitMQStreamResult<()>,
    result: RabbitMQStreamResult<()>,
)
    requires
        call_ensures(RawClient::heartbeat_sent, (client, sent), nothing),
        call_ensures(RawClient::closed, (closing, transport), result),
    ensures
        sent is Ok ==> *final(client) == *old(client),
        sent is Err ==> *final(client) == (RawClient { heartbeat_task: None, ..*old(client) }),
        result == transport,
        transport is Err ==> *final(closing) == *old(closing),
        transport is Ok ==> *final(closing) == (
            RawClient { response_loop: false, heartbeat_task: None, ..*old(closing) }
        ),
{
}

/// The handler is told the reason for which the connection was closed, whatever it is; without a
/// handler nobody is. The first heartbeat is due after as many seconds as there are between two.
pub proof fn law_the_handler_is_told_the_reason(
    client: &Client2,
    reason: CloseReason,
    told: Option<CloseReason>,
    seconds: Option<u32>,
)
    requires
        call_ensures(Client2::on_closed, (client, reason), told),
        call_ensures(RawClient::first_heartbeat_after, (&client.raw_client,), seconds),
    ensures
        client.handler ==> told == Some(reason),
        !client.handler ==> told is None,
        seconds == client.raw_client.heartbeat_task,
{
}

/// A request holds the identifier of its turn and its arguments, whatever they are, unless the
/// connection is closed: an end of a subscription and of a publisher.
pub proof fn law_endings_are_sent_as_asked(
    client: &mut Client2,
    waiter: u64,
    subscription_id: u8,
    ended: Submission,
    other: &mut Client2,
    publisher_id: u8,
    deleted: Submission,
)
    requires
        call_ensures(Client2::unsubscribe, (client, waiter, subscription_id), ended),
        call_ensures(Client2::delete_publisher, (other, waiter, publisher_id), deleted),
    ensures
        !old(client).raw_client.state.request_sender.closed ==> ended.request == Ok::<
            Request,
            ClientError,
        >(
            Request::Unsubscribe { correlation_id: old(client).correlation_id, subscription_id },
        ),
        old(client).raw_client.state.request_sender.closed ==> ended.request is Err,
        final(client).pending() == old(client).pending().insert(
            old(client).correlation_id,
            waiter,
        ),
        !old(other).raw_client.state.request_sender.closed ==> deleted.request == Ok::<
            Request,
            ClientError,
        >(
            Request::DeletePublisher { correlation_id: old(other).correlation_id, publisher_id },
        ),
        old(other).raw_client.state.request_sender.closed ==> deleted.request is Err,
        final(other).pending() == old(other).pending().insert(old(other).correlation_id, waiter),
{
}

/// The queries for the streams of a super stream, for those to which a routing key leads and for the
/// brokers of streams hold the identifier of their turn and what is asked for, whatever it is.
pub proof fn law_queries_are_sent_as_asked(
    client: &mut Client2,
    waiter: u64,
    super_stream: String,
    partitions: Submission,
    second: &mut Client2,
    routing_key: String,
    route: Submission,
    third: &mut Client2,
    streams: Vec<String>,
    metadata: Submission,
)
    requires
        call_ensures(Client2::partitions, (client, waiter, super_stream), partitions),
        call_ensures(Client2::route, (second, waiter, routing_key, super_stream), route),
        call_ensures(Client2::metadata, (third, waiter, streams), metadata),
        !old(client).raw_client.state.request_sender.closed,
        !old(second).raw_client.state.request_sender.closed,
        !old(third).raw_client.state.request_sender.closed,
    ensures
        partitions.request == Ok::<Request, ClientError>(
            Request::SuperStreamPartitions {
                correlation_id: old(client).correlation_id,
                super_stream,
            },
        ),
        route.request == Ok::<Request, ClientError>(
            Request::SuperStreamRoute {
                correlation_id: old(second).correlation_id,
                routing_key,
                super_stream,
            },
        ),
        metadata.request == Ok::<Request, ClientError>(
            Request::Metadata { correlation_id: old(third).correlation_id, streams },
        ),
        final(client).pending()[old(client).correlation_id] == waiter,
        final(second).pending()[old(second).correlation_id] == waiter,
        final(third).pending()[old(third).correlation_id] == waiter,
{
}

/// The answer to a consumer update carries the identifier of the update and tells success and the
/// offset that was asked for, whatever it is; credit is granted to the subscription as it is asked
/// for.
pub proof fn law_updates_and_credit_are_sent_as_asked(
    client: &mut Client2,
    waiter: u64,
    correlation_id: u32,
    offset_specification: OffsetSpecification,
    update: Submission,
    granting: &Client2,
    subscription_id: u8,
    credit: u16,
    granted: RabbitMQStreamResult<Request>,
)
    requires
        call_ensures(
            Client2::consumer_update,
            (client, waiter, correlation_id, offset_specification),
            update,
        ),
        call_ensures(Client2::credit, (granting, subscription_id, credit), granted),
    ensures
        !old(client).raw_client.state.request_sender.closed ==> update.request == Ok::<
            Request,
            ClientError,
        >(
            Request::ConsumerUpdateRequest {
                correlation_id,
                response_code: ResponseCode::Success.spec_number(),
                offset_specification,
            },
        ),
        !granting.raw_client.state.request_sender.closed ==> granted == Ok::<Request, ClientError>(
            Request::Credit { subscription_id, credit },
        ),
        granting.raw_client.state.request_sender.closed ==> granted == Err::<Request, ClientError>(
            ClientError::ConnectionClosed,
        ),
{
}

/// A subscription, a creation and a deletion of a stream hold the identifier of their turn and their
/// arguments, whatever they are.
pub proof fn law_stream_requests_are_sent_as_asked(
    client: &mut Client2,
    waiter: u64,
    subscription_id: u8,
    stream: &str,
    start: OffsetSpecification,
    credit: u16,
    properties: Properties,
    subscription: Submission,
    second: &mut Client2,
    creation: Submission,
    third: &mut Client2,
    deletion: Submission,
)
    requires
        call_ensures(
            Client2::subscribe,
            (client, waiter, subscription_id, stream, start, credit, properties),
            subscription,
        ),
        call_ensures(Client2::create_stream, (second, waiter, stream, properties), creation),
        call_ensures(Client2::delete_stream, (third, waiter, stream), deletion),
        !old(client).raw_client.state.request_sender.closed,
        !old(second).raw_client.state.request_sender.closed,
        !old(third).raw_client.state.request_sender.closed,
    ensures
        subscription.request matches Ok(Request::Subscribe {
            correlation_id,
            subscription_id: subscriber,
            stream: name,
            offset_specification,
            credit: granted,
            properties: table,
        }) && correlation_id == old(client).correlation_id && subscriber == subscription_id && name@
            == stream@ && offset_specification == start && granted == credit && table == properties,
        creation.request matches Ok(Request::CreateStream {
            correlation_id,
            stream: name,
            arguments,
        }) && correlation_id == old(second).correlation_id && name@ == stream@ && arguments
            == properties,
        deletion.request matches Ok(Request::Delete { correlation_id, stream: name })
            && correlation_id == old(third).correlation_id && name@ == stream@,
        final(client).pending()[old(client).correlation_id] == waiter,
        final(second).pending()[old(second).correlation_id] == waiter,
        final(third).pending()[old(third).correlation_id] == waiter,
{
}

/// Publishing gives each message to the server as it is, with its own filter value and the identifier
/// that it asks for, if it asks for one; the sequence goes on even where the connection is closed.
pub proof fn law_messages_are_published_as_given<M>(
    client: &mut Client2,
    publisher_id: u8,
    messages: Vec<ClientMessage<M>>,
    version: u16,
    result: RabbitMQStreamResult<Publication<M>>,
    i: int,
)
    requires
        call_ensures(Client2::publish::<M>, (client, publisher_id, messages, version), result),
        0 <= i < messages@.len(),
    ensures
        result is Err <==> old(client).raw_client.state.request_sender.closed,
        result matches Ok(publication) ==> publication.publisher_id == publisher_id
            && publication.version == version && publication.published@.len() == messages@.len()
            && publication.published@[i].message == messages@[i].message
            && publication.published@[i].filter_value == messages@[i].filter_value && (
        messages@[i].publishing_id matches Some(id) ==> publication.published@[i].publishing_id
            == id),
        final(client).pending() == old(client).pending(),
        final(client).raw_client == old(client).raw_client,
        final(client).correlation_id == old(client).correlation_id,
{
}

/// A super stream is created and deleted as asked: the request holds the identifier of its turn and
/// its arguments, whatever they are.
pub proof fn law_super_stream_requests_are_sent_as_asked(
    client: &mut Client2,
    waiter: u64,
    super_stream: &str,
    partitions: Vec<String>,
    binding_keys: Vec<String>,
    options: Properties,
    creation: Submission,
    second: &mut Client2,
    deletion: Submission,
)
    requires
        call_ensures(
            Client2::create_super_stream,
            (client, waiter, super_stream, partitions, binding_keys, options),
            creation,
        ),
        call_ensures(Client2::delete_super_stream, (second, waiter, super_stream), deletion),
        !old(client).raw_client.state.request_sender.closed,
        !old(second).raw_client.state.request_sender.closed,
    ensures
        creation.request matches Ok(Request::CreateSuperStream {
            correlation_id,
            super_stream: name,
            partitions: names,
            binding_keys: keys,
            arguments,
        }) && correlation_id == old(client).correlation_id && name@ == super_stream@ && names
            == partitions && keys == binding_keys && arguments == options,
        deletion.request matches Ok(Request::DeleteSuperStream { correlation_id, super_stream: name })
            && correlation_id == old(second).correlation_id && name@ == super_stream@,
        final(client).pending()[old(client).correlation_id] == waiter,
        final(second).pending()[old(second).correlation_id] == waiter,
{
}

/// A publisher is declared as asked, and its last sequence number is asked for under its reference:
/// the requests hold the identifier of their turn and their arguments, whatever they are.
pub proof fn law_publisher_requests_are_sent_as_asked(
    client: &mut Client2,
    waiter: u64,
    publisher_id: u8,
    publisher_reference: Option<String>,
    stream: &str,
    declaration: Submission,
    second: &mut Client2,
    reference: &str,
    query: Submission,
    third: &mut Client2,
    versions: Submission,
)
    requires
        call_ensures(
            Client2::declare_publisher,
            (client, waiter, publisher_id, publisher_reference, stream),
            declaration,
        ),
        call_ensures(
            Client2::query_publisher_sequence,
            (second, waiter, reference, stream),
            query,
        ),
        call_ensures(Client2::exchange_command_versions, (third, waiter), versions),
        !old(client).raw_client.state.request_sender.closed,
        !old(second).raw_client.state.request_sender.closed,
        !old(third).raw_client.state.request_sender.closed,
    ensures
        declaration.request matches Ok(Request::DeclarePublisher {
            correlation_id,
            publisher_id: publisher,
            publisher_reference: holder,
            stream: name,
        }) && correlation_id == old(client).correlation_id && publisher == publisher_id && holder
            == publisher_reference && name@ == stream@,
        query.request matches Ok(Request::QueryPublisherSequence {
            correlation_id,
            reference: holder,
            stream: name,
        }) && correlation_id == old(second).correlation_id && holder@ == reference@ && name@
            == stream@,
        versions.request == Ok::<Request, ClientError>(
            Request::ExchangeCommandVersions { correlation_id: old(third).correlation_id },
        ),
        final(client).pending()[old(client).correlation_id] == waiter,
        final(second).pending()[old(second).correlation_id] == waiter,
        final(third).pending()[old(third).correlation_id] == waiter,
{
}

/// An offset is stored and asked for under its reference: the requests hold their arguments, whatever
/// they are, and the query the identifier of its turn.
pub proof fn law_offset_requests_are_sent_as_asked(
    client: &Client2,
    reference: String,
    stream: &str,
    offset: u64,
    holder: &str,
    stored: RabbitMQStreamResult<Request>,
    asking: &mut Client2,
    waiter: u64,
    query: Submission,
)
    requires
        call_ensures(Client2::store_offset, (client, holder, stream, offset), stored),
        call_ensures(Client2::query_offset, (asking, waiter, reference, stream), query),
        !client.raw_client.state.request_sender.closed,
        !old(asking).raw_client.state.request_sender.closed,
    ensures
        stored matches Ok(Request::StoreOffset { reference: under, stream: name, offset: position })
            && under@ == holder@ && name@ == stream@ && position == offset,
        query.request matches Ok(Request::QueryOffset {
            correlation_id,
            reference: under,
            stream: name,
        }) && correlation_id == old(asking).correlation_id && under@ == reference@ && name@
            == stream@,
        final(asking).pending()[old(asking).correlation_id] == waiter,
{
}

/// A client that was closed on behalf of the user says so, refuses whatever is asked and cannot be
/// closed again.
pub proof fn law_closed_clients_stay_closed(
    client: &mut Client2,
    result: RabbitMQStreamResult<()>,
    closed: bool,
    later: &mut Client2,
    again: RabbitMQStreamResult<()>,
    asking: &mut Client2,
    waiter: u64,
    subscription_id: u8,
    submission: Submission,
)
    requires
        old(client).well_formed(),
        old(client).raw_client.state.close_reason is None,
        call_ensures(Client2::close, (client,), result),
        call_ensures(Client2::is_closed, (&*final(client),), closed),
        *old(later) == *final(client),
        call_ensures(Client2::close, (later,), again),
        *old(asking) == *final(later),
        call_ensures(Client2::unsubscribe, (asking, waiter, subscription_id), submission),
    ensures
        result is Ok,
        closed,
        final(client).raw_client.state.close_reason == Some(CloseReason::User),
        again == Err::<(), ClientError>(ClientError::ConnectionClosed),
        *final(later) == *final(client),
        submission.request == Err::<Request, ClientError>(ClientError::ConnectionClosed),
{
}

/// What is told of an open connection is what was agreed on when it was opened.
pub proof fn law_clients_tell_what_was_agreed(
    client: &Client2,
    server: Properties,
    connection: Properties,
    filtering: bool,
)
    requires
        call_ensures(Client2::server_properties, (client,), server),
        call_ensures(Client2::connection_properties, (client,), connection),
        call_ensures(Client2::filtering_supported, (client,), filtering),
    ensures
        server@ == client.raw_client.connection_data.server_properties@,
        connection@ == client.raw_client.connection_data.connection_properties@,
        filtering == client.raw_client.connection_data.filtering_supported,
{
}

/// Answers are taken as the server gave them: an outcome, an offset and a sequence number, whatever
/// they are. Without an answer the request fails because the connection was closed.
pub proof fn law_answers_are_taken_as_given(
    response: Response,
    outcome: RabbitMQStreamResult<GenericResponse>,
    offset: RabbitMQStreamResult<u64>,
    sequence: RabbitMQStreamResult<u64>,
    lost: RabbitMQStreamResult<GenericResponse>,
)
    requires
        call_ensures(
            Client2::receive_answer::<GenericResponse>,
            (Some(response),),
            outcome,
        ),
        call_ensures(Client2::receive_offset, (Some(response),), offset),
        call_ensures(Client2::receive_publisher_sequence, (Some(response),), sequence),
        call_ensures(Client2::receive_answer::<GenericResponse>, (None,), lost),
    ensures
        response.kind matches ResponseKind::Generic(body) ==> outcome == Ok::<
            GenericResponse,
            ClientError,
        >(body),
        !(response.kind is Generic) ==> (outcome matches Err(error) && error is CastError),
        response.kind matches ResponseKind::QueryOffset(body) ==> offset == (
        if body.code is Success {
            Ok::<u64, ClientError>(body.offset)
        } else {
            Err::<u64, ClientError>(ClientError::RequestError(body.code))
        }),
        response.kind matches ResponseKind::QueryPublisherSequence(body) ==> sequence == Ok::<
            u64,
            ClientError,
        >(body.sequence),
        lost == Err::<GenericResponse, ClientError>(ClientError::ConnectionClosed),
{
}

} // verus!
