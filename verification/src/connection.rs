//! A connection that ends with a farewell to the server.

use crate::error::{ClientError, RabbitMQStreamResult};
use crate::handshake::{introduces, Handshake, HandshakeStep, HandshakeStyle};
use crate::options::{client_properties, ClientOptions, ConnectionData};
use crate::properties::Properties;
use crate::receive::{answered, take_answer};
use crate::request::{is_close, Request};
use crate::response::{CloseResponse, FromResponse, Response, ResponseCode};
use crate::routing::{entry_of, next_id, routed_strictly, still_pending, Routing};
use std::collections::HashMap;
use vstd::prelude::*;

verus! {

broadcast use vstd::std_specs::hash::group_hash_axioms;

/// A request for whose answer somebody waits.
#[derive(Debug)]
pub struct Awaited {
    pub request: Request,
    /// One who waited for an answer with the same identifier, and will not get it.
    pub replaced: Option<u64>,
}

/// What is to be done with what arrived.
#[derive(Debug)]
pub enum ConnectionEvent {
    /// Hand the response on.
    Deliver(Routing),
    /// Nothing.
    Ignore,
    /// Stop receiving, and close the connection.
    Close,
}

/// An open connection.
#[derive(Debug)]
pub struct Connection {
    pub client_properties: Properties,
    pub server_properties: Properties,
    pub connection_properties: Properties,
    pub filtering_supported: bool,
    /// The seconds between two heartbeats.
    pub heartbeat: u32,
    /// The identifier of the next request.
    pub correlation_id: u32,
    /// Those who wait for an answer.
    pub correlation_map: HashMap<u32, u64>,
    pub is_connected: bool,
    /// Whether heartbeats are sent until they are told to stop.
    pub stop_heartbeat_sender: bool,
    /// Whether somebody is to be told when the connection is closed.
    pub close_callback: bool,
    /// Whether there is a handler for the responses that answer no request.
    pub handle_response_message: bool,
    /// Whether responses are received; no longer after the end of the stream or a failure.
    pub receiving: bool,
}

/// Whether `waiter` is registered for the next answer and nothing else has changed.
pub open spec fn registered(
    before: Connection,
    after: Connection,
    waiter: u64,
    replaced: Option<u64>,
) -> bool {
    &&& after == (Connection {
        correlation_id: next_id(before.correlation_id),
        correlation_map: after.correlation_map,
        ..before
    })
    &&& after.pending() == before.pending().insert(before.correlation_id, waiter)
    &&& replaced == entry_of(before.pending(), before.correlation_id)
}

/// What the stream of responses yields: a response, a failure or its end.
pub type Arrival = Option<Result<Response, ClientError>>;

/// Whether a response has arrived.
pub open spec fn is_response(arrived: Arrival) -> bool {
    arrived is Some && arrived->0 is Ok
}

/// What is to be done with what arrived, by those who wait for an answer and whether there is a
/// handler.
pub open spec fn received(
    receiving: bool,
    pending: Map<u32, u64>,
    has_handler: bool,
    arrived: Arrival,
) -> ConnectionEvent {
    if !receiving {
        ConnectionEvent::Ignore
    } else {
        match arrived {
            Some(Ok(response)) => ConnectionEvent::Deliver(
                routed_strictly(pending, has_handler, response),
            ),
            _ => ConnectionEvent::Close,
        }
    }
}

/// Those who still wait after something arrived.
pub open spec fn pending_after(
    receiving: bool,
    pending: Map<u32, u64>,
    arrived: Arrival,
) -> Map<u32, u64> {
    match arrived {
        Some(Ok(response)) => if receiving {
            still_pending(pending, response)
        } else {
            pending
        },
        _ => pending,
    }
}

/// What is done with all that arrives, one after the other.
pub open spec fn all_received(
    receiving: bool,
    pending: Map<u32, u64>,
    has_handler: bool,
    arrivals: Seq<Arrival>,
) -> Seq<ConnectionEvent>
    decreases arrivals.len(),
{
    if arrivals.len() == 0 {
        Seq::empty()
    } else {
        seq![received(receiving, pending, has_handler, arrivals[0])] + all_received(
            receiving && is_response(arrivals[0]),
            pending_after(receiving, pending, arrivals[0]),
            has_handler,
            arrivals.skip(1),
        )
    }
}

/// Those who still wait after all that arrived.
pub open spec fn pending_after_all(
    receiving: bool,
    pending: Map<u32, u64>,
    arrivals: Seq<Arrival>,
) -> Map<u32, u64>
    decreases arrivals.len(),
{
    if arrivals.len() == 0 {
        pending
    } else {
        pending_after_all(
            receiving && is_response(arrivals[0]),
            pending_after(receiving, pending, arrivals[0]),
            arrivals.skip(1),
        )
    }
}

impl Connection {
    /// Those who wait for an answer, by the identifier of the request.
    pub open spec fn pending(self) -> Map<u32, u64> {
        self.correlation_map@
    }

    /// As long as the connection is not closed, its heartbeats can be stopped.
    pub open spec fn well_formed(self) -> bool {
        self.is_connected ==> self.stop_heartbeat_sender
    }

    /// Starts to open a connection; returns the handshake with the first request.
    pub fn connect(client_options: ClientOptions) -> (started: (Handshake, Request))
        ensures
            started.0.style == HandshakeStyle::Negotiating,
            started.0.options == client_options,
            started.0.step == HandshakeStep::PeerProperties,
            started.0.client_properties@ == client_properties(client_options.client_provided_name@),
            introduces(started.1, client_options),
    {
        Handshake::start(client_options, HandshakeStyle::Negotiating)
    }

    /// Returns the connection that a handshake has opened. The identifiers go on with the last
    /// one that the handshake used.
    pub fn connected(connection_data: ConnectionData) -> (connection: Connection)
        ensures
            connection.well_formed(),
            connection.client_properties == connection_data.client_properties,
            connection.server_properties == connection_data.server_properties,
            connection.connection_properties == connection_data.connection_properties,
            connection.filtering_supported == connection_data.filtering_supported,
            connection.heartbeat == connection_data.heartbeat,
            connection.correlation_id == 5,
            connection.pending() == Map::<u32, u64>::empty(),
            connection.is_connected,
            connection.stop_heartbeat_sender,
            !connection.close_callback,
            !connection.handle_response_message,
            connection.receiving,
    {
        Connection {
            client_properties: connection_data.client_properties,
            server_properties: connection_data.server_properties,
            connection_properties: connection_data.connection_properties,
            filtering_supported: connection_data.filtering_supported,
            heartbeat: connection_data.heartbeat,
            correlation_id: 5,
            correlation_map: HashMap::new(),
            is_connected: true,
            stop_heartbeat_sender: true,
            close_callback: false,
            handle_response_message: false,
            receiving: true,
        }
    }

    /// Returns the properties of the connection.
    pub fn connection_properties(&self) -> (properties: &Properties)
        ensures
            *properties == self.connection_properties,
    {
        &self.connection_properties
    }

    /// Returns the properties of the server.
    pub fn server_properties(&self) -> (properties: &Properties)
        ensures
            *properties == self.server_properties,
    {
        &self.server_properties
    }

    /// Returns whether the server can filter messages.
    pub fn filtering_supported(&self) -> (supported: bool)
        ensures
            supported == self.filtering_supported,
    {
        self.filtering_supported
    }

    /// Sets the handler for the responses that answer no request.
    pub fn set_handle_response_message(&mut self)
        ensures
            *final(self) == (Connection { handle_response_message: true, ..*old(self) }),
    {
        self.handle_response_message = true;
    }

    /// Sets whom to tell when the connection is closed.
    pub fn set_close_callback(&mut self)
        ensures
            *final(self) == (Connection { close_callback: true, ..*old(self) }),
    {
        self.close_callback = true;
    }

    /// Returns whether the connection has not been closed.
    pub fn is_connected(&self) -> (connected: bool)
        ensures
            connected == self.is_connected,
    {
        self.is_connected
    }

    /// Returns the identifier of the next request, and goes on to the one after it.
    fn generate_collelation_id(&mut self) -> (id: u32)
        ensures
            id == old(self).correlation_id,
            *final(self) == (Connection { correlation_id: next_id(id), ..*old(self) }),
    {
        let id: u32 = self.correlation_id;
        self.correlation_id = id.wrapping_add(1);
        id
    }

    /// Registers the one who waits for the answer to the next request, which is to carry the
    /// identifier that the connection had before; returns the one who is replaced.
    pub fn register(&mut self, waiter: u64) -> (replaced: Option<u64>)
        ensures
            registered(*old(self), *final(self), waiter, replaced),
    {
        let id: u32 = self.generate_collelation_id();
        self.correlation_map.insert(id, waiter)
    }

    /// Takes a body of the wanted type from the answer to a request; there is no answer if the
    /// one who waits for it has been forgotten.
    pub fn receive_answer<R: FromResponse>(answer: Option<Response>) -> (
        result: RabbitMQStreamResult<R>
    )
        ensures
            answered::<R>(answer, result, ClientError::GenericError, "."@),
    {
        take_answer::<R>(answer, ClientError::GenericError, ".")
    }

    /// What is to be done with what arrived; nothing, once the end or a failure has come.
    pub open spec fn reception(self, arrived: Arrival) -> ConnectionEvent {
        received(self.receiving, self.pending(), self.handle_response_message, arrived)
    }

    /// Takes what arrived. The end of the stream and a failure ask for the connection to be closed,
    /// after which nothing is taken.
    pub fn receive(&mut self, arrived: Option<Result<Response, ClientError>>) -> (event:
        ConnectionEvent)
        ensures
            event == old(self).reception(arrived),
            final(self).pending() == pending_after(old(self).receiving, old(self).pending(), arrived),
            *final(self) == (Connection {
                correlation_map: final(self).correlation_map,
                receiving: old(self).receiving && is_response(arrived),
                ..*old(self)
            }),
            old(self).well_formed() ==> final(self).well_formed(),
    {
        if !self.receiving {
            return ConnectionEvent::Ignore;
        }
        match arrived {
            Some(Ok(response)) => ConnectionEvent::Deliver(self.handle_response(response)),
            _ => {
                self.receiving = false;
                ConnectionEvent::Close
            },
        }
    }

    /// Gives a response that answers a request to the one who waits for it, if anybody does, and
    /// any other response to the handler.
    pub fn handle_response(&mut self, response: Response) -> (routing: Routing)
        ensures
            routing == routed_strictly(
                old(self).pending(),
                old(self).handle_response_message,
                response,
            ),
            final(self).pending() == still_pending(old(self).pending(), response),
            *final(self) == (Connection {
                correlation_map: final(self).correlation_map,
                ..*old(self)
            }),
    {
        if let Some(correlation_id) = response.correlation_id {
            return match self.correlation_map.remove(&correlation_id) {
                Some(waiter) => Routing::ToWaiter(waiter, response),
                None => Routing::Dropped,
            };
        }
        if self.handle_response_message {
            Routing::ToHandler(response)
        } else {
            Routing::Dropped
        }
    }

    /// Returns the heartbeat that is due; none once the heartbeats were stopped.
    pub fn heartbeat_tick(&self) -> (due: Option<Request>)
        ensures
            due == (if self.stop_heartbeat_sender {
                Some(Request::Heartbeat)
            } else {
                None
            }),
    {
        if self.stop_heartbeat_sender {
            Some(Request::Heartbeat)
        } else {
            None
        }
    }

    /// Returns after how many seconds the first heartbeat is due: as many as there are between two
    /// of them.
    pub fn first_heartbeat_after(&self) -> (seconds: u32)
        ensures
            seconds == self.heartbeat,
    {
        self.heartbeat
    }

    /// The connection after closing it was begun.
    pub open spec fn after_close(self) -> Connection {
        Connection {
            is_connected: false,
            close_callback: !self.is_connected && self.close_callback,
            ..self
        }
    }

    /// What closing does first: nothing if the connection is closed already, or else telling
    /// those who are to be told.
    pub open spec fn close_start(self) -> Option<bool> {
        if self.is_connected {
            Some(self.close_callback)
        } else {
            None
        }
    }

    /// Begins to close the connection. Returns nothing if it is closed already, which is no
    /// error; or else whether somebody is to be told before the farewell is sent.
    pub fn close(&mut self) -> (begun: Option<bool>)
        ensures
            begun == old(self).close_start(),
            *final(self) == old(self).after_close(),
            old(self).well_formed() ==> final(self).well_formed(),
    {
        if !self.is_connected {
            return None;
        }
        self.is_connected = false;
        let told = self.close_callback;
        self.close_callback = false;
        Some(told)
    }

    /// Returns the farewell; `waiter` waits for the answer.
    pub fn close_request(&mut self, waiter: u64) -> (farewell: Awaited)
        ensures
            registered(*old(self), *final(self), waiter, farewell.replaced),
            is_close(farewell.request, old(self).correlation_id),
    {
        let request = Request::Close {
            correlation_id: self.correlation_id,
            closing_code: ResponseCode::Success,
            closing_reason: "Ok".to_owned(),
        };
        let replaced = self.register(waiter);
        Awaited { request, replaced }
    }

    /// Takes the answer to the farewell. On success the heartbeats stop and the transport is to
    /// be closed; without a proper answer both stay as they are.
    pub fn close_answered(&mut self, answer: Option<Response>) -> (result: RabbitMQStreamResult<()>)
        requires
            old(self).stop_heartbeat_sender,
        ensures
            match result {
                Ok(_) => answer is Some && CloseResponse::body_of(answer->0) is Some && *final(self) == (
                Connection { stop_heartbeat_sender: false, ..*old(self) }),
                Err(error) => answered::<CloseResponse>(
                    answer,
                    Err(error),
                    ClientError::GenericError,
                    "."@
                ) && *final(self) == *old(self),
            },
    {
        match Connection::receive_answer::<CloseResponse>(answer) {
            Err(error) => Err(error),
            Ok(_) => {
                self.stop_heartbeat_sender = false;
                Ok(())
            },
        }
    }
}

/// Closing a connection a second time does nothing: nobody is told again.
pub proof fn law_closed_once(connection: Connection)
    ensures
        connection.after_close().close_start() is None,
        connection.after_close().after_close() == connection.after_close(),
        connection.close_start() == Some(true) ==> !connection.after_close().close_callback,
{
}

/// The first response with the identifier of a request reaches the one who waits for its answer,
/// and no response with an identifier ever reaches the handler.
pub proof fn law_answer_reaches_the_registered(
    before: Connection,
    after: Connection,
    waiter: u64,
    replaced: Option<u64>,
    answer: Response,
    other: Response,
)
    requires
        registered(before, after, waiter, replaced),
        answer.correlation_id == Some(before.correlation_id),
        other.correlation_id is Some,
    ensures
        routed_strictly(
            after.pending(),
            after.handle_response_message,
            answer,
        ) == Routing::ToWaiter(
            waiter,
            answer,
        ),
        !(routed_strictly(after.pending(), after.handle_response_message, other) is ToHandler),
{
}

proof fn lemma_nothing_after_the_end(
    pending: Map<u32, u64>,
    has_handler: bool,
    arrivals: Seq<Arrival>,
)
    ensures
        all_received(false, pending, has_handler, arrivals).len() == arrivals.len(),
        forall|i: int|
            0 <= i < arrivals.len() ==> #[trigger] all_received(
                false,
                pending,
                has_handler,
                arrivals,
            )[i] == ConnectionEvent::Ignore,
    decreases arrivals.len(),
{
    if arrivals.len() > 0 {
        lemma_nothing_after_the_end(
            pending_after(false, pending, arrivals[0]),
            has_handler,
            arrivals.skip(1),
        );
    }
}

/// The responses that come before the end of the stream or the first failure are handed on, each
/// once and in their order. Then the connection is to be closed, once, and nothing that comes later
/// is handed on.
pub proof fn law_received_until_the_end(
    pending: Map<u32, u64>,
    has_handler: bool,
    arrivals: Seq<Arrival>,
    end: int,
)
    requires
        0 <= end < arrivals.len(),
        forall|i: int| 0 <= i < end ==> is_response(#[trigger] arrivals[i]),
        !is_response(arrivals[end]),
    ensures
        ({
            let events = all_received(true, pending, has_handler, arrivals);
            &&& events.len() == arrivals.len()
            &&& forall|i: int|
                0 <= i < end ==> #[trigger] events[i] == ConnectionEvent::Deliver(
                    routed_strictly(
                        pending_after_all(true, pending, arrivals.take(i)),
                        has_handler,
                        arrivals[i]->0->Ok_0,
                    ),
                )
            &&& events[end] == ConnectionEvent::Close
            &&& forall|i: int|
                end < i < arrivals.len() ==> #[trigger] events[i] == ConnectionEvent::Ignore
        }),
    decreases arrivals.len(),
{
    let rest = arrivals.skip(1);
    let left = pending_after(true, pending, arrivals[0]);
    let events = all_received(true, pending, has_handler, arrivals);
    if end == 0 {
        lemma_nothing_after_the_end(left, has_handler, rest);
        assert forall|i: int| 0 < i < arrivals.len() implies #[trigger] events[i]
            == ConnectionEvent::Ignore by {
            assert(events[i] == all_received(false, left, has_handler, rest)[i - 1]);
        }
    } else {
        let others = all_received(true, left, has_handler, rest);
        assert(is_response(arrivals[0]));
        assert forall|i: int| 0 <= i < end - 1 implies is_response(#[trigger] rest[i]) by {
            assert(rest[i] == arrivals[i + 1]);
        }
        law_received_until_the_end(left, has_handler, rest, end - 1);
        assert forall|i: int| 0 <= i < end implies #[trigger] events[i] == ConnectionEvent::Deliver(
            routed_strictly(
                pending_after_all(true, pending, arrivals.take(i)),
                has_handler,
                arrivals[i]->0->Ok_0,
            ),
        ) by {
            if i > 0 {
                assert(events[i] == others[i - 1]);
                assert(rest[i - 1] == arrivals[i]);
                assert(arrivals.take(i).skip(1) =~= rest.take(i - 1));
                assert(arrivals.take(i)[0] == arrivals[0]);
            }
        }
        assert(events[end] == others[end - 1]);
        assert forall|i: int| end < i < arrivals.len() implies #[trigger] events[i]
            == ConnectionEvent::Ignore by {
            assert(events[i] == others[i - 1]);
        }
    }
}

/// Once the end of the stream or a failure has come, nothing is received any more, and neither a
/// request nor closing the connection changes that.
pub proof fn law_receiving_ends_for_good(
    ended: Connection,
    requested: Connection,
    waiter: u64,
    replaced: Option<u64>,
    later: Arrival,
)
    requires
        !ended.receiving,
        registered(ended, requested, waiter, replaced),
    ensures
        ended.reception(later) == ConnectionEvent::Ignore,
        requested.reception(later) == ConnectionEvent::Ignore,
        ended.after_close().reception(later) == ConnectionEvent::Ignore,
{
}

/// While a connection receives, every response, whatever it holds, is handed on unchanged: to the one
/// who waits for it, who then waits no longer, and if it has no identifier to the handler. The others
/// go on waiting.
pub proof fn law_connection_hands_responses_on(
    pending: Map<u32, u64>,
    has_handler: bool,
    response: Response,
    other: u32,
)
    ensures
        ({
            let arrived: Arrival = Some(Ok(response));
            let event = received(true, pending, has_handler, arrived);
            let left = pending_after(true, pending, arrived);
            &&& is_response(arrived)
            &&& response.correlation_id matches Some(id) ==> if pending.contains_key(id) {
                event == ConnectionEvent::Deliver(Routing::ToWaiter(pending[id], response))
                    && !left.contains_key(id)
            } else {
                event == ConnectionEvent::Deliver(Routing::Dropped) && left == pending
            }
            &&& response.correlation_id is None ==> event == ConnectionEvent::Deliver(
                if has_handler {
                    Routing::ToHandler(response)
                } else {
                    Routing::Dropped
                },
            ) && left == pending
            &&& response.correlation_id != Some(other) ==> left.contains_key(other)
                == pending.contains_key(other)
            &&& response.correlation_id != Some(other) && pending.contains_key(other) ==> left[other]
                == pending[other]
        }),
{
    if let Some(id) = response.correlation_id {
        if !pending.contains_key(id) {
            assert(pending.remove(id) =~= pending);
        }
    }
}

/// The end of the stream and every failure ask for the connection to be closed, and nobody stops
/// waiting for that.
pub proof fn law_the_end_asks_to_close(
    pending: Map<u32, u64>,
    has_handler: bool,
    failure: ClientError,
)
    ensures
        received(true, pending, has_handler, None) == ConnectionEvent::Close,
        received(true, pending, has_handler, Some(Err(failure))) == ConnectionEvent::Close,
        pending_after(true, pending, None) == pending,
        pending_after(true, pending, Some(Err(failure))) == pending,
        !is_response(None),
        !is_response(Some(Err(failure))),
{
}

/// Closing tells those who are to be told exactly if the connection was open, and changes nothing
/// else: the heartbeats and those who wait for answers stay.
pub proof fn law_closing_tells_once(connection: Connection)
    ensures
        connection.is_connected ==> connection.close_start() == Some(connection.close_callback),
        !connection.is_connected ==> connection.close_start() is None,
        connection.is_connected ==> connection.after_close() == (
            Connection { is_connected: false, close_callback: false, ..connection }
        ),
        !connection.is_connected ==> connection.after_close() == connection,
{
}

/// A request gets the identifier of its turn, the next one gets another, and those who wait for other
/// answers go on waiting.
pub proof fn law_registering_keeps_the_others(
    before: Connection,
    after: Connection,
    waiter: u64,
    replaced: Option<u64>,
    other: u32,
)
    requires
        registered(before, after, waiter, replaced),
    ensures
        after.pending().contains_key(before.correlation_id),
        after.pending()[before.correlation_id] == waiter,
        other != before.correlation_id ==> after.pending().contains_key(other)
            == before.pending().contains_key(other),
        other != before.correlation_id && before.pending().contains_key(other)
            ==> after.pending()[other] == before.pending()[other],
        replaced == (if before.pending().contains_key(before.correlation_id) {
            Some(before.pending()[before.correlation_id])
        } else {
            None
        }),
        after.correlation_id == (if before.correlation_id == u32::MAX {
            0
        } else {
            before.correlation_id + 1
        }),
        after == (Connection {
            correlation_id: after.correlation_id,
            correlation_map: after.correlation_map,
            ..before
        }),
{
}

/// A connection that receives hands every response on, whether it is being closed or not and whatever
/// else is known of it.
pub proof fn law_receiving_goes_by_who_waits(
    connection: Connection,
    response: Response,
    failure: ClientError,
)
    requires
        connection.receiving,
    ensures
        response.correlation_id matches Some(id) ==> if connection.correlation_map@.contains_key(id) {
            connection.reception(Some(Ok(response))) == ConnectionEvent::Deliver(
                Routing::ToWaiter(connection.correlation_map@[id], response),
            )
        } else {
            connection.reception(Some(Ok(response))) == ConnectionEvent::Deliver(Routing::Dropped)
        },
        response.correlation_id is None && connection.handle_response_message
            ==> connection.reception(Some(Ok(response))) == ConnectionEvent::Deliver(
            Routing::ToHandler(response),
        ),
        connection.reception(None) == ConnectionEvent::Close,
        connection.reception(Some(Err(failure))) == ConnectionEvent::Close,
{
}

/// A connection that receives hands every response on, whatever it is, to the one who waits for it or,
/// if it has no identifier, to the handler; who got an answer waits no longer.
pub proof fn law_received_answers_find_who_waits(
    connection: &mut Connection,
    response: Response,
    event: ConnectionEvent,
)
    requires
        call_ensures(Connection::receive, (connection, Some(Ok(response))), event),
        old(connection).receiving,
    ensures
        response.correlation_id matches Some(id) ==> event == ConnectionEvent::Deliver(
            if old(connection).correlation_map@.contains_key(id) {
                Routing::ToWaiter(old(connection).correlation_map@[id], response)
            } else {
                Routing::Dropped
            },
        ),
        response.correlation_id is None ==> event == ConnectionEvent::Deliver(
            if old(connection).handle_response_message {
                Routing::ToHandler(response)
            } else {
                Routing::Dropped
            },
        ),
        final(connection).correlation_map@ == (match response.correlation_id {
            Some(id) => old(connection).correlation_map@.remove(id),
            None => old(connection).correlation_map@,
        }),
        final(connection).receiving,
        final(connection).is_connected == old(connection).is_connected,
{
}

/// Closing a connection tells those who are to be told the first time, and nobody the second time;
/// both times it is closed afterwards.
pub proof fn law_closing_twice_tells_once(
    connection: &mut Connection,
    first: Option<bool>,
    later: &mut Connection,
    second: Option<bool>,
    after: &Connection,
    connected: bool,
)
    requires
        call_ensures(Connection::close, (connection,), first),
        *old(later) == *final(connection),
        call_ensures(Connection::close, (later,), second),
        *after == *final(later),
        call_ensures(Connection::is_connected, (after,), connected),
    ensures
        old(connection).is_connected ==> first == Some(old(connection).close_callback),
        !old(connection).is_connected ==> first is None,
        second is None,
        !connected,
        final(later).correlation_map@ == old(connection).correlation_map@,
        final(later).stop_heartbeat_sender == old(connection).stop_heartbeat_sender,
{
}

/// The farewell carries the identifier of its turn and tells that all is well. Heartbeats are sent until
/// the server has answered it, and stay where the answer is another or does not come.
pub proof fn law_farewells_end_the_heartbeats(
    connection: &mut Connection,
    waiter: u64,
    farewell: Awaited,
    later: &mut Connection,
    answer: Option<Response>,
    result: RabbitMQStreamResult<()>,
    due: Option<Request>,
)
    requires
        call_ensures(Connection::close_request, (connection, waiter), farewell),
        old(later).stop_heartbeat_sender,
        call_ensures(Connection::close_answered, (later, answer), result),
        call_ensures(Connection::heartbeat_tick, (&*final(later),), due),
    ensures
        farewell.request matches Request::Close { correlation_id, closing_code, closing_reason }
            && correlation_id == old(connection).correlation_id && closing_code is Success
            && closing_reason@ == "Ok"@,
        final(connection).pending()[old(connection).correlation_id] == waiter,
        result is Ok <==> (answer matches Some(response) && response.kind is Close),
        result is Ok ==> due is None,
        result is Err ==> due == Some(Request::Heartbeat) && *final(later) == *old(later),
        answer is None ==> result == Err::<(), ClientError>(ClientError::GenericError),
{
}

/// A connection that was opened is connected and receives, has the properties that were agreed on, and
/// nobody waits yet; the first heartbeat is due after the agreed seconds.
pub proof fn law_opened_connections_are_connected(
    data: ConnectionData,
    connection: Connection,
    seconds: u32,
)
    requires
        call_ensures(Connection::connected, (data,), connection),
        call_ensures(Connection::first_heartbeat_after, (&connection,), seconds),
    ensures
        connection.is_connected,
        connection.receiving,
        connection.stop_heartbeat_sender,
        connection.pending() == Map::<u32, u64>::empty(),
        connection.client_properties == data.client_properties,
        connection.server_properties == data.server_properties,
        connection.connection_properties == data.connection_properties,
        connection.filtering_supported == data.filtering_supported,
        connection.correlation_id == 5,
        seconds == data.heartbeat,
{
}

} // verus!
