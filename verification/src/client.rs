//! The client on top of a [`Connection`].

use crate::connection::{registered, Awaited, Connection};
use crate::error::{ClientError, RabbitMQStreamResult};
use crate::metadata::{from_response, lists, metadata_map, StreamMetadata};
use crate::options::ClientOptions;
use crate::properties::Properties;
use crate::publishing::{
    next_sequence, publication_of, publishes, wanted_ids, ClientMessage, Publication,
};
use crate::receive::{
    answered, offset_answered, sequence_answered, take_answer, take_offset, take_sequence,
};
use crate::request::{
    is_create_stream, is_create_super_stream, is_declare_publisher, is_delete, is_delete_super_stream,
    is_query_offset, is_query_publisher, is_store_offset, is_subscribe, OffsetSpecification, Request,
};
use crate::response::{
    FromResponse, GenericResponse, MetadataResponse, Response, ResponseCode, ResponseKind,
};
use crate::routing::{routed_strictly, Routing};
use vstd::prelude::*;

verus! {

/// Who handles the messages of a client.
#[derive(Clone, Copy, Debug, PartialEq, Eq, Structural)]
pub enum Recipient {
    /// The handler that was set.
    Given,
}

/// Raw API for talking to the server.
#[derive(Debug)]
pub struct Client {
    pub opts: ClientOptions,
    pub connection: Connection,
    pub handler: Option<Recipient>,
    /// The identifier of the next message that has none of its own.
    pub publish_sequence: u64,
}

/// Whether `waiter` is registered for the next answer and nothing else has changed.
pub open spec fn submitted(
    before: Client,
    after: Client,
    waiter: u64,
    replaced: Option<u64>,
) -> bool {
    &&& registered(before.connection, after.connection, waiter, replaced)
    &&& after == (Client { connection: after.connection, ..before })
}

/// Whether a response goes from the connection to the client, and from there to the handler that was
/// set.
pub open spec fn pushes_on(client: Client, response: Response) -> bool {
    let item: Option<RabbitMQStreamResult<Response>> = Some(Ok(response));
    &&& routed_strictly(
        client.connection.pending(),
        client.connection.handle_response_message,
        response,
    ) == Routing::ToHandler(response)
    &&& client.forwarded(item) == Some((Recipient::Given, item))
}

impl Client {
    /// As long as the connection is not closed, its heartbeats can be stopped; and it hands the
    /// responses that answer no request to the client.
    pub open spec fn well_formed(self) -> bool {
        self.connection.well_formed() && self.connection.handle_response_message
    }

    /// To whom a message goes, and what is handed on.
    pub open spec fn forwarded(self, item: Option<RabbitMQStreamResult<Response>>) -> Option<
        (Recipient, Option<RabbitMQStreamResult<Response>>),
    > {
        match self.handler {
            Some(recipient) => Some((recipient, item)),
            None => None,
        }
    }

    /// The client after its handler was set.
    pub open spec fn with_handler(self) -> Client {
        Client { handler: Some(Recipient::Given), ..self }
    }

    /// Returns the client on top of an open connection. The connection hands it the responses
    /// that answer no request; there is no handler yet to which they go on.
    pub fn connect(opts: ClientOptions, connection: Connection) -> (client: Client)
        ensures
            client == (Client {
                opts,
                connection: Connection { handle_response_message: true, ..connection },
                handler: None,
                publish_sequence: 0,
            }),
            connection.well_formed() ==> client.well_formed(),
    {
        let mut connection = connection;
        connection.set_handle_response_message();
        Client { opts, connection, handler: None, publish_sequence: 0 }
    }

    /// Returns the properties of the server.
    pub fn server_properties(&self) -> (properties: Properties)
        ensures
            properties@ == self.connection.server_properties@,
    {
        self.connection.server_properties().copy()
    }

    /// Returns the properties of the connection.
    pub fn connection_properties(&self) -> (properties: Properties)
        ensures
            properties@ == self.connection.connection_properties@,
    {
        self.connection.connection_properties().copy()
    }

    /// Returns whether the server can filter messages.
    pub fn filtering_supported(&self) -> (supported: bool)
        ensures
            supported == self.connection.filtering_supported,
    {
        self.connection.filtering_supported()
    }

    /// Sets the handler of the messages.
    pub fn set_handler(&mut self)
        ensures
            *final(self) == old(self).with_handler(),
    {
        self.handler = Some(Recipient::Given);
    }

    /// Returns to whom a message goes: to the handler, whatever the message is.
    pub fn handle_message(&self, item: Option<RabbitMQStreamResult<Response>>) -> (forwarded: Option<
        (Recipient, Option<RabbitMQStreamResult<Response>>),
    >)
        ensures
            forwarded == self.forwarded(item),
    {
        match self.handler {
            Some(recipient) => Some((recipient, item)),
            None => None,
        }
    }

    /// Begins to close the connection, as [`Connection::close`] does.
    pub fn close(&mut self) -> (begun: Option<bool>)
        ensures
            begun == old(self).connection.close_start(),
            *final(self) == (
                Client { connection: old(self).connection.after_close(), ..*old(self) }
            ),
    {
        self.connection.close()
    }

    /// Takes a body of the wanted type from the answer to a request.
    pub fn receive_answer<R: FromResponse>(answer: Option<Response>) -> (
        result: RabbitMQStreamResult<R>
    )
        ensures
            answered::<R>(answer, result, ClientError::GenericError, "."@),
    {
        take_answer::<R>(answer, ClientError::GenericError, ".")
    }

    /// Takes the offset from the answer to [`Client::query_offset`].
    pub fn receive_offset(answer: Option<Response>) -> (result: RabbitMQStreamResult<u64>)
        ensures
            offset_answered(answer, result, ClientError::GenericError, "."@),
    {
        take_offset(answer, ClientError::GenericError, ".")
    }

    /// Takes the number from the answer to [`Client::query_publisher_sequence`].
    pub fn receive_publisher_sequence(answer: Option<Response>) -> (
        result: RabbitMQStreamResult<u64>
    )
        ensures
            sequence_answered(answer, result, ClientError::GenericError, "."@),
    {
        take_sequence(answer, ClientError::GenericError, ".")
    }

    /// Takes the brokers of the streams from the answer to [`Client::metadata`].
    pub fn receive_metadata(answer: Option<Response>) -> (result: RabbitMQStreamResult<
        Vec<StreamMetadata>,
    >)
        ensures
            match result {
                Ok(table) => answer is Some && match MetadataResponse::body_of(answer->0) {
                    Some(body) => lists(table@, metadata_map(body.brokers@, body.stream_metadata@)),
                    None => false,
                },
                Err(error) => answered::<MetadataResponse>(
                    answer,
                    Err(error),
                    ClientError::GenericError,
                    "."@,
                ),
            },
    {
        match take_answer::<MetadataResponse>(answer, ClientError::GenericError, ".") {
            Ok(response) => Ok(from_response(response)),
            Err(error) => Err(error),
        }
    }

    /// Subscribes to a stream.
    pub fn subscribe(
        &mut self,
        waiter: u64,
        subscription_id: u8,
        stream: &str,
        offset_specification: OffsetSpecification,
        credit: u16,
        properties: Properties,
    ) -> (submission: Awaited)
        ensures
            submitted(*old(self), *final(self), waiter, submission.replaced),
            is_subscribe(
                submission.request,
                old(self).connection.correlation_id,
                subscription_id,
                stream@,
                offset_specification,
                credit,
                properties,
            ),
    {
        let request = Request::Subscribe {
            correlation_id: self.connection.correlation_id,
            subscription_id,
            stream: stream.to_owned(),
            offset_specification,
            credit,
            properties,
        };
        let replaced = self.connection.register(waiter);
        Awaited { request, replaced }
    }

    /// Ends a subscription.
    pub fn unsubscribe(&mut self, waiter: u64, subscription_id: u8) -> (submission: Awaited)
        ensures
            submitted(*old(self), *final(self), waiter, submission.replaced),
            submission.request == (
                Request::Unsubscribe {
                    correlation_id: old(self).connection.correlation_id,
                    subscription_id,
                }
            ),
    {
        let request = Request::Unsubscribe {
            correlation_id: self.connection.correlation_id,
            subscription_id,
        };
        let replaced = self.connection.register(waiter);
        Awaited { request, replaced }
    }

    /// Asks for the streams of a super stream.
    pub fn partitions(&mut self, waiter: u64, super_stream: String) -> (submission: Awaited)
        ensures
            submitted(*old(self), *final(self), waiter, submission.replaced),
            submission.request == (
                Request::SuperStreamPartitions {
                    correlation_id: old(self).connection.correlation_id,
                    super_stream,
                }
            ),
    {
        let request = Request::SuperStreamPartitions {
            correlation_id: self.connection.correlation_id,
            super_stream,
        };
        let replaced = self.connection.register(waiter);
        Awaited { request, replaced }
    }

    /// Asks to which streams of a super stream a routing key leads.
    pub fn route(
        &mut self,
        waiter: u64,
        routing_key: String,
        super_stream: String,
    ) -> (submission: Awaited)
        ensures
            submitted(*old(self), *final(self), waiter, submission.replaced),
            submission.request == (
                Request::SuperStreamRoute {
                    correlation_id: old(self).connection.correlation_id,
                    routing_key,
                    super_stream,
                }
            ),
    {
        let request = Request::SuperStreamRoute {
            correlation_id: self.connection.correlation_id,
            routing_key,
            super_stream,
        };
        let replaced = self.connection.register(waiter);
        Awaited { request, replaced }
    }

    /// Creates a stream.
    pub fn create_stream(
        &mut self,
        waiter: u64,
        stream: &str,
        options: Properties,
    ) -> (submission: Awaited)
        ensures
            submitted(*old(self), *final(self), waiter, submission.replaced),
            is_create_stream(
                submission.request,
                old(self).connection.correlation_id,
                stream@,
                options,
            ),
    {
        let request = Request::CreateStream {
            correlation_id: self.connection.correlation_id,
            stream: stream.to_owned(),
            arguments: options,
        };
        let replaced = self.connection.register(waiter);
        Awaited { request, replaced }
    }

    /// Creates a super stream.
    pub fn create_super_stream(
        &mut self,
        waiter: u64,
        super_stream: &str,
        partitions: Vec<String>,
        binding_keys: Vec<String>,
        options: Properties,
    ) -> (submission: Awaited)
        ensures
            submitted(*old(self), *final(self), waiter, submission.replaced),
            is_create_super_stream(
                submission.request,
                old(self).connection.correlation_id,
                super_stream@,
                partitions,
                binding_keys,
                options,
            ),
    {
        let request = Request::CreateSuperStream {
            correlation_id: self.connection.correlation_id,
            super_stream: super_stream.to_owned(),
            partitions,
            binding_keys,
            arguments: options,
        };
        let replaced = self.connection.register(waiter);
        Awaited { request, replaced }
    }

    /// Deletes a stream.
    pub fn delete_stream(&mut self, waiter: u64, stream: &str) -> (submission: Awaited)
        ensures
            submitted(*old(self), *final(self), waiter, submission.replaced),
            is_delete(submission.request, old(self).connection.correlation_id, stream@),
    {
        let request = Request::Delete {
            correlation_id: self.connection.correlation_id,
            stream: stream.to_owned(),
        };
        let replaced = self.connection.register(waiter);
        Awaited { request, replaced }
    }

    /// Deletes a super stream.
    pub fn delete_super_stream(&mut self, waiter: u64, super_stream: &str) -> (submission: Awaited)
        ensures
            submitted(*old(self), *final(self), waiter, submission.replaced),
            is_delete_super_stream(
                submission.request,
                old(self).connection.correlation_id,
                super_stream@,
            ),
    {
        let request = Request::DeleteSuperStream {
            correlation_id: self.connection.correlation_id,
            super_stream: super_stream.to_owned(),
        };
        let replaced = self.connection.register(waiter);
        Awaited { request, replaced }
    }

    /// Asks which brokers hold the streams.
    pub fn metadata(&mut self, waiter: u64, streams: Vec<String>) -> (submission: Awaited)
        ensures
            submitted(*old(self), *final(self), waiter, submission.replaced),
            submission.request == (
                Request::Metadata { correlation_id: old(self).connection.correlation_id, streams }
            ),
    {
        let request = Request::Metadata { correlation_id: self.connection.correlation_id, streams };
        let replaced = self.connection.register(waiter);
        Awaited { request, replaced }
    }

    /// Asks for the offset that is stored under a reference.
    pub fn query_offset(
        &mut self,
        waiter: u64,
        reference: String,
        stream: &str,
    ) -> (submission: Awaited)
        ensures
            submitted(*old(self), *final(self), waiter, submission.replaced),
            is_query_offset(
                submission.request,
                old(self).connection.correlation_id,
                reference,
                stream@,
            ),
    {
        let request = Request::QueryOffset {
            correlation_id: self.connection.correlation_id,
            reference,
            stream: stream.to_owned(),
        };
        let replaced = self.connection.register(waiter);
        Awaited { request, replaced }
    }

    /// Declares a publisher of a stream.
    pub fn declare_publisher(
        &mut self,
        waiter: u64,
        publisher_id: u8,
        publisher_reference: Option<String>,
        stream: &str,
    ) -> (submission: Awaited)
        ensures
            submitted(*old(self), *final(self), waiter, submission.replaced),
            is_declare_publisher(
                submission.request,
                old(self).connection.correlation_id,
                publisher_id,
                publisher_reference,
                stream@,
            ),
    {
        let request = Request::DeclarePublisher {
            correlation_id: self.connection.correlation_id,
            publisher_id,
            publisher_reference,
            stream: stream.to_owned(),
        };
        let replaced = self.connection.register(waiter);
        Awaited { request, replaced }
    }

    /// Deletes a publisher.
    pub fn delete_publisher(&mut self, waiter: u64, publisher_id: u8) -> (submission: Awaited)
        ensures
            submitted(*old(self), *final(self), waiter, submission.replaced),
            submission.request == (
                Request::DeletePublisher {
                    correlation_id: old(self).connection.correlation_id,
                    publisher_id,
                }
            ),
    {
        let request = Request::DeletePublisher {
            correlation_id: self.connection.correlation_id,
            publisher_id,
        };
        let replaced = self.connection.register(waiter);
        Awaited { request, replaced }
    }

    /// Asks for the last sequence number of a publisher.
    pub fn query_publisher_sequence(
        &mut self,
        waiter: u64,
        reference: &str,
        stream: &str,
    ) -> (submission: Awaited)
        ensures
            submitted(*old(self), *final(self), waiter, submission.replaced),
            is_query_publisher(
                submission.request,
                old(self).connection.correlation_id,
                reference@,
                stream@,
            ),
    {
        let request = Request::QueryPublisherSequence {
            correlation_id: self.connection.correlation_id,
            reference: reference.to_owned(),
            stream: stream.to_owned(),
        };
        let replaced = self.connection.register(waiter);
        Awaited { request, replaced }
    }

    /// Asks which versions of the commands the server takes.
    pub fn exchange_command_versions(&mut self, waiter: u64) -> (submission: Awaited)
        ensures
            submitted(*old(self), *final(self), waiter, submission.replaced),
            submission.request == (
                Request::ExchangeCommandVersions {
                    correlation_id: old(self).connection.correlation_id,
                }
            ),
    {
        let request = Request::ExchangeCommandVersions {
            correlation_id: self.connection.correlation_id,
        };
        let replaced = self.connection.register(waiter);
        Awaited { request, replaced }
    }

    /// Answers a consumer update. The answer carries the identifier of the update, not the one
    /// under which `waiter` is registered.
    pub fn consumer_update(
        &mut self,
        waiter: u64,
        correlation_id: u32,
        offset_specification: OffsetSpecification,
    ) -> (submission: Awaited)
        ensures
            submitted(*old(self), *final(self), waiter, submission.replaced),
            submission.request == (Request::ConsumerUpdateRequest {
                correlation_id,
                response_code: 1,
                offset_specification,
            }),
    {
        let request = Request::ConsumerUpdateRequest {
            correlation_id,
            response_code: 1,
            offset_specification,
        };
        let replaced = self.connection.register(waiter);
        Awaited { request, replaced }
    }

    /// Grants credit to a subscription.
    pub fn credit(&self, subscription_id: u8, credit: u16) -> (request: Request)
        ensures
            request == (Request::Credit { subscription_id, credit }),
    {
        Request::Credit { subscription_id, credit }
    }

    /// Stores an offset under a reference.
    pub fn store_offset(&self, reference: &str, stream: &str, offset: u64) -> (request: Request)
        ensures
            is_store_offset(request, reference@, stream@, offset),
    {
        Request::StoreOffset { reference: reference.to_owned(), stream: stream.to_owned(), offset }
    }

    /// Gives the messages their identifiers; returns them as they are to be published.
    pub fn publish<M>(
        &mut self,
        publisher_id: u8,
        messages: Vec<ClientMessage<M>>,
        version: u16,
    ) -> (publication: Publication<M>)
        ensures
            *final(self) == (Client {
                publish_sequence: next_sequence(wanted_ids(messages@), old(self).publish_sequence),
                ..*old(self)
            }),
            publishes(publication, publisher_id, messages@, version, old(self).publish_sequence),
            publication.published@.len() == messages@.len(),
            forall|i: int|
                0 <= i < messages@.len() ==> (#[trigger] publication.published@[i]).message
                    == messages@[i].message && publication.published@[i].filter_value
                    == messages@[i].filter_value,
    {
        let (publication, next) = publication_of(
            publisher_id,
            messages,
            version,
            self.publish_sequence,
        );
        self.publish_sequence = next;
        publication
    }
}

/// Once a handler is set, every response that answers no request goes to it, whoever waits for
/// answers meanwhile; and neither a request nor closing the connection changes that.
pub proof fn law_pushed_frames_reach_the_given_handler(
    connected: Client,
    requested: Client,
    waiter: u64,
    replaced: Option<u64>,
    response: Response,
)
    requires
        connected.well_formed(),
        submitted(connected.with_handler(), requested, waiter, replaced),
        response.correlation_id is None,
    ensures
        pushes_on(connected.with_handler(), response),
        pushes_on(requested, response),
        requested.well_formed(),
        pushes_on(
            Client { connection: requested.connection.after_close(), ..requested },
            response,
        ),
{
}

/// The handler that was set gets every message unchanged, whatever it is: a response, a failure or
/// the end; without a handler nobody gets it. Setting the handler changes nothing else.
pub proof fn law_the_handler_gets_every_message(
    client: Client,
    item: Option<RabbitMQStreamResult<Response>>,
)
    ensures
        client.with_handler().forwarded(item) == Some((Recipient::Given, item)),
        client.handler is None ==> client.forwarded(item) is None,
        client.with_handler() == (Client {
            opts: client.opts,
            connection: client.connection,
            handler: Some(Recipient::Given),
            publish_sequence: client.publish_sequence,
        }),
{
}

/// A request registers the one who waits for its answer under the identifier of its turn, and changes
/// nothing in the client but that.
pub proof fn law_requests_change_only_the_connection(
    before: Client,
    after: Client,
    waiter: u64,
    replaced: Option<u64>,
)
    requires
        submitted(before, after, waiter, replaced),
    ensures
        after.connection.pending() == before.connection.pending().insert(
            before.connection.correlation_id,
            waiter,
        ),
        after.connection.correlation_id == (if before.connection.correlation_id == u32::MAX {
            0
        } else {
            before.connection.correlation_id + 1
        }),
        after.opts == before.opts,
        after.handler == before.handler,
        after.publish_sequence == before.publish_sequence,
        after.connection.is_connected == before.connection.is_connected,
        after.connection.receiving == before.connection.receiving,
        after.connection.handle_response_message == before.connection.handle_response_message,
{
}

/// The handler that was set gets every message, whatever it is, and as it is.
pub proof fn law_set_handlers_get_messages(
    client: &mut Client,
    nothing: (),
    item: Option<RabbitMQStreamResult<Response>>,
    forwarded: Option<(Recipient, Option<RabbitMQStreamResult<Response>>)>,
)
    requires
        call_ensures(Client::set_handler, (client,), nothing),
        call_ensures(Client::handle_message, (&*final(client), item), forwarded),
    ensures
        forwarded == Some((Recipient::Given, item)),
        final(client).connection == old(client).connection,
        final(client).publish_sequence == old(client).publish_sequence,
{
}

/// A client on top of an open connection gets the responses that answer no request, and has no handler
/// yet to which they go on.
pub proof fn law_new_clients_have_no_handler(
    opts: ClientOptions,
    connection: Connection,
    client: Client,
    item: Option<RabbitMQStreamResult<Response>>,
    forwarded: Option<(Recipient, Option<RabbitMQStreamResult<Response>>)>,
)
    requires
        call_ensures(Client::connect, (opts, connection), client),
        call_ensures(Client::handle_message, (&client, item), forwarded),
    ensures
        client.connection == (Connection { handle_response_message: true, ..connection }),
        client.opts == opts,
        client.publish_sequence == 0,
        forwarded is None,
{
}

/// A request holds the identifier of its turn and its arguments, whatever they are, and the one who
/// waits for its answer is registered under that identifier: an end of a subscription and of a
/// publisher, and a query for the versions of the commands.
pub proof fn law_plain_requests_are_made_as_asked(
    client: &mut Client,
    waiter: u64,
    subscription_id: u8,
    ended: Awaited,
    second: &mut Client,
    publisher_id: u8,
    deleted: Awaited,
    third: &mut Client,
    versions: Awaited,
)
    requires
        call_ensures(Client::unsubscribe, (client, waiter, subscription_id), ended),
        call_ensures(Client::delete_publisher, (second, waiter, publisher_id), deleted),
        call_ensures(Client::exchange_command_versions, (third, waiter), versions),
    ensures
        ended.request == (Request::Unsubscribe {
            correlation_id: old(client).connection.correlation_id,
            subscription_id,
        }),
        deleted.request == (Request::DeletePublisher {
            correlation_id: old(second).connection.correlation_id,
            publisher_id,
        }),
        versions.request == (Request::ExchangeCommandVersions {
            correlation_id: old(third).connection.correlation_id,
        }),
        final(client).connection.pending()[old(client).connection.correlation_id] == waiter,
        final(second).connection.pending()[old(second).connection.correlation_id] == waiter,
        final(third).connection.pending()[old(third).connection.correlation_id] == waiter,
{
}

/// The queries for the streams of a super stream, for those to which a routing key leads and for the
/// brokers of streams hold the identifier of their turn and what is asked for, whatever it is.
pub proof fn law_queries_are_made_as_asked(
    client: &mut Client,
    waiter: u64,
    super_stream: String,
    partitions: Awaited,
    second: &mut Client,
    routing_key: String,
    route: Awaited,
    third: &mut Client,
    streams: Vec<String>,
    metadata: Awaited,
)
    requires
        call_ensures(Client::partitions, (client, waiter, super_stream), partitions),
        call_ensures(Client::route, (second, waiter, routing_key, super_stream), route),
        call_ensures(Client::metadata, (third, waiter, streams), metadata),
    ensures
        partitions.request == (Request::SuperStreamPartitions {
            correlation_id: old(client).connection.correlation_id,
            super_stream,
        }),
        route.request == (Request::SuperStreamRoute {
            correlation_id: old(second).connection.correlation_id,
            routing_key,
            super_stream,
        }),
        metadata.request == (Request::Metadata {
            correlation_id: old(third).connection.correlation_id,
            streams,
        }),
        final(client).connection.pending()[old(client).connection.correlation_id] == waiter,
        final(second).connection.pending()[old(second).connection.correlation_id] == waiter,
        final(third).connection.pending()[old(third).connection.correlation_id] == waiter,
{
}

/// The answer to a consumer update carries the identifier of the update, credit and offsets go to the
/// server as they were given, whatever they are.
pub proof fn law_updates_credit_and_offsets_are_made_as_asked(
    client: &mut Client,
    waiter: u64,
    correlation_id: u32,
    offset_specification: OffsetSpecification,
    update: Awaited,
    granting: &Client,
    subscription_id: u8,
    credit: u16,
    granted: Request,
    reference: &str,
    stream: &str,
    offset: u64,
    stored: Request,
)
    requires
        call_ensures(
            Client::consumer_update,
            (client, waiter, correlation_id, offset_specification),
            update,
        ),
        call_ensures(Client::credit, (granting, subscription_id, credit), granted),
        call_ensures(Client::store_offset, (granting, reference, stream, offset), stored),
    ensures
        update.request == (Request::ConsumerUpdateRequest {
            correlation_id,
            response_code: ResponseCode::Success.spec_number(),
            offset_specification,
        }),
        granted == (Request::Credit { subscription_id, credit }),
        stored matches Request::StoreOffset { reference: holder, stream: name, offset: position }
            && holder@ == reference@ && name@ == stream@ && position == offset,
{
}

/// Publishing gives each message to the server as it is, with its own filter value and the identifier
/// that it asks for, if it asks for one.
pub proof fn law_messages_are_published_as_they_are<M>(
    client: &mut Client,
    publisher_id: u8,
    messages: Vec<ClientMessage<M>>,
    version: u16,
    publication: Publication<M>,
    i: int,
)
    requires
        call_ensures(Client::publish::<M>, (client, publisher_id, messages, version), publication),
        0 <= i < messages@.len(),
    ensures
        publication.publisher_id == publisher_id,
        publication.version == version,
        publication.published@.len() == messages@.len(),
        publication.published@[i].message == messages@[i].message,
        publication.published@[i].filter_value == messages@[i].filter_value,
        messages@[i].publishing_id matches Some(id) ==> publication.published@[i].publishing_id
            == id,
        publication.ids@[i] == publication.published@[i].publishing_id,
        final(client).connection == old(client).connection,
        final(client).handler == old(client).handler,
{
}

/// A subscription, a creation and a deletion of a stream hold the identifier of their turn and their
/// arguments, whatever they are.
pub proof fn law_stream_requests_are_made_as_asked(
    client: &mut Client,
    waiter: u64,
    subscription_id: u8,
    stream: &str,
    start: OffsetSpecification,
    credit: u16,
    properties: Properties,
    subscription: Awaited,
    second: &mut Client,
    creation: Awaited,
    third: &mut Client,
    deletion: Awaited,
)
    requires
        call_ensures(
            Client::subscribe,
            (client, waiter, subscription_id, stream, start, credit, properties),
            subscription,
        ),
        call_ensures(Client::create_stream, (second, waiter, stream, properties), creation),
        call_ensures(Client::delete_stream, (third, waiter, stream), deletion),
    ensures
        subscription.request matches Request::Subscribe {
            correlation_id,
            subscription_id: subscriber,
            stream: name,
            offset_specification,
            credit: granted,
            properties: table,
        } && correlation_id == old(client).connection.correlation_id && subscriber
            == subscription_id && name@ == stream@ && offset_specification == start && granted
            == credit && table == properties,
        creation.request matches Request::CreateStream { correlation_id, stream: name, arguments }
            && correlation_id == old(second).connection.correlation_id && name@ == stream@
            && arguments == properties,
        deletion.request matches Request::Delete { correlation_id, stream: name } && correlation_id
            == old(third).connection.correlation_id && name@ == stream@,
        final(client).connection.pending()[old(client).connection.correlation_id] == waiter,
        final(second).connection.pending()[old(second).connection.correlation_id] == waiter,
        final(third).connection.pending()[old(third).connection.correlation_id] == waiter,
{
}

/// A super stream is created and deleted as asked: the request holds the identifier of its turn and
/// its arguments, whatever they are.
pub proof fn law_super_stream_requests_are_made_as_asked(
    client: &mut Client,
    waiter: u64,
    super_stream: &str,
    partitions: Vec<String>,
    binding_keys: Vec<String>,
    options: Properties,
    creation: Awaited,
    second: &mut Client,
    deletion: Awaited,
)
    requires
        call_ensures(
            Client::create_super_stream,
            (client, waiter, super_stream, partitions, binding_keys, options),
            creation,
        ),
        call_ensures(Client::delete_super_stream, (second, waiter, super_stream), deletion),
    ensures
        creation.request matches Request::CreateSuperStream {
            correlation_id,
            super_stream: name,
            partitions: names,
            binding_keys: keys,
            arguments,
        } && correlation_id == old(client).connection.correlation_id && name@ == super_stream@
            && names == partitions && keys == binding_keys && arguments == options,
        deletion.request matches Request::DeleteSuperStream { correlation_id, super_stream: name }
            && correlation_id == old(second).connection.correlation_id && name@ == super_stream@,
        final(client).connection.pending()[old(client).connection.correlation_id] == waiter,
        final(second).connection.pending()[old(second).connection.correlation_id] == waiter,
{
}

/// A publisher is declared as asked, and its last sequence number and a stored offset are asked for
/// under their references: the requests hold the identifier of their turn and their arguments.
pub proof fn law_publisher_requests_are_made_as_asked(
    client: &mut Client,
    waiter: u64,
    publisher_id: u8,
    publisher_reference: Option<String>,
    stream: &str,
    declaration: Awaited,
    second: &mut Client,
    reference: &str,
    query: Awaited,
    third: &mut Client,
    holder: String,
    offset: Awaited,
)
    requires
        call_ensures(
            Client::declare_publisher,
            (client, waiter, publisher_id, publisher_reference, stream),
            declaration,
        ),
        call_ensures(
            Client::query_publisher_sequence,
            (second, waiter, reference, stream),
            query,
        ),
        call_ensures(Client::query_offset, (third, waiter, holder, stream), offset),
    ensures
        declaration.request matches Request::DeclarePublisher {
            correlation_id,
            publisher_id: publisher,
            publisher_reference: given,
            stream: name,
        } && correlation_id == old(client).connection.correlation_id && publisher == publisher_id
            && given == publisher_reference && name@ == stream@,
        query.request matches Request::QueryPublisherSequence {
            correlation_id,
            reference: under,
            stream: name,
        } && correlation_id == old(second).connection.correlation_id && under@ == reference@ && name@
            == stream@,
        offset.request matches Request::QueryOffset {
            correlation_id,
            reference: under,
            stream: name,
        } && correlation_id == old(third).connection.correlation_id && under@ == holder@ && name@
            == stream@,
        final(client).connection.pending()[old(client).connection.correlation_id] == waiter,
        final(second).connection.pending()[old(second).connection.correlation_id] == waiter,
        final(third).connection.pending()[old(third).connection.correlation_id] == waiter,
{
}

/// What is told of an open connection is what was agreed on when it was opened.
pub proof fn law_clients_tell_what_their_connection_knows(
    client: &Client,
    server: Properties,
    connection: Properties,
    filtering: bool,
)
    requires
        call_ensures(Client::server_properties, (client,), server),
        call_ensures(Client::connection_properties, (client,), connection),
        call_ensures(Client::filtering_supported, (client,), filtering),
    ensures
        server@ == client.connection.server_properties@,
        connection@ == client.connection.connection_properties@,
        filtering == client.connection.filtering_supported,
{
}

/// Answers are taken as the server gave them: an outcome, an offset and a sequence number, whatever
/// they are.
pub proof fn law_answers_come_as_they_were_given(
    response: Response,
    outcome: RabbitMQStreamResult<GenericResponse>,
    offset: RabbitMQStreamResult<u64>,
    sequence: RabbitMQStreamResult<u64>,
    lost: RabbitMQStreamResult<GenericResponse>,
)
    requires
        call_ensures(Client::receive_answer::<GenericResponse>, (Some(response),), outcome),
        call_ensures(Client::receive_offset, (Some(response),), offset),
        call_ensures(Client::receive_publisher_sequence, (Some(response),), sequence),
        call_ensures(Client::receive_answer::<GenericResponse>, (None,), lost),
    ensures
        response.kind matches ResponseKind::Generic(body) ==> outcome == Ok::<
            GenericResponse,
            ClientError,
        >(body),
        !(response.kind is Generic) ==> (outcome matches Err(error) && error is CastError),
        response.kind matches ResponseKind::QueryOffset(body) ==> offset == (
        if body.code is Success {
            Ok::<u64, ClientError>(body.offset)
        } else {
            Err::<u64, ClientError>(ClientError::RequestError(body.code))
        }),
        response.kind matches ResponseKind::QueryPublisherSequence(body) ==> sequence == Ok::<
            u64,
            ClientError,
        >(body.sequence),
        lost == Err::<GenericResponse, ClientError>(ClientError::GenericError),
{
}

/// Closing a client closes its connection, tells those who are to be told, and changes nothing else.
pub proof fn law_closing_a_client_closes_its_connection(client: &mut Client, begun: Option<bool>)
    requires
        call_ensures(Client::close, (client,), begun),
    ensures
        old(client).connection.is_connected ==> begun == Some(
            old(client).connection.close_callback,
        ),
        !old(client).connection.is_connected ==> begun is None,
        !final(client).connection.is_connected,
        final(client).connection.pending() == old(client).connection.pending(),
        final(client).handler == old(client).handler,
        final(client).publish_sequence == old(client).publish_sequence,
{
}

} // verus!
