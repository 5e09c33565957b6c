//! What the client sends.

use crate::properties::Properties;
use crate::response::ResponseCode;
use vstd::prelude::*;

verus! {

/// Where in a stream a subscription starts.
#[derive(Clone, Copy, Debug, PartialEq, Eq, Structural)]
pub enum OffsetSpecification {
    First,
    Last,
    Next,
    Offset(u64),
    Timestamp(i64),
}

/// A message that is published: its identifier, its data and the value that it can be filtered by.
#[derive(Debug)]
pub struct PublishedData {
    pub publishing_id: u64,
    pub data: Vec<u8>,
    pub filter_value: Option<String>,
}

/// A request of the client.
#[derive(Debug)]
pub enum Request {
    PeerProperties { correlation_id: u32, client_properties: Properties },
    SaslHandshake { correlation_id: u32 },
    SaslAuthenticate { correlation_id: u32, mechanism: String, sasl_data: Vec<u8> },
    Tunes { max_frame_size: u32, heartbeat: u32 },
    Open { correlation_id: u32, virtual_host: String },
    Close { correlation_id: u32, closing_code: ResponseCode, closing_reason: String },
    Delete { correlation_id: u32, stream: String },
    CreateStream { correlation_id: u32, stream: String, arguments: Properties },
    Subscribe {
        correlation_id: u32,
        subscription_id: u8,
        stream: String,
        offset_specification: OffsetSpecification,
        credit: u16,
        properties: Properties,
    },
    Credit { subscription_id: u8, credit: u16 },
    Metadata { correlation_id: u32, streams: Vec<String> },
    DeclarePublisher {
        correlation_id: u32,
        publisher_id: u8,
        publisher_reference: Option<String>,
        stream: String,
    },
    DeletePublisher { correlation_id: u32, publisher_id: u8 },
    Heartbeat,
    QueryOffset { correlation_id: u32, reference: String, stream: String },
    QueryPublisherSequence { correlation_id: u32, reference: String, stream: String },
    StoreOffset { reference: String, stream: String, offset: u64 },
    Unsubscribe { correlation_id: u32, subscription_id: u8 },
    ExchangeCommandVersions { correlation_id: u32 },
    CreateSuperStream {
        correlation_id: u32,
        super_stream: String,
        partitions: Vec<String>,
        binding_keys: Vec<String>,
        arguments: Properties,
    },
    DeleteSuperStream { correlation_id: u32, super_stream: String },
    SuperStreamPartitions { correlation_id: u32, super_stream: String },
    SuperStreamRoute { correlation_id: u32, routing_key: String, super_stream: String },
    ConsumerUpdateRequest {
        correlation_id: u32,
        response_code: u16,
        offset_specification: OffsetSpecification,
    },
    Publish { publisher_id: u8, messages: Vec<PublishedData>, version: u16 },
}

/// Whether `request` subscribes to a stream.
pub open spec fn is_subscribe(
    request: Request,
    id: u32,
    subscription: u8,
    name: Seq<char>,
    start: OffsetSpecification,
    granted: u16,
    table: Properties,
) -> bool {
    match request {
        Request::Subscribe {
            correlation_id,
            subscription_id,
            stream,
            offset_specification,
            credit,
            properties,
        } => correlation_id == id && subscription_id == subscription && stream@ == name
            && offset_specification == start && credit == granted && properties == table,
        _ => false,
    }
}

/// Whether `request` creates a stream.
pub open spec fn is_create_stream(
    request: Request,
    id: u32,
    name: Seq<char>,
    options: Properties,
) -> bool {
    match request {
        Request::CreateStream {
            correlation_id,
            stream,
            arguments,
        } => correlation_id == id && stream@
            == name && arguments == options,
        _ => false,
    }
}

/// Whether `request` creates a super stream.
pub open spec fn is_create_super_stream(
    request: Request,
    id: u32,
    name: Seq<char>,
    names: Vec<String>,
    keys: Vec<String>,
    options: Properties,
) -> bool {
    match request {
        Request::CreateSuperStream {
            correlation_id,
            super_stream,
            partitions,
            binding_keys,
            arguments,
        } => correlation_id == id && super_stream@ == name && partitions == names && binding_keys == keys
            && arguments == options,
        _ => false,
    }
}

/// Whether `request` deletes a stream.
pub open spec fn is_delete(request: Request, id: u32, name: Seq<char>) -> bool {
    match request {
        Request::Delete { correlation_id, stream } => correlation_id == id && stream@ == name,
        _ => false,
    }
}

/// Whether `request` deletes a super stream.
pub open spec fn is_delete_super_stream(request: Request, id: u32, name: Seq<char>) -> bool {
    match request {
        Request::DeleteSuperStream { correlation_id, super_stream } => correlation_id == id
            && super_stream@ == name,
        _ => false,
    }
}

/// Whether `request` stores an offset.
pub open spec fn is_store_offset(
    request: Request,
    holder: Seq<char>,
    name: Seq<char>,
    position: u64,
) -> bool {
    match request {
        Request::StoreOffset {
            reference,
            stream,
            offset,
        } => reference@ == holder && stream@ == name
            && offset == position,
        _ => false,
    }
}

/// Whether `request` asks for a stored offset.
pub open spec fn is_query_offset(
    request: Request,
    id: u32,
    holder: String,
    name: Seq<char>,
) -> bool {
    match request {
        Request::QueryOffset {
            correlation_id,
            reference,
            stream,
        } => correlation_id == id && reference
            == holder && stream@ == name,
        _ => false,
    }
}

/// Whether `request` asks for the last sequence number of a publisher.
pub open spec fn is_query_publisher(
    request: Request,
    id: u32,
    holder: Seq<char>,
    name: Seq<char>,
) -> bool {
    match request {
        Request::QueryPublisherSequence {
            correlation_id,
            reference,
            stream,
        } => correlation_id == id
            && reference@ == holder && stream@ == name,
        _ => false,
    }
}

/// Whether `request` declares a publisher.
pub open spec fn is_declare_publisher(
    request: Request,
    id: u32,
    publisher: u8,
    holder: Option<String>,
    name: Seq<char>,
) -> bool {
    match request {
        Request::DeclarePublisher {
            correlation_id,
            publisher_id,
            publisher_reference,
            stream,
        } => correlation_id == id && publisher_id == publisher && publisher_reference == holder
            && stream@ == name,
        _ => false,
    }
}

/// Whether `request` closes the connection.
pub open spec fn is_close(request: Request, id: u32) -> bool {
    match request {
        Request::Close { correlation_id, closing_code, closing_reason } => correlation_id == id
            && closing_code == ResponseCode::Success && closing_reason@ == "Ok"@,
        _ => false,
    }
}

/// A request holds the identifier that it was given and each of its arguments, whatever they are.
pub proof fn law_subscriptions_hold_their_arguments(
    request: Request,
    id: u32,
    subscription: u8,
    name: Seq<char>,
    start: OffsetSpecification,
    granted: u16,
    table: Properties,
)
    requires
        is_subscribe(request, id, subscription, name, start, granted, table),
    ensures
        request is Subscribe,
        request->Subscribe_correlation_id == id,
        request->Subscribe_subscription_id == subscription,
        request->Subscribe_stream@ == name,
        request->Subscribe_offset_specification == start,
        request->Subscribe_credit == granted,
        request->properties == table,
{
}

/// A request to create a stream holds the identifier that it was given, the name and the options.
pub proof fn law_creations_hold_their_arguments(
    request: Request,
    id: u32,
    name: Seq<char>,
    options: Properties,
)
    requires
        is_create_stream(request, id, name, options),
    ensures
        request is CreateStream,
        request->CreateStream_correlation_id == id,
        request->CreateStream_stream@ == name,
        request->CreateStream_arguments == options,
{
}

/// A request to create a super stream holds the identifier that it was given, the name, all
/// partitions, all binding keys and the options.
pub proof fn law_super_creations_hold_their_arguments(
    request: Request,
    id: u32,
    name: Seq<char>,
    names: Vec<String>,
    keys: Vec<String>,
    options: Properties,
)
    requires
        is_create_super_stream(request, id, name, names, keys, options),
    ensures
        request is CreateSuperStream,
        request->CreateSuperStream_correlation_id == id,
        request->CreateSuperStream_super_stream@ == name,
        request->partitions == names,
        request->binding_keys == keys,
        request->CreateSuperStream_arguments == options,
{
}

/// A request to delete holds the identifier that it was given and the name, of a stream or of a super
/// stream.
pub proof fn law_deletions_hold_their_arguments(
    deletion: Request,
    super_deletion: Request,
    id: u32,
    name: Seq<char>,
)
    requires
        is_delete(deletion, id, name),
        is_delete_super_stream(super_deletion, id, name),
    ensures
        deletion is Delete,
        deletion->Delete_correlation_id == id,
        deletion->Delete_stream@ == name,
        super_deletion is DeleteSuperStream,
        super_deletion->DeleteSuperStream_correlation_id == id,
        super_deletion->DeleteSuperStream_super_stream@ == name,
{
}

/// A request to store an offset holds the reference, the stream and the offset, and the query for it
/// holds the identifier that it was given, the reference and the stream.
pub proof fn law_offset_requests_hold_their_arguments(
    storing: Request,
    query: Request,
    id: u32,
    holder: String,
    name: Seq<char>,
    position: u64,
)
    requires
        is_store_offset(storing, holder@, name, position),
        is_query_offset(query, id, holder, name),
    ensures
        storing is StoreOffset,
        storing->StoreOffset_reference@ == holder@,
        storing->StoreOffset_stream@ == name,
        storing->offset == position,
        query is QueryOffset,
        query->QueryOffset_correlation_id == id,
        query->QueryOffset_reference@ == holder@,
        query->QueryOffset_stream@ == name,
{
}

/// A request to declare a publisher holds the identifier that it was given, the publisher, its
/// reference, if it has one, and the stream; the query for its last sequence number holds the
/// identifier, the reference and the stream.
pub proof fn law_publisher_requests_hold_their_arguments(
    declaration: Request,
    query: Request,
    id: u32,
    publisher: u8,
    holder: Option<String>,
    reference: Seq<char>,
    name: Seq<char>,
)
    requires
        is_declare_publisher(declaration, id, publisher, holder, name),
        is_query_publisher(query, id, reference, name),
    ensures
        declaration is DeclarePublisher,
        declaration->DeclarePublisher_correlation_id == id,
        declaration->DeclarePublisher_publisher_id == publisher,
        declaration->publisher_reference == holder,
        declaration->DeclarePublisher_stream@ == name,
        query is QueryPublisherSequence,
        query->QueryPublisherSequence_correlation_id == id,
        query->QueryPublisherSequence_reference@ == reference,
        query->QueryPublisherSequence_stream@ == name,
{
}

/// A farewell holds the identifier that it was given and tells the server that all is well.
pub proof fn law_farewells_are_friendly(request: Request, id: u32)
    requires
        is_close(request, id),
    ensures
        request is Close,
        request->Close_correlation_id == id,
        request->closing_code == ResponseCode::Success,
        request->closing_reason@ == "Ok"@,
{
}

} // verus!
