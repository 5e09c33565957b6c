//! What the server sends: response codes, the bodies of the responses and their views.

use crate::properties::Properties;
use vstd::prelude::*;

verus! {

/// The outcome that the server reports for a request.
#[derive(Clone, Copy, Debug, PartialEq, Eq, Structural)]
pub enum ResponseCode {
    Success,
    StreamDoesNotExist,
    SubscriptionIdAlreadyExists,
    SubscriptionIdDoesNotExist,
    StreamAlreadyExists,
    StreamNotAvailable,
    SaslMechanismNotSupported,
    AuthenticationFailure,
    SaslError,
    SaslChallange,
    AuthenticationFailureLoopback,
    VirtualHostAccessFailure,
    UnknownFrame,
    FrameTooLarge,
    InternalError,
    AccessRefused,
    PreconditionFailed,
    PublisherDoesNotExist,
    OffsetNotFound,
}

impl ResponseCode {
    /// The number that stands for the code in a frame.
    pub open spec fn spec_number(self) -> u16 {
        match self {
            ResponseCode::Success => 1,
            ResponseCode::StreamDoesNotExist => 2,
            ResponseCode::SubscriptionIdAlreadyExists => 3,
            ResponseCode::SubscriptionIdDoesNotExist => 4,
            ResponseCode::StreamAlreadyExists => 5,
            ResponseCode::StreamNotAvailable => 6,
            ResponseCode::SaslMechanismNotSupported => 7,
            ResponseCode::AuthenticationFailure => 8,
            ResponseCode::SaslError => 9,
            ResponseCode::SaslChallange => 10,
            ResponseCode::AuthenticationFailureLoopback => 11,
            ResponseCode::VirtualHostAccessFailure => 12,
            ResponseCode::UnknownFrame => 13,
            ResponseCode::FrameTooLarge => 14,
            ResponseCode::InternalError => 15,
            ResponseCode::AccessRefused => 16,
            ResponseCode::PreconditionFailed => 17,
            ResponseCode::PublisherDoesNotExist => 18,
            ResponseCode::OffsetNotFound => 19,
        }
    }

    /// Returns the number that stands for the code in a frame.
    pub fn number(self) -> (number: u16)
        ensures
            number == self.spec_number(),
            1 <= number <= 19,
    {
        match self {
            ResponseCode::Success => 1,
            ResponseCode::StreamDoesNotExist => 2,
            ResponseCode::SubscriptionIdAlreadyExists => 3,
            ResponseCode::SubscriptionIdDoesNotExist => 4,
            ResponseCode::StreamAlreadyExists => 5,
            ResponseCode::StreamNotAvailable => 6,
            ResponseCode::SaslMechanismNotSupported => 7,
            ResponseCode::AuthenticationFailure => 8,
            ResponseCode::SaslError => 9,
            ResponseCode::SaslChallange => 10,
            ResponseCode::AuthenticationFailureLoopback => 11,
            ResponseCode::VirtualHostAccessFailure => 12,
            ResponseCode::UnknownFrame => 13,
            ResponseCode::FrameTooLarge => 14,
            ResponseCode::InternalError => 15,
            ResponseCode::AccessRefused => 16,
            ResponseCode::PreconditionFailed => 17,
            ResponseCode::PublisherDoesNotExist => 18,
            ResponseCode::OffsetNotFound => 19,
        }
    }

    /// Returns the code with the given number; there is one for the numbers 1 to 19.
    pub fn from_number(number: u16) -> (code: Option<ResponseCode>)
        ensures
            code is Some <==> 1 <= number <= 19,
            code matches Some(c) ==> c.spec_number() == number,
    {
        match number {
            1 => Some(ResponseCode::Success),
            2 => Some(ResponseCode::StreamDoesNotExist),
            3 => Some(ResponseCode::SubscriptionIdAlreadyExists),
            4 => Some(ResponseCode::SubscriptionIdDoesNotExist),
            5 => Some(ResponseCode::StreamAlreadyExists),
            6 => Some(ResponseCode::StreamNotAvailable),
            7 => Some(ResponseCode::SaslMechanismNotSupported),
            8 => Some(ResponseCode::AuthenticationFailure),
            9 => Some(ResponseCode::SaslError),
            10 => Some(ResponseCode::SaslChallange),
            11 => Some(ResponseCode::AuthenticationFailureLoopback),
            12 => Some(ResponseCode::VirtualHostAccessFailure),
            13 => Some(ResponseCode::UnknownFrame),
            14 => Some(ResponseCode::FrameTooLarge),
            15 => Some(ResponseCode::InternalError),
            16 => Some(ResponseCode::AccessRefused),
            17 => Some(ResponseCode::PreconditionFailed),
            18 => Some(ResponseCode::PublisherDoesNotExist),
            19 => Some(ResponseCode::OffsetNotFound),
            _ => None,
        }
    }
}

/// Different codes have different numbers.
pub proof fn lemma_code_number_injective(a: ResponseCode, b: ResponseCode)
    requires
        a.spec_number() == b.spec_number(),
    ensures
        a == b,
{
}

/// Answer to a request that has only an outcome.
#[derive(Debug)]
pub struct GenericResponse {
    pub code: ResponseCode,
}

/// Answer to the opening of a virtual host.
#[derive(Debug)]
pub struct OpenResponse {
    pub code: ResponseCode,
    pub connection_properties: Properties,
}

/// Answer to a request to close the connection.
#[derive(Debug)]
pub struct CloseResponse {
    pub ok: bool,
}

/// The properties of the server.
#[derive(Debug)]
pub struct PeerPropertiesResponse {
    pub server_properties: Properties,
}

/// The authentication mechanisms that the server offers.
#[derive(Debug)]
pub struct SaslHandshakeResponse {
    pub mechanisms: Vec<String>,
}

/// The limits of a connection: the largest frame and the seconds between two heartbeats.
#[derive(Clone, Copy, Debug, PartialEq, Eq, Structural)]
pub struct TunesCommand {
    pub max_frame_size: u32,
    pub heartbeat: u32,
}

/// A broker, as the answer to a metadata request lists it.
#[derive(Debug)]
pub struct BrokerEntry {
    pub reference: u16,
    pub host: String,
    pub port: u32,
}

/// A stream, as the answer to a metadata request lists it.
#[derive(Debug)]
pub struct StreamEntry {
    pub stream_name: String,
    pub code: ResponseCode,
    pub leader_reference: u16,
    pub replicas_references: Vec<u16>,
}

/// Answer to a metadata request.
#[derive(Debug)]
pub struct MetadataResponse {
    pub brokers: Vec<BrokerEntry>,
    pub stream_metadata: Vec<StreamEntry>,
}

/// Answer to a query for a stored offset.
#[derive(Debug)]
pub struct QueryOffsetResponse {
    pub code: ResponseCode,
    pub offset: u64,
}

/// Answer to a query for the last sequence number of a publisher.
#[derive(Debug)]
pub struct QueryPublisherResponse {
    pub sequence: u64,
}

/// The lowest and the highest version of a command that the server takes.
#[derive(Clone, Copy, Debug, PartialEq, Eq, Structural)]
pub struct CommandVersions {
    pub command: u16,
    pub min_version: u16,
    pub max_version: u16,
}

/// Answer to the exchange of command versions.
#[derive(Debug)]
pub struct ExchangeCommandVersionsResponse {
    pub code: ResponseCode,
    pub commands: Vec<CommandVersions>,
}

/// The lowest and the highest version of a command: those that come first in the list, or the first
/// version, where the list does not tell.
pub open spec fn versions_in(commands: Seq<CommandVersions>, command: u16) -> (u16, u16)
    decreases commands.len(),
{
    if commands.len() == 0 {
        (1, 1)
    } else if commands[0].command == command {
        (commands[0].min_version, commands[0].max_version)
    } else {
        versions_in(commands.skip(1), command)
    }
}

/// The streams of a super stream.
#[derive(Debug)]
pub struct SuperStreamPartitionsResponse {
    pub ok: bool,
    pub streams: Vec<String>,
}

/// The streams of a super stream that a routing key leads to.
#[derive(Debug)]
pub struct SuperStreamRouteResponse {
    pub ok: bool,
    pub streams: Vec<String>,
}

/// A message that was delivered.
#[derive(Debug)]
pub struct Message {
    /// The sections of the message, as they were published: its header, its annotations, its
    /// properties and its body.
    pub content: Vec<u8>,
    /// The first data in the body.
    pub data: Option<Vec<u8>>,
}

/// The bytes of data that may be absent.
pub open spec fn data_view(data: Option<Vec<u8>>) -> Option<Seq<u8>> {
    match data {
        Some(bytes) => Some(bytes@),
        None => None,
    }
}

impl Message {
    /// Returns the data of the message, if it holds any.
    pub fn data(&self) -> (data: Option<&[u8]>)
        ensures
            match data {
                Some(bytes) => data_view(self.data) == Some(bytes@),
                None => self.data is None,
            },
    {
        match &self.data {
            Some(bytes) => Some(bytes.as_slice()),
            None => None,
        }
    }
}

/// Messages for a subscription, with the offset of the first one.
#[derive(Debug)]
pub struct DeliverCommand {
    pub subscription_id: u8,
    pub chunk_first_offset: u64,
    pub messages: Vec<Message>,
}

/// The server has stored messages of a publisher.
#[derive(Debug)]
pub struct PublishConfirm {
    pub publisher_id: u8,
    pub publishing_ids: Vec<u64>,
}

/// A message that the server has not stored.
#[derive(Clone, Copy, Debug, PartialEq, Eq, Structural)]
pub struct PublishingError {
    pub publishing_id: u64,
    pub error_code: ResponseCode,
}

/// The server has not stored messages of a publisher.
#[derive(Debug)]
pub struct PublishErrorResponse {
    pub publisher_id: u8,
    pub publishing_errors: Vec<PublishingError>,
}

/// What is known of a stream has changed.
#[derive(Debug)]
pub struct MetadataUpdateCommand {
    pub code: ResponseCode,
    pub stream: String,
}

/// The server has refused credit for a subscription.
#[derive(Clone, Copy, Debug, PartialEq, Eq, Structural)]
pub struct CreditResponse {
    pub code: ResponseCode,
    pub subscription_id: u8,
}

/// The server asks where a consumer goes on, which has become active or inactive.
#[derive(Clone, Copy, Debug, PartialEq, Eq, Structural)]
pub struct ConsumerUpdateCommand {
    pub correlation_id: u32,
    pub subscription_id: u8,
    pub active: u8,
}

impl ConsumerUpdateCommand {
    /// Returns the identifier that the answer is to carry.
    pub fn get_correlation_id(&self) -> (id: u32)
        ensures
            id == self.correlation_id,
    {
        self.correlation_id
    }

    /// Returns whether the consumer has become active, as a number.
    pub fn is_active(&self) -> (active: u8)
        ensures
            active == self.active,
    {
        self.active
    }
}

/// The body of a response.
#[derive(Debug)]
pub enum ResponseKind {
    Open(OpenResponse),
    Close(CloseResponse),
    PeerProperties(PeerPropertiesResponse),
    SaslHandshake(SaslHandshakeResponse),
    Generic(GenericResponse),
    Tunes(TunesCommand),
    Deliver(DeliverCommand),
    Heartbeat,
    Metadata(MetadataResponse),
    MetadataUpdate(MetadataUpdateCommand),
    PublishConfirm(PublishConfirm),
    PublishError(PublishErrorResponse),
    QueryOffset(QueryOffsetResponse),
    QueryPublisherSequence(QueryPublisherResponse),
    Credit(CreditResponse),
    ExchangeCommandVersions(ExchangeCommandVersionsResponse),
    SuperStreamPartitions(SuperStreamPartitionsResponse),
    SuperStreamRoute(SuperStreamRouteResponse),
    ConsumerUpdate(ConsumerUpdateCommand),
}

/// A response of the server.
#[derive(Debug)]
pub struct Response {
    pub correlation_id: Option<u32>,
    pub kind: ResponseKind,
}

/// A body that a response may have.
pub trait FromResponse: Sized {
    /// The body of `response`, if it is of this type.
    spec fn body_of(response: Response) -> Option<Self>;

    /// The name of the type in messages.
    spec fn spec_body_name() -> Seq<char>;

    /// Returns the body of `response`, if it is of this type.
    fn from_response(response: Response) -> (body: Option<Self>)
        ensures
            body == Self::body_of(response),
    ;

    /// Returns the name of the type in messages.
    fn body_name() -> (name: &'static str)
        ensures
            name@ == Self::spec_body_name(),
    ;
}

impl FromResponse for GenericResponse {
    open spec fn body_of(response: Response) -> Option<Self> {
        match response.kind {
            ResponseKind::Generic(body) => Some(body),
            _ => None,
        }
    }

    open spec fn spec_body_name() -> Seq<char> {
        "rabbitmq_stream_protocol::commands::generic::GenericResponse"@
    }

    fn from_response(response: Response) -> (body: Option<Self>) {
        match response.kind {
            ResponseKind::Generic(body) => Some(body),
            _ => None,
        }
    }

    fn body_name() -> (name: &'static str) {
        "rabbitmq_stream_protocol::commands::generic::GenericResponse"
    }
}

impl FromResponse for OpenResponse {
    open spec fn body_of(response: Response) -> Option<Self> {
        match response.kind {
            ResponseKind::Open(body) => Some(body),
            _ => None,
        }
    }

    open spec fn spec_body_name() -> Seq<char> {
        "rabbitmq_stream_protocol::commands::open::OpenResponse"@
    }

    fn from_response(response: Response) -> (body: Option<Self>) {
        match response.kind {
            ResponseKind::Open(body) => Some(body),
            _ => None,
        }
    }

    fn body_name() -> (name: &'static str) {
        "rabbitmq_stream_protocol::commands::open::OpenResponse"
    }
}

impl FromResponse for CloseResponse {
    open spec fn body_of(response: Response) -> Option<Self> {
        match response.kind {
            ResponseKind::Close(body) => Some(body),
            _ => None,
        }
    }

    open spec fn spec_body_name() -> Seq<char> {
        "rabbitmq_stream_protocol::commands::close::CloseResponse"@
    }

    fn from_response(response: Response) -> (body: Option<Self>) {
        match response.kind {
            ResponseKind::Close(body) => Some(body),
            _ => None,
        }
    }

    fn body_name() -> (name: &'static str) {
        "rabbitmq_stream_protocol::commands::close::CloseResponse"
    }
}

impl FromResponse for PeerPropertiesResponse {
    open spec fn body_of(response: Response) -> Option<Self> {
        match response.kind {
            ResponseKind::PeerProperties(body) => Some(body),
            _ => None,
        }
    }

    open spec fn spec_body_name() -> Seq<char> {
        "rabbitmq_stream_protocol::commands::peer_properties::PeerPropertiesResponse"@
    }

    fn from_response(response: Response) -> (body: Option<Self>) {
        match response.kind {
            ResponseKind::PeerProperties(body) => Some(body),
            _ => None,
        }
    }

    fn body_name() -> (name: &'static str) {
        "rabbitmq_stream_protocol::commands::peer_properties::PeerPropertiesResponse"
    }
}

impl FromResponse for SaslHandshakeResponse {
    open spec fn body_of(response: Response) -> Option<Self> {
        match response.kind {
            ResponseKind::SaslHandshake(body) => Some(body),
            _ => None,
        }
    }

    open spec fn spec_body_name() -> Seq<char> {
        "rabbitmq_stream_protocol::commands::sasl_handshake::SaslHandshakeResponse"@
    }

    fn from_response(response: Response) -> (body: Option<Self>) {
        match response.kind {
            ResponseKind::SaslHandshake(body) => Some(body),
            _ => None,
        }
    }

    fn body_name() -> (name: &'static str) {
        "rabbitmq_stream_protocol::commands::sasl_handshake::SaslHandshakeResponse"
    }
}

impl FromResponse for TunesCommand {
    open spec fn body_of(response: Response) -> Option<Self> {
        match response.kind {
            ResponseKind::Tunes(body) => Some(body),
            _ => None,
        }
    }

    open spec fn spec_body_name() -> Seq<char> {
        "rabbitmq_stream_protocol::commands::tune::TunesCommand"@
    }

    fn from_response(response: Response) -> (body: Option<Self>) {
        match response.kind {
            ResponseKind::Tunes(body) => Some(body),
            _ => None,
        }
    }

    fn body_name() -> (name: &'static str) {
        "rabbitmq_stream_protocol::commands::tune::TunesCommand"
    }
}

impl FromResponse for MetadataResponse {
    open spec fn body_of(response: Response) -> Option<Self> {
        match response.kind {
            ResponseKind::Metadata(body) => Some(body),
            _ => None,
        }
    }

    open spec fn spec_body_name() -> Seq<char> {
        "rabbitmq_stream_protocol::commands::metadata::MetadataResponse"@
    }

    fn from_response(response: Response) -> (body: Option<Self>) {
        match response.kind {
            ResponseKind::Metadata(body) => Some(body),
            _ => None,
        }
    }

    fn body_name() -> (name: &'static str) {
        "rabbitmq_stream_protocol::commands::metadata::MetadataResponse"
    }
}

impl FromResponse for QueryOffsetResponse {
    open spec fn body_of(response: Response) -> Option<Self> {
        match response.kind {
            ResponseKind::QueryOffset(body) => Some(body),
            _ => None,
        }
    }

    open spec fn spec_body_name() -> Seq<char> {
        "rabbitmq_stream_protocol::commands::query_offset::QueryOffsetResponse"@
    }

    fn from_response(response: Response) -> (body: Option<Self>) {
        match response.kind {
            ResponseKind::QueryOffset(body) => Some(body),
            _ => None,
        }
    }

    fn body_name() -> (name: &'static str) {
        "rabbitmq_stream_protocol::commands::query_offset::QueryOffsetResponse"
    }
}

impl FromResponse for QueryPublisherResponse {
    open spec fn body_of(response: Response) -> Option<Self> {
        match response.kind {
            ResponseKind::QueryPublisherSequence(body) => Some(body),
            _ => None,
        }
    }

    open spec fn spec_body_name() -> Seq<char> {
        "rabbitmq_stream_protocol::commands::query_publisher_sequence::QueryPublisherResponse"@
    }

    fn from_response(response: Response) -> (body: Option<Self>) {
        match response.kind {
            ResponseKind::QueryPublisherSequence(body) => Some(body),
            _ => None,
        }
    }

    fn body_name() -> (name: &'static str) {
        "rabbitmq_stream_protocol::commands::query_publisher_sequence::QueryPublisherResponse"
    }
}

impl FromResponse for ExchangeCommandVersionsResponse {
    open spec fn body_of(response: Response) -> Option<Self> {
        match response.kind {
            ResponseKind::ExchangeCommandVersions(body) => Some(body),
            _ => None,
        }
    }

    open spec fn spec_body_name() -> Seq<char> {
        "rabbitmq_stream_protocol::commands::exchange_command_versions::ExchangeCommandVersionsResponse"@
    }

    fn from_response(response: Response) -> (body: Option<Self>) {
        match response.kind {
            ResponseKind::ExchangeCommandVersions(body) => Some(body),
            _ => None,
        }
    }

    fn body_name() -> (name: &'static str) {
        "rabbitmq_stream_protocol::commands::exchange_command_versions::ExchangeCommandVersionsResponse"
    }
}

impl FromResponse for SuperStreamPartitionsResponse {
    open spec fn body_of(response: Response) -> Option<Self> {
        match response.kind {
            ResponseKind::SuperStreamPartitions(body) => Some(body),
            _ => None,
        }
    }

    open spec fn spec_body_name() -> Seq<char> {
        "rabbitmq_stream_protocol::commands::superstream_partitions::SuperStreamPartitionsResponse"@
    }

    fn from_response(response: Response) -> (body: Option<Self>) {
        match response.kind {
            ResponseKind::SuperStreamPartitions(body) => Some(body),
            _ => None,
        }
    }

    fn body_name() -> (name: &'static str) {
        "rabbitmq_stream_protocol::commands::superstream_partitions::SuperStreamPartitionsResponse"
    }
}

impl FromResponse for SuperStreamRouteResponse {
    open spec fn body_of(response: Response) -> Option<Self> {
        match response.kind {
            ResponseKind::SuperStreamRoute(body) => Some(body),
            _ => None,
        }
    }

    open spec fn spec_body_name() -> Seq<char> {
        "rabbitmq_stream_protocol::commands::superstream_route::SuperStreamRouteResponse"@
    }

    fn from_response(response: Response) -> (body: Option<Self>) {
        match response.kind {
            ResponseKind::SuperStreamRoute(body) => Some(body),
            _ => None,
        }
    }

    fn body_name() -> (name: &'static str) {
        "rabbitmq_stream_protocol::commands::superstream_route::SuperStreamRouteResponse"
    }
}

impl GenericResponse {
    /// Returns whether the request succeeded.
    pub fn is_ok(&self) -> (ok: bool)
        ensures
            ok == (self.code == ResponseCode::Success),
    {
        self.code == ResponseCode::Success
    }

    /// Returns the outcome of the request.
    pub fn code(&self) -> (code: ResponseCode)
        ensures
            code == self.code,
    {
        self.code
    }
}

impl OpenResponse {
    /// Returns whether the request succeeded.
    pub fn is_ok(&self) -> (ok: bool)
        ensures
            ok == (self.code == ResponseCode::Success),
    {
        self.code == ResponseCode::Success
    }

    /// Returns the outcome of the request.
    pub fn code(&self) -> (code: ResponseCode)
        ensures
            code == self.code,
    {
        self.code
    }
}

impl QueryOffsetResponse {
    /// Returns whether the request succeeded.
    pub fn is_ok(&self) -> (ok: bool)
        ensures
            ok == (self.code == ResponseCode::Success),
    {
        self.code == ResponseCode::Success
    }

    /// Returns the outcome of the request.
    pub fn code(&self) -> (code: ResponseCode)
        ensures
            code == self.code,
    {
        self.code
    }
}

impl ExchangeCommandVersionsResponse {
    /// Returns whether the request succeeded.
    pub fn is_ok(&self) -> (ok: bool)
        ensures
            ok == (self.code == ResponseCode::Success),
    {
        self.code == ResponseCode::Success
    }

    /// Returns the outcome of the request.
    pub fn code(&self) -> (code: ResponseCode)
        ensures
            code == self.code,
    {
        self.code
    }

    /// Returns the lowest and the highest version of a command that the server takes.
    pub fn key_version(&self, command: u16) -> (versions: (u16, u16))
        ensures
            versions == versions_in(self.commands@, command),
    {
        let mut i: usize = 0;
        assert(self.commands@.skip(0) =~= self.commands@);
        while i < self.commands.len()
            invariant
                i <= self.commands.len(),
                versions_in(self.commands@.skip(i as int), command) == versions_in(
                    self.commands@,
                    command,
                ),
            decreases self.commands.len() - i,
        {
            let listed = self.commands[i];
            if listed.command == command {
                return (listed.min_version, listed.max_version);
            }
            assert(self.commands@.skip(i as int).skip(1) =~= self.commands@.skip(i + 1));
            i = i + 1;
        }
        (1, 1)
    }
}

/// The versions of a command are those of its first entry in the list, wherever it stands, whatever
/// comes after it; without an entry they are the first version.
pub proof fn law_first_listed_versions_count(
    commands: Seq<CommandVersions>,
    command: u16,
    i: int,
)
    requires
        0 <= i <= commands.len(),
        forall|j: int| 0 <= j < i ==> (#[trigger] commands[j]).command != command,
        i < commands.len() ==> commands[i].command == command,
    ensures
        i < commands.len() ==> versions_in(commands, command) == (
            commands[i].min_version,
            commands[i].max_version,
        ),
        i == commands.len() ==> versions_in(commands, command) == (1u16, 1u16),
    decreases commands.len(),
{
    if i > 0 {
        let rest = commands.skip(1);
        assert(commands[0].command != command);
        assert forall|j: int| 0 <= j < i - 1 implies (#[trigger] rest[j]).command != command by {
            assert(rest[j] == commands[j + 1]);
        }
        law_first_listed_versions_count(rest, command, i - 1);
    }
}

/// A body is taken from every response that holds one of its type, unchanged and whatever the
/// correlation identifier is, and from no other response.
pub proof fn law_bodies_are_taken_by_kind(response: Response)
    ensures
        match response.kind {
            ResponseKind::Generic(body) => GenericResponse::body_of(response) == Some(body),
            _ => GenericResponse::body_of(response) is None,
        },
        match response.kind {
            ResponseKind::Open(body) => OpenResponse::body_of(response) == Some(body),
            _ => OpenResponse::body_of(response) is None,
        },
        match response.kind {
            ResponseKind::Close(body) => CloseResponse::body_of(response) == Some(body),
            _ => CloseResponse::body_of(response) is None,
        },
        match response.kind {
            ResponseKind::PeerProperties(body) => PeerPropertiesResponse::body_of(response) == Some(
                body,
            ),
            _ => PeerPropertiesResponse::body_of(response) is None,
        },
        match response.kind {
            ResponseKind::SaslHandshake(body) => SaslHandshakeResponse::body_of(response) == Some(
                body,
            ),
            _ => SaslHandshakeResponse::body_of(response) is None,
        },
        match response.kind {
            ResponseKind::Tunes(body) => TunesCommand::body_of(response) == Some(body),
            _ => TunesCommand::body_of(response) is None,
        },
        match response.kind {
            ResponseKind::Metadata(body) => MetadataResponse::body_of(response) == Some(body),
            _ => MetadataResponse::body_of(response) is None,
        },
        match response.kind {
            ResponseKind::QueryOffset(body) => QueryOffsetResponse::body_of(response) == Some(body),
            _ => QueryOffsetResponse::body_of(response) is None,
        },
        match response.kind {
            ResponseKind::QueryPublisherSequence(body) => QueryPublisherResponse::body_of(response)
                == Some(body),
            _ => QueryPublisherResponse::body_of(response) is None,
        },
        match response.kind {
            ResponseKind::ExchangeCommandVersions(body) => ExchangeCommandVersionsResponse::body_of(
                response,
            ) == Some(body),
            _ => ExchangeCommandVersionsResponse::body_of(response) is None,
        },
        match response.kind {
            ResponseKind::SuperStreamPartitions(body) => SuperStreamPartitionsResponse::body_of(
                response,
            ) == Some(body),
            _ => SuperStreamPartitionsResponse::body_of(response) is None,
        },
        match response.kind {
            ResponseKind::SuperStreamRoute(body) => SuperStreamRouteResponse::body_of(response)
                == Some(body),
            _ => SuperStreamRouteResponse::body_of(response) is None,
        },
{
}

/// The codes in the order of their numbers.
pub open spec fn codes_in_order() -> Seq<ResponseCode> {
    seq![
        ResponseCode::Success,
        ResponseCode::StreamDoesNotExist,
        ResponseCode::SubscriptionIdAlreadyExists,
        ResponseCode::SubscriptionIdDoesNotExist,
        ResponseCode::StreamAlreadyExists,
        ResponseCode::StreamNotAvailable,
        ResponseCode::SaslMechanismNotSupported,
        ResponseCode::AuthenticationFailure,
        ResponseCode::SaslError,
        ResponseCode::SaslChallange,
        ResponseCode::AuthenticationFailureLoopback,
        ResponseCode::VirtualHostAccessFailure,
        ResponseCode::UnknownFrame,
        ResponseCode::FrameTooLarge,
        ResponseCode::InternalError,
        ResponseCode::AccessRefused,
        ResponseCode::PreconditionFailed,
        ResponseCode::PublisherDoesNotExist,
        ResponseCode::OffsetNotFound,
    ]
}

/// The codes are numbered from one on, without gaps: the number of a code is its place in their
/// order, and every number up to nineteen is that of a code.
pub proof fn law_codes_are_numbered_in_order(code: ResponseCode, i: int)
    ensures
        1 <= code.spec_number() <= 19,
        codes_in_order()[code.spec_number() - 1] == code,
        codes_in_order().len() == 19,
        0 <= i < 19 ==> codes_in_order()[i].spec_number() == i + 1,
{
}

/// The data of a message is all of its bytes, and absent data is told apart from empty data.
pub proof fn law_data_is_seen_whole(data: Vec<u8>)
    ensures
        data_view(Some(data)) == Some(data@),
        data_view(None) is None,
{
}

/// The number of a code leads back to the code, whichever it is, and no number leads to two codes;
/// there is no code for other numbers.
pub proof fn law_numbers_lead_back_to_codes(
    code: ResponseCode,
    number: u16,
    found: Option<ResponseCode>,
    other: u16,
    another: Option<ResponseCode>,
)
    requires
        call_ensures(ResponseCode::number, (code,), number),
        call_ensures(ResponseCode::from_number, (number,), found),
        call_ensures(ResponseCode::from_number, (other,), another),
    ensures
        found == Some(code),
        another is Some <==> 1 <= other <= 19,
        another == Some(code) <==> other == number,
{
    law_codes_are_numbered_in_order(code, 0);
}

/// An answer tells success exactly if its code does, and its code as it is.
pub proof fn law_answers_tell_their_code(
    generic: &GenericResponse,
    open: &OpenResponse,
    offset: &QueryOffsetResponse,
    versions: &ExchangeCommandVersionsResponse,
    ok: (bool, bool, bool, bool),
    codes: (ResponseCode, ResponseCode, ResponseCode, ResponseCode),
)
    requires
        call_ensures(GenericResponse::is_ok, (generic,), ok.0),
        call_ensures(OpenResponse::is_ok, (open,), ok.1),
        call_ensures(QueryOffsetResponse::is_ok, (offset,), ok.2),
        call_ensures(ExchangeCommandVersionsResponse::is_ok, (versions,), ok.3),
        call_ensures(GenericResponse::code, (generic,), codes.0),
        call_ensures(OpenResponse::code, (open,), codes.1),
        call_ensures(QueryOffsetResponse::code, (offset,), codes.2),
        call_ensures(ExchangeCommandVersionsResponse::code, (versions,), codes.3),
    ensures
        ok.0 <==> generic.code is Success,
        ok.1 <==> open.code is Success,
        ok.2 <==> offset.code is Success,
        ok.3 <==> versions.code is Success,
        codes.0 == generic.code,
        codes.1 == open.code,
        codes.2 == offset.code,
        codes.3 == versions.code,
{
}

/// The versions that are told of a command are those of its first entry, wherever it stands.
pub proof fn law_key_versions_are_those_listed(
    response: &ExchangeCommandVersionsResponse,
    command: u16,
    versions: (u16, u16),
    i: int,
)
    requires
        call_ensures(ExchangeCommandVersionsResponse::key_version, (response, command), versions),
        0 <= i <= response.commands@.len(),
        forall|j: int| 0 <= j < i ==> (#[trigger] response.commands@[j]).command != command,
        i < response.commands@.len() ==> response.commands@[i].command == command,
    ensures
        i < response.commands@.len() ==> versions.0 == response.commands@[i].min_version
            && versions.1 == response.commands@[i].max_version,
        i == response.commands@.len() ==> versions == (1u16, 1u16),
{
    law_first_listed_versions_count(response.commands@, command, i);
}

/// The data of a message is shown as it is, and a consumer update tells its identifier and whether the
/// consumer is active as the server did.
pub proof fn law_contents_are_shown_as_they_are(
    message: &Message,
    data: Option<&[u8]>,
    update: &ConsumerUpdateCommand,
    id: u32,
    active: u8,
)
    requires
        call_ensures(Message::data, (message,), data),
        call_ensures(ConsumerUpdateCommand::get_correlation_id, (update,), id),
        call_ensures(ConsumerUpdateCommand::is_active, (update,), active),
    ensures
        message.data matches Some(bytes) ==> (data matches Some(shown) && shown@ == bytes@),
        message.data is None ==> data is None,
        id == update.correlation_id,
        active == update.active,
{
}

} // verus!
