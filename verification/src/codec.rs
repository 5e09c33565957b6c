//! The codec: requests become frames, and frames become responses.

use crate::error::{ClientError, DecodeFailure, EncodeFailure};
use crate::frames::{
    appends_with_table, body_fits, fixed_body, frame, frame_head, is_body, law_frame_tells_its_size,
    law_request_carries_its_identifier, message_bytes, oversized, request_fits, request_id,
    request_key, request_table, request_version,
};
use crate::layout::{
    after_part, after_parts, after_text, are_values_shallow, brokers_at, commands_at, content_at, contents_at,
    correlation_at, delivered_at, errors_at, frame_key, frame_walk, is_generic_key, is_readable, is_shallow,
    law_frame_says_the_same, law_frame_stands_alone, lemma_contents_count, lemma_error_codes,
    long_numbers_at, step_frame, streams_at, streams_start, table_at, text_at, texts_at, views, Part,
};
use crate::message::{copied, law_data_is_read_back, message_data, message_walk, read_data};
use crate::properties::{distinct_keys, entry_map, Properties};
use crate::protocol;
use crate::protocol::{bytes_of, code_at};
use crate::request::Request;
use crate::response::{
    data_view, lemma_code_number_injective, BrokerEntry, CloseResponse, CommandVersions,
    ConsumerUpdateCommand, CreditResponse, DeliverCommand, ExchangeCommandVersionsResponse,
    GenericResponse, Message, MetadataResponse, MetadataUpdateCommand, OpenResponse,
    PeerPropertiesResponse, PublishConfirm, PublishErrorResponse, PublishingError,
    QueryOffsetResponse, QueryPublisherResponse, Response, ResponseCode, ResponseKind,
    SaslHandshakeResponse, StreamEntry, SuperStreamPartitionsResponse, SuperStreamRouteResponse,
    TunesCommand,
};
use crate::sizes::fits;
use crate::walk::{utf8_text, Step, Walk};
use crate::wire::{
    be16, be16_at, be32, be32_at, be64_at, is_table, law_numbers_are_read_back, lemma_entries_are_table,
    lemma_sizes, lemma_table_sizes, pairs_of, read16, read32, read64, table,
};
use bytes::BytesMut;
use vstd::prelude::*;
use vstd::utf8::encode_utf8;

verus! {

/// Writes requests to a buffer and reads responses from one.
#[derive(Debug)]
pub struct RabbitMqStreamCodec;

/// The table of a frame: it follows the outcome.
pub open spec fn frame_table(bytes: Seq<u8>) -> Map<Seq<char>, Seq<char>> {
    table_at(bytes, 18, be32_at(bytes, 14), Map::empty())
}

/// The texts of a frame: they follow the outcome.
pub open spec fn frame_texts(bytes: Seq<u8>) -> Seq<Seq<char>> {
    texts_at(bytes, 18, be32_at(bytes, 14))
}

/// Whether the body is that of an answer to a metadata request.
pub open spec fn reads_metadata(body: MetadataResponse, bytes: Seq<u8>) -> bool {
    &&& body.brokers@.map_values(|broker: BrokerEntry| (broker.reference, broker.host@, broker.port))
        == brokers_at(bytes, 16, be32_at(bytes, 12))
    &&& body.stream_metadata@.map_values(
        |stream: StreamEntry|
            (
                stream.stream_name@,
                stream.code.spec_number(),
                stream.leader_reference,
                stream.replicas_references@,
            ),
    ) == streams_at(bytes, streams_start(bytes) + 4, be32_at(bytes, streams_start(bytes)))
}

/// Whether the messages are those with the given sections.
pub open spec fn reads_messages(messages: Seq<Message>, contents: Seq<Seq<u8>>) -> bool {
    &&& messages.len() == contents.len()
    &&& forall|i: int|
        0 <= i < messages.len() ==> (#[trigger] messages[i]).content@ == contents[i] && data_view(
            messages[i].data,
        ) == message_data(contents[i])
}

/// Whether the errors are those of the messages with the given identifiers, with the given numbers of
/// response codes.
pub open spec fn reads_errors(errors: Seq<PublishingError>, listed: Seq<(u64, u16)>) -> bool {
    &&& errors.len() == listed.len()
    &&& forall|i: int|
        0 <= i < errors.len() ==> (#[trigger] errors[i]).publishing_id == listed[i].0
            && errors[i].error_code.spec_number() == listed[i].1
}

/// Whether the body is what the first frame of the bytes says.
pub open spec fn reads_kind(kind: ResponseKind, bytes: Seq<u8>) -> bool {
    let key = frame_key(bytes);
    match kind {
        ResponseKind::Generic(body) => is_generic_key(key) && body.code.spec_number() == code_at(bytes),
        ResponseKind::Open(body) => key == 21 && body.code.spec_number() == code_at(bytes)
            && body.connection_properties@ == (if code_at(bytes) == 1 {
            frame_table(bytes)
        } else {
            Map::empty()
        }),
        ResponseKind::Close(body) => key == 22 && body.ok == (code_at(bytes) == 1),
        ResponseKind::PeerProperties(body) => key == 17 && body.server_properties@ == frame_table(bytes),
        ResponseKind::SaslHandshake(body) => key == 18 && views(body.mechanisms@) == frame_texts(bytes),
        ResponseKind::Tunes(body) => key == 20 && body.max_frame_size == be32_at(bytes, 8)
            && body.heartbeat == be32_at(bytes, 12),
        ResponseKind::Heartbeat => key == 23,
        ResponseKind::Metadata(body) => key == 15 && reads_metadata(body, bytes),
        ResponseKind::QueryOffset(body) => key == 11 && body.code.spec_number() == code_at(bytes)
            && body.offset == be64_at(bytes, 14),
        ResponseKind::QueryPublisherSequence(body) => key == 5 && body.sequence == be64_at(bytes, 14),
        ResponseKind::ExchangeCommandVersions(body) => key == 27 && body.code.spec_number() == code_at(
            bytes,
        ) && body.commands@ == commands_at(bytes, 18, be32_at(bytes, 14)),
        ResponseKind::SuperStreamPartitions(body) => key == 25 && body.ok == (code_at(bytes) == 1)
            && views(body.streams@) == frame_texts(bytes),
        ResponseKind::SuperStreamRoute(body) => key == 24 && body.ok == (code_at(bytes) == 1) && views(
            body.streams@,
        ) == frame_texts(bytes),
        ResponseKind::Deliver(body) => key == 8 && body.subscription_id == bytes[8]
            && body.chunk_first_offset == be64_at(bytes, 33) && reads_messages(
            body.messages@,
            delivered_at(bytes),
        ),
        ResponseKind::PublishConfirm(body) => key == 3 && body.publisher_id == bytes[8]
            && body.publishing_ids@ == long_numbers_at(bytes, 13, be32_at(bytes, 9)),
        ResponseKind::PublishError(body) => key == 4 && body.publisher_id == bytes[8] && reads_errors(
            body.publishing_errors@,
            errors_at(bytes, 13, be32_at(bytes, 9)),
        ),
        ResponseKind::Credit(body) => key == 9 && body.code.spec_number() == be16_at(bytes, 8)
            && body.subscription_id == bytes[10],
        ResponseKind::MetadataUpdate(body) => key == 16 && body.code.spec_number() == be16_at(bytes, 8)
            && body.stream@ == text_at(bytes, 10),
        ResponseKind::ConsumerUpdate(body) => key == 26 && body.correlation_id == be32_at(bytes, 8)
            && body.subscription_id == bytes[12] && body.active == bytes[13],
    }
}

/// Whether the response is what the first frame of the bytes says.
pub open spec fn reads(response: Response, bytes: Seq<u8>) -> bool {
    response.correlation_id == correlation_at(bytes) && reads_kind(response.kind, bytes)
}

/// What reading the first frame of the bytes comes to: the number of bytes after the frame and the
/// response, or why there is none.
spec fn is_outcome(bytes: Seq<u8>, outcome: Result<(usize, Response), DecodeFailure>) -> bool {
    match frame_walk(bytes) {
        Walk::At(end) => match outcome {
            Ok((rest, response)) => rest == bytes.len() - end && rest <= bytes.len() && reads(
                response,
                bytes,
            ),
            Err(_) => false,
        },
        Walk::Short => outcome matches Err(failure) && failure is Incomplete,
        Walk::Bad(why) => outcome matches Err(failure) && why.leads_to(failure),
        Walk::Outside => false,
    }
}

/// What the bytes that have arrived come to.
pub open spec fn is_decoded(
    before: Seq<u8>,
    after: Seq<u8>,
    result: Result<Option<Response>, ClientError>,
) -> bool {
    match frame_walk(before) {
        Walk::At(end) => match result {
            Ok(Some(response)) => reads(response, before) && after == before.skip(end),
            _ => false,
        },
        Walk::Short => result == Ok::<Option<Response>, ClientError>(None) && after == before,
        Walk::Bad(why) => match result {
            Err(ClientError::Decode(failure)) => why.leads_to(failure) && after == before,
            _ => false,
        },
        Walk::Outside => false,
    }
}

/// Returns the code with the given number.
fn known_code(number: u16) -> (code: ResponseCode)
    requires
        1 <= number <= 19,
    ensures
        code.spec_number() == number,
{
    ResponseCode::from_number(number).unwrap()
}

/// Returns the body of an answer to a metadata request.
fn read_metadata(bytes: &[u8]) -> (body: MetadataResponse)
    requires
        protocol::is_frame_of(bytes@, 15),
    ensures
        reads_metadata(body, bytes@),
{
    let listed_brokers = protocol::brokers_of_metadata(bytes).unwrap();
    let mut brokers: Vec<BrokerEntry> = Vec::new();
    let mut i: usize = 0;
    while i < listed_brokers.len()
        invariant
            i <= listed_brokers.len(),
            brokers.len() == i,
            forall|j: int|
                0 <= j < i ==> (#[trigger] brokers@[j]).reference == listed_brokers@[j].0
                    && brokers@[j].host@ == listed_brokers@[j].1@ && brokers@[j].port == listed_brokers@[j].2,
        decreases listed_brokers.len() - i,
    {
        let reference: u16 = listed_brokers[i].0;
        let host = listed_brokers[i].1.clone();
        let port: u32 = listed_brokers[i].2;
        brokers.push(BrokerEntry { reference, host, port });
        i = i + 1;
    }
    assert(brokers@.map_values(|broker: BrokerEntry| (broker.reference, broker.host@, broker.port))
        =~= brokers_at(bytes@, 16, be32_at(bytes@, 12)));
    let listed_streams = protocol::streams_of_metadata(bytes).unwrap();
    let mut streams: Vec<StreamEntry> = Vec::new();
    let mut k: usize = 0;
    while k < listed_streams.len()
        invariant
            k <= listed_streams.len(),
            streams.len() == k,
            forall|j: int|
                0 <= j < listed_streams.len() ==> 1 <= (#[trigger] listed_streams@[j]).1 <= 19,
            forall|j: int|
                0 <= j < k ==> (#[trigger] streams@[j]).stream_name@ == listed_streams@[j].0@
                    && streams@[j].code.spec_number() == listed_streams@[j].1
                    && streams@[j].leader_reference == listed_streams@[j].2
                    && streams@[j].replicas_references@ == listed_streams@[j].3@,
        decreases listed_streams.len() - k,
    {
        let stream_name = listed_streams[k].0.clone();
        let code = known_code(listed_streams[k].1);
        let leader_reference: u16 = listed_streams[k].2;
        let replicas_references = listed_streams[k].3.clone();
        assert(replicas_references@ =~= listed_streams@[k as int].3@);
        streams.push(StreamEntry { stream_name, code, leader_reference, replicas_references });
        k = k + 1;
    }
    assert(streams@.map_values(
        |stream: StreamEntry|
            (
                stream.stream_name@,
                stream.code.spec_number(),
                stream.leader_reference,
                stream.replicas_references@,
            ),
    ) =~= streams_at(bytes@, streams_start(bytes@) + 4, be32_at(bytes@, streams_start(bytes@))));
    MetadataResponse { brokers, stream_metadata: streams }
}

/// Returns the versions of commands that the first frame of the bytes lists.
fn read_commands(bytes: &[u8]) -> (commands: Vec<CommandVersions>)
    requires
        protocol::is_frame_of(bytes@, 27),
    ensures
        commands@ == commands_at(bytes@, 18, be32_at(bytes@, 14)),
{
    assert(bytes.len() == bytes@.len());
    let count: u32 = read32(bytes, 14);
    let mut commands: Vec<CommandVersions> = Vec::new();
    let mut here: usize = 18;
    while (commands.len() as u64) < count as u64
        invariant
            bytes.len() == bytes@.len(),
            18 + 6 * count <= bytes@.len(),
            commands@.len() <= count,
            here == 18 + 6 * commands@.len(),
            commands@ == commands_at(bytes@, 18, commands@.len() as int),
        decreases count - commands@.len(),
    {
        let ghost before = commands@.len() as int;
        commands.push(
            CommandVersions {
                command: read16(bytes, here),
                min_version: read16(bytes, here + 2),
                max_version: read16(bytes, here + 4),
            },
        );
        here = here + 6;
        assert(commands@ =~= commands_at(bytes@, 18, before + 1));
    }
    commands
}

/// Returns the body of a frame with publishing errors.
fn read_publish_error(bytes: &[u8]) -> (body: PublishErrorResponse)
    requires
        protocol::is_frame_of(bytes@, 4),
    ensures
        body.publisher_id == bytes@[8],
        reads_errors(body.publishing_errors@, errors_at(bytes@, 13, be32_at(bytes@, 9))),
{
    let (publisher_id, listed) = protocol::publish_error_of(bytes).unwrap();
    proof {
        lemma_error_codes(bytes@);
    }
    let mut publishing_errors: Vec<PublishingError> = Vec::new();
    let mut i: usize = 0;
    while i < listed.len()
        invariant
            i <= listed.len(),
            publishing_errors@.len() == i,
            forall|j: int| 0 <= j < listed@.len() ==> 1 <= (#[trigger] listed@[j]).1 <= 19,
            forall|j: int|
                0 <= j < i ==> (#[trigger] publishing_errors@[j]).publishing_id == listed@[j].0
                    && publishing_errors@[j].error_code.spec_number() == listed@[j].1,
        decreases listed.len() - i,
    {
        let publishing_id: u64 = listed[i].0;
        let error_code = known_code(listed[i].1);
        publishing_errors.push(PublishingError { publishing_id, error_code });
        i = i + 1;
    }
    PublishErrorResponse { publisher_id, publishing_errors }
}

/// The next of several messages, and those after it.
proof fn lemma_next_content(bytes: Seq<u8>, at: int, count: int)
    requires
        0 <= at <= bytes.len(),
        0 < count,
        after_parts(bytes, Walk::At(at), count, Part::Message) is At,
    ensures
        at + 4 + be32_at(bytes, at) <= bytes.len(),
        message_walk(content_at(bytes, at)) is At,
        after_parts(
            bytes,
            Walk::At(at + 4 + be32_at(bytes, at)),
            count - 1,
            Part::Message,
        ) is At,
        contents_at(bytes, at, count)[0] == content_at(bytes, at),
        contents_at(bytes, at, count).skip(1) == contents_at(
            bytes,
            at + 4 + be32_at(bytes, at),
            count - 1,
        ),
{
    let next = after_part(bytes, at, Part::Message);
    if !(next is At) {
        assert(after_parts(bytes, next, count - 1, Part::Message) == next);
    }
    assert(contents_at(bytes, at, count).skip(1) =~= contents_at(
        bytes,
        at + 4 + be32_at(bytes, at),
        count - 1,
    ));
}

/// Returns the body of a delivery.
#[verifier::spinoff_prover]
fn read_delivery(bytes: &[u8]) -> (body: DeliverCommand)
    requires
        protocol::is_frame_of(bytes@, 8),
        is_shallow(bytes@),
    ensures
        body.subscription_id == bytes@[8],
        body.chunk_first_offset == be64_at(bytes@, 33),
        reads_messages(body.messages@, delivered_at(bytes@)),
{
    assert(bytes.len() == bytes@.len());
    let (subscription_id, chunk_first_offset, listed) = protocol::deliver_of(bytes).unwrap();
    let ghost all = listed@;
    let count: u32 = read32(bytes, 13);
    let mut messages: Vec<Message> = Vec::new();
    let mut here: usize = 57;
    proof {
        lemma_contents_count(bytes@, 57, count as int);
    }
    for data in iter: listed
        invariant
            iter.seq() == all,
            bytes.len() == bytes@.len(),
            here <= bytes@.len(),
            all.len() == count,
            count == delivered_at(bytes@).len(),
            messages@.len() == iter.index(),
            after_parts(
                bytes@,
                Walk::At(here as int),
                count - messages@.len(),
                Part::Message,
            ) is At,
            delivered_at(bytes@).skip(messages@.len() as int) == contents_at(
                bytes@,
                here as int,
                count - messages@.len(),
            ),
            forall|i: int|
                0 <= i < all.len() ==> data_view(#[trigger] all[i]) == message_data(
                    delivered_at(bytes@)[i],
                ),
            forall|i: int|
                0 <= i < messages@.len() ==> (#[trigger] messages@[i]).content@ == delivered_at(
                    bytes@,
                )[i] && data_view(messages@[i].data) == message_data(delivered_at(bytes@)[i]),
    {
        let ghost done = messages@.len() as int;
        let ghost contents = delivered_at(bytes@);
        let ghost rest = contents_at(bytes@, here as int, count - done);
        proof {
            lemma_next_content(bytes@, here as int, count - done);
            assert(contents.skip(done)[0] == rest[0]);
            assert(contents.skip(done + 1) =~= rest.skip(1));
        }
        let end: usize = here + 4 + read32(bytes, here) as usize;
        let content = copied(bytes, here + 4, end);
        messages.push(Message { content, data });
        here = end;
    }
    DeliverCommand { subscription_id, chunk_first_offset, messages }
}

/// Returns the body of a delivery, whose messages are read here and not by the protocol crate.
#[verifier::spinoff_prover]
fn read_deep_delivery(bytes: &[u8]) -> (body: DeliverCommand)
    requires
        protocol::is_frame_of(bytes@, 8),
    ensures
        body.subscription_id == bytes@[8],
        body.chunk_first_offset == be64_at(bytes@, 33),
        reads_messages(body.messages@, delivered_at(bytes@)),
{
    assert(bytes.len() == bytes@.len());
    let count: u32 = read32(bytes, 13);
    let ghost contents = delivered_at(bytes@);
    let mut messages: Vec<Message> = Vec::new();
    let mut here: usize = 57;
    let mut left: u32 = count;
    proof {
        lemma_contents_count(bytes@, 57, count as int);
        assert(contents.skip(0) =~= contents);
    }
    while left > 0
        invariant
            bytes.len() == bytes@.len(),
            here <= bytes@.len(),
            left <= count,
            count == contents.len(),
            messages@.len() == count - left,
            after_parts(bytes@, Walk::At(here as int), left as int, Part::Message) is At,
            contents.skip(count - left) == contents_at(bytes@, here as int, left as int),
            forall|i: int|
                0 <= i < messages@.len() ==> (#[trigger] messages@[i]).content@ == contents[i]
                    && data_view(messages@[i].data) == message_data(contents[i]),
        decreases left,
    {
        proof {
            lemma_next_content(bytes@, here as int, left as int);
            let rest = contents_at(bytes@, here as int, left as int);
            assert(contents.skip(count - left)[0] == rest[0]);
            assert(contents.skip(count - left + 1) =~= rest.skip(1));
        }
        let end: usize = here + 4 + read32(bytes, here) as usize;
        let content = copied(bytes, here + 4, end);
        let data = read_data(content.as_slice());
        messages.push(Message { content, data });
        here = end;
        left = left - 1;
    }
    DeliverCommand { subscription_id: bytes[8], chunk_first_offset: read64(bytes, 33), messages }
}

/// Returns what a delivery says in whose messages values are nested deeply, and how many bytes
/// follow it.
#[verifier::spinoff_prover]
fn read_deep_response(bytes: &[u8]) -> (outcome: Result<(usize, Response), DecodeFailure>)
    requires
        !(frame_walk(bytes@) is Outside),
        !is_shallow(bytes@),
    ensures
        is_outcome(bytes@, outcome),
{
    assert(bytes.len() == bytes@.len());
    match step_frame(bytes) {
        Step::At(end) => {
            let kind = ResponseKind::Deliver(read_deep_delivery(bytes));
            Ok((bytes.len() - end, Response { correlation_id: None, kind }))
        },
        Step::Short => Err(DecodeFailure::Incomplete(1)),
        Step::Bad(why) => Err(why.failure()),
        Step::Outside => Err(DecodeFailure::Empty),
    }
}

/// Returns the text at position `at`.
fn read_text(bytes: &[u8], at: usize) -> (content: String)
    requires
        after_text(bytes@, Walk::At(at as int)) is At,
    ensures
        content@ == text_at(bytes@, at as int),
{
    assert(bytes.len() == bytes@.len());
    let end: usize = at + 2 + read16(bytes, at) as usize;
    utf8_text(vstd::slice::slice_subrange(bytes, at + 2, end)).unwrap().to_owned()
}

/// Returns the body of a change of metadata.
fn read_metadata_update(bytes: &[u8]) -> (body: MetadataUpdateCommand)
    requires
        protocol::is_frame_of(bytes@, 16),
    ensures
        body.code.spec_number() == be16_at(bytes@, 8),
        body.stream@ == text_at(bytes@, 10),
{
    MetadataUpdateCommand { code: known_code(read16(bytes, 8)), stream: read_text(bytes, 10) }
}

/// Returns the body of the first frame of the bytes.
fn read_kind(bytes: &[u8]) -> (kind: ResponseKind)
    requires
        frame_walk(bytes@) is At,
        is_shallow(bytes@),
    ensures
        reads_kind(kind, bytes@),
{
    proof {
        law_frame_stands_alone(bytes@, Seq::empty());
    }
    let key: u16 = read16(bytes, 4) % 0x8000;
    match key {
        5 => {
            let sequence: u64 = protocol::query_publisher_of(bytes).unwrap();
            ResponseKind::QueryPublisherSequence(QueryPublisherResponse { sequence })
        },
        11 => {
            let (code, offset) = protocol::query_offset_of(bytes).unwrap();
            ResponseKind::QueryOffset(QueryOffsetResponse { code: known_code(code), offset })
        },
        15 => ResponseKind::Metadata(read_metadata(bytes)),
        17 => {
            let entries = protocol::peer_properties_of(bytes).unwrap();
            let server_properties = Properties::from_distinct(entries);
            ResponseKind::PeerProperties(PeerPropertiesResponse { server_properties })
        },
        18 => {
            let mechanisms = protocol::sasl_handshake_of(bytes).unwrap();
            ResponseKind::SaslHandshake(SaslHandshakeResponse { mechanisms })
        },
        20 => {
            let (max_frame_size, heartbeat) = protocol::tunes_of(bytes).unwrap();
            ResponseKind::Tunes(TunesCommand { max_frame_size, heartbeat })
        },
        21 => {
            let (code, entries) = protocol::open_of(bytes).unwrap();
            let connection_properties = Properties::from_distinct(entries);
            ResponseKind::Open(OpenResponse { code: known_code(code), connection_properties })
        },
        22 => {
            let ok = protocol::close_of(bytes).unwrap();
            ResponseKind::Close(CloseResponse { ok })
        },
        23 => ResponseKind::Heartbeat,
        24 => {
            let (ok, streams) = protocol::route_of(bytes).unwrap();
            ResponseKind::SuperStreamRoute(SuperStreamRouteResponse { ok, streams })
        },
        25 => {
            let (ok, streams) = protocol::partitions_of(bytes).unwrap();
            ResponseKind::SuperStreamPartitions(SuperStreamPartitionsResponse { ok, streams })
        },
        27 => {
            let code: u16 = protocol::versions_of(bytes).unwrap();
            let commands = read_commands(bytes);
            ResponseKind::ExchangeCommandVersions(
                ExchangeCommandVersionsResponse { code: known_code(code), commands },
            )
        },
        3 => {
            let (publisher_id, publishing_ids) = protocol::confirm_of(bytes).unwrap();
            ResponseKind::PublishConfirm(PublishConfirm { publisher_id, publishing_ids })
        },
        4 => ResponseKind::PublishError(read_publish_error(bytes)),
        8 => ResponseKind::Deliver(read_delivery(bytes)),
        9 => {
            let code = known_code(read16(bytes, 8));
            ResponseKind::Credit(CreditResponse { code, subscription_id: bytes[10] })
        },
        16 => ResponseKind::MetadataUpdate(read_metadata_update(bytes)),
        26 => {
            let (correlation_id, active) = protocol::consumer_update_of(bytes).unwrap();
            ResponseKind::ConsumerUpdate(
                ConsumerUpdateCommand { correlation_id, subscription_id: bytes[12], active },
            )
        },
        _ => {
            let code: u16 = protocol::generic_of(bytes).unwrap();
            ResponseKind::Generic(GenericResponse { code: known_code(code) })
        },
    }
}

/// Returns what the first frame of the bytes says, and how many bytes follow it.
#[verifier::spinoff_prover]
fn read_response(bytes: &[u8]) -> (outcome: Result<(usize, Response), DecodeFailure>)
    requires
        !(frame_walk(bytes@) is Outside),
    ensures
        is_outcome(bytes@, outcome),
{
    assert(bytes.len() == bytes@.len());
    if !are_values_shallow(bytes) {
        return read_deep_response(bytes);
    }
    match protocol::decode_response(bytes) {
        Err(failure) => Err(failure),
        Ok((rest, correlation_id)) => {
            proof {
                law_frame_stands_alone(bytes@, Seq::empty());
            }
            let kind = read_kind(bytes);
            Ok((rest, Response { correlation_id, kind }))
        },
    }
}

/// Returns how many bytes a buffer holds.
pub fn buffered_len(buf: &BytesMut) -> (len: usize)
    ensures
        len == bytes_of(*buf).len(),
{
    protocol::buffered(buf).len()
}

/// What becomes of a request that is written to a buffer.
#[verifier::opaque]
pub open spec fn is_encoded(
    request: Request,
    before: Seq<u8>,
    after: Seq<u8>,
    result: Result<(), ClientError>,
) -> bool {
    match oversized(request) {
        Some(size) => result == Err::<(), ClientError>(
            ClientError::Encode(EncodeFailure::MaxSizeError(size)),
        ) && after == before + frame_head(
            request_key(request),
            request_version(request),
            fixed_body(request).len(),
        ),
        None => result is Ok && exists|body: Seq<u8>| #[trigger]
            is_body(request, body) && after == before + frame(
                request_key(request),
                request_version(request),
                body,
            ),
    }
}

proof fn lemma_plain_fits(buffered: nat, request: Request)
    requires
        request_fits(buffered, request),
        request_table(request) is None,
    ensures
        body_fits(buffered, fixed_body(request).len()),
{
    reveal(is_body);
    assert(is_body(request, fixed_body(request)));
}

proof fn lemma_plain_encoded(request: Request, before: Seq<u8>, after: Seq<u8>)
    requires
        request_table(request) is None,
        oversized(request) is None,
        after == before + frame(
            request_key(request),
            request_version(request),
            fixed_body(request),
        ),
    ensures
        is_encoded(request, before, after, Ok(())),
{
    reveal(is_body);
    reveal(is_encoded);
    assert(is_body(request, fixed_body(request)));
}

proof fn lemma_body_with_table(request: Request, map: Map<Seq<char>, Seq<char>>, bytes: Seq<u8>)
    requires
        request_table(request) == Some(map),
        is_table(map, bytes),
    ensures
        is_body(request, fixed_body(request) + bytes),
{
    reveal(is_body);
    assert(is_table(request_table(request)->0, bytes));
}

proof fn lemma_table_fits(buffered: nat, request: Request, entries: Seq<(String, String)>)
    requires
        request_fits(buffered, request),
        distinct_keys(entries),
        request_table(request) == Some(entry_map(entries)),
    ensures
        body_fits(buffered, (fixed_body(request) + table(pairs_of(entries))).len()),
{
    lemma_entries_are_table(entries);
    lemma_body_with_table(request, entry_map(entries), table(pairs_of(entries)));
}

proof fn lemma_table_encoded(
    request: Request,
    before: Seq<u8>,
    after: Seq<u8>,
    entries: Seq<(String, String)>,
)
    requires
        request_table(request) == Some(entry_map(entries)),
        oversized(request) is None,
        appends_with_table(
            before,
            after,
            request_key(request),
            fixed_body(request),
            entry_map(entries),
        ),
    ensures
        is_encoded(request, before, after, Ok(())),
{
    reveal(is_encoded);
    let map = entry_map(entries);
    let bytes = choose|bytes: Seq<u8>| #[trigger]
        is_table(map, bytes) && after == before + frame(
            request_key(request),
            1,
            fixed_body(request) + bytes,
        );
    lemma_body_with_table(request, map, bytes);
}

impl RabbitMqStreamCodec {
    /// Appends the frame of a request to a buffer. A request with a reference of more than 255
    /// bytes is refused, once the head of its frame is written.
    pub fn encode(&mut self, req: Request, buf: &mut BytesMut) -> (result: Result<(), ClientError>)
        requires
            request_fits(bytes_of(*old(buf)).len(), req),
        ensures
            is_encoded(req, bytes_of(*old(buf)), bytes_of(*final(buf)), result),
    {
        let ghost before = bytes_of(*buf);
        let ghost buffered = before.len();
        proof {
            reveal(fixed_body);
            if request_table(req) is None {
                lemma_plain_fits(buffered, req);
            }
        }
        match req {
            Request::PeerProperties { correlation_id, client_properties } => {
                let entries = client_properties.to_entries();
                proof {
                    lemma_table_fits(buffered, req, entries@);
                }
                protocol::put_peer_properties(buf, correlation_id, entries);
                proof {
                    lemma_table_encoded(req, before, bytes_of(*buf), entries@);
                }
            },
            Request::SaslHandshake { correlation_id } => protocol::put_sasl_handshake(
                buf,
                correlation_id,
            ),
            Request::SaslAuthenticate { correlation_id, mechanism, sasl_data } => {
                protocol::put_sasl_authenticate(buf, correlation_id, mechanism, sasl_data)
            },
            Request::Tunes { max_frame_size, heartbeat } => protocol::put_tunes(
                buf,
                max_frame_size,
                heartbeat,
            ),
            Request::Open { correlation_id, virtual_host } => protocol::put_open(
                buf,
                correlation_id,
                virtual_host,
            ),
            Request::Close { correlation_id, closing_code, closing_reason } => protocol::put_close(
                buf,
                correlation_id,
                closing_code.number(),
                closing_reason,
            ),
            Request::Delete { correlation_id, stream } => protocol::put_delete(
                buf,
                correlation_id,
                stream,
            ),
            Request::CreateStream { correlation_id, stream, arguments } => {
                let entries = arguments.to_entries();
                proof {
                    lemma_table_fits(buffered, req, entries@);
                }
                protocol::put_create_stream(buf, correlation_id, stream, entries);
                proof {
                    lemma_table_encoded(req, before, bytes_of(*buf), entries@);
                }
            },
            Request::Subscribe {
                correlation_id,
                subscription_id,
                stream,
                offset_specification,
                credit,
                properties,
            } => {
                let entries = properties.to_entries();
                proof {
                    lemma_table_fits(buffered, req, entries@);
                }
                protocol::put_subscribe(
                    buf,
                    correlation_id,
                    subscription_id,
                    stream,
                    offset_specification,
                    credit,
                    entries,
                );
                proof {
                    lemma_table_encoded(req, before, bytes_of(*buf), entries@);
                }
            },
            Request::Credit { subscription_id, credit } => protocol::put_credit(
                buf,
                subscription_id,
                credit,
            ),
            Request::Metadata { correlation_id, streams } => protocol::put_metadata(
                buf,
                correlation_id,
                streams,
            ),
            Request::DeclarePublisher {
                correlation_id,
                publisher_id,
                publisher_reference,
                stream,
            } => protocol::put_declare_publisher(
                buf,
                correlation_id,
                publisher_id,
                publisher_reference,
                stream,
            ),
            Request::DeletePublisher { correlation_id, publisher_id } => {
                protocol::put_delete_publisher(buf, correlation_id, publisher_id)
            },
            Request::Heartbeat => protocol::put_heartbeat(buf),
            Request::QueryOffset { correlation_id, reference, stream } => {
                if let Some(size) = protocol::put_query_offset(
                    buf,
                    correlation_id,
                    reference,
                    stream,
                ) {
                    proof {
                        reveal(is_encoded);
                    }
                    return Err(ClientError::Encode(EncodeFailure::MaxSizeError(size)));
                }
            },
            Request::QueryPublisherSequence { correlation_id, reference, stream } => {
                if let Some(size) = protocol::put_query_publisher_sequence(
                    buf,
                    correlation_id,
                    reference,
                    stream,
                ) {
                    proof {
                        reveal(is_encoded);
                    }
                    return Err(ClientError::Encode(EncodeFailure::MaxSizeError(size)));
                }
            },
            Request::StoreOffset { reference, stream, offset } => {
                if let Some(size) = protocol::put_store_offset(buf, reference, stream, offset) {
                    proof {
                        reveal(is_encoded);
                    }
                    return Err(ClientError::Encode(EncodeFailure::MaxSizeError(size)));
                }
            },
            Request::Unsubscribe { correlation_id, subscription_id } => protocol::put_unsubscribe(
                buf,
                correlation_id,
                subscription_id,
            ),
            Request::ExchangeCommandVersions { correlation_id } => {
                protocol::put_exchange_command_versions(buf, correlation_id)
            },
            Request::CreateSuperStream {
                correlation_id,
                super_stream,
                partitions,
                binding_keys,
                arguments,
            } => {
                let entries = arguments.to_entries();
                proof {
                    lemma_table_fits(buffered, req, entries@);
                }
                protocol::put_create_super_stream(
                    buf,
                    correlation_id,
                    super_stream,
                    partitions,
                    binding_keys,
                    entries,
                );
                proof {
                    lemma_table_encoded(req, before, bytes_of(*buf), entries@);
                }
            },
            Request::DeleteSuperStream { correlation_id, super_stream } => {
                protocol::put_delete_super_stream(buf, correlation_id, super_stream)
            },
            Request::SuperStreamPartitions { correlation_id, super_stream } => {
                protocol::put_super_stream_partitions(buf, correlation_id, super_stream)
            },
            Request::SuperStreamRoute { correlation_id, routing_key, super_stream } => {
                protocol::put_super_stream_route(buf, correlation_id, routing_key, super_stream)
            },
            Request::ConsumerUpdateRequest {
                correlation_id,
                response_code,
                offset_specification,
            } => protocol::put_consumer_update_request(
                buf,
                correlation_id,
                response_code,
                offset_specification,
            ),
            Request::Publish { publisher_id, messages, version } => protocol::put_publish(
                buf,
                publisher_id,
                messages,
                version,
            ),
        }
        proof {
            if request_table(req) is None {
                lemma_plain_encoded(req, before, bytes_of(*buf));
            }
        }
        Ok(())
    }

    /// Appends the frame of a request to a buffer, if it fits; leaves the buffer as it is, if not.
    pub fn checked_encode(&mut self, req: Request, buf: &mut BytesMut) -> (result: Option<
        Result<(), ClientError>,
    >)
        ensures
            result is Some <==> request_fits(bytes_of(*old(buf)).len(), req),
            match result {
                Some(written) => is_encoded(req, bytes_of(*old(buf)), bytes_of(*final(buf)), written),
                None => *final(buf) == *old(buf),
            },
    {
        let buffered: usize = buffered_len(buf);
        if !fits(&req, buffered) {
            return None;
        }
        Some(self.encode(req, buf))
    }

    /// Takes what reading the first frame of a buffer came to: the number of bytes after the
    /// frame and the response, or why there is none. A frame is taken off the buffer; an
    /// incomplete one stays there until more bytes have arrived.
    pub fn settle(
        &mut self,
        outcome: Result<(usize, Response), DecodeFailure>,
        buf: &mut BytesMut,
    ) -> (result: Result<Option<Response>, ClientError>)
        requires
            outcome matches Ok((rest, response)) ==> rest <= bytes_of(*old(buf)).len(),
        ensures
            match outcome {
                Ok((rest, response)) => result == Ok::<Option<Response>, ClientError>(Some(response))
                    && bytes_of(*final(buf)) == bytes_of(*old(buf)).skip(
                    bytes_of(*old(buf)).len() - rest,
                ),
                Err(
                    DecodeFailure::Incomplete(_),
                ) => result == Ok::<Option<Response>, ClientError>(None)
                    && *final(buf) == *old(buf),
                Err(failure) => result == Err::<Option<Response>, ClientError>(
                    ClientError::Decode(failure),
                ) && *final(buf) == *old(buf),
            },
    {
        match outcome {
            Ok((rest, response)) => {
                let held: usize = buffered_len(buf);
                protocol::advance(buf, held - rest);
                Ok(Some(response))
            },
            Err(DecodeFailure::Incomplete(_)) => Ok(None),
            Err(failure) => Err(ClientError::Decode(failure)),
        }
    }

    /// Takes the first frame off a buffer; there is none as long as it is incomplete.
    pub fn decode(&mut self, buf: &mut BytesMut) -> (result: Result<Option<Response>, ClientError>)
        requires
            !(frame_walk(bytes_of(*old(buf))) is Outside),
        ensures
            is_decoded(bytes_of(*old(buf)), bytes_of(*final(buf)), result),
    {
        let outcome = read_response(protocol::buffered(buf));
        self.settle(outcome, buf)
    }

    /// Takes the first frame off a buffer, if every part of it can be followed; leaves the buffer
    /// as it is, if not.
    pub fn checked_decode(&mut self, buf: &mut BytesMut) -> (result: Option<
        Result<Option<Response>, ClientError>,
    >)
        ensures
            result is None <==> frame_walk(bytes_of(*old(buf))) is Outside,
            match result {
                Some(read) => is_decoded(bytes_of(*old(buf)), bytes_of(*final(buf)), read),
                None => *final(buf) == *old(buf),
            },
    {
        if !is_readable(protocol::buffered(buf)) {
            return None;
        }
        Some(self.decode(buf))
    }
}

/// A response is what the first frame says, whatever follows it.
#[verifier::spinoff_prover]
pub proof fn law_response_stands_alone(response: Response, bytes: Seq<u8>, more: Seq<u8>)
    requires
        frame_walk(bytes) is At,
    ensures
        reads(response, bytes + more) == reads(response, bytes),
{
    law_frame_stands_alone(bytes, more);
    law_frame_says_the_same(bytes, more);
}

/// The answer of a server to a request that has only an outcome: the key of the request with its
/// highest bit set, the identifier of the request and a response code.
pub open spec fn outcome_frame(key: u16, id: u32, code: ResponseCode) -> Seq<u8> {
    be32(10) + be16(key + 0x8000) + be16(1) + be32(id as int) + be16(code.spec_number() as int)
}

proof fn lemma_outcome_numbers(key: u16, id: u32, code: ResponseCode)
    requires
        key < 0x8000,
    ensures
        outcome_frame(key, id, code).len() == 14,
        frame_key(outcome_frame(key, id, code)) == key,
        be32_at(outcome_frame(key, id, code), 8) == id,
        be16_at(outcome_frame(key, id, code), 12) == code.spec_number(),
{
    let bytes = outcome_frame(key, id, code);
    let number = code.spec_number();
    lemma_sizes();
    let size = be32(10);
    let marked = be16(key + 0x8000);
    let version = be16(1);
    let identifier = be32(id as int);
    let outcome = be16(number as int);
    assert(bytes =~= size + marked + (version + identifier + outcome));
    assert(bytes =~= (size + marked + version) + identifier + outcome);
    assert(bytes =~= (size + marked + version + identifier) + outcome + Seq::<u8>::empty());
    law_numbers_are_read_back(size, (key + 0x8000) as u64, version + identifier + outcome);
    law_numbers_are_read_back(size + marked + version, id as u64, outcome);
    law_numbers_are_read_back(size + marked + version + identifier, number as u64, Seq::empty());
    assert(be16_at(bytes, 4) == key + 0x8000);
}

/// The answer to a request that has only an outcome is read as such: it is complete, and carries
/// the identifier of the request and the response code.
#[verifier::spinoff_prover]
pub proof fn law_outcome_is_read(key: u16, id: u32, code: ResponseCode, response: Response)
    requires
        is_generic_key(key as int),
    ensures
        frame_walk(outcome_frame(key, id, code)) == Walk::At(14),
        reads(response, outcome_frame(key, id, code)) <==> response.correlation_id == Some(id)
            && response.kind == ResponseKind::Generic(GenericResponse { code }),
{
    lemma_outcome_numbers(key, id, code);
    if let ResponseKind::Generic(body) = response.kind {
        if body.code.spec_number() == code.spec_number() {
            lemma_code_number_injective(body.code, code);
        }
    }
}

/// Messages that hold data, each after its size.
pub open spec fn joined_data(list: Seq<Seq<u8>>) -> Seq<u8>
    decreases list.len(),
{
    if list.len() == 0 {
        Seq::empty()
    } else {
        be32(message_bytes(list[0]).len() as int) + message_bytes(list[0]) + joined_data(list.skip(1))
    }
}

/// Whether the bytes are those of a delivery of messages that hold the given data. Between the
/// subscription, the number of messages and the offset of the first one, and before the messages,
/// stands what is not looked at.
pub open spec fn is_delivery(
    bytes: Seq<u8>,
    subscription: u8,
    offset: u64,
    list: Seq<Seq<u8>>,
) -> bool {
    &&& bytes.len() >= 57
    &&& frame_key(bytes) == 8
    &&& bytes[8] == subscription
    &&& be32_at(bytes, 13) == list.len()
    &&& be64_at(bytes, 33) == offset
    &&& bytes.skip(57) == joined_data(list)
}

/// The first of several messages that hold data.
#[verifier::spinoff_prover]
proof fn lemma_first_data_is_read(bytes: Seq<u8>, at: int, list: Seq<Seq<u8>>)
    requires
        0 <= at <= bytes.len(),
        bytes.skip(at) == joined_data(list),
        0 < list.len(),
        message_bytes(list[0]).len() < 0x8000_0000,
    ensures
        after_part(bytes, at, Part::Message) == Walk::At(at + 4 + message_bytes(list[0]).len()),
        be32_at(bytes, at) == message_bytes(list[0]).len(),
        content_at(bytes, at) == message_bytes(list[0]),
        at + 4 + message_bytes(list[0]).len() <= bytes.len(),
        bytes.skip(at + 4 + message_bytes(list[0]).len()) == joined_data(list.skip(1)),
{
    let tail = bytes.skip(at);
    let first = message_bytes(list[0]);
    let size = be32(first.len() as int);
    let rest = joined_data(list.skip(1));
    let next = at + 4 + first.len();
    lemma_sizes();
    assert(list[0].len() <= first.len());
    assert(tail == size + first + rest);
    assert(bytes =~= bytes.take(at) + tail);
    assert(bytes.take(at) + tail =~= bytes.take(at) + size + (first + rest));
    law_numbers_are_read_back(bytes.take(at), first.len() as u64, first + rest);
    assert(content_at(bytes, at) =~= first) by {
        assert forall|i: int| 0 <= i < first.len() implies bytes[at + 4 + i] == first[i] by {
            assert(bytes[at + 4 + i] == tail[4 + i]);
        }
    }
    law_data_is_read_back(list[0]);
    assert(bytes.skip(next) =~= rest) by {
        assert forall|i: int| 0 <= i < rest.len() implies bytes[next + i] == rest[i] by {
            assert(bytes[next + i] == tail[4 + first.len() + i]);
        }
    }
}

#[verifier::spinoff_prover]
proof fn lemma_joined_data_is_read(bytes: Seq<u8>, at: int, list: Seq<Seq<u8>>)
    requires
        0 <= at <= bytes.len(),
        bytes.skip(at) == joined_data(list),
        forall|i: int|
            0 <= i < list.len() ==> message_bytes(#[trigger] list[i]).len() < 0x8000_0000,
    ensures
        after_parts(bytes, Walk::At(at), list.len() as int, Part::Message) == Walk::At(
            bytes.len() as int,
        ),
        contents_at(bytes, at, list.len() as int) == list.map_values(
            |data: Seq<u8>| message_bytes(data),
        ),
    decreases list.len(),
{
    let contents = list.map_values(|data: Seq<u8>| message_bytes(data));
    if list.len() == 0 {
        assert(bytes.skip(at).len() == 0);
        assert(contents_at(bytes, at, 0) =~= contents);
    } else {
        let first = message_bytes(list[0]);
        let next = at + 4 + first.len();
        lemma_first_data_is_read(bytes, at, list);
        assert forall|i: int| 0 <= i < list.skip(1).len() implies message_bytes(
            #[trigger] list.skip(1)[i],
        ).len() < 0x8000_0000 by {
            assert(list.skip(1)[i] == list[i + 1]);
        }
        lemma_joined_data_is_read(bytes, next, list.skip(1));
        let others = list.skip(1).map_values(|data: Seq<u8>| message_bytes(data));
        assert(contents =~= seq![first] + others);
        assert(contents_at(bytes, at, list.len() as int) =~= contents);
    }
}

/// What is read of a delivery of messages that hold data.
#[verifier::spinoff_prover]
proof fn lemma_delivery_is_read(
    bytes: Seq<u8>,
    subscription: u8,
    offset: u64,
    list: Seq<Seq<u8>>,
    body: DeliverCommand,
)
    requires
        is_delivery(bytes, subscription, offset, list),
        delivered_at(bytes) == list.map_values(|data: Seq<u8>| message_bytes(data)),
        forall|i: int|
            0 <= i < list.len() ==> message_bytes(#[trigger] list[i]).len() < 0x8000_0000,
        reads_messages(body.messages@, delivered_at(bytes)),
    ensures
        body.messages@.len() == list.len(),
        forall|i: int|
            0 <= i < list.len() ==> data_view((#[trigger] body.messages@[i]).data) == Some(list[i]),
{
    assert forall|i: int| 0 <= i < list.len() implies data_view(
        (#[trigger] body.messages@[i]).data,
    ) == Some(list[i]) by {
        assert(delivered_at(bytes)[i] == message_bytes(list[i]));
        assert(list[i].len() <= message_bytes(list[i]).len());
        law_data_is_read_back(list[i]);
    }
}

/// A delivery of messages that were published with nothing but data is complete, and gives the
/// handler as many messages, in their order, each with its data. The size of a message is read as a
/// signed number, so that larger ones cannot be followed.
#[verifier::spinoff_prover]
pub proof fn law_published_data_is_delivered(
    bytes: Seq<u8>,
    subscription: u8,
    offset: u64,
    list: Seq<Seq<u8>>,
    response: Response,
)
    requires
        is_delivery(bytes, subscription, offset, list),
        forall|i: int|
            0 <= i < list.len() ==> message_bytes(#[trigger] list[i]).len() < 0x8000_0000,
    ensures
        frame_walk(bytes) == Walk::At(bytes.len() as int),
        reads(response, bytes) ==> response.correlation_id is None && match response.kind {
            ResponseKind::Deliver(body) => {
                &&& body.subscription_id == subscription
                &&& body.chunk_first_offset == offset
                &&& body.messages@.len() == list.len()
                &&& forall|i: int|
                    0 <= i < list.len() ==> data_view((#[trigger] body.messages@[i]).data) == Some(
                        list[i],
                    ) && body.messages@[i].content@ == message_bytes(list[i])
            },
            _ => false,
        },
{
    lemma_joined_data_is_read(bytes, 57, list);
    assert(frame_walk(bytes) == after_parts(bytes, Walk::At(57), be32_at(bytes, 13), Part::Message));
    if reads(response, bytes) {
        if let ResponseKind::Deliver(body) = response.kind {
            lemma_delivery_is_read(bytes, subscription, offset, list, body);
        }
    }
}

/// Messages with the given sections, each after its size.
pub open spec fn joined_contents(list: Seq<Seq<u8>>) -> Seq<u8>
    decreases list.len(),
{
    if list.len() == 0 {
        Seq::empty()
    } else {
        be32(list[0].len() as int) + list[0] + joined_contents(list.skip(1))
    }
}

#[verifier::spinoff_prover]
proof fn lemma_joined_contents_are_read(bytes: Seq<u8>, at: int, list: Seq<Seq<u8>>)
    requires
        0 <= at <= bytes.len(),
        bytes.skip(at) == joined_contents(list),
        forall|i: int|
            0 <= i < list.len() ==> (#[trigger] list[i]).len() < 0x8000_0000 && message_walk(
                list[i],
            ) is At,
    ensures
        after_parts(bytes, Walk::At(at), list.len() as int, Part::Message) == Walk::At(
            bytes.len() as int,
        ),
        contents_at(bytes, at, list.len() as int) == list,
    decreases list.len(),
{
    if list.len() == 0 {
        assert(bytes.skip(at).len() == 0);
        assert(contents_at(bytes, at, 0) =~= list);
    } else {
        let tail = bytes.skip(at);
        let first = list[0];
        let others = list.skip(1);
        let size = be32(first.len() as int);
        let rest = joined_contents(others);
        let next = at + 4 + first.len();
        lemma_sizes();
        assert(tail == size + first + rest);
        assert(bytes =~= bytes.take(at) + tail);
        assert(bytes.take(at) + tail =~= bytes.take(at) + size + (first + rest));
        law_numbers_are_read_back(bytes.take(at), first.len() as u64, first + rest);
        assert(content_at(bytes, at) =~= first) by {
            assert forall|i: int| 0 <= i < first.len() implies bytes[at + 4 + i] == first[i] by {
                assert(bytes[at + 4 + i] == tail[4 + i]);
            }
        }
        assert(bytes.skip(next) =~= rest) by {
            assert forall|i: int| 0 <= i < rest.len() implies bytes[next + i] == rest[i] by {
                assert(bytes[next + i] == tail[4 + first.len() + i]);
            }
        }
        assert forall|i: int| 0 <= i < others.len() implies (#[trigger] others[i]).len()
            < 0x8000_0000 && message_walk(others[i]) is At by {
            assert(others[i] == list[i + 1]);
        }
        lemma_joined_contents_are_read(bytes, next, others);
        assert(after_part(bytes, at, Part::Message) == Walk::At(next));
        assert(contents_at(bytes, at, list.len() as int) =~= list);
    }
}

/// A delivery is read as the server writes it: the subscription, the offset of the first message
/// and all messages in their order, each with its sections as they stand there, whatever they hold,
/// and with the data that they hold.
#[verifier::spinoff_prover]
pub proof fn law_delivered_sections_are_kept(
    bytes: Seq<u8>,
    list: Seq<Seq<u8>>,
    response: Response,
)
    requires
        bytes.len() >= 57,
        frame_key(bytes) == 8,
        be32_at(bytes, 13) == list.len(),
        bytes.skip(57) == joined_contents(list),
        forall|i: int|
            0 <= i < list.len() ==> (#[trigger] list[i]).len() < 0x8000_0000 && message_walk(
                list[i],
            ) is At,
    ensures
        frame_walk(bytes) == Walk::At(bytes.len() as int),
        reads(response, bytes) ==> response.correlation_id is None && match response.kind {
            ResponseKind::Deliver(body) => {
                &&& body.subscription_id == bytes[8]
                &&& body.chunk_first_offset == be64_at(bytes, 33)
                &&& body.messages@.len() == list.len()
                &&& forall|i: int|
                    0 <= i < list.len() ==> (#[trigger] body.messages@[i]).content@ == list[i]
                        && data_view(body.messages@[i].data) == message_data(list[i])
            },
            _ => false,
        },
{
    lemma_joined_contents_are_read(bytes, 57, list);
    assert(frame_walk(bytes) == after_parts(bytes, Walk::At(57), be32_at(bytes, 13), Part::Message));
}

/// Reading takes the first frame off the bytes and leaves those that follow it as they are. While the
/// frame is not complete, or if it is malformed, nothing is taken off, and only in the latter case
/// reading fails.
pub proof fn law_reading_takes_one_frame(
    first: Seq<u8>,
    more: Seq<u8>,
    after: Seq<u8>,
    result: Result<Option<Response>, ClientError>,
)
    requires
        frame_walk(first) == Walk::At(first.len() as int),
        is_decoded(first + more, after, result),
    ensures
        after == more,
        result matches Ok(Some(response)) && reads(response, first),
{
    law_frame_stands_alone(first, more);
    assert((first + more).skip(first.len() as int) =~= more);
    if let Ok(Some(response)) = result {
        law_response_stands_alone(response, first, more);
    }
}

/// As long as a frame is not complete, reading waits: there is no response and no error, and nothing
/// is lost. A malformed frame is an error, with which nothing is lost either.
pub proof fn law_incomplete_frames_wait(
    before: Seq<u8>,
    after: Seq<u8>,
    result: Result<Option<Response>, ClientError>,
)
    requires
        is_decoded(before, after, result),
    ensures
        before.len() < 8 ==> frame_walk(before) is Short,
        frame_walk(before) is Short ==> after == before && result == Ok::<
            Option<Response>,
            ClientError,
        >(None),
        frame_walk(before) is Bad ==> after == before && (result matches Err(error)
            && error is Decode),
        result is Err ==> frame_walk(before) is Bad,
        result matches Ok(None) ==> frame_walk(before) is Short,
{
}

/// The reference of a request, if it has one that is limited.
pub open spec fn limited_reference(request: Request) -> Option<Seq<char>> {
    match request {
        Request::QueryOffset { reference, .. } => Some(reference@),
        Request::QueryPublisherSequence { reference, .. } => Some(reference@),
        Request::StoreOffset { reference, .. } => Some(reference@),
        _ => None,
    }
}

/// A request is written unless its reference has more than 255 bytes, in which case the error tells
/// how many it has. What the buffer held stays in front of what is written, either way.
pub proof fn law_requests_are_appended(
    request: Request,
    before: Seq<u8>,
    after: Seq<u8>,
    result: Result<(), ClientError>,
)
    requires
        is_encoded(request, before, after, result),
    ensures
        before.len() + 8 <= after.len(),
        after.take(before.len() as int) == before,
        limited_reference(request) is None ==> result is Ok,
        limited_reference(request) matches Some(reference) ==> (result is Ok <==> encode_utf8(
            reference,
        ).len() <= 255),
        limited_reference(request) matches Some(reference) ==> 255 < encode_utf8(reference).len()
            <= usize::MAX ==> result == Err::<(), ClientError>(
            ClientError::Encode(
                EncodeFailure::MaxSizeError(encode_utf8(reference).len() as usize),
            ),
        ),
{
    reveal(is_encoded);
    lemma_sizes();
    assert(encode_utf8(Seq::<char>::empty()).len() == 0);
    assert(after.take(before.len() as int) =~= before);
}

/// What is written of a request is one frame: its size is right, and its key and its version are
/// those of the request.
pub proof fn law_written_requests_are_frames(
    request: Request,
    before: Seq<u8>,
    after: Seq<u8>,
    result: Result<(), ClientError>,
)
    requires
        is_encoded(request, before, after, result),
        result is Ok,
        after.len() - before.len() - 4 <= u32::MAX,
        after.len() <= isize::MAX,
    ensures
        ({
            let start = before.len() as int;
            &&& be32_at(after, start) == after.len() - start - 4
            &&& be16_at(after, start + 4) == request_key(request)
            &&& be16_at(after, start + 6) == request_version(request)
            &&& request_id(request) matches Some(id) ==> be32_at(after, start + 8) == id
        }),
{
    reveal(is_encoded);
    lemma_sizes();
    let key = request_key(request) as u16;
    let version = request_version(request) as u16;
    let body = choose|body: Seq<u8>| #[trigger]
        is_body(request, body) && after == before + frame(
            request_key(request),
            request_version(request),
            body,
        );
    let bytes = frame(key as int, version as int, body);
    law_frame_tells_its_size(key, version, body);
    let start = before.len() as int;
    assert(after =~= before + bytes);
    assert forall|i: int| 0 <= i < bytes.len() implies after[start + i] == #[trigger] bytes[i] by {}
    if request_id(request) is Some {
        law_request_carries_its_identifier(request, body);
        reveal(is_body);
        reveal(fixed_body);
        assert(body.len() >= 4);
    }
}

/// A request fits in a buffer exactly if its frame can tell its size and the buffer can hold it.
pub proof fn law_requests_fit_by_their_size(request: Request, body: Seq<u8>, buffered: nat)
    requires
        is_body(request, body),
    ensures
        request_fits(buffered, request) <==> 4 + body.len() <= u32::MAX && buffered + 8 + body.len()
            <= isize::MAX,
{
    assert forall|other: Seq<u8>| #[trigger] is_body(request, other) implies other.len()
        == body.len() by {
        reveal(is_body);
        if let Some(map) = request_table(request) {
            let first = choose|bytes: Seq<u8>| #[trigger]
                is_table(map, bytes) && body == fixed_body(request) + bytes;
            let second = choose|bytes: Seq<u8>| #[trigger]
                is_table(map, bytes) && other == fixed_body(request) + bytes;
            lemma_table_sizes(map, first, second);
        }
    }
}

/// Decoding takes the first frame off a buffer and leaves what follows it; an incomplete frame stays
/// in the buffer until more bytes have arrived, and is no error.
pub proof fn law_frames_are_decoded_one_by_one(
    codec: &mut RabbitMqStreamCodec,
    buf: &mut BytesMut,
    result: Result<Option<Response>, ClientError>,
    first: Seq<u8>,
    more: Seq<u8>,
)
    requires
        call_ensures(RabbitMqStreamCodec::decode, (codec, buf), result),
        bytes_of(*old(buf)) == first + more,
    ensures
        frame_walk(first) == Walk::At(first.len() as int) ==> bytes_of(*final(buf)) == more && (
        result matches Ok(Some(response)) && reads(response, first)),
        frame_walk(first + more) is Short ==> bytes_of(*final(buf)) == first + more && result == Ok::<
            Option<Response>,
            ClientError,
        >(None),
{
    if frame_walk(first) == Walk::At(first.len() as int) {
        law_reading_takes_one_frame(first, more, bytes_of(*final(buf)), result);
    }
}

/// What reading the first frame of a buffer came to is settled as follows: a response is handed on and
/// its frame taken off, a missing part is no error and any other failure is, with which the buffer
/// stays as it is.
pub proof fn law_readings_are_settled(
    codec: &mut RabbitMqStreamCodec,
    rest: usize,
    response: Response,
    missing: usize,
    failure: DecodeFailure,
    bufs: (&mut BytesMut, &mut BytesMut, &mut BytesMut),
    results: (
        Result<Option<Response>, ClientError>,
        Result<Option<Response>, ClientError>,
        Result<Option<Response>, ClientError>,
    ),
)
    requires
        rest <= bytes_of(*bufs.0).len(),
        call_ensures(
            RabbitMqStreamCodec::settle,
            (codec, Ok((rest, response)), bufs.0),
            results.0,
        ),
        call_ensures(
            RabbitMqStreamCodec::settle,
            (codec, Err(DecodeFailure::Incomplete(missing)), bufs.1),
            results.1,
        ),
        call_ensures(RabbitMqStreamCodec::settle, (codec, Err(failure), bufs.2), results.2),
        !(failure is Incomplete),
    ensures
        results.0 == Ok::<Option<Response>, ClientError>(Some(response)),
        bytes_of(*final(bufs.0)).len() == rest,
        results.1 == Ok::<Option<Response>, ClientError>(None),
        *final(bufs.1) == *old(bufs.1),
        results.2 == Err::<Option<Response>, ClientError>(ClientError::Decode(failure)),
        *final(bufs.2) == *old(bufs.2),
{
}

/// A request is appended to what a buffer holds, as one frame; only a reference of more than 255 bytes
/// is refused. A request that does not fit leaves the buffer as it is.
pub proof fn law_requests_are_encoded_behind(
    codec: &mut RabbitMqStreamCodec,
    request: Request,
    buf: &mut BytesMut,
    result: Result<(), ClientError>,
    other: &mut BytesMut,
    checked: Option<Result<(), ClientError>>,
)
    requires
        call_ensures(RabbitMqStreamCodec::encode, (codec, request, buf), result),
        call_ensures(RabbitMqStreamCodec::checked_encode, (codec, request, other), checked),
    ensures
        bytes_of(*old(buf)).len() + 8 <= bytes_of(*final(buf)).len(),
        bytes_of(*final(buf)).take(bytes_of(*old(buf)).len() as int) == bytes_of(*old(buf)),
        limited_reference(request) is None ==> result is Ok,
        limited_reference(request) matches Some(reference) ==> (result is Ok <==> encode_utf8(
            reference,
        ).len() <= 255),
        checked is None ==> *final(other) == *old(other),
        checked is Some ==> bytes_of(*final(other)).take(bytes_of(*old(other)).len() as int)
            == bytes_of(*old(other)),
{
    law_requests_are_appended(request, bytes_of(*old(buf)), bytes_of(*final(buf)), result);
    if let Some(written) = checked {
        law_requests_are_appended(request, bytes_of(*old(other)), bytes_of(*final(other)), written);
    }
}

} // verus!
