//! The layout of the frames that the client sends.

use crate::request::{OffsetSpecification, PublishedData, Request};
use crate::wire::{
    be16, be16_at, be32, be32_at, be64, is_table, law_numbers_are_read_back, lemma_sizes, optional_text,
    signed64, text, text_list,
};
use vstd::prelude::*;
use vstd::utf8::encode_utf8;

verus! {

/// What stands before the body of a frame: the size of what follows, the key and the version.
pub open spec fn frame_head(key: int, version: int, body_size: nat) -> Seq<u8> {
    be32(4 + body_size as int) + be16(key) + be16(version)
}

/// A frame.
pub open spec fn frame(key: int, version: int, body: Seq<u8>) -> Seq<u8> {
    frame_head(key, version, body.len()) + body
}

/// Whether `after` is `before` and a frame whose body ends with a table, in some order.
pub open spec fn appends_with_table(
    before: Seq<u8>,
    after: Seq<u8>,
    key: int,
    fixed: Seq<u8>,
    map: Map<Seq<char>, Seq<char>>,
) -> bool {
    exists|table: Seq<u8>| #[trigger]
        is_table(map, table) && after == before + frame(key, 1, fixed + table)
}

/// Where a subscription starts.
pub open spec fn offset_bytes(offset_specification: OffsetSpecification) -> Seq<u8> {
    match offset_specification {
        OffsetSpecification::First => be16(1),
        OffsetSpecification::Last => be16(2),
        OffsetSpecification::Next => be16(3),
        OffsetSpecification::Offset(offset) => be16(4) + be64(offset as int),
        OffsetSpecification::Timestamp(timestamp) => be16(5) + signed64(timestamp),
    }
}

/// The key of the frame of a request.
pub open spec fn request_key(request: Request) -> int {
    match request {
        Request::DeclarePublisher { .. } => 1,
        Request::Publish { .. } => 2,
        Request::QueryPublisherSequence { .. } => 5,
        Request::DeletePublisher { .. } => 6,
        Request::Subscribe { .. } => 7,
        Request::Credit { .. } => 9,
        Request::StoreOffset { .. } => 10,
        Request::QueryOffset { .. } => 11,
        Request::Unsubscribe { .. } => 12,
        Request::CreateStream { .. } => 13,
        Request::Delete { .. } => 14,
        Request::Metadata { .. } => 15,
        Request::PeerProperties { .. } => 17,
        Request::SaslHandshake { .. } => 18,
        Request::SaslAuthenticate { .. } => 19,
        Request::Tunes { .. } => 20,
        Request::Open { .. } => 21,
        Request::Close { .. } => 22,
        Request::Heartbeat => 23,
        Request::SuperStreamRoute { .. } => 24,
        Request::SuperStreamPartitions { .. } => 25,
        Request::ExchangeCommandVersions { .. } => 27,
        Request::CreateSuperStream { .. } => 29,
        Request::DeleteSuperStream { .. } => 30,
        Request::ConsumerUpdateRequest { .. } => 32794,
    }
}

/// The version of the frame of a request.
pub open spec fn request_version(request: Request) -> int {
    match request {
        Request::Publish { publisher_id, messages, version } => version as int,
        _ => 1,
    }
}

/// A message that holds data: the descriptor of data, which binary data follows, after its size in
/// one byte or in four.
pub open spec fn message_bytes(data: Seq<u8>) -> Seq<u8> {
    seq![0x00u8, 0x53, 0x75] + (if data.len() > 255 {
        seq![0xb0u8] + be32(data.len() as int)
    } else {
        seq![0xa0u8, data.len() as u8]
    }) + data
}

/// A message in a request to publish it: its identifier, in the second version its filter value,
/// and the message after its size.
pub open spec fn published_bytes(message: PublishedData, version: u16) -> Seq<u8> {
    be64(message.publishing_id as int) + (if version == 2 {
        optional_text(message.filter_value)
    } else {
        Seq::empty()
    }) + be32(message_bytes(message.data@).len() as int) + message_bytes(message.data@)
}

/// The messages of a request, one after the other.
pub open spec fn joined_messages(messages: Seq<PublishedData>, version: u16) -> Seq<u8>
    decreases messages.len(),
{
    if messages.len() == 0 {
        Seq::empty()
    } else {
        joined_messages(messages.drop_last(), version) + published_bytes(messages.last(), version)
    }
}

/// The body of the frame of a request, but for the table at its end.
#[verifier::opaque]
pub open spec fn fixed_body(request: Request) -> Seq<u8> {
    match request {
        Request::PeerProperties {
            correlation_id,
            client_properties,
        } => be32(correlation_id as int),
        Request::SaslHandshake { correlation_id } => be32(correlation_id as int),
        Request::SaslAuthenticate {
            correlation_id,
            mechanism,
            sasl_data,
        } => be32(correlation_id as int)
            + text(mechanism@) + be32(sasl_data@.len() as int) + sasl_data@,
        Request::Tunes { max_frame_size, heartbeat } => be32(max_frame_size as int)
            + be32(heartbeat as int),
        Request::Open { correlation_id, virtual_host } => be32(correlation_id as int)
            + text(virtual_host@),
        Request::Close {
            correlation_id,
            closing_code,
            closing_reason,
        } => be32(correlation_id as int)
            + be16(closing_code.spec_number() as int) + text(closing_reason@),
        Request::Delete { correlation_id, stream } => be32(correlation_id as int) + text(stream@),
        Request::CreateStream { correlation_id, stream, arguments } => be32(correlation_id as int)
            + text(stream@),
        Request::Subscribe {
            correlation_id,
            subscription_id,
            stream,
            offset_specification,
            credit,
            properties,
        } => be32(correlation_id as int) + seq![subscription_id] + text(stream@)
            + offset_bytes(offset_specification) + be16(credit as int),
        Request::Credit { subscription_id, credit } => seq![subscription_id] + be16(credit as int),
        Request::Metadata { correlation_id, streams } => be32(correlation_id as int)
            + text_list(streams@),
        Request::DeclarePublisher {
            correlation_id,
            publisher_id,
            publisher_reference,
            stream,
        } => be32(correlation_id as int) + seq![publisher_id] + optional_text(publisher_reference)
            + text(stream@),
        Request::DeletePublisher { correlation_id, publisher_id } => be32(correlation_id as int)
            + seq![publisher_id],
        Request::Heartbeat => Seq::empty(),
        Request::QueryOffset { correlation_id, reference, stream } => be32(correlation_id as int)
            + text(reference@) + text(stream@),
        Request::QueryPublisherSequence {
            correlation_id,
            reference,
            stream,
        } => be32(correlation_id as int) + text(reference@) + text(stream@),
        Request::StoreOffset { reference, stream, offset } => text(reference@) + text(stream@)
            + be64(offset as int),
        Request::Unsubscribe { correlation_id, subscription_id } => be32(correlation_id as int)
            + seq![subscription_id],
        Request::ExchangeCommandVersions { correlation_id } => be32(correlation_id as int)
            + be32(0),
        Request::CreateSuperStream {
            correlation_id,
            super_stream,
            partitions,
            binding_keys,
            arguments,
        } => be32(correlation_id as int) + text(super_stream@) + text_list(partitions@)
            + text_list(binding_keys@),
        Request::DeleteSuperStream { correlation_id, super_stream } => be32(correlation_id as int)
            + text(super_stream@),
        Request::SuperStreamPartitions {
            correlation_id,
            super_stream,
        } => be32(correlation_id as int)
            + text(super_stream@),
        Request::SuperStreamRoute {
            correlation_id,
            routing_key,
            super_stream,
        } => be32(correlation_id as int) + text(routing_key@) + text(super_stream@),
        Request::ConsumerUpdateRequest {
            correlation_id,
            response_code,
            offset_specification,
        } => be32(correlation_id as int) + be16(response_code as int)
            + offset_bytes(offset_specification),
        Request::Publish { publisher_id, messages, version } => seq![publisher_id]
            + be32(messages@.len() as int) + joined_messages(messages@, version),
    }
}

/// The table at the end of a request, if it has one.
pub open spec fn request_table(request: Request) -> Option<Map<Seq<char>, Seq<char>>> {
    match request {
        Request::PeerProperties { correlation_id, client_properties } => Some(client_properties@),
        Request::CreateStream { correlation_id, stream, arguments } => Some(arguments@),
        Request::Subscribe {
            correlation_id,
            subscription_id,
            stream,
            offset_specification,
            credit,
            properties,
        } => Some(properties@),
        Request::CreateSuperStream {
            correlation_id,
            super_stream,
            partitions,
            binding_keys,
            arguments,
        } => Some(arguments@),
        _ => None,
    }
}

/// Whether the bytes are a body of the frame of a request; a table may stand in any order.
#[verifier::opaque]
pub open spec fn is_body(request: Request, body: Seq<u8>) -> bool {
    match request_table(request) {
        None => body == fixed_body(request),
        Some(map) => exists|table: Seq<u8>| #[trigger]
            is_table(map, table) && body == fixed_body(request) + table,
    }
}

/// The number of bytes of the reference of a request, if that is too many.
pub open spec fn oversized(request: Request) -> Option<usize> {
    let reference = match request {
        Request::QueryOffset { correlation_id, reference, stream } => reference@,
        Request::QueryPublisherSequence { correlation_id, reference, stream } => reference@,
        Request::StoreOffset { reference, stream, offset } => reference@,
        _ => Seq::empty(),
    };
    if encode_utf8(reference).len() >= 256 {
        Some(encode_utf8(reference).len() as usize)
    } else {
        None
    }
}

/// Whether the frame with the given body can be appended to `buffered` bytes: its size is a
/// number of four bytes, and a buffer can hold so many bytes.
pub open spec fn body_fits(buffered: nat, body_size: nat) -> bool {
    4 + body_size <= u32::MAX && buffered + 8 + body_size <= isize::MAX
}

/// Whether the frame of a request can be appended to `buffered` bytes.
pub open spec fn request_fits(buffered: nat, request: Request) -> bool {
    forall|body: Seq<u8>| #[trigger] is_body(request, body) ==> body_fits(buffered, body.len())
}

/// A frame tells how many bytes follow its size, its key and its version.
pub proof fn law_frame_tells_its_size(key: u16, version: u16, body: Seq<u8>)
    requires
        body_fits(0, body.len()),
    ensures
        be32_at(frame(key as int, version as int, body), 0) == frame(
            key as int,
            version as int,
            body,
        ).len() - 4,
        be16_at(frame(key as int, version as int, body), 4) == key,
        be16_at(frame(key as int, version as int, body), 6) == version,
{
    lemma_sizes();
    let size = (4 + body.len()) as u64;
    let nothing = Seq::<u8>::empty();
    let number = be16(version as int);
    let bytes = frame(key as int, version as int, body);
    assert(bytes =~= nothing + be32(size as int) + (be16(key as int) + number + body));
    assert(bytes =~= be32(size as int) + be16(key as int) + (number + body));
    assert(bytes =~= (be32(size as int) + be16(key as int)) + number + body);
    law_numbers_are_read_back(nothing, size, be16(key as int) + number + body);
    law_numbers_are_read_back(be32(size as int), key as u64, number + body);
    law_numbers_are_read_back(be32(size as int) + be16(key as int), version as u64, body);
}

/// The correlation identifier of a request, if it has one.
pub open spec fn request_id(request: Request) -> Option<u32> {
    match request {
        Request::PeerProperties { correlation_id, .. } => Some(correlation_id),
        Request::SaslHandshake { correlation_id, .. } => Some(correlation_id),
        Request::SaslAuthenticate { correlation_id, .. } => Some(correlation_id),
        Request::Open { correlation_id, .. } => Some(correlation_id),
        Request::Close { correlation_id, .. } => Some(correlation_id),
        Request::Delete { correlation_id, .. } => Some(correlation_id),
        Request::CreateStream { correlation_id, .. } => Some(correlation_id),
        Request::Subscribe { correlation_id, .. } => Some(correlation_id),
        Request::Metadata { correlation_id, .. } => Some(correlation_id),
        Request::DeclarePublisher { correlation_id, .. } => Some(correlation_id),
        Request::DeletePublisher { correlation_id, .. } => Some(correlation_id),
        Request::QueryOffset { correlation_id, .. } => Some(correlation_id),
        Request::QueryPublisherSequence { correlation_id, .. } => Some(correlation_id),
        Request::Unsubscribe { correlation_id, .. } => Some(correlation_id),
        Request::ExchangeCommandVersions { correlation_id, .. } => Some(correlation_id),
        Request::CreateSuperStream { correlation_id, .. } => Some(correlation_id),
        Request::DeleteSuperStream { correlation_id, .. } => Some(correlation_id),
        Request::SuperStreamPartitions { correlation_id, .. } => Some(correlation_id),
        Request::SuperStreamRoute { correlation_id, .. } => Some(correlation_id),
        Request::ConsumerUpdateRequest { correlation_id, .. } => Some(correlation_id),
        _ => None,
    }
}

/// A request with a correlation identifier carries it right after the head of its frame.
pub proof fn law_request_carries_its_identifier(request: Request, body: Seq<u8>)
    requires
        request_id(request) is Some,
        is_body(request, body),
    ensures
        be32_at(
            frame(request_key(request), request_version(request), body),
            8,
        ) == request_id(request)->0,
{
    reveal(is_body);
    reveal(fixed_body);
    lemma_sizes();
    let id = request_id(request)->0;
    let head = frame_head(request_key(request), request_version(request), body.len());
    let rest = body.skip(4);
    assert(fixed_body(request).len() >= 4 && fixed_body(request).take(4) =~= be32(id as int));
    assert(body.take(4) =~= be32(id as int));
    assert(
        frame(
            request_key(request),
            request_version(request),
            body,
        ) =~= head + be32(id as int) + rest
    );
    law_numbers_are_read_back(head, id as u64, rest);
}

} // verus!
