//! The calls into the protocol crate and into the buffer that frames are written to.

use crate::error::DecodeFailure;
use crate::frames::{
    appends_with_table, body_fits, frame, frame_head, joined_messages, offset_bytes,
};
use crate::layout::{
    broker_views, brokers_at, correlation_at, delivered_at, errors_at, frame_key, frame_walk,
    is_generic_key, is_shallow, long_numbers_at, stream_views, streams_at, streams_start, table_at, texts_at, views,
};
use crate::message::message_data;
use crate::properties::{distinct_keys, entry_map};
use crate::request::{OffsetSpecification, PublishedData};
use crate::response::data_view;
use crate::walk::Walk;
use crate::wire::{
    be16, be16_at, be32, be32_at, be64, be64_at, optional_text, pairs_of, table, text, text_list,
};
use bytes::{Buf, BufMut, BytesMut};
use rabbitmq_stream_protocol::codec::{Decoder, Encoder};
use rabbitmq_stream_protocol::commands::close::{CloseRequest, CloseResponse};
use rabbitmq_stream_protocol::commands::consumer_update_request::ConsumerUpdateRequestCommand;
use rabbitmq_stream_protocol::commands::create_stream::CreateStreamCommand;
use rabbitmq_stream_protocol::commands::create_super_stream::CreateSuperStreamCommand;
use rabbitmq_stream_protocol::commands::credit::CreditCommand;
use rabbitmq_stream_protocol::commands::declare_publisher::DeclarePublisherCommand;
use rabbitmq_stream_protocol::commands::delete::Delete;
use rabbitmq_stream_protocol::commands::delete_publisher::DeletePublisherCommand;
use rabbitmq_stream_protocol::commands::delete_super_stream::DeleteSuperStreamCommand;
use rabbitmq_stream_protocol::commands::exchange_command_versions::{
    ExchangeCommandVersionsRequest, ExchangeCommandVersionsResponse,
};
use rabbitmq_stream_protocol::commands::generic::GenericResponse;
use rabbitmq_stream_protocol::commands::heart_beat::HeartBeatCommand;
use rabbitmq_stream_protocol::commands::metadata::{MetadataCommand, MetadataResponse};
use rabbitmq_stream_protocol::commands::open::{OpenCommand, OpenResponse};
use rabbitmq_stream_protocol::commands::peer_properties::{
    PeerPropertiesCommand, PeerPropertiesResponse,
};
use rabbitmq_stream_protocol::commands::publish::PublishCommand;
use rabbitmq_stream_protocol::commands::query_offset::{QueryOffsetRequest, QueryOffsetResponse};
use rabbitmq_stream_protocol::commands::query_publisher_sequence::{
    QueryPublisherRequest, QueryPublisherResponse,
};
use rabbitmq_stream_protocol::commands::sasl_authenticate::SaslAuthenticateCommand;
use rabbitmq_stream_protocol::commands::sasl_handshake::{
    SaslHandshakeCommand, SaslHandshakeResponse,
};
use rabbitmq_stream_protocol::commands::store_offset::StoreOffset;
use rabbitmq_stream_protocol::commands::subscribe::{
    OffsetSpecification as ProtocolOffset, SubscribeCommand,
};
use rabbitmq_stream_protocol::commands::superstream_partitions::{
    SuperStreamPartitionsRequest, SuperStreamPartitionsResponse,
};
use rabbitmq_stream_protocol::commands::superstream_route::{
    SuperStreamRouteRequest, SuperStreamRouteResponse,
};
use rabbitmq_stream_protocol::commands::tune::TunesCommand;
use rabbitmq_stream_protocol::commands::unsubscribe::UnSubscribeCommand;
use rabbitmq_stream_protocol::error::{DecodeError, EncodeError};
use rabbitmq_stream_protocol::message::Message;
use rabbitmq_stream_protocol::types::PublishedMessage;
use rabbitmq_stream_protocol::{Request, Response, ResponseKind};
use std::collections::HashMap;
use vstd::prelude::*;
use vstd::utf8::encode_utf8;

verus! {

/// The buffer of the crate `bytes`.
#[verifier::external_type_specification]
#[verifier::external_body]
pub struct ExBytesMut(bytes::BytesMut);

/// The bytes that a buffer holds.
pub uninterp spec fn bytes_of(buf: BytesMut) -> Seq<u8>;

/// Calls `BytesMut::as_ref`, which lends the bytes that the buffer holds.
#[verifier::external_body]
pub(crate) fn buffered(buf: &BytesMut) -> (held: &[u8])
    ensures
        held@ == bytes_of(*buf),
{
    buf.as_ref()
}

/// Calls `BytesMut::advance`, which takes bytes off the front of the buffer. It panics where
/// there are not that many.
#[verifier::external_body]
pub(crate) fn advance(buf: &mut BytesMut, count: usize)
    requires
        count <= bytes_of(*old(buf)).len(),
    ensures
        bytes_of(*final(buf)) == bytes_of(*old(buf)).skip(count as int),
{
    buf.advance(count)
}

/// Calls `PeerPropertiesCommand::new` and `Request::encode`, which writes the frame of the
/// command. The table stands in the order in which a `HashMap` is walked. The sizes are added in
/// 32 bits, which panics where they do not fit.
#[verifier::external_body]
pub(crate) fn put_peer_properties(
    buf: &mut BytesMut,
    correlation_id: u32,
    entries: Vec<(String, String)>,
)
    requires
        distinct_keys(entries@),
        body_fits(
            bytes_of(*old(buf)).len(),
            (be32(correlation_id as int) + table(pairs_of(entries@))).len(),
        ),
    ensures
        appends_with_table(
            bytes_of(*old(buf)),
            bytes_of(*final(buf)),
            17,
            be32(correlation_id as int),
            entry_map(entries@),
        ),
{
    let table: HashMap<String, String> = entries.into_iter().collect();
    let request = Request::from(PeerPropertiesCommand::new(correlation_id, table));
    let _ = request.encode(&mut buf.writer());
}

/// Calls `SaslHandshakeCommand::new` and `Request::encode`, which writes the frame of the command.
/// The sizes are added in 32 bits, which panics where they do not fit.
#[verifier::external_body]
pub(crate) fn put_sasl_handshake(buf: &mut BytesMut, correlation_id: u32)
    requires
        body_fits(bytes_of(*old(buf)).len(), (be32(correlation_id as int)).len()),
    ensures
        bytes_of(*final(buf)) == bytes_of(*old(buf)) + frame(18, 1, be32(correlation_id as int)),
{
    let request = Request::from(SaslHandshakeCommand::new(correlation_id));
    let _ = request.encode(&mut buf.writer());
}

/// Calls `SaslAuthenticateCommand::new` and `Request::encode`, which writes the frame of the
/// command. The sizes are added in 32 bits, which panics where they do not fit.
#[verifier::external_body]
pub(crate) fn put_sasl_authenticate(
    buf: &mut BytesMut,
    correlation_id: u32,
    mechanism: String,
    sasl_data: Vec<u8>,
)
    requires
        body_fits(
            bytes_of(*old(buf)).len(),
            (be32(correlation_id as int) + text(mechanism@) + be32(sasl_data@.len() as int)
                + sasl_data@).len(),
        ),
    ensures
        bytes_of(*final(buf)) == bytes_of(*old(buf)) + frame(
            19,
            1,
            be32(correlation_id as int) + text(mechanism@) + be32(sasl_data@.len() as int)
                + sasl_data@,
        ),
{
    let request = Request::from(SaslAuthenticateCommand::new(correlation_id, mechanism, sasl_data));
    let _ = request.encode(&mut buf.writer());
}

/// Calls `TunesCommand::new` and `Request::encode`, which writes the frame of the command. The
/// sizes are added in 32 bits, which panics where they do not fit.
#[verifier::external_body]
pub(crate) fn put_tunes(buf: &mut BytesMut, max_frame_size: u32, heartbeat: u32)
    requires
        body_fits(
            bytes_of(*old(buf)).len(),
            (be32(max_frame_size as int) + be32(heartbeat as int)).len(),
        ),
    ensures
        bytes_of(*final(buf)) == bytes_of(*old(buf)) + frame(
            20,
            1,
            be32(max_frame_size as int) + be32(heartbeat as int),
        ),
{
    let request = Request::from(TunesCommand::new(max_frame_size, heartbeat));
    let _ = request.encode(&mut buf.writer());
}

/// Calls `OpenCommand::new` and `Request::encode`, which writes the frame of the command. The sizes
/// are added in 32 bits, which panics where they do not fit.
#[verifier::external_body]
pub(crate) fn put_open(buf: &mut BytesMut, correlation_id: u32, virtual_host: String)
    requires
        body_fits(
            bytes_of(*old(buf)).len(),
            (be32(correlation_id as int) + text(virtual_host@)).len(),
        ),
    ensures
        bytes_of(*final(buf)) == bytes_of(*old(buf)) + frame(
            21,
            1,
            be32(correlation_id as int) + text(virtual_host@),
        ),
{
    let request = Request::from(OpenCommand::new(correlation_id, virtual_host));
    let _ = request.encode(&mut buf.writer());
}

/// Calls `CloseRequest::new` and `Request::encode`, which writes the frame of the command. The
/// sizes are added in 32 bits, which panics where they do not fit.
#[verifier::external_body]
pub(crate) fn put_close(
    buf: &mut BytesMut,
    correlation_id: u32,
    closing_code: u16,
    closing_reason: String,
)
    requires
        1 <= closing_code <= 19,
        body_fits(
            bytes_of(*old(buf)).len(),
            (be32(correlation_id as int) + be16(closing_code as int)
                + text(closing_reason@)).len(),
        ),
    ensures
        bytes_of(*final(buf)) == bytes_of(*old(buf)) + frame(
            22,
            1,
            be32(correlation_id as int) + be16(closing_code as int) + text(closing_reason@),
        ),
{
    if let Ok(code) = rabbitmq_stream_protocol::ResponseCode::try_from(closing_code) {
        let request = Request::from(CloseRequest::new(correlation_id, code, closing_reason));
        let _ = request.encode(&mut buf.writer());
    }
}

/// Calls `Delete::new` and `Request::encode`, which writes the frame of the command. The sizes
/// are added in 32 bits, which panics where they do not fit.
#[verifier::external_body]
pub(crate) fn put_delete(buf: &mut BytesMut, correlation_id: u32, stream: String)
    requires
        body_fits(bytes_of(*old(buf)).len(), (be32(correlation_id as int) + text(stream@)).len()),
    ensures
        bytes_of(*final(buf)) == bytes_of(*old(buf)) + frame(
            14,
            1,
            be32(correlation_id as int) + text(stream@),
        ),
{
    let request = Request::from(Delete::new(correlation_id, stream));
    let _ = request.encode(&mut buf.writer());
}

/// Calls `CreateStreamCommand::new` and `Request::encode`, which writes the frame of the command.
/// The table stands in the order in which a `HashMap` is walked. The sizes are added in 32 bits,
/// which panics where they do not fit.
#[verifier::external_body]
pub(crate) fn put_create_stream(
    buf: &mut BytesMut,
    correlation_id: u32,
    stream: String,
    entries: Vec<(String, String)>,
)
    requires
        distinct_keys(entries@),
        body_fits(
            bytes_of(*old(buf)).len(),
            (be32(correlation_id as int) + text(stream@) + table(pairs_of(entries@))).len(),
        ),
    ensures
        appends_with_table(
            bytes_of(*old(buf)),
            bytes_of(*final(buf)),
            13,
            be32(correlation_id as int) + text(stream@),
            entry_map(entries@),
        ),
{
    let table: HashMap<String, String> = entries.into_iter().collect();
    let request = Request::from(CreateStreamCommand::new(correlation_id, stream, table));
    let _ = request.encode(&mut buf.writer());
}

/// Calls `SubscribeCommand::new` and `Request::encode`, which writes the frame of the command. The
/// table stands in the order in which a `HashMap` is walked. The sizes are added in 32 bits, which
/// panics where they do not fit.
#[verifier::external_body]
pub(crate) fn put_subscribe(
    buf: &mut BytesMut,
    correlation_id: u32,
    subscription_id: u8,
    stream: String,
    offset_specification: OffsetSpecification,
    credit: u16,
    entries: Vec<(String, String)>,
)
    requires
        distinct_keys(entries@),
        body_fits(
            bytes_of(*old(buf)).len(),
            (be32(correlation_id as int) + seq![subscription_id] + text(stream@)
                + offset_bytes(offset_specification) + be16(credit as int)
                + table(pairs_of(entries@))).len(),
        ),
    ensures
        appends_with_table(
            bytes_of(*old(buf)),
            bytes_of(*final(buf)),
            7,
            be32(correlation_id as int) + seq![subscription_id] + text(stream@)
                + offset_bytes(offset_specification) + be16(credit as int),
            entry_map(entries@),
        ),
{
    let table: HashMap<String, String> = entries.into_iter().collect();
    let start = match offset_specification {
        OffsetSpecification::First => ProtocolOffset::First,
        OffsetSpecification::Last => ProtocolOffset::Last,
        OffsetSpecification::Next => ProtocolOffset::Next,
        OffsetSpecification::Offset(n) => ProtocolOffset::Offset(n),
        OffsetSpecification::Timestamp(n) => ProtocolOffset::Timestamp(n),
    };
    let request = Request::from(
        SubscribeCommand::new(correlation_id, subscription_id, stream, start, credit, table),
    );
    let _ = request.encode(&mut buf.writer());
}

/// Calls `CreditCommand::new` and `Request::encode`, which writes the frame of the command. The
/// sizes are added in 32 bits, which panics where they do not fit.
#[verifier::external_body]
pub(crate) fn put_credit(buf: &mut BytesMut, subscription_id: u8, credit: u16)
    requires
        body_fits(bytes_of(*old(buf)).len(), (seq![subscription_id] + be16(credit as int)).len()),
    ensures
        bytes_of(*final(buf)) == bytes_of(*old(buf)) + frame(
            9,
            1,
            seq![subscription_id] + be16(credit as int),
        ),
{
    let request = Request::from(CreditCommand::new(subscription_id, credit));
    let _ = request.encode(&mut buf.writer());
}

/// Calls `MetadataCommand::new` and `Request::encode`, which writes the frame of the command. The
/// sizes are added in 32 bits, which panics where they do not fit.
#[verifier::external_body]
pub(crate) fn put_metadata(buf: &mut BytesMut, correlation_id: u32, streams: Vec<String>)
    requires
        body_fits(
            bytes_of(*old(buf)).len(),
            (be32(correlation_id as int) + text_list(streams@)).len(),
        ),
    ensures
        bytes_of(*final(buf)) == bytes_of(*old(buf)) + frame(
            15,
            1,
            be32(correlation_id as int) + text_list(streams@),
        ),
{
    let request = Request::from(MetadataCommand::new(correlation_id, streams));
    let _ = request.encode(&mut buf.writer());
}

/// Calls `DeclarePublisherCommand::new` and `Request::encode`, which writes the frame of the
/// command. The sizes are added in 32 bits, which panics where they do not fit.
#[verifier::external_body]
pub(crate) fn put_declare_publisher(
    buf: &mut BytesMut,
    correlation_id: u32,
    publisher_id: u8,
    publisher_reference: Option<String>,
    stream: String,
)
    requires
        body_fits(
            bytes_of(*old(buf)).len(),
            (be32(correlation_id as int) + seq![publisher_id] + optional_text(publisher_reference)
                + text(stream@)).len(),
        ),
    ensures
        bytes_of(*final(buf)) == bytes_of(*old(buf)) + frame(
            1,
            1,
            be32(correlation_id as int) + seq![publisher_id] + optional_text(publisher_reference)
                + text(stream@),
        ),
{
    let request = Request::from(
        DeclarePublisherCommand::new(correlation_id, publisher_id, publisher_reference, stream),
    );
    let _ = request.encode(&mut buf.writer());
}

/// Calls `DeletePublisherCommand::new` and `Request::encode`, which writes the frame of the
/// command. The sizes are added in 32 bits, which panics where they do not fit.
#[verifier::external_body]
pub(crate) fn put_delete_publisher(buf: &mut BytesMut, correlation_id: u32, publisher_id: u8)
    requires
        body_fits(
            bytes_of(*old(buf)).len(),
            (be32(correlation_id as int) + seq![publisher_id]).len(),
        ),
    ensures
        bytes_of(*final(buf)) == bytes_of(*old(buf)) + frame(
            6,
            1,
            be32(correlation_id as int) + seq![publisher_id],
        ),
{
    let request = Request::from(DeletePublisherCommand::new(correlation_id, publisher_id));
    let _ = request.encode(&mut buf.writer());
}

/// Calls `HeartBeatCommand::default` and `Request::encode`, which writes the frame of the command.
#[verifier::external_body]
pub(crate) fn put_heartbeat(buf: &mut BytesMut)
    requires
        body_fits(bytes_of(*old(buf)).len(), (Seq::<u8>::empty()).len()),
    ensures
        bytes_of(*final(buf)) == bytes_of(*old(buf)) + frame(23, 1, Seq::<u8>::empty()),
{
    let request = Request::from(HeartBeatCommand::default());
    let _ = request.encode(&mut buf.writer());
}

/// Calls `QueryOffsetRequest::new` and `Request::encode`, which writes the frame of the command.
/// Where the reference has more than 255 bytes, only the head of the frame is written, and the
/// size of the reference is returned. The sizes are added in 32 bits, which panics where they do
/// not fit.
#[verifier::external_body]
pub(crate) fn put_query_offset(
    buf: &mut BytesMut,
    correlation_id: u32,
    reference: String,
    stream: String,
) -> (too_long: Option<usize>)
    requires
        body_fits(
            bytes_of(*old(buf)).len(),
            (be32(correlation_id as int) + text(reference@) + text(stream@)).len(),
        ),
    ensures
        encode_utf8(reference@).len() < 256 ==> too_long is None && bytes_of(*final(buf)) == bytes_of(
            *old(buf),
        ) + frame(11, 1, be32(correlation_id as int) + text(reference@) + text(stream@)),
        encode_utf8(reference@).len() >= 256 ==> too_long == Some(
            encode_utf8(reference@).len() as usize,
        ) && bytes_of(*final(buf)) == bytes_of(*old(buf)) + frame_head(
            11,
            1,
            (be32(correlation_id as int) + text(reference@) + text(stream@)).len(),
        ),
{
    let request = Request::from(QueryOffsetRequest::new(correlation_id, reference, stream));
    match request.encode(&mut buf.writer()) {
        Err(EncodeError::MaxSizeError(size)) => Some(size),
        _ => None,
    }
}

/// Calls `QueryPublisherRequest::new` and `Request::encode`, which writes the frame of the
/// command. Where the reference has more than 255 bytes, only the head of the frame is written,
/// and the size of the reference is returned. The sizes are added in 32 bits, which panics where
/// they do not fit.
#[verifier::external_body]
pub(crate) fn put_query_publisher_sequence(
    buf: &mut BytesMut,
    correlation_id: u32,
    reference: String,
    stream: String,
) -> (too_long: Option<usize>)
    requires
        body_fits(
            bytes_of(*old(buf)).len(),
            (be32(correlation_id as int) + text(reference@) + text(stream@)).len(),
        ),
    ensures
        encode_utf8(reference@).len() < 256 ==> too_long is None && bytes_of(*final(buf)) == bytes_of(
            *old(buf),
        ) + frame(5, 1, be32(correlation_id as int) + text(reference@) + text(stream@)),
        encode_utf8(reference@).len() >= 256 ==> too_long == Some(
            encode_utf8(reference@).len() as usize,
        ) && bytes_of(*final(buf)) == bytes_of(*old(buf)) + frame_head(
            5,
            1,
            (be32(correlation_id as int) + text(reference@) + text(stream@)).len(),
        ),
{
    let request = Request::from(QueryPublisherRequest::new(correlation_id, reference, stream));
    match request.encode(&mut buf.writer()) {
        Err(EncodeError::MaxSizeError(size)) => Some(size),
        _ => None,
    }
}

/// Calls `StoreOffset::new` and `Request::encode`, which writes the frame of the command. Where the
/// reference has more than 255 bytes, only the head of the frame is written, and the size of the
/// reference is returned. The sizes are added in 32 bits, which panics where they do not fit.
#[verifier::external_body]
pub(crate) fn put_store_offset(
    buf: &mut BytesMut,
    reference: String,
    stream: String,
    offset: u64,
) -> (too_long: Option<usize>)
    requires
        body_fits(
            bytes_of(*old(buf)).len(),
            (text(reference@) + text(stream@) + be64(offset as int)).len(),
        ),
    ensures
        encode_utf8(reference@).len() < 256 ==> too_long is None && bytes_of(*final(buf)) == bytes_of(
            *old(buf),
        ) + frame(10, 1, text(reference@) + text(stream@) + be64(offset as int)),
        encode_utf8(reference@).len() >= 256 ==> too_long == Some(
            encode_utf8(reference@).len() as usize,
        ) && bytes_of(*final(buf)) == bytes_of(*old(buf)) + frame_head(
            10,
            1,
            (text(reference@) + text(stream@) + be64(offset as int)).len(),
        ),
{
    let request = Request::from(StoreOffset::new(reference, stream, offset));
    match request.encode(&mut buf.writer()) {
        Err(EncodeError::MaxSizeError(size)) => Some(size),
        _ => None,
    }
}

/// Calls `UnSubscribeCommand::new` and `Request::encode`, which writes the frame of the command.
/// The sizes are added in 32 bits, which panics where they do not fit.
#[verifier::external_body]
pub(crate) fn put_unsubscribe(buf: &mut BytesMut, correlation_id: u32, subscription_id: u8)
    requires
        body_fits(
            bytes_of(*old(buf)).len(),
            (be32(correlation_id as int) + seq![subscription_id]).len(),
        ),
    ensures
        bytes_of(*final(buf)) == bytes_of(*old(buf)) + frame(
            12,
            1,
            be32(correlation_id as int) + seq![subscription_id],
        ),
{
    let request = Request::from(UnSubscribeCommand::new(correlation_id, subscription_id));
    let _ = request.encode(&mut buf.writer());
}

/// Calls `ExchangeCommandVersionsRequest::new` and `Request::encode`, which writes the frame of
/// the command. The sizes are added in 32 bits, which panics where they do not fit.
#[verifier::external_body]
pub(crate) fn put_exchange_command_versions(buf: &mut BytesMut, correlation_id: u32)
    requires
        body_fits(bytes_of(*old(buf)).len(), (be32(correlation_id as int) + be32(0)).len()),
    ensures
        bytes_of(*final(buf)) == bytes_of(*old(buf)) + frame(
            27,
            1,
            be32(correlation_id as int) + be32(0),
        ),
{
    let request = Request::from(ExchangeCommandVersionsRequest::new(correlation_id, Vec::new()));
    let _ = request.encode(&mut buf.writer());
}

/// Calls `CreateSuperStreamCommand::new` and `Request::encode`, which writes the frame of the
/// command. The table stands in the order in which a `HashMap` is walked. The sizes are added in
/// 32 bits, which panics where they do not fit.
#[verifier::external_body]
pub(crate) fn put_create_super_stream(
    buf: &mut BytesMut,
    correlation_id: u32,
    super_stream: String,
    partitions: Vec<String>,
    binding_keys: Vec<String>,
    entries: Vec<(String, String)>,
)
    requires
        distinct_keys(entries@),
        body_fits(
            bytes_of(*old(buf)).len(),
            (be32(correlation_id as int) + text(super_stream@) + text_list(partitions@)
                + text_list(binding_keys@) + table(pairs_of(entries@))).len(),
        ),
    ensures
        appends_with_table(
            bytes_of(*old(buf)),
            bytes_of(*final(buf)),
            29,
            be32(correlation_id as int) + text(super_stream@) + text_list(partitions@)
                + text_list(binding_keys@),
            entry_map(entries@),
        ),
{
    let table: HashMap<String, String> = entries.into_iter().collect();
    let request = Request::from(
        CreateSuperStreamCommand::new(
            correlation_id,
            super_stream,
            partitions,
            binding_keys,
            table,
        ),
    );
    let _ = request.encode(&mut buf.writer());
}

/// Calls `DeleteSuperStreamCommand::new` and `Request::encode`, which writes the frame of the
/// command. The sizes are added in 32 bits, which panics where they do not fit.
#[verifier::external_body]
pub(crate) fn put_delete_super_stream(buf: &mut BytesMut, correlation_id: u32, super_stream: String)
    requires
        body_fits(
            bytes_of(*old(buf)).len(),
            (be32(correlation_id as int) + text(super_stream@)).len(),
        ),
    ensures
        bytes_of(*final(buf)) == bytes_of(*old(buf)) + frame(
            30,
            1,
            be32(correlation_id as int) + text(super_stream@),
        ),
{
    let request = Request::from(DeleteSuperStreamCommand::new(correlation_id, super_stream));
    let _ = request.encode(&mut buf.writer());
}

/// Calls `SuperStreamPartitionsRequest::new` and `Request::encode`, which writes the frame of the
/// command. The sizes are added in 32 bits, which panics where they do not fit.
#[verifier::external_body]
pub(crate) fn put_super_stream_partitions(
    buf: &mut BytesMut,
    correlation_id: u32,
    super_stream: String,
)
    requires
        body_fits(
            bytes_of(*old(buf)).len(),
            (be32(correlation_id as int) + text(super_stream@)).len(),
        ),
    ensures
        bytes_of(*final(buf)) == bytes_of(*old(buf)) + frame(
            25,
            1,
            be32(correlation_id as int) + text(super_stream@),
        ),
{
    let request = Request::from(SuperStreamPartitionsRequest::new(correlation_id, super_stream));
    let _ = request.encode(&mut buf.writer());
}

/// Calls `SuperStreamRouteRequest::new` and `Request::encode`, which writes the frame of the
/// command. The sizes are added in 32 bits, which panics where they do not fit.
#[verifier::external_body]
pub(crate) fn put_super_stream_route(
    buf: &mut BytesMut,
    correlation_id: u32,
    routing_key: String,
    super_stream: String,
)
    requires
        body_fits(
            bytes_of(*old(buf)).len(),
            (be32(correlation_id as int) + text(routing_key@) + text(super_stream@)).len(),
        ),
    ensures
        bytes_of(*final(buf)) == bytes_of(*old(buf)) + frame(
            24,
            1,
            be32(correlation_id as int) + text(routing_key@) + text(super_stream@),
        ),
{
    let request = Request::from(
        SuperStreamRouteRequest::new(correlation_id, routing_key, super_stream),
    );
    let _ = request.encode(&mut buf.writer());
}

/// Calls `ConsumerUpdateRequestCommand::new` and `Request::encode`, which writes the frame of the
/// command. The sizes are added in 32 bits, which panics where they do not fit.
#[verifier::external_body]
pub(crate) fn put_consumer_update_request(
    buf: &mut BytesMut,
    correlation_id: u32,
    response_code: u16,
    offset_specification: OffsetSpecification,
)
    requires
        body_fits(
            bytes_of(*old(buf)).len(),
            (be32(correlation_id as int) + be16(response_code as int)
                + offset_bytes(offset_specification)).len(),
        ),
    ensures
        bytes_of(*final(buf)) == bytes_of(*old(buf)) + frame(
            32794,
            1,
            be32(correlation_id as int) + be16(response_code as int)
                + offset_bytes(offset_specification),
        ),
{
    let start = match offset_specification {
        OffsetSpecification::First => ProtocolOffset::First,
        OffsetSpecification::Last => ProtocolOffset::Last,
        OffsetSpecification::Next => ProtocolOffset::Next,
        OffsetSpecification::Offset(n) => ProtocolOffset::Offset(n),
        OffsetSpecification::Timestamp(n) => ProtocolOffset::Timestamp(n),
    };
    let request = Request::from(
        ConsumerUpdateRequestCommand::new(correlation_id, response_code, start),
    );
    let _ = request.encode(&mut buf.writer());
}

/// Calls `PublishCommand::new` and `Request::encode`, which writes the frame of the command. Each
/// message is made with `Message::builder` and `PublishedMessage::new`, and holds nothing but its
/// data. The sizes are added in 32 bits, which panics where they do not fit.
#[verifier::external_body]
pub(crate) fn put_publish(
    buf: &mut BytesMut,
    publisher_id: u8,
    messages: Vec<PublishedData>,
    version: u16,
)
    requires
        body_fits(
            bytes_of(*old(buf)).len(),
            (seq![publisher_id] + be32(messages@.len() as int)
                + joined_messages(messages@, version)).len(),
        ),
    ensures
        bytes_of(*final(buf)) == bytes_of(*old(buf)) + frame(
            2,
            version as int,
            seq![publisher_id] + be32(messages@.len() as int)
                + joined_messages(messages@, version),
        ),
{
    let published = messages.into_iter().map(|m| {
        let message = Message::builder().body(m.data).build();
        PublishedMessage::new(m.publishing_id, message, m.filter_value)
    });
    let request = Request::from(PublishCommand::new(publisher_id, published.collect(), version));
    let _ = request.encode(&mut buf.writer());
}

/// The response code of a frame.
pub open spec fn code_at(bytes: Seq<u8>) -> u16 {
    be16_at(bytes, 12) as u16
}

/// Whether the first frame is complete, and its key is the given one.
pub open spec fn is_frame_of(bytes: Seq<u8>, key: int) -> bool {
    frame_walk(bytes) is At && frame_key(bytes) == key
}

/// Calls `Response::decode`, which reads the first frame of the bytes, and
/// `Response::correlation_id`; returns how many bytes follow the frame, and its identifier. It
/// panics where a length leads out of the bytes, a name is missing, a map in a message has an odd
/// number of items or a key of a map holds a map; it runs out of stack where values in a message are
/// nested too deeply, and out of memory where a number of parts asks for more than there is.
/// The words of a failure to read a message are left unsaid.
#[verifier::external_body]
pub(crate) fn decode_response(bytes: &[u8]) -> (
    outcome: Result<(usize, Option<u32>), DecodeFailure>
)
    requires
        !(frame_walk(bytes@) is Outside),
        is_shallow(bytes@),
    ensures
        match frame_walk(bytes@) {
            Walk::At(end) => outcome == Ok::<(usize, Option<u32>), DecodeFailure>(
                ((bytes@.len() - end) as usize, correlation_at(bytes@)),
            ),
            Walk::Short => outcome matches Err(failure) && failure is Incomplete,
            Walk::Bad(why) => outcome matches Err(failure) && why.leads_to(failure),
            Walk::Outside => true,
        },
{
    match Response::decode(bytes) {
        Ok((rest, response)) => Ok((rest.len(), response.correlation_id())),
        Err(DecodeError::Incomplete(missing)) => Err(DecodeFailure::Incomplete(missing.0)),
        Err(DecodeError::Utf8Error(_)) => Err(DecodeFailure::Utf8Error),
        Err(DecodeError::UnknownResponseCode(code)) => Err(
            DecodeFailure::UnknownResponseCode(code),
        ),
        Err(DecodeError::UnsupportedResponseType(key)) => Err(
            DecodeFailure::UnsupportedResponseType(key),
        ),
        Err(DecodeError::MismatchSize(size)) => Err(DecodeFailure::MismatchSize(size)),
        Err(DecodeError::MessageParse(text)) => Err(DecodeFailure::MessageParse(text)),
        Err(DecodeError::InvalidFormatCode(code)) => Err(DecodeFailure::InvalidFormatCode(code)),
        Err(DecodeError::Empty) => Err(DecodeFailure::Empty),
    }
}

/// Calls `Response::decode` and `Response::get` for a `GenericResponse`; returns its code.
#[verifier::external_body]
pub(crate) fn generic_of(bytes: &[u8]) -> (code: Option<u16>)
    requires
        frame_walk(bytes@) is At,
        is_generic_key(frame_key(bytes@)),
    ensures
        code == Some(code_at(bytes@)),
{
    let body: GenericResponse = Response::decode(bytes).ok()?.1.get()?;
    Some(body.code().into())
}

/// Calls `Response::decode` and `Response::get` for an `OpenResponse`; returns its code and its
/// table, in the order in which a `HashMap` is walked.
#[verifier::external_body]
pub(crate) fn open_of(bytes: &[u8]) -> (body: Option<(u16, Vec<(String, String)>)>)
    requires
        is_frame_of(bytes@, 21),
    ensures
        body is Some,
        (body->0).0 == code_at(bytes@),
        distinct_keys((body->0).1@),
        entry_map((body->0).1@) == (if code_at(bytes@) == 1 {
            table_at(bytes@, 18, be32_at(bytes@, 14), Map::empty())
        } else {
            Map::empty()
        }),
{
    let body: OpenResponse = Response::decode(bytes).ok()?.1.get()?;
    Some((body.code().into(), body.connection_properties.into_iter().collect()))
}

/// Calls `Response::decode` and `Response::get` for a `CloseResponse`; returns whether its code
/// tells success.
#[verifier::external_body]
pub(crate) fn close_of(bytes: &[u8]) -> (success: Option<bool>)
    requires
        is_frame_of(bytes@, 22),
    ensures
        success == Some(code_at(bytes@) == 1),
{
    let body: CloseResponse = Response::decode(bytes).ok()?.1.get()?;
    Some(body.is_ok())
}

/// Calls `Response::decode` and `Response::get` for a `PeerPropertiesResponse`; returns its table,
/// in the order in which a `HashMap` is walked.
#[verifier::external_body]
pub(crate) fn peer_properties_of(bytes: &[u8]) -> (body: Option<Vec<(String, String)>>)
    requires
        is_frame_of(bytes@, 17),
    ensures
        body is Some,
        distinct_keys(body->0@),
        entry_map(body->0@) == table_at(bytes@, 18, be32_at(bytes@, 14), Map::empty()),
{
    let body: PeerPropertiesResponse = Response::decode(bytes).ok()?.1.get()?;
    Some(body.server_properties.into_iter().collect())
}

/// Calls `Response::decode` and `Response::get` for a `SaslHandshakeResponse`; returns the
/// mechanisms.
#[verifier::external_body]
pub(crate) fn sasl_handshake_of(bytes: &[u8]) -> (mechanisms: Option<Vec<String>>)
    requires
        is_frame_of(bytes@, 18),
    ensures
        mechanisms is Some,
        views(mechanisms->0@) == texts_at(bytes@, 18, be32_at(bytes@, 14)),
{
    let body: SaslHandshakeResponse = Response::decode(bytes).ok()?.1.get()?;
    Some(body.mechanisms)
}

/// Calls `Response::decode` and `Response::get` for a `TunesCommand`; returns the largest frame
/// and the heartbeat.
#[verifier::external_body]
pub(crate) fn tunes_of(bytes: &[u8]) -> (limits: Option<(u32, u32)>)
    requires
        is_frame_of(bytes@, 20),
    ensures
        limits == Some((be32_at(bytes@, 8) as u32, be32_at(bytes@, 12) as u32)),
{
    let body: TunesCommand = Response::decode(bytes).ok()?.1.get()?;
    Some((body.max_frame_size, body.heartbeat))
}

/// Calls `Response::decode` and `Response::get` for a `MetadataResponse`; returns the brokers: the
/// reference, the host and the port of each.
#[verifier::external_body]
pub(crate) fn brokers_of_metadata(bytes: &[u8]) -> (brokers: Option<Vec<(u16, String, u32)>>)
    requires
        is_frame_of(bytes@, 15),
    ensures
        brokers is Some,
        broker_views(brokers->0@) == brokers_at(bytes@, 16, be32_at(bytes@, 12)),
{
    let body: MetadataResponse = Response::decode(bytes).ok()?.1.get()?;
    Some(
        body.brokers.into_iter().map(|broker| (broker.reference, broker.host, broker.port)).collect(),
    )
}

/// Calls `Response::decode` and `Response::get` for a `MetadataResponse`; returns the streams: the
/// name, the code, the leader and the replicas of each.
#[verifier::external_body]
pub(crate) fn streams_of_metadata(bytes: &[u8]) -> (
    streams: Option<Vec<(String, u16, u16, Vec<u16>)>>
)
    requires
        is_frame_of(bytes@, 15),
    ensures
        streams is Some,
        stream_views(streams->0@) == streams_at(
            bytes@,
            streams_start(bytes@) + 4,
            be32_at(bytes@, streams_start(bytes@)),
        ),
        forall|i: int| 0 <= i < streams->0@.len() ==> 1 <= (#[trigger] streams->0@[i]).1 <= 19,
{
    let body: MetadataResponse = Response::decode(bytes).ok()?.1.get()?;
    let streams = body.stream_metadata.into_iter();
    Some(
        streams.map(|s| (s.stream_name, (&s.code).into(), s.leader_reference, s.replicas_references)).collect(),
    )
}

/// Calls `Response::decode` and `Response::get` for a `QueryOffsetResponse`; returns its code and
/// the offset.
#[verifier::external_body]
pub(crate) fn query_offset_of(bytes: &[u8]) -> (body: Option<(u16, u64)>)
    requires
        is_frame_of(bytes@, 11),
    ensures
        body == Some((code_at(bytes@), be64_at(bytes@, 14) as u64)),
{
    let body: QueryOffsetResponse = Response::decode(bytes).ok()?.1.get()?;
    Some((body.code().into(), body.from_response()))
}

/// Calls `Response::decode` and `Response::get` for a `QueryPublisherResponse`; returns the
/// sequence number.
#[verifier::external_body]
pub(crate) fn query_publisher_of(bytes: &[u8]) -> (sequence: Option<u64>)
    requires
        is_frame_of(bytes@, 5),
    ensures
        sequence == Some(be64_at(bytes@, 14) as u64),
{
    let body: QueryPublisherResponse = Response::decode(bytes).ok()?.1.get()?;
    Some(body.from_response())
}

/// Calls `Response::decode` and `Response::get` for an `ExchangeCommandVersionsResponse`; returns
/// its code.
#[verifier::external_body]
pub(crate) fn versions_of(bytes: &[u8]) -> (code: Option<u16>)
    requires
        is_frame_of(bytes@, 27),
    ensures
        code == Some(code_at(bytes@)),
{
    let body: ExchangeCommandVersionsResponse = Response::decode(bytes).ok()?.1.get()?;
    Some(body.code().into())
}

/// Calls `Response::decode` and `Response::kind` for a `DeliverCommand`; returns its subscription,
/// its first offset and, from `Message::data`, the data of its messages.
#[verifier::external_body]
pub(crate) fn deliver_of(bytes: &[u8]) -> (body: Option<(u8, u64, Vec<Option<Vec<u8>>>)>)
    requires
        is_frame_of(bytes@, 8),
        is_shallow(bytes@),
    ensures
        body is Some,
        (body->0).0 == bytes@[8],
        (body->0).1 == be64_at(bytes@, 33),
        (body->0).2@.len() == delivered_at(bytes@).len(),
        forall|i: int|
            0 <= i < (body->0).2@.len() ==> data_view(#[trigger] (body->0).2@[i]) == message_data(
                delivered_at(bytes@)[i],
            ),
{
    match Response::decode(bytes).ok()?.1.kind() {
        ResponseKind::Deliver(body) => {
            let data = body.messages.iter().map(|message| message.data().map(|data| data.to_vec()));
            Some((body.subscription_id, body.chunk_first_offset, data.collect()))
        },
        _ => None,
    }
}

/// Calls `Response::decode` and `Response::kind` for a `PublishConfirm`; returns the publisher and
/// the identifiers.
#[verifier::external_body]
pub(crate) fn confirm_of(bytes: &[u8]) -> (body: Option<(u8, Vec<u64>)>)
    requires
        is_frame_of(bytes@, 3),
    ensures
        body is Some,
        (body->0).0 == bytes@[8],
        (body->0).1@ == long_numbers_at(bytes@, 13, be32_at(bytes@, 9)),
{
    match Response::decode(bytes).ok()?.1.kind() {
        ResponseKind::PublishConfirm(body) => Some((body.publisher_id, body.publishing_ids)),
        _ => None,
    }
}

/// Calls `Response::decode` and `Response::kind` for a `PublishErrorResponse`; returns the
/// publisher, and the identifier and the code of each message.
#[verifier::external_body]
pub(crate) fn publish_error_of(bytes: &[u8]) -> (body: Option<(u8, Vec<(u64, u16)>)>)
    requires
        is_frame_of(bytes@, 4),
    ensures
        body is Some,
        (body->0).0 == bytes@[8],
        (body->0).1@ == errors_at(bytes@, 13, be32_at(bytes@, 9)),
{
    match Response::decode(bytes).ok()?.1.kind() {
        ResponseKind::PublishError(body) => {
            let errors = body.publishing_errors.iter();
            let errors = errors.map(|error| (error.publishing_id, (&error.error_code).into()));
            Some((body.publisher_id, errors.collect()))
        },
        _ => None,
    }
}

/// Calls `Response::decode` and `Response::kind` for a `ConsumerUpdateCommand`; returns its
/// identifier and whether the consumer is active.
#[verifier::external_body]
pub(crate) fn consumer_update_of(bytes: &[u8]) -> (body: Option<(u32, u8)>)
    requires
        is_frame_of(bytes@, 26),
    ensures
        body == Some((be32_at(bytes@, 8) as u32, bytes@[13])),
{
    match Response::decode(bytes).ok()?.1.kind() {
        ResponseKind::ConsumerUpdate(body) => Some((body.get_correlation_id(), body.is_active())),
        _ => None,
    }
}

/// Calls `Response::decode` and `Response::get` for a `SuperStreamPartitionsResponse`; returns
/// whether its code tells success, and the streams.
#[verifier::external_body]
pub(crate) fn partitions_of(bytes: &[u8]) -> (body: Option<(bool, Vec<String>)>)
    requires
        is_frame_of(bytes@, 25),
    ensures
        body is Some,
        (body->0).0 == (code_at(bytes@) == 1),
        views((body->0).1@) == texts_at(bytes@, 18, be32_at(bytes@, 14)),
{
    let body: SuperStreamPartitionsResponse = Response::decode(bytes).ok()?.1.get()?;
    Some((body.is_ok(), body.streams))
}

/// Calls `Response::decode` and `Response::get` for a `SuperStreamRouteResponse`; returns whether
/// its code tells success, and the streams.
#[verifier::external_body]
pub(crate) fn route_of(bytes: &[u8]) -> (body: Option<(bool, Vec<String>)>)
    requires
        is_frame_of(bytes@, 24),
    ensures
        body is Some,
        (body->0).0 == (code_at(bytes@) == 1),
        views((body->0).1@) == texts_at(bytes@, 18, be32_at(bytes@, 14)),
{
    let body: SuperStreamRouteResponse = Response::decode(bytes).ok()?.1.get()?;
    Some((body.is_ok(), body.streams))
}

} // verus!
