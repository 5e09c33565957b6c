//! The sizes of requests, counted up to the size that no frame can have.

use crate::frames::{
    fixed_body, is_body, joined_messages, message_bytes, offset_bytes, request_fits, request_table,
};
use crate::properties::Properties;
use crate::request::{OffsetSpecification, PublishedData, Request};
use crate::wire::{
    is_table, joined_pairs, joined_texts, lemma_entries_are_table, lemma_sizes, lemma_table_sizes,
    optional_text, pairs_of, table, text, text_list,
};
use vstd::prelude::*;

verus! {

/// A size from which on sizes are not told apart.
pub const SIZE_LIMIT: u64 = 0x1_0000_0000;

/// A size, counted up to the limit.
pub open spec fn capped(size: nat) -> u64 {
    if size < SIZE_LIMIT {
        size as u64
    } else {
        SIZE_LIMIT
    }
}

/// Returns the sum of two sizes.
fn plus(first: u64, second: u64) -> (sum: u64)
    requires
        first <= SIZE_LIMIT,
        second <= SIZE_LIMIT,
    ensures
        sum == capped((first + second) as nat),
        sum <= SIZE_LIMIT,
{
    if first + second < SIZE_LIMIT {
        first + second
    } else {
        SIZE_LIMIT
    }
}

/// Returns a number of bytes as a size.
fn count_size(count: usize) -> (size: u64)
    ensures
        size == capped(count as nat),
        size <= SIZE_LIMIT,
{
    if (count as u64) < SIZE_LIMIT {
        count as u64
    } else {
        SIZE_LIMIT
    }
}

/// Returns the size of a text.
fn text_size(content: &str) -> (size: u64)
    ensures
        size == capped(text(content@).len()),
        size <= SIZE_LIMIT,
{
    proof {
        lemma_sizes();
    }
    plus(2, count_size(content.as_bytes().len()))
}

/// Returns the size of a text that may be absent.
fn optional_text_size(content: &Option<String>) -> (size: u64)
    ensures
        size == capped(optional_text(*content).len()),
        size <= SIZE_LIMIT,
{
    proof {
        lemma_sizes();
    }
    match content {
        Some(string) => text_size(string.as_str()),
        None => 2,
    }
}

/// Returns the size of a list of texts.
fn text_list_size(list: &Vec<String>) -> (size: u64)
    ensures
        size == capped(text_list(list@).len()),
        size <= SIZE_LIMIT,
{
    let mut size: u64 = 4;
    let mut i: usize = 0;
    proof {
        lemma_sizes();
    }
    while i < list.len()
        invariant
            i <= list.len(),
            size == capped(4 + joined_texts(list@.take(i as int)).len()),
            size <= SIZE_LIMIT,
        decreases list.len() - i,
    {
        assert(list@.take(i + 1).drop_last() =~= list@.take(i as int));
        size = plus(size, text_size(list[i].as_str()));
        i = i + 1;
    }
    assert(list@.take(i as int) =~= list@);
    size
}

/// Whether a map has tables, and all of them have the given size.
pub open spec fn is_table_size(map: Map<Seq<char>, Seq<char>>, size: u64) -> bool {
    &&& forall|bytes: Seq<u8>| #[trigger] is_table(map, bytes) ==> size == capped(bytes.len())
    &&& exists|bytes: Seq<u8>| is_table(map, bytes)
}

/// Returns the size of a table.
fn table_size(properties: &Properties) -> (size: u64)
    ensures
        is_table_size(properties@, size),
        size <= SIZE_LIMIT,
{
    let entries = properties.to_entries();
    let mut size: u64 = 4;
    let mut i: usize = 0;
    let ghost pairs = pairs_of(entries@);
    proof {
        lemma_sizes();
    }
    while i < entries.len()
        invariant
            i <= entries.len(),
            pairs == pairs_of(entries@),
            size == capped(4 + joined_pairs(pairs.take(i as int)).len()),
            size <= SIZE_LIMIT,
        decreases entries.len() - i,
    {
        assert(pairs.take(i + 1).drop_last() =~= pairs.take(i as int));
        size = plus(size, text_size(entries[i].0.as_str()));
        size = plus(size, text_size(entries[i].1.as_str()));
        i = i + 1;
    }
    proof {
        assert(pairs.take(i as int) =~= pairs);
        lemma_entries_are_table(entries@);
        assert forall|bytes: Seq<u8>| #[trigger] is_table(properties@, bytes) implies size == capped(
            bytes.len(),
        ) by {
            lemma_table_sizes(properties@, bytes, table(pairs));
        }
    }
    size
}

/// Returns the size of the start of a subscription.
fn offset_size(offset_specification: &OffsetSpecification) -> (size: u64)
    ensures
        size == capped(offset_bytes(*offset_specification).len()),
        size <= SIZE_LIMIT,
{
    proof {
        lemma_sizes();
    }
    match offset_specification {
        OffsetSpecification::Offset(_) => 10,
        OffsetSpecification::Timestamp(_) => 10,
        _ => 2,
    }
}

/// Returns the size of a message that holds data.
fn message_size(data: &Vec<u8>) -> (size: u64)
    ensures
        size == capped(message_bytes(data@).len()),
        size <= SIZE_LIMIT,
{
    proof {
        lemma_sizes();
    }
    if data.len() > 255 {
        plus(8, count_size(data.len()))
    } else {
        plus(5, count_size(data.len()))
    }
}

/// Returns the size of the messages of a request.
fn messages_size(messages: &Vec<PublishedData>, version: u16) -> (size: u64)
    ensures
        size == capped(joined_messages(messages@, version).len()),
        size <= SIZE_LIMIT,
{
    let mut size: u64 = 0;
    let mut i: usize = 0;
    while i < messages.len()
        invariant
            i <= messages.len(),
            size == capped(joined_messages(messages@.take(i as int), version).len()),
            size <= SIZE_LIMIT,
        decreases messages.len() - i,
    {
        proof {
            lemma_sizes();
            assert(messages@.take(i + 1).drop_last() =~= messages@.take(i as int));
        }
        size = plus(size, 12);
        if version == 2 {
            size = plus(size, optional_text_size(&messages[i].filter_value));
        }
        size = plus(size, message_size(&messages[i].data));
        i = i + 1;
    }
    assert(messages@.take(i as int) =~= messages@);
    size
}

/// Returns the size of the body of a request, but for the table at its end.
fn fixed_size(request: &Request) -> (size: u64)
    ensures
        size == capped(fixed_body(*request).len()),
        size <= SIZE_LIMIT,
{
    proof {
        reveal(fixed_body);
        lemma_sizes();
    }
    match request {
        Request::PeerProperties { .. } => 4,
        Request::SaslHandshake { .. } => 4,
        Request::SaslAuthenticate { mechanism, sasl_data, .. } => {
            let start: u64 = plus(4, text_size(mechanism.as_str()));
            plus(plus(start, 4), count_size(sasl_data.len()))
        },
        Request::Tunes { .. } => 8,
        Request::Open { virtual_host, .. } => plus(4, text_size(virtual_host.as_str())),
        Request::Close { closing_reason, .. } => plus(6, text_size(closing_reason.as_str())),
        Request::Delete { stream, .. } => plus(4, text_size(stream.as_str())),
        Request::CreateStream { stream, .. } => plus(4, text_size(stream.as_str())),
        Request::Subscribe { stream, offset_specification, .. } => {
            let start: u64 = plus(5, text_size(stream.as_str()));
            plus(plus(start, offset_size(offset_specification)), 2)
        },
        Request::Credit { .. } => 3,
        Request::Metadata { streams, .. } => plus(4, text_list_size(streams)),
        Request::DeclarePublisher { publisher_reference, stream, .. } => {
            let start: u64 = plus(5, optional_text_size(publisher_reference));
            plus(start, text_size(stream.as_str()))
        },
        Request::DeletePublisher { .. } => 5,
        Request::Heartbeat => 0,
        Request::QueryOffset { reference, stream, .. } => {
            let start: u64 = plus(4, text_size(reference.as_str()));
            plus(start, text_size(stream.as_str()))
        },
        Request::QueryPublisherSequence { reference, stream, .. } => {
            let start: u64 = plus(4, text_size(reference.as_str()));
            plus(start, text_size(stream.as_str()))
        },
        Request::StoreOffset { reference, stream, .. } => {
            let start: u64 = text_size(reference.as_str());
            plus(plus(start, text_size(stream.as_str())), 8)
        },
        Request::Unsubscribe { .. } => 5,
        Request::ExchangeCommandVersions { .. } => 8,
        Request::CreateSuperStream { super_stream, partitions, binding_keys, .. } => {
            let start: u64 = plus(4, text_size(super_stream.as_str()));
            plus(plus(start, text_list_size(partitions)), text_list_size(binding_keys))
        },
        Request::DeleteSuperStream { super_stream, .. } => plus(
            4,
            text_size(super_stream.as_str()),
        ),
        Request::SuperStreamPartitions { super_stream, .. } => plus(
            4,
            text_size(super_stream.as_str()),
        ),
        Request::SuperStreamRoute { routing_key, super_stream, .. } => {
            let start: u64 = plus(4, text_size(routing_key.as_str()));
            plus(start, text_size(super_stream.as_str()))
        },
        Request::ConsumerUpdateRequest { offset_specification, .. } => plus(
            6,
            offset_size(offset_specification),
        ),
        Request::Publish { messages, version, .. } => plus(5, messages_size(messages, *version)),
    }
}

/// Returns the size of the table at the end of a request.
fn end_size(request: &Request) -> (size: u64)
    ensures
        size <= SIZE_LIMIT,
        request_table(*request) is None ==> size == 0,
        request_table(*request) matches Some(map) ==> is_table_size(map, size),
{
    match request {
        Request::PeerProperties { client_properties, .. } => table_size(client_properties),
        Request::CreateStream { arguments, .. } => table_size(arguments),
        Request::Subscribe { properties, .. } => table_size(properties),
        Request::CreateSuperStream { arguments, .. } => table_size(arguments),
        _ => 0,
    }
}

/// Returns whether the frame of a request can be appended to `buffered` bytes.
pub fn fits(request: &Request, buffered: usize) -> (possible: bool)
    ensures
        possible == request_fits(buffered as nat, *request),
{
    let fixed: u64 = fixed_size(request);
    let end: u64 = end_size(request);
    let size: u64 = plus(fixed, end);
    proof {
        reveal(is_body);
        assert forall|body: Seq<u8>| #[trigger] is_body(*request, body) implies size == capped(
            body.len(),
        ) by {
            if request_table(*request) is Some {
                let map = request_table(*request)->0;
                let bytes = choose|bytes: Seq<u8>| #[trigger]
                    is_table(map, bytes) && body == fixed_body(*request) + bytes;
            }
        }
        if request_table(*request) is Some {
            let map = request_table(*request)->0;
            let bytes = choose|bytes: Seq<u8>| is_table(map, bytes);
            assert(is_body(*request, fixed_body(*request) + bytes));
        } else {
            assert(is_body(*request, fixed_body(*request)));
        }
    }
    if size > u32::MAX as u64 - 4 {
        return false;
    }
    let most: u64 = isize::MAX as u64 - 8;
    size <= most && buffered as u64 <= most - size
}

} // verus!
