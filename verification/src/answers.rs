//! The frames of the server, as it writes them and as they are read.

use crate::codec::{frame_table, frame_texts, reads, reads_errors, reads_metadata};
use crate::frames::request_key;
use crate::layout::{
    after_list, after_outcome, after_part, after_parts, after_text, brokers_at, commands_at,
    errors_at, frame_key, frame_walk, is_generic_key, law_text_is_read_back, long_numbers_at,
    numbers_at, streams_at, streams_start, table_at, text_at, text_end, texts_at, views, Part,
};
use crate::request::Request;
use crate::response::{
    lemma_code_number_injective, BrokerEntry, CloseResponse, CommandVersions, ConsumerUpdateCommand,
    CreditResponse, GenericResponse, PublishingError, QueryOffsetResponse, QueryPublisherResponse, Response,
    ResponseCode, ResponseKind, StreamEntry, TunesCommand,
};
use crate::walk::{Malformed, Walk};
use crate::wire::{
    be16, be16_at, be32, be32_at, be64, be64_at, joined_pairs, joined_texts,
    law_numbers_are_read_back, lemma_sizes, lists_map, table, text, text_list,
};
use vstd::prelude::*;
use vstd::utf8::{encode_utf8, valid_utf8};

verus! {

/// Whether a piece stands in the bytes from position `at` on.
pub open spec fn stands(bytes: Seq<u8>, at: int, piece: Seq<u8>) -> bool {
    &&& 0 <= at
    &&& at + piece.len() <= bytes.len()
    &&& bytes.subrange(at, at + piece.len()) == piece
}

/// The answer of a server to a request: the key of the request with its highest bit set, the
/// identifier of the request, a response code and what else belongs to the answer.
pub open spec fn answer_frame(key: u16, id: u32, code: ResponseCode, rest: Seq<u8>) -> Seq<u8> {
    be32(10 + rest.len() as int) + be16(key + 0x8000) + be16(1) + be32(id as int) + be16(
        code.spec_number() as int,
    ) + rest
}

/// What a server sends without having been asked.
pub open spec fn pushed_frame(key: u16, rest: Seq<u8>) -> Seq<u8> {
    be32(4 + rest.len() as int) + be16(key as int) + be16(1) + rest
}

/// Whether a text can be read, and is not left out because it is empty.
pub open spec fn is_readable_text(content: Seq<char>) -> bool {
    0 < encode_utf8(content).len() < 0x8000
}

proof fn lemma_parts_stand(bytes: Seq<u8>, at: int, first: Seq<u8>, second: Seq<u8>)
    requires
        stands(bytes, at, first + second),
    ensures
        stands(bytes, at, first),
        stands(bytes, at + first.len(), second),
{
    let all = first + second;
    let piece = bytes.subrange(at, at + all.len());
    assert forall|i: int| 0 <= i < all.len() implies bytes[at + i] == #[trigger] all[i] by {
        assert(piece[i] == all[i]);
    }
    assert(bytes.subrange(at, at + first.len()) =~= first) by {
        assert forall|i: int| 0 <= i < first.len() implies bytes[at + i] == first[i] by {
            assert(all[i] == first[i]);
        }
    }
    let middle = at + first.len();
    assert(bytes.subrange(middle, middle + second.len()) =~= second) by {
        assert forall|i: int| 0 <= i < second.len() implies bytes[middle + i] == second[i] by {
            assert(all[first.len() + i] == second[i]);
        }
    }
}

proof fn lemma_around(bytes: Seq<u8>, at: int, piece: Seq<u8>)
    requires
        stands(bytes, at, piece),
    ensures
        bytes == bytes.take(at) + piece + bytes.skip(at + piece.len()),
        bytes.take(at).len() == at,
{
    assert(bytes =~= bytes.take(at) + bytes.subrange(at, at + piece.len()) + bytes.skip(
        at + piece.len(),
    ));
}

proof fn lemma_two_stand(bytes: Seq<u8>, at: int, n: u16)
    requires
        stands(bytes, at, be16(n as int)),
    ensures
        be16_at(bytes, at) == n,
        at + 2 <= bytes.len(),
{
    lemma_sizes();
    lemma_around(bytes, at, be16(n as int));
    law_numbers_are_read_back(bytes.take(at), n as u64, bytes.skip(at + 2));
}

proof fn lemma_four_stand(bytes: Seq<u8>, at: int, n: u32)
    requires
        stands(bytes, at, be32(n as int)),
    ensures
        be32_at(bytes, at) == n,
        at + 4 <= bytes.len(),
{
    lemma_sizes();
    lemma_around(bytes, at, be32(n as int));
    law_numbers_are_read_back(bytes.take(at), n as u64, bytes.skip(at + 4));
}

proof fn lemma_eight_stand(bytes: Seq<u8>, at: int, n: u64)
    requires
        stands(bytes, at, be64(n as int)),
    ensures
        be64_at(bytes, at) == n,
        at + 8 <= bytes.len(),
{
    lemma_sizes();
    lemma_around(bytes, at, be64(n as int));
    law_numbers_are_read_back(bytes.take(at), n, bytes.skip(at + 8));
}

proof fn lemma_text_stands(bytes: Seq<u8>, at: int, content: Seq<char>)
    requires
        stands(bytes, at, text(content)),
        is_readable_text(content),
    ensures
        after_text(bytes, Walk::At(at)) == Walk::At(at + text(content).len()),
        text_at(bytes, at) == content,
        text_end(bytes, at) == at + text(content).len(),
        0 < be16_at(bytes, at),
{
    lemma_sizes();
    lemma_around(bytes, at, text(content));
    law_text_is_read_back(bytes.take(at), content, bytes.skip(at + text(content).len()));
    reveal(text);
    let size = encode_utf8(content).len();
    lemma_parts_stand(bytes, at, be16(size as int), encode_utf8(content));
    lemma_two_stand(bytes, at, size as u16);
}

proof fn lemma_answer_head(key: u16, id: u32, code: ResponseCode, rest: Seq<u8>)
    requires
        key < 0x8000,
    ensures
        ({
            let bytes = answer_frame(key, id, code, rest);
            &&& bytes.len() == 14 + rest.len()
            &&& frame_key(bytes) == key
            &&& be32_at(bytes, 8) == id
            &&& be16_at(bytes, 12) == code.spec_number()
            &&& after_outcome(bytes) == Walk::At(14)
            &&& stands(bytes, 14, rest)
        }),
{
    let bytes = answer_frame(key, id, code, rest);
    let number = code.spec_number();
    lemma_sizes();
    let size = be32(10 + rest.len() as int);
    let marked = be16(key + 0x8000);
    let version = be16(1);
    let identifier = be32(id as int);
    let outcome = be16(number as int);
    assert(stands(bytes, 4, marked)) by {
        assert(bytes.subrange(4, 6) =~= marked);
    }
    assert(stands(bytes, 8, identifier)) by {
        assert(bytes.subrange(8, 12) =~= identifier);
    }
    assert(stands(bytes, 12, outcome)) by {
        assert(bytes.subrange(12, 14) =~= outcome);
    }
    assert(stands(bytes, 14, rest)) by {
        assert(bytes.subrange(14, 14 + rest.len() as int) =~= rest);
    }
    lemma_two_stand(bytes, 4, (key + 0x8000) as u16);
    lemma_four_stand(bytes, 8, id);
    lemma_two_stand(bytes, 12, number);
}

proof fn lemma_pushed_head(key: u16, rest: Seq<u8>)
    requires
        key < 0x8000,
    ensures
        ({
            let bytes = pushed_frame(key, rest);
            &&& bytes.len() == 8 + rest.len()
            &&& frame_key(bytes) == key
            &&& stands(bytes, 8, rest)
        }),
{
    let bytes = pushed_frame(key, rest);
    lemma_sizes();
    let marked = be16(key as int);
    assert(stands(bytes, 4, marked)) by {
        assert(bytes.subrange(4, 6) =~= marked);
    }
    assert(stands(bytes, 8, rest)) by {
        assert(bytes.subrange(8, 8 + rest.len() as int) =~= rest);
    }
    lemma_two_stand(bytes, 4, key);
}

/// The answer to a farewell is read as such, with whether the server agreed.
pub proof fn law_farewell_is_answered(id: u32, code: ResponseCode, response: Response)
    ensures
        ({
            let bytes = answer_frame(22, id, code, Seq::empty());
            &&& frame_walk(bytes) == Walk::At(bytes.len() as int)
            &&& reads(response, bytes) <==> response.correlation_id == Some(id) && response.kind
                == ResponseKind::Close(CloseResponse { ok: code is Success })
        }),
{
    lemma_answer_head(22, id, code, Seq::empty());
}

/// The last sequence number of a publisher is read as the server tells it.
pub proof fn law_sequence_is_read(id: u32, code: ResponseCode, sequence: u64, response: Response)
    ensures
        ({
            let bytes = answer_frame(5, id, code, be64(sequence as int));
            &&& frame_walk(bytes) == Walk::At(bytes.len() as int)
            &&& reads(response, bytes) <==> response.correlation_id == Some(id) && response.kind
                == ResponseKind::QueryPublisherSequence(QueryPublisherResponse { sequence })
        }),
{
    let bytes = answer_frame(5, id, code, be64(sequence as int));
    lemma_sizes();
    lemma_answer_head(5, id, code, be64(sequence as int));
    lemma_eight_stand(bytes, 14, sequence);
}

/// A stored offset is read as the server tells it, with the response code.
pub proof fn law_offset_is_read(id: u32, code: ResponseCode, offset: u64, response: Response)
    ensures
        ({
            let bytes = answer_frame(11, id, code, be64(offset as int));
            &&& frame_walk(bytes) == Walk::At(bytes.len() as int)
            &&& reads(response, bytes) <==> response.correlation_id == Some(id) && response.kind
                == ResponseKind::QueryOffset(QueryOffsetResponse { code, offset })
        }),
{
    let bytes = answer_frame(11, id, code, be64(offset as int));
    lemma_sizes();
    lemma_answer_head(11, id, code, be64(offset as int));
    lemma_eight_stand(bytes, 14, offset);
    if let ResponseKind::QueryOffset(body) = response.kind {
        if body.code.spec_number() == code.spec_number() {
            lemma_code_number_injective(body.code, code);
        }
    }
}

/// The limits that a server proposes are read as it tells them.
pub proof fn law_limits_are_read(max_frame_size: u32, heartbeat: u32, response: Response)
    ensures
        ({
            let bytes = pushed_frame(20, be32(max_frame_size as int) + be32(heartbeat as int));
            &&& frame_walk(bytes) == Walk::At(bytes.len() as int)
            &&& reads(response, bytes) <==> response.correlation_id is None && response.kind
                == ResponseKind::Tunes(TunesCommand { max_frame_size, heartbeat })
        }),
{
    let first = be32(max_frame_size as int);
    let second = be32(heartbeat as int);
    let bytes = pushed_frame(20, first + second);
    lemma_sizes();
    lemma_pushed_head(20, first + second);
    lemma_parts_stand(bytes, 8, first, second);
    lemma_four_stand(bytes, 8, max_frame_size);
    lemma_four_stand(bytes, 12, heartbeat);
}

/// A heartbeat is read as such.
pub proof fn law_heartbeat_is_read(response: Response)
    ensures
        ({
            let bytes = pushed_frame(23, Seq::empty());
            &&& frame_walk(bytes) == Walk::At(bytes.len() as int)
            &&& reads(response, bytes) <==> response.correlation_id is None && response.kind
                == ResponseKind::Heartbeat
        }),
{
    lemma_pushed_head(23, Seq::empty());
}

/// A refusal of credit is read as the server tells it: its response code and the subscription.
pub proof fn law_credit_refusal_is_read(
    code: ResponseCode,
    subscription_id: u8,
    response: Response,
)
    ensures
        ({
            let bytes = pushed_frame(9, be16(code.spec_number() as int) + seq![subscription_id]);
            &&& frame_walk(bytes) == Walk::At(bytes.len() as int)
            &&& reads(response, bytes) <==> response.correlation_id is None && response.kind
                == ResponseKind::Credit(CreditResponse { code, subscription_id })
        }),
{
    let number = be16(code.spec_number() as int);
    let rest = number + seq![subscription_id];
    let bytes = pushed_frame(9, rest);
    lemma_sizes();
    lemma_pushed_head(9, rest);
    lemma_parts_stand(bytes, 8, number, seq![subscription_id]);
    lemma_two_stand(bytes, 8, code.spec_number());
    assert(bytes.subrange(10, 11)[0] == subscription_id);
    if let ResponseKind::Credit(body) = response.kind {
        if body.code.spec_number() == code.spec_number() {
            lemma_code_number_injective(body.code, code);
        }
    }
}

/// A consumer update is read as the server tells it: its identifier, the subscription and whether it
/// has become active.
pub proof fn law_consumer_update_is_read(
    correlation_id: u32,
    subscription_id: u8,
    active: u8,
    response: Response,
)
    ensures
        ({
            let bytes = pushed_frame(
                26,
                be32(correlation_id as int) + seq![subscription_id, active],
            );
            &&& frame_walk(bytes) == Walk::At(bytes.len() as int)
            &&& reads(response, bytes) <==> response.correlation_id == Some(correlation_id)
                && response.kind == ResponseKind::ConsumerUpdate(
                ConsumerUpdateCommand { correlation_id, subscription_id, active },
            )
        }),
{
    let id = be32(correlation_id as int);
    let rest = id + seq![subscription_id, active];
    let bytes = pushed_frame(26, rest);
    lemma_sizes();
    lemma_pushed_head(26, rest);
    lemma_parts_stand(bytes, 8, id, seq![subscription_id, active]);
    lemma_four_stand(bytes, 8, correlation_id);
    assert(bytes.subrange(12, 14)[0] == subscription_id);
    assert(bytes.subrange(12, 14)[1] == active);
}

/// A change of metadata is read as the server tells it: its response code and the stream.
pub proof fn law_metadata_update_is_read(
    code: ResponseCode,
    stream: Seq<char>,
    response: Response,
)
    requires
        is_readable_text(stream),
    ensures
        ({
            let bytes = pushed_frame(16, be16(code.spec_number() as int) + text(stream));
            &&& frame_walk(bytes) == Walk::At(bytes.len() as int)
            &&& reads(response, bytes) <==> response.correlation_id is None && (
            response.kind matches ResponseKind::MetadataUpdate(body) && body.code == code
                && body.stream@ == stream)
        }),
{
    let number = be16(code.spec_number() as int);
    let rest = number + text(stream);
    let bytes = pushed_frame(16, rest);
    lemma_sizes();
    lemma_pushed_head(16, rest);
    lemma_parts_stand(bytes, 8, number, text(stream));
    lemma_two_stand(bytes, 8, code.spec_number());
    lemma_text_stands(bytes, 10, stream);
    if let ResponseKind::MetadataUpdate(body) = response.kind {
        if body.code.spec_number() == code.spec_number() {
            lemma_code_number_injective(body.code, code);
        }
    }
}

proof fn lemma_first_text(list: Seq<String>)
    requires
        0 < list.len(),
    ensures
        joined_texts(list) == text(list[0]@) + joined_texts(list.skip(1)),
    decreases list.len(),
{
    let front = list.drop_last();
    let rest = list.skip(1);
    if list.len() == 1 {
        assert(front =~= Seq::empty());
        assert(rest =~= Seq::empty());
        assert(joined_texts(list) =~= text(list[0]@) + joined_texts(rest));
    } else {
        lemma_first_text(front);
        assert(rest.drop_last() =~= front.skip(1));
        assert(joined_texts(list) =~= text(list[0]@) + joined_texts(rest));
    }
}

proof fn lemma_texts_stand(bytes: Seq<u8>, at: int, list: Seq<String>)
    requires
        stands(bytes, at, joined_texts(list)),
        forall|i: int| 0 <= i < list.len() ==> is_readable_text((#[trigger] list[i])@),
    ensures
        after_parts(bytes, Walk::At(at), list.len() as int, Part::Text) == Walk::At(
            at + joined_texts(list).len(),
        ),
        texts_at(bytes, at, list.len() as int) == views(list),
    decreases list.len(),
{
    if list.len() == 0 {
        assert(views(list) =~= Seq::empty());
    } else {
        let first = text(list[0]@);
        let rest = list.skip(1);
        lemma_first_text(list);
        lemma_parts_stand(bytes, at, first, joined_texts(rest));
        lemma_text_stands(bytes, at, list[0]@);
        assert forall|i: int| 0 <= i < rest.len() implies is_readable_text((#[trigger] rest[i])@) by {
            assert(rest[i] == list[i + 1]);
        }
        lemma_texts_stand(bytes, at + first.len(), rest);
        assert(after_part(bytes, at, Part::Text) == Walk::At(at + first.len()));
        assert(views(list) =~= seq![list[0]@] + views(rest));
    }
}

proof fn lemma_text_answer(key: u16, id: u32, code: ResponseCode, list: Seq<String>)
    requires
        key < 0x8000,
        list.len() <= u32::MAX,
        forall|i: int| 0 <= i < list.len() ==> is_readable_text((#[trigger] list[i])@),
    ensures
        ({
            let bytes = answer_frame(key, id, code, text_list(list));
            &&& frame_key(bytes) == key
            &&& be32_at(bytes, 8) == id
            &&& be16_at(bytes, 12) == code.spec_number()
            &&& after_list(bytes, after_outcome(bytes), Part::Text) == Walk::At(bytes.len() as int)
            &&& frame_texts(bytes) == views(list)
        }),
{
    let rest = text_list(list);
    let bytes = answer_frame(key, id, code, rest);
    lemma_sizes();
    lemma_answer_head(key, id, code, rest);
    lemma_parts_stand(bytes, 14, be32(list.len() as int), joined_texts(list));
    lemma_four_stand(bytes, 14, list.len() as u32);
    lemma_texts_stand(bytes, 18, list);
}

/// The mechanisms that a server offers are read as it lists them, all of them and in their order.
pub proof fn law_mechanisms_are_read(
    id: u32,
    code: ResponseCode,
    list: Seq<String>,
    response: Response,
)
    requires
        list.len() <= u32::MAX,
        forall|i: int| 0 <= i < list.len() ==> is_readable_text((#[trigger] list[i])@),
    ensures
        ({
            let bytes = answer_frame(18, id, code, text_list(list));
            &&& frame_walk(bytes) == Walk::At(bytes.len() as int)
            &&& reads(response, bytes) ==> response.correlation_id == Some(id) && (
            response.kind matches ResponseKind::SaslHandshake(body) && body.mechanisms@.len()
                == list.len() && (forall|i: int|
                0 <= i < list.len() ==> (#[trigger] body.mechanisms@[i])@ == list[i]@))
        }),
{
    lemma_text_answer(18, id, code, list);
    if let ResponseKind::SaslHandshake(body) = response.kind {
        if views(body.mechanisms@) == views(list) {
            lemma_same_texts(body.mechanisms@, list);
        }
    }
}

proof fn lemma_same_texts(first: Seq<String>, second: Seq<String>)
    requires
        views(first) == views(second),
    ensures
        first.len() == second.len(),
        forall|i: int| 0 <= i < first.len() ==> (#[trigger] first[i])@ == second[i]@,
{
    assert(views(first).len() == first.len());
    assert(views(second).len() == second.len());
    assert forall|i: int| 0 <= i < first.len() implies (#[trigger] first[i])@ == second[i]@ by {
        assert(views(first)[i] == first[i]@);
        assert(views(second)[i] == second[i]@);
    }
}

/// The streams of a super stream are read as the server lists them, all of them and in their order,
/// with whether it succeeded; and so are those to which a routing key leads.
pub proof fn law_streams_are_read(
    id: u32,
    code: ResponseCode,
    list: Seq<String>,
    partitions: Response,
    route: Response,
)
    requires
        list.len() <= u32::MAX,
        forall|i: int| 0 <= i < list.len() ==> is_readable_text((#[trigger] list[i])@),
    ensures
        ({
            let bytes = answer_frame(25, id, code, text_list(list));
            &&& frame_walk(bytes) == Walk::At(bytes.len() as int)
            &&& reads(partitions, bytes) ==> partitions.correlation_id == Some(id) && (
            partitions.kind matches ResponseKind::SuperStreamPartitions(body) && body.ok == (
            code is Success) && body.streams@.len() == list.len() && (forall|i: int|
                0 <= i < list.len() ==> (#[trigger] body.streams@[i])@ == list[i]@))
        }),
        ({
            let bytes = answer_frame(24, id, code, text_list(list));
            &&& frame_walk(bytes) == Walk::At(bytes.len() as int)
            &&& reads(route, bytes) ==> route.correlation_id == Some(id) && (
            route.kind matches ResponseKind::SuperStreamRoute(body) && body.ok == (code is Success)
                && body.streams@.len() == list.len() && (forall|i: int|
                0 <= i < list.len() ==> (#[trigger] body.streams@[i])@ == list[i]@))
        }),
{
    lemma_text_answer(25, id, code, list);
    lemma_text_answer(24, id, code, list);
    if let ResponseKind::SuperStreamPartitions(body) = partitions.kind {
        if views(body.streams@) == views(list) {
            lemma_same_texts(body.streams@, list);
        }
    }
    if let ResponseKind::SuperStreamRoute(body) = route.kind {
        if views(body.streams@) == views(list) {
            lemma_same_texts(body.streams@, list);
        }
    }
}

proof fn lemma_first_pair(pairs: Seq<(Seq<char>, Seq<char>)>)
    requires
        0 < pairs.len(),
    ensures
        joined_pairs(pairs) == text(pairs[0].0) + (text(pairs[0].1) + joined_pairs(pairs.skip(1))),
    decreases pairs.len(),
{
    let front = pairs.drop_last();
    let rest = pairs.skip(1);
    if pairs.len() == 1 {
        assert(front =~= Seq::empty());
        assert(rest =~= Seq::empty());
    } else {
        lemma_first_pair(front);
        assert(rest.drop_last() =~= front.skip(1));
    }
    assert(joined_pairs(pairs) =~= text(pairs[0].0) + (text(pairs[0].1) + joined_pairs(rest)));
}

/// Whether each pair has a key and a value that can be read, and no key occurs twice.
pub open spec fn are_readable_pairs(pairs: Seq<(Seq<char>, Seq<char>)>) -> bool {
    &&& forall|i: int|
        0 <= i < pairs.len() ==> is_readable_text((#[trigger] pairs[i]).0) && is_readable_text(
            pairs[i].1,
        )
    &&& forall|i: int, j: int|
        0 <= i < j < pairs.len() ==> (#[trigger] pairs[i]).0 != (#[trigger] pairs[j]).0
}

/// Whether some pair has the given key.
spec fn has_pair(pairs: Seq<(Seq<char>, Seq<char>)>, key: Seq<char>) -> bool {
    exists|i: int| 0 <= i < pairs.len() && (#[trigger] pairs[i]).0 == key
}

#[verifier::spinoff_prover]
proof fn lemma_pairs_stand(
    bytes: Seq<u8>,
    at: int,
    pairs: Seq<(Seq<char>, Seq<char>)>,
    known: Map<Seq<char>, Seq<char>>,
)
    requires
        stands(bytes, at, joined_pairs(pairs)),
        are_readable_pairs(pairs),
    ensures
        after_parts(bytes, Walk::At(at), pairs.len() as int, Part::Pair) == Walk::At(
            at + joined_pairs(pairs).len(),
        ),
        forall|key: Seq<char>| #[trigger]
            table_at(bytes, at, pairs.len() as int, known).contains_key(key) <==> (
            known.contains_key(key) || has_pair(pairs, key)),
        forall|i: int|
            0 <= i < pairs.len() ==> table_at(bytes, at, pairs.len() as int, known)[(
            #[trigger] pairs[i]).0] == pairs[i].1,
        forall|key: Seq<char>|
            known.contains_key(key) && !has_pair(pairs, key) ==> #[trigger] table_at(
                bytes,
                at,
                pairs.len() as int,
                known,
            )[key] == known[key],
    decreases pairs.len(),
{
    if pairs.len() > 0 {
        let first = text(pairs[0].0);
        let second = text(pairs[0].1);
        let rest = pairs.skip(1);
        let value_at = at + first.len();
        let next = value_at + second.len();
        lemma_first_pair(pairs);
        lemma_parts_stand(bytes, at, first, second + joined_pairs(rest));
        lemma_parts_stand(bytes, value_at, second, joined_pairs(rest));
        lemma_text_stands(bytes, at, pairs[0].0);
        lemma_text_stands(bytes, value_at, pairs[0].1);
        assert(are_readable_pairs(rest)) by {
            assert forall|i: int| 0 <= i < rest.len() implies is_readable_text(
                (#[trigger] rest[i]).0,
            ) && is_readable_text(rest[i].1) by {
                assert(rest[i] == pairs[i + 1]);
            }
            assert forall|i: int, j: int| 0 <= i < j < rest.len() implies (#[trigger] rest[i]).0 != (
            #[trigger] rest[j]).0 by {
                assert(rest[i] == pairs[i + 1] && rest[j] == pairs[j + 1]);
            }
        }
        let grown = known.insert(pairs[0].0, pairs[0].1);
        lemma_pairs_stand(bytes, next, rest, grown);
        assert(after_part(bytes, at, Part::Pair) == Walk::At(next));
        let all = table_at(bytes, at, pairs.len() as int, known);
        assert(all == table_at(bytes, next, rest.len() as int, grown));
        assert(!has_pair(rest, pairs[0].0)) by {
            if has_pair(rest, pairs[0].0) {
                let j = choose|j: int| 0 <= j < rest.len() && (#[trigger] rest[j]).0 == pairs[0].0;
                assert(rest[j] == pairs[j + 1]);
            }
        }
        assert forall|key: Seq<char>| #[trigger] all.contains_key(key) <==> (known.contains_key(key)
            || has_pair(pairs, key)) by {
            if has_pair(pairs, key) {
                let i = choose|i: int| 0 <= i < pairs.len() && (#[trigger] pairs[i]).0 == key;
                if i > 0 {
                    assert(rest[i - 1].0 == key);
                }
            }
            if has_pair(rest, key) {
                let i = choose|i: int| 0 <= i < rest.len() && (#[trigger] rest[i]).0 == key;
                assert(pairs[i + 1].0 == key);
            }
            assert(pairs[0].0 == pairs[0].0);
        }
        assert forall|i: int| 0 <= i < pairs.len() implies all[(#[trigger] pairs[i]).0]
            == pairs[i].1 by {
            if i > 0 {
                assert(rest[i - 1] == pairs[i]);
            }
        }
        assert forall|key: Seq<char>|
            known.contains_key(key) && !has_pair(pairs, key) implies #[trigger] all[key]
            == known[key] by {
            assert(pairs[0].0 != key);
            if has_pair(rest, key) {
                let i = choose|i: int| 0 <= i < rest.len() && (#[trigger] rest[i]).0 == key;
                assert(pairs[i + 1].0 == key);
            }
        }
    }
}

#[verifier::spinoff_prover]
proof fn lemma_table_answer(
    key: u16,
    id: u32,
    code: ResponseCode,
    pairs: Seq<(Seq<char>, Seq<char>)>,
    map: Map<Seq<char>, Seq<char>>,
)
    requires
        key < 0x8000,
        pairs.len() <= u32::MAX,
        are_readable_pairs(pairs),
        lists_map(pairs, map),
    ensures
        ({
            let bytes = answer_frame(key, id, code, table(pairs));
            &&& frame_key(bytes) == key
            &&& be32_at(bytes, 8) == id
            &&& be16_at(bytes, 12) == code.spec_number()
            &&& after_outcome(bytes) == Walk::At(14)
            &&& after_list(bytes, Walk::At(14), Part::Pair) == Walk::At(bytes.len() as int)
            &&& frame_table(bytes) == map
        }),
{
    let rest = table(pairs);
    let bytes = answer_frame(key, id, code, rest);
    lemma_sizes();
    lemma_answer_head(key, id, code, rest);
    lemma_parts_stand(bytes, 14, be32(pairs.len() as int), joined_pairs(pairs));
    lemma_four_stand(bytes, 14, pairs.len() as u32);
    lemma_pairs_stand(bytes, 18, pairs, Map::empty());
    let read = frame_table(bytes);
    assert forall|name: Seq<char>| #[trigger] read.contains_key(name) == map.contains_key(name) by {
        if has_pair(pairs, name) {
            let i = choose|i: int| 0 <= i < pairs.len() && (#[trigger] pairs[i]).0 == name;
            assert(map.contains_key(pairs[i].0));
        }
    }
    assert forall|name: Seq<char>| #[trigger] read.contains_key(name) implies read[name]
        == map[name] by {
        let i = choose|i: int| 0 <= i < pairs.len() && (#[trigger] pairs[i]).0 == name;
        assert(read[pairs[i].0] == pairs[i].1);
    }
    assert(read =~= map);
}

/// The properties of a server are read as it lists them, whatever their order is, and so are those of
/// a connection that it opens; one that it refuses to open has none.
pub proof fn law_properties_are_read(
    id: u32,
    code: ResponseCode,
    pairs: Seq<(Seq<char>, Seq<char>)>,
    map: Map<Seq<char>, Seq<char>>,
    introduction: Response,
    opening: Response,
    refusal: Response,
)
    requires
        pairs.len() <= u32::MAX,
        are_readable_pairs(pairs),
        lists_map(pairs, map),
    ensures
        ({
            let bytes = answer_frame(17, id, code, table(pairs));
            &&& frame_walk(bytes) == Walk::At(bytes.len() as int)
            &&& reads(introduction, bytes) ==> introduction.correlation_id == Some(id) && (
            introduction.kind matches ResponseKind::PeerProperties(body) && body.server_properties@
                == map)
        }),
        ({
            let bytes = answer_frame(21, id, ResponseCode::Success, table(pairs));
            &&& frame_walk(bytes) == Walk::At(bytes.len() as int)
            &&& reads(opening, bytes) ==> opening.correlation_id == Some(id) && (
            opening.kind matches ResponseKind::Open(body) && body.code is Success
                && body.connection_properties@ == map)
        }),
        !(code is Success) ==> ({
            let bytes = answer_frame(21, id, code, Seq::empty());
            &&& frame_walk(bytes) == Walk::At(bytes.len() as int)
            &&& reads(refusal, bytes) ==> refusal.correlation_id == Some(id) && (
            refusal.kind matches ResponseKind::Open(body) && body.code == code
                && body.connection_properties@ == Map::<Seq<char>, Seq<char>>::empty())
        }),
{
    lemma_table_answer(17, id, code, pairs, map);
    lemma_table_answer(21, id, ResponseCode::Success, pairs, map);
    lemma_answer_head(21, id, code, Seq::empty());
    if let ResponseKind::Open(body) = opening.kind {
        if body.code.spec_number() == 1 {
            lemma_code_number_injective(body.code, ResponseCode::Success);
        }
    }
    if let ResponseKind::Open(body) = refusal.kind {
        if body.code.spec_number() == code.spec_number() {
            lemma_code_number_injective(body.code, code);
        }
    }
}

/// The versions of commands, one after the other.
pub open spec fn joined_commands(list: Seq<CommandVersions>) -> Seq<u8>
    decreases list.len(),
{
    if list.len() == 0 {
        Seq::empty()
    } else {
        be16(list[0].command as int) + be16(list[0].min_version as int) + be16(
            list[0].max_version as int,
        ) + joined_commands(list.skip(1))
    }
}

proof fn lemma_commands_stand(bytes: Seq<u8>, at: int, list: Seq<CommandVersions>)
    requires
        stands(bytes, at, joined_commands(list)),
    ensures
        joined_commands(list).len() == 6 * list.len(),
        commands_at(bytes, at, list.len() as int) == list,
    decreases list.len(),
{
    let count = list.len() as int;
    if count > 0 {
        let first = list[0];
        let rest = list.skip(1);
        let a = be16(first.command as int);
        let b = be16(first.min_version as int);
        let c = be16(first.max_version as int);
        lemma_sizes();
        lemma_parts_stand(bytes, at, a + b + c, joined_commands(rest));
        lemma_parts_stand(bytes, at, a + b, c);
        lemma_parts_stand(bytes, at, a, b);
        lemma_two_stand(bytes, at, first.command);
        lemma_two_stand(bytes, at + 2, first.min_version);
        lemma_two_stand(bytes, at + 4, first.max_version);
        lemma_commands_stand(bytes, at + 6, rest);
        let read = commands_at(bytes, at, count);
        let others = commands_at(bytes, at + 6, count - 1);
        assert forall|i: int| 0 <= i < count implies #[trigger] read[i] == list[i] by {
            if i > 0 {
                assert(at + 6 * i == at + 6 + 6 * (i - 1));
                assert(read[i] == others[i - 1]);
                assert(rest[i - 1] == list[i]);
            }
        }
    }
    assert(commands_at(bytes, at, count) =~= list);
}

/// The versions of the commands are read as the server lists them, all of them and in their order,
/// with the response code.
pub proof fn law_versions_are_read(
    id: u32,
    code: ResponseCode,
    list: Seq<CommandVersions>,
    response: Response,
)
    requires
        list.len() < 0x8000_0000,
    ensures
        ({
            let bytes = answer_frame(
                27,
                id,
                code,
                be32(list.len() as int) + joined_commands(list),
            );
            &&& frame_walk(bytes) == Walk::At(bytes.len() as int)
            &&& reads(response, bytes) ==> response.correlation_id == Some(id) && (
            response.kind matches ResponseKind::ExchangeCommandVersions(body) && body.code == code
                && body.commands@ == list)
        }),
{
    let rest = be32(list.len() as int) + joined_commands(list);
    let bytes = answer_frame(27, id, code, rest);
    lemma_sizes();
    lemma_answer_head(27, id, code, rest);
    lemma_parts_stand(bytes, 14, be32(list.len() as int), joined_commands(list));
    lemma_four_stand(bytes, 14, list.len() as u32);
    lemma_commands_stand(bytes, 18, list);
    if let ResponseKind::ExchangeCommandVersions(body) = response.kind {
        if body.code.spec_number() == code.spec_number() {
            lemma_code_number_injective(body.code, code);
        }
    }
}

/// The identifiers of messages, one after the other.
pub open spec fn joined_ids(list: Seq<u64>) -> Seq<u8>
    decreases list.len(),
{
    if list.len() == 0 {
        Seq::empty()
    } else {
        be64(list[0] as int) + joined_ids(list.skip(1))
    }
}

proof fn lemma_ids_stand(bytes: Seq<u8>, at: int, list: Seq<u64>)
    requires
        stands(bytes, at, joined_ids(list)),
    ensures
        joined_ids(list).len() == 8 * list.len(),
        long_numbers_at(bytes, at, list.len() as int) == list,
    decreases list.len(),
{
    let count = list.len() as int;
    if count > 0 {
        let rest = list.skip(1);
        lemma_sizes();
        lemma_parts_stand(bytes, at, be64(list[0] as int), joined_ids(rest));
        lemma_eight_stand(bytes, at, list[0]);
        lemma_ids_stand(bytes, at + 8, rest);
        let read = long_numbers_at(bytes, at, count);
        let others = long_numbers_at(bytes, at + 8, count - 1);
        assert forall|i: int| 0 <= i < count implies #[trigger] read[i] == list[i] by {
            if i > 0 {
                assert(at + 8 * i == at + 8 + 8 * (i - 1));
                assert(read[i] == others[i - 1]);
                assert(rest[i - 1] == list[i]);
            }
        }
    }
    assert(long_numbers_at(bytes, at, count) =~= list);
}

/// A confirmation is read as the server tells it: the publisher and the identifiers of all messages
/// that were stored, in their order.
pub proof fn law_confirmation_is_read(publisher_id: u8, list: Seq<u64>, response: Response)
    requires
        list.len() < 0x8000_0000,
    ensures
        ({
            let bytes = pushed_frame(
                3,
                seq![publisher_id] + be32(list.len() as int) + joined_ids(list),
            );
            &&& frame_walk(bytes) == Walk::At(bytes.len() as int)
            &&& reads(response, bytes) ==> response.correlation_id is None && (
            response.kind matches ResponseKind::PublishConfirm(body) && body.publisher_id
                == publisher_id && body.publishing_ids@ == list)
        }),
{
    let count = be32(list.len() as int);
    let rest = seq![publisher_id] + count + joined_ids(list);
    let bytes = pushed_frame(3, rest);
    lemma_sizes();
    lemma_pushed_head(3, rest);
    lemma_parts_stand(bytes, 8, seq![publisher_id] + count, joined_ids(list));
    lemma_parts_stand(bytes, 8, seq![publisher_id], count);
    assert(bytes.subrange(8, 9)[0] == publisher_id);
    lemma_four_stand(bytes, 9, list.len() as u32);
    lemma_ids_stand(bytes, 13, list);
}

/// The messages that were not stored, each with its response code, one after the other.
pub open spec fn joined_errors(list: Seq<PublishingError>) -> Seq<u8>
    decreases list.len(),
{
    if list.len() == 0 {
        Seq::empty()
    } else {
        be64(list[0].publishing_id as int) + be16(list[0].error_code.spec_number() as int)
            + joined_errors(list.skip(1))
    }
}

proof fn lemma_errors_stand(bytes: Seq<u8>, at: int, list: Seq<PublishingError>)
    requires
        stands(bytes, at, joined_errors(list)),
    ensures
        joined_errors(list).len() == 10 * list.len(),
        after_parts(bytes, Walk::At(at), list.len() as int, Part::PublishingError) == Walk::At(
            at + 10 * list.len(),
        ),
        errors_at(bytes, at, list.len() as int) == list.map_values(
            |error: PublishingError| (error.publishing_id, error.error_code.spec_number()),
        ),
    decreases list.len(),
{
    let count = list.len() as int;
    let wanted = list.map_values(
        |error: PublishingError| (error.publishing_id, error.error_code.spec_number()),
    );
    if count > 0 {
        let first = list[0];
        let rest = list.skip(1);
        let id = be64(first.publishing_id as int);
        let number = be16(first.error_code.spec_number() as int);
        lemma_sizes();
        lemma_parts_stand(bytes, at, id + number, joined_errors(rest));
        lemma_parts_stand(bytes, at, id, number);
        lemma_eight_stand(bytes, at, first.publishing_id);
        lemma_two_stand(bytes, at + 8, first.error_code.spec_number());
        lemma_errors_stand(bytes, at + 10, rest);
        assert(after_part(bytes, at, Part::PublishingError) == Walk::At(at + 10));
        let read = errors_at(bytes, at, count);
        let others = errors_at(bytes, at + 10, count - 1);
        assert forall|i: int| 0 <= i < count implies #[trigger] read[i] == wanted[i] by {
            if i > 0 {
                assert(at + 10 * i == at + 10 + 10 * (i - 1));
                assert(read[i] == others[i - 1]);
                assert(rest[i - 1] == list[i]);
            }
        }
    }
    assert(errors_at(bytes, at, count) =~= wanted);
}

/// Publishing errors are read as the server tells them: the publisher and all messages that were not
/// stored, in their order, each with its own response code.
pub proof fn law_publishing_errors_are_read(
    publisher_id: u8,
    list: Seq<PublishingError>,
    response: Response,
)
    requires
        list.len() <= u32::MAX,
    ensures
        ({
            let bytes = pushed_frame(
                4,
                seq![publisher_id] + be32(list.len() as int) + joined_errors(list),
            );
            &&& frame_walk(bytes) == Walk::At(bytes.len() as int)
            &&& reads(response, bytes) ==> response.correlation_id is None && (
            response.kind matches ResponseKind::PublishError(body) && body.publisher_id
                == publisher_id && body.publishing_errors@ == list)
        }),
{
    let count = be32(list.len() as int);
    let rest = seq![publisher_id] + count + joined_errors(list);
    let bytes = pushed_frame(4, rest);
    lemma_sizes();
    lemma_pushed_head(4, rest);
    lemma_parts_stand(bytes, 8, seq![publisher_id] + count, joined_errors(list));
    lemma_parts_stand(bytes, 8, seq![publisher_id], count);
    assert(bytes.subrange(8, 9)[0] == publisher_id);
    lemma_four_stand(bytes, 9, list.len() as u32);
    lemma_errors_stand(bytes, 13, list);
    if let ResponseKind::PublishError(body) = response.kind {
        let errors = body.publishing_errors@;
        let listed = errors_at(bytes, 13, be32_at(bytes, 9));
        if reads_errors(errors, listed) {
            assert forall|i: int| 0 <= i < errors.len() implies #[trigger] errors[i] == list[i] by {
                assert(listed[i] == (list[i].publishing_id, list[i].error_code.spec_number()));
                lemma_code_number_injective(errors[i].error_code, list[i].error_code);
            }
            assert(errors =~= list);
        }
    }
}

/// The brokers, one after the other: the reference, the host and the port of each.
pub open spec fn joined_brokers(list: Seq<BrokerEntry>) -> Seq<u8>
    decreases list.len(),
{
    if list.len() == 0 {
        Seq::empty()
    } else {
        be16(list[0].reference as int) + text(list[0].host@) + be32(list[0].port as int)
            + joined_brokers(list.skip(1))
    }
}

#[verifier::spinoff_prover]
proof fn lemma_brokers_stand(bytes: Seq<u8>, at: int, list: Seq<BrokerEntry>)
    requires
        stands(bytes, at, joined_brokers(list)),
        forall|i: int| 0 <= i < list.len() ==> is_readable_text((#[trigger] list[i]).host@),
    ensures
        after_parts(bytes, Walk::At(at), list.len() as int, Part::Broker) == Walk::At(
            at + joined_brokers(list).len(),
        ),
        brokers_at(bytes, at, list.len() as int) == list.map_values(
            |broker: BrokerEntry| (broker.reference, broker.host@, broker.port),
        ),
    decreases list.len(),
{
    let wanted = list.map_values(
        |broker: BrokerEntry| (broker.reference, broker.host@, broker.port),
    );
    if list.len() == 0 {
        assert(wanted =~= Seq::empty());
    } else {
        let first = list[0];
        let rest = list.skip(1);
        let reference = be16(first.reference as int);
        let host = text(first.host@);
        let port = be32(first.port as int);
        let port_at = at + 2 + host.len();
        lemma_sizes();
        lemma_parts_stand(bytes, at, reference + host + port, joined_brokers(rest));
        lemma_parts_stand(bytes, at, reference + host, port);
        lemma_parts_stand(bytes, at, reference, host);
        lemma_two_stand(bytes, at, first.reference);
        lemma_text_stands(bytes, at + 2, first.host@);
        lemma_four_stand(bytes, port_at, first.port);
        assert forall|i: int| 0 <= i < rest.len() implies is_readable_text(
            (#[trigger] rest[i]).host@,
        ) by {
            assert(rest[i] == list[i + 1]);
        }
        lemma_brokers_stand(bytes, port_at + 4, rest);
        assert(after_part(bytes, at, Part::Broker) == Walk::At(port_at + 4));
        let others = rest.map_values(
            |broker: BrokerEntry| (broker.reference, broker.host@, broker.port),
        );
        assert(wanted =~= seq![(first.reference, first.host@, first.port)] + others);
    }
}

/// Numbers of two bytes, one after the other.
pub open spec fn joined_references(list: Seq<u16>) -> Seq<u8>
    decreases list.len(),
{
    if list.len() == 0 {
        Seq::empty()
    } else {
        be16(list[0] as int) + joined_references(list.skip(1))
    }
}

proof fn lemma_references_stand(bytes: Seq<u8>, at: int, list: Seq<u16>)
    requires
        stands(bytes, at, joined_references(list)),
    ensures
        joined_references(list).len() == 2 * list.len(),
        numbers_at(bytes, at, list.len() as int) == list,
    decreases list.len(),
{
    let count = list.len() as int;
    if count > 0 {
        let rest = list.skip(1);
        lemma_sizes();
        lemma_parts_stand(bytes, at, be16(list[0] as int), joined_references(rest));
        lemma_two_stand(bytes, at, list[0]);
        lemma_references_stand(bytes, at + 2, rest);
        let read = numbers_at(bytes, at, count);
        let others = numbers_at(bytes, at + 2, count - 1);
        assert forall|i: int| 0 <= i < count implies #[trigger] read[i] == list[i] by {
            if i > 0 {
                assert(at + 2 * i == at + 2 + 2 * (i - 1));
                assert(read[i] == others[i - 1]);
                assert(rest[i - 1] == list[i]);
            }
        }
    }
    assert(numbers_at(bytes, at, count) =~= list);
}

/// The streams, one after the other: the name, the response code, the leader and the replicas of
/// each.
pub open spec fn joined_streams(list: Seq<StreamEntry>) -> Seq<u8>
    decreases list.len(),
{
    if list.len() == 0 {
        Seq::empty()
    } else {
        text(list[0].stream_name@) + be16(list[0].code.spec_number() as int) + be16(
            list[0].leader_reference as int,
        ) + be32(list[0].replicas_references@.len() as int) + joined_references(
            list[0].replicas_references@,
        ) + joined_streams(list.skip(1))
    }
}

/// Whether a stream can be read: it has a name, and its replicas can be counted.
pub open spec fn is_readable_stream(stream: StreamEntry) -> bool {
    is_readable_text(stream.stream_name@) && stream.replicas_references@.len() < 0x8000_0000
}

#[verifier::spinoff_prover]
proof fn lemma_streams_stand(bytes: Seq<u8>, at: int, list: Seq<StreamEntry>)
    requires
        stands(bytes, at, joined_streams(list)),
        forall|i: int| 0 <= i < list.len() ==> is_readable_stream(#[trigger] list[i]),
    ensures
        after_parts(bytes, Walk::At(at), list.len() as int, Part::Stream) == Walk::At(
            at + joined_streams(list).len(),
        ),
        streams_at(bytes, at, list.len() as int) == list.map_values(
            |stream: StreamEntry|
                (
                    stream.stream_name@,
                    stream.code.spec_number(),
                    stream.leader_reference,
                    stream.replicas_references@,
                ),
        ),
    decreases list.len(),
{
    let wanted = list.map_values(
        |stream: StreamEntry|
            (
                stream.stream_name@,
                stream.code.spec_number(),
                stream.leader_reference,
                stream.replicas_references@,
            ),
    );
    if list.len() == 0 {
        assert(wanted =~= Seq::empty());
    } else {
        let first = list[0];
        let rest = list.skip(1);
        let replicas = first.replicas_references@;
        let name = text(first.stream_name@);
        let number = be16(first.code.spec_number() as int);
        let leader = be16(first.leader_reference as int);
        let count = be32(replicas.len() as int);
        let references = joined_references(replicas);
        let code_at = at + name.len();
        assert(is_readable_stream(first));
        lemma_sizes();
        lemma_parts_stand(
            bytes,
            at,
            name + number + leader + count + references,
            joined_streams(rest),
        );
        lemma_parts_stand(bytes, at, name + number + leader + count, references);
        lemma_parts_stand(bytes, at, name + number + leader, count);
        lemma_parts_stand(bytes, at, name + number, leader);
        lemma_parts_stand(bytes, at, name, number);
        lemma_text_stands(bytes, at, first.stream_name@);
        lemma_two_stand(bytes, code_at, first.code.spec_number());
        lemma_two_stand(bytes, code_at + 2, first.leader_reference);
        lemma_four_stand(bytes, code_at + 4, replicas.len() as u32);
        lemma_references_stand(bytes, code_at + 8, replicas);
        assert forall|i: int| 0 <= i < rest.len() implies is_readable_stream(#[trigger] rest[i]) by {
            assert(rest[i] == list[i + 1]);
        }
        let next = code_at + 8 + 2 * replicas.len();
        lemma_streams_stand(bytes, next, rest);
        assert(after_part(bytes, at, Part::Stream) == Walk::At(next));
        let others = rest.map_values(
            |stream: StreamEntry|
                (
                    stream.stream_name@,
                    stream.code.spec_number(),
                    stream.leader_reference,
                    stream.replicas_references@,
                ),
        );
        assert(wanted =~= seq![
            (
                first.stream_name@,
                first.code.spec_number(),
                first.leader_reference,
                first.replicas_references@,
            ),
        ] + others);
    }
}

/// The answer to a metadata request that lists the given brokers and streams.
pub open spec fn metadata_frame(
    id: u32,
    brokers: Seq<BrokerEntry>,
    streams: Seq<StreamEntry>,
) -> Seq<u8> {
    let body = be32(id as int) + be32(brokers.len() as int) + joined_brokers(brokers) + be32(
        streams.len() as int,
    ) + joined_streams(streams);
    be32(4 + body.len() as int) + be16(0x800f) + be16(1) + body
}

#[verifier::spinoff_prover]
proof fn lemma_metadata_stands(
    id: u32,
    brokers: Seq<BrokerEntry>,
    streams: Seq<StreamEntry>,
)
    requires
        brokers.len() < 0x8000_0000,
        streams.len() < 0x8000_0000,
        forall|i: int| 0 <= i < brokers.len() ==> is_readable_text((#[trigger] brokers[i]).host@),
        forall|i: int| 0 <= i < streams.len() ==> is_readable_stream(#[trigger] streams[i]),
    ensures
        ({
            let bytes = metadata_frame(id, brokers, streams);
            &&& frame_key(bytes) == 15
            &&& be32_at(bytes, 8) == id
            &&& frame_walk(bytes) == Walk::At(bytes.len() as int)
            &&& brokers_at(bytes, 16, be32_at(bytes, 12)) == brokers.map_values(
                |broker: BrokerEntry| (broker.reference, broker.host@, broker.port),
            )
            &&& streams_at(bytes, streams_start(bytes) + 4, be32_at(bytes, streams_start(bytes)))
                == streams.map_values(
                |stream: StreamEntry|
                    (
                        stream.stream_name@,
                        stream.code.spec_number(),
                        stream.leader_reference,
                        stream.replicas_references@,
                    ),
            )
        }),
{
    let bytes = metadata_frame(id, brokers, streams);
    let first = be32(id as int);
    let broker_count = be32(brokers.len() as int);
    let listed = joined_brokers(brokers);
    let stream_count = be32(streams.len() as int);
    let rest = first + broker_count + listed + stream_count + joined_streams(streams);
    lemma_sizes();
    assert(stands(bytes, 4, be16(0x800f))) by {
        assert(bytes.subrange(4, 6) =~= be16(0x800f));
    }
    lemma_two_stand(bytes, 4, 0x800f);
    assert(stands(bytes, 8, rest)) by {
        assert(bytes.subrange(8, 8 + rest.len() as int) =~= rest);
    }
    lemma_parts_stand(
        bytes,
        8,
        first + broker_count + listed + stream_count,
        joined_streams(streams),
    );
    lemma_parts_stand(bytes, 8, first + broker_count + listed, stream_count);
    lemma_parts_stand(bytes, 8, first + broker_count, listed);
    lemma_parts_stand(bytes, 8, first, broker_count);
    lemma_four_stand(bytes, 8, id);
    lemma_four_stand(bytes, 12, brokers.len() as u32);
    lemma_brokers_stand(bytes, 16, brokers);
    let start = 16 + listed.len() as int;
    lemma_four_stand(bytes, start, streams.len() as u32);
    lemma_streams_stand(bytes, start + 4, streams);
    assert(after_list(bytes, Walk::At(12), Part::Broker) == Walk::At(start));
    assert(streams_start(bytes) == start);
    assert(after_list(bytes, Walk::At(start), Part::Stream) == Walk::At(bytes.len() as int));
}

/// The answer to a metadata request is read as the server writes it: all brokers with their
/// references, hosts and ports, and all streams with their names, codes, leaders and replicas, in
/// their order.
#[verifier::spinoff_prover]
pub proof fn law_metadata_is_read(
    id: u32,
    brokers: Seq<BrokerEntry>,
    streams: Seq<StreamEntry>,
    response: Response,
)
    requires
        brokers.len() < 0x8000_0000,
        streams.len() < 0x8000_0000,
        forall|i: int| 0 <= i < brokers.len() ==> is_readable_text((#[trigger] brokers[i]).host@),
        forall|i: int| 0 <= i < streams.len() ==> is_readable_stream(#[trigger] streams[i]),
    ensures
        frame_walk(metadata_frame(id, brokers, streams)) == Walk::At(
            metadata_frame(id, brokers, streams).len() as int,
        ),
        reads(response, metadata_frame(id, brokers, streams)) ==> response.correlation_id == Some(id)
            && (response.kind matches ResponseKind::Metadata(body) && body.brokers@.len()
            == brokers.len() && body.stream_metadata@.len() == streams.len() && (forall|i: int|
            0 <= i < brokers.len() ==> (#[trigger] body.brokers@[i]).reference
                == brokers[i].reference && body.brokers@[i].host@ == brokers[i].host@
                && body.brokers@[i].port == brokers[i].port) && (forall|i: int|
            0 <= i < streams.len() ==> (#[trigger] body.stream_metadata@[i]).stream_name@
                == streams[i].stream_name@ && body.stream_metadata@[i].code == streams[i].code
                && body.stream_metadata@[i].leader_reference == streams[i].leader_reference
                && body.stream_metadata@[i].replicas_references@
                == streams[i].replicas_references@)),
{
    let bytes = metadata_frame(id, brokers, streams);
    lemma_metadata_stands(id, brokers, streams);
    if let ResponseKind::Metadata(body) = response.kind {
        if reads_metadata(body, bytes) {
            let read_brokers = body.brokers@.map_values(
                |broker: BrokerEntry| (broker.reference, broker.host@, broker.port),
            );
            let read_streams = body.stream_metadata@.map_values(
                |stream: StreamEntry|
                    (
                        stream.stream_name@,
                        stream.code.spec_number(),
                        stream.leader_reference,
                        stream.replicas_references@,
                    ),
            );
            let wanted_brokers = brokers.map_values(
                |broker: BrokerEntry| (broker.reference, broker.host@, broker.port),
            );
            let wanted_streams = streams.map_values(
                |stream: StreamEntry|
                    (
                        stream.stream_name@,
                        stream.code.spec_number(),
                        stream.leader_reference,
                        stream.replicas_references@,
                    ),
            );
            assert(read_brokers == wanted_brokers);
            assert(read_streams == wanted_streams);
            assert(read_brokers.len() == brokers.len());
            assert(read_streams.len() == streams.len());
            assert forall|i: int| 0 <= i < brokers.len() implies (
            #[trigger] body.brokers@[i]).reference == brokers[i].reference && body.brokers@[i].host@
                == brokers[i].host@ && body.brokers@[i].port == brokers[i].port by {
                assert(read_brokers[i] == wanted_brokers[i]);
            }
            assert forall|i: int| 0 <= i < streams.len() implies (
            #[trigger] body.stream_metadata@[i]).stream_name@ == streams[i].stream_name@
                && body.stream_metadata@[i].code == streams[i].code
                && body.stream_metadata@[i].leader_reference == streams[i].leader_reference
                && body.stream_metadata@[i].replicas_references@
                == streams[i].replicas_references@ by {
                assert(read_streams[i] == wanted_streams[i]);
                lemma_code_number_injective(body.stream_metadata@[i].code, streams[i].code);
            }
        }
    }
}

/// A frame with a response code that there is not, whatever its number is, is malformed for that.
pub proof fn law_unknown_codes_are_refused(key: u16, id: u32, number: u16, rest: Seq<u8>)
    requires
        is_generic_key(key as int) || key == 5 || key == 11 || key == 17 || key == 18 || key == 21
            || key == 22 || key == 24 || key == 25 || key == 27,
        number == 0 || number > 19,
    ensures
        frame_walk(
            be32(10 + rest.len() as int) + be16(key + 0x8000) + be16(1) + be32(id as int) + be16(
                number as int,
            ) + rest,
        ) == Walk::Bad(Malformed::Code(number)),
{
    let bytes = be32(10 + rest.len() as int) + be16(key + 0x8000) + be16(1) + be32(id as int) + be16(
        number as int,
    ) + rest;
    lemma_sizes();
    assert(stands(bytes, 4, be16(key + 0x8000))) by {
        assert(bytes.subrange(4, 6) =~= be16(key + 0x8000));
    }
    assert(stands(bytes, 12, be16(number as int))) by {
        assert(bytes.subrange(12, 14) =~= be16(number as int));
    }
    lemma_two_stand(bytes, 4, (key + 0x8000) as u16);
    lemma_two_stand(bytes, 12, number);
}

/// A frame with a key that no frame of a server has is malformed for that.
pub proof fn law_unknown_keys_are_refused(key: u16, rest: Seq<u8>)
    requires
        key == 0 || key == 2 || key == 10 || key == 28 || 30 < key < 0x8000,
    ensures
        frame_walk(pushed_frame(key, rest)) == Walk::Bad(Malformed::Key(key)),
{
    lemma_pushed_head(key, rest);
}

/// The answer to a request is incomplete as long as a byte of its outcome is missing.
pub proof fn law_outcomes_need_all_their_bytes(key: u16, id: u32, code: ResponseCode, size: int)
    requires
        is_generic_key(key as int),
        0 <= size < 14,
    ensures
        frame_walk(answer_frame(key, id, code, Seq::empty()).take(size)) == Walk::Short,
{
    let bytes = answer_frame(key, id, code, Seq::empty());
    lemma_answer_head(key, id, code, Seq::empty());
    let part = bytes.take(size);
    if size >= 8 {
        assert(part[4] == bytes[4] && part[5] == bytes[5]);
    }
}

/// A text that is not valid UTF-8 makes a change of metadata malformed.
pub proof fn law_invalid_texts_are_refused(code: ResponseCode, content: Seq<u8>)
    requires
        content.len() < 0x8000,
        !valid_utf8(content),
    ensures
        frame_walk(
            pushed_frame(
                16,
                be16(code.spec_number() as int) + (be16(content.len() as int) + content),
            ),
        ) == Walk::Bad(Malformed::Text),
{
    let number = be16(code.spec_number() as int);
    let size = be16(content.len() as int);
    let rest = number + (size + content);
    let bytes = pushed_frame(16, rest);
    lemma_sizes();
    lemma_pushed_head(16, rest);
    lemma_parts_stand(bytes, 8, number, size + content);
    lemma_parts_stand(bytes, 10, size, content);
    lemma_two_stand(bytes, 8, code.spec_number());
    lemma_two_stand(bytes, 10, content.len() as u16);
}

/// The answers to the requests that are answered with nothing but an outcome are read as such,
/// whatever the outcome is.
pub proof fn law_outcomes_of_requests_are_read(
    request: Request,
    id: u32,
    code: ResponseCode,
    response: Response,
)
    requires
        request is DeclarePublisher || request is DeletePublisher || request is Subscribe
            || request is Unsubscribe || request is CreateStream || request is Delete
            || request is SaslAuthenticate || request is CreateSuperStream
            || request is DeleteSuperStream,
    ensures
        ({
            let bytes = answer_frame(request_key(request) as u16, id, code, Seq::empty());
            &&& frame_walk(bytes) == Walk::At(bytes.len() as int)
            &&& reads(response, bytes) <==> response.correlation_id == Some(id) && response.kind
                == ResponseKind::Generic(GenericResponse { code })
        }),
{
    lemma_answer_head(request_key(request) as u16, id, code, Seq::empty());
    if let ResponseKind::Generic(body) = response.kind {
        if body.code.spec_number() == code.spec_number() {
            lemma_code_number_injective(body.code, code);
        }
    }
}

} // verus!
