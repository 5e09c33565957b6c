//! The layout of the frames that the server sends.
//!
//! A frame starts with its size, its key and its version. What follows depends on the key. The
//! size is not looked at: a frame ends where its last part ends.

use crate::message::{message_walk, shallow_walk, step_message, step_shallow};
use crate::response::CommandVersions;
use crate::walk::{after_bytes, step_bytes, utf8_text, Malformed, Step, Walk};
use crate::wire::{
    be16, be16_at, be32_at, be64_at, law_numbers_are_read_back, lemma_sizes, read16, read32, text,
};
use vstd::prelude::*;
use vstd::utf8::{
    decode_utf8, encode_utf8, encode_utf8_decode_utf8, encode_utf8_valid_utf8, valid_utf8,
};

verus! {

/// A part that is repeated.
#[derive(Clone, Copy, Debug, PartialEq, Eq, Structural)]
pub enum Part {
    /// A text.
    Text,
    /// A key and a value.
    Pair,
    /// The identifier of a message and a response code.
    PublishingError,
    /// A broker: its reference, its host and its port.
    Broker,
    /// A stream: its name, a response code, its leader and its replicas.
    Stream,
    /// A message: its size and its sections.
    Message,
    /// A message in which values are not nested deeply.
    ShallowMessage,
}

/// The key of a frame.
pub open spec fn frame_key(bytes: Seq<u8>) -> int {
    be16_at(bytes, 4) % 0x8000
}

/// After a response code.
pub open spec fn after_code(bytes: Seq<u8>, walk: Walk) -> Walk {
    match walk {
        Walk::At(at) => if at + 2 > bytes.len() {
            Walk::Short
        } else if 1 <= be16_at(bytes, at) <= 19 {
            Walk::At(at + 2)
        } else {
            Walk::Bad(Malformed::Code(be16_at(bytes, at) as u16))
        },
        _ => walk,
    }
}

/// After a text.
pub open spec fn after_text(bytes: Seq<u8>, walk: Walk) -> Walk {
    match walk {
        Walk::At(at) => if at + 2 > bytes.len() {
            Walk::Short
        } else {
            let end = at + 2 + be16_at(bytes, at);
            if be16_at(bytes, at) >= 0x8000 || end > bytes.len() {
                Walk::Outside
            } else if !valid_utf8(bytes.subrange(at + 2, end)) {
                Walk::Bad(Malformed::Text)
            } else {
                Walk::At(end)
            }
        },
        _ => walk,
    }
}

/// After numbers of `size` bytes each, which follow their number.
pub open spec fn after_numbers(bytes: Seq<u8>, walk: Walk, size: int) -> Walk {
    match walk {
        Walk::At(at) => if at + 4 > bytes.len() {
            Walk::Short
        } else if be32_at(bytes, at) >= 0x8000_0000 {
            Walk::Outside
        } else {
            after_bytes(bytes, Walk::At(at + 4), be32_at(bytes, at) * size)
        },
        _ => walk,
    }
}

/// After a message, which follows its size. Its sections have to be within that size.
pub open spec fn after_message(bytes: Seq<u8>, at: int, shallow: bool) -> Walk {
    if at + 4 > bytes.len() {
        Walk::Short
    } else if be32_at(bytes, at) >= 0x8000_0000 {
        Walk::Outside
    } else if at + 4 + be32_at(bytes, at) > bytes.len() {
        Walk::Short
    } else {
        let sections = if shallow {
            shallow_walk(content_at(bytes, at))
        } else {
            message_walk(content_at(bytes, at))
        };
        match sections {
            Walk::At(_) => Walk::At(at + 4 + be32_at(bytes, at)),
            walk => walk,
        }
    }
}

/// The sections of the message at position `at`, after its size.
pub open spec fn content_at(bytes: Seq<u8>, at: int) -> Seq<u8> {
    bytes.subrange(at + 4, at + 4 + be32_at(bytes, at))
}

/// Where the name at position `at` must not be empty.
pub open spec fn with_name(bytes: Seq<u8>, at: int, walk: Walk) -> Walk {
    if walk is At && be16_at(bytes, at) == 0 {
        Walk::Outside
    } else {
        walk
    }
}

/// After one part.
pub open spec fn after_part(bytes: Seq<u8>, at: int, part: Part) -> Walk {
    match part {
        Part::Text => after_text(bytes, Walk::At(at)),
        Part::Pair => after_text(bytes, after_text(bytes, Walk::At(at))),
        Part::PublishingError => after_code(bytes, after_bytes(bytes, Walk::At(at), 8)),
        Part::Broker => with_name(
            bytes,
            at + 2,
            after_bytes(bytes, after_text(bytes, after_bytes(bytes, Walk::At(at), 2)), 4),
        ),
        Part::Stream => with_name(
            bytes,
            at,
            after_numbers(
                bytes,
                after_bytes(bytes, after_code(bytes, after_text(bytes, Walk::At(at))), 2),
                2,
            ),
        ),
        Part::Message => after_message(bytes, at, false),
        Part::ShallowMessage => after_message(bytes, at, true),
    }
}

/// After `count` parts.
pub open spec fn after_parts(bytes: Seq<u8>, walk: Walk, count: int, part: Part) -> Walk
    decreases count,
{
    match walk {
        Walk::At(at) => if count <= 0 {
            walk
        } else {
            after_parts(bytes, after_part(bytes, at, part), count - 1, part)
        },
        _ => walk,
    }
}

/// After parts that follow their number.
pub open spec fn after_list(bytes: Seq<u8>, walk: Walk, part: Part) -> Walk {
    match walk {
        Walk::At(at) => if at + 4 > bytes.len() {
            Walk::Short
        } else if part is Broker && be32_at(bytes, at) >= 0x8000_0000 {
            Walk::Outside
        } else if part is Stream && be32_at(bytes, at) >= 0x8000_0000 {
            Walk::Outside
        } else {
            after_parts(bytes, Walk::At(at + 4), be32_at(bytes, at), part)
        },
        _ => walk,
    }
}

/// After a correlation identifier and a response code.
pub open spec fn after_outcome(bytes: Seq<u8>) -> Walk {
    after_code(bytes, after_bytes(bytes, Walk::At(8), 4))
}

/// Whether the answers with the key have only an outcome.
pub open spec fn is_generic_key(key: int) -> bool {
    key == 1 || key == 6 || key == 7 || key == 12 || key == 13 || key == 14 || key == 19 || key == 29
        || key == 30
}

/// How far the first frame reaches.
pub open spec fn frame_walk(bytes: Seq<u8>) -> Walk {
    let key = frame_key(bytes);
    if bytes.len() < 8 {
        Walk::Short
    } else if is_generic_key(key) || key == 22 {
        // An answer with an outcome only, among them the one to a farewell.
        after_outcome(bytes)
    } else if key == 3 {
        // A confirmation: the publisher and the identifiers of messages.
        after_numbers(bytes, after_bytes(bytes, Walk::At(8), 1), 8)
    } else if key == 4 {
        // Publishing errors: the publisher and the messages.
        after_list(bytes, after_bytes(bytes, Walk::At(8), 1), Part::PublishingError)
    } else if key == 5 || key == 11 {
        // The sequence number of a publisher, or a stored offset.
        after_bytes(bytes, after_outcome(bytes), 8)
    } else if key == 8 {
        // A delivery: the head of a chunk, with the number of its messages, and the messages.
        match after_bytes(bytes, Walk::At(8), 49) {
            Walk::At(at) => after_parts(bytes, Walk::At(at), be32_at(bytes, 13), Part::Message),
            _ => Walk::Short,
        }
    } else if key == 9 {
        // A credit error: a response code and the subscription.
        after_bytes(bytes, after_code(bytes, Walk::At(8)), 1)
    } else if key == 15 {
        // Metadata: the brokers and the streams.
        after_list(
            bytes,
            after_list(bytes, after_bytes(bytes, Walk::At(8), 4), Part::Broker),
            Part::Stream,
        )
    } else if key == 16 {
        // A change of metadata: a response code and the stream.
        with_name(bytes, 10, after_text(bytes, after_code(bytes, Walk::At(8))))
    } else if key == 17 {
        // The properties of the server.
        after_list(bytes, after_outcome(bytes), Part::Pair)
    } else if key == 18 || key == 24 || key == 25 {
        // Mechanisms, or the streams of a super stream.
        after_list(bytes, after_outcome(bytes), Part::Text)
    } else if key == 20 {
        // Limits.
        after_bytes(bytes, Walk::At(8), 8)
    } else if key == 21 {
        // The opening of a virtual host; there are properties only if it succeeded.
        if after_outcome(bytes) is At && be16_at(bytes, 12) != 1 {
            after_outcome(bytes)
        } else {
            after_list(bytes, after_outcome(bytes), Part::Pair)
        }
    } else if key == 23 {
        // A heartbeat.
        Walk::At(8)
    } else if key == 26 {
        // A consumer update: the identifier, the subscription and whether it is active.
        after_bytes(bytes, Walk::At(8), 6)
    } else if key == 27 {
        // The versions of the commands.
        after_numbers(bytes, after_outcome(bytes), 6)
    } else {
        Walk::Bad(Malformed::Key(key as u16))
    }
}

/// Whether values are nested deeply in none of the messages that can be followed, if the frame is a
/// delivery.
pub open spec fn is_shallow(bytes: Seq<u8>) -> bool {
    bytes.len() >= 57 && frame_key(bytes) == 8 ==> !(after_parts(
        bytes,
        Walk::At(57),
        be32_at(bytes, 13),
        Part::ShallowMessage,
    ) is Outside)
}

/// The text at position `at`.
pub open spec fn text_at(bytes: Seq<u8>, at: int) -> Seq<char> {
    decode_utf8(bytes.subrange(at + 2, at + 2 + be16_at(bytes, at)))
}

/// Where the text at position `at` ends.
pub open spec fn text_end(bytes: Seq<u8>, at: int) -> int {
    at + 2 + be16_at(bytes, at)
}

/// The texts from position `at` on that are not empty.
pub open spec fn texts_at(bytes: Seq<u8>, at: int, count: int) -> Seq<Seq<char>>
    decreases count,
{
    if count <= 0 {
        Seq::empty()
    } else {
        let rest = texts_at(bytes, text_end(bytes, at), count - 1);
        if be16_at(bytes, at) == 0 {
            rest
        } else {
            seq![text_at(bytes, at)] + rest
        }
    }
}

/// The table from position `at` on, on top of what is already known; a pair with an empty key or
/// an empty value is left out.
pub open spec fn table_at(
    bytes: Seq<u8>,
    at: int,
    count: int,
    known: Map<Seq<char>, Seq<char>>,
) -> Map<
    Seq<char>,
    Seq<char>,
>
    decreases count,
{
    if count <= 0 {
        known
    } else {
        let value_at = text_end(bytes, at);
        let grown = if be16_at(bytes, at) == 0 || be16_at(bytes, value_at) == 0 {
            known
        } else {
            known.insert(text_at(bytes, at), text_at(bytes, value_at))
        };
        table_at(bytes, text_end(bytes, value_at), count - 1, grown)
    }
}

/// The versions of commands from position `at` on.
pub open spec fn commands_at(bytes: Seq<u8>, at: int, count: int) -> Seq<CommandVersions> {
    Seq::new(
        count as nat,
        |i: int|
            CommandVersions {
                command: be16_at(bytes, at + 6 * i) as u16,
                min_version: be16_at(bytes, at + 6 * i + 2) as u16,
                max_version: be16_at(bytes, at + 6 * i + 4) as u16,
            },
    )
}

/// The numbers of eight bytes from position `at` on.
pub open spec fn long_numbers_at(bytes: Seq<u8>, at: int, count: int) -> Seq<u64> {
    Seq::new(count as nat, |i: int| be64_at(bytes, at + 8 * i) as u64)
}

/// The identifiers of messages and the numbers of response codes from position `at` on.
pub open spec fn errors_at(bytes: Seq<u8>, at: int, count: int) -> Seq<(u64, u16)> {
    Seq::new(
        count as nat,
        |i: int| (be64_at(bytes, at + 10 * i) as u64, be16_at(bytes, at + 10 * i + 8) as u16),
    )
}

/// The sections of the messages from position `at` on.
pub open spec fn contents_at(bytes: Seq<u8>, at: int, count: int) -> Seq<Seq<u8>>
    decreases count,
{
    if count <= 0 {
        Seq::empty()
    } else {
        seq![content_at(bytes, at)] + contents_at(
            bytes,
            at + 4 + be32_at(bytes, at),
            count - 1,
        )
    }
}

/// The sections of the messages of a delivery.
pub open spec fn delivered_at(bytes: Seq<u8>) -> Seq<Seq<u8>> {
    contents_at(bytes, 57, be32_at(bytes, 13))
}

/// A broker in a frame: its reference, its host and its port.
pub type BrokerParts = (u16, Seq<char>, u32);

/// A stream in a frame: its name, the number of a response code, its leader and its replicas.
pub type StreamParts = (Seq<char>, u16, u16, Seq<u16>);

/// The numbers of two bytes from position `at` on.
pub open spec fn numbers_at(bytes: Seq<u8>, at: int, count: int) -> Seq<u16> {
    Seq::new(count as nat, |i: int| be16_at(bytes, at + 2 * i) as u16)
}

/// The brokers from position `at` on.
pub open spec fn brokers_at(bytes: Seq<u8>, at: int, count: int) -> Seq<BrokerParts>
    decreases count,
{
    if count <= 0 {
        Seq::empty()
    } else {
        let port_at = text_end(bytes, at + 2);
        seq![(be16_at(bytes, at) as u16, text_at(bytes, at + 2), be32_at(bytes, port_at) as u32)]
            + brokers_at(bytes, port_at + 4, count - 1)
    }
}

/// Where the list of streams starts in an answer to a metadata request.
pub open spec fn streams_start(bytes: Seq<u8>) -> int {
    after_list(bytes, Walk::At(12), Part::Broker)->At_0
}

/// The streams from position `at` on.
pub open spec fn streams_at(bytes: Seq<u8>, at: int, count: int) -> Seq<StreamParts>
    decreases count,
{
    if count <= 0 {
        Seq::empty()
    } else {
        let code_at = text_end(bytes, at);
        let replicas = be32_at(bytes, code_at + 4);
        seq![
            (
                text_at(bytes, at),
                be16_at(bytes, code_at) as u16,
                be16_at(bytes, code_at + 2) as u16,
                numbers_at(bytes, code_at + 8, replicas),
            ),
        ] + streams_at(bytes, code_at + 8 + 2 * replicas, count - 1)
    }
}

/// The texts of a list.
pub open spec fn views(list: Seq<String>) -> Seq<Seq<char>> {
    list.map_values(|text: String| text@)
}

/// The brokers of a list.
pub open spec fn broker_views(list: Seq<(u16, String, u32)>) -> Seq<BrokerParts> {
    list.map_values(|broker: (u16, String, u32)| (broker.0, broker.1@, broker.2))
}

/// The streams of a list.
pub open spec fn stream_views(list: Seq<(String, u16, u16, Vec<u16>)>) -> Seq<StreamParts> {
    list.map_values(
        |stream: (String, u16, u16, Vec<u16>)| (stream.0@, stream.1, stream.2, stream.3@),
    )
}

/// The correlation identifier of a frame, if it has one.
pub open spec fn correlation_at(bytes: Seq<u8>) -> Option<u32> {
    let key = frame_key(bytes);
    if key == 3 || key == 4 || key == 8 || key == 9 || key == 16 || key == 20 || key == 23 {
        None
    } else {
        Some(be32_at(bytes, 8) as u32)
    }
}

fn step_code(bytes: &[u8], step: Step) -> (next: Step)
    requires
        step.within(bytes@),
    ensures
        next.walk() == after_code(bytes@, step.walk()),
        next.within(bytes@),
{
    match step {
        Step::At(at) => if bytes.len() - at < 2 {
            Step::Short
        } else {
            let code: u16 = read16(bytes, at);
            if 1 <= code && code <= 19 {
                Step::At(at + 2)
            } else {
                Step::Bad(Malformed::Code(code))
            }
        },
        _ => step,
    }
}

fn step_text(bytes: &[u8], step: Step) -> (next: Step)
    requires
        step.within(bytes@),
    ensures
        next.walk() == after_text(bytes@, step.walk()),
        next.within(bytes@),
{
    match step {
        Step::At(at) => if bytes.len() - at < 2 {
            Step::Short
        } else {
            let length: usize = read16(bytes, at) as usize;
            if length >= 0x8000 || length > bytes.len() - at - 2 {
                Step::Outside
            } else if utf8_text(
                vstd::slice::slice_subrange(bytes, at + 2, at + 2 + length),
            ).is_none() {
                Step::Bad(Malformed::Text)
            } else {
                Step::At(at + 2 + length)
            }
        },
        _ => step,
    }
}

fn step_numbers(bytes: &[u8], step: Step, size: usize) -> (next: Step)
    requires
        step.within(bytes@),
        0 < size <= 8,
    ensures
        next.walk() == after_numbers(bytes@, step.walk(), size as int),
        next.within(bytes@),
{
    match step {
        Step::At(at) => if bytes.len() - at < 4 {
            Step::Short
        } else {
            let count: u32 = read32(bytes, at);
            if count >= 0x8000_0000 {
                return Step::Outside;
            }
            assert(count * size <= 0x8000_0000 * 8) by (nonlinear_arith)
                requires
                    count < 0x8000_0000,
                    size <= 8,
            ;
            let needed: u64 = count as u64 * size as u64;
            let left: u64 = (bytes.len() - at - 4) as u64;
            if needed <= left {
                Step::At(at + 4 + needed as usize)
            } else {
                Step::Short
            }
        },
        _ => step,
    }
}

fn step_name(bytes: &[u8], name_at: Step, step: Step) -> (next: Step)
    requires
        step.within(bytes@),
        step is At ==> (name_at matches Step::At(at) && at + 2 <= bytes@.len()),
    ensures
        step is At ==> next.walk() == with_name(bytes@, name_at->At_0 as int, step.walk()),
        !(step is At) ==> next == step,
        next.within(bytes@),
{
    match (name_at, step) {
        (Step::At(at), Step::At(end)) => if read16(bytes, at) == 0 {
            Step::Outside
        } else {
            Step::At(end)
        },
        (_, other) => other,
    }
}

fn step_counted(bytes: &[u8], at: usize, shallow: bool) -> (next: Step)
    requires
        at <= bytes@.len(),
    ensures
        next.walk() == after_message(bytes@, at as int, shallow),
        next.within(bytes@),
{
    if bytes.len() - at < 4 {
        return Step::Short;
    }
    let size: u32 = read32(bytes, at);
    if size >= 0x8000_0000 {
        return Step::Outside;
    }
    if size as u64 > (bytes.len() - at - 4) as u64 {
        return Step::Short;
    }
    let end: usize = at + 4 + size as usize;
    let content = vstd::slice::slice_subrange(bytes, at + 4, end);
    let sections = if shallow {
        step_shallow(content)
    } else {
        step_message(content)
    };
    match sections {
        Step::At(_) => Step::At(end),
        other => other,
    }
}

fn step_part(bytes: &[u8], at: usize, part: Part) -> (next: Step)
    requires
        at <= bytes@.len(),
    ensures
        next.walk() == after_part(bytes@, at as int, part),
        next.within(bytes@),
{
    match part {
        Part::Text => step_text(bytes, Step::At(at)),
        Part::Pair => {
            let key = step_text(bytes, Step::At(at));
            step_text(bytes, key)
        },
        Part::PublishingError => {
            let id = step_bytes(bytes, Step::At(at), 8);
            step_code(bytes, id)
        },
        Part::Broker => {
            let host_at = step_bytes(bytes, Step::At(at), 2);
            let host = step_text(bytes, step_bytes(bytes, Step::At(at), 2));
            let port = step_bytes(bytes, host, 4);
            step_name(bytes, host_at, port)
        },
        Part::Stream => {
            let name = step_text(bytes, Step::At(at));
            let code = step_code(bytes, name);
            let leader = step_bytes(bytes, code, 2);
            let replicas = step_numbers(bytes, leader, 2);
            step_name(bytes, Step::At(at), replicas)
        },
        Part::Message => step_counted(bytes, at, false),
        Part::ShallowMessage => step_counted(bytes, at, true),
    }
}

fn step_parts(bytes: &[u8], at: usize, count: u32, part: Part) -> (next: Step)
    requires
        at <= bytes@.len(),
    ensures
        next.walk() == after_parts(bytes@, Walk::At(at as int), count as int, part),
        next.within(bytes@),
{
    let mut here: usize = at;
    let mut done: u32 = 0;
    while done < count
        invariant
            done <= count,
            here <= bytes@.len(),
            after_parts(bytes@, Walk::At(here as int), count - done, part) == after_parts(
                bytes@,
                Walk::At(at as int),
                count as int,
                part,
            ),
        decreases count - done,
    {
        match step_part(bytes, here, part) {
            Step::At(next) => {
                here = next;
            },
            other => {
                assert(after_parts(bytes@, other.walk(), count - done - 1, part) == other.walk());
                return other;
            },
        }
        done = done + 1;
    }
    Step::At(here)
}

fn step_list(bytes: &[u8], step: Step, part: Part) -> (next: Step)
    requires
        step.within(bytes@),
    ensures
        next.walk() == after_list(bytes@, step.walk(), part),
        next.within(bytes@),
{
    let at: usize = match step {
        Step::At(at) => at,
        other => return other,
    };
    if bytes.len() - at < 4 {
        return Step::Short;
    }
    let count: u32 = read32(bytes, at);
    if count >= 0x8000_0000 && (part == Part::Broker || part == Part::Stream) {
        return Step::Outside;
    }
    step_parts(bytes, at + 4, count, part)
}

fn step_outcome(bytes: &[u8]) -> (next: Step)
    requires
        8 <= bytes@.len(),
    ensures
        next.walk() == after_outcome(bytes@),
        next.within(bytes@),
{
    let id = step_bytes(bytes, Step::At(8), 4);
    step_code(bytes, id)
}

/// Returns how far the first frame reaches.
#[verifier::spinoff_prover]
pub fn step_frame(bytes: &[u8]) -> (next: Step)
    ensures
        next.walk() == frame_walk(bytes@),
        next.within(bytes@),
{
    if bytes.len() < 8 {
        return Step::Short;
    }
    let key: u16 = read16(bytes, 4) % 0x8000;
    match key {
        1 | 6 | 7 | 12 | 13 | 14 | 19 | 29 | 30 | 22 => step_outcome(bytes),
        3 => step_numbers(bytes, step_bytes(bytes, Step::At(8), 1), 8),
        4 => step_list(bytes, step_bytes(bytes, Step::At(8), 1), Part::PublishingError),
        5 | 11 => step_bytes(bytes, step_outcome(bytes), 8),
        8 => match step_bytes(bytes, Step::At(8), 49) {
            Step::At(at) => step_parts(bytes, at, read32(bytes, 13), Part::Message),
            _ => Step::Short,
        },
        9 => step_bytes(bytes, step_code(bytes, Step::At(8)), 1),
        15 => {
            let id = step_bytes(bytes, Step::At(8), 4);
            let brokers = step_list(bytes, id, Part::Broker);
            step_list(bytes, brokers, Part::Stream)
        },
        16 => {
            let stream = step_text(bytes, step_code(bytes, Step::At(8)));
            step_name(bytes, Step::At(10), stream)
        },
        17 => step_list(bytes, step_outcome(bytes), Part::Pair),
        18 | 24 | 25 => step_list(bytes, step_outcome(bytes), Part::Text),
        20 => step_bytes(bytes, Step::At(8), 8),
        21 => {
            let outcome = step_outcome(bytes);
            match outcome {
                Step::At(at) => if read16(bytes, 12) != 1 {
                    Step::At(at)
                } else {
                    step_list(bytes, Step::At(at), Part::Pair)
                },
                other => other,
            }
        },
        23 => Step::At(8),
        26 => step_bytes(bytes, Step::At(8), 6),
        27 => step_numbers(bytes, step_outcome(bytes), 6),
        _ => Step::Bad(Malformed::Key(key)),
    }
}

/// Returns whether values are nested deeply in none of the messages of the first frame.
pub fn are_values_shallow(bytes: &[u8]) -> (shallow: bool)
    ensures
        shallow == is_shallow(bytes@),
{
    if bytes.len() < 57 || read16(bytes, 4) % 0x8000 != 8 {
        return true;
    }
    match step_parts(bytes, 57, read32(bytes, 13), Part::ShallowMessage) {
        Step::Outside => false,
        _ => true,
    }
}

/// Returns whether every part of the first frame can be followed.
pub fn is_readable(bytes: &[u8]) -> (readable: bool)
    ensures
        readable == !(frame_walk(bytes@) is Outside),
{
    match step_frame(bytes) {
        Step::Outside => false,
        _ => true,
    }
}

/// Whether a step from `from` to `to` within `bytes` stays the same when more bytes follow.
spec fn is_stable(bytes: Seq<u8>, more: Seq<u8>, from: Walk, to: Walk, longer: Walk) -> bool {
    match to {
        Walk::At(end) => longer == to && end <= bytes.len() && (
            from matches Walk::At(at) && 0 <= at <= end
        ),
        _ => true,
    }
}

/// Whether the walk has not left the bytes.
spec fn is_within(bytes: Seq<u8>, walk: Walk) -> bool {
    match walk {
        Walk::At(at) => 0 <= at <= bytes.len(),
        _ => true,
    }
}

proof fn lemma_numbers_stay(bytes: Seq<u8>, more: Seq<u8>, at: int)
    requires
        0 <= at,
    ensures
        at + 2 <= bytes.len() ==> be16_at(bytes + more, at) == be16_at(bytes, at),
        at + 4 <= bytes.len() ==> be32_at(bytes + more, at) == be32_at(bytes, at),
{
}

proof fn lemma_bytes_stay(bytes: Seq<u8>, more: Seq<u8>, walk: Walk, count: int)
    requires
        is_within(bytes, walk),
        0 <= count,
    ensures
        is_stable(
            bytes,
            more,
            walk,
            after_bytes(bytes, walk, count),
            after_bytes(bytes + more, walk, count),
        ),
{
}

proof fn lemma_code_stays(bytes: Seq<u8>, more: Seq<u8>, walk: Walk)
    requires
        is_within(bytes, walk),
    ensures
        is_stable(bytes, more, walk, after_code(bytes, walk), after_code(bytes + more, walk)),
{
    if let Walk::At(at) = walk {
        lemma_numbers_stay(bytes, more, at);
    }
}

proof fn lemma_text_stays(bytes: Seq<u8>, more: Seq<u8>, walk: Walk)
    requires
        is_within(bytes, walk),
    ensures
        is_stable(bytes, more, walk, after_text(bytes, walk), after_text(bytes + more, walk)),
{
    if let Walk::At(at) = walk {
        lemma_numbers_stay(bytes, more, at);
        if after_text(bytes, walk) is At {
            let end = text_end(bytes, at);
            assert((bytes + more).subrange(at + 2, end) =~= bytes.subrange(at + 2, end));
        }
    }
}

proof fn lemma_counted_numbers_stay(bytes: Seq<u8>, more: Seq<u8>, walk: Walk, size: int)
    requires
        is_within(bytes, walk),
        0 <= size,
    ensures
        is_stable(
            bytes,
            more,
            walk,
            after_numbers(bytes, walk, size),
            after_numbers(bytes + more, walk, size),
        ),
{
    if let Walk::At(at) = walk {
        lemma_numbers_stay(bytes, more, at);
        if at + 4 <= bytes.len() {
            assert(0 <= be32_at(bytes, at));
            assert(0 <= be32_at(bytes, at) * size) by (nonlinear_arith)
                requires
                    0 <= be32_at(bytes, at),
                    0 <= size,
            ;
            lemma_bytes_stay(bytes, more, Walk::At(at + 4), be32_at(bytes, at) * size);
        }
    }
}

proof fn lemma_part_stays(bytes: Seq<u8>, more: Seq<u8>, at: int, part: Part)
    requires
        0 <= at <= bytes.len(),
    ensures
        is_stable(
            bytes,
            more,
            Walk::At(at),
            after_part(bytes, at, part),
            after_part(bytes + more, at, part),
        ),
{
    let start = Walk::At(at);
    match part {
        Part::Text => lemma_text_stays(bytes, more, start),
        Part::Pair => {
            lemma_text_stays(bytes, more, start);
            lemma_text_stays(bytes, more, after_text(bytes, start));
        },
        Part::PublishingError => {
            lemma_bytes_stay(bytes, more, start, 8);
            lemma_code_stays(bytes, more, after_bytes(bytes, start, 8));
        },
        Part::Broker => {
            let host = after_bytes(bytes, start, 2);
            lemma_bytes_stay(bytes, more, start, 2);
            lemma_text_stays(bytes, more, host);
            lemma_bytes_stay(bytes, more, after_text(bytes, host), 4);
            lemma_numbers_stay(bytes, more, at + 2);
        },
        Part::Stream => {
            let name = after_text(bytes, start);
            let code = after_code(bytes, name);
            let leader = after_bytes(bytes, code, 2);
            lemma_text_stays(bytes, more, start);
            lemma_code_stays(bytes, more, name);
            lemma_bytes_stay(bytes, more, code, 2);
            lemma_counted_numbers_stay(bytes, more, leader, 2);
            lemma_numbers_stay(bytes, more, at);
        },
        Part::Message | Part::ShallowMessage => {
            lemma_numbers_stay(bytes, more, at);
            if after_part(bytes, at, part) is At {
                assert(content_at(bytes + more, at) =~= content_at(bytes, at));
            }
        },
    }
}

proof fn lemma_parts_stay(bytes: Seq<u8>, more: Seq<u8>, walk: Walk, count: int, part: Part)
    requires
        is_within(bytes, walk),
    ensures
        is_stable(
            bytes,
            more,
            walk,
            after_parts(bytes, walk, count, part),
            after_parts(bytes + more, walk, count, part),
        ),
    decreases count,
{
    if let Walk::At(at) = walk {
        if count > 0 {
            lemma_part_stays(bytes, more, at, part);
            let next = after_part(bytes, at, part);
            if next is At {
                lemma_parts_stay(bytes, more, next, count - 1, part);
            } else {
                assert(after_parts(bytes, next, count - 1, part) == next);
            }
        }
    }
}

proof fn lemma_list_stays(bytes: Seq<u8>, more: Seq<u8>, walk: Walk, part: Part)
    requires
        is_within(bytes, walk),
    ensures
        is_stable(
            bytes,
            more,
            walk,
            after_list(bytes, walk, part),
            after_list(bytes + more, walk, part),
        ),
{
    if let Walk::At(at) = walk {
        lemma_numbers_stay(bytes, more, at);
        if at + 4 <= bytes.len() {
            lemma_parts_stay(bytes, more, Walk::At(at + 4), be32_at(bytes, at), part);
        }
    }
}

/// A frame ends within the bytes that hold it, and the bytes that follow it do not matter: how
/// far it reaches, its key and its correlation identifier stay the same.
#[verifier::spinoff_prover]
pub proof fn law_frame_stands_alone(bytes: Seq<u8>, more: Seq<u8>)
    requires
        frame_walk(bytes) is At,
    ensures
        8 <= frame_walk(bytes)->At_0 <= bytes.len(),
        frame_walk(bytes + more) == frame_walk(bytes),
        frame_key(bytes + more) == frame_key(bytes),
        correlation_at(bytes + more) == correlation_at(bytes),
{
    let start = Walk::At(8);
    let id = after_bytes(bytes, start, 4);
    let outcome = after_outcome(bytes);
    lemma_numbers_stay(bytes, more, 4);
    lemma_numbers_stay(bytes, more, 8);
    lemma_numbers_stay(bytes, more, 10);
    lemma_numbers_stay(bytes, more, 12);
    lemma_bytes_stay(bytes, more, start, 1);
    lemma_bytes_stay(bytes, more, start, 4);
    lemma_bytes_stay(bytes, more, start, 6);
    lemma_bytes_stay(bytes, more, start, 8);
    lemma_code_stays(bytes, more, id);
    lemma_code_stays(bytes, more, start);
    let code = after_code(bytes, start);
    lemma_bytes_stay(bytes, more, code, 1);
    lemma_text_stays(bytes, more, code);
    lemma_bytes_stay(bytes, more, outcome, 8);
    lemma_counted_numbers_stay(bytes, more, after_bytes(bytes, start, 1), 8);
    lemma_counted_numbers_stay(bytes, more, outcome, 6);
    lemma_list_stays(bytes, more, after_bytes(bytes, start, 1), Part::PublishingError);
    lemma_list_stays(bytes, more, outcome, Part::Pair);
    lemma_list_stays(bytes, more, outcome, Part::Text);
    lemma_list_stays(bytes, more, id, Part::Broker);
    lemma_list_stays(bytes, more, after_list(bytes, id, Part::Broker), Part::Stream);
    lemma_bytes_stay(bytes, more, start, 49);
    lemma_numbers_stay(bytes, more, 13);
    if frame_key(bytes) == 8 {
        lemma_parts_stay(bytes, more, Walk::At(57), be32_at(bytes, 13), Part::Message);
    }
}

proof fn lemma_text_stays_readable(bytes: Seq<u8>, more: Seq<u8>, at: int)
    requires
        0 <= at,
        after_text(bytes, Walk::At(at)) is At,
    ensures
        text_at(bytes + more, at) == text_at(bytes, at),
        text_end(bytes + more, at) == text_end(bytes, at),
        after_text(bytes, Walk::At(at)) == Walk::At(text_end(bytes, at)),
        be16_at(bytes + more, at) == be16_at(bytes, at),
        at + 2 <= text_end(bytes, at) <= bytes.len(),
{
    lemma_numbers_stay(bytes, more, at);
    let end = text_end(bytes, at);
    assert((bytes + more).subrange(at + 2, end) =~= bytes.subrange(at + 2, end));
}

proof fn lemma_texts_stay(bytes: Seq<u8>, more: Seq<u8>, at: int, count: int)
    requires
        0 <= at <= bytes.len(),
        after_parts(bytes, Walk::At(at), count, Part::Text) is At,
    ensures
        texts_at(bytes + more, at, count) == texts_at(bytes, at, count),
    decreases count,
{
    if count > 0 {
        let next = after_text(bytes, Walk::At(at));
        assert(after_part(bytes, at, Part::Text) == next);
        if !(next is At) {
            assert(after_parts(bytes, next, count - 1, Part::Text) == next);
        }
        lemma_text_stays_readable(bytes, more, at);
        lemma_texts_stay(bytes, more, text_end(bytes, at), count - 1);
    }
}

proof fn lemma_table_stays(
    bytes: Seq<u8>,
    more: Seq<u8>,
    at: int,
    count: int,
    known: Map<Seq<char>, Seq<char>>,
)
    requires
        0 <= at <= bytes.len(),
        after_parts(bytes, Walk::At(at), count, Part::Pair) is At,
    ensures
        table_at(bytes + more, at, count, known) == table_at(bytes, at, count, known),
    decreases count,
{
    if count > 0 {
        let next = after_part(bytes, at, Part::Pair);
        if !(next is At) {
            assert(after_parts(bytes, next, count - 1, Part::Pair) == next);
        }
        lemma_text_stays_readable(bytes, more, at);
        let value_at = text_end(bytes, at);
        lemma_text_stays_readable(bytes, more, value_at);
        let grown = if be16_at(bytes, at) == 0 || be16_at(bytes, value_at) == 0 {
            known
        } else {
            known.insert(text_at(bytes, at), text_at(bytes, value_at))
        };
        lemma_table_stays(bytes, more, text_end(bytes, value_at), count - 1, grown);
    }
}

proof fn lemma_brokers_stay(bytes: Seq<u8>, more: Seq<u8>, at: int, count: int)
    requires
        0 <= at <= bytes.len(),
        after_parts(bytes, Walk::At(at), count, Part::Broker) is At,
    ensures
        brokers_at(bytes + more, at, count) == brokers_at(bytes, at, count),
    decreases count,
{
    if count > 0 {
        let next = after_part(bytes, at, Part::Broker);
        if !(next is At) {
            assert(after_parts(bytes, next, count - 1, Part::Broker) == next);
        }
        lemma_numbers_stay(bytes, more, at);
        lemma_text_stays_readable(bytes, more, at + 2);
        let port_at = text_end(bytes, at + 2);
        lemma_numbers_stay(bytes, more, port_at);
        lemma_brokers_stay(bytes, more, port_at + 4, count - 1);
    }
}

proof fn lemma_streams_stay(bytes: Seq<u8>, more: Seq<u8>, at: int, count: int)
    requires
        0 <= at <= bytes.len(),
        after_parts(bytes, Walk::At(at), count, Part::Stream) is At,
    ensures
        streams_at(bytes + more, at, count) == streams_at(bytes, at, count),
    decreases count,
{
    if count > 0 {
        let next = after_part(bytes, at, Part::Stream);
        if !(next is At) {
            assert(after_parts(bytes, next, count - 1, Part::Stream) == next);
        }
        lemma_text_stays_readable(bytes, more, at);
        let code_at = text_end(bytes, at);
        lemma_numbers_stay(bytes, more, code_at);
        lemma_numbers_stay(bytes, more, code_at + 2);
        lemma_numbers_stay(bytes, more, code_at + 4);
        let replicas = be32_at(bytes, code_at + 4);
        assert(code_at + 8 + 2 * replicas <= bytes.len());
        assert(numbers_at(bytes + more, code_at + 8, replicas) =~= numbers_at(
            bytes,
            code_at + 8,
            replicas,
        )) by {
            assert forall|i: int| 0 <= i < replicas implies be16_at(
                bytes + more,
                code_at + 8 + 2 * i,
            )
                == #[trigger] be16_at(bytes, code_at + 8 + 2 * i) by {
                lemma_numbers_stay(bytes, more, code_at + 8 + 2 * i);
            }
        }
        lemma_streams_stay(bytes, more, code_at + 8 + 2 * replicas, count - 1);
    }
}

proof fn lemma_commands_stay(bytes: Seq<u8>, more: Seq<u8>, at: int, count: int)
    requires
        0 <= at,
        0 <= count,
        at + 6 * count <= bytes.len(),
    ensures
        commands_at(bytes + more, at, count) == commands_at(bytes, at, count),
{
    assert(commands_at(bytes + more, at, count) =~= commands_at(bytes, at, count)) by {
        assert forall|i: int| 0 <= i < count implies #[trigger] commands_at(bytes + more, at, count)[i]
            == commands_at(bytes, at, count)[i] by {
            lemma_numbers_stay(bytes, more, at + 6 * i);
            lemma_numbers_stay(bytes, more, at + 6 * i + 2);
            lemma_numbers_stay(bytes, more, at + 6 * i + 4);
        }
    }
}

proof fn lemma_long_numbers_stay(bytes: Seq<u8>, more: Seq<u8>, at: int, count: int)
    requires
        0 <= at,
        0 <= count,
        at + 8 * count <= bytes.len(),
    ensures
        long_numbers_at(bytes + more, at, count) == long_numbers_at(bytes, at, count),
{
    assert(long_numbers_at(bytes + more, at, count) =~= long_numbers_at(bytes, at, count)) by {
        assert forall|i: int| 0 <= i < count implies #[trigger] long_numbers_at(
            bytes + more,
            at,
            count,
        )[i] == long_numbers_at(bytes, at, count)[i] by {
            lemma_numbers_stay(bytes, more, at + 8 * i);
            lemma_numbers_stay(bytes, more, at + 8 * i + 4);
        }
    }
}

/// Parts of fixed size end where their number says, and each of them is well formed.
proof fn lemma_errors_end(bytes: Seq<u8>, at: int, count: int)
    requires
        0 <= at <= bytes.len(),
        after_parts(bytes, Walk::At(at), count, Part::PublishingError) is At,
    ensures
        0 <= count ==> at + 10 * count <= bytes.len(),
        forall|i: int|
            0 <= i < count ==> 1 <= #[trigger] be16_at(bytes, at + 10 * i + 8) <= 19,
    decreases count,
{
    if count > 0 {
        let next = after_part(bytes, at, Part::PublishingError);
        if !(next is At) {
            assert(after_parts(bytes, next, count - 1, Part::PublishingError) == next);
        }
        lemma_errors_end(bytes, at + 10, count - 1);
        assert forall|i: int| 0 <= i < count implies 1 <= #[trigger] be16_at(
            bytes,
            at + 10 * i + 8,
        ) <= 19 by {
            if i > 0 {
                assert(at + 10 * i + 8 == (at + 10) + 10 * (i - 1) + 8);
            }
        }
    }
}

/// The response codes of publishing errors have the numbers of codes.
pub(crate) proof fn lemma_error_codes(bytes: Seq<u8>)
    requires
        frame_walk(bytes) is At,
        frame_key(bytes) == 4,
    ensures
        forall|i: int|
            0 <= i < be32_at(bytes, 9) ==> 1 <= (#[trigger] errors_at(
                bytes,
                13,
                be32_at(bytes, 9),
            )[i]).1 <= 19,
{
    let count = be32_at(bytes, 9);
    lemma_errors_end(bytes, 13, count);
    assert forall|i: int| 0 <= i < count implies 1 <= (#[trigger] errors_at(bytes, 13, count)[i]).1
        <= 19 by {
        assert(1 <= be16_at(bytes, 13 + 10 * i + 8) <= 19);
    }
}

/// There are as many messages as their number says.
pub(crate) proof fn lemma_contents_count(bytes: Seq<u8>, at: int, count: int)
    requires
        0 <= count,
    ensures
        contents_at(bytes, at, count).len() == count,
    decreases count,
{
    if count > 0 {
        lemma_contents_count(bytes, at + 4 + be32_at(bytes, at), count - 1);
    }
}

proof fn lemma_errors_stay(bytes: Seq<u8>, more: Seq<u8>, at: int, count: int)
    requires
        0 <= at,
        0 <= count,
        at + 10 * count <= bytes.len(),
    ensures
        errors_at(bytes + more, at, count) == errors_at(bytes, at, count),
{
    assert(errors_at(bytes + more, at, count) =~= errors_at(bytes, at, count)) by {
        assert forall|i: int| 0 <= i < count implies #[trigger] errors_at(bytes + more, at, count)[i]
            == errors_at(bytes, at, count)[i] by {
            lemma_numbers_stay(bytes, more, at + 10 * i);
            lemma_numbers_stay(bytes, more, at + 10 * i + 4);
            lemma_numbers_stay(bytes, more, at + 10 * i + 8);
        }
    }
}

proof fn lemma_contents_stay(bytes: Seq<u8>, more: Seq<u8>, at: int, count: int)
    requires
        0 <= at <= bytes.len(),
        after_parts(bytes, Walk::At(at), count, Part::Message) is At,
    ensures
        contents_at(bytes + more, at, count) == contents_at(bytes, at, count),
    decreases count,
{
    if count > 0 {
        let next = after_part(bytes, at, Part::Message);
        if !(next is At) {
            assert(after_parts(bytes, next, count - 1, Part::Message) == next);
        }
        lemma_numbers_stay(bytes, more, at);
        assert(content_at(bytes + more, at) =~= content_at(bytes, at));
        lemma_contents_stay(bytes, more, at + 4 + be32_at(bytes, at), count - 1);
    }
}

/// What a frame says does not depend on the bytes that follow it.
#[verifier::spinoff_prover]
pub proof fn law_frame_says_the_same(bytes: Seq<u8>, more: Seq<u8>)
    requires
        frame_walk(bytes) is At,
    ensures
        is_generic_key(frame_key(bytes)) ==> be16_at(bytes + more, 12) == be16_at(bytes, 12),
        frame_key(bytes) == 22 ==> be16_at(bytes + more, 12) == be16_at(bytes, 12),
        frame_key(bytes) == 20 ==> be32_at(bytes + more, 8) == be32_at(bytes, 8) && be32_at(
            bytes + more,
            12,
        ) == be32_at(bytes, 12),
        frame_key(bytes) == 5 || frame_key(bytes) == 11 ==> be16_at(bytes + more, 12) == be16_at(
            bytes,
            12,
        )
            && be64_at(bytes + more, 14) == be64_at(bytes, 14),
        frame_key(bytes) == 17 ==> table_at(
            bytes + more,
            18,
            be32_at(bytes + more, 14),
            Map::empty(),
        )
            == table_at(bytes, 18, be32_at(bytes, 14), Map::empty()),
        frame_key(bytes) == 21 ==> be16_at(bytes + more, 12) == be16_at(bytes, 12),
        frame_key(bytes) == 21 && be16_at(bytes, 12) == 1 ==> table_at(
            bytes + more,
            18,
            be32_at(bytes + more, 14),
            Map::empty(),
        ) == table_at(bytes, 18, be32_at(bytes, 14), Map::empty()),
        frame_key(bytes) == 18 || frame_key(bytes) == 24 || frame_key(bytes) == 25 ==> be16_at(
            bytes + more,
            12,
        ) == be16_at(bytes, 12) && texts_at(bytes + more, 18, be32_at(bytes + more, 14)) == texts_at(
            bytes,
            18,
            be32_at(bytes, 14),
        ),
        frame_key(bytes) == 27 ==> be16_at(bytes + more, 12) == be16_at(bytes, 12) && commands_at(
            bytes + more,
            18,
            be32_at(bytes + more, 14),
        ) == commands_at(bytes, 18, be32_at(bytes, 14)),
        frame_key(bytes) == 3 ==> (bytes + more)[8] == bytes[8] && long_numbers_at(
            bytes + more,
            13,
            be32_at(bytes + more, 9),
        ) == long_numbers_at(bytes, 13, be32_at(bytes, 9)),
        frame_key(bytes) == 4 ==> (bytes + more)[8] == bytes[8] && errors_at(
            bytes + more,
            13,
            be32_at(bytes + more, 9),
        ) == errors_at(bytes, 13, be32_at(bytes, 9)),
        frame_key(bytes) == 8 ==> (bytes + more)[8] == bytes[8] && be64_at(bytes + more, 33) == be64_at(
            bytes,
            33,
        ) && delivered_at(bytes + more) == delivered_at(bytes),
        frame_key(bytes) == 9 ==> be16_at(bytes + more, 8) == be16_at(bytes, 8) && (bytes + more)[10]
            == bytes[10],
        frame_key(bytes) == 16 ==> be16_at(bytes + more, 8) == be16_at(bytes, 8) && text_at(
            bytes + more,
            10,
        ) == text_at(bytes, 10),
        frame_key(bytes) == 26 ==> be32_at(bytes + more, 8) == be32_at(bytes, 8) && (bytes + more)[12]
            == bytes[12] && (bytes + more)[13] == bytes[13],
        frame_key(bytes) == 15 ==> brokers_at(
            bytes + more,
            16,
            be32_at(bytes + more, 12),
        ) == brokers_at(
            bytes,
            16,
            be32_at(bytes, 12),
        ),
        frame_key(bytes) == 15 ==> streams_at(
            bytes + more,
            streams_start(bytes + more) + 4,
            be32_at(bytes + more, streams_start(bytes + more)),
        ) == streams_at(bytes, streams_start(bytes) + 4, be32_at(bytes, streams_start(bytes))),
{
    let key = frame_key(bytes);
    lemma_numbers_stay(bytes, more, 8);
    lemma_numbers_stay(bytes, more, 12);
    lemma_numbers_stay(bytes, more, 14);
    lemma_numbers_stay(bytes, more, 18);
    if key == 17 || (key == 21 && be16_at(bytes, 12) == 1) {
        lemma_table_stays(bytes, more, 18, be32_at(bytes, 14), Map::empty());
    } else if key == 18 || key == 24 || key == 25 {
        lemma_texts_stay(bytes, more, 18, be32_at(bytes, 14));
    } else if key == 27 {
        lemma_commands_stay(bytes, more, 18, be32_at(bytes, 14));
    } else if key == 3 {
        lemma_numbers_stay(bytes, more, 9);
        lemma_long_numbers_stay(bytes, more, 13, be32_at(bytes, 9));
    } else if key == 4 {
        lemma_numbers_stay(bytes, more, 9);
        lemma_errors_end(bytes, 13, be32_at(bytes, 9));
        lemma_errors_stay(bytes, more, 13, be32_at(bytes, 9));
    } else if key == 8 {
        lemma_numbers_stay(bytes, more, 13);
        lemma_numbers_stay(bytes, more, 33);
        lemma_numbers_stay(bytes, more, 37);
        lemma_contents_stay(bytes, more, 57, be32_at(bytes, 13));
    } else if key == 16 {
        lemma_text_stays_readable(bytes, more, 10);
    } else if key == 15 {
        lemma_list_stays(bytes, more, Walk::At(12), Part::Broker);
        lemma_brokers_stay(bytes, more, 16, be32_at(bytes, 12));
        let start = streams_start(bytes);
        lemma_numbers_stay(bytes, more, start);
        lemma_streams_stay(bytes, more, start + 4, be32_at(bytes, start));
    }
}

/// A text that is written can be read back, if it has less than 32768 bytes: their number is read
/// as a signed one.
#[verifier::spinoff_prover]
pub proof fn law_text_is_read_back(before: Seq<u8>, content: Seq<char>, after: Seq<u8>)
    requires
        encode_utf8(content).len() < 0x8000,
    ensures
        after_text(before + text(content) + after, Walk::At(before.len() as int)) == Walk::At(
            (before.len() + text(content).len()) as int,
        ),
        text_at(before + text(content) + after, before.len() as int) == content,
{
    let at = before.len() as int;
    let encoded = encode_utf8(content);
    let bytes = before + text(content) + after;
    reveal(text);
    lemma_sizes();
    assert(bytes =~= before + be16(encoded.len() as int) + (encoded + after));
    law_numbers_are_read_back(before, encoded.len() as u64, encoded + after);
    assert(bytes.subrange(at + 2, at + 2 + encoded.len()) =~= encoded);
    encode_utf8_valid_utf8(content);
    encode_utf8_decode_utf8(content);
}

} // verus!
