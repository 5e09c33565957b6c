//! The layout of messages.
//!
//! A message consists of sections. Each starts with a descriptor, which tells what the value after it
//! is for. A value starts with a code, which tells its type.

use crate::frames::message_bytes;
use crate::response::data_view;
use crate::walk::{after_bytes, step_bytes, utf8_text, Malformed, Step, Walk};
use crate::wire::{be32, be32_at, be64_at, law_numbers_are_read_back, lemma_sizes, read32, read64};
use vstd::prelude::*;
use vstd::utf8::valid_utf8;

verus! {

/// How deeply the values of a message may be nested where each level takes a call of the protocol
/// crate, which has a stack of fixed size.
pub const SHALLOW: usize = 128;

/// The last point in time that there is, in milliseconds.
pub const LAST_TIME: u64 = 8_210_266_876_799_999;

/// The first point in time that there is, in milliseconds and in two's complement.
pub const FIRST_TIME: u64 = 0xffe2_63b9_6e69_b000;

/// The descriptor of data.
pub const DATA: u64 = 117;

/// A simple value that belongs somewhere.
#[derive(Clone, Copy, Debug, PartialEq, Eq, Structural)]
pub enum Expected {
    /// Any simple value.
    Simple,
    /// A number or a symbol that describes a value.
    Descriptor,
    Text,
    Symbol,
    Binary,
    Boolean,
    /// A number of one byte.
    Byte,
    /// A number of four bytes.
    Number,
    Timestamp,
    /// The identifier of a message.
    Identifier,
    /// The key of an annotation.
    AnnotationKey,
}

/// The entries of a map.
#[derive(Clone, Copy, Debug, PartialEq, Eq, Structural)]
pub enum Entries {
    /// Any values, under any values.
    Values,
    /// Any values, under the keys of annotations.
    Annotations,
    /// Simple values, under texts.
    Properties,
}

/// The fields of a section that is a list.
#[derive(Clone, Copy, Debug, PartialEq, Eq, Structural)]
pub enum Fields {
    Header,
    Properties,
}

/// Whether the code is that of a simple value.
pub open spec fn is_simple(code: u8) -> bool {
    ||| 0x40 <= code <= 0x44
    ||| 0x50 <= code <= 0x56
    ||| code == 0x60 || code == 0x61
    ||| 0x70 <= code <= 0x73
    ||| 0x80 <= code <= 0x83
    ||| code == 0x98
    ||| code == 0xa0 || code == 0xa1 || code == 0xa3
    ||| code == 0xb0 || code == 0xb1 || code == 0xb3
}

/// Whether the code is that of a list.
pub open spec fn is_list(code: u8) -> bool {
    code == 0x45 || code == 0xc0 || code == 0xd0
}

/// Whether the code is that of a map.
pub open spec fn is_map(code: u8) -> bool {
    code == 0xc1 || code == 0xd1
}

/// Whether the code is that of an array.
pub open spec fn is_array(code: u8) -> bool {
    code == 0xe0 || code == 0xf0
}

/// Whether the code tells a type; zero announces a descriptor.
pub open spec fn is_code(code: u8) -> bool {
    code == 0x00 || is_simple(code) || is_list(code) || is_map(code) || is_array(code)
}

/// Whether a simple value with the code is what is expected.
pub open spec fn accepts(expected: Expected, code: u8) -> bool {
    match expected {
        Expected::Simple => is_simple(code),
        Expected::Descriptor => code == 0x44 || code == 0x53 || code == 0x80 || code == 0xa3 || code
            == 0xb3,
        Expected::Text => code == 0xa1 || code == 0xb1,
        Expected::Symbol => code == 0xa3 || code == 0xb3,
        Expected::Binary => code == 0xa0 || code == 0xb0,
        Expected::Boolean => code == 0x41 || code == 0x42 || code == 0x56,
        Expected::Byte => code == 0x50,
        Expected::Number => code == 0x43 || code == 0x52 || code == 0x70,
        Expected::Timestamp => code == 0x83,
        Expected::Identifier => code == 0x44 || code == 0x53 || code == 0x80 || code == 0x55 || code
            == 0x81 || code == 0x98 || code == 0xa0 || code == 0xb0 || code == 0xa1 || code == 0xb1,
        Expected::AnnotationKey => code == 0x44 || code == 0x53 || code == 0x80 || code == 0x55
            || code == 0x81 || code == 0xa3 || code == 0xb3,
    }
}

/// How many bytes follow the code of a value of fixed size.
pub open spec fn width(code: u8) -> int {
    if code < 0x50 {
        0
    } else if code < 0x60 {
        1
    } else if code < 0x70 {
        2
    } else if code < 0x80 {
        4
    } else if code < 0x90 {
        8
    } else {
        16
    }
}

/// Whether the number is that of a character.
pub open spec fn is_char(number: int) -> bool {
    number < 0xd800 || 0xe000 <= number < 0x11_0000
}

/// Whether the number, in two's complement, is that of a point in time.
pub open spec fn is_time(number: int) -> bool {
    number <= LAST_TIME || FIRST_TIME <= number
}

/// How many bytes hold the length of a value of variable size.
pub open spec fn length_size(code: u8) -> int {
    if code < 0xb0 {
        1
    } else {
        4
    }
}

/// How long a value of variable size is.
pub open spec fn length_at(bytes: Seq<u8>, at: int, code: u8) -> int {
    if code < 0xb0 {
        bytes[at] as int
    } else {
        be32_at(bytes, at)
    }
}

/// After what follows the code of a simple value.
pub open spec fn after_content(bytes: Seq<u8>, at: int, code: u8) -> Walk {
    if code >= 0xa0 {
        let start = at + length_size(code);
        if start > bytes.len() || start + length_at(bytes, at, code) > bytes.len() {
            Walk::Short
        } else if code % 0x10 != 0 && !valid_utf8(
            bytes.subrange(start, start + length_at(bytes, at, code)),
        ) {
            Walk::Bad(Malformed::Text)
        } else {
            Walk::At(start + length_at(bytes, at, code))
        }
    } else if at + width(code) > bytes.len() {
        Walk::Short
    } else if code == 0x73 && !is_char(be32_at(bytes, at)) {
        Walk::Bad(Malformed::Message)
    } else if code == 0x83 && !is_time(be64_at(bytes, at)) {
        Walk::Bad(Malformed::Message)
    } else {
        Walk::At(at + width(code))
    }
}

/// What is wrong with the code at position `at`, if anything.
pub open spec fn without_code(bytes: Seq<u8>, at: int) -> Option<Walk> {
    if at >= bytes.len() {
        Some(Walk::Short)
    } else if !is_code(bytes[at]) {
        Some(Walk::Bad(Malformed::Format(bytes[at])))
    } else {
        None
    }
}

/// After a simple value.
pub open spec fn after_simple(bytes: Seq<u8>, at: int, expected: Expected) -> Walk {
    match without_code(bytes, at) {
        Some(walk) => walk,
        None => if accepts(expected, bytes[at]) {
            after_content(bytes, at + 1, bytes[at])
        } else {
            Walk::Bad(Malformed::Message)
        },
    }
}

/// After a simple value that may be absent.
pub open spec fn after_optional(bytes: Seq<u8>, at: int, expected: Expected) -> Walk {
    if at < bytes.len() && bytes[at] == 0x40 {
        Walk::At(at + 1)
    } else {
        after_simple(bytes, at, expected)
    }
}

/// After a descriptor.
pub open spec fn after_descriptor(bytes: Seq<u8>, at: int) -> Walk {
    match without_code(bytes, at) {
        Some(walk) => walk,
        None => if bytes[at] == 0x00 {
            after_simple(bytes, at + 1, Expected::Descriptor)
        } else {
            Walk::Bad(Malformed::Message)
        },
    }
}

/// After the head of a list or a map: its code, its size, which is not looked at, and the number of
/// its items.
pub open spec fn after_head(bytes: Seq<u8>, at: int) -> Walk {
    if bytes[at] == 0x45 {
        Walk::At(at + 1)
    } else if bytes[at] < 0xd0 {
        after_bytes(bytes, Walk::At(at + 1), 2)
    } else {
        after_bytes(bytes, Walk::At(at + 1), 8)
    }
}

/// The number of items that the head of a list or a map tells.
pub open spec fn items_at(bytes: Seq<u8>, at: int) -> int {
    if bytes[at] == 0x45 {
        0
    } else if bytes[at] < 0xd0 {
        bytes[at + 2] as int
    } else {
        be32_at(bytes, at + 5)
    }
}

/// After a value, with other values nested in it up to the given depth; and whether it is a map or
/// holds one.
pub open spec fn after_value(bytes: Seq<u8>, at: int, depth: nat) -> (Walk, bool)
    decreases depth, 0int,
{
    match without_code(bytes, at) {
        Some(walk) => (walk, false),
        None => {
            let code = bytes[at];
            if is_simple(code) {
                (after_content(bytes, at + 1, code), false)
            } else if is_array(code) {
                (Walk::Bad(Malformed::Message), false)
            } else if depth == 0 {
                (Walk::Outside, false)
            } else if code == 0x00 {
                match after_descriptor(bytes, at + 1) {
                    Walk::At(next) => after_value(bytes, next, (depth - 1) as nat),
                    walk => (walk, false),
                }
            } else {
                match after_head(bytes, at) {
                    Walk::At(next) => if is_list(code) {
                        after_values(bytes, next, items_at(bytes, at), (depth - 1) as nat)
                    } else {
                        (
                            after_entries(
                                bytes,
                                next,
                                items_at(bytes, at),
                                (depth - 1) as nat,
                                Entries::Values,
                            ),
                            true,
                        )
                    },
                    walk => (walk, false),
                }
            }
        },
    }
}

/// After `count` values; and whether one of them is a map or holds one.
pub open spec fn after_values(bytes: Seq<u8>, at: int, count: int, depth: nat) -> (Walk, bool)
    decreases depth, count,
{
    if count <= 0 {
        (Walk::At(at), false)
    } else {
        match after_value(bytes, at, depth) {
            (Walk::At(next), first) => {
                let (walk, others) = after_values(bytes, next, count - 1, depth);
                (walk, first || others)
            },
            (walk, _) => (walk, false),
        }
    }
}

/// After the entries of a map, which has `count` keys and values.
pub open spec fn after_entries(
    bytes: Seq<u8>,
    at: int,
    count: int,
    depth: nat,
    entries: Entries,
) -> Walk
    decreases depth, count,
{
    if count <= 0 {
        Walk::At(at)
    } else if count == 1 {
        Walk::Outside
    } else {
        let (key, with_map) = match entries {
            Entries::Values => after_value(bytes, at, depth),
            Entries::Annotations => (after_simple(bytes, at, Expected::AnnotationKey), false),
            Entries::Properties => (after_simple(bytes, at, Expected::Text), false),
        };
        match key {
            Walk::At(middle) => {
                let value = match entries {
                    Entries::Properties => after_simple(bytes, middle, Expected::Simple),
                    _ => after_value(bytes, middle, depth).0,
                };
                match value {
                    Walk::At(next) => if with_map {
                        Walk::Outside
                    } else {
                        after_entries(bytes, next, count - 2, depth, entries)
                    },
                    walk => walk,
                }
            },
            walk => walk,
        }
    }
}

/// After a section that is a map.
pub open spec fn after_map(bytes: Seq<u8>, at: int, entries: Entries, depth: nat) -> Walk {
    match without_code(bytes, at) {
        Some(walk) => walk,
        None => if !is_map(bytes[at]) {
            Walk::Bad(Malformed::Message)
        } else {
            match after_head(bytes, at) {
                Walk::At(next) => after_entries(bytes, next, items_at(bytes, at), depth, entries),
                walk => walk,
            }
        },
    }
}

/// After a section that is a list of values.
pub open spec fn after_sequence(bytes: Seq<u8>, at: int, depth: nat) -> Walk {
    match without_code(bytes, at) {
        Some(walk) => walk,
        None => if !is_list(bytes[at]) {
            Walk::Bad(Malformed::Message)
        } else {
            match after_head(bytes, at) {
                Walk::At(next) => after_values(bytes, next, items_at(bytes, at), depth).0,
                walk => walk,
            }
        },
    }
}

/// How many fields a section has at most; further ones are not read.
pub open spec fn field_count(fields: Fields) -> int {
    match fields {
        Fields::Header => 5,
        Fields::Properties => 13,
    }
}

/// What belongs into a field.
pub open spec fn field(fields: Fields, index: int) -> Expected {
    match fields {
        // Durability, priority, time to live, first acquirer and delivery count.
        Fields::Header => if index == 0 || index == 3 {
            Expected::Boolean
        } else if index == 1 {
            Expected::Byte
        } else {
            Expected::Number
        },
        // The identifier, the user, the addresses and the subject, the correlation identifier, the
        // type and the encoding of the content, the expiry and the creation, and the group.
        Fields::Properties => if index == 0 || index == 5 {
            Expected::Identifier
        } else if index == 1 {
            Expected::Binary
        } else if index == 6 || index == 7 {
            Expected::Symbol
        } else if index == 8 || index == 9 {
            Expected::Timestamp
        } else if index == 11 {
            Expected::Number
        } else {
            Expected::Text
        },
    }
}

/// After the fields from `index` on, of which there are `count`.
pub open spec fn after_fields(
    bytes: Seq<u8>,
    at: int,
    index: int,
    count: int,
    fields: Fields,
) -> Walk
    decreases count - index,
{
    if index >= count || index >= field_count(fields) {
        Walk::At(at)
    } else {
        match after_optional(bytes, at, field(fields, index)) {
            Walk::At(next) => after_fields(bytes, next, index + 1, count, fields),
            walk => walk,
        }
    }
}

/// After a section that is a list of fields.
pub open spec fn after_record(bytes: Seq<u8>, at: int, fields: Fields) -> Walk {
    match without_code(bytes, at) {
        Some(walk) => walk,
        None => if !is_list(bytes[at]) {
            Walk::Bad(Malformed::Message)
        } else {
            match after_head(bytes, at) {
                Walk::At(next) => after_fields(bytes, next, 0, items_at(bytes, at), fields),
                walk => walk,
            }
        },
    }
}

/// The number that describes a section, if a number does.
pub open spec fn descriptor_at(bytes: Seq<u8>, at: int) -> Option<int> {
    if bytes[at + 1] == 0x44 {
        Some(0)
    } else if bytes[at + 1] == 0x53 {
        Some(bytes[at + 2] as int)
    } else if bytes[at + 1] == 0x80 {
        Some(be64_at(bytes, at + 2))
    } else {
        None
    }
}

/// After the value of a section with the given descriptor.
pub open spec fn after_described(
    bytes: Seq<u8>,
    at: int,
    descriptor: Option<int>,
    depth: nat,
) -> Walk {
    match descriptor {
        Some(number) => if number == 112 {
            after_record(bytes, at, Fields::Header)
        } else if number == 113 || number == 114 || number == 120 {
            // Annotations of the delivery, of the message and of its end.
            after_map(bytes, at, Entries::Annotations, depth)
        } else if number == 115 {
            after_record(bytes, at, Fields::Properties)
        } else if number == 116 {
            // The properties of the application.
            after_map(bytes, at, Entries::Properties, depth)
        } else if number == DATA {
            after_simple(bytes, at, Expected::Binary)
        } else if number == 118 {
            after_sequence(bytes, at, depth)
        } else if number == 119 {
            after_value(bytes, at, depth).0
        } else {
            Walk::Bad(Malformed::Message)
        },
        None => Walk::Bad(Malformed::Message),
    }
}

/// After a section, with values nested in it up to the given depth.
pub open spec fn after_section(bytes: Seq<u8>, at: int, depth: nat) -> Walk {
    match after_descriptor(bytes, at) {
        Walk::At(next) => after_described(bytes, next, descriptor_at(bytes, at), depth),
        walk => walk,
    }
}

/// After the sections from position `at` on; a section is never empty and ends within the bytes.
pub open spec fn after_sections(bytes: Seq<u8>, at: int, depth: nat) -> Walk
    decreases bytes.len() - at,
{
    if at >= bytes.len() {
        Walk::At(at)
    } else {
        match after_section(bytes, at, depth) {
            Walk::At(next) => if at < next <= bytes.len() {
                after_sections(bytes, next, depth)
            } else {
                Walk::Outside
            },
            walk => walk,
        }
    }
}

/// How far the sections of a message reach. A value has at least one byte, so that no value can be
/// nested more deeply than the message has bytes.
#[verifier::opaque]
pub open spec fn message_walk(bytes: Seq<u8>) -> Walk {
    after_sections(bytes, 0, bytes.len())
}

/// How far the sections of a message reach where values must not be nested deeply.
#[verifier::opaque]
pub open spec fn shallow_walk(bytes: Seq<u8>) -> Walk {
    after_sections(bytes, 0, SHALLOW as nat)
}

/// The binary data at position `at`.
pub open spec fn binary_at(bytes: Seq<u8>, at: int) -> Seq<u8> {
    let start = at + 1 + length_size(bytes[at]);
    bytes.subrange(start, start + length_at(bytes, at + 1, bytes[at]))
}

/// The data of the first section from position `at` on that holds data.
pub open spec fn data_from(bytes: Seq<u8>, at: int) -> Option<Seq<u8>>
    decreases bytes.len() - at,
{
    if at >= bytes.len() {
        None
    } else if descriptor_at(bytes, at) == Some(DATA as int) {
        Some(binary_at(bytes, after_descriptor(bytes, at)->At_0))
    } else {
        match after_section(bytes, at, bytes.len()) {
            Walk::At(next) => if at < next <= bytes.len() {
                data_from(bytes, next)
            } else {
                None
            },
            _ => None,
        }
    }
}

/// The data of a message, if it holds any; of several sections with data the first counts.
#[verifier::opaque]
pub open spec fn message_data(bytes: Seq<u8>) -> Option<Seq<u8>> {
    data_from(bytes, 0)
}

fn simple(code: u8) -> (yes: bool)
    ensures
        yes == is_simple(code),
{
    matches!(
        code,
        0x40..=0x44
            | 0x50..=0x56
            | 0x60 | 0x61
            | 0x70..=0x73
            | 0x80..=0x83
            | 0x98
            | 0xa0 | 0xa1 | 0xa3
            | 0xb0 | 0xb1 | 0xb3
    )
}

fn list(code: u8) -> (yes: bool)
    ensures
        yes == is_list(code),
{
    code == 0x45 || code == 0xc0 || code == 0xd0
}

fn map(code: u8) -> (yes: bool)
    ensures
        yes == is_map(code),
{
    code == 0xc1 || code == 0xd1
}

fn array(code: u8) -> (yes: bool)
    ensures
        yes == is_array(code),
{
    code == 0xe0 || code == 0xf0
}

fn is_accepted(expected: Expected, code: u8) -> (yes: bool)
    ensures
        yes == accepts(expected, code),
{
    match expected {
        Expected::Simple => simple(code),
        Expected::Descriptor => matches!(code, 0x44 | 0x53 | 0x80 | 0xa3 | 0xb3),
        Expected::Text => matches!(code, 0xa1 | 0xb1),
        Expected::Symbol => matches!(code, 0xa3 | 0xb3),
        Expected::Binary => matches!(code, 0xa0 | 0xb0),
        Expected::Boolean => matches!(code, 0x41 | 0x42 | 0x56),
        Expected::Byte => code == 0x50,
        Expected::Number => matches!(code, 0x43 | 0x52 | 0x70),
        Expected::Timestamp => code == 0x83,
        Expected::Identifier => {
            matches!(code, 0x44 | 0x53 | 0x80 | 0x55 | 0x81 | 0x98 | 0xa0 | 0xb0 | 0xa1 | 0xb1)
        },
        Expected::AnnotationKey => matches!(code, 0x44 | 0x53 | 0x80 | 0x55 | 0x81 | 0xa3 | 0xb3),
    }
}

fn step_content(bytes: &[u8], at: usize, code: u8) -> (next: Step)
    requires
        at <= bytes@.len(),
    ensures
        next.walk() == after_content(bytes@, at as int, code),
        next.reaches(bytes@, at as int),
{
    let left: usize = bytes.len() - at;
    if code >= 0xa0 {
        let head: usize = if code < 0xb0 {
            1
        } else {
            4
        };
        if left < head {
            return Step::Short;
        }
        let size: u32 = if code < 0xb0 {
            bytes[at] as u32
        } else {
            read32(bytes, at)
        };
        if size as u64 > (left - head) as u64 {
            return Step::Short;
        }
        let start: usize = at + head;
        let end: usize = start + size as usize;
        if code % 0x10 != 0 && utf8_text(vstd::slice::slice_subrange(bytes, start, end)).is_none() {
            return Step::Bad(Malformed::Text);
        }
        return Step::At(end);
    }
    let size: usize = if code < 0x50 {
        0
    } else if code < 0x60 {
        1
    } else if code < 0x70 {
        2
    } else if code < 0x80 {
        4
    } else if code < 0x90 {
        8
    } else {
        16
    };
    if left < size {
        return Step::Short;
    }
    if code == 0x73 {
        let number: u32 = read32(bytes, at);
        if 0xd800 <= number && (number < 0xe000 || 0x11_0000 <= number) {
            return Step::Bad(Malformed::Message);
        }
    }
    if code == 0x83 {
        let number: u64 = read64(bytes, at);
        if LAST_TIME < number && number < FIRST_TIME {
            return Step::Bad(Malformed::Message);
        }
    }
    Step::At(at + size)
}

/// Returns what is wrong with the code at position `at`, if anything.
fn step_code(bytes: &[u8], at: usize) -> (wrong: Option<Step>)
    requires
        at <= bytes@.len(),
    ensures
        match without_code(bytes@, at as int) {
            Some(walk) => wrong is Some && wrong->0.walk() == walk && !(wrong->0 is At),
            None => wrong is None && at < bytes@.len(),
        },
{
    if at >= bytes.len() {
        return Some(Step::Short);
    }
    let code: u8 = bytes[at];
    if code == 0x00 || simple(code) || list(code) || map(code) || array(code) {
        None
    } else {
        Some(Step::Bad(Malformed::Format(code)))
    }
}

fn step_simple(bytes: &[u8], at: usize, expected: Expected) -> (next: Step)
    requires
        at <= bytes@.len(),
    ensures
        next.walk() == after_simple(bytes@, at as int, expected),
        next.reaches(bytes@, at + 1),
{
    if let Some(wrong) = step_code(bytes, at) {
        return wrong;
    }
    if is_accepted(expected, bytes[at]) {
        step_content(bytes, at + 1, bytes[at])
    } else {
        Step::Bad(Malformed::Message)
    }
}

fn step_optional(bytes: &[u8], at: usize, expected: Expected) -> (next: Step)
    requires
        at <= bytes@.len(),
    ensures
        next.walk() == after_optional(bytes@, at as int, expected),
        next.reaches(bytes@, at + 1),
{
    if at < bytes.len() && bytes[at] == 0x40 {
        Step::At(at + 1)
    } else {
        step_simple(bytes, at, expected)
    }
}

fn step_descriptor(bytes: &[u8], at: usize) -> (next: Step)
    requires
        at <= bytes@.len(),
    ensures
        next.walk() == after_descriptor(bytes@, at as int),
        next.reaches(bytes@, at + 2),
{
    if let Some(wrong) = step_code(bytes, at) {
        return wrong;
    }
    if bytes[at] == 0x00 {
        step_simple(bytes, at + 1, Expected::Descriptor)
    } else {
        Step::Bad(Malformed::Message)
    }
}

/// Returns where the items of a list or a map start, and how many there are.
fn step_head(bytes: &[u8], at: usize) -> (head: (Step, u32))
    requires
        at < bytes@.len(),
    ensures
        head.0.walk() == after_head(bytes@, at as int),
        head.0.reaches(bytes@, at + 1),
        head.0 is At ==> head.1 == items_at(bytes@, at as int),
{
    if bytes[at] == 0x45 {
        return (Step::At(at + 1), 0);
    }
    if bytes[at] < 0xd0 {
        match step_bytes(bytes, Step::At(at + 1), 2) {
            Step::At(next) => (Step::At(next), bytes[at + 2] as u32),
            other => (other, 0),
        }
    } else {
        match step_bytes(bytes, Step::At(at + 1), 8) {
            Step::At(next) => (Step::At(next), read32(bytes, at + 5)),
            other => (other, 0),
        }
    }
}

#[verifier::spinoff_prover]
fn step_value(bytes: &[u8], at: usize, depth: usize) -> (next: (Step, bool))
    requires
        at <= bytes@.len(),
    ensures
        next.0.walk() == after_value(bytes@, at as int, depth as nat).0,
        next.1 == after_value(bytes@, at as int, depth as nat).1,
        next.0.reaches(bytes@, at + 1),
    decreases depth, 0int,
{
    if let Some(wrong) = step_code(bytes, at) {
        return (wrong, false);
    }
    let code: u8 = bytes[at];
    if simple(code) {
        return (step_content(bytes, at + 1, code), false);
    }
    if array(code) {
        return (Step::Bad(Malformed::Message), false);
    }
    if depth == 0 {
        return (Step::Outside, false);
    }
    if code == 0x00 {
        return match step_descriptor(bytes, at + 1) {
            Step::At(next) => step_value(bytes, next, depth - 1),
            other => (other, false),
        };
    }
    match step_head(bytes, at) {
        (Step::At(next), count) => if list(code) {
            step_values(bytes, next, count, depth - 1)
        } else {
            (step_entries(bytes, next, count, depth - 1, Entries::Values), true)
        },
        (other, _) => (other, false),
    }
}

#[verifier::spinoff_prover]
fn step_values(bytes: &[u8], at: usize, count: u32, depth: usize) -> (next: (Step, bool))
    requires
        at <= bytes@.len(),
    ensures
        next.0.walk() == after_values(bytes@, at as int, count as int, depth as nat).0,
        next.1 == after_values(bytes@, at as int, count as int, depth as nat).1,
        next.0.reaches(bytes@, at as int),
    decreases depth, 1int,
{
    let mut here: usize = at;
    let mut left: u32 = count;
    let mut with_map: bool = false;
    let ghost whole = after_values(bytes@, at as int, count as int, depth as nat);
    while left > 0
        invariant
            at <= here <= bytes@.len(),
            left <= count,
            whole == after_values(bytes@, at as int, count as int, depth as nat),
            ({
                let rest = after_values(bytes@, here as int, left as int, depth as nat);
                whole.0 == rest.0 && whole.1 == (with_map || rest.1)
            }),
        decreases left,
    {
        match step_value(bytes, here, depth) {
            (Step::At(next), first) => {
                here = next;
                with_map = with_map || first;
            },
            (other, _) => {
                return (other, with_map);
            },
        }
        left = left - 1;
    }
    (Step::At(here), with_map)
}

#[verifier::spinoff_prover]
fn step_entries(bytes: &[u8], at: usize, count: u32, depth: usize, entries: Entries) -> (next:
    Step)
    requires
        at <= bytes@.len(),
    ensures
        next.walk() == after_entries(bytes@, at as int, count as int, depth as nat, entries),
        next.reaches(bytes@, at as int),
    decreases depth, 1int,
{
    let mut here: usize = at;
    let mut left: u32 = count;
    while left > 1
        invariant
            at <= here <= bytes@.len(),
            after_entries(bytes@, here as int, left as int, depth as nat, entries)
                == after_entries(bytes@, at as int, count as int, depth as nat, entries),
        decreases left,
    {
        let (key, with_map) = match entries {
            Entries::Values => step_value(bytes, here, depth),
            Entries::Annotations => (step_simple(bytes, here, Expected::AnnotationKey), false),
            Entries::Properties => (step_simple(bytes, here, Expected::Text), false),
        };
        let middle: usize = match key {
            Step::At(middle) => middle,
            other => return other,
        };
        let value = match entries {
            Entries::Properties => step_simple(bytes, middle, Expected::Simple),
            _ => step_value(bytes, middle, depth).0,
        };
        let next: usize = match value {
            Step::At(next) => next,
            other => return other,
        };
        if with_map {
            return Step::Outside;
        }
        here = next;
        left = left - 2;
    }
    if left == 1 {
        Step::Outside
    } else {
        Step::At(here)
    }
}

fn step_map(bytes: &[u8], at: usize, entries: Entries, depth: usize) -> (next: Step)
    requires
        at <= bytes@.len(),
    ensures
        next.walk() == after_map(bytes@, at as int, entries, depth as nat),
        next.reaches(bytes@, at as int),
{
    if let Some(wrong) = step_code(bytes, at) {
        return wrong;
    }
    if !map(bytes[at]) {
        return Step::Bad(Malformed::Message);
    }
    match step_head(bytes, at) {
        (Step::At(next), count) => step_entries(bytes, next, count, depth, entries),
        (other, _) => other,
    }
}

fn step_sequence(bytes: &[u8], at: usize, depth: usize) -> (next: Step)
    requires
        at <= bytes@.len(),
    ensures
        next.walk() == after_sequence(bytes@, at as int, depth as nat),
        next.reaches(bytes@, at as int),
{
    if let Some(wrong) = step_code(bytes, at) {
        return wrong;
    }
    if !list(bytes[at]) {
        return Step::Bad(Malformed::Message);
    }
    match step_head(bytes, at) {
        (Step::At(next), count) => step_values(bytes, next, count, depth).0,
        (other, _) => other,
    }
}

fn expected_field(fields: Fields, index: u32) -> (expected: Expected)
    requires
        index < field_count(fields),
    ensures
        expected == field(fields, index as int),
{
    match fields {
        Fields::Header => match index {
            0 | 3 => Expected::Boolean,
            1 => Expected::Byte,
            _ => Expected::Number,
        },
        Fields::Properties => match index {
            0 | 5 => Expected::Identifier,
            1 => Expected::Binary,
            6 | 7 => Expected::Symbol,
            8 | 9 => Expected::Timestamp,
            11 => Expected::Number,
            _ => Expected::Text,
        },
    }
}

fn step_fields(bytes: &[u8], at: usize, count: u32, fields: Fields) -> (next: Step)
    requires
        at <= bytes@.len(),
    ensures
        next.walk() == after_fields(bytes@, at as int, 0, count as int, fields),
        next.reaches(bytes@, at as int),
{
    let known: u32 = match fields {
        Fields::Header => 5,
        Fields::Properties => 13,
    };
    let mut here: usize = at;
    let mut index: u32 = 0;
    while index < count && index < known
        invariant
            at <= here <= bytes@.len(),
            known == field_count(fields),
            index <= known,
            after_fields(bytes@, here as int, index as int, count as int, fields) == after_fields(
                bytes@,
                at as int,
                0,
                count as int,
                fields,
            ),
        decreases known - index,
    {
        match step_optional(bytes, here, expected_field(fields, index)) {
            Step::At(next) => {
                here = next;
            },
            other => return other,
        }
        index = index + 1;
    }
    Step::At(here)
}

fn step_record(bytes: &[u8], at: usize, fields: Fields) -> (next: Step)
    requires
        at <= bytes@.len(),
    ensures
        next.walk() == after_record(bytes@, at as int, fields),
        next.reaches(bytes@, at as int),
{
    if let Some(wrong) = step_code(bytes, at) {
        return wrong;
    }
    if !list(bytes[at]) {
        return Step::Bad(Malformed::Message);
    }
    match step_head(bytes, at) {
        (Step::At(next), count) => step_fields(bytes, next, count, fields),
        (other, _) => other,
    }
}

/// Returns the number that describes the section at position `at`, if a number does.
fn read_descriptor(bytes: &[u8], at: usize) -> (descriptor: Option<u64>)
    requires
        after_descriptor(bytes@, at as int) is At,
    ensures
        descriptor is Some <==> descriptor_at(bytes@, at as int) is Some,
        descriptor is Some ==> descriptor->0 == descriptor_at(bytes@, at as int)->0,
{
    assert(bytes.len() == bytes@.len());
    match bytes[at + 1] {
        0x44 => Some(0),
        0x53 => Some(bytes[at + 2] as u64),
        0x80 => Some(read64(bytes, at + 2)),
        _ => None,
    }
}

fn step_section(bytes: &[u8], at: usize, depth: usize) -> (next: Step)
    requires
        at <= bytes@.len(),
    ensures
        next.walk() == after_section(bytes@, at as int, depth as nat),
        next.reaches(bytes@, at + 2),
{
    let value_at: usize = match step_descriptor(bytes, at) {
        Step::At(next) => next,
        other => return other,
    };
    match read_descriptor(bytes, at) {
        Some(112) => step_record(bytes, value_at, Fields::Header),
        Some(113) | Some(114) | Some(120) => step_map(bytes, value_at, Entries::Annotations, depth),
        Some(115) => step_record(bytes, value_at, Fields::Properties),
        Some(116) => step_map(bytes, value_at, Entries::Properties, depth),
        Some(117) => step_simple(bytes, value_at, Expected::Binary),
        Some(118) => step_sequence(bytes, value_at, depth),
        Some(119) => step_value(bytes, value_at, depth).0,
        _ => Step::Bad(Malformed::Message),
    }
}

fn step_sections(bytes: &[u8], depth: usize) -> (next: Step)
    ensures
        next.walk() == after_sections(bytes@, 0, depth as nat),
        next.within(bytes@),
{
    let mut here: usize = 0;
    while here < bytes.len()
        invariant
            here <= bytes@.len(),
            after_sections(bytes@, here as int, depth as nat) == after_sections(
                bytes@,
                0,
                depth as nat,
            ),
        decreases bytes@.len() - here,
    {
        match step_section(bytes, here, depth) {
            Step::At(next) => {
                here = next;
            },
            other => return other,
        }
    }
    Step::At(here)
}

/// Returns how far the sections of a message reach.
pub(crate) fn step_message(bytes: &[u8]) -> (next: Step)
    ensures
        next.walk() == message_walk(bytes@),
        next.within(bytes@),
{
    reveal(message_walk);
    step_sections(bytes, bytes.len())
}

/// Returns how far the sections of a message reach where values must not be nested deeply.
pub(crate) fn step_shallow(bytes: &[u8]) -> (next: Step)
    ensures
        next.walk() == shallow_walk(bytes@),
        next.within(bytes@),
{
    reveal(shallow_walk);
    step_sections(bytes, SHALLOW)
}

/// Returns the bytes from `start` to `end`.
pub(crate) fn copied(bytes: &[u8], start: usize, end: usize) -> (copy: Vec<u8>)
    requires
        start <= end <= bytes@.len(),
    ensures
        copy@ == bytes@.subrange(start as int, end as int),
{
    let mut copy: Vec<u8> = Vec::new();
    let mut i: usize = start;
    while i < end
        invariant
            start <= i <= end <= bytes@.len(),
            copy@ == bytes@.subrange(start as int, i as int),
        decreases end - i,
    {
        copy.push(bytes[i]);
        i = i + 1;
        assert(bytes@.subrange(start as int, i as int) =~= bytes@.subrange(
            start as int,
            i - 1,
        ).push(bytes@[i - 1]));
    }
    copy
}

/// Returns the data of a message, if it holds any.
#[verifier::spinoff_prover]
pub(crate) fn read_data(bytes: &[u8]) -> (data: Option<Vec<u8>>)
    requires
        message_walk(bytes@) is At,
    ensures
        data_view(data) == message_data(bytes@),
{
    reveal(message_walk);
    reveal(message_data);
    assert(bytes.len() == bytes@.len());
    let depth: usize = bytes.len();
    let mut here: usize = 0;
    while here < bytes.len()
        invariant
            bytes.len() == bytes@.len(),
            depth == bytes@.len(),
            here <= bytes@.len(),
            after_sections(bytes@, here as int, depth as nat) is At,
            data_from(bytes@, here as int) == message_data(bytes@),
        decreases bytes@.len() - here,
    {
        let (value_at, next): (usize, usize) = match (
            step_descriptor(bytes, here),
            step_section(bytes, here, depth),
        ) {
            (Step::At(value_at), Step::At(next)) => (value_at, next),
            _ => {
                assert(false);
                return None;
            },
        };
        if read_descriptor(bytes, here) == Some(DATA) {
            let start: usize = value_at + 1 + if bytes[value_at] < 0xb0 {
                1usize
            } else {
                4usize
            };
            return Some(copied(bytes, start, next));
        }
        here = next;
    }
    None
}

/// A message that holds data is read as such: its sections reach to its end, and its data is the
/// data that it was made of.
#[verifier::spinoff_prover]
pub proof fn law_data_is_read_back(data: Seq<u8>)
    requires
        data.len() <= u32::MAX,
    ensures
        message_walk(message_bytes(data)) == Walk::At(message_bytes(data).len() as int),
        message_data(message_bytes(data)) == Some(data),
{
    reveal(message_walk);
    reveal(message_data);
    let bytes = message_bytes(data);
    let depth = bytes.len();
    let start: int = if data.len() > 255 {
        8
    } else {
        5
    };
    if data.len() > 255 {
        let head = seq![0x00u8, 0x53, 0x75] + seq![0xb0u8];
        lemma_sizes();
        assert(bytes =~= head + be32(data.len() as int) + data);
        law_numbers_are_read_back(head, data.len() as u64, data);
        assert(bytes.len() == 8 + data.len());
    } else {
        assert(bytes.len() == 5 + data.len());
    }
    assert(bytes[0] == 0x00 && bytes[1] == 0x53 && bytes[2] == 0x75);
    assert(bytes.subrange(start, bytes.len() as int) =~= data);
    assert(after_descriptor(bytes, 0) == Walk::At(3));
    assert(descriptor_at(bytes, 0) == Some(DATA as int));
    assert(after_section(bytes, 0, depth) == Walk::At(bytes.len() as int));
    assert(after_sections(bytes, bytes.len() as int, depth) == Walk::At(bytes.len() as int));
    assert(binary_at(bytes, 3) == data);
}

/// Whether a walk that goes on does so within the bytes, `from` or after it.
spec fn goes_on(bytes: Seq<u8>, from: int, walk: Walk) -> bool {
    match walk {
        Walk::At(at) => from <= at <= bytes.len(),
        _ => true,
    }
}

#[verifier::spinoff_prover]
proof fn lemma_value_depth(bytes: Seq<u8>, at: int, depth: nat, other: nat)
    requires
        0 <= at <= bytes.len(),
        bytes.len() - at <= depth,
        bytes.len() - at <= other,
    ensures
        after_value(bytes, at, depth) == after_value(bytes, at, other),
        goes_on(bytes, at + 1, after_value(bytes, at, depth).0),
    decreases bytes.len() - at, 0int,
{
    if without_code(bytes, at) is None {
        let code = bytes[at];
        if !is_simple(code) && !is_array(code) {
            if code == 0x00 {
                if let Walk::At(next) = after_descriptor(bytes, at + 1) {
                    lemma_value_depth(bytes, next, (depth - 1) as nat, (other - 1) as nat);
                }
            } else if let Walk::At(next) = after_head(bytes, at) {
                let count = items_at(bytes, at);
                if is_list(code) {
                    lemma_values_depth(bytes, next, count, (depth - 1) as nat, (other - 1) as nat);
                } else {
                    lemma_entries_depth(
                        bytes,
                        next,
                        count,
                        (depth - 1) as nat,
                        (other - 1) as nat,
                        Entries::Values,
                    );
                }
            }
        }
    }
}

#[verifier::spinoff_prover]
proof fn lemma_values_depth(bytes: Seq<u8>, at: int, count: int, depth: nat, other: nat)
    requires
        0 <= at <= bytes.len(),
        bytes.len() - at <= depth,
        bytes.len() - at <= other,
    ensures
        after_values(bytes, at, count, depth) == after_values(bytes, at, count, other),
        goes_on(bytes, at, after_values(bytes, at, count, depth).0),
    decreases bytes.len() - at, count,
{
    if count > 0 {
        lemma_value_depth(bytes, at, depth, other);
        if let Walk::At(next) = after_value(bytes, at, depth).0 {
            lemma_values_depth(bytes, next, count - 1, depth, other);
        }
    }
}

#[verifier::spinoff_prover]
proof fn lemma_entries_depth(
    bytes: Seq<u8>,
    at: int,
    count: int,
    depth: nat,
    other: nat,
    entries: Entries,
)
    requires
        0 <= at <= bytes.len(),
        bytes.len() - at <= depth,
        bytes.len() - at <= other,
    ensures
        after_entries(bytes, at, count, depth, entries) == after_entries(
            bytes,
            at,
            count,
            other,
            entries,
        ),
        goes_on(bytes, at, after_entries(bytes, at, count, depth, entries)),
    decreases bytes.len() - at, count,
{
    if count > 1 {
        lemma_value_depth(bytes, at, depth, other);
        let key = match entries {
            Entries::Values => after_value(bytes, at, depth).0,
            Entries::Annotations => after_simple(bytes, at, Expected::AnnotationKey),
            Entries::Properties => after_simple(bytes, at, Expected::Text),
        };
        if let Walk::At(middle) = key {
            lemma_value_depth(bytes, middle, depth, other);
            let value = match entries {
                Entries::Properties => after_simple(bytes, middle, Expected::Simple),
                _ => after_value(bytes, middle, depth).0,
            };
            if let Walk::At(next) = value {
                lemma_entries_depth(bytes, next, count - 2, depth, other, entries);
            }
        }
    }
}

#[verifier::spinoff_prover]
pub(crate) proof fn lemma_section_depth(bytes: Seq<u8>, at: int, depth: nat, other: nat)
    requires
        0 <= at <= bytes.len(),
        bytes.len() <= depth,
        bytes.len() <= other,
    ensures
        after_section(bytes, at, depth) == after_section(bytes, at, other),
{
    if let Walk::At(value_at) = after_descriptor(bytes, at) {
        lemma_value_depth(bytes, value_at, depth, other);
        if without_code(bytes, value_at) is None {
            if let Walk::At(next) = after_head(bytes, value_at) {
                let count = items_at(bytes, value_at);
                lemma_values_depth(bytes, next, count, depth, other);
                lemma_entries_depth(bytes, next, count, depth, other, Entries::Annotations);
                lemma_entries_depth(bytes, next, count, depth, other, Entries::Properties);
            }
        }
    }
}

#[verifier::spinoff_prover]
proof fn lemma_sections_depth(bytes: Seq<u8>, at: int, depth: nat, other: nat)
    requires
        0 <= at <= bytes.len(),
        bytes.len() <= depth,
        bytes.len() <= other,
    ensures
        after_sections(bytes, at, depth) == after_sections(bytes, at, other),
    decreases bytes.len() - at,
{
    if at < bytes.len() {
        lemma_section_depth(bytes, at, depth, other);
        if let Walk::At(next) = after_section(bytes, at, depth) {
            if at < next <= bytes.len() {
                lemma_sections_depth(bytes, next, depth, other);
            }
        }
    }
}

/// Values may be nested as deeply as they are: how far the sections of a message reach does not
/// change where a larger depth is allowed than the message has bytes.
pub proof fn law_nesting_has_no_limit(bytes: Seq<u8>, depth: nat)
    requires
        bytes.len() <= depth,
    ensures
        after_sections(bytes, 0, depth) == message_walk(bytes),
{
    reveal(message_walk);
    lemma_sections_depth(bytes, 0, depth, bytes.len());
}

} // verus!
