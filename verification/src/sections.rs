//! How the sections of a message are put together, and that they can be taken apart.

use crate::frames::message_bytes;
use crate::message::{
    accepts, after_content, after_described, after_descriptor, after_entries, after_fields,
    after_head, after_optional, after_section, after_sections, after_simple, after_value, after_values,
    binary_at, data_from, descriptor_at, field, field_count, is_array, is_list, is_simple,
    items_at, law_data_is_read_back, law_nesting_has_no_limit, lemma_section_depth, length_at,
    length_size, message_data, message_walk, without_code, Entries, Expected, Fields, DATA,
};
use crate::walk::{Malformed, Walk};
use crate::wire::{
    be32, be32_at, be64, be64_at, law_numbers_are_read_back, lemma_sizes, signed64,
};
use vstd::prelude::*;
use vstd::utf8::valid_utf8;

verus! {

/// A walk in bytes that stand after `by` other bytes.
pub open spec fn shifted(walk: Walk, by: int) -> Walk {
    match walk {
        Walk::At(at) => Walk::At(at + by),
        _ => walk,
    }
}

proof fn lemma_numbers_shift(before: Seq<u8>, rest: Seq<u8>, at: int)
    requires
        0 <= at,
    ensures
        at < rest.len() ==> (before + rest)[before.len() + at] == rest[at],
        at + 4 <= rest.len() ==> be32_at(before + rest, before.len() + at) == be32_at(rest, at),
        at + 8 <= rest.len() ==> be64_at(before + rest, before.len() + at) == be64_at(rest, at),
{
}

proof fn lemma_content_shift(before: Seq<u8>, rest: Seq<u8>, at: int, code: u8)
    requires
        0 <= at,
    ensures
        after_content(before + rest, before.len() + at, code) == shifted(
            after_content(rest, at, code),
            before.len() as int,
        ),
{
    lemma_numbers_shift(before, rest, at);
    let by = before.len() as int;
    if code >= 0xa0 {
        let start = at + length_size(code);
        if start <= rest.len() {
            let end = start + length_at(rest, at, code);
            if end <= rest.len() {
                assert((before + rest).subrange(by + start, by + end) =~= rest.subrange(start, end));
            }
        }
    }
}

proof fn lemma_simple_shift(before: Seq<u8>, rest: Seq<u8>, at: int, expected: Expected)
    requires
        0 <= at,
    ensures
        without_code(before + rest, before.len() + at) == without_code(rest, at),
        after_simple(before + rest, before.len() + at, expected) == shifted(
            after_simple(rest, at, expected),
            before.len() as int,
        ),
        after_optional(before + rest, before.len() + at, expected) == shifted(
            after_optional(rest, at, expected),
            before.len() as int,
        ),
{
    lemma_numbers_shift(before, rest, at);
    if at < rest.len() {
        lemma_content_shift(before, rest, at + 1, rest[at]);
    }
}

proof fn lemma_descriptor_shift(before: Seq<u8>, rest: Seq<u8>, at: int)
    requires
        0 <= at,
    ensures
        after_descriptor(before + rest, before.len() + at) == shifted(
            after_descriptor(rest, at),
            before.len() as int,
        ),
{
    lemma_numbers_shift(before, rest, at);
    lemma_simple_shift(before, rest, at + 1, Expected::Descriptor);
}

proof fn lemma_head_shift(before: Seq<u8>, rest: Seq<u8>, at: int)
    requires
        0 <= at < rest.len(),
    ensures
        after_head(before + rest, before.len() + at) == shifted(
            after_head(rest, at),
            before.len() as int,
        ),
        after_head(rest, at) is At ==> items_at(before + rest, before.len() + at) == items_at(
            rest,
            at,
        ),
        after_head(rest, at) matches Walk::At(next) ==> at < next,
{
    lemma_numbers_shift(before, rest, at);
    lemma_numbers_shift(before, rest, at + 2);
    lemma_numbers_shift(before, rest, at + 5);
}

proof fn lemma_forward(bytes: Seq<u8>, at: int, expected: Expected)
    requires
        0 <= at,
    ensures
        after_simple(bytes, at, expected) matches Walk::At(next) ==> at < next <= bytes.len(),
        after_descriptor(bytes, at) matches Walk::At(next) ==> at + 1 < next <= bytes.len(),
{
}

#[verifier::spinoff_prover]
proof fn lemma_value_shift(before: Seq<u8>, rest: Seq<u8>, at: int, depth: nat)
    requires
        0 <= at,
    ensures
        after_value(before + rest, before.len() + at, depth) == (
            shifted(after_value(rest, at, depth).0, before.len() as int),
            after_value(rest, at, depth).1,
        ),
        after_value(rest, at, depth).0 matches Walk::At(next) ==> 0 <= next,
    decreases depth, 0int,
{
    let by = before.len() as int;
    lemma_simple_shift(before, rest, at, Expected::Simple);
    if without_code(rest, at) is None {
        let code = rest[at];
        assert((before + rest)[by + at] == code);
        lemma_content_shift(before, rest, at + 1, code);
        if !is_simple(code) && !is_array(code) && depth > 0 {
            let less = (depth - 1) as nat;
            if code == 0x00 {
                lemma_descriptor_shift(before, rest, at + 1);
                lemma_forward(rest, at + 1, Expected::Simple);
                if let Walk::At(next) = after_descriptor(rest, at + 1) {
                    lemma_value_shift(before, rest, next, less);
                }
            } else {
                lemma_head_shift(before, rest, at);
                if let Walk::At(next) = after_head(rest, at) {
                    let count = items_at(rest, at);
                    if is_list(code) {
                        lemma_values_shift(before, rest, next, count, less);
                    } else {
                        lemma_entries_shift(before, rest, next, count, less, Entries::Values);
                    }
                }
            }
        }
    }
}

#[verifier::spinoff_prover]
proof fn lemma_values_shift(before: Seq<u8>, rest: Seq<u8>, at: int, count: int, depth: nat)
    requires
        0 <= at,
    ensures
        after_values(before + rest, before.len() + at, count, depth) == (
            shifted(after_values(rest, at, count, depth).0, before.len() as int),
            after_values(rest, at, count, depth).1,
        ),
        after_values(rest, at, count, depth).0 matches Walk::At(next) ==> 0 <= next,
    decreases depth, count,
{
    if count > 0 {
        lemma_value_shift(before, rest, at, depth);
        if let Walk::At(next) = after_value(rest, at, depth).0 {
            lemma_values_shift(before, rest, next, count - 1, depth);
        }
    }
}

#[verifier::spinoff_prover]
proof fn lemma_entries_shift(
    before: Seq<u8>,
    rest: Seq<u8>,
    at: int,
    count: int,
    depth: nat,
    entries: Entries,
)
    requires
        0 <= at,
    ensures
        after_entries(before + rest, before.len() + at, count, depth, entries) == shifted(
            after_entries(rest, at, count, depth, entries),
            before.len() as int,
        ),
        after_entries(rest, at, count, depth, entries) matches Walk::At(next) ==> 0 <= next,
    decreases depth, count,
{
    if count > 1 {
        let key = match entries {
            Entries::Values => after_value(rest, at, depth).0,
            Entries::Annotations => after_simple(rest, at, Expected::AnnotationKey),
            Entries::Properties => after_simple(rest, at, Expected::Text),
        };
        lemma_value_shift(before, rest, at, depth);
        lemma_simple_shift(before, rest, at, Expected::AnnotationKey);
        lemma_simple_shift(before, rest, at, Expected::Text);
        lemma_forward(rest, at, Expected::AnnotationKey);
        lemma_forward(rest, at, Expected::Text);
        if let Walk::At(middle) = key {
            let value = match entries {
                Entries::Properties => after_simple(rest, middle, Expected::Simple),
                _ => after_value(rest, middle, depth).0,
            };
            lemma_value_shift(before, rest, middle, depth);
            lemma_simple_shift(before, rest, middle, Expected::Simple);
            lemma_forward(rest, middle, Expected::Simple);
            if let Walk::At(next) = value {
                lemma_entries_shift(before, rest, next, count - 2, depth, entries);
            }
        }
    }
}

#[verifier::spinoff_prover]
proof fn lemma_fields_shift(
    before: Seq<u8>,
    rest: Seq<u8>,
    at: int,
    index: int,
    count: int,
    fields: Fields,
)
    requires
        0 <= at,
    ensures
        after_fields(before + rest, before.len() + at, index, count, fields) == shifted(
            after_fields(rest, at, index, count, fields),
            before.len() as int,
        ),
    decreases count - index,
{
    if index < count && index < field_count(fields) {
        let expected = field(fields, index);
        lemma_simple_shift(before, rest, at, expected);
        lemma_forward(rest, at, expected);
        if let Walk::At(next) = after_optional(rest, at, expected) {
            lemma_fields_shift(before, rest, next, index + 1, count, fields);
        }
    }
}

#[verifier::spinoff_prover]
proof fn lemma_described_shift(
    before: Seq<u8>,
    rest: Seq<u8>,
    at: int,
    descriptor: Option<int>,
    depth: nat,
)
    requires
        0 <= at,
    ensures
        after_described(before + rest, before.len() + at, descriptor, depth) == shifted(
            after_described(rest, at, descriptor, depth),
            before.len() as int,
        ),
{
    lemma_simple_shift(before, rest, at, Expected::Binary);
    lemma_value_shift(before, rest, at, depth);
    if without_code(rest, at) is None {
        lemma_numbers_shift(before, rest, at);
        lemma_head_shift(before, rest, at);
        if let Walk::At(first) = after_head(rest, at) {
            let count = items_at(rest, at);
            lemma_values_shift(before, rest, first, count, depth);
            lemma_entries_shift(before, rest, first, count, depth, Entries::Annotations);
            lemma_entries_shift(before, rest, first, count, depth, Entries::Properties);
            lemma_fields_shift(before, rest, first, 0, count, Fields::Header);
            lemma_fields_shift(before, rest, first, 0, count, Fields::Properties);
        }
    }
}

#[verifier::spinoff_prover]
proof fn lemma_section_shift(before: Seq<u8>, rest: Seq<u8>, at: int, depth: nat)
    requires
        0 <= at,
    ensures
        after_section(before + rest, before.len() + at, depth) == shifted(
            after_section(rest, at, depth),
            before.len() as int,
        ),
        after_descriptor(rest, at) is At ==> descriptor_at(before + rest, before.len() + at)
            == descriptor_at(rest, at),
{
    let by = before.len() as int;
    lemma_descriptor_shift(before, rest, at);
    lemma_forward(rest, at, Expected::Simple);
    if let Walk::At(next) = after_descriptor(rest, at) {
        lemma_numbers_shift(before, rest, at + 1);
        lemma_numbers_shift(before, rest, at + 2);
        assert(descriptor_at(before + rest, by + at) == descriptor_at(rest, at));
        lemma_described_shift(before, rest, next, descriptor_at(rest, at), depth);
    }
}

/// Whether a walk that reaches its end does so within the bytes, and also where more bytes follow.
spec fn holds(bytes: Seq<u8>, from: int, walk: Walk, longer: Walk) -> bool {
    match walk {
        Walk::At(next) => longer == walk && from <= next <= bytes.len(),
        _ => true,
    }
}

proof fn lemma_numbers_hold(bytes: Seq<u8>, more: Seq<u8>, at: int)
    requires
        0 <= at,
    ensures
        at < bytes.len() ==> (bytes + more)[at] == bytes[at],
        at + 4 <= bytes.len() ==> be32_at(bytes + more, at) == be32_at(bytes, at),
        at + 8 <= bytes.len() ==> be64_at(bytes + more, at) == be64_at(bytes, at),
{
}

proof fn lemma_content_holds(bytes: Seq<u8>, more: Seq<u8>, at: int, code: u8)
    requires
        0 <= at,
    ensures
        holds(
            bytes,
            at,
            after_content(bytes, at, code),
            after_content(bytes + more, at, code),
        ),
{
    lemma_numbers_hold(bytes, more, at);
    if code >= 0xa0 {
        let start = at + length_size(code);
        if start <= bytes.len() {
            let end = start + length_at(bytes, at, code);
            if end <= bytes.len() {
                assert((bytes + more).subrange(start, end) =~= bytes.subrange(start, end));
            }
        }
    }
}

proof fn lemma_simple_holds(bytes: Seq<u8>, more: Seq<u8>, at: int, expected: Expected)
    requires
        0 <= at,
    ensures
        without_code(bytes, at) is None ==> without_code(bytes + more, at) is None,
        holds(
            bytes,
            at + 1,
            after_simple(bytes, at, expected),
            after_simple(bytes + more, at, expected),
        ),
        holds(
            bytes,
            at + 1,
            after_optional(bytes, at, expected),
            after_optional(bytes + more, at, expected),
        ),
{
    lemma_numbers_hold(bytes, more, at);
    if at < bytes.len() {
        lemma_content_holds(bytes, more, at + 1, bytes[at]);
    }
}

proof fn lemma_descriptor_holds(bytes: Seq<u8>, more: Seq<u8>, at: int)
    requires
        0 <= at,
    ensures
        holds(bytes, at + 2, after_descriptor(bytes, at), after_descriptor(bytes + more, at)),
{
    lemma_numbers_hold(bytes, more, at);
    lemma_simple_holds(bytes, more, at + 1, Expected::Descriptor);
}

proof fn lemma_head_holds(bytes: Seq<u8>, more: Seq<u8>, at: int)
    requires
        0 <= at < bytes.len(),
    ensures
        holds(bytes, at + 1, after_head(bytes, at), after_head(bytes + more, at)),
        after_head(bytes, at) is At ==> items_at(bytes + more, at) == items_at(bytes, at),
{
    lemma_numbers_hold(bytes, more, at);
    lemma_numbers_hold(bytes, more, at + 2);
    lemma_numbers_hold(bytes, more, at + 5);
}

#[verifier::spinoff_prover]
proof fn lemma_value_holds(bytes: Seq<u8>, more: Seq<u8>, at: int, depth: nat)
    requires
        0 <= at,
    ensures
        holds(
            bytes,
            at + 1,
            after_value(bytes, at, depth).0,
            after_value(bytes + more, at, depth).0,
        ),
        after_value(bytes, at, depth).0 is At ==> after_value(bytes + more, at, depth)
            == after_value(bytes, at, depth),
    decreases depth, 0int,
{
    lemma_simple_holds(bytes, more, at, Expected::Simple);
    if without_code(bytes, at) is None {
        let code = bytes[at];
        lemma_numbers_hold(bytes, more, at);
        lemma_content_holds(bytes, more, at + 1, code);
        if !is_simple(code) && !is_array(code) && depth > 0 {
            let less = (depth - 1) as nat;
            if code == 0x00 {
                lemma_descriptor_holds(bytes, more, at + 1);
                if let Walk::At(next) = after_descriptor(bytes, at + 1) {
                    lemma_value_holds(bytes, more, next, less);
                }
            } else {
                lemma_head_holds(bytes, more, at);
                if let Walk::At(next) = after_head(bytes, at) {
                    let count = items_at(bytes, at);
                    if is_list(code) {
                        lemma_values_hold(bytes, more, next, count, less);
                    } else {
                        lemma_entries_hold(bytes, more, next, count, less, Entries::Values);
                    }
                }
            }
        }
    }
}

#[verifier::spinoff_prover]
proof fn lemma_values_hold(bytes: Seq<u8>, more: Seq<u8>, at: int, count: int, depth: nat)
    requires
        0 <= at <= bytes.len(),
    ensures
        holds(
            bytes,
            at,
            after_values(bytes, at, count, depth).0,
            after_values(bytes + more, at, count, depth).0,
        ),
        after_values(bytes, at, count, depth).0 is At ==> after_values(
            bytes + more,
            at,
            count,
            depth,
        ) == after_values(bytes, at, count, depth),
    decreases depth, count,
{
    if count > 0 {
        lemma_value_holds(bytes, more, at, depth);
        if let Walk::At(next) = after_value(bytes, at, depth).0 {
            lemma_values_hold(bytes, more, next, count - 1, depth);
        }
    }
}

#[verifier::spinoff_prover]
proof fn lemma_entries_hold(
    bytes: Seq<u8>,
    more: Seq<u8>,
    at: int,
    count: int,
    depth: nat,
    entries: Entries,
)
    requires
        0 <= at <= bytes.len(),
    ensures
        holds(
            bytes,
            at,
            after_entries(bytes, at, count, depth, entries),
            after_entries(bytes + more, at, count, depth, entries),
        ),
    decreases depth, count,
{
    if count > 1 {
        let key = match entries {
            Entries::Values => after_value(bytes, at, depth).0,
            Entries::Annotations => after_simple(bytes, at, Expected::AnnotationKey),
            Entries::Properties => after_simple(bytes, at, Expected::Text),
        };
        lemma_value_holds(bytes, more, at, depth);
        lemma_simple_holds(bytes, more, at, Expected::AnnotationKey);
        lemma_simple_holds(bytes, more, at, Expected::Text);
        if let Walk::At(middle) = key {
            let value = match entries {
                Entries::Properties => after_simple(bytes, middle, Expected::Simple),
                _ => after_value(bytes, middle, depth).0,
            };
            lemma_value_holds(bytes, more, middle, depth);
            lemma_simple_holds(bytes, more, middle, Expected::Simple);
            if let Walk::At(next) = value {
                lemma_entries_hold(bytes, more, next, count - 2, depth, entries);
            }
        }
    }
}

#[verifier::spinoff_prover]
proof fn lemma_fields_hold(
    bytes: Seq<u8>,
    more: Seq<u8>,
    at: int,
    index: int,
    count: int,
    fields: Fields,
)
    requires
        0 <= at <= bytes.len(),
    ensures
        holds(
            bytes,
            at,
            after_fields(bytes, at, index, count, fields),
            after_fields(bytes + more, at, index, count, fields),
        ),
    decreases count - index,
{
    if index < count && index < field_count(fields) {
        let expected = field(fields, index);
        lemma_simple_holds(bytes, more, at, expected);
        if let Walk::At(next) = after_optional(bytes, at, expected) {
            lemma_fields_hold(bytes, more, next, index + 1, count, fields);
        }
    }
}

#[verifier::spinoff_prover]
proof fn lemma_section_holds(bytes: Seq<u8>, more: Seq<u8>, at: int, depth: nat)
    requires
        0 <= at,
    ensures
        holds(
            bytes,
            at + 2,
            after_section(bytes, at, depth),
            after_section(bytes + more, at, depth),
        ),
        after_descriptor(bytes, at) is At ==> after_descriptor(bytes + more, at)
            == after_descriptor(bytes, at) && descriptor_at(bytes + more, at) == descriptor_at(
            bytes,
            at,
        ),
{
    lemma_descriptor_holds(bytes, more, at);
    if let Walk::At(next) = after_descriptor(bytes, at) {
        lemma_numbers_hold(bytes, more, at + 1);
        lemma_numbers_hold(bytes, more, at + 2);
        assert(descriptor_at(bytes + more, at) == descriptor_at(bytes, at));
        lemma_simple_holds(bytes, more, next, Expected::Binary);
        lemma_value_holds(bytes, more, next, depth);
        if without_code(bytes, next) is None {
            lemma_numbers_hold(bytes, more, next);
            lemma_head_holds(bytes, more, next);
            if let Walk::At(first) = after_head(bytes, next) {
                let count = items_at(bytes, next);
                lemma_values_hold(bytes, more, first, count, depth);
                lemma_entries_hold(bytes, more, first, count, depth, Entries::Annotations);
                lemma_entries_hold(bytes, more, first, count, depth, Entries::Properties);
                lemma_fields_hold(bytes, more, first, 0, count, Fields::Header);
                lemma_fields_hold(bytes, more, first, 0, count, Fields::Properties);
            }
        }
    }
}

#[verifier::spinoff_prover]
proof fn lemma_sections_shift(before: Seq<u8>, rest: Seq<u8>, at: int, depth: nat)
    requires
        0 <= at <= rest.len(),
    ensures
        after_sections(before + rest, before.len() + at, depth) == shifted(
            after_sections(rest, at, depth),
            before.len() as int,
        ),
    decreases rest.len() - at,
{
    if at < rest.len() {
        lemma_section_shift(before, rest, at, depth);
        if let Walk::At(next) = after_section(rest, at, depth) {
            if at < next <= rest.len() {
                lemma_sections_shift(before, rest, next, depth);
            }
        }
    }
}

#[verifier::spinoff_prover]
proof fn lemma_sections_join(first: Seq<u8>, second: Seq<u8>, at: int, depth: nat)
    requires
        0 <= at <= first.len(),
        after_sections(first, at, depth) is At,
    ensures
        after_sections(first, at, depth) == Walk::At(first.len() as int),
        after_sections(first + second, at, depth) == shifted(
            after_sections(second, 0, depth),
            first.len() as int,
        ),
    decreases first.len() - at,
{
    if at < first.len() {
        lemma_section_holds(first, second, at, depth);
        let next = after_section(first, at, depth)->At_0;
        lemma_sections_join(first, second, next, depth);
    } else {
        lemma_sections_shift(first, second, 0, depth);
    }
}

#[verifier::spinoff_prover]
proof fn lemma_data_shift(before: Seq<u8>, rest: Seq<u8>, at: int)
    requires
        0 <= at <= rest.len(),
        after_sections(rest, at, rest.len()) is At,
    ensures
        data_from(before + rest, before.len() + at) == data_from(rest, at),
    decreases rest.len() - at,
{
    let bytes = before + rest;
    let by = before.len() as int;
    if at < rest.len() {
        lemma_section_shift(before, rest, at, rest.len());
        lemma_section_shift(before, rest, at, bytes.len());
        lemma_section_depth(rest, at, rest.len(), bytes.len());
        let next = after_section(rest, at, rest.len())->At_0;
        assert(after_descriptor(rest, at) is At);
        let value_at = after_descriptor(rest, at)->At_0;
        lemma_descriptor_shift(before, rest, at);
        lemma_forward(rest, at, Expected::Binary);
        if descriptor_at(rest, at) == Some(DATA as int) {
            lemma_binary_stands(before, rest, value_at);
        } else {
            lemma_data_shift(before, rest, next);
        }
    }
}

proof fn lemma_binary_stands(before: Seq<u8>, rest: Seq<u8>, at: int)
    requires
        0 <= at,
        after_simple(rest, at, Expected::Binary) is At,
    ensures
        binary_at(before + rest, before.len() + at) == binary_at(
            rest,
            at,
        ),
{
    let by = before.len() as int;
    lemma_numbers_shift(before, rest, at);
    lemma_numbers_shift(before, rest, at + 1);
    let start = at + 1 + length_size(rest[at]);
    let end = start + length_at(rest, at + 1, rest[at]);
    assert((before + rest).subrange(by + start, by + end) =~= rest.subrange(start, end));
}

proof fn lemma_binary_holds(bytes: Seq<u8>, more: Seq<u8>, at: int)
    requires
        0 <= at,
        after_simple(bytes, at, Expected::Binary) is At,
    ensures
        binary_at(bytes + more, at) == binary_at(bytes, at),
{
    lemma_numbers_hold(bytes, more, at);
    lemma_numbers_hold(bytes, more, at + 1);
    let start = at + 1 + length_size(bytes[at]);
    let end = start + length_at(bytes, at + 1, bytes[at]);
    assert((bytes + more).subrange(start, end) =~= bytes.subrange(start, end));
}

#[verifier::spinoff_prover]
proof fn lemma_data_join(first: Seq<u8>, second: Seq<u8>, at: int)
    requires
        0 <= at <= first.len(),
        after_sections(first, at, first.len()) is At,
        after_sections(second, 0, second.len()) is At,
    ensures
        data_from(first + second, at) == (match data_from(first, at) {
            Some(data) => Some(data),
            None => data_from(second, 0),
        }),
    decreases first.len() - at,
{
    let bytes = first + second;
    if at < first.len() {
        lemma_section_depth(first, at, first.len(), bytes.len());
        lemma_section_holds(first, second, at, bytes.len());
        let next = after_section(first, at, first.len())->At_0;
        assert(after_descriptor(first, at) is At);
        let value_at = after_descriptor(first, at)->At_0;
        lemma_forward(first, at, Expected::Binary);
        if descriptor_at(first, at) == Some(DATA as int) {
            lemma_binary_holds(first, second, value_at);
        } else {
            lemma_data_join(first, second, next);
        }
    } else {
        lemma_data_shift(first, second, 0);
    }
}

/// The sections of two messages, one after the other, are the sections of a message. Its data is that
/// of the first one, or else that of the second; how far it can be followed is up to the second.
pub proof fn law_sections_can_be_joined(first: Seq<u8>, second: Seq<u8>)
    requires
        message_walk(first) is At,
    ensures
        message_walk(first) == Walk::At(first.len() as int),
        message_walk(first + second) == (match message_walk(second) {
            Walk::At(_) => Walk::At((first + second).len() as int),
            walk => walk,
        }),
        message_walk(second) is At ==> message_data(first + second) == (match message_data(first) {
            Some(data) => Some(data),
            None => message_data(second),
        }),
{
    let bytes = first + second;
    law_nesting_has_no_limit(first, bytes.len());
    law_nesting_has_no_limit(second, bytes.len());
    law_nesting_has_no_limit(bytes, bytes.len());
    lemma_sections_join(first, second, 0, bytes.len());
    if message_walk(second) is At {
        lemma_sections_join(second, Seq::empty(), 0, bytes.len());
        law_nesting_has_no_limit(first, first.len());
        law_nesting_has_no_limit(second, second.len());
        lemma_data_join(first, second, 0);
        reveal(message_data);
    }
}

/// The data of a message is found wherever it stands: after sections that hold none, and whatever
/// sections come after it.
pub proof fn law_data_is_found_among_sections(before: Seq<u8>, data: Seq<u8>, after: Seq<u8>)
    requires
        data.len() <= u32::MAX,
        message_walk(before) is At,
        message_data(before) is None,
        message_walk(after) is At,
    ensures
        message_walk(before + message_bytes(data) + after) is At,
        message_data(before + message_bytes(data) + after) == Some(data),
{
    law_data_is_read_back(data);
    law_sections_can_be_joined(before, message_bytes(data));
    law_sections_can_be_joined(before + message_bytes(data), after);
}

/// Whether the bytes are those of one value, with others nested in it up to the given depth.
pub open spec fn is_value(bytes: Seq<u8>, depth: nat) -> bool {
    after_value(bytes, 0, depth).0 == Walk::At(bytes.len() as int)
}

/// Whether a value is a map or holds one.
pub open spec fn has_map(bytes: Seq<u8>, depth: nat) -> bool {
    after_value(bytes, 0, depth).1
}

/// How many bytes a value of fixed size has after its code.
pub open spec fn is_fixed(code: u8, size: nat) -> bool {
    ||| size == 0 && (code == 0x40 || code == 0x41 || code == 0x42 || code == 0x43 || code == 0x44)
    ||| size == 1 && (code == 0x50 || code == 0x51 || code == 0x52 || code == 0x53 || code == 0x54
        || code == 0x55 || code == 0x56)
    ||| size == 2 && (code == 0x60 || code == 0x61)
    ||| size == 4 && (code == 0x70 || code == 0x71 || code == 0x72)
    ||| size == 8 && (code == 0x80 || code == 0x81 || code == 0x82)
    ||| size == 16 && code == 0x98
}

/// Values of fixed size are followed: those without content, and numbers of one, two, four, eight and
/// sixteen bytes, whatever the bytes are.
pub proof fn law_fixed_values_are_followed(code: u8, content: Seq<u8>, depth: nat)
    requires
        is_fixed(code, content.len()),
    ensures
        is_value(seq![code] + content, depth),
        !has_map(seq![code] + content, depth),
        after_simple(seq![code] + content, 0, Expected::Simple) == Walk::At(
            1 + content.len() as int,
        ),
{
    let bytes = seq![code] + content;
    assert(bytes[0] == code);
}

/// Every character is followed, and a number that is none is refused; so is every point in time, up
/// to the largest and down to the smallest that there is.
pub proof fn law_characters_and_times_are_followed(c: char, moment: i64, depth: nat)
    ensures
        is_value(seq![0x73u8] + be32(c as int), depth),
        -8_334_601_228_800_000 <= moment <= 8_210_266_876_799_999 ==> is_value(
            seq![0x83u8] + signed64(moment),
            depth,
        ),
        !(-8_334_601_228_800_000 <= moment <= 8_210_266_876_799_999) ==> after_value(
            seq![0x83u8] + signed64(moment),
            0,
            depth,
        ).0 is Bad,
{
    lemma_sizes();
    let number = c as u32;
    let letter = seq![0x73u8] + be32(c as int);
    assert(letter =~= seq![0x73u8] + be32(number as int) + Seq::<u8>::empty());
    law_numbers_are_read_back(seq![0x73u8], number as u64, Seq::empty());
    assert(letter[0] == 0x73);
    let n: int = if moment < 0 {
        moment + 0x1_0000_0000_0000_0000
    } else {
        moment as int
    };
    let time = seq![0x83u8] + signed64(moment);
    assert(time =~= seq![0x83u8] + be64(n) + Seq::<u8>::empty());
    law_numbers_are_read_back(seq![0x83u8], n as u64, Seq::empty());
    assert(time[0] == 0x83);
    assert(be64_at(time, 1) == n);
}

/// Binary data, texts and symbols are followed, whatever they hold, after their length in one byte or
/// in four; only texts and symbols have to be valid UTF-8.
pub proof fn law_variable_values_are_followed(kind: u8, content: Seq<u8>, depth: nat)
    requires
        kind == 0 || kind == 1 || kind == 3,
        kind != 0 ==> valid_utf8(content),
    ensures
        content.len() <= 255 ==> is_value(
            seq![(0xa0 + kind) as u8, content.len() as u8] + content,
            depth,
        ),
        content.len() <= u32::MAX ==> is_value(
            seq![(0xb0 + kind) as u8] + be32(content.len() as int) + content,
            depth,
        ),
{
    let short = seq![(0xa0 + kind) as u8, content.len() as u8] + content;
    let long = seq![(0xb0 + kind) as u8] + be32(content.len() as int) + content;
    lemma_sizes();
    if content.len() <= 255 {
        assert(short[0] == 0xa0 + kind);
        assert(short[1] == content.len());
        assert(short.subrange(2, short.len() as int) =~= content);
    }
    if content.len() <= u32::MAX {
        assert(long[0] == 0xb0 + kind);
        law_numbers_are_read_back(
            seq![(0xb0 + kind) as u8],
            content.len() as u64,
            content,
        );
        assert(long.subrange(5, long.len() as int) =~= content);
    }
}

/// The values of a list, one after the other.
pub open spec fn joined_values(values: Seq<Seq<u8>>) -> Seq<u8>
    decreases values.len(),
{
    if values.len() == 0 {
        Seq::empty()
    } else {
        values[0] + joined_values(values.skip(1))
    }
}

proof fn lemma_value_within(before: Seq<u8>, value: Seq<u8>, after: Seq<u8>, depth: nat)
    requires
        is_value(value, depth),
    ensures
        after_value(before + value + after, before.len() as int, depth) == (
            Walk::At((before + value).len() as int),
            has_map(value, depth),
        ),
{
    lemma_value_holds(value, after, 0, depth);
    lemma_value_shift(before, value + after, 0, depth);
    assert(before + value + after =~= before + (value + after));
}

#[verifier::spinoff_prover]
proof fn lemma_values_within(before: Seq<u8>, values: Seq<Seq<u8>>, depth: nat)
    requires
        forall|i: int| 0 <= i < values.len() ==> is_value(#[trigger] values[i], depth),
    ensures
        after_values(
            before + joined_values(values),
            before.len() as int,
            values.len() as int,
            depth,
        ).0 == Walk::At((before + joined_values(values)).len() as int),
        after_values(
            before + joined_values(values),
            before.len() as int,
            values.len() as int,
            depth,
        ).1 <==> exists|i: int| 0 <= i < values.len() && has_map(#[trigger] values[i], depth),
    decreases values.len(),
{
    let bytes = before + joined_values(values);
    if values.len() == 0 {
        assert(bytes =~= before);
    } else {
        let first = values[0];
        let rest = values.skip(1);
        assert(bytes =~= before + first + joined_values(rest));
        lemma_value_within(before, first, joined_values(rest), depth);
        assert forall|i: int| 0 <= i < rest.len() implies is_value(#[trigger] rest[i], depth) by {
            assert(rest[i] == values[i + 1]);
        }
        lemma_values_within(before + first, rest, depth);
        if exists|i: int| 0 <= i < values.len() && has_map(#[trigger] values[i], depth) {
            let i = choose|i: int| 0 <= i < values.len() && has_map(#[trigger] values[i], depth);
            if i > 0 {
                assert(rest[i - 1] == values[i]);
            }
        }
        if exists|i: int| 0 <= i < rest.len() && has_map(#[trigger] rest[i], depth) {
            let i = choose|i: int| 0 <= i < rest.len() && has_map(#[trigger] rest[i], depth);
            assert(values[i + 1] == rest[i]);
        }
    }
}

/// A list of values is a value, nested one level more deeply than they are, however many they are and
/// whatever size its head tells; it holds a map if one of them does.
#[verifier::spinoff_prover]
pub proof fn law_lists_are_followed(values: Seq<Seq<u8>>, size: u32, depth: nat)
    requires
        forall|i: int| 0 <= i < values.len() ==> is_value(#[trigger] values[i], depth),
    ensures
        is_value(seq![0x45u8], depth + 1),
        values.len() <= 255 ==> is_value(
            seq![0xc0u8, size as u8, values.len() as u8] + joined_values(values),
            depth + 1,
        ),
        values.len() <= u32::MAX ==> is_value(
            seq![0xd0u8] + be32(size as int) + be32(values.len() as int) + joined_values(values),
            depth + 1,
        ),
        values.len() <= u32::MAX ==> (has_map(
            seq![0xd0u8] + be32(size as int) + be32(values.len() as int) + joined_values(values),
            depth + 1,
        ) <==> exists|i: int| 0 <= i < values.len() && has_map(#[trigger] values[i], depth)),
{
    lemma_sizes();
    assert(is_value(seq![0x45u8], depth + 1)) by {
        assert(after_values(seq![0x45u8], 1, 0, depth).0 == Walk::At(1));
    }
    if values.len() <= 255 {
        let head = seq![0xc0u8, size as u8, values.len() as u8];
        let bytes = head + joined_values(values);
        lemma_values_within(head, values, depth);
        assert(bytes[0] == 0xc0 && bytes[2] == values.len());
        assert(after_head(bytes, 0) == Walk::At(3));
    }
    if values.len() <= u32::MAX {
        let head = seq![0xd0u8] + be32(size as int) + be32(values.len() as int);
        let bytes = head + joined_values(values);
        lemma_values_within(head, values, depth);
        law_numbers_are_read_back(
            seq![0xd0u8] + be32(size as int),
            values.len() as u64,
            joined_values(values),
        );
        assert(bytes[0] == 0xd0);
        assert(items_at(bytes, 0) == values.len());
        assert(after_head(bytes, 0) == Walk::At(9));
    }
}

/// The keys and values of a map, one after the other.
pub open spec fn joined_entries(entries: Seq<(Seq<u8>, Seq<u8>)>) -> Seq<u8>
    decreases entries.len(),
{
    if entries.len() == 0 {
        Seq::empty()
    } else {
        entries[0].0 + entries[0].1 + joined_entries(entries.skip(1))
    }
}

/// Whether the bytes are a key and a value of a map of the given kind.
pub open spec fn is_entry(entry: (Seq<u8>, Seq<u8>), depth: nat, entries: Entries) -> bool {
    &&& match entries {
        Entries::Values => is_value(entry.0, depth) && !has_map(entry.0, depth),
        Entries::Annotations => after_simple(entry.0, 0, Expected::AnnotationKey) == Walk::At(
            entry.0.len() as int,
        ),
        Entries::Properties => after_simple(entry.0, 0, Expected::Text) == Walk::At(
            entry.0.len() as int,
        ),
    }
    &&& match entries {
        Entries::Properties => after_simple(entry.1, 0, Expected::Simple) == Walk::At(
            entry.1.len() as int,
        ),
        _ => is_value(entry.1, depth),
    }
}

proof fn lemma_simple_within(before: Seq<u8>, value: Seq<u8>, after: Seq<u8>, expected: Expected)
    requires
        after_simple(value, 0, expected) == Walk::At(value.len() as int),
    ensures
        after_simple(before + value + after, before.len() as int, expected) == Walk::At(
            (before + value).len() as int,
        ),
{
    lemma_simple_holds(value, after, 0, expected);
    lemma_simple_shift(before, value + after, 0, expected);
    assert(before + value + after =~= before + (value + after));
}

#[verifier::spinoff_prover]
proof fn lemma_entries_within(
    before: Seq<u8>,
    list: Seq<(Seq<u8>, Seq<u8>)>,
    depth: nat,
    entries: Entries,
)
    requires
        forall|i: int| 0 <= i < list.len() ==> is_entry(#[trigger] list[i], depth, entries),
    ensures
        after_entries(
            before + joined_entries(list),
            before.len() as int,
            2 * list.len() as int,
            depth,
            entries,
        ) == Walk::At((before + joined_entries(list)).len() as int),
    decreases list.len(),
{
    let bytes = before + joined_entries(list);
    if list.len() == 0 {
        assert(bytes =~= before);
    } else {
        let (key, value) = list[0];
        let rest = list.skip(1);
        let others = joined_entries(rest);
        assert(is_entry(list[0], depth, entries));
        assert(bytes =~= before + key + (value + others));
        assert(bytes =~= before + key + value + others);
        match entries {
            Entries::Values => {
                lemma_value_within(before, key, value + others, depth);
                lemma_value_within(before + key, value, others, depth);
            },
            Entries::Annotations => {
                lemma_simple_within(before, key, value + others, Expected::AnnotationKey);
                lemma_value_within(before + key, value, others, depth);
            },
            Entries::Properties => {
                lemma_simple_within(before, key, value + others, Expected::Text);
                lemma_simple_within(before + key, value, others, Expected::Simple);
            },
        }
        assert forall|i: int| 0 <= i < rest.len() implies is_entry(
            #[trigger] rest[i],
            depth,
            entries,
        ) by {
            assert(rest[i] == list[i + 1]);
        }
        lemma_entries_within(before + key + value, rest, depth, entries);
    }
}

/// A map of values is a value, nested one level more deeply than they are, however many entries it has
/// and whatever size its head tells.
#[verifier::spinoff_prover]
pub proof fn law_maps_are_followed(list: Seq<(Seq<u8>, Seq<u8>)>, size: u32, depth: nat)
    requires
        forall|i: int| 0 <= i < list.len() ==> is_entry(#[trigger] list[i], depth, Entries::Values),
    ensures
        2 * list.len() <= 255 ==> is_value(
            seq![0xc1u8, size as u8, (2 * list.len()) as u8] + joined_entries(list),
            depth + 1,
        ),
        2 * list.len() <= u32::MAX ==> is_value(
            seq![0xd1u8] + be32(size as int) + be32(2 * list.len() as int) + joined_entries(list),
            depth + 1,
        ),
        2 * list.len() <= u32::MAX ==> has_map(
            seq![0xd1u8] + be32(size as int) + be32(2 * list.len() as int) + joined_entries(list),
            depth + 1,
        ),
{
    lemma_sizes();
    let count: int = 2 * list.len() as int;
    if count <= 255 {
        let head = seq![0xc1u8, size as u8, (2 * list.len()) as u8];
        let bytes = head + joined_entries(list);
        lemma_entries_within(head, list, depth, Entries::Values);
        assert(bytes[0] == 0xc1 && bytes[2] == count);
        assert(after_head(bytes, 0) == Walk::At(3));
    }
    if count <= u32::MAX {
        let head = seq![0xd1u8] + be32(size as int) + be32(count);
        let bytes = head + joined_entries(list);
        lemma_entries_within(head, list, depth, Entries::Values);
        law_numbers_are_read_back(
            seq![0xd1u8] + be32(size as int),
            count as u64,
            joined_entries(list),
        );
        assert(bytes[0] == 0xd1);
        assert(items_at(bytes, 0) == count);
        assert(after_head(bytes, 0) == Walk::At(9));
    }
}

/// A section: its descriptor, which is a number, and its value.
pub open spec fn section(descriptor: u8, value: Seq<u8>) -> Seq<u8> {
    seq![0x00u8, 0x53, descriptor] + value
}

proof fn lemma_section_head(descriptor: u8, value: Seq<u8>)
    requires
        value.len() > 0,
    ensures
        ({
            let bytes = section(descriptor, value);
            let depth = bytes.len();
            &&& after_descriptor(bytes, 0) == Walk::At(3)
            &&& descriptor_at(bytes, 0) == Some(descriptor as int)
            &&& bytes[3] == value[0]
            &&& after_section(bytes, 0, depth) == after_described(
                bytes,
                3,
                Some(descriptor as int),
                depth,
            )
            &&& after_section(bytes, 0, depth) == Walk::At(bytes.len() as int) ==> {
                &&& message_walk(bytes) == Walk::At(bytes.len() as int)
                &&& descriptor != 117 ==> message_data(bytes) is None
            }
        }),
{
    reveal(message_walk);
    reveal(message_data);
    let bytes = section(descriptor, value);
    let depth = bytes.len();
    assert(bytes[0] == 0x00 && bytes[1] == 0x53 && bytes[2] == descriptor);
    assert(after_descriptor(bytes, 0) == Walk::At(3));
    assert(after_sections(bytes, depth as int, depth) == Walk::At(depth as int));
    assert(data_from(bytes, depth as int) is None);
}

/// A body that is one value can be followed, whatever the value is, and holds no data; so can a body
/// that is a list of values.
pub proof fn law_value_sections_are_followed(
    value: Seq<u8>,
    values: Seq<Seq<u8>>,
    size: u32,
    depth: nat,
)
    requires
        is_value(value, depth),
        depth <= value.len(),
        values.len() <= u32::MAX,
        forall|i: int|
            0 <= i < values.len() ==> is_value(#[trigger] values[i], values[i].len()),
    ensures
        message_walk(section(119, value)) == Walk::At(section(119, value).len() as int),
        message_data(section(119, value)) is None,
        ({
            let list = seq![0xd0u8] + be32(size as int) + be32(values.len() as int) + joined_values(
                values,
            );
            &&& message_walk(section(118, list)) == Walk::At(section(118, list).len() as int)
            &&& message_data(section(118, list)) is None
        }),
{
    let head = seq![0x00u8, 0x53, 119u8];
    let bytes = section(119, value);
    assert(value.len() > 0);
    lemma_section_head(119, value);
    lemma_deeper_value(value, depth, bytes.len());
    lemma_value_within(head, value, Seq::empty(), bytes.len());
    assert(head + value + Seq::<u8>::empty() =~= bytes);
    let start = seq![0xd0u8] + be32(size as int) + be32(values.len() as int);
    let list = start + joined_values(values);
    let whole = section(118, list);
    lemma_sizes();
    lemma_section_head(118, list);
    assert forall|i: int| 0 <= i < values.len() implies is_value(
        #[trigger] values[i],
        whole.len(),
    ) by {
        lemma_joined_size(values, i);
        lemma_deeper_value(values[i], values[i].len(), whole.len());
    }
    let front = seq![0x00u8, 0x53, 118u8] + start;
    lemma_values_within(front, values, whole.len());
    assert(front + joined_values(values) =~= whole);
    law_numbers_are_read_back(
        seq![0x00u8, 0x53, 118u8] + seq![0xd0u8] + be32(size as int),
        values.len() as u64,
        joined_values(values),
    );
    assert(whole =~= seq![0x00u8, 0x53, 118u8] + seq![0xd0u8] + be32(size as int) + be32(
        values.len() as int,
    ) + joined_values(values));
    assert(whole[3] == 0xd0);
    assert(items_at(whole, 3) == values.len());
    assert(after_head(whole, 3) == Walk::At(12));
}

proof fn lemma_joined_size(values: Seq<Seq<u8>>, i: int)
    requires
        0 <= i < values.len(),
    ensures
        values[i].len() <= joined_values(values).len(),
    decreases values.len(),
{
    if i > 0 {
        assert(values.skip(1)[i - 1] == values[i]);
        lemma_joined_size(values.skip(1), i - 1);
    }
}

/// A value that can be followed at some depth is no different where more is allowed.
#[verifier::spinoff_prover]
proof fn lemma_deeper_value(value: Seq<u8>, depth: nat, deeper: nat)
    requires
        is_value(value, depth),
        depth <= deeper,
    ensures
        is_value(value, deeper),
{
    lemma_deeper(value, 0, depth, deeper);
}

#[verifier::spinoff_prover]
proof fn lemma_deeper(bytes: Seq<u8>, at: int, depth: nat, deeper: nat)
    requires
        depth <= deeper,
        after_value(bytes, at, depth).0 is At,
    ensures
        after_value(bytes, at, deeper) == after_value(bytes, at, depth),
    decreases depth, 0int,
{
    let code = bytes[at];
    if !is_simple(code) && depth > 0 {
        let less = (depth - 1) as nat;
        let more = (deeper - 1) as nat;
        if code == 0x00 {
            if let Walk::At(next) = after_descriptor(bytes, at + 1) {
                lemma_deeper(bytes, next, less, more);
            }
        } else if let Walk::At(next) = after_head(bytes, at) {
            let count = items_at(bytes, at);
            if is_list(code) {
                lemma_deeper_values(bytes, next, count, less, more);
            } else {
                lemma_deeper_entries(bytes, next, count, less, more, Entries::Values);
            }
        }
    }
}

#[verifier::spinoff_prover]
proof fn lemma_deeper_values(bytes: Seq<u8>, at: int, count: int, depth: nat, deeper: nat)
    requires
        depth <= deeper,
        after_values(bytes, at, count, depth).0 is At,
    ensures
        after_values(bytes, at, count, deeper) == after_values(bytes, at, count, depth),
    decreases depth, count,
{
    if count > 0 {
        lemma_deeper(bytes, at, depth, deeper);
        let next = after_value(bytes, at, depth).0->At_0;
        lemma_deeper_values(bytes, next, count - 1, depth, deeper);
    }
}

#[verifier::spinoff_prover]
proof fn lemma_deeper_entries(
    bytes: Seq<u8>,
    at: int,
    count: int,
    depth: nat,
    deeper: nat,
    entries: Entries,
)
    requires
        depth <= deeper,
        after_entries(bytes, at, count, depth, entries) is At,
    ensures
        after_entries(bytes, at, count, deeper, entries) == after_entries(
            bytes,
            at,
            count,
            depth,
            entries,
        ),
    decreases depth, count,
{
    if count > 1 {
        if entries is Values {
            lemma_deeper(bytes, at, depth, deeper);
        }
        let key = match entries {
            Entries::Values => after_value(bytes, at, depth).0,
            Entries::Annotations => after_simple(bytes, at, Expected::AnnotationKey),
            Entries::Properties => after_simple(bytes, at, Expected::Text),
        };
        let middle = key->At_0;
        if !(entries is Properties) {
            lemma_deeper(bytes, middle, depth, deeper);
        }
        let value = match entries {
            Entries::Properties => after_simple(bytes, middle, Expected::Simple),
            _ => after_value(bytes, middle, depth).0,
        };
        lemma_deeper_entries(bytes, value->At_0, count - 2, depth, deeper, entries);
    }
}

/// Where values may be nested more deeply, a value that could be followed still can.
pub proof fn law_deeper_nesting_is_allowed(value: Seq<u8>, depth: nat, deeper: nat)
    requires
        is_value(value, depth),
        depth <= deeper,
    ensures
        is_value(value, deeper),
        has_map(value, deeper) == has_map(value, depth),
{
    lemma_deeper(value, 0, depth, deeper);
}

/// The properties of the application can be followed, and annotations too, however many there are and
/// whatever values they hold; they hold no data.
#[verifier::spinoff_prover]
pub proof fn law_map_sections_are_followed(
    descriptor: u8,
    list: Seq<(Seq<u8>, Seq<u8>)>,
    size: u32,
    depth: nat,
)
    requires
        descriptor == 116 || descriptor == 113 || descriptor == 114 || descriptor == 120,
        2 * list.len() <= u32::MAX,
        depth <= joined_entries(list).len(),
        forall|i: int|
            0 <= i < list.len() ==> is_entry(
                #[trigger] list[i],
                depth,
                if descriptor == 116 {
                    Entries::Properties
                } else {
                    Entries::Annotations
                },
            ),
    ensures
        ({
            let map = seq![0xd1u8] + be32(size as int) + be32(2 * list.len() as int) + joined_entries(list);
            let bytes = section(descriptor, map);
            &&& message_walk(bytes) == Walk::At(bytes.len() as int)
            &&& message_data(bytes) is None
        }),
{
    let entries = if descriptor == 116 {
        Entries::Properties
    } else {
        Entries::Annotations
    };
    let count: int = 2 * list.len() as int;
    let start = seq![0xd1u8] + be32(size as int) + be32(count);
    let map = start + joined_entries(list);
    let bytes = section(descriptor, map);
    lemma_sizes();
    lemma_section_head(descriptor, map);
    let front = seq![0x00u8, 0x53, descriptor] + start;
    lemma_entries_within(front, list, depth, entries);
    assert(front + joined_entries(list) =~= bytes);
    lemma_deeper_entries(bytes, 12, count, depth, bytes.len(), entries);
    law_numbers_are_read_back(
        seq![0x00u8, 0x53, descriptor] + seq![0xd1u8] + be32(size as int),
        count as u64,
        joined_entries(list),
    );
    assert(bytes =~= seq![0x00u8, 0x53, descriptor] + seq![0xd1u8] + be32(size as int) + be32(count)
        + joined_entries(list));
    assert(bytes[3] == 0xd1);
    assert(items_at(bytes, 3) == count);
    assert(after_head(bytes, 3) == Walk::At(12));
}

/// A truth value.
pub open spec fn boolean_bytes(yes: bool) -> Seq<u8> {
    if yes {
        seq![0x41u8]
    } else {
        seq![0x42u8]
    }
}

/// Binary data, a text or a symbol, after its length in one byte.
pub open spec fn short_bytes(code: u8, content: Seq<u8>) -> Seq<u8> {
    seq![code, content.len() as u8] + content
}

/// Whether each value is absent or what belongs into its field.
spec fn are_fields(values: Seq<Seq<u8>>, from: int, fields: Fields) -> bool {
    forall|i: int|
        0 <= i < values.len() ==> after_optional(#[trigger] values[i], 0, field(fields, from + i))
            == Walk::At(values[i].len() as int)
}

#[verifier::spinoff_prover]
proof fn lemma_fields_within(before: Seq<u8>, values: Seq<Seq<u8>>, index: int, fields: Fields)
    requires
        0 <= index,
        index + values.len() <= field_count(fields),
        are_fields(values, index, fields),
    ensures
        after_fields(
            before + joined_values(values),
            before.len() as int,
            index,
            index + values.len(),
            fields,
        ) == Walk::At((before + joined_values(values)).len() as int),
    decreases values.len(),
{
    let bytes = before + joined_values(values);
    if values.len() == 0 {
        assert(bytes =~= before);
    } else {
        let first = values[0];
        let rest = values.skip(1);
        let others = joined_values(rest);
        let expected = field(fields, index);
        assert(after_optional(values[0], 0, field(fields, index + 0)) == Walk::At(
            first.len() as int,
        ));
        assert(bytes =~= before + (first + others));
        lemma_simple_holds(first, others, 0, expected);
        lemma_simple_shift(before, first + others, 0, expected);
        assert(bytes =~= (before + first) + others);
        assert(are_fields(rest, index + 1, fields)) by {
            assert forall|i: int| 0 <= i < rest.len() implies after_optional(
                #[trigger] rest[i],
                0,
                field(fields, index + 1 + i),
            ) == Walk::At(rest[i].len() as int) by {
                assert(rest[i] == values[i + 1]);
                assert(index + (i + 1) == index + 1 + i);
            }
        }
        lemma_fields_within(before + first, rest, index + 1, fields);
    }
}

/// The list of the fields of a section.
pub open spec fn field_list(values: Seq<Seq<u8>>, size: u32) -> Seq<u8> {
    seq![0xd0u8] + be32(size as int) + be32(values.len() as int) + joined_values(values)
}

#[verifier::spinoff_prover]
proof fn lemma_record_within(descriptor: u8, values: Seq<Seq<u8>>, size: u32, fields: Fields)
    requires
        descriptor == 112 && fields == Fields::Header || descriptor == 115 && fields
            == Fields::Properties,
        values.len() <= field_count(fields),
        are_fields(values, 0, fields),
    ensures
        ({
            let bytes = section(descriptor, field_list(values, size));
            &&& message_walk(bytes) == Walk::At(bytes.len() as int)
            &&& message_data(bytes) is None
        }),
{
    let list = field_list(values, size);
    let bytes = section(descriptor, list);
    lemma_sizes();
    lemma_section_head(descriptor, list);
    let front = seq![0x00u8, 0x53, descriptor] + (seq![0xd0u8] + be32(size as int) + be32(
        values.len() as int,
    ));
    lemma_fields_within(front, values, 0, fields);
    assert(front + joined_values(values) =~= bytes);
    law_numbers_are_read_back(
        seq![0x00u8, 0x53, descriptor] + seq![0xd0u8] + be32(size as int),
        values.len() as u64,
        joined_values(values),
    );
    assert(bytes =~= seq![0x00u8, 0x53, descriptor] + seq![0xd0u8] + be32(size as int) + be32(
        values.len() as int,
    ) + joined_values(values));
    assert(bytes[3] == 0xd0);
    assert(items_at(bytes, 3) == values.len());
    assert(after_head(bytes, 3) == Walk::At(12));
}

/// The header of a message can be followed, whatever it says of durability, priority, time to live,
/// first acquirer and delivery count, each of which may be absent; it holds no data.
#[verifier::spinoff_prover]
pub proof fn law_headers_are_followed(
    durable: bool,
    priority: u8,
    time_to_live: u32,
    first_acquirer: bool,
    delivery_count: u32,
    absent: Set<int>,
    size: u32,
)
    ensures
        ({
            let values = seq![
                boolean_bytes(durable),
                seq![0x50u8, priority],
                seq![0x70u8] + be32(time_to_live as int),
                boolean_bytes(first_acquirer),
                seq![0x70u8] + be32(delivery_count as int),
            ];
            let given = Seq::new(
                5,
                |i: int|
                    if absent.contains(i) {
                        seq![0x40u8]
                    } else {
                        values[i]
                    },
            );
            let bytes = section(112, field_list(given, size));
            &&& message_walk(bytes) == Walk::At(bytes.len() as int)
            &&& message_data(bytes) is None
        }),
{
    let values = seq![
        boolean_bytes(durable),
        seq![0x50u8, priority],
        seq![0x70u8] + be32(time_to_live as int),
        boolean_bytes(first_acquirer),
        seq![0x70u8] + be32(delivery_count as int),
    ];
    let given = Seq::new(
        5,
        |i: int|
            if absent.contains(i) {
                seq![0x40u8]
            } else {
                values[i]
            },
    );
    lemma_sizes();
    assert forall|i: int| 0 <= i < given.len() implies after_optional(
        #[trigger] given[i],
        0,
        field(Fields::Header, 0 + i),
    ) == Walk::At(given[i].len() as int) by {
        if absent.contains(i) {
            assert(given[i][0] == 0x40);
        } else {
            assert(given[i] == values[i]);
            if i == 2 || i == 4 {
                assert(given[i][0] == 0x70);
            } else if i == 1 {
                assert(given[i][0] == 0x50);
            } else {
                assert(given[i][0] == 0x41 || given[i][0] == 0x42);
            }
        }
    }
    lemma_record_within(112, given, size, Fields::Header);
}

/// The properties of a message can be followed, whatever they hold, each of which may be absent: the
/// identifier and the correlation identifier, the user, the addresses and the subject, the type and
/// the encoding of the content, the expiry and the creation, and the group; they hold no data.
#[verifier::spinoff_prover]
pub proof fn law_message_properties_are_followed(
    identifier: u64,
    user: Seq<u8>,
    texts: Seq<Seq<u8>>,
    symbols: Seq<Seq<u8>>,
    moments: (u32, u32),
    sequence: u32,
    absent: Set<int>,
    size: u32,
)
    requires
        user.len() <= 255,
        texts.len() == 6,
        forall|i: int|
            0 <= i < 6 ==> (#[trigger] texts[i]).len() <= 255 && valid_utf8(texts[i]),
        symbols.len() == 2,
        forall|i: int|
            0 <= i < 2 ==> (#[trigger] symbols[i]).len() <= 255 && valid_utf8(symbols[i]),
    ensures
        ({
            let values = seq![
                seq![0x80u8] + be64(identifier as int),
                short_bytes(0xa0, user),
                short_bytes(0xa1, texts[0]),
                short_bytes(0xa1, texts[1]),
                short_bytes(0xa1, texts[2]),
                short_bytes(0xa1, texts[3]),
                short_bytes(0xa3, symbols[0]),
                short_bytes(0xa3, symbols[1]),
                seq![0x83u8] + be64(moments.0 as int),
                seq![0x83u8] + be64(moments.1 as int),
                short_bytes(0xa1, texts[4]),
                seq![0x70u8] + be32(sequence as int),
                short_bytes(0xa1, texts[5]),
            ];
            let given = Seq::new(
                13,
                |i: int|
                    if absent.contains(i) {
                        seq![0x40u8]
                    } else {
                        values[i]
                    },
            );
            let bytes = section(115, field_list(given, size));
            &&& message_walk(bytes) == Walk::At(bytes.len() as int)
            &&& message_data(bytes) is None
        }),
{
    let values = seq![
        seq![0x80u8] + be64(identifier as int),
        short_bytes(0xa0, user),
        short_bytes(0xa1, texts[0]),
        short_bytes(0xa1, texts[1]),
        short_bytes(0xa1, texts[2]),
        short_bytes(0xa1, texts[3]),
        short_bytes(0xa3, symbols[0]),
        short_bytes(0xa3, symbols[1]),
        seq![0x83u8] + be64(moments.0 as int),
        seq![0x83u8] + be64(moments.1 as int),
        short_bytes(0xa1, texts[4]),
        seq![0x70u8] + be32(sequence as int),
        short_bytes(0xa1, texts[5]),
    ];
    let given = Seq::new(
        13,
        |i: int|
            if absent.contains(i) {
                seq![0x40u8]
            } else {
                values[i]
            },
    );
    lemma_sizes();
    lemma_short_value(0xa0, user, Expected::Binary);
    lemma_short_value(0xa1, texts[0], Expected::Text);
    lemma_short_value(0xa1, texts[1], Expected::Text);
    lemma_short_value(0xa1, texts[2], Expected::Text);
    lemma_short_value(0xa1, texts[3], Expected::Identifier);
    lemma_short_value(0xa3, symbols[0], Expected::Symbol);
    lemma_short_value(0xa3, symbols[1], Expected::Symbol);
    lemma_moment(moments.0);
    lemma_moment(moments.1);
    lemma_short_value(0xa1, texts[4], Expected::Text);
    lemma_short_value(0xa1, texts[5], Expected::Text);
    assert forall|i: int| 0 <= i < given.len() implies after_optional(
        #[trigger] given[i],
        0,
        field(Fields::Properties, 0 + i),
    ) == Walk::At(given[i].len() as int) by {
        if absent.contains(i) {
            assert(given[i][0] == 0x40);
        } else {
            assert(given[i] == values[i]);
            if i == 0 {
                assert(given[i][0] == 0x80);
            } else if i == 11 {
                assert(given[i][0] == 0x70);
            }
        }
    }
    lemma_record_within(115, given, size, Fields::Properties);
}

proof fn lemma_short_value(code: u8, content: Seq<u8>, expected: Expected)
    requires
        content.len() <= 255,
        code == 0xa0 && expected == Expected::Binary || (code == 0xa1 && valid_utf8(content) && (
        expected == Expected::Text || expected == Expected::Identifier)) || code == 0xa3
            && valid_utf8(content) && expected == Expected::Symbol,
    ensures
        after_optional(short_bytes(code, content), 0, expected) == Walk::At(
            short_bytes(code, content).len() as int,
        ),
{
    let bytes = short_bytes(code, content);
    assert(bytes[0] == code);
    assert(bytes[1] == content.len());
    assert(bytes.subrange(2, bytes.len() as int) =~= content);
}

proof fn lemma_moment(moment: u32)
    ensures
        after_optional(seq![0x83u8] + be64(moment as int), 0, Expected::Timestamp) == Walk::At(9),
        (seq![0x83u8] + be64(moment as int)).len() == 9,
{
    lemma_sizes();
    let bytes = seq![0x83u8] + be64(moment as int);
    assert(bytes =~= seq![0x83u8] + be64(moment as int) + Seq::<u8>::empty());
    law_numbers_are_read_back(seq![0x83u8], moment as u64, Seq::empty());
    assert(bytes[0] == 0x83);
}

/// A value of a type that there is not is refused, with the code that it starts with; so is an array.
pub proof fn law_unknown_types_are_refused(code: u8, rest: Seq<u8>, depth: nat)
    requires
        0x00 < code < 0x40 || 0x45 < code < 0x50 || 0x56 < code < 0x60 || 0x61 < code < 0x70 || 0x73
            < code < 0x80 || 0x83 < code < 0x98 || 0x98 < code < 0xa0 || code == 0xa2 || 0xa3 < code
            < 0xb0 || code == 0xb2 || 0xb3 < code < 0xc0 || 0xc1 < code < 0xd0 || 0xd1 < code < 0xe0
            || 0xe0 < code < 0xf0 || 0xf0 < code,
    ensures
        after_value(seq![code] + rest, 0, depth).0 == Walk::Bad(Malformed::Format(code)),
{
    assert((seq![code] + rest)[0] == code);
}

/// What is expected somewhere is expected in all encodings of its type: binary data, texts and symbols
/// with a length of one byte or of four, numbers in few bytes or in all, and truth values with or
/// without a byte of their own. Nothing is expected that is no simple value.
pub proof fn law_encodings_of_a_type_are_alike(expected: Expected, code: u8)
    ensures
        accepts(expected, 0xa0) == accepts(expected, 0xb0),
        accepts(expected, 0xa1) == accepts(expected, 0xb1),
        accepts(expected, 0xa3) == accepts(expected, 0xb3),
        accepts(expected, 0x44) == accepts(expected, 0x53),
        accepts(expected, 0x44) == accepts(expected, 0x80),
        accepts(expected, 0x43) == accepts(expected, 0x52),
        accepts(expected, 0x43) == accepts(expected, 0x70),
        accepts(expected, 0x55) == accepts(expected, 0x81),
        accepts(expected, 0x54) == accepts(expected, 0x71),
        accepts(expected, 0x41) == accepts(expected, 0x42),
        accepts(expected, 0x41) == accepts(expected, 0x56),
        accepts(expected, code) ==> is_simple(code),
{
}

/// Which types are expected: a text, a symbol, binary data, a truth value, a number of one byte or of
/// four and a point in time are that type and no other. A descriptor is a number of eight bytes or a
/// symbol; the key of an annotation may also be a signed number, and an identifier may be a number,
/// binary data, a text or one of sixteen bytes.
pub proof fn law_types_are_told_apart(expected: Expected)
    ensures
        accepts(expected, 0xa1) <==> expected is Text || expected is Identifier || expected is Simple,
        accepts(expected, 0xa3) <==> expected is Symbol || expected is Descriptor
            || expected is AnnotationKey || expected is Simple,
        accepts(expected, 0xa0) <==> expected is Binary || expected is Identifier
            || expected is Simple,
        accepts(expected, 0x41) <==> expected is Boolean || expected is Simple,
        accepts(expected, 0x50) <==> expected is Byte || expected is Simple,
        accepts(expected, 0x70) <==> expected is Number || expected is Simple,
        accepts(expected, 0x83) <==> expected is Timestamp || expected is Simple,
        accepts(expected, 0x80) <==> expected is Descriptor || expected is Identifier
            || expected is AnnotationKey || expected is Simple,
        accepts(expected, 0x81) <==> expected is Identifier || expected is AnnotationKey
            || expected is Simple,
        accepts(expected, 0x98) <==> expected is Identifier || expected is Simple,
        forall|code: u8|
            code == 0x40 || code == 0x51 || code == 0x60 || code == 0x61 || code == 0x71 || code
                == 0x72 || code == 0x73 || code == 0x82 ==> (#[trigger] accepts(expected, code)
                <==> expected is Simple),
{
}

/// A section whose descriptor is written in eight bytes is no different from one whose descriptor is
/// written in one: it can be followed just as well, and holds the same data.
#[verifier::spinoff_prover]
pub proof fn law_long_descriptors_are_alike(descriptor: u8, value: Seq<u8>)
    requires
        value.len() > 0,
        after_section(section(descriptor, value), 0, section(descriptor, value).len()) == Walk::At(
            section(descriptor, value).len() as int,
        ),
    ensures
        ({
            let long = seq![0x00u8, 0x80] + be64(descriptor as int) + value;
            &&& message_walk(long) == Walk::At(long.len() as int)
            &&& message_data(long) == message_data(section(descriptor, value))
        }),
{
    reveal(message_walk);
    reveal(message_data);
    let short = section(descriptor, value);
    let front = seq![0x00u8, 0x53, descriptor];
    let start = seq![0x00u8, 0x80] + be64(descriptor as int);
    let long = start + value;
    let number = Some(descriptor as int);
    lemma_sizes();
    lemma_section_head(descriptor, value);
    law_numbers_are_read_back(seq![0x00u8, 0x80], descriptor as u64, value);
    assert(long[0] == 0x00 && long[1] == 0x80);
    assert(after_descriptor(long, 0) == Walk::At(10));
    assert(descriptor_at(long, 0) == number);
    lemma_section_depth(short, 0, short.len(), long.len());
    lemma_described_shift(front, value, 0, number, long.len());
    lemma_described_shift(start, value, 0, number, long.len());
    assert(after_section(long, 0, long.len()) == Walk::At(long.len() as int));
    assert(after_sections(long, long.len() as int, long.len()) == Walk::At(long.len() as int));
    assert(data_from(long, long.len() as int) is None);
    assert(data_from(short, short.len() as int) is None);
    if descriptor == DATA {
        lemma_simple_shift(front, value, 0, Expected::Binary);
        lemma_binary_stands(front, value, 0);
        lemma_binary_stands(start, value, 0);
    }
}

} // verus!
