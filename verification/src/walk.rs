//! How far the parts of a frame or a message reach.

use crate::error::DecodeFailure;
use vstd::prelude::*;
use vstd::utf8::{decode_utf8, valid_utf8};

verus! {

/// Why a part is malformed.
#[derive(Clone, Copy, Debug, PartialEq, Eq, Structural)]
pub enum Malformed {
    /// A response code has a number that no code has.
    Code(u16),
    /// A text is not valid UTF-8.
    Text,
    /// The server sends no frames with the key.
    Key(u16),
    /// A value in a message has a type that there is not.
    Format(u8),
    /// A value in a message is of another type than the one that belongs there, or is no value of
    /// its type.
    Message,
}

impl Malformed {
    /// Whether the failure tells why the part is malformed. The words of a failure to read a
    /// message are free.
    pub open spec fn leads_to(self, failure: DecodeFailure) -> bool {
        match self {
            Malformed::Code(number) => failure == DecodeFailure::UnknownResponseCode(number),
            Malformed::Text => failure == DecodeFailure::Utf8Error,
            Malformed::Key(key) => failure == DecodeFailure::UnsupportedResponseType(key),
            Malformed::Format(code) => failure == DecodeFailure::InvalidFormatCode(code),
            Malformed::Message => failure is MessageParse,
        }
    }

    /// Returns the failure that tells why the part is malformed.
    pub fn failure(self) -> (failure: DecodeFailure)
        ensures
            self.leads_to(failure),
    {
        match self {
            Malformed::Code(number) => DecodeFailure::UnknownResponseCode(number),
            Malformed::Text => DecodeFailure::Utf8Error,
            Malformed::Key(key) => DecodeFailure::UnsupportedResponseType(key),
            Malformed::Format(code) => DecodeFailure::InvalidFormatCode(code),
            Malformed::Message => DecodeFailure::MessageParse("Invalid value in a message".to_owned()),
        }
    }
}

/// How far the parts reach.
pub enum Walk {
    /// All parts are there; the next one starts at the position.
    At(int),
    /// A part is not there yet.
    Short,
    /// A part is malformed.
    Bad(Malformed),
    /// A part cannot be followed: its length is negative or reaches past the end, a name is empty
    /// that must not be, or a map has a key without a value or a key that holds a map.
    Outside,
}

/// After `count` bytes.
pub open spec fn after_bytes(bytes: Seq<u8>, walk: Walk, count: int) -> Walk {
    match walk {
        Walk::At(at) => if at + count <= bytes.len() {
            Walk::At(at + count)
        } else {
            Walk::Short
        },
        _ => walk,
    }
}

/// How far the parts reach, in executable code.
#[derive(Debug)]
pub enum Step {
    At(usize),
    Short,
    Bad(Malformed),
    Outside,
}

impl Step {
    /// The walk that the step stands for.
    pub open spec fn walk(self) -> Walk {
        match self {
            Step::At(at) => Walk::At(at as int),
            Step::Short => Walk::Short,
            Step::Bad(why) => Walk::Bad(why),
            Step::Outside => Walk::Outside,
        }
    }

    /// Whether a position lies within the bytes.
    pub open spec fn within(self, bytes: Seq<u8>) -> bool {
        match self {
            Step::At(at) => at <= bytes.len(),
            _ => true,
        }
    }

    /// Whether a position lies within the bytes, `from` or after it.
    pub open spec fn reaches(self, bytes: Seq<u8>, from: int) -> bool {
        match self {
            Step::At(at) => from <= at <= bytes.len(),
            _ => true,
        }
    }
}

/// Calls `std::str::from_utf8`, which makes a text of the bytes; it succeeds exactly on bytes that
/// are valid UTF-8.
#[verifier::external_body]
pub(crate) fn utf8_text(bytes: &[u8]) -> (content: Option<&str>)
    ensures
        content is Some <==> valid_utf8(bytes@),
        content is Some ==> content->0@ == decode_utf8(bytes@),
{
    std::str::from_utf8(bytes).ok()
}

/// Steps over `count` bytes.
pub(crate) fn step_bytes(bytes: &[u8], step: Step, count: usize) -> (next: Step)
    requires
        step.within(bytes@),
    ensures
        next.walk() == after_bytes(bytes@, step.walk(), count as int),
        next.within(bytes@),
{
    match step {
        Step::At(at) => if count <= bytes.len() - at {
            Step::At(at + count)
        } else {
            Step::Short
        },
        _ => step,
    }
}

/// The failure to read a part tells what is wrong with it: the number that no code has, the key that
/// no frame has or the code that no type has, whatever it is.
pub proof fn law_failures_tell_what_is_wrong(number: u16, code: u8, failure: DecodeFailure)
    ensures
        Malformed::Code(number).leads_to(failure) <==> failure == DecodeFailure::UnknownResponseCode(
            number,
        ),
        Malformed::Key(number).leads_to(failure) <==> failure
            == DecodeFailure::UnsupportedResponseType(number),
        Malformed::Format(code).leads_to(failure) <==> failure == DecodeFailure::InvalidFormatCode(
            code,
        ),
        Malformed::Text.leads_to(failure) <==> failure is Utf8Error,
        Malformed::Message.leads_to(failure) <==> failure is MessageParse,
{
}

} // verus!
