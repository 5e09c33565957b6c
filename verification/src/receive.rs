//! How an answer is taken from what arrived on a connection.

use crate::error::ClientError;
use crate::response::{
    FromResponse,
    QueryOffsetResponse,
    QueryPublisherResponse,
    Response,
    ResponseCode,
    ResponseKind,
};
use vstd::prelude::*;

verus! {

/// The body of the wanted type, if that is what arrived.
pub open spec fn arrived_body<R: FromResponse>(
    arrived: Option<Result<Response, ClientError>>,
) -> Option<R> {
    match arrived {
        Some(Ok(response)) => R::body_of(response),
        _ => None,
    }
}

/// The text of the error for a response that is not of the type with the given name.
pub open spec fn cast_text(name: Seq<char>, ending: Seq<char>) -> Seq<char> {
    "Cannot cast response to "@ + name + ending
}

/// Whether `error` tells that `response` has no body of the wanted type.
pub open spec fn is_cast_error<R: FromResponse>(error: ClientError, ending: Seq<char>) -> bool {
    match error {
        ClientError::CastError(text) => text@ == cast_text(R::spec_body_name(), ending),
        _ => false,
    }
}

/// Whether `error` tells why no body of the wanted type arrived: the connection ended, reading
/// failed, or the response is of another type.
pub open spec fn tells_why<R: FromResponse>(
    arrived: Option<Result<Response, ClientError>>,
    error: ClientError,
    ending: Seq<char>,
) -> bool {
    match arrived {
        None => error == ClientError::ConnectionClosed,
        Some(Err(failure)) => error == failure,
        Some(Ok(response)) => is_cast_error::<R>(error, ending),
    }
}

/// Returns the error for a response that is not of the wanted type.
fn cast_error<R: FromResponse>(ending: &str) -> (error: ClientError)
    ensures
        is_cast_error::<R>(error, ending@),
{
    let mut text = "Cannot cast response to ".to_owned();
    text.append(R::body_name());
    text.append(ending);
    ClientError::CastError(text)
}

/// Takes a body of the wanted type from a response; `ending` ends the text of the error.
pub fn cast_response<R: FromResponse>(
    response: Response,
    ending: &str,
) -> (result: Result<R, ClientError>)
    ensures
        match result {
            Ok(body) => R::body_of(response) == Some(body),
            Err(error) => R::body_of(response) is None && is_cast_error::<R>(error, ending@),
        },
{
    match R::from_response(response) {
        Some(body) => Ok(body),
        None => Err(cast_error::<R>(ending)),
    }
}

/// Takes a body of the wanted type from what arrived; `ending` ends the text of the error for
/// a response of another type.
pub fn take_body<R: FromResponse>(
    arrived: Option<Result<Response, ClientError>>,
    ending: &str,
) -> (result: Result<R, ClientError>)
    ensures
        match result {
            Ok(body) => arrived_body::<R>(arrived) == Some(body),
            Err(error) => arrived_body::<R>(arrived) is None && tells_why::<R>(
                arrived,
                error,
                ending@,
            ),
        },
{
    match arrived {
        None => Err(ClientError::ConnectionClosed),
        Some(Err(failure)) => Err(failure),
        Some(Ok(response)) => cast_response::<R>(response, ending),
    }
}

/// What a request comes to: the body of its answer, or why there is none. `lost` is the error
/// for an answer that can no longer arrive.
pub open spec fn answered<R: FromResponse>(
    answer: Option<Response>,
    result: Result<R, ClientError>,
    lost: ClientError,
    ending: Seq<char>,
) -> bool {
    match (answer, result) {
        (None, Err(error)) => error == lost,
        (None, Ok(body)) => false,
        (Some(response), Ok(body)) => R::body_of(response) == Some(body),
        (
            Some(response),
            Err(error),
        ) => R::body_of(response) is None && is_cast_error::<R>(error, ending),
    }
}

/// What a query for a stored offset comes to.
pub open spec fn offset_answered(
    answer: Option<Response>,
    result: Result<u64, ClientError>,
    lost: ClientError,
    ending: Seq<char>,
) -> bool {
    match (answer, result) {
        (None, Err(error)) => error == lost,
        (None, Ok(offset)) => false,
        (Some(response), _) => match (QueryOffsetResponse::body_of(response), result) {
            (None, Err(error)) => is_cast_error::<QueryOffsetResponse>(error, ending),
            (None, Ok(offset)) => false,
            (Some(body), Ok(offset)) => body.code == ResponseCode::Success && offset == body.offset,
            (Some(body), Err(error)) => body.code != ResponseCode::Success && error
                == ClientError::RequestError(body.code),
        },
    }
}

/// What a query for the last sequence number of a publisher comes to.
pub open spec fn sequence_answered(
    answer: Option<Response>,
    result: Result<u64, ClientError>,
    lost: ClientError,
    ending: Seq<char>,
) -> bool {
    match (answer, result) {
        (None, Err(error)) => error == lost,
        (None, Ok(sequence)) => false,
        (Some(response), Ok(sequence)) => QueryPublisherResponse::body_of(response) == Some(
            QueryPublisherResponse { sequence },
        ),
        (Some(response), Err(error)) => QueryPublisherResponse::body_of(response) is None
            && is_cast_error::<QueryPublisherResponse>(error, ending),
    }
}

/// Takes a body of the wanted type from the answer to a request.
pub fn take_answer<R: FromResponse>(
    answer: Option<Response>,
    lost: ClientError,
    ending: &str,
) -> (result: Result<R, ClientError>)
    ensures
        answered::<R>(answer, result, lost, ending@),
{
    match answer {
        None => Err(lost),
        Some(response) => cast_response::<R>(response, ending),
    }
}

/// Takes the offset from the answer to a query for it.
pub fn take_offset(answer: Option<Response>, lost: ClientError, ending: &str) -> (result: Result<
    u64,
    ClientError,
>)
    ensures
        offset_answered(answer, result, lost, ending@),
{
    match take_answer::<QueryOffsetResponse>(answer, lost, ending) {
        Err(error) => Err(error),
        Ok(response) => if !response.is_ok() {
            Err(ClientError::RequestError(response.code()))
        } else {
            Ok(response.offset)
        },
    }
}

/// Takes the sequence number from the answer to a query for it.
pub fn take_sequence(answer: Option<Response>, lost: ClientError, ending: &str) -> (result: Result<
    u64,
    ClientError,
>)
    ensures
        sequence_answered(answer, result, lost, ending@),
{
    match take_answer::<QueryPublisherResponse>(answer, lost, ending) {
        Err(error) => Err(error),
        Ok(response) => Ok(response.sequence),
    }
}

/// The answer of the awaited type is taken as it is. Without an answer the request fails with the
/// given error, and with one of another type it fails because of that.
pub proof fn law_answers_are_taken_by_type<R: FromResponse>(
    answer: Option<Response>,
    result: Result<R, ClientError>,
    lost: ClientError,
    ending: Seq<char>,
)
    requires
        answered::<R>(answer, result, lost, ending),
    ensures
        answer is None ==> result == Err::<R, ClientError>(lost),
        answer matches Some(response) ==> (R::body_of(response) matches Some(body) ==> result == Ok::<
            R,
            ClientError,
        >(body)),
        answer matches Some(response) ==> (R::body_of(response) is None ==> (result matches Err(error)
            && error is CastError)),
{
}

/// An offset that the server tells is taken as it is, whatever it is; where the server refuses to
/// tell it, for whatever reason, the query fails with that reason.
pub proof fn law_offsets_are_taken(
    response: Response,
    body: QueryOffsetResponse,
    result: Result<u64, ClientError>,
    lost: ClientError,
    ending: Seq<char>,
)
    requires
        offset_answered(Some(response), result, lost, ending),
        response.kind == ResponseKind::QueryOffset(body),
    ensures
        body.code is Success ==> result == Ok::<u64, ClientError>(body.offset),
        !(body.code is Success) ==> result == Err::<u64, ClientError>(
            ClientError::RequestError(body.code),
        ),
{
}

/// A sequence number that the server tells is taken as it is, whatever it is.
pub proof fn law_sequences_are_taken(
    response: Response,
    body: QueryPublisherResponse,
    result: Result<u64, ClientError>,
    lost: ClientError,
    ending: Seq<char>,
)
    requires
        sequence_answered(Some(response), result, lost, ending),
        response.kind == ResponseKind::QueryPublisherSequence(body),
    ensures
        result == Ok::<u64, ClientError>(body.sequence),
{
}

/// A query fails without an answer, with the given error, and with an answer of another type.
pub proof fn law_queries_need_their_answer(
    answer: Option<Response>,
    offset: Result<u64, ClientError>,
    sequence: Result<u64, ClientError>,
    lost: ClientError,
    ending: Seq<char>,
)
    requires
        offset_answered(answer, offset, lost, ending),
        sequence_answered(answer, sequence, lost, ending),
    ensures
        answer is None ==> offset == Err::<u64, ClientError>(lost) && sequence == Err::<
            u64,
            ClientError,
        >(lost),
        answer matches Some(response) ==> (!(response.kind is QueryOffset) ==> (offset matches Err(
            error,
        ) && error is CastError)),
        answer matches Some(response) ==> (!(response.kind is QueryPublisherSequence) ==> (
        sequence matches Err(error) && error is CastError)),
{
}

/// The text of the error for a response of another type names the type that was awaited.
pub proof fn law_cast_errors_name_the_type<R: FromResponse>(error: ClientError, ending: Seq<char>)
    requires
        is_cast_error::<R>(error, ending),
    ensures
        ({
            let text = error->CastError_0@;
            let start = "Cannot cast response to "@.len() as int;
            let end = start + R::spec_body_name().len();
            &&& error is CastError
            &&& text.take(start) == "Cannot cast response to "@
            &&& text.subrange(start, end) == R::spec_body_name()
            &&& text.skip(end) == ending
        }),
{
    let text = error->CastError_0@;
    let start = "Cannot cast response to "@.len() as int;
    let end = start + R::spec_body_name().len();
    assert(text.take(start) =~= "Cannot cast response to "@);
    assert(text.subrange(start, end) =~= R::spec_body_name());
    assert(text.skip(end) =~= ending);
}

/// An offset and a sequence number are taken from their answers as they are, whatever they are, and a
/// refusal is told with its reason.
pub proof fn law_told_numbers_are_taken(
    response: Response,
    lost: ClientError,
    ending: &str,
    offset: Result<u64, ClientError>,
    sequence: Result<u64, ClientError>,
    other: Result<u64, ClientError>,
)
    requires
        call_ensures(take_offset, (Some(response), lost, ending), offset),
        call_ensures(take_sequence, (Some(response), lost, ending), sequence),
        call_ensures(take_offset, (None, lost, ending), other),
    ensures
        response.kind matches ResponseKind::QueryOffset(body) ==> offset == (
        if body.code is Success {
            Ok::<u64, ClientError>(body.offset)
        } else {
            Err::<u64, ClientError>(ClientError::RequestError(body.code))
        }),
        response.kind matches ResponseKind::QueryPublisherSequence(body) ==> sequence == Ok::<
            u64,
            ClientError,
        >(body.sequence),
        !(response.kind is QueryOffset) ==> (offset matches Err(error) && error is CastError),
        other == Err::<u64, ClientError>(lost),
{
}

} // verus!
