//! Who gets a response: the one who waits for it, or the handler.

use crate::response::Response;
use vstd::prelude::*;

verus! {

/// Who gets a response.
#[derive(Debug)]
pub enum Routing {
    /// The one who waits for it.
    ToWaiter(u64, Response),
    /// The handler.
    ToHandler(Response),
    /// Nobody.
    Dropped,
}

/// Whether somebody waits for `response`.
pub open spec fn is_awaited(pending: Map<u32, u64>, response: Response) -> bool {
    match response.correlation_id {
        Some(id) => pending.contains_key(id),
        None => false,
    }
}

/// Those who still wait once `response` is there.
pub open spec fn still_pending(pending: Map<u32, u64>, response: Response) -> Map<u32, u64> {
    match response.correlation_id {
        Some(id) => pending.remove(id),
        None => pending,
    }
}

/// The value that the key `id` has, if any.
pub open spec fn entry_of(pending: Map<u32, u64>, id: u32) -> Option<u64> {
    if pending.contains_key(id) {
        Some(pending[id])
    } else {
        None
    }
}

/// The number after `id`; the counter of requests starts over once it is exhausted.
pub open spec fn next_id(id: u32) -> u32 {
    if id == u32::MAX {
        0
    } else {
        (id + 1) as u32
    }
}

/// Who gets a response where the handler sees every response for which nobody waits.
pub open spec fn routed(pending: Map<u32, u64>, has_handler: bool, response: Response) -> Routing {
    if is_awaited(pending, response) {
        Routing::ToWaiter(pending[response.correlation_id->0], response)
    } else if has_handler {
        Routing::ToHandler(response)
    } else {
        Routing::Dropped
    }
}

/// Who gets a response where the handler sees only those that answer no request.
pub open spec fn routed_strictly(
    pending: Map<u32, u64>,
    has_handler: bool,
    response: Response,
) -> Routing {
    if is_awaited(pending, response) {
        Routing::ToWaiter(pending[response.correlation_id->0], response)
    } else if has_handler && response.correlation_id is None {
        Routing::ToHandler(response)
    } else {
        Routing::Dropped
    }
}

/// The answer to a request reaches the one who waits for it, whether there is a handler or not,
/// and reaches that one only once: a second response with the same identifier finds nobody.
pub proof fn law_answer_reaches_its_waiter(
    pending: Map<u32, u64>,
    has_handler: bool,
    id: u32,
    waiter: u64,
    answer: Response,
    second: Response,
)
    requires
        answer.correlation_id == Some(id),
        second.correlation_id == Some(id),
    ensures
        routed(
            pending.insert(id, waiter),
            has_handler,
            answer,
        ) == Routing::ToWaiter(waiter, answer),
        routed_strictly(pending.insert(id, waiter), has_handler, answer) == Routing::ToWaiter(
            waiter,
            answer,
        ),
        !is_awaited(still_pending(pending.insert(id, waiter), answer), second),
        !(
            routed(
                still_pending(pending.insert(id, waiter), answer),
                has_handler,
                second,
            ) is ToWaiter
        ),
        routed_strictly(still_pending(pending.insert(id, waiter), answer), has_handler, second)
            == Routing::Dropped,
{
}

/// A response changes nothing for those who wait for another one.
pub proof fn law_other_waiters_stay(pending: Map<u32, u64>, response: Response, id: u32)
    requires
        response.correlation_id != Some(id),
    ensures
        still_pending(pending, response).contains_key(id) == pending.contains_key(id),
        pending.contains_key(id) ==> still_pending(pending, response)[id] == pending[id],
{
}

/// A response without a correlation identifier goes to the handler, if there is one.
pub proof fn law_pushed_frames_reach_the_handler(pending: Map<u32, u64>, response: Response)
    requires
        response.correlation_id is None,
    ensures
        routed(pending, true, response) == Routing::ToHandler(response),
        routed_strictly(pending, true, response) == Routing::ToHandler(response),
        still_pending(pending, response) == pending,
{
}

/// The identifier of the request that comes `count` requests after the one with `id`.
pub open spec fn id_after(id: u32, count: nat) -> u32
    decreases count,
{
    if count == 0 {
        id
    } else {
        next_id(id_after(id, (count - 1) as nat))
    }
}

proof fn lemma_id_after(id: u32, count: nat)
    ensures
        id_after(id, count) == (id + count) % 0x1_0000_0000,
    decreases count,
{
    if count > 0 {
        lemma_id_after(id, (count - 1) as nat);
    }
}

/// No identifier is used twice until all of them have been used.
pub proof fn law_identifiers_differ(id: u32, earlier: nat, later: nat)
    requires
        earlier < later,
        later - earlier <= u32::MAX,
    ensures
        id_after(id, earlier) != id_after(id, later),
{
    lemma_id_after(id, earlier);
    lemma_id_after(id, later);
}

/// A response goes to the one who waits for it, who is then no longer waiting. A response for which
/// nobody waits goes to the handler, if there is one, whatever it holds; a strict handler gets it
/// only if it has no identifier. Either way it is handed on unchanged.
pub proof fn law_routing_goes_by_the_identifier(
    pending: Map<u32, u64>,
    response: Response,
    id: u32,
)
    ensures
        response.correlation_id == Some(id) && pending.contains_key(id) ==> {
            &&& routed(pending, true, response) == Routing::ToWaiter(pending[id], response)
            &&& routed(pending, false, response) == Routing::ToWaiter(pending[id], response)
            &&& routed_strictly(pending, true, response) == Routing::ToWaiter(pending[id], response)
            &&& routed_strictly(pending, false, response) == Routing::ToWaiter(
                pending[id],
                response,
            )
            &&& !still_pending(pending, response).contains_key(id)
        },
        response.correlation_id == Some(id) && !pending.contains_key(id) ==> {
            &&& routed(pending, true, response) == Routing::ToHandler(response)
            &&& routed(pending, false, response) == Routing::Dropped
            &&& routed_strictly(pending, true, response) == Routing::Dropped
            &&& routed_strictly(pending, false, response) == Routing::Dropped
            &&& still_pending(pending, response) == pending
        },
        response.correlation_id is None ==> {
            &&& routed(pending, true, response) == Routing::ToHandler(response)
            &&& routed(pending, false, response) == Routing::Dropped
            &&& routed_strictly(pending, true, response) == Routing::ToHandler(response)
            &&& routed_strictly(pending, false, response) == Routing::Dropped
            &&& still_pending(pending, response) == pending
        },
{
    if response.correlation_id is Some && !pending.contains_key(response.correlation_id->0) {
        assert(pending.remove(response.correlation_id->0) =~= pending);
    }
}

/// The identifiers count up by one, and start over after the largest.
pub proof fn law_identifiers_count_up(id: u32)
    ensures
        id < u32::MAX ==> next_id(id) == id + 1,
        id == u32::MAX ==> next_id(id) == 0,
{
}

/// The one who is replaced by a new entry is the one that the identifier had before, if any.
pub proof fn law_replaced_is_the_one_before(pending: Map<u32, u64>, id: u32, waiter: u64)
    ensures
        entry_of(pending.insert(id, waiter), id) == Some(waiter),
        entry_of(pending.remove(id), id) is None,
        forall|other: u32|
            other != id ==> #[trigger] entry_of(pending.insert(id, waiter), other) == entry_of(
                pending,
                other,
            ),
{
}

} // verus!
