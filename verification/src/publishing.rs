//! The identifiers of published messages.

use crate::request::{PublishedData, Request};
use vstd::prelude::*;

verus! {

/// The value that a counter of 64 bits shows after counting to `n`.
pub open spec fn counted(n: int) -> u64 {
    (n % 0x1_0000_0000_0000_0000) as u64
}

/// How many messages ask for no identifier of their own.
pub open spec fn automatic_count(wanted: Seq<Option<u64>>) -> nat
    decreases wanted.len(),
{
    if wanted.len() == 0 {
        0
    } else {
        automatic_count(wanted.drop_last()) + (if wanted.last() is None {
            1nat
        } else {
            0nat
        })
    }
}

/// The identifier of message `i`: the one that it asks for, or else the next of the sequence.
pub open spec fn publishing_id(wanted: Seq<Option<u64>>, sequence: u64, i: int) -> u64 {
    match wanted[i] {
        Some(id) => id,
        None => counted(sequence + automatic_count(wanted.take(i))),
    }
}

/// The sequence after the messages have got their identifiers.
pub open spec fn next_sequence(wanted: Seq<Option<u64>>, sequence: u64) -> u64 {
    counted(sequence + automatic_count(wanted))
}

/// Gives each message its identifier; returns the identifiers and the next of the sequence.
pub fn assign_ids(wanted: &Vec<Option<u64>>, sequence: u64) -> (assigned: (Vec<u64>, u64))
    ensures
        assigned.0@.len() == wanted@.len(),
        forall|i: int|
            0 <= i < wanted@.len() ==> #[trigger] assigned.0@[i] == publishing_id(wanted@, sequence, i),
        assigned.1 == next_sequence(wanted@, sequence),
{
    let mut ids: Vec<u64> = Vec::new();
    let mut next: u64 = sequence;
    let mut i: usize = 0;
    while i < wanted.len()
        invariant
            i <= wanted.len(),
            ids@.len() == i,
            forall|j: int| 0 <= j < i ==> #[trigger] ids@[j] == publishing_id(wanted@, sequence, j),
            next == counted(sequence + automatic_count(wanted@.take(i as int))),
        decreases wanted.len() - i,
    {
        assert(wanted@.take(i + 1).drop_last() =~= wanted@.take(i as int));
        match wanted[i] {
            Some(id) => ids.push(id),
            None => {
                ids.push(next);
                next = next.wrapping_add(1);
            },
        }
        i = i + 1;
    }
    assert(wanted@.take(i as int) =~= wanted@);
    (ids, next)
}

/// A message that is to be published, whatever it is made of: the identifier that it asks for and
/// the value that it can be filtered by go with it.
#[derive(Debug)]
pub struct ClientMessage<M> {
    pub publishing_id: Option<u64>,
    pub message: M,
    pub filter_value: Option<String>,
}

/// A message with its identifier.
#[derive(Debug)]
pub struct Published<M> {
    pub publishing_id: u64,
    pub message: M,
    pub filter_value: Option<String>,
}

/// What the command that publishes messages holds.
#[derive(Debug)]
pub struct Publication<M> {
    pub ids: Vec<u64>,
    pub publisher_id: u8,
    pub published: Vec<Published<M>>,
    pub version: u16,
}

/// The identifiers that messages ask for.
pub open spec fn wanted_ids<M>(messages: Seq<ClientMessage<M>>) -> Seq<Option<u64>> {
    messages.map_values(|message: ClientMessage<M>| message.publishing_id)
}

/// Whether a command publishes the messages, in their order, each with its identifier.
pub open spec fn publishes<M>(
    publication: Publication<M>,
    publisher_id: u8,
    messages: Seq<ClientMessage<M>>,
    version: u16,
    sequence: u64,
) -> bool {
    &&& publication.publisher_id == publisher_id
    &&& publication.version == version
    &&& publication.published@.len() == messages.len()
    &&& publication.ids@.len() == messages.len()
    &&& forall|i: int|
        0 <= i < messages.len() ==> (#[trigger] publication.published@[i]).message
            == messages[i].message && publication.published@[i].filter_value
            == messages[i].filter_value && publication.published@[i].publishing_id == publishing_id(
            wanted_ids(messages),
            sequence,
            i,
        )
    &&& forall|i: int|
        0 <= i < messages.len() ==> #[trigger] publication.ids@[i] == publishing_id(
            wanted_ids(messages),
            sequence,
            i,
        )
}

/// Returns the identifiers that messages ask for.
fn wanted_of<M>(messages: &Vec<ClientMessage<M>>) -> (wanted: Vec<Option<u64>>)
    ensures
        wanted@ == wanted_ids(messages@),
{
    let mut wanted: Vec<Option<u64>> = Vec::new();
    let mut i: usize = 0;
    while i < messages.len()
        invariant
            i <= messages.len(),
            wanted.len() == i,
            forall|j: int| 0 <= j < i ==> #[trigger] wanted@[j] == messages@[j].publishing_id,
        decreases messages.len() - i,
    {
        wanted.push(messages[i].publishing_id);
        i = i + 1;
    }
    assert(wanted@ =~= wanted_ids(messages@));
    wanted
}

/// Gives each message its identifier; returns the messages as they are to be published, and the
/// next of the sequence.
pub fn publication_of<M>(
    publisher_id: u8,
    messages: Vec<ClientMessage<M>>,
    version: u16,
    sequence: u64,
) -> (made: (Publication<M>, u64))
    ensures
        publishes(made.0, publisher_id, messages@, version, sequence),
        forall|i: int|
            0 <= i < messages@.len() ==> (#[trigger] made.0.published@[i]).message
                == messages@[i].message && made.0.published@[i].filter_value
                == messages@[i].filter_value,
        made.1 == next_sequence(wanted_ids(messages@), sequence),
{
    let ghost all = messages@;
    let wanted = wanted_of(&messages);
    let (ids, next) = assign_ids(&wanted, sequence);
    let mut published: Vec<Published<M>> = Vec::new();
    for message in iter: messages
        invariant
            iter.seq() == all,
            ids@.len() == all.len(),
            published@.len() == iter.index(),
            forall|j: int|
                0 <= j < iter.index() ==> (#[trigger] published@[j]).message == all[j].message
                    && published@[j].filter_value == all[j].filter_value
                    && published@[j].publishing_id == ids@[j],
    {
        let publishing_id: u64 = ids[published.len()];
        published.push(
            Published { publishing_id, message: message.message, filter_value: message.filter_value },
        );
    }
    (Publication { ids, publisher_id, published, version }, next)
}

/// Whether a request publishes the messages, which hold nothing but data.
pub open spec fn is_publish(request: Request, publication: Publication<Vec<u8>>) -> bool {
    match request {
        Request::Publish { publisher_id, messages, version } => {
            &&& publisher_id == publication.publisher_id
            &&& version == publication.version
            &&& messages@.len() == publication.published@.len()
            &&& forall|i: int|
                0 <= i < messages@.len() ==> (#[trigger] messages@[i]).data
                    == publication.published@[i].message && messages@[i].filter_value
                    == publication.published@[i].filter_value && messages@[i].publishing_id
                    == publication.published@[i].publishing_id
        },
        _ => false,
    }
}

impl Publication<Vec<u8>> {
    /// Returns the request that publishes messages which hold nothing but data.
    pub fn into_request(self) -> (request: Request)
        ensures
            is_publish(request, self),
    {
        let ghost all = self.published@;
        let mut messages: Vec<PublishedData> = Vec::new();
        for published in iter: self.published
            invariant
                iter.seq() == all,
                messages@.len() == iter.index(),
                forall|j: int|
                    0 <= j < iter.index() ==> (#[trigger] messages@[j]).data == all[j].message
                        && messages@[j].filter_value == all[j].filter_value
                        && messages@[j].publishing_id == all[j].publishing_id,
        {
            messages.push(
                PublishedData {
                    publishing_id: published.publishing_id,
                    data: published.message,
                    filter_value: published.filter_value,
                },
            );
        }
        Request::Publish { publisher_id: self.publisher_id, messages, version: self.version }
    }
}

proof fn lemma_automatic_count_step(wanted: Seq<Option<u64>>, i: int, j: int)
    requires
        0 <= i <= j <= wanted.len(),
    ensures
        automatic_count(wanted.take(i)) <= automatic_count(wanted.take(j)),
        i < j && wanted[i] is None ==> automatic_count(wanted.take(i)) < automatic_count(wanted.take(j)),
    decreases j - i,
{
    if i < j {
        lemma_automatic_count_step(wanted, i, j - 1);
        assert(wanted.take(j).drop_last() =~= wanted.take(j - 1));
    }
}

/// Two messages that ask for no identifier get different ones, in the order in which they are
/// published, as long as the sequence does not start over.
pub proof fn law_automatic_ids_increase(wanted: Seq<Option<u64>>, sequence: u64, i: int, j: int)
    requires
        0 <= i < j < wanted.len(),
        wanted[i] is None,
        wanted[j] is None,
        sequence + automatic_count(wanted) <= u64::MAX,
    ensures
        sequence <= publishing_id(wanted, sequence, i) < publishing_id(wanted, sequence, j)
            < next_sequence(wanted, sequence),
{
    lemma_automatic_count_step(wanted, i, j);
    lemma_automatic_count_step(wanted, j, wanted.len() as int);
    assert(wanted.take(wanted.len() as int) =~= wanted);
}

/// A message that asks for no identifier gets one from the sequence, and messages that are
/// published later get later ones, as long as the sequence does not start over.
pub proof fn law_automatic_ids_are_not_reused(wanted: Seq<Option<u64>>, sequence: u64, i: int)
    requires
        0 <= i < wanted.len(),
        wanted[i] is None,
        sequence + automatic_count(wanted) <= u64::MAX,
    ensures
        sequence <= publishing_id(wanted, sequence, i) < next_sequence(wanted, sequence),
{
    lemma_automatic_count_step(wanted, i, wanted.len() as int);
    assert(wanted.take(wanted.len() as int) =~= wanted);
}

/// A message that asks for an identifier gets that one, and takes none from the sequence.
pub proof fn law_wanted_ids_are_kept(wanted: Seq<Option<u64>>, sequence: u64, i: int, id: u64)
    requires
        0 <= i < wanted.len(),
        wanted[i] == Some(id),
    ensures
        publishing_id(wanted, sequence, i) == id,
        automatic_count(wanted.take(i + 1)) == automatic_count(wanted.take(i)),
{
    assert(wanted.take(i + 1).drop_last() =~= wanted.take(i));
}

proof fn lemma_automatic_count_joined(first: Seq<Option<u64>>, second: Seq<Option<u64>>)
    ensures
        automatic_count(first + second) == automatic_count(first) + automatic_count(second),
    decreases second.len(),
{
    let all = first + second;
    if second.len() == 0 {
        assert(all =~= first);
    } else {
        lemma_automatic_count_joined(first, second.drop_last());
        assert(all.drop_last() =~= first + second.drop_last());
        assert(all.last() == second.last());
    }
}

/// What is published of a message is what it was made with: the message itself and its own filter
/// value, wherever it stands among the others, and the identifier that it asks for. The identifiers
/// that are returned are those with which the messages are published.
pub proof fn law_messages_are_published_unchanged<M>(
    publication: Publication<M>,
    publisher_id: u8,
    messages: Seq<ClientMessage<M>>,
    version: u16,
    sequence: u64,
    i: int,
)
    requires
        publishes(publication, publisher_id, messages, version, sequence),
        0 <= i < messages.len(),
    ensures
        publication.published@[i].message == messages[i].message,
        publication.published@[i].filter_value == messages[i].filter_value,
        messages[i].publishing_id matches Some(id) ==> publication.published@[i].publishing_id == id,
        publication.ids@[i] == publication.published@[i].publishing_id,
{
}

/// All messages are published and no others, by the publisher and with the version of the command
/// that were given.
pub proof fn law_all_messages_are_published<M>(
    publication: Publication<M>,
    publisher_id: u8,
    messages: Seq<ClientMessage<M>>,
    version: u16,
    sequence: u64,
)
    requires
        publishes(publication, publisher_id, messages, version, sequence),
    ensures
        publication.publisher_id == publisher_id,
        publication.version == version,
        publication.published@.len() == messages.len(),
        publication.ids@.len() == messages.len(),
{
}

/// In a batch a message gets the filter value and the content that it gets when it is published
/// alone.
pub proof fn law_a_batch_publishes_as_single_messages_do<M>(
    batch: Publication<M>,
    alone: Publication<M>,
    publisher_id: u8,
    messages: Seq<ClientMessage<M>>,
    version: u16,
    sequences: (u64, u64),
    i: int,
)
    requires
        publishes(batch, publisher_id, messages, version, sequences.0),
        0 <= i < messages.len(),
        publishes(alone, publisher_id, seq![messages[i]], version, sequences.1),
    ensures
        batch.published@[i].message == alone.published@[0].message,
        batch.published@[i].filter_value == alone.published@[0].filter_value,
        messages[i].publishing_id is Some ==> batch.published@[i].publishing_id
            == alone.published@[0].publishing_id,
{
    let single = seq![messages[i]];
    assert(single[0] == messages[i]);
    assert(alone.published@[0].message == single[0].message);
    assert(wanted_ids(single)[0] == messages[i].publishing_id);
    assert(wanted_ids(messages)[i] == messages[i].publishing_id);
}

/// Of messages that ask for no identifier the first gets the next of the sequence, and each one
/// after it the number after that of the one before it, where the sequence starts over after the
/// largest number; those that ask for one do not count.
pub proof fn law_automatic_ids_are_consecutive(
    wanted: Seq<Option<u64>>,
    sequence: u64,
    i: int,
    j: int,
)
    requires
        0 <= i < wanted.len(),
        wanted[i] is None,
        i < j <= wanted.len(),
        forall|k: int| i < k < j ==> (#[trigger] wanted[k]) is Some,
    ensures
        (forall|k: int| 0 <= k < i ==> (#[trigger] wanted[k]) is Some) ==> publishing_id(
            wanted,
            sequence,
            i,
        ) == sequence,
        j < wanted.len() && wanted[j] is None ==> publishing_id(wanted, sequence, j) == (
        if publishing_id(wanted, sequence, i) == u64::MAX {
            0
        } else {
            publishing_id(wanted, sequence, i) + 1
        }),
        j == wanted.len() ==> next_sequence(wanted, sequence) == (if publishing_id(
            wanted,
            sequence,
            i,
        ) == u64::MAX {
            0
        } else {
            publishing_id(wanted, sequence, i) + 1
        }),
{
    if forall|k: int| 0 <= k < i ==> (#[trigger] wanted[k]) is Some {
        lemma_no_automatic_ids(wanted, 0, i);
        assert(wanted.take(0) =~= Seq::empty());
        assert(automatic_count(wanted.take(0)) == 0);
    }
    assert(wanted.take(i + 1).drop_last() =~= wanted.take(i));
    lemma_no_automatic_ids(wanted, i + 1, j);
    assert(wanted.take(wanted.len() as int) =~= wanted);
}

proof fn lemma_no_automatic_ids(wanted: Seq<Option<u64>>, i: int, j: int)
    requires
        0 <= i <= j <= wanted.len(),
        forall|k: int| i <= k < j ==> (#[trigger] wanted[k]) is Some,
    ensures
        automatic_count(wanted.take(i)) == automatic_count(wanted.take(j)),
    decreases j - i,
{
    if i < j {
        lemma_no_automatic_ids(wanted, i, j - 1);
        assert(wanted.take(j).drop_last() =~= wanted.take(j - 1));
        assert(wanted[j - 1] is Some);
    }
}

/// Messages that all ask for an identifier leave the sequence as it is.
pub proof fn law_wanted_ids_leave_the_sequence(wanted: Seq<Option<u64>>, sequence: u64)
    requires
        forall|k: int| 0 <= k < wanted.len() ==> (#[trigger] wanted[k]) is Some,
    ensures
        next_sequence(wanted, sequence) == sequence,
{
    lemma_no_automatic_ids(wanted, 0, wanted.len() as int);
    assert(wanted.take(0) =~= Seq::empty());
    assert(automatic_count(wanted.take(0)) == 0);
    assert(wanted.take(wanted.len() as int) =~= wanted);
}

/// Two batches that are published one after the other get the identifiers that one batch of all
/// their messages gets.
pub proof fn law_batches_can_be_joined(
    first: Seq<Option<u64>>,
    second: Seq<Option<u64>>,
    sequence: u64,
    i: int,
)
    requires
        0 <= i < first.len() + second.len(),
    ensures
        publishing_id(first + second, sequence, i) == (if i < first.len() {
            publishing_id(first, sequence, i)
        } else {
            publishing_id(second, next_sequence(first, sequence), i - first.len())
        }),
        next_sequence(first + second, sequence) == next_sequence(
            second,
            next_sequence(first, sequence),
        ),
{
    let all = first + second;
    if i < first.len() {
        assert(all.take(i) =~= first.take(i));
    } else {
        assert(all.take(i) =~= first + second.take(i - first.len()));
        lemma_automatic_count_joined(first, second.take(i - first.len()));
    }
    lemma_automatic_count_joined(first, second);
}

/// A request that publishes data holds the data, the filter value and the identifier of each message
/// in the order of the messages, with their publisher and their version.
pub proof fn law_requests_carry_the_messages(
    request: Request,
    publication: Publication<Vec<u8>>,
    publisher_id: u8,
    messages: Seq<ClientMessage<Vec<u8>>>,
    version: u16,
    sequence: u64,
)
    requires
        publishes(publication, publisher_id, messages, version, sequence),
        is_publish(request, publication),
    ensures
        request matches Request::Publish { publisher_id: publisher, messages: sent, version: given }
            && publisher == publisher_id && given == version && sent@.len() == messages.len() && (
        forall|i: int|
            0 <= i < messages.len() ==> (#[trigger] sent@[i]).data == messages[i].message
                && sent@[i].filter_value == messages[i].filter_value && sent@[i].publishing_id
                == publication.ids@[i]),
{
    let sent = request->Publish_messages@;
    assert forall|i: int| 0 <= i < messages.len() implies (#[trigger] sent[i]).data
        == messages[i].message && sent[i].filter_value == messages[i].filter_value
        && sent[i].publishing_id == publication.ids@[i] by {
        assert(publication.published@[i].message == messages[i].message);
    }
}

/// The identifiers that messages ask for are their own, in their order.
pub proof fn law_wanted_ids_are_those_of_the_messages<M>(messages: Seq<ClientMessage<M>>, i: int)
    requires
        0 <= i < messages.len(),
    ensures
        wanted_ids(messages).len() == messages.len(),
        wanted_ids(messages)[i] == messages[i].publishing_id,
{
}

/// Of the published messages that ask for no identifier each gets the number after that of the one
/// before it, where the sequence starts over after the largest number.
pub proof fn law_published_ids_are_consecutive<M>(
    publication: Publication<M>,
    publisher_id: u8,
    messages: Seq<ClientMessage<M>>,
    version: u16,
    sequence: u64,
    i: int,
    j: int,
)
    requires
        publishes(publication, publisher_id, messages, version, sequence),
        0 <= i < j < messages.len(),
        messages[i].publishing_id is None,
        messages[j].publishing_id is None,
        forall|k: int| i < k < j ==> (#[trigger] messages[k]).publishing_id is Some,
    ensures
        publication.published@[j].publishing_id == (if publication.published@[i].publishing_id
            == u64::MAX {
            0
        } else {
            publication.published@[i].publishing_id + 1
        }),
{
    let wanted = wanted_ids(messages);
    assert forall|k: int| i < k < j implies (#[trigger] wanted[k]) is Some by {
        assert(messages[k].publishing_id is Some);
    }
    law_automatic_ids_are_consecutive(wanted, sequence, i, j);
    assert(publication.published@[i].publishing_id == publishing_id(wanted, sequence, i));
    assert(publication.published@[j].publishing_id == publishing_id(wanted, sequence, j));
}

/// The first published message that asks for no identifier gets the next of the sequence, and the
/// sequence goes on with the number after the last one that a message got.
pub proof fn law_the_sequence_goes_on<M>(
    publication: Publication<M>,
    publisher_id: u8,
    messages: Seq<ClientMessage<M>>,
    version: u16,
    sequence: u64,
    i: int,
)
    requires
        publishes(publication, publisher_id, messages, version, sequence),
        0 <= i < messages.len(),
        messages[i].publishing_id is None,
    ensures
        (forall|k: int| 0 <= k < i ==> (#[trigger] messages[k]).publishing_id is Some)
            ==> publication.published@[i].publishing_id == sequence,
        (forall|k: int| i < k < messages.len() ==> (#[trigger] messages[k]).publishing_id is Some)
            ==> next_sequence(wanted_ids(messages), sequence) == (
        if publication.published@[i].publishing_id == u64::MAX {
            0
        } else {
            publication.published@[i].publishing_id + 1
        }),
{
    let wanted = wanted_ids(messages);
    assert(publication.published@[i].publishing_id == publishing_id(wanted, sequence, i));
    if forall|k: int| 0 <= k < i ==> (#[trigger] messages[k]).publishing_id is Some {
        assert forall|k: int| 0 <= k < i implies (#[trigger] wanted[k]) is Some by {
            assert(messages[k].publishing_id is Some);
        }
        law_automatic_ids_are_consecutive(wanted, sequence, i, i + 1);
    }
    if forall|k: int| i < k < messages.len() ==> (#[trigger] messages[k]).publishing_id is Some {
        assert forall|k: int| i < k < wanted.len() implies (#[trigger] wanted[k]) is Some by {
            assert(messages[k].publishing_id is Some);
        }
        law_automatic_ids_are_consecutive(wanted, sequence, i, wanted.len() as int);
    }
}

/// Each message of a publication holds what it was made with, and the request that is made of it holds
/// the same: the data, the filter value and the identifier of every message, in their order.
pub proof fn law_publications_become_requests(
    publisher_id: u8,
    messages: Vec<ClientMessage<Vec<u8>>>,
    version: u16,
    sequence: u64,
    made: (Publication<Vec<u8>>, u64),
    request: Request,
    i: int,
)
    requires
        call_ensures(
            publication_of::<Vec<u8>>,
            (publisher_id, messages, version, sequence),
            made,
        ),
        call_ensures(Publication::<Vec<u8>>::into_request, (made.0,), request),
        0 <= i < messages@.len(),
    ensures
        request is Publish,
        request->Publish_publisher_id == publisher_id,
        request->version == version,
        request->messages@.len() == messages@.len(),
        request->messages@[i].data == messages@[i].message,
        request->messages@[i].filter_value == messages@[i].filter_value,
        messages@[i].publishing_id matches Some(id) ==> request->messages@[i].publishing_id == id,
        messages@[i].publishing_id is None && i == 0 ==> request->messages@[i].publishing_id
            == sequence,
        request->messages@[i].publishing_id == made.0.ids@[i],
{
    law_requests_carry_the_messages(request, made.0, publisher_id, messages@, version, sequence);
    law_messages_are_published_unchanged(
        made.0,
        publisher_id,
        messages@,
        version,
        sequence,
        i,
    );
    assert(request->messages@[i].data == messages@[i].message);
    if messages@[i].publishing_id is None && i == 0 {
        law_the_sequence_goes_on(made.0, publisher_id, messages@, version, sequence, i);
    }
}

/// Two batches that are published one after the other get the identifiers that one batch of all their
/// messages gets, and leave the same sequence.
pub proof fn law_assigned_ids_go_on(
    first: Vec<Option<u64>>,
    second: Vec<Option<u64>>,
    all: Vec<Option<u64>>,
    sequence: u64,
    one: (Vec<u64>, u64),
    two: (Vec<u64>, u64),
    both: (Vec<u64>, u64),
)
    requires
        all@ == first@ + second@,
        call_ensures(assign_ids, (&first, sequence), one),
        call_ensures(assign_ids, (&second, one.1), two),
        call_ensures(assign_ids, (&all, sequence), both),
    ensures
        both.0@ == one.0@ + two.0@,
        both.1 == two.1,
{
    assert forall|i: int| 0 <= i < all@.len() implies both.0@[i] == (one.0@ + two.0@)[i] by {
        law_batches_can_be_joined(first@, second@, sequence, i);
        assert(both.0@[i] == publishing_id(all@, sequence, i));
        if i < first@.len() {
            assert(one.0@[i] == publishing_id(first@, sequence, i));
        } else {
            assert(two.0@[i - first@.len()] == publishing_id(second@, one.1, i - first@.len()));
        }
    }
    assert(both.0@ =~= one.0@ + two.0@);
    if all@.len() > 0 {
        law_batches_can_be_joined(first@, second@, sequence, 0);
    } else {
        assert(all@ =~= first@);
        assert(second@ =~= Seq::empty());
        law_wanted_ids_leave_the_sequence(first@, sequence);
        law_wanted_ids_leave_the_sequence(second@, one.1);
    }
}

} // verus!
