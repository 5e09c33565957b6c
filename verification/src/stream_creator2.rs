//! The creation of streams and super streams.

use crate::client2::{submitted, Client2, CloseReason, RawClient, Submission};
use crate::error::{ClientError, RabbitMQStreamResult, StreamCreateError};
use crate::options::ClientOptions;
use crate::properties::Properties;
use crate::receive::answered;
use crate::request::{is_create_stream, is_create_super_stream, Request};
use crate::response::{GenericResponse, Response, ResponseCode, ResponseKind};
use crate::text::{
    are_digits, decimal, decimal_text, law_decimal_is_read_back, lemma_decimal_injective, number_of,
};
use vstd::prelude::*;

verus! {

/// What clients are made from.
#[derive(Debug)]
pub struct Environment2 {
    pub client_options: ClientOptions,
}

/// A number of bytes.
#[derive(Clone, Copy, Debug, PartialEq, Eq, Structural)]
pub struct ByteCapacity {
    pub count: u64,
}

impl ByteCapacity {
    /// Returns the number of bytes.
    pub fn bytes(&self) -> (bytes: u64)
        ensures
            bytes == self.count,
    {
        self.count
    }
}

/// How the server places the leader of a stream.
#[derive(Clone, Copy, Debug, PartialEq, Eq, Structural)]
pub enum LeaderLocator {
    ClientLocal,
    Random,
    LeastLeaders,
}

impl LeaderLocator {
    /// The name of the placement in the options of a stream.
    pub open spec fn name(self) -> Seq<char> {
        match self {
            LeaderLocator::ClientLocal => "client-local"@,
            LeaderLocator::Random => "random"@,
            LeaderLocator::LeastLeaders => "least-leaders"@,
        }
    }

    /// Returns the name of the placement in the options of a stream.
    pub fn as_ref(&self) -> (name: &'static str)
        ensures
            name@ == self.name(),
    {
        match self {
            LeaderLocator::ClientLocal => "client-local",
            LeaderLocator::Random => "random",
            LeaderLocator::LeastLeaders => "least-leaders",
        }
    }
}

/// The options of a stream with the given maximal age.
pub open spec fn with_max_age(
    options: Map<Seq<char>, Seq<char>>,
    seconds: u64,
) -> Map<Seq<char>, Seq<char>> {
    options.insert("max-age"@, decimal(seconds as nat) + "s"@)
}

/// The options of a stream with the given placement of the leader.
pub open spec fn with_leader_locator(
    options: Map<Seq<char>, Seq<char>>,
    leader_locator: LeaderLocator,
) -> Map<Seq<char>, Seq<char>> {
    options.insert("queue-leader-locator"@, leader_locator.name())
}

/// The options of a stream with the given maximal length.
pub open spec fn with_max_length(
    options: Map<Seq<char>, Seq<char>>,
    capacity: ByteCapacity,
) -> Map<Seq<char>, Seq<char>> {
    options.insert("max-length-bytes"@, decimal(capacity.count as nat))
}

/// The options of a stream with the given maximal size of a segment.
pub open spec fn with_max_segment_size(
    options: Map<Seq<char>, Seq<char>>,
    capacity: ByteCapacity,
) -> Map<Seq<char>, Seq<char>> {
    options.insert("stream-max-segment-size-bytes"@, decimal(capacity.count as nat))
}

/// Builder for creating a stream.
#[derive(Debug)]
pub struct StreamCreator2 {
    pub env: Environment2,
    pub options: Properties,
}

impl StreamCreator2 {
    /// Returns a creator whose streams have their leader on the broker with the least leaders.
    pub fn new(env: Environment2) -> (creator: StreamCreator2)
        ensures
            creator.env == env,
            creator.options@ == with_leader_locator(Map::empty(), LeaderLocator::LeastLeaders),
    {
        let creator = StreamCreator2 { env, options: Properties::new() };
        creator.leader_locator(LeaderLocator::LeastLeaders)
    }

    /// Sets the maximal age, in seconds, of the messages of the stream.
    pub fn max_age(self, max_age_secs: u64) -> (creator: StreamCreator2)
        ensures
            creator.env == self.env,
            creator.options@ == with_max_age(self.options@, max_age_secs),
    {
        let mut text = decimal_text(max_age_secs);
        text.append("s");
        StreamCreator2 { env: self.env, options: self.options.insert("max-age".to_owned(), text) }
    }

    /// Sets where the leader of the stream is placed.
    pub fn leader_locator(self, leader_locator: LeaderLocator) -> (creator: StreamCreator2)
        ensures
            creator.env == self.env,
            creator.options@ == with_leader_locator(self.options@, leader_locator),
    {
        let name = leader_locator.as_ref().to_owned();
        StreamCreator2 {
            env: self.env,
            options: self.options.insert("queue-leader-locator".to_owned(), name),
        }
    }

    /// Sets the maximal length of the stream.
    pub fn max_length(self, byte_capacity: ByteCapacity) -> (creator: StreamCreator2)
        ensures
            creator.env == self.env,
            creator.options@ == with_max_length(self.options@, byte_capacity),
    {
        let text = decimal_text(byte_capacity.bytes());
        StreamCreator2 {
            env: self.env,
            options: self.options.insert("max-length-bytes".to_owned(), text),
        }
    }

    /// Sets the maximal size of a segment of the stream.
    pub fn max_segment_size(self, byte_capacity: ByteCapacity) -> (creator: StreamCreator2)
        ensures
            creator.env == self.env,
            creator.options@ == with_max_segment_size(self.options@, byte_capacity),
    {
        let text = decimal_text(byte_capacity.bytes());
        StreamCreator2 {
            env: self.env,
            options: self.options.insert("stream-max-segment-size-bytes".to_owned(), text),
        }
    }

    /// Creates a stream through a client that was made for it: returns the request, for whose
    /// answer `waiter` waits.
    pub fn create(
        self,
        stream: &str,
        client: RabbitMQStreamResult<Client2>,
        waiter: u64,
    ) -> (begun: Result<(StreamCreation, Request), StreamCreateError>)
        ensures
            match (client, begun) {
                (Err(failure), Err(error)) => error == StreamCreateError::Client(failure),
                (Err(_), Ok(_)) => false,
                (Ok(made), Err(error)) => made.is_shut() && error == StreamCreateError::Client(
                    ClientError::ConnectionClosed,
                ),
                (Ok(made), Ok((creation, request))) => !made.is_shut() && creation.continues(
                    made,
                    waiter,
                    request,
                ) && creation.stream@ == stream@ && !creation.strict && is_create_stream(
                    request,
                    made.correlation_id,
                    stream@,
                    self.options,
                ),
            },
    {
        let mut client = match client {
            Ok(made) => made,
            Err(failure) => return Err(StreamCreateError::Client(failure)),
        };
        let submission = client.create_stream(waiter, stream, self.options);
        match submission.request {
            Err(error) => Err(StreamCreateError::Client(error)),
            Ok(request) => Ok(
                (
                    StreamCreation {
                        stream: stream.to_owned(),
                        client,
                        replaced: submission.replaced,
                        strict: false,
                    },
                    request,
                ),
            ),
        }
    }

    /// Creates a super stream through a client that was made for it: returns the request, for
    /// whose answer `waiter` waits. Each binding key gets a partition; without keys there are as
    /// many partitions as asked for, and the keys are their numbers.
    pub fn create_super_stream(
        self,
        super_stream: &str,
        number_of_partitions: usize,
        binding_keys: Option<Vec<String>>,
        client: RabbitMQStreamResult<Client2>,
        waiter: u64,
    ) -> (begun: Result<(StreamCreation, Request), StreamCreateError>)
        ensures
            match (client, begun) {
                (Err(failure), Err(error)) => error == StreamCreateError::Client(failure),
                (Err(_), Ok(_)) => false,
                (Ok(made), Err(error)) => made.is_shut() && error == StreamCreateError::Client(
                    ClientError::ConnectionClosed,
                ),
                (Ok(made), Ok((creation, request))) => !made.is_shut() && creation.continues(
                    made,
                    waiter,
                    request,
                ) && creation.stream@ == super_stream@ && creation.strict && (exists|
                    names: Vec<String>,
                    keys: Vec<String>,
                | #[trigger]
                    is_create_super_stream(
                        request,
                        made.correlation_id,
                        super_stream@,
                        names,
                        keys,
                        self.options,
                    ) && are_partitions(
                        names@,
                        keys@,
                        super_stream@,
                        number_of_partitions as nat,
                        binding_keys,
                    )),
            },
    {
        let (names, keys) = partitions_of(super_stream, number_of_partitions, binding_keys);
        let mut client = match client {
            Ok(made) => made,
            Err(failure) => return Err(StreamCreateError::Client(failure)),
        };
        let submission = client.create_super_stream(
            waiter,
            super_stream,
            names,
            keys,
            self.options,
        );
        match submission.request {
            Err(error) => Err(StreamCreateError::Client(error)),
            Ok(request) => Ok(
                (
                    StreamCreation {
                        stream: super_stream.to_owned(),
                        client,
                        replaced: submission.replaced,
                        strict: true,
                    },
                    request,
                ),
            ),
        }
    }
}

/// The name of the partition of a super stream with the given binding key.
pub open spec fn partition_name(super_stream: Seq<char>, key: Seq<char>) -> Seq<char> {
    super_stream + "-"@ + key
}

/// Whether these are the partitions of a super stream and their binding keys.
pub open spec fn are_partitions(
    names: Seq<String>,
    keys: Seq<String>,
    super_stream: Seq<char>,
    count: nat,
    binding_keys: Option<Vec<String>>,
) -> bool {
    &&& match binding_keys {
        Some(given) => keys == given@,
        None => keys.len() == count && forall|i: int|
            0 <= i < count ==> (#[trigger] keys[i])@ == decimal(i as nat),
    }
    &&& names.len() == keys.len()
    &&& forall|i: int|
        0 <= i < names.len() ==> (#[trigger] names[i])@ == partition_name(super_stream, keys[i]@)
}

/// Returns the numbers below `count`, as text.
fn numbered_keys(count: usize) -> (keys: Vec<String>)
    ensures
        keys@.len() == count,
        forall|i: int| 0 <= i < count ==> (#[trigger] keys@[i])@ == decimal(i as nat),
{
    let mut keys: Vec<String> = Vec::new();
    let mut i: usize = 0;
    while i < count
        invariant
            i <= count,
            keys@.len() == i,
            forall|j: int| 0 <= j < i ==> (#[trigger] keys@[j])@ == decimal(j as nat),
        decreases count - i,
    {
        keys.push(decimal_text(i as u64));
        i = i + 1;
    }
    keys
}

/// Returns the partitions of a super stream and their binding keys.
pub fn partitions_of(
    super_stream: &str,
    number_of_partitions: usize,
    binding_keys: Option<Vec<String>>,
) -> (partitions: (Vec<String>, Vec<String>))
    ensures
        are_partitions(
            partitions.0@,
            partitions.1@,
            super_stream@,
            number_of_partitions as nat,
            binding_keys,
        ),
{
    let keys = match binding_keys {
        Some(given) => given,
        None => numbered_keys(number_of_partitions),
    };
    let mut names: Vec<String> = Vec::new();
    let mut i: usize = 0;
    while i < keys.len()
        invariant
            i <= keys.len(),
            names@.len() == i,
            forall|j: int|
                0 <= j < i ==> (#[trigger] names@[j])@ == partition_name(super_stream@, keys@[j]@),
        decreases keys.len() - i,
    {
        let mut name = super_stream.to_owned();
        name.append("-");
        name.append(keys[i].as_str());
        names.push(name);
        i = i + 1;
    }
    (names, keys)
}

/// A stream that the server has been asked to create.
#[derive(Debug)]
pub struct StreamCreation {
    pub stream: String,
    pub client: Client2,
    /// One who waited for an answer with the same identifier, and will not get it.
    pub replaced: Option<u64>,
    /// Whether the creation fails if the client cannot be closed.
    pub strict: bool,
}

/// A stream that the server has created or refused to create, and whose client is being closed.
#[derive(Debug)]
pub struct StreamClosing {
    pub stream: String,
    pub response: GenericResponse,
    pub client: Client2,
    /// Whether the client was open until now; only in that case its transport is to be closed.
    pub closed: RabbitMQStreamResult<()>,
    pub strict: bool,
}

impl StreamCreation {
    /// Whether the client is the one that was made, with `waiter` registered for the answer.
    pub open spec fn continues(self, made: Client2, waiter: u64, request: Request) -> bool {
        submitted(
            made,
            self.client,
            waiter,
            Submission { request: Ok(request), replaced: self.replaced },
        )
    }

    /// Takes the answer of the server and closes the client.
    pub fn answered(self, answer: Option<Response>) -> (
        result: Result<StreamClosing, StreamCreateError>
    )
        ensures
            match result {
                Ok(closing) => {
                    &&& answered::<GenericResponse>(
                        answer,
                        Ok(closing.response),
                        ClientError::ConnectionClosed,
                        ""@,
                    )
                    &&& closing.stream == self.stream
                    &&& closing.strict == self.strict
                    &&& closing.closed == self.client.raw_client.state.close_result()
                    &&& closing.client == (Client2 {
                        raw_client: RawClient {
                            state: self.client.raw_client.state.after_close(CloseReason::User),
                            ..self.client.raw_client
                        },
                        ..self.client
                    })
                },
                Err(StreamCreateError::Client(error)) => answered::<GenericResponse>(
                    answer,
                    Err(error),
                    ClientError::ConnectionClosed,
                    ""@,
                ),
                Err(_) => false,
            },
    {
        match Client2::receive_answer::<GenericResponse>(answer) {
            Err(error) => Err(StreamCreateError::Client(error)),
            Ok(response) => {
                let mut client = self.client;
                let closed = client.close();
                Ok(
                    StreamClosing {
                        stream: self.stream,
                        response,
                        client,
                        closed,
                        strict: self.strict,
                    },
                )
            },
        }
    }
}

/// Why the client was not closed, if it was not: it was closed already, or its transport failed.
pub open spec fn close_failure(
    closed: RabbitMQStreamResult<()>,
    transport: RabbitMQStreamResult<()>,
) -> Option<ClientError> {
    match (closed, transport) {
        (Err(error), _) => Some(error),
        (Ok(_), Err(error)) => Some(error),
        (Ok(_), Ok(_)) => None,
    }
}

/// What the creation of a stream comes to.
pub open spec fn creation_result(
    stream: Seq<char>,
    code: ResponseCode,
    failure: Option<ClientError>,
    strict: bool,
    result: Result<(), StreamCreateError>,
) -> bool {
    if strict && failure is Some {
        result == Err::<(), StreamCreateError>(StreamCreateError::Client(failure->0))
    } else if code == ResponseCode::Success {
        result is Ok
    } else {
        match result {
            Err(
                StreamCreateError::Create { stream: refused, status },
            ) => refused@ == stream && status
                == code,
            _ => false,
        }
    }
}

impl StreamClosing {
    /// Returns what the creation of the stream comes to; `transport` tells how closing the
    /// transport of the client ended.
    pub fn finish(
        self,
        transport: RabbitMQStreamResult<()>,
    ) -> (result: Result<(), StreamCreateError>)
        ensures
            creation_result(
                self.stream@,
                self.response.code,
                close_failure(self.closed, transport),
                self.strict,
                result,
            ),
    {
        let closed = match self.closed {
            Ok(_) => transport,
            Err(error) => Err(error),
        };
        if self.strict {
            if let Err(error) = closed {
                return Err(StreamCreateError::Client(error));
            }
        }
        if self.response.is_ok() {
            Ok(())
        } else {
            Err(StreamCreateError::Create { stream: self.stream, status: self.response.code() })
        }
    }
}

/// Different settings of a stream do not disturb each other: their order does not matter.
pub proof fn law_settings_commute(
    options: Map<Seq<char>, Seq<char>>,
    seconds: u64,
    leader_locator: LeaderLocator,
    length: ByteCapacity,
    segment: ByteCapacity,
)
    ensures
        with_max_age(with_leader_locator(options, leader_locator), seconds) == with_leader_locator(
            with_max_age(options, seconds),
            leader_locator,
        ),
        with_max_age(with_max_length(options, length), seconds) == with_max_length(
            with_max_age(options, seconds),
            length,
        ),
        with_max_age(with_max_segment_size(options, segment), seconds) == with_max_segment_size(
            with_max_age(options, seconds),
            segment,
        ),
        with_leader_locator(with_max_length(options, length), leader_locator) == with_max_length(
            with_leader_locator(options, leader_locator),
            length,
        ),
        with_leader_locator(with_max_segment_size(options, segment), leader_locator)
            == with_max_segment_size(with_leader_locator(options, leader_locator), segment),
        with_max_length(with_max_segment_size(options, segment), length) == with_max_segment_size(
            with_max_length(options, length),
            segment,
        ),
{
    reveal_strlit("max-age");
    reveal_strlit("queue-leader-locator");
    reveal_strlit("max-length-bytes");
    reveal_strlit("stream-max-segment-size-bytes");
    assert("max-age"@.len() == 7);
    assert("queue-leader-locator"@.len() == 20);
    assert("max-length-bytes"@.len() == 16);
    assert("stream-max-segment-size-bytes"@.len() == 29);
}

/// Of several values for the same setting the last one counts.
pub proof fn law_last_setting_counts(
    options: Map<Seq<char>, Seq<char>>,
    seconds: (u64, u64),
    leader_locator: (LeaderLocator, LeaderLocator),
    length: (ByteCapacity, ByteCapacity),
    segment: (ByteCapacity, ByteCapacity),
)
    ensures
        with_max_age(
            with_max_age(options, seconds.0),
            seconds.1,
        ) == with_max_age(options, seconds.1),
        with_leader_locator(with_leader_locator(options, leader_locator.0), leader_locator.1)
            == with_leader_locator(options, leader_locator.1),
        with_max_length(with_max_length(options, length.0), length.1) == with_max_length(
            options,
            length.1,
        ),
        with_max_segment_size(with_max_segment_size(options, segment.0), segment.1)
            == with_max_segment_size(options, segment.1),
{
}

/// The partitions of a super stream have different names if their binding keys differ, as the
/// keys do that the partitions get by default.
pub proof fn law_partitions_differ(
    names: Seq<String>,
    keys: Seq<String>,
    super_stream: Seq<char>,
    count: nat,
    binding_keys: Option<Vec<String>>,
    i: int,
    j: int,
)
    requires
        are_partitions(names, keys, super_stream, count, binding_keys),
        0 <= i < j < names.len(),
    ensures
        keys[i]@ != keys[j]@ ==> names[i]@ != names[j]@,
        binding_keys is None ==> keys[i]@ != keys[j]@ && names[i]@ != names[j]@,
{
    reveal_strlit("-");
    let start = super_stream.len() + 1;
    assert(names[i]@.skip(start as int) =~= keys[i]@);
    assert(names[j]@.skip(start as int) =~= keys[j]@);
    if binding_keys is None && keys[i]@ == keys[j]@ {
        lemma_decimal_injective(i as nat, j as nat);
    }
}

/// The maximal age in the options is the age that was set, in seconds: its digits give back the
/// number, whatever it is, and `s` comes after them. Every other option stays as it was.
pub proof fn law_max_age_is_kept(
    options: Map<Seq<char>, Seq<char>>,
    seconds: u64,
    other: Seq<char>,
)
    ensures
        ({
            let after = with_max_age(options, seconds);
            let value = after["max-age"@];
            &&& after.contains_key("max-age"@)
            &&& value.len() > 1
            &&& value.last() == 's'
            &&& are_digits(value.drop_last())
            &&& number_of(value.drop_last()) == seconds
            &&& other != "max-age"@ ==> after.contains_key(other) == options.contains_key(other)
            &&& other != "max-age"@ && options.contains_key(other) ==> after[other] == options[other]
        }),
{
    reveal_strlit("s");
    law_decimal_is_read_back(seconds as nat);
    assert((decimal(seconds as nat) + "s"@).drop_last() =~= decimal(seconds as nat));
}

/// The maximal length in the options is the number of bytes that was set: its digits give back the
/// number, whatever it is. Every other option stays as it was.
pub proof fn law_max_length_is_kept(
    options: Map<Seq<char>, Seq<char>>,
    capacity: ByteCapacity,
    other: Seq<char>,
)
    ensures
        ({
            let after = with_max_length(options, capacity);
            let value = after["max-length-bytes"@];
            &&& after.contains_key("max-length-bytes"@)
            &&& are_digits(value)
            &&& number_of(value) == capacity.count
            &&& other != "max-length-bytes"@ ==> after.contains_key(other) == options.contains_key(
                other,
            )
            &&& other != "max-length-bytes"@ && options.contains_key(other) ==> after[other]
                == options[other]
        }),
{
    law_decimal_is_read_back(capacity.count as nat);
}

/// The maximal size of a segment in the options is the number of bytes that was set: its digits
/// give back the number, whatever it is. Every other option stays as it was.
pub proof fn law_max_segment_size_is_kept(
    options: Map<Seq<char>, Seq<char>>,
    capacity: ByteCapacity,
    other: Seq<char>,
)
    ensures
        ({
            let after = with_max_segment_size(options, capacity);
            let value = after["stream-max-segment-size-bytes"@];
            &&& after.contains_key("stream-max-segment-size-bytes"@)
            &&& are_digits(value)
            &&& number_of(value) == capacity.count
            &&& other != "stream-max-segment-size-bytes"@ ==> after.contains_key(other)
                == options.contains_key(other)
            &&& other != "stream-max-segment-size-bytes"@ && options.contains_key(other)
                ==> after[other] == options[other]
        }),
{
    law_decimal_is_read_back(capacity.count as nat);
}

/// The placement of the leader in the options tells which placement was set: each has a name of
/// its own. Every other option stays as it was.
pub proof fn law_leader_locator_is_kept(
    options: Map<Seq<char>, Seq<char>>,
    leader_locator: LeaderLocator,
    other: Seq<char>,
)
    ensures
        ({
            let after = with_leader_locator(options, leader_locator);
            let value = after["queue-leader-locator"@];
            &&& after.contains_key("queue-leader-locator"@)
            &&& value == "client-local"@ <==> leader_locator is ClientLocal
            &&& value == "random"@ <==> leader_locator is Random
            &&& value == "least-leaders"@ <==> leader_locator is LeastLeaders
            &&& other != "queue-leader-locator"@ ==> after.contains_key(other)
                == options.contains_key(other)
            &&& other != "queue-leader-locator"@ && options.contains_key(other) ==> after[other]
                == options[other]
        }),
{
    reveal_strlit("client-local");
    reveal_strlit("random");
    reveal_strlit("least-leaders");
    assert("client-local"@.len() == 12);
    assert("random"@.len() == 6);
    assert("least-leaders"@.len() == 13);
}

/// A super stream has a partition for each binding key that is given, or as many as are asked for.
/// The keys are those that were given, or else the numbers from zero on. The name of a partition
/// is the name of the super stream, a hyphen and the key.
pub proof fn law_partitions_are_named_by_their_keys(
    names: Seq<String>,
    keys: Seq<String>,
    super_stream: Seq<char>,
    count: nat,
    binding_keys: Option<Vec<String>>,
    i: int,
)
    requires
        are_partitions(names, keys, super_stream, count, binding_keys),
        0 <= i < names.len(),
    ensures
        keys.len() == names.len(),
        binding_keys matches Some(given) ==> names.len() == given@.len() && keys[i] == given@[i],
        binding_keys is None ==> names.len() == count && are_digits(keys[i]@) && number_of(
            keys[i]@,
        ) == i,
        names[i]@.len() == super_stream.len() + 1 + keys[i]@.len(),
        names[i]@.take(super_stream.len() as int) == super_stream,
        names[i]@[super_stream.len() as int] == '-',
        names[i]@.skip(super_stream.len() as int + 1) == keys[i]@,
{
    reveal_strlit("-");
    law_decimal_is_read_back(i as nat);
}

/// A super stream has as many partitions as there are keys, or as are asked for, even if that is
/// none.
pub proof fn law_partitions_are_counted(
    names: Seq<String>,
    keys: Seq<String>,
    super_stream: Seq<char>,
    count: nat,
    binding_keys: Option<Vec<String>>,
)
    requires
        are_partitions(names, keys, super_stream, count, binding_keys),
    ensures
        binding_keys matches Some(given) ==> names.len() == given@.len() && keys.len()
            == given@.len(),
        binding_keys is None ==> names.len() == count && keys.len() == count,
{
}

/// A stream that the server created is reported as created, and one that it refused with its name
/// and the reason of the server, whatever the reason is. That the client could not be closed matters
/// to a super stream only, where it is the reported error, whatever the server answered.
pub proof fn law_creation_is_reported(
    stream: Seq<char>,
    code: ResponseCode,
    closed: RabbitMQStreamResult<()>,
    transport: RabbitMQStreamResult<()>,
    strict: bool,
    result: Result<(), StreamCreateError>,
)
    requires
        creation_result(stream, code, close_failure(closed, transport), strict, result),
    ensures
        result is Ok <==> code is Success && (strict ==> closed is Ok && transport is Ok),
        !strict && !(code is Success) ==> (result matches Err(
            StreamCreateError::Create { stream: refused, status },
        ) && refused@ == stream && status == code),
        closed is Ok && transport is Ok && !(code is Success) ==> (result matches Err(
            StreamCreateError::Create { stream: refused, status },
        ) && refused@ == stream && status == code),
        strict ==> (closed matches Err(error) ==> result == Err::<(), StreamCreateError>(
            StreamCreateError::Client(error),
        )),
        strict && closed is Ok ==> (transport matches Err(error) ==> result == Err::<
            (),
            StreamCreateError,
        >(StreamCreateError::Client(error))),
{
}

/// A stream that is being created waits for the answer to the request that was made for it: the one
/// who waits is registered under the identifier of the request, and the client is otherwise the one
/// that was made.
pub proof fn law_creation_waits_for_its_answer(
    creation: StreamCreation,
    made: Client2,
    waiter: u64,
    request: Request,
)
    requires
        creation.continues(made, waiter, request),
    ensures
        !made.raw_client.state.request_sender.closed,
        creation.client.pending().contains_key(made.correlation_id),
        creation.client.pending()[made.correlation_id] == waiter,
        creation.replaced == (if made.pending().contains_key(made.correlation_id) {
            Some(made.pending()[made.correlation_id])
        } else {
            None
        }),
        creation.client.raw_client == made.raw_client,
        creation.client.handler == made.handler,
        creation.client.publish_sequence == made.publish_sequence,
        forall|id: u32|
            id != made.correlation_id ==> #[trigger] creation.client.pending().contains_key(id)
                == made.pending().contains_key(id),
{
}

/// A creator starts with one option, which asks for the broker with the least leaders.
pub proof fn law_creators_start_with_a_placement(other: Seq<char>)
    ensures
        ({
            let options = with_leader_locator(Map::empty(), LeaderLocator::LeastLeaders);
            &&& options["queue-leader-locator"@] == "least-leaders"@
            &&& options.contains_key(other) <==> other == "queue-leader-locator"@
        }),
{
}

/// Each setting of a creator is in its options as it was set, and the other options stay: an age is
/// given back in seconds, a length and a size in bytes, whatever they are, and a placement by its
/// name.
pub proof fn law_creators_keep_their_settings(
    creator: StreamCreator2,
    seconds: u64,
    length: ByteCapacity,
    segment: ByteCapacity,
    leader_locator: LeaderLocator,
    made: (StreamCreator2, StreamCreator2, StreamCreator2, StreamCreator2),
)
    requires
        call_ensures(StreamCreator2::max_age, (creator, seconds), made.0),
        call_ensures(StreamCreator2::max_length, (creator, length), made.1),
        call_ensures(StreamCreator2::max_segment_size, (creator, segment), made.2),
        call_ensures(StreamCreator2::leader_locator, (creator, leader_locator), made.3),
    ensures
        made.0.env == creator.env,
        made.1.env == creator.env,
        made.2.env == creator.env,
        made.3.env == creator.env,
        made.0.options@["max-age"@].last() == 's',
        number_of(made.0.options@["max-age"@].drop_last()) == seconds,
        number_of(made.1.options@["max-length-bytes"@]) == length.count,
        number_of(made.2.options@["stream-max-segment-size-bytes"@]) == segment.count,
        made.3.options@["queue-leader-locator"@] == (match leader_locator {
            LeaderLocator::ClientLocal => "client-local"@,
            LeaderLocator::Random => "random"@,
            LeaderLocator::LeastLeaders => "least-leaders"@,
        }),
        made.0.options@.remove("max-age"@) == creator.options@.remove("max-age"@),
        made.1.options@.remove("max-length-bytes"@) == creator.options@.remove("max-length-bytes"@),
        made.2.options@.remove("stream-max-segment-size-bytes"@) == creator.options@.remove(
            "stream-max-segment-size-bytes"@,
        ),
        made.3.options@.remove("queue-leader-locator"@) == creator.options@.remove(
            "queue-leader-locator"@,
        ),
{
    law_max_age_is_kept(creator.options@, seconds, Seq::empty());
    law_max_length_is_kept(creator.options@, length, Seq::empty());
    law_max_segment_size_is_kept(creator.options@, segment, Seq::empty());
    assert(made.0.options@.remove("max-age"@) =~= creator.options@.remove("max-age"@));
    assert(made.1.options@.remove("max-length-bytes"@) =~= creator.options@.remove(
        "max-length-bytes"@,
    ));
    assert(made.2.options@.remove("stream-max-segment-size-bytes"@) =~= creator.options@.remove(
        "stream-max-segment-size-bytes"@,
    ));
    assert(made.3.options@.remove("queue-leader-locator"@) =~= creator.options@.remove(
        "queue-leader-locator"@,
    ));
}

/// A new creator has the given environment and one option, the placement on the broker with the least
/// leaders.
pub proof fn law_new_creators_place_the_leader(env: Environment2, creator: StreamCreator2)
    requires
        call_ensures(StreamCreator2::new, (env,), creator),
    ensures
        creator.env == env,
        creator.options@ == map!["queue-leader-locator"@ => "least-leaders"@],
{
    assert(creator.options@ =~= map!["queue-leader-locator"@ => "least-leaders"@]);
}

/// A stream is created with the name and the options of its creator, under the identifier of the
/// client's turn, unless there is no client or it is closed.
pub proof fn law_streams_are_created_as_asked(
    creator: StreamCreator2,
    stream: &str,
    client: RabbitMQStreamResult<Client2>,
    waiter: u64,
    begun: Result<(StreamCreation, Request), StreamCreateError>,
)
    requires
        call_ensures(StreamCreator2::create, (creator, stream, client, waiter), begun),
    ensures
        client matches Err(failure) ==> begun == Err::<
            (StreamCreation, Request),
            StreamCreateError,
        >(StreamCreateError::Client(failure)),
        client matches Ok(made) ==> if made.raw_client.state.request_sender.closed {
            begun == Err::<(StreamCreation, Request), StreamCreateError>(
                StreamCreateError::Client(ClientError::ConnectionClosed),
            )
        } else {
            match begun {
                Ok((creation, request)) => {
                    &&& request is CreateStream
                    &&& request->CreateStream_correlation_id == made.correlation_id
                    &&& request->CreateStream_stream@ == stream@
                    &&& request->CreateStream_arguments@ == creator.options@
                    &&& creation.stream@ == stream@
                    &&& creation.client.pending() == made.pending().insert(
                        made.correlation_id,
                        waiter,
                    )
                },
                Err(_) => false,
            }
        },
{
}

/// A super stream is created with the name and the options of its creator and with a partition for
/// each of its keys, under the identifier of the client's turn.
pub proof fn law_super_streams_are_created_as_asked(
    creator: StreamCreator2,
    super_stream: &str,
    number_of_partitions: usize,
    binding_keys: Option<Vec<String>>,
    client: Client2,
    waiter: u64,
    begun: Result<(StreamCreation, Request), StreamCreateError>,
    i: int,
)
    requires
        call_ensures(
            StreamCreator2::create_super_stream,
            (creator, super_stream, number_of_partitions, binding_keys, Ok(client), waiter),
            begun,
        ),
        !client.raw_client.state.request_sender.closed,
    ensures
        match begun {
            Ok((creation, request)) => {
                let names = request->partitions@;
                let keys = request->binding_keys@;
                &&& request is CreateSuperStream
                &&& request->CreateSuperStream_correlation_id == client.correlation_id
                &&& request->CreateSuperStream_super_stream@ == super_stream@
                &&& request->CreateSuperStream_arguments@ == creator.options@
                &&& names.len() == keys.len()
                &&& keys.len() == (match binding_keys {
                    Some(given) => given@.len(),
                    None => number_of_partitions as nat,
                })
                &&& 0 <= i < keys.len() ==> names[i]@ == super_stream@ + "-"@ + keys[i]@
                &&& 0 <= i < keys.len() ==> match binding_keys {
                    Some(given) => keys[i]@ == given@[i]@,
                    None => number_of(keys[i]@) == i,
                }
                &&& creation.stream@ == super_stream@
                &&& creation.client.pending() == client.pending().insert(
                    client.correlation_id,
                    waiter,
                )
            },
            Err(_) => false,
        },
{
    if 0 <= i {
        law_decimal_is_read_back(i as nat);
    }
}

/// What a creation comes to is what the server answered: success, or the refusal with the name of the
/// stream and the reason, whatever it is. The client is closed in either case.
pub proof fn law_creations_end_with_the_answer(
    creation: StreamCreation,
    response: Response,
    body: GenericResponse,
    closing: Result<StreamClosing, StreamCreateError>,
    result: Result<(), StreamCreateError>,
)
    requires
        creation.client.well_formed(),
        creation.client.raw_client.state.close_reason is None,
        response.kind == ResponseKind::Generic(body),
        call_ensures(StreamCreation::answered, (creation, Some(response)), closing),
        closing matches Ok(left) ==> call_ensures(StreamClosing::finish, (left, Ok(())), result),
    ensures
        closing matches Ok(left) && left.client.raw_client.state.request_sender.closed
            && left.client.raw_client.state.close_reason == Some(CloseReason::User)
            && left.stream@ == creation.stream@,
        body.code is Success ==> result is Ok,
        !(body.code is Success) ==> (result matches Err(
            StreamCreateError::Create { stream: refused, status },
        ) && refused@ == creation.stream@ && status == body.code),
{
}

} // verus!
