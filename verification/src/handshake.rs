//! How a connection is opened: the exchange of properties, the sign-in, the limits and the
//! versions of the commands.

use crate::error::ClientError;
use crate::options::{
    client_properties, get_client_properties, law_client_tells_its_name, ClientOptions,
    ConnectionData, COPYRIGHT, INFORMATION, PLATFORM, PRODUCT, VERSION,
};
use crate::properties::Properties;
use crate::receive::{arrived_body, take_body, tells_why};
use crate::request::Request;
use crate::response::{
    law_first_listed_versions_count, versions_in, ExchangeCommandVersionsResponse, FromResponse,
    GenericResponse, OpenResponse, PeerPropertiesResponse, Response, ResponseCode, ResponseKind,
    SaslHandshakeResponse, TunesCommand,
};
use vstd::prelude::*;
use vstd::utf8::encode_utf8;

verus! {

/// How the client settles what the server proposes.
#[derive(Clone, Copy, Debug, PartialEq, Eq, Structural)]
pub enum HandshakeStyle {
    /// Insist on the mechanism that the client uses, and negotiate the limits.
    Negotiating,
    /// Accept the mechanisms and the limits of the server.
    Accepting,
}

/// The answer that the client waits for.
#[derive(Clone, Copy, Debug, PartialEq, Eq, Structural)]
pub enum HandshakeStep {
    PeerProperties,
    Mechanisms,
    Authentication,
    Tuning,
    Opening,
    Versions,
}

/// A connection that is being opened.
#[derive(Debug)]
pub struct Handshake {
    pub style: HandshakeStyle,
    pub step: HandshakeStep,
    pub options: ClientOptions,
    pub client_properties: Properties,
    pub server_properties: Properties,
    pub mechanisms: Vec<String>,
    pub limits: TunesCommand,
    pub connection_properties: Properties,
}

/// What an answer leads to.
#[derive(Debug)]
pub enum HandshakeOutcome {
    /// Send the requests, then wait for the next answer.
    Continue(Handshake, Vec<Request>),
    /// The connection is open.
    Done(ConnectionData),
    /// The connection could not be opened.
    Failed(ClientError),
}

/// The limit that two sides agree on: the smaller of the two, where zero means no limit.
pub open spec fn agreed(client: u32, server: u32) -> u32 {
    if client == 0 {
        server
    } else if server == 0 {
        client
    } else if client <= server {
        client
    } else {
        server
    }
}

/// Returns the limit that two sides agree on: the smaller of the two, where zero means no limit.
pub fn negotiate_value(client: u32, server: u32) -> (value: u32)
    ensures
        value == agreed(client, server),
{
    if client == 0 || server == 0 {
        if client < server {
            server
        } else {
            client
        }
    } else if client < server {
        client
    } else {
        server
    }
}

/// The two sides of a negotiation are alike.
pub proof fn law_negotiation_is_symmetric(client: u32, server: u32)
    ensures
        agreed(client, server) == agreed(server, client),
{
}

/// A limit that one side sets is never exceeded, and there is a limit if one side sets one.
pub proof fn law_negotiation_keeps_limits(client: u32, server: u32)
    ensures
        client != 0 ==> 0 < agreed(client, server) <= client,
        server != 0 ==> 0 < agreed(client, server) <= server,
        agreed(client, server) == 0 <==> client == 0 && server == 0,
{
}

/// Whether a mechanism is among those offered.
pub open spec fn offers(mechanisms: Seq<String>, name: Seq<char>) -> bool {
    exists|i: int| 0 <= i < mechanisms.len() && (#[trigger] mechanisms[i])@ == name
}

/// Returns whether a mechanism is among those offered.
fn is_offered(mechanisms: &Vec<String>, name: &str) -> (offered: bool)
    ensures
        offered == offers(mechanisms@, name@),
{
    let wanted = name.to_owned();
    let mut i: usize = 0;
    while i < mechanisms.len()
        invariant
            i <= mechanisms.len(),
            wanted@ == name@,
            forall|j: int| 0 <= j < i ==> (#[trigger] mechanisms@[j])@ != name@,
        decreases mechanisms.len() - i,
    {
        if mechanisms[i] == wanted {
            return true;
        }
        i = i + 1;
    }
    false
}

/// The data of the mechanism `PLAIN`: the user and the password, each after a zero byte.
pub open spec fn plain_data(user: Seq<char>, password: Seq<char>) -> Seq<u8> {
    seq![0u8] + encode_utf8(user) + seq![0u8] + encode_utf8(password)
}

/// Appends the bytes of a text.
fn append_text(data: &mut Vec<u8>, text: &str)
    ensures
        final(data)@ == old(data)@ + encode_utf8(text@),
{
    let bytes = text.as_bytes();
    let mut i: usize = 0;
    while i < bytes.len()
        invariant
            i <= bytes.len(),
            bytes@ == encode_utf8(text@),
            data@ == old(data)@ + bytes@.take(i as int),
        decreases bytes.len() - i,
    {
        data.push(bytes[i]);
        assert(bytes@.take(i + 1) =~= bytes@.take(i as int).push(bytes@[i as int]));
        i = i + 1;
    }
    assert(bytes@.take(i as int) =~= bytes@);
}

/// Returns the data of the mechanism `PLAIN`.
fn plain_credentials(user: &str, password: &str) -> (data: Vec<u8>)
    ensures
        data@ == plain_data(user@, password@),
{
    let mut data: Vec<u8> = Vec::new();
    data.push(0);
    append_text(&mut data, user);
    data.push(0);
    append_text(&mut data, password);
    assert(data@ =~= plain_data(user@, password@));
    data
}

/// The key of the publish command.
pub const PUBLISH_COMMAND: u16 = 2;

/// The version of the publish command from which messages can carry a filter value.
pub const FILTERING_VERSION: u16 = 2;

/// Returns whether a server that takes the publish command up to `max_version` can filter.
pub fn filtering_from(max_version: u16) -> (supported: bool)
    ensures
        supported == (max_version >= FILTERING_VERSION),
{
    max_version >= FILTERING_VERSION
}

/// The end of the text for an answer of an unexpected type.
pub open spec fn cast_ending(style: HandshakeStyle) -> Seq<char> {
    match style {
        HandshakeStyle::Negotiating => "."@,
        HandshakeStyle::Accepting => ""@,
    }
}

/// The limits that a connection gets when the server proposes `proposed`.
pub open spec fn settled(
    style: HandshakeStyle,
    options: ClientOptions,
    proposed: TunesCommand,
) -> TunesCommand {
    match style {
        HandshakeStyle::Negotiating => TunesCommand {
            max_frame_size: agreed(options.max_frame_size, proposed.max_frame_size),
            heartbeat: agreed(options.heartbeat, proposed.heartbeat),
        },
        HandshakeStyle::Accepting => proposed,
    }
}

/// Whether the handshake fails because the awaited answer did not arrive.
pub open spec fn fails_without<R: FromResponse>(
    handshake: Handshake,
    arrived: Option<Result<Response, ClientError>>,
    outcome: HandshakeOutcome,
) -> bool {
    match outcome {
        HandshakeOutcome::Failed(error) => tells_why::<R>(
            arrived,
            error,
            cast_ending(handshake.style),
        ),
        _ => false,
    }
}

/// Whether the handshake fails because the server refused a request.
pub open spec fn fails_with_code(outcome: HandshakeOutcome, code: ResponseCode) -> bool {
    match outcome {
        HandshakeOutcome::Failed(error) => error == ClientError::RequestError(code),
        _ => false,
    }
}

/// Whether the handshake goes on with `next` and sends nothing but `requests`.
pub open spec fn goes_on(
    outcome: HandshakeOutcome,
    next: Handshake,
    requests: Seq<Request>,
) -> bool {
    match outcome {
        HandshakeOutcome::Continue(handshake, sent) => handshake == next && sent@ =~= requests,
        _ => false,
    }
}

/// Whether the handshake goes on with the sign-in of the user.
pub open spec fn signs_in(outcome: HandshakeOutcome, next: Handshake) -> bool {
    match outcome {
        HandshakeOutcome::Continue(handshake, sent) => handshake == next && sent@.len() == 1 && (
        match sent@[0] {
            Request::SaslAuthenticate {
                correlation_id,
                mechanism,
                sasl_data,
            } => correlation_id == 3
                && mechanism@ == "PLAIN"@ && sasl_data@ == plain_data(
                next.options.user@,
                next.options.password@,
            ),
            _ => false,
        }),
        _ => false,
    }
}

/// What an answer leads to, at each step of the handshake.
pub open spec fn advances(
    handshake: Handshake,
    arrived: Option<Result<Response, ClientError>>,
    outcome: HandshakeOutcome,
) -> bool {
    match handshake.step {
        HandshakeStep::PeerProperties => match arrived_body::<PeerPropertiesResponse>(arrived) {
            None => fails_without::<PeerPropertiesResponse>(handshake, arrived, outcome),
            Some(body) => goes_on(
                outcome,
                Handshake {
                    step: HandshakeStep::Mechanisms,
                    server_properties: body.server_properties,
                    ..handshake
                },
                seq![Request::SaslHandshake { correlation_id: 2 }],
            ),
        },
        HandshakeStep::Mechanisms => match arrived_body::<SaslHandshakeResponse>(arrived) {
            None => fails_without::<SaslHandshakeResponse>(handshake, arrived, outcome),
            Some(body) => if handshake.style == HandshakeStyle::Negotiating && !offers(
                body.mechanisms@,
                "PLAIN"@,
            ) {
                match outcome {
                    HandshakeOutcome::Failed(
                        ClientError::UnsupportedAuthMechanism(wanted, offered),
                    ) => wanted@ == "PLAIN"@ && offered == body.mechanisms,
                    _ => false,
                }
            } else {
                signs_in(
                    outcome,
                    Handshake {
                        step: HandshakeStep::Authentication,
                        mechanisms: body.mechanisms,
                        ..handshake
                    },
                )
            },
        },
        HandshakeStep::Authentication => match arrived_body::<GenericResponse>(arrived) {
            None => fails_without::<GenericResponse>(handshake, arrived, outcome),
            Some(body) => if body.code != ResponseCode::Success {
                fails_with_code(outcome, body.code)
            } else {
                goes_on(outcome, Handshake { step: HandshakeStep::Tuning, ..handshake }, seq![])
            },
        },
        HandshakeStep::Tuning => match arrived_body::<TunesCommand>(arrived) {
            None => fails_without::<TunesCommand>(handshake, arrived, outcome),
            Some(body) => {
                let limits = settled(handshake.style, handshake.options, body);
                goes_on(
                    outcome,
                    Handshake { step: HandshakeStep::Opening, limits, ..handshake },
                    seq![
                        Request::Tunes {
                            max_frame_size: limits.max_frame_size,
                            heartbeat: limits.heartbeat,
                        },
                        Request::Open { correlation_id: 4, virtual_host: handshake.options.v_host },
                    ],
                )
            },
        },
        HandshakeStep::Opening => match arrived_body::<OpenResponse>(arrived) {
            None => fails_without::<OpenResponse>(handshake, arrived, outcome),
            Some(body) => if body.code != ResponseCode::Success {
                fails_with_code(outcome, body.code)
            } else {
                goes_on(
                    outcome,
                    Handshake {
                        step: HandshakeStep::Versions,
                        connection_properties: body.connection_properties,
                        ..handshake
                    },
                    seq![Request::ExchangeCommandVersions { correlation_id: 5 }],
                )
            },
        },
        HandshakeStep::Versions => match arrived_body::<ExchangeCommandVersionsResponse>(arrived) {
            None => fails_without::<ExchangeCommandVersionsResponse>(handshake, arrived, outcome),
            Some(body) => outcome == HandshakeOutcome::Done(
                ConnectionData {
                    client_options: handshake.options,
                    client_properties: handshake.client_properties,
                    server_properties: handshake.server_properties,
                    connection_properties: handshake.connection_properties,
                    filtering_supported: versions_in(
                        body.commands@,
                        PUBLISH_COMMAND,
                    ).1 >= FILTERING_VERSION,
                    heartbeat: handshake.limits.heartbeat,
                    max_frame_size: handshake.limits.max_frame_size,
                    handshake_mechanisms: handshake.mechanisms,
                },
            ),
        },
    }
}

/// Whether `request` introduces the client.
pub open spec fn introduces(request: Request, options: ClientOptions) -> bool {
    match request {
        Request::PeerProperties {
            correlation_id,
            client_properties: properties,
        } => correlation_id == 1
            && properties@ == client_properties(options.client_provided_name@),
        _ => false,
    }
}

impl Handshake {
    /// Starts a handshake; returns it with the request that introduces the client.
    pub fn start(options: ClientOptions, style: HandshakeStyle) -> (started: (Handshake, Request))
        ensures
            started.0.style == style,
            started.0.options == options,
            started.0.step == HandshakeStep::PeerProperties,
            started.0.client_properties@ == client_properties(options.client_provided_name@),
            started.0.server_properties@ == Map::<Seq<char>, Seq<char>>::empty(),
            started.0.mechanisms@ == Seq::<String>::empty(),
            started.0.limits == (TunesCommand { max_frame_size: 0, heartbeat: 0 }),
            started.0.connection_properties@ == Map::<Seq<char>, Seq<char>>::empty(),
            introduces(started.1, options),
    {
        let properties = get_client_properties(&options);
        let request = Request::PeerProperties {
            correlation_id: 1,
            client_properties: properties.copy(),
        };
        let handshake = Handshake {
            style,
            step: HandshakeStep::PeerProperties,
            options,
            client_properties: properties,
            server_properties: Properties::new(),
            mechanisms: Vec::new(),
            limits: TunesCommand { max_frame_size: 0, heartbeat: 0 },
            connection_properties: Properties::new(),
        };
        (handshake, request)
    }

    /// Takes what arrived on the connection.
    pub fn advance(
        self,
        arrived: Option<Result<Response, ClientError>>,
    ) -> (outcome: HandshakeOutcome)
        ensures
            advances(self, arrived, outcome),
    {
        let ending = match self.style {
            HandshakeStyle::Negotiating => ".",
            HandshakeStyle::Accepting => "",
        };
        match self.step {
            HandshakeStep::PeerProperties => match take_body::<PeerPropertiesResponse>(arrived, ending) {
                Err(error) => HandshakeOutcome::Failed(error),
                Ok(body) => HandshakeOutcome::Continue(
                    Handshake {
                        step: HandshakeStep::Mechanisms,
                        server_properties: body.server_properties,
                        ..self
                    },
                    vec![Request::SaslHandshake { correlation_id: 2 }],
                ),
            },
            HandshakeStep::Mechanisms => match take_body::<SaslHandshakeResponse>(arrived, ending) {
                Err(error) => HandshakeOutcome::Failed(error),
                Ok(body) => self.choose_mechanism(body.mechanisms),
            },
            HandshakeStep::Authentication => match take_body::<GenericResponse>(arrived, ending) {
                Err(error) => HandshakeOutcome::Failed(error),
                Ok(body) => if !body.is_ok() {
                    HandshakeOutcome::Failed(ClientError::RequestError(body.code()))
                } else {
                    HandshakeOutcome::Continue(
                        Handshake { step: HandshakeStep::Tuning, ..self },
                        Vec::new(),
                    )
                },
            },
            HandshakeStep::Tuning => match take_body::<TunesCommand>(arrived, ending) {
                Err(error) => HandshakeOutcome::Failed(error),
                Ok(body) => self.settle_limits(body),
            },
            HandshakeStep::Opening => match take_body::<OpenResponse>(arrived, ending) {
                Err(error) => HandshakeOutcome::Failed(error),
                Ok(body) => if !body.is_ok() {
                    HandshakeOutcome::Failed(ClientError::RequestError(body.code()))
                } else {
                    HandshakeOutcome::Continue(
                        Handshake {
                            step: HandshakeStep::Versions,
                            connection_properties: body.connection_properties,
                            ..self
                        },
                        vec![Request::ExchangeCommandVersions { correlation_id: 5 }],
                    )
                },
            },
            HandshakeStep::Versions => match take_body::<ExchangeCommandVersionsResponse>(
                arrived,
                ending,
            ) {
                Err(error) => HandshakeOutcome::Failed(error),
                Ok(body) => HandshakeOutcome::Done(
                    ConnectionData {
                        client_options: self.options,
                        client_properties: self.client_properties,
                        server_properties: self.server_properties,
                        connection_properties: self.connection_properties,
                        filtering_supported: filtering_from(body.key_version(PUBLISH_COMMAND).1),
                        heartbeat: self.limits.heartbeat,
                        max_frame_size: self.limits.max_frame_size,
                        handshake_mechanisms: self.mechanisms,
                    },
                ),
            },
        }
    }

    /// Signs in, if the mechanism `PLAIN` is among those offered or the client does not insist.
    fn choose_mechanism(self, mechanisms: Vec<String>) -> (outcome: HandshakeOutcome)
        ensures
            if self.style == HandshakeStyle::Negotiating && !offers(mechanisms@, "PLAIN"@) {
                match outcome {
                    HandshakeOutcome::Failed(
                        ClientError::UnsupportedAuthMechanism(wanted, offered),
                    ) => wanted@ == "PLAIN"@ && offered == mechanisms,
                    _ => false,
                }
            } else {
                signs_in(
                    outcome,
                    Handshake { step: HandshakeStep::Authentication, mechanisms, ..self },
                )
            },
    {
        if self.style == HandshakeStyle::Negotiating && !is_offered(&mechanisms, "PLAIN") {
            return HandshakeOutcome::Failed(
                ClientError::UnsupportedAuthMechanism("PLAIN".to_owned(), mechanisms),
            );
        }
        let sasl_data = plain_credentials(
            self.options.user.as_str(),
            self.options.password.as_str(),
        );
        HandshakeOutcome::Continue(
            Handshake { step: HandshakeStep::Authentication, mechanisms, ..self },
            vec![
                Request::SaslAuthenticate {
                    correlation_id: 3,
                    mechanism: "PLAIN".to_owned(),
                    sasl_data,
                },
            ],
        )
    }

    /// Settles the limits, confirms them and opens the virtual host.
    fn settle_limits(self, proposed: TunesCommand) -> (outcome: HandshakeOutcome)
        ensures
            ({
                let limits = settled(self.style, self.options, proposed);
                goes_on(
                    outcome,
                    Handshake { step: HandshakeStep::Opening, limits, ..self },
                    seq![
                        Request::Tunes {
                            max_frame_size: limits.max_frame_size,
                            heartbeat: limits.heartbeat,
                        },
                        Request::Open { correlation_id: 4, virtual_host: self.options.v_host },
                    ],
                )
            }),
    {
        let limits = match self.style {
            HandshakeStyle::Negotiating => TunesCommand {
                max_frame_size: negotiate_value(
                    self.options.max_frame_size,
                    proposed.max_frame_size,
                ),
                heartbeat: negotiate_value(self.options.heartbeat, proposed.heartbeat),
            },
            HandshakeStyle::Accepting => proposed,
        };
        let virtual_host = self.options.v_host.clone();
        HandshakeOutcome::Continue(
            Handshake { step: HandshakeStep::Opening, limits, ..self },
            vec![
                Request::Tunes {
                    max_frame_size: limits.max_frame_size,
                    heartbeat: limits.heartbeat,
                },
                Request::Open { correlation_id: 4, virtual_host },
            ],
        )
    }
}

/// The handshake with which an outcome goes on.
pub open spec fn next_of(outcome: HandshakeOutcome) -> Handshake {
    outcome->Continue_0
}

/// The requests that an outcome sends.
pub open spec fn sent_by(outcome: HandshakeOutcome) -> Seq<Request> {
    match outcome {
        HandshakeOutcome::Continue(_, requests) => requests@,
        _ => Seq::empty(),
    }
}

/// Whether an answer of the awaited type arrived, and a favourable one.
pub open spec fn favourable(
    handshake: Handshake,
    arrived: Option<Result<Response, ClientError>>,
) -> bool {
    match handshake.step {
        HandshakeStep::PeerProperties => arrived_body::<PeerPropertiesResponse>(arrived) is Some,
        HandshakeStep::Mechanisms => match arrived_body::<SaslHandshakeResponse>(arrived) {
            Some(body) => handshake.style == HandshakeStyle::Accepting || offers(
                body.mechanisms@,
                "PLAIN"@,
            ),
            None => false,
        },
        HandshakeStep::Authentication => match arrived_body::<GenericResponse>(arrived) {
            Some(body) => body.code == ResponseCode::Success,
            None => false,
        },
        HandshakeStep::Tuning => arrived_body::<TunesCommand>(arrived) is Some,
        HandshakeStep::Opening => match arrived_body::<OpenResponse>(arrived) {
            Some(body) => body.code == ResponseCode::Success,
            None => false,
        },
        HandshakeStep::Versions => arrived_body::<ExchangeCommandVersionsResponse>(arrived) is Some,
    }
}

/// A handshake fails exactly on an answer that is not favourable, and is done exactly on a
/// favourable answer to the last request.
pub proof fn law_handshake_outcome(
    handshake: Handshake,
    arrived: Option<Result<Response, ClientError>>,
    outcome: HandshakeOutcome,
)
    requires
        advances(handshake, arrived, outcome),
    ensures
        outcome is Failed <==> !favourable(handshake, arrived),
        outcome is Done <==> favourable(handshake, arrived) && handshake.step
            == HandshakeStep::Versions,
{
}

/// Six favourable answers open the connection. What is then known of it is what the server
/// said, the limits are those that were settled and confirmed to the server, and the requests
/// carry the correlation identifiers from 1 to 5.
pub proof fn law_handshake_completes(
    options: ClientOptions,
    first: Request,
    start: Handshake,
    arrived: Seq<Option<Result<Response, ClientError>>>,
    outcomes: Seq<HandshakeOutcome>,
)
    requires
        arrived.len() == 6,
        outcomes.len() == 6,
        introduces(first, options),
        start.step == HandshakeStep::PeerProperties,
        advances(start, arrived[0], outcomes[0]),
        favourable(start, arrived[0]),
        advances(next_of(outcomes[0]), arrived[1], outcomes[1]),
        favourable(next_of(outcomes[0]), arrived[1]),
        advances(next_of(outcomes[1]), arrived[2], outcomes[2]),
        favourable(next_of(outcomes[1]), arrived[2]),
        advances(next_of(outcomes[2]), arrived[3], outcomes[3]),
        favourable(next_of(outcomes[2]), arrived[3]),
        advances(next_of(outcomes[3]), arrived[4], outcomes[4]),
        favourable(next_of(outcomes[3]), arrived[4]),
        advances(next_of(outcomes[4]), arrived[5], outcomes[5]),
        favourable(next_of(outcomes[4]), arrived[5]),
    ensures
        outcomes[5] == HandshakeOutcome::Done(
            ConnectionData {
                client_options: start.options,
                client_properties: start.client_properties,
                server_properties: arrived_body::<PeerPropertiesResponse>(
                    arrived[0],
                )->0.server_properties,
                connection_properties: arrived_body::<OpenResponse>(arrived[4])->0.connection_properties,
                filtering_supported: versions_in(
                    arrived_body::<ExchangeCommandVersionsResponse>(arrived[5])->0.commands@,
                    PUBLISH_COMMAND,
                ).1 >= FILTERING_VERSION,
                heartbeat: settled(
                    start.style,
                    start.options,
                    arrived_body::<TunesCommand>(arrived[3])->0,
                ).heartbeat,
                max_frame_size: settled(
                    start.style,
                    start.options,
                    arrived_body::<TunesCommand>(arrived[3])->0,
                ).max_frame_size,
                handshake_mechanisms: arrived_body::<SaslHandshakeResponse>(arrived[1])->0.mechanisms,
            },
        ),
        first->PeerProperties_correlation_id == 1,
        sent_by(outcomes[0]) == seq![Request::SaslHandshake { correlation_id: 2 }],
        sent_by(outcomes[1]).len() == 1,
        sent_by(outcomes[1])[0]->SaslAuthenticate_correlation_id == 3,
        sent_by(outcomes[1])[0]->sasl_data@ == plain_data(
            start.options.user@,
            start.options.password@,
        ),
        sent_by(outcomes[2]) == Seq::<Request>::empty(),
        sent_by(outcomes[3]) == seq![
            Request::Tunes {
                max_frame_size: outcomes[5]->Done_0.max_frame_size,
                heartbeat: outcomes[5]->Done_0.heartbeat,
            },
            Request::Open { correlation_id: 4, virtual_host: start.options.v_host },
        ],
        sent_by(outcomes[4]) == seq![Request::ExchangeCommandVersions { correlation_id: 5 }],
{
}

/// The password leaves a client that insists on its mechanism only if the server offers it.
pub proof fn law_credentials_need_offer(
    handshake: Handshake,
    arrived: Option<Result<Response, ClientError>>,
    outcome: HandshakeOutcome,
    i: int,
)
    requires
        handshake.style == HandshakeStyle::Negotiating,
        advances(handshake, arrived, outcome),
        0 <= i < sent_by(outcome).len(),
        sent_by(outcome)[i] is SaslAuthenticate,
    ensures
        handshake.step == HandshakeStep::Mechanisms,
        arrived_body::<SaslHandshakeResponse>(arrived) is Some,
        offers(arrived_body::<SaslHandshakeResponse>(arrived)->0.mechanisms@, "PLAIN"@),
{
}

/// Two limits settle on one of them: on the smaller where both are set, and on the one that is set
/// where the other is not.
pub proof fn law_negotiation_takes_the_smaller(client: u32, server: u32)
    ensures
        client != 0 && server != 0 && client <= server ==> agreed(client, server) == client,
        client != 0 && server != 0 && server <= client ==> agreed(client, server) == server,
        client == 0 ==> agreed(client, server) == server,
        server == 0 ==> agreed(client, server) == client,
{
}

/// Whether a mechanism is offered does not change with the mechanisms that are offered before or
/// after it.
pub proof fn law_other_mechanisms_do_not_matter(
    before: Seq<String>,
    mechanism: String,
    after: Seq<String>,
    name: Seq<char>,
)
    ensures
        mechanism@ == name ==> offers(before.push(mechanism) + after, name),
        mechanism@ != name ==> offers(before.push(mechanism) + after, name) == offers(
            before + after,
            name,
        ),
        !offers(Seq::empty(), name),
{
    let all = before.push(mechanism) + after;
    let others = before + after;
    let place = before.len() as int;
    assert(all[place] == mechanism);
    if mechanism@ != name {
        if offers(all, name) {
            let i = choose|i: int| 0 <= i < all.len() && (#[trigger] all[i])@ == name;
            if i < place {
                assert(others[i] == all[i]);
            } else {
                assert(others[i - 1] == all[i]);
            }
        }
        if offers(others, name) {
            let i = choose|i: int| 0 <= i < others.len() && (#[trigger] others[i])@ == name;
            if i < place {
                assert(all[i] == others[i]);
            } else {
                assert(all[i + 1] == others[i]);
            }
        }
    }
}

/// A client signs in wherever `PLAIN` stands among the mechanisms that the server offers: it sends
/// its credentials, and waits for the answer. A client that does not insist signs in whatever is
/// offered.
pub proof fn law_offered_mechanism_is_used(
    handshake: Handshake,
    response: Response,
    body: SaslHandshakeResponse,
    i: int,
    outcome: HandshakeOutcome,
)
    requires
        handshake.step == HandshakeStep::Mechanisms,
        response.kind == ResponseKind::SaslHandshake(body),
        handshake.style == HandshakeStyle::Accepting || (0 <= i < body.mechanisms@.len()
            && body.mechanisms@[i]@ == "PLAIN"@),
        advances(handshake, Some(Ok(response)), outcome),
    ensures
        match outcome {
            HandshakeOutcome::Continue(next, sent) => {
                &&& next == (Handshake {
                    step: HandshakeStep::Authentication,
                    mechanisms: body.mechanisms,
                    ..handshake
                })
                &&& sent@.len() == 1
                &&& sent@[0] is SaslAuthenticate
                &&& sent@[0]->SaslAuthenticate_correlation_id == 3
                &&& sent@[0]->mechanism@ == "PLAIN"@
                &&& sent@[0]->sasl_data@ == plain_data(
                    handshake.options.user@,
                    handshake.options.password@,
                )
            },
            _ => false,
        },
{
}

/// A client that insists on `PLAIN` does not sign in where nothing that the server offers is it, and
/// says what was offered.
pub proof fn law_missing_mechanism_is_refused(
    handshake: Handshake,
    response: Response,
    body: SaslHandshakeResponse,
    outcome: HandshakeOutcome,
)
    requires
        handshake.step == HandshakeStep::Mechanisms,
        handshake.style == HandshakeStyle::Negotiating,
        response.kind == ResponseKind::SaslHandshake(body),
        forall|i: int|
            0 <= i < body.mechanisms@.len() ==> (#[trigger] body.mechanisms@[i])@ != "PLAIN"@,
        advances(handshake, Some(Ok(response)), outcome),
    ensures
        outcome matches HandshakeOutcome::Failed(
            ClientError::UnsupportedAuthMechanism(wanted, offered),
        ) && wanted@ == "PLAIN"@ && offered == body.mechanisms,
{
}

/// The credentials are a zero byte, the bytes of the user, a zero byte and the bytes of the
/// password, and nothing else.
pub proof fn law_credentials_hold_user_and_password(user: Seq<char>, password: Seq<char>)
    ensures
        ({
            let data = plain_data(user, password);
            let split = 1 + encode_utf8(user).len() as int;
            &&& data.len() == split + 1 + encode_utf8(password).len()
            &&& data[0] == 0
            &&& data.subrange(1, split) == encode_utf8(user)
            &&& data[split] == 0
            &&& data.skip(split + 1) == encode_utf8(password)
        }),
{
    let data = plain_data(user, password);
    let split = 1 + encode_utf8(user).len() as int;
    assert(data.subrange(1, split) =~= encode_utf8(user));
    assert(data.skip(split + 1) =~= encode_utf8(password));
}

/// The answer to the introduction is remembered as the properties of the server, and the client asks
/// for the mechanisms.
pub proof fn law_server_properties_are_remembered(
    handshake: Handshake,
    response: Response,
    body: PeerPropertiesResponse,
    outcome: HandshakeOutcome,
)
    requires
        handshake.step == HandshakeStep::PeerProperties,
        response.kind == ResponseKind::PeerProperties(body),
        advances(handshake, Some(Ok(response)), outcome),
    ensures
        outcome matches HandshakeOutcome::Continue(next, sent) && next == (Handshake {
            step: HandshakeStep::Mechanisms,
            server_properties: body.server_properties,
            ..handshake
        }) && sent@ == seq![Request::SaslHandshake { correlation_id: 2 }],
{
}

/// A sign-in that succeeds goes on with the limits, and one that the server refuses, for whatever
/// reason, fails with that reason.
pub proof fn law_sign_in_decides(
    handshake: Handshake,
    response: Response,
    body: GenericResponse,
    outcome: HandshakeOutcome,
)
    requires
        handshake.step == HandshakeStep::Authentication,
        response.kind == ResponseKind::Generic(body),
        advances(handshake, Some(Ok(response)), outcome),
    ensures
        body.code is Success ==> (outcome matches HandshakeOutcome::Continue(next, sent) && next == (
        Handshake { step: HandshakeStep::Tuning, ..handshake }) && sent@.len() == 0),
        !(body.code is Success) ==> outcome == HandshakeOutcome::Failed(
            ClientError::RequestError(body.code),
        ),
{
}

/// The limits that are confirmed to the server are those that the connection gets. A client that
/// negotiates gets the smaller of its own limit and that of the server, where both set one, and the
/// one that is set where only one does; a client that accepts gets those of the server. Then the
/// client opens its virtual host.
pub proof fn law_limits_are_settled(
    handshake: Handshake,
    response: Response,
    body: TunesCommand,
    outcome: HandshakeOutcome,
)
    requires
        handshake.step == HandshakeStep::Tuning,
        response.kind == ResponseKind::Tunes(body),
        advances(handshake, Some(Ok(response)), outcome),
    ensures
        outcome matches HandshakeOutcome::Continue(next, sent) && next == (Handshake {
            step: HandshakeStep::Opening,
            limits: next.limits,
            ..handshake
        }) && sent@ == seq![
            Request::Tunes {
                max_frame_size: next.limits.max_frame_size,
                heartbeat: next.limits.heartbeat,
            },
            Request::Open { correlation_id: 4, virtual_host: handshake.options.v_host },
        ] && (handshake.style == HandshakeStyle::Accepting ==> next.limits == body) && (
        handshake.style == HandshakeStyle::Negotiating ==> is_smaller_limit(
            next.limits.max_frame_size,
            handshake.options.max_frame_size,
            body.max_frame_size,
        ) && is_smaller_limit(next.limits.heartbeat, handshake.options.heartbeat, body.heartbeat)),
{
}

/// Whether a limit is the smaller of two, of which zero is none.
pub open spec fn is_smaller_limit(limit: u32, one: u32, other: u32) -> bool {
    &&& limit == one || limit == other
    &&& one != 0 ==> 0 < limit <= one
    &&& other != 0 ==> 0 < limit <= other
}

/// Where the server opens the virtual host, what it says of the connection is remembered and the
/// client asks for the versions of the commands; where it refuses, for whatever reason, the
/// handshake fails with that reason.
pub proof fn law_opening_decides(
    handshake: Handshake,
    response: Response,
    body: OpenResponse,
    outcome: HandshakeOutcome,
)
    requires
        handshake.step == HandshakeStep::Opening,
        response.kind == ResponseKind::Open(body),
        advances(handshake, Some(Ok(response)), outcome),
    ensures
        body.code is Success ==> (outcome matches HandshakeOutcome::Continue(next, sent) && next == (
        Handshake {
            step: HandshakeStep::Versions,
            connection_properties: body.connection_properties,
            ..handshake
        }) && sent@ == seq![Request::ExchangeCommandVersions { correlation_id: 5 }]),
        !(body.code is Success) ==> outcome == HandshakeOutcome::Failed(
            ClientError::RequestError(body.code),
        ),
{
}

/// The last answer opens the connection with all that was remembered. The server can filter if the
/// first entry for the publish command, wherever it stands, goes up to version two or further.
pub proof fn law_versions_open_the_connection(
    handshake: Handshake,
    response: Response,
    body: ExchangeCommandVersionsResponse,
    i: int,
    outcome: HandshakeOutcome,
)
    requires
        handshake.step == HandshakeStep::Versions,
        response.kind == ResponseKind::ExchangeCommandVersions(body),
        0 <= i <= body.commands@.len(),
        forall|j: int| 0 <= j < i ==> (#[trigger] body.commands@[j]).command != 2,
        i < body.commands@.len() ==> body.commands@[i].command == 2,
        advances(handshake, Some(Ok(response)), outcome),
    ensures
        outcome matches HandshakeOutcome::Done(data) && data == (ConnectionData {
            client_options: handshake.options,
            client_properties: handshake.client_properties,
            server_properties: handshake.server_properties,
            connection_properties: handshake.connection_properties,
            filtering_supported: i < body.commands@.len() && body.commands@[i].max_version >= 2,
            heartbeat: handshake.limits.heartbeat,
            max_frame_size: handshake.limits.max_frame_size,
            handshake_mechanisms: handshake.mechanisms,
        }),
{
    law_first_listed_versions_count(body.commands@, 2, i);
}

/// The body that a step of the handshake waits for.
pub open spec fn is_awaited_kind(step: HandshakeStep, kind: ResponseKind) -> bool {
    match step {
        HandshakeStep::PeerProperties => kind is PeerProperties,
        HandshakeStep::Mechanisms => kind is SaslHandshake,
        HandshakeStep::Authentication => kind is Generic,
        HandshakeStep::Tuning => kind is Tunes,
        HandshakeStep::Opening => kind is Open,
        HandshakeStep::Versions => kind is ExchangeCommandVersions,
    }
}

/// A handshake fails if the connection ends, if reading fails and if a response of another type than
/// the awaited one comes, and the error tells which of these it was.
pub proof fn law_handshake_needs_the_awaited_answer(
    handshake: Handshake,
    failure: ClientError,
    response: Response,
    outcomes: (HandshakeOutcome, HandshakeOutcome, HandshakeOutcome),
)
    requires
        advances(handshake, None, outcomes.0),
        advances(handshake, Some(Err(failure)), outcomes.1),
        advances(handshake, Some(Ok(response)), outcomes.2),
    ensures
        outcomes.0 == HandshakeOutcome::Failed(ClientError::ConnectionClosed),
        outcomes.1 == HandshakeOutcome::Failed(failure),
        !is_awaited_kind(handshake.step, response.kind) ==> (
        outcomes.2 matches HandshakeOutcome::Failed(error) && error is CastError),
        is_awaited_kind(handshake.step, response.kind) ==> !(
        outcomes.2 matches HandshakeOutcome::Failed(error) && error is CastError),
{
}

/// The first request introduces the client: it carries the first identifier, the name that the client
/// was given, whatever that is, and the five properties that all clients have.
pub proof fn law_introduction_tells_the_name(request: Request, options: ClientOptions)
    requires
        introduces(request, options),
    ensures
        request is PeerProperties,
        request->PeerProperties_correlation_id == 1,
        ({
            let told = request->client_properties@;
            &&& told["connection_name"@] == options.client_provided_name@
            &&& told["product"@] == PRODUCT@
            &&& told["version"@] == VERSION@
            &&& told["platform"@] == PLATFORM@
            &&& told["copyright"@] == COPYRIGHT@
            &&& told["information"@] == INFORMATION@
            &&& told.dom() == set![
                "product"@,
                "version"@,
                "platform"@,
                "copyright"@,
                "information"@,
                "connection_name"@,
            ]
        }),
{
    law_client_tells_its_name(options.client_provided_name@, options.client_provided_name@);
}

/// The error for an answer of an unexpected type names the type that was awaited, and ends with a full
/// stop where the client negotiates.
pub proof fn law_unexpected_answers_are_named(
    handshake: Handshake,
    response: Response,
    outcome: HandshakeOutcome,
)
    requires
        advances(handshake, Some(Ok(response)), outcome),
        !is_awaited_kind(handshake.step, response.kind),
    ensures
        outcome matches HandshakeOutcome::Failed(ClientError::CastError(text)) && text@
            == "Cannot cast response to "@ + awaited_name(handshake.step) + (match handshake.style {
            HandshakeStyle::Negotiating => "."@,
            HandshakeStyle::Accepting => ""@,
        }),
{
}

/// The name of the type that a step of the handshake waits for.
pub open spec fn awaited_name(step: HandshakeStep) -> Seq<char> {
    match step {
        HandshakeStep::PeerProperties => PeerPropertiesResponse::spec_body_name(),
        HandshakeStep::Mechanisms => SaslHandshakeResponse::spec_body_name(),
        HandshakeStep::Authentication => GenericResponse::spec_body_name(),
        HandshakeStep::Tuning => TunesCommand::spec_body_name(),
        HandshakeStep::Opening => OpenResponse::spec_body_name(),
        HandshakeStep::Versions => ExchangeCommandVersionsResponse::spec_body_name(),
    }
}

/// What two sides settle on is what each of them is asked for: the smaller limit, where both set one,
/// and the one that is set, where only one does, whichever side asks.
pub proof fn law_both_sides_settle_alike(client: u32, server: u32, one: u32, other: u32)
    requires
        call_ensures(negotiate_value, (client, server), one),
        call_ensures(negotiate_value, (server, client), other),
    ensures
        one == other,
        is_smaller_limit(one, client, server),
{
}

/// A handshake starts with nothing known but the options, and with the introduction of the client.
pub proof fn law_handshakes_start_with_an_introduction(
    options: ClientOptions,
    style: HandshakeStyle,
    started: (Handshake, Request),
)
    requires
        call_ensures(Handshake::start, (options, style), started),
    ensures
        started.0.style == style,
        started.0.options == options,
        started.0.step is PeerProperties,
        started.1 is PeerProperties,
        started.1->PeerProperties_correlation_id == 1,
        started.1->client_properties@["connection_name"@] == options.client_provided_name@,
        started.0.client_properties@ == started.1->client_properties@,
{
    law_introduction_tells_the_name(started.1, options);
}

/// A client that is offered `PLAIN`, wherever it stands among the mechanisms, signs in with its user
/// and its password; one that insists on it and is not offered it does not.
pub proof fn law_handshakes_sign_in_where_they_can(
    handshake: Handshake,
    response: Response,
    body: SaslHandshakeResponse,
    outcome: HandshakeOutcome,
    i: int,
)
    requires
        call_ensures(Handshake::advance, (handshake, Some(Ok(response))), outcome),
        handshake.step is Mechanisms,
        response.kind == ResponseKind::SaslHandshake(body),
    ensures
        0 <= i < body.mechanisms@.len() && body.mechanisms@[i]@ == "PLAIN"@ ==> {
            &&& outcome is Continue
            &&& sent_by(outcome).len() == 1
            &&& sent_by(outcome)[0] is SaslAuthenticate
            &&& sent_by(outcome)[0]->mechanism@ == "PLAIN"@
            &&& sent_by(outcome)[0]->sasl_data@ == seq![0u8] + encode_utf8(handshake.options.user@)
                + seq![0u8] + encode_utf8(handshake.options.password@)
        },
        handshake.style is Negotiating && (forall|j: int|
            0 <= j < body.mechanisms@.len() ==> (#[trigger] body.mechanisms@[j])@ != "PLAIN"@)
            ==> outcome is Failed,
{
}

/// A server can filter from version two of the publish command on.
pub proof fn law_filtering_starts_with_the_second_version(max_version: u16, supported: bool)
    requires
        call_ensures(filtering_from, (max_version,), supported),
    ensures
        supported <==> max_version >= 2,
{
}

} // verus!
