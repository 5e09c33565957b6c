//! Which brokers hold a stream, as the server tells it.

use crate::response::{BrokerEntry, MetadataResponse, ResponseCode, StreamEntry};
use vstd::prelude::*;

verus! {

/// A broker.
#[derive(Debug)]
pub struct Broker {
    pub host: String,
    pub port: u32,
}

/// The state of a stream and the brokers that hold it.
#[derive(Debug)]
pub struct StreamMetadata {
    pub stream: String,
    pub response_code: ResponseCode,
    pub leader: Broker,
    pub replicas: Vec<Broker>,
}

/// The host and the port of a broker.
pub struct BrokerView {
    pub host: Seq<char>,
    pub port: u32,
}

/// What a [`StreamMetadata`] says.
pub struct StreamMetadataView {
    pub stream: Seq<char>,
    pub response_code: ResponseCode,
    pub leader: BrokerView,
    pub replicas: Seq<BrokerView>,
}

impl View for Broker {
    type V = BrokerView;

    open spec fn view(&self) -> BrokerView {
        BrokerView { host: self.host@, port: self.port }
    }
}

impl View for StreamMetadata {
    type V = StreamMetadataView;

    open spec fn view(&self) -> StreamMetadataView {
        StreamMetadataView {
            stream: self.stream@,
            response_code: self.response_code,
            leader: self.leader@,
            replicas: self.replicas@.map_values(|broker: Broker| broker@),
        }
    }
}

/// The broker with the given reference; the last one that is listed, if there are several.
pub open spec fn broker_of(brokers: Seq<BrokerEntry>, reference: u16) -> Option<BrokerView>
    decreases brokers.len(),
{
    if brokers.len() == 0 {
        None
    } else if brokers.last().reference == reference {
        Some(BrokerView { host: brokers.last().host@, port: brokers.last().port })
    } else {
        broker_of(brokers.drop_last(), reference)
    }
}

/// The listed brokers with the given references, in the order of the references.
pub open spec fn brokers_of(brokers: Seq<BrokerEntry>, references: Seq<u16>) -> Seq<BrokerView>
    decreases references.len(),
{
    if references.len() == 0 {
        Seq::empty()
    } else {
        let before = brokers_of(brokers, references.drop_last());
        match broker_of(brokers, references.last()) {
            Some(broker) => before.push(broker),
            None => before,
        }
    }
}

/// What is known of a stream; nothing if its leader is not listed.
pub open spec fn metadata_of(
    brokers: Seq<BrokerEntry>,
    entry: StreamEntry,
) -> Option<StreamMetadataView> {
    match broker_of(brokers, entry.leader_reference) {
        Some(leader) => Some(
            StreamMetadataView {
                stream: entry.stream_name@,
                response_code: entry.code,
                leader,
                replicas: brokers_of(brokers, entry.replicas_references@),
            },
        ),
        None => None,
    }
}

/// What is known of each stream; the last entry counts, if a stream has several.
pub open spec fn metadata_map(brokers: Seq<BrokerEntry>, entries: Seq<StreamEntry>) -> Map<
    Seq<char>,
    StreamMetadataView,
>
    decreases entries.len(),
{
    if entries.len() == 0 {
        Map::empty()
    } else {
        let before = metadata_map(brokers, entries.drop_last());
        match metadata_of(brokers, entries.last()) {
            Some(metadata) => before.insert(entries.last().stream_name@, metadata),
            None => before,
        }
    }
}

/// Whether a list holds exactly the values of a map from the names of streams, each once.
pub open spec fn lists(
    table: Seq<StreamMetadata>,
    map: Map<Seq<char>, StreamMetadataView>,
) -> bool {
    &&& forall|i: int, j: int|
        0 <= i < j < table.len() ==> (#[trigger] table[i]).stream@ != (#[trigger] table[j]).stream@
    &&& forall|i: int|
        0 <= i < table.len() ==> map.contains_key((#[trigger] table[i]).stream@)
            && map[table[i].stream@] == table[i]@
    &&& forall|name: Seq<char>| #[trigger]
        map.contains_key(name) ==> exists|i: int|
            0 <= i < table.len() && (#[trigger] table[i]).stream@ == name
}

/// Returns the broker with the given reference.
fn find_broker(brokers: &Vec<BrokerEntry>, reference: u16) -> (found: Option<Broker>)
    ensures
        match found {
            Some(broker) => broker_of(brokers@, reference) == Some(broker@),
            None => broker_of(brokers@, reference) is None,
        },
{
    let mut i: usize = brokers.len();
    assert(brokers@.take(i as int) =~= brokers@);
    while i > 0
        invariant
            i <= brokers.len(),
            broker_of(brokers@.take(i as int), reference) == broker_of(brokers@, reference),
        decreases i,
    {
        assert(brokers@.take(i as int).drop_last() =~= brokers@.take(i - 1));
        i = i - 1;
        if brokers[i].reference == reference {
            return Some(Broker { host: brokers[i].host.clone(), port: brokers[i].port });
        }
    }
    None
}

/// Returns the listed brokers with the given references.
fn find_brokers(brokers: &Vec<BrokerEntry>, references: &Vec<u16>) -> (found: Vec<Broker>)
    ensures
        found@.map_values(|broker: Broker| broker@) == brokers_of(brokers@, references@),
{
    let mut found: Vec<Broker> = Vec::new();
    let mut i: usize = 0;
    assert(found@.map_values(|broker: Broker| broker@) =~= brokers_of(
        brokers@,
        references@.take(i as int),
    ));
    while i < references.len()
        invariant
            i <= references.len(),
            found@.map_values(|broker: Broker| broker@) == brokers_of(
                brokers@,
                references@.take(i as int),
            ),
        decreases references.len() - i,
    {
        let ghost before = found@;
        assert(references@.take(i + 1).drop_last() =~= references@.take(i as int));
        match find_broker(brokers, references[i]) {
            Some(broker) => {
                found.push(broker);
                assert(found@.map_values(|broker: Broker| broker@) =~= before.map_values(
                    |broker: Broker| broker@,
                ).push(broker@));
            },
            None => {},
        }
        i = i + 1;
    }
    assert(references@.take(i as int) =~= references@);
    found
}

/// Returns what is known of a stream.
fn stream_metadata(
    brokers: &Vec<BrokerEntry>,
    entry: &StreamEntry,
) -> (found: Option<StreamMetadata>)
    ensures
        match found {
            Some(metadata) => metadata_of(brokers@, *entry) == Some(metadata@),
            None => metadata_of(brokers@, *entry) is None,
        },
{
    match find_broker(brokers, entry.leader_reference) {
        None => None,
        Some(leader) => Some(
            StreamMetadata {
                stream: entry.stream_name.clone(),
                response_code: entry.code,
                leader,
                replicas: find_brokers(brokers, &entry.replicas_references),
            },
        ),
    }
}

/// Puts a stream into a list, in the place of one with the same name.
fn put(table: &mut Vec<StreamMetadata>, metadata: StreamMetadata)
    ensures
        forall|map: Map<Seq<char>, StreamMetadataView>|
            #![auto]
            lists(old(table)@, map) ==> lists(
                final(table)@,
                map.insert(metadata.stream@, metadata@),
            ),
{
    let ghost before = table@;
    let mut i: usize = 0;
    while i < table.len()
        invariant
            i <= table.len(),
            table@ == before,
            *table == *old(table),
            forall|j: int| 0 <= j < i ==> (#[trigger] before[j]).stream@ != metadata.stream@,
        decreases table.len() - i,
    {
        if table[i].stream == metadata.stream {
            table.set(i, metadata);
            proof {
                assert forall|map: Map<Seq<char>, StreamMetadataView>| lists(before, map) implies #[trigger] lists(
                    table@,
                    map.insert(metadata.stream@, metadata@),
                ) by {
                    lemma_set_stream(before, i as int, metadata, map);
                }
            }
            return ;
        }
        i = i + 1;
    }
    table.push(metadata);
    proof {
        assert forall|map: Map<Seq<char>, StreamMetadataView>| lists(before, map) implies #[trigger] lists(
            table@,
            map.insert(metadata.stream@, metadata@),
        ) by {
            lemma_push_stream(before, metadata, map);
        }
    }
}

proof fn lemma_set_stream(
    table: Seq<StreamMetadata>,
    i: int,
    metadata: StreamMetadata,
    map: Map<Seq<char>, StreamMetadataView>,
)
    requires
        lists(table, map),
        0 <= i < table.len(),
        table[i].stream@ == metadata.stream@,
    ensures
        lists(table.update(i, metadata), map.insert(metadata.stream@, metadata@)),
{
    let after = table.update(i, metadata);
    let target = map.insert(metadata.stream@, metadata@);
    assert forall|a: int, b: int| 0 <= a < b < after.len() implies (#[trigger] after[a]).stream@ != (
    #[trigger] after[b]).stream@ by {
        assert(after[a].stream@ == table[a].stream@);
        assert(after[b].stream@ == table[b].stream@);
    }
    assert forall|a: int| 0 <= a < after.len() implies target.contains_key(
        (#[trigger] after[a]).stream@,
    )
        && target[after[a].stream@] == after[a]@ by {
        assert(after[a].stream@ == table[a].stream@);
    }
    assert forall|name: Seq<char>| #[trigger] target.contains_key(name) implies exists|a: int|
        0 <= a < after.len() && (#[trigger] after[a]).stream@ == name by {
        if name == metadata.stream@ {
            assert(after[i].stream@ == name);
        } else {
            assert(map.contains_key(name));
            let a = choose|a: int| 0 <= a < table.len() && (#[trigger] table[a]).stream@ == name;
            assert(after[a].stream@ == name);
        }
    }
}

proof fn lemma_push_stream(
    table: Seq<StreamMetadata>,
    metadata: StreamMetadata,
    map: Map<Seq<char>, StreamMetadataView>,
)
    requires
        lists(table, map),
        forall|j: int| 0 <= j < table.len() ==> (#[trigger] table[j]).stream@ != metadata.stream@,
    ensures
        lists(table.push(metadata), map.insert(metadata.stream@, metadata@)),
{
    let after = table.push(metadata);
    let target = map.insert(metadata.stream@, metadata@);
    let last = table.len() as int;
    assert(after[last] == metadata);
    assert forall|a: int, b: int| 0 <= a < b < after.len() implies (#[trigger] after[a]).stream@ != (
    #[trigger] after[b]).stream@ by {
        assert(after[a] == table[a]);
        if b < last {
            assert(after[b] == table[b]);
        }
    }
    assert forall|a: int| 0 <= a < after.len() implies target.contains_key(
        (#[trigger] after[a]).stream@,
    )
        && target[after[a].stream@] == after[a]@ by {
        if a < last {
            assert(after[a] == table[a]);
        }
    }
    assert forall|name: Seq<char>| #[trigger] target.contains_key(name) implies exists|a: int|
        0 <= a < after.len() && (#[trigger] after[a]).stream@ == name by {
        if name == metadata.stream@ {
            assert(after[last].stream@ == name);
        } else {
            assert(map.contains_key(name));
            let a = choose|a: int| 0 <= a < table.len() && (#[trigger] table[a]).stream@ == name;
            assert(after[a].stream@ == name);
        }
    }
}

/// Returns what is known of each stream that the server listed with a leader that it listed too.
pub fn from_response(response: MetadataResponse) -> (table: Vec<StreamMetadata>)
    ensures
        lists(table@, metadata_map(response.brokers@, response.stream_metadata@)),
{
    let brokers = response.brokers;
    let entries = response.stream_metadata;
    let mut table: Vec<StreamMetadata> = Vec::new();
    let mut i: usize = 0;
    while i < entries.len()
        invariant
            i <= entries.len(),
            lists(table@, metadata_map(brokers@, entries@.take(i as int))),
        decreases entries.len() - i,
    {
        assert(entries@.take(i + 1).drop_last() =~= entries@.take(i as int));
        match stream_metadata(&brokers, &entries[i]) {
            Some(metadata) => put(&mut table, metadata),
            None => {},
        }
        i = i + 1;
    }
    assert(entries@.take(i as int) =~= entries@);
    table
}

/// Every broker of a stream is one that the server listed.
pub proof fn law_brokers_are_listed(brokers: Seq<BrokerEntry>, references: Seq<u16>, i: int)
    requires
        0 <= i < brokers_of(brokers, references).len(),
    ensures
        exists|j: int|
            0 <= j < references.len() && broker_of(brokers, #[trigger] references[j]) == Some(
                brokers_of(brokers, references)[i],
            ),
    decreases references.len(),
{
    let rest = references.drop_last();
    let before = brokers_of(brokers, rest);
    let last = references.len() - 1;
    if i < before.len() {
        law_brokers_are_listed(brokers, rest, i);
        let j = choose|j: int|
            0 <= j < rest.len() && broker_of(brokers, #[trigger] rest[j]) == Some(before[i]);
        assert(references[j] == rest[j]);
    } else {
        assert(broker_of(brokers, references[last]) == Some(brokers_of(brokers, references)[i]));
    }
}

/// A listed broker is found under its reference, whatever the reference is; where several have the
/// same one, the last of them.
pub proof fn law_listed_broker_is_found(brokers: Seq<BrokerEntry>, i: int)
    requires
        0 <= i < brokers.len(),
        forall|j: int|
            i < j < brokers.len() ==> (#[trigger] brokers[j]).reference != brokers[i].reference,
    ensures
        broker_of(brokers, brokers[i].reference) == Some(
            BrokerView { host: brokers[i].host@, port: brokers[i].port },
        ),
    decreases brokers.len(),
{
    let rest = brokers.drop_last();
    if i < rest.len() {
        assert(brokers[brokers.len() - 1].reference != brokers[i].reference);
        assert(rest[i] == brokers[i]);
        law_listed_broker_is_found(rest, i);
    }
}

/// Under a reference that no listed broker has, none is found.
pub proof fn law_unlisted_broker_is_not_found(brokers: Seq<BrokerEntry>, reference: u16)
    requires
        forall|j: int| 0 <= j < brokers.len() ==> (#[trigger] brokers[j]).reference != reference,
    ensures
        broker_of(brokers, reference) is None,
    decreases brokers.len(),
{
    if brokers.len() > 0 {
        assert(brokers[brokers.len() - 1].reference != reference);
        law_unlisted_broker_is_not_found(brokers.drop_last(), reference);
    }
}

/// The brokers of a list of references are those of its parts, in their order.
pub proof fn law_brokers_of_joined_references(
    brokers: Seq<BrokerEntry>,
    first: Seq<u16>,
    second: Seq<u16>,
)
    ensures
        brokers_of(brokers, first + second) == brokers_of(brokers, first) + brokers_of(
            brokers,
            second,
        ),
    decreases second.len(),
{
    let all = first + second;
    if second.len() == 0 {
        assert(all =~= first);
        assert(brokers_of(brokers, second) =~= Seq::empty());
    } else {
        law_brokers_of_joined_references(brokers, first, second.drop_last());
        assert(all.drop_last() =~= first + second.drop_last());
        assert(all.last() == second.last());
    }
    assert(brokers_of(brokers, all) =~= brokers_of(brokers, first) + brokers_of(brokers, second));
}

/// A reference that is listed gives its broker, and one that is not gives none.
pub proof fn law_brokers_of_a_reference(brokers: Seq<BrokerEntry>, reference: u16, i: int)
    ensures
        0 <= i < brokers.len() && brokers[i].reference == reference && (forall|j: int|
            i < j < brokers.len() ==> (#[trigger] brokers[j]).reference != reference) ==> brokers_of(
            brokers,
            seq![reference],
        ) == seq![BrokerView { host: brokers[i].host@, port: brokers[i].port }],
        (forall|j: int|
            0 <= j < brokers.len() ==> (#[trigger] brokers[j]).reference != reference)
            ==> brokers_of(brokers, seq![reference]) == Seq::<BrokerView>::empty(),
{
    let single = seq![reference];
    assert(single.drop_last() =~= Seq::empty());
    assert(brokers_of(brokers, single.drop_last()) =~= Seq::empty());
    if 0 <= i < brokers.len() && brokers[i].reference == reference && (forall|j: int|
        i < j < brokers.len() ==> (#[trigger] brokers[j]).reference != reference) {
        law_listed_broker_is_found(brokers, i);
    }
    if forall|j: int| 0 <= j < brokers.len() ==> (#[trigger] brokers[j]).reference != reference {
        law_unlisted_broker_is_not_found(brokers, reference);
    }
}

/// Whether each reference is that of a broker, and of one only.
pub open spec fn all_listed(brokers: Seq<BrokerEntry>, references: Seq<u16>) -> bool {
    &&& forall|i: int, j: int|
        0 <= i < j < brokers.len() ==> (#[trigger] brokers[i]).reference != (
        #[trigger] brokers[j]).reference
    &&& forall|k: int|
        0 <= k < references.len() ==> exists|i: int|
            0 <= i < brokers.len() && (#[trigger] brokers[i]).reference == #[trigger] references[k]
}

#[verifier::spinoff_prover]
proof fn lemma_last_listed(brokers: Seq<BrokerEntry>, references: Seq<u16>) -> (j: int)
    requires
        all_listed(brokers, references),
        0 < references.len(),
    ensures
        0 <= j < brokers.len(),
        brokers[j].reference == references.last(),
        all_listed(brokers, references.drop_last()),
        brokers_of(brokers, references) == brokers_of(brokers, references.drop_last()).push(
            BrokerView { host: brokers[j].host@, port: brokers[j].port },
        ),
{
    let rest = references.drop_last();
    let last = references.len() - 1;
    assert(references.last() == references[last]);
    let j = choose|j: int|
        0 <= j < brokers.len() && (#[trigger] brokers[j]).reference == references[last];
    assert forall|h: int| j < h < brokers.len() implies (#[trigger] brokers[h]).reference
        != brokers[j].reference by {}
    law_listed_broker_is_found(brokers, j);
    assert forall|h: int| 0 <= h < rest.len() implies exists|g: int|
        0 <= g < brokers.len() && (#[trigger] brokers[g]).reference == #[trigger] rest[h] by {
        assert(rest[h] == references[h]);
        let g = choose|g: int|
            0 <= g < brokers.len() && (#[trigger] brokers[g]).reference == references[h];
        assert(brokers[g].reference == rest[h]);
    }
    j
}

proof fn lemma_listed_count(brokers: Seq<BrokerEntry>, references: Seq<u16>)
    requires
        all_listed(brokers, references),
    ensures
        brokers_of(brokers, references).len() == references.len(),
    decreases references.len(),
{
    if references.len() > 0 {
        let j = lemma_last_listed(brokers, references);
        lemma_listed_count(brokers, references.drop_last());
    }
}

/// Where all references are listed, each one gives its broker, in their order.
#[verifier::spinoff_prover]
pub proof fn law_listed_replicas_are_found(
    brokers: Seq<BrokerEntry>,
    references: Seq<u16>,
    k: int,
    i: int,
)
    requires
        all_listed(brokers, references),
        0 <= k < references.len(),
        0 <= i < brokers.len(),
        brokers[i].reference == references[k],
    ensures
        brokers_of(brokers, references).len() == references.len(),
        brokers_of(brokers, references)[k] == (
            BrokerView { host: brokers[i].host@, port: brokers[i].port }
        ),
    decreases references.len(),
{
    let rest = references.drop_last();
    let last = references.len() - 1;
    let j = lemma_last_listed(brokers, references);
    lemma_listed_count(brokers, references);
    lemma_listed_count(brokers, rest);
    if k < last {
        assert(rest[k] == references[k]);
        law_listed_replicas_are_found(brokers, rest, k, i);
    } else {
        if i < j {
            assert(brokers[i].reference != brokers[j].reference);
        } else if j < i {
            assert(brokers[j].reference != brokers[i].reference);
        }
        assert(i == j);
    }
}

proof fn lemma_later_entries_keep(
    brokers: Seq<BrokerEntry>,
    entries: Seq<StreamEntry>,
    k: int,
    metadata: StreamMetadataView,
)
    requires
        0 <= k < entries.len(),
        forall|j: int|
            k < j < entries.len() ==> (#[trigger] entries[j]).stream_name@
                != entries[k].stream_name@ || metadata_of(brokers, entries[j]) is None,
        metadata_of(brokers, entries[k]) == Some(metadata),
    ensures
        metadata_map(brokers, entries).contains_key(entries[k].stream_name@),
        metadata_map(brokers, entries)[entries[k].stream_name@] == metadata,
    decreases entries.len(),
{
    let rest = entries.drop_last();
    if k < rest.len() {
        assert(entries.last() == entries[entries.len() - 1]);
        assert(rest[k] == entries[k]);
        assert forall|j: int| k < j < rest.len() implies (#[trigger] rest[j]).stream_name@
            != rest[k].stream_name@ || metadata_of(brokers, rest[j]) is None by {
            assert(rest[j] == entries[j]);
        }
        lemma_later_entries_keep(brokers, rest, k, metadata);
    }
}

/// Whether no listed broker has the reference of the leader of a stream.
pub open spec fn has_no_listed_leader(brokers: Seq<BrokerEntry>, entry: StreamEntry) -> bool {
    forall|i: int|
        0 <= i < brokers.len() ==> (#[trigger] brokers[i]).reference != entry.leader_reference
}

/// A stream that the server lists with a leader that it lists too is in the result, once: with the
/// code of the stream, with that broker as its leader and, where all its replicas are listed, with
/// the brokers of all of them in their order. Of several such entries for a stream the last counts.
#[verifier::spinoff_prover]
pub proof fn law_stream_with_listed_leader_is_known(
    table: Seq<StreamMetadata>,
    brokers: Seq<BrokerEntry>,
    entries: Seq<StreamEntry>,
    k: int,
    i: int,
) -> (t: int)
    requires
        lists(table, metadata_map(brokers, entries)),
        0 <= k < entries.len(),
        forall|j: int|
            k < j < entries.len() ==> (#[trigger] entries[j]).stream_name@
                != entries[k].stream_name@ || has_no_listed_leader(brokers, entries[j]),
        0 <= i < brokers.len(),
        brokers[i].reference == entries[k].leader_reference,
        forall|j: int|
            i < j < brokers.len() ==> (#[trigger] brokers[j]).reference != brokers[i].reference,
    ensures
        0 <= t < table.len(),
        table[t].stream@ == entries[k].stream_name@,
        table[t].response_code == entries[k].code,
        table[t].leader.host@ == brokers[i].host@,
        table[t].leader.port == brokers[i].port,
        forall|u: int|
            0 <= u < table.len() && (#[trigger] table[u]).stream@ == entries[k].stream_name@ ==> u
                == t,
        table[t].replicas@.map_values(|broker: Broker| broker@) == brokers_of(
            brokers,
            entries[k].replicas_references@,
        ),
        all_listed(brokers, entries[k].replicas_references@) ==> table[t].replicas@.len()
            == entries[k].replicas_references@.len(),
        all_listed(brokers, entries[k].replicas_references@) ==> forall|r: int, b: int|
            0 <= r < table[t].replicas@.len() && 0 <= b < brokers.len()
                && #[trigger] brokers[b].reference == entries[k].replicas_references@[r] ==> (
            #[trigger] table[t].replicas@[r]).host@ == brokers[b].host@ && table[t].replicas@[r].port
                == brokers[b].port,
{
    let name = entries[k].stream_name@;
    let references = entries[k].replicas_references@;
    law_listed_broker_is_found(brokers, i);
    let metadata = metadata_of(brokers, entries[k])->0;
    assert forall|j: int| k < j < entries.len() implies (#[trigger] entries[j]).stream_name@ != name
        || metadata_of(brokers, entries[j]) is None by {
        if has_no_listed_leader(brokers, entries[j]) {
            law_unlisted_broker_is_not_found(brokers, entries[j].leader_reference);
        }
    }
    lemma_later_entries_keep(brokers, entries, k, metadata);
    assert(metadata_map(brokers, entries).contains_key(name));
    let t = choose|t: int| 0 <= t < table.len() && (#[trigger] table[t]).stream@ == name;
    assert(table[t]@ == metadata);
    let replicas = table[t].replicas@;
    let found = replicas.map_values(|broker: Broker| broker@);
    assert(found == brokers_of(brokers, references));
    if all_listed(brokers, references) {
        lemma_listed_count(brokers, references);
        assert(replicas.len() == found.len() == references.len());
        assert forall|r: int, b: int|
            0 <= r < replicas.len() && 0 <= b < brokers.len() && #[trigger] brokers[b].reference
                == references[r] implies (#[trigger] replicas[r]).host@ == brokers[b].host@
            && replicas[r].port == brokers[b].port by {
            law_listed_replicas_are_found(brokers, references, r, b);
            assert(found[r] == replicas[r]@);
        }
    }
    t
}

/// Nothing is known of a stream that the server does not list with a leader that it lists too:
/// whatever is in the result comes from such an entry.
pub proof fn law_known_streams_are_listed(
    table: Seq<StreamMetadata>,
    brokers: Seq<BrokerEntry>,
    entries: Seq<StreamEntry>,
    t: int,
) -> (place: (int, int))
    requires
        lists(table, metadata_map(brokers, entries)),
        0 <= t < table.len(),
    ensures
        0 <= place.0 < entries.len(),
        entries[place.0].stream_name@ == table[t].stream@,
        entries[place.0].code == table[t].response_code,
        0 <= place.1 < brokers.len(),
        brokers[place.1].reference == entries[place.0].leader_reference,
        brokers[place.1].host@ == table[t].leader.host@,
        brokers[place.1].port == table[t].leader.port,
{
    let name = table[t].stream@;
    assert(metadata_map(brokers, entries).contains_key(name));
    let k = lemma_map_entry(brokers, entries, name);
    let i = lemma_found_broker(brokers, entries[k].leader_reference);
    (k, i)
}

proof fn lemma_map_entry(
    brokers: Seq<BrokerEntry>,
    entries: Seq<StreamEntry>,
    name: Seq<char>,
) -> (k: int)
    requires
        metadata_map(brokers, entries).contains_key(name),
    ensures
        0 <= k < entries.len(),
        entries[k].stream_name@ == name,
        metadata_of(brokers, entries[k]) == Some(metadata_map(brokers, entries)[name]),
    decreases entries.len(),
{
    let last = entries.len() - 1;
    if metadata_of(brokers, entries[last]) is Some && entries[last].stream_name@ == name {
        last
    } else {
        let k = lemma_map_entry(brokers, entries.drop_last(), name);
        assert(entries.drop_last()[k] == entries[k]);
        k
    }
}

proof fn lemma_found_broker(brokers: Seq<BrokerEntry>, reference: u16) -> (i: int)
    requires
        broker_of(brokers, reference) is Some,
    ensures
        0 <= i < brokers.len(),
        brokers[i].reference == reference,
        broker_of(brokers, reference) == Some(
            BrokerView { host: brokers[i].host@, port: brokers[i].port },
        ),
    decreases brokers.len(),
{
    let last = brokers.len() - 1;
    if brokers[last].reference == reference {
        last
    } else {
        lemma_found_broker(brokers.drop_last(), reference)
    }
}

/// What is made of the answer of a server names, for each stream that it lists with a leader that it
/// lists, that broker as the leader, whatever its reference is, and the code of the stream; and it
/// names no other streams.
#[verifier::spinoff_prover]
pub proof fn law_answers_name_the_leaders(
    response: MetadataResponse,
    table: Vec<StreamMetadata>,
    k: int,
    i: int,
    t: int,
) -> (places: (int, int))
    requires
        call_ensures(from_response, (response,), table),
        0 <= k < response.stream_metadata@.len(),
        forall|j: int|
            k < j < response.stream_metadata@.len() ==> (
            #[trigger] response.stream_metadata@[j]).stream_name@
                != response.stream_metadata@[k].stream_name@,
        0 <= i < response.brokers@.len(),
        response.brokers@[i].reference == response.stream_metadata@[k].leader_reference,
        forall|j: int|
            i < j < response.brokers@.len() ==> (#[trigger] response.brokers@[j]).reference
                != response.brokers@[i].reference,
        0 <= t < table@.len(),
    ensures
        0 <= places.0 < table@.len(),
        table@[places.0].stream@ == response.stream_metadata@[k].stream_name@,
        table@[places.0].response_code == response.stream_metadata@[k].code,
        table@[places.0].leader.host@ == response.brokers@[i].host@,
        table@[places.0].leader.port == response.brokers@[i].port,
        0 <= places.1 < response.stream_metadata@.len(),
        response.stream_metadata@[places.1].stream_name@ == table@[t].stream@,
{
    let place = law_stream_with_listed_leader_is_known(
        table@,
        response.brokers@,
        response.stream_metadata@,
        k,
        i,
    );
    let source = law_known_streams_are_listed(
        table@,
        response.brokers@,
        response.stream_metadata@,
        t,
    );
    (place, source.0)
}

} // verus!
