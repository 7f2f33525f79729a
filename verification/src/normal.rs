//! Facts brought into an order of their own, so that what was analysed can be told by a digest.

use crate::digest::{framed, hash_number, hash_string, hex, hex_digest, little_endian, sha256_of};
use crate::domain::{
    confidence_bits, confidence_score, entity_kind, entity_kind_text, entity_metadata, entity_metadata_text, grpc_role_name,
    grpc_role_name_text, provenance_name, provenance_name_text, relation_name, relation_name_text, rpc_cardinality, rpc_cardinality_text,
    EntityFact, EntityModel, Observation, ObservationModel,
};
use crate::records::{entity_models, observation_models, CandidateModel, GrpcBindingCandidate, RepositoryFacts};
use crate::seqs::{concat_map, concat_map_step, last_wins, last_wins_step};
use crate::sorted::{listed, texts, Key, SortedMap};
use crate::text::same;
use vstd::prelude::*;

verus! {

/// What is known of an observation, or of a candidate for a binding, besides its key.
#[derive(Debug)]
pub struct NormalValue {
    pub first: String,
    pub confidence: u64,
    pub last: String,
}

/// The content of a [`NormalValue`].
pub ghost struct ValueModel {
    pub first: Seq<char>,
    pub confidence: u64,
    pub last: Seq<char>,
}

impl View for NormalValue {
    type V = ValueModel;

    open spec fn view(&self) -> ValueModel {
        ValueModel { first: self.first@, confidence: self.confidence, last: self.last@ }
    }
}

/// Values by their keys.
pub type NormalMap = SortedMap<Vec<String>, NormalValue>;

/// Values by their keys.
pub open spec fn normal_models(map: Map<Seq<Seq<char>>, NormalValue>) -> Map<Seq<Seq<char>>, ValueModel> {
    Map::new(|k: Seq<Seq<char>>| map.contains_key(k), |k: Seq<Seq<char>>| map[k]@)
}

proof fn normal_insert(map: Map<Seq<Seq<char>>, NormalValue>, key: Seq<Seq<char>>, value: NormalValue)
    ensures
        normal_models(map.insert(key, value)) == normal_models(map).insert(key, value@),
{
    assert(normal_models(map.insert(key, value)) =~= normal_models(map).insert(key, value@));
}

/// By what an observation is told from others: its ends and its relation.
pub open spec fn observation_key(observation: ObservationModel) -> Seq<Seq<char>> {
    seq![observation.from, relation_name_text(observation.relation), observation.to]
}

/// By what an observation is told from others.
pub fn key_of_observation(observation: &Observation) -> (r: Vec<String>)
    ensures
        texts(r@) == observation_key(observation@),
{
    let mut key: Vec<String> = Vec::new();
    key.push(observation.from.clone());
    key.push(relation_name(observation.relation).to_owned());
    key.push(observation.to.clone());
    assert(texts(key@) =~= observation_key(observation@));
    key
}

/// An observation as an entry.
pub open spec fn observation_entry(observation: ObservationModel) -> (Seq<Seq<char>>, ValueModel) {
    (
        observation_key(observation),
        ValueModel {
            first: observation.evidence,
            confidence: confidence_score(observation.confidence),
            last: provenance_name_text(observation.provenance),
        },
    )
}

/// Observations by their keys; of several with one key the last counts.
pub open spec fn normal_observations(list: Seq<ObservationModel>) -> Map<Seq<Seq<char>>, ValueModel> {
    last_wins(list.map_values(|observation: ObservationModel| observation_entry(observation)))
}

/// Brings observations in order.
pub fn normalized_observations(list: &Vec<Observation>) -> (r: NormalMap)
    ensures
        r.wf(),
        normal_models(r@) == normal_observations(observation_models(list@)),
{
    let ghost entries = observation_models(list@).map_values(|observation: ObservationModel| observation_entry(observation));
    let mut map: NormalMap = SortedMap::new();
    let mut i: usize = 0;
    assert(normal_models(map@) =~= last_wins(entries.take(0)));
    while i < list.len()
        invariant
            i <= list@.len(),
            entries == observation_models(list@).map_values(|observation: ObservationModel| observation_entry(observation)),
            map.wf(),
            normal_models(map@) == last_wins(entries.take(i as int)),
        decreases list@.len() - i,
    {
        let observation: &Observation = &list[i];
        let key: Vec<String> = key_of_observation(observation);
        let value: NormalValue = NormalValue {
            first: observation.evidence.clone(),
            confidence: confidence_bits(observation.confidence),
            last: provenance_name(observation.provenance).to_owned(),
        };
        proof {
            last_wins_step(entries, i as int);
            normal_insert(map@, key.key(), value);
            assert(entries[i as int] == observation_entry(observation@));
        }
        map.insert(key, value);
        i = i + 1;
    }
    assert(entries.take(entries.len() as int) =~= entries);
    map
}

/// By what a candidate for a binding is told from others.
pub open spec fn candidate_key(candidate: CandidateModel) -> Seq<Seq<char>> {
    seq![
        candidate.local_symbol,
        grpc_role_name_text(candidate.role),
        candidate.service,
        candidate.method,
        candidate.evidence,
    ]
}

/// A candidate for a binding as an entry.
pub open spec fn candidate_entry(candidate: CandidateModel) -> (Seq<Seq<char>>, ValueModel) {
    (
        candidate_key(candidate),
        ValueModel {
            first: rpc_cardinality_text(candidate.cardinality),
            confidence: confidence_score(candidate.confidence),
            last: provenance_name_text(candidate.provenance),
        },
    )
}

/// The content of candidates.
pub open spec fn candidate_models(list: Seq<GrpcBindingCandidate>) -> Seq<CandidateModel> {
    list.map_values(|candidate: GrpcBindingCandidate| candidate@)
}

/// Candidates for bindings by their keys; of several with one key the last counts.
pub open spec fn normal_candidates(list: Seq<CandidateModel>) -> Map<Seq<Seq<char>>, ValueModel> {
    last_wins(list.map_values(|candidate: CandidateModel| candidate_entry(candidate)))
}

/// Brings candidates for bindings in order.
pub fn normalized_grpc_bindings(list: &Vec<GrpcBindingCandidate>) -> (r: NormalMap)
    ensures
        r.wf(),
        normal_models(r@) == normal_candidates(candidate_models(list@)),
{
    let ghost entries = candidate_models(list@).map_values(|candidate: CandidateModel| candidate_entry(candidate));
    let mut map: NormalMap = SortedMap::new();
    let mut i: usize = 0;
    assert(normal_models(map@) =~= last_wins(entries.take(0)));
    while i < list.len()
        invariant
            i <= list@.len(),
            entries == candidate_models(list@).map_values(|candidate: CandidateModel| candidate_entry(candidate)),
            map.wf(),
            normal_models(map@) == last_wins(entries.take(i as int)),
        decreases list@.len() - i,
    {
        let candidate: &GrpcBindingCandidate = &list[i];
        let mut key: Vec<String> = Vec::new();
        key.push(candidate.local_symbol.clone());
        key.push(grpc_role_name(candidate.role).to_owned());
        key.push(candidate.service.clone());
        key.push(candidate.method.clone());
        key.push(candidate.evidence.clone());
        let value: NormalValue = NormalValue {
            first: rpc_cardinality(candidate.cardinality).to_owned(),
            confidence: confidence_bits(candidate.confidence),
            last: provenance_name(candidate.provenance).to_owned(),
        };
        proof {
            assert(texts(key@) =~= candidate_key(candidate@));
            last_wins_step(entries, i as int);
            normal_insert(map@, key.key(), value);
            assert(entries[i as int] == candidate_entry(candidate@));
        }
        map.insert(key, value);
        i = i + 1;
    }
    assert(entries.take(entries.len() as int) =~= entries);
    map
}

/// Kinds and metadata of entities by their identifiers.
pub type EntityMap = SortedMap<String, (String, String)>;

/// Kinds and metadata of entities by their identifiers.
pub open spec fn pair_models(map: Map<Seq<Seq<char>>, (String, String)>) -> Map<Seq<Seq<char>>, (Seq<char>, Seq<char>)> {
    Map::new(|k: Seq<Seq<char>>| map.contains_key(k), |k: Seq<Seq<char>>| (map[k].0@, map[k].1@))
}

/// An entity as an entry.
pub open spec fn entity_entry(entity: EntityModel) -> (Seq<Seq<char>>, (Seq<char>, Seq<char>)) {
    (seq![entity.id], (entity_kind_text(entity.kind), entity_metadata_text(entity.metadata)))
}

/// Entities by their identifiers; of several with one identifier the last counts.
pub open spec fn normal_entities(list: Seq<EntityModel>) -> Map<Seq<Seq<char>>, (Seq<char>, Seq<char>)> {
    last_wins(list.map_values(|entity: EntityModel| entity_entry(entity)))
}

/// Brings entities in order.
pub fn normalized_entities(list: &Vec<EntityFact>) -> (r: EntityMap)
    ensures
        r.wf(),
        pair_models(r@) == normal_entities(entity_models(list@)),
{
    let ghost entries = entity_models(list@).map_values(|entity: EntityModel| entity_entry(entity));
    let mut map: EntityMap = SortedMap::new();
    let mut i: usize = 0;
    assert(pair_models(map@) =~= last_wins(entries.take(0)));
    while i < list.len()
        invariant
            i <= list@.len(),
            entries == entity_models(list@).map_values(|entity: EntityModel| entity_entry(entity)),
            map.wf(),
            pair_models(map@) == last_wins(entries.take(i as int)),
        decreases list@.len() - i,
    {
        let entity: &EntityFact = &list[i];
        let value: (String, String) = (entity_kind(entity.kind).to_owned(), entity_metadata(entity.metadata).to_owned());
        let ghost before = map@;
        let ghost pair = value;
        map.insert(entity.id.clone(), value);
        proof {
            last_wins_step(entries, i as int);
            assert(entries[i as int] == entity_entry(entity@));
            assert(pair_models(map@) =~= pair_models(before).insert(seq![entity.id@], (pair.0@, pair.1@)));
        }
        i = i + 1;
    }
    assert(entries.take(entries.len() as int) =~= entries);
    map
}

/// Texts as they go into a digest, one behind the other.
pub open spec fn framed_texts(list: Seq<Seq<char>>) -> Seq<u8> {
    concat_map(list, |text: Seq<char>| framed(text))
}

/// Appends texts.
pub fn hash_texts(bytes: &mut Vec<u8>, list: &Vec<String>)
    ensures
        final(bytes)@ == old(bytes)@ + framed_texts(texts(list@)),
{
    let ghost before = bytes@;
    let ghost names = texts(list@);
    let ghost piece = |text: Seq<char>| framed(text);
    let mut i: usize = 0;
    assert(before + concat_map(names.take(0), piece) =~= before);
    while i < list.len()
        invariant
            i <= list@.len(),
            names == texts(list@),
            piece == (|text: Seq<char>| framed(text)),
            bytes@ == before + concat_map(names.take(i as int), piece),
        decreases list@.len() - i,
    {
        hash_string(bytes, list[i].as_str());
        proof {
            concat_map_step(names, i as int, piece);
            assert(names[i as int] == list@[i as int]@);
            assert(bytes@ =~= before + concat_map(names.take(i as int + 1), piece));
        }
        i = i + 1;
    }
    assert(names.take(names.len() as int) =~= names);
}

/// What a value with its key contributes to a digest.
pub open spec fn value_bytes(key: Seq<Seq<char>>, value: ValueModel) -> Seq<u8> {
    framed_texts(key) + framed(value.first) + framed(value.last) + little_endian(value.confidence as nat, 8)
}

/// What values by their keys contribute to a digest, in the order of the keys.
pub open spec fn normal_bytes(map: Map<Seq<Seq<char>>, ValueModel>) -> Seq<u8> {
    concat_map(listed(map.dom()), |k: Seq<Seq<char>>| value_bytes(k, map[k]))
}

/// Appends values by their keys.
pub fn hash_normal(bytes: &mut Vec<u8>, map: &NormalMap)
    requires
        map.wf(),
    ensures
        final(bytes)@ == old(bytes)@ + normal_bytes(normal_models(map@)),
{
    let ghost before = bytes@;
    let ghost all = map.listing();
    let ghost models = normal_models(map@);
    let ghost piece = |k: Seq<Seq<char>>| value_bytes(k, models[k]);
    let mut i: usize = 0;
    let n: usize = map.keys.len();
    assert(before + concat_map(all.take(0), piece) =~= before);
    while i < n
        invariant
            i <= n,
            n == map.keys@.len(),
            map.wf(),
            all == map.listing(),
            models == normal_models(map@),
            piece == (|k: Seq<Seq<char>>| value_bytes(k, models[k])),
            bytes@ == before + concat_map(all.take(i as int), piece),
        decreases n - i,
    {
        hash_texts(bytes, &map.keys[i]);
        hash_string(bytes, map.values[i].first.as_str());
        hash_string(bytes, map.values[i].last.as_str());
        hash_number(bytes, map.values[i].confidence);
        proof {
            map.entry(i as int);
            concat_map_step(all, i as int, piece);
            assert(all[i as int] == texts(map.keys@[i as int]@));
            assert(bytes@ =~= before + concat_map(all.take(i as int + 1), piece));
        }
        i = i + 1;
    }
    proof {
        map.lists_its_keys();
        assert(models.dom() =~= map@.dom());
        assert(all.take(all.len() as int) =~= all);
    }
}

/// What entities contribute to a digest, in the order of their identifiers.
pub open spec fn entity_bytes(map: Map<Seq<Seq<char>>, (Seq<char>, Seq<char>)>) -> Seq<u8> {
    concat_map(listed(map.dom()), |k: Seq<Seq<char>>| framed(k[0]) + framed(map[k].0) + framed(map[k].1))
}

/// Appends entities.
pub fn hash_entities(bytes: &mut Vec<u8>, map: &EntityMap)
    requires
        map.wf(),
    ensures
        final(bytes)@ == old(bytes)@ + entity_bytes(pair_models(map@)),
{
    let ghost before = bytes@;
    let ghost all = map.listing();
    let ghost models = pair_models(map@);
    let ghost piece = |k: Seq<Seq<char>>| framed(k[0]) + framed(models[k].0) + framed(models[k].1);
    let mut i: usize = 0;
    let n: usize = map.keys.len();
    assert(before + concat_map(all.take(0), piece) =~= before);
    while i < n
        invariant
            i <= n,
            n == map.keys@.len(),
            map.wf(),
            all == map.listing(),
            models == pair_models(map@),
            piece == (|k: Seq<Seq<char>>| framed(k[0]) + framed(models[k].0) + framed(models[k].1)),
            bytes@ == before + concat_map(all.take(i as int), piece),
        decreases n - i,
    {
        hash_string(bytes, map.keys[i].as_str());
        hash_string(bytes, map.values[i].0.as_str());
        hash_string(bytes, map.values[i].1.as_str());
        proof {
            map.entry(i as int);
            concat_map_step(all, i as int, piece);
            assert(all[i as int] == seq![map.keys@[i as int]@]);
            assert(bytes@ =~= before + concat_map(all.take(i as int + 1), piece));
        }
        i = i + 1;
    }
    proof {
        map.lists_its_keys();
        assert(models.dom() =~= map@.dom());
        assert(all.take(all.len() as int) =~= all);
    }
}

/// What goes into the digest of an analysed repository.
pub open spec fn analyzed_bytes(facts: RepositoryFacts) -> Seq<u8> {
    framed(facts.state@.repository) + framed(facts.state@.fingerprint) + normal_bytes(
        normal_observations(observation_models(facts.observations@)),
    ) + entity_bytes(normal_entities(entity_models(facts.entities@))) + normal_bytes(
        normal_candidates(candidate_models(facts.grpc_bindings@)),
    )
}

/// The name of a repository state as it was analysed: its fingerprint, and a digest of what was
/// found there.
pub open spec fn analyzed_name(facts: RepositoryFacts) -> Seq<char> {
    facts.state@.fingerprint + ":"@ + hex(sha256_of(analyzed_bytes(facts)))
}

/// The name of a repository state as it was analysed.
pub fn analyzed_state(facts: &RepositoryFacts) -> (r: String)
    ensures
        r@ == analyzed_name(*facts),
{
    let mut bytes: Vec<u8> = Vec::new();
    hash_string(&mut bytes, facts.state.repository.identity.as_str());
    hash_string(&mut bytes, facts.state.fingerprint.as_str());
    hash_normal(&mut bytes, &normalized_observations(&facts.observations));
    hash_entities(&mut bytes, &normalized_entities(&facts.entities));
    hash_normal(&mut bytes, &normalized_grpc_bindings(&facts.grpc_bindings));
    assert(bytes@ =~= analyzed_bytes(*facts));
    let mut name: String = facts.state.fingerprint.clone();
    name.append(":");
    name.append(hex_digest(&bytes).as_str());
    name
}

/// The order in which facts were found, and repetitions of them, do not show in the name of an
/// analysed state.
pub proof fn analyzed_names_ignore_order(a: RepositoryFacts, b: RepositoryFacts)
    requires
        a.state@ == b.state@,
        normal_observations(observation_models(a.observations@)) == normal_observations(observation_models(b.observations@)),
        normal_entities(entity_models(a.entities@)) == normal_entities(entity_models(b.entities@)),
        normal_candidates(candidate_models(a.grpc_bindings@)) == normal_candidates(candidate_models(b.grpc_bindings@)),
    ensures
        analyzed_name(a) == analyzed_name(b),
{
}

spec fn normal_agree(a: &NormalMap, b: &NormalMap, j: int) -> bool {
    texts(a.keys@[j]@) == texts(b.keys@[j]@) && a.values@[j]@ == b.values@[j]@
}

spec fn entities_agree(a: &EntityMap, b: &EntityMap, j: int) -> bool {
    a.keys@[j]@ == b.keys@[j]@ && a.values@[j].0@ == b.values@[j].0@ && a.values@[j].1@ == b.values@[j].1@
}

/// Whether two maps hold the same values by the same keys.
pub fn same_normal(a: &NormalMap, b: &NormalMap) -> (r: bool)
    requires
        a.wf(),
        b.wf(),
    ensures
        r == (normal_models(a@) == normal_models(b@)),
{
    let ghost x = normal_models(a@);
    let ghost y = normal_models(b@);
    proof {
        a.lists_its_keys();
        b.lists_its_keys();
        assert(x.dom() =~= a@.dom());
        assert(y.dom() =~= b@.dom());
        if x == y {
            assert(a.listing() == b.listing());
            assert(a.listing().len() == a.keys@.len());
            assert(b.listing().len() == b.keys@.len());
        }
    }
    if a.keys.len() != b.keys.len() {
        return false;
    }
    let n: usize = a.keys.len();
    let mut i: usize = 0;
    while i < n
        invariant
            i <= n,
            n == a.keys@.len(),
            n == b.keys@.len(),
            a.wf(),
            b.wf(),
            x == normal_models(a@),
            y == normal_models(b@),
            x == y ==> a.listing() == b.listing(),
            forall|j: int| 0 <= j < i ==> #[trigger] normal_agree(a, b, j),
        decreases n - i,
    {
        let keys_agree: bool = crate::query::same_texts(&a.keys[i], &b.keys[i]);
        let values_agree: bool = a.values[i].confidence == b.values[i].confidence && same(
            a.values[i].first.as_str(),
            b.values[i].first.as_str(),
        ) && same(a.values[i].last.as_str(), b.values[i].last.as_str());
        if !keys_agree || !values_agree {
            proof {
                if x == y {
                    a.entry(i as int);
                    b.entry(i as int);
                    assert(a.listing()[i as int] == b.listing()[i as int]);
                    let k = a.keys@[i as int].key();
                    assert(x[k] == a.values@[i as int]@);
                    assert(y[k] == b.values@[i as int]@);
                }
            }
            return false;
        }
        assert(normal_agree(a, b, i as int));
        i = i + 1;
    }
    proof {
        assert(a.listing() =~= b.listing()) by {
            assert forall|j: int| 0 <= j < a.listing().len() implies a.listing()[j] == b.listing()[j] by {
                assert(normal_agree(a, b, j));
            }
        }
        a.size();
        b.size();
        assert(x.dom() =~= y.dom());
        assert forall|k: Seq<Seq<char>>| x.contains_key(k) implies x[k] == y[k] by {
            let j = a.position(k);
            a.entry(j);
            b.entry(j);
            assert(normal_agree(a, b, j));
        }
        assert(x =~= y);
    }
    true
}

/// Whether two maps hold the same entities.
pub fn same_entities(a: &EntityMap, b: &EntityMap) -> (r: bool)
    requires
        a.wf(),
        b.wf(),
    ensures
        r == (pair_models(a@) == pair_models(b@)),
{
    let ghost x = pair_models(a@);
    let ghost y = pair_models(b@);
    proof {
        a.lists_its_keys();
        b.lists_its_keys();
        assert(x.dom() =~= a@.dom());
        assert(y.dom() =~= b@.dom());
        if x == y {
            assert(a.listing() == b.listing());
            assert(a.listing().len() == a.keys@.len());
            assert(b.listing().len() == b.keys@.len());
        }
    }
    if a.keys.len() != b.keys.len() {
        return false;
    }
    let n: usize = a.keys.len();
    let mut i: usize = 0;
    while i < n
        invariant
            i <= n,
            n == a.keys@.len(),
            n == b.keys@.len(),
            a.wf(),
            b.wf(),
            x == pair_models(a@),
            y == pair_models(b@),
            x == y ==> a.listing() == b.listing(),
            forall|j: int| 0 <= j < i ==> #[trigger] entities_agree(a, b, j),
        decreases n - i,
    {
        let agree: bool = same(a.keys[i].as_str(), b.keys[i].as_str()) && same(a.values[i].0.as_str(), b.values[i].0.as_str()) && same(
            a.values[i].1.as_str(),
            b.values[i].1.as_str(),
        );
        if !agree {
            proof {
                if x == y {
                    a.entry(i as int);
                    b.entry(i as int);
                    assert(a.listing()[i as int] == b.listing()[i as int]);
                    let k = a.keys@[i as int].key();
                    assert(k == b.keys@[i as int].key());
                    assert(k[0] == a.keys@[i as int]@);
                    assert(b.keys@[i as int].key()[0] == b.keys@[i as int]@);
                    assert(x[k] == (a.values@[i as int].0@, a.values@[i as int].1@));
                    assert(y[k] == (b.values@[i as int].0@, b.values@[i as int].1@));
                }
            }
            return false;
        }
        assert(entities_agree(a, b, i as int));
        i = i + 1;
    }
    proof {
        assert(a.listing() =~= b.listing()) by {
            assert forall|j: int| 0 <= j < a.listing().len() implies a.listing()[j] == b.listing()[j] by {
                assert(entities_agree(a, b, j));
                assert(a.listing()[j] =~= b.listing()[j]);
            }
        }
        a.size();
        b.size();
        assert(x.dom() =~= y.dom());
        assert forall|k: Seq<Seq<char>>| x.contains_key(k) implies x[k] == y[k] by {
            let j = a.position(k);
            a.entry(j);
            b.entry(j);
            assert(entities_agree(a, b, j));
        }
        assert(x =~= y);
    }
    true
}

} // verus!
