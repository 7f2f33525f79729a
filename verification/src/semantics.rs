//! What the baseline of a view holds of a repository, selected by kind and relation.

use crate::command::{named_texts, texts_bound, texts_command, Command};
use crate::domain::{
    entity_kind_names_distinct, entity_kind_text, entity_metadata_names_distinct, entity_metadata_text, parse_confidence,
    parse_entity_kind, parse_entity_metadata, parse_provenance, parse_relation, provenance_name_text, provenance_names_distinct,
    relation_name_text, relation_names_distinct, Confidence, EntityFact, EntityKind, EntityMetadata, EntityModel, Observation,
    ObservationModel, Provenance, SemanticRelation, EXACT_BITS, INFERRED_BITS,
};
use crate::ids::TextSet;
use crate::records::{entity_models, observation_models};
use crate::rows::{cell_number, cell_text, float, not_a_string, string_at, InspectionResult, InspectionValue, Row};
use crate::sorted::{finite_sets_are_listed, listed, Key, SortedMap};
use crate::write_scripts::{BASELINE_ENTITY_FACTS, BASELINE_OBSERVATION_FACTS};
use vstd::prelude::*;

verus! {

/// Why stored facts cannot be read: a message, or the bits of a confidence that there is not.
#[derive(Debug)]
pub enum StoredError {
    Message(String),
    Confidence(u64),
}

/// The content of a [`StoredError`].
pub ghost enum StoredProblem {
    Message(Seq<char>),
    Confidence(int),
}

impl View for StoredError {
    type V = StoredProblem;

    open spec fn view(&self) -> StoredProblem {
        match *self {
            StoredError::Message(message) => StoredProblem::Message(message@),
            StoredError::Confidence(bits) => StoredProblem::Confidence(bits as int),
        }
    }
}

/// The kind that is stored by a name.
pub open spec fn kind_named(name: Seq<char>) -> Option<EntityKind> {
    if exists|kind: EntityKind| #[trigger] entity_kind_text(kind) == name {
        Some(choose|kind: EntityKind| #[trigger] entity_kind_text(kind) == name)
    } else {
        None
    }
}

/// The metadata that are stored by a name.
pub open spec fn metadata_named(name: Seq<char>) -> Option<Option<EntityMetadata>> {
    if exists|metadata: Option<EntityMetadata>| #[trigger] entity_metadata_text(metadata) == name {
        Some(choose|metadata: Option<EntityMetadata>| #[trigger] entity_metadata_text(metadata) == name)
    } else {
        None
    }
}

/// The relation that is stored by a name.
pub open spec fn relation_named(name: Seq<char>) -> Option<SemanticRelation> {
    if exists|relation: SemanticRelation| #[trigger] relation_name_text(relation) == name {
        Some(choose|relation: SemanticRelation| #[trigger] relation_name_text(relation) == name)
    } else {
        None
    }
}

/// The provenance that is stored by a name.
pub open spec fn provenance_named(name: Seq<char>) -> Option<Provenance> {
    if exists|provenance: Provenance| #[trigger] provenance_name_text(provenance) == name {
        Some(choose|provenance: Provenance| #[trigger] provenance_name_text(provenance) == name)
    } else {
        None
    }
}

/// The confidence that is stored by its bits.
pub open spec fn confidence_of(bits: int) -> Option<Confidence> {
    if bits == EXACT_BITS {
        Some(Confidence::Exact)
    } else if bits == INFERRED_BITS {
        Some(Confidence::Inferred)
    } else {
        None
    }
}

/// A value that should have been a string.
pub open spec fn no_string(field: Seq<char>) -> StoredProblem {
    StoredProblem::Message(not_a_string("stored "@, field))
}

/// An entity that is stored.
pub open spec fn stored_fact(row: Row) -> Result<EntityModel, StoredProblem> {
    match cell_text(row, 0) {
        None => Err(no_string("entity ID"@)),
        Some(id) => match cell_text(row, 1) {
            None => Err(no_string("entity kind"@)),
            Some(kind) => match kind_named(kind) {
                None => Err(StoredProblem::Message("unknown stored entity kind "@ + kind)),
                Some(kind) => match cell_text(row, 2) {
                    None => Err(no_string("entity metadata"@)),
                    Some(metadata) => match metadata_named(metadata) {
                        None => Err(StoredProblem::Message("unknown stored entity metadata "@ + metadata)),
                        Some(metadata) => Ok(EntityModel { id, kind, metadata }),
                    },
                },
            },
        },
    }
}

/// The entities that are stored, by their IDs.
pub open spec fn stored_facts(rows: Seq<Vec<InspectionValue>>, n: int) -> Result<Map<Seq<Seq<char>>, EntityModel>, StoredProblem>
    decreases n,
{
    if n <= 0 {
        Ok(Map::empty())
    } else {
        match stored_facts(rows, n - 1) {
            Err(problem) => Err(problem),
            Ok(before) => match stored_fact(rows[n - 1]@) {
                Err(problem) => Err(problem),
                Ok(entity) => Ok(before.insert(seq![entity.id], entity)),
            },
        }
    }
}

/// An observation that is stored, if its relation is among those that are wanted.
pub open spec fn stored_observation(row: Row, relations: Seq<SemanticRelation>) -> Result<Option<ObservationModel>, StoredProblem> {
    match cell_text(row, 1) {
        None => Err(no_string("relation"@)),
        Some(name) => match relation_named(name) {
            None => Err(StoredProblem::Message("unknown stored semantic relation "@ + name)),
            Some(relation) => if !relations.contains(relation) {
                Ok(None)
            } else {
                match (cell_text(row, 0), cell_text(row, 2), cell_text(row, 3)) {
                    (None, _, _) => Err(no_string("source entity"@)),
                    (_, None, _) => Err(no_string("destination entity"@)),
                    (_, _, None) => Err(no_string("evidence"@)),
                    (Some(from), Some(to), Some(evidence)) => match cell_number(row, 4) {
                        None => Err(StoredProblem::Message("stored confidence is not a float"@)),
                        Some(bits) => match confidence_of(bits) {
                            None => Err(StoredProblem::Confidence(bits)),
                            Some(confidence) => match cell_text(row, 5) {
                                None => Err(no_string("provenance"@)),
                                Some(name) => match provenance_named(name) {
                                    None => Err(StoredProblem::Message("unknown stored provenance "@ + name)),
                                    Some(provenance) => Ok(
                                        Some(ObservationModel { from, relation, to, evidence, confidence, provenance }),
                                    ),
                                },
                            },
                        },
                    },
                }
            },
        },
    }
}

/// The observations that are stored and wanted.
pub open spec fn stored_observations(rows: Seq<Vec<InspectionValue>>, relations: Seq<SemanticRelation>, n: int) -> Result<
    Seq<ObservationModel>,
    StoredProblem,
>
    decreases n,
{
    if n <= 0 {
        Ok(Seq::empty())
    } else {
        match stored_observations(rows, relations, n - 1) {
            Err(problem) => Err(problem),
            Ok(before) => match stored_observation(rows[n - 1]@, relations) {
                Err(problem) => Err(problem),
                Ok(None) => Ok(before),
                Ok(Some(observation)) => Ok(before.push(observation)),
            },
        }
    }
}

/// Where some observations begin and end.
pub open spec fn ends_of(list: Seq<ObservationModel>) -> Set<Seq<Seq<char>>>
    decreases list.len(),
{
    if list.len() == 0 {
        Set::empty()
    } else {
        ends_of(list.drop_last()).insert(seq![list.last().from]).insert(seq![list.last().to])
    }
}

/// The IDs of the entities of the kinds that are wanted.
pub open spec fn of_kinds(entities: Map<Seq<Seq<char>>, EntityModel>, kinds: Seq<EntityKind>) -> Set<Seq<Seq<char>>> {
    Set::new(|key: Seq<Seq<char>>| entities.contains_key(key) && kinds.contains(entities[key].kind))
}

/// The entities with the first of some IDs.
pub open spec fn picked(entities: Map<Seq<Seq<char>>, EntityModel>, ids: Seq<Seq<Seq<char>>>, n: int) -> Result<
    Seq<EntityModel>,
    StoredProblem,
>
    decreases n,
{
    if n <= 0 {
        Ok(Seq::empty())
    } else {
        match picked(entities, ids, n - 1) {
            Err(problem) => Err(problem),
            Ok(before) => if entities.contains_key(ids[n - 1]) {
                Ok(before.push(entities[ids[n - 1]]))
            } else {
                Err(StoredProblem::Message("baseline relationship references missing entity "@ + ids[n - 1][0]))
            },
        }
    }
}

/// What the baseline holds that is wanted: the entities of some kinds, the observations of some
/// relations, and the entities where these begin and end.
pub open spec fn baseline_semantics(
    entities: Seq<Vec<InspectionValue>>,
    observations: Seq<Vec<InspectionValue>>,
    kinds: Seq<EntityKind>,
    relations: Seq<SemanticRelation>,
) -> Result<(Seq<EntityModel>, Seq<ObservationModel>), StoredProblem> {
    match stored_facts(entities, entities.len() as int) {
        Err(problem) => Err(problem),
        Ok(known) => {
            let wanted = if relations.len() == 0 {
                Ok(Seq::empty())
            } else {
                stored_observations(observations, relations, observations.len() as int)
            };
            match wanted {
                Err(problem) => Err(problem),
                Ok(wanted) => {
                    let ids = listed(of_kinds(known, kinds).union(ends_of(wanted)));
                    match picked(known, ids, ids.len() as int) {
                        Err(problem) => Err(problem),
                        Ok(found) => Ok((found, wanted)),
                    }
                },
            }
        },
    }
}

proof fn kind_is_named(kind: EntityKind)
    ensures
        kind_named(entity_kind_text(kind)) == Some(kind),
{
    let found = choose|other: EntityKind| #[trigger] entity_kind_text(other) == entity_kind_text(kind);
    entity_kind_names_distinct(found, kind);
}

proof fn metadata_are_named(metadata: Option<EntityMetadata>)
    ensures
        metadata_named(entity_metadata_text(metadata)) == Some(metadata),
{
    let found = choose|other: Option<EntityMetadata>| #[trigger] entity_metadata_text(other) == entity_metadata_text(metadata);
    entity_metadata_names_distinct(found, metadata);
}

proof fn relation_is_named(relation: SemanticRelation)
    ensures
        relation_named(relation_name_text(relation)) == Some(relation),
{
    let found = choose|other: SemanticRelation| #[trigger] relation_name_text(other) == relation_name_text(relation);
    relation_names_distinct(found, relation);
}

proof fn provenance_is_named(provenance: Provenance)
    ensures
        provenance_named(provenance_name_text(provenance)) == Some(provenance),
{
    let found = choose|other: Provenance| #[trigger] provenance_name_text(other) == provenance_name_text(provenance);
    provenance_names_distinct(found, provenance);
}

proof fn stored_facts_error(rows: Seq<Vec<InspectionValue>>, k: int, n: int)
    requires
        0 <= k <= n,
        stored_facts(rows, k) is Err,
    ensures
        stored_facts(rows, n) == stored_facts(rows, k),
    decreases n - k,
{
    if k < n {
        stored_facts_error(rows, k + 1, n);
    }
}

proof fn stored_observations_error(rows: Seq<Vec<InspectionValue>>, relations: Seq<SemanticRelation>, k: int, n: int)
    requires
        0 <= k <= n,
        stored_observations(rows, relations, k) is Err,
    ensures
        stored_observations(rows, relations, n) == stored_observations(rows, relations, k),
    decreases n - k,
{
    if k < n {
        stored_observations_error(rows, relations, k + 1, n);
    }
}

proof fn picked_error(entities: Map<Seq<Seq<char>>, EntityModel>, ids: Seq<Seq<Seq<char>>>, k: int, n: int)
    requires
        0 <= k <= n,
        picked(entities, ids, k) is Err,
    ensures
        picked(entities, ids, n) == picked(entities, ids, k),
    decreases n - k,
{
    if k < n {
        picked_error(entities, ids, k + 1, n);
    }
}

fn string<'a>(row: &'a Vec<InspectionValue>, column: usize, field: &str) -> (r: Result<&'a str, StoredError>)
    ensures
        r is Ok <==> cell_text(row@, column as int) is Some,
        r is Ok ==> r->Ok_0@ == cell_text(row@, column as int)->0,
        r is Err ==> r->Err_0@ == no_string(field@),
{
    match string_at(row, column, "stored ", field) {
        Ok(text) => Ok(text),
        Err(message) => Err(StoredError::Message(message)),
    }
}

fn decode_fact(row: &Vec<InspectionValue>) -> (r: Result<EntityFact, StoredError>)
    ensures
        r is Ok <==> stored_fact(row@) is Ok,
        r is Ok ==> r->Ok_0@ == stored_fact(row@)->Ok_0,
        r is Err ==> r->Err_0@ == stored_fact(row@)->Err_0,
{
    let id: &str = match string(row, 0, "entity ID") {
        Ok(text) => text,
        Err(error) => {
            return Err(error);
        },
    };
    let name: &str = match string(row, 1, "entity kind") {
        Ok(text) => text,
        Err(error) => {
            return Err(error);
        },
    };
    let kind: EntityKind = match parse_entity_kind(name) {
        Ok(kind) => kind,
        Err(message) => {
            return Err(StoredError::Message(message));
        },
    };
    proof {
        kind_is_named(kind);
    }
    let name: &str = match string(row, 2, "entity metadata") {
        Ok(text) => text,
        Err(error) => {
            return Err(error);
        },
    };
    let metadata: Option<EntityMetadata> = match parse_entity_metadata(name) {
        Ok(metadata) => metadata,
        Err(message) => {
            return Err(StoredError::Message(message));
        },
    };
    proof {
        metadata_are_named(metadata);
    }
    Ok(EntityFact { id: id.to_owned(), kind, metadata })
}

fn decode_observation(row: &Vec<InspectionValue>, relations: &Vec<SemanticRelation>) -> (r: Result<Option<Observation>, StoredError>)
    ensures
        r is Ok <==> stored_observation(row@, relations@) is Ok,
        r is Ok ==> match r->Ok_0 {
            Some(observation) => stored_observation(row@, relations@)->Ok_0 == Some(observation@),
            None => stored_observation(row@, relations@)->Ok_0 is None,
        },
        r is Err ==> r->Err_0@ == stored_observation(row@, relations@)->Err_0,
{
    let name: &str = match string(row, 1, "relation") {
        Ok(text) => text,
        Err(error) => {
            return Err(error);
        },
    };
    let relation: SemanticRelation = match parse_relation(name) {
        Ok(relation) => relation,
        Err(message) => {
            return Err(StoredError::Message(message));
        },
    };
    proof {
        relation_is_named(relation);
    }
    if !has_relation(relations, relation) {
        return Ok(None);
    }
    let from: &str = match string(row, 0, "source entity") {
        Ok(text) => text,
        Err(error) => {
            return Err(error);
        },
    };
    let to: &str = match string(row, 2, "destination entity") {
        Ok(text) => text,
        Err(error) => {
            return Err(error);
        },
    };
    let evidence: &str = match string(row, 3, "evidence") {
        Ok(text) => text,
        Err(error) => {
            return Err(error);
        },
    };
    let bits: u64 = match float(row, 4, "confidence") {
        Ok(bits) => bits,
        Err(_) => {
            return Err(StoredError::Message("stored confidence is not a float".to_owned()));
        },
    };
    let confidence: Confidence = match parse_confidence(bits) {
        Ok(confidence) => confidence,
        Err(bits) => {
            return Err(StoredError::Confidence(bits));
        },
    };
    let name: &str = match string(row, 5, "provenance") {
        Ok(text) => text,
        Err(error) => {
            return Err(error);
        },
    };
    let provenance: Provenance = match parse_provenance(name) {
        Ok(provenance) => provenance,
        Err(message) => {
            return Err(StoredError::Message(message));
        },
    };
    proof {
        provenance_is_named(provenance);
    }
    Ok(
        Some(
            Observation {
                from: from.to_owned(),
                relation,
                to: to.to_owned(),
                evidence: evidence.to_owned(),
                confidence,
                provenance,
            },
        ),
    )
}

fn has_relation(list: &Vec<SemanticRelation>, wanted: SemanticRelation) -> (r: bool)
    ensures
        r == list@.contains(wanted),
{
    let mut i: usize = 0;
    while i < list.len()
        invariant
            i <= list@.len(),
            forall|k: int| 0 <= k < i ==> list@[k] != wanted,
        decreases list@.len() - i,
    {
        if list[i] == wanted {
            return true;
        }
        i = i + 1;
    }
    false
}

fn has_kind(list: &Vec<EntityKind>, wanted: EntityKind) -> (r: bool)
    ensures
        r == list@.contains(wanted),
{
    let mut i: usize = 0;
    while i < list.len()
        invariant
            i <= list@.len(),
            forall|k: int| 0 <= k < i ==> list@[k] != wanted,
        decreases list@.len() - i,
    {
        if list[i] == wanted {
            return true;
        }
        i = i + 1;
    }
    false
}

/// Entities by their IDs.
type FactMap = SortedMap<String, EntityFact>;

spec fn known_facts(map: Map<Seq<Seq<char>>, EntityFact>) -> Map<Seq<Seq<char>>, EntityModel> {
    Map::new(|key: Seq<Seq<char>>| map.contains_key(key), |key: Seq<Seq<char>>| map[key]@)
}

fn decode_facts(rows: &Vec<Vec<InspectionValue>>) -> (r: Result<FactMap, StoredError>)
    ensures
        r is Ok <==> stored_facts(rows@, rows@.len() as int) is Ok,
        r is Ok ==> r->Ok_0.wf() && known_facts(r->Ok_0@) == stored_facts(rows@, rows@.len() as int)->Ok_0,
        r is Err ==> r->Err_0@ == stored_facts(rows@, rows@.len() as int)->Err_0,
{
    let mut map: FactMap = SortedMap::new();
    let mut i: usize = 0;
    assert(known_facts(map@) =~= Map::empty());
    while i < rows.len()
        invariant
            i <= rows@.len(),
            map.wf(),
            stored_facts(rows@, i as int) is Ok,
            known_facts(map@) == stored_facts(rows@, i as int)->Ok_0,
        decreases rows@.len() - i,
    {
        match decode_fact(&rows[i]) {
            Ok(entity) => {
                let ghost before = map@;
                let ghost model = entity@;
                let key: String = entity.id.clone();
                map.insert(key, entity);
                assert(known_facts(map@) =~= known_facts(before).insert(seq![model.id], model));
            },
            Err(error) => {
                proof {
                    stored_facts_error(rows@, i as int + 1, rows@.len() as int);
                }
                return Err(error);
            },
        }
        i = i + 1;
    }
    Ok(map)
}

fn decode_observations(rows: &Vec<Vec<InspectionValue>>, relations: &Vec<SemanticRelation>) -> (r: Result<Vec<Observation>, StoredError>)
    ensures
        r is Ok <==> stored_observations(rows@, relations@, rows@.len() as int) is Ok,
        r is Ok ==> observation_models(r->Ok_0@) == stored_observations(rows@, relations@, rows@.len() as int)->Ok_0,
        r is Err ==> r->Err_0@ == stored_observations(rows@, relations@, rows@.len() as int)->Err_0,
{
    let mut list: Vec<Observation> = Vec::new();
    let mut i: usize = 0;
    assert(observation_models(list@) =~= Seq::empty());
    while i < rows.len()
        invariant
            i <= rows@.len(),
            stored_observations(rows@, relations@, i as int) is Ok,
            observation_models(list@) == stored_observations(rows@, relations@, i as int)->Ok_0,
        decreases rows@.len() - i,
    {
        match decode_observation(&rows[i], relations) {
            Ok(Some(observation)) => {
                let ghost before = list@;
                let ghost model = observation@;
                list.push(observation);
                assert(observation_models(list@) =~= observation_models(before).push(model));
            },
            Ok(None) => {},
            Err(error) => {
                proof {
                    stored_observations_error(rows@, relations@, i as int + 1, rows@.len() as int);
                }
                return Err(error);
            },
        }
        i = i + 1;
    }
    Ok(list)
}

fn wanted_ids(map: &FactMap, kinds: &Vec<EntityKind>, observations: &Vec<Observation>) -> (r: TextSet)
    requires
        map.wf(),
    ensures
        r.wf(),
        r@.dom() == of_kinds(known_facts(map@), kinds@).union(ends_of(observation_models(observations@))),
{
    let mut ids: TextSet = SortedMap::new();
    let mut i: usize = 0;
    while i < map.keys.len()
        invariant
            i <= map.keys@.len(),
            map.wf(),
            ids.wf(),
            forall|key: Seq<Seq<char>>| #[trigger]
                ids@.dom().contains(key) <==> exists|j: int|
                    0 <= j < i && #[trigger] map.keys@[j].key() == key && kinds@.contains(map.values@[j].kind),
        decreases map.keys@.len() - i,
    {
        let ghost before = ids@.dom();
        if has_kind(kinds, map.values[i].kind) {
            ids.insert(map.keys[i].clone(), ());
            assert(ids@.dom() =~= before.insert(map.keys@[i as int].key()));
        }
        proof {
            assert forall|key: Seq<Seq<char>>| #[trigger] ids@.dom().contains(key) <==> exists|j: int|
                0 <= j < i + 1 && #[trigger] map.keys@[j].key() == key && kinds@.contains(map.values@[j].kind) by {
                if before.contains(key) {
                    let j = choose|j: int|
                        0 <= j < i && #[trigger] map.keys@[j].key() == key && kinds@.contains(map.values@[j].kind);
                    assert(map.keys@[j].key() == key);
                }
                if exists|j: int| 0 <= j < i + 1 && #[trigger] map.keys@[j].key() == key && kinds@.contains(map.values@[j].kind) {
                    let j = choose|j: int|
                        0 <= j < i + 1 && #[trigger] map.keys@[j].key() == key && kinds@.contains(map.values@[j].kind);
                    if j < i {
                        assert(before.contains(key));
                    }
                }
            }
        }
        i = i + 1;
    }
    let ghost known = known_facts(map@);
    proof {
        assert forall|key: Seq<Seq<char>>| ids@.dom().contains(key) <==> #[trigger] of_kinds(known, kinds@).contains(key) by {
            if ids@.dom().contains(key) {
                let j = choose|j: int|
                    0 <= j < map.keys@.len() && #[trigger] map.keys@[j].key() == key && kinds@.contains(map.values@[j].kind);
                map.entry(j);
            }
            if of_kinds(known, kinds@).contains(key) {
                let p = map.position(key);
                assert(map.keys@[p].key() == key);
                map.entry(p);
            }
        }
        assert(ids@.dom() =~= of_kinds(known, kinds@));
    }
    let ghost all = observation_models(observations@);
    let mut j: usize = 0;
    proof {
        assert(all.take(0) =~= Seq::empty());
        assert(ids@.dom() =~= of_kinds(known, kinds@).union(ends_of(all.take(0))));
    }
    while j < observations.len()
        invariant
            j <= observations@.len(),
            all == observation_models(observations@),
            ids.wf(),
            ids@.dom() == of_kinds(known, kinds@).union(ends_of(all.take(j as int))),
        decreases observations@.len() - j,
    {
        let ghost before = ids@.dom();
        ids.insert(observations[j].from.clone(), ());
        assert(ids@.dom() =~= before.insert(seq![observations@[j as int].from@]));
        ids.insert(observations[j].to.clone(), ());
        proof {
            assert(all.take(j as int + 1).drop_last() =~= all.take(j as int));
            assert(all.take(j as int + 1).last() == observations@[j as int]@);
            assert(ids@.dom() =~= before.insert(seq![observations@[j as int].from@]).insert(seq![observations@[j as int].to@]));
            assert(ids@.dom() =~= of_kinds(known, kinds@).union(ends_of(all.take(j as int + 1))));
        }
        j = j + 1;
    }
    assert(all.take(all.len() as int) =~= all);
    ids
}

fn pick(map: &FactMap, ids: &TextSet) -> (r: Result<Vec<EntityFact>, StoredError>)
    requires
        map.wf(),
    ensures
        r is Ok <==> picked(known_facts(map@), ids.listing(), ids.listing().len() as int) is Ok,
        r is Ok ==> entity_models(r->Ok_0@) == picked(known_facts(map@), ids.listing(), ids.listing().len() as int)->Ok_0,
        r is Err ==> r->Err_0@ == picked(known_facts(map@), ids.listing(), ids.listing().len() as int)->Err_0,
{
    let ghost known = known_facts(map@);
    let ghost order = ids.listing();
    let mut found: Vec<EntityFact> = Vec::new();
    let mut i: usize = 0;
    assert(entity_models(found@) =~= Seq::empty());
    while i < ids.keys.len()
        invariant
            i <= ids.keys@.len(),
            map.wf(),
            known == known_facts(map@),
            order == ids.listing(),
            picked(known, order, i as int) is Ok,
            entity_models(found@) == picked(known, order, i as int)->Ok_0,
        decreases ids.keys@.len() - i,
    {
        assert(order[i as int] == ids.keys@[i as int].key());
        match map.get(&ids.keys[i]) {
            Some(entity) => {
                let ghost before = found@;
                found.push(entity.copy());
                assert(entity_models(found@) =~= entity_models(before).push(entity@));
            },
            None => {
                let mut message: String = "baseline relationship references missing entity ".to_owned();
                message.append(ids.keys[i].as_str());
                proof {
                    assert(order[i as int][0] == ids.keys@[i as int]@);
                    picked_error(known, order, i as int + 1, order.len() as int);
                }
                return Err(StoredError::Message(message));
            },
        }
        i = i + 1;
    }
    Ok(found)
}

/// Asks for the entities of the baseline of a repository.
pub fn ask_baseline_entities(view: &str, repository: &str, state: &str) -> (r: Command)
    ensures
        r@ == texts_bound(BASELINE_ENTITY_FACTS@, seq![("state"@, state@), ("view"@, view@), ("repository"@, repository@)]),
{
    let pairs: Vec<(&str, &str)> = vec![("state", state), ("view", view), ("repository", repository)];
    assert(named_texts(pairs@) =~= seq![("state"@, state@), ("view"@, view@), ("repository"@, repository@)]);
    texts_command(BASELINE_ENTITY_FACTS, &pairs)
}

/// Asks for the observations of the baseline of a repository.
pub fn ask_baseline_observations(view: &str, repository: &str, state: &str) -> (r: Command)
    ensures
        r@ == texts_bound(BASELINE_OBSERVATION_FACTS@, seq![("state"@, state@), ("view"@, view@), ("repository"@, repository@)]),
{
    let pairs: Vec<(&str, &str)> = vec![("state", state), ("view", view), ("repository", repository)];
    assert(named_texts(pairs@) =~= seq![("state"@, state@), ("view"@, view@), ("repository"@, repository@)]);
    texts_command(BASELINE_OBSERVATION_FACTS, &pairs)
}

/// Selects what is wanted of the baseline of a repository, given what is stored of it. The
/// observations count only if some relation is wanted.
pub fn selected_baseline_semantics(
    entities: &InspectionResult,
    observations: &InspectionResult,
    kinds: &Vec<EntityKind>,
    relations: &Vec<SemanticRelation>,
) -> (r: Result<(Vec<EntityFact>, Vec<Observation>), StoredError>)
    ensures
        r is Ok <==> baseline_semantics(entities.rows@, observations.rows@, kinds@, relations@) is Ok,
        r is Ok ==> (entity_models((r->Ok_0).0@), observation_models((r->Ok_0).1@)) == baseline_semantics(
            entities.rows@,
            observations.rows@,
            kinds@,
            relations@,
        )->Ok_0,
        r is Err ==> r->Err_0@ == baseline_semantics(entities.rows@, observations.rows@, kinds@, relations@)->Err_0,
{
    let map: FactMap = match decode_facts(&entities.rows) {
        Ok(map) => map,
        Err(error) => {
            return Err(error);
        },
    };
    let mut wanted: Vec<Observation> = Vec::new();
    assert(observation_models(wanted@) =~= Seq::empty());
    if relations.len() > 0 {
        wanted =
        match decode_observations(&observations.rows, relations) {
            Ok(list) => list,
            Err(error) => {
                return Err(error);
            },
        };
    }
    let ids: TextSet = wanted_ids(&map, kinds, &wanted);
    proof {
        ids.lists_its_keys();
    }
    match pick(&map, &ids) {
        Ok(found) => Ok((found, wanted)),
        Err(error) => Err(error),
    }
}

proof fn facts_by_id(rows: Seq<Vec<InspectionValue>>, n: int)
    requires
        stored_facts(rows, n) is Ok,
    ensures
        stored_facts(rows, n)->Ok_0.dom().finite(),
        forall|key: Seq<Seq<char>>| #[trigger]
            stored_facts(rows, n)->Ok_0.contains_key(key) ==> key == seq![stored_facts(rows, n)->Ok_0[key].id],
    decreases n,
{
    if n > 0 {
        facts_by_id(rows, n - 1);
    }
}

proof fn ends_are_finite(list: Seq<ObservationModel>)
    ensures
        ends_of(list).finite(),
        forall|i: int| 0 <= i < list.len() ==> ends_of(list).contains(seq![(#[trigger] list[i]).from]) && ends_of(list).contains(
            seq![list[i].to],
        ),
    decreases list.len(),
{
    if list.len() > 0 {
        ends_are_finite(list.drop_last());
        assert forall|i: int| 0 <= i < list.len() implies ends_of(list).contains(seq![(#[trigger] list[i]).from]) && ends_of(
            list,
        ).contains(seq![list[i].to]) by {
            if i < list.len() - 1 {
                assert(list.drop_last()[i] == list[i]);
            }
        }
    }
}

proof fn picked_in_place(entities: Map<Seq<Seq<char>>, EntityModel>, ids: Seq<Seq<Seq<char>>>, n: int)
    requires
        0 <= n <= ids.len(),
        picked(entities, ids, n) is Ok,
    ensures
        picked(entities, ids, n)->Ok_0.len() == n,
        forall|i: int| 0 <= i < n ==> entities.contains_key(#[trigger] ids[i]) && picked(entities, ids, n)->Ok_0[i] == entities[ids[i]],
    decreases n,
{
    if n > 0 {
        picked_in_place(entities, ids, n - 1);
    }
}

/// Wherever a selected observation begins or ends, the entity is selected as well.
pub proof fn selected_observations_come_with_their_entities(
    entities: Seq<Vec<InspectionValue>>,
    observations: Seq<Vec<InspectionValue>>,
    kinds: Seq<EntityKind>,
    relations: Seq<SemanticRelation>,
    i: int,
)
    requires
        baseline_semantics(entities, observations, kinds, relations) is Ok,
        0 <= i < (baseline_semantics(entities, observations, kinds, relations)->Ok_0).1.len(),
    ensures
        ({
            let (found, wanted) = baseline_semantics(entities, observations, kinds, relations)->Ok_0;
            &&& exists|j: int| 0 <= j < found.len() && (#[trigger] found[j]).id == wanted[i].from
            &&& exists|j: int| 0 <= j < found.len() && (#[trigger] found[j]).id == wanted[i].to
        }),
{
    let known = stored_facts(entities, entities.len() as int)->Ok_0;
    let (found, wanted) = baseline_semantics(entities, observations, kinds, relations)->Ok_0;
    let set = of_kinds(known, kinds).union(ends_of(wanted));
    let ids = listed(set);
    facts_by_id(entities, entities.len() as int);
    ends_are_finite(wanted);
    assert(of_kinds(known, kinds).subset_of(known.dom()));
    vstd::set_lib::lemma_set_subset_finite(known.dom(), of_kinds(known, kinds));
    finite_sets_are_listed(set);
    picked_in_place(known, ids, ids.len() as int);
    for_each_end(known, ids, found, seq![wanted[i].from]);
    for_each_end(known, ids, found, seq![wanted[i].to]);
}

proof fn for_each_end(known: Map<Seq<Seq<char>>, EntityModel>, ids: Seq<Seq<Seq<char>>>, found: Seq<EntityModel>, key: Seq<Seq<char>>)
    requires
        key.len() == 1,
        ids.to_set().contains(key),
        found.len() == ids.len(),
        forall|i: int| 0 <= i < ids.len() ==> known.contains_key(#[trigger] ids[i]) && found[i] == known[ids[i]],
        forall|other: Seq<Seq<char>>| #[trigger] known.contains_key(other) ==> other == seq![known[other].id],
    ensures
        exists|j: int| 0 <= j < found.len() && (#[trigger] found[j]).id == key[0],
{
    assert(ids.contains(key));
    let j = ids.index_of(key);
    assert(known.contains_key(ids[j]));
    assert(seq![known[key].id][0] == known[key].id);
    assert(found[j].id == key[0]);
}

} // verus!
