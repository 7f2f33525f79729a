//! How facts are written to the database.

use crate::command::{cells, named_texts, row_cells, text_cell, texts_bound, texts_command, Cell, CellModel, Command, CommandModel};
use crate::domain::{EntityFact, Observation, ObservationModel};
use crate::normal::{key_of_observation, observation_key};
use crate::records::{
    batches, command_models, dependencies_behind, dependency_rows, observation_columns, observation_models, put_in_batches, put_rows,
    record_rows, rows_behind, rows_put, rows_put_in_batches, stored_text, text_or_nothing, GrpcBindingCandidate, RepositoryFacts,
    FACT_BATCH_SIZE,
};
use crate::seqs::{concat_map, last_wins, last_wins_step};
use crate::sorted::{listed, Key, SortedMap};
use crate::write_scripts::{
    PUT_CANDIDATES, PUT_DEPENDENCIES, PUT_ENTITIES, PUT_OBSERVATIONS, PUT_OBSERVATION_METADATA, PUT_STATE, STATE_STORED,
};
use vstd::prelude::*;

verus! {

/// Observations by their keys; of several with one key the last counts.
pub open spec fn latest(list: Seq<ObservationModel>) -> Map<Seq<Seq<char>>, ObservationModel> {
    last_wins(list.map_values(|observation: ObservationModel| (observation_key(observation), observation)))
}

/// Observations in the order of their keys, one for each key.
pub open spec fn distinct(list: Seq<ObservationModel>) -> Seq<ObservationModel> {
    listed(latest(list).dom()).map_values(|key: Seq<Seq<char>>| latest(list)[key])
}

/// Brings observations in the order of their keys, one for each key.
pub fn distinct_observations(list: &Vec<Observation>) -> (r: Vec<Observation>)
    ensures
        observation_models(r@) == distinct(observation_models(list@)),
{
    let ghost all = observation_models(list@);
    let ghost entries = all.map_values(|observation: ObservationModel| (observation_key(observation), observation));
    let mut map: SortedMap<Vec<String>, Observation> = SortedMap::new();
    let mut i: usize = 0;
    assert(observations_in(map@) =~= last_wins(entries.take(0)));
    while i < list.len()
        invariant
            i <= list@.len(),
            all == observation_models(list@),
            entries == all.map_values(|observation: ObservationModel| (observation_key(observation), observation)),
            map.wf(),
            observations_in(map@) == last_wins(entries.take(i as int)),
        decreases list@.len() - i,
    {
        let key: Vec<String> = key_of_observation(&list[i]);
        let value: Observation = list[i].copy();
        let ghost before = map@;
        let ghost k = key.key();
        let ghost v = value;
        map.insert(key, value);
        proof {
            last_wins_step(entries, i as int);
            assert(entries[i as int] == (observation_key(list@[i as int]@), list@[i as int]@));
            assert(observations_in(map@) =~= observations_in(before).insert(k, v@));
        }
        i = i + 1;
    }
    assert(entries.take(entries.len() as int) =~= entries);
    proof {
        map.lists_its_keys();
        assert(observations_in(map@).dom() =~= map@.dom());
        let wanted = distinct(all);
        assert(observation_models(map.values@) =~= wanted) by {
            assert forall|j: int| 0 <= j < map.values@.len() implies #[trigger] observation_models(map.values@)[j] == wanted[j] by {
                map.entry(j);
                assert(map.listing()[j] == map.keys@[j].key());
            }
        }
    }
    map.values
}

/// The content of observations by their keys.
pub open spec fn observations_in(map: Map<Seq<Seq<char>>, Observation>) -> Map<Seq<Seq<char>>, ObservationModel> {
    Map::new(|k: Seq<Seq<char>>| map.contains_key(k), |k: Seq<Seq<char>>| map[k]@)
}

/// Rows of observations, each behind some values.
pub open spec fn observation_rows(front: Seq<CellModel>, list: Seq<ObservationModel>) -> Seq<Seq<CellModel>> {
    list.map_values(|observation: ObservationModel| front + observation_columns(observation))
}

proof fn observation_rows_of(front: Seq<CellModel>, list: Seq<Observation>)
    ensures
        record_rows(front, list) == observation_rows(front, observation_models(list)),
{
    assert(record_rows(front, list) =~= observation_rows(front, observation_models(list)));
}

/// What stores one batch of observations: evidence, confidence and provenance, and once more
/// those of dependencies, if there are any.
pub open spec fn batch_stored(state: Seq<char>, batch: Seq<ObservationModel>) -> Seq<CommandModel> {
    let front = seq![CellModel::Text(state)];
    let rows = observation_rows(front, batch);
    let dependencies = dependency_rows(front, batch);
    seq![rows_put(PUT_OBSERVATIONS@, rows), rows_put(PUT_OBSERVATION_METADATA@, rows)] + if dependencies.len() == 0 {
        Seq::empty()
    } else {
        seq![rows_put(PUT_DEPENDENCIES@, dependencies)]
    }
}

/// What stores observations of a repository state.
pub open spec fn observations_stored(state: Seq<char>, list: Seq<ObservationModel>) -> Seq<CommandModel> {
    concat_map(batches(distinct(list)), |batch: Seq<ObservationModel>| batch_stored(state, batch))
}

fn store_batch(state: &str, batch: &Vec<Observation>) -> (r: Vec<Command>)
    ensures
        command_models(r@) == batch_stored(state@, observation_models(batch@)),
{
    let mut front: Vec<Cell> = Vec::new();
    front.push(text_cell(state));
    proof {
        assert(cells(front@) =~= seq![CellModel::Text(state@)]);
        observation_rows_of(cells(front@), batch@);
    }
    let mut commands: Vec<Command> = Vec::new();
    commands.push(put_rows(PUT_OBSERVATIONS, rows_behind(&front, batch)));
    commands.push(put_rows(PUT_OBSERVATION_METADATA, rows_behind(&front, batch)));
    let dependencies: Vec<Vec<Cell>> = dependencies_behind(&front, batch);
    assert(row_cells(dependencies@).len() == dependencies@.len());
    if dependencies.len() > 0 {
        commands.push(put_rows(PUT_DEPENDENCIES, dependencies));
    }
    assert(command_models(commands@) =~= batch_stored(state@, observation_models(batch@)));
    commands
}

proof fn concat_map_front<A, B>(first: A, rest: Seq<A>, piece: spec_fn(A) -> Seq<B>)
    ensures
        concat_map(seq![first] + rest, piece) == piece(first) + concat_map(rest, piece),
    decreases rest.len(),
{
    let all = seq![first] + rest;
    if rest.len() == 0 {
        assert(all.drop_last() =~= Seq::<A>::empty());
        assert(all.last() == first);
        assert(concat_map(all.drop_last(), piece) =~= Seq::<B>::empty());
        assert(concat_map(rest, piece) =~= Seq::<B>::empty());
        assert(concat_map(all, piece) =~= piece(first) + concat_map(rest, piece));
    } else {
        concat_map_front(first, rest.drop_last(), piece);
        assert(all.drop_last() =~= seq![first] + rest.drop_last());
        assert(all.last() == rest.last());
        assert(concat_map(all, piece) =~= piece(first) + concat_map(rest, piece));
    }
}

fn store_batches(state: &str, list: Vec<Observation>) -> (r: Vec<Command>)
    ensures
        command_models(r@) == concat_map(
            batches(observation_models(list@)),
            |batch: Seq<ObservationModel>| batch_stored(state@, batch),
        ),
    decreases list@.len(),
{
    let ghost piece = |batch: Seq<ObservationModel>| batch_stored(state@, batch);
    let ghost all = observation_models(list@);
    let n: usize = list.len();
    if n == 0 {
        let none: Vec<Command> = Vec::new();
        assert(command_models(none@) =~= concat_map(batches(all), piece));
        return none;
    }
    if n <= FACT_BATCH_SIZE {
        let commands: Vec<Command> = store_batch(state, &list);
        proof {
            assert(batches(all) =~= seq![all] + Seq::<Seq<ObservationModel>>::empty());
            concat_map_front(all, Seq::<Seq<ObservationModel>>::empty(), piece);
            assert(command_models(commands@) =~= concat_map(batches(all), piece));
        }
        return commands;
    }
    let mut head: Vec<Observation> = list;
    let tail: Vec<Observation> = head.split_off(FACT_BATCH_SIZE);
    proof {
        assert(observation_models(head@) =~= all.take(FACT_BATCH_SIZE as int));
        assert(observation_models(tail@) =~= all.skip(FACT_BATCH_SIZE as int));
        concat_map_front(all.take(FACT_BATCH_SIZE as int), batches(all.skip(FACT_BATCH_SIZE as int)), piece);
    }
    let mut commands: Vec<Command> = store_batch(state, &head);
    let ghost first = commands@;
    let mut rest: Vec<Command> = store_batches(state, tail);
    let ghost second = rest@;
    commands.append(&mut rest);
    assert(command_models(commands@) =~= command_models(first) + command_models(second));
    commands
}

/// Stores observations of a repository state, one for each pair of ends and relation.
pub fn store_observations(state: &str, observations: &Vec<Observation>) -> (r: Vec<Command>)
    ensures
        command_models(r@) == observations_stored(state@, observation_models(observations@)),
{
    store_batches(state, distinct_observations(observations))
}

/// What stores entities of a repository state.
pub open spec fn entities_stored(state: Seq<char>, list: Seq<EntityFact>) -> Seq<CommandModel> {
    rows_put_in_batches(PUT_ENTITIES@, record_rows(seq![CellModel::Text(state)], list))
}

/// Stores entities of a repository state.
pub fn store_entities(state: &str, entities: &Vec<EntityFact>) -> (r: Vec<Command>)
    ensures
        command_models(r@) == entities_stored(state@, entities@),
{
    let mut front: Vec<Cell> = Vec::new();
    front.push(text_cell(state));
    assert(cells(front@) =~= seq![CellModel::Text(state@)]);
    put_in_batches(PUT_ENTITIES, rows_behind(&front, entities))
}

/// What stores candidates for bindings of a repository state.
pub open spec fn candidates_stored(state: Seq<char>, list: Seq<GrpcBindingCandidate>) -> Seq<CommandModel> {
    if list.len() == 0 {
        Seq::empty()
    } else {
        seq![rows_put(PUT_CANDIDATES@, record_rows(seq![CellModel::Text(state)], list))]
    }
}

/// Stores candidates for bindings of a repository state.
pub fn store_grpc_bindings(state: &str, candidates: &Vec<GrpcBindingCandidate>) -> (r: Vec<Command>)
    ensures
        command_models(r@) == candidates_stored(state@, candidates@),
{
    let mut commands: Vec<Command> = Vec::new();
    if candidates.len() > 0 {
        let mut front: Vec<Cell> = Vec::new();
        front.push(text_cell(state));
        assert(cells(front@) =~= seq![CellModel::Text(state@)]);
        commands.push(put_rows(PUT_CANDIDATES, rows_behind(&front, candidates)));
    }
    assert(command_models(commands@) =~= candidates_stored(state@, candidates@));
    commands
}

/// What stores all facts of a repository state.
pub open spec fn facts_stored(state: Seq<char>, facts: RepositoryFacts) -> Seq<CommandModel> {
    observations_stored(state, observation_models(facts.observations@)) + entities_stored(state, facts.entities@) + candidates_stored(
        state,
        facts.grpc_bindings@,
    )
}

/// Stores all facts of a repository state.
pub fn store_facts(state: &str, facts: &RepositoryFacts) -> (r: Vec<Command>)
    ensures
        command_models(r@) == facts_stored(state@, *facts),
{
    let mut commands: Vec<Command> = store_observations(state, &facts.observations);
    let ghost first = commands@;
    let mut more: Vec<Command> = store_entities(state, &facts.entities);
    let ghost second = more@;
    commands.append(&mut more);
    let mut more: Vec<Command> = store_grpc_bindings(state, &facts.grpc_bindings);
    let ghost third = more@;
    commands.append(&mut more);
    assert(command_models(commands@) =~= command_models(first) + command_models(second) + command_models(third));
    commands
}

/// Asks whether a repository state is stored.
pub fn ask_state(state: &str) -> (r: Command)
    ensures
        r@ == texts_bound(STATE_STORED@, seq![("state"@, state@)]),
{
    let pairs: Vec<(&str, &str)> = vec![("state", state)];
    assert(named_texts(pairs@) =~= seq![("state"@, state@)]);
    texts_command(STATE_STORED, &pairs)
}

/// What stores a repository state as it was analysed.
pub open spec fn state_stored(facts: RepositoryFacts, analyzed: Seq<char>) -> CommandModel {
    texts_bound(
        PUT_STATE@,
        seq![("state"@, analyzed), ("repository"@, facts.state@.repository), ("head"@, stored_text(facts.state@.head))],
    )
}

/// Stores a repository state as it was analysed.
pub fn store_repository_state(facts: &RepositoryFacts, analyzed: &str) -> (r: Command)
    ensures
        r@ == state_stored(*facts, analyzed@),
{
    let head: String = text_or_nothing(&facts.state.head);
    let pairs: Vec<(&str, &str)> = vec![
        ("state", analyzed),
        ("repository", facts.state.repository.identity.as_str()),
        ("head", head.as_str()),
    ];
    assert(named_texts(pairs@) =~= seq![
        ("state"@, analyzed@),
        ("repository"@, facts.state@.repository),
        ("head"@, stored_text(facts.state@.head)),
    ]);
    texts_command(PUT_STATE, &pairs)
}

/// An observation is stored by its ends and relation: of several that agree in these, the last
/// one is stored.
pub proof fn duplicate_observations_are_stored_once(list: Seq<ObservationModel>, i: int)
    requires
        0 <= i < list.len(),
        forall|j: int| i < j < list.len() ==> observation_key(#[trigger] list[j]) != observation_key(list[i]),
    ensures
        latest(list).contains_key(observation_key(list[i])),
        latest(list)[observation_key(list[i])] == list[i],
    decreases list.len(),
{
    let entry = |observation: ObservationModel| (observation_key(observation), observation);
    let entries = list.map_values(entry);
    let shorter = list.drop_last();
    assert(entries.drop_last() =~= shorter.map_values(entry));
    assert(entries.last() == (observation_key(list.last()), list.last()));
    if i < list.len() - 1 {
        assert forall|j: int| i < j < shorter.len() implies observation_key(#[trigger] shorter[j]) != observation_key(shorter[i]) by {
            assert(shorter[j] == list[j]);
        }
        duplicate_observations_are_stored_once(shorter, i);
        assert(observation_key(list[list.len() - 1]) != observation_key(list[i]));
    }
}

} // verus!
