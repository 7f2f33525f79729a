//! Fact shards: facts that one owner publishes apart from the others, selected by version.

use crate::command::{cells, row_cells, text_cell, view_bound, view_command, Cell, CellModel, Command, CommandModel};
use crate::records::{
    batches, command_models, dependencies_behind, dependency_rows, observation_models, put_in_batches, put_rows, record_rows, rows_behind, rows_put,
    rows_put_in_batches, FactChanges, FactShard,
};
use crate::rows::{cell_text, not_a_string, string_at, InspectionResult, InspectionValue, Row};
use crate::seqs::{concat_map, keep, keep_step};
use crate::sorted::{finite_sets_are_listed, listed, texts, Key, SortedMap};
use crate::text::{decimal, decimal_text, same};
use crate::write_scripts::{
    PUT_SHARD_DEPENDENCIES, PUT_SHARD_ENTITIES, PUT_SHARD_OBSERVATIONS, PUT_SHARD_SELECTION, REMOVE_SHARD_SELECTION, SHARD_SELECTION,
};
use vstd::prelude::*;

verus! {

/// What a shard is selected by: its producer, its repository and its owner.
pub open spec fn shard_key(shard: FactShard) -> Seq<Seq<char>> {
    seq![shard.producer@, shard.repository@, shard.owner@]
}

/// What a shard is selected by.
pub fn key_of_shard(shard: &FactShard) -> (r: Vec<String>)
    ensures
        r.key() == shard_key(*shard),
{
    let mut key: Vec<String> = Vec::new();
    key.push(shard.producer.clone());
    key.push(shard.repository.clone());
    key.push(shard.owner.clone());
    assert(texts(key@) =~= shard_key(*shard));
    key
}

/// Whether a shard lacks its producer, its repository or its version.
pub open spec fn lacks_scope(shard: FactShard) -> bool {
    shard.producer@.len() == 0 || shard.repository@.len() == 0 || shard.version@.len() == 0
}

/// How many shards are selected by a key.
pub open spec fn times(shards: Seq<FactShard>, key: Seq<Seq<char>>) -> nat {
    keep(shards, |shard: FactShard| shard_key(shard) == key).len()
}

/// What shards are selected by.
pub open spec fn owners(shards: Seq<FactShard>) -> Set<Seq<Seq<char>>> {
    Set::new(|key: Seq<Seq<char>>| times(shards, key) > 0)
}

/// What more than one shard is selected by.
pub open spec fn duplicate_owners(shards: Seq<FactShard>) -> Seq<Seq<Seq<char>>> {
    keep(listed(owners(shards)), |key: Seq<Seq<char>>| times(shards, key) > 1)
}

/// How a key that occurs several times is reported.
pub open spec fn duplicate_text(key: Seq<Seq<char>>, count: nat) -> Seq<char> {
    key[0] + "/"@ + key[1] + "/"@ + key[2] + " ("@ + decimal(count) + ")"@
}

/// How the keys that occur several times are reported, one behind the other.
pub open spec fn duplicates_text(shards: Seq<FactShard>, duplicates: Seq<Seq<Seq<char>>>) -> Seq<char>
    decreases duplicates.len(),
{
    if duplicates.len() == 0 {
        Seq::empty()
    } else {
        let last = duplicate_text(duplicates.last(), times(shards, duplicates.last()));
        if duplicates.len() == 1 {
            last
        } else {
            duplicates_text(shards, duplicates.drop_last()) + ", "@ + last
        }
    }
}

/// Why shards cannot be published together, if they cannot.
pub open spec fn shards_error(shards: Seq<FactShard>) -> Option<Seq<char>> {
    if exists|i: int| 0 <= i < shards.len() && lacks_scope(#[trigger] shards[i]) {
        Some("fact shard publication scope and version must not be empty"@)
    } else if duplicate_owners(shards).len() > 0 {
        Some("fact shard owners must be unique within a publication: "@ + duplicates_text(shards, duplicate_owners(shards)))
    } else {
        None
    }
}

proof fn times_step(shards: Seq<FactShard>, i: int, key: Seq<Seq<char>>)
    requires
        0 <= i < shards.len(),
    ensures
        times(shards.take(i + 1), key) == times(shards.take(i), key) + (if shard_key(shards[i]) == key {
            1nat
        } else {
            0nat
        }),
{
    keep_step(shards, i, |shard: FactShard| shard_key(shard) == key);
}

proof fn times_bounded(shards: Seq<FactShard>, key: Seq<Seq<char>>)
    ensures
        times(shards, key) <= shards.len(),
    decreases shards.len(),
{
    if shards.len() > 0 {
        times_bounded(shards.drop_last(), key);
    }
}

/// Counts the shards by their keys.
pub open spec fn counts(map: SortedMap<Vec<String>, usize>, shards: Seq<FactShard>) -> bool {
    &&& map.wf()
    &&& forall|key: Seq<Seq<char>>| #[trigger] map@.contains_key(key) <==> times(shards, key) > 0
    &&& forall|key: Seq<Seq<char>>| #[trigger] map@.contains_key(key) ==> map@[key] == times(shards, key)
    &&& forall|j: int| 0 <= j < map.keys@.len() ==> (#[trigger] map.keys@[j])@.len() == 3
}

fn count_owners(shards: &Vec<FactShard>) -> (r: SortedMap<Vec<String>, usize>)
    ensures
        counts(r, shards@),
{
    let mut map: SortedMap<Vec<String>, usize> = SortedMap::new();
    let mut i: usize = 0;
    while i < shards.len()
        invariant
            i <= shards@.len(),
            counts(map, shards@.take(i as int)),
        decreases shards@.len() - i,
    {
        let key: Vec<String> = key_of_shard(&shards[i]);
        let ghost k = key.key();
        let ghost before = map;
        proof {
            times_bounded(shards@.take(i as int), k);
            assert(k == shard_key(shards@[i as int]));
            assert(texts(key@).len() == key@.len());
        }
        let count: usize = match map.get(&key) {
            Some(count) => *count,
            None => 0,
        };
        map.insert(key, count + 1);
        proof {
            assert forall|other: Seq<Seq<char>>| #[trigger] map@.contains_key(other) <==> times(shards@.take(i as int + 1), other) > 0 by {
                times_step(shards@, i as int, other);
                assert(before@.contains_key(other) <==> times(shards@.take(i as int), other) > 0);
            }
            assert forall|other: Seq<Seq<char>>| #[trigger] map@.contains_key(other) implies map@[other] == times(
                shards@.take(i as int + 1),
                other,
            ) by {
                times_step(shards@, i as int, other);
                assert(before@.contains_key(other) <==> times(shards@.take(i as int), other) > 0);
            }
            assert forall|j: int| 0 <= j < map.keys@.len() implies (#[trigger] map.keys@[j])@.len() == 3 by {
                map.entry(j);
                let at = map.keys@[j].key();
                assert(texts(map.keys@[j]@).len() == map.keys@[j]@.len());
                if at != k {
                    assert(before@.contains_key(at));
                    let p = before.position(at);
                    assert(before.keys@[p]@.len() == 3);
                    assert(texts(before.keys@[p]@).len() == 3);
                }
            }
        }
        i = i + 1;
    }
    assert(shards@.take(shards@.len() as int) =~= shards@);
    map
}

fn report_duplicates(shards: &Vec<FactShard>, map: &SortedMap<Vec<String>, usize>) -> (r: Option<String>)
    requires
        counts(*map, shards@),
    ensures
        r is Some <==> duplicate_owners(shards@).len() > 0,
        r is Some ==> r->0@ == duplicates_text(shards@, duplicate_owners(shards@)),
{
    let ghost repeated = |key: Seq<Seq<char>>| times(shards@, key) > 1;
    let ghost all = map.listing();
    proof {
        map.lists_its_keys();
        assert(map@.dom() =~= owners(shards@));
    }
    let mut found: bool = false;
    let mut message: String = String::new();
    let mut i: usize = 0;
    assert(message@ =~= duplicates_text(shards@, keep(all.take(0), repeated)));
    while i < map.keys.len()
        invariant
            counts(*map, shards@),
            all == map.listing(),
            repeated == (|key: Seq<Seq<char>>| times(shards@, key) > 1),
            i <= map.keys@.len(),
            found <==> keep(all.take(i as int), repeated).len() > 0,
            message@ == duplicates_text(shards@, keep(all.take(i as int), repeated)),
        decreases map.keys@.len() - i,
    {
        proof {
            map.entry(i as int);
            keep_step(all, i as int, repeated);
        }
        let ghost before = keep(all.take(i as int), repeated);
        if map.values[i] > 1 {
            let key: &Vec<String> = &map.keys[i];
            proof {
                assert(all[i as int] == key.key());
                assert(before.push(all[i as int]).drop_last() =~= before);
            }
            if found {
                message.append(", ");
            }
            let ghost front = message@;
            message.append(key[0].as_str());
            message.append("/");
            message.append(key[1].as_str());
            message.append("/");
            message.append(key[2].as_str());
            message.append(" (");
            message.append(decimal_text(map.values[i] as u64).as_str());
            message.append(")");
            proof {
                assert(message@ =~= front + duplicate_text(all[i as int], times(shards@, all[i as int])));
            }
            found = true;
        }
        i = i + 1;
    }
    assert(all.take(all.len() as int) =~= all);
    if found {
        Some(message)
    } else {
        None
    }
}

/// Tells why shards cannot be published together, if they cannot.
pub fn check_shards(shards: &Vec<FactShard>) -> (r: Option<String>)
    ensures
        r is Some <==> shards_error(shards@) is Some,
        r is Some ==> r->0@ == shards_error(shards@)->0,
{
    let mut i: usize = 0;
    while i < shards.len()
        invariant
            i <= shards@.len(),
            forall|k: int| 0 <= k < i ==> !lacks_scope(#[trigger] shards@[k]),
        decreases shards@.len() - i,
    {
        if shards[i].producer.as_str().unicode_len() == 0 || shards[i].repository.as_str().unicode_len() == 0
            || shards[i].version.as_str().unicode_len() == 0 {
            return Some("fact shard publication scope and version must not be empty".to_owned());
        }
        i = i + 1;
    }
    let map: SortedMap<Vec<String>, usize> = count_owners(shards);
    match report_duplicates(shards, &map) {
        Some(duplicates) => {
            let mut message: String = "fact shard owners must be unique within a publication: ".to_owned();
            message.append(duplicates.as_str());
            Some(message)
        },
        None => None,
    }
}

/// Asks for the versions that a view selects.
pub fn ask_shards(view: &str) -> (r: Command)
    ensures
        r@ == view_bound(SHARD_SELECTION@, view@),
{
    view_command(SHARD_SELECTION, view)
}

/// A version that is selected, as a row states it.
pub open spec fn selected(row: Row) -> Result<(Seq<Seq<char>>, Seq<char>), Seq<char>> {
    match (cell_text(row, 0), cell_text(row, 1), cell_text(row, 2), cell_text(row, 3)) {
        (None, _, _, _) => Err(not_a_string("fact shard "@, "producer"@)),
        (_, None, _, _) => Err(not_a_string("fact shard "@, "repository"@)),
        (_, _, None, _) => Err(not_a_string("fact shard "@, "owner"@)),
        (_, _, _, None) => Err(not_a_string("fact shard "@, "version"@)),
        (Some(producer), Some(repository), Some(owner), Some(version)) => Ok((seq![producer, repository, owner], version)),
    }
}

/// The versions that are selected, as the first rows state them.
pub open spec fn selection(rows: Seq<Vec<InspectionValue>>, n: int) -> Result<Map<Seq<Seq<char>>, Seq<char>>, Seq<char>>
    decreases n,
{
    if n <= 0 {
        Ok(Map::empty())
    } else {
        match selection(rows, n - 1) {
            Err(message) => Err(message),
            Ok(before) => match selected(rows[n - 1]@) {
                Err(message) => Err(message),
                Ok((key, version)) => Ok(before.insert(key, version)),
            },
        }
    }
}

proof fn selection_error(rows: Seq<Vec<InspectionValue>>, k: int, n: int)
    requires
        0 <= k <= n,
        selection(rows, k) is Err,
    ensures
        selection(rows, n) == selection(rows, k),
    decreases n - k,
{
    if k < n {
        selection_error(rows, k + 1, n);
    }
}

/// The versions that are selected, by producer, repository and owner.
pub type Selection = SortedMap<Vec<String>, String>;

/// The content of a selection.
pub open spec fn versions(map: Map<Seq<Seq<char>>, String>) -> Map<Seq<Seq<char>>, Seq<char>> {
    Map::new(|key: Seq<Seq<char>>| map.contains_key(key), |key: Seq<Seq<char>>| map[key]@)
}

fn decode_selected(row: &Vec<InspectionValue>) -> (r: Result<(Vec<String>, String), String>)
    ensures
        r is Ok <==> selected(row@) is Ok,
        r is Ok ==> r->Ok_0.0.key() == (selected(row@)->Ok_0).0 && r->Ok_0.1@ == (selected(row@)->Ok_0).1,
        r is Err ==> r->Err_0@ == selected(row@)->Err_0,
{
    let producer: &str = match string_at(row, 0, "fact shard ", "producer") {
        Ok(found) => found,
        Err(message) => {
            return Err(message);
        },
    };
    let repository: &str = match string_at(row, 1, "fact shard ", "repository") {
        Ok(found) => found,
        Err(message) => {
            return Err(message);
        },
    };
    let owner: &str = match string_at(row, 2, "fact shard ", "owner") {
        Ok(found) => found,
        Err(message) => {
            return Err(message);
        },
    };
    let version: &str = match string_at(row, 3, "fact shard ", "version") {
        Ok(found) => found,
        Err(message) => {
            return Err(message);
        },
    };
    let mut key: Vec<String> = Vec::new();
    key.push(producer.to_owned());
    key.push(repository.to_owned());
    key.push(owner.to_owned());
    assert(texts(key@) =~= seq![producer@, repository@, owner@]);
    Ok((key, version.to_owned()))
}

/// Reads the versions that are selected.
pub fn decode_selection(rows: &Vec<Vec<InspectionValue>>) -> (r: Result<Selection, String>)
    ensures
        r is Ok <==> selection(rows@, rows@.len() as int) is Ok,
        r is Ok ==> r->Ok_0.wf() && versions(r->Ok_0@) == selection(rows@, rows@.len() as int)->Ok_0,
        r is Err ==> r->Err_0@ == selection(rows@, rows@.len() as int)->Err_0,
{
    let mut map: Selection = SortedMap::new();
    let mut i: usize = 0;
    assert(versions(map@) =~= Map::empty());
    while i < rows.len()
        invariant
            i <= rows@.len(),
            map.wf(),
            selection(rows@, i as int) is Ok,
            versions(map@) == selection(rows@, i as int)->Ok_0,
        decreases rows@.len() - i,
    {
        match decode_selected(&rows[i]) {
            Ok((key, version)) => {
                let ghost before = map;
                let ghost k = key;
                let ghost v = version;
                map.insert(key, version);
                proof {
                    assert(versions(map@) =~= versions(before@).insert(k.key(), v@));
                }
            },
            Err(message) => {
                proof {
                    selection_error(rows@, i as int + 1, rows@.len() as int);
                }
                return Err(message);
            },
        }
        i = i + 1;
    }
    Ok(map)
}

/// Whether a view already selects the version of a shard.
pub open spec fn is_selected(current: Map<Seq<Seq<char>>, Seq<char>>, shard: FactShard) -> bool {
    current.contains_key(shard_key(shard)) && current[shard_key(shard)] == shard.version@
}

/// The shards whose version a view does not select yet.
pub open spec fn replaced(current: Map<Seq<Seq<char>>, Seq<char>>, shards: Seq<FactShard>) -> Seq<FactShard> {
    keep(shards, |shard: FactShard| !is_selected(current, shard))
}

/// What is selected but no longer published.
pub open spec fn dropped(current: Map<Seq<Seq<char>>, Seq<char>>, shards: Seq<FactShard>) -> Seq<Seq<Seq<char>>> {
    keep(listed(current.dom()), |key: Seq<Seq<char>>| !owners(shards).contains(key))
}

/// How many observations the shards hold that meet a condition.
pub open spec fn observed_in(shards: Seq<FactShard>, wanted: spec_fn(FactShard) -> bool) -> nat
    decreases shards.len(),
{
    if shards.len() == 0 {
        0
    } else {
        observed_in(shards.drop_last(), wanted) + (if wanted(shards.last()) {
            shards.last().observations@.len()
        } else {
            0
        })
    }
}

/// What a publication of shards changes: counted are the observations of the shards, and the
/// owners that are no longer published.
pub open spec fn shard_changes(current: Map<Seq<Seq<char>>, Seq<char>>, shards: Seq<FactShard>, changes: FactChanges) -> bool {
    &&& changes.removed == dropped(current, shards).len()
    &&& changes.unchanged == observed_in(shards, |shard: FactShard| is_selected(current, shard))
    &&& changes.updated == observed_in(
        shards,
        |shard: FactShard| current.contains_key(shard_key(shard)) && !is_selected(current, shard),
    )
    &&& changes.inserted == observed_in(shards, |shard: FactShard| !current.contains_key(shard_key(shard)))
}

/// What the rows of a shard begin with.
pub open spec fn shard_front(shard: FactShard) -> Seq<CellModel> {
    seq![CellModel::Text(shard.producer@), CellModel::Text(shard.owner@), CellModel::Text(shard.version@)]
}

/// Texts behind a view.
pub open spec fn behind_view(view: Seq<char>, list: Seq<Seq<char>>) -> Seq<CellModel> {
    (seq![view] + list).map_values(|text: Seq<char>| CellModel::Text(text))
}

/// The rows of the entities of some shards.
pub open spec fn shard_entities(shards: Seq<FactShard>) -> Seq<Seq<CellModel>> {
    concat_map(shards, |shard: FactShard| record_rows(shard_front(shard), shard.entities@))
}

/// The rows of the observations of some shards.
pub open spec fn shard_observations(shards: Seq<FactShard>) -> Seq<Seq<CellModel>> {
    concat_map(shards, |shard: FactShard| record_rows(shard_front(shard), shard.observations@))
}

/// The rows of the dependencies of some shards.
pub open spec fn shard_dependencies(shards: Seq<FactShard>) -> Seq<Seq<CellModel>> {
    concat_map(shards, |shard: FactShard| dependency_rows(shard_front(shard), observation_models(shard.observations@)))
}

/// The rows that select the versions of some shards.
pub open spec fn shard_selections(view: Seq<char>, shards: Seq<FactShard>) -> Seq<Seq<CellModel>> {
    shards.map_values(|shard: FactShard| behind_view(view, shard_key(shard).push(shard.version@)))
}

/// What publishes shards: what is no longer published leaves the selection, and the shards whose
/// version is not selected yet are stored and selected.
pub open spec fn shards_published(view: Seq<char>, current: Map<Seq<Seq<char>>, Seq<char>>, shards: Seq<FactShard>) -> Seq<CommandModel> {
    let gone = dropped(current, shards);
    let fresh = replaced(current, shards);
    let removal = if gone.len() == 0 {
        Seq::empty()
    } else {
        seq![rows_put(REMOVE_SHARD_SELECTION@, gone.map_values(|key: Seq<Seq<char>>| behind_view(view, key)))]
    };
    removal + rows_put_in_batches(PUT_SHARD_ENTITIES@, shard_entities(fresh)) + rows_put_in_batches(
        PUT_SHARD_OBSERVATIONS@,
        shard_observations(fresh),
    ) + rows_put_in_batches(PUT_SHARD_DEPENDENCIES@, shard_dependencies(fresh)) + rows_put_in_batches(
        PUT_SHARD_SELECTION@,
        shard_selections(view, fresh),
    )
}

fn row_behind_view(view: &str, list: &Vec<String>) -> (r: Vec<Cell>)
    ensures
        cells(r@) == behind_view(view@, texts(list@)),
{
    let mut row: Vec<Cell> = Vec::new();
    row.push(text_cell(view));
    let mut i: usize = 0;
    while i < list.len()
        invariant
            i <= list@.len(),
            row@.len() == i + 1,
            row@[0]@ == CellModel::Text(view@),
            forall|k: int| 1 <= k <= i ==> (#[trigger] row@[k])@ == CellModel::Text(list@[k - 1]@),
        decreases list@.len() - i,
    {
        row.push(text_cell(list[i].as_str()));
        i = i + 1;
    }
    assert(cells(row@) =~= behind_view(view@, texts(list@)));
    row
}

fn dropped_rows(view: &str, shards: &Vec<FactShard>, current: &Selection) -> (r: Vec<Vec<Cell>>)
    requires
        current.wf(),
    ensures
        row_cells(r@) == dropped(versions(current@), shards@).map_values(|key: Seq<Seq<char>>| behind_view(view@, key)),
{
    let map: SortedMap<Vec<String>, usize> = count_owners(shards);
    let ghost all = current.listing();
    let ghost wanted = |key: Seq<Seq<char>>| !owners(shards@).contains(key);
    let ghost stated = |key: Seq<Seq<char>>| behind_view(view@, key);
    proof {
        current.lists_its_keys();
        assert(versions(current@).dom() =~= current@.dom());
    }
    let mut rows: Vec<Vec<Cell>> = Vec::new();
    let mut i: usize = 0;
    assert(row_cells(rows@) =~= keep(all.take(0), wanted).map_values(stated));
    while i < current.keys.len()
        invariant
            current.wf(),
            counts(map, shards@),
            all == current.listing(),
            wanted == (|key: Seq<Seq<char>>| !owners(shards@).contains(key)),
            stated == (|key: Seq<Seq<char>>| behind_view(view@, key)),
            i <= current.keys@.len(),
            row_cells(rows@) == keep(all.take(i as int), wanted).map_values(stated),
        decreases current.keys@.len() - i,
    {
        let ghost before = rows@;
        proof {
            keep_step(all, i as int, wanted);
            assert(all[i as int] == current.keys@[i as int].key());
        }
        if !map.contains_key(&current.keys[i]) {
            rows.push(row_behind_view(view, &current.keys[i]));
            proof {
                assert(row_cells(rows@) =~= row_cells(before).push(cells(rows@.last()@)));
                assert(keep(all.take(i as int), wanted).push(all[i as int]).map_values(stated) =~= keep(
                    all.take(i as int),
                    wanted,
                ).map_values(stated).push(stated(all[i as int])));
            }
        }
        i = i + 1;
    }
    assert(all.take(all.len() as int) =~= all);
    rows
}

fn front_of(shard: &FactShard) -> (r: Vec<Cell>)
    ensures
        cells(r@) == shard_front(*shard),
{
    let mut front: Vec<Cell> = Vec::new();
    front.push(text_cell(shard.producer.as_str()));
    front.push(text_cell(shard.owner.as_str()));
    front.push(text_cell(shard.version.as_str()));
    assert(cells(front@) =~= shard_front(*shard));
    front
}

proof fn observed_step(shards: Seq<FactShard>, i: int, wanted: spec_fn(FactShard) -> bool)
    requires
        0 <= i < shards.len(),
    ensures
        observed_in(shards.take(i + 1), wanted) == observed_in(shards.take(i), wanted) + (if wanted(shards[i]) {
            shards[i].observations@.len()
        } else {
            0
        }),
{
    assert(shards.take(i + 1).drop_last() =~= shards.take(i));
    assert(shards.take(i + 1).last() == shards[i]);
}

proof fn observed_grows(shards: Seq<FactShard>, i: int, a: spec_fn(FactShard) -> bool, b: spec_fn(FactShard) -> bool)
    requires
        0 <= i <= shards.len(),
        forall|shard: FactShard| #[trigger] a(shard) ==> b(shard),
    ensures
        observed_in(shards.take(i), a) <= observed_in(shards, b),
    decreases shards.len(),
{
    if shards.len() > 0 {
        if i == shards.len() {
            observed_grows(shards.drop_last(), i - 1, a, b);
            assert(shards.take(i) =~= shards);
            assert(shards.drop_last().take(i - 1) =~= shards.drop_last());
        } else {
            observed_grows(shards.drop_last(), i, a, b);
            assert(shards.drop_last().take(i) =~= shards.take(i));
        }
    }
}

/// All observations of shards, however they are counted.
pub open spec fn any_shard() -> spec_fn(FactShard) -> bool {
    |shard: FactShard| true
}

/// Rows of what is stored of some shards.
struct ShardRows {
    entities: Vec<Vec<Cell>>,
    observations: Vec<Vec<Cell>>,
    dependencies: Vec<Vec<Cell>>,
    selections: Vec<Vec<Cell>>,
}

impl ShardRows {
    spec fn hold(&self, view: Seq<char>, shards: Seq<FactShard>) -> bool {
        &&& row_cells(self.entities@) == shard_entities(shards)
        &&& row_cells(self.observations@) == shard_observations(shards)
        &&& row_cells(self.dependencies@) == shard_dependencies(shards)
        &&& row_cells(self.selections@) == shard_selections(view, shards)
    }

    fn store(&mut self, view: &str, shard: &FactShard, Ghost(before): Ghost<Seq<FactShard>>)
        requires
            old(self).hold(view@, before),
        ensures
            final(self).hold(view@, before.push(*shard)),
    {
        let ghost so_far = *self;
        let front: Vec<Cell> = front_of(shard);
        let mut rows: Vec<Vec<Cell>> = rows_behind(&front, &shard.entities);
        let ghost entities = rows@;
        self.entities.append(&mut rows);
        let mut rows: Vec<Vec<Cell>> = rows_behind(&front, &shard.observations);
        let ghost observations = rows@;
        self.observations.append(&mut rows);
        let mut rows: Vec<Vec<Cell>> = dependencies_behind(&front, &shard.observations);
        let ghost dependencies = rows@;
        self.dependencies.append(&mut rows);
        let mut key: Vec<String> = key_of_shard(shard);
        let ghost bare = key@;
        key.push(shard.version.clone());
        self.selections.push(row_behind_view(view, &key));
        proof {
            let after = before.push(*shard);
            assert(texts(key@) =~= shard_key(*shard).push(shard.version@));
            assert(after.drop_last() =~= before);
            assert(row_cells(self.entities@) =~= row_cells(so_far.entities@) + row_cells(entities));
            assert(row_cells(self.observations@) =~= row_cells(so_far.observations@) + row_cells(observations));
            assert(row_cells(self.dependencies@) =~= row_cells(so_far.dependencies@) + row_cells(dependencies));
            assert(row_cells(self.selections@) =~= row_cells(so_far.selections@).push(cells(self.selections@.last()@)));
            assert(shard_selections(view@, after) =~= shard_selections(view@, before).push(
                behind_view(view@, shard_key(*shard).push(shard.version@)),
            ));
        }
    }
}

fn append_commands(commands: &mut Vec<Command>, script: &str, rows: Vec<Vec<Cell>>)
    ensures
        command_models(final(commands)@) == command_models(old(commands)@) + rows_put_in_batches(script@, row_cells(rows@)),
{
    let ghost before = commands@;
    let mut more: Vec<Command> = put_in_batches(script, rows);
    let ghost after = more@;
    commands.append(&mut more);
    assert(command_models(commands@) =~= command_models(before) + command_models(after));
}

/// Publishes shards for a view, given the versions that the view selects.
pub fn replace_fact_shards(view: &str, shards: &Vec<FactShard>, current: &InspectionResult) -> (r: Result<
    (FactChanges, Vec<Command>),
    String,
>)
    requires
        observed_in(shards@, any_shard()) <= usize::MAX,
    ensures
        shards_error(shards@) is Some ==> r is Err && r->Err_0@ == shards_error(shards@)->0,
        shards_error(shards@) is None ==> {
            let stored = selection(current.rows@, current.rows@.len() as int);
            &&& r is Ok <==> stored is Ok
            &&& r is Err ==> r->Err_0@ == stored->Err_0
            &&& r is Ok ==> {
                &&& shard_changes(stored->Ok_0, shards@, (r->Ok_0).0)
                &&& command_models((r->Ok_0).1@) == shards_published(view@, stored->Ok_0, shards@)
            }
        },
{
    match check_shards(shards) {
        Some(message) => {
            return Err(message);
        },
        None => {},
    }
    let stored: Selection = match decode_selection(&current.rows) {
        Ok(stored) => stored,
        Err(message) => {
            return Err(message);
        },
    };
    let ghost known = versions(stored@);
    let removed: Vec<Vec<Cell>> = dropped_rows(view, shards, &stored);
    let ghost gone = removed@;
    proof {
        assert(row_cells(gone).len() == gone.len());
    }
    let mut changes: FactChanges = FactChanges { inserted: 0, updated: 0, removed: removed.len(), unchanged: 0 };
    let mut commands: Vec<Command> = Vec::new();
    if removed.len() > 0 {
        commands.push(put_rows(REMOVE_SHARD_SELECTION, removed));
    }
    let ghost removal = command_models(commands@);
    proof {
        assert(removal =~= if dropped(known, shards@).len() == 0 {
            Seq::empty()
        } else {
            seq![
                rows_put(
                    REMOVE_SHARD_SELECTION@,
                    dropped(known, shards@).map_values(|key: Seq<Seq<char>>| behind_view(view@, key)),
                ),
            ]
        });
    }
    let ghost kept = |shard: FactShard| is_selected(known, shard);
    let ghost newer = |shard: FactShard| current_other(known, shard);
    let ghost fresh = |shard: FactShard| !known.contains_key(shard_key(shard));
    let ghost wanted = |shard: FactShard| !is_selected(known, shard);
    let mut rows: ShardRows = ShardRows { entities: Vec::new(), observations: Vec::new(), dependencies: Vec::new(), selections: Vec::new() };
    proof {
        assert(row_cells(rows.entities@) =~= shard_entities(keep(shards@.take(0), wanted)));
        assert(row_cells(rows.observations@) =~= shard_observations(keep(shards@.take(0), wanted)));
        assert(row_cells(rows.dependencies@) =~= shard_dependencies(keep(shards@.take(0), wanted)));
        assert(row_cells(rows.selections@) =~= shard_selections(view@, keep(shards@.take(0), wanted)));
    }
    let mut i: usize = 0;
    while i < shards.len()
        invariant
            i <= shards@.len(),
            observed_in(shards@, any_shard()) <= usize::MAX,
            stored.wf(),
            known == versions(stored@),
            kept == (|shard: FactShard| is_selected(known, shard)),
            newer == (|shard: FactShard| current_other(known, shard)),
            fresh == (|shard: FactShard| !known.contains_key(shard_key(shard))),
            wanted == (|shard: FactShard| !is_selected(known, shard)),
            changes.removed == gone.len(),
            changes.unchanged == observed_in(shards@.take(i as int), kept),
            changes.updated == observed_in(shards@.take(i as int), newer),
            changes.inserted == observed_in(shards@.take(i as int), fresh),
            rows.hold(view@, keep(shards@.take(i as int), wanted)),
        decreases shards@.len() - i,
    {
        proof {
            keep_step(shards@, i as int, wanted);
            observed_step(shards@, i as int, kept);
            observed_step(shards@, i as int, newer);
            observed_step(shards@, i as int, fresh);
            observed_grows(shards@, i as int + 1, kept, any_shard());
            observed_grows(shards@, i as int + 1, newer, any_shard());
            observed_grows(shards@, i as int + 1, fresh, any_shard());
        }
        let ghost before = keep(shards@.take(i as int), wanted);
        let shard: &FactShard = &shards[i];
        let key: Vec<String> = key_of_shard(shard);
        let selected: Option<bool> = match stored.get(&key) {
            Some(version) => Some(same(version.as_str(), shard.version.as_str())),
            None => None,
        };
        match selected {
            Some(true) => {
                changes.unchanged = changes.unchanged + shard.observations.len();
            },
            Some(false) => {
                changes.updated = changes.updated + shard.observations.len();
                rows.store(view, shard, Ghost(before));
            },
            None => {
                changes.inserted = changes.inserted + shard.observations.len();
                rows.store(view, shard, Ghost(before));
            },
        }
        i = i + 1;
    }
    proof {
        assert(shards@.take(shards@.len() as int) =~= shards@);
        assert(newer =~= |shard: FactShard| known.contains_key(shard_key(shard)) && !is_selected(known, shard));
    }
    append_commands(&mut commands, PUT_SHARD_ENTITIES, rows.entities);
    append_commands(&mut commands, PUT_SHARD_OBSERVATIONS, rows.observations);
    append_commands(&mut commands, PUT_SHARD_DEPENDENCIES, rows.dependencies);
    append_commands(&mut commands, PUT_SHARD_SELECTION, rows.selections);
    Ok((changes, commands))
}

/// Whether a view selects another version of a shard.
pub open spec fn current_other(current: Map<Seq<Seq<char>>, Seq<char>>, shard: FactShard) -> bool {
    current.contains_key(shard_key(shard)) && !is_selected(current, shard)
}

/// Each observation is counted once, as inserted, updated or unchanged.
pub proof fn changes_count_each_observation(current: Map<Seq<Seq<char>>, Seq<char>>, shards: Seq<FactShard>, changes: FactChanges)
    requires
        shard_changes(current, shards, changes),
    ensures
        changes.inserted + changes.updated + changes.unchanged == observed_in(shards, any_shard()),
{
    observed_parts(
        shards,
        |shard: FactShard| is_selected(current, shard),
        |shard: FactShard| current.contains_key(shard_key(shard)) && !is_selected(current, shard),
        |shard: FactShard| !current.contains_key(shard_key(shard)),
    );
}

proof fn observed_parts(
    shards: Seq<FactShard>,
    a: spec_fn(FactShard) -> bool,
    b: spec_fn(FactShard) -> bool,
    c: spec_fn(FactShard) -> bool,
)
    requires
        forall|shard: FactShard| #[trigger] a(shard) ==> !b(shard) && !c(shard),
        forall|shard: FactShard| #[trigger] b(shard) ==> !a(shard) && !c(shard),
        forall|shard: FactShard| !#[trigger] c(shard) ==> a(shard) || b(shard),
    ensures
        observed_in(shards, a) + observed_in(shards, b) + observed_in(shards, c) == observed_in(shards, any_shard()),
    decreases shards.len(),
{
    if shards.len() > 0 {
        observed_parts(shards.drop_last(), a, b, c);
        assert(a(shards.last()) ==> !b(shards.last()));
        assert(b(shards.last()) ==> !c(shards.last()));
        assert(!c(shards.last()) ==> a(shards.last()) || b(shards.last()));
    }
}

/// Publishing again what a view selects already writes nothing.
pub proof fn publishing_again_writes_nothing(view: Seq<char>, current: Map<Seq<Seq<char>>, Seq<char>>, shards: Seq<FactShard>)
    requires
        current.dom().finite(),
        current.dom() == owners(shards),
        forall|i: int| 0 <= i < shards.len() ==> is_selected(current, #[trigger] shards[i]),
    ensures
        shards_published(view, current, shards).len() == 0,
{
    let wanted = |shard: FactShard| !is_selected(current, shard);
    let missing = |key: Seq<Seq<char>>| !owners(shards).contains(key);
    kept_none(shards, wanted);
    finite_sets_are_listed(current.dom());
    assert forall|i: int| 0 <= i < listed(current.dom()).len() implies !missing(#[trigger] listed(current.dom())[i]) by {
        assert(listed(current.dom()).contains(listed(current.dom())[i]));
        assert(listed(current.dom()).to_set().contains(listed(current.dom())[i]));
    }
    kept_none(listed(current.dom()), missing);
    let none = Seq::<FactShard>::empty();
    assert(replaced(current, shards) =~= none);
    assert(shard_entities(none).len() == 0);
    assert(shard_observations(none).len() == 0);
    assert(shard_dependencies(none).len() == 0);
    assert(shard_selections(view, none).len() == 0);
}

/// Whether a view selects exactly these shards, each in its version.
pub open spec fn selects_exactly(current: Map<Seq<Seq<char>>, Seq<char>>, shards: Seq<FactShard>) -> bool {
    &&& dropped(current, shards).len() == 0
    &&& replaced(current, shards).len() == 0
}

/// Nothing is written exactly if the view selects the shards already.
pub proof fn written_unless_selected(view: Seq<char>, current: Map<Seq<Seq<char>>, Seq<char>>, shards: Seq<FactShard>)
    ensures
        shards_published(view, current, shards).len() == 0 <==> selects_exactly(current, shards),
{
    let fresh = replaced(current, shards);
    if fresh.len() == 0 {
        assert(fresh =~= Seq::<FactShard>::empty());
        assert(shard_entities(fresh).len() == 0);
        assert(shard_observations(fresh).len() == 0);
        assert(shard_dependencies(fresh).len() == 0);
    }
    assert(shard_selections(view, fresh).len() == fresh.len());
    assert(batches(shard_selections(view, fresh)).len() == 0 <==> shard_selections(view, fresh).len() == 0);
}

proof fn kept_none<A>(list: Seq<A>, wanted: spec_fn(A) -> bool)
    requires
        forall|i: int| 0 <= i < list.len() ==> !wanted(#[trigger] list[i]),
    ensures
        keep(list, wanted).len() == 0,
    decreases list.len(),
{
    if list.len() > 0 {
        assert forall|i: int| 0 <= i < list.drop_last().len() implies !wanted(#[trigger] list.drop_last()[i]) by {
            assert(list.drop_last()[i] == list[i]);
        }
        kept_none(list.drop_last(), wanted);
        assert(!wanted(list[list.len() - 1]));
    }
}

} // verus!
