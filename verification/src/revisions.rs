//! Publishing what was found in a repository, and taking it back.

use crate::command::{
    bind_text, cells, put_read, read_put, text_cell, texts_bound, texts_command, named_texts, Argument, ArgumentModel,
    Binding, Cell, CellModel, Command, CommandModel,
};
use crate::domain::{EntityModel, ObservationModel};
use crate::normal::{
    analyzed_name, analyzed_state, candidate_entry, candidate_key, candidate_models, entity_entry, normal_candidates, normal_entities,
    normal_models, normal_observations, normalized_entities, normalized_grpc_bindings, normalized_observations, observation_entry,
    observation_key, pair_models, same_entities, same_normal, EntityMap, NormalMap, NormalValue, ValueModel,
};
use crate::records::{
    candidate_columns, command_models, entity_columns, entity_models, observation_columns, observation_models, put_rows, record_rows,
    rows_behind, rows_put, stored_text, text_or_nothing, CandidateModel, RepositoryFacts,
};
use crate::rows::{cell_number, cell_text, float, row_models, text_at, value_text, InspectionResult, InspectionValue, Row, RowModel};
use crate::seqs::last_wins;
use crate::sorted::{texts, Key, SortedMap};
use crate::text::{ends_with, same, starts_with};
use crate::write_scripts::{
    ANALYZED_STATE, PREVIOUS_REVISION, PUT_REPOSITORY_DIAGNOSTICS, PUT_REPOSITORY_REVISION, QUEUE_STATES, REMOVE_REPOSITORY_DIAGNOSTICS,
    REMOVE_REPOSITORY_REVISION, REMOVE_SHOWN_STATES, REMOVE_STATE, SELECTED_STATE, STALE_STATE, STORED_CANDIDATES, STORED_ENTITIES, STORED_OBSERVATIONS,
};
use crate::writes::{facts_stored, state_stored, store_facts, store_repository_state};
use vstd::prelude::*;

verus! {

/// What a published repository revision consists of.
pub open spec fn revision_bound(facts: RepositoryFacts) -> Seq<(Seq<char>, ArgumentModel)> {
    seq![
        ("repository"@, ArgumentModel::One(CellModel::Text(facts.state@.repository))),
        ("source_state"@, ArgumentModel::One(CellModel::Text(facts.state@.fingerprint))),
        ("analyzed_state"@, ArgumentModel::One(CellModel::Text(analyzed_name(facts)))),
        ("analysis_identity"@, ArgumentModel::One(CellModel::Text(facts.analysis_identity@))),
        ("head"@, ArgumentModel::One(CellModel::Text(stored_text(facts.state@.head)))),
        ("incomplete"@, ArgumentModel::One(CellModel::Boolean(facts.incomplete))),
    ]
}

fn revision_command(script: &str, facts: &RepositoryFacts, analyzed: &str) -> (r: Command)
    requires
        analyzed@ == analyzed_name(*facts),
    ensures
        r@ == (CommandModel { script: script@, arguments: revision_bound(*facts) }),
{
    let head: String = text_or_nothing(&facts.state.head);
    let mut arguments: Vec<Binding> = Vec::new();
    arguments.push(bind_text("repository", facts.state.repository.identity.as_str()));
    arguments.push(bind_text("source_state", facts.state.fingerprint.as_str()));
    arguments.push(bind_text("analyzed_state", analyzed));
    arguments.push(bind_text("analysis_identity", facts.analysis_identity.as_str()));
    arguments.push(bind_text("head", head.as_str()));
    arguments.push(("incomplete".to_owned(), Argument::One(Cell::Boolean(facts.incomplete))));
    let command: Command = Command { script: script.to_owned(), arguments };
    assert(command@.arguments =~= revision_bound(*facts));
    command
}

/// Asks for the revision of a repository that is published.
pub fn ask_previous(facts: &RepositoryFacts) -> (r: Command)
    ensures
        r@ == (CommandModel { script: PREVIOUS_REVISION@, arguments: revision_bound(*facts) }),
{
    let analyzed: String = analyzed_state(facts);
    revision_command(PREVIOUS_REVISION, facts, analyzed.as_str())
}

/// Whether a published revision states the given facts.
pub open spec fn states_revision(row: Row, facts: RepositoryFacts) -> bool {
    &&& cell_text(row, 0) == Some(facts.state@.fingerprint)
    &&& cell_text(row, 1) == Some(analyzed_name(facts))
    &&& cell_text(row, 2) == Some(facts.analysis_identity@)
    &&& cell_text(row, 3) == Some(stored_text(facts.state@.head))
    &&& row.len() > 4 && row[4] == InspectionValue::Boolean(facts.incomplete)
}

/// Whether a repository is published for the first time or otherwise than before.
pub open spec fn revision_changed(previous: Seq<Vec<InspectionValue>>, facts: RepositoryFacts) -> bool {
    previous.len() == 0 || !states_revision(previous[0]@, facts)
}

fn text_is(row: &Vec<InspectionValue>, column: usize, wanted: &str) -> (r: bool)
    ensures
        r == (cell_text(row@, column as int) == Some(wanted@)),
{
    match text_at(row, column) {
        Some(found) => same(found, wanted),
        None => false,
    }
}

/// Whether a column of a row holds a truth value.
pub open spec fn holds_boolean(row: Row, column: int, wanted: bool) -> bool {
    0 <= column < row.len() && row[column] == InspectionValue::Boolean(wanted)
}

/// Whether a column of a row holds a truth value.
pub fn boolean_is(row: &Vec<InspectionValue>, column: usize, wanted: bool) -> (r: bool)
    ensures
        r == holds_boolean(row@, column as int, wanted),
{
    if column < row.len() {
        match row[column] {
            InspectionValue::Boolean(found) => found == wanted,
            _ => false,
        }
    } else {
        false
    }
}

fn is_changed(facts: &RepositoryFacts, analyzed: &str, previous: &Vec<Vec<InspectionValue>>) -> (r: bool)
    requires
        analyzed@ == analyzed_name(*facts),
    ensures
        r == revision_changed(previous@, *facts),
{
    if previous.len() == 0 {
        return true;
    }
    let row: &Vec<InspectionValue> = &previous[0];
    let head: String = text_or_nothing(&facts.state.head);
    !(text_is(row, 0, facts.state.fingerprint.as_str()) && text_is(row, 1, analyzed) && text_is(row, 2, facts.analysis_identity.as_str())
        && text_is(row, 3, head.as_str()) && boolean_is(row, 4, facts.incomplete))
}

/// What publishes a repository. Its facts are stored unless that state is stored already.
pub open spec fn repository_published(facts: RepositoryFacts, stored: bool) -> Seq<CommandModel> {
    let storing = if stored {
        Seq::empty()
    } else {
        facts_stored(analyzed_name(facts), facts)
    };
    storing + seq![
        state_stored(facts, analyzed_name(facts)),
        CommandModel { script: REMOVE_REPOSITORY_DIAGNOSTICS@, arguments: revision_bound(facts) },
        rows_put(PUT_REPOSITORY_DIAGNOSTICS@, record_rows(seq![CellModel::Text(facts.state@.repository)], facts.diagnostics@)),
        CommandModel { script: PUT_REPOSITORY_REVISION@, arguments: revision_bound(facts) },
    ]
}

/// Publishes a repository, given the revision that is published and whether its state is stored.
/// Tells whether this changes anything.
pub fn publish_repository(facts: &RepositoryFacts, previous: &InspectionResult, stored: &InspectionResult) -> (r: Result<
    (bool, Vec<Command>),
    String,
>)
    ensures
        r is Err <==> facts.analysis_identity@.len() == 0,
        r is Err ==> r->Err_0@ == "repository analysis identity must not be empty"@,
        r is Ok ==> {
            &&& (r->Ok_0).0 == revision_changed(previous.rows@, *facts)
            &&& command_models((r->Ok_0).1@) == repository_published(*facts, stored.rows@.len() > 0)
        },
{
    if facts.analysis_identity.as_str().unicode_len() == 0 {
        return Err("repository analysis identity must not be empty".to_owned());
    }
    let analyzed: String = analyzed_state(facts);
    let changed: bool = is_changed(facts, analyzed.as_str(), &previous.rows);
    let mut commands: Vec<Command> = Vec::new();
    if stored.rows.len() == 0 {
        commands = store_facts(analyzed.as_str(), facts);
    }
    let ghost storing = commands@;
    commands.push(store_repository_state(facts, analyzed.as_str()));
    commands.push(revision_command(REMOVE_REPOSITORY_DIAGNOSTICS, facts, analyzed.as_str()));
    let mut front: Vec<Cell> = Vec::new();
    front.push(text_cell(facts.state.repository.identity.as_str()));
    assert(cells(front@) =~= seq![CellModel::Text(facts.state@.repository)]);
    commands.push(put_rows(PUT_REPOSITORY_DIAGNOSTICS, rows_behind(&front, &facts.diagnostics)));
    commands.push(revision_command(PUT_REPOSITORY_REVISION, facts, analyzed.as_str()));
    assert(command_models(commands@) =~= repository_published(*facts, stored.rows@.len() > 0)) by {
        if stored.rows@.len() > 0 {
            assert(command_models(storing) =~= Seq::empty());
        }
        assert(command_models(commands@) =~= command_models(storing) + repository_published(*facts, true));
    }
    Ok((changed, commands))
}

/// Publishing a repository once more as it is published changes nothing.
pub proof fn publishing_once_more_changes_nothing(facts: RepositoryFacts, row: Vec<InspectionValue>)
    requires
        states_revision(row@, facts),
    ensures
        !revision_changed(seq![row], facts),
{
    assert(seq![row][0] == row);
}

/// A script that is about a repository.
pub open spec fn repository_bound(script: Seq<char>, repository: Seq<char>) -> CommandModel {
    texts_bound(script, seq![("repository"@, repository)])
}

/// A script that is about a repository.
pub fn repository_command(script: &str, repository: &str) -> (r: Command)
    ensures
        r@ == repository_bound(script@, repository@),
{
    let pairs: Vec<(&str, &str)> = vec![("repository", repository)];
    assert(named_texts(pairs@) =~= seq![("repository"@, repository@)]);
    texts_command(script, &pairs)
}

/// A script that is about a repository state.
pub open spec fn state_bound(script: Seq<char>, state: Seq<char>) -> CommandModel {
    texts_bound(script, seq![("state"@, state)])
}

/// A script that is about a repository state.
pub fn state_command(script: &str, state: &str) -> (r: Command)
    ensures
        r@ == state_bound(script@, state@),
{
    let pairs: Vec<(&str, &str)> = vec![("state", state)];
    assert(named_texts(pairs@) =~= seq![("state"@, state@)]);
    texts_command(script, &pairs)
}

/// Asks for the state that is published of a repository.
pub fn ask_analyzed_state(repository: &str) -> (r: Command)
    ensures
        r@ == repository_bound(ANALYZED_STATE@, repository@),
{
    repository_command(ANALYZED_STATE, repository)
}

/// The state that is published of a repository.
pub open spec fn published_state(rows: Seq<Vec<InspectionValue>>) -> Result<Option<Seq<char>>, Seq<char>> {
    if rows.len() == 0 {
        Ok(None)
    } else {
        match cell_text(rows[0]@, 1) {
            Some(state) => Ok(Some(state)),
            None => Err("repository revision state is not a string"@),
        }
    }
}

/// Reads the state that is published of a repository.
pub fn decode_published_state(rows: &Vec<Vec<InspectionValue>>) -> (r: Result<Option<String>, String>)
    ensures
        r is Ok <==> published_state(rows@) is Ok,
        r is Ok ==> crate::domain::optional_text(r->Ok_0) == published_state(rows@)->Ok_0,
        r is Err ==> r->Err_0@ == published_state(rows@)->Err_0,
{
    if rows.len() == 0 {
        return Ok(None);
    }
    match text_at(&rows[0], 1) {
        Some(state) => Ok(Some(state.to_owned())),
        None => Err("repository revision state is not a string".to_owned()),
    }
}

/// Takes the states of a repository out of the revisions of a view that shows it by itself.
pub fn remove_shown_states(repository: &str, view: &str) -> (r: Command)
    ensures
        r@ == texts_bound(REMOVE_SHOWN_STATES@, seq![("view"@, view@), ("repository"@, repository@)]),
{
    let pairs: Vec<(&str, &str)> = vec![("view", view), ("repository", repository)];
    assert(named_texts(pairs@) =~= seq![("view"@, view@), ("repository"@, repository@)]);
    texts_command(REMOVE_SHOWN_STATES, &pairs)
}

/// Asks for a state if no view needs it.
pub fn ask_stale_state(state: &str) -> (r: Command)
    ensures
        r@ == state_bound(STALE_STATE@, state@),
{
    state_command(STALE_STATE, state)
}

/// What takes a repository revision back. Its state, if no view needs it, is queued for collection.
pub open spec fn revision_deleted(repository: Seq<char>, state: Option<Seq<char>>, stale: Seq<RowModel>) -> Seq<CommandModel> {
    let removal = seq![
        repository_bound(REMOVE_REPOSITORY_DIAGNOSTICS@, repository),
        repository_bound(REMOVE_REPOSITORY_REVISION@, repository),
    ];
    if state is Some && stale.len() > 0 {
        removal + seq![read_put(QUEUE_STATES@, stale), state_bound(REMOVE_STATE@, state->0)]
    } else {
        removal
    }
}

/// Takes a repository revision back, given the state that is published, and that state if no
/// view needs it. Tells how many states are queued for collection.
pub fn delete_repository_revision(repository: &str, state: Option<&str>, stale: InspectionResult) -> (r: (u64, Vec<Command>))
    ensures
        r.0 == (if state is Some {
            stale.rows@.len()
        } else {
            0
        }),
        command_models(r.1@) == revision_deleted(repository@, crate::ids::borrowed_text(state), row_models(stale.rows@)),
{
    let mut commands: Vec<Command> = Vec::new();
    commands.push(repository_command(REMOVE_REPOSITORY_DIAGNOSTICS, repository));
    commands.push(repository_command(REMOVE_REPOSITORY_REVISION, repository));
    let mut queued: u64 = 0;
    match state {
        Some(state) => {
            queued = stale.rows.len() as u64;
            if stale.rows.len() > 0 {
                commands.push(put_read(QUEUE_STATES, stale.rows));
                commands.push(state_command(REMOVE_STATE, state));
            }
        },
        None => {},
    }
    assert(row_models(stale.rows@).len() == stale.rows@.len());
    assert(command_models(commands@) =~= revision_deleted(
        repository@,
        crate::ids::borrowed_text(state),
        row_models(stale.rows@),
    ));
    (queued, commands)
}

/// Asks for the state of a repository that a view shows.
pub fn ask_selected_state(view: &str, repository: &str) -> (r: Command)
    ensures
        r@ == texts_bound(SELECTED_STATE@, seq![("view"@, view@), ("repository"@, repository@)]),
{
    let pairs: Vec<(&str, &str)> = vec![("view", view), ("repository", repository)];
    assert(named_texts(pairs@) =~= seq![("view"@, view@), ("repository"@, repository@)]);
    texts_command(SELECTED_STATE, &pairs)
}

/// The text in the first column of the first row.
pub open spec fn first_text(rows: Seq<Vec<InspectionValue>>) -> Option<Seq<char>> {
    if rows.len() == 0 {
        None
    } else {
        cell_text(rows[0]@, 0)
    }
}

/// The text in the first column of the first row.
pub fn first_text_of<'a>(rows: &'a Vec<Vec<InspectionValue>>) -> (r: Option<&'a str>)
    ensures
        crate::ids::borrowed_text(r) == first_text(rows@),
{
    if rows.len() == 0 {
        None
    } else {
        text_at(&rows[0], 0)
    }
}

/// Whether a state that a view shows may hold the facts of a repository: it was not named after
/// them, but after the same source.
pub open spec fn may_be_reused(state: Seq<char>, fingerprint: Seq<char>) -> bool {
    &&& !(fingerprint + ":"@).is_prefix_of(state)
    &&& fingerprint.is_suffix_of(state)
}

/// The state that a view shows of a repository, if it may hold the facts.
pub fn state_to_reuse(facts: &RepositoryFacts, current: &InspectionResult) -> (r: Option<String>)
    ensures
        crate::domain::optional_text(r) == (match first_text(current.rows@) {
            Some(state) => if may_be_reused(state, facts.state@.fingerprint) {
                Some(state)
            } else {
                None
            },
            None => None,
        }),
{
    let state: &str = match first_text_of(&current.rows) {
        Some(state) => state,
        None => {
            return None;
        },
    };
    let mut named: String = facts.state.fingerprint.clone();
    named.append(":");
    if starts_with(state, named.as_str()) {
        return None;
    }
    if !ends_with(state, facts.state.fingerprint.as_str()) {
        return None;
    }
    Some(state.to_owned())
}

/// Asks for the observations of a state.
pub fn ask_stored_observations(state: &str) -> (r: Command)
    ensures
        r@ == state_bound(STORED_OBSERVATIONS@, state@),
{
    state_command(STORED_OBSERVATIONS, state)
}

/// Asks for the entities of a state.
pub fn ask_stored_entities(state: &str) -> (r: Command)
    ensures
        r@ == state_bound(STORED_ENTITIES@, state@),
{
    state_command(STORED_ENTITIES, state)
}

/// Asks for the candidates for bindings of a state.
pub fn ask_stored_candidates(state: &str) -> (r: Command)
    ensures
        r@ == state_bound(STORED_CANDIDATES@, state@),
{
    state_command(STORED_CANDIDATES, state)
}

/// How a stored value that should have been a string is reported.
pub const NOT_A_STRING: &'static str = "stored observation contains a non-string value";

/// How the confidence of a stored observation is reported if it is no number.
pub const OBSERVATION_NOT_A_FLOAT: &'static str = "stored observation contains a non-float confidence";

/// How the confidence of a stored binding is reported if it is no number.
pub const BINDING_NOT_A_FLOAT: &'static str = "stored gRPC binding contains a non-float confidence";

/// Whether the first columns of a row hold texts.
pub open spec fn texts_up_to(row: Row, n: int) -> bool {
    forall|j: int| 0 <= j < n ==> #[trigger] cell_text(row, j) is Some
}

/// The texts in the first columns of a row.
pub open spec fn first_texts(row: Row, n: int) -> Seq<Seq<char>> {
    Seq::new(n as nat, |j: int| cell_text(row, j)->0)
}

/// A stored value with its key: the texts in the first columns. A text, a confidence and another
/// text follow.
pub open spec fn stored_entry(row: Row, keys: int, message: Seq<char>) -> Result<(Seq<Seq<char>>, ValueModel), Seq<char>> {
    if !texts_up_to(row, keys + 1) {
        Err(NOT_A_STRING@)
    } else if cell_number(row, keys + 1) is None {
        Err(message)
    } else if cell_text(row, keys + 2) is None {
        Err(NOT_A_STRING@)
    } else {
        Ok(
            (
                first_texts(row, keys),
                ValueModel {
                    first: cell_text(row, keys)->0,
                    confidence: (cell_number(row, keys + 1)->0) as u64,
                    last: cell_text(row, keys + 2)->0,
                },
            ),
        )
    }
}

/// Stored values by their keys, as the first rows state them.
pub open spec fn stored_entries(rows: Seq<Vec<InspectionValue>>, keys: int, message: Seq<char>, n: int) -> Result<
    Map<Seq<Seq<char>>, ValueModel>,
    Seq<char>,
>
    decreases n,
{
    if n <= 0 {
        Ok(Map::empty())
    } else {
        match stored_entries(rows, keys, message, n - 1) {
            Err(message) => Err(message),
            Ok(before) => match stored_entry(rows[n - 1]@, keys, message) {
                Err(message) => Err(message),
                Ok((key, value)) => Ok(before.insert(key, value)),
            },
        }
    }
}

proof fn stored_entries_error(rows: Seq<Vec<InspectionValue>>, keys: int, message: Seq<char>, k: int, n: int)
    requires
        0 <= k <= n,
        stored_entries(rows, keys, message, k) is Err,
    ensures
        stored_entries(rows, keys, message, n) == stored_entries(rows, keys, message, k),
    decreases n - k,
{
    if k < n {
        stored_entries_error(rows, keys, message, k + 1, n);
    }
}

fn decode_texts(row: &Vec<InspectionValue>, n: usize) -> (r: Option<Vec<String>>)
    ensures
        r is Some <==> texts_up_to(row@, n as int),
        r is Some ==> texts(r->0@) == first_texts(row@, n as int),
{
    let mut list: Vec<String> = Vec::new();
    let mut i: usize = 0;
    while i < n
        invariant
            i <= n,
            list@.len() == i,
            texts_up_to(row@, i as int),
            forall|j: int| 0 <= j < i ==> (#[trigger] list@[j])@ == cell_text(row@, j)->0,
        decreases n - i,
    {
        match text_at(row, i) {
            Some(found) => {
                list.push(found.to_owned());
            },
            None => {
                return None;
            },
        }
        i = i + 1;
    }
    assert(texts(list@) =~= first_texts(row@, n as int));
    Some(list)
}

fn decode_entry(row: &Vec<InspectionValue>, keys: usize, message: &str) -> (r: Result<(Vec<String>, NormalValue), String>)
    requires
        keys + 3 <= usize::MAX,
    ensures
        r is Ok <==> stored_entry(row@, keys as int, message@) is Ok,
        r is Ok ==> texts((r->Ok_0).0@) == (stored_entry(row@, keys as int, message@)->Ok_0).0 && (r->Ok_0).1@ == (stored_entry(
            row@,
            keys as int,
            message@,
        )->Ok_0).1,
        r is Err ==> r->Err_0@ == stored_entry(row@, keys as int, message@)->Err_0,
{
    let mut key: Vec<String> = match decode_texts(row, keys + 1) {
        Some(list) => list,
        None => {
            return Err(NOT_A_STRING.to_owned());
        },
    };
    let ghost all = key@;
    assert(texts(all).len() == all.len());
    let first: String = match key.pop() {
        Some(first) => first,
        None => String::new(),
    };
    let confidence: u64 = match float(row, keys + 1, "confidence") {
        Ok(bits) => bits,
        Err(_) => {
            return Err(message.to_owned());
        },
    };
    let last: String = match text_at(row, keys + 2) {
        Some(last) => last.to_owned(),
        None => {
            return Err(NOT_A_STRING.to_owned());
        },
    };
    proof {
        assert(first_texts(row@, keys as int + 1)[keys as int] == cell_text(row@, keys as int)->0);
        assert(texts(all)[keys as int] == all[keys as int]@);
        assert(texts(key@) =~= first_texts(row@, keys as int)) by {
            assert forall|j: int| 0 <= j < keys implies #[trigger] texts(key@)[j] == first_texts(row@, keys as int)[j] by {
                assert(texts(all)[j] == first_texts(row@, keys as int + 1)[j]);
            }
        }
    }
    Ok((key, NormalValue { first, confidence, last }))
}

/// Reads stored values.
pub fn decode_entries(rows: &Vec<Vec<InspectionValue>>, keys: usize, message: &str) -> (r: Result<NormalMap, String>)
    requires
        keys + 3 <= usize::MAX,
    ensures
        r is Ok <==> stored_entries(rows@, keys as int, message@, rows@.len() as int) is Ok,
        r is Ok ==> r->Ok_0.wf() && normal_models(r->Ok_0@) == stored_entries(rows@, keys as int, message@, rows@.len() as int)->Ok_0,
        r is Err ==> r->Err_0@ == stored_entries(rows@, keys as int, message@, rows@.len() as int)->Err_0,
{
    let mut map: NormalMap = SortedMap::new();
    let mut i: usize = 0;
    assert(normal_models(map@) =~= Map::empty());
    while i < rows.len()
        invariant
            keys + 3 <= usize::MAX,
            i <= rows@.len(),
            map.wf(),
            stored_entries(rows@, keys as int, message@, i as int) is Ok,
            normal_models(map@) == stored_entries(rows@, keys as int, message@, i as int)->Ok_0,
        decreases rows@.len() - i,
    {
        match decode_entry(&rows[i], keys, message) {
            Ok((key, value)) => {
                let ghost before = map@;
                let ghost k = key.key();
                let ghost v = value;
                map.insert(key, value);
                assert(normal_models(map@) =~= normal_models(before).insert(k, v@));
            },
            Err(error) => {
                proof {
                    stored_entries_error(rows@, keys as int, message@, i as int + 1, rows@.len() as int);
                }
                return Err(error);
            },
        }
        i = i + 1;
    }
    Ok(map)
}

/// The kind and the metadata of a stored entity, with its ID.
pub open spec fn stored_entity(row: Row) -> Result<(Seq<Seq<char>>, (Seq<char>, Seq<char>)), Seq<char>> {
    if !texts_up_to(row, 3) {
        Err(NOT_A_STRING@)
    } else {
        Ok((seq![cell_text(row, 0)->0], (cell_text(row, 1)->0, cell_text(row, 2)->0)))
    }
}

/// Stored entities by their IDs, as the first rows state them.
pub open spec fn stored_entities(rows: Seq<Vec<InspectionValue>>, n: int) -> Result<
    Map<Seq<Seq<char>>, (Seq<char>, Seq<char>)>,
    Seq<char>,
>
    decreases n,
{
    if n <= 0 {
        Ok(Map::empty())
    } else {
        match stored_entities(rows, n - 1) {
            Err(message) => Err(message),
            Ok(before) => match stored_entity(rows[n - 1]@) {
                Err(message) => Err(message),
                Ok((key, value)) => Ok(before.insert(key, value)),
            },
        }
    }
}

proof fn stored_entities_error(rows: Seq<Vec<InspectionValue>>, k: int, n: int)
    requires
        0 <= k <= n,
        stored_entities(rows, k) is Err,
    ensures
        stored_entities(rows, n) == stored_entities(rows, k),
    decreases n - k,
{
    if k < n {
        stored_entities_error(rows, k + 1, n);
    }
}

/// Reads stored entities.
pub fn decode_entities(rows: &Vec<Vec<InspectionValue>>) -> (r: Result<EntityMap, String>)
    ensures
        r is Ok <==> stored_entities(rows@, rows@.len() as int) is Ok,
        r is Ok ==> r->Ok_0.wf() && pair_models(r->Ok_0@) == stored_entities(rows@, rows@.len() as int)->Ok_0,
        r is Err ==> r->Err_0@ == stored_entities(rows@, rows@.len() as int)->Err_0,
{
    let mut map: EntityMap = SortedMap::new();
    let mut i: usize = 0;
    assert(pair_models(map@) =~= Map::empty());
    while i < rows.len()
        invariant
            i <= rows@.len(),
            map.wf(),
            stored_entities(rows@, i as int) is Ok,
            pair_models(map@) == stored_entities(rows@, i as int)->Ok_0,
        decreases rows@.len() - i,
    {
        let row: &Vec<InspectionValue> = &rows[i];
        match (text_at(row, 0), text_at(row, 1), text_at(row, 2)) {
            (Some(id), Some(kind), Some(metadata)) => {
                assert(texts_up_to(row@, 3));
                let ghost before = map@;
                let key: String = id.to_owned();
                let ghost k = key.key();
                let value: (String, String) = (kind.to_owned(), metadata.to_owned());
                let ghost v = (value.0@, value.1@);
                map.insert(key, value);
                assert(pair_models(map@) =~= pair_models(before).insert(k, v));
            },
            _ => {
                proof {
                    assert(!texts_up_to(row@, 3)) by {
                        if texts_up_to(row@, 3) {
                            assert(cell_text(row@, 0) is Some);
                            assert(cell_text(row@, 1) is Some);
                            assert(cell_text(row@, 2) is Some);
                        }
                    }
                    stored_entities_error(rows@, i as int + 1, rows@.len() as int);
                }
                return Err(NOT_A_STRING.to_owned());
            },
        }
        i = i + 1;
    }
    Ok(map)
}

/// Whether a state holds the facts of a repository, as what is stored of it tells.
pub open spec fn holds_facts(
    facts: RepositoryFacts,
    observations: Seq<Vec<InspectionValue>>,
    entities: Seq<Vec<InspectionValue>>,
    candidates: Seq<Vec<InspectionValue>>,
) -> Result<bool, Seq<char>> {
    match stored_entries(observations, 3, OBSERVATION_NOT_A_FLOAT@, observations.len() as int) {
        Err(message) => Err(message),
        Ok(stored) => match stored_entities(entities, entities.len() as int) {
            Err(message) => Err(message),
            Ok(named) => match stored_entries(candidates, 5, BINDING_NOT_A_FLOAT@, candidates.len() as int) {
                Err(message) => Err(message),
                Ok(bound) => Ok(
                    stored == normal_observations(observation_models(facts.observations@)) && named == normal_entities(
                        entity_models(facts.entities@),
                    ) && bound == normal_candidates(candidate_models(facts.grpc_bindings@)),
                ),
            },
        },
    }
}

/// Tells whether a state holds the facts of a repository, given what is stored of it.
pub fn reusable_current_state(
    facts: &RepositoryFacts,
    observations: &InspectionResult,
    entities: &InspectionResult,
    candidates: &InspectionResult,
) -> (r: Result<bool, String>)
    ensures
        r is Ok <==> holds_facts(*facts, observations.rows@, entities.rows@, candidates.rows@) is Ok,
        r is Ok ==> r->Ok_0 == holds_facts(*facts, observations.rows@, entities.rows@, candidates.rows@)->Ok_0,
        r is Err ==> r->Err_0@ == holds_facts(*facts, observations.rows@, entities.rows@, candidates.rows@)->Err_0,
{
    let stored: NormalMap = match decode_entries(&observations.rows, 3, OBSERVATION_NOT_A_FLOAT) {
        Ok(stored) => stored,
        Err(message) => {
            return Err(message);
        },
    };
    let named: EntityMap = match decode_entities(&entities.rows) {
        Ok(named) => named,
        Err(message) => {
            return Err(message);
        },
    };
    let bound: NormalMap = match decode_entries(&candidates.rows, 5, BINDING_NOT_A_FLOAT) {
        Ok(bound) => bound,
        Err(message) => {
            return Err(message);
        },
    };
    Ok(
        same_normal(&stored, &normalized_observations(&facts.observations)) && same_entities(
            &named,
            &normalized_entities(&facts.entities),
        ) && same_normal(&bound, &normalized_grpc_bindings(&facts.grpc_bindings)),
    )
}

/// Whether a value is the one of a column.
pub open spec fn value_holds(value: InspectionValue, cell: CellModel) -> bool {
    match cell {
        CellModel::Text(text) => value_text(value) == Some(text),
        CellModel::Integer(number) => value matches InspectionValue::Integer(found) && found == number,
        CellModel::Float(bits) => value matches InspectionValue::Float(found) && found == bits,
        CellModel::Boolean(flag) => value matches InspectionValue::Boolean(found) && found == flag,
    }
}

/// Whether a row holds the values of columns.
pub open spec fn row_holds(row: Row, columns: Seq<CellModel>) -> bool {
    &&& row.len() == columns.len()
    &&& forall|j: int| 0 <= j < columns.len() ==> value_holds(#[trigger] row[j], columns[j])
}

/// Whether an entry is the last one with its key.
pub open spec fn is_latest<K, V>(entries: Seq<(K, V)>, i: int) -> bool {
    &&& 0 <= i < entries.len()
    &&& forall|j: int| i < j < entries.len() ==> (#[trigger] entries[j]).0 != entries[i].0
}

/// Whether rows hold the columns that were written, as far as no later ones with the same key
/// took their place.
pub open spec fn rows_keep<K, V>(rows: Seq<Vec<InspectionValue>>, entries: Seq<(K, V)>, columns: Seq<Seq<CellModel>>) -> bool {
    &&& forall|r: int|
        0 <= r < rows.len() ==> exists|i: int| #[trigger] is_latest(entries, i) && row_holds((#[trigger] rows[r])@, columns[i])
    &&& forall|i: int| #[trigger]
        is_latest(entries, i) ==> exists|r: int| 0 <= r < rows.len() && row_holds((#[trigger] rows[r])@, columns[i])
}

/// Whether the rows of a state are those that storing the facts of a repository leaves there.
pub open spec fn state_keeps(
    facts: RepositoryFacts,
    observations: Seq<Vec<InspectionValue>>,
    entities: Seq<Vec<InspectionValue>>,
    candidates: Seq<Vec<InspectionValue>>,
) -> bool {
    let observed = observation_models(facts.observations@);
    let named = entity_models(facts.entities@);
    let bound = candidate_models(facts.grpc_bindings@);
    &&& rows_keep(
        observations,
        observed.map_values(|observation: ObservationModel| observation_entry(observation)),
        observed.map_values(|observation: ObservationModel| observation_columns(observation)),
    )
    &&& rows_keep(
        entities,
        named.map_values(|entity: EntityModel| entity_entry(entity)),
        named.map_values(|entity: EntityModel| entity_columns(entity)),
    )
    &&& rows_keep(
        candidates,
        bound.map_values(|candidate: CandidateModel| candidate_entry(candidate)),
        bound.map_values(|candidate: CandidateModel| candidate_columns(candidate)),
    )
}

proof fn latest_wins<K, V>(entries: Seq<(K, V)>, i: int)
    requires
        is_latest(entries, i),
    ensures
        last_wins(entries).contains_key(entries[i].0),
        last_wins(entries)[entries[i].0] == entries[i].1,
    decreases entries.len(),
{
    if i < entries.len() - 1 {
        let shorter = entries.drop_last();
        assert forall|j: int| i < j < shorter.len() implies (#[trigger] shorter[j]).0 != shorter[i].0 by {
            assert(shorter[j] == entries[j]);
        }
        latest_wins(shorter, i);
        assert(entries[entries.len() - 1].0 != entries[i].0);
    }
}

proof fn winners_are_latest<K, V>(entries: Seq<(K, V)>, key: K) -> (i: int)
    requires
        last_wins(entries).contains_key(key),
    ensures
        is_latest(entries, i),
        entries[i].0 == key,
    decreases entries.len(),
{
    if entries.last().0 == key {
        entries.len() - 1
    } else {
        let shorter = entries.drop_last();
        let i = winners_are_latest(shorter, key);
        assert forall|j: int| i < j < entries.len() implies (#[trigger] entries[j]).0 != entries[i].0 by {
            if j < shorter.len() {
                assert(shorter[j] == entries[j]);
            }
        }
        i
    }
}

proof fn entries_read(rows: Seq<Vec<InspectionValue>>, keys: int, message: Seq<char>, map: Map<Seq<Seq<char>>, ValueModel>, n: int)
    requires
        0 <= n <= rows.len(),
        forall|r: int|
            0 <= r < rows.len() ==> (stored_entry((#[trigger] rows[r])@, keys, message) matches Ok((key, value)) && map.contains_key(
                key,
            ) && map[key] == value),
    ensures
        stored_entries(rows, keys, message, n) is Ok,
        stored_entries(rows, keys, message, n)->Ok_0.submap_of(map),
        forall|r: int|
            0 <= r < n ==> stored_entries(rows, keys, message, n)->Ok_0.contains_key(
                (stored_entry((#[trigger] rows[r])@, keys, message)->Ok_0).0,
            ),
    decreases n,
{
    if n > 0 {
        entries_read(rows, keys, message, map, n - 1);
        assert(stored_entry(rows[n - 1]@, keys, message) is Ok);
    }
}

proof fn entities_read(rows: Seq<Vec<InspectionValue>>, map: Map<Seq<Seq<char>>, (Seq<char>, Seq<char>)>, n: int)
    requires
        0 <= n <= rows.len(),
        forall|r: int|
            0 <= r < rows.len() ==> (stored_entity((#[trigger] rows[r])@) matches Ok((key, value)) && map.contains_key(key) && map[key]
                == value),
    ensures
        stored_entities(rows, n) is Ok,
        stored_entities(rows, n)->Ok_0.submap_of(map),
        forall|r: int| 0 <= r < n ==> stored_entities(rows, n)->Ok_0.contains_key((stored_entity((#[trigger] rows[r])@)->Ok_0).0),
    decreases n,
{
    if n > 0 {
        entities_read(rows, map, n - 1);
        assert(stored_entity(rows[n - 1]@) is Ok);
    }
}

proof fn kept_entries_are_read(
    rows: Seq<Vec<InspectionValue>>,
    keys: int,
    message: Seq<char>,
    entries: Seq<(Seq<Seq<char>>, ValueModel)>,
    columns: Seq<Seq<CellModel>>,
)
    requires
        rows_keep(rows, entries, columns),
        forall|r: int, i: int|
            0 <= r < rows.len() && #[trigger] is_latest(entries, i) && row_holds((#[trigger] rows[r])@, columns[i]) ==> stored_entry(
                rows[r]@,
                keys,
                message,
            ) == Ok::<(Seq<Seq<char>>, ValueModel), Seq<char>>(entries[i]),
    ensures
        stored_entries(rows, keys, message, rows.len() as int) == Ok::<Map<Seq<Seq<char>>, ValueModel>, Seq<char>>(last_wins(entries)),
{
    let map = last_wins(entries);
    assert forall|r: int| 0 <= r < rows.len() implies (stored_entry((#[trigger] rows[r])@, keys, message) matches Ok((key, value))
        && map.contains_key(key) && map[key] == value) by {
        let i = choose|i: int| #[trigger] is_latest(entries, i) && row_holds(rows[r]@, columns[i]);
        latest_wins(entries, i);
    }
    entries_read(rows, keys, message, map, rows.len() as int);
    let read = stored_entries(rows, keys, message, rows.len() as int)->Ok_0;
    assert forall|key: Seq<Seq<char>>| map.contains_key(key) implies #[trigger] read.contains_key(key) by {
        let i = winners_are_latest(entries, key);
        let r = choose|r: int| 0 <= r < rows.len() && row_holds((#[trigger] rows[r])@, columns[i]);
        assert(stored_entry(rows[r]@, keys, message) == Ok::<(Seq<Seq<char>>, ValueModel), Seq<char>>(entries[i]));
    }
    assert(read =~= map);
}

proof fn kept_entities_are_read(
    rows: Seq<Vec<InspectionValue>>,
    entries: Seq<(Seq<Seq<char>>, (Seq<char>, Seq<char>))>,
    columns: Seq<Seq<CellModel>>,
)
    requires
        rows_keep(rows, entries, columns),
        forall|r: int, i: int|
            0 <= r < rows.len() && #[trigger] is_latest(entries, i) && row_holds((#[trigger] rows[r])@, columns[i]) ==> stored_entity(
                rows[r]@,
            ) == Ok::<(Seq<Seq<char>>, (Seq<char>, Seq<char>)), Seq<char>>(entries[i]),
    ensures
        stored_entities(rows, rows.len() as int) == Ok::<Map<Seq<Seq<char>>, (Seq<char>, Seq<char>)>, Seq<char>>(last_wins(entries)),
{
    let map = last_wins(entries);
    assert forall|r: int| 0 <= r < rows.len() implies (stored_entity((#[trigger] rows[r])@) matches Ok((key, value)) && map.contains_key(key)
        && map[key] == value) by {
        let i = choose|i: int| #[trigger] is_latest(entries, i) && row_holds(rows[r]@, columns[i]);
        latest_wins(entries, i);
    }
    entities_read(rows, map, rows.len() as int);
    let read = stored_entities(rows, rows.len() as int)->Ok_0;
    assert forall|key: Seq<Seq<char>>| map.contains_key(key) implies #[trigger] read.contains_key(key) by {
        let i = winners_are_latest(entries, key);
        let r = choose|r: int| 0 <= r < rows.len() && row_holds((#[trigger] rows[r])@, columns[i]);
        assert(stored_entity(rows[r]@) == Ok::<(Seq<Seq<char>>, (Seq<char>, Seq<char>)), Seq<char>>(entries[i]));
    }
    assert(read =~= map);
}

proof fn observation_read(row: Row, observation: ObservationModel)
    requires
        row_holds(row, observation_columns(observation)),
    ensures
        stored_entry(row, 3, OBSERVATION_NOT_A_FLOAT@) == Ok::<(Seq<Seq<char>>, ValueModel), Seq<char>>(observation_entry(observation)),
{
    let columns = observation_columns(observation);
    assert(columns.len() == 6);
    assert forall|j: int| 0 <= j < 6 implies value_holds(row[j], #[trigger] columns[j]) by {}
    assert(columns[0] is Text && columns[1] is Text && columns[2] is Text && columns[3] is Text && columns[4] is Float && columns[5] is Text);
    assert(texts_up_to(row, 4));
    assert(first_texts(row, 3) =~= observation_key(observation));
}

proof fn entity_read(row: Row, entity: EntityModel)
    requires
        row_holds(row, entity_columns(entity)),
    ensures
        stored_entity(row) == Ok::<(Seq<Seq<char>>, (Seq<char>, Seq<char>)), Seq<char>>(entity_entry(entity)),
{
    let columns = entity_columns(entity);
    assert(columns.len() == 3);
    assert forall|j: int| 0 <= j < 3 implies value_holds(row[j], #[trigger] columns[j]) by {}
    assert(columns[0] is Text && columns[1] is Text && columns[2] is Text);
    assert(texts_up_to(row, 3));
}

proof fn candidate_read(row: Row, candidate: CandidateModel)
    requires
        row_holds(row, candidate_columns(candidate)),
    ensures
        stored_entry(row, 5, BINDING_NOT_A_FLOAT@) == Ok::<(Seq<Seq<char>>, ValueModel), Seq<char>>(candidate_entry(candidate)),
{
    let columns = candidate_columns(candidate);
    assert(columns.len() == 8);
    assert forall|j: int| 0 <= j < 8 implies value_holds(row[j], #[trigger] columns[j]) by {}
    assert(columns[0] is Text && columns[1] is Text && columns[2] is Text && columns[3] is Text && columns[4] is Text && columns[5] is Text
        && columns[6] is Float && columns[7] is Text);
    assert(texts_up_to(row, 6));
    assert(first_texts(row, 5) =~= candidate_key(candidate));
}

proof fn observations_read_back(list: Seq<ObservationModel>, rows: Seq<Vec<InspectionValue>>)
    requires
        rows_keep(
            rows,
            list.map_values(|observation: ObservationModel| observation_entry(observation)),
            list.map_values(|observation: ObservationModel| observation_columns(observation)),
        ),
    ensures
        stored_entries(rows, 3, OBSERVATION_NOT_A_FLOAT@, rows.len() as int) == Ok::<Map<Seq<Seq<char>>, ValueModel>, Seq<char>>(
            normal_observations(list),
        ),
{
    let entries = list.map_values(|observation: ObservationModel| observation_entry(observation));
    let columns = list.map_values(|observation: ObservationModel| observation_columns(observation));
    assert forall|r: int, i: int|
        0 <= r < rows.len() && #[trigger] is_latest(entries, i) && row_holds((#[trigger] rows[r])@, columns[i]) implies stored_entry(
        rows[r]@,
        3,
        OBSERVATION_NOT_A_FLOAT@,
    ) == Ok::<(Seq<Seq<char>>, ValueModel), Seq<char>>(entries[i]) by {
        observation_read(rows[r]@, list[i]);
    }
    kept_entries_are_read(rows, 3, OBSERVATION_NOT_A_FLOAT@, entries, columns);
}

proof fn entities_read_back(list: Seq<EntityModel>, rows: Seq<Vec<InspectionValue>>)
    requires
        rows_keep(
            rows,
            list.map_values(|entity: EntityModel| entity_entry(entity)),
            list.map_values(|entity: EntityModel| entity_columns(entity)),
        ),
    ensures
        stored_entities(rows, rows.len() as int) == Ok::<Map<Seq<Seq<char>>, (Seq<char>, Seq<char>)>, Seq<char>>(normal_entities(list)),
{
    let entries = list.map_values(|entity: EntityModel| entity_entry(entity));
    let columns = list.map_values(|entity: EntityModel| entity_columns(entity));
    assert forall|r: int, i: int|
        0 <= r < rows.len() && #[trigger] is_latest(entries, i) && row_holds((#[trigger] rows[r])@, columns[i]) implies stored_entity(
        rows[r]@,
    ) == Ok::<(Seq<Seq<char>>, (Seq<char>, Seq<char>)), Seq<char>>(entries[i]) by {
        entity_read(rows[r]@, list[i]);
    }
    kept_entities_are_read(rows, entries, columns);
}

proof fn candidates_read_back(list: Seq<CandidateModel>, rows: Seq<Vec<InspectionValue>>)
    requires
        rows_keep(
            rows,
            list.map_values(|candidate: CandidateModel| candidate_entry(candidate)),
            list.map_values(|candidate: CandidateModel| candidate_columns(candidate)),
        ),
    ensures
        stored_entries(rows, 5, BINDING_NOT_A_FLOAT@, rows.len() as int) == Ok::<Map<Seq<Seq<char>>, ValueModel>, Seq<char>>(
            normal_candidates(list),
        ),
{
    let entries = list.map_values(|candidate: CandidateModel| candidate_entry(candidate));
    let columns = list.map_values(|candidate: CandidateModel| candidate_columns(candidate));
    assert forall|r: int, i: int|
        0 <= r < rows.len() && #[trigger] is_latest(entries, i) && row_holds((#[trigger] rows[r])@, columns[i]) implies stored_entry(
        rows[r]@,
        5,
        BINDING_NOT_A_FLOAT@,
    ) == Ok::<(Seq<Seq<char>>, ValueModel), Seq<char>>(entries[i]) by {
        candidate_read(rows[r]@, list[i]);
    }
    kept_entries_are_read(rows, 5, BINDING_NOT_A_FLOAT@, entries, columns);
}

/// A state is reused exactly for the facts that were stored in it: it reads back as these facts,
/// in whatever order its rows come, and so holds other facts only if they say the same.
pub proof fn stored_facts_are_read_back(
    stored: RepositoryFacts,
    facts: RepositoryFacts,
    observations: Seq<Vec<InspectionValue>>,
    entities: Seq<Vec<InspectionValue>>,
    candidates: Seq<Vec<InspectionValue>>,
)
    requires
        state_keeps(stored, observations, entities, candidates),
    ensures
        holds_facts(stored, observations, entities, candidates) == Ok::<bool, Seq<char>>(true),
        holds_facts(facts, observations, entities, candidates) == Ok::<bool, Seq<char>>(
            normal_observations(observation_models(facts.observations@)) == normal_observations(observation_models(stored.observations@))
                && normal_entities(entity_models(facts.entities@)) == normal_entities(entity_models(stored.entities@))
                && normal_candidates(candidate_models(facts.grpc_bindings@)) == normal_candidates(
                candidate_models(stored.grpc_bindings@),
            ),
        ),
{
    observations_read_back(observation_models(stored.observations@), observations);
    entities_read_back(entity_models(stored.entities@), entities);
    candidates_read_back(candidate_models(stored.grpc_bindings@), candidates);
}

} // verus!
