//! What is stored of a revision besides the facts themselves.

use crate::command::{
    bind_text, cells, named_texts, row_cells, text_cell, texts_bound, texts_command, Argument, ArgumentModel, Binding, Cell, CellModel,
    Command, CommandModel,
};
use crate::domain::{
    confidence_bits, confidence_score, provenance_name, provenance_name_text, relation_name, relation_name_text, SemanticRelation,
};
use crate::grpc::{add_unless_empty, front_of_revision, put_unless_empty, revision_front};
use crate::records::{
    command_models, put_rows, record_rows, rows_behind, rows_put, stored_text, text_or_nothing, AnalyzerInput, DependencyOverride, OverrideModel, RepositoryFacts,
    WorkspaceView,
};
use crate::seqs::{concat_map, concat_map_step, concat_range};
use crate::sorted::texts;
use crate::write_scripts::{
    PUT_CONTEXTS, PUT_DIAGNOSTICS, PUT_ENRICHMENT_INPUTS, PUT_HEADS, PUT_INPUTS, PUT_METADATA, PUT_OVERRIDE, PUT_OVERRIDE_METADATA, PUT_REVISION_STATE,
};
use crate::writes::{state_stored, store_repository_state};
use vstd::prelude::*;

verus! {

/// Whether a view gives an input for each of its repository states.
pub open spec fn gives_inputs(view: WorkspaceView) -> bool {
    &&& view.input_fingerprints@.len() == view.repository_states@.len()
    &&& forall|a: int|
        0 <= a < view.enrichment_inputs@.len() ==> (#[trigger] view.enrichment_inputs@[a]).fingerprints@.len()
            == view.repository_states@.len() && view.enrichment_inputs@[a].contexts@.len() == view.repository_states@.len()
}

/// Tells whether a view gives an input for each of its repository states.
pub fn has_inputs(view: &WorkspaceView) -> (r: bool)
    ensures
        r == gives_inputs(*view),
{
    if view.input_fingerprints.len() != view.repository_states.len() {
        return false;
    }
    let mut a: usize = 0;
    while a < view.enrichment_inputs.len()
        invariant
            a <= view.enrichment_inputs@.len(),
            forall|k: int|
                0 <= k < a ==> (#[trigger] view.enrichment_inputs@[k]).fingerprints@.len() == view.repository_states@.len()
                    && view.enrichment_inputs@[k].contexts@.len() == view.repository_states@.len(),
        decreases view.enrichment_inputs@.len() - a,
    {
        if view.enrichment_inputs[a].fingerprints.len() != view.repository_states.len() || view.enrichment_inputs[a].contexts.len()
            != view.repository_states.len() {
            return false;
        }
        a = a + 1;
    }
    true
}

/// What the rows of a repository in a revision begin with.
pub open spec fn repository_front(view: Seq<char>, revision: int, repository: Seq<char>) -> Seq<CellModel> {
    revision_front(view, revision).push(CellModel::Text(repository))
}

fn front_of_repository(view: &str, revision: i64, repository: &str) -> (r: Vec<Cell>)
    ensures
        cells(r@) == repository_front(view@, revision as int, repository@),
{
    let mut front: Vec<Cell> = front_of_revision(view, revision);
    let ghost before = front@;
    front.push(text_cell(repository));
    assert(cells(front@) =~= cells(before).push(CellModel::Text(repository@)));
    front
}

/// The row of the input of a repository.
pub open spec fn input_row(view: WorkspaceView, revision: int, i: int) -> Seq<CellModel> {
    repository_front(view.name@, revision, view.repository_states@[i]@.repository).push(CellModel::Text(view.input_fingerprints@[i]@))
}

/// The rows of the inputs of repositories.
pub open spec fn input_rows(view: WorkspaceView, revision: int) -> Seq<Seq<CellModel>> {
    Seq::new(view.repository_states@.len(), |i: int| input_row(view, revision, i))
}

/// What the rows of an analyzer for a repository begin with.
pub open spec fn analyzer_front(view: WorkspaceView, revision: int, a: int, i: int) -> Seq<CellModel> {
    repository_front(view.name@, revision, view.repository_states@[i]@.repository).push(
        CellModel::Text(view.enrichment_inputs@[a].analyzer@),
    )
}

/// The rows of the inputs of an analyzer.
pub open spec fn analyzer_rows(view: WorkspaceView, revision: int, a: int) -> Seq<Seq<CellModel>> {
    Seq::new(
        view.repository_states@.len(),
        |i: int| analyzer_front(view, revision, a, i).push(CellModel::Text(view.enrichment_inputs@[a].fingerprints@[i]@)),
    )
}

/// The rows of the inputs of all analyzers.
pub open spec fn enrichment_rows(view: WorkspaceView, revision: int) -> Seq<Seq<CellModel>> {
    concat_range(view.enrichment_inputs@.len() as int, |a: int| analyzer_rows(view, revision, a))
}

/// The rows of the context of a repository for an analyzer.
pub open spec fn context_rows_of(view: WorkspaceView, revision: int, a: int, i: int) -> Seq<Seq<CellModel>> {
    texts(view.enrichment_inputs@[a].contexts@[i]@).map_values(
        |context: Seq<char>| analyzer_front(view, revision, a, i).push(CellModel::Text(context)),
    )
}

/// The rows of the contexts for an analyzer.
pub open spec fn contexts_of(view: WorkspaceView, revision: int, a: int) -> Seq<Seq<CellModel>> {
    concat_range(view.repository_states@.len() as int, |i: int| context_rows_of(view, revision, a, i))
}

/// The rows of the contexts for all analyzers.
pub open spec fn context_rows(view: WorkspaceView, revision: int) -> Seq<Seq<CellModel>> {
    concat_range(view.enrichment_inputs@.len() as int, |a: int| contexts_of(view, revision, a))
}

/// What stores the inputs of a revision.
pub open spec fn inputs_stored(view: WorkspaceView, revision: int) -> Seq<CommandModel> {
    seq![
        rows_put(PUT_INPUTS@, input_rows(view, revision)),
        rows_put(PUT_ENRICHMENT_INPUTS@, enrichment_rows(view, revision)),
        rows_put(PUT_CONTEXTS@, context_rows(view, revision)),
    ]
}

fn rows_of_inputs(view: &WorkspaceView, revision: i64) -> (r: Vec<Vec<Cell>>)
    requires
        gives_inputs(*view),
    ensures
        row_cells(r@) == input_rows(*view, revision as int),
{
    let mut rows: Vec<Vec<Cell>> = Vec::new();
    let mut i: usize = 0;
    while i < view.repository_states.len()
        invariant
            gives_inputs(*view),
            i <= view.repository_states@.len(),
            rows@.len() == i,
            forall|k: int| 0 <= k < i ==> cells((#[trigger] rows@[k])@) == input_row(*view, revision as int, k),
        decreases view.repository_states@.len() - i,
    {
        let mut row: Vec<Cell> = front_of_repository(
            view.name.as_str(),
            revision,
            view.repository_states[i].repository.identity.as_str(),
        );
        let ghost before = row@;
        row.push(text_cell(view.input_fingerprints[i].as_str()));
        assert(cells(row@) =~= cells(before).push(CellModel::Text(view.input_fingerprints@[i as int]@)));
        rows.push(row);
        i = i + 1;
    }
    assert(row_cells(rows@) =~= input_rows(*view, revision as int));
    rows
}

fn front_of_analyzer(view: &WorkspaceView, revision: i64, a: usize, i: usize) -> (r: Vec<Cell>)
    requires
        a < view.enrichment_inputs@.len(),
        i < view.repository_states@.len(),
    ensures
        cells(r@) == analyzer_front(*view, revision as int, a as int, i as int),
{
    let mut front: Vec<Cell> = front_of_repository(
        view.name.as_str(),
        revision,
        view.repository_states[i].repository.identity.as_str(),
    );
    let ghost before = front@;
    front.push(text_cell(view.enrichment_inputs[a].analyzer.as_str()));
    assert(cells(front@) =~= cells(before).push(CellModel::Text(view.enrichment_inputs@[a as int].analyzer@)));
    front
}

fn rows_of_enrichments(view: &WorkspaceView, revision: i64) -> (r: Vec<Vec<Cell>>)
    requires
        gives_inputs(*view),
    ensures
        row_cells(r@) == enrichment_rows(*view, revision as int),
{
    let ghost piece = |a: int| analyzer_rows(*view, revision as int, a);
    let mut rows: Vec<Vec<Cell>> = Vec::new();
    let mut a: usize = 0;
    assert(row_cells(rows@) =~= concat_range(0, piece));
    while a < view.enrichment_inputs.len()
        invariant
            gives_inputs(*view),
            a <= view.enrichment_inputs@.len(),
            piece == (|a: int| analyzer_rows(*view, revision as int, a)),
            row_cells(rows@) == concat_range(a as int, piece),
        decreases view.enrichment_inputs@.len() - a,
    {
        let input: &AnalyzerInput = &view.enrichment_inputs[a];
        let ghost before = rows@;
        let ghost wanted = analyzer_rows(*view, revision as int, a as int);
        let mut i: usize = 0;
        assert(row_cells(rows@) =~= row_cells(before) + wanted.take(0));
        while i < view.repository_states.len()
            invariant
                gives_inputs(*view),
                a < view.enrichment_inputs@.len(),
                *input == view.enrichment_inputs@[a as int],
                i <= view.repository_states@.len(),
                wanted == analyzer_rows(*view, revision as int, a as int),
                row_cells(rows@) == row_cells(before) + wanted.take(i as int),
            decreases view.repository_states@.len() - i,
        {
            let ghost so_far = rows@;
            let mut row: Vec<Cell> = front_of_analyzer(view, revision, a, i);
            let ghost front = row@;
            row.push(text_cell(input.fingerprints[i].as_str()));
            assert(cells(row@) =~= cells(front).push(CellModel::Text(input.fingerprints@[i as int]@)));
            rows.push(row);
            proof {
                assert(row_cells(rows@) =~= row_cells(so_far).push(cells(row@)));
                assert(wanted.take(i as int + 1) =~= wanted.take(i as int).push(wanted[i as int]));
                assert(row_cells(rows@) =~= row_cells(before) + wanted.take(i as int + 1));
            }
            i = i + 1;
        }
        assert(wanted.take(wanted.len() as int) =~= wanted);
        a = a + 1;
    }
    rows
}

fn add_contexts(rows: &mut Vec<Vec<Cell>>, view: &WorkspaceView, revision: i64, a: usize, i: usize)
    requires
        gives_inputs(*view),
        a < view.enrichment_inputs@.len(),
        i < view.repository_states@.len(),
    ensures
        row_cells(final(rows)@) == row_cells(old(rows)@) + context_rows_of(*view, revision as int, a as int, i as int),
{
    let ghost before = rows@;
    let ghost wanted = context_rows_of(*view, revision as int, a as int, i as int);
    let list: &Vec<String> = &view.enrichment_inputs[a].contexts[i];
    let mut j: usize = 0;
    proof {
        assert(texts(list@).len() == list@.len());
        assert(row_cells(rows@) =~= row_cells(before) + wanted.take(0));
    }
    while j < list.len()
        invariant
            a < view.enrichment_inputs@.len(),
            i < view.repository_states@.len(),
            list@ == view.enrichment_inputs@[a as int].contexts@[i as int]@,
            wanted == context_rows_of(*view, revision as int, a as int, i as int),
            wanted.len() == list@.len(),
            j <= list@.len(),
            row_cells(rows@) == row_cells(before) + wanted.take(j as int),
        decreases list@.len() - j,
    {
        let ghost so_far = rows@;
        let mut row: Vec<Cell> = front_of_analyzer(view, revision, a, i);
        let ghost front = row@;
        row.push(text_cell(list[j].as_str()));
        assert(cells(row@) =~= cells(front).push(CellModel::Text(list@[j as int]@)));
        rows.push(row);
        proof {
            assert(texts(list@)[j as int] == list@[j as int]@);
            assert(row_cells(rows@) =~= row_cells(so_far).push(cells(row@)));
            assert(wanted.take(j as int + 1) =~= wanted.take(j as int).push(wanted[j as int]));
            assert(row_cells(rows@) =~= row_cells(before) + wanted.take(j as int + 1));
        }
        j = j + 1;
    }
    assert(wanted.take(wanted.len() as int) =~= wanted);
}

fn rows_of_contexts(view: &WorkspaceView, revision: i64) -> (r: Vec<Vec<Cell>>)
    requires
        gives_inputs(*view),
    ensures
        row_cells(r@) == context_rows(*view, revision as int),
{
    let ghost piece = |a: int| contexts_of(*view, revision as int, a);
    let mut rows: Vec<Vec<Cell>> = Vec::new();
    let mut a: usize = 0;
    assert(row_cells(rows@) =~= concat_range(0, piece));
    while a < view.enrichment_inputs.len()
        invariant
            gives_inputs(*view),
            a <= view.enrichment_inputs@.len(),
            piece == (|a: int| contexts_of(*view, revision as int, a)),
            row_cells(rows@) == concat_range(a as int, piece),
        decreases view.enrichment_inputs@.len() - a,
    {
        let ghost before = row_cells(rows@);
        let ghost part = |i: int| context_rows_of(*view, revision as int, a as int, i);
        let mut i: usize = 0;
        assert(row_cells(rows@) =~= before + concat_range(0, part));
        while i < view.repository_states.len()
            invariant
                gives_inputs(*view),
                a < view.enrichment_inputs@.len(),
                i <= view.repository_states@.len(),
                part == (|i: int| context_rows_of(*view, revision as int, a as int, i)),
                row_cells(rows@) == before + concat_range(i as int, part),
            decreases view.repository_states@.len() - i,
        {
            add_contexts(&mut rows, view, revision, a, i);
            assert(row_cells(rows@) =~= before + concat_range(i as int + 1, part));
            i = i + 1;
        }
        a = a + 1;
    }
    rows
}

/// Stores the inputs of a revision.
pub fn store_revision_inputs(view: &WorkspaceView, revision: i64) -> (r: Vec<Command>)
    requires
        gives_inputs(*view),
    ensures
        command_models(r@) == inputs_stored(*view, revision as int),
{
    let mut commands: Vec<Command> = Vec::new();
    commands.push(put_rows(PUT_INPUTS, rows_of_inputs(view, revision)));
    commands.push(put_rows(PUT_ENRICHMENT_INPUTS, rows_of_enrichments(view, revision)));
    commands.push(put_rows(PUT_CONTEXTS, rows_of_contexts(view, revision)));
    assert(command_models(commands@) =~= inputs_stored(*view, revision as int));
    commands
}

/// The rows of the diagnostics of a revision.
pub open spec fn diagnostic_rows(view: Seq<char>, revision: int, repositories: Seq<RepositoryFacts>) -> Seq<Seq<CellModel>> {
    concat_map(
        repositories,
        |facts: RepositoryFacts| record_rows(repository_front(view, revision, facts.state@.repository), facts.diagnostics@),
    )
}

/// Whether the facts of any repository are incomplete.
pub open spec fn any_incomplete(repositories: Seq<RepositoryFacts>) -> bool {
    exists|i: int| 0 <= i < repositories.len() && (#[trigger] repositories[i]).incomplete
}

/// What stores whether a revision is complete, and the diagnostics of it.
pub open spec fn metadata_stored(view: Seq<char>, revision: int, repositories: Seq<RepositoryFacts>) -> Seq<CommandModel> {
    seq![
        CommandModel {
            script: PUT_METADATA@,
            arguments: seq![
                ("view"@, ArgumentModel::One(CellModel::Text(view))),
                ("incomplete"@, ArgumentModel::One(CellModel::Boolean(any_incomplete(repositories)))),
            ],
        },
    ] + put_unless_empty(PUT_DIAGNOSTICS@, diagnostic_rows(view, revision, repositories))
}

/// Stores whether a revision is complete, and the diagnostics of it.
pub fn store_analysis_metadata(view: &str, revision: i64, repositories: &Vec<RepositoryFacts>) -> (r: Vec<Command>)
    ensures
        command_models(r@) == metadata_stored(view@, revision as int, repositories@),
{
    let ghost piece = |facts: RepositoryFacts|
        record_rows(repository_front(view@, revision as int, facts.state@.repository), facts.diagnostics@);
    let mut incomplete: bool = false;
    let mut rows: Vec<Vec<Cell>> = Vec::new();
    let mut i: usize = 0;
    assert(row_cells(rows@) =~= concat_map(repositories@.take(0), piece));
    while i < repositories.len()
        invariant
            i <= repositories@.len(),
            piece == (|facts: RepositoryFacts|
                record_rows(repository_front(view@, revision as int, facts.state@.repository), facts.diagnostics@)),
            incomplete <==> exists|k: int| 0 <= k < i && (#[trigger] repositories@[k]).incomplete,
            row_cells(rows@) == concat_map(repositories@.take(i as int), piece),
        decreases repositories@.len() - i,
    {
        let facts: &RepositoryFacts = &repositories[i];
        if facts.incomplete {
            incomplete = true;
        }
        let front: Vec<Cell> = front_of_repository(view, revision, facts.state.repository.identity.as_str());
        let ghost before = rows@;
        let mut more: Vec<Vec<Cell>> = rows_behind(&front, &facts.diagnostics);
        let ghost added = more@;
        rows.append(&mut more);
        proof {
            concat_map_step(repositories@, i as int, piece);
            assert(row_cells(rows@) =~= row_cells(before) + row_cells(added));
        }
        i = i + 1;
    }
    assert(repositories@.take(repositories@.len() as int) =~= repositories@);
    let mut arguments: Vec<Binding> = Vec::new();
    arguments.push(bind_text("view", view));
    arguments.push(("incomplete".to_owned(), Argument::One(Cell::Boolean(incomplete))));
    let command: Command = Command { script: PUT_METADATA.to_owned(), arguments };
    assert(command@.arguments =~= seq![
        ("view"@, ArgumentModel::One(CellModel::Text(view@))),
        ("incomplete"@, ArgumentModel::One(CellModel::Boolean(any_incomplete(repositories@)))),
    ]);
    let mut commands: Vec<Command> = Vec::new();
    commands.push(command);
    assert(command_models(commands@) =~= seq![command@]);
    add_unless_empty(&mut commands, PUT_DIAGNOSTICS, rows);
    commands
}

/// What stores a repository state and shows it in a view.
pub open spec fn state_shown(view: Seq<char>, facts: RepositoryFacts, state: Seq<char>) -> Seq<CommandModel> {
    seq![
        state_stored(facts, state),
        texts_bound(
            PUT_REVISION_STATE@,
            seq![("view"@, view), ("repository"@, facts.state@.repository), ("state"@, state)],
        ),
    ]
}

/// What stores repository states and shows them in a view.
pub open spec fn states_shown(view: Seq<char>, repositories: Seq<RepositoryFacts>, states: Seq<Seq<char>>) -> Seq<CommandModel> {
    concat_range(repositories.len() as int, |i: int| state_shown(view, repositories[i], states[i]))
}

/// Stores repository states and shows them in a view.
pub fn store_repository_states(view: &str, repositories: &Vec<RepositoryFacts>, states: &Vec<String>) -> (r: Vec<Command>)
    requires
        states@.len() == repositories@.len(),
    ensures
        command_models(r@) == states_shown(view@, repositories@, texts(states@)),
{
    let ghost piece = |i: int| state_shown(view@, repositories@[i], texts(states@)[i]);
    let mut commands: Vec<Command> = Vec::new();
    let mut i: usize = 0;
    assert(command_models(commands@) =~= concat_range(0, piece));
    while i < repositories.len()
        invariant
            i <= repositories@.len(),
            states@.len() == repositories@.len(),
            piece == (|i: int| state_shown(view@, repositories@[i], texts(states@)[i])),
            command_models(commands@) == concat_range(i as int, piece),
        decreases repositories@.len() - i,
    {
        let ghost before = commands@;
        let facts: &RepositoryFacts = &repositories[i];
        let state: &str = states[i].as_str();
        commands.push(store_repository_state(facts, state));
        let pairs: Vec<(&str, &str)> = vec![("view", view), ("repository", facts.state.repository.identity.as_str()), ("state", state)];
        assert(named_texts(pairs@) =~= seq![("view"@, view@), ("repository"@, facts.state@.repository), ("state"@, state@)]);
        commands.push(texts_command(PUT_REVISION_STATE, &pairs));
        assert(command_models(commands@) =~= command_models(before) + piece(i as int));
        i = i + 1;
    }
    commands
}

/// The row of the head of a repository in a revision. A repository without a head has an empty
/// one.
pub open spec fn head_row(view: Seq<char>, revision: int, facts: RepositoryFacts) -> Seq<CellModel> {
    repository_front(view, revision, facts.state@.repository).push(CellModel::Text(stored_text(facts.state@.head)))
}

/// What notes the heads of the repositories in a revision.
pub open spec fn heads_noted(view: Seq<char>, revision: int, repositories: Seq<RepositoryFacts>) -> CommandModel {
    rows_put(PUT_HEADS@, Seq::new(repositories.len(), |i: int| head_row(view, revision, repositories[i])))
}

/// Notes the heads of the repositories in a revision.
pub fn store_heads(view: &str, revision: i64, repositories: &Vec<RepositoryFacts>) -> (r: Command)
    ensures
        r@ == heads_noted(view@, revision as int, repositories@),
{
    let mut rows: Vec<Vec<Cell>> = Vec::new();
    let mut i: usize = 0;
    while i < repositories.len()
        invariant
            i <= repositories@.len(),
            rows@.len() == i,
            forall|k: int| 0 <= k < i ==> cells((#[trigger] rows@[k])@) == head_row(view@, revision as int, repositories@[k]),
        decreases repositories@.len() - i,
    {
        let facts: &RepositoryFacts = &repositories[i];
        let mut row: Vec<Cell> = front_of_repository(view, revision, facts.state.repository.identity.as_str());
        let head: String = text_or_nothing(&facts.state.head);
        let ghost before = row@;
        row.push(text_cell(head.as_str()));
        assert(cells(row@) =~= cells(before).push(CellModel::Text(head@)));
        rows.push(row);
        i = i + 1;
    }
    assert(row_cells(rows@) =~= Seq::new(repositories@.len(), |i: int| head_row(view@, revision as int, repositories@[i])));
    put_rows(PUT_HEADS, rows)
}

/// What an override is stored with.
pub open spec fn override_bound(view: Seq<char>, override_: OverrideModel) -> Seq<(Seq<char>, ArgumentModel)> {
    seq![
        ("view"@, ArgumentModel::One(CellModel::Text(view))),
        ("from"@, ArgumentModel::One(CellModel::Text(override_.from))),
        ("relation"@, ArgumentModel::One(CellModel::Text(relation_name_text(SemanticRelation::Dependency(override_.relation))))),
        ("unresolved_to"@, ArgumentModel::One(CellModel::Text(override_.unresolved_to))),
        ("resolved_to"@, ArgumentModel::One(CellModel::Text(override_.resolved_to))),
        ("evidence"@, ArgumentModel::One(CellModel::Text(override_.evidence))),
        ("confidence"@, ArgumentModel::One(CellModel::Float(confidence_score(override_.confidence) as int))),
        ("provenance"@, ArgumentModel::One(CellModel::Text(provenance_name_text(override_.provenance)))),
    ]
}

/// What stores an override in the revision that a view shows.
pub open spec fn override_stored(view: Seq<char>, override_: OverrideModel) -> Seq<CommandModel> {
    seq![
        CommandModel { script: PUT_OVERRIDE@, arguments: override_bound(view, override_) },
        CommandModel { script: PUT_OVERRIDE_METADATA@, arguments: override_bound(view, override_) },
    ]
}

/// What stores overrides in the revision that a view shows.
pub open spec fn overrides_stored(view: Seq<char>, overrides: Seq<OverrideModel>) -> Seq<CommandModel> {
    concat_map(overrides, |override_: OverrideModel| override_stored(view, override_))
}

fn override_command(script: &str, view: &str, override_: &DependencyOverride) -> (r: Command)
    ensures
        r@ == (CommandModel { script: script@, arguments: override_bound(view@, override_@) }),
{
    let mut arguments: Vec<Binding> = Vec::new();
    arguments.push(bind_text("view", view));
    arguments.push(bind_text("from", override_.from.as_str()));
    arguments.push(bind_text("relation", relation_name(SemanticRelation::Dependency(override_.relation))));
    arguments.push(bind_text("unresolved_to", override_.unresolved_to.as_str()));
    arguments.push(bind_text("resolved_to", override_.resolved_to.as_str()));
    arguments.push(bind_text("evidence", override_.evidence.as_str()));
    arguments.push(("confidence".to_owned(), Argument::One(Cell::Float(confidence_bits(override_.confidence)))));
    arguments.push(bind_text("provenance", provenance_name(override_.provenance)));
    let command: Command = Command { script: script.to_owned(), arguments };
    assert(command@.arguments =~= override_bound(view@, override_@));
    command
}

/// Stores overrides in the revision that a view shows.
pub fn store_overrides(view: &str, overrides: &Vec<DependencyOverride>) -> (r: Vec<Command>)
    ensures
        command_models(r@) == overrides_stored(view@, crate::baseline::override_models(overrides@)),
{
    let ghost all = crate::baseline::override_models(overrides@);
    let ghost piece = |override_: OverrideModel| override_stored(view@, override_);
    let mut commands: Vec<Command> = Vec::new();
    let mut i: usize = 0;
    assert(command_models(commands@) =~= concat_map(all.take(0), piece));
    while i < overrides.len()
        invariant
            i <= overrides@.len(),
            all == crate::baseline::override_models(overrides@),
            piece == (|override_: OverrideModel| override_stored(view@, override_)),
            command_models(commands@) == concat_map(all.take(i as int), piece),
        decreases overrides@.len() - i,
    {
        let ghost before = commands@;
        commands.push(override_command(PUT_OVERRIDE, view, &overrides[i]));
        commands.push(override_command(PUT_OVERRIDE_METADATA, view, &overrides[i]));
        proof {
            concat_map_step(all, i as int, piece);
            assert(all[i as int] == overrides@[i as int]@);
            assert(command_models(commands@) =~= command_models(before) + piece(all[i as int]));
        }
        i = i + 1;
    }
    assert(all.take(all.len() as int) =~= all);
    commands
}

/// The heads of a revision are noted for one view: those that other views know stay as they are.
pub proof fn heads_are_noted_for_one_view(view: Seq<char>, revision: int, repositories: Seq<RepositoryFacts>, i: int)
    requires
        0 <= i < repositories.len(),
    ensures
        ({
            let rows = Seq::new(repositories.len(), |k: int| head_row(view, revision, repositories[k]));
            &&& heads_noted(view, revision, repositories) == rows_put(PUT_HEADS@, rows)
            &&& rows[i] == seq![
                CellModel::Text(view),
                CellModel::Integer(revision),
                CellModel::Text(repositories[i].state@.repository),
                CellModel::Text(stored_text(repositories[i].state@.head)),
            ]
        }),
{
    let row = head_row(view, revision, repositories[i]);
    assert(row =~= seq![
        CellModel::Text(view),
        CellModel::Integer(revision),
        CellModel::Text(repositories[i].state@.repository),
        CellModel::Text(stored_text(repositories[i].state@.head)),
    ]);
}

} // verus!
