//! What analyses deliver: the facts of repositories, and what is published of them.

use crate::command::{cells, row_cells, text_cell, ArgumentModel, Binding, Cell, CellModel, Command, CommandModel};
use crate::domain::{
    confidence_bits, confidence_score, entity_kind, entity_kind_text, entity_metadata, entity_metadata_text, grpc_role_name,
    grpc_role_name_text, is_dependency, optional_text, provenance_name, provenance_name_text, relation_name, relation_name_text,
    rpc_cardinality, rpc_cardinality_text, severity_name, severity_text, AnalysisDiagnostic, Confidence, DependencyRelation,
    DiagnosticModel, EntityFact, EntityModel, GrpcBindingRole, Observation, ObservationModel, Provenance, RpcCardinality, SemanticRelation,
};
use crate::seqs::{keep, keep_step};
use vstd::prelude::*;

verus! {

/// A repository, wherever it is checked out.
#[derive(Debug)]
pub struct LogicalRepository {
    pub identity: String,
}

/// A repository in the state in which it was analysed.
#[derive(Debug)]
pub struct RepositoryState {
    pub repository: LogicalRepository,
    pub head: Option<String>,
    pub fingerprint: String,
}

/// The content of a [`RepositoryState`].
pub ghost struct StateOf {
    pub repository: Seq<char>,
    pub head: Option<Seq<char>>,
    pub fingerprint: Seq<char>,
}

impl View for RepositoryState {
    type V = StateOf;

    open spec fn view(&self) -> StateOf {
        StateOf { repository: self.repository.identity@, head: optional_text(self.head), fingerprint: self.fingerprint@ }
    }
}

/// A symbol that may call or implement a remote operation.
#[derive(Debug)]
pub struct GrpcBindingCandidate {
    pub local_symbol: String,
    pub role: GrpcBindingRole,
    pub service: String,
    pub method: String,
    pub cardinality: RpcCardinality,
    pub evidence: String,
    pub confidence: Confidence,
    pub provenance: Provenance,
}

/// The content of a [`GrpcBindingCandidate`].
pub ghost struct CandidateModel {
    pub local_symbol: Seq<char>,
    pub role: GrpcBindingRole,
    pub service: Seq<char>,
    pub method: Seq<char>,
    pub cardinality: RpcCardinality,
    pub evidence: Seq<char>,
    pub confidence: Confidence,
    pub provenance: Provenance,
}

impl View for GrpcBindingCandidate {
    type V = CandidateModel;

    open spec fn view(&self) -> CandidateModel {
        CandidateModel {
            local_symbol: self.local_symbol@,
            role: self.role,
            service: self.service@,
            method: self.method@,
            cardinality: self.cardinality,
            evidence: self.evidence@,
            confidence: self.confidence,
            provenance: self.provenance,
        }
    }
}

impl GrpcBindingCandidate {
    /// The same candidate once more.
    pub fn copy(&self) -> (r: GrpcBindingCandidate)
        ensures
            r@ == self@,
    {
        GrpcBindingCandidate {
            local_symbol: self.local_symbol.clone(),
            role: self.role,
            service: self.service.clone(),
            method: self.method.clone(),
            cardinality: self.cardinality,
            evidence: self.evidence.clone(),
            confidence: self.confidence,
            provenance: self.provenance,
        }
    }
}

/// All that an analysis found in a repository.
#[derive(Debug)]
pub struct RepositoryFacts {
    pub state: RepositoryState,
    pub analysis_identity: String,
    pub incomplete: bool,
    pub diagnostics: Vec<AnalysisDiagnostic>,
    pub entities: Vec<EntityFact>,
    pub grpc_bindings: Vec<GrpcBindingCandidate>,
    pub observations: Vec<Observation>,
}

/// A dependency whose target is known better than the observation of it states.
#[derive(Debug)]
pub struct DependencyOverride {
    pub from: String,
    pub relation: DependencyRelation,
    pub unresolved_to: String,
    pub resolved_to: String,
    pub evidence: String,
    pub confidence: Confidence,
    pub provenance: Provenance,
}

/// The content of a [`DependencyOverride`].
pub ghost struct OverrideModel {
    pub from: Seq<char>,
    pub relation: DependencyRelation,
    pub unresolved_to: Seq<char>,
    pub resolved_to: Seq<char>,
    pub evidence: Seq<char>,
    pub confidence: Confidence,
    pub provenance: Provenance,
}

impl View for DependencyOverride {
    type V = OverrideModel;

    open spec fn view(&self) -> OverrideModel {
        OverrideModel {
            from: self.from@,
            relation: self.relation,
            unresolved_to: self.unresolved_to@,
            resolved_to: self.resolved_to@,
            evidence: self.evidence@,
            confidence: self.confidence,
            provenance: self.provenance,
        }
    }
}

/// The facts of one owner in a repository, published apart from the others.
#[derive(Debug)]
pub struct FactShard {
    pub producer: String,
    pub repository: String,
    pub owner: String,
    pub version: String,
    pub entities: Vec<EntityFact>,
    pub observations: Vec<Observation>,
}

/// How many facts a publication inserted, updated, removed and left as they were.
#[derive(Clone, Copy, PartialEq, Eq, Structural, Debug)]
pub struct FactChanges {
    pub inserted: usize,
    pub updated: usize,
    pub removed: usize,
    pub unchanged: usize,
}

/// What an analyzer takes in for each repository of a view: the fingerprint of its input, and
/// the repositories that serve as context. There is one of each for each repository state.
#[derive(Debug)]
pub struct AnalyzerInput {
    pub analyzer: String,
    pub fingerprints: Vec<String>,
    pub contexts: Vec<Vec<String>>,
}

/// The repository states that a view consists of, with the fingerprints of what was taken in.
/// There is one input fingerprint for each repository state.
#[derive(Debug)]
pub struct WorkspaceView {
    pub name: String,
    pub fingerprint: String,
    pub repository_states: Vec<RepositoryState>,
    pub input_fingerprints: Vec<String>,
    pub enrichment_inputs: Vec<AnalyzerInput>,
}

/// Something that is stored as a row.
pub trait Record {
    /// The values of the row.
    spec fn columns(&self) -> Seq<CellModel>;

    /// The values of the row.
    fn row(&self) -> (r: Vec<Cell>)
        ensures
            cells(r@) == self.columns(),
    ;
}

/// What is stored of an entity.
pub open spec fn entity_columns(entity: EntityModel) -> Seq<CellModel> {
    seq![
        CellModel::Text(entity.id),
        CellModel::Text(entity_kind_text(entity.kind)),
        CellModel::Text(entity_metadata_text(entity.metadata)),
    ]
}

impl Record for EntityFact {
    open spec fn columns(&self) -> Seq<CellModel> {
        entity_columns(self@)
    }

    fn row(&self) -> (r: Vec<Cell>) {
        let mut row: Vec<Cell> = Vec::new();
        row.push(text_cell(self.id.as_str()));
        row.push(text_cell(entity_kind(self.kind)));
        row.push(text_cell(entity_metadata(self.metadata)));
        assert(cells(row@) =~= self.columns());
        row
    }
}

/// What is stored of an observation.
pub open spec fn observation_columns(observation: ObservationModel) -> Seq<CellModel> {
    seq![
        CellModel::Text(observation.from),
        CellModel::Text(relation_name_text(observation.relation)),
        CellModel::Text(observation.to),
        CellModel::Text(observation.evidence),
        CellModel::Float(confidence_score(observation.confidence) as int),
        CellModel::Text(provenance_name_text(observation.provenance)),
    ]
}

impl Record for Observation {
    open spec fn columns(&self) -> Seq<CellModel> {
        observation_columns(self@)
    }

    fn row(&self) -> (r: Vec<Cell>) {
        let mut row: Vec<Cell> = Vec::new();
        row.push(text_cell(self.from.as_str()));
        row.push(text_cell(relation_name(self.relation)));
        row.push(text_cell(self.to.as_str()));
        row.push(text_cell(self.evidence.as_str()));
        row.push(Cell::Float(confidence_bits(self.confidence)));
        row.push(text_cell(provenance_name(self.provenance)));
        assert(cells(row@) =~= self.columns());
        row
    }
}

/// What is stored of an override.
pub open spec fn override_columns(override_: OverrideModel) -> Seq<CellModel> {
    seq![
        CellModel::Text(override_.from),
        CellModel::Text(relation_name_text(SemanticRelation::Dependency(override_.relation))),
        CellModel::Text(override_.unresolved_to),
        CellModel::Text(override_.resolved_to),
        CellModel::Text(override_.evidence),
        CellModel::Float(confidence_score(override_.confidence) as int),
        CellModel::Text(provenance_name_text(override_.provenance)),
    ]
}

impl Record for DependencyOverride {
    open spec fn columns(&self) -> Seq<CellModel> {
        override_columns(self@)
    }

    fn row(&self) -> (r: Vec<Cell>) {
        let mut row: Vec<Cell> = Vec::new();
        row.push(text_cell(self.from.as_str()));
        row.push(text_cell(relation_name(SemanticRelation::Dependency(self.relation))));
        row.push(text_cell(self.unresolved_to.as_str()));
        row.push(text_cell(self.resolved_to.as_str()));
        row.push(text_cell(self.evidence.as_str()));
        row.push(Cell::Float(confidence_bits(self.confidence)));
        row.push(text_cell(provenance_name(self.provenance)));
        assert(cells(row@) =~= self.columns());
        row
    }
}

/// What is stored of a candidate for a binding.
pub open spec fn candidate_columns(candidate: CandidateModel) -> Seq<CellModel> {
    seq![
        CellModel::Text(candidate.local_symbol),
        CellModel::Text(grpc_role_name_text(candidate.role)),
        CellModel::Text(candidate.service),
        CellModel::Text(candidate.method),
        CellModel::Text(candidate.evidence),
        CellModel::Text(rpc_cardinality_text(candidate.cardinality)),
        CellModel::Float(confidence_score(candidate.confidence) as int),
        CellModel::Text(provenance_name_text(candidate.provenance)),
    ]
}

impl Record for GrpcBindingCandidate {
    open spec fn columns(&self) -> Seq<CellModel> {
        candidate_columns(self@)
    }

    fn row(&self) -> (r: Vec<Cell>) {
        let mut row: Vec<Cell> = Vec::new();
        row.push(text_cell(self.local_symbol.as_str()));
        row.push(text_cell(grpc_role_name(self.role)));
        row.push(text_cell(self.service.as_str()));
        row.push(text_cell(self.method.as_str()));
        row.push(text_cell(self.evidence.as_str()));
        row.push(text_cell(rpc_cardinality(self.cardinality)));
        row.push(Cell::Float(confidence_bits(self.confidence)));
        row.push(text_cell(provenance_name(self.provenance)));
        assert(cells(row@) =~= self.columns());
        row
    }
}

/// A line as it is stored: zero where there is none.
pub open spec fn stored_line(line: Option<u32>) -> u32 {
    match line {
        Some(line) => line,
        None => 0,
    }
}

/// A line as it is stored.
pub fn line_number(line: Option<u32>) -> (r: u32)
    ensures
        r == stored_line(line),
{
    match line {
        Some(line) => line,
        None => 0,
    }
}

/// An optional text as it is stored: empty where there is none.
pub open spec fn stored_text(text: Option<Seq<char>>) -> Seq<char> {
    match text {
        Some(text) => text,
        None => Seq::empty(),
    }
}

/// An optional text as it is stored.
pub fn text_or_nothing(text: &Option<String>) -> (r: String)
    ensures
        r@ == stored_text(optional_text(*text)),
{
    match text {
        Some(text) => text.clone(),
        None => String::new(),
    }
}

/// What is stored of a diagnostic.
pub open spec fn diagnostic_columns(diagnostic: DiagnosticModel) -> Seq<CellModel> {
    seq![
        CellModel::Text(diagnostic.code),
        CellModel::Text(severity_text(diagnostic.severity)),
        CellModel::Text(diagnostic.path),
        CellModel::Integer(stored_line(diagnostic.line) as int),
        CellModel::Text(stored_text(diagnostic.detail)),
    ]
}

impl Record for AnalysisDiagnostic {
    open spec fn columns(&self) -> Seq<CellModel> {
        diagnostic_columns(self@)
    }

    fn row(&self) -> (r: Vec<Cell>) {
        let mut row: Vec<Cell> = Vec::new();
        row.push(text_cell(self.code.as_str()));
        row.push(text_cell(severity_name(self.severity)));
        row.push(text_cell(self.path.as_str()));
        row.push(Cell::Integer(line_number(self.line) as i64));
        row.push(Cell::Text(text_or_nothing(&self.detail)));
        assert(cells(row@) =~= self.columns());
        row
    }
}

impl Record for crate::dto::AnalysisDiagnostic {
    open spec fn columns(&self) -> Seq<CellModel> {
        seq![CellModel::Text(self.repository@)] + diagnostic_columns(
            DiagnosticModel {
                code: self.code@,
                severity: self.severity,
                path: self.path@,
                line: self.line,
                detail: optional_text(self.detail),
            },
        )
    }

    fn row(&self) -> (r: Vec<Cell>) {
        let mut row: Vec<Cell> = Vec::new();
        row.push(text_cell(self.repository.as_str()));
        row.push(text_cell(self.code.as_str()));
        row.push(text_cell(severity_name(self.severity)));
        row.push(text_cell(self.path.as_str()));
        row.push(Cell::Integer(line_number(self.line) as i64));
        row.push(Cell::Text(text_or_nothing(&self.detail)));
        assert(cells(row@) =~= self.columns());
        row
    }
}

impl Cell {
    /// The same value once more.
    pub fn copy(&self) -> (r: Cell)
        ensures
            r@ == self@,
    {
        match self {
            Cell::Text(text) => Cell::Text(text.clone()),
            Cell::Integer(value) => Cell::Integer(*value),
            Cell::Float(bits) => Cell::Float(*bits),
            Cell::Boolean(value) => Cell::Boolean(*value),
        }
    }
}

/// The same values once more.
pub fn copy_cells(row: &Vec<Cell>) -> (r: Vec<Cell>)
    ensures
        cells(r@) == cells(row@),
{
    let mut copy: Vec<Cell> = Vec::new();
    let mut i: usize = 0;
    while i < row.len()
        invariant
            i <= row@.len(),
            copy@.len() == i,
            forall|k: int| 0 <= k < i ==> (#[trigger] copy@[k])@ == row@[k]@,
        decreases row@.len() - i,
    {
        copy.push(row[i].copy());
        i = i + 1;
    }
    assert(cells(copy@) =~= cells(row@));
    copy
}

/// Rows of records, each behind some values.
pub open spec fn record_rows<T: Record>(front: Seq<CellModel>, list: Seq<T>) -> Seq<Seq<CellModel>> {
    list.map_values(|record: T| front + record.columns())
}

/// Rows of records, each behind some values.
pub fn rows_behind<T: Record>(front: &Vec<Cell>, list: &Vec<T>) -> (r: Vec<Vec<Cell>>)
    ensures
        row_cells(r@) == record_rows(cells(front@), list@),
{
    let mut rows: Vec<Vec<Cell>> = Vec::new();
    let mut i: usize = 0;
    while i < list.len()
        invariant
            i <= list@.len(),
            rows@.len() == i,
            forall|k: int| 0 <= k < i ==> cells((#[trigger] rows@[k])@) == cells(front@) + list@[k].columns(),
        decreases list@.len() - i,
    {
        let mut row: Vec<Cell> = copy_cells(front);
        let ghost before = row@;
        let mut rest: Vec<Cell> = list[i].row();
        let ghost after = rest@;
        row.append(&mut rest);
        assert(cells(row@) =~= cells(before) + cells(after));
        rows.push(row);
        i = i + 1;
    }
    assert(row_cells(rows@) =~= record_rows(cells(front@), list@)) by {
        assert forall|k: int| 0 <= k < rows@.len() implies #[trigger] row_cells(rows@)[k] == record_rows(cells(front@), list@)[k] by {
            assert(cells(rows@[k]@) == cells(front@) + list@[k].columns());
        }
    }
    rows
}

/// A script that takes rows.
pub open spec fn rows_put(script: Seq<char>, rows: Seq<Seq<CellModel>>) -> CommandModel {
    CommandModel { script, arguments: seq![("rows"@, ArgumentModel::Rows(rows))] }
}

/// A script that takes rows.
pub fn put_rows(script: &str, rows: Vec<Vec<Cell>>) -> (r: Command)
    ensures
        r@ == rows_put(script@, row_cells(rows@)),
{
    let mut arguments: Vec<Binding> = Vec::new();
    arguments.push(crate::command::bind_rows("rows", rows));
    let command: Command = Command { script: script.to_owned(), arguments };
    assert(command@.arguments =~= rows_put(script@, row_cells(rows@)).arguments);
    command
}

/// How many rows are sent at once.
pub const FACT_BATCH_SIZE: usize = 10_000;

/// What some commands do.
pub open spec fn command_models(list: Seq<Command>) -> Seq<CommandModel> {
    list.map_values(|command: Command| command@)
}

/// The parts of a list that are sent at once.
pub open spec fn batches<A>(list: Seq<A>) -> Seq<Seq<A>>
    decreases list.len(),
{
    if list.len() == 0 {
        Seq::empty()
    } else if list.len() <= FACT_BATCH_SIZE {
        seq![list]
    } else {
        seq![list.take(FACT_BATCH_SIZE as int)] + batches(list.skip(FACT_BATCH_SIZE as int))
    }
}

/// Scripts that take rows, batch by batch.
pub open spec fn rows_put_in_batches(script: Seq<char>, rows: Seq<Seq<CellModel>>) -> Seq<CommandModel> {
    batches(rows).map_values(|batch: Seq<Seq<CellModel>>| rows_put(script, batch))
}

/// No batch is larger than what is sent at once, and together they are the list.
pub proof fn batches_cover<A>(list: Seq<A>)
    ensures
        batches(list).flatten() == list,
        forall|i: int| 0 <= i < batches(list).len() ==> 0 < (#[trigger] batches(list)[i]).len() <= FACT_BATCH_SIZE,
    decreases list.len(),
{
    if list.len() == 0 {
        assert(batches(list).flatten() =~= list);
    } else if list.len() <= FACT_BATCH_SIZE {
        assert(seq![list].drop_first() =~= Seq::<Seq<A>>::empty());
        assert(seq![list].flatten() =~= list + Seq::<Seq<A>>::empty().flatten());
        assert(batches(list).flatten() =~= list);
    } else {
        let head = list.take(FACT_BATCH_SIZE as int);
        let tail = list.skip(FACT_BATCH_SIZE as int);
        batches_cover(tail);
        assert((seq![head] + batches(tail)).drop_first() =~= batches(tail));
        assert((seq![head] + batches(tail)).first() == head);
        assert((seq![head] + batches(tail)).flatten() =~= head + tail);
        assert(head + tail =~= list);
        assert forall|i: int| 0 <= i < batches(list).len() implies 0 < (#[trigger] batches(list)[i]).len() <= FACT_BATCH_SIZE by {
            if i > 0 {
                assert(batches(list)[i] == batches(tail)[i - 1]);
            }
        }
    }
}

/// Scripts that take rows, batch by batch.
pub fn put_in_batches(script: &str, rows: Vec<Vec<Cell>>) -> (r: Vec<Command>)
    ensures
        command_models(r@) == rows_put_in_batches(script@, row_cells(rows@)),
    decreases rows@.len(),
{
    let n: usize = rows.len();
    let mut commands: Vec<Command> = Vec::new();
    let ghost all = row_cells(rows@);
    if n == 0 {
        assert(command_models(commands@) =~= rows_put_in_batches(script@, all));
        return commands;
    }
    if n <= FACT_BATCH_SIZE {
        commands.push(put_rows(script, rows));
        proof {
            assert(batches(all) =~= seq![all]);
            assert(command_models(commands@) =~= rows_put_in_batches(script@, all));
        }
        return commands;
    }
    let mut head: Vec<Vec<Cell>> = rows;
    let ghost given = head@;
    let tail: Vec<Vec<Cell>> = head.split_off(FACT_BATCH_SIZE);
    proof {
        assert(row_cells(head@) =~= all.take(FACT_BATCH_SIZE as int));
        assert(row_cells(tail@) =~= all.skip(FACT_BATCH_SIZE as int));
    }
    commands.push(put_rows(script, head));
    let ghost first = commands@;
    let mut rest: Vec<Command> = put_in_batches(script, tail);
    let ghost second = rest@;
    commands.append(&mut rest);
    proof {
        let later = batches(all.skip(FACT_BATCH_SIZE as int));
        assert(batches(all) =~= seq![all.take(FACT_BATCH_SIZE as int)] + later);
        assert(command_models(second) == rows_put_in_batches(script@, all.skip(FACT_BATCH_SIZE as int)));
        assert(command_models(second).len() == later.len());
        assert(command_models(commands@) =~= rows_put_in_batches(script@, all)) by {
            assert forall|k: int| 0 <= k < commands@.len() implies #[trigger] command_models(commands@)[k] == rows_put_in_batches(
                script@,
                all,
            )[k] by {
                if k == 0 {
                    assert(commands@[0] == first[0]);
                } else {
                    assert(commands@[k] == second[k - 1]);
                    assert(command_models(second)[k - 1] == second[k - 1]@);
                    assert(batches(all)[k] == later[k - 1]);
                    assert(command_models(second)[k - 1] == rows_put(script@, later[k - 1]));
                }
            }
        }
    }
    commands
}

/// The observations of dependencies among some.
pub open spec fn dependencies_among(list: Seq<ObservationModel>) -> Seq<ObservationModel> {
    keep(list, |observation: ObservationModel| is_dependency(observation.relation))
}

/// The content of observations.
pub open spec fn observation_models(list: Seq<Observation>) -> Seq<ObservationModel> {
    list.map_values(|observation: Observation| observation@)
}

/// The content of entities.
pub open spec fn entity_models(list: Seq<EntityFact>) -> Seq<EntityModel> {
    list.map_values(|entity: EntityFact| entity@)
}

/// What is stored of an observation of a dependency.
pub open spec fn dependency_columns(observation: ObservationModel) -> Seq<CellModel> {
    observation_columns(observation).take(4)
}

/// Rows of the dependencies among observations, each behind some values.
pub open spec fn dependency_rows(front: Seq<CellModel>, list: Seq<ObservationModel>) -> Seq<Seq<CellModel>> {
    dependencies_among(list).map_values(|observation: ObservationModel| front + dependency_columns(observation))
}

/// Rows of the dependencies among observations, each behind some values.
pub fn dependencies_behind(front: &Vec<Cell>, list: &Vec<Observation>) -> (r: Vec<Vec<Cell>>)
    ensures
        row_cells(r@) == dependency_rows(cells(front@), observation_models(list@)),
{
    let ghost all = observation_models(list@);
    let ghost wanted = |observation: ObservationModel| is_dependency(observation.relation);
    let mut rows: Vec<Vec<Cell>> = Vec::new();
    let mut i: usize = 0;
    assert(row_cells(rows@) =~= dependency_rows(cells(front@), all.take(0)));
    while i < list.len()
        invariant
            i <= list@.len(),
            all == observation_models(list@),
            wanted == (|observation: ObservationModel| is_dependency(observation.relation)),
            row_cells(rows@) == dependency_rows(cells(front@), all.take(i as int)),
        decreases list@.len() - i,
    {
        proof {
            keep_step(all, i as int, wanted);
            assert(all[i as int] == list@[i as int]@);
        }
        let dependency: bool = match list[i].relation {
            SemanticRelation::Dependency(_) => true,
            SemanticRelation::Structure(_) => false,
        };
        if dependency {
            let ghost so_far = rows@;
            let mut row: Vec<Cell> = copy_cells(front);
            let ghost before = row@;
            let mut rest: Vec<Cell> = list[i].row();
            let ghost given = rest@;
            assert(cells(given).len() == given.len());
            rest.truncate(4);
            let ghost after = rest@;
            proof {
                assert(cells(after) =~= cells(given).take(4));
            }
            row.append(&mut rest);
            assert(cells(row@) =~= cells(before) + cells(after));
            rows.push(row);
            proof {
                let kept = dependencies_among(all.take(i as int));
                let more = dependencies_among(all.take(i as int + 1));
                assert(more == kept.push(all[i as int]));
                assert(row_cells(rows@) =~= row_cells(so_far).push(cells(row@)));
                assert(dependency_rows(cells(front@), all.take(i as int + 1)) =~= dependency_rows(
                    cells(front@),
                    all.take(i as int),
                ).push(cells(front@) + dependency_columns(all[i as int])));
            }
        }
        i = i + 1;
    }
    assert(all.take(all.len() as int) =~= all);
    rows
}

} // verus!
