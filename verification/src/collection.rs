//! Collecting what no view needs any more: repository states, and superseded revisions.

use crate::command::{
    bind_read, bind_read_value, bind_text, put_read, read_put, ArgumentModel, Binding, CellModel, Command, CommandModel,
};
use crate::grpc::{first_integer, first_integer_of};
use crate::ids::TextSet;
use crate::metadata::OUT_OF_RANGE;
use crate::records::command_models;
use crate::revisions::{state_bound, state_command};
use crate::rows::{all_wide, cell_text, row_models, text_at, InspectionResult, InspectionValue, RowModel, ReadModel};
use crate::sorted::SortedMap;
use crate::text::{decimal, decimal_text};
use crate::write_scripts::{
    COLLECTION_CANDIDATES, COLLECTION_PENDING, COLLECTION_QUEUED, CURRENT_REVISIONS, DEQUEUE_STATE, QUEUED_STATES, QUEUE_STATES,
    REMOVE_STATES, STALE_CANDIDATES, STALE_DEPENDENCIES, STALE_ENTITIES, STALE_METADATA, STALE_OBSERVATIONS, STALE_STATES, STATE_IN_USE,
};
use vstd::prelude::*;

verus! {

/// How often a transaction is tried again.
pub const TRANSACTION_RETRIES: usize = 50;

/// How many milliseconds pass before a transaction is tried again.
pub const RETRY_DELAY_MILLISECONDS: u64 = 10;

/// How many rows are removed at once.
pub const COLLECTION_BATCH_SIZE: u64 = 10_000;

/// Whether a transaction that failed is tried again, given how often it was tried again already.
pub fn tries_again(attempt: usize) -> (r: bool)
    ensures
        r == (attempt < TRANSACTION_RETRIES),
{
    attempt < TRANSACTION_RETRIES
}

/// A script without names.
pub open spec fn plain(script: Seq<char>) -> CommandModel {
    CommandModel { script, arguments: Seq::empty() }
}

/// A script without names.
pub fn plain_command(script: &str) -> (r: Command)
    ensures
        r@ == plain(script@),
{
    let command: Command = Command { script: script.to_owned(), arguments: Vec::new() };
    assert(command@.arguments =~= Seq::empty());
    command
}

/// Asks for the repository states that nothing needs.
pub fn ask_stale_states() -> (r: Command)
    ensures
        r@ == plain(STALE_STATES@),
{
    plain_command(STALE_STATES)
}

/// The first values of rows.
pub open spec fn first_values(rows: Seq<RowModel>) -> Seq<RowModel> {
    rows.map_values(|row: RowModel| seq![row[0]])
}

fn copy_first_values(rows: &Vec<Vec<InspectionValue>>) -> (r: Vec<Vec<InspectionValue>>)
    requires
        all_wide(rows@, 1),
    ensures
        row_models(r@) == first_values(row_models(rows@)),
{
    let mut copied: Vec<Vec<InspectionValue>> = Vec::new();
    let mut i: usize = 0;
    while i < rows.len()
        invariant
            all_wide(rows@, 1),
            i <= rows@.len(),
            copied@.len() == i,
            forall|k: int| 0 <= k < i ==> (#[trigger] copied@[k])@.len() == 1 && copied@[k]@[0]@ == rows@[k]@[0]@,
        decreases rows@.len() - i,
    {
        let mut row: Vec<InspectionValue> = Vec::new();
        row.push(rows[i][0].copy());
        copied.push(row);
        i = i + 1;
    }
    proof {
        let wanted = first_values(row_models(rows@));
        assert forall|k: int| 0 <= k < wanted.len() implies #[trigger] row_models(copied@)[k] == wanted[k] by {
            assert(copied@[k]@.len() == 1);
            assert(row_models(copied@)[k] =~= wanted[k]);
        }
        assert(row_models(copied@) =~= wanted);
    }
    copied
}

/// What queues repository states for collection.
pub open spec fn states_claimed(stale: Seq<RowModel>) -> Seq<CommandModel> {
    if stale.len() == 0 {
        Seq::empty()
    } else {
        seq![
            read_put(QUEUE_STATES@, stale),
            CommandModel { script: REMOVE_STATES@, arguments: seq![("states"@, ArgumentModel::Read(first_values(stale)))] },
        ]
    }
}

/// Queues repository states for collection that nothing needs. Tells how many there are; where
/// there are none, nothing is to be run.
pub fn claim_garbage_collection(stale: InspectionResult) -> (r: (u64, Vec<Command>))
    requires
        all_wide(stale.rows@, 1),
    ensures
        r.0 == stale.rows@.len(),
        command_models(r.1@) == states_claimed(row_models(stale.rows@)),
{
    let count: u64 = stale.rows.len() as u64;
    let mut commands: Vec<Command> = Vec::new();
    let ghost rows = row_models(stale.rows@);
    assert(rows.len() == stale.rows@.len());
    if stale.rows.len() == 0 {
        assert(command_models(commands@) =~= states_claimed(rows));
        return (count, commands);
    }
    let mut arguments: Vec<Binding> = Vec::new();
    arguments.push(bind_read("states", copy_first_values(&stale.rows)));
    let removal: Command = Command { script: REMOVE_STATES.to_owned(), arguments };
    assert(removal@.arguments =~= seq![("states"@, ArgumentModel::Read(first_values(rows)))]);
    commands.push(put_read(QUEUE_STATES, stale.rows));
    commands.push(removal);
    assert(command_models(commands@) =~= states_claimed(rows));
    (count, commands)
}

/// Asks whether anything waits to be collected.
pub fn ask_pending() -> (r: Command)
    ensures
        r@ == plain(COLLECTION_PENDING@),
{
    plain_command(COLLECTION_PENDING)
}

/// Whether anything waits to be collected.
pub fn garbage_collection_pending(answer: &InspectionResult) -> (r: bool)
    ensures
        r == (answer.rows@.len() > 0),
{
    answer.rows.len() > 0
}

/// Asks how many repository states nothing needs.
pub fn ask_candidates() -> (r: Command)
    ensures
        r@ == plain(COLLECTION_CANDIDATES@),
{
    plain_command(COLLECTION_CANDIDATES)
}

/// Asks how many repository states are queued for collection.
pub fn ask_queued() -> (r: Command)
    ensures
        r@ == plain(COLLECTION_QUEUED@),
{
    plain_command(COLLECTION_QUEUED)
}

/// The count that the first row tells; none without a row.
pub open spec fn told_count(rows: Seq<Vec<InspectionValue>>) -> int {
    match first_integer(rows) {
        Some(count) => count,
        None => 0,
    }
}

/// How many repository states there are, as the first row tells.
pub fn garbage_collection_count(answer: &InspectionResult) -> (r: Result<u64, String>)
    ensures
        r is Ok <==> told_count(answer.rows@) >= 0,
        r is Ok ==> r->Ok_0 == told_count(answer.rows@),
        r is Err ==> r->Err_0@ == OUT_OF_RANGE@,
{
    let count: i64 = match first_integer_of(&answer.rows) {
        Some(count) => count,
        None => 0,
    };
    if count < 0 {
        Err(OUT_OF_RANGE.to_owned())
    } else {
        Ok(count as u64)
    }
}

/// A relation that is cleaned up: what is said of it, and which keys it has.
pub ghost struct Cleaned {
    pub step: Seq<char>,
    pub relation: Seq<char>,
    pub keys: Seq<char>,
}

/// How many relations hold a repository state.
pub const STATE_STEPS: u8 = 5;

/// How many relations hold a revision.
pub const REVISION_STEPS: u8 = 18;

/// The relations that hold a repository state.
pub open spec fn state_step(j: int) -> Cleaned {
    if j == 0 {
        Cleaned { step: "stale observations"@, relation: "state_observation"@, keys: "state, from, relation, to"@ }
    } else if j == 1 {
        Cleaned { step: "stale entities"@, relation: "state_entity"@, keys: "state, id"@ }
    } else if j == 2 {
        Cleaned {
            step: "stale gRPC binding candidates"@,
            relation: "state_grpc_binding_candidate"@,
            keys: "state, local_symbol, role, service, method, evidence"@,
        }
    } else if j == 3 {
        Cleaned {
            step: "stale dependency observations"@,
            relation: "state_dependency_observation"@,
            keys: "state, from, relation, to"@,
        }
    } else {
        Cleaned {
            step: "stale observation metadata"@,
            relation: "state_observation_metadata"@,
            keys: "state, from, relation, to"@,
        }
    }
}

/// What is selected of a repository state.
pub open spec fn state_selection(j: int) -> Seq<char> {
    if j == 0 {
        STALE_OBSERVATIONS@
    } else if j == 1 {
        STALE_ENTITIES@
    } else if j == 2 {
        STALE_CANDIDATES@
    } else if j == 3 {
        STALE_DEPENDENCIES@
    } else {
        STALE_METADATA@
    }
}

/// The relations that hold a revision.
pub open spec fn revision_step(k: int) -> Cleaned {
    if k == 0 {
        Cleaned {
            step: "superseded revision repository states"@,
            relation: "analysis_revision_state"@,
            keys: "view, revision, repository"@,
        }
    } else if k == 1 {
        Cleaned {
            step: "superseded revision inputs"@,
            relation: "analysis_revision_input"@,
            keys: "view, revision, repository"@,
        }
    } else if k == 2 {
        Cleaned {
            step: "superseded revision enrichment inputs"@,
            relation: "analysis_revision_enrichment_input"@,
            keys: "view, revision, repository, analyzer"@,
        }
    } else if k == 3 {
        Cleaned {
            step: "superseded revision contexts"@,
            relation: "analysis_revision_context"@,
            keys: "view, revision, target, analyzer, context"@,
        }
    } else if k == 4 {
        Cleaned { step: "superseded revision metadata"@, relation: "analysis_revision_metadata"@, keys: "view, revision"@ }
    } else if k == 5 {
        Cleaned {
            step: "superseded revision diagnostics"@,
            relation: "analysis_revision_diagnostic"@,
            keys: "view, revision, repository, code, severity, path, line"@,
        }
    } else if k == 6 {
        Cleaned {
            step: "superseded revision enrichments"@,
            relation: "analysis_revision_enrichment"@,
            keys: "view, revision, analyzer"@,
        }
    } else if k == 7 {
        Cleaned {
            step: "superseded repository enrichments"@,
            relation: "analysis_revision_repository_enrichment"@,
            keys: "view, revision, owner"@,
        }
    } else if k == 8 {
        Cleaned {
            step: "superseded revision enrichment override owners"@,
            relation: "analysis_revision_enrichment_override_owner"@,
            keys: "view, revision, from, relation, unresolved_to"@,
        }
    } else if k == 9 {
        Cleaned {
            step: "superseded revision enrichment diagnostic owners"@,
            relation: "analysis_revision_enrichment_diagnostic_owner"@,
            keys: "view, revision, repository, code, severity, path, line"@,
        }
    } else if k == 10 {
        Cleaned {
            step: "superseded revision enrichment entity owners"@,
            relation: "analysis_revision_enrichment_entity_owner"@,
            keys: "view, revision, id"@,
        }
    } else if k == 11 {
        Cleaned {
            step: "superseded revision enrichment observation owners"@,
            relation: "analysis_revision_enrichment_observation_owner"@,
            keys: "view, revision, from, relation, to, evidence"@,
        }
    } else if k == 12 {
        Cleaned {
            step: "superseded revision dependency overrides"@,
            relation: "analysis_revision_dependency_override"@,
            keys: "view, revision, from, relation, unresolved_to"@,
        }
    } else if k == 13 {
        Cleaned {
            step: "superseded revision dependency override metadata"@,
            relation: "analysis_revision_dependency_override_metadata"@,
            keys: "view, revision, from, relation, unresolved_to"@,
        }
    } else if k == 14 {
        Cleaned {
            step: "superseded revision observations"@,
            relation: "analysis_revision_observation"@,
            keys: "view, revision, from, relation, to, evidence"@,
        }
    } else if k == 15 {
        Cleaned { step: "superseded revision entities"@, relation: "analysis_revision_entity"@, keys: "view, revision, id"@ }
    } else if k == 16 {
        Cleaned {
            step: "superseded revision gRPC diagnostics"@,
            relation: "analysis_revision_grpc_diagnostic"@,
            keys: "view, revision, local_symbol, role, service, method, evidence"@,
        }
    } else {
        Cleaned {
            step: "superseded revision repository heads"@,
            relation: "analysis_revision_repository_head"@,
            keys: "view, revision, repository"@,
        }
    }
}

struct Relation {
    step: &'static str,
    relation: &'static str,
    keys: &'static str,
}

impl View for Relation {
    type V = Cleaned;

    closed spec fn view(&self) -> Cleaned {
        Cleaned { step: self.step@, relation: self.relation@, keys: self.keys@ }
    }
}

fn named(step: &'static str, relation: &'static str, keys: &'static str) -> (r: Relation)
    ensures
        r@ == (Cleaned { step: step@, relation: relation@, keys: keys@ }),
{
    Relation { step, relation, keys }
}

fn relation_of_state(j: u8) -> (r: Relation)
    ensures
        r@ == state_step(j as int),
{
    if j == 0 {
        named("stale observations", "state_observation", "state, from, relation, to")
    } else if j == 1 {
        named("stale entities", "state_entity", "state, id")
    } else if j == 2 {
        named(
            "stale gRPC binding candidates",
            "state_grpc_binding_candidate",
            "state, local_symbol, role, service, method, evidence",
        )
    } else if j == 3 {
        named("stale dependency observations", "state_dependency_observation", "state, from, relation, to")
    } else {
        named("stale observation metadata", "state_observation_metadata", "state, from, relation, to")
    }
}

fn selection_of_state(j: u8) -> (r: &'static str)
    ensures
        r@ == state_selection(j as int),
{
    if j == 0 {
        STALE_OBSERVATIONS
    } else if j == 1 {
        STALE_ENTITIES
    } else if j == 2 {
        STALE_CANDIDATES
    } else if j == 3 {
        STALE_DEPENDENCIES
    } else {
        STALE_METADATA
    }
}

fn relation_of_revision(k: u8) -> (r: Relation)
    ensures
        r@ == revision_step(k as int),
{
    if k == 0 {
        named("superseded revision repository states", "analysis_revision_state", "view, revision, repository")
    } else if k == 1 {
        named("superseded revision inputs", "analysis_revision_input", "view, revision, repository")
    } else if k == 2 {
        named(
            "superseded revision enrichment inputs",
            "analysis_revision_enrichment_input",
            "view, revision, repository, analyzer",
        )
    } else if k == 3 {
        named("superseded revision contexts", "analysis_revision_context", "view, revision, target, analyzer, context")
    } else if k == 4 {
        named("superseded revision metadata", "analysis_revision_metadata", "view, revision")
    } else if k == 5 {
        named(
            "superseded revision diagnostics",
            "analysis_revision_diagnostic",
            "view, revision, repository, code, severity, path, line",
        )
    } else if k == 6 {
        named("superseded revision enrichments", "analysis_revision_enrichment", "view, revision, analyzer")
    } else if k == 7 {
        named("superseded repository enrichments", "analysis_revision_repository_enrichment", "view, revision, owner")
    } else if k == 8 {
        named(
            "superseded revision enrichment override owners",
            "analysis_revision_enrichment_override_owner",
            "view, revision, from, relation, unresolved_to",
        )
    } else if k == 9 {
        named(
            "superseded revision enrichment diagnostic owners",
            "analysis_revision_enrichment_diagnostic_owner",
            "view, revision, repository, code, severity, path, line",
        )
    } else if k == 10 {
        named("superseded revision enrichment entity owners", "analysis_revision_enrichment_entity_owner", "view, revision, id")
    } else if k == 11 {
        named(
            "superseded revision enrichment observation owners",
            "analysis_revision_enrichment_observation_owner",
            "view, revision, from, relation, to, evidence",
        )
    } else if k == 12 {
        named(
            "superseded revision dependency overrides",
            "analysis_revision_dependency_override",
            "view, revision, from, relation, unresolved_to",
        )
    } else if k == 13 {
        named(
            "superseded revision dependency override metadata",
            "analysis_revision_dependency_override_metadata",
            "view, revision, from, relation, unresolved_to",
        )
    } else if k == 14 {
        named(
            "superseded revision observations",
            "analysis_revision_observation",
            "view, revision, from, relation, to, evidence",
        )
    } else if k == 15 {
        named("superseded revision entities", "analysis_revision_entity", "view, revision, id")
    } else if k == 16 {
        named(
            "superseded revision gRPC diagnostics",
            "analysis_revision_grpc_diagnostic",
            "view, revision, local_symbol, role, service, method, evidence",
        )
    } else {
        named("superseded revision repository heads", "analysis_revision_repository_head", "view, revision, repository")
    }
}

/// What a sweep is at: a relation that holds a queued repository state, or one that holds the
/// revisions of a view.
#[derive(Clone, Copy, PartialEq, Eq, Structural, Debug)]
pub enum Cursor {
    State(usize, u8),
    Revision(usize, u8),
}

/// How far a sweep is.
#[derive(Clone, Copy, PartialEq, Eq, Structural, Debug)]
pub enum SweepStage {
    /// The queue is to be asked for.
    Queue,
    /// How far the sweep is, is to be reported.
    Report(Cursor),
    /// The next rows are to be asked for.
    Select(Cursor),
    /// The rows are to be removed.
    Remove(Cursor),
    /// A repository state is to be taken out of the queue.
    Dequeue(usize),
    /// The revisions that views show are to be asked for.
    Revisions,
    /// All is done.
    Done,
}

/// How far a sweep is, as it is reported.
#[derive(Debug)]
pub struct SweepProgress {
    pub step: String,
    pub completed_rows: u64,
    pub stale_states: u32,
    pub repositories: u32,
    pub completed_steps: u32,
    pub total_steps: u32,
}

/// The content of a [`SweepProgress`].
pub ghost struct ReportModel {
    pub step: Seq<char>,
    pub completed_rows: u64,
    pub stale_states: u32,
    pub repositories: u32,
    pub completed_steps: int,
    pub total_steps: int,
}

impl View for SweepProgress {
    type V = ReportModel;

    open spec fn view(&self) -> ReportModel {
        ReportModel {
            step: self.step@,
            completed_rows: self.completed_rows,
            stale_states: self.stale_states,
            repositories: self.repositories,
            completed_steps: self.completed_steps as int,
            total_steps: self.total_steps as int,
        }
    }
}

/// What removes rows: unless the guard finds anything, the removal is run.
#[derive(Debug)]
pub struct Removal {
    pub guard: Option<Command>,
    pub removal: Command,
}

/// The content of a [`Removal`].
pub ghost struct RemovalModel {
    pub guard: Option<CommandModel>,
    pub removal: CommandModel,
}

impl View for Removal {
    type V = RemovalModel;

    open spec fn view(&self) -> RemovalModel {
        RemovalModel {
            guard: match self.guard {
                Some(guard) => Some(guard@),
                None => None,
            },
            removal: self.removal@,
        }
    }
}

/// A repository state in the queue. Its name may turn out to be no text.
#[derive(Debug)]
pub struct QueuedState {
    pub state: Option<String>,
    pub repository: String,
}

/// A view with the revision that it shows, as it was read. Its name may turn out to be no text.
#[derive(Debug)]
pub struct ShownRevision {
    pub view: Option<String>,
    pub revision: InspectionValue,
}

/// A sweep under way.
pub struct Sweep {
    pub stage: SweepStage,
    pub queue: Vec<QueuedState>,
    pub repositories: u32,
    pub resolved: u32,
    pub views: Vec<ShownRevision>,
    pub completed_rows: u64,
    pub batch: u64,
}

/// The content of a [`Sweep`].
pub ghost struct SweepModel {
    pub stage: SweepStage,
    pub queue: Seq<(Option<Seq<char>>, Seq<char>)>,
    pub repositories: u32,
    pub resolved: u32,
    pub views: Seq<(Option<Seq<char>>, ReadModel)>,
    pub completed_rows: u64,
    pub batch: u64,
}

/// The content of a queue.
pub open spec fn queue_of(list: Seq<QueuedState>) -> Seq<(Option<Seq<char>>, Seq<char>)> {
    list.map_values(|item: QueuedState| (crate::domain::optional_text(item.state), item.repository@))
}

/// The content of what views show.
pub open spec fn views_of(list: Seq<ShownRevision>) -> Seq<(Option<Seq<char>>, ReadModel)> {
    list.map_values(|item: ShownRevision| (crate::domain::optional_text(item.view), item.revision@))
}

impl View for Sweep {
    type V = SweepModel;

    open spec fn view(&self) -> SweepModel {
        SweepModel {
            stage: self.stage,
            queue: queue_of(self.queue@),
            repositories: self.repositories,
            resolved: self.resolved,
            views: views_of(self.views@),
            completed_rows: self.completed_rows,
            batch: self.batch,
        }
    }
}

/// How a view is reported whose name is no text.
pub const VIEW_NOT_A_STRING: &'static str = "analysis revision has a non-string view";

/// How a repository state is reported whose name is no text.
pub const STATE_NOT_A_STRING: &'static str = "garbage collection state has a non-string fingerprint";

/// How a queued repository state is reported whose repository is no text.
pub const REPOSITORY_NOT_A_STRING: &'static str = "stale repository state has a non-string repository";

/// How too many steps are reported.
pub const TOO_MANY_STEPS: &'static str = "garbage collection revision step count overflow";

impl SweepModel {
    /// Whether the sweep can be at a relation.
    pub open spec fn has(&self, cursor: Cursor) -> bool {
        match cursor {
            Cursor::State(at, step) => at < self.queue.len() && step < STATE_STEPS && self.queue[at as int].0 is Some,
            Cursor::Revision(at, step) => at < self.views.len() && step < REVISION_STEPS && self.views[at as int].0 is Some,
        }
    }

    /// Whether the parts of the sweep agree.
    pub open spec fn wf(&self) -> bool {
        &&& self.queue.len() <= u32::MAX
        &&& self.views.len() * REVISION_STEPS <= u32::MAX
        &&& self.resolved <= self.queue.len()
        &&& match self.stage {
            SweepStage::Report(cursor) => self.has(cursor),
            SweepStage::Select(cursor) => self.has(cursor),
            SweepStage::Remove(cursor) => self.has(cursor),
            SweepStage::Dequeue(at) => at < self.queue.len() && self.queue[at as int].0 is Some && self.resolved == at,
            _ => true,
        }
        &&& match self.stage {
            SweepStage::Report(Cursor::State(at, _)) => self.resolved == at,
            SweepStage::Select(Cursor::State(at, _)) => self.resolved == at,
            SweepStage::Remove(Cursor::State(at, _)) => self.resolved == at,
            _ => true,
        }
    }

    /// Goes on to a repository state, or to the revisions after the last.
    pub open spec fn at_state(&self, at: int) -> Result<SweepModel, Seq<char>> {
        if at >= self.queue.len() {
            Ok(SweepModel { stage: SweepStage::Revisions, ..*self })
        } else if self.queue[at].0 is None {
            Err(STATE_NOT_A_STRING@)
        } else {
            Ok(SweepModel { stage: SweepStage::Report(Cursor::State(at as usize, 0)), completed_rows: 0, ..*self })
        }
    }

    /// Goes on to the revisions of a view, or ends after the last.
    pub open spec fn at_view(&self, at: int) -> Result<SweepModel, Seq<char>> {
        if at >= self.views.len() {
            Ok(SweepModel { stage: SweepStage::Done, ..*self })
        } else if self.views[at].0 is None {
            Err(VIEW_NOT_A_STRING@)
        } else {
            Ok(SweepModel { stage: SweepStage::Report(Cursor::Revision(at as usize, 0)), completed_rows: 0, ..*self })
        }
    }

    /// Goes on after a relation is cleaned up.
    pub open spec fn cleaned(&self, cursor: Cursor) -> Result<SweepModel, Seq<char>> {
        match cursor {
            Cursor::State(at, step) => if step + 1 < STATE_STEPS {
                Ok(
                    SweepModel {
                        stage: SweepStage::Report(Cursor::State(at, (step + 1) as u8)),
                        completed_rows: 0,
                        ..*self
                    },
                )
            } else {
                Ok(SweepModel { stage: SweepStage::Dequeue(at), ..*self })
            },
            Cursor::Revision(at, step) => if step + 1 < REVISION_STEPS {
                Ok(
                    SweepModel {
                        stage: SweepStage::Report(Cursor::Revision(at, (step + 1) as u8)),
                        completed_rows: 0,
                        ..*self
                    },
                )
            } else {
                self.at_view(at + 1)
            },
        }
    }

    /// What is reported.
    pub open spec fn report(&self, cursor: Cursor) -> ReportModel {
        match cursor {
            Cursor::State(at, step) => ReportModel {
                step: state_step(step as int).step + " from "@ + self.queue[at as int].1 + " state "@ + self.queue[at as int].0->0,
                completed_rows: self.completed_rows,
                stale_states: self.queue.len() as u32,
                repositories: self.repositories,
                completed_steps: self.resolved as int,
                total_steps: self.queue.len() as int,
            },
            Cursor::Revision(at, step) => ReportModel {
                step: revision_step(step as int).step + " from "@ + self.views[at as int].0->0,
                completed_rows: self.completed_rows,
                stale_states: self.queue.len() as u32,
                repositories: self.repositories,
                completed_steps: at * REVISION_STEPS + step,
                total_steps: self.views.len() * REVISION_STEPS,
            },
        }
    }

    /// What is selected of a relation.
    pub open spec fn selected(&self, cursor: Cursor) -> CommandModel {
        match cursor {
            Cursor::State(at, step) => state_bound(limited(state_selection(step as int)), self.queue[at as int].0->0),
            Cursor::Revision(at, step) => CommandModel {
                script: limited(superseded(revision_step(step as int))),
                arguments: seq![
                    ("view"@, ArgumentModel::One(CellModel::Text(self.views[at as int].0->0))),
                    ("current"@, ArgumentModel::ReadValue(self.views[at as int].1)),
                ],
            },
        }
    }

    /// What removes rows of a relation. Rows of a repository state are removed only while the
    /// state is not stored again.
    pub open spec fn removal(&self, cursor: Cursor, rows: Seq<RowModel>) -> RemovalModel {
        match cursor {
            Cursor::State(at, step) => RemovalModel {
                guard: Some(state_bound(STATE_IN_USE@, self.queue[at as int].0->0)),
                removal: read_put(row_removal(state_step(step as int)), rows),
            },
            Cursor::Revision(at, step) => RemovalModel {
                guard: None,
                removal: read_put(row_removal(revision_step(step as int)), rows),
            },
        }
    }

    /// What is to be asked.
    pub open spec fn asked(&self) -> Option<CommandModel> {
        match self.stage {
            SweepStage::Queue => Some(plain(QUEUED_STATES@)),
            SweepStage::Select(cursor) => Some(self.selected(cursor)),
            SweepStage::Revisions => Some(plain(CURRENT_REVISIONS@)),
            _ => None,
        }
    }
}

/// A selection of no more rows than are removed at once.
pub open spec fn limited(script: Seq<char>) -> Seq<char> {
    script + "\n:limit "@ + decimal(COLLECTION_BATCH_SIZE as nat)
}

/// What selects the superseded revisions of a view in a relation.
pub open spec fn superseded(relation: Cleaned) -> Seq<char> {
    "?["@ + relation.keys + "] := *"@ + relation.relation + "{"@ + relation.keys + "}, view = $view, revision < $current"@
}

/// What removes rows of a relation.
pub open spec fn row_removal(relation: Cleaned) -> Seq<char> {
    "?["@ + relation.keys + "] <- $rows\n:rm "@ + relation.relation + " {"@ + relation.keys + "}"@
}

fn limit(script: &str) -> (r: String)
    ensures
        r@ == limited(script@),
{
    let mut text: String = script.to_owned();
    text.append("\n:limit ");
    text.append(decimal_text(COLLECTION_BATCH_SIZE).as_str());
    text
}

fn select_superseded(relation: &Relation) -> (r: String)
    ensures
        r@ == superseded(relation@),
{
    let mut text: String = "?[".to_owned();
    text.append(relation.keys);
    text.append("] := *");
    text.append(relation.relation);
    text.append("{");
    text.append(relation.keys);
    text.append("}, view = $view, revision < $current");
    text
}

fn remove_rows(relation: &Relation, rows: Vec<Vec<InspectionValue>>) -> (r: Command)
    ensures
        r@ == read_put(row_removal(relation@), row_models(rows@)),
{
    let mut text: String = "?[".to_owned();
    text.append(relation.keys);
    text.append("] <- $rows\n:rm ");
    text.append(relation.relation);
    text.append(" {");
    text.append(relation.keys);
    text.append("}");
    put_read(text.as_str(), rows)
}

/// The repositories of queued states.
pub open spec fn repositories_in(rows: Seq<Vec<InspectionValue>>, n: int) -> Set<Seq<Seq<char>>>
    decreases n,
{
    if n <= 0 {
        Set::empty()
    } else {
        repositories_in(rows, n - 1).insert(seq![cell_text(rows[n - 1]@, 1)->0])
    }
}

/// Whether all rows have a text in the second column.
pub open spec fn all_placed(rows: Seq<Vec<InspectionValue>>) -> bool {
    forall|i: int| 0 <= i < rows.len() ==> cell_text((#[trigger] rows[i])@, 1) is Some
}

/// The queue that rows tell.
pub open spec fn told_queue(rows: Seq<Vec<InspectionValue>>) -> Seq<(Option<Seq<char>>, Seq<char>)> {
    rows.map_values(|row: Vec<InspectionValue>| (cell_text(row@, 0), cell_text(row@, 1)->0))
}

/// How far the sweep is when the queue is known.
pub open spec fn queue_taken(model: SweepModel, rows: Seq<Vec<InspectionValue>>) -> Result<SweepModel, Seq<char>> {
    if rows.len() > u32::MAX {
        Err(OUT_OF_RANGE@)
    } else if !all_placed(rows) {
        Err(REPOSITORY_NOT_A_STRING@)
    } else {
        SweepModel {
            queue: told_queue(rows),
            repositories: repositories_in(rows, rows.len() as int).len() as u32,
            ..model
        }.at_state(0)
    }
}

/// The views with their revisions that rows tell.
pub open spec fn told_views(rows: Seq<Vec<InspectionValue>>) -> Seq<(Option<Seq<char>>, ReadModel)> {
    rows.map_values(|row: Vec<InspectionValue>| (cell_text(row@, 0), row@[1]@))
}

/// How far the sweep is when the revisions that views show are known.
pub open spec fn views_taken(model: SweepModel, rows: Seq<Vec<InspectionValue>>) -> Result<SweepModel, Seq<char>> {
    if rows.len() > u32::MAX {
        Err(OUT_OF_RANGE@)
    } else if rows.len() * REVISION_STEPS > u32::MAX {
        Err(TOO_MANY_STEPS@)
    } else {
        SweepModel { views: told_views(rows), ..model }.at_view(0)
    }
}

impl Sweep {
    /// Whether the parts of the sweep agree.
    pub open spec fn wf(&self) -> bool {
        self@.wf()
    }

    /// Begins to sweep.
    pub fn start() -> (r: Sweep)
        ensures
            r.wf(),
            r.stage == SweepStage::Queue,
            r.resolved == 0,
    {
        Sweep {
            stage: SweepStage::Queue,
            queue: Vec::new(),
            repositories: 0,
            resolved: 0,
            views: Vec::new(),
            completed_rows: 0,
            batch: 0,
        }
    }

    /// Tells what is to be asked.
    pub fn question(&self) -> (r: Option<Command>)
        requires
            self.wf(),
        ensures
            r is Some <==> self@.asked() is Some,
            r is Some ==> r->0@ == self@.asked()->0,
    {
        match self.stage {
            SweepStage::Queue => Some(plain_command(QUEUED_STATES)),
            SweepStage::Select(cursor) => Some(self.select(cursor)),
            SweepStage::Revisions => Some(plain_command(CURRENT_REVISIONS)),
            _ => None,
        }
    }

    fn state_name(&self, at: usize) -> (r: &str)
        requires
            at < self.queue@.len(),
            self@.queue[at as int].0 is Some,
        ensures
            r@ == self@.queue[at as int].0->0,
    {
        match &self.queue[at].state {
            Some(state) => state.as_str(),
            None => "",
        }
    }

    fn view_name(&self, at: usize) -> (r: &str)
        requires
            at < self.views@.len(),
            self@.views[at as int].0 is Some,
        ensures
            r@ == self@.views[at as int].0->0,
    {
        match &self.views[at].view {
            Some(view) => view.as_str(),
            None => "",
        }
    }

    fn select(&self, cursor: Cursor) -> (r: Command)
        requires
            self@.has(cursor),
        ensures
            r@ == self@.selected(cursor),
    {
        match cursor {
            Cursor::State(at, step) => state_command(limit(selection_of_state(step)).as_str(), self.state_name(at)),
            Cursor::Revision(at, step) => {
                let script: String = limit(select_superseded(&relation_of_revision(step)).as_str());
                let mut arguments: Vec<Binding> = Vec::new();
                arguments.push(bind_text("view", self.view_name(at)));
                arguments.push(bind_read_value("current", self.views[at].revision.copy()));
                let command: Command = Command { script, arguments };
                assert(command@.arguments =~= self@.selected(cursor).arguments);
                command
            },
        }
    }

    /// Tells what is to be reported.
    pub fn report(&self) -> (r: Option<SweepProgress>)
        requires
            self.wf(),
        ensures
            r is Some <==> self.stage is Report,
            r is Some ==> r->0@ == self@.report(self.stage->Report_0),
    {
        match self.stage {
            SweepStage::Report(Cursor::State(at, step)) => {
                let mut text: String = relation_of_state(step).step.to_owned();
                text.append(" from ");
                text.append(self.queue[at].repository.as_str());
                text.append(" state ");
                text.append(self.state_name(at));
                Some(
                    SweepProgress {
                        step: text,
                        completed_rows: self.completed_rows,
                        stale_states: self.queue.len() as u32,
                        repositories: self.repositories,
                        completed_steps: self.resolved,
                        total_steps: self.queue.len() as u32,
                    },
                )
            },
            SweepStage::Report(Cursor::Revision(at, step)) => {
                let mut text: String = relation_of_revision(step).step.to_owned();
                text.append(" from ");
                text.append(self.view_name(at));
                let total: u32 = self.views.len() as u32 * REVISION_STEPS as u32;
                let completed: u32 = at as u32 * REVISION_STEPS as u32 + step as u32;
                Some(
                    SweepProgress {
                        step: text,
                        completed_rows: self.completed_rows,
                        stale_states: self.queue.len() as u32,
                        repositories: self.repositories,
                        completed_steps: completed,
                        total_steps: total,
                    },
                )
            },
            _ => None,
        }
    }

    fn go_to_state(&mut self, at: usize) -> (r: Result<(), String>)
        ensures
            r is Ok <==> old(self)@.at_state(at as int) is Ok,
            r is Ok ==> final(self)@ == old(self)@.at_state(at as int)->Ok_0,
            r is Err ==> r->Err_0@ == old(self)@.at_state(at as int)->Err_0,
    {
        assert(queue_of(self.queue@).len() == self.queue@.len());
        if at >= self.queue.len() {
            self.stage = SweepStage::Revisions;
            return Ok(());
        }
        assert(queue_of(self.queue@)[at as int] == (
            crate::domain::optional_text(self.queue@[at as int].state),
            self.queue@[at as int].repository@,
        ));
        match &self.queue[at].state {
            Some(_) => {
                self.stage = SweepStage::Report(Cursor::State(at, 0));
                self.completed_rows = 0;
                Ok(())
            },
            None => Err(STATE_NOT_A_STRING.to_owned()),
        }
    }

    fn go_to_view(&mut self, at: usize) -> (r: Result<(), String>)
        ensures
            r is Ok <==> old(self)@.at_view(at as int) is Ok,
            r is Ok ==> final(self)@ == old(self)@.at_view(at as int)->Ok_0,
            r is Err ==> r->Err_0@ == old(self)@.at_view(at as int)->Err_0,
    {
        assert(views_of(self.views@).len() == self.views@.len());
        if at >= self.views.len() {
            self.stage = SweepStage::Done;
            return Ok(());
        }
        assert(views_of(self.views@)[at as int] == (
            crate::domain::optional_text(self.views@[at as int].view),
            self.views@[at as int].revision@,
        ));
        match &self.views[at].view {
            Some(_) => {
                self.stage = SweepStage::Report(Cursor::Revision(at, 0));
                self.completed_rows = 0;
                Ok(())
            },
            None => Err(VIEW_NOT_A_STRING.to_owned()),
        }
    }

    fn go_on_from(&mut self, cursor: Cursor) -> (r: Result<(), String>)
        requires
            old(self)@.has(cursor),
        ensures
            r is Ok <==> old(self)@.cleaned(cursor) is Ok,
            r is Ok ==> final(self)@ == old(self)@.cleaned(cursor)->Ok_0,
            r is Err ==> r->Err_0@ == old(self)@.cleaned(cursor)->Err_0,
    {
        match cursor {
            Cursor::State(at, step) => {
                if step + 1 < STATE_STEPS {
                    self.stage = SweepStage::Report(Cursor::State(at, step + 1));
                    self.completed_rows = 0;
                } else {
                    self.stage = SweepStage::Dequeue(at);
                }
                Ok(())
            },
            Cursor::Revision(at, step) => {
                if step + 1 < REVISION_STEPS {
                    self.stage = SweepStage::Report(Cursor::Revision(at, step + 1));
                    self.completed_rows = 0;
                    Ok(())
                } else {
                    let count: usize = self.views.len();
                    assert(at < count);
                    self.go_to_view(at + 1)
                }
            },
        }
    }

    /// Takes in the queue.
    pub fn take_queue(&mut self, answer: &InspectionResult) -> (r: Result<(), String>)
        requires
            old(self).wf(),
            old(self).stage is Queue,
            old(self).resolved == 0,
        ensures
            r is Ok <==> queue_taken(old(self)@, answer.rows@) is Ok,
            r is Ok ==> final(self)@ == queue_taken(old(self)@, answer.rows@)->Ok_0 && final(self).wf(),
            r is Err ==> r->Err_0@ == queue_taken(old(self)@, answer.rows@)->Err_0,
    {
        let rows: &Vec<Vec<InspectionValue>> = &answer.rows;
        if rows.len() > 0xffff_ffff {
            return Err(OUT_OF_RANGE.to_owned());
        }
        let mut queue: Vec<QueuedState> = Vec::new();
        let mut repositories: TextSet = SortedMap::new();
        let mut i: usize = 0;
        assert(repositories@.dom() =~= Set::empty());
        while i < rows.len()
            invariant
                rows@ == answer.rows@,
                rows@.len() <= u32::MAX,
                i <= rows@.len(),
                queue@.len() == i,
                forall|k: int| 0 <= k < i ==> cell_text((#[trigger] rows@[k])@, 1) is Some,
                forall|k: int|
                    0 <= k < i ==> #[trigger] queue_of(queue@)[k] == (cell_text(rows@[k]@, 0), cell_text(rows@[k]@, 1)->0),
                repositories.wf(),
                repositories@.dom() == repositories_in(rows@, i as int),
                repositories.keys@.len() <= i,
                old(self)@.stage is Queue,
            decreases rows@.len() - i,
        {
            let repository: &str = match text_at(&rows[i], 1) {
                Some(repository) => repository,
                None => {
                    proof {
                        assert(cell_text(rows@[i as int]@, 1) is None);
                    }
                    return Err(REPOSITORY_NOT_A_STRING.to_owned());
                },
            };
            let state: Option<String> = match text_at(&rows[i], 0) {
                Some(state) => Some(state.to_owned()),
                None => None,
            };
            let ghost before = queue@;
            queue.push(QueuedState { state, repository: repository.to_owned() });
            let ghost known = repositories@.dom();
            let ghost count = repositories.keys@.len();
            proof {
                repositories.size();
            }
            repositories.insert(repository.to_owned(), ());
            proof {
                repositories.size();
                assert(repositories@.dom() =~= known.insert(seq![repository@]));
                assert forall|k: int| 0 <= k < i + 1 implies #[trigger] queue_of(queue@)[k] == (
                    cell_text(rows@[k]@, 0),
                    cell_text(rows@[k]@, 1)->0,
                ) by {
                    if k < i {
                        assert(queue_of(before)[k] == (cell_text(rows@[k]@, 0), cell_text(rows@[k]@, 1)->0));
                        assert(queue@[k] == before[k]);
                    }
                }
            }
            i = i + 1;
        }
        proof {
            repositories.size();
            assert(queue_of(queue@) =~= told_queue(rows@));
        }
        self.repositories = repositories.keys.len() as u32;
        self.queue = queue;
        self.go_to_state(0)
    }

    /// Takes in whether the sweep is to go on.
    pub fn reported(&mut self, go_on: bool)
        requires
            old(self).wf(),
            old(self).stage is Report,
        ensures
            final(self).wf(),
            final(self)@ == (SweepModel {
                stage: if go_on {
                    SweepStage::Select(old(self).stage->Report_0)
                } else {
                    SweepStage::Done
                },
                ..old(self)@
            }),
    {
        match self.stage {
            SweepStage::Report(cursor) => {
                if go_on {
                    self.stage = SweepStage::Select(cursor);
                } else {
                    self.stage = SweepStage::Done;
                }
            },
            _ => {},
        }
    }

    /// Takes in the next rows, and tells how they are to be removed. Without rows the relation is
    /// cleaned up.
    pub fn take_batch(&mut self, answer: InspectionResult) -> (r: Result<Option<Removal>, String>)
        requires
            old(self).wf(),
            old(self).stage is Select,
        ensures
            answer.rows@.len() == 0 ==> {
                let next = old(self)@.cleaned(old(self).stage->Select_0);
                &&& r is Ok <==> next is Ok
                &&& r is Ok ==> r->Ok_0 is None && final(self)@ == next->Ok_0 && final(self).wf()
                &&& r is Err ==> r->Err_0@ == next->Err_0
            },
            answer.rows@.len() > 0 ==> {
                &&& r is Ok && r->Ok_0 is Some
                &&& (r->Ok_0)->0@ == old(self)@.removal(old(self).stage->Select_0, row_models(answer.rows@))
                &&& final(self).wf()
                &&& final(self)@ == (SweepModel {
                    stage: SweepStage::Remove(old(self).stage->Select_0),
                    batch: answer.rows@.len() as u64,
                    ..old(self)@
                })
            },
    {
        match self.stage {
            SweepStage::Select(cursor) => {
                if answer.rows.len() == 0 {
                    return match self.go_on_from(cursor) {
                        Ok(()) => Ok(None),
                        Err(message) => Err(message),
                    };
                }
                self.batch = answer.rows.len() as u64;
                self.stage = SweepStage::Remove(cursor);
                match cursor {
                    Cursor::State(at, step) => Ok(
                        Some(
                            Removal {
                                guard: Some(state_command(STATE_IN_USE, self.state_name(at))),
                                removal: remove_rows(&relation_of_state(step), answer.rows),
                            },
                        ),
                    ),
                    Cursor::Revision(_, step) => Ok(
                        Some(Removal { guard: None, removal: remove_rows(&relation_of_revision(step), answer.rows) }),
                    ),
                }
            },
            _ => Ok(None),
        }
    }

    /// Takes in whether the rows were removed. Where the guard found something, the relation is
    /// left as it is.
    pub fn removed(&mut self, done: bool) -> (r: Result<(), String>)
        requires
            old(self).wf(),
            old(self).stage is Remove,
            old(self).completed_rows + old(self).batch <= u64::MAX,
        ensures
            !done ==> {
                let next = old(self)@.cleaned(old(self).stage->Remove_0);
                &&& r is Ok <==> next is Ok
                &&& r is Ok ==> final(self)@ == next->Ok_0 && final(self).wf()
                &&& r is Err ==> r->Err_0@ == next->Err_0
            },
            done ==> {
                &&& r is Ok
                &&& final(self).wf()
                &&& final(self)@ == (SweepModel {
                    stage: SweepStage::Report(old(self).stage->Remove_0),
                    completed_rows: (old(self).completed_rows + old(self).batch) as u64,
                    ..old(self)@
                })
            },
    {
        match self.stage {
            SweepStage::Remove(cursor) => {
                if done {
                    self.completed_rows = self.completed_rows + self.batch;
                    self.stage = SweepStage::Report(cursor);
                    Ok(())
                } else {
                    self.go_on_from(cursor)
                }
            },
            _ => Ok(()),
        }
    }

    /// Tells what takes a repository state out of the queue.
    pub fn dequeue(&self) -> (r: Option<Command>)
        requires
            self.wf(),
        ensures
            r is Some <==> self.stage is Dequeue,
            r is Some ==> r->0@ == state_bound(DEQUEUE_STATE@, self@.queue[self.stage->Dequeue_0 as int].0->0),
    {
        match self.stage {
            SweepStage::Dequeue(at) => Some(state_command(DEQUEUE_STATE, self.state_name(at))),
            _ => None,
        }
    }

    /// Goes on after a repository state was taken out of the queue.
    pub fn dequeued(&mut self) -> (r: Result<(), String>)
        requires
            old(self).wf(),
            old(self).stage is Dequeue,
        ensures
            ({
                let next = SweepModel { resolved: (old(self).resolved + 1) as u32, ..old(self)@ }.at_state(
                    old(self).stage->Dequeue_0 + 1,
                );
                &&& r is Ok <==> next is Ok
                &&& r is Ok ==> final(self)@ == next->Ok_0 && final(self).wf()
                &&& r is Err ==> r->Err_0@ == next->Err_0
            }),
    {
        match self.stage {
            SweepStage::Dequeue(at) => {
                assert(queue_of(self.queue@).len() == self.queue@.len());
                self.resolved = self.resolved + 1;
                self.go_to_state(at + 1)
            },
            _ => Ok(()),
        }
    }

    /// Takes in the revisions that views show.
    pub fn take_revisions(&mut self, answer: &InspectionResult) -> (r: Result<(), String>)
        requires
            old(self).wf(),
            old(self).stage is Revisions,
            all_wide(answer.rows@, 2),
        ensures
            r is Ok <==> views_taken(old(self)@, answer.rows@) is Ok,
            r is Ok ==> final(self)@ == views_taken(old(self)@, answer.rows@)->Ok_0 && final(self).wf(),
            r is Err ==> r->Err_0@ == views_taken(old(self)@, answer.rows@)->Err_0,
    {
        let rows: &Vec<Vec<InspectionValue>> = &answer.rows;
        if rows.len() > 0xffff_ffff {
            return Err(OUT_OF_RANGE.to_owned());
        }
        if rows.len() as u64 * REVISION_STEPS as u64 > 0xffff_ffff {
            return Err(TOO_MANY_STEPS.to_owned());
        }
        let mut views: Vec<ShownRevision> = Vec::new();
        let mut i: usize = 0;
        while i < rows.len()
            invariant
                all_wide(rows@, 2),
                i <= rows@.len(),
                views@.len() == i,
                forall|k: int| 0 <= k < i ==> #[trigger] views_of(views@)[k] == (cell_text(rows@[k]@, 0), rows@[k]@[1]@),
            decreases rows@.len() - i,
        {
            let view: Option<String> = match text_at(&rows[i], 0) {
                Some(view) => Some(view.to_owned()),
                None => None,
            };
            let revision: InspectionValue = rows[i][1].copy();
            let ghost before = views@;
            views.push(ShownRevision { view, revision });
            proof {
                assert forall|k: int| 0 <= k < i + 1 implies #[trigger] views_of(views@)[k] == (
                    cell_text(rows@[k]@, 0),
                    rows@[k]@[1]@,
                ) by {
                    if k < i {
                        assert(views_of(before)[k] == (cell_text(rows@[k]@, 0), rows@[k]@[1]@));
                        assert(views@[k] == before[k]);
                    }
                }
            }
            i = i + 1;
        }
        assert(views_of(views@) =~= told_views(rows@));
        self.views = views;
        self.go_to_view(0)
    }

    /// How many repository states were collected.
    pub fn states_collected(&self) -> (r: u64)
        ensures
            r == self.resolved,
    {
        self.resolved as u64
    }
}

/// What is reported as completed stays below what there is.
pub proof fn sweeps_report_within_bounds(model: SweepModel, cursor: Cursor)
    requires
        model.wf(),
        model.stage == SweepStage::Report(cursor),
    ensures
        0 <= model.report(cursor).completed_steps < model.report(cursor).total_steps <= u32::MAX,
{
    match cursor {
        Cursor::State(at, step) => {},
        Cursor::Revision(at, step) => {
            let n = model.views.len() as int;
            assert(at * 18 + step < n * 18) by (nonlinear_arith)
                requires
                    at < n,
                    step < 18,
            ;
        },
    }
}

/// Rows of a repository state are never removed without the question whether the state is stored
/// again.
pub proof fn states_are_removed_under_guard(model: SweepModel, at: usize, step: u8, rows: Seq<RowModel>)
    ensures
        model.removal(Cursor::State(at, step), rows).guard == Some(state_bound(STATE_IN_USE@, model.queue[at as int].0->0)),
{
}

/// What happens to a sweep: an answer, or that something was done.
pub ghost enum SweepEvent {
    Queue(Seq<Vec<InspectionValue>>),
    Reported(bool),
    Batch(Seq<Vec<InspectionValue>>),
    Removed(bool),
    Dequeued,
    Revisions(Seq<Vec<InspectionValue>>),
}

/// How far a sweep is after an event; nothing if the event cannot happen there.
pub open spec fn swept_on(model: SweepModel, event: SweepEvent) -> Option<Result<SweepModel, Seq<char>>> {
    match (model.stage, event) {
        (SweepStage::Queue, SweepEvent::Queue(rows)) => Some(queue_taken(model, rows)),
        (SweepStage::Report(cursor), SweepEvent::Reported(go_on)) => Some(
            Ok(
                SweepModel {
                    stage: if go_on {
                        SweepStage::Select(cursor)
                    } else {
                        SweepStage::Done
                    },
                    ..model
                },
            ),
        ),
        (SweepStage::Select(cursor), SweepEvent::Batch(rows)) => if rows.len() == 0 {
            Some(model.cleaned(cursor))
        } else {
            Some(Ok(SweepModel { stage: SweepStage::Remove(cursor), batch: rows.len() as u64, ..model }))
        },
        (SweepStage::Remove(cursor), SweepEvent::Removed(done)) => if done {
            Some(
                Ok(
                    SweepModel {
                        stage: SweepStage::Report(cursor),
                        completed_rows: (model.completed_rows + model.batch) as u64,
                        ..model
                    },
                ),
            )
        } else {
            Some(model.cleaned(cursor))
        },
        (SweepStage::Dequeue(at), SweepEvent::Dequeued) => Some(
            SweepModel { resolved: (model.resolved + 1) as u32, ..model }.at_state(at + 1),
        ),
        (SweepStage::Revisions, SweepEvent::Revisions(rows)) => Some(views_taken(model, rows)),
        _ => None,
    }
}

/// A sweep after some events, with the states that were taken out of the queue; nothing if an
/// event cannot happen, or leads to an error.
pub open spec fn sweep_course(start: SweepModel, events: Seq<SweepEvent>, n: int) -> Option<(SweepModel, Seq<Seq<char>>)>
    decreases n,
{
    if n <= 0 {
        Some((start, Seq::empty()))
    } else {
        match sweep_course(start, events, n - 1) {
            None => None,
            Some((model, dequeued)) => match swept_on(model, events[n - 1]) {
                Some(Ok(next)) => Some(
                    (
                        next,
                        match model.stage {
                            SweepStage::Dequeue(at) => dequeued.push(model.queue[at as int].0->0),
                            _ => dequeued,
                        },
                    ),
                ),
                _ => None,
            },
        }
    }
}

/// What holds of a sweep that was never told to stop.
spec fn resolves(model: SweepModel, dequeued: Seq<Seq<char>>, queue: Seq<(Option<Seq<char>>, Seq<char>)>) -> bool {
    &&& model.queue == queue
    &&& queue.len() <= u32::MAX
    &&& dequeued.len() == model.resolved
    &&& model.resolved <= queue.len()
    &&& forall|k: int| 0 <= k < dequeued.len() ==> queue[k].0 == Some(#[trigger] dequeued[k])
    &&& match model.stage {
        SweepStage::Queue => false,
        SweepStage::Report(Cursor::State(at, _)) => model.resolved == at && at < queue.len() && queue[at as int].0 is Some,
        SweepStage::Select(Cursor::State(at, _)) => model.resolved == at && at < queue.len() && queue[at as int].0 is Some,
        SweepStage::Remove(Cursor::State(at, _)) => model.resolved == at && at < queue.len() && queue[at as int].0 is Some,
        SweepStage::Dequeue(at) => model.resolved == at && at < queue.len() && queue[at as int].0 is Some,
        _ => model.resolved == queue.len(),
    }
}

proof fn goes_on_resolving(start: SweepModel, events: Seq<SweepEvent>, n: int)
    requires
        1 <= n <= events.len(),
        start.stage is Queue,
        start.resolved == 0,
        forall|i: int| 0 <= i < n ==> #[trigger] events[i] != SweepEvent::Reported(false),
        sweep_course(start, events, n) is Some,
    ensures
        events[0] is Queue,
        ({
            let (model, dequeued) = sweep_course(start, events, n)->0;
            resolves(model, dequeued, told_queue(events[0]->Queue_0))
        }),
    decreases n,
{
    let (model, dequeued) = sweep_course(start, events, n - 1)->0;
    assert(events[n - 1] != SweepEvent::Reported(false));
    if n == 1 {
        reveal_with_fuel(sweep_course, 2);
    } else {
        goes_on_resolving(start, events, n - 1);
        let queue = told_queue(events[0]->Queue_0);
        let (next, taken) = sweep_course(start, events, n)->0;
        if let SweepStage::Dequeue(at) = model.stage {
            assert(taken == dequeued.push(queue[at as int].0->0));
            assert forall|k: int| 0 <= k < taken.len() implies queue[k].0 == Some(#[trigger] taken[k]) by {
                if k < dequeued.len() {
                    assert(taken[k] == dequeued[k]);
                }
            }
        }
    }
}

/// A sweep that is never told to stop takes every state out of the queue, in order, and counts
/// each of them.
pub proof fn whole_sweeps_resolve_the_queue(start: SweepModel, events: Seq<SweepEvent>, n: int)
    requires
        1 <= n <= events.len(),
        start.stage is Queue,
        start.resolved == 0,
        forall|i: int| 0 <= i < n ==> #[trigger] events[i] != SweepEvent::Reported(false),
        sweep_course(start, events, n) is Some,
        (sweep_course(start, events, n)->0).0.stage is Done,
    ensures
        events[0] is Queue,
        ({
            let rows = events[0]->Queue_0;
            let (model, dequeued) = sweep_course(start, events, n)->0;
            &&& model.resolved == rows.len()
            &&& dequeued.len() == rows.len()
            &&& forall|k: int| 0 <= k < rows.len() ==> cell_text((#[trigger] rows[k])@, 0) == Some(dequeued[k])
        }),
{
    goes_on_resolving(start, events, n);
    let rows = events[0]->Queue_0;
    let (model, dequeued) = sweep_course(start, events, n)->0;
    assert forall|k: int| 0 <= k < rows.len() implies cell_text((#[trigger] rows[k])@, 0) == Some(dequeued[k]) by {
        assert(told_queue(rows)[k].0 == Some(dequeued[k]));
    }
}

/// Each report of a relation counts the rows removed since the last one: a relation is begun with
/// no rows, and a batch that was removed adds its rows. A batch that was not removed leaves the
/// relation as it is.
pub proof fn reports_count_the_rows_removed(model: SweepModel, cursor: Cursor, rows: Seq<Vec<InspectionValue>>)
    requires
        model.wf(),
        model.stage == SweepStage::Select(cursor),
        0 < rows.len() <= COLLECTION_BATCH_SIZE,
        model.completed_rows + rows.len() <= u64::MAX,
    ensures
        ({
            let batch = swept_on(model, SweepEvent::Batch(rows));
            let removing = batch->0->Ok_0;
            let removed = swept_on(removing, SweepEvent::Removed(true));
            let refused = swept_on(removing, SweepEvent::Removed(false));
            &&& batch matches Some(Ok(_))
            &&& removed matches Some(Ok(next)) && next.stage == SweepStage::Report(cursor) && model.completed_rows < next.completed_rows
                && next.completed_rows == model.completed_rows + rows.len() && next.completed_rows <= model.completed_rows
                + COLLECTION_BATCH_SIZE
            &&& refused == Some(removing.cleaned(cursor))
        }),
        swept_on(model, SweepEvent::Batch(Seq::empty())) == Some(model.cleaned(cursor)),
        model.cleaned(cursor) matches Ok(next) ==> (next.stage is Report ==> next.completed_rows == 0),
{
}

} // verus!
