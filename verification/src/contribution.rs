//! Publishing what an analyzer contributes: the questions that decide how, and what is written.

use crate::command::{
    bind_rows, bind_text, cells, named_texts, row_cells, texts_bound, texts_command, ArgumentModel, Binding, Cell, CellModel, Command,
    CommandModel,
};
use crate::enrichment::{
    ask_comparison, comparison, complete_enrichment, completed, contributed, copy_revision, enrichment_owner_key,
    materialize_enrichment_contributions, materialized, owner_bound, owner_command, owner_key, remove_owner_contribution_keys,
    remove_revision_candidate, replace_enrichment_contributions, retracted, revision_bound, revision_command, revision_copied,
    revision_removed, EnrichmentOwner, EnrichmentPayload, EnrichmentPublishOutcome, COMPARISONS,
};
use crate::records::{command_models, record_rows, rows_behind};
use crate::rows::{cell_integer, cell_text, integer, text_at, InspectionResult, InspectionValue};
use crate::step::{add_all, ask_only, asking, Step, StepModel};
use crate::text::same;
use crate::write_scripts::{
    CONTRIBUTIONS, CURRENT_OUTPUT, DIFFERENT_DIAGNOSTICS, DIFFERENT_ENTITIES, DIFFERENT_OBSERVATIONS, DIFFERENT_OVERRIDES, ENRICHMENT_VERSION,
    MISSING_DIAGNOSTICS, MISSING_ENTITIES, MISSING_OBSERVATIONS, MISSING_OVERRIDES, PUT_REVISION, REVISION_INPUT,
};
use vstd::prelude::*;

verus! {

/// What is to be published, for which repository of which view, and from which input it was made.
pub struct Contribution<'a> {
    pub view: &'a str,
    pub repository: &'a str,
    pub input_fingerprint: &'a str,
    pub owner: EnrichmentOwner<'a>,
    pub payload: &'a EnrichmentPayload,
}

/// How far the publication of a contribution is.
#[derive(Clone, Copy, PartialEq, Eq, Structural, Debug)]
pub enum ContributionStage {
    /// The input that the view has is to be asked for.
    Input,
    /// Whether the analyzer contributed from this input is to be asked.
    Output,
    /// Whether one kind of the facts differs from what the analyzer contributed is to be asked.
    Differs(u8),
    /// Whether the analyzer contributed anything is to be asked.
    Present,
    /// Whether one kind of the facts is missing in the view is to be asked.
    Missing(u8),
    /// Whether the next revision differs from the one before is to be asked.
    Compare(i64, u8),
    /// The contribution was made from another input than the view has.
    Superseded,
    /// The analyzer contributed all this already.
    Unchanged,
    /// The view has all this already.
    Effective,
    /// The next revision differs from the one before.
    Changed(i64),
    /// The next revision is the same as the one before.
    Same(i64),
}

/// The publication of a contribution: how far it is, and which revision the view shows.
#[derive(Clone, Copy, PartialEq, Eq, Structural, Debug)]
pub struct ContributionProgress {
    pub stage: ContributionStage,
    pub previous: Option<i64>,
}

/// How many kinds of facts a contribution has.
pub const KINDS: u8 = 4;

/// Whether a contribution has a diagnostic about another repository.
pub open spec fn strays(payload: EnrichmentPayload, repository: Seq<char>) -> bool {
    exists|i: int| 0 <= i < payload.diagnostics@.len() && (#[trigger] payload.diagnostics@[i]).repository@ != repository
}

/// The rows of one kind of the facts that are contributed.
pub open spec fn incoming(payload: EnrichmentPayload, kind: int) -> Seq<Seq<CellModel>> {
    if kind == 0 {
        record_rows(Seq::empty(), payload.entities@)
    } else if kind == 1 {
        record_rows(Seq::empty(), payload.observations@)
    } else if kind == 2 {
        record_rows(Seq::empty(), payload.overrides@)
    } else {
        record_rows(Seq::empty(), payload.diagnostics@)
    }
}

/// The question whether one kind of the facts differs from what an owner contributed.
pub open spec fn difference(contribution: Contribution, kind: int) -> CommandModel {
    CommandModel {
        script: if kind == 0 {
            DIFFERENT_ENTITIES@
        } else if kind == 1 {
            DIFFERENT_OBSERVATIONS@
        } else if kind == 2 {
            DIFFERENT_OVERRIDES@
        } else {
            DIFFERENT_DIAGNOSTICS@
        },
        arguments: seq![
            ("view"@, ArgumentModel::One(CellModel::Text(contribution.view@))),
            ("owner"@, ArgumentModel::One(CellModel::Text(contribution.key()))),
            ("rows"@, ArgumentModel::Rows(incoming(*contribution.payload, kind))),
        ],
    }
}

/// The question whether one kind of the facts is missing in the view.
pub open spec fn absence(contribution: Contribution, kind: int) -> CommandModel {
    CommandModel {
        script: if kind == 0 {
            MISSING_ENTITIES@
        } else if kind == 1 {
            MISSING_OBSERVATIONS@
        } else if kind == 2 {
            MISSING_OVERRIDES@
        } else {
            MISSING_DIAGNOSTICS@
        },
        arguments: seq![
            ("view"@, ArgumentModel::One(CellModel::Text(contribution.view@))),
            ("rows"@, ArgumentModel::Rows(incoming(*contribution.payload, kind))),
        ],
    }
}

impl<'a> Contribution<'a> {
    /// By what the contribution is known.
    pub open spec fn key(&self) -> Seq<char> {
        owner_key(self.owner.analyzer@, self.repository@)
    }

    /// What notes that the analyzer contributed.
    pub open spec fn noted(&self) -> CommandModel {
        completed(self.view@, self.repository@, self.owner.analyzer@, self.owner.version@, self.input_fingerprint@)
    }

    /// What makes the next revision.
    pub open spec fn next_revision(&self, previous: int) -> Seq<CommandModel> {
        revision_copied(self.view@, previous, previous + 1) + retracted(self.view@, self.key(), previous + 1) + contributed(
            self.view@,
            self.key(),
            *self.payload,
        ) + retracted(self.view@, self.key(), previous + 1) + seq![self.noted()] + materialized(self.view@, previous + 1)
    }

    /// What is to be done next.
    pub open spec fn next(&self, progress: ContributionProgress) -> StepModel {
        match progress.stage {
            ContributionStage::Input => asking(
                texts_bound(
                    REVISION_INPUT@,
                    seq![("view"@, self.view@), ("repository"@, self.repository@), ("analyzer"@, self.owner.analyzer@)],
                ),
            ),
            ContributionStage::Output => asking(
                texts_bound(
                    CURRENT_OUTPUT@,
                    seq![
                        ("view"@, self.view@),
                        ("owner"@, self.key()),
                        ("repository"@, self.repository@),
                        ("analyzer"@, self.owner.analyzer@),
                        ("input_fingerprint"@, self.input_fingerprint@),
                    ],
                ),
            ),
            ContributionStage::Differs(kind) => asking(difference(*self, kind as int)),
            ContributionStage::Present => asking(owner_bound(CONTRIBUTIONS@, self.view@, self.key())),
            ContributionStage::Missing(kind) => asking(absence(*self, kind as int)),
            ContributionStage::Compare(previous, i) => StepModel {
                run: if i == 0 {
                    self.next_revision(previous as int)
                } else {
                    Seq::empty()
                },
                ask: Some(comparison(i as int, self.view@, previous as int, previous + 1)),
            },
            ContributionStage::Superseded => StepModel { run: Seq::empty(), ask: None },
            ContributionStage::Unchanged => StepModel { run: seq![self.noted()], ask: None },
            ContributionStage::Effective => StepModel {
                run: contributed(self.view@, self.key(), *self.payload) + seq![self.noted()],
                ask: None,
            },
            ContributionStage::Changed(previous) => StepModel {
                run: seq![revision_bound(PUT_REVISION@, self.view@, previous + 1)],
                ask: None,
            },
            ContributionStage::Same(previous) => StepModel { run: revision_removed(self.view@, previous + 1), ask: None },
        }
    }
}

/// The next revision is to be made, if the view shows one.
pub open spec fn to_compare(previous: Option<i64>) -> Result<ContributionStage, Seq<char>> {
    match previous {
        Some(previous) => Ok(ContributionStage::Compare(previous, 0)),
        None => Err("published analysis revision is invalid"@),
    }
}

/// The revision that the first row tells.
pub open spec fn told_revision(rows: Seq<Vec<InspectionValue>>) -> Option<i64> {
    match cell_integer(rows[0]@, 0) {
        Some(revision) => Some(revision as i64),
        None => None,
    }
}

/// How far the publication is after an answer. The next revision is made only if the analyzer
/// contributes something that it did not, and that the view does not have already.
pub open spec fn after(progress: ContributionProgress, input_fingerprint: Seq<char>, rows: Seq<Vec<InspectionValue>>) -> Result<
    ContributionProgress,
    Seq<char>,
> {
    let none = rows.len() == 0;
    let at = |stage: Result<ContributionStage, Seq<char>>|
        match stage {
            Ok(stage) => Ok(ContributionProgress { stage, ..progress }),
            Err(message) => Err(message),
        };
    match progress.stage {
        ContributionStage::Input => if none {
            Err("published analysis revision is missing"@)
        } else if cell_text(rows[0]@, 1) != Some(input_fingerprint) {
            at(Ok(ContributionStage::Superseded))
        } else {
            Ok(ContributionProgress { stage: ContributionStage::Output, previous: told_revision(rows) })
        },
        ContributionStage::Output => at(
            Ok(
                if none {
                    ContributionStage::Present
                } else {
                    ContributionStage::Differs(0)
                },
            ),
        ),
        ContributionStage::Differs(kind) => at(
            Ok(
                if !none {
                    ContributionStage::Present
                } else if kind + 1 >= KINDS {
                    ContributionStage::Unchanged
                } else {
                    ContributionStage::Differs((kind + 1) as u8)
                },
            ),
        ),
        ContributionStage::Present => at(
            if none {
                Ok(ContributionStage::Missing(0))
            } else {
                to_compare(progress.previous)
            },
        ),
        ContributionStage::Missing(kind) => at(
            if !none {
                to_compare(progress.previous)
            } else if kind + 1 >= KINDS {
                Ok(ContributionStage::Effective)
            } else {
                Ok(ContributionStage::Missing((kind + 1) as u8))
            },
        ),
        ContributionStage::Compare(previous, i) => at(
            Ok(
                if !none {
                    ContributionStage::Changed(previous)
                } else if i + 1 >= COMPARISONS {
                    ContributionStage::Same(previous)
                } else {
                    ContributionStage::Compare(previous, (i + 1) as u8)
                },
            ),
        ),
        _ => Ok(progress),
    }
}

/// Whether there can be a revision after the one that the view shows.
pub open spec fn can_go_on(progress: ContributionProgress) -> bool {
    &&& progress.previous is Some ==> progress.previous->0 < i64::MAX
    &&& match progress.stage {
        ContributionStage::Compare(previous, _) => previous < i64::MAX,
        ContributionStage::Changed(previous) => previous < i64::MAX,
        ContributionStage::Same(previous) => previous < i64::MAX,
        _ => true,
    }
}

/// Tells whether there can be a revision after the one that the view shows.
pub fn has_next_revision(progress: ContributionProgress) -> (r: bool)
    ensures
        r == can_go_on(progress),
{
    let known: bool = match progress.previous {
        Some(previous) => previous < i64::MAX,
        None => true,
    };
    let made: bool = match progress.stage {
        ContributionStage::Compare(previous, _) => previous < i64::MAX,
        ContributionStage::Changed(previous) => previous < i64::MAX,
        ContributionStage::Same(previous) => previous < i64::MAX,
        _ => true,
    };
    known && made
}

/// What becomes of a contribution at the end.
pub open spec fn outcome_at(stage: ContributionStage) -> Option<EnrichmentPublishOutcome> {
    match stage {
        ContributionStage::Superseded => Some(EnrichmentPublishOutcome::Superseded),
        ContributionStage::Unchanged => Some(EnrichmentPublishOutcome::Unchanged),
        ContributionStage::Effective => Some(EnrichmentPublishOutcome::Published),
        ContributionStage::Changed(_) => Some(EnrichmentPublishOutcome::Published),
        ContributionStage::Same(_) => Some(EnrichmentPublishOutcome::Published),
        _ => None,
    }
}

fn compare_from(previous: Option<i64>) -> (r: Result<ContributionStage, String>)
    ensures
        r is Ok <==> to_compare(previous) is Ok,
        r is Ok ==> r->Ok_0 == to_compare(previous)->Ok_0,
        r is Err ==> r->Err_0@ == to_compare(previous)->Err_0,
{
    match previous {
        Some(previous) => Ok(ContributionStage::Compare(previous, 0)),
        None => Err("published analysis revision is invalid".to_owned()),
    }
}

impl<'a> Contribution<'a> {
    /// Begins to publish the contribution.
    pub fn start(&self) -> (r: Result<ContributionProgress, String>)
        ensures
            r is Err <==> strays(*self.payload, self.repository@),
            r is Err ==> r->Err_0@ == "enrichment diagnostic belongs to a different target repository"@,
            r is Ok ==> r->Ok_0 == (ContributionProgress { stage: ContributionStage::Input, previous: None }),
    {
        let mut i: usize = 0;
        while i < self.payload.diagnostics.len()
            invariant
                i <= self.payload.diagnostics@.len(),
                forall|k: int| 0 <= k < i ==> (#[trigger] self.payload.diagnostics@[k]).repository@ == self.repository@,
            decreases self.payload.diagnostics@.len() - i,
        {
            if !same(self.payload.diagnostics[i].repository.as_str(), self.repository) {
                return Err("enrichment diagnostic belongs to a different target repository".to_owned());
            }
            i = i + 1;
        }
        Ok(ContributionProgress { stage: ContributionStage::Input, previous: None })
    }

    fn incoming_rows(&self, kind: u8) -> (r: Vec<Vec<Cell>>)
        ensures
            row_cells(r@) == incoming(*self.payload, kind as int),
    {
        let front: Vec<Cell> = Vec::new();
        assert(cells(front@) =~= Seq::empty());
        if kind == 0 {
            rows_behind(&front, &self.payload.entities)
        } else if kind == 1 {
            rows_behind(&front, &self.payload.observations)
        } else if kind == 2 {
            rows_behind(&front, &self.payload.overrides)
        } else {
            rows_behind(&front, &self.payload.diagnostics)
        }
    }

    fn ask_difference(&self, owner: &str, kind: u8) -> (r: Command)
        requires
            owner@ == self.key(),
        ensures
            r@ == difference(*self, kind as int),
    {
        let script: &str = if kind == 0 {
            DIFFERENT_ENTITIES
        } else if kind == 1 {
            DIFFERENT_OBSERVATIONS
        } else if kind == 2 {
            DIFFERENT_OVERRIDES
        } else {
            DIFFERENT_DIAGNOSTICS
        };
        let mut arguments: Vec<Binding> = Vec::new();
        arguments.push(bind_text("view", self.view));
        arguments.push(bind_text("owner", owner));
        arguments.push(bind_rows("rows", self.incoming_rows(kind)));
        let command: Command = Command { script: script.to_owned(), arguments };
        assert(command@.arguments =~= difference(*self, kind as int).arguments);
        command
    }

    fn ask_absence(&self, kind: u8) -> (r: Command)
        ensures
            r@ == absence(*self, kind as int),
    {
        let script: &str = if kind == 0 {
            MISSING_ENTITIES
        } else if kind == 1 {
            MISSING_OBSERVATIONS
        } else if kind == 2 {
            MISSING_OVERRIDES
        } else {
            MISSING_DIAGNOSTICS
        };
        let mut arguments: Vec<Binding> = Vec::new();
        arguments.push(bind_text("view", self.view));
        arguments.push(bind_rows("rows", self.incoming_rows(kind)));
        let command: Command = Command { script: script.to_owned(), arguments };
        assert(command@.arguments =~= absence(*self, kind as int).arguments);
        command
    }

    fn note(&self) -> (r: Command)
        ensures
            r@ == self.noted(),
    {
        complete_enrichment(self.view, self.repository, self.owner.analyzer, self.owner.version, self.input_fingerprint)
    }

    fn ask_input(&self) -> (r: Command)
        ensures
            r@ == texts_bound(
                REVISION_INPUT@,
                seq![("view"@, self.view@), ("repository"@, self.repository@), ("analyzer"@, self.owner.analyzer@)],
            ),
    {
        let pairs: Vec<(&str, &str)> = vec![("view", self.view), ("repository", self.repository), ("analyzer", self.owner.analyzer)];
        assert(named_texts(pairs@) =~= seq![
            ("view"@, self.view@),
            ("repository"@, self.repository@),
            ("analyzer"@, self.owner.analyzer@),
        ]);
        texts_command(REVISION_INPUT, &pairs)
    }

    fn ask_output(&self, owner: &str) -> (r: Command)
        ensures
            r@ == texts_bound(
                CURRENT_OUTPUT@,
                seq![
                    ("view"@, self.view@),
                    ("owner"@, owner@),
                    ("repository"@, self.repository@),
                    ("analyzer"@, self.owner.analyzer@),
                    ("input_fingerprint"@, self.input_fingerprint@),
                ],
            ),
    {
        let pairs: Vec<(&str, &str)> = vec![
            ("view", self.view),
            ("owner", owner),
            ("repository", self.repository),
            ("analyzer", self.owner.analyzer),
            ("input_fingerprint", self.input_fingerprint),
        ];
        assert(named_texts(pairs@) =~= seq![
            ("view"@, self.view@),
            ("owner"@, owner@),
            ("repository"@, self.repository@),
            ("analyzer"@, self.owner.analyzer@),
            ("input_fingerprint"@, self.input_fingerprint@),
        ]);
        texts_command(CURRENT_OUTPUT, &pairs)
    }

    fn make_revision(&self, owner: &str, previous: i64) -> (r: Vec<Command>)
        requires
            owner@ == self.key(),
            previous < i64::MAX,
        ensures
            command_models(r@) == self.next_revision(previous as int),
    {
        let revision: i64 = previous + 1;
        let mut commands: Vec<Command> = copy_revision(self.view, previous, revision);
        add_all(&mut commands, remove_owner_contribution_keys(self.view, owner, revision));
        add_all(&mut commands, replace_enrichment_contributions(self.view, owner, self.payload));
        add_all(&mut commands, remove_owner_contribution_keys(self.view, owner, revision));
        let ghost before = commands@;
        commands.push(self.note());
        assert(command_models(commands@) =~= command_models(before) + seq![self.noted()]);
        add_all(&mut commands, materialize_enrichment_contributions(self.view, revision));
        commands
    }

    /// Tells what is to be done next. Where nothing is to be asked, the transaction ends: it is
    /// dropped if the contribution is superseded, and takes effect otherwise.
    pub fn action(&self, progress: ContributionProgress) -> (r: Step)
        requires
            can_go_on(progress),
        ensures
            r@ == self.next(progress),
    {
        let owner: String = enrichment_owner_key(self.owner.analyzer, self.repository);
        let mut run: Vec<Command> = Vec::new();
        assert(command_models(run@) =~= Seq::empty());
        match progress.stage {
            ContributionStage::Input => ask_only(self.ask_input()),
            ContributionStage::Output => ask_only(self.ask_output(owner.as_str())),
            ContributionStage::Differs(kind) => ask_only(self.ask_difference(owner.as_str(), kind)),
            ContributionStage::Present => ask_only(owner_command(CONTRIBUTIONS, self.view, owner.as_str())),
            ContributionStage::Missing(kind) => ask_only(self.ask_absence(kind)),
            ContributionStage::Compare(previous, i) => {
                if i == 0 {
                    run = self.make_revision(owner.as_str(), previous);
                }
                Step { run, ask: Some(ask_comparison(i, self.view, previous, previous + 1)) }
            },
            ContributionStage::Superseded => Step { run, ask: None },
            ContributionStage::Unchanged => {
                run.push(self.note());
                assert(command_models(run@) =~= seq![self.noted()]);
                Step { run, ask: None }
            },
            ContributionStage::Effective => {
                run = replace_enrichment_contributions(self.view, owner.as_str(), self.payload);
                let ghost before = run@;
                run.push(self.note());
                assert(command_models(run@) =~= command_models(before) + seq![self.noted()]);
                Step { run, ask: None }
            },
            ContributionStage::Changed(previous) => {
                run.push(revision_command(PUT_REVISION, self.view, previous + 1));
                assert(command_models(run@) =~= seq![revision_bound(PUT_REVISION@, self.view@, previous + 1)]);
                Step { run, ask: None }
            },
            ContributionStage::Same(previous) => Step { run: remove_revision_candidate(self.view, previous + 1), ask: None },
        }
    }

    /// Takes in the answer to what was asked.
    pub fn receive(&self, progress: ContributionProgress, answer: &InspectionResult) -> (r: Result<ContributionProgress, String>)
        ensures
            r is Ok <==> after(progress, self.input_fingerprint@, answer.rows@) is Ok,
            r is Ok ==> r->Ok_0 == after(progress, self.input_fingerprint@, answer.rows@)->Ok_0,
            r is Err ==> r->Err_0@ == after(progress, self.input_fingerprint@, answer.rows@)->Err_0,
    {
        let none: bool = answer.rows.len() == 0;
        let mut previous: Option<i64> = progress.previous;
        let stage: ContributionStage = match progress.stage {
            ContributionStage::Input => {
                if none {
                    return Err("published analysis revision is missing".to_owned());
                }
                let row: &Vec<InspectionValue> = &answer.rows[0];
                let current: bool = match text_at(row, 1) {
                    Some(fingerprint) => same(fingerprint, self.input_fingerprint),
                    None => false,
                };
                if current {
                    previous = integer(row, 0);
                    ContributionStage::Output
                } else {
                    ContributionStage::Superseded
                }
            },
            ContributionStage::Output => if none {
                ContributionStage::Present
            } else {
                ContributionStage::Differs(0)
            },
            ContributionStage::Differs(kind) => if !none {
                ContributionStage::Present
            } else if kind >= KINDS - 1 {
                ContributionStage::Unchanged
            } else {
                ContributionStage::Differs(kind + 1)
            },
            ContributionStage::Present => if none {
                ContributionStage::Missing(0)
            } else {
                match compare_from(progress.previous) {
                    Ok(stage) => stage,
                    Err(message) => {
                        return Err(message);
                    },
                }
            },
            ContributionStage::Missing(kind) => if !none {
                match compare_from(progress.previous) {
                    Ok(stage) => stage,
                    Err(message) => {
                        return Err(message);
                    },
                }
            } else if kind >= KINDS - 1 {
                ContributionStage::Effective
            } else {
                ContributionStage::Missing(kind + 1)
            },
            ContributionStage::Compare(previous, i) => if !none {
                ContributionStage::Changed(previous)
            } else if i >= COMPARISONS - 1 {
                ContributionStage::Same(previous)
            } else {
                ContributionStage::Compare(previous, i + 1)
            },
            stage => stage,
        };
        Ok(ContributionProgress { stage, previous })
    }
}

/// Tells what became of a contribution, once nothing is to be asked any more.
pub fn outcome(progress: ContributionProgress) -> (r: Option<EnrichmentPublishOutcome>)
    ensures
        r == outcome_at(progress.stage),
{
    match progress.stage {
        ContributionStage::Superseded => Some(EnrichmentPublishOutcome::Superseded),
        ContributionStage::Unchanged => Some(EnrichmentPublishOutcome::Unchanged),
        ContributionStage::Effective => Some(EnrichmentPublishOutcome::Published),
        ContributionStage::Changed(_) => Some(EnrichmentPublishOutcome::Published),
        ContributionStage::Same(_) => Some(EnrichmentPublishOutcome::Published),
        _ => None,
    }
}

/// Whether a contribution was published: it was, unless it is superseded.
pub fn is_published(outcome: EnrichmentPublishOutcome) -> (r: bool)
    ensures
        r == (outcome != EnrichmentPublishOutcome::Superseded),
{
    match outcome {
        EnrichmentPublishOutcome::Superseded => false,
        _ => true,
    }
}

/// How many questions can be left to ask.
pub open spec fn questions_left(stage: ContributionStage) -> int {
    match stage {
        ContributionStage::Input => 50,
        ContributionStage::Output => 40,
        ContributionStage::Differs(kind) => if kind < KINDS {
            30 + KINDS - kind
        } else {
            30
        },
        ContributionStage::Present => 29,
        ContributionStage::Missing(kind) => if kind < KINDS {
            20 + KINDS - kind
        } else {
            20
        },
        ContributionStage::Compare(_, i) => if i < COMPARISONS {
            1 + COMPARISONS - i
        } else {
            1
        },
        _ => 0,
    }
}

/// Whatever is answered, the publication of a contribution comes to an end: each answer leaves
/// fewer questions, and without a question there is an outcome.
pub proof fn contributions_come_to_an_end(progress: ContributionProgress, input_fingerprint: Seq<char>, rows: Seq<Vec<InspectionValue>>)
    ensures
        outcome_at(progress.stage) is None ==> (after(progress, input_fingerprint, rows) matches Ok(next) ==> 0 <= questions_left(
            next.stage,
        ) < questions_left(progress.stage)),
        outcome_at(progress.stage) is Some <==> questions_left(progress.stage) == 0,
{
}

/// A contribution that was made from another input than the view has writes nothing.
pub proof fn superseded_contributions_write_nothing(
    contribution: Contribution,
    input_fingerprint: Seq<char>,
    rows: Seq<Vec<InspectionValue>>,
)
    requires
        rows.len() > 0,
        cell_text(rows[0]@, 1) != Some(input_fingerprint),
    ensures
        ({
            let start = ContributionProgress { stage: ContributionStage::Input, previous: None };
            let end = after(start, input_fingerprint, rows);
            &&& end is Ok
            &&& outcome_at((end->Ok_0).stage) == Some(EnrichmentPublishOutcome::Superseded)
            &&& contribution.next(end->Ok_0).run.len() == 0
        }),
{
}

/// How the publication of a contribution goes with the first answers: how far it is then, and
/// what was run.
pub open spec fn course(contribution: Contribution, answers: Seq<Seq<Vec<InspectionValue>>>, n: int) -> Result<
    (ContributionProgress, Seq<CommandModel>),
    Seq<char>,
>
    decreases n,
{
    if n <= 0 {
        Ok((ContributionProgress { stage: ContributionStage::Input, previous: None }, Seq::empty()))
    } else {
        match course(contribution, answers, n - 1) {
            Err(message) => Err(message),
            Ok((progress, run)) => if outcome_at(progress.stage) is Some {
                Ok((progress, run))
            } else {
                match after(progress, contribution.input_fingerprint@, answers[n - 1]) {
                    Err(message) => Err(message),
                    Ok(next) => Ok((next, run + contribution.next(next).run)),
                }
            },
        }
    }
}

/// What holds of the course of a contribution after the first answer.
spec fn on_course(contribution: Contribution, current: bool, progress: ContributionProgress, run: Seq<CommandModel>) -> bool {
    &&& !(progress.stage is Input)
    &&& (progress.stage is Superseded) == !current
    &&& progress.stage is Superseded ==> run.len() == 0
    &&& progress.stage is Compare || progress.stage is Changed || progress.stage is Same || progress.stage is Effective
        || progress.stage is Unchanged ==> run.contains(contribution.noted())
}

proof fn run_contains(a: Seq<CommandModel>, b: Seq<CommandModel>, c: CommandModel)
    requires
        a.contains(c) || b.contains(c),
    ensures
        (a + b).contains(c),
{
    if a.contains(c) {
        let i = choose|i: int| 0 <= i < a.len() && a[i] == c;
        assert((a + b)[i] == c);
    } else {
        let i = choose|i: int| 0 <= i < b.len() && b[i] == c;
        assert((a + b)[a.len() + i] == c);
    }
}

proof fn next_revisions_are_noted(contribution: Contribution, previous: int)
    ensures
        contribution.next_revision(previous).contains(contribution.noted()),
{
    let front = revision_copied(contribution.view@, previous, previous + 1) + retracted(contribution.view@, contribution.key(), previous + 1)
        + contributed(contribution.view@, contribution.key(), *contribution.payload) + retracted(
        contribution.view@,
        contribution.key(),
        previous + 1,
    );
    let noted = seq![contribution.noted()];
    assert(noted[0] == contribution.noted());
    run_contains(front, noted, contribution.noted());
    run_contains(front + noted, materialized(contribution.view@, previous + 1), contribution.noted());
}

proof fn stays_on_course(contribution: Contribution, answers: Seq<Seq<Vec<InspectionValue>>>, n: int)
    requires
        1 <= n,
        answers[0].len() > 0,
        course(contribution, answers, n) is Ok,
    ensures
        on_course(
            contribution,
            cell_text(answers[0][0]@, 1) == Some(contribution.input_fingerprint@),
            (course(contribution, answers, n)->Ok_0).0,
            (course(contribution, answers, n)->Ok_0).1,
        ),
    decreases n,
{
    let current = cell_text(answers[0][0]@, 1) == Some(contribution.input_fingerprint@);
    let (progress, run) = course(contribution, answers, n - 1)->Ok_0;
    if n == 1 {
        reveal_with_fuel(course, 2);
    } else {
        stays_on_course(contribution, answers, n - 1);
    }
    if outcome_at(progress.stage) is None {
        let next = after(progress, contribution.input_fingerprint@, answers[n - 1])->Ok_0;
        let more = contribution.next(next).run;
        match next.stage {
            ContributionStage::Compare(previous, i) => {
                if i == 0 {
                    next_revisions_are_noted(contribution, previous as int);
                }
                if run.contains(contribution.noted()) || more.contains(contribution.noted()) {
                    run_contains(run, more, contribution.noted());
                }
            },
            ContributionStage::Changed(_) | ContributionStage::Same(_) => {
                run_contains(run, more, contribution.noted());
            },
            ContributionStage::Unchanged => {
                assert(more[0] == contribution.noted());
                run_contains(run, more, contribution.noted());
            },
            ContributionStage::Effective => {
                let noted = seq![contribution.noted()];
                assert(noted[0] == contribution.noted());
                run_contains(contributed(contribution.view@, contribution.key(), *contribution.payload), noted, contribution.noted());
                run_contains(run, more, contribution.noted());
            },
            _ => {},
        }
    }
}

/// A contribution that runs to its end is published exactly if it was made from the input that
/// the view has: otherwise nothing is run, and if it is, it is noted in which version and from
/// which input the analyzer contributed.
pub proof fn contributions_are_published_if_current(contribution: Contribution, answers: Seq<Seq<Vec<InspectionValue>>>, n: int)
    requires
        0 <= n,
        answers[0].len() > 0,
        course(contribution, answers, n) is Ok,
        outcome_at((course(contribution, answers, n)->Ok_0).0.stage) is Some,
    ensures
        ({
            let (progress, run) = course(contribution, answers, n)->Ok_0;
            let published = outcome_at(progress.stage) != Some(EnrichmentPublishOutcome::Superseded);
            &&& published == (cell_text(answers[0][0]@, 1) == Some(contribution.input_fingerprint@))
            &&& !published ==> run.len() == 0
            &&& published ==> run.contains(contribution.noted())
        }),
{
    if n >= 1 {
        stays_on_course(contribution, answers, n);
    }
}

/// What is noted of a contribution is what is asked for again: under the view, the owner, the
/// repository and the analyzer stands the version in which it contributed.
pub proof fn noted_versions_are_asked_for_again(contribution: Contribution)
    ensures
        contribution.noted().arguments.take(4) == texts_bound(
            ENRICHMENT_VERSION@,
            seq![
                ("view"@, contribution.view@),
                ("owner"@, contribution.key()),
                ("repository"@, contribution.repository@),
                ("analyzer"@, contribution.owner.analyzer@),
            ],
        ).arguments,
        contribution.noted().arguments[4] == ("version"@, ArgumentModel::One(CellModel::Text(contribution.owner.version@))),
        contribution.noted().arguments[5] == (
            "input_fingerprint"@,
            ArgumentModel::One(CellModel::Text(contribution.input_fingerprint@)),
        ),
{
    assert(contribution.noted().arguments.take(4) =~= texts_bound(
        ENRICHMENT_VERSION@,
        seq![
            ("view"@, contribution.view@),
            ("owner"@, contribution.key()),
            ("repository"@, contribution.repository@),
            ("analyzer"@, contribution.owner.analyzer@),
        ],
    ).arguments);
}

/// A contribution that says what the analyzer contributed from the same input already leaves the
/// revision of the view as it is: it is only noted.
pub proof fn repeated_contributions_keep_the_revision(contribution: Contribution, answers: Seq<Seq<Vec<InspectionValue>>>)
    requires
        answers.len() >= KINDS + 2,
        answers[0].len() > 0,
        cell_text(answers[0][0]@, 1) == Some(contribution.input_fingerprint@),
        answers[1].len() > 0,
        forall|k: int| 2 <= k < KINDS + 2 ==> (#[trigger] answers[k]).len() == 0,
    ensures
        course(contribution, answers, KINDS + 2) is Ok,
        ({
            let (progress, run) = course(contribution, answers, KINDS + 2)->Ok_0;
            &&& outcome_at(progress.stage) == Some(EnrichmentPublishOutcome::Unchanged)
            &&& run == seq![contribution.noted()]
        }),
{
    reveal_with_fuel(course, 7);
    assert(answers[2].len() == 0 && answers[3].len() == 0 && answers[4].len() == 0 && answers[5].len() == 0);
    let nothing = Seq::<CommandModel>::empty();
    assert(course(contribution, answers, 1)->Ok_0.1 =~= nothing);
    assert(course(contribution, answers, 2)->Ok_0.1 =~= nothing);
    assert(course(contribution, answers, 3)->Ok_0.1 =~= nothing);
    assert(course(contribution, answers, 4)->Ok_0.1 =~= nothing);
    assert(course(contribution, answers, 5)->Ok_0.1 =~= nothing);
    assert(course(contribution, answers, 6)->Ok_0.1 =~= seq![contribution.noted()]);
}

} // verus!
