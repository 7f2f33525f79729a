//! Bringing the inputs of a published revision up to date, and taking back what no analyzer
//! stands for any more.

use crate::baseline::{fingerprint_bound, fingerprint_command};
use crate::command::{named_texts, texts_bound, texts_command, view_bound, view_command, Command, CommandModel};
use crate::domain::optional_text;
use crate::enrichment::{
    ask_comparison, ask_obsolete_owners, comparison, copy_revision, decode_first_column, first_column, materialize_enrichment_contributions,
    materialized, owners_removed, remove_enrichment_state, remove_owner_contribution_keys, remove_revision_candidate, retracted,
    revision_bound, revision_command, revision_copied, revision_removed, COMPARISONS, OWNER_NOT_A_STRING,
};
use crate::grpc::{first_integer, first_integer_of};
use crate::manifest::{gives_inputs, inputs_stored, store_revision_inputs};
use crate::records::{command_models, WorkspaceView};
use crate::revisions::{boolean_is, first_text, first_text_of, holds_boolean};
use crate::rows::{cell_text, text_at, InspectionResult, InspectionValue};
use crate::scripts::ANALYSIS_REVISION;
use crate::seqs::{concat_map, concat_map_step};
use crate::sorted::{texts, SortedMap};
use crate::step::add_all;
use crate::text::same;
use crate::write_scripts::{
    CLEAR_CONTEXTS, CLEAR_ENRICHMENT_INPUTS, CONTEXTS, ENRICHMENT_INPUT, FINGERPRINT, INPUT_FINGERPRINTS, OBSOLETE_OWNERS, PUT_REVISION, PUT_VERIFICATION,
    VERIFICATION_MATCHES, VIEW_MATCHES,
};
use vstd::prelude::*;

verus! {

/// Asks whether a view is published with a fingerprint.
pub fn ask_view_matches(view: &WorkspaceView) -> (r: Command)
    ensures
        r@ == fingerprint_bound(VIEW_MATCHES@, view.name@, view.fingerprint@),
{
    fingerprint_command(VIEW_MATCHES, view.name.as_str(), view.fingerprint.as_str())
}

/// Asks whether a view was verified with a fingerprint.
pub fn ask_verification_matches(view: &str, fingerprint: &str) -> (r: Command)
    ensures
        r@ == fingerprint_bound(VERIFICATION_MATCHES@, view@, fingerprint@),
{
    fingerprint_command(VERIFICATION_MATCHES, view, fingerprint)
}

/// Whether the first row says so.
pub fn view_matches(answer: &InspectionResult) -> (r: bool)
    ensures
        r == (answer.rows@.len() > 0 && holds_boolean(answer.rows@[0]@, 0, true)),
{
    answer.rows.len() > 0 && boolean_is(&answer.rows[0], 0, true)
}

/// Stores the fingerprint with which a view was verified.
pub fn store_verification_fingerprint(view: &str, fingerprint: &str) -> (r: Command)
    ensures
        r@ == fingerprint_bound(PUT_VERIFICATION@, view@, fingerprint@),
{
    fingerprint_command(PUT_VERIFICATION, view, fingerprint)
}

/// Asks for the fingerprint of what an analyzer takes in for a repository.
pub fn ask_enrichment_input(view: &str, repository: &str, analyzer: &str) -> (r: Command)
    ensures
        r@ == texts_bound(ENRICHMENT_INPUT@, seq![("view"@, view@), ("repository"@, repository@), ("analyzer"@, analyzer@)]),
{
    let pairs: Vec<(&str, &str)> = vec![("view", view), ("repository", repository), ("analyzer", analyzer)];
    assert(named_texts(pairs@) =~= seq![("view"@, view@), ("repository"@, repository@), ("analyzer"@, analyzer@)]);
    texts_command(ENRICHMENT_INPUT, &pairs)
}

/// The fingerprint of what an analyzer takes in for a repository.
pub fn revision_enrichment_input_fingerprint(answer: &InspectionResult) -> (r: Option<String>)
    ensures
        optional_text(r) == first_text(answer.rows@),
{
    match first_text_of(&answer.rows) {
        Some(found) => Some(found.to_owned()),
        None => None,
    }
}

/// Asks for the repositories that serve as context for another.
pub fn ask_contexts(view: &str, target: &str, analyzer: &str) -> (r: Command)
    ensures
        r@ == texts_bound(CONTEXTS@, seq![("view"@, view@), ("target"@, target@), ("analyzer"@, analyzer@)]),
{
    let pairs: Vec<(&str, &str)> = vec![("view", view), ("target", target), ("analyzer", analyzer)];
    assert(named_texts(pairs@) =~= seq![("view"@, view@), ("target"@, target@), ("analyzer"@, analyzer@)]);
    texts_command(CONTEXTS, &pairs)
}

/// The texts in the first column, wherever there is one.
pub open spec fn texts_found(rows: Seq<Vec<InspectionValue>>) -> Seq<Seq<char>> {
    concat_map(
        rows,
        |row: Vec<InspectionValue>|
            match cell_text(row@, 0) {
                Some(text) => seq![text],
                None => Seq::empty(),
            },
    )
}

/// The repositories that serve as context for another.
pub fn repository_contexts(answer: &InspectionResult) -> (r: Vec<String>)
    ensures
        texts(r@) == texts_found(answer.rows@),
{
    let ghost piece = |row: Vec<InspectionValue>|
        match cell_text(row@, 0) {
            Some(text) => seq![text],
            None => Seq::empty(),
        };
    let mut list: Vec<String> = Vec::new();
    let mut i: usize = 0;
    assert(texts(list@) =~= concat_map(answer.rows@.take(0), piece));
    while i < answer.rows.len()
        invariant
            i <= answer.rows@.len(),
            piece == (|row: Vec<InspectionValue>|
                match cell_text(row@, 0) {
                    Some(text) => seq![text],
                    None => Seq::empty(),
                }),
            texts(list@) == concat_map(answer.rows@.take(i as int), piece),
        decreases answer.rows@.len() - i,
    {
        let ghost before = list@;
        proof {
            concat_map_step(answer.rows@, i as int, piece);
        }
        match text_at(&answer.rows[i], 0) {
            Some(found) => {
                list.push(found.to_owned());
                assert(texts(list@) =~= texts(before) + seq![found@]);
            },
            None => {
                assert(texts(list@) =~= texts(before) + Seq::<Seq<char>>::empty());
            },
        }
        i = i + 1;
    }
    assert(answer.rows@.take(answer.rows@.len() as int) =~= answer.rows@);
    list
}

/// Asks for the fingerprints of the repositories that a view was published from.
pub fn ask_input_fingerprints(view: &str) -> (r: Command)
    ensures
        r@ == view_bound(INPUT_FINGERPRINTS@, view@),
{
    view_command(INPUT_FINGERPRINTS, view)
}

/// The fingerprints that the first rows tell, by repository. Rows without a text are passed over.
pub open spec fn fingerprints_told(rows: Seq<Vec<InspectionValue>>, n: int) -> Map<Seq<Seq<char>>, Seq<char>>
    decreases n,
{
    if n <= 0 {
        Map::empty()
    } else {
        match (cell_text(rows[n - 1]@, 0), cell_text(rows[n - 1]@, 1)) {
            (Some(repository), Some(fingerprint)) => fingerprints_told(rows, n - 1).insert(seq![repository], fingerprint),
            _ => fingerprints_told(rows, n - 1),
        }
    }
}

/// The fingerprints of the repositories that a view was published from.
pub fn revision_input_fingerprints(answer: &InspectionResult) -> (r: SortedMap<String, String>)
    ensures
        r.wf(),
        r@.map_values(|text: String| text@) == fingerprints_told(answer.rows@, answer.rows@.len() as int),
{
    let mut map: SortedMap<String, String> = SortedMap::new();
    let mut i: usize = 0;
    assert(map@.map_values(|text: String| text@) =~= Map::empty());
    while i < answer.rows.len()
        invariant
            i <= answer.rows@.len(),
            map.wf(),
            map@.map_values(|text: String| text@) == fingerprints_told(answer.rows@, i as int),
        decreases answer.rows@.len() - i,
    {
        let ghost before = map@;
        match (text_at(&answer.rows[i], 0), text_at(&answer.rows[i], 1)) {
            (Some(repository), Some(fingerprint)) => {
                let key: String = repository.to_owned();
                let value: String = fingerprint.to_owned();
                let ghost stored = value;
                map.insert(key, value);
                assert(map@ == before.insert(seq![repository@], stored));
                assert(map@.map_values(|text: String| text@) =~= before.map_values(|text: String| text@).insert(
                    seq![repository@],
                    fingerprint@,
                ));
            },
            _ => {},
        }
        i = i + 1;
    }
    map
}

/// How far the reconciliation of a view is.
#[derive(Clone, Copy, PartialEq, Eq, Structural, Debug)]
pub enum ReconciliationStage {
    /// The fingerprint of what is published is to be asked for.
    Fingerprint,
    /// The revision of the view is to be asked for.
    Revision,
    /// The owners that no analyzer stands for any more are to be asked for.
    Obsolete(i64),
    /// Whether the next revision differs from the one before is to be asked.
    Compare(i64, u8),
    /// Something else is published.
    Outdated,
    /// All is done.
    Done,
}

/// What is run first: the inputs of the revision are removed.
pub open spec fn inputs_cleared(view: Seq<char>) -> Seq<CommandModel> {
    seq![view_bound(CLEAR_ENRICHMENT_INPUTS@, view), view_bound(CLEAR_CONTEXTS@, view)]
}

/// What begins the next revision, without what some owners contributed.
pub open spec fn copied_without(view: Seq<char>, owners: Seq<Seq<char>>, previous: int) -> Seq<CommandModel> {
    revision_copied(view, previous, previous + 1) + concat_map(owners, |owner: Seq<char>| retracted(view, owner, previous + 1))
}

/// What makes the next revision, without what some owners contributed. The owners are forgotten.
pub open spec fn without_owners(view: Seq<char>, owners: Seq<Seq<char>>, previous: int) -> Seq<CommandModel> {
    copied_without(view, owners, previous) + owners_removed(view, owners) + materialized(view, previous + 1)
}

/// What makes the next revision from the contributions that count for it; some owners
/// contributed what does not.
pub open spec fn without_refused(view: Seq<char>, owners: Seq<Seq<char>>, previous: int) -> Seq<CommandModel> {
    copied_without(view, owners, previous) + materialized(view, previous + 1)
}

/// What is to be asked next.
pub open spec fn reconciliation_asked(view: Seq<char>, stage: ReconciliationStage) -> Option<CommandModel> {
    match stage {
        ReconciliationStage::Fingerprint => Some(view_bound(FINGERPRINT@, view)),
        ReconciliationStage::Revision => Some(view_bound(ANALYSIS_REVISION@, view)),
        ReconciliationStage::Obsolete(_) => Some(view_bound(OBSOLETE_OWNERS@, view)),
        ReconciliationStage::Compare(previous, i) => Some(comparison(i as int, view, previous as int, previous + 1)),
        _ => None,
    }
}

/// How far the reconciliation is after an answer, and what is to be run then.
pub open spec fn reconciled(view: WorkspaceView, stage: ReconciliationStage, rows: Seq<Vec<InspectionValue>>) -> Result<
    (ReconciliationStage, Seq<CommandModel>),
    Seq<char>,
> {
    let name = view.name@;
    match stage {
        ReconciliationStage::Fingerprint => Ok(
            if first_text(rows) == Some(view.fingerprint@) {
                (ReconciliationStage::Revision, inputs_cleared(name))
            } else {
                (ReconciliationStage::Outdated, Seq::empty())
            },
        ),
        ReconciliationStage::Revision => match first_integer(rows) {
            Some(revision) => Ok((ReconciliationStage::Obsolete(revision as i64), inputs_stored(view, revision))),
            None => Err("published analysis revision is missing"@),
        },
        ReconciliationStage::Obsolete(previous) => match first_column(rows, OWNER_NOT_A_STRING@, rows.len() as int) {
            Err(message) => Err(message),
            Ok(owners) => Ok(
                if owners.len() == 0 {
                    (ReconciliationStage::Done, Seq::empty())
                } else {
                    (ReconciliationStage::Compare(previous, 0), without_owners(name, owners, previous as int))
                },
            ),
        },
        ReconciliationStage::Compare(previous, i) => Ok(
            if rows.len() > 0 {
                (ReconciliationStage::Done, seq![revision_bound(PUT_REVISION@, name, previous + 1)])
            } else if i + 1 >= COMPARISONS {
                (ReconciliationStage::Done, revision_removed(name, previous + 1))
            } else {
                (ReconciliationStage::Compare(previous, (i + 1) as u8), Seq::empty())
            },
        ),
        _ => Ok((stage, Seq::empty())),
    }
}

/// Whether there can be a revision after the one that the view shows.
pub open spec fn can_be_followed(stage: ReconciliationStage) -> bool {
    match stage {
        ReconciliationStage::Obsolete(previous) => previous < i64::MAX,
        ReconciliationStage::Compare(previous, _) => previous < i64::MAX,
        _ => true,
    }
}

/// Tells whether there can be a revision after the one that the view shows.
pub fn is_followed(stage: ReconciliationStage) -> (r: bool)
    ensures
        r == can_be_followed(stage),
{
    match stage {
        ReconciliationStage::Obsolete(previous) => previous < i64::MAX,
        ReconciliationStage::Compare(previous, _) => previous < i64::MAX,
        _ => true,
    }
}

/// Tells what is to be asked next; without a question all is done.
pub fn reconciliation_question(view: &str, stage: ReconciliationStage) -> (r: Option<Command>)
    requires
        can_be_followed(stage),
    ensures
        r is Some <==> reconciliation_asked(view@, stage) is Some,
        r is Some ==> r->0@ == reconciliation_asked(view@, stage)->0,
{
    match stage {
        ReconciliationStage::Fingerprint => Some(view_command(FINGERPRINT, view)),
        ReconciliationStage::Revision => Some(view_command(ANALYSIS_REVISION, view)),
        ReconciliationStage::Obsolete(_) => Some(ask_obsolete_owners(view)),
        ReconciliationStage::Compare(previous, i) => Some(ask_comparison(i, view, previous, previous + 1)),
        _ => None,
    }
}

fn copy_without(view: &str, owners: &Vec<String>, previous: i64) -> (r: Vec<Command>)
    requires
        previous < i64::MAX,
    ensures
        command_models(r@) == copied_without(view@, texts(owners@), previous as int),
{
    let revision: i64 = previous + 1;
    let ghost names = texts(owners@);
    let ghost piece = |owner: Seq<char>| retracted(view@, owner, revision as int);
    let mut commands: Vec<Command> = copy_revision(view, previous, revision);
    let ghost copied = command_models(commands@);
    let mut i: usize = 0;
    assert(copied + concat_map(names.take(0), piece) =~= copied);
    while i < owners.len()
        invariant
            i <= owners@.len(),
            names == texts(owners@),
            piece == (|owner: Seq<char>| retracted(view@, owner, revision as int)),
            command_models(commands@) == copied + concat_map(names.take(i as int), piece),
        decreases owners@.len() - i,
    {
        add_all(&mut commands, remove_owner_contribution_keys(view, owners[i].as_str(), revision));
        proof {
            concat_map_step(names, i as int, piece);
            assert(names[i as int] == owners@[i as int]@);
            assert(command_models(commands@) =~= copied + concat_map(names.take(i as int + 1), piece));
        }
        i = i + 1;
    }
    assert(names.take(names.len() as int) =~= names);
    commands
}

/// Takes back what some owners contributed: the next revision is made without it.
pub fn reconcile_obsolete_enrichments(view: &str, owners: &Vec<String>, previous: i64) -> (r: Vec<Command>)
    requires
        previous < i64::MAX,
    ensures
        command_models(r@) == without_owners(view@, texts(owners@), previous as int),
{
    let mut commands: Vec<Command> = copy_without(view, owners, previous);
    add_all(&mut commands, remove_enrichment_state(view, owners));
    add_all(&mut commands, materialize_enrichment_contributions(view, previous + 1));
    commands
}

/// Makes the next revision from the contributions that count for it.
pub fn rebuild_revision(view: &str, refused: &Vec<String>, previous: i64) -> (r: Vec<Command>)
    requires
        previous < i64::MAX,
    ensures
        command_models(r@) == without_refused(view@, texts(refused@), previous as int),
{
    let mut commands: Vec<Command> = copy_without(view, refused, previous);
    add_all(&mut commands, materialize_enrichment_contributions(view, previous + 1));
    commands
}

/// Takes in the answer to what was asked, and tells what is to be run now.
pub fn ensure_revision_inputs(view: &WorkspaceView, stage: ReconciliationStage, answer: &InspectionResult) -> (r: Result<
    (ReconciliationStage, Vec<Command>),
    String,
>)
    requires
        gives_inputs(*view),
        can_be_followed(stage),
    ensures
        r is Ok <==> reconciled(*view, stage, answer.rows@) is Ok,
        r is Err ==> r->Err_0@ == reconciled(*view, stage, answer.rows@)->Err_0,
        r is Ok ==> (r->Ok_0).0 == (reconciled(*view, stage, answer.rows@)->Ok_0).0 && command_models((r->Ok_0).1@) == (reconciled(
            *view,
            stage,
            answer.rows@,
        )->Ok_0).1,
{
    let name: &str = view.name.as_str();
    let mut run: Vec<Command> = Vec::new();
    assert(command_models(run@) =~= Seq::empty());
    match stage {
        ReconciliationStage::Fingerprint => {
            let published: bool = match first_text_of(&answer.rows) {
                Some(found) => same(found, view.fingerprint.as_str()),
                None => false,
            };
            if published {
                run.push(view_command(CLEAR_ENRICHMENT_INPUTS, name));
                run.push(view_command(CLEAR_CONTEXTS, name));
                assert(command_models(run@) =~= inputs_cleared(view.name@));
                Ok((ReconciliationStage::Revision, run))
            } else {
                Ok((ReconciliationStage::Outdated, run))
            }
        },
        ReconciliationStage::Revision => {
            match first_integer_of(&answer.rows) {
                Some(revision) => Ok((ReconciliationStage::Obsolete(revision), store_revision_inputs(view, revision))),
                None => Err("published analysis revision is missing".to_owned()),
            }
        },
        ReconciliationStage::Obsolete(previous) => {
            match decode_first_column(&answer.rows, OWNER_NOT_A_STRING) {
                Ok(owners) => {
                    assert(texts(owners@).len() == owners@.len());
                    if owners.len() == 0 {
                        Ok((ReconciliationStage::Done, run))
                    } else {
                        Ok((ReconciliationStage::Compare(previous, 0), reconcile_obsolete_enrichments(name, &owners, previous)))
                    }
                },
                Err(message) => Err(message),
            }
        },
        ReconciliationStage::Compare(previous, i) => {
            if answer.rows.len() > 0 {
                run.push(revision_command(PUT_REVISION, name, previous + 1));
                assert(command_models(run@) =~= seq![revision_bound(PUT_REVISION@, view.name@, previous + 1)]);
                Ok((ReconciliationStage::Done, run))
            } else if i >= COMPARISONS - 1 {
                Ok((ReconciliationStage::Done, remove_revision_candidate(name, previous + 1)))
            } else {
                Ok((ReconciliationStage::Compare(previous, i + 1), run))
            }
        },
        _ => Ok((stage, run)),
    }
}

/// Where nothing is obsolete, no revision is made.
pub proof fn nothing_obsolete_makes_no_revision(view: WorkspaceView, revision: i64)
    ensures
        reconciled(view, ReconciliationStage::Obsolete(revision), Seq::empty()) == Ok::<
            (ReconciliationStage, Seq<CommandModel>),
            Seq<char>,
        >((ReconciliationStage::Done, Seq::empty())),
{
    assert(first_column(Seq::empty(), OWNER_NOT_A_STRING@, 0) == Ok::<Seq<Seq<char>>, Seq<char>>(Seq::empty()));
}

} // verus!
