//! Publishing a view: the questions that decide what is written, and what is written.

use crate::baseline::{
    baseline_fingerprint, baseline_name, fingerprint_bound, fingerprint_command, override_models, replace_baseline_snapshot,
    snapshot_replaced,
};
use crate::changes::{
    ask_effective, decode_shown, effective_script, evidence_of, next_observations, observation_changes, shown, shown_next, Shown,
    ShownMap,
};
use crate::command::{texts_bound, view_bound, view_command, Command, CommandModel};
use crate::enrichment::{
    ask_comparison, ask_obsolete_owners, ask_of_valid_owners, comparison, decode_first_column, first_column, materialize_enrichment_contributions,
    materialized, owners_removed, retracted, revision_copied, remove_enrichment_state, remove_revision_candidate, revision_bound, revision_command,
    revision_removed, COMPARISONS, OWNER_NOT_A_STRING,
};
use crate::grpc::{first_integer, first_integer_of, resolution, resolution_stored, resolve_grpc_bindings, store_resolution, GrpcResolution};
use crate::manifest::{
    gives_inputs, heads_noted, inputs_stored, metadata_stored, overrides_stored, states_shown, store_analysis_metadata, store_heads,
    store_overrides, store_repository_states, store_revision_inputs,
};
use crate::normal::{analyzed_name, analyzed_state};
use crate::reconciliation::{inputs_cleared, rebuild_revision, without_refused};
use crate::records::{
    command_models, DependencyOverride, FactChanges, FactShard, RepositoryFacts, RepositoryState, StateOf, WorkspaceView,
};
use crate::revisions::{
    ask_selected_state, ask_stored_candidates, ask_stored_entities, ask_stored_observations, first_text, first_text_of, holds_facts,
    may_be_reused, reusable_current_state, state_bound, state_to_reuse,
};
use crate::rows::{InspectionResult, InspectionValue};
use crate::scripts::{Rules, ANALYSIS_REVISION};
use crate::seqs::{concat_map, keep, keep_step};
use crate::shards::{
    any_shard, ask_shards, dropped, is_selected, observed_in, replace_fact_shards, selection, selects_exactly, shard_key, shards_error,
    shards_published, written_unless_selected,
};
use crate::sorted::texts;
use crate::step::add_all;
use crate::text::same;
use crate::write_scripts::{
    BASELINE_FINGERPRINT, BASELINE_SHOWN, CLEAR_CONTEXTS, CLEAR_ENRICHMENT_INPUTS, DANGLING_ENTITIES, NEXT_REVISION, OBSOLETE_OWNERS,
    OWNERS, PUT_BASELINE_FINGERPRINT, PUT_FINGERPRINT, PUT_REVISION, PUT_VERIFICATION, REFUSED_OWNERS, REMOVE_VERIFICATION,
    SELECTED_STATE, SHARD_SELECTION, STATE_STORED, STORED_CANDIDATES, STORED_ENTITIES, STORED_OBSERVATIONS, VALID_OWNERS,
    VERIFICATION_MATCHES, VIEW_MATCHES,
};
use crate::writes::{ask_state, facts_stored, store_facts};
use vstd::prelude::*;

verus! {

/// What is to be published. Of a publication in shards, the changes of its shards are counted by
/// their owners, and those of its other observations one by one.
pub struct Publication {
    pub view: WorkspaceView,
    pub repositories: Vec<RepositoryFacts>,
    pub overrides: Vec<DependencyOverride>,
    pub fact_shards: Vec<FactShard>,
    pub verification_fingerprint: Option<String>,
    pub sharded: bool,
}

/// How many repositories are in a given state.
pub open spec fn in_state(repositories: Seq<RepositoryFacts>, state: StateOf) -> nat {
    keep(repositories, |facts: RepositoryFacts| facts.state@ == state).len()
}

/// Whether there are facts for the repository states of a view, for each of them exactly once.
pub open spec fn facts_match(view: WorkspaceView, repositories: Seq<RepositoryFacts>) -> bool {
    &&& forall|i: int| 0 <= i < repositories.len() ==> (#[trigger] repositories[i]).analysis_identity@.len() > 0
    &&& repositories.len() == view.repository_states@.len()
    &&& forall|i: int|
        0 <= i < view.repository_states@.len() ==> in_state(repositories, (#[trigger] view.repository_states@[i])@) == 1
}

fn same_optional(a: &Option<String>, b: &Option<String>) -> (r: bool)
    ensures
        r == (crate::domain::optional_text(*a) == crate::domain::optional_text(*b)),
{
    match (a, b) {
        (Some(a), Some(b)) => same(a.as_str(), b.as_str()),
        (None, None) => true,
        _ => false,
    }
}

fn same_state(a: &RepositoryState, b: &RepositoryState) -> (r: bool)
    ensures
        r == (a@ == b@),
{
    same(a.repository.identity.as_str(), b.repository.identity.as_str()) && same_optional(&a.head, &b.head) && same(
        a.fingerprint.as_str(),
        b.fingerprint.as_str(),
    )
}

fn count_in_state(repositories: &Vec<RepositoryFacts>, state: &RepositoryState) -> (r: usize)
    ensures
        r == in_state(repositories@, state@),
{
    let ghost wanted = |facts: RepositoryFacts| facts.state@ == state@;
    let mut count: usize = 0;
    let mut i: usize = 0;
    while i < repositories.len()
        invariant
            i <= repositories@.len(),
            wanted == (|facts: RepositoryFacts| facts.state@ == state@),
            count == keep(repositories@.take(i as int), wanted).len(),
            count <= i,
        decreases repositories@.len() - i,
    {
        proof {
            keep_step(repositories@, i as int, wanted);
        }
        if same_state(&repositories[i].state, state) {
            count = count + 1;
        }
        i = i + 1;
    }
    assert(repositories@.take(repositories@.len() as int) =~= repositories@);
    count
}

/// Tells whether there are facts for the repository states of a view.
pub fn facts_match_view(view: &WorkspaceView, repositories: &Vec<RepositoryFacts>) -> (r: bool)
    ensures
        r == facts_match(*view, repositories@),
{
    let mut i: usize = 0;
    while i < repositories.len()
        invariant
            i <= repositories@.len(),
            forall|k: int| 0 <= k < i ==> (#[trigger] repositories@[k]).analysis_identity@.len() > 0,
        decreases repositories@.len() - i,
    {
        if repositories[i].analysis_identity.as_str().unicode_len() == 0 {
            return false;
        }
        i = i + 1;
    }
    if repositories.len() != view.repository_states.len() {
        return false;
    }
    let mut j: usize = 0;
    while j < view.repository_states.len()
        invariant
            j <= view.repository_states@.len(),
            forall|k: int| 0 <= k < j ==> in_state(repositories@, (#[trigger] view.repository_states@[k])@) == 1,
        decreases view.repository_states@.len() - j,
    {
        if count_in_state(repositories, &view.repository_states[j]) != 1 {
            return false;
        }
        j = j + 1;
    }
    true
}

/// How far a publication is.
#[derive(Clone, Copy, PartialEq, Eq, Structural, Debug)]
pub enum PublicationStage {
    /// What the view shows is to be asked for; of a publication in shards, what it shows apart
    /// from them.
    Effective,
    /// The shards that the view selects are to be asked for.
    Shards,
    /// Whether the baseline is the one that is published is to be asked, where no shard changes.
    Known,
    /// The revision that goes on to be shown is to be asked for.
    Kept,
    /// Whether owners go on to use what no analyzer stands for any more is to be asked.
    Used(i64),
    /// Whether any owner contributed to the view is to be asked.
    Enriched(i64),
    /// The owners whose contributions do not count any more are to be asked for, where a revision
    /// goes on to be shown.
    Outgrown(i64),
    /// Whether a revision of the contributions that count differs from the one before is to be
    /// asked.
    Compare(i64, u8),
    /// Whether the state of a repository is stored is to be asked.
    Stored,
    /// The state of a repository that the view shows is to be asked for.
    Selected,
    /// The observations in that state are to be asked for.
    Observations,
    /// The entities in that state are to be asked for.
    Entities,
    /// The candidates for bindings in that state are to be asked for.
    Candidates,
    /// The revision that the view has now is to be asked for.
    Revision,
    /// The fingerprint of the baseline is to be asked for.
    Baseline(i64),
    /// The owners that no analyzer stands for any more are to be asked for.
    Obsolete,
    /// All is done.
    Done,
}

/// A publication under way: what it changes, and in which states the first repositories are.
/// Of the next repository it holds the state that the view shows, and what is stored of it.
pub struct PublicationProgress {
    pub stage: PublicationStage,
    pub changes: FactChanges,
    pub states: Vec<String>,
    pub reuse: String,
    pub observations: InspectionResult,
    pub entities: InspectionResult,
    pub resolution: GrpcResolution,
    pub baseline: String,
}

/// The content of a [`PublicationProgress`].
pub ghost struct ProgressModel {
    pub stage: PublicationStage,
    pub changes: FactChanges,
    pub states: Seq<Seq<char>>,
    pub reuse: Seq<char>,
    pub observations: Seq<Vec<InspectionValue>>,
    pub entities: Seq<Vec<InspectionValue>>,
}

impl View for PublicationProgress {
    type V = ProgressModel;

    open spec fn view(&self) -> ProgressModel {
        ProgressModel {
            stage: self.stage,
            changes: self.changes,
            states: texts(self.states@),
            reuse: self.reuse@,
            observations: self.observations.rows@,
            entities: self.entities.rows@,
        }
    }
}

/// What a publication of shards changes, see `shard_changes` of the shards.
pub open spec fn shards_counted(current: Map<Seq<Seq<char>>, Seq<char>>, shards: Seq<FactShard>) -> FactChanges {
    FactChanges {
        inserted: observed_in(shards, |shard: FactShard| !current.contains_key(shard_key(shard))) as usize,
        updated: observed_in(
            shards,
            |shard: FactShard| current.contains_key(shard_key(shard)) && !is_selected(current, shard),
        ) as usize,
        removed: dropped(current, shards).len() as usize,
        unchanged: observed_in(shards, |shard: FactShard| is_selected(current, shard)) as usize,
    }
}

/// Two numbers together, as far as they can be counted.
pub open spec fn sum_of(a: usize, b: usize) -> usize {
    if a + b <= usize::MAX {
        (a + b) as usize
    } else {
        usize::MAX
    }
}

/// Changes counted together.
pub open spec fn together(a: FactChanges, b: FactChanges) -> FactChanges {
    FactChanges {
        inserted: sum_of(a.inserted, b.inserted),
        updated: sum_of(a.updated, b.updated),
        removed: sum_of(a.removed, b.removed),
        unchanged: sum_of(a.unchanged, b.unchanged),
    }
}

fn add_counts(a: usize, b: usize) -> (r: usize)
    ensures
        r == sum_of(a, b),
{
    match a.checked_add(b) {
        Some(sum) => sum,
        None => usize::MAX,
    }
}

fn count_together(a: &FactChanges, b: &FactChanges) -> (r: FactChanges)
    ensures
        r == together(*a, *b),
{
    FactChanges {
        inserted: add_counts(a.inserted, b.inserted),
        updated: add_counts(a.updated, b.updated),
        removed: add_counts(a.removed, b.removed),
        unchanged: add_counts(a.unchanged, b.unchanged),
    }
}

/// What changes from what is shown to what is shown next.
pub open spec fn difference(current: Shown, next: Shown) -> FactChanges {
    FactChanges {
        inserted: next.dom().filter(|key: Seq<Seq<char>>| !current.contains_key(key)).len() as usize,
        updated: next.dom().filter(|key: Seq<Seq<char>>| current.contains_key(key) && current[key] != next[key]).len() as usize,
        removed: current.dom().filter(|key: Seq<Seq<char>>| !next.contains_key(key)).len() as usize,
        unchanged: next.dom().filter(|key: Seq<Seq<char>>| current.contains_key(key) && current[key] == next[key]).len() as usize,
    }
}

impl Publication {
    /// Whether the publication can be counted and its inputs are given.
    pub open spec fn wf(&self) -> bool {
        &&& gives_inputs(self.view)
        &&& observed_in(self.fact_shards@, any_shard()) <= usize::MAX
    }

    /// What the view shows next.
    pub open spec fn next_shown(&self) -> Shown {
        shown_next(
            self.repositories@,
            resolution(self.repositories@).observations,
            self.fact_shards@,
            override_models(self.overrides@),
        )
    }

    /// What the view shows next of what is not in shards.
    pub open spec fn next_shown_apart(&self) -> Shown {
        shown_next(
            self.repositories@,
            resolution(self.repositories@).observations,
            Seq::empty(),
            override_models(self.overrides@),
        )
    }

    /// The observations that are counted one by one.
    pub open spec fn next_counted(&self) -> Shown {
        if self.sharded {
            self.next_shown_apart()
        } else {
            self.next_shown()
        }
    }

    /// The fingerprint of the baseline.
    pub open spec fn baseline_named(&self) -> Seq<char> {
        baseline_name(self.repositories@, resolution(self.repositories@), override_models(self.overrides@))
    }

    /// What notes that the publication was verified, or that it was not.
    pub open spec fn verification(&self) -> CommandModel {
        match self.verification_fingerprint {
            Some(fingerprint) => fingerprint_bound(PUT_VERIFICATION@, self.view.name@, fingerprint@),
            None => view_bound(REMOVE_VERIFICATION@, self.view.name@),
        }
    }

    /// What begins the next revision of the view, once all repository states are there.
    pub open spec fn begun(&self, states: Seq<Seq<char>>) -> Seq<CommandModel> {
        let name = self.view.name@;
        seq![
            fingerprint_bound(NEXT_REVISION@, name, self.view.fingerprint@),
            fingerprint_bound(PUT_FINGERPRINT@, name, self.view.fingerprint@),
            self.verification(),
        ] + states_shown(name, self.repositories@, states)
    }

    /// Goes on after the state of a repository is decided: to the next repository, or to the next
    /// revision.
    pub open spec fn decided(&self, model: ProgressModel, state: Seq<char>) -> (ProgressModel, Seq<CommandModel>) {
        self.entered(ProgressModel { states: model.states.push(state), ..model })
    }

    /// Goes on to the next repository, or to the next revision.
    pub open spec fn entered(&self, model: ProgressModel) -> (ProgressModel, Seq<CommandModel>) {
        if model.states.len() < self.repositories@.len() {
            (ProgressModel { stage: PublicationStage::Stored, ..model }, Seq::empty())
        } else {
            (ProgressModel { stage: PublicationStage::Revision, ..model }, self.begun(model.states))
        }
    }

    /// Goes on after the facts of a repository are to be stored.
    pub open spec fn stored_anew(&self, model: ProgressModel) -> (ProgressModel, Seq<CommandModel>) {
        let facts = self.repositories@[model.states.len() as int];
        let (next, run) = self.decided(model, analyzed_name(facts));
        (next, facts_stored(analyzed_name(facts), facts) + run)
    }

    /// What is written of the next revision.
    pub open spec fn written(&self, revision: int) -> Seq<CommandModel> {
        let name = self.view.name@;
        inputs_stored(self.view, revision) + metadata_stored(name, revision, self.repositories@) + resolution_stored(
            name,
            revision,
            resolution(self.repositories@),
        ) + overrides_stored(name, override_models(self.overrides@))
    }

    /// What takes the baseline anew if it changed.
    pub open spec fn rebased(&self, stored: Option<Seq<char>>) -> Seq<CommandModel> {
        if stored == Some(self.baseline_named()) {
            Seq::empty()
        } else {
            snapshot_replaced(self.view.name@).push(
                fingerprint_bound(PUT_BASELINE_FINGERPRINT@, self.view.name@, self.baseline_named()),
            )
        }
    }

    /// What the publication changes, given what its observations change and the shards that the
    /// view has selected so far.
    pub open spec fn counted(&self, changes: FactChanges, current: Map<Seq<Seq<char>>, Seq<char>>) -> FactChanges {
        if self.sharded {
            together(changes, shards_counted(current, self.fact_shards@))
        } else {
            changes
        }
    }

    /// What is run where a revision goes on to be shown: it is noted what it stands for now.
    pub open spec fn refreshed(&self, revision: int) -> Seq<CommandModel> {
        let name = self.view.name@;
        seq![
            fingerprint_bound(PUT_FINGERPRINT@, name, self.view.fingerprint@),
            self.verification(),
            heads_noted(name, revision, self.repositories@),
        ] + inputs_cleared(name) + inputs_stored(self.view, revision) + metadata_stored(name, revision, self.repositories@)
    }

    /// What is to be asked next.
    pub open spec fn asked(&self, rules: Rules, model: ProgressModel) -> Option<CommandModel> {
        let name = self.view.name@;
        let facts = self.repositories@[model.states.len() as int];
        match model.stage {
            PublicationStage::Effective => Some(
                view_bound(
                    if self.sharded {
                        BASELINE_SHOWN@
                    } else {
                        effective_script(rules.direct@)
                    },
                    name,
                ),
            ),
            PublicationStage::Shards => Some(view_bound(SHARD_SELECTION@, name)),
            PublicationStage::Known => Some(view_bound(BASELINE_FINGERPRINT@, name)),
            PublicationStage::Kept => Some(view_bound(ANALYSIS_REVISION@, name)),
            PublicationStage::Used(revision) => Some(revision_bound(VALID_OWNERS@ + DANGLING_ENTITIES@, name, revision as int)),
            PublicationStage::Enriched(_) => Some(view_bound(OWNERS@, name)),
            PublicationStage::Outgrown(revision) => Some(revision_bound(VALID_OWNERS@ + REFUSED_OWNERS@, name, revision as int)),
            PublicationStage::Compare(previous, i) => Some(comparison(i as int, name, previous as int, previous + 1)),
            PublicationStage::Stored => Some(texts_bound(STATE_STORED@, seq![("state"@, analyzed_name(facts))])),
            PublicationStage::Selected => Some(
                texts_bound(SELECTED_STATE@, seq![("view"@, name), ("repository"@, facts.state@.repository)]),
            ),
            PublicationStage::Observations => Some(state_bound(STORED_OBSERVATIONS@, model.reuse)),
            PublicationStage::Entities => Some(state_bound(STORED_ENTITIES@, model.reuse)),
            PublicationStage::Candidates => Some(state_bound(STORED_CANDIDATES@, model.reuse)),
            PublicationStage::Revision => Some(view_bound(ANALYSIS_REVISION@, name)),
            PublicationStage::Baseline(_) => Some(view_bound(BASELINE_FINGERPRINT@, name)),
            PublicationStage::Obsolete => Some(view_bound(OBSOLETE_OWNERS@, name)),
            PublicationStage::Done => None,
        }
    }

    /// How far the publication is after an answer, and what is to be run then.
    pub open spec fn after(&self, model: ProgressModel, rows: Seq<Vec<InspectionValue>>) -> Result<
        (ProgressModel, Seq<CommandModel>),
        Seq<char>,
    > {
        let name = self.view.name@;
        let n = rows.len() as int;
        let facts = self.repositories@[model.states.len() as int];
        match model.stage {
            PublicationStage::Effective => match shown(rows, n) {
                Err(message) => Err(message),
                Ok(current) => Ok(
                    (
                        ProgressModel {
                            stage: PublicationStage::Shards,
                            changes: difference(current, self.next_counted()),
                            ..model
                        },
                        Seq::empty(),
                    ),
                ),
            },
            PublicationStage::Shards => match shards_error(self.fact_shards@) {
                Some(message) => Err(message),
                None => match selection(rows, n) {
                    Err(message) => Err(message),
                    Ok(current) => {
                        let counted = ProgressModel { changes: self.counted(model.changes, current), ..model };
                        if self.sharded && selects_exactly(current, self.fact_shards@) {
                            Ok((ProgressModel { stage: PublicationStage::Known, ..counted }, Seq::empty()))
                        } else {
                            let (next, run) = self.entered(counted);
                            Ok((next, shards_published(name, current, self.fact_shards@) + run))
                        }
                    },
                },
            },
            PublicationStage::Known => Ok(
                if first_text(rows) == Some(self.baseline_named()) {
                    (ProgressModel { stage: PublicationStage::Kept, ..model }, Seq::empty())
                } else {
                    self.entered(model)
                },
            ),
            PublicationStage::Kept => Ok(
                match first_integer(rows) {
                    Some(revision) => if revision < i64::MAX {
                        (ProgressModel { stage: PublicationStage::Used(revision as i64), ..model }, self.refreshed(revision))
                    } else {
                        self.entered(model)
                    },
                    None => self.entered(model),
                },
            ),
            PublicationStage::Used(revision) => if rows.len() > 0 {
                Err("retained enrichments refer to entities of obsolete enrichments"@)
            } else {
                Ok((ProgressModel { stage: PublicationStage::Enriched(revision), ..model }, Seq::empty()))
            },
            PublicationStage::Enriched(revision) => Ok(
                if rows.len() == 0 {
                    (ProgressModel { stage: PublicationStage::Done, ..model }, Seq::empty())
                } else {
                    (ProgressModel { stage: PublicationStage::Outgrown(revision), ..model }, Seq::empty())
                },
            ),
            PublicationStage::Outgrown(previous) => match first_column(rows, OWNER_NOT_A_STRING@, n) {
                Err(message) => Err(message),
                Ok(owners) => Ok(
                    (
                        ProgressModel { stage: PublicationStage::Compare(previous, 0), ..model },
                        without_refused(name, owners, previous as int),
                    ),
                ),
            },
            PublicationStage::Compare(previous, i) => Ok(
                if rows.len() > 0 {
                    (
                        ProgressModel { stage: PublicationStage::Obsolete, ..model },
                        seq![revision_bound(PUT_REVISION@, name, previous + 1)],
                    )
                } else if i + 1 >= COMPARISONS {
                    (ProgressModel { stage: PublicationStage::Obsolete, ..model }, revision_removed(name, previous + 1))
                } else {
                    (
                        ProgressModel { stage: PublicationStage::Compare(previous, (i + 1) as u8), ..model },
                        Seq::empty(),
                    )
                },
            ),
            PublicationStage::Stored => Ok(
                if n > 0 {
                    self.decided(model, analyzed_name(facts))
                } else {
                    (ProgressModel { stage: PublicationStage::Selected, ..model }, Seq::empty())
                },
            ),
            PublicationStage::Selected => Ok(
                match first_text(rows) {
                    Some(state) => if may_be_reused(state, facts.state@.fingerprint) {
                        (ProgressModel { stage: PublicationStage::Observations, reuse: state, ..model }, Seq::empty())
                    } else {
                        self.stored_anew(model)
                    },
                    None => self.stored_anew(model),
                },
            ),
            PublicationStage::Observations => Ok(
                (ProgressModel { stage: PublicationStage::Entities, observations: rows, ..model }, Seq::empty()),
            ),
            PublicationStage::Entities => Ok(
                (ProgressModel { stage: PublicationStage::Candidates, entities: rows, ..model }, Seq::empty()),
            ),
            PublicationStage::Candidates => match holds_facts(facts, model.observations, model.entities, rows) {
                Err(message) => Err(message),
                Ok(true) => Ok(self.decided(model, model.reuse)),
                Ok(false) => Ok(self.stored_anew(model)),
            },
            PublicationStage::Revision => match first_integer(rows) {
                None => Err("published analysis revision is missing"@),
                Some(revision) => Ok(
                    (
                        ProgressModel { stage: PublicationStage::Baseline(revision as i64), ..model },
                        self.written(revision),
                    ),
                ),
            },
            PublicationStage::Baseline(revision) => Ok(
                (
                    ProgressModel { stage: PublicationStage::Obsolete, ..model },
                    self.rebased(first_text(rows)) + materialized(name, revision as int),
                ),
            ),
            PublicationStage::Obsolete => match first_column(rows, OWNER_NOT_A_STRING@, n) {
                Err(message) => Err(message),
                Ok(owners) => Ok((ProgressModel { stage: PublicationStage::Done, ..model }, owners_removed(name, owners))),
            },
            PublicationStage::Done => Ok((model, Seq::empty())),
        }
    }
}

/// Whether a publication deals with a repository at a stage.
pub open spec fn at_repository(stage: PublicationStage) -> bool {
    stage is Stored || stage is Selected || stage is Observations || stage is Entities || stage is Candidates
}

/// Whether a publication has not come to its repositories yet.
pub open spec fn before_repositories(stage: PublicationStage) -> bool {
    stage is Effective || stage is Shards || stage is Known || stage is Kept
}

/// Whether a publication lets a revision go on to be shown.
pub open spec fn goes_on(stage: PublicationStage) -> bool {
    stage is Used || stage is Enriched || stage is Outgrown || stage is Compare
}

fn verify(publication: &Publication) -> (r: Command)
    ensures
        r@ == publication.verification(),
{
    match &publication.verification_fingerprint {
        Some(verified) => fingerprint_command(PUT_VERIFICATION, publication.view.name.as_str(), verified.as_str()),
        None => view_command(REMOVE_VERIFICATION, publication.view.name.as_str()),
    }
}

impl PublicationProgress {
    /// Whether the progress is one of a publication.
    pub open spec fn of(&self, publication: Publication) -> bool {
        &&& publication.wf()
        &&& self.resolution.wf()
        &&& self.resolution@ == resolution(publication.repositories@)
        &&& self.baseline@ == publication.baseline_named()
        &&& self.states@.len() <= publication.repositories@.len()
        &&& at_repository(self.stage) ==> self.states@.len() < publication.repositories@.len()
        &&& before_repositories(self.stage) ==> self.states@.len() == 0
        &&& self.stage matches PublicationStage::Used(revision) ==> revision < i64::MAX
        &&& self.stage matches PublicationStage::Enriched(revision) ==> revision < i64::MAX
        &&& self.stage matches PublicationStage::Outgrown(previous) ==> previous < i64::MAX
        &&& self.stage matches PublicationStage::Compare(previous, _) ==> previous < i64::MAX
    }

    /// Begins to publish.
    pub fn start(publication: &Publication) -> (r: Result<PublicationProgress, String>)
        requires
            publication.wf(),
        ensures
            r is Ok <==> facts_match(publication.view, publication.repositories@),
            r is Err ==> r->Err_0@ == "repository facts do not match the workspace view"@,
            r is Ok ==> r->Ok_0.of(*publication) && r->Ok_0@.stage == PublicationStage::Effective && r->Ok_0@.states.len() == 0,
    {
        if !facts_match_view(&publication.view, &publication.repositories) {
            return Err("repository facts do not match the workspace view".to_owned());
        }
        let resolution: GrpcResolution = resolve_grpc_bindings(&publication.repositories);
        let baseline: String = baseline_fingerprint(&publication.repositories, &resolution, &publication.overrides);
        Ok(
            PublicationProgress {
                stage: PublicationStage::Effective,
                changes: FactChanges { inserted: 0, updated: 0, removed: 0, unchanged: 0 },
                states: Vec::new(),
                reuse: String::new(),
                observations: InspectionResult { headers: Vec::new(), rows: Vec::new(), next: None },
                entities: InspectionResult { headers: Vec::new(), rows: Vec::new(), next: None },
                resolution,
                baseline,
            },
        )
    }

    /// Tells what is to be asked next; without a question all is done.
    pub fn question(&self, publication: &Publication, rules: &Rules) -> (r: Option<Command>)
        requires
            self.of(*publication),
        ensures
            r is Some <==> publication.asked(*rules, self@) is Some,
            r is Some ==> r->0@ == publication.asked(*rules, self@)->0,
    {
        let name: &str = publication.view.name.as_str();
        let at: usize = self.states.len();
        assert(texts(self.states@).len() == self.states@.len());
        match self.stage {
            PublicationStage::Effective => if publication.sharded {
                Some(view_command(BASELINE_SHOWN, name))
            } else {
                Some(ask_effective(rules, name))
            },
            PublicationStage::Shards => Some(ask_shards(name)),
            PublicationStage::Known => Some(view_command(BASELINE_FINGERPRINT, name)),
            PublicationStage::Kept => Some(view_command(ANALYSIS_REVISION, name)),
            PublicationStage::Used(revision) => Some(ask_of_valid_owners(DANGLING_ENTITIES, name, revision)),
            PublicationStage::Enriched(_) => Some(view_command(OWNERS, name)),
            PublicationStage::Outgrown(revision) => Some(ask_of_valid_owners(REFUSED_OWNERS, name, revision)),
            PublicationStage::Compare(previous, i) => Some(ask_comparison(i, name, previous, previous + 1)),
            PublicationStage::Stored => {
                let desired: String = analyzed_state(&publication.repositories[at]);
                Some(ask_state(desired.as_str()))
            },
            PublicationStage::Selected => Some(
                ask_selected_state(name, publication.repositories[at].state.repository.identity.as_str()),
            ),
            PublicationStage::Observations => Some(ask_stored_observations(self.reuse.as_str())),
            PublicationStage::Entities => Some(ask_stored_entities(self.reuse.as_str())),
            PublicationStage::Candidates => Some(ask_stored_candidates(self.reuse.as_str())),
            PublicationStage::Revision => Some(view_command(ANALYSIS_REVISION, name)),
            PublicationStage::Baseline(_) => Some(view_command(BASELINE_FINGERPRINT, name)),
            PublicationStage::Obsolete => Some(ask_obsolete_owners(name)),
            PublicationStage::Done => None,
        }
    }

    fn begin(&self, publication: &Publication) -> (r: Vec<Command>)
        requires
            self.states@.len() == publication.repositories@.len(),
        ensures
            command_models(r@) == publication.begun(texts(self.states@)),
    {
        let name: &str = publication.view.name.as_str();
        let fingerprint: &str = publication.view.fingerprint.as_str();
        let mut commands: Vec<Command> = Vec::new();
        commands.push(fingerprint_command(NEXT_REVISION, name, fingerprint));
        commands.push(fingerprint_command(PUT_FINGERPRINT, name, fingerprint));
        commands.push(verify(publication));
        proof {
            assert(command_models(commands@) =~= publication.begun(texts(self.states@)).take(3));
            assert(publication.begun(texts(self.states@)) =~= publication.begun(texts(self.states@)).take(3) + states_shown(
                publication.view.name@,
                publication.repositories@,
                texts(self.states@),
            ));
        }
        add_all(&mut commands, store_repository_states(name, &publication.repositories, &self.states));
        commands
    }

    fn enter(&mut self, publication: &Publication) -> (r: Vec<Command>)
        requires
            old(self).states@.len() <= publication.repositories@.len(),
        ensures
            final(self)@ == publication.entered(old(self)@).0,
            command_models(r@) == publication.entered(old(self)@).1,
            final(self).states == old(self).states,
            final(self).resolution == old(self).resolution,
            final(self).baseline == old(self).baseline,
    {
        assert(texts(self.states@).len() == self.states@.len());
        if self.states.len() < publication.repositories.len() {
            self.stage = PublicationStage::Stored;
            let none: Vec<Command> = Vec::new();
            assert(command_models(none@) =~= Seq::empty());
            none
        } else {
            self.stage = PublicationStage::Revision;
            self.begin(publication)
        }
    }

    fn decide(&mut self, publication: &Publication, state: String) -> (r: Vec<Command>)
        requires
            old(self).states@.len() < publication.repositories@.len(),
        ensures
            final(self)@ == publication.decided(old(self)@, state@).0,
            command_models(r@) == publication.decided(old(self)@, state@).1,
            final(self).states@.len() == old(self).states@.len() + 1,
            final(self).resolution == old(self).resolution,
            final(self).baseline == old(self).baseline,
    {
        let ghost before = *self;
        self.states.push(state);
        assert(texts(self.states@) =~= texts(before.states@).push(state@));
        self.enter(publication)
    }

    fn store_anew(&mut self, publication: &Publication) -> (r: Vec<Command>)
        requires
            old(self).states@.len() < publication.repositories@.len(),
        ensures
            final(self)@ == publication.stored_anew(old(self)@).0,
            command_models(r@) == publication.stored_anew(old(self)@).1,
            final(self).states@.len() == old(self).states@.len() + 1,
            final(self).resolution == old(self).resolution,
            final(self).baseline == old(self).baseline,
    {
        assert(texts(self.states@).len() == self.states@.len());
        let facts: &RepositoryFacts = &publication.repositories[self.states.len()];
        let desired: String = analyzed_state(facts);
        let mut commands: Vec<Command> = store_facts(desired.as_str(), facts);
        let more: Vec<Command> = self.decide(publication, desired);
        add_all(&mut commands, more);
        commands
    }

    fn write(&self, publication: &Publication, revision: i64) -> (r: Vec<Command>)
        requires
            self.of(*publication),
        ensures
            command_models(r@) == publication.written(revision as int),
    {
        let name: &str = publication.view.name.as_str();
        let mut commands: Vec<Command> = store_revision_inputs(&publication.view, revision);
        add_all(&mut commands, store_analysis_metadata(name, revision, &publication.repositories));
        add_all(&mut commands, store_resolution(name, revision, &self.resolution));
        add_all(&mut commands, store_overrides(name, &publication.overrides));
        commands
    }

    fn is_known(&self, answer: &InspectionResult) -> (r: bool)
        ensures
            r == (first_text(answer.rows@) == Some(self.baseline@)),
    {
        match first_text_of(&answer.rows) {
            Some(stored) => same(stored, self.baseline.as_str()),
            None => false,
        }
    }

    fn refresh(&self, publication: &Publication, revision: i64) -> (r: Vec<Command>)
        requires
            publication.wf(),
        ensures
            command_models(r@) == publication.refreshed(revision as int),
    {
        let name: &str = publication.view.name.as_str();
        let mut commands: Vec<Command> = Vec::new();
        commands.push(fingerprint_command(PUT_FINGERPRINT, name, publication.view.fingerprint.as_str()));
        commands.push(verify(publication));
        commands.push(store_heads(name, revision, &publication.repositories));
        commands.push(view_command(CLEAR_ENRICHMENT_INPUTS, name));
        commands.push(view_command(CLEAR_CONTEXTS, name));
        assert(command_models(commands@) =~= seq![
            fingerprint_bound(PUT_FINGERPRINT@, publication.view.name@, publication.view.fingerprint@),
            publication.verification(),
            heads_noted(publication.view.name@, revision as int, publication.repositories@),
        ] + inputs_cleared(publication.view.name@));
        add_all(&mut commands, store_revision_inputs(&publication.view, revision));
        add_all(&mut commands, store_analysis_metadata(name, revision, &publication.repositories));
        commands
    }

    fn rebase(&self, publication: &Publication, answer: &InspectionResult) -> (r: Vec<Command>)
        requires
            self.of(*publication),
        ensures
            command_models(r@) == publication.rebased(first_text(answer.rows@)),
    {
        let name: &str = publication.view.name.as_str();
        if self.is_known(answer) {
            let none: Vec<Command> = Vec::new();
            assert(command_models(none@) =~= Seq::empty());
            return none;
        }
        let mut commands: Vec<Command> = replace_baseline_snapshot(name);
        let ghost before = commands@;
        commands.push(fingerprint_command(PUT_BASELINE_FINGERPRINT, name, self.baseline.as_str()));
        assert(command_models(commands@) =~= command_models(before).push(
            fingerprint_bound(PUT_BASELINE_FINGERPRINT@, publication.view.name@, self.baseline@),
        ));
        commands
    }

    fn compare(&mut self, publication: &Publication, answer: &InspectionResult) -> (r: Result<(), String>)
        requires
            old(self).of(*publication),
        ensures
            r is Ok <==> shown(answer.rows@, answer.rows@.len() as int) is Ok,
            r is Err ==> r->Err_0@ == shown(answer.rows@, answer.rows@.len() as int)->Err_0,
            r is Ok ==> *final(self) == (PublicationProgress {
                changes: difference(shown(answer.rows@, answer.rows@.len() as int)->Ok_0, publication.next_counted()),
                ..*old(self)
            }),
            r is Err ==> *final(self) == *old(self),
    {
        let current: ShownMap = match decode_shown(&answer.rows) {
            Ok(current) => current,
            Err(message) => {
                return Err(message);
            },
        };
        let none: Vec<FactShard> = Vec::new();
        let counted: &Vec<FactShard> = if publication.sharded {
            &none
        } else {
            &publication.fact_shards
        };
        assert(none@ =~= Seq::empty());
        let next: ShownMap = next_observations(
            &publication.repositories,
            &self.resolution.observations,
            counted,
            &publication.overrides,
        );
        let changes: FactChanges = observation_changes(&current, &next);
        assert(changes == difference(evidence_of(current@), evidence_of(next@)));
        self.changes = changes;
        Ok(())
    }

    /// Takes in an answer before the publication comes to its repositories.
    fn receive_first(&mut self, publication: &Publication, answer: InspectionResult) -> (r: Result<Vec<Command>, String>)
        requires
            old(self).of(*publication),
            before_repositories(old(self).stage),
        ensures
            r is Ok <==> publication.after(old(self)@, answer.rows@) is Ok,
            r is Err ==> r->Err_0@ == publication.after(old(self)@, answer.rows@)->Err_0,
            r is Ok ==> {
                &&& final(self).of(*publication)
                &&& final(self)@ == (publication.after(old(self)@, answer.rows@)->Ok_0).0
                &&& command_models(r->Ok_0@) == (publication.after(old(self)@, answer.rows@)->Ok_0).1
            },
    {
        let name: &str = publication.view.name.as_str();
        let none: Vec<Command> = Vec::new();
        proof {
            assert(command_models(none@) =~= Seq::empty());
            assert(texts(self.states@).len() == self.states@.len());
        }
        match self.stage {
            PublicationStage::Effective => {
                match self.compare(publication, &answer) {
                    Ok(()) => {
                        self.stage = PublicationStage::Shards;
                        Ok(none)
                    },
                    Err(message) => Err(message),
                }
            },
            PublicationStage::Shards => {
                match replace_fact_shards(name, &publication.fact_shards, &answer) {
                    Ok((changes, written)) => {
                        let mut commands: Vec<Command> = written;
                        proof {
                            let current = selection(answer.rows@, answer.rows@.len() as int)->Ok_0;
                            assert(changes == shards_counted(current, publication.fact_shards@));
                            written_unless_selected(publication.view.name@, current, publication.fact_shards@);
                            assert(command_models(commands@).len() == commands@.len());
                        }
                        if publication.sharded {
                            self.changes = count_together(&self.changes, &changes);
                            if commands.len() == 0 {
                                self.stage = PublicationStage::Known;
                                return Ok(none);
                            }
                        }
                        let more: Vec<Command> = self.enter(publication);
                        add_all(&mut commands, more);
                        Ok(commands)
                    },
                    Err(message) => Err(message),
                }
            },
            PublicationStage::Known => {
                if self.is_known(&answer) {
                    self.stage = PublicationStage::Kept;
                    Ok(none)
                } else {
                    Ok(self.enter(publication))
                }
            },
            PublicationStage::Kept => {
                match first_integer_of(&answer.rows) {
                    Some(revision) => {
                        if revision < i64::MAX {
                            self.stage = PublicationStage::Used(revision);
                            Ok(self.refresh(publication, revision))
                        } else {
                            Ok(self.enter(publication))
                        }
                    },
                    None => Ok(self.enter(publication)),
                }
            },
            _ => Ok(none),
        }
    }

    /// Takes in an answer about the state of a repository.
    fn receive_of_repository(&mut self, publication: &Publication, answer: InspectionResult) -> (r: Result<Vec<Command>, String>)
        requires
            old(self).of(*publication),
            at_repository(old(self).stage),
        ensures
            r is Ok <==> publication.after(old(self)@, answer.rows@) is Ok,
            r is Err ==> r->Err_0@ == publication.after(old(self)@, answer.rows@)->Err_0,
            r is Ok ==> {
                &&& final(self).of(*publication)
                &&& final(self)@ == (publication.after(old(self)@, answer.rows@)->Ok_0).0
                &&& command_models(r->Ok_0@) == (publication.after(old(self)@, answer.rows@)->Ok_0).1
            },
    {
        let none: Vec<Command> = Vec::new();
        proof {
            assert(command_models(none@) =~= Seq::empty());
            assert(texts(self.states@).len() == self.states@.len());
        }
        match self.stage {
            PublicationStage::Stored => {
                if answer.rows.len() > 0 {
                    let desired: String = analyzed_state(&publication.repositories[self.states.len()]);
                    Ok(self.decide(publication, desired))
                } else {
                    self.stage = PublicationStage::Selected;
                    Ok(none)
                }
            },
            PublicationStage::Selected => {
                match state_to_reuse(&publication.repositories[self.states.len()], &answer) {
                    Some(state) => {
                        self.reuse = state;
                        self.stage = PublicationStage::Observations;
                        Ok(none)
                    },
                    None => Ok(self.store_anew(publication)),
                }
            },
            PublicationStage::Observations => {
                self.observations = answer;
                self.stage = PublicationStage::Entities;
                Ok(none)
            },
            PublicationStage::Entities => {
                self.entities = answer;
                self.stage = PublicationStage::Candidates;
                Ok(none)
            },
            PublicationStage::Candidates => {
                match reusable_current_state(
                    &publication.repositories[self.states.len()],
                    &self.observations,
                    &self.entities,
                    &answer,
                ) {
                    Ok(true) => {
                        let state: String = self.reuse.clone();
                        Ok(self.decide(publication, state))
                    },
                    Ok(false) => Ok(self.store_anew(publication)),
                    Err(message) => Err(message),
                }
            },
            _ => Ok(none),
        }
    }

    /// Takes in an answer where a revision goes on to be shown.
    fn receive_of_kept(&mut self, publication: &Publication, answer: InspectionResult) -> (r: Result<Vec<Command>, String>)
        requires
            old(self).of(*publication),
            goes_on(old(self).stage),
        ensures
            r is Ok <==> publication.after(old(self)@, answer.rows@) is Ok,
            r is Err ==> r->Err_0@ == publication.after(old(self)@, answer.rows@)->Err_0,
            r is Ok ==> {
                &&& final(self).of(*publication)
                &&& final(self)@ == (publication.after(old(self)@, answer.rows@)->Ok_0).0
                &&& command_models(r->Ok_0@) == (publication.after(old(self)@, answer.rows@)->Ok_0).1
            },
    {
        let name: &str = publication.view.name.as_str();
        let none: Vec<Command> = Vec::new();
        proof {
            assert(command_models(none@) =~= Seq::empty());
            assert(texts(self.states@).len() == self.states@.len());
        }
        match self.stage {
            PublicationStage::Used(revision) => {
                if answer.rows.len() > 0 {
                    return Err("retained enrichments refer to entities of obsolete enrichments".to_owned());
                }
                self.stage = PublicationStage::Enriched(revision);
                Ok(none)
            },
            PublicationStage::Enriched(revision) => {
                if answer.rows.len() == 0 {
                    self.stage = PublicationStage::Done;
                } else {
                    self.stage = PublicationStage::Outgrown(revision);
                }
                Ok(none)
            },
            PublicationStage::Outgrown(previous) => {
                match decode_first_column(&answer.rows, OWNER_NOT_A_STRING) {
                    Ok(owners) => {
                        self.stage = PublicationStage::Compare(previous, 0);
                        Ok(rebuild_revision(name, &owners, previous))
                    },
                    Err(message) => Err(message),
                }
            },
            PublicationStage::Compare(previous, i) => {
                if answer.rows.len() > 0 {
                    self.stage = PublicationStage::Obsolete;
                    let mut commands: Vec<Command> = Vec::new();
                    commands.push(revision_command(PUT_REVISION, name, previous + 1));
                    assert(command_models(commands@) =~= seq![revision_bound(PUT_REVISION@, publication.view.name@, previous + 1)]);
                    Ok(commands)
                } else if i >= COMPARISONS - 1 {
                    self.stage = PublicationStage::Obsolete;
                    Ok(remove_revision_candidate(name, previous + 1))
                } else {
                    self.stage = PublicationStage::Compare(previous, i + 1);
                    Ok(none)
                }
            },
            _ => Ok(none),
        }
    }

    /// Takes in an answer once the next revision is begun.
    fn receive_last(&mut self, publication: &Publication, answer: InspectionResult) -> (r: Result<Vec<Command>, String>)
        requires
            old(self).of(*publication),
            !before_repositories(old(self).stage) && !at_repository(old(self).stage) && !goes_on(old(self).stage),
        ensures
            r is Ok <==> publication.after(old(self)@, answer.rows@) is Ok,
            r is Err ==> r->Err_0@ == publication.after(old(self)@, answer.rows@)->Err_0,
            r is Ok ==> {
                &&& final(self).of(*publication)
                &&& final(self)@ == (publication.after(old(self)@, answer.rows@)->Ok_0).0
                &&& command_models(r->Ok_0@) == (publication.after(old(self)@, answer.rows@)->Ok_0).1
            },
    {
        let name: &str = publication.view.name.as_str();
        let none: Vec<Command> = Vec::new();
        proof {
            assert(command_models(none@) =~= Seq::empty());
            assert(texts(self.states@).len() == self.states@.len());
        }
        match self.stage {
            PublicationStage::Revision => {
                match first_integer_of(&answer.rows) {
                    Some(revision) => {
                        let commands: Vec<Command> = self.write(publication, revision);
                        self.stage = PublicationStage::Baseline(revision);
                        Ok(commands)
                    },
                    None => Err("published analysis revision is missing".to_owned()),
                }
            },
            PublicationStage::Baseline(revision) => {
                let mut commands: Vec<Command> = self.rebase(publication, &answer);
                add_all(&mut commands, materialize_enrichment_contributions(name, revision));
                self.stage = PublicationStage::Obsolete;
                Ok(commands)
            },
            PublicationStage::Obsolete => {
                match decode_first_column(&answer.rows, OWNER_NOT_A_STRING) {
                    Ok(owners) => {
                        self.stage = PublicationStage::Done;
                        Ok(remove_enrichment_state(name, &owners))
                    },
                    Err(message) => Err(message),
                }
            },
            _ => Ok(none),
        }
    }

    /// Takes in the answer to what was asked, and tells what is to be run now.
    pub fn receive(&mut self, publication: &Publication, answer: InspectionResult) -> (r: Result<Vec<Command>, String>)
        requires
            old(self).of(*publication),
        ensures
            r is Ok <==> publication.after(old(self)@, answer.rows@) is Ok,
            r is Err ==> r->Err_0@ == publication.after(old(self)@, answer.rows@)->Err_0,
            r is Ok ==> {
                &&& final(self).of(*publication)
                &&& final(self)@ == (publication.after(old(self)@, answer.rows@)->Ok_0).0
                &&& command_models(r->Ok_0@) == (publication.after(old(self)@, answer.rows@)->Ok_0).1
            },
    {
        match self.stage {
            PublicationStage::Effective | PublicationStage::Shards | PublicationStage::Known | PublicationStage::Kept => {
                self.receive_first(publication, answer)
            },
            PublicationStage::Stored | PublicationStage::Selected | PublicationStage::Observations | PublicationStage::Entities
            | PublicationStage::Candidates => { self.receive_of_repository(publication, answer) },
            PublicationStage::Used(_) | PublicationStage::Enriched(_) | PublicationStage::Outgrown(_)
            | PublicationStage::Compare(_, _) => {
                self.receive_of_kept(publication, answer)
            },
            _ => self.receive_last(publication, answer),
        }
    }

    /// What the publication changes.
    pub fn into_changes(self) -> (r: FactChanges)
        ensures
            r == self.changes,
    {
        self.changes
    }
}

/// How many questions can be left to ask.
pub open spec fn questions_left(publication: Publication, model: ProgressModel) -> int {
    let repositories = 5 * (publication.repositories@.len() - model.states.len());
    match model.stage {
        PublicationStage::Effective => repositories + COMPARISONS + 9,
        PublicationStage::Shards => repositories + COMPARISONS + 8,
        PublicationStage::Known => repositories + COMPARISONS + 7,
        PublicationStage::Kept => repositories + COMPARISONS + 6,
        PublicationStage::Used(_) => COMPARISONS + 4,
        PublicationStage::Enriched(_) => COMPARISONS + 3,
        PublicationStage::Outgrown(_) => COMPARISONS + 2,
        PublicationStage::Compare(_, i) => COMPARISONS + 1 - i,
        PublicationStage::Stored => repositories + 3,
        PublicationStage::Selected => repositories + 2,
        PublicationStage::Observations => repositories + 1,
        PublicationStage::Entities => repositories,
        PublicationStage::Candidates => repositories - 1,
        PublicationStage::Revision => 3,
        PublicationStage::Baseline(_) => 2,
        PublicationStage::Obsolete => 1,
        PublicationStage::Done => 0,
    }
}

/// Whether an answer leaves fewer questions.
spec fn answer_leads_on(publication: Publication, model: ProgressModel, rows: Seq<Vec<InspectionValue>>) -> bool {
    publication.after(model, rows) matches Ok(next) ==> 0 <= questions_left(publication, next.0) < questions_left(publication, model)
}

proof fn repositories_come_to_an_end(publication: Publication, model: ProgressModel, rows: Seq<Vec<InspectionValue>>)
    requires
        at_repository(model.stage),
        model.states.len() < publication.repositories@.len(),
    ensures
        answer_leads_on(publication, model, rows),
{
    let facts = publication.repositories@[model.states.len() as int];
    let (decided, _) = publication.decided(model, analyzed_name(facts));
    let (reused, _) = publication.decided(model, model.reuse);
    assert(decided.states.len() == model.states.len() + 1);
    assert(reused.states.len() == model.states.len() + 1);
}

proof fn beginnings_come_to_an_end(publication: Publication, model: ProgressModel, rows: Seq<Vec<InspectionValue>>)
    requires
        before_repositories(model.stage),
        model.states.len() <= publication.repositories@.len(),
    ensures
        answer_leads_on(publication, model, rows),
{
}

proof fn endings_come_to_an_end(publication: Publication, model: ProgressModel, rows: Seq<Vec<InspectionValue>>)
    requires
        !(model.stage is Done),
        !before_repositories(model.stage),
        !at_repository(model.stage),
        model.stage matches PublicationStage::Compare(_, i) ==> i < COMPARISONS,
    ensures
        answer_leads_on(publication, model, rows),
{
}

/// Whatever is answered, a publication comes to an end: each answer leaves fewer questions.
pub proof fn publications_come_to_an_end(publication: Publication, model: ProgressModel, rows: Seq<Vec<InspectionValue>>)
    requires
        !(model.stage is Done),
        model.states.len() <= publication.repositories@.len(),
        at_repository(model.stage) ==> model.states.len() < publication.repositories@.len(),
        model.stage matches PublicationStage::Compare(_, i) ==> i < COMPARISONS,
    ensures
        publication.after(model, rows) matches Ok(next) ==> 0 <= questions_left(publication, next.0) < questions_left(
            publication,
            model,
        ),
{
    assert(answer_leads_on(publication, model, rows)) by {
        if at_repository(model.stage) {
            repositories_come_to_an_end(publication, model, rows);
        } else if before_repositories(model.stage) {
            beginnings_come_to_an_end(publication, model, rows);
        } else {
            endings_come_to_an_end(publication, model, rows);
        }
    }
}

/// A state of a repository that is stored already is not stored anew.
pub proof fn stored_states_are_kept(publication: Publication, model: ProgressModel, rows: Seq<Vec<InspectionValue>>)
    requires
        model.stage is Stored,
        model.states.len() + 1 < publication.repositories@.len(),
        rows.len() > 0,
    ensures
        publication.after(model, rows) is Ok,
        (publication.after(model, rows)->Ok_0).1.len() == 0,
        (publication.after(model, rows)->Ok_0).0.states == model.states.push(
            analyzed_name(publication.repositories@[model.states.len() as int]),
        ),
{
}

impl Publication {
    /// How far the publication is after an answer, and what is to be run then, see `after`.
    #[verifier::opaque]
    pub open spec fn answered(&self, model: ProgressModel, rows: Seq<Vec<InspectionValue>>) -> Result<
        (ProgressModel, Seq<CommandModel>),
        Seq<char>,
    > {
        self.after(model, rows)
    }

    /// How a publication goes on with some answers: how far it is then, and what was run.
    pub open spec fn course(&self, model: ProgressModel, answers: Seq<Seq<Vec<InspectionValue>>>) -> Result<
        (ProgressModel, Seq<CommandModel>),
        Seq<char>,
    >
        decreases answers.len(),
    {
        if answers.len() == 0 {
            Ok((model, Seq::empty()))
        } else {
            match self.course(model, answers.drop_last()) {
                Err(message) => Err(message),
                Ok((before, run)) => match self.answered(before, answers.last()) {
                    Err(message) => Err(message),
                    Ok((next, more)) => Ok((next, run + more)),
                },
            }
        }
    }
}

proof fn goes_one_step(publication: Publication, model: ProgressModel, answers: Seq<Seq<Vec<InspectionValue>>>, rows: Seq<Vec<InspectionValue>>)
    ensures
        publication.course(model, answers.push(rows)) == (match publication.course(model, answers) {
            Err(message) => Err(message),
            Ok((before, run)) => match publication.answered(before, rows) {
                Err(message) => Err(message),
                Ok((next, more)) => Ok((next, run + more)),
            },
        }),
{
    assert(answers.push(rows).drop_last() =~= answers);
}

proof fn same_selection_counts_nothing(current: Map<Seq<Seq<char>>, Seq<char>>, shards: Seq<FactShard>)
    requires
        selects_exactly(current, shards),
    ensures
        shards_counted(current, shards).inserted == 0,
        shards_counted(current, shards).updated == 0,
        shards_counted(current, shards).removed == 0,
{
    let wanted = |shard: FactShard| !is_selected(current, shard);
    keeps_all_away(shards, wanted);
    counts_none(shards, |shard: FactShard| !current.contains_key(shard_key(shard)), wanted);
    counts_none(shards, |shard: FactShard| current.contains_key(shard_key(shard)) && !is_selected(current, shard), wanted);
}

proof fn keeps_all_away(shards: Seq<FactShard>, wanted: spec_fn(FactShard) -> bool)
    requires
        keep(shards, wanted).len() == 0,
    ensures
        forall|i: int| 0 <= i < shards.len() ==> !wanted(#[trigger] shards[i]),
    decreases shards.len(),
{
    if shards.len() > 0 {
        keeps_all_away(shards.drop_last(), wanted);
        assert forall|i: int| 0 <= i < shards.len() implies !wanted(#[trigger] shards[i]) by {
            if i < shards.len() - 1 {
                assert(shards.drop_last()[i] == shards[i]);
            }
        }
    }
}

proof fn counts_none(shards: Seq<FactShard>, counted: spec_fn(FactShard) -> bool, wanted: spec_fn(FactShard) -> bool)
    requires
        forall|shard: FactShard| #[trigger] counted(shard) ==> wanted(shard),
        forall|i: int| 0 <= i < shards.len() ==> !wanted(#[trigger] shards[i]),
    ensures
        observed_in(shards, counted) == 0,
    decreases shards.len(),
{
    if shards.len() > 0 {
        assert forall|i: int| 0 <= i < shards.drop_last().len() implies !wanted(#[trigger] shards.drop_last()[i]) by {
            assert(shards.drop_last()[i] == shards[i]);
        }
        counts_none(shards.drop_last(), counted, wanted);
        assert(!wanted(shards[shards.len() - 1]));
        assert(counted(shards.last()) ==> wanted(shards.last()));
    }
}

proof fn unchanged_publications_are_known(
    publication: Publication,
    start: ProgressModel,
    observations: Seq<Vec<InspectionValue>>,
    selected: Seq<Vec<InspectionValue>>,
    current: Map<Seq<Seq<char>>, Seq<char>>,
)
    requires
        publication.sharded,
        start.stage is Effective,
        shown(observations, observations.len() as int) == Ok::<Shown, Seq<char>>(publication.next_shown_apart()),
        shards_error(publication.fact_shards@) is None,
        selection(selected, selected.len() as int) == Ok::<Map<Seq<Seq<char>>, Seq<char>>, Seq<char>>(current),
        selects_exactly(current, publication.fact_shards@),
    ensures
        ({
            let next = publication.next_shown_apart();
            let counted = ProgressModel { changes: publication.counted(difference(next, next), current), ..start };
            publication.course(start, seq![observations, selected]) == Ok::<(ProgressModel, Seq<CommandModel>), Seq<char>>(
                (ProgressModel { stage: PublicationStage::Known, ..counted }, Seq::empty()),
            )
        }),
{
    let none = Seq::<CommandModel>::empty();
    let next = publication.next_shown_apart();
    let at0 = Seq::<Seq<Vec<InspectionValue>>>::empty();
    let at1 = at0.push(observations);
    let compared = ProgressModel { stage: PublicationStage::Shards, changes: difference(next, next), ..start };
    assert(publication.answered(start, observations) == Ok::<(ProgressModel, Seq<CommandModel>), Seq<char>>((compared, none))) by {
        reveal(Publication::answered);
    }
    let counted = ProgressModel { changes: publication.counted(difference(next, next), current), ..start };
    let known = ProgressModel { stage: PublicationStage::Known, ..counted };
    assert(publication.answered(compared, selected) == Ok::<(ProgressModel, Seq<CommandModel>), Seq<char>>((known, none))) by {
        reveal(Publication::answered);
    }
    goes_one_step(publication, start, at0, observations);
    goes_one_step(publication, start, at1, selected);
    assert(at1.push(selected) =~= seq![observations, selected]);
    assert(none + none =~= none);
}

proof fn known_publications_go_on(
    publication: Publication,
    model: ProgressModel,
    baseline: Seq<Vec<InspectionValue>>,
    revisions: Seq<Vec<InspectionValue>>,
    revision: i64,
)
    requires
        model.stage is Known,
        first_text(baseline) == Some(publication.baseline_named()),
        first_integer(revisions) == Some(revision as int),
        revision < i64::MAX,
    ensures
        ({
            let kept = ProgressModel { stage: PublicationStage::Kept, ..model };
            let used = ProgressModel { stage: PublicationStage::Used(revision), ..model };
            let enriched = ProgressModel { stage: PublicationStage::Enriched(revision), ..model };
            let done = ProgressModel { stage: PublicationStage::Done, ..model };
            let nothing = Seq::<CommandModel>::empty();
            &&& publication.answered(model, baseline) == Ok::<(ProgressModel, Seq<CommandModel>), Seq<char>>((kept, nothing))
            &&& publication.answered(kept, revisions) == Ok::<(ProgressModel, Seq<CommandModel>), Seq<char>>(
                (used, publication.refreshed(revision as int)),
            )
            &&& publication.answered(used, Seq::empty()) == Ok::<(ProgressModel, Seq<CommandModel>), Seq<char>>((enriched, nothing))
            &&& publication.answered(enriched, Seq::empty()) == Ok::<(ProgressModel, Seq<CommandModel>), Seq<char>>((done, nothing))
        }),
{
    reveal(Publication::answered);
}

proof fn courses_are_put_together(
    publication: Publication,
    start: ProgressModel,
    known: ProgressModel,
    observations: Seq<Vec<InspectionValue>>,
    selected: Seq<Vec<InspectionValue>>,
    baseline: Seq<Vec<InspectionValue>>,
    revisions: Seq<Vec<InspectionValue>>,
    revision: i64,
)
    requires
        publication.course(start, seq![observations, selected]) == Ok::<(ProgressModel, Seq<CommandModel>), Seq<char>>(
            (known, Seq::empty()),
        ),
        known.stage is Known,
        first_text(baseline) == Some(publication.baseline_named()),
        first_integer(revisions) == Some(revision as int),
        revision < i64::MAX,
    ensures
        publication.course(start, seq![observations, selected, baseline, revisions, Seq::empty(), Seq::empty()]) == Ok::<
            (ProgressModel, Seq<CommandModel>),
            Seq<char>,
        >((ProgressModel { stage: PublicationStage::Done, ..known }, publication.refreshed(revision as int))),
{
    let nothing = Seq::<Vec<InspectionValue>>::empty();
    let none = Seq::<CommandModel>::empty();
    let refreshed = publication.refreshed(revision as int);
    let at2 = seq![observations, selected];
    let at3 = at2.push(baseline);
    let at4 = at3.push(revisions);
    let at5 = at4.push(nothing);
    known_publications_go_on(publication, known, baseline, revisions, revision);
    goes_one_step(publication, start, at2, baseline);
    goes_one_step(publication, start, at3, revisions);
    goes_one_step(publication, start, at4, nothing);
    goes_one_step(publication, start, at5, nothing);
    assert(at5.push(nothing) =~= seq![observations, selected, baseline, revisions, nothing, nothing]);
    assert(none + none =~= none);
    assert(none + refreshed =~= refreshed);
    assert(refreshed + none =~= refreshed);
}

/// A publication in shards that says what is published already, from whatever sources, keeps the
/// revision of the view. It counts unchanged facts only, and all that is run notes what the
/// revision stands for now: the fingerprint of the view and the verification, as they are asked
/// for again, and under the name of this view the heads, the inputs and whether all is complete.
pub proof fn unchanged_publications_keep_their_revision(
    publication: Publication,
    start: ProgressModel,
    observations: Seq<Vec<InspectionValue>>,
    selected: Seq<Vec<InspectionValue>>,
    baseline: Seq<Vec<InspectionValue>>,
    revisions: Seq<Vec<InspectionValue>>,
    revision: i64,
)
    requires
        publication.sharded,
        start.stage is Effective,
        shown(observations, observations.len() as int) == Ok::<Shown, Seq<char>>(publication.next_shown_apart()),
        shards_error(publication.fact_shards@) is None,
        selection(selected, selected.len() as int) is Ok,
        selects_exactly(selection(selected, selected.len() as int)->Ok_0, publication.fact_shards@),
        first_text(baseline) == Some(publication.baseline_named()),
        first_integer(revisions) == Some(revision as int),
        revision < i64::MAX,
    ensures
        ({
            let nothing = Seq::<Vec<InspectionValue>>::empty();
            let end = publication.course(start, seq![observations, selected, baseline, revisions, nothing, nothing]);
            let name = publication.view.name@;
            &&& end is Ok
            &&& (end->Ok_0).0.stage is Done
            &&& (end->Ok_0).1 == publication.refreshed(revision as int)
            &&& (end->Ok_0).0.changes.inserted == 0
            &&& (end->Ok_0).0.changes.updated == 0
            &&& (end->Ok_0).0.changes.removed == 0
        }),
        publication.refreshed(revision as int).take(3) == seq![
            fingerprint_bound(PUT_FINGERPRINT@, publication.view.name@, publication.view.fingerprint@),
            publication.verification(),
            heads_noted(publication.view.name@, revision as int, publication.repositories@),
        ],
        fingerprint_bound(PUT_FINGERPRINT@, publication.view.name@, publication.view.fingerprint@).arguments == fingerprint_bound(
            VIEW_MATCHES@,
            publication.view.name@,
            publication.view.fingerprint@,
        ).arguments,
        publication.verification_fingerprint matches Some(fingerprint) ==> publication.verification() == fingerprint_bound(
            PUT_VERIFICATION@,
            publication.view.name@,
            fingerprint@,
        ) && publication.verification().arguments == fingerprint_bound(VERIFICATION_MATCHES@, publication.view.name@, fingerprint@).arguments,
{
    let current = selection(selected, selected.len() as int)->Ok_0;
    let next = publication.next_shown_apart();
    same_selection_counts_nothing(current, publication.fact_shards@);
    assert(next.dom().filter(|key: Seq<Seq<char>>| !next.contains_key(key)) =~= Set::empty());
    assert(next.dom().filter(|key: Seq<Seq<char>>| next.contains_key(key) && next[key] != next[key]) =~= Set::empty());
    unchanged_publications_are_known(publication, start, observations, selected, current);
    let counted = ProgressModel { changes: publication.counted(difference(next, next), current), ..start };
    let known = ProgressModel { stage: PublicationStage::Known, ..counted };
    courses_are_put_together(publication, start, known, observations, selected, baseline, revisions, revision);
    assert(publication.refreshed(revision as int).take(3) =~= seq![
        fingerprint_bound(PUT_FINGERPRINT@, publication.view.name@, publication.view.fingerprint@),
        publication.verification(),
        heads_noted(publication.view.name@, revision as int, publication.repositories@),
    ]);
}

/// Whether some commands stand among others, one behind the other.
pub open spec fn stand_among(some: Seq<CommandModel>, all: Seq<CommandModel>) -> bool {
    exists|i: int| 0 <= i && i + some.len() <= all.len() && #[trigger] all.subrange(i, i + some.len()) == some
}

proof fn pieces_stand_among(
    front: Seq<CommandModel>,
    owners: Seq<Seq<char>>,
    piece: spec_fn(Seq<char>) -> Seq<CommandModel>,
    back: Seq<CommandModel>,
    k: int,
)
    requires
        0 <= k < owners.len(),
    ensures
        stand_among(piece(owners[k]), front + concat_map(owners, piece) + back),
    decreases owners.len(),
{
    let all = front + concat_map(owners, piece) + back;
    let last = owners.len() - 1;
    let before = concat_map(owners.drop_last(), piece);
    if k == last {
        let i = (front.len() + before.len()) as int;
        assert(all.subrange(i, i + piece(owners[k]).len()) =~= piece(owners[k]));
    } else {
        pieces_stand_among(front, owners.drop_last(), piece, piece(owners.last()) + back, k);
        assert(owners.drop_last()[k] == owners[k]);
        assert(all =~= front + before + (piece(owners.last()) + back));
    }
}

/// Where a revision goes on to be shown, what an owner contributed is taken out if it does not
/// count for the revision any more: the next revision is made without it, and is shown if it
/// differs from the one before.
pub proof fn refused_contributions_leave_the_revision(
    publication: Publication,
    model: ProgressModel,
    previous: i64,
    rows: Seq<Vec<InspectionValue>>,
    k: int,
    i: u8,
    different: Seq<Vec<InspectionValue>>,
)
    requires
        model.stage == PublicationStage::Outgrown(previous),
        first_column(rows, OWNER_NOT_A_STRING@, rows.len() as int) is Ok,
        0 <= k < (first_column(rows, OWNER_NOT_A_STRING@, rows.len() as int)->Ok_0).len(),
        i < COMPARISONS,
        different.len() > 0,
    ensures
        ({
            let name = publication.view.name@;
            let owners = first_column(rows, OWNER_NOT_A_STRING@, rows.len() as int)->Ok_0;
            let rebuilt = publication.after(model, rows);
            let comparing = ProgressModel { stage: PublicationStage::Compare(previous, i), ..model };
            let shown_next = publication.after(comparing, different);
            &&& rebuilt matches Ok((next, run)) && next.stage == PublicationStage::Compare(previous, 0) && stand_among(
                retracted(name, owners[k], previous + 1),
                run,
            ) && materialized(name, previous + 1).is_suffix_of(run)
            &&& shown_next matches Ok((_, run)) && run == seq![revision_bound(PUT_REVISION@, name, previous + 1)]
        }),
{
    let name = publication.view.name@;
    let owners = first_column(rows, OWNER_NOT_A_STRING@, rows.len() as int)->Ok_0;
    let piece = |owner: Seq<char>| retracted(name, owner, previous + 1);
    let back = materialized(name, previous + 1);
    pieces_stand_among(revision_copied(name, previous as int, previous + 1), owners, piece, back, k);
    let run = without_refused(name, owners, previous as int);
    assert(run.subrange(run.len() - back.len(), run.len() as int) =~= back);
}

proof fn comparisons_go_on(publication: Publication, model: ProgressModel, previous: i64, n: nat)
    requires
        model.stage == PublicationStage::Compare(previous, 0),
        n < COMPARISONS,
    ensures
        publication.course(model, Seq::new(n, |k: int| Seq::<Vec<InspectionValue>>::empty())) == Ok::<
            (ProgressModel, Seq<CommandModel>),
            Seq<char>,
        >((ProgressModel { stage: PublicationStage::Compare(previous, n as u8), ..model }, Seq::empty())),
    decreases n,
{
    let none = Seq::<CommandModel>::empty();
    let answers = Seq::new(n, |k: int| Seq::<Vec<InspectionValue>>::empty());
    if n > 0 {
        let fewer = Seq::new((n - 1) as nat, |k: int| Seq::<Vec<InspectionValue>>::empty());
        comparisons_go_on(publication, model, previous, (n - 1) as nat);
        goes_one_step(publication, model, fewer, Seq::empty());
        assert(fewer.push(Seq::empty()) =~= answers);
        let before = ProgressModel { stage: PublicationStage::Compare(previous, (n - 1) as u8), ..model };
        let after = ProgressModel { stage: PublicationStage::Compare(previous, n as u8), ..model };
        assert(publication.answered(before, Seq::empty()) == Ok::<(ProgressModel, Seq<CommandModel>), Seq<char>>((after, none))) by {
            reveal(Publication::answered);
        }
        assert(none + none =~= none);
    }
}

/// Where a revision goes on to be shown, and the one made from the contributions that count does
/// not differ from it, the latter is removed again: the view keeps its revision.
pub proof fn equal_revisions_are_removed_again(publication: Publication, model: ProgressModel, previous: i64)
    requires
        model.stage == PublicationStage::Compare(previous, 0),
    ensures
        publication.course(model, Seq::new(COMPARISONS as nat, |k: int| Seq::<Vec<InspectionValue>>::empty())) == Ok::<
            (ProgressModel, Seq<CommandModel>),
            Seq<char>,
        >((ProgressModel { stage: PublicationStage::Obsolete, ..model }, revision_removed(publication.view.name@, previous + 1))),
{
    let none = Seq::<CommandModel>::empty();
    let n = (COMPARISONS - 1) as nat;
    let fewer = Seq::new(n, |k: int| Seq::<Vec<InspectionValue>>::empty());
    comparisons_go_on(publication, model, previous, n);
    goes_one_step(publication, model, fewer, Seq::empty());
    assert(fewer.push(Seq::empty()) =~= Seq::new(COMPARISONS as nat, |k: int| Seq::<Vec<InspectionValue>>::empty()));
    let before = ProgressModel { stage: PublicationStage::Compare(previous, n as u8), ..model };
    let after = ProgressModel { stage: PublicationStage::Obsolete, ..model };
    let removed = revision_removed(publication.view.name@, previous + 1);
    assert(publication.answered(before, Seq::empty()) == Ok::<(ProgressModel, Seq<CommandModel>), Seq<char>>((after, removed))) by {
        reveal(Publication::answered);
    }
    assert(none + removed =~= removed);
}

/// A publication that goes on with a revision notes whether all is complete anew.
pub proof fn completeness_is_noted_anew(publication: Publication, revision: int)
    ensures
        metadata_stored(publication.view.name@, revision, publication.repositories@).is_suffix_of(publication.refreshed(revision)),
{
    let all = publication.refreshed(revision);
    let back = metadata_stored(publication.view.name@, revision, publication.repositories@);
    assert(all.subrange(all.len() - back.len(), all.len() as int) =~= back);
}

/// A baseline whose fingerprint is known is not taken anew.
pub proof fn known_baselines_are_kept(publication: Publication)
    ensures
        publication.rebased(Some(publication.baseline_named())).len() == 0,
{
}

} // verus!
