use beholder::collection::{
    ask_candidates, ask_pending, ask_queued, ask_stale_states, claim_garbage_collection, garbage_collection_count,
    garbage_collection_pending, Sweep, SweepProgress, SweepStage,
};
use beholder::command::{Argument, Cell, Command};
use beholder::context::{
    ask_context, context_params, ContextSource, EnrichmentStructuralContext, FactShardStructuralContext,
    MaterializedContextDependencies, RevisionStructuralContext, StateStructuralContext,
};
use beholder::contribution::{has_next_revision, is_published, outcome, Contribution};
use beholder::closure::Closure;
use beholder::database::{
    ask_relations, benchmark_database, check_database, create_database, create_indexes, create_relations, memory_database,
    Setup, Storage,
};
use beholder::dependency::{IncomingResolvedDependencies, OutgoingResolvedDependencies};
use beholder::domain::{
    AnalysisDiagnostic, AnalysisDiagnosticSeverity, Confidence, DependencyRelation, EntityFact, EntityKind, EntityMetadata,
    GraphqlOperationKind, GrpcBindingRole, Observation, ProtoTypeKind, Provenance, RpcCardinality, SemanticRelation,
    StructuralRelation,
};
use beholder::dto::{self, AnalysisCompleteness, AnalysisMetadata};
use beholder::enrichment::{
    ask_enrichment_version, ask_missing_enrichments, enrichment_matches, enrichment_owner_key, enrichments_current,
    EnrichmentOwner, EnrichmentPayload, EnrichmentPublishOutcome, OwnedDiagnostic,
};
use beholder::evidence::{DecodedEvidence, EvidenceKind};
use beholder::facts::{
    ask_all_facts, ask_baseline_facts, ask_enrichment_facts, ask_search, ask_shard_facts, entity_facts, fact_rows,
    search_entity_facts, unknown_entities, AllEntityFactsQuery, BaselineEntityFacts, EnrichmentEntityFacts, EntityFactRow,
    SearchEnrichmentEntityFacts, SearchRevisionEntityFacts, SearchShardEntityFacts, SearchSource, SearchStateEntityFacts,
    ShardEntityFacts,
};
use beholder::ids::TextSet;
use beholder::manifest::has_inputs;
use beholder::metadata::{
    analysis_metadata, analysis_revision, ask_completeness, ask_diagnostics, ask_published_head, ask_repository_diagnostics,
    ask_repository_revision, ask_revision, published_repository_head, repository_revision, AnalysisMetadataCompleteness,
    AnalysisMetadataDiagnostics, AnalysisRevisionQuery, PublishedRepositoryHead, RepositoryDiagnosticsQuery,
    RepositoryRevisionQuery,
};
use beholder::normal::analyzed_state;
use beholder::observe::{inspect_grpc_bindings, inspect_observations, inspect_relations, inspect_revisions};
use beholder::paths::TraversalDirection;
use beholder::publication::{Publication, PublicationProgress};
use beholder::query::run;
use beholder::reconciliation::{
    ask_contexts, ask_enrichment_input, ask_input_fingerprints, ask_verification_matches, ask_view_matches, ensure_revision_inputs, is_followed,
    reconciliation_question, repository_contexts, revision_enrichment_input_fingerprint, revision_input_fingerprints,
    store_verification_fingerprint, view_matches, ReconciliationStage,
};
use beholder::records::{
    AnalyzerInput, DependencyOverride, FactChanges, FactShard, GrpcBindingCandidate, LogicalRepository, RepositoryFacts,
    RepositoryState, WorkspaceView, FACT_BATCH_SIZE,
};
use beholder::requests::{check_revision, context_entities, relevant_traversal_entities};
use beholder::revisions::{
    ask_analyzed_state, ask_previous, ask_stale_state, decode_published_state, delete_repository_revision, publish_repository,
    remove_shown_states,
};
use beholder::rows::{are_wide, InspectionResult, InspectionValue};
use beholder::scripts::Rules;
use beholder::semantic::{self, Context, ContextRow, Reach, Trace};
use beholder::semantics::{ask_baseline_entities, ask_baseline_observations, selected_baseline_semantics};
use beholder::writes::{ask_state, store_entities, store_observations};
use cozo::{DataValue, DbInstance, MultiTransaction, NamedRows, Num, ScriptMutability};
use std::collections::BTreeMap;

const DIRECT: &str = "
selected_state[state] := *analysis_revision{view: $view, revision}, *analysis_revision_state{view: $view, revision, state}
observed[from, to, relation, evidence, confidence, provenance] := selected_state[state],
    *state_observation{state, from, relation, to, evidence},
    *state_observation_metadata{state, from, relation, to, confidence, provenance}
observed[from, to, relation, evidence, confidence, provenance] := *analysis_revision{view: $view, revision},
    *analysis_revision_observation{view: $view, revision, from, relation, to, evidence, confidence, provenance}
observed[from, to, relation, evidence, confidence, provenance] :=
    *analysis_fact_shard_selection{view: $view, producer, owner, version},
    *analysis_fact_shard_observation{producer, owner, version, from, relation, to, evidence, confidence, provenance}
override[from, to, relation, resolved, evidence, confidence, provenance] := *analysis_revision{view: $view, revision},
    *analysis_revision_dependency_override{view: $view, revision, from, relation, unresolved_to: to, resolved_to: resolved, evidence},
    *analysis_revision_dependency_override_metadata{view: $view, revision, from, relation, unresolved_to: to, confidence, provenance}
overridden[from, to, relation] := override[from, to, relation, _, _, _, _]
effective_observation[from, to, relation, evidence, confidence, provenance] :=
    observed[from, to, relation, evidence, confidence, provenance], not overridden[from, to, relation]
effective_observation[from, resolved, relation, evidence, confidence, provenance] :=
    observed[from, to, relation, evidence, _, _], override[from, to, relation, resolved, _, confidence, provenance]
effective_observation[from, resolved, relation, evidence, confidence, provenance] :=
    observed[from, to, relation, _, _, _], override[from, to, relation, resolved, evidence, confidence, provenance]
";

const CONTEXT: &str = "
?[direction, relation, related, evidence, confidence, provenance] :=
    *analysis_resolved_dependency{view: $view, from: $entity, relation, to: related, evidence, confidence, provenance},
    direction = 'outgoing'
?[direction, relation, related, evidence, confidence, provenance] :=
    *analysis_resolved_dependency:by_to{view: $view, to: $entity, from: related, relation, evidence, confidence, provenance},
    direction = 'incoming'
:order direction, relation, related, evidence
";

const METADATA: &str = "
selected_diagnostic_replacement[repository, code] <- [['', '']]
enrichment_diagnostic[repository, code, severity, path, line, detail] :=
    *enrichment_diagnostic_contribution{view: $view, repository, code, severity, path, line, detail}
";

fn structural(source: &str) -> String {
    format!(
        "structure[relation] <- [['defines'], ['field_of'], ['request_type'], ['response_type']]
observed[from, to, relation, evidence, confidence, provenance] := {source}
?[direction, relation, related, evidence, confidence, provenance] :=
    observed[$entity, related, relation, evidence, confidence, provenance], structure[relation], direction = 'outgoing'
?[direction, relation, related, evidence, confidence, provenance] :=
    observed[related, $entity, relation, evidence, confidence, provenance], structure[relation], direction = 'incoming'
:order direction, relation, related, evidence"
    )
}

fn rules() -> Rules {
    Rules {
        direct: DIRECT.to_owned(),
        context: CONTEXT.to_owned(),
        analysis_metadata: METADATA.to_owned(),
        context_structural_state: structural(
            "*analysis_revision{view: $view, revision}, *analysis_revision_state{view: $view, revision, state},
    *state_observation{state, from, relation, to, evidence},
    *state_observation_metadata{state, from, relation, to, confidence, provenance}",
        ),
        context_structural_fact_shard: structural(
            "*analysis_fact_shard_selection{view: $view, producer, owner, version},
    *analysis_fact_shard_observation{producer, owner, version, from, relation, to, evidence, confidence, provenance}",
        ),
        context_structural_revision: structural(
            "*analysis_revision{view: $view, revision},
    *analysis_revision_observation{view: $view, revision, from, relation, to, evidence, confidence, provenance}",
        ),
        context_structural_enrichment: structural(
            "*enrichment_observation_contribution{view: $view, from, relation, to, evidence, confidence, provenance}",
        ),
    }
}

fn cell(cell: &Cell) -> DataValue {
    match cell {
        Cell::Text(text) => DataValue::from(text.as_str()),
        Cell::Integer(value) => DataValue::from(*value),
        Cell::Float(bits) => DataValue::from(f64::from_bits(*bits)),
        Cell::Boolean(value) => DataValue::from(*value),
    }
}

fn value(value: &InspectionValue) -> DataValue {
    match value {
        InspectionValue::Null => DataValue::Null,
        InspectionValue::Boolean(value) => DataValue::from(*value),
        InspectionValue::Integer(value) => DataValue::from(*value),
        InspectionValue::Float(bits) => DataValue::from(f64::from_bits(*bits)),
        InspectionValue::String(text) => DataValue::from(text.as_str()),
        InspectionValue::Bytes(bytes) => DataValue::from(bytes.clone()),
        InspectionValue::List(list) => DataValue::List(list.iter().map(self::value).collect()),
        InspectionValue::Other(text) => DataValue::from(text.as_str()),
    }
}

fn inspected(value: DataValue) -> InspectionValue {
    match value {
        DataValue::Null => InspectionValue::Null,
        DataValue::Bool(value) => InspectionValue::Boolean(value),
        DataValue::Num(Num::Int(value)) => InspectionValue::Integer(value),
        DataValue::Num(Num::Float(value)) => InspectionValue::Float(value.to_bits()),
        DataValue::Str(text) => InspectionValue::String(text.to_string()),
        DataValue::Bytes(bytes) => InspectionValue::Bytes(bytes),
        DataValue::List(list) => InspectionValue::List(list.into_iter().map(inspected).collect()),
        value => InspectionValue::Other(value.to_string()),
    }
}

fn inspection(rows: NamedRows) -> InspectionResult {
    InspectionResult {
        headers: rows.headers,
        rows: rows.rows.into_iter().map(|row| row.into_iter().map(inspected).collect()).collect(),
        next: None,
    }
}

fn arguments(command: &Command) -> BTreeMap<String, DataValue> {
    let mut bound: BTreeMap<String, DataValue> = BTreeMap::new();
    for (name, argument) in &command.arguments {
        let given = match argument {
            Argument::One(one) => cell(one),
            Argument::Rows(rows) => {
                DataValue::List(rows.iter().map(|row| DataValue::List(row.iter().map(cell).collect())).collect())
            }
            Argument::ReadValue(read) => value(read),
            Argument::Read(rows) => {
                DataValue::List(rows.iter().map(|row| DataValue::List(row.iter().map(value).collect())).collect())
            }
        };
        bound.insert(name.clone(), given);
    }
    bound
}

fn decode(evidence: &str) -> DecodedEvidence {
    let (path, line) = match evidence.rsplit_once(':') {
        Some((path, line)) => match line.parse::<u32>() {
            Ok(line) => (Some(path.to_owned()), Some(line)),
            Err(_) => (None, None),
        },
        None => (None, None),
    };
    DecodedEvidence { path, line, range: None, detail: None, contexts: Vec::new() }
}

struct Store {
    db: DbInstance,
    rules: Rules,
}

impl Store {
    fn memory() -> Store {
        let db = DbInstance::new("mem", "", "").unwrap();
        let store = Store { db, rules: rules() };
        for command in memory_database() {
            store.write(&command);
        }
        store.set_up(Setup::after_memory());
        for script in [
            ":create analysis_resolved_dependency {view: String, from: String, relation: String, to: String, \
             evidence: String => confidence: Float, provenance: String}",
            "::index create analysis_resolved_dependency:by_to {view, to, from, relation, evidence, confidence, provenance}",
            ":create analysis_enrichment_entity_selection {view: String, id: String => owner: String}",
            ":create analysis_fact_shard_entity_name {name: String, producer: String, owner: String, version: String, id: String}",
            "::index create analysis_fact_shard_entity_name:by_name {name, producer, owner, version, id}",
            "::index create analysis_fact_shard_entity:by_id {id, producer, owner, version, kind, metadata}",
            "::index create analysis_fact_shard_selection:by_owner {view, owner, producer, version}",
        ] {
            store.script(script);
        }
        store
    }

    fn set_up(&self, setup: Setup) {
        let mut setup = setup;
        while let Some(question) = setup.question() {
            let answer = self.read(&question);
            for command in setup.receive(&answer) {
                self.write(&command);
            }
        }
        if let Some(command) = setup.remove_jobs() {
            self.write(&command);
        }
    }

    fn write(&self, command: &Command) {
        if let Err(error) = self.db.run_script(&command.script, arguments(command), ScriptMutability::Mutable) {
            panic!("{error:?}\n{}", command.script);
        }
    }

    fn read(&self, command: &Command) -> InspectionResult {
        match self.db.run_script(&command.script, arguments(command), ScriptMutability::Immutable) {
            Ok(rows) => inspection(rows),
            Err(error) => panic!("{error:?}\n{}", command.script),
        }
    }

    fn script(&self, script: &str) -> NamedRows {
        match self.db.run_script(script, BTreeMap::new(), ScriptMutability::Mutable) {
            Ok(rows) => rows,
            Err(error) => panic!("{error:?}\n{script}"),
        }
    }

    /// Fills in the dependencies that a view resolves to.
    fn materialize(&self, view: &str) {
        let name: BTreeMap<String, DataValue> = BTreeMap::from([("view".to_owned(), DataValue::from(view))]);
        self.db
            .run_script(
                "?[view, from, relation, to, evidence] := \
                 *analysis_resolved_dependency{view, from, relation, to, evidence}, view = $view \
                 :rm analysis_resolved_dependency {view, from, relation, to, evidence}",
                name.clone(),
                ScriptMutability::Mutable,
            )
            .unwrap();
        self.db
            .run_script(
                &format!(
                    "{DIRECT}\nstructure[relation] <- [['defines'], ['field_of'], ['request_type'], ['response_type']]
                     ?[view, from, relation, to, evidence, confidence, provenance] := \
                     effective_observation[from, to, relation, evidence, confidence, provenance], not structure[relation], \
                     view = $view \
                     :put analysis_resolved_dependency {{view, from, relation, to, evidence => confidence, provenance}}"
                ),
                name.clone(),
                ScriptMutability::Mutable,
            )
            .unwrap();
        self.db
            .run_script(
                "?[view, id, owner] := *analysis_enrichment_entity_selection{view, id, owner}, view = $view \
                 :rm analysis_enrichment_entity_selection {view, id}",
                name.clone(),
                ScriptMutability::Mutable,
            )
            .unwrap();
        self.db
            .run_script(
                "?[view, id, min(owner)] := *enrichment_entity_contribution{view, owner, id}, view = $view \
                 :put analysis_enrichment_entity_selection {view, id => owner}",
                name,
                ScriptMutability::Mutable,
            )
            .ok();
    }

    fn publish_all(&self, publication: &Publication) -> Result<FactChanges, String> {
        assert!(has_inputs(&publication.view));
        let mut progress = PublicationProgress::start(publication)?;
        let transaction = self.db.multi_transaction(true);
        while let Some(question) = progress.question(publication, &self.rules) {
            let answer = inside(&transaction, &question)?;
            match progress.receive(publication, answer) {
                Ok(commands) => {
                    for command in commands {
                        inside(&transaction, &command)?;
                    }
                }
                Err(error) => {
                    transaction.abort().unwrap();
                    return Err(error);
                }
            }
        }
        transaction.commit().unwrap();
        self.materialize(&publication.view.name);
        Ok(progress.into_changes())
    }

    fn publish(
        &self,
        view: WorkspaceView,
        repositories: Vec<RepositoryFacts>,
        overrides: Vec<DependencyOverride>,
    ) -> Result<FactChanges, String> {
        self.publish_all(&Publication {
            view,
            repositories,
            overrides,
            fact_shards: Vec::new(),
            verification_fingerprint: None,
            sharded: false,
        })
    }

    fn enrich(&self, contribution: &Contribution<'_>) -> Result<EnrichmentPublishOutcome, String> {
        let mut progress = contribution.start()?;
        let transaction = self.db.multi_transaction(true);
        loop {
            assert!(has_next_revision(progress));
            let step = contribution.action(progress);
            for command in &step.run {
                inside(&transaction, command)?;
            }
            match &step.ask {
                Some(question) => {
                    let answer = inside(&transaction, question)?;
                    progress = contribution.receive(progress, &answer)?;
                }
                None => break,
            }
        }
        transaction.commit().unwrap();
        self.materialize(contribution.view);
        Ok(outcome(progress).unwrap())
    }

    fn publish_enrichment(
        &self,
        view: &str,
        repository: &str,
        input_fingerprint: &str,
        owner: (&str, &str),
        payload: EnrichmentPayload,
    ) -> Result<bool, String> {
        let contribution = Contribution {
            view,
            repository,
            input_fingerprint,
            owner: EnrichmentOwner { analyzer: owner.0, version: owner.1 },
            payload: &payload,
        };
        Ok(is_published(self.enrich(&contribution)?))
    }

    fn enrichment_matches(&self, view: &str, repository: &str, analyzer: &str, version: &str) -> bool {
        enrichment_matches(&self.read(&ask_enrichment_version(view, repository, analyzer)), version)
    }

    fn enrichments_current(&self, view: &str, catalog: &[(&str, &str)]) -> bool {
        let answers: Vec<InspectionResult> = catalog
            .iter()
            .map(|(analyzer, version)| self.read(&ask_missing_enrichments(view, analyzer, version)))
            .collect();
        enrichments_current(&answers)
    }

    fn ensure_revision_inputs(&self, view: &WorkspaceView) -> bool {
        let transaction = self.db.multi_transaction(true);
        let mut stage = ReconciliationStage::Fingerprint;
        while let Some(question) = {
            assert!(is_followed(stage));
            reconciliation_question(&view.name, stage)
        } {
            let answer = inside(&transaction, &question).unwrap();
            let (next, commands) = ensure_revision_inputs(view, stage, &answer).unwrap();
            stage = next;
            for command in commands {
                inside(&transaction, &command).unwrap();
            }
        }
        transaction.commit().unwrap();
        self.materialize(&view.name);
        matches!(stage, ReconciliationStage::Done)
    }

    fn publish_repository(&self, facts: &RepositoryFacts) -> Result<bool, String> {
        let previous = self.read(&ask_previous(facts));
        let stored = self.read(&ask_state(&analyzed_state(facts)));
        let (changed, commands) = publish_repository(facts, &previous, &stored)?;
        for command in commands {
            self.write(&command);
        }
        Ok(changed)
    }

    fn delete_standalone_repository_revision(&self, repository: &str, view: &str) -> Result<u64, String> {
        self.write(&remove_shown_states(repository, view));
        self.delete_repository_revision(repository)
    }

    fn delete_repository_revision(&self, repository: &str) -> Result<u64, String> {
        let state = decode_published_state(&self.read(&ask_analyzed_state(repository)).rows)?;
        let stale = match &state {
            Some(state) => self.read(&ask_stale_state(state)),
            None => InspectionResult { headers: Vec::new(), rows: Vec::new(), next: None },
        };
        let (queued, commands) = delete_repository_revision(repository, state.as_deref(), stale);
        for command in commands {
            self.write(&command);
        }
        Ok(queued)
    }

    fn facts_of(&self, view: &str, entities: &TextSet) -> InspectionResult {
        let baseline: Vec<EntityFactRow> = run::<BaselineEntityFacts>(self.read(&ask_baseline_facts(view, entities))).unwrap();
        let unknown = unknown_entities(entities, &baseline);
        let shard = run::<ShardEntityFacts>(self.read(&ask_shard_facts(view, &unknown))).unwrap();
        let enrichment = run::<EnrichmentEntityFacts>(self.read(&ask_enrichment_facts(view, entities))).unwrap();
        entity_facts(baseline, shard, enrichment)
    }

    fn context(&self, view: &str, entity: &str) -> Context {
        let params = context_params(entity);
        let ask = |source: ContextSource| self.read(&ask_context(&self.rules, source, view, &params));
        let rows: Vec<ContextRow> = beholder::context::context(
            run::<MaterializedContextDependencies>(ask(ContextSource::Dependencies)).unwrap(),
            run::<StateStructuralContext>(ask(ContextSource::State)).unwrap(),
            run::<FactShardStructuralContext>(ask(ContextSource::FactShard)).unwrap(),
            run::<RevisionStructuralContext>(ask(ContextSource::Revision)).unwrap(),
            run::<EnrichmentStructuralContext>(ask(ContextSource::Enrichment)).unwrap(),
        );
        let decoded: Vec<DecodedEvidence> = rows.iter().map(|row| decode(&row.evidence)).collect();
        let facts = self.facts_of(view, &context_entities(entity, &rows));
        semantic::context(entity, &rows, &decoded, &facts.rows).unwrap()
    }

    fn closure(&self, view: &str, entity: &str, max_hops: u32, direction: TraversalDirection) -> InspectionResult {
        let mut closure = Closure::start(entity, max_hops, direction);
        while !closure.is_done() {
            let answer = self.read(&closure.request(view));
            let rows = match direction {
                TraversalDirection::Outgoing => run::<OutgoingResolvedDependencies>(answer).unwrap(),
                TraversalDirection::Incoming => run::<IncomingResolvedDependencies>(answer).unwrap(),
            };
            closure.receive(rows);
        }
        closure.finish()
    }

    fn evidence_of(rows: &InspectionResult) -> Vec<DecodedEvidence> {
        rows.rows.iter().map(|row| decode(row[6].as_str().unwrap_or(""))).collect()
    }

    fn dependencies(&self, view: &str, entity: &str, max_hops: u32) -> Reach {
        let rows = self.closure(view, entity, max_hops, TraversalDirection::Outgoing);
        let entities = relevant_traversal_entities(&rows.rows, &vec![entity.to_owned()], max_hops);
        let facts = self.facts_of(view, &entities);
        semantic::dependencies(entity, max_hops, &rows.rows, &Store::evidence_of(&rows), &facts.rows).unwrap()
    }

    fn impact(&self, view: &str, entity: &str, max_hops: u32) -> Reach {
        let rows = self.closure(view, entity, max_hops, TraversalDirection::Incoming);
        let entities = relevant_traversal_entities(&rows.rows, &vec![entity.to_owned()], max_hops);
        let facts = self.facts_of(view, &entities);
        semantic::impact(entity, max_hops, &rows.rows, &Store::evidence_of(&rows), &facts.rows).unwrap()
    }

    fn trace(&self, view: &str, from: &str, to: &str, max_hops: u32) -> Trace {
        let rows = self.closure(view, from, max_hops, TraversalDirection::Outgoing);
        let entities = relevant_traversal_entities(&rows.rows, &vec![from.to_owned(), to.to_owned()], max_hops);
        let facts = self.facts_of(view, &entities);
        semantic::trace(from, to, max_hops, &rows.rows, &Store::evidence_of(&rows), &facts.rows).unwrap()
    }

    fn analysis(&self, view: &str) -> Result<AnalysisMetadata, String> {
        let revisions = run::<AnalysisRevisionQuery>(self.read(&ask_revision(view))).unwrap();
        let revision = analysis_revision(&revisions)?;
        if let Some(complaint) = check_revision(view, revision) {
            return Err(complaint);
        }
        let revision = revision as i64;
        let incomplete = run::<AnalysisMetadataCompleteness>(self.read(&ask_completeness(view, revision))).unwrap();
        let diagnostics: Vec<dto::AnalysisDiagnostic> =
            run::<AnalysisMetadataDiagnostics>(self.read(&ask_diagnostics(&self.rules, view, revision)))
                .unwrap();
        Ok(analysis_metadata(&incomplete, diagnostics))
    }

    fn current_revision(&self, view: &str) -> i64 {
        self.read(&ask_revision(view)).rows[0][0].as_i64().unwrap()
    }

    fn garbage_collect(&self) -> u64 {
        let stale = self.read(&ask_stale_states());
        assert!(are_wide(&stale.rows, 1));
        let (queued, commands) = claim_garbage_collection(stale);
        for command in commands {
            self.write(&command);
        }
        queued
    }

    fn garbage_collection_pending(&self) -> bool {
        garbage_collection_pending(&self.read(&ask_pending()))
    }

    fn garbage_collection_queued(&self) -> u64 {
        garbage_collection_count(&self.read(&ask_queued())).unwrap()
    }

    fn garbage_collection_candidates(&self) -> u64 {
        garbage_collection_count(&self.read(&ask_candidates())).unwrap()
    }

    fn sweep(&self, reports: &mut Vec<SweepProgress>) -> u64 {
        let mut sweep = Sweep::start();
        loop {
            match sweep.stage {
                SweepStage::Queue => {
                    let answer = self.read(&sweep.question().unwrap());
                    sweep.take_queue(&answer).unwrap();
                }
                SweepStage::Report(_) => {
                    if let Some(report) = sweep.report() {
                        reports.push(report);
                    }
                    sweep.reported(true);
                }
                SweepStage::Select(_) => {
                    let answer = self.read(&sweep.question().unwrap());
                    if let Some(removal) = sweep.take_batch(answer).unwrap() {
                        let guarded = match &removal.guard {
                            Some(guard) => self.read(guard).rows.is_empty(),
                            None => true,
                        };
                        if guarded {
                            self.write(&removal.removal);
                        }
                        sweep.removed(guarded).unwrap();
                    }
                }
                SweepStage::Remove(_) => unreachable!(),
                SweepStage::Dequeue(_) => {
                    if let Some(command) = sweep.dequeue() {
                        self.write(&command);
                    }
                    sweep.dequeued().unwrap();
                }
                SweepStage::Revisions => {
                    let answer = self.read(&sweep.question().unwrap());
                    assert!(are_wide(&answer.rows, 2));
                    sweep.take_revisions(&answer).unwrap();
                }
                SweepStage::Done => return sweep.states_collected(),
            }
        }
    }
}

fn inside(transaction: &MultiTransaction, command: &Command) -> Result<InspectionResult, String> {
    match transaction.run_script(&command.script, arguments(command)) {
        Ok(rows) => Ok(inspection(rows)),
        Err(error) => Err(format!("{error:?}\n{}", command.script)),
    }
}

fn state(repository: &str, head: Option<&str>, fingerprint: &str) -> RepositoryState {
    RepositoryState {
        repository: LogicalRepository { identity: repository.to_owned() },
        head: head.map(|head| head.to_owned()),
        fingerprint: fingerprint.to_owned(),
    }
}

fn input_of(analysis: &str, repository: &str, fingerprint: &str) -> String {
    format!("input {analysis} {repository} {fingerprint}")
}

/// A view with the analyzers that enrich it, each with the repositories that it looks at besides
/// a repository.
fn view_with(
    name: &str,
    analysis: &str,
    states: Vec<RepositoryState>,
    analyzers: &[(&str, &[(&str, &str)])],
) -> WorkspaceView {
    let mut inputs: Vec<String> = Vec::new();
    let mut all = analysis.to_owned();
    for state in &states {
        inputs.push(input_of(analysis, &state.repository.identity, &state.fingerprint));
        all.push_str(&format!(" {}={}", state.repository.identity, state.fingerprint));
    }
    let mut enrichment_inputs: Vec<AnalyzerInput> = Vec::new();
    for (analyzer, contexts) in analyzers {
        let mut fingerprints: Vec<String> = Vec::new();
        let mut listed: Vec<Vec<String>> = Vec::new();
        for state in &states {
            let around: Vec<String> = contexts
                .iter()
                .filter(|(target, _)| *target == state.repository.identity)
                .map(|(_, context)| (*context).to_owned())
                .collect();
            let mut fingerprint = format!("{analyzer} {}={}", state.repository.identity, state.fingerprint);
            for other in &states {
                if around.contains(&other.repository.identity) {
                    fingerprint.push_str(&format!(" {}={}", other.repository.identity, other.fingerprint));
                }
            }
            fingerprints.push(fingerprint);
            listed.push(around);
        }
        enrichment_inputs.push(AnalyzerInput { analyzer: (*analyzer).to_owned(), fingerprints, contexts: listed });
    }
    WorkspaceView {
        name: name.to_owned(),
        fingerprint: all,
        repository_states: states,
        input_fingerprints: inputs,
        enrichment_inputs,
    }
}

fn view(name: &str, analysis: &str, states: Vec<RepositoryState>) -> WorkspaceView {
    view_with(name, analysis, states, &[])
}

fn facts_in(state: RepositoryState, analysis: &str, observations: Vec<Observation>) -> RepositoryFacts {
    RepositoryFacts {
        state,
        analysis_identity: analysis.to_owned(),
        incomplete: false,
        diagnostics: Vec::new(),
        entities: Vec::new(),
        grpc_bindings: Vec::new(),
        observations,
    }
}

fn calls(from: &str, to: &str, evidence: &str) -> Observation {
    Observation::dependency(from, DependencyRelation::Calls, to, evidence)
}

fn entity(id: &str, kind: EntityKind) -> EntityFact {
    EntityFact { id: id.to_owned(), kind, metadata: None }
}

fn payload() -> EnrichmentPayload {
    EnrichmentPayload { entities: Vec::new(), observations: Vec::new(), overrides: Vec::new(), diagnostics: Vec::new() }
}

fn texts(rows: &NamedRows, column: usize) -> Vec<String> {
    rows.rows.iter().map(|row| row[column].get_str().unwrap().to_owned()).collect()
}

#[test]
fn persists_typed_entity_facts_with_repository_state() {
    let store = Store::memory();
    let states = || vec![state("contracts", Some("head"), "descriptor")];
    let mut facts = facts_in(states().remove(0), "analysis", Vec::new());
    facts.entities = vec![
        EntityFact {
            id: "proto-type://pricing.v1.Quote".to_owned(),
            kind: EntityKind::ProtoType,
            metadata: Some(EntityMetadata::ProtoType { kind: ProtoTypeKind::Message }),
        },
        entity("repo://example/rust/unrelated", EntityKind::Callable),
        entity("graphql-argument://Mutation/createOrder/input", EntityKind::GraphqlArgument),
        entity("graphql-enum-value://OrderMode/PREVIEW", EntityKind::GraphqlEnumValue),
        EntityFact {
            id: "graphql-operation://CreateOrder".to_owned(),
            kind: EntityKind::GraphqlOperation,
            metadata: Some(EntityMetadata::GraphqlOperation { kind: GraphqlOperationKind::Mutation }),
        },
    ];
    let analyzed = analyzed_state(&facts);
    store.publish(view("main", "analysis", states()), vec![facts], Vec::new()).unwrap();

    let rows = store
        .db
        .run_script(
            "?[kind, metadata] := *state_entity{state: $state, id: 'proto-type://pricing.v1.Quote', kind, metadata}",
            BTreeMap::from([("state".to_owned(), DataValue::from(analyzed))]),
            ScriptMutability::Immutable,
        )
        .unwrap();
    assert_eq!(texts(&rows, 0), ["proto_type"]);
    assert_eq!(texts(&rows, 1), ["proto_type:message"]);
    let context = store.context("main", "proto-type://pricing.v1.Quote");
    assert_eq!(context.root.kind, dto::EntityKind::ProtoMessage);
    assert_eq!(context.root.metadata, Some(EntityMetadata::ProtoType { kind: ProtoTypeKind::Message }));
    assert_eq!(context.nodes.len(), 1);
    assert_eq!(
        store.context("main", "graphql-argument://Mutation/createOrder/input").root.kind,
        dto::EntityKind::GraphqlArgument
    );
    assert_eq!(
        store.context("main", "graphql-enum-value://OrderMode/PREVIEW").root.kind,
        dto::EntityKind::GraphqlEnumValue
    );
    assert_eq!(
        store.context("main", "graphql-operation://CreateOrder").root.metadata,
        Some(EntityMetadata::GraphqlOperation { kind: GraphqlOperationKind::Mutation })
    );
}

#[test]
fn selects_declared_baseline_facts_and_relationship_endpoints() {
    let store = Store::memory();
    let states = || vec![state("app", None, "state")];
    let mut facts = facts_in(
        states().remove(0),
        "analysis",
        vec![Observation::dependency(
            "repo://app/elixir/Producer.publish/1",
            DependencyRelation::Publishes,
            "kafka-topic://events",
            "lib/producer.ex:3",
        )],
    );
    facts.entities = vec![
        entity("repo://app/elixir/Producer.publish/1", EntityKind::Callable),
        entity("kafka-topic://events", EntityKind::KafkaTopic),
        EntityFact {
            id: "proto-type://events.Envelope".to_owned(),
            kind: EntityKind::ProtoType,
            metadata: Some(EntityMetadata::ProtoType { kind: ProtoTypeKind::Message }),
        },
    ];
    let analyzed = analyzed_state(&facts);
    store.publish(view("main", "analysis", states()), vec![facts], Vec::new()).unwrap();

    let (entities, observations) = selected_baseline_semantics(
        &store.read(&ask_baseline_entities("main", "app", &analyzed)),
        &store.read(&ask_baseline_observations("main", "app", &analyzed)),
        &vec![EntityKind::ProtoType],
        &vec![SemanticRelation::Dependency(DependencyRelation::Publishes)],
    )
    .unwrap();

    assert_eq!(entities.len(), 3);
    assert_eq!(observations.len(), 1);
    assert_eq!(beholder::domain::relation_name(observations[0].relation), "publishes");
}

#[test]
fn stores_entities_across_batch_boundaries() {
    let store = Store::memory();
    let entities: Vec<EntityFact> =
        (0..=FACT_BATCH_SIZE).map(|index| entity(&format!("repo://example/entity/{index}"), EntityKind::Callable)).collect();

    for command in store_entities("state", &entities) {
        store.write(&command);
    }

    let rows = store.script("?[count(id)] := *state_entity{state: 'state', id}");
    assert_eq!(rows.rows[0][0].get_int(), Some((FACT_BATCH_SIZE + 1) as i64));
}

#[test]
fn stores_one_row_for_duplicate_semantic_edges() {
    let store = Store::memory();
    let observations =
        vec![calls("repo/source", "repo/target", "src/lib.rs:1"), calls("repo/source", "repo/target", "src/lib.rs:2")];

    for command in store_observations("state", &observations) {
        store.write(&command);
    }

    let rows = store.script("?[evidence] := *state_observation{state: 'state', evidence}");
    assert_eq!(texts(&rows, 0), ["src/lib.rs:2"]);
}

#[test]
fn resolves_grpc_candidates_at_publication_and_republishes_unmatched() {
    let store = Store::memory();
    let application_state = || state("application", Some("app-head"), "app-state");
    let contract_state = || state("contracts", Some("contract-head"), "contract-state");
    let candidate = |local_symbol: &str, role: GrpcBindingRole, evidence: &str, confidence: Confidence| GrpcBindingCandidate {
        local_symbol: local_symbol.to_owned(),
        role,
        service: "pricing.v1.Pricing".to_owned(),
        method: "GetQuote".to_owned(),
        cardinality: RpcCardinality::Unary,
        evidence: evidence.to_owned(),
        confidence,
        provenance: Provenance::Ast,
    };
    let application = || {
        let mut facts = facts_in(application_state(), "rust", Vec::new());
        facts.grpc_bindings = vec![
            candidate(
                "repo://application/rust/client/get_quote",
                GrpcBindingRole::Client,
                "src/client.rs:12",
                Confidence::Inferred,
            ),
            candidate(
                "repo://application/rust/server/get_quote",
                GrpcBindingRole::Server,
                "src/server.rs:24",
                Confidence::Exact,
            ),
        ];
        facts
    };
    let mut contracts = facts_in(contract_state(), "protobuf", Vec::new());
    contracts.entities = vec![EntityFact {
        id: "proto-method://pricing.v1.Pricing/GetQuote".to_owned(),
        kind: EntityKind::ProtoMethod,
        metadata: Some(EntityMetadata::ProtoMethod { cardinality: RpcCardinality::Unary }),
    }];
    store
        .publish(
            view("grpc", "analysis", vec![application_state(), contract_state()]),
            vec![application(), contracts],
            Vec::new(),
        )
        .unwrap();

    let operation = "grpc://pricing.v1.Pricing/GetQuote";
    let context = store.context("grpc", operation);
    assert_eq!(context.root.kind, dto::EntityKind::Rpc);
    for kind in [SemanticRelation::Dependency(DependencyRelation::BindsContract), SemanticRelation::Dependency(DependencyRelation::CallsRpc), SemanticRelation::Dependency(DependencyRelation::ImplementedBy)] {
        assert!(context.edges.iter().any(|edge| edge.kind == kind));
    }
    let binding = context.edges.iter().find(|edge| edge.kind == SemanticRelation::Dependency(DependencyRelation::BindsContract)).unwrap();
    assert_eq!(binding.confidence, 1.0f64.to_bits());
    assert_eq!(binding.evidence.len(), 2);
    let impacted = store.impact("grpc", "proto-method://pricing.v1.Pricing/GetQuote", 32);
    for expected in
        [operation, "repo://application/rust/client/get_quote", "repo://application/rust/server/get_quote"]
    {
        assert!(impacted.nodes.iter().any(|node| node.id == expected), "missing {expected} from {:#?}", impacted.nodes);
    }

    let replacement = || state("contracts", Some("contract-head"), "contract-without-method");
    store
        .publish(
            view("grpc", "analysis", vec![application_state(), replacement()]),
            vec![application(), facts_in(replacement(), "protobuf", Vec::new())],
            Vec::new(),
        )
        .unwrap();

    assert!(store.context("grpc", operation).edges.is_empty());
    let bindings = format!("{:?}", store.read(&inspect_grpc_bindings()));
    assert!(bindings.contains("grpc.contract_unmatched"));
    assert!(bindings.contains("src/client.rs:12"));
    assert!(bindings.contains("src/server.rs:24"));
}

#[test]
fn publish_replaces_only_changed_facts() {
    let store = Store::memory();
    let publish = |fingerprint: &str, observations: Vec<Observation>| {
        store
            .publish(
                view("changing", "analysis", vec![state("repo", Some("head"), fingerprint)]),
                vec![facts_in(state("repo", Some("head"), fingerprint), "analysis", observations)],
                Vec::new(),
            )
            .unwrap()
    };
    let seeded = store.read(&inspect_observations(None)).rows.len();
    assert_eq!(
        publish("one", vec![calls("repo/a", "repo/b", "a.rs:1"), calls("repo/removed", "repo/b", "removed.rs:1")]),
        FactChanges { inserted: 2, updated: 0, removed: 0, unchanged: 0 }
    );
    assert_eq!(
        publish("two", vec![calls("repo/a", "repo/b", "a.rs:2"), calls("repo/new", "repo/b", "new.rs:1")]),
        FactChanges { inserted: 1, updated: 1, removed: 1, unchanged: 0 }
    );
    let observations = store.read(&inspect_observations(None));
    assert_eq!(observations.rows.len(), seeded + 4);
    assert!(format!("{observations:?}").contains("repo/removed"));
    assert!(format!("{observations:?}").contains("a.rs:2"));
    assert!(store.context("changing", "repo/removed").edges.is_empty());
    assert!(store.read(&inspect_revisions()).rows.iter().any(|row| row[1].as_i64() == Some(2)));
    assert!(store.read(&inspect_observations(Some("calls"))).rows.len() >= 4);
    assert!(store.read(&inspect_relations()).rows.iter().any(|row| row[0].as_str() == Some("state_entity")));
}

#[test]
fn repository_state_facts_are_reused_across_views_and_analysis_versions() {
    let store = Store::memory();
    let shared = || state("repo", Some("head"), "shared");
    let seeded = store.read(&inspect_observations(None)).rows.len();
    for (name, analysis_identity) in [("first", "analysis-v1"), ("second", "analysis-v2")] {
        store
            .publish(
                view(name, &format!("workspace-rules:{name}"), vec![shared()]),
                vec![facts_in(shared(), analysis_identity, vec![calls("repo/source", "repo/target", "src/lib.rs:1")])],
                Vec::new(),
            )
            .unwrap();
        assert_eq!(store.context(name, "repo/source").edges.len(), 1);
    }
    assert_eq!(store.read(&inspect_observations(None)).rows.len(), seeded + 1);
}

#[test]
fn legacy_analysis_state_is_reused_after_analyzer_invalidation() {
    let store = Store::memory();
    let legacy_state = "8:analysisshared";
    for command in store_observations(legacy_state, &vec![calls("repo/source", "repo/target", "src/lib.rs:1")]) {
        store.write(&command);
    }
    for script in [
        "?[fingerprint, repository, head] <- [['8:analysisshared', 'repo', 'head']] \
         :put repository_state {fingerprint => repository, head}",
        "?[view, revision] <- [['legacy', 1]] :put analysis_revision {view => revision}",
        "?[view, revision, repository, state] <- [['legacy', 1, 'repo', '8:analysisshared']] \
         :put analysis_revision_state {view, revision, repository => state}",
    ] {
        store.script(script);
    }
    let shared = || state("repo", Some("head"), "shared");
    store
        .publish(
            view("legacy", "analysis-v2", vec![shared()]),
            vec![facts_in(shared(), "analysis-v2", vec![calls("repo/source", "repo/target", "src/lib.rs:1")])],
            Vec::new(),
        )
        .unwrap();
    let selected = store.script(
        "?[state] := *analysis_revision{view: 'legacy', revision}, \
         *analysis_revision_state{view: 'legacy', revision, repository: 'repo', state}",
    );
    assert_eq!(texts(&selected, 0), [legacy_state]);
}

#[test]
fn workspace_override_connects_selected_repository_states() {
    let store = Store::memory();
    let source = || state("source", Some("source-head"), "source-state");
    let target = || state("target", Some("target-head"), "target-state");
    let resolved = "repo://target/rust/lib/helper";
    store
        .publish(
            view("joined", "analysis", vec![source(), target()]),
            vec![
                facts_in(
                    source(),
                    "analysis",
                    vec![calls("repo://source/rust/lib/caller", "rust-call://helper", "src/lib.rs:1")],
                ),
                facts_in(
                    target(),
                    "analysis",
                    vec![Observation::structural(
                        "repo://target/rust/lib",
                        StructuralRelation::Defines,
                        resolved,
                        "src/lib.rs:1",
                    )],
                ),
            ],
            vec![DependencyOverride {
                from: "repo://source/rust/lib/caller".to_owned(),
                relation: DependencyRelation::Calls,
                unresolved_to: "rust-call://helper".to_owned(),
                resolved_to: resolved.to_owned(),
                evidence: "src/lib.rs:1".to_owned(),
                confidence: Confidence::Inferred,
                provenance: Provenance::UniqueNameHeuristic,
            }],
        )
        .unwrap();

    let context = store.context("joined", "repo://source/rust/lib/caller");
    let edge = context.edges.iter().find(|edge| edge.to == resolved).unwrap();
    assert_eq!(edge.confidence, 0.6f64.to_bits());
    assert_eq!(edge.evidence[0].source_kind, EvidenceKind::Inference);
    assert_eq!(edge.evidence[0].detail.as_deref(), Some("unique_name_heuristic"));
    let shown = format!("{context:?}");
    assert!(shown.contains(resolved));
    assert!(!shown.contains("rust-call://helper"));
    assert!(store.trace("joined", "repo://source/rust/lib/caller", resolved, 8).path.is_some());
    assert!(store
        .dependencies("joined", "repo://source/rust/lib/caller", 8)
        .reached
        .iter()
        .any(|dependency| dependency.entity == resolved));
    assert!(store
        .impact("joined", resolved, 8)
        .reached
        .iter()
        .any(|affected| affected.entity == "repo://source/rust/lib/caller"));
}

#[test]
fn carries_forward_only_unchanged_repository_enrichments() {
    let store = Store::memory();
    let analyzers: &[(&str, &[(&str, &str)])] = &[("rust", &[])];
    let publish = |a: &str, b: &str| {
        let states = || vec![state("example/a", Some("head"), a), state("example/b", Some("head"), b)];
        let facts: Vec<RepositoryFacts> =
            states().into_iter().map(|state| facts_in(state, "analysis", Vec::new())).collect();
        store.publish(view_with("incremental", "syntax", states(), analyzers), facts, Vec::new()).unwrap()
    };
    publish("a-1", "b-1");
    let enrich = |repository: &str, input: &str| {
        let mut payload = payload();
        payload.entities.push(entity(&format!("repo://{repository}/rust/lib/generated"), EntityKind::Callable));
        store.publish_enrichment("incremental", repository, input, ("rust", "1"), payload).unwrap()
    };
    assert!(enrich("example/a", "rust example/a=a-1"));
    assert!(enrich("example/b", "rust example/b=b-1"));
    assert!(store.enrichments_current("incremental", &[("rust", "1")]));

    publish("a-2", "b-1");

    assert!(!store.enrichment_matches("incremental", "example/a", "rust", "1"));
    assert!(!store.enrichments_current("incremental", &[("rust", "1")]));
    assert!(store.enrichment_matches("incremental", "example/b", "rust", "1"));
    let current = texts(
        &store.script(
            "?[id] := *analysis_revision{view: 'incremental', revision}, \
             *analysis_revision_entity{view: 'incremental', revision, id}",
        ),
        0,
    );
    assert!(current.contains(&"repo://example/b/rust/lib/generated".to_owned()));
    assert!(!current.contains(&"repo://example/a/rust/lib/generated".to_owned()));
}

#[test]
fn publishes_a_target_result_after_an_unrelated_repository_changes() {
    let store = Store::memory();
    let analyzers: &[(&str, &[(&str, &str)])] = &[("rust", &[("example/a", "example/b")])];
    let publish = |a: &str, b: &str, c: &str| {
        let states = || vec![state("example/a", None, a), state("example/b", None, b), state("example/c", None, c)];
        let facts: Vec<RepositoryFacts> =
            states().into_iter().map(|state| facts_in(state, "analysis", Vec::new())).collect();
        store.publish(view_with("concurrent", "syntax", states(), analyzers), facts, Vec::new()).unwrap()
    };
    publish("a-1", "b-1", "c-1");
    let target_input = "rust example/a=a-1 example/b=b-1";
    publish("a-1", "b-1", "c-2");

    assert!(store.publish_enrichment("concurrent", "example/a", target_input, ("rust", "1"), payload()).unwrap());
    assert!(store.enrichment_matches("concurrent", "example/a", "rust", "1"));

    publish("a-1", "b-2", "c-2");
    assert!(!store.publish_enrichment("concurrent", "example/a", target_input, ("rust", "2"), payload()).unwrap());
}

#[test]
fn persists_analyzer_scoped_context_identity_across_restart() {
    let store = Store::memory();
    let analyzers: &[(&str, &[(&str, &str)])] = &[("rust", &[("example/target", "example/context")])];
    let states = || {
        vec![
            state("example/target", None, "example/target-source"),
            state("example/context", None, "example/context-source"),
        ]
    };
    let facts: Vec<RepositoryFacts> = states().into_iter().map(|state| facts_in(state, "syntax", Vec::new())).collect();
    store.publish(view_with("persistent-context", "syntax", states(), analyzers), facts, Vec::new()).unwrap();

    let found = revision_enrichment_input_fingerprint(&store.read(&ask_enrichment_input(
        "persistent-context",
        "example/target",
        "rust",
    )));
    assert_eq!(
        found.as_deref(),
        Some("rust example/target=example/target-source example/context=example/context-source")
    );
    assert_eq!(
        repository_contexts(&store.read(&ask_contexts("persistent-context", "example/target", "rust"))),
        ["example/context"]
    );
}

#[test]
fn publishes_enrichment_only_for_the_current_baseline() {
    let store = Store::memory();
    let analyzers: &[(&str, &[(&str, &str)])] = &[("rust", &[])];
    let source = || state("example/repo", Some("head"), "source");
    let input = "rust example/repo=source";
    let caller = "repo://example/repo/rust/lib/caller";
    let mut baseline = facts_in(source(), "analysis", vec![calls(caller, "rust-call://helper", "src/lib.rs:2")]);
    baseline.diagnostics.push(AnalysisDiagnostic {
        code: "rust.syntax_recovered".to_owned(),
        severity: AnalysisDiagnosticSeverity::Warning,
        path: "src/lib.rs".to_owned(),
        line: Some(1),
        detail: None,
    });
    store.publish(view_with("enriched", "syntax", vec![source()], analyzers), vec![baseline], Vec::new()).unwrap();
    let resolved = "repo://example/repo/rust/lib/helper";
    let mut contributed = payload();
    contributed.overrides.push(DependencyOverride {
        from: caller.to_owned(),
        relation: DependencyRelation::Calls,
        unresolved_to: "rust-call://helper".to_owned(),
        resolved_to: resolved.to_owned(),
        evidence: "src/lib.rs:2".to_owned(),
        confidence: Confidence::Exact,
        provenance: Provenance::Compiler,
    });
    contributed.diagnostics.push(OwnedDiagnostic {
        repository: "example/repo".to_owned(),
        diagnostic: AnalysisDiagnostic {
            code: "rust.semantic_resolution_unavailable".to_owned(),
            severity: AnalysisDiagnosticSeverity::KnownLimitation,
            path: "Cargo.toml".to_owned(),
            line: None,
            detail: Some("compiler analysis was partial".to_owned()),
        },
    });
    assert!(store.publish_enrichment("enriched", "example/repo", input, ("rust", "1"), contributed).unwrap());
    assert!(store.enrichment_matches("enriched", "example/repo", "rust", "1"));
    let context = store.context("enriched", caller);
    let edge = context.edges.iter().find(|edge| edge.to == resolved).unwrap();
    assert_eq!(edge.confidence, 1.0f64.to_bits());
    assert_eq!(edge.evidence[0].source_kind, EvidenceKind::Compiler);
    assert_eq!(store.analysis("enriched").unwrap().diagnostics.len(), 2);
    assert!(store.publish_enrichment("enriched", "example/repo", input, ("rust", "2"), payload()).unwrap());
    let context = store.context("enriched", caller);
    assert!(context.edges.iter().any(|edge| edge.to == "rust-call://helper"));
    assert!(context.edges.iter().all(|edge| edge.to != resolved));
    let diagnostics = store.analysis("enriched").unwrap().diagnostics;
    assert_eq!(diagnostics.len(), 1);
    assert_eq!(diagnostics[0].code, "rust.syntax_recovered");

    assert!(!store
        .publish_enrichment("enriched", "example/repo", "rust example/repo=new-source", ("rust", "1"), payload())
        .unwrap());
}

#[test]
fn publishes_and_retracts_additive_enrichment_facts() {
    let store = Store::memory();
    let analyzers: &[(&str, &[(&str, &str)])] = &[("elixir", &[])];
    let source = || state("example/repo", Some("head"), "source");
    store
        .publish(
            view_with("elixir-enriched", "syntax", vec![source()], analyzers),
            vec![facts_in(source(), "analysis", Vec::new())],
            Vec::new(),
        )
        .unwrap();
    let input = "elixir example/repo=source";
    let generated = "repo://example/repo/elixir/Example/generated/0";
    let mut contributed = payload();
    contributed.entities.push(entity(generated, EntityKind::Callable));
    contributed.observations.push(Observation {
        from: generated.to_owned(),
        relation: SemanticRelation::Dependency(DependencyRelation::Calls),
        to: "elixir-call://External/run/0".to_owned(),
        evidence: "lib/example.ex:2 (compiler remote_function via macro expansion)".to_owned(),
        confidence: Confidence::Inferred,
        provenance: Provenance::Compiler,
    });

    assert!(store.publish_enrichment("elixir-enriched", "example/repo", input, ("elixir", "1"), contributed).unwrap());
    let context = store.context("elixir-enriched", generated);
    assert_eq!(context.edges.len(), 1);
    assert_eq!(context.edges[0].confidence, 0.6f64.to_bits());
    assert_eq!(context.edges[0].evidence[0].source_kind, EvidenceKind::Compiler);

    assert!(store.publish_enrichment("elixir-enriched", "example/repo", input, ("elixir", "2"), payload()).unwrap());
    assert!(store.context("elixir-enriched", generated).edges.is_empty());
    let rows = store
        .db
        .run_script(
            "?[id] := *analysis_revision{view: $view, revision}, \
             *analysis_revision_entity{view: $view, revision, id}, id = $id",
            BTreeMap::from([
                ("view".to_owned(), DataValue::from("elixir-enriched")),
                ("id".to_owned(), DataValue::from(generated)),
            ]),
            ScriptMutability::Immutable,
        )
        .unwrap();
    assert!(rows.rows.is_empty());
}

#[test]
fn colliding_enrichment_facts_never_replace_or_retract_baseline_facts() {
    let store = Store::memory();
    let analyzers: &[(&str, &[(&str, &str)])] = &[("compiler", &[])];
    let source = || state("example/repo", None, "source");
    let id = "repo://example/repo/shared";
    let diagnostic = |detail: &str| AnalysisDiagnostic {
        code: "shared.warning".to_owned(),
        severity: AnalysisDiagnosticSeverity::KnownLimitation,
        path: "src/lib.rs".to_owned(),
        line: Some(7),
        detail: Some(detail.to_owned()),
    };
    let override_to = |resolved_to: &str, confidence: Confidence, provenance: Provenance| DependencyOverride {
        from: id.to_owned(),
        relation: DependencyRelation::Calls,
        unresolved_to: "call://shared".to_owned(),
        resolved_to: resolved_to.to_owned(),
        evidence: "src/lib.rs:1".to_owned(),
        confidence,
        provenance,
    };
    let mut baseline = facts_in(source(), "analysis", vec![calls(id, "call://shared", "src/lib.rs:1")]);
    baseline.entities.push(entity(id, EntityKind::Callable));
    baseline.diagnostics.push(diagnostic("baseline detail"));
    store
        .publish(
            view_with("baseline-collision", "syntax", vec![source()], analyzers),
            vec![baseline],
            vec![override_to("repo://example/repo/baseline-target", Confidence::Exact, Provenance::Ast)],
        )
        .unwrap();

    let input = "compiler example/repo=source";
    let mut contributed = payload();
    contributed.entities.push(entity(id, EntityKind::Namespace));
    contributed.observations.push(Observation {
        from: id.to_owned(),
        relation: SemanticRelation::Dependency(DependencyRelation::Calls),
        to: "call://shared".to_owned(),
        evidence: "src/lib.rs:1".to_owned(),
        confidence: Confidence::Inferred,
        provenance: Provenance::Compiler,
    });
    contributed.overrides.push(override_to(
        "repo://example/repo/analyzer-target",
        Confidence::Inferred,
        Provenance::Compiler,
    ));
    contributed.diagnostics.push(OwnedDiagnostic {
        repository: "example/repo".to_owned(),
        diagnostic: diagnostic("analyzer detail"),
    });
    assert!(store
        .publish_enrichment("baseline-collision", "example/repo", input, ("compiler", "1"), contributed)
        .unwrap());
    assert_eq!(store.current_revision("baseline-collision"), 1);
    assert!(store
        .publish_enrichment("baseline-collision", "example/repo", input, ("compiler", "2"), payload())
        .unwrap());
    assert_eq!(store.current_revision("baseline-collision"), 1);
    let rows = store
        .db
        .run_script(
            "?[kind, confidence, provenance, resolved_to, override_provenance, detail] := \
                 *analysis_revision{view: 'baseline-collision', revision}, \
                 *analysis_revision_state{view: 'baseline-collision', revision, state}, \
                 *state_entity{state, id: $id, kind}, \
                 *state_observation_metadata{\
                     state, from: $id, relation: 'calls', to: 'call://shared', confidence, \
                     provenance\
                 }, not *analysis_revision_entity{\
                     view: 'baseline-collision', revision, id: $id\
                 }, not *analysis_revision_observation{\
                     view: 'baseline-collision', revision, from: $id, relation: 'calls', \
                     to: 'call://shared', evidence: 'src/lib.rs:1'\
                 }, *analysis_revision_dependency_override{\
                     view: 'baseline-collision', revision, from: $id, relation: 'calls', \
                     unresolved_to: 'call://shared', resolved_to\
                 }, *analysis_revision_dependency_override_metadata{\
                     view: 'baseline-collision', revision, from: $id, relation: 'calls', \
                     unresolved_to: 'call://shared', provenance: override_provenance\
                 }, *analysis_revision_diagnostic{\
                     view: 'baseline-collision', revision, repository: 'example/repo', \
                     code: 'shared.warning', severity: 'known_limitation', path: 'src/lib.rs', \
                     line: 7, detail\
                 }",
            BTreeMap::from([("id".to_owned(), DataValue::from(id))]),
            ScriptMutability::Immutable,
        )
        .unwrap();
    assert_eq!(rows.rows.len(), 1);
    assert_eq!(rows.rows[0][0].get_str(), Some("callable"));
    assert_eq!(rows.rows[0][1].get_float(), Some(1.0));
    assert_eq!(rows.rows[0][2].get_str(), Some("ast"));
    assert_eq!(rows.rows[0][3].get_str(), Some("repo://example/repo/baseline-target"));
    assert_eq!(rows.rows[0][4].get_str(), Some("ast"));
    assert_eq!(rows.rows[0][5].get_str(), Some("baseline detail"));
}

#[test]
fn identical_contributions_keep_independent_owners_without_revision_churn() {
    let store = Store::memory();
    let analyzers: &[(&str, &[(&str, &str)])] = &[("compiler-a", &[]), ("compiler-b", &[])];
    let source = || state("example/repo", None, "source");
    store
        .publish(
            view_with("multi-owner", "syntax", vec![source()], analyzers),
            vec![facts_in(source(), "analysis", Vec::new())],
            Vec::new(),
        )
        .unwrap();
    let id = "repo://example/repo/generated/shared";
    let shared = || {
        let mut contributed = payload();
        contributed.entities.push(entity(id, EntityKind::Callable));
        contributed
    };
    for analyzer in ["compiler-b", "compiler-a"] {
        let input = format!("{analyzer} example/repo=source");
        assert!(store.publish_enrichment("multi-owner", "example/repo", &input, (analyzer, "1"), shared()).unwrap());
    }
    assert_eq!(store.current_revision("multi-owner"), 2);
    let contributions = store
        .script("?[count(owner)] := *enrichment_entity_contribution{view: 'multi-owner', owner, id: 'repo://example/repo/generated/shared'}");
    assert_eq!(contributions.rows[0][0].get_int(), Some(2));

    let input_a = "compiler-a example/repo=source";
    let mut invalid = payload();
    invalid.diagnostics.push(OwnedDiagnostic {
        repository: "different/repository".to_owned(),
        diagnostic: AnalysisDiagnostic {
            code: "compiler.partial".to_owned(),
            severity: AnalysisDiagnosticSeverity::KnownLimitation,
            path: "src/lib.rs".to_owned(),
            line: None,
            detail: None,
        },
    });
    assert!(store.publish_enrichment("multi-owner", "example/repo", input_a, ("compiler-a", "invalid"), invalid).is_err());
    assert_eq!(store.current_revision("multi-owner"), 2);

    assert!(store.publish_enrichment("multi-owner", "example/repo", input_a, ("compiler-a", "2"), shared()).unwrap());
    assert_eq!(store.current_revision("multi-owner"), 2);
    assert!(store.enrichment_matches("multi-owner", "example/repo", "compiler-a", "2"));
    assert!(store.publish_enrichment("multi-owner", "example/repo", input_a, ("compiler-a", "3"), payload()).unwrap());
    assert_eq!(store.current_revision("multi-owner"), 2);
    assert_eq!(store.context("multi-owner", id).root.id, id);

    let input_b = "compiler-b example/repo=source";
    assert!(store.publish_enrichment("multi-owner", "example/repo", input_b, ("compiler-b", "2"), payload()).unwrap());
    assert_eq!(store.current_revision("multi-owner"), 3);
}

#[test]
fn removed_enrichment_owners_are_retracted_and_pruned() {
    let store = Store::memory();
    let both: &[(&str, &[(&str, &str)])] = &[("a", &[]), ("b", &[])];
    let only_b: &[(&str, &[(&str, &str)])] = &[("b", &[])];
    let states = || vec![state("repo-a", None, "repo-a-source"), state("repo-b", None, "repo-b-source")];
    let facts: Vec<RepositoryFacts> = states().into_iter().map(|state| facts_in(state, "analysis", Vec::new())).collect();
    store.publish(view_with("owner-removal", "syntax", states(), both), facts, Vec::new()).unwrap();

    for (repository, analyzer, ids) in [
        ("repo-a", "a", vec!["repo://repo-a/shared", "repo://repo-a/only-a"]),
        ("repo-a", "b", vec!["repo://repo-a/shared"]),
        ("repo-b", "a", vec!["repo://repo-b/only-a"]),
    ] {
        let mut contributed = payload();
        for id in ids {
            contributed.entities.push(entity(id, EntityKind::Callable));
        }
        let input = format!("{analyzer} {repository}={repository}-source");
        assert!(store.publish_enrichment("owner-removal", repository, &input, (analyzer, "1"), contributed).unwrap());
    }

    assert!(store.ensure_revision_inputs(&view_with("owner-removal", "syntax", states(), only_b)));
    assert_eq!(store.current_revision("owner-removal"), 4);
    let current_entity = |id: &str| {
        !store
            .db
            .run_script(
                "?[id] := *analysis_revision{view: 'owner-removal', revision}, \
                 *analysis_revision_entity{view: 'owner-removal', revision, id: $id}, id = $id",
                BTreeMap::from([("id".to_owned(), DataValue::from(id))]),
                ScriptMutability::Immutable,
            )
            .unwrap()
            .rows
            .is_empty()
    };
    assert!(current_entity("repo://repo-a/shared"));
    assert!(!current_entity("repo://repo-a/only-a"));
    let present = |owners: Vec<String>| {
        let list: Vec<DataValue> = owners.into_iter().map(|owner| DataValue::List(vec![DataValue::from(owner)])).collect();
        !store
            .db
            .run_script(
                "removed[owner] <- $owners\n\
                 present[owner] := removed[owner], *enrichment_output{view: 'owner-removal', owner}\n\
                 present[owner] := removed[owner], *enrichment_entity_contribution{view: 'owner-removal', owner}\n\
                 ?[owner] := present[owner]",
                BTreeMap::from([("owners".to_owned(), DataValue::List(list))]),
                ScriptMutability::Immutable,
            )
            .unwrap()
            .rows
            .is_empty()
    };
    assert!(!present(vec![enrichment_owner_key("a", "repo-a"), enrichment_owner_key("a", "repo-b")]));
    assert!(present(vec![enrichment_owner_key("b", "repo-a")]));

    let repo_b = || state("repo-b", None, "repo-b-source");
    store
        .publish(
            view_with("owner-removal", "syntax", vec![repo_b()], only_b),
            vec![facts_in(repo_b(), "analysis", Vec::new())],
            Vec::new(),
        )
        .unwrap();
    assert!(!current_entity("repo://repo-a/shared"));
    assert!(!present(vec![enrichment_owner_key("b", "repo-a")]));
}

#[test]
fn conflicting_overrides_use_confidence_then_owner_as_the_deterministic_policy() {
    let store = Store::memory();
    let analyzers: &[(&str, &[(&str, &str)])] = &[("a", &[]), ("b", &[])];
    let source = || state("example/repo", None, "source");
    let caller = "repo://example/repo/caller";
    store
        .publish(
            view_with("override-policy", "syntax", vec![source()], analyzers),
            vec![facts_in(source(), "analysis", vec![calls(caller, "call://target", "src/lib.rs:1")])],
            Vec::new(),
        )
        .unwrap();
    for (analyzer, resolved_to, provenance) in [
        ("b", "repo://example/repo/target-b", Provenance::Compiler),
        ("a", "repo://example/repo/target-a", Provenance::Ast),
    ] {
        let mut contributed = payload();
        contributed.overrides.push(DependencyOverride {
            from: caller.to_owned(),
            relation: DependencyRelation::Calls,
            unresolved_to: "call://target".to_owned(),
            resolved_to: resolved_to.to_owned(),
            evidence: "src/lib.rs:1".to_owned(),
            confidence: Confidence::Exact,
            provenance,
        });
        let input = format!("{analyzer} example/repo=source");
        assert!(store.publish_enrichment("override-policy", "example/repo", &input, (analyzer, "1"), contributed).unwrap());
    }
    let selected = store.script(
        "?[resolved_to, provenance] := *analysis_revision{view: 'override-policy', revision}, \
         *analysis_revision_dependency_override{\
             view: 'override-policy', revision, from: 'repo://example/repo/caller', relation: 'calls', \
             unresolved_to: 'call://target', resolved_to\
         }, *analysis_revision_dependency_override_metadata{\
             view: 'override-policy', revision, from: 'repo://example/repo/caller', relation: 'calls', \
             unresolved_to: 'call://target', provenance\
         }",
    );
    assert_eq!(selected.rows[0][0].get_str(), Some("repo://example/repo/target-a"));
    assert_eq!(selected.rows[0][1].get_str(), Some("ast"));

    let input = "a example/repo=source";
    assert!(store.publish_enrichment("override-policy", "example/repo", input, ("a", "2"), payload()).unwrap());
    assert!(store
        .context("override-policy", caller)
        .edges
        .iter()
        .any(|edge| edge.to == "repo://example/repo/target-b"));
}

#[test]
fn garbage_collection_sweeps_superseded_revisions_without_stale_states() {
    let store = Store::memory();
    let analyzers: &[(&str, &[(&str, &str)])] = &[("rust", &[])];
    let source = || state("example/repo", None, "source");
    store
        .publish(
            view_with("revision-gc", "syntax", vec![source()], analyzers),
            vec![facts_in(source(), "analysis", Vec::new())],
            Vec::new(),
        )
        .unwrap();
    let mut contributed = payload();
    contributed.entities.push(entity("repo://example/repo/generated", EntityKind::Callable));
    assert!(store
        .publish_enrichment("revision-gc", "example/repo", "rust example/repo=source", ("rust", "1"), contributed)
        .unwrap());
    assert_eq!(store.garbage_collect(), 0);
    assert!(store.garbage_collection_pending());
    store.sweep(&mut Vec::new());
    assert!(!store.garbage_collection_pending());
    let old =
        store.script("?[revision] := *analysis_revision_metadata{view: 'revision-gc', revision}, revision < 2");
    assert!(old.rows.is_empty());
}

#[test]
fn fact_shard_selection_reuses_unchanged_versions_and_replaces_one_owner() {
    let store = Store::memory();
    let owner = "repo://example/repository/rust/lib/run";
    let source = || state("example/repository", None, "state");
    let shard = |version: &str, target: &str| FactShard {
        repository: "example/repository".to_owned(),
        producer: "rust".to_owned(),
        owner: owner.to_owned(),
        version: version.to_owned(),
        entities: vec![entity(owner, EntityKind::Callable), entity(target, EntityKind::Callable)],
        observations: vec![calls(owner, target, "src/lib.rs:1")],
    };
    let publish = |fact_shards: Vec<FactShard>, verified: &str| {
        store
            .publish_all(&Publication {
                view: view("incremental", "analysis", vec![source()]),
                repositories: vec![facts_in(source(), "analysis", Vec::new())],
                overrides: Vec::new(),
                fact_shards,
                verification_fingerprint: Some(verified.to_owned()),
                sharded: true,
            })
            .unwrap()
    };

    assert_eq!(publish(vec![shard("body-1", "rust-call://first")], "verified-1").inserted, 1);
    assert_eq!(store.context("incremental", owner).edges[0].to, "rust-call://first");
    assert!(store
        .impact("incremental", "rust-call://first", 1)
        .reached
        .iter()
        .any(|affected| affected.entity == owner));

    assert_eq!(publish(vec![shard("body-1", "rust-call://first")], "verified-1").unchanged, 1);

    let changes = publish(vec![shard("body-2", "rust-call://second")], "verified-2");
    assert_eq!(changes.updated, 1);
    assert_eq!(changes.inserted, 0);
    assert_eq!(changes.removed, 0);
    let context = store.context("incremental", owner);
    assert_eq!(context.edges.len(), 1);
    assert_eq!(context.edges[0].to, "rust-call://second");
    let dependencies = store.dependencies("incremental", owner, 1);
    assert!(dependencies.reached.iter().any(|dependency| dependency.entity == "rust-call://second"));
    assert!(!dependencies.reached.iter().any(|dependency| dependency.entity == "rust-call://first"));

    assert_eq!(publish(Vec::new(), "verified-3").removed, 1);
    assert!(store.context("incremental", owner).edges.is_empty());
    assert!(store.dependencies("incremental", owner, 1).reached.is_empty());
    assert!(view_matches(&store.read(&ask_verification_matches("incremental", "verified-3"))));
    assert!(!view_matches(&store.read(&ask_verification_matches("incremental", "verified-2"))));
}

#[test]
fn views_are_told_by_their_fingerprints() {
    let store = Store::memory();
    let at = |fingerprint: &str| view("matched", "analysis", vec![state("repo", Some("head"), fingerprint)]);
    assert!(!view_matches(&store.read(&ask_view_matches(&at("one")))));
    store
        .publish(at("one"), vec![facts_in(state("repo", Some("head"), "one"), "analysis", Vec::new())], Vec::new())
        .unwrap();
    assert!(view_matches(&store.read(&ask_view_matches(&at("one")))));
    assert!(!view_matches(&store.read(&ask_view_matches(&at("two")))));
    assert!(!store.ensure_revision_inputs(&at("two")));

    store.write(&store_verification_fingerprint("matched", "checked"));
    assert!(view_matches(&store.read(&ask_verification_matches("matched", "checked"))));

    let heads = run::<PublishedRepositoryHead>(store.read(&ask_published_head("matched", "repo"))).unwrap();
    assert_eq!(published_repository_head(&heads).as_deref(), Some("head"));
}

#[test]
fn facts_must_be_those_of_the_view() {
    let store = Store::memory();
    let error = store.publish(
        view("mismatched", "analysis", vec![state("repo", None, "one")]),
        vec![facts_in(state("repo", None, "two"), "analysis", Vec::new())],
        Vec::new(),
    );
    assert!(error.is_err());
}

#[test]
fn standalone_repository_facts_are_reused_by_a_workspace() {
    let store = Store::memory();
    let source = || state("example/repository", Some("head"), "source-state");
    let repository = || {
        let mut facts = facts_in(source(), "analysis-v1", vec![calls("repo/source", "repo/target", "src/lib.rs:1")]);
        facts.diagnostics.push(AnalysisDiagnostic {
            code: "typescript.syntax_recovered".to_owned(),
            severity: AnalysisDiagnosticSeverity::Warning,
            path: "src/lib.ts".to_owned(),
            line: Some(3),
            detail: Some("recovered".to_owned()),
        });
        facts.entities =
            vec![entity("repo/source", EntityKind::Callable), entity("repo/target", EntityKind::Callable)];
        facts
    };

    assert!(store.publish_repository(&repository()).unwrap());
    assert!(!store.publish_repository(&repository()).unwrap());
    let standalone = store.script(
        "?[source_state, analyzed_state] := \
         *repository_revision{repository: 'example/repository', source_state, analyzed_state}",
    );
    assert_eq!(texts(&standalone, 0), ["source-state"]);
    let analyzed = texts(&standalone, 1);
    let revisions = run::<RepositoryRevisionQuery>(store.read(&ask_repository_revision("example/repository"))).unwrap();
    let diagnostics =
        run::<RepositoryDiagnosticsQuery>(store.read(&ask_repository_diagnostics("example/repository"))).unwrap();
    let revision = repository_revision("example/repository", revisions, diagnostics).unwrap();
    assert_eq!(revision.source_state, "source-state");
    assert_eq!(revision.analysis.diagnostics[0].detail.as_deref(), Some("recovered"));
    assert_eq!(store.garbage_collect(), 0);

    store.publish(view("standalone-reuse", "rules", vec![source()]), vec![repository()], Vec::new()).unwrap();
    let selected = store.script(
        "?[state] := *analysis_revision{view: 'standalone-reuse', revision}, \
         *analysis_revision_state{view: 'standalone-reuse', revision, repository: 'example/repository', state}",
    );
    assert_eq!(texts(&selected, 0), analyzed);
    let observations =
        store.script("?[state] := *state_observation{state, from: 'repo/source', to: 'repo/target'}");
    assert_eq!(observations.rows.len(), 1);
    assert_eq!(store.delete_repository_revision("example/repository").unwrap(), 0);
    assert_eq!(store.garbage_collection_queued(), 0);
    assert_eq!(store.context("standalone-reuse", "repo/source").edges.len(), 1);
}

#[test]
fn deleted_revisions_queue_states_that_nothing_refers_to() {
    let store = Store::memory();
    let facts = facts_in(
        state("example/repository", Some("head"), "source-state"),
        "analysis",
        vec![calls("repo/source", "repo/target", "src/lib.rs:1")],
    );
    assert!(store.publish_repository(&facts).unwrap());
    assert_eq!(store.delete_repository_revision("example/repository").unwrap(), 1);
    assert!(run::<RepositoryRevisionQuery>(store.read(&ask_repository_revision("example/repository"))).unwrap().is_empty());
    assert_eq!(store.garbage_collection_queued(), 1);
    assert_eq!(store.delete_repository_revision("example/repository").unwrap(), 0);
}

#[test]
fn snapshot_preserves_incomplete_analysis_metadata() {
    let store = Store::memory();
    let mut repository = facts_in(state("repo", Some("head"), "state"), "analysis", Vec::new());
    repository.incomplete = true;
    repository.diagnostics.push(AnalysisDiagnostic {
        code: "typescript.syntax_recovered".to_owned(),
        severity: AnalysisDiagnosticSeverity::Warning,
        path: "src/broken.ts".to_owned(),
        line: Some(7),
        detail: Some("unexpected token".to_owned()),
    });
    store
        .publish(view("main", "analysis", vec![state("repo", Some("head"), "state")]), vec![repository], Vec::new())
        .unwrap();

    let analysis = store.analysis("main").unwrap();

    assert_eq!(analysis.completeness, AnalysisCompleteness::Incomplete);
    assert_eq!(analysis.diagnostics.len(), 1);
    let diagnostic = &analysis.diagnostics[0];
    assert_eq!(diagnostic.code, "typescript.syntax_recovered");
    assert_eq!(diagnostic.severity, AnalysisDiagnosticSeverity::Warning);
    assert_eq!(diagnostic.repository, "repo");
    assert_eq!(diagnostic.path, "src/broken.ts");
    assert_eq!(diagnostic.line, Some(7));
    assert!(store.analysis("pending").is_err());
}

#[test]
fn impact_traverses_dependants() {
    let store = Store::memory();
    store.materialize("main");
    let result = store.impact("main", "rpc/Pricing.GetPrice", 8);
    assert!(result.reached.iter().any(|value| value.entity == "web/CheckoutPage"));
    assert!(!result.reached.iter().any(|value| value.entity == "pricing/get_price"));
    let limited = store.impact("main", "rpc/Pricing.GetPrice", 1);
    assert!(limited.truncated);
    assert!(limited.reached.iter().all(|value| value.hops == 1));
}

#[test]
fn trace_chooses_a_string_predecessor() {
    let store = Store::memory();
    for script in [
        "?[state, from, relation, to, evidence] <- [
            ['diamond-state', 'start', 'calls', 'left', 'left:1'],
            ['diamond-state', 'start', 'calls', 'right', 'right:1'],
            ['diamond-state', 'left', 'calls', 'end', 'left:2'],
            ['diamond-state', 'right', 'calls', 'end', 'right:2'],
            ['diamond-state', 'before', 'calls', 'start', 'before:1'],
            ['diamond-state', 'end', 'calls', 'far', 'far:1'],
         ]
         :put state_observation {state, from, relation, to => evidence}",
        "?[state, from, relation, to, confidence, provenance] :=
             *state_observation{state, from, relation, to}, confidence = 1.0, provenance = 'ast'
         :put state_observation_metadata {state, from, relation, to => confidence, provenance}",
        "?[view, revision] <- [['diamond', 0]] :put analysis_revision {view => revision}",
        "?[view, revision, repository, state] <- [['diamond', 0, 'diamond', 'diamond-state']]
         :put analysis_revision_state {view, revision, repository => state}",
    ] {
        store.script(script);
    }
    store.materialize("diamond");

    let result = store.trace("diamond", "start", "end", 8);
    assert_eq!(result.path.unwrap().nodes, ["start", "left", "end"]);

    let boundary = store.closure("diamond", "start", 0, TraversalDirection::Outgoing);
    assert_eq!(boundary.rows.len(), 1);

    let limited_impact = store.closure("diamond", "end", 1, TraversalDirection::Incoming);
    assert!(limited_impact.rows.iter().all(|row| row[3].as_str() != Some("before")));
    let limited = store.trace("diamond", "start", "end", 1);
    assert!(limited.path.is_none());
    assert!(limited.truncated);
}

#[test]
fn typed_trace_deduplicates_graph_and_resolves_path_references() {
    let store = Store::memory();
    store.materialize("main");
    let result = store.trace("main", "web/CheckoutPage", "cache/update_price", 8);
    let mut nodes: Vec<&str> = result.nodes.iter().map(|node| node.id.as_str()).collect();
    let mut edges: Vec<&str> = result.edges.iter().map(|edge| edge.id.as_str()).collect();
    let (node_count, edge_count) = (nodes.len(), edges.len());
    nodes.sort();
    nodes.dedup();
    edges.sort();
    edges.dedup();
    assert_eq!(nodes.len(), node_count);
    assert_eq!(edges.len(), edge_count);
    assert_eq!(result.nodes[0].kind, dto::EntityKind::Callable);
    assert!(result.edges.iter().all(|edge| {
        edge.confidence == 1.0f64.to_bits()
            && edge.evidence.iter().all(|evidence| evidence.source_kind == EvidenceKind::Ast)
    }));
    let path = result.path.unwrap();
    assert!(path.nodes.iter().all(|id| nodes.contains(&id.as_str())));
    assert!(path.edges.iter().all(|id| edges.contains(&id.as_str())));
}

#[test]
fn query_workspace_smoke() {
    let store = Store::memory();
    store.materialize("main");
    store.materialize("feature");
    let feature = store.script(
        "?[provider] := *analysis_resolved_dependency{\
         view: 'feature', from: 'rpc/Pricing.GetPrice', to: provider, relation: 'implemented_by'}",
    );
    assert_eq!(texts(&feature, 0), ["pricing/get_price_v2"]);

    let result = store.context("main", "rpc/Pricing.GetPrice");
    assert_eq!(result.edges.len(), 2);
    assert!(result.nodes.iter().any(|value| value.id == "pricing/get_price"));
}

#[test]
fn structural_facts_are_context_only() {
    let store = Store::memory();
    let source = || state("repo", Some("head"), "state");
    store
        .publish(
            view("structural", "analysis", vec![source()]),
            vec![facts_in(
                source(),
                "analysis",
                vec![
                    Observation::structural("repo/file", StructuralRelation::Defines, "repo/caller", "src/lib.rs:1"),
                    calls("repo/caller", "repo/target", "src/lib.rs:2"),
                ],
            )],
            Vec::new(),
        )
        .unwrap();
    assert_eq!(store.context("structural", "repo/file").edges.len(), 1);
    assert!(store.trace("structural", "repo/file", "repo/target", 8).path.is_none());
    assert!(store.trace("structural", "repo/caller", "repo/target", 8).path.is_some());
    assert_eq!(store.context("structural", "repo/target").edges.len(), 1);
}

#[test]
fn interrupted_enrichment_migration_resumes_until_the_marker_is_committed() {
    let store = Store::memory();
    store
        .publish(
            view("legacy-enrichment", "analysis", vec![state("example/repo", None, "source")]),
            vec![facts_in(state("example/repo", None, "source"), "analysis", Vec::new())],
            Vec::new(),
        )
        .unwrap();
    for script in [
        "?[view, revision, owner, repository, analyzer, version, input_fingerprint] <- \
             [['legacy-enrichment', 1, 'owner', 'example/repo', 'rust', '1', 'input']] \
         :put analysis_revision_repository_enrichment {\
             view, revision, owner => repository, analyzer, version, input_fingerprint\
         }",
        "?[view, revision, id, kind, metadata] <- \
             [['legacy-enrichment', 1, 'generated', 'callable', '']] \
         :put analysis_revision_entity {view, revision, id => kind, metadata}",
        "?[view, revision, id, analyzer] <- \
             [['legacy-enrichment', 1, 'generated', 'owner']] \
         :put analysis_revision_enrichment_entity_owner {view, revision, id => analyzer}",
        "?[view, owner, repository, analyzer, version, input_fingerprint] <- \
             [['legacy-enrichment', 'owner', 'example/repo', 'rust', '1', 'input']] \
         :put enrichment_output {\
             view, owner => repository, analyzer, version, input_fingerprint\
         }",
        "?[name] <- [['enrichment-ownership']] :rm schema_migration {name}",
    ] {
        store.script(script);
    }

    store.set_up(Setup::on_disk(true));

    let migrated = store.script(
        "?[kind, version] := *enrichment_entity_contribution{\
             view: 'legacy-enrichment', owner: 'owner', id: 'generated', kind\
         }, *schema_migration{name: 'enrichment-ownership', version}",
    );
    assert_eq!(migrated.rows.len(), 1);
    assert_eq!(migrated.rows[0][0].get_str(), Some("callable"));
    assert_eq!(migrated.rows[0][1].get_int(), Some(1));
    assert!(store.script("::relations").rows.iter().all(|row| row[0].get_str() != Some("enrichment_job")));
}

#[test]
fn existing_database_accepts_repository_state_facts() {
    let db = DbInstance::new("mem", "", "").unwrap();
    let store = Store { db, rules: rules() };
    store.script(
        ":create observation {view: String, from: String, relation: String, to: String => evidence: String}",
    );
    store.set_up(Setup::on_disk(true));
    assert!(!store.garbage_collection_pending());
    let relations = store.read(&ask_relations());
    assert!(create_relations(&relations, true).is_empty());
    assert!(create_indexes(&relations).is_empty());
    assert_eq!(store.garbage_collection_queued(), 0);
}

#[test]
fn garbage_collection_queues_stale_states_and_sweeps_them_in_restart_safe_batches() {
    let store = Store::memory();
    let publish = |fingerprint: &str, observations: Vec<Observation>| {
        store
            .publish(
                view("collected", "analysis", vec![state("repo", Some(fingerprint), fingerprint)]),
                vec![facts_in(state("repo", Some(fingerprint), fingerprint), "analysis", observations)],
                Vec::new(),
            )
            .unwrap()
    };
    let resurrected = || vec![calls("repo/resurrected", "repo/target", "src/lib.rs:resurrected")];
    publish(
        "old",
        (0..10_001).map(|index| calls(&format!("repo/old/{index}"), "repo/target", &format!("src/lib.rs:{index}"))).collect(),
    );
    publish("resurrected", resurrected());
    publish("current", vec![calls("repo/source", "repo/target", "src/lib.rs:current")]);
    for fingerprint in ["standalone-old", "standalone-current"] {
        assert!(store
            .publish_repository(&facts_in(
                state("standalone", Some(fingerprint), fingerprint),
                "analysis",
                vec![calls(&format!("standalone/{fingerprint}"), "standalone/target", "src/lib.rs:1")],
            ))
            .unwrap());
    }

    assert_eq!(store.garbage_collection_candidates(), 3);
    assert_eq!(store.garbage_collect(), 3);
    assert_eq!(store.garbage_collection_candidates(), 0);
    assert!(store.garbage_collection_pending());
    assert_eq!(store.garbage_collection_queued(), 3);

    publish("resurrected", resurrected());

    let mut progress: Vec<SweepProgress> = Vec::new();
    assert_eq!(store.sweep(&mut progress), 3);
    let updates: Vec<&SweepProgress> =
        progress.iter().filter(|event| event.step.starts_with("stale observations ")).collect();
    let observations = updates.iter().find(|event| event.completed_rows == 10_001).unwrap();
    assert_eq!(observations.stale_states, 3);
    assert_eq!(observations.repositories, 2);
    assert!(observations.completed_steps < 3);
    let counted: Vec<u64> = updates
        .iter()
        .filter(|event| event.step == observations.step && event.completed_rows > 0)
        .map(|event| event.completed_rows)
        .collect();
    assert_eq!(counted, [10_000, 10_001]);
    assert!(!store.garbage_collection_pending());
    assert_eq!(store.garbage_collection_queued(), 0);
    assert_eq!(store.context("collected", "repo/resurrected").root.id, "repo/resurrected");
    assert_eq!(store.garbage_collection_candidates(), 1);
    assert_eq!(store.garbage_collect(), 1);
    assert_eq!(store.sweep(&mut Vec::new()), 1);
    let states = store.script("?[state] := *repository_state{fingerprint: state}");
    assert_eq!(states.rows.len(), 2);
    let old = store.script("?[state] := *state_observation{state, from: 'repo/old/0'}");
    assert!(old.rows.is_empty());
}

#[test]
fn a_sweep_stops_where_its_reports_are_declined() {
    let mut sweep = Sweep::start();
    let queue = InspectionResult {
        headers: vec!["state".to_owned(), "repository".to_owned()],
        rows: vec![vec![InspectionValue::String("old".to_owned()), InspectionValue::String("repo".to_owned())]],
        next: None,
    };
    sweep.take_queue(&queue).unwrap();
    assert!(sweep.report().is_some());
    sweep.reported(false);
    assert!(matches!(sweep.stage, SweepStage::Done));
    assert_eq!(sweep.states_collected(), 0);
}

#[test]
fn values_are_handed_on_as_they_were_read() {
    let list = || InspectionValue::List(vec![InspectionValue::Bytes(vec![1, 2]), InspectionValue::Null]);
    let stale = |name: InspectionValue| InspectionResult {
        headers: vec!["state".to_owned(), "repository".to_owned(), "head".to_owned()],
        rows: vec![vec![name, InspectionValue::String("repo".to_owned()), InspectionValue::String("head".to_owned())]],
        next: None,
    };
    let (queued, commands) = claim_garbage_collection(stale(list()));
    assert_eq!(queued, 1);
    assert_eq!(commands.len(), 2);
    let bytes = || DataValue::List(vec![DataValue::from(vec![1u8, 2u8]), DataValue::Null]);
    let row = vec![bytes(), DataValue::from("repo"), DataValue::from("head")];
    assert_eq!(arguments(&commands[0])["rows"], DataValue::List(vec![DataValue::List(row)]));
    assert_eq!(arguments(&commands[1])["states"], DataValue::List(vec![DataValue::List(vec![bytes()])]));
    assert!(claim_garbage_collection(InspectionResult { headers: Vec::new(), rows: Vec::new(), next: None }).1.is_empty());

    for (revision, bound) in [
        (InspectionValue::Integer(7), DataValue::from(7i64)),
        (InspectionValue::Float(1.5f64.to_bits()), DataValue::from(1.5f64)),
        (list(), bytes()),
    ] {
        let mut sweep = Sweep::start();
        sweep.take_queue(&InspectionResult { headers: Vec::new(), rows: Vec::new(), next: None }).unwrap();
        let views = InspectionResult {
            headers: vec!["view".to_owned(), "revision".to_owned()],
            rows: vec![vec![InspectionValue::String("shown".to_owned()), revision]],
            next: None,
        };
        assert!(are_wide(&views.rows, 2));
        assert!(!are_wide(&views.rows, 3));
        sweep.take_revisions(&views).unwrap();
        assert_eq!(sweep.report().unwrap().step, "superseded revision repository states from shown");
        sweep.reported(true);
        let bindings = arguments(&sweep.question().unwrap());
        assert_eq!(bindings["view"], DataValue::from("shown"));
        assert_eq!(bindings["current"], bound);
    }
    let mut sweep = Sweep::start();
    sweep.take_queue(&InspectionResult { headers: Vec::new(), rows: Vec::new(), next: None }).unwrap();
    let unnamed = InspectionResult {
        headers: Vec::new(),
        rows: vec![vec![InspectionValue::Null, InspectionValue::Integer(1)]],
        next: None,
    };
    assert_eq!(sweep.take_revisions(&unnamed).err().as_deref(), Some("analysis revision has a non-string view"));
}

#[test]
fn entities_are_searched_in_all_sources() {
    let store = Store::memory();
    let mut facts = facts_in(state("repo", None, "state"), "analysis", Vec::new());
    facts.entities =
        vec![entity("repo://example/rust/lib/Run", EntityKind::Callable), entity("repo://example/rust/lib/Walk", EntityKind::Callable)];
    store.publish(view("searched", "analysis", vec![state("repo", None, "state")]), vec![facts], Vec::new()).unwrap();

    let ask = |source: SearchSource| store.read(&ask_search(source, "searched", "Run", 10));
    let found = search_entity_facts(
        run::<SearchStateEntityFacts>(ask(SearchSource::State)).unwrap(),
        run::<SearchRevisionEntityFacts>(ask(SearchSource::Revision)).unwrap(),
        run::<SearchShardEntityFacts>(ask(SearchSource::Shard)).unwrap(),
        run::<SearchEnrichmentEntityFacts>(ask(SearchSource::Enrichment)).unwrap(),
    );
    let entities = semantic::search_entities("Run", 10, &found.rows).unwrap();
    assert_eq!(entities.len(), 1);
    assert_eq!(entities[0].id, "repo://example/rust/lib/Run");

    let all = fact_rows(run::<AllEntityFactsQuery>(store.read(&ask_all_facts("searched"))).unwrap());
    assert_eq!(all.rows.len(), 2);
}

#[test]
fn databases_are_opened_where_they_may_be() {
    assert!(matches!(benchmark_database("mem", None, true), Ok(Storage::Memory)));
    assert!(matches!(benchmark_database("sqlite", Some("bench.db"), true), Ok(Storage::Sqlite(_))));
    assert!(benchmark_database("sqlite", None, true).is_err());
    assert_eq!(benchmark_database("tape", None, true).err().as_deref(), Some("storage must be mem or sqlite"));
    assert!(check_database("beholder.db", false, false).is_some());
    assert!(check_database("beholder.db", false, true).is_none());
    assert!(check_database("beholder.db", true, false).is_none());
    assert!(create_database(true).len() < create_database(false).len() || create_database(true).is_empty());
}

#[test]
fn deleting_a_standalone_revision_queues_its_unreferenced_state() {
    let store = Store::memory();
    let source = || state("example/repository", Some("head"), "source-state");
    let repository = || facts_in(source(), "analysis", vec![calls("repo/source", "repo/target", "src/lib.rs:1")]);

    store.publish_repository(&repository()).unwrap();
    store.publish(view("standalone", "analysis", vec![source()]), vec![repository()], Vec::new()).unwrap();
    assert_eq!(store.delete_standalone_repository_revision("example/repository", "standalone").unwrap(), 1);
    let revisions = run::<RepositoryRevisionQuery>(store.read(&ask_repository_revision("example/repository"))).unwrap();
    assert!(repository_revision("example/repository", revisions, Vec::new()).is_none());
    assert_eq!(store.garbage_collection_queued(), 1);
    assert!(store.script("?[revision] := *analysis_revision_state{view: 'standalone', revision}").rows.is_empty());
}

#[test]
fn semantic_noop_refreshes_inputs_without_advancing_the_graph_revision() {
    let store = Store::memory();
    let owner = "repo://example/repository/typescript/run";
    let publish = |name: &str, fingerprint: &str, head: &str, verified: &str| {
        let source = || state("example/repository", Some(head), fingerprint);
        store
            .publish_all(&Publication {
                view: view(name, "analysis", vec![source()]),
                repositories: vec![facts_in(source(), "analysis", Vec::new())],
                overrides: Vec::new(),
                fact_shards: vec![FactShard {
                    repository: "example/repository".to_owned(),
                    producer: "typescript".to_owned(),
                    owner: owner.to_owned(),
                    version: "semantic-1".to_owned(),
                    entities: vec![
                        entity(owner, EntityKind::Callable),
                        entity("typescript-call://first", EntityKind::Callable),
                    ],
                    observations: vec![calls(owner, "typescript-call://first", "src/run.ts:1")],
                }],
                verification_fingerprint: Some(verified.to_owned()),
                sharded: true,
            })
            .unwrap()
    };
    publish("semantic-noop", "source-1", "head-1", "verified-1");
    publish("semantic-noop-other", "source-1", "head-1", "verified-other");

    let changes = publish("semantic-noop", "source-2", "head-2", "verified-2");

    assert_eq!(changes.unchanged, 1);
    assert_eq!(store.current_revision("semantic-noop"), 1);
    let updated = view("semantic-noop", "analysis", vec![state("example/repository", Some("head-2"), "source-2")]);
    assert!(view_matches(&store.read(&ask_view_matches(&updated))));
    assert!(view_matches(&store.read(&ask_verification_matches("semantic-noop", "verified-2"))));
    let head = |name: &str| {
        let heads = run::<PublishedRepositoryHead>(store.read(&ask_published_head(name, "example/repository"))).unwrap();
        published_repository_head(&heads)
    };
    assert_eq!(head("semantic-noop").as_deref(), Some("head-2"));
    assert_eq!(head("semantic-noop-other").as_deref(), Some("head-1"));
    let inputs = revision_input_fingerprints(&store.read(&ask_input_fingerprints("semantic-noop")));
    assert_eq!(inputs.get(&"example/repository".to_owned()), Some(&updated.input_fingerprints[0]));
    assert_eq!(store.context("semantic-noop", owner).edges[0].to, "typescript-call://first");
}

#[test]
fn semantic_noop_rejects_obsolete_entity_used_by_retained_enrichment() {
    let store = Store::memory();
    let both: &[(&str, &[(&str, &str)])] = &[("compiler-a", &[]), ("compiler-b", &[])];
    let only_b: &[(&str, &[(&str, &str)])] = &[("compiler-b", &[])];
    let source = || state("example/repository", None, "source");
    let publish = |analyzers: &[(&str, &[(&str, &str)])], verified: &str| {
        let mut baseline = facts_in(source(), "analysis", Vec::new());
        baseline.entities.push(entity("repo/source", EntityKind::Callable));
        store.publish_all(&Publication {
            view: view_with("semantic-noop-validation", "analysis", vec![source()], analyzers),
            repositories: vec![baseline],
            overrides: Vec::new(),
            fact_shards: Vec::new(),
            verification_fingerprint: Some(verified.to_owned()),
            sharded: true,
        })
    };
    publish(both, "verified-1").unwrap();
    let mut target = payload();
    target.entities.push(entity("repo/target", EntityKind::Callable));
    let mut retained = payload();
    retained.observations.push(calls("repo/source", "repo/target", "src/lib.rs:1"));
    for (analyzer, contributed) in [("compiler-a", target), ("compiler-b", retained)] {
        let input = format!("{analyzer} example/repository=source");
        assert!(store
            .publish_enrichment("semantic-noop-validation", "example/repository", &input, (analyzer, "1"), contributed)
            .unwrap());
    }
    assert_eq!(store.current_revision("semantic-noop-validation"), 3);

    assert_eq!(
        publish(only_b, "verified-2").err().as_deref(),
        Some("retained enrichments refer to entities of obsolete enrichments")
    );
    assert_eq!(store.current_revision("semantic-noop-validation"), 3);
    assert_eq!(store.context("semantic-noop-validation", "repo/target").root.id, "repo/target");
}

#[test]
fn unchanged_publications_drop_what_no_analyzer_stands_for() {
    let store = Store::memory();
    let with: &[(&str, &[(&str, &str)])] = &[("compiler", &[])];
    let source = || state("example/repository", None, "source");
    let publish = |analyzers: &[(&str, &[(&str, &str)])]| {
        store
            .publish_all(&Publication {
                view: view_with("given-up", "analysis", vec![source()], analyzers),
                repositories: vec![facts_in(source(), "analysis", Vec::new())],
                overrides: Vec::new(),
                fact_shards: Vec::new(),
                verification_fingerprint: None,
                sharded: true,
            })
            .unwrap()
    };
    publish(with);
    let mut contributed = payload();
    contributed.entities.push(entity("repo/generated", EntityKind::Callable));
    let input = "compiler example/repository=source";
    assert!(store.publish_enrichment("given-up", "example/repository", input, ("compiler", "1"), contributed).unwrap());
    assert_eq!(store.current_revision("given-up"), 2);
    publish(with);
    assert_eq!(store.current_revision("given-up"), 2);
    publish(&[]);
    assert_eq!(store.current_revision("given-up"), 3);
    let shown = store.script(
        "?[id] := *analysis_revision{view: 'given-up', revision}, *analysis_revision_entity{view: 'given-up', revision, id}",
    );
    assert!(shown.rows.is_empty());
}

fn shard_of(owner: &str, version: &str, entities: Vec<EntityFact>, observations: Vec<Observation>) -> FactShard {
    FactShard {
        repository: "example/repository".to_owned(),
        producer: "rust".to_owned(),
        owner: owner.to_owned(),
        version: version.to_owned(),
        entities,
        observations,
    }
}

#[test]
fn fact_shard_overrides_apply_to_bounded_traversals() {
    let store = Store::memory();
    let analyzers: &[(&str, &[(&str, &str)])] = &[("rust", &[])];
    let source_state = || state("example/repository", None, "state");
    let view_name = "overridden-shard";
    let state_owner = "repo://example/repository/rust/lib/state_run";
    let state_unresolved = "rust-call://state-target";
    let state_resolved = "repo://example/repository/rust/lib/state-target";
    let shard_owner = "repo://example/repository/rust/lib/shard";
    let source = "repo://example/repository/rust/lib/run";
    let base_unresolved = "rust-call://base-target";
    let base_resolved = "repo://example/repository/rust/lib/base-target";
    let losing_enrichment_resolved = "repo://example/repository/rust/lib/losing-enrichment-target";
    let enrichment_unresolved = "rust-call://enrichment-target";
    let enrichment_resolved = "repo://example/repository/rust/lib/enrichment-target";
    let duplicate_target = "rust-call://duplicate-target";
    let structural_target = "repo://example/repository/rust/lib/structural-target";
    let shard = shard_of(
        shard_owner,
        "body-1",
        [
            shard_owner,
            source,
            state_owner,
            state_unresolved,
            base_resolved,
            base_unresolved,
            losing_enrichment_resolved,
            enrichment_resolved,
            enrichment_unresolved,
            duplicate_target,
            state_resolved,
            structural_target,
        ]
        .iter()
        .map(|id| entity(id, EntityKind::Callable))
        .collect(),
        vec![
            calls(source, base_unresolved, "src/lib.rs:1"),
            calls(source, enrichment_unresolved, "src/lib.rs:2"),
            calls(source, enrichment_unresolved, "src/lib.rs:4"),
            calls(source, duplicate_target, "src/lib.rs:5"),
            Observation::structural(source, StructuralRelation::Defines, structural_target, "src/lib.rs:8"),
        ],
    );
    let inferred = |from: &str, unresolved_to: &str, resolved_to: &str, evidence: &str| DependencyOverride {
        from: from.to_owned(),
        relation: DependencyRelation::Calls,
        unresolved_to: unresolved_to.to_owned(),
        resolved_to: resolved_to.to_owned(),
        evidence: evidence.to_owned(),
        confidence: Confidence::Inferred,
        provenance: Provenance::UniqueNameHeuristic,
    };
    let guessed = |observation: Observation| {
        let mut observation = observation;
        observation.confidence = Confidence::Inferred;
        observation.provenance = Provenance::UniqueNameHeuristic;
        observation
    };
    store
        .publish_all(&Publication {
            view: view_with(view_name, "analysis", vec![source_state()], analyzers),
            repositories: vec![facts_in(
                source_state(),
                "analysis",
                vec![calls(state_owner, state_unresolved, "src/lib.rs:3")],
            )],
            overrides: vec![inferred(source, base_unresolved, base_resolved, "src/lib.rs:1")],
            fact_shards: vec![shard],
            verification_fingerprint: Some("verified".to_owned()),
            sharded: true,
        })
        .unwrap();
    let mut contributed = payload();
    contributed.observations.push(calls(source, enrichment_unresolved, "src/lib.rs:2"));
    contributed.observations.push(guessed(calls(source, duplicate_target, "src/lib.rs:5")));
    contributed.observations.push(guessed(Observation::structural(
        source,
        StructuralRelation::Defines,
        structural_target,
        "src/lib.rs:8",
    )));
    contributed.overrides.push(inferred(source, enrichment_unresolved, enrichment_resolved, "src/lib.rs:2"));
    contributed.overrides.push(inferred(source, base_unresolved, losing_enrichment_resolved, "src/lib.rs:1"));
    contributed.overrides.push(inferred(state_owner, state_unresolved, state_resolved, "src/lib.rs:3"));
    let input = "rust example/repository=state";
    assert!(store.publish_enrichment(view_name, "example/repository", input, ("rust", "1"), contributed).unwrap());
    store.script(
        "?[view, revision, from, relation, to, evidence, confidence, provenance] := \
         *analysis_revision{view: 'overridden-shard', revision}, view = 'overridden-shard', \
         from = 'repo://example/repository/rust/lib/state_run', relation = 'calls', to = 'rust-call://state-target', \
         evidence in ['src/lib.rs:6', 'src/lib.rs:7'], confidence = 1.0, provenance = 'ast' \
         :put analysis_revision_observation {view, revision, from, relation, to, evidence => confidence, provenance}",
    );
    store.materialize(view_name);

    let reaches = |found: &Reach, id: &str| found.reached.iter().any(|reached| reached.entity == id);
    let evidence_into = |found: &Reach, id: &str| found.edges.iter().find(|edge| edge.to == id).unwrap().evidence.len();
    let dependencies = store.dependencies(view_name, source, 1);
    assert!(!reaches(&dependencies, structural_target));
    assert!(store.impact(view_name, structural_target, 1).reached.is_empty());
    assert!(reaches(&dependencies, base_resolved));
    assert!(!reaches(&dependencies, losing_enrichment_resolved));
    assert!(reaches(&dependencies, enrichment_resolved));
    assert_eq!(evidence_into(&dependencies, enrichment_resolved), 2);
    for unresolved in [base_unresolved, enrichment_unresolved] {
        assert!(!reaches(&dependencies, unresolved));
        assert!(store.impact(view_name, unresolved, 1).reached.is_empty());
    }
    for resolved in [base_resolved, enrichment_resolved] {
        let impact = store.impact(view_name, resolved, 1);
        assert!(reaches(&impact, source));
        if resolved == enrichment_resolved {
            assert_eq!(evidence_into(&impact, enrichment_resolved), 2);
        }
    }
    assert!(store.impact(view_name, enrichment_resolved, 0).truncated);
    assert_eq!(evidence_into(&store.impact(view_name, duplicate_target, 1), duplicate_target), 1);
    let state_impact = store.impact(view_name, state_resolved, 1);
    assert!(reaches(&state_impact, state_owner));
    assert_eq!(evidence_into(&state_impact, state_resolved), 3);
    assert!(store.impact(view_name, losing_enrichment_resolved, 1).reached.is_empty());
}

fn in_shards(view: WorkspaceView, repositories: Vec<RepositoryFacts>, fact_shards: Vec<FactShard>) -> Publication {
    Publication { view, repositories, overrides: Vec::new(), fact_shards, verification_fingerprint: None, sharded: true }
}

#[test]
fn unchanged_publications_take_out_outdated_enrichments() {
    let store = Store::memory();
    let analyzers: &[(&str, &[(&str, &str)])] = &[("rust", &[])];
    let publish = |a: &str| {
        let states = || vec![state("example/a", None, a), state("example/b", None, "b-1")];
        let repositories = states().into_iter().map(|state| facts_in(state, "analysis", Vec::new())).collect();
        store.publish_all(&in_shards(view_with("outdated", "syntax", states(), analyzers), repositories, Vec::new())).unwrap()
    };
    let shown = || {
        let rows = store.script(
            "?[id] := *analysis_revision{view: 'outdated', revision}, \
                 *analysis_revision_entity{view: 'outdated', revision, id} :order id",
        );
        texts(&rows, 0)
    };
    publish("a-1");
    for repository in ["a", "b"] {
        let mut contributed = payload();
        contributed.entities.push(entity(&format!("repo://example/{repository}/generated"), EntityKind::Callable));
        let input = format!("rust example/{repository}={repository}-1");
        assert!(store.publish_enrichment("outdated", &format!("example/{repository}"), &input, ("rust", "1"), contributed).unwrap());
    }
    assert_eq!(shown(), ["repo://example/a/generated", "repo://example/b/generated"]);
    let enriched = store.current_revision("outdated");

    publish("a-1");
    assert_eq!(store.current_revision("outdated"), enriched);
    assert_eq!(shown().len(), 2);

    publish("a-2");
    assert_eq!(shown(), ["repo://example/b/generated"]);
    assert_eq!(store.current_revision("outdated"), enriched + 1);

    publish("a-1");
    assert_eq!(shown(), ["repo://example/a/generated", "repo://example/b/generated"]);
    assert_eq!(store.current_revision("outdated"), enriched + 2);
}

#[test]
fn unchanged_publications_note_completeness_anew() {
    let store = Store::memory();
    let publish = |incomplete: bool| {
        let source = || state("example/repository", None, "source");
        let mut facts = facts_in(source(), "analysis", Vec::new());
        facts.incomplete = incomplete;
        store.publish_all(&in_shards(view("complete", "analysis", vec![source()]), vec![facts], Vec::new())).unwrap()
    };
    let incomplete = || {
        let rows = store.script(
            "?[incomplete] := *analysis_revision{view: 'complete', revision}, \
                 *analysis_revision_metadata{view: 'complete', revision, incomplete}",
        );
        rows.rows[0][0].get_bool()
    };
    publish(false);
    assert_eq!(incomplete(), Some(false));
    publish(true);
    assert_eq!(incomplete(), Some(true));
    publish(false);
    assert_eq!(incomplete(), Some(false));
    assert_eq!(store.current_revision("complete"), 1);
}

#[test]
fn publications_in_shards_count_their_other_observations() {
    let store = Store::memory();
    let publish = |observations: Vec<Observation>| {
        let source = || state("example/repository", None, "source");
        let facts = facts_in(source(), "analysis", observations);
        let shard = shard_of("repo/c", "1", Vec::new(), vec![calls("repo/c", "repo/d", "c.rs:1")]);
        store.publish_all(&in_shards(view("counted", "analysis", vec![source()]), vec![facts], vec![shard])).unwrap()
    };
    assert_eq!(
        publish(vec![calls("repo/a", "repo/b", "a.rs:1")]),
        FactChanges { inserted: 2, updated: 0, removed: 0, unchanged: 0 }
    );
    assert_eq!(
        publish(vec![calls("repo/a", "repo/b", "a.rs:1")]),
        FactChanges { inserted: 0, updated: 0, removed: 0, unchanged: 2 }
    );
    assert_eq!(store.current_revision("counted"), 1);
    assert_eq!(
        publish(vec![calls("repo/a", "repo/b", "a.rs:2"), calls("repo/a", "repo/e", "a.rs:3")]),
        FactChanges { inserted: 1, updated: 1, removed: 0, unchanged: 1 }
    );
    assert_eq!(publish(Vec::new()), FactChanges { inserted: 0, updated: 0, removed: 2, unchanged: 1 });
    assert_eq!(store.current_revision("counted"), 3);
}

#[test]
fn shards_without_observations_make_a_revision() {
    let store = Store::memory();
    let publish = |shards: Vec<FactShard>| {
        let source = || state("example/repository", None, "source");
        let facts = facts_in(source(), "analysis", Vec::new());
        store.publish_all(&in_shards(view("entities", "analysis", vec![source()]), vec![facts], shards)).unwrap();
        store.current_revision("entities")
    };
    let named = |version: &str| vec![shard_of("repo/a", version, vec![entity("repo/a", EntityKind::Callable)], Vec::new())];
    assert_eq!(publish(Vec::new()), 1);
    assert_eq!(publish(named("1")), 2);
    assert_eq!(publish(named("1")), 2);
    assert_eq!(publish(named("2")), 3);
    assert_eq!(publish(Vec::new()), 4);
}
