//! The scripts that write to the database, and those that writing depends on.

use vstd::prelude::*;

verus! {

/// The fact shards that a view selects.
pub const SHARD_SELECTION: &'static str = "?[producer, repository, owner, version] := *analysis_fact_shard_selection{\
         view: $view, producer, repository, owner, version\
     }";

/// Removes fact shards from the selection of a view.
pub const REMOVE_SHARD_SELECTION: &'static str = "?[view, producer, repository, owner] <- $rows \
     :rm analysis_fact_shard_selection {view, producer, repository, owner}";

/// Stores entities of fact shards.
pub const PUT_SHARD_ENTITIES: &'static str = "?[producer, owner, version, id, kind, metadata] <- $rows \
     :put analysis_fact_shard_entity {\
         producer, owner, version, id => kind, metadata\
     }";

/// Stores observations of fact shards.
pub const PUT_SHARD_OBSERVATIONS: &'static str =
    "?[producer, owner, version, from, relation, to, evidence, confidence, provenance] \
         <- $rows \
     :put analysis_fact_shard_observation {\
         producer, owner, version, from, relation, to, evidence \
         => confidence, provenance\
     }";

/// Stores observations of dependencies in fact shards.
pub const PUT_SHARD_DEPENDENCIES: &'static str = "?[producer, owner, version, from, relation, to, evidence] <- $rows \
     :put analysis_fact_shard_dependency_observation {\
         producer, owner, version, from, relation, to, evidence\
     }";

/// Adds fact shards to the selection of a view.
pub const PUT_SHARD_SELECTION: &'static str = "?[view, producer, repository, owner, version] <- $rows \
     :put analysis_fact_shard_selection {\
         view, producer, repository, owner => version\
     }";

/// The state of a repository in the published revision of a view.
pub const SELECTED_STATE: &'static str = "?[state] := *analysis_revision{view: $view, revision}, \
     *analysis_revision_state{view: $view, revision, repository: $repository, state}";

/// The entities stored for a repository state and its fact shards.
pub const BASELINE_ENTITY_FACTS: &'static str = "stored[id, kind, metadata] := *state_entity{state: $state, id, kind, metadata}\n\
     stored[id, kind, metadata] := *analysis_fact_shard_selection{\
         view: $view, repository: $repository, producer, owner, version\
     }, *analysis_fact_shard_entity{producer, owner, version, id, kind, metadata}\n\
     ?[id, kind, metadata] := stored[id, kind, metadata]";

/// The observations stored for a repository state and its fact shards.
pub const BASELINE_OBSERVATION_FACTS: &'static str = "stored[from, relation, to, evidence, confidence, provenance] := \
         *state_observation{state: $state, from, relation, to, evidence}, \
         *state_observation_metadata{state: $state, from, relation, to, confidence, provenance}\n\
     stored[from, relation, to, evidence, confidence, provenance] := \
         *analysis_fact_shard_selection{\
             view: $view, repository: $repository, producer, owner, version\
         }, *analysis_fact_shard_observation{\
             producer, owner, version, from, relation, to, evidence, confidence, provenance\
         }\n\
     ?[from, relation, to, evidence, confidence, provenance] := \
         stored[from, relation, to, evidence, confidence, provenance]";

/// Stores the evidence of observations.
pub const PUT_OBSERVATIONS: &'static str = "?[state, from, relation, to, evidence, confidence, provenance] <- $rows\n\
     :put state_observation {state, from, relation, to => evidence}";

/// Stores confidence and provenance of observations.
pub const PUT_OBSERVATION_METADATA: &'static str = "?[state, from, relation, to, evidence, confidence, provenance] <- $rows\n\
     :put state_observation_metadata {\
         state, from, relation, to => confidence, provenance\
     }";

/// Stores observations of dependencies.
pub const PUT_DEPENDENCIES: &'static str = "?[state, from, relation, to, evidence] <- $rows\n\
     :put state_dependency_observation {state, from, relation, to => evidence}";

/// Stores entities.
pub const PUT_ENTITIES: &'static str = "?[state, id, kind, metadata] <- $rows\n\
     :put state_entity {state, id => kind, metadata}";

/// Stores candidates for bindings of remote calls.
pub const PUT_CANDIDATES: &'static str =
    "?[state, local_symbol, role, service, method, evidence, cardinality, confidence, provenance] <- $rows\n\
     :put state_grpc_binding_candidate {\
         state, local_symbol, role, service, method, evidence => cardinality, confidence, provenance\
     }";

/// Whether a repository state is stored.
pub const STATE_STORED: &'static str = "?[stored] := *repository_state{fingerprint: $state}, stored = true";

/// The revision of a repository by itself, with the state as it was analysed.
pub const PREVIOUS_REVISION: &'static str = "?[source_state, analyzed_state, analysis_identity, head, incomplete] := \
     *repository_revision{repository: $repository, source_state, analyzed_state, analysis_identity, head, incomplete}";

/// Removes the diagnostics of a repository by itself.
pub const REMOVE_REPOSITORY_DIAGNOSTICS: &'static str = "?[repository, code, severity, path, line] := \
         *repository_revision_diagnostic{repository: $repository, code, severity, path, line}, \
         repository = $repository\n\
     :rm repository_revision_diagnostic {repository, code, severity, path, line}";

/// Stores the diagnostics of a repository by itself.
pub const PUT_REPOSITORY_DIAGNOSTICS: &'static str = "?[repository, code, severity, path, line, detail] <- $rows \
     :put repository_revision_diagnostic {repository, code, severity, path, line => detail}";

/// Stores the revision of a repository by itself.
pub const PUT_REPOSITORY_REVISION: &'static str =
    "?[repository, source_state, analyzed_state, analysis_identity, head, incomplete] <- \
         [[$repository, $source_state, $analyzed_state, $analysis_identity, $head, $incomplete]] \
     :put repository_revision {repository => source_state, analyzed_state, analysis_identity, head, incomplete}";

/// The state as it was analysed of a repository by itself.
pub const ANALYZED_STATE: &'static str = "?[repository, analyzed_state] := \
     *repository_revision{repository: $repository, analyzed_state}, repository = $repository";

/// Removes the revision of a repository by itself.
pub const REMOVE_REPOSITORY_REVISION: &'static str =
    "?[repository] := repository = $repository\n:rm repository_revision {repository}";

/// A repository state that no published revision refers to.
pub const STALE_STATE: &'static str = "live_state[state] := \
         *analysis_revision{view, revision}, \
         *analysis_revision_state{view, revision, state}\n\
     ?[state, repository, head] := \
         *repository_state{fingerprint: state, repository, head}, \
         state = $state, not live_state[state]";

/// Queues repository states for collection.
pub const QUEUE_STATES: &'static str = "?[state, repository, head] <- $rows \
     :put garbage_collection_state {state => repository, head}";

/// Removes a repository state.
pub const REMOVE_STATE: &'static str = "?[fingerprint] := fingerprint = $state :rm repository_state {fingerprint}";

/// The observations stored for a repository state.
pub const STORED_OBSERVATIONS: &'static str = "?[from, relation, to, evidence, confidence, provenance] := \
     *state_observation{state: $state, from, relation, to, evidence}, \
     *state_observation_metadata{state: $state, from, relation, to, confidence, provenance}";

/// The entities stored for a repository state.
pub const STORED_ENTITIES: &'static str = "?[id, kind, metadata] := *state_entity{state: $state, id, kind, metadata}";

/// The candidates for bindings stored for a repository state.
pub const STORED_CANDIDATES: &'static str =
    "?[local_symbol, role, service, method, evidence, cardinality, confidence, provenance] := \
     *state_grpc_binding_candidate{\
         state: $state, local_symbol, role, service, method, evidence, cardinality, \
         confidence, provenance\
     }";

/// Whether the fingerprint of a view is the one stored.
pub const VIEW_MATCHES: &'static str = "?[matches] := *analysis_fingerprint{view: $view, fingerprint: stored}, \
     matches = stored == $fingerprint";

/// Whether the verification fingerprint of a view is the one stored.
pub const VERIFICATION_MATCHES: &'static str =
    "?[matches] := *analysis_verification_fingerprint{view: $view, fingerprint: stored}, \
     matches = stored == $fingerprint";

/// Stores the verification fingerprint of a view.
pub const PUT_VERIFICATION: &'static str = "?[view, fingerprint] <- [[$view, $fingerprint]] \
     :put analysis_verification_fingerprint {view => fingerprint}";

/// Stores entities of a revision.
pub const PUT_REVISION_ENTITIES: &'static str = "?[view, revision, id, kind, metadata] <- $rows\n\
     :put analysis_revision_entity {view, revision, id => kind, metadata}";

/// Stores observations of a revision.
pub const PUT_REVISION_OBSERVATIONS: &'static str =
    "?[view, revision, from, relation, to, evidence, confidence, provenance] <- $rows\n\
     :put analysis_revision_observation {\
         view, revision, from, relation, to, evidence => confidence, provenance\
     }";

/// Stores what became of candidates for bindings in a revision.
pub const PUT_GRPC_DIAGNOSTICS: &'static str =
    "?[view, revision, local_symbol, role, service, method, evidence, code, detail] <- $rows\n\
     :put analysis_revision_grpc_diagnostic {\
         view, revision, local_symbol, role, service, method, evidence => code, detail\
     }";

/// Takes a view to its next revision.
pub const NEXT_REVISION: &'static str = "?[view, revision] := \
         *analysis_revision{view: $view, revision: previous}, \
         view = $view, revision = previous + 1\n\
     ?[view, revision] := \
         not *analysis_revision{view: $view}, view = $view, revision = 1\n\
     :put analysis_revision {view => revision}";

/// Stores the fingerprint of a view.
pub const PUT_FINGERPRINT: &'static str = "?[view, fingerprint] <- [[$view, $fingerprint]] \
     :put analysis_fingerprint {view => fingerprint}";

/// Removes the verification fingerprint of a view.
pub const REMOVE_VERIFICATION: &'static str = "?[view] <- [[$view]] :rm analysis_verification_fingerprint {view}";

/// Stores an override in the published revision.
pub const PUT_OVERRIDE: &'static str = "?[view, revision, from, relation, unresolved_to, resolved_to, evidence] := \
         *analysis_revision{view: $view, revision}, \
         view = $view, from = $from, relation = $relation, unresolved_to = $unresolved_to, \
         resolved_to = $resolved_to, evidence = $evidence\n\
     :put analysis_revision_dependency_override {\
         view, revision, from, relation, unresolved_to => resolved_to, evidence\
     }";

/// Stores confidence and provenance of an override in the published revision.
pub const PUT_OVERRIDE_METADATA: &'static str = "?[view, revision, from, relation, unresolved_to, confidence, provenance] := \
         *analysis_revision{view: $view, revision}, \
         view = $view, from = $from, relation = $relation, \
         unresolved_to = $unresolved_to, confidence = $confidence, \
         provenance = $provenance\n\
     :put analysis_revision_dependency_override_metadata {\
         view, revision, from, relation, unresolved_to => confidence, provenance\
     }";

/// The fingerprint of the baseline of a view.
pub const BASELINE_FINGERPRINT: &'static str = "?[fingerprint] := *analysis_baseline_fingerprint{view: $view, fingerprint}";

/// Stores the fingerprint of the baseline of a view.
pub const PUT_BASELINE_FINGERPRINT: &'static str = "?[view, fingerprint] <- [[$view, $fingerprint]] \
     :put analysis_baseline_fingerprint {view => fingerprint}";

/// Removes the entities of the baseline of a view.
pub const CLEAR_BASELINE_ENTITIES: &'static str = "?[view, id] := *analysis_baseline_entity{view: $view, id}, view = $view \
     :rm analysis_baseline_entity {view, id}";

/// Removes the observations of the baseline of a view.
pub const CLEAR_BASELINE_OBSERVATIONS: &'static str = "?[view, from, relation, to, evidence] := *analysis_baseline_observation{\
         view: $view, from, relation, to, evidence\
     }, view = $view \
     :rm analysis_baseline_observation {view, from, relation, to, evidence}";

/// Removes the overrides of the baseline of a view.
pub const CLEAR_BASELINE_OVERRIDES: &'static str =
    "?[view, from, relation, unresolved_to] := *analysis_baseline_dependency_override{\
         view: $view, from, relation, unresolved_to\
     }, view = $view \
     :rm analysis_baseline_dependency_override {view, from, relation, unresolved_to}";

/// Removes the diagnostics of the baseline of a view.
pub const CLEAR_BASELINE_DIAGNOSTICS: &'static str =
    "?[view, repository, code, severity, path, line] := *analysis_baseline_diagnostic{\
         view: $view, repository, code, severity, path, line\
     }, view = $view \
     :rm analysis_baseline_diagnostic {view, repository, code, severity, path, line}";

/// Takes the entities of the repository states into the baseline.
pub const FILL_STATE_ENTITIES: &'static str = "?[view, id, kind, metadata, revision_owned] := \
         *analysis_revision{view: $view, revision}, \
         *analysis_revision_state{view, revision, state}, \
         *state_entity{state, id, kind, metadata}, revision_owned = false \
     :put analysis_baseline_entity {view, id => kind, metadata, revision_owned}";

/// Takes the observations of the repository states into the baseline.
pub const FILL_STATE_OBSERVATIONS: &'static str =
    "?[view, from, relation, to, evidence, confidence, provenance, revision_owned] := \
         *analysis_revision{view: $view, revision}, \
         *analysis_revision_state{view, revision, state}, \
         *state_observation{state, from, relation, to, evidence}, \
         *state_observation_metadata{state, from, relation, to, confidence, provenance}, \
         revision_owned = false \
     :put analysis_baseline_observation {\
         view, from, relation, to, evidence => confidence, provenance, revision_owned\
     }";

/// Takes the entities of the revision into the baseline.
pub const FILL_REVISION_ENTITIES: &'static str = "?[view, id, kind, metadata, revision_owned] := \
         *analysis_revision{view: $view, revision}, \
         *analysis_revision_entity{view, revision, id, kind, metadata}, \
         revision_owned = true \
     :put analysis_baseline_entity {view, id => kind, metadata, revision_owned}";

/// Takes the observations of the revision into the baseline.
pub const FILL_REVISION_OBSERVATIONS: &'static str =
    "?[view, from, relation, to, evidence, confidence, provenance, revision_owned] := \
         *analysis_revision{view: $view, revision}, *analysis_revision_observation{\
             view, revision, from, relation, to, evidence, confidence, provenance\
         }, revision_owned = true \
     :put analysis_baseline_observation {\
         view, from, relation, to, evidence => confidence, provenance, revision_owned\
     }";

/// Takes the overrides of the revision into the baseline.
pub const FILL_OVERRIDES: &'static str =
    "?[view, from, relation, unresolved_to, resolved_to, evidence, confidence, provenance] := \
         *analysis_revision{view: $view, revision}, *analysis_revision_dependency_override{\
             view, revision, from, relation, unresolved_to, resolved_to, evidence\
         }, *analysis_revision_dependency_override_metadata{\
             view, revision, from, relation, unresolved_to, confidence, provenance\
         } \
     :put analysis_baseline_dependency_override {\
         view, from, relation, unresolved_to => resolved_to, evidence, confidence, provenance\
     }";

/// Takes the diagnostics of the revision into the baseline.
pub const FILL_DIAGNOSTICS: &'static str = "?[view, repository, code, severity, path, line, detail] := \
         *analysis_revision{view: $view, revision}, *analysis_revision_diagnostic{\
             view, revision, repository, code, severity, path, line, detail\
         } \
     :put analysis_baseline_diagnostic {\
         view, repository, code, severity, path, line => detail\
     }";

/// Stores the fingerprints of the inputs of a revision.
pub const PUT_INPUTS: &'static str = "?[view, revision, repository, fingerprint] <- $rows \
     :put analysis_revision_input {view, revision, repository => fingerprint}";

/// Stores the fingerprints of what analyzers take in for a revision.
pub const PUT_ENRICHMENT_INPUTS: &'static str = "?[view, revision, repository, analyzer, fingerprint] <- $rows \
     :put analysis_revision_enrichment_input {\
         view, revision, repository, analyzer => fingerprint\
     }";

/// Stores the repositories that serve analyzers as context.
pub const PUT_CONTEXTS: &'static str = "?[view, revision, target, analyzer, context] <- $rows \
     :put analysis_revision_context {view, revision, target, analyzer, context}";

/// The fingerprint of a view.
pub const FINGERPRINT: &'static str = "?[fingerprint] := *analysis_fingerprint{view: $view, fingerprint}";

/// Removes the fingerprints of what analyzers take in for the published revision.
pub const CLEAR_ENRICHMENT_INPUTS: &'static str = "?[view, revision, repository, analyzer] := \
         *analysis_revision{view: $view, revision}, \
         *analysis_revision_enrichment_input{view, revision, repository, analyzer} \
     :rm analysis_revision_enrichment_input {view, revision, repository, analyzer}";

/// Removes the repositories that serve as context in the published revision.
pub const CLEAR_CONTEXTS: &'static str = "?[view, revision, target, analyzer, context] := \
         *analysis_revision{view: $view, revision}, \
         *analysis_revision_context{view, revision, target, analyzer, context} \
     :rm analysis_revision_context {view, revision, target, analyzer, context}";

/// The fingerprint of what an analyzer takes in for a repository.
pub const ENRICHMENT_INPUT: &'static str = "?[fingerprint] := *analysis_revision{view: $view, revision}, \
     *analysis_revision_enrichment_input{\
         view: $view, revision, repository: $repository, analyzer: $analyzer, fingerprint\
     }";

/// The repositories that serve an analyzer as context.
pub const CONTEXTS: &'static str = "?[context] := *analysis_revision{view: $view, revision}, \
         *analysis_revision_context{\
             view: $view, revision, target: $target, analyzer: $analyzer, context\
         } \
     :sort context";

/// The owners of enrichments that have no input in the published revision.
pub const OBSOLETE_OWNERS: &'static str = "current[repository, analyzer] := \
         *analysis_revision{view: $view, revision}, \
         *analysis_revision_enrichment_input{view, revision, repository, analyzer}\n\
     obsolete[owner] := *enrichment_output{\
         view: $view, owner, repository, analyzer\
     }, not current[repository, analyzer]\n\
     ?[owner] := obsolete[owner]";

/// Sets the revision of a view.
pub const PUT_REVISION: &'static str = "?[view, revision] <- [[$view, $revision]] \
     :put analysis_revision {view => revision}";

/// The owners whose enrichments were made from the inputs of a revision.
pub const VALID_OWNERS: &'static str = "valid_owner[owner] := \
     *enrichment_output{\
         view: $view, owner, repository, analyzer, input_fingerprint\
     }, \
     *analysis_revision_enrichment_input{\
         view: $view, revision: $revision, repository, analyzer, \
         fingerprint: input_fingerprint\
     }\n";

/// Takes entities of enrichments into a revision.
pub const MATERIALIZE_ENTITIES: &'static str = "state_baseline[id] := *analysis_baseline_entity{\
         view: $view, id, revision_owned: false\
     }\n\
     state_baseline[id] := *analysis_fact_shard_selection{\
         view: $view, producer, owner, version\
     }, *analysis_fact_shard_entity{producer, owner, version, id}\n\
     candidate[id, cost, kind, metadata] := *analysis_baseline_entity{\
         view: $view, id, kind, metadata, revision_owned: true\
     }, cost = [0, '']\n\
     candidate[id, cost, kind, metadata] := valid_owner[owner], \
         *enrichment_entity_contribution{view: $view, owner, id, kind, metadata}, \
         cost = [1, owner]\n\
     winner[id, smallest_by(kind_pair), smallest_by(metadata_pair)] := \
         candidate[id, cost, kind, metadata], kind_pair = [kind, cost], \
         metadata_pair = [metadata, cost]\n\
     ?[view, revision, id, kind, metadata] := winner[id, kind, metadata], \
         not state_baseline[id], \
         not *analysis_revision_entity{view: $view, revision: $revision, id}, \
         view = $view, revision = $revision \
     :put analysis_revision_entity {view, revision, id => kind, metadata}";

/// Takes observations of enrichments into a revision.
pub const MATERIALIZE_OBSERVATIONS: &'static str =
    "state_baseline[from, relation, to, evidence] := *analysis_baseline_observation{\
         view: $view, from, relation, to, evidence, revision_owned: false\
     }\n\
     state_baseline[from, relation, to, evidence] := \
         *analysis_fact_shard_selection{view: $view, producer, owner, version}, \
         *analysis_fact_shard_observation{\
             producer, owner, version, from, relation, to, evidence\
         }\n\
     candidate[from, relation, to, evidence, cost, confidence, provenance] := \
         *analysis_baseline_observation{\
             view: $view, from, relation, to, evidence, confidence, provenance, \
             revision_owned: true\
         }, cost = [0, 0.0, '']\n\
     candidate[from, relation, to, evidence, cost, confidence, provenance] := \
         valid_owner[owner], *enrichment_observation_contribution{\
             view: $view, owner, from, relation, to, evidence, confidence, provenance\
         }, cost = [1, -confidence, owner]\n\
     winner[from, relation, to, evidence, smallest_by(confidence_pair), \
             smallest_by(provenance_pair)] := \
         candidate[from, relation, to, evidence, cost, confidence, provenance], \
         confidence_pair = [confidence, cost], \
         provenance_pair = [provenance, cost]\n\
     ?[view, revision, from, relation, to, evidence, confidence, provenance] := \
         winner[from, relation, to, evidence, confidence, provenance], \
         not state_baseline[from, relation, to, evidence], \
         not *analysis_revision_observation{\
             view: $view, revision: $revision, from, relation, to, evidence\
         }, \
         view = $view, revision = $revision \
     :put analysis_revision_observation {\
         view, revision, from, relation, to, evidence => confidence, provenance\
     }";

/// Takes overrides of enrichments into a revision.
pub const MATERIALIZE_OVERRIDES: &'static str =
    "candidate[from, relation, unresolved_to, cost, resolved_to, evidence, confidence, provenance] := \
         *analysis_baseline_dependency_override{\
             view: $view, from, relation, unresolved_to, resolved_to, evidence, \
             confidence, provenance\
         }, cost = [0, 0.0, '']\n\
     candidate[from, relation, unresolved_to, cost, resolved_to, evidence, confidence, provenance] := \
         valid_owner[owner], *enrichment_override_contribution{\
             view: $view, owner, from, relation, unresolved_to, resolved_to, evidence, \
             confidence, provenance\
         }, cost = [1, -confidence, owner]\n\
     winner[from, relation, unresolved_to, smallest_by(resolved_pair), \
             smallest_by(evidence_pair)] := \
         candidate[from, relation, unresolved_to, cost, resolved_to, evidence, \
             _, _], \
         resolved_pair = [resolved_to, cost], evidence_pair = [evidence, cost]\n\
     ?[view, revision, from, relation, unresolved_to, resolved_to, evidence] := \
         winner[from, relation, unresolved_to, resolved_to, evidence], \
         not *analysis_revision_dependency_override{\
             view: $view, revision: $revision, from, relation, unresolved_to\
         }, \
         view = $view, revision = $revision \
     :put analysis_revision_dependency_override {\
         view, revision, from, relation, unresolved_to => resolved_to, evidence\
     }";

/// Takes confidence and provenance of overrides of enrichments into a revision.
pub const MATERIALIZE_OVERRIDE_METADATA: &'static str =
    "candidate[from, relation, unresolved_to, cost, confidence, provenance] := \
         *analysis_baseline_dependency_override{\
             view: $view, from, relation, unresolved_to, confidence, provenance\
         }, cost = [0, 0.0, '']\n\
     candidate[from, relation, unresolved_to, cost, confidence, provenance] := \
         valid_owner[owner], *enrichment_override_contribution{\
             view: $view, owner, from, relation, unresolved_to, confidence, provenance\
         }, cost = [1, -confidence, owner]\n\
     winner[from, relation, unresolved_to, smallest_by(confidence_pair), \
             smallest_by(provenance_pair)] := \
         candidate[from, relation, unresolved_to, cost, confidence, provenance], \
         confidence_pair = [confidence, cost], \
         provenance_pair = [provenance, cost]\n\
     ?[view, revision, from, relation, unresolved_to, confidence, provenance] := \
         winner[from, relation, unresolved_to, confidence, provenance], \
         not *analysis_revision_dependency_override_metadata{\
             view: $view, revision: $revision, from, relation, unresolved_to\
         }, \
         view = $view, revision = $revision \
     :put analysis_revision_dependency_override_metadata {\
         view, revision, from, relation, unresolved_to => confidence, provenance\
     }";

/// Takes diagnostics of enrichments into a revision.
pub const MATERIALIZE_DIAGNOSTICS: &'static str = "candidate[repository, code, severity, path, line, cost, detail] := \
         *analysis_baseline_diagnostic{\
             view: $view, repository, code, severity, path, line, detail\
         }, cost = [0, '']\n\
     candidate[repository, code, severity, path, line, cost, detail] := \
         valid_owner[owner], *enrichment_diagnostic_contribution{\
             view: $view, owner, repository, code, severity, path, line, detail\
         }, cost = [1, owner]\n\
     winner[repository, code, severity, path, line, smallest_by(detail_pair)] := \
         candidate[repository, code, severity, path, line, cost, detail], \
         detail_pair = [detail, cost]\n\
     ?[view, revision, repository, code, severity, path, line, detail] := \
         winner[repository, code, severity, path, line, detail], \
         not *analysis_revision_diagnostic{\
             view: $view, revision: $revision, repository, code, severity, path, line\
         }, \
         view = $view, revision = $revision \
     :put analysis_revision_diagnostic {\
         view, revision, repository, code, severity, path, line => detail\
     }";

/// The version of the enrichment of a repository, if it was made from its input.
pub const ENRICHMENT_VERSION: &'static str = "?[version] := *analysis_revision{view: $view, revision}, \
     *analysis_revision_enrichment_input{\
         view: $view, revision, repository: $repository, analyzer: $analyzer, fingerprint\
     }, \
     *enrichment_output{\
         view: $view, owner: $owner, repository: $repository, analyzer: $analyzer, \
         version, input_fingerprint: fingerprint\
     }";

/// The repositories without an up-to-date enrichment of an analyzer.
pub const MISSING_ENRICHMENTS: &'static str = "matching[repository] := \
         *analysis_revision{view: $view, revision}, \
         *analysis_revision_enrichment_input{\
             view: $view, revision, repository, analyzer: $analyzer, fingerprint\
         }, \
         *enrichment_output{\
             view: $view, repository, analyzer: $analyzer, version: $version, \
             input_fingerprint: fingerprint\
         }\n\
     ?[repository] := \
         *analysis_revision{view: $view, revision}, \
         *analysis_revision_state{view: $view, revision, repository}, \
         not matching[repository]";

/// The published revision, with the fingerprint of what an analyzer takes in.
pub const REVISION_INPUT: &'static str = "?[revision, fingerprint] := *analysis_revision{view: $view, revision}, \
     *analysis_revision_enrichment_input{\
         view: $view, revision, repository: $repository, analyzer: $analyzer, fingerprint\
     }";

/// The enrichment of an owner, if it was made from an input.
pub const CURRENT_OUTPUT: &'static str = "?[owner] := *enrichment_output{\
         view: $view, owner: $owner, repository: $repository, analyzer: $analyzer, \
         input_fingerprint: $input_fingerprint\
     }, owner = $owner";

/// Stores that an enrichment is complete.
pub const PUT_OUTPUT: &'static str = "?[view, owner, repository, analyzer, version, input_fingerprint] <- \
         [[$view, $owner, $repository, $analyzer, $version, $input_fingerprint]] \
     :put enrichment_output {\
         view, owner => repository, analyzer, version, input_fingerprint\
     }";

/// Whether the entities of an owner differ from those given.
pub const DIFFERENT_ENTITIES: &'static str = "incoming[id, kind, metadata] <- $rows\n\
     different[id] := *enrichment_entity_contribution{\
         view: $view, owner: $owner, id, kind, metadata\
     }, not incoming[id, kind, metadata]\n\
     different[id] := incoming[id, kind, metadata], \
         not *enrichment_entity_contribution{\
             view: $view, owner: $owner, id, kind, metadata\
         }\n\
     ?[id] := different[id] :limit 1";

/// Whether the observations of an owner differ from those given.
pub const DIFFERENT_OBSERVATIONS: &'static str = "incoming[from, relation, to, evidence, confidence, provenance] <- $rows\n\
     different[from, relation, to, evidence] := \
         *enrichment_observation_contribution{\
             view: $view, owner: $owner, from, relation, to, evidence, confidence, provenance\
         }, not incoming[from, relation, to, evidence, confidence, provenance]\n\
     different[from, relation, to, evidence] := \
         incoming[from, relation, to, evidence, confidence, provenance], \
         not *enrichment_observation_contribution{\
             view: $view, owner: $owner, from, relation, to, evidence, confidence, provenance\
         }\n\
     ?[from, relation, to, evidence] := different[from, relation, to, evidence] :limit 1";

/// Whether the overrides of an owner differ from those given.
pub const DIFFERENT_OVERRIDES: &'static str =
    "incoming[from, relation, unresolved_to, resolved_to, evidence, confidence, provenance] <- $rows\n\
     different[from, relation, unresolved_to] := *enrichment_override_contribution{\
         view: $view, owner: $owner, from, relation, unresolved_to, resolved_to, evidence, \
         confidence, provenance\
     }, not incoming[from, relation, unresolved_to, resolved_to, evidence, confidence, provenance]\n\
     different[from, relation, unresolved_to] := incoming[\
         from, relation, unresolved_to, resolved_to, evidence, confidence, provenance\
     ], not *enrichment_override_contribution{\
         view: $view, owner: $owner, from, relation, unresolved_to, resolved_to, evidence, \
         confidence, provenance\
     }\n\
     ?[from, relation, unresolved_to] := different[from, relation, unresolved_to] :limit 1";

/// Whether the diagnostics of an owner differ from those given.
pub const DIFFERENT_DIAGNOSTICS: &'static str = "incoming[repository, code, severity, path, line, detail] <- $rows\n\
     different[repository, code, severity, path, line] := \
         *enrichment_diagnostic_contribution{\
             view: $view, owner: $owner, repository, code, severity, path, line, detail\
         }, not incoming[repository, code, severity, path, line, detail]\n\
     different[repository, code, severity, path, line] := \
         incoming[repository, code, severity, path, line, detail], \
         not *enrichment_diagnostic_contribution{\
             view: $view, owner: $owner, repository, code, severity, path, line, detail\
         }\n\
     ?[repository, code, severity, path, line] := \
         different[repository, code, severity, path, line] :limit 1";

/// Whether an owner contributes anything.
pub const CONTRIBUTIONS: &'static str = "present[key] := *enrichment_entity_contribution{\
         view: $view, owner: $owner, id: key\
     }\n\
     present[key] := *enrichment_observation_contribution{\
         view: $view, owner: $owner, from: key\
     }\n\
     present[key] := *enrichment_override_contribution{\
         view: $view, owner: $owner, from: key\
     }\n\
     present[key] := *enrichment_diagnostic_contribution{\
         view: $view, owner: $owner, repository: key\
     }\n\
     ?[key] := present[key] :limit 1";

/// Whether some of the entities given are not in effect.
pub const MISSING_ENTITIES: &'static str = "incoming[id, kind, metadata] <- $rows\n\
     effective[id, kind, metadata] := *analysis_revision{view: $view, revision}, \
         *analysis_revision_entity{view: $view, revision, id, kind, metadata}\n\
     effective[id, kind, metadata] := *analysis_baseline_entity{\
         view: $view, id, kind, metadata\
     }\n\
     effective[id, kind, metadata] := *analysis_fact_shard_selection{\
         view: $view, producer, owner, version\
     }, *analysis_fact_shard_entity{producer, owner, version, id, kind, metadata}\n\
     ?[id] := incoming[id, kind, metadata], not effective[id, kind, metadata] :limit 1";

/// Whether some of the observations given are not in effect.
pub const MISSING_OBSERVATIONS: &'static str = "incoming[from, relation, to, evidence, confidence, provenance] <- $rows\n\
     effective[from, relation, to, evidence, confidence, provenance] := \
         *analysis_revision{view: $view, revision}, *analysis_revision_observation{\
             view: $view, revision, from, relation, to, evidence, confidence, provenance\
         }\n\
     effective[from, relation, to, evidence, confidence, provenance] := \
         *analysis_baseline_observation{\
             view: $view, from, relation, to, evidence, confidence, provenance\
         }\n\
     effective[from, relation, to, evidence, confidence, provenance] := \
         *analysis_fact_shard_selection{view: $view, producer, owner, version}, \
         *analysis_fact_shard_observation{\
             producer, owner, version, from, relation, to, evidence, confidence, provenance\
         }\n\
     ?[from, relation, to, evidence] := \
         incoming[from, relation, to, evidence, confidence, provenance], \
         not effective[from, relation, to, evidence, confidence, provenance] :limit 1";

/// Whether some of the overrides given are not in effect.
pub const MISSING_OVERRIDES: &'static str =
    "incoming[from, relation, unresolved_to, resolved_to, evidence, confidence, provenance] <- $rows\n\
     effective[from, relation, unresolved_to, resolved_to, evidence, confidence, provenance] := \
         *analysis_revision{view: $view, revision}, *analysis_revision_dependency_override{\
             view: $view, revision, from, relation, unresolved_to, resolved_to, evidence\
         }, *analysis_revision_dependency_override_metadata{\
             view: $view, revision, from, relation, unresolved_to, confidence, provenance\
         }\n\
     effective[from, relation, unresolved_to, resolved_to, evidence, confidence, provenance] := \
         *analysis_baseline_dependency_override{\
             view: $view, from, relation, unresolved_to, resolved_to, evidence, confidence, \
             provenance\
         }\n\
     ?[from, relation, unresolved_to] := incoming[\
         from, relation, unresolved_to, resolved_to, evidence, confidence, provenance\
     ], not effective[\
         from, relation, unresolved_to, resolved_to, evidence, confidence, provenance\
     ] :limit 1";

/// Whether some of the diagnostics given are not in effect.
pub const MISSING_DIAGNOSTICS: &'static str = "incoming[repository, code, severity, path, line, detail] <- $rows\n\
     effective[repository, code, severity, path, line, detail] := \
         *analysis_revision{view: $view, revision}, *analysis_revision_diagnostic{\
             view: $view, revision, repository, code, severity, path, line, detail\
         }\n\
     effective[repository, code, severity, path, line, detail] := \
         *analysis_baseline_diagnostic{\
             view: $view, repository, code, severity, path, line, detail\
         }\n\
     ?[repository, code, severity, path, line] := \
         incoming[repository, code, severity, path, line, detail], \
         not effective[repository, code, severity, path, line, detail] :limit 1";

/// Copies the repository states of a revision.
pub const COPY_STATES: &'static str = "?[view, revision, repository, state] := \
         *analysis_revision_state{view: $view, revision: $previous, repository, state}, \
         view = $view, revision = $revision \
     :put analysis_revision_state {view, revision, repository => state}";

/// Copies the heads of the repositories of a revision.
pub const COPY_HEADS: &'static str = "?[view, revision, repository, head] := \
         *analysis_revision_repository_head{view: $view, revision: $previous, repository, head}, \
         view = $view, revision = $revision \
     :put analysis_revision_repository_head {view, revision, repository => head}";

/// Notes the heads of the repositories of a revision.
pub const PUT_HEADS: &'static str = "?[view, revision, repository, head] <- $rows \
     :put analysis_revision_repository_head {view, revision, repository => head}";

/// What the baseline of a view shows: its observations, each with the target that an override
/// gives it.
pub const BASELINE_SHOWN: &'static str = "resolved[from, relation, unresolved_to, evidence, to] := \
         *analysis_baseline_dependency_override{\
             view: $view, from, relation, unresolved_to, resolved_to: to, evidence\
         }\n\
     overridden[from, relation, unresolved_to, evidence] := \
         resolved[from, relation, unresolved_to, evidence, _]\n\
     ?[from, relation, to, evidence] := \
         *analysis_baseline_observation{view: $view, from, relation, to: unresolved_to, evidence}, \
         resolved[from, relation, unresolved_to, evidence, to]\n\
     ?[from, relation, to, evidence] := \
         *analysis_baseline_observation{view: $view, from, relation, to, evidence}, \
         not overridden[from, relation, to, evidence]";

/// The owners that contributed to a view.
pub const OWNERS: &'static str = "?[owner] := *enrichment_output{view: $view, owner}";

/// The owners whose contributions do not count for a revision, behind the rule that tells whose
/// do.
pub const REFUSED_OWNERS: &'static str = "?[owner] := *enrichment_output{view: $view, owner}, not valid_owner[owner]";

/// The entities that only owners contributed that no analyzer stands for any more, and that
/// observations of owners refer to whose contributions count, behind the rule that tells whose do.
pub const DANGLING_ENTITIES: &'static str = "current[repository, analyzer] := \
         *analysis_revision_enrichment_input{view: $view, revision: $revision, repository, analyzer}\n\
     obsolete[owner] := *enrichment_output{\
         view: $view, owner, repository, analyzer\
     }, not current[repository, analyzer]\n\
     known[id] := *analysis_baseline_entity{view: $view, id}\n\
     known[id] := *analysis_fact_shard_selection{view: $view, producer, owner, version}, \
         *analysis_fact_shard_entity{producer, owner, version, id}\n\
     known[id] := valid_owner[owner], *enrichment_entity_contribution{view: $view, owner, id}\n\
     used[id] := valid_owner[owner], *enrichment_observation_contribution{view: $view, owner, from: id}\n\
     used[id] := valid_owner[owner], *enrichment_observation_contribution{view: $view, owner, to: id}\n\
     ?[id] := obsolete[owner], *enrichment_entity_contribution{view: $view, owner, id}, \
         used[id], not known[id]\n\
     :order id";

/// The fingerprints of the repositories that the published revision was made from.
pub const INPUT_FINGERPRINTS: &'static str = "?[repository, fingerprint] := *analysis_revision{view: $view, revision}, \
     *analysis_revision_input{view: $view, revision, repository, fingerprint}";

/// Takes the states of a repository out of the revisions of a view.
pub const REMOVE_SHOWN_STATES: &'static str = "?[view, revision, repository] := \
         *analysis_revision_state{view, revision, repository}, \
         view = $view, repository = $repository \
     :rm analysis_revision_state {view, revision, repository}";

/// Copies the inputs of a revision.
pub const COPY_INPUTS: &'static str = "?[view, revision, repository, fingerprint] := \
         *analysis_revision_input{view: $view, revision: $previous, repository, fingerprint}, \
         view = $view, revision = $revision \
     :put analysis_revision_input {view, revision, repository => fingerprint}";

/// Copies what analyzers take in for a revision.
pub const COPY_ENRICHMENT_INPUTS: &'static str = "?[view, revision, repository, analyzer, fingerprint] := \
         *analysis_revision_enrichment_input{\
             view: $view, revision: $previous, repository, analyzer, fingerprint\
         }, view = $view, revision = $revision \
     :put analysis_revision_enrichment_input {\
         view, revision, repository, analyzer => fingerprint\
     }";

/// Copies the contexts of a revision.
pub const COPY_CONTEXTS: &'static str = "?[view, revision, target, analyzer, context] := \
         *analysis_revision_context{\
             view: $view, revision: $previous, target, analyzer, context\
         }, view = $view, revision = $revision \
     :put analysis_revision_context {view, revision, target, analyzer, context}";

/// Copies the metadata of a revision.
pub const COPY_METADATA: &'static str = "?[view, revision, incomplete] := \
         *analysis_revision_metadata{view: $view, revision: $previous, incomplete}, \
         view = $view, revision = $revision \
     :put analysis_revision_metadata {view, revision => incomplete}";

/// Copies what became of candidates for bindings in a revision.
pub const COPY_GRPC_DIAGNOSTICS: &'static str =
    "?[view, revision, local_symbol, role, service, method, evidence, code, detail] := \
         *analysis_revision_grpc_diagnostic{\
             view: $view, revision: $previous, local_symbol, role, service, method, evidence, \
             code, detail\
         }, view = $view, revision = $revision \
     :put analysis_revision_grpc_diagnostic {\
         view, revision, local_symbol, role, service, method, evidence => code, detail\
     }";

/// Copies the entities of a revision.
pub const COPY_ENTITIES: &'static str = "?[view, revision, id, kind, metadata] := *analysis_revision_entity{\
         view: $view, revision: $previous, id, kind, metadata\
     }, view = $view, revision = $revision \
     :put analysis_revision_entity {view, revision, id => kind, metadata}";

/// Copies the observations of a revision.
pub const COPY_OBSERVATIONS: &'static str = "?[view, revision, from, relation, to, evidence, confidence, provenance] := \
         *analysis_revision_observation{\
             view: $view, revision: $previous, from, relation, to, evidence, confidence, \
             provenance\
         }, view = $view, revision = $revision \
     :put analysis_revision_observation {\
         view, revision, from, relation, to, evidence => confidence, provenance\
     }";

/// Copies the overrides of a revision.
pub const COPY_OVERRIDES: &'static str = "?[view, revision, from, relation, unresolved_to, resolved_to, evidence] := \
         *analysis_revision_dependency_override{\
             view: $view, revision: $previous, from, relation, unresolved_to, resolved_to, \
             evidence\
         }, view = $view, revision = $revision \
     :put analysis_revision_dependency_override {\
         view, revision, from, relation, unresolved_to => resolved_to, evidence\
     }";

/// Copies confidence and provenance of the overrides of a revision.
pub const COPY_OVERRIDE_METADATA: &'static str = "?[view, revision, from, relation, unresolved_to, confidence, provenance] := \
         *analysis_revision_dependency_override_metadata{\
             view: $view, revision: $previous, from, relation, unresolved_to, confidence, \
             provenance\
         }, view = $view, revision = $revision \
     :put analysis_revision_dependency_override_metadata {\
         view, revision, from, relation, unresolved_to => confidence, provenance\
     }";

/// Copies the diagnostics of a revision.
pub const COPY_DIAGNOSTICS: &'static str = "?[view, revision, repository, code, severity, path, line, detail] := \
         *analysis_revision_diagnostic{\
             view: $view, revision: $previous, repository, code, severity, path, line, detail\
         }, view = $view, revision = $revision \
     :put analysis_revision_diagnostic {\
         view, revision, repository, code, severity, path, line => detail\
     }";

/// Removes from a revision the entities that an owner contributes.
pub const RETRACT_ENTITIES: &'static str = "?[view, revision, id] := *enrichment_entity_contribution{\
         view: $view, owner: $owner, id\
     }, view = $view, revision = $revision \
     :rm analysis_revision_entity {view, revision, id}";

/// Removes from a revision the observations that an owner contributes.
pub const RETRACT_OBSERVATIONS: &'static str = "?[view, revision, from, relation, to, evidence] := \
         *enrichment_observation_contribution{\
             view: $view, owner: $owner, from, relation, to, evidence\
         }, view = $view, revision = $revision \
     :rm analysis_revision_observation {view, revision, from, relation, to, evidence}";

/// Removes from a revision the overrides that an owner contributes.
pub const RETRACT_OVERRIDES: &'static str = "?[view, revision, from, relation, unresolved_to] := \
         *enrichment_override_contribution{\
             view: $view, owner: $owner, from, relation, unresolved_to\
         }, view = $view, revision = $revision \
     :rm analysis_revision_dependency_override {view, revision, from, relation, unresolved_to}";

/// Removes from a revision what is known of the overrides that an owner contributes.
pub const RETRACT_OVERRIDE_METADATA: &'static str = "?[view, revision, from, relation, unresolved_to] := \
         *enrichment_override_contribution{\
             view: $view, owner: $owner, from, relation, unresolved_to\
         }, view = $view, revision = $revision \
     :rm analysis_revision_dependency_override_metadata {\
         view, revision, from, relation, unresolved_to\
     }";

/// Removes from a revision the diagnostics that an owner contributes.
pub const RETRACT_DIAGNOSTICS: &'static str = "?[view, revision, repository, code, severity, path, line] := \
         *enrichment_diagnostic_contribution{\
             view: $view, owner: $owner, repository, code, severity, path, line\
         }, view = $view, revision = $revision \
     :rm analysis_revision_diagnostic {view, revision, repository, code, severity, path, line}";

/// Removes the entities that an owner contributes.
pub const CLEAR_OWNER_ENTITIES: &'static str = "?[view, owner, id] := *enrichment_entity_contribution{\
         view: $view, owner, id\
     }, view = $view, owner = $owner \
     :rm enrichment_entity_contribution {view, owner, id}";

/// Removes the observations that an owner contributes.
pub const CLEAR_OWNER_OBSERVATIONS: &'static str = "?[view, owner, from, relation, to, evidence] := \
     *enrichment_observation_contribution{\
         view: $view, owner, from, relation, to, evidence\
     }, view = $view, owner = $owner \
     :rm enrichment_observation_contribution {\
         view, owner, from, relation, to, evidence\
     }";

/// Removes the overrides that an owner contributes.
pub const CLEAR_OWNER_OVERRIDES: &'static str = "?[view, owner, from, relation, unresolved_to] := \
     *enrichment_override_contribution{\
         view: $view, owner, from, relation, unresolved_to\
     }, view = $view, owner = $owner \
     :rm enrichment_override_contribution {\
         view, owner, from, relation, unresolved_to\
     }";

/// Removes the diagnostics that an owner contributes.
pub const CLEAR_OWNER_DIAGNOSTICS: &'static str = "?[view, owner, repository, code, severity, path, line] := \
     *enrichment_diagnostic_contribution{\
         view: $view, owner, repository, code, severity, path, line\
     }, view = $view, owner = $owner \
     :rm enrichment_diagnostic_contribution {\
         view, owner, repository, code, severity, path, line\
     }";

/// Stores entities that an owner contributes.
pub const PUT_OWNER_ENTITIES: &'static str = "?[view, owner, id, kind, metadata] <- $rows \
     :put enrichment_entity_contribution {view, owner, id => kind, metadata}";

/// Stores observations that an owner contributes.
pub const PUT_OWNER_OBSERVATIONS: &'static str = "?[view, owner, from, relation, to, evidence, confidence, provenance] <- $rows \
     :put enrichment_observation_contribution {\
         view, owner, from, relation, to, evidence => confidence, provenance\
     }";

/// Stores overrides that an owner contributes.
pub const PUT_OWNER_OVERRIDES: &'static str =
    "?[view, owner, from, relation, unresolved_to, resolved_to, evidence, confidence, provenance] <- $rows \
     :put enrichment_override_contribution {\
         view, owner, from, relation, unresolved_to => resolved_to, evidence, confidence, \
         provenance\
     }";

/// Stores diagnostics that an owner contributes.
pub const PUT_OWNER_DIAGNOSTICS: &'static str = "?[view, owner, repository, code, severity, path, line, detail] <- $rows \
     :put enrichment_diagnostic_contribution {\
         view, owner, repository, code, severity, path, line => detail\
     }";

/// Whether a revision has entities that the previous one lacks.
pub const NEW_ENTITIES: &'static str = "?[id] := *analysis_revision_entity{\
         view: $view, revision: $revision, id, kind, metadata\
     }, not *analysis_revision_entity{\
         view: $view, revision: $previous, id, kind, metadata\
     } :limit 1";

/// Whether a revision has observations that the previous one lacks.
pub const NEW_OBSERVATIONS: &'static str = "?[from, relation, to, evidence] := *analysis_revision_observation{\
         view: $view, revision: $revision, from, relation, to, evidence, confidence, provenance\
     }, not *analysis_revision_observation{\
         view: $view, revision: $previous, from, relation, to, evidence, confidence, provenance\
     } :limit 1";

/// Whether a revision has diagnostics that the previous one lacks.
pub const NEW_DIAGNOSTICS: &'static str = "?[repository, code, severity, path, line] := *analysis_revision_diagnostic{\
         view: $view, revision: $revision, repository, code, severity, path, line, detail\
     }, not *analysis_revision_diagnostic{\
         view: $view, revision: $previous, repository, code, severity, path, line, detail\
     } :limit 1";

/// Whether a revision has overrides that the previous one lacks.
pub const NEW_OVERRIDES: &'static str = "?[from, relation, unresolved_to] := *analysis_revision_dependency_override{\
         view: $view, revision: $revision, from, relation, unresolved_to, resolved_to, evidence\
     }, not *analysis_revision_dependency_override{\
         view: $view, revision: $previous, from, relation, unresolved_to, resolved_to, evidence\
     } :limit 1";

/// Whether overrides of a revision are known otherwise than in the previous one.
pub const NEW_OVERRIDE_METADATA: &'static str =
    "?[from, relation, unresolved_to] := *analysis_revision_dependency_override_metadata{\
         view: $view, revision: $revision, from, relation, unresolved_to, confidence, provenance\
     }, not *analysis_revision_dependency_override_metadata{\
         view: $view, revision: $previous, from, relation, unresolved_to, confidence, provenance\
     } :limit 1";

/// Stores whether the analysis of the published revision is incomplete.
pub const PUT_METADATA: &'static str = "?[view, revision, incomplete] := \
         *analysis_revision{view: $view, revision}, \
         view = $view, incomplete = $incomplete\n\
     :put analysis_revision_metadata {view, revision => incomplete}";

/// Stores the diagnostics of a revision.
pub const PUT_DIAGNOSTICS: &'static str = "?[view, revision, repository, code, severity, path, line, detail] <- $rows\n\
     :put analysis_revision_diagnostic {\
         view, revision, repository, code, severity, path, line => detail\
     }";

/// Stores a repository state of the published revision.
pub const PUT_REVISION_STATE: &'static str = "?[view, revision, repository, state] := \
         *analysis_revision{view: $view, revision}, \
         view = $view, repository = $repository, state = $state\n\
     :put analysis_revision_state {view, revision, repository => state}";

/// Stores a repository state.
pub const PUT_STATE: &'static str = "?[fingerprint, repository, head] <- [[$state, $repository, $head]]\n\
     :put repository_state {fingerprint => repository, head}";

/// The repository states that nothing published refers to.
pub const STALE_STATES: &'static str = "live_state[state] := \
         *analysis_revision{view, revision}, \
         *analysis_revision_state{view, revision, state}\n\
     live_state[state] := *repository_revision{analyzed_state: state}\n\
     ?[state, repository, head] := \
         *repository_state{fingerprint: state, repository, head}, not live_state[state]";

/// Removes repository states.
pub const REMOVE_STATES: &'static str = "?[fingerprint] <- $states :rm repository_state {fingerprint}";

/// Whether anything waits to be collected.
pub const COLLECTION_PENDING: &'static str = "?[pending] := *garbage_collection_state{state}, pending = true\n\
     ?[pending] := *analysis_revision{view, revision: current}, \
         *analysis_revision_metadata{view, revision}, revision < current, pending = true\n\
     :limit 1";

/// How many repository states could be collected.
pub const COLLECTION_CANDIDATES: &'static str = "live_state[state] := \
         *analysis_revision{view, revision}, \
         *analysis_revision_state{view, revision, state}\n\
     live_state[state] := *repository_revision{analyzed_state: state}\n\
     ?[count(state)] := \
         *repository_state{fingerprint: state}, not live_state[state]";

/// How many repository states wait to be collected.
pub const COLLECTION_QUEUED: &'static str = "?[count(state)] := *garbage_collection_state{state}";

/// Whether a repository state is stored again.
pub const STATE_IN_USE: &'static str = "?[fingerprint] := \
         *repository_state{fingerprint: $state}, fingerprint = $state\n\
     :limit 1";

/// The repository states that wait to be collected.
pub const QUEUED_STATES: &'static str = "?[state, repository] := *garbage_collection_state{state, repository}";

/// Observations of a repository state.
pub const STALE_OBSERVATIONS: &'static str = "?[state, from, relation, to] := \
     *state_observation{state: $state, from, relation, to}, state = $state";

/// Entities of a repository state.
pub const STALE_ENTITIES: &'static str = "?[state, id] := *state_entity{state: $state, id}, state = $state";

/// Candidates for bindings of a repository state.
pub const STALE_CANDIDATES: &'static str = "?[state, local_symbol, role, service, method, evidence] := \
     *state_grpc_binding_candidate{\
         state: $state, local_symbol, role, service, method, evidence\
     }, state = $state";

/// Observations of dependencies of a repository state.
pub const STALE_DEPENDENCIES: &'static str = "?[state, from, relation, to] := \
     *state_dependency_observation{\
         state: $state, from, relation, to\
     }, state = $state";

/// Confidence and provenance of the observations of a repository state.
pub const STALE_METADATA: &'static str = "?[state, from, relation, to] := \
     *state_observation_metadata{\
         state: $state, from, relation, to\
     }, state = $state";

/// Takes a repository state out of the queue.
pub const DEQUEUE_STATE: &'static str = "?[state] := state = $state\n:rm garbage_collection_state {state}";

/// The published revisions of all views.
pub const CURRENT_REVISIONS: &'static str = "?[view, revision] := *analysis_revision{view, revision}";

} // verus!
