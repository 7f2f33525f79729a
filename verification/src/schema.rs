//! The relations of the database.

use vstd::prelude::*;

verus! {

/// Creates the relation `state_observation`.
pub const CREATE_SCHEMA: &'static str = "
:create state_observation {
    state: String,
    from: String,
    relation: String,
    to: String,
    =>
    evidence: String,
}
";

/// Creates the relation `state_dependency_observation`.
pub const CREATE_DEPENDENCY_SCHEMA: &'static str = "
:create state_dependency_observation {
    state: String,
    from: String,
    relation: String,
    to: String,
    =>
    evidence: String,
}
";

/// Creates the relation `state_observation_metadata`.
pub const CREATE_METADATA_SCHEMA: &'static str = "
:create state_observation_metadata {
    state: String,
    from: String,
    relation: String,
    to: String,
    =>
    confidence: Float,
    provenance: String,
}
";

/// Creates the relation `state_entity`.
pub const CREATE_ENTITY_SCHEMA: &'static str = "
:create state_entity {
    state: String,
    id: String,
    =>
    kind: String,
    metadata: String,
}
";

/// Creates the relation `state_grpc_binding_candidate`.
pub const CREATE_GRPC_BINDING_SCHEMA: &'static str = "
:create state_grpc_binding_candidate {
    state: String,
    local_symbol: String,
    role: String,
    service: String,
    method: String,
    evidence: String,
    =>
    cardinality: String,
    confidence: Float,
    provenance: String,
}
";

/// Creates the relation `analysis_revision_observation`.
pub const CREATE_REVISION_OBSERVATION_SCHEMA: &'static str = "
:create analysis_revision_observation {
    view: String,
    revision: Int,
    from: String,
    relation: String,
    to: String,
    evidence: String,
    =>
    confidence: Float,
    provenance: String,
}
";

/// Creates the relation `analysis_revision_entity`.
pub const CREATE_REVISION_ENTITY_SCHEMA: &'static str = "
:create analysis_revision_entity {
    view: String,
    revision: Int,
    id: String,
    =>
    kind: String,
    metadata: String,
}
";

/// Creates the relation `analysis_revision_grpc_diagnostic`.
pub const CREATE_GRPC_DIAGNOSTIC_SCHEMA: &'static str = "
:create analysis_revision_grpc_diagnostic {
    view: String,
    revision: Int,
    local_symbol: String,
    role: String,
    service: String,
    method: String,
    evidence: String,
    =>
    code: String,
    detail: String,
}
";

/// Creates the relation `analysis_revision_metadata`.
pub const CREATE_ANALYSIS_METADATA_SCHEMA: &'static str = "
:create analysis_revision_metadata {
    view: String,
    revision: Int,
    =>
    incomplete: Bool,
}
";

/// Creates the relation `analysis_revision_diagnostic`.
pub const CREATE_ANALYSIS_DIAGNOSTIC_SCHEMA: &'static str = "
:create analysis_revision_diagnostic {
    view: String,
    revision: Int,
    repository: String,
    code: String,
    severity: String,
    path: String,
    line: Int,
    =>
    detail: String,
}
";

/// Creates the relation `analysis_revision_enrichment`.
pub const CREATE_ENRICHMENT_SCHEMA: &'static str = "
:create analysis_revision_enrichment {
    view: String,
    revision: Int,
    analyzer: String,
    =>
    version: String,
}
";

/// Creates the relation `analysis_revision_input`.
pub const CREATE_REVISION_INPUT_SCHEMA: &'static str = "
:create analysis_revision_input {
    view: String,
    revision: Int,
    repository: String,
    =>
    fingerprint: String,
}
";

/// Creates the relation `analysis_revision_context`.
pub const CREATE_REVISION_CONTEXT_SCHEMA: &'static str = "
:create analysis_revision_context {
    view: String,
    revision: Int,
    target: String,
    analyzer: String,
    context: String,
}
";

/// Creates the relation `analysis_revision_enrichment_input`.
pub const CREATE_ENRICHMENT_INPUT_SCHEMA: &'static str = "
:create analysis_revision_enrichment_input {
    view: String,
    revision: Int,
    repository: String,
    analyzer: String,
    =>
    fingerprint: String,
}
";

/// Creates the relation `analysis_revision_repository_enrichment`.
pub const CREATE_REPOSITORY_ENRICHMENT_SCHEMA: &'static str = "
:create analysis_revision_repository_enrichment {
    view: String,
    revision: Int,
    owner: String,
    =>
    repository: String,
    analyzer: String,
    version: String,
    input_fingerprint: String,
}
";

/// Creates the relation `analysis_revision_enrichment_override_owner`.
pub const CREATE_ENRICHMENT_OVERRIDE_OWNER_SCHEMA: &'static str = "
:create analysis_revision_enrichment_override_owner {
    view: String,
    revision: Int,
    from: String,
    relation: String,
    unresolved_to: String,
    =>
    analyzer: String,
}
";

/// Creates the relation `analysis_revision_enrichment_diagnostic_owner`.
pub const CREATE_ENRICHMENT_DIAGNOSTIC_OWNER_SCHEMA: &'static str = "
:create analysis_revision_enrichment_diagnostic_owner {
    view: String,
    revision: Int,
    repository: String,
    code: String,
    severity: String,
    path: String,
    line: Int,
    =>
    analyzer: String,
}
";

/// Creates the relation `analysis_revision_enrichment_entity_owner`.
pub const CREATE_ENRICHMENT_ENTITY_OWNER_SCHEMA: &'static str = "
:create analysis_revision_enrichment_entity_owner {
    view: String,
    revision: Int,
    id: String,
    =>
    analyzer: String,
}
";

/// Creates the relation `analysis_revision_enrichment_observation_owner`.
pub const CREATE_ENRICHMENT_OBSERVATION_OWNER_SCHEMA: &'static str = "
:create analysis_revision_enrichment_observation_owner {
    view: String,
    revision: Int,
    from: String,
    relation: String,
    to: String,
    evidence: String,
    =>
    analyzer: String,
}
";

/// Creates the relation `enrichment_output`.
pub const CREATE_ENRICHMENT_OUTPUT_SCHEMA: &'static str = "
:create enrichment_output {
    view: String,
    owner: String,
    =>
    repository: String,
    analyzer: String,
    version: String,
    input_fingerprint: String,
}
";

/// Creates the relation `enrichment_entity_contribution`.
pub const CREATE_ENRICHMENT_ENTITY_CONTRIBUTION_SCHEMA: &'static str = "
:create enrichment_entity_contribution {
    view: String,
    owner: String,
    id: String,
    =>
    kind: String,
    metadata: String,
}
";

/// Creates the relation `enrichment_observation_contribution`.
pub const CREATE_ENRICHMENT_OBSERVATION_CONTRIBUTION_SCHEMA: &'static str = "
:create enrichment_observation_contribution {
    view: String,
    owner: String,
    from: String,
    relation: String,
    to: String,
    evidence: String,
    =>
    confidence: Float,
    provenance: String,
}
";

/// Creates the relation `enrichment_override_contribution`.
pub const CREATE_ENRICHMENT_OVERRIDE_CONTRIBUTION_SCHEMA: &'static str = "
:create enrichment_override_contribution {
    view: String,
    owner: String,
    from: String,
    relation: String,
    unresolved_to: String,
    =>
    resolved_to: String,
    evidence: String,
    confidence: Float,
    provenance: String,
}
";

/// Creates the relation `enrichment_diagnostic_contribution`.
pub const CREATE_ENRICHMENT_DIAGNOSTIC_CONTRIBUTION_SCHEMA: &'static str = "
:create enrichment_diagnostic_contribution {
    view: String,
    owner: String,
    repository: String,
    code: String,
    severity: String,
    path: String,
    line: Int,
    =>
    detail: String,
}
";

/// Creates the relation `analysis_baseline_entity`.
pub const CREATE_BASELINE_ENTITY_SCHEMA: &'static str = "
:create analysis_baseline_entity {
    view: String,
    id: String,
    =>
    kind: String,
    metadata: String,
    revision_owned: Bool,
}
";

/// Creates the relation `analysis_baseline_observation`.
pub const CREATE_BASELINE_OBSERVATION_SCHEMA: &'static str = "
:create analysis_baseline_observation {
    view: String,
    from: String,
    relation: String,
    to: String,
    evidence: String,
    =>
    confidence: Float,
    provenance: String,
    revision_owned: Bool,
}
";

/// Creates the relation `analysis_baseline_dependency_override`.
pub const CREATE_BASELINE_OVERRIDE_SCHEMA: &'static str = "
:create analysis_baseline_dependency_override {
    view: String,
    from: String,
    relation: String,
    unresolved_to: String,
    =>
    resolved_to: String,
    evidence: String,
    confidence: Float,
    provenance: String,
}
";

/// Creates the relation `analysis_baseline_diagnostic`.
pub const CREATE_BASELINE_DIAGNOSTIC_SCHEMA: &'static str = "
:create analysis_baseline_diagnostic {
    view: String,
    repository: String,
    code: String,
    severity: String,
    path: String,
    line: Int,
    =>
    detail: String,
}
";

/// Creates the relation `analysis_fact_shard_selection`.
pub const CREATE_FACT_SHARD_SELECTION_SCHEMA: &'static str = "
:create analysis_fact_shard_selection {
    view: String,
    producer: String,
    repository: String,
    owner: String,
    =>
    version: String,
}
";

/// Creates the relation `analysis_fact_shard_entity`.
pub const CREATE_FACT_SHARD_ENTITY_SCHEMA: &'static str = "
:create analysis_fact_shard_entity {
    producer: String,
    owner: String,
    version: String,
    id: String,
    =>
    kind: String,
    metadata: String,
}
";

/// Creates the relation `analysis_fact_shard_observation`.
pub const CREATE_FACT_SHARD_OBSERVATION_SCHEMA: &'static str = "
:create analysis_fact_shard_observation {
    producer: String,
    owner: String,
    version: String,
    from: String,
    relation: String,
    to: String,
    evidence: String,
    =>
    confidence: Float,
    provenance: String,
}
";

/// Creates the relation `analysis_fact_shard_dependency_observation`.
pub const CREATE_FACT_SHARD_DEPENDENCY_SCHEMA: &'static str = "
:create analysis_fact_shard_dependency_observation {
    producer: String,
    owner: String,
    version: String,
    from: String,
    relation: String,
    to: String,
    evidence: String,
}
";

/// Creates the relation `analysis_baseline_fingerprint`.
pub const CREATE_BASELINE_FINGERPRINT_SCHEMA: &'static str = "
:create analysis_baseline_fingerprint {
    view: String,
    =>
    fingerprint: String,
}
";

/// Creates the relation `schema_migration`.
pub const CREATE_SCHEMA_MIGRATION_SCHEMA: &'static str = "
:create schema_migration {
    name: String,
    =>
    version: Int,
}
";

/// Creates the index `by_to` of the relation `state_observation`.
pub const CREATE_OBSERVATION_TO_INDEX: &'static str =
    "::index create state_observation:by_to {to, state, from, relation, evidence}";

/// Creates the index `by_to` of the relation `state_observation_metadata`.
pub const CREATE_METADATA_TO_INDEX: &'static str = "::index create state_observation_metadata:by_to \
     {to, state, from, relation, confidence, provenance}";

/// Creates the index `by_to` of the relation `analysis_revision_observation`.
pub const CREATE_REVISION_OBSERVATION_TO_INDEX: &'static str = "::index create analysis_revision_observation:by_to \
     {view, revision, to, from, relation, evidence, confidence, provenance}";

/// Creates the relation `analysis_revision_dependency_override`.
pub const CREATE_OVERRIDE_SCHEMA: &'static str = "
:create analysis_revision_dependency_override {
    view: String,
    revision: Int,
    from: String,
    relation: String,
    unresolved_to: String,
    =>
    resolved_to: String,
    evidence: String,
}
";

/// Creates the relation `analysis_revision_dependency_override_metadata`.
pub const CREATE_OVERRIDE_METADATA_SCHEMA: &'static str = "
:create analysis_revision_dependency_override_metadata {
    view: String,
    revision: Int,
    from: String,
    relation: String,
    unresolved_to: String,
    =>
    confidence: Float,
    provenance: String,
}
";

/// Creates the relation `analysis_revision`.
pub const CREATE_REVISION_SCHEMA: &'static str = "
:create analysis_revision {
    view: String,
    =>
    revision: Int,
}
";

/// Creates the relation `analysis_revision_state`.
pub const CREATE_REVISION_STATE_SCHEMA: &'static str = "
:create analysis_revision_state {
    view: String,
    revision: Int,
    repository: String,
    =>
    state: String,
}
";

/// Creates the relation `analysis_revision_repository_head`.
pub const CREATE_REPOSITORY_HEAD_SCHEMA: &'static str = "
:create analysis_revision_repository_head {
    view: String,
    revision: Int,
    repository: String,
    =>
    head: String,
}
";

/// Creates the relation `analysis_fingerprint`.
pub const CREATE_FINGERPRINT_SCHEMA: &'static str = "
:create analysis_fingerprint {
    view: String,
    =>
    fingerprint: String,
}
";

/// Creates the relation `analysis_verification_fingerprint`.
pub const CREATE_VERIFICATION_FINGERPRINT_SCHEMA: &'static str = "
:create analysis_verification_fingerprint {
    view: String,
    =>
    fingerprint: String,
}
";

/// Creates the relation `repository_state`.
pub const CREATE_REPOSITORY_STATE_SCHEMA: &'static str = "
:create repository_state {
    fingerprint: String,
    =>
    repository: String,
    head: String,
}
";

/// Creates the relation `repository_revision`.
pub const CREATE_REPOSITORY_REVISION_SCHEMA: &'static str = "
:create repository_revision {
    repository: String,
    =>
    source_state: String,
    analyzed_state: String,
    analysis_identity: String,
    head: String,
    incomplete: Bool,
}
";

/// Creates the relation `repository_revision_diagnostic`.
pub const CREATE_REPOSITORY_REVISION_DIAGNOSTIC_SCHEMA: &'static str = "
:create repository_revision_diagnostic {
    repository: String,
    code: String,
    severity: String,
    path: String,
    line: Int,
    =>
    detail: String,
}
";

/// Creates the relation `garbage_collection_state`.
pub const CREATE_GARBAGE_COLLECTION_STATE_SCHEMA: &'static str = "
:create garbage_collection_state {
    state: String,
    =>
    repository: String,
    head: String,
}
";

/// Facts that an empty database begins with.
pub const SEED: &'static str = "
?[state, from, relation, to, evidence] <- [
    ['seed-main', 'web/CheckoutPage', 'uses', 'web/CheckoutQuery', 'CheckoutPage.tsx:12'],
    ['seed-main', 'web/CheckoutQuery', 'selects', 'graphql/Query.checkout', 'CheckoutQuery.graphql:2'],
    ['seed-main', 'graphql/Query.checkout', 'resolved_by', 'bff/CheckoutResolver.checkout', 'schema.ex:41'],
    ['seed-main', 'bff/CheckoutResolver.checkout', 'calls', 'rpc/Pricing.GetPrice', 'checkout_resolver.ex:28'],
    ['seed-main', 'rpc/Pricing.GetPrice', 'implemented_by', 'pricing/get_price', 'pricing.proto:9'],
    ['seed-main', 'pricing/get_price', 'publishes', 'topic/pricing.updated', 'get_price.rs:18'],
    ['seed-main', 'topic/pricing.updated', 'consumed_by', 'cache/update_price', 'consumer.rs:7'],
    ['seed-feature', 'rpc/Pricing.GetPrice', 'implemented_by', 'pricing/get_price_v2', 'pricing.proto:9'],
]
:put state_observation {state, from, relation, to => evidence}
";

/// What is known besides of the facts that an empty database begins with.
pub const SEED_DEPENDENCIES: &'static str = "
?[state, from, relation, to, evidence] :=
    *state_observation{state, from, relation, to, evidence}
:put state_dependency_observation {state, from, relation, to => evidence}
";

/// What is known besides of the facts that an empty database begins with.
pub const SEED_METADATA: &'static str = "
?[state, from, relation, to, confidence, provenance] :=
    *state_observation{state, from, relation, to},
    confidence = 1.0,
    provenance = 'ast'
:put state_observation_metadata {state, from, relation, to => confidence, provenance}
";

/// What is known besides of the facts that an empty database begins with.
pub const SEED_REVISIONS: &'static str = "
?[view, revision] <- [['main', 0], ['feature', 0]]
:put analysis_revision {view => revision}
";

/// What is known besides of the facts that an empty database begins with.
pub const SEED_STATES: &'static str = "
?[view, revision, repository, state] <- [
    ['main', 0, 'seed', 'seed-main'],
    ['feature', 0, 'seed', 'seed-feature'],
]
:put analysis_revision_state {view, revision, repository => state}
";

/// Takes over which owners contributed.
pub const OWNED_OUTPUTS: &'static str = "?[view, owner, repository, analyzer, version, input_fingerprint] := \
         *analysis_revision{view, revision}, \
         *analysis_revision_repository_enrichment{\
             view, revision, owner, repository, analyzer, version, input_fingerprint\
         }, not *enrichment_output{view, owner} \
     :put enrichment_output {\
         view, owner => repository, analyzer, version, input_fingerprint\
     }";

/// Takes over the entities that owners contributed.
pub const OWNED_ENTITIES: &'static str = "?[view, owner, id, kind, metadata] := *analysis_revision{view, revision}, \
         *analysis_revision_enrichment_entity_owner{\
             view, revision, id, analyzer: owner\
         }, *analysis_revision_entity{view, revision, id, kind, metadata} \
     :put enrichment_entity_contribution {view, owner, id => kind, metadata}";

/// Takes over the observations that owners contributed.
pub const OWNED_OBSERVATIONS: &'static str = "?[view, owner, from, relation, to, evidence, confidence, provenance] := \
         *analysis_revision{view, revision}, \
         *analysis_revision_enrichment_observation_owner{\
             view, revision, from, relation, to, evidence, analyzer: owner\
         }, *analysis_revision_observation{\
             view, revision, from, relation, to, evidence, confidence, provenance\
         } \
     :put enrichment_observation_contribution {\
         view, owner, from, relation, to, evidence => confidence, provenance\
     }";

/// Takes over the overrides that owners contributed.
pub const OWNED_OVERRIDES: &'static str =
    "?[view, owner, from, relation, unresolved_to, resolved_to, evidence, confidence, provenance] := \
         *analysis_revision{view, revision}, \
         *analysis_revision_enrichment_override_owner{\
             view, revision, from, relation, unresolved_to, analyzer: owner\
         }, *analysis_revision_dependency_override{\
             view, revision, from, relation, unresolved_to, resolved_to, evidence\
         }, *analysis_revision_dependency_override_metadata{\
             view, revision, from, relation, unresolved_to, confidence, provenance\
         } \
     :put enrichment_override_contribution {\
         view, owner, from, relation, unresolved_to => resolved_to, evidence, confidence, \
         provenance\
     }";

/// Takes over the diagnostics that owners contributed.
pub const OWNED_DIAGNOSTICS: &'static str = "?[view, owner, repository, code, severity, path, line, detail] := \
         *analysis_revision{view, revision}, \
         *analysis_revision_enrichment_diagnostic_owner{\
             view, revision, repository, code, severity, path, line, analyzer: owner\
         }, *analysis_revision_diagnostic{\
             view, revision, repository, code, severity, path, line, detail\
         } \
     :put enrichment_diagnostic_contribution {\
         view, owner, repository, code, severity, path, line => detail\
     }";

/// Notes that ownership was taken over.
pub const OWNERSHIP_MIGRATED: &'static str = "?[name, version] <- [['enrichment-ownership', 1]] \
     :put schema_migration {name => version}";

/// Takes the entities of repository states into the baseline.
pub const BASED_STATE_ENTITIES: &'static str =
    "?[view, id, kind, metadata, revision_owned] := *analysis_revision{view, revision}, \
         *analysis_revision_state{view, revision, state}, \
         *state_entity{state, id, kind, metadata}, revision_owned = false \
     :put analysis_baseline_entity {view, id => kind, metadata, revision_owned}";

/// Takes the observations of repository states into the baseline.
pub const BASED_STATE_OBSERVATIONS: &'static str =
    "?[view, from, relation, to, evidence, confidence, provenance, revision_owned] := \
         *analysis_revision{view, revision}, *analysis_revision_state{view, revision, state}, \
         *state_observation{state, from, relation, to, evidence}, \
         *state_observation_metadata{state, from, relation, to, confidence, provenance}, \
         revision_owned = false \
     :put analysis_baseline_observation {\
         view, from, relation, to, evidence => confidence, provenance, revision_owned\
     }";

/// Takes the entities of revisions into the baseline that no owner contributed.
pub const BASED_ENTITIES: &'static str = "?[view, id, kind, metadata, revision_owned] := *analysis_revision{view, revision}, \
         *analysis_revision_entity{view, revision, id, kind, metadata}, \
         not *enrichment_entity_contribution{view, id}, revision_owned = true \
     :put analysis_baseline_entity {view, id => kind, metadata, revision_owned}";

/// Takes the observations of revisions into the baseline that no owner contributed.
pub const BASED_OBSERVATIONS: &'static str = "?[view, from, relation, to, evidence, confidence, provenance, revision_owned] := \
         *analysis_revision{view, revision}, *analysis_revision_observation{\
             view, revision, from, relation, to, evidence, confidence, provenance\
         }, not *enrichment_observation_contribution{view, from, relation, to, evidence}, \
         revision_owned = true \
     :put analysis_baseline_observation {\
         view, from, relation, to, evidence => confidence, provenance, revision_owned\
     }";

/// Takes the overrides into the baseline.
pub const BASED_OVERRIDES: &'static str =
    "?[view, from, relation, unresolved_to, resolved_to, evidence, confidence, provenance] := \
         *analysis_revision{view, revision}, *analysis_revision_dependency_override{\
             view, revision, from, relation, unresolved_to, resolved_to, evidence\
         }, *analysis_revision_dependency_override_metadata{\
             view, revision, from, relation, unresolved_to, confidence, provenance\
         }, not *enrichment_override_contribution{view, from, relation, unresolved_to} \
     :put analysis_baseline_dependency_override {\
         view, from, relation, unresolved_to => resolved_to, evidence, confidence, provenance\
     }";

/// Takes the diagnostics into the baseline.
pub const BASED_DIAGNOSTICS: &'static str = "?[view, repository, code, severity, path, line, detail] := \
         *analysis_revision{view, revision}, *analysis_revision_diagnostic{\
             view, revision, repository, code, severity, path, line, detail\
         }, not *enrichment_diagnostic_contribution{\
             view, repository, code, severity, path, line\
         } \
     :put analysis_baseline_diagnostic {\
         view, repository, code, severity, path, line => detail\
     }";

/// Notes that the baseline was taken.
pub const BASELINE_MIGRATED: &'static str = "?[name, version] <- [['enrichment-baseline', 1]] \
     :put schema_migration {name => version}";

/// The first revision of the main view.
pub const FIRST_REVISION: &'static str = "?[view, revision] <- [['main', 0]] \
     :put analysis_revision {view => revision}";

/// The first fingerprint of the main view.
pub const FIRST_FINGERPRINT: &'static str = "?[view, fingerprint] <- [['main', '']] \
     :put analysis_fingerprint {view => fingerprint}";

/// Whether the data were brought to a version.
pub const MIGRATION_APPLIED: &'static str = "?[applied] := *schema_migration{name: $name, version: $version}, applied = true";

} // verus!
