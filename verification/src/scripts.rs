//! The scripts that the database runs.

use vstd::prelude::*;

verus! {

/// Dependencies that leave the frontier.
pub const OUTGOING_DEPENDENCIES: &'static str = "frontier[id] <- $frontier\n\
     ?[from, to, relation, evidence, confidence, provenance] := frontier[from], \
         *analysis_resolved_dependency{\
             view: $view, from, relation, to, evidence, confidence, provenance\
         }\n\
     :order from, to, relation, evidence, confidence, provenance\n\
     :limit $limit\n\
     :reorder written";

/// Dependencies that end in the frontier, and what implements a remote operation in it.
pub const INCOMING_DEPENDENCIES: &'static str = "frontier[id] <- $frontier\n\
     ?[from, to, relation, evidence, confidence, provenance] := frontier[to], \
         *analysis_resolved_dependency:by_to{\
             view: $view, to, from, relation, evidence, confidence, provenance\
         }\n\
     ?[from, to, relation, evidence, confidence, provenance] := frontier[from], \
         starts_with(from, 'grpc://'), \
         *analysis_resolved_dependency{\
             view: $view, from, relation: 'implemented_by', to, evidence, \
             confidence, provenance\
         }, relation = 'implemented_by'\n\
     :order from, to, relation, evidence, confidence, provenance\n\
     :limit $limit\n\
     :reorder written";

/// Dependencies by which a step forward enters a repository.
pub const OUTGOING_SEED: &'static str = "?[from, to, relation, evidence, confidence, provenance] := \
         *analysis_resolved_dependency:by_to{\
             view: $view, to, from, relation, evidence, confidence, provenance\
         }, starts_with(to, $prefix)\n\
     :order from, to, relation, evidence, confidence, provenance\n\
     :limit $limit\n\
     :reorder written";

/// Dependencies by which a step backward enters a repository.
pub const INCOMING_SEED: &'static str = "regular[from, to, relation, evidence, confidence, provenance] := \
         *analysis_resolved_dependency{\
             view: $view, from, relation, to, evidence, confidence, provenance\
         }, starts_with(from, $prefix), relation != 'implemented_by'\n\
     regular[from, to, relation, evidence, confidence, provenance] := \
         *analysis_resolved_dependency{\
             view: $view, from, relation: 'implemented_by', to, evidence, confidence, provenance\
         }, starts_with(from, $prefix), not starts_with(from, 'grpc://'), relation = 'implemented_by'\n\
     regular[from, to, relation, evidence, confidence, provenance] := \
         *analysis_resolved_dependency:by_to{\
             view: $view, to, from, relation: 'implemented_by', evidence, confidence, provenance\
         }, starts_with(to, $prefix), starts_with(from, 'grpc://'), relation = 'implemented_by'\n\
     ?[from, to, relation, evidence, confidence, provenance] := \
         regular[from, to, relation, evidence, confidence, provenance]\n\
     :order from, to, relation, evidence, confidence, provenance\n\
     :limit $limit\n\
     :reorder written";

/// Dependencies by which a step forward enters the frontier.
pub const OUTGOING_REVERSE: &'static str = "frontier[id] <- $frontier\n\
     ?[from, to, relation, evidence, confidence, provenance] := frontier[to], \
         *analysis_resolved_dependency:by_to{\
             view: $view, to, from, relation, evidence, confidence, provenance\
         }\n\
     :order from, to, relation, evidence, confidence, provenance\n\
     :limit $limit\n\
     :reorder written";

/// Dependencies by which a step backward enters the frontier.
pub const INCOMING_REVERSE: &'static str = "frontier[id] <- $frontier\n\
     regular[from, to, relation, evidence, confidence, provenance] := frontier[from], \
         *analysis_resolved_dependency{\
             view: $view, from, relation, to, evidence, confidence, provenance\
         }, relation != 'implemented_by'\n\
     regular[from, to, relation, evidence, confidence, provenance] := frontier[from], \
         *analysis_resolved_dependency{\
             view: $view, from, relation: 'implemented_by', to, evidence, confidence, provenance\
         }, not starts_with(from, 'grpc://'), relation = 'implemented_by'\n\
     regular[from, to, relation, evidence, confidence, provenance] := frontier[to], \
         *analysis_resolved_dependency:by_to{\
             view: $view, to, from, relation: 'implemented_by', evidence, confidence, provenance\
         }, starts_with(from, 'grpc://'), relation = 'implemented_by'\n\
     ?[from, to, relation, evidence, confidence, provenance] := \
         regular[from, to, relation, evidence, confidence, provenance]\n\
     :order from, to, relation, evidence, confidence, provenance\n\
     :limit $limit\n\
     :reorder written";

/// What the rows bound for a filtered step forward are called.
pub const FORWARD_INPUTS: &'static str = "active[state, current] <- $active\n\
     incomplete[state, current] <- $incomplete\n\
     missing[state, target] <- $missing\n\
     reachable[next, target] <- $reachable\n\
     completed[state, current, prefix] <- $completed\n";

/// The steps forward from the active states.
pub const OUTGOING_CANDIDATES: &'static str = "candidate[state, current, next, from, to, relation, evidence, confidence, provenance] := \
         active[state, from], current = from, next = to, \
         *analysis_resolved_dependency{\
             view: $view, from, relation, to, evidence, confidence, provenance\
         }";

/// The steps backward from the active states.
pub const INCOMING_CANDIDATES: &'static str = "candidate[state, current, next, from, to, relation, evidence, confidence, provenance] := \
         active[state, to], current = to, next = from, \
         *analysis_resolved_dependency:by_to{\
             view: $view, to, from, relation, evidence, confidence, provenance\
         }, relation != 'implemented_by'\n\
     candidate[state, current, next, from, to, relation, evidence, confidence, provenance] := \
         active[state, to], current = to, next = from, \
         *analysis_resolved_dependency:by_to{\
             view: $view, to, from, relation: 'implemented_by', evidence, confidence, provenance\
         }, not starts_with(from, 'grpc://'), relation = 'implemented_by'\n\
     candidate[state, current, next, from, to, relation, evidence, confidence, provenance] := \
         active[state, from], starts_with(from, 'grpc://'), current = from, next = to, \
         *analysis_resolved_dependency{\
             view: $view, from, relation: 'implemented_by', to, evidence, confidence, provenance\
         }, relation = 'implemented_by'";

/// Which of the steps are allowed, and which entities they would leave a repository from.
pub const FORWARD_RULES: &'static str = "\n\
     blocked[state, next] := \
         candidate[state, _, next, _, _, _, _, _, _], \
         missing[state, target], not reachable[next, target]\n\
     allowed[from, to, relation, evidence, confidence, provenance] := \
         candidate[state, _, next, from, to, relation, evidence, confidence, provenance], \
         incomplete[state, _], not blocked[state, next]\n\
     allowed[from, to, relation, evidence, confidence, provenance] := \
         candidate[state, _, next, from, to, relation, evidence, confidence, provenance], \
         completed[state, _, prefix], starts_with(next, prefix)\n\
     allowed[from, to, relation, evidence, confidence, provenance] := \
         candidate[state, _, next, from, to, relation, evidence, confidence, provenance], \
         completed[state, _, _], not starts_with(next, 'repo://')\n\
     boundary[current] := candidate[state, current, next, _, _, _, _, _, _], \
         completed[state, current, prefix], starts_with(next, 'repo://'), \
         not starts_with(next, prefix)\n\
     ?[row_kind, from, to, relation, evidence, confidence, provenance] := \
         allowed[from, to, relation, evidence, confidence, provenance], row_kind = 'edge'\n\
     ?[row_kind, from, to, relation, evidence, confidence, provenance] := \
         boundary[from], row_kind = 'boundary', to = '', relation = '', evidence = '', \
         confidence = 0.0, provenance = ''\n\
     :order row_kind, from, to, relation, evidence, confidence, provenance\n\
     :limit $limit\n\
     :reorder written";

/// Rules that scripts are put together with. They are kept apart from the library, as text.
#[derive(Debug)]
pub struct Rules {
    pub direct: String,
    pub context: String,
    pub analysis_metadata: String,
    pub context_structural_state: String,
    pub context_structural_fact_shard: String,
    pub context_structural_revision: String,
    pub context_structural_enrichment: String,
}

/// The relations of the database.
pub const RELATIONS: &'static str = "::relations";

/// The published revisions with the states and heads of their repositories.
pub const REVISIONS: &'static str = "revision_head[view, revision, repository, head] := \
         *analysis_revision_repository_head{view, revision, repository, head}\n\
     revision_head[view, revision, repository, head] := \
         *analysis_revision_state{view, revision, repository, state}, \
         *repository_state{fingerprint: state, repository, head}, \
         not *analysis_revision_repository_head{view, revision, repository}\n\
     ?[view, revision, fingerprint, repository, head, state] := \
         *analysis_revision{view, revision}, \
         *analysis_fingerprint{view, fingerprint}, \
         *analysis_revision_state{view, revision, repository, state}, \
         revision_head[view, revision, repository, head]\n\
     :order view, repository";

/// The revision of a view.
pub const ANALYSIS_REVISION: &'static str = "?[revision] := *analysis_revision{view: $view, revision}";

/// Whether the analysis of a revision is incomplete.
pub const COMPLETENESS: &'static str = "?[incomplete] := *analysis_revision_metadata{view: $view, revision: $revision, incomplete}";

/// The diagnostics of a revision, behind the rules on metadata.
pub const DIAGNOSTICS: &'static str = "
baseline_diagnostic[repository, code, severity, path, line, detail] :=
    *analysis_revision_diagnostic{view: $view, revision: $revision, repository, code, severity, path, line, detail},
    not selected_diagnostic_replacement[repository, code]
?[repository, code, severity, path, line, detail] := baseline_diagnostic[repository, code, severity, path, line, detail]
?[repository, code, severity, path, line, detail] := enrichment_diagnostic[repository, code, severity, path, line, detail],
    not baseline_diagnostic[repository, code, severity, path, line, _]
:order severity, repository, path, line, code";

/// The number of diagnostics of each severity, behind the rules on metadata.
pub const DIAGNOSTIC_COUNTS: &'static str = "
baseline_diagnostic[repository, code, severity, path, line, detail] :=
    *analysis_revision_diagnostic{view: $view, revision: $revision, repository, code, severity, path, line, detail},
    not selected_diagnostic_replacement[repository, code]
diagnostic[repository, code, severity, path, line, detail] := baseline_diagnostic[repository, code, severity, path, line, detail]
diagnostic[repository, code, severity, path, line, detail] := enrichment_diagnostic[repository, code, severity, path, line, detail],
    not baseline_diagnostic[repository, code, severity, path, line, _]
?[severity, count(code)] := diagnostic[repository, code, severity, path, line, detail]
:order severity";

/// The revision of a repository by itself.
pub const REPOSITORY_REVISION: &'static str =
    "?[source_state, analysis_identity, head, incomplete] := *repository_revision{repository: $repository, source_state, analysis_identity, head, incomplete}";

/// The diagnostics of a repository by itself.
pub const REPOSITORY_DIAGNOSTICS: &'static str =
    "?[code, severity, path, line, detail] := *repository_revision_diagnostic{repository: $repository, code, severity, path, line, detail}\n:order severity, path, line, code";

/// The head of a repository in the published revision of a view.
pub const PUBLISHED_HEAD: &'static str = "selected_head[head] :=
    *analysis_revision{view: $view, revision},
    *analysis_revision_repository_head{view: $view, revision, repository: $repository, head}
selected_head[head] :=
    *analysis_revision{view: $view, revision},
    *analysis_revision_state{view: $view, revision, repository: $repository, state},
    *repository_state{fingerprint: state, repository: $repository, head},
    not *analysis_revision_repository_head{view: $view, revision, repository: $repository}
?[head] := selected_head[head]";

/// The facts of some entities in the baseline.
pub const BASELINE_ENTITIES: &'static str = "requested[id] <- $entities\n\
     selected_state[state] := *analysis_revision{view: $view, revision}, *analysis_revision_state{view: $view, revision, state}\n\
     ?[id, kind, metadata] := requested[id], selected_state[state], *state_entity{state, id, kind, metadata}\n\
     ?[id, kind, metadata] := requested[id], *analysis_revision{view: $view, revision}, *analysis_revision_entity{view: $view, revision, id, kind, metadata}\n\
     :order id";

/// The facts of some entities in fact shards.
pub const SHARD_ENTITIES: &'static str = "requested[id] <- $entities\n\
     ?[id, kind, metadata] := requested[id], *analysis_fact_shard_entity:by_id{id, producer, owner, version, kind, metadata}, *analysis_fact_shard_selection:by_owner{view: $view, owner, producer, version}\n\
     :order id\n\
     :reorder written";

/// The facts of some entities in enrichments.
pub const ENRICHMENT_ENTITIES: &'static str = "requested[id] <- $entities\n\
     selected_enrichment[owner] := *analysis_revision{view: $view, revision}, *analysis_revision_repository_enrichment{view: $view, revision, owner}\n\
     ?[id, kind, metadata] := requested[id], *analysis_enrichment_entity_selection{view: $view, id, owner}, selected_enrichment[owner], *enrichment_entity_contribution{view: $view, owner, id, kind, metadata}\n\
     :order id";

/// The facts of all entities.
pub const ALL_ENTITIES: &'static str = "selected_state[state] := *analysis_revision{view: $view, revision}, \
         *analysis_revision_state{view: $view, revision, state}\n\
     selected_enrichment[owner] := *analysis_revision{view: $view, revision}, \
         *analysis_revision_repository_enrichment{view: $view, revision, owner}\n\
     baseline_id[id] := selected_state[state], *state_entity{state, id}\n\
     baseline_id[id] := *analysis_revision{view: $view, revision}, \
         *analysis_revision_entity{view: $view, revision, id}\n\
     baseline_id[id] := *analysis_fact_shard_selection{view: $view, producer, owner, version}, \
         *analysis_fact_shard_entity{producer, owner, version, id}\n\
     ?[id, kind, metadata] := selected_state[state], *state_entity{state, id, kind, metadata}\n\
     ?[id, kind, metadata] := *analysis_revision{view: $view, revision}, \
         *analysis_revision_entity{view: $view, revision, id, kind, metadata}\n\
     ?[id, kind, metadata] := \
         *analysis_fact_shard_selection{view: $view, producer, owner, version}, \
         *analysis_fact_shard_entity{producer, owner, version, id, kind, metadata}\n\
     ?[id, kind, metadata] := \
         *analysis_enrichment_entity_selection{view: $view, id, owner}, \
         selected_enrichment[owner], \
         *enrichment_entity_contribution{view: $view, owner, id, kind, metadata}, \
         not baseline_id[id]\n\
     :order id";

/// The part of a search that ranks its candidates.
pub const RANKED_SEARCH: &'static str = "\n\
     special[id] := candidate[id, _, _], starts_with(id, 'elixir-module://')\n\
     special[id] := candidate[id, _, _], regex_matches(id, '^elixir-call://(.+)/([^/]+)/([0-9]+)$')\n\
     special[id] := candidate[id, _, _], regex_matches(id, '^elixir-call://([^/]+)/([0-9]+)$')\n\
     special[id] := candidate[id, _, _], regex_matches(id, '^(proto-method|grpc)://([^/]+)/([^/]+)$')\n\
     special[id] := candidate[id, _, _], regex_matches(id, '^.*/elixir/(.*/)?([^/]+)/([0-9]+)$')\n\
     display[id, name] := candidate[id, _, _], starts_with(id, 'elixir-module://'), name = regex_replace(id, '^elixir-module://', '')\n\
     display[id, name] := candidate[id, _, _], regex_matches(id, '^elixir-call://(.+)/([^/]+)/([0-9]+)$'), name = regex_replace(id, '^elixir-call://(.+)/([^/]+)/([0-9]+)$', '$1.$2/$3')\n\
     display[id, name] := candidate[id, _, _], regex_matches(id, '^elixir-call://([^/]+)/([0-9]+)$'), name = regex_replace(id, '^elixir-call://([^/]+)/([0-9]+)$', '$1/$2')\n\
     display[id, name] := candidate[id, _, _], regex_matches(id, '^(proto-method|grpc)://([^/]+)/([^/]+)$'), name = regex_replace(id, '^(proto-method|grpc)://([^/]*[.])?([^./]+)/([^/]+)$', '$3.$4')\n\
     display[id, name] := candidate[id, _, _], regex_matches(id, '^.*/elixir/(.*/)?([^/]+)/([0-9]+)$'), name = regex_replace(id, '^.*/elixir/(.*/)?([^/]+)/([0-9]+)$', '$2/$3')\n\
     display[id, name] := candidate[id, _, _], not special[id], regex_matches(id, '^.*[/:]([^/:]+)$'), name = regex_replace(id, '^.*[/:]([^/:]+)$', '$1')\n\
     display[id, id] := candidate[id, _, _], not special[id], not regex_matches(id, '^.*[/:]([^/:]+)$')\n\
     matched[id, kind, metadata, name] := candidate[id, kind, metadata], display[id, name], starts_with(id, $query)\n\
     matched[id, kind, metadata, name] := candidate[id, kind, metadata], display[id, name], starts_with(name, $query)\n\
     ranked[id, kind, metadata, min(rank)] := matched[id, kind, metadata, _], id = $query, rank = 0\n\
     ranked[id, kind, metadata, min(rank)] := matched[id, kind, metadata, name], name = $query, rank = 1\n\
     ranked[id, kind, metadata, min(rank)] := matched[id, kind, metadata, name], starts_with(id, $query), rank = 2\n\
     ranked[id, kind, metadata, min(rank)] := matched[id, kind, metadata, name], starts_with(name, $query), rank = 2\n\
     ?[id, kind, metadata, rank] := ranked[id, kind, metadata, rank]\n\
     :order rank, id\n\
     :limit $limit";

/// Candidates of a search in repository states.
pub const SEARCH_STATE: &'static str = "selected_state[state] := *analysis_revision{view: $view, revision}, *analysis_revision_state{view: $view, revision, state}\n\
     candidate[id, kind, metadata] := selected_state[state], *state_entity{state, id, kind, metadata}, str_includes(id, $candidate)";

/// Candidates of a search in the revision.
pub const SEARCH_REVISION: &'static str = "candidate[id, kind, metadata] := *analysis_revision{view: $view, revision}, *analysis_revision_entity{view: $view, revision, id, kind, metadata}, str_includes(id, $candidate)";

/// Candidates of a search in fact shards.
pub const SEARCH_SHARD: &'static str = "candidate[id, kind, metadata] := *analysis_fact_shard_entity:by_id{id, producer, owner, version, kind, metadata}, starts_with(id, $query), *analysis_fact_shard_selection:by_owner{view: $view, owner, producer, version}\n\
     candidate[id, kind, metadata] := *analysis_fact_shard_entity_name:by_name{name, producer, owner, version, id}, starts_with(name, $query), *analysis_fact_shard_selection:by_owner{view: $view, owner, producer, version}, *analysis_fact_shard_entity:by_id{id, producer, owner, version, kind, metadata}";

/// Candidates of a search in enrichments.
pub const SEARCH_ENRICHMENT: &'static str = "selected_enrichment[owner] := *analysis_revision{view: $view, revision}, *analysis_revision_repository_enrichment{view: $view, revision, owner}\n\
     candidate[id, kind, metadata] := *analysis_enrichment_entity_selection{view: $view, id, owner}, selected_enrichment[owner], *enrichment_entity_contribution{view: $view, owner, id, kind, metadata}, str_includes(id, $candidate)";

/// All relations in a workspace, behind the rules on direct relations.
pub const TOPOLOGY: &'static str = "\n?[from, to, relation, evidence, confidence, provenance] := \
         effective_observation[from, to, relation, evidence, confidence, provenance]\n\
     :order from, to, relation, evidence";

/// The stored observations, up to the filter on their relation.
pub const OBSERVATIONS: &'static str = "observation[state, from, relation, to, evidence, confidence, provenance] := \
         *state_observation{state, from, relation, to, evidence}, \
         *state_observation_metadata{state, from, relation, to, confidence, provenance}\n\
     observation[state, from, relation, to, evidence, confidence, provenance] := \
         *analysis_fact_shard_observation{version: state, from, relation, to, evidence, confidence, provenance}\n\
     ?[state, from, relation, to, evidence, confidence, provenance] := \
         observation[state, from, relation, to, evidence, confidence, provenance]";

/// The filter of observations on their relation.
pub const RELATION_FILTER: &'static str = ", relation == $relation";

/// The order of observations.
pub const OBSERVATION_ORDER: &'static str = "\n:order relation, from, to";

/// The candidates for bindings of remote calls, with what became of them.
pub const GRPC_BINDINGS: &'static str =
    "selected[view, revision, state, local_symbol, role, service, method, cardinality, evidence, confidence, provenance] := \
         *analysis_revision{view, revision}, \
         *analysis_revision_state{view, revision, state}, \
         *state_grpc_binding_candidate{\
             state, local_symbol, role, service, method, evidence, cardinality, confidence, provenance\
         }\n\
     diagnostic[view, revision, local_symbol, role, service, method, evidence, code, detail] := \
         *analysis_revision_grpc_diagnostic{\
             view, revision, local_symbol, role, service, method, evidence, code, detail\
         }\n\
     ?[view, local_symbol, role, service, method, cardinality, evidence, confidence, provenance, status, code, detail] := \
         selected[view, revision, _, local_symbol, role, service, method, cardinality, evidence, confidence, provenance], \
         diagnostic[view, revision, local_symbol, role, service, method, evidence, code, detail], \
         status = 'unmatched'\n\
     ?[view, local_symbol, role, service, method, cardinality, evidence, confidence, provenance, status, code, detail] := \
         selected[view, revision, _, local_symbol, role, service, method, cardinality, evidence, confidence, provenance], \
         not diagnostic[view, revision, local_symbol, role, service, method, evidence, _, _], \
         status = 'resolved', code = '', detail = ''\n\
     :order view, service, method, role, local_symbol";

} // verus!
