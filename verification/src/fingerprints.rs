//! What the fingerprints of analysed states and of baselines tell apart.

use crate::baseline::{
    baseline_bytes, diagnostic_bytes, diagnostic_key, diagnostic_models, entity_texts, facts_bytes, normal_diagnostics, normal_overrides,
    observation_bytes, override_bytes, override_key, padded,
    padded_in_order,
};
use crate::digest::{framed, framing_is_prefix_free, little_endian, little_endian_injective, little_endian_width};
use crate::domain::{
    confidence_score, entity_kind_names_distinct, entity_kind_text, entity_metadata_names_distinct, entity_metadata_text,
    grpc_role_name_text, provenance_name_text, provenance_names_distinct, relation_name_text, relation_names_distinct,
    rpc_cardinality_names_distinct, severity_text,
    AnalysisDiagnosticSeverity, Confidence, DiagnosticModel, EntityKind, EntityModel, GrpcBindingRole, ObservationModel,
    SemanticRelation,
};
use crate::framing::{
    compatible, compatible_are_told, framed_push, item_bytes, items_are_told_apart, items_behind, items_bytes, last_was_given, last_wins_is_finite, lengths_are_told,
    listed_keys, listed_maps, pieces_are_items, sorts_are_told_apart, told, told_with_fewer, Item,
};
use crate::grpc::{grpc_diagnostic_texts, operation_entities, GrpcDiagnosticModel, ResolutionModel};
use crate::normal::{
    analyzed_bytes, candidate_entry, candidate_models, entity_bytes, entity_entry, framed_texts, normal_bytes, normal_candidates,
    normal_entities, normal_observations, observation_entry, value_bytes, ValueModel,
};
use crate::records::{entity_models, observation_models, stored_line, stored_text, CandidateModel, OverrideModel, RepositoryFacts};
use crate::seqs::{concat_map, last_wins};
use crate::sorted::listed;
use crate::text::chars_lt_irreflexive;
use vstd::prelude::*;

verus! {

/// A name that says what a piece is about.
spec fn names_kind(name: Seq<char>) -> bool {
    exists|kind: EntityKind| #[trigger] entity_kind_text(kind) == name
}

spec fn names_relation(name: Seq<char>) -> bool {
    exists|relation: SemanticRelation| #[trigger] relation_name_text(relation) == name
}

spec fn names_severity(name: Seq<char>) -> bool {
    exists|severity: AnalysisDiagnosticSeverity| #[trigger] severity_text(severity) == name
}

spec fn names_role(name: Seq<char>) -> bool {
    exists|role: GrpcBindingRole| #[trigger] grpc_role_name_text(role) == name
}

proof fn kinds_are_no_relations(kind: EntityKind, relation: SemanticRelation)
    ensures
        entity_kind_text(kind) != relation_name_text(relation),
{
    let a = entity_kind_text(kind);
    let b = relation_name_text(relation);
    if a == b {
        reveal_strlit("callable");
        reveal_strlit("graphql_argument");
        reveal_strlit("graphql_enum_value");
        reveal_strlit("graphql_field");
        reveal_strlit("graphql_operation");
        reveal_strlit("graphql_type");
        reveal_strlit("grpc_operation");
        reveal_strlit("kafka_topic");
        reveal_strlit("namespace");
        reveal_strlit("proto_field");
        reveal_strlit("proto_method");
        reveal_strlit("proto_service");
        reveal_strlit("proto_type");
        reveal_strlit("service");
        reveal_strlit("unity_prefab");
        reveal_strlit("defines");
        reveal_strlit("field_of");
        reveal_strlit("request_type");
        reveal_strlit("response_type");
        reveal_strlit("binds_contract");
        reveal_strlit("calls");
        reveal_strlit("calls_graphql");
        reveal_strlit("calls_rpc");
        reveal_strlit("consumed_by");
        reveal_strlit("implements");
        reveal_strlit("implemented_by");
        reveal_strlit("imports");
        reveal_strlit("publishes");
        reveal_strlit("requires");
        reveal_strlit("resolved_by");
        reveal_strlit("selects");
        reveal_strlit("uses");
        assert(a.len() == b.len() && a[0] == b[0] && a[2] == b[2]);
    }
}

proof fn kinds_are_no_severities_or_roles(kind: EntityKind, severity: AnalysisDiagnosticSeverity, role: GrpcBindingRole)
    ensures
        entity_kind_text(kind) != severity_text(severity),
        entity_kind_text(kind) != grpc_role_name_text(role),
{
    let a = entity_kind_text(kind);
    reveal_strlit("callable");
    reveal_strlit("graphql_argument");
    reveal_strlit("graphql_enum_value");
    reveal_strlit("graphql_field");
    reveal_strlit("graphql_operation");
    reveal_strlit("graphql_type");
    reveal_strlit("grpc_operation");
    reveal_strlit("kafka_topic");
    reveal_strlit("namespace");
    reveal_strlit("proto_field");
    reveal_strlit("proto_method");
    reveal_strlit("proto_service");
    reveal_strlit("proto_type");
    reveal_strlit("service");
    reveal_strlit("unity_prefab");
    reveal_strlit("known_limitation");
    reveal_strlit("warning");
    reveal_strlit("client");
    reveal_strlit("server");
    if a == severity_text(severity) {
        assert(a.len() == severity_text(severity).len() && a[0] == severity_text(severity)[0]);
    }
    if a == grpc_role_name_text(role) {
        assert(a.len() == grpc_role_name_text(role).len());
    }
}

proof fn relations_are_no_severities_or_roles(relation: SemanticRelation, severity: AnalysisDiagnosticSeverity, role: GrpcBindingRole)
    ensures
        relation_name_text(relation) != severity_text(severity),
        relation_name_text(relation) != grpc_role_name_text(role),
{
    let a = relation_name_text(relation);
    reveal_strlit("defines");
    reveal_strlit("field_of");
    reveal_strlit("request_type");
    reveal_strlit("response_type");
    reveal_strlit("binds_contract");
    reveal_strlit("calls");
    reveal_strlit("calls_graphql");
    reveal_strlit("calls_rpc");
    reveal_strlit("consumed_by");
    reveal_strlit("implements");
    reveal_strlit("implemented_by");
    reveal_strlit("imports");
    reveal_strlit("publishes");
    reveal_strlit("requires");
    reveal_strlit("resolved_by");
    reveal_strlit("selects");
    reveal_strlit("uses");
    reveal_strlit("known_limitation");
    reveal_strlit("warning");
    reveal_strlit("client");
    reveal_strlit("server");
    if a == severity_text(severity) {
        assert(a.len() == severity_text(severity).len() && a[0] == severity_text(severity)[0]);
    }
    if a == grpc_role_name_text(role) {
        assert(a.len() == grpc_role_name_text(role).len());
    }
}

proof fn names_are_told_apart(name: Seq<char>)
    ensures
        names_kind(name) ==> !names_relation(name) && !names_severity(name) && !names_role(name),
        names_relation(name) ==> !names_severity(name) && !names_role(name),
        names_severity(name) ==> !names_role(name),
{
    reveal_strlit("known_limitation");
    reveal_strlit("warning");
    reveal_strlit("client");
    reveal_strlit("server");
    assert("known_limitation"@.len() == 16);
    assert("warning"@.len() == 7);
    assert("client"@.len() == 6);
    assert("server"@.len() == 6);
    if names_severity(name) && names_role(name) {
        let severity = choose|severity: AnalysisDiagnosticSeverity| #[trigger] severity_text(severity) == name;
        let role = choose|role: GrpcBindingRole| #[trigger] grpc_role_name_text(role) == name;
        assert(severity_text(severity).len() != grpc_role_name_text(role).len());
    }
    if names_kind(name) {
        let kind = choose|kind: EntityKind| #[trigger] entity_kind_text(kind) == name;
        if names_relation(name) {
            let relation = choose|relation: SemanticRelation| #[trigger] relation_name_text(relation) == name;
            kinds_are_no_relations(kind, relation);
        }
        if names_severity(name) {
            let severity = choose|severity: AnalysisDiagnosticSeverity| #[trigger] severity_text(severity) == name;
            kinds_are_no_severities_or_roles(kind, severity, GrpcBindingRole::Client);
        }
        if names_role(name) {
            let role = choose|role: GrpcBindingRole| #[trigger] grpc_role_name_text(role) == name;
            kinds_are_no_severities_or_roles(kind, AnalysisDiagnosticSeverity::Warning, role);
        }
    }
    if names_relation(name) {
        let relation = choose|relation: SemanticRelation| #[trigger] relation_name_text(relation) == name;
        if names_severity(name) {
            let severity = choose|severity: AnalysisDiagnosticSeverity| #[trigger] severity_text(severity) == name;
            relations_are_no_severities_or_roles(relation, severity, GrpcBindingRole::Client);
        }
        if names_role(name) {
            let role = choose|role: GrpcBindingRole| #[trigger] grpc_role_name_text(role) == name;
            relations_are_no_severities_or_roles(relation, AnalysisDiagnosticSeverity::Warning, role);
        }
    }
}

/// A piece that is an entity.
#[verifier::opaque]
spec fn is_entity(item: Item) -> bool {
    item.texts.len() == 3 && item.raw.len() == 0 && names_kind(item.texts[1])
}

/// A piece that is an observation.
#[verifier::opaque]
spec fn is_observation(item: Item) -> bool {
    item.texts.len() == 5 && item.raw.len() == 8 && names_relation(item.texts[1])
}

/// A piece that is a diagnostic.
#[verifier::opaque]
spec fn is_diagnostic(item: Item) -> bool {
    item.texts.len() == 4 && item.raw.len() == 4 && names_severity(item.texts[1])
}

/// A piece that is a candidate for a binding.
#[verifier::opaque]
spec fn is_candidate(item: Item) -> bool {
    item.texts.len() == 7 && item.raw.len() == 8 && names_role(item.texts[1])
}

/// A piece that is a repository.
spec fn is_repository(item: Item) -> bool {
    item.texts.len() == 1 && item.raw.len() == 0
}

proof fn facts_are_compatible(x: Item, y: Item)
    requires
        is_entity(x) || is_observation(x) || is_diagnostic(x) || is_candidate(x),
        is_entity(y) || is_observation(y) || is_diagnostic(y) || is_candidate(y),
    ensures
        compatible(x, y),
        x.texts.len() > 1,
        y.texts.len() > 1,
        is_entity(x) ==> !is_observation(x) && !is_diagnostic(x) && !is_candidate(x),
        is_observation(x) ==> !is_diagnostic(x) && !is_candidate(x),
{
    reveal(is_entity);
    reveal(is_observation);
    reveal(is_diagnostic);
    reveal(is_candidate);
    names_are_told_apart(x.texts[1]);
    names_are_told_apart(y.texts[1]);
}

/// The pieces of entities.
spec fn entity_items(map: Map<Seq<Seq<char>>, (Seq<char>, Seq<char>)>) -> Seq<Item> {
    listed(map.dom()).map_values(
        |key: Seq<Seq<char>>| Item { texts: seq![key[0], map[key].0, map[key].1], raw: Seq::empty() },
    )
}

proof fn framed_none()
    ensures
        framed_texts(Seq::empty()) == Seq::<u8>::empty(),
{
}

proof fn framed_three(a: Seq<char>, b: Seq<char>, c: Seq<char>)
    ensures
        framed_texts(seq![a, b, c]) == framed(a) + framed(b) + framed(c),
{
    let none = Seq::<Seq<char>>::empty();
    framed_none();
    framed_push(none, a);
    framed_push(none.push(a), b);
    framed_push(none.push(a).push(b), c);
    assert(seq![a, b, c] =~= none.push(a).push(b).push(c));
    assert(framed_texts(seq![a, b, c]) =~= framed(a) + framed(b) + framed(c));
}

proof fn entities_are_items(list: Seq<EntityModel>)
    ensures
        ({
            let map = normal_entities(list);
            &&& map.dom().finite()
            &&& entity_bytes(map) == items_bytes(entity_items(map))
            &&& forall|i: int| 0 <= i < entity_items(map).len() ==> is_entity(#[trigger] entity_items(map)[i])
            &&& forall|key: Seq<Seq<char>>| #[trigger] map.contains_key(key) ==> key == seq![key[0]]
        }),
{
    reveal(is_entity);
    let entries = list.map_values(|entity: EntityModel| entity_entry(entity));
    let map = normal_entities(list);
    last_wins_is_finite(entries);
    listed_keys(map);
    let keys = listed(map.dom());
    let items = entity_items(map);
    assert forall|key: Seq<Seq<char>>| #[trigger] map.contains_key(key) implies key == seq![key[0]] && names_kind(map[key].0) by {
        last_was_given(entries, key);
        let i = choose|i: int| 0 <= i < entries.len() && (#[trigger] entries[i]).0 == key && entries[i].1 == map[key];
        assert(entries[i] == entity_entry(list[i]));
        assert(key =~= seq![key[0]]);
        assert(entity_kind_text(list[i].kind) == map[key].0);
    }
    let piece = |k: Seq<Seq<char>>| framed(k[0]) + framed(map[k].0) + framed(map[k].1);
    assert forall|i: int| 0 <= i < keys.len() implies piece(#[trigger] keys[i]) == item_bytes(items[i]) by {
        let key = keys[i];
        framed_three(key[0], map[key].0, map[key].1);
        assert(item_bytes(items[i]) =~= piece(key));
    }
    pieces_are_items(keys, piece, items);
    assert forall|i: int| 0 <= i < items.len() implies is_entity(#[trigger] items[i]) by {
        assert(map.contains_key(keys[i]));
    }
}

proof fn same_entity_items(a: Seq<EntityModel>, b: Seq<EntityModel>)
    requires
        entity_items(normal_entities(a)) == entity_items(normal_entities(b)),
    ensures
        normal_entities(a) == normal_entities(b),
{
    let x = normal_entities(a);
    let y = normal_entities(b);
    entities_are_items(a);
    entities_are_items(b);
    listed_keys(x);
    listed_keys(y);
    let p = listed(x.dom());
    let q = listed(y.dom());
    assert(entity_items(x).len() == p.len() && entity_items(y).len() == q.len());
    assert forall|i: int| 0 <= i < p.len() implies #[trigger] p[i] == q[i] && x[p[i]] == y[q[i]] by {
        assert(entity_items(x)[i].texts == entity_items(y)[i].texts);
        let u = entity_items(x)[i].texts;
        let v = entity_items(y)[i].texts;
        assert(u[0] == p[i][0] && v[0] == q[i][0]);
        assert(u[1] == x[p[i]].0 && v[1] == y[q[i]].0);
        assert(u[2] == x[p[i]].1 && v[2] == y[q[i]].1);
        assert(x.contains_key(p[i]) && y.contains_key(q[i]));
        assert(p[i] == seq![p[i][0]] && q[i] == seq![q[i][0]]);
    }
    listed_maps(x, y);
}

/// The pieces of values by their keys.
spec fn value_items(map: Map<Seq<Seq<char>>, ValueModel>) -> Seq<Item> {
    listed(map.dom()).map_values(
        |key: Seq<Seq<char>>|
            Item { texts: key.push(map[key].first).push(map[key].last), raw: little_endian(map[key].confidence as nat, 8) },
    )
}

proof fn values_are_items(map: Map<Seq<Seq<char>>, ValueModel>)
    ensures
        normal_bytes(map) == items_bytes(value_items(map)),
{
    let keys = listed(map.dom());
    let items = value_items(map);
    let piece = |k: Seq<Seq<char>>| value_bytes(k, map[k]);
    assert forall|i: int| 0 <= i < keys.len() implies piece(#[trigger] keys[i]) == item_bytes(items[i]) by {
        let key = keys[i];
        framed_push(key, map[key].first);
        framed_push(key.push(map[key].first), map[key].last);
        assert(item_bytes(items[i]) =~= piece(key));
    }
    pieces_are_items(keys, piece, items);
}

proof fn full_width()
    ensures
        vstd::arithmetic::power::pow(256, 8) == u64::MAX + 1,
        vstd::arithmetic::power::pow(256, 4) == u32::MAX + 1,
{
    reveal(vstd::arithmetic::power::pow);
    reveal_with_fuel(vstd::arithmetic::power::pow, 9);
}

proof fn same_value_items(x: Map<Seq<Seq<char>>, ValueModel>, y: Map<Seq<Seq<char>>, ValueModel>, n: int)
    requires
        value_items(x) == value_items(y),
        x.dom().finite(),
        y.dom().finite(),
        forall|key: Seq<Seq<char>>| #[trigger] x.contains_key(key) ==> key.len() == n,
        forall|key: Seq<Seq<char>>| #[trigger] y.contains_key(key) ==> key.len() == n,
    ensures
        x == y,
{
    listed_keys(x);
    listed_keys(y);
    let p = listed(x.dom());
    let q = listed(y.dom());
    full_width();
    assert(value_items(x).len() == p.len() && value_items(y).len() == q.len());
    assert forall|i: int| 0 <= i < p.len() implies #[trigger] p[i] == q[i] && x[p[i]] == y[q[i]] by {
        let u = value_items(x)[i];
        let v = value_items(y)[i];
        assert(u == v);
        assert(x.contains_key(p[i]) && y.contains_key(q[i]));
        assert(u.texts == p[i].push(x[p[i]].first).push(x[p[i]].last));
        assert(v.texts == q[i].push(y[q[i]].first).push(y[q[i]].last));
        assert(u.texts.take(n) =~= p[i]);
        assert(v.texts.take(n) =~= q[i]);
        assert(u.texts[n] == x[p[i]].first && v.texts[n] == y[q[i]].first);
        assert(u.texts[n + 1] == x[p[i]].last && v.texts[n + 1] == y[q[i]].last);
        little_endian_injective(x[p[i]].confidence as nat, y[q[i]].confidence as nat, 8);
    }
    listed_maps(x, y);
}

proof fn observations_are_items(list: Seq<ObservationModel>)
    ensures
        ({
            let map = normal_observations(list);
            &&& map.dom().finite()
            &&& normal_bytes(map) == items_bytes(value_items(map))
            &&& forall|i: int| 0 <= i < value_items(map).len() ==> is_observation(#[trigger] value_items(map)[i])
            &&& forall|key: Seq<Seq<char>>| #[trigger] map.contains_key(key) ==> key.len() == 3
        }),
{
    reveal(is_observation);
    let entries = list.map_values(|observation: ObservationModel| observation_entry(observation));
    let map = normal_observations(list);
    last_wins_is_finite(entries);
    listed_keys(map);
    values_are_items(map);
    let keys = listed(map.dom());
    let items = value_items(map);
    assert forall|key: Seq<Seq<char>>| #[trigger] map.contains_key(key) implies key.len() == 3 && names_relation(key[1]) by {
        last_was_given(entries, key);
        let i = choose|i: int| 0 <= i < entries.len() && (#[trigger] entries[i]).0 == key && entries[i].1 == map[key];
        assert(entries[i] == observation_entry(list[i]));
        assert(relation_name_text(list[i].relation) == key[1]);
    }
    assert forall|i: int| 0 <= i < items.len() implies is_observation(#[trigger] items[i]) by {
        let key = keys[i];
        assert(map.contains_key(key));
        assert(items[i].texts[1] == key[1]);
        little_endian_width(map[key].confidence as nat, 8);
    }
}

proof fn candidates_are_items(list: Seq<CandidateModel>)
    ensures
        ({
            let map = normal_candidates(list);
            &&& map.dom().finite()
            &&& normal_bytes(map) == items_bytes(value_items(map))
            &&& forall|i: int| 0 <= i < value_items(map).len() ==> is_candidate(#[trigger] value_items(map)[i])
            &&& forall|key: Seq<Seq<char>>| #[trigger] map.contains_key(key) ==> key.len() == 5
        }),
{
    reveal(is_candidate);
    let entries = list.map_values(|candidate: CandidateModel| candidate_entry(candidate));
    let map = normal_candidates(list);
    last_wins_is_finite(entries);
    listed_keys(map);
    values_are_items(map);
    let keys = listed(map.dom());
    let items = value_items(map);
    assert forall|key: Seq<Seq<char>>| #[trigger] map.contains_key(key) implies key.len() == 5 && names_role(key[1]) by {
        last_was_given(entries, key);
        let i = choose|i: int| 0 <= i < entries.len() && (#[trigger] entries[i]).0 == key && entries[i].1 == map[key];
        assert(entries[i] == candidate_entry(list[i]));
        assert(grpc_role_name_text(list[i].role) == key[1]);
    }
    assert forall|i: int| 0 <= i < items.len() implies is_candidate(#[trigger] items[i]) by {
        let key = keys[i];
        assert(map.contains_key(key));
        assert(items[i].texts[1] == key[1]);
        little_endian_width(map[key].confidence as nat, 8);
    }
}

/// The pieces of diagnostics.
spec fn diagnostic_items(map: Map<Seq<Seq<char>>, (u32, Seq<char>)>) -> Seq<Item> {
    listed(map.dom()).map_values(
        |key: Seq<Seq<char>>| Item { texts: seq![key[0], key[1], key[2], map[key].1], raw: little_endian(map[key].0 as nat, 4) },
    )
}

proof fn diagnostics_are_items(list: Seq<DiagnosticModel>)
    ensures
        ({
            let map = normal_diagnostics(list);
            &&& map.dom().finite()
            &&& diagnostic_bytes(map) == items_bytes(diagnostic_items(map))
            &&& forall|i: int| 0 <= i < diagnostic_items(map).len() ==> is_diagnostic(#[trigger] diagnostic_items(map)[i])
            &&& forall|key: Seq<Seq<char>>| #[trigger] map.contains_key(key) ==> key == seq![
                key[0],
                key[1],
                key[2],
                padded(map[key].0 as nat, 10),
            ]
        }),
{
    reveal(is_diagnostic);
    let entry = |diagnostic: DiagnosticModel|
        (diagnostic_key(diagnostic), (stored_line(diagnostic.line), stored_text(diagnostic.detail)));
    let entries = list.map_values(entry);
    let map = normal_diagnostics(list);
    last_wins_is_finite(entries);
    listed_keys(map);
    let keys = listed(map.dom());
    let items = diagnostic_items(map);
    assert forall|key: Seq<Seq<char>>| #[trigger] map.contains_key(key) implies key == seq![
        key[0],
        key[1],
        key[2],
        padded(map[key].0 as nat, 10),
    ] && names_severity(key[1]) by {
        last_was_given(entries, key);
        let i = choose|i: int| 0 <= i < entries.len() && (#[trigger] entries[i]).0 == key && entries[i].1 == map[key];
        assert(entries[i] == entry(list[i]));
        assert(key =~= seq![key[0], key[1], key[2], padded(map[key].0 as nat, 10)]);
        assert(severity_text(list[i].severity) == key[1]);
    }
    let piece = |key: Seq<Seq<char>>| framed_texts(seq![key[0], key[1], key[2], map[key].1]) + little_endian(map[key].0 as nat, 4);
    pieces_are_items(keys, piece, items);
    assert forall|i: int| 0 <= i < items.len() implies is_diagnostic(#[trigger] items[i]) by {
        assert(map.contains_key(keys[i]));
        little_endian_width(map[keys[i]].0 as nat, 4);
    }
}

proof fn same_diagnostic_items(a: Seq<DiagnosticModel>, b: Seq<DiagnosticModel>)
    requires
        diagnostic_items(normal_diagnostics(a)) == diagnostic_items(normal_diagnostics(b)),
    ensures
        normal_diagnostics(a) == normal_diagnostics(b),
{
    let x = normal_diagnostics(a);
    let y = normal_diagnostics(b);
    diagnostics_are_items(a);
    diagnostics_are_items(b);
    listed_keys(x);
    listed_keys(y);
    full_width();
    let p = listed(x.dom());
    let q = listed(y.dom());
    assert(diagnostic_items(x).len() == p.len() && diagnostic_items(y).len() == q.len());
    assert forall|i: int| 0 <= i < p.len() implies #[trigger] p[i] == q[i] && x[p[i]] == y[q[i]] by {
        let u = diagnostic_items(x)[i];
        let v = diagnostic_items(y)[i];
        assert(u == v);
        assert(x.contains_key(p[i]) && y.contains_key(q[i]));
        assert(u.texts[0] == p[i][0] && v.texts[0] == q[i][0]);
        assert(u.texts[1] == p[i][1] && v.texts[1] == q[i][1]);
        assert(u.texts[2] == p[i][2] && v.texts[2] == q[i][2]);
        assert(u.texts[3] == x[p[i]].1 && v.texts[3] == y[q[i]].1);
        little_endian_injective(x[p[i]].0 as nat, y[q[i]].0 as nat, 4);
    }
    listed_maps(x, y);
}

/// The pieces of what a repository holds.
spec fn held_items(facts: RepositoryFacts) -> Seq<Item> {
    entity_items(normal_entities(entity_models(facts.entities@))) + value_items(
        normal_observations(observation_models(facts.observations@)),
    ) + diagnostic_items(normal_diagnostics(diagnostic_models(facts.diagnostics@)))
}

/// A repository as a piece.
spec fn repository_item(facts: RepositoryFacts) -> Item {
    Item { texts: seq![facts.state@.repository], raw: Seq::empty() }
}

/// The pieces of a repository.
spec fn facts_items(facts: RepositoryFacts) -> Seq<Item> {
    seq![repository_item(facts)] + held_items(facts)
}

spec fn is_held(item: Item) -> bool {
    is_entity(item) || is_observation(item) || is_diagnostic(item)
}

proof fn held_are_held(facts: RepositoryFacts)
    ensures
        forall|i: int| 0 <= i < held_items(facts).len() ==> is_held(#[trigger] held_items(facts)[i]),
        items_bytes(facts_items(facts)) == facts_bytes(facts),
{
    let entities = entity_models(facts.entities@);
    let observations = observation_models(facts.observations@);
    let diagnostics = diagnostic_models(facts.diagnostics@);
    entities_are_items(entities);
    observations_are_items(observations);
    diagnostics_are_items(diagnostics);
    let a = entity_items(normal_entities(entities));
    let b = value_items(normal_observations(observations));
    let c = diagnostic_items(normal_diagnostics(diagnostics));
    let held = held_items(facts);
    assert forall|i: int| 0 <= i < held.len() implies is_held(#[trigger] held[i]) by {
        if i < a.len() {
            assert(held[i] == a[i]);
        } else if i < a.len() + b.len() {
            assert(held[i] == b[i - a.len()]);
        } else {
            assert(held[i] == c[i - a.len() - b.len()]);
        }
    }
    items_behind(a, b);
    items_behind(a + b, c);
    let front = seq![repository_item(facts)];
    items_behind(front, held);
    one_item(repository_item(facts));
    framed_none();
    framed_push(Seq::empty(), facts.state@.repository);
    assert(Seq::<Seq<char>>::empty().push(facts.state@.repository) =~= seq![facts.state@.repository]);
    assert(item_bytes(repository_item(facts)) =~= framed(facts.state@.repository));
    assert(items_bytes(facts_items(facts)) =~= facts_bytes(facts));
}

proof fn one_item(item: Item)
    ensures
        items_bytes(seq![item]) == item_bytes(item),
{
    assert(seq![item].drop_last() =~= Seq::empty());
    assert(items_bytes(Seq::<Item>::empty()) =~= Seq::<u8>::empty());
    assert(items_bytes(seq![item]) =~= item_bytes(item));
}

/// Whether an entity counts in a list: of several with one identifier the last does.
pub open spec fn entity_counts(list: Seq<EntityModel>, entity: EntityModel) -> bool {
    exists|i: int|
        0 <= i < list.len() && #[trigger] list[i] == entity && forall|j: int| i < j < list.len() ==> (#[trigger] list[j]).id != entity.id
}

/// Whether an observation counts in a list: of several with the same ends and relation the last
/// does.
pub open spec fn observation_counts(list: Seq<ObservationModel>, observation: ObservationModel) -> bool {
    exists|i: int|
        0 <= i < list.len() && #[trigger] list[i] == observation && forall|j: int|
            i < j < list.len() ==> (#[trigger] list[j]).from != observation.from || list[j].relation != observation.relation
                || list[j].to != observation.to
}

/// Whether a candidate for a binding counts in a list: of several of a symbol in one role, for the
/// same method with the same evidence, the last does.
pub open spec fn candidate_counts(list: Seq<CandidateModel>, candidate: CandidateModel) -> bool {
    exists|i: int|
        0 <= i < list.len() && #[trigger] list[i] == candidate && forall|j: int|
            i < j < list.len() ==> (#[trigger] list[j]).local_symbol != candidate.local_symbol || list[j].role != candidate.role
                || list[j].service != candidate.service || list[j].method != candidate.method || list[j].evidence
                != candidate.evidence
}

/// Whether an override counts in a list: of several for the same dependency the last does.
pub open spec fn override_counts(list: Seq<OverrideModel>, override_: OverrideModel) -> bool {
    exists|i: int|
        0 <= i < list.len() && #[trigger] list[i] == override_ && forall|j: int|
            i < j < list.len() ==> (#[trigger] list[j]).from != override_.from || list[j].relation != override_.relation
                || list[j].unresolved_to != override_.unresolved_to
}

/// Whether a diagnostic is of a code and a severity, for a path and a line.
pub open spec fn is_about(diagnostic: DiagnosticModel, code: Seq<char>, severity: AnalysisDiagnosticSeverity, path: Seq<char>, line: u32) -> bool {
    &&& diagnostic.code == code
    &&& diagnostic.severity == severity
    &&& diagnostic.path == path
    &&& match diagnostic.line {
        Some(at) => at == line,
        None => line == 0,
    }
}

/// Whether a diagnostic counts in a list with a detail: of several that are about the same the last
/// does. One without a line stands for line 0, and one without a detail for an empty one.
pub open spec fn diagnostic_counts(
    list: Seq<DiagnosticModel>,
    code: Seq<char>,
    severity: AnalysisDiagnosticSeverity,
    path: Seq<char>,
    line: u32,
    detail: Seq<char>,
) -> bool {
    exists|i: int|
        0 <= i < list.len() && is_about(#[trigger] list[i], code, severity, path, line) && (match list[i].detail {
            Some(text) => text == detail,
            None => detail.len() == 0,
        }) && forall|j: int| i < j < list.len() ==> !is_about(#[trigger] list[j], code, severity, path, line)
}

proof fn last_at<K, V>(entries: Seq<(K, V)>, key: K) -> (i: int)
    requires
        last_wins(entries).contains_key(key),
    ensures
        0 <= i < entries.len(),
        entries[i].0 == key,
        entries[i].1 == last_wins(entries)[key],
        forall|j: int| i < j < entries.len() ==> (#[trigger] entries[j]).0 != key,
    decreases entries.len(),
{
    let n = entries.len() - 1;
    if entries.last().0 == key {
        n
    } else {
        let less = entries.drop_last();
        let i = last_at(less, key);
        assert(entries[i] == less[i]);
        assert forall|j: int| i < j < entries.len() implies (#[trigger] entries[j]).0 != key by {
            if j < n {
                assert(entries[j] == less[j]);
            }
        }
        i
    }
}

proof fn last_counts<K, V>(entries: Seq<(K, V)>, i: int)
    requires
        0 <= i < entries.len(),
        forall|j: int| i < j < entries.len() ==> (#[trigger] entries[j]).0 != entries[i].0,
    ensures
        last_wins(entries).contains_key(entries[i].0),
        last_wins(entries)[entries[i].0] == entries[i].1,
    decreases entries.len(),
{
    let n = entries.len() - 1;
    if i < n {
        let less = entries.drop_last();
        assert(less[i] == entries[i]);
        assert(entries[n].0 != entries[i].0);
        assert forall|j: int| i < j < less.len() implies (#[trigger] less[j]).0 != less[i].0 by {
            assert(entries[j] == less[j]);
        }
        last_counts(less, i);
    }
}

proof fn entity_counts_by_map(list: Seq<EntityModel>, entity: EntityModel)
    ensures
        entity_counts(list, entity) <==> normal_entities(list).contains_key(seq![entity.id]) && normal_entities(list)[seq![entity.id]] == (
            entity_kind_text(entity.kind),
            entity_metadata_text(entity.metadata),
        ),
{
    let entries = list.map_values(|entity: EntityModel| entity_entry(entity));
    let key = seq![entity.id];
    let map = normal_entities(list);
    assert(key[0] == entity.id);
    if entity_counts(list, entity) {
        let i = choose|i: int|
            0 <= i < list.len() && #[trigger] list[i] == entity && forall|j: int| i < j < list.len() ==> (#[trigger] list[j]).id
                != entity.id;
        assert(entries[i] == entity_entry(list[i]));
        assert forall|j: int| i < j < entries.len() implies (#[trigger] entries[j]).0 != entries[i].0 by {
            assert(entries[j] == entity_entry(list[j]));
            assert(entries[j].0[0] == list[j].id);
            assert(list[j].id != entity.id);
        }
        last_counts(entries, i);
    }
    if map.contains_key(key) && map[key] == (entity_kind_text(entity.kind), entity_metadata_text(entity.metadata)) {
        let i = last_at(entries, key);
        assert(entries[i] == entity_entry(list[i]));
        assert(entries[i].0[0] == list[i].id);
        entity_kind_names_distinct(list[i].kind, entity.kind);
        entity_metadata_names_distinct(list[i].metadata, entity.metadata);
        assert(list[i] == entity);
        assert forall|j: int| i < j < list.len() implies (#[trigger] list[j]).id != entity.id by {
            assert(entries[j] == entity_entry(list[j]));
            assert(entries[j].0 != key);
            if list[j].id == entity.id {
                assert(entries[j].0 =~= key);
            }
        }
    }
}

proof fn scores_differ(a: Confidence, b: Confidence)
    requires
        confidence_score(a) == confidence_score(b),
    ensures
        a == b,
{
}

proof fn observation_key_is(a: ObservationModel, b: ObservationModel)
    ensures
        observation_entry(a).0 == observation_entry(b).0 <==> a.from == b.from && a.relation == b.relation && a.to == b.to,
{
    let (x, y) = (observation_entry(a).0, observation_entry(b).0);
    assert(x[0] == a.from && y[0] == b.from);
    assert(x[1] == relation_name_text(a.relation) && y[1] == relation_name_text(b.relation));
    assert(x[2] == a.to && y[2] == b.to);
    if x == y {
        relation_names_distinct(a.relation, b.relation);
    }
}

proof fn observation_counts_by_map(list: Seq<ObservationModel>, observation: ObservationModel)
    ensures
        observation_counts(list, observation) <==> normal_observations(list).contains_key(observation_entry(observation).0)
            && normal_observations(list)[observation_entry(observation).0] == observation_entry(observation).1,
{
    let entries = list.map_values(|observation: ObservationModel| observation_entry(observation));
    let (key, value) = observation_entry(observation);
    let map = normal_observations(list);
    if observation_counts(list, observation) {
        let i = choose|i: int|
            0 <= i < list.len() && #[trigger] list[i] == observation && forall|j: int|
                i < j < list.len() ==> (#[trigger] list[j]).from != observation.from || list[j].relation != observation.relation
                    || list[j].to != observation.to;
        assert(entries[i] == observation_entry(list[i]));
        assert forall|j: int| i < j < entries.len() implies (#[trigger] entries[j]).0 != entries[i].0 by {
            assert(entries[j] == observation_entry(list[j]));
            observation_key_is(list[j], observation);
        }
        last_counts(entries, i);
    }
    if map.contains_key(key) && map[key] == value {
        let i = last_at(entries, key);
        assert(entries[i] == observation_entry(list[i]));
        observation_key_is(list[i], observation);
        provenance_names_distinct(list[i].provenance, observation.provenance);
        scores_differ(list[i].confidence, observation.confidence);
        assert(list[i] == observation);
        assert forall|j: int| i < j < list.len() implies (#[trigger] list[j]).from != observation.from || list[j].relation
            != observation.relation || list[j].to != observation.to by {
            assert(entries[j] == observation_entry(list[j]));
            assert(entries[j].0 != key);
            observation_key_is(list[j], observation);
        }
    }
}

proof fn roles_differ(a: GrpcBindingRole, b: GrpcBindingRole)
    requires
        grpc_role_name_text(a) == grpc_role_name_text(b),
    ensures
        a == b,
{
    reveal_strlit("client");
    reveal_strlit("server");
    assert("client"@[0] != "server"@[0]);
}

proof fn candidate_key_is(a: CandidateModel, b: CandidateModel)
    ensures
        candidate_entry(a).0 == candidate_entry(b).0 <==> a.local_symbol == b.local_symbol && a.role == b.role && a.service == b.service
            && a.method == b.method && a.evidence == b.evidence,
{
    let (x, y) = (candidate_entry(a).0, candidate_entry(b).0);
    assert(x[0] == a.local_symbol && y[0] == b.local_symbol);
    assert(x[1] == grpc_role_name_text(a.role) && y[1] == grpc_role_name_text(b.role));
    assert(x[2] == a.service && y[2] == b.service);
    assert(x[3] == a.method && y[3] == b.method);
    assert(x[4] == a.evidence && y[4] == b.evidence);
    if x == y {
        roles_differ(a.role, b.role);
    }
}

proof fn candidate_counts_by_map(list: Seq<CandidateModel>, candidate: CandidateModel)
    ensures
        candidate_counts(list, candidate) <==> normal_candidates(list).contains_key(candidate_entry(candidate).0) && normal_candidates(
            list,
        )[candidate_entry(candidate).0] == candidate_entry(candidate).1,
{
    let entries = list.map_values(|candidate: CandidateModel| candidate_entry(candidate));
    let (key, value) = candidate_entry(candidate);
    let map = normal_candidates(list);
    if candidate_counts(list, candidate) {
        let i = choose|i: int|
            0 <= i < list.len() && #[trigger] list[i] == candidate && forall|j: int|
                i < j < list.len() ==> (#[trigger] list[j]).local_symbol != candidate.local_symbol || list[j].role != candidate.role
                    || list[j].service != candidate.service || list[j].method != candidate.method || list[j].evidence
                    != candidate.evidence;
        assert(entries[i] == candidate_entry(list[i]));
        assert forall|j: int| i < j < entries.len() implies (#[trigger] entries[j]).0 != entries[i].0 by {
            assert(entries[j] == candidate_entry(list[j]));
            candidate_key_is(list[j], candidate);
        }
        last_counts(entries, i);
    }
    if map.contains_key(key) && map[key] == value {
        let i = last_at(entries, key);
        assert(entries[i] == candidate_entry(list[i]));
        candidate_key_is(list[i], candidate);
        rpc_cardinality_names_distinct(list[i].cardinality, candidate.cardinality);
        provenance_names_distinct(list[i].provenance, candidate.provenance);
        scores_differ(list[i].confidence, candidate.confidence);
        assert(list[i] == candidate);
        assert forall|j: int| i < j < list.len() implies (#[trigger] list[j]).local_symbol != candidate.local_symbol || list[j].role
            != candidate.role || list[j].service != candidate.service || list[j].method != candidate.method || list[j].evidence
            != candidate.evidence by {
            assert(entries[j] == candidate_entry(list[j]));
            assert(entries[j].0 != key);
            candidate_key_is(list[j], candidate);
        }
    }
}

proof fn override_key_is(a: OverrideModel, b: OverrideModel)
    ensures
        override_key(a) == override_key(b) <==> a.from == b.from && a.relation == b.relation && a.unresolved_to == b.unresolved_to,
{
    let (x, y) = (override_key(a), override_key(b));
    assert(x[0] == a.from && y[0] == b.from);
    assert(x[1] == relation_name_text(SemanticRelation::Dependency(a.relation)));
    assert(y[1] == relation_name_text(SemanticRelation::Dependency(b.relation)));
    assert(x[2] == a.unresolved_to && y[2] == b.unresolved_to);
    if x == y {
        relation_names_distinct(SemanticRelation::Dependency(a.relation), SemanticRelation::Dependency(b.relation));
    }
}

proof fn override_counts_by_map(list: Seq<OverrideModel>, override_: OverrideModel)
    ensures
        override_counts(list, override_) <==> normal_overrides(list).contains_key(override_key(override_)) && normal_overrides(
            list,
        )[override_key(override_)] == override_,
{
    let entries = list.map_values(|override_: OverrideModel| (override_key(override_), override_));
    let key = override_key(override_);
    let map = normal_overrides(list);
    if override_counts(list, override_) {
        let i = choose|i: int|
            0 <= i < list.len() && #[trigger] list[i] == override_ && forall|j: int|
                i < j < list.len() ==> (#[trigger] list[j]).from != override_.from || list[j].relation != override_.relation
                    || list[j].unresolved_to != override_.unresolved_to;
        assert(entries[i] == (override_key(list[i]), list[i]));
        assert forall|j: int| i < j < entries.len() implies (#[trigger] entries[j]).0 != entries[i].0 by {
            assert(entries[j] == (override_key(list[j]), list[j]));
            override_key_is(list[j], override_);
        }
        last_counts(entries, i);
    }
    if map.contains_key(key) && map[key] == override_ {
        let i = last_at(entries, key);
        assert(entries[i] == (override_key(list[i]), list[i]));
        assert(list[i] == override_);
        assert forall|j: int| i < j < list.len() implies (#[trigger] list[j]).from != override_.from || list[j].relation
            != override_.relation || list[j].unresolved_to != override_.unresolved_to by {
            assert(entries[j] == (override_key(list[j]), list[j]));
            assert(entries[j].0 != key);
            override_key_is(list[j], override_);
        }
    }
}

proof fn severities_differ(a: AnalysisDiagnosticSeverity, b: AnalysisDiagnosticSeverity)
    requires
        severity_text(a) == severity_text(b),
    ensures
        a == b,
{
    reveal_strlit("known_limitation");
    reveal_strlit("warning");
    assert("known_limitation"@.len() != "warning"@.len());
}

proof fn padded_differ(a: u32, b: u32)
    requires
        padded(a as nat, 10) == padded(b as nat, 10),
    ensures
        a == b,
{
    assert(vstd::arithmetic::power::pow(10, 10) == 10_000_000_000) by {
        reveal(vstd::arithmetic::power::pow);
        reveal_with_fuel(vstd::arithmetic::power::pow, 11);
    }
    if a < b {
        padded_in_order(a as nat, b as nat, 10);
        chars_lt_irreflexive(padded(a as nat, 10));
    } else if b < a {
        padded_in_order(b as nat, a as nat, 10);
        chars_lt_irreflexive(padded(a as nat, 10));
    }
}

proof fn diagnostic_key_is(
    diagnostic: DiagnosticModel,
    code: Seq<char>,
    severity: AnalysisDiagnosticSeverity,
    path: Seq<char>,
    line: u32,
)
    ensures
        diagnostic_key(diagnostic) == seq![code, severity_text(severity), path, padded(line as nat, 10)] <==> is_about(
            diagnostic,
            code,
            severity,
            path,
            line,
        ),
{
    let x = diagnostic_key(diagnostic);
    let y = seq![code, severity_text(severity), path, padded(line as nat, 10)];
    assert(x[0] == diagnostic.code && x[1] == severity_text(diagnostic.severity) && x[2] == diagnostic.path);
    assert(x[3] == padded(stored_line(diagnostic.line) as nat, 10));
    assert(y[0] == code && y[1] == severity_text(severity) && y[2] == path && y[3] == padded(line as nat, 10));
    if x == y {
        severities_differ(diagnostic.severity, severity);
        padded_differ(stored_line(diagnostic.line), line);
    }
}

proof fn diagnostic_counts_by_map(
    list: Seq<DiagnosticModel>,
    code: Seq<char>,
    severity: AnalysisDiagnosticSeverity,
    path: Seq<char>,
    line: u32,
    detail: Seq<char>,
)
    ensures
        ({
            let key = seq![code, severity_text(severity), path, padded(line as nat, 10)];
            diagnostic_counts(list, code, severity, path, line, detail) <==> normal_diagnostics(list).contains_key(key)
                && normal_diagnostics(list)[key] == (line, detail)
        }),
{
    let entry = |diagnostic: DiagnosticModel|
        (diagnostic_key(diagnostic), (stored_line(diagnostic.line), stored_text(diagnostic.detail)));
    let entries = list.map_values(entry);
    let key = seq![code, severity_text(severity), path, padded(line as nat, 10)];
    let map = normal_diagnostics(list);
    if diagnostic_counts(list, code, severity, path, line, detail) {
        let i = choose|i: int|
            0 <= i < list.len() && is_about(#[trigger] list[i], code, severity, path, line) && (match list[i].detail {
                Some(text) => text == detail,
                None => detail.len() == 0,
            }) && forall|j: int| i < j < list.len() ==> !is_about(#[trigger] list[j], code, severity, path, line);
        assert(entries[i] == entry(list[i]));
        diagnostic_key_is(list[i], code, severity, path, line);
        if list[i].detail is None {
            assert(detail =~= Seq::empty());
        }
        assert forall|j: int| i < j < entries.len() implies (#[trigger] entries[j]).0 != entries[i].0 by {
            assert(entries[j] == entry(list[j]));
            diagnostic_key_is(list[j], code, severity, path, line);
        }
        last_counts(entries, i);
    }
    if map.contains_key(key) && map[key] == (line, detail) {
        let i = last_at(entries, key);
        assert(entries[i] == entry(list[i]));
        diagnostic_key_is(list[i], code, severity, path, line);
        assert forall|j: int| i < j < list.len() implies !is_about(#[trigger] list[j], code, severity, path, line) by {
            assert(entries[j] == entry(list[j]));
            assert(entries[j].0 != key);
            diagnostic_key_is(list[j], code, severity, path, line);
        }
    }
}

/// Whether two repositories hold the same, as far as it counts: the same entities with their kinds
/// and metadata, the same observations with their evidence, confidence and provenance, and the
/// same diagnostics with their lines and details.
pub open spec fn hold_the_same(a: RepositoryFacts, b: RepositoryFacts) -> bool {
    &&& a.state@.repository == b.state@.repository
    &&& same_entities(a, b)
    &&& same_observations(a, b)
    &&& forall|code: Seq<char>, severity: AnalysisDiagnosticSeverity, path: Seq<char>, line: u32, detail: Seq<char>| #[trigger]
        diagnostic_counts(diagnostic_models(a.diagnostics@), code, severity, path, line, detail) <==> diagnostic_counts(
            diagnostic_models(b.diagnostics@),
            code,
            severity,
            path,
            line,
            detail,
        )
}

/// Whether the same entities count in two repositories.
pub open spec fn same_entities(a: RepositoryFacts, b: RepositoryFacts) -> bool {
    forall|entity: EntityModel| #[trigger]
        entity_counts(entity_models(a.entities@), entity) <==> entity_counts(entity_models(b.entities@), entity)
}

/// Whether the same observations count in two repositories.
pub open spec fn same_observations(a: RepositoryFacts, b: RepositoryFacts) -> bool {
    forall|observation: ObservationModel| #[trigger]
        observation_counts(observation_models(a.observations@), observation) <==> observation_counts(
            observation_models(b.observations@),
            observation,
        )
}

/// Whether the same candidates for bindings count in two repositories.
pub open spec fn same_candidates(a: RepositoryFacts, b: RepositoryFacts) -> bool {
    forall|candidate: CandidateModel| #[trigger]
        candidate_counts(candidate_models(a.grpc_bindings@), candidate) <==> candidate_counts(
            candidate_models(b.grpc_bindings@),
            candidate,
        )
}

proof fn entities_by_map(a: RepositoryFacts, b: RepositoryFacts)
    requires
        normal_entities(entity_models(a.entities@)) == normal_entities(entity_models(b.entities@)),
    ensures
        same_entities(a, b),
{
    assert forall|entity: EntityModel| #[trigger] entity_counts(entity_models(a.entities@), entity) <==> entity_counts(
        entity_models(b.entities@),
        entity,
    ) by {
        entity_counts_by_map(entity_models(a.entities@), entity);
        entity_counts_by_map(entity_models(b.entities@), entity);
    }
}

proof fn observations_by_map(a: RepositoryFacts, b: RepositoryFacts)
    requires
        normal_observations(observation_models(a.observations@)) == normal_observations(observation_models(b.observations@)),
    ensures
        same_observations(a, b),
{
    assert forall|observation: ObservationModel| #[trigger] observation_counts(observation_models(a.observations@), observation)
        <==> observation_counts(observation_models(b.observations@), observation) by {
        observation_counts_by_map(observation_models(a.observations@), observation);
        observation_counts_by_map(observation_models(b.observations@), observation);
    }
}

proof fn candidates_by_map(a: RepositoryFacts, b: RepositoryFacts)
    requires
        normal_candidates(candidate_models(a.grpc_bindings@)) == normal_candidates(candidate_models(b.grpc_bindings@)),
    ensures
        same_candidates(a, b),
{
    assert forall|candidate: CandidateModel| #[trigger] candidate_counts(candidate_models(a.grpc_bindings@), candidate)
        <==> candidate_counts(candidate_models(b.grpc_bindings@), candidate) by {
        candidate_counts_by_map(candidate_models(a.grpc_bindings@), candidate);
        candidate_counts_by_map(candidate_models(b.grpc_bindings@), candidate);
    }
}

proof fn facts_by_map(a: RepositoryFacts, b: RepositoryFacts)
    requires
        a.state@.repository == b.state@.repository,
        normal_entities(entity_models(a.entities@)) == normal_entities(entity_models(b.entities@)),
        normal_observations(observation_models(a.observations@)) == normal_observations(observation_models(b.observations@)),
        normal_diagnostics(diagnostic_models(a.diagnostics@)) == normal_diagnostics(diagnostic_models(b.diagnostics@)),
    ensures
        hold_the_same(a, b),
{
    entities_by_map(a, b);
    observations_by_map(a, b);
    let (x, y) = (diagnostic_models(a.diagnostics@), diagnostic_models(b.diagnostics@));
    assert forall|code: Seq<char>, severity: AnalysisDiagnosticSeverity, path: Seq<char>, line: u32, detail: Seq<char>| #[trigger]
        diagnostic_counts(x, code, severity, path, line, detail) <==> diagnostic_counts(y, code, severity, path, line, detail) by {
        diagnostic_counts_by_map(x, code, severity, path, line, detail);
        diagnostic_counts_by_map(y, code, severity, path, line, detail);
    }
}

proof fn same_held_items(a: RepositoryFacts, b: RepositoryFacts)
    requires
        facts_items(a) == facts_items(b),
    ensures
        hold_the_same(a, b),
{
    assert(facts_items(a)[0] == repository_item(a));
    assert(facts_items(b)[0] == repository_item(b));
    assert(repository_item(a).texts[0] == repository_item(b).texts[0]);
    assert(facts_items(a).skip(1) =~= held_items(a));
    assert(facts_items(b).skip(1) =~= held_items(b));
    let (ea, eb) = (entity_models(a.entities@), entity_models(b.entities@));
    let (oa, ob) = (observation_models(a.observations@), observation_models(b.observations@));
    let (da, db) = (diagnostic_models(a.diagnostics@), diagnostic_models(b.diagnostics@));
    entities_are_items(ea);
    entities_are_items(eb);
    observations_are_items(oa);
    observations_are_items(ob);
    diagnostics_are_items(da);
    diagnostics_are_items(db);
    let (x, p) = (entity_items(normal_entities(ea)), entity_items(normal_entities(eb)));
    let (y, q) = (value_items(normal_observations(oa)), value_items(normal_observations(ob)));
    let (z, r) = (diagnostic_items(normal_diagnostics(da)), diagnostic_items(normal_diagnostics(db)));
    sorts_apart(x, y, z);
    sorts_apart(p, q, r);
    assert(held_items(a) =~= x + (y + z));
    assert(held_items(b) =~= p + (q + r));
    sorts_are_told_apart(x, y + z, p, q + r, |item: Item| is_entity(item));
    sorts_are_told_apart(y, z, q, r, |item: Item| is_observation(item));
    same_entity_items(ea, eb);
    same_value_items(normal_observations(oa), normal_observations(ob), 3);
    same_diagnostic_items(da, db);
    facts_by_map(a, b);
}

proof fn sorts_apart(x: Seq<Item>, y: Seq<Item>, z: Seq<Item>)
    requires
        forall|i: int| 0 <= i < x.len() ==> is_entity(#[trigger] x[i]),
        forall|i: int| 0 <= i < y.len() ==> is_observation(#[trigger] y[i]),
        forall|i: int| 0 <= i < z.len() ==> is_diagnostic(#[trigger] z[i]),
    ensures
        forall|i: int| 0 <= i < (y + z).len() ==> !is_entity(#[trigger] (y + z)[i]),
        forall|i: int| 0 <= i < z.len() ==> !is_observation(#[trigger] z[i]),
{
    assert forall|i: int| 0 <= i < (y + z).len() implies !is_entity(#[trigger] (y + z)[i]) by {
        let item = (y + z)[i];
        if i < y.len() {
            assert(item == y[i]);
        } else {
            assert(item == z[i - y.len()]);
        }
        if is_entity(item) {
            facts_are_compatible(item, item);
        }
    }
    assert forall|i: int| 0 <= i < z.len() implies !is_observation(#[trigger] z[i]) by {
        if is_observation(z[i]) {
            facts_are_compatible(z[i], z[i]);
        }
    }
}

/// The pieces of repositories.
spec fn all_items(repositories: Seq<RepositoryFacts>) -> Seq<Item> {
    concat_map(repositories, |facts: RepositoryFacts| facts_items(facts))
}

proof fn all_are_items(repositories: Seq<RepositoryFacts>)
    ensures
        items_bytes(all_items(repositories)) == concat_map(repositories, |facts: RepositoryFacts| facts_bytes(facts)),
    decreases repositories.len(),
{
    if repositories.len() > 0 {
        let less = repositories.drop_last();
        all_are_items(less);
        items_behind(all_items(less), facts_items(repositories.last()));
        held_are_held(repositories.last());
    } else {
        assert(items_bytes(Seq::<Item>::empty()) =~= Seq::<u8>::empty());
    }
}

/// Whether a text is what a repository of the list is known by.
pub open spec fn names_repository(repositories: Seq<RepositoryFacts>, text: Seq<char>) -> bool {
    exists|i: int| 0 <= i < repositories.len() && (#[trigger] repositories[i]).state@.repository == text
}

/// Whether nothing that a repository holds goes by the name of a repository of the list: no entity,
/// no source of an observation, and no code of a diagnostic.
pub open spec fn stands_apart(facts: RepositoryFacts, repositories: Seq<RepositoryFacts>) -> bool {
    &&& forall|i: int| 0 <= i < facts.entities@.len() ==> !names_repository(repositories, (#[trigger] facts.entities@[i]).id@)
    &&& forall|i: int| 0 <= i < facts.observations@.len() ==> !names_repository(repositories, (#[trigger] facts.observations@[i]).from@)
    &&& forall|i: int| 0 <= i < facts.diagnostics@.len() ==> !names_repository(repositories, (#[trigger] facts.diagnostics@[i]).code@)
}

proof fn held_stand_apart(facts: RepositoryFacts, repositories: Seq<RepositoryFacts>, i: int)
    requires
        stands_apart(facts, repositories),
        0 <= i < held_items(facts).len(),
    ensures
        !names_repository(repositories, held_items(facts)[i].texts[0]),
{
    let entities = entity_models(facts.entities@);
    let observations = observation_models(facts.observations@);
    let diagnostics = diagnostic_models(facts.diagnostics@);
    entities_are_items(entities);
    observations_are_items(observations);
    diagnostics_are_items(diagnostics);
    let e = normal_entities(entities);
    let o = normal_observations(observations);
    let d = normal_diagnostics(diagnostics);
    let a = entity_items(e);
    let b = value_items(o);
    let c = diagnostic_items(d);
    let held = held_items(facts);
    listed_keys(e);
    listed_keys(o);
    listed_keys(d);
    if i < a.len() {
        assert(held[i] == a[i]);
        let key = listed(e.dom())[i];
        let entries = entities.map_values(|entity: EntityModel| entity_entry(entity));
        last_was_given(entries, key);
        let k = choose|k: int| 0 <= k < entries.len() && (#[trigger] entries[k]).0 == key && entries[k].1 == e[key];
        assert(entries[k] == entity_entry(entities[k]));
        assert(entities[k] == facts.entities@[k]@);
        assert(key[0] == facts.entities@[k].id@);
    } else if i < a.len() + b.len() {
        assert(held[i] == b[i - a.len()]);
        let key = listed(o.dom())[i - a.len()];
        let entries = observations.map_values(|observation: ObservationModel| observation_entry(observation));
        last_was_given(entries, key);
        let k = choose|k: int| 0 <= k < entries.len() && (#[trigger] entries[k]).0 == key && entries[k].1 == o[key];
        assert(entries[k] == observation_entry(observations[k]));
        assert(observations[k] == facts.observations@[k]@);
        assert(o.contains_key(key));
        assert(held[i].texts[0] == key[0]);
        assert(key[0] == facts.observations@[k].from@);
    } else {
        assert(held[i] == c[i - a.len() - b.len()]);
        let key = listed(d.dom())[i - a.len() - b.len()];
        let entry = |diagnostic: DiagnosticModel|
            (diagnostic_key(diagnostic), (stored_line(diagnostic.line), stored_text(diagnostic.detail)));
        let entries = diagnostics.map_values(entry);
        last_was_given(entries, key);
        let k = choose|k: int| 0 <= k < entries.len() && (#[trigger] entries[k]).0 == key && entries[k].1 == d[key];
        assert(entries[k] == entry(diagnostics[k]));
        assert(diagnostics[k] == facts.diagnostics@[k]@);
        assert(key[0] == facts.diagnostics@[k].code@);
    }
}

/// Where in a list of repositories a piece comes from.
proof fn item_comes_from(repositories: Seq<RepositoryFacts>, at: int) -> (k: int)
    requires
        0 <= at < all_items(repositories).len(),
    ensures
        0 <= k < repositories.len(),
        all_items(repositories)[at] == repository_item(repositories[k]) || exists|i: int|
            0 <= i < held_items(repositories[k]).len() && #[trigger] held_items(repositories[k])[i] == all_items(repositories)[at],
    decreases repositories.len(),
{
    let less = repositories.drop_last();
    let last = repositories.len() - 1;
    let before = all_items(less);
    if at < before.len() {
        let k = item_comes_from(less, at);
        assert(less[k] == repositories[k]);
        k
    } else {
        let own = facts_items(repositories.last());
        assert(all_items(repositories)[at] == own[at - before.len()]);
        assert(repositories[last] == repositories.last());
        if at > before.len() {
            assert(own[at - before.len()] == held_items(repositories[last])[at - before.len() - 1]);
        }
        last
    }
}

/// A piece is a repository of the list, or something that one of them holds.
#[verifier::opaque]
spec fn is_known(item: Item, repositories: Seq<RepositoryFacts>) -> bool {
    (is_repository(item) && item.texts.len() == 1 && names_repository(repositories, item.texts[0])) || (is_held(item)
        && !names_repository(repositories, item.texts[0]))
}

proof fn items_are_known(list: Seq<RepositoryFacts>, repositories: Seq<RepositoryFacts>, at: int)
    requires
        forall|k: int| 0 <= k < list.len() ==> stands_apart(#[trigger] list[k], repositories),
        forall|k: int| 0 <= k < list.len() ==> names_repository(repositories, (#[trigger] list[k]).state@.repository),
        0 <= at < all_items(list).len(),
    ensures
        is_known(all_items(list)[at], repositories),
{
    reveal(is_known);
    let k = item_comes_from(list, at);
    let item = all_items(list)[at];
    held_are_held(list[k]);
    if item != repository_item(list[k]) {
        let i = choose|i: int| 0 <= i < held_items(list[k]).len() && #[trigger] held_items(list[k])[i] == item;
        held_stand_apart(list[k], repositories, i);
    }
}

proof fn known_are_compatible(x: Item, y: Item, repositories: Seq<RepositoryFacts>)
    requires
        is_known(x, repositories),
        is_known(y, repositories),
    ensures
        compatible(x, y),
{
    reveal(is_known);
    if is_held(x) {
        facts_are_compatible(x, x);
    }
    if is_held(y) {
        facts_are_compatible(y, y);
    }
    if is_held(x) && is_held(y) {
        facts_are_compatible(x, y);
    }
}

proof fn held_is_no_repository(facts: RepositoryFacts, i: int)
    requires
        0 <= i < held_items(facts).len(),
    ensures
        !is_repository(held_items(facts)[i]),
{
    held_are_held(facts);
    let item = held_items(facts)[i];
    assert(is_held(item));
    reveal(is_entity);
    reveal(is_observation);
    reveal(is_diagnostic);
}

proof fn same_items_same_facts(a: Seq<RepositoryFacts>, b: Seq<RepositoryFacts>)
    requires
        all_items(a) == all_items(b),
    ensures
        a.len() == b.len(),
        forall|i: int| 0 <= i < a.len() ==> hold_the_same(#[trigger] a[i], b[i]),
    decreases a.len() + b.len(),
{
    let (x, y) = (all_items(a), all_items(b));
    if a.len() == 0 {
        assert(x.len() == 0);
        if b.len() > 0 {
            assert(facts_items(b.last()).len() > 0);
        }
    } else if b.len() == 0 {
        assert(y.len() == 0);
        assert(facts_items(a.last()).len() > 0);
    } else {
        let (p, q) = (a.drop_last(), b.drop_last());
        let (u, v) = (facts_items(a.last()), facts_items(b.last()));
        let (m, n) = (all_items(p).len() as int, all_items(q).len() as int);
        assert(x == all_items(p) + u && y == all_items(q) + v);
        assert(u.len() > 0 && v.len() > 0);
        assert(x.len() == m + u.len() && y.len() == n + v.len());
        if m < n {
            assert(y[n] == v[0]);
            assert(is_repository(v[0]));
            assert(x[n] == u[n - m]);
            assert(u[n - m] == held_items(a.last())[n - m - 1]);
            held_is_no_repository(a.last(), n - m - 1);
        }
        if n < m {
            assert(x[m] == u[0]);
            assert(is_repository(u[0]));
            assert(y[m] == v[m - n]);
            assert(v[m - n] == held_items(b.last())[m - n - 1]);
            held_is_no_repository(b.last(), m - n - 1);
        }
        assert(all_items(p) =~= x.take(m));
        assert(all_items(q) =~= y.take(n));
        assert(u =~= x.skip(m));
        assert(v =~= y.skip(n));
        same_items_same_facts(p, q);
        same_held_items(a.last(), b.last());
        assert forall|i: int| 0 <= i < a.len() implies hold_the_same(#[trigger] a[i], b[i]) by {
            if i < p.len() {
                assert(p[i] == a[i] && q[i] == b[i]);
            }
        }
    }
}

/// What repositories contribute to the digest of a baseline.
#[verifier::opaque]
spec fn repository_part(repositories: Seq<RepositoryFacts>) -> Seq<u8> {
    concat_map(repositories, |facts: RepositoryFacts| facts_bytes(facts))
}

/// What remote operations contribute.
#[verifier::opaque]
spec fn operation_part(resolution: ResolutionModel) -> Seq<u8> {
    concat_map(operation_entities(resolution.operations), |entity: EntityModel| framed_texts(entity_texts(entity)))
}

/// What is observed of bindings contributes this.
#[verifier::opaque]
spec fn bound_part(resolution: ResolutionModel) -> Seq<u8> {
    concat_map(resolution.observations, |observation: ObservationModel| observation_bytes(observation))
}

/// What overrides contribute.
#[verifier::opaque]
spec fn override_part(overrides: Seq<OverrideModel>) -> Seq<u8> {
    concat_map(
        listed(normal_overrides(overrides).dom()),
        |key: Seq<Seq<char>>| override_bytes(normal_overrides(overrides)[key]),
    )
}

/// What reports contribute.
#[verifier::opaque]
spec fn report_part(resolution: ResolutionModel) -> Seq<u8> {
    concat_map(resolution.diagnostics, |diagnostic: GrpcDiagnosticModel| framed_texts(grpc_diagnostic_texts(diagnostic)))
}

proof fn regrouped(a: Seq<u8>, b: Seq<u8>, c: Seq<u8>, d: Seq<u8>, e: Seq<u8>)
    ensures
        a + b + c + d + e == a + (b + (c + (d + e))),
{
    assert(a + b + c + d + e =~= a + (b + (c + (d + e))));
}

proof fn baseline_parts(repositories: Seq<RepositoryFacts>, resolution: ResolutionModel, overrides: Seq<OverrideModel>)
    ensures
        baseline_bytes(repositories, resolution, overrides) == repository_part(repositories) + (operation_part(resolution) + (bound_part(
            resolution,
        ) + (override_part(overrides) + report_part(resolution)))),
{
    reveal(repository_part);
    reveal(operation_part);
    reveal(bound_part);
    reveal(override_part);
    reveal(report_part);
    regrouped(
        repository_part(repositories),
        operation_part(resolution),
        bound_part(resolution),
        override_part(overrides),
        report_part(resolution),
    );
}

proof fn same_before(front: Seq<u8>, a: Seq<u8>, b: Seq<u8>)
    requires
        front + a == front + b,
    ensures
        a == b,
{
    assert((front + a).skip(front.len() as int) =~= a);
    assert((front + b).skip(front.len() as int) =~= b);
}

proof fn same_behind(a: Seq<u8>, b: Seq<u8>, tail: Seq<u8>)
    requires
        a + tail == b + tail,
    ensures
        a == b,
{
    assert((a + tail).len() == (b + tail).len());
    assert((a + tail).take(a.len() as int) =~= a);
    assert((b + tail).take(b.len() as int) =~= b);
}

proof fn repositories_are_told_apart(a: Seq<RepositoryFacts>, b: Seq<RepositoryFacts>)
    requires
        items_bytes(all_items(a)) == items_bytes(all_items(b)),
        items_bytes(all_items(a)).len() <= u64::MAX,
        forall|k: int| 0 <= k < a.len() ==> stands_apart(#[trigger] a[k], a + b),
        forall|k: int| 0 <= k < b.len() ==> stands_apart(#[trigger] b[k], a + b),
    ensures
        a.len() == b.len(),
        forall|i: int| 0 <= i < a.len() ==> hold_the_same(#[trigger] a[i], b[i]),
{
    let all = a + b;
    assert forall|k: int| 0 <= k < a.len() implies names_repository(all, (#[trigger] a[k]).state@.repository) by {
        assert(all[k] == a[k]);
    }
    assert forall|k: int| 0 <= k < b.len() implies names_repository(all, (#[trigger] b[k]).state@.repository) by {
        assert(all[a.len() + k] == b[k]);
    }
    let (x, y) = (all_items(a), all_items(b));
    assert forall|i: int| 0 <= i < x.len() implies is_known(#[trigger] x[i], all) by {
        items_are_known(a, all, i);
    }
    assert forall|i: int| 0 <= i < y.len() implies is_known(#[trigger] y[i], all) by {
        items_are_known(b, all, i);
    }
    known_items_are_told_apart(x, y, all);
    same_items_same_facts(a, b);
}

proof fn known_items_are_told_apart(x: Seq<Item>, y: Seq<Item>, all: Seq<RepositoryFacts>)
    requires
        forall|i: int| 0 <= i < x.len() ==> is_known(#[trigger] x[i], all),
        forall|i: int| 0 <= i < y.len() ==> is_known(#[trigger] y[i], all),
        items_bytes(x) == items_bytes(y),
        items_bytes(x).len() <= u64::MAX,
    ensures
        x == y,
{
    assert forall|i: int| 0 <= i < x.len() implies (#[trigger] x[i]).texts.len() > 0 by {
        known_are_compatible(x[i], x[i], all);
    }
    assert forall|i: int| 0 <= i < y.len() implies (#[trigger] y[i]).texts.len() > 0 by {
        known_are_compatible(y[i], y[i], all);
    }
    assert forall|i: int, j: int| 0 <= i < x.len() && 0 <= j < y.len() implies told(#[trigger] x[i], #[trigger] y[j], u64::MAX as int) by {
        known_are_compatible(x[i], y[j], all);
        compatible_are_told(x[i], y[j]);
    }
    items_are_told_apart(x, y, u64::MAX as int);
}

/// The fingerprint of a baseline is taken of all that its repositories hold: with the same bindings
/// and overrides, two lists of repositories go into it as the same bytes only if they are as many
/// and hold the same, one by one. (This is so as long as nothing that they hold goes by the name
/// of one of them.)
pub proof fn baselines_tell_repositories_apart(
    a: Seq<RepositoryFacts>,
    b: Seq<RepositoryFacts>,
    resolution: ResolutionModel,
    overrides: Seq<OverrideModel>,
)
    requires
        baseline_bytes(a, resolution, overrides) == baseline_bytes(b, resolution, overrides),
        baseline_bytes(a, resolution, overrides).len() <= u64::MAX,
        forall|k: int| 0 <= k < a.len() ==> stands_apart(#[trigger] a[k], a + b),
        forall|k: int| 0 <= k < b.len() ==> stands_apart(#[trigger] b[k], a + b),
    ensures
        a.len() == b.len(),
        forall|i: int| 0 <= i < a.len() ==> hold_the_same(#[trigger] a[i], b[i]),
{
    baseline_parts(a, resolution, overrides);
    baseline_parts(b, resolution, overrides);
    let tail = operation_part(resolution) + (bound_part(resolution) + (override_part(overrides) + report_part(resolution)));
    same_behind(repository_part(a), repository_part(b), tail);
    assert(repository_part(a).len() <= (repository_part(a) + tail).len());
    reveal(repository_part);
    all_are_items(a);
    all_are_items(b);
    repositories_are_told_apart(a, b);
}

proof fn facts_items_are_told_apart(x: Seq<Item>, y: Seq<Item>)
    requires
        forall|i: int| 0 <= i < x.len() ==> is_fact(#[trigger] x[i]),
        forall|i: int| 0 <= i < y.len() ==> is_fact(#[trigger] y[i]),
        items_bytes(x) == items_bytes(y),
        items_bytes(x).len() <= u64::MAX,
    ensures
        x == y,
{
    assert forall|i: int| 0 <= i < x.len() implies (#[trigger] x[i]).texts.len() > 0 by {
        facts_are_compatible(x[i], x[i]);
    }
    assert forall|i: int| 0 <= i < y.len() implies (#[trigger] y[i]).texts.len() > 0 by {
        facts_are_compatible(y[i], y[i]);
    }
    assert forall|i: int, j: int| 0 <= i < x.len() && 0 <= j < y.len() implies told(#[trigger] x[i], #[trigger] y[j], u64::MAX as int) by {
        facts_are_compatible(x[i], y[j]);
        compatible_are_told(x[i], y[j]);
    }
    items_are_told_apart(x, y, u64::MAX as int);
}

spec fn is_fact(item: Item) -> bool {
    is_entity(item) || is_observation(item) || is_diagnostic(item) || is_candidate(item)
}

/// The pieces of what was analysed.
spec fn analyzed_items(facts: RepositoryFacts) -> Seq<Item> {
    value_items(normal_observations(observation_models(facts.observations@))) + entity_items(
        normal_entities(entity_models(facts.entities@)),
    ) + value_items(normal_candidates(candidate_models(facts.grpc_bindings@)))
}

proof fn analyzed_are_items(facts: RepositoryFacts)
    ensures
        analyzed_bytes(facts) == framed(facts.state@.repository) + (framed(facts.state@.fingerprint) + items_bytes(analyzed_items(facts))),
        forall|i: int| 0 <= i < analyzed_items(facts).len() ==> is_fact(#[trigger] analyzed_items(facts)[i]),
{
    let observations = observation_models(facts.observations@);
    let entities = entity_models(facts.entities@);
    let candidates = candidate_models(facts.grpc_bindings@);
    observations_are_items(observations);
    entities_are_items(entities);
    candidates_are_items(candidates);
    let a = value_items(normal_observations(observations));
    let b = entity_items(normal_entities(entities));
    let c = value_items(normal_candidates(candidates));
    let all = analyzed_items(facts);
    items_behind(a, b);
    items_behind(a + b, c);
    assert forall|i: int| 0 <= i < all.len() implies is_fact(#[trigger] all[i]) by {
        if i < a.len() {
            assert(all[i] == a[i]);
        } else if i < a.len() + b.len() {
            assert(all[i] == b[i - a.len()]);
        } else {
            assert(all[i] == c[i - a.len() - b.len()]);
        }
    }
    assert(analyzed_bytes(facts) =~= framed(facts.state@.repository) + (framed(facts.state@.fingerprint) + items_bytes(all)));
}

/// The name of an analysed state is taken of all that was found: two states go into it as the same
/// bytes only if they are of the same repository and have the same fingerprint, the same
/// observations, the same entities and the same candidates for bindings.
pub proof fn analyzed_states_are_told_apart(a: RepositoryFacts, b: RepositoryFacts)
    requires
        analyzed_bytes(a) == analyzed_bytes(b),
        analyzed_bytes(a).len() <= u64::MAX,
    ensures
        a.state@.repository == b.state@.repository,
        a.state@.fingerprint == b.state@.fingerprint,
        same_observations(a, b),
        same_entities(a, b),
        same_candidates(a, b),
{
    analyzed_are_items(a);
    analyzed_are_items(b);
    let (x, y) = (items_bytes(analyzed_items(a)), items_bytes(analyzed_items(b)));
    let (p, q) = (framed(a.state@.fingerprint) + x, framed(b.state@.fingerprint) + y);
    assert(framed(a.state@.repository).len() <= analyzed_bytes(a).len());
    assert(framed(b.state@.repository).len() <= analyzed_bytes(b).len());
    framing_is_prefix_free(a.state@.repository, b.state@.repository, p, q);
    assert(framed(a.state@.fingerprint).len() <= p.len());
    assert(framed(b.state@.fingerprint).len() <= q.len());
    framing_is_prefix_free(a.state@.fingerprint, b.state@.fingerprint, x, y);
    facts_items_are_told_apart(analyzed_items(a), analyzed_items(b));
    same_analyzed_items(a, b);
    observations_by_map(a, b);
    entities_by_map(a, b);
    candidates_by_map(a, b);
}

proof fn same_analyzed_items(a: RepositoryFacts, b: RepositoryFacts)
    requires
        analyzed_items(a) == analyzed_items(b),
    ensures
        normal_observations(observation_models(a.observations@)) == normal_observations(observation_models(b.observations@)),
        normal_entities(entity_models(a.entities@)) == normal_entities(entity_models(b.entities@)),
        normal_candidates(candidate_models(a.grpc_bindings@)) == normal_candidates(candidate_models(b.grpc_bindings@)),
{
    let (oa, ob) = (observation_models(a.observations@), observation_models(b.observations@));
    let (ea, eb) = (entity_models(a.entities@), entity_models(b.entities@));
    let (ca, cb) = (candidate_models(a.grpc_bindings@), candidate_models(b.grpc_bindings@));
    observations_are_items(oa);
    observations_are_items(ob);
    entities_are_items(ea);
    entities_are_items(eb);
    candidates_are_items(ca);
    candidates_are_items(cb);
    let (x, p) = (value_items(normal_observations(oa)), value_items(normal_observations(ob)));
    let (y, q) = (entity_items(normal_entities(ea)), entity_items(normal_entities(eb)));
    let (z, r) = (value_items(normal_candidates(ca)), value_items(normal_candidates(cb)));
    analyzed_sorts_apart(x, y, z);
    analyzed_sorts_apart(p, q, r);
    assert(analyzed_items(a) =~= x + (y + z));
    assert(analyzed_items(b) =~= p + (q + r));
    sorts_are_told_apart(x, y + z, p, q + r, |item: Item| is_observation(item));
    sorts_are_told_apart(y, z, q, r, |item: Item| is_entity(item));
    same_value_items(normal_observations(oa), normal_observations(ob), 3);
    same_entity_items(ea, eb);
    same_value_items(normal_candidates(ca), normal_candidates(cb), 5);
}

proof fn analyzed_sorts_apart(x: Seq<Item>, y: Seq<Item>, z: Seq<Item>)
    requires
        forall|i: int| 0 <= i < x.len() ==> is_observation(#[trigger] x[i]),
        forall|i: int| 0 <= i < y.len() ==> is_entity(#[trigger] y[i]),
        forall|i: int| 0 <= i < z.len() ==> is_candidate(#[trigger] z[i]),
    ensures
        forall|i: int| 0 <= i < (y + z).len() ==> !is_observation(#[trigger] (y + z)[i]),
        forall|i: int| 0 <= i < z.len() ==> !is_entity(#[trigger] z[i]),
{
    assert forall|i: int| 0 <= i < (y + z).len() implies !is_observation(#[trigger] (y + z)[i]) by {
        let item = (y + z)[i];
        if i < y.len() {
            assert(item == y[i]);
        } else {
            assert(item == z[i - y.len()]);
        }
        facts_are_compatible(item, item);
    }
    assert forall|i: int| 0 <= i < z.len() implies !is_entity(#[trigger] z[i]) by {
        facts_are_compatible(z[i], z[i]);
    }
}

/// A piece that is an override.
#[verifier::opaque]
spec fn is_override(item: Item) -> bool {
    item.texts.len() == 6 && item.raw.len() == 8 && names_relation(item.texts[1])
}

/// A piece that is a report of a candidate that was not bound.
#[verifier::opaque]
spec fn is_report(item: Item) -> bool {
    item.texts.len() == 7 && item.raw.len() == 0 && names_role(item.texts[1])
}

/// An override as a piece.
spec fn override_item(override_: OverrideModel) -> Item {
    Item {
        texts: override_key(override_) + seq![override_.resolved_to, override_.evidence, provenance_name_text(override_.provenance)],
        raw: little_endian(confidence_score(override_.confidence) as nat, 8),
    }
}

/// The pieces of overrides.
spec fn override_items(overrides: Seq<OverrideModel>) -> Seq<Item> {
    let map = normal_overrides(overrides);
    listed(map.dom()).map_values(|key: Seq<Seq<char>>| override_item(map[key]))
}

proof fn overrides_are_items(overrides: Seq<OverrideModel>)
    ensures
        override_part(overrides) == items_bytes(override_items(overrides)),
        normal_overrides(overrides).dom().finite(),
        forall|key: Seq<Seq<char>>| #[trigger]
            normal_overrides(overrides).contains_key(key) ==> key == override_key(normal_overrides(overrides)[key]),
        forall|i: int| 0 <= i < override_items(overrides).len() ==> is_override(#[trigger] override_items(overrides)[i]),
{
    reveal(override_part);
    let map = normal_overrides(overrides);
    let entries = overrides.map_values(|override_: OverrideModel| (override_key(override_), override_));
    last_wins_is_finite(entries);
    listed_keys(map);
    let keys = listed(map.dom());
    let items = override_items(overrides);
    assert forall|key: Seq<Seq<char>>| #[trigger] map.contains_key(key) implies key == override_key(map[key]) by {
        last_was_given(entries, key);
        let i = choose|i: int| 0 <= i < entries.len() && (#[trigger] entries[i]).0 == key && entries[i].1 == map[key];
        assert(entries[i] == (override_key(overrides[i]), overrides[i]));
    }
    let piece = |key: Seq<Seq<char>>| override_bytes(map[key]);
    assert forall|i: int| 0 <= i < keys.len() implies piece(#[trigger] keys[i]) == item_bytes(items[i]) by {}
    pieces_are_items(keys, piece, items);
    assert forall|i: int| 0 <= i < items.len() implies is_override(#[trigger] items[i]) by {
        reveal(is_override);
        let override_ = map[keys[i]];
        assert(items[i].texts[1] == relation_name_text(SemanticRelation::Dependency(override_.relation)));
        little_endian_width(confidence_score(override_.confidence) as nat, 8);
    }
}

proof fn same_override_item(a: OverrideModel, b: OverrideModel)
    requires
        override_item(a) == override_item(b),
    ensures
        a == b,
{
    let u = override_item(a).texts;
    let v = override_item(b).texts;
    assert(u[0] == a.from && v[0] == b.from);
    assert(u[1] == relation_name_text(SemanticRelation::Dependency(a.relation)));
    assert(v[1] == relation_name_text(SemanticRelation::Dependency(b.relation)));
    assert(u[2] == a.unresolved_to && v[2] == b.unresolved_to);
    assert(u[3] == a.resolved_to && v[3] == b.resolved_to);
    assert(u[4] == a.evidence && v[4] == b.evidence);
    assert(u[5] == provenance_name_text(a.provenance) && v[5] == provenance_name_text(b.provenance));
    relation_names_distinct(SemanticRelation::Dependency(a.relation), SemanticRelation::Dependency(b.relation));
    provenance_names_distinct(a.provenance, b.provenance);
    full_width();
    little_endian_injective(confidence_score(a.confidence) as nat, confidence_score(b.confidence) as nat, 8);
}

proof fn overrides_by_map(a: Seq<OverrideModel>, b: Seq<OverrideModel>)
    requires
        normal_overrides(a) == normal_overrides(b),
    ensures
        forall|o: OverrideModel| #[trigger] override_counts(a, o) <==> override_counts(b, o),
{
    assert forall|o: OverrideModel| #[trigger] override_counts(a, o) <==> override_counts(b, o) by {
        override_counts_by_map(a, o);
        override_counts_by_map(b, o);
    }
}

proof fn same_override_items(a: Seq<OverrideModel>, b: Seq<OverrideModel>)
    requires
        override_items(a) == override_items(b),
    ensures
        normal_overrides(a) == normal_overrides(b),
{
    overrides_are_items(a);
    overrides_are_items(b);
    let (x, y) = (override_items(a), override_items(b));
    let (m, n) = (normal_overrides(a), normal_overrides(b));
    let (u, v) = (listed(m.dom()), listed(n.dom()));
    listed_keys(m);
    listed_keys(n);
    assert(x.len() == u.len() && y.len() == v.len());
    assert forall|i: int| 0 <= i < u.len() implies #[trigger] u[i] == v[i] && m[u[i]] == n[v[i]] by {
        assert(x[i] == override_item(m[u[i]]));
        assert(y[i] == override_item(n[v[i]]));
        same_override_item(m[u[i]], n[v[i]]);
        assert(m.contains_key(u[i]) && n.contains_key(v[i]));
    }
    listed_maps(m, n);
}

/// The fingerprint of a baseline is taken of all its overrides: with the same repositories and
/// bindings, two lists of overrides go into it as the same bytes only if the same overrides count
/// in both.
pub proof fn baselines_tell_overrides_apart(
    repositories: Seq<RepositoryFacts>,
    resolution: ResolutionModel,
    a: Seq<OverrideModel>,
    b: Seq<OverrideModel>,
)
    requires
        baseline_bytes(repositories, resolution, a) == baseline_bytes(repositories, resolution, b),
        baseline_bytes(repositories, resolution, a).len() <= u64::MAX,
    ensures
        forall|o: OverrideModel| #[trigger] override_counts(a, o) <==> override_counts(b, o),
{
    baseline_parts(repositories, resolution, a);
    baseline_parts(repositories, resolution, b);
    let (p, q, tail) = (override_part(a), override_part(b), report_part(resolution));
    let (front, ops, bound) = (repository_part(repositories), operation_part(resolution), bound_part(resolution));
    same_before(front, ops + (bound + (p + tail)), ops + (bound + (q + tail)));
    same_before(ops, bound + (p + tail), bound + (q + tail));
    same_before(bound, p + tail, q + tail);
    same_behind(p, q, tail);
    assert(p.len() <= (front + (ops + (bound + (p + tail)))).len());
    override_items_are_told_apart(a, b);
    same_override_items(a, b);
    overrides_by_map(a, b);
}

proof fn override_items_are_told_apart(a: Seq<OverrideModel>, b: Seq<OverrideModel>)
    requires
        override_part(a) == override_part(b),
        override_part(a).len() <= u64::MAX,
    ensures
        override_items(a) == override_items(b),
{
    overrides_are_items(a);
    overrides_are_items(b);
    let (x, y) = (override_items(a), override_items(b));
    assert forall|i: int| 0 <= i < x.len() implies (#[trigger] x[i]).texts.len() > 0 by {
        reveal(is_override);
    }
    assert forall|i: int| 0 <= i < y.len() implies (#[trigger] y[i]).texts.len() > 0 by {
        reveal(is_override);
    }
    assert forall|i: int, j: int| 0 <= i < x.len() && 0 <= j < y.len() implies told(#[trigger] x[i], #[trigger] y[j], u64::MAX as int) by {
        assert(is_override(x[i]) && is_override(y[j]));
        assert(compatible(x[i], y[j])) by {
            reveal(is_override);
        }
        compatible_are_told(x[i], y[j]);
    }
    items_are_told_apart(x, y, u64::MAX as int);
}

/// The pieces of remote operations.
spec fn operation_items(resolution: ResolutionModel) -> Seq<Item> {
    operation_entities(resolution.operations).map_values(
        |entity: EntityModel| Item { texts: entity_texts(entity), raw: Seq::empty() },
    )
}

/// An observation as a piece.
spec fn observation_item(observation: ObservationModel) -> Item {
    Item {
        texts: seq![
            observation.from,
            relation_name_text(observation.relation),
            observation.to,
            observation.evidence,
            provenance_name_text(observation.provenance),
        ],
        raw: little_endian(confidence_score(observation.confidence) as nat, 8),
    }
}

/// The pieces of what is observed of bindings.
spec fn bound_items(resolution: ResolutionModel) -> Seq<Item> {
    resolution.observations.map_values(|observation: ObservationModel| observation_item(observation))
}

/// The pieces of reports.
spec fn report_items(resolution: ResolutionModel) -> Seq<Item> {
    resolution.diagnostics.map_values(
        |diagnostic: GrpcDiagnosticModel| Item { texts: grpc_diagnostic_texts(diagnostic), raw: Seq::empty() },
    )
}

/// The pieces of bindings with overrides.
spec fn resolution_items(resolution: ResolutionModel, overrides: Seq<OverrideModel>) -> Seq<Item> {
    operation_items(resolution) + (bound_items(resolution) + (override_items(overrides) + report_items(resolution)))
}

proof fn operations_are_items(resolution: ResolutionModel)
    ensures
        operation_part(resolution) == items_bytes(operation_items(resolution)),
        forall|i: int| 0 <= i < operation_items(resolution).len() ==> is_entity(#[trigger] operation_items(resolution)[i]),
{
    reveal(operation_part);
    let entities = operation_entities(resolution.operations);
    let piece = |entity: EntityModel| framed_texts(entity_texts(entity));
    let a = operation_items(resolution);
    assert forall|i: int| 0 <= i < entities.len() implies piece(#[trigger] entities[i]) == item_bytes(a[i]) by {
        assert(item_bytes(a[i]) =~= piece(entities[i]));
    }
    pieces_are_items(entities, piece, a);
    assert forall|i: int| 0 <= i < a.len() implies is_entity(#[trigger] a[i]) by {
        reveal(is_entity);
        assert(entity_kind_text(entities[i].kind) == a[i].texts[1]);
    }
}

proof fn bound_are_items(resolution: ResolutionModel)
    ensures
        bound_part(resolution) == items_bytes(bound_items(resolution)),
        forall|i: int| 0 <= i < bound_items(resolution).len() ==> is_observation(#[trigger] bound_items(resolution)[i]),
{
    reveal(bound_part);
    let piece = |observation: ObservationModel| observation_bytes(observation);
    let b = bound_items(resolution);
    assert forall|i: int| 0 <= i < resolution.observations.len() implies piece(#[trigger] resolution.observations[i]) == item_bytes(b[i]) by {
        assert(b[i] == observation_item(resolution.observations[i]));
    }
    pieces_are_items(resolution.observations, piece, b);
    assert forall|i: int| 0 <= i < b.len() implies is_observation(#[trigger] b[i]) by {
        reveal(is_observation);
        assert(relation_name_text(resolution.observations[i].relation) == b[i].texts[1]);
        little_endian_width(confidence_score(resolution.observations[i].confidence) as nat, 8);
    }
}

proof fn reports_are_items(resolution: ResolutionModel)
    ensures
        report_part(resolution) == items_bytes(report_items(resolution)),
        forall|i: int| 0 <= i < report_items(resolution).len() ==> is_report(#[trigger] report_items(resolution)[i]),
{
    reveal(report_part);
    let piece = |diagnostic: GrpcDiagnosticModel| framed_texts(grpc_diagnostic_texts(diagnostic));
    let d = report_items(resolution);
    assert forall|i: int| 0 <= i < resolution.diagnostics.len() implies piece(#[trigger] resolution.diagnostics[i]) == item_bytes(d[i]) by {
        assert(item_bytes(d[i]) =~= piece(resolution.diagnostics[i]));
    }
    pieces_are_items(resolution.diagnostics, piece, d);
    assert forall|i: int| 0 <= i < d.len() implies is_report(#[trigger] d[i]) by {
        reveal(is_report);
        assert(grpc_role_name_text(resolution.diagnostics[i].candidate.role) == d[i].texts[1]);
    }
}

proof fn resolution_are_items(repositories: Seq<RepositoryFacts>, resolution: ResolutionModel, overrides: Seq<OverrideModel>)
    ensures
        baseline_bytes(repositories, resolution, overrides) == repository_part(repositories) + items_bytes(
            resolution_items(resolution, overrides),
        ),
        forall|i: int| 0 <= i < operation_items(resolution).len() ==> is_entity(#[trigger] operation_items(resolution)[i]),
        forall|i: int| 0 <= i < bound_items(resolution).len() ==> is_observation(#[trigger] bound_items(resolution)[i]),
        forall|i: int| 0 <= i < override_items(overrides).len() ==> is_override(#[trigger] override_items(overrides)[i]),
        forall|i: int| 0 <= i < report_items(resolution).len() ==> is_report(#[trigger] report_items(resolution)[i]),
{
    operations_are_items(resolution);
    bound_are_items(resolution);
    overrides_are_items(overrides);
    reports_are_items(resolution);
    let (a, b, c, d) = (
        operation_items(resolution),
        bound_items(resolution),
        override_items(overrides),
        report_items(resolution),
    );
    items_behind(c, d);
    items_behind(b, c + d);
    items_behind(a, b + (c + d));
    baseline_parts(repositories, resolution, overrides);
}

/// How many bytes there can be so that no text can be as long as a confidence says.
pub const FRAMED_LIMIT: u64 = 0x1000_0000_0000_0000;

/// Whether the bytes behind the texts of a piece are those of a confidence.
spec fn has_confidence(item: Item) -> bool {
    exists|confidence: Confidence| item.raw == little_endian(#[trigger] confidence_score(confidence) as nat, 8)
}

/// A piece of a resolution with overrides.
#[verifier::opaque]
spec fn is_resolved(item: Item) -> bool {
    is_entity(item) || (is_observation(item) && has_confidence(item)) || is_override(item) || is_report(item)
}

proof fn resolved_are_told(x: Item, y: Item)
    requires
        is_resolved(x),
        is_resolved(y),
    ensures
        told(x, y, FRAMED_LIMIT as int),
        x.texts.len() > 1,
        is_entity(x) ==> !is_observation(x) && !is_override(x) && !is_report(x),
        is_observation(x) ==> !is_override(x) && !is_report(x),
        is_override(x) ==> !is_report(x),
{
    reveal(is_resolved);
    reveal(is_entity);
    reveal(is_observation);
    reveal(is_override);
    reveal(is_report);
    names_are_told_apart(x.texts[1]);
    names_are_told_apart(y.texts[1]);
    if is_observation(x) && has_confidence(x) && is_override(y) {
        let confidence = choose|confidence: Confidence| x.raw == little_endian(#[trigger] confidence_score(confidence) as nat, 8);
        lengths_are_told(x, y, confidence_score(confidence), FRAMED_LIMIT as int);
    } else if is_override(x) && is_observation(y) && has_confidence(y) {
        let confidence = choose|confidence: Confidence| y.raw == little_endian(#[trigger] confidence_score(confidence) as nat, 8);
        lengths_are_told(y, x, confidence_score(confidence), FRAMED_LIMIT as int);
    } else {
        assert(compatible(x, y));
        compatible_are_told(x, y);
        told_with_fewer(x, y, u64::MAX as int, FRAMED_LIMIT as int);
    }
}

proof fn resolution_item_is_resolved(resolution: ResolutionModel, overrides: Seq<OverrideModel>, i: int)
    requires
        0 <= i < resolution_items(resolution, overrides).len(),
    ensures
        is_resolved(resolution_items(resolution, overrides)[i]),
{
    reveal(is_resolved);
    resolution_are_items(Seq::empty(), resolution, overrides);
    let (a, b, c, d) = (
        operation_items(resolution),
        bound_items(resolution),
        override_items(overrides),
        report_items(resolution),
    );
    let all = resolution_items(resolution, overrides);
    if i < a.len() {
        assert(all[i] == a[i]);
    } else if i < a.len() + b.len() {
        let k = i - a.len();
        assert(all[i] == b[k]);
        assert(b[k].raw == little_endian(confidence_score(resolution.observations[k].confidence) as nat, 8));
        assert(has_confidence(b[k]));
    } else if i < a.len() + b.len() + c.len() {
        assert(all[i] == c[i - a.len() - b.len()]);
    } else {
        assert(all[i] == d[i - a.len() - b.len() - c.len()]);
    }
}

proof fn same_observation_item(a: ObservationModel, b: ObservationModel)
    requires
        observation_item(a) == observation_item(b),
    ensures
        a == b,
{
    let u = observation_item(a).texts;
    let v = observation_item(b).texts;
    assert(u[0] == a.from && v[0] == b.from);
    assert(u[1] == relation_name_text(a.relation) && v[1] == relation_name_text(b.relation));
    assert(u[2] == a.to && v[2] == b.to);
    assert(u[3] == a.evidence && v[3] == b.evidence);
    assert(u[4] == provenance_name_text(a.provenance) && v[4] == provenance_name_text(b.provenance));
    relation_names_distinct(a.relation, b.relation);
    provenance_names_distinct(a.provenance, b.provenance);
    full_width();
    little_endian_injective(confidence_score(a.confidence) as nat, confidence_score(b.confidence) as nat, 8);
}

proof fn resolved_sorts(a: Seq<Item>, b: Seq<Item>, c: Seq<Item>, d: Seq<Item>)
    requires
        forall|i: int| 0 <= i < (a + (b + (c + d))).len() ==> is_resolved(#[trigger] (a + (b + (c + d)))[i]),
        forall|i: int| 0 <= i < b.len() ==> is_observation(#[trigger] b[i]),
        forall|i: int| 0 <= i < c.len() ==> is_override(#[trigger] c[i]),
        forall|i: int| 0 <= i < d.len() ==> is_report(#[trigger] d[i]),
    ensures
        forall|i: int| 0 <= i < (b + (c + d)).len() ==> !is_entity(#[trigger] (b + (c + d))[i]),
        forall|i: int| 0 <= i < (c + d).len() ==> !is_observation(#[trigger] (c + d)[i]),
        forall|i: int| 0 <= i < d.len() ==> !is_override(#[trigger] d[i]),
{
    let all = a + (b + (c + d));
    let (m, n) = (a.len() as int, b.len() as int);
    assert forall|i: int| 0 <= i < d.len() implies !is_override(#[trigger] d[i]) && !is_observation(d[i]) && !is_entity(d[i]) by {
        assert(all[m + n + c.len() + i] == d[i]);
        resolved_are_told(d[i], d[i]);
    }
    assert forall|i: int| 0 <= i < (c + d).len() implies !is_observation(#[trigger] (c + d)[i]) && !is_entity((c + d)[i]) by {
        let item = (c + d)[i];
        assert(all[m + n + i] == item);
        resolved_are_told(item, item);
        if i < c.len() {
            assert(item == c[i]);
        } else {
            assert(item == d[i - c.len()]);
        }
    }
    assert forall|i: int| 0 <= i < (b + (c + d)).len() implies !is_entity(#[trigger] (b + (c + d))[i]) by {
        let item = (b + (c + d))[i];
        assert(all[m + i] == item);
        resolved_are_told(item, item);
        if i < n {
            assert(item == b[i]);
        } else {
            assert(item == (c + d)[i - n]);
        }
    }
}

/// The fingerprint of a baseline is taken of all that its bindings come to: with the same
/// repositories, two resolutions with overrides go into it as the same bytes only if they have the
/// same remote operations, the same observations and the same reports, and the same overrides
/// count.
pub proof fn baselines_tell_bindings_apart(
    repositories: Seq<RepositoryFacts>,
    a: ResolutionModel,
    overrides: Seq<OverrideModel>,
    b: ResolutionModel,
    other: Seq<OverrideModel>,
)
    requires
        baseline_bytes(repositories, a, overrides) == baseline_bytes(repositories, b, other),
        baseline_bytes(repositories, a, overrides).len() <= FRAMED_LIMIT,
    ensures
        operation_entities(a.operations).len() == operation_entities(b.operations).len(),
        forall|i: int|
            0 <= i < operation_entities(a.operations).len() ==> (#[trigger] operation_entities(a.operations)[i]).id == operation_entities(
                b.operations,
            )[i].id,
        a.observations == b.observations,
        a.diagnostics.len() == b.diagnostics.len(),
        forall|i: int|
            0 <= i < a.diagnostics.len() ==> grpc_diagnostic_texts(#[trigger] a.diagnostics[i]) == grpc_diagnostic_texts(b.diagnostics[i]),
        forall|o: OverrideModel| #[trigger] override_counts(overrides, o) <==> override_counts(other, o),
{
    resolution_are_items(repositories, a, overrides);
    resolution_are_items(repositories, b, other);
    let (x, y) = (resolution_items(a, overrides), resolution_items(b, other));
    same_before(repository_part(repositories), items_bytes(x), items_bytes(y));
    assert(items_bytes(x).len() <= (repository_part(repositories) + items_bytes(x)).len());
    assert forall|i: int| 0 <= i < x.len() implies is_resolved(#[trigger] x[i]) by {
        resolution_item_is_resolved(a, overrides, i);
    }
    assert forall|i: int| 0 <= i < y.len() implies is_resolved(#[trigger] y[i]) by {
        resolution_item_is_resolved(b, other, i);
    }
    resolved_items_are_told_apart(x, y);
    resolved_sorts(operation_items(a), bound_items(a), override_items(overrides), report_items(a));
    resolved_sorts(operation_items(b), bound_items(b), override_items(other), report_items(b));
    same_resolution_items(a, overrides, b, other);
    same_override_items(overrides, other);
    overrides_by_map(overrides, other);
}

proof fn resolved_items_are_told_apart(x: Seq<Item>, y: Seq<Item>)
    requires
        forall|i: int| 0 <= i < x.len() ==> is_resolved(#[trigger] x[i]),
        forall|i: int| 0 <= i < y.len() ==> is_resolved(#[trigger] y[i]),
        items_bytes(x) == items_bytes(y),
        items_bytes(x).len() <= FRAMED_LIMIT,
    ensures
        x == y,
{
    assert forall|i: int| 0 <= i < x.len() implies (#[trigger] x[i]).texts.len() > 0 by {
        resolved_are_told(x[i], x[i]);
    }
    assert forall|i: int| 0 <= i < y.len() implies (#[trigger] y[i]).texts.len() > 0 by {
        resolved_are_told(y[i], y[i]);
    }
    assert forall|i: int, j: int| 0 <= i < x.len() && 0 <= j < y.len() implies told(#[trigger] x[i], #[trigger] y[j], FRAMED_LIMIT as int) by {
        resolved_are_told(x[i], y[j]);
    }
    items_are_told_apart(x, y, FRAMED_LIMIT as int);
}

proof fn same_resolution_items(a: ResolutionModel, overrides: Seq<OverrideModel>, b: ResolutionModel, other: Seq<OverrideModel>)
    requires
        resolution_items(a, overrides) == resolution_items(b, other),
        forall|i: int| 0 <= i < operation_items(a).len() ==> is_entity(#[trigger] operation_items(a)[i]),
        forall|i: int| 0 <= i < operation_items(b).len() ==> is_entity(#[trigger] operation_items(b)[i]),
        forall|i: int| 0 <= i < bound_items(a).len() ==> is_observation(#[trigger] bound_items(a)[i]),
        forall|i: int| 0 <= i < bound_items(b).len() ==> is_observation(#[trigger] bound_items(b)[i]),
        forall|i: int| 0 <= i < override_items(overrides).len() ==> is_override(#[trigger] override_items(overrides)[i]),
        forall|i: int| 0 <= i < override_items(other).len() ==> is_override(#[trigger] override_items(other)[i]),
        ({
            let rest = override_items(overrides) + report_items(a);
            let rest_b = override_items(other) + report_items(b);
            &&& forall|i: int| 0 <= i < (bound_items(a) + rest).len() ==> !is_entity(#[trigger] (bound_items(a) + rest)[i])
            &&& forall|i: int| 0 <= i < (bound_items(b) + rest_b).len() ==> !is_entity(#[trigger] (bound_items(b) + rest_b)[i])
            &&& forall|i: int| 0 <= i < rest.len() ==> !is_observation(#[trigger] rest[i])
            &&& forall|i: int| 0 <= i < rest_b.len() ==> !is_observation(#[trigger] rest_b[i])
        }),
        forall|i: int| 0 <= i < report_items(a).len() ==> !is_override(#[trigger] report_items(a)[i]),
        forall|i: int| 0 <= i < report_items(b).len() ==> !is_override(#[trigger] report_items(b)[i]),
    ensures
        operation_entities(a.operations).len() == operation_entities(b.operations).len(),
        forall|i: int|
            0 <= i < operation_entities(a.operations).len() ==> (#[trigger] operation_entities(a.operations)[i]).id == operation_entities(
                b.operations,
            )[i].id,
        a.observations == b.observations,
        a.diagnostics.len() == b.diagnostics.len(),
        forall|i: int|
            0 <= i < a.diagnostics.len() ==> grpc_diagnostic_texts(#[trigger] a.diagnostics[i]) == grpc_diagnostic_texts(b.diagnostics[i]),
        override_items(overrides) == override_items(other),
{
    let (rest, rest_b) = (override_items(overrides) + report_items(a), override_items(other) + report_items(b));
    sorts_are_told_apart(
        operation_items(a),
        bound_items(a) + rest,
        operation_items(b),
        bound_items(b) + rest_b,
        |item: Item| is_entity(item),
    );
    sorts_are_told_apart(bound_items(a), rest, bound_items(b), rest_b, |item: Item| is_observation(item));
    sorts_are_told_apart(
        override_items(overrides),
        report_items(a),
        override_items(other),
        report_items(b),
        |item: Item| is_override(item),
    );
    let (p, q) = (operation_entities(a.operations), operation_entities(b.operations));
    assert(operation_items(a).len() == p.len() && operation_items(b).len() == q.len());
    assert forall|i: int| 0 <= i < p.len() implies (#[trigger] p[i]).id == q[i].id by {
        assert(operation_items(a)[i].texts == entity_texts(p[i]));
        assert(operation_items(b)[i].texts == entity_texts(q[i]));
        assert(entity_texts(p[i])[0] == p[i].id && entity_texts(q[i])[0] == q[i].id);
    }
    let (u, v) = (a.observations, b.observations);
    assert(bound_items(a).len() == u.len() && bound_items(b).len() == v.len());
    assert forall|i: int| 0 <= i < u.len() implies u[i] == v[i] by {
        assert(bound_items(a)[i] == observation_item(u[i]));
        assert(bound_items(b)[i] == observation_item(v[i]));
        same_observation_item(u[i], v[i]);
    }
    assert(u =~= v);
    assert(report_items(a).len() == a.diagnostics.len() && report_items(b).len() == b.diagnostics.len());
    assert forall|i: int| 0 <= i < a.diagnostics.len() implies grpc_diagnostic_texts(#[trigger] a.diagnostics[i]) == grpc_diagnostic_texts(
        b.diagnostics[i],
    ) by {
        assert(report_items(a)[i].texts == grpc_diagnostic_texts(a.diagnostics[i]));
        assert(report_items(b)[i].texts == grpc_diagnostic_texts(b.diagnostics[i]));
    }
}

} // verus!
