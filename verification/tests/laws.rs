use beholder::baseline::baseline_fingerprint;
use beholder::changes::{decode_shown, next_observations, observation_changes};
use beholder::command::{Argument, Cell};
use beholder::contribution::{outcome, Contribution, ContributionStage};
use beholder::database::{ask_relations, create_relations};
use beholder::digest::{hash_line, hash_number, hash_string, hex_digest, hex_text};
use beholder::domain::{
    entity_kind, parse_confidence, parse_entity_kind, parse_entity_metadata, parse_provenance, parse_relation, parse_severity,
    severity_name, AnalysisDiagnosticSeverity, Confidence, DependencyRelation, EntityFact, EntityKind, EntityMetadata,
    GrpcBindingRole, Observation, ProtoTypeKind, Provenance, RpcCardinality,
};
use beholder::enrichment::{
    decode_first_column, enrichment_owner_key, failure, valid_enrichment_owner_rule, EnrichmentOwner, EnrichmentPayload,
    EnrichmentPublishOutcome,
};
use beholder::grpc::resolve_grpc_bindings;
use beholder::normal::analyzed_state;
use beholder::records::{
    DependencyOverride, FactChanges, FactShard, GrpcBindingCandidate, LogicalRepository, RepositoryFacts, RepositoryState,
};
use beholder::revisions::{ask_previous, decode_published_state, publish_repository, reusable_current_state};
use beholder::rows::{higher_of, whole_bits, whole_number, InspectionResult, InspectionValue};
use beholder::semantics::{selected_baseline_semantics, StoredError};
use beholder::shards::{check_shards, replace_fact_shards};
use beholder::sorted::{sorted, SortedMap};
use beholder::writes::{distinct_observations, store_observations};

fn string(text: &str) -> InspectionValue {
    InspectionValue::String(text.to_owned())
}

fn answer(rows: Vec<Vec<InspectionValue>>) -> InspectionResult {
    InspectionResult { headers: Vec::new(), rows, next: None }
}

fn calls(from: &str, to: &str, evidence: &str) -> Observation {
    Observation::dependency(from, DependencyRelation::Calls, to, evidence)
}

fn entity(id: &str, kind: EntityKind) -> EntityFact {
    EntityFact { id: id.to_owned(), kind, metadata: None }
}

fn facts(repository: &str, fingerprint: &str, entities: Vec<EntityFact>, observations: Vec<Observation>) -> RepositoryFacts {
    RepositoryFacts {
        state: RepositoryState {
            repository: LogicalRepository { identity: repository.to_owned() },
            head: None,
            fingerprint: fingerprint.to_owned(),
        },
        analysis_identity: "analysis".to_owned(),
        incomplete: false,
        diagnostics: Vec::new(),
        entities,
        grpc_bindings: Vec::new(),
        observations,
    }
}

fn shard(owner: &str, version: &str) -> FactShard {
    FactShard {
        producer: "rust".to_owned(),
        repository: "repo".to_owned(),
        owner: owner.to_owned(),
        version: version.to_owned(),
        entities: vec![entity(owner, EntityKind::Callable)],
        observations: vec![calls(owner, "target", "a.rs:1"), calls(owner, "other", "a.rs:2")],
    }
}

#[test]
fn names_of_kinds_can_be_read_back() {
    for kind in [EntityKind::Callable, EntityKind::GrpcOperation, EntityKind::ProtoType, EntityKind::UnityPrefab] {
        assert_eq!(parse_entity_kind(entity_kind(kind)), Ok(kind));
    }
    assert!(parse_entity_kind("nothing").is_err());
    for severity in [AnalysisDiagnosticSeverity::KnownLimitation, AnalysisDiagnosticSeverity::Warning] {
        assert_eq!(parse_severity(Some(severity_name(severity))), Some(severity));
    }
    assert_eq!(parse_severity(None), None);
    assert_eq!(
        parse_entity_metadata("proto_type:message"),
        Ok(Some(EntityMetadata::ProtoType { kind: ProtoTypeKind::Message }))
    );
    assert_eq!(parse_entity_metadata(""), Ok(None));
    assert!(parse_entity_metadata("proto_type:thing").is_err());
    assert!(parse_relation("likes").is_err());
    assert_eq!(parse_provenance("ast"), Ok(Provenance::Ast));
    assert!(parse_provenance("rumour").is_err());
    assert_eq!(parse_confidence(0.6f64.to_bits()), Ok(Confidence::Inferred));
    assert_eq!(parse_confidence(1.0f64.to_bits()), Ok(Confidence::Exact));
    assert_eq!(parse_confidence(0.5f64.to_bits()), Err(0.5f64.to_bits()));
}

#[test]
fn whole_numbers_are_stored_as_floats() {
    for value in [0i64, 1, -1, 7, -12, 1 << 53, i64::MAX, i64::MIN, (1 << 53) + 1] {
        assert_eq!(whole_bits(value), (value as f64).to_bits());
    }
    assert_eq!(whole_number(3.0f64.to_bits()), Some(3));
    assert_eq!(whole_number(0.5f64.to_bits()), None);
    assert_eq!(higher_of(0.6f64.to_bits(), 1.0f64.to_bits()), 1.0f64.to_bits());
}

#[test]
fn digests_are_written_in_hexadecimal() {
    assert_eq!(hex_text(&vec![0x00, 0x0f, 0xa5]), "000fa5");
    assert_eq!(
        hex_digest(&b"abc".to_vec()),
        "ba7816bf8f01cfea414140de5dae2223b00361a396177a9cb410ff61f20015ad"
    );
    let mut bytes: Vec<u8> = Vec::new();
    hash_number(&mut bytes, 258);
    assert_eq!(bytes, [2, 1, 0, 0, 0, 0, 0, 0]);
    hash_line(&mut bytes, 3);
    assert_eq!(bytes[8..], [3, 0, 0, 0]);
    let mut framed: Vec<u8> = Vec::new();
    hash_string(&mut framed, "ab");
    assert_eq!(framed, [2, 0, 0, 0, 0, 0, 0, 0, 97, 98]);
}

#[test]
fn analyzed_states_ignore_the_order_of_facts() {
    let first = facts(
        "repo",
        "one",
        vec![entity("a", EntityKind::Callable), entity("b", EntityKind::Namespace)],
        vec![calls("a", "b", "a.rs:1"), calls("b", "a", "b.rs:1")],
    );
    let second = facts(
        "repo",
        "one",
        vec![entity("b", EntityKind::Namespace), entity("a", EntityKind::Callable)],
        vec![calls("b", "a", "b.rs:1"), calls("a", "b", "a.rs:1")],
    );
    assert_eq!(analyzed_state(&first), analyzed_state(&second));
    let other = facts("repo", "one", Vec::new(), vec![calls("a", "b", "a.rs:2")]);
    assert_ne!(analyzed_state(&first), analyzed_state(&other));
    assert_eq!(
        analyzed_state(&facts("repo", "one", vec![entity("a", EntityKind::Callable)], vec![calls("a", "b", "a.rs:1")])),
        "one:deaa4648c4ed7248b5e1135e0c051c722b2fbccd71ec04e18ea375022eacd5d8"
    );
}

#[test]
fn baselines_ignore_the_order_in_which_overrides_come() {
    let override_for = |from: &str| DependencyOverride {
        from: from.to_owned(),
        relation: DependencyRelation::Calls,
        unresolved_to: "call://x".to_owned(),
        resolved_to: "x".to_owned(),
        evidence: "a.rs:1".to_owned(),
        confidence: Confidence::Exact,
        provenance: Provenance::Ast,
    };
    let repositories = vec![facts("repo", "one", Vec::new(), vec![calls("a", "call://x", "a.rs:1")])];
    let resolution = resolve_grpc_bindings(&repositories);
    let forth = baseline_fingerprint(&repositories, &resolution, &vec![override_for("a"), override_for("b")]);
    let back = baseline_fingerprint(&repositories, &resolution, &vec![override_for("b"), override_for("a")]);
    assert_eq!(forth, back);
    assert_ne!(forth, baseline_fingerprint(&repositories, &resolution, &vec![override_for("a")]));
}

#[test]
fn repeated_observations_are_stored_once() {
    let twice = vec![calls("a", "b", "a.rs:1"), calls("c", "b", "c.rs:1"), calls("a", "b", "a.rs:2")];
    let distinct = distinct_observations(&twice);
    assert_eq!(distinct.len(), 2);
    assert_eq!(distinct[0].evidence, "a.rs:2");
    for command in store_observations("state", &twice) {
        for (_, argument) in &command.arguments {
            if let Argument::Rows(rows) = argument {
                assert_eq!(rows.len(), 2);
            }
        }
    }
}

#[test]
fn publishing_a_repository_again_changes_nothing() {
    let published = facts("repo", "one", Vec::new(), vec![calls("a", "b", "a.rs:1")]);
    let (changed, commands) = publish_repository(&published, &answer(Vec::new()), &answer(Vec::new())).unwrap();
    assert!(changed);
    assert!(!commands.is_empty());
    assert!(ask_previous(&published).script.contains("repository_revision"));
    let unnamed = RepositoryFacts { analysis_identity: String::new(), ..facts("repo", "one", Vec::new(), Vec::new()) };
    assert_eq!(
        publish_repository(&unnamed, &answer(Vec::new()), &answer(Vec::new())).err().as_deref(),
        Some("repository analysis identity must not be empty")
    );
    assert_eq!(decode_published_state(&vec![vec![string("repo"), string("one:abc")]]), Ok(Some("one:abc".to_owned())));
    assert_eq!(decode_published_state(&Vec::new()), Ok(None));
    assert!(decode_published_state(&vec![vec![string("repo"), InspectionValue::Integer(1)]]).is_err());
}

#[test]
fn shards_are_counted_by_owner() {
    let selected = |version: &str| answer(vec![vec![string("rust"), string("repo"), string("a"), string(version)]]);
    let (changes, commands) = replace_fact_shards("main", &vec![shard("a", "1"), shard("b", "1")], &selected("1")).unwrap();
    assert_eq!(changes, FactChanges { inserted: 2, updated: 0, removed: 0, unchanged: 2 });
    assert!(!commands.is_empty());
    let (changes, _) = replace_fact_shards("main", &vec![shard("a", "2")], &selected("1")).unwrap();
    assert_eq!(changes, FactChanges { inserted: 0, updated: 2, removed: 0, unchanged: 0 });
    let (changes, _) = replace_fact_shards("main", &Vec::new(), &selected("1")).unwrap();
    assert_eq!(changes, FactChanges { inserted: 0, updated: 0, removed: 1, unchanged: 0 });
    let (_, commands) = replace_fact_shards("main", &vec![shard("a", "1")], &selected("1")).unwrap();
    assert!(commands.is_empty());
    assert!(replace_fact_shards("main", &Vec::new(), &answer(vec![vec![InspectionValue::Null]])).is_err());
}

#[test]
fn shards_need_distinct_owners_and_a_version() {
    assert_eq!(check_shards(&vec![shard("a", "1"), shard("b", "1")]), None);
    assert_eq!(
        check_shards(&vec![shard("a", "")]).as_deref(),
        Some("fact shard publication scope and version must not be empty")
    );
    assert_eq!(
        check_shards(&vec![shard("a", "1"), shard("b", "1"), shard("a", "2")]).as_deref(),
        Some("fact shard owners must be unique within a publication: rust/repo/a (2)")
    );
}

#[test]
fn changes_account_for_each_observation() {
    let row = |from: &str, to: &str, evidence: &str| vec![string(from), string("calls"), string(to), string(evidence)];
    let current = decode_shown(&vec![row("a", "b", "a.rs:1"), row("c", "b", "c.rs:1")]).unwrap();
    let repositories =
        vec![facts("repo", "one", Vec::new(), vec![calls("a", "b", "a.rs:2"), calls("d", "call://b", "d.rs:1")])];
    let overrides = vec![DependencyOverride {
        from: "d".to_owned(),
        relation: DependencyRelation::Calls,
        unresolved_to: "call://b".to_owned(),
        resolved_to: "b".to_owned(),
        evidence: "d.rs:1".to_owned(),
        confidence: Confidence::Exact,
        provenance: Provenance::Ast,
    }];
    let next = next_observations(&repositories, &Vec::new(), &Vec::new(), &overrides);
    assert!(next.contains_key(&vec!["d".to_owned(), "calls".to_owned(), "b".to_owned()]));
    assert_eq!(observation_changes(&current, &next), FactChanges { inserted: 1, updated: 1, removed: 1, unchanged: 0 });
    assert_eq!(observation_changes(&next, &next), FactChanges { inserted: 0, updated: 0, removed: 0, unchanged: 2 });
    assert!(decode_shown(&vec![vec![InspectionValue::Null, string("calls"), string("b"), string("e")]]).is_err());
}

#[test]
fn each_candidate_is_bound_or_reported() {
    let candidate = |method: &str, cardinality: RpcCardinality| GrpcBindingCandidate {
        local_symbol: format!("repo://app/rust/{method}"),
        role: GrpcBindingRole::Client,
        service: "pricing.v1.Pricing".to_owned(),
        method: method.to_owned(),
        cardinality,
        evidence: "src/client.rs:1".to_owned(),
        confidence: Confidence::Exact,
        provenance: Provenance::Ast,
    };
    let mut application = facts("app", "one", Vec::new(), Vec::new());
    application.grpc_bindings = vec![
        candidate("GetQuote", RpcCardinality::Unary),
        candidate("Missing", RpcCardinality::Unary),
        candidate("Watch", RpcCardinality::ServerStreaming),
    ];
    let method = |name: &str, cardinality: RpcCardinality| EntityFact {
        id: format!("proto-method://pricing.v1.Pricing/{name}"),
        kind: EntityKind::ProtoMethod,
        metadata: Some(EntityMetadata::ProtoMethod { cardinality }),
    };
    let contracts = facts(
        "contracts",
        "one",
        vec![method("GetQuote", RpcCardinality::Unary), method("Watch", RpcCardinality::ServerStreaming)],
        Vec::new(),
    );
    let resolution = resolve_grpc_bindings(&vec![application, contracts]);
    assert_eq!(resolution.operations.keys, ["grpc://pricing.v1.Pricing/GetQuote"]);
    assert_eq!(resolution.observations.len(), 2);
    let codes: Vec<&str> = resolution.diagnostics.iter().map(|diagnostic| diagnostic.code).collect();
    assert_eq!(codes, ["grpc.contract_unmatched", "grpc.cardinality_unsupported"]);
}

#[test]
fn owner_keys_tell_their_parts_apart() {
    assert_ne!(enrichment_owner_key("a", "bc"), enrichment_owner_key("ab", "c"));
    assert_eq!(enrichment_owner_key("rust", "example/a"), "4:rustexample/a");
    assert!(valid_enrichment_owner_rule().contains("analysis_revision"));
}

#[test]
fn superseded_contributions_stop_at_once() {
    let payload =
        EnrichmentPayload { entities: Vec::new(), observations: Vec::new(), overrides: Vec::new(), diagnostics: Vec::new() };
    let contribution = Contribution {
        view: "main",
        repository: "repo",
        input_fingerprint: "new",
        owner: EnrichmentOwner { analyzer: "rust", version: "1" },
        payload: &payload,
    };
    let started = contribution.start().unwrap();
    let told = contribution.receive(started, &answer(vec![vec![string("old")]])).unwrap();
    assert!(matches!(told.stage, ContributionStage::Superseded));
    assert_eq!(outcome(told), Some(EnrichmentPublishOutcome::Superseded));
    assert!(contribution.action(told).run.is_empty());
    assert!(contribution.action(told).ask.is_none());
    assert!(failure(&ask_relations(), "disk full").contains("disk full"));
    assert_eq!(decode_first_column(&vec![vec![string("a")]], "no text"), Ok(vec!["a".to_owned()]));
    assert_eq!(decode_first_column(&vec![vec![InspectionValue::Null]], "no text"), Err("no text".to_owned()));
}

#[test]
fn selected_observations_bring_their_entities() {
    let entities = answer(vec![
        vec![string("a"), string("callable"), string("")],
        vec![string("b"), string("kafka_topic"), string("")],
        vec![string("c"), string("callable"), string("")],
    ]);
    let observation = |confidence: f64| {
        answer(vec![vec![
            string("a"),
            string("publishes"),
            string("b"),
            string("a.rs:1"),
            InspectionValue::Float(confidence.to_bits()),
            string("ast"),
        ]])
    };
    let publishes = parse_relation("publishes").unwrap();
    let (chosen, observed) =
        selected_baseline_semantics(&entities, &observation(1.0), &Vec::new(), &vec![publishes]).unwrap();
    let ids: Vec<&str> = chosen.iter().map(|entity| entity.id.as_str()).collect();
    assert_eq!(ids, ["a", "b"]);
    assert_eq!(observed.len(), 1);
    let refused = selected_baseline_semantics(&entities, &observation(0.25), &Vec::new(), &vec![publishes]);
    assert!(matches!(refused, Err(StoredError::Confidence(bits)) if bits == 0.25f64.to_bits()));
}

#[test]
fn relations_that_exist_are_not_created() {
    let none = create_relations(&answer(Vec::new()), true);
    let one = create_relations(&answer(vec![vec![string("state_entity")]]), true);
    assert_eq!(one.len() + 1, none.len());
    assert!(one.iter().all(|command| !command.script.contains(":create state_entity ")));
}

#[test]
fn maps_are_kept_in_ascending_order() {
    let mut map: SortedMap<String, u32> = SortedMap::new();
    for (key, value) in [("b", 2), ("a", 1), ("c", 3), ("a", 4)] {
        map.insert(key.to_owned(), value);
    }
    assert_eq!(map.keys, ["a", "b", "c"]);
    assert_eq!(map.get(&"a".to_owned()), Some(&4));
    map.insert_absent("a".to_owned(), 9);
    assert_eq!(map.get(&"a".to_owned()), Some(&4));
    assert_eq!(map.remove(&"b".to_owned()), Some(2));
    assert!(!map.contains_key(&"b".to_owned()));
    assert_eq!(sorted(vec!["b".to_owned(), "a".to_owned()]), ["a", "b"]);
    assert!(matches!(Cell::Boolean(true), Cell::Boolean(true)));
}

fn observed(from: &str, to: &str, evidence: &str, confidence: InspectionValue) -> Vec<InspectionValue> {
    vec![string(from), string("calls"), string(to), string(evidence), confidence, string("ast")]
}

#[test]
fn stored_facts_can_be_read_back() {
    let analyzed = facts(
        "repo",
        "one",
        vec![entity("repo/a", EntityKind::Callable), entity("repo/b", EntityKind::Callable)],
        vec![calls("repo/a", "repo/b", "a.rs:1"), calls("repo/c", "repo/b", "c.rs:1"), calls("repo/a", "repo/b", "a.rs:2")],
    );
    let exact = || InspectionValue::Float(1.0f64.to_bits());
    let named = |id: &str| vec![string(id), string("callable"), string("")];
    let kept = answer(vec![observed("repo/c", "repo/b", "c.rs:1", exact()), observed("repo/a", "repo/b", "a.rs:2", exact())]);
    let entities = answer(vec![named("repo/b"), named("repo/a")]);
    let none = answer(Vec::new());
    assert_eq!(reusable_current_state(&analyzed, &kept, &entities, &none), Ok(true));

    let replaced = answer(vec![observed("repo/c", "repo/b", "c.rs:1", exact()), observed("repo/a", "repo/b", "a.rs:1", exact())]);
    assert_eq!(reusable_current_state(&analyzed, &replaced, &entities, &none), Ok(false));
    assert_eq!(reusable_current_state(&analyzed, &kept, &answer(vec![named("repo/b")]), &none), Ok(false));

    let unknown = answer(vec![observed("repo/c", "repo/b", "c.rs:1", string("high"))]);
    assert_eq!(
        reusable_current_state(&analyzed, &unknown, &entities, &none),
        Err("stored observation contains a non-float confidence".to_owned())
    );
}
