use beholder::dto::{EntityKind, EntityOrigin};
use beholder::evidence::{DecodedEvidence, SourcePosition, SourceRange};
use beholder::graph::GraphBuilder;
use beholder::ids::{entity_name, entity_ref, infer_kind, is_test_entity, TextSet};
use beholder::rows::InspectionValue;
use beholder::semantic::{
    context, dependencies, impact, search_entities, search_rank, trace, traverse_graph, workspace_topology, Acquisition, ContextRow,
    GraphDirection, TraverseGraphQuery,
};
use beholder::sorted::SortedMap;
use beholder::traversal::{PathQuery, PathSearch, PathTermination, TruncationReasons};

fn string(text: &str) -> InspectionValue {
    InspectionValue::String(text.to_owned())
}

fn one() -> u64 {
    1.0f64.to_bits()
}

fn at_line(path: &str, line: u32) -> DecodedEvidence {
    DecodedEvidence { path: Some(path.to_owned()), line: Some(line), range: None, detail: None, contexts: Vec::new() }
}

fn occurrence(character: u32) -> DecodedEvidence {
    DecodedEvidence {
        path: Some("src/lib.rs".to_owned()),
        line: Some(2),
        range: Some(SourceRange {
            start: SourcePosition { line: 1, character },
            end: SourcePosition { line: 1, character: character + 4 },
        }),
        detail: None,
        contexts: vec!["if/then 1:0-2:0".to_owned()],
    }
}

fn occurrences() -> Vec<DecodedEvidence> {
    vec![occurrence(4), occurrence(14)]
}

fn texts() -> Vec<String> {
    vec!["first occurrence".to_owned(), "second occurrence".to_owned()]
}

fn facts(ids: &[&str]) -> Vec<Vec<InspectionValue>> {
    let mut rows: Vec<Vec<InspectionValue>> = Vec::new();
    for id in ids {
        rows.push(vec![string(id), string("callable"), string("")]);
    }
    rows
}

fn edge_rows(from: &str, to: &str) -> Vec<Vec<InspectionValue>> {
    let mut rows: Vec<Vec<InspectionValue>> = Vec::new();
    for evidence in texts() {
        rows.push(vec![
            string("edge"),
            string(""),
            string(""),
            string(from),
            string(to),
            string("calls"),
            InspectionValue::String(evidence),
            InspectionValue::Float(one()),
            string("ast"),
        ]);
    }
    rows
}

fn set(list: &[&str]) -> TextSet {
    let mut set: TextSet = SortedMap::new();
    for item in list {
        set.insert((*item).to_owned(), ());
    }
    set
}

#[test]
fn every_evidence_query_preserves_same_line_occurrences() {
    let from = "repo://example/repo/rust/caller";
    let to = "repo://example/repo/rust/target";
    let entities = facts(&[from, to]);
    let mut rows: Vec<ContextRow> = Vec::new();
    for evidence in texts() {
        rows.push(ContextRow {
            direction: "outgoing".to_owned(),
            relation: "calls".to_owned(),
            related: to.to_owned(),
            evidence,
            confidence: one(),
            provenance: "ast".to_owned(),
        });
    }
    let found = context(from, &rows, &occurrences(), &entities).unwrap();
    let expected = format!("{:?}", found.edges[0].evidence);
    assert_eq!(found.edges[0].evidence.len(), 2);
    assert_ne!(found.edges[0].evidence[0].range, found.edges[0].evidence[1].range);

    let below = dependencies(from, 8, &edge_rows(from, to), &occurrences(), &entities).unwrap();
    let above = impact(to, 8, &edge_rows(from, to), &occurrences(), &entities).unwrap();
    let path = trace(from, to, 8, &edge_rows(from, to), &occurrences(), &entities).unwrap();
    let query = TraverseGraphQuery {
        start: from.to_owned(),
        direction: GraphDirection::Dependencies,
        destination: Some(to.to_owned()),
        target_repositories: Vec::new(),
        max_hops: 8,
        max_paths: 50,
    };
    let none = set(&[]);
    let reachability: SortedMap<String, TextSet> = SortedMap::new();
    let acquired = Acquisition { incomplete: &none, repository_boundaries: &none, target_reachability: &reachability };
    let traversal = traverse_graph(&query, 10_000, &edge_rows(from, to), &occurrences(), &entities, &acquired).unwrap();
    let mut topology_rows: Vec<Vec<InspectionValue>> = Vec::new();
    for evidence in texts() {
        topology_rows.push(vec![
            string(from),
            string(to),
            string("calls"),
            InspectionValue::String(evidence),
            InspectionValue::Float(one()),
            string("ast"),
        ]);
    }
    let topology = workspace_topology(&topology_rows, &occurrences(), &entities).unwrap();

    for evidence in [
        &below.edges[0].evidence,
        &above.edges[0].evidence,
        &path.edges[0].evidence,
        &traversal.edges[0].evidence,
        &topology.edges[0].evidence,
    ] {
        assert_eq!(format!("{:?}", evidence), expected);
    }
}

#[test]
fn repository_filter_recognises_arbitrary_target_segments() {
    let start = "repo://example/a/semantic/generated";
    let query = PathQuery { destination: None, max_hops: 8, max_paths: 50, max_steps: 1000 };
    let targets = set(&["example/a"]);
    let none = set(&[]);
    let adjacent: SortedMap<String, Vec<(String, String)>> = SortedMap::new();
    let reachability: SortedMap<String, TextSet> = SortedMap::new();
    let mut search = PathSearch {
        query: &query,
        targets: &targets,
        adjacent: &adjacent,
        incomplete: &none,
        repository_boundaries: &none,
        target_reachability: &reachability,
        paths: Vec::new(),
        reasons: TruncationReasons::new(),
        steps: 0,
    };

    assert!(search.can_follow(&vec![start.to_owned()], "repo://example/a/custom/entity"));
    assert!(!search.can_follow(&vec![start.to_owned()], "repo://example/b/custom/entity"));
    let mut nodes = vec![start.to_owned()];
    let mut edges: Vec<String> = Vec::new();
    search.visit(&mut nodes, &mut edges);

    assert_eq!(search.paths.len(), 1);
    assert_eq!(search.paths[0].nodes, [start]);
    assert_eq!(search.paths[0].termination, PathTermination::Leaf);
}

#[test]
fn entity_search_ranks_canonical_id_then_name_then_prefix() {
    let entities = facts(&["Run", "repo://example/rust/lib/Run", "RunLater", "repo://example/rust/lib/RunLater"]);
    let found = search_entities("Run", 4, &entities).unwrap();
    let ids: Vec<&str> = found.iter().map(|entity| entity.id.as_str()).collect();
    assert_eq!(ids, ["Run", "repo://example/rust/lib/Run", "RunLater", "repo://example/rust/lib/RunLater"]);
}

#[test]
fn entity_search_stops_at_the_limit() {
    let entities = facts(&["RunLater", "Run", "repo://example/rust/lib/Run"]);
    let found = search_entities("Run", 2, &entities).unwrap();
    assert_eq!(found.len(), 2);
    assert_eq!(found[0].id, "Run");
    assert!(search_rank(&found[0], "Run") < search_rank(&found[1], "Run"));
}

#[test]
fn typed_entity_facts_override_relation_hints() {
    let mut graph = GraphBuilder::new();
    let mut known = SortedMap::new();
    known.insert("repo://example/rust/lib".to_owned(), (EntityKind::Namespace, None));
    known.insert("repo://example/rust/unrelated".to_owned(), (EntityKind::Callable, None));
    graph.hint_facts(known);
    graph.hint("repo://example/rust/lib", EntityKind::Callable);

    let graph = graph.finish();
    assert_eq!(graph.entity("repo://example/rust/lib").kind, EntityKind::Namespace);
    assert_eq!(graph.nodes.len(), 1);
}

#[test]
fn treats_unity_callbacks_as_external_dependencies() {
    assert_eq!(
        entity_ref("unity://UnityEngine.MonoBehaviour/Update()", EntityKind::Callable).origin,
        EntityOrigin::ExternalDependency
    );
}

#[test]
fn keeps_strongest_confidence_for_duplicate_edges() {
    let mut graph = GraphBuilder::new();
    graph
        .add_edge("a", "b", "calls", "a.rs:1", &at_line("a.rs", 1), 0.6f64.to_bits(), "unique_name_heuristic")
        .unwrap();
    graph.add_edge("a", "b", "calls", "a.rs:2", &at_line("a.rs", 2), 1.0f64.to_bits(), "ast").unwrap();

    let graph = graph.finish();
    assert_eq!(graph.edges[0].confidence, 1.0f64.to_bits());
    assert_eq!(graph.edges[0].evidence.len(), 2);
}

#[test]
fn edges_of_unknown_relations_are_refused() {
    let mut graph = GraphBuilder::new();
    assert!(graph.add_edge("a", "b", "likes", "a.rs:1", &at_line("a.rs", 1), one(), "ast").is_err());
}

#[test]
fn attributes_evidence_to_a_repository_owned_target() {
    let mut graph = GraphBuilder::new();
    graph
        .add_edge(
            "grpc://example.Service/Call",
            "repo://example/server/elixir/Example.Server/call/2",
            "implemented_by",
            "lib/server.ex:4",
            &at_line("lib/server.ex", 4),
            1.0f64.to_bits(),
            "generated",
        )
        .unwrap();

    let graph = graph.finish();
    assert_eq!(graph.edges[0].evidence[0].repository.as_deref(), Some("example/server"));
}

#[test]
fn maps_elixir_modules_and_functions() {
    let module_id = "repo://github.com/example/elixir/elixir/Example.Items";
    let module = entity_ref(module_id, infer_kind(module_id));
    assert_eq!(module.kind, EntityKind::Namespace);
    assert_eq!(module.name, "Example.Items");
    assert_eq!(module.repository.as_deref(), Some("github.com/example/elixir"));

    let function_id = format!("{module_id}/activate/1");
    let function = entity_ref(&function_id, infer_kind(&function_id));
    assert_eq!(function.kind, EntityKind::Callable);
    assert_eq!(function.name, "activate/1");
    assert_eq!(function.repository.as_deref(), Some("github.com/example/elixir"));

    let source = entity_ref(
        "repo://github.com/example/elixir/elixir-source/lib/elixir/lib/example.ex",
        EntityKind::Namespace,
    );
    assert_eq!(source.repository.as_deref(), Some("github.com/example/elixir"));
}

#[test]
fn maps_typescript_repositories() {
    let entity = entity_ref("repo://github.com/example/app/typescript/src/client/run", EntityKind::Callable);
    assert_eq!(entity.repository.as_deref(), Some("github.com/example/app"));
}

#[test]
fn maps_generated_definitions_and_fields_to_generated_entities() {
    let mut graph = GraphBuilder::new();
    graph
        .add_edge(
            "repo://example/elixir-source/example.pb.ex",
            "repo://example/elixir/Example.Message",
            "defines",
            "example.pb.ex:1",
            &at_line("example.pb.ex", 1),
            1.0f64.to_bits(),
            "generated",
        )
        .unwrap();
    graph
        .add_edge(
            "repo://example/elixir/Example.Message/field/id",
            "repo://example/elixir/Example.Message",
            "field_of",
            "example.pb.ex:2",
            &at_line("example.pb.ex", 2),
            1.0f64.to_bits(),
            "generated",
        )
        .unwrap();

    let graph = graph.finish();
    for id in ["repo://example/elixir/Example.Message", "repo://example/elixir/Example.Message/field/id"] {
        assert_eq!(graph.nodes.iter().find(|node| node.id == id).unwrap().origin, EntityOrigin::Generated);
    }
}

#[test]
fn recognises_rust_and_javascript_test_segments() {
    assert!(is_test_entity("repo://app/rust/src/tests/checkout"));
    assert!(is_test_entity("repo://app/typescript/src/checkout.spec/test"));
    assert!(is_test_entity("repo://app/javascript/specs/checkout"));
    assert!(is_test_entity("repo://app/rust/src/config/test_load"));
    assert!(is_test_entity("repo://app/typescript/src/checkout_spec"));
    assert!(is_test_entity("repo://app/elixir/test/checkout_test.exs/can_pay"));
    assert!(is_test_entity("repo://app/elixir/MyApp.CheckoutTest/can_pay/1"));
    assert!(is_test_entity("repo://app/typescript/src/checkout.test.ts/canPay"));
    assert!(is_test_entity("repo://app/go/checkout_test.go/TestCheckout"));
    assert!(!is_test_entity("repo://app/rust/src/checkout"));
}

#[test]
fn names_are_the_last_part_of_an_identifier() {
    assert_eq!(entity_name("repo://app/rust/src/checkout"), "checkout");
    assert_eq!(entity_name("kafka://orders"), "orders");
}

#[test]
fn traces_take_the_shortest_way() {
    let rows: Vec<Vec<InspectionValue>> = [("a", "b"), ("b", "d"), ("a", "c"), ("c", "e"), ("e", "d")]
        .iter()
        .map(|(from, to)| {
            vec![
                string("edge"),
                string(""),
                string(""),
                string(from),
                string(to),
                string("calls"),
                string("x.rs:1"),
                InspectionValue::Float(one()),
                string("ast"),
            ]
        })
        .collect();
    let decoded: Vec<DecodedEvidence> = (0..5).map(|_| at_line("x.rs", 1)).collect();
    let found = trace("a", "d", 8, &rows, &decoded, &facts(&["a", "b", "c", "d", "e"])).unwrap();
    assert_eq!(found.path.unwrap().nodes, ["a", "b", "d"]);
    assert!(!found.truncated);

    let short = trace("a", "d", 1, &rows, &decoded, &facts(&["a", "b", "c", "d", "e"])).unwrap();
    assert!(short.path.is_none());
    assert!(short.truncated);

    let below = dependencies("a", 8, &rows, &decoded, &facts(&["a", "b", "c", "d", "e"])).unwrap();
    let reached: Vec<(&str, u32)> = below.reached.iter().map(|step| (step.entity.as_str(), step.hops)).collect();
    assert_eq!(reached, [("b", 1), ("c", 1), ("d", 2), ("e", 2)]);
}

#[test]
fn enumerations_without_limits_find_all_simple_paths() {
    let query = PathQuery { destination: None, max_hops: 8, max_paths: 50, max_steps: 1000 };
    let none = set(&[]);
    let mut adjacent: SortedMap<String, Vec<(String, String)>> = SortedMap::new();
    let mut link = |from: &str, to: &[&str]| {
        let list = to.iter().map(|to| ((*to).to_owned(), format!("{from}-{to}"))).collect();
        adjacent.insert(from.to_owned(), list);
    };
    link("a", &["b", "c"]);
    link("b", &["c"]);
    link("c", &["a", "d"]);
    link("d", &["a"]);
    let reachability: SortedMap<String, TextSet> = SortedMap::new();
    let mut search = PathSearch {
        query: &query,
        targets: &none,
        adjacent: &adjacent,
        incomplete: &none,
        repository_boundaries: &none,
        target_reachability: &reachability,
        paths: Vec::new(),
        reasons: TruncationReasons::new(),
        steps: 0,
    };
    search.visit(&mut vec!["a".to_owned()], &mut Vec::new());
    assert!(!search.reasons.any());
    let found: Vec<String> = search.paths.iter().map(|path| path.nodes.join(" ")).collect();
    assert_eq!(found, ["a b c d", "a c d"]);
    assert!(search.paths.iter().all(|path| path.termination == PathTermination::Cycle));
    assert_eq!(search.paths[0].edges, ["a-b", "b-c", "c-d"]);
}
