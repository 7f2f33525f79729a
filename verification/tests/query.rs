use beholder::acquisition::Acquiring;
use beholder::closure::Closure;
use beholder::context::{marks_generated_origin, ContextSource, OriginSearch};
use beholder::dependency::{IncomingResolvedDependencies, OutgoingResolvedDependencies, ResolvedDependencyRow};
use beholder::domain::{AnalysisDiagnosticSeverity, DependencyRelation, SemanticRelation};
use beholder::dto::AnalysisCompleteness;
use beholder::facts::{search_candidate, BaselineEntityFacts};
use beholder::filtered::{FilteredSearch, ForwardAcquisition};
use beholder::ids::TextSet;
use beholder::metadata::{
    analysis_revision, summary_metadata, AnalysisMetadataCompleteness, AnalysisMetadataDiagnosticCounts,
    AnalysisMetadataDiagnostics, AnalysisRevisionQuery,
};
use beholder::multipath::Multipath;
use beholder::observe::{collects_plan, query_plan, semantic_query_is_slow, time_left, warn_on_slow_semantic_query};
use beholder::graph::SemanticEdge;
use beholder::paths::{shortest_path, TraversalDirection};
use beholder::query::{run, QueryError, QuerySpec};
use beholder::reachability::{target_prefix, Reachability};
use beholder::requests::{
    check_revision, checkpoint, reclaim_command, reclaimed_pages, relevant_traversal_entities, told_pages, Checkpoint,
};
use beholder::rows::{InspectionResult, InspectionValue};
use beholder::semantic::ContextRow;
use beholder::sorted::SortedMap;

fn string(text: &str) -> InspectionValue {
    InspectionValue::String(text.to_owned())
}

fn answer(headers: &[&str], rows: Vec<Vec<InspectionValue>>) -> InspectionResult {
    InspectionResult { headers: headers.iter().map(|header| (*header).to_owned()).collect(), rows, next: None }
}

fn dependency(from: &str, to: &str) -> ResolvedDependencyRow {
    ResolvedDependencyRow {
        from: from.to_owned(),
        to: to.to_owned(),
        relation: "calls".to_owned(),
        evidence: "a.rs:1".to_owned(),
        confidence: 1.0f64.to_bits(),
        provenance: "ast".to_owned(),
    }
}

fn keys(set: &TextSet) -> Vec<&str> {
    set.keys.iter().map(|key| key.as_str()).collect()
}

#[test]
fn target_reachability_skips_a_repository_visited_by_start() {
    let start = "repo://example/a/rust/lib/start";
    let search = Reachability::start(start, vec!["example/a".to_owned()], TraversalDirection::Outgoing, 8, 10_000);
    assert!(search.is_done());
    assert_eq!(search.remaining_rows(), 10_000);
    let reachable = search.finish().unwrap();
    assert_eq!(keys(reachable.get(&start.to_owned()).unwrap()), ["example/a"]);
}

#[test]
fn target_reachability_follows_edges_back_to_the_start() {
    let start = "repo://example/a/rust/lib/start";
    let mut search = Reachability::start(start, vec!["example/b".to_owned()], TraversalDirection::Outgoing, 8, 10_000);
    assert!(!search.is_done());
    let seed = search.request("main");
    assert_eq!(seed.arguments[0].0, "view");
    search.receive(&vec![dependency("repo://example/a/rust/lib/middle", "repo://example/b/rust/lib/end")]);
    assert!(!search.is_done());
    search.receive(&vec![dependency(start, "repo://example/a/rust/lib/middle")]);
    while !search.is_done() {
        search.receive(&Vec::new());
    }
    let reachable = search.finish().unwrap();
    assert_eq!(keys(reachable.get(&start.to_owned()).unwrap()), ["example/b"]);
    assert_eq!(keys(reachable.get(&"repo://example/a/rust/lib/middle".to_owned()).unwrap()), ["example/b"]);
}

#[test]
fn targets_are_told_by_their_prefix() {
    assert_eq!(target_prefix("example/a"), "repo://example/a/");
}

#[test]
fn summary_analysis_metadata_counts_without_loading_details() {
    let incomplete =
        run::<AnalysisMetadataCompleteness>(answer(&["incomplete"], vec![vec![InspectionValue::Boolean(true)]])).unwrap();
    let counts = run::<AnalysisMetadataDiagnosticCounts>(answer(
        &["severity", "count(code)"],
        vec![vec![string("warning"), InspectionValue::Integer(2)]],
    ))
    .unwrap();
    let metadata = summary_metadata(&incomplete, &counts);

    assert_eq!(metadata.completeness, AnalysisCompleteness::Incomplete);
    assert!(metadata.diagnostics.is_empty());
    assert_eq!(metadata.diagnostic_counts.total, 2);
    assert_eq!(metadata.diagnostic_counts.warnings, 2);
}

#[test]
fn diagnostics_are_decoded_with_what_is_known_of_them() {
    let rows = run::<AnalysisMetadataDiagnostics>(answer(
        &["repository", "code", "severity", "path", "line", "detail"],
        vec![
            vec![string("repo"), string("a"), string("warning"), string("src/a.rs"), InspectionValue::Integer(3), string("why")],
            vec![
                string("repo"),
                string("b"),
                string("known_limitation"),
                string("src/b.rs"),
                InspectionValue::Integer(0),
                string(""),
            ],
        ],
    ))
    .unwrap();
    assert_eq!(rows[0].line, Some(3));
    assert_eq!(rows[0].detail.as_deref(), Some("why"));
    assert_eq!(rows[1].severity, AnalysisDiagnosticSeverity::KnownLimitation);
    assert_eq!(rows[1].line, None);
    assert_eq!(rows[1].detail, None);
}

#[test]
fn typed_query_rejects_an_incorrect_output_shape() {
    let error = run::<OutgoingResolvedDependencies>(answer(&["to", "from"], Vec::new())).unwrap_err();

    assert_eq!(
        error.message(),
        "Mnestic query traversal.outgoing.materialized failed: unexpected output headers: \
         expected [\"from\", \"to\", \"relation\", \"evidence\", \"confidence\", \
         \"provenance\"], got [\"to\", \"from\"]"
    );
}

#[test]
fn headers_are_quoted_in_complaints() {
    let error = run::<AnalysisRevisionQuery>(answer(&["a\"b\n"], Vec::new())).unwrap_err();
    assert_eq!(
        error.message(),
        "Mnestic query analysis_revision failed: unexpected output headers: expected [\"revision\"], got [\"a\\\"b\\n\"]"
    );
}

#[test]
fn analysis_revision_rejects_an_incorrect_row_width() {
    let error = run::<AnalysisRevisionQuery>(answer(&["revision"], vec![Vec::new()])).unwrap_err();

    assert_eq!(
        error.message(),
        "Mnestic query analysis_revision failed: unexpected row width at row 0: expected 1, got 0"
    );
}

#[test]
fn entity_facts_rejects_an_incorrect_output_shape() {
    let error = run::<BaselineEntityFacts>(answer(&["kind", "id", "metadata"], Vec::new())).unwrap_err();

    assert!(error.message().starts_with("Mnestic query entity_facts.baseline failed: unexpected output headers"));
}

#[test]
fn cells_of_the_wrong_type_are_refused() {
    let headers = ["from", "to", "relation", "evidence", "confidence", "provenance"];
    let text = run::<IncomingResolvedDependencies>(answer(
        &headers,
        vec![vec![
            string("a"),
            InspectionValue::Integer(1),
            string("calls"),
            string("a.rs:1"),
            InspectionValue::Float(1.0f64.to_bits()),
            string("ast"),
        ]],
    ));
    assert!(text.unwrap_err().message().starts_with("Mnestic query traversal.incoming.materialized failed: "));
    let number = run::<IncomingResolvedDependencies>(answer(
        &headers,
        vec![vec![string("a"), string("b"), string("calls"), string("a.rs:1"), string("1.0"), string("ast")]],
    ));
    assert!(number.is_err());
}

#[test]
fn query_errors_and_specs_hold_what_they_are_given() {
    let error = QueryError::new("some.query", "went wrong".to_owned());
    assert_eq!(error.message(), "Mnestic query some.query failed: went wrong");
    let spec = QuerySpec::new("some.query", "main", "?[x] <- [[1]]");
    assert_eq!((spec.operation, spec.view, spec.script), ("some.query", "main", "?[x] <- [[1]]"));
}

#[test]
fn revisions_are_counted_from_zero() {
    assert_eq!(analysis_revision(&Vec::new()), Ok(0));
    assert_eq!(analysis_revision(&vec![7]), Ok(7));
    assert_eq!(analysis_revision(&vec![-1]), Err("out of range integral type conversion attempted".to_owned()));
}

#[test]
fn semantic_query_warns_at_five_seconds() {
    assert!(!semantic_query_is_slow(4_999 * 1_000_000));
    assert!(semantic_query_is_slow(5 * 1_000_000_000));
}

#[test]
fn slow_reads_come_with_a_warning() {
    let (read, warning) = warn_on_slow_semantic_query("rows", 5_250 * 1_000_000);
    assert_eq!(read, "rows");
    assert_eq!(warning.unwrap().elapsed_ms, 5_250);
    assert!(warn_on_slow_semantic_query("rows", 10).1.is_none());
}

#[test]
fn disabled_query_span_skips_plan_collection() {
    assert!(!collects_plan(false, false, 0));
    assert!(!collects_plan(false, true, 60 * 1_000_000_000));
    assert!(collects_plan(true, true, 0));
    assert!(collects_plan(true, false, 1_000_000_000));
    assert!(!collects_plan(true, false, 999_999_999));
}

#[test]
fn deadlines_leave_the_time_before_them() {
    assert_eq!(time_left(3, 10), Some(7));
    assert_eq!(time_left(10, 10), None);
}

#[test]
fn plans_are_summed_up_by_operation() {
    let plan = answer(
        &["op", "ref"],
        vec![
            vec![string("load_stored"), string(":b")],
            vec![string("load_stored"), string(":a")],
            vec![string("stored_mat_join"), InspectionValue::Null],
            vec![string("stored_prefix_join"), string(":a")],
        ],
    );
    let summed = query_plan(&plan).unwrap();
    assert_eq!(summed.stored_loads, 2);
    assert_eq!(summed.materialized_joins, 1);
    assert_eq!(summed.prefix_joins, 1);
    assert_eq!(summed.loaded_relations, ":a,:b");
    assert!(query_plan(&answer(&["x"], Vec::new())).is_none());
}

#[test]
fn closures_follow_each_entity_once() {
    let mut closure = Closure::start("a", 8, TraversalDirection::Outgoing);
    assert!(!closure.is_done());
    closure.receive(vec![dependency("a", "b"), dependency("a", "c")]);
    assert!(!closure.is_done());
    closure.receive(vec![dependency("b", "a"), dependency("c", "b")]);
    assert!(closure.is_done());
    let found = closure.finish();
    let reached: Vec<(&str, i64)> = found
        .rows
        .iter()
        .filter(|row| row[0].as_str() == Some("state"))
        .map(|row| (row[1].as_str().unwrap(), row[2].as_i64().unwrap()))
        .collect();
    assert!(reached.len() <= 2);
    assert_eq!(found.rows.iter().filter(|row| row[0].as_str() == Some("edge")).count(), 4);
}

#[test]
fn acquisitions_stop_at_their_row_budget() {
    let mut search = Multipath::start("a", None, TraversalDirection::Outgoing, 8, 2);
    search.receive(vec![dependency("a", "b"), dependency("a", "c"), dependency("a", "d")]);
    assert!(search.is_done());
    let acquired = search.finish();
    assert_eq!(keys(&acquired.incomplete), ["a", "b", "c"]);
    assert_eq!(acquired.found.len(), 2);
}

#[test]
fn filtered_acquisitions_stay_in_reach_of_their_targets() {
    let start = "repo://example/a/rust/lib/start";
    let end = "repo://example/b/rust/lib/end";
    let aside = "repo://example/c/rust/lib/aside";
    let mut reachable: SortedMap<String, TextSet> = SortedMap::new();
    for id in [start, end] {
        let mut targets: TextSet = SortedMap::new();
        targets.insert("example/b".to_owned(), ());
        reachable.insert(id.to_owned(), targets);
    }
    let mut search = FilteredSearch::start(
        start,
        &vec!["example/b".to_owned()],
        TraversalDirection::Outgoing,
        8,
        Some(reachable),
        10_000,
    );
    assert!(search.request("main").is_some());
    search.receive(ForwardAcquisition {
        edges: vec![dependency(start, end), dependency(start, aside)],
        boundaries: SortedMap::new(),
    });
    while !search.is_done() {
        search.receive(ForwardAcquisition { edges: Vec::new(), boundaries: SortedMap::new() });
    }
    let acquired = search.finish();
    assert!(acquired.found.iter().any(|(hops, row)| *hops == 0 && row.to == end));
}

#[test]
fn generated_origins_are_told_by_their_provenance() {
    let row = |relation: &str, provenance: &str| ContextRow {
        direction: "incoming".to_owned(),
        relation: relation.to_owned(),
        related: "file".to_owned(),
        evidence: "a.pb.ex:1".to_owned(),
        confidence: 1.0f64.to_bits(),
        provenance: provenance.to_owned(),
    };
    assert!(marks_generated_origin(&row("defines", "generated")));
    assert!(!marks_generated_origin(&row("defines", "ast")));
    assert!(!marks_generated_origin(&row("calls", "generated")));

    let mut search = OriginSearch::start();
    assert_eq!(search.next(), Some(ContextSource::State));
    search.receive(&vec![row("calls", "ast")]);
    assert!(!search.is_generated());
    assert!(search.next().is_some());
    search.receive(&vec![row("defines", "generated")]);
    assert!(search.is_generated());
}

#[test]
fn the_longest_part_of_a_query_is_looked_for() {
    assert_eq!(search_candidate("Run"), "Run");
    assert_eq!(search_candidate("repo://sample/a.b"), "sample");
    assert_eq!(search_candidate("left/next"), "next");
}

#[test]
fn boundary_probe_entities_are_not_hydrated() {
    let edge =
        |hops: i64, from: &str, to: &str| vec![string("edge"), string(""), InspectionValue::Integer(hops), string(from), string(to)];
    let rows = vec![edge(0, "root", "near"), edge(1, "near", "far")];
    let found = relevant_traversal_entities(&rows, &vec!["root".to_owned()], 1);
    assert_eq!(keys(&found), ["near", "root"]);
}

#[test]
fn snapshot_requires_a_completed_revision() {
    assert_eq!(check_revision("pending", 0).unwrap(), "workspace has no completed analysis revision: pending");
    assert!(check_revision("pending", 1).is_none());
}

#[test]
fn checkpoints_are_tried_until_time_is_up() {
    assert!(matches!(checkpoint(Some(0), false), Checkpoint::Done));
    assert!(matches!(checkpoint(Some(1), false), Checkpoint::Again));
    assert!(matches!(checkpoint(Some(1), true), Checkpoint::Busy));
}

#[test]
fn free_pages_are_reclaimed_within_a_budget() {
    assert_eq!(told_pages("freelist_count", Some(3)), Ok(3));
    assert!(told_pages("freelist_count", None).is_err());
    assert_eq!(reclaim_command(10, 0), None);
    assert_eq!(reclaim_command(10, 4).unwrap(), "PRAGMA incremental_vacuum(10)");
    assert_eq!(reclaimed_pages(7, 4), 3);
    assert_eq!(reclaimed_pages(4, 7), 0);
}

fn link(id: &str, from: &str, to: &str) -> SemanticEdge {
    SemanticEdge {
        id: id.to_owned(),
        from: from.to_owned(),
        to: to.to_owned(),
        kind: SemanticRelation::Dependency(DependencyRelation::Calls),
        confidence: 1.0f64.to_bits(),
        evidence: Vec::new(),
    }
}

#[test]
fn shortest_paths_take_the_earliest_edges() {
    let edges = vec![
        link("e1", "left", "end"),
        link("e2", "right", "end"),
        link("e3", "start", "left"),
        link("e4", "start", "right"),
    ];
    let (path, truncated) = shortest_path("start", "end", 2, &edges);
    let path = path.unwrap();
    assert_eq!(path.nodes, ["start", "left", "end"]);
    assert_eq!(path.edges, ["e3", "e1"]);
    assert!(!truncated);

    let turned: Vec<SemanticEdge> = edges.into_iter().rev().collect();
    let path = shortest_path("start", "end", 2, &turned).0.unwrap();
    assert_eq!(path.nodes, ["start", "right", "end"]);
    assert_eq!(path.edges, ["e4", "e2"]);

    let (path, truncated) = shortest_path("start", "end", 1, &turned);
    assert!(path.is_none());
    assert!(truncated);
}

const DEPENDENCY_COLUMNS: [&str; 6] = ["from", "to", "relation", "evidence", "confidence", "provenance"];

fn dependency_row(from: &str, to: &str) -> Vec<InspectionValue> {
    vec![
        string(from),
        string(to),
        string("calls"),
        string("a.rs:1"),
        InspectionValue::Float(1.0f64.to_bits()),
        string("ast"),
    ]
}

#[test]
fn acquisitions_without_targets_take_in_what_they_find() {
    let acquisition = Acquiring::start("a", Some("c".to_owned()), Vec::new(), TraversalDirection::Outgoing, 8, 10);
    assert_eq!(acquisition.operation(), Some("traversal.outgoing.materialized"));
    assert!(acquisition.request("main").is_ok());
    let acquisition = acquisition.receive(answer(&DEPENDENCY_COLUMNS, vec![dependency_row("a", "b"), dependency_row("a", "c")])).unwrap();
    assert!(!acquisition.is_done());
    let acquisition = acquisition.receive(answer(&DEPENDENCY_COLUMNS, Vec::new())).unwrap();
    assert!(acquisition.is_done());
    let acquired = acquisition.finish();
    assert_eq!(acquired.found.len(), 2);
    assert!(acquired.incomplete.keys.is_empty());

    let acquisition = Acquiring::start("a", None, Vec::new(), TraversalDirection::Incoming, 8, 10);
    let error = acquisition.receive(answer(&["from"], Vec::new())).err().unwrap();
    assert!(error.starts_with("Mnestic query traversal.incoming.materialized failed: "));
}

#[test]
fn acquisitions_with_targets_look_for_ways_into_them_first() {
    let start = "repo://example/a/rust/lib/start";
    let end = "repo://example/b/rust/lib/end";
    let begin = |rows: u32| {
        Acquiring::start(start, None, vec!["example/b".to_owned()], TraversalDirection::Outgoing, 8, rows)
    };
    let acquisition = begin(10);
    assert_eq!(acquisition.operation(), None);
    assert_eq!(acquisition.columns(), 6);
    let acquisition = acquisition.receive(answer(&DEPENDENCY_COLUMNS, vec![dependency_row(start, end)])).unwrap();
    assert_eq!(acquisition.columns(), 6);
    let acquisition = acquisition.receive(answer(&DEPENDENCY_COLUMNS, Vec::new())).unwrap();
    assert_eq!(acquisition.columns(), 7);
    assert!(!acquisition.is_done());
    let forward = ["row_kind", "from", "to", "relation", "evidence", "confidence", "provenance"];
    let mut edge = dependency_row(start, end);
    edge.insert(0, string("edge"));
    let mut acquisition = acquisition.receive(answer(&forward, vec![edge])).unwrap();
    while !acquisition.is_done() {
        acquisition = acquisition.receive(answer(&forward, Vec::new())).unwrap();
    }
    let acquired = acquisition.finish();
    assert_eq!(acquired.found.len(), 1);
    assert_eq!(acquired.found[0].1.to, end);
    assert_eq!(keys(acquired.reachable.get(&start.to_owned()).unwrap()), ["example/b"]);

    let scarce = begin(0).receive(answer(&DEPENDENCY_COLUMNS, vec![dependency_row(start, end)])).unwrap();
    assert!(scarce.is_done());
    let acquired = scarce.finish();
    assert!(acquired.found.is_empty());
    assert_eq!(keys(&acquired.incomplete), [start]);

    let wrong = answer(&DEPENDENCY_COLUMNS, vec![vec![InspectionValue::Null, InspectionValue::Null]]);
    assert_eq!(
        begin(10).receive(wrong).err().as_deref(),
        Some("Mnestic query traversal.repository_reachability.seed failed: column from is not a string")
    );
}
