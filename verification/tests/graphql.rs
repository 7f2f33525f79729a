use beholder::domain::{
    relation_name, AnalysisDiagnosticSeverity, DependencyRelation, EntityKind, EntityMetadata, GraphqlOperationKind,
    GraphqlTypeKind, SemanticRelation, StructuralRelation,
};
use beholder::dto::AnalysisCompleteness;
use beholder::graphql::analyzer::{GraphqlAnalyzer, RepositoryInputs, SourceInput};
use beholder::graphql::{evidence, facts, GraphqlFacts, GraphqlSource};
use beholder::ids::TextSet;
use beholder::sorted::SortedMap;

fn observed(facts: &GraphqlFacts, from: &str, relation: SemanticRelation, to: &str) -> bool {
    facts
        .observations
        .iter()
        .any(|observation| observation.from == from && observation.relation == relation && observation.to == to)
}

#[test]
fn maps_schema_fields_and_nested_operation_selections() {
    let schema = GraphqlSource {
        path: "schema.graphql",
        source: "schema { query: RootQuery subscription: RootSubscription } type RootQuery { packageTemplatePreview(filter: Filter, sort: Sort!): Package location: Location } type RootSubscription { typing(conversationId: ID!): String } input Filter { query: String } interface Node { id: ID! } type Package implements Node { id: ID! } union Search = Package enum Sort { ASC } scalar Date",
        owner: Some("repo://gateway/graphql-source/schema.graphql"),
    };
    let operation = GraphqlSource {
        path: "PackageDetail.gql.tsx",
        source: "query Packages_Detail_Query($filter: Filter) { ...RootFields ... on RootQuery { location { id } } } fragment RootFields on RootQuery { preview: packageTemplatePreview(filter: $filter) { id } } subscription Typing($conversationId: ID!) { typing(conversationId: $conversationId) }",
        owner: Some("repo://spa/typescript/PackageDetail.gql"),
    };

    let facts = facts("gateway", &[schema, operation]);

    for (id, kind) in [
        ("graphql-operation://Packages_Detail_Query", GraphqlOperationKind::Query),
        ("graphql-operation://Typing", GraphqlOperationKind::Subscription),
    ] {
        assert!(facts.entities.iter().any(|entity| {
            entity.id == id
                && entity.kind == EntityKind::GraphqlOperation
                && entity.metadata == Some(EntityMetadata::GraphqlOperation { kind })
        }));
    }
    for (name, kind) in [
        ("RootQuery", GraphqlTypeKind::Object),
        ("Filter", GraphqlTypeKind::Input),
        ("Node", GraphqlTypeKind::Interface),
        ("Search", GraphqlTypeKind::Union),
        ("Sort", GraphqlTypeKind::Enum),
        ("Date", GraphqlTypeKind::Scalar),
    ] {
        assert!(facts.entities.iter().any(|entity| {
            entity.id == format!("graphql-type://{name}")
                && entity.kind == EntityKind::GraphqlType
                && entity.metadata == Some(EntityMetadata::GraphqlType { kind })
        }));
    }
    let selects = SemanticRelation::Dependency(DependencyRelation::Selects);
    let uses = SemanticRelation::Dependency(DependencyRelation::Uses);
    let implements = SemanticRelation::Dependency(DependencyRelation::Implements);
    let field_of = SemanticRelation::Structure(StructuralRelation::FieldOf);
    let request = SemanticRelation::Structure(StructuralRelation::RequestType);
    let response = SemanticRelation::Structure(StructuralRelation::ResponseType);
    for (from, relation, to) in [
        ("graphql-operation://Packages_Detail_Query", selects, "graphql-field://Query/packageTemplatePreview"),
        ("graphql-operation://Typing", selects, "graphql-field://Subscription/typing"),
        ("graphql-field://Query/packageTemplatePreview", selects, "graphql-field://Package/id"),
        ("graphql-field://Query/location", selects, "graphql-field://Location/id"),
        ("graphql-field://Query/packageTemplatePreview", field_of, "graphql-type://RootQuery"),
        ("graphql-field://Query/packageTemplatePreview", request, "graphql-type://Filter"),
        ("graphql-field://Query/packageTemplatePreview", response, "graphql-type://Package"),
        (
            "graphql-argument://Query/packageTemplatePreview/filter",
            field_of,
            "graphql-field://Query/packageTemplatePreview",
        ),
        ("graphql-argument://Query/packageTemplatePreview/filter", request, "graphql-type://Filter"),
        ("graphql-field://Filter/query", request, "graphql-type://String"),
        ("graphql-field://Filter/query", uses, "graphql-type://String"),
        ("graphql-type://Package", implements, "graphql-type://Node"),
        ("graphql-type://Search", uses, "graphql-type://Package"),
        ("graphql-enum-value://Sort/ASC", field_of, "graphql-type://Sort"),
        ("graphql-operation://Packages_Detail_Query", request, "graphql-type://Filter"),
        ("graphql-field://Subscription/typing", field_of, "graphql-type://RootSubscription"),
    ] {
        assert!(observed(&facts, from, relation, to), "missing {from} {} {to}", relation_name(relation));
    }
    assert!(facts.diagnostics.is_empty());
}

#[test]
fn maps_composed_fields_to_their_source_field() {
    let upstream = GraphqlSource {
        path: "compose/schemas/Checkout.graphql",
        source: "schema { mutation: RootMutationType } type RootMutationType { initializeOrder: ID } type Order { paymentMethods: [String!]! }",
        owner: None,
    };
    let composed = GraphqlSource {
        path: "supergraph.graphql",
        source: r#"
                type Mutation {
                  Checkout_initializeOrder: ID
                    @source(name: "initializeOrder", subgraph: "Checkout")
                    @join__field(graph: CHECKOUT)
                }
                type Checkout_Order @source(name: "Order", subgraph: "Checkout") {
                  paymentMethods: [String!]!
                    @source(name: "paymentMethods", subgraph: "Checkout")
                }
            "#,
        owner: None,
    };

    let facts = facts("gateway", &[upstream, composed]);

    let resolved = SemanticRelation::Dependency(DependencyRelation::ResolvedBy);
    assert!(observed(
        &facts,
        "graphql-field://Mutation/Checkout_initializeOrder",
        resolved,
        "graphql-field://Mutation/initializeOrder"
    ));
    assert!(observed(
        &facts,
        "graphql-field://Checkout_Order/paymentMethods",
        resolved,
        "graphql-field://Order/paymentMethods"
    ));
}

#[test]
fn broken_documents_are_reported_with_their_line() {
    let source = GraphqlSource { path: "broken.graphql", source: "type A { id: ID }\ntype B {", owner: None };
    let facts = facts("gateway", &[source]);
    assert!(!facts.diagnostics.is_empty());
    assert_eq!(facts.diagnostics[0].path, "broken.graphql");
    assert_eq!(facts.diagnostics[0].severity, AnalysisDiagnosticSeverity::Warning);
    assert!(facts.entities.iter().any(|entity| entity.id == "graphql-type://A"));
}

#[test]
fn lines_are_counted_from_one() {
    let source = "type A {\n  id: ID\n}\n";
    assert_eq!(beholder::graphql::line(source, 0), 1);
    assert_eq!(beholder::graphql::line(source, 11), 2);
    let located = GraphqlSource { path: "a.graphql", source, owner: None };
    assert_eq!(evidence(located, 11), "a.graphql:2");
}

#[test]
fn the_analyzer_looks_at_graphql_files() {
    let analyzer = GraphqlAnalyzer;
    assert_eq!(analyzer.metadata().version, "9");
    assert!(analyzer.accepts(Some("graphql")));
    assert!(!analyzer.accepts(Some("rs")));
    assert!(!analyzer.accepts(None));

    let inputs = |content: Vec<u8>| {
        vec![RepositoryInputs {
            repository: "gateway".to_owned(),
            inputs: vec![SourceInput {
                path: "schema.graphql".to_owned(),
                extension: Some("graphql".to_owned()),
                content,
            }],
        }]
    };
    let cached: TextSet = SortedMap::new();
    let contribution = analyzer.analyze_prepared(&inputs("type A { id: ID }".as_bytes().to_vec()), &cached).unwrap();
    assert_eq!(contribution.active_repositories, ["gateway"]);
    assert_eq!(contribution.repositories.len(), 1);
    assert_eq!(contribution.repositories[0].completeness, AnalysisCompleteness::Complete);
    assert!(contribution.repositories[0].entities.iter().any(|entity| entity.id == "graphql-type://A"));

    let mut known: TextSet = SortedMap::new();
    known.insert("gateway".to_owned(), ());
    let again = analyzer.analyze_prepared(&inputs("type A { id: ID }".as_bytes().to_vec()), &known).unwrap();
    assert!(again.repositories.is_empty());

    let refused = analyzer.analyze_prepared(&inputs(vec![0x66, 0xff]), &cached);
    assert_eq!(refused.err().unwrap().path, "schema.graphql");
}
