//! What the type definitions of a GraphQL document declare.

use super::syntax::{
    first, grandchild, inside, name_inside, name_of, node_text, positions, select, Class, ElementModel, NodeKind, SyntaxDocument,
};
use super::{evidence, evidence_text, GraphqlSource, SourceModel};
use crate::domain::{
    observed, optional_text, DependencyRelation, EntityKind, EntityMetadata, GraphqlOperationKind, GraphqlTypeKind,
    Observation, ObservationModel, SemanticRelation, StructuralRelation,
};
use crate::seqs::{concat_map, concat_map_step, first_wins, first_wins_push};
use crate::sorted::{Key, SortedMap};
use crate::text::{same, trim_matches, trimmed};
use vstd::prelude::*;

verus! {

/// One thing that a definition contributes.
#[derive(Debug)]
pub enum Emission {
    Entity { id: String, kind: EntityKind, metadata: Option<EntityMetadata> },
    Observed(Observation),
    Stitched { gateway: String, upstream: String, evidence: String },
}

/// The content of an [`Emission`].
pub ghost enum EmissionModel {
    Entity { id: Seq<char>, kind: EntityKind, metadata: Option<EntityMetadata> },
    Observed(ObservationModel),
    Stitched { gateway: Seq<char>, upstream: Seq<char>, evidence: Seq<char> },
}

impl View for Emission {
    type V = EmissionModel;

    open spec fn view(&self) -> EmissionModel {
        match *self {
            Emission::Entity { id, kind, metadata } => EmissionModel::Entity { id: id@, kind, metadata },
            Emission::Observed(observation) => EmissionModel::Observed(observation@),
            Emission::Stitched { gateway, upstream, evidence } => EmissionModel::Stitched {
                gateway: gateway@,
                upstream: upstream@,
                evidence: evidence@,
            },
        }
    }
}

/// The contents of a list of emissions.
pub open spec fn emitted(list: Seq<Emission>) -> Seq<EmissionModel> {
    list.map_values(|x: Emission| x@)
}

/// Emits an entity.
pub fn emit_entity(out: &mut Vec<Emission>, id: &str, kind: EntityKind, metadata: Option<EntityMetadata>)
    ensures
        emitted(final(out)@) == emitted(old(out)@).push(EmissionModel::Entity { id: id@, kind, metadata }),
{
    out.push(Emission::Entity { id: id.to_owned(), kind, metadata });
    assert(emitted(out@) =~= emitted(old(out)@).push(EmissionModel::Entity { id: id@, kind, metadata }));
}

/// The emission of a structural observation.
pub open spec fn structural(from: Seq<char>, relation: StructuralRelation, to: Seq<char>, evidence: Seq<char>) -> EmissionModel {
    EmissionModel::Observed(observed(from, SemanticRelation::Structure(relation), to, evidence))
}

/// The emission of a dependency.
pub open spec fn dependency(from: Seq<char>, relation: DependencyRelation, to: Seq<char>, evidence: Seq<char>) -> EmissionModel {
    EmissionModel::Observed(observed(from, SemanticRelation::Dependency(relation), to, evidence))
}

/// Emits a structural observation.
pub fn emit_structural(out: &mut Vec<Emission>, from: &str, relation: StructuralRelation, to: &str, evidence: &str)
    ensures
        emitted(final(out)@) == emitted(old(out)@).push(structural(from@, relation, to@, evidence@)),
{
    out.push(Emission::Observed(Observation::structural(from, relation, to, evidence)));
    assert(emitted(out@) =~= emitted(old(out)@).push(structural(from@, relation, to@, evidence@)));
}

/// Emits a dependency.
pub fn emit_dependency(out: &mut Vec<Emission>, from: &str, relation: DependencyRelation, to: &str, evidence: &str)
    ensures
        emitted(final(out)@) == emitted(old(out)@).push(dependency(from@, relation, to@, evidence@)),
{
    out.push(Emission::Observed(Observation::dependency(from, relation, to, evidence)));
    assert(emitted(out@) =~= emitted(old(out)@).push(dependency(from@, relation, to@, evidence@)));
}

/// The identifier of a type.
pub open spec fn type_id(name: Seq<char>) -> Seq<char> {
    "graphql-type://"@ + name
}

/// The identifier of a field.
pub open spec fn field_id(parent: Seq<char>, name: Seq<char>) -> Seq<char> {
    "graphql-field://"@ + parent + "/"@ + name
}

/// The identifier of a field's argument.
pub open spec fn argument_id(parent: Seq<char>, field: Seq<char>, name: Seq<char>) -> Seq<char> {
    "graphql-argument://"@ + parent + "/"@ + field + "/"@ + name
}

/// The identifier of an enum's value.
pub open spec fn enum_value_id(parent: Seq<char>, name: Seq<char>) -> Seq<char> {
    "graphql-enum-value://"@ + parent + "/"@ + name
}

/// The identifier of a type.
pub fn type_identifier(name: &str) -> (r: String)
    ensures
        r@ == type_id(name@),
{
    let mut id: String = "graphql-type://".to_owned();
    id.append(name);
    id
}

/// The identifier of a field.
pub fn field_identifier(parent: &str, name: &str) -> (r: String)
    ensures
        r@ == field_id(parent@, name@),
{
    let mut id: String = "graphql-field://".to_owned();
    id.append(parent);
    id.append("/");
    id.append(name);
    id
}

/// The identifier of a field's argument.
pub fn argument_identifier(parent: &str, field: &str, name: &str) -> (r: String)
    ensures
        r@ == argument_id(parent@, field@, name@),
{
    let mut id: String = "graphql-argument://".to_owned();
    id.append(parent);
    id.append("/");
    id.append(field);
    id.append("/");
    id.append(name);
    id
}

/// The identifier of an enum's value.
pub fn enum_value_identifier(parent: &str, name: &str) -> (r: String)
    ensures
        r@ == enum_value_id(parent@, name@),
{
    let mut id: String = "graphql-enum-value://".to_owned();
    id.append(parent);
    id.append("/");
    id.append(name);
    id
}

/// The operation that an operation type stands for: the keyword decides, a query without one.
pub open spec fn operation_kind(tree: Seq<ElementModel>, node: int) -> GraphqlOperationKind {
    if first(tree, node, Class::Token(NodeKind::MutationKeyword)) is Some {
        GraphqlOperationKind::Mutation
    } else if first(tree, node, Class::Token(NodeKind::SubscriptionKeyword)) is Some {
        GraphqlOperationKind::Subscription
    } else {
        GraphqlOperationKind::Query
    }
}

/// The operation that an operation type stands for.
pub fn operation_type(tree: &SyntaxDocument, node: usize) -> (r: GraphqlOperationKind)
    requires
        node < tree@.len(),
    ensures
        r == operation_kind(tree@, node as int),
{
    if tree.first(node, Class::Token(NodeKind::MutationKeyword)).is_some() {
        GraphqlOperationKind::Mutation
    } else if tree.first(node, Class::Token(NodeKind::SubscriptionKeyword)).is_some() {
        GraphqlOperationKind::Subscription
    } else {
        GraphqlOperationKind::Query
    }
}

/// The canonical name of an operation's root type.
pub open spec fn root_name(kind: GraphqlOperationKind) -> Seq<char> {
    match kind {
        GraphqlOperationKind::Mutation => "Mutation"@,
        GraphqlOperationKind::Subscription => "Subscription"@,
        GraphqlOperationKind::Query => "Query"@,
    }
}

/// The canonical name of an operation's root type.
pub fn operation_type_name(kind: GraphqlOperationKind) -> (r: &'static str)
    ensures
        r@ == root_name(kind),
{
    match kind {
        GraphqlOperationKind::Mutation => "Mutation",
        GraphqlOperationKind::Subscription => "Subscription",
        GraphqlOperationKind::Query => "Query",
    }
}

/// Which operation each declared root type serves.
pub type Roots = Map<Seq<Seq<char>>, GraphqlOperationKind>;

/// Texts by pairs of texts.
pub type Pairs = Map<Seq<Seq<char>>, Seq<char>>;

/// The texts that the values of a map hold.
pub open spec fn text_values(map: Map<Seq<Seq<char>>, String>) -> Pairs {
    Map::new(|k: Seq<Seq<char>>| map.contains_key(k), |k: Seq<Seq<char>>| map[k]@)
}

/// What one root operation type definition declares.
pub open spec fn root_entry(tree: Seq<ElementModel>, node: int) -> Seq<(Seq<Seq<char>>, GraphqlOperationKind)> {
    match (first(tree, node, Class::Node(NodeKind::OperationType)), name_inside(tree, node, NodeKind::NamedType)) {
        (Some(operation), Some(name)) => seq![(seq![name], operation_kind(tree, operation))],
        _ => Seq::empty(),
    }
}

/// What a schema definition declares of root types.
pub open spec fn root_entries(tree: Seq<ElementModel>, node: int) -> Seq<(Seq<Seq<char>>, GraphqlOperationKind)> {
    concat_map(
        select(tree, node, Class::Node(NodeKind::RootOperationTypeDefinition)),
        |definition: int| root_entry(tree, definition),
    )
}

/// Records the root types of a schema definition; the first entry for a name stays.
pub fn record_root_types(roots: &mut SortedMap<String, GraphqlOperationKind>, tree: &SyntaxDocument, node: usize)
    requires
        node < tree@.len(),
        old(roots).wf(),
    ensures
        final(roots).wf(),
        final(roots)@ == first_wins(old(roots)@, root_entries(tree@, node as int)),
{
    let list: Vec<usize> = tree.select(node, Class::Node(NodeKind::RootOperationTypeDefinition));
    let ghost piece = |definition: int| root_entry(tree@, definition);
    let ghost all = positions(list@);
    let ghost base = roots@;
    let mut i: usize = 0;
    assert(concat_map(all.take(0), piece) =~= Seq::empty());
    while i < list.len()
        invariant
            i <= list.len(),
            all == positions(list@),
            piece == (|definition: int| root_entry(tree@, definition)),
            forall|k: int| 0 <= k < list@.len() ==> #[trigger] list@[k] < tree@.len(),
            roots.wf(),
            roots@ == first_wins(base, concat_map(all.take(i as int), piece)),
        decreases list.len() - i,
    {
        let definition: usize = list[i];
        let ghost sofar = concat_map(all.take(i as int), piece);
        proof {
            concat_map_step(all, i as int, piece);
        }
        let operation: Option<usize> = tree.first(definition, Class::Node(NodeKind::OperationType));
        let name: Option<String> = tree.name_inside(definition, NodeKind::NamedType);
        match (operation, name) {
            (Some(operation), Some(name)) => {
                let kind: GraphqlOperationKind = operation_type(tree, operation);
                proof {
                    let entry = (seq![name@], kind);
                    assert(root_entry(tree@, definition as int) =~= seq![entry]);
                    assert(sofar + root_entry(tree@, definition as int) =~= sofar.push(entry));
                    first_wins_push(base, sofar, entry);
                }
                roots.insert_absent(name, kind);
            },
            _ => {
                proof {
                    assert(sofar + root_entry(tree@, definition as int) =~= sofar);
                }
            },
        }
        i = i + 1;
    }
    assert(all.take(list.len() as int) =~= all);
}

/// A key made of two texts.
pub fn pair(a: &str, b: &str) -> (r: Vec<String>)
    ensures
        r.key() == seq![a@, b@],
{
    let mut key: Vec<String> = Vec::new();
    key.push(a.to_owned());
    key.push(b.to_owned());
    assert(key.key() =~= seq![a@, b@]);
    key
}

/// The text stands for the canonical name of a root type where it is declared as one.
pub open spec fn canonical_type(roots: Roots, name: Seq<char>) -> Seq<char> {
    if roots.contains_key(seq![name]) {
        root_name(roots[seq![name]])
    } else {
        name
    }
}

/// The text stands for the canonical name of a root type where it is declared as one.
pub fn canonical_name(roots: &SortedMap<String, GraphqlOperationKind>, name: &str) -> (r: String)
    requires
        roots.wf(),
    ensures
        r@ == canonical_type(roots@, name@),
{
    match roots.get(&name.to_owned()) {
        Some(kind) => operation_type_name(*kind).to_owned(),
        None => name.to_owned(),
    }
}

/// The named type at the core of a type.
pub open spec fn core_type(tree: Seq<ElementModel>, node: int) -> Option<Seq<char>>
    decreases tree.len() - node,
{
    if node < 0 || node >= tree.len() {
        None
    } else if tree[node].kind == NodeKind::NamedType {
        name_of(tree, node)
    } else if tree[node].kind == NodeKind::ListType {
        match first(tree, node, Class::Type) {
            Some(item) => if node < item < tree.len() {
                core_type(tree, item)
            } else {
                None
            },
            None => None,
        }
    } else {
        match name_inside(tree, node, NodeKind::NamedType) {
            Some(name) => Some(name),
            None => match grandchild(tree, node, NodeKind::ListType, Class::Type) {
                Some(item) => if node < item < tree.len() {
                    core_type(tree, item)
                } else {
                    None
                },
                None => None,
            },
        }
    }
}

/// The named type at the core of a type, whatever lists and non-null marks are around it.
pub fn named_type_name(tree: &SyntaxDocument, node: usize) -> (r: Option<String>)
    requires
        node < tree@.len(),
    ensures
        optional_text(r) == core_type(tree@, node as int),
    decreases tree@.len() - node,
{
    match tree.elements[node].kind {
        NodeKind::NamedType => tree.name_of(node),
        NodeKind::ListType => match tree.first(node, Class::Type) {
            Some(item) => named_type_name(tree, item),
            None => None,
        },
        _ => match tree.name_inside(node, NodeKind::NamedType) {
            Some(name) => Some(name),
            None => match tree.first(node, Class::Node(NodeKind::ListType)) {
                Some(list) => match tree.first(list, Class::Type) {
                    Some(item) => named_type_name(tree, item),
                    None => None,
                },
                None => None,
            },
        },
    }
}

/// Whether the name right inside an element is the given one.
pub fn is_named(tree: &SyntaxDocument, node: usize, name: &str) -> (r: bool)
    requires
        node < tree@.len(),
    ensures
        r == (name_of(tree@, node as int) == Some(name@)),
{
    match tree.name_of(node) {
        Some(found) => same(found.as_str(), name),
        None => false,
    }
}

/// The first argument from position `k` on that has the name and a value.
pub open spec fn value_from(tree: Seq<ElementModel>, arguments: Seq<int>, name: Seq<char>, k: int) -> Option<int>
    decreases arguments.len() - k,
{
    if k >= arguments.len() {
        None
    } else if name_of(tree, arguments[k]) == Some(name) && first(tree, arguments[k], Class::Value) is Some {
        first(tree, arguments[k], Class::Value)
    } else {
        value_from(tree, arguments, name, k + 1)
    }
}

/// The value that a directive gives an argument, without surrounding quotes.
pub open spec fn argument_value(tree: Seq<ElementModel>, directive: int, name: Seq<char>) -> Option<Seq<char>> {
    match value_from(tree, inside(tree, directive, NodeKind::Arguments, Class::Node(NodeKind::Argument)), name, 0) {
        Some(value) => Some(trim_matches(node_text(tree, value), '"')),
        None => None,
    }
}

/// The value that a directive gives an argument, without surrounding quotes.
pub fn directive_value(tree: &SyntaxDocument, directive: usize, name: &str) -> (r: Option<String>)
    requires
        directive < tree@.len(),
    ensures
        optional_text(r) == argument_value(tree@, directive as int, name@),
{
    let list: Vec<usize> = tree.inside(directive, NodeKind::Arguments, Class::Node(NodeKind::Argument));
    let ghost all = positions(list@);
    let mut i: usize = 0;
    while i < list.len()
        invariant
            i <= list.len(),
            all == positions(list@),
            all == inside(tree@, directive as int, NodeKind::Arguments, Class::Node(NodeKind::Argument)),
            forall|k: int| 0 <= k < list@.len() ==> #[trigger] list@[k] < tree@.len(),
            value_from(tree@, all, name@, 0) == value_from(tree@, all, name@, i as int),
        decreases list.len() - i,
    {
        let argument: usize = list[i];
        assert(all[i as int] == argument);
        if is_named(tree, argument, name) {
            match tree.first(argument, Class::Value) {
                Some(value) => {
                    let text: String = tree.node_text(value);
                    return Some(trimmed(text.as_str(), '"'));
                },
                None => {},
            }
        }
        i = i + 1;
    }
    None
}

/// The first directive from position `k` on that has the name.
pub open spec fn directive_from(tree: Seq<ElementModel>, directives: Seq<int>, name: Seq<char>, k: int) -> Option<int>
    decreases directives.len() - k,
{
    if k >= directives.len() {
        None
    } else if name_of(tree, directives[k]) == Some(name) {
        Some(directives[k])
    } else {
        directive_from(tree, directives, name, k + 1)
    }
}

/// The directives of a definition.
pub open spec fn directives_of(tree: Seq<ElementModel>, node: int) -> Seq<int> {
    inside(tree, node, NodeKind::Directives, Class::Node(NodeKind::Directive))
}

/// The value of an argument of the first directive of a name.
pub open spec fn directive_argument_of(tree: Seq<ElementModel>, node: int, directive: Seq<char>, argument: Seq<char>) -> Option<Seq<char>> {
    match directive_from(tree, directives_of(tree, node), directive, 0) {
        Some(found) => argument_value(tree, found, argument),
        None => None,
    }
}

/// The value of an argument of the first directive of a name.
pub fn directive_argument(tree: &SyntaxDocument, node: usize, directive: &str, argument: &str) -> (r: Option<String>)
    requires
        node < tree@.len(),
    ensures
        optional_text(r) == directive_argument_of(tree@, node as int, directive@, argument@),
{
    let list: Vec<usize> = tree.inside(node, NodeKind::Directives, Class::Node(NodeKind::Directive));
    let ghost all = positions(list@);
    let mut i: usize = 0;
    while i < list.len()
        invariant
            i <= list.len(),
            all == positions(list@),
            all == directives_of(tree@, node as int),
            forall|k: int| 0 <= k < list@.len() ==> #[trigger] list@[k] < tree@.len(),
            directive_from(tree@, all, directive@, 0) == directive_from(tree@, all, directive@, i as int),
        decreases list.len() - i,
    {
        let candidate: usize = list[i];
        assert(all[i as int] == candidate);
        if is_named(tree, candidate, directive) {
            return directive_value(tree, candidate, argument);
        }
        i = i + 1;
    }
    None
}

/// The field of the upstream schema that a composed field stands for.
pub open spec fn upstream_field(
    tree: Seq<ElementModel>,
    field: int,
    declared: Seq<char>,
    canonical: Seq<char>,
    source_types: Pairs,
) -> Option<Seq<char>> {
    match (
        directive_argument_of(tree, field, "source"@, "subgraph"@),
        directive_argument_of(tree, field, "source"@, "name"@),
    ) {
        (Some(subgraph), Some(name)) => Some(
            field_id(
                if source_types.contains_key(seq![declared, subgraph]) {
                    source_types[seq![declared, subgraph]]
                } else {
                    canonical
                },
                name,
            ),
        ),
        _ => None,
    }
}

/// The field of the upstream schema that a composed field stands for.
pub fn stitched_field(
    tree: &SyntaxDocument,
    field: usize,
    declared: &str,
    canonical: &str,
    source_types: &SortedMap<Vec<String>, String>,
) -> (r: Option<String>)
    requires
        field < tree@.len(),
        source_types.wf(),
    ensures
        optional_text(r) == upstream_field(tree@, field as int, declared@, canonical@, text_values(source_types@)),
{
    match directive_argument(tree, field, "source", "subgraph") {
        None => None,
        Some(subgraph) => match directive_argument(tree, field, "source", "name") {
            None => None,
            Some(name) => {
                let key: Vec<String> = pair(declared, subgraph.as_str());
                match source_types.get(&key) {
                    Some(parent) => Some(field_identifier(parent.as_str(), name.as_str())),
                    None => Some(field_identifier(canonical, name.as_str())),
                }
            },
        },
    }
}

/// What one directive says of where a type comes from.
pub open spec fn source_entry(tree: Seq<ElementModel>, declared: Seq<char>, directive: int) -> Seq<(Seq<Seq<char>>, Seq<char>)> {
    if name_of(tree, directive) == Some("source"@) {
        match (argument_value(tree, directive, "name"@), argument_value(tree, directive, "subgraph"@)) {
            (Some(upstream), Some(subgraph)) => seq![(seq![declared, subgraph], upstream)],
            _ => Seq::empty(),
        }
    } else {
        Seq::empty()
    }
}

/// What the directives of a definition say of where its type comes from.
pub open spec fn source_entries(tree: Seq<ElementModel>, node: int) -> Seq<(Seq<Seq<char>>, Seq<char>)> {
    match name_of(tree, node) {
        Some(name) => concat_map(directives_of(tree, node), |directive: int| source_entry(tree, name, directive)),
        None => Seq::empty(),
    }
}

/// The upstream name and the subgraph that a `source` directive gives.
fn source_of(tree: &SyntaxDocument, directive: usize) -> (r: Option<(String, String)>)
    requires
        directive < tree@.len(),
    ensures
        r is Some <==> name_of(tree@, directive as int) == Some("source"@) && argument_value(
            tree@,
            directive as int,
            "name"@,
        ) is Some && argument_value(tree@, directive as int, "subgraph"@) is Some,
        r is Some ==> argument_value(tree@, directive as int, "name"@) == Some((r->0).0@) && argument_value(
            tree@,
            directive as int,
            "subgraph"@,
        ) == Some((r->0).1@),
{
    if !is_named(tree, directive, "source") {
        return None;
    }
    match (directive_value(tree, directive, "name"), directive_value(tree, directive, "subgraph")) {
        (Some(upstream), Some(subgraph)) => Some((upstream, subgraph)),
        _ => None,
    }
}

/// Adding an absent text entry adds its text.
pub proof fn text_values_insert(map: Map<Seq<Seq<char>>, String>, key: Seq<Seq<char>>, value: String)
    ensures
        text_values(map.insert(key, value)) == text_values(map).insert(key, value@),
{
    assert(text_values(map.insert(key, value)) =~= text_values(map).insert(key, value@));
}

/// Records where a type comes from; the first entry for a type and subgraph stays.
pub fn record_source_type(source_types: &mut SortedMap<Vec<String>, String>, tree: &SyntaxDocument, node: usize)
    requires
        node < tree@.len(),
        old(source_types).wf(),
    ensures
        final(source_types).wf(),
        text_values(final(source_types)@) == first_wins(
            text_values(old(source_types)@),
            source_entries(tree@, node as int),
        ),
{
    let name: String = match tree.name_of(node) {
        Some(name) => name,
        None => {
            return;
        },
    };
    let list: Vec<usize> = tree.inside(node, NodeKind::Directives, Class::Node(NodeKind::Directive));
    let ghost piece = |directive: int| source_entry(tree@, name@, directive);
    let ghost all = positions(list@);
    let ghost base = text_values(source_types@);
    let mut i: usize = 0;
    assert(concat_map(all.take(0), piece) =~= Seq::empty());
    while i < list.len()
        invariant
            i <= list.len(),
            all == positions(list@),
            piece == (|directive: int| source_entry(tree@, name@, directive)),
            forall|k: int| 0 <= k < list@.len() ==> #[trigger] list@[k] < tree@.len(),
            source_types.wf(),
            text_values(source_types@) == first_wins(base, concat_map(all.take(i as int), piece)),
        decreases list.len() - i,
    {
        let directive: usize = list[i];
        let ghost sofar = concat_map(all.take(i as int), piece);
        let ghost here = source_entry(tree@, name@, directive as int);
        proof {
            concat_map_step(all, i as int, piece);
        }
        match source_of(tree, directive) {
            Some((upstream, subgraph)) => {
                let key: Vec<String> = pair(name.as_str(), subgraph.as_str());
                proof {
                    let entry = (key.key(), upstream@);
                    assert(here =~= seq![entry]);
                    assert(sofar + here =~= sofar.push(entry));
                    first_wins_push(base, sofar, entry);
                    text_values_insert(source_types@, key.key(), upstream);
                }
                source_types.insert_absent(key, upstream);
            },
            None => {
                assert(sofar + here =~= sofar);
            },
        }
        i = i + 1;
    }
    assert(all.take(list.len() as int) =~= all);
}

/// What one field definition says of the field's type.
pub open spec fn field_entry(tree: Seq<ElementModel>, parent: Seq<char>, field: int) -> Seq<(Seq<Seq<char>>, Seq<char>)> {
    match (name_of(tree, field), first(tree, field, Class::Type)) {
        (Some(name), Some(ty)) => match core_type(tree, ty) {
            Some(response) => seq![(seq![parent, name], response)],
            None => Seq::empty(),
        },
        _ => Seq::empty(),
    }
}

/// The fields that a definition declares.
pub open spec fn fields_of(tree: Seq<ElementModel>, node: int) -> Seq<int> {
    inside(tree, node, NodeKind::FieldsDefinition, Class::Node(NodeKind::FieldDefinition))
}

/// What a definition says of the types of its fields.
pub open spec fn field_entries(tree: Seq<ElementModel>, roots: Roots, node: int) -> Seq<(Seq<Seq<char>>, Seq<char>)> {
    match name_of(tree, node) {
        Some(name) => concat_map(
            fields_of(tree, node),
            |field: int| field_entry(tree, canonical_type(roots, name), field),
        ),
        None => Seq::empty(),
    }
}

/// Records the types of a definition's fields; the first entry for a field stays.
pub fn record_field_types(
    fields: &mut SortedMap<Vec<String>, String>,
    roots: &SortedMap<String, GraphqlOperationKind>,
    tree: &SyntaxDocument,
    node: usize,
)
    requires
        node < tree@.len(),
        old(fields).wf(),
        roots.wf(),
    ensures
        final(fields).wf(),
        text_values(final(fields)@) == first_wins(text_values(old(fields)@), field_entries(tree@, roots@, node as int)),
{
    let name: String = match tree.name_of(node) {
        Some(name) => name,
        None => {
            return;
        },
    };
    let parent: String = canonical_name(roots, name.as_str());
    let list: Vec<usize> = tree.inside(node, NodeKind::FieldsDefinition, Class::Node(NodeKind::FieldDefinition));
    let ghost piece = |field: int| field_entry(tree@, canonical_type(roots@, name@), field);
    let ghost all = positions(list@);
    let ghost base = text_values(fields@);
    let mut i: usize = 0;
    assert(concat_map(all.take(0), piece) =~= Seq::empty());
    while i < list.len()
        invariant
            i <= list.len(),
            all == positions(list@),
            parent@ == canonical_type(roots@, name@),
            piece == (|field: int| field_entry(tree@, canonical_type(roots@, name@), field)),
            forall|k: int| 0 <= k < list@.len() ==> #[trigger] list@[k] < tree@.len(),
            fields.wf(),
            text_values(fields@) == first_wins(base, concat_map(all.take(i as int), piece)),
        decreases list.len() - i,
    {
        let field: usize = list[i];
        let ghost sofar = concat_map(all.take(i as int), piece);
        let ghost here = field_entry(tree@, parent@, field as int);
        proof {
            concat_map_step(all, i as int, piece);
        }
        i = i + 1;
        let response: Option<String> = match tree.first(field, Class::Type) {
            Some(ty) => named_type_name(tree, ty),
            None => None,
        };
        match (tree.name_of(field), response) {
            (Some(field_name), Some(response)) => {
                let key: Vec<String> = pair(parent.as_str(), field_name.as_str());
                proof {
                    let entry = (key.key(), response@);
                    assert(here =~= seq![entry]);
                    assert(sofar + here =~= sofar.push(entry));
                    first_wins_push(base, sofar, entry);
                    text_values_insert(fields@, key.key(), response);
                }
                fields.insert_absent(key, response);
            },
            _ => {
                assert(sofar + here =~= sofar);
            },
        }
    }
    assert(all.take(list.len() as int) =~= all);
}

/// The entity of a type.
pub open spec fn type_emission(name: Seq<char>, kind: GraphqlTypeKind) -> EmissionModel {
    EmissionModel::Entity {
        id: type_id(name),
        kind: EntityKind::GraphqlType,
        metadata: Some(EntityMetadata::GraphqlType { kind }),
    }
}

/// Emits the entity of a type.
pub fn type_entity(out: &mut Vec<Emission>, name: &str, kind: GraphqlTypeKind)
    ensures
        emitted(final(out)@) == emitted(old(out)@).push(type_emission(name@, kind)),
{
    let id: String = type_identifier(name);
    emit_entity(out, id.as_str(), EntityKind::GraphqlType, Some(EntityMetadata::GraphqlType { kind }));
}

/// The scalar types that every schema has.
pub open spec fn is_builtin(name: Seq<char>) -> bool {
    name == "Boolean"@ || name == "Float"@ || name == "ID"@ || name == "Int"@ || name == "String"@
}

/// The scalar types that every schema has.
pub fn builtin_scalar(name: &str) -> (r: bool)
    ensures
        r == is_builtin(name@),
{
    same(name, "Boolean") || same(name, "Float") || same(name, "ID") || same(name, "Int") || same(name, "String")
}

/// What the type of an element relates another entity to.
pub open spec fn typed(
    tree: Seq<ElementModel>,
    source: SourceModel,
    from: Seq<char>,
    node: int,
    relation: StructuralRelation,
) -> Seq<EmissionModel> {
    let place = evidence_text(source, tree[node].start);
    match first(tree, node, Class::Type) {
        Some(ty) => match core_type(tree, ty) {
            Some(name) => (if is_builtin(name) {
                seq![type_emission(name, GraphqlTypeKind::Scalar)]
            } else {
                Seq::empty()
            }) + seq![
                structural(from, relation, type_id(name), place),
                dependency(from, DependencyRelation::Uses, type_id(name), place),
            ],
            None => Seq::empty(),
        },
        None => Seq::empty(),
    }
}

/// Emits what the type of an element relates another entity to.
pub fn type_relationship(
    out: &mut Vec<Emission>,
    tree: &SyntaxDocument,
    source: GraphqlSource<'_>,
    from: &str,
    node: usize,
    relation: StructuralRelation,
)
    requires
        node < tree@.len(),
        source.fits(),
    ensures
        emitted(final(out)@) == emitted(old(out)@) + typed(tree@, source@, from@, node as int, relation),
{
    let name: Option<String> = match tree.first(node, Class::Type) {
        Some(ty) => named_type_name(tree, ty),
        None => None,
    };
    match name {
        Some(name) => {
            if builtin_scalar(name.as_str()) {
                type_entity(out, name.as_str(), GraphqlTypeKind::Scalar);
            }
            let id: String = type_identifier(name.as_str());
            let place: String = evidence(source, tree.elements[node].start);
            emit_structural(out, from, relation, id.as_str(), place.as_str());
            emit_dependency(out, from, DependencyRelation::Uses, id.as_str(), place.as_str());
        },
        None => {},
    }
    assert(emitted(out@) =~= emitted(old(out)@) + typed(tree@, source@, from@, node as int, relation));
}

/// What an argument of a field contributes.
pub open spec fn argument_emissions(
    tree: Seq<ElementModel>,
    source: SourceModel,
    parent: Seq<char>,
    field: Seq<char>,
    argument: int,
) -> Seq<EmissionModel> {
    match name_of(tree, argument) {
        Some(name) => {
            let id = argument_id(parent, field, name);
            let owner = field_id(parent, field);
            seq![
                EmissionModel::Entity { id, kind: EntityKind::GraphqlArgument, metadata: None },
                structural(id, StructuralRelation::FieldOf, owner, evidence_text(source, tree[argument].start)),
            ] + typed(tree, source, id, argument, StructuralRelation::RequestType) + typed(
                tree,
                source,
                owner,
                argument,
                StructuralRelation::RequestType,
            )
        },
        None => Seq::empty(),
    }
}

/// Emits what an argument of a field contributes.
fn argument_entity(
    out: &mut Vec<Emission>,
    tree: &SyntaxDocument,
    source: GraphqlSource<'_>,
    parent: &str,
    field: &str,
    argument: usize,
)
    requires
        argument < tree@.len(),
        source.fits(),
    ensures
        emitted(final(out)@) == emitted(old(out)@) + argument_emissions(tree@, source@, parent@, field@, argument as int),
{
    match tree.name_of(argument) {
        Some(name) => {
            let id: String = argument_identifier(parent, field, name.as_str());
            let owner: String = field_identifier(parent, field);
            let place: String = evidence(source, tree.elements[argument].start);
            emit_entity(out, id.as_str(), EntityKind::GraphqlArgument, None);
            emit_structural(out, id.as_str(), StructuralRelation::FieldOf, owner.as_str(), place.as_str());
            type_relationship(out, tree, source, id.as_str(), argument, StructuralRelation::RequestType);
            type_relationship(out, tree, source, owner.as_str(), argument, StructuralRelation::RequestType);
        },
        None => {},
    }
    assert(emitted(out@) =~= emitted(old(out)@) + argument_emissions(tree@, source@, parent@, field@, argument as int));
}

/// The arguments that a field declares.
pub open spec fn arguments_of(tree: Seq<ElementModel>, field: int) -> Seq<int> {
    inside(tree, field, NodeKind::ArgumentsDefinition, Class::Node(NodeKind::InputValueDefinition))
}

/// What a field of an object or interface contributes.
pub open spec fn field_emissions(
    tree: Seq<ElementModel>,
    source: SourceModel,
    declared: Seq<char>,
    canonical: Seq<char>,
    source_types: Pairs,
    field: int,
) -> Seq<EmissionModel> {
    match name_of(tree, field) {
        Some(name) => {
            let id = field_id(canonical, name);
            let place = evidence_text(source, tree[field].start);
            seq![
                EmissionModel::Entity { id, kind: EntityKind::GraphqlField, metadata: None },
                structural(id, StructuralRelation::FieldOf, type_id(declared), place),
            ] + typed(tree, source, id, field, StructuralRelation::ResponseType) + concat_map(
                arguments_of(tree, field),
                |argument: int| argument_emissions(tree, source, canonical, name, argument),
            ) + (match source.owner {
                Some(owner) => seq![structural(owner, StructuralRelation::Defines, id, place)],
                None => Seq::empty(),
            }) + (match upstream_field(tree, field, declared, canonical, source_types) {
                Some(upstream) => seq![EmissionModel::Stitched { gateway: id, upstream, evidence: place }],
                None => Seq::empty(),
            })
        },
        None => Seq::empty(),
    }
}

/// Emits what the arguments of a field contribute.
fn argument_entities(
    out: &mut Vec<Emission>,
    tree: &SyntaxDocument,
    source: GraphqlSource<'_>,
    parent: &str,
    field: &str,
    node: usize,
)
    requires
        node < tree@.len(),
        source.fits(),
    ensures
        emitted(final(out)@) == emitted(old(out)@) + concat_map(
            arguments_of(tree@, node as int),
            |argument: int| argument_emissions(tree@, source@, parent@, field@, argument),
        ),
{
    let list: Vec<usize> = tree.inside(node, NodeKind::ArgumentsDefinition, Class::Node(NodeKind::InputValueDefinition));
    let ghost piece = |argument: int| argument_emissions(tree@, source@, parent@, field@, argument);
    let ghost all = positions(list@);
    let ghost base = emitted(out@);
    let mut i: usize = 0;
    assert(base + concat_map(all.take(0), piece) =~= base);
    while i < list.len()
        invariant
            i <= list.len(),
            source.fits(),
            all == positions(list@),
            piece == (|argument: int| argument_emissions(tree@, source@, parent@, field@, argument)),
            forall|k: int| 0 <= k < list@.len() ==> #[trigger] list@[k] < tree@.len(),
            emitted(out@) == base + concat_map(all.take(i as int), piece),
        decreases list.len() - i,
    {
        proof {
            concat_map_step(all, i as int, piece);
        }
        argument_entity(out, tree, source, parent, field, list[i]);
        assert(emitted(out@) =~= base + concat_map(all.take(i as int + 1), piece));
        i = i + 1;
    }
    assert(all.take(list.len() as int) =~= all);
}

/// Emits what a field of an object or interface contributes.
fn field_entity(
    out: &mut Vec<Emission>,
    tree: &SyntaxDocument,
    source: GraphqlSource<'_>,
    declared: &str,
    canonical: &str,
    source_types: &SortedMap<Vec<String>, String>,
    field: usize,
)
    requires
        field < tree@.len(),
        source.fits(),
        source_types.wf(),
    ensures
        emitted(final(out)@) == emitted(old(out)@) + field_emissions(
            tree@,
            source@,
            declared@,
            canonical@,
            text_values(source_types@),
            field as int,
        ),
{
    match tree.name_of(field) {
        Some(name) => {
            let id: String = field_identifier(canonical, name.as_str());
            let owner_type: String = type_identifier(declared);
            let place: String = evidence(source, tree.elements[field].start);
            emit_entity(out, id.as_str(), EntityKind::GraphqlField, None);
            emit_structural(out, id.as_str(), StructuralRelation::FieldOf, owner_type.as_str(), place.as_str());
            type_relationship(out, tree, source, id.as_str(), field, StructuralRelation::ResponseType);
            argument_entities(out, tree, source, canonical, name.as_str(), field);
            let ghost before_owner = emitted(out@);
            match source.owner {
                Some(owner) => {
                    emit_structural(out, owner, StructuralRelation::Defines, id.as_str(), place.as_str());
                },
                None => {},
            }
            let ghost before_upstream = emitted(out@);
            match stitched_field(tree, field, declared, canonical, source_types) {
                Some(upstream) => {
                    out.push(Emission::Stitched { gateway: id, upstream, evidence: place });
                },
                None => {},
            }
            proof {
                assert(before_owner =~= emitted(old(out)@) + (seq![
                    EmissionModel::Entity { id: id@, kind: EntityKind::GraphqlField, metadata: None },
                    structural(id@, StructuralRelation::FieldOf, type_id(declared@), place@),
                ] + typed(tree@, source@, id@, field as int, StructuralRelation::ResponseType) + concat_map(
                    arguments_of(tree@, field as int),
                    |argument: int| argument_emissions(tree@, source@, canonical@, name@, argument),
                )));
                assert(before_upstream =~= before_owner + (match source@.owner {
                    Some(owner) => seq![structural(owner, StructuralRelation::Defines, id@, place@)],
                    None => Seq::empty(),
                }));
                assert(emitted(out@) =~= before_upstream + (match upstream_field(
                    tree@,
                    field as int,
                    declared@,
                    canonical@,
                    text_values(source_types@),
                ) {
                    Some(upstream) => seq![EmissionModel::Stitched { gateway: id@, upstream, evidence: place@ }],
                    None => Seq::empty(),
                }));
            }
        },
        None => {},
    }
    assert(emitted(out@) =~= emitted(old(out)@) + field_emissions(
        tree@,
        source@,
        declared@,
        canonical@,
        text_values(source_types@),
        field as int,
    ));
}

/// What the fields of an object or interface contribute.
pub open spec fn fields_emissions(
    tree: Seq<ElementModel>,
    source: SourceModel,
    declared: Seq<char>,
    roots: Roots,
    source_types: Pairs,
    node: int,
) -> Seq<EmissionModel> {
    concat_map(
        fields_of(tree, node),
        |field: int| field_emissions(tree, source, declared, canonical_type(roots, declared), source_types, field),
    )
}

/// Emits what the fields of an object or interface contribute.
pub fn field_entities(
    out: &mut Vec<Emission>,
    tree: &SyntaxDocument,
    source: GraphqlSource<'_>,
    declared: &str,
    roots: &SortedMap<String, GraphqlOperationKind>,
    source_types: &SortedMap<Vec<String>, String>,
    node: usize,
)
    requires
        node < tree@.len(),
        source.fits(),
        roots.wf(),
        source_types.wf(),
    ensures
        emitted(final(out)@) == emitted(old(out)@) + fields_emissions(
            tree@,
            source@,
            declared@,
            roots@,
            text_values(source_types@),
            node as int,
        ),
{
    let canonical: String = canonical_name(roots, declared);
    let list: Vec<usize> = tree.inside(node, NodeKind::FieldsDefinition, Class::Node(NodeKind::FieldDefinition));
    let ghost origins = text_values(source_types@);
    let ghost piece = |field: int| field_emissions(tree@, source@, declared@, canonical_type(roots@, declared@), origins, field);
    let ghost all = positions(list@);
    let ghost base = emitted(out@);
    let mut i: usize = 0;
    assert(base + concat_map(all.take(0), piece) =~= base);
    while i < list.len()
        invariant
            i <= list.len(),
            source.fits(),
            source_types.wf(),
            origins == text_values(source_types@),
            all == positions(list@),
            canonical@ == canonical_type(roots@, declared@),
            piece == (|field: int|
                field_emissions(tree@, source@, declared@, canonical_type(roots@, declared@), origins, field)),
            forall|k: int| 0 <= k < list@.len() ==> #[trigger] list@[k] < tree@.len(),
            emitted(out@) == base + concat_map(all.take(i as int), piece),
        decreases list.len() - i,
    {
        proof {
            concat_map_step(all, i as int, piece);
        }
        field_entity(out, tree, source, declared, canonical.as_str(), source_types, list[i]);
        assert(emitted(out@) =~= base + concat_map(all.take(i as int + 1), piece));
        i = i + 1;
    }
    assert(all.take(list.len() as int) =~= all);
}

/// What a field of an input type contributes.
pub open spec fn input_field_emissions(tree: Seq<ElementModel>, source: SourceModel, declared: Seq<char>, field: int) -> Seq<EmissionModel> {
    match name_of(tree, field) {
        Some(name) => {
            let id = field_id(declared, name);
            seq![
                EmissionModel::Entity { id, kind: EntityKind::GraphqlField, metadata: None },
                structural(
                    id,
                    StructuralRelation::FieldOf,
                    type_id(declared),
                    evidence_text(source, tree[field].start),
                ),
            ] + typed(tree, source, id, field, StructuralRelation::RequestType)
        },
        None => Seq::empty(),
    }
}

/// What the fields of an input type contribute.
pub open spec fn input_emissions(tree: Seq<ElementModel>, source: SourceModel, declared: Seq<char>, node: int) -> Seq<EmissionModel> {
    concat_map(
        inside(tree, node, NodeKind::InputFieldsDefinition, Class::Node(NodeKind::InputValueDefinition)),
        |field: int| input_field_emissions(tree, source, declared, field),
    )
}

/// Emits what the fields of an input type contribute.
pub fn input_field_entities(
    out: &mut Vec<Emission>,
    tree: &SyntaxDocument,
    source: GraphqlSource<'_>,
    declared: &str,
    node: usize,
)
    requires
        node < tree@.len(),
        source.fits(),
    ensures
        emitted(final(out)@) == emitted(old(out)@) + input_emissions(tree@, source@, declared@, node as int),
{
    let owner: String = type_identifier(declared);
    let list: Vec<usize> = tree.inside(node, NodeKind::InputFieldsDefinition, Class::Node(NodeKind::InputValueDefinition));
    let ghost piece = |field: int| input_field_emissions(tree@, source@, declared@, field);
    let ghost all = positions(list@);
    let ghost base = emitted(out@);
    let mut i: usize = 0;
    assert(base + concat_map(all.take(0), piece) =~= base);
    while i < list.len()
        invariant
            i <= list.len(),
            source.fits(),
            owner@ == type_id(declared@),
            all == positions(list@),
            piece == (|field: int| input_field_emissions(tree@, source@, declared@, field)),
            forall|k: int| 0 <= k < list@.len() ==> #[trigger] list@[k] < tree@.len(),
            emitted(out@) == base + concat_map(all.take(i as int), piece),
        decreases list.len() - i,
    {
        let field: usize = list[i];
        let ghost before = emitted(out@);
        proof {
            concat_map_step(all, i as int, piece);
        }
        match tree.name_of(field) {
            Some(name) => {
                let id: String = field_identifier(declared, name.as_str());
                let place: String = evidence(source, tree.elements[field].start);
                emit_entity(out, id.as_str(), EntityKind::GraphqlField, None);
                emit_structural(out, id.as_str(), StructuralRelation::FieldOf, owner.as_str(), place.as_str());
                type_relationship(out, tree, source, id.as_str(), field, StructuralRelation::RequestType);
            },
            None => {},
        }
        assert(emitted(out@) =~= before + input_field_emissions(tree@, source@, declared@, field as int));
        assert(emitted(out@) =~= base + concat_map(all.take(i as int + 1), piece));
        i = i + 1;
    }
    assert(all.take(list.len() as int) =~= all);
}

/// What naming a type among a definition's parts contributes.
pub open spec fn reference_emissions(
    tree: Seq<ElementModel>,
    source: SourceModel,
    declared: Seq<char>,
    relation: DependencyRelation,
    named: int,
) -> Seq<EmissionModel> {
    match name_of(tree, named) {
        Some(name) => seq![
            dependency(type_id(declared), relation, type_id(name), evidence_text(source, tree[named].start)),
        ],
        None => Seq::empty(),
    }
}

/// What the types named in one part of a definition contribute.
pub open spec fn references(
    tree: Seq<ElementModel>,
    source: SourceModel,
    declared: Seq<char>,
    part: NodeKind,
    relation: DependencyRelation,
    node: int,
) -> Seq<EmissionModel> {
    concat_map(
        inside(tree, node, part, Class::Node(NodeKind::NamedType)),
        |named: int| reference_emissions(tree, source, declared, relation, named),
    )
}

/// Emits what the types named in one part of a definition contribute.
fn referenced_types(
    out: &mut Vec<Emission>,
    tree: &SyntaxDocument,
    source: GraphqlSource<'_>,
    declared: &str,
    part: NodeKind,
    relation: DependencyRelation,
    node: usize,
)
    requires
        node < tree@.len(),
        source.fits(),
    ensures
        emitted(final(out)@) == emitted(old(out)@) + references(tree@, source@, declared@, part, relation, node as int),
{
    let owner: String = type_identifier(declared);
    let list: Vec<usize> = tree.inside(node, part, Class::Node(NodeKind::NamedType));
    let ghost piece = |named: int| reference_emissions(tree@, source@, declared@, relation, named);
    let ghost all = positions(list@);
    let ghost base = emitted(out@);
    let mut i: usize = 0;
    assert(base + concat_map(all.take(0), piece) =~= base);
    while i < list.len()
        invariant
            i <= list.len(),
            source.fits(),
            owner@ == type_id(declared@),
            all == positions(list@),
            piece == (|named: int| reference_emissions(tree@, source@, declared@, relation, named)),
            forall|k: int| 0 <= k < list@.len() ==> #[trigger] list@[k] < tree@.len(),
            emitted(out@) == base + concat_map(all.take(i as int), piece),
        decreases list.len() - i,
    {
        let named: usize = list[i];
        let ghost before = emitted(out@);
        proof {
            concat_map_step(all, i as int, piece);
        }
        match tree.name_of(named) {
            Some(name) => {
                let to: String = type_identifier(name.as_str());
                let place: String = evidence(source, tree.elements[named].start);
                emit_dependency(out, owner.as_str(), relation, to.as_str(), place.as_str());
            },
            None => {},
        }
        assert(emitted(out@) =~= before + reference_emissions(tree@, source@, declared@, relation, named as int));
        assert(emitted(out@) =~= base + concat_map(all.take(i as int + 1), piece));
        i = i + 1;
    }
    assert(all.take(list.len() as int) =~= all);
}

/// Emits which interfaces a type implements.
pub fn implements_interfaces(
    out: &mut Vec<Emission>,
    tree: &SyntaxDocument,
    source: GraphqlSource<'_>,
    declared: &str,
    node: usize,
)
    requires
        node < tree@.len(),
        source.fits(),
    ensures
        emitted(final(out)@) == emitted(old(out)@) + references(
            tree@,
            source@,
            declared@,
            NodeKind::ImplementsInterfaces,
            DependencyRelation::Implements,
            node as int,
        ),
{
    referenced_types(out, tree, source, declared, NodeKind::ImplementsInterfaces, DependencyRelation::Implements, node);
}

/// Emits which types a union is made of.
pub fn union_members(
    out: &mut Vec<Emission>,
    tree: &SyntaxDocument,
    source: GraphqlSource<'_>,
    declared: &str,
    node: usize,
)
    requires
        node < tree@.len(),
        source.fits(),
    ensures
        emitted(final(out)@) == emitted(old(out)@) + references(
            tree@,
            source@,
            declared@,
            NodeKind::UnionMemberTypes,
            DependencyRelation::Uses,
            node as int,
        ),
{
    referenced_types(out, tree, source, declared, NodeKind::UnionMemberTypes, DependencyRelation::Uses, node);
}

/// What a value of an enum contributes.
pub open spec fn enum_value_emissions(tree: Seq<ElementModel>, source: SourceModel, declared: Seq<char>, value: int) -> Seq<EmissionModel> {
    match first(tree, value, Class::Node(NodeKind::EnumValue)) {
        Some(name) => {
            let id = enum_value_id(declared, node_text(tree, name));
            seq![
                EmissionModel::Entity { id, kind: EntityKind::GraphqlEnumValue, metadata: None },
                structural(
                    id,
                    StructuralRelation::FieldOf,
                    type_id(declared),
                    evidence_text(source, tree[value].start),
                ),
            ]
        },
        None => Seq::empty(),
    }
}

/// What the values of an enum contribute.
pub open spec fn enum_emissions(tree: Seq<ElementModel>, source: SourceModel, declared: Seq<char>, node: int) -> Seq<EmissionModel> {
    concat_map(
        inside(tree, node, NodeKind::EnumValuesDefinition, Class::Node(NodeKind::EnumValueDefinition)),
        |value: int| enum_value_emissions(tree, source, declared, value),
    )
}

/// Emits what the values of an enum contribute.
pub fn enum_values(
    out: &mut Vec<Emission>,
    tree: &SyntaxDocument,
    source: GraphqlSource<'_>,
    declared: &str,
    node: usize,
)
    requires
        node < tree@.len(),
        source.fits(),
    ensures
        emitted(final(out)@) == emitted(old(out)@) + enum_emissions(tree@, source@, declared@, node as int),
{
    let owner: String = type_identifier(declared);
    let list: Vec<usize> = tree.inside(node, NodeKind::EnumValuesDefinition, Class::Node(NodeKind::EnumValueDefinition));
    let ghost piece = |value: int| enum_value_emissions(tree@, source@, declared@, value);
    let ghost all = positions(list@);
    let ghost base = emitted(out@);
    let mut i: usize = 0;
    assert(base + concat_map(all.take(0), piece) =~= base);
    while i < list.len()
        invariant
            i <= list.len(),
            source.fits(),
            owner@ == type_id(declared@),
            all == positions(list@),
            piece == (|value: int| enum_value_emissions(tree@, source@, declared@, value)),
            forall|k: int| 0 <= k < list@.len() ==> #[trigger] list@[k] < tree@.len(),
            emitted(out@) == base + concat_map(all.take(i as int), piece),
        decreases list.len() - i,
    {
        let value: usize = list[i];
        let ghost before = emitted(out@);
        proof {
            concat_map_step(all, i as int, piece);
        }
        match tree.first(value, Class::Node(NodeKind::EnumValue)) {
            Some(name) => {
                let text: String = tree.node_text(name);
                let id: String = enum_value_identifier(declared, text.as_str());
                let place: String = evidence(source, tree.elements[value].start);
                emit_entity(out, id.as_str(), EntityKind::GraphqlEnumValue, None);
                emit_structural(out, id.as_str(), StructuralRelation::FieldOf, owner.as_str(), place.as_str());
            },
            None => {},
        }
        assert(emitted(out@) =~= before + enum_value_emissions(tree@, source@, declared@, value as int));
        assert(emitted(out@) =~= base + concat_map(all.take(i as int + 1), piece));
        i = i + 1;
    }
    assert(all.take(list.len() as int) =~= all);
}

} // verus!
