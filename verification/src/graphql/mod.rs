//! Facts from GraphQL documents.

pub mod analyzer;
pub mod declarations;
pub mod operations;
pub mod schema;
pub mod selections;
pub mod syntax;

use crate::domain::{
    observed, AnalysisDiagnostic, AnalysisDiagnosticSeverity, DependencyRelation, DiagnosticModel, EntityFact, EntityModel,
    GraphqlOperationKind, GraphqlTypeKind, Observation, ObservationModel, SemanticRelation,
};
use crate::seqs::{concat_map, concat_map_step, concat_range, first_wins, first_wins_push, first_wins_split};
use crate::sorted::{ascending, SortedMap};
use crate::text::{decimal, decimal_text, same};
use operations::{operation_emissions, operation_facts, trees_of, Scope, SelectionContext};
use schema::{
    emitted, enum_emissions, enum_values, field_entities, field_entries, fields_emissions, implements_interfaces,
    input_emissions, input_field_entities, record_field_types, record_root_types, record_source_type, references,
    root_entries, source_entries, text_values, type_emission, type_entity, union_members, Emission, EmissionModel, Pairs,
    Roots,
};
use syntax::{
    line_at, line_number, name_inside, name_of, parse_document, parsed_document, positions, read_tree, select, tree_of, Class,
    ElementModel, NodeKind, RawDocument, RawDocumentModel, SyntaxDocument, SyntaxError, SyntaxErrorModel,
};
use vstd::prelude::*;
use vstd::utf8::encode_utf8;

verus! {

/// A document to analyse.
#[derive(Clone, Copy, Debug)]
pub struct GraphqlSource<'a> {
    pub path: &'a str,
    pub source: &'a str,
    pub owner: Option<&'a str>,
}

/// The content of a [`GraphqlSource`].
pub ghost struct SourceModel {
    pub path: Seq<char>,
    pub source: Seq<char>,
    pub owner: Option<Seq<char>>,
}

impl<'a> View for GraphqlSource<'a> {
    type V = SourceModel;

    open spec fn view(&self) -> SourceModel {
        SourceModel {
            path: self.path@,
            source: self.source@,
            owner: match self.owner {
                Some(owner) => Some(owner@),
                None => None,
            },
        }
    }
}

impl<'a> GraphqlSource<'a> {
    /// Whether 32 bits can hold every offset into the text.
    pub open spec fn fits(&self) -> bool {
        encode_utf8(self.source@).len() <= u32::MAX
    }
}

/// The line of an offset, at most the largest 32-bit number.
pub open spec fn capped_line(source: Seq<char>, start: nat) -> nat {
    let line = line_at(encode_utf8(source), start);
    if line <= u32::MAX {
        line
    } else {
        u32::MAX as nat
    }
}

/// Where an element that starts at the offset is found: path and line.
pub open spec fn evidence_text(source: SourceModel, start: nat) -> Seq<char> {
    source.path + ":"@ + decimal(capped_line(source.source, start))
}

/// The line of an offset, at most the largest 32-bit number.
pub fn line(source: &str, start: u32) -> (r: u32)
    requires
        encode_utf8(source@).len() <= u32::MAX,
    ensures
        r == capped_line(source@, start as nat),
{
    let number: u64 = line_number(source, start as usize);
    if number <= u32::MAX as u64 {
        number as u32
    } else {
        u32::MAX
    }
}

/// Where an element that starts at the offset is found: path and line.
pub fn evidence(source: GraphqlSource<'_>, start: u32) -> (r: String)
    requires
        source.fits(),
    ensures
        r@ == evidence_text(source@, start as nat),
{
    let mut text: String = source.path.to_owned();
    text.append(":");
    text.append(decimal_text(line(source.source, start) as u64).as_str());
    text
}

/// The nodes right inside the root of a document.
pub open spec fn definitions(tree: Seq<ElementModel>) -> Seq<int> {
    if tree.len() == 0 {
        Seq::empty()
    } else {
        select(tree, 0, Class::AnyNode)
    }
}

/// The nodes right inside the root of a document.
fn definitions_of(tree: &SyntaxDocument) -> (r: Vec<usize>)
    ensures
        positions(r@) == definitions(tree@),
        forall|k: int| 0 <= k < r@.len() ==> #[trigger] r@[k] < tree@.len(),
{
    if tree.elements.len() == 0 {
        let none: Vec<usize> = Vec::new();
        assert(positions(none@) =~= Seq::<int>::empty());
        none
    } else {
        tree.select(0, Class::AnyNode)
    }
}

/// Whether the node defines or extends a type that has fields.
pub open spec fn has_fields(kind: NodeKind) -> bool {
    kind == NodeKind::ObjectTypeDefinition || kind == NodeKind::ObjectTypeExtension || kind
        == NodeKind::InterfaceTypeDefinition || kind == NodeKind::InterfaceTypeExtension
}

/// What one definition declares of root types.
pub open spec fn declared_roots(tree: Seq<ElementModel>, node: int) -> Seq<(Seq<Seq<char>>, GraphqlOperationKind)> {
    if tree[node].kind == NodeKind::SchemaDefinition || tree[node].kind == NodeKind::SchemaExtension {
        root_entries(tree, node)
    } else {
        Seq::empty()
    }
}

/// The fragment that one definition declares.
pub open spec fn declared_fragment(tree: Seq<ElementModel>, document: int, node: int) -> Seq<(Seq<Seq<char>>, (usize, usize))> {
    if tree[node].kind == NodeKind::FragmentDefinition {
        match name_inside(tree, node, NodeKind::FragmentName) {
            Some(name) => seq![(seq![name], (document as usize, node as usize))],
            None => Seq::empty(),
        }
    } else {
        Seq::empty()
    }
}

/// What one definition declares of where a type comes from.
pub open spec fn declared_sources(tree: Seq<ElementModel>, node: int) -> Seq<(Seq<Seq<char>>, Seq<char>)> {
    if has_fields(tree[node].kind) {
        source_entries(tree, node)
    } else {
        Seq::empty()
    }
}

/// What one definition declares of the types of fields.
pub open spec fn declared_fields(tree: Seq<ElementModel>, roots: Roots, node: int) -> Seq<(Seq<Seq<char>>, Seq<char>)> {
    if has_fields(tree[node].kind) {
        field_entries(tree, roots, node)
    } else {
        Seq::empty()
    }
}

/// What one document declares of root types, in order.
pub open spec fn document_roots(tree: Seq<ElementModel>) -> Seq<(Seq<Seq<char>>, GraphqlOperationKind)> {
    concat_map(definitions(tree), |node: int| declared_roots(tree, node))
}

/// What one document declares of fragments, in order.
pub open spec fn document_fragments(tree: Seq<ElementModel>, document: int) -> Seq<(Seq<Seq<char>>, (usize, usize))> {
    concat_map(definitions(tree), |node: int| declared_fragment(tree, document, node))
}

/// What one document declares of where types come from, in order.
pub open spec fn document_sources(tree: Seq<ElementModel>) -> Seq<(Seq<Seq<char>>, Seq<char>)> {
    concat_map(definitions(tree), |node: int| declared_sources(tree, node))
}

/// What one document declares of the types of fields, in order.
pub open spec fn document_fields(tree: Seq<ElementModel>, roots: Roots) -> Seq<(Seq<Seq<char>>, Seq<char>)> {
    concat_map(definitions(tree), |node: int| declared_fields(tree, roots, node))
}

/// What all documents declare of root types, in order.
pub open spec fn all_roots(trees: Seq<Seq<ElementModel>>, n: int) -> Seq<(Seq<Seq<char>>, GraphqlOperationKind)> {
    concat_range(n, |d: int| document_roots(trees[d]))
}

/// The fragments that all documents declare, in order.
pub open spec fn all_fragments(trees: Seq<Seq<ElementModel>>, n: int) -> Seq<(Seq<Seq<char>>, (usize, usize))> {
    concat_range(n, |d: int| document_fragments(trees[d], d))
}

/// What all documents declare of where types come from, in order.
pub open spec fn all_sources(trees: Seq<Seq<ElementModel>>, n: int) -> Seq<(Seq<Seq<char>>, Seq<char>)> {
    concat_range(n, |d: int| document_sources(trees[d]))
}

/// What all documents declare of the types of fields, in order.
pub open spec fn all_fields(trees: Seq<Seq<ElementModel>>, roots: Roots, n: int) -> Seq<(Seq<Seq<char>>, Seq<char>)> {
    concat_range(n, |d: int| document_fields(trees[d], roots))
}

/// What the documents declare, the first declaration of each name standing.
pub open spec fn scope_of(trees: Seq<Seq<ElementModel>>) -> Scope {
    let n = trees.len() as int;
    let roots = first_wins(Map::empty(), all_roots(trees, n));
    Scope {
        trees,
        fragments: first_wins(Map::empty(), all_fragments(trees, n)),
        field_types: first_wins(Map::empty(), all_fields(trees, roots, n)),
        roots,
    }
}

/// Where the types of the documents come from.
pub open spec fn sources_of(trees: Seq<Seq<ElementModel>>) -> Pairs {
    first_wins(Map::empty(), all_sources(trees, trees.len() as int))
}

/// What one definition contributes.
pub open spec fn definition_emissions(scope: Scope, origins: Pairs, source: SourceModel, document: int, node: int) -> Seq<EmissionModel> {
    let tree = scope.trees[document];
    match tree[node].kind {
        NodeKind::ObjectTypeDefinition | NodeKind::ObjectTypeExtension => match name_of(tree, node) {
            Some(name) => fielded_emissions(scope, origins, source, document, node, name, GraphqlTypeKind::Object),
            None => Seq::empty(),
        },
        NodeKind::InterfaceTypeDefinition | NodeKind::InterfaceTypeExtension => match name_of(tree, node) {
            Some(name) => fielded_emissions(scope, origins, source, document, node, name, GraphqlTypeKind::Interface),
            None => Seq::empty(),
        },
        NodeKind::InputObjectTypeDefinition | NodeKind::InputObjectTypeExtension => match name_of(tree, node) {
            Some(name) => seq![type_emission(name, GraphqlTypeKind::Input)] + input_emissions(tree, source, name, node),
            None => Seq::empty(),
        },
        NodeKind::UnionTypeDefinition | NodeKind::UnionTypeExtension => match name_of(tree, node) {
            Some(name) => seq![type_emission(name, GraphqlTypeKind::Union)] + references(
                tree,
                source,
                name,
                NodeKind::UnionMemberTypes,
                DependencyRelation::Uses,
                node,
            ),
            None => Seq::empty(),
        },
        NodeKind::EnumTypeDefinition | NodeKind::EnumTypeExtension => match name_of(tree, node) {
            Some(name) => seq![type_emission(name, GraphqlTypeKind::Enum)] + enum_emissions(tree, source, name, node),
            None => Seq::empty(),
        },
        NodeKind::ScalarTypeDefinition | NodeKind::ScalarTypeExtension => match name_of(tree, node) {
            Some(name) => seq![type_emission(name, GraphqlTypeKind::Scalar)],
            None => Seq::empty(),
        },
        NodeKind::OperationDefinition => operation_emissions(scope, source, document, node),
        _ => Seq::empty(),
    }
}

/// What the definition of an object or interface contributes.
pub open spec fn fielded_emissions(
    scope: Scope,
    origins: Pairs,
    source: SourceModel,
    document: int,
    node: int,
    name: Seq<char>,
    kind: GraphqlTypeKind,
) -> Seq<EmissionModel> {
    let tree = scope.trees[document];
    seq![type_emission(name, kind)] + references(
        tree,
        source,
        name,
        NodeKind::ImplementsInterfaces,
        DependencyRelation::Implements,
        node,
    ) + fields_emissions(tree, source, name, scope.roots, origins, node)
}

/// What one document contributes.
pub open spec fn document_emissions(scope: Scope, origins: Pairs, source: SourceModel, document: int) -> Seq<EmissionModel> {
    concat_map(
        definitions(scope.trees[document]),
        |node: int| definition_emissions(scope, origins, source, document, node),
    )
}

/// What the first `n` documents contribute.
pub open spec fn all_emissions(scope: Scope, origins: Pairs, sources: Seq<SourceModel>, n: int) -> Seq<EmissionModel> {
    concat_range(n, |d: int| document_emissions(scope, origins, sources[d], d))
}

/// The diagnostic of an error that the parser recovered from.
pub open spec fn recovery(source: SourceModel, error: SyntaxErrorModel) -> DiagnosticModel {
    let line = line_at(encode_utf8(source.source), error.offset);
    DiagnosticModel {
        code: "graphql.parse_recovery"@,
        severity: AnalysisDiagnosticSeverity::Warning,
        path: source.path,
        line: if line <= u32::MAX {
            Some(line as u32)
        } else {
            None
        },
        detail: Some(error.message),
    }
}

/// The diagnostics of the first `n` documents.
pub open spec fn all_diagnostics(sources: Seq<SourceModel>, parsed: Seq<RawDocumentModel>, n: int) -> Seq<DiagnosticModel> {
    concat_range(n, |d: int| parsed[d].errors.map_values(|e: SyntaxErrorModel| recovery(sources[d], e)))
}

/// The entities among emissions, by identifier.
pub open spec fn entity_entries(emissions: Seq<EmissionModel>) -> Seq<(Seq<Seq<char>>, EntityModel)> {
    concat_map(emissions, |e: EmissionModel| entity_entry(e))
}

/// The entity that an emission is, by identifier.
pub open spec fn entity_entry(emission: EmissionModel) -> Seq<(Seq<Seq<char>>, EntityModel)> {
    match emission {
        EmissionModel::Entity { id, kind, metadata } => seq![(seq![id], EntityModel { id, kind, metadata })],
        _ => Seq::empty(),
    }
}

/// The observation that an emission is.
pub open spec fn observation_entry(emission: EmissionModel) -> Seq<ObservationModel> {
    match emission {
        EmissionModel::Observed(observation) => seq![observation],
        _ => Seq::empty(),
    }
}

/// A composed field resolves to its upstream field where both are known and they differ.
pub open spec fn stitched_entry(known: Set<Seq<Seq<char>>>, emission: EmissionModel) -> Seq<ObservationModel> {
    match emission {
        EmissionModel::Stitched { gateway, upstream, evidence } => if gateway != upstream && known.contains(
            seq![gateway],
        ) && known.contains(seq![upstream]) {
            seq![
                observed(gateway, SemanticRelation::Dependency(DependencyRelation::ResolvedBy), upstream, evidence),
            ]
        } else {
            Seq::empty()
        },
        _ => Seq::empty(),
    }
}

/// What an analysis found.
#[derive(Debug)]
pub struct GraphqlFacts {
    pub entities: Vec<EntityFact>,
    pub observations: Vec<Observation>,
    pub diagnostics: Vec<AnalysisDiagnostic>,
}

/// The entities of a list, by identifier.
pub open spec fn identifiers(entities: Seq<EntityFact>) -> Seq<Seq<Seq<char>>> {
    entities.map_values(|e: EntityFact| seq![e.id@])
}

impl GraphqlFacts {
    /// Whether these are the facts of the parsed documents: each entity once, in ascending order
    /// of identifiers and as first emitted; the observations in document order, those of
    /// composed fields last; one diagnostic for each recovered error.
    pub open spec fn are_of(&self, sources: Seq<SourceModel>, parsed: Seq<RawDocumentModel>) -> bool {
        let trees = Seq::new(parsed.len(), |d: int| tree_of(parsed[d].elements));
        let emissions = all_emissions(scope_of(trees), sources_of(trees), sources, trees.len() as int);
        let entities = first_wins(Map::empty(), entity_entries(emissions));
        &&& ascending(identifiers(self.entities@))
        &&& forall|i: int|
            0 <= i < self.entities@.len() ==> entities.contains_key(seq![(#[trigger] self.entities@[i]).id@])
                && entities[seq![self.entities@[i].id@]] == self.entities@[i]@
        &&& forall|k: Seq<Seq<char>>|
            entities.contains_key(k) <==> #[trigger] identifiers(self.entities@).contains(k)
        &&& self.observations@.map_values(|o: Observation| o@) == concat_map(
            emissions,
            |e: EmissionModel| observation_entry(e),
        ) + concat_map(emissions, |e: EmissionModel| stitched_entry(entities.dom(), e))
        &&& self.diagnostics@.map_values(|d: AnalysisDiagnostic| d@) == all_diagnostics(
            sources,
            parsed,
            parsed.len() as int,
        )
    }
}

/// Every fragment stands in a document.
pub open spec fn fragments_in(fragments: Map<Seq<Seq<char>>, (usize, usize)>, documents: Seq<SyntaxDocument>) -> bool {
    forall|k: Seq<Seq<char>>|
        #[trigger] fragments.contains_key(k) ==> {
            &&& fragments[k].0 < documents.len()
            &&& fragments[k].1 < documents[fragments[k].0 as int]@.len()
        }
}

/// Records what one document declares of root types, fragments and the origin of types.
fn record_document(
    roots: &mut SortedMap<String, GraphqlOperationKind>,
    fragments: &mut SortedMap<String, (usize, usize)>,
    source_types: &mut SortedMap<Vec<String>, String>,
    documents: &Vec<SyntaxDocument>,
    document: usize,
)
    requires
        document < documents@.len(),
        old(roots).wf(),
        old(fragments).wf(),
        old(source_types).wf(),
        fragments_in(old(fragments)@, documents@),
    ensures
        final(roots).wf(),
        final(fragments).wf(),
        final(source_types).wf(),
        fragments_in(final(fragments)@, documents@),
        final(roots)@ == first_wins(old(roots)@, document_roots(documents@[document as int]@)),
        final(fragments)@ == first_wins(
            old(fragments)@,
            document_fragments(documents@[document as int]@, document as int),
        ),
        text_values(final(source_types)@) == first_wins(
            text_values(old(source_types)@),
            document_sources(documents@[document as int]@),
        ),
{
    let tree: &SyntaxDocument = &documents[document];
    let list: Vec<usize> = definitions_of(tree);
    let ghost all = positions(list@);
    let ghost root_piece = |node: int| declared_roots(tree@, node);
    let ghost fragment_piece = |node: int| declared_fragment(tree@, document as int, node);
    let ghost source_piece = |node: int| declared_sources(tree@, node);
    let ghost base_roots = roots@;
    let ghost base_fragments = fragments@;
    let ghost base_sources = text_values(source_types@);
    let mut i: usize = 0;
    while i < list.len()
        invariant
            i <= list.len(),
            document < documents@.len(),
            *tree == documents@[document as int],
            all == positions(list@),
            forall|k: int| 0 <= k < list@.len() ==> #[trigger] list@[k] < tree@.len(),
            root_piece == (|node: int| declared_roots(tree@, node)),
            fragment_piece == (|node: int| declared_fragment(tree@, document as int, node)),
            source_piece == (|node: int| declared_sources(tree@, node)),
            roots.wf(),
            fragments.wf(),
            source_types.wf(),
            fragments_in(fragments@, documents@),
            roots@ == first_wins(base_roots, concat_map(all.take(i as int), root_piece)),
            fragments@ == first_wins(base_fragments, concat_map(all.take(i as int), fragment_piece)),
            text_values(source_types@) == first_wins(base_sources, concat_map(all.take(i as int), source_piece)),
        decreases list.len() - i,
    {
        let node: usize = list[i];
        proof {
            concat_map_step(all, i as int, root_piece);
            concat_map_step(all, i as int, fragment_piece);
            concat_map_step(all, i as int, source_piece);
            first_wins_split(base_roots, concat_map(all.take(i as int), root_piece), declared_roots(tree@, node as int));
            first_wins_split(
                base_fragments,
                concat_map(all.take(i as int), fragment_piece),
                declared_fragment(tree@, document as int, node as int),
            );
            first_wins_split(
                base_sources,
                concat_map(all.take(i as int), source_piece),
                declared_sources(tree@, node as int),
            );
        }
        match tree.elements[node].kind {
            NodeKind::SchemaDefinition | NodeKind::SchemaExtension => {
                record_root_types(roots, tree, node);
            },
            NodeKind::FragmentDefinition => {
                match tree.name_inside(node, NodeKind::FragmentName) {
                    Some(name) => {
                        proof {
                            let entry = (seq![name@], (document, node));
                            assert(declared_fragment(tree@, document as int, node as int) =~= Seq::empty().push(entry));
                            first_wins_push(fragments@, Seq::empty(), entry);
                        }
                        fragments.insert_absent(name, (document, node));
                    },
                    None => {},
                }
            },
            NodeKind::ObjectTypeDefinition | NodeKind::ObjectTypeExtension | NodeKind::InterfaceTypeDefinition
            | NodeKind::InterfaceTypeExtension => {
                record_source_type(source_types, tree, node);
            },
            _ => {},
        }
        i = i + 1;
    }
    assert(all.take(list.len() as int) =~= all);
}

/// Records what one document declares of the types of fields.
fn record_document_fields(
    field_types: &mut SortedMap<Vec<String>, String>,
    roots: &SortedMap<String, GraphqlOperationKind>,
    tree: &SyntaxDocument,
)
    requires
        old(field_types).wf(),
        roots.wf(),
    ensures
        final(field_types).wf(),
        text_values(final(field_types)@) == first_wins(text_values(old(field_types)@), document_fields(tree@, roots@)),
{
    let list: Vec<usize> = definitions_of(tree);
    let ghost all = positions(list@);
    let ghost piece = |node: int| declared_fields(tree@, roots@, node);
    let ghost base = text_values(field_types@);
    let mut i: usize = 0;
    while i < list.len()
        invariant
            i <= list.len(),
            all == positions(list@),
            forall|k: int| 0 <= k < list@.len() ==> #[trigger] list@[k] < tree@.len(),
            piece == (|node: int| declared_fields(tree@, roots@, node)),
            field_types.wf(),
            roots.wf(),
            text_values(field_types@) == first_wins(base, concat_map(all.take(i as int), piece)),
        decreases list.len() - i,
    {
        let node: usize = list[i];
        proof {
            concat_map_step(all, i as int, piece);
            first_wins_split(base, concat_map(all.take(i as int), piece), declared_fields(tree@, roots@, node as int));
        }
        match tree.elements[node].kind {
            NodeKind::ObjectTypeDefinition | NodeKind::ObjectTypeExtension | NodeKind::InterfaceTypeDefinition
            | NodeKind::InterfaceTypeExtension => {
                record_field_types(field_types, roots, tree, node);
            },
            _ => {},
        }
        i = i + 1;
    }
    assert(all.take(list.len() as int) =~= all);
}

/// Emits what the definition of an object or interface contributes.
fn fielded_type(
    out: &mut Vec<Emission>,
    context: &SelectionContext<'_>,
    source_types: &SortedMap<Vec<String>, String>,
    document: usize,
    node: usize,
    name: &str,
    kind: GraphqlTypeKind,
)
    requires
        context.wf(),
        source_types.wf(),
        document < context.documents@.len(),
        node < context.documents@[document as int]@.len(),
    ensures
        emitted(final(out)@) == emitted(old(out)@) + fielded_emissions(
            context.scope(),
            text_values(source_types@),
            context.source@,
            document as int,
            node as int,
            name@,
            kind,
        ),
{
    let tree: &SyntaxDocument = &context.documents[document];
    assert(context.scope().trees[document as int] == tree@);
    type_entity(out, name, kind);
    implements_interfaces(out, tree, context.source, name, node);
    field_entities(out, tree, context.source, name, context.roots, source_types, node);
    assert(emitted(out@) =~= emitted(old(out)@) + fielded_emissions(
        context.scope(),
        text_values(source_types@),
        context.source@,
        document as int,
        node as int,
        name@,
        kind,
    ));
}

/// Emits what one definition contributes.
fn definition_facts(
    out: &mut Vec<Emission>,
    context: &SelectionContext<'_>,
    source_types: &SortedMap<Vec<String>, String>,
    document: usize,
    node: usize,
)
    requires
        context.wf(),
        source_types.wf(),
        document < context.documents@.len(),
        node < context.documents@[document as int]@.len(),
    ensures
        emitted(final(out)@) == emitted(old(out)@) + definition_emissions(
            context.scope(),
            text_values(source_types@),
            context.source@,
            document as int,
            node as int,
        ),
{
    let tree: &SyntaxDocument = &context.documents[document];
    assert(context.scope().trees[document as int] == tree@);
    let source: GraphqlSource<'_> = context.source;
    let kind: NodeKind = tree.elements[node].kind;
    match kind {
        NodeKind::OperationDefinition => {
            operation_facts(out, context, document, node);
        },
        _ => {
            match tree.name_of(node) {
                Some(name) => {
                    let name: &str = name.as_str();
                    match kind {
                        NodeKind::ObjectTypeDefinition | NodeKind::ObjectTypeExtension => {
                            fielded_type(out, context, source_types, document, node, name, GraphqlTypeKind::Object);
                        },
                        NodeKind::InterfaceTypeDefinition | NodeKind::InterfaceTypeExtension => {
                            fielded_type(out, context, source_types, document, node, name, GraphqlTypeKind::Interface);
                        },
                        NodeKind::InputObjectTypeDefinition | NodeKind::InputObjectTypeExtension => {
                            type_entity(out, name, GraphqlTypeKind::Input);
                            input_field_entities(out, tree, source, name, node);
                        },
                        NodeKind::UnionTypeDefinition | NodeKind::UnionTypeExtension => {
                            type_entity(out, name, GraphqlTypeKind::Union);
                            union_members(out, tree, source, name, node);
                        },
                        NodeKind::EnumTypeDefinition | NodeKind::EnumTypeExtension => {
                            type_entity(out, name, GraphqlTypeKind::Enum);
                            enum_values(out, tree, source, name, node);
                        },
                        NodeKind::ScalarTypeDefinition | NodeKind::ScalarTypeExtension => {
                            type_entity(out, name, GraphqlTypeKind::Scalar);
                        },
                        _ => {},
                    }
                },
                None => {},
            }
        },
    }
    assert(emitted(out@) =~= emitted(old(out)@) + definition_emissions(
        context.scope(),
        text_values(source_types@),
        context.source@,
        document as int,
        node as int,
    ));
}

/// Emits what one document contributes.
fn document_facts(
    out: &mut Vec<Emission>,
    context: &SelectionContext<'_>,
    source_types: &SortedMap<Vec<String>, String>,
    document: usize,
)
    requires
        context.wf(),
        source_types.wf(),
        document < context.documents@.len(),
    ensures
        emitted(final(out)@) == emitted(old(out)@) + document_emissions(
            context.scope(),
            text_values(source_types@),
            context.source@,
            document as int,
        ),
{
    let ghost scope = context.scope();
    let ghost origins = text_values(source_types@);
    let ghost source = context.source@;
    let tree: &SyntaxDocument = &context.documents[document];
    assert(scope.trees[document as int] == tree@);
    let list: Vec<usize> = definitions_of(tree);
    let ghost all = positions(list@);
    let ghost piece = |node: int| definition_emissions(scope, origins, source, document as int, node);
    let ghost base = emitted(out@);
    let mut i: usize = 0;
    assert(base + concat_map(all.take(0), piece) =~= base);
    while i < list.len()
        invariant
            i <= list.len(),
            context.wf(),
            source_types.wf(),
            scope == context.scope(),
            origins == text_values(source_types@),
            source == context.source@,
            document < context.documents@.len(),
            *tree == context.documents@[document as int],
            all == positions(list@),
            forall|k: int| 0 <= k < list@.len() ==> #[trigger] list@[k] < tree@.len(),
            piece == (|node: int| definition_emissions(scope, origins, source, document as int, node)),
            emitted(out@) == base + concat_map(all.take(i as int), piece),
        decreases list.len() - i,
    {
        proof {
            concat_map_step(all, i as int, piece);
        }
        definition_facts(out, context, source_types, document, list[i]);
        assert(emitted(out@) =~= base + concat_map(all.take(i as int + 1), piece));
        i = i + 1;
    }
    assert(all.take(list.len() as int) =~= all);
}

/// Adds one diagnostic for each error that the parser recovered from.
fn recovered_errors(out: &mut Vec<AnalysisDiagnostic>, source: GraphqlSource<'_>, errors: &Vec<SyntaxError>)
    requires
        source.fits(),
    ensures
        final(out)@.map_values(|d: AnalysisDiagnostic| d@) == old(out)@.map_values(|d: AnalysisDiagnostic| d@)
            + errors@.map_values(|e: SyntaxError| e@).map_values(|e: SyntaxErrorModel| recovery(source@, e)),
{
    let ghost model = |d: AnalysisDiagnostic| d@;
    let ghost base = out@.map_values(model);
    let ghost all = errors@.map_values(|e: SyntaxError| e@).map_values(|e: SyntaxErrorModel| recovery(source@, e));
    let mut i: usize = 0;
    while i < errors.len()
        invariant
            i <= errors.len(),
            source.fits(),
            model == (|d: AnalysisDiagnostic| d@),
            all == errors@.map_values(|e: SyntaxError| e@).map_values(|e: SyntaxErrorModel| recovery(source@, e)),
            out@.map_values(model) =~= base + all.take(i as int),
        decreases errors.len() - i,
    {
        let error: &SyntaxError = &errors[i];
        let number: u64 = line_number(source.source, error.offset);
        let line: Option<u32> = if number <= u32::MAX as u64 {
            Some(number as u32)
        } else {
            None
        };
        let ghost before = out@;
        out.push(AnalysisDiagnostic {
            code: "graphql.parse_recovery".to_owned(),
            severity: AnalysisDiagnosticSeverity::Warning,
            path: source.path.to_owned(),
            line,
            detail: Some(error.message.clone()),
        });
        proof {
            assert(out@.last()@ == all[i as int]);
            assert(out@.map_values(model) =~= before.map_values(model).push(all[i as int]));
            assert(all.take(i as int + 1) =~= all.take(i as int).push(all[i as int]));
        }
        i = i + 1;
    }
    assert(all.take(errors.len() as int) =~= all);
}

/// The contents of a map of entities.
pub open spec fn entity_models(map: Map<Seq<Seq<char>>, EntityFact>) -> Map<Seq<Seq<char>>, EntityModel> {
    Map::new(|k: Seq<Seq<char>>| map.contains_key(k), |k: Seq<Seq<char>>| map[k]@)
}

/// Gathers the entities and observations among emissions.
fn gather(emissions: &Vec<Emission>) -> (r: (SortedMap<String, EntityFact>, Vec<Observation>))
    ensures
        r.0.wf(),
        entity_models(r.0@) == first_wins(Map::empty(), entity_entries(emitted(emissions@))),
        forall|k: Seq<Seq<char>>| #[trigger] r.0@.contains_key(k) ==> k == seq![r.0@[k].id@],
        r.1@.map_values(|o: Observation| o@) == concat_map(
            emitted(emissions@),
            |e: EmissionModel| observation_entry(e),
        ),
{
    let ghost all = emitted(emissions@);
    let ghost entity_piece = |e: EmissionModel| entity_entry(e);
    let ghost observation_piece = |e: EmissionModel| observation_entry(e);
    let ghost model = |o: Observation| o@;
    let mut entities: SortedMap<String, EntityFact> = SortedMap::new();
    let mut observations: Vec<Observation> = Vec::new();
    let mut i: usize = 0;
    assert(entity_models(entities@) =~= Map::empty());
    assert(observations@.map_values(model) =~= Seq::empty());
    while i < emissions.len()
        invariant
            i <= emissions.len(),
            all == emitted(emissions@),
            entity_piece == (|e: EmissionModel| entity_entry(e)),
            observation_piece == (|e: EmissionModel| observation_entry(e)),
            model == (|o: Observation| o@),
            entities.wf(),
            forall|k: Seq<Seq<char>>| #[trigger] entities@.contains_key(k) ==> k == seq![entities@[k].id@],
            entity_models(entities@) == first_wins(Map::empty(), concat_map(all.take(i as int), entity_piece)),
            observations@.map_values(model) == concat_map(all.take(i as int), observation_piece),
        decreases emissions.len() - i,
    {
        let ghost known = concat_map(all.take(i as int), entity_piece);
        let ghost here = entity_entry(all[i as int]);
        let ghost before = observations@;
        proof {
            concat_map_step(all, i as int, entity_piece);
            concat_map_step(all, i as int, observation_piece);
        }
        match &emissions[i] {
            Emission::Entity { id, kind, metadata } => {
                let fact: EntityFact = EntityFact { id: id.clone(), kind: *kind, metadata: *metadata };
                proof {
                    let entry = (seq![id@], fact@);
                    assert(here =~= seq![entry]);
                    assert(known + here =~= known.push(entry));
                    first_wins_push(Map::empty(), known, entry);
                    assert(entity_models(entities@.insert(entry.0, fact)) =~= entity_models(entities@).insert(
                        entry.0,
                        entry.1,
                    ));
                    assert(before.map_values(model) + Seq::empty() =~= before.map_values(model));
                }
                entities.insert_absent(id.clone(), fact);
            },
            Emission::Observed(observation) => {
                observations.push(observation.copy());
                proof {
                    assert(known + here =~= known);
                    assert(observations@.map_values(model) =~= before.map_values(model) + seq![observation@]);
                }
            },
            Emission::Stitched { .. } => {
                proof {
                    assert(known + here =~= known);
                    assert(before.map_values(model) + Seq::empty() =~= before.map_values(model));
                }
            },
        }
        i = i + 1;
    }
    assert(all.take(emissions.len() as int) =~= all);
    (entities, observations)
}

/// Adds what composed fields resolve to.
fn resolve_stitched(
    observations: &mut Vec<Observation>,
    entities: &SortedMap<String, EntityFact>,
    emissions: &Vec<Emission>,
)
    requires
        entities.wf(),
    ensures
        final(observations)@.map_values(|o: Observation| o@) == old(observations)@.map_values(|o: Observation| o@)
            + concat_map(emitted(emissions@), |e: EmissionModel| stitched_entry(entities@.dom(), e)),
{
    let ghost all = emitted(emissions@);
    let ghost known = entities@.dom();
    let ghost piece = |e: EmissionModel| stitched_entry(known, e);
    let ghost model = |o: Observation| o@;
    let ghost base = observations@.map_values(model);
    let mut i: usize = 0;
    assert(base + concat_map(all.take(0), piece) =~= base);
    while i < emissions.len()
        invariant
            i <= emissions.len(),
            all == emitted(emissions@),
            entities.wf(),
            known == entities@.dom(),
            piece == (|e: EmissionModel| stitched_entry(known, e)),
            model == (|o: Observation| o@),
            observations@.map_values(model) == base + concat_map(all.take(i as int), piece),
        decreases emissions.len() - i,
    {
        let ghost before = observations@;
        proof {
            concat_map_step(all, i as int, piece);
        }
        match &emissions[i] {
            Emission::Stitched { gateway, upstream, evidence } => {
                if !same(gateway.as_str(), upstream.as_str()) && entities.contains_key(gateway) && entities.contains_key(
                    upstream,
                ) {
                    observations.push(
                        Observation::dependency(
                            gateway.as_str(),
                            DependencyRelation::ResolvedBy,
                            upstream.as_str(),
                            evidence.as_str(),
                        ),
                    );
                    assert(observations@.map_values(model) =~= before.map_values(model) + stitched_entry(
                        known,
                        all[i as int],
                    ));
                } else {
                    assert(before.map_values(model) + Seq::empty() =~= before.map_values(model));
                }
            },
            _ => {
                assert(before.map_values(model) + Seq::empty() =~= before.map_values(model));
            },
        }
        assert(observations@.map_values(model) =~= base + concat_map(all.take(i as int + 1), piece));
        i = i + 1;
    }
    assert(all.take(emissions.len() as int) =~= all);
}

/// The contents of a list of sources.
pub open spec fn source_models<'a>(sources: Seq<GraphqlSource<'a>>) -> Seq<SourceModel> {
    sources.map_values(|s: GraphqlSource<'a>| s@)
}

/// The contents of a list of parsed documents.
pub open spec fn document_models(parsed: Seq<RawDocument>) -> Seq<RawDocumentModel> {
    parsed.map_values(|d: RawDocument| d@)
}

/// Reads the tree of each parsed document.
fn read_trees(parsed: &Vec<RawDocument>) -> (r: Vec<SyntaxDocument>)
    ensures
        trees_of(r@) == Seq::new(parsed@.len(), |d: int| tree_of(document_models(parsed@)[d].elements)),
{
    let ghost whole = Seq::new(parsed@.len(), |d: int| tree_of(document_models(parsed@)[d].elements));
    let mut documents: Vec<SyntaxDocument> = Vec::new();
    let mut i: usize = 0;
    while i < parsed.len()
        invariant
            i <= parsed.len(),
            whole == Seq::new(parsed@.len(), |d: int| tree_of(document_models(parsed@)[d].elements)),
            trees_of(documents@) =~= whole.take(i as int),
        decreases parsed.len() - i,
    {
        let ghost before = documents@;
        let tree: SyntaxDocument = read_tree(&parsed[i].elements);
        documents.push(tree);
        proof {
            assert(tree@ == whole[i as int]);
            assert(trees_of(documents@) =~= trees_of(before).push(tree@));
            assert(whole.take(i as int + 1) =~= whole.take(i as int).push(whole[i as int]));
        }
        i = i + 1;
    }
    assert(whole.take(parsed.len() as int) =~= whole);
    documents
}

/// The facts that the parsed documents state, the documents read together: an operation in one
/// may use fragments and types of another.
pub fn facts_of_parsed(sources: &[GraphqlSource<'_>], parsed: &Vec<RawDocument>) -> (r: GraphqlFacts)
    requires
        sources@.len() == parsed@.len(),
        forall|i: int| 0 <= i < sources@.len() ==> (#[trigger] sources@[i]).fits(),
    ensures
        r.are_of(source_models(sources@), document_models(parsed@)),
{
    let documents: Vec<SyntaxDocument> = read_trees(parsed);
    let ghost trees = trees_of(documents@);
    let ghost n = trees.len() as int;
    let mut roots: SortedMap<String, GraphqlOperationKind> = SortedMap::new();
    let mut fragments: SortedMap<String, (usize, usize)> = SortedMap::new();
    let mut source_types: SortedMap<Vec<String>, String> = SortedMap::new();
    let mut d: usize = 0;
    assert(text_values(source_types@) =~= Map::empty());
    while d < documents.len()
        invariant
            d <= documents.len(),
            trees == trees_of(documents@),
            roots.wf(),
            fragments.wf(),
            source_types.wf(),
            fragments_in(fragments@, documents@),
            roots@ == first_wins(Map::empty(), all_roots(trees, d as int)),
            fragments@ == first_wins(Map::empty(), all_fragments(trees, d as int)),
            text_values(source_types@) == first_wins(Map::empty(), all_sources(trees, d as int)),
        decreases documents.len() - d,
    {
        proof {
            assert(trees[d as int] == documents@[d as int]@);
            first_wins_split(Map::empty(), all_roots(trees, d as int), document_roots(trees[d as int]));
            first_wins_split(Map::empty(), all_fragments(trees, d as int), document_fragments(trees[d as int], d as int));
            first_wins_split(Map::empty(), all_sources(trees, d as int), document_sources(trees[d as int]));
            assert(all_roots(trees, d + 1) =~= all_roots(trees, d as int) + document_roots(trees[d as int]));
            assert(all_fragments(trees, d + 1) =~= all_fragments(trees, d as int) + document_fragments(
                trees[d as int],
                d as int,
            ));
            assert(all_sources(trees, d + 1) =~= all_sources(trees, d as int) + document_sources(trees[d as int]));
        }
        record_document(&mut roots, &mut fragments, &mut source_types, &documents, d);
        d = d + 1;
    }
    let mut field_types: SortedMap<Vec<String>, String> = SortedMap::new();
    let mut d: usize = 0;
    assert(text_values(field_types@) =~= Map::empty());
    while d < documents.len()
        invariant
            d <= documents.len(),
            trees == trees_of(documents@),
            roots.wf(),
            field_types.wf(),
            text_values(field_types@) == first_wins(Map::empty(), all_fields(trees, roots@, d as int)),
        decreases documents.len() - d,
    {
        proof {
            assert(trees[d as int] == documents@[d as int]@);
            first_wins_split(Map::empty(), all_fields(trees, roots@, d as int), document_fields(trees[d as int], roots@));
            assert(all_fields(trees, roots@, d + 1) =~= all_fields(trees, roots@, d as int) + document_fields(
                trees[d as int],
                roots@,
            ));
        }
        record_document_fields(&mut field_types, &roots, &documents[d]);
        d = d + 1;
    }
    let ghost scope = scope_of(trees);
    let ghost origins = sources_of(trees);
    let ghost models = source_models(sources@);
    let ghost inputs = document_models(parsed@);
    proof {
        fragments.finite();
        assert(scope.wf()) by {
            assert forall|k: Seq<Seq<char>>| #[trigger] scope.fragments.contains_key(k) implies {
                &&& scope.fragments[k].0 < scope.trees.len()
                &&& scope.fragments[k].1 < scope.trees[scope.fragments[k].0 as int].len()
            } by {
                assert(fragments@.contains_key(k));
            }
        }
    }
    let mut emissions: Vec<Emission> = Vec::new();
    let mut diagnostics: Vec<AnalysisDiagnostic> = Vec::new();
    let ghost diagnosed = |x: AnalysisDiagnostic| x@;
    let mut d: usize = 0;
    assert(emitted(emissions@) =~= Seq::empty());
    assert(diagnostics@.map_values(diagnosed) =~= Seq::empty());
    while d < documents.len()
        invariant
            d <= documents.len(),
            documents@.len() == parsed@.len(),
            sources@.len() == parsed@.len(),
            forall|i: int| 0 <= i < sources@.len() ==> (#[trigger] sources@[i]).fits(),
            trees == trees_of(documents@),
            scope == scope_of(trees),
            scope.wf(),
            origins == text_values(source_types@),
            models == source_models(sources@),
            inputs == document_models(parsed@),
            diagnosed == (|x: AnalysisDiagnostic| x@),
            roots.wf(),
            fragments.wf(),
            field_types.wf(),
            source_types.wf(),
            scope.roots == roots@,
            scope.fragments == fragments@,
            scope.field_types == text_values(field_types@),
            emitted(emissions@) == all_emissions(scope, origins, models, d as int),
            diagnostics@.map_values(diagnosed) == all_diagnostics(models, inputs, d as int),
        decreases documents.len() - d,
    {
        let context: SelectionContext<'_> = SelectionContext {
            documents: &documents,
            source: sources[d],
            fragments: &fragments,
            field_types: &field_types,
            roots: &roots,
        };
        proof {
            assert(context.scope() == scope);
            assert(models[d as int] == sources@[d as int]@);
        }
        recovered_errors(&mut diagnostics, sources[d], &parsed[d].errors);
        proof {
            let whole = inputs[d as int].errors.map_values(|e: SyntaxErrorModel| recovery(models[d as int], e));
            assert(all_diagnostics(models, inputs, d + 1) =~= all_diagnostics(models, inputs, d as int) + whole);
        }
        document_facts(&mut emissions, &context, &source_types, d);
        proof {
            assert(all_emissions(scope, origins, models, d + 1) =~= all_emissions(scope, origins, models, d as int)
                + document_emissions(scope, origins, models[d as int], d as int));
        }
        d = d + 1;
    }
    let (entities, mut observations): (SortedMap<String, EntityFact>, Vec<Observation>) = gather(&emissions);
    resolve_stitched(&mut observations, &entities, &emissions);
    let ghost stored = entities;
    proof {
        let final_map = entity_models(stored@);
        assert(final_map.dom() =~= stored@.dom());
        assert forall|i: int| 0 <= i < stored.values@.len() implies seq![(#[trigger] stored.values@[i]).id@] == stored.listing()[i]
            && final_map.contains_key(stored.listing()[i]) && final_map[stored.listing()[i]] == stored.values@[i]@ by {
            stored.entry(i);
        }
        assert(identifiers(stored.values@) =~= stored.listing());
        assert forall|k: Seq<Seq<char>>| final_map.contains_key(k) <==> #[trigger] identifiers(stored.values@).contains(k) by {
            if final_map.contains_key(k) {
                let i = stored.position(k);
                assert(stored.listing()[i] == k);
            }
        }
        assert(Seq::new(inputs.len(), |d: int| tree_of(inputs[d].elements)) =~= trees);
    }
    GraphqlFacts { entities: entities.values, observations, diagnostics }
}

/// The facts that the documents state, read together.
pub fn facts(_repository: &str, sources: &[GraphqlSource<'_>]) -> (r: GraphqlFacts)
    requires
        forall|i: int| 0 <= i < sources@.len() ==> (#[trigger] sources@[i]).fits(),
    ensures
        r.are_of(
            source_models(sources@),
            source_models(sources@).map_values(|s: SourceModel| parsed_document(s.source)),
        ),
{
    let ghost wanted = source_models(sources@).map_values(|s: SourceModel| parsed_document(s.source));
    let mut parsed: Vec<RawDocument> = Vec::new();
    let mut i: usize = 0;
    while i < sources.len()
        invariant
            i <= sources.len(),
            forall|i: int| 0 <= i < sources@.len() ==> (#[trigger] sources@[i]).fits(),
            wanted == source_models(sources@).map_values(|s: SourceModel| parsed_document(s.source)),
            document_models(parsed@) =~= wanted.take(i as int),
        decreases sources.len() - i,
    {
        let ghost before = parsed@;
        assert(sources@[i as int].fits());
        let document: RawDocument = parse_document(sources[i].source);
        parsed.push(document);
        proof {
            assert(document@ == wanted[i as int]);
            assert(document_models(parsed@) =~= document_models(before).push(document@));
            assert(wanted.take(i as int + 1) =~= wanted.take(i as int).push(wanted[i as int]));
        }
        i = i + 1;
    }
    assert(document_models(parsed@) =~= wanted);
    facts_of_parsed(sources, &parsed)
}

} // verus!
