//! What the facts of GraphQL documents say of the types, fields, arguments and values in them.

use super::operations::operation_emissions;
use super::schema::{
    argument_emissions, arguments_of, canonical_type, core_type, directive_argument_of, enum_emissions, enum_value_emissions, field_emissions, field_entry, fields_emissions, fields_of,
    input_emissions, input_field_emissions, reference_emissions, references, root_entry, typed, upstream_field, EmissionModel,
};
use super::selections::{fields_in_place_are_selected, holds, is_opening, known_as, reaches_in_place, Place};
use super::syntax::{first, inside, name_inside, name_of, node_text, select, select_within, tree_of, Class, ElementModel, NodeKind, RawDocumentModel};
use super::{
    all_emissions, all_fields, all_fragments, all_roots, declared_fields, declared_fragment, declared_roots, definition_emissions, definitions, document_emissions, document_fields,
    document_fragments, document_roots, entity_entries, entity_entry, evidence_text, has_fields,
    identifiers, observation_entry, scope_of, sources_of, stitched_entry, GraphqlFacts, SourceModel,
};
use crate::domain::{
    DependencyRelation, EntityKind, EntityModel, GraphqlOperationKind, Observation, ObservationModel, SemanticRelation, StructuralRelation,
};
use crate::seqs::{concat_map, concat_range, first_wins};
use vstd::prelude::*;

verus! {

/// The trees of parsed documents.
pub open spec fn trees_in(parsed: Seq<RawDocumentModel>) -> Seq<Seq<ElementModel>> {
    Seq::new(parsed.len(), |d: int| tree_of(parsed[d].elements))
}

/// Whether the facts say that one entity has a relation to another, with evidence for it.
pub open spec fn says(facts: GraphqlFacts, from: Seq<char>, relation: SemanticRelation, to: Seq<char>, evidence: Seq<char>) -> bool {
    exists|i: int|
        0 <= i < facts.observations@.len() && (#[trigger] facts.observations@[i]).from@ == from && facts.observations@[i].relation == relation
            && facts.observations@[i].to@ == to && facts.observations@[i].evidence@ == evidence
}

/// Whether the facts have an entity.
pub open spec fn knows(facts: GraphqlFacts, id: Seq<char>) -> bool {
    exists|i: int| 0 <= i < facts.entities@.len() && (#[trigger] facts.entities@[i]).id@ == id
}

/// A structural relation.
pub open spec fn structure(relation: StructuralRelation) -> SemanticRelation {
    SemanticRelation::Structure(relation)
}

/// A dependency.
pub open spec fn depends(relation: DependencyRelation) -> SemanticRelation {
    SemanticRelation::Dependency(relation)
}

/// Whether a document holds a definition.
pub open spec fn is_defined(parsed: Seq<RawDocumentModel>, document: int, node: int) -> bool {
    0 <= document < parsed.len() && definitions(trees_in(parsed)[document]).contains(node)
}

proof fn within_concat<A, B>(list: Seq<A>, piece: spec_fn(A) -> Seq<B>, i: int, item: B)
    requires
        0 <= i < list.len(),
        piece(list[i]).contains(item),
    ensures
        concat_map(list, piece).contains(item),
    decreases list.len(),
{
    let less = list.drop_last();
    let before = concat_map(less, piece);
    let last = piece(list.last());
    if i == list.len() - 1 {
        let k = choose|k: int| 0 <= k < last.len() && last[k] == item;
        assert((before + last)[before.len() + k] == item);
    } else {
        assert(less[i] == list[i]);
        within_concat(less, piece, i, item);
        let k = choose|k: int| 0 <= k < before.len() && before[k] == item;
        assert((before + last)[k] == item);
    }
}

proof fn within_range<B>(n: int, piece: spec_fn(int) -> Seq<B>, i: int, item: B)
    requires
        0 <= i < n,
        piece(i).contains(item),
    ensures
        concat_range(n, piece).contains(item),
    decreases n,
{
    let before = concat_range(n - 1, piece);
    let last = piece(n - 1);
    if i == n - 1 {
        let k = choose|k: int| 0 <= k < last.len() && last[k] == item;
        assert((before + last)[before.len() + k] == item);
    } else {
        within_range(n - 1, piece, i, item);
        let k = choose|k: int| 0 <= k < before.len() && before[k] == item;
        assert((before + last)[k] == item);
    }
}

proof fn in_front<B>(a: Seq<B>, b: Seq<B>, item: B)
    requires
        a.contains(item),
    ensures
        (a + b).contains(item),
{
    let k = choose|k: int| 0 <= k < a.len() && a[k] == item;
    assert((a + b)[k] == item);
}

proof fn at_back<B>(a: Seq<B>, b: Seq<B>, item: B)
    requires
        b.contains(item),
    ensures
        (a + b).contains(item),
{
    let k = choose|k: int| 0 <= k < b.len() && b[k] == item;
    assert((a + b)[a.len() + k] == item);
}

/// What the documents emit.
spec fn everything(sources: Seq<SourceModel>, parsed: Seq<RawDocumentModel>) -> Seq<EmissionModel> {
    let trees = trees_in(parsed);
    all_emissions(scope_of(trees), sources_of(trees), sources, trees.len() as int)
}

/// What a definition emits.
spec fn defined(sources: Seq<SourceModel>, parsed: Seq<RawDocumentModel>, document: int, node: int) -> Seq<EmissionModel> {
    let trees = trees_in(parsed);
    definition_emissions(scope_of(trees), sources_of(trees), sources[document], document, node)
}

proof fn defined_is_emitted(sources: Seq<SourceModel>, parsed: Seq<RawDocumentModel>, document: int, node: int, emission: EmissionModel)
    requires
        is_defined(parsed, document, node),
        defined(sources, parsed, document, node).contains(emission),
    ensures
        everything(sources, parsed).contains(emission),
{
    let trees = trees_in(parsed);
    let scope = scope_of(trees);
    let origins = sources_of(trees);
    let list = definitions(trees[document]);
    let i = choose|i: int| 0 <= i < list.len() && list[i] == node;
    within_concat(list, |node: int| definition_emissions(scope, origins, sources[document], document, node), i, emission);
    within_range(trees.len() as int, |d: int| document_emissions(scope, origins, sources[d], d), document, emission);
}

proof fn emitted_is_said(facts: GraphqlFacts, sources: Seq<SourceModel>, parsed: Seq<RawDocumentModel>, o: ObservationModel)
    requires
        facts.are_of(sources, parsed),
        everything(sources, parsed).contains(EmissionModel::Observed(o)),
    ensures
        says(facts, o.from, o.relation, o.to, o.evidence),
{
    let all = everything(sources, parsed);
    let trees = trees_in(parsed);
    assert(trees == Seq::new(parsed.len(), |d: int| tree_of(parsed[d].elements)));
    let k = choose|k: int| 0 <= k < all.len() && all[k] == EmissionModel::Observed(o);
    let piece = |e: EmissionModel| observation_entry(e);
    assert(piece(all[k])[0] == o);
    within_concat(all, piece, k, o);
    let entities = first_wins(Map::empty(), entity_entries(all));
    let own = concat_map(all, piece);
    let rest = concat_map(all, |e: EmissionModel| stitched_entry(entities.dom(), e));
    in_front(own, rest, o);
    let models = facts.observations@.map_values(|o: Observation| o@);
    assert(models == own + rest);
    said_by_model(facts, models, o);
}

proof fn said_by_model(facts: GraphqlFacts, models: Seq<ObservationModel>, o: ObservationModel)
    requires
        models == facts.observations@.map_values(|o: Observation| o@),
        models.contains(o),
    ensures
        says(facts, o.from, o.relation, o.to, o.evidence),
{
    let i = choose|i: int| 0 <= i < models.len() && models[i] == o;
    assert(models[i] == facts.observations@[i]@);
    assert(facts.observations@[i].from@ == o.from);
}

proof fn defined_is_said(facts: GraphqlFacts, sources: Seq<SourceModel>, parsed: Seq<RawDocumentModel>, document: int, node: int, o: ObservationModel)
    requires
        facts.are_of(sources, parsed),
        is_defined(parsed, document, node),
        defined(sources, parsed, document, node).contains(EmissionModel::Observed(o)),
    ensures
        says(facts, o.from, o.relation, o.to, o.evidence),
{
    defined_is_emitted(sources, parsed, document, node, EmissionModel::Observed(o));
    emitted_is_said(facts, sources, parsed, o);
}

/// Whether the facts say what an element is typed by: it has the relation to the type, and uses it.
pub open spec fn says_type(facts: GraphqlFacts, id: Seq<char>, relation: StructuralRelation, name: Seq<char>, evidence: Seq<char>) -> bool {
    &&& says(facts, id, structure(relation), "graphql-type://"@ + name, evidence)
    &&& says(facts, id, depends(DependencyRelation::Uses), "graphql-type://"@ + name, evidence)
}

/// The name of the type of a field or an argument, if it has one.
pub open spec fn name_of_type(tree: Seq<ElementModel>, node: int) -> Option<Seq<char>> {
    match first(tree, node, Class::Type) {
        Some(ty) => core_type(tree, ty),
        None => None,
    }
}

/// An observation read off a syntax tree.
spec fn read(from: Seq<char>, relation: SemanticRelation, to: Seq<char>, evidence: Seq<char>) -> ObservationModel {
    crate::domain::observed(from, relation, to, evidence)
}

proof fn typed_holds(tree: Seq<ElementModel>, source: SourceModel, id: Seq<char>, node: int, relation: StructuralRelation, name: Seq<char>)
    requires
        name_of_type(tree, node) == Some(name),
    ensures
        ({
            let evidence = evidence_text(source, tree[node].start);
            let all = typed(tree, source, id, node, relation);
            &&& all.contains(EmissionModel::Observed(read(id, structure(relation), "graphql-type://"@ + name, evidence)))
            &&& all.contains(
                EmissionModel::Observed(read(id, depends(DependencyRelation::Uses), "graphql-type://"@ + name, evidence)),
            )
        }),
{
    let evidence = evidence_text(source, tree[node].start);
    let all = typed(tree, source, id, node, relation);
    let n = all.len() as int;
    assert(all[n - 2] == EmissionModel::Observed(read(id, structure(relation), "graphql-type://"@ + name, evidence)));
    assert(all[n - 1] == EmissionModel::Observed(read(id, depends(DependencyRelation::Uses), "graphql-type://"@ + name, evidence)));
}

/// Where the emissions of a field stand among those of the definition around it.
proof fn field_in_definition(
    sources: Seq<SourceModel>,
    parsed: Seq<RawDocumentModel>,
    document: int,
    node: int,
    name: Seq<char>,
    field: int,
    emission: EmissionModel,
)
    requires
        0 <= document < parsed.len(),
        has_fields(trees_in(parsed)[document][node].kind),
        name_of(trees_in(parsed)[document], node) == Some(name),
        fields_of(trees_in(parsed)[document], node).contains(field),
        field_emissions(
            trees_in(parsed)[document],
            sources[document],
            name,
            known_as(scope_of(trees_in(parsed)).roots, name),
            sources_of(trees_in(parsed)),
            field,
        ).contains(emission),
    ensures
        defined(sources, parsed, document, node).contains(emission),
{
    let trees = trees_in(parsed);
    let tree = trees[document];
    let roots = scope_of(trees).roots;
    let origins = sources_of(trees);
    let source = sources[document];
    let list = fields_of(tree, node);
    let i = choose|i: int| 0 <= i < list.len() && list[i] == field;
    let canonical = canonical_type(roots, name);
    assert(canonical == known_as(roots, name));
    within_concat(list, |field: int| field_emissions(tree, source, name, canonical, origins, field), i, emission);
    let fields = fields_emissions(tree, source, name, roots, origins, node);
    assert(fields.contains(emission));
    let all = defined(sources, parsed, document, node);
    let front = all.len() - fields.len();
    assert(all.skip(front) =~= fields);
    let k = choose|k: int| 0 <= k < fields.len() && fields[k] == emission;
    assert(all[front + k] == emission);
}

/// The emissions of a field, part by part.
proof fn field_holds(
    tree: Seq<ElementModel>,
    source: SourceModel,
    declared: Seq<char>,
    canonical: Seq<char>,
    origins: super::schema::Pairs,
    field: int,
    name: Seq<char>,
)
    requires
        name_of(tree, field) == Some(name),
    ensures
        ({
            let id = "graphql-field://"@ + canonical + "/"@ + name;
            let place = evidence_text(source, tree[field].start);
            let all = field_emissions(tree, source, declared, canonical, origins, field);
            &&& all.contains(EmissionModel::Entity { id, kind: EntityKind::GraphqlField, metadata: None })
            &&& all.contains(
                EmissionModel::Observed(read(id, structure(StructuralRelation::FieldOf), "graphql-type://"@ + declared, place)),
            )
            &&& name_of_type(tree, field) matches Some(ty) ==> all.contains(
                EmissionModel::Observed(read(id, structure(StructuralRelation::ResponseType), "graphql-type://"@ + ty, place)),
            ) && all.contains(EmissionModel::Observed(read(id, depends(DependencyRelation::Uses), "graphql-type://"@ + ty, place)))
            &&& source.owner matches Some(owner) ==> all.contains(
                EmissionModel::Observed(read(owner, structure(StructuralRelation::Defines), id, place)),
            )
            &&& upstream_field(tree, field, declared, canonical, origins) matches Some(upstream) ==> all.contains(
                EmissionModel::Stitched { gateway: id, upstream, evidence: place },
            )
            &&& forall|argument: int, emission: EmissionModel|
                #[trigger] arguments_of(tree, field).contains(argument) && #[trigger] argument_emissions(
                    tree,
                    source,
                    canonical,
                    name,
                    argument,
                ).contains(emission) ==> all.contains(emission)
        }),
{
    let id = "graphql-field://"@ + canonical + "/"@ + name;
    let place = evidence_text(source, tree[field].start);
    let a = seq![
        EmissionModel::Entity { id, kind: EntityKind::GraphqlField, metadata: None },
        EmissionModel::Observed(read(id, structure(StructuralRelation::FieldOf), "graphql-type://"@ + declared, place)),
    ];
    let b = typed(tree, source, id, field, StructuralRelation::ResponseType);
    let piece = |argument: int| argument_emissions(tree, source, canonical, name, argument);
    let c = concat_map(arguments_of(tree, field), piece);
    let d = match source.owner {
        Some(owner) => seq![EmissionModel::Observed(read(owner, structure(StructuralRelation::Defines), id, place))],
        None => Seq::empty(),
    };
    let e = match upstream_field(tree, field, declared, canonical, origins) {
        Some(upstream) => seq![EmissionModel::Stitched { gateway: id, upstream, evidence: place }],
        None => Seq::empty(),
    };
    let all = field_emissions(tree, source, declared, canonical, origins, field);
    assert(all == a + b + c + d + e);
    five_parts(a, b, c, d, e);
    assert(a.contains(a[0]) && a.contains(a[1]));
    if let Some(ty) = name_of_type(tree, field) {
        typed_holds(tree, source, id, field, StructuralRelation::ResponseType, ty);
    }
    if let Some(owner) = source.owner {
        assert(d.contains(d[0]));
    }
    if let Some(upstream) = upstream_field(tree, field, declared, canonical, origins) {
        assert(e.contains(e[0]));
    }
    assert forall|argument: int, emission: EmissionModel|
        #[trigger] arguments_of(tree, field).contains(argument) && #[trigger] argument_emissions(
            tree,
            source,
            canonical,
            name,
            argument,
        ).contains(emission) implies all.contains(emission) by {
        let list = arguments_of(tree, field);
        let i = choose|i: int| 0 <= i < list.len() && list[i] == argument;
        within_concat(list, piece, i, emission);
        assert(c.contains(emission));
    }
}

proof fn five_parts<B>(a: Seq<B>, b: Seq<B>, c: Seq<B>, d: Seq<B>, e: Seq<B>)
    ensures
        forall|item: B|
            a.contains(item) || b.contains(item) || c.contains(item) || d.contains(item) || e.contains(item) ==> #[trigger] (a + b + c + d
                + e).contains(item),
{
    assert forall|item: B|
        a.contains(item) || b.contains(item) || c.contains(item) || d.contains(item) || e.contains(item) implies #[trigger] (a + b + c + d
        + e).contains(item) by {
        if a.contains(item) {
            in_front(a, b, item);
            in_front(a + b, c, item);
            in_front(a + b + c, d, item);
            in_front(a + b + c + d, e, item);
        } else if b.contains(item) {
            at_back(a, b, item);
            in_front(a + b, c, item);
            in_front(a + b + c, d, item);
            in_front(a + b + c + d, e, item);
        } else if c.contains(item) {
            at_back(a + b, c, item);
            in_front(a + b + c, d, item);
            in_front(a + b + c + d, e, item);
        } else if d.contains(item) {
            at_back(a + b + c, d, item);
            in_front(a + b + c + d, e, item);
        } else {
            at_back(a + b + c + d, e, item);
        }
    }
}

proof fn first_is_kept<K, V>(base: Map<K, V>, entries: Seq<(K, V)>, i: int)
    requires
        0 <= i < entries.len(),
    ensures
        first_wins(base, entries).contains_key(entries[i].0),
    decreases entries.len(),
{
    if i < entries.len() - 1 {
        assert(entries.drop_last()[i] == entries[i]);
        first_is_kept(base, entries.drop_last(), i);
    }
}

/// What the entities of all documents are by their identifiers.
spec fn known_entities(sources: Seq<SourceModel>, parsed: Seq<RawDocumentModel>) -> Map<Seq<Seq<char>>, EntityModel> {
    first_wins(Map::empty(), entity_entries(everything(sources, parsed)))
}

proof fn known_by_key(facts: GraphqlFacts, sources: Seq<SourceModel>, parsed: Seq<RawDocumentModel>, id: Seq<char>)
    requires
        facts.are_of(sources, parsed),
    ensures
        knows(facts, id) <==> known_entities(sources, parsed).contains_key(seq![id]),
{
    let keys = identifiers(facts.entities@);
    assert(trees_in(parsed) == Seq::new(parsed.len(), |d: int| tree_of(parsed[d].elements)));
    assert(known_entities(sources, parsed).contains_key(seq![id]) <==> keys.contains(seq![id]));
    assert(seq![id][0] == id);
    if keys.contains(seq![id]) {
        let i = choose|i: int| 0 <= i < keys.len() && keys[i] == seq![id];
        assert(keys[i] == seq![facts.entities@[i].id@]);
        assert(seq![facts.entities@[i].id@][0] == seq![id][0]);
        assert(facts.entities@[i].id@ == id);
    }
    if knows(facts, id) {
        let i = choose|i: int| 0 <= i < facts.entities@.len() && (#[trigger] facts.entities@[i]).id@ == id;
        assert(keys[i] == seq![id]);
        assert(keys.contains(seq![id]));
    }
}

proof fn defined_is_known(
    facts: GraphqlFacts,
    sources: Seq<SourceModel>,
    parsed: Seq<RawDocumentModel>,
    document: int,
    node: int,
    emission: EmissionModel,
)
    requires
        facts.are_of(sources, parsed),
        is_defined(parsed, document, node),
        defined(sources, parsed, document, node).contains(emission),
        emission is Entity,
    ensures
        knows(facts, emission->Entity_id),
{
    let id = emission->Entity_id;
    defined_is_emitted(sources, parsed, document, node, emission);
    let all = everything(sources, parsed);
    let k = choose|k: int| 0 <= k < all.len() && all[k] == emission;
    let piece = |e: EmissionModel| entity_entry(e);
    let entry = entity_entry(emission)[0];
    assert(piece(all[k])[0] == entry);
    within_concat(all, piece, k, entry);
    let entries = entity_entries(all);
    assert(entries.contains(entry));
    let i = choose|i: int| 0 <= i < entries.len() && entries[i] == entry;
    first_is_kept(Map::<Seq<Seq<char>>, EntityModel>::empty(), entries, i);
    known_by_key(facts, sources, parsed, id);
}

/// Every field of an object or an interface is known and is said to be a field of its type, to
/// return the type that it is declared with and to use it, and to be defined by the owner of its
/// document. Fields of a root type go by what it is the root of.
pub proof fn fields_are_said_of_their_types(
    facts: GraphqlFacts,
    sources: Seq<SourceModel>,
    parsed: Seq<RawDocumentModel>,
    document: int,
    node: int,
    name: Seq<char>,
    field: int,
    field_name: Seq<char>,
)
    requires
        facts.are_of(sources, parsed),
        is_defined(parsed, document, node),
        has_fields(trees_in(parsed)[document][node].kind),
        name_of(trees_in(parsed)[document], node) == Some(name),
        fields_of(trees_in(parsed)[document], node).contains(field),
        name_of(trees_in(parsed)[document], field) == Some(field_name),
    ensures
        ({
            let tree = trees_in(parsed)[document];
            let id = "graphql-field://"@ + known_as(scope_of(trees_in(parsed)).roots, name) + "/"@ + field_name;
            let evidence = evidence_text(sources[document], tree[field].start);
            &&& knows(facts, id)
            &&& says(facts, id, structure(StructuralRelation::FieldOf), "graphql-type://"@ + name, evidence)
            &&& name_of_type(tree, field) matches Some(ty) ==> says_type(facts, id, StructuralRelation::ResponseType, ty, evidence)
            &&& sources[document].owner matches Some(owner) ==> says(
                facts,
                owner,
                structure(StructuralRelation::Defines),
                id,
                evidence,
            )
        }),
{
    let trees = trees_in(parsed);
    let tree = trees[document];
    let source = sources[document];
    let canonical = known_as(scope_of(trees).roots, name);
    let origins = sources_of(trees);
    let id = "graphql-field://"@ + canonical + "/"@ + field_name;
    let evidence = evidence_text(source, tree[field].start);
    field_holds(tree, source, name, canonical, origins, field, field_name);
    let entity = EmissionModel::Entity { id, kind: EntityKind::GraphqlField, metadata: None };
    field_in_definition(sources, parsed, document, node, name, field, entity);
    defined_is_known(facts, sources, parsed, document, node, entity);
    let a = read(id, structure(StructuralRelation::FieldOf), "graphql-type://"@ + name, evidence);
    field_in_definition(sources, parsed, document, node, name, field, EmissionModel::Observed(a));
    defined_is_said(facts, sources, parsed, document, node, a);
    if let Some(ty) = name_of_type(tree, field) {
        let b = read(id, structure(StructuralRelation::ResponseType), "graphql-type://"@ + ty, evidence);
        field_in_definition(sources, parsed, document, node, name, field, EmissionModel::Observed(b));
        defined_is_said(facts, sources, parsed, document, node, b);
        let c = read(id, depends(DependencyRelation::Uses), "graphql-type://"@ + ty, evidence);
        field_in_definition(sources, parsed, document, node, name, field, EmissionModel::Observed(c));
        defined_is_said(facts, sources, parsed, document, node, c);
    }
    if let Some(owner) = source.owner {
        let d = read(owner, structure(StructuralRelation::Defines), id, evidence);
        field_in_definition(sources, parsed, document, node, name, field, EmissionModel::Observed(d));
        defined_is_said(facts, sources, parsed, document, node, d);
    }
}

/// Every argument of a field is said to be a part of the field; and both are said to take the type
/// that the argument is declared with, and to use it.
pub proof fn arguments_are_said_of_their_fields(
    facts: GraphqlFacts,
    sources: Seq<SourceModel>,
    parsed: Seq<RawDocumentModel>,
    document: int,
    node: int,
    name: Seq<char>,
    field: int,
    field_name: Seq<char>,
    argument: int,
    argument_name: Seq<char>,
)
    requires
        facts.are_of(sources, parsed),
        is_defined(parsed, document, node),
        has_fields(trees_in(parsed)[document][node].kind),
        name_of(trees_in(parsed)[document], node) == Some(name),
        fields_of(trees_in(parsed)[document], node).contains(field),
        name_of(trees_in(parsed)[document], field) == Some(field_name),
        arguments_of(trees_in(parsed)[document], field).contains(argument),
        name_of(trees_in(parsed)[document], argument) == Some(argument_name),
    ensures
        ({
            let tree = trees_in(parsed)[document];
            let parent = known_as(scope_of(trees_in(parsed)).roots, name);
            let owner = "graphql-field://"@ + parent + "/"@ + field_name;
            let id = "graphql-argument://"@ + parent + "/"@ + field_name + "/"@ + argument_name;
            let evidence = evidence_text(sources[document], tree[argument].start);
            &&& knows(facts, id)
            &&& says(facts, id, structure(StructuralRelation::FieldOf), owner, evidence)
            &&& name_of_type(tree, argument) matches Some(ty) ==> says_type(facts, id, StructuralRelation::RequestType, ty, evidence)
                && says_type(facts, owner, StructuralRelation::RequestType, ty, evidence)
        }),
{
    let trees = trees_in(parsed);
    let tree = trees[document];
    let source = sources[document];
    let parent = known_as(scope_of(trees).roots, name);
    let owner = "graphql-field://"@ + parent + "/"@ + field_name;
    let id = "graphql-argument://"@ + parent + "/"@ + field_name + "/"@ + argument_name;
    let evidence = evidence_text(source, tree[argument].start);
    field_holds(tree, source, name, parent, sources_of(trees), field, field_name);
    let all = argument_emissions(tree, source, parent, field_name, argument);
    let front = seq![
        EmissionModel::Entity { id, kind: EntityKind::GraphqlArgument, metadata: None },
        EmissionModel::Observed(read(id, structure(StructuralRelation::FieldOf), owner, evidence)),
    ];
    let p = typed(tree, source, id, argument, StructuralRelation::RequestType);
    let q = typed(tree, source, owner, argument, StructuralRelation::RequestType);
    let none = Seq::<EmissionModel>::empty();
    assert(all == front + p + q);
    assert(front + p + q + none + none =~= all);
    five_parts(front, p, q, none, none);
    assert(front.contains(front[0]) && front.contains(front[1]));
    assert(all.contains(front[0]) && all.contains(front[1]));
    field_in_definition(sources, parsed, document, node, name, field, front[0]);
    defined_is_known(facts, sources, parsed, document, node, front[0]);
    field_in_definition(sources, parsed, document, node, name, field, front[1]);
    defined_is_said(facts, sources, parsed, document, node, front[1]->Observed_0);
    if let Some(ty) = name_of_type(tree, argument) {
        typed_holds(tree, source, id, argument, StructuralRelation::RequestType, ty);
        typed_holds(tree, source, owner, argument, StructuralRelation::RequestType, ty);
        let to = "graphql-type://"@ + ty;
        let a = read(id, structure(StructuralRelation::RequestType), to, evidence);
        let b = read(id, depends(DependencyRelation::Uses), to, evidence);
        let c = read(owner, structure(StructuralRelation::RequestType), to, evidence);
        let d = read(owner, depends(DependencyRelation::Uses), to, evidence);
        assert(all.contains(EmissionModel::Observed(a)) && all.contains(EmissionModel::Observed(b)));
        assert(all.contains(EmissionModel::Observed(c)) && all.contains(EmissionModel::Observed(d)));
        field_in_definition(sources, parsed, document, node, name, field, EmissionModel::Observed(a));
        defined_is_said(facts, sources, parsed, document, node, a);
        field_in_definition(sources, parsed, document, node, name, field, EmissionModel::Observed(b));
        defined_is_said(facts, sources, parsed, document, node, b);
        field_in_definition(sources, parsed, document, node, name, field, EmissionModel::Observed(c));
        defined_is_said(facts, sources, parsed, document, node, c);
        field_in_definition(sources, parsed, document, node, name, field, EmissionModel::Observed(d));
        defined_is_said(facts, sources, parsed, document, node, d);
    }
}

/// An object or interface is said to implement each interface that it names, and a union to use
/// each of its members.
pub proof fn types_are_said_to_implement_and_use(
    facts: GraphqlFacts,
    sources: Seq<SourceModel>,
    parsed: Seq<RawDocumentModel>,
    document: int,
    node: int,
    name: Seq<char>,
    named: int,
    other: Seq<char>,
)
    requires
        facts.are_of(sources, parsed),
        is_defined(parsed, document, node),
        name_of(trees_in(parsed)[document], node) == Some(name),
        name_of(trees_in(parsed)[document], named) == Some(other),
    ensures
        ({
            let tree = trees_in(parsed)[document];
            let kind = tree[node].kind;
            let evidence = evidence_text(sources[document], tree[named].start);
            &&& has_fields(kind) && inside(tree, node, NodeKind::ImplementsInterfaces, Class::Node(NodeKind::NamedType)).contains(named)
                ==> says(
                facts,
                "graphql-type://"@ + name,
                depends(DependencyRelation::Implements),
                "graphql-type://"@ + other,
                evidence,
            )
            &&& (kind == NodeKind::UnionTypeDefinition || kind == NodeKind::UnionTypeExtension) && inside(
                tree,
                node,
                NodeKind::UnionMemberTypes,
                Class::Node(NodeKind::NamedType),
            ).contains(named) ==> says(
                facts,
                "graphql-type://"@ + name,
                depends(DependencyRelation::Uses),
                "graphql-type://"@ + other,
                evidence,
            )
        }),
{
    let trees = trees_in(parsed);
    let tree = trees[document];
    let kind = tree[node].kind;
    let source = sources[document];
    let evidence = evidence_text(source, tree[named].start);
    let all = defined(sources, parsed, document, node);
    if has_fields(kind) && inside(tree, node, NodeKind::ImplementsInterfaces, Class::Node(NodeKind::NamedType)).contains(named) {
        let list = inside(tree, node, NodeKind::ImplementsInterfaces, Class::Node(NodeKind::NamedType));
        let i = choose|i: int| 0 <= i < list.len() && list[i] == named;
        let o = read("graphql-type://"@ + name, depends(DependencyRelation::Implements), "graphql-type://"@ + other, evidence);
        let piece = |named: int| reference_emissions(tree, source, name, DependencyRelation::Implements, named);
        assert(piece(list[i])[0] == EmissionModel::Observed(o));
        within_concat(list, piece, i, EmissionModel::Observed(o));
        let middle = references(tree, source, name, NodeKind::ImplementsInterfaces, DependencyRelation::Implements, node);
        let k = choose|k: int| 0 <= k < middle.len() && middle[k] == EmissionModel::Observed(o);
        assert(all[1 + k] == EmissionModel::Observed(o));
        defined_is_said(facts, sources, parsed, document, node, o);
    }
    if (kind == NodeKind::UnionTypeDefinition || kind == NodeKind::UnionTypeExtension) && inside(
        tree,
        node,
        NodeKind::UnionMemberTypes,
        Class::Node(NodeKind::NamedType),
    ).contains(named) {
        let list = inside(tree, node, NodeKind::UnionMemberTypes, Class::Node(NodeKind::NamedType));
        let i = choose|i: int| 0 <= i < list.len() && list[i] == named;
        let o = read("graphql-type://"@ + name, depends(DependencyRelation::Uses), "graphql-type://"@ + other, evidence);
        let piece = |named: int| reference_emissions(tree, source, name, DependencyRelation::Uses, named);
        assert(piece(list[i])[0] == EmissionModel::Observed(o));
        within_concat(list, piece, i, EmissionModel::Observed(o));
        let middle = references(tree, source, name, NodeKind::UnionMemberTypes, DependencyRelation::Uses, node);
        let k = choose|k: int| 0 <= k < middle.len() && middle[k] == EmissionModel::Observed(o);
        assert(all[1 + k] == EmissionModel::Observed(o));
        defined_is_said(facts, sources, parsed, document, node, o);
    }
}

/// Every field of an input type is said to be a field of it, to take the type that it is declared
/// with and to use it; and every value of an enum is said to belong to the enum.
pub proof fn inputs_and_enums_are_said_to_have_their_parts(
    facts: GraphqlFacts,
    sources: Seq<SourceModel>,
    parsed: Seq<RawDocumentModel>,
    document: int,
    node: int,
    name: Seq<char>,
    part: int,
)
    requires
        facts.are_of(sources, parsed),
        is_defined(parsed, document, node),
        name_of(trees_in(parsed)[document], node) == Some(name),
    ensures
        ({
            let tree = trees_in(parsed)[document];
            let kind = tree[node].kind;
            let evidence = evidence_text(sources[document], tree[part].start);
            &&& (kind == NodeKind::InputObjectTypeDefinition || kind == NodeKind::InputObjectTypeExtension) && inside(
                tree,
                node,
                NodeKind::InputFieldsDefinition,
                Class::Node(NodeKind::InputValueDefinition),
            ).contains(part) ==> (name_of(tree, part) matches Some(field) ==> {
                let id = "graphql-field://"@ + name + "/"@ + field;
                &&& knows(facts, id)
                &&& says(facts, id, structure(StructuralRelation::FieldOf), "graphql-type://"@ + name, evidence)
                &&& name_of_type(tree, part) matches Some(ty) ==> says_type(facts, id, StructuralRelation::RequestType, ty, evidence)
            })
            &&& (kind == NodeKind::EnumTypeDefinition || kind == NodeKind::EnumTypeExtension) && inside(
                tree,
                node,
                NodeKind::EnumValuesDefinition,
                Class::Node(NodeKind::EnumValueDefinition),
            ).contains(part) ==> (first(tree, part, Class::Node(NodeKind::EnumValue)) matches Some(value) ==> {
                let id = "graphql-enum-value://"@ + name + "/"@ + node_text(tree, value);
                &&& knows(facts, id)
                &&& says(facts, id, structure(StructuralRelation::FieldOf), "graphql-type://"@ + name, evidence)
            })
        }),
{
    let trees = trees_in(parsed);
    let tree = trees[document];
    let kind = tree[node].kind;
    let source = sources[document];
    let evidence = evidence_text(source, tree[part].start);
    let all = defined(sources, parsed, document, node);
    let inputs = inside(tree, node, NodeKind::InputFieldsDefinition, Class::Node(NodeKind::InputValueDefinition));
    let values = inside(tree, node, NodeKind::EnumValuesDefinition, Class::Node(NodeKind::EnumValueDefinition));
    if (kind == NodeKind::InputObjectTypeDefinition || kind == NodeKind::InputObjectTypeExtension) && inputs.contains(part) && name_of(
        tree,
        part,
    ) is Some {
        let field = name_of(tree, part)->0;
        let id = "graphql-field://"@ + name + "/"@ + field;
        let own = input_field_emissions(tree, source, name, part);
        assert(own[0] == EmissionModel::Entity { id, kind: EntityKind::GraphqlField, metadata: None });
        let a = read(id, structure(StructuralRelation::FieldOf), "graphql-type://"@ + name, evidence);
        assert(own[1] == EmissionModel::Observed(a));
        assert(own.contains(own[0]) && own.contains(own[1]));
        part_is_defined(sources, parsed, document, node, name, part, own[0]);
        part_is_defined(sources, parsed, document, node, name, part, own[1]);
        defined_is_known(facts, sources, parsed, document, node, own[0]);
        defined_is_said(facts, sources, parsed, document, node, a);
        if let Some(ty) = name_of_type(tree, part) {
            typed_holds(tree, source, id, part, StructuralRelation::RequestType, ty);
            let rest = typed(tree, source, id, part, StructuralRelation::RequestType);
            let front = own.take(2);
            assert(own =~= front + rest);
            let b = read(id, structure(StructuralRelation::RequestType), "graphql-type://"@ + ty, evidence);
            let c = read(id, depends(DependencyRelation::Uses), "graphql-type://"@ + ty, evidence);
            at_back(front, rest, EmissionModel::Observed(b));
            at_back(front, rest, EmissionModel::Observed(c));
            part_is_defined(sources, parsed, document, node, name, part, EmissionModel::Observed(b));
            part_is_defined(sources, parsed, document, node, name, part, EmissionModel::Observed(c));
            defined_is_said(facts, sources, parsed, document, node, b);
            defined_is_said(facts, sources, parsed, document, node, c);
        }
    }
    if (kind == NodeKind::EnumTypeDefinition || kind == NodeKind::EnumTypeExtension) && values.contains(part) && first(
        tree,
        part,
        Class::Node(NodeKind::EnumValue),
    ) is Some {
        let value = first(tree, part, Class::Node(NodeKind::EnumValue))->0;
        let id = "graphql-enum-value://"@ + name + "/"@ + node_text(tree, value);
        let own = enum_value_emissions(tree, source, name, part);
        assert(own[0] == EmissionModel::Entity { id, kind: EntityKind::GraphqlEnumValue, metadata: None });
        let a = read(id, structure(StructuralRelation::FieldOf), "graphql-type://"@ + name, evidence);
        assert(own[1] == EmissionModel::Observed(a));
        assert(own.contains(own[0]) && own.contains(own[1]));
        part_is_defined(sources, parsed, document, node, name, part, own[0]);
        part_is_defined(sources, parsed, document, node, name, part, own[1]);
        defined_is_known(facts, sources, parsed, document, node, own[0]);
        defined_is_said(facts, sources, parsed, document, node, a);
    }
}

proof fn part_is_defined(
    sources: Seq<SourceModel>,
    parsed: Seq<RawDocumentModel>,
    document: int,
    node: int,
    name: Seq<char>,
    part: int,
    emission: EmissionModel,
)
    requires
        0 <= document < parsed.len(),
        name_of(trees_in(parsed)[document], node) == Some(name),
        ({
            let tree = trees_in(parsed)[document];
            let kind = tree[node].kind;
            ||| (kind == NodeKind::InputObjectTypeDefinition || kind == NodeKind::InputObjectTypeExtension) && inside(
                tree,
                node,
                NodeKind::InputFieldsDefinition,
                Class::Node(NodeKind::InputValueDefinition),
            ).contains(part) && input_field_emissions(tree, sources[document], name, part).contains(emission)
            ||| (kind == NodeKind::EnumTypeDefinition || kind == NodeKind::EnumTypeExtension) && inside(
                tree,
                node,
                NodeKind::EnumValuesDefinition,
                Class::Node(NodeKind::EnumValueDefinition),
            ).contains(part) && enum_value_emissions(tree, sources[document], name, part).contains(emission)
        }),
    ensures
        defined(sources, parsed, document, node).contains(emission),
{
    let tree = trees_in(parsed)[document];
    let source = sources[document];
    let all = defined(sources, parsed, document, node);
    let kind = tree[node].kind;
    if kind == NodeKind::InputObjectTypeDefinition || kind == NodeKind::InputObjectTypeExtension {
        let list = inside(tree, node, NodeKind::InputFieldsDefinition, Class::Node(NodeKind::InputValueDefinition));
        let i = choose|i: int| 0 <= i < list.len() && list[i] == part;
        within_concat(list, |field: int| input_field_emissions(tree, source, name, field), i, emission);
        let rest = input_emissions(tree, source, name, node);
        let k = choose|k: int| 0 <= k < rest.len() && rest[k] == emission;
        assert(all[1 + k] == emission);
    } else {
        let list = inside(tree, node, NodeKind::EnumValuesDefinition, Class::Node(NodeKind::EnumValueDefinition));
        let i = choose|i: int| 0 <= i < list.len() && list[i] == part;
        within_concat(list, |value: int| enum_value_emissions(tree, source, name, value), i, emission);
        let rest = enum_emissions(tree, source, name, node);
        let k = choose|k: int| 0 <= k < rest.len() && rest[k] == emission;
        assert(all[1 + k] == emission);
    }
}

/// A field that names the field of a subgraph that it comes from is said to be resolved by that
/// field, if both are known and they differ. The field of the subgraph belongs to the type that
/// the type around it comes from there, or else to the type of the same name.
pub proof fn composed_fields_are_said_to_be_resolved(
    facts: GraphqlFacts,
    sources: Seq<SourceModel>,
    parsed: Seq<RawDocumentModel>,
    document: int,
    node: int,
    name: Seq<char>,
    field: int,
    field_name: Seq<char>,
    subgraph: Seq<char>,
    upstream_name: Seq<char>,
)
    requires
        facts.are_of(sources, parsed),
        is_defined(parsed, document, node),
        has_fields(trees_in(parsed)[document][node].kind),
        name_of(trees_in(parsed)[document], node) == Some(name),
        fields_of(trees_in(parsed)[document], node).contains(field),
        name_of(trees_in(parsed)[document], field) == Some(field_name),
        directive_argument_of(trees_in(parsed)[document], field, "source"@, "subgraph"@) == Some(subgraph),
        directive_argument_of(trees_in(parsed)[document], field, "source"@, "name"@) == Some(upstream_name),
    ensures
        ({
            let origins = sources_of(trees_in(parsed));
            let parent = known_as(scope_of(trees_in(parsed)).roots, name);
            let id = "graphql-field://"@ + parent + "/"@ + field_name;
            let there = if origins.contains_key(seq![name, subgraph]) {
                origins[seq![name, subgraph]]
            } else {
                parent
            };
            let upstream = "graphql-field://"@ + there + "/"@ + upstream_name;
            id != upstream && knows(facts, id) && knows(facts, upstream) ==> says(
                facts,
                id,
                depends(DependencyRelation::ResolvedBy),
                upstream,
                evidence_text(sources[document], trees_in(parsed)[document][field].start),
            )
        }),
{
    let trees = trees_in(parsed);
    let tree = trees[document];
    let source = sources[document];
    let origins = sources_of(trees);
    let parent = known_as(scope_of(trees).roots, name);
    let id = "graphql-field://"@ + parent + "/"@ + field_name;
    let there = if origins.contains_key(seq![name, subgraph]) {
        origins[seq![name, subgraph]]
    } else {
        parent
    };
    let upstream = "graphql-field://"@ + there + "/"@ + upstream_name;
    let evidence = evidence_text(source, tree[field].start);
    if id != upstream && knows(facts, id) && knows(facts, upstream) {
        field_holds(tree, source, name, parent, origins, field, field_name);
        let emission = EmissionModel::Stitched { gateway: id, upstream, evidence };
        field_in_definition(sources, parsed, document, node, name, field, emission);
        defined_is_emitted(sources, parsed, document, node, emission);
        known_by_key(facts, sources, parsed, id);
        known_by_key(facts, sources, parsed, upstream);
        let all = everything(sources, parsed);
        let entities = known_entities(sources, parsed);
        let o = read(id, depends(DependencyRelation::ResolvedBy), upstream, evidence);
        let k = choose|k: int| 0 <= k < all.len() && all[k] == emission;
        let piece = |e: EmissionModel| stitched_entry(entities.dom(), e);
        assert(piece(all[k])[0] == o);
        within_concat(all, piece, k, o);
        let own = concat_map(all, |e: EmissionModel| observation_entry(e));
        let rest = concat_map(all, piece);
        at_back(own, rest, o);
        assert(trees == Seq::new(parsed.len(), |d: int| tree_of(parsed[d].elements)));
        let models = facts.observations@.map_values(|o: Observation| o@);
        assert(models == own + rest);
        said_by_model(facts, models, o);
    }
}

/// Every field that stands in the selections of an operation, of its fields or of the fragments in
/// place there is known, and is said to be selected: on the type that the selections are made on,
/// by what makes them.
pub proof fn selected_fields_are_said_to_be_selected(
    facts: GraphqlFacts,
    sources: Seq<SourceModel>,
    parsed: Seq<RawDocumentModel>,
    document: int,
    node: int,
    opening: Place,
    place: Place,
    n: nat,
    field: int,
    name: Seq<char>,
)
    requires
        facts.are_of(sources, parsed),
        scope_of(trees_in(parsed)).wf(),
        is_defined(parsed, document, node),
        0 <= node < trees_in(parsed)[document].len(),
        trees_in(parsed)[document][node].kind == NodeKind::OperationDefinition,
        is_opening(scope_of(trees_in(parsed)), sources[document], document, node, opening),
        reaches_in_place(scope_of(trees_in(parsed)), opening, place, n),
        holds(scope_of(trees_in(parsed)), place, field, NodeKind::Field),
        name_of(trees_in(parsed)[place.document], field) == Some(name),
    ensures
        ({
            let id = "graphql-field://"@ + place.parent + "/"@ + name;
            &&& knows(facts, id)
            &&& says(
                facts,
                place.selector,
                depends(DependencyRelation::Selects),
                id,
                evidence_text(sources[document], trees_in(parsed)[place.document][field].start),
            )
        }),
{
    let scope = scope_of(trees_in(parsed));
    let source = sources[document];
    let id = "graphql-field://"@ + place.parent + "/"@ + name;
    fields_in_place_are_selected(scope, source, document, node, opening, place, n, field, name);
    let all = operation_emissions(scope, source, document, node);
    assert(defined(sources, parsed, document, node) == all);
    defined_is_known(
        facts,
        sources,
        parsed,
        document,
        node,
        EmissionModel::Entity { id, kind: EntityKind::GraphqlField, metadata: None },
    );
    let o = choose|o: ObservationModel| #[trigger]
        all.contains(EmissionModel::Observed(o)) && o.from == place.selector && o.relation == SemanticRelation::Dependency(
            DependencyRelation::Selects,
        ) && o.to == id && o.evidence == evidence_text(source, scope.trees[place.document][field].start);
    defined_is_said(facts, sources, parsed, document, node, o);
}

proof fn comes_from_concat<A, B>(list: Seq<A>, piece: spec_fn(A) -> Seq<B>, item: B) -> (i: int)
    requires
        concat_map(list, piece).contains(item),
    ensures
        0 <= i < list.len(),
        piece(list[i]).contains(item),
    decreases list.len(),
{
    let less = list.drop_last();
    let before = concat_map(less, piece);
    let last = piece(list.last());
    let k = choose|k: int| 0 <= k < (before + last).len() && (before + last)[k] == item;
    if k < before.len() {
        assert(before[k] == item);
        let i = comes_from_concat(less, piece, item);
        assert(less[i] == list[i]);
        i
    } else {
        assert(last[k - before.len()] == item);
        list.len() - 1
    }
}

proof fn comes_from_range<B>(n: int, piece: spec_fn(int) -> Seq<B>, item: B) -> (i: int)
    requires
        concat_range(n, piece).contains(item),
    ensures
        0 <= i < n,
        piece(i).contains(item),
    decreases n,
{
    let before = concat_range(n - 1, piece);
    let last = piece(n - 1);
    let k = choose|k: int| 0 <= k < (before + last).len() && (before + last)[k] == item;
    if k < before.len() {
        assert(before[k] == item);
        comes_from_range(n - 1, piece, item)
    } else {
        assert(last[k - before.len()] == item);
        n - 1
    }
}

proof fn kept_was_given<K, V>(entries: Seq<(K, V)>, key: K)
    requires
        first_wins(Map::empty(), entries).contains_key(key),
    ensures
        entries.contains((key, first_wins(Map::empty(), entries)[key])),
    decreases entries.len(),
{
    let less = entries.drop_last();
    let before = first_wins(Map::empty(), less);
    if before.contains_key(key) {
        kept_was_given(less, key);
        let i = choose|i: int| 0 <= i < less.len() && less[i] == (key, before[key]);
        assert(entries[i] == less[i]);
    } else {
        assert(entries[entries.len() - 1] == entries.last());
    }
}

/// Whether a definition is a schema, or extends one, and names a root type for a kind of operation.
pub open spec fn names_root(tree: Seq<ElementModel>, node: int, part: int, name: Seq<char>, kind: GraphqlOperationKind) -> bool {
    &&& tree[node].kind == NodeKind::SchemaDefinition || tree[node].kind == NodeKind::SchemaExtension
    &&& select(tree, node, Class::Node(NodeKind::RootOperationTypeDefinition)).contains(part)
    &&& name_inside(tree, part, NodeKind::NamedType) == Some(name)
    &&& first(tree, part, Class::Node(NodeKind::OperationType)) matches Some(operation) && {
        let mutates = first(tree, operation, Class::Token(NodeKind::MutationKeyword)) is Some;
        let subscribes = first(tree, operation, Class::Token(NodeKind::SubscriptionKeyword)) is Some;
        match kind {
            GraphqlOperationKind::Mutation => mutates,
            GraphqlOperationKind::Subscription => subscribes && !mutates,
            GraphqlOperationKind::Query => !mutates && !subscribes,
        }
    }
}

/// Whether a definition has a field of a type.
pub open spec fn has_field(tree: Seq<ElementModel>, node: int, field: int, declared: Seq<char>, name: Seq<char>, ty: Seq<char>) -> bool {
    &&& has_fields(tree[node].kind)
    &&& name_of(tree, node) == Some(declared)
    &&& fields_of(tree, node).contains(field)
    &&& name_of(tree, field) == Some(name)
    &&& name_of_type(tree, field) == Some(ty)
}

/// Whether a definition is a fragment of a name.
pub open spec fn is_fragment(tree: Seq<ElementModel>, node: int, name: Seq<char>) -> bool {
    tree[node].kind == NodeKind::FragmentDefinition && name_inside(tree, node, NodeKind::FragmentName) == Some(name)
}

/// Root types are known as a schema names them, each by one of the kinds of operation that it is
/// named for.
pub proof fn roots_are_those_that_schemas_name(parsed: Seq<RawDocumentModel>, name: Seq<char>)
    ensures
        ({
            let roots = scope_of(trees_in(parsed)).roots;
            &&& roots.contains_key(seq![name]) ==> exists|document: int, node: int, part: int|
                #![trigger is_defined(parsed, document, node), names_root(trees_in(parsed)[document], node, part, name, roots[seq![name]])]
                is_defined(parsed, document, node) && names_root(trees_in(parsed)[document], node, part, name, roots[seq![name]])
            &&& forall|document: int, node: int, part: int, kind: GraphqlOperationKind| #[trigger]
                is_defined(parsed, document, node) && #[trigger] names_root(trees_in(parsed)[document], node, part, name, kind)
                    ==> roots.contains_key(seq![name])
        }),
{
    let trees = trees_in(parsed);
    let n = trees.len() as int;
    let roots = scope_of(trees).roots;
    let entries = all_roots(trees, n);
    let of_document = |d: int| document_roots(trees[d]);
    assert(seq![name][0] == name);
    if roots.contains_key(seq![name]) {
        kept_was_given(entries, seq![name]);
        let entry = (seq![name], roots[seq![name]]);
        let d = comes_from_range(n, of_document, entry);
        let tree = trees[d];
        let i = comes_from_concat(definitions(tree), |node: int| declared_roots(tree, node), entry);
        let node = definitions(tree)[i];
        assert(definitions(tree).contains(node));
        let parts = select(tree, node, Class::Node(NodeKind::RootOperationTypeDefinition));
        let k = comes_from_concat(parts, |definition: int| root_entry(tree, definition), entry);
        let part = parts[k];
        assert(parts.contains(part));
        let given = root_entry(tree, part);
        let m = choose|m: int| 0 <= m < given.len() && given[m] == entry;
        assert(given[m].0[0] == name);
        assert(is_defined(parsed, d, node) && names_root(tree, node, part, name, roots[seq![name]]));
    }
    assert forall|document: int, node: int, part: int, kind: GraphqlOperationKind| #[trigger]
        is_defined(parsed, document, node) && #[trigger] names_root(trees_in(parsed)[document], node, part, name, kind) implies roots.contains_key(
        seq![name],
    ) by {
        let tree = trees[document];
        let entry = (seq![name], kind);
        let parts = select(tree, node, Class::Node(NodeKind::RootOperationTypeDefinition));
        let k = choose|k: int| 0 <= k < parts.len() && parts[k] == part;
        let own = |definition: int| root_entry(tree, definition);
        assert(own(parts[k])[0] == entry);
        within_concat(parts, own, k, entry);
        let list = definitions(tree);
        let i = choose|i: int| 0 <= i < list.len() && list[i] == node;
        within_concat(list, |node: int| declared_roots(tree, node), i, entry);
        within_range(n, of_document, document, entry);
        let e = choose|e: int| 0 <= e < entries.len() && entries[e] == entry;
        first_is_kept(Map::<Seq<Seq<char>>, GraphqlOperationKind>::empty(), entries, e);
    }
}

/// The types of fields are known as they are declared: for each field with a type there is one, and
/// it is one that a field of that name is declared with. Fields of a root type go by what it is
/// the root of.
pub proof fn field_types_are_those_declared(parsed: Seq<RawDocumentModel>, parent: Seq<char>, name: Seq<char>)
    ensures
        ({
            let scope = scope_of(trees_in(parsed));
            let key = seq![parent, name];
            &&& scope.field_types.contains_key(key) ==> exists|document: int, node: int, field: int, declared: Seq<char>|
                #![trigger is_defined(parsed, document, node), has_field(trees_in(parsed)[document], node, field, declared, name, scope.field_types[key])]
                is_defined(parsed, document, node) && known_as(scope.roots, declared) == parent && has_field(
                    trees_in(parsed)[document],
                    node,
                    field,
                    declared,
                    name,
                    scope.field_types[key],
                )
            &&& forall|document: int, node: int, field: int, declared: Seq<char>, ty: Seq<char>| #[trigger]
                is_defined(parsed, document, node) && known_as(scope.roots, declared) == parent && #[trigger] has_field(
                    trees_in(parsed)[document],
                    node,
                    field,
                    declared,
                    name,
                    ty,
                ) ==> scope.field_types.contains_key(key)
        }),
{
    let trees = trees_in(parsed);
    let n = trees.len() as int;
    let scope = scope_of(trees);
    let roots = scope.roots;
    let key = seq![parent, name];
    let entries = all_fields(trees, roots, n);
    let of_document = |d: int| document_fields(trees[d], roots);
    assert(key[0] == parent && key[1] == name);
    if scope.field_types.contains_key(key) {
        kept_was_given(entries, key);
        let ty = scope.field_types[key];
        let entry = (key, ty);
        let d = comes_from_range(n, of_document, entry);
        let tree = trees[d];
        let i = comes_from_concat(definitions(tree), |node: int| declared_fields(tree, roots, node), entry);
        let node = definitions(tree)[i];
        assert(definitions(tree).contains(node));
        let declared = name_of(tree, node)->0;
        let parts = fields_of(tree, node);
        let canonical = canonical_type(roots, declared);
        assert(canonical == known_as(roots, declared));
        let k = comes_from_concat(parts, |field: int| field_entry(tree, canonical, field), entry);
        let field = parts[k];
        assert(parts.contains(field));
        let given = field_entry(tree, canonical, field);
        let m = choose|m: int| 0 <= m < given.len() && given[m] == entry;
        assert(given[m].0[0] == parent && given[m].0[1] == name);
        assert(is_defined(parsed, d, node) && has_field(tree, node, field, declared, name, ty));
    }
    assert forall|document: int, node: int, field: int, declared: Seq<char>, ty: Seq<char>| #[trigger]
        is_defined(parsed, document, node) && known_as(scope.roots, declared) == parent && #[trigger] has_field(
            trees_in(parsed)[document],
            node,
            field,
            declared,
            name,
            ty,
        ) implies scope.field_types.contains_key(key) by {
        let tree = trees[document];
        let entry = (key, ty);
        let parts = fields_of(tree, node);
        let k = choose|k: int| 0 <= k < parts.len() && parts[k] == field;
        let canonical = canonical_type(roots, declared);
        assert(canonical == known_as(roots, declared));
        let own = |field: int| field_entry(tree, canonical, field);
        assert(own(parts[k])[0] == entry);
        within_concat(parts, own, k, entry);
        let list = definitions(tree);
        let i = choose|i: int| 0 <= i < list.len() && list[i] == node;
        within_concat(list, |node: int| declared_fields(tree, roots, node), i, entry);
        within_range(n, of_document, document, entry);
        let e = choose|e: int| 0 <= e < entries.len() && entries[e] == entry;
        first_is_kept(Map::<Seq<Seq<char>>, Seq<char>>::empty(), entries, e);
    }
}

/// Fragments are known by their names: each name for which one is defined leads to one that is
/// defined under it.
pub proof fn fragments_are_those_defined(parsed: Seq<RawDocumentModel>, name: Seq<char>)
    requires
        parsed.len() <= usize::MAX,
        forall|d: int| 0 <= d < parsed.len() ==> (#[trigger] trees_in(parsed)[d]).len() <= usize::MAX,
    ensures
        ({
            let fragments = scope_of(trees_in(parsed)).fragments;
            &&& fragments.contains_key(seq![name]) ==> {
                let (document, node) = fragments[seq![name]];
                is_defined(parsed, document as int, node as int) && is_fragment(trees_in(parsed)[document as int], node as int, name)
            }
            &&& forall|document: int, node: int| #[trigger]
                is_defined(parsed, document, node) && is_fragment(trees_in(parsed)[document], node, name) ==> fragments.contains_key(
                    seq![name],
                )
        }),
{
    let trees = trees_in(parsed);
    let n = trees.len() as int;
    let fragments = scope_of(trees).fragments;
    let entries = all_fragments(trees, n);
    let of_document = |d: int| document_fragments(trees[d], d);
    assert(seq![name][0] == name);
    if fragments.contains_key(seq![name]) {
        kept_was_given(entries, seq![name]);
        let entry = (seq![name], fragments[seq![name]]);
        let d = comes_from_range(n, of_document, entry);
        let tree = trees[d];
        let i = comes_from_concat(definitions(tree), |node: int| declared_fragment(tree, d, node), entry);
        let node = definitions(tree)[i];
        assert(definitions(tree).contains(node));
        let given = declared_fragment(tree, d, node);
        let m = choose|m: int| 0 <= m < given.len() && given[m] == entry;
        assert(given[m].0[0] == name);
        select_within(tree, 0, Class::AnyNode);
        assert(tree.len() <= usize::MAX);
        assert(0 <= node < tree.len());
        assert(d as usize == d && node as usize == node);
    }
    assert forall|document: int, node: int| #[trigger]
        is_defined(parsed, document, node) && is_fragment(trees_in(parsed)[document], node, name) implies fragments.contains_key(
        seq![name],
    ) by {
        let tree = trees[document];
        let own = |node: int| declared_fragment(tree, document, node);
        let list = definitions(tree);
        let i = choose|i: int| 0 <= i < list.len() && list[i] == node;
        let entry = own(node)[0];
        assert(entry.0 == seq![name]);
        assert(own(list[i]).contains(entry));
        within_concat(list, own, i, entry);
        within_range(n, of_document, document, entry);
        let e = choose|e: int| 0 <= e < entries.len() && entries[e] == entry;
        first_is_kept(Map::<Seq<Seq<char>>, (usize, usize)>::empty(), entries, e);
    }
}

} // verus!
