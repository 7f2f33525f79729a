//! What the operations of a GraphQL document select.

use super::schema::{
    canonical_name, canonical_type, dependency, emit_dependency, emit_entity, emit_structural, emitted, field_id,
    field_identifier, operation_kind, operation_type, operation_type_name, pair, root_name, structural, text_values,
    type_relationship, typed, Emission, EmissionModel, Pairs, Roots,
};
use super::syntax::{first, inside, name_inside, name_of, positions, select, Class, ElementModel, NodeKind, SyntaxDocument};
use super::{evidence, evidence_text, GraphqlSource, SourceModel};
use crate::domain::{DependencyRelation, EntityKind, EntityMetadata, GraphqlOperationKind, StructuralRelation};
use crate::seqs::{concat_map, concat_map_step};
use crate::sorted::SortedMap;
use vstd::prelude::*;

verus! {

/// What selections are read against: all documents, and what their definitions declare.
pub ghost struct Scope {
    pub trees: Seq<Seq<ElementModel>>,
    pub fragments: Map<Seq<Seq<char>>, (usize, usize)>,
    pub field_types: Pairs,
    pub roots: Roots,
}

impl Scope {
    /// Fragments are finitely many, and each stands in a document.
    pub open spec fn wf(self) -> bool {
        &&& self.fragments.dom().finite()
        &&& forall|k: Seq<Seq<char>>|
            #[trigger] self.fragments.contains_key(k) ==> {
                &&& self.fragments[k].0 < self.trees.len()
                &&& self.fragments[k].1 < self.trees[self.fragments[k].0 as int].len()
            }
    }

    /// How many fragments have not been visited.
    pub open spec fn unseen(self, visited: Set<Seq<Seq<char>>>) -> nat {
        self.fragments.dom().difference(visited).len()
    }
}

/// More visited fragments leave no more unseen.
pub proof fn unseen_shrinks(scope: Scope, a: Set<Seq<Seq<char>>>, b: Set<Seq<Seq<char>>>)
    requires
        scope.fragments.dom().finite(),
        a.subset_of(b),
    ensures
        scope.unseen(b) <= scope.unseen(a),
{
    let all = scope.fragments.dom();
    assert(all.difference(b).subset_of(all.difference(a)));
    vstd::set_lib::lemma_len_subset(all.difference(b), all.difference(a));
}

/// Visiting a fragment for the first time leaves fewer unseen.
pub proof fn unseen_decreases(scope: Scope, visited: Set<Seq<Seq<char>>>, name: Seq<Seq<char>>)
    requires
        scope.fragments.dom().finite(),
        scope.fragments.contains_key(name),
        !visited.contains(name),
    ensures
        scope.unseen(visited.insert(name)) < scope.unseen(visited),
{
    let all = scope.fragments.dom();
    assert(all.difference(visited.insert(name)) =~= all.difference(visited).remove(name));
    assert(all.difference(visited).contains(name));
}

/// The type that the selections of a fragment are made on.
pub open spec fn fragment_parent(roots: Roots, tree: Seq<ElementModel>, node: int, fallback: Seq<char>) -> Seq<char> {
    match first(tree, node, Class::Node(NodeKind::TypeCondition)) {
        Some(condition) => match name_inside(tree, condition, NodeKind::NamedType) {
            Some(parent) => canonical_type(roots, parent),
            None => fallback,
        },
        None => fallback,
    }
}

/// What a set of selections contributes from its `k`-th selection on, and which fragments have
/// been visited by then. Each fragment is followed once in an operation.
pub open spec fn selected(
    scope: Scope,
    source: SourceModel,
    document: int,
    set: int,
    k: int,
    parent: Seq<char>,
    selector: Seq<char>,
    visited: Set<Seq<Seq<char>>>,
) -> (Seq<EmissionModel>, Set<Seq<Seq<char>>>)
    decreases
        scope.unseen(visited),
        scope.trees[document].len() - set,
        select(scope.trees[document], set, Class::Selection).len() - k,
    when scope.wf() && 0 <= document < scope.trees.len() && 0 <= set < scope.trees[document].len()
{
    let tree = scope.trees[document];
    let list = select(tree, set, Class::Selection);
    if k >= list.len() {
        (Seq::empty(), visited)
    } else {
        let node = list[k];
        let nested = first(tree, node, Class::Node(NodeKind::SelectionSet));
        let (here, after) = if tree[node].kind == NodeKind::Field {
            match name_of(tree, node) {
                Some(name) => {
                    let id = field_id(parent, name);
                    let own = seq![
                        EmissionModel::Entity { id, kind: EntityKind::GraphqlField, metadata: None },
                        dependency(
                            selector,
                            DependencyRelation::Selects,
                            id,
                            evidence_text(source, tree[node].start),
                        ),
                    ];
                    if nested is Some && set < nested->0 < tree.len() && scope.field_types.contains_key(seq![parent, name]) {
                        let (inner, seen) = selected(
                            scope,
                            source,
                            document,
                            nested->0,
                            0,
                            scope.field_types[seq![parent, name]],
                            id,
                            visited,
                        );
                        (own + inner, visited.union(seen))
                    } else {
                        (own, visited)
                    }
                },
                None => (Seq::empty(), visited),
            }
        } else if tree[node].kind == NodeKind::FragmentSpread {
            match name_inside(tree, node, NodeKind::FragmentName) {
                Some(name) => if visited.contains(seq![name]) {
                    (Seq::empty(), visited)
                } else if scope.fragments.contains_key(seq![name]) {
                    proof {
                        unseen_decreases(scope, visited, seq![name]);
                    }
                    let (other, fragment) = scope.fragments[seq![name]];
                    let body = first(scope.trees[other as int], fragment as int, Class::Node(NodeKind::SelectionSet));
                    if body is Some && 0 <= body->0 < scope.trees[other as int].len() {
                        let (inner, seen) = selected(
                            scope,
                            source,
                            other as int,
                            body->0,
                            0,
                            fragment_parent(scope.roots, scope.trees[other as int], fragment as int, parent),
                            selector,
                            visited.insert(seq![name]),
                        );
                        (inner, visited.insert(seq![name]).union(seen))
                    } else {
                        (Seq::empty(), visited.insert(seq![name]))
                    }
                } else {
                    (Seq::empty(), visited.insert(seq![name]))
                },
                None => (Seq::empty(), visited),
            }
        } else if nested is Some && set < nested->0 < tree.len() {
            let (inner, seen) = selected(
                scope,
                source,
                document,
                nested->0,
                0,
                fragment_parent(scope.roots, tree, node, parent),
                selector,
                visited,
            );
            (inner, visited.union(seen))
        } else {
            (Seq::empty(), visited)
        };
        proof {
            unseen_shrinks(scope, visited, after);
        }
        let (rest, last) = selected(scope, source, document, set, k + 1, parent, selector, after);
        (here + rest, last)
    }
}

/// The contents of the documents' trees.
pub open spec fn trees_of(documents: Seq<SyntaxDocument>) -> Seq<Seq<ElementModel>> {
    documents.map_values(|d: SyntaxDocument| d@)
}

/// What selections are read against, and whose operation makes them.
pub struct SelectionContext<'a> {
    pub documents: &'a Vec<SyntaxDocument>,
    pub source: GraphqlSource<'a>,
    pub fragments: &'a SortedMap<String, (usize, usize)>,
    pub field_types: &'a SortedMap<Vec<String>, String>,
    pub roots: &'a SortedMap<String, GraphqlOperationKind>,
}

impl<'a> SelectionContext<'a> {
    /// The scope that the context stands for.
    pub open spec fn scope(&self) -> Scope {
        Scope {
            trees: trees_of(self.documents@),
            fragments: self.fragments@,
            field_types: text_values(self.field_types@),
            roots: self.roots@,
        }
    }

    pub open spec fn wf(&self) -> bool {
        &&& self.scope().wf()
        &&& self.fragments.wf()
        &&& self.field_types.wf()
        &&& self.roots.wf()
        &&& self.source.fits()
    }
}

/// The type that the selections of a fragment are made on.
pub fn selection_parent(
    roots: &SortedMap<String, GraphqlOperationKind>,
    tree: &SyntaxDocument,
    node: usize,
    fallback: &str,
) -> (r: String)
    requires
        node < tree@.len(),
        roots.wf(),
    ensures
        r@ == fragment_parent(roots@, tree@, node as int, fallback@),
{
    match tree.first(node, Class::Node(NodeKind::TypeCondition)) {
        Some(condition) => match tree.name_inside(condition, NodeKind::NamedType) {
            Some(parent) => canonical_name(roots, parent.as_str()),
            None => fallback.to_owned(),
        },
        None => fallback.to_owned(),
    }
}

/// Emits what a set of selections contributes, following each fragment once.
pub fn selection_facts(
    out: &mut Vec<Emission>,
    context: &SelectionContext<'_>,
    document: usize,
    set: usize,
    parent: &str,
    selector: &str,
    visited: &mut SortedMap<String, ()>,
)
    requires
        context.wf(),
        document < context.documents@.len(),
        set < context.documents@[document as int]@.len(),
        old(visited).wf(),
    ensures
        final(visited).wf(),
        old(visited)@.dom().subset_of(final(visited)@.dom()),
        ({
            let walk = selected(
                context.scope(),
                context.source@,
                document as int,
                set as int,
                0,
                parent@,
                selector@,
                old(visited)@.dom(),
            );
            &&& emitted(final(out)@) == emitted(old(out)@) + walk.0
            &&& final(visited)@.dom() == walk.1
        }),
    decreases
        context.scope().unseen(old(visited)@.dom()),
        context.documents@[document as int]@.len() - set,
{
    let ghost scope = context.scope();
    let ghost source = context.source@;
    let tree: &SyntaxDocument = &context.documents[document];
    assert(scope.trees[document as int] == tree@);
    let list: Vec<usize> = tree.select(set, Class::Selection);
    let ghost all = positions(list@);
    let ghost start = visited@.dom();
    let ghost base = emitted(out@);
    let ghost whole = selected(scope, source, document as int, set as int, 0, parent@, selector@, start);
    let mut k: usize = 0;
    assert(base + selected(scope, source, document as int, set as int, 0, parent@, selector@, start).0 =~= base + whole.0);
    while k < list.len()
        invariant
            k <= list.len(),
            context.wf(),
            scope == context.scope(),
            source == context.source@,
            document < context.documents@.len(),
            *tree == context.documents@[document as int],
            scope.trees[document as int] == tree@,
            set < tree@.len(),
            all == positions(list@),
            all == select(tree@, set as int, Class::Selection),
            forall|j: int| 0 <= j < list@.len() ==> set < #[trigger] list@[j] < tree@.len(),
            visited.wf(),
            start.subset_of(visited@.dom()),
            start == old(visited)@.dom(),
            ({
                let rest = selected(
                    scope,
                    source,
                    document as int,
                    set as int,
                    k as int,
                    parent@,
                    selector@,
                    visited@.dom(),
                );
                &&& base + whole.0 == emitted(out@) + rest.0
                &&& whole.1 == rest.1
            }),
        decreases list.len() - k,
    {
        let node: usize = list[k];
        let ghost before = emitted(out@);
        let ghost seen_before = visited@.dom();
        assert(all[k as int] == node);
        let nested: Option<usize> = tree.first(node, Class::Node(NodeKind::SelectionSet));
        proof {
            unseen_shrinks(scope, start, seen_before);
        }
        let ghost step = selected(scope, source, document as int, set as int, k as int, parent@, selector@, seen_before);
        match tree.elements[node].kind {
            NodeKind::Field => {
                match tree.name_of(node) {
                    Some(name) => {
                        let id: String = field_identifier(parent, name.as_str());
                        let place: String = evidence(context.source, tree.elements[node].start);
                        emit_entity(out, id.as_str(), EntityKind::GraphqlField, None);
                        emit_dependency(out, selector, DependencyRelation::Selects, id.as_str(), place.as_str());
                        let ghost own = seq![
                            EmissionModel::Entity { id: id@, kind: EntityKind::GraphqlField, metadata: None },
                            dependency(selector@, DependencyRelation::Selects, id@, place@),
                        ];
                        assert(emitted(out@) =~= before + own);
                        let key: Vec<String> = pair(parent, name.as_str());
                        match (nested, context.field_types.get(&key)) {
                            (Some(body), Some(response)) => {
                                let ghost middle = emitted(out@);
                                selection_facts(out, context, document, body, response.as_str(), id.as_str(), visited);
                                let ghost inner = selected(
                                    scope,
                                    source,
                                    document as int,
                                    body as int,
                                    0,
                                    scope.field_types[seq![parent@, name@]],
                                    id@,
                                    seen_before,
                                );
                                assert(seen_before.union(inner.1) =~= visited@.dom());
                                assert(emitted(out@) =~= before + (own + inner.0));
                            },
                            _ => {},
                        }
                    },
                    None => {
                        assert(emitted(out@) =~= before + Seq::empty());
                    },
                }
            },
            NodeKind::FragmentSpread => {
                match tree.name_inside(node, NodeKind::FragmentName) {
                    Some(name) => {
                        if !visited.contains_key(&name) {
                            let ghost key = seq![name@];
                            visited.insert(name.clone(), ());
                            assert(visited@.dom() =~= seen_before.insert(key));
                            match context.fragments.get(&name) {
                                Some(found) => {
                                    let (other, fragment): (usize, usize) = *found;
                                    let target: &SyntaxDocument = &context.documents[other];
                                    assert(scope.trees[other as int] == target@);
                                    match target.first(fragment, Class::Node(NodeKind::SelectionSet)) {
                                        Some(body) => {
                                            let inner_parent: String = selection_parent(
                                                context.roots,
                                                target,
                                                fragment,
                                                parent,
                                            );
                                            proof {
                                                unseen_decreases(scope, seen_before, key);
                                            }
                                            selection_facts(
                                                out,
                                                context,
                                                other,
                                                body,
                                                inner_parent.as_str(),
                                                selector,
                                                visited,
                                            );
                                            let ghost inner = selected(
                                                scope,
                                                source,
                                                other as int,
                                                body as int,
                                                0,
                                                inner_parent@,
                                                selector@,
                                                seen_before.insert(key),
                                            );
                                            assert(seen_before.insert(key).union(inner.1) =~= visited@.dom());
                                        },
                                        None => {
                                            assert(emitted(out@) =~= before + Seq::empty());
                                        },
                                    }
                                },
                                None => {
                                    assert(emitted(out@) =~= before + Seq::empty());
                                },
                            }
                        } else {
                            assert(emitted(out@) =~= before + Seq::empty());
                        }
                    },
                    None => {
                        assert(emitted(out@) =~= before + Seq::empty());
                    },
                }
            },
            _ => {
                match nested {
                    Some(body) => {
                        let inner_parent: String = selection_parent(context.roots, tree, node, parent);
                        selection_facts(out, context, document, body, inner_parent.as_str(), selector, visited);
                        let ghost inner = selected(
                            scope,
                            source,
                            document as int,
                            body as int,
                            0,
                            inner_parent@,
                            selector@,
                            seen_before,
                        );
                        assert(seen_before.union(inner.1) =~= visited@.dom());
                    },
                    None => {
                        assert(emitted(out@) =~= before + Seq::empty());
                    },
                }
            },
        }
        let ghost rest = selected(
            scope,
            source,
            document as int,
            set as int,
            k as int + 1,
            parent@,
            selector@,
            visited@.dom(),
        );
        assert(step.1 == rest.1);
        assert(before + step.0 =~= emitted(out@) + rest.0);
        k = k + 1;
    }
    assert(emitted(out@) + Seq::<EmissionModel>::empty() =~= emitted(out@));
}

/// The name of an operation; one without a name is named after its file.
pub open spec fn operation_name(tree: Seq<ElementModel>, source: SourceModel, node: int) -> Seq<char> {
    match name_of(tree, node) {
        Some(name) => name,
        None => "anonymous@"@ + source.path,
    }
}

/// The identifier of an operation.
pub open spec fn operation_id(name: Seq<char>) -> Seq<char> {
    "graphql-operation://"@ + name
}

/// The identifier of an operation's variable.
pub open spec fn variable_id(operation: Seq<char>, name: Seq<char>) -> Seq<char> {
    "graphql-argument://operation/"@ + operation + "/"@ + name
}

/// What an operation does; a query unless it says otherwise.
pub open spec fn kind_of_operation(tree: Seq<ElementModel>, node: int) -> GraphqlOperationKind {
    match first(tree, node, Class::Node(NodeKind::OperationType)) {
        Some(operation) => operation_kind(tree, operation),
        None => GraphqlOperationKind::Query,
    }
}

/// What an operation does; a query unless it says otherwise.
pub fn root_type(tree: &SyntaxDocument, node: usize) -> (r: GraphqlOperationKind)
    requires
        node < tree@.len(),
    ensures
        r == kind_of_operation(tree@, node as int),
{
    match tree.first(node, Class::Node(NodeKind::OperationType)) {
        Some(operation) => operation_type(tree, operation),
        None => GraphqlOperationKind::Query,
    }
}

/// What a variable of an operation contributes.
pub open spec fn variable_emissions(tree: Seq<ElementModel>, source: SourceModel, operation: Seq<char>, variable: int) -> Seq<EmissionModel> {
    match name_inside(tree, variable, NodeKind::Variable) {
        Some(name) => {
            let id = variable_id(operation, name);
            let owner = operation_id(operation);
            seq![
                EmissionModel::Entity { id, kind: EntityKind::GraphqlArgument, metadata: None },
                structural(id, StructuralRelation::FieldOf, owner, evidence_text(source, tree[variable].start)),
            ] + typed(tree, source, id, variable, StructuralRelation::RequestType) + typed(
                tree,
                source,
                owner,
                variable,
                StructuralRelation::RequestType,
            )
        },
        None => Seq::empty(),
    }
}

/// What the variables of an operation contribute.
pub open spec fn variables_emissions(tree: Seq<ElementModel>, source: SourceModel, operation: Seq<char>, node: int) -> Seq<EmissionModel> {
    concat_map(
        inside(tree, node, NodeKind::VariableDefinitions, Class::Node(NodeKind::VariableDefinition)),
        |variable: int| variable_emissions(tree, source, operation, variable),
    )
}

/// What an operation contributes.
pub open spec fn operation_emissions(scope: Scope, source: SourceModel, document: int, node: int) -> Seq<EmissionModel> {
    let tree = scope.trees[document];
    let name = operation_name(tree, source, node);
    let id = operation_id(name);
    let kind = kind_of_operation(tree, node);
    seq![
        EmissionModel::Entity {
            id,
            kind: EntityKind::GraphqlOperation,
            metadata: Some(EntityMetadata::GraphqlOperation { kind }),
        },
    ] + (match source.owner {
        Some(owner) => seq![
            structural(owner, StructuralRelation::Defines, id, evidence_text(source, tree[node].start)),
        ],
        None => Seq::empty(),
    }) + variables_emissions(tree, source, name, node) + (match first(tree, node, Class::Node(NodeKind::SelectionSet)) {
        Some(set) => selected(scope, source, document, set, 0, root_name(kind), id, Set::empty()).0,
        None => Seq::empty(),
    })
}

/// Emits what the variables of an operation contribute.
fn variable_facts(
    out: &mut Vec<Emission>,
    tree: &SyntaxDocument,
    source: GraphqlSource<'_>,
    operation: &str,
    node: usize,
)
    requires
        node < tree@.len(),
        source.fits(),
    ensures
        emitted(final(out)@) == emitted(old(out)@) + variables_emissions(tree@, source@, operation@, node as int),
{
    let mut owner: String = "graphql-operation://".to_owned();
    owner.append(operation);
    let list: Vec<usize> = tree.inside(node, NodeKind::VariableDefinitions, Class::Node(NodeKind::VariableDefinition));
    let ghost piece = |variable: int| variable_emissions(tree@, source@, operation@, variable);
    let ghost all = positions(list@);
    let ghost base = emitted(out@);
    let mut i: usize = 0;
    assert(base + concat_map(all.take(0), piece) =~= base);
    while i < list.len()
        invariant
            i <= list.len(),
            source.fits(),
            owner@ == operation_id(operation@),
            all == positions(list@),
            piece == (|variable: int| variable_emissions(tree@, source@, operation@, variable)),
            forall|k: int| 0 <= k < list@.len() ==> #[trigger] list@[k] < tree@.len(),
            emitted(out@) == base + concat_map(all.take(i as int), piece),
        decreases list.len() - i,
    {
        let variable: usize = list[i];
        let ghost before = emitted(out@);
        proof {
            concat_map_step(all, i as int, piece);
        }
        match tree.name_inside(variable, NodeKind::Variable) {
            Some(name) => {
                let mut id: String = "graphql-argument://operation/".to_owned();
                id.append(operation);
                id.append("/");
                id.append(name.as_str());
                let place: String = evidence(source, tree.elements[variable].start);
                emit_entity(out, id.as_str(), EntityKind::GraphqlArgument, None);
                emit_structural(out, id.as_str(), StructuralRelation::FieldOf, owner.as_str(), place.as_str());
                type_relationship(out, tree, source, id.as_str(), variable, StructuralRelation::RequestType);
                type_relationship(out, tree, source, owner.as_str(), variable, StructuralRelation::RequestType);
            },
            None => {},
        }
        assert(emitted(out@) =~= before + variable_emissions(tree@, source@, operation@, variable as int));
        assert(emitted(out@) =~= base + concat_map(all.take(i as int + 1), piece));
        i = i + 1;
    }
    assert(all.take(list.len() as int) =~= all);
}

/// Emits what an operation contributes.
pub fn operation_facts(out: &mut Vec<Emission>, context: &SelectionContext<'_>, document: usize, node: usize)
    requires
        context.wf(),
        document < context.documents@.len(),
        node < context.documents@[document as int]@.len(),
    ensures
        emitted(final(out)@) == emitted(old(out)@) + operation_emissions(
            context.scope(),
            context.source@,
            document as int,
            node as int,
        ),
{
    let tree: &SyntaxDocument = &context.documents[document];
    assert(context.scope().trees[document as int] == tree@);
    let source: GraphqlSource<'_> = context.source;
    let name: String = match tree.name_of(node) {
        Some(name) => name,
        None => {
            let mut name: String = "anonymous@".to_owned();
            name.append(source.path);
            name
        },
    };
    let mut id: String = "graphql-operation://".to_owned();
    id.append(name.as_str());
    let kind: GraphqlOperationKind = root_type(tree, node);
    let ghost base = emitted(out@);
    emit_entity(out, id.as_str(), EntityKind::GraphqlOperation, Some(EntityMetadata::GraphqlOperation { kind }));
    match source.owner {
        Some(owner) => {
            let place: String = evidence(source, tree.elements[node].start);
            emit_structural(out, owner, StructuralRelation::Defines, id.as_str(), place.as_str());
        },
        None => {},
    }
    let ghost head = emitted(out@);
    let ghost opening = seq![
        EmissionModel::Entity {
            id: id@,
            kind: EntityKind::GraphqlOperation,
            metadata: Some(EntityMetadata::GraphqlOperation { kind }),
        },
    ] + (match source@.owner {
        Some(owner) => seq![
            structural(owner, StructuralRelation::Defines, id@, evidence_text(source@, tree@[node as int].start)),
        ],
        None => Seq::empty(),
    });
    assert(head =~= base + opening);
    variable_facts(out, tree, source, name.as_str(), node);
    let ghost middle = emitted(out@);
    match tree.first(node, Class::Node(NodeKind::SelectionSet)) {
        Some(set) => {
            let mut visited: SortedMap<String, ()> = SortedMap::new();
            assert(visited@.dom() =~= Set::empty());
            selection_facts(out, context, document, set, operation_type_name(kind), id.as_str(), &mut visited);
        },
        None => {},
    }
    assert(emitted(out@) =~= base + operation_emissions(context.scope(), context.source@, document as int, node as int));
}

} // verus!
