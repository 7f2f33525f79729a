//! Which fields the operations of a GraphQL document select, and on which types.

use super::operations::{
    fragment_parent, operation_emissions, operation_id, operation_name, selected, unseen_decreases, unseen_shrinks,
    variable_emissions, variable_id, variables_emissions, Scope,
};
use super::schema::{dependency, field_id, typed, EmissionModel, Roots};
use super::syntax::{first, inside, name_inside, name_of, select, select_within, Class, ElementModel, NodeKind};
use super::{evidence_text, SourceModel};
use crate::domain::{DependencyRelation, EntityKind, GraphqlOperationKind, ObservationModel, SemanticRelation, StructuralRelation};
use crate::seqs::concat_map;
use vstd::prelude::*;

verus! {

/// A set of selections: where it stands, the type that they are made on, and what selects them.
pub ghost struct Place {
    pub document: int,
    pub set: int,
    pub parent: Seq<char>,
    pub selector: Seq<char>,
}

/// The type that a fragment is for, if it names one.
pub open spec fn named_type(tree: Seq<ElementModel>, fragment: int) -> Option<Seq<char>> {
    match first(tree, fragment, Class::Node(NodeKind::TypeCondition)) {
        Some(condition) => name_inside(tree, condition, NodeKind::NamedType),
        None => None,
    }
}

/// A type by the name under which its fields are known: a type that a schema declares as one of
/// its roots goes by what it is the root of.
pub open spec fn known_as(roots: Roots, name: Seq<char>) -> Seq<char> {
    if roots.contains_key(seq![name]) {
        match roots[seq![name]] {
            GraphqlOperationKind::Query => "Query"@,
            GraphqlOperationKind::Mutation => "Mutation"@,
            GraphqlOperationKind::Subscription => "Subscription"@,
        }
    } else {
        name
    }
}

/// Whether selections in a fragment are made on a type: on the one that the fragment names, or
/// else on the one that it is used on.
pub open spec fn is_made_on(roots: Roots, tree: Seq<ElementModel>, fragment: int, used_on: Seq<char>, made_on: Seq<char>) -> bool {
    match named_type(tree, fragment) {
        Some(name) => made_on == known_as(roots, name),
        None => made_on == used_on,
    }
}

/// Whether a set of selections holds a selection of a kind.
pub open spec fn holds(scope: Scope, place: Place, node: int, kind: NodeKind) -> bool {
    &&& 0 <= place.document < scope.trees.len()
    &&& 0 <= place.set < scope.trees[place.document].len()
    &&& select(scope.trees[place.document], place.set, Class::Selection).contains(node)
    &&& scope.trees[place.document][node].kind == kind
}

/// Whether a field leads to the selections made on what it returns.
pub open spec fn leads_into_field(scope: Scope, place: Place, node: int, next: Place) -> bool {
    let tree = scope.trees[place.document];
    &&& holds(scope, place, node, NodeKind::Field)
    &&& next.document == place.document
    &&& first(tree, node, Class::Node(NodeKind::SelectionSet)) == Some(next.set)
    &&& name_of(tree, node) matches Some(name) && scope.field_types.contains_key(seq![place.parent, name]) && next.parent
        == scope.field_types[seq![place.parent, name]] && next.selector == "graphql-field://"@ + place.parent + "/"@ + name
}

/// Whether a fragment that stands in place leads to the selections in it.
pub open spec fn leads_into_inline(scope: Scope, place: Place, node: int, next: Place) -> bool {
    let tree = scope.trees[place.document];
    &&& holds(scope, place, node, NodeKind::InlineFragment)
    &&& next.document == place.document
    &&& first(tree, node, Class::Node(NodeKind::SelectionSet)) == Some(next.set)
    &&& is_made_on(scope.roots, tree, node, place.parent, next.parent)
    &&& next.selector == place.selector
}

/// Whether a fragment that is spread leads to the selections in it.
pub open spec fn leads_into_spread(scope: Scope, place: Place, node: int, next: Place) -> bool {
    &&& holds(scope, place, node, NodeKind::FragmentSpread)
    &&& name_inside(scope.trees[place.document], node, NodeKind::FragmentName) matches Some(name) && scope.fragments.contains_key(
        seq![name],
    ) && {
        let (other, fragment) = scope.fragments[seq![name]];
        &&& next.document == other
        &&& first(scope.trees[other as int], fragment as int, Class::Node(NodeKind::SelectionSet)) == Some(next.set)
        &&& is_made_on(scope.roots, scope.trees[other as int], fragment as int, place.parent, next.parent)
        &&& next.selector == place.selector
    }
}

/// Whether a selection leads from one set of selections to another.
pub open spec fn leads_into(scope: Scope, place: Place, node: int, next: Place) -> bool {
    leads_into_field(scope, place, node, next) || leads_into_inline(scope, place, node, next) || leads_into_spread(scope, place, node, next)
}

/// Whether so many selections lead from one set of selections to another.
pub open spec fn reaches(scope: Scope, from: Place, to: Place, n: nat) -> bool
    decreases n,
{
    if n == 0 {
        from == to
    } else {
        exists|node: int, next: Place| #[trigger] leads_into(scope, from, node, next) && reaches(scope, next, to, (n - 1) as nat)
    }
}

/// Whether so many selections, none of them a spread, lead from one set of selections to another.
pub open spec fn reaches_in_place(scope: Scope, from: Place, to: Place, n: nat) -> bool
    decreases n,
{
    if n == 0 {
        from == to
    } else {
        exists|node: int, next: Place|
            #![trigger leads_into(scope, from, node, next)]
            leads_into(scope, from, node, next) && !leads_into_spread(scope, from, node, next) && reaches_in_place(
                scope,
                next,
                to,
                (n - 1) as nat,
            )
    }
}

/// Whether a field in a set of selections is what is emitted: a field of the type that the
/// selections are made on, or that what makes the selections selects this field.
pub open spec fn is_selected(scope: Scope, source: SourceModel, place: Place, node: int, emission: EmissionModel) -> bool {
    let tree = scope.trees[place.document];
    &&& holds(scope, place, node, NodeKind::Field)
    &&& name_of(tree, node) matches Some(name) && {
        let id = "graphql-field://"@ + place.parent + "/"@ + name;
        match emission {
            EmissionModel::Entity { id: named, kind, metadata } => named == id && kind == EntityKind::GraphqlField && metadata is None,
            EmissionModel::Observed(observation) => observation.from == place.selector && observation.relation
                == SemanticRelation::Dependency(DependencyRelation::Selects) && observation.to == id && observation.evidence
                == evidence_text(source, tree[node].start),
            EmissionModel::Stitched { .. } => false,
        }
    }
}

/// Whether an emission stems from a field within reach of a set of selections.
pub open spec fn stems(scope: Scope, source: SourceModel, from: Place, emission: EmissionModel) -> bool {
    exists|place: Place, node: int, n: nat|
        #![trigger reaches(scope, from, place, n), is_selected(scope, source, place, node, emission)]
        reaches(scope, from, place, n) && is_selected(scope, source, place, node, emission)
}

proof fn made_on(roots: Roots, tree: Seq<ElementModel>, fragment: int, used_on: Seq<char>)
    ensures
        is_made_on(roots, tree, fragment, used_on, fragment_parent(roots, tree, fragment, used_on)),
        forall|on: Seq<char>| #[trigger]
            is_made_on(roots, tree, fragment, used_on, on) ==> on == fragment_parent(roots, tree, fragment, used_on),
{
}

proof fn stems_behind(scope: Scope, source: SourceModel, from: Place, node: int, next: Place, emission: EmissionModel)
    requires
        leads_into(scope, from, node, next),
        stems(scope, source, next, emission),
    ensures
        stems(scope, source, from, emission),
{
    let (place, at, n) = choose|place: Place, at: int, n: nat|
        #![trigger reaches(scope, next, place, n), is_selected(scope, source, place, at, emission)]
        reaches(scope, next, place, n) && is_selected(scope, source, place, at, emission);
    assert(reaches(scope, next, place, ((n + 1) - 1) as nat));
    assert(reaches(scope, from, place, n + 1));
}

/// What one selection of a set contributes, and which fragments have been visited then.
spec fn contributed(
    scope: Scope,
    source: SourceModel,
    document: int,
    set: int,
    k: int,
    parent: Seq<char>,
    selector: Seq<char>,
    visited: Set<Seq<Seq<char>>>,
) -> (Seq<EmissionModel>, Set<Seq<Seq<char>>>) {
    let tree = scope.trees[document];
    let node = select(tree, set, Class::Selection)[k];
    let nested = first(tree, node, Class::Node(NodeKind::SelectionSet));
    if tree[node].kind == NodeKind::Field {
        match name_of(tree, node) {
            Some(name) => {
                let id = field_id(parent, name);
                let own = seq![
                    EmissionModel::Entity { id, kind: EntityKind::GraphqlField, metadata: None },
                    dependency(selector, DependencyRelation::Selects, id, evidence_text(source, tree[node].start)),
                ];
                if nested is Some && scope.field_types.contains_key(seq![parent, name]) {
                    let (inner, seen) = selected(
                        scope,
                        source,
                        document,
                        nested->0,
                        0,
                        scope.field_types[seq![parent, name]],
                        id,
                        visited,
                    );
                    (own + inner, visited.union(seen))
                } else {
                    (own, visited)
                }
            },
            None => (Seq::empty(), visited),
        }
    } else if tree[node].kind == NodeKind::FragmentSpread {
        match name_inside(tree, node, NodeKind::FragmentName) {
            Some(name) => if visited.contains(seq![name]) {
                (Seq::empty(), visited)
            } else if scope.fragments.contains_key(seq![name]) {
                let (other, fragment) = scope.fragments[seq![name]];
                let body = first(scope.trees[other as int], fragment as int, Class::Node(NodeKind::SelectionSet));
                if body is Some {
                    let (inner, seen) = selected(
                        scope,
                        source,
                        other as int,
                        body->0,
                        0,
                        fragment_parent(scope.roots, scope.trees[other as int], fragment as int, parent),
                        selector,
                        visited.insert(seq![name]),
                    );
                    (inner, visited.insert(seq![name]).union(seen))
                } else {
                    (Seq::empty(), visited.insert(seq![name]))
                }
            } else {
                (Seq::empty(), visited.insert(seq![name]))
            },
            None => (Seq::empty(), visited),
        }
    } else if nested is Some {
        let (inner, seen) = selected(
            scope,
            source,
            document,
            nested->0,
            0,
            fragment_parent(scope.roots, tree, node, parent),
            selector,
            visited,
        );
        (inner, visited.union(seen))
    } else {
        (Seq::empty(), visited)
    }
}

/// Whether a set of selections stands in a document.
spec fn stands(scope: Scope, document: int, set: int) -> bool {
    scope.wf() && 0 <= document < scope.trees.len() && 0 <= set < scope.trees[document].len()
}

proof fn selected_unfolds(
    scope: Scope,
    source: SourceModel,
    document: int,
    set: int,
    k: int,
    parent: Seq<char>,
    selector: Seq<char>,
    visited: Set<Seq<Seq<char>>>,
)
    requires
        stands(scope, document, set),
        0 <= k < select(scope.trees[document], set, Class::Selection).len(),
    ensures
        ({
            let (here, after) = contributed(scope, source, document, set, k, parent, selector, visited);
            let (rest, last) = selected(scope, source, document, set, k + 1, parent, selector, after);
            selected(scope, source, document, set, k, parent, selector, visited) == (here + rest, last)
        }),
        ({
            let node = select(scope.trees[document], set, Class::Selection)[k];
            let nested = first(scope.trees[document], node, Class::Node(NodeKind::SelectionSet));
            set < node < scope.trees[document].len() && (nested is Some ==> set < nested->0 < scope.trees[document].len())
        }),
        visited.subset_of(contributed(scope, source, document, set, k, parent, selector, visited).1),
{
    let tree = scope.trees[document];
    select_within(tree, set, Class::Selection);
    let node = select(tree, set, Class::Selection)[k];
    select_within(tree, node, Class::Node(NodeKind::SelectionSet));
    if let Some(name) = name_inside(tree, node, NodeKind::FragmentName) {
        if scope.fragments.contains_key(seq![name]) {
            let (other, fragment) = scope.fragments[seq![name]];
            select_within(scope.trees[other as int], fragment as int, Class::Node(NodeKind::SelectionSet));
        }
    }
}

proof fn fragment_body_stands(scope: Scope, name: Seq<char>)
    requires
        scope.wf(),
        scope.fragments.contains_key(seq![name]),
    ensures
        ({
            let (other, fragment) = scope.fragments[seq![name]];
            let body = first(scope.trees[other as int], fragment as int, Class::Node(NodeKind::SelectionSet));
            body is Some ==> stands(scope, other as int, body->0)
        }),
{
    let (other, fragment) = scope.fragments[seq![name]];
    select_within(scope.trees[other as int], fragment as int, Class::Node(NodeKind::SelectionSet));
}

proof fn selected_stems(
    scope: Scope,
    source: SourceModel,
    document: int,
    set: int,
    k: int,
    parent: Seq<char>,
    selector: Seq<char>,
    visited: Set<Seq<Seq<char>>>,
    emission: EmissionModel,
)
    requires
        stands(scope, document, set),
        0 <= k,
        selected(scope, source, document, set, k, parent, selector, visited).0.contains(emission),
    ensures
        stems(scope, source, Place { document, set, parent, selector }, emission),
    decreases
        scope.unseen(visited),
        scope.trees[document].len() - set,
        select(scope.trees[document], set, Class::Selection).len() - k,
        1int,
{
    let tree = scope.trees[document];
    let list = select(tree, set, Class::Selection);
    if k < list.len() {
        selected_unfolds(scope, source, document, set, k, parent, selector, visited);
        let (here, after) = contributed(scope, source, document, set, k, parent, selector, visited);
        let rest = selected(scope, source, document, set, k + 1, parent, selector, after).0;
        assert((here + rest).contains(emission));
        let at = choose|at: int| 0 <= at < (here + rest).len() && (here + rest)[at] == emission;
        if at >= here.len() {
            assert(rest[at - here.len()] == emission);
            unseen_shrinks(scope, visited, after);
            selected_stems(scope, source, document, set, k + 1, parent, selector, after, emission);
        } else {
            assert(here[at] == emission);
            contributed_stems(scope, source, document, set, k, parent, selector, visited, emission, at);
        }
    }
}

proof fn contributed_stems(
    scope: Scope,
    source: SourceModel,
    document: int,
    set: int,
    k: int,
    parent: Seq<char>,
    selector: Seq<char>,
    visited: Set<Seq<Seq<char>>>,
    emission: EmissionModel,
    at: int,
)
    requires
        stands(scope, document, set),
        0 <= k < select(scope.trees[document], set, Class::Selection).len(),
        0 <= at < contributed(scope, source, document, set, k, parent, selector, visited).0.len(),
        contributed(scope, source, document, set, k, parent, selector, visited).0[at] == emission,
    ensures
        stems(scope, source, Place { document, set, parent, selector }, emission),
    decreases
        scope.unseen(visited),
        scope.trees[document].len() - set,
        select(scope.trees[document], set, Class::Selection).len() - k,
        0int,
{
    let tree = scope.trees[document];
    let list = select(tree, set, Class::Selection);
    let place = Place { document, set, parent, selector };
    let node = list[k];
    assert(list.contains(node));
    selected_unfolds(scope, source, document, set, k, parent, selector, visited);
    select_within(tree, set, Class::Selection);
    let nested = first(tree, node, Class::Node(NodeKind::SelectionSet));
    if tree[node].kind == NodeKind::Field {
        let name = name_of(tree, node)->0;
        let id = field_id(parent, name);
        if at < 2 {
            assert(is_selected(scope, source, place, node, emission));
            assert(reaches(scope, place, place, 0));
        } else {
            let on = scope.field_types[seq![parent, name]];
            let next = Place { document, set: nested->0, parent: on, selector: id };
            assert(leads_into_field(scope, place, node, next));
            let inner = selected(scope, source, document, nested->0, 0, on, id, visited).0;
            assert(inner[at - 2] == emission);
            selected_stems(scope, source, document, nested->0, 0, on, id, visited, emission);
            stems_behind(scope, source, place, node, next, emission);
        }
    } else if tree[node].kind == NodeKind::FragmentSpread {
        let name = name_inside(tree, node, NodeKind::FragmentName)->0;
        let (other, fragment) = scope.fragments[seq![name]];
        let body = first(scope.trees[other as int], fragment as int, Class::Node(NodeKind::SelectionSet));
        let on = fragment_parent(scope.roots, scope.trees[other as int], fragment as int, parent);
        let next = Place { document: other as int, set: body->0, parent: on, selector };
        made_on(scope.roots, scope.trees[other as int], fragment as int, parent);
        fragment_body_stands(scope, name);
        unseen_decreases(scope, visited, seq![name]);
        assert(leads_into_spread(scope, place, node, next));
        let inner = selected(scope, source, other as int, body->0, 0, on, selector, visited.insert(seq![name])).0;
        assert(inner[at] == emission);
        selected_stems(scope, source, other as int, body->0, 0, on, selector, visited.insert(seq![name]), emission);
        stems_behind(scope, source, place, node, next, emission);
    } else {
        let on = fragment_parent(scope.roots, tree, node, parent);
        let next = Place { document, set: nested->0, parent: on, selector };
        made_on(scope.roots, tree, node, parent);
        assert(tree[node].kind == NodeKind::InlineFragment);
        assert(leads_into_inline(scope, place, node, next));
        let inner = selected(scope, source, document, nested->0, 0, on, selector, visited).0;
        assert(inner[at] == emission);
        selected_stems(scope, source, document, nested->0, 0, on, selector, visited, emission);
        stems_behind(scope, source, place, node, next, emission);
    }
}

proof fn later_selection(
    scope: Scope,
    source: SourceModel,
    document: int,
    set: int,
    from: int,
    k: int,
    parent: Seq<char>,
    selector: Seq<char>,
    visited: Set<Seq<Seq<char>>>,
) -> (seen: Set<Seq<Seq<char>>>)
    requires
        stands(scope, document, set),
        0 <= from <= k <= select(scope.trees[document], set, Class::Selection).len(),
    ensures
        visited.subset_of(seen),
        selected(scope, source, document, set, k, parent, selector, seen).1 == selected(
            scope,
            source,
            document,
            set,
            from,
            parent,
            selector,
            visited,
        ).1,
        forall|emission: EmissionModel| #[trigger]
            selected(scope, source, document, set, k, parent, selector, seen).0.contains(emission) ==> selected(
                scope,
                source,
                document,
                set,
                from,
                parent,
                selector,
                visited,
            ).0.contains(emission),
    decreases k - from,
{
    if from == k {
        visited
    } else {
        selected_unfolds(scope, source, document, set, from, parent, selector, visited);
        let (here, after) = contributed(scope, source, document, set, from, parent, selector, visited);
        let seen = later_selection(scope, source, document, set, from + 1, k, parent, selector, after);
        let rest = selected(scope, source, document, set, from + 1, parent, selector, after).0;
        assert forall|emission: EmissionModel| rest.contains(emission) implies #[trigger] (here + rest).contains(emission) by {
            let at = choose|at: int| 0 <= at < rest.len() && rest[at] == emission;
            assert((here + rest)[here.len() + at] == emission);
        }
        seen
    }
}

/// What a selection contributes when its turn comes is among what the set contributes.
proof fn turn_comes(
    scope: Scope,
    source: SourceModel,
    place: Place,
    node: int,
    visited: Set<Seq<Seq<char>>>,
) -> (r: (int, Set<Seq<Seq<char>>>))
    requires
        stands(scope, place.document, place.set),
        select(scope.trees[place.document], place.set, Class::Selection).contains(node),
    ensures
        visited.subset_of(r.1),
        0 <= r.0 < select(scope.trees[place.document], place.set, Class::Selection).len(),
        select(scope.trees[place.document], place.set, Class::Selection)[r.0] == node,
        ({
            let here = contributed(scope, source, place.document, place.set, r.0, place.parent, place.selector, r.1);
            let all = selected(scope, source, place.document, place.set, 0, place.parent, place.selector, visited);
            &&& forall|emission: EmissionModel| here.0.contains(emission) ==> #[trigger] all.0.contains(emission)
            &&& here.1.subset_of(all.1)
        }),
{
    let list = select(scope.trees[place.document], place.set, Class::Selection);
    let k = choose|k: int| 0 <= k < list.len() && list[k] == node;
    let seen = later_selection(scope, source, place.document, place.set, 0, k, place.parent, place.selector, visited);
    selected_unfolds(scope, source, place.document, place.set, k, place.parent, place.selector, seen);
    let (here, after) = contributed(scope, source, place.document, place.set, k, place.parent, place.selector, seen);
    let rest = selected(scope, source, place.document, place.set, k + 1, place.parent, place.selector, after);
    let all = selected(scope, source, place.document, place.set, 0, place.parent, place.selector, visited);
    assert forall|emission: EmissionModel| here.contains(emission) implies #[trigger] all.0.contains(emission) by {
        let at = choose|at: int| 0 <= at < here.len() && here[at] == emission;
        assert((here + rest.0)[at] == emission);
        assert((here + rest.0).contains(emission));
        assert(selected(scope, source, place.document, place.set, k, place.parent, place.selector, seen).0.contains(emission));
    }
    visited_only_grow(scope, source, place.document, place.set, k + 1, place.parent, place.selector, after);
    (k, seen)
}

proof fn visited_only_grow(
    scope: Scope,
    source: SourceModel,
    document: int,
    set: int,
    k: int,
    parent: Seq<char>,
    selector: Seq<char>,
    visited: Set<Seq<Seq<char>>>,
)
    requires
        stands(scope, document, set),
        0 <= k,
    ensures
        visited.subset_of(selected(scope, source, document, set, k, parent, selector, visited).1),
    decreases select(scope.trees[document], set, Class::Selection).len() - k,
{
    if k < select(scope.trees[document], set, Class::Selection).len() {
        selected_unfolds(scope, source, document, set, k, parent, selector, visited);
        let after = contributed(scope, source, document, set, k, parent, selector, visited).1;
        visited_only_grow(scope, source, document, set, k + 1, parent, selector, after);
    }
}

proof fn field_is_selected(scope: Scope, source: SourceModel, place: Place, node: int, visited: Set<Seq<Seq<char>>>)
    requires
        stands(scope, place.document, place.set),
        holds(scope, place, node, NodeKind::Field),
        name_of(scope.trees[place.document], node) is Some,
    ensures
        ({
            let tree = scope.trees[place.document];
            let id = "graphql-field://"@ + place.parent + "/"@ + name_of(tree, node)->0;
            let all = selected(scope, source, place.document, place.set, 0, place.parent, place.selector, visited).0;
            &&& all.contains(EmissionModel::Entity { id, kind: EntityKind::GraphqlField, metadata: None })
            &&& all.contains(dependency(place.selector, DependencyRelation::Selects, id, evidence_text(source, tree[node].start)))
        }),
{
    let (k, seen) = turn_comes(scope, source, place, node, visited);
    let tree = scope.trees[place.document];
    let id = "graphql-field://"@ + place.parent + "/"@ + name_of(tree, node)->0;
    let here = contributed(scope, source, place.document, place.set, k, place.parent, place.selector, seen).0;
    assert(here[0] == EmissionModel::Entity { id, kind: EntityKind::GraphqlField, metadata: None });
    assert(here[1] == dependency(place.selector, DependencyRelation::Selects, id, evidence_text(source, tree[node].start)));
    assert(here.contains(here[0]) && here.contains(here[1]));
}

/// What a place within reach contributes, at a time at which at least as many fragments have been
/// visited, is among what is contributed.
proof fn place_comes(
    scope: Scope,
    source: SourceModel,
    from: Place,
    to: Place,
    n: nat,
    visited: Set<Seq<Seq<char>>>,
) -> (seen: Set<Seq<Seq<char>>>)
    requires
        stands(scope, from.document, from.set),
        reaches_in_place(scope, from, to, n),
    ensures
        stands(scope, to.document, to.set),
        visited.subset_of(seen),
        ({
            let inner = selected(scope, source, to.document, to.set, 0, to.parent, to.selector, seen);
            let all = selected(scope, source, from.document, from.set, 0, from.parent, from.selector, visited);
            &&& forall|emission: EmissionModel| inner.0.contains(emission) ==> #[trigger] all.0.contains(emission)
            &&& inner.1.subset_of(all.1)
        }),
    decreases n,
{
    if n == 0 {
        visited
    } else {
        let (node, next) = choose|node: int, next: Place|
            #![trigger leads_into(scope, from, node, next)]
            leads_into(scope, from, node, next) && !leads_into_spread(scope, from, node, next) && reaches_in_place(
                scope,
                next,
                to,
                (n - 1) as nat,
            );
        let tree = scope.trees[from.document];
        let (k, before) = turn_comes(scope, source, from, node, visited);
        selected_unfolds(scope, source, from.document, from.set, k, from.parent, from.selector, before);
        made_on(scope.roots, tree, node, from.parent);
        let here = contributed(scope, source, from.document, from.set, k, from.parent, from.selector, before);
        let inner = selected(scope, source, next.document, next.set, 0, next.parent, next.selector, before);
        let all = selected(scope, source, from.document, from.set, 0, from.parent, from.selector, visited);
        assert(forall|emission: EmissionModel| inner.0.contains(emission) ==> #[trigger] here.0.contains(emission)) by {
            assert forall|emission: EmissionModel| inner.0.contains(emission) implies #[trigger] here.0.contains(emission) by {
                let at = choose|at: int| 0 <= at < inner.0.len() && inner.0[at] == emission;
                if leads_into_field(scope, from, node, next) {
                    assert(here.0[at + 2] == emission);
                } else {
                    assert(here.0[at] == emission);
                }
            }
        }
        assert(inner.1.subset_of(here.1));
        let seen = place_comes(scope, source, next, to, (n - 1) as nat, before);
        let last = selected(scope, source, to.document, to.set, 0, to.parent, to.selector, seen);
        assert forall|emission: EmissionModel| last.0.contains(emission) implies #[trigger] all.0.contains(emission) by {
            assert(inner.0.contains(emission));
            assert(here.0.contains(emission));
        }
        seen
    }
}

/// A fragment that has been visited in a set of selections has been followed there, once.
proof fn visited_is_followed(
    scope: Scope,
    source: SourceModel,
    document: int,
    set: int,
    k: int,
    parent: Seq<char>,
    selector: Seq<char>,
    visited: Set<Seq<Seq<char>>>,
    name: Seq<char>,
) -> (r: (Seq<char>, Seq<char>, Set<Seq<Seq<char>>>))
    requires
        stands(scope, document, set),
        0 <= k,
        scope.fragments.contains_key(seq![name]),
        fragment_body(scope, name) is Some,
        !visited.contains(seq![name]),
        selected(scope, source, document, set, k, parent, selector, visited).1.contains(seq![name]),
    ensures
        follows(scope, source, name, r, selected(scope, source, document, set, k, parent, selector, visited).0),
    decreases
        scope.unseen(visited),
        scope.trees[document].len() - set,
        select(scope.trees[document], set, Class::Selection).len() - k,
        1int,
{
    let all = selected(scope, source, document, set, k, parent, selector, visited).0;
    if k < select(scope.trees[document], set, Class::Selection).len() {
        selected_unfolds(scope, source, document, set, k, parent, selector, visited);
        let (here, after) = contributed(scope, source, document, set, k, parent, selector, visited);
        let rest = selected(scope, source, document, set, k + 1, parent, selector, after).0;
        if after.contains(seq![name]) {
            let r = contributed_follows(scope, source, document, set, k, parent, selector, visited, name);
            followed_in_more(scope, source, name, r, here, all, 0);
            r
        } else {
            unseen_shrinks(scope, visited, after);
            let r = visited_is_followed(scope, source, document, set, k + 1, parent, selector, after, name);
            followed_in_more(scope, source, name, r, rest, all, here.len() as int);
            r
        }
    } else {
        (parent, selector, visited)
    }
}

/// Where the selections of a fragment stand.
pub open spec fn fragment_body(scope: Scope, name: Seq<char>) -> Option<int> {
    let (other, fragment) = scope.fragments[seq![name]];
    first(scope.trees[other as int], fragment as int, Class::Node(NodeKind::SelectionSet))
}

/// The selections of a fragment, used on a type by what makes them.
spec fn fragment_place(scope: Scope, name: Seq<char>, used_on: Seq<char>, selector: Seq<char>) -> Place {
    let (other, fragment) = scope.fragments[seq![name]];
    Place {
        document: other as int,
        set: fragment_body(scope, name)->0,
        parent: fragment_parent(scope.roots, scope.trees[other as int], fragment as int, used_on),
        selector,
    }
}

/// Whether what a fragment contributes, used on a type, is among some emissions.
#[verifier::opaque]
spec fn follows(
    scope: Scope,
    source: SourceModel,
    name: Seq<char>,
    r: (Seq<char>, Seq<char>, Set<Seq<Seq<char>>>),
    all: Seq<EmissionModel>,
) -> bool {
    let place = fragment_place(scope, name, r.0, r.1);
    forall|emission: EmissionModel|
        selected(scope, source, place.document, place.set, 0, place.parent, place.selector, r.2).0.contains(emission)
            ==> #[trigger] all.contains(emission)
}

proof fn followed_in_more(
    scope: Scope,
    source: SourceModel,
    name: Seq<char>,
    r: (Seq<char>, Seq<char>, Set<Seq<Seq<char>>>),
    less: Seq<EmissionModel>,
    all: Seq<EmissionModel>,
    at: int,
)
    requires
        follows(scope, source, name, r, less),
        0 <= at,
        at + less.len() <= all.len(),
        forall|i: int| 0 <= i < less.len() ==> #[trigger] less[i] == all[at + i],
    ensures
        follows(scope, source, name, r, all),
{
    reveal(follows);
    assert forall|emission: EmissionModel| less.contains(emission) implies #[trigger] all.contains(emission) by {
        let i = choose|i: int| 0 <= i < less.len() && less[i] == emission;
        assert(all[at + i] == emission);
    }
    let place = fragment_place(scope, name, r.0, r.1);
    let inner = selected(scope, source, place.document, place.set, 0, place.parent, place.selector, r.2).0;
    assert forall|emission: EmissionModel| inner.contains(emission) implies #[trigger] all.contains(emission) by {
        assert(less.contains(emission));
    }
}

proof fn contributed_follows(
    scope: Scope,
    source: SourceModel,
    document: int,
    set: int,
    k: int,
    parent: Seq<char>,
    selector: Seq<char>,
    visited: Set<Seq<Seq<char>>>,
    name: Seq<char>,
) -> (r: (Seq<char>, Seq<char>, Set<Seq<Seq<char>>>))
    requires
        stands(scope, document, set),
        0 <= k < select(scope.trees[document], set, Class::Selection).len(),
        scope.fragments.contains_key(seq![name]),
        fragment_body(scope, name) is Some,
        !visited.contains(seq![name]),
        contributed(scope, source, document, set, k, parent, selector, visited).1.contains(seq![name]),
    ensures
        follows(scope, source, name, r, contributed(scope, source, document, set, k, parent, selector, visited).0),
    decreases
        scope.unseen(visited),
        scope.trees[document].len() - set,
        select(scope.trees[document], set, Class::Selection).len() - k,
        0int,
{
    let tree = scope.trees[document];
    let node = select(tree, set, Class::Selection)[k];
    let here = contributed(scope, source, document, set, k, parent, selector, visited).0;
    selected_unfolds(scope, source, document, set, k, parent, selector, visited);
    let nested = first(tree, node, Class::Node(NodeKind::SelectionSet));
    if tree[node].kind == NodeKind::Field {
        let field = name_of(tree, node)->0;
        let id = field_id(parent, field);
        let on = scope.field_types[seq![parent, field]];
        let inner = selected(scope, source, document, nested->0, 0, on, id, visited).0;
        let r = visited_is_followed(scope, source, document, nested->0, 0, on, id, visited, name);
        followed_in_more(scope, source, name, r, inner, here, 2);
        r
    } else if tree[node].kind == NodeKind::FragmentSpread {
        let spread = name_inside(tree, node, NodeKind::FragmentName)->0;
        let now = visited.insert(seq![spread]);
        if seq![spread] == seq![name] {
            assert(seq![spread][0] == seq![name][0]);
            let r = (parent, selector, now);
            assert(follows(scope, source, name, r, here)) by {
                reveal(follows);
            }
            r
        } else {
            let place = fragment_place(scope, spread, parent, selector);
            fragment_body_stands(scope, spread);
            unseen_decreases(scope, visited, seq![spread]);
            let inner = selected(scope, source, place.document, place.set, 0, place.parent, selector, now).0;
            let r = visited_is_followed(scope, source, place.document, place.set, 0, place.parent, selector, now, name);
            followed_in_more(scope, source, name, r, inner, here, 0);
            r
        }
    } else {
        let on = fragment_parent(scope.roots, tree, node, parent);
        let inner = selected(scope, source, document, nested->0, 0, on, selector, visited).0;
        let r = visited_is_followed(scope, source, document, nested->0, 0, on, selector, visited, name);
        followed_in_more(scope, source, name, r, inner, here, 0);
        r
    }
}

proof fn spread_is_visited(scope: Scope, source: SourceModel, place: Place, node: int, name: Seq<char>, visited: Set<Seq<Seq<char>>>)
    requires
        stands(scope, place.document, place.set),
        holds(scope, place, node, NodeKind::FragmentSpread),
        name_inside(scope.trees[place.document], node, NodeKind::FragmentName) == Some(name),
    ensures
        selected(scope, source, place.document, place.set, 0, place.parent, place.selector, visited).1.contains(seq![name]),
{
    let (k, seen) = turn_comes(scope, source, place, node, visited);
    let here = contributed(scope, source, place.document, place.set, k, place.parent, place.selector, seen);
    assert(here.1.contains(seq![name]));
}

/// The selections of an operation: they are made on the root type for what it does, by the
/// operation.
pub open spec fn is_opening(scope: Scope, source: SourceModel, document: int, node: int, place: Place) -> bool {
    let tree = scope.trees[document];
    &&& place.document == document
    &&& first(tree, node, Class::Node(NodeKind::SelectionSet)) == Some(place.set)
    &&& place.parent == (match first(tree, node, Class::Node(NodeKind::OperationType)) {
        Some(operation) => if first(tree, operation, Class::Token(NodeKind::MutationKeyword)) is Some {
            "Mutation"@
        } else if first(tree, operation, Class::Token(NodeKind::SubscriptionKeyword)) is Some {
            "Subscription"@
        } else {
            "Query"@
        },
        None => "Query"@,
    })
    &&& place.selector == "graphql-operation://"@ + (match name_of(tree, node) {
        Some(name) => name,
        None => "anonymous@"@ + source.path,
    })
}

/// Whether an emission says that something selects a field.
pub open spec fn is_selection(emission: EmissionModel) -> bool {
    emission matches EmissionModel::Observed(observation) && observation.relation == SemanticRelation::Dependency(
        DependencyRelation::Selects,
    )
}

proof fn typed_selects_nothing(
    tree: Seq<ElementModel>,
    source: SourceModel,
    owner: Seq<char>,
    node: int,
    relation: StructuralRelation,
    emission: EmissionModel,
)
    requires
        typed(tree, source, owner, node, relation).contains(emission),
    ensures
        !is_selection(emission),
{
}

proof fn variables_select_nothing(tree: Seq<ElementModel>, source: SourceModel, operation: Seq<char>, list: Seq<int>, emission: EmissionModel)
    requires
        concat_map(list, |variable: int| variable_emissions(tree, source, operation, variable)).contains(emission),
    ensures
        !is_selection(emission),
    decreases list.len(),
{
    let piece = |variable: int| variable_emissions(tree, source, operation, variable);
    let all = concat_map(list, piece);
    let at = choose|at: int| 0 <= at < all.len() && all[at] == emission;
    let before = concat_map(list.drop_last(), piece);
    if at < before.len() {
        assert(before[at] == emission);
        variables_select_nothing(tree, source, operation, list.drop_last(), emission);
    } else {
        let variable = list.last();
        let last = variable_emissions(tree, source, operation, variable);
        assert(last[at - before.len()] == emission);
        let i = at - before.len();
        let name = name_inside(tree, variable, NodeKind::Variable)->0;
        let id = variable_id(operation, name);
        let owner = operation_id(operation);
        let a = typed(tree, source, id, variable, StructuralRelation::RequestType);
        let b = typed(tree, source, owner, variable, StructuralRelation::RequestType);
        if i >= 2 + a.len() {
            assert(b[i - 2 - a.len()] == emission);
            typed_selects_nothing(tree, source, owner, variable, StructuralRelation::RequestType, emission);
        } else if i >= 2 {
            assert(a[i - 2] == emission);
            typed_selects_nothing(tree, source, id, variable, StructuralRelation::RequestType, emission);
        }
    }
}

/// Every selection that an operation is said to make stems from a field that stands in its
/// selections, in those of a field before it, or in a fragment that is used there. A field is
/// selected by the field around it, or else by the operation; it belongs to the type that the
/// field around it returns, to the type that the fragment right around it names, or else to the
/// root type.
pub proof fn selections_stem_from_fields(
    scope: Scope,
    source: SourceModel,
    document: int,
    node: int,
    place: Place,
    emission: EmissionModel,
)
    requires
        scope.wf(),
        0 <= document < scope.trees.len(),
        0 <= node < scope.trees[document].len(),
        is_opening(scope, source, document, node, place),
        operation_emissions(scope, source, document, node).contains(emission),
        is_selection(emission),
    ensures
        stems(scope, source, place, emission),
{
    let tree = scope.trees[document];
    let name = operation_name(tree, source, node);
    select_within(tree, node, Class::Node(NodeKind::SelectionSet));
    let variables = variables_emissions(tree, source, name, node);
    let made = selected(scope, source, document, place.set, 0, place.parent, place.selector, Set::empty()).0;
    let all = operation_emissions(scope, source, document, node);
    let at = choose|at: int| 0 <= at < all.len() && all[at] == emission;
    let front = all.len() - made.len();
    let head = front - variables.len();
    if at >= front {
        assert(made[at - front] == emission);
        selected_stems(scope, source, document, place.set, 0, place.parent, place.selector, Set::empty(), emission);
    } else if at >= head {
        assert(variables[at - head] == emission);
        variables_select_nothing(
            tree,
            source,
            name,
            inside(tree, node, NodeKind::VariableDefinitions, Class::Node(NodeKind::VariableDefinition)),
            emission,
        );
    }
}

/// Every field that stands in the selections of an operation, of its fields or of the fragments in
/// place there is emitted, and is said to be selected: on the type that the selections are made
/// on, by what makes them.
pub proof fn fields_in_place_are_selected(
    scope: Scope,
    source: SourceModel,
    document: int,
    node: int,
    opening: Place,
    place: Place,
    n: nat,
    field: int,
    name: Seq<char>,
)
    requires
        scope.wf(),
        0 <= document < scope.trees.len(),
        0 <= node < scope.trees[document].len(),
        is_opening(scope, source, document, node, opening),
        reaches_in_place(scope, opening, place, n),
        holds(scope, place, field, NodeKind::Field),
        name_of(scope.trees[place.document], field) == Some(name),
    ensures
        ({
            let id = "graphql-field://"@ + place.parent + "/"@ + name;
            let all = operation_emissions(scope, source, document, node);
            &&& all.contains(EmissionModel::Entity { id, kind: EntityKind::GraphqlField, metadata: None })
            &&& exists|o: ObservationModel| #[trigger]
                all.contains(EmissionModel::Observed(o)) && o.from == place.selector && o.relation == SemanticRelation::Dependency(
                    DependencyRelation::Selects,
                ) && o.to == id && o.evidence == evidence_text(source, scope.trees[place.document][field].start)
        }),
{
    let tree = scope.trees[document];
    select_within(tree, node, Class::Node(NodeKind::SelectionSet));
    let seen = place_comes(scope, source, opening, place, n, Set::empty());
    field_is_selected(scope, source, place, field, seen);
    let id = "graphql-field://"@ + place.parent + "/"@ + name;
    let place_text = evidence_text(source, scope.trees[place.document][field].start);
    let entity = EmissionModel::Entity { id, kind: EntityKind::GraphqlField, metadata: None };
    let said = dependency(place.selector, DependencyRelation::Selects, id, place_text);
    operation_holds(scope, source, document, node, opening, entity);
    operation_holds(scope, source, document, node, opening, said);
    let o = said->Observed_0;
    assert(operation_emissions(scope, source, document, node).contains(EmissionModel::Observed(o)));
}

proof fn operation_holds(scope: Scope, source: SourceModel, document: int, node: int, opening: Place, emission: EmissionModel)
    requires
        is_opening(scope, source, document, node, opening),
        selected(scope, source, document, opening.set, 0, opening.parent, opening.selector, Set::empty()).0.contains(emission),
    ensures
        operation_emissions(scope, source, document, node).contains(emission),
{
    let made = selected(scope, source, document, opening.set, 0, opening.parent, opening.selector, Set::empty()).0;
    let all = operation_emissions(scope, source, document, node);
    let at = choose|at: int| 0 <= at < made.len() && made[at] == emission;
    assert(all[all.len() - made.len() + at] == emission);
}

/// Every field right inside a fragment that is spread in the selections of an operation, of its
/// fields or of the fragments in place there is said to be selected, on the type that the fragment
/// names, whatever type it is spread on.
pub proof fn fields_of_spread_fragments_are_selected(
    scope: Scope,
    source: SourceModel,
    document: int,
    node: int,
    opening: Place,
    place: Place,
    n: nat,
    spread: int,
    fragment: Seq<char>,
    on: Seq<char>,
    field: int,
    name: Seq<char>,
)
    requires
        scope.wf(),
        0 <= document < scope.trees.len(),
        0 <= node < scope.trees[document].len(),
        is_opening(scope, source, document, node, opening),
        reaches_in_place(scope, opening, place, n),
        holds(scope, place, spread, NodeKind::FragmentSpread),
        name_inside(scope.trees[place.document], spread, NodeKind::FragmentName) == Some(fragment),
        scope.fragments.contains_key(seq![fragment]),
        fragment_body(scope, fragment) is Some,
        ({
            let (other, at) = scope.fragments[seq![fragment]];
            let tree = scope.trees[other as int];
            &&& named_type(tree, at as int) == Some(on)
            &&& select(tree, fragment_body(scope, fragment)->0, Class::Selection).contains(field)
            &&& tree[field].kind == NodeKind::Field
            &&& name_of(tree, field) == Some(name)
        }),
    ensures
        exists|o: ObservationModel| #[trigger]
            operation_emissions(scope, source, document, node).contains(EmissionModel::Observed(o)) && o.relation
                == SemanticRelation::Dependency(DependencyRelation::Selects) && o.to == "graphql-field://"@ + known_as(scope.roots, on)
                + "/"@ + name,
{
    let tree = scope.trees[document];
    select_within(tree, node, Class::Node(NodeKind::SelectionSet));
    let seen = place_comes(scope, source, opening, place, n, Set::empty());
    spread_is_visited(scope, source, place, spread, fragment, seen);
    let made = selected(scope, source, document, opening.set, 0, opening.parent, opening.selector, Set::empty());
    assert(made.1.contains(seq![fragment]));
    let r = visited_is_followed(
        scope,
        source,
        document,
        opening.set,
        0,
        opening.parent,
        opening.selector,
        Set::empty(),
        fragment,
    );
    let (other, at) = scope.fragments[seq![fragment]];
    let body = fragment_place(scope, fragment, r.0, r.1);
    fragment_body_stands(scope, fragment);
    made_on(scope.roots, scope.trees[other as int], at as int, r.0);
    assert(body.parent == known_as(scope.roots, on));
    field_is_selected(scope, source, body, field, r.2);
    let said = dependency(
        body.selector,
        DependencyRelation::Selects,
        "graphql-field://"@ + body.parent + "/"@ + name,
        evidence_text(source, scope.trees[other as int][field].start),
    );
    assert(made.0.contains(said)) by {
        reveal(follows);
    }
    operation_holds(scope, source, document, node, opening, said);
    let o = said->Observed_0;
    assert(operation_emissions(scope, source, document, node).contains(EmissionModel::Observed(o)));
}

} // verus!
