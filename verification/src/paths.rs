//! Distances and paths in the graph of a query result.

use crate::domain::{DependencyRelation, SemanticRelation};
use crate::graph::SemanticEdge;
use crate::graphql::syntax::positions;
use crate::sorted::SortedMap;
use crate::text::{same, starts_with};
use vstd::prelude::*;

verus! {

/// Which way edges are followed.
#[derive(Clone, Copy, PartialEq, Eq, Structural, Debug)]
pub enum TraversalDirection {
    Outgoing,
    Incoming,
}

/// Whether an edge is followed from its source to its target. Against the direction of calls,
/// the step from a remote operation to what implements it still goes forward.
pub open spec fn goes_forward(edge: SemanticEdge, direction: TraversalDirection) -> bool {
    direction == TraversalDirection::Outgoing || (edge.kind == SemanticRelation::Dependency(
        DependencyRelation::ImplementedBy,
    ) && "grpc://"@.is_prefix_of(edge.from@))
}

/// Where an edge is left when it is followed.
pub open spec fn tail_of(edge: SemanticEdge, direction: TraversalDirection) -> Seq<char> {
    if goes_forward(edge, direction) {
        edge.from@
    } else {
        edge.to@
    }
}

/// Where an edge leads when it is followed.
pub open spec fn head_of(edge: SemanticEdge, direction: TraversalDirection) -> Seq<char> {
    if goes_forward(edge, direction) {
        edge.to@
    } else {
        edge.from@
    }
}

/// Where an edge is left, and where it leads, when it is followed.
pub fn traversal_endpoints<'a>(edge: &'a SemanticEdge, direction: TraversalDirection) -> (r: (&'a String, &'a String))
    ensures
        r.0@ == tail_of(*edge, direction),
        r.1@ == head_of(*edge, direction),
{
    let forward: bool = match direction {
        TraversalDirection::Outgoing => true,
        TraversalDirection::Incoming => edge.kind == SemanticRelation::Dependency(DependencyRelation::ImplementedBy)
            && starts_with(edge.from.as_str(), "grpc://"),
    };
    if forward {
        (&edge.from, &edge.to)
    } else {
        (&edge.to, &edge.from)
    }
}

/// The positions among the first `n` edges of those that leave a node.
pub open spec fn leaving(edges: Seq<SemanticEdge>, direction: TraversalDirection, node: Seq<char>, n: int) -> Seq<int>
    decreases n,
{
    if n <= 0 {
        Seq::empty()
    } else if tail_of(edges[n - 1], direction) == node {
        leaving(edges, direction, node, n - 1).push(n - 1)
    } else {
        leaving(edges, direction, node, n - 1)
    }
}

/// Exactly the edges that leave a node are listed for it, in order.
pub proof fn leaving_complete(edges: Seq<SemanticEdge>, direction: TraversalDirection, node: Seq<char>, n: int)
    requires
        0 <= n <= edges.len(),
    ensures
        forall|k: int| 0 <= k < leaving(edges, direction, node, n).len() ==> 0 <= #[trigger] leaving(edges, direction, node, n)[k] < n
            && tail_of(edges[leaving(edges, direction, node, n)[k]], direction) == node,
        forall|i: int| 0 <= i < n && tail_of(#[trigger] edges[i], direction) == node ==> leaving(edges, direction, node, n).contains(i),
        forall|a: int, b: int|
            0 <= a < b < leaving(edges, direction, node, n).len() ==> #[trigger] leaving(edges, direction, node, n)[a]
                < #[trigger] leaving(edges, direction, node, n)[b],
    decreases n,
{
    if n > 0 {
        leaving_complete(edges, direction, node, n - 1);
        let before = leaving(edges, direction, node, n - 1);
        let now = leaving(edges, direction, node, n);
        if tail_of(edges[n - 1], direction) == node {
            assert(now == before.push(n - 1));
            assert forall|i: int| 0 <= i < n && tail_of(#[trigger] edges[i], direction) == node implies now.contains(i) by {
                if i < n - 1 {
                    assert(before.contains(i));
                    let k = choose|k: int| 0 <= k < before.len() && before[k] == i;
                    assert(now[k] == i);
                } else {
                    assert(now[before.len() as int] == i);
                }
            }
        } else {
            assert forall|i: int| 0 <= i < n && tail_of(#[trigger] edges[i], direction) == node implies now.contains(i) by {
                assert(i < n - 1);
            }
        }
    }
}

/// The edges that leave each node.
pub struct Adjacency {
    pub links: SortedMap<String, Vec<usize>>,
}

impl Adjacency {
    /// Whether these are the edges among the first `n` that leave each node, in order.
    pub open spec fn covers(&self, edges: Seq<SemanticEdge>, direction: TraversalDirection, n: int) -> bool {
        &&& self.links.wf()
        &&& forall|node: Seq<char>|
            #[trigger] self.links@.contains_key(seq![node]) ==> positions(self.links@[seq![node]]@) == leaving(
                edges,
                direction,
                node,
                n,
            )
        &&& forall|node: Seq<char>|
            !#[trigger] self.links@.contains_key(seq![node]) ==> leaving(edges, direction, node, n) == Seq::<int>::empty()
    }

    /// Finds the edges that leave each node.
    pub fn new(edges: &Vec<SemanticEdge>, direction: TraversalDirection) -> (r: Adjacency)
        ensures
            r.covers(edges@, direction, edges@.len() as int),
    {
        let mut links: SortedMap<String, Vec<usize>> = SortedMap::new();
        let mut i: usize = 0;
        while i < edges.len()
            invariant
                i <= edges@.len(),
                (Adjacency { links }).covers(edges@, direction, i as int),
            decreases edges@.len() - i,
        {
            let ghost before = links@;
            let node: String = traversal_endpoints(&edges[i], direction).0.clone();
            let ghost key = seq![node@];
            let mut list: Vec<usize> = match links.remove(&node) {
                Some(list) => list,
                None => Vec::new(),
            };
            let ghost was = list@;
            list.push(i);
            let ghost now = list;
            links.insert(node, list);
            proof {
                assert(links@ =~= before.insert(key, now));
                assert(positions(now@) =~= positions(was).push(i as int));
                assert(positions(was) =~= leaving(edges@, direction, key[0], i as int));
                assert forall|other: Seq<char>| #[trigger] links@.contains_key(seq![other]) implies positions(
                    links@[seq![other]]@,
                ) == leaving(edges@, direction, other, i + 1) by {
                    assert(seq![other][0] == other);
                    if seq![other] != key {
                        assert(before.contains_key(seq![other]));
                        assert(key[0] == tail_of(edges@[i as int], direction));
                        if other == key[0] {
                            assert(seq![other] =~= key);
                        }
                    }
                }
                assert forall|other: Seq<char>| !#[trigger] links@.contains_key(seq![other]) implies leaving(
                    edges@,
                    direction,
                    other,
                    i + 1,
                ) == Seq::<int>::empty() by {
                    assert(!before.contains_key(seq![other]));
                    if other == key[0] {
                        assert(seq![other] =~= key);
                    }
                }
            }
            i = i + 1;
        }
        Adjacency { links }
    }

    /// The edges that leave a node, in order.
    pub fn leaving_edges(&self, node: &String, Ghost(edges): Ghost<Seq<SemanticEdge>>, Ghost(direction): Ghost<TraversalDirection>) -> (r: Vec<usize>)
        requires
            self.covers(edges, direction, edges.len() as int),
        ensures
            positions(r@) == leaving(edges, direction, node@, edges.len() as int),
            forall|k: int| 0 <= k < r@.len() ==> #[trigger] r@[k] < edges.len() && tail_of(edges[r@[k] as int], direction) == node@,
            forall|i: int| 0 <= i < edges.len() && tail_of(#[trigger] edges[i], direction) == node@ ==> exists|k: int|
                0 <= k < r@.len() && r@[k] == i,
            forall|a: int, b: int| 0 <= a < b < r@.len() ==> (#[trigger] r@[a]) < (#[trigger] r@[b]),
    {
        let mut out: Vec<usize> = Vec::new();
        match self.links.get(node) {
            Some(list) => {
                let mut i: usize = 0;
                while i < list.len()
                    invariant
                        i <= list@.len(),
                        out@ =~= list@.take(i as int),
                    decreases list@.len() - i,
                {
                    out.push(list[i]);
                    i = i + 1;
                }
                assert(out@ =~= list@);
            },
            None => {
                assert(positions(out@) =~= Seq::<int>::empty());
            },
        }
        proof {
            let all = leaving(edges, direction, node@, edges.len() as int);
            leaving_complete(edges, direction, node@, edges.len() as int);
            assert(positions(out@) == all);
            assert forall|k: int| 0 <= k < out@.len() implies #[trigger] out@[k] < edges.len() && tail_of(
                edges[out@[k] as int],
                direction,
            ) == node@ by {
                assert(all[k] == out@[k]);
            }
            assert forall|i: int| 0 <= i < edges.len() && tail_of(#[trigger] edges[i], direction) == node@ implies exists|k: int|
                0 <= k < out@.len() && out@[k] == i by {
                assert(all.contains(i));
                let k = choose|k: int| 0 <= k < all.len() && all[k] == i;
                assert(out@[k] == i);
            }
            assert forall|a: int, b: int| 0 <= a < b < out@.len() implies (#[trigger] out@[a]) < (#[trigger] out@[b]) by {
                assert(all[a] < all[b]);
            }
        }
        out
    }
}

/// Whether a walk of `n` edges leads from one node to another.
pub open spec fn reaches(edges: Seq<SemanticEdge>, direction: TraversalDirection, from: Seq<char>, to: Seq<char>, n: nat) -> bool
    decreases n,
{
    if n == 0 {
        from == to
    } else {
        exists|i: int|
            0 <= i < edges.len() && head_of(#[trigger] edges[i], direction) == to && reaches(
                edges,
                direction,
                from,
                tail_of(edges[i], direction),
                (n - 1) as nat,
            )
    }
}

/// Whether `n` is the distance from one node to another.
pub open spec fn distance(edges: Seq<SemanticEdge>, direction: TraversalDirection, from: Seq<char>, to: Seq<char>, n: nat) -> bool {
    &&& reaches(edges, direction, from, to, n)
    &&& forall|m: nat| m < n ==> !reaches(edges, direction, from, to, m)
}

/// Whether a walk of at most so many edges leads from one node to another.
pub open spec fn within(edges: Seq<SemanticEdge>, direction: TraversalDirection, from: Seq<char>, to: Seq<char>, limit: u32) -> bool {
    exists|n: nat| n <= limit && #[trigger] reaches(edges, direction, from, to, n)
}

/// Whether an edge leads from a node at the limit to one beyond it.
pub open spec fn leads_beyond(edges: Seq<SemanticEdge>, direction: TraversalDirection, from: Seq<char>, limit: u32) -> bool {
    exists|i: int|
        0 <= i < edges.len() && distance(edges, direction, from, tail_of(#[trigger] edges[i], direction), limit as nat)
            && !within(edges, direction, from, head_of(edges[i], direction), limit)
}

/// What a search has found: nodes with their distances, in the order in which they were found.
pub open spec fn search_state(
    edges: Seq<SemanticEdge>,
    direction: TraversalDirection,
    root: Seq<char>,
    limit: u32,
    found: Map<Seq<Seq<char>>, u32>,
    queue: Seq<String>,
) -> bool {
    &&& found.dom().finite()
    &&& forall|i: int|
        0 <= i < queue.len() ==> found.contains_key(seq![(#[trigger] queue[i])@]) && found[seq![queue[i]@]] <= limit && reaches(
            edges,
            direction,
            root,
            queue[i]@,
            found[seq![queue[i]@]] as nat,
        )
    &&& forall|k: Seq<Seq<char>>|
        #[trigger] found.contains_key(k) ==> exists|i: int| 0 <= i < queue.len() && k == seq![(#[trigger] queue[i])@]
    &&& forall|i: int, j: int|
        0 <= i <= j < queue.len() ==> found[seq![(#[trigger] queue[i])@]] <= found[seq![(#[trigger] queue[j])@]]
    &&& found.contains_key(seq![root]) && found[seq![root]] == 0
    &&& found.dom().subset_of(universe(edges, direction, root))
}

/// All steps from a node below the limit have been taken.
pub open spec fn settled(edges: Seq<SemanticEdge>, direction: TraversalDirection, limit: u32, found: Map<Seq<Seq<char>>, u32>, node: Seq<char>) -> bool {
    found[seq![node]] < limit ==> forall|e: int|
        0 <= e < edges.len() && tail_of(#[trigger] edges[e], direction) == node ==> found.contains_key(
            seq![head_of(edges[e], direction)],
        ) && found[seq![head_of(edges[e], direction)]] <= found[seq![node]] + 1
}

/// The nodes that a search can find.
pub open spec fn universe(edges: Seq<SemanticEdge>, direction: TraversalDirection, root: Seq<char>) -> Set<Seq<Seq<char>>> {
    edges.map_values(|e: SemanticEdge| seq![head_of(e, direction)]).to_set().insert(seq![root])
}

/// A search can find finitely many nodes.
pub proof fn universe_finite(edges: Seq<SemanticEdge>, direction: TraversalDirection, root: Seq<char>)
    ensures
        universe(edges, direction, root).finite(),
        forall|i: int| 0 <= i < edges.len() ==> universe(edges, direction, root).contains(
            seq![head_of(#[trigger] edges[i], direction)],
        ),
{
    let heads = edges.map_values(|e: SemanticEdge| seq![head_of(e, direction)]);
    vstd::seq_lib::seq_to_set_is_finite(heads);
    assert forall|i: int| 0 <= i < edges.len() implies universe(edges, direction, root).contains(
        seq![head_of(#[trigger] edges[i], direction)],
    ) by {
        assert(heads[i] == seq![head_of(edges[i], direction)]);
        assert(heads.contains(heads[i]));
    }
}

/// Once every node nearer than a bound is settled, each node within the bound has been found at
/// its distance.
pub proof fn settled_finds_all(
    edges: Seq<SemanticEdge>,
    direction: TraversalDirection,
    root: Seq<char>,
    limit: u32,
    found: Map<Seq<Seq<char>>, u32>,
    bound: u32,
    to: Seq<char>,
    n: nat,
)
    requires
        found.contains_key(seq![root]),
        found[seq![root]] == 0,
        bound <= limit,
        forall|node: Seq<char>| #[trigger] found.contains_key(seq![node]) && found[seq![node]] < bound ==> settled(
            edges,
            direction,
            limit,
            found,
            node,
        ),
        reaches(edges, direction, root, to, n),
        n <= bound,
    ensures
        found.contains_key(seq![to]),
        found[seq![to]] <= n,
    decreases n,
{
    if n > 0 {
        let i = choose|i: int|
            0 <= i < edges.len() && head_of(#[trigger] edges[i], direction) == to && reaches(
                edges,
                direction,
                root,
                tail_of(edges[i], direction),
                (n - 1) as nat,
            );
        let before = tail_of(edges[i], direction);
        settled_finds_all(edges, direction, root, limit, found, bound, before, (n - 1) as nat);
        assert(settled(edges, direction, limit, found, before));
    }
}

/// A path: nodes, and the edges between them.
#[derive(Debug)]
pub struct SemanticPath {
    pub nodes: Vec<String>,
    pub edges: Vec<String>,
}

/// Whether some edge of that identifier leads from one node to another.
pub open spec fn joins(edges: Seq<SemanticEdge>, direction: TraversalDirection, id: Seq<char>, from: Seq<char>, to: Seq<char>) -> bool {
    exists|e: int|
        0 <= e < edges.len() && (#[trigger] edges[e]).id@ == id && tail_of(edges[e], direction) == from && head_of(
            edges[e],
            direction,
        ) == to
}

impl SemanticPath {
    /// Whether the path leads from one node to another along the given edges.
    pub open spec fn leads(&self, edges: Seq<SemanticEdge>, direction: TraversalDirection, from: Seq<char>, to: Seq<char>) -> bool {
        &&& self.nodes@.len() == self.edges@.len() + 1
        &&& self.nodes@[0]@ == from
        &&& self.nodes@.last()@ == to
        &&& forall|j: int|
            0 <= j < self.edges@.len() ==> joins(
                edges,
                direction,
                (#[trigger] self.edges@[j])@,
                self.nodes@[j]@,
                self.nodes@[j + 1]@,
            )
    }
}

/// Each node but the root is known with the node and the edge by which it was found.
pub open spec fn traced(
    edges: Seq<SemanticEdge>,
    direction: TraversalDirection,
    root: Seq<char>,
    found: Map<Seq<Seq<char>>, u32>,
    parents: Map<Seq<Seq<char>>, (String, String)>,
) -> bool {
    forall|k: Seq<Seq<char>>|
        #[trigger] found.contains_key(k) && k != seq![root] ==> {
            &&& parents.contains_key(k)
            &&& found.contains_key(seq![parents[k].0@])
            &&& found[seq![parents[k].0@]] + 1 == found[k]
            &&& joins(edges, direction, parents[k].1@, parents[k].0@, k[0])
        }
}

/// Whether edges at the given positions form a walk from one node to another.
pub open spec fn walk(edges: Seq<SemanticEdge>, direction: TraversalDirection, from: Seq<char>, to: Seq<char>, w: Seq<int>) -> bool
    decreases w.len(),
{
    if w.len() == 0 {
        from == to
    } else {
        &&& 0 <= w.last() < edges.len()
        &&& head_of(edges[w.last()], direction) == to
        &&& walk(edges, direction, from, tail_of(edges[w.last()], direction), w.drop_last())
    }
}

/// Whether two lists of numbers differ first at a place, where the first list has less.
pub open spec fn first_less(a: Seq<int>, b: Seq<int>, k: int) -> bool {
    &&& 0 <= k < a.len()
    &&& k < b.len()
    &&& a[k] < b[k]
    &&& forall|j: int| 0 <= j < k ==> #[trigger] a[j] == b[j]
}

/// Whether one list of numbers comes before another: it has less at the first place where they
/// differ.
pub open spec fn comes_before(a: Seq<int>, b: Seq<int>) -> bool {
    exists|k: int| #[trigger] first_less(a, b, k)
}

/// The walk that a search finds first: a shortest one, and of these the one that takes the
/// earliest edges.
pub open spec fn first_walk(edges: Seq<SemanticEdge>, direction: TraversalDirection, from: Seq<char>, to: Seq<char>, w: Seq<int>) -> bool {
    &&& walk(edges, direction, from, to, w)
    &&& distance(edges, direction, from, to, w.len())
    &&& forall|q: Seq<int>| #[trigger] walk(edges, direction, from, to, q) && q.len() == w.len() ==> !comes_before(q, w)
}

proof fn before_asymmetric(a: Seq<int>, b: Seq<int>)
    requires
        comes_before(a, b),
    ensures
        !comes_before(b, a),
{
    let k = choose|k: int| #[trigger] first_less(a, b, k);
    if comes_before(b, a) {
        let m = choose|m: int| #[trigger] first_less(b, a, m);
        if k < m {
            assert(b[k] == a[k]);
        } else if m < k {
            assert(a[m] == b[m]);
        }
    }
}

proof fn before_transitive(a: Seq<int>, b: Seq<int>, c: Seq<int>)
    requires
        comes_before(a, b),
        comes_before(b, c),
    ensures
        comes_before(a, c),
{
    let k = choose|k: int| #[trigger] first_less(a, b, k);
    let m = choose|m: int| #[trigger] first_less(b, c, m);
    let n = if k < m {
        k
    } else {
        m
    };
    if k < m {
        assert(b[k] == c[k]);
    } else if m < k {
        assert(a[m] == b[m]);
    }
    assert forall|j: int| 0 <= j < n implies #[trigger] a[j] == c[j] by {
        assert(a[j] == b[j] && b[j] == c[j]);
    }
    assert(first_less(a, c, n));
}

proof fn before_total(a: Seq<int>, b: Seq<int>)
    requires
        a.len() == b.len(),
    ensures
        a == b || comes_before(a, b) || comes_before(b, a),
    decreases a.len(),
{
    if a.len() == 0 {
        assert(a =~= b);
    } else {
        let (c, d) = (a.drop_last(), b.drop_last());
        before_total(c, d);
        assert(a =~= c.push(a.last()) && b =~= d.push(b.last()));
        if comes_before(c, d) {
            before_push(c, d, a.last(), b.last());
        } else if comes_before(d, c) {
            before_push(d, c, b.last(), a.last());
        } else if a.last() < b.last() {
            before_last(c, a.last(), b.last());
        } else if b.last() < a.last() {
            before_last(c, b.last(), a.last());
        }
    }
}

proof fn before_push(a: Seq<int>, b: Seq<int>, x: int, y: int)
    requires
        comes_before(a, b),
    ensures
        comes_before(a.push(x), b.push(y)),
{
    let k = choose|k: int| #[trigger] first_less(a, b, k);
    assert(first_less(a.push(x), b.push(y), k));
}

proof fn before_last(a: Seq<int>, x: int, y: int)
    requires
        x < y,
    ensures
        comes_before(a.push(x), a.push(y)),
{
    assert(first_less(a.push(x), a.push(y), a.len() as int));
}

proof fn walk_reaches(edges: Seq<SemanticEdge>, direction: TraversalDirection, from: Seq<char>, to: Seq<char>, w: Seq<int>)
    requires
        walk(edges, direction, from, to, w),
    ensures
        reaches(edges, direction, from, to, w.len()),
    decreases w.len(),
{
    if w.len() > 0 {
        walk_reaches(edges, direction, from, tail_of(edges[w.last()], direction), w.drop_last());
    }
}

/// There is only one walk that a search finds first.
pub proof fn first_walks_are_unique(
    edges: Seq<SemanticEdge>,
    direction: TraversalDirection,
    from: Seq<char>,
    to: Seq<char>,
    w: Seq<int>,
    q: Seq<int>,
)
    requires
        first_walk(edges, direction, from, to, w),
        first_walk(edges, direction, from, to, q),
    ensures
        w == q,
{
    walk_reaches(edges, direction, from, to, w);
    walk_reaches(edges, direction, from, to, q);
    before_total(w, q);
}

impl SemanticPath {
    /// Whether the path consists of the edges at the given positions.
    pub open spec fn follows(&self, edges: Seq<SemanticEdge>, direction: TraversalDirection, w: Seq<int>) -> bool {
        &&& self.edges@.len() == w.len()
        &&& self.nodes@.len() == w.len() + 1
        &&& forall|j: int|
            0 <= j < w.len() ==> 0 <= #[trigger] w[j] < edges.len() && self.edges@[j]@ == edges[w[j]].id@ && self.nodes@[j]@ == tail_of(
                edges[w[j]],
                direction,
            ) && self.nodes@[j + 1]@ == head_of(edges[w[j]], direction)
    }
}

/// The walk by which each node was found ends with the edge by which it was found.
spec fn walked(
    edges: Seq<SemanticEdge>,
    direction: TraversalDirection,
    root: Seq<char>,
    found: Map<Seq<Seq<char>>, u32>,
    parents: Map<Seq<Seq<char>>, (String, String)>,
    walks: Map<Seq<Seq<char>>, Seq<int>>,
) -> bool {
    &&& walks[seq![root]] == Seq::<int>::empty()
    &&& forall|k: Seq<Seq<char>>|
        #[trigger] found.contains_key(k) ==> {
            &&& walk(edges, direction, root, k[0], walks[k])
            &&& walks[k].len() == found[k]
        }
    &&& forall|k: Seq<Seq<char>>|
        #[trigger] found.contains_key(k) && k != seq![root] ==> {
            &&& walks[k].len() > 0
            &&& edges[walks[k].last()].id@ == parents[k].1@
            &&& tail_of(edges[walks[k].last()], direction) == parents[k].0@
            &&& walks[k].drop_last() == walks[seq![parents[k].0@]]
        }
}

/// No walk as long as the one by which a node was found comes before that one.
spec fn least(
    edges: Seq<SemanticEdge>,
    direction: TraversalDirection,
    root: Seq<char>,
    found: Map<Seq<Seq<char>>, u32>,
    walks: Map<Seq<Seq<char>>, Seq<int>>,
) -> bool {
    forall|k: Seq<Seq<char>>, w: Seq<int>| #[trigger]
        found.contains_key(k) && #[trigger] walk(edges, direction, root, k[0], w) && w.len() == found[k] ==> !comes_before(w, walks[k])
}

/// Nodes at one distance were found in the order of their walks.
spec fn ranked(queue: Seq<String>, found: Map<Seq<Seq<char>>, u32>, walks: Map<Seq<Seq<char>>, Seq<int>>) -> bool {
    forall|i: int, j: int|
        0 <= i < j < queue.len() && found[seq![(#[trigger] queue[i])@]] == found[seq![(#[trigger] queue[j])@]] ==> comes_before(
            walks[seq![queue[i]@]],
            walks[seq![queue[j]@]],
        )
}

/// A breadth-first search: the nodes found, with their distances and the steps by which they
/// were found, and the order in which they were found.
struct Search {
    found: SortedMap<String, u32>,
    parents: SortedMap<String, (String, String)>,
    queue: Vec<String>,
    walks: Ghost<Map<Seq<Seq<char>>, Seq<int>>>,
}

impl Search {
    spec fn wf(&self, edges: Seq<SemanticEdge>, direction: TraversalDirection, root: Seq<char>, limit: u32) -> bool {
        &&& self.found.wf()
        &&& self.parents.wf()
        &&& search_state(edges, direction, root, limit, self.found@, self.queue@)
        &&& traced(edges, direction, root, self.found@, self.parents@)
    }

    /// The walks by which the nodes were found are the first ones, and these are in order.
    #[verifier::opaque]
    spec fn in_order(&self, edges: Seq<SemanticEdge>, direction: TraversalDirection, root: Seq<char>) -> bool {
        &&& walked(edges, direction, root, self.found@, self.parents@, self.walks@)
        &&& least(edges, direction, root, self.found@, self.walks@)
        &&& ranked(self.queue@, self.found@, self.walks@)
    }

    /// What was found one step further than a node was found from nodes before that.
    #[verifier::opaque]
    spec fn next_in_order(&self, head: int) -> bool {
        forall|j: int|
            0 <= j < self.queue@.len() && self.found@[seq![(#[trigger] self.queue@[j])@]] == self.found@[seq![self.queue@[head]@]] + 1
                ==> comes_before(self.walks@[seq![self.queue@[j]@]].drop_last(), self.walks@[seq![self.queue@[head]@]])
    }

    /// Some edge at the front of the search leads to a node that has not been found.
    spec fn open_end(&self, edges: Seq<SemanticEdge>, direction: TraversalDirection, limit: u32, head: int) -> bool {
        exists|i: int, e: int|
            0 <= i < head && 0 <= e < edges.len() && self.found@[seq![(#[trigger] self.queue@[i])@]] == limit && tail_of(
                #[trigger] edges[e],
                direction,
            ) == self.queue@[i]@ && !self.found@.contains_key(seq![head_of(edges[e], direction)])
    }

    fn new(root: &str, Ghost(edges): Ghost<Seq<SemanticEdge>>, Ghost(direction): Ghost<TraversalDirection>, Ghost(limit): Ghost<u32>) -> (r: Search)
        ensures
            r.wf(edges, direction, root@, limit),
            r.queue@.len() == 1,
            r.queue@[0]@ == root@,
            r.found@ == Map::<Seq<Seq<char>>, u32>::empty().insert(seq![root@], 0),
            r.in_order(edges, direction, root@),
    {
        let mut found: SortedMap<String, u32> = SortedMap::new();
        found.insert(root.to_owned(), 0);
        let mut queue: Vec<String> = Vec::new();
        queue.push(root.to_owned());
        proof {
            universe_finite(edges, direction, root@);
            assert(queue@[0]@ == root@);
            assert forall|k: Seq<Seq<char>>| #[trigger] found@.contains_key(k) implies exists|i: int| 0 <= i < queue@.len() && k == seq![(#[trigger] queue@[i])@] by {
                assert(k == seq![queue@[0]@]);
            }
            found.finite();
            reveal(Search::in_order);
            assert(seq![root@][0] == root@);
        }
        let search: Search = Search {
            found,
            parents: SortedMap::new(),
            queue,
            walks: Ghost(Map::empty().insert(seq![root@], Seq::empty())),
        };
        assert forall|k: Seq<Seq<char>>, w: Seq<int>| #[trigger]
            search.found@.contains_key(k) && #[trigger] walk(edges, direction, root@, k[0], w) && w.len() == search.found@[k] implies !comes_before(
            w,
            search.walks@[k],
        ) by {
            assert(k == seq![root@]);
        }
        search
    }

    /// Whether one of the edges leads to a node that has not been found.
    fn leads_on(&self, edges: &Vec<SemanticEdge>, direction: TraversalDirection, list: &Vec<usize>) -> (r: bool)
        requires
            self.found.wf(),
            forall|j: int| 0 <= j < list@.len() ==> #[trigger] list@[j] < edges@.len(),
        ensures
            r == exists|j: int| 0 <= j < list@.len() && !self.found@.contains_key(
                seq![head_of(edges@[(#[trigger] list@[j]) as int], direction)],
            ),
    {
        let mut k: usize = 0;
        while k < list.len()
            invariant
                k <= list@.len(),
                self.found.wf(),
                forall|j: int| 0 <= j < list@.len() ==> #[trigger] list@[j] < edges@.len(),
                forall|j: int| 0 <= j < k ==> self.found@.contains_key(
                    seq![head_of(edges@[(#[trigger] list@[j]) as int], direction)],
                ),
            decreases list@.len() - k,
        {
            let target: &String = traversal_endpoints(&edges[list[k]], direction).1;
            if !self.found.contains_key(target) {
                assert(!self.found@.contains_key(seq![head_of(edges@[list@[k as int] as int], direction)]));
                return true;
            }
            k = k + 1;
        }
        false
    }

    /// Takes one step: a node is found by an edge from another.
    fn discover(
        &mut self,
        target: &String,
        node: &String,
        edge: &String,
        hops: u32,
        Ghost(e): Ghost<int>,
        Ghost(edges): Ghost<Seq<SemanticEdge>>,
        Ghost(direction): Ghost<TraversalDirection>,
        Ghost(root): Ghost<Seq<char>>,
        Ghost(limit): Ghost<u32>,
    )
        requires
            old(self).wf(edges, direction, root, limit),
            !old(self).found@.contains_key(seq![target@]),
            old(self).found@.contains_key(seq![node@]),
            old(self).found@[seq![node@]] == hops,
            hops < limit,
            joins(edges, direction, edge@, node@, target@),
            forall|j: int| 0 <= j < old(self).queue@.len() ==> old(self).found@[seq![(#[trigger] old(self).queue@[j])@]] <= hops + 1,
        ensures
            final(self).wf(edges, direction, root, limit),
            final(self).found@ == old(self).found@.insert(seq![target@], (hops + 1) as u32),
            final(self).queue@ == old(self).queue@.push(*target),
            final(self).found@.dom().len() == old(self).found@.dom().len() + 1,
            reaches(edges, direction, root, target@, (hops + 1) as nat),
            final(self).walks@ == old(self).walks@.insert(seq![target@], old(self).walks@[seq![node@]].push(e)),
            exists|step: (String, String)|
                step.0@ == node@ && step.1@ == edge@ && final(self).parents@ == #[trigger] old(self).parents@.insert(seq![target@], step),
    {
        let ghost map_now = self.found@;
        let ghost queue_now = self.queue@;
        let ghost parents_now = self.parents@;
        let ghost key = seq![target@];
        let step: (String, String) = (node.clone(), edge.clone());
        let ghost parent = step;
        self.found.insert(target.clone(), hops + 1);
        self.parents.insert(target.clone(), step);
        self.queue.push(target.clone());
        self.walks = Ghost(self.walks@.insert(seq![target@], self.walks@[seq![node@]].push(e)));
        assert(self.parents@ == parents_now.insert(key, parent));
        proof {
            universe_finite(edges, direction, root);
            let e = choose|e: int|
                0 <= e < edges.len() && (#[trigger] edges[e]).id@ == edge@ && tail_of(edges[e], direction) == node@ && head_of(
                    edges[e],
                    direction,
                ) == target@;
            let from = choose|i: int| 0 <= i < queue_now.len() && seq![node@] == seq![(#[trigger] queue_now[i])@];
            assert(seq![node@][0] == seq![queue_now[from]@][0]);
            assert(reaches(edges, direction, root, node@, hops as nat));
            assert(reaches(edges, direction, root, target@, (hops + 1) as nat)) by {
                assert(head_of(edges[e], direction) == target@);
            }
            let map = self.found@;
            let queue = self.queue@;
            assert(universe(edges, direction, root).contains(key));
            assert forall|i: int| 0 <= i < queue.len() implies map.contains_key(seq![(#[trigger] queue[i])@]) && map[seq![queue[i]@]] <= limit && reaches(
                edges,
                direction,
                root,
                queue[i]@,
                map[seq![queue[i]@]] as nat,
            ) by {
                if i < queue_now.len() {
                    assert(queue[i] == queue_now[i]);
                    assert(map_now.contains_key(seq![queue_now[i]@]));
                    assert(seq![queue_now[i]@] != key);
                }
            }
            assert forall|x: Seq<Seq<char>>| #[trigger] map.contains_key(x) implies exists|i: int| 0 <= i < queue.len() && x == seq![(#[trigger] queue[i])@] by {
                if x == key {
                    assert(x == seq![queue[queue_now.len() as int]@]);
                } else {
                    assert(map_now.contains_key(x));
                    let i = choose|i: int| 0 <= i < queue_now.len() && x == seq![(#[trigger] queue_now[i])@];
                    assert(queue[i] == queue_now[i]);
                }
            }
            assert forall|i: int, j: int| 0 <= i <= j < queue.len() implies map[seq![(#[trigger] queue[i])@]] <= map[seq![(#[trigger] queue[j])@]] by {
                if i < queue_now.len() {
                    assert(queue[i] == queue_now[i]);
                    assert(map_now.contains_key(seq![queue_now[i]@]));
                    if j < queue_now.len() {
                        assert(queue[j] == queue_now[j]);
                        assert(map_now.contains_key(seq![queue_now[j]@]));
                    }
                }
            }
            assert(map.dom() =~= map_now.dom().insert(key));
            assert forall|x: Seq<Seq<char>>| #[trigger] map.contains_key(x) && x != seq![root] implies {
                &&& self.parents@.contains_key(x)
                &&& map.contains_key(seq![self.parents@[x].0@])
                &&& map[seq![self.parents@[x].0@]] + 1 == map[x]
                &&& joins(edges, direction, self.parents@[x].1@, self.parents@[x].0@, x[0])
            } by {
                assert(seq![node@] != key);
                if x != key {
                    assert(map_now.contains_key(x));
                    assert(seq![parents_now[x].0@] != key);
                }
            }
        }
    }

    /// How a search stands while it takes the steps from a node, once it has taken the first ones
    /// in the list.
    #[verifier::opaque]
    spec fn stage(
        &self,
        edges: Seq<SemanticEdge>,
        direction: TraversalDirection,
        root: Seq<char>,
        head: int,
        hops: u32,
        list: Seq<usize>,
        k: int,
    ) -> bool {
        let least = self.walks@[seq![self.queue@[head]@]];
        &&& self.in_order(edges, direction, root)
        &&& 0 <= head < self.queue@.len()
        &&& self.found@[seq![self.queue@[head]@]] == hops
        &&& forall|j: int|
            0 <= j < self.queue@.len() && self.found@[seq![(#[trigger] self.queue@[j])@]] == hops + 1 ==> {
                let before = self.walks@[seq![self.queue@[j]@]].drop_last();
                before == least || comes_before(before, least)
            }
        &&& forall|j: int, m: int|
            0 <= j < self.queue@.len() && self.found@[seq![(#[trigger] self.queue@[j])@]] == hops + 1 && k <= m < list.len() ==> comes_before(
                self.walks@[seq![self.queue@[j]@]],
                least.push((#[trigger] list[m]) as int),
            )
        &&& forall|i: int, e: int|
            0 <= i < head && 0 <= e < edges.len() && tail_of(#[trigger] edges[e], direction) == (#[trigger] self.queue@[i])@
                ==> self.found@.contains_key(seq![head_of(edges[e], direction)])
        &&& forall|x: Seq<char>| #[trigger]
            reaches(edges, direction, root, x, hops as nat) ==> self.found@.contains_key(seq![x]) && self.found@[seq![x]] <= hops
        &&& forall|a: int, b: int| 0 <= a < b < list.len() ==> (#[trigger] list[a]) < (#[trigger] list[b])
        &&& forall|m: int| 0 <= m < list.len() ==> 0 <= #[trigger] list[m] < edges.len()
        &&& forall|i: int|
            0 <= i < edges.len() && tail_of(#[trigger] edges[i], direction) == self.queue@[head]@ ==> exists|m: int|
                0 <= m < list.len() && list[m] == i
        &&& forall|m: int| 0 <= m < k ==> self.found@.contains_key(seq![head_of(edges[(#[trigger] list[m]) as int], direction)])
    }

    /// The steps from a node begin.
    proof fn stage_begins(
        &self,
        edges: Seq<SemanticEdge>,
        direction: TraversalDirection,
        root: Seq<char>,
        limit: u32,
        head: int,
        hops: u32,
        list: Seq<usize>,
    )
        requires
            self.wf(edges, direction, root, limit),
            self.in_order(edges, direction, root),
            0 <= head < self.queue@.len(),
            self.next_in_order(head),
            self.found@[seq![self.queue@[head]@]] == hops,
            hops < limit,
            forall|i: int| 0 <= i < head ==> settled(edges, direction, limit, self.found@, (#[trigger] self.queue@[i])@),
            forall|m: int| 0 <= m < list.len() ==> 0 <= #[trigger] list[m] < edges.len(),
            forall|a: int, b: int| 0 <= a < b < list.len() ==> (#[trigger] list[a]) < (#[trigger] list[b]),
            forall|i: int|
                0 <= i < edges.len() && tail_of(#[trigger] edges[i], direction) == self.queue@[head]@ ==> exists|m: int|
                    0 <= m < list.len() && list[m] == i,
        ensures
            self.stage(edges, direction, root, head, hops, list, 0),
    {
        reveal(Search::stage);
        reveal(Search::next_in_order);
        let found = self.found@;
        let queue = self.queue@;
        let first = self.walks@[seq![queue[head]@]];
        assert forall|j: int, m: int|
            0 <= j < queue.len() && found[seq![(#[trigger] queue[j])@]] == hops + 1 && 0 <= m < list.len() implies comes_before(
            self.walks@[seq![queue[j]@]],
            first.push((#[trigger] list[m]) as int),
        ) by {
            let w = self.walks@[seq![queue[j]@]];
            reveal(Search::in_order);
            assert(found.contains_key(seq![queue[j]@]));
            assert(w.len() == hops + 1);
            before_push(w.drop_last(), first, w.last(), list[m] as int);
            assert(w =~= w.drop_last().push(w.last()));
        }
        assert forall|i: int, e: int|
            0 <= i < head && 0 <= e < edges.len() && tail_of(#[trigger] edges[e], direction) == (#[trigger] queue[i])@ implies found.contains_key(
            seq![head_of(edges[e], direction)],
        ) by {
            assert(settled(edges, direction, limit, found, queue[i]@));
            assert(found[seq![queue[i]@]] <= found[seq![queue[head]@]]);
        }
        self.lemma_closed_below(edges, direction, root, limit, head);
        assert forall|x: Seq<char>| #[trigger] reaches(edges, direction, root, x, hops as nat) implies found.contains_key(seq![x])
            && found[seq![x]] <= hops by {
            settled_finds_all(edges, direction, root, limit, found, hops, x, hops as nat);
        }
    }

    /// A step that leads to a node already found changes nothing.
    proof fn stage_goes_on(
        &self,
        edges: Seq<SemanticEdge>,
        direction: TraversalDirection,
        root: Seq<char>,
        head: int,
        hops: u32,
        list: Seq<usize>,
        k: int,
    )
        requires
            self.stage(edges, direction, root, head, hops, list, k),
            0 <= k < list.len(),
            self.found@.contains_key(seq![head_of(edges[list[k] as int], direction)]),
        ensures
            self.stage(edges, direction, root, head, hops, list, k + 1),
    {
        reveal(Search::stage);
    }

    /// The walk by which a step finds a node is the first one there.
    proof fn step_is_least(
        &self,
        edges: Seq<SemanticEdge>,
        direction: TraversalDirection,
        root: Seq<char>,
        limit: u32,
        head: int,
        hops: u32,
        list: Seq<usize>,
        k: int,
        w: Seq<int>,
    )
        requires
            self.wf(edges, direction, root, limit),
            self.stage(edges, direction, root, head, hops, list, k),
            0 <= k < list.len(),
            !self.found@.contains_key(seq![head_of(edges[list[k] as int], direction)]),
            walk(edges, direction, root, head_of(edges[list[k] as int], direction), w),
            w.len() == hops + 1,
        ensures
            !comes_before(w, self.walks@[seq![self.queue@[head]@]].push(list[k] as int)),
    {
        reveal(Search::stage);
        reveal(Search::in_order);
        let found = self.found@;
        let queue = self.queue@;
        let first = self.walks@[seq![queue[head]@]];
        let chosen = first.push(list[k] as int);
        let (rest, last) = (w.drop_last(), w.last());
        let source = tail_of(edges[last], direction);
        let key = seq![source];
        assert(key[0] == source);
        assert(w =~= rest.push(last));
        walk_reaches(edges, direction, root, source, rest);
        assert(reaches(edges, direction, root, source, hops as nat));
        assert(found.contains_key(key) && found[key] <= hops);
        let i = choose|i: int| 0 <= i < queue.len() && key == seq![(#[trigger] queue[i])@];
        assert(key[0] == seq![queue[i]@][0]);
        assert(queue[i]@ == source);
        assert(i >= head);
        assert(found[seq![queue[head]@]] <= found[seq![queue[i]@]]);
        assert(found[key] == hops);
        assert(found.contains_key(seq![queue[head]@]));
        assert(first.len() == hops);
        assert(walk(edges, direction, root, key[0], rest));
        assert(!comes_before(rest, self.walks@[key]));
        before_total(rest, self.walks@[key]);
        if i == head {
            if rest == first {
                let m = choose|m: int| 0 <= m < list.len() && list[m] == last;
                assert(m >= k) by {
                    if m < k {
                        assert(found.contains_key(seq![head_of(edges[list[m] as int], direction)]));
                    }
                }
                if m == k {
                    assert(w =~= chosen);
                    if comes_before(w, chosen) {
                        before_asymmetric(w, chosen);
                    }
                } else {
                    assert(list[k] < list[m]);
                    before_last(first, list[k] as int, last);
                    before_asymmetric(chosen, w);
                }
            } else {
                before_push(first, rest, list[k] as int, last);
                before_asymmetric(chosen, w);
            }
        } else {
            assert(comes_before(first, self.walks@[key]));
            if rest != self.walks@[key] {
                before_transitive(first, self.walks@[key], rest);
            }
            before_push(first, rest, list[k] as int, last);
            before_asymmetric(chosen, w);
        }
    }

    /// A step that finds a node keeps the walks in order.
    proof fn stage_finds(
        &self,
        before: &Search,
        edges: Seq<SemanticEdge>,
        direction: TraversalDirection,
        root: Seq<char>,
        limit: u32,
        head: int,
        hops: u32,
        list: Seq<usize>,
        k: int,
        target: String,
    )
        requires
            before.wf(edges, direction, root, limit),
            before.stage(edges, direction, root, head, hops, list, k),
            0 <= k < list.len(),
            hops < limit,
            tail_of(edges[list[k] as int], direction) == before.queue@[head]@,
            head_of(edges[list[k] as int], direction) == target@,
            !before.found@.contains_key(seq![target@]),
            self.found@ == before.found@.insert(seq![target@], (hops + 1) as u32),
            self.queue@ == before.queue@.push(target),
            self.walks@ == before.walks@.insert(seq![target@], before.walks@[seq![before.queue@[head]@]].push(list[k] as int)),
            exists|step: (String, String)|
                step.0@ == before.queue@[head]@ && step.1@ == edges[list[k] as int].id@ && self.parents@
                    == #[trigger] before.parents@.insert(seq![target@], step),
        ensures
            self.stage(edges, direction, root, head, hops, list, k + 1),
    {
        self.stage_finds_walks(before, edges, direction, root, limit, head, hops, list, k, target);
        reveal(Search::stage);
        let key = seq![target@];
        let e = list[k] as int;
        let first = before.walks@[seq![before.queue@[head]@]];
        let chosen = first.push(e);
        assert forall|j: int| 0 <= j < before.queue@.len() implies #[trigger] self.queue@[j] == before.queue@[j]
            && before.found@.contains_key(seq![before.queue@[j]@]) && seq![before.queue@[j]@] != key by {}
        assert(self.queue@[head] == before.queue@[head]);
        assert(chosen.drop_last() =~= first);
        assert forall|j: int, m: int|
            0 <= j < self.queue@.len() && self.found@[seq![(#[trigger] self.queue@[j])@]] == hops + 1 && k + 1 <= m < list.len() implies comes_before(
            self.walks@[seq![self.queue@[j]@]],
            first.push((#[trigger] list[m]) as int),
        ) by {
            if j < before.queue@.len() {
                assert(self.queue@[j] == before.queue@[j]);
            } else {
                assert(list[k] < list[m]);
                before_last(first, e, list[m] as int);
            }
        }
        assert forall|i: int, e: int|
            0 <= i < head && 0 <= e < edges.len() && tail_of(#[trigger] edges[e], direction) == (#[trigger] self.queue@[i])@ implies self.found@.contains_key(
            seq![head_of(edges[e], direction)],
        ) by {
            assert(self.queue@[i] == before.queue@[i]);
        }
    }

    proof fn stage_finds_walks(
        &self,
        before: &Search,
        edges: Seq<SemanticEdge>,
        direction: TraversalDirection,
        root: Seq<char>,
        limit: u32,
        head: int,
        hops: u32,
        list: Seq<usize>,
        k: int,
        target: String,
    )
        requires
            before.wf(edges, direction, root, limit),
            before.stage(edges, direction, root, head, hops, list, k),
            0 <= k < list.len(),
            hops < limit,
            tail_of(edges[list[k] as int], direction) == before.queue@[head]@,
            head_of(edges[list[k] as int], direction) == target@,
            !before.found@.contains_key(seq![target@]),
            self.found@ == before.found@.insert(seq![target@], (hops + 1) as u32),
            self.queue@ == before.queue@.push(target),
            self.walks@ == before.walks@.insert(seq![target@], before.walks@[seq![before.queue@[head]@]].push(list[k] as int)),
            exists|step: (String, String)|
                step.0@ == before.queue@[head]@ && step.1@ == edges[list[k] as int].id@ && self.parents@
                    == #[trigger] before.parents@.insert(seq![target@], step),
        ensures
            self.in_order(edges, direction, root),
    {
        reveal(Search::stage);
        reveal(Search::in_order);
        let key = seq![target@];
        let e = list[k] as int;
        let node = before.queue@[head]@;
        let first = before.walks@[seq![node]];
        let chosen = first.push(e);
        let step = choose|step: (String, String)|
            step.0@ == node && step.1@ == edges[e].id@ && self.parents@ == #[trigger] before.parents@.insert(key, step);
        assert(key[0] == target@);
        assert(seq![node][0] == node);
        assert(before.found@.contains_key(seq![node]));
        assert(chosen.drop_last() =~= first);
        assert(chosen.last() == e);
        assert(walk(edges, direction, root, target@, chosen));
        assert(key != seq![root]);
        assert forall|x: Seq<Seq<char>>| #[trigger] self.found@.contains_key(x) && x != seq![root] implies {
            &&& self.walks@[x].len() > 0
            &&& edges[self.walks@[x].last()].id@ == self.parents@[x].1@
            &&& tail_of(edges[self.walks@[x].last()], direction) == self.parents@[x].0@
            &&& self.walks@[x].drop_last() == self.walks@[seq![self.parents@[x].0@]]
        } by {
            if x != key {
                assert(before.found@.contains_key(x));
                assert(before.found@.contains_key(seq![before.parents@[x].0@]));
            }
        }
        assert forall|x: Seq<Seq<char>>, w: Seq<int>| #[trigger]
            self.found@.contains_key(x) && #[trigger] walk(edges, direction, root, x[0], w) && w.len() == self.found@[x] implies !comes_before(
            w,
            self.walks@[x],
        ) by {
            if x == key {
                before.step_is_least(edges, direction, root, limit, head, hops, list, k, w);
            } else {
                assert(before.found@.contains_key(x));
            }
        }
        assert forall|i: int, j: int|
            0 <= i < j < self.queue@.len() && self.found@[seq![(#[trigger] self.queue@[i])@]] == self.found@[seq![(#[trigger] self.queue@[j])@]] implies comes_before(
            self.walks@[seq![self.queue@[i]@]],
            self.walks@[seq![self.queue@[j]@]],
        ) by {
            assert(self.queue@[i] == before.queue@[i]);
            assert(before.found@.contains_key(seq![before.queue@[i]@]));
            if j < before.queue@.len() {
                assert(self.queue@[j] == before.queue@[j]);
                assert(before.found@.contains_key(seq![before.queue@[j]@]));
            } else {
                assert(list[k] == e);
            }
        }
    }

    /// Once all steps from a node are taken, the next node is in order.
    proof fn stage_ends(
        &self,
        edges: Seq<SemanticEdge>,
        direction: TraversalDirection,
        root: Seq<char>,
        limit: u32,
        head: int,
        hops: u32,
        list: Seq<usize>,
    )
        requires
            self.wf(edges, direction, root, limit),
            self.stage(edges, direction, root, head, hops, list, list.len() as int),
            forall|j: int| 0 <= j < self.queue@.len() ==> self.found@[seq![(#[trigger] self.queue@[j])@]] <= hops + 1,
        ensures
            self.in_order(edges, direction, root),
            head + 1 < self.queue@.len() ==> self.next_in_order(head + 1),
    {
        reveal(Search::stage);
        reveal(Search::in_order);
        reveal(Search::next_in_order);
        if head + 1 < self.queue@.len() {
            let first = self.walks@[seq![self.queue@[head]@]];
            let next = self.walks@[seq![self.queue@[head + 1]@]];
            assert(self.found@[seq![self.queue@[head]@]] <= self.found@[seq![self.queue@[head + 1]@]]);
            assert forall|j: int|
                0 <= j < self.queue@.len() && self.found@[seq![(#[trigger] self.queue@[j])@]] == self.found@[seq![self.queue@[head + 1]@]]
                    + 1 implies comes_before(self.walks@[seq![self.queue@[j]@]].drop_last(), next) by {
                assert(self.found@[seq![self.queue@[head + 1]@]] == hops);
                assert(comes_before(first, next));
                let before = self.walks@[seq![self.queue@[j]@]].drop_last();
                if before != first {
                    before_transitive(before, first, next);
                }
            }
        }
    }

    /// Takes the steps from a node along the edges that leave it. Stops where a step finds the
    /// wanted node.
    fn expand(
        &mut self,
        edges: &Vec<SemanticEdge>,
        direction: TraversalDirection,
        list: &Vec<usize>,
        node: &String,
        hops: u32,
        wanted: &Option<String>,
        Ghost(root): Ghost<Seq<char>>,
        Ghost(limit): Ghost<u32>,
        Ghost(head): Ghost<int>,
    ) -> (r: bool)
        requires
            old(self).wf(edges@, direction, root, limit),
            0 <= head < old(self).queue@.len(),
            node@ == old(self).queue@[head]@,
            old(self).stage(edges@, direction, root, head, hops, list@, 0),
            old(self).found@.contains_key(seq![node@]),
            old(self).found@[seq![node@]] == hops,
            hops < limit,
            wanted is Some ==> !old(self).found@.contains_key(seq![wanted->0@]),
            forall|j: int| 0 <= j < old(self).queue@.len() ==> old(self).found@[seq![(#[trigger] old(self).queue@[j])@]] <= hops + 1,
            forall|j: int| 0 <= j < list@.len() ==> #[trigger] list@[j] < edges@.len() && tail_of(edges@[list@[j] as int], direction) == node@,
        ensures
            final(self).wf(edges@, direction, root, limit),
            old(self).queue@.is_prefix_of(final(self).queue@),
            forall|key: Seq<Seq<char>>| #[trigger] old(self).found@.contains_key(key) ==> final(self).found@.contains_key(key) && final(self).found@[key] == old(self).found@[key],
            forall|j: int| 0 <= j < final(self).queue@.len() ==> final(self).found@[seq![(#[trigger] final(self).queue@[j])@]] <= hops + 1,
            final(self).queue@.len() - old(self).queue@.len() == final(self).found@.dom().len() - old(self).found@.dom().len(),
            r ==> wanted is Some && final(self).found@.contains_key(seq![wanted->0@]) && final(self).found@[seq![wanted->0@]] == hops + 1,
            r ==> reaches(edges@, direction, root, wanted->0@, (hops + 1) as nat),
            !r ==> (wanted is Some ==> !final(self).found@.contains_key(seq![wanted->0@])),
            !r ==> forall|j: int| 0 <= j < list@.len() ==> final(self).found@.contains_key(seq![head_of(edges@[(#[trigger] list@[j]) as int], direction)])
                && final(self).found@[seq![head_of(edges@[list@[j] as int], direction)]] <= hops + 1,
            final(self).in_order(edges@, direction, root),
            !r ==> final(self).stage(edges@, direction, root, head, hops, list@, list@.len() as int),
    {
        let mut k: usize = 0;
        while k < list.len()
            invariant
                k <= list@.len(),
                hops < limit,
                0 <= head < old(self).queue@.len(),
                node@ == old(self).queue@[head]@,
                self.stage(edges@, direction, root, head, hops, list@, k as int),
                self.wf(edges@, direction, root, limit),
                old(self).queue@.is_prefix_of(self.queue@),
                old(self).found@.contains_key(seq![node@]),
                old(self).found@[seq![node@]] == hops,
                wanted is Some ==> !self.found@.contains_key(seq![wanted->0@]),
                forall|key: Seq<Seq<char>>| #[trigger] old(self).found@.contains_key(key) ==> self.found@.contains_key(key) && self.found@[key] == old(self).found@[key],
                forall|j: int| 0 <= j < self.queue@.len() ==> self.found@[seq![(#[trigger] self.queue@[j])@]] <= hops + 1,
                self.queue@.len() - old(self).queue@.len() == self.found@.dom().len() - old(self).found@.dom().len(),
                forall|j: int| 0 <= j < list@.len() ==> #[trigger] list@[j] < edges@.len() && tail_of(edges@[list@[j] as int], direction) == node@,
                forall|j: int| 0 <= j < k ==> self.found@.contains_key(seq![head_of(edges@[(#[trigger] list@[j]) as int], direction)])
                    && self.found@[seq![head_of(edges@[list@[j] as int], direction)]] <= hops + 1,
            decreases list@.len() - k,
        {
            let ghost before = *self;
            let edge: &SemanticEdge = &edges[list[k]];
            let target: &String = traversal_endpoints(edge, direction).1;
            let ghost key = seq![target@];
            let ghost e = list@[k as int] as int;
            assert(edges@[e] == *edge);
            assert(tail_of(edges@[e], direction) == node@);
            if !self.found.contains_key(target) {
                assert(joins(edges@, direction, edge.id@, node@, target@));
                assert(self.queue@[head] == old(self).queue@[head]);
                self.discover(target, node, &edge.id, hops, Ghost(e), Ghost(edges@), Ghost(direction), Ghost(root), Ghost(limit));
                proof {
                    self.stage_finds(&before, edges@, direction, root, limit, head, hops, list@, k as int, *target);
                    assert(self.in_order(edges@, direction, root)) by {
                        reveal(Search::stage);
                    }
                    assert forall|j: int| 0 <= j < self.queue@.len() implies self.found@[seq![(#[trigger] self.queue@[j])@]] <= hops + 1 by {
                        if j < before.queue@.len() {
                            assert(self.queue@[j] == before.queue@[j]);
                            assert(before.found@.contains_key(seq![before.queue@[j]@]));
                        }
                    }
                    assert forall|j: int| 0 <= j < k + 1 implies self.found@.contains_key(seq![head_of(edges@[(#[trigger] list@[j]) as int], direction)])
                        && self.found@[seq![head_of(edges@[list@[j] as int], direction)]] <= hops + 1 by {
                        if j < k {
                            assert(before.found@.contains_key(seq![head_of(edges@[list@[j] as int], direction)]));
                        }
                    }
                }
                let arrived: bool = match wanted {
                    Some(wanted) => same(target.as_str(), wanted.as_str()),
                    None => false,
                };
                if arrived {
                    assert(key == seq![wanted->0@]);
                    return true;
                }
                proof {
                    if wanted is Some {
                        assert(key[0] != seq![wanted->0@][0]);
                    }
                }
            } else {
                proof {
                    let i = choose|i: int| 0 <= i < self.queue@.len() && key == seq![(#[trigger] self.queue@[i])@];
                    assert(self.found@[key] <= hops + 1);
                    self.stage_goes_on(edges@, direction, root, head, hops, list@, k as int);
                }
            }
            k = k + 1;
        }
        proof {
            reveal(Search::stage);
        }
        false
    }

    /// What a search comes to once no node is left to go on from.
    proof fn finished(&self, edges: Seq<SemanticEdge>, direction: TraversalDirection, root: Seq<char>, limit: u32, truncated: bool)
        requires
            self.wf(edges, direction, root, limit),
            forall|i: int| 0 <= i < self.queue@.len() ==> settled(edges, direction, limit, self.found@, (#[trigger] self.queue@[i])@),
            truncated == self.open_end(edges, direction, limit, self.queue@.len() as int),
        ensures
            forall|k: Seq<Seq<char>>| #[trigger] self.found@.contains_key(k) ==> k.len() == 1 && self.found@[k] <= limit && distance(
                edges,
                direction,
                root,
                k[0],
                self.found@[k] as nat,
            ),
            forall|node: Seq<char>| #[trigger] self.found@.contains_key(seq![node]) <==> within(edges, direction, root, node, limit),
            truncated == leads_beyond(edges, direction, root, limit),
    {
        let found = self.found@;
        let queue = self.queue@;
        assert forall|node: Seq<char>| #[trigger] found.contains_key(seq![node]) implies settled(edges, direction, limit, found, node) by {
            let i = choose|i: int| 0 <= i < queue.len() && seq![node] == seq![(#[trigger] queue[i])@];
            assert(seq![node][0] == seq![queue[i]@][0]);
        }
        assert forall|k: Seq<Seq<char>>| #[trigger] found.contains_key(k) implies k.len() == 1 && found[k] <= limit && distance(
            edges,
            direction,
            root,
            k[0],
            found[k] as nat,
        ) by {
            let i = choose|i: int| 0 <= i < queue.len() && k == seq![(#[trigger] queue[i])@];
            assert forall|m: nat| m < found[k] implies !reaches(edges, direction, root, k[0], m) by {
                if reaches(edges, direction, root, k[0], m) {
                    settled_finds_all(edges, direction, root, limit, found, limit, k[0], m);
                }
            }
        }
        assert forall|node: Seq<char>| #[trigger] found.contains_key(seq![node]) <==> within(edges, direction, root, node, limit) by {
            if within(edges, direction, root, node, limit) {
                let n = choose|n: nat| n <= limit && #[trigger] reaches(edges, direction, root, node, n);
                settled_finds_all(edges, direction, root, limit, found, limit, node, n);
            }
            if found.contains_key(seq![node]) {
                assert(distance(edges, direction, root, seq![node][0], found[seq![node]] as nat));
                assert(reaches(edges, direction, root, node, found[seq![node]] as nat));
            }
        }
        let cut = leads_beyond(edges, direction, root, limit);
        if truncated {
            let (i, e) = choose|i: int, e: int|
                0 <= i < queue.len() && 0 <= e < edges.len() && found[seq![(#[trigger] queue[i])@]] == limit && tail_of(
                    #[trigger] edges[e],
                    direction,
                ) == queue[i]@ && !found.contains_key(seq![head_of(edges[e], direction)]);
            let key = seq![queue[i]@];
            assert(found.contains_key(key));
            assert(distance(edges, direction, root, key[0], limit as nat));
            assert(cut);
        }
        if cut {
            let e = choose|i: int|
                0 <= i < edges.len() && distance(edges, direction, root, tail_of(#[trigger] edges[i], direction), limit as nat)
                    && !within(edges, direction, root, head_of(edges[i], direction), limit);
            let source = tail_of(edges[e], direction);
            assert(reaches(edges, direction, root, source, limit as nat));
            assert(within(edges, direction, root, source, limit));
            let key = seq![source];
            assert(found.contains_key(key));
            assert(distance(edges, direction, root, key[0], found[key] as nat));
            assert(found[key] == limit) by {
                if found[key] < limit {
                    assert(!reaches(edges, direction, root, source, found[key] as nat));
                }
            }
            let i = choose|i: int| 0 <= i < queue.len() && key == seq![(#[trigger] queue[i])@];
            assert(key[0] == seq![queue[i]@][0]);
            assert(truncated);
        }
    }

    /// How a search stands once it has gone on from the first nodes that it found.
    #[verifier::opaque]
    spec fn stands(
        &self,
        edges: Seq<SemanticEdge>,
        direction: TraversalDirection,
        root: Seq<char>,
        limit: u32,
        wanted: Option<String>,
        head: int,
        truncated: bool,
    ) -> bool {
        &&& 0 <= head <= self.queue@.len()
        &&& self.wf(edges, direction, root, limit)
        &&& wanted is Some ==> !self.found@.contains_key(seq![wanted->0@])
        &&& head < self.queue@.len() ==> forall|j: int|
            0 <= j < self.queue@.len() ==> self.found@[seq![(#[trigger] self.queue@[j])@]] <= self.found@[seq![self.queue@[head]@]] + 1
        &&& forall|i: int| 0 <= i < head ==> settled(edges, direction, limit, self.found@, (#[trigger] self.queue@[i])@)
        &&& truncated == self.open_end(edges, direction, limit, head)
        &&& self.in_order(edges, direction, root)
        &&& head < self.queue@.len() ==> self.next_in_order(head)
    }

    /// What is left of a search.
    spec fn left(&self, edges: Seq<SemanticEdge>, direction: TraversalDirection, root: Seq<char>) -> int {
        universe(edges, direction, root).len() - self.found@.dom().len()
    }

    /// Stops at a node at the end of the search. Gives back whether an edge leads on from it.
    fn stop_at(
        &self,
        edges: &Vec<SemanticEdge>,
        direction: TraversalDirection,
        limit: u32,
        wanted: &Option<String>,
        head: usize,
        truncated: bool,
        list: &Vec<usize>,
        Ghost(root): Ghost<Seq<char>>,
    ) -> (r: bool)
        requires
            self.stands(edges@, direction, root, limit, *wanted, head as int, truncated),
            head < self.queue@.len(),
            self.found@[seq![self.queue@[head as int]@]] == limit,
            forall|k: int| 0 <= k < list@.len() ==> #[trigger] list@[k] < edges@.len() && tail_of(edges@[list@[k] as int], direction) == self.queue@[head as int]@,
            forall|i: int| 0 <= i < edges@.len() && tail_of(#[trigger] edges@[i], direction) == self.queue@[head as int]@ ==> exists|k: int|
                0 <= k < list@.len() && list@[k] == i,
        ensures
            self.stands(edges@, direction, root, limit, *wanted, head + 1, truncated || r),
    {
        proof {
            reveal(Search::stands);
        }
        let open: bool = self.leads_on(edges, direction, list);
        proof {
            let at = head as int;
            self.lemma_open_end(edges@, direction, limit, at, list@, open);
            assert(settled(edges@, direction, limit, self.found@, self.queue@[at]@));
            if at + 1 < self.queue@.len() {
                assert(self.found@[seq![self.queue@[at]@]] <= self.found@[seq![self.queue@[at + 1]@]]);
                assert(self.next_in_order(at + 1)) by {
                    reveal(Search::next_in_order);
                    assert(self.found@[seq![self.queue@[at + 1]@]] == limit);
                }
            }
        }
        open
    }

    /// Goes on from a node before the end of the search. Gives back whether that finds the wanted
    /// node.
    fn go_on_from(
        &mut self,
        edges: &Vec<SemanticEdge>,
        direction: TraversalDirection,
        limit: u32,
        wanted: &Option<String>,
        head: usize,
        truncated: bool,
        list: &Vec<usize>,
        node: &String,
        hops: u32,
        Ghost(root): Ghost<Seq<char>>,
    ) -> (r: bool)
        requires
            old(self).stands(edges@, direction, root, limit, *wanted, head as int, truncated),
            head < old(self).queue@.len(),
            node@ == old(self).queue@[head as int]@,
            old(self).found@[seq![node@]] == hops,
            hops < limit,
            forall|k: int| 0 <= k < list@.len() ==> #[trigger] list@[k] < edges@.len() && tail_of(edges@[list@[k] as int], direction) == node@,
            forall|i: int| 0 <= i < edges@.len() && tail_of(#[trigger] edges@[i], direction) == node@ ==> exists|k: int|
                0 <= k < list@.len() && list@[k] == i,
            forall|a: int, b: int| 0 <= a < b < list@.len() ==> (#[trigger] list@[a]) < (#[trigger] list@[b]),
        ensures
            r ==> final(self).in_order(edges@, direction, root),
            r ==> final(self).wf(edges@, direction, root, limit),
            r ==> wanted is Some && final(self).found@.contains_key(seq![wanted->0@]) && final(self).found@[seq![wanted->0@]] <= limit
                && distance(edges@, direction, root, wanted->0@, final(self).found@[seq![wanted->0@]] as nat),
            !r ==> final(self).stands(edges@, direction, root, limit, *wanted, head + 1, truncated),
            final(self).queue@.len() >= old(self).queue@.len(),
            final(self).queue@.len() - old(self).queue@.len() == final(self).found@.dom().len() - old(self).found@.dom().len(),
    {
        proof {
            reveal(Search::stands);
        }
        let ghost before = *self;
        proof {
            assert(before.found@.contains_key(seq![node@]));
            before.lemma_closed_below(edges@, direction, root, limit, head as int);
            if wanted is Some {
                assert forall|m: nat| m <= hops implies !reaches(edges@, direction, root, wanted->0@, m) by {
                    if reaches(edges@, direction, root, wanted->0@, m) {
                        settled_finds_all(edges@, direction, root, limit, before.found@, hops, wanted->0@, m);
                    }
                }
            }
        }
        proof {
            self.stage_begins(edges@, direction, root, limit, head as int, hops, list@);
        }
        let arrived: bool = self.expand(edges, direction, list, node, hops, wanted, Ghost(root), Ghost(limit), Ghost(head as int));
        proof {
            if arrived {
                assert forall|m: nat| m < hops + 1 implies !reaches(edges@, direction, root, wanted->0@, m) by {
                    assert(m <= hops);
                }
            } else {
                self.stage_ends(edges@, direction, root, limit, head as int, hops, list@);
                self.lemma_settled(&before, edges@, direction, root, limit, head as int, list@, hops);
            }
        }
        arrived
    }

    /// Searches on until no node is left to go on from, or the wanted node is found.
    fn run(
        &mut self,
        edges: &Vec<SemanticEdge>,
        direction: TraversalDirection,
        limit: u32,
        wanted: &Option<String>,
        Ghost(root): Ghost<Seq<char>>,
    ) -> (r: (bool, bool))
        requires
            old(self).wf(edges@, direction, root, limit),
            old(self).queue@.len() == 1,
            old(self).queue@[0]@ == root,
            old(self).found@ == Map::<Seq<Seq<char>>, u32>::empty().insert(seq![root], 0),
            old(self).in_order(edges@, direction, root),
            wanted is Some ==> wanted->0@ != root,
        ensures
            final(self).in_order(edges@, direction, root),
            final(self).wf(edges@, direction, root, limit),
            r.0 ==> wanted is Some && final(self).found@.contains_key(seq![wanted->0@]) && final(self).found@[seq![wanted->0@]] <= limit
                && distance(edges@, direction, root, wanted->0@, final(self).found@[seq![wanted->0@]] as nat),
            !r.0 ==> (wanted is Some ==> !within(edges@, direction, root, wanted->0@, limit)),
            !r.0 ==> r.1 == leads_beyond(edges@, direction, root, limit),
            !r.0 ==> forall|k: Seq<Seq<char>>| #[trigger] final(self).found@.contains_key(k) ==> k.len() == 1 && final(self).found@[k] <= limit && distance(
                edges@,
                direction,
                root,
                k[0],
                final(self).found@[k] as nat,
            ),
            !r.0 ==> forall|node: Seq<char>| #[trigger] final(self).found@.contains_key(seq![node]) <==> within(edges@, direction, root, node, limit),
    {
        let adjacent: Adjacency = Adjacency::new(edges, direction);
        let mut head: usize = 0;
        let mut truncated: bool = false;
        proof {
            if wanted is Some {
                assert(seq![wanted->0@][0] != seq![root][0]);
            }
            reveal(Search::stands);
            assert(self.next_in_order(0)) by {
                reveal(Search::next_in_order);
            }
            self.fits(edges@, direction, root, limit, *wanted, 0, false);
        }
        while head < self.queue.len()
            invariant
                adjacent.covers(edges@, direction, edges@.len() as int),
                head <= self.queue@.len(),
                self.stands(edges@, direction, root, limit, *wanted, head as int, truncated),
                self.left(edges@, direction, root) >= 0,
            decreases self.left(edges@, direction, root), self.queue@.len() - head,
        {
            proof {
                self.known(edges@, direction, root, limit, *wanted, head as int, truncated);
            }
            let node: String = self.queue[head].clone();
            let hops: u32 = match self.found.get(&node) {
                Some(hops) => *hops,
                None => 0,
            };
            let list: Vec<usize> = adjacent.leaving_edges(&node, Ghost(edges@), Ghost(direction));
            if hops == limit {
                let open: bool = self.stop_at(edges, direction, limit, wanted, head, truncated, &list, Ghost(root));
                truncated = truncated || open;
            } else {
                let arrived: bool = self.go_on_from(edges, direction, limit, wanted, head, truncated, &list, &node, hops, Ghost(root));
                if arrived {
                    return (true, false);
                }
                proof {
                    self.fits(edges@, direction, root, limit, *wanted, head + 1, truncated);
                }
            }
            head = head + 1;
        }
        proof {
            reveal(Search::stands);
            self.finished(edges@, direction, root, limit, truncated);
        }
        (false, truncated)
    }

    /// A search finds no more nodes than there are.
    proof fn fits(
        &self,
        edges: Seq<SemanticEdge>,
        direction: TraversalDirection,
        root: Seq<char>,
        limit: u32,
        wanted: Option<String>,
        head: int,
        truncated: bool,
    )
        requires
            self.stands(edges, direction, root, limit, wanted, head, truncated),
        ensures
            self.left(edges, direction, root) >= 0,
    {
        reveal(Search::stands);
        universe_finite(edges, direction, root);
        vstd::set_lib::lemma_len_subset(self.found@.dom(), universe(edges, direction, root));
    }

    /// The node that a search goes on from is known, within the limit.
    proof fn known(
        &self,
        edges: Seq<SemanticEdge>,
        direction: TraversalDirection,
        root: Seq<char>,
        limit: u32,
        wanted: Option<String>,
        head: int,
        truncated: bool,
    )
        requires
            self.stands(edges, direction, root, limit, wanted, head, truncated),
            head < self.queue@.len(),
        ensures
            self.found.wf(),
            self.found@.contains_key(seq![self.queue@[head]@]),
            self.found@[seq![self.queue@[head]@]] <= limit,
    {
        reveal(Search::stands);
    }

    proof fn lemma_open_end(&self, edges: Seq<SemanticEdge>, direction: TraversalDirection, limit: u32, head: int, list: Seq<usize>, open: bool)
        requires
            0 <= head < self.queue@.len(),
            self.found@[seq![self.queue@[head]@]] == limit,
            forall|k: int| 0 <= k < list.len() ==> #[trigger] list[k] < edges.len() && tail_of(edges[list[k] as int], direction) == self.queue@[head]@,
            forall|i: int| 0 <= i < edges.len() && tail_of(#[trigger] edges[i], direction) == self.queue@[head]@ ==> exists|k: int|
                0 <= k < list.len() && list[k] == i,
            open == exists|j: int| 0 <= j < list.len() && !self.found@.contains_key(
                seq![head_of(edges[(#[trigger] list[j]) as int], direction)],
            ),
        ensures
            self.open_end(edges, direction, limit, head + 1) == (self.open_end(edges, direction, limit, head) || open),
    {
        let found = self.found@;
        let queue = self.queue@;
        if open {
            let j = choose|j: int| 0 <= j < list.len() && !found.contains_key(seq![head_of(edges[(#[trigger] list[j]) as int], direction)]);
            let e = list[j] as int;
            assert(tail_of(edges[e], direction) == queue[head]@);
            assert(self.open_end(edges, direction, limit, head + 1));
        }
        if self.open_end(edges, direction, limit, head + 1) {
            let (i, e) = choose|i: int, e: int|
                0 <= i < head + 1 && 0 <= e < edges.len() && found[seq![(#[trigger] queue[i])@]] == limit && tail_of(
                    #[trigger] edges[e],
                    direction,
                ) == queue[i]@ && !found.contains_key(seq![head_of(edges[e], direction)]);
            if i == head {
                let j = choose|j: int| 0 <= j < list.len() && list[j] == e;
                assert(!found.contains_key(seq![head_of(edges[list[j] as int], direction)]));
                assert(open);
            } else {
                assert(self.open_end(edges, direction, limit, head));
            }
        }
    }

    proof fn lemma_closed_below(&self, edges: Seq<SemanticEdge>, direction: TraversalDirection, root: Seq<char>, limit: u32, head: int)
        requires
            self.wf(edges, direction, root, limit),
            0 <= head < self.queue@.len(),
            forall|i: int| 0 <= i < head ==> settled(edges, direction, limit, self.found@, (#[trigger] self.queue@[i])@),
        ensures
            forall|x: Seq<char>| #[trigger] self.found@.contains_key(seq![x]) && self.found@[seq![x]] < self.found@[seq![self.queue@[head]@]] ==> settled(
                edges,
                direction,
                limit,
                self.found@,
                x,
            ),
    {
        let found = self.found@;
        let queue = self.queue@;
        assert forall|x: Seq<char>| #[trigger] found.contains_key(seq![x]) && found[seq![x]] < found[seq![queue[head]@]] implies settled(
            edges,
            direction,
            limit,
            found,
            x,
        ) by {
            let i = choose|i: int| 0 <= i < queue.len() && seq![x] == seq![(#[trigger] queue[i])@];
            assert(seq![x][0] == seq![queue[i]@][0]);
            if i >= head {
                assert(found[seq![queue[head]@]] <= found[seq![queue[i]@]]);
            }
        }
    }

    proof fn lemma_settled(
        &self,
        before: &Search,
        edges: Seq<SemanticEdge>,
        direction: TraversalDirection,
        root: Seq<char>,
        limit: u32,
        head: int,
        list: Seq<usize>,
        hops: u32,
    )
        requires
            search_state(edges, direction, root, limit, before.found@, before.queue@),
            search_state(edges, direction, root, limit, self.found@, self.queue@),
            0 <= head < before.queue@.len(),
            before.found@[seq![before.queue@[head]@]] == hops,
            hops < limit,
            before.queue@.is_prefix_of(self.queue@),
            forall|i: int| 0 <= i < head ==> settled(edges, direction, limit, before.found@, (#[trigger] before.queue@[i])@),
            forall|key: Seq<Seq<char>>| #[trigger] before.found@.contains_key(key) ==> self.found@.contains_key(key) && self.found@[key] == before.found@[key],
            forall|j: int| 0 <= j < self.queue@.len() ==> self.found@[seq![(#[trigger] self.queue@[j])@]] <= hops + 1,
            forall|i: int| 0 <= i < edges.len() && tail_of(#[trigger] edges[i], direction) == before.queue@[head]@ ==> exists|k: int|
                0 <= k < list.len() && list[k] == i,
            forall|j: int| 0 <= j < list.len() ==> self.found@.contains_key(seq![head_of(edges[(#[trigger] list[j]) as int], direction)])
                && self.found@[seq![head_of(edges[list[j] as int], direction)]] <= hops + 1,
        ensures
            forall|i: int| 0 <= i < head + 1 ==> settled(edges, direction, limit, self.found@, (#[trigger] self.queue@[i])@),
            !before.open_end(edges, direction, limit, head),
            !self.open_end(edges, direction, limit, head + 1),
            head + 1 < self.queue@.len() ==> forall|j: int| 0 <= j < self.queue@.len() ==> self.found@[seq![(#[trigger] self.queue@[j])@]] <= self.found@[seq![self.queue@[head + 1]@]] + 1,
    {
        let found = self.found@;
        let queue = self.queue@;
        assert forall|i: int| 0 <= i < before.queue@.len() implies #[trigger] queue[i] == before.queue@[i] by {
            assert(before.queue@ =~= queue.take(before.queue@.len() as int));
        }
        let node = before.queue@[head]@;
        assert(queue[head] == before.queue@[head]);
        assert(before.found@.contains_key(seq![node]));
        assert(settled(edges, direction, limit, found, node)) by {
            assert forall|e: int| 0 <= e < edges.len() && tail_of(#[trigger] edges[e], direction) == node implies found.contains_key(
                seq![head_of(edges[e], direction)],
            ) && found[seq![head_of(edges[e], direction)]] <= hops + 1 by {
                let j = choose|j: int| 0 <= j < list.len() && list[j] == e;
                assert(found.contains_key(seq![head_of(edges[list[j] as int], direction)]));
            }
        }
        assert forall|i: int| 0 <= i < head + 1 implies settled(edges, direction, limit, found, (#[trigger] queue[i])@) by {
            assert(queue[i] == before.queue@[i]);
            if i < head {
                let x = before.queue@[i]@;
                assert(before.found@.contains_key(seq![x]));
                assert(settled(edges, direction, limit, before.found@, x));
            }
        }
        assert(queue[head] == before.queue@[head]);
        assert(before.found@.contains_key(seq![before.queue@[head]@]));
        assert forall|i: int| 0 <= i < head + 1 implies found[seq![(#[trigger] queue[i])@]] < limit by {
            assert(found[seq![queue[i]@]] <= found[seq![queue[head]@]]);
        }
        assert forall|i: int| 0 <= i < head implies before.found@[seq![(#[trigger] before.queue@[i])@]] < limit by {
            assert(before.found@[seq![before.queue@[i]@]] <= before.found@[seq![before.queue@[head]@]]);
        }
        if head + 1 < queue.len() {
            assert(found[seq![queue[head]@]] <= found[seq![queue[head + 1]@]]);
        }
    }
}

/// The distances of all nodes within a number of hops of the root, and whether some node just
/// beyond was left out.
pub fn distances(root: &str, edges: &Vec<SemanticEdge>, max_hops: u32, direction: TraversalDirection) -> (r: (SortedMap<String, u32>, bool))
    ensures
        r.0.wf(),
        forall|k: Seq<Seq<char>>| #[trigger] r.0@.contains_key(k) ==> k.len() == 1 && r.0@[k] <= max_hops && distance(
            edges@,
            direction,
            root@,
            k[0],
            r.0@[k] as nat,
        ),
        forall|node: Seq<char>| #[trigger] r.0@.contains_key(seq![node]) <==> within(edges@, direction, root@, node, max_hops),
        r.1 == leads_beyond(edges@, direction, root@, max_hops),
{
    let mut search: Search = Search::new(root, Ghost(edges@), Ghost(direction), Ghost(max_hops));
    let (_, truncated): (bool, bool) = search.run(edges, direction, max_hops, &None, Ghost(root@));
    (search.found, truncated)
}

/// A list of texts in reverse.
fn reversed(list: &Vec<String>) -> (r: Vec<String>)
    ensures
        r@.len() == list@.len(),
        forall|j: int| 0 <= j < r@.len() ==> (#[trigger] r@[j])@ == list@[list@.len() - 1 - j]@,
{
    let mut out: Vec<String> = Vec::new();
    let mut i: usize = 0;
    while i < list.len()
        invariant
            i <= list@.len(),
            out@.len() == i,
            forall|j: int| 0 <= j < i ==> (#[trigger] out@[j])@ == list@[list@.len() - 1 - j]@,
        decreases list@.len() - i,
    {
        out.push(list[list.len() - 1 - i].clone());
        i = i + 1;
    }
    out
}

/// Whether an edge of a list, and the nodes beside it, are those at a place of a walk, counted
/// from the end.
spec fn ends_at(
    edges: Seq<SemanticEdge>,
    direction: TraversalDirection,
    w: Seq<int>,
    back_nodes: Seq<String>,
    back_edges: Seq<String>,
    j: int,
) -> bool {
    let e = w[w.len() - 1 - j];
    &&& 0 <= e < edges.len()
    &&& back_edges[j]@ == edges[e].id@
    &&& back_nodes[j]@ == head_of(edges[e], direction)
    &&& back_nodes[j + 1]@ == tail_of(edges[e], direction)
}

/// Whether nodes and edges are those at the end of a walk, the last ones first.
spec fn ends_with(
    edges: Seq<SemanticEdge>,
    direction: TraversalDirection,
    w: Seq<int>,
    back_nodes: Seq<String>,
    back_edges: Seq<String>,
) -> bool {
    &&& back_nodes.len() == back_edges.len() + 1
    &&& back_edges.len() <= w.len()
    &&& forall|j: int| 0 <= j < back_edges.len() ==> #[trigger] ends_at(edges, direction, w, back_nodes, back_edges, j)
}

proof fn ends_one_earlier(
    edges: Seq<SemanticEdge>,
    direction: TraversalDirection,
    w: Seq<int>,
    back_nodes: Seq<String>,
    back_edges: Seq<String>,
    node: String,
    edge: String,
)
    requires
        ends_with(edges, direction, w, back_nodes, back_edges),
        back_edges.len() < w.len(),
        ({
            let e = w[w.len() - 1 - back_edges.len()];
            &&& 0 <= e < edges.len()
            &&& edge@ == edges[e].id@
            &&& back_nodes.last()@ == head_of(edges[e], direction)
            &&& node@ == tail_of(edges[e], direction)
        }),
    ensures
        ends_with(edges, direction, w, back_nodes.push(node), back_edges.push(edge)),
{
    let nodes = back_nodes.push(node);
    let list = back_edges.push(edge);
    assert forall|j: int| 0 <= j < list.len() implies #[trigger] ends_at(edges, direction, w, nodes, list, j) by {
        if j < back_edges.len() {
            assert(ends_at(edges, direction, w, back_nodes, back_edges, j));
            assert(list[j] == back_edges[j]);
            assert(nodes[j] == back_nodes[j]);
            assert(nodes[j + 1] == back_nodes[j + 1]);
        } else {
            assert(nodes[j] == back_nodes.last());
            assert(nodes[j + 1] == node);
        }
    }
}

/// Each node is known with the step and the walk by which it was found.
#[verifier::opaque]
spec fn backed(
    edges: Seq<SemanticEdge>,
    direction: TraversalDirection,
    root: Seq<char>,
    found: Map<Seq<Seq<char>>, u32>,
    parents: Map<Seq<Seq<char>>, (String, String)>,
    walks: Map<Seq<Seq<char>>, Seq<int>>,
) -> bool {
    &&& traced(edges, direction, root, found, parents)
    &&& walked(edges, direction, root, found, parents, walks)
    &&& found[seq![root]] == 0
}

proof fn step_back(
    edges: Seq<SemanticEdge>,
    direction: TraversalDirection,
    root: Seq<char>,
    found: Map<Seq<Seq<char>>, u32>,
    parents: Map<Seq<Seq<char>>, (String, String)>,
    walks: Map<Seq<Seq<char>>, Seq<int>>,
    w: Seq<int>,
    cursor: Seq<char>,
)
    requires
        backed(edges, direction, root, found, parents, walks),
        found.contains_key(seq![cursor]),
        cursor != root,
        found[seq![cursor]] <= w.len(),
        walks[seq![cursor]] == w.take(found[seq![cursor]] as int),
    ensures
        ({
            let n = found[seq![cursor]] as int;
            let step = parents[seq![cursor]];
            &&& n > 0
            &&& parents.contains_key(seq![cursor])
            &&& 0 <= w[n - 1] < edges.len()
            &&& edges[w[n - 1]].id@ == step.1@
            &&& head_of(edges[w[n - 1]], direction) == cursor
            &&& tail_of(edges[w[n - 1]], direction) == step.0@
            &&& found.contains_key(seq![step.0@])
            &&& found[seq![step.0@]] == n - 1
            &&& walks[seq![step.0@]] == w.take(n - 1)
        }),
{
    reveal(backed);
    let n = found[seq![cursor]] as int;
    let part = walks[seq![cursor]];
    assert(seq![cursor][0] == cursor && seq![root][0] == root);
    assert(walk(edges, direction, root, cursor, part));
    assert(part.last() == w[n - 1]);
    assert(part.drop_last() =~= w.take(n - 1));
}

/// Follows a search back from a node to the root: nodes and edges, the last ones first.
fn walk_back(
    from: &str,
    to: &str,
    parents: &SortedMap<String, (String, String)>,
    Ghost(edges): Ghost<Seq<SemanticEdge>>,
    Ghost(direction): Ghost<TraversalDirection>,
    Ghost(found): Ghost<Map<Seq<Seq<char>>, u32>>,
    Ghost(walks): Ghost<Map<Seq<Seq<char>>, Seq<int>>>,
) -> (r: (Vec<String>, Vec<String>))
    requires
        parents.wf(),
        backed(edges, direction, from@, found, parents@, walks),
        found.contains_key(seq![to@]),
        walks[seq![to@]].len() == found[seq![to@]],
    ensures
        ends_with(edges, direction, walks[seq![to@]], r.0@, r.1@),
        r.1@.len() == walks[seq![to@]].len(),
        r.0@[0]@ == to@,
        r.0@.last()@ == from@,
{
    let ghost w = walks[seq![to@]];
    let mut back_nodes: Vec<String> = Vec::new();
    let mut back_edges: Vec<String> = Vec::new();
    let mut cursor: String = to.to_owned();
    back_nodes.push(to.to_owned());
    assert(w.take(w.len() as int) =~= w);
    while !same(cursor.as_str(), from)
        invariant
            parents.wf(),
            backed(edges, direction, from@, found, parents@, walks),
            found.contains_key(seq![cursor@]),
            back_nodes@.len() > 0,
            back_nodes@[0]@ == to@,
            back_nodes@.last()@ == cursor@,
            found[seq![cursor@]] + back_edges@.len() == w.len(),
            walks[seq![cursor@]] == w.take(found[seq![cursor@]] as int),
            ends_with(edges, direction, w, back_nodes@, back_edges@),
        decreases found[seq![cursor@]],
    {
        proof {
            step_back(edges, direction, from@, found, parents@, walks, w, cursor@);
        }
        match parents.get(&cursor) {
            Some(step) => {
                let (parent, edge): (String, String) = (step.0.clone(), step.1.clone());
                let next: String = parent.clone();
                proof {
                    ends_one_earlier(edges, direction, w, back_nodes@, back_edges@, parent, edge);
                }
                back_nodes.push(parent);
                back_edges.push(edge);
                cursor = next;
            },
            None => {
                assert(false);
            },
        }
    }
    proof {
        reveal(backed);
    }
    (back_nodes, back_edges)
}

/// Follows a search back from a node to the root.
fn trace_back(
    from: &str,
    to: &str,
    parents: &SortedMap<String, (String, String)>,
    Ghost(edges): Ghost<Seq<SemanticEdge>>,
    Ghost(direction): Ghost<TraversalDirection>,
    Ghost(found): Ghost<Map<Seq<Seq<char>>, u32>>,
    Ghost(walks): Ghost<Map<Seq<Seq<char>>, Seq<int>>>,
) -> (r: SemanticPath)
    requires
        parents.wf(),
        traced(edges, direction, from@, found, parents@),
        walked(edges, direction, from@, found, parents@, walks),
        found.contains_key(seq![to@]),
        found[seq![from@]] == 0,
    ensures
        r.leads(edges, direction, from@, to@),
        r.edges@.len() == found[seq![to@]],
        r.follows(edges, direction, walks[seq![to@]]),
{
    proof {
        reveal(backed);
    }
    let (back_nodes, back_edges): (Vec<String>, Vec<String>) = walk_back(
        from,
        to,
        parents,
        Ghost(edges),
        Ghost(direction),
        Ghost(found),
        Ghost(walks),
    );
    let r: SemanticPath = SemanticPath { nodes: reversed(&back_nodes), edges: reversed(&back_edges) };
    proof {
        let w = walks[seq![to@]];
        assert(seq![to@][0] == to@);
        assert(walk(edges, direction, from@, to@, w));
        assert forall|j: int| 0 <= j < w.len() implies 0 <= #[trigger] w[j] < edges.len() && r.edges@[j]@ == edges[w[j]].id@ && r.nodes@[j]@ == tail_of(
            edges[w[j]],
            direction,
        ) && r.nodes@[j + 1]@ == head_of(edges[w[j]], direction) by {
            let b = back_edges@.len() - 1 - j;
            assert(ends_at(edges, direction, w, back_nodes@, back_edges@, b));
            assert(r.edges@[j]@ == back_edges@[b]@);
            assert(r.nodes@[j]@ == back_nodes@[b + 1]@);
            assert(r.nodes@[j + 1]@ == back_nodes@[b]@);
        }
        assert forall|j: int| 0 <= j < r.edges@.len() implies joins(edges, direction, (#[trigger] r.edges@[j])@, r.nodes@[j]@, r.nodes@[j + 1]@) by {
            assert(edges[w[j]].id@ == r.edges@[j]@);
        }
    }
    r
}

/// A shortest path of at most the given number of hops, and, where there is none, whether the
/// search was cut short. Of several shortest paths it is the one that takes the earliest edges.
pub fn shortest_path(from: &str, to: &str, max_hops: u32, edges: &Vec<SemanticEdge>) -> (r: (Option<SemanticPath>, bool))
    ensures
        r.0 is Some <==> within(edges@, TraversalDirection::Outgoing, from@, to@, max_hops),
        r.0 is Some ==> r.0->0.leads(edges@, TraversalDirection::Outgoing, from@, to@),
        r.0 is Some ==> distance(edges@, TraversalDirection::Outgoing, from@, to@, r.0->0.edges@.len() as nat),
        r.0 is Some ==> r.0->0.edges@.len() <= max_hops && !r.1,
        r.0 is None ==> r.1 == leads_beyond(edges@, TraversalDirection::Outgoing, from@, max_hops),
        r.0 is Some ==> exists|w: Seq<int>| #[trigger]
            first_walk(edges@, TraversalDirection::Outgoing, from@, to@, w) && r.0->0.follows(edges@, TraversalDirection::Outgoing, w),
{
    let ghost direction = TraversalDirection::Outgoing;
    if same(from, to) {
        let mut nodes: Vec<String> = Vec::new();
        nodes.push(from.to_owned());
        proof {
            assert(reaches(edges@, direction, from@, to@, 0));
            assert(first_walk(edges@, direction, from@, to@, Seq::empty()));
        }
        return (Some(SemanticPath { nodes, edges: Vec::new() }), false);
    }
    let mut search: Search = Search::new(from, Ghost(edges@), Ghost(direction), Ghost(max_hops));
    let (arrived, truncated): (bool, bool) = search.run(
        edges,
        TraversalDirection::Outgoing,
        max_hops,
        &Some(to.to_owned()),
        Ghost(from@),
    );
    proof {
        reveal(Search::in_order);
    }
    if arrived {
        let path: SemanticPath = trace_back(from, to, &search.parents, Ghost(edges@), Ghost(direction), Ghost(search.found@), Ghost(search.walks@));
        proof {
            assert(reaches(edges@, direction, from@, to@, path.edges@.len() as nat));
            let w = search.walks@[seq![to@]];
            assert(seq![to@][0] == to@);
            assert(first_walk(edges@, direction, from@, to@, w));
        }
        (Some(path), false)
    } else {
        (None, truncated)
    }
}

} // verus!
