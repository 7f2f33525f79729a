//! Enumerates the paths of a graph within limits on length, number and work.

use crate::domain::optional_text;
use crate::ids::{target_of, target_repository, TextSet};
use crate::sorted::{texts, SortedMap};
use crate::text::{same, starts_with};
use vstd::prelude::*;

verus! {

/// Why a path ends where it does.
#[derive(Clone, Copy, PartialEq, Eq, Structural, Debug)]
pub enum PathTermination {
    Destination,
    RepositoryBoundary,
    Leaf,
    Cycle,
    MaxHops,
}

/// Which limits cut an enumeration short.
#[derive(Clone, Copy, PartialEq, Eq, Structural, Debug)]
pub struct TruncationReasons {
    pub acquisition_limit: bool,
    pub max_hops: bool,
    pub max_paths: bool,
    pub work_limit: bool,
}

impl TruncationReasons {
    /// No limit was met.
    pub open spec fn none() -> TruncationReasons {
        TruncationReasons { acquisition_limit: false, max_hops: false, max_paths: false, work_limit: false }
    }

    pub fn new() -> (r: TruncationReasons)
        ensures
            r == TruncationReasons::none(),
    {
        TruncationReasons { acquisition_limit: false, max_hops: false, max_paths: false, work_limit: false }
    }

    /// Whether any limit was met.
    pub open spec fn met(self) -> bool {
        self.acquisition_limit || self.max_hops || self.max_paths || self.work_limit
    }

    /// Whether any limit was met.
    pub fn any(&self) -> (r: bool)
        ensures
            r == self.met(),
    {
        self.acquisition_limit || self.max_hops || self.max_paths || self.work_limit
    }

    /// Whether the enumeration stops.
    pub open spec fn stops(self) -> bool {
        self.max_paths || self.work_limit
    }
}

/// A path that was found.
#[derive(Debug)]
pub struct TraversalPath {
    pub nodes: Vec<String>,
    pub edges: Vec<String>,
    pub termination: PathTermination,
}

/// The content of a [`TraversalPath`].
pub ghost struct PathModel {
    pub nodes: Seq<Seq<char>>,
    pub edges: Seq<Seq<char>>,
    pub termination: PathTermination,
}

impl View for TraversalPath {
    type V = PathModel;

    open spec fn view(&self) -> PathModel {
        PathModel { nodes: texts(self.nodes@), edges: texts(self.edges@), termination: self.termination }
    }
}

/// The contents of a list of paths.
pub open spec fn path_models(paths: Seq<TraversalPath>) -> Seq<PathModel> {
    paths.map_values(|p: TraversalPath| p@)
}

/// What paths are asked for.
#[derive(Debug)]
pub struct PathQuery {
    pub destination: Option<String>,
    pub max_hops: u32,
    pub max_paths: u32,
    pub max_steps: u32,
}

/// A neighbour: the node and the edge to it.
pub type Neighbour = (Seq<char>, Seq<char>);

/// What paths are looked for in.
pub ghost struct PathScope {
    pub destination: Option<Seq<char>>,
    pub max_hops: nat,
    pub max_paths: nat,
    pub max_steps: nat,
    pub targets: Seq<String>,
    pub incomplete: Set<Seq<Seq<char>>>,
    pub boundaries: Set<Seq<Seq<char>>>,
    pub reachable: Map<Seq<Seq<char>>, Set<Seq<Seq<char>>>>,
    pub adjacent: Map<Seq<Seq<char>>, Seq<Neighbour>>,
}

/// What has been found so far.
pub ghost struct PathState {
    pub paths: Seq<PathModel>,
    pub reasons: TruncationReasons,
    pub steps: nat,
}

impl PathScope {
    /// The repositories that a path has to visit.
    pub open spec fn wanted(self) -> Set<Seq<Seq<char>>> {
        self.targets.map_values(|t: String| seq![t@]).to_set()
    }

    /// Which wanted repositories the first `n` nodes visit, and the one whose visit made the
    /// set complete.
    pub open spec fn visited(self, nodes: Seq<Seq<char>>, n: int) -> (Set<Seq<Seq<char>>>, Option<Seq<char>>)
        decreases n,
    {
        if n <= 0 {
            (Set::empty(), None)
        } else {
            let (before, completion) = self.visited(nodes, n - 1);
            match target_of(nodes[n - 1], self.targets) {
                Some(repository) => {
                    let now = before.insert(seq![repository]);
                    (
                        now,
                        if completion is None && now == self.wanted() {
                            Some(repository)
                        } else {
                            completion
                        },
                    )
                },
                None => (before, completion),
            }
        }
    }

    /// The repository whose visit made a path visit all that it has to.
    pub open spec fn completion(self, nodes: Seq<Seq<char>>) -> Option<Seq<char>> {
        self.visited(nodes, nodes.len() as int).1
    }

    /// Whether a path may go on to a node: until it has visited all wanted repositories it must
    /// still be able to, and after that it stays in the one where it completed them.
    pub open spec fn follows(self, nodes: Seq<Seq<char>>, next: Seq<char>) -> bool {
        if self.targets.len() == 0 {
            true
        } else {
            let (seen, completion) = self.visited(nodes, nodes.len() as int);
            match completion {
                Some(repository) => !"repo://"@.is_prefix_of(next) || target_of(next, self.targets) == Some(repository),
                None => {
                    let then_seen = match target_of(next, self.targets) {
                        Some(owner) => seen.insert(seq![owner]),
                        None => seen,
                    };
                    let missing = self.wanted().difference(then_seen);
                    missing == Set::<Seq<Seq<char>>>::empty() || (self.reachable.contains_key(seq![next])
                        && missing.subset_of(self.reachable[seq![next]]))
                },
            }
        }
    }

    /// The neighbours among the first `n` of a list that a path may go on to.
    pub open spec fn followed(self, nodes: Seq<Seq<char>>, list: Seq<Neighbour>, n: int) -> Seq<Neighbour>
        decreases n,
    {
        if n <= 0 {
            Seq::empty()
        } else if self.follows(nodes, list[n - 1].0) {
            self.followed(nodes, list, n - 1).push(list[n - 1])
        } else {
            self.followed(nodes, list, n - 1)
        }
    }

    /// The neighbours that a path may go on to.
    pub open spec fn neighbours(self, nodes: Seq<Seq<char>>) -> Seq<Neighbour> {
        let node = seq![nodes.last()];
        if self.adjacent.contains_key(node) {
            self.followed(nodes, self.adjacent[node], self.adjacent[node].len() as int)
        } else {
            Seq::empty()
        }
    }

    /// Adds a path, unless there are as many as asked for.
    pub open spec fn emitted(self, state: PathState, path: PathModel) -> PathState {
        if state.paths.len() == self.max_paths {
            PathState { reasons: (TruncationReasons { max_paths: true, ..state.reasons }), ..state }
        } else {
            PathState { paths: state.paths.push(path), ..state }
        }
    }

    /// Whether a path ends for good at a boundary node outside of repositories.
    pub open spec fn leaves(self, nodes: Seq<Seq<char>>) -> bool {
        self.completion(nodes) is Some && !"repo://"@.is_prefix_of(nodes.last())
    }

    /// Whether a path is reported at the boundary of the repository where it completed.
    pub open spec fn at_boundary(self, nodes: Seq<Seq<char>>) -> bool {
        self.completion(nodes) is Some && self.boundaries.contains(seq![nodes.last()]) && !self.incomplete.contains(
            seq![nodes.last()],
        )
    }

    /// Whether a path that goes no further is reported.
    pub open spec fn reportable(self, nodes: Seq<Seq<char>>) -> bool {
        self.destination is None && (self.targets.len() == 0 || self.completion(nodes) is Some)
    }
}

/// Whether some neighbour is not yet on the path.
pub open spec fn extends(nodes: Seq<Seq<char>>, list: Seq<Neighbour>) -> bool {
    exists|i: int| 0 <= i < list.len() && !nodes.contains((#[trigger] list[i]).0)
}

/// What is found on the paths that go on from the end of a path.
pub open spec fn visit(scope: PathScope, state: PathState, nodes: Seq<Seq<char>>, edges: Seq<Seq<char>>) -> PathState
    decreases scope.max_steps - state.steps, 0int,
{
    if state.reasons.stops() {
        state
    } else if state.steps >= scope.max_steps {
        PathState { reasons: (TruncationReasons { work_limit: true, ..state.reasons }), ..state }
    } else {
        let counted = PathState { steps: state.steps + 1, ..state };
        if scope.destination == Some(nodes.last()) {
            scope.emitted(counted, PathModel { nodes, edges, termination: PathTermination::Destination })
        } else if scope.leaves(nodes) {
            if scope.incomplete.contains(seq![nodes.last()]) {
                counted
            } else {
                scope.emitted(counted, PathModel { nodes, edges, termination: PathTermination::RepositoryBoundary })
            }
        } else {
            let reported = if scope.at_boundary(nodes) {
                scope.emitted(counted, PathModel { nodes, edges, termination: PathTermination::RepositoryBoundary })
            } else {
                counted
            };
            let list = scope.neighbours(nodes);
            if reported.reasons.max_paths {
                reported
            } else if list.len() > scope.max_steps - reported.steps {
                PathState { reasons: (TruncationReasons { work_limit: true, ..reported.reasons }), ..reported }
            } else {
                let looked = PathState { steps: reported.steps + list.len(), ..reported };
                if !extends(nodes, list) {
                    if scope.reportable(nodes) && !scope.incomplete.contains(seq![nodes.last()]) && !scope.at_boundary(nodes) {
                        scope.emitted(
                            looked,
                            PathModel {
                                nodes,
                                edges,
                                termination: if list.len() == 0 {
                                    PathTermination::Leaf
                                } else {
                                    PathTermination::Cycle
                                },
                            },
                        )
                    } else {
                        looked
                    }
                } else if edges.len() == scope.max_hops {
                    let limited = PathState { reasons: (TruncationReasons { max_hops: true, ..looked.reasons }), ..looked };
                    if scope.reportable(nodes) {
                        scope.emitted(limited, PathModel { nodes, edges, termination: PathTermination::MaxHops })
                    } else {
                        limited
                    }
                } else {
                    follow(scope, looked, nodes, edges, list, 0)
                }
            }
        }
    }
}

/// What is found on the paths that go on to the neighbours from the `k`-th on.
pub open spec fn follow(
    scope: PathScope,
    state: PathState,
    nodes: Seq<Seq<char>>,
    edges: Seq<Seq<char>>,
    list: Seq<Neighbour>,
    k: int,
) -> PathState
    decreases scope.max_steps - state.steps, 1 + list.len() - k,
{
    if k >= list.len() {
        state
    } else if state.steps >= scope.max_steps {
        PathState { reasons: (TruncationReasons { work_limit: true, ..state.reasons }), ..state }
    } else {
        let counted = PathState { steps: state.steps + 1, ..state };
        if nodes.contains(list[k].0) {
            follow(scope, counted, nodes, edges, list, k + 1)
        } else {
            let after = visit(scope, counted, nodes.push(list[k].0), edges.push(list[k].1));
            if after.reasons.stops() || !(state.steps < after.steps <= scope.max_steps) {
                after
            } else {
                follow(scope, after, nodes, edges, list, k + 1)
            }
        }
    }
}

/// Whether a path leads along the graph without visiting a node twice.
pub open spec fn simple_path(scope: PathScope, nodes: Seq<Seq<char>>, edges: Seq<Seq<char>>) -> bool {
    &&& nodes.len() == edges.len() + 1
    &&& nodes.no_duplicates()
    &&& edges.len() <= scope.max_hops
    &&& forall|j: int| 0 <= j < edges.len() ==> #[trigger] is_step(scope, nodes, edges, j)
}

/// Whether the `j`-th edge of a path joins its nodes in the graph.
pub open spec fn is_step(scope: PathScope, nodes: Seq<Seq<char>>, edges: Seq<Seq<char>>, j: int) -> bool {
    scope.adjacent.contains_key(seq![nodes[j]]) && scope.adjacent[seq![nodes[j]]].contains((nodes[j + 1], edges[j]))
}

/// Whether a state keeps within the limits and holds only paths of the graph from a start.
pub open spec fn sound(scope: PathScope, state: PathState, start: Seq<char>) -> bool {
    &&& state.steps <= scope.max_steps
    &&& state.paths.len() <= scope.max_paths
    &&& forall|i: int|
        0 <= i < state.paths.len() ==> simple_path(scope, (#[trigger] state.paths[i]).nodes, state.paths[i].edges)
            && state.paths[i].nodes[0] == start
}

proof fn followed_are_adjacent(scope: PathScope, nodes: Seq<Seq<char>>, list: Seq<Neighbour>, n: int)
    requires
        0 <= n <= list.len(),
    ensures
        forall|i: int| 0 <= i < scope.followed(nodes, list, n).len() ==> list.contains(#[trigger] scope.followed(nodes, list, n)[i]),
        scope.followed(nodes, list, n).len() <= n,
    decreases n,
{
    if n > 0 {
        followed_are_adjacent(scope, nodes, list, n - 1);
        assert(list.contains(list[n - 1]));
    }
}

/// Every path that is enumerated starts at the start, follows the edges of the graph, visits no
/// node twice and keeps to the number of hops; the numbers of paths and of steps keep to theirs.
pub proof fn visit_is_sound(scope: PathScope, state: PathState, nodes: Seq<Seq<char>>, edges: Seq<Seq<char>>, start: Seq<char>)
    requires
        sound(scope, state, start),
        simple_path(scope, nodes, edges),
        nodes[0] == start,
    ensures
        sound(scope, visit(scope, state, nodes, edges), start),
        state.paths.is_prefix_of(visit(scope, state, nodes, edges).paths),
        state.steps <= visit(scope, state, nodes, edges).steps,
        !state.reasons.stops() && state.steps < scope.max_steps ==> state.steps < visit(scope, state, nodes, edges).steps,
    decreases scope.max_steps - state.steps, 0int,
{
    if !state.reasons.stops() && state.steps < scope.max_steps {
        let counted = PathState { steps: state.steps + 1, ..state };
        if scope.destination != Some(nodes.last()) && !scope.leaves(nodes) {
            let path = PathModel { nodes, edges, termination: PathTermination::RepositoryBoundary };
            let reported = if scope.at_boundary(nodes) {
                scope.emitted(counted, path)
            } else {
                counted
            };
            assert(sound(scope, reported, start));
            assert(state.paths.is_prefix_of(reported.paths));
            let list = scope.neighbours(nodes);
            if !reported.reasons.max_paths && list.len() <= scope.max_steps - reported.steps {
                let looked = PathState { steps: reported.steps + list.len(), ..reported };
                assert(sound(scope, looked, start));
                if extends(nodes, list) && edges.len() != scope.max_hops {
                    if scope.adjacent.contains_key(seq![nodes.last()]) {
                        let near = scope.adjacent[seq![nodes.last()]];
                        followed_are_adjacent(scope, nodes, near, near.len() as int);
                    }
                    follow_is_sound(scope, looked, nodes, edges, list, 0, start);
                    let end = follow(scope, looked, nodes, edges, list, 0);
                    assert(state.paths.is_prefix_of(end.paths));
                }
            }
        }
    }
}

proof fn follow_is_sound(
    scope: PathScope,
    state: PathState,
    nodes: Seq<Seq<char>>,
    edges: Seq<Seq<char>>,
    list: Seq<Neighbour>,
    k: int,
    start: Seq<char>,
)
    requires
        sound(scope, state, start),
        simple_path(scope, nodes, edges),
        edges.len() < scope.max_hops,
        nodes[0] == start,
        0 <= k,
        forall|i: int| 0 <= i < list.len() ==> scope.adjacent.contains_key(seq![nodes.last()]) && scope.adjacent[seq![nodes.last()]].contains(
            #[trigger] list[i],
        ),
    ensures
        sound(scope, follow(scope, state, nodes, edges, list, k), start),
        state.paths.is_prefix_of(follow(scope, state, nodes, edges, list, k).paths),
        state.steps <= follow(scope, state, nodes, edges, list, k).steps,
    decreases scope.max_steps - state.steps, 1 + list.len() - k,
{
    if k < list.len() && state.steps < scope.max_steps {
        let counted = PathState { steps: state.steps + 1, ..state };
        assert(sound(scope, counted, start));
        if nodes.contains(list[k].0) {
            follow_is_sound(scope, counted, nodes, edges, list, k + 1, start);
        } else {
            let longer = nodes.push(list[k].0);
            let steps = edges.push(list[k].1);
            assert(longer.no_duplicates());
            assert forall|j: int| 0 <= j < steps.len() implies #[trigger] is_step(scope, longer, steps, j) by {
                if j < edges.len() {
                    assert(is_step(scope, nodes, edges, j));
                    assert(longer[j] == nodes[j] && longer[j + 1] == nodes[j + 1] && steps[j] == edges[j]);
                } else {
                    assert(longer[j] == nodes.last());
                    assert(list[k] == (longer[j + 1], steps[j]));
                }
            }
            assert(simple_path(scope, longer, steps));
            visit_is_sound(scope, counted, longer, steps, start);
            let after = visit(scope, counted, longer, steps);
            if !(after.reasons.stops() || !(state.steps < after.steps <= scope.max_steps)) {
                follow_is_sound(scope, after, nodes, edges, list, k + 1, start);
                assert(state.paths.is_prefix_of(follow(scope, after, nodes, edges, list, k + 1).paths));
            }
        }
    }
}

/// Whether paths end at the last node of a path, whatever follows it.
pub open spec fn ends_at(scope: PathScope, nodes: Seq<Seq<char>>) -> bool {
    scope.destination == Some(nodes.last()) || scope.leaves(nodes)
}

/// Whether one path goes on to another, step by step, along what paths may follow, and without
/// visiting a node twice.
pub open spec fn goes_on_to(
    scope: PathScope,
    nodes: Seq<Seq<char>>,
    edges: Seq<Seq<char>>,
    to: Seq<Seq<char>>,
    along: Seq<Seq<char>>,
) -> bool
    decreases to.len(),
{
    if to.len() <= nodes.len() {
        to == nodes && along == edges
    } else {
        let before = to.drop_last();
        &&& along.len() > 0
        &&& goes_on_to(scope, nodes, edges, before, along.drop_last())
        &&& !ends_at(scope, before)
        &&& along.len() <= scope.max_hops
        &&& scope.neighbours(before).contains((to.last(), along.last()))
        &&& !before.contains(to.last())
    }
}

/// How a path is reported that goes no further, or leaves the repository where it completed;
/// nothing if it is not reported.
pub open spec fn reported(scope: PathScope, nodes: Seq<Seq<char>>) -> Option<PathTermination> {
    let incomplete = scope.incomplete.contains(seq![nodes.last()]);
    if scope.destination == Some(nodes.last()) {
        Some(PathTermination::Destination)
    } else if scope.leaves(nodes) {
        if incomplete {
            None
        } else {
            Some(PathTermination::RepositoryBoundary)
        }
    } else if scope.at_boundary(nodes) {
        Some(PathTermination::RepositoryBoundary)
    } else if !extends(nodes, scope.neighbours(nodes)) && scope.reportable(nodes) && !incomplete {
        Some(
            if scope.neighbours(nodes).len() == 0 {
                PathTermination::Leaf
            } else {
                PathTermination::Cycle
            },
        )
    } else {
        None
    }
}

/// Whether a path is among those from another one that are to be reported.
pub open spec fn wanted_path(scope: PathScope, nodes: Seq<Seq<char>>, edges: Seq<Seq<char>>, path: PathModel) -> bool {
    goes_on_to(scope, nodes, edges, path.nodes, path.edges) && reported(scope, path.nodes) == Some(path.termination)
}

/// Whether an enumeration met a limit.
pub open spec fn limited(reasons: TruncationReasons) -> bool {
    reasons.stops() || reasons.max_hops
}

proof fn first_step(
    scope: PathScope,
    nodes: Seq<Seq<char>>,
    edges: Seq<Seq<char>>,
    to: Seq<Seq<char>>,
    along: Seq<Seq<char>>,
) -> (step: Neighbour)
    requires
        goes_on_to(scope, nodes, edges, to, along),
        to.len() > nodes.len(),
    ensures
        !ends_at(scope, nodes),
        scope.neighbours(nodes).contains(step),
        !nodes.contains(step.0),
        edges.len() < scope.max_hops,
        goes_on_to(scope, nodes.push(step.0), edges.push(step.1), to, along),
    decreases to.len(),
{
    reveal_with_fuel(goes_on_to, 2);
    let before = to.drop_last();
    if before.len() == nodes.len() {
        assert(before == nodes && along.drop_last() == edges);
        let step = (to.last(), along.last());
        assert(to =~= nodes.push(step.0));
        assert(along =~= edges.push(step.1));
        step
    } else {
        first_step(scope, nodes, edges, before, along.drop_last())
    }
}

proof fn one_step_more(
    scope: PathScope,
    nodes: Seq<Seq<char>>,
    edges: Seq<Seq<char>>,
    step: Neighbour,
    to: Seq<Seq<char>>,
    along: Seq<Seq<char>>,
)
    requires
        !ends_at(scope, nodes),
        scope.neighbours(nodes).contains(step),
        !nodes.contains(step.0),
        edges.len() < scope.max_hops,
        goes_on_to(scope, nodes.push(step.0), edges.push(step.1), to, along),
    ensures
        goes_on_to(scope, nodes, edges, to, along),
    decreases to.len(),
{
    reveal_with_fuel(goes_on_to, 2);
    if to.len() <= nodes.len() + 1 {
        assert(to == nodes.push(step.0) && along == edges.push(step.1));
        assert(to.last() == step.0 && along.last() == step.1);
        assert((to.last(), along.last()) == step);
        assert(to.drop_last() =~= nodes);
        assert(along.drop_last() =~= edges);
    } else {
        one_step_more(scope, nodes, edges, step, to.drop_last(), along.drop_last());
    }
}

/// What an enumeration that met no limit adds is exactly what is to be reported.
spec fn adds_exactly(scope: PathScope, state: PathState, end: PathState, nodes: Seq<Seq<char>>, edges: Seq<Seq<char>>) -> bool {
    &&& state.paths.is_prefix_of(end.paths)
    &&& forall|path: PathModel| #[trigger] wanted_path(scope, nodes, edges, path) ==> end.paths.contains(path)
    &&& forall|i: int|
        state.paths.len() <= i < end.paths.len() ==> wanted_path(scope, nodes, edges, #[trigger] end.paths[i])
}

proof fn limits_remain(scope: PathScope, state: PathState, nodes: Seq<Seq<char>>, edges: Seq<Seq<char>>)
    ensures
        limited(state.reasons) ==> limited(visit(scope, state, nodes, edges).reasons),
        state.reasons.max_hops ==> visit(scope, state, nodes, edges).reasons.max_hops,
    decreases scope.max_steps - state.steps, 0int,
{
    if !state.reasons.stops() && state.steps < scope.max_steps {
        let counted = PathState { steps: state.steps + 1, ..state };
        if scope.destination != Some(nodes.last()) && !scope.leaves(nodes) {
            let reported = if scope.at_boundary(nodes) {
                scope.emitted(counted, PathModel { nodes, edges, termination: PathTermination::RepositoryBoundary })
            } else {
                counted
            };
            let list = scope.neighbours(nodes);
            if !reported.reasons.max_paths && list.len() <= scope.max_steps - reported.steps {
                let looked = PathState { steps: reported.steps + list.len(), ..reported };
                if extends(nodes, list) && edges.len() != scope.max_hops {
                    limits_remain_behind(scope, looked, nodes, edges, list, 0);
                }
            }
        }
    }
}

proof fn limits_remain_behind(
    scope: PathScope,
    state: PathState,
    nodes: Seq<Seq<char>>,
    edges: Seq<Seq<char>>,
    list: Seq<Neighbour>,
    k: int,
)
    requires
        0 <= k,
    ensures
        limited(state.reasons) ==> limited(follow(scope, state, nodes, edges, list, k).reasons),
        state.reasons.max_hops ==> follow(scope, state, nodes, edges, list, k).reasons.max_hops,
    decreases scope.max_steps - state.steps, 1 + list.len() - k,
{
    if k < list.len() && state.steps < scope.max_steps {
        let counted = PathState { steps: state.steps + 1, ..state };
        if nodes.contains(list[k].0) {
            limits_remain_behind(scope, counted, nodes, edges, list, k + 1);
        } else {
            limits_remain(scope, counted, nodes.push(list[k].0), edges.push(list[k].1));
            let after = visit(scope, counted, nodes.push(list[k].0), edges.push(list[k].1));
            if !(after.reasons.stops() || !(state.steps < after.steps <= scope.max_steps)) {
                limits_remain_behind(scope, after, nodes, edges, list, k + 1);
            }
        }
    }
}

/// A path that does not go on is the only one from itself.
proof fn goes_no_further(scope: PathScope, nodes: Seq<Seq<char>>, edges: Seq<Seq<char>>, path: PathModel)
    requires
        wanted_path(scope, nodes, edges, path),
        ends_at(scope, nodes) || !extends(nodes, scope.neighbours(nodes)),
    ensures
        path.nodes == nodes,
        path.edges == edges,
{
    if path.nodes.len() > nodes.len() {
        let step = first_step(scope, nodes, edges, path.nodes, path.edges);
        let list = scope.neighbours(nodes);
        let i = choose|i: int| 0 <= i < list.len() && list[i] == step;
        assert(!nodes.contains(list[i].0));
    }
}

proof fn emits_exactly(scope: PathScope, state: PathState, counted: PathState, nodes: Seq<Seq<char>>, edges: Seq<Seq<char>>, end: PathState)
    requires
        ends_at(scope, nodes) || !extends(nodes, scope.neighbours(nodes)),
        counted.paths == state.paths,
        match reported(scope, nodes) {
            Some(termination) => end.paths == state.paths.push(PathModel { nodes, edges, termination }),
            None => end.paths == state.paths,
        },
    ensures
        adds_exactly(scope, state, end, nodes, edges),
{
    assert forall|path: PathModel| #[trigger] wanted_path(scope, nodes, edges, path) implies end.paths.contains(path) by {
        goes_no_further(scope, nodes, edges, path);
        assert(end.paths[state.paths.len() as int] == path);
    }
    assert forall|i: int| state.paths.len() <= i < end.paths.len() implies wanted_path(scope, nodes, edges, #[trigger] end.paths[i]) by {
        assert(end.paths[i].nodes == nodes);
    }
}

proof fn visit_adds_exactly(scope: PathScope, state: PathState, nodes: Seq<Seq<char>>, edges: Seq<Seq<char>>, start: Seq<char>)
    requires
        sound(scope, state, start),
        simple_path(scope, nodes, edges),
        nodes[0] == start,
        !limited(visit(scope, state, nodes, edges).reasons),
    ensures
        adds_exactly(scope, state, visit(scope, state, nodes, edges), nodes, edges),
    decreases scope.max_steps - state.steps, 0int,
{
    let end = visit(scope, state, nodes, edges);
    limits_remain(scope, state, nodes, edges);
    visit_is_sound(scope, state, nodes, edges, start);
    let counted = PathState { steps: state.steps + 1, ..state };
    let list = scope.neighbours(nodes);
    if ends_at(scope, nodes) {
        emits_exactly(scope, state, counted, nodes, edges, end);
    } else {
        let path = PathModel { nodes, edges, termination: PathTermination::RepositoryBoundary };
        let told = if scope.at_boundary(nodes) {
            scope.emitted(counted, path)
        } else {
            counted
        };
        assert(!told.reasons.max_paths);
        let looked = PathState { steps: told.steps + list.len(), ..told };
        if !extends(nodes, list) {
            emits_exactly(scope, state, counted, nodes, edges, end);
        } else {
            assert(sound(scope, looked, start));
            if scope.adjacent.contains_key(seq![nodes.last()]) {
                let near = scope.adjacent[seq![nodes.last()]];
                followed_are_adjacent(scope, nodes, near, near.len() as int);
            }
            assert(end == follow(scope, looked, nodes, edges, list, 0));
            follow_adds_exactly(scope, looked, nodes, edges, list, 0, start);
            follows_the_rest(scope, state, looked, end, nodes, edges, list);
        }
    }
}

/// What the neighbours of a path add, and what the path itself adds, is what is to be reported.
proof fn follows_the_rest(
    scope: PathScope,
    state: PathState,
    looked: PathState,
    end: PathState,
    nodes: Seq<Seq<char>>,
    edges: Seq<Seq<char>>,
    list: Seq<Neighbour>,
)
    requires
        list == scope.neighbours(nodes),
        extends(nodes, list),
        !ends_at(scope, nodes),
        edges.len() < scope.max_hops,
        looked.paths == (if scope.at_boundary(nodes) {
            state.paths.push(PathModel { nodes, edges, termination: PathTermination::RepositoryBoundary })
        } else {
            state.paths
        }),
        adds_behind(scope, looked, end, nodes, edges, list, 0),
    ensures
        adds_exactly(scope, state, end, nodes, edges),
{
    let n = state.paths.len() as int;
    assert(state.paths.is_prefix_of(looked.paths));
    assert(state.paths.is_prefix_of(end.paths)) by {
        assert(end.paths.take(n) =~= state.paths) by {
            assert(looked.paths =~= end.paths.take(looked.paths.len() as int));
            assert forall|i: int| 0 <= i < n implies end.paths[i] == state.paths[i] by {
                assert(looked.paths[i] == end.paths[i]);
            }
        }
    }
    assert forall|path: PathModel| #[trigger] wanted_path(scope, nodes, edges, path) implies end.paths.contains(path) by {
        if path.nodes.len() > nodes.len() {
            let step = first_step(scope, nodes, edges, path.nodes, path.edges);
            let j = choose|j: int| 0 <= j < list.len() && list[j] == step;
            assert(wanted_path(scope, nodes.push(list[j].0), edges.push(list[j].1), path));
        } else {
            assert(path.nodes == nodes && path.edges == edges);
            assert(scope.at_boundary(nodes));
            assert(looked.paths[n] == path);
            assert(looked.paths =~= end.paths.take(looked.paths.len() as int));
            assert(end.paths[n] == path);
        }
    }
    assert forall|i: int| n <= i < end.paths.len() implies wanted_path(scope, nodes, edges, #[trigger] end.paths[i]) by {
        if i >= looked.paths.len() {
            let j = choose|j: int|
                0 <= j < list.len() && !nodes.contains((#[trigger] list[j]).0) && wanted_path(
                    scope,
                    nodes.push(list[j].0),
                    edges.push(list[j].1),
                    end.paths[i],
                );
            one_step_more(scope, nodes, edges, list[j], end.paths[i].nodes, end.paths[i].edges);
        } else {
            assert(looked.paths =~= end.paths.take(looked.paths.len() as int));
            assert(end.paths[i] == looked.paths[i]);
        }
    }
}

/// What is added on the paths that go on to the neighbours from the `k`-th on is exactly what is
/// to be reported of them.
spec fn adds_behind(
    scope: PathScope,
    state: PathState,
    end: PathState,
    nodes: Seq<Seq<char>>,
    edges: Seq<Seq<char>>,
    list: Seq<Neighbour>,
    k: int,
) -> bool {
    &&& state.paths.is_prefix_of(end.paths)
    &&& forall|j: int, path: PathModel|
        k <= j < list.len() && !nodes.contains((#[trigger] list[j]).0) && #[trigger] wanted_path(
            scope,
            nodes.push(list[j].0),
            edges.push(list[j].1),
            path,
        ) ==> end.paths.contains(path)
    &&& forall|i: int|
        state.paths.len() <= i < end.paths.len() ==> exists|j: int|
            k <= j < list.len() && !nodes.contains((#[trigger] list[j]).0) && wanted_path(
                scope,
                nodes.push(list[j].0),
                edges.push(list[j].1),
                #[trigger] end.paths[i],
            )
}

proof fn follow_adds_exactly(
    scope: PathScope,
    state: PathState,
    nodes: Seq<Seq<char>>,
    edges: Seq<Seq<char>>,
    list: Seq<Neighbour>,
    k: int,
    start: Seq<char>,
)
    requires
        sound(scope, state, start),
        simple_path(scope, nodes, edges),
        edges.len() < scope.max_hops,
        nodes[0] == start,
        0 <= k <= list.len(),
        scope.adjacent.contains_key(seq![nodes.last()]) || list.len() == 0,
        forall|i: int| 0 <= i < list.len() ==> scope.adjacent[seq![nodes.last()]].contains(#[trigger] list[i]),
        !limited(follow(scope, state, nodes, edges, list, k).reasons),
    ensures
        adds_behind(scope, state, follow(scope, state, nodes, edges, list, k), nodes, edges, list, k),
    decreases scope.max_steps - state.steps, 1 + list.len() - k,
{
    let end = follow(scope, state, nodes, edges, list, k);
    if k < list.len() {
        let counted = PathState { steps: state.steps + 1, ..state };
        if nodes.contains(list[k].0) {
            follow_adds_exactly(scope, counted, nodes, edges, list, k + 1, start);
        } else {
            let further = nodes.push(list[k].0);
            let along = edges.push(list[k].1);
            let after = visit(scope, counted, further, along);
            longer_is_simple(scope, nodes, edges, list[k]);
            visit_is_sound(scope, counted, further, along, start);
            assert(after.steps <= scope.max_steps);
            if after.reasons.stops() {
                assert(end == after);
            }
            limits_remain(scope, counted, further, along);
            if counted.steps >= scope.max_steps {
                assert(counted.reasons.stops() || after.reasons.stops());
            }
            assert(state.steps < after.steps);
            assert(end == follow(scope, after, nodes, edges, list, k + 1));
            limits_remain_behind(scope, after, nodes, edges, list, k + 1);
            visit_adds_exactly(scope, counted, further, along, start);
            follow_adds_exactly(scope, after, nodes, edges, list, k + 1, start);
            puts_together(scope, state, after, end, nodes, edges, list, k);
        }
    }
}

proof fn longer_is_simple(scope: PathScope, nodes: Seq<Seq<char>>, edges: Seq<Seq<char>>, step: Neighbour)
    requires
        simple_path(scope, nodes, edges),
        edges.len() < scope.max_hops,
        !nodes.contains(step.0),
        scope.adjacent.contains_key(seq![nodes.last()]),
        scope.adjacent[seq![nodes.last()]].contains(step),
    ensures
        simple_path(scope, nodes.push(step.0), edges.push(step.1)),
        nodes.push(step.0)[0] == nodes[0],
{
    let further = nodes.push(step.0);
    let along = edges.push(step.1);
    assert forall|j: int| 0 <= j < along.len() implies #[trigger] is_step(scope, further, along, j) by {
        if j < edges.len() {
            assert(is_step(scope, nodes, edges, j));
            assert(further[j] == nodes[j] && further[j + 1] == nodes[j + 1] && along[j] == edges[j]);
        } else {
            assert(further[j] == nodes.last() && further[j + 1] == step.0 && along[j] == step.1);
            assert((further[j + 1], along[j]) == step);
        }
    }
    assert(further.no_duplicates()) by {
        assert forall|a: int, b: int| 0 <= a < further.len() && 0 <= b < further.len() && a != b implies further[a] != further[b] by {
            if a == nodes.len() {
                assert(nodes.contains(nodes[b]));
            } else if b == nodes.len() {
                assert(nodes.contains(nodes[a]));
            }
        }
    }
}

proof fn puts_together(
    scope: PathScope,
    state: PathState,
    after: PathState,
    end: PathState,
    nodes: Seq<Seq<char>>,
    edges: Seq<Seq<char>>,
    list: Seq<Neighbour>,
    k: int,
)
    requires
        0 <= k < list.len(),
        !nodes.contains(list[k].0),
        adds_exactly(scope, state, after, nodes.push(list[k].0), edges.push(list[k].1)),
        adds_behind(scope, after, end, nodes, edges, list, k + 1),
    ensures
        adds_behind(scope, state, end, nodes, edges, list, k),
{
    let n = state.paths.len() as int;
    let m = after.paths.len() as int;
    assert(after.paths =~= end.paths.take(m));
    assert(state.paths =~= after.paths.take(n));
    assert forall|i: int| 0 <= i < m implies end.paths[i] == #[trigger] after.paths[i] by {
        assert(end.paths.take(m)[i] == end.paths[i]);
    }
    assert(state.paths =~= end.paths.take(n)) by {
        assert forall|i: int| 0 <= i < n implies state.paths[i] == end.paths.take(n)[i] by {
            assert(after.paths.take(n)[i] == after.paths[i]);
        }
    }
    assert forall|j: int, path: PathModel|
        k <= j < list.len() && !nodes.contains((#[trigger] list[j]).0) && #[trigger] wanted_path(
            scope,
            nodes.push(list[j].0),
            edges.push(list[j].1),
            path,
        ) implies end.paths.contains(path) by {
        if j == k {
            assert(after.paths.contains(path));
            let i = choose|i: int| 0 <= i < after.paths.len() && after.paths[i] == path;
            assert(end.paths[i] == path);
        }
    }
    assert forall|i: int| n <= i < end.paths.len() implies exists|j: int|
        k <= j < list.len() && !nodes.contains((#[trigger] list[j]).0) && wanted_path(
            scope,
            nodes.push(list[j].0),
            edges.push(list[j].1),
            #[trigger] end.paths[i],
        ) by {
        if i < m {
            assert(after.paths[i] == end.paths[i]);
            assert(wanted_path(scope, nodes.push(list[k].0), edges.push(list[k].1), after.paths[i]));
        }
    }
}

/// An enumeration that meets no limit finds exactly the paths that are to be reported: all simple
/// paths from the start along what paths may follow, up to where they end, leave the repository
/// in which they completed, or cannot go on.
pub proof fn untruncated_paths_are_all_there_are(scope: PathScope, reasons: TruncationReasons, start: Seq<char>)
    requires
        !limited(
            visit(scope, PathState { paths: Seq::empty(), reasons, steps: 0 }, seq![start], Seq::empty()).reasons,
        ),
    ensures
        ({
            let begun = PathState { paths: Seq::empty(), reasons, steps: 0 };
            let end = visit(scope, begun, seq![start], Seq::empty());
            forall|path: PathModel| #[trigger]
                end.paths.contains(path) <==> wanted_path(scope, seq![start], Seq::empty(), path)
        }),
{
    let begun = PathState { paths: Seq::empty(), reasons, steps: 0 };
    let nodes = seq![start];
    let none = Seq::<Seq<char>>::empty();
    let end = visit(scope, begun, nodes, none);
    assert(simple_path(scope, nodes, none));
    visit_adds_exactly(scope, begun, nodes, none, start);
    assert forall|path: PathModel| #[trigger] end.paths.contains(path) <==> wanted_path(scope, nodes, none, path) by {
        if end.paths.contains(path) {
            let i = choose|i: int| 0 <= i < end.paths.len() && end.paths[i] == path;
            assert(wanted_path(scope, nodes, none, end.paths[i]));
        }
    }
}

/// The contents of a list of neighbours.
pub open spec fn neighbour_models(list: Seq<(String, String)>) -> Seq<Neighbour> {
    list.map_values(|n: (String, String)| (n.0@, n.1@))
}

/// An enumeration of paths.
pub struct PathSearch<'a> {
    pub query: &'a PathQuery,
    pub targets: &'a TextSet,
    pub adjacent: &'a SortedMap<String, Vec<(String, String)>>,
    pub incomplete: &'a TextSet,
    pub repository_boundaries: &'a TextSet,
    pub target_reachability: &'a SortedMap<String, TextSet>,
    pub paths: Vec<TraversalPath>,
    pub reasons: TruncationReasons,
    pub steps: u32,
}

impl<'a> PathSearch<'a> {
    /// What paths are looked for in.
    pub open spec fn scope(&self) -> PathScope {
        PathScope {
            destination: optional_text(self.query.destination),
            max_hops: self.query.max_hops as nat,
            max_paths: self.query.max_paths as nat,
            max_steps: self.query.max_steps as nat,
            targets: self.targets.keys@,
            incomplete: self.incomplete@.dom(),
            boundaries: self.repository_boundaries@.dom(),
            reachable: Map::new(
                |k: Seq<Seq<char>>| self.target_reachability@.contains_key(k),
                |k: Seq<Seq<char>>| self.target_reachability@[k]@.dom(),
            ),
            adjacent: Map::new(
                |k: Seq<Seq<char>>| self.adjacent@.contains_key(k),
                |k: Seq<Seq<char>>| neighbour_models(self.adjacent@[k]@),
            ),
        }
    }

    /// What has been found so far.
    pub open spec fn state(&self) -> PathState {
        PathState { paths: path_models(self.paths@), reasons: self.reasons, steps: self.steps as nat }
    }

    pub open spec fn wf(&self) -> bool {
        &&& self.targets.wf()
        &&& self.adjacent.wf()
        &&& self.incomplete.wf()
        &&& self.repository_boundaries.wf()
        &&& self.target_reachability.wf()
        &&& forall|k: Seq<Seq<char>>| #[trigger] self.target_reachability@.contains_key(k) ==> self.target_reachability@[k].wf()
    }

    /// Whether only what has been found differs.
    pub open spec fn same_search(&self, other: &PathSearch<'a>) -> bool {
        &&& self.query == other.query
        &&& self.targets == other.targets
        &&& self.adjacent == other.adjacent
        &&& self.incomplete == other.incomplete
        &&& self.repository_boundaries == other.repository_boundaries
        &&& self.target_reachability == other.target_reachability
    }

    /// Which wanted repositories a path visits, and the one whose visit made the set complete.
    pub fn repository_state(&self, nodes: &Vec<String>) -> (r: (TextSet, Option<String>))
        requires
            self.wf(),
        ensures
            r.0.wf(),
            r.0@.dom() == self.scope().visited(texts(nodes@), nodes@.len() as int).0,
            optional_text(r.1) == self.scope().visited(texts(nodes@), nodes@.len() as int).1,
            r.0@.dom().subset_of(self.scope().wanted()),
    {
        let ghost scope = self.scope();
        let ghost list = texts(nodes@);
        let mut visited: TextSet = SortedMap::new();
        let mut completion: Option<String> = None;
        let mut i: usize = 0;
        assert(visited@.dom() =~= Set::empty());
        while i < nodes.len()
            invariant
                self.wf(),
                i <= nodes@.len(),
                scope == self.scope(),
                list == texts(nodes@),
                visited.wf(),
                visited@.dom() == scope.visited(list, i as int).0,
                optional_text(completion) == scope.visited(list, i as int).1,
                visited@.dom().subset_of(scope.wanted()),
            decreases nodes@.len() - i,
        {
            let ghost before = visited@;
            assert(list[i as int] == nodes@[i as int]@);
            match target_repository(nodes[i].as_str(), self.targets) {
                Some(repository) => {
                    visited.insert(repository.to_owned(), ());
                    proof {
                        assert(visited@.dom() =~= before.dom().insert(seq![repository@]));
                        target_is_wanted(scope, list[i as int]);
                        visited.size();
                        self.targets.size();
                        assert(self.targets.listing() =~= scope.targets.map_values(|t: String| seq![t@]));
                        if visited.keys@.len() == self.targets.keys@.len() {
                            vstd::set_lib::lemma_subset_equality(visited@.dom(), scope.wanted());
                        }
                    }
                    if completion.is_none() && visited.keys.len() == self.targets.keys.len() {
                        completion = Some(repository.to_owned());
                    }
                },
                None => {},
            }
            i = i + 1;
        }
        (visited, completion)
    }

    /// Whether a path may go on to a node.
    pub fn can_follow(&self, nodes: &Vec<String>, next: &str) -> (r: bool)
        requires
            self.wf(),
        ensures
            r == self.scope().follows(texts(nodes@), next@),
    {
        let ghost scope = self.scope();
        if self.targets.keys.len() == 0 {
            return true;
        }
        let (mut visited, completion): (TextSet, Option<String>) = self.repository_state(nodes);
        let owner: Option<&str> = target_repository(next, self.targets);
        match completion {
            Some(repository) => {
                let inside: bool = match owner {
                    Some(owner) => same(owner, repository.as_str()),
                    None => false,
                };
                return !starts_with(next, "repo://") || inside;
            },
            None => {},
        }
        let ghost before = visited@;
        match owner {
            Some(owner) => {
                visited.insert(owner.to_owned(), ());
                assert(visited@.dom() =~= before.dom().insert(seq![owner@]));
            },
            None => {},
        }
        let reachable: Option<&TextSet> = self.target_reachability.get(&next.to_owned());
        let ghost missing = scope.wanted().difference(visited@.dom());
        let ghost answer = scope.follows(texts(nodes@), next@);
        let mut i: usize = 0;
        while i < self.targets.keys.len()
            invariant
                self.wf(),
                scope == self.scope(),
                i <= self.targets.keys@.len(),
                visited.wf(),
                answer == scope.follows(texts(nodes@), next@),
                answer == (missing == Set::<Seq<Seq<char>>>::empty() || (scope.reachable.contains_key(seq![next@])
                    && missing.subset_of(scope.reachable[seq![next@]]))),
                missing == scope.wanted().difference(visited@.dom()),
                reachable is Some <==> scope.reachable.contains_key(seq![next@]),
                reachable is Some ==> reachable->0.wf() && reachable->0@.dom() == scope.reachable[seq![next@]],
                forall|j: int| 0 <= j < i && missing.contains(seq![(#[trigger] self.targets.keys@[j])@]) ==> reachable is Some
                    && reachable->0@.contains_key(seq![self.targets.keys@[j]@]),
            decreases self.targets.keys@.len() - i,
        {
            let target: &String = &self.targets.keys[i];
            let ghost names = scope.targets.map_values(|t: String| seq![t@]);
            if !visited.contains_key(target) {
                proof {
                    assert(names[i as int] == seq![target@]);
                    assert(names.contains(seq![target@]));
                    assert(missing.contains(seq![target@]));
                }
                let known: bool = match reachable {
                    Some(set) => set.contains_key(target),
                    None => false,
                };
                if !known {
                    return false;
                }
            }
            i = i + 1;
        }
        proof {
            let names = scope.targets.map_values(|t: String| seq![t@]);
            assert forall|k: Seq<Seq<char>>| missing.contains(k) implies reachable is Some && reachable->0@.dom().contains(k) by {
                assert(names.contains(k));
                let j = choose|j: int| 0 <= j < names.len() && names[j] == k;
                assert(missing.contains(seq![self.targets.keys@[j]@]));
            }
            if missing != Set::<Seq<Seq<char>>>::empty() {
                if reachable is None {
                    assert(missing =~= Set::empty());
                }
            }
        }
        true
    }

    /// Adds a path, unless there are as many as asked for.
    fn emit(&mut self, nodes: &Vec<String>, edges: &Vec<String>, termination: PathTermination)
        ensures
            final(self).same_search(old(self)),
            final(self).state() == old(self).scope().emitted(
                old(self).state(),
                PathModel { nodes: texts(nodes@), edges: texts(edges@), termination },
            ),
    {
        if self.paths.len() == self.query.max_paths as usize {
            self.reasons.max_paths = true;
        } else {
            let path: TraversalPath = TraversalPath {
                nodes: crate::evidence::copy_texts(nodes),
                edges: crate::evidence::copy_texts(edges),
                termination,
            };
            self.paths.push(path);
            assert(path_models(self.paths@) =~= path_models(old(self).paths@).push(path@));
        }
    }

    /// The neighbours that a path may go on to.
    fn open_neighbours(&self, nodes: &Vec<String>, node: &String) -> (r: Vec<(String, String)>)
        requires
            self.wf(),
            nodes@.len() > 0,
            node@ == texts(nodes@).last(),
        ensures
            neighbour_models(r@) == self.scope().neighbours(texts(nodes@)),
    {
        let ghost scope = self.scope();
        let ghost path = texts(nodes@);
        let mut out: Vec<(String, String)> = Vec::new();
        match self.adjacent.get(node) {
            Some(list) => {
                let ghost all = neighbour_models(list@);
                let mut i: usize = 0;
                assert(neighbour_models(out@) =~= Seq::empty());
                while i < list.len()
                    invariant
                        self.wf(),
                        scope == self.scope(),
                        path == texts(nodes@),
                        i <= list@.len(),
                        all == neighbour_models(list@),
                        neighbour_models(out@) == scope.followed(path, all, i as int),
                    decreases list@.len() - i,
                {
                    let ghost before = out@;
                    assert(all[i as int] == (list@[i as int].0@, list@[i as int].1@));
                    if self.can_follow(nodes, list[i].0.as_str()) {
                        out.push((list[i].0.clone(), list[i].1.clone()));
                        assert(neighbour_models(out@) =~= neighbour_models(before).push(all[i as int]));
                    }
                    i = i + 1;
                }
            },
            None => {
                assert(neighbour_models(out@) =~= Seq::empty());
            },
        }
        out
    }

    /// Enumerates the paths that go on from the end of a path.
    #[verifier::rlimit(60)]
    pub fn visit(&mut self, nodes: &mut Vec<String>, edges: &mut Vec<String>)
        requires
            old(self).wf(),
            old(nodes)@.len() > 0,
            old(self).steps <= old(self).query.max_steps,
        ensures
            final(self).wf(),
            final(self).same_search(old(self)),
            final(nodes)@ == old(nodes)@,
            final(edges)@ == old(edges)@,
            final(self).steps <= final(self).query.max_steps,
            final(self).steps >= old(self).steps,
            final(self).state() == visit(old(self).scope(), old(self).state(), texts(old(nodes)@), texts(old(edges)@)),
        decreases old(self).query.max_steps - old(self).steps,
    {
        let ghost scope = self.scope();
        let ghost path = texts(nodes@);
        let ghost trail = texts(edges@);
        if self.reasons.max_paths || self.reasons.work_limit {
            return;
        }
        if self.steps == self.query.max_steps {
            self.reasons.work_limit = true;
            return;
        }
        self.steps = self.steps + 1;
        let node: String = nodes[nodes.len() - 1].clone();
        assert(path.last() == node@);
        let arrived: bool = match &self.query.destination {
            Some(destination) => same(destination.as_str(), node.as_str()),
            None => false,
        };
        if arrived {
            self.emit(nodes, edges, PathTermination::Destination);
            return;
        }
        let (_, completion): (TextSet, Option<String>) = self.repository_state(nodes);
        let complete: bool = completion.is_some();
        let partial: bool = self.incomplete.contains_key(&node);
        if complete && !starts_with(node.as_str(), "repo://") {
            if !partial {
                self.emit(nodes, edges, PathTermination::RepositoryBoundary);
            }
            return;
        }
        let boundary: bool = complete && self.repository_boundaries.contains_key(&node) && !partial;
        assert(boundary == scope.at_boundary(path));
        if boundary {
            self.emit(nodes, edges, PathTermination::RepositoryBoundary);
            if self.reasons.max_paths {
                return;
            }
        }
        let ghost reported = self.state();
        let neighbours: Vec<(String, String)> = self.open_neighbours(nodes, &node);
        let ghost list = neighbour_models(neighbours@);
        if neighbours.len() > (self.query.max_steps - self.steps) as usize {
            self.reasons.work_limit = true;
            return;
        }
        self.steps = self.steps + neighbours.len() as u32;
        let ghost looked = self.state();
        let mut extension: bool = false;
        let mut i: usize = 0;
        while i < neighbours.len()
            invariant
                i <= neighbours@.len(),
                path == texts(nodes@),
                list == neighbour_models(neighbours@),
                extension == exists|j: int| 0 <= j < i && !path.contains((#[trigger] list[j]).0),
            decreases neighbours@.len() - i,
        {
            let ghost was = extension;
            let known: bool = on_path(nodes, neighbours[i].0.as_str());
            assert(list[i as int].0 == neighbours@[i as int].0@);
            if !known {
                extension = true;
            }
            proof {
                if was {
                    let j = choose|j: int| 0 <= j < i && !path.contains((#[trigger] list[j]).0);
                    assert(0 <= j < i + 1);
                }
            }
            i = i + 1;
        }
        assert(extension == extends(path, list));
        let reportable: bool = self.query.destination.is_none() && (self.targets.keys.len() == 0 || complete);
        if !extension {
            if reportable && !partial && !boundary {
                self.emit(
                    nodes,
                    edges,
                    if neighbours.len() == 0 {
                        PathTermination::Leaf
                    } else {
                        PathTermination::Cycle
                    },
                );
            }
            return;
        }
        if edges.len() == self.query.max_hops as usize {
            self.reasons.max_hops = true;
            if reportable {
                self.emit(nodes, edges, PathTermination::MaxHops);
            }
            return;
        }
        let ghost whole = follow(scope, looked, path, trail, list, 0);
        let mut k: usize = 0;
        while k < neighbours.len()
            invariant
                k <= neighbours@.len(),
                self.wf(),
                self.same_search(old(self)),
                scope == self.scope(),
                scope == old(self).scope(),
                nodes@ == old(nodes)@,
                edges@ == old(edges)@,
                nodes@.len() > 0,
                path == texts(nodes@),
                trail == texts(edges@),
                list == neighbour_models(neighbours@),
                self.steps > old(self).steps,
                self.steps <= self.query.max_steps,
                whole == visit(scope, old(self).state(), path, trail),
                whole == follow(scope, self.state(), path, trail, list, k as int),
            decreases neighbours@.len() - k,
        {
            let ghost entry = self.state();
            if self.steps == self.query.max_steps {
                self.reasons.work_limit = true;
                return;
            }
            self.steps = self.steps + 1;
            let ghost counted = self.state();
            let to: &String = &neighbours[k].0;
            let edge: &String = &neighbours[k].1;
            assert(list[k as int] == (to@, edge@));
            if on_path(nodes, to.as_str()) {
                k = k + 1;
                continue;
            }
            nodes.push(to.clone());
            edges.push(edge.clone());
            proof {
                assert(texts(nodes@) =~= path.push(to@));
                assert(texts(edges@) =~= trail.push(edge@));
            }
            self.visit(nodes, edges);
            let ghost after = self.state();
            proof {
                assert(after == visit(scope, counted, path.push(to@), trail.push(edge@)));
            }
            nodes.pop();
            edges.pop();
            assert(nodes@ =~= old(nodes)@);
            assert(edges@ =~= old(edges)@);
            if self.reasons.max_paths || self.reasons.work_limit {
                return;
            }
            k = k + 1;
        }
    }
}

/// Whether a node is on the path.
fn on_path(nodes: &Vec<String>, node: &str) -> (r: bool)
    ensures
        r == texts(nodes@).contains(node@),
{
    let mut i: usize = 0;
    while i < nodes.len()
        invariant
            i <= nodes@.len(),
            forall|j: int| 0 <= j < i ==> #[trigger] texts(nodes@)[j] != node@,
        decreases nodes@.len() - i,
    {
        assert(texts(nodes@)[i as int] == nodes@[i as int]@);
        if same(nodes[i].as_str(), node) {
            assert(texts(nodes@).contains(node@));
            return true;
        }
        i = i + 1;
    }
    false
}

proof fn target_is_wanted(scope: PathScope, id: Seq<char>)
    requires
        target_of(id, scope.targets) is Some,
    ensures
        scope.wanted().contains(seq![target_of(id, scope.targets)->0]),
{
    let rest = crate::ids::behind(id, "repo://"@)->0;
    target_from_bounds(rest, scope.targets, 0);
    let k = crate::ids::target_from(rest, scope.targets, 0)->0;
    let names = scope.targets.map_values(|t: String| seq![t@]);
    assert(names[k] == seq![scope.targets[k]@]);
    assert(names.contains(names[k]));
}

proof fn target_from_bounds(rest: Seq<char>, targets: Seq<String>, k: int)
    requires
        0 <= k,
    ensures
        crate::ids::target_from(rest, targets, k) is Some ==> 0 <= crate::ids::target_from(rest, targets, k)->0 < targets.len(),
    decreases targets.len() - k,
{
    if k < targets.len() {
        target_from_bounds(rest, targets, k + 1);
    }
}

} // verus!
