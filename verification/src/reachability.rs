//! Which entities lead into the repositories that a traversal is to visit.

use crate::closure::is_empty;
use crate::command::{bind_integer, bind_rows, bind_text, bindings, rows_of_texts, text_rows, ArgumentModel, Binding, CellModel, Command, CommandModel};
use crate::dependency::{arrives, departs, left_at, leads_to, stated, traversal_predecessor, ResolvedDependencyRow};
use crate::domain::optional_text;
use crate::ids::{repository, repository_of, TextSet};
use crate::paths::TraversalDirection;
use crate::scripts::{INCOMING_REVERSE, INCOMING_SEED, OUTGOING_REVERSE, OUTGOING_SEED};
use crate::semantic::StatedEdge;
use crate::sorted::{texts, Key, SortedMap};
use crate::text::same;
use vstd::prelude::*;

verus! {

/// What the identifiers of the entities in a repository begin with.
pub open spec fn prefix_of(repository: Seq<char>) -> Seq<char> {
    "repo://"@ + repository + "/"@
}

/// What the identifiers of the entities in a repository begin with.
pub fn target_prefix(repository: &str) -> (r: String)
    ensures
        r@ == prefix_of(repository@),
{
    let mut prefix: String = "repo://".to_owned();
    prefix.append(repository);
    prefix.append("/");
    prefix
}

/// What asks for the dependencies that lead into a repository.
pub open spec fn seed_asked(view: Seq<char>, target: Seq<char>, direction: TraversalDirection, limit: int) -> CommandModel {
    CommandModel {
        script: match direction {
            TraversalDirection::Outgoing => OUTGOING_SEED@,
            TraversalDirection::Incoming => INCOMING_SEED@,
        },
        arguments: seq![
            ("view"@, ArgumentModel::One(CellModel::Text(view))),
            ("prefix"@, ArgumentModel::One(CellModel::Text(prefix_of(target)))),
            ("limit"@, ArgumentModel::One(CellModel::Integer(limit))),
        ],
    }
}

/// Asks for the dependencies that lead into a repository.
pub fn reverse_seed(view: &str, target: &str, direction: TraversalDirection, limit: i64) -> (r: Command)
    ensures
        r@ == seed_asked(view@, target@, direction, limit as int),
{
    let script: &'static str = match direction {
        TraversalDirection::Outgoing => OUTGOING_SEED,
        TraversalDirection::Incoming => INCOMING_SEED,
    };
    let mut arguments: Vec<Binding> = Vec::new();
    arguments.push(bind_text("view", view));
    arguments.push(bind_text("prefix", target_prefix(target).as_str()));
    arguments.push(bind_integer("limit", limit));
    let command: Command = Command { script: script.to_owned(), arguments };
    assert(bindings(command.arguments@) =~= seed_asked(view@, target@, direction, limit as int).arguments);
    command
}

/// What asks for the dependencies that lead into a frontier.
pub open spec fn reverse_asked(view: Seq<char>, frontier: Seq<Seq<char>>, direction: TraversalDirection, limit: int) -> CommandModel {
    CommandModel {
        script: match direction {
            TraversalDirection::Outgoing => OUTGOING_REVERSE@,
            TraversalDirection::Incoming => INCOMING_REVERSE@,
        },
        arguments: seq![
            ("view"@, ArgumentModel::One(CellModel::Text(view))),
            ("frontier"@, ArgumentModel::Rows(text_rows(frontier))),
            ("limit"@, ArgumentModel::One(CellModel::Integer(limit))),
        ],
    }
}

/// Asks for the dependencies that lead into a frontier.
pub fn reverse_frontier(view: &str, frontier: &Vec<String>, direction: TraversalDirection, limit: i64) -> (r: Command)
    ensures
        r@ == reverse_asked(view@, texts(frontier@), direction, limit as int),
{
    let script: &'static str = match direction {
        TraversalDirection::Outgoing => OUTGOING_REVERSE,
        TraversalDirection::Incoming => INCOMING_REVERSE,
    };
    let mut arguments: Vec<Binding> = Vec::new();
    arguments.push(bind_text("view", view));
    arguments.push(bind_rows("frontier", rows_of_texts(frontier)));
    arguments.push(bind_integer("limit", limit));
    let command: Command = Command { script: script.to_owned(), arguments };
    assert(bindings(command.arguments@) =~= reverse_asked(view@, texts(frontier@), direction, limit as int).arguments);
    command
}

/// The entities at which some dependencies are left.
pub open spec fn sources(edges: Seq<StatedEdge>, direction: TraversalDirection) -> Set<Seq<Seq<char>>> {
    Set::new(|k: Seq<Seq<char>>| exists|i: int| 0 <= i < edges.len() && k == seq![left_at(#[trigger] edges[i], direction)])
}

proof fn sources_push(edges: Seq<StatedEdge>, k: int, direction: TraversalDirection)
    requires
        0 <= k < edges.len(),
    ensures
        sources(edges.take(k + 1), direction) == sources(edges.take(k), direction).insert(seq![left_at(edges[k], direction)]),
{
    let more = edges.take(k + 1);
    let less = edges.take(k);
    let last = seq![left_at(edges[k], direction)];
    assert forall|x: Seq<Seq<char>>| sources(more, direction).contains(x) <==> sources(less, direction).insert(last).contains(x) by {
        if sources(more, direction).contains(x) {
            let i = choose|i: int| 0 <= i < more.len() && x == seq![left_at(#[trigger] more[i], direction)];
            if i < k {
                assert(less[i] == more[i]);
            }
        }
        if sources(less, direction).contains(x) {
            let i = choose|i: int| 0 <= i < less.len() && x == seq![left_at(#[trigger] less[i], direction)];
            assert(less[i] == more[i]);
        }
        if x == last {
            assert(more[k] == edges[k]);
        }
    }
    assert(sources(more, direction) =~= sources(less, direction).insert(last));
}

/// How far the way back from a repository has got.
pub ghost struct Approach {
    pub frontier: Set<Seq<Seq<char>>>,
    pub visited: Set<Seq<Seq<char>>>,
}

/// The first `n` dependencies that lead into a repository. An entity that was met before as
/// the end of a dependency is not followed back further: what leads to it leads into the
/// repository itself.
pub open spec fn seeded(edges: Seq<StatedEdge>, direction: TraversalDirection, n: int) -> Approach
    decreases n,
{
    if n <= 0 {
        Approach { frontier: Set::empty(), visited: Set::empty() }
    } else {
        let before = seeded(edges, direction, n - 1);
        let entered = before.visited.insert(seq![leads_to(edges[n - 1], direction)]);
        let source = seq![left_at(edges[n - 1], direction)];
        Approach {
            frontier: if entered.contains(source) {
                before.frontier
            } else {
                before.frontier.insert(source)
            },
            visited: entered.insert(source),
        }
    }
}

/// One more step back.
pub open spec fn stepped_back(approach: Approach, edges: Seq<StatedEdge>, direction: TraversalDirection) -> Approach {
    Approach {
        frontier: sources(edges, direction).difference(approach.visited),
        visited: approach.visited.union(sources(edges, direction)),
    }
}

/// Which repositories the entities lead into, with one more for some of them.
pub open spec fn leading(
    reachable: Map<Seq<Seq<char>>, Set<Seq<Seq<char>>>>,
    entities: Set<Seq<Seq<char>>>,
    target: Seq<char>,
) -> Map<Seq<Seq<char>>, Set<Seq<Seq<char>>>> {
    Map::new(
        |k: Seq<Seq<char>>| reachable.contains_key(k) || entities.contains(k),
        |k: Seq<Seq<char>>|
            {
                let known = if reachable.contains_key(k) {
                    reachable[k]
                } else {
                    Set::empty()
                };
                if entities.contains(k) {
                    known.insert(seq![target])
                } else {
                    known
                }
            },
    )
}

/// The sets in a map.
pub open spec fn reach_models(map: Map<Seq<Seq<char>>, TextSet>) -> Map<Seq<Seq<char>>, Set<Seq<Seq<char>>>> {
    Map::new(|k: Seq<Seq<char>>| map.contains_key(k), |k: Seq<Seq<char>>| map[k]@.dom())
}

/// Whether a map of sets is one.
pub open spec fn reach_wf(map: SortedMap<String, TextSet>) -> bool {
    &&& map.wf()
    &&& forall|k: Seq<Seq<char>>| #[trigger] map@.contains_key(k) ==> map@[k].wf()
}

/// Notes that an entity leads into a repository.
fn mark(reachable: &mut SortedMap<String, TextSet>, entity: &String, target: &str)
    requires
        reach_wf(*old(reachable)),
    ensures
        reach_wf(*final(reachable)),
        reach_models(final(reachable)@) == leading(reach_models(old(reachable)@), set![seq![entity@]], target@),
{
    let ghost before = reachable@;
    let mut known: TextSet = match reachable.remove(entity) {
        Some(known) => known,
        None => SortedMap::new(),
    };
    known.insert(target.to_owned(), ());
    reachable.insert(entity.clone(), known);
    proof {
        let k = seq![entity@];
        assert(entity.key() == k);
        let told = leading(reach_models(before), set![k], target@);
        assert(reach_models(reachable@).dom() =~= told.dom());
        assert(known@.dom() =~= told[k]);
        assert(reach_models(reachable@) =~= told);
    }
}

proof fn leading_more(
    reachable: Map<Seq<Seq<char>>, Set<Seq<Seq<char>>>>,
    entities: Set<Seq<Seq<char>>>,
    entity: Seq<Seq<char>>,
    target: Seq<char>,
)
    ensures
        leading(leading(reachable, entities, target), set![entity], target) == leading(reachable, entities.insert(entity), target),
{
    let a = leading(leading(reachable, entities, target), set![entity], target);
    let b = leading(reachable, entities.insert(entity), target);
    assert(a.dom() =~= b.dom());
    assert forall|k: Seq<Seq<char>>| #[trigger] a.contains_key(k) implies a[k] == b[k] by {
        assert(a[k] =~= b[k]);
    }
    assert(a =~= b);
}

/// Notes that some entities lead into a repository.
fn mark_all(reachable: &mut SortedMap<String, TextSet>, entities: &TextSet, target: &str)
    requires
        reach_wf(*old(reachable)),
        entities.wf(),
    ensures
        reach_wf(*final(reachable)),
        reach_models(final(reachable)@) == leading(reach_models(old(reachable)@), entities@.dom(), target@),
{
    let ghost before = reach_models(reachable@);
    let ghost all = entities.listing();
    let mut i: usize = 0;
    proof {
        assert(all.take(0).to_set() =~= Set::<Seq<Seq<char>>>::empty());
        assert(leading(before, Set::empty(), target@) =~= before);
    }
    while i < entities.keys.len()
        invariant
            i <= entities.keys@.len(),
            all == entities.listing(),
            entities.wf(),
            reach_wf(*reachable),
            reach_models(reachable@) == leading(before, all.take(i as int).to_set(), target@),
        decreases entities.keys@.len() - i,
    {
        mark(reachable, &entities.keys[i], target);
        proof {
            leading_more(before, all.take(i as int).to_set(), all[i as int], target@);
            let more = all.take(i as int + 1);
            assert(more =~= all.take(i as int).push(all[i as int]));
            assert(more.to_set() =~= all.take(i as int).to_set().insert(all[i as int])) by {
                assert forall|k: Seq<Seq<char>>| more.to_set().contains(k) <==> all.take(i as int).to_set().insert(all[i as int]).contains(k) by {
                    if more.contains(k) {
                        let j = choose|j: int| 0 <= j < more.len() && more[j] == k;
                        if j < i {
                            assert(all.take(i as int)[j] == k);
                        }
                    }
                    if all.take(i as int).contains(k) {
                        let j = choose|j: int| 0 <= j < all.take(i as int).len() && all.take(i as int)[j] == k;
                        assert(more[j] == k);
                    }
                    if k == all[i as int] {
                        assert(more[i as int] == k);
                    }
                }
            }
            assert(all[i as int] == seq![entities.keys@[i as int]@]);
        }
        i = i + 1;
    }
    proof {
        entities.size();
        assert(all.take(all.len() as int) =~= all);
    }
}

/// Follows the dependencies that lead into a repository back by one step.
fn seed_approach(rows: &Vec<ResolvedDependencyRow>, direction: TraversalDirection) -> (r: (TextSet, TextSet))
    ensures
        r.0.wf(),
        r.1.wf(),
        seeded(stated(rows@), direction, rows@.len() as int) == (Approach { frontier: r.0@.dom(), visited: r.1@.dom() }),
{
    let ghost edges = stated(rows@);
    let mut frontier: TextSet = SortedMap::new();
    let mut visited: TextSet = SortedMap::new();
    let mut i: usize = 0;
    proof {
        assert(frontier@.dom() =~= Set::<Seq<Seq<char>>>::empty());
        assert(visited@.dom() =~= Set::<Seq<Seq<char>>>::empty());
    }
    while i < rows.len()
        invariant
            i <= rows@.len(),
            edges == stated(rows@),
            frontier.wf(),
            visited.wf(),
            seeded(edges, direction, i as int).frontier == frontier@.dom(),
            seeded(edges, direction, i as int).visited == visited@.dom(),
        decreases rows@.len() - i,
    {
        let ghost was = visited@.dom();
        let ghost front = frontier@.dom();
        let (source, end): (&String, &String) = traversal_predecessor(&rows[i], direction);
        assert(edges[i as int] == rows@[i as int]@);
        visited.insert(end.clone(), ());
        proof {
            assert(end.key() == seq![end@]);
            assert(source.key() == seq![source@]);
            assert(visited@.dom() =~= was.insert(seq![end@]));
        }
        if !visited.contains_key(source) {
            visited.insert(source.clone(), ());
            frontier.insert(source.clone(), ());
        }
        proof {
            let after = seeded(edges, direction, i as int + 1);
            assert(frontier@.dom() =~= after.frontier);
            assert(visited@.dom() =~= after.visited);
        }
        i = i + 1;
    }
    (frontier, visited)
}

/// Follows dependencies back by one step, and marks where they come from as visited.
fn step_back(rows: &Vec<ResolvedDependencyRow>, direction: TraversalDirection, visited: &mut TextSet) -> (r: TextSet)
    requires
        old(visited).wf(),
    ensures
        r.wf(),
        final(visited).wf(),
        r@.dom() == sources(stated(rows@), direction).difference(old(visited)@.dom()),
        final(visited)@.dom() == old(visited)@.dom().union(sources(stated(rows@), direction)),
{
    let mut next: TextSet = SortedMap::new();
    let ghost before = visited@.dom();
    let ghost edges = stated(rows@);
    let mut i: usize = 0;
    proof {
        assert(sources(edges.take(0), direction) =~= Set::<Seq<Seq<char>>>::empty());
        assert(next@.dom() =~= sources(edges.take(0), direction).difference(before));
        assert(visited@.dom() =~= before.union(sources(edges.take(0), direction)));
    }
    while i < rows.len()
        invariant
            i <= rows@.len(),
            edges == stated(rows@),
            next.wf(),
            visited.wf(),
            next@.dom() == sources(edges.take(i as int), direction).difference(before),
            visited@.dom() == before.union(sources(edges.take(i as int), direction)),
        decreases rows@.len() - i,
    {
        let source: &String = traversal_predecessor(&rows[i], direction).0;
        proof {
            sources_push(edges, i as int, direction);
            assert(edges[i as int] == rows@[i as int]@);
        }
        if !visited.contains_key(source) {
            visited.insert(source.clone(), ());
            next.insert(source.clone(), ());
        }
        proof {
            let all = sources(edges.take(i as int + 1), direction);
            assert(source.key() == seq![source@]);
            assert(next@.dom() =~= all.difference(before));
            assert(visited@.dom() =~= before.union(all));
        }
        i = i + 1;
    }
    assert(edges.take(edges.len() as int) =~= edges);
    next
}

/// What a search for ways into repositories is about.
pub ghost struct ReachScope {
    pub start: Seq<char>,
    pub targets: Seq<Seq<char>>,
    pub direction: TraversalDirection,
    pub max_hops: nat,
}

/// How far a search for ways into repositories has got: at which target it is, how many steps
/// back it has taken from it, and how many more rows it may read.
pub ghost struct ReachModel {
    pub at: nat,
    pub hop: nat,
    pub approach: Approach,
    pub reachable: Map<Seq<Seq<char>>, Set<Seq<Seq<char>>>>,
    pub remaining: nat,
    pub exhausted: bool,
}

/// A search with all targets passed for which nothing is left to be asked. A target that the
/// start lies in needs no search.
pub open spec fn settled(scope: ReachScope, model: ReachModel) -> ReachModel
    decreases scope.targets.len() - model.at, model.hop,
{
    if model.exhausted || model.at >= scope.targets.len() {
        model
    } else if model.hop > 0 {
        if model.hop >= scope.max_hops || model.approach.frontier == Set::<Seq<Seq<char>>>::empty() {
            settled(
                scope,
                ReachModel {
                    at: model.at + 1,
                    hop: 0,
                    reachable: leading(model.reachable, model.approach.visited, scope.targets[model.at as int]),
                    ..model
                },
            )
        } else {
            model
        }
    } else if repository_of(scope.start) == Some(scope.targets[model.at as int]) {
        settled(
            scope,
            ReachModel {
                at: model.at + 1,
                reachable: leading(model.reachable, set![seq![scope.start]], scope.targets[model.at as int]),
                ..model
            },
        )
    } else {
        model
    }
}

/// Passing targets does not go back.
pub proof fn settled_goes_on(scope: ReachScope, model: ReachModel)
    ensures
        settled(scope, model).at >= model.at,
        settled(scope, model).remaining == model.remaining,
        settled(scope, model).exhausted == model.exhausted,
        settled(scope, settled(scope, model)) == settled(scope, model),
    decreases scope.targets.len() - model.at, model.hop,
{
    if !model.exhausted && model.at < scope.targets.len() {
        if model.hop > 0 {
            if model.hop >= scope.max_hops || model.approach.frontier == Set::<Seq<Seq<char>>>::empty() {
                settled_goes_on(
                    scope,
                    ReachModel {
                        at: model.at + 1,
                        hop: 0,
                        reachable: leading(model.reachable, model.approach.visited, scope.targets[model.at as int]),
                        ..model
                    },
                );
            }
        } else if repository_of(scope.start) == Some(scope.targets[model.at as int]) {
            settled_goes_on(
                scope,
                ReachModel {
                    at: model.at + 1,
                    reachable: leading(model.reachable, set![seq![scope.start]], scope.targets[model.at as int]),
                    ..model
                },
            );
        }
    }
}

/// A search before its first question.
pub open spec fn reach_started(scope: ReachScope, rows: nat) -> ReachModel {
    settled(
        scope,
        ReachModel {
            at: 0,
            hop: 0,
            approach: Approach { frontier: Set::empty(), visited: Set::empty() },
            reachable: Map::empty(),
            remaining: rows,
            exhausted: false,
        },
    )
}

/// A search after one more answer. More rows than remain end it.
pub open spec fn reach_step(scope: ReachScope, model: ReachModel, answer: Seq<StatedEdge>) -> ReachModel {
    if model.exhausted || model.at >= scope.targets.len() {
        model
    } else if answer.len() > model.remaining {
        ReachModel { exhausted: true, ..model }
    } else {
        settled(
            scope,
            ReachModel {
                hop: model.hop + 1,
                approach: if model.hop == 0 {
                    seeded(answer, scope.direction, answer.len() as int)
                } else {
                    stepped_back(model.approach, answer, scope.direction)
                },
                remaining: (model.remaining - answer.len()) as nat,
                ..model
            },
        )
    }
}

/// The search for the entities that lead into the target repositories of a traversal. It asks
/// for dependencies that lead into a target, then for those that lead there, and so on, as
/// long as the rows that it may read suffice.
pub struct Reachability {
    start: String,
    targets: Vec<String>,
    direction: TraversalDirection,
    max_hops: u32,
    at: usize,
    hop: u32,
    frontier: TextSet,
    visited: TextSet,
    reachable: SortedMap<String, TextSet>,
    remaining: u32,
    exhausted: bool,
}

impl View for Reachability {
    type V = ReachModel;

    closed spec fn view(&self) -> ReachModel {
        ReachModel {
            at: self.at as nat,
            hop: self.hop as nat,
            approach: Approach { frontier: self.frontier@.dom(), visited: self.visited@.dom() },
            reachable: reach_models(self.reachable@),
            remaining: self.remaining as nat,
            exhausted: self.exhausted,
        }
    }
}

impl Reachability {
    /// The sets are sets, and the search stands where something is to be asked or is over.
    pub closed spec fn wf(&self) -> bool {
        &&& self.parts_wf()
        &&& self@ == settled(self.scope(), self@)
    }

    spec fn parts_wf(&self) -> bool {
        &&& self.frontier.wf()
        &&& self.visited.wf()
        &&& reach_wf(self.reachable)
        &&& self.at <= self.targets@.len()
    }

    /// What the search is about.
    pub closed spec fn scope(&self) -> ReachScope {
        ReachScope {
            start: self.start@,
            targets: texts(self.targets@),
            direction: self.direction,
            max_hops: self.max_hops as nat,
        }
    }

    /// The entities of the frontier, in order.
    pub closed spec fn asked_for(&self) -> Seq<Seq<char>> {
        texts(self.frontier.keys@)
    }

    /// What is asked for is the frontier.
    pub proof fn asks_for_frontier(&self)
        requires
            self.wf(),
        ensures
            forall|id: Seq<char>| self.asked_for().contains(id) <==> #[trigger] self@.approach.frontier.contains(seq![id]),
    {
        assert forall|id: Seq<char>| self.asked_for().contains(id) <==> #[trigger] self@.approach.frontier.contains(seq![id]) by {
            if self.asked_for().contains(id) {
                let i = choose|i: int| 0 <= i < self.asked_for().len() && self.asked_for()[i] == id;
                self.frontier.entry(i);
                assert(self.frontier.keys@[i].key() == seq![id]);
            }
            if self@.approach.frontier.contains(seq![id]) {
                let i = self.frontier.position(seq![id]);
                assert(self.frontier.keys@[i].key()[0] == seq![id][0]);
                assert(self.asked_for()[i] == id);
            }
        }
    }

    /// Passes the targets for which nothing is left to be asked.
    fn settle(&mut self)
        requires
            old(self).parts_wf(),
        ensures
            final(self).wf(),
            final(self)@ == settled(old(self).scope(), old(self)@),
            final(self).scope() == old(self).scope(),
    {
        let home: Option<String> = repository(self.start.as_str());
        let ghost scope = self.scope();
        let ghost before = self@;
        while !self.exhausted && self.at < self.targets.len()
            invariant
                self.parts_wf(),
                self.scope() == scope,
                optional_text(home) == repository_of(scope.start),
                settled(scope, before) == settled(scope, self@),
                scope == old(self).scope(),
                before == old(self)@,
            decreases self.targets@.len() - self.at,
        {
            let ghost here = self@;
            let target: String = self.targets[self.at].clone();
            assert(scope.targets[self.at as int] == target@);
            if self.hop > 0 {
                if self.hop < self.max_hops && !is_empty(&self.frontier) {
                    return;
                }
                mark_all(&mut self.reachable, &self.visited, target.as_str());
                self.at = self.at + 1;
                self.hop = 0;
            } else {
                let inside: bool = match &home {
                    Some(found) => same(found.as_str(), target.as_str()),
                    None => false,
                };
                if !inside {
                    return;
                }
                mark(&mut self.reachable, &self.start, target.as_str());
                self.at = self.at + 1;
            }
        }
    }

    /// Starts a search that may read a number of rows.
    pub fn start(start: &str, targets: Vec<String>, direction: TraversalDirection, max_hops: u32, rows: u32) -> (r: Reachability)
        ensures
            r.wf(),
            r.scope() == (ReachScope { start: start@, targets: texts(targets@), direction, max_hops: max_hops as nat }),
            r@ == reach_started(r.scope(), rows as nat),
    {
        let mut search: Reachability = Reachability {
            start: start.to_owned(),
            targets,
            direction,
            max_hops,
            at: 0,
            hop: 0,
            frontier: SortedMap::new(),
            visited: SortedMap::new(),
            reachable: SortedMap::new(),
            remaining: rows,
            exhausted: false,
        };
        proof {
            assert(search@.approach.frontier =~= Set::<Seq<Seq<char>>>::empty());
            assert(search@.approach.visited =~= Set::<Seq<Seq<char>>>::empty());
            assert(search@.reachable =~= Map::<Seq<Seq<char>>, Set<Seq<Seq<char>>>>::empty());
        }
        search.settle();
        search
    }

    /// Whether nothing more is to be asked.
    pub fn is_done(&self) -> (r: bool)
        ensures
            r == (self@.exhausted || self@.at >= self.scope().targets.len()),
    {
        self.exhausted || self.at >= self.targets.len()
    }

    /// Whether what leads into a target itself is to be asked for.
    pub fn is_seeding(&self) -> (r: bool)
        ensures
            r == (self@.hop == 0),
    {
        self.hop == 0
    }

    /// How many more rows may be read.
    pub fn remaining_rows(&self) -> (r: u32)
        ensures
            r == self@.remaining,
    {
        self.remaining
    }

    /// Asks for what leads into the target, or into what leads there. One row more than may be
    /// read is asked for, so that the answer tells whether they suffice.
    pub fn request(&self, view: &str) -> (r: Command)
        requires
            self.wf(),
            !self@.exhausted,
            self@.at < self.scope().targets.len(),
        ensures
            r@ == (if self@.hop == 0 {
                seed_asked(view@, self.scope().targets[self@.at as int], self.scope().direction, self@.remaining + 1int)
            } else {
                reverse_asked(view@, self.asked_for(), self.scope().direction, self@.remaining + 1int)
            }),
    {
        let limit: i64 = self.remaining as i64 + 1;
        if self.hop == 0 {
            assert(self.scope().targets[self.at as int] == self.targets@[self.at as int]@);
            reverse_seed(view, self.targets[self.at].as_str(), self.direction, limit)
        } else {
            reverse_frontier(view, &self.frontier.keys, self.direction, limit)
        }
    }

    /// Takes in the answer to what was asked.
    pub fn receive(&mut self, answer: &Vec<ResolvedDependencyRow>)
        requires
            old(self).wf(),
        ensures
            final(self).wf(),
            final(self).scope() == old(self).scope(),
            final(self)@ == reach_step(old(self).scope(), old(self)@, stated(answer@)),
    {
        if self.exhausted || self.at >= self.targets.len() {
            return;
        }
        let count: usize = answer.len();
        if count > self.remaining as usize {
            self.exhausted = true;
            return;
        }
        let ghost edges = stated(answer@);
        let ghost before = self@;
        if self.hop == 0 {
            let (frontier, visited): (TextSet, TextSet) = seed_approach(answer, self.direction);
            self.frontier = frontier;
            self.visited = visited;
            self.hop = 1;
        } else {
            proof {
                if self.hop >= self.max_hops {
                    settled_goes_on(
                        self.scope(),
                        ReachModel {
                            at: before.at + 1,
                            hop: 0,
                            reachable: leading(before.reachable, before.approach.visited, self.scope().targets[before.at as int]),
                            ..before
                        },
                    );
                }
            }
            self.frontier = step_back(answer, self.direction, &mut self.visited);
            self.hop = self.hop + 1;
        }
        self.remaining = self.remaining - count as u32;
        proof {
            let approach = if before.hop == 0 {
                seeded(edges, self.direction, edges.len() as int)
            } else {
                stepped_back(before.approach, edges, self.direction)
            };
            assert(self@.approach == approach);
        }
        self.settle();
    }

    /// The targets that each entity leads into, unless the rows did not suffice.
    pub fn finish(self) -> (r: Option<SortedMap<String, TextSet>>)
        requires
            self.wf(),
        ensures
            r is Some <==> !self@.exhausted,
            r is Some ==> reach_wf(r->0) && reach_models((r->0)@) == self@.reachable,
    {
        if self.exhausted {
            None
        } else {
            Some(self.reachable)
        }
    }
}

/// The entities from which a repository can be entered in a number of steps, at least one. Both
/// ends of a dependency that leads into it count.
pub open spec fn entrances(graph: Set<StatedEdge>, direction: TraversalDirection, target: Seq<char>, steps: nat) -> Set<Seq<Seq<char>>>
    decreases steps,
{
    if steps <= 1 {
        Set::new(
            |k: Seq<Seq<char>>|
                exists|edge: StatedEdge| #[trigger]
                    graph.contains(edge) && enters(edge, direction, target) && (k == seq![departs(edge, direction)] || k
                        == seq![arrives(edge, direction)]),
        )
    } else {
        let nearer = entrances(graph, direction, target, (steps - 1) as nat);
        nearer.union(before_them(graph, direction, nearer))
    }
}

/// Whether a dependency leads into a repository when it is followed.
pub open spec fn enters(edge: StatedEdge, direction: TraversalDirection, target: Seq<char>) -> bool {
    ("repo://"@ + target + "/"@).is_prefix_of(arrives(edge, direction))
}

/// The entities from which some dependency leads to one of the others.
pub open spec fn before_them(graph: Set<StatedEdge>, direction: TraversalDirection, others: Set<Seq<Seq<char>>>) -> Set<Seq<Seq<char>>> {
    Set::new(
        |k: Seq<Seq<char>>|
            exists|edge: StatedEdge| #[trigger]
                graph.contains(edge) && others.contains(seq![arrives(edge, direction)]) && k == seq![departs(edge, direction)],
    )
}

/// Whether an answer holds exactly the dependencies that lead into the repository.
pub open spec fn seeds(graph: Set<StatedEdge>, direction: TraversalDirection, target: Seq<char>, answer: Seq<StatedEdge>) -> bool {
    forall|edge: StatedEdge| #[trigger] answer.contains(edge) <==> graph.contains(edge) && enters(edge, direction, target)
}

/// Whether an answer holds exactly the dependencies that lead into the frontier.
pub open spec fn leads_back(graph: Set<StatedEdge>, direction: TraversalDirection, frontier: Set<Seq<Seq<char>>>, answer: Seq<StatedEdge>) -> bool {
    forall|edge: StatedEdge| #[trigger]
        answer.contains(edge) <==> graph.contains(edge) && frontier.contains(seq![arrives(edge, direction)])
}

/// The way back from a repository after some answers, the first of which gives what leads into
/// the repository itself.
pub open spec fn approach_run(direction: TraversalDirection, given: Seq<Seq<StatedEdge>>) -> Approach
    decreases given.len(),
{
    if given.len() <= 1 {
        seeded(given[0], direction, given[0].len() as int)
    } else {
        stepped_back(approach_run(direction, given.drop_last()), given.last(), direction)
    }
}

/// Whether each answer was one to what had been asked by then.
pub open spec fn faithful_approach(graph: Set<StatedEdge>, direction: TraversalDirection, target: Seq<char>, given: Seq<Seq<StatedEdge>>) -> bool
    decreases given.len(),
{
    if given.len() == 0 {
        false
    } else if given.len() == 1 {
        seeds(graph, direction, target, given[0])
    } else {
        &&& faithful_approach(graph, direction, target, given.drop_last())
        &&& leads_back(graph, direction, approach_run(direction, given.drop_last()).frontier, given.last())
    }
}

/// Every visited entity is an end of a dependency into the repository, or waits in the
/// frontier, or has had all that leads to it visited.
spec fn followed(graph: Set<StatedEdge>, direction: TraversalDirection, target: Seq<char>, approach: Approach) -> bool {
    forall|edge: StatedEdge| #[trigger]
        graph.contains(edge) && approach.visited.contains(seq![leads_to(edge, direction)]) ==> approach.frontier.contains(
            seq![leads_to(edge, direction)],
        ) || approach.visited.contains(seq![left_at(edge, direction)])
}

proof fn seeded_visits(edges: Seq<StatedEdge>, direction: TraversalDirection, n: int)
    requires
        0 <= n <= edges.len(),
    ensures
        seeded(edges, direction, n).visited == Set::new(
            |k: Seq<Seq<char>>|
                exists|i: int|
                    0 <= i < n && (k == seq![left_at(#[trigger] edges[i], direction)] || k == seq![leads_to(edges[i], direction)]),
        ),
        forall|i: int|
            0 <= i < n ==> seeded(edges, direction, n).frontier.contains(seq![left_at(#[trigger] edges[i], direction)]) || exists|j: int|
                0 <= j < n && seq![leads_to(#[trigger] edges[j], direction)] == seq![left_at(edges[i], direction)],
    decreases n,
{
    let all = Set::new(
        |k: Seq<Seq<char>>|
            exists|i: int| 0 <= i < n && (k == seq![left_at(#[trigger] edges[i], direction)] || k == seq![leads_to(edges[i], direction)]),
    );
    let now = seeded(edges, direction, n);
    if n > 0 {
        seeded_visits(edges, direction, n - 1);
        let before = seeded(edges, direction, n - 1);
        assert forall|k: Seq<Seq<char>>| now.visited.contains(k) <==> all.contains(k) by {
            if all.contains(k) {
                let i = choose|i: int|
                    0 <= i < n && (k == seq![left_at(#[trigger] edges[i], direction)] || k == seq![leads_to(edges[i], direction)]);
                if i < n - 1 {
                    assert(before.visited.contains(k));
                }
            }
            if before.visited.contains(k) {
                let i = choose|i: int|
                    0 <= i < n - 1 && (k == seq![left_at(#[trigger] edges[i], direction)] || k == seq![leads_to(edges[i], direction)]);
                assert(all.contains(k));
            }
            assert(k == seq![left_at(edges[n - 1], direction)] ==> all.contains(k));
            assert(k == seq![leads_to(edges[n - 1], direction)] ==> all.contains(k));
        }
        assert forall|i: int| 0 <= i < n implies now.frontier.contains(seq![left_at(#[trigger] edges[i], direction)]) || exists|j: int|
            0 <= j < n && seq![leads_to(#[trigger] edges[j], direction)] == seq![left_at(edges[i], direction)] by {
            let source = seq![left_at(edges[i], direction)];
            if i < n - 1 {
                if !before.frontier.contains(source) {
                    let j = choose|j: int| 0 <= j < n - 1 && seq![leads_to(#[trigger] edges[j], direction)] == source;
                    assert(seq![leads_to(edges[j], direction)] == source);
                }
            } else {
                let entered = before.visited.insert(seq![leads_to(edges[n - 1], direction)]);
                if entered.contains(source) {
                    if source != seq![leads_to(edges[n - 1], direction)] {
                        let m = choose|m: int|
                            0 <= m < n - 1 && (source == seq![left_at(#[trigger] edges[m], direction)] || source == seq![leads_to(
                                edges[m],
                                direction,
                            )]);
                        if source != seq![leads_to(edges[m], direction)] {
                            assert(source == seq![left_at(edges[m], direction)]);
                            if !before.frontier.contains(source) {
                                let j = choose|j: int| 0 <= j < n - 1 && seq![leads_to(#[trigger] edges[j], direction)] == source;
                                assert(seq![leads_to(edges[j], direction)] == source);
                            }
                        }
                    }
                }
            }
        }
    }
    assert(now.visited =~= all);
}

proof fn seeds_are_entrances(graph: Set<StatedEdge>, direction: TraversalDirection, target: Seq<char>, answer: Seq<StatedEdge>)
    requires
        seeds(graph, direction, target, answer),
    ensures
        seeded(answer, direction, answer.len() as int).visited == entrances(graph, direction, target, 1),
        followed(graph, direction, target, seeded(answer, direction, answer.len() as int)),
{
    let n = answer.len() as int;
    let now = seeded(answer, direction, n);
    seeded_visits(answer, direction, n);
    let all = entrances(graph, direction, target, 1);
    assert forall|k: Seq<Seq<char>>| now.visited.contains(k) <==> all.contains(k) by {
        if now.visited.contains(k) {
            let i = choose|i: int|
                0 <= i < n && (k == seq![left_at(#[trigger] answer[i], direction)] || k == seq![leads_to(answer[i], direction)]);
            assert(answer.contains(answer[i]));
            assert(graph.contains(answer[i]));
        }
        if all.contains(k) {
            let edge = choose|edge: StatedEdge| #[trigger]
                graph.contains(edge) && enters(edge, direction, target) && (k == seq![left_at(edge, direction)] || k == seq![leads_to(
                    edge,
                    direction,
                )]);
            assert(answer.contains(edge));
            let i = choose|i: int| 0 <= i < answer.len() && answer[i] == edge;
            assert(k == seq![left_at(answer[i], direction)] || k == seq![leads_to(answer[i], direction)]);
        }
    }
    assert(now.visited =~= all);
    assert forall|edge: StatedEdge| #[trigger]
        graph.contains(edge) && now.visited.contains(seq![leads_to(edge, direction)]) implies now.frontier.contains(
        seq![leads_to(edge, direction)],
    ) || now.visited.contains(seq![left_at(edge, direction)]) by {
        let k = seq![leads_to(edge, direction)];
        let i = choose|i: int| 0 <= i < n && (k == seq![left_at(#[trigger] answer[i], direction)] || k == seq![leads_to(answer[i], direction)]);
        let j = if k == seq![leads_to(answer[i], direction)] {
            i
        } else if now.frontier.contains(k) {
            -1
        } else {
            choose|j: int| 0 <= j < n && seq![leads_to(#[trigger] answer[j], direction)] == seq![left_at(answer[i], direction)]
        };
        if j >= 0 {
            assert(k[0] == leads_to(edge, direction));
            assert(seq![leads_to(answer[j], direction)][0] == leads_to(answer[j], direction));
            assert(answer.contains(answer[j]));
            assert(enters(answer[j], direction, target));
            assert(enters(edge, direction, target));
            assert(answer.contains(edge));
            let m = choose|m: int| 0 <= m < answer.len() && answer[m] == edge;
            assert(seq![left_at(answer[m], direction)] == seq![left_at(edge, direction)]);
        }
    }
}

/// An approach that was answered faithfully has visited exactly the entities from which the
/// repository can be entered in as many steps as answers were given.
pub proof fn approaches_visit_the_entrances(graph: Set<StatedEdge>, direction: TraversalDirection, target: Seq<char>, given: Seq<Seq<StatedEdge>>)
    requires
        faithful_approach(graph, direction, target, given),
    ensures
        approach_run(direction, given).visited == entrances(graph, direction, target, given.len()),
    decreases given.len(),
{
    approach_keeps_following(graph, direction, target, given);
}

proof fn approach_keeps_following(graph: Set<StatedEdge>, direction: TraversalDirection, target: Seq<char>, given: Seq<Seq<StatedEdge>>)
    requires
        faithful_approach(graph, direction, target, given),
    ensures
        approach_run(direction, given).visited == entrances(graph, direction, target, given.len()),
        followed(graph, direction, target, approach_run(direction, given)),
    decreases given.len(),
{
    if given.len() == 1 {
        seeds_are_entrances(graph, direction, target, given[0]);
    } else {
        let earlier = given.drop_last();
        let answer = given.last();
        approach_keeps_following(graph, direction, target, earlier);
        let before = approach_run(direction, earlier);
        let now = approach_run(direction, given);
        let all = entrances(graph, direction, target, given.len());
        assert forall|k: Seq<Seq<char>>| now.visited.contains(k) <==> all.contains(k) by {
            if sources(answer, direction).contains(k) {
                let i = choose|i: int| 0 <= i < answer.len() && k == seq![left_at(#[trigger] answer[i], direction)];
                assert(answer.contains(answer[i]));
                assert(graph.contains(answer[i]));
                frontier_visited(direction, earlier);
                assert(before_them(graph, direction, before.visited).contains(k));
            }
            if before_them(graph, direction, before.visited).contains(k) && !before.visited.contains(k) {
                let edge = choose|edge: StatedEdge| #[trigger]
                    graph.contains(edge) && before.visited.contains(seq![leads_to(edge, direction)]) && k == seq![left_at(edge, direction)];
                assert(before.frontier.contains(seq![leads_to(edge, direction)]));
                assert(answer.contains(edge));
                let i = choose|i: int| 0 <= i < answer.len() && answer[i] == edge;
                assert(k == seq![left_at(answer[i], direction)]);
            }
        }
        assert(now.visited =~= all);
        assert forall|edge: StatedEdge| #[trigger]
            graph.contains(edge) && now.visited.contains(seq![leads_to(edge, direction)]) implies now.frontier.contains(
            seq![leads_to(edge, direction)],
        ) || now.visited.contains(seq![left_at(edge, direction)]) by {
            let k = seq![leads_to(edge, direction)];
            if before.visited.contains(k) {
                if before.frontier.contains(k) {
                    assert(answer.contains(edge));
                    let i = choose|i: int| 0 <= i < answer.len() && answer[i] == edge;
                    assert(seq![left_at(edge, direction)] == seq![left_at(answer[i], direction)]);
                    assert(sources(answer, direction).contains(seq![left_at(edge, direction)]));
                }
            }
        }
    }
}

proof fn seeded_frontier_visited(edges: Seq<StatedEdge>, direction: TraversalDirection, n: int)
    ensures
        seeded(edges, direction, n).frontier.subset_of(seeded(edges, direction, n).visited),
    decreases n,
{
    if n > 0 {
        seeded_frontier_visited(edges, direction, n - 1);
    }
}

proof fn frontier_visited(direction: TraversalDirection, given: Seq<Seq<StatedEdge>>)
    ensures
        approach_run(direction, given).frontier.subset_of(approach_run(direction, given).visited),
    decreases given.len(),
{
    if given.len() <= 1 {
        seeded_frontier_visited(given[0], direction, given[0].len() as int);
    } else {
        frontier_visited(direction, given.drop_last());
    }
}

/// No answer takes more rows from a search than it may still read.
pub proof fn searches_keep_to_their_rows(scope: ReachScope, model: ReachModel, answer: Seq<StatedEdge>)
    ensures
        ({
            let after = reach_step(scope, model, answer);
            &&& after.remaining <= model.remaining
            &&& !after.exhausted && !model.exhausted && model.at < scope.targets.len() ==> after.remaining == model.remaining
                - answer.len()
        }),
{
    settled_goes_on(
        scope,
        ReachModel {
            hop: model.hop + 1,
            approach: if model.hop == 0 {
                seeded(answer, scope.direction, answer.len() as int)
            } else {
                stepped_back(model.approach, answer, scope.direction)
            },
            remaining: (model.remaining - answer.len()) as nat,
            ..model
        },
    );
}

/// A search for ways into repositories after some answers.
pub open spec fn reach_run(scope: ReachScope, rows: nat, given: Seq<Seq<StatedEdge>>) -> ReachModel
    decreases given.len(),
{
    if given.len() == 0 {
        reach_started(scope, rows)
    } else {
        reach_step(scope, reach_run(scope, rows, given.drop_last()), given.last())
    }
}

/// Whether each answer was one to what had been asked by then, unless it has more rows than remain.
pub open spec fn faithful_reach(graph: Set<StatedEdge>, scope: ReachScope, rows: nat, given: Seq<Seq<StatedEdge>>) -> bool
    decreases given.len(),
{
    given.len() == 0 || {
        let before = reach_run(scope, rows, given.drop_last());
        let answer = given.last();
        &&& faithful_reach(graph, scope, rows, given.drop_last())
        &&& before.exhausted || before.at >= scope.targets.len() || answer.len() > before.remaining || if before.hop == 0 {
            seeds(graph, scope.direction, scope.targets[before.at as int], answer)
        } else {
            leads_back(graph, scope.direction, before.approach.frontier, answer)
        }
    }
}

/// How many steps back from a repository are taken at most.
pub open spec fn most_steps(scope: ReachScope) -> nat {
    if scope.max_hops == 0 {
        1
    } else {
        scope.max_hops
    }
}

/// Whether a search knows exactly from where a repository can be entered: if the start lies in it,
/// nothing but the start counts.
pub open spec fn knows_ways(graph: Set<StatedEdge>, scope: ReachScope, model: ReachModel, target: Seq<char>) -> bool {
    forall|entity: Seq<Seq<char>>|
        (#[trigger] model.reachable.contains_key(entity) && model.reachable[entity].contains(seq![target])) <==> if repository_of(
            scope.start,
        ) == Some(target) {
            entity == seq![scope.start]
        } else {
            entrances(graph, scope.direction, target, most_steps(scope)).contains(entity)
        }
}

/// What holds of a search on its way.
spec fn reach_is_right(graph: Set<StatedEdge>, scope: ReachScope, model: ReachModel, given: Seq<Seq<StatedEdge>>) -> bool {
    &&& model.at <= scope.targets.len()
    &&& forall|q: int| 0 <= q < model.at ==> knows_ways(graph, scope, model, #[trigger] scope.targets[q])
    &&& forall|entity: Seq<Seq<char>>, target: Seq<char>|
        #[trigger] model.reachable.contains_key(entity) && #[trigger] model.reachable[entity].contains(seq![target]) ==> exists|q: int|
            0 <= q < model.at && #[trigger] scope.targets[q] == target
    &&& model.hop > 0 && model.at < scope.targets.len() ==> {
        let own = given.skip(given.len() - model.hop);
        let target = scope.targets[model.at as int];
        &&& model.hop <= given.len()
        &&& model.hop <= most_steps(scope)
        &&& approach_run(scope.direction, own) == model.approach
        &&& faithful_approach(graph, scope.direction, target, own)
        &&& repository_of(scope.start) != Some(target)
    }
}

proof fn closed_approach(graph: Set<StatedEdge>, direction: TraversalDirection, target: Seq<char>, given: Seq<Seq<StatedEdge>>, steps: nat)
    requires
        faithful_approach(graph, direction, target, given),
        approach_run(direction, given).frontier == Set::<Seq<Seq<char>>>::empty(),
        given.len() <= steps,
    ensures
        entrances(graph, direction, target, steps) == entrances(graph, direction, target, given.len()),
    decreases steps,
{
    let visited = entrances(graph, direction, target, given.len());
    approach_keeps_following(graph, direction, target, given);
    if steps > given.len() {
        closed_approach(graph, direction, target, given, (steps - 1) as nat);
        assert forall|k: Seq<Seq<char>>| before_them(graph, direction, visited).contains(k) implies visited.contains(k) by {
            let edge = choose|edge: StatedEdge| #[trigger]
                graph.contains(edge) && visited.contains(seq![arrives(edge, direction)]) && k == seq![departs(edge, direction)];
            assert(graph.contains(edge));
        }
        assert(entrances(graph, direction, target, steps) =~= visited);
    }
}

proof fn ways_are_added(graph: Set<StatedEdge>, scope: ReachScope, model: ReachModel, given: Seq<Seq<StatedEdge>>, entities: Set<Seq<Seq<char>>>, next: ReachModel)
    requires
        reach_is_right(graph, scope, model, given),
        model.at < scope.targets.len(),
        next.at == model.at + 1,
        next.hop == 0,
        next.reachable == leading(model.reachable, entities, scope.targets[model.at as int]),
        entities == (if repository_of(scope.start) == Some(scope.targets[model.at as int]) {
            set![seq![scope.start]]
        } else {
            entrances(graph, scope.direction, scope.targets[model.at as int], most_steps(scope))
        }),
    ensures
        reach_is_right(graph, scope, next, given),
{
    let new = scope.targets[model.at as int];
    assert forall|entity: Seq<Seq<char>>, target: Seq<char>|
        #[trigger] next.reachable.contains_key(entity) && #[trigger] next.reachable[entity].contains(seq![target]) implies exists|q: int|
        0 <= q < next.at && #[trigger] scope.targets[q] == target by {
        if model.reachable.contains_key(entity) && model.reachable[entity].contains(seq![target]) {
            let q = choose|q: int| 0 <= q < model.at && #[trigger] scope.targets[q] == target;
            assert(scope.targets[q] == target);
        } else {
            assert(seq![target][0] == seq![new][0]);
            assert(scope.targets[model.at as int] == target);
        }
    }
    assert forall|q: int| 0 <= q < next.at implies knows_ways(graph, scope, next, #[trigger] scope.targets[q]) by {
        let target = scope.targets[q];
        assert(seq![target][0] == target && seq![new][0] == new);
        assert forall|entity: Seq<Seq<char>>|
            (#[trigger] next.reachable.contains_key(entity) && next.reachable[entity].contains(seq![target])) <==> if repository_of(
                scope.start,
            ) == Some(target) {
                entity == seq![scope.start]
            } else {
                entrances(graph, scope.direction, target, most_steps(scope)).contains(entity)
            } by {
            if q < model.at {
                assert(knows_ways(graph, scope, model, target));
                assert((model.reachable.contains_key(entity) && model.reachable[entity].contains(seq![target])) <==> if repository_of(
                    scope.start,
                ) == Some(target) {
                    entity == seq![scope.start]
                } else {
                    entrances(graph, scope.direction, target, most_steps(scope)).contains(entity)
                });
            } else {
                if model.reachable.contains_key(entity) && model.reachable[entity].contains(seq![target]) {
                    let p = choose|p: int| 0 <= p < model.at && #[trigger] scope.targets[p] == target;
                    assert(knows_ways(graph, scope, model, scope.targets[p]));
                }
            }
        }
    }
}

proof fn settling_stays_right(graph: Set<StatedEdge>, scope: ReachScope, model: ReachModel, given: Seq<Seq<StatedEdge>>)
    requires
        reach_is_right(graph, scope, model, given),
        model.hop == 0 || model.at < scope.targets.len(),
    ensures
        reach_is_right(graph, scope, settled(scope, model), given),
        ({
            let end = settled(scope, model);
            end.exhausted || end.at >= scope.targets.len() || (end.hop > 0 ==> end.hop < most_steps(scope)) && (end.hop == 0
                ==> repository_of(scope.start) != Some(scope.targets[end.at as int]))
        }),
    decreases scope.targets.len() - model.at, model.hop,
{
    if !(model.exhausted || model.at >= scope.targets.len()) {
        let target = scope.targets[model.at as int];
        if model.hop > 0 {
            if model.hop >= scope.max_hops || model.approach.frontier == Set::<Seq<Seq<char>>>::empty() {
                let next = ReachModel {
                    at: model.at + 1,
                    hop: 0,
                    reachable: leading(model.reachable, model.approach.visited, target),
                    ..model
                };
                let own = given.skip(given.len() - model.hop);
                assert(own.len() == model.hop);
                approaches_visit_the_entrances(graph, scope.direction, target, own);
                if model.hop < scope.max_hops {
                    closed_approach(graph, scope.direction, target, own, most_steps(scope));
                } else {
                    assert(model.hop == most_steps(scope));
                }
                ways_are_added(graph, scope, model, given, model.approach.visited, next);
                settling_stays_right(graph, scope, next, given);
            }
        } else if repository_of(scope.start) == Some(target) {
            let next = ReachModel {
                at: model.at + 1,
                reachable: leading(model.reachable, set![seq![scope.start]], target),
                ..model
            };
            ways_are_added(graph, scope, model, given, set![seq![scope.start]], next);
            settling_stays_right(graph, scope, next, given);
        }
    }
}

proof fn run_stays_right(graph: Set<StatedEdge>, scope: ReachScope, rows: nat, given: Seq<Seq<StatedEdge>>)
    requires
        faithful_reach(graph, scope, rows, given),
    ensures
        ({
            let model = reach_run(scope, rows, given);
            ||| model.exhausted
            ||| {
                &&& reach_is_right(graph, scope, model, given)
                &&& model.at >= scope.targets.len() || (model.hop > 0 ==> model.hop < most_steps(scope)) && (model.hop == 0
                    ==> repository_of(scope.start) != Some(scope.targets[model.at as int]))
            }
        }),
    decreases given.len(),
{
    if given.len() == 0 {
        let begun = ReachModel {
            at: 0,
            hop: 0,
            approach: Approach { frontier: Set::empty(), visited: Set::empty() },
            reachable: Map::empty(),
            remaining: rows,
            exhausted: false,
        };
        assert(reach_is_right(graph, scope, begun, given));
        settling_stays_right(graph, scope, begun, given);
    } else {
        let less = given.drop_last();
        let answer = given.last();
        run_stays_right(graph, scope, rows, less);
        let before = reach_run(scope, rows, less);
        if before.exhausted {
        } else if before.at >= scope.targets.len() {
            assert(reach_is_right(graph, scope, before, given));
        } else if answer.len() <= before.remaining {
            let next = ReachModel {
                hop: before.hop + 1,
                approach: if before.hop == 0 {
                    seeded(answer, scope.direction, answer.len() as int)
                } else {
                    stepped_back(before.approach, answer, scope.direction)
                },
                remaining: (before.remaining - answer.len()) as nat,
                ..before
            };
            let own = given.skip(given.len() - next.hop);
            if before.hop == 0 {
                assert(own =~= seq![answer]);
            } else {
                let earlier = less.skip(less.len() - before.hop);
                assert(own.drop_last() =~= earlier);
                assert(own.last() == answer);
                assert(own.len() == next.hop);
            }
            assert(approach_run(scope.direction, own) == next.approach);
            assert(faithful_approach(graph, scope.direction, scope.targets[before.at as int], own));
            assert forall|q: int| 0 <= q < next.at implies knows_ways(graph, scope, next, #[trigger] scope.targets[q]) by {
                assert(knows_ways(graph, scope, before, scope.targets[q]));
            }
            assert(reach_is_right(graph, scope, next, given));
            settling_stays_right(graph, scope, next, given);
        }
    }
}

/// A search for ways into repositories that was answered faithfully, and whose rows sufficed, knows
/// exactly, when it is done, from which entities each of the repositories can be entered within
/// the allowed hops. A repository that the start lies in is known from the start alone.
pub proof fn searches_know_the_ways_into_repositories(
    graph: Set<StatedEdge>,
    scope: ReachScope,
    rows: nat,
    given: Seq<Seq<StatedEdge>>,
    q: int,
)
    requires
        faithful_reach(graph, scope, rows, given),
        !reach_run(scope, rows, given).exhausted,
        reach_run(scope, rows, given).at >= scope.targets.len(),
        0 <= q < scope.targets.len(),
    ensures
        knows_ways(graph, scope, reach_run(scope, rows, given), scope.targets[q]),
{
    run_stays_right(graph, scope, rows, given);
}

} // verus!
