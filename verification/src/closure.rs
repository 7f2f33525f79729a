//! Breadth-first acquisition of the dependencies around an entity, hop by hop.

use crate::command::Command;
use crate::dependency::{
    arrives, ask_dependencies, closure_header_list, closure_headers, dependencies_asked, leads_to, next_entity, row_states,
    stated, ResolvedDependencyRow,
};
use crate::ids::TextSet;
use crate::paths::TraversalDirection;
use crate::rows::{InspectionResult, InspectionValue};
use crate::semantic::StatedEdge;
use crate::seqs::reversed;
use crate::sorted::{texts, Key, SortedMap};
use vstd::prelude::*;

verus! {

/// The entities that some dependencies lead to.
pub open spec fn led_to(edges: Seq<StatedEdge>, direction: TraversalDirection) -> Set<Seq<Seq<char>>> {
    Set::new(|k: Seq<Seq<char>>| exists|i: int| 0 <= i < edges.len() && k == seq![leads_to(#[trigger] edges[i], direction)])
}

/// One more dependency leads to one more entity.
proof fn led_to_push(edges: Seq<StatedEdge>, k: int, direction: TraversalDirection)
    requires
        0 <= k < edges.len(),
    ensures
        led_to(edges.take(k + 1), direction) == led_to(edges.take(k), direction).insert(seq![leads_to(edges[k], direction)]),
{
    let more = edges.take(k + 1);
    let less = edges.take(k);
    assert forall|x: Seq<Seq<char>>| led_to(more, direction).contains(x) <==> led_to(less, direction).insert(
        seq![leads_to(edges[k], direction)],
    ).contains(x) by {
        if led_to(more, direction).contains(x) {
            let i = choose|i: int| 0 <= i < more.len() && x == seq![leads_to(#[trigger] more[i], direction)];
            if i < k {
                assert(less[i] == more[i]);
            }
        }
        if led_to(less, direction).contains(x) {
            let i = choose|i: int| 0 <= i < less.len() && x == seq![leads_to(#[trigger] less[i], direction)];
            assert(less[i] == more[i]);
        }
        if x == seq![leads_to(edges[k], direction)] {
            assert(more[k] == edges[k]);
        }
    }
    assert(led_to(more, direction) =~= led_to(less, direction).insert(seq![leads_to(edges[k], direction)]));
}

/// A set of one text.
pub fn only(text: &str) -> (r: TextSet)
    ensures
        r.wf(),
        r@.dom() == set![seq![text@]],
{
    let mut set: TextSet = SortedMap::new();
    set.insert(text.to_owned(), ());
    assert(set@.dom() =~= set![seq![text@]]);
    set
}

/// Whether a set holds nothing.
pub fn is_empty(set: &TextSet) -> (r: bool)
    requires
        set.wf(),
    ensures
        r == (set@.dom() == Set::<Seq<Seq<char>>>::empty()),
{
    if set.keys.len() == 0 {
        assert(set@.dom() =~= Set::<Seq<Seq<char>>>::empty());
        true
    } else {
        proof {
            set.entry(0);
        }
        false
    }
}

/// Collects the entities that the dependencies lead to and that were not visited before, and
/// marks them as visited.
pub fn discover(rows: &Vec<ResolvedDependencyRow>, direction: TraversalDirection, visited: &mut TextSet) -> (r: TextSet)
    requires
        old(visited).wf(),
    ensures
        r.wf(),
        final(visited).wf(),
        r@.dom() == led_to(stated(rows@), direction).difference(old(visited)@.dom()),
        final(visited)@.dom() == old(visited)@.dom().union(led_to(stated(rows@), direction)),
{
    let mut next: TextSet = SortedMap::new();
    let ghost before = visited@.dom();
    let ghost edges = stated(rows@);
    let mut i: usize = 0;
    proof {
        assert(led_to(edges.take(0), direction) =~= Set::<Seq<Seq<char>>>::empty());
        assert(next@.dom() =~= led_to(edges.take(0), direction).difference(before));
        assert(visited@.dom() =~= before.union(led_to(edges.take(0), direction)));
    }
    while i < rows.len()
        invariant
            i <= rows@.len(),
            edges == stated(rows@),
            next.wf(),
            visited.wf(),
            next@.dom() == led_to(edges.take(i as int), direction).difference(before),
            visited@.dom() == before.union(led_to(edges.take(i as int), direction)),
        decreases rows@.len() - i,
    {
        let entity: &String = next_entity(&rows[i], direction);
        proof {
            led_to_push(edges, i as int, direction);
            assert(edges[i as int] == rows@[i as int]@);
        }
        let ghost k = seq![entity@];
        if !visited.contains_key(entity) {
            visited.insert(entity.clone(), ());
            next.insert(entity.clone(), ());
        }
        proof {
            let led = led_to(edges.take(i as int + 1), direction);
            assert(entity.key() == k);
            assert(next@.dom() =~= led.difference(before));
            assert(visited@.dom() =~= before.union(led));
        }
        i = i + 1;
    }
    assert(edges.take(edges.len() as int) =~= edges);
    next
}

/// How far a closure has got.
pub ghost struct ClosureModel {
    pub hops: nat,
    pub frontier: Set<Seq<Seq<char>>>,
    pub visited: Set<Seq<Seq<char>>>,
    pub found: Seq<(nat, StatedEdge)>,
    pub done: bool,
}

/// A closure before its first hop.
pub open spec fn closure_started(entity: Seq<char>) -> ClosureModel {
    ClosureModel { hops: 0, frontier: set![seq![entity]], visited: set![seq![entity]], found: Seq::empty(), done: false }
}

/// Dependencies with the number of hops after which they were found.
pub open spec fn at_hops(hops: nat, edges: Seq<StatedEdge>) -> Seq<(nat, StatedEdge)> {
    edges.map_values(|edge: StatedEdge| (hops, edge))
}

/// The first of the dependencies from `at` on that leads to an entity not yet visited.
pub open spec fn first_beyond(edges: Seq<StatedEdge>, direction: TraversalDirection, visited: Set<Seq<Seq<char>>>, at: int) -> Option<int>
    decreases edges.len() - at,
{
    if at >= edges.len() {
        None
    } else if !visited.contains(seq![leads_to(edges[at], direction)]) {
        Some(at)
    } else {
        first_beyond(edges, direction, visited, at + 1)
    }
}

/// Some dependency leads beyond exactly when one is found.
pub proof fn first_beyond_found(edges: Seq<StatedEdge>, direction: TraversalDirection, visited: Set<Seq<Seq<char>>>, at: int)
    requires
        0 <= at,
    ensures
        first_beyond(edges, direction, visited, at) is Some ==> at <= first_beyond(edges, direction, visited, at)->0 < edges.len()
            && !visited.contains(seq![leads_to(edges[first_beyond(edges, direction, visited, at)->0], direction)]),
        first_beyond(edges, direction, visited, at) is None ==> forall|i: int|
            at <= i < edges.len() ==> visited.contains(seq![leads_to(#[trigger] edges[i], direction)]),
    decreases edges.len() - at,
{
    if at < edges.len() && visited.contains(seq![leads_to(edges[at], direction)]) {
        first_beyond_found(edges, direction, visited, at + 1);
    }
}

/// A closure after one more answer. On the last hop only one dependency is kept, to show that
/// something lies beyond.
pub open spec fn closure_step(model: ClosureModel, direction: TraversalDirection, max_hops: nat, answer: Seq<StatedEdge>) -> ClosureModel {
    if model.done {
        model
    } else if model.hops >= max_hops {
        ClosureModel {
            found: match first_beyond(answer, direction, model.visited, 0) {
                Some(i) => model.found.push((model.hops, answer[i])),
                None => model.found,
            },
            done: true,
            ..model
        }
    } else {
        let next = led_to(answer, direction).difference(model.visited);
        let more = ClosureModel {
            visited: model.visited.union(led_to(answer, direction)),
            found: model.found + at_hops(model.hops, answer),
            ..model
        };
        if next == Set::<Seq<Seq<char>>>::empty() {
            ClosureModel { done: true, ..more }
        } else {
            ClosureModel { hops: model.hops + 1, frontier: next, ..more }
        }
    }
}

/// The acquisition of all dependencies within some hops of an entity. It asks for the
/// dependencies around its frontier and takes in the answers, until it is done.
pub struct Closure {
    direction: TraversalDirection,
    max_hops: u32,
    hops: u32,
    frontier: TextSet,
    visited: TextSet,
    found: Vec<(u32, ResolvedDependencyRow)>,
    done: bool,
}

/// The dependencies found, with their hops.
pub open spec fn found_models(found: Seq<(u32, ResolvedDependencyRow)>) -> Seq<(nat, StatedEdge)> {
    found.map_values(|row: (u32, ResolvedDependencyRow)| (row.0 as nat, row.1@))
}

impl View for Closure {
    type V = ClosureModel;

    closed spec fn view(&self) -> ClosureModel {
        ClosureModel {
            hops: self.hops as nat,
            frontier: self.frontier@.dom(),
            visited: self.visited@.dom(),
            found: found_models(self.found@),
            done: self.done,
        }
    }
}

impl Closure {
    /// Frontier and visited entities are sets.
    pub closed spec fn wf(&self) -> bool {
        &&& self.frontier.wf()
        &&& self.visited.wf()
        &&& self.hops <= self.max_hops
    }

    /// Which way dependencies are followed.
    pub closed spec fn way(&self) -> TraversalDirection {
        self.direction
    }

    /// How many hops are allowed.
    pub closed spec fn limit(&self) -> nat {
        self.max_hops as nat
    }

    /// The entities of the frontier, in order.
    pub closed spec fn asked_for(&self) -> Seq<Seq<char>> {
        texts(self.frontier.keys@)
    }

    /// What is asked for is the frontier.
    pub proof fn asks_for_frontier(&self)
        requires
            self.wf(),
        ensures
            forall|id: Seq<char>| self.asked_for().contains(id) <==> #[trigger] self@.frontier.contains(seq![id]),
    {
        assert forall|id: Seq<char>| self.asked_for().contains(id) <==> #[trigger] self@.frontier.contains(seq![id]) by {
            if self.asked_for().contains(id) {
                let i = choose|i: int| 0 <= i < self.asked_for().len() && self.asked_for()[i] == id;
                self.frontier.entry(i);
                assert(self.frontier.keys@[i].key() == seq![id]);
            }
            if self@.frontier.contains(seq![id]) {
                let i = self.frontier.position(seq![id]);
                assert(self.frontier.keys@[i].key()[0] == seq![id][0]);
                assert(self.asked_for()[i] == id);
            }
        }
    }

    /// Starts at an entity.
    pub fn start(entity: &str, max_hops: u32, direction: TraversalDirection) -> (r: Closure)
        ensures
            r.wf(),
            r@ == closure_started(entity@),
            r.way() == direction,
            r.limit() == max_hops,
    {
        let closure: Closure = Closure {
            direction,
            max_hops,
            hops: 0,
            frontier: only(entity),
            visited: only(entity),
            found: Vec::new(),
            done: false,
        };
        assert(closure@.found =~= Seq::<(nat, StatedEdge)>::empty());
        closure
    }

    /// Whether nothing more is to be asked.
    pub fn is_done(&self) -> (r: bool)
        ensures
            r == self@.done,
    {
        self.done
    }

    /// Asks for the dependencies around the frontier.
    pub fn request(&self, view: &str) -> (r: Command)
        ensures
            r@ == dependencies_asked(view@, self.way(), self.asked_for(), i64::MAX as int),
    {
        ask_dependencies(view, self.direction, &self.frontier.keys, i64::MAX)
    }

    /// Takes in the answer to what was asked.
    pub fn receive(&mut self, answer: Vec<ResolvedDependencyRow>)
        requires
            old(self).wf(),
        ensures
            final(self).wf(),
            final(self)@ == closure_step(old(self)@, old(self).way(), old(self).limit(), stated(answer@)),
            final(self).way() == old(self).way(),
            final(self).limit() == old(self).limit(),
    {
        if self.done {
            return;
        }
        let ghost edges = stated(answer@);
        let ghost before = self@;
        if self.hops >= self.max_hops {
            self.keep_first_beyond(answer);
            return;
        }
        let next: TextSet = discover(&answer, self.direction, &mut self.visited);
        let hops: u32 = self.hops;
        let ghost found = self.found@;
        let mut tagged: Vec<(u32, ResolvedDependencyRow)> = tag(hops, answer);
        self.found.append(&mut tagged);
        proof {
            assert(found_models(self.found@) =~= found_models(found) + at_hops(hops as nat, edges));
        }
        if is_empty(&next) {
            self.done = true;
        } else {
            self.frontier = next;
            self.hops = hops + 1;
        }
        proof {
            let after = closure_step(before, self.way(), self.limit(), edges);
            assert(self@.found == after.found);
            assert(self@.visited =~= after.visited);
            assert(self@.frontier =~= after.frontier);
        }
    }

    fn keep_first_beyond(&mut self, answer: Vec<ResolvedDependencyRow>)
        requires
            old(self).wf(),
            !old(self).done,
            old(self).hops >= old(self).max_hops,
        ensures
            final(self).wf(),
            final(self)@ == closure_step(old(self)@, old(self).way(), old(self).limit(), stated(answer@)),
            final(self).way() == old(self).way(),
            final(self).limit() == old(self).limit(),
    {
        let ghost edges = stated(answer@);
        let ghost before = *self;
        let mut rest: Vec<ResolvedDependencyRow> = answer;
        let mut i: usize = 0;
        while i < rest.len()
            invariant
                i <= rest@.len(),
                edges == stated(rest@),
                edges == stated(answer@),
                before == *old(self),
                *self == before,
                self.wf(),
                !before.done,
                before.hops >= before.max_hops,
                first_beyond(edges, self.direction, self.visited@.dom(), 0) == first_beyond(
                    edges,
                    self.direction,
                    self.visited@.dom(),
                    i as int,
                ),
            decreases rest@.len() - i,
        {
            let entity: &String = next_entity(&rest[i], self.direction);
            assert(edges[i as int] == rest@[i as int]@);
            assert(entity.key() == seq![entity@]);
            if !self.visited.contains_key(entity) {
                let ghost found = self.found@;
                let row: ResolvedDependencyRow = rest.remove(i);
                let ghost kept = row@;
                self.found.push((self.hops, row));
                self.done = true;
                proof {
                    assert(found_models(self.found@) =~= found_models(found).push((before.hops as nat, kept)));
                }
                return;
            }
            i = i + 1;
        }
        self.done = true;
    }

    /// The rows found, each with the number of hops after which it was found.
    pub fn finish(self) -> (r: InspectionResult)
        ensures
            texts(r.headers@) == closure_headers(),
            r.next is None,
            rows_state(r.rows@, self@.found),
    {
        let rows: Vec<Vec<InspectionValue>> = state_rows(self.found);
        InspectionResult { headers: closure_header_list(), rows, next: None }
    }
}

/// Notes for each dependency after how many hops it was found.
pub fn tag(hops: u32, rows: Vec<ResolvedDependencyRow>) -> (r: Vec<(u32, ResolvedDependencyRow)>)
    ensures
        found_models(r@) == at_hops(hops as nat, stated(rows@)),
{
    let ghost edges = stated(rows@);
    let mut rest: Vec<ResolvedDependencyRow> = rows;
    let mut tagged: Vec<(u32, ResolvedDependencyRow)> = Vec::new();
    while rest.len() > 0
        invariant
            edges.len() == rest@.len() + tagged@.len(),
            forall|i: int| 0 <= i < rest@.len() ==> (#[trigger] rest@[i])@ == edges[i],
            forall|i: int|
                0 <= i < tagged@.len() ==> (#[trigger] tagged@[i]).1@ == edges[edges.len() - 1 - i] && tagged@[i].0 == hops,
        decreases rest@.len(),
    {
        match rest.pop() {
            Some(row) => {
                tagged.push((hops, row));
            },
            None => {},
        }
    }
    let ordered: Vec<(u32, ResolvedDependencyRow)> = reversed(tagged);
    assert(found_models(ordered@) =~= at_hops(hops as nat, edges));
    ordered
}

/// Whether rows state dependencies, one for one.
pub open spec fn rows_state(rows: Seq<Vec<InspectionValue>>, found: Seq<(nat, StatedEdge)>) -> bool {
    &&& rows.len() == found.len()
    &&& forall|i: int| 0 <= i < rows.len() ==> row_states((#[trigger] rows[i])@, found[i].0 as int, found[i].1)
}

/// States dependencies in rows, one for one.
pub fn state_rows(found: Vec<(u32, ResolvedDependencyRow)>) -> (r: Vec<Vec<InspectionValue>>)
    ensures
        rows_state(r@, found_models(found@)),
{
    let ghost edges = found_models(found@);
    let mut rest: Vec<(u32, ResolvedDependencyRow)> = found;
    let mut back: Vec<Vec<InspectionValue>> = Vec::new();
    while rest.len() > 0
        invariant
            edges.len() == rest@.len() + back@.len(),
            forall|i: int| 0 <= i < rest@.len() ==> ((#[trigger] rest@[i]).0 as nat, rest@[i].1@) == edges[i],
            forall|i: int|
                0 <= i < back@.len() ==> row_states(
                    (#[trigger] back@[i])@,
                    edges[edges.len() - 1 - i].0 as int,
                    edges[edges.len() - 1 - i].1,
                ),
        decreases rest@.len(),
    {
        match rest.pop() {
            Some((hops, row)) => {
                assert((hops as nat, row@) == edges[rest@.len() as int]);
                back.push(row.into_values(hops));
            },
            None => {},
        }
    }
    reversed(back)
}

/// Whether a dependency is among those asked for around a frontier.
pub open spec fn asked(edge: StatedEdge, direction: TraversalDirection, frontier: Set<Seq<Seq<char>>>) -> bool {
    match direction {
        TraversalDirection::Outgoing => frontier.contains(seq![edge.from]),
        TraversalDirection::Incoming => frontier.contains(seq![edge.to]) || (edge.relation == "implemented_by"@
            && "grpc://"@.is_prefix_of(edge.from) && frontier.contains(seq![edge.from])),
    }
}

/// Whether an answer holds exactly the dependencies of a graph that are asked for around a
/// frontier.
pub open spec fn answers(graph: Set<StatedEdge>, direction: TraversalDirection, frontier: Set<Seq<Seq<char>>>, answer: Seq<StatedEdge>) -> bool {
    forall|edge: StatedEdge| #[trigger] answer.contains(edge) <==> graph.contains(edge) && asked(edge, direction, frontier)
}

/// A closure after some answers.
pub open spec fn closure_run(entity: Seq<char>, direction: TraversalDirection, max_hops: nat, given: Seq<Seq<StatedEdge>>) -> ClosureModel
    decreases given.len(),
{
    if given.len() == 0 {
        closure_started(entity)
    } else {
        closure_step(closure_run(entity, direction, max_hops, given.drop_last()), direction, max_hops, given.last())
    }
}

/// Whether each answer was one to what the closure had asked by then.
pub open spec fn faithful(
    graph: Set<StatedEdge>,
    entity: Seq<char>,
    direction: TraversalDirection,
    max_hops: nat,
    given: Seq<Seq<StatedEdge>>,
) -> bool
    decreases given.len(),
{
    given.len() == 0 || {
        let before = closure_run(entity, direction, max_hops, given.drop_last());
        &&& faithful(graph, entity, direction, max_hops, given.drop_last())
        &&& before.done || answers(graph, direction, before.frontier, given.last())
    }
}

/// The entities that the dependencies around some entities lead to.
pub open spec fn around(graph: Set<StatedEdge>, direction: TraversalDirection, from: Set<Seq<Seq<char>>>) -> Set<Seq<Seq<char>>> {
    Set::new(
        |k: Seq<Seq<char>>|
            exists|edge: StatedEdge|
                #[trigger] graph.contains(edge) && asked(edge, direction, from) && k == seq![arrives(edge, direction)],
    )
}

/// The entities within some hops of an entity.
pub open spec fn ball(graph: Set<StatedEdge>, direction: TraversalDirection, entity: Seq<char>, hops: nat) -> Set<Seq<Seq<char>>>
    decreases hops,
{
    if hops == 0 {
        set![seq![entity]]
    } else {
        let inner = ball(graph, direction, entity, (hops - 1) as nat);
        inner.union(around(graph, direction, inner))
    }
}

/// A faithful answer leads to what lies around the frontier.
pub proof fn answer_leads_around(graph: Set<StatedEdge>, direction: TraversalDirection, frontier: Set<Seq<Seq<char>>>, answer: Seq<StatedEdge>)
    requires
        answers(graph, direction, frontier, answer),
    ensures
        led_to(answer, direction) == around(graph, direction, frontier),
{
    assert forall|k: Seq<Seq<char>>| led_to(answer, direction).contains(k) <==> around(graph, direction, frontier).contains(k) by {
        if led_to(answer, direction).contains(k) {
            let i = choose|i: int| 0 <= i < answer.len() && k == seq![leads_to(#[trigger] answer[i], direction)];
            assert(answer.contains(answer[i]));
            assert(graph.contains(answer[i]));
        }
        if around(graph, direction, frontier).contains(k) {
            let edge = choose|edge: StatedEdge|
                #[trigger] graph.contains(edge) && asked(edge, direction, frontier) && k == seq![leads_to(edge, direction)];
            assert(answer.contains(edge));
            let i = choose|i: int| 0 <= i < answer.len() && answer[i] == edge;
            assert(k == seq![leads_to(answer[i], direction)]);
        }
    }
    assert(led_to(answer, direction) =~= around(graph, direction, frontier));
}

/// Whether exactly the dependencies asked for by entities nearer than some hops were found.
pub open spec fn collected(
    found: Seq<(nat, StatedEdge)>,
    graph: Set<StatedEdge>,
    direction: TraversalDirection,
    entity: Seq<char>,
    hops: nat,
) -> bool {
    &&& forall|i: int|
        0 <= i < found.len() ==> {
            &&& (#[trigger] found[i]).0 < hops
            &&& graph.contains(found[i].1)
            &&& asked(found[i].1, direction, ball(graph, direction, entity, (hops - 1) as nat))
        }
    &&& forall|edge: StatedEdge|
        #[trigger] graph.contains(edge) && hops > 0 && asked(edge, direction, ball(graph, direction, entity, (hops - 1) as nat))
            ==> holds(found, edge)
}

/// Whether a dependency was found.
pub open spec fn holds(found: Seq<(nat, StatedEdge)>, edge: StatedEdge) -> bool {
    exists|i: int| 0 <= i < found.len() && (#[trigger] found[i]).1 == edge
}

/// What holds of a closure that is not done.
spec fn on_the_way(model: ClosureModel, graph: Set<StatedEdge>, direction: TraversalDirection, entity: Seq<char>, max_hops: nat) -> bool {
    let outer = ball(graph, direction, entity, model.hops);
    &&& model.hops <= max_hops
    &&& model.visited == outer
    &&& collected(model.found, graph, direction, entity, model.hops)
    &&& if model.hops == 0 {
        model.frontier == outer
    } else {
        let inner = ball(graph, direction, entity, (model.hops - 1) as nat);
        model.frontier == outer.difference(inner)
    }
}

/// What holds of a closure that is done.
spec fn completed(model: ClosureModel, graph: Set<StatedEdge>, direction: TraversalDirection, entity: Seq<char>, max_hops: nat) -> bool {
    let reach = ball(graph, direction, entity, max_hops);
    let kept = model.found.len() - 1;
    ||| collected(model.found, graph, direction, entity, max_hops) && around(graph, direction, reach).subset_of(reach)
    ||| {
        &&& kept >= 0
        &&& collected(model.found.take(kept), graph, direction, entity, max_hops)
        &&& model.found[kept].0 == max_hops
        &&& graph.contains(model.found[kept].1)
        &&& asked(model.found[kept].1, direction, reach)
        &&& !reach.contains(seq![leads_to(model.found[kept].1, direction)])
    }
}

/// What lies around two sets of entities lies around one or the other.
pub proof fn around_union(graph: Set<StatedEdge>, direction: TraversalDirection, a: Set<Seq<Seq<char>>>, b: Set<Seq<Seq<char>>>)
    ensures
        around(graph, direction, a.union(b)) == around(graph, direction, a).union(around(graph, direction, b)),
{
    let joint = around(graph, direction, a.union(b));
    let apart = around(graph, direction, a).union(around(graph, direction, b));
    assert forall|k: Seq<Seq<char>>| joint.contains(k) <==> apart.contains(k) by {
        if joint.contains(k) {
            let edge = choose|edge: StatedEdge|
                #[trigger] graph.contains(edge) && asked(edge, direction, a.union(b)) && k == seq![leads_to(edge, direction)];
            assert(asked(edge, direction, a) || asked(edge, direction, b));
        }
        if around(graph, direction, a).contains(k) {
            let edge = choose|edge: StatedEdge|
                #[trigger] graph.contains(edge) && asked(edge, direction, a) && k == seq![leads_to(edge, direction)];
            assert(asked(edge, direction, a.union(b)));
        }
        if around(graph, direction, b).contains(k) {
            let edge = choose|edge: StatedEdge|
                #[trigger] graph.contains(edge) && asked(edge, direction, b) && k == seq![leads_to(edge, direction)];
            assert(asked(edge, direction, a.union(b)));
        }
    }
    assert(joint =~= apart);
}

/// Where nothing new lies around the entities within some hops, nothing new lies further out.
proof fn ball_settles(graph: Set<StatedEdge>, direction: TraversalDirection, entity: Seq<char>, hops: nat, more: nat)
    requires
        hops <= more,
        around(graph, direction, ball(graph, direction, entity, hops)).subset_of(ball(graph, direction, entity, hops)),
    ensures
        ball(graph, direction, entity, more) == ball(graph, direction, entity, hops),
    decreases more,
{
    if hops < more {
        ball_settles(graph, direction, entity, hops, (more - 1) as nat);
        assert(ball(graph, direction, entity, more) =~= ball(graph, direction, entity, hops));
    }
}

proof fn frontier_leads_on(model: ClosureModel, graph: Set<StatedEdge>, direction: TraversalDirection, entity: Seq<char>, max_hops: nat)
    requires
        on_the_way(model, graph, direction, entity, max_hops),
    ensures
        model.visited.union(around(graph, direction, model.frontier)) == ball(graph, direction, entity, model.hops + 1),
        around(graph, direction, model.frontier).difference(model.visited) == around(graph, direction, model.visited).difference(
            model.visited,
        ),
{
    let outer = ball(graph, direction, entity, model.hops);
    if model.hops > 0 {
        let inner = ball(graph, direction, entity, (model.hops - 1) as nat);
        around_union(graph, direction, inner, model.frontier);
        assert(inner.union(model.frontier) =~= outer);
        assert(around(graph, direction, inner).subset_of(outer));
    }
    assert(model.visited.union(around(graph, direction, model.frontier)) =~= ball(graph, direction, entity, model.hops + 1));
    assert(around(graph, direction, model.frontier).difference(model.visited) =~= around(graph, direction, model.visited).difference(
        model.visited,
    ));
}

proof fn collected_more(
    model: ClosureModel,
    graph: Set<StatedEdge>,
    direction: TraversalDirection,
    entity: Seq<char>,
    max_hops: nat,
    answer: Seq<StatedEdge>,
)
    requires
        on_the_way(model, graph, direction, entity, max_hops),
        answers(graph, direction, model.frontier, answer),
    ensures
        collected(model.found + at_hops(model.hops, answer), graph, direction, entity, model.hops + 1),
{
    let outer = ball(graph, direction, entity, model.hops);
    let tagged = at_hops(model.hops, answer);
    let all = model.found + tagged;
    let inner = if model.hops == 0 {
        Set::<Seq<Seq<char>>>::empty()
    } else {
        ball(graph, direction, entity, (model.hops - 1) as nat)
    };
    assert(inner.union(model.frontier) =~= outer);
    assert forall|i: int| 0 <= i < all.len() implies {
        &&& (#[trigger] all[i]).0 < model.hops + 1
        &&& graph.contains(all[i].1)
        &&& asked(all[i].1, direction, outer)
    } by {
        if i < model.found.len() {
            assert(all[i] == model.found[i]);
            assert(asked(all[i].1, direction, inner));
        } else {
            let j = i - model.found.len();
            assert(all[i] == (model.hops, answer[j]));
            assert(answer.contains(answer[j]));
        }
    }
    assert forall|edge: StatedEdge| #[trigger] graph.contains(edge) && asked(edge, direction, outer) implies holds(all, edge) by {
        if asked(edge, direction, inner) {
            assert(holds(model.found, edge));
            let i = choose|i: int| 0 <= i < model.found.len() && (#[trigger] model.found[i]).1 == edge;
            assert(all[i].1 == edge);
        } else {
            assert(asked(edge, direction, model.frontier));
            assert(answer.contains(edge));
            let j = choose|j: int| 0 <= j < answer.len() && answer[j] == edge;
            assert(all[model.found.len() + j] == (model.hops, answer[j]));
        }
    }
}

proof fn step_keeps_way(
    model: ClosureModel,
    graph: Set<StatedEdge>,
    direction: TraversalDirection,
    entity: Seq<char>,
    max_hops: nat,
    answer: Seq<StatedEdge>,
)
    requires
        !model.done,
        on_the_way(model, graph, direction, entity, max_hops),
        answers(graph, direction, model.frontier, answer),
    ensures
        ({
            let after = closure_step(model, direction, max_hops, answer);
            if after.done {
                completed(after, graph, direction, entity, max_hops)
            } else {
                on_the_way(after, graph, direction, entity, max_hops)
            }
        }),
{
    let after = closure_step(model, direction, max_hops, answer);
    let outer = ball(graph, direction, entity, model.hops);
    answer_leads_around(graph, direction, model.frontier, answer);
    frontier_leads_on(model, graph, direction, entity, max_hops);
    if model.hops >= max_hops {
        first_beyond_found(answer, direction, model.visited, 0);
        match first_beyond(answer, direction, model.visited, 0) {
            Some(i) => {
                let kept = after.found.len() - 1;
                assert(after.found.take(kept) =~= model.found);
                assert(after.found[kept] == (model.hops, answer[i]));
                assert(answer.contains(answer[i]));
                assert(asked(answer[i], direction, model.visited));
            },
            None => {
                assert forall|k: Seq<Seq<char>>| around(graph, direction, outer).contains(k) implies outer.contains(k) by {
                    if !outer.contains(k) {
                        assert(around(graph, direction, outer).difference(outer).contains(k));
                        assert(led_to(answer, direction).contains(k));
                    }
                }
            },
        }
    } else {
        collected_more(model, graph, direction, entity, max_hops, answer);
        let next = led_to(answer, direction).difference(model.visited);
        if next == Set::<Seq<Seq<char>>>::empty() {
            assert forall|k: Seq<Seq<char>>| around(graph, direction, outer).contains(k) implies outer.contains(k) by {
                if !outer.contains(k) {
                    assert(around(graph, direction, outer).difference(outer).contains(k));
                    assert(next.contains(k));
                }
            }
            ball_settles(graph, direction, entity, model.hops, max_hops);
            ball_settles(graph, direction, entity, model.hops, (max_hops - 1) as nat);
            assert(collected(after.found, graph, direction, entity, max_hops));
        } else {
            assert(after.visited =~= ball(graph, direction, entity, after.hops));
            assert(after.frontier =~= after.visited.difference(outer));
        }
    }
}

proof fn run_keeps_way(graph: Set<StatedEdge>, entity: Seq<char>, direction: TraversalDirection, max_hops: nat, given: Seq<Seq<StatedEdge>>)
    requires
        faithful(graph, entity, direction, max_hops, given),
    ensures
        ({
            let model = closure_run(entity, direction, max_hops, given);
            if model.done {
                completed(model, graph, direction, entity, max_hops)
            } else {
                on_the_way(model, graph, direction, entity, max_hops)
            }
        }),
    decreases given.len(),
{
    if given.len() > 0 {
        run_keeps_way(graph, entity, direction, max_hops, given.drop_last());
        let before = closure_run(entity, direction, max_hops, given.drop_last());
        if !before.done {
            step_keeps_way(before, graph, direction, entity, max_hops, given.last());
        }
    }
}

/// A closure that was answered faithfully has found, when it is done, every dependency asked
/// for by an entity nearer than the allowed hops, and besides those at most one more. That one
/// is there exactly when some dependency leads beyond the allowed hops.
pub proof fn closures_cover_the_neighbourhood(
    graph: Set<StatedEdge>,
    entity: Seq<char>,
    direction: TraversalDirection,
    max_hops: nat,
    given: Seq<Seq<StatedEdge>>,
)
    requires
        faithful(graph, entity, direction, max_hops, given),
        closure_run(entity, direction, max_hops, given).done,
    ensures
        ({
            let found = closure_run(entity, direction, max_hops, given).found;
            let reach = ball(graph, direction, entity, max_hops);
            let beyond = !around(graph, direction, reach).subset_of(reach);
            let near = if beyond {
                found.take(found.len() - 1)
            } else {
                found
            };
            &&& collected(near, graph, direction, entity, max_hops)
            &&& beyond ==> {
                &&& found.len() > 0
                &&& found.last().0 == max_hops
                &&& graph.contains(found.last().1)
                &&& !reach.contains(seq![arrives(found.last().1, direction)])
            }
        }),
{
    run_keeps_way(graph, entity, direction, max_hops, given);
    let model = closure_run(entity, direction, max_hops, given);
    let reach = ball(graph, direction, entity, max_hops);
    let kept = model.found.len() - 1;
    if !(collected(model.found, graph, direction, entity, max_hops) && around(graph, direction, reach).subset_of(reach)) {
        let edge = model.found[kept].1;
        assert(around(graph, direction, reach).contains(seq![leads_to(edge, direction)]));
    }
}

/// Each answer that does not end a closure takes it one hop further, so it is done after as
/// many answers as hops are allowed, and one more.
pub proof fn closures_end(entity: Seq<char>, direction: TraversalDirection, max_hops: nat, given: Seq<Seq<StatedEdge>>)
    ensures
        ({
            let model = closure_run(entity, direction, max_hops, given);
            &&& model.hops <= max_hops
            &&& !model.done ==> model.hops == given.len()
            &&& given.len() > max_hops ==> model.done
        }),
    decreases given.len(),
{
    if given.len() > 0 {
        closures_end(entity, direction, max_hops, given.drop_last());
    }
}

} // verus!
