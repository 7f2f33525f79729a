//! Acquisition of the dependencies that the paths of a traversal may run through.

use crate::closure::{around, asked, discover, found_models, holds, is_empty, led_to, only, tag, at_hops, answers};
use crate::command::Command;
use crate::dependency::{ask_dependencies, dependencies_asked, stated, ResolvedDependencyRow};
use crate::domain::optional_text;
use crate::ids::TextSet;
use crate::paths::TraversalDirection;
use crate::semantic::StatedEdge;
use crate::seqs::{keep, keep_step, reversed};
use crate::sorted::{texts, Key, SortedMap};
use crate::text::same;
use vstd::prelude::*;

verus! {

/// Whether two dependencies run between the same entities in the same relation.
pub open spec fn same_link(a: StatedEdge, b: StatedEdge) -> bool {
    a.from == b.from && a.to == b.to && a.relation == b.relation
}

/// The dependencies of an answer that are kept when only so many rows remain. A link that does
/// not come whole is left out.
pub open spec fn fitting(answer: Seq<StatedEdge>, remaining: nat) -> Seq<StatedEdge> {
    if answer.len() > remaining {
        keep(answer.take(remaining as int), |edge: StatedEdge| !same_link(edge, answer[remaining as int]))
    } else {
        answer
    }
}

/// What is kept of a list is no more than the list.
pub proof fn keep_bounded<A>(list: Seq<A>, wanted: spec_fn(A) -> bool)
    ensures
        keep(list, wanted).len() <= list.len(),
        forall|i: int| 0 <= i < keep(list, wanted).len() ==> list.contains(#[trigger] keep(list, wanted)[i]),
    decreases list.len(),
{
    if list.len() > 0 {
        keep_bounded(list.drop_last(), wanted);
        assert forall|i: int| 0 <= i < keep(list, wanted).len() implies list.contains(#[trigger] keep(list, wanted)[i]) by {
            let kept = keep(list.drop_last(), wanted);
            if i < kept.len() {
                assert(keep(list, wanted)[i] == kept[i]);
                let j = choose|j: int| 0 <= j < list.drop_last().len() && list.drop_last()[j] == kept[i];
                assert(list[j] == kept[i]);
            } else {
                assert(list[list.len() - 1] == list.last());
            }
        }
    }
}

/// Leaves out of an answer what does not fit in the remaining rows.
fn fit(answer: Vec<ResolvedDependencyRow>, remaining: usize) -> (r: Vec<ResolvedDependencyRow>)
    ensures
        stated(r@) == fitting(stated(answer@), remaining as nat),
{
    if answer.len() <= remaining {
        return answer;
    }
    let ghost edges = stated(answer@);
    let ghost wanted = |edge: StatedEdge| !same_link(edge, edges[remaining as int]);
    let from: String = answer[remaining].from.clone();
    let to: String = answer[remaining].to.clone();
    let relation: String = answer[remaining].relation.clone();
    let mut rest: Vec<ResolvedDependencyRow> = answer;
    rest.truncate(remaining);
    let ghost head = edges.take(remaining as int);
    assert(stated(rest@) =~= head);
    let mut backward: Vec<ResolvedDependencyRow> = reversed(rest);
    let mut kept: Vec<ResolvedDependencyRow> = Vec::new();
    let ghost mut k: int = 0;
    proof {
        assert(stated(kept@) =~= keep(head.take(0), wanted));
        assert forall|j: int| 0 <= j < backward@.len() implies (#[trigger] backward@[j])@ == head[head.len() - 1 - j] by {
            assert(backward@[j] == rest@[rest@.len() - 1 - j]);
            assert(stated(rest@)[rest@.len() - 1 - j] == rest@[rest@.len() - 1 - j]@);
        }
    }
    while backward.len() > 0
        invariant
            0 <= k <= head.len(),
            backward@.len() == head.len() - k,
            forall|j: int| 0 <= j < backward@.len() ==> (#[trigger] backward@[j])@ == head[head.len() - 1 - j],
            stated(kept@) == keep(head.take(k), wanted),
            wanted == (|edge: StatedEdge| !same_link(edge, edges[remaining as int])),
            from@ == edges[remaining as int].from,
            to@ == edges[remaining as int].to,
            relation@ == edges[remaining as int].relation,
        decreases backward@.len(),
    {
        match backward.pop() {
            Some(row) => {
                proof {
                    assert(row@ == head[k]);
                    keep_step(head, k, wanted);
                    k = k + 1;
                }
                let cut: bool = same(row.from.as_str(), from.as_str()) && same(row.to.as_str(), to.as_str()) && same(
                    row.relation.as_str(),
                    relation.as_str(),
                );
                if !cut {
                    let ghost before = kept@;
                    kept.push(row);
                    assert(stated(kept@) =~= stated(before).push(row@));
                }
            },
            None => {},
        }
    }
    assert(head.take(head.len() as int) =~= head);
    kept
}

/// Adds all of one set to another.
pub fn add_all(set: &mut TextSet, more: &TextSet)
    requires
        old(set).wf(),
        more.wf(),
    ensures
        final(set).wf(),
        final(set)@.dom() == old(set)@.dom().union(more@.dom()),
{
    let ghost before = set@.dom();
    let ghost all = more.listing();
    let mut i: usize = 0;
    assert(before.union(all.take(0).to_set()) =~= before);
    while i < more.keys.len()
        invariant
            i <= more.keys@.len(),
            all == more.listing(),
            set.wf(),
            more.wf(),
            set@.dom() == before.union(all.take(i as int).to_set()),
        decreases more.keys@.len() - i,
    {
        set.insert(more.keys[i].clone(), ());
        proof {
            let k = all[i as int];
            assert(k == seq![more.keys@[i as int]@]);
            let wider = all.take(i as int + 1);
            assert(wider =~= all.take(i as int).push(k));
            assert forall|x: Seq<Seq<char>>| wider.to_set().contains(x) <==> all.take(i as int).to_set().insert(k).contains(x) by {
                if wider.contains(x) {
                    let j = choose|j: int| 0 <= j < wider.len() && wider[j] == x;
                    if j < i {
                        assert(all.take(i as int)[j] == x);
                    }
                }
                if all.take(i as int).contains(x) {
                    let j = choose|j: int| 0 <= j < all.take(i as int).len() && all.take(i as int)[j] == x;
                    assert(wider[j] == x);
                }
                if x == k {
                    assert(wider[i as int] == x);
                }
            }
            assert(set@.dom() =~= before.union(wider.to_set()));
        }
        i = i + 1;
    }
    proof {
        more.size();
        assert(all.take(all.len() as int) =~= all);
    }
}

/// What an acquisition is about.
pub ghost struct MultipathScope {
    pub direction: TraversalDirection,
    pub destination: Option<Seq<char>>,
    pub max_hops: nat,
    pub max_rows: nat,
}

impl MultipathScope {
    /// The entities from which paths do not go on.
    pub open spec fn avoided(self) -> Set<Seq<Seq<char>>> {
        match self.destination {
            Some(destination) => set![seq![destination]],
            None => Set::empty(),
        }
    }
}

/// How far an acquisition has got.
pub ghost struct MultipathModel {
    pub hops: nat,
    pub frontier: Set<Seq<Seq<char>>>,
    pub visited: Set<Seq<Seq<char>>>,
    pub found: Seq<(nat, StatedEdge)>,
    pub incomplete: Set<Seq<Seq<char>>>,
    pub done: bool,
}

/// An acquisition with the destination taken out of its frontier; it is done when nothing is
/// left there.
pub open spec fn multipath_open(scope: MultipathScope, model: MultipathModel) -> MultipathModel {
    let frontier = model.frontier.difference(scope.avoided());
    MultipathModel { frontier, done: frontier == Set::<Seq<Seq<char>>>::empty(), ..model }
}

/// An acquisition before its first question.
pub open spec fn multipath_started(scope: MultipathScope, start: Seq<char>) -> MultipathModel {
    multipath_open(
        scope,
        MultipathModel {
            hops: 0,
            frontier: set![seq![start]],
            visited: set![seq![start]],
            found: Seq::empty(),
            incomplete: Set::empty(),
            done: false,
        },
    )
}

/// An acquisition after one more answer. Where the rows do not suffice, what was asked for and
/// what was newly found count as incomplete.
pub open spec fn multipath_step(scope: MultipathScope, model: MultipathModel, answer: Seq<StatedEdge>) -> MultipathModel {
    if model.done {
        model
    } else {
        let remaining = (scope.max_rows - model.found.len()) as nat;
        let edges = fitting(answer, remaining);
        let next = led_to(edges, scope.direction).difference(model.visited);
        let more = MultipathModel {
            visited: model.visited.union(led_to(edges, scope.direction)),
            found: model.found + at_hops(model.hops, edges),
            ..model
        };
        if answer.len() > remaining {
            MultipathModel { incomplete: model.frontier.union(next), done: true, ..more }
        } else if model.hops >= scope.max_hops || next == Set::<Seq<Seq<char>>>::empty() {
            MultipathModel { done: true, ..more }
        } else {
            multipath_open(scope, MultipathModel { hops: model.hops + 1, frontier: next, ..more })
        }
    }
}

/// What was acquired for a traversal.
pub struct Acquired {
    pub found: Vec<(u32, ResolvedDependencyRow)>,
    pub incomplete: TextSet,
    pub boundaries: TextSet,
    pub reachable: SortedMap<String, TextSet>,
}

/// The acquisition of the dependencies within some hops of an entity, the boundary included.
/// The number of rows is limited.
pub struct Multipath {
    direction: TraversalDirection,
    destination: Option<String>,
    max_hops: u32,
    max_rows: u32,
    hops: u32,
    frontier: TextSet,
    visited: TextSet,
    found: Vec<(u32, ResolvedDependencyRow)>,
    incomplete: TextSet,
    done: bool,
}

impl View for Multipath {
    type V = MultipathModel;

    closed spec fn view(&self) -> MultipathModel {
        MultipathModel {
            hops: self.hops as nat,
            frontier: self.frontier@.dom(),
            visited: self.visited@.dom(),
            found: found_models(self.found@),
            incomplete: self.incomplete@.dom(),
            done: self.done,
        }
    }
}

impl Multipath {
    /// The sets are sets, and the limits are kept.
    pub closed spec fn wf(&self) -> bool {
        &&& self.frontier.wf()
        &&& self.visited.wf()
        &&& self.incomplete.wf()
        &&& self.hops <= self.max_hops
        &&& self.found@.len() <= self.max_rows
        &&& !self.done ==> self.incomplete@.dom() == Set::<Seq<Seq<char>>>::empty()
    }

    /// What the acquisition is about.
    pub closed spec fn scope(&self) -> MultipathScope {
        MultipathScope {
            direction: self.direction,
            destination: optional_text(self.destination),
            max_hops: self.max_hops as nat,
            max_rows: self.max_rows as nat,
        }
    }

    /// The entities of the frontier, in order.
    pub closed spec fn asked_for(&self) -> Seq<Seq<char>> {
        texts(self.frontier.keys@)
    }

    /// What is asked for is the frontier.
    pub proof fn asks_for_frontier(&self)
        requires
            self.wf(),
        ensures
            forall|id: Seq<char>| self.asked_for().contains(id) <==> #[trigger] self@.frontier.contains(seq![id]),
    {
        assert forall|id: Seq<char>| self.asked_for().contains(id) <==> #[trigger] self@.frontier.contains(seq![id]) by {
            if self.asked_for().contains(id) {
                let i = choose|i: int| 0 <= i < self.asked_for().len() && self.asked_for()[i] == id;
                self.frontier.entry(i);
                assert(self.frontier.keys@[i].key() == seq![id]);
            }
            if self@.frontier.contains(seq![id]) {
                let i = self.frontier.position(seq![id]);
                assert(self.frontier.keys@[i].key()[0] == seq![id][0]);
                assert(self.asked_for()[i] == id);
            }
        }
    }

    /// Takes the destination out of the frontier.
    fn open(&mut self)
        requires
            old(self).wf(),
            old(self).incomplete@.dom() == Set::<Seq<Seq<char>>>::empty(),
        ensures
            final(self).wf(),
            final(self).scope() == old(self).scope(),
            final(self)@ == multipath_open(old(self).scope(), old(self)@),
    {
        let ghost before = self.frontier@.dom();
        match &self.destination {
            Some(destination) => {
                self.frontier.remove(destination);
                assert(destination.key() == seq![destination@]);
            },
            None => {},
        }
        assert(self.frontier@.dom() =~= before.difference(self.scope().avoided()));
        self.done = is_empty(&self.frontier);
    }

    /// Starts at an entity.
    pub fn start(start: &str, destination: Option<String>, direction: TraversalDirection, max_hops: u32, max_rows: u32) -> (r: Multipath)
        ensures
            r.wf(),
            r.scope() == (MultipathScope {
                direction,
                destination: optional_text(destination),
                max_hops: max_hops as nat,
                max_rows: max_rows as nat,
            }),
            r@ == multipath_started(r.scope(), start@),
    {
        let mut search: Multipath = Multipath {
            direction,
            destination,
            max_hops,
            max_rows,
            hops: 0,
            frontier: only(start),
            visited: only(start),
            found: Vec::new(),
            incomplete: SortedMap::new(),
            done: false,
        };
        proof {
            assert(search@.found =~= Seq::<(nat, StatedEdge)>::empty());
            assert(search@.incomplete =~= Set::<Seq<Seq<char>>>::empty());
        }
        search.open();
        search
    }

    /// Whether nothing more is to be asked.
    pub fn is_done(&self) -> (r: bool)
        ensures
            r == self@.done,
    {
        self.done
    }

    /// Asks for the dependencies around the frontier. One row more than may be kept is asked
    /// for, so that the answer tells whether they suffice.
    pub fn request(&self, view: &str) -> (r: Command)
        requires
            self.wf(),
        ensures
            r@ == dependencies_asked(
                view@,
                self.scope().direction,
                self.asked_for(),
                self.scope().max_rows - self@.found.len() + 1,
            ),
    {
        let limit: i64 = (self.max_rows as usize - self.found.len()) as i64 + 1;
        ask_dependencies(view, self.direction, &self.frontier.keys, limit)
    }

    /// Takes in the answer to what was asked.
    pub fn receive(&mut self, answer: Vec<ResolvedDependencyRow>)
        requires
            old(self).wf(),
        ensures
            final(self).wf(),
            final(self).scope() == old(self).scope(),
            final(self)@ == multipath_step(old(self).scope(), old(self)@, stated(answer@)),
    {
        if self.done {
            return;
        }
        let ghost before = self@;
        let ghost scope = self.scope();
        let remaining: usize = self.max_rows as usize - self.found.len();
        let overflow: bool = answer.len() > remaining;
        let ghost given = stated(answer@);
        let kept: Vec<ResolvedDependencyRow> = fit(answer, remaining);
        let ghost edges = stated(kept@);
        proof {
            if overflow {
                keep_bounded(given.take(remaining as int), |edge: StatedEdge| !same_link(edge, given[remaining as int]));
            }
            assert(edges.len() <= remaining);
        }
        let next: TextSet = discover(&kept, self.direction, &mut self.visited);
        let ghost found = self.found@;
        let mut tagged: Vec<(u32, ResolvedDependencyRow)> = tag(self.hops, kept);
        assert(found_models(tagged@).len() == tagged@.len());
        self.found.append(&mut tagged);
        proof {
            assert(found_models(self.found@) =~= found_models(found) + at_hops(before.hops, edges));
            assert(self.found@.len() <= self.max_rows);
        }
        if overflow {
            add_all(&mut self.incomplete, &self.frontier);
            add_all(&mut self.incomplete, &next);
            self.done = true;
            proof {
                assert(self@.incomplete =~= before.frontier.union(next@.dom()));
            }
        } else if self.hops >= self.max_hops || is_empty(&next) {
            self.done = true;
        } else {
            self.hops = self.hops + 1;
            self.frontier = next;
            self.open();
        }
    }

    /// What was acquired.
    pub fn finish(self) -> (r: Acquired)
        requires
            self.wf(),
        ensures
            found_models(r.found@) == self@.found,
            r.incomplete.wf(),
            r.incomplete@.dom() == self@.incomplete,
            r.boundaries.wf(),
            r.boundaries@.dom() == Set::<Seq<Seq<char>>>::empty(),
            r.reachable.wf(),
            r.reachable@ == Map::<Seq<Seq<char>>, TextSet>::empty(),
    {
        let boundaries: TextSet = SortedMap::new();
        assert(boundaries@.dom() =~= Set::<Seq<Seq<char>>>::empty());
        Acquired { found: self.found, incomplete: self.incomplete, boundaries, reachable: SortedMap::new() }
    }
}

/// The entities within some hops of an entity, on paths that do not go on from those avoided.
pub open spec fn reach(
    graph: Set<StatedEdge>,
    direction: TraversalDirection,
    start: Seq<char>,
    avoided: Set<Seq<Seq<char>>>,
    hops: nat,
) -> Set<Seq<Seq<char>>>
    decreases hops,
{
    if hops == 0 {
        set![seq![start]]
    } else {
        let inner = reach(graph, direction, start, avoided, (hops - 1) as nat);
        inner.union(around(graph, direction, inner.difference(avoided)))
    }
}

/// An acquisition after some answers.
pub open spec fn multipath_run(scope: MultipathScope, start: Seq<char>, given: Seq<Seq<StatedEdge>>) -> MultipathModel
    decreases given.len(),
{
    if given.len() == 0 {
        multipath_started(scope, start)
    } else {
        multipath_step(scope, multipath_run(scope, start, given.drop_last()), given.last())
    }
}

/// Whether each answer was one to what had been asked by then: all that was asked for, or only
/// some of it, but then one row more than could be kept.
pub open spec fn faithful_rows(graph: Set<StatedEdge>, scope: MultipathScope, start: Seq<char>, given: Seq<Seq<StatedEdge>>) -> bool
    decreases given.len(),
{
    given.len() == 0 || {
        let before = multipath_run(scope, start, given.drop_last());
        &&& faithful_rows(graph, scope, start, given.drop_last())
        &&& before.done || if given.last().len() > scope.max_rows - before.found.len() {
            forall|i: int|
                0 <= i < given.last().len() ==> graph.contains(#[trigger] given.last()[i]) && asked(
                    given.last()[i],
                    scope.direction,
                    before.frontier,
                )
        } else {
            answers(graph, scope.direction, before.frontier, given.last())
        }
    }
}

/// Whether all dependencies of a graph that an entity asks for were found.
pub open spec fn covered(graph: Set<StatedEdge>, direction: TraversalDirection, found: Seq<(nat, StatedEdge)>, entity: Seq<Seq<char>>) -> bool {
    forall|edge: StatedEdge| #[trigger] graph.contains(edge) && asked(edge, direction, set![entity]) ==> holds(found, edge)
}

proof fn covered_grows(graph: Set<StatedEdge>, direction: TraversalDirection, found: Seq<(nat, StatedEdge)>, more: Seq<(nat, StatedEdge)>, entity: Seq<Seq<char>>)
    requires
        covered(graph, direction, found, entity),
    ensures
        covered(graph, direction, found + more, entity),
{
    assert forall|edge: StatedEdge| #[trigger] graph.contains(edge) && asked(edge, direction, set![entity]) implies holds(found + more, edge) by {
        let i = choose|i: int| 0 <= i < found.len() && (#[trigger] found[i]).1 == edge;
        assert((found + more)[i].1 == edge);
    }
}

proof fn covered_by_answer(
    graph: Set<StatedEdge>,
    direction: TraversalDirection,
    found: Seq<(nat, StatedEdge)>,
    hops: nat,
    answer: Seq<StatedEdge>,
    frontier: Set<Seq<Seq<char>>>,
    entity: Seq<Seq<char>>,
)
    requires
        answers(graph, direction, frontier, answer),
        frontier.contains(entity),
    ensures
        covered(graph, direction, found + at_hops(hops, answer), entity),
{
    let all = found + at_hops(hops, answer);
    assert forall|edge: StatedEdge| #[trigger] graph.contains(edge) && asked(edge, direction, set![entity]) implies holds(all, edge) by {
        assert(asked(edge, direction, frontier));
        assert(answer.contains(edge));
        let j = choose|j: int| 0 <= j < answer.len() && answer[j] == edge;
        assert(all[found.len() + j] == (hops, answer[j]));
    }
}

/// What holds of an acquisition that has met no limit so far.
spec fn complete_so_far(graph: Set<StatedEdge>, scope: MultipathScope, start: Seq<char>, model: MultipathModel) -> bool {
    &&& model.visited == reach(graph, scope.direction, start, scope.avoided(), model.hops)
    &&& model.hops > 0 ==> {
        let inner = reach(graph, scope.direction, start, scope.avoided(), (model.hops - 1) as nat);
        model.frontier == model.visited.difference(inner).difference(scope.avoided())
    }
    &&& model.hops == 0 ==> model.frontier == model.visited.difference(scope.avoided())
    &&& forall|v: Seq<Seq<char>>| #[trigger]
        model.visited.contains(v) && !model.frontier.contains(v) && !scope.avoided().contains(v) ==> covered(
            graph,
            scope.direction,
            model.found,
            v,
        )
    &&& model.hops <= scope.max_hops
    &&& model.found.len() <= scope.max_rows
}

/// Whether what an acquisition shows of the entities that it knows is all there is, or they
/// count as incomplete.
pub open spec fn known_exactly(graph: Set<StatedEdge>, scope: MultipathScope, start: Seq<char>, model: MultipathModel) -> bool {
    forall|v: Seq<Seq<char>>| #[trigger]
        model.visited.contains(v) && reach(graph, scope.direction, start, scope.avoided(), scope.max_hops).contains(v)
            && !scope.avoided().contains(v) && !model.incomplete.contains(v) ==> covered(graph, scope.direction, model.found, v)
}

proof fn frontier_reaches_on(graph: Set<StatedEdge>, scope: MultipathScope, start: Seq<char>, model: MultipathModel)
    requires
        complete_so_far(graph, scope, start, model),
    ensures
        model.visited.union(around(graph, scope.direction, model.frontier)) == reach(
            graph,
            scope.direction,
            start,
            scope.avoided(),
            model.hops + 1,
        ),
{
    let avoided = scope.avoided();
    let outer = model.visited;
    if model.hops > 0 {
        let inner = reach(graph, scope.direction, start, avoided, (model.hops - 1) as nat);
        crate::closure::around_union(graph, scope.direction, inner.difference(avoided), model.frontier);
        assert(inner.difference(avoided).union(model.frontier) =~= outer.difference(avoided));
        assert(around(graph, scope.direction, inner.difference(avoided)).subset_of(outer));
    }
    assert(outer.union(around(graph, scope.direction, model.frontier)) =~= reach(graph, scope.direction, start, avoided, model.hops + 1));
}

proof fn step_stays_exact(graph: Set<StatedEdge>, scope: MultipathScope, start: Seq<char>, model: MultipathModel, answer: Seq<StatedEdge>)
    requires
        !model.done,
        complete_so_far(graph, scope, start, model),
        answer.len() <= scope.max_rows - model.found.len() ==> answers(graph, scope.direction, model.frontier, answer),
    ensures
        ({
            let after = multipath_step(scope, model, answer);
            &&& after.found.len() <= scope.max_rows
            &&& after.done ==> known_exactly(graph, scope, start, after)
            &&& !after.done ==> complete_so_far(graph, scope, start, after)
        }),
{
    let after = multipath_step(scope, model, answer);
    let remaining = (scope.max_rows - model.found.len()) as nat;
    let edges = fitting(answer, remaining);
    let led = led_to(edges, scope.direction);
    if answer.len() > remaining {
        keep_bounded(answer.take(remaining as int), |edge: StatedEdge| !same_link(edge, answer[remaining as int]));
        assert forall|v: Seq<Seq<char>>| #[trigger]
            after.visited.contains(v) && !scope.avoided().contains(v) && !after.incomplete.contains(v) implies covered(
            graph,
            scope.direction,
            after.found,
            v,
        ) by {
            assert(model.visited.contains(v));
            covered_grows(graph, scope.direction, model.found, at_hops(model.hops, edges), v);
        }
    } else {
        crate::closure::answer_leads_around(graph, scope.direction, model.frontier, answer);
        frontier_reaches_on(graph, scope, start, model);
        assert forall|v: Seq<Seq<char>>| #[trigger]
            model.visited.contains(v) && !scope.avoided().contains(v) implies covered(graph, scope.direction, after.found, v) by {
            if model.frontier.contains(v) {
                covered_by_answer(graph, scope.direction, model.found, model.hops, answer, model.frontier, v);
            } else {
                covered_grows(graph, scope.direction, model.found, at_hops(model.hops, edges), v);
            }
        }
        let next = led.difference(model.visited);
        if model.hops >= scope.max_hops {
        } else if next == Set::<Seq<Seq<char>>>::empty() {
            assert forall|v: Seq<Seq<char>>| #[trigger] after.visited.contains(v) implies model.visited.contains(v) by {
                if !model.visited.contains(v) {
                    assert(next.contains(v));
                }
            }
        } else {
            assert(after.visited =~= reach(graph, scope.direction, start, scope.avoided(), model.hops + 1));
            assert(after.frontier =~= after.visited.difference(model.visited).difference(scope.avoided()));
            assert forall|v: Seq<Seq<char>>| #[trigger]
                after.visited.contains(v) && !after.frontier.contains(v) && !scope.avoided().contains(v) implies covered(
                graph,
                scope.direction,
                after.found,
                v,
            ) by {
                assert(model.visited.contains(v));
            }
        }
    }
}

/// An acquisition that was answered faithfully keeps to its rows. When it is done, then of each
/// entity that it knows within the allowed hops, and from which paths go on, it has found all
/// dependencies, or the entity counts as incomplete: an incomplete frontier is never taken for
/// the end of a path.
pub proof fn incomplete_frontiers_never_imply_leaves(graph: Set<StatedEdge>, scope: MultipathScope, start: Seq<char>, given: Seq<Seq<StatedEdge>>)
    requires
        faithful_rows(graph, scope, start, given),
    ensures
        multipath_run(scope, start, given).found.len() <= scope.max_rows,
        multipath_run(scope, start, given).done ==> known_exactly(graph, scope, start, multipath_run(scope, start, given)),
{
    run_stays_exact(graph, scope, start, given);
}

proof fn run_stays_exact(graph: Set<StatedEdge>, scope: MultipathScope, start: Seq<char>, given: Seq<Seq<StatedEdge>>)
    requires
        faithful_rows(graph, scope, start, given),
    ensures
        ({
            let model = multipath_run(scope, start, given);
            &&& model.found.len() <= scope.max_rows
            &&& model.done ==> known_exactly(graph, scope, start, model)
            &&& !model.done ==> complete_so_far(graph, scope, start, model)
        }),
    decreases given.len(),
{
    if given.len() > 0 {
        run_stays_exact(graph, scope, start, given.drop_last());
        let before = multipath_run(scope, start, given.drop_last());
        if !before.done {
            step_stays_exact(graph, scope, start, before, given.last());
        }
    } else {
        let model = multipath_started(scope, start);
        if model.done {
            assert forall|v: Seq<Seq<char>>| #[trigger] model.visited.contains(v) implies scope.avoided().contains(v) by {
                if !scope.avoided().contains(v) {
                    assert(model.frontier.contains(v));
                }
            }
        }
    }
}

} // verus!
