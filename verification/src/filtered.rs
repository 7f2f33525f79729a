//! Acquisition for traversals that are to visit all of some repositories.

use crate::closure::{at_hops, found_models, only, tag};
use crate::command::{bind_integer, bind_rows, bind_text, bindings, cells, row_cells, text_cell, ArgumentModel, Binding, Cell, CellModel, Command, CommandModel};
use crate::dependency::{arrives, decode_resolved_dependency, decoded_dependency, departs, left_at, leads_to, stated, traversal_predecessor, ResolvedDependencyRow};
use crate::domain::optional_text;
use crate::dto::copy_text;
use crate::ids::{repository, repository_of, TextSet};
use crate::multipath::{add_all, Acquired};
use crate::paths::TraversalDirection;
use crate::reachability::{prefix_of, reach_models, reach_wf, target_prefix};
use crate::rows::{cell_text, InspectionResult, InspectionValue};
use crate::scripts::{FORWARD_INPUTS, FORWARD_RULES, INCOMING_CANDIDATES, OUTGOING_CANDIDATES};
use crate::semantic::StatedEdge;
use crate::seqs::{concat_map, concat_map_step, concat_range};
use crate::sorted::{ascending_unique, texts, Key, SortedMap};
use crate::text::same;
use vstd::prelude::*;

verus! {

/// Where a traversal stands: at an entity, with the targets visited on the way, and with the
/// repository in which the last of them was visited, once all are.
pub struct TraversalState {
    pub entity: String,
    pub visited_targets: TextSet,
    pub completion_repository: Option<String>,
}

/// Where a traversal stands.
pub ghost struct StateModel {
    pub entity: Seq<char>,
    pub visited: Set<Seq<Seq<char>>>,
    pub completion: Option<Seq<char>>,
}

impl View for TraversalState {
    type V = StateModel;

    open spec fn view(&self) -> StateModel {
        StateModel {
            entity: self.entity@,
            visited: self.visited_targets@.dom(),
            completion: optional_text(self.completion_repository),
        }
    }
}

/// What a state sorts by: its entity, each visited target, and what follows them.
pub open spec fn state_key(entity: Seq<char>, visited: Seq<Seq<Seq<char>>>, completion: Option<Seq<char>>) -> Seq<Seq<char>> {
    let targets = visited.map_values(|k: Seq<Seq<char>>| "1"@ + k[0]);
    let end = match completion {
        Some(repository) => seq!["0"@, repository],
        None => seq!["0"@],
    };
    seq![entity] + targets + end
}

/// States that sort alike are alike.
pub proof fn state_key_injective(
    entity: Seq<char>,
    visited: Seq<Seq<Seq<char>>>,
    completion: Option<Seq<char>>,
    other: Seq<char>,
    others: Seq<Seq<Seq<char>>>,
    done: Option<Seq<char>>,
)
    requires
        state_key(entity, visited, completion) == state_key(other, others, done),
        forall|i: int| 0 <= i < visited.len() ==> (#[trigger] visited[i]).len() == 1,
        forall|i: int| 0 <= i < others.len() ==> (#[trigger] others[i]).len() == 1,
    ensures
        entity == other,
        visited == others,
        completion == done,
{
    let a = state_key(entity, visited, completion);
    let b = state_key(other, others, done);
    assert(a[0] == entity && b[0] == other);
    reveal_strlit("0");
    reveal_strlit("1");
    assert("0"@[0] == '0' && "1"@[0] == '1');
    assert(a[1 + visited.len() as int] == "0"@);
    assert(b[1 + others.len() as int] == "0"@);
    if visited.len() < others.len() {
        assert(b[1 + visited.len() as int] == "1"@ + others[visited.len() as int][0]);
        assert(b[1 + visited.len() as int][0] == '1');
        assert(false);
    }
    if others.len() < visited.len() {
        assert(a[1 + others.len() as int] == "1"@ + visited[others.len() as int][0]);
        assert(a[1 + others.len() as int][0] == '1');
        assert(false);
    }
    assert forall|i: int| 0 <= i < visited.len() implies visited[i] == others[i] by {
        assert(a[1 + i] == "1"@ + visited[i][0]);
        assert(b[1 + i] == "1"@ + others[i][0]);
        assert(("1"@ + visited[i][0]).skip(1) =~= visited[i][0]);
        assert(("1"@ + others[i][0]).skip(1) =~= others[i][0]);
        assert(visited[i] =~= others[i]);
    }
    assert(visited =~= others);
    assert(a.len() == visited.len() + if completion is Some {
        3int
    } else {
        2int
    });
    assert(b.len() == visited.len() + if done is Some {
        3int
    } else {
        2int
    });
    if completion is Some && done is Some {
        assert(a[2 + visited.len() as int] == completion->0);
        assert(b[2 + visited.len() as int] == done->0);
    }
}

impl TraversalState {
    pub open spec fn wf(&self) -> bool {
        self.visited_targets.wf()
    }

    /// What the state sorts by.
    pub open spec fn sorts_by(&self) -> Seq<Seq<char>> {
        state_key(self.entity@, self.visited_targets.listing(), optional_text(self.completion_repository))
    }

    /// States stand for the same exactly when they sort alike.
    pub proof fn same_key(&self, other: &TraversalState)
        requires
            self.wf(),
            other.wf(),
        ensures
            (self@ == other@) == (self.sorts_by() == other.sorts_by()),
    {
        let a = self.visited_targets.listing();
        let b = other.visited_targets.listing();
        self.visited_targets.size();
        other.visited_targets.size();
        assert forall|i: int| 0 <= i < a.len() implies (#[trigger] a[i]).len() == 1 by {
            assert(a[i] == self.visited_targets.keys@[i].key());
        }
        assert forall|i: int| 0 <= i < b.len() implies (#[trigger] b[i]).len() == 1 by {
            assert(b[i] == other.visited_targets.keys@[i].key());
        }
        if self.sorts_by() == other.sorts_by() {
            state_key_injective(
                self.entity@,
                a,
                optional_text(self.completion_repository),
                other.entity@,
                b,
                optional_text(other.completion_repository),
            );
            assert(self@ == other@);
        }
        if self@ == other@ {
            assert forall|k: Seq<Seq<char>>| a.contains(k) <==> b.contains(k) by {
                assert(a.to_set().contains(k) == b.to_set().contains(k));
            }
            ascending_unique(a, b);
        }
    }

    /// The texts that the state sorts by.
    fn sort_key(&self) -> (r: Vec<String>)
        ensures
            texts(r@) == self.sorts_by(),
    {
        let mut key: Vec<String> = Vec::new();
        key.push(self.entity.clone());
        let ghost targets = self.visited_targets.listing().map_values(|k: Seq<Seq<char>>| "1"@ + k[0]);
        assert(texts(key@) =~= seq![self.entity@] + targets.take(0));
        let mut i: usize = 0;
        while i < self.visited_targets.keys.len()
            invariant
                i <= self.visited_targets.keys@.len(),
                targets == self.visited_targets.listing().map_values(|k: Seq<Seq<char>>| "1"@ + k[0]),
                texts(key@) == seq![self.entity@] + targets.take(i as int),
            decreases self.visited_targets.keys@.len() - i,
        {
            let ghost before = key@;
            let mut part: String = "1".to_owned();
            part.append(self.visited_targets.keys[i].as_str());
            key.push(part);
            proof {
                assert(self.visited_targets.listing()[i as int] == seq![self.visited_targets.keys@[i as int]@]);
                assert(targets[i as int] == part@);
                assert(texts(key@) =~= texts(before).push(part@));
                assert(targets.take(i as int + 1) =~= targets.take(i as int).push(part@));
                assert(texts(key@) =~= seq![self.entity@] + targets.take(i as int + 1));
            }
            i = i + 1;
        }
        proof {
            assert(targets.take(targets.len() as int) =~= targets);
        }
        let ghost front = texts(key@);
        key.push("0".to_owned());
        assert(texts(key@) =~= front + seq!["0"@]);
        match &self.completion_repository {
            Some(repository) => {
                key.push(repository.clone());
                assert(texts(key@) =~= front + seq!["0"@, repository@]);
            },
            None => {},
        }
        key
    }

    /// The same state once more.
    pub fn copy(&self) -> (r: TraversalState)
        requires
            self.wf(),
        ensures
            r.wf(),
            r@ == self@,
    {
        TraversalState {
            entity: self.entity.clone(),
            visited_targets: copy_set(&self.visited_targets),
            completion_repository: copy_text(&self.completion_repository),
        }
    }
}

/// The same set once more.
pub fn copy_set(set: &TextSet) -> (r: TextSet)
    requires
        set.wf(),
    ensures
        r.wf(),
        r@.dom() == set@.dom(),
{
    let mut copy: TextSet = SortedMap::new();
    add_all(&mut copy, set);
    assert(copy@.dom() =~= set@.dom());
    copy
}

/// A set of states.
pub struct StateSet {
    states: SortedMap<Vec<String>, TraversalState>,
}

impl StateSet {
    /// Each state stands at its key.
    pub closed spec fn wf(&self) -> bool {
        &&& self.states.wf()
        &&& forall|i: int|
            0 <= i < self.states.values@.len() ==> (#[trigger] self.states.values@[i]).wf() && self.states.values@[i].sorts_by()
                == self.states.keys@[i].key()
    }

    /// The states, in order.
    pub closed spec fn listed(&self) -> Seq<StateModel> {
        self.states.values@.map_values(|state: TraversalState| state@)
    }

    /// The states.
    pub open spec fn models(&self) -> Set<StateModel> {
        self.listed().to_set()
    }

    pub fn new() -> (r: StateSet)
        ensures
            r.wf(),
            r.models() == Set::<StateModel>::empty(),
    {
        let set: StateSet = StateSet { states: SortedMap::new() };
        assert(set.models() =~= Set::<StateModel>::empty());
        set
    }

    pub fn len(&self) -> (r: usize)
        ensures
            r == self.listed().len(),
    {
        self.states.values.len()
    }

    proof fn has_key(&self, state: &TraversalState)
        requires
            self.wf(),
            state.wf(),
        ensures
            self.models().contains(state@) == self.states@.contains_key(state.sorts_by()),
    {
        if self.models().contains(state@) {
            let i = choose|i: int| 0 <= i < self.listed().len() && self.listed()[i] == state@;
            self.states.values@[i].same_key(state);
            self.states.entry(i);
        }
        if self.states@.contains_key(state.sorts_by()) {
            let i = self.states.position(state.sorts_by());
            assert(self.states.keys@[i].key() == state.sorts_by());
            self.states.values@[i].same_key(state);
            assert(self.listed()[i] == state@);
        }
    }

    /// Whether the state is in the set.
    pub fn contains(&self, state: &TraversalState) -> (r: bool)
        requires
            self.wf(),
            state.wf(),
        ensures
            r == self.models().contains(state@),
    {
        proof {
            self.has_key(state);
        }
        let key: Vec<String> = state.sort_key();
        assert(key.key() == state.sorts_by());
        self.states.contains_key(&key)
    }

    /// Adds a state.
    pub fn insert(&mut self, state: TraversalState)
        requires
            old(self).wf(),
            state.wf(),
        ensures
            final(self).wf(),
            final(self).models() == old(self).models().insert(state@),
    {
        let key: Vec<String> = state.sort_key();
        let ghost k = state.sorts_by();
        let ghost added = state;
        assert(key.key() == k);
        let ghost before = *self;
        self.states.insert(key, state);
        proof {
            assert forall|i: int| 0 <= i < self.states.values@.len() implies (#[trigger] self.states.values@[i]).wf()
                && self.states.values@[i].sorts_by() == self.states.keys@[i].key() by {
                self.states.entry(i);
                let here = self.states.keys@[i].key();
                if here != k {
                    assert(before.states@.contains_key(here));
                    let j = before.states.position(here);
                    before.states.entry(j);
                    assert(self.states.values@[i] == before.states.values@[j]);
                }
            }
            assert forall|m: StateModel| self.models().contains(m) <==> before.models().insert(added@).contains(m) by {
                if self.models().contains(m) {
                    let i = choose|i: int| 0 <= i < self.listed().len() && self.listed()[i] == m;
                    self.states.entry(i);
                    let here = self.states.keys@[i].key();
                    if here != k {
                        assert(before.states@.contains_key(here));
                        let j = before.states.position(here);
                        before.states.entry(j);
                        assert(before.listed()[j] == m);
                    }
                }
                if before.models().contains(m) && m != added@ {
                    let j = choose|j: int| 0 <= j < before.listed().len() && before.listed()[j] == m;
                    before.states.entry(j);
                    before.states.values@[j].same_key(&added);
                    let here = before.states.keys@[j].key();
                    assert(self.states@.contains_key(here));
                    let i = self.states.position(here);
                    self.states.entry(i);
                    assert(self.listed()[i] == m);
                }
                if m == added@ {
                    assert(self.states@.contains_key(k));
                    let i = self.states.position(k);
                    self.states.entry(i);
                    assert(self.listed()[i] == m);
                }
            }
            assert(self.models() =~= before.models().insert(added@));
        }
    }

    /// The state at a place in the order.
    pub fn at(&self, i: usize) -> (r: &TraversalState)
        requires
            self.wf(),
            i < self.listed().len(),
        ensures
            r.wf(),
            r@ == self.listed()[i as int],
    {
        assert(self.listed()[i as int] == self.states.values@[i as int]@);
        &self.states.values[i]
    }
}

/// What a filtered acquisition is about.
pub ghost struct FilterScope {
    pub direction: TraversalDirection,
    pub max_hops: nat,
    pub targets: Set<Seq<Seq<char>>>,
    pub reachable: Map<Seq<Seq<char>>, Set<Seq<Seq<char>>>>,
}

impl FilterScope {
    /// The targets that an entity is known to lead into.
    pub open spec fn led_into(self, entity: Seq<char>) -> Set<Seq<Seq<char>>> {
        if self.reachable.contains_key(seq![entity]) {
            self.reachable[seq![entity]]
        } else {
            Set::empty()
        }
    }

    /// Whether all targets that are missing can still be visited from an entity.
    pub open spec fn on_course(self, entity: Seq<char>, visited: Set<Seq<Seq<char>>>) -> bool {
        self.targets.difference(visited).subset_of(self.led_into(entity))
    }

    /// Where a state gets by a step to an entity, unless it may not take it. Once all targets
    /// are visited, the way stays in the repository of the last one.
    pub open spec fn advanced(self, state: StateModel, next: Seq<char>) -> Option<StateModel> {
        match state.completion {
            Some(completion) => if repository_of(next) == Some(completion) && self.on_course(next, state.visited) {
                Some(StateModel { entity: next, ..state })
            } else {
                None
            },
            None => {
                let moved = match repository_of(next) {
                    Some(found) => if self.targets.contains(seq![found]) {
                        let visited = state.visited.insert(seq![found]);
                        StateModel {
                            entity: next,
                            visited,
                            completion: if visited == self.targets {
                                Some(found)
                            } else {
                                None
                            },
                        }
                    } else {
                        StateModel { entity: next, ..state }
                    },
                    None => StateModel { entity: next, ..state },
                };
                if self.on_course(next, moved.visited) {
                    Some(moved)
                } else {
                    None
                }
            },
        }
    }

    /// Whether a dependency takes one of the states to another.
    pub open spec fn takes(self, state: StateModel, edge: StatedEdge, to: StateModel) -> bool {
        &&& left_at(edge, self.direction) == state.entity
        &&& self.advanced(state, leads_to(edge, self.direction)) == Some(to)
    }

    /// The states that some dependencies take some states to.
    pub open spec fn successors(self, states: Set<StateModel>, edges: Seq<StatedEdge>) -> Set<StateModel> {
        Set::new(
            |to: StateModel|
                exists|state: StateModel, i: int|
                    states.contains(state) && 0 <= i < edges.len() && #[trigger] self.takes(state, edges[i], to),
        )
    }

    /// Whether some dependency takes one of the states to the last missing target.
    pub open spec fn completes(self, states: Set<StateModel>, edges: Seq<StatedEdge>) -> bool {
        exists|state: StateModel, i: int, to: StateModel|
            states.contains(state) && 0 <= i < edges.len() && state.completion is None && to.completion is Some && #[trigger] self.takes(
                state,
                edges[i],
                to,
            )
    }
}

/// How far a filtered acquisition has got.
pub ghost struct FilterModel {
    pub hops: nat,
    pub states: Set<StateModel>,
    pub seen: Set<StateModel>,
    pub found: Seq<(nat, StatedEdge)>,
    pub incomplete: Set<Seq<Seq<char>>>,
    pub boundaries: Set<Seq<Seq<char>>>,
    pub remaining: nat,
    pub completed: bool,
    pub done: bool,
}

/// The entities at which some states stand.
pub open spec fn entities_of(states: Set<StateModel>) -> Set<Seq<Seq<char>>> {
    Set::new(|k: Seq<Seq<char>>| exists|state: StateModel| #[trigger] states.contains(state) && k == seq![state.entity])
}

/// A filtered acquisition that is over before it began.
pub open spec fn filter_over(incomplete: Set<Seq<Seq<char>>>, remaining: nat) -> FilterModel {
    FilterModel {
        hops: 0,
        states: Set::empty(),
        seen: Set::empty(),
        found: Seq::empty(),
        incomplete,
        boundaries: Set::empty(),
        remaining,
        completed: false,
        done: true,
    }
}

/// The targets visited by being at the start.
pub open spec fn visited_at_start(scope: FilterScope, start: Seq<char>) -> Set<Seq<Seq<char>>> {
    match repository_of(start) {
        Some(home) => if scope.targets.contains(seq![home]) {
            set![seq![home]]
        } else {
            Set::empty()
        },
        None => Set::empty(),
    }
}

/// The state at the start.
pub open spec fn state_at_start(scope: FilterScope, start: Seq<char>) -> StateModel {
    let visited = visited_at_start(scope, start);
    StateModel {
        entity: start,
        visited,
        completion: if scope.targets.difference(visited) == Set::<Seq<Seq<char>>>::empty() {
            repository_of(start)
        } else {
            None
        },
    }
}

/// A filtered acquisition before its first question. From a start that does not lead into all
/// missing targets nothing is asked.
pub open spec fn filter_started(scope: FilterScope, start: Seq<char>, remaining: nat) -> FilterModel {
    let state = state_at_start(scope, start);
    if !scope.on_course(start, state.visited) {
        filter_over(Set::empty(), remaining)
    } else {
        FilterModel {
            states: set![state],
            seen: set![state],
            completed: state.completion is Some,
            done: false,
            ..filter_over(Set::empty(), remaining)
        }
    }
}

/// A filtered acquisition after one more answer: the dependencies that the states may follow,
/// and the entities at which dependencies leave the repository of completion.
pub open spec fn filter_step(scope: FilterScope, model: FilterModel, edges: Seq<StatedEdge>, boundaries: Set<Seq<Seq<char>>>) -> FilterModel {
    if model.done {
        model
    } else {
        let more = FilterModel { boundaries: model.boundaries.union(boundaries), ..model };
        if edges.len() > model.remaining {
            FilterModel { incomplete: entities_of(model.states), done: true, ..more }
        } else {
            let next = scope.successors(model.states, edges).difference(model.seen);
            let after = FilterModel {
                seen: model.seen.union(scope.successors(model.states, edges)),
                found: model.found + at_hops(model.hops, edges),
                remaining: (model.remaining - edges.len()) as nat,
                completed: model.completed || scope.completes(model.states, edges),
                ..more
            };
            if model.hops >= scope.max_hops {
                FilterModel { incomplete: entities_of(next), done: true, ..after }
            } else {
                FilterModel { hops: model.hops + 1, states: next, done: next == Set::<StateModel>::empty(), ..after }
            }
        }
    }
}

/// What decides which steps a state may take.
struct Course<'a> {
    direction: TraversalDirection,
    max_hops: u32,
    targets: &'a TextSet,
    reachable: &'a SortedMap<String, TextSet>,
}

impl<'a> Course<'a> {
    spec fn wf(&self) -> bool {
        self.targets.wf() && reach_wf(*self.reachable)
    }

    spec fn scope(&self) -> FilterScope {
        FilterScope {
            direction: self.direction,
            max_hops: self.max_hops as nat,
            targets: self.targets@.dom(),
            reachable: reach_models(self.reachable@),
        }
    }

    /// Whether all targets that are missing can still be visited from an entity.
    fn on_course(&self, entity: &String, visited: &TextSet) -> (r: bool)
        requires
            self.wf(),
            visited.wf(),
        ensures
            r == self.scope().on_course(entity@, visited@.dom()),
    {
        let known: Option<&TextSet> = self.reachable.get(entity);
        let ghost scope = self.scope();
        let ghost led = scope.led_into(entity@);
        assert(entity.key() == seq![entity@]);
        let mut i: usize = 0;
        while i < self.targets.keys.len()
            invariant
                i <= self.targets.keys@.len(),
                self.wf(),
                visited.wf(),
                scope == self.scope(),
                led == scope.led_into(entity@),
                known is Some ==> (known->0).wf() && (known->0)@.dom() == led,
                known is None ==> led == Set::<Seq<Seq<char>>>::empty(),
                forall|j: int|
                    0 <= j < i ==> visited@.dom().contains((#[trigger] self.targets.keys@[j]).key()) || led.contains(
                        self.targets.keys@[j].key(),
                    ),
            decreases self.targets.keys@.len() - i,
        {
            let target: &String = &self.targets.keys[i];
            let reached: bool = match known {
                Some(known) => known.contains_key(target),
                None => false,
            };
            if !reached && !visited.contains_key(target) {
                proof {
                    self.targets.entry(i as int);
                    assert(scope.targets.difference(visited@.dom()).contains(target.key()));
                    assert(!led.contains(target.key()));
                }
                return false;
            }
            i = i + 1;
        }
        proof {
            assert forall|k: Seq<Seq<char>>| scope.targets.difference(visited@.dom()).contains(k) implies led.contains(k) by {
                let j = self.targets.position(k);
                assert(self.targets.keys@[j].key() == k);
            }
        }
        true
    }

    /// Where a state gets by a step to an entity, unless it may not take it.
    fn advance(&self, state: &TraversalState, next: &String) -> (r: Option<TraversalState>)
        requires
            self.wf(),
            state.wf(),
        ensures
            r is Some <==> self.scope().advanced(state@, next@) is Some,
            r is Some ==> (r->0).wf() && (r->0)@ == self.scope().advanced(state@, next@)->0,
    {
        let ghost scope = self.scope();
        let home: Option<String> = repository(next.as_str());
        let mut moved: TraversalState = state.copy();
        moved.entity = next.clone();
        match &state.completion_repository {
            Some(completion) => {
                let inside: bool = match &home {
                    Some(found) => same(found.as_str(), completion.as_str()),
                    None => false,
                };
                if !inside {
                    return None;
                }
            },
            None => {
                match home {
                    Some(found) => {
                        assert(found.key() == seq![found@]);
                        if self.targets.contains_key(&found) {
                            moved.visited_targets.insert(found.clone(), ());
                            proof {
                                assert(moved.visited_targets@.dom() =~= state@.visited.insert(seq![found@]));
                            }
                            if same_set(&moved.visited_targets, self.targets) {
                                moved.completion_repository = Some(found);
                            }
                        }
                    },
                    None => {},
                }
            },
        }
        if self.on_course(next, &moved.visited_targets) {
            Some(moved)
        } else {
            None
        }
    }
}

/// Whether two sets hold the same.
pub fn same_set(a: &TextSet, b: &TextSet) -> (r: bool)
    requires
        a.wf(),
        b.wf(),
    ensures
        r == (a@.dom() == b@.dom()),
{
    if a.keys.len() != b.keys.len() {
        proof {
            a.size();
            b.size();
        }
        return false;
    }
    let mut i: usize = 0;
    while i < a.keys.len()
        invariant
            i <= a.keys@.len(),
            a.keys@.len() == b.keys@.len(),
            a.wf(),
            b.wf(),
            forall|j: int| 0 <= j < i ==> (#[trigger] a.keys@[j])@ == b.keys@[j]@,
        decreases a.keys@.len() - i,
    {
        if !same(a.keys[i].as_str(), b.keys[i].as_str()) {
            proof {
                if a@.dom() == b@.dom() {
                    a.size();
                    b.size();
                    assert forall|k: Seq<Seq<char>>| a.listing().contains(k) <==> b.listing().contains(k) by {
                        assert(a.listing().to_set().contains(k) == b.listing().to_set().contains(k));
                    }
                    ascending_unique(a.listing(), b.listing());
                    assert(a.listing()[i as int] == seq![a.keys@[i as int]@]);
                    assert(b.listing()[i as int] == seq![b.keys@[i as int]@]);
                    assert(seq![a.keys@[i as int]@][0] == seq![b.keys@[i as int]@][0]);
                }
            }
            return false;
        }
        i = i + 1;
    }
    proof {
        assert(a.listing() =~= b.listing()) by {
            assert forall|j: int| 0 <= j < a.listing().len() implies a.listing()[j] == b.listing()[j] by {
                assert(a.keys@[j]@ == b.keys@[j]@);
                assert(a.listing()[j] =~= b.listing()[j]);
            }
        }
        a.size();
        b.size();
    }
    true
}

proof fn successors_state(scope: FilterScope, part: Set<StateModel>, state: StateModel, edge: StatedEdge)
    ensures
        scope.successors(part.insert(state), seq![edge]) == (if left_at(edge, scope.direction) == state.entity && scope.advanced(
            state,
            leads_to(edge, scope.direction),
        ) is Some {
            scope.successors(part, seq![edge]).insert(scope.advanced(state, leads_to(edge, scope.direction))->0)
        } else {
            scope.successors(part, seq![edge])
        }),
        scope.completes(part.insert(state), seq![edge]) == (scope.completes(part, seq![edge]) || (left_at(edge, scope.direction)
            == state.entity && state.completion is None && scope.advanced(state, leads_to(edge, scope.direction)) is Some
            && (scope.advanced(state, leads_to(edge, scope.direction))->0).completion is Some)),
{
    let edges = seq![edge];
    let more = part.insert(state);
    let here = scope.advanced(state, leads_to(edge, scope.direction));
    let all = if left_at(edge, scope.direction) == state.entity && here is Some {
        scope.successors(part, edges).insert(here->0)
    } else {
        scope.successors(part, edges)
    };
    assert forall|to: StateModel| scope.successors(more, edges).contains(to) <==> all.contains(to) by {
        if scope.successors(more, edges).contains(to) {
            let (from, i) = choose|from: StateModel, i: int|
                more.contains(from) && 0 <= i < edges.len() && #[trigger] scope.takes(from, edges[i], to);
            if from != state {
                assert(part.contains(from) && scope.takes(from, edges[i], to));
            }
        }
        if scope.successors(part, edges).contains(to) {
            let (from, i) = choose|from: StateModel, i: int|
                part.contains(from) && 0 <= i < edges.len() && #[trigger] scope.takes(from, edges[i], to);
            assert(more.contains(from) && scope.takes(from, edges[i], to));
        }
        if left_at(edge, scope.direction) == state.entity && here == Some(to) {
            assert(more.contains(state) && scope.takes(state, edges[0], to));
        }
    }
    assert(scope.successors(more, edges) =~= all);
    let last = left_at(edge, scope.direction) == state.entity && state.completion is None && here is Some && (here->0).completion is Some;
    if scope.completes(more, edges) {
        let (from, i, to) = choose|from: StateModel, i: int, to: StateModel|
            more.contains(from) && 0 <= i < edges.len() && from.completion is None && to.completion is Some && #[trigger] scope.takes(
                from,
                edges[i],
                to,
            );
        if from != state {
            assert(part.contains(from) && scope.takes(from, edges[i], to));
        }
    }
    if scope.completes(part, edges) {
        let (from, i, to) = choose|from: StateModel, i: int, to: StateModel|
            part.contains(from) && 0 <= i < edges.len() && from.completion is None && to.completion is Some && #[trigger] scope.takes(
                from,
                edges[i],
                to,
            );
        assert(more.contains(from) && scope.takes(from, edges[i], to));
    }
    if last {
        assert(more.contains(state) && scope.takes(state, edges[0], here->0));
    }
}

proof fn successors_edge(scope: FilterScope, states: Set<StateModel>, edges: Seq<StatedEdge>, k: int)
    requires
        0 <= k < edges.len(),
    ensures
        scope.successors(states, edges.take(k + 1)) == scope.successors(states, edges.take(k)).union(
            scope.successors(states, seq![edges[k]]),
        ),
        scope.completes(states, edges.take(k + 1)) == (scope.completes(states, edges.take(k)) || scope.completes(
            states,
            seq![edges[k]],
        )),
{
    let more = edges.take(k + 1);
    let less = edges.take(k);
    let one = seq![edges[k]];
    let all = scope.successors(states, less).union(scope.successors(states, one));
    assert forall|to: StateModel| scope.successors(states, more).contains(to) <==> all.contains(to) by {
        if scope.successors(states, more).contains(to) {
            let (from, i) = choose|from: StateModel, i: int|
                states.contains(from) && 0 <= i < more.len() && #[trigger] scope.takes(from, more[i], to);
            if i < k {
                assert(scope.takes(from, less[i], to));
            } else {
                assert(scope.takes(from, one[0], to));
            }
        }
        if scope.successors(states, less).contains(to) {
            let (from, i) = choose|from: StateModel, i: int|
                states.contains(from) && 0 <= i < less.len() && #[trigger] scope.takes(from, less[i], to);
            assert(scope.takes(from, more[i], to));
        }
        if scope.successors(states, one).contains(to) {
            let (from, i) = choose|from: StateModel, i: int|
                states.contains(from) && 0 <= i < one.len() && #[trigger] scope.takes(from, one[i], to);
            assert(scope.takes(from, more[k], to));
        }
    }
    assert(scope.successors(states, more) =~= all);
    if scope.completes(states, more) {
        let (from, i, to) = choose|from: StateModel, i: int, to: StateModel|
            states.contains(from) && 0 <= i < more.len() && from.completion is None && to.completion is Some && #[trigger] scope.takes(
                from,
                more[i],
                to,
            );
        if i < k {
            assert(scope.takes(from, less[i], to));
        } else {
            assert(scope.takes(from, one[0], to));
        }
    }
    if scope.completes(states, less) {
        let (from, i, to) = choose|from: StateModel, i: int, to: StateModel|
            states.contains(from) && 0 <= i < less.len() && from.completion is None && to.completion is Some && #[trigger] scope.takes(
                from,
                less[i],
                to,
            );
        assert(scope.takes(from, more[i], to));
    }
    if scope.completes(states, one) {
        let (from, i, to) = choose|from: StateModel, i: int, to: StateModel|
            states.contains(from) && 0 <= i < one.len() && from.completion is None && to.completion is Some && #[trigger] scope.takes(
                from,
                one[i],
                to,
            );
        assert(scope.takes(from, more[k], to));
    }
}

proof fn no_successors(scope: FilterScope, states: Set<StateModel>, edges: Seq<StatedEdge>)
    requires
        states == Set::<StateModel>::empty() || edges.len() == 0,
    ensures
        scope.successors(states, edges) == Set::<StateModel>::empty(),
        !scope.completes(states, edges),
{
    assert(scope.successors(states, edges) =~= Set::<StateModel>::empty());
}

proof fn prefix_set(list: Seq<StateModel>, k: int)
    requires
        0 <= k < list.len(),
    ensures
        list.take(k + 1).to_set() == list.take(k).to_set().insert(list[k]),
{
    let more = list.take(k + 1);
    let less = list.take(k);
    assert forall|x: StateModel| more.to_set().contains(x) <==> less.to_set().insert(list[k]).contains(x) by {
        if more.contains(x) {
            let j = choose|j: int| 0 <= j < more.len() && more[j] == x;
            if j < k {
                assert(less[j] == x);
            }
        }
        if less.contains(x) {
            let j = choose|j: int| 0 <= j < less.len() && less[j] == x;
            assert(more[j] == x);
        }
        if x == list[k] {
            assert(more[k] == x);
        }
    }
    assert(more.to_set() =~= less.to_set().insert(list[k]));
}

/// Takes the states along one dependency. States not seen before are next.
fn follow_edge(course: &Course<'_>, edge: &ResolvedDependencyRow, states: &StateSet, seen: &mut StateSet, next: &mut StateSet) -> (r: bool)
    requires
        course.wf(),
        states.wf(),
        old(seen).wf(),
        old(next).wf(),
    ensures
        final(seen).wf(),
        final(next).wf(),
        final(seen).models() == old(seen).models().union(course.scope().successors(states.models(), seq![edge@])),
        final(next).models() == old(next).models().union(
            course.scope().successors(states.models(), seq![edge@]).difference(old(seen).models()),
        ),
        r == course.scope().completes(states.models(), seq![edge@]),
{
    let ghost scope = course.scope();
    let ghost list = states.listed();
    let ghost seen0 = seen.models();
    let ghost next0 = next.models();
    let (current, target): (&String, &String) = traversal_predecessor(edge, course.direction);
    let mut completed: bool = false;
    let mut j: usize = 0;
    proof {
        assert(list.take(0).to_set() =~= Set::<StateModel>::empty());
        no_successors(scope, list.take(0).to_set(), seq![edge@]);
        assert(seen0.union(Set::<StateModel>::empty()) =~= seen0);
        assert(next0.union(Set::<StateModel>::empty().difference(seen0)) =~= next0);
    }
    while j < states.len()
        invariant
            j <= list.len(),
            list == states.listed(),
            scope == course.scope(),
            course.wf(),
            states.wf(),
            seen.wf(),
            next.wf(),
            current@ == left_at(edge@, scope.direction),
            target@ == leads_to(edge@, scope.direction),
            seen.models() == seen0.union(scope.successors(list.take(j as int).to_set(), seq![edge@])),
            next.models() == next0.union(scope.successors(list.take(j as int).to_set(), seq![edge@]).difference(seen0)),
            completed == scope.completes(list.take(j as int).to_set(), seq![edge@]),
        decreases list.len() - j,
    {
        let state: &TraversalState = states.at(j);
        let ghost part = list.take(j as int).to_set();
        proof {
            prefix_set(list, j as int);
            successors_state(scope, part, state@, edge@);
        }
        if same(state.entity.as_str(), current.as_str()) {
            match course.advance(state, target) {
                Some(moved) => {
                    let first: bool = match state.completion_repository {
                        Some(_) => false,
                        None => true,
                    };
                    let over: bool = match moved.completion_repository {
                        Some(_) => true,
                        None => false,
                    };
                    if first && over {
                        completed = true;
                    }
                    let ghost to = moved@;
                    let ghost before_seen = seen.models();
                    let ghost before_next = next.models();
                    if !seen.contains(&moved) {
                        seen.insert(moved.copy());
                        next.insert(moved);
                    }
                    proof {
                        let all = scope.successors(list.take(j as int + 1).to_set(), seq![edge@]);
                        assert(seen.models() =~= seen0.union(all));
                        assert(next.models() =~= next0.union(all.difference(seen0)));
                    }
                },
                None => {},
            }
        }
        j = j + 1;
    }
    assert(list.take(list.len() as int) =~= list);
    completed
}

/// Takes the states along some dependencies. States not seen before are returned.
fn follow_edges(course: &Course<'_>, edges: &Vec<ResolvedDependencyRow>, states: &StateSet, seen: &mut StateSet) -> (r: (StateSet, bool))
    requires
        course.wf(),
        states.wf(),
        old(seen).wf(),
    ensures
        r.0.wf(),
        final(seen).wf(),
        final(seen).models() == old(seen).models().union(course.scope().successors(states.models(), stated(edges@))),
        r.0.models() == course.scope().successors(states.models(), stated(edges@)).difference(old(seen).models()),
        r.1 == course.scope().completes(states.models(), stated(edges@)),
{
    let ghost scope = course.scope();
    let ghost list = stated(edges@);
    let ghost all = states.models();
    let ghost seen0 = seen.models();
    let mut next: StateSet = StateSet::new();
    let mut completed: bool = false;
    let mut i: usize = 0;
    proof {
        no_successors(scope, all, list.take(0));
        assert(seen0.union(Set::<StateModel>::empty()) =~= seen0);
        assert(next.models() =~= Set::<StateModel>::empty().difference(seen0));
    }
    while i < edges.len()
        invariant
            i <= edges@.len(),
            list == stated(edges@),
            all == states.models(),
            scope == course.scope(),
            course.wf(),
            states.wf(),
            seen.wf(),
            next.wf(),
            seen.models() == seen0.union(scope.successors(all, list.take(i as int))),
            next.models() == scope.successors(all, list.take(i as int)).difference(seen0),
            completed == scope.completes(all, list.take(i as int)),
        decreases edges@.len() - i,
    {
        let ghost before_seen = seen.models();
        let ghost before_next = next.models();
        let over: bool = follow_edge(course, &edges[i], states, seen, &mut next);
        proof {
            assert(list[i as int] == edges@[i as int]@);
            successors_edge(scope, all, list, i as int);
            let now = scope.successors(all, list.take(i as int + 1));
            assert(seen.models() =~= seen0.union(now));
            assert(next.models() =~= now.difference(seen0));
        }
        completed = completed || over;
        i = i + 1;
    }
    assert(list.take(list.len() as int) =~= list);
    (next, completed)
}

/// The entities at which some states stand.
fn entities(states: &StateSet) -> (r: TextSet)
    requires
        states.wf(),
    ensures
        r.wf(),
        r@.dom() == entities_of(states.models()),
{
    let ghost list = states.listed();
    let mut set: TextSet = SortedMap::new();
    let mut i: usize = 0;
    proof {
        assert(set@.dom() =~= entities_of(list.take(0).to_set()));
    }
    while i < states.len()
        invariant
            i <= list.len(),
            list == states.listed(),
            states.wf(),
            set.wf(),
            set@.dom() == entities_of(list.take(i as int).to_set()),
        decreases list.len() - i,
    {
        let state: &TraversalState = states.at(i);
        let ghost before = set@.dom();
        set.insert(state.entity.clone(), ());
        proof {
            prefix_set(list, i as int);
            let part = list.take(i as int).to_set();
            let more = part.insert(state@);
            assert forall|k: Seq<Seq<char>>| entities_of(more).contains(k) <==> before.insert(seq![state.entity@]).contains(k) by {
                if entities_of(more).contains(k) {
                    let from = choose|from: StateModel| #[trigger] more.contains(from) && k == seq![from.entity];
                    if from != state@ {
                        assert(part.contains(from));
                    }
                }
                if before.contains(k) {
                    let from = choose|from: StateModel| #[trigger] part.contains(from) && k == seq![from.entity];
                    assert(more.contains(from));
                }
                if k == seq![state.entity@] {
                    assert(more.contains(state@));
                }
            }
            assert(set@.dom() =~= entities_of(more));
        }
        i = i + 1;
    }
    assert(list.take(list.len() as int) =~= list);
    set
}

/// For each state its place in the order and its entity.
pub open spec fn active_row(list: Seq<StateModel>) -> spec_fn(int) -> Seq<Seq<CellModel>> {
    |i: int| seq![seq![CellModel::Integer(i), CellModel::Text(list[i].entity)]]
}

/// For each state with targets missing its place in the order and its entity.
pub open spec fn incomplete_row(list: Seq<StateModel>) -> spec_fn(int) -> Seq<Seq<CellModel>> {
    |i: int|
        if list[i].completion is None {
            seq![seq![CellModel::Integer(i), CellModel::Text(list[i].entity)]]
        } else {
            Seq::empty()
        }
}

/// For each state that has visited all targets its place in the order, its entity, and what the
/// identifiers in its repository begin with.
pub open spec fn completed_row(list: Seq<StateModel>) -> spec_fn(int) -> Seq<Seq<CellModel>> {
    |i: int|
        match list[i].completion {
            Some(repository) => seq![
                seq![CellModel::Integer(i), CellModel::Text(list[i].entity), CellModel::Text(prefix_of(repository))],
            ],
            None => Seq::empty(),
        }
}

/// For each state with targets missing its place in the order with each of those targets.
pub open spec fn missing_row(list: Seq<StateModel>, targets: Seq<Seq<char>>) -> spec_fn(int) -> Seq<Seq<CellModel>> {
    |i: int|
        if list[i].completion is None {
            missing_of(i, targets, list[i].visited)
        } else {
            Seq::empty()
        }
}

/// A place in the order with each target that is not visited.
pub open spec fn missing_of(i: int, targets: Seq<Seq<char>>, visited: Set<Seq<Seq<char>>>) -> Seq<Seq<CellModel>> {
    concat_map(
        targets,
        |target: Seq<char>|
            if visited.contains(seq![target]) {
                Seq::empty()
            } else {
                seq![seq![CellModel::Integer(i), CellModel::Text(target)]]
            },
    )
}

/// For each entity the targets that it leads into.
pub open spec fn reachable_row(list: Seq<(Seq<char>, Seq<Seq<char>>)>) -> spec_fn(int) -> Seq<Seq<CellModel>> {
    |i: int| concat_map(list[i].1, |target: Seq<char>| seq![seq![CellModel::Text(list[i].0), CellModel::Text(target)]])
}

/// The entities of a map with their sets, in order.
pub open spec fn reach_list(map: SortedMap<String, TextSet>) -> Seq<(Seq<char>, Seq<Seq<char>>)> {
    Seq::new(map.keys@.len(), |i: int| (map.keys@[i]@, texts(map.values@[i].keys@)))
}

/// What asks for the dependencies that some states may follow.
pub open spec fn forward_asked(
    view: Seq<char>,
    list: Seq<StateModel>,
    targets: Seq<Seq<char>>,
    reachable: Seq<(Seq<char>, Seq<Seq<char>>)>,
    direction: TraversalDirection,
    limit: int,
) -> CommandModel {
    CommandModel {
        script: FORWARD_INPUTS@ + (match direction {
            TraversalDirection::Outgoing => OUTGOING_CANDIDATES@,
            TraversalDirection::Incoming => INCOMING_CANDIDATES@,
        }) + FORWARD_RULES@,
        arguments: seq![
            ("view"@, ArgumentModel::One(CellModel::Text(view))),
            ("active"@, ArgumentModel::Rows(concat_range(list.len() as int, active_row(list)))),
            ("incomplete"@, ArgumentModel::Rows(concat_range(list.len() as int, incomplete_row(list)))),
            ("missing"@, ArgumentModel::Rows(concat_range(list.len() as int, missing_row(list, targets)))),
            ("reachable"@, ArgumentModel::Rows(concat_range(reachable.len() as int, reachable_row(reachable)))),
            ("completed"@, ArgumentModel::Rows(concat_range(list.len() as int, completed_row(list)))),
            ("limit"@, ArgumentModel::One(CellModel::Integer(limit))),
        ],
    }
}

/// Adds one row to some.
fn add_row(rows: &mut Vec<Vec<Cell>>, row: Vec<Cell>)
    ensures
        row_cells(final(rows)@) == row_cells(old(rows)@) + seq![cells(row@)],
{
    let ghost before = rows@;
    rows.push(row);
    assert(row_cells(rows@) =~= row_cells(before) + seq![cells(row@)]);
}

fn place_and_text(place: i64, text: &str) -> (r: Vec<Cell>)
    ensures
        cells(r@) == seq![CellModel::Integer(place as int), CellModel::Text(text@)],
{
    let mut row: Vec<Cell> = Vec::new();
    row.push(Cell::Integer(place));
    row.push(text_cell(text));
    assert(cells(row@) =~= seq![CellModel::Integer(place as int), CellModel::Text(text@)]);
    row
}

/// Adds a place in the order with each target that is not visited.
fn add_missing(rows: &mut Vec<Vec<Cell>>, place: i64, targets: &TextSet, visited: &TextSet)
    requires
        visited.wf(),
    ensures
        row_cells(final(rows)@) == row_cells(old(rows)@) + missing_of(place as int, texts(targets.keys@), visited@.dom()),
{
    let ghost names = texts(targets.keys@);
    let ghost before = row_cells(rows@);
    let ghost piece = |target: Seq<char>|
        if visited@.dom().contains(seq![target]) {
            Seq::<Seq<CellModel>>::empty()
        } else {
            seq![seq![CellModel::Integer(place as int), CellModel::Text(target)]]
        };
    let mut i: usize = 0;
    assert(before + concat_map(names.take(0), piece) =~= before);
    while i < targets.keys.len()
        invariant
            i <= targets.keys@.len(),
            names == texts(targets.keys@),
            visited.wf(),
            piece == (|target: Seq<char>|
                if visited@.dom().contains(seq![target]) {
                    Seq::<Seq<CellModel>>::empty()
                } else {
                    seq![seq![CellModel::Integer(place as int), CellModel::Text(target)]]
                }),
            row_cells(rows@) == before + concat_map(names.take(i as int), piece),
        decreases targets.keys@.len() - i,
    {
        let target: &String = &targets.keys[i];
        proof {
            concat_map_step(names, i as int, piece);
            assert(names[i as int] == target@);
            assert(target.key() == seq![target@]);
        }
        let ghost so_far = concat_map(names.take(i as int), piece);
        if !visited.contains_key(target) {
            add_row(rows, place_and_text(place, target.as_str()));
        }
        assert(row_cells(rows@) =~= before + (so_far + piece(target@)));
        i = i + 1;
    }
    assert(names.take(names.len() as int) =~= names);
}

/// Rows of an entity with each target of a set.
fn add_reachable(rows: &mut Vec<Vec<Cell>>, entity: &str, targets: &TextSet)
    ensures
        row_cells(final(rows)@) == row_cells(old(rows)@) + concat_map(
            texts(targets.keys@),
            |target: Seq<char>| seq![seq![CellModel::Text(entity@), CellModel::Text(target)]],
        ),
{
    let ghost names = texts(targets.keys@);
    let ghost before = row_cells(rows@);
    let ghost piece = |target: Seq<char>| seq![seq![CellModel::Text(entity@), CellModel::Text(target)]];
    let mut i: usize = 0;
    assert(before + concat_map(names.take(0), piece) =~= before);
    while i < targets.keys.len()
        invariant
            i <= targets.keys@.len(),
            names == texts(targets.keys@),
            piece == (|target: Seq<char>| seq![seq![CellModel::Text(entity@), CellModel::Text(target)]]),
            row_cells(rows@) == before + concat_map(names.take(i as int), piece),
        decreases targets.keys@.len() - i,
    {
        let target: &String = &targets.keys[i];
        proof {
            concat_map_step(names, i as int, piece);
            assert(names[i as int] == target@);
        }
        let ghost so_far = concat_map(names.take(i as int), piece);
        let mut row: Vec<Cell> = Vec::new();
        row.push(text_cell(entity));
        row.push(text_cell(target.as_str()));
        assert(cells(row@) =~= seq![CellModel::Text(entity@), CellModel::Text(target@)]);
        add_row(rows, row);
        assert(row_cells(rows@) =~= before + (so_far + piece(target@)));
        i = i + 1;
    }
    assert(names.take(names.len() as int) =~= names);
}

/// The rows that describe some states.
struct StateRows {
    active: Vec<Vec<Cell>>,
    incomplete: Vec<Vec<Cell>>,
    missing: Vec<Vec<Cell>>,
    completed: Vec<Vec<Cell>>,
}

fn state_rows(states: &StateSet, targets: &TextSet) -> (r: StateRows)
    requires
        states.wf(),
        states.listed().len() <= i64::MAX,
    ensures
        row_cells(r.active@) == concat_range(states.listed().len() as int, active_row(states.listed())),
        row_cells(r.incomplete@) == concat_range(states.listed().len() as int, incomplete_row(states.listed())),
        row_cells(r.missing@) == concat_range(states.listed().len() as int, missing_row(states.listed(), texts(targets.keys@))),
        row_cells(r.completed@) == concat_range(states.listed().len() as int, completed_row(states.listed())),
{
    let ghost list = states.listed();
    let ghost names = texts(targets.keys@);
    let mut rows: StateRows = StateRows { active: Vec::new(), incomplete: Vec::new(), missing: Vec::new(), completed: Vec::new() };
    let mut i: usize = 0;
    proof {
        assert(row_cells(rows.active@) =~= Seq::<Seq<CellModel>>::empty());
        assert(row_cells(rows.incomplete@) =~= Seq::<Seq<CellModel>>::empty());
        assert(row_cells(rows.missing@) =~= Seq::<Seq<CellModel>>::empty());
        assert(row_cells(rows.completed@) =~= Seq::<Seq<CellModel>>::empty());
    }
    while i < states.len()
        invariant
            i <= list.len(),
            list == states.listed(),
            list.len() <= i64::MAX,
            names == texts(targets.keys@),
            states.wf(),
            row_cells(rows.active@) == concat_range(i as int, active_row(list)),
            row_cells(rows.incomplete@) == concat_range(i as int, incomplete_row(list)),
            row_cells(rows.missing@) == concat_range(i as int, missing_row(list, names)),
            row_cells(rows.completed@) == concat_range(i as int, completed_row(list)),
        decreases list.len() - i,
    {
        let state: &TraversalState = states.at(i);
        let place: i64 = i as i64;
        add_row(&mut rows.active, place_and_text(place, state.entity.as_str()));
        match &state.completion_repository {
            Some(repository) => {
                let mut row: Vec<Cell> = place_and_text(place, state.entity.as_str());
                let ghost front = row@;
                row.push(Cell::Text(target_prefix(repository.as_str())));
                assert(cells(row@) =~= cells(front).push(CellModel::Text(prefix_of(repository@))));
                assert(cells(row@) =~= seq![
                    CellModel::Integer(place as int),
                    CellModel::Text(state.entity@),
                    CellModel::Text(prefix_of(repository@)),
                ]);
                add_row(&mut rows.completed, row);
                proof {
                    assert(concat_range(i as int, incomplete_row(list)) + Seq::<Seq<CellModel>>::empty() =~= concat_range(
                        i as int,
                        incomplete_row(list),
                    ));
                    assert(concat_range(i as int, missing_row(list, names)) + Seq::<Seq<CellModel>>::empty() =~= concat_range(
                        i as int,
                        missing_row(list, names),
                    ));
                }
            },
            None => {
                add_row(&mut rows.incomplete, place_and_text(place, state.entity.as_str()));
                add_missing(&mut rows.missing, place, targets, &state.visited_targets);
                proof {
                    assert(concat_range(i as int, completed_row(list)) + Seq::<Seq<CellModel>>::empty() =~= concat_range(
                        i as int,
                        completed_row(list),
                    ));
                }
            },
        }
        i = i + 1;
    }
    rows
}

fn reachable_rows(reachable: &SortedMap<String, TextSet>) -> (r: Vec<Vec<Cell>>)
    requires
        reachable.wf(),
    ensures
        row_cells(r@) == concat_range(reach_list(*reachable).len() as int, reachable_row(reach_list(*reachable))),
{
    let ghost list = reach_list(*reachable);
    let mut rows: Vec<Vec<Cell>> = Vec::new();
    let mut i: usize = 0;
    assert(row_cells(rows@) =~= Seq::<Seq<CellModel>>::empty());
    while i < reachable.keys.len()
        invariant
            i <= reachable.keys@.len(),
            reachable.keys@.len() == reachable.values@.len(),
            list == reach_list(*reachable),
            row_cells(rows@) == concat_range(i as int, reachable_row(list)),
        decreases reachable.keys@.len() - i,
    {
        add_reachable(&mut rows, reachable.keys[i].as_str(), &reachable.values[i]);
        i = i + 1;
    }
    rows
}

/// Asks for the dependencies that some states may follow.
fn ask_forward(
    view: &str,
    states: &StateSet,
    targets: &TextSet,
    reachable: &SortedMap<String, TextSet>,
    direction: TraversalDirection,
    limit: i64,
) -> (r: Command)
    requires
        states.wf(),
        states.listed().len() <= i64::MAX,
        reachable.wf(),
    ensures
        r@ == forward_asked(view@, states.listed(), texts(targets.keys@), reach_list(*reachable), direction, limit as int),
{
    let rows: StateRows = state_rows(states, targets);
    let mut script: String = FORWARD_INPUTS.to_owned();
    match direction {
        TraversalDirection::Outgoing => {
            script.append(OUTGOING_CANDIDATES);
        },
        TraversalDirection::Incoming => {
            script.append(INCOMING_CANDIDATES);
        },
    }
    script.append(FORWARD_RULES);
    let mut arguments: Vec<Binding> = Vec::new();
    arguments.push(bind_text("view", view));
    arguments.push(bind_rows("active", rows.active));
    arguments.push(bind_rows("incomplete", rows.incomplete));
    arguments.push(bind_rows("missing", rows.missing));
    arguments.push(bind_rows("reachable", reachable_rows(reachable)));
    arguments.push(bind_rows("completed", rows.completed));
    arguments.push(bind_integer("limit", limit));
    let command: Command = Command { script, arguments };
    proof {
        let wanted = forward_asked(view@, states.listed(), texts(targets.keys@), reach_list(*reachable), direction, limit as int);
        assert(bindings(command.arguments@) =~= wanted.arguments);
    }
    command
}

/// The dependencies and the boundaries that the first `n` rows of an answer state; the first
/// error remains.
pub open spec fn decoded_forward(headers: Seq<Seq<char>>, rows: Seq<Vec<InspectionValue>>, n: int) -> Result<
    (Seq<StatedEdge>, Set<Seq<Seq<char>>>),
    Seq<char>,
>
    decreases n,
{
    if n <= 0 {
        Ok((Seq::empty(), Set::empty()))
    } else {
        match decoded_forward(headers, rows, n - 1) {
            Err(message) => Err(message),
            Ok((edges, boundaries)) => {
                let row = rows[n - 1]@;
                if cell_text(row, 0) == Some("edge"@) {
                    match decoded_dependency(headers, row, 1) {
                        Ok(edge) => Ok((edges.push(edge), boundaries)),
                        Err(detail) => Err(
                            "Mnestic query "@ + "traversal.repository_filter.forward"@ + " failed: "@ + detail,
                        ),
                    }
                } else if cell_text(row, 0) == Some("boundary"@) {
                    match cell_text(row, 1) {
                        Some(entity) => Ok((edges, boundaries.insert(seq![entity]))),
                        None => Err("repository boundary entity is not a string"@),
                    }
                } else {
                    Err("unknown repository-filtered traversal row"@)
                }
            },
        }
    }
}

proof fn decoded_forward_error(headers: Seq<Seq<char>>, rows: Seq<Vec<InspectionValue>>, k: int, n: int)
    requires
        0 <= k <= n,
        decoded_forward(headers, rows, k) is Err,
    ensures
        decoded_forward(headers, rows, n) == decoded_forward(headers, rows, k),
    decreases n - k,
{
    if k < n {
        decoded_forward_error(headers, rows, k, n - 1);
    }
}

/// The dependencies that some states may follow, and the entities at which others leave the
/// repository of completion.
pub struct ForwardAcquisition {
    pub edges: Vec<ResolvedDependencyRow>,
    pub boundaries: TextSet,
}

/// Reads the answer to what the states may follow.
pub fn filtered_forward(result: &InspectionResult) -> (r: Result<ForwardAcquisition, String>)
    requires
        result.headers@.len() >= 7,
    ensures
        r is Ok <==> decoded_forward(texts(result.headers@), result.rows@, result.rows@.len() as int) is Ok,
        r is Ok ==> {
            let (edges, boundaries) = decoded_forward(texts(result.headers@), result.rows@, result.rows@.len() as int)->Ok_0;
            &&& stated(r->Ok_0.edges@) == edges
            &&& r->Ok_0.boundaries.wf()
            &&& r->Ok_0.boundaries@.dom() == boundaries
        },
        r is Err ==> r->Err_0@ == decoded_forward(texts(result.headers@), result.rows@, result.rows@.len() as int)->Err_0,
{
    let rows: &Vec<Vec<InspectionValue>> = &result.rows;
    let ghost headers = texts(result.headers@);
    let mut edges: Vec<ResolvedDependencyRow> = Vec::new();
    let mut boundaries: TextSet = SortedMap::new();
    let mut i: usize = 0;
    proof {
        assert(stated(edges@) =~= Seq::<StatedEdge>::empty());
        assert(boundaries@.dom() =~= Set::<Seq<Seq<char>>>::empty());
    }
    while i < rows.len()
        invariant
            i <= rows@.len(),
            rows@ == result.rows@,
            headers == texts(result.headers@),
            result.headers@.len() >= 7,
            boundaries.wf(),
            decoded_forward(headers, rows@, i as int) == Ok::<(Seq<StatedEdge>, Set<Seq<Seq<char>>>), Seq<char>>(
                (stated(edges@), boundaries@.dom()),
            ),
        decreases rows@.len() - i,
    {
        let row: &Vec<InspectionValue> = &rows[i];
        let kind: Option<&str> = if row.len() > 0 {
            row[0].as_str()
        } else {
            None
        };
        let ghost edges0 = edges@;
        let ghost boundaries0 = boundaries@.dom();
        let (edge, boundary): (bool, bool) = match kind {
            Some(kind) => (same(kind, "edge"), same(kind, "boundary")),
            None => (false, false),
        };
        if edge {
            match decode_resolved_dependency("traversal.repository_filter.forward", &result.headers, row, 1) {
                Ok(found) => {
                    edges.push(found);
                    assert(stated(edges@) =~= stated(edges0).push(found@));
                },
                Err(error) => {
                    proof {
                        decoded_forward_error(headers, rows@, i as int + 1, rows@.len() as int);
                    }
                    return Err(error.message());
                },
            }
        } else if boundary {
            let entity: Option<&str> = if row.len() > 1 {
                row[1].as_str()
            } else {
                None
            };
            match entity {
                Some(entity) => {
                    let name: String = entity.to_owned();
                    assert(name.key() == seq![entity@]);
                    boundaries.insert(name, ());
                    assert(boundaries@.dom() =~= boundaries0.insert(seq![entity@]));
                },
                None => {
                    proof {
                        reveal_strlit("edge");
                        reveal_strlit("boundary");
                        assert("edge"@.len() == 4 && "boundary"@.len() == 8);
                        decoded_forward_error(headers, rows@, i as int + 1, rows@.len() as int);
                    }
                    return Err("repository boundary entity is not a string".to_owned());
                },
            }
        } else {
            proof {
                decoded_forward_error(headers, rows@, i as int + 1, rows@.len() as int);
            }
            return Err("unknown repository-filtered traversal row".to_owned());
        }
        i = i + 1;
    }
    Ok(ForwardAcquisition { edges, boundaries })
}

/// The acquisition of the dependencies on the ways from a start through all target
/// repositories. The number of rows is limited.
pub struct FilteredSearch {
    direction: TraversalDirection,
    max_hops: u32,
    targets: TextSet,
    reachable: SortedMap<String, TextSet>,
    hops: u32,
    states: StateSet,
    seen: StateSet,
    found: Vec<(u32, ResolvedDependencyRow)>,
    incomplete: TextSet,
    boundaries: TextSet,
    remaining: u32,
    completed: bool,
    done: bool,
}

impl View for FilteredSearch {
    type V = FilterModel;

    closed spec fn view(&self) -> FilterModel {
        FilterModel {
            hops: self.hops as nat,
            states: self.states.models(),
            seen: self.seen.models(),
            found: found_models(self.found@),
            incomplete: self.incomplete@.dom(),
            boundaries: self.boundaries@.dom(),
            remaining: self.remaining as nat,
            completed: self.completed,
            done: self.done,
        }
    }
}

/// The texts of a list as a set of keys.
pub open spec fn keys_of(list: Seq<Seq<char>>) -> Set<Seq<Seq<char>>> {
    Set::new(|k: Seq<Seq<char>>| exists|i: int| 0 <= i < list.len() && k == seq![#[trigger] list[i]])
}

/// The texts of a list as a set.
pub fn set_of(list: &Vec<String>) -> (r: TextSet)
    ensures
        r.wf(),
        r@.dom() == keys_of(texts(list@)),
{
    let ghost names = texts(list@);
    let mut set: TextSet = SortedMap::new();
    let mut i: usize = 0;
    assert(set@.dom() =~= keys_of(names.take(0)));
    while i < list.len()
        invariant
            i <= list@.len(),
            names == texts(list@),
            set.wf(),
            set@.dom() == keys_of(names.take(i as int)),
        decreases list@.len() - i,
    {
        let ghost before = set@.dom();
        set.insert(list[i].clone(), ());
        proof {
            let less = names.take(i as int);
            let more = names.take(i as int + 1);
            assert(names[i as int] == list@[i as int]@);
            assert forall|k: Seq<Seq<char>>| keys_of(more).contains(k) <==> before.insert(seq![names[i as int]]).contains(k) by {
                if keys_of(more).contains(k) {
                    let j = choose|j: int| 0 <= j < more.len() && k == seq![#[trigger] more[j]];
                    if j < i {
                        assert(less[j] == more[j]);
                    }
                }
                if keys_of(less).contains(k) {
                    let j = choose|j: int| 0 <= j < less.len() && k == seq![#[trigger] less[j]];
                    assert(more[j] == less[j]);
                }
                if k == seq![names[i as int]] {
                    assert(more[i as int] == names[i as int]);
                }
            }
            assert(set@.dom() =~= keys_of(more));
        }
        i = i + 1;
    }
    assert(names.take(names.len() as int) =~= names);
    set
}

impl FilteredSearch {
    /// The sets are sets.
    pub closed spec fn wf(&self) -> bool {
        &&& self.targets.wf()
        &&& reach_wf(self.reachable)
        &&& self.states.wf()
        &&& self.seen.wf()
        &&& self.incomplete.wf()
        &&& self.boundaries.wf()
        &&& self.hops <= self.max_hops
        &&& !self.done ==> self.incomplete@.dom() == Set::<Seq<Seq<char>>>::empty()
    }

    /// What the acquisition is about.
    pub closed spec fn scope(&self) -> FilterScope {
        FilterScope {
            direction: self.direction,
            max_hops: self.max_hops as nat,
            targets: self.targets@.dom(),
            reachable: reach_models(self.reachable@),
        }
    }

    /// The states, in order.
    pub closed spec fn listed(&self) -> Seq<StateModel> {
        self.states.listed()
    }

    /// The targets, in order.
    pub closed spec fn target_list(&self) -> Seq<Seq<char>> {
        texts(self.targets.keys@)
    }

    /// The entities that lead into targets, in order.
    pub closed spec fn reachable_list(&self) -> Seq<(Seq<char>, Seq<Seq<char>>)> {
        reach_list(self.reachable)
    }

    /// The states are those listed.
    pub proof fn lists_states(&self)
        ensures
            self.listed().to_set() == self@.states,
    {
    }

    /// Starts at an entity, with what is known of the ways into the targets; without that
    /// knowledge it is over, and the start counts as incomplete.
    pub fn start(
        start: &str,
        targets: &Vec<String>,
        direction: TraversalDirection,
        max_hops: u32,
        reachable: Option<SortedMap<String, TextSet>>,
        remaining: u32,
    ) -> (r: FilteredSearch)
        requires
            reachable is Some ==> reach_wf(reachable->0),
        ensures
            r.wf(),
            r.scope() == (FilterScope {
                direction,
                max_hops: max_hops as nat,
                targets: keys_of(texts(targets@)),
                reachable: match reachable {
                    Some(known) => reach_models(known@),
                    None => Map::empty(),
                },
            }),
            r@ == (match reachable {
                Some(_) => filter_started(r.scope(), start@, remaining as nat),
                None => filter_over(set![seq![start@]], remaining as nat),
            }),
    {
        let mut search: FilteredSearch = FilteredSearch {
            direction,
            max_hops,
            targets: set_of(targets),
            reachable: SortedMap::new(),
            hops: 0,
            states: StateSet::new(),
            seen: StateSet::new(),
            found: Vec::new(),
            incomplete: SortedMap::new(),
            boundaries: SortedMap::new(),
            remaining,
            completed: false,
            done: true,
        };
        proof {
            assert(search@.found =~= Seq::<(nat, StatedEdge)>::empty());
            assert(search@.incomplete =~= Set::<Seq<Seq<char>>>::empty());
            assert(search@.boundaries =~= Set::<Seq<Seq<char>>>::empty());
            assert(search.scope().reachable =~= Map::<Seq<Seq<char>>, Set<Seq<Seq<char>>>>::empty());
        }
        match reachable {
            None => {
                search.incomplete = only(start);
                search
            },
            Some(known) => {
                search.reachable = known;
                search.begin(start);
                search
            },
        }
    }

    fn begin(&mut self, start: &str)
        requires
            old(self).wf(),
            old(self)@ == filter_over(Set::empty(), old(self)@.remaining),
        ensures
            final(self).wf(),
            final(self).scope() == old(self).scope(),
            final(self)@ == filter_started(old(self).scope(), start@, old(self)@.remaining),
    {
        let ghost scope = self.scope();
        let home: Option<String> = repository(start);
        let mut visited: TextSet = SortedMap::new();
        assert(visited@.dom() =~= Set::<Seq<Seq<char>>>::empty());
        match &home {
            Some(found) => {
                assert(found.key() == seq![found@]);
                if self.targets.contains_key(found) {
                    visited.insert(found.clone(), ());
                    assert(visited@.dom() =~= set![seq![found@]]);
                }
            },
            None => {},
        }
        assert(visited@.dom() == visited_at_start(scope, start@));
        let entity: String = start.to_owned();
        let course: Course<'_> = Course {
            direction: self.direction,
            max_hops: self.max_hops,
            targets: &self.targets,
            reachable: &self.reachable,
        };
        if !course.on_course(&entity, &visited) {
            return;
        }
        let all: bool = subset(&self.targets, &visited);
        let completion: Option<String> = if all {
            home
        } else {
            None
        };
        self.completed = match &completion {
            Some(_) => true,
            None => false,
        };
        let state: TraversalState = TraversalState { entity, visited_targets: visited, completion_repository: completion };
        proof {
            assert(all == (scope.targets.difference(visited@.dom()) == Set::<Seq<Seq<char>>>::empty())) by {
                if all {
                    assert(scope.targets.difference(visited@.dom()) =~= Set::<Seq<Seq<char>>>::empty());
                } else if scope.targets.difference(visited@.dom()) == Set::<Seq<Seq<char>>>::empty() {
                    assert forall|k: Seq<Seq<char>>| scope.targets.contains(k) implies visited@.dom().contains(k) by {
                        if !visited@.dom().contains(k) {
                            assert(scope.targets.difference(visited@.dom()).contains(k));
                        }
                    }
                }
            }
            assert(state@ == state_at_start(scope, start@));
        }
        self.seen.insert(state.copy());
        self.states.insert(state);
        self.done = false;
        proof {
            assert(self@.states =~= set![state_at_start(scope, start@)]);
            assert(self@.seen =~= set![state_at_start(scope, start@)]);
        }
    }

    /// Whether nothing more is to be asked.
    pub fn is_done(&self) -> (r: bool)
        ensures
            r == self@.done,
    {
        self.done
    }

    /// Asks for what the states may follow. As many rows are asked for as may be kept, and one
    /// more, and one for each state, so that the answer tells whether they suffice. There is no
    /// such question if that number is too large for one.
    pub fn request(&self, view: &str) -> (r: Option<Command>)
        requires
            self.wf(),
        ensures
            r is Some <==> self@.remaining + self.listed().len() + 1 <= i64::MAX,
            r is Some ==> (r->0)@ == forward_asked(
                view@,
                self.listed(),
                self.target_list(),
                self.reachable_list(),
                self.scope().direction,
                self@.remaining + self.listed().len() + 1int,
            ),
    {
        let limit: u128 = self.remaining as u128 + self.states.len() as u128 + 1;
        if limit > i64::MAX as u128 {
            return None;
        }
        Some(ask_forward(view, &self.states, &self.targets, &self.reachable, self.direction, limit as i64))
    }

    /// Takes in the answer to what was asked.
    pub fn receive(&mut self, answer: ForwardAcquisition)
        requires
            old(self).wf(),
            answer.boundaries.wf(),
        ensures
            final(self).wf(),
            final(self).scope() == old(self).scope(),
            final(self)@ == filter_step(old(self).scope(), old(self)@, stated(answer.edges@), answer.boundaries@.dom()),
    {
        if self.done {
            return;
        }
        let ghost before = self@;
        let ghost scope = self.scope();
        let ghost edges = stated(answer.edges@);
        add_all(&mut self.boundaries, &answer.boundaries);
        let count: usize = answer.edges.len();
        if count > self.remaining as usize {
            let known: TextSet = entities(&self.states);
            self.incomplete = known;
            self.done = true;
            return;
        }
        self.remaining = self.remaining - count as u32;
        let course: Course<'_> = Course {
            direction: self.direction,
            max_hops: self.max_hops,
            targets: &self.targets,
            reachable: &self.reachable,
        };
        let (next, over): (StateSet, bool) = follow_edges(&course, &answer.edges, &self.states, &mut self.seen);
        self.completed = self.completed || over;
        let ghost found = self.found@;
        let mut tagged: Vec<(u32, ResolvedDependencyRow)> = tag(self.hops, answer.edges);
        self.found.append(&mut tagged);
        proof {
            assert(found_models(self.found@) =~= found_models(found) + at_hops(before.hops, edges));
        }
        if self.hops >= self.max_hops {
            let known: TextSet = entities(&next);
            self.incomplete = known;
            self.done = true;
        } else {
            self.hops = self.hops + 1;
            self.done = next.len() == 0;
            proof {
                assert((next.listed().len() == 0) == (next.models() == Set::<StateModel>::empty())) by {
                    if next.listed().len() == 0 {
                        assert(next.models() =~= Set::<StateModel>::empty());
                    } else {
                        assert(next.models().contains(next.listed()[0]));
                    }
                }
            }
            self.states = next;
        }
    }

    /// What was acquired. Unless some way was found through all targets, there are no rows and
    /// no boundaries.
    pub fn finish(self) -> (r: Acquired)
        requires
            self.wf(),
        ensures
            found_models(r.found@) == (if self@.completed {
                self@.found
            } else {
                Seq::empty()
            }),
            r.incomplete.wf(),
            r.incomplete@.dom() == self@.incomplete,
            r.boundaries.wf(),
            r.boundaries@.dom() == (if self@.completed {
                self@.boundaries
            } else {
                Set::<Seq<Seq<char>>>::empty()
            }),
            reach_wf(r.reachable),
            reach_models(r.reachable@) == self.scope().reachable,
    {
        if self.completed {
            Acquired { found: self.found, incomplete: self.incomplete, boundaries: self.boundaries, reachable: self.reachable }
        } else {
            let found: Vec<(u32, ResolvedDependencyRow)> = Vec::new();
            let boundaries: TextSet = SortedMap::new();
            proof {
                assert(found_models(found@) =~= Seq::<(nat, StatedEdge)>::empty());
                assert(boundaries@.dom() =~= Set::<Seq<Seq<char>>>::empty());
            }
            Acquired { found, incomplete: self.incomplete, boundaries, reachable: self.reachable }
        }
    }
}

/// Whether all of one set is in another.
pub fn subset(a: &TextSet, b: &TextSet) -> (r: bool)
    requires
        a.wf(),
        b.wf(),
    ensures
        r == a@.dom().subset_of(b@.dom()),
{
    let mut i: usize = 0;
    while i < a.keys.len()
        invariant
            i <= a.keys@.len(),
            a.wf(),
            b.wf(),
            forall|j: int| 0 <= j < i ==> b@.dom().contains((#[trigger] a.keys@[j]).key()),
        decreases a.keys@.len() - i,
    {
        if !b.contains_key(&a.keys[i]) {
            proof {
                a.entry(i as int);
            }
            return false;
        }
        i = i + 1;
    }
    proof {
        assert forall|k: Seq<Seq<char>>| a@.dom().contains(k) implies b@.dom().contains(k) by {
            let j = a.position(k);
            assert(a.keys@[j].key() == k);
        }
    }
    true
}

/// What holds of every state that a filtered acquisition comes to: it has visited nothing but
/// targets, from where it stands the missing ones can be visited, and it knows the repository
/// of completion once none is missing.
pub open spec fn state_on_course(scope: FilterScope, state: StateModel) -> bool {
    &&& state.visited.subset_of(scope.targets)
    &&& scope.on_course(state.entity, state.visited)
    &&& state.completion matches Some(repository) ==> repository_of(state.entity) == Some(repository)
    &&& scope.targets != Set::<Seq<Seq<char>>>::empty() ==> {
        &&& state.completion is Some ==> state.visited == scope.targets && scope.targets.contains(seq![state.completion->0])
        &&& state.visited == scope.targets ==> state.completion is Some
    }
}

/// A step keeps a state on course.
pub proof fn advancing_stays_on_course(scope: FilterScope, state: StateModel, next: Seq<char>)
    requires
        state_on_course(scope, state),
        scope.advanced(state, next) is Some,
    ensures
        state_on_course(scope, scope.advanced(state, next)->0),
{
}

/// The state at the start is on course, unless nothing is asked from there.
pub proof fn starts_on_course(scope: FilterScope, start: Seq<char>)
    requires
        scope.on_course(start, visited_at_start(scope, start)),
    ensures
        state_on_course(scope, state_at_start(scope, start)),
{
    let state = state_at_start(scope, start);
    let missing = scope.targets.difference(state.visited);
    if missing == Set::<Seq<Seq<char>>>::empty() {
        assert forall|k: Seq<Seq<char>>| scope.targets.contains(k) implies state.visited.contains(k) by {
            if !state.visited.contains(k) {
                assert(missing.contains(k));
            }
        }
        assert(state.visited.subset_of(scope.targets));
        assert(state.visited =~= scope.targets);
        if scope.targets != Set::<Seq<Seq<char>>>::empty() && repository_of(start) is None {
            assert(scope.targets =~= Set::<Seq<Seq<char>>>::empty());
        }
        if scope.targets != Set::<Seq<Seq<char>>>::empty() && !scope.targets.contains(seq![repository_of(start)->0]) {
            assert(scope.targets =~= Set::<Seq<Seq<char>>>::empty());
        }
    } else {
        if state.visited == scope.targets {
            assert(missing =~= Set::<Seq<Seq<char>>>::empty());
        }
    }
}

/// Every state that a filtered acquisition comes to is on course, and the acquisition keeps to
/// its rows: what it has found and what remains add up.
pub proof fn filtered_acquisitions_stay_on_course(scope: FilterScope, model: FilterModel, edges: Seq<StatedEdge>, boundaries: Set<Seq<Seq<char>>>)
    requires
        forall|state: StateModel| #[trigger] model.states.contains(state) ==> state_on_course(scope, state),
        forall|state: StateModel| #[trigger] model.seen.contains(state) ==> state_on_course(scope, state),
    ensures
        ({
            let after = filter_step(scope, model, edges, boundaries);
            &&& forall|state: StateModel| #[trigger] after.states.contains(state) ==> state_on_course(scope, state)
            &&& forall|state: StateModel| #[trigger] after.seen.contains(state) ==> state_on_course(scope, state)
            &&& after.found.len() + after.remaining == model.found.len() + model.remaining
        }),
{
    assert forall|to: StateModel| #[trigger] scope.successors(model.states, edges).contains(to) implies state_on_course(scope, to) by {
        let (from, i) = choose|from: StateModel, i: int|
            model.states.contains(from) && 0 <= i < edges.len() && #[trigger] scope.takes(from, edges[i], to);
        advancing_stays_on_course(scope, from, leads_to(edges[i], scope.direction));
    }
}

/// The state that a walk comes to, if a filtered acquisition follows it.
pub open spec fn state_after(scope: FilterScope, nodes: Seq<Seq<char>>) -> Option<StateModel>
    decreases nodes.len(),
{
    if nodes.len() <= 1 {
        Some(state_at_start(scope, nodes[0]))
    } else {
        match state_after(scope, nodes.drop_last()) {
            Some(state) => scope.advanced(state, nodes.last()),
            None => None,
        }
    }
}

/// Whether a walk comes by a repository.
pub open spec fn comes_by(nodes: Seq<Seq<char>>, repository: Seq<char>) -> bool {
    exists|j: int| 0 <= j < nodes.len() && repository_of(#[trigger] nodes[j]) == Some(repository)
}

proof fn comes_by_more(nodes: Seq<Seq<char>>, repository: Seq<char>)
    requires
        nodes.len() > 1,
    ensures
        comes_by(nodes, repository) <==> comes_by(nodes.drop_last(), repository) || repository_of(nodes.last()) == Some(repository),
{
    let less = nodes.drop_last();
    if comes_by(less, repository) {
        let j = choose|j: int| 0 <= j < less.len() && repository_of(#[trigger] less[j]) == Some(repository);
        assert(nodes[j] == less[j]);
    }
    if repository_of(nodes.last()) == Some(repository) {
        assert(repository_of(nodes[nodes.len() - 1]) == Some(repository));
    }
    if comes_by(nodes, repository) {
        let j = choose|j: int| 0 <= j < nodes.len() && repository_of(#[trigger] nodes[j]) == Some(repository);
        if j < less.len() {
            assert(less[j] == nodes[j]);
        }
    }
}

/// A walk that a filtered acquisition follows is remembered by the entity that it has come to and
/// by the targets that it has come by. It is complete exactly if it has come by all of them, and
/// then it stands in the repository of completion.
pub proof fn states_remember_the_targets_on_their_way(scope: FilterScope, nodes: Seq<Seq<char>>)
    requires
        nodes.len() > 0,
        state_after(scope, nodes) is Some,
        scope.targets != Set::<Seq<Seq<char>>>::empty(),
        forall|key: Seq<Seq<char>>| #[trigger] scope.targets.contains(key) ==> key == seq![key[0]],
    ensures
        ({
            let state = state_after(scope, nodes)->0;
            &&& state.entity == nodes.last()
            &&& state.visited.subset_of(scope.targets)
            &&& forall|target: Seq<char>| #[trigger]
                scope.targets.contains(seq![target]) ==> (state.visited.contains(seq![target]) <==> comes_by(nodes, target))
            &&& state.completion is Some <==> state.visited == scope.targets
            &&& state.completion is Some ==> repository_of(nodes.last()) == state.completion
        }),
    decreases nodes.len(),
{
    let state = state_after(scope, nodes)->0;
    if nodes.len() == 1 {
        let start = nodes[0];
        assert forall|target: Seq<char>| #[trigger] scope.targets.contains(seq![target]) implies (state.visited.contains(seq![target])
            <==> comes_by(nodes, target)) by {
            assert(seq![target][0] == target);
            if repository_of(start) == Some(target) {
                assert(repository_of(nodes[0]) == Some(target));
            }
            if state.visited.contains(seq![target]) {
                let home = repository_of(start)->0;
                assert(seq![home][0] == seq![target][0]);
                assert(repository_of(nodes[0]) == Some(target));
            }
        }
        if scope.targets.difference(state.visited) == Set::<Seq<Seq<char>>>::empty() {
            assert forall|key: Seq<Seq<char>>| scope.targets.contains(key) <==> state.visited.contains(key) by {
                if scope.targets.contains(key) && !state.visited.contains(key) {
                    assert(scope.targets.difference(state.visited).contains(key));
                }
            }
            assert(state.visited =~= scope.targets);
            let key = choose|key: Seq<Seq<char>>| scope.targets.contains(key);
            assert(scope.targets.contains(key)) by {
                if forall|key: Seq<Seq<char>>| !scope.targets.contains(key) {
                    assert(scope.targets =~= Set::empty());
                }
            }
            assert(state.visited.contains(key));
        }
        if state.visited == scope.targets {
            assert(scope.targets.difference(state.visited) =~= Set::empty());
        }
    } else {
        let less = nodes.drop_last();
        states_remember_the_targets_on_their_way(scope, less);
        let before = state_after(scope, less)->0;
        let next = nodes.last();
        assert forall|target: Seq<char>| #[trigger] scope.targets.contains(seq![target]) implies (state.visited.contains(seq![target])
            <==> comes_by(nodes, target)) by {
            comes_by_more(nodes, target);
            assert(seq![target][0] == target);
            assert(before.visited.contains(seq![target]) <==> comes_by(less, target));
            if let Some(found) = repository_of(next) {
                assert(seq![found][0] == found);
            }
        }
    }
}

/// A filtered acquisition takes a dependency from where its walk stands to where it arrives.
pub proof fn steps_go_along_dependencies(scope: FilterScope, state: StateModel, edge: StatedEdge, to: StateModel)
    requires
        scope.takes(state, edge, to),
    ensures
        departs(edge, scope.direction) == state.entity,
        arrives(edge, scope.direction) == to.entity,
{
}

} // verus!
