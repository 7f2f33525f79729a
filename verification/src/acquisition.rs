//! What a traversal looks at, acquired from the database question by question.

use crate::closure::found_models;
use crate::command::{Command, CommandModel};
use crate::dependency::{
    decoded_dependencies, dependencies_asked, dependency_rows, stated, IncomingResolvedDependencies, OutgoingResolvedDependencies,
    ResolvedDependencyRow,
};
use crate::domain::optional_text;
use crate::filtered::{
    decoded_forward, filter_over, filter_started, filter_step, filtered_acquisitions_stay_on_course, filtered_forward, forward_asked,
    keys_of, starts_on_course, state_on_course, FilterModel, FilterScope, FilteredSearch, StateModel,
};
use crate::metadata::OUT_OF_RANGE;
use crate::multipath::{
    incomplete_frontiers_never_imply_leaves, known_exactly, faithful_rows, multipath_run, multipath_started, multipath_step, Acquired,
    Multipath, MultipathModel, MultipathScope,
};
use crate::paths::TraversalDirection;
use crate::query::{models, run, typed_rows, MnesticQuery, QueryError};
use crate::reachability::{
    reach_models, reach_started, reach_step, reach_wf, reverse_asked, seed_asked, settled_goes_on, ReachModel, ReachScope, Reachability,
};
use crate::rows::{InspectionResult, InspectionValue};
use crate::semantic::StatedEdge;
use crate::sorted::{texts, SortedMap};
use crate::ids::TextSet;
use vstd::prelude::*;

verus! {

/// What an acquisition is about. With target repositories, only ways through all of them count.
pub ghost struct AcquisitionScope {
    pub start: Seq<char>,
    pub destination: Option<Seq<char>>,
    pub targets: Seq<Seq<char>>,
    pub direction: TraversalDirection,
    pub max_hops: nat,
    pub max_rows: nat,
}

impl AcquisitionScope {
    /// The acquisition without target repositories.
    pub open spec fn unfiltered(&self) -> MultipathScope {
        MultipathScope {
            direction: self.direction,
            destination: self.destination,
            max_hops: self.max_hops,
            max_rows: self.max_rows,
        }
    }

    /// The search for the ways into the target repositories.
    pub open spec fn approach(&self) -> ReachScope {
        ReachScope { start: self.start, targets: self.targets, direction: self.direction, max_hops: self.max_hops }
    }

    /// The acquisition of what leads through the target repositories.
    pub open spec fn filtered(&self, reachable: Map<Seq<Seq<char>>, Set<Seq<Seq<char>>>>) -> FilterScope {
        FilterScope { direction: self.direction, max_hops: self.max_hops, targets: keys_of(self.targets), reachable }
    }
}

/// How far an acquisition is: it takes in what it finds; or looks for the ways into the target
/// repositories first, and then takes in what leads through them.
pub ghost enum AcquisitionModel {
    Unfiltered(MultipathModel),
    Approaching(ReachModel),
    Filtered(Map<Seq<Seq<char>>, Set<Seq<Seq<char>>>>, FilterModel),
}

/// Goes on once the ways into the target repositories are known, with the rows that remain.
/// Where the rows did not suffice for that, the acquisition is over, and the start counts as
/// incomplete.
pub open spec fn approached(scope: AcquisitionScope, reach: ReachModel) -> AcquisitionModel {
    if reach.exhausted {
        AcquisitionModel::Filtered(Map::empty(), filter_over(set![seq![scope.start]], reach.remaining))
    } else if reach.at >= scope.targets.len() {
        AcquisitionModel::Filtered(
            reach.reachable,
            filter_started(scope.filtered(reach.reachable), scope.start, reach.remaining),
        )
    } else {
        AcquisitionModel::Approaching(reach)
    }
}

/// An acquisition at its start.
pub open spec fn acquisition_started(scope: AcquisitionScope) -> AcquisitionModel {
    if scope.targets.len() == 0 {
        AcquisitionModel::Unfiltered(multipath_started(scope.unfiltered(), scope.start))
    } else {
        approached(scope, reach_started(scope.approach(), scope.max_rows))
    }
}

/// An acquisition after one more answer: dependencies, and where it is filtered, the entities at
/// which dependencies leave the repository of completion.
pub open spec fn acquisition_step(
    scope: AcquisitionScope,
    model: AcquisitionModel,
    edges: Seq<StatedEdge>,
    boundaries: Set<Seq<Seq<char>>>,
) -> AcquisitionModel {
    match model {
        AcquisitionModel::Unfiltered(found) => AcquisitionModel::Unfiltered(multipath_step(scope.unfiltered(), found, edges)),
        AcquisitionModel::Approaching(reach) => approached(scope, reach_step(scope.approach(), reach, edges)),
        AcquisitionModel::Filtered(reachable, found) => AcquisitionModel::Filtered(
            reachable,
            filter_step(scope.filtered(reachable), found, edges, boundaries),
        ),
    }
}

/// Whether nothing more is to be asked.
pub open spec fn is_over(model: AcquisitionModel) -> bool {
    match model {
        AcquisitionModel::Unfiltered(found) => found.done,
        AcquisitionModel::Approaching(_) => false,
        AcquisitionModel::Filtered(_, found) => found.done,
    }
}

/// How an error in the answer to a query is shown.
pub open spec fn failed(operation: Seq<char>, detail: Seq<char>) -> Seq<char> {
    "Mnestic query "@ + operation + " failed: "@ + detail
}

/// The name of the query that looks for the ways into a target repository.
pub open spec fn approach_operation(hop: nat) -> Seq<char> {
    if hop == 0 {
        "traversal.repository_reachability.seed"@
    } else {
        "traversal.repository_reachability.frontier"@
    }
}

/// What an answer states.
pub open spec fn answer_stated(
    direction: TraversalDirection,
    model: AcquisitionModel,
    headers: Seq<Seq<char>>,
    rows: Seq<Vec<InspectionValue>>,
) -> Result<(Seq<StatedEdge>, Set<Seq<Seq<char>>>), Seq<char>> {
    match model {
        AcquisitionModel::Unfiltered(_) => match direction {
            TraversalDirection::Outgoing => match typed_rows::<OutgoingResolvedDependencies>(headers, rows) {
                Ok(edges) => Ok((edges, Set::empty())),
                Err(detail) => Err(failed(OutgoingResolvedDependencies::operation_text(), detail)),
            },
            TraversalDirection::Incoming => match typed_rows::<IncomingResolvedDependencies>(headers, rows) {
                Ok(edges) => Ok((edges, Set::empty())),
                Err(detail) => Err(failed(IncomingResolvedDependencies::operation_text(), detail)),
            },
        },
        AcquisitionModel::Approaching(reach) => match decoded_dependencies(headers, rows, 0, rows.len() as int) {
            Ok(edges) => Ok((edges, Set::empty())),
            Err(detail) => Err(failed(approach_operation(reach.hop), detail)),
        },
        AcquisitionModel::Filtered(_, _) => decoded_forward(headers, rows, rows.len() as int),
    }
}

/// How many columns the answer to the next question has at least.
pub open spec fn columns_needed(model: AcquisitionModel) -> int {
    match model {
        AcquisitionModel::Unfiltered(_) => 0,
        AcquisitionModel::Approaching(_) => 6,
        AcquisitionModel::Filtered(_, _) => 7,
    }
}

/// Whether a list holds the texts of a set.
pub open spec fn lists(list: Seq<Seq<char>>, set: Set<Seq<Seq<char>>>) -> bool {
    forall|id: Seq<char>| list.contains(id) <==> #[trigger] set.contains(seq![id])
}

/// Whether a question asks for what the states of a filtered acquisition may follow.
pub open spec fn asks_for_states(
    question: CommandModel,
    view: Seq<char>,
    direction: TraversalDirection,
    found: FilterModel,
    states: Seq<StateModel>,
    targets: Seq<Seq<char>>,
    reachable: Seq<(Seq<char>, Seq<Seq<char>>)>,
) -> bool {
    &&& states.to_set() == found.states
    &&& question == forward_asked(view, states, targets, reachable, direction, found.remaining + states.len() + 1int)
}

/// Whether a question asks for the dependencies of the frontier.
pub open spec fn asks_for_entities(question: CommandModel, view: Seq<char>, scope: AcquisitionScope, found: MultipathModel) -> bool {
    exists|list: Seq<Seq<char>>| #[trigger]
        lists(list, found.frontier) && question == dependencies_asked(
            view,
            scope.direction,
            list,
            scope.max_rows - found.found.len() + 1,
        )
}

/// Whether a question asks for what leads into a target repository, or into the frontier.
pub open spec fn asks_for_ways(question: CommandModel, view: Seq<char>, scope: AcquisitionScope, reach: ReachModel) -> bool {
    if reach.hop == 0 {
        question == seed_asked(view, scope.targets[reach.at as int], scope.direction, reach.remaining + 1int)
    } else {
        exists|list: Seq<Seq<char>>| #[trigger]
            lists(list, reach.approach.frontier) && question == reverse_asked(view, list, scope.direction, reach.remaining + 1int)
    }
}

/// Whether a question asks for what the states may follow, and can be asked.
pub open spec fn asks_forward(question: CommandModel, can_ask: bool, view: Seq<char>, direction: TraversalDirection, found: FilterModel) -> bool {
    exists|states: Seq<StateModel>, targets: Seq<Seq<char>>, reachable: Seq<(Seq<char>, Seq<Seq<char>>)>| #[trigger]
        asks_for_states(question, view, direction, found, states, targets, reachable) && can_ask == (found.remaining + states.len() + 1
            <= i64::MAX)
}

enum Phase {
    Unfiltered(Multipath),
    Approaching(Reachability),
    Filtered(FilteredSearch),
}

/// An acquisition under way.
pub struct Acquiring {
    start: String,
    targets: Vec<String>,
    direction: TraversalDirection,
    max_hops: u32,
    destination: Ghost<Option<Seq<char>>>,
    max_rows: Ghost<nat>,
    phase: Phase,
}

impl View for Acquiring {
    type V = AcquisitionModel;

    closed spec fn view(&self) -> AcquisitionModel {
        match self.phase {
            Phase::Unfiltered(search) => AcquisitionModel::Unfiltered(search@),
            Phase::Approaching(search) => AcquisitionModel::Approaching(search@),
            Phase::Filtered(search) => AcquisitionModel::Filtered(search.scope().reachable, search@),
        }
    }
}

impl Acquiring {
    /// What the acquisition is about.
    pub closed spec fn scope(&self) -> AcquisitionScope {
        AcquisitionScope {
            start: self.start@,
            destination: self.destination@,
            targets: texts(self.targets@),
            direction: self.direction,
            max_hops: self.max_hops as nat,
            max_rows: self.max_rows@,
        }
    }

    /// Whether the parts agree.
    pub closed spec fn wf(&self) -> bool {
        match self.phase {
            Phase::Unfiltered(search) => search.wf() && search.scope() == self.scope().unfiltered(),
            Phase::Approaching(search) => search.wf() && search.scope() == self.scope().approach() && !search@.exhausted && search@.at
                < self.targets@.len(),
            Phase::Filtered(search) => search.wf() && search.scope() == self.scope().filtered(search.scope().reachable),
        }
    }

    /// The question that the model of an acquisition leads to. The lists in it are sets in the
    /// model, listed in order.
    pub closed spec fn asks(&self, view: Seq<char>) -> CommandModel {
        match self.phase {
            Phase::Unfiltered(search) => dependencies_asked(
                view,
                search.scope().direction,
                search.asked_for(),
                search.scope().max_rows - search@.found.len() + 1,
            ),
            Phase::Approaching(search) => if search@.hop == 0 {
                seed_asked(view, search.scope().targets[search@.at as int], search.scope().direction, search@.remaining + 1int)
            } else {
                reverse_asked(view, search.asked_for(), search.scope().direction, search@.remaining + 1int)
            },
            Phase::Filtered(search) => forward_asked(
                view,
                search.listed(),
                search.target_list(),
                search.reachable_list(),
                search.scope().direction,
                search@.remaining + search.listed().len() + 1int,
            ),
        }
    }

    /// Whether the number of rows that are to be asked for can be asked for.
    pub closed spec fn can_ask(&self) -> bool {
        match self.phase {
            Phase::Filtered(search) => search@.remaining + search.listed().len() + 1 <= i64::MAX,
            _ => true,
        }
    }

    /// Whether what is asked for stands at the front of the acquisition.
    pub open spec fn at_the_front(&self, view: Seq<char>) -> bool {
        match self@ {
            AcquisitionModel::Unfiltered(found) => self.can_ask() && asks_for_entities(self.asks(view), view, self.scope(), found),
            AcquisitionModel::Approaching(reach) => self.can_ask() && asks_for_ways(self.asks(view), view, self.scope(), reach),
            AcquisitionModel::Filtered(_, found) => asks_forward(self.asks(view), self.can_ask(), view, self.scope().direction, found),
        }
    }

    /// What is asked for is what stands at the front of the acquisition: the entities of the
    /// frontier, the target repository that is approached, or the states. One row more is asked
    /// for than may be read, so that the answer tells whether they suffice; where the acquisition
    /// is filtered, one more for each state.
    pub proof fn asks_for_what_is_at_the_front(&self, view: Seq<char>)
        requires
            self.wf(),
        ensures
            self.at_the_front(view),
    {
        match self.phase {
            Phase::Unfiltered(search) => {
                search.asks_for_frontier();
                assert(lists(search.asked_for(), search@.frontier));
                assert(asks_for_entities(self.asks(view), view, self.scope(), search@));
            },
            Phase::Approaching(search) => {
                search.asks_for_frontier();
                assert(lists(search.asked_for(), search@.approach.frontier));
                assert(asks_for_ways(self.asks(view), view, self.scope(), search@));
            },
            Phase::Filtered(search) => {
                search.lists_states();
                assert(asks_for_states(
                    self.asks(view),
                    view,
                    self.scope().direction,
                    search@,
                    search.listed(),
                    search.target_list(),
                    search.reachable_list(),
                ));
                assert(asks_forward(self.asks(view), self.can_ask(), view, self.scope().direction, search@));
            },
        }
    }

    /// Starts at an entity.
    pub fn start(
        start: &str,
        destination: Option<String>,
        targets: Vec<String>,
        direction: TraversalDirection,
        max_hops: u32,
        max_rows: u32,
    ) -> (r: Acquiring)
        ensures
            r.wf(),
            r.scope() == (AcquisitionScope {
                start: start@,
                destination: optional_text(destination),
                targets: texts(targets@),
                direction,
                max_hops: max_hops as nat,
                max_rows: max_rows as nat,
            }),
            r@ == acquisition_started(r.scope()),
    {
        let ghost aim = optional_text(destination);
        let ghost rows = max_rows as nat;
        assert(texts(targets@).len() == targets@.len());
        if targets.len() == 0 {
            let search: Multipath = Multipath::start(start, destination, direction, max_hops, max_rows);
            return Acquiring {
                start: start.to_owned(),
                targets,
                direction,
                max_hops,
                destination: Ghost(aim),
                max_rows: Ghost(rows),
                phase: Phase::Unfiltered(search),
            };
        }
        let mut wanted: Vec<String> = Vec::new();
        let mut i: usize = 0;
        while i < targets.len()
            invariant
                i <= targets@.len(),
                wanted@.len() == i,
                forall|k: int| 0 <= k < i ==> (#[trigger] wanted@[k])@ == targets@[k]@,
            decreases targets@.len() - i,
        {
            wanted.push(targets[i].clone());
            i = i + 1;
        }
        assert(texts(wanted@) =~= texts(targets@));
        let search: Reachability = Reachability::start(start, wanted, direction, max_hops, max_rows);
        let (first, list): (String, Vec<String>) = (start.to_owned(), targets);
        Acquiring::approach(first, list, direction, max_hops, Ghost(aim), Ghost(rows), search)
    }

    /// Goes on to what leads through the target repositories, if the ways into them are known.
    fn approach(
        start: String,
        targets: Vec<String>,
        direction: TraversalDirection,
        max_hops: u32,
        destination: Ghost<Option<Seq<char>>>,
        max_rows: Ghost<nat>,
        search: Reachability,
    ) -> (r: Acquiring)
        requires
            search.wf(),
            search.scope() == (ReachScope { start: start@, targets: texts(targets@), direction, max_hops: max_hops as nat }),
        ensures
            r.wf(),
            r.scope() == (AcquisitionScope {
                start: start@,
                destination: destination@,
                targets: texts(targets@),
                direction,
                max_hops: max_hops as nat,
                max_rows: max_rows@,
            }),
            r@ == approached(r.scope(), search@),
    {
        assert(texts(targets@).len() == targets@.len());
        if !search.is_done() {
            return Acquiring { start, targets, direction, max_hops, destination, max_rows, phase: Phase::Approaching(search) };
        }
        let remaining: u32 = search.remaining_rows();
        let reachable: Option<SortedMap<String, TextSet>> = search.finish();
        let filtered: FilteredSearch = FilteredSearch::start(start.as_str(), &targets, direction, max_hops, reachable, remaining);
        Acquiring { start, targets, direction, max_hops, destination, max_rows, phase: Phase::Filtered(filtered) }
    }

    /// Whether nothing more is to be asked.
    pub fn is_done(&self) -> (r: bool)
        ensures
            r == is_over(self@),
    {
        match &self.phase {
            Phase::Unfiltered(search) => search.is_done(),
            Phase::Approaching(_) => false,
            Phase::Filtered(search) => search.is_done(),
        }
    }

    /// Tells what is to be asked.
    pub fn request(&self, view: &str) -> (r: Result<Command, String>)
        requires
            self.wf(),
        ensures
            r is Ok <==> self.can_ask(),
            r is Ok ==> r->Ok_0@ == self.asks(view@),
            r is Err ==> r->Err_0@ == OUT_OF_RANGE@,
    {
        match &self.phase {
            Phase::Unfiltered(search) => Ok(search.request(view)),
            Phase::Approaching(search) => {
                assert(texts(self.targets@).len() == self.targets@.len());
                Ok(search.request(view))
            },
            Phase::Filtered(search) => match search.request(view) {
                Some(command) => Ok(command),
                None => Err(OUT_OF_RANGE.to_owned()),
            },
        }
    }

    /// The name of the query that is to be asked, if it is one whose rows have a type.
    pub fn operation(&self) -> (r: Option<&'static str>)
        requires
            self.wf(),
        ensures
            r is Some <==> self@ is Unfiltered,
            r is Some ==> r->0@ == (match self.scope().direction {
                TraversalDirection::Outgoing => OutgoingResolvedDependencies::operation_text(),
                TraversalDirection::Incoming => IncomingResolvedDependencies::operation_text(),
            }),
    {
        match &self.phase {
            Phase::Unfiltered(_) => match self.direction {
                TraversalDirection::Outgoing => Some(OutgoingResolvedDependencies::operation()),
                TraversalDirection::Incoming => Some(IncomingResolvedDependencies::operation()),
            },
            _ => None,
        }
    }

    /// How many columns the answer to what is to be asked has at least.
    pub fn columns(&self) -> (r: usize)
        ensures
            r == columns_needed(self@),
    {
        match &self.phase {
            Phase::Unfiltered(_) => 0,
            Phase::Approaching(_) => 6,
            Phase::Filtered(_) => 7,
        }
    }

    /// Takes in the answer to what was asked.
    pub fn receive(self, answer: InspectionResult) -> (r: Result<Acquiring, String>)
        requires
            self.wf(),
            answer.headers@.len() >= columns_needed(self@),
        ensures
            ({
                let told = answer_stated(self.scope().direction, self@, texts(answer.headers@), answer.rows@);
                &&& r is Ok <==> told is Ok
                &&& r is Err ==> r->Err_0@ == told->Err_0
                &&& r is Ok ==> r->Ok_0.wf() && r->Ok_0.scope() == self.scope() && r->Ok_0@ == acquisition_step(
                    self.scope(),
                    self@,
                    (told->Ok_0).0,
                    (told->Ok_0).1,
                )
            }),
    {
        let ghost whole = self;
        let Acquiring { start, targets, direction, max_hops, destination, max_rows, phase } = self;
        match phase {
            Phase::Unfiltered(search) => {
                let mut search: Multipath = search;
                let rows: Vec<ResolvedDependencyRow> = match read_typed(direction, answer) {
                    Ok(rows) => rows,
                    Err(message) => {
                        return Err(message);
                    },
                };
                search.receive(rows);
                Ok(
                    Acquiring {
                        start,
                        targets,
                        direction,
                        max_hops,
                        destination,
                        max_rows,
                        phase: Phase::Unfiltered(search),
                    },
                )
            },
            Phase::Approaching(search) => {
                let mut search: Reachability = search;
                let operation: &'static str = if search.is_seeding() {
                    "traversal.repository_reachability.seed"
                } else {
                    "traversal.repository_reachability.frontier"
                };
                match dependency_rows(&answer.headers, &answer.rows, 0, operation) {
                    Ok(rows) => {
                        search.receive(&rows);
                        Ok(Acquiring::approach(start, targets, direction, max_hops, destination, max_rows, search))
                    },
                    Err(error) => Err(error.message()),
                }
            },
            Phase::Filtered(search) => {
                let mut search: FilteredSearch = search;
                match filtered_forward(&answer) {
                    Ok(forward) => {
                        search.receive(forward);
                        Ok(
                            Acquiring {
                                start,
                                targets,
                                direction,
                                max_hops,
                                destination,
                                max_rows,
                                phase: Phase::Filtered(search),
                            },
                        )
                    },
                    Err(message) => Err(message),
                }
            },
        }
    }

    /// What was acquired. Unless some way was found through all target repositories, there are
    /// no rows and no boundaries.
    pub fn finish(self) -> (r: Acquired)
        requires
            self.wf(),
            !(self@ is Approaching),
        ensures
            r.incomplete.wf(),
            r.boundaries.wf(),
            reach_wf(r.reachable),
            self@ matches AcquisitionModel::Unfiltered(found) ==> {
                &&& found_models(r.found@) == found.found
                &&& r.incomplete@.dom() == found.incomplete
                &&& r.boundaries@.dom() == Set::<Seq<Seq<char>>>::empty()
                &&& reach_models(r.reachable@) == Map::<Seq<Seq<char>>, Set<Seq<Seq<char>>>>::empty()
            },
            self@ matches AcquisitionModel::Filtered(reachable, found) ==> {
                &&& found_models(r.found@) == (if found.completed {
                    found.found
                } else {
                    Seq::empty()
                })
                &&& r.incomplete@.dom() == found.incomplete
                &&& r.boundaries@.dom() == (if found.completed {
                    found.boundaries
                } else {
                    Set::<Seq<Seq<char>>>::empty()
                })
                &&& reach_models(r.reachable@) == reachable
            },
    {
        match self.phase {
            Phase::Unfiltered(search) => {
                let r: Acquired = search.finish();
                assert(reach_models(r.reachable@) =~= Map::<Seq<Seq<char>>, Set<Seq<Seq<char>>>>::empty());
                r
            },
            Phase::Filtered(search) => search.finish(),
            Phase::Approaching(_) => {
                Acquired { found: Vec::new(), incomplete: SortedMap::new(), boundaries: SortedMap::new(), reachable: SortedMap::new() }
            },
        }
    }
}

/// Reads the dependencies of an answer that is not filtered.
fn read_typed(direction: TraversalDirection, answer: InspectionResult) -> (r: Result<Vec<ResolvedDependencyRow>, String>)
    ensures
        ({
            let told = match direction {
                TraversalDirection::Outgoing => typed_rows::<OutgoingResolvedDependencies>(texts(answer.headers@), answer.rows@),
                TraversalDirection::Incoming => typed_rows::<IncomingResolvedDependencies>(texts(answer.headers@), answer.rows@),
            };
            let operation = match direction {
                TraversalDirection::Outgoing => OutgoingResolvedDependencies::operation_text(),
                TraversalDirection::Incoming => IncomingResolvedDependencies::operation_text(),
            };
            &&& r is Ok <==> told is Ok
            &&& r is Ok ==> stated(r->Ok_0@) == told->Ok_0
            &&& r is Err ==> r->Err_0@ == failed(operation, told->Err_0)
        }),
{
    let result: Result<Vec<ResolvedDependencyRow>, QueryError> = match direction {
        TraversalDirection::Outgoing => run::<OutgoingResolvedDependencies>(answer),
        TraversalDirection::Incoming => run::<IncomingResolvedDependencies>(answer),
    };
    match result {
        Ok(rows) => {
            assert(stated(rows@) =~= models::<OutgoingResolvedDependencies>(rows@));
            assert(stated(rows@) =~= models::<IncomingResolvedDependencies>(rows@));
            Ok(rows)
        },
        Err(error) => Err(error.message()),
    }
}

/// An acquisition after some answers.
pub open spec fn acquisition_run(scope: AcquisitionScope, given: Seq<(Seq<StatedEdge>, Set<Seq<Seq<char>>>)>) -> AcquisitionModel
    decreases given.len(),
{
    if given.len() == 0 {
        acquisition_started(scope)
    } else {
        acquisition_step(scope, acquisition_run(scope, given.drop_last()), given.last().0, given.last().1)
    }
}

/// The dependencies of some answers.
pub open spec fn edges_given(given: Seq<(Seq<StatedEdge>, Set<Seq<Seq<char>>>)>) -> Seq<Seq<StatedEdge>> {
    given.map_values(|answer: (Seq<StatedEdge>, Set<Seq<Seq<char>>>)| answer.0)
}

/// What holds of an acquisition at any time: it keeps to its rows, and every state that a
/// filtered one comes to is on course.
pub open spec fn acquisition_sound(scope: AcquisitionScope, model: AcquisitionModel) -> bool {
    match model {
        AcquisitionModel::Unfiltered(found) => scope.targets.len() == 0,
        AcquisitionModel::Approaching(reach) => reach.remaining <= scope.max_rows && scope.targets.len() > 0,
        AcquisitionModel::Filtered(reachable, found) => {
            &&& scope.targets.len() > 0
            &&& found.found.len() + found.remaining <= scope.max_rows
            &&& forall|state: StateModel| #[trigger] found.states.contains(state) ==> state_on_course(scope.filtered(reachable), state)
            &&& forall|state: StateModel| #[trigger] found.seen.contains(state) ==> state_on_course(scope.filtered(reachable), state)
        },
    }
}

proof fn approaching_is_sound(scope: AcquisitionScope, reach: ReachModel)
    requires
        reach.remaining <= scope.max_rows,
        scope.targets.len() > 0,
    ensures
        acquisition_sound(scope, approached(scope, reach)),
{
    if !reach.exhausted && reach.at >= scope.targets.len() {
        let filter = scope.filtered(reach.reachable);
        if filter.on_course(scope.start, crate::filtered::visited_at_start(filter, scope.start)) {
            starts_on_course(filter, scope.start);
        }
    }
}

proof fn acquisitions_are_sound(scope: AcquisitionScope, given: Seq<(Seq<StatedEdge>, Set<Seq<Seq<char>>>)>)
    ensures
        acquisition_sound(scope, acquisition_run(scope, given)),
        scope.targets.len() == 0 ==> acquisition_run(scope, given) == AcquisitionModel::Unfiltered(
            multipath_run(scope.unfiltered(), scope.start, edges_given(given)),
        ),
    decreases given.len(),
{
    if given.len() == 0 {
        if scope.targets.len() > 0 {
            let begun = ReachModel {
                at: 0,
                hop: 0,
                approach: crate::reachability::Approach { frontier: Set::empty(), visited: Set::empty() },
                reachable: Map::empty(),
                remaining: scope.max_rows,
                exhausted: false,
            };
            settled_goes_on(scope.approach(), begun);
            approaching_is_sound(scope, reach_started(scope.approach(), scope.max_rows));
        }
    } else {
        acquisitions_are_sound(scope, given.drop_last());
        let before = acquisition_run(scope, given.drop_last());
        let (edges, boundaries) = given.last();
        assert(edges_given(given).drop_last() =~= edges_given(given.drop_last()));
        assert(edges_given(given).last() == edges);
        match before {
            AcquisitionModel::Unfiltered(_) => {},
            AcquisitionModel::Approaching(reach) => {
                answers_use_up_rows(scope.approach(), reach, edges);
                approaching_is_sound(scope, reach_step(scope.approach(), reach, edges));
            },
            AcquisitionModel::Filtered(reachable, found) => {
                filtered_acquisitions_stay_on_course(scope.filtered(reachable), found, edges, boundaries);
            },
        }
    }
}

proof fn answers_use_up_rows(scope: ReachScope, model: ReachModel, edges: Seq<StatedEdge>)
    ensures
        reach_step(scope, model, edges).remaining <= model.remaining,
{
    if !(model.exhausted || model.at >= scope.targets.len()) && edges.len() <= model.remaining {
        let next = ReachModel {
            hop: model.hop + 1,
            approach: if model.hop == 0 {
                crate::reachability::seeded(edges, scope.direction, edges.len() as int)
            } else {
                crate::reachability::stepped_back(model.approach, edges, scope.direction)
            },
            remaining: (model.remaining - edges.len()) as nat,
            ..model
        };
        settled_goes_on(scope, next);
    }
}

/// An acquisition keeps to its rows from its start to its end. Without target repositories, of
/// each entity that it knows within the allowed hops, and from which paths go on, it has found
/// all dependencies, or the entity counts as incomplete, if it was answered faithfully. With
/// target repositories, every state that it comes to can still lead through all of them.
pub proof fn acquisitions_keep_to_their_scope(
    graph: Set<StatedEdge>,
    scope: AcquisitionScope,
    given: Seq<(Seq<StatedEdge>, Set<Seq<Seq<char>>>)>,
)
    ensures
        acquisition_sound(scope, acquisition_run(scope, given)),
        acquisition_run(scope, given) matches AcquisitionModel::Unfiltered(found) ==> (faithful_rows(
            graph,
            scope.unfiltered(),
            scope.start,
            edges_given(given),
        ) ==> found.found.len() <= scope.max_rows && (found.done ==> known_exactly(graph, scope.unfiltered(), scope.start, found))),
        acquisition_run(scope, given) matches AcquisitionModel::Filtered(_, found) ==> found.found.len() <= scope.max_rows,
{
    acquisitions_are_sound(scope, given);
    if scope.targets.len() == 0 && faithful_rows(graph, scope.unfiltered(), scope.start, edges_given(given)) {
        incomplete_frontiers_never_imply_leaves(graph, scope.unfiltered(), scope.start, edges_given(given));
    }
}

} // verus!
