//! What is observed of queries: how long they take, and how the database plans them.

use crate::command::{bind_text, bindings, ArgumentModel, Binding, CellModel, Command, CommandModel};
use crate::ids::TextSet;
use crate::rows::{cell_text, InspectionResult, InspectionValue};
use crate::scripts::{GRPC_BINDINGS, OBSERVATIONS, OBSERVATION_ORDER, RELATIONS, RELATION_FILTER, REVISIONS};
use crate::sorted::{texts, Key, SortedMap};
use crate::text::{same, starts_with};
use vstd::prelude::*;

verus! {

/// From how many seconds on a semantic query is warned about.
pub const SEMANTIC_QUERY_WARNING_SECONDS: u64 = 5;

/// How many seconds a query on a repository by itself may take.
pub const REPOSITORY_QUERY_TIMEOUT_SECONDS: u64 = 5;

/// From how many seconds on the plan of a query is looked at.
pub const SLOW_QUERY_SECONDS: u64 = 1;

/// How many milliseconds the plan of a query may take.
pub const QUERY_PLAN_TIMEOUT_MILLISECONDS: u64 = 250;

/// A second, in nanoseconds.
pub const SECOND: u128 = 1_000_000_000;

/// A warning about a slow query.
#[derive(Clone, Copy, PartialEq, Eq, Structural, Debug)]
pub struct SlowQuery {
    pub elapsed_ms: u128,
    pub threshold_seconds: u64,
}

/// Whether a semantic query took long enough to be warned about. The time is in nanoseconds.
pub fn semantic_query_is_slow(elapsed: u128) -> (r: bool)
    ensures
        r == (elapsed >= SEMANTIC_QUERY_WARNING_SECONDS * SECOND),
{
    elapsed >= 5_000_000_000
}

/// What a query has read, with the warning that is due if it took too long. The time is in
/// nanoseconds.
pub fn warn_on_slow_semantic_query<T>(read: T, elapsed: u128) -> (r: (T, Option<SlowQuery>))
    ensures
        r.0 == read,
        r.1 == (if elapsed >= SEMANTIC_QUERY_WARNING_SECONDS * SECOND {
            Some(
                SlowQuery { elapsed_ms: (elapsed / 1_000_000) as u128, threshold_seconds: SEMANTIC_QUERY_WARNING_SECONDS },
            )
        } else {
            None
        }),
{
    let warning: Option<SlowQuery> = if semantic_query_is_slow(elapsed) {
        Some(SlowQuery { elapsed_ms: elapsed / 1_000_000, threshold_seconds: SEMANTIC_QUERY_WARNING_SECONDS })
    } else {
        None
    };
    (read, warning)
}

/// Whether the plan of a query is looked at: when it is observed at all, and failed or was
/// slow. The time is in nanoseconds.
pub fn collects_plan(observed: bool, failed: bool, elapsed: u128) -> (r: bool)
    ensures
        r == (observed && (failed || elapsed >= SLOW_QUERY_SECONDS * SECOND)),
{
    observed && (failed || elapsed >= 1_000_000_000)
}

/// How much time is left before a deadline, if any. Times are in nanoseconds.
pub fn time_left(now: u128, deadline: u128) -> (r: Option<u128>)
    ensures
        r == (if now < deadline {
            Some((deadline - now) as u128)
        } else {
            None
        }),
{
    if now < deadline {
        Some(deadline - now)
    } else {
        None
    }
}

/// What is said when an acquisition has run out of time.
pub const DEADLINE_EXCEEDED: &'static str = "graph acquisition deadline exceeded";

/// How the database plans a query.
#[derive(Debug)]
pub struct QueryPlan {
    pub materialized_joins: u64,
    pub prefix_joins: u64,
    pub stored_loads: u64,
    pub loaded_relations: String,
}

/// Where a header stands, from `at` on.
pub open spec fn header_from(headers: Seq<Seq<char>>, name: Seq<char>, at: int) -> Option<int>
    decreases headers.len() - at,
{
    if at >= headers.len() {
        None
    } else if headers[at] == name {
        Some(at)
    } else {
        header_from(headers, name, at + 1)
    }
}

fn header_position(headers: &Vec<String>, name: &str) -> (r: Option<usize>)
    ensures
        r is Some <==> header_from(texts(headers@), name@, 0) is Some,
        r is Some ==> r->0 == header_from(texts(headers@), name@, 0)->0 && r->0 < headers@.len(),
{
    let ghost names = texts(headers@);
    let mut i: usize = 0;
    while i < headers.len()
        invariant
            i <= headers@.len(),
            names == texts(headers@),
            header_from(names, name@, 0) == header_from(names, name@, i as int),
        decreases headers@.len() - i,
    {
        assert(names[i as int] == headers@[i as int]@);
        if same(headers[i].as_str(), name) {
            return Some(i);
        }
        i = i + 1;
    }
    None
}

/// How many of the first `n` rows have an operation in a column.
pub open spec fn operations(rows: Seq<Vec<InspectionValue>>, column: int, wanted: spec_fn(Seq<char>) -> bool, n: int) -> nat
    decreases n,
{
    if n <= 0 {
        0
    } else {
        operations(rows, column, wanted, n - 1) + match cell_text(rows[n - 1]@, column) {
            Some(operation) => if wanted(operation) {
                1nat
            } else {
                0nat
            },
            None => 0nat,
        }
    }
}

/// Whether an operation joins a relation that it holds in memory.
pub open spec fn materialized() -> spec_fn(Seq<char>) -> bool {
    |operation: Seq<char>| operation == "stored_mat_join"@
}

/// Whether an operation joins a relation by a prefix of its key.
pub open spec fn prefixed() -> spec_fn(Seq<char>) -> bool {
    |operation: Seq<char>| operation == "stored_prefix_join"@
}

/// Whether an operation loads a relation.
pub open spec fn loads() -> spec_fn(Seq<char>) -> bool {
    |operation: Seq<char>|
        operation != "stored_mat_join"@ && operation != "stored_prefix_join"@ && "load_stored"@.is_prefix_of(operation)
}

/// The relations that the first `n` rows load.
pub open spec fn loaded(rows: Seq<Vec<InspectionValue>>, column: int, reference: Option<int>, n: int) -> Set<Seq<Seq<char>>>
    decreases n,
{
    if n <= 0 || reference is None {
        Set::empty()
    } else {
        let before = loaded(rows, column, reference, n - 1);
        let row = rows[n - 1]@;
        match cell_text(row, column) {
            Some(operation) => match cell_text(row, reference->0) {
                Some(relation) => if loads()(operation) {
                    before.insert(seq![relation])
                } else {
                    before
                },
                None => before,
            },
            None => before,
        }
    }
}

/// The first `n` texts with commas between them.
pub open spec fn joined(list: Seq<Seq<char>>, n: int) -> Seq<char>
    decreases n,
{
    if n <= 0 {
        Seq::empty()
    } else if n == 1 {
        list[0]
    } else {
        joined(list, n - 1) + ","@ + list[n - 1]
    }
}

fn join(list: &Vec<String>) -> (r: String)
    ensures
        r@ == joined(texts(list@), list@.len() as int),
{
    let ghost names = texts(list@);
    let mut text: String = String::new();
    let mut i: usize = 0;
    assert(text@ =~= joined(names, 0));
    while i < list.len()
        invariant
            i <= list@.len(),
            names == texts(list@),
            text@ == joined(names, i as int),
        decreases list@.len() - i,
    {
        assert(names[i as int] == list@[i as int]@);
        if i > 0 {
            text.append(",");
        }
        text.append(list[i].as_str());
        assert(i == 0 ==> text@ =~= names[0]);
        i = i + 1;
    }
    text
}

/// Whether a text lists all of a set, in ascending order.
pub open spec fn lists(text: Seq<char>, set: Set<Seq<Seq<char>>>) -> bool {
    exists|list: Seq<Seq<char>>|
        {
            &&& crate::sorted::ascending(#[trigger] single_keys(list))
            &&& single_keys(list).to_set() == set
            &&& text == joined(list, list.len() as int)
        }
}

/// Texts as keys.
pub open spec fn single_keys(list: Seq<Seq<char>>) -> Seq<Seq<Seq<char>>> {
    list.map_values(|text: Seq<char>| seq![text])
}

/// Sums up how the database plans a query, if the plan names operations. Each row has a value
/// for each column.
pub fn query_plan(plan: &InspectionResult) -> (r: Option<QueryPlan>)
    requires
        forall|i: int| 0 <= i < plan.rows@.len() ==> (#[trigger] plan.rows@[i])@.len() == plan.headers@.len(),
    ensures
        r is Some <==> header_from(texts(plan.headers@), "op"@, 0) is Some,
        r is Some ==> {
            let column = header_from(texts(plan.headers@), "op"@, 0)->0;
            let reference = header_from(texts(plan.headers@), "ref"@, 0);
            let n = plan.rows@.len() as int;
            &&& (r->0).materialized_joins == operations(plan.rows@, column, materialized(), n)
            &&& (r->0).prefix_joins == operations(plan.rows@, column, prefixed(), n)
            &&& (r->0).stored_loads == operations(plan.rows@, column, loads(), n)
            &&& lists((r->0).loaded_relations@, loaded(plan.rows@, column, reference, n))
        },
{
    let column: usize = match header_position(&plan.headers, "op") {
        Some(column) => column,
        None => {
            return None;
        },
    };
    let found: Option<usize> = header_position(&plan.headers, "ref");
    let ghost reference = header_from(texts(plan.headers@), "ref"@, 0);
    let rows: &Vec<Vec<InspectionValue>> = &plan.rows;
    let mut materialized_joins: u64 = 0;
    let mut prefix_joins: u64 = 0;
    let mut stored_loads: u64 = 0;
    let mut relations: TextSet = SortedMap::new();
    let mut i: usize = 0;
    let n: usize = rows.len();
    proof {
        reveal_strlit("stored_mat_join");
        reveal_strlit("stored_prefix_join");
        assert("stored_mat_join"@.len() == 15 && "stored_prefix_join"@.len() == 18);
        assert(relations@.dom() =~= Set::<Seq<Seq<char>>>::empty());
    }
    while i < n
        invariant
            i <= n,
            n == rows@.len(),
            rows@ == plan.rows@,
            column < plan.headers@.len(),
            "stored_mat_join"@ != "stored_prefix_join"@,
            found is Some <==> reference is Some,
            found is Some ==> found->0 == reference->0 && found->0 < plan.headers@.len(),
            forall|k: int| 0 <= k < rows@.len() ==> (#[trigger] rows@[k])@.len() == plan.headers@.len(),
            relations.wf(),
            materialized_joins <= i,
            prefix_joins <= i,
            stored_loads <= i,
            materialized_joins == operations(rows@, column as int, materialized(), i as int),
            prefix_joins == operations(rows@, column as int, prefixed(), i as int),
            stored_loads == operations(rows@, column as int, loads(), i as int),
            relations@.dom() == loaded(rows@, column as int, reference, i as int),
        decreases n - i,
    {
        let row: &Vec<InspectionValue> = &rows[i];
        let ghost before = relations@.dom();
        match row[column].as_str() {
            Some(operation) => {
                if same(operation, "stored_mat_join") {
                    materialized_joins = materialized_joins + 1;
                } else if same(operation, "stored_prefix_join") {
                    prefix_joins = prefix_joins + 1;
                } else if starts_with(operation, "load_stored") {
                    stored_loads = stored_loads + 1;
                    match found {
                        Some(reference) => {
                            match row[reference].as_str() {
                                Some(relation) => {
                                    let name: String = relation.to_owned();
                                    assert(name.key() == seq![relation@]);
                                    relations.insert(name, ());
                                    assert(relations@.dom() =~= before.insert(seq![relation@]));
                                },
                                None => {},
                            }
                        },
                        None => {},
                    }
                }
            },
            None => {},
        }
        i = i + 1;
    }
    let loaded_relations: String = join(&relations.keys);
    proof {
        let list = texts(relations.keys@);
        assert(single_keys(list) =~= relations.listing()) by {
            assert forall|k: int| 0 <= k < list.len() implies single_keys(list)[k] == relations.listing()[k] by {
                assert(single_keys(list)[k] =~= relations.keys@[k].key());
            }
        }
        relations.size();
    }
    Some(QueryPlan { materialized_joins, prefix_joins, stored_loads, loaded_relations })
}

/// Asks for the relations of the database.
pub fn inspect_relations() -> (r: Command)
    ensures
        r@ == (CommandModel { script: RELATIONS@, arguments: Seq::empty() }),
{
    let command: Command = Command { script: RELATIONS.to_owned(), arguments: Vec::new() };
    assert(command@.arguments =~= Seq::<(Seq<char>, ArgumentModel)>::empty());
    command
}

/// Asks for the published revisions.
pub fn inspect_revisions() -> (r: Command)
    ensures
        r@ == (CommandModel { script: REVISIONS@, arguments: Seq::empty() }),
{
    let command: Command = Command { script: REVISIONS.to_owned(), arguments: Vec::new() };
    assert(command@.arguments =~= Seq::<(Seq<char>, ArgumentModel)>::empty());
    command
}

/// Asks for the stored observations, all or those in one relation.
pub fn inspect_observations(relation: Option<&str>) -> (r: Command)
    ensures
        r@ == (match relation {
            Some(relation) => CommandModel {
                script: OBSERVATIONS@ + RELATION_FILTER@ + OBSERVATION_ORDER@,
                arguments: seq![("relation"@, ArgumentModel::One(CellModel::Text(relation@)))],
            },
            None => CommandModel { script: OBSERVATIONS@ + OBSERVATION_ORDER@, arguments: Seq::empty() },
        }),
{
    let mut script: String = OBSERVATIONS.to_owned();
    let mut arguments: Vec<Binding> = Vec::new();
    match relation {
        Some(relation) => {
            script.append(RELATION_FILTER);
            arguments.push(bind_text("relation", relation));
            assert(bindings(arguments@) =~= seq![("relation"@, ArgumentModel::One(CellModel::Text(relation@)))]);
        },
        None => {
            assert(bindings(arguments@) =~= Seq::<(Seq<char>, ArgumentModel)>::empty());
        },
    }
    script.append(OBSERVATION_ORDER);
    Command { script, arguments }
}

/// Asks for the candidates for bindings of remote calls.
pub fn inspect_grpc_bindings() -> (r: Command)
    ensures
        r@ == (CommandModel { script: GRPC_BINDINGS@, arguments: Seq::empty() }),
{
    let command: Command = Command { script: GRPC_BINDINGS.to_owned(), arguments: Vec::new() };
    assert(command@.arguments =~= Seq::<(Seq<char>, ArgumentModel)>::empty());
    command
}

} // verus!
