//! Measuring how long questions to a database take.

use crate::collection::{plain, plain_command};
use crate::command::{bind_integer, ArgumentModel, Binding, CellModel, Command, CommandModel};
use crate::text::{decimal, decimal_text, same};
use vstd::prelude::*;

verus! {

/// Creates the entities.
pub const CREATE_ENTITIES: &'static str = "?[id] := id in int_range($entities) :create benchmark_entity {id: Int}";

/// Creates the edges of a linear graph.
pub const LINEAR_EDGES: &'static str =
    "?[from, to, evidence] := from in int_range($entities - 1), to = from + 1, evidence = from \
     :create benchmark_edge {from: Int, to: Int => evidence: Int}";

/// Creates the edges of a tree-like graph.
pub const TREE_EDGES: &'static str =
    "?[from, to, evidence] := from in int_range($entities), offset in int_range(1, $fanout + 1), \
     to = from * $fanout + offset, to < $entities, evidence = from * $fanout + offset \
     :create benchmark_edge {from: Int, to: Int => evidence: Int}";

/// Creates the edges of a directed acyclic graph.
pub const DAG_EDGES: &'static str = "?[from, to, evidence] := from in int_range($entities), offset in int_range(1, $fanout + 1), \
     to = from + offset, to < $entities, evidence = from * $fanout + offset \
     :create benchmark_edge {from: Int, to: Int => evidence: Int}";

/// Creates the edges of a corpus-like graph.
pub const CORPUS_EDGES: &'static str =
    "?[from, to, evidence] := from in int_range($entities - 1), to = from + 1, evidence = from\n\
     ?[from, to, evidence] := from in int_range($entities - 2), from % 2 == 0, to = from + 2, evidence = from\n\
     ?[from, to, evidence] := from in int_range($entities - 7), from % 10 == 0, \
         offset in int_range(3, 8), to = from + offset, evidence = from * 10 + offset\n\
     ?[from, to, evidence] := from in int_range($entities - 158), from % 1000 == 0, \
         offset in int_range(8, 158), to = from + offset, evidence = from * 1000 + offset\n\
     :create benchmark_edge {from: Int, to: Int => evidence: Int}";

/// How many entities can be reached.
pub const REACHABLE: &'static str = "reachable[to, hops] := *benchmark_edge{from: 0, to}, hops = 1\n\
     reachable[to, hops] := reachable[from, previous_hops], previous_hops < $depth, \
         *benchmark_edge{from, to}, hops = previous_hops + 1\n\
     ?[count_unique(to)] := reachable[to, _]";

/// How many entities can be reached in one step.
pub const NEIGHBOURS: &'static str = "?[count(to)] := *benchmark_edge{from: 0, to}";

/// The shortest path to an entity.
pub const SHORTEST_PATH: &'static str = "start[] <- [[0]]\n\
     distance[node, min(hops)] := start[node], hops = 0\n\
     distance[to, min(hops)] := distance[from, previous_hops], previous_hops < $depth, \
         *benchmark_edge{from, to}, hops = previous_hops + 1\n\
     predecessor[to, min(from)] := distance[to, hops], hops > 0, \
         distance[from, previous_hops], previous_hops + 1 == hops, \
         *benchmark_edge{from, to}\n\
     path[to, nodes] := predecessor[to, 0], nodes = [0, to]\n\
     path[to, nodes] := path[from, previous_nodes], predecessor[to, from], \
         nodes = append(previous_nodes, to)\n\
     steps[nodes, step] := path[$target, nodes], \
         index in int_range(length(nodes) - 1), \
         from = get(nodes, index), to = get(nodes, index + 1), \
         *benchmark_edge{from, to, evidence}, step = [index, evidence]\n\
     ?[nodes, collect(step), hops] := steps[nodes, step], hops = length(nodes) - 1";

/// A whole number as it is written.
pub open spec fn signed_decimal(n: int) -> Seq<char> {
    if n < 0 {
        "-"@ + decimal((-n) as nat)
    } else {
        decimal(n as nat)
    }
}

/// A whole number as it is written.
pub fn signed_text(n: i64) -> (r: String)
    ensures
        r@ == signed_decimal(n as int),
{
    if n < 0 {
        let mut text: String = "-".to_owned();
        text.append(decimal_text((-(n as i128)) as u64).as_str());
        text
    } else {
        decimal_text(n as u64)
    }
}

/// A script with one number.
pub open spec fn number_bound(script: Seq<char>, name: Seq<char>, value: int) -> CommandModel {
    CommandModel { script, arguments: seq![(name, ArgumentModel::One(CellModel::Integer(value)))] }
}

/// A script with two numbers.
pub open spec fn numbers_bound(script: Seq<char>, name: Seq<char>, value: int, other: Seq<char>, second: int) -> CommandModel {
    CommandModel {
        script,
        arguments: seq![
            (name, ArgumentModel::One(CellModel::Integer(value))),
            (other, ArgumentModel::One(CellModel::Integer(second))),
        ],
    }
}

fn numbers_command(script: &str, name: &str, value: i64, other: &str, second: i64) -> (r: Command)
    ensures
        r@ == numbers_bound(script@, name@, value as int, other@, second as int),
{
    let mut arguments: Vec<Binding> = Vec::new();
    arguments.push(bind_integer(name, value));
    arguments.push(bind_integer(other, second));
    let command: Command = Command { script: script.to_owned(), arguments };
    assert(command@.arguments =~= numbers_bound(script@, name@, value as int, other@, second as int).arguments);
    command
}

/// Creates the entities of a graph.
pub fn create_entities(entities: i64) -> (r: Command)
    ensures
        r@ == number_bound(CREATE_ENTITIES@, "entities"@, entities as int),
{
    let mut arguments: Vec<Binding> = Vec::new();
    arguments.push(bind_integer("entities", entities));
    let command: Command = Command { script: CREATE_ENTITIES.to_owned(), arguments };
    assert(command@.arguments =~= number_bound(CREATE_ENTITIES@, "entities"@, entities as int).arguments);
    command
}

/// What creates the edges of a graph, by the name of its shape.
pub open spec fn edges_of(topology: Seq<char>) -> Option<Seq<char>> {
    if topology == "linear"@ {
        Some(LINEAR_EDGES@)
    } else if topology == "tree"@ {
        Some(TREE_EDGES@)
    } else if topology == "dag"@ {
        Some(DAG_EDGES@)
    } else if topology == "corpus"@ {
        Some(CORPUS_EDGES@)
    } else {
        None
    }
}

/// Creates the edges of a graph.
pub fn create_edges(topology: &str, entities: i64, fanout: i64) -> (r: Result<Command, String>)
    ensures
        r is Ok <==> edges_of(topology@) is Some,
        r is Ok ==> r->Ok_0@ == numbers_bound(
            edges_of(topology@)->0,
            "entities"@,
            entities as int,
            "fanout"@,
            fanout as int,
        ),
        r is Err ==> r->Err_0@ == "topology must be linear, tree, dag, or corpus"@,
{
    let script: &str = if same(topology, "linear") {
        LINEAR_EDGES
    } else if same(topology, "tree") {
        TREE_EDGES
    } else if same(topology, "dag") {
        DAG_EDGES
    } else if same(topology, "corpus") {
        CORPUS_EDGES
    } else {
        return Err("topology must be linear, tree, dag, or corpus".to_owned());
    };
    Ok(numbers_command(script, "entities", entities, "fanout", fanout))
}

/// The entity that a path is looked for to.
pub open spec fn target_of(entities: int, depth: int) -> int {
    if depth <= entities - 1 {
        depth
    } else {
        entities - 1
    }
}

/// The questions whose time is measured.
pub struct BenchmarkQueries {
    pub closure: Command,
    pub context: Command,
    pub trace: Command,
    pub impact: Command,
}

/// Tells which questions are measured.
pub fn benchmark_queries(entities: i64, depth: i64) -> (r: BenchmarkQueries)
    requires
        entities > i64::MIN,
    ensures
        ({
            let target = target_of(entities as int, depth as int);
            &&& r.closure@ == numbers_bound(REACHABLE@, "depth"@, depth as int, "target"@, target)
            &&& r.context@ == plain(NEIGHBOURS@)
            &&& r.trace@ == numbers_bound(SHORTEST_PATH@, "depth"@, depth as int, "target"@, target)
            &&& r.impact@ == numbers_bound(REACHABLE@, "depth"@, depth as int, "target"@, target)
        }),
{
    let target: i64 = if depth <= entities - 1 {
        depth
    } else {
        entities - 1
    };
    BenchmarkQueries {
        closure: numbers_command(REACHABLE, "depth", depth, "target", target),
        context: plain_command(NEIGHBOURS),
        trace: numbers_command(SHORTEST_PATH, "depth", depth, "target", target),
        impact: numbers_command(REACHABLE, "depth", depth, "target", target),
    }
}

/// How the time that a question took is reported, with how many rows it found or why it failed.
pub fn timed_query(took: &str, rows: Result<u64, &str>) -> (r: String)
    ensures
        r@ == took@ + " ("@ + (match rows {
            Ok(count) => "rows="@ + decimal(count as nat),
            Err(error) => error@,
        }) + ")"@,
{
    let mut text: String = took.to_owned();
    text.append(" (");
    match rows {
        Ok(count) => {
            text.append("rows=");
            text.append(decimal_text(count).as_str());
        },
        Err(error) => {
            text.append(error);
        },
    }
    text.append(")");
    assert(text@ =~= took@ + " ("@ + (match rows {
        Ok(count) => "rows="@ + decimal(count as nat),
        Err(error) => error@,
    }) + ")"@);
    text
}

/// How the time that the questions took is reported.
pub open spec fn queries_reported(context: Seq<char>, closure: Seq<char>, trace: Seq<char>, impact: Seq<char>) -> Seq<char> {
    "context="@ + context + ", closure="@ + closure + ", trace="@ + trace + ", impact="@ + impact
}

/// Reports the time that the questions took.
pub fn report_queries(context: &str, closure: &str, trace: &str, impact: &str) -> (r: String)
    ensures
        r@ == queries_reported(context@, closure@, trace@, impact@),
{
    let mut text: String = "context=".to_owned();
    text.append(context);
    text.append(", closure=");
    text.append(closure);
    text.append(", trace=");
    text.append(trace);
    text.append(", impact=");
    text.append(impact);
    text
}

/// Reports a measurement.
pub fn benchmark(topology: &str, entities: i64, fanout: i64, depth: i64, load: &str, queries: &str) -> (r: String)
    ensures
        r@ == "algorithm=bounded-distance, topology="@ + topology@ + ", entities="@ + signed_decimal(entities as int) + ", fanout="@
            + signed_decimal(fanout as int) + ", depth="@ + signed_decimal(depth as int) + ", load="@ + load@ + ", "@ + queries@,
{
    let mut text: String = "algorithm=bounded-distance, topology=".to_owned();
    text.append(topology);
    text.append(", entities=");
    text.append(signed_text(entities).as_str());
    text.append(", fanout=");
    text.append(signed_text(fanout).as_str());
    text.append(", depth=");
    text.append(signed_text(depth).as_str());
    text.append(", load=");
    text.append(load);
    text.append(", ");
    text.append(queries);
    text
}

} // verus!
