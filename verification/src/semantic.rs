//! Answers to queries on the semantic graph, out of the rows that they return.

use crate::domain::optional_text;
use crate::dto::{copy_text, EntityKind, EntityRef, EntityRefModel};
use crate::evidence::{copy_texts, evidence_for, fixed, fixed_injective, fixed_order, fixed_text, ten_digits, DecodedEvidence, DecodedModel};
use crate::graph::{
    entity_kinds, node_in, relation_of, shown_node, stated_facts, Fact, GraphBuilder, GraphModel, GraphOutput, SemanticEdge,
    SemanticEdgeModel,
};
use crate::ids::{entity_ref_with_origin, infer_kind, kind_of_id, node_for, TextSet};
use crate::paths::{
    distance, distances, first_walk, head_of, joins, leads_beyond, shortest_path, tail_of, traversal_endpoints, within, SemanticPath,
    TraversalDirection,
};
use crate::rows::{cell_number, cell_text, float, text, InspectionValue, Row};
use crate::seqs::{keep, keep_same, keep_step};
use crate::sorted::{ascending, key_lt, key_lt_of_pairs, texts, Key, SortedMap};
use crate::text::{chars_lt, same, starts_with};
use crate::traversal::{
    limited, neighbour_models, path_models, simple_path, sound, untruncated_paths_are_all_there_are, visit, visit_is_sound, wanted_path, Neighbour, PathModel, PathQuery,
    PathScope, PathSearch, PathState, TraversalPath, TruncationReasons,
};
use vstd::prelude::*;

verus! {

/// An edge as a row states it.
pub ghost struct StatedEdge {
    pub from: Seq<char>,
    pub to: Seq<char>,
    pub relation: Seq<char>,
    pub evidence: Seq<char>,
    pub confidence: int,
    pub provenance: Seq<char>,
}

/// Where in a row the parts of an edge stand, and what errors call them.
struct EdgeColumns {
    from: (usize, &'static str),
    to: (usize, &'static str),
    relation: (usize, &'static str),
    evidence: (usize, &'static str),
    confidence: (usize, &'static str),
    provenance: (usize, &'static str),
}

/// Where in a row the parts of an edge stand, and what errors call them.
pub ghost struct Layout {
    pub from: (int, Seq<char>),
    pub to: (int, Seq<char>),
    pub relation: (int, Seq<char>),
    pub evidence: (int, Seq<char>),
    pub confidence: (int, Seq<char>),
    pub provenance: (int, Seq<char>),
}

impl EdgeColumns {
    spec fn layout(&self) -> Layout {
        Layout {
            from: (self.from.0 as int, self.from.1@),
            to: (self.to.0 as int, self.to.1@),
            relation: (self.relation.0 as int, self.relation.1@),
            evidence: (self.evidence.0 as int, self.evidence.1@),
            confidence: (self.confidence.0 as int, self.confidence.1@),
            provenance: (self.provenance.0 as int, self.provenance.1@),
        }
    }
}

/// The edge that a row states, or what is wrong with its first part that is not right.
pub open spec fn stated_edge(row: Row, layout: Layout) -> Result<StatedEdge, Seq<char>> {
    if cell_text(row, layout.from.0) is None {
        Err(layout.from.1 + " must be text"@)
    } else if cell_text(row, layout.to.0) is None {
        Err(layout.to.1 + " must be text"@)
    } else if cell_text(row, layout.relation.0) is None {
        Err(layout.relation.1 + " must be text"@)
    } else if cell_text(row, layout.evidence.0) is None {
        Err(layout.evidence.1 + " must be text"@)
    } else if cell_number(row, layout.confidence.0) is None {
        Err(layout.confidence.1 + " must be numeric"@)
    } else if cell_text(row, layout.provenance.0) is None {
        Err(layout.provenance.1 + " must be text"@)
    } else {
        Ok(
            StatedEdge {
                from: cell_text(row, layout.from.0)->0,
                to: cell_text(row, layout.to.0)->0,
                relation: cell_text(row, layout.relation.0)->0,
                evidence: cell_text(row, layout.evidence.0)->0,
                confidence: cell_number(row, layout.confidence.0)->0,
                provenance: cell_text(row, layout.provenance.0)->0,
            },
        )
    }
}

/// The graph with one more edge, or why there is no such edge.
pub open spec fn with_stated(graph: GraphModel, edge: StatedEdge, decoded: DecodedModel) -> Result<GraphModel, Seq<char>> {
    match relation_of(edge.relation) {
        Some(kind) => Ok(
            graph.with_edge(
                edge.from,
                edge.to,
                kind,
                evidence_for(edge.from, edge.to, edge.evidence, edge.provenance, decoded),
                edge.confidence,
                edge.provenance == "generated"@,
            ),
        ),
        None => Err("unknown stored semantic relation "@ + edge.relation),
    }
}

/// The graph with the edge that a row states.
pub open spec fn with_edge_row(graph: GraphModel, row: Row, layout: Layout, decoded: DecodedModel) -> Result<GraphModel, Seq<char>> {
    match stated_edge(row, layout) {
        Ok(edge) => with_stated(graph, edge, decoded),
        Err(message) => Err(message),
    }
}

/// Adds the edge that a row states.
fn add_edge_row(graph: &mut GraphBuilder, row: &Vec<InspectionValue>, columns: &EdgeColumns, decoded: &DecodedEvidence) -> (r: Result<(), String>)
    requires
        old(graph).wf(),
    ensures
        final(graph).wf(),
        r is Ok <==> with_edge_row(old(graph)@, row@, columns.layout(), decoded@) is Ok,
        r is Ok ==> final(graph)@ == with_edge_row(old(graph)@, row@, columns.layout(), decoded@)->Ok_0,
        r is Err ==> r->Err_0@ == with_edge_row(old(graph)@, row@, columns.layout(), decoded@)->Err_0,
{
    let from: &str = match text(row, columns.from.0, columns.from.1) {
        Ok(value) => value,
        Err(message) => {
            return Err(message);
        },
    };
    let to: &str = match text(row, columns.to.0, columns.to.1) {
        Ok(value) => value,
        Err(message) => {
            return Err(message);
        },
    };
    let relation: &str = match text(row, columns.relation.0, columns.relation.1) {
        Ok(value) => value,
        Err(message) => {
            return Err(message);
        },
    };
    let evidence: &str = match text(row, columns.evidence.0, columns.evidence.1) {
        Ok(value) => value,
        Err(message) => {
            return Err(message);
        },
    };
    let confidence: u64 = match float(row, columns.confidence.0, columns.confidence.1) {
        Ok(value) => value,
        Err(message) => {
            return Err(message);
        },
    };
    let provenance: &str = match text(row, columns.provenance.0, columns.provenance.1) {
        Ok(value) => value,
        Err(message) => {
            return Err(message);
        },
    };
    match graph.add_edge(from, to, relation, evidence, decoded, confidence, provenance) {
        Ok(_) => Ok(()),
        Err(message) => Err(message),
    }
}

/// Where the rows of a closure hold the parts of an edge.
pub open spec fn closure_layout() -> Layout {
    Layout {
        from: (3, "closure edge source"@),
        to: (4, "closure edge target"@),
        relation: (5, "closure relation"@),
        evidence: (6, "closure evidence"@),
        confidence: (7, "closure confidence"@),
        provenance: (8, "closure provenance"@),
    }
}

fn closure_columns() -> (r: EdgeColumns)
    ensures
        r.layout() == closure_layout(),
{
    EdgeColumns {
        from: (3, "closure edge source"),
        to: (4, "closure edge target"),
        relation: (5, "closure relation"),
        evidence: (6, "closure evidence"),
        confidence: (7, "closure confidence"),
        provenance: (8, "closure provenance"),
    }
}

/// The graph with what one row of a closure states.
pub open spec fn with_closure_row(graph: GraphModel, row: Row, decoded: DecodedModel) -> Result<GraphModel, Seq<char>> {
    match cell_text(row, 0) {
        None => Err("closure row kind"@ + " must be text"@),
        Some(kind) => if kind == "edge"@ {
            with_edge_row(graph, row, closure_layout(), decoded)
        } else {
            Err("unknown closure row kind: "@ + kind)
        },
    }
}

/// The graph with what the first `n` rows of a closure state; the first error remains.
pub open spec fn with_closure_rows(
    graph: GraphModel,
    rows: Seq<Vec<InspectionValue>>,
    decoded: Seq<DecodedEvidence>,
    n: int,
) -> Result<GraphModel, Seq<char>>
    decreases n,
{
    if n <= 0 {
        Ok(graph)
    } else {
        match with_closure_rows(graph, rows, decoded, n - 1) {
            Ok(before) => with_closure_row(before, rows[n - 1]@, decoded[n - 1]@),
            Err(message) => Err(message),
        }
    }
}

proof fn closure_rows_error(
    graph: GraphModel,
    rows: Seq<Vec<InspectionValue>>,
    decoded: Seq<DecodedEvidence>,
    k: int,
    n: int,
)
    requires
        0 <= k <= n,
        with_closure_rows(graph, rows, decoded, k) is Err,
    ensures
        with_closure_rows(graph, rows, decoded, n) == with_closure_rows(graph, rows, decoded, k),
    decreases n - k,
{
    if k < n {
        closure_rows_error(graph, rows, decoded, k, n - 1);
    }
}

/// The graph with nodes for the first `n` roots.
pub open spec fn with_roots(graph: GraphModel, roots: Seq<Seq<char>>, n: int) -> GraphModel
    decreases n,
{
    if n <= 0 {
        graph
    } else {
        with_roots(graph, roots, n - 1).hinted(roots[n - 1], kind_of_id(roots[n - 1]))
    }
}

/// The graph that the rows of a closure state around some roots.
pub open spec fn closure_graph(
    rows: Seq<Vec<InspectionValue>>,
    decoded: Seq<DecodedEvidence>,
    entities: Seq<Vec<InspectionValue>>,
    roots: Seq<Seq<char>>,
) -> Result<GraphModel, Seq<char>> {
    match stated_facts(entities, entities.len() as int) {
        Err(message) => Err(message),
        Ok(facts) => with_closure_rows(
            with_roots(GraphModel { facts, ..GraphModel::empty() }, roots, roots.len() as int),
            rows,
            decoded,
            rows.len() as int,
        ),
    }
}

/// Builds the graph that the rows of a closure state around some roots. The evidence of each
/// row comes decoded.
pub fn graph(
    rows: &Vec<Vec<InspectionValue>>,
    decoded: &Vec<DecodedEvidence>,
    entities: &Vec<Vec<InspectionValue>>,
    roots: &Vec<String>,
) -> (r: Result<GraphOutput, String>)
    requires
        decoded@.len() == rows@.len(),
    ensures
        r is Ok <==> closure_graph(rows@, decoded@, entities@, texts(roots@)) is Ok,
        r is Ok ==> r->Ok_0.shows(closure_graph(rows@, decoded@, entities@, texts(roots@))->Ok_0),
        r is Err ==> r->Err_0@ == closure_graph(rows@, decoded@, entities@, texts(roots@))->Err_0,
{
    let columns: EdgeColumns = closure_columns();
    let facts: SortedMap<String, Fact> = match entity_kinds(entities) {
        Ok(facts) => facts,
        Err(message) => {
            return Err(message);
        },
    };
    let mut builder: GraphBuilder = GraphBuilder::new();
    builder.hint_facts(facts);
    let ghost base = builder@;
    let ghost names = texts(roots@);
    let mut i: usize = 0;
    while i < roots.len()
        invariant
            i <= roots@.len(),
            names == texts(roots@),
            builder.wf(),
            builder@ == with_roots(base, names, i as int),
        decreases roots@.len() - i,
    {
        assert(names[i as int] == roots@[i as int]@);
        builder.hint(roots[i].as_str(), infer_kind(roots[i].as_str()));
        i = i + 1;
    }
    let ghost rooted = builder@;
    let mut i: usize = 0;
    while i < rows.len()
        invariant
            i <= rows@.len(),
            decoded@.len() == rows@.len(),
            builder.wf(),
            columns.layout() == closure_layout(),
            closure_graph(rows@, decoded@, entities@, texts(roots@)) == with_closure_rows(
                rooted,
                rows@,
                decoded@,
                rows@.len() as int,
            ),
            with_closure_rows(rooted, rows@, decoded@, i as int) == Ok::<GraphModel, Seq<char>>(builder@),
        decreases rows@.len() - i,
    {
        let kind: &str = match text(&rows[i], 0, "closure row kind") {
            Ok(kind) => kind,
            Err(message) => {
                proof {
                    closure_rows_error(rooted, rows@, decoded@, i as int + 1, rows@.len() as int);
                }
                return Err(message);
            },
        };
        if !same(kind, "edge") {
            let mut message: String = "unknown closure row kind: ".to_owned();
            message.append(kind);
            proof {
                closure_rows_error(rooted, rows@, decoded@, i as int + 1, rows@.len() as int);
            }
            return Err(message);
        }
        match add_edge_row(&mut builder, &rows[i], &columns, &decoded[i]) {
            Ok(_) => {},
            Err(message) => {
                proof {
                    closure_rows_error(rooted, rows@, decoded@, i as int + 1, rows@.len() as int);
                }
                return Err(message);
            },
        }
        i = i + 1;
    }
    Ok(builder.finish())
}

/// The contents of a list of nodes.
pub open spec fn node_models(nodes: Seq<EntityRef>) -> Seq<EntityRefModel> {
    nodes.map_values(|n: EntityRef| n@)
}

/// The contents of a list of edges.
pub open spec fn edge_list_models(edges: Seq<SemanticEdge>) -> Seq<SemanticEdgeModel> {
    edges.map_values(|e: SemanticEdge| e@)
}

/// The nodes whose identifiers are known.
fn keep_nodes<V>(nodes: &Vec<EntityRef>, known: &SortedMap<String, V>) -> (r: Vec<EntityRef>)
    requires
        known.wf(),
    ensures
        node_models(r@) == keep(node_models(nodes@), |n: EntityRefModel| known@.contains_key(seq![n.id])),
{
    let ghost all = node_models(nodes@);
    let ghost wanted = |n: EntityRefModel| known@.contains_key(seq![n.id]);
    let mut out: Vec<EntityRef> = Vec::new();
    let mut i: usize = 0;
    assert(node_models(out@) =~= keep(all.take(0), wanted));
    while i < nodes.len()
        invariant
            i <= nodes@.len(),
            known.wf(),
            all == node_models(nodes@),
            wanted == (|n: EntityRefModel| known@.contains_key(seq![n.id])),
            node_models(out@) == keep(all.take(i as int), wanted),
        decreases nodes@.len() - i,
    {
        let ghost before = out@;
        proof {
            keep_step(all, i as int, wanted);
            assert(all[i as int] == nodes@[i as int]@);
        }
        if known.contains_key(&nodes[i].id) {
            out.push(nodes[i].copy());
            assert(node_models(out@) =~= node_models(before).push(nodes@[i as int]@));
        }
        i = i + 1;
    }
    assert(all.take(nodes@.len() as int) =~= all);
    out
}

/// The edges between nodes whose identifiers are known.
fn keep_edges<V>(edges: &Vec<SemanticEdge>, known: &SortedMap<String, V>) -> (r: Vec<SemanticEdge>)
    requires
        known.wf(),
    ensures
        edge_list_models(r@) == keep(
            edge_list_models(edges@),
            |e: SemanticEdgeModel| known@.contains_key(seq![e.from]) && known@.contains_key(seq![e.to]),
        ),
{
    let ghost all = edge_list_models(edges@);
    let ghost wanted = |e: SemanticEdgeModel| known@.contains_key(seq![e.from]) && known@.contains_key(seq![e.to]);
    let mut out: Vec<SemanticEdge> = Vec::new();
    let mut i: usize = 0;
    assert(edge_list_models(out@) =~= keep(all.take(0), wanted));
    while i < edges.len()
        invariant
            i <= edges@.len(),
            known.wf(),
            all == edge_list_models(edges@),
            wanted == (|e: SemanticEdgeModel| known@.contains_key(seq![e.from]) && known@.contains_key(seq![e.to])),
            edge_list_models(out@) == keep(all.take(i as int), wanted),
        decreases edges@.len() - i,
    {
        let ghost before = out@;
        proof {
            keep_step(all, i as int, wanted);
            assert(all[i as int] == edges@[i as int]@);
        }
        if known.contains_key(&edges[i].from) && known.contains_key(&edges[i].to) {
            out.push(edges[i].copy());
            assert(edge_list_models(out@) =~= edge_list_models(before).push(edges@[i as int]@));
        }
        i = i + 1;
    }
    assert(all.take(edges@.len() as int) =~= all);
    out
}

/// The edges whose identifiers are known.
fn keep_edges_by_id(edges: &Vec<SemanticEdge>, known: &TextSet) -> (r: Vec<SemanticEdge>)
    requires
        known.wf(),
    ensures
        edge_list_models(r@) == keep(edge_list_models(edges@), |e: SemanticEdgeModel| known@.contains_key(seq![e.id])),
{
    let ghost all = edge_list_models(edges@);
    let ghost wanted = |e: SemanticEdgeModel| known@.contains_key(seq![e.id]);
    let mut out: Vec<SemanticEdge> = Vec::new();
    let mut i: usize = 0;
    assert(edge_list_models(out@) =~= keep(all.take(0), wanted));
    while i < edges.len()
        invariant
            i <= edges@.len(),
            known.wf(),
            all == edge_list_models(edges@),
            wanted == (|e: SemanticEdgeModel| known@.contains_key(seq![e.id])),
            edge_list_models(out@) == keep(all.take(i as int), wanted),
        decreases edges@.len() - i,
    {
        let ghost before = out@;
        proof {
            keep_step(all, i as int, wanted);
            assert(all[i as int] == edges@[i as int]@);
        }
        if known.contains_key(&edges[i].id) {
            out.push(edges[i].copy());
            assert(edge_list_models(out@) =~= edge_list_models(before).push(edges@[i as int]@));
        }
        i = i + 1;
    }
    assert(all.take(edges@.len() as int) =~= all);
    out
}

/// A node within reach, and how many hops away.
#[derive(Debug)]
pub struct Reached {
    pub entity: String,
    pub hops: u32,
}

/// What lies within a number of hops of an entity.
#[derive(Debug)]
pub struct Reach {
    pub root: EntityRef,
    pub reached: Vec<Reached>,
    pub nodes: Vec<EntityRef>,
    pub edges: Vec<SemanticEdge>,
    pub max_hops: u32,
    pub truncated: bool,
}

/// Nearer nodes come first, and those equally near in ascending order.
pub open spec fn by_distance(reached: Seq<Reached>) -> bool {
    forall|i: int, j: int|
        0 <= i < j < reached.len() ==> (#[trigger] reached[i]).hops < (#[trigger] reached[j]).hops || (reached[i].hops
            == reached[j].hops && chars_lt(reached[i].entity@, reached[j].entity@))
}

impl Reach {
    /// Whether this is what a full graph holds within a number of hops of an entity.
    pub open spec fn cuts(&self, full: GraphOutput, entity: Seq<char>, max_hops: u32, direction: TraversalDirection) -> bool {
        let edges = full.edges@;
        &&& self.max_hops == max_hops
        &&& self.truncated == leads_beyond(edges, direction, entity, max_hops)
        &&& node_models(self.nodes@) == keep(
            node_models(full.nodes@),
            |n: EntityRefModel| within(edges, direction, entity, n.id, max_hops),
        )
        &&& edge_list_models(self.edges@) == keep(
            edge_list_models(edges),
            |e: SemanticEdgeModel| within(edges, direction, entity, e.from, max_hops) && within(edges, direction, entity, e.to, max_hops),
        )
        &&& by_distance(self.reached@)
        &&& forall|i: int|
            0 <= i < self.reached@.len() ==> {
                &&& (#[trigger] self.reached@[i]).entity@ != entity
                &&& self.reached@[i].hops <= max_hops
                &&& distance(edges, direction, entity, self.reached@[i].entity@, self.reached@[i].hops as nat)
            }
        &&& forall|node: Seq<char>|
            node != entity && #[trigger] within(edges, direction, entity, node, max_hops) ==> exists|i: int|
                0 <= i < self.reached@.len() && (#[trigger] self.reached@[i]).entity@ == node
    }
}

/// Lists the nodes that were found, but for the root, by distance.
fn list_reached(found: &SortedMap<String, u32>, root: &str) -> (r: Vec<Reached>)
    requires
        found.wf(),
    ensures
        by_distance(r@),
        forall|i: int| 0 <= i < r@.len() ==> (#[trigger] r@[i]).entity@ != root@ && found@.contains_key(seq![r@[i].entity@])
            && found@[seq![r@[i].entity@]] == r@[i].hops,
        forall|node: Seq<char>| node != root@ && #[trigger] found@.contains_key(seq![node]) ==> exists|i: int|
            0 <= i < r@.len() && (#[trigger] r@[i]).entity@ == node,
{
    let mut order: SortedMap<Vec<String>, Reached> = SortedMap::new();
    let mut i: usize = 0;
    while i < found.keys.len()
        invariant
            found.wf(),
            i <= found.keys@.len(),
            order.wf(),
            forall|k: Seq<Seq<char>>| #[trigger] order@.contains_key(k) ==> {
                let entry = order@[k];
                &&& k == seq![fixed(entry.hops as nat, 10), entry.entity@]
                &&& entry.entity@ != root@
                &&& found@.contains_key(seq![entry.entity@])
                &&& found@[seq![entry.entity@]] == entry.hops
            },
            forall|j: int| 0 <= j < i && (#[trigger] found.keys@[j])@ != root@ ==> order@.contains_key(
                seq![fixed(found.values@[j] as nat, 10), found.keys@[j]@],
            ),
        decreases found.keys@.len() - i,
    {
        proof {
            found.entry(i as int);
        }
        if !same(found.keys[i].as_str(), root) {
            let mut key: Vec<String> = Vec::new();
            key.push(fixed_text(found.values[i], 10));
            key.push(found.keys[i].clone());
            assert(key.key() =~= seq![fixed(found.values@[i as int] as nat, 10), found.keys@[i as int]@]);
            order.insert(key, Reached { entity: found.keys[i].clone(), hops: found.values[i] });
        }
        i = i + 1;
    }
    let ghost listed = order;
    proof {
        assert forall|a: int| 0 <= a < listed.values@.len() implies {
            let entry = #[trigger] listed.values@[a];
            &&& listed.listing()[a] == seq![fixed(entry.hops as nat, 10), entry.entity@]
            &&& entry.entity@ != root@
            &&& found@.contains_key(seq![entry.entity@])
            &&& found@[seq![entry.entity@]] == entry.hops
        } by {
            listed.entry(a);
        }
        assert forall|a: int, b: int| 0 <= a < b < listed.values@.len() implies (#[trigger] listed.values@[a]).hops < (#[trigger] listed.values@[b]).hops
            || (listed.values@[a].hops == listed.values@[b].hops && chars_lt(listed.values@[a].entity@, listed.values@[b].entity@)) by {
            let x = listed.values@[a];
            let y = listed.values@[b];
            let p = listed.listing()[a];
            let q = listed.listing()[b];
            assert(key_lt(p, q));
            key_lt_of_pairs(fixed(x.hops as nat, 10), x.entity@, fixed(y.hops as nat, 10), y.entity@);
            ten_digits();
            if chars_lt(fixed(x.hops as nat, 10), fixed(y.hops as nat, 10)) {
                fixed_order(x.hops as nat, y.hops as nat, 10);
            } else {
                fixed_injective(x.hops as nat, y.hops as nat, 10);
            }
        }
        assert forall|node: Seq<char>| node != root@ && #[trigger] found@.contains_key(seq![node]) implies exists|a: int|
            0 <= a < listed.values@.len() && (#[trigger] listed.values@[a]).entity@ == node by {
            let j = found.position(seq![node]);
            found.entry(j);
            assert(seq![found.keys@[j]@][0] == seq![node][0]);
            let key = seq![fixed(found.values@[j] as nat, 10), node];
            assert(listed@.contains_key(key));
            let a = listed.position(key);
            assert(listed.listing()[a] == key);
            assert(listed.listing()[a][1] == listed.values@[a].entity@);
        }
    }
    order.values
}

/// The graph around one entity that the rows of a closure state.
pub open spec fn entity_graph(
    rows: Seq<Vec<InspectionValue>>,
    decoded: Seq<DecodedEvidence>,
    entities: Seq<Vec<InspectionValue>>,
    entity: Seq<char>,
) -> Result<GraphModel, Seq<char>> {
    closure_graph(rows, decoded, entities, seq![entity])
}

/// What lies within a number of hops of an entity, in a direction.
fn closure(
    rows: &Vec<Vec<InspectionValue>>,
    decoded: &Vec<DecodedEvidence>,
    entities: &Vec<Vec<InspectionValue>>,
    root: &str,
    max_hops: u32,
    direction: TraversalDirection,
) -> (r: Result<Reach, String>)
    requires
        decoded@.len() == rows@.len(),
    ensures
        r is Ok <==> entity_graph(rows@, decoded@, entities@, root@) is Ok,
        r is Ok ==> exists|full: GraphOutput| #[trigger] full.shows(entity_graph(rows@, decoded@, entities@, root@)->Ok_0) && r->Ok_0.cuts(
            full,
            root@,
            max_hops,
            direction,
        ),
        r is Ok ==> r->Ok_0.root@ == node_in(entity_graph(rows@, decoded@, entities@, root@)->Ok_0, root@),
        r is Err ==> r->Err_0@ == entity_graph(rows@, decoded@, entities@, root@)->Err_0,
{
    let mut roots: Vec<String> = Vec::new();
    roots.push(root.to_owned());
    assert(texts(roots@) =~= seq![root@]);
    let full: GraphOutput = match graph(rows, decoded, entities, &roots) {
        Ok(full) => full,
        Err(message) => {
            return Err(message);
        },
    };
    let (found, truncated): (SortedMap<String, u32>, bool) = distances(root, &full.edges, max_hops, direction);
    let nodes: Vec<EntityRef> = keep_nodes(&full.nodes, &found);
    let edges: Vec<SemanticEdge> = keep_edges(&full.edges, &found);
    let reached: Vec<Reached> = list_reached(&found, root);
    let ghost listed = reached@;
    let found_root: EntityRef = full.entity(root);
    let reach: Reach = Reach { root: found_root, reached, nodes, edges, max_hops, truncated };
    proof {
        let g = entity_graph(rows@, decoded@, entities@, root@)->Ok_0;
        let all = full.edges@;
        keep_same(
            node_models(full.nodes@),
            |n: EntityRefModel| found@.contains_key(seq![n.id]),
            |n: EntityRefModel| within(all, direction, root@, n.id, max_hops),
        );
        keep_same(
            edge_list_models(all),
            |e: SemanticEdgeModel| found@.contains_key(seq![e.from]) && found@.contains_key(seq![e.to]),
            |e: SemanticEdgeModel| within(all, direction, root@, e.from, max_hops) && within(all, direction, root@, e.to, max_hops),
        );
        assert forall|i: int| 0 <= i < reach.reached@.len() implies {
            &&& (#[trigger] reach.reached@[i]).entity@ != root@
            &&& reach.reached@[i].hops <= max_hops
            &&& distance(all, direction, root@, reach.reached@[i].entity@, reach.reached@[i].hops as nat)
        } by {
            let key = seq![reach.reached@[i].entity@];
            assert(found@.contains_key(key));
            assert(key[0] == reach.reached@[i].entity@);
        }
        assert forall|node: Seq<char>| node != root@ && #[trigger] within(all, direction, root@, node, max_hops) implies exists|i: int|
            0 <= i < reach.reached@.len() && (#[trigger] reach.reached@[i]).entity@ == node by {
            assert(found@.contains_key(seq![node]));
            let i = choose|i: int| 0 <= i < listed.len() && (#[trigger] listed[i]).entity@ == node;
            assert(reach.reached@[i].entity@ == node);
        }
        assert(reach.cuts(full, root@, max_hops, direction));
        root_has_a_node(rows@, decoded@, entities@, seq![root@], 0);
        shown_node(full, g, root@);
    }
    Ok(reach)
}

/// Hints and edges keep the nodes of a graph.
proof fn rows_keep_nodes(graph: GraphModel, rows: Seq<Vec<InspectionValue>>, decoded: Seq<DecodedEvidence>, n: int, key: Seq<Seq<char>>)
    requires
        graph.kinds.contains_key(key),
        with_closure_rows(graph, rows, decoded, n) is Ok,
    ensures
        with_closure_rows(graph, rows, decoded, n)->Ok_0.kinds.contains_key(key),
    decreases n,
{
    if n > 0 {
        rows_keep_nodes(graph, rows, decoded, n - 1, key);
    }
}

proof fn roots_have_nodes(graph: GraphModel, roots: Seq<Seq<char>>, n: int, k: int)
    requires
        0 <= k < n <= roots.len(),
    ensures
        with_roots(graph, roots, n).kinds.contains_key(seq![roots[k]]),
    decreases n,
{
    if k < n - 1 {
        roots_have_nodes(graph, roots, n - 1, k);
    }
}

/// Every root of a graph has a node in it.
pub proof fn root_has_a_node(
    rows: Seq<Vec<InspectionValue>>,
    decoded: Seq<DecodedEvidence>,
    entities: Seq<Vec<InspectionValue>>,
    roots: Seq<Seq<char>>,
    k: int,
)
    requires
        closure_graph(rows, decoded, entities, roots) is Ok,
        0 <= k < roots.len(),
    ensures
        closure_graph(rows, decoded, entities, roots)->Ok_0.kinds.contains_key(seq![roots[k]]),
{
    let facts = stated_facts(entities, entities.len() as int)->Ok_0;
    let base = GraphModel { facts, ..GraphModel::empty() };
    roots_have_nodes(base, roots, roots.len() as int, k);
    rows_keep_nodes(with_roots(base, roots, roots.len() as int), rows, decoded, rows.len() as int, seq![roots[k]]);
}

/// What an entity depends on, within a number of hops.
pub fn dependencies(
    entity: &str,
    max_hops: u32,
    rows: &Vec<Vec<InspectionValue>>,
    decoded: &Vec<DecodedEvidence>,
    entities: &Vec<Vec<InspectionValue>>,
) -> (r: Result<Reach, String>)
    requires
        decoded@.len() == rows@.len(),
    ensures
        r is Ok <==> entity_graph(rows@, decoded@, entities@, entity@) is Ok,
        r is Ok ==> exists|full: GraphOutput| #[trigger] full.shows(entity_graph(rows@, decoded@, entities@, entity@)->Ok_0) && r->Ok_0.cuts(
            full,
            entity@,
            max_hops,
            TraversalDirection::Outgoing,
        ),
        r is Ok ==> r->Ok_0.root@ == node_in(entity_graph(rows@, decoded@, entities@, entity@)->Ok_0, entity@),
        r is Err ==> r->Err_0@ == entity_graph(rows@, decoded@, entities@, entity@)->Err_0,
{
    closure(rows, decoded, entities, entity, max_hops, TraversalDirection::Outgoing)
}

/// What depends on an entity, within a number of hops.
pub fn impact(
    entity: &str,
    max_hops: u32,
    rows: &Vec<Vec<InspectionValue>>,
    decoded: &Vec<DecodedEvidence>,
    entities: &Vec<Vec<InspectionValue>>,
) -> (r: Result<Reach, String>)
    requires
        decoded@.len() == rows@.len(),
    ensures
        r is Ok <==> entity_graph(rows@, decoded@, entities@, entity@) is Ok,
        r is Ok ==> exists|full: GraphOutput| #[trigger] full.shows(entity_graph(rows@, decoded@, entities@, entity@)->Ok_0) && r->Ok_0.cuts(
            full,
            entity@,
            max_hops,
            TraversalDirection::Incoming,
        ),
        r is Ok ==> r->Ok_0.root@ == node_in(entity_graph(rows@, decoded@, entities@, entity@)->Ok_0, entity@),
        r is Err ==> r->Err_0@ == entity_graph(rows@, decoded@, entities@, entity@)->Err_0,
{
    closure(rows, decoded, entities, entity, max_hops, TraversalDirection::Incoming)
}

/// A path between two entities, with the part of the graph that it runs through.
#[derive(Debug)]
pub struct Trace {
    pub nodes: Vec<EntityRef>,
    pub edges: Vec<SemanticEdge>,
    pub path: Option<SemanticPath>,
    pub max_hops: u32,
    pub truncated: bool,
}

/// The nodes that a trace shows: those of the path, or the two ends where there is none.
pub open spec fn traced_nodes(path: Option<SemanticPath>, from: Seq<char>, to: Seq<char>) -> Seq<Seq<char>> {
    match path {
        Some(path) => texts(path.nodes@),
        None => seq![from, to],
    }
}

/// The edges that a trace shows: those of the path.
pub open spec fn traced_edges(path: Option<SemanticPath>) -> Seq<Seq<char>> {
    match path {
        Some(path) => texts(path.edges@),
        None => Seq::empty(),
    }
}

impl Trace {
    /// Whether this shows the first shortest path of a full graph, or that there is none within reach.
    pub open spec fn cuts(&self, full: GraphOutput, from: Seq<char>, to: Seq<char>, max_hops: u32) -> bool {
        let edges = full.edges@;
        let direction = TraversalDirection::Outgoing;
        &&& self.max_hops == max_hops
        &&& self.path is Some <==> within(edges, direction, from, to, max_hops)
        &&& self.path is Some ==> self.path->0.leads(edges, direction, from, to) && distance(
            edges,
            direction,
            from,
            to,
            self.path->0.edges@.len() as nat,
        )
        &&& self.path is Some ==> exists|w: Seq<int>| #[trigger]
            first_walk(edges, direction, from, to, w) && self.path->0.follows(edges, direction, w)
        &&& self.truncated == (self.path is None && leads_beyond(edges, direction, from, max_hops))
        &&& node_models(self.nodes@) == keep(
            node_models(full.nodes@),
            |n: EntityRefModel| traced_nodes(self.path, from, to).contains(n.id),
        )
        &&& edge_list_models(self.edges@) == keep(
            edge_list_models(edges),
            |e: SemanticEdgeModel| traced_edges(self.path).contains(e.id),
        )
    }
}

/// The set of the texts in a list.
fn text_set(list: &Vec<String>) -> (r: TextSet)
    ensures
        r.wf(),
        forall|t: Seq<char>| #[trigger] r@.contains_key(seq![t]) <==> texts(list@).contains(t),
{
    let mut set: TextSet = SortedMap::new();
    let mut i: usize = 0;
    while i < list.len()
        invariant
            i <= list@.len(),
            set.wf(),
            forall|t: Seq<char>| #[trigger] set@.contains_key(seq![t]) <==> texts(list@).take(i as int).contains(t),
        decreases list@.len() - i,
    {
        let ghost before = set@;
        set.insert(list[i].clone(), ());
        proof {
            let part = texts(list@).take(i as int);
            let next = texts(list@).take(i as int + 1);
            assert(next =~= part.push(list@[i as int]@));
            assert forall|t: Seq<char>| #[trigger] set@.contains_key(seq![t]) <==> next.contains(t) by {
                assert(seq![t][0] == t);
                assert(seq![list@[i as int]@][0] == list@[i as int]@);
                if part.contains(t) {
                    let j = choose|j: int| 0 <= j < part.len() && part[j] == t;
                    assert(next[j] == t);
                }
                if t == list@[i as int]@ {
                    assert(next[i as int] == t);
                }
                if next.contains(t) && t != list@[i as int]@ {
                    let j = choose|j: int| 0 <= j < next.len() && next[j] == t;
                    assert(part[j] == t);
                }
                assert(before.contains_key(seq![t]) <==> part.contains(t));
            }
        }
        i = i + 1;
    }
    assert(texts(list@).take(list@.len() as int) =~= texts(list@));
    set
}

/// The graph between two entities that the rows of a closure state.
pub open spec fn pair_graph(
    rows: Seq<Vec<InspectionValue>>,
    decoded: Seq<DecodedEvidence>,
    entities: Seq<Vec<InspectionValue>>,
    from: Seq<char>,
    to: Seq<char>,
) -> Result<GraphModel, Seq<char>> {
    closure_graph(rows, decoded, entities, seq![from, to])
}

/// A shortest path from one entity to another; of several the one that takes the earliest edges.
pub fn trace(
    from: &str,
    to: &str,
    max_hops: u32,
    rows: &Vec<Vec<InspectionValue>>,
    decoded: &Vec<DecodedEvidence>,
    entities: &Vec<Vec<InspectionValue>>,
) -> (r: Result<Trace, String>)
    requires
        decoded@.len() == rows@.len(),
    ensures
        r is Ok <==> pair_graph(rows@, decoded@, entities@, from@, to@) is Ok,
        r is Ok ==> exists|full: GraphOutput| #[trigger] full.shows(pair_graph(rows@, decoded@, entities@, from@, to@)->Ok_0)
            && r->Ok_0.cuts(full, from@, to@, max_hops),
        r is Err ==> r->Err_0@ == pair_graph(rows@, decoded@, entities@, from@, to@)->Err_0,
{
    let mut roots: Vec<String> = Vec::new();
    roots.push(from.to_owned());
    roots.push(to.to_owned());
    assert(texts(roots@) =~= seq![from@, to@]);
    let full: GraphOutput = match graph(rows, decoded, entities, &roots) {
        Ok(full) => full,
        Err(message) => {
            return Err(message);
        },
    };
    let (path, truncated): (Option<SemanticPath>, bool) = shortest_path(from, to, max_hops, &full.edges);
    let no_edges: Vec<String> = Vec::new();
    let path_nodes: TextSet = match &path {
        Some(path) => text_set(&path.nodes),
        None => text_set(&roots),
    };
    let path_edges: TextSet = match &path {
        Some(path) => text_set(&path.edges),
        None => text_set(&no_edges),
    };
    let nodes: Vec<EntityRef> = keep_nodes(&full.nodes, &path_nodes);
    let edges: Vec<SemanticEdge> = keep_edges_by_id(&full.edges, &path_edges);
    let answer: Trace = Trace { nodes, edges, path, max_hops, truncated };
    proof {
        assert(texts(no_edges@) =~= Seq::empty());
        keep_same(
            node_models(full.nodes@),
            |n: EntityRefModel| path_nodes@.contains_key(seq![n.id]),
            |n: EntityRefModel| traced_nodes(answer.path, from@, to@).contains(n.id),
        );
        keep_same(
            edge_list_models(full.edges@),
            |e: SemanticEdgeModel| path_edges@.contains_key(seq![e.id]),
            |e: SemanticEdgeModel| traced_edges(answer.path).contains(e.id),
        );
        assert(answer.cuts(full, from@, to@, max_hops));
    }
    Ok(answer)
}

/// The neighbours of a node, in ascending order.
pub open spec fn lists_neighbours(list: Seq<Neighbour>, edges: Seq<SemanticEdge>, direction: TraversalDirection, node: Seq<char>) -> bool {
    &&& ascending(list.map_values(|n: Neighbour| seq![n.0, n.1]))
    &&& forall|n: Neighbour| #[trigger] list.contains(n) <==> joins(edges, direction, n.1, node, n.0)
}

/// Whether a scope has the neighbours of every node that an edge leaves.
pub open spec fn has_neighbours(adjacent: Map<Seq<Seq<char>>, Seq<Neighbour>>, edges: Seq<SemanticEdge>, direction: TraversalDirection) -> bool {
    &&& forall|node: Seq<char>| #[trigger] adjacent.contains_key(seq![node]) ==> lists_neighbours(adjacent[seq![node]], edges, direction, node)
    &&& forall|i: int| 0 <= i < edges.len() ==> adjacent.contains_key(seq![tail_of(#[trigger] edges[i], direction)])
}

/// Neighbours by node, each under its own key.
pub open spec fn sorted_links(links: Map<Seq<Seq<char>>, SortedMap<Vec<String>, (String, String)>>, edges: Seq<SemanticEdge>, direction: TraversalDirection, n: int) -> bool {
    &&& forall|node: Seq<char>|
        #[trigger] links.contains_key(seq![node]) ==> {
            let list = links[seq![node]];
            &&& list.wf()
            &&& forall|k: Seq<Seq<char>>|
                #[trigger] list@.contains_key(k) ==> k == seq![list@[k].0@, list@[k].1@] && joins(edges, direction, list@[k].1@, node, list@[k].0@)
        }
    &&& forall|i: int|
        0 <= i < n ==> links.contains_key(seq![tail_of(#[trigger] edges[i], direction)]) && links[seq![tail_of(edges[i], direction)]]@.contains_key(
            seq![head_of(edges[i], direction), edges[i].id@],
        )
}

/// The neighbours of every node that an edge leaves, in ascending order.
fn neighbours(edges: &Vec<SemanticEdge>, direction: TraversalDirection) -> (r: SortedMap<String, Vec<(String, String)>>)
    ensures
        r.wf(),
        has_neighbours(
            Map::new(
                |k: Seq<Seq<char>>| r@.contains_key(k),
                |k: Seq<Seq<char>>| neighbour_models(r@[k]@),
            ),
            edges@,
            direction,
        ),
{
    let mut links: SortedMap<String, SortedMap<Vec<String>, (String, String)>> = SortedMap::new();
    let mut i: usize = 0;
    while i < edges.len()
        invariant
            i <= edges@.len(),
            links.wf(),
            sorted_links(links@, edges@, direction, i as int),
        decreases edges@.len() - i,
    {
        let ghost before = links@;
        let edge: &SemanticEdge = &edges[i];
        let (from, to): (&String, &String) = traversal_endpoints(edge, direction);
        let ghost node = seq![from@];
        let mut list: SortedMap<Vec<String>, (String, String)> = match links.remove(from) {
            Some(list) => list,
            None => SortedMap::new(),
        };
        let ghost was = list@;
        let mut key: Vec<String> = Vec::new();
        key.push(to.clone());
        key.push(edge.id.clone());
        assert(key.key() =~= seq![to@, edge.id@]);
        let ghost at = key.key();
        let value: (String, String) = (to.clone(), edge.id.clone());
        let ghost entry = value;
        list.insert(key, value);
        let ghost now = list;
        links.insert(from.clone(), list);
        proof {
            assert(edges@[i as int] == *edge);
            assert(joins(edges@, direction, edge.id@, from@, to@));
            assert(links@ =~= before.insert(node, now));
            assert(now@ == was.insert(at, entry));
            assert forall|other: Seq<char>| #[trigger] links@.contains_key(seq![other]) implies {
                let list = links@[seq![other]];
                &&& list.wf()
                &&& forall|k: Seq<Seq<char>>|
                    #[trigger] list@.contains_key(k) ==> k == seq![list@[k].0@, list@[k].1@] && joins(edges@, direction, list@[k].1@, other, list@[k].0@)
            } by {
                if seq![other] != node {
                    assert(before.contains_key(seq![other]));
                } else {
                    assert(seq![other][0] == node[0]);
                    if before.contains_key(node) {
                        assert(was == before[node]@);
                    }
                }
            }
            assert forall|j: int| 0 <= j < i + 1 implies links@.contains_key(seq![tail_of(#[trigger] edges@[j], direction)]) && links@[seq![tail_of(edges@[j], direction)]]@.contains_key(
                seq![head_of(edges@[j], direction), edges@[j].id@],
            ) by {
                if j < i {
                    assert(before.contains_key(seq![tail_of(edges@[j], direction)]));
                }
            }
        }
        i = i + 1;
    }
    let mut out: SortedMap<String, Vec<(String, String)>> = SortedMap::new();
    let SortedMap { keys, values }: SortedMap<String, SortedMap<Vec<String>, (String, String)>> = links;
    let ghost source = SortedMap { keys, values };
    assert(source@ == links@);
    let mut i: usize = 0;
    while i < keys.len()
        invariant
            i <= keys@.len(),
            source.wf(),
            source.keys@ == keys@,
            source.values@ == values@,
            sorted_links(source@, edges@, direction, edges@.len() as int),
            out.wf(),
            forall|node: Seq<char>| #[trigger] out@.contains_key(seq![node]) ==> lists_neighbours(neighbour_models(out@[seq![node]]@), edges@, direction, node),
            forall|j: int| 0 <= j < i ==> out@.contains_key(seq![(#[trigger] keys@[j])@]),
        decreases keys@.len() - i,
    {
        let ghost before = out@;
        let ghost node = keys@[i as int]@;
        proof {
            source.entry(i as int);
        }
        let list: Vec<(String, String)> = copy_pairs(&values[i].values);
        let ghost made = list;
        out.insert(keys[i].clone(), list);
        proof {
            assert(source@.contains_key(seq![node]));
            sorted_list_is_complete(values@[i as int], source@, edges@, direction, node, made@);
            assert forall|other: Seq<char>| #[trigger] out@.contains_key(seq![other]) implies lists_neighbours(
                neighbour_models(out@[seq![other]]@),
                edges@,
                direction,
                other,
            ) by {
                assert(seq![other][0] == other);
                if seq![other] != seq![node] {
                    assert(before.contains_key(seq![other]));
                } else {
                    assert(seq![other][0] == seq![node][0]);
                }
            }
            assert forall|j: int| 0 <= j < i + 1 implies out@.contains_key(seq![(#[trigger] keys@[j])@]) by {
                if j < i {
                    assert(before.contains_key(seq![keys@[j]@]));
                }
            }
        }
        i = i + 1;
    }
    proof {
        let adjacent = Map::new(
            |k: Seq<Seq<char>>| out@.contains_key(k),
            |k: Seq<Seq<char>>| neighbour_models(out@[k]@),
        );
        assert forall|e: int| 0 <= e < edges@.len() implies adjacent.contains_key(seq![tail_of(#[trigger] edges@[e], direction)]) by {
            let key = seq![tail_of(edges@[e], direction)];
            assert(source@.contains_key(key));
            let j = source.position(key);
            assert(source.keys@[j].key() == key);
            assert(out@.contains_key(seq![keys@[j]@]));
        }
    }
    out
}

/// Copies pairs of texts in order.
fn copy_pairs(list: &Vec<(String, String)>) -> (r: Vec<(String, String)>)
    ensures
        neighbour_models(r@) == neighbour_models(list@),
{
    let mut out: Vec<(String, String)> = Vec::new();
    let mut i: usize = 0;
    while i < list.len()
        invariant
            i <= list@.len(),
            neighbour_models(out@) =~= neighbour_models(list@).take(i as int),
        decreases list@.len() - i,
    {
        let ghost before = out@;
        out.push((list[i].0.clone(), list[i].1.clone()));
        assert(neighbour_models(out@) =~= neighbour_models(before).push((list@[i as int].0@, list@[i as int].1@)));
        assert(neighbour_models(list@).take(i as int + 1) =~= neighbour_models(list@).take(i as int).push(
            (list@[i as int].0@, list@[i as int].1@),
        ));
        i = i + 1;
    }
    assert(neighbour_models(list@).take(list@.len() as int) =~= neighbour_models(list@));
    out
}

proof fn sorted_list_is_complete(
    sorted: SortedMap<Vec<String>, (String, String)>,
    links: Map<Seq<Seq<char>>, SortedMap<Vec<String>, (String, String)>>,
    edges: Seq<SemanticEdge>,
    direction: TraversalDirection,
    node: Seq<char>,
    made: Seq<(String, String)>,
)
    requires
        sorted_links(links, edges, direction, edges.len() as int),
        links.contains_key(seq![node]),
        links[seq![node]] == sorted,
        neighbour_models(made) == neighbour_models(sorted.values@),
    ensures
        lists_neighbours(neighbour_models(made), edges, direction, node),
{
    let list = neighbour_models(made);
    assert(sorted.wf());
    assert forall|a: int| 0 <= a < list.len() implies sorted.listing()[a] == seq![(#[trigger] list[a]).0, list[a].1] && joins(
        edges,
        direction,
        list[a].1,
        node,
        list[a].0,
    ) by {
        sorted.entry(a);
        assert(list[a] == (sorted.values@[a].0@, sorted.values@[a].1@));
    }
    assert(list.map_values(|n: Neighbour| seq![n.0, n.1]) =~= sorted.listing());
    assert forall|n: Neighbour| #[trigger] list.contains(n) <==> joins(edges, direction, n.1, node, n.0) by {
        if list.contains(n) {
            let a = choose|a: int| 0 <= a < list.len() && list[a] == n;
            assert(sorted.listing()[a] == seq![list[a].0, list[a].1]);
        }
        if joins(edges, direction, n.1, node, n.0) {
            let e = choose|e: int|
                0 <= e < edges.len() && (#[trigger] edges[e]).id@ == n.1 && tail_of(edges[e], direction) == node && head_of(
                    edges[e],
                    direction,
                ) == n.0;
            let key = seq![head_of(edges[e], direction), edges[e].id@];
            assert(sorted@.contains_key(key));
            let a = sorted.position(key);
            assert(sorted.listing()[a] == key);
            assert(seq![list[a].0, list[a].1] == key);
            assert(seq![list[a].0, list[a].1][0] == key[0]);
            assert(seq![list[a].0, list[a].1][1] == key[1]);
            assert(list[a] == n);
        }
    }
}

/// Which way a traversal goes.
#[derive(Clone, Copy, PartialEq, Eq, Structural, Debug)]
pub enum GraphDirection {
    Dependencies,
    Dependents,
}

/// What a traversal is asked for.
#[derive(Debug)]
pub struct TraverseGraphQuery {
    pub start: String,
    pub direction: GraphDirection,
    pub destination: Option<String>,
    pub target_repositories: Vec<String>,
    pub max_hops: u32,
    pub max_paths: u32,
}

/// The paths that a traversal found, and the part of the graph that they run through.
#[derive(Debug)]
pub struct Traversal {
    pub nodes: Vec<EntityRef>,
    pub edges: Vec<SemanticEdge>,
    pub paths: Vec<TraversalPath>,
    pub reasons: TruncationReasons,
}

/// Which way edges are followed for a direction.
pub open spec fn way_of(direction: GraphDirection) -> TraversalDirection {
    match direction {
        GraphDirection::Dependencies => TraversalDirection::Outgoing,
        GraphDirection::Dependents => TraversalDirection::Incoming,
    }
}

/// What limits the acquisition of the rows of a traversal met, and what they show of the
/// repositories around.
pub struct Acquisition<'a> {
    pub incomplete: &'a TextSet,
    pub repository_boundaries: &'a TextSet,
    pub target_reachability: &'a SortedMap<String, TextSet>,
}

impl<'a> Acquisition<'a> {
    pub open spec fn wf(&self) -> bool {
        &&& self.incomplete.wf()
        &&& self.repository_boundaries.wf()
        &&& self.target_reachability.wf()
        &&& forall|k: Seq<Seq<char>>| #[trigger] self.target_reachability@.contains_key(k) ==> self.target_reachability@[k].wf()
    }
}

/// Whether paths are looked for in this scope.
pub open spec fn scope_for<'a>(scope: PathScope, query: TraverseGraphQuery, max_steps: u32, acquired: Acquisition<'a>, edges: Seq<SemanticEdge>) -> bool {
    &&& scope.destination == optional_text(query.destination)
    &&& scope.max_hops == query.max_hops
    &&& scope.max_paths == query.max_paths
    &&& scope.max_steps == max_steps
    &&& ascending(scope.targets.map_values(|t: String| seq![t@]))
    &&& forall|t: Seq<char>| texts(scope.targets).contains(t) <==> #[trigger] texts(query.target_repositories@).contains(t)
    &&& scope.incomplete == acquired.incomplete@.dom()
    &&& scope.boundaries == acquired.repository_boundaries@.dom()
    &&& scope.reachable == Map::new(
        |k: Seq<Seq<char>>| acquired.target_reachability@.contains_key(k),
        |k: Seq<Seq<char>>| acquired.target_reachability@[k]@.dom(),
    )
    &&& has_neighbours(scope.adjacent, edges, way_of(query.direction))
}

/// What is known before the first step.
pub open spec fn opening(incomplete: Set<Seq<Seq<char>>>) -> PathState {
    PathState {
        paths: Seq::empty(),
        reasons: (TruncationReasons { acquisition_limit: incomplete != Set::<Seq<Seq<char>>>::empty(), ..TruncationReasons::none() }),
        steps: 0,
    }
}

/// Whether a node is the start or lies on a path.
pub open spec fn on_paths(paths: Seq<PathModel>, start: Seq<char>, id: Seq<char>) -> bool {
    id == start || exists|i: int| 0 <= i < paths.len() && (#[trigger] paths[i]).nodes.contains(id)
}

impl Traversal {
    /// Whether this is what a graph holds for a query.
    pub open spec fn answers<'a>(&self, graph: GraphModel, query: TraverseGraphQuery, max_steps: u32, acquired: Acquisition<'a>) -> bool {
        exists|full: GraphOutput, scope: PathScope|
            #![trigger full.shows(graph), self.cuts(full, scope, query, max_steps, acquired)]
            full.shows(graph) && self.cuts(full, scope, query, max_steps, acquired)
    }

    /// Whether this is what a full graph holds for a query, the paths looked for in a scope.
    pub open spec fn cuts<'a>(&self, full: GraphOutput, scope: PathScope, query: TraverseGraphQuery, max_steps: u32, acquired: Acquisition<'a>) -> bool {
        let end = visit(scope, opening(scope.incomplete), seq![query.start@], Seq::empty());
        &&& scope_for(scope, query, max_steps, acquired, full.edges@)
        &&& path_models(self.paths@) == end.paths
        &&& self.reasons == end.reasons
        &&& node_models(self.nodes@) == keep(node_models(full.nodes@), |n: EntityRefModel| on_paths(end.paths, query.start@, n.id))
        &&& edge_list_models(self.edges@) == keep(
            edge_list_models(full.edges@),
            |e: SemanticEdgeModel| on_paths(end.paths, query.start@, e.from) && on_paths(end.paths, query.start@, e.to),
        )
    }
}

/// The start and all nodes on the paths.
fn visited_nodes(paths: &Vec<TraversalPath>, start: &String) -> (r: TextSet)
    ensures
        r.wf(),
        forall|t: Seq<char>| #[trigger] r@.contains_key(seq![t]) <==> on_paths(path_models(paths@), start@, t),
{
    let ghost models = path_models(paths@);
    let mut set: TextSet = SortedMap::new();
    set.insert(start.clone(), ());
    let mut i: usize = 0;
    proof {
        assert forall|t: Seq<char>| #[trigger] set@.contains_key(seq![t]) <==> on_paths(models.take(0), start@, t) by {
            assert(seq![t][0] == t && seq![start@][0] == start@);
        }
    }
    while i < paths.len()
        invariant
            i <= paths@.len(),
            models == path_models(paths@),
            set.wf(),
            forall|t: Seq<char>| #[trigger] set@.contains_key(seq![t]) <==> on_paths(models.take(i as int), start@, t),
        decreases paths@.len() - i,
    {
        let ghost outer = set@;
        let nodes: &Vec<String> = &paths[i].nodes;
        let ghost names = texts(nodes@);
        let mut j: usize = 0;
        while j < nodes.len()
            invariant
                j <= nodes@.len(),
                names == texts(nodes@),
                set.wf(),
                forall|t: Seq<char>| #[trigger] set@.contains_key(seq![t]) <==> outer.contains_key(seq![t]) || names.take(j as int).contains(t),
            decreases nodes@.len() - j,
        {
            let ghost before = set@;
            set.insert(nodes[j].clone(), ());
            proof {
                let part = names.take(j as int);
                let next = names.take(j as int + 1);
                let added = nodes@[j as int]@;
                assert(next =~= part.push(added));
                assert forall|t: Seq<char>| #[trigger] set@.contains_key(seq![t]) <==> outer.contains_key(seq![t]) || next.contains(t) by {
                    assert(seq![t][0] == t);
                    assert(seq![added][0] == added);
                    assert(before.contains_key(seq![t]) <==> outer.contains_key(seq![t]) || part.contains(t));
                    if part.contains(t) {
                        let k = choose|k: int| 0 <= k < part.len() && part[k] == t;
                        assert(next[k] == t);
                    }
                    if t == added {
                        assert(next[j as int] == t);
                    }
                    if next.contains(t) && t != added {
                        let k = choose|k: int| 0 <= k < next.len() && next[k] == t;
                        assert(part[k] == t);
                    }
                }
            }
            j = j + 1;
        }
        proof {
            assert(names.take(nodes@.len() as int) =~= names);
            let part = models.take(i as int);
            let next = models.take(i as int + 1);
            assert(next =~= part.push(paths@[i as int]@));
            assert(next[i as int].nodes == names);
            assert forall|t: Seq<char>| #[trigger] set@.contains_key(seq![t]) <==> on_paths(next, start@, t) by {
                assert(outer.contains_key(seq![t]) <==> on_paths(part, start@, t));
                if on_paths(part, start@, t) && t != start@ {
                    let k = choose|k: int| 0 <= k < part.len() && (#[trigger] part[k]).nodes.contains(t);
                    assert(next[k] == part[k]);
                }
                if names.contains(t) {
                    assert(next[i as int].nodes.contains(t));
                }
                if on_paths(next, start@, t) && t != start@ {
                    let k = choose|k: int| 0 <= k < next.len() && (#[trigger] next[k]).nodes.contains(t);
                    if k < i {
                        assert(part[k] == next[k]);
                    }
                }
            }
        }
        i = i + 1;
    }
    assert(models.take(paths@.len() as int) =~= models);
    set
}

/// Enumerates the paths that a query asks for.
pub fn traverse_graph(
    query: &TraverseGraphQuery,
    max_steps: u32,
    rows: &Vec<Vec<InspectionValue>>,
    decoded: &Vec<DecodedEvidence>,
    entities: &Vec<Vec<InspectionValue>>,
    acquired: &Acquisition<'_>,
) -> (r: Result<Traversal, String>)
    requires
        decoded@.len() == rows@.len(),
        acquired.wf(),
    ensures
        r is Ok <==> entity_graph(rows@, decoded@, entities@, query.start@) is Ok,
        r is Ok ==> r->Ok_0.answers(
            entity_graph(rows@, decoded@, entities@, query.start@)->Ok_0,
            *query,
            max_steps,
            *acquired,
        ),
        r is Err ==> r->Err_0@ == entity_graph(rows@, decoded@, entities@, query.start@)->Err_0,
{
    let mut roots: Vec<String> = Vec::new();
    roots.push(query.start.clone());
    assert(texts(roots@) =~= seq![query.start@]);
    let full: GraphOutput = match graph(rows, decoded, entities, &roots) {
        Ok(full) => full,
        Err(message) => {
            return Err(message);
        },
    };
    let ghost built = entity_graph(rows@, decoded@, entities@, query.start@)->Ok_0;
    assert(full.shows(built));
    let direction: TraversalDirection = match query.direction {
        GraphDirection::Dependencies => TraversalDirection::Outgoing,
        GraphDirection::Dependents => TraversalDirection::Incoming,
    };
    let adjacent: SortedMap<String, Vec<(String, String)>> = neighbours(&full.edges, direction);
    let targets: TextSet = text_set(&query.target_repositories);
    let paths_query: PathQuery = PathQuery {
        destination: copy_text(&query.destination),
        max_hops: query.max_hops,
        max_paths: query.max_paths,
        max_steps,
    };
    let mut reasons: TruncationReasons = TruncationReasons::new();
    reasons.acquisition_limit = acquired.incomplete.keys.len() > 0;
    proof {
        acquired.incomplete.size();
        if acquired.incomplete.keys@.len() == 0 {
            assert(acquired.incomplete@.dom() =~= Set::empty());
        }
    }
    let mut search: PathSearch<'_> = PathSearch {
        query: &paths_query,
        targets: &targets,
        adjacent: &adjacent,
        incomplete: acquired.incomplete,
        repository_boundaries: acquired.repository_boundaries,
        target_reachability: acquired.target_reachability,
        paths: Vec::new(),
        reasons,
        steps: 0,
    };
    let ghost scope = search.scope();
    let mut trail: Vec<String> = Vec::new();
    proof {
        assert(path_models(search.paths@) =~= Seq::empty());
        assert(search.state() == opening(scope.incomplete));
        assert(texts(trail@) =~= Seq::empty());
        same_targets(targets, query.target_repositories@);
    }
    search.visit(&mut roots, &mut trail);
    let PathSearch { paths, reasons, .. }: PathSearch<'_> = search;
    let seen: TextSet = visited_nodes(&paths, &query.start);
    let nodes: Vec<EntityRef> = keep_nodes(&full.nodes, &seen);
    let edges: Vec<SemanticEdge> = keep_edges(&full.edges, &seen);
    let answer: Traversal = Traversal { nodes, edges, paths, reasons };
    proof {
        let end = visit(scope, opening(scope.incomplete), seq![query.start@], Seq::empty());
        assert(path_models(answer.paths@) == end.paths);
        keep_same(
            node_models(full.nodes@),
            |n: EntityRefModel| seen@.contains_key(seq![n.id]),
            |n: EntityRefModel| on_paths(end.paths, query.start@, n.id),
        );
        keep_same(
            edge_list_models(full.edges@),
            |e: SemanticEdgeModel| seen@.contains_key(seq![e.from]) && seen@.contains_key(seq![e.to]),
            |e: SemanticEdgeModel| on_paths(end.paths, query.start@, e.from) && on_paths(end.paths, query.start@, e.to),
        );
        assert(answer.cuts(full, scope, *query, max_steps, *acquired));
        assert(answer.answers(built, *query, max_steps, *acquired));
    }
    Ok(answer)
}

proof fn same_targets(targets: TextSet, list: Seq<String>)
    requires
        targets.wf(),
        forall|t: Seq<char>| #[trigger] targets@.contains_key(seq![t]) <==> texts(list).contains(t),
    ensures
        ascending(targets.keys@.map_values(|t: String| seq![t@])),
        forall|t: Seq<char>| texts(targets.keys@).contains(t) <==> #[trigger] texts(list).contains(t),
{
    assert(targets.keys@.map_values(|t: String| seq![t@]) =~= targets.listing());
    assert forall|t: Seq<char>| texts(targets.keys@).contains(t) <==> #[trigger] texts(list).contains(t) by {
        assert(targets@.contains_key(seq![t]) <==> texts(list).contains(t));
        if targets@.contains_key(seq![t]) {
            let i = targets.position(seq![t]);
            assert(targets.keys@[i].key() == seq![t]);
            assert(seq![targets.keys@[i]@][0] == seq![t][0]);
            assert(texts(targets.keys@)[i] == t);
        }
        if texts(targets.keys@).contains(t) {
            let i = choose|i: int| 0 <= i < texts(targets.keys@).len() && texts(targets.keys@)[i] == t;
            targets.entry(i);
        }
    }
}

/// The paths of a traversal follow the graph from the start without visiting a node twice, and
/// keep to the limits on hops and on their number.
pub proof fn traversals_are_sound(scope: PathScope, start: Seq<char>)
    ensures
        sound(scope, visit(scope, opening(scope.incomplete), seq![start], Seq::empty()), start),
{
    let nodes = seq![start];
    assert(simple_path(scope, nodes, Seq::empty()));
    visit_is_sound(scope, opening(scope.incomplete), nodes, Seq::empty(), start);
}

/// A traversal that meets no limit finds exactly the paths that are to be reported.
pub proof fn untruncated_traversals_find_all_paths(scope: PathScope, start: Seq<char>)
    requires
        !limited(visit(scope, opening(scope.incomplete), seq![start], Seq::empty()).reasons),
    ensures
        forall|path: PathModel| #[trigger]
            visit(scope, opening(scope.incomplete), seq![start], Seq::empty()).paths.contains(path) <==> wanted_path(
                scope,
                seq![start],
                Seq::empty(),
                path,
            ),
{
    untruncated_paths_are_all_there_are(scope, opening(scope.incomplete).reasons, start);
}

/// A relation of an entity, as a context query returns it.
#[derive(Debug)]
pub struct ContextRow {
    pub direction: String,
    pub relation: String,
    pub related: String,
    pub evidence: String,
    pub confidence: u64,
    pub provenance: String,
}

/// An entity with its direct relations.
#[derive(Debug)]
pub struct Context {
    pub root: EntityRef,
    pub nodes: Vec<EntityRef>,
    pub edges: Vec<SemanticEdge>,
}

/// The edge that a row of a context states, or why it states none.
pub open spec fn context_edge(entity: Seq<char>, row: ContextRow) -> Result<StatedEdge, Seq<char>> {
    let edge = StatedEdge {
        from: entity,
        to: row.related@,
        relation: row.relation@,
        evidence: row.evidence@,
        confidence: row.confidence as int,
        provenance: row.provenance@,
    };
    if row.direction@ == "outgoing"@ {
        Ok(edge)
    } else if row.direction@ == "incoming"@ {
        Ok(StatedEdge { from: row.related@, to: entity, ..edge })
    } else {
        Err("unknown context direction: "@ + row.direction@)
    }
}

/// The graph with what the first `n` rows of a context state; the first error remains.
pub open spec fn with_context_rows(graph: GraphModel, entity: Seq<char>, rows: Seq<ContextRow>, decoded: Seq<DecodedEvidence>, n: int) -> Result<GraphModel, Seq<char>>
    decreases n,
{
    if n <= 0 {
        Ok(graph)
    } else {
        match with_context_rows(graph, entity, rows, decoded, n - 1) {
            Ok(before) => match context_edge(entity, rows[n - 1]) {
                Ok(edge) => with_stated(before, edge, decoded[n - 1]@),
                Err(message) => Err(message),
            },
            Err(message) => Err(message),
        }
    }
}

proof fn context_rows_error(graph: GraphModel, entity: Seq<char>, rows: Seq<ContextRow>, decoded: Seq<DecodedEvidence>, k: int, n: int)
    requires
        0 <= k <= n,
        with_context_rows(graph, entity, rows, decoded, k) is Err,
    ensures
        with_context_rows(graph, entity, rows, decoded, n) == with_context_rows(graph, entity, rows, decoded, k),
    decreases n - k,
{
    if k < n {
        context_rows_error(graph, entity, rows, decoded, k, n - 1);
    }
}

/// The graph around an entity that the rows of a context state.
pub open spec fn context_graph(
    entity: Seq<char>,
    rows: Seq<ContextRow>,
    decoded: Seq<DecodedEvidence>,
    entities: Seq<Vec<InspectionValue>>,
) -> Result<GraphModel, Seq<char>> {
    match stated_facts(entities, entities.len() as int) {
        Err(message) => Err(message),
        Ok(facts) => with_context_rows(
            (GraphModel { facts, ..GraphModel::empty() }).hinted(entity, kind_of_id(entity)),
            entity,
            rows,
            decoded,
            rows.len() as int,
        ),
    }
}

proof fn context_keeps_root(graph: GraphModel, entity: Seq<char>, rows: Seq<ContextRow>, decoded: Seq<DecodedEvidence>, n: int)
    requires
        graph.kinds.contains_key(seq![entity]),
        with_context_rows(graph, entity, rows, decoded, n) is Ok,
    ensures
        with_context_rows(graph, entity, rows, decoded, n)->Ok_0.kinds.contains_key(seq![entity]),
    decreases n,
{
    if n > 0 {
        context_keeps_root(graph, entity, rows, decoded, n - 1);
    }
}

/// An entity with its direct relations.
pub fn context(
    entity: &str,
    rows: &Vec<ContextRow>,
    decoded: &Vec<DecodedEvidence>,
    entities: &Vec<Vec<InspectionValue>>,
) -> (r: Result<Context, String>)
    requires
        decoded@.len() == rows@.len(),
    ensures
        r is Ok <==> context_graph(entity@, rows@, decoded@, entities@) is Ok,
        r is Ok ==> (GraphOutput { nodes: r->Ok_0.nodes, edges: r->Ok_0.edges }).shows(
            context_graph(entity@, rows@, decoded@, entities@)->Ok_0,
        ),
        r is Ok ==> r->Ok_0.root@ == node_in(context_graph(entity@, rows@, decoded@, entities@)->Ok_0, entity@),
        r is Err ==> r->Err_0@ == context_graph(entity@, rows@, decoded@, entities@)->Err_0,
{
    let facts: SortedMap<String, Fact> = match entity_kinds(entities) {
        Ok(facts) => facts,
        Err(message) => {
            return Err(message);
        },
    };
    let mut builder: GraphBuilder = GraphBuilder::new();
    builder.hint_facts(facts);
    builder.hint(entity, infer_kind(entity));
    let ghost rooted = builder@;
    let mut i: usize = 0;
    while i < rows.len()
        invariant
            i <= rows@.len(),
            decoded@.len() == rows@.len(),
            builder.wf(),
            context_graph(entity@, rows@, decoded@, entities@) == with_context_rows(
                rooted,
                entity@,
                rows@,
                decoded@,
                rows@.len() as int,
            ),
            with_context_rows(rooted, entity@, rows@, decoded@, i as int) == Ok::<GraphModel, Seq<char>>(builder@),
        decreases rows@.len() - i,
    {
        let row: &ContextRow = &rows[i];
        let outgoing: bool = same(row.direction.as_str(), "outgoing");
        if !outgoing && !same(row.direction.as_str(), "incoming") {
            let mut message: String = "unknown context direction: ".to_owned();
            message.append(row.direction.as_str());
            proof {
                context_rows_error(rooted, entity@, rows@, decoded@, i as int + 1, rows@.len() as int);
            }
            return Err(message);
        }
        let (from, to): (&str, &str) = if outgoing {
            (entity, row.related.as_str())
        } else {
            (row.related.as_str(), entity)
        };
        match builder.add_edge(
            from,
            to,
            row.relation.as_str(),
            row.evidence.as_str(),
            &decoded[i],
            row.confidence,
            row.provenance.as_str(),
        ) {
            Ok(_) => {},
            Err(message) => {
                proof {
                    context_rows_error(rooted, entity@, rows@, decoded@, i as int + 1, rows@.len() as int);
                }
                return Err(message);
            },
        }
        i = i + 1;
    }
    proof {
        context_keeps_root(rooted, entity@, rows@, decoded@, rows@.len() as int);
    }
    let ghost built = builder@;
    let output: GraphOutput = builder.finish();
    let root: EntityRef = output.entity(entity);
    proof {
        shown_node(output, built, entity@);
    }
    Ok(Context { root, nodes: output.nodes, edges: output.edges })
}

/// Where the rows of a topology hold the parts of an edge.
pub open spec fn topology_layout() -> Layout {
    Layout {
        from: (0, "topology source"@),
        to: (1, "topology target"@),
        relation: (2, "topology relation"@),
        evidence: (3, "topology evidence"@),
        confidence: (4, "topology confidence"@),
        provenance: (5, "topology provenance"@),
    }
}

fn topology_columns() -> (r: EdgeColumns)
    ensures
        r.layout() == topology_layout(),
{
    EdgeColumns {
        from: (0, "topology source"),
        to: (1, "topology target"),
        relation: (2, "topology relation"),
        evidence: (3, "topology evidence"),
        confidence: (4, "topology confidence"),
        provenance: (5, "topology provenance"),
    }
}

/// The graph with what one row of a topology states. Both ends must be stored entities.
pub open spec fn with_topology_row(graph: GraphModel, row: Row, decoded: DecodedModel) -> Result<GraphModel, Seq<char>> {
    match (cell_text(row, 0), cell_text(row, 1)) {
        (None, _) => Err("topology source"@ + " must be text"@),
        (Some(_), None) => Err("topology target"@ + " must be text"@),
        (Some(from), Some(to)) => if !graph.facts.contains_key(seq![from]) {
            Err("missing entity fact for topology endpoint "@ + from)
        } else if !graph.facts.contains_key(seq![to]) {
            Err("missing entity fact for topology endpoint "@ + to)
        } else {
            with_edge_row(graph, row, topology_layout(), decoded)
        },
    }
}

/// The graph with what the first `n` rows of a topology state; the first error remains.
pub open spec fn with_topology_rows(graph: GraphModel, rows: Seq<Vec<InspectionValue>>, decoded: Seq<DecodedEvidence>, n: int) -> Result<GraphModel, Seq<char>>
    decreases n,
{
    if n <= 0 {
        Ok(graph)
    } else {
        match with_topology_rows(graph, rows, decoded, n - 1) {
            Ok(before) => with_topology_row(before, rows[n - 1]@, decoded[n - 1]@),
            Err(message) => Err(message),
        }
    }
}

proof fn topology_rows_error(graph: GraphModel, rows: Seq<Vec<InspectionValue>>, decoded: Seq<DecodedEvidence>, k: int, n: int)
    requires
        0 <= k <= n,
        with_topology_rows(graph, rows, decoded, k) is Err,
    ensures
        with_topology_rows(graph, rows, decoded, n) == with_topology_rows(graph, rows, decoded, k),
    decreases n - k,
{
    if k < n {
        topology_rows_error(graph, rows, decoded, k, n - 1);
    }
}

/// The graph with a node for each of the stored entities under the given keys.
pub open spec fn known_graph(facts: Map<Seq<Seq<char>>, Fact>, keys: Set<Seq<Seq<char>>>) -> GraphModel {
    GraphModel {
        facts,
        kinds: Map::new(|k: Seq<Seq<char>>| keys.contains(k), |k: Seq<Seq<char>>| facts[k].0),
        metadata: Map::new(|k: Seq<Seq<char>>| keys.contains(k) && facts[k].1 is Some, |k: Seq<Seq<char>>| facts[k].1->0),
        ..GraphModel::empty()
    }
}

/// The graph of a whole workspace.
pub open spec fn topology_graph(rows: Seq<Vec<InspectionValue>>, decoded: Seq<DecodedEvidence>, entities: Seq<Vec<InspectionValue>>) -> Result<GraphModel, Seq<char>> {
    match stated_facts(entities, entities.len() as int) {
        Err(message) => Err(message),
        Ok(facts) => with_topology_rows(known_graph(facts, facts.dom()), rows, decoded, rows.len() as int),
    }
}

/// Whether the kind of some node is not known.
pub open spec fn has_unknown(nodes: Seq<EntityRef>) -> bool {
    exists|i: int| 0 <= i < nodes.len() && (#[trigger] nodes[i]).kind == EntityKind::Unknown
}

/// Adds a node for each stored entity.
fn hint_known(builder: &mut GraphBuilder, ids: &Vec<String>)
    requires
        old(builder).wf(),
        old(builder)@ == known_graph(old(builder)@.facts, Set::empty()),
        forall|i: int| 0 <= i < ids@.len() ==> old(builder)@.facts.contains_key(seq![(#[trigger] ids@[i])@]),
    ensures
        final(builder).wf(),
        final(builder)@ == known_graph(old(builder)@.facts, ids@.map_values(|s: String| seq![s@]).to_set()),
{
    let ghost facts = builder@.facts;
    let ghost names = ids@.map_values(|s: String| seq![s@]);
    let mut i: usize = 0;
    assert(names.take(0).to_set() =~= Set::empty());
    while i < ids.len()
        invariant
            i <= ids@.len(),
            names == ids@.map_values(|s: String| seq![s@]),
            forall|j: int| 0 <= j < ids@.len() ==> facts.contains_key(seq![(#[trigger] ids@[j])@]),
            builder.wf(),
            builder@ == known_graph(facts, names.take(i as int).to_set()),
        decreases ids@.len() - i,
    {
        let ghost before = builder@;
        builder.hint(ids[i].as_str(), EntityKind::Unknown);
        proof {
            let key = seq![ids@[i as int]@];
            let part = names.take(i as int);
            let next = names.take(i as int + 1);
            assert(next =~= part.push(key));
            assert(facts.contains_key(key));
            assert(next.to_set() =~= part.to_set().insert(key)) by {
                assert forall|k: Seq<Seq<char>>| next.contains(k) <==> part.contains(k) || k == key by {
                    if part.contains(k) {
                        let j = choose|j: int| 0 <= j < part.len() && part[j] == k;
                        assert(next[j] == k);
                    }
                    if k == key {
                        assert(next[i as int] == k);
                    }
                    if next.contains(k) && k != key {
                        let j = choose|j: int| 0 <= j < next.len() && next[j] == k;
                        assert(part[j] == k);
                    }
                }
            }
            let wanted = known_graph(facts, next.to_set());
            assert(builder@.kinds =~= wanted.kinds);
            assert(builder@.metadata =~= wanted.metadata);
            assert(builder@ == wanted);
        }
        i = i + 1;
    }
    assert(names.take(ids@.len() as int) =~= names);
}

/// The graph of a whole workspace.
pub fn workspace_topology(
    rows: &Vec<Vec<InspectionValue>>,
    decoded: &Vec<DecodedEvidence>,
    entities: &Vec<Vec<InspectionValue>>,
) -> (r: Result<GraphOutput, String>)
    requires
        decoded@.len() == rows@.len(),
    ensures
        r is Ok ==> topology_graph(rows@, decoded@, entities@) is Ok && r->Ok_0.shows(
            topology_graph(rows@, decoded@, entities@)->Ok_0,
        ) && !has_unknown(r->Ok_0.nodes@),
        topology_graph(rows@, decoded@, entities@) is Err ==> r is Err && r->Err_0@ == topology_graph(
            rows@,
            decoded@,
            entities@,
        )->Err_0,
        r is Err && topology_graph(rows@, decoded@, entities@) is Ok ==> r->Err_0@ == "workspace topology contains an Unknown entity"@
            && exists|full: GraphOutput| #[trigger] full.shows(topology_graph(rows@, decoded@, entities@)->Ok_0) && has_unknown(
            full.nodes@,
        ),
{
    let facts: SortedMap<String, Fact> = match entity_kinds(entities) {
        Ok(facts) => facts,
        Err(message) => {
            return Err(message);
        },
    };
    let ids: Vec<String> = copy_texts(&facts.keys);
    let ghost known = facts@;
    proof {
        facts.size();
        assert(texts(ids@).len() == ids@.len());
        assert(texts(facts.keys@).len() == facts.keys@.len());
        assert(ids@.map_values(|s: String| seq![s@]) =~= facts.listing()) by {
            assert forall|i: int| 0 <= i < ids@.len() implies seq![(#[trigger] ids@[i])@] == facts.listing()[i] by {
                assert(texts(ids@)[i] == texts(facts.keys@)[i]);
            }
        }
        assert forall|i: int| 0 <= i < ids@.len() implies known.contains_key(seq![(#[trigger] ids@[i])@]) by {
            assert(texts(ids@)[i] == texts(facts.keys@)[i]);
            facts.entry(i);
        }
    }
    let mut builder: GraphBuilder = GraphBuilder::new();
    builder.hint_facts(facts);
    proof {
        let empty = known_graph(known, Set::empty());
        assert(builder@.kinds =~= empty.kinds);
        assert(builder@.metadata =~= empty.metadata);
    }
    hint_known(&mut builder, &ids);
    let columns: EdgeColumns = topology_columns();
    let ghost rooted = builder@;
    assert(rooted == known_graph(known, known.dom()));
    let mut i: usize = 0;
    while i < rows.len()
        invariant
            i <= rows@.len(),
            decoded@.len() == rows@.len(),
            builder.wf(),
            columns.layout() == topology_layout(),
            topology_graph(rows@, decoded@, entities@) == with_topology_rows(rooted, rows@, decoded@, rows@.len() as int),
            with_topology_rows(rooted, rows@, decoded@, i as int) == Ok::<GraphModel, Seq<char>>(builder@),
        decreases rows@.len() - i,
    {
        match add_topology_row(&mut builder, &rows[i], &columns, &decoded[i]) {
            Ok(_) => {},
            Err(message) => {
                proof {
                    topology_rows_error(rooted, rows@, decoded@, i as int + 1, rows@.len() as int);
                }
                return Err(message);
            },
        }
        i = i + 1;
    }
    let output: GraphOutput = builder.finish();
    let mut i: usize = 0;
    while i < output.nodes.len()
        invariant
            i <= output.nodes@.len(),
            topology_graph(rows@, decoded@, entities@) is Ok,
            output.shows(topology_graph(rows@, decoded@, entities@)->Ok_0),
            forall|j: int| 0 <= j < i ==> (#[trigger] output.nodes@[j]).kind != EntityKind::Unknown,
        decreases output.nodes@.len() - i,
    {
        if output.nodes[i].kind == EntityKind::Unknown {
            assert(has_unknown(output.nodes@));
            return Err("workspace topology contains an Unknown entity".to_owned());
        }
        i = i + 1;
    }
    Ok(output)
}

fn add_topology_row(graph: &mut GraphBuilder, row: &Vec<InspectionValue>, columns: &EdgeColumns, decoded: &DecodedEvidence) -> (r: Result<(), String>)
    requires
        old(graph).wf(),
        columns.layout() == topology_layout(),
    ensures
        final(graph).wf(),
        r is Ok <==> with_topology_row(old(graph)@, row@, decoded@) is Ok,
        r is Ok ==> final(graph)@ == with_topology_row(old(graph)@, row@, decoded@)->Ok_0,
        r is Err ==> r->Err_0@ == with_topology_row(old(graph)@, row@, decoded@)->Err_0,
{
    let from: &str = match text(row, 0, "topology source") {
        Ok(value) => value,
        Err(message) => {
            return Err(message);
        },
    };
    let to: &str = match text(row, 1, "topology target") {
        Ok(value) => value,
        Err(message) => {
            return Err(message);
        },
    };
    if !graph.facts.contains_key(&from.to_owned()) {
        let mut message: String = "missing entity fact for topology endpoint ".to_owned();
        message.append(from);
        return Err(message);
    }
    if !graph.facts.contains_key(&to.to_owned()) {
        let mut message: String = "missing entity fact for topology endpoint ".to_owned();
        message.append(to);
        return Err(message);
    }
    add_edge_row(graph, row, columns, decoded)
}

/// How well an entity matches a query: by its identifier, by its name, or by a beginning of
/// either.
pub open spec fn rank(node: EntityRefModel, query: Seq<char>) -> u8 {
    if node.id == query {
        0
    } else if node.name == query {
        1
    } else if query.is_prefix_of(node.id) || query.is_prefix_of(node.name) {
        2
    } else {
        3
    }
}

/// How well an entity matches a query.
pub fn search_rank(entity: &EntityRef, query: &str) -> (r: u8)
    ensures
        r == rank(entity@, query@),
{
    if same(entity.id.as_str(), query) {
        0
    } else if same(entity.name.as_str(), query) {
        1
    } else if starts_with(entity.id.as_str(), query) || starts_with(entity.name.as_str(), query) {
        2
    } else {
        3
    }
}

/// Whether an entity matches a query.
pub open spec fn matches_query(node: EntityRefModel, query: Seq<char>) -> bool {
    query.is_prefix_of(node.id) || query.is_prefix_of(node.name)
}

/// The node of a stored entity.
pub open spec fn stored_node(facts: Map<Seq<Seq<char>>, Fact>, id: Seq<char>) -> EntityRefModel {
    node_for(id, facts[seq![id]].0, None, facts[seq![id]].1)
}

/// Better matches come first, and those equally good in ascending order.
pub open spec fn by_rank(matches: Seq<EntityRefModel>, query: Seq<char>) -> bool {
    forall|i: int, j: int|
        0 <= i < j < matches.len() ==> rank(#[trigger] matches[i], query) < rank(#[trigger] matches[j], query) || (rank(
            matches[i],
            query,
        ) == rank(matches[j], query) && chars_lt(matches[i].id, matches[j].id))
}

/// Whether these are all stored entities that match a query, in order.
pub open spec fn all_matches(matches: Seq<EntityRefModel>, facts: Map<Seq<Seq<char>>, Fact>, query: Seq<char>) -> bool {
    &&& by_rank(matches, query)
    &&& forall|i: int|
        0 <= i < matches.len() ==> facts.contains_key(seq![(#[trigger] matches[i]).id]) && matches[i] == stored_node(facts, matches[i].id)
            && matches_query(matches[i], query)
    &&& forall|id: Seq<char>|
        #[trigger] facts.contains_key(seq![id]) && matches_query(stored_node(facts, id), query) ==> exists|i: int|
            0 <= i < matches.len() && (#[trigger] matches[i]).id == id
}

/// All stored entities that match a query, in order.
fn ranked(facts: &SortedMap<String, Fact>, query: &str) -> (r: Vec<EntityRef>)
    requires
        facts.wf(),
    ensures
        all_matches(node_models(r@), facts@, query@),
{
    let mut order: SortedMap<Vec<String>, EntityRef> = SortedMap::new();
    let mut i: usize = 0;
    while i < facts.keys.len()
        invariant
            facts.wf(),
            i <= facts.keys@.len(),
            order.wf(),
            forall|k: Seq<Seq<char>>| #[trigger] order@.contains_key(k) ==> {
                let node = order@[k]@;
                &&& k == seq![fixed(rank(node, query@) as nat, 10), node.id]
                &&& facts@.contains_key(seq![node.id])
                &&& node == stored_node(facts@, node.id)
                &&& matches_query(node, query@)
            },
            forall|j: int| 0 <= j < i && matches_query(stored_node(facts@, (#[trigger] facts.keys@[j])@), query@) ==> order@.contains_key(
                seq![fixed(rank(stored_node(facts@, facts.keys@[j]@), query@) as nat, 10), facts.keys@[j]@],
            ),
        decreases facts.keys@.len() - i,
    {
        proof {
            facts.entry(i as int);
        }
        let (kind, metadata): Fact = facts.values[i];
        let node: EntityRef = entity_ref_with_origin(facts.keys[i].as_str(), kind, None, metadata);
        assert(node@ == stored_node(facts@, facts.keys@[i as int]@));
        if starts_with(node.id.as_str(), query) || starts_with(node.name.as_str(), query) {
            let mut key: Vec<String> = Vec::new();
            key.push(fixed_text(search_rank(&node, query) as u32, 10));
            key.push(node.id.clone());
            assert(key.key() =~= seq![fixed(rank(node@, query@) as nat, 10), node@.id]);
            order.insert(key, node);
        }
        i = i + 1;
    }
    let ghost listed = order;
    let ghost models = node_models(listed.values@);
    proof {
        assert forall|a: int| 0 <= a < models.len() implies {
            let node = #[trigger] models[a];
            &&& listed.listing()[a] == seq![fixed(rank(node, query@) as nat, 10), node.id]
            &&& facts@.contains_key(seq![node.id])
            &&& node == stored_node(facts@, node.id)
            &&& matches_query(node, query@)
        } by {
            listed.entry(a);
            assert(models[a] == listed.values@[a]@);
        }
        assert forall|a: int, b: int| 0 <= a < b < models.len() implies rank(#[trigger] models[a], query@) < rank(#[trigger] models[b], query@) || (rank(
            models[a],
            query@,
        ) == rank(models[b], query@) && chars_lt(models[a].id, models[b].id)) by {
            let x = models[a];
            let y = models[b];
            let m = rank(x, query@) as nat;
            let n = rank(y, query@) as nat;
            assert(key_lt(listed.listing()[a], listed.listing()[b]));
            key_lt_of_pairs(fixed(m, 10), x.id, fixed(n, 10), y.id);
            ten_digits();
            if chars_lt(fixed(m, 10), fixed(n, 10)) {
                fixed_order(m, n, 10);
            } else {
                fixed_injective(m, n, 10);
            }
        }
        assert forall|id: Seq<char>| #[trigger] facts@.contains_key(seq![id]) && matches_query(stored_node(facts@, id), query@) implies exists|a: int|
            0 <= a < models.len() && (#[trigger] models[a]).id == id by {
            let j = facts.position(seq![id]);
            assert(facts.keys@[j].key() == seq![id]);
            assert(seq![facts.keys@[j]@][0] == seq![id][0]);
            let key = seq![fixed(rank(stored_node(facts@, id), query@) as nat, 10), id];
            assert(listed@.contains_key(key));
            let a = listed.position(key);
            assert(listed.listing()[a] == key);
            assert(listed.listing()[a][1] == models[a].id);
        }
    }
    order.values
}

/// The stored entities that match a query best, up to a limit.
pub fn search_entities(query: &str, limit: u32, entities: &Vec<Vec<InspectionValue>>) -> (r: Result<Vec<EntityRef>, String>)
    ensures
        r is Ok <==> stated_facts(entities@, entities@.len() as int) is Ok,
        r is Ok ==> exists|all: Seq<EntityRefModel>|
            #[trigger] all_matches(all, stated_facts(entities@, entities@.len() as int)->Ok_0, query@) && node_models(r->Ok_0@)
                == all.take(if all.len() <= limit { all.len() as int } else { limit as int }),
        r is Err ==> r->Err_0@ == stated_facts(entities@, entities@.len() as int)->Err_0,
{
    let facts: SortedMap<String, Fact> = match entity_kinds(entities) {
        Ok(facts) => facts,
        Err(message) => {
            return Err(message);
        },
    };
    let mut matches: Vec<EntityRef> = ranked(&facts, query);
    let ghost all = node_models(matches@);
    matches.truncate(limit as usize);
    proof {
        assert(all_matches(all, stated_facts(entities@, entities@.len() as int)->Ok_0, query@));
        assert(node_models(matches@) =~= all.take(if all.len() <= limit { all.len() as int } else { limit as int }));
    }
    Ok(matches)
}

} // verus!
