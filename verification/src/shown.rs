//! What the answers to queries show of the rows that they are made from.

use crate::domain::{relation_name_text, DependencyRelation, SemanticRelation};
use crate::dto::EntityRef;
use crate::evidence::{evidence_for, evidence_key, evidence_key_injective, DecodedEvidence, DecodedModel, EvidenceModel};
use crate::graph::{
    edge_key, edge_keys, edge_shows, evidence_keys, keyed_evidence, node_in, node_keys, relation_of, stated_facts, EdgeModel, GraphModel, GraphOutput, SemanticEdge,
    SemanticEdgeModel,
};
use crate::ids::{behind, kind_of_id, lies_in, target_from, target_of};
use crate::paths::{distance, head_of, joins, reaches, tail_of, within, TraversalDirection};
use crate::rows::{cell_number, cell_text, higher, is_nan, InspectionValue};
use crate::semantic::{
    closure_graph, closure_layout, context_edge, context_graph, edge_list_models, has_neighbours, known_graph,
    lists_neighbours, on_paths, opening, stated_edge,
    topology_graph, topology_layout, traced_edges, traversals_are_sound, untruncated_traversals_find_all_paths, way_of, with_closure_rows, with_context_rows, with_roots, with_stated, with_topology_rows, Acquisition, Context, ContextRow,
    GraphDirection, Reach, StatedEdge, Trace, Traversal, TraverseGraphQuery,
};
use crate::seqs::keep;
use crate::sorted::{key_lt, key_lt_irreflexive, texts};
use crate::traversal::{
    extends, follow, goes_on_to, is_step, path_models, reported, simple_path, visit, wanted_path, Neighbour, PathModel, PathScope, PathState,
    PathTermination,
};
use vstd::prelude::*;

verus! {

/// The evidence that a stated edge brings.
pub open spec fn brought(edge: StatedEdge, decoded: DecodedModel) -> EvidenceModel {
    evidence_for(edge.from, edge.to, edge.evidence, edge.provenance, decoded)
}

/// Whether an edge is the one that is stated.
pub open spec fn is_stated(edge: SemanticEdge, stated: StatedEdge) -> bool {
    edge.from@ == stated.from && edge.to@ == stated.to && relation_name_text(edge.kind) == stated.relation
}

/// Whether a statement of an edge shows in it: the evidence that it brings is there, and the
/// confidence is not below the stated one.
pub open spec fn shows_in(edge: SemanticEdge, stated: StatedEdge, decoded: DecodedModel) -> bool {
    &&& is_stated(edge, stated)
    &&& edge@.evidence.contains(brought(stated, decoded))
    &&& is_nan(stated.confidence) || higher(edge.confidence as int, stated.confidence) == edge.confidence
}

/// Whether a statement shows in one of some edges.
pub open spec fn is_shown(edges: Seq<SemanticEdge>, stated: StatedEdge, decoded: DecodedModel) -> bool {
    exists|k: int| 0 <= k < edges.len() && shows_in(#[trigger] edges[k], stated, decoded)
}

/// Whether one of some statements of an edge gives it its confidence.
pub open spec fn is_assured(edge: SemanticEdge, stated: Seq<StatedEdge>) -> bool {
    exists|i: int| 0 <= i < stated.len() && is_stated(edge, #[trigger] stated[i]) && edge.confidence == stated[i].confidence
}

/// Whether one of some statements of an edge brings the evidence.
pub open spec fn is_brought(edge: SemanticEdge, evidence: EvidenceModel, stated: Seq<StatedEdge>, decoded: Seq<DecodedModel>) -> bool {
    exists|i: int| 0 <= i < stated.len() && is_stated(edge, #[trigger] stated[i]) && evidence == brought(stated[i], decoded[i])
}

/// Whether edges are exactly those that are stated: each statement shows in an edge; each edge is
/// stated with its confidence; all its evidence is brought by statements of it; and there is one
/// edge for two ends and a relation.
#[verifier::opaque]
pub open spec fn lists(edges: Seq<SemanticEdge>, stated: Seq<StatedEdge>, decoded: Seq<DecodedModel>) -> bool {
    &&& forall|i: int| 0 <= i < stated.len() ==> is_shown(edges, #[trigger] stated[i], decoded[i])
    &&& forall|k: int| 0 <= k < edges.len() ==> is_assured(#[trigger] edges[k], stated)
    &&& forall|k: int, e: int|
        0 <= k < edges.len() && 0 <= e < edges[k].evidence@.len() ==> is_brought(
            edges[k],
            (#[trigger] edges[k].evidence@[e])@,
            stated,
            decoded,
        )
    &&& forall|k: int, l: int|
        0 <= k < l < edges.len() ==> (#[trigger] edges[k]).from@ != (#[trigger] edges[l]).from@ || edges[k].to@ != edges[l].to@
            || edges[k].kind != edges[l].kind
}

/// Whether a graph holds an edge with evidence and confidence that a statement accounts for.
spec fn kept(graph: GraphModel, edge: StatedEdge, decoded: DecodedModel) -> bool {
    match relation_of(edge.relation) {
        Some(kind) => {
            let key = edge_key(edge.from, edge.to, kind);
            let evidence = brought(edge, decoded);
            &&& graph.edges.contains_key(key)
            &&& graph.edges[key].evidence.contains_key(evidence_key(evidence))
            &&& is_nan(edge.confidence) || higher(graph.edges[key].confidence, edge.confidence) == graph.edges[key].confidence
        },
        None => false,
    }
}

/// The key of a stated edge.
spec fn stated_key(edge: StatedEdge) -> Seq<Seq<char>> {
    seq![edge.from, edge.to, edge.relation]
}

/// Edges stand under their own keys, and so does their evidence.
spec fn keyed(graph: GraphModel) -> bool {
    forall|key: Seq<Seq<char>>| #[trigger]
        graph.edges.contains_key(key) ==> {
            let edge = graph.edges[key];
            key == edge_key(edge.from, edge.to, edge.kind) && keyed_evidence(edge.evidence)
        }
}

/// Whether a statement accounts for the confidence of an edge.
spec fn sure_by(graph: GraphModel, key: Seq<Seq<char>>, edge: StatedEdge) -> bool {
    key == stated_key(edge) && graph.edges[key].confidence == edge.confidence
}

/// Whether a statement brings evidence of an edge.
spec fn shown_by(key: Seq<Seq<char>>, at: Seq<Seq<char>>, edge: StatedEdge, decoded: DecodedModel) -> bool {
    key == stated_key(edge) && at == evidence_key(brought(edge, decoded))
}

/// Whether a graph holds exactly the edges that are stated.
#[verifier::opaque]
spec fn gathers(graph: GraphModel, stated: Seq<StatedEdge>, decoded: Seq<DecodedModel>) -> bool {
    &&& keyed(graph)
    &&& forall|i: int| 0 <= i < stated.len() ==> kept(graph, #[trigger] stated[i], decoded[i])
    &&& forall|key: Seq<Seq<char>>| #[trigger]
        graph.edges.contains_key(key) ==> exists|i: int| 0 <= i < stated.len() && sure_by(graph, key, #[trigger] stated[i])
    &&& forall|key: Seq<Seq<char>>, at: Seq<Seq<char>>|
        graph.edges.contains_key(key) && #[trigger] graph.edges[key].evidence.contains_key(at) ==> exists|i: int|
            0 <= i < stated.len() && shown_by(key, at, #[trigger] stated[i], decoded[i])
}

proof fn relation_has_its_name(name: Seq<char>)
    requires
        relation_of(name) is Some,
    ensures
        relation_name_text(relation_of(name)->0) == name,
{
    let kind = choose|k: SemanticRelation| #[trigger] relation_name_text(k) == name;
    assert(relation_name_text(kind) == name);
}

proof fn key_has_its_parts(a: Seq<char>, b: Seq<char>, c: Seq<char>, x: Seq<char>, y: Seq<char>, z: Seq<char>)
    requires
        seq![a, b, c] == seq![x, y, z],
    ensures
        a == x,
        b == y,
        c == z,
{
    assert(seq![a, b, c][0] == seq![x, y, z][0]);
    assert(seq![a, b, c][1] == seq![x, y, z][1]);
    assert(seq![a, b, c][2] == seq![x, y, z][2]);
}

proof fn one_more_edge(graph: GraphModel, edge: StatedEdge, decoded: DecodedModel, next: GraphModel)
    requires
        keyed(graph),
        with_stated(graph, edge, decoded) == Ok::<GraphModel, Seq<char>>(next),
    ensures
        keyed(next),
        kept(next, edge, decoded),
        next.edges.dom() == graph.edges.dom().insert(stated_key(edge)),
        forall|key: Seq<Seq<char>>| #[trigger] graph.edges.contains_key(key) && key != stated_key(edge) ==> next.edges[key] == graph.edges[key],
        ({
            let key = stated_key(edge);
            let evidence = brought(edge, decoded);
            let now = next.edges[key];
            if graph.edges.contains_key(key) {
                now == (EdgeModel {
                    confidence: higher(graph.edges[key].confidence, edge.confidence),
                    evidence: graph.edges[key].evidence.insert(evidence_key(evidence), evidence),
                    ..graph.edges[key]
                })
            } else {
                now.confidence == edge.confidence && now.evidence == Map::<Seq<Seq<char>>, EvidenceModel>::empty().insert(
                    evidence_key(evidence),
                    evidence,
                )
            }
        }),
{
    relation_has_its_name(edge.relation);
    let kind = relation_of(edge.relation)->0;
    let key = edge_key(edge.from, edge.to, kind);
    assert(key == stated_key(edge));
    assert(next.edges.dom() =~= graph.edges.dom().insert(key));
    if graph.edges.contains_key(key) {
        let was = graph.edges[key];
        assert(key == edge_key(was.from, was.to, was.kind));
    }
}

proof fn gathers_one_more(graph: GraphModel, stated: Seq<StatedEdge>, decoded: Seq<DecodedModel>, edge: StatedEdge, brings: DecodedModel, next: GraphModel)
    requires
        stated.len() == decoded.len(),
        gathers(graph, stated, decoded),
        with_stated(graph, edge, brings) == Ok::<GraphModel, Seq<char>>(next),
    ensures
        gathers(next, stated.push(edge), decoded.push(brings)),
{
    reveal(gathers);
    one_more_edge(graph, edge, brings, next);
    let n = stated.len() as int;
    let all = stated.push(edge);
    let with = decoded.push(brings);
    let new = stated_key(edge);
    assert(all[n] == edge && with[n] == brings);
    assert forall|i: int| 0 <= i < all.len() implies kept(next, #[trigger] all[i], with[i]) by {
        if i < n {
            assert(all[i] == stated[i] && with[i] == decoded[i]);
            assert(kept(graph, stated[i], decoded[i]));
            relation_has_its_name(stated[i].relation);
            let key = edge_key(stated[i].from, stated[i].to, relation_of(stated[i].relation)->0);
            assert(graph.edges.contains_key(key));
            if key == new {
                assert(next.edges[key].evidence.contains_key(evidence_key(brought(stated[i], decoded[i]))));
            } else {
                assert(next.edges[key] == graph.edges[key]);
            }
        }
    }
    assert forall|key: Seq<Seq<char>>| #[trigger] next.edges.contains_key(key) implies exists|i: int|
        0 <= i < all.len() && sure_by(next, key, #[trigger] all[i]) by {
        if graph.edges.contains_key(key) {
            let i = choose|i: int| 0 <= i < stated.len() && sure_by(graph, key, #[trigger] stated[i]);
            assert(all[i] == stated[i]);
            if key == new {
                if next.edges[key].confidence == edge.confidence {
                    assert(sure_by(next, key, all[n]));
                } else {
                    assert(sure_by(next, key, all[i]));
                }
            } else {
                assert(sure_by(next, key, all[i]));
            }
        } else {
            assert(sure_by(next, key, all[n]));
        }
    }
    assert forall|key: Seq<Seq<char>>, at: Seq<Seq<char>>|
        next.edges.contains_key(key) && #[trigger] next.edges[key].evidence.contains_key(at) implies exists|i: int|
        0 <= i < all.len() && shown_by(key, at, #[trigger] all[i], with[i]) by {
        if graph.edges.contains_key(key) && graph.edges[key].evidence.contains_key(at) {
            let i = choose|i: int| 0 <= i < stated.len() && shown_by(key, at, #[trigger] stated[i], decoded[i]);
            assert(all[i] == stated[i] && with[i] == decoded[i]);
            assert(shown_by(key, at, all[i], with[i]));
        } else {
            assert(key == new);
            assert(shown_by(key, at, all[n], with[n]));
        }
    }
}

proof fn gathers_nothing(graph: GraphModel)
    requires
        graph.edges == Map::<Seq<Seq<char>>, EdgeModel>::empty(),
    ensures
        gathers(graph, Seq::empty(), Seq::empty()),
{
    reveal(gathers);
}

proof fn edge_at(output: GraphOutput, graph: GraphModel, k: int)
    requires
        output.shows(graph),
        0 <= k < output.edges@.len(),
    ensures
        ({
            let edge = output.edges@[k];
            let key = edge_key(edge.from@, edge.to@, edge.kind);
            graph.edges.contains_key(key) && edge_shows(edge, graph.edges[key])
        }),
{
    reveal(GraphOutput::shows);
    let keys = edge_keys(output.edges@);
    assert(keys[k] == edge_key(output.edges@[k].from@, output.edges@[k].to@, output.edges@[k].kind));
    assert(keys.contains(keys[k]));
}

proof fn edge_under(output: GraphOutput, graph: GraphModel, key: Seq<Seq<char>>) -> (k: int)
    requires
        output.shows(graph),
        graph.edges.contains_key(key),
    ensures
        0 <= k < output.edges@.len(),
        edge_key(output.edges@[k].from@, output.edges@[k].to@, output.edges@[k].kind) == key,
{
    reveal(GraphOutput::shows);
    let keys = edge_keys(output.edges@);
    assert(keys.contains(key));
    choose|k: int| 0 <= k < keys.len() && keys[k] == key
}

proof fn stated_is_listed(output: GraphOutput, graph: GraphModel, stated: StatedEdge, decoded: DecodedModel) -> (k: int)
    requires
        output.shows(graph),
        kept(graph, stated, decoded),
    ensures
        0 <= k < output.edges@.len(),
        shows_in(output.edges@[k], stated, decoded),
{
    relation_has_its_name(stated.relation);
    let key = edge_key(stated.from, stated.to, relation_of(stated.relation)->0);
    let k = edge_under(output, graph, key);
    edge_at(output, graph, k);
    let edge = output.edges@[k];
    key_has_its_parts(edge.from@, edge.to@, relation_name_text(edge.kind), stated.from, stated.to, stated.relation);
    let evidence = brought(stated, decoded);
    let at = evidence_key(evidence);
    let listed = evidence_keys(edge.evidence@);
    assert(listed.contains(at));
    let e = choose|e: int| 0 <= e < listed.len() && listed[e] == at;
    assert(listed[e] == evidence_key(edge.evidence@[e]@));
    evidence_key_injective(edge.evidence@[e]@, evidence);
    assert(edge@.evidence[e] == evidence);
    k
}

proof fn assured_by(graph: GraphModel, stated: Seq<StatedEdge>, decoded: Seq<DecodedModel>, key: Seq<Seq<char>>) -> (i: int)
    requires
        gathers(graph, stated, decoded),
        graph.edges.contains_key(key),
    ensures
        0 <= i < stated.len(),
        sure_by(graph, key, stated[i]),
{
    reveal(gathers);
    choose|i: int| 0 <= i < stated.len() && sure_by(graph, key, #[trigger] stated[i])
}

proof fn listed_is_stated(output: GraphOutput, graph: GraphModel, stated: Seq<StatedEdge>, decoded: Seq<DecodedModel>, k: int) -> (i: int)
    requires
        output.shows(graph),
        gathers(graph, stated, decoded),
        0 <= k < output.edges@.len(),
    ensures
        0 <= i < stated.len(),
        is_stated(output.edges@[k], stated[i]),
        output.edges@[k].confidence == stated[i].confidence,
{
    edge_at(output, graph, k);
    let edge = output.edges@[k];
    let key = edge_key(edge.from@, edge.to@, edge.kind);
    let i = assured_by(graph, stated, decoded, key);
    key_has_its_parts(edge.from@, edge.to@, relation_name_text(edge.kind), stated[i].from, stated[i].to, stated[i].relation);
    i
}

proof fn brought_by(graph: GraphModel, stated: Seq<StatedEdge>, decoded: Seq<DecodedModel>, key: Seq<Seq<char>>, at: Seq<Seq<char>>) -> (i: int)
    requires
        gathers(graph, stated, decoded),
        graph.edges.contains_key(key),
        graph.edges[key].evidence.contains_key(at),
    ensures
        0 <= i < stated.len(),
        shown_by(key, at, stated[i], decoded[i]),
{
    reveal(gathers);
    choose|i: int| 0 <= i < stated.len() && shown_by(key, at, #[trigger] stated[i], decoded[i])
}

proof fn evidence_is_brought(
    output: GraphOutput,
    graph: GraphModel,
    stated: Seq<StatedEdge>,
    decoded: Seq<DecodedModel>,
    k: int,
    e: int,
) -> (i: int)
    requires
        output.shows(graph),
        gathers(graph, stated, decoded),
        0 <= k < output.edges@.len(),
        0 <= e < output.edges@[k].evidence@.len(),
    ensures
        0 <= i < stated.len(),
        is_stated(output.edges@[k], stated[i]),
        output.edges@[k].evidence@[e]@ == brought(stated[i], decoded[i]),
{
    edge_at(output, graph, k);
    let edge = output.edges@[k];
    let key = edge_key(edge.from@, edge.to@, edge.kind);
    let at = evidence_key(edge.evidence@[e]@);
    assert(evidence_keys(edge.evidence@)[e] == at);
    assert(evidence_keys(edge.evidence@).contains(at));
    let i = brought_by(graph, stated, decoded, key, at);
    evidence_key_injective(edge.evidence@[e]@, brought(stated[i], decoded[i]));
    key_has_its_parts(edge.from@, edge.to@, relation_name_text(edge.kind), stated[i].from, stated[i].to, stated[i].relation);
    i
}

proof fn listed_once(output: GraphOutput, graph: GraphModel, k: int, l: int)
    requires
        output.shows(graph),
        0 <= k < l < output.edges@.len(),
    ensures
        output.edges@[k].from@ != output.edges@[l].from@ || output.edges@[k].to@ != output.edges@[l].to@ || output.edges@[k].kind
            != output.edges@[l].kind,
{
    reveal(GraphOutput::shows);
    let keys = edge_keys(output.edges@);
    assert(key_lt(keys[k], keys[l]));
    if keys[k] == keys[l] {
        key_lt_irreflexive(keys[k]);
    }
}

proof fn output_lists(output: GraphOutput, graph: GraphModel, stated: Seq<StatedEdge>, decoded: Seq<DecodedModel>)
    requires
        output.shows(graph),
        gathers(graph, stated, decoded),
    ensures
        lists(output.edges@, stated, decoded),
{
    reveal(lists);
    let edges = output.edges@;
    assert forall|i: int| 0 <= i < stated.len() implies is_shown(edges, #[trigger] stated[i], decoded[i]) by {
        assert(kept(graph, stated[i], decoded[i])) by {
            reveal(gathers);
        }
        let k = stated_is_listed(output, graph, stated[i], decoded[i]);
        assert(shows_in(edges[k], stated[i], decoded[i]));
    }
    assert forall|k: int| 0 <= k < edges.len() implies is_assured(#[trigger] edges[k], stated) by {
        let i = listed_is_stated(output, graph, stated, decoded, k);
        assert(is_stated(edges[k], stated[i]));
    }
    assert forall|k: int, e: int| 0 <= k < edges.len() && 0 <= e < edges[k].evidence@.len() implies is_brought(
        edges[k],
        (#[trigger] edges[k].evidence@[e])@,
        stated,
        decoded,
    ) by {
        let i = evidence_is_brought(output, graph, stated, decoded, k, e);
        assert(is_stated(edges[k], stated[i]));
    }
    assert forall|k: int, l: int| 0 <= k < l < edges.len() implies (#[trigger] edges[k]).from@ != (#[trigger] edges[l]).from@
        || edges[k].to@ != edges[l].to@ || edges[k].kind != edges[l].kind by {
        listed_once(output, graph, k, l);
    }
}

/// The content of decoded evidence.
pub open spec fn decoded_models(decoded: Seq<DecodedEvidence>) -> Seq<DecodedModel> {
    decoded.map_values(|evidence: DecodedEvidence| evidence@)
}

/// The edge that a row of a context is about: an outgoing relation leads from the entity to the
/// related one, an incoming relation leads from the related one to the entity.
pub open spec fn about(entity: Seq<char>, row: ContextRow) -> StatedEdge {
    StatedEdge {
        from: if row.direction@ == "incoming"@ {
            row.related@
        } else {
            entity
        },
        to: if row.direction@ == "incoming"@ {
            entity
        } else {
            row.related@
        },
        relation: row.relation@,
        evidence: row.evidence@,
        confidence: row.confidence as int,
        provenance: row.provenance@,
    }
}

/// Whether a row of a context states an edge.
pub open spec fn states_edge(row: ContextRow) -> bool {
    (row.direction@ == "outgoing"@ || row.direction@ == "incoming"@) && exists|kind: SemanticRelation| #[trigger]
        relation_name_text(kind) == row.relation@
}

proof fn directions_differ()
    ensures
        "outgoing"@ != "incoming"@,
{
    reveal_strlit("outgoing");
    reveal_strlit("incoming");
    assert("outgoing"@[0] != "incoming"@[0]);
}

/// The nodes of a graph, with those of some edges.
spec fn joined(graph: GraphModel, more: Seq<StatedEdge>, nodes: Set<Seq<Seq<char>>>) -> bool {
    forall|id: Seq<char>| #[trigger]
        nodes.contains(seq![id]) <==> graph.kinds.contains_key(seq![id]) || exists|i: int|
            0 <= i < more.len() && (id == (#[trigger] more[i]).from || id == more[i].to)
}

proof fn joined_one_more(
    base: GraphModel,
    graph: GraphModel,
    more: Seq<StatedEdge>,
    edge: StatedEdge,
    decoded: DecodedModel,
    next: GraphModel,
)
    requires
        joined(base, more, graph.kinds.dom()),
        with_stated(graph, edge, decoded) == Ok::<GraphModel, Seq<char>>(next),
    ensures
        joined(base, more.push(edge), next.kinds.dom()),
{
    let all = more.push(edge);
    let n = more.len() as int;
    assert(all[n] == edge);
    assert(next.kinds.dom() =~= graph.kinds.dom().insert(seq![edge.from]).insert(seq![edge.to]));
    assert forall|id: Seq<char>| #[trigger] next.kinds.dom().contains(seq![id]) <==> base.kinds.contains_key(seq![id]) || exists|i: int|
        0 <= i < all.len() && (id == (#[trigger] all[i]).from || id == all[i].to) by {
        assert(seq![id][0] == id);
        assert(seq![edge.from][0] == edge.from);
        assert(seq![edge.to][0] == edge.to);
        assert(graph.kinds.dom().contains(seq![id]) <==> base.kinds.contains_key(seq![id]) || exists|i: int|
            0 <= i < more.len() && (id == (#[trigger] more[i]).from || id == more[i].to));
        if exists|i: int| 0 <= i < more.len() && (id == (#[trigger] more[i]).from || id == more[i].to) {
            let i = choose|i: int| 0 <= i < more.len() && (id == (#[trigger] more[i]).from || id == more[i].to);
            assert(all[i] == more[i]);
        }
        if exists|i: int| 0 <= i < all.len() && (id == (#[trigger] all[i]).from || id == all[i].to) {
            let i = choose|i: int| 0 <= i < all.len() && (id == (#[trigger] all[i]).from || id == all[i].to);
            if i < n {
                assert(more[i] == all[i]);
            }
        }
    }
}

proof fn joined_nothing(base: GraphModel)
    ensures
        joined(base, Seq::empty(), base.kinds.dom()),
{
}

proof fn context_gathers(base: GraphModel, entity: Seq<char>, rows: Seq<ContextRow>, decoded: Seq<DecodedEvidence>, n: int)
    requires
        0 <= n <= rows.len(),
        rows.len() == decoded.len(),
        base.edges == Map::<Seq<Seq<char>>, EdgeModel>::empty(),
    ensures
        with_context_rows(base, entity, rows, decoded, n) is Ok <==> forall|i: int| 0 <= i < n ==> states_edge(#[trigger] rows[i]),
        with_context_rows(base, entity, rows, decoded, n) is Ok ==> {
            let graph = with_context_rows(base, entity, rows, decoded, n)->Ok_0;
            let stated = Seq::new(n as nat, |i: int| about(entity, rows[i]));
            &&& gathers(graph, stated, decoded_models(decoded).take(n))
            &&& joined(base, stated, graph.kinds.dom())
        },
    decreases n,
{
    let stated = Seq::new(n as nat, |i: int| about(entity, rows[i]));
    let with = decoded_models(decoded).take(n);
    directions_differ();
    if n == 0 {
        assert(stated =~= Seq::empty());
        assert(with =~= Seq::empty());
        gathers_nothing(base);
        joined_nothing(base);
    } else {
        context_gathers(base, entity, rows, decoded, n - 1);
        let less = Seq::new((n - 1) as nat, |i: int| about(entity, rows[i]));
        let row = rows[n - 1];
        assert(stated =~= less.push(about(entity, row)));
        assert(with =~= decoded_models(decoded).take(n - 1).push(decoded[n - 1]@));
        let before = with_context_rows(base, entity, rows, decoded, n - 1);
        if before is Ok {
            let edge = about(entity, row);
            if row.direction@ == "outgoing"@ || row.direction@ == "incoming"@ {
                assert(context_edge(entity, row) == Ok::<StatedEdge, Seq<char>>(edge));
                if relation_of(row.relation@) is Some {
                    relation_has_its_name(row.relation@);
                    assert(states_edge(row));
                    let next = with_stated(before->Ok_0, edge, decoded[n - 1]@)->Ok_0;
                    gathers_one_more(before->Ok_0, less, decoded_models(decoded).take(n - 1), edge, decoded[n - 1]@, next);
                    joined_one_more(base, before->Ok_0, less, edge, decoded[n - 1]@, next);
                }
            }
        }
    }
}

/// Whether one of some nodes has the identifier.
pub open spec fn has_node(nodes: Seq<EntityRef>, id: Seq<char>) -> bool {
    exists|m: int| 0 <= m < nodes.len() && (#[trigger] nodes[m]).id@ == id
}

/// Whether an edge joins an entity to what a row says of it.
pub open spec fn joins_related(edge: SemanticEdge, entity: Seq<char>, row: ContextRow) -> bool {
    &&& relation_name_text(edge.kind) == row.relation@
    &&& row.direction@ == "outgoing"@ ==> edge.from@ == entity && edge.to@ == row.related@
    &&& row.direction@ == "incoming"@ ==> edge.from@ == row.related@ && edge.to@ == entity
}

/// Whether an edge of a context stems from one of the rows.
pub open spec fn stems_from(edge: SemanticEdge, entity: Seq<char>, rows: Seq<ContextRow>) -> bool {
    exists|i: int| 0 <= i < rows.len() && joins_related(edge, entity, #[trigger] rows[i])
}

/// Whether a row shows in one of the edges of a context.
pub open spec fn is_joined(edges: Seq<SemanticEdge>, entity: Seq<char>, row: ContextRow) -> bool {
    exists|k: int| 0 <= k < edges.len() && joins_related(#[trigger] edges[k], entity, row)
}

/// A context holds the entity, what it is related to, and nothing else; and its edges are those of
/// its rows: an outgoing relation leads from the entity to the related one, an incoming relation
/// from the related one to the entity.
pub proof fn contexts_join_the_entity_to_its_relations(
    entity: Seq<char>,
    rows: Seq<ContextRow>,
    decoded: Seq<DecodedEvidence>,
    entities: Seq<Vec<InspectionValue>>,
    answer: Context,
)
    requires
        rows.len() == decoded.len(),
        context_graph(entity, rows, decoded, entities) is Ok,
        (GraphOutput { nodes: answer.nodes, edges: answer.edges }).shows(context_graph(entity, rows, decoded, entities)->Ok_0),
        answer.root@ == node_in(context_graph(entity, rows, decoded, entities)->Ok_0, entity),
    ensures
        forall|i: int| 0 <= i < rows.len() ==> (#[trigger] rows[i]).direction@ == "outgoing"@ || rows[i].direction@ == "incoming"@,
        forall|i: int| 0 <= i < rows.len() ==> is_joined(answer.edges@, entity, #[trigger] rows[i]),
        forall|k: int| 0 <= k < answer.edges@.len() ==> stems_from(#[trigger] answer.edges@[k], entity, rows),
        lists(answer.edges@, Seq::new(rows.len(), |i: int| about(entity, rows[i])), decoded_models(decoded)),
        answer.root.id@ == entity,
        forall|id: Seq<char>|
            #[trigger] has_node(answer.nodes@, id) <==> id == entity || exists|i: int|
                0 <= i < rows.len() && (#[trigger] rows[i]).related@ == id,
{
    let base = (GraphModel { facts: stated_facts(entities, entities.len() as int)->Ok_0, ..GraphModel::empty() }).hinted(
        entity,
        kind_of_id(entity),
    );
    let n = rows.len() as int;
    let graph = context_graph(entity, rows, decoded, entities)->Ok_0;
    let output = GraphOutput { nodes: answer.nodes, edges: answer.edges };
    let stated = Seq::new(rows.len(), |i: int| about(entity, rows[i]));
    let with = decoded_models(decoded);
    context_gathers(base, entity, rows, decoded, n);
    assert(with.take(n) =~= with);
    output_lists(output, graph, stated, with);
    directions_differ();
    assert forall|i: int| 0 <= i < rows.len() implies (#[trigger] rows[i]).direction@ == "outgoing"@ || rows[i].direction@
        == "incoming"@ by {
        assert(states_edge(rows[i]));
    }
    assert forall|i: int| 0 <= i < rows.len() implies is_joined(answer.edges@, entity, #[trigger] rows[i]) by {
        assert(stated[i] == about(entity, rows[i]));
        assert(is_shown(answer.edges@, stated[i], with[i])) by {
            reveal(lists);
        }
        let k = choose|k: int| 0 <= k < answer.edges@.len() && shows_in(#[trigger] answer.edges@[k], stated[i], with[i]);
        assert(joins_related(answer.edges@[k], entity, rows[i]));
    }
    assert forall|k: int| 0 <= k < answer.edges@.len() implies stems_from(#[trigger] answer.edges@[k], entity, rows) by {
        assert(is_assured(answer.edges@[k], stated)) by {
            reveal(lists);
        }
        let i = choose|i: int|
            0 <= i < stated.len() && is_stated(answer.edges@[k], #[trigger] stated[i]) && answer.edges@[k].confidence
                == stated[i].confidence;
        assert(stated[i] == about(entity, rows[i]));
        assert(states_edge(rows[i]));
        assert(joins_related(answer.edges@[k], entity, rows[i]));
    }
    assert(base.kinds.dom() =~= Set::<Seq<Seq<char>>>::empty().insert(seq![entity]));
    context_nodes(entity, rows, base, stated, graph, output);
    assert forall|id: Seq<char>| #[trigger] has_node(answer.nodes@, id) <==> id == entity || exists|i: int|
        0 <= i < rows.len() && (#[trigger] rows[i]).related@ == id by {
        assert(has_node(output.nodes@, id) == has_node(answer.nodes@, id));
    }
}

proof fn context_nodes(
    entity: Seq<char>,
    rows: Seq<ContextRow>,
    base: GraphModel,
    stated: Seq<StatedEdge>,
    graph: GraphModel,
    output: GraphOutput,
)
    requires
        stated == Seq::new(rows.len(), |i: int| about(entity, rows[i])),
        base.kinds.dom() == Set::<Seq<Seq<char>>>::empty().insert(seq![entity]),
        joined(base, stated, graph.kinds.dom()),
        output.shows(graph),
    ensures
        forall|id: Seq<char>|
            #[trigger] has_node(output.nodes@, id) <==> id == entity || exists|i: int|
                0 <= i < rows.len() && (#[trigger] rows[i]).related@ == id,
{
    reveal(GraphOutput::shows);
    let keys = node_keys(output.nodes@);
    assert forall|id: Seq<char>|
        #[trigger] has_node(output.nodes@, id) <==> id == entity || exists|i: int|
            0 <= i < rows.len() && (#[trigger] rows[i]).related@ == id by {
        assert(seq![id][0] == id && seq![entity][0] == entity);
        assert(graph.kinds.dom().contains(seq![id]) <==> base.kinds.contains_key(seq![id]) || exists|i: int|
            0 <= i < stated.len() && (id == (#[trigger] stated[i]).from || id == stated[i].to));
        assert(graph.kinds.contains_key(seq![id]) <==> keys.contains(seq![id]));
        if keys.contains(seq![id]) {
            let m = choose|m: int| 0 <= m < keys.len() && keys[m] == seq![id];
            assert(seq![output.nodes@[m].id@][0] == seq![id][0]);
            assert(output.nodes@[m].id@ == id);
            if id != entity {
                let i = choose|i: int| 0 <= i < stated.len() && (id == (#[trigger] stated[i]).from || id == stated[i].to);
                assert(stated[i] == about(entity, rows[i]));
                assert(rows[i].related@ == id);
            }
        }
        if has_node(output.nodes@, id) {
            let m = choose|m: int| 0 <= m < output.nodes@.len() && (#[trigger] output.nodes@[m]).id@ == id;
            assert(keys[m] == seq![id]);
            assert(keys.contains(seq![id]));
        }
        if exists|i: int| 0 <= i < rows.len() && (#[trigger] rows[i]).related@ == id {
            let i = choose|i: int| 0 <= i < rows.len() && (#[trigger] rows[i]).related@ == id;
            assert(stated[i] == about(entity, rows[i]));
            assert(id == stated[i].from || id == stated[i].to);
        }
    }
}

/// There is a context exactly if each row has a known direction and relation, and the facts can be
/// read.
pub proof fn contexts_exist_where_rows_are_known(
    entity: Seq<char>,
    rows: Seq<ContextRow>,
    decoded: Seq<DecodedEvidence>,
    entities: Seq<Vec<InspectionValue>>,
)
    requires
        rows.len() == decoded.len(),
    ensures
        context_graph(entity, rows, decoded, entities) is Ok <==> stated_facts(entities, entities.len() as int) is Ok && forall|i: int|
            0 <= i < rows.len() ==> states_edge(#[trigger] rows[i]),
{
    if stated_facts(entities, entities.len() as int) is Ok {
        let base = (GraphModel { facts: stated_facts(entities, entities.len() as int)->Ok_0, ..GraphModel::empty() }).hinted(
            entity,
            kind_of_id(entity),
        );
        context_gathers(base, entity, rows, decoded, rows.len() as int);
    }
}

/// The edge that a row of a closure states, in the columns behind the kind of the row, the node and
/// the distance.
pub open spec fn closure_statement(row: Seq<InspectionValue>) -> StatedEdge {
    StatedEdge {
        from: cell_text(row, 3)->0,
        to: cell_text(row, 4)->0,
        relation: cell_text(row, 5)->0,
        evidence: cell_text(row, 6)->0,
        confidence: cell_number(row, 7)->0,
        provenance: cell_text(row, 8)->0,
    }
}

proof fn closure_gathers(base: GraphModel, rows: Seq<Vec<InspectionValue>>, decoded: Seq<DecodedEvidence>, n: int)
    requires
        0 <= n <= rows.len(),
        rows.len() == decoded.len(),
        base.edges == Map::<Seq<Seq<char>>, EdgeModel>::empty(),
        with_closure_rows(base, rows, decoded, n) is Ok,
    ensures
        gathers(
            with_closure_rows(base, rows, decoded, n)->Ok_0,
            Seq::new(n as nat, |i: int| closure_statement(rows[i]@)),
            decoded_models(decoded).take(n),
        ),
    decreases n,
{
    let stated = Seq::new(n as nat, |i: int| closure_statement(rows[i]@));
    let with = decoded_models(decoded).take(n);
    if n == 0 {
        assert(stated =~= Seq::empty());
        assert(with =~= Seq::empty());
        gathers_nothing(base);
    } else {
        closure_gathers(base, rows, decoded, n - 1);
        let less = Seq::new((n - 1) as nat, |i: int| closure_statement(rows[i]@));
        let edge = closure_statement(rows[n - 1]@);
        assert(stated =~= less.push(edge));
        assert(with =~= decoded_models(decoded).take(n - 1).push(decoded[n - 1]@));
        let before = with_closure_rows(base, rows, decoded, n - 1)->Ok_0;
        let next = with_closure_rows(base, rows, decoded, n)->Ok_0;
        assert(stated_edge(rows[n - 1]@, closure_layout()) == Ok::<StatedEdge, Seq<char>>(edge));
        gathers_one_more(before, less, decoded_models(decoded).take(n - 1), edge, decoded[n - 1]@, next);
    }
}

proof fn roots_have_no_edges(graph: GraphModel, roots: Seq<Seq<char>>, n: int)
    ensures
        with_roots(graph, roots, n).edges == graph.edges,
    decreases n,
{
    if n > 0 {
        roots_have_no_edges(graph, roots, n - 1);
    }
}

/// The graph of a closure has exactly the edges that its rows state, each with its source, its
/// target and its relation, the evidence of all its rows, and the highest of their confidences.
pub proof fn closures_show_the_edges_of_their_rows(
    rows: Seq<Vec<InspectionValue>>,
    decoded: Seq<DecodedEvidence>,
    entities: Seq<Vec<InspectionValue>>,
    roots: Seq<Seq<char>>,
    output: GraphOutput,
)
    requires
        rows.len() == decoded.len(),
        closure_graph(rows, decoded, entities, roots) is Ok,
        output.shows(closure_graph(rows, decoded, entities, roots)->Ok_0),
    ensures
        lists(output.edges@, Seq::new(rows.len(), |i: int| closure_statement(rows[i]@)), decoded_models(decoded)),
{
    let base = GraphModel { facts: stated_facts(entities, entities.len() as int)->Ok_0, ..GraphModel::empty() };
    let rooted = with_roots(base, roots, roots.len() as int);
    let n = rows.len() as int;
    roots_have_no_edges(base, roots, roots.len() as int);
    closure_gathers(rooted, rows, decoded, n);
    assert(decoded_models(decoded).take(n) =~= decoded_models(decoded));
    output_lists(
        output,
        closure_graph(rows, decoded, entities, roots)->Ok_0,
        Seq::new(rows.len(), |i: int| closure_statement(rows[i]@)),
        decoded_models(decoded),
    );
}

/// Whether an edge leads from one node to another for those who ask what a node depends on.
pub open spec fn depends(edge: SemanticEdge, from: Seq<char>, to: Seq<char>) -> bool {
    edge.from@ == from && edge.to@ == to
}

/// Whether an edge leads from one node to another for those who ask what depends on a node: back
/// from what is depended on, but forward from a remote operation to what implements it.
pub open spec fn affects(edge: SemanticEdge, from: Seq<char>, to: Seq<char>) -> bool {
    if edge.kind == SemanticRelation::Dependency(DependencyRelation::ImplementedBy) && "grpc://"@.is_prefix_of(edge.from@) {
        edge.from@ == from && edge.to@ == to
    } else {
        edge.from@ == to && edge.to@ == from
    }
}

/// Whether an edge leads from one node to another in a direction.
pub open spec fn leads(edge: SemanticEdge, direction: GraphDirection, from: Seq<char>, to: Seq<char>) -> bool {
    match direction {
        GraphDirection::Dependencies => depends(edge, from, to),
        GraphDirection::Dependents => affects(edge, from, to),
    }
}

/// Whether one of some edges has the identifier, and leads from one node to another.
pub open spec fn steps(edges: Seq<SemanticEdge>, direction: GraphDirection, id: Seq<char>, from: Seq<char>, to: Seq<char>) -> bool {
    exists|k: int| 0 <= k < edges.len() && (#[trigger] edges[k]).id@ == id && leads(edges[k], direction, from, to)
}

proof fn kept_edge_is_listed(edges: Seq<SemanticEdge>, full: Seq<SemanticEdge>, wanted: spec_fn(SemanticEdgeModel) -> bool, e: int) -> (k: int)
    requires
        edge_list_models(edges) == keep(edge_list_models(full), wanted),
        0 <= e < full.len(),
        wanted(full[e]@),
    ensures
        0 <= k < edges.len(),
        edges[k]@ == full[e]@,
{
    let all = edge_list_models(full);
    assert(all[e] == full[e]@);
    let k = keep_has(all, wanted, e);
    assert(edge_list_models(edges)[k] == edges[k]@);
    k
}

proof fn keep_has<A>(list: Seq<A>, wanted: spec_fn(A) -> bool, e: int) -> (k: int)
    requires
        0 <= e < list.len(),
        wanted(list[e]),
    ensures
        0 <= k < keep(list, wanted).len(),
        keep(list, wanted)[k] == list[e],
    decreases list.len(),
{
    if e == list.len() - 1 {
        keep(list, wanted).len() - 1
    } else {
        assert(list.drop_last()[e] == list[e]);
        keep_has(list.drop_last(), wanted, e)
    }
}

/// The paths of a traversal start where they are asked to, visit no node twice, keep to the limits
/// on hops and on their number, and take only steps along edges that the answer shows: from what
/// depends to what it depends on where dependencies are asked for, and back where dependents are,
/// but for the step from a remote operation to what implements it, which always goes forward.
pub proof fn traversal_paths_keep_to_their_direction<'a>(
    answer: Traversal,
    graph: GraphModel,
    query: TraverseGraphQuery,
    max_steps: u32,
    acquired: Acquisition<'a>,
    p: int,
)
    requires
        answer.answers(graph, query, max_steps, acquired),
        0 <= p < answer.paths@.len(),
    ensures
        ({
            let nodes = texts(answer.paths@[p].nodes@);
            let edges = texts(answer.paths@[p].edges@);
            &&& nodes.len() == edges.len() + 1
            &&& nodes[0] == query.start@
            &&& nodes.no_duplicates()
            &&& edges.len() <= query.max_hops
            &&& answer.paths@.len() <= query.max_paths
            &&& forall|j: int|
                0 <= j < edges.len() ==> steps(answer.edges@, query.direction, #[trigger] edges[j], nodes[j], nodes[j + 1])
        }),
{
    let (full, scope) = choose|full: GraphOutput, scope: PathScope|
        #![trigger full.shows(graph), answer.cuts(full, scope, query, max_steps, acquired)]
        full.shows(graph) && answer.cuts(full, scope, query, max_steps, acquired);
    let start = query.start@;
    let end = visit(scope, opening(scope.incomplete), seq![start], Seq::empty());
    traversals_are_sound(scope, start);
    let path = end.paths[p];
    assert(path_models(answer.paths@)[p] == answer.paths@[p]@);
    assert(simple_path(scope, path.nodes, path.edges));
    let nodes = path.nodes;
    let edges = path.edges;
    assert(answer.paths@.len() == end.paths.len());
    assert forall|j: int| 0 <= j < edges.len() implies steps(
        answer.edges@,
        query.direction,
        #[trigger] edges[j],
        nodes[j],
        nodes[j + 1],
    ) by {
        assert(is_step(scope, nodes, edges, j));
        let way = way_of(query.direction);
        let list = scope.adjacent[seq![nodes[j]]];
        assert(lists_neighbours(list, full.edges@, way, nodes[j]));
        assert(joins(full.edges@, way, edges[j], nodes[j], nodes[j + 1]));
        let e = choose|e: int|
            0 <= e < full.edges@.len() && (#[trigger] full.edges@[e]).id@ == edges[j] && tail_of(full.edges@[e], way) == nodes[j]
                && head_of(full.edges@[e], way) == nodes[j + 1];
        let edge = full.edges@[e];
        assert(path.nodes.contains(nodes[j]) && path.nodes.contains(nodes[j + 1]));
        assert(on_paths(end.paths, start, nodes[j]));
        assert(on_paths(end.paths, start, nodes[j + 1]));
        let k = kept_edge_is_listed(
            answer.edges@,
            full.edges@,
            |e: SemanticEdgeModel| on_paths(end.paths, query.start@, e.from) && on_paths(end.paths, query.start@, e.to),
            e,
        );
        let shown = answer.edges@[k];
        assert(shown@.id == edge@.id && shown@.from == edge@.from && shown@.to == edge@.to && shown@.kind == edge@.kind);
        assert(leads(shown, query.direction, nodes[j], nodes[j + 1]));
    }
}

/// Whether an edge of a graph leads from one node to another in a direction.
pub open spec fn linked(graph: GraphModel, direction: GraphDirection, from: Seq<char>, to: Seq<char>) -> bool {
    exists|key: Seq<Seq<char>>| #[trigger]
        graph.edges.contains_key(key) && {
            let edge = graph.edges[key];
            let forward = direction == GraphDirection::Dependencies || (edge.kind == SemanticRelation::Dependency(
                DependencyRelation::ImplementedBy,
            ) && "grpc://"@.is_prefix_of(edge.from));
            if forward {
                edge.from == from && edge.to == to
            } else {
                edge.from == to && edge.to == from
            }
        }
}

/// Whether nodes follow each other along the edges of a graph, none of them twice.
pub open spec fn is_walk(graph: GraphModel, direction: GraphDirection, nodes: Seq<Seq<char>>) -> bool {
    &&& nodes.len() > 0
    &&& nodes.no_duplicates()
    &&& forall|j: int| 0 <= j < nodes.len() - 1 ==> linked(graph, direction, #[trigger] nodes[j], nodes[j + 1])
}

/// The neighbours of nodes are those that edges of the graph lead to.
spec fn adjoins(graph: GraphModel, direction: GraphDirection, adjacent: Map<Seq<Seq<char>>, Seq<Neighbour>>) -> bool {
    forall|from: Seq<char>, to: Seq<char>| #[trigger]
        linked(graph, direction, from, to) <==> adjacent.contains_key(seq![from]) && exists|id: Seq<char>| #[trigger]
            adjacent[seq![from]].contains((to, id))
}

proof fn neighbours_are_linked(output: GraphOutput, graph: GraphModel, direction: GraphDirection, adjacent: Map<Seq<Seq<char>>, Seq<Neighbour>>)
    requires
        output.shows(graph),
        has_neighbours(adjacent, output.edges@, way_of(direction)),
    ensures
        adjoins(graph, direction, adjacent),
{
    let edges = output.edges@;
    let way = way_of(direction);
    assert forall|from: Seq<char>, to: Seq<char>| #[trigger] linked(graph, direction, from, to) <==> adjacent.contains_key(seq![from])
        && exists|id: Seq<char>| #[trigger] adjacent[seq![from]].contains((to, id)) by {
        if linked(graph, direction, from, to) {
            let key = choose|key: Seq<Seq<char>>| #[trigger]
                graph.edges.contains_key(key) && {
                    let edge = graph.edges[key];
                    let forward = direction == GraphDirection::Dependencies || (edge.kind == SemanticRelation::Dependency(
                        DependencyRelation::ImplementedBy,
                    ) && "grpc://"@.is_prefix_of(edge.from));
                    if forward {
                        edge.from == from && edge.to == to
                    } else {
                        edge.from == to && edge.to == from
                    }
                };
            let k = edge_under(output, graph, key);
            edge_at(output, graph, k);
            assert(tail_of(edges[k], way) == from && head_of(edges[k], way) == to);
            assert(adjacent.contains_key(seq![tail_of(edges[k], way)]));
            let list = adjacent[seq![from]];
            assert(lists_neighbours(list, edges, way, from));
            let near: Neighbour = (to, edges[k].id@);
            assert(joins(edges, way, near.1, from, near.0));
            assert(list.contains(near));
        }
        if adjacent.contains_key(seq![from]) && exists|id: Seq<char>| #[trigger] adjacent[seq![from]].contains((to, id)) {
            let list = adjacent[seq![from]];
            let id = choose|id: Seq<char>| #[trigger] list.contains((to, id));
            assert(lists_neighbours(list, edges, way, from));
            assert(joins(edges, way, id, from, to));
            let e = choose|e: int|
                0 <= e < edges.len() && (#[trigger] edges[e]).id@ == id && tail_of(edges[e], way) == from && head_of(edges[e], way) == to;
            edge_at(output, graph, e);
            let key = edge_key(edges[e].from@, edges[e].to@, edges[e].kind);
            assert(graph.edges.contains_key(key));
        }
    }
}

proof fn all_are_followed(scope: PathScope, nodes: Seq<Seq<char>>, list: Seq<Neighbour>, n: int)
    requires
        scope.targets.len() == 0,
        0 <= n <= list.len(),
    ensures
        scope.followed(nodes, list, n) == list.take(n),
    decreases n,
{
    if n > 0 {
        all_are_followed(scope, nodes, list, n - 1);
        assert(list.take(n) =~= list.take(n - 1).push(list[n - 1]));
    } else {
        assert(list.take(0) =~= Seq::empty());
    }
}

proof fn nothing_is_completed(scope: PathScope, nodes: Seq<Seq<char>>, n: int)
    requires
        scope.targets.len() == 0,
    ensures
        scope.visited(nodes, n) == (Set::<Seq<Seq<char>>>::empty(), None::<Seq<char>>),
    decreases n,
{
    if n > 0 {
        nothing_is_completed(scope, nodes, n - 1);
        assert(scope.targets =~= Seq::empty());
        no_targets(nodes[n - 1], scope.targets);
    }
}

proof fn no_targets(id: Seq<char>, targets: Seq<String>)
    requires
        targets.len() == 0,
    ensures
        target_of(id, targets) is None,
{
}

proof fn neighbours_without_targets(scope: PathScope, nodes: Seq<Seq<char>>)
    requires
        scope.targets.len() == 0,
    ensures
        scope.adjacent.contains_key(seq![nodes.last()]) ==> scope.neighbours(nodes) == scope.adjacent[seq![nodes.last()]],
        !scope.adjacent.contains_key(seq![nodes.last()]) ==> scope.neighbours(nodes).len() == 0,
        !scope.leaves(nodes),
        !scope.at_boundary(nodes),
{
    nothing_is_completed(scope, nodes, nodes.len() as int);
    if scope.adjacent.contains_key(seq![nodes.last()]) {
        let list = scope.adjacent[seq![nodes.last()]];
        all_are_followed(scope, nodes, list, list.len() as int);
        assert(list.take(list.len() as int) =~= list);
    }
}

proof fn walk_goes_on(scope: PathScope, nodes: Seq<Seq<char>>, edges: Seq<Seq<char>>, m: int)
    requires
        scope.targets.len() == 0,
        nodes.len() == edges.len() + 1,
        nodes.no_duplicates(),
        edges.len() <= scope.max_hops,
        scope.destination is Some ==> forall|j: int| 0 <= j < nodes.len() - 1 ==> scope.destination != Some(#[trigger] nodes[j]),
        forall|j: int| 0 <= j < edges.len() ==> #[trigger] is_step(scope, nodes, edges, j),
        0 <= m <= edges.len(),
    ensures
        goes_on_to(scope, seq![nodes[0]], Seq::empty(), nodes.take(m + 1), edges.take(m)),
    decreases m,
{
    let to = nodes.take(m + 1);
    let along = edges.take(m);
    if m == 0 {
        assert(to =~= seq![nodes[0]]);
        assert(along =~= Seq::empty());
    } else {
        walk_goes_on(scope, nodes, edges, m - 1);
        let before = nodes.take(m);
        assert(to.drop_last() =~= before);
        assert(along.drop_last() =~= edges.take(m - 1));
        assert(before.last() == nodes[m - 1]);
        assert(is_step(scope, nodes, edges, m - 1));
        neighbours_without_targets(scope, before);
        assert(to.last() == nodes[m] && along.last() == edges[m - 1]);
        assert(!before.contains(nodes[m])) by {
            if before.contains(nodes[m]) {
                let j = choose|j: int| 0 <= j < before.len() && before[j] == nodes[m];
                assert(nodes[j] == nodes[m]);
            }
        }
    }
}

/// The edge by which a walk goes on.
spec fn edge_on(adjacent: Map<Seq<Seq<char>>, Seq<Neighbour>>, from: Seq<char>, to: Seq<char>) -> Seq<char> {
    choose|id: Seq<char>| #[trigger] adjacent[seq![from]].contains((to, id))
}

proof fn walk_is_found(graph: GraphModel, scope: PathScope, direction: GraphDirection, nodes: Seq<Seq<char>>) -> (path: PathModel)
    requires
        scope.targets.len() == 0,
        adjoins(graph, direction, scope.adjacent),
        is_walk(graph, direction, nodes),
        nodes.len() <= scope.max_hops + 1,
        match scope.destination {
            Some(destination) => nodes.last() == destination,
            None => !scope.incomplete.contains(seq![nodes.last()]) && forall|next: Seq<char>| #[trigger]
                linked(graph, direction, nodes.last(), next) ==> nodes.contains(next),
        },
    ensures
        wanted_path(scope, seq![nodes[0]], Seq::empty(), path),
        path.nodes == nodes,
        path.termination == (if scope.destination is Some {
            PathTermination::Destination
        } else if exists|next: Seq<char>| #[trigger] linked(graph, direction, nodes.last(), next) {
            PathTermination::Cycle
        } else {
            PathTermination::Leaf
        }),
{
    let n = nodes.len() as int;
    let edges = Seq::new((n - 1) as nat, |j: int| edge_on(scope.adjacent, nodes[j], nodes[j + 1]));
    assert forall|j: int| 0 <= j < edges.len() implies #[trigger] is_step(scope, nodes, edges, j) by {
        assert(linked(graph, direction, nodes[j], nodes[j + 1]));
        let id = choose|id: Seq<char>| #[trigger] scope.adjacent[seq![nodes[j]]].contains((nodes[j + 1], id));
        assert(edges[j] == id);
    }
    if scope.destination is Some {
        assert forall|j: int| 0 <= j < nodes.len() - 1 implies scope.destination != Some(#[trigger] nodes[j]) by {
            assert(nodes[j] != nodes[n - 1]);
        }
    }
    walk_goes_on(scope, nodes, edges, n - 1);
    assert(nodes.take(n) =~= nodes);
    assert(edges.take(n - 1) =~= edges);
    neighbours_without_targets(scope, nodes);
    let list = scope.neighbours(nodes);
    let last = nodes.last();
    if scope.destination is None {
        if extends(nodes, list) {
            let i = choose|i: int| 0 <= i < list.len() && !nodes.contains((#[trigger] list[i]).0);
            assert(scope.adjacent[seq![last]].contains((list[i].0, list[i].1)));
            assert(linked(graph, direction, last, list[i].0));
        }
        if list.len() > 0 {
            assert(scope.adjacent[seq![last]].contains((list[0].0, list[0].1)));
            assert(linked(graph, direction, last, list[0].0));
        } else if exists|next: Seq<char>| #[trigger] linked(graph, direction, last, next) {
            let next = choose|next: Seq<char>| #[trigger] linked(graph, direction, last, next);
            assert(linked(graph, direction, last, next));
            let id = choose|id: Seq<char>| #[trigger] scope.adjacent[seq![last]].contains((next, id));
            assert(list.contains((next, id)));
        }
    }
    PathModel { nodes, edges, termination: reported(scope, nodes)->0 }
}

/// A traversal that meets none of its limits, and is not asked for repositories, finds every walk
/// from the start along the edges of the graph in its direction that visits no node twice and
/// leads to the destination; without a destination, every one that cannot be continued.
pub proof fn traversals_find_the_walks_of_the_graph<'a>(
    answer: Traversal,
    graph: GraphModel,
    query: TraverseGraphQuery,
    max_steps: u32,
    acquired: Acquisition<'a>,
    nodes: Seq<Seq<char>>,
)
    requires
        answer.answers(graph, query, max_steps, acquired),
        !answer.reasons.max_hops && !answer.reasons.max_paths && !answer.reasons.work_limit,
        query.target_repositories@.len() == 0,
        is_walk(graph, query.direction, nodes),
        nodes[0] == query.start@,
        nodes.len() <= query.max_hops + 1,
        match query.destination {
            Some(destination) => nodes.last() == destination@,
            None => !acquired.incomplete@.contains_key(seq![nodes.last()]) && forall|next: Seq<char>| #[trigger]
                linked(graph, query.direction, nodes.last(), next) ==> nodes.contains(next),
        },
    ensures
        exists|p: int|
            0 <= p < answer.paths@.len() && texts((#[trigger] answer.paths@[p]).nodes@) == nodes && answer.paths@[p].termination == (
            if query.destination is Some {
                PathTermination::Destination
            } else if exists|next: Seq<char>| #[trigger] linked(graph, query.direction, nodes.last(), next) {
                PathTermination::Cycle
            } else {
                PathTermination::Leaf
            }),
{
    let (full, scope) = choose|full: GraphOutput, scope: PathScope|
        #![trigger full.shows(graph), answer.cuts(full, scope, query, max_steps, acquired)]
        full.shows(graph) && answer.cuts(full, scope, query, max_steps, acquired);
    let start = query.start@;
    let end = visit(scope, opening(scope.incomplete), seq![start], Seq::empty());
    neighbours_are_linked(full, graph, query.direction, scope.adjacent);
    if scope.targets.len() > 0 {
        let t = scope.targets[0]@;
        assert(texts(scope.targets)[0] == t);
        assert(texts(scope.targets).contains(t));
        assert(texts(query.target_repositories@).contains(t));
    }
    let path = walk_is_found(graph, scope, query.direction, nodes);
    assert(seq![start] =~= seq![nodes[0]]);
    untruncated_traversals_find_all_paths(scope, start);
    assert(end.paths.contains(path));
    let p = choose|p: int| 0 <= p < end.paths.len() && end.paths[p] == path;
    assert(path_models(answer.paths@)[p] == answer.paths@[p]@);
    assert(answer.paths@.len() == end.paths.len());
}

/// Which way edges are followed for those who ask for dependencies or dependents.
spec fn followed_way(direction: GraphDirection) -> TraversalDirection {
    if direction == GraphDirection::Dependencies {
        TraversalDirection::Outgoing
    } else {
        TraversalDirection::Incoming
    }
}

/// Whether a node is the entity that was asked for, at no distance, or one that was reached at a
/// distance.
pub open spec fn is_at(reach: Reach, entity: Seq<char>, node: Seq<char>, hops: int) -> bool {
    (node == entity && hops == 0) || exists|i: int|
        0 <= i < reach.reached@.len() && (#[trigger] reach.reached@[i]).entity@ == node && reach.reached@[i].hops == hops
}

/// Whether a node is the entity that was asked for, or was reached.
pub open spec fn is_reached(reach: Reach, entity: Seq<char>, node: Seq<char>) -> bool {
    node == entity || exists|i: int| 0 <= i < reach.reached@.len() && (#[trigger] reach.reached@[i]).entity@ == node
}

/// Whether one of some edges leads from one node to another.
pub open spec fn has_link(edges: Seq<SemanticEdge>, direction: GraphDirection, from: Seq<char>, to: Seq<char>) -> bool {
    exists|k: int| 0 <= k < edges.len() && leads(#[trigger] edges[k], direction, from, to)
}

/// Whether a node has been reached by an edge of the answer from a node that is nearer.
pub open spec fn is_reached_from(reach: Reach, direction: GraphDirection, entity: Seq<char>, node: Seq<char>, hops: int) -> bool {
    exists|before: Seq<char>| #[trigger] is_at(reach, entity, before, hops - 1) && has_link(reach.edges@, direction, before, node)
}

/// Whether a graph links two nodes in a direction by one of the edges that an output shows.
proof fn linked_by_edge(output: GraphOutput, graph: GraphModel, direction: GraphDirection, from: Seq<char>, to: Seq<char>) -> (k: int)
    requires
        output.shows(graph),
        linked(graph, direction, from, to),
    ensures
        0 <= k < output.edges@.len(),
        tail_of(output.edges@[k], followed_way(direction)) == from,
        head_of(output.edges@[k], followed_way(direction)) == to,
{
    let key = choose|key: Seq<Seq<char>>| #[trigger]
        graph.edges.contains_key(key) && {
            let edge = graph.edges[key];
            let forward = direction == GraphDirection::Dependencies || (edge.kind == SemanticRelation::Dependency(
                DependencyRelation::ImplementedBy,
            ) && "grpc://"@.is_prefix_of(edge.from));
            if forward {
                edge.from == from && edge.to == to
            } else {
                edge.from == to && edge.to == from
            }
        };
    let k = edge_under(output, graph, key);
    edge_at(output, graph, k);
    k
}

proof fn edge_links(output: GraphOutput, graph: GraphModel, direction: GraphDirection, k: int)
    requires
        output.shows(graph),
        0 <= k < output.edges@.len(),
    ensures
        ({
            let edge = output.edges@[k];
            let way = followed_way(direction);
            linked(graph, direction, tail_of(edge, way), head_of(edge, way)) && leads(edge, direction, tail_of(edge, way), head_of(edge, way))
        }),
{
    edge_at(output, graph, k);
    let edge = output.edges@[k];
    let key = edge_key(edge.from@, edge.to@, edge.kind);
    assert(graph.edges.contains_key(key));
}

proof fn one_step_on(edges: Seq<SemanticEdge>, way: TraversalDirection, from: Seq<char>, k: int, n: nat)
    requires
        0 <= k < edges.len(),
        reaches(edges, way, from, tail_of(edges[k], way), n),
    ensures
        reaches(edges, way, from, head_of(edges[k], way), n + 1),
{
    assert(reaches(edges, way, from, tail_of(edges[k], way), ((n + 1) - 1) as nat));
}

proof fn nearest(edges: Seq<SemanticEdge>, way: TraversalDirection, from: Seq<char>, to: Seq<char>, n: nat) -> (m: nat)
    requires
        reaches(edges, way, from, to, n),
    ensures
        m <= n,
        distance(edges, way, from, to, m),
    decreases n,
{
    if exists|m: nat| m < n && reaches(edges, way, from, to, m) {
        let m = choose|m: nat| m < n && reaches(edges, way, from, to, m);
        nearest(edges, way, from, to, m)
    } else {
        n
    }
}

proof fn reached_within(reach: Reach, full: GraphOutput, entity: Seq<char>, max_hops: u32, way: TraversalDirection, node: Seq<char>, n: nat)
    requires
        reach.cuts(full, entity, max_hops, way),
        distance(full.edges@, way, entity, node, n),
        n <= max_hops,
    ensures
        is_at(reach, entity, node, n as int),
{
    let edges = full.edges@;
    if node == entity {
        assert(reaches(edges, way, entity, entity, 0));
    } else {
        assert(within(edges, way, entity, node, max_hops));
        let i = choose|i: int| 0 <= i < reach.reached@.len() && (#[trigger] reach.reached@[i]).entity@ == node;
        let hops = reach.reached@[i].hops as nat;
        assert(distance(edges, way, entity, node, hops));
        if hops < n {
            assert(!reaches(edges, way, entity, node, hops));
        } else if n < hops {
            assert(!reaches(edges, way, entity, node, n));
        }
    }
}

proof fn at_distance(reach: Reach, full: GraphOutput, entity: Seq<char>, max_hops: u32, way: TraversalDirection, node: Seq<char>, hops: int)
    requires
        reach.cuts(full, entity, max_hops, way),
        is_at(reach, entity, node, hops),
    ensures
        0 <= hops <= max_hops,
        distance(full.edges@, way, entity, node, hops as nat),
{
    if node == entity && hops == 0 {
        assert(reaches(full.edges@, way, entity, entity, 0));
    } else {
        let i = choose|i: int|
            0 <= i < reach.reached@.len() && (#[trigger] reach.reached@[i]).entity@ == node && reach.reached@[i].hops == hops;
        assert(distance(full.edges@, way, entity, node, reach.reached@[i].hops as nat));
    }
}

proof fn came_from(reach: Reach, full: GraphOutput, graph: GraphModel, entity: Seq<char>, max_hops: u32, direction: GraphDirection, i: int)
    requires
        full.shows(graph),
        reach.cuts(full, entity, max_hops, followed_way(direction)),
        0 <= i < reach.reached@.len(),
    ensures
        1 <= reach.reached@[i].hops <= max_hops,
        is_reached_from(reach, direction, entity, reach.reached@[i].entity@, reach.reached@[i].hops as int),
{
    let edges = full.edges@;
    let way = followed_way(direction);
    let node = reach.reached@[i].entity@;
    let h = reach.reached@[i].hops as nat;
    assert(distance(edges, way, entity, node, h));
    assert(node != entity);
    let k = choose|k: int|
        0 <= k < edges.len() && head_of(#[trigger] edges[k], way) == node && reaches(edges, way, entity, tail_of(edges[k], way), (h - 1) as nat);
    let before = tail_of(edges[k], way);
    let m = nearest(edges, way, entity, before, (h - 1) as nat);
    if m < h - 1 {
        one_step_on(edges, way, entity, k, m);
        assert(!reaches(edges, way, entity, node, m + 1));
    }
    reached_within(reach, full, entity, max_hops, way, before, m);
    assert(within(edges, way, entity, before, max_hops));
    assert(reaches(edges, way, entity, node, h));
    assert(within(edges, way, entity, node, max_hops));
    let l = kept_edge_is_listed(
        reach.edges@,
        edges,
        |e: SemanticEdgeModel| within(edges, way, entity, e.from, max_hops) && within(edges, way, entity, e.to, max_hops),
        k,
    );
    edge_links(full, graph, direction, k);
    let shown = reach.edges@[l];
    assert(shown@.from == edges[k]@.from && shown@.to == edges[k]@.to && shown@.kind == edges[k]@.kind);
    assert(leads(shown, direction, before, node));
    assert(is_at(reach, entity, before, h - 1));
}

/// What lies within reach of an entity has been reached step by step: from the entity, or from what
/// was reached one hop before, by an edge that the answer shows and that leads there in the
/// direction asked for. Whatever the graph links to something within reach is reached too, at most
/// one hop further, unless the limit is met; and the answer says so exactly if something is left
/// out on account of the limit.
pub proof fn reach_follows_the_links_of_the_graph(
    reach: Reach,
    full: GraphOutput,
    graph: GraphModel,
    entity: Seq<char>,
    max_hops: u32,
    direction: GraphDirection,
)
    requires
        full.shows(graph),
        reach.cuts(
            full,
            entity,
            max_hops,
            if direction == GraphDirection::Dependencies {
                TraversalDirection::Outgoing
            } else {
                TraversalDirection::Incoming
            },
        ),
    ensures
        forall|i: int|
            0 <= i < reach.reached@.len() ==> {
                &&& 1 <= (#[trigger] reach.reached@[i]).hops <= max_hops
                &&& is_reached_from(reach, direction, entity, reach.reached@[i].entity@, reach.reached@[i].hops as int)
            },
        forall|near: Seq<char>, next: Seq<char>, hops: int|
            #[trigger] is_at(reach, entity, near, hops) && hops < max_hops && #[trigger] linked(graph, direction, near, next)
                ==> exists|further: int| further <= hops + 1 && #[trigger] is_at(reach, entity, next, further),
        reach.truncated <==> exists|near: Seq<char>, next: Seq<char>| #[trigger]
            is_at(reach, entity, near, max_hops as int) && #[trigger] linked(graph, direction, near, next) && !is_reached(
                reach,
                entity,
                next,
            ),
{
    let edges = full.edges@;
    let way = followed_way(direction);
    assert forall|i: int| 0 <= i < reach.reached@.len() implies 1 <= (#[trigger] reach.reached@[i]).hops <= max_hops && is_reached_from(
        reach,
        direction,
        entity,
        reach.reached@[i].entity@,
        reach.reached@[i].hops as int,
    ) by {
        came_from(reach, full, graph, entity, max_hops, direction, i);
    }
    assert forall|near: Seq<char>, next: Seq<char>, hops: int|
        #[trigger] is_at(reach, entity, near, hops) && hops < max_hops && #[trigger] linked(graph, direction, near, next) implies exists|
        further: int,
    | further <= hops + 1 && #[trigger] is_at(reach, entity, next, further) by {
        at_distance(reach, full, entity, max_hops, way, near, hops);
        let k = linked_by_edge(full, graph, direction, near, next);
        one_step_on(edges, way, entity, k, hops as nat);
        let m = nearest(edges, way, entity, next, (hops + 1) as nat);
        reached_within(reach, full, entity, max_hops, way, next, m);
    }
    if reach.truncated {
        let k = choose|k: int|
            0 <= k < edges.len() && distance(edges, way, entity, tail_of(#[trigger] edges[k], way), max_hops as nat) && !within(
                edges,
                way,
                entity,
                head_of(edges[k], way),
                max_hops,
            );
        let near = tail_of(edges[k], way);
        let next = head_of(edges[k], way);
        reached_within(reach, full, entity, max_hops, way, near, max_hops as nat);
        edge_links(full, graph, direction, k);
        if is_reached(reach, entity, next) {
            if next == entity {
                assert(reaches(edges, way, entity, entity, 0));
            } else {
                let i = choose|i: int| 0 <= i < reach.reached@.len() && (#[trigger] reach.reached@[i]).entity@ == next;
                assert(distance(edges, way, entity, next, reach.reached@[i].hops as nat));
                assert(reaches(edges, way, entity, next, reach.reached@[i].hops as nat));
            }
        }
    }
    if exists|near: Seq<char>, next: Seq<char>| #[trigger]
        is_at(reach, entity, near, max_hops as int) && #[trigger] linked(graph, direction, near, next) && !is_reached(reach, entity, next) {
        let (near, next) = choose|near: Seq<char>, next: Seq<char>| #[trigger]
            is_at(reach, entity, near, max_hops as int) && #[trigger] linked(graph, direction, near, next) && !is_reached(reach, entity, next);
        at_distance(reach, full, entity, max_hops, way, near, max_hops as int);
        let k = linked_by_edge(full, graph, direction, near, next);
        assert(distance(edges, way, entity, tail_of(edges[k], way), max_hops as nat));
        if within(edges, way, entity, next, max_hops) {
            let n = choose|n: nat| n <= max_hops && #[trigger] reaches(edges, way, entity, next, n);
            let m = nearest(edges, way, entity, next, n);
            reached_within(reach, full, entity, max_hops, way, next, m);
        }
    }
}

/// Whether nodes follow each other along the edges of a graph from one entity to another.
pub open spec fn is_route(graph: GraphModel, from: Seq<char>, to: Seq<char>, nodes: Seq<Seq<char>>) -> bool {
    &&& nodes.len() > 0
    &&& nodes[0] == from
    &&& nodes.last() == to
    &&& forall|j: int| 0 <= j < nodes.len() - 1 ==> linked(graph, GraphDirection::Dependencies, #[trigger] nodes[j], nodes[j + 1])
}

proof fn route_reaches(full: GraphOutput, graph: GraphModel, nodes: Seq<Seq<char>>, m: int)
    requires
        full.shows(graph),
        0 <= m < nodes.len(),
        forall|j: int| 0 <= j < nodes.len() - 1 ==> linked(graph, GraphDirection::Dependencies, #[trigger] nodes[j], nodes[j + 1]),
    ensures
        reaches(full.edges@, TraversalDirection::Outgoing, nodes[0], nodes[m], m as nat),
    decreases m,
{
    if m > 0 {
        route_reaches(full, graph, nodes, m - 1);
        assert(linked(graph, GraphDirection::Dependencies, nodes[m - 1], nodes[m - 1 + 1]));
        let k = linked_by_edge(full, graph, GraphDirection::Dependencies, nodes[m - 1], nodes[m]);
        one_step_on(full.edges@, TraversalDirection::Outgoing, nodes[0], k, (m - 1) as nat);
    }
}

/// A trace leads from the one entity to the other along edges that it shows, each taken from its
/// source to its target. No route through the graph is shorter, and where there is one within the
/// limit on hops, there is a path.
pub proof fn traces_lead_along_shortest_routes(
    trace: Trace,
    full: GraphOutput,
    graph: GraphModel,
    from: Seq<char>,
    to: Seq<char>,
    max_hops: u32,
)
    requires
        full.shows(graph),
        trace.cuts(full, from, to, max_hops),
    ensures
        trace.path is Some ==> {
            let nodes = texts(trace.path->0.nodes@);
            let edges = texts(trace.path->0.edges@);
            &&& nodes.len() == edges.len() + 1
            &&& edges.len() <= max_hops
            &&& nodes[0] == from
            &&& nodes.last() == to
            &&& forall|j: int|
                0 <= j < edges.len() ==> steps(trace.edges@, GraphDirection::Dependencies, #[trigger] edges[j], nodes[j], nodes[j + 1])
        },
        forall|nodes: Seq<Seq<char>>| #[trigger]
            is_route(graph, from, to, nodes) && nodes.len() <= max_hops + 1 ==> trace.path is Some && trace.path->0.nodes@.len()
                <= nodes.len(),
{
    let full_edges = full.edges@;
    let way = TraversalDirection::Outgoing;
    if trace.path is Some {
        let path = trace.path->0;
        let nodes = texts(path.nodes@);
        let edges = texts(path.edges@);
        let n = path.edges@.len() as nat;
        assert(within(full_edges, way, from, to, max_hops));
        let m = choose|m: nat| m <= max_hops && #[trigger] reaches(full_edges, way, from, to, m);
        if m < n {
            assert(!reaches(full_edges, way, from, to, m));
        }
        assert forall|j: int| 0 <= j < edges.len() implies steps(
            trace.edges@,
            GraphDirection::Dependencies,
            #[trigger] edges[j],
            nodes[j],
            nodes[j + 1],
        ) by {
            assert(path.edges@[j]@ == edges[j]);
            assert(joins(full_edges, way, edges[j], nodes[j], nodes[j + 1]));
            let e = choose|e: int|
                0 <= e < full_edges.len() && (#[trigger] full_edges[e]).id@ == edges[j] && tail_of(full_edges[e], way) == nodes[j]
                    && head_of(full_edges[e], way) == nodes[j + 1];
            assert(traced_edges(trace.path).contains(edges[j]));
            let k = kept_edge_is_listed(
                trace.edges@,
                full_edges,
                |e: SemanticEdgeModel| traced_edges(trace.path).contains(e.id),
                e,
            );
            let shown = trace.edges@[k];
            assert(shown@.id == full_edges[e]@.id && shown@.from == full_edges[e]@.from && shown@.to == full_edges[e]@.to);
            assert(leads(shown, GraphDirection::Dependencies, nodes[j], nodes[j + 1]));
        }
    }
    assert forall|nodes: Seq<Seq<char>>| #[trigger] is_route(graph, from, to, nodes) && nodes.len() <= max_hops + 1 implies trace.path is Some
        && trace.path->0.nodes@.len() <= nodes.len() by {
        let n = (nodes.len() - 1) as nat;
        route_reaches(full, graph, nodes, n as int);
        assert(reaches(full_edges, way, from, to, n));
        assert(within(full_edges, way, from, to, max_hops));
        let hops = trace.path->0.edges@.len() as nat;
        assert(distance(full_edges, way, from, to, hops));
        if n < hops {
            assert(!reaches(full_edges, way, from, to, n));
        }
    }
}

/// The edge that a row of a topology states: in the columns from the first on its source, its
/// target, its relation, its evidence, its confidence and its provenance.
pub open spec fn topology_statement(row: Seq<InspectionValue>) -> StatedEdge {
    StatedEdge {
        from: cell_text(row, 0)->0,
        to: cell_text(row, 1)->0,
        relation: cell_text(row, 2)->0,
        evidence: cell_text(row, 3)->0,
        confidence: cell_number(row, 4)->0,
        provenance: cell_text(row, 5)->0,
    }
}

proof fn topology_gathers(base: GraphModel, rows: Seq<Vec<InspectionValue>>, decoded: Seq<DecodedEvidence>, n: int)
    requires
        0 <= n <= rows.len(),
        rows.len() == decoded.len(),
        base.edges == Map::<Seq<Seq<char>>, EdgeModel>::empty(),
        with_topology_rows(base, rows, decoded, n) is Ok,
    ensures
        gathers(
            with_topology_rows(base, rows, decoded, n)->Ok_0,
            Seq::new(n as nat, |i: int| topology_statement(rows[i]@)),
            decoded_models(decoded).take(n),
        ),
        joined(
            base,
            Seq::new(n as nat, |i: int| topology_statement(rows[i]@)),
            with_topology_rows(base, rows, decoded, n)->Ok_0.kinds.dom(),
        ),
        with_topology_rows(base, rows, decoded, n)->Ok_0.facts == base.facts,
        forall|i: int|
            0 <= i < n ==> base.facts.contains_key(seq![cell_text((#[trigger] rows[i])@, 0)->0]) && base.facts.contains_key(
                seq![cell_text(rows[i]@, 1)->0],
            ),
    decreases n,
{
    let stated = Seq::new(n as nat, |i: int| topology_statement(rows[i]@));
    let with = decoded_models(decoded).take(n);
    if n == 0 {
        assert(stated =~= Seq::empty());
        assert(with =~= Seq::empty());
        gathers_nothing(base);
        joined_nothing(base);
    } else {
        topology_gathers(base, rows, decoded, n - 1);
        let less = Seq::new((n - 1) as nat, |i: int| topology_statement(rows[i]@));
        let edge = topology_statement(rows[n - 1]@);
        assert(stated =~= less.push(edge));
        assert(with =~= decoded_models(decoded).take(n - 1).push(decoded[n - 1]@));
        let before = with_topology_rows(base, rows, decoded, n - 1)->Ok_0;
        let next = with_topology_rows(base, rows, decoded, n)->Ok_0;
        assert(stated_edge(rows[n - 1]@, topology_layout()) == Ok::<StatedEdge, Seq<char>>(edge));
        gathers_one_more(before, less, decoded_models(decoded).take(n - 1), edge, decoded[n - 1]@, next);
        joined_one_more(base, before, less, edge, decoded[n - 1]@, next);
    }
}

/// The topology of a workspace shows exactly the entities that facts are stored of, and exactly the
/// edges that its rows state; all of these join entities that facts are stored of.
pub proof fn topologies_show_all_facts_and_edges(
    rows: Seq<Vec<InspectionValue>>,
    decoded: Seq<DecodedEvidence>,
    entities: Seq<Vec<InspectionValue>>,
    output: GraphOutput,
)
    requires
        rows.len() == decoded.len(),
        topology_graph(rows, decoded, entities) is Ok,
        output.shows(topology_graph(rows, decoded, entities)->Ok_0),
    ensures
        lists(output.edges@, Seq::new(rows.len(), |i: int| topology_statement(rows[i]@)), decoded_models(decoded)),
        forall|id: Seq<char>| #[trigger]
            has_node(output.nodes@, id) <==> stated_facts(entities, entities.len() as int)->Ok_0.contains_key(seq![id]),
{
    let facts = stated_facts(entities, entities.len() as int)->Ok_0;
    let base = known_graph(facts, facts.dom());
    let n = rows.len() as int;
    let graph = topology_graph(rows, decoded, entities)->Ok_0;
    let stated = Seq::new(rows.len(), |i: int| topology_statement(rows[i]@));
    topology_gathers(base, rows, decoded, n);
    assert(decoded_models(decoded).take(n) =~= decoded_models(decoded));
    output_lists(output, graph, stated, decoded_models(decoded));
    assert(base.kinds.dom() =~= facts.dom());
    assert forall|id: Seq<char>| #[trigger] has_node(output.nodes@, id) <==> facts.contains_key(seq![id]) by {
        node_is_shown(output, graph, id);
        assert(graph.kinds.dom().contains(seq![id]) <==> base.kinds.contains_key(seq![id]) || exists|i: int|
            0 <= i < stated.len() && (id == (#[trigger] stated[i]).from || id == stated[i].to));
        if exists|i: int| 0 <= i < stated.len() && (id == (#[trigger] stated[i]).from || id == stated[i].to) {
            let i = choose|i: int| 0 <= i < stated.len() && (id == (#[trigger] stated[i]).from || id == stated[i].to);
            assert(facts.contains_key(seq![cell_text(rows[i]@, 0)->0]) && facts.contains_key(seq![cell_text(rows[i]@, 1)->0]));
        }
    }
}

proof fn node_is_shown(output: GraphOutput, graph: GraphModel, id: Seq<char>)
    requires
        output.shows(graph),
    ensures
        has_node(output.nodes@, id) <==> graph.kinds.contains_key(seq![id]),
{
    reveal(GraphOutput::shows);
    let keys = node_keys(output.nodes@);
    assert(graph.kinds.contains_key(seq![id]) <==> keys.contains(seq![id]));
    assert(seq![id][0] == id);
    if keys.contains(seq![id]) {
        let m = choose|m: int| 0 <= m < keys.len() && keys[m] == seq![id];
        assert(seq![output.nodes@[m].id@][0] == seq![id][0]);
        assert(output.nodes@[m].id@ == id);
    }
    if has_node(output.nodes@, id) {
        let m = choose|m: int| 0 <= m < output.nodes@.len() && (#[trigger] output.nodes@[m]).id@ == id;
        assert(keys[m] == seq![id]);
        assert(keys.contains(seq![id]));
    }
}

/// A node of a graph has the kind and the metadata that are stored of it, where there are any.
pub proof fn nodes_show_what_is_stored(output: GraphOutput, rows: Seq<Vec<InspectionValue>>, decoded: Seq<DecodedEvidence>, entities: Seq<
    Vec<InspectionValue>,
>, roots: Seq<Seq<char>>, m: int)
    requires
        rows.len() == decoded.len(),
        closure_graph(rows, decoded, entities, roots) is Ok,
        output.shows(closure_graph(rows, decoded, entities, roots)->Ok_0),
        0 <= m < output.nodes@.len(),
        stated_facts(entities, entities.len() as int)->Ok_0.contains_key(seq![output.nodes@[m].id@]),
    ensures
        output.nodes@[m].kind == stated_facts(entities, entities.len() as int)->Ok_0[seq![output.nodes@[m].id@]].0,
        output.nodes@[m].metadata == stated_facts(entities, entities.len() as int)->Ok_0[seq![output.nodes@[m].id@]].1,
{
    let facts = stated_facts(entities, entities.len() as int)->Ok_0;
    let base = GraphModel { facts, ..GraphModel::empty() };
    let rooted = with_roots(base, roots, roots.len() as int);
    let graph = closure_graph(rows, decoded, entities, roots)->Ok_0;
    let id = output.nodes@[m].id@;
    roots_go_by_facts(base, roots, roots.len() as int);
    rows_go_by_facts(rooted, rows, decoded, rows.len() as int);
    node_is_shown(output, graph, id);
    assert(has_node(output.nodes@, id));
    reveal(GraphOutput::shows);
    assert(output.nodes@[m]@ == node_in(graph, id));
}

/// Whether a graph goes by the facts that it has been given.
spec fn goes_by_facts(graph: GraphModel) -> bool {
    forall|key: Seq<Seq<char>>| #[trigger]
        graph.facts.contains_key(key) ==> {
            &&& graph.kinds.contains_key(key) ==> graph.kinds[key] == graph.facts[key].0 && (match graph.facts[key].1 {
                Some(metadata) => graph.metadata.contains_key(key) && graph.metadata[key] == metadata,
                None => true,
            })
            &&& graph.metadata.contains_key(key) ==> Some(graph.metadata[key]) == graph.facts[key].1
        }
}

proof fn roots_go_by_facts(graph: GraphModel, roots: Seq<Seq<char>>, n: int)
    requires
        goes_by_facts(graph),
    ensures
        goes_by_facts(with_roots(graph, roots, n)),
        with_roots(graph, roots, n).facts == graph.facts,
    decreases n,
{
    if n > 0 {
        roots_go_by_facts(graph, roots, n - 1);
    }
}

proof fn rows_go_by_facts(graph: GraphModel, rows: Seq<Vec<InspectionValue>>, decoded: Seq<DecodedEvidence>, n: int)
    requires
        goes_by_facts(graph),
        with_closure_rows(graph, rows, decoded, n) is Ok,
    ensures
        goes_by_facts(with_closure_rows(graph, rows, decoded, n)->Ok_0),
        with_closure_rows(graph, rows, decoded, n)->Ok_0.facts == graph.facts,
    decreases n,
{
    if n > 0 {
        rows_go_by_facts(graph, rows, decoded, n - 1);
    }
}

/// Whether an entity lies in a repository.
pub open spec fn is_in(id: Seq<char>, repository: Seq<char>) -> bool {
    ("repo://"@ + repository + "/"@).is_prefix_of(id)
}

/// Whether a path visits a repository.
pub open spec fn visits(nodes: Seq<Seq<char>>, repository: Seq<char>) -> bool {
    exists|j: int| 0 <= j < nodes.len() && is_in(#[trigger] nodes[j], repository)
}

/// Whether a path that was found ends at the destination, or has visited all that it has to.
spec fn ends_rightly(scope: PathScope, path: PathModel) -> bool {
    &&& if path.termination == PathTermination::Destination {
        scope.destination == Some(path.nodes.last())
    } else {
        scope.targets.len() == 0 || scope.completion(path.nodes) is Some
    }
    &&& path.termination == PathTermination::MaxHops ==> path.edges.len() == scope.max_hops && extends(
        path.nodes,
        scope.neighbours(path.nodes),
    )
    &&& path.termination == PathTermination::RepositoryBoundary ==> scope.completion(path.nodes) is Some
    &&& path.termination == PathTermination::Leaf ==> scope.neighbours(path.nodes).len() == 0
    &&& path.termination == PathTermination::Cycle ==> scope.neighbours(path.nodes).len() > 0 && !extends(
        path.nodes,
        scope.neighbours(path.nodes),
    )
    &&& path.termination == PathTermination::Leaf || path.termination == PathTermination::Cycle || path.termination
        == PathTermination::RepositoryBoundary ==> !scope.incomplete.contains(seq![path.nodes.last()])
}

spec fn all_end_rightly(scope: PathScope, state: PathState) -> bool {
    forall|i: int| 0 <= i < state.paths.len() ==> ends_rightly(scope, #[trigger] state.paths[i])
}

proof fn visit_ends_rightly(scope: PathScope, state: PathState, nodes: Seq<Seq<char>>, edges: Seq<Seq<char>>)
    requires
        all_end_rightly(scope, state),
    ensures
        all_end_rightly(scope, visit(scope, state, nodes, edges)),
    decreases scope.max_steps - state.steps, 0int,
{
    if !state.reasons.stops() && state.steps < scope.max_steps {
        let counted = PathState { steps: state.steps + 1, ..state };
        if scope.destination != Some(nodes.last()) && !scope.leaves(nodes) {
            let path = PathModel { nodes, edges, termination: PathTermination::RepositoryBoundary };
            let reported = if scope.at_boundary(nodes) {
                scope.emitted(counted, path)
            } else {
                counted
            };
            assert(all_end_rightly(scope, reported));
            let list = scope.neighbours(nodes);
            if !reported.reasons.max_paths && list.len() <= scope.max_steps - reported.steps {
                let looked = PathState { steps: reported.steps + list.len(), ..reported };
                assert(all_end_rightly(scope, looked));
                if extends(nodes, list) && edges.len() != scope.max_hops {
                    follow_ends_rightly(scope, looked, nodes, edges, list, 0);
                }
            }
        }
    }
}

proof fn follow_ends_rightly(
    scope: PathScope,
    state: PathState,
    nodes: Seq<Seq<char>>,
    edges: Seq<Seq<char>>,
    list: Seq<Neighbour>,
    k: int,
)
    requires
        all_end_rightly(scope, state),
    ensures
        all_end_rightly(scope, follow(scope, state, nodes, edges, list, k)),
    decreases scope.max_steps - state.steps, 1 + list.len() - k,
{
    if k < list.len() && state.steps < scope.max_steps {
        let counted = PathState { steps: state.steps + 1, ..state };
        if nodes.contains(list[k].0) {
            follow_ends_rightly(scope, counted, nodes, edges, list, k + 1);
        } else {
            visit_ends_rightly(scope, counted, nodes.push(list[k].0), edges.push(list[k].1));
            let after = visit(scope, counted, nodes.push(list[k].0), edges.push(list[k].1));
            if !(after.reasons.stops() || !(state.steps < after.steps <= scope.max_steps)) {
                follow_ends_rightly(scope, after, nodes, edges, list, k + 1);
            }
        }
    }
}

proof fn target_is_in(id: Seq<char>, targets: Seq<String>)
    ensures
        target_of(id, targets) is Some ==> is_in(id, target_of(id, targets)->0),
{
    if target_of(id, targets) is Some {
        let rest = behind(id, "repo://"@)->0;
        first_target_is_in(rest, targets, 0);
        let target = target_of(id, targets)->0;
        let front = "repo://"@;
        assert(id =~= front + rest);
        let whole = front + target + "/"@;
        assert(id.take(whole.len() as int) =~= front + rest.take((target + "/"@).len() as int));
        assert(rest.take((target + "/"@).len() as int) =~= target + "/"@);
        assert(id.take(whole.len() as int) =~= whole);
    }
}

proof fn first_target_is_in(rest: Seq<char>, targets: Seq<String>, k: int)
    requires
        0 <= k,
    ensures
        target_from(rest, targets, k) is Some ==> 0 <= target_from(rest, targets, k)->0 < targets.len() && lies_in(
            rest,
            targets[target_from(rest, targets, k)->0]@,
        ),
    decreases targets.len() - k,
{
    if k < targets.len() && !lies_in(rest, targets[k]@) {
        first_target_is_in(rest, targets, k + 1);
    }
}

proof fn visited_are_visited(scope: PathScope, nodes: Seq<Seq<char>>, n: int, repository: Seq<char>)
    requires
        0 <= n <= nodes.len(),
        scope.visited(nodes, n).0.contains(seq![repository]) || (scope.visited(nodes, n).1 is Some && scope.wanted().contains(
            seq![repository],
        )),
    ensures
        visits(nodes, repository),
    decreases n,
{
    if n > 0 {
        let (before, completion) = scope.visited(nodes, n - 1);
        target_is_in(nodes[n - 1], scope.targets);
        if before.contains(seq![repository]) || completion is Some && scope.wanted().contains(seq![repository]) {
            visited_are_visited(scope, nodes, n - 1, repository);
        } else {
            let found = target_of(nodes[n - 1], scope.targets)->0;
            assert(before.insert(seq![found]).contains(seq![repository]));
            assert(seq![found][0] == seq![repository][0]);
            assert(is_in(nodes[n - 1], repository));
        }
    }
}

/// A path of a traversal never ends as a leaf, in a cycle or at the boundary of a repository where
/// not all is known of the entity that it ends at. Where no repositories are asked for, a path
/// ends as a leaf only where no edge leads on, in a cycle only where all edges lead back to it,
/// and for the limit on hops only where it is met and an edge leads on.
pub proof fn traversal_paths_end_for_a_reason<'a>(
    answer: Traversal,
    graph: GraphModel,
    query: TraverseGraphQuery,
    max_steps: u32,
    acquired: Acquisition<'a>,
    p: int,
)
    requires
        answer.answers(graph, query, max_steps, acquired),
        0 <= p < answer.paths@.len(),
    ensures
        ({
            let termination = answer.paths@[p].termination;
            let nodes = texts(answer.paths@[p].nodes@);
            &&& termination == PathTermination::Leaf || termination == PathTermination::Cycle || termination
                == PathTermination::RepositoryBoundary ==> !acquired.incomplete@.contains_key(seq![nodes.last()])
            &&& termination == PathTermination::MaxHops ==> answer.paths@[p].edges@.len() == query.max_hops
            &&& query.target_repositories@.len() == 0 ==> {
                &&& termination == PathTermination::Leaf ==> forall|next: Seq<char>|
                    !#[trigger] linked(graph, query.direction, nodes.last(), next)
                &&& termination == PathTermination::Cycle ==> (exists|next: Seq<char>| #[trigger]
                    linked(graph, query.direction, nodes.last(), next)) && forall|next: Seq<char>| #[trigger]
                    linked(graph, query.direction, nodes.last(), next) ==> nodes.contains(next)
                &&& termination == PathTermination::MaxHops ==> exists|next: Seq<char>| #[trigger]
                    linked(graph, query.direction, nodes.last(), next) && !nodes.contains(next)
                &&& termination != PathTermination::RepositoryBoundary
            }
        }),
{
    let (full, scope) = choose|full: GraphOutput, scope: PathScope|
        #![trigger full.shows(graph), answer.cuts(full, scope, query, max_steps, acquired)]
        full.shows(graph) && answer.cuts(full, scope, query, max_steps, acquired);
    let begun = opening(scope.incomplete);
    let end = visit(scope, begun, seq![query.start@], Seq::empty());
    assert(all_end_rightly(scope, begun));
    visit_ends_rightly(scope, begun, seq![query.start@], Seq::empty());
    assert(path_models(answer.paths@)[p] == answer.paths@[p]@);
    let path = end.paths[p];
    assert(path.nodes == texts(answer.paths@[p].nodes@) && path.edges == texts(answer.paths@[p].edges@));
    assert(path.edges.len() == answer.paths@[p].edges@.len());
    assert(scope.incomplete == acquired.incomplete@.dom());
    assert(ends_rightly(scope, path));
    neighbours_are_linked(full, graph, query.direction, scope.adjacent);
    if query.target_repositories@.len() == 0 {
        if scope.targets.len() > 0 {
            let t = scope.targets[0]@;
            assert(texts(scope.targets)[0] == t);
            assert(texts(scope.targets).contains(t));
            assert(texts(query.target_repositories@).contains(t));
        }
        nothing_is_completed(scope, path.nodes, path.nodes.len() as int);
        ends_as_linked(graph, scope, query.direction, path);
    }
}

proof fn ends_as_linked(graph: GraphModel, scope: PathScope, direction: GraphDirection, path: PathModel)
    requires
        scope.targets.len() == 0,
        adjoins(graph, direction, scope.adjacent),
    ensures
        scope.neighbours(path.nodes).len() == 0 ==> forall|next: Seq<char>| !#[trigger] linked(graph, direction, path.nodes.last(), next),
        scope.neighbours(path.nodes).len() > 0 ==> exists|next: Seq<char>| #[trigger] linked(graph, direction, path.nodes.last(), next),
        !extends(path.nodes, scope.neighbours(path.nodes)) ==> forall|next: Seq<char>| #[trigger]
            linked(graph, direction, path.nodes.last(), next) ==> path.nodes.contains(next),
        extends(path.nodes, scope.neighbours(path.nodes)) ==> exists|next: Seq<char>| #[trigger]
            linked(graph, direction, path.nodes.last(), next) && !path.nodes.contains(next),
{
    let last = path.nodes.last();
    let list = scope.neighbours(path.nodes);
    neighbours_without_targets(scope, path.nodes);
    assert forall|next: Seq<char>| #[trigger] linked(graph, direction, last, next) implies exists|i: int|
        0 <= i < list.len() && (#[trigger] list[i]).0 == next by {
        let id = choose|id: Seq<char>| #[trigger] scope.adjacent[seq![last]].contains((next, id));
        let i = choose|i: int| 0 <= i < list.len() && list[i] == (next, id);
        assert(list[i].0 == next);
    }
    assert forall|i: int| 0 <= i < list.len() implies linked(graph, direction, last, (#[trigger] list[i]).0) by {
        assert(scope.adjacent[seq![last]].contains((list[i].0, list[i].1)));
    }
    if list.len() > 0 {
        assert(linked(graph, direction, last, list[0].0));
    }
    if extends(path.nodes, list) {
        let i = choose|i: int| 0 <= i < list.len() && !path.nodes.contains((#[trigger] list[i]).0);
        assert(linked(graph, direction, last, list[i].0));
    }
}

/// Every path of a traversal ends at the destination that is asked for, or has visited each of the
/// repositories that are asked for.
pub proof fn traversal_paths_visit_their_repositories<'a>(
    answer: Traversal,
    graph: GraphModel,
    query: TraverseGraphQuery,
    max_steps: u32,
    acquired: Acquisition<'a>,
    p: int,
    t: int,
)
    requires
        answer.answers(graph, query, max_steps, acquired),
        0 <= p < answer.paths@.len(),
        0 <= t < query.target_repositories@.len(),
    ensures
        ({
            let path = answer.paths@[p];
            if path.termination == PathTermination::Destination {
                query.destination is Some && path.nodes@.len() > 0 && path.nodes@.last()@ == query.destination->0@
            } else {
                visits(texts(path.nodes@), query.target_repositories@[t]@)
            }
        }),
{
    let (full, scope) = choose|full: GraphOutput, scope: PathScope|
        #![trigger full.shows(graph), answer.cuts(full, scope, query, max_steps, acquired)]
        full.shows(graph) && answer.cuts(full, scope, query, max_steps, acquired);
    let begun = opening(scope.incomplete);
    let end = visit(scope, begun, seq![query.start@], Seq::empty());
    assert(all_end_rightly(scope, begun));
    visit_ends_rightly(scope, begun, seq![query.start@], Seq::empty());
    traversals_are_sound(scope, query.start@);
    assert(path_models(answer.paths@)[p] == answer.paths@[p]@);
    assert(ends_rightly(scope, end.paths[p]));
    let nodes = texts(answer.paths@[p].nodes@);
    assert(simple_path(scope, end.paths[p].nodes, end.paths[p].edges));
    let target = query.target_repositories@[t]@;
    assert(texts(query.target_repositories@)[t] == target);
    assert(texts(query.target_repositories@).contains(target));
    assert(texts(scope.targets).contains(target));
    let k = choose|k: int| 0 <= k < texts(scope.targets).len() && texts(scope.targets)[k] == target;
    let keys = scope.targets.map_values(|t: String| seq![t@]);
    assert(keys[k] == seq![target]);
    assert(keys.contains(seq![target]));
    assert(scope.wanted().contains(seq![target]));
    if answer.paths@[p].termination != PathTermination::Destination {
        visited_are_visited(scope, nodes, nodes.len() as int, target);
    } else {
        assert(texts(answer.paths@[p].nodes@).last() == answer.paths@[p].nodes@.last()@);
    }
}

spec fn same_acquisition(state: PathState, end: PathState) -> bool {
    end.reasons.acquisition_limit == state.reasons.acquisition_limit
}

proof fn visit_keeps_acquisition(scope: PathScope, state: PathState, nodes: Seq<Seq<char>>, edges: Seq<Seq<char>>)
    ensures
        same_acquisition(state, visit(scope, state, nodes, edges)),
        (state.reasons.max_paths ==> state.paths.len() == scope.max_paths) ==> (visit(scope, state, nodes, edges).reasons.max_paths
            ==> visit(scope, state, nodes, edges).paths.len() == scope.max_paths),
    decreases scope.max_steps - state.steps, 0int,
{
    if !state.reasons.stops() && state.steps < scope.max_steps {
        let counted = PathState { steps: state.steps + 1, ..state };
        if scope.destination != Some(nodes.last()) && !scope.leaves(nodes) {
            let path = PathModel { nodes, edges, termination: PathTermination::RepositoryBoundary };
            let reported = if scope.at_boundary(nodes) {
                scope.emitted(counted, path)
            } else {
                counted
            };
            let list = scope.neighbours(nodes);
            if !reported.reasons.max_paths && list.len() <= scope.max_steps - reported.steps {
                let looked = PathState { steps: reported.steps + list.len(), ..reported };
                if extends(nodes, list) && edges.len() != scope.max_hops {
                    follow_keeps_acquisition(scope, looked, nodes, edges, list, 0);
                }
            }
        }
    }
}

proof fn follow_keeps_acquisition(
    scope: PathScope,
    state: PathState,
    nodes: Seq<Seq<char>>,
    edges: Seq<Seq<char>>,
    list: Seq<Neighbour>,
    k: int,
)
    ensures
        same_acquisition(state, follow(scope, state, nodes, edges, list, k)),
        (state.reasons.max_paths ==> state.paths.len() == scope.max_paths) ==> (follow(scope, state, nodes, edges, list, k).reasons.max_paths
            ==> follow(scope, state, nodes, edges, list, k).paths.len() == scope.max_paths),
    decreases scope.max_steps - state.steps, 1 + list.len() - k,
{
    if k < list.len() && state.steps < scope.max_steps {
        let counted = PathState { steps: state.steps + 1, ..state };
        if nodes.contains(list[k].0) {
            follow_keeps_acquisition(scope, counted, nodes, edges, list, k + 1);
        } else {
            visit_keeps_acquisition(scope, counted, nodes.push(list[k].0), edges.push(list[k].1));
            let after = visit(scope, counted, nodes.push(list[k].0), edges.push(list[k].1));
            if !(after.reasons.stops() || !(state.steps < after.steps <= scope.max_steps)) {
                follow_keeps_acquisition(scope, after, nodes, edges, list, k + 1);
            }
        }
    }
}

/// A traversal says that its rows may not show all there is exactly if not all is known of some
/// entity; and it says that there are more paths only if it has as many as it may.
pub proof fn traversals_tell_what_is_missing<'a>(
    answer: Traversal,
    graph: GraphModel,
    query: TraverseGraphQuery,
    max_steps: u32,
    acquired: Acquisition<'a>,
)
    requires
        answer.answers(graph, query, max_steps, acquired),
    ensures
        answer.reasons.acquisition_limit <==> exists|entity: Seq<Seq<char>>| #[trigger] acquired.incomplete@.contains_key(entity),
        answer.reasons.max_paths ==> answer.paths@.len() == query.max_paths,
{
    let (full, scope) = choose|full: GraphOutput, scope: PathScope|
        #![trigger full.shows(graph), answer.cuts(full, scope, query, max_steps, acquired)]
        full.shows(graph) && answer.cuts(full, scope, query, max_steps, acquired);
    let begun = opening(scope.incomplete);
    visit_keeps_acquisition(scope, begun, seq![query.start@], Seq::empty());
    let incomplete = acquired.incomplete@.dom();
    if exists|entity: Seq<Seq<char>>| #[trigger] acquired.incomplete@.contains_key(entity) {
        let entity = choose|entity: Seq<Seq<char>>| #[trigger] acquired.incomplete@.contains_key(entity);
        assert(incomplete.contains(entity));
    } else {
        assert(incomplete =~= Set::<Seq<Seq<char>>>::empty());
    }
    assert(path_models(answer.paths@).len() == answer.paths@.len());
}

} // verus!
