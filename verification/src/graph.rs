//! Builds the nodes and edges of a query result out of rows.

use crate::domain::{
    entity_kind_names_distinct, entity_kind_text, entity_metadata_names_distinct, entity_metadata_text, parse_entity_kind,
    parse_entity_metadata, parse_relation, relation_name, relation_name_text, relation_names_distinct, EntityMetadata, SemanticRelation,
    StructuralRelation,
};
use crate::dto::{EntityKind, EntityOrigin, EntityRef, EntityRefModel};
use crate::evidence::{copy_texts, evidence_for, evidence_key, evidence_ref, DecodedEvidence, EvidenceModel, EvidenceRef};
use crate::ids::{entity_ref, entity_ref_with_origin, hinted_kind, infer_kind, kind_of_id, kind_priority, node_for, priority, relation_kind_hint};
use crate::rows::{cell_text, higher, higher_of, text, InspectionValue, Row};
use crate::sorted::{ascending, Key, SortedMap};
use crate::text::{decimal, decimal_text, same};
use vstd::prelude::*;

verus! {

/// What is stored of an entity.
pub type Fact = (EntityKind, Option<EntityMetadata>);

/// The node kind of a stored entity; none where the metadata does not suit the kind.
pub open spec fn graph_kind(kind: crate::domain::EntityKind, metadata: Option<EntityMetadata>) -> Option<EntityKind> {
    match (kind, metadata) {
        (crate::domain::EntityKind::Callable, None) => Some(EntityKind::Callable),
        (crate::domain::EntityKind::GraphqlArgument, None) => Some(EntityKind::GraphqlArgument),
        (crate::domain::EntityKind::GraphqlEnumValue, None) => Some(EntityKind::GraphqlEnumValue),
        (crate::domain::EntityKind::GraphqlField, None) => Some(EntityKind::GraphqlField),
        (crate::domain::EntityKind::GraphqlOperation, None) => Some(EntityKind::GraphqlOperation),
        (crate::domain::EntityKind::GraphqlOperation, Some(EntityMetadata::GraphqlOperation { .. })) => Some(
            EntityKind::GraphqlOperation,
        ),
        (crate::domain::EntityKind::GraphqlType, Some(EntityMetadata::GraphqlType { .. })) => Some(EntityKind::GraphqlType),
        (crate::domain::EntityKind::GrpcOperation, None) => Some(EntityKind::Rpc),
        (crate::domain::EntityKind::KafkaTopic, None) => Some(EntityKind::KafkaTopic),
        (crate::domain::EntityKind::Namespace, None) => Some(EntityKind::Namespace),
        (crate::domain::EntityKind::ProtoField, None) => Some(EntityKind::ProtoField),
        (crate::domain::EntityKind::ProtoMethod, Some(EntityMetadata::ProtoMethod { .. })) => Some(EntityKind::Rpc),
        (crate::domain::EntityKind::ProtoService, None) => Some(EntityKind::ProtoService),
        (
            crate::domain::EntityKind::ProtoType,
            Some(EntityMetadata::ProtoType { kind: crate::domain::ProtoTypeKind::Enum }),
        ) => Some(EntityKind::ProtoEnum),
        (
            crate::domain::EntityKind::ProtoType,
            Some(EntityMetadata::ProtoType { kind: crate::domain::ProtoTypeKind::Message }),
        ) => Some(EntityKind::ProtoMessage),
        (crate::domain::EntityKind::Service, None) => Some(EntityKind::Service),
        (crate::domain::EntityKind::UnityPrefab, None) => Some(EntityKind::UnityPrefab),
        _ => None,
    }
}

/// The node kind of a stored entity; none where the metadata does not suit the kind.
fn kind_in_graph(kind: crate::domain::EntityKind, metadata: Option<EntityMetadata>) -> (r: Option<EntityKind>)
    ensures
        r == graph_kind(kind, metadata),
{
    match (kind, metadata) {
        (crate::domain::EntityKind::Callable, None) => Some(EntityKind::Callable),
        (crate::domain::EntityKind::GraphqlArgument, None) => Some(EntityKind::GraphqlArgument),
        (crate::domain::EntityKind::GraphqlEnumValue, None) => Some(EntityKind::GraphqlEnumValue),
        (crate::domain::EntityKind::GraphqlField, None) => Some(EntityKind::GraphqlField),
        (crate::domain::EntityKind::GraphqlOperation, None) => Some(EntityKind::GraphqlOperation),
        (crate::domain::EntityKind::GraphqlOperation, Some(EntityMetadata::GraphqlOperation { .. })) => Some(
            EntityKind::GraphqlOperation,
        ),
        (crate::domain::EntityKind::GraphqlType, Some(EntityMetadata::GraphqlType { .. })) => Some(EntityKind::GraphqlType),
        (crate::domain::EntityKind::GrpcOperation, None) => Some(EntityKind::Rpc),
        (crate::domain::EntityKind::KafkaTopic, None) => Some(EntityKind::KafkaTopic),
        (crate::domain::EntityKind::Namespace, None) => Some(EntityKind::Namespace),
        (crate::domain::EntityKind::ProtoField, None) => Some(EntityKind::ProtoField),
        (crate::domain::EntityKind::ProtoMethod, Some(EntityMetadata::ProtoMethod { .. })) => Some(EntityKind::Rpc),
        (crate::domain::EntityKind::ProtoService, None) => Some(EntityKind::ProtoService),
        (
            crate::domain::EntityKind::ProtoType,
            Some(EntityMetadata::ProtoType { kind: crate::domain::ProtoTypeKind::Enum }),
        ) => Some(EntityKind::ProtoEnum),
        (
            crate::domain::EntityKind::ProtoType,
            Some(EntityMetadata::ProtoType { kind: crate::domain::ProtoTypeKind::Message }),
        ) => Some(EntityKind::ProtoMessage),
        (crate::domain::EntityKind::Service, None) => Some(EntityKind::Service),
        (crate::domain::EntityKind::UnityPrefab, None) => Some(EntityKind::UnityPrefab),
        _ => None,
    }
}

/// Whether a kind and metadata are stored under the given names and suit each other.
pub open spec fn stored_as(kind: crate::domain::EntityKind, metadata: Option<EntityMetadata>, kind_name: Seq<char>, metadata_name: Seq<char>) -> bool {
    &&& entity_kind_text(kind) == kind_name
    &&& entity_metadata_text(metadata) == metadata_name
    &&& graph_kind(kind, metadata) is Some
}

/// What the stored names of a kind and metadata stand for.
pub open spec fn typed_fact(kind_name: Seq<char>, metadata_name: Seq<char>) -> Option<Fact> {
    if exists|k: crate::domain::EntityKind, m: Option<EntityMetadata>| stored_as(k, m, kind_name, metadata_name) {
        let (k, m) = choose|k: crate::domain::EntityKind, m: Option<EntityMetadata>| stored_as(k, m, kind_name, metadata_name);
        Some((graph_kind(k, m)->0, m))
    } else {
        None
    }
}

/// What the stored names of a kind and metadata stand for.
pub fn typed_entity(kind_name: &str, metadata_name: &str) -> (r: Option<Fact>)
    ensures
        r == typed_fact(kind_name@, metadata_name@),
{
    let kind: crate::domain::EntityKind = match parse_entity_kind(kind_name) {
        Ok(kind) => kind,
        Err(_) => {
            return None;
        },
    };
    let metadata: Option<EntityMetadata> = match parse_entity_metadata(metadata_name) {
        Ok(metadata) => metadata,
        Err(_) => {
            return None;
        },
    };
    proof {
        assert forall|k: crate::domain::EntityKind, m: Option<EntityMetadata>|
            stored_as(k, m, kind_name@, metadata_name@) implies k == kind && m == metadata by {
            entity_kind_names_distinct(k, kind);
            entity_metadata_names_distinct(m, metadata);
        }
    }
    match kind_in_graph(kind, metadata) {
        Some(found) => {
            assert(stored_as(kind, metadata, kind_name@, metadata_name@));
            Some((found, metadata))
        },
        None => None,
    }
}

/// What a row states of an entity, or why it does not.
pub open spec fn row_fact(row: Row) -> Result<(Seq<Seq<char>>, Fact), Seq<char>> {
    match (cell_text(row, 0), cell_text(row, 1), cell_text(row, 2)) {
        (None, _, _) => Err("entity id"@ + " must be text"@),
        (Some(_), None, _) => Err("entity kind"@ + " must be text"@),
        (Some(_), Some(_), None) => Err("entity metadata"@ + " must be text"@),
        (Some(id), Some(kind), Some(metadata)) => match typed_fact(kind, metadata) {
            Some(fact) => Ok((seq![id], fact)),
            None => Err("invalid persisted entity fact "@ + kind + " with "@ + metadata),
        },
    }
}

/// What the first `n` rows state of entities, a later row replacing an earlier one; the first
/// row that states nothing makes all of it an error.
pub open spec fn stated_facts(rows: Seq<Vec<InspectionValue>>, n: int) -> Result<Map<Seq<Seq<char>>, Fact>, Seq<char>>
    decreases n,
{
    if n <= 0 {
        Ok(Map::empty())
    } else {
        match stated_facts(rows, n - 1) {
            Ok(known) => match row_fact(rows[n - 1]@) {
                Ok((id, fact)) => Ok(known.insert(id, fact)),
                Err(message) => Err(message),
            },
            Err(message) => Err(message),
        }
    }
}

/// An error among the first rows remains the error of all.
proof fn stated_facts_error(rows: Seq<Vec<InspectionValue>>, k: int, n: int)
    requires
        0 <= k <= n,
        stated_facts(rows, k) is Err,
    ensures
        stated_facts(rows, n) == stated_facts(rows, k),
    decreases n - k,
{
    if k < n {
        stated_facts_error(rows, k, n - 1);
    }
}

fn row_entity(row: &Vec<InspectionValue>) -> (r: Result<(String, Fact), String>)
    ensures
        r is Ok <==> row_fact(row@) is Ok,
        r is Ok ==> row_fact(row@)->Ok_0 == (seq![(r->Ok_0).0@], (r->Ok_0).1),
        r is Err ==> r->Err_0@ == row_fact(row@)->Err_0,
{
    let id: &str = match text(row, 0, "entity id") {
        Ok(id) => id,
        Err(message) => {
            return Err(message);
        },
    };
    let kind: &str = match text(row, 1, "entity kind") {
        Ok(kind) => kind,
        Err(message) => {
            return Err(message);
        },
    };
    let metadata: &str = match text(row, 2, "entity metadata") {
        Ok(metadata) => metadata,
        Err(message) => {
            return Err(message);
        },
    };
    match typed_entity(kind, metadata) {
        Some(fact) => Ok((id.to_owned(), fact)),
        None => {
            let mut message: String = "invalid persisted entity fact ".to_owned();
            message.append(kind);
            message.append(" with ");
            message.append(metadata);
            Err(message)
        },
    }
}

/// What rows of identifiers, kinds and metadata state of entities.
pub fn entity_kinds(rows: &Vec<Vec<InspectionValue>>) -> (r: Result<SortedMap<String, Fact>, String>)
    ensures
        r is Ok <==> stated_facts(rows@, rows@.len() as int) is Ok,
        r is Ok ==> r->Ok_0.wf() && r->Ok_0@ == stated_facts(rows@, rows@.len() as int)->Ok_0,
        r is Err ==> r->Err_0@ == stated_facts(rows@, rows@.len() as int)->Err_0,
{
    let mut facts: SortedMap<String, Fact> = SortedMap::new();
    let mut i: usize = 0;
    while i < rows.len()
        invariant
            i <= rows@.len(),
            facts.wf(),
            stated_facts(rows@, i as int) == Ok::<Map<Seq<Seq<char>>, Fact>, Seq<char>>(facts@),
        decreases rows@.len() - i,
    {
        match row_entity(&rows[i]) {
            Ok((id, fact)) => {
                facts.insert(id, fact);
            },
            Err(message) => {
                proof {
                    stated_facts_error(rows@, i as int + 1, rows@.len() as int);
                }
                return Err(message);
            },
        }
        i = i + 1;
    }
    Ok(facts)
}

/// An edge of a query result.
#[derive(Debug)]
pub struct SemanticEdge {
    pub id: String,
    pub from: String,
    pub to: String,
    pub kind: SemanticRelation,
    pub confidence: u64,
    pub evidence: Vec<EvidenceRef>,
}

/// The content of a [`SemanticEdge`].
pub ghost struct SemanticEdgeModel {
    pub id: Seq<char>,
    pub from: Seq<char>,
    pub to: Seq<char>,
    pub kind: SemanticRelation,
    pub confidence: u64,
    pub evidence: Seq<EvidenceModel>,
}

impl View for SemanticEdge {
    type V = SemanticEdgeModel;

    open spec fn view(&self) -> SemanticEdgeModel {
        SemanticEdgeModel {
            id: self.id@,
            from: self.from@,
            to: self.to@,
            kind: self.kind,
            confidence: self.confidence,
            evidence: self.evidence@.map_values(|e: EvidenceRef| e@),
        }
    }
}

impl SemanticEdge {
    /// A copy with the same content.
    pub fn copy(&self) -> (r: SemanticEdge)
        ensures
            r@ == self@,
    {
        let r: SemanticEdge = SemanticEdge {
            id: self.id.clone(),
            from: self.from.clone(),
            to: self.to.clone(),
            kind: self.kind,
            confidence: self.confidence,
            evidence: copy_evidence(&self.evidence),
        };
        assert(r.evidence@.map_values(|e: EvidenceRef| e@) =~= self.evidence@.map_values(|e: EvidenceRef| e@));
        r
    }
}

/// What is gathered of an edge.
pub struct EdgeData {
    pub from: String,
    pub to: String,
    pub kind: SemanticRelation,
    pub confidence: u64,
    pub evidence: SortedMap<Vec<String>, EvidenceRef>,
}

/// The content of an [`EdgeData`].
pub ghost struct EdgeModel {
    pub from: Seq<char>,
    pub to: Seq<char>,
    pub kind: SemanticRelation,
    pub confidence: int,
    pub evidence: Map<Seq<Seq<char>>, EvidenceModel>,
}

/// The contents of a set of evidence.
pub open spec fn evidence_models(map: Map<Seq<Seq<char>>, EvidenceRef>) -> Map<Seq<Seq<char>>, EvidenceModel> {
    Map::new(|k: Seq<Seq<char>>| map.contains_key(k), |k: Seq<Seq<char>>| map[k]@)
}

/// Evidence stands under its own key.
pub open spec fn keyed_evidence(map: Map<Seq<Seq<char>>, EvidenceModel>) -> bool {
    forall|k: Seq<Seq<char>>| #[trigger] map.contains_key(k) ==> k == evidence_key(map[k])
}

impl View for EdgeData {
    type V = EdgeModel;

    open spec fn view(&self) -> EdgeModel {
        EdgeModel {
            from: self.from@,
            to: self.to@,
            kind: self.kind,
            confidence: self.confidence as int,
            evidence: evidence_models(self.evidence@),
        }
    }
}

/// What edges are told apart and sorted by.
pub open spec fn edge_key(from: Seq<char>, to: Seq<char>, kind: SemanticRelation) -> Seq<Seq<char>> {
    seq![from, to, relation_name_text(kind)]
}

/// The contents of a map of edges.
pub open spec fn edge_models(map: Map<Seq<Seq<char>>, EdgeData>) -> Map<Seq<Seq<char>>, EdgeModel> {
    Map::new(|k: Seq<Seq<char>>| map.contains_key(k), |k: Seq<Seq<char>>| map[k]@)
}

/// The relation of a name.
pub open spec fn relation_of(name: Seq<char>) -> Option<SemanticRelation> {
    if exists|k: SemanticRelation| #[trigger] relation_name_text(k) == name {
        Some(choose|k: SemanticRelation| #[trigger] relation_name_text(k) == name)
    } else {
        None
    }
}

/// A graph under construction.
pub struct GraphBuilder {
    pub edges: SortedMap<Vec<String>, EdgeData>,
    pub facts: SortedMap<String, Fact>,
    pub kinds: SortedMap<String, EntityKind>,
    pub metadata: SortedMap<String, EntityMetadata>,
    pub origins: SortedMap<String, EntityOrigin>,
}

/// The content of a [`GraphBuilder`].
pub ghost struct GraphModel {
    pub edges: Map<Seq<Seq<char>>, EdgeModel>,
    pub facts: Map<Seq<Seq<char>>, Fact>,
    pub kinds: Map<Seq<Seq<char>>, EntityKind>,
    pub metadata: Map<Seq<Seq<char>>, EntityMetadata>,
    pub origins: Map<Seq<Seq<char>>, EntityOrigin>,
}

impl GraphModel {
    /// The empty graph.
    pub open spec fn empty() -> GraphModel {
        GraphModel {
            edges: Map::empty(),
            facts: Map::empty(),
            kinds: Map::empty(),
            metadata: Map::empty(),
            origins: Map::empty(),
        }
    }

    /// The graph with the node, its kind hinted at. What is stored of an entity decides;
    /// otherwise the more telling hint stands.
    pub open spec fn hinted(self, id: Seq<char>, kind: EntityKind) -> GraphModel {
        let key = seq![id];
        if self.facts.contains_key(key) {
            GraphModel {
                kinds: self.kinds.insert(key, self.facts[key].0),
                metadata: match self.facts[key].1 {
                    Some(metadata) => self.metadata.insert(key, metadata),
                    None => self.metadata,
                },
                ..self
            }
        } else {
            let current = if self.kinds.contains_key(key) {
                self.kinds[key]
            } else {
                EntityKind::Unknown
            };
            GraphModel {
                kinds: self.kinds.insert(
                    key,
                    if priority(kind) > priority(current) {
                        kind
                    } else {
                        current
                    },
                ),
                ..self
            }
        }
    }

    /// The graph with one more observation of an edge: the highest confidence stands, and all
    /// evidence is kept. What generated code defines is generated.
    pub open spec fn with_edge(
        self,
        from: Seq<char>,
        to: Seq<char>,
        kind: SemanticRelation,
        evidence: EvidenceModel,
        confidence: int,
        generated: bool,
    ) -> GraphModel {
        let name = relation_name_text(kind);
        let seen = self.hinted(from, hinted_kind(name, true, from)).hinted(to, hinted_kind(name, false, to));
        let key = edge_key(from, to, kind);
        GraphModel {
            origins: if generated && kind == SemanticRelation::Structure(StructuralRelation::Defines) {
                self.origins.insert(seq![to], EntityOrigin::Generated)
            } else if generated && kind == SemanticRelation::Structure(StructuralRelation::FieldOf) {
                self.origins.insert(seq![from], EntityOrigin::Generated)
            } else {
                self.origins
            },
            edges: self.edges.insert(
                key,
                if self.edges.contains_key(key) {
                    EdgeModel {
                        confidence: higher(self.edges[key].confidence, confidence),
                        evidence: self.edges[key].evidence.insert(evidence_key(evidence), evidence),
                        ..self.edges[key]
                    }
                } else {
                    EdgeModel {
                        from,
                        to,
                        kind,
                        confidence,
                        evidence: Map::empty().insert(evidence_key(evidence), evidence),
                    }
                },
            ),
            ..seen
        }
    }
}

/// What is stored of an entity overrides every hint.
pub proof fn facts_override_hints(graph: GraphModel, id: Seq<char>, kind: EntityKind)
    requires
        graph.facts.contains_key(seq![id]),
    ensures
        graph.hinted(id, kind).kinds[seq![id]] == graph.facts[seq![id]].0,
{
}

/// A hint never makes a node's kind less telling.
pub proof fn hints_only_sharpen(graph: GraphModel, id: Seq<char>, kind: EntityKind)
    requires
        graph.kinds.contains_key(seq![id]),
        !graph.facts.contains_key(seq![id]),
    ensures
        priority(graph.hinted(id, kind).kinds[seq![id]]) >= priority(graph.kinds[seq![id]]),
        priority(graph.hinted(id, kind).kinds[seq![id]]) >= priority(kind),
{
}

/// Another observation of an edge keeps the evidence that was there.
pub proof fn edges_keep_their_evidence(
    graph: GraphModel,
    from: Seq<char>,
    to: Seq<char>,
    kind: SemanticRelation,
    evidence: EvidenceModel,
    confidence: int,
    generated: bool,
)
    requires
        graph.edges.contains_key(edge_key(from, to, kind)),
        keyed_evidence(graph.edges[edge_key(from, to, kind)].evidence),
    ensures
        ({
            let old_edge = graph.edges[edge_key(from, to, kind)];
            let new_edge = graph.with_edge(from, to, kind, evidence, confidence, generated).edges[edge_key(from, to, kind)];
            &&& forall|k: Seq<Seq<char>>| #[trigger] old_edge.evidence.contains_key(k) ==> new_edge.evidence.contains_key(k)
                && new_edge.evidence[k] == old_edge.evidence[k]
            &&& new_edge.evidence.contains_key(evidence_key(evidence))
        }),
{
    let old_edge = graph.edges[edge_key(from, to, kind)];
    if old_edge.evidence.contains_key(evidence_key(evidence)) {
        crate::evidence::evidence_key_injective(old_edge.evidence[evidence_key(evidence)], evidence);
    }
}

impl GraphBuilder {
    /// The graph that has been built so far.
    pub open spec fn view(&self) -> GraphModel {
        GraphModel {
            edges: edge_models(self.edges@),
            facts: self.facts@,
            kinds: self.kinds@,
            metadata: self.metadata@,
            origins: self.origins@,
        }
    }

    /// Every edge stands under its own key and joins known nodes.
    pub open spec fn wf(&self) -> bool {
        &&& self.edges.wf()
        &&& self.facts.wf()
        &&& self.kinds.wf()
        &&& self.metadata.wf()
        &&& self.origins.wf()
        &&& forall|k: Seq<Seq<char>>|
            #[trigger] self.edges@.contains_key(k) ==> {
                let edge = self.edges@[k];
                &&& k == edge_key(edge.from@, edge.to@, edge.kind)
                &&& edge.evidence.wf()
                &&& keyed_evidence(edge@.evidence)
                &&& self.kinds@.contains_key(seq![edge.from@])
                &&& self.kinds@.contains_key(seq![edge.to@])
            }
    }

    pub fn new() -> (r: GraphBuilder)
        ensures
            r.wf(),
            r@ == GraphModel::empty(),
    {
        let r: GraphBuilder = GraphBuilder {
            edges: SortedMap::new(),
            facts: SortedMap::new(),
            kinds: SortedMap::new(),
            metadata: SortedMap::new(),
            origins: SortedMap::new(),
        };
        assert(edge_models(r.edges@) =~= Map::empty());
        r
    }

    /// Gives the builder what is stored of entities.
    pub fn hint_facts(&mut self, facts: SortedMap<String, Fact>)
        requires
            old(self).wf(),
            facts.wf(),
        ensures
            final(self).wf(),
            final(self)@ == (GraphModel { facts: facts@, ..old(self)@ }),
    {
        self.facts = facts;
    }

    /// Adds a node, or sharpens its kind.
    pub fn hint(&mut self, id: &str, kind: EntityKind)
        requires
            old(self).wf(),
        ensures
            final(self).wf(),
            final(self)@ == old(self)@.hinted(id@, kind),
            final(self).edges == old(self).edges,
            final(self).kinds@.contains_key(seq![id@]),
            old(self).kinds@.dom().subset_of(final(self).kinds@.dom()),
    {
        let key: String = id.to_owned();
        let stored: Option<Fact> = match self.facts.get(&key) {
            Some(fact) => Some(*fact),
            None => None,
        };
        match stored {
            Some((kind, metadata)) => {
                self.kinds.insert(key.clone(), kind);
                match metadata {
                    Some(metadata) => {
                        self.metadata.insert(key, metadata);
                    },
                    None => {},
                }
            },
            None => {
                let current: EntityKind = match self.kinds.get(&key) {
                    Some(current) => *current,
                    None => EntityKind::Unknown,
                };
                if kind_priority(kind) > kind_priority(current) {
                    self.kinds.insert(key, kind);
                } else {
                    self.kinds.insert(key, current);
                }
            },
        }
    }

    /// Adds an observation of an edge between two nodes. The relation must be one that is
    /// known by its name.
    pub fn add_edge(
        &mut self,
        from: &str,
        to: &str,
        relation: &str,
        evidence: &str,
        decoded: &DecodedEvidence,
        confidence: u64,
        provenance: &str,
    ) -> (r: Result<SemanticRelation, String>)
        requires
            old(self).wf(),
        ensures
            final(self).wf(),
            r is Ok <==> relation_of(relation@) is Some,
            r is Ok ==> r->Ok_0 == relation_of(relation@)->0,
            r is Ok ==> final(self)@ == old(self)@.with_edge(
                from@,
                to@,
                r->Ok_0,
                evidence_for(from@, to@, evidence@, provenance@, decoded@),
                confidence as int,
                provenance@ == "generated"@,
            ),
            r is Err ==> final(self)@ == old(self)@,
            r is Err ==> r->Err_0@ == "unknown stored semantic relation "@ + relation@,
    {
        let kind: SemanticRelation = match parse_relation(relation) {
            Ok(kind) => kind,
            Err(message) => {
                return Err(message);
            },
        };
        proof {
            relation_names_distinct(kind, relation_of(relation@)->0);
        }
        let name: &str = relation_name(kind);
        self.hint(from, relation_kind_hint(name, true, from));
        self.hint(to, relation_kind_hint(name, false, to));
        let generated: bool = same(provenance, "generated");
        if generated {
            match kind {
                SemanticRelation::Structure(StructuralRelation::Defines) => {
                    self.origins.insert(to.to_owned(), EntityOrigin::Generated);
                },
                SemanticRelation::Structure(StructuralRelation::FieldOf) => {
                    self.origins.insert(from.to_owned(), EntityOrigin::Generated);
                },
                _ => {},
            }
        }
        let found: EvidenceRef = evidence_ref(from, to, evidence, provenance, decoded);
        let place: Vec<String> = found.sort_key();
        let mut key: Vec<String> = Vec::new();
        key.push(from.to_owned());
        key.push(to.to_owned());
        key.push(name.to_owned());
        assert(key.key() =~= edge_key(from@, to@, kind));
        let ghost before = self.edges@;
        let ghost ev = found@;
        let ghost at = key.key();
        let ghost seen = self.kinds@;
        let data: EdgeData = match self.edges.remove(&key) {
            Some(edge) => {
                let mut edge: EdgeData = edge;
                let ghost was = edge;
                edge.confidence = higher_of(edge.confidence, confidence);
                edge.evidence.insert(place, found);
                proof {
                    assert(evidence_models(edge.evidence@) =~= evidence_models(was.evidence@).insert(evidence_key(ev), ev));
                }
                edge
            },
            None => {
                let mut all: SortedMap<Vec<String>, EvidenceRef> = SortedMap::new();
                all.insert(place, found);
                proof {
                    assert(evidence_models(all@) =~= Map::empty().insert(evidence_key(ev), ev));
                }
                EdgeData { from: from.to_owned(), to: to.to_owned(), kind, confidence, evidence: all }
            },
        };
        let ghost stored = data;
        self.edges.insert(key, data);
        proof {
            assert(self.edges@ =~= before.insert(at, stored));
            assert(edge_models(self.edges@) =~= edge_models(before).insert(at, stored@));
            assert(edge_models(before) == old(self)@.edges);
            assert forall|k: Seq<Seq<char>>| #[trigger] self.edges@.contains_key(k) implies {
                let edge = self.edges@[k];
                &&& k == edge_key(edge.from@, edge.to@, edge.kind)
                &&& edge.evidence.wf()
                &&& keyed_evidence(edge@.evidence)
                &&& self.kinds@.contains_key(seq![edge.from@])
                &&& self.kinds@.contains_key(seq![edge.to@])
            } by {
                if k != at {
                    assert(before.contains_key(k));
                } else if before.contains_key(at) {
                    assert(old(self).edges@.contains_key(at));
                    let edge = old(self).edges@[at];
                    assert(edge_key(edge.from@, edge.to@, edge.kind)[0] == edge_key(from@, to@, kind)[0]);
                    assert(edge_key(edge.from@, edge.to@, edge.kind)[1] == edge_key(from@, to@, kind)[1]);
                }
            }
        }
        Ok(kind)
    }
}

/// The nodes and edges of a query result.
#[derive(Debug)]
pub struct GraphOutput {
    pub nodes: Vec<EntityRef>,
    pub edges: Vec<SemanticEdge>,
}

/// What nodes are sorted by.
pub open spec fn node_keys(nodes: Seq<EntityRef>) -> Seq<Seq<Seq<char>>> {
    nodes.map_values(|n: EntityRef| seq![n.id@])
}

/// What edges are sorted by.
pub open spec fn edge_keys(edges: Seq<SemanticEdge>) -> Seq<Seq<Seq<char>>> {
    edges.map_values(|e: SemanticEdge| edge_key(e.from@, e.to@, e.kind))
}

/// What evidence is sorted by.
pub open spec fn evidence_keys(evidence: Seq<EvidenceRef>) -> Seq<Seq<Seq<char>>> {
    evidence.map_values(|e: EvidenceRef| evidence_key(e@))
}

/// The entry of a map, if there is one.
pub open spec fn entry_of<V>(map: Map<Seq<Seq<char>>, V>, key: Seq<Seq<char>>) -> Option<V> {
    if map.contains_key(key) {
        Some(map[key])
    } else {
        None
    }
}

/// The node that a graph has for an entity.
pub open spec fn node_in(graph: GraphModel, id: Seq<char>) -> EntityRefModel {
    node_for(id, graph.kinds[seq![id]], entry_of(graph.origins, seq![id]), entry_of(graph.metadata, seq![id]))
}

/// Whether an edge shows all that is gathered of it, its evidence in order.
pub open spec fn edge_shows(edge: SemanticEdge, data: EdgeModel) -> bool {
    &&& edge.from@ == data.from
    &&& edge.to@ == data.to
    &&& edge.kind == data.kind
    &&& edge.confidence == data.confidence
    &&& ascending(evidence_keys(edge.evidence@))
    &&& forall|k: Seq<Seq<char>>| data.evidence.contains_key(k) <==> #[trigger] evidence_keys(edge.evidence@).contains(k)
    &&& forall|i: int|
        0 <= i < edge.evidence@.len() ==> (#[trigger] edge.evidence@[i])@ == data.evidence[evidence_key(
            edge.evidence@[i]@,
        )]
}

impl GraphOutput {
    /// Whether the output shows the graph: nodes and edges in ascending order, each once, the
    /// edges numbered from one.
    #[verifier::opaque]
    pub open spec fn shows(&self, graph: GraphModel) -> bool {
        &&& ascending(node_keys(self.nodes@))
        &&& forall|k: Seq<Seq<char>>| graph.kinds.contains_key(k) <==> #[trigger] node_keys(self.nodes@).contains(k)
        &&& forall|i: int| 0 <= i < self.nodes@.len() ==> (#[trigger] self.nodes@[i])@ == node_in(graph, self.nodes@[i].id@)
        &&& ascending(edge_keys(self.edges@))
        &&& forall|k: Seq<Seq<char>>| graph.edges.contains_key(k) <==> #[trigger] edge_keys(self.edges@).contains(k)
        &&& forall|i: int|
            0 <= i < self.edges@.len() ==> {
                &&& (#[trigger] self.edges@[i]).id@ == "e"@ + decimal((i + 1) as nat)
                &&& edge_shows(self.edges@[i], graph.edges[edge_keys(self.edges@)[i]])
            }
    }

    /// The node for an entity; one made up from the identifier where the result has none.
    pub fn entity(&self, id: &str) -> (r: EntityRef)
        ensures
            r@ == (match first_node(self.nodes@, id@, 0) {
                Some(i) => self.nodes@[i]@,
                None => node_for(id@, kind_of_id(id@), None, None),
            }),
    {
        let mut i: usize = 0;
        while i < self.nodes.len()
            invariant
                i <= self.nodes@.len(),
                first_node(self.nodes@, id@, 0) == first_node(self.nodes@, id@, i as int),
            decreases self.nodes@.len() - i,
        {
            if same(self.nodes[i].id.as_str(), id) {
                return self.nodes[i].copy();
            }
            i = i + 1;
        }
        entity_ref(id, infer_kind(id))
    }
}

/// Where the first node from position `k` on with the identifier stands.
pub open spec fn first_node(nodes: Seq<EntityRef>, id: Seq<char>, k: int) -> Option<int>
    decreases nodes.len() - k,
{
    if k >= nodes.len() {
        None
    } else if nodes[k].id@ == id {
        Some(k)
    } else {
        first_node(nodes, id, k + 1)
    }
}

/// A node with the identifier is found where there is one.
pub proof fn first_node_found(nodes: Seq<EntityRef>, id: Seq<char>, k: int, i: int)
    requires
        0 <= k <= i < nodes.len(),
        nodes[i].id@ == id,
    ensures
        first_node(nodes, id, k) is Some,
        0 <= first_node(nodes, id, k)->0 < nodes.len(),
        nodes[first_node(nodes, id, k)->0].id@ == id,
    decreases nodes.len() - k,
{
    if nodes[k].id@ != id {
        first_node_found(nodes, id, k + 1, i);
    }
}

/// The output shows each node of the graph as the graph has it.
pub proof fn shown_node(output: GraphOutput, graph: GraphModel, id: Seq<char>)
    requires
        output.shows(graph),
        graph.kinds.contains_key(seq![id]),
    ensures
        first_node(output.nodes@, id, 0) is Some,
        0 <= first_node(output.nodes@, id, 0)->0 < output.nodes@.len(),
        output.nodes@[first_node(output.nodes@, id, 0)->0]@ == node_in(graph, id),
{
    reveal(GraphOutput::shows);
    let keys = node_keys(output.nodes@);
    assert(keys.contains(seq![id]));
    let i = choose|i: int| 0 <= i < keys.len() && keys[i] == seq![id];
    assert(keys[i][0] == output.nodes@[i].id@);
    first_node_found(output.nodes@, id, 0, i);
}

impl EvidenceRef {
    /// A copy with the same content.
    pub fn copy(&self) -> (r: EvidenceRef)
        ensures
            r@ == self@,
    {
        EvidenceRef {
            source_kind: self.source_kind,
            repository: crate::dto::copy_text(&self.repository),
            path: crate::dto::copy_text(&self.path),
            line: self.line,
            range: self.range,
            detail: crate::dto::copy_text(&self.detail),
            contexts: copy_texts(&self.contexts),
        }
    }
}

/// Copies evidence in order.
fn copy_evidence(list: &Vec<EvidenceRef>) -> (r: Vec<EvidenceRef>)
    ensures
        r@.len() == list@.len(),
        forall|i: int| 0 <= i < r@.len() ==> (#[trigger] r@[i])@ == list@[i]@,
{
    let mut out: Vec<EvidenceRef> = Vec::new();
    let mut i: usize = 0;
    while i < list.len()
        invariant
            i <= list@.len(),
            out@.len() == i,
            forall|j: int| 0 <= j < i ==> (#[trigger] out@[j])@ == list@[j]@,
        decreases list@.len() - i,
    {
        out.push(list[i].copy());
        i = i + 1;
    }
    out
}

impl GraphBuilder {
    /// One edge of the output.
    fn edge_at(&self, i: usize) -> (r: SemanticEdge)
        requires
            self.wf(),
            i < self.edges.keys@.len(),
        ensures
            r.id@ == "e"@ + decimal((i + 1) as nat),
            edge_key(r.from@, r.to@, r.kind) == self.edges.listing()[i as int],
            edge_shows(r, self@.edges[self.edges.listing()[i as int]]),
    {
        let count: usize = self.edges.keys.len();
        let mut id: String = "e".to_owned();
        id.append(decimal_text((i + 1) as u64).as_str());
        let data: &EdgeData = &self.edges.values[i];
        let evidence: Vec<EvidenceRef> = copy_evidence(&data.evidence.values);
        proof {
            self.edges.entry(i as int);
            let key = self.edges.listing()[i as int];
            assert(self.edges@.contains_key(key));
            assert(self@.edges[key] == data@);
            assert forall|j: int| 0 <= j < evidence@.len() implies evidence_key((#[trigger] evidence@[j])@) == data.evidence.listing()[j]
                && data@.evidence[data.evidence.listing()[j]] == evidence@[j]@ by {
                data.evidence.entry(j);
                assert(data@.evidence.contains_key(data.evidence.listing()[j]));
            }
            assert(evidence_keys(evidence@) =~= data.evidence.listing());
            assert forall|k: Seq<Seq<char>>| data@.evidence.contains_key(k) <==> #[trigger] evidence_keys(evidence@).contains(k) by {
                if data@.evidence.contains_key(k) {
                    let j = data.evidence.position(k);
                    assert(data.evidence.listing()[j] == k);
                }
                if evidence_keys(evidence@).contains(k) {
                    let j = choose|j: int| 0 <= j < evidence_keys(evidence@).len() && evidence_keys(evidence@)[j] == k;
                    data.evidence.entry(j);
                }
            }
        }
        SemanticEdge {
            id,
            from: data.from.clone(),
            to: data.to.clone(),
            kind: data.kind,
            confidence: data.confidence,
            evidence,
        }
    }

    /// The nodes of the output.
    fn output_nodes(&self) -> (r: Vec<EntityRef>)
        requires
            self.wf(),
        ensures
            node_keys(r@) == self.kinds.listing(),
            forall|i: int| 0 <= i < r@.len() ==> (#[trigger] r@[i])@ == node_in(self@, r@[i].id@),
    {
        let mut nodes: Vec<EntityRef> = Vec::new();
        let mut i: usize = 0;
        while i < self.kinds.keys.len()
            invariant
                self.wf(),
                i <= self.kinds.keys@.len(),
                node_keys(nodes@) =~= self.kinds.listing().take(i as int),
                forall|j: int| 0 <= j < nodes@.len() ==> (#[trigger] nodes@[j])@ == node_in(self@, nodes@[j].id@),
            decreases self.kinds.keys@.len() - i,
        {
            let ghost before = nodes@;
            let id: &String = &self.kinds.keys[i];
            proof {
                self.kinds.entry(i as int);
            }
            let origin: Option<EntityOrigin> = match self.origins.get(id) {
                Some(origin) => Some(*origin),
                None => None,
            };
            let metadata: Option<EntityMetadata> = match self.metadata.get(id) {
                Some(metadata) => Some(*metadata),
                None => None,
            };
            let node: EntityRef = entity_ref_with_origin(id.as_str(), self.kinds.values[i], origin, metadata);
            nodes.push(node);
            proof {
                assert(node@ == node_in(self@, id@));
                assert(node.id@ == node@.id);
                assert(node_keys(nodes@) =~= node_keys(before).push(seq![node.id@]));
                assert(self.kinds.listing().take(i as int + 1) =~= self.kinds.listing().take(i as int).push(
                    self.kinds.listing()[i as int],
                ));
            }
            i = i + 1;
        }
        assert(self.kinds.listing().take(self.kinds.keys@.len() as int) =~= self.kinds.listing());
        nodes
    }

    /// The nodes and edges that have been gathered.
    pub fn finish(self) -> (r: GraphOutput)
        requires
            self.wf(),
        ensures
            r.shows(self@),
    {
        let nodes: Vec<EntityRef> = self.output_nodes();
        let mut edges: Vec<SemanticEdge> = Vec::new();
        let mut i: usize = 0;
        while i < self.edges.keys.len()
            invariant
                self.wf(),
                i <= self.edges.keys@.len(),
                edge_keys(edges@) =~= self.edges.listing().take(i as int),
                forall|j: int|
                    0 <= j < edges@.len() ==> {
                        &&& (#[trigger] edges@[j]).id@ == "e"@ + decimal((j + 1) as nat)
                        &&& edge_shows(edges@[j], self@.edges[self.edges.listing()[j]])
                    },
            decreases self.edges.keys@.len() - i,
        {
            let ghost before = edges@;
            let edge: SemanticEdge = self.edge_at(i);
            edges.push(edge);
            proof {
                assert(edge_keys(edges@) =~= edge_keys(before).push(self.edges.listing()[i as int]));
                assert(self.edges.listing().take(i as int + 1) =~= self.edges.listing().take(i as int).push(
                    self.edges.listing()[i as int],
                ));
            }
            i = i + 1;
        }
        proof {
            assert(self.edges.listing().take(self.edges.keys@.len() as int) =~= self.edges.listing());
            assert forall|k: Seq<Seq<char>>| self@.kinds.contains_key(k) <==> #[trigger] node_keys(nodes@).contains(k) by {
                if self.kinds@.contains_key(k) {
                    let j = self.kinds.position(k);
                    assert(self.kinds.listing()[j] == k);
                }
                if node_keys(nodes@).contains(k) {
                    let j = choose|j: int| 0 <= j < self.kinds.listing().len() && self.kinds.listing()[j] == k;
                    self.kinds.entry(j);
                }
            }
            assert forall|k: Seq<Seq<char>>| self@.edges.contains_key(k) <==> #[trigger] edge_keys(edges@).contains(k) by {
                if self@.edges.contains_key(k) {
                    assert(self.edges@.contains_key(k));
                    let j = self.edges.position(k);
                    assert(self.edges.listing()[j] == k);
                }
                if edge_keys(edges@).contains(k) {
                    let j = choose|j: int| 0 <= j < self.edges.listing().len() && self.edges.listing()[j] == k;
                    self.edges.entry(j);
                }
            }
        }
        let output: GraphOutput = GraphOutput { nodes, edges };
        proof {
            reveal(GraphOutput::shows);
        }
        output
    }
}

/// What is known of an entity is what the last row about it states: its metadata are those whose
/// stored name stands there, and its kind is the one in a graph of the stored kind. Nothing is
/// known of an entity that no row is about.
pub proof fn facts_are_those_of_the_last_row(rows: Seq<Vec<InspectionValue>>, n: int, id: Seq<char>)
    requires
        0 <= n <= rows.len(),
        stated_facts(rows, n) is Ok,
    ensures
        stated_facts(rows, n)->Ok_0.contains_key(seq![id]) <==> exists|i: int|
            0 <= i < n && cell_text((#[trigger] rows[i])@, 0) == Some(id),
        forall|i: int|
            0 <= i < n && cell_text((#[trigger] rows[i])@, 0) == Some(id) && (forall|j: int|
                i < j < n ==> cell_text((#[trigger] rows[j])@, 0) != Some(id)) ==> {
                let fact = stated_facts(rows, n)->Ok_0[seq![id]];
                &&& cell_text(rows[i]@, 2) == Some(entity_metadata_text(fact.1))
                &&& exists|kind: crate::domain::EntityKind|
                    cell_text(rows[i]@, 1) == Some(#[trigger] entity_kind_text(kind)) && graph_kind(kind, fact.1) == Some(fact.0)
            },
    decreases n,
{
    assert(seq![id][0] == id);
    if n > 0 {
        facts_are_those_of_the_last_row(rows, n - 1, id);
        let known = stated_facts(rows, n - 1)->Ok_0;
        let facts = stated_facts(rows, n)->Ok_0;
        let row = rows[n - 1]@;
        let (key, fact) = row_fact(row)->Ok_0;
        let own = cell_text(row, 0)->0;
        assert(key == seq![own] && seq![own][0] == own);
        assert forall|i: int|
            0 <= i < n && cell_text((#[trigger] rows[i])@, 0) == Some(id) && (forall|j: int|
                i < j < n ==> cell_text((#[trigger] rows[j])@, 0) != Some(id)) implies {
            let fact = facts[seq![id]];
            &&& cell_text(rows[i]@, 2) == Some(entity_metadata_text(fact.1))
            &&& exists|kind: crate::domain::EntityKind|
                cell_text(rows[i]@, 1) == Some(#[trigger] entity_kind_text(kind)) && graph_kind(kind, fact.1) == Some(fact.0)
        } by {
            if i == n - 1 {
                let kind_name = cell_text(row, 1)->0;
                let metadata_name = cell_text(row, 2)->0;
                let (k, m) = choose|k: crate::domain::EntityKind, m: Option<EntityMetadata>| stored_as(k, m, kind_name, metadata_name);
                assert(stored_as(k, m, kind_name, metadata_name));
                assert(entity_kind_text(k) == kind_name);
            } else {
                assert(cell_text(rows[n - 1]@, 0) != Some(id));
                assert(facts[seq![id]] == known[seq![id]]);
                assert forall|j: int| i < j < n - 1 implies cell_text((#[trigger] rows[j])@, 0) != Some(id) by {}
            }
        }
    }
}

} // verus!
