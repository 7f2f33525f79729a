//! The direct relations of an entity, gathered from where they are stored.

use crate::command::{bind_text, bindings, ArgumentModel, Binding, CellModel, Command, CommandModel};
use crate::dependency::decoded_dependency;
use crate::evidence::{fixed, fixed_text};
use crate::query::{MnesticQuery, QueryError};
use crate::rows::{is_nan, number_rank, InspectionValue, Row};
use crate::scripts::{Rules, TOPOLOGY};
use crate::semantic::ContextRow;
use crate::seqs::{keep, keep_step, reversed};
use crate::sorted::{in_order, keys, sorted, texts, Key, SortedMap};
use crate::text::{same, Order};
use vstd::prelude::*;

verus! {

/// A relation of an entity.
pub ghost struct ContextModel {
    pub direction: Seq<char>,
    pub relation: Seq<char>,
    pub related: Seq<char>,
    pub evidence: Seq<char>,
    pub confidence: u64,
    pub provenance: Seq<char>,
}

impl View for ContextRow {
    type V = ContextModel;

    open spec fn view(&self) -> ContextModel {
        ContextModel {
            direction: self.direction@,
            relation: self.relation@,
            related: self.related@,
            evidence: self.evidence@,
            confidence: self.confidence,
            provenance: self.provenance@,
        }
    }
}

/// The columns of a context.
pub open spec fn context_headers() -> Seq<Seq<char>> {
    seq!["direction"@, "relation"@, "related"@, "evidence"@, "confidence"@, "provenance"@]
}

/// The columns of a context.
pub fn context_header_list() -> (r: Vec<String>)
    ensures
        texts(r@) == context_headers(),
{
    let mut list: Vec<String> = Vec::new();
    list.push("direction".to_owned());
    list.push("relation".to_owned());
    list.push("related".to_owned());
    list.push("evidence".to_owned());
    list.push("confidence".to_owned());
    list.push("provenance".to_owned());
    assert(texts(list@) =~= context_headers());
    list
}

/// The relation that a row states, or what is wrong with the first column that is not right.
pub open spec fn decoded_context(row: Row) -> Result<ContextModel, Seq<char>> {
    match decoded_dependency(context_headers(), row, 0) {
        Ok(columns) => Ok(
            ContextModel {
                direction: columns.from,
                relation: columns.to,
                related: columns.relation,
                evidence: columns.evidence,
                confidence: columns.confidence as u64,
                provenance: columns.provenance,
            },
        ),
        Err(detail) => Err(detail),
    }
}

/// Reads the relation that a row states.
pub fn decode_context(operation: &'static str, row: &Vec<InspectionValue>) -> (r: Result<ContextRow, QueryError>)
    ensures
        r is Ok <==> decoded_context(row@) is Ok,
        r is Ok ==> r->Ok_0@ == decoded_context(row@)->Ok_0,
        r is Err ==> r->Err_0.operation@ == operation@,
        r is Err ==> r->Err_0.detail@ == decoded_context(row@)->Err_0,
{
    let headers: Vec<String> = context_header_list();
    assert(headers@.len() == texts(headers@).len());
    match crate::dependency::decode_resolved_dependency(operation, &headers, row, 0) {
        Ok(columns) => Ok(
            ContextRow {
                direction: columns.from,
                relation: columns.to,
                related: columns.relation,
                evidence: columns.evidence,
                confidence: columns.confidence,
                provenance: columns.provenance,
            },
        ),
        Err(error) => Err(error),
    }
}

/// The query for the dependencies of an entity.
pub struct MaterializedContextDependencies;

impl MnesticQuery for MaterializedContextDependencies {
    type Row = ContextRow;

    type Model = ContextModel;

    open spec fn model(row: ContextRow) -> ContextModel {
        row@
    }

    open spec fn operation_text() -> Seq<char> {
        "context.dependencies"@
    }

    open spec fn header_texts() -> Seq<Seq<char>> {
        context_headers()
    }

    open spec fn decoded(row: Row) -> Result<ContextModel, Seq<char>> {
        decoded_context(row)
    }

    fn operation() -> (r: &'static str) {
        "context.dependencies"
    }

    fn headers() -> (r: Vec<String>) {
        context_header_list()
    }

    fn decode(row: Vec<InspectionValue>) -> (r: Result<ContextRow, QueryError>) {
        decode_context(Self::operation(), &row)
    }
}

/// The query for the structure around an entity in repository states.
pub struct StateStructuralContext;

impl MnesticQuery for StateStructuralContext {
    type Row = ContextRow;

    type Model = ContextModel;

    open spec fn model(row: ContextRow) -> ContextModel {
        row@
    }

    open spec fn operation_text() -> Seq<char> {
        "context.structural.state"@
    }

    open spec fn header_texts() -> Seq<Seq<char>> {
        context_headers()
    }

    open spec fn decoded(row: Row) -> Result<ContextModel, Seq<char>> {
        decoded_context(row)
    }

    fn operation() -> (r: &'static str) {
        "context.structural.state"
    }

    fn headers() -> (r: Vec<String>) {
        context_header_list()
    }

    fn decode(row: Vec<InspectionValue>) -> (r: Result<ContextRow, QueryError>) {
        decode_context(Self::operation(), &row)
    }
}

/// The query for the structure around an entity in fact shards.
pub struct FactShardStructuralContext;

impl MnesticQuery for FactShardStructuralContext {
    type Row = ContextRow;

    type Model = ContextModel;

    open spec fn model(row: ContextRow) -> ContextModel {
        row@
    }

    open spec fn operation_text() -> Seq<char> {
        "context.structural.fact_shard"@
    }

    open spec fn header_texts() -> Seq<Seq<char>> {
        context_headers()
    }

    open spec fn decoded(row: Row) -> Result<ContextModel, Seq<char>> {
        decoded_context(row)
    }

    fn operation() -> (r: &'static str) {
        "context.structural.fact_shard"
    }

    fn headers() -> (r: Vec<String>) {
        context_header_list()
    }

    fn decode(row: Vec<InspectionValue>) -> (r: Result<ContextRow, QueryError>) {
        decode_context(Self::operation(), &row)
    }
}

/// The query for the structure around an entity in the revision.
pub struct RevisionStructuralContext;

impl MnesticQuery for RevisionStructuralContext {
    type Row = ContextRow;

    type Model = ContextModel;

    open spec fn model(row: ContextRow) -> ContextModel {
        row@
    }

    open spec fn operation_text() -> Seq<char> {
        "context.structural.revision"@
    }

    open spec fn header_texts() -> Seq<Seq<char>> {
        context_headers()
    }

    open spec fn decoded(row: Row) -> Result<ContextModel, Seq<char>> {
        decoded_context(row)
    }

    fn operation() -> (r: &'static str) {
        "context.structural.revision"
    }

    fn headers() -> (r: Vec<String>) {
        context_header_list()
    }

    fn decode(row: Vec<InspectionValue>) -> (r: Result<ContextRow, QueryError>) {
        decode_context(Self::operation(), &row)
    }
}

/// The query for the structure around an entity in enrichments.
pub struct EnrichmentStructuralContext;

impl MnesticQuery for EnrichmentStructuralContext {
    type Row = ContextRow;

    type Model = ContextModel;

    open spec fn model(row: ContextRow) -> ContextModel {
        row@
    }

    open spec fn operation_text() -> Seq<char> {
        "context.structural.enrichment"@
    }

    open spec fn header_texts() -> Seq<Seq<char>> {
        context_headers()
    }

    open spec fn decoded(row: Row) -> Result<ContextModel, Seq<char>> {
        decoded_context(row)
    }

    fn operation() -> (r: &'static str) {
        "context.structural.enrichment"
    }

    fn headers() -> (r: Vec<String>) {
        context_header_list()
    }

    fn decode(row: Vec<InspectionValue>) -> (r: Result<ContextRow, QueryError>) {
        decode_context(Self::operation(), &row)
    }
}

/// The query for all relations in a workspace; its rows are taken as they are.
pub struct WorkspaceTopologyQuery;

impl MnesticQuery for WorkspaceTopologyQuery {
    type Row = Vec<InspectionValue>;

    type Model = Row;

    open spec fn model(row: Vec<InspectionValue>) -> Row {
        row@
    }

    open spec fn operation_text() -> Seq<char> {
        "workspace_topology"@
    }

    open spec fn header_texts() -> Seq<Seq<char>> {
        crate::dependency::dependency_headers()
    }

    open spec fn decoded(row: Row) -> Result<Row, Seq<char>> {
        Ok(row)
    }

    fn operation() -> (r: &'static str) {
        "workspace_topology"
    }

    fn headers() -> (r: Vec<String>) {
        crate::dependency::dependency_header_list()
    }

    fn decode(row: Vec<InspectionValue>) -> (r: Result<Vec<InspectionValue>, QueryError>) {
        Ok(row)
    }
}

/// Asks for all relations in a workspace.
pub fn ask_topology(rules: &Rules, view: &str) -> (r: Command)
    ensures
        r@ == (CommandModel {
            script: rules.direct@ + TOPOLOGY@,
            arguments: seq![("view"@, ArgumentModel::One(CellModel::Text(view@)))],
        }),
{
    let mut script: String = rules.direct.clone();
    script.append(TOPOLOGY);
    let mut arguments: Vec<Binding> = Vec::new();
    arguments.push(bind_text("view", view));
    assert(bindings(arguments@) =~= seq![("view"@, ArgumentModel::One(CellModel::Text(view@)))]);
    Command { script, arguments }
}

/// Where relations of an entity are stored.
#[derive(Clone, Copy, PartialEq, Eq, Structural, Debug)]
pub enum ContextSource {
    Dependencies,
    State,
    FactShard,
    Revision,
    Enrichment,
}

/// The rules that find relations of an entity in a place.
pub open spec fn context_rules(rules: Rules, source: ContextSource) -> Seq<char> {
    match source {
        ContextSource::Dependencies => rules.context@,
        ContextSource::State => rules.context_structural_state@,
        ContextSource::FactShard => rules.context_structural_fact_shard@,
        ContextSource::Revision => rules.context_structural_revision@,
        ContextSource::Enrichment => rules.context_structural_enrichment@,
    }
}

/// What a query for the context of an entity is about.
#[derive(Debug)]
pub struct ContextParams {
    pub entity: String,
}

pub fn context_params(entity: &str) -> (r: ContextParams)
    ensures
        r.entity@ == entity@,
{
    ContextParams { entity: entity.to_owned() }
}

/// Asks for the relations of an entity.
pub fn ask_context(rules: &Rules, source: ContextSource, view: &str, params: &ContextParams) -> (r: Command)
    ensures
        r@ == (CommandModel {
            script: context_rules(*rules, source),
            arguments: seq![
                ("view"@, ArgumentModel::One(CellModel::Text(view@))),
                ("entity"@, ArgumentModel::One(CellModel::Text(params.entity@))),
            ],
        }),
{
    let script: String = match source {
        ContextSource::Dependencies => rules.context.clone(),
        ContextSource::State => rules.context_structural_state.clone(),
        ContextSource::FactShard => rules.context_structural_fact_shard.clone(),
        ContextSource::Revision => rules.context_structural_revision.clone(),
        ContextSource::Enrichment => rules.context_structural_enrichment.clone(),
    };
    let mut arguments: Vec<Binding> = Vec::new();
    arguments.push(bind_text("view", view));
    arguments.push(bind_text("entity", params.entity.as_str()));
    assert(bindings(arguments@) =~= seq![
        ("view"@, ArgumentModel::One(CellModel::Text(view@))),
        ("entity"@, ArgumentModel::One(CellModel::Text(params.entity@))),
    ]);
    Command { script, arguments }
}

/// By what a relation is told from others, whatever its confidence and provenance.
pub open spec fn edge_key(row: ContextModel) -> Seq<Seq<char>> {
    seq![row.direction, row.relation, row.related, row.evidence]
}

/// Where a double stands in the total order of the doubles.
pub open spec fn total_rank(bits: u64) -> int {
    if bits >= 0x8000_0000_0000_0000 {
        0xFFFF_FFFF_FFFF_FFFF - bits
    } else {
        bits + 0x8000_0000_0000_0000
    }
}

/// By what relations are ordered.
pub open spec fn context_key(row: ContextModel) -> Seq<Seq<char>> {
    seq![
        row.direction,
        row.relation,
        row.related,
        row.evidence,
        fixed((total_rank(row.confidence) / 0x1_0000_0000) as nat, 10),
        fixed((total_rank(row.confidence) % 0x1_0000_0000) as nat, 10),
        row.provenance,
    ]
}

impl ContextRow {
    /// By what the relation is told from others.
    pub fn edge_key(&self) -> (r: Vec<String>)
        ensures
            texts(r@) == edge_key(self@),
    {
        let mut key: Vec<String> = Vec::new();
        key.push(self.direction.clone());
        key.push(self.relation.clone());
        key.push(self.related.clone());
        key.push(self.evidence.clone());
        assert(texts(key@) =~= edge_key(self@));
        key
    }

    fn sort_key(&self) -> (r: Vec<String>)
        ensures
            texts(r@) == context_key(self@),
    {
        let sign: u64 = 0x8000_0000_0000_0000;
        let rank: u64 = if self.confidence >= sign {
            0xFFFF_FFFF_FFFF_FFFF - self.confidence
        } else {
            self.confidence + sign
        };
        let mut key: Vec<String> = self.edge_key();
        let ghost front = key@;
        key.push(fixed_text((rank / 0x1_0000_0000) as u32, 10));
        key.push(fixed_text((rank % 0x1_0000_0000) as u32, 10));
        key.push(self.provenance.clone());
        assert(texts(key@) =~= context_key(self@)) by {
            assert(texts(front) == edge_key(self@));
            assert(texts(front).len() == front.len());
            assert forall|i: int| 0 <= i < 7 implies #[trigger] texts(key@)[i] == context_key(self@)[i] by {
                if i < 4 {
                    assert(key@[i] == front[i]);
                    assert(texts(front)[i] == front[i]@);
                }
            }
        }
        key
    }
}

impl Key for ContextRow {
    open spec fn key(&self) -> Seq<Seq<char>> {
        context_key(self@)
    }

    fn compare(&self, other: &ContextRow) -> (r: Order) {
        let a: Vec<String> = self.sort_key();
        let b: Vec<String> = other.sort_key();
        a.compare(&b)
    }
}

/// Whether two numbers are equal; one that is no number equals none.
pub open spec fn same_number(a: u64, b: u64) -> bool {
    !is_nan(a as int) && !is_nan(b as int) && number_rank(a as int) == number_rank(b as int)
}

/// Whether two relations are equal.
pub open spec fn same_relation(a: ContextModel, b: ContextModel) -> bool {
    &&& edge_key(a) == edge_key(b)
    &&& same_number(a.confidence, b.confidence)
    &&& a.provenance == b.provenance
}

fn equal(a: &ContextRow, b: &ContextRow) -> (r: bool)
    ensures
        r == same_relation(a@, b@),
{
    let sign: u64 = 0x8000_0000_0000_0000;
    let top: u64 = 0x7FF0_0000_0000_0000;
    let numbers: bool = a.confidence % sign <= top && b.confidence % sign <= top && (a.confidence == b.confidence || (a.confidence
        % sign == 0 && b.confidence % sign == 0));
    let texts_agree: bool = same(a.direction.as_str(), b.direction.as_str()) && same(a.relation.as_str(), b.relation.as_str()) && same(
        a.related.as_str(),
        b.related.as_str(),
    ) && same(a.evidence.as_str(), b.evidence.as_str());
    proof {
        let ka = edge_key(a@);
        let kb = edge_key(b@);
        if ka == kb {
            assert(ka[0] == kb[0] && ka[1] == kb[1] && ka[2] == kb[2] && ka[3] == kb[3]);
        }
    }
    texts_agree && numbers && same(a.provenance.as_str(), b.provenance.as_str())
}

/// A list of relations without those that equal the one kept before them.
pub open spec fn deduplicated(list: Seq<ContextRow>) -> Seq<ContextRow>
    decreases list.len(),
{
    if list.len() == 0 {
        Seq::empty()
    } else {
        let before = deduplicated(list.drop_last());
        if before.len() > 0 && same_relation(before.last()@, list.last()@) {
            before
        } else {
            before.push(list.last())
        }
    }
}

fn deduplicate(list: Vec<ContextRow>) -> (r: Vec<ContextRow>)
    ensures
        r@ == deduplicated(list@),
{
    let ghost all = list@;
    let mut rest: Vec<ContextRow> = reversed(list);
    let mut kept: Vec<ContextRow> = Vec::new();
    let ghost mut k: int = 0;
    assert(all.take(0) =~= Seq::<ContextRow>::empty());
    while rest.len() > 0
        invariant
            0 <= k <= all.len(),
            rest@.len() == all.len() - k,
            forall|j: int| 0 <= j < rest@.len() ==> #[trigger] rest@[j] == all[all.len() - 1 - j],
            kept@ == deduplicated(all.take(k)),
        decreases rest@.len(),
    {
        match rest.pop() {
            Some(row) => {
                proof {
                    assert(row == all[k]);
                    assert(all.take(k + 1).drop_last() =~= all.take(k));
                    assert(all.take(k + 1).last() == row);
                    k = k + 1;
                }
                let n: usize = kept.len();
                let again: bool = n > 0 && equal(&kept[n - 1], &row);
                if !again {
                    kept.push(row);
                }
            },
            None => {},
        }
    }
    assert(all.take(all.len() as int) =~= all);
    kept
}

/// The keys of some relations.
pub open spec fn edge_keys(rows: Seq<ContextRow>) -> Set<Seq<Seq<char>>> {
    Set::new(|k: Seq<Seq<char>>| exists|i: int| 0 <= i < rows.len() && k == edge_key((#[trigger] rows[i])@))
}

/// Adds the keys of some relations to a set.
fn add_keys(known: &mut SortedMap<Vec<String>, ()>, rows: &Vec<ContextRow>)
    requires
        old(known).wf(),
    ensures
        final(known).wf(),
        final(known)@.dom() == old(known)@.dom().union(edge_keys(rows@)),
{
    let ghost before = known@.dom();
    let ghost list = rows@;
    let mut i: usize = 0;
    assert(before.union(edge_keys(list.take(0))) =~= before);
    while i < rows.len()
        invariant
            i <= rows@.len(),
            list == rows@,
            known.wf(),
            known@.dom() == before.union(edge_keys(list.take(i as int))),
        decreases rows@.len() - i,
    {
        let key: Vec<String> = rows[i].edge_key();
        let ghost k0 = edge_key(list[i as int]@);
        assert(key.key() == k0);
        known.insert(key, ());
        proof {
            let less = list.take(i as int);
            let more = list.take(i as int + 1);
            assert forall|k: Seq<Seq<char>>| edge_keys(more).contains(k) <==> edge_keys(less).insert(k0).contains(k) by {
                if edge_keys(more).contains(k) {
                    let j = choose|j: int| 0 <= j < more.len() && k == edge_key((#[trigger] more[j])@);
                    if j < i {
                        assert(less[j] == more[j]);
                    }
                }
                if edge_keys(less).contains(k) {
                    let j = choose|j: int| 0 <= j < less.len() && k == edge_key((#[trigger] less[j])@);
                    assert(more[j] == less[j]);
                }
                if k == k0 {
                    assert(more[i as int] == list[i as int]);
                }
            }
            assert(known@.dom() =~= before.union(edge_keys(more)));
        }
        i = i + 1;
    }
    assert(list.take(list.len() as int) =~= list);
}

/// The relations whose keys are not known.
pub open spec fn relations_beside(rows: Seq<ContextRow>, known: Set<Seq<Seq<char>>>) -> Seq<ContextRow> {
    keep(rows, |row: ContextRow| !known.contains(edge_key(row@)))
}

fn beside(rows: Vec<ContextRow>, known: &SortedMap<Vec<String>, ()>) -> (r: Vec<ContextRow>)
    requires
        known.wf(),
    ensures
        r@ == relations_beside(rows@, known@.dom()),
{
    let ghost list = rows@;
    let ghost wanted = |row: ContextRow| !known@.dom().contains(edge_key(row@));
    let mut rest: Vec<ContextRow> = reversed(rows);
    let mut kept: Vec<ContextRow> = Vec::new();
    let ghost mut k: int = 0;
    assert(kept@ =~= keep(list.take(0), wanted));
    while rest.len() > 0
        invariant
            0 <= k <= list.len(),
            rest@.len() == list.len() - k,
            known.wf(),
            forall|j: int| 0 <= j < rest@.len() ==> #[trigger] rest@[j] == list[list.len() - 1 - j],
            wanted == (|row: ContextRow| !known@.dom().contains(edge_key(row@))),
            kept@ == keep(list.take(k), wanted),
        decreases rest@.len(),
    {
        match rest.pop() {
            Some(row) => {
                proof {
                    assert(row == list[k]);
                    keep_step(list, k, wanted);
                    k = k + 1;
                }
                let key: Vec<String> = row.edge_key();
                assert(key.key() == edge_key(row@));
                if !known.contains_key(&key) {
                    kept.push(row);
                }
            },
            None => {},
        }
    }
    assert(list.take(list.len() as int) =~= list);
    kept
}

/// All relations of an entity: its dependencies, the structure around it, and of the structure
/// in enrichments what is not known from elsewhere.
pub open spec fn all_relations(
    dependencies: Seq<ContextRow>,
    state: Seq<ContextRow>,
    shard: Seq<ContextRow>,
    revision: Seq<ContextRow>,
    enrichment: Seq<ContextRow>,
) -> Seq<ContextRow> {
    dependencies + state + shard + revision + relations_beside(
        enrichment,
        edge_keys(state).union(edge_keys(shard)).union(edge_keys(revision)),
    )
}

/// Whether a list holds some relations in order, without repetition.
pub open spec fn orders(list: Seq<ContextRow>, relations: Seq<ContextRow>) -> bool {
    exists|ordered: Seq<ContextRow>| #[trigger] ordering(ordered, relations) && list == deduplicated(ordered)
}

/// Whether a list holds some relations in order.
pub open spec fn ordering(ordered: Seq<ContextRow>, relations: Seq<ContextRow>) -> bool {
    in_order(keys(ordered)) && ordered.to_multiset() == relations.to_multiset()
}

/// Gathers the relations of an entity, in order.
pub fn context(
    dependencies: Vec<ContextRow>,
    state: Vec<ContextRow>,
    shard: Vec<ContextRow>,
    revision: Vec<ContextRow>,
    enrichment: Vec<ContextRow>,
) -> (r: Vec<ContextRow>)
    ensures
        orders(r@, all_relations(dependencies@, state@, shard@, revision@, enrichment@)),
{
    let ghost all = all_relations(dependencies@, state@, shard@, revision@, enrichment@);
    let ghost d = dependencies@;
    let ghost s = state@;
    let ghost f = shard@;
    let ghost v = revision@;
    let mut known: SortedMap<Vec<String>, ()> = SortedMap::new();
    add_keys(&mut known, &state);
    add_keys(&mut known, &shard);
    add_keys(&mut known, &revision);
    assert(known@.dom() =~= edge_keys(s).union(edge_keys(f)).union(edge_keys(v)));
    let mut rows: Vec<ContextRow> = dependencies;
    let mut more: Vec<ContextRow> = state;
    rows.append(&mut more);
    let mut more: Vec<ContextRow> = shard;
    rows.append(&mut more);
    let mut more: Vec<ContextRow> = revision;
    rows.append(&mut more);
    let mut more: Vec<ContextRow> = beside(enrichment, &known);
    rows.append(&mut more);
    assert(rows@ =~= all);
    let ordered: Vec<ContextRow> = sorted(rows);
    assert(ordering(ordered@, all));
    deduplicate(ordered)
}

/// Whether a relation shows that its entity was generated.
pub open spec fn marks_generated(row: ContextModel) -> bool {
    row.provenance == "generated"@ && ((row.direction == "incoming"@ && row.relation == "defines"@) || (row.direction == "outgoing"@
        && row.relation == "field_of"@))
}

/// Whether a relation shows that its entity was generated.
pub fn marks_generated_origin(row: &ContextRow) -> (r: bool)
    ensures
        r == marks_generated(row@),
{
    same(row.provenance.as_str(), "generated") && ((same(row.direction.as_str(), "incoming") && same(row.relation.as_str(), "defines"))
        || (same(row.direction.as_str(), "outgoing") && same(row.relation.as_str(), "field_of")))
}

/// Whether some relation whose key is not known shows that its entity was generated.
pub open spec fn shows_generated(rows: Seq<ContextRow>, known: Set<Seq<Seq<char>>>) -> bool {
    exists|i: int| 0 <= i < rows.len() && !known.contains(edge_key(rows[i]@)) && marks_generated((#[trigger] rows[i])@)
}

fn any_generated(rows: &Vec<ContextRow>, known: &SortedMap<Vec<String>, ()>) -> (r: bool)
    requires
        known.wf(),
    ensures
        r == shows_generated(rows@, known@.dom()),
{
    let mut i: usize = 0;
    while i < rows.len()
        invariant
            i <= rows@.len(),
            known.wf(),
            forall|j: int| 0 <= j < i ==> known@.dom().contains(edge_key(rows@[j]@)) || !marks_generated((#[trigger] rows@[j])@),
        decreases rows@.len() - i,
    {
        if marks_generated_origin(&rows[i]) {
            let key: Vec<String> = rows[i].edge_key();
            assert(key.key() == edge_key(rows@[i as int]@));
            if !known.contains_key(&key) {
                return true;
            }
        }
        i = i + 1;
    }
    false
}

/// How far it is known whether an entity was generated: where to look next, if anywhere, which
/// relations are known, and whether one shows it.
pub ghost struct OriginModel {
    pub next: Option<ContextSource>,
    pub known: Set<Seq<Seq<char>>>,
    pub generated: bool,
}

/// After a look at the relations in one more place. Those in enrichments count only where they
/// are not known from elsewhere.
pub open spec fn origin_step(model: OriginModel, rows: Seq<ContextRow>) -> OriginModel {
    match model.next {
        None => model,
        Some(ContextSource::Enrichment) => OriginModel { next: None, generated: shows_generated(rows, model.known), ..model },
        Some(source) => {
            let known = model.known.union(edge_keys(rows));
            if shows_generated(rows, Set::empty()) {
                OriginModel { next: None, known, generated: true }
            } else {
                OriginModel {
                    next: Some(
                        match source {
                            ContextSource::State => ContextSource::Revision,
                            ContextSource::Revision => ContextSource::FactShard,
                            _ => ContextSource::Enrichment,
                        },
                    ),
                    known,
                    ..model
                }
            }
        },
    }
}

/// Before any look.
pub open spec fn origin_started() -> OriginModel {
    OriginModel { next: Some(ContextSource::State), known: Set::empty(), generated: false }
}

/// The search for whether an entity was generated.
pub struct OriginSearch {
    next: Option<ContextSource>,
    known: SortedMap<Vec<String>, ()>,
    generated: bool,
}

impl View for OriginSearch {
    type V = OriginModel;

    closed spec fn view(&self) -> OriginModel {
        OriginModel { next: self.next, known: self.known@.dom(), generated: self.generated }
    }
}

impl OriginSearch {
    pub closed spec fn wf(&self) -> bool {
        self.known.wf()
    }

    pub fn start() -> (r: OriginSearch)
        ensures
            r.wf(),
            r@ == origin_started(),
    {
        let search: OriginSearch = OriginSearch { next: Some(ContextSource::State), known: SortedMap::new(), generated: false };
        assert(search@.known =~= Set::<Seq<Seq<char>>>::empty());
        search
    }

    /// Where to look next; nowhere once it is decided.
    pub fn next(&self) -> (r: Option<ContextSource>)
        ensures
            r == self@.next,
    {
        self.next
    }

    /// Whether the entity was generated.
    pub fn is_generated(&self) -> (r: bool)
        ensures
            r == self@.generated,
    {
        self.generated
    }

    /// Takes in the relations in the place looked at.
    pub fn receive(&mut self, rows: &Vec<ContextRow>)
        requires
            old(self).wf(),
        ensures
            final(self).wf(),
            final(self)@ == origin_step(old(self)@, rows@),
    {
        match self.next {
            None => {},
            Some(ContextSource::Enrichment) => {
                self.generated = any_generated(rows, &self.known);
                self.next = None;
            },
            Some(source) => {
                add_keys(&mut self.known, rows);
                let none: SortedMap<Vec<String>, ()> = SortedMap::new();
                assert(none@.dom() =~= Set::<Seq<Seq<char>>>::empty());
                if any_generated(rows, &none) {
                    self.generated = true;
                    self.next = None;
                } else {
                    self.next = Some(
                        match source {
                            ContextSource::State => ContextSource::Revision,
                            ContextSource::Revision => ContextSource::FactShard,
                            _ => ContextSource::Enrichment,
                        },
                    );
                }
            },
        }
    }
}

/// An entity was generated exactly when a relation in a repository state, in the revision or in
/// a fact shard shows it, or one in an enrichment that none of them states.
pub proof fn origins_are_decided(state: Seq<ContextRow>, revision: Seq<ContextRow>, shard: Seq<ContextRow>, enrichment: Seq<ContextRow>)
    ensures
        ({
            let end = origin_step(origin_step(origin_step(origin_step(origin_started(), state), revision), shard), enrichment);
            let known = edge_keys(state).union(edge_keys(revision)).union(edge_keys(shard));
            &&& end.next is None
            &&& end.generated == (shows_generated(state, Set::empty()) || shows_generated(revision, Set::empty()) || shows_generated(
                shard,
                Set::empty(),
            ) || shows_generated(enrichment, known))
        }),
{
    let known = edge_keys(state).union(edge_keys(revision)).union(edge_keys(shard));
    let gathered = Set::<Seq<Seq<char>>>::empty().union(edge_keys(state)).union(edge_keys(revision)).union(edge_keys(shard));
    assert(gathered =~= known);
}

proof fn kept_or_repeated(list: Seq<ContextRow>, k: int)
    requires
        0 <= k < list.len(),
    ensures
        exists|i: int|
            0 <= i < deduplicated(list).len() && (#[trigger] deduplicated(list)[i] == list[k] || same_relation(
                deduplicated(list)[i]@,
                list[k]@,
            )),
    decreases list.len(),
{
    let less = list.drop_last();
    let before = deduplicated(less);
    let all = deduplicated(list);
    if k < less.len() {
        assert(less[k] == list[k]);
        kept_or_repeated(less, k);
        let i = choose|i: int| 0 <= i < before.len() && (#[trigger] before[i] == less[k] || same_relation(before[i]@, less[k]@));
        assert(all[i] == before[i]);
    } else if before.len() > 0 && same_relation(before.last()@, list.last()@) {
        assert(all[all.len() - 1] == before.last());
    } else {
        assert(all[all.len() - 1] == list[k]);
    }
}

proof fn kept_was_there(list: Seq<ContextRow>, i: int)
    requires
        0 <= i < deduplicated(list).len(),
    ensures
        list.contains(deduplicated(list)[i]),
    decreases list.len(),
{
    let less = list.drop_last();
    let before = deduplicated(less);
    if i < before.len() {
        kept_was_there(less, i);
        let k = choose|k: int| 0 <= k < less.len() && less[k] == before[i];
        assert(list[k] == less[k]);
        assert(deduplicated(list)[i] == before[i]);
    } else {
        assert(deduplicated(list)[i] == list[list.len() - 1]);
    }
}

proof fn kept_is_wanted(list: Seq<ContextRow>, wanted: spec_fn(ContextRow) -> bool, row: ContextRow)
    ensures
        keep(list, wanted).contains(row) <==> list.contains(row) && wanted(row),
    decreases list.len(),
{
    if list.len() > 0 {
        let less = list.drop_last();
        let last = list.last();
        kept_is_wanted(less, wanted, row);
        assert(list =~= less.push(last));
        assert(list.contains(row) <==> less.contains(row) || row == last) by {
            if less.contains(row) {
                let k = choose|k: int| 0 <= k < less.len() && less[k] == row;
                assert(list[k] == row);
            }
            if row == last {
                assert(list[list.len() - 1] == row);
            }
            if list.contains(row) {
                let k = choose|k: int| 0 <= k < list.len() && list[k] == row;
                if k < less.len() {
                    assert(less[k] == row);
                }
            }
        }
        let kept = keep(less, wanted);
        if wanted(last) {
            let all = kept.push(last);
            assert(all.contains(row) <==> kept.contains(row) || row == last) by {
                if kept.contains(row) {
                    let k = choose|k: int| 0 <= k < kept.len() && kept[k] == row;
                    assert(all[k] == row);
                }
                if row == last {
                    assert(all[kept.len() as int] == row);
                }
                if all.contains(row) {
                    let k = choose|k: int| 0 <= k < all.len() && all[k] == row;
                    if k < kept.len() {
                        assert(kept[k] == row);
                    }
                }
            }
        }
    }
}

proof fn in_either(a: Seq<ContextRow>, b: Seq<ContextRow>, row: ContextRow)
    ensures
        (a + b).contains(row) <==> a.contains(row) || b.contains(row),
{
    if a.contains(row) {
        let k = choose|k: int| 0 <= k < a.len() && a[k] == row;
        assert((a + b)[k] == row);
    }
    if b.contains(row) {
        let k = choose|k: int| 0 <= k < b.len() && b[k] == row;
        assert((a + b)[a.len() + k] == row);
    }
    if (a + b).contains(row) {
        let k = choose|k: int| 0 <= k < (a + b).len() && (a + b)[k] == row;
        if k < a.len() {
            assert(a[k] == row);
        } else {
            assert(b[k - a.len()] == row);
        }
    }
}

/// Whether some rows state a relation, whatever their confidence and provenance.
pub open spec fn stated_in(rows: Seq<ContextRow>, row: ContextRow) -> bool {
    exists|i: int|
        0 <= i < rows.len() && (#[trigger] rows[i]).direction@ == row.direction@ && rows[i].relation@ == row.relation@ && rows[i].related@
            == row.related@ && rows[i].evidence@ == row.evidence@
}

proof fn stated_by_key(rows: Seq<ContextRow>, row: ContextRow)
    ensures
        stated_in(rows, row) <==> edge_keys(rows).contains(edge_key(row@)),
{
    let key = edge_key(row@);
    assert(key[0] == row.direction@ && key[1] == row.relation@ && key[2] == row.related@ && key[3] == row.evidence@);
    if edge_keys(rows).contains(key) {
        let i = choose|i: int| 0 <= i < rows.len() && key == edge_key((#[trigger] rows[i])@);
        let other = edge_key(rows[i]@);
        assert(other[0] == rows[i].direction@ && other[1] == rows[i].relation@ && other[2] == rows[i].related@ && other[3]
            == rows[i].evidence@);
    }
    if stated_in(rows, row) {
        let i = choose|i: int|
            0 <= i < rows.len() && (#[trigger] rows[i]).direction@ == row.direction@ && rows[i].relation@ == row.relation@
                && rows[i].related@ == row.related@ && rows[i].evidence@ == row.evidence@;
        assert(edge_key(rows[i]@) =~= key);
    }
}

/// Whether a relation belongs to a context: it is a dependency, or states structure; what an
/// enrichment says of the structure counts only where it is not known from elsewhere.
pub open spec fn belongs(
    dependencies: Seq<ContextRow>,
    state: Seq<ContextRow>,
    shard: Seq<ContextRow>,
    revision: Seq<ContextRow>,
    enrichment: Seq<ContextRow>,
    row: ContextRow,
) -> bool {
    ||| dependencies.contains(row)
    ||| state.contains(row)
    ||| shard.contains(row)
    ||| revision.contains(row)
    ||| enrichment.contains(row) && !stated_in(state, row) && !stated_in(shard, row) && !stated_in(revision, row)
}

/// The relations of a context are those that belong to it: none is left out, but for repetitions,
/// and no other is there. What an enrichment says never repeats what the baseline says.
pub proof fn contexts_hold_what_belongs_to_them(
    dependencies: Seq<ContextRow>,
    state: Seq<ContextRow>,
    shard: Seq<ContextRow>,
    revision: Seq<ContextRow>,
    enrichment: Seq<ContextRow>,
    list: Seq<ContextRow>,
)
    requires
        orders(list, all_relations(dependencies, state, shard, revision, enrichment)),
    ensures
        forall|i: int| 0 <= i < list.len() ==> belongs(dependencies, state, shard, revision, enrichment, #[trigger] list[i]),
        forall|row: ContextRow| #[trigger]
            belongs(dependencies, state, shard, revision, enrichment, row) ==> exists|i: int|
                0 <= i < list.len() && (#[trigger] list[i] == row || same_relation(list[i]@, row@)),
{
    let all = all_relations(dependencies, state, shard, revision, enrichment);
    let ordered = choose|ordered: Seq<ContextRow>| #[trigger] ordering(ordered, all) && list == deduplicated(ordered);
    assert forall|row: ContextRow| ordered.contains(row) <==> #[trigger] all.contains(row) by {
        ordered.to_multiset_ensures();
        all.to_multiset_ensures();
        assert(ordered.contains(row) <==> ordered.to_multiset().count(row) > 0);
        assert(all.contains(row) <==> all.to_multiset().count(row) > 0);
    }
    let known = edge_keys(state).union(edge_keys(shard)).union(edge_keys(revision));
    let rest = relations_beside(enrichment, known);
    assert forall|row: ContextRow| #[trigger] all.contains(row) <==> belongs(dependencies, state, shard, revision, enrichment, row) by {
        in_either(dependencies, state, row);
        in_either(dependencies + state, shard, row);
        in_either(dependencies + state + shard, revision, row);
        in_either(dependencies + state + shard + revision, rest, row);
        kept_is_wanted(enrichment, |row: ContextRow| !known.contains(edge_key(row@)), row);
        stated_by_key(state, row);
        stated_by_key(shard, row);
        stated_by_key(revision, row);
    }
    assert forall|i: int| 0 <= i < list.len() implies belongs(dependencies, state, shard, revision, enrichment, #[trigger] list[i]) by {
        kept_was_there(ordered, i);
        assert(all.contains(list[i]));
    }
    assert forall|row: ContextRow| #[trigger] belongs(dependencies, state, shard, revision, enrichment, row) implies exists|i: int|
        0 <= i < list.len() && (#[trigger] list[i] == row || same_relation(list[i]@, row@)) by {
        assert(all.contains(row));
        assert(ordered.contains(row));
        let k = choose|k: int| 0 <= k < ordered.len() && ordered[k] == row;
        kept_or_repeated(ordered, k);
    }
}

} // verus!
