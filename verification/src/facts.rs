//! Facts about entities, gathered from where they are stored.

use crate::command::{bind_integer, bind_rows, bind_text, bindings, rows_of_texts, text_rows, ArgumentModel, Binding, CellModel, Command, CommandModel};
use crate::ids::TextSet;
use crate::query::{MnesticQuery, QueryError};
use crate::rows::{cell_text, InspectionResult, InspectionValue, Row};
use crate::scripts::{
    ALL_ENTITIES, BASELINE_ENTITIES, ENRICHMENT_ENTITIES, RANKED_SEARCH, SEARCH_ENRICHMENT, SEARCH_REVISION, SEARCH_SHARD, SEARCH_STATE,
    SHARD_ENTITIES,
};
use crate::seqs::{keep, keep_step, reversed};
use crate::sorted::{texts, Key, SortedMap};
use vstd::prelude::*;
use vstd::utf8::encode_utf8;

verus! {

/// A fact about an entity as it is stored.
#[derive(Debug)]
pub struct EntityFactRow {
    pub id: String,
    pub kind: InspectionValue,
    pub metadata: InspectionValue,
}

/// A fact about an entity as it is stored.
pub ghost struct FactRowModel {
    pub id: Seq<char>,
    pub kind: InspectionValue,
    pub metadata: InspectionValue,
}

impl View for EntityFactRow {
    type V = FactRowModel;

    open spec fn view(&self) -> FactRowModel {
        FactRowModel { id: self.id@, kind: self.kind, metadata: self.metadata }
    }
}

/// The facts in some rows.
pub open spec fn fact_models(rows: Seq<EntityFactRow>) -> Seq<FactRowModel> {
    rows.map_values(|row: EntityFactRow| row@)
}

impl EntityFactRow {
    /// The row that states the fact.
    pub fn into_values(self) -> (r: Vec<InspectionValue>)
        ensures
            r@.len() == 3,
            cell_text(r@, 0) == Some(self.id@),
            r@[1] == self.kind,
            r@[2] == self.metadata,
    {
        let mut row: Vec<InspectionValue> = Vec::new();
        row.push(InspectionValue::String(self.id));
        row.push(self.kind);
        row.push(self.metadata);
        row
    }
}

/// The columns of a fact.
pub open spec fn entity_headers() -> Seq<Seq<char>> {
    seq!["id"@, "kind"@, "metadata"@]
}

/// The columns of a fact.
pub fn entity_header_list() -> (r: Vec<String>)
    ensures
        texts(r@) == entity_headers(),
{
    let mut list: Vec<String> = Vec::new();
    list.push("id".to_owned());
    list.push("kind".to_owned());
    list.push("metadata".to_owned());
    assert(texts(list@) =~= entity_headers());
    list
}

/// The columns of a search.
pub open spec fn search_headers() -> Seq<Seq<char>> {
    seq!["id"@, "kind"@, "metadata"@, "rank"@]
}

/// The columns of a search.
pub fn search_header_list() -> (r: Vec<String>)
    ensures
        texts(r@) == search_headers(),
{
    let mut list: Vec<String> = Vec::new();
    list.push("id".to_owned());
    list.push("kind".to_owned());
    list.push("metadata".to_owned());
    list.push("rank".to_owned());
    assert(texts(list@) =~= search_headers());
    list
}

/// The fact that a row states, or what is wrong with it.
pub open spec fn decoded_fact(row: Row) -> Result<FactRowModel, Seq<char>> {
    match cell_text(row, 0) {
        Some(id) => Ok(FactRowModel { id, kind: row[1], metadata: row[2] }),
        None => Err("column id is not a string"@),
    }
}

fn decode_fact(operation: &'static str, row: Vec<InspectionValue>) -> (r: Result<EntityFactRow, QueryError>)
    requires
        row@.len() >= 3,
    ensures
        r is Ok <==> decoded_fact(row@) is Ok,
        r is Ok ==> r->Ok_0@ == decoded_fact(row@)->Ok_0,
        r is Err ==> r->Err_0.operation@ == operation@,
        r is Err ==> r->Err_0.detail@ == decoded_fact(row@)->Err_0,
{
    let id: String = match row[0].as_str() {
        Some(id) => id.to_owned(),
        None => {
            return Err(QueryError::new(operation, "column id is not a string".to_owned()));
        },
    };
    let mut rest: Vec<InspectionValue> = row;
    let kind: InspectionValue = rest.remove(1);
    let metadata: InspectionValue = rest.remove(1);
    Ok(EntityFactRow { id, kind, metadata })
}

/// The query for the facts of some entities in the baseline.
pub struct BaselineEntityFacts;

impl MnesticQuery for BaselineEntityFacts {
    type Row = EntityFactRow;

    type Model = FactRowModel;

    open spec fn model(row: EntityFactRow) -> FactRowModel {
        row@
    }

    open spec fn operation_text() -> Seq<char> {
        "entity_facts.baseline"@
    }

    open spec fn header_texts() -> Seq<Seq<char>> {
        entity_headers()
    }

    open spec fn decoded(row: Row) -> Result<FactRowModel, Seq<char>> {
        decoded_fact(row)
    }

    fn operation() -> (r: &'static str) {
        "entity_facts.baseline"
    }

    fn headers() -> (r: Vec<String>) {
        entity_header_list()
    }

    fn decode(row: Vec<InspectionValue>) -> (r: Result<EntityFactRow, QueryError>) {
        decode_fact(Self::operation(), row)
    }
}

/// The query for the facts of some entities in fact shards.
pub struct ShardEntityFacts;

impl MnesticQuery for ShardEntityFacts {
    type Row = EntityFactRow;

    type Model = FactRowModel;

    open spec fn model(row: EntityFactRow) -> FactRowModel {
        row@
    }

    open spec fn operation_text() -> Seq<char> {
        "entity_facts.shard"@
    }

    open spec fn header_texts() -> Seq<Seq<char>> {
        entity_headers()
    }

    open spec fn decoded(row: Row) -> Result<FactRowModel, Seq<char>> {
        decoded_fact(row)
    }

    fn operation() -> (r: &'static str) {
        "entity_facts.shard"
    }

    fn headers() -> (r: Vec<String>) {
        entity_header_list()
    }

    fn decode(row: Vec<InspectionValue>) -> (r: Result<EntityFactRow, QueryError>) {
        decode_fact(Self::operation(), row)
    }
}

/// The query for the facts of some entities in enrichments.
pub struct EnrichmentEntityFacts;

impl MnesticQuery for EnrichmentEntityFacts {
    type Row = EntityFactRow;

    type Model = FactRowModel;

    open spec fn model(row: EntityFactRow) -> FactRowModel {
        row@
    }

    open spec fn operation_text() -> Seq<char> {
        "entity_facts.enrichment"@
    }

    open spec fn header_texts() -> Seq<Seq<char>> {
        entity_headers()
    }

    open spec fn decoded(row: Row) -> Result<FactRowModel, Seq<char>> {
        decoded_fact(row)
    }

    fn operation() -> (r: &'static str) {
        "entity_facts.enrichment"
    }

    fn headers() -> (r: Vec<String>) {
        entity_header_list()
    }

    fn decode(row: Vec<InspectionValue>) -> (r: Result<EntityFactRow, QueryError>) {
        decode_fact(Self::operation(), row)
    }
}

/// The query for the facts of all entities.
pub struct AllEntityFactsQuery;

impl MnesticQuery for AllEntityFactsQuery {
    type Row = EntityFactRow;

    type Model = FactRowModel;

    open spec fn model(row: EntityFactRow) -> FactRowModel {
        row@
    }

    open spec fn operation_text() -> Seq<char> {
        "entity_facts.all"@
    }

    open spec fn header_texts() -> Seq<Seq<char>> {
        entity_headers()
    }

    open spec fn decoded(row: Row) -> Result<FactRowModel, Seq<char>> {
        decoded_fact(row)
    }

    fn operation() -> (r: &'static str) {
        "entity_facts.all"
    }

    fn headers() -> (r: Vec<String>) {
        entity_header_list()
    }

    fn decode(row: Vec<InspectionValue>) -> (r: Result<EntityFactRow, QueryError>) {
        decode_fact(Self::operation(), row)
    }
}

/// The search in the facts of repository states.
pub struct SearchStateEntityFacts;

impl MnesticQuery for SearchStateEntityFacts {
    type Row = EntityFactRow;

    type Model = FactRowModel;

    open spec fn model(row: EntityFactRow) -> FactRowModel {
        row@
    }

    open spec fn operation_text() -> Seq<char> {
        "entity_search.state"@
    }

    open spec fn header_texts() -> Seq<Seq<char>> {
        search_headers()
    }

    open spec fn decoded(row: Row) -> Result<FactRowModel, Seq<char>> {
        decoded_fact(row)
    }

    fn operation() -> (r: &'static str) {
        "entity_search.state"
    }

    fn headers() -> (r: Vec<String>) {
        search_header_list()
    }

    fn decode(row: Vec<InspectionValue>) -> (r: Result<EntityFactRow, QueryError>) {
        decode_fact(Self::operation(), row)
    }
}

/// The search in the facts of the revision.
pub struct SearchRevisionEntityFacts;

impl MnesticQuery for SearchRevisionEntityFacts {
    type Row = EntityFactRow;

    type Model = FactRowModel;

    open spec fn model(row: EntityFactRow) -> FactRowModel {
        row@
    }

    open spec fn operation_text() -> Seq<char> {
        "entity_search.revision"@
    }

    open spec fn header_texts() -> Seq<Seq<char>> {
        search_headers()
    }

    open spec fn decoded(row: Row) -> Result<FactRowModel, Seq<char>> {
        decoded_fact(row)
    }

    fn operation() -> (r: &'static str) {
        "entity_search.revision"
    }

    fn headers() -> (r: Vec<String>) {
        search_header_list()
    }

    fn decode(row: Vec<InspectionValue>) -> (r: Result<EntityFactRow, QueryError>) {
        decode_fact(Self::operation(), row)
    }
}

/// The search in the facts of fact shards.
pub struct SearchShardEntityFacts;

impl MnesticQuery for SearchShardEntityFacts {
    type Row = EntityFactRow;

    type Model = FactRowModel;

    open spec fn model(row: EntityFactRow) -> FactRowModel {
        row@
    }

    open spec fn operation_text() -> Seq<char> {
        "entity_search.shard"@
    }

    open spec fn header_texts() -> Seq<Seq<char>> {
        search_headers()
    }

    open spec fn decoded(row: Row) -> Result<FactRowModel, Seq<char>> {
        decoded_fact(row)
    }

    fn operation() -> (r: &'static str) {
        "entity_search.shard"
    }

    fn headers() -> (r: Vec<String>) {
        search_header_list()
    }

    fn decode(row: Vec<InspectionValue>) -> (r: Result<EntityFactRow, QueryError>) {
        decode_fact(Self::operation(), row)
    }
}

/// The search in the facts of enrichments.
pub struct SearchEnrichmentEntityFacts;

impl MnesticQuery for SearchEnrichmentEntityFacts {
    type Row = EntityFactRow;

    type Model = FactRowModel;

    open spec fn model(row: EntityFactRow) -> FactRowModel {
        row@
    }

    open spec fn operation_text() -> Seq<char> {
        "entity_search.enrichment"@
    }

    open spec fn header_texts() -> Seq<Seq<char>> {
        search_headers()
    }

    open spec fn decoded(row: Row) -> Result<FactRowModel, Seq<char>> {
        decoded_fact(row)
    }

    fn operation() -> (r: &'static str) {
        "entity_search.enrichment"
    }

    fn headers() -> (r: Vec<String>) {
        search_header_list()
    }

    fn decode(row: Vec<InspectionValue>) -> (r: Result<EntityFactRow, QueryError>) {
        decode_fact(Self::operation(), row)
    }
}

/// What asks for the facts of some entities.
pub open spec fn facts_asked(script: Seq<char>, view: Seq<char>, entities: Seq<Seq<char>>) -> CommandModel {
    CommandModel {
        script,
        arguments: seq![
            ("view"@, ArgumentModel::One(CellModel::Text(view))),
            ("entities"@, ArgumentModel::Rows(text_rows(entities))),
        ],
    }
}

fn ask_facts(script: &str, view: &str, entities: &TextSet) -> (r: Command)
    ensures
        r@ == facts_asked(script@, view@, texts(entities.keys@)),
{
    let mut arguments: Vec<Binding> = Vec::new();
    arguments.push(bind_text("view", view));
    arguments.push(bind_rows("entities", rows_of_texts(&entities.keys)));
    assert(bindings(arguments@) =~= facts_asked(script@, view@, texts(entities.keys@)).arguments);
    Command { script: script.to_owned(), arguments }
}

/// Asks for the facts of some entities in the baseline.
pub fn ask_baseline_facts(view: &str, entities: &TextSet) -> (r: Command)
    ensures
        r@ == facts_asked(BASELINE_ENTITIES@, view@, texts(entities.keys@)),
{
    ask_facts(BASELINE_ENTITIES, view, entities)
}

/// Asks for the facts of some entities in fact shards.
pub fn ask_shard_facts(view: &str, entities: &TextSet) -> (r: Command)
    ensures
        r@ == facts_asked(SHARD_ENTITIES@, view@, texts(entities.keys@)),
{
    ask_facts(SHARD_ENTITIES, view, entities)
}

/// Asks for the facts of some entities in enrichments.
pub fn ask_enrichment_facts(view: &str, entities: &TextSet) -> (r: Command)
    ensures
        r@ == facts_asked(ENRICHMENT_ENTITIES@, view@, texts(entities.keys@)),
{
    ask_facts(ENRICHMENT_ENTITIES, view, entities)
}

/// Asks for the facts of all entities.
pub fn ask_all_facts(view: &str) -> (r: Command)
    ensures
        r@ == (CommandModel { script: ALL_ENTITIES@, arguments: seq![("view"@, ArgumentModel::One(CellModel::Text(view@)))] }),
{
    let mut arguments: Vec<Binding> = Vec::new();
    arguments.push(bind_text("view", view));
    assert(bindings(arguments@) =~= seq![("view"@, ArgumentModel::One(CellModel::Text(view@)))]);
    Command { script: ALL_ENTITIES.to_owned(), arguments }
}

/// Where facts are searched for.
#[derive(Clone, Copy, PartialEq, Eq, Structural, Debug)]
pub enum SearchSource {
    State,
    Revision,
    Shard,
    Enrichment,
}

/// What asks for entities by a query.
pub open spec fn search_asked(source: SearchSource, view: Seq<char>, query: Seq<char>, limit: u32) -> CommandModel {
    CommandModel {
        script: (match source {
            SearchSource::State => SEARCH_STATE@,
            SearchSource::Revision => SEARCH_REVISION@,
            SearchSource::Shard => SEARCH_SHARD@,
            SearchSource::Enrichment => SEARCH_ENRICHMENT@,
        }) + RANKED_SEARCH@,
        arguments: seq![
            ("view"@, ArgumentModel::One(CellModel::Text(view))),
            ("candidate"@, ArgumentModel::One(CellModel::Text(longest_part(query)))),
            ("query"@, ArgumentModel::One(CellModel::Text(query))),
            ("limit"@, ArgumentModel::One(CellModel::Integer(limit as int))),
        ],
    }
}

/// Asks for entities by a query.
pub fn ask_search(source: SearchSource, view: &str, query: &str, limit: u32) -> (r: Command)
    ensures
        r@ == search_asked(source, view@, query@, limit),
{
    let mut script: String = match source {
        SearchSource::State => SEARCH_STATE.to_owned(),
        SearchSource::Revision => SEARCH_REVISION.to_owned(),
        SearchSource::Shard => SEARCH_SHARD.to_owned(),
        SearchSource::Enrichment => SEARCH_ENRICHMENT.to_owned(),
    };
    script.append(RANKED_SEARCH);
    let mut arguments: Vec<Binding> = Vec::new();
    arguments.push(bind_text("view", view));
    arguments.push(bind_text("candidate", search_candidate(query).as_str()));
    arguments.push(bind_text("query", query));
    arguments.push(bind_integer("limit", limit as i64));
    assert(bindings(arguments@) =~= search_asked(source, view@, query@, limit).arguments);
    Command { script, arguments }
}

/// Whether a character parts the names in an identifier.
pub open spec fn parts_names(c: char) -> bool {
    c == '.' || c == '/' || c == ':'
}

/// The parts of a text between the characters that part names.
pub open spec fn name_parts(text: Seq<char>) -> Seq<Seq<char>>
    decreases text.len(),
{
    if text.len() == 0 {
        seq![Seq::empty()]
    } else {
        let before = name_parts(text.drop_last());
        if parts_names(text.last()) {
            before.push(Seq::empty())
        } else {
            before.update(before.len() - 1, before.last().push(text.last()))
        }
    }
}

proof fn name_parts_nonempty(text: Seq<char>)
    ensures
        name_parts(text).len() >= 1,
    decreases text.len(),
{
    if text.len() > 0 {
        name_parts_nonempty(text.drop_last());
    }
}

/// The longest of the first `n` texts, by the length of its encoding; the last of those
/// equally long.
pub open spec fn longest(parts: Seq<Seq<char>>, n: int) -> Seq<char>
    decreases n,
{
    if n <= 1 {
        parts[0]
    } else if encode_utf8(parts[n - 1]).len() >= encode_utf8(longest(parts, n - 1)).len() {
        parts[n - 1]
    } else {
        longest(parts, n - 1)
    }
}

/// The longest part of a query between the characters that part names.
pub open spec fn longest_part(query: Seq<char>) -> Seq<char> {
    longest(name_parts(query), name_parts(query).len() as int)
}

/// The longest part of a query between the characters that part names.
pub fn search_candidate(query: &str) -> (r: String)
    ensures
        r@ == longest_part(query@),
{
    let all: Vec<char> = crate::text::characters(query);
    let ghost text = query@;
    let mut parts: Vec<String> = Vec::new();
    let mut start: usize = 0;
    let mut i: usize = 0;
    proof {
        assert(text.take(0) =~= Seq::<char>::empty());
        assert(text.subrange(0, 0) =~= Seq::<char>::empty());
        assert(texts(parts@).push(text.subrange(0, 0)) =~= name_parts(text.take(0)));
    }
    while i < all.len()
        invariant
            start <= i <= all@.len(),
            all@ == text,
            text == query@,
            texts(parts@).push(text.subrange(start as int, i as int)) == name_parts(text.take(i as int)),
        decreases all@.len() - i,
    {
        let c: char = all[i];
        let ghost before = texts(parts@);
        let ghost open = text.subrange(start as int, i as int);
        proof {
            assert(text.take(i as int + 1).drop_last() =~= text.take(i as int));
            assert(text.take(i as int + 1).last() == c);
        }
        if c == '.' || c == '/' || c == ':' {
            parts.push(query.substring_char(start, i).to_owned());
            start = i + 1;
            proof {
                assert(texts(parts@) =~= before.push(open));
                assert(text.subrange(start as int, i as int + 1) =~= Seq::<char>::empty());
                assert(texts(parts@).push(text.subrange(start as int, i as int + 1)) =~= name_parts(text.take(i as int + 1)));
            }
        } else {
            proof {
                assert(text.subrange(start as int, i as int + 1) =~= open.push(c));
                assert(before.push(open).drop_last() =~= before);
                assert(texts(parts@).push(text.subrange(start as int, i as int + 1)) =~= name_parts(text.take(i as int + 1)));
            }
        }
        i = i + 1;
    }
    assert(text.take(text.len() as int) =~= text);
    let ghost before = texts(parts@);
    let ghost open = text.subrange(start as int, text.len() as int);
    parts.push(query.substring_char(start, all.len()).to_owned());
    let ghost named = name_parts(text);
    assert(texts(parts@) =~= before.push(open));
    let mut best: usize = 0;
    let mut length: usize = byte_length(parts[0].as_str());
    let mut k: usize = 1;
    while k < parts.len()
        invariant
            1 <= k <= parts@.len(),
            named == texts(parts@),
            best < k,
            parts@[best as int]@ == longest(named, k as int),
            length == encode_utf8(parts@[best as int]@).len(),
        decreases parts@.len() - k,
    {
        assert(named[k as int] == parts@[k as int]@);
        let here: usize = byte_length(parts[k].as_str());
        if here >= length {
            best = k;
            length = here;
        }
        k = k + 1;
    }
    parts[best].clone()
}

fn byte_length(text: &str) -> (r: usize)
    ensures
        r == encode_utf8(text@).len(),
{
    text.as_bytes().len()
}

/// The identifiers that some facts are about.
pub open spec fn ids_of(rows: Seq<FactRowModel>) -> Set<Seq<Seq<char>>> {
    Set::new(|k: Seq<Seq<char>>| exists|i: int| 0 <= i < rows.len() && k == seq![(#[trigger] rows[i]).id])
}

/// Adds the identifiers that some facts are about to a set.
pub fn add_ids(ids: &mut TextSet, rows: &Vec<EntityFactRow>)
    requires
        old(ids).wf(),
    ensures
        final(ids).wf(),
        final(ids)@.dom() == old(ids)@.dom().union(ids_of(fact_models(rows@))),
{
    let ghost before = ids@.dom();
    let ghost list = fact_models(rows@);
    let mut i: usize = 0;
    assert(before.union(ids_of(list.take(0))) =~= before);
    while i < rows.len()
        invariant
            i <= rows@.len(),
            list == fact_models(rows@),
            ids.wf(),
            ids@.dom() == before.union(ids_of(list.take(i as int))),
        decreases rows@.len() - i,
    {
        ids.insert(rows[i].id.clone(), ());
        proof {
            let less = list.take(i as int);
            let more = list.take(i as int + 1);
            let k0 = seq![list[i as int].id];
            assert(list[i as int] == rows@[i as int]@);
            assert forall|k: Seq<Seq<char>>| ids_of(more).contains(k) <==> ids_of(less).insert(k0).contains(k) by {
                if ids_of(more).contains(k) {
                    let j = choose|j: int| 0 <= j < more.len() && k == seq![(#[trigger] more[j]).id];
                    if j < i {
                        assert(less[j] == more[j]);
                    }
                }
                if ids_of(less).contains(k) {
                    let j = choose|j: int| 0 <= j < less.len() && k == seq![(#[trigger] less[j]).id];
                    assert(more[j] == less[j]);
                }
                if k == k0 {
                    assert(more[i as int] == list[i as int]);
                }
            }
            assert(ids@.dom() =~= before.union(ids_of(more)));
        }
        i = i + 1;
    }
    assert(list.take(list.len() as int) =~= list);
}

/// The facts that are not about some entities.
pub open spec fn facts_beside(rows: Seq<FactRowModel>, ids: Set<Seq<Seq<char>>>) -> Seq<FactRowModel> {
    keep(rows, |row: FactRowModel| !ids.contains(seq![row.id]))
}

fn beside(rows: Vec<EntityFactRow>, ids: &TextSet) -> (r: Vec<EntityFactRow>)
    requires
        ids.wf(),
    ensures
        fact_models(r@) == facts_beside(fact_models(rows@), ids@.dom()),
{
    let ghost list = fact_models(rows@);
    let ghost wanted = |row: FactRowModel| !ids@.dom().contains(seq![row.id]);
    let mut rest: Vec<EntityFactRow> = reversed(rows);
    let mut kept: Vec<EntityFactRow> = Vec::new();
    let ghost mut k: int = 0;
    proof {
        assert(fact_models(kept@) =~= keep(list.take(0), wanted));
        assert forall|j: int| 0 <= j < rest@.len() implies (#[trigger] rest@[j])@ == list[list.len() - 1 - j] by {
            assert(rest@[j] == rows@[rows@.len() - 1 - j]);
        }
    }
    while rest.len() > 0
        invariant
            0 <= k <= list.len(),
            rest@.len() == list.len() - k,
            ids.wf(),
            forall|j: int| 0 <= j < rest@.len() ==> (#[trigger] rest@[j])@ == list[list.len() - 1 - j],
            wanted == (|row: FactRowModel| !ids@.dom().contains(seq![row.id])),
            fact_models(kept@) == keep(list.take(k), wanted),
        decreases rest@.len(),
    {
        match rest.pop() {
            Some(row) => {
                proof {
                    assert(row@ == list[k]);
                    keep_step(list, k, wanted);
                    assert(row.id.key() == seq![row.id@]);
                    k = k + 1;
                }
                if !ids.contains_key(&row.id) {
                    let ghost before = kept@;
                    kept.push(row);
                    assert(fact_models(kept@) =~= fact_models(before).push(row@));
                }
            },
            None => {},
        }
    }
    assert(list.take(list.len() as int) =~= list);
    kept
}

/// The entities that no fact is about.
pub fn unknown_entities(entities: &TextSet, rows: &Vec<EntityFactRow>) -> (r: TextSet)
    requires
        entities.wf(),
    ensures
        r.wf(),
        r@.dom() == entities@.dom().difference(ids_of(fact_models(rows@))),
{
    let mut known: TextSet = SortedMap::new();
    add_ids(&mut known, rows);
    let mut unknown: TextSet = SortedMap::new();
    let ghost all = entities.listing();
    let ghost facts = ids_of(fact_models(rows@));
    assert(known@.dom() =~= facts);
    let mut i: usize = 0;
    while i < entities.keys.len()
        invariant
            i <= entities.keys@.len(),
            all == entities.listing(),
            entities.wf(),
            known.wf(),
            unknown.wf(),
            known@.dom() == facts,
            forall|k: Seq<Seq<char>>| #[trigger]
                unknown@.dom().contains(k) <==> !facts.contains(k) && exists|j: int| 0 <= j < i && all[j] == k,
        decreases entities.keys@.len() - i,
    {
        let ghost before = unknown@.dom();
        let id: &String = &entities.keys[i];
        assert(all[i as int] == id.key());
        if !known.contains_key(id) {
            unknown.insert(id.clone(), ());
        }
        proof {
            assert forall|k: Seq<Seq<char>>| #[trigger]
                unknown@.dom().contains(k) <==> !facts.contains(k) && exists|j: int| 0 <= j < i + 1 && all[j] == k by {
                if before.contains(k) {
                    let j = choose|j: int| 0 <= j < i && all[j] == k;
                    assert(all[j] == k);
                }
                if !facts.contains(k) && exists|j: int| 0 <= j < i + 1 && all[j] == k {
                    let j = choose|j: int| 0 <= j < i + 1 && all[j] == k;
                    if j < i {
                        assert(before.contains(k));
                    }
                }
            }
        }
        i = i + 1;
    }
    proof {
        entities.size();
        assert forall|k: Seq<Seq<char>>| unknown@.dom().contains(k) <==> entities@.dom().difference(facts).contains(k) by {
            if entities@.dom().contains(k) {
                let j = entities.position(k);
                assert(all[j] == k);
            }
            if unknown@.dom().contains(k) {
                let j = choose|j: int| 0 <= j < all.len() && all[j] == k;
                entities.entry(j);
            }
        }
        assert(unknown@.dom() =~= entities@.dom().difference(facts));
    }
    unknown
}

/// Whether rows state facts, one for one.
pub open spec fn states_facts(rows: Seq<Vec<InspectionValue>>, facts: Seq<FactRowModel>) -> bool {
    &&& rows.len() == facts.len()
    &&& forall|i: int|
        0 <= i < rows.len() ==> {
            &&& (#[trigger] rows[i])@.len() == 3
            &&& cell_text(rows[i]@, 0) == Some(facts[i].id)
            &&& rows[i]@[1] == facts[i].kind
            &&& rows[i]@[2] == facts[i].metadata
        }
}

/// Facts as the result of a query.
pub fn fact_rows(facts: Vec<EntityFactRow>) -> (r: InspectionResult)
    ensures
        texts(r.headers@) == entity_headers(),
        states_facts(r.rows@, fact_models(facts@)),
        r.next is None,
{
    let ghost list = fact_models(facts@);
    let mut rest: Vec<EntityFactRow> = reversed(facts);
    let mut rows: Vec<Vec<InspectionValue>> = Vec::new();
    proof {
        assert forall|j: int| 0 <= j < rest@.len() implies (#[trigger] rest@[j])@ == list[list.len() - 1 - j] by {
            assert(rest@[j] == facts@[facts@.len() - 1 - j]);
        }
    }
    while rest.len() > 0
        invariant
            list.len() == rest@.len() + rows@.len(),
            forall|j: int| 0 <= j < rest@.len() ==> (#[trigger] rest@[j])@ == list[list.len() - 1 - j],
            states_facts(rows@, list.take(rows@.len() as int)),
        decreases rest@.len(),
    {
        match rest.pop() {
            Some(fact) => {
                let ghost k = rows@.len() as int;
                let ghost before = rows@;
                assert(fact@ == list[k]);
                rows.push(fact.into_values());
                assert forall|i: int| 0 <= i < rows@.len() implies {
                    &&& (#[trigger] rows@[i])@.len() == 3
                    &&& cell_text(rows@[i]@, 0) == Some(list.take(k + 1)[i].id)
                    &&& rows@[i]@[1] == list.take(k + 1)[i].kind
                    &&& rows@[i]@[2] == list.take(k + 1)[i].metadata
                } by {
                    if i < k {
                        assert(rows@[i] == before[i]);
                        assert(list.take(k + 1)[i] == list.take(k)[i]);
                    }
                }
            },
            None => {},
        }
    }
    assert(list.take(list.len() as int) =~= list);
    InspectionResult { headers: entity_header_list(), rows, next: None }
}

/// Facts of the baseline and of fact shards, and those of enrichments about entities that
/// neither speaks of.
pub open spec fn gathered(baseline: Seq<FactRowModel>, shard: Seq<FactRowModel>, enrichment: Seq<FactRowModel>) -> Seq<FactRowModel> {
    baseline + shard + facts_beside(enrichment, ids_of(baseline).union(ids_of(shard)))
}

/// Gathers the facts about some entities. Those of fact shards have been asked for only where
/// the baseline has none.
pub fn entity_facts(baseline: Vec<EntityFactRow>, shard: Vec<EntityFactRow>, enrichment: Vec<EntityFactRow>) -> (r: InspectionResult)
    ensures
        texts(r.headers@) == entity_headers(),
        states_facts(r.rows@, gathered(fact_models(baseline@), fact_models(shard@), fact_models(enrichment@))),
        r.next is None,
{
    let ghost first = fact_models(baseline@);
    let ghost second = fact_models(shard@);
    let mut known: TextSet = SortedMap::new();
    add_ids(&mut known, &baseline);
    add_ids(&mut known, &shard);
    assert(known@.dom() =~= ids_of(first).union(ids_of(second)));
    let mut facts: Vec<EntityFactRow> = baseline;
    let mut more: Vec<EntityFactRow> = shard;
    facts.append(&mut more);
    let mut rest: Vec<EntityFactRow> = beside(enrichment, &known);
    let ghost third = fact_models(rest@);
    facts.append(&mut rest);
    assert(fact_models(facts@) =~= first + second + third);
    fact_rows(facts)
}

/// Facts found in repository states and in the revision, those of fact shards about other
/// entities, and those of enrichments about yet others.
pub open spec fn searched(
    state: Seq<FactRowModel>,
    revision: Seq<FactRowModel>,
    shard: Seq<FactRowModel>,
    enrichment: Seq<FactRowModel>,
) -> Seq<FactRowModel> {
    gathered(state + revision, facts_beside(shard, ids_of(state + revision)), enrichment)
}

/// Gathers the facts that a search has found.
pub fn search_entity_facts(
    state: Vec<EntityFactRow>,
    revision: Vec<EntityFactRow>,
    shard: Vec<EntityFactRow>,
    enrichment: Vec<EntityFactRow>,
) -> (r: InspectionResult)
    ensures
        texts(r.headers@) == entity_headers(),
        states_facts(
            r.rows@,
            searched(fact_models(state@), fact_models(revision@), fact_models(shard@), fact_models(enrichment@)),
        ),
        r.next is None,
{
    let ghost first = fact_models(state@) + fact_models(revision@);
    let mut facts: Vec<EntityFactRow> = state;
    let mut more: Vec<EntityFactRow> = revision;
    facts.append(&mut more);
    assert(fact_models(facts@) =~= first);
    let mut known: TextSet = SortedMap::new();
    add_ids(&mut known, &facts);
    assert(known@.dom() =~= ids_of(first));
    let nested: Vec<EntityFactRow> = beside(shard, &known);
    entity_facts(facts, nested, enrichment)
}

/// Of the facts gathered about an entity, those of an enrichment count only where nothing else
/// speaks of it.
pub proof fn baseline_facts_come_first(baseline: Seq<FactRowModel>, shard: Seq<FactRowModel>, enrichment: Seq<FactRowModel>, i: int)
    requires
        baseline.len() + shard.len() <= i < gathered(baseline, shard, enrichment).len(),
    ensures
        !ids_of(baseline).contains(seq![gathered(baseline, shard, enrichment)[i].id]),
        !ids_of(shard).contains(seq![gathered(baseline, shard, enrichment)[i].id]),
        enrichment.contains(gathered(baseline, shard, enrichment)[i]),
{
    let ids = ids_of(baseline).union(ids_of(shard));
    let wanted = |row: FactRowModel| !ids.contains(seq![row.id]);
    let kept = keep(enrichment, wanted);
    let j = i - baseline.len() - shard.len();
    assert(gathered(baseline, shard, enrichment)[i] == kept[j]);
    crate::multipath::keep_bounded(enrichment, wanted);
    kept_meets(enrichment, wanted, j);
}

proof fn kept_meets<A>(list: Seq<A>, wanted: spec_fn(A) -> bool, i: int)
    requires
        0 <= i < keep(list, wanted).len(),
    ensures
        wanted(keep(list, wanted)[i]),
    decreases list.len(),
{
    if list.len() > 0 && i < keep(list.drop_last(), wanted).len() {
        kept_meets(list.drop_last(), wanted, i);
    }
}

} // verus!
