//! The baseline of a view: what its repositories hold by themselves.

use crate::command::{named_texts, texts_bound, texts_command, view_bound, view_command, Command, CommandModel};
use crate::digest::{framed, hash_line, hash_number, hash_string, hex, hex_digest, little_endian, sha256_of};
use crate::domain::{
    confidence_bits, confidence_score, entity_kind, entity_kind_text, entity_metadata, entity_metadata_text, provenance_name,
    provenance_name_text, relation_name, relation_name_text, severity_name, severity_text, AnalysisDiagnostic, DiagnosticModel, EntityFact,
    EntityModel, Observation, ObservationModel, SemanticRelation,
};
use crate::grpc::{
    entities_of_operations, grpc_diagnostic_models, grpc_diagnostic_texts, operation_entities, texts_of_grpc_diagnostic, GrpcDiagnostic,
    GrpcDiagnosticModel, GrpcResolution, ResolutionModel,
};
use crate::normal::{
    entity_bytes, framed_texts, hash_entities, hash_normal, hash_texts, normal_bytes, normal_entities, normal_observations,
    normalized_entities, normalized_observations,
};
use crate::records::{
    command_models, entity_models, line_number, observation_models, stored_line, stored_text, text_or_nothing, DependencyOverride,
    OverrideModel, RepositoryFacts,
};
use crate::seqs::{concat_map, concat_map_step, last_wins, last_wins_step};
use crate::sorted::{listed, texts, Key, SortedMap};
use crate::text::{chars_lt, chars_lt_behind, chars_lt_extends, digit};
use crate::write_scripts::{
    CLEAR_BASELINE_DIAGNOSTICS, CLEAR_BASELINE_ENTITIES, CLEAR_BASELINE_OBSERVATIONS, CLEAR_BASELINE_OVERRIDES, FILL_DIAGNOSTICS,
    FILL_OVERRIDES, FILL_REVISION_ENTITIES, FILL_REVISION_OBSERVATIONS, FILL_STATE_ENTITIES, FILL_STATE_OBSERVATIONS,
};
use vstd::prelude::*;

verus! {

/// A number in a fixed count of decimal digits.
pub open spec fn padded(n: nat, width: nat) -> Seq<char>
    decreases width,
{
    if width == 0 {
        Seq::empty()
    } else {
        padded(n / 10, (width - 1) as nat) + digit(n % 10)
    }
}

fn padded_text(n: u32, width: u8) -> (r: String)
    ensures
        r@ == padded(n as nat, width as nat),
    decreases width,
{
    proof {
        reveal_strlit("0123456789");
        reveal_strlit("");
    }
    if width == 0 {
        let empty: String = String::new();
        assert(empty@ =~= padded(n as nat, 0));
        return empty;
    }
    let last: usize = (n % 10) as usize;
    let tail: &str = "0123456789".substring_char(last, last + 1);
    let mut out: String = padded_text(n / 10, width - 1);
    out.append(tail);
    out
}

proof fn padded_width(n: nat, width: nat)
    ensures
        padded(n, width).len() == width,
    decreases width,
{
    reveal_strlit("0123456789");
    if width > 0 {
        padded_width(n / 10, (width - 1) as nat);
    }
}

/// Numbers in a fixed count of digits stand in the order of the numbers.
pub proof fn padded_in_order(a: nat, b: nat, width: nat)
    requires
        a < b,
        b < vstd::arithmetic::power::pow(10, width),
    ensures
        chars_lt(padded(a, width), padded(b, width)),
    decreases width,
{
    reveal_strlit("0123456789");
    vstd::arithmetic::power::lemma_pow0(10);
    if width == 0 {
        assert(false);
    } else {
        let less = (width - 1) as nat;
        reveal(vstd::arithmetic::power::pow);
        assert(vstd::arithmetic::power::pow(10, width) == 10 * vstd::arithmetic::power::pow(10, less));
        padded_width(a / 10, less);
        padded_width(b / 10, less);
        if a / 10 < b / 10 {
            padded_in_order(a / 10, b / 10, less);
            chars_lt_extends(padded(a / 10, less), padded(b / 10, less), digit(a % 10), digit(b % 10));
        } else {
            assert(a / 10 == b / 10);
            assert(a % 10 < b % 10);
            let x = digit(a % 10);
            let y = digit(b % 10);
            assert(x.len() == 1 && y.len() == 1);
            assert(x[0] < y[0]);
            assert(chars_lt(x, y));
            chars_lt_behind(padded(a / 10, less), x, y);
        }
    }
}

/// By what a diagnostic is told from others: its code, severity, path and line.
pub open spec fn diagnostic_key(diagnostic: DiagnosticModel) -> Seq<Seq<char>> {
    seq![diagnostic.code, severity_text(diagnostic.severity), diagnostic.path, padded(stored_line(diagnostic.line) as nat, 10)]
}

/// The content of diagnostics.
pub open spec fn diagnostic_models(list: Seq<AnalysisDiagnostic>) -> Seq<DiagnosticModel> {
    list.map_values(|diagnostic: AnalysisDiagnostic| diagnostic@)
}

/// Diagnostics by their keys, with their lines and details; of several with one key the last
/// counts.
pub open spec fn normal_diagnostics(list: Seq<DiagnosticModel>) -> Map<Seq<Seq<char>>, (u32, Seq<char>)> {
    last_wins(
        list.map_values(
            |diagnostic: DiagnosticModel|
                (diagnostic_key(diagnostic), (stored_line(diagnostic.line), stored_text(diagnostic.detail))),
        ),
    )
}

/// What diagnostics contribute to a digest, in the order of their keys.
pub open spec fn diagnostic_bytes(map: Map<Seq<Seq<char>>, (u32, Seq<char>)>) -> Seq<u8> {
    concat_map(
        listed(map.dom()),
        |key: Seq<Seq<char>>| framed_texts(seq![key[0], key[1], key[2], map[key].1]) + little_endian(map[key].0 as nat, 4),
    )
}

/// Diagnostics by their keys.
type DiagnosticMap = SortedMap<Vec<String>, (u32, String)>;

spec fn noted(map: Map<Seq<Seq<char>>, (u32, String)>) -> Map<Seq<Seq<char>>, (u32, Seq<char>)> {
    Map::new(|key: Seq<Seq<char>>| map.contains_key(key), |key: Seq<Seq<char>>| (map[key].0, map[key].1@))
}

fn normalized_diagnostics(list: &Vec<AnalysisDiagnostic>) -> (r: DiagnosticMap)
    ensures
        r.wf(),
        noted(r@) == normal_diagnostics(diagnostic_models(list@)),
        forall|j: int| 0 <= j < r.keys@.len() ==> (#[trigger] r.keys@[j])@.len() == 4,
{
    let ghost all = diagnostic_models(list@);
    let ghost entry = |diagnostic: DiagnosticModel|
        (diagnostic_key(diagnostic), (stored_line(diagnostic.line), stored_text(diagnostic.detail)));
    let ghost entries = all.map_values(entry);
    let mut map: DiagnosticMap = SortedMap::new();
    let mut i: usize = 0;
    assert(noted(map@) =~= last_wins(entries.take(0)));
    while i < list.len()
        invariant
            i <= list@.len(),
            all == diagnostic_models(list@),
            entry == (|diagnostic: DiagnosticModel|
                (diagnostic_key(diagnostic), (stored_line(diagnostic.line), stored_text(diagnostic.detail)))),
            entries == all.map_values(entry),
            map.wf(),
            noted(map@) == last_wins(entries.take(i as int)),
            forall|j: int| 0 <= j < map.keys@.len() ==> (#[trigger] map.keys@[j])@.len() == 4,
        decreases list@.len() - i,
    {
        let diagnostic: &AnalysisDiagnostic = &list[i];
        let line: u32 = line_number(diagnostic.line);
        let mut key: Vec<String> = Vec::new();
        key.push(diagnostic.code.clone());
        key.push(severity_name(diagnostic.severity).to_owned());
        key.push(diagnostic.path.clone());
        key.push(padded_text(line, 10));
        let detail: String = text_or_nothing(&diagnostic.detail);
        let ghost before = map;
        let ghost k = key;
        let ghost v = (line, detail@);
        proof {
            assert(texts(key@) =~= diagnostic_key(diagnostic@));
            last_wins_step(entries, i as int);
            assert(entries[i as int] == entry(diagnostic@));
        }
        map.insert(key, (line, detail));
        proof {
            assert(noted(map@) =~= noted(before@).insert(k.key(), v));
            assert(texts(k@).len() == k@.len());
            assert forall|j: int| 0 <= j < map.keys@.len() implies (#[trigger] map.keys@[j])@.len() == 4 by {
                map.entry(j);
                let at = map.keys@[j].key();
                assert(texts(map.keys@[j]@).len() == map.keys@[j]@.len());
                if at != k.key() {
                    assert(before@.contains_key(at));
                    let p = before.position(at);
                    assert(before.keys@[p]@.len() == 4);
                    assert(texts(before.keys@[p]@).len() == 4);
                }
            }
        }
        i = i + 1;
    }
    assert(entries.take(entries.len() as int) =~= entries);
    map
}

proof fn framed_four(a: Seq<char>, b: Seq<char>, c: Seq<char>, d: Seq<char>)
    ensures
        framed_texts(seq![a, b, c, d]) == framed(a) + framed(b) + framed(c) + framed(d),
{
    let piece = |text: Seq<char>| framed(text);
    let list = seq![a, b, c, d];
    concat_map_step(list, 0, piece);
    concat_map_step(list, 1, piece);
    concat_map_step(list, 2, piece);
    concat_map_step(list, 3, piece);
    assert(list.take(4) =~= list);
    assert(concat_map(list.take(0), piece) =~= Seq::<u8>::empty());
    assert(framed_texts(list) =~= framed(a) + framed(b) + framed(c) + framed(d));
}

fn hash_diagnostics(bytes: &mut Vec<u8>, list: &Vec<AnalysisDiagnostic>)
    ensures
        final(bytes)@ == old(bytes)@ + diagnostic_bytes(normal_diagnostics(diagnostic_models(list@))),
{
    let map: DiagnosticMap = normalized_diagnostics(list);
    let ghost before = bytes@;
    let ghost all = map.listing();
    let ghost models = noted(map@);
    let ghost piece = |key: Seq<Seq<char>>|
        framed_texts(seq![key[0], key[1], key[2], models[key].1]) + little_endian(models[key].0 as nat, 4);
    let mut i: usize = 0;
    assert(before + concat_map(all.take(0), piece) =~= before);
    while i < map.keys.len()
        invariant
            i <= map.keys@.len(),
            map.wf(),
            all == map.listing(),
            models == noted(map@),
            forall|j: int| 0 <= j < map.keys@.len() ==> (#[trigger] map.keys@[j])@.len() == 4,
            piece == (|key: Seq<Seq<char>>|
                framed_texts(seq![key[0], key[1], key[2], models[key].1]) + little_endian(models[key].0 as nat, 4)),
            bytes@ == before + concat_map(all.take(i as int), piece),
        decreases map.keys@.len() - i,
    {
        let ghost so_far = bytes@;
        let key: &Vec<String> = &map.keys[i];
        assert(key@.len() == 4);
        hash_string(bytes, key[0].as_str());
        hash_string(bytes, key[1].as_str());
        hash_string(bytes, key[2].as_str());
        hash_string(bytes, map.values[i].1.as_str());
        hash_line(bytes, map.values[i].0);
        proof {
            map.entry(i as int);
            concat_map_step(all, i as int, piece);
            let k = all[i as int];
            assert(k == texts(key@));
            framed_four(k[0], k[1], k[2], models[k].1);
            assert(bytes@ =~= so_far + piece(k));
            assert(bytes@ =~= before + concat_map(all.take(i as int + 1), piece));
        }
        i = i + 1;
    }
    proof {
        map.lists_its_keys();
        assert(models.dom() =~= map@.dom());
        assert(all.take(all.len() as int) =~= all);
    }
}

/// What a repository contributes to the digest of a baseline.
pub open spec fn facts_bytes(facts: RepositoryFacts) -> Seq<u8> {
    framed(facts.state@.repository) + entity_bytes(normal_entities(entity_models(facts.entities@))) + normal_bytes(
        normal_observations(observation_models(facts.observations@)),
    ) + diagnostic_bytes(normal_diagnostics(diagnostic_models(facts.diagnostics@)))
}

/// What an entity contributes to the digest of a baseline.
pub open spec fn entity_texts(entity: EntityModel) -> Seq<Seq<char>> {
    seq![entity.id, entity_kind_text(entity.kind), entity_metadata_text(entity.metadata)]
}

/// What an observation contributes to the digest of a baseline.
pub open spec fn observation_bytes(observation: ObservationModel) -> Seq<u8> {
    framed_texts(
        seq![
            observation.from,
            relation_name_text(observation.relation),
            observation.to,
            observation.evidence,
            provenance_name_text(observation.provenance),
        ],
    ) + little_endian(confidence_score(observation.confidence) as nat, 8)
}

/// The content of overrides.
pub open spec fn override_models(list: Seq<DependencyOverride>) -> Seq<OverrideModel> {
    list.map_values(|override_: DependencyOverride| override_@)
}

/// By what an override is told from others.
pub open spec fn override_key(override_: OverrideModel) -> Seq<Seq<char>> {
    seq![override_.from, relation_name_text(SemanticRelation::Dependency(override_.relation)), override_.unresolved_to]
}

/// Overrides by their keys; of several with one key the last counts.
pub open spec fn normal_overrides(list: Seq<OverrideModel>) -> Map<Seq<Seq<char>>, OverrideModel> {
    last_wins(list.map_values(|override_: OverrideModel| (override_key(override_), override_)))
}

/// What an override contributes to the digest of a baseline.
pub open spec fn override_bytes(override_: OverrideModel) -> Seq<u8> {
    framed_texts(
        override_key(override_) + seq![override_.resolved_to, override_.evidence, provenance_name_text(override_.provenance)],
    ) + little_endian(confidence_score(override_.confidence) as nat, 8)
}

/// What goes into the digest of a baseline.
pub open spec fn baseline_bytes(repositories: Seq<RepositoryFacts>, resolution: ResolutionModel, overrides: Seq<OverrideModel>) -> Seq<u8> {
    concat_map(repositories, |facts: RepositoryFacts| facts_bytes(facts)) + concat_map(
        operation_entities(resolution.operations),
        |entity: EntityModel| framed_texts(entity_texts(entity)),
    ) + concat_map(resolution.observations, |observation: ObservationModel| observation_bytes(observation)) + concat_map(
        listed(normal_overrides(overrides).dom()),
        |key: Seq<Seq<char>>| override_bytes(normal_overrides(overrides)[key]),
    ) + concat_map(resolution.diagnostics, |diagnostic: GrpcDiagnosticModel| framed_texts(grpc_diagnostic_texts(diagnostic)))
}

fn hash_facts(bytes: &mut Vec<u8>, repositories: &Vec<RepositoryFacts>)
    ensures
        final(bytes)@ == old(bytes)@ + concat_map(repositories@, |facts: RepositoryFacts| facts_bytes(facts)),
{
    let ghost before = bytes@;
    let ghost piece = |facts: RepositoryFacts| facts_bytes(facts);
    let mut i: usize = 0;
    assert(before + concat_map(repositories@.take(0), piece) =~= before);
    while i < repositories.len()
        invariant
            i <= repositories@.len(),
            piece == (|facts: RepositoryFacts| facts_bytes(facts)),
            bytes@ == before + concat_map(repositories@.take(i as int), piece),
        decreases repositories@.len() - i,
    {
        let ghost so_far = bytes@;
        let facts: &RepositoryFacts = &repositories[i];
        hash_string(bytes, facts.state.repository.identity.as_str());
        hash_entities(bytes, &normalized_entities(&facts.entities));
        hash_normal(bytes, &normalized_observations(&facts.observations));
        hash_diagnostics(bytes, &facts.diagnostics);
        proof {
            concat_map_step(repositories@, i as int, piece);
            assert(bytes@ =~= so_far + piece(*facts));
            assert(bytes@ =~= before + concat_map(repositories@.take(i as int + 1), piece));
        }
        i = i + 1;
    }
    assert(repositories@.take(repositories@.len() as int) =~= repositories@);
}

fn hash_operations(bytes: &mut Vec<u8>, list: &Vec<EntityFact>)
    ensures
        final(bytes)@ == old(bytes)@ + concat_map(
            entity_models(list@),
            |entity: EntityModel| framed_texts(entity_texts(entity)),
        ),
{
    let ghost before = bytes@;
    let ghost all = entity_models(list@);
    let ghost piece = |entity: EntityModel| framed_texts(entity_texts(entity));
    let mut i: usize = 0;
    assert(before + concat_map(all.take(0), piece) =~= before);
    while i < list.len()
        invariant
            i <= list@.len(),
            all == entity_models(list@),
            piece == (|entity: EntityModel| framed_texts(entity_texts(entity))),
            bytes@ == before + concat_map(all.take(i as int), piece),
        decreases list@.len() - i,
    {
        let mut parts: Vec<String> = Vec::new();
        parts.push(list[i].id.clone());
        parts.push(entity_kind(list[i].kind).to_owned());
        parts.push(entity_metadata(list[i].metadata).to_owned());
        assert(texts(parts@) =~= entity_texts(list@[i as int]@));
        hash_texts(bytes, &parts);
        proof {
            concat_map_step(all, i as int, piece);
            assert(all[i as int] == list@[i as int]@);
            assert(bytes@ =~= before + concat_map(all.take(i as int + 1), piece));
        }
        i = i + 1;
    }
    assert(all.take(all.len() as int) =~= all);
}

fn hash_observations(bytes: &mut Vec<u8>, list: &Vec<Observation>)
    ensures
        final(bytes)@ == old(bytes)@ + concat_map(
            observation_models(list@),
            |observation: ObservationModel| observation_bytes(observation),
        ),
{
    let ghost before = bytes@;
    let ghost all = observation_models(list@);
    let ghost piece = |observation: ObservationModel| observation_bytes(observation);
    let mut i: usize = 0;
    assert(before + concat_map(all.take(0), piece) =~= before);
    while i < list.len()
        invariant
            i <= list@.len(),
            all == observation_models(list@),
            piece == (|observation: ObservationModel| observation_bytes(observation)),
            bytes@ == before + concat_map(all.take(i as int), piece),
        decreases list@.len() - i,
    {
        let observation: &Observation = &list[i];
        let mut parts: Vec<String> = Vec::new();
        parts.push(observation.from.clone());
        parts.push(relation_name(observation.relation).to_owned());
        parts.push(observation.to.clone());
        parts.push(observation.evidence.clone());
        parts.push(provenance_name(observation.provenance).to_owned());
        assert(texts(parts@) =~= seq![
            observation@.from,
            relation_name_text(observation@.relation),
            observation@.to,
            observation@.evidence,
            provenance_name_text(observation@.provenance),
        ]);
        hash_texts(bytes, &parts);
        hash_number(bytes, confidence_bits(observation.confidence));
        proof {
            concat_map_step(all, i as int, piece);
            assert(all[i as int] == observation@);
            assert(bytes@ =~= before + concat_map(all.take(i as int + 1), piece));
        }
        i = i + 1;
    }
    assert(all.take(all.len() as int) =~= all);
}

/// By what an override is told from others.
pub fn key_of_override(override_: &DependencyOverride) -> (r: Vec<String>)
    ensures
        texts(r@) == override_key(override_@),
{
    let mut key: Vec<String> = Vec::new();
    key.push(override_.from.clone());
    key.push(relation_name(SemanticRelation::Dependency(override_.relation)).to_owned());
    key.push(override_.unresolved_to.clone());
    assert(texts(key@) =~= override_key(override_@));
    key
}

/// Where the overrides stand that count.
spec fn placed(map: Map<Seq<Seq<char>>, usize>, list: Seq<OverrideModel>) -> Map<Seq<Seq<char>>, OverrideModel> {
    Map::new(|key: Seq<Seq<char>>| map.contains_key(key), |key: Seq<Seq<char>>| list[map[key] as int])
}

fn hash_overrides(bytes: &mut Vec<u8>, list: &Vec<DependencyOverride>)
    ensures
        final(bytes)@ == old(bytes)@ + concat_map(
            listed(normal_overrides(override_models(list@)).dom()),
            |key: Seq<Seq<char>>| override_bytes(normal_overrides(override_models(list@))[key]),
        ),
{
    let ghost all = override_models(list@);
    let ghost entry = |override_: OverrideModel| (override_key(override_), override_);
    let ghost entries = all.map_values(entry);
    let mut map: SortedMap<Vec<String>, usize> = SortedMap::new();
    let mut i: usize = 0;
    assert(placed(map@, all) =~= last_wins(entries.take(0)));
    while i < list.len()
        invariant
            i <= list@.len(),
            all == override_models(list@),
            entry == (|override_: OverrideModel| (override_key(override_), override_)),
            entries == all.map_values(entry),
            map.wf(),
            forall|key: Seq<Seq<char>>| #[trigger] map@.contains_key(key) ==> map@[key] < i,
            placed(map@, all) == last_wins(entries.take(i as int)),
        decreases list@.len() - i,
    {
        let key: Vec<String> = key_of_override(&list[i]);
        let ghost k = key.key();
        let ghost before = map@;
        map.insert(key, i);
        proof {
            last_wins_step(entries, i as int);
            assert(entries[i as int] == entry(list@[i as int]@));
            assert(placed(map@, all) =~= placed(before, all).insert(k, all[i as int]));
        }
        i = i + 1;
    }
    let ghost models = normal_overrides(all);
    proof {
        assert(entries.take(entries.len() as int) =~= entries);
        assert(placed(map@, all) == models);
        assert(models.dom() =~= map@.dom());
        map.lists_its_keys();
    }
    let ghost before = bytes@;
    let ghost keys = map.listing();
    let ghost piece = |key: Seq<Seq<char>>| override_bytes(models[key]);
    let mut j: usize = 0;
    assert(before + concat_map(keys.take(0), piece) =~= before);
    while j < map.keys.len()
        invariant
            j <= map.keys@.len(),
            map.wf(),
            all == override_models(list@),
            forall|key: Seq<Seq<char>>| #[trigger] map@.contains_key(key) ==> map@[key] < list@.len(),
            models == placed(map@, all),
            keys == map.listing(),
            piece == (|key: Seq<Seq<char>>| override_bytes(models[key])),
            bytes@ == before + concat_map(keys.take(j as int), piece),
        decreases map.keys@.len() - j,
    {
        proof {
            map.entry(j as int);
        }
        let override_: &DependencyOverride = &list[map.values[j]];
        let mut parts: Vec<String> = key_of_override(override_);
        let ghost front = parts@;
        parts.push(override_.resolved_to.clone());
        parts.push(override_.evidence.clone());
        parts.push(provenance_name(override_.provenance).to_owned());
        assert(texts(parts@) =~= texts(front) + seq![
            override_@.resolved_to,
            override_@.evidence,
            provenance_name_text(override_@.provenance),
        ]);
        hash_texts(bytes, &parts);
        hash_number(bytes, confidence_bits(override_.confidence));
        proof {
            concat_map_step(keys, j as int, piece);
            assert(models[keys[j as int]] == override_@);
            assert(bytes@ =~= before + concat_map(keys.take(j as int + 1), piece));
        }
        j = j + 1;
    }
    assert(keys.take(keys.len() as int) =~= keys);
}

fn hash_reports(bytes: &mut Vec<u8>, list: &Vec<GrpcDiagnostic>)
    ensures
        final(bytes)@ == old(bytes)@ + concat_map(
            grpc_diagnostic_models(list@),
            |diagnostic: GrpcDiagnosticModel| framed_texts(grpc_diagnostic_texts(diagnostic)),
        ),
{
    let ghost before = bytes@;
    let ghost all = grpc_diagnostic_models(list@);
    let ghost piece = |diagnostic: GrpcDiagnosticModel| framed_texts(grpc_diagnostic_texts(diagnostic));
    let mut i: usize = 0;
    assert(before + concat_map(all.take(0), piece) =~= before);
    while i < list.len()
        invariant
            i <= list@.len(),
            all == grpc_diagnostic_models(list@),
            piece == (|diagnostic: GrpcDiagnosticModel| framed_texts(grpc_diagnostic_texts(diagnostic))),
            bytes@ == before + concat_map(all.take(i as int), piece),
        decreases list@.len() - i,
    {
        hash_texts(bytes, &texts_of_grpc_diagnostic(&list[i]));
        proof {
            concat_map_step(all, i as int, piece);
            assert(all[i as int] == list@[i as int]@);
            assert(bytes@ =~= before + concat_map(all.take(i as int + 1), piece));
        }
        i = i + 1;
    }
    assert(all.take(all.len() as int) =~= all);
}

/// The fingerprint of a baseline.
pub open spec fn baseline_name(repositories: Seq<RepositoryFacts>, resolution: ResolutionModel, overrides: Seq<OverrideModel>) -> Seq<char> {
    hex(sha256_of(baseline_bytes(repositories, resolution, overrides)))
}

/// The fingerprint of a baseline: a digest of all that the repositories hold and that follows
/// from it.
pub fn baseline_fingerprint(
    repositories: &Vec<RepositoryFacts>,
    resolution: &GrpcResolution,
    overrides: &Vec<DependencyOverride>,
) -> (r: String)
    requires
        resolution.wf(),
    ensures
        r@ == baseline_name(repositories@, resolution@, override_models(overrides@)),
{
    let mut bytes: Vec<u8> = Vec::new();
    hash_facts(&mut bytes, repositories);
    hash_operations(&mut bytes, &entities_of_operations(&resolution.operations));
    hash_observations(&mut bytes, &resolution.observations);
    hash_overrides(&mut bytes, overrides);
    hash_reports(&mut bytes, &resolution.diagnostics);
    assert(bytes@ =~= baseline_bytes(repositories@, resolution@, override_models(overrides@)));
    hex_digest(&bytes)
}

/// The order in which overrides are given does not show in the fingerprint of a baseline as long
/// as the same of them count.
pub proof fn baselines_ignore_the_order_of_overrides(
    repositories: Seq<RepositoryFacts>,
    resolution: ResolutionModel,
    a: Seq<OverrideModel>,
    b: Seq<OverrideModel>,
)
    requires
        normal_overrides(a) == normal_overrides(b),
    ensures
        baseline_name(repositories, resolution, a) == baseline_name(repositories, resolution, b),
{
}

/// What takes the baseline of a view anew.
pub open spec fn snapshot_replaced(view: Seq<char>) -> Seq<CommandModel> {
    seq![
        view_bound(CLEAR_BASELINE_ENTITIES@, view),
        view_bound(CLEAR_BASELINE_OBSERVATIONS@, view),
        view_bound(CLEAR_BASELINE_OVERRIDES@, view),
        view_bound(CLEAR_BASELINE_DIAGNOSTICS@, view),
        view_bound(FILL_STATE_ENTITIES@, view),
        view_bound(FILL_STATE_OBSERVATIONS@, view),
        view_bound(FILL_REVISION_ENTITIES@, view),
        view_bound(FILL_REVISION_OBSERVATIONS@, view),
        view_bound(FILL_OVERRIDES@, view),
        view_bound(FILL_DIAGNOSTICS@, view),
    ]
}

/// Takes the baseline of a view anew.
pub fn replace_baseline_snapshot(view: &str) -> (r: Vec<Command>)
    ensures
        command_models(r@) == snapshot_replaced(view@),
{
    let mut commands: Vec<Command> = Vec::new();
    commands.push(view_command(CLEAR_BASELINE_ENTITIES, view));
    commands.push(view_command(CLEAR_BASELINE_OBSERVATIONS, view));
    commands.push(view_command(CLEAR_BASELINE_OVERRIDES, view));
    commands.push(view_command(CLEAR_BASELINE_DIAGNOSTICS, view));
    commands.push(view_command(FILL_STATE_ENTITIES, view));
    commands.push(view_command(FILL_STATE_OBSERVATIONS, view));
    commands.push(view_command(FILL_REVISION_ENTITIES, view));
    commands.push(view_command(FILL_REVISION_OBSERVATIONS, view));
    commands.push(view_command(FILL_OVERRIDES, view));
    commands.push(view_command(FILL_DIAGNOSTICS, view));
    assert(command_models(commands@) =~= snapshot_replaced(view@));
    commands
}

/// A script about a view and a fingerprint.
pub open spec fn fingerprint_bound(script: Seq<char>, view: Seq<char>, fingerprint: Seq<char>) -> CommandModel {
    texts_bound(script, seq![("view"@, view), ("fingerprint"@, fingerprint)])
}

/// A script about a view and a fingerprint.
pub fn fingerprint_command(script: &str, view: &str, fingerprint: &str) -> (r: Command)
    ensures
        r@ == fingerprint_bound(script@, view@, fingerprint@),
{
    let pairs: Vec<(&str, &str)> = vec![("view", view), ("fingerprint", fingerprint)];
    assert(named_texts(pairs@) =~= seq![("view"@, view@), ("fingerprint"@, fingerprint@)]);
    texts_command(script, &pairs)
}

} // verus!
