//! What a publication changes in what a view shows.

use crate::baseline::override_models;
use crate::command::{view_bound, view_command, Command};
use crate::domain::{relation_name, relation_name_text, Observation, ObservationModel, SemanticRelation};
use crate::normal::observation_key;
use crate::records::{observation_models, DependencyOverride, FactChanges, FactShard, OverrideModel, RepositoryFacts};
use crate::revisions::{first_texts, texts_up_to};
use crate::rows::{cell_text, text_at, InspectionValue};
use crate::scripts::Rules;
use crate::seqs::{keep, keep_step, last_wins, last_wins_step};
use crate::sorted::{texts, Key, SortedMap};
use crate::text::same;
use vstd::prelude::*;

verus! {

/// The evidence of observations by their ends and relations.
pub type Shown = Map<Seq<Seq<char>>, Seq<char>>;

/// Asks for the observations that a view shows.
pub fn ask_effective(rules: &Rules, view: &str) -> (r: Command)
    ensures
        r@ == view_bound(effective_script(rules.direct@), view@),
{
    let mut script: String = rules.direct.clone();
    script.append("\n?[from, relation, to, evidence] := effective_observation[from, to, relation, evidence, _, _]");
    view_command(script.as_str(), view)
}

/// The question which observations a view shows.
pub open spec fn effective_script(rules: Seq<char>) -> Seq<char> {
    rules + "\n?[from, relation, to, evidence] := effective_observation[from, to, relation, evidence, _, _]"@
}

/// How a value of an observation that is no string is reported.
pub const SHOWN_NOT_A_STRING: &'static str = "observation contains a non-string value";

/// The observations that the first rows show.
pub open spec fn shown(rows: Seq<Vec<InspectionValue>>, n: int) -> Result<Shown, Seq<char>>
    decreases n,
{
    if n <= 0 {
        Ok(Map::empty())
    } else {
        match shown(rows, n - 1) {
            Err(message) => Err(message),
            Ok(before) => if texts_up_to(rows[n - 1]@, 4) {
                Ok(before.insert(first_texts(rows[n - 1]@, 3), cell_text(rows[n - 1]@, 3)->0))
            } else {
                Err(SHOWN_NOT_A_STRING@)
            },
        }
    }
}

proof fn shown_error(rows: Seq<Vec<InspectionValue>>, k: int, n: int)
    requires
        0 <= k <= n,
        shown(rows, k) is Err,
    ensures
        shown(rows, n) == shown(rows, k),
    decreases n - k,
{
    if k < n {
        shown_error(rows, k + 1, n);
    }
}

/// Evidence by the ends and relations of observations.
pub type ShownMap = SortedMap<Vec<String>, String>;

/// The content of what is shown.
pub open spec fn evidence_of(map: Map<Seq<Seq<char>>, String>) -> Shown {
    Map::new(|key: Seq<Seq<char>>| map.contains_key(key), |key: Seq<Seq<char>>| map[key]@)
}

/// Reads the observations that a view shows.
pub fn decode_shown(rows: &Vec<Vec<InspectionValue>>) -> (r: Result<ShownMap, String>)
    ensures
        r is Ok <==> shown(rows@, rows@.len() as int) is Ok,
        r is Ok ==> r->Ok_0.wf() && evidence_of(r->Ok_0@) == shown(rows@, rows@.len() as int)->Ok_0,
        r is Err ==> r->Err_0@ == shown(rows@, rows@.len() as int)->Err_0,
{
    let mut map: ShownMap = SortedMap::new();
    let mut i: usize = 0;
    assert(evidence_of(map@) =~= Map::empty());
    while i < rows.len()
        invariant
            i <= rows@.len(),
            map.wf(),
            shown(rows@, i as int) is Ok,
            evidence_of(map@) == shown(rows@, i as int)->Ok_0,
        decreases rows@.len() - i,
    {
        let row: &Vec<InspectionValue> = &rows[i];
        match (text_at(row, 0), text_at(row, 1), text_at(row, 2), text_at(row, 3)) {
            (Some(from), Some(relation), Some(to), Some(evidence)) => {
                let mut key: Vec<String> = Vec::new();
                key.push(from.to_owned());
                key.push(relation.to_owned());
                key.push(to.to_owned());
                let ghost before = map@;
                let ghost k = key.key();
                map.insert(key, evidence.to_owned());
                proof {
                    assert(texts_up_to(row@, 4));
                    assert(k =~= first_texts(row@, 3));
                    assert(evidence_of(map@) =~= evidence_of(before).insert(k, evidence@));
                }
            },
            _ => {
                proof {
                    assert(!texts_up_to(row@, 4)) by {
                        if texts_up_to(row@, 4) {
                            assert(cell_text(row@, 0) is Some);
                            assert(cell_text(row@, 1) is Some);
                            assert(cell_text(row@, 2) is Some);
                            assert(cell_text(row@, 3) is Some);
                        }
                    }
                    shown_error(rows@, i as int + 1, rows@.len() as int);
                }
                return Err(SHOWN_NOT_A_STRING.to_owned());
            },
        }
        i = i + 1;
    }
    Ok(map)
}

/// What an override takes the place of: a dependency with its evidence.
pub open spec fn overridden(override_: OverrideModel) -> Seq<Seq<char>> {
    seq![
        override_.from,
        relation_name_text(SemanticRelation::Dependency(override_.relation)),
        override_.unresolved_to,
        override_.evidence,
    ]
}

/// Where dependencies lead that are overridden; of several overrides the last counts.
pub open spec fn targets(overrides: Seq<OverrideModel>) -> Shown {
    last_wins(overrides.map_values(|override_: OverrideModel| (overridden(override_), override_.resolved_to)))
}

/// Where an observation leads.
pub open spec fn led_to(targets: Shown, observation: ObservationModel) -> Seq<char> {
    let key = observation_key(observation).push(observation.evidence);
    if targets.contains_key(key) {
        targets[key]
    } else {
        observation.to
    }
}

/// By what an observation is shown.
pub open spec fn shown_key(targets: Shown, observation: ObservationModel) -> Seq<Seq<char>> {
    seq![observation.from, relation_name_text(observation.relation), led_to(targets, observation)]
}

/// What is shown with some more observations.
pub open spec fn shown_after(targets: Shown, base: Shown, list: Seq<ObservationModel>) -> Shown
    decreases list.len(),
{
    if list.len() == 0 {
        base
    } else {
        shown_after(targets, base, list.drop_last()).insert(shown_key(targets, list.last()), list.last().evidence)
    }
}

/// What is shown of the first repositories.
pub open spec fn shown_of_repositories(targets: Shown, repositories: Seq<RepositoryFacts>, n: int) -> Shown
    decreases n,
{
    if n <= 0 {
        Map::empty()
    } else {
        shown_after(
            targets,
            shown_of_repositories(targets, repositories, n - 1),
            observation_models(repositories[n - 1].observations@),
        )
    }
}

/// What is shown with the first shards.
pub open spec fn shown_with_shards(targets: Shown, base: Shown, shards: Seq<FactShard>, n: int) -> Shown
    decreases n,
{
    if n <= 0 {
        base
    } else {
        shown_after(targets, shown_with_shards(targets, base, shards, n - 1), observation_models(shards[n - 1].observations@))
    }
}

/// What is shown next: what the repositories hold, what follows from the bindings in them, and
/// what the shards hold, with the overrides in place.
pub open spec fn shown_next(
    repositories: Seq<RepositoryFacts>,
    bound: Seq<ObservationModel>,
    shards: Seq<FactShard>,
    overrides: Seq<OverrideModel>,
) -> Shown {
    let targets = targets(overrides);
    let held = shown_of_repositories(targets, repositories, repositories.len() as int);
    shown_with_shards(targets, shown_after(targets, held, bound), shards, shards.len() as int)
}

fn decode_targets(overrides: &Vec<DependencyOverride>) -> (r: ShownMap)
    ensures
        r.wf(),
        evidence_of(r@) == targets(override_models(overrides@)),
{
    let ghost all = override_models(overrides@);
    let ghost entries = all.map_values(|override_: OverrideModel| (overridden(override_), override_.resolved_to));
    let mut map: ShownMap = SortedMap::new();
    let mut i: usize = 0;
    assert(evidence_of(map@) =~= last_wins(entries.take(0)));
    while i < overrides.len()
        invariant
            i <= overrides@.len(),
            all == override_models(overrides@),
            entries == all.map_values(|override_: OverrideModel| (overridden(override_), override_.resolved_to)),
            map.wf(),
            evidence_of(map@) == last_wins(entries.take(i as int)),
        decreases overrides@.len() - i,
    {
        let override_: &DependencyOverride = &overrides[i];
        let mut key: Vec<String> = Vec::new();
        key.push(override_.from.clone());
        key.push(relation_name(SemanticRelation::Dependency(override_.relation)).to_owned());
        key.push(override_.unresolved_to.clone());
        key.push(override_.evidence.clone());
        let ghost before = map@;
        let ghost k = key.key();
        map.insert(key, override_.resolved_to.clone());
        proof {
            assert(k =~= overridden(override_@));
            last_wins_step(entries, i as int);
            assert(entries[i as int] == (overridden(override_@), override_@.resolved_to));
            assert(evidence_of(map@) =~= evidence_of(before).insert(k, override_@.resolved_to));
        }
        i = i + 1;
    }
    assert(entries.take(entries.len() as int) =~= entries);
    map
}

fn show(map: &mut ShownMap, targets: &ShownMap, list: &Vec<Observation>)
    requires
        old(map).wf(),
        targets.wf(),
    ensures
        final(map).wf(),
        evidence_of(final(map)@) == shown_after(evidence_of(targets@), evidence_of(old(map)@), observation_models(list@)),
{
    let ghost base = evidence_of(map@);
    let ghost leads = evidence_of(targets@);
    let ghost all = observation_models(list@);
    let mut i: usize = 0;
    assert(all.take(0) =~= Seq::empty());
    while i < list.len()
        invariant
            i <= list@.len(),
            targets.wf(),
            leads == evidence_of(targets@),
            all == observation_models(list@),
            map.wf(),
            evidence_of(map@) == shown_after(leads, base, all.take(i as int)),
        decreases list@.len() - i,
    {
        let observation: &Observation = &list[i];
        let mut wanted: Vec<String> = Vec::new();
        wanted.push(observation.from.clone());
        wanted.push(relation_name(observation.relation).to_owned());
        wanted.push(observation.to.clone());
        wanted.push(observation.evidence.clone());
        assert(texts(wanted@) =~= observation_key(observation@).push(observation@.evidence));
        let to: String = match targets.get(&wanted) {
            Some(found) => found.clone(),
            None => observation.to.clone(),
        };
        let mut key: Vec<String> = Vec::new();
        key.push(observation.from.clone());
        key.push(relation_name(observation.relation).to_owned());
        key.push(to);
        let ghost before = map@;
        let ghost k = key.key();
        map.insert(key, observation.evidence.clone());
        proof {
            assert(to@ == led_to(leads, observation@));
            assert(k =~= shown_key(leads, observation@));
            assert(all.take(i as int + 1).drop_last() =~= all.take(i as int));
            assert(all.take(i as int + 1).last() == observation@);
            assert(evidence_of(map@) =~= evidence_of(before).insert(k, observation@.evidence));
        }
        i = i + 1;
    }
    assert(all.take(all.len() as int) =~= all);
}

/// Tells what is shown next.
pub fn next_observations(
    repositories: &Vec<RepositoryFacts>,
    bound: &Vec<Observation>,
    shards: &Vec<FactShard>,
    overrides: &Vec<DependencyOverride>,
) -> (r: ShownMap)
    ensures
        r.wf(),
        evidence_of(r@) == shown_next(repositories@, observation_models(bound@), shards@, override_models(overrides@)),
{
    let leads: ShownMap = decode_targets(overrides);
    let ghost targets = evidence_of(leads@);
    let mut map: ShownMap = SortedMap::new();
    let mut i: usize = 0;
    assert(evidence_of(map@) =~= Map::empty());
    while i < repositories.len()
        invariant
            i <= repositories@.len(),
            leads.wf(),
            targets == evidence_of(leads@),
            map.wf(),
            evidence_of(map@) == shown_of_repositories(targets, repositories@, i as int),
        decreases repositories@.len() - i,
    {
        show(&mut map, &leads, &repositories[i].observations);
        i = i + 1;
    }
    show(&mut map, &leads, bound);
    let ghost base = evidence_of(map@);
    let mut j: usize = 0;
    while j < shards.len()
        invariant
            j <= shards@.len(),
            leads.wf(),
            targets == evidence_of(leads@),
            map.wf(),
            evidence_of(map@) == shown_with_shards(targets, base, shards@, j as int),
        decreases shards@.len() - j,
    {
        show(&mut map, &leads, &shards[j].observations);
        j = j + 1;
    }
    map
}

/// What changes from what is shown to what is shown next.
pub open spec fn differ_by(current: Shown, next: Shown, changes: FactChanges) -> bool {
    &&& changes.inserted == next.dom().filter(|key: Seq<Seq<char>>| !current.contains_key(key)).len()
    &&& changes.updated == next.dom().filter(|key: Seq<Seq<char>>| current.contains_key(key) && current[key] != next[key]).len()
    &&& changes.unchanged == next.dom().filter(|key: Seq<Seq<char>>| current.contains_key(key) && current[key] == next[key]).len()
    &&& changes.removed == current.dom().filter(|key: Seq<Seq<char>>| !next.contains_key(key)).len()
}

proof fn kept_count<A>(list: Seq<A>, wanted: spec_fn(A) -> bool)
    requires
        list.no_duplicates(),
    ensures
        keep(list, wanted).len() == list.to_set().filter(wanted).len(),
        list.to_set().finite(),
    decreases list.len(),
{
    list.unique_seq_to_set();
    if list.len() == 0 {
        assert(list.to_set().filter(wanted) =~= Set::empty());
    } else {
        let shorter = list.drop_last();
        let last = list.last();
        kept_count(shorter, wanted);
        shorter.unique_seq_to_set();
        assert(!shorter.contains(last)) by {
            if shorter.contains(last) {
                let i = shorter.index_of(last);
                assert(list[i] == list[list.len() - 1]);
            }
        }
        assert forall|x: A| #[trigger] list.to_set().contains(x) <==> shorter.to_set().insert(last).contains(x) by {
            if list.to_set().contains(x) {
                let i = list.index_of(x);
                if i < shorter.len() {
                    assert(shorter[i] == x);
                }
            }
            if shorter.to_set().contains(x) {
                let i = shorter.index_of(x);
                assert(list[i] == x);
            }
            if x == last {
                assert(list[list.len() - 1] == x);
            }
        }
        assert(list.to_set() =~= shorter.to_set().insert(last));
        let before = shorter.to_set().filter(wanted);
        vstd::set_lib::lemma_set_subset_finite(shorter.to_set(), before);
        if wanted(last) {
            assert(list.to_set().filter(wanted) =~= before.insert(last));
            assert(!before.contains(last));
        } else {
            assert(list.to_set().filter(wanted) =~= before);
        }
    }
}

proof fn kept_bounded<A>(list: Seq<A>, wanted: spec_fn(A) -> bool)
    ensures
        keep(list, wanted).len() <= list.len(),
    decreases list.len(),
{
    if list.len() > 0 {
        kept_bounded(list.drop_last(), wanted);
    }
}

proof fn listing_counts(map: ShownMap, wanted: spec_fn(Seq<Seq<char>>) -> bool)
    requires
        map.wf(),
    ensures
        keep(map.listing(), wanted).len() == evidence_of(map@).dom().filter(wanted).len(),
{
    let list = map.listing();
    assert(list.no_duplicates()) by {
        assert forall|i: int, j: int| 0 <= i < list.len() && 0 <= j < list.len() && i != j implies list[i] != list[j] by {
            if list[i] == list[j] {
                crate::sorted::ascending_distinct(list, i, j);
            }
        }
    }
    kept_count(list, wanted);
    assert(list.to_set() =~= evidence_of(map@).dom()) by {
        assert forall|key: Seq<Seq<char>>| list.to_set().contains(key) <==> #[trigger] evidence_of(map@).dom().contains(key) by {
            if list.contains(key) {
                let i = list.index_of(key);
                map.entry(i);
            }
            if map@.contains_key(key) {
                let p = map.position(key);
                assert(list[p] == key);
            }
        }
    }
}

/// Tells what changes from what is shown to what is shown next.
pub fn observation_changes(current: &ShownMap, next: &ShownMap) -> (r: FactChanges)
    requires
        current.wf(),
        next.wf(),
    ensures
        differ_by(evidence_of(current@), evidence_of(next@), r),
{
    let ghost old_shown = evidence_of(current@);
    let ghost new_shown = evidence_of(next@);
    let ghost fresh = |key: Seq<Seq<char>>| !old_shown.contains_key(key);
    let ghost newer = |key: Seq<Seq<char>>| old_shown.contains_key(key) && old_shown[key] != new_shown[key];
    let ghost kept = |key: Seq<Seq<char>>| old_shown.contains_key(key) && old_shown[key] == new_shown[key];
    let ghost gone = |key: Seq<Seq<char>>| !new_shown.contains_key(key);
    let ghost all = next.listing();
    let mut changes: FactChanges = FactChanges { inserted: 0, updated: 0, removed: 0, unchanged: 0 };
    let mut i: usize = 0;
    while i < next.keys.len()
        invariant
            current.wf(),
            next.wf(),
            old_shown == evidence_of(current@),
            new_shown == evidence_of(next@),
            fresh == (|key: Seq<Seq<char>>| !old_shown.contains_key(key)),
            newer == (|key: Seq<Seq<char>>| old_shown.contains_key(key) && old_shown[key] != new_shown[key]),
            kept == (|key: Seq<Seq<char>>| old_shown.contains_key(key) && old_shown[key] == new_shown[key]),
            all == next.listing(),
            i <= next.keys@.len(),
            changes.inserted == keep(all.take(i as int), fresh).len(),
            changes.updated == keep(all.take(i as int), newer).len(),
            changes.unchanged == keep(all.take(i as int), kept).len(),
            changes.removed == 0,
        decreases next.keys@.len() - i,
    {
        proof {
            next.entry(i as int);
            keep_step(all, i as int, fresh);
            keep_step(all, i as int, newer);
            keep_step(all, i as int, kept);
            kept_bounded(all.take(i as int), fresh);
            kept_bounded(all.take(i as int), newer);
            kept_bounded(all.take(i as int), kept);
        }
        match current.get(&next.keys[i]) {
            None => {
                changes.inserted = changes.inserted + 1;
            },
            Some(evidence) => {
                if same(evidence.as_str(), next.values[i].as_str()) {
                    changes.unchanged = changes.unchanged + 1;
                } else {
                    changes.updated = changes.updated + 1;
                }
            },
        }
        i = i + 1;
    }
    assert(all.take(all.len() as int) =~= all);
    let ghost before = current.listing();
    let mut j: usize = 0;
    while j < current.keys.len()
        invariant
            current.wf(),
            next.wf(),
            new_shown == evidence_of(next@),
            gone == (|key: Seq<Seq<char>>| !new_shown.contains_key(key)),
            before == current.listing(),
            j <= current.keys@.len(),
            changes.inserted == keep(all, fresh).len(),
            changes.updated == keep(all, newer).len(),
            changes.unchanged == keep(all, kept).len(),
            changes.removed == keep(before.take(j as int), gone).len(),
        decreases current.keys@.len() - j,
    {
        proof {
            keep_step(before, j as int, gone);
            kept_bounded(before.take(j as int), gone);
            assert(before[j as int] == current.keys@[j as int].key());
        }
        if !next.contains_key(&current.keys[j]) {
            changes.removed = changes.removed + 1;
        }
        j = j + 1;
    }
    proof {
        assert(before.take(before.len() as int) =~= before);
        listing_counts(*next, fresh);
        listing_counts(*next, newer);
        listing_counts(*next, kept);
        listing_counts(*current, gone);
    }
    changes
}

proof fn parts_make_up<A>(set: Set<A>, a: spec_fn(A) -> bool, b: spec_fn(A) -> bool)
    requires
        set.finite(),
        forall|x: A| #[trigger] a(x) ==> !b(x),
    ensures
        set.filter(a).len() + set.filter(b).len() == set.filter(|x: A| a(x) || b(x)).len(),
{
    let left = set.filter(a);
    let right = set.filter(b);
    vstd::set_lib::lemma_set_subset_finite(set, left);
    vstd::set_lib::lemma_set_subset_finite(set, right);
    assert(left.disjoint(right)) by {
        assert forall|x: A| left.contains(x) implies !right.contains(x) by {
            assert(a(x));
        }
    }
    vstd::set_lib::lemma_set_disjoint_lens(left, right);
    assert(left + right =~= set.filter(|x: A| a(x) || b(x)));
}

/// What is shown next is inserted, updated or unchanged, and what is shown is updated, unchanged
/// or removed, each of it once.
pub proof fn changes_account_for_all(current: Shown, next: Shown, changes: FactChanges)
    requires
        current.dom().finite(),
        next.dom().finite(),
        differ_by(current, next, changes),
    ensures
        changes.inserted + changes.updated + changes.unchanged == next.dom().len(),
        changes.removed + changes.updated + changes.unchanged == current.dom().len(),
{
    let fresh = |key: Seq<Seq<char>>| !current.contains_key(key);
    let newer = |key: Seq<Seq<char>>| current.contains_key(key) && current[key] != next[key];
    let kept = |key: Seq<Seq<char>>| current.contains_key(key) && current[key] == next[key];
    let gone = |key: Seq<Seq<char>>| !next.contains_key(key);
    let both = |key: Seq<Seq<char>>| newer(key) || kept(key);
    let shared = |key: Seq<Seq<char>>| next.contains_key(key);
    parts_make_up(next.dom(), newer, kept);
    parts_make_up(next.dom(), fresh, both);
    assert(next.dom().filter(|key: Seq<Seq<char>>| fresh(key) || both(key)) =~= next.dom());
    assert(next.dom().filter(|key: Seq<Seq<char>>| newer(key) || kept(key)) =~= next.dom().filter(both));
    parts_make_up(current.dom(), gone, shared);
    assert(current.dom().filter(|key: Seq<Seq<char>>| gone(key) || shared(key)) =~= current.dom());
    assert(current.dom().filter(shared) =~= next.dom().filter(both));
}

/// Publishing what is shown already changes nothing.
pub proof fn same_observations_change_nothing(shown: Shown, changes: FactChanges)
    requires
        shown.dom().finite(),
        differ_by(shown, shown, changes),
    ensures
        changes.inserted == 0,
        changes.updated == 0,
        changes.removed == 0,
        changes.unchanged == shown.dom().len(),
{
    assert(shown.dom().filter(|key: Seq<Seq<char>>| !shown.contains_key(key)) =~= Set::empty());
    assert(shown.dom().filter(|key: Seq<Seq<char>>| shown.contains_key(key) && shown[key] != shown[key]) =~= Set::empty());
    assert(shown.dom().filter(|key: Seq<Seq<char>>| shown.contains_key(key) && shown[key] == shown[key]) =~= shown.dom());
}

} // verus!
