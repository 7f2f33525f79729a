//! What requests to a store need besides the answers to questions: the entities to look up, and
//! what is decided about the database file.

use crate::ids::TextSet;
use crate::metadata::OUT_OF_RANGE;
use crate::rows::{cell_integer, cell_text, integer, text_at, InspectionValue, Row};
use crate::semantic::ContextRow;
use crate::sorted::{texts, SortedMap};
use crate::text::{decimal, decimal_text};
use vstd::prelude::*;

verus! {

/// Whether a row leads to an entity within a number of steps.
pub open spec fn within(row: Row, max_hops: u32) -> bool {
    match cell_integer(row, 2) {
        Some(hops) => hops < max_hops,
        None => false,
    }
}

/// The entities that a row names: where its edge begins, and where it ends.
pub open spec fn named_in(row: Row) -> Set<Seq<Seq<char>>> {
    Set::new(|key: Seq<Seq<char>>| (exists|column: int| 3 <= column <= 4 && #[trigger] cell_text(row, column) == Some(key[0])) && key.len() == 1)
}

/// The entities of a traversal whose facts are needed: where it begins, and what the first rows
/// name, except those that are only looked at to tell whether there is more.
pub open spec fn relevant(rows: Seq<Vec<InspectionValue>>, roots: Seq<Seq<char>>, max_hops: u32, n: int) -> Set<Seq<Seq<char>>>
    decreases n,
{
    if n <= 0 {
        Set::new(|key: Seq<Seq<char>>| key.len() == 1 && roots.contains(key[0]))
    } else {
        let before = relevant(rows, roots, max_hops, n - 1);
        if within(rows[n - 1]@, max_hops) {
            before.union(named_in(rows[n - 1]@))
        } else {
            before
        }
    }
}

fn add_named(set: &mut TextSet, row: &Vec<InspectionValue>, column: usize)
    requires
        old(set).wf(),
    ensures
        final(set).wf(),
        final(set)@.dom() == (match cell_text(row@, column as int) {
            Some(text) => old(set)@.dom().insert(seq![text]),
            None => old(set)@.dom(),
        }),
{
    let ghost before = set@.dom();
    match text_at(row, column) {
        Some(text) => {
            set.insert(text.to_owned(), ());
            assert(set@.dom() =~= before.insert(seq![text@]));
        },
        None => {},
    }
}

/// The entities of a traversal whose facts are needed.
pub fn relevant_traversal_entities(rows: &Vec<Vec<InspectionValue>>, roots: &Vec<String>, max_hops: u32) -> (r: TextSet)
    ensures
        r.wf(),
        r@.dom() == relevant(rows@, texts(roots@), max_hops, rows@.len() as int),
{
    let ghost names = texts(roots@);
    let mut set: TextSet = SortedMap::new();
    let mut i: usize = 0;
    while i < roots.len()
        invariant
            i <= roots@.len(),
            names == texts(roots@),
            set.wf(),
            forall|key: Seq<Seq<char>>| #[trigger]
                set@.dom().contains(key) <==> key.len() == 1 && exists|k: int| 0 <= k < i && #[trigger] names[k] == key[0],
        decreases roots@.len() - i,
    {
        let ghost before = set@.dom();
        set.insert(roots[i].clone(), ());
        proof {
            assert(set@.dom() =~= before.insert(seq![roots@[i as int]@]));
            assert(names[i as int] == roots@[i as int]@);
            assert forall|key: Seq<Seq<char>>| #[trigger] set@.dom().contains(key) <==> key.len() == 1 && exists|k: int|
                0 <= k < i + 1 && #[trigger] names[k] == key[0] by {
                if before.contains(key) {
                    let k = choose|k: int| 0 <= k < i && #[trigger] names[k] == key[0];
                    assert(names[k] == key[0]);
                }
                if key.len() == 1 && exists|k: int| 0 <= k < i + 1 && #[trigger] names[k] == key[0] {
                    let k = choose|k: int| 0 <= k < i + 1 && #[trigger] names[k] == key[0];
                    if k == i {
                        assert(key =~= seq![roots@[i as int]@]);
                    } else {
                        assert(before.contains(key));
                    }
                }
            }
        }
        i = i + 1;
    }
    proof {
        assert(names.len() == roots@.len());
        assert forall|key: Seq<Seq<char>>| set@.dom().contains(key) <==> #[trigger] relevant(rows@, names, max_hops, 0).contains(key) by {
            if key.len() == 1 && names.contains(key[0]) {
                let k = names.index_of(key[0]);
                assert(names[k] == key[0]);
            }
        }
        assert(set@.dom() =~= relevant(rows@, names, max_hops, 0));
    }
    let mut j: usize = 0;
    while j < rows.len()
        invariant
            j <= rows@.len(),
            set.wf(),
            set@.dom() == relevant(rows@, names, max_hops, j as int),
        decreases rows@.len() - j,
    {
        let row: &Vec<InspectionValue> = &rows[j];
        let near: bool = match integer(row, 2) {
            Some(hops) => hops < max_hops as i64,
            None => false,
        };
        let ghost before = set@.dom();
        if near {
            add_named(&mut set, row, 3);
            add_named(&mut set, row, 4);
            proof {
                assert forall|key: Seq<Seq<char>>| set@.dom().contains(key) <==> #[trigger] before.union(named_in(row@)).contains(key) by {
                    if named_in(row@).contains(key) {
                        let column = choose|column: int| 3 <= column <= 4 && #[trigger] cell_text(row@, column) == Some(key[0]);
                        assert(key =~= seq![key[0]]);
                    }
                    if cell_text(row@, 3) is Some && key == seq![cell_text(row@, 3)->0] {
                        assert(cell_text(row@, 3) == Some(key[0]));
                    }
                    if cell_text(row@, 4) is Some && key == seq![cell_text(row@, 4)->0] {
                        assert(cell_text(row@, 4) == Some(key[0]));
                    }
                }
                assert(set@.dom() =~= before.union(named_in(row@)));
            }
        }
        j = j + 1;
    }
    set
}

/// The entities of a context whose facts are needed: the one that was asked for, and those that
/// are related to it.
pub open spec fn related_entities(entity: Seq<char>, rows: Seq<ContextRow>, n: int) -> Set<Seq<Seq<char>>>
    decreases n,
{
    if n <= 0 {
        Set::empty().insert(seq![entity])
    } else {
        related_entities(entity, rows, n - 1).insert(seq![rows[n - 1].related@])
    }
}

/// The entities of a context whose facts are needed.
pub fn context_entities(entity: &str, rows: &Vec<ContextRow>) -> (r: TextSet)
    ensures
        r.wf(),
        r@.dom() == related_entities(entity@, rows@, rows@.len() as int),
{
    let mut set: TextSet = SortedMap::new();
    assert(set@.dom() =~= Set::empty());
    set.insert(entity.to_owned(), ());
    assert(set@.dom() =~= related_entities(entity@, rows@, 0));
    let mut i: usize = 0;
    while i < rows.len()
        invariant
            i <= rows@.len(),
            set.wf(),
            set@.dom() == related_entities(entity@, rows@, i as int),
        decreases rows@.len() - i,
    {
        let ghost before = set@.dom();
        set.insert(rows[i].related.clone(), ());
        assert(set@.dom() =~= before.insert(seq![rows@[i as int].related@]));
        i = i + 1;
    }
    set
}

/// What is said of a view that was never analysed to the end.
pub fn check_revision(view: &str, revision: u64) -> (r: Option<String>)
    ensures
        r is Some <==> revision == 0,
        r is Some ==> r->0@ == "workspace has no completed analysis revision: "@ + view@,
{
    if revision == 0 {
        let mut message: String = "workspace has no completed analysis revision: ".to_owned();
        message.append(view);
        Some(message)
    } else {
        None
    }
}

/// What follows an attempt to write the log of a database back.
#[derive(Clone, Copy, PartialEq, Eq, Structural, Debug)]
pub enum Checkpoint {
    Done,
    Again,
    Busy,
}

/// How a log that stays busy is reported.
pub const CHECKPOINT_BUSY: &'static str = "SQLite WAL checkpoint remained busy";

/// What follows an attempt to write the log of a database back: it is tried again until it
/// succeeds, or until time is up.
pub fn checkpoint(busy: Option<i64>, time_is_up: bool) -> (r: Checkpoint)
    ensures
        r == (if busy == Some(0i64) {
            Checkpoint::Done
        } else if time_is_up {
            Checkpoint::Busy
        } else {
            Checkpoint::Again
        }),
{
    match busy {
        Some(0) => Checkpoint::Done,
        _ => if time_is_up {
            Checkpoint::Busy
        } else {
            Checkpoint::Again
        },
    }
}

/// A count that a database tells.
pub fn told_pages(pragma: &str, told: Option<i64>) -> (r: Result<u64, String>)
    ensures
        r is Ok <==> told is Some && told->0 >= 0,
        r is Ok ==> r->Ok_0 == told->0,
        told is None ==> r->Err_0@ == "SQLite pragma returned no row: "@ + pragma@,
        told is Some && told->0 < 0 ==> r->Err_0@ == OUT_OF_RANGE@,
{
    match told {
        Some(count) => if count >= 0 {
            Ok(count as u64)
        } else {
            Err(OUT_OF_RANGE.to_owned())
        },
        None => {
            let mut message: String = "SQLite pragma returned no row: ".to_owned();
            message.append(pragma);
            Err(message)
        },
    }
}

/// What gives pages of a database back, if there are any to give back.
pub fn reclaim_command(pages: u32, free: u64) -> (r: Option<String>)
    ensures
        r is Some <==> pages > 0 && free > 0,
        r is Some ==> r->0@ == "PRAGMA incremental_vacuum("@ + decimal(pages as nat) + ")"@,
{
    if pages == 0 || free == 0 {
        return None;
    }
    let mut text: String = "PRAGMA incremental_vacuum(".to_owned();
    text.append(decimal_text(pages as u64).as_str());
    text.append(")");
    Some(text)
}

/// How many pages were given back.
pub fn reclaimed_pages(before: u64, after: u64) -> (r: u64)
    ensures
        r == (if before >= after {
            before - after
        } else {
            0
        }),
{
    if before >= after {
        before - after
    } else {
        0
    }
}

/// Facts are needed of exactly the entities that a traversal begins at, and of both ends of each
/// edge that is left before the last hop.
pub proof fn relevant_entities_are_roots_or_ends(rows: Seq<Vec<InspectionValue>>, roots: Seq<Seq<char>>, max_hops: u32, n: int, id: Seq<char>)
    requires
        0 <= n <= rows.len(),
    ensures
        relevant(rows, roots, max_hops, n).contains(seq![id]) <==> roots.contains(id) || exists|i: int|
            0 <= i < n && (cell_text((#[trigger] rows[i])@, 3) == Some(id) || cell_text(rows[i]@, 4) == Some(id)) && (cell_integer(
                rows[i]@,
                2,
            ) matches Some(hops) && hops < max_hops),
    decreases n,
{
    assert(seq![id][0] == id);
    if n > 0 {
        relevant_entities_are_roots_or_ends(rows, roots, max_hops, n - 1, id);
        let row = rows[n - 1]@;
        if within(row, max_hops) && named_in(row).contains(seq![id]) {
            let column = choose|column: int| 3 <= column <= 4 && #[trigger] cell_text(row, column) == Some(seq![id][0]);
            assert(cell_text(row, 3) == Some(id) || cell_text(row, 4) == Some(id));
        }
        if cell_text(row, 3) == Some(id) || cell_text(row, 4) == Some(id) {
            assert(cell_text(row, 3) == Some(seq![id][0]) || cell_text(row, 4) == Some(seq![id][0]));
        }
    }
}

/// Facts are needed of exactly the entity of a context and those related to it.
pub proof fn context_entities_are_those_related(entity: Seq<char>, rows: Seq<ContextRow>, n: int, id: Seq<char>)
    requires
        0 <= n <= rows.len(),
    ensures
        related_entities(entity, rows, n).contains(seq![id]) <==> id == entity || exists|i: int|
            0 <= i < n && (#[trigger] rows[i]).related@ == id,
    decreases n,
{
    assert(seq![id][0] == id && seq![entity][0] == entity);
    if n > 0 {
        context_entities_are_those_related(entity, rows, n - 1, id);
        assert(seq![rows[n - 1].related@][0] == rows[n - 1].related@);
    }
}

} // verus!
