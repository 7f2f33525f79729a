//! Resolved dependencies, as rows state them and as traversals follow them.

use crate::command::{bind_integer, bind_rows, bind_text, bindings, rows_of_texts, text_rows, ArgumentModel, Binding, CellModel, Command, CommandModel};
use crate::paths::TraversalDirection;
use crate::query::{MnesticQuery, QueryError};
use crate::rows::{cell_number, cell_text, InspectionValue, Row};
use crate::scripts::{INCOMING_DEPENDENCIES, OUTGOING_DEPENDENCIES};
use crate::semantic::StatedEdge;
use crate::sorted::texts;
use crate::text::{same, starts_with};
use vstd::prelude::*;

verus! {

/// A dependency as a row states it. The confidence is held by its bits.
#[derive(Debug)]
pub struct ResolvedDependencyRow {
    pub from: String,
    pub to: String,
    pub relation: String,
    pub evidence: String,
    pub confidence: u64,
    pub provenance: String,
}

impl View for ResolvedDependencyRow {
    type V = StatedEdge;

    open spec fn view(&self) -> StatedEdge {
        StatedEdge {
            from: self.from@,
            to: self.to@,
            relation: self.relation@,
            evidence: self.evidence@,
            confidence: self.confidence as int,
            provenance: self.provenance@,
        }
    }
}

/// The dependencies that some rows state.
pub open spec fn stated(rows: Seq<ResolvedDependencyRow>) -> Seq<StatedEdge> {
    rows.map_values(|row: ResolvedDependencyRow| row@)
}

/// Whether a dependency leads from a remote operation to what implements it.
pub open spec fn implements_remotely(edge: StatedEdge) -> bool {
    edge.relation == "implemented_by"@ && "grpc://"@.is_prefix_of(edge.from)
}

/// Whether a dependency is followed from its source to its target.
pub open spec fn followed_forward(edge: StatedEdge, direction: TraversalDirection) -> bool {
    direction == TraversalDirection::Outgoing || implements_remotely(edge)
}

/// Where a dependency is left when it is followed.
pub open spec fn left_at(edge: StatedEdge, direction: TraversalDirection) -> Seq<char> {
    if followed_forward(edge, direction) {
        edge.from
    } else {
        edge.to
    }
}

/// Where a dependency leads when it is followed.
pub open spec fn leads_to(edge: StatedEdge, direction: TraversalDirection) -> Seq<char> {
    if followed_forward(edge, direction) {
        edge.to
    } else {
        edge.from
    }
}

/// Where those who go along a dependency set out: at its source if they look for what is depended
/// on; at its target if they look for what depends on it, but for the way from a remote operation
/// to what implements it, which goes forward for them too.
pub open spec fn departs(edge: StatedEdge, direction: TraversalDirection) -> Seq<char> {
    match direction {
        TraversalDirection::Outgoing => edge.from,
        TraversalDirection::Incoming => if edge.relation == "implemented_by"@ && "grpc://"@.is_prefix_of(edge.from) {
            edge.from
        } else {
            edge.to
        },
    }
}

/// Where those who go along a dependency arrive.
pub open spec fn arrives(edge: StatedEdge, direction: TraversalDirection) -> Seq<char> {
    match direction {
        TraversalDirection::Outgoing => edge.to,
        TraversalDirection::Incoming => if edge.relation == "implemented_by"@ && "grpc://"@.is_prefix_of(edge.from) {
            edge.to
        } else {
            edge.from
        },
    }
}

/// Where a dependency is left, and where it leads, when it is followed.
pub fn traversal_predecessor<'a>(row: &'a ResolvedDependencyRow, direction: TraversalDirection) -> (r: (&'a String, &'a String))
    ensures
        r.0@ == left_at(row@, direction),
        r.1@ == leads_to(row@, direction),
{
    let forward: bool = match direction {
        TraversalDirection::Outgoing => true,
        TraversalDirection::Incoming => same(row.relation.as_str(), "implemented_by") && starts_with(row.from.as_str(), "grpc://"),
    };
    if forward {
        (&row.from, &row.to)
    } else {
        (&row.to, &row.from)
    }
}

/// Where a dependency leads when it is followed.
pub fn next_entity<'a>(row: &'a ResolvedDependencyRow, direction: TraversalDirection) -> (r: &'a String)
    ensures
        r@ == leads_to(row@, direction),
{
    traversal_predecessor(row, direction).1
}

/// The dependency that a row states from a column on, or what is wrong with the first column
/// that is not right.
pub open spec fn decoded_dependency(headers: Seq<Seq<char>>, row: Row, offset: int) -> Result<StatedEdge, Seq<char>> {
    if cell_text(row, offset) is None {
        Err("column "@ + headers[offset] + " is not a string"@)
    } else if cell_text(row, offset + 1) is None {
        Err("column "@ + headers[offset + 1] + " is not a string"@)
    } else if cell_text(row, offset + 2) is None {
        Err("column "@ + headers[offset + 2] + " is not a string"@)
    } else if cell_text(row, offset + 3) is None {
        Err("column "@ + headers[offset + 3] + " is not a string"@)
    } else if cell_number(row, offset + 4) is None {
        Err("column confidence is not a float"@)
    } else if cell_text(row, offset + 5) is None {
        Err("column "@ + headers[offset + 5] + " is not a string"@)
    } else {
        Ok(
            StatedEdge {
                from: cell_text(row, offset)->0,
                to: cell_text(row, offset + 1)->0,
                relation: cell_text(row, offset + 2)->0,
                evidence: cell_text(row, offset + 3)->0,
                confidence: cell_number(row, offset + 4)->0,
                provenance: cell_text(row, offset + 5)->0,
            },
        )
    }
}

/// The text in a column; an error names the column.
pub fn column_text(operation: &'static str, headers: &Vec<String>, row: &Vec<InspectionValue>, column: usize) -> (r: Result<String, QueryError>)
    requires
        column < headers@.len(),
    ensures
        r is Ok <==> cell_text(row@, column as int) is Some,
        r is Ok ==> r->Ok_0@ == cell_text(row@, column as int)->0,
        r is Err ==> r->Err_0.operation@ == operation@,
        r is Err ==> r->Err_0.detail@ == "column "@ + texts(headers@)[column as int] + " is not a string"@,
{
    if column < row.len() {
        match row[column].as_str() {
            Some(found) => {
                return Ok(found.to_owned());
            },
            None => {},
        }
    }
    let mut detail: String = "column ".to_owned();
    detail.append(headers[column].as_str());
    detail.append(" is not a string");
    Err(QueryError::new(operation, detail))
}

/// The bits of the confidence in a column.
pub fn column_confidence(operation: &'static str, row: &Vec<InspectionValue>, column: usize) -> (r: Result<u64, QueryError>)
    ensures
        r is Ok <==> cell_number(row@, column as int) is Some,
        r is Ok ==> r->Ok_0 == cell_number(row@, column as int)->0,
        r is Err ==> r->Err_0.operation@ == operation@,
        r is Err ==> r->Err_0.detail@ == "column confidence is not a float"@,
{
    match crate::rows::float(row, column, "confidence") {
        Ok(bits) => Ok(bits),
        Err(_) => Err(QueryError::new(operation, "column confidence is not a float".to_owned())),
    }
}

/// Reads the dependency that a row states from a column on.
pub fn decode_resolved_dependency(
    operation: &'static str,
    headers: &Vec<String>,
    row: &Vec<InspectionValue>,
    offset: usize,
) -> (r: Result<ResolvedDependencyRow, QueryError>)
    requires
        offset + 6 <= headers@.len(),
    ensures
        r is Ok <==> decoded_dependency(texts(headers@), row@, offset as int) is Ok,
        r is Ok ==> r->Ok_0@ == decoded_dependency(texts(headers@), row@, offset as int)->Ok_0,
        r is Err ==> r->Err_0.operation@ == operation@,
        r is Err ==> r->Err_0.detail@ == decoded_dependency(texts(headers@), row@, offset as int)->Err_0,
{
    let n: usize = headers.len();
    let from: String = match column_text(operation, headers, row, offset) {
        Ok(value) => value,
        Err(error) => {
            return Err(error);
        },
    };
    let to: String = match column_text(operation, headers, row, offset + 1) {
        Ok(value) => value,
        Err(error) => {
            return Err(error);
        },
    };
    let relation: String = match column_text(operation, headers, row, offset + 2) {
        Ok(value) => value,
        Err(error) => {
            return Err(error);
        },
    };
    let evidence: String = match column_text(operation, headers, row, offset + 3) {
        Ok(value) => value,
        Err(error) => {
            return Err(error);
        },
    };
    let confidence: u64 = match column_confidence(operation, row, offset + 4) {
        Ok(value) => value,
        Err(error) => {
            return Err(error);
        },
    };
    let provenance: String = match column_text(operation, headers, row, offset + 5) {
        Ok(value) => value,
        Err(error) => {
            return Err(error);
        },
    };
    Ok(ResolvedDependencyRow { from, to, relation, evidence, confidence, provenance })
}

/// What the first `n` rows state from a column on; the first error remains.
pub open spec fn decoded_dependencies(headers: Seq<Seq<char>>, rows: Seq<Vec<InspectionValue>>, offset: int, n: int) -> Result<
    Seq<StatedEdge>,
    Seq<char>,
>
    decreases n,
{
    if n <= 0 {
        Ok(Seq::empty())
    } else {
        match decoded_dependencies(headers, rows, offset, n - 1) {
            Ok(before) => match decoded_dependency(headers, rows[n - 1]@, offset) {
                Ok(edge) => Ok(before.push(edge)),
                Err(detail) => Err(detail),
            },
            Err(detail) => Err(detail),
        }
    }
}

proof fn decoded_dependencies_error(headers: Seq<Seq<char>>, rows: Seq<Vec<InspectionValue>>, offset: int, k: int, n: int)
    requires
        0 <= k <= n,
        decoded_dependencies(headers, rows, offset, k) is Err,
    ensures
        decoded_dependencies(headers, rows, offset, n) == decoded_dependencies(headers, rows, offset, k),
    decreases n - k,
{
    if k < n {
        decoded_dependencies_error(headers, rows, offset, k, n - 1);
    }
}

/// Reads the dependencies that rows state from a column on.
pub fn dependency_rows(
    headers: &Vec<String>,
    rows: &Vec<Vec<InspectionValue>>,
    offset: usize,
    operation: &'static str,
) -> (r: Result<Vec<ResolvedDependencyRow>, QueryError>)
    requires
        offset + 6 <= headers@.len(),
    ensures
        r is Ok <==> decoded_dependencies(texts(headers@), rows@, offset as int, rows@.len() as int) is Ok,
        r is Ok ==> stated(r->Ok_0@) == decoded_dependencies(texts(headers@), rows@, offset as int, rows@.len() as int)->Ok_0,
        r is Err ==> r->Err_0.operation@ == operation@,
        r is Err ==> r->Err_0.detail@ == decoded_dependencies(texts(headers@), rows@, offset as int, rows@.len() as int)->Err_0,
{
    let mut found: Vec<ResolvedDependencyRow> = Vec::new();
    let mut i: usize = 0;
    assert(stated(found@) =~= Seq::<StatedEdge>::empty());
    while i < rows.len()
        invariant
            i <= rows@.len(),
            offset + 6 <= headers@.len(),
            decoded_dependencies(texts(headers@), rows@, offset as int, i as int) is Ok,
            stated(found@) == decoded_dependencies(texts(headers@), rows@, offset as int, i as int)->Ok_0,
        decreases rows@.len() - i,
    {
        match decode_resolved_dependency(operation, headers, &rows[i], offset) {
            Ok(row) => {
                let ghost before = found@;
                found.push(row);
                assert(stated(found@) =~= stated(before).push(row@));
            },
            Err(error) => {
                proof {
                    decoded_dependencies_error(texts(headers@), rows@, offset as int, i as int + 1, rows@.len() as int);
                }
                return Err(error);
            },
        }
        i = i + 1;
    }
    Ok(found)
}

/// Whether a row of a closure states a dependency found after some hops.
pub open spec fn row_states(row: Row, hops: int, edge: StatedEdge) -> bool {
    &&& row.len() == 9
    &&& cell_text(row, 0) == Some("edge"@)
    &&& cell_text(row, 1) == Some(""@)
    &&& row[2] == InspectionValue::Integer(hops as i64)
    &&& cell_text(row, 3) == Some(edge.from)
    &&& cell_text(row, 4) == Some(edge.to)
    &&& cell_text(row, 5) == Some(edge.relation)
    &&& cell_text(row, 6) == Some(edge.evidence)
    &&& row[7] == InspectionValue::Float(edge.confidence as u64)
    &&& cell_text(row, 8) == Some(edge.provenance)
}

impl ResolvedDependencyRow {
    /// The row of a closure that states the dependency.
    pub fn into_values(self, hops: u32) -> (r: Vec<InspectionValue>)
        ensures
            row_states(r@, hops as int, self@),
    {
        let mut row: Vec<InspectionValue> = Vec::new();
        row.push(InspectionValue::String("edge".to_owned()));
        row.push(InspectionValue::String("".to_owned()));
        row.push(InspectionValue::Integer(hops as i64));
        row.push(InspectionValue::String(self.from));
        row.push(InspectionValue::String(self.to));
        row.push(InspectionValue::String(self.relation));
        row.push(InspectionValue::String(self.evidence));
        row.push(InspectionValue::Float(self.confidence));
        row.push(InspectionValue::String(self.provenance));
        row
    }
}

/// The columns of a closure.
pub open spec fn closure_headers() -> Seq<Seq<char>> {
    seq![
        "row_kind"@,
        "entity"@,
        "hops"@,
        "edge_from"@,
        "edge_to"@,
        "relation"@,
        "evidence"@,
        "confidence"@,
        "provenance"@,
    ]
}

/// The columns of a closure.
pub fn closure_header_list() -> (r: Vec<String>)
    ensures
        texts(r@) == closure_headers(),
{
    let mut list: Vec<String> = Vec::new();
    list.push("row_kind".to_owned());
    list.push("entity".to_owned());
    list.push("hops".to_owned());
    list.push("edge_from".to_owned());
    list.push("edge_to".to_owned());
    list.push("relation".to_owned());
    list.push("evidence".to_owned());
    list.push("confidence".to_owned());
    list.push("provenance".to_owned());
    assert(texts(list@) =~= closure_headers());
    list
}

/// The columns of a dependency.
pub open spec fn dependency_headers() -> Seq<Seq<char>> {
    seq!["from"@, "to"@, "relation"@, "evidence"@, "confidence"@, "provenance"@]
}

/// The columns of a dependency.
pub fn dependency_header_list() -> (r: Vec<String>)
    ensures
        texts(r@) == dependency_headers(),
{
    let mut list: Vec<String> = Vec::new();
    list.push("from".to_owned());
    list.push("to".to_owned());
    list.push("relation".to_owned());
    list.push("evidence".to_owned());
    list.push("confidence".to_owned());
    list.push("provenance".to_owned());
    assert(texts(list@) =~= dependency_headers());
    list
}

/// The query for the dependencies that leave some entities.
pub struct OutgoingResolvedDependencies;

impl MnesticQuery for OutgoingResolvedDependencies {
    type Row = ResolvedDependencyRow;

    type Model = StatedEdge;

    open spec fn model(row: ResolvedDependencyRow) -> StatedEdge {
        row@
    }

    open spec fn operation_text() -> Seq<char> {
        "traversal.outgoing.materialized"@
    }

    open spec fn header_texts() -> Seq<Seq<char>> {
        dependency_headers()
    }

    open spec fn decoded(row: Row) -> Result<StatedEdge, Seq<char>> {
        decoded_dependency(dependency_headers(), row, 0)
    }

    fn operation() -> (r: &'static str) {
        "traversal.outgoing.materialized"
    }

    fn headers() -> (r: Vec<String>) {
        dependency_header_list()
    }

    fn decode(row: Vec<InspectionValue>) -> (r: Result<ResolvedDependencyRow, QueryError>) {
        decode_resolved_dependency(Self::operation(), &dependency_header_list(), &row, 0)
    }
}

/// The query for the dependencies that end in some entities.
pub struct IncomingResolvedDependencies;

impl MnesticQuery for IncomingResolvedDependencies {
    type Row = ResolvedDependencyRow;

    type Model = StatedEdge;

    open spec fn model(row: ResolvedDependencyRow) -> StatedEdge {
        row@
    }

    open spec fn operation_text() -> Seq<char> {
        "traversal.incoming.materialized"@
    }

    open spec fn header_texts() -> Seq<Seq<char>> {
        dependency_headers()
    }

    open spec fn decoded(row: Row) -> Result<StatedEdge, Seq<char>> {
        decoded_dependency(dependency_headers(), row, 0)
    }

    fn operation() -> (r: &'static str) {
        "traversal.incoming.materialized"
    }

    fn headers() -> (r: Vec<String>) {
        dependency_header_list()
    }

    fn decode(row: Vec<InspectionValue>) -> (r: Result<ResolvedDependencyRow, QueryError>) {
        decode_resolved_dependency(Self::operation(), &dependency_header_list(), &row, 0)
    }
}

/// What asks for the dependencies around some entities.
pub open spec fn dependencies_asked(view: Seq<char>, direction: TraversalDirection, frontier: Seq<Seq<char>>, limit: int) -> CommandModel {
    CommandModel {
        script: match direction {
            TraversalDirection::Outgoing => OUTGOING_DEPENDENCIES@,
            TraversalDirection::Incoming => INCOMING_DEPENDENCIES@,
        },
        arguments: seq![
            ("view"@, ArgumentModel::One(CellModel::Text(view))),
            ("limit"@, ArgumentModel::One(CellModel::Integer(limit))),
            ("frontier"@, ArgumentModel::Rows(text_rows(frontier))),
        ],
    }
}

/// Asks for the dependencies around some entities.
pub fn ask_dependencies(view: &str, direction: TraversalDirection, frontier: &Vec<String>, limit: i64) -> (r: Command)
    ensures
        r@ == dependencies_asked(view@, direction, texts(frontier@), limit as int),
{
    let script: &'static str = match direction {
        TraversalDirection::Outgoing => OUTGOING_DEPENDENCIES,
        TraversalDirection::Incoming => INCOMING_DEPENDENCIES,
    };
    let mut arguments: Vec<Binding> = Vec::new();
    arguments.push(bind_text("view", view));
    arguments.push(bind_integer("limit", limit));
    arguments.push(bind_rows("frontier", rows_of_texts(frontier)));
    let command: Command = Command { script: script.to_owned(), arguments };
    assert(bindings(command.arguments@) =~= dependencies_asked(view@, direction, texts(frontier@), limit as int).arguments);
    command
}

} // verus!
