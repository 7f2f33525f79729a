//! Typed queries: what a result must look like, and what its rows state.

use crate::rows::{InspectionResult, InspectionValue, Row};
use crate::seqs::reversed;
use crate::sorted::texts;
use crate::text::{decimal, decimal_text, same};
use vstd::prelude::*;

verus! {

/// Why a query failed.
#[derive(Debug)]
pub struct QueryError {
    pub operation: &'static str,
    pub detail: String,
}

impl QueryError {
    pub fn new(operation: &'static str, detail: String) -> (r: QueryError)
        ensures
            r.operation@ == operation@,
            r.detail@ == detail@,
    {
        QueryError { operation, detail }
    }

    /// The error as it is shown.
    pub fn message(&self) -> (r: String)
        ensures
            r@ == "Mnestic query "@ + self.operation@ + " failed: "@ + self.detail@,
    {
        let mut message: String = "Mnestic query ".to_owned();
        message.append(self.operation);
        message.append(" failed: ");
        message.append(self.detail.as_str());
        message
    }
}

/// What is observed of a query while it runs.
#[derive(Debug)]
pub struct QuerySpec<'a> {
    pub operation: &'static str,
    pub view: &'a str,
    pub script: &'a str,
}

impl<'a> QuerySpec<'a> {
    pub fn new(operation: &'static str, view: &'a str, script: &'a str) -> (r: QuerySpec<'a>)
        ensures
            r.operation@ == operation@,
            r.view@ == view@,
            r.script@ == script@,
    {
        QuerySpec { operation, view, script }
    }
}

/// How a text is written in quotation marks, characters escaped where they have to be.
pub uninterp spec fn quoted_text(text: Seq<char>) -> Seq<char>;

/// Writes a text in quotation marks. This calls the implementation of `std::fmt::Debug` for
/// `str`; its result is a function of the text alone, and which characters it escapes is not
/// stated.
#[verifier::external_body]
fn quoted(text: &str) -> (r: String)
    ensures
        r@ == quoted_text(text@),
{
    format!("{:?}", text)
}

/// The first `n` texts of a list as they are shown, with commas between them.
pub open spec fn quoted_list(list: Seq<Seq<char>>, n: int) -> Seq<char>
    decreases n,
{
    if n <= 0 {
        Seq::empty()
    } else if n == 1 {
        quoted_text(list[0])
    } else {
        quoted_list(list, n - 1) + ", "@ + quoted_text(list[n - 1])
    }
}

/// A list of texts as it is shown.
pub open spec fn shown_list(list: Seq<Seq<char>>) -> Seq<char> {
    "["@ + quoted_list(list, list.len() as int) + "]"@
}

/// Shows a list of texts.
pub fn show_list(list: &Vec<String>) -> (r: String)
    ensures
        r@ == shown_list(texts(list@)),
{
    let ghost named = texts(list@);
    let mut shown: String = "[".to_owned();
    let mut i: usize = 0;
    assert("["@ + quoted_list(named, 0) =~= "["@);
    while i < list.len()
        invariant
            i <= list@.len(),
            named == texts(list@),
            shown@ == "["@ + quoted_list(named, i as int),
        decreases list@.len() - i,
    {
        let ghost before = quoted_list(named, i as int);
        assert(named[i as int] == list@[i as int]@);
        if i > 0 {
            shown.append(", ");
        }
        shown.append(quoted(list[i].as_str()).as_str());
        proof {
            if i > 0 {
                assert("["@ + before + ", "@ + quoted_text(named[i as int]) =~= "["@ + (before + ", "@ + quoted_text(named[i as int])));
            } else {
                assert("["@ + Seq::<char>::empty() + quoted_text(named[0]) =~= "["@ + quoted_text(named[0]));
            }
        }
        i = i + 1;
    }
    shown.append("]");
    shown
}

/// The first row from `at` on that has another width.
pub open spec fn uneven_row(rows: Seq<Vec<InspectionValue>>, width: nat, at: int) -> Option<int>
    decreases rows.len() - at,
{
    if at >= rows.len() {
        None
    } else if rows[at]@.len() != width {
        Some(at)
    } else {
        uneven_row(rows, width, at + 1)
    }
}

/// Up to a row from which no other width is found, all rows have the width.
pub proof fn even_rows(rows: Seq<Vec<InspectionValue>>, width: nat, at: int)
    requires
        0 <= at,
        uneven_row(rows, width, at) is None,
    ensures
        forall|i: int| at <= i < rows.len() ==> (#[trigger] rows[i])@.len() == width,
    decreases rows.len() - at,
{
    if at < rows.len() {
        even_rows(rows, width, at + 1);
    }
}

/// What is wrong with the shape of a result, if anything is.
pub open spec fn shape_error(headers: Seq<Seq<char>>, rows: Seq<Vec<InspectionValue>>, expected: Seq<Seq<char>>) -> Option<Seq<char>> {
    if headers != expected {
        Some("unexpected output headers: expected "@ + shown_list(expected) + ", got "@ + shown_list(headers))
    } else {
        match uneven_row(rows, expected.len(), 0) {
            Some(index) => Some(
                "unexpected row width at row "@ + decimal(index as nat) + ": expected "@ + decimal(expected.len()) + ", got "@
                    + decimal(rows[index]@.len()),
            ),
            None => None,
        }
    }
}

/// Whether two lists hold the same texts in the same order.
pub fn same_texts(a: &Vec<String>, b: &Vec<String>) -> (r: bool)
    ensures
        r == (texts(a@) == texts(b@)),
{
    if a.len() != b.len() {
        assert(texts(a@).len() != texts(b@).len());
        return false;
    }
    let mut i: usize = 0;
    while i < a.len()
        invariant
            i <= a@.len(),
            a@.len() == b@.len(),
            forall|k: int| 0 <= k < i ==> (#[trigger] a@[k])@ == b@[k]@,
        decreases a@.len() - i,
    {
        if !same(a[i].as_str(), b[i].as_str()) {
            assert(texts(a@)[i as int] != texts(b@)[i as int]);
            return false;
        }
        i = i + 1;
    }
    assert(texts(a@) =~= texts(b@));
    true
}

/// Checks that a result has the headers, and that each of its rows has a value for each.
pub fn check_shape(result: &InspectionResult, expected: &Vec<String>) -> (r: Option<String>)
    ensures
        crate::domain::optional_text(r) == shape_error(texts(result.headers@), result.rows@, texts(expected@)),
{
    if !same_texts(&result.headers, expected) {
        let mut detail: String = "unexpected output headers: expected ".to_owned();
        detail.append(show_list(expected).as_str());
        detail.append(", got ");
        detail.append(show_list(&result.headers).as_str());
        return Some(detail);
    }
    let width: usize = expected.len();
    let mut i: usize = 0;
    while i < result.rows.len()
        invariant
            i <= result.rows@.len(),
            width == texts(expected@).len(),
            texts(result.headers@) == texts(expected@),
            uneven_row(result.rows@, width as nat, 0) == uneven_row(result.rows@, width as nat, i as int),
        decreases result.rows@.len() - i,
    {
        if result.rows[i].len() != width {
            let mut detail: String = "unexpected row width at row ".to_owned();
            detail.append(decimal_text(i as u64).as_str());
            detail.append(": expected ");
            detail.append(decimal_text(width as u64).as_str());
            detail.append(", got ");
            detail.append(decimal_text(result.rows[i].len() as u64).as_str());
            return Some(detail);
        }
        i = i + 1;
    }
    None
}

/// A query whose result has known columns, and whose rows state values of one type.
pub trait MnesticQuery {
    /// What a row states.
    type Row;

    /// What a row states, as contracts speak of it.
    type Model;

    /// What a value stands for in contracts.
    spec fn model(row: Self::Row) -> Self::Model;

    /// The name of the query.
    spec fn operation_text() -> Seq<char>;

    /// The names of the columns.
    spec fn header_texts() -> Seq<Seq<char>>;

    /// What a row states, or what is wrong with it.
    spec fn decoded(row: Row) -> Result<Self::Model, Seq<char>>;

    /// The name of the query.
    fn operation() -> (r: &'static str)
        ensures
            r@ == Self::operation_text(),
    ;

    /// The names of the columns.
    fn headers() -> (r: Vec<String>)
        ensures
            texts(r@) == Self::header_texts(),
    ;

    /// Reads a row.
    fn decode(row: Vec<InspectionValue>) -> (r: Result<Self::Row, QueryError>)
        requires
            row@.len() == Self::header_texts().len(),
        ensures
            r is Ok <==> Self::decoded(row@) is Ok,
            r is Ok ==> Self::model(r->Ok_0) == Self::decoded(row@)->Ok_0,
            r is Err ==> r->Err_0.operation@ == Self::operation_text(),
            r is Err ==> r->Err_0.detail@ == Self::decoded(row@)->Err_0,
    ;
}

/// What the first `n` rows state; the first error remains.
pub open spec fn decoded_rows<Q: MnesticQuery>(rows: Seq<Vec<InspectionValue>>, n: int) -> Result<Seq<Q::Model>, Seq<char>>
    decreases n,
{
    if n <= 0 {
        Ok(Seq::empty())
    } else {
        match decoded_rows::<Q>(rows, n - 1) {
            Ok(before) => match Q::decoded(rows[n - 1]@) {
                Ok(row) => Ok(before.push(row)),
                Err(detail) => Err(detail),
            },
            Err(detail) => Err(detail),
        }
    }
}

proof fn decoded_rows_error<Q: MnesticQuery>(rows: Seq<Vec<InspectionValue>>, k: int, n: int)
    requires
        0 <= k <= n,
        decoded_rows::<Q>(rows, k) is Err,
    ensures
        decoded_rows::<Q>(rows, n) == decoded_rows::<Q>(rows, k),
    decreases n - k,
{
    if k < n {
        decoded_rows_error::<Q>(rows, k, n - 1);
    }
}

/// What a result states, or why it is not one of this query.
pub open spec fn typed_rows<Q: MnesticQuery>(headers: Seq<Seq<char>>, rows: Seq<Vec<InspectionValue>>) -> Result<Seq<Q::Model>, Seq<char>> {
    match shape_error(headers, rows, Q::header_texts()) {
        Some(detail) => Err(detail),
        None => decoded_rows::<Q>(rows, rows.len() as int),
    }
}

/// What the values of a list stand for.
pub open spec fn models<Q: MnesticQuery>(rows: Seq<Q::Row>) -> Seq<Q::Model> {
    rows.map_values(|row: Q::Row| Q::model(row))
}

/// Reads the result of a query.
pub fn run<Q: MnesticQuery>(result: InspectionResult) -> (r: Result<Vec<Q::Row>, QueryError>)
    ensures
        r is Ok <==> typed_rows::<Q>(texts(result.headers@), result.rows@) is Ok,
        r is Ok ==> models::<Q>(r->Ok_0@) == typed_rows::<Q>(texts(result.headers@), result.rows@)->Ok_0,
        r is Err ==> r->Err_0.operation@ == Q::operation_text(),
        r is Err ==> r->Err_0.detail@ == typed_rows::<Q>(texts(result.headers@), result.rows@)->Err_0,
{
    let expected: Vec<String> = Q::headers();
    match check_shape(&result, &expected) {
        Some(detail) => {
            return Err(QueryError::new(Q::operation(), detail));
        },
        None => {},
    }
    let ghost all = result.rows@;
    proof {
        even_rows(all, Q::header_texts().len(), 0);
    }
    let mut rest: Vec<Vec<InspectionValue>> = reversed(result.rows);
    let mut found: Vec<Q::Row> = Vec::new();
    let ghost mut k: int = 0;
    assert(models::<Q>(found@) =~= Seq::<Q::Model>::empty());
    while rest.len() > 0
        invariant
            0 <= k <= all.len(),
            rest@.len() == all.len() - k,
            forall|j: int| 0 <= j < rest@.len() ==> #[trigger] rest@[j] == all[all.len() - 1 - j],
            forall|j: int| 0 <= j < all.len() ==> (#[trigger] all[j])@.len() == Q::header_texts().len(),
            decoded_rows::<Q>(all, k) is Ok,
            models::<Q>(found@) == decoded_rows::<Q>(all, k)->Ok_0,
            all == result.rows@,
            typed_rows::<Q>(texts(result.headers@), result.rows@) == decoded_rows::<Q>(all, all.len() as int),
        decreases rest@.len(),
    {
        match rest.pop() {
            Some(row) => {
                assert(row == all[k]);
                match Q::decode(row) {
                    Ok(read) => {
                        let ghost before = found@;
                        found.push(read);
                        assert(models::<Q>(found@) =~= models::<Q>(before).push(Q::model(read)));
                    },
                    Err(error) => {
                        proof {
                            decoded_rows_error::<Q>(all, k + 1, all.len() as int);
                        }
                        return Err(error);
                    },
                }
                proof {
                    k = k + 1;
                }
            },
            None => {},
        }
    }
    Ok(found)
}

} // verus!
