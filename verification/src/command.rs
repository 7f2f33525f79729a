//! What is sent to the database: scripts and the values bound in them.

use crate::rows::{row_models, InspectionValue, RowModel, ReadModel};
use vstd::prelude::*;

verus! {

/// A value in a row that is sent. A floating-point number is held by its bits.
#[derive(Debug)]
pub enum Cell {
    Text(String),
    Integer(i64),
    Float(u64),
    Boolean(bool),
}

/// A value in a row that is sent.
pub ghost enum CellModel {
    Text(Seq<char>),
    Integer(int),
    Float(int),
    Boolean(bool),
}

impl View for Cell {
    type V = CellModel;

    open spec fn view(&self) -> CellModel {
        match *self {
            Cell::Text(text) => CellModel::Text(text@),
            Cell::Integer(value) => CellModel::Integer(value as int),
            Cell::Float(bits) => CellModel::Float(bits as int),
            Cell::Boolean(value) => CellModel::Boolean(value),
        }
    }
}

/// A text as a value to be sent.
pub fn text_cell(text: &str) -> (r: Cell)
    ensures
        r@ == CellModel::Text(text@),
{
    Cell::Text(text.to_owned())
}

/// The values of a row.
pub open spec fn cells(row: Seq<Cell>) -> Seq<CellModel> {
    row.map_values(|cell: Cell| cell@)
}

/// The values of some rows.
pub open spec fn row_cells(rows: Seq<Vec<Cell>>) -> Seq<Seq<CellModel>> {
    rows.map_values(|row: Vec<Cell>| cells(row@))
}

/// What a name in a script stands for: one value, rows of values, or a value or rows that were read
/// before.
#[derive(Debug)]
pub enum Argument {
    One(Cell),
    Rows(Vec<Vec<Cell>>),
    ReadValue(InspectionValue),
    Read(Vec<Vec<InspectionValue>>),
}

/// What a name in a script stands for.
pub ghost enum ArgumentModel {
    One(CellModel),
    Rows(Seq<Seq<CellModel>>),
    ReadValue(ReadModel),
    Read(Seq<RowModel>),
}

impl View for Argument {
    type V = ArgumentModel;

    open spec fn view(&self) -> ArgumentModel {
        match *self {
            Argument::One(cell) => ArgumentModel::One(cell@),
            Argument::Rows(rows) => ArgumentModel::Rows(row_cells(rows@)),
            Argument::ReadValue(value) => ArgumentModel::ReadValue(value@),
            Argument::Read(rows) => ArgumentModel::Read(row_models(rows@)),
        }
    }
}

/// A name in a script with what it stands for.
pub type Binding = (String, Argument);

/// Names in a script with what they stand for.
pub open spec fn bindings(list: Seq<Binding>) -> Seq<(Seq<char>, ArgumentModel)> {
    list.map_values(|binding: Binding| (binding.0@, binding.1@))
}

/// Binds a name to a text.
pub fn bind_text(name: &str, text: &str) -> (r: Binding)
    ensures
        r.0@ == name@,
        r.1@ == ArgumentModel::One(CellModel::Text(text@)),
{
    (name.to_owned(), Argument::One(text_cell(text)))
}

/// Binds a name to an integer.
pub fn bind_integer(name: &str, value: i64) -> (r: Binding)
    ensures
        r.0@ == name@,
        r.1@ == ArgumentModel::One(CellModel::Integer(value as int)),
{
    (name.to_owned(), Argument::One(Cell::Integer(value)))
}

/// Binds a name to a value that was read before.
pub fn bind_read_value(name: &str, value: InspectionValue) -> (r: Binding)
    ensures
        r.0@ == name@,
        r.1@ == ArgumentModel::ReadValue(value@),
{
    (name.to_owned(), Argument::ReadValue(value))
}

/// Binds a name to rows that were read before.
pub fn bind_read(name: &str, rows: Vec<Vec<InspectionValue>>) -> (r: Binding)
    ensures
        r.0@ == name@,
        r.1@ == ArgumentModel::Read(row_models(rows@)),
{
    (name.to_owned(), Argument::Read(rows))
}

/// Binds a name to rows.
pub fn bind_rows(name: &str, rows: Vec<Vec<Cell>>) -> (r: Binding)
    ensures
        r.0@ == name@,
        r.1@ == ArgumentModel::Rows(row_cells(rows@)),
{
    (name.to_owned(), Argument::Rows(rows))
}

/// A script with what its names stand for.
#[derive(Debug)]
pub struct Command {
    pub script: String,
    pub arguments: Vec<Binding>,
}

/// A script with what its names stand for.
pub ghost struct CommandModel {
    pub script: Seq<char>,
    pub arguments: Seq<(Seq<char>, ArgumentModel)>,
}

impl View for Command {
    type V = CommandModel;

    open spec fn view(&self) -> CommandModel {
        CommandModel { script: self.script@, arguments: bindings(self.arguments@) }
    }
}

/// Rows of one text each.
pub open spec fn text_rows(list: Seq<Seq<char>>) -> Seq<Seq<CellModel>> {
    list.map_values(|text: Seq<char>| seq![CellModel::Text(text)])
}

/// Rows of one text each.
pub fn rows_of_texts(list: &Vec<String>) -> (r: Vec<Vec<Cell>>)
    ensures
        row_cells(r@) == text_rows(crate::sorted::texts(list@)),
{
    let mut rows: Vec<Vec<Cell>> = Vec::new();
    let mut i: usize = 0;
    while i < list.len()
        invariant
            i <= list@.len(),
            rows@.len() == i,
            forall|k: int| 0 <= k < i ==> cells(#[trigger] rows@[k]@) == seq![CellModel::Text(list@[k]@)],
        decreases list@.len() - i,
    {
        let mut row: Vec<Cell> = Vec::new();
        row.push(text_cell(list[i].as_str()));
        assert(cells(row@) =~= seq![CellModel::Text(list@[i as int]@)]);
        rows.push(row);
        i = i + 1;
    }
    proof {
        let named = crate::sorted::texts(list@);
        assert forall|k: int| 0 <= k < rows@.len() implies #[trigger] row_cells(rows@)[k] == text_rows(named)[k] by {
            assert(cells(rows@[k]@) == seq![CellModel::Text(list@[k]@)]);
        }
        assert(row_cells(rows@) =~= text_rows(named));
    }
    rows
}

/// Names with the texts that they stand for.
pub open spec fn named_texts<'a>(pairs: Seq<(&'a str, &'a str)>) -> Seq<(Seq<char>, Seq<char>)> {
    pairs.map_values(|pair: (&'a str, &'a str)| (pair.0@, pair.1@))
}

/// A script whose names stand for texts.
pub open spec fn texts_bound(script: Seq<char>, pairs: Seq<(Seq<char>, Seq<char>)>) -> CommandModel {
    CommandModel {
        script,
        arguments: pairs.map_values(|pair: (Seq<char>, Seq<char>)| (pair.0, ArgumentModel::One(CellModel::Text(pair.1)))),
    }
}

/// Binds names to texts.
pub fn bind_texts<'a>(pairs: &Vec<(&'a str, &'a str)>) -> (r: Vec<Binding>)
    ensures
        bindings(r@) == texts_bound(Seq::empty(), named_texts(pairs@)).arguments,
{
    let ghost wanted = texts_bound(Seq::empty(), named_texts(pairs@)).arguments;
    let mut arguments: Vec<Binding> = Vec::new();
    let mut i: usize = 0;
    while i < pairs.len()
        invariant
            i <= pairs@.len(),
            arguments@.len() == i,
            wanted == texts_bound(Seq::empty(), named_texts(pairs@)).arguments,
            forall|k: int| 0 <= k < i ==> #[trigger] bindings(arguments@)[k] == wanted[k],
        decreases pairs@.len() - i,
    {
        let ghost before = arguments@;
        arguments.push(bind_text(pairs[i].0, pairs[i].1));
        assert forall|k: int| 0 <= k < i + 1 implies #[trigger] bindings(arguments@)[k] == wanted[k] by {
            if k < i {
                assert(bindings(before)[k] == wanted[k]);
                assert(arguments@[k] == before[k]);
            } else {
                assert(named_texts(pairs@)[k] == (pairs@[k].0@, pairs@[k].1@));
            }
        }
        i = i + 1;
    }
    assert(bindings(arguments@) =~= wanted);
    arguments
}

/// A script whose names stand for texts.
pub fn texts_command<'a>(script: &str, pairs: &Vec<(&'a str, &'a str)>) -> (r: Command)
    ensures
        r@ == texts_bound(script@, named_texts(pairs@)),
{
    let command: Command = Command { script: script.to_owned(), arguments: bind_texts(pairs) };
    assert(command@.arguments =~= texts_bound(script@, named_texts(pairs@)).arguments);
    command
}

/// A script that is about a view.
pub open spec fn view_bound(script: Seq<char>, view: Seq<char>) -> CommandModel {
    texts_bound(script, seq![("view"@, view)])
}

/// A script that is about a view.
pub fn view_command(script: &str, view: &str) -> (r: Command)
    ensures
        r@ == view_bound(script@, view@),
{
    let pairs: Vec<(&str, &str)> = vec![("view", view)];
    assert(named_texts(pairs@) =~= seq![("view"@, view@)]);
    texts_command(script, &pairs)
}

/// A script that takes rows that were read before.
pub open spec fn read_put(script: Seq<char>, rows: Seq<RowModel>) -> CommandModel {
    CommandModel { script, arguments: seq![("rows"@, ArgumentModel::Read(rows))] }
}

/// A script that takes rows that were read before.
pub fn put_read(script: &str, rows: Vec<Vec<InspectionValue>>) -> (r: Command)
    ensures
        r@ == read_put(script@, row_models(rows@)),
{
    let mut arguments: Vec<Binding> = Vec::new();
    arguments.push(bind_read("rows", rows));
    let command: Command = Command { script: script.to_owned(), arguments };
    assert(command@.arguments =~= read_put(script@, row_models(rows@)).arguments);
    command
}

} // verus!
