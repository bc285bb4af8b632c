//! What is shown of the rows of a result: the layout of a table, or the
//! pairs of each row. Drawing the grid and writing it out is left to the
//! caller.

use vstd::prelude::*;
use crate::db::{all_keys, cell, columns_of, strictly_sorted, texts};
use crate::evaluator::rows_view;
use crate::row::{Pair, Row};
use crate::text::copy;

verus! {

/// The forms in which a result can be shown.
#[derive(Debug, Clone, Copy, PartialEq, Eq)]
pub enum OutputType {
    Table,
    Csv,
    JSON,
}

/// A table: the titles of its columns, and for each row the cells under
/// them.
#[derive(Debug, PartialEq, Eq)]
pub struct Grid {
    pub titles: Vec<Vec<u8>>,
    pub cells: Vec<Vec<Vec<u8>>>,
}

/// What is to be shown.
#[derive(Debug, PartialEq, Eq)]
pub enum Printed {
    /// A table with titles.
    Table(Grid),
    /// The rows, each as the list of its names and values.
    Json(Vec<Vec<(Vec<u8>, Vec<u8>)>>),
    /// Nothing.
    Nothing,
}

/// The cells of a list of rows of cells.
pub open spec fn cells_view(cells: Seq<Vec<Vec<u8>>>) -> Seq<Seq<Seq<u8>>> {
    Seq::new(cells.len(), |i: int| texts(cells[i]@))
}

/// The cells of one row under the titles: for each title what the row
/// binds to it, or the empty text.
pub open spec fn row_cells(titles: Seq<Seq<u8>>, row: Map<Seq<u8>, Seq<u8>>) -> Seq<Seq<u8>> {
    Seq::new(titles.len(), |i: int| cell(row, titles[i]))
}

/// The cells of the rows under the titles.
pub open spec fn grid_cells(
    titles: Seq<Seq<u8>>,
    rows: Seq<Map<Seq<u8>, Seq<u8>>>,
) -> Seq<Seq<Seq<u8>>> {
    Seq::new(rows.len(), |i: int| row_cells(titles, rows[i]))
}

/// The pairs of a list of pairs.
pub open spec fn pairs_view(ps: Seq<(Vec<u8>, Vec<u8>)>) -> Seq<Pair> {
    Seq::new(ps.len(), |i: int| (ps[i].0@, ps[i].1@))
}

/// The pairs of the rows.
pub open spec fn rows_pairs(rows: Seq<Row>) -> Seq<Seq<Pair>> {
    Seq::new(rows.len(), |i: int| rows[i].pairs())
}

/// The pairs of a list of lists of pairs.
pub open spec fn lists_view(ls: Seq<Vec<(Vec<u8>, Vec<u8>)>>) -> Seq<Seq<Pair>> {
    Seq::new(ls.len(), |i: int| pairs_view(ls[i]@))
}

/// Lays the rows out as a table. The titles are the names that any of the
/// rows binds, each once, in the order of byte strings; a row has an empty
/// cell under a title that it does not bind.
pub fn printstd(rows: &Vec<Row>) -> (g: Grid)
    ensures
        strictly_sorted(texts(g.titles@)),
        texts(g.titles@).to_set() == all_keys(rows_view(rows@)),
        cells_view(g.cells@) == grid_cells(texts(g.titles@), rows_view(rows@)),
{
    let titles = columns_of(rows);
    let mut cells: Vec<Vec<Vec<u8>>> = Vec::new();
    let ghost want = grid_cells(texts(titles@), rows_view(rows@));
    let mut i: usize = 0;
    assert(cells_view(cells@) =~= want.take(0));
    while i < rows.len()
        invariant
            i <= rows@.len(),
            want == grid_cells(texts(titles@), rows_view(rows@)),
            cells_view(cells@) == want.take(i as int),
        decreases rows@.len() - i,
    {
        let row = &rows[i];
        let mut record: Vec<Vec<u8>> = Vec::new();
        let ghost line = row_cells(texts(titles@), row@);
        let mut j: usize = 0;
        assert(texts(record@) =~= line.take(0));
        while j < titles.len()
            invariant
                j <= titles@.len(),
                line == row_cells(texts(titles@), row@),
                texts(record@) == line.take(j as int),
            decreases titles@.len() - j,
        {
            let value = match row.get(titles[j].as_slice()) {
                Some(v) => copy(v.as_slice()),
                None => Vec::new(),
            };
            let ghost before = texts(record@);
            let ghost this = value@;
            assert(texts(titles@)[j as int] == titles@[j as int]@);
            assert(this =~= line[j as int]);
            record.push(value);
            assert(texts(record@) =~= before.push(this));
            assert(line.take(j + 1) =~= line.take(j as int).push(this));
            j += 1;
        }
        assert(line.take(titles@.len() as int) =~= line);
        let ghost before = cells_view(cells@);
        assert(rows_view(rows@)[i as int] == row@);
        cells.push(record);
        assert(cells_view(cells@) =~= before.push(line));
        assert(want.take(i + 1) =~= want.take(i as int).push(line));
        i += 1;
    }
    assert(want.take(rows@.len() as int) =~= want);
    Grid { titles, cells }
}

/// Gives the rows as lists of names and values, each in the order of its
/// names.
pub fn printjson(rows: &Vec<Row>) -> (lists: Vec<Vec<(Vec<u8>, Vec<u8>)>>)
    ensures
        lists_view(lists@) == rows_pairs(rows@),
{
    let mut lists: Vec<Vec<(Vec<u8>, Vec<u8>)>> = Vec::new();
    let ghost want = rows_pairs(rows@);
    let mut i: usize = 0;
    assert(lists_view(lists@) =~= want.take(0));
    while i < rows.len()
        invariant
            i <= rows@.len(),
            want == rows_pairs(rows@),
            lists_view(lists@) == want.take(i as int),
        decreases rows@.len() - i,
    {
        let row = &rows[i];
        let count = row.len();
        let mut pairs: Vec<(Vec<u8>, Vec<u8>)> = Vec::new();
        let mut j: usize = 0;
        assert(pairs_view(pairs@) =~= row.pairs().take(0));
        while j < count
            invariant
                j <= count,
                count == row.pairs().len(),
                pairs_view(pairs@) == row.pairs().take(j as int),
            decreases count - j,
        {
            let key = copy(row.key(j).as_slice());
            let value = copy(row.value(j).as_slice());
            let ghost before = pairs_view(pairs@);
            let ghost this = (key@, value@);
            pairs.push((key, value));
            assert(pairs_view(pairs@) =~= before.push(this));
            assert(row.pairs().take(j + 1) =~= row.pairs().take(j as int).push(this));
            j += 1;
        }
        assert(row.pairs().take(count as int) =~= row.pairs());
        let ghost before = lists_view(lists@);
        let ghost this = pairs_view(pairs@);
        lists.push(pairs);
        assert(lists_view(lists@) =~= before.push(this));
        assert(want.take(i + 1) =~= want.take(i as int).push(this));
        i += 1;
    }
    assert(want.take(rows@.len() as int) =~= want);
    lists
}

/// Says what is to be shown of the rows in the given form: a table, the
/// rows as lists of names and values, or, for the form `Csv`, nothing.
pub fn print(rows: &Vec<Row>, output_type: OutputType) -> (p: Printed)
    ensures
        match output_type {
            OutputType::Table => p matches Printed::Table(g) && strictly_sorted(texts(g.titles@))
                && texts(g.titles@).to_set() == all_keys(rows_view(rows@)) && cells_view(g.cells@)
                == grid_cells(texts(g.titles@), rows_view(rows@)),
            OutputType::JSON => p matches Printed::Json(lists) && lists_view(lists@) == rows_pairs(
                rows@,
            ),
            OutputType::Csv => p is Nothing,
        },
{
    match output_type {
        OutputType::Table => Printed::Table(printstd(rows)),
        OutputType::JSON => Printed::Json(printjson(rows)),
        OutputType::Csv => Printed::Nothing,
    }
}

} // verus!
