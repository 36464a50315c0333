//! A table read out of a document: its headers and its rows of cell text,
//! and the borrowed views through which rows are read.
use vstd::prelude::*;
use vstd::std_specs::iter::IteratorSpec;

use crate::headers::{header_map, lemma_header_map, texts, Headers};

verus! {

/// The text of each cell of each row in `rows`.
pub open spec fn rows_texts(rows: Seq<Vec<String>>) -> Seq<Seq<Seq<char>>> {
    rows.map_values(|r: Vec<String>| texts(r@))
}

/// What a table holds: the map of its header names and its data rows.
pub struct TableView {
    pub headers: Map<Seq<char>, int>,
    pub rows: Seq<Seq<Seq<char>>>,
}

/// The table read from a sequence of rows, where `header_cells` are the
/// texts of the header cells of the first row and `rows` the texts of the
/// data cells of every row. A first row with at least one header cell is
/// the header row: it names the columns and is not a data row. Otherwise
/// there are no headers and every row is a data row.
pub open spec fn built_table(
    header_cells: Seq<Seq<char>>,
    rows: Seq<Seq<Seq<char>>>,
) -> TableView {
    TableView {
        headers: header_map(header_cells),
        rows: if header_cells.len() > 0 && rows.len() > 0 {
            rows.drop_first()
        } else {
            rows
        },
    }
}

/// The cell of `cells` under the header `name`: absent where there is no
/// such header, and where the row has no cell at that header's position.
pub open spec fn cell_under(
    headers: Map<Seq<char>, int>,
    cells: Seq<Seq<char>>,
    name: Seq<char>,
) -> Option<Seq<char>> {
    if headers.contains_key(name) && 0 <= headers[name] < cells.len() {
        Some(cells[headers[name]])
    } else {
        None
    }
}

/// A parsed HTML table: its header names and its data rows, in document
/// order. Rows keep the cells they had: none is padded or cut.
#[derive(Clone, Debug)]
pub struct Table {
    headers: Headers,
    data: Vec<Vec<String>>,
}

impl View for Table {
    type V = TableView;

    closed spec fn view(&self) -> TableView {
        TableView { headers: self.headers@, rows: rows_texts(self.data@) }
    }
}

impl Table {
    /// Builds the table whose first row has the header cells
    /// `header_cells` and whose rows have the data cells `rows`.
    pub fn from_cells(header_cells: Vec<String>, rows: Vec<Vec<String>>) -> (t: Table)
        ensures
            t@ == built_table(texts(header_cells@), rows_texts(rows@)),
    {
        let ghost all = rows_texts(rows@);
        let mut data = rows;
        if header_cells.len() > 0 && data.len() > 0 {
            data.remove(0);
            assert(rows_texts(data@) =~= all.drop_first());
        }
        let t = Table { headers: Headers::from_cells(header_cells), data };
        assert(t@.rows =~= built_table(texts(header_cells@), all).rows);
        t
    }

    /// Returns the headers of the table. They are empty where the first row
    /// of the table has no header cell.
    pub fn headers(&self) -> (h: &Headers)
        ensures
            h@ == self@.headers,
    {
        &self.headers
    }

    /// Returns the rows of the table, from the first data row on. Each call
    /// starts again from the first row.
    pub fn iter(&self) -> (it: Iter<'_>)
        ensures
            it@ == self@.rows,
            it.headers_view() == self@.headers,
    {
        let it = Iter { headers: &self.headers, rows: self.data.as_slice(), next: 0 };
        assert(rows_texts(it.rows@).skip(0) =~= self@.rows);
        it
    }
}

/// The rows of a [`Table`], handed out one at a time.
pub struct Iter<'a> {
    headers: &'a Headers,
    rows: &'a [Vec<String>],
    next: usize,
}

impl<'a> View for Iter<'a> {
    type V = Seq<Seq<Seq<char>>>;

    /// The rows that are still to come.
    closed spec fn view(&self) -> Seq<Seq<Seq<char>>> {
        if self.next <= self.rows@.len() {
            rows_texts(self.rows@).skip(self.next as int)
        } else {
            Seq::empty()
        }
    }
}

impl<'a> Iter<'a> {
    /// The headers of the table that the rows belong to.
    pub closed spec fn headers_view(&self) -> Map<Seq<char>, int> {
        self.headers@
    }

    /// Returns the next row, or `None` once every row has been returned.
    pub fn next(&mut self) -> (r: Option<Row<'a>>)
        ensures
            final(self).headers_view() == old(self).headers_view(),
            match r {
                None => old(self)@.len() == 0 && final(self)@ == old(self)@,
                Some(row) => {
                    &&& old(self)@.len() > 0
                    &&& row.cells_view() == old(self)@[0]
                    &&& row.headers_view() == old(self).headers_view()
                    &&& final(self)@ == old(self)@.drop_first()
                },
            },
    {
        if self.next < self.rows.len() {
            let cells = self.rows[self.next].as_slice();
            let row = Row { headers: self.headers, cells };
            let ghost before = self@;
            self.next = self.next + 1;
            assert(self@ =~= before.drop_first());
            Some(row)
        } else {
            None
        }
    }
}

/// A row of a [`Table`]: a borrowed view of its cells and of the table's
/// headers.
///
/// A row whose length is that of the header row can be read by header
/// name with [`get`](Row::get). Other rows are best read by position.
#[derive(Clone, Copy, Debug)]
pub struct Row<'a> {
    headers: &'a Headers,
    cells: &'a [String],
}

impl<'a> Row<'a> {
    /// The text of each cell of the row.
    pub closed spec fn cells_view(&self) -> Seq<Seq<char>> {
        texts(self.cells@)
    }

    /// The headers of the table that the row belongs to.
    pub closed spec fn headers_view(&self) -> Map<Seq<char>, int> {
        self.headers@
    }

    /// Returns the number of cells in the row.
    pub fn len(&self) -> (n: usize)
        ensures
            n == self.cells_view().len(),
    {
        self.cells.len()
    }

    /// Returns `true` if the row has no cells.
    pub fn is_empty(&self) -> (b: bool)
        ensures
            b <==> self.cells_view().len() == 0,
    {
        self.cells.len() == 0
    }

    /// Returns the cell under the header `header`.
    ///
    /// Returns `None` where there is no such header, and where the row has
    /// no cell at that header's position.
    pub fn get(&self, header: &str) -> (r: Option<&'a str>)
        ensures
            match r {
                Some(s) => cell_under(self.headers_view(), self.cells_view(), header@) == Some(
                    s@,
                ),
                None => cell_under(self.headers_view(), self.cells_view(), header@) is None,
            },
    {
        match self.headers.get(header) {
            Some(i) => {
                if i < self.cells.len() {
                    Some(self.cells[i].as_str())
                } else {
                    None
                }
            },
            None => None,
        }
    }

    /// Returns all the cells of the row.
    pub fn as_slice(&self) -> (s: &'a [String])
        ensures
            texts(s@) == self.cells_view(),
    {
        self.cells
    }

    /// Returns an iterator over the cells of the row.
    pub fn iter(&self) -> (it: std::slice::Iter<'a, String>)
        ensures
            texts(it.remaining().unref()) == self.cells_view(),
    {
        self.cells.iter()
    }
}

impl<'a> IntoIterator for Row<'a> {
    type Item = &'a String;

    type IntoIter = std::slice::Iter<'a, String>;

    /// The cells of the row, in order.
    fn into_iter(self) -> (it: std::slice::Iter<'a, String>)
        ensures
            texts(it.remaining().unref()) == self.cells_view(),
    {
        self.cells.iter()
    }
}

/// Header detection: where the first row has a header cell, the headers
/// are not empty and every row after the first is a data row; where it has
/// none, or there is no row, there are no headers and every row is a data
/// row.
pub proof fn lemma_header_row_detection(
    header_cells: Seq<Seq<char>>,
    rows: Seq<Seq<Seq<char>>>,
)
    ensures
        header_cells.len() > 0 && rows.len() > 0 ==> {
            &&& !built_table(header_cells, rows).headers.is_empty()
            &&& built_table(header_cells, rows).rows == rows.drop_first()
        },
        header_cells.len() == 0 ==> {
            &&& built_table(header_cells, rows).headers == Map::<Seq<char>, int>::empty()
            &&& built_table(header_cells, rows).rows == rows
        },
{
    if header_cells.len() > 0 {
        lemma_header_map(header_cells, header_cells[0]);
        assert(header_cells.contains(header_cells[0]));
        assert(built_table(header_cells, rows).headers.contains_key(header_cells[0]));
    }
}

/// Iterating over a table twice yields the same rows, with the same
/// headers: those of the table, in order.
pub proof fn lemma_iteration_restarts(t: &Table, first: &Iter, second: &Iter)
    requires
        first@ == t@.rows && first.headers_view() == t@.headers,
        second@ == t@.rows && second.headers_view() == t@.headers,
    ensures
        first@ == second@,
        first.headers_view() == second.headers_view(),
{
}

/// A row has no cell under a name both where the name is no header and
/// where the row is too short for the header's position.
pub proof fn lemma_missing_cell(row: &Row, name: Seq<char>)
    ensures
        !row.headers_view().contains_key(name) ==> cell_under(
            row.headers_view(),
            row.cells_view(),
            name,
        ) is None,
        row.headers_view().contains_key(name) && row.headers_view()[name]
            >= row.cells_view().len() ==> cell_under(
            row.headers_view(),
            row.cells_view(),
            name,
        ) is None,
{
}

/// Whether `a` and `b` hold the same texts in the same order.
fn same_texts(a: &[String], b: &[String]) -> (r: bool)
    ensures
        r <==> texts(a@) == texts(b@),
{
    if a.len() != b.len() {
        return false;
    }
    let mut i: usize = 0;
    while i < a.len()
        invariant
            i <= a@.len(),
            a@.len() == b@.len(),
            forall|j: int| 0 <= j < i ==> a@[j]@ == b@[j]@,
        decreases a.len() - i,
    {
        if a[i] != b[i] {
            assert(texts(a@)[i as int] != texts(b@)[i as int]);
            return false;
        }
        i = i + 1;
    }
    assert(texts(a@) =~= texts(b@));
    true
}

impl<'a> PartialEq for Row<'a> {
    /// Rows are equal when their headers and their cells are equal.
    fn eq(&self, other: &Row<'a>) -> (r: bool)
        ensures
            r <==> (self.headers_view() == other.headers_view() && self.cells_view()
                == other.cells_view()),
    {
        *self.headers == *other.headers && same_texts(self.cells, other.cells)
    }
}

impl<'a> vstd::std_specs::cmp::PartialEqSpecImpl for Row<'a> {
    open spec fn obeys_eq_spec() -> bool {
        true
    }

    open spec fn eq_spec(&self, other: &Row<'a>) -> bool {
        self.headers_view() == other.headers_view() && self.cells_view() == other.cells_view()
    }
}

impl<'a> Eq for Row<'a> {

}

impl PartialEq for Table {
    /// Tables are equal when their headers and their rows are equal.
    fn eq(&self, other: &Table) -> (r: bool)
        ensures
            r <==> self@ == other@,
    {
        if !(self.headers == other.headers) {
            return false;
        }
        if self.data.len() != other.data.len() {
            assert(self@.rows.len() != other@.rows.len());
            return false;
        }
        let mut i: usize = 0;
        while i < self.data.len()
            invariant
                i <= self.data@.len(),
                self.data@.len() == other.data@.len(),
                forall|j: int| 0 <= j < i ==> texts(self.data@[j]@) == texts(other.data@[j]@),
            decreases self.data.len() - i,
        {
            if !same_texts(self.data[i].as_slice(), other.data[i].as_slice()) {
                assert(self@.rows[i as int] != other@.rows[i as int]);
                return false;
            }
            i = i + 1;
        }
        assert(self@.rows =~= other@.rows);
        true
    }
}

impl vstd::std_specs::cmp::PartialEqSpecImpl for Table {
    open spec fn obeys_eq_spec() -> bool {
        true
    }

    open spec fn eq_spec(&self, other: &Table) -> bool {
        self@ == other@
    }
}

impl Eq for Table {

}

} // verus!
