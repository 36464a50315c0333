//! Finding a table in an HTML document and reading it, with the `scraper`
//! crate parsing the markup and matching CSS selectors.
use vstd::prelude::*;
use vstd::string::StringExecFns;

use scraper::{ElementRef, Html, Selector};

use crate::headers::texts;
use crate::matching::{
    contains_all, covers, first_covering,
    lemma_first_covering_ignores_order, lemma_first_covering_is_first,
    lemma_no_required_names_is_first, str_texts,
};
use crate::headers::lemma_header_map;
use crate::table::{built_table, rows_texts, Table, TableView};


verus! {

#[verifier::external_type_specification]
#[verifier::external_body]
pub struct ExHtml(Html);

#[verifier::external_type_specification]
#[verifier::external_body]
pub struct ExElementRef<'a>(ElementRef<'a>);

#[verifier::external_type_specification]
#[verifier::external_body]
pub struct ExSelector(Selector);

/// The text `s` without its leading and trailing whitespace.
pub uninterp spec fn trimmed(s: Seq<char>) -> Seq<char>;

/// The document that the markup `text` parses into.
pub uninterp spec fn fragment_of(text: Seq<char>) -> Html;

/// The selector that `text` reads as, if it is one.
pub uninterp spec fn parsed(text: Seq<char>) -> Option<Selector>;

/// The descendants of `e` that match `s`, in document order.
pub uninterp spec fn selected(e: ElementRef, s: Selector) -> Seq<ElementRef>;

/// The elements of the document `h` that match `s`.
pub uninterp spec fn selected_in(h: &Html, s: Selector) -> Seq<ElementRef>;

/// The markup of the contents of `e`.
pub uninterp spec fn inner_html_of(e: ElementRef) -> Seq<char>;

/// Relies on `str::trim`: the slice of `s` without leading and trailing
/// whitespace, which depends on the text of `s` alone.
pub assume_specification[ str::trim ](s: &str) -> (r: &str)
    ensures
        r@ == trimmed(s@),
;

/// Relies on `scraper::Html::parse_fragment` to parse markup into a
/// document, repairing what is malformed; the document depends on the
/// markup alone.
pub assume_specification[ Html::parse_fragment ](fragment: &str) -> (h: Html)
    ensures
        h == fragment_of(fragment@),
;

/// Relies on `scraper::ElementRef::inner_html` for the markup of an
/// element's contents, which depends on the element alone.
pub assume_specification<'a>[ ElementRef::<'a>::inner_html ](elem: &ElementRef<'a>) -> (r: String)
    ensures
        r@ == inner_html_of(*elem),
;

/// Whether `s` is a lower-case ASCII element name, such as `table`: a
/// letter, then letters and digits.
pub open spec fn is_element_name(s: Seq<char>) -> bool {
    &&& s.len() > 0
    &&& 'a' <= s[0] <= 'z'
    &&& forall|i: int| 0 <= i < s.len() ==> ('a' <= #[trigger] s[i] <= 'z' || '0' <= s[i] <= '9')
}

/// Relies on `scraper::Selector::parse`, which reads a CSS selector group;
/// an element name alone is a type selector, which it reads.
#[verifier::external_body]
fn parse_selector(text: &str) -> (r: Option<Selector>)
    ensures
        r == parsed(text@),
        is_element_name(text@) ==> r is Some,
{
    Selector::parse(text).ok()
}

/// Relies on `scraper::ElementRef::select`: the descendants of `elem` that
/// match `selector`, in document order.
#[verifier::external_body]
fn select_all<'a>(elem: &ElementRef<'a>, selector: &Selector) -> (r: Vec<ElementRef<'a>>)
    ensures
        r@ == selected(*elem, *selector),
{
    elem.select(selector).collect()
}

/// Relies on `scraper::Html::select`: the elements of `html` that match
/// `selector`.
#[verifier::external_body]
fn select_in_document<'a>(html: &'a Html, selector: &Selector) -> (r: Vec<ElementRef<'a>>)
    ensures
        r@ == selected_in(html, *selector),
{
    html.select(selector).collect()
}

/// The selector for the elements named `name`.
pub open spec fn selector_for(name: Seq<char>) -> Selector {
    parsed(name)->Some_0
}

/// The texts of the cells of `e` that `s` matches: their inner markup,
/// trimmed.
pub open spec fn cell_texts(e: ElementRef, s: Selector) -> Seq<Seq<char>> {
    selected(e, s).map_values(|c: ElementRef| trimmed(inner_html_of(c)))
}

/// The rows of the table element `table`.
pub open spec fn table_rows(table: ElementRef) -> Seq<ElementRef> {
    selected(table, selector_for("tr"@))
}

/// The texts of the header cells of the first row of `table`; none where
/// it has no row.
pub open spec fn header_cells_of(table: ElementRef) -> Seq<Seq<char>> {
    if table_rows(table).len() > 0 {
        cell_texts(table_rows(table)[0], selector_for("th"@))
    } else {
        Seq::empty()
    }
}

/// The texts of the data cells of each row in `rows`.
pub open spec fn data_cells_of(rows: Seq<ElementRef>) -> Seq<Seq<Seq<char>>> {
    rows.map_values(|tr: ElementRef| cell_texts(tr, selector_for("td"@)))
}

/// The table that the element `table` reads as: the header cells of its
/// first row name the columns, and the data cells of its rows are the rows.
pub open spec fn read_view(table: ElementRef) -> TableView {
    built_table(header_cells_of(table), data_cells_of(table_rows(table)))
}

/// The table read from the first of the table elements `tables`.
pub open spec fn first_view(tables: Seq<ElementRef>) -> Option<TableView> {
    if tables.len() > 0 {
        Some(read_view(tables[0]))
    } else {
        None
    }
}

/// The table read from the first of the table elements `tables` whose
/// first row holds header cells with every name of `required`.
pub open spec fn covering_view(tables: Seq<ElementRef>, required: Seq<Seq<char>>) -> Option<
    TableView,
> {
    match first_covering(tables.map_values(|t: ElementRef| header_cells_of(t)), required) {
        Some(i) => Some(read_view(tables[i])),
        None => None,
    }
}

/// What a search returned, read as a table.
pub open spec fn found(r: Option<Table>) -> Option<TableView> {
    match r {
        Some(t) => Some(t@),
        None => None,
    }
}

/// The selector for elements named `tag`.
fn css(tag: &str) -> (s: Selector)
    requires
        is_element_name(tag@),
    ensures
        s == selector_for(tag@),
{
    parse_selector(tag).unwrap()
}

/// The text of a cell: its inner markup, trimmed.
fn cell_content(element: &ElementRef) -> (s: String)
    ensures
        s@ == trimmed(inner_html_of(*element)),
{
    let inner = element.inner_html();
    inner.as_str().trim().to_owned()
}

/// The texts of the cells of `element` that `selector` matches.
fn select_cells(element: &ElementRef, selector: &Selector) -> (cells: Vec<String>)
    ensures
        texts(cells@) == cell_texts(*element, *selector),
{
    let found = select_all(element, selector);
    let ghost all = cell_texts(*element, *selector);
    let mut cells: Vec<String> = Vec::new();
    let mut i: usize = 0;
    while i < found.len()
        invariant
            i <= found@.len(),
            found@ == selected(*element, *selector),
            all == cell_texts(*element, *selector),
            texts(cells@) == all.take(i as int),
        decreases found.len() - i,
    {
        let text = cell_content(&found[i]);
        assert(all[i as int] == text@);
        let ghost before = cells@;
        cells.push(text);
        assert(texts(cells@) =~= texts(before).push(text@));
        assert(texts(cells@) =~= all.take(i + 1));
        i = i + 1;
    }
    assert(all.take(found@.len() as int) =~= all);
    cells
}

/// The rows of `table`, and the texts of the header cells of its first row.
fn read_header_row<'a>(table: &ElementRef<'a>) -> (r: (Vec<ElementRef<'a>>, Vec<String>))
    ensures
        r.0@ == table_rows(*table),
        texts(r.1@) == header_cells_of(*table),
{
    proof {
        reveal_strlit("tr");
        reveal_strlit("th");
    }
    let trs = select_all(table, &css("tr"));
    let header_cells = if trs.len() > 0 {
        select_cells(&trs[0], &css("th"))
    } else {
        Vec::new()
    };
    assert(trs.len() == 0 ==> texts(header_cells@) =~= Seq::<Seq<char>>::empty());
    (trs, header_cells)
}

/// The table whose rows are `trs`, the first of which has the header cells
/// `header_cells`.
fn read_rows(trs: &Vec<ElementRef>, header_cells: Vec<String>) -> (t: Table)
    ensures
        t@ == built_table(texts(header_cells@), data_cells_of(trs@)),
{
    proof {
        reveal_strlit("td");
    }
    let td = css("td");
    let ghost all = data_cells_of(trs@);
    let mut rows: Vec<Vec<String>> = Vec::new();
    let mut i: usize = 0;
    while i < trs.len()
        invariant
            i <= trs@.len(),
            td == selector_for("td"@),
            all == data_cells_of(trs@),
            rows_texts(rows@) == all.take(i as int),
        decreases trs.len() - i,
    {
        let cells = select_cells(&trs[i], &td);
        assert(all[i as int] == texts(cells@));
        let ghost before = rows@;
        let ghost row = texts(cells@);
        rows.push(cells);
        assert(rows_texts(rows@) =~= rows_texts(before).push(row));
        assert(rows_texts(rows@) =~= all.take(i + 1));
        i = i + 1;
    }
    assert(all.take(trs@.len() as int) =~= all);
    Table::from_cells(header_cells, rows)
}

impl Table {
    /// Reads the table `element`.
    fn new(element: &ElementRef) -> (t: Table)
        ensures
            t@ == read_view(*element),
    {
        let (trs, header_cells) = read_header_row(element);
        read_rows(&trs, header_cells)
    }
}

/// With no required names, the table chosen by its header row is the first
/// table: a search by no names finds what a search for the first table does.
pub proof fn lemma_no_names_is_first(tables: Seq<ElementRef>)
    ensures
        covering_view(tables, Seq::empty()) == first_view(tables),
{
    lemma_no_required_names_is_first(tables.map_values(|t: ElementRef| header_cells_of(t)));
}

/// The table found by header names depends only on which names are
/// required: not on their order, nor on repeats.
pub proof fn lemma_names_in_any_order(
    tables: Seq<ElementRef>,
    a: Seq<Seq<char>>,
    b: Seq<Seq<char>>,
)
    requires
        a.to_set() == b.to_set(),
    ensures
        covering_view(tables, a) == covering_view(tables, b),
{
    lemma_first_covering_ignores_order(
        tables.map_values(|t: ElementRef| header_cells_of(t)),
        a,
        b,
    );
}

/// A table is found by header names only where it is one of the tables,
/// its first row holds every required name, no earlier table's does, and
/// then every required name is one of its headers. Where no table's first
/// row holds them all, none is found.
pub proof fn lemma_found_by_names(tables: Seq<ElementRef>, required: Seq<Seq<char>>)
    ensures
        match covering_view(tables, required) {
            Some(v) => exists|i: int|
                {
                    &&& 0 <= i < tables.len()
                    &&& v == read_view(tables[i])
                    &&& covers(header_cells_of(tables[i]), required)
                    &&& forall|j: int|
                        0 <= j < i ==> !covers(header_cells_of(#[trigger] tables[j]), required)
                    &&& forall|k: int|
                        0 <= k < required.len() ==> v.headers.contains_key(#[trigger] required[k])
                },
            None => forall|i: int|
                0 <= i < tables.len() ==> !covers(header_cells_of(#[trigger] tables[i]), required),
        },
{
    let rows = tables.map_values(|t: ElementRef| header_cells_of(t));
    lemma_first_covering_is_first(rows, required);
    match first_covering(rows, required) {
        Some(i) => {
            assert(rows[i] == header_cells_of(tables[i]));
            assert forall|j: int| 0 <= j < i implies !covers(
                header_cells_of(#[trigger] tables[j]),
                required,
            ) by {
                assert(rows[j] == header_cells_of(tables[j]));
            }
            assert forall|k: int| 0 <= k < required.len() implies read_view(
                tables[i],
            ).headers.contains_key(#[trigger] required[k]) by {
                assert(header_cells_of(tables[i]).contains(required[k]));
                lemma_header_map(header_cells_of(tables[i]), required[k]);
            }
        },
        None => {
            assert forall|i: int| 0 <= i < tables.len() implies !covers(
                header_cells_of(#[trigger] tables[i]),
                required,
            ) by {
                assert(rows[i] == header_cells_of(tables[i]));
            }
        },
    }
}

impl Table {
    /// Reads the first of the table elements `candidates`, if there is one.
    pub fn from_first(candidates: &[ElementRef]) -> (r: Option<Table>)
        ensures
            found(r) == first_view(candidates@),
    {
        if candidates.len() > 0 {
            Some(Table::new(&candidates[0]))
        } else {
            None
        }
    }

    /// Reads the first of the table elements `candidates` whose first row
    /// holds header cells with every name of `headers`, in any order. With
    /// no names this is the first of them.
    pub fn from_first_with_headers(candidates: &[ElementRef], headers: &[&str]) -> (r: Option<
        Table,
    >)
        ensures
            found(r) == covering_view(candidates@, str_texts(headers@)),
    {
        if headers.len() == 0 {
            proof {
                lemma_no_names_is_first(candidates@);
                assert(str_texts(headers@) =~= Seq::empty());
            }
            return Table::from_first(candidates);
        }
        let ghost required = str_texts(headers@);
        let ghost rows = candidates@.map_values(|t: ElementRef| header_cells_of(t));
        let mut i: usize = 0;
        while i < candidates.len()
            invariant
                i <= candidates@.len(),
                required == str_texts(headers@),
                rows == candidates@.map_values(|t: ElementRef| header_cells_of(t)),
                forall|j: int| 0 <= j < i ==> !covers(#[trigger] rows[j], required),
            decreases candidates.len() - i,
        {
            let (trs, header_cells) = read_header_row(&candidates[i]);
            assert(rows[i as int] == texts(header_cells@));
            if contains_all(header_cells.as_slice(), headers) {
                proof {
                    crate::matching::lemma_first_covering_found(rows, required, i as int);
                }
                return Some(read_rows(&trs, header_cells));
            }
            i = i + 1;
        }
        proof {
            crate::matching::lemma_first_covering_found(rows, required, i as int);
        }
        None
    }

    /// Finds the first table among the descendants of `elem`.
    pub fn find_first_from_elem(elem: &ElementRef) -> (r: Option<Table>)
        ensures
            found(r) == first_view(selected(*elem, selector_for("table"@))),
    {
        proof {
            reveal_strlit("table");
        }
        let tables = select_all(elem, &css("table"));
        Table::from_first(tables.as_slice())
    }

    /// Finds the first table in `html`.
    pub fn find_first_from_html(html: &Html) -> (r: Option<Table>)
        ensures
            found(r) == first_view(selected_in(html, selector_for("table"@))),
    {
        proof {
            reveal_strlit("table");
        }
        let tables = select_in_document(html, &css("table"));
        Table::from_first(tables.as_slice())
    }

    /// Finds the first table in the HTML fragment `html`.
    pub fn find_first(html: &str) -> (r: Option<Table>)
        ensures
            found(r) == first_view(selected_in(&fragment_of(html@), selector_for("table"@))),
    {
        let doc = Html::parse_fragment(html);
        Table::find_first_from_html(&doc)
    }

    /// Finds the table with the id `id` among the descendants of `elem`.
    ///
    /// The id is written into the selector `table#<id>` as it is; where that
    /// is no valid selector, no table is found.
    pub fn find_by_id_from_elem(elem: &ElementRef, id: &str) -> (r: Option<Table>)
        ensures
            found(r) == match parsed("table#"@ + id@) {
                Some(s) => first_view(selected(*elem, s)),
                None => None,
            },
    {
        let text = "table#".to_owned().concat(id);
        match parse_selector(text.as_str()) {
            Some(selector) => {
                let tables = select_all(elem, &selector);
                Table::from_first(tables.as_slice())
            },
            None => None,
        }
    }

    /// Finds the table with the id `id` in `html`.
    pub fn find_by_id_in_html(html: &Html, id: &str) -> (r: Option<Table>)
        ensures
            found(r) == match parsed("table#"@ + id@) {
                Some(s) => first_view(selected_in(html, s)),
                None => None,
            },
    {
        let text = "table#".to_owned().concat(id);
        match parse_selector(text.as_str()) {
            Some(selector) => {
                let tables = select_in_document(html, &selector);
                Table::from_first(tables.as_slice())
            },
            None => None,
        }
    }

    /// Finds the table with the id `id` in the HTML fragment `html`.
    pub fn find_by_id(html: &str, id: &str) -> (r: Option<Table>)
        ensures
            found(r) == match parsed("table#"@ + id@) {
                Some(s) => first_view(selected_in(&fragment_of(html@), s)),
                None => None,
            },
    {
        let doc = Html::parse_fragment(html);
        Table::find_by_id_in_html(&doc, id)
    }

    /// Finds the first table among the descendants of `elem` whose first row
    /// holds header cells with every name of `headers`, in any order.
    ///
    /// With no names this is [`find_first_from_elem`](Table::find_first_from_elem).
    pub fn find_by_headers_from_elem(elem: &ElementRef, headers: &[&str]) -> (r: Option<Table>)
        ensures
            found(r) == covering_view(
                selected(*elem, selector_for("table"@)),
                str_texts(headers@),
            ),
    {
        proof {
            reveal_strlit("table");
        }
        let tables = select_all(elem, &css("table"));
        Table::from_first_with_headers(tables.as_slice(), headers)
    }

    /// Finds the first table in `html` whose first row holds header cells
    /// with every name of `headers`, in any order.
    pub fn find_by_headers_from_html(html: &Html, headers: &[&str]) -> (r: Option<Table>)
        ensures
            found(r) == covering_view(selected_in(html, selector_for("table"@)), str_texts(headers@)),
    {
        proof {
            reveal_strlit("table");
        }
        let tables = select_in_document(html, &css("table"));
        Table::from_first_with_headers(tables.as_slice(), headers)
    }

    /// Finds the first table in the HTML fragment `html` whose first row
    /// holds header cells with every name of `headers`, in any order.
    pub fn find_by_headers(html: &str, headers: &[&str]) -> (r: Option<Table>)
        ensures
            found(r) == covering_view(
                selected_in(&fragment_of(html@), selector_for("table"@)),
                str_texts(headers@),
            ),
    {
        let doc = Html::parse_fragment(html);
        Table::find_by_headers_from_html(&doc, headers)
    }
}

} // verus!
