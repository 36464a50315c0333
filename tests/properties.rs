use scraper::{Html, Selector};
use table_extract::matching::{contains_all, contains_str};
use table_extract::{Headers, Row, Table};

const TWO_TABLES: &str = r#"
<table id="first">
    <tr><th>Name</th><th>Age</th></tr>
    <tr><td>John</td><td>20</td></tr>
</table>
<table id="second">
    <tr><th>Name</th><th>Weight</th></tr>
    <tr><td>John</td><td>150</td></tr>
</table>
"#;

fn strings(items: &[&str]) -> Vec<String> {
    items.iter().map(|s| s.to_string()).collect()
}

fn all_rows(table: &Table) -> Vec<Row<'_>> {
    let mut rows = Vec::new();
    let mut iter = table.iter();
    while let Some(row) = iter.next() {
        rows.push(row);
    }
    rows
}

#[test]
fn header_row_scenario() {
    let html = "<table><tr><th>Name</th><th>Age</th></tr><tr><td>John</td><td>20</td></tr></table>";
    let table = Table::find_first(html).unwrap();
    let headers = table.headers();
    assert_eq!(Some(0), headers.get("Name"));
    assert_eq!(Some(1), headers.get("Age"));
    assert_eq!(None, headers.get("John"));
    let rows = all_rows(&table);
    assert_eq!(1, rows.len());
    assert_eq!(Some("John"), rows[0].get("Name"));
    assert_eq!(Some("20"), rows[0].get("Age"));
}

#[test]
fn no_header_cell_scenario() {
    let table = Table::find_first("<table><tr><td>Name</td><td>Age</td></tr></table>").unwrap();
    assert!(table.headers().is_empty());
    let rows = all_rows(&table);
    assert_eq!(1, rows.len());
    assert_eq!(&["Name", "Age"], rows[0].as_slice());
}

#[test]
fn empty_row_scenario() {
    let html = "<table><tr><td>a</td></tr><tr></tr><tr><td>b</td><td>c</td></tr></table>";
    let table = Table::find_first(html).unwrap();
    let rows = all_rows(&table);
    assert_eq!(3, rows.len());
    assert_eq!(0, rows[1].len());
    assert!(rows[1].is_empty());
    assert_eq!(&["a"], rows[0].as_slice());
    assert_eq!(&["b", "c"], rows[2].as_slice());
}

#[test]
fn find_by_id_tells_tables_apart() {
    let first = Table::find_by_id(TWO_TABLES, "first").unwrap();
    let second = Table::find_by_id(TWO_TABLES, "second").unwrap();
    assert_ne!(first, second);
    assert_eq!(Some(1), first.headers().get("Age"));
    assert_eq!(None, first.headers().get("Weight"));
    assert_eq!(Some(1), second.headers().get("Weight"));
    assert_eq!(Some("150"), all_rows(&second)[0].get("Weight"));
}

#[test]
fn find_by_id_with_id_that_is_no_selector() {
    let html = r#"<table id="x!"><tr><td>1</td></tr></table>"#;
    assert_eq!(None, Table::find_by_id(html, "x!"));
    assert_eq!(None, Table::find_by_id(html, "1x"));
}

#[test]
fn find_by_headers_in_any_order() {
    let html = "<table><tr><th>Name</th><th>Age</th></tr></table>";
    assert!(Table::find_by_headers(html, &["Age", "Name"]).is_some());
    assert!(Table::find_by_headers(html, &["Name", "Age"]).is_some());
    assert!(Table::find_by_headers(html, &["Age", "Age", "Name"]).is_some());
}

#[test]
fn find_by_headers_picks_first_covering_table() {
    let by_weight = Table::find_by_headers(TWO_TABLES, &["Weight", "Name"]).unwrap();
    assert_eq!(by_weight, Table::find_by_id(TWO_TABLES, "second").unwrap());
    let reordered = Table::find_by_headers(TWO_TABLES, &["Name", "Weight", "Name"]).unwrap();
    assert_eq!(by_weight, reordered);
    let by_name = Table::find_by_headers(TWO_TABLES, &["Name"]).unwrap();
    assert_eq!(by_name, Table::find_by_id(TWO_TABLES, "first").unwrap());
    assert_eq!(None, Table::find_by_headers(TWO_TABLES, &["Age", "Weight"]));
}

#[test]
fn find_by_headers_reads_only_the_first_row() {
    let html = "<table><tr><td>x</td></tr><tr><th>Name</th></tr></table>";
    assert_eq!(None, Table::find_by_headers(html, &["Name"]));
}

#[test]
fn no_required_headers_is_find_first() {
    let none: [&str; 0] = [];
    for html in ["", "<p>x</p>", "<table></table>", TWO_TABLES] {
        assert_eq!(Table::find_first(html), Table::find_by_headers(html, &none));
    }
}

#[test]
fn find_first_is_first_table_in_document_order() {
    let doc = Html::parse_fragment(TWO_TABLES);
    let selector = Selector::parse("table").unwrap();
    let tables: Vec<_> = doc.root_element().select(&selector).collect();
    assert_eq!(Table::from_first(&tables), Table::find_first_from_html(&doc));
    assert_eq!(Table::find_by_id(TWO_TABLES, "first"), Table::find_first(TWO_TABLES));
}

#[test]
fn iteration_restarts() {
    let table = Table::find_first(TWO_TABLES).unwrap();
    let once = all_rows(&table);
    let twice = all_rows(&table);
    assert_eq!(once, twice);
    assert_eq!(1, once.len());
}

#[test]
fn missing_cell_is_absent_either_way() {
    let table = Table::find_first(
        "<table><tr><th>Name</th><th>Age</th></tr><tr><td>Ann</td></tr></table>",
    )
    .unwrap();
    let row = all_rows(&table)[0];
    assert_eq!(None, row.get("Height"));
    assert_eq!(None, row.get("Age"));
    assert_eq!(Some("Ann"), row.get("Name"));
}

#[test]
fn header_detection() {
    let with = Table::from_cells(strings(&["A"]), vec![strings(&["x"]), strings(&["1"])]);
    assert!(!with.headers().is_empty());
    assert_eq!(vec![&["1"]], all_rows(&with).iter().map(|r| r.as_slice()).collect::<Vec<_>>());

    let without = Table::from_cells(Vec::new(), vec![strings(&["x"]), strings(&["1"])]);
    assert!(without.headers().is_empty());
    assert_eq!(2, all_rows(&without).len());

    let no_rows = Table::from_cells(strings(&["A"]), Vec::new());
    assert_eq!(Some(0), no_rows.headers().get("A"));
    assert_eq!(0, all_rows(&no_rows).len());
}

#[test]
fn repeated_header_keeps_last_position() {
    let headers = Headers::from_cells(strings(&["a", "b", "a"]));
    assert_eq!(Some(2), headers.get("a"));
    assert_eq!(Some(1), headers.get("b"));
    assert_eq!(None, headers.get("c"));
    let table = Table::find_first(
        "<table><tr><th>a</th><th>b</th><th>a</th></tr><tr><td>1</td><td>2</td><td>3</td></tr></table>",
    )
    .unwrap();
    assert_eq!(Some("3"), all_rows(&table)[0].get("a"));
}

#[test]
fn headers_equal_as_maps() {
    let one = Headers::from_cells(strings(&["a", "b", "a"]));
    let other = Headers::from_cells(strings(&["b", "b", "a"]));
    assert_eq!(one, other);
    assert_ne!(
        Headers::from_cells(strings(&["a", "b"])),
        Headers::from_cells(strings(&["b", "a"]))
    );
    assert_ne!(
        Headers::from_cells(strings(&["a"])),
        Headers::from_cells(strings(&["a", "b"]))
    );
    assert!(Headers::from_cells(Vec::new()).is_empty());
}

#[test]
fn tables_compare_by_headers_and_rows() {
    let a = Table::from_cells(strings(&["h"]), vec![strings(&["h"]), strings(&["1"])]);
    let b = Table::from_cells(strings(&["h"]), vec![strings(&["other"]), strings(&["1"])]);
    let c = Table::from_cells(strings(&["h"]), vec![strings(&["h"]), strings(&["2"])]);
    assert_eq!(a, b);
    assert_ne!(a, c);
    assert_ne!(a, Table::from_cells(Vec::new(), vec![strings(&["1"])]));
}

#[test]
fn contains_str_exact_match() {
    let cells = strings(&["Name", "Age"]);
    assert!(contains_str(&cells, "Age"));
    assert!(!contains_str(&cells, "age"));
    assert!(!contains_str(&cells, ""));
    assert!(!contains_str(&[], "Age"));
}

#[test]
fn contains_all_is_a_superset_check() {
    let cells = strings(&["Name", "Age"]);
    assert!(contains_all(&cells, &["Age", "Name"]));
    assert!(contains_all(&cells, &["Name", "Name"]));
    assert!(contains_all(&cells, &[]));
    assert!(!contains_all(&cells, &["Name", "BAD"]));
    assert!(!contains_all(&[], &["Name"]));
}

#[test]
fn cell_text_is_trimmed_inner_markup() {
    let table = Table::find_first(
        "<table><tr><td>  spaced \n </td><td><b>bold</b> text</td></tr></table>",
    )
    .unwrap();
    assert_eq!(&["spaced", "<b>bold</b> text"], all_rows(&table)[0].as_slice());
}

#[test]
fn row_iter_yields_cells_in_order() {
    let table = Table::find_first("<table><tr><td>x</td><td>y</td></tr></table>").unwrap();
    let row = all_rows(&table)[0];
    let cells: Vec<&String> = row.iter().collect();
    assert_eq!(vec!["x", "y"], cells);
}

#[test]
fn row_loops_over_its_cells() {
    let table = Table::find_by_headers(
        "<table></table><table><tr><th>Name</th><th>Age</th></tr><tr><td>John</td><td>20</td></tr></table>",
        &["Age"],
    )
    .unwrap();
    let mut seen = Vec::new();
    for cell in all_rows(&table)[0] {
        seen.push(cell.clone());
    }
    assert_eq!(vec!["John", "20"], seen);
}

#[test]
fn headers_count_and_list_names() {
    let headers = Headers::from_cells(strings(&["Name", "Age", "Name"]));
    assert_eq!(2, headers.len());
    let entries = headers.entries();
    assert_eq!(vec![("Age".to_string(), 1), ("Name".to_string(), 2)], entries);
    assert_eq!(0, Headers::from_cells(Vec::new()).len());
    assert!(Headers::from_cells(Vec::new()).entries().is_empty());

    let table = Table::find_first(TWO_TABLES).unwrap();
    assert_eq!(2, table.headers().len());
    assert_eq!(
        vec![("Name".to_string(), 0), ("Age".to_string(), 1)],
        table.headers().entries()
    );
}

#[test]
fn unparsed_documents_hold_no_table() {
    let empty = Html::new_fragment();
    assert_eq!(None, Table::find_first_from_html(&empty));
    assert_eq!(None, Table::find_by_id_in_html(&empty, "first"));
    assert_eq!(None, Table::find_by_headers_from_html(&empty, &["Name"]));
    let document = Html::new_document();
    assert_eq!(None, Table::find_first_from_html(&document));
}

#[test]
fn html_forms_agree_with_text_forms() {
    let doc = Html::parse_fragment(TWO_TABLES);
    assert_eq!(Table::find_first(TWO_TABLES), Table::find_first_from_html(&doc));
    assert_eq!(
        Table::find_by_id(TWO_TABLES, "second"),
        Table::find_by_id_in_html(&doc, "second")
    );
    assert_eq!(
        Table::find_by_headers(TWO_TABLES, &["Weight"]),
        Table::find_by_headers_from_html(&doc, &["Weight"])
    );
    assert_eq!(
        Table::find_by_headers(TWO_TABLES, &["Weight"]),
        Table::find_by_headers_from_elem(&doc.root_element(), &["Weight"])
    );
}

#[test]
fn search_over_given_tables() {
    let doc = Html::parse_fragment(TWO_TABLES);
    let selector = Selector::parse("table").unwrap();
    let tables: Vec<_> = doc.select(&selector).collect();
    let second = Table::from_first_with_headers(&tables, &["Weight"]).unwrap();
    assert_eq!(Some(1), second.headers().get("Weight"));
    let none: [&str; 0] = [];
    assert_eq!(Table::from_first(&tables), Table::from_first_with_headers(&tables, &none));
    assert_eq!(None, Table::from_first_with_headers(&tables, &["Height"]));
    assert_eq!(None, Table::from_first_with_headers(&[], &["Name"]));
}
