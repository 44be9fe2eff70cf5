use observer_ward::report::{
    result_report, result_row, status_is_success, table_headers, what_web_line_style, CellColor,
    TableCell,
};
use observer_ward::result::WhatWebResult;

fn s(x: &str) -> String {
    x.to_string()
}

fn strs(v: &[&str]) -> Vec<String> {
    v.iter().map(|x| x.to_string()).collect()
}

fn cell(text: &str, color: CellColor) -> TableCell {
    TableCell { text: s(text), color }
}

fn result(names: &[&str], status: u16, title: &str) -> WhatWebResult {
    WhatWebResult {
        url: s("http://h/"),
        name: strs(names),
        priority: 5,
        length: 9593,
        title: s(title),
        status_code: status,
        is_web: true,
        plugins: strs(&["p1", "p2"]),
        plugins_result: None,
    }
}

#[test]
fn status_codes_shown_as_success() {
    assert!(status_is_success(200));
    assert!(status_is_success(299));
    assert!(!status_is_success(300));
    assert!(!status_is_success(404));
    assert!(!status_is_success(100));
    assert!(!status_is_success(199));
    assert!(status_is_success(0));
    assert!(status_is_success(99));
    assert!(status_is_success(1000));
    assert!(!status_is_success(999));
}

#[test]
fn headers_with_and_without_plugins() {
    assert_eq!(table_headers(false), strs(&["url", "name", "length", "status_code", "title", "priority"]));
    assert_eq!(
        table_headers(true),
        strs(&["url", "name", "length", "status_code", "title", "priority", "plugins"])
    );
}

#[test]
fn row_of_a_result() {
    let r = result(&["swagger", "nginx"], 200, "httpbin.org  ");
    assert_eq!(
        result_row(&r, true),
        vec![
            cell("http://h/", CellColor::Plain),
            cell("swagger\nnginx", CellColor::Green),
            cell("9593", CellColor::Plain),
            cell("200", CellColor::Green),
            cell("httpbin.org", CellColor::Plain),
            cell("5", CellColor::Plain),
            cell("p1\np2", CellColor::Red),
        ]
    );
}

#[test]
fn row_wraps_long_titles_and_marks_failures_red() {
    let title = "a very long title that certainly does not fit in forty columns";
    let r = result(&[], 500, title);
    let row = result_row(&r, false);
    assert_eq!(row.len(), 6);
    assert_eq!(row[3], cell("500", CellColor::Red));
    assert_eq!(row[4].text, textwrap::fill(title, 40));
    assert!(row[4].text.contains('\n'));
    assert_eq!(row[1], cell("", CellColor::Green));
}

#[test]
fn report_filters_unrecognised_results() {
    let results = vec![result(&[], 200, "a"), result(&["x"], 200, "b")];
    let rep = result_report(&results, false, true, false);
    assert_eq!(rep.all_rows.len(), 2);
    assert_eq!(rep.important_rows.len(), 1);
    assert_eq!(rep.important_rows[0][1].text, "x");
    assert!(rep.show_important);
}

#[test]
fn report_without_filter_keeps_everything_and_silence_hides_it() {
    let results = vec![result(&[], 200, "a")];
    let rep = result_report(&results, false, false, true);
    assert_eq!(rep.important_rows.len(), 1);
    assert!(!rep.show_important);
    let rep = result_report(&results, false, true, false);
    assert_eq!(rep.important_rows.len(), 0);
    assert!(!rep.show_important);
}

#[test]
fn line_style_highlights_only_recognised_targets() {
    let st = what_web_line_style(&result(&["x"], 302, "t"));
    assert!(st.highlighted);
    assert!(!st.status_success);
    let st = what_web_line_style(&result(&[], 204, "t"));
    assert!(!st.highlighted);
    assert!(st.status_success);
}

#[test]
fn line_shows_out_of_range_status_as_200_only_when_highlighted() {
    let st = what_web_line_style(&result(&["x"], 1200, "t"));
    assert_eq!(st.shown_status, 200);
    assert!(st.status_success);
    let st = what_web_line_style(&result(&["x"], 99, "t"));
    assert_eq!(st.shown_status, 200);
    let st = what_web_line_style(&result(&["x"], 404, "t"));
    assert_eq!(st.shown_status, 404);
    assert!(!st.status_success);
    let st = what_web_line_style(&result(&[], 1200, "t"));
    assert_eq!(st.shown_status, 1200);
}
