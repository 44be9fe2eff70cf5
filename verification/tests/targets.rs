use observer_ward::targets::{read_file_to_target, strings_to_urls};

fn strs(v: &[&str]) -> Vec<String> {
    v.iter().map(|s| s.to_string()).collect()
}

#[test]
fn strings_to_urls_splits_lines_and_drops_repeats() {
    let got = strings_to_urls("https://a.com\nhttps://b.com\nhttps://a.com\n".to_string());
    assert_eq!(got, strs(&["https://a.com", "https://b.com"]));
}

#[test]
fn strings_to_urls_empty_text_has_no_targets() {
    assert_eq!(strings_to_urls(String::new()), Vec::<String>::new());
}

#[test]
fn strings_to_urls_keeps_empty_inner_lines_once() {
    let got = strings_to_urls("a\n\nb\n\n".to_string());
    assert_eq!(got, strs(&["a", "", "b"]));
}

#[test]
fn strings_to_urls_last_line_without_newline() {
    let got = strings_to_urls("x\ny".to_string());
    assert_eq!(got, strs(&["x", "y"]));
}

#[test]
fn strings_to_urls_keeps_carriage_returns() {
    let got = strings_to_urls("a\r\nb".to_string());
    assert_eq!(got, strs(&["a\r", "b"]));
}

#[test]
fn strings_to_urls_single_newline_is_one_empty_target() {
    assert_eq!(strings_to_urls("\n".to_string()), strs(&[""]));
}

#[test]
fn read_file_to_target_unreadable_file_has_no_targets() {
    assert_eq!(read_file_to_target(None), Vec::<String>::new());
}

#[test]
fn read_file_to_target_reads_lines_once() {
    let content = b"example.com\nexample.org\nexample.com\n".to_vec();
    assert_eq!(read_file_to_target(Some(content)), strs(&["example.com", "example.org"]));
}

#[test]
fn read_file_to_target_strips_crlf_but_not_lone_cr_at_end() {
    let content = b"a.com\r\nb.com\r".to_vec();
    assert_eq!(read_file_to_target(Some(content)), strs(&["a.com", "b.com\r"]));
}

#[test]
fn read_file_to_target_stops_at_invalid_utf8() {
    let mut content = b"ok.com\n".to_vec();
    content.extend_from_slice(&[0xff, 0xfe, b'\n']);
    content.extend_from_slice(b"after.com\n");
    assert_eq!(read_file_to_target(Some(content)), strs(&["ok.com"]));
}

#[test]
fn read_file_to_target_decodes_utf8() {
    let content = "münchen.de\n例え.jp".as_bytes().to_vec();
    assert_eq!(read_file_to_target(Some(content)), strs(&["münchen.de", "例え.jp"]));
}

#[test]
fn read_file_to_target_empty_file() {
    assert_eq!(read_file_to_target(Some(Vec::new())), Vec::<String>::new());
}

#[test]
fn file_and_text_targets_agree_without_carriage_returns() {
    let text = "a.com\nb.com\na.com\n\nc.com";
    assert_eq!(
        read_file_to_target(Some(text.as_bytes().to_vec())),
        strings_to_urls(text.to_string())
    );
}
