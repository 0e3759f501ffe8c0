use rustcli::models::http_file::{find_body, read_inline_header};
use rustcli::models::{FormatError, HttpFile};

fn header<'a>(file: &'a HttpFile, name: &str) -> Option<&'a str> {
    file.headers.get(name).map(|value| value.as_str())
}

#[test]
fn parses_url_method_header_and_body() {
    let file = HttpFile::parse("http://x.test/a GET --X-Trace=1\n--body\nhello").unwrap();
    assert_eq!(file.url, "http://x.test/a");
    assert_eq!(file.method, "GET");
    assert_eq!(file.headers.len(), 1);
    assert_eq!(header(&file, "X-Trace"), Some("1"));
    assert_eq!(file.body.as_deref(), Some("hello"));
}

#[test]
fn parses_the_documented_example() {
    let text = "https://api.example.com/users POST --Content-Type=application/json\nsome comment\n--body\n{\"name\":\"Ada\"}";
    let file = HttpFile::parse(text).unwrap();
    assert_eq!(file.url, "https://api.example.com/users");
    assert_eq!(file.method, "POST");
    assert_eq!(file.headers.len(), 1);
    assert_eq!(header(&file, "Content-Type"), Some("application/json"));
    assert_eq!(file.body.as_deref(), Some("{\"name\":\"Ada\"}"));
}

#[test]
fn empty_text_is_refused() {
    assert_eq!(HttpFile::parse("").unwrap_err(), FormatError::EmptyInput);
    assert_eq!(FormatError::EmptyInput.message(), "Empty file");
}

#[test]
fn url_and_method_are_the_first_two_words() {
    let file = HttpFile::parse("  http://h/p \t DELETE   extra").unwrap();
    assert_eq!(file.url, "http://h/p");
    assert_eq!(file.method, "DELETE");
    assert!(file.headers.is_empty());
    assert_eq!(file.body, None);
}

#[test]
fn method_is_taken_as_written() {
    let file = HttpFile::parse("http://h patch").unwrap();
    assert_eq!(file.method, "patch");
}

#[test]
fn fewer_than_two_words_give_empty_url_and_method() {
    let file = HttpFile::parse("http://only-url --X=1").unwrap();
    assert_eq!(file.url, "http://only-url");
    assert_eq!(file.method, "--X=1");
    let file = HttpFile::parse("http://only-url").unwrap();
    assert_eq!(file.url, "");
    assert_eq!(file.method, "");
    assert!(file.headers.is_empty());
    assert_eq!(file.body, None);
}

#[test]
fn a_short_header_line_still_has_its_body() {
    let file = HttpFile::parse("lonely\n--body\npayload\n").unwrap();
    assert_eq!(file.url, "");
    assert_eq!(file.method, "");
    assert_eq!(file.body.as_deref(), Some("payload"));
}

#[test]
fn a_blank_header_line_gives_empty_url_and_method() {
    let file = HttpFile::parse("   \nhttp://h GET").unwrap();
    assert_eq!(file.url, "");
    assert_eq!(file.method, "");
    assert_eq!(file.body, None);
}

#[test]
fn empty_lines_before_the_header_line_are_passed_over() {
    let file = HttpFile::parse("\n\r\nhttp://h PUT --A=b\n--body\nx").unwrap();
    assert_eq!(file.url, "http://h");
    assert_eq!(file.method, "PUT");
    assert_eq!(header(&file, "A"), Some("b"));
    assert_eq!(file.body.as_deref(), Some("x"));
}

#[test]
fn a_text_of_empty_lines_describes_nothing() {
    let file = HttpFile::parse("\n\n").unwrap();
    assert_eq!(file.url, "");
    assert_eq!(file.method, "");
    assert!(file.headers.is_empty());
    assert_eq!(file.body, None);
}

#[test]
fn inline_headers_are_collected() {
    let file = HttpFile::parse("u GET --A=1 --B=two --C=").unwrap();
    assert_eq!(file.headers.len(), 3);
    assert_eq!(header(&file, "A"), Some("1"));
    assert_eq!(header(&file, "B"), Some("two"));
    assert_eq!(header(&file, "C"), Some(""));
    assert_eq!(header(&file, "D"), None);
}

#[test]
fn words_that_declare_no_header_are_ignored() {
    let file = HttpFile::parse("u GET plain -x=1 --novalue --a=b=c --ok=yes x=y").unwrap();
    assert_eq!(file.headers.len(), 1);
    assert_eq!(header(&file, "ok"), Some("yes"));
    assert_eq!(header(&file, "a"), None);
    assert_eq!(header(&file, "novalue"), None);
    assert_eq!(header(&file, "x"), None);
}

#[test]
fn the_last_of_two_declarations_wins() {
    let file = HttpFile::parse("u GET --k=1 --other=o --k=2").unwrap();
    assert_eq!(file.headers.len(), 2);
    assert_eq!(header(&file, "k"), Some("2"));
    assert_eq!(header(&file, "other"), Some("o"));
}

#[test]
fn header_names_are_case_sensitive() {
    let file = HttpFile::parse("u GET --Key=1 --key=2").unwrap();
    assert_eq!(file.headers.len(), 2);
    assert_eq!(header(&file, "Key"), Some("1"));
    assert_eq!(header(&file, "key"), Some("2"));
}

#[test]
fn headers_are_read_from_the_header_line_only() {
    let file = HttpFile::parse("u GET\n--A=1").unwrap();
    assert!(file.headers.is_empty());
}

#[test]
fn reads_one_inline_header() {
    assert_eq!(
        read_inline_header("--Accept=text/html"),
        Some(("Accept".to_string(), "text/html".to_string()))
    );
    assert_eq!(read_inline_header("--=v"), Some((String::new(), "v".to_string())));
    assert_eq!(read_inline_header("--k="), Some(("k".to_string(), String::new())));
    assert_eq!(read_inline_header("---k=v"), Some(("-k".to_string(), "v".to_string())));
    assert_eq!(read_inline_header("--"), None);
    assert_eq!(read_inline_header("-k=v"), None);
    assert_eq!(read_inline_header("k=v"), None);
    assert_eq!(read_inline_header("--k"), None);
    assert_eq!(read_inline_header("--k=v=w"), None);
    assert_eq!(read_inline_header("--k=="), None);
    assert_eq!(read_inline_header(""), None);
}

#[test]
fn no_marker_means_no_body() {
    let file = HttpFile::parse("u POST\nline one\nline two\n").unwrap();
    assert_eq!(file.body, None);
}

#[test]
fn the_body_is_the_trimmed_line_behind_the_marker() {
    let file = HttpFile::parse("u POST\n--body\n  \t{\"a\": 1}  \r\nmore\nand more").unwrap();
    assert_eq!(file.body.as_deref(), Some("{\"a\": 1}"));
}

#[test]
fn only_the_first_line_behind_the_marker_is_the_body() {
    let file = HttpFile::parse("u POST\n--body\nfirst\nsecond\n--body\nthird").unwrap();
    assert_eq!(file.body.as_deref(), Some("first"));
}

#[test]
fn a_line_that_begins_with_the_marker_is_a_marker() {
    let file = HttpFile::parse("u POST\n--body: json\npayload").unwrap();
    assert_eq!(file.body.as_deref(), Some("payload"));
}

#[test]
fn the_marker_is_case_sensitive_and_stands_at_the_line_start() {
    let file = HttpFile::parse("u POST\n--BODY\n --body\npayload").unwrap();
    assert_eq!(file.body, None);
}

#[test]
fn a_marker_without_a_line_behind_it_gives_no_body() {
    let file = HttpFile::parse("u POST\n--body").unwrap();
    assert_eq!(file.body, None);
    let file = HttpFile::parse("u POST\n--body\n").unwrap();
    assert_eq!(file.body, None);
}

#[test]
fn markers_behind_the_marker_are_passed_over() {
    let file = HttpFile::parse("u POST\n--body\n--body\nx").unwrap();
    assert_eq!(file.body.as_deref(), Some("x"));
}

#[test]
fn an_empty_line_behind_the_marker_is_an_empty_body() {
    let file = HttpFile::parse("u POST\n--body\n\nlate").unwrap();
    assert_eq!(file.body.as_deref(), Some(""));
}

#[test]
fn a_marker_on_the_header_line_is_no_marker() {
    let file = HttpFile::parse("--body GET\npayload").unwrap();
    assert_eq!(file.url, "--body");
    assert_eq!(file.method, "GET");
    assert_eq!(file.body, None);
}

#[test]
fn finds_the_body_from_a_given_line_on() {
    let lines = vec!["--body".to_string(), "a".to_string(), "--body".to_string(), " b ".to_string()];
    assert_eq!(find_body(&lines, 0), Some("a".to_string()));
    assert_eq!(find_body(&lines, 1), Some("b".to_string()));
    assert_eq!(find_body(&lines, 3), None);
    assert_eq!(find_body(&lines, 4), None);
}
