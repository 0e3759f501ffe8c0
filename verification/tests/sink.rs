use rustcli::handlers::request_handler::header_value_text;
use rustcli::handlers::RequestHandler;
use rustcli::json::{body_text, body_text_from, RenderError};
use rustcli::ui::TableRenderer;

fn headers() -> Vec<(String, Option<String>)> {
    vec![
        ("content-type".to_string(), Some("application/json".to_string())),
        ("x-raw".to_string(), None),
    ]
}

fn row(cells: &[&str]) -> Vec<String> {
    cells.iter().map(|cell| cell.to_string()).collect()
}

#[test]
fn a_json_body_is_shown_indented() {
    assert_eq!(body_text("{\"ok\":true}"), Ok("{\n  \"ok\": true\n}".to_string()));
    assert_eq!(
        body_text(" { \"b\" : [1, 2], \"a\" : null } "),
        Ok("{\n  \"a\": null,\n  \"b\": [\n    1,\n    2\n  ]\n}".to_string())
    );
    assert_eq!(body_text("42"), Ok("42".to_string()));
    assert_eq!(body_text(" \"text\" "), Ok("\"text\"".to_string()));
}

#[test]
fn any_other_body_is_shown_as_it_is() {
    assert_eq!(body_text("<html></html>"), Ok("<html></html>".to_string()));
    assert_eq!(body_text("{\"ok\":true"), Ok("{\"ok\":true".to_string()));
    assert_eq!(body_text("{} trailing"), Ok("{} trailing".to_string()));
    assert_eq!(body_text(""), Ok(String::new()));
    assert_eq!(body_text("  "), Ok("  ".to_string()));
}

#[test]
fn the_shown_text_is_chosen_from_the_outcome() {
    assert_eq!(body_text_from("raw", None), Ok("raw".to_string()));
    assert_eq!(body_text_from("raw", Some(Ok("pretty".to_string()))), Ok("pretty".to_string()));
    let error = serde_json::from_str::<serde_json::Value>("{").unwrap_err();
    assert_eq!(body_text_from("raw", Some(Err(error))), Err(RenderError::Serialization));
    assert_eq!(RenderError::Serialization.message(), "JSON body could not be written");
}

#[test]
fn header_values_that_are_no_text_get_a_notice() {
    assert_eq!(header_value_text(&Some("v".to_string())), "v");
    assert_eq!(header_value_text(&Some(String::new())), "");
    assert_eq!(header_value_text(&None), "Unable to display");
}

#[test]
fn a_log_entry_is_written_in_full() {
    let entry = RequestHandler::log_entry(
        "2024-05-06 07:08:09",
        "GET",
        "http://x.test/a",
        "200 OK",
        &headers(),
        "{\"ok\":true}",
        None,
    )
    .unwrap();
    assert_eq!(
        entry,
        "\n=== Request 2024-05-06 07:08:09 ===\n\
         Method: GET\n\
         URL: http://x.test/a\n\
         Status: 200 OK\n\
         \n--- Headers ---\n\
         content-type: application/json\n\
         x-raw: Unable to display\n\
         \n--- Body ---\n\
         {\n  \"ok\": true\n}\n\
         \n=== End Request ===\n\n"
    );
}

#[test]
fn a_log_entry_names_its_source_file() {
    let entry = RequestHandler::log_entry(
        "T",
        "POST",
        "u",
        "404 Not Found",
        &Vec::new(),
        "not json",
        Some("requests/a.http"),
    )
    .unwrap();
    assert_eq!(
        entry,
        "\n=== Request T ===\nSource File: requests/a.http\nMethod: POST\nURL: u\n\
         Status: 404 Not Found\n\n--- Headers ---\n\n--- Body ---\nnot json\n\n=== End Request ===\n\n"
    );
}

#[test]
fn a_log_entry_takes_the_body_text_it_is_given() {
    let entry =
        RequestHandler::log_entry_with("T", "GET", "u", "200 OK", &headers(), "{\"ok\":true}", None);
    assert_eq!(
        entry,
        "\n=== Request T ===\nMethod: GET\nURL: u\nStatus: 200 OK\n\n--- Headers ---\n\
         content-type: application/json\nx-raw: Unable to display\n\n--- Body ---\n\
         {\"ok\":true}\n\n=== End Request ===\n\n"
    );
}

#[test]
fn the_header_table_lists_request_status_and_headers() {
    let table = TableRenderer::header_table("GET", "http://x.test/a", "200 OK", &headers());
    assert_eq!(
        table,
        vec![
            row(&["Request & Response Headers"]),
            row(&["Method", "GET"]),
            row(&["URL", "http://x.test/a"]),
            row(&["Status", "200 OK"]),
            row(&["content-type", "application/json"]),
            row(&["x-raw", "Unable to display"]),
        ]
    );
    let table = TableRenderer::header_table("PUT", "u", "500", &Vec::new());
    assert_eq!(table.len(), 4);
    assert_eq!(table[3], row(&["Status", "500"]));
}

#[test]
fn the_body_table_shows_the_body() {
    assert_eq!(
        TableRenderer::body_table("[1]"),
        Ok(vec![row(&["Response Body"]), row(&["[\n  1\n]"])])
    );
    assert_eq!(
        TableRenderer::body_table("plain text"),
        Ok(vec![row(&["Response Body"]), row(&["plain text"])])
    );
    assert_eq!(
        TableRenderer::body_table_with("as given".to_string()),
        vec![row(&["Response Body"]), row(&["as given"])]
    );
}

#[test]
fn a_response_is_rendered_in_two_tables() {
    let (head, body) =
        TableRenderer::render_response("GET", "u", "200 OK", &headers(), "{\"ok\":true}");
    assert_eq!(head.len(), 6);
    assert_eq!(head[1], row(&["Method", "GET"]));
    assert_eq!(head[5], row(&["x-raw", "Unable to display"]));
    assert_eq!(body, Ok(vec![row(&["Response Body"]), row(&["{\n  \"ok\": true\n}"])]));
}
