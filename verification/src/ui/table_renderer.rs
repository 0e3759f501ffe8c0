//! The tables that show an exchange: one for the request line, the status
//! and the response headers, one for the response body.
//!
//! A table is its rows, and a row is its cells. Drawing and colouring them
//! is left to whoever prints.

use crate::handlers::request_handler::{header_value_text, value_text, ResponseHeader};
use crate::json::{body_text, shown_body, RenderError};
use vstd::prelude::*;
use vstd::string::*;

verus! {

/// A table as text: rows of cells.
pub type Rows = Seq<Seq<Seq<char>>>;

/// The rows that show the response headers: a name and the text of its
/// value in each.
pub open spec fn response_header_rows(headers: Seq<ResponseHeader>) -> Rows {
    Seq::new(headers.len(), |i: int| seq![headers[i].0, value_text(headers[i].1)])
}

/// The table of the request line, the status and the response headers: a
/// title, the method, the URL, the status, then a row for each header in
/// the order received.
pub open spec fn header_rows(
    method: Seq<char>,
    url: Seq<char>,
    status: Seq<char>,
    headers: Seq<ResponseHeader>,
) -> Rows {
    seq![
        seq!["Request & Response Headers"@],
        seq!["Method"@, method],
        seq!["URL"@, url],
        seq!["Status"@, status],
    ] + response_header_rows(headers)
}

/// The table of the response body: a title, then `shown`, the text of the
/// body, as a single cell.
pub open spec fn body_rows(shown: Seq<char>) -> Rows {
    seq![seq!["Response Body"@], seq![shown]]
}

/// Lays an exchange out in tables.
pub struct TableRenderer;

impl TableRenderer {
    /// The table of the request line, the status and the response headers.
    pub fn header_table(
        method: &str,
        url: &str,
        status: &str,
        headers: &Vec<(String, Option<String>)>,
    ) -> (r: Vec<Vec<String>>)
        ensures
            r.deep_view() == header_rows(method@, url@, status@, headers.deep_view()),
    {
        let mut table: Vec<Vec<String>> = Vec::new();
        table.push(vec![String::from_str("Request & Response Headers")]);
        table.push(vec![String::from_str("Method"), String::from_str(method)]);
        table.push(vec![String::from_str("URL"), String::from_str(url)]);
        table.push(vec![String::from_str("Status"), String::from_str(status)]);
        let ghost all = headers.deep_view();
        let ghost wanted = header_rows(method@, url@, status@, all);
        assert(table.deep_view() =~~= wanted.take(4));
        let n: usize = headers.len();
        let mut i: usize = 0;
        while i < n
            invariant
                all == headers.deep_view(),
                wanted == header_rows(method@, url@, status@, all),
                n == headers.len(),
                i <= n,
                table.deep_view() == wanted.take(4 + i),
            decreases n - i,
        {
            let ghost before = table.deep_view();
            let row = vec![headers[i].0.clone(), header_value_text(&headers[i].1)];
            assert(row.deep_view() =~= wanted[4 + i]);
            table.push(row);
            assert(table.deep_view() =~= before.push(row.deep_view()));
            i = i + 1;
        }
        table
    }

    /// The table of the response body, with `shown` as the text of the body.
    pub fn body_table_with(shown: String) -> (r: Vec<Vec<String>>)
        ensures
            r.deep_view() == body_rows(shown@),
    {
        let table = vec![vec![String::from_str("Response Body")], vec![shown]];
        assert(table.deep_view() =~~= body_rows(shown@));
        table
    }

    /// The table of the response body. A body that is a JSON document is
    /// shown indented, any other body as it is.
    pub fn body_table(body: &str) -> (r: Result<Vec<Vec<String>>, RenderError>)
        ensures
            match r {
                Ok(table) => shown_body(body@) is Some && table.deep_view() == body_rows(
                    shown_body(body@)->0,
                ),
                Err(error) => shown_body(body@) is None && error == RenderError::Serialization,
            },
    {
        match body_text(body) {
            Ok(shown) => Ok(TableRenderer::body_table_with(shown)),
            Err(error) => Err(error),
        }
    }

    /// Lays one exchange out: the table of the headers, which there always
    /// is, and the table of the body, or the reason why there is none.
    pub fn render_response(
        method: &str,
        url: &str,
        status: &str,
        headers: &Vec<(String, Option<String>)>,
        body: &str,
    ) -> (r: (Vec<Vec<String>>, Result<Vec<Vec<String>>, RenderError>))
        ensures
            r.0.deep_view() == header_rows(method@, url@, status@, headers.deep_view()),
            match r.1 {
                Ok(table) => shown_body(body@) is Some && table.deep_view() == body_rows(
                    shown_body(body@)->0,
                ),
                Err(error) => shown_body(body@) is None && error == RenderError::Serialization,
            },
    {
        (TableRenderer::header_table(method, url, status, headers), TableRenderer::body_table(body))
    }
}

} // verus!
