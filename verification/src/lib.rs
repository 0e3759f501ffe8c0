//! Request descriptions for a command-line HTTP client: the text format that
//! describes one request, and the decisions that carry a described request
//! through a single network exchange to a response record.
//!
//! Nothing in this crate performs I/O. A driver reads the text, performs the
//! exchange and persists the outcome; this crate decides what is read from
//! the text, what is sent, and what is made of the answer.
//!
//! - [`models`]: the description of a request and the text format it is
//!   read from.
//! - [`handlers`]: the request handler, which turns a description and the
//!   transport's report into a response record or a failure, and writes the
//!   record's entry for the results log.
//! - [`ui`]: the tables in which a response is shown.
//! - [`json`]: how a response body is shown.
//! - [`text`]: lines, words and trimming, on which the format rests.

pub mod handlers;
pub mod json;
pub mod models;
pub mod text;
pub mod ui;
