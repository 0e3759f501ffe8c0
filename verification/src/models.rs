//! The data that describes a request.

pub mod headers;
pub mod http_file;

pub use headers::Headers;
pub use http_file::{FormatError, HttpFile};
