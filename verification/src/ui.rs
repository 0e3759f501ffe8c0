//! What is shown of an exchange.

pub mod table_renderer;

pub use table_renderer::TableRenderer;
