//! Carrying a described request through one exchange.

pub mod request_handler;

pub use request_handler::{
    Action, Event, ExecutionError, Method, OutboundRequest, Phase, RequestHandler, ResponseRecord,
};
