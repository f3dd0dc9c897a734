//! Hooks, hook context, live events, live sessions and trace spans of `just`.

pub mod clock;
pub mod decimal;
pub mod execute;
pub mod hook_context;
pub mod json;
pub mod justfile;
pub mod live_client;
pub mod live_event;
pub mod live_server;
pub mod otel_exporter;
pub mod plan;
pub mod run;
pub mod text;
