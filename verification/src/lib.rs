use vstd::prelude::*;

pub mod text;
pub mod strings;
pub mod server_readiness;
pub mod streaming_probe;
pub mod probe_router;
pub mod telemetry_history;
pub mod history_series;
pub mod chart_layout;
pub mod history_store;
pub mod alert_book;
pub mod server_process;
pub mod server_logs;
pub mod installation;
pub mod json;
pub mod router;
pub mod router_operations;
pub mod router_observability;
pub mod router_management;
pub mod router_switch_benchmark;
pub mod server_command;
pub mod telemetry_overhead;
pub mod telemetry_alerts;
pub mod server_console;
pub mod server_start;

verus! {

} // verus!
