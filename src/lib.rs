//! A round-robin reverse-proxy core: the backend pool, the request counter
//! and the per-request pipeline decisions, each with a verified contract.

pub mod backend;
pub mod counter;
pub mod pipeline;
pub mod pool;

pub use backend::{parse_upstreams, split_fields, Backend, ConfigError};
pub use counter::RequestCounter;
pub use pipeline::{response_code, LbView, LogRecord, MyCtx, LB};
pub use pool::{BackendPool, PoolView};
