//! Verified core of a shadowing HTTP proxy: every request a client sends is
//! forwarded to a group of "old" servers and a group of "new" servers, the
//! client is answered from the first old server, and both groups' answers are logged
//! side by side.
//!
//! The modules hold the decisions the proxy makes, each with its contract:
//! configuration (`config`, `parse`), the forwarding rules (`proxy`), the
//! record and the answer once the upstream exchanges are over (`exchange`), the
//! per-request log summary (`summary`), and the bound on
//! requests handled at once (`admission`). Sockets, the HTTP client and server,
//! and the log file live outside this crate.
pub mod text;
pub mod parse;
pub mod config;
pub mod proxy;
pub mod exchange;
pub mod summary;
pub mod admission;

pub use config::{
    default_max_concurrent, default_proxy_addr, default_timeout, default_ui_addr, Config,
    ConfigError, EnvSettings, ProxyConfig, SocketAddress, UiConfig,
};
pub use exchange::{ClientReply, Exchange};
pub use proxy::{ProxyResult, RequestInfo, ResponseInfo, UpstreamOutcome};
pub use summary::LogSummary;
pub use admission::ConcurrencyLimiter;
