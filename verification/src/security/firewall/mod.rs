//! Connection policy: governor rate limiting, IP allow/block lists, per-IP
//! connection tracking, a bounded decision trace, and a runtime pause switch.

pub mod allow;
pub mod block;
pub mod config;
pub mod decision;
pub mod firewall;
pub mod limit;
pub mod manager;
pub mod pause;
pub mod trace;
pub mod track;

pub use allow::AllowList;
pub use block::BlockList;
pub use config::FirewallConfig;
pub use decision::{Decision, DenyReason};
pub use firewall::Firewall;
pub use limit::Quota;
pub use manager::FirewallManager;
pub use pause::PauseSwitch;
pub use trace::DecisionTrace;
pub use track::ConnectionTracker;
