//! Sleipnir: the decision logic of a human-on-the-loop supervisor for
//! autonomous agents. Agents submit action frames; tool invocations are
//! checked against a policy and either approved at once or held until an
//! operator approves, denies or rewrites them on the dashboard.

pub mod text;
pub mod models;
pub mod policy;
pub mod handshake;
pub mod dashboard;
pub mod fuzz_pool;
pub mod framing;
