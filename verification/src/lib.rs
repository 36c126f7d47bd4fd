//! Bearer token authentication and run statistics for a telemetry dataflow engine.

pub mod auth;
pub mod azure_identity_auth;
pub mod bearer_token;
pub mod bearer_token_auth;
pub mod binary64;
pub mod control;
pub mod decimal;
pub mod middleware;
pub mod number;
pub mod report;
pub mod retry;
pub mod stats;
pub mod text;
