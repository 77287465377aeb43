//! Creator analytics for Zora coins: intent parsing, exact decimal
//! aggregation of buy activity, and the decisions behind the monitor,
//! the command line and the HTTP front end.

pub mod text;
pub mod decimal;
pub mod amount;
pub mod numbers;
pub mod client;
pub mod types;
pub mod runtime;
pub mod tools;
pub mod agent;
pub mod cli;
pub mod aomi;
pub mod server;
pub mod frontend;
