//! The coin tools: holder count, 24-hour volume, top buyers, and messaging
//! the most recent buyer.

pub mod tool_error;
pub mod get_holder_count;
pub mod get_24h_volume;
pub mod get_top_buyers;
pub mod message_recent_buyer;
