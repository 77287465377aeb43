//! The agent side: reading requests in plain words, and watching coins.

pub mod nlp;
pub mod monitor;
pub mod demo;
