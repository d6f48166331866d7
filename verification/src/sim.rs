//! The simulated venue side: brokers and the environment that merges their
//! output with the market-data stream.

pub mod broker_model;
pub mod broker_laws;
pub mod broker;
pub mod merge;
pub mod schedule;
pub mod environment;
pub mod delivery_laws;
