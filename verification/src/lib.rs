//! Verified core of the CSML server: the decisions it makes on plain values
//! (request validation, label truncation, tracing configuration, object
//! storage requests, paging of bot versions, memory de-duplication).

pub mod apm;
pub mod bots;
pub mod memories;
pub mod number;
pub mod storage;
pub mod text;
pub mod tools;
