//! Validation of create-host requests, shared by a network service, a
//! scripting bridge and a sandboxed guest module.
//!
//! - `validation`: decoding a request from JSON, with the failing field
//!   located, and the business rules.
//! - `ipv4`: dotted-decimal IPv4 addresses.
//! - `json`: the JSON documents that requests arrive in.
//! - `wire` and `decode`: the tagged JSON form of an outcome, both ways.
//! - `memory` and `guest`: the guest's linear memory and its entry point.
pub mod decode;
pub mod guest;
pub mod ipv4;
pub mod json;
pub mod memory;
pub mod validation;
pub mod wire;
