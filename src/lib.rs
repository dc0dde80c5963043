//! Role-based authorization engine with two consumers built on it: a token
//! issuance gateway and a keyed capability registry.
//!
//! Principals, role names, categories, providers and addresses are opaque
//! names, held as `String`s and viewed as `Seq<char>`.

pub mod error;
pub mod access;
pub mod token;
pub mod cusd_manager;
pub mod registry;
