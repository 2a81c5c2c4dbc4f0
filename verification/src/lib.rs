//! Verified decision core of the receiver-native capability laboratory.
//!
//! Every item of this crate is stated with a contract and proved. The numerical
//! engine, the identity grammar, the digest function and all file access live
//! outside: their outcomes enter here as plain values, and this crate decides
//! what follows from them. Floating-point quantities are carried by their
//! IEEE 754 bit pattern (see [`scalar::Scalar`]) and only ever compared.

pub mod acquisition;
pub mod checkpoint_adapter;
pub mod checkpoint_inspection;
pub mod controls;
pub mod error;
pub mod identity;
pub mod json;
pub mod lab_contracts;
pub mod lab_isolation;
pub mod lab_naming;
pub mod lab_payloads;
pub mod lab_policies;
pub mod lab_records;
pub mod lab_run;
pub mod lab_suite;
pub mod low_rank_shadow_materializer;
pub mod order;
pub mod paths;
pub mod receiver_compiler;
pub mod receiver_portability;
pub mod receiver_profile;
pub mod scalar;
pub mod shadow_materializer;
pub mod text;
pub mod tidex_cli;
pub mod universal_capability_compiler;
pub mod universal_shadow_runner;
