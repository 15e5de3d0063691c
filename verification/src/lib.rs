//! Configuration data model for an ALM (asset-liability management) dynamic
//! model run: the record of run parameters, the validation and clamping rules
//! that keep it consistent, and a lossless text codec for the JSON document
//! in which it is persisted.
//!
//! The crate is organised as follows:
//! - [`date`], [`percent`], [`choices`], [`curves`]: the field types and
//!   their invariants;
//! - [`config`]: the [`config::Configuration`] record, its mathematical model
//!   and its well-formedness predicate;
//! - [`store`]: the editing-session wrapper with the clamping setters and the
//!   dirty flag;
//! - [`wire`], [`codec`]: the canonical document format, with a verified
//!   serializer and parser and a round-trip guarantee;
//! - [`laws`]: proofs of the cross-operation guarantees.

pub mod choices;
pub mod codec;
pub mod config;
pub mod curves;
pub mod date;
pub mod laws;
pub mod percent;
pub mod store;
pub mod wire;
