//! A schema-conformance discovery and repair engine for JSON-like documents,
//! together with a repository of named documents and a declarative
//! transformation pipeline that projects values between them.
//!
//! A document is decoded against a target schema; every point where it
//! fails is classified into a closed vocabulary of defects, auto-healed
//! with a minimal structural patch where possible, or reported as a hole
//! for external input to fill.

pub mod access;
pub mod classify;
pub mod defect;
pub mod fields;
pub mod json;
pub mod merge;
pub mod pointer;
pub mod repair;
pub mod scaffold;
pub mod schema;
pub mod strutil;
pub mod transform;
