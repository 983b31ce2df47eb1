//! Extraction of a language-neutral type registry from a library's
//! documentation index.
//!
//! A library that is built on an app and its effects declares, through
//! associated types, which of its types cross the foreign function boundary.
//! The reachability pass ([`parser`], [`reach`]) scans the index ([`data`],
//! [`model`]) for labelled edges between its items, derives the roots from
//! them and follows fields, variants and types from the roots. The format pass
//! ([`formatter`], [`engine`]) describes every aggregate that was reached as a
//! container format ([`format`]), with the names and the order that
//! serialization gives its members ([`node`], [`attrs`], [`case`], [`order`],
//! [`translate`]). The result is the registry ([`registry`]); [`logic`] runs
//! both passes in a row.

pub mod attrs;
pub mod case;
pub mod data;
pub mod engine;
pub mod format;
pub mod formatter;
pub mod logic;
pub mod model;
pub mod node;
pub mod order;
pub mod parser;
pub mod reach;
pub mod registry;
pub mod text;
pub mod time;
pub mod translate;
