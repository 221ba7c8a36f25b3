//! Registry entries between a document and a registry store.
//!
//! A document holds keys at paths, and in each key typed values under
//! names. A store holds keys below roots, and in each key raw values: a
//! byte buffer with a type tag. This library decides what an import of a
//! document writes into a store and what an export of a key of a store
//! puts into a document. It touches neither files nor the store: whoever
//! holds them carries out what is decided here.
//!
//! - [`packing`]: integers as little-endian bytes, and back.
//! - [`parsing`]: typed values as raw values, and back; the names of the
//!   roots.
//! - [`text`]: comparing and splitting texts.
//! - [`reader`]: the plan of an import: which keys are opened and which raw
//!   values are written, in which order, and where it stops.
//! - [`writer`]: the keys of a document for a key of the store and all that
//!   is below it.
//! - [`walk`]: the same export, one visit of a live key at a time.
//! - [`document`]: documents as `regashii` holds them in memory.
//! - [`store`]: a mathematical model of the store, for the laws of path
//!   resolution and import.
//! - [`types`], [`error`]: the values and the errors of all of these.

pub mod document;
pub mod error;
pub mod packing;
pub mod parsing;
pub mod reader;
pub mod store;
pub mod text;
pub mod types;
pub mod walk;
pub mod writer;
