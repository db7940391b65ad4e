//! A schema-evolution compatibility harness.
//!
//! Records are named sets of string fields. Each schema revision fixes which
//! fields a record requires. Encoding turns a record into canonical text;
//! decoding reads that text back under a (possibly different) revision, with
//! a fixed policy: unknown fields in the text are ignored, and a field the
//! target revision requires but the text lacks is a decode error. On top of
//! the codec sit a compatibility verifier, an append-only store read back
//! under one revision, and a single-shot client/server exchange between
//! mismatched revisions.

pub mod channel;
pub mod codec;
pub mod compat;
pub mod store;
pub mod v0;
pub mod v1;
