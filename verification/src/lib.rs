//! Adapters that let a local type description drive the serialization of a
//! *foreign* value the author does not own: from a single structural
//! description (named, positional or unit struct, or a sum type) and a
//! per-field transformation chain, the generator derives three mutually
//! consistent operations — computing the fixed-layout archived
//! representation, producing the deferred resolver portion by writing through
//! a byte sink, and reconstructing the original foreign value from the
//! archived representation.
//!
//! The three operations are proved to agree field-for-field and
//! variant-for-variant on the chain applied, the layout implied, and the tag
//! used to disambiguate sum-type variants; see the round-trip laws in
//! [`laws`].

pub mod archive;
pub mod chain;
pub mod codec;
pub mod desc;
pub mod deserialize;
pub mod laws;
pub mod plan;
pub mod serialize;
pub mod sink;
pub mod value;
