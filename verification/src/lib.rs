//! Reads a sequence of CBOR items and either renders each one as a
//! JSON-like display tree or selects the first well-formed item for
//! re-encoding. The value model, the recursive conversion, the key
//! stringification rule and the two stream policies are verified; byte
//! decoding, byte encoding and all input/output stay at the boundary.
pub mod value;
pub mod tree;
pub mod text;
pub mod convert;
pub mod stream;
pub mod input;
