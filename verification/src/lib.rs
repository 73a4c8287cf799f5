//! Canonical binary form and digest identifiers of wallet transactions.
//!
//! Every record is framed as a fixed-length CBOR array whose fields follow in
//! declared order.  Each encoder is specified by a function from the value to
//! its bytes, each decoder by a function from bytes to a value and the bytes
//! that remain, and the two are proved inverse to one another.

pub mod error;
pub mod crc32;
pub mod cbor;
pub mod encode;
pub mod decode;
pub mod digest;
pub mod hash;
pub mod coin;
pub mod address;
pub mod txout;
pub mod list;
pub mod tx;
