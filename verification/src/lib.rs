//! A verified serialization engine for a binary tensor container format.
//!
//! The format stores a set of named, typed, multi-dimensional byte buffers
//! ("tensors") together with an optional string-keyed metadata map:
//!
//! ```text
//! [0..8)   : u64 little-endian = N, byte length of the JSON header
//! [8..8+N) : UTF-8 JSON header object
//! [8+N..)  : concatenated tensor payload bytes, in lexicographic name order
//! ```
//!
//! Every function that builds or validates this layout is verified: dtype
//! sizes, shape products, buffer-length checks, offset assignment, and the
//! byte-exact JSON header emission are all covered by contracts.

pub mod codec;
pub mod convert;
pub mod dtype;
pub mod error;
pub mod json;
pub mod order;
pub mod set;
pub mod view;

pub use codec::{PairStrStr, serialize};
pub use convert::{PairStrUsize, convert_to_hashmap_string, convert_to_hashmap_usize};
pub use dtype::Dtype;
pub use error::SafeTensorError;
pub use set::{NamedTensorSet, PairStrTensorView, prepare};
pub use view::{TensorView, make_view};
