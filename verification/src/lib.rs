//! A bloom filter: a space-efficient probabilistic set-membership structure
//! that answers "possibly present" or "definitely absent", with a tunable
//! false-positive rate and no false negatives.

pub mod bitmap;
pub mod filter;
pub mod hasher;
pub mod sizing;
pub mod spooky;

pub use crate::filter::Bloom;
pub use crate::filter::ByteRepr;
pub use crate::hasher::Spooky;
pub use crate::sizing::FpRate;
pub use crate::spooky::spooky_hash128;
