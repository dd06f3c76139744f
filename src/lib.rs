//! Codec for Dolby Vision extension metadata blocks: bit-exact parsing,
//! validation and writing of the blocks, and their canonical order.
pub mod bitstream;
pub mod block;
pub mod error;
pub mod level8;

pub use block::ExtMetadataBlock;
pub use error::{BlockError, Coefficient};
pub use level8::{ExtMetadataBlockLevel8, MAX_12_BIT_VALUE};
