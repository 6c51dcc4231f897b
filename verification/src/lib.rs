//! Hiding text in the pixel data of uncompressed bitmap images.
//!
//! A message is stored bit by bit in one bit plane of the pixel bytes after
//! the other, behind a four-byte length, and read back along the same walk.

pub mod bits;
pub mod codec;
pub mod container;
pub mod error;
pub mod filler;
pub mod laws;
pub mod plane;
pub mod render;
pub mod traversal;

pub use codec::{checked_capacity, extract, get_steganography_capacity, hide_in_place, hide_message};
pub use container::{BmpHeader, BmpImage, ExtraInfo};
pub use error::ImageError;
pub use filler::{random_bytes, random_message};
pub use render::debug_image;
