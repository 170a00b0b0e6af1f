//! Checksums of decoded image pixels.
//!
//! Two images that decode to the same pixels have the same checksum, however
//! they are stored. This crate holds the rules: which paths count as images,
//! how a format is recognised, how pixels are hashed, how manifest lines are
//! written and read back, and what the engine decides for each outcome.

pub mod args;
pub mod bytes;
pub mod chk;
pub mod decode;
pub mod engine;
pub mod error;
pub mod ext;
pub mod group;
pub mod hash;
pub mod hex;
pub mod img;
pub mod iter;
pub mod path;
pub mod text;

pub use args::{_main, set_threads, CommandLine, Flags, Settings};
pub use chk::Checksum;
pub use decode::{decode_jpeg2k, Channels, Common, Decoder, Samples};
pub use error::PxsumError;
pub use ext::check_extension;
pub use group::Grouped;
pub use hash::{Layout, PxImage};
pub use img::PxKind;
pub use iter::ManifestLines;
