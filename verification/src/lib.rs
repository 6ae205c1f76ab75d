//! Parser and serializer for ISO Base Media File Format (MP4) box trees.
//!
//! A buffer is a sequence of boxes `[size: u32 BE][tag: 4 raw bytes][body]`;
//! full boxes open their body with `[version: u8][flags: 24-bit BE]`.
//! `parse_mp4` decodes a whole buffer into a typed forest of boxes,
//! `write_mp4` serializes a forest back to bytes, and the two are proved
//! symmetric: serializing a parsed forest reproduces the input bit for bit.

pub mod either;
pub mod engine;
pub mod errors;
pub mod frag;
pub mod hdlr;
pub mod listing;
pub mod movie;
pub mod search;
pub mod simple;
pub mod tables;
pub mod types;
pub mod wire;

pub use either::Either;
pub use engine::parse_mp4;
pub use engine::write_mp4;
pub use errors::Mp4Error;
pub use listing::list_box_tree;
pub use search::find_box;
pub use search::find_box_mut;
pub use types::Mp4Box;
