//! A BitTorrent client core: a byte-exact codec for the bencoding
//! interchange format, and the framing and decision logic of a BEP-15 UDP
//! tracker client built on top of it.

pub mod access;
pub mod de;
pub mod error;
pub mod digits;
pub mod model;
pub mod order;
pub mod peer;
pub mod roundtrip;
pub mod ser;
pub mod text;
pub mod tracker;
pub mod value;

pub use de::from_bytes;
pub use error::Error;
pub use model::{FileInfo, InfoDict, MetaInfo};
pub use ser::to_bytes;
