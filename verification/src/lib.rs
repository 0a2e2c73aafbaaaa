//! A cursor-based binary buffer codec.
//!
//! The crate offers two symmetric components: a [`Deserializer`] that
//! performs bounds-checked positional reads of little-endian primitives,
//! byte runs and zero-terminated UTF-16 strings from a borrowed byte
//! slice, and a [`Serializer`] that performs the matching writes into an
//! owned, fixed-capacity byte buffer.  The [`Serialize`] / [`Deserialize`]
//! capability traits (and their fallible counterparts) let arbitrary
//! composite types participate in encoding.
//!
//! Every fallible operation validates its bounds strictly before any
//! mutation: a failed operation leaves the cursor and the buffer contents
//! unchanged.  The non-fallible operations state the same bounds as
//! preconditions instead of checking them at run time.

pub mod encoding;
pub mod error;
pub mod serializer;

pub use error::Error;
pub use serializer::Deserialize;
pub use serializer::Deserializer;
pub use serializer::Serialize;
pub use serializer::Serializer;
pub use serializer::TryDeserialize;
pub use serializer::TrySerialize;
pub use serializer::load_u16le;
pub use serializer::load_u32le;
pub use serializer::load_u64le;
pub use serializer::load_u8;
pub use serializer::store_u16le;
pub use serializer::store_u32le;
pub use serializer::store_u64le;
pub use serializer::store_u8;
