//! A bit-precise binary codec: typed values to and from ordered bit sequences,
//! with either bit ordering, alignment padding and runtime-sized lists.

pub mod array;
pub mod bits;
pub mod field;
pub mod laws;
pub mod options;
pub mod primitive;
pub mod record;
pub mod sequence;

pub use bits::{BitBuffer, LsbBits, MsbBits};
pub use field::BinaryField;
pub use options::{FieldError, Options};
