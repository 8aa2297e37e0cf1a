//! Hides a byte payload in the fully transparent pixels of an RGBA image and
//! recovers it again.
//!
//! A pixel whose alpha byte is zero is a carrier: its red, green and blue
//! bytes hold three bytes of a stream that starts with a twelve-byte length
//! header and continues with the payload itself.
pub mod buffer;
pub mod codec;
pub mod error;
pub mod format;
pub mod header;

pub use buffer::{ColorModel, ImageBuffer};
pub use error::StegoError;
pub use format::{check_output_format, check_output_path, ImageFileFormat};
pub use header::{decode_length, encode_text_len, native_byte_order, u64_to_bytes, ByteOrder};
