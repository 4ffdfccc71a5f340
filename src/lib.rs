//! A canonical JSON formatter: it consumes the event stream of a JSON
//! serializer and writes object members sorted by their rendered key, no
//! whitespace, no floating point, and a minimal escape set.
pub mod formatter;
pub mod frame;
pub mod text;

pub use formatter::{CanonicalFormatter, FormatError};
pub use text::CharEscape;
