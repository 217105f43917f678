//! Embeds the bytes of a file in C++ source text: either as a
//! `std::array` of bytes or as a string literal, optionally inside a
//! namespace.
//!
//! Formatting and generation are pure functions from values to text. Each one
//! has a contract over `Seq<char>` that fixes its output to the character, and
//! both formats are proved to read back to the bytes they were made from.

pub mod binary;
pub mod declaration;
pub mod digits;
pub mod embed;
pub mod strings;
pub mod symbol;
pub mod text;

pub use crate::binary::format_as_binary;
pub use crate::declaration::{generate_src_for_array, generate_src_for_string, LineEnding};
pub use crate::embed::{generate_src, Mode};
pub use crate::symbol::default_symbol_name;
pub use crate::text::{escape_text, format_as_text, try_format_as_text, FormatError};
