//! Boundaries of runes in UTF-8 text.
//!
//! A rune is what a reader sees as one character: a code point together with
//! the variation selectors, skin-tone modifiers and zero-width joiners that
//! glue further code points to it. The functions here find where such a unit
//! begins and ends inside a buffer of bytes, looking only at bit patterns.

pub mod byte_type;
pub mod errors;
pub mod heuristic;
pub mod internal;
pub mod parts;
pub mod pointer;
pub mod rune;
pub mod runes;
pub mod valid_text;

pub use byte_type::ByteType;
pub use errors::Error;
pub use heuristic::{
    continuation_bytes_location, get_rune_cutoff_at_index, next_valid_cutoff,
    previous_valid_cutoff, split_at_first_rune,
};
pub use rune::Rune;
pub use parts::RuneParts;
pub use runes::Runes;
