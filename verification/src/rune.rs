//! One rune, with bytes of its own.

use vstd::prelude::*;
use vstd::slice::{slice_subrange, slice_to_vec};
use vstd::string::{StringExecFns, StringSliceAdditionalSpecFns};
use vstd::utf8::encode_utf8_valid_utf8;

use crate::errors::Error;
use crate::heuristic::{
    addressable, begins_rune, describes_failure, get_rune_cutoff_at_index,
    lemma_rune_begins_before_its_end, rune_cutoff,
};
use crate::internal::{format_bytes, formatted, indent_or_default, unwrap_indent, DEFAULT_INDENT};
use crate::pointer::{get_valid_utf8_prefix_of, valid_prefix_len, valid_prefix_text};
use crate::valid_text::{lemma_rune_ends_inside_text, lemma_text_begins_rune};

verus! {

/// The bytes of the rune that begins at `index`, as far as the buffer
/// reaches.
pub open spec fn rune_bytes(bytes: Seq<u8>, index: int) -> Seq<u8> {
    if rune_cutoff(bytes, index) <= bytes.len() {
        bytes.subrange(index, rune_cutoff(bytes, index))
    } else {
        bytes.subrange(index, bytes.len() as int)
    }
}

/// A single rune: what a reader sees as one character.
#[derive(Debug, Default, PartialEq, Eq, PartialOrd, Ord, Hash)]
pub struct Rune {
    bytes: Vec<u8>,
}

impl View for Rune {
    type V = Seq<u8>;

    closed spec fn view(&self) -> Seq<u8> {
        self.bytes@
    }
}

impl Clone for Rune {
    fn clone(&self) -> (rune: Rune)
        ensures
            rune@ == self@,
    {
        Rune { bytes: slice_to_vec(self.bytes.as_slice()) }
    }
}

impl Rune {
    /// The first rune of `input`; the empty rune where `input` is empty.
    pub fn new(input: &str) -> (rune: Rune)
        requires
            addressable(input.spec_bytes()),
        ensures
            rune@ == input.spec_bytes().subrange(0, rune_cutoff(input.spec_bytes(), 0)),
    {
        proof {
            encode_utf8_valid_utf8(input@);
            lemma_text_begins_rune(input.spec_bytes());
            lemma_rune_ends_inside_text(input.spec_bytes(), 0);
        }
        match Rune::from_ptr_cutoff(input.as_bytes(), 0) {
            Ok(rune) => rune,
            Err(_) => Rune::empty(),
        }
    }

    /// The first rune of `input`, as `new` gives it. Never fails.
    pub fn allocate(input: &str) -> (rune: Result<Rune, Error<'static>>)
        requires
            addressable(input.spec_bytes()),
        ensures
            rune matches Ok(made) && made@ == input.spec_bytes().subrange(
                0,
                rune_cutoff(input.spec_bytes(), 0),
            ),
    {
        Ok(Rune::new(input))
    }

    /// The rune without bytes.
    pub fn empty() -> (rune: Rune)
        ensures
            rune@ == Seq::<u8>::empty(),
    {
        Rune { bytes: Vec::new() }
    }

    /// The rune that begins at `index` of `input`, or the error that
    /// `get_rune_cutoff_at_index` finds there.
    pub fn from_ptr_cutoff<'g>(input: &'g [u8], index: usize) -> (rune: Result<Rune, Error<'g>>)
        requires
            addressable(input@),
        ensures
            rune is Ok == begins_rune(input@, index as int),
            rune matches Ok(found) ==> found@ == rune_bytes(input@, index as int),
            rune matches Err(error) ==> describes_failure(error, input@, index as int),
    {
        let cutoff = get_rune_cutoff_at_index(input, index)?;
        let end = if cutoff <= input.len() {
            cutoff
        } else {
            input.len()
        };
        proof {
            lemma_rune_begins_before_its_end(input@, index as int);
        }
        Ok(Rune { bytes: slice_to_vec(slice_subrange(input, index, end)) })
    }

    /// The number of bytes.
    pub fn len(&self) -> (len: usize)
        ensures
            len == self@.len(),
    {
        self.bytes.len()
    }

    /// The bytes.
    pub fn as_bytes(&self) -> (bytes: &[u8])
        ensures
            bytes@ == self@,
    {
        self.bytes.as_slice()
    }

    /// The longest prefix of the bytes that is valid UTF-8, as text.
    pub fn as_str(&self) -> (text: &str)
        ensures
            text.spec_bytes() == self@.subrange(0, valid_prefix_len(self@, self@.len() as int)),
            text@ == valid_prefix_text(self@),
    {
        get_valid_utf8_prefix_of(self.bytes.as_slice())
    }

    /// The rune for a reader: its text between braces behind `Rune`, then
    /// its bytes, indented one level more than `indent`.
    pub open spec fn spec_as_debug(self, indent: Option<usize>) -> Seq<char> {
        Rune::spec_as_debug_of(self@, indent_or_default(indent) as nat)
    }

    /// A rune of these bytes for a reader: its text between braces behind
    /// `Rune`, then its bytes, indented one level more than `indent`.
    pub open spec fn spec_as_debug_of(bytes: Seq<u8>, indent: nat) -> Seq<char> {
        "Rune{"@ + valid_prefix_text(bytes) + "}"@ + formatted(
            bytes,
            (indent + DEFAULT_INDENT) as nat,
        )
    }

    /// The rune for a reader: its text and its bytes.
    pub fn as_debug(&self, indent: Option<usize>) -> (text: String)
        requires
            indent_or_default(indent) + DEFAULT_INDENT <= usize::MAX,
        ensures
            text@ == self.spec_as_debug(indent),
    {
        let indent = unwrap_indent(indent);
        let mut text = String::from_str("Rune{");
        text.append(self.as_str());
        text.append("}");
        text.append(format_bytes(self.as_bytes(), Some(indent + DEFAULT_INDENT)).as_str());
        text
    }
}

} // verus!
