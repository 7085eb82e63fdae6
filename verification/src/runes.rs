//! A buffer of text, cut into its runes.

use vstd::prelude::*;
use vstd::slice::slice_to_vec;
use vstd::string::{StringExecFns, StringSliceAdditionalSpecFns};
use vstd::utf8::encode_utf8_valid_utf8;

use crate::errors::Error;
use crate::heuristic::{
    addressable, begins_rune, get_rune_cutoff_at_index, lemma_rune_is_not_empty,
};
use crate::internal::{decimal, decimal_of, indent_or_default, spaces, spaces_of, unwrap_indent};
use crate::parts::{
    boundaries, is_tiling, lemma_tiling_exists, lemma_tiling_is_unique, spans_rune, RuneParts,
};
use crate::pointer::{get_valid_utf8_prefix_of, valid_prefix_len, valid_prefix_text};
use crate::rune::{rune_bytes, Rune};
use crate::valid_text::lemma_tiling_of_text;

verus! {

/// The spans of the runes between the boundaries `cuts`: for each rune the
/// index it begins at and its length.
pub open spec fn spans(cuts: Seq<usize>) -> Seq<(usize, usize)> {
    Seq::new(
        if cuts.len() >= 1 { (cuts.len() - 1) as nat } else { 0 },
        |k: int| (cuts[k], (cuts[k + 1] - cuts[k]) as usize),
    )
}

/// A buffer of bytes together with the boundaries of its runes.
#[derive(Debug, PartialEq, Eq)]
pub struct Runes {
    bytes: Vec<u8>,
    indexes: Vec<usize>,
}

impl View for Runes {
    type V = Seq<u8>;

    closed spec fn view(&self) -> Seq<u8> {
        self.bytes@
    }
}

impl Clone for Runes {
    fn clone(&self) -> (runes: Runes)
        ensures
            runes@ == self@,
    {
        proof {
            use_type_invariant(self);
        }
        Runes {
            bytes: slice_to_vec(self.bytes.as_slice()),
            indexes: slice_to_vec(self.indexes.as_slice()),
        }
    }
}

impl Default for Runes {
    fn default() -> (runes: Runes)
        ensures
            runes@ == Seq::<u8>::empty(),
    {
        let mut indexes: Vec<usize> = Vec::new();
        indexes.push(0);
        Runes::from_cuts(Vec::new(), indexes)
    }
}

impl Runes {
    /// The buffer fits in memory, and the indexes are its boundaries.
    #[verifier::type_invariant]
    spec fn is_cut(&self) -> bool {
        addressable(self.bytes@) && is_tiling(self.bytes@, self.indexes@)
    }

    /// The buffer together with its boundaries.
    pub(crate) fn from_cuts(bytes: Vec<u8>, indexes: Vec<usize>) -> (runes: Runes)
        requires
            addressable(bytes@),
            is_tiling(bytes@, indexes@),
        ensures
            runes@ == bytes@,
    {
        Runes { bytes, indexes }
    }

    /// The runes of `input`. They reach to the end of the text, unless
    /// the cutting stops inside it at a continuation byte.
    pub fn new(input: &str) -> (runes: Runes)
        requires
            addressable(input.spec_bytes()),
        ensures
            runes@ == input.spec_bytes(),
            boundaries(runes@).last() <= runes@.len(),
            boundaries(runes@).last() == runes@.len() || !begins_rune(
                runes@,
                boundaries(runes@).last() as int,
            ),
    {
        proof {
            encode_utf8_valid_utf8(input@);
            lemma_tiling_exists(input.spec_bytes());
            lemma_tiling_of_text(input.spec_bytes(), boundaries(input.spec_bytes()));
        }
        RuneParts::new(input).into_runes()
    }

    /// The runes of `input`, as `new` gives them. Never fails.
    pub fn allocate(input: &str) -> (runes: Result<Runes, Error<'static>>)
        requires
            addressable(input.spec_bytes()),
        ensures
            runes matches Ok(made) && made@ == input.spec_bytes() && boundaries(made@).last()
                <= made@.len() && (boundaries(made@).last() == made@.len() || !begins_rune(
                made@,
                boundaries(made@).last() as int,
            )),
    {
        Ok(Runes::new(input))
    }

    /// The runes of the empty buffer: none. Never fails.
    pub fn empty() -> (runes: Result<Runes, Error<'static>>)
        ensures
            runes matches Ok(made) && made@ == Seq::<u8>::empty(),
    {
        Ok(Runes::default())
    }

    /// The longest prefix of the buffer that is valid UTF-8, as text.
    pub fn as_str(&self) -> (text: &str)
        ensures
            text.spec_bytes() == self@.subrange(0, valid_prefix_len(self@, self@.len() as int)),
            text@ == valid_prefix_text(self@),
    {
        get_valid_utf8_prefix_of(self.bytes.as_slice())
    }

    /// The bytes.
    pub fn as_bytes(&self) -> (bytes: &[u8])
        ensures
            bytes@ == self@,
    {
        self.bytes.as_slice()
    }

    /// True when the buffer holds no byte.
    pub fn is_empty(&self) -> (empty: bool)
        ensures
            empty == (self@.len() == 0),
    {
        self.bytes.len() == 0
    }

    /// The number of runes.
    pub fn len(&self) -> (len: usize)
        ensures
            len == boundaries(self@).len() - 1,
    {
        proof {
            use_type_invariant(self);
            lemma_tiling_is_unique(self.bytes@, self.indexes@);
        }
        self.indexes.len() - 1
    }

    /// The runes for a reader: their number between braces behind `Runes`.
    pub open spec fn spec_as_debug(self, indent: Option<usize>) -> Seq<char> {
        "Runes{"@ + spaces(indent_or_default(indent) as nat) + "length: "@ + decimal(
            (boundaries(self@).len() - 1) as nat,
        ) + "}"@
    }

    /// The runes for a reader: their number.
    pub fn as_debug(&self, indent: Option<usize>) -> (text: String)
        ensures
            text@ == self.spec_as_debug(indent),
    {
        let mut text = String::from_str("Runes{");
        text.append(spaces_of(unwrap_indent(indent)).as_str());
        text.append("length: ");
        text.append(decimal_of(self.len()).as_str());
        text.append("}");
        text
    }

    /// The index at which each rune begins: the boundaries of the buffer
    /// but the last.
    pub fn indexes(&self) -> (indexes: Vec<usize>)
        ensures
            indexes@ == boundaries(self@).drop_last(),
    {
        proof {
            use_type_invariant(self);
            lemma_tiling_is_unique(self.bytes@, self.indexes@);
        }
        let mut indexes = slice_to_vec(self.indexes.as_slice());
        if indexes.len() > 0 {
            indexes.pop();
        }
        indexes
    }

    /// For each rune the index it begins at and its length.
    pub fn rune_indexes(&self) -> (found: Vec<(usize, usize)>)
        ensures
            found@ == spans(boundaries(self@)),
    {
        proof {
            use_type_invariant(self);
            lemma_tiling_is_unique(self.bytes@, self.indexes@);
        }
        let indexes = self.indexes();
        let mut found: Vec<(usize, usize)> = Vec::new();
        let mut k: usize = 0;
        while k < indexes.len()
            invariant
                addressable(self.bytes@),
                is_tiling(self.bytes@, self.indexes@),
                indexes@ == self.indexes@.drop_last(),
                k <= indexes@.len(),
                found@ == spans(self.indexes@).take(k as int),
            decreases indexes@.len() - k,
        {
            let index = indexes[k];
            proof {
                assert(self.indexes@[k as int] == index);
                assert(spans_rune(self.bytes@, self.indexes@, k as int));
                lemma_rune_is_not_empty(self.bytes@, index as int);
            }
            let next = match get_rune_cutoff_at_index(self.bytes.as_slice(), index) {
                Ok(next) => next,
                Err(_) => 0,
            };
            let length = if next >= index {
                next - index
            } else {
                0
            };
            if length > 0 {
                found.push((index, length));
            }
            k += 1;
            proof {
                assert(found@ =~= spans(self.indexes@).take(k as int));
            }
        }
        proof {
            assert(found@ =~= spans(self.indexes@));
        }
        found
    }

    /// The rune at place `index`, counted from 0, if there are that many.
    pub fn get(&self, index: usize) -> (rune: Option<Rune>)
        ensures
            rune is Some == (index < boundaries(self@).len() - 1),
            rune matches Some(found) ==> found@ == rune_bytes(
                self@,
                boundaries(self@)[index as int] as int,
            ),
    {
        proof {
            use_type_invariant(self);
            lemma_tiling_is_unique(self.bytes@, self.indexes@);
        }
        let indexes = self.rune_indexes();
        if index >= indexes.len() {
            None
        } else {
            let (start, _length) = indexes[index];
            assert(self.indexes@[index as int] == start);
            assert(spans_rune(self.bytes@, self.indexes@, index as int));
            match Rune::from_ptr_cutoff(self.bytes.as_slice(), start) {
                Ok(rune) => Some(rune),
                Err(_) => None,
            }
        }
    }

    /// The runes in order.
    pub fn to_vec(&self) -> (runes: Vec<Rune>)
        ensures
            runes@.len() == boundaries(self@).len() - 1,
            forall|k: int|
                0 <= k < runes@.len() ==> (#[trigger] runes@[k])@ == rune_bytes(
                    self@,
                    boundaries(self@)[k] as int,
                ),
    {
        proof {
            use_type_invariant(self);
            lemma_tiling_is_unique(self.bytes@, self.indexes@);
        }
        let indexes = self.rune_indexes();
        let mut runes: Vec<Rune> = Vec::new();
        let mut k: usize = 0;
        while k < indexes.len()
            invariant
                addressable(self.bytes@),
                is_tiling(self.bytes@, self.indexes@),
                indexes@ == spans(self.indexes@),
                k <= indexes@.len(),
                runes@.len() == k,
                forall|j: int|
                    0 <= j < k ==> (#[trigger] runes@[j])@ == rune_bytes(
                        self.bytes@,
                        self.indexes@[j] as int,
                    ),
            decreases indexes@.len() - k,
        {
            let (start, _length) = indexes[k];
            assert(self.indexes@[k as int] == start);
            assert(spans_rune(self.bytes@, self.indexes@, k as int));
            match Rune::from_ptr_cutoff(self.bytes.as_slice(), start) {
                Ok(rune) => runes.push(rune),
                Err(_) => {},
            }
            k += 1;
        }
        runes
    }
}

} // verus!
