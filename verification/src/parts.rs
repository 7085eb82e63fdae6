//! A buffer of text that can be cut into runes.

use vstd::prelude::*;
use vstd::slice::slice_to_vec;
use vstd::string::{StringExecFns, StringSliceAdditionalSpecFns};

use crate::errors::Error;
use crate::heuristic::{
    addressable, begins_rune, describes_failure, get_rune_cutoff_at_index,
    lemma_rune_is_not_empty, rune_cutoff,
};
use crate::internal::{
    debug_quoted, decimal, decimal_of, format_bytes, formatted, indent_or_default,
    quote, spaces, spaces_of, unwrap_indent, DEFAULT_INDENT,
};
use crate::pointer::{get_valid_utf8_prefix_of, valid_prefix_len, valid_prefix_text};
use crate::rune::{rune_bytes, Rune};
use crate::runes::Runes;

verus! {

/// True when the boundary at place `k` lies inside the buffer, a rune can
/// begin there, and the next boundary is where that rune ends.
pub open spec fn spans_rune(bytes: Seq<u8>, cuts: Seq<usize>, k: int) -> bool {
    &&& cuts[k] < bytes.len()
    &&& begins_rune(bytes, cuts[k] as int)
    &&& cuts[k + 1] == rune_cutoff(bytes, cuts[k] as int)
}

/// True when `cuts` are the boundaries found by cutting `bytes` rune by
/// rune from its start: the first is 0, each next one is the end of the
/// rune that begins at the one before, which lies inside the buffer, and
/// the last one is where the cutting stops, at or behind the end of the
/// buffer or at a byte that no rune can begin with.
pub open spec fn is_tiling(bytes: Seq<u8>, cuts: Seq<usize>) -> bool {
    &&& cuts.len() >= 1
    &&& cuts[0] == 0
    &&& forall|k: int| 0 <= k < cuts.len() - 1 ==> #[trigger] spans_rune(bytes, cuts, k)
    &&& (cuts.last() >= bytes.len() || !begins_rune(bytes, cuts.last() as int))
}

/// The boundaries found by cutting `bytes` rune by rune from `from` on,
/// `from` itself being the first.
pub open spec fn cuts_from(bytes: Seq<u8>, from: int) -> Seq<usize>
    decreases
            if from < bytes.len() {
                bytes.len() - from
            } else {
                0
            },
    via cuts_from_goes_on
{
    if 0 <= from < bytes.len() && begins_rune(bytes, from) {
        seq![from as usize] + cuts_from(bytes, rune_cutoff(bytes, from))
    } else {
        seq![from as usize]
    }
}

#[via_fn]
proof fn cuts_from_goes_on(bytes: Seq<u8>, from: int) {
    if 0 <= from < bytes.len() && begins_rune(bytes, from) {
        lemma_rune_is_not_empty(bytes, from);
    }
}

/// The boundaries found by cutting `bytes` rune by rune from its start.
pub open spec fn boundaries(bytes: Seq<u8>) -> Seq<usize> {
    cuts_from(bytes, 0)
}

/// True when `cuts` are the boundaries found by cutting `bytes` rune by
/// rune from `from` on.
spec fn tiles_from(bytes: Seq<u8>, from: int, cuts: Seq<usize>) -> bool {
    &&& cuts.len() >= 1
    &&& cuts[0] == from
    &&& forall|k: int| 0 <= k < cuts.len() - 1 ==> #[trigger] spans_rune(bytes, cuts, k)
    &&& (cuts.last() >= bytes.len() || !begins_rune(bytes, cuts.last() as int))
}

/// Cutting rune by rune from `from` on gives boundaries that tile the
/// buffer from there.
proof fn lemma_cuts_from_tile(bytes: Seq<u8>, from: int)
    requires
        addressable(bytes),
        0 <= from <= bytes.len() + 16,
    ensures
        tiles_from(bytes, from, cuts_from(bytes, from)),
    decreases
            if from < bytes.len() {
                bytes.len() - from
            } else {
                0
            },
{
    if from < bytes.len() && begins_rune(bytes, from) {
        lemma_rune_is_not_empty(bytes, from);
        let next = rune_cutoff(bytes, from);
        let rest = cuts_from(bytes, next);
        let cuts = cuts_from(bytes, from);
        lemma_cuts_from_tile(bytes, next);
        assert(cuts =~= seq![from as usize] + rest);
        assert forall|k: int| 0 <= k < cuts.len() - 1 implies #[trigger] spans_rune(
            bytes,
            cuts,
            k,
        ) by {
            if k > 0 {
                assert(spans_rune(bytes, rest, k - 1));
                assert(cuts[k] == rest[k - 1]);
                assert(cuts[k + 1] == rest[k]);
            } else {
                assert(cuts[1] == rest[0]);
            }
        }
        assert(cuts.last() == rest.last());
    }
}

/// Every buffer that fits in memory has a tiling: its boundaries.
pub proof fn lemma_tiling_exists(bytes: Seq<u8>)
    requires
        addressable(bytes),
    ensures
        is_tiling(bytes, boundaries(bytes)),
{
    lemma_cuts_from_tile(bytes, 0);
}

/// Two tilings of one buffer hold the same boundary at every place that
/// both have.
proof fn lemma_tilings_agree(bytes: Seq<u8>, one: Seq<usize>, other: Seq<usize>, k: int)
    requires
        is_tiling(bytes, one),
        is_tiling(bytes, other),
        0 <= k < one.len(),
        k < other.len(),
    ensures
        one[k] == other[k],
    decreases k,
{
    if k > 0 {
        lemma_tilings_agree(bytes, one, other, k - 1);
        assert(spans_rune(bytes, one, k - 1));
        assert(spans_rune(bytes, other, k - 1));
    }
}

/// A buffer has one tiling only: whatever is a tiling of `bytes` is
/// `boundaries(bytes)`.
pub proof fn lemma_tiling_is_unique(bytes: Seq<u8>, cuts: Seq<usize>)
    requires
        addressable(bytes),
        is_tiling(bytes, cuts),
    ensures
        cuts == boundaries(bytes),
{
    lemma_tiling_exists(bytes);
    let other = boundaries(bytes);
    if cuts.len() < other.len() {
        let last = cuts.len() - 1;
        lemma_tilings_agree(bytes, cuts, other, last);
        assert(spans_rune(bytes, other, last));
    } else if other.len() < cuts.len() {
        let last = other.len() - 1;
        lemma_tilings_agree(bytes, cuts, other, last);
        assert(spans_rune(bytes, cuts, last));
    } else {
        assert forall|k: int| 0 <= k < cuts.len() implies cuts[k] == other[k] by {
            lemma_tilings_agree(bytes, cuts, other, k);
        }
        assert(cuts =~= other);
    }
}

/// The boundaries of a tiling grow strictly.
pub proof fn lemma_tiling_grows(bytes: Seq<u8>, cuts: Seq<usize>, i: int, j: int)
    requires
        is_tiling(bytes, cuts),
        0 <= i < j < cuts.len(),
    ensures
        cuts[i] < cuts[j],
    decreases j - i,
{
    assert(spans_rune(bytes, cuts, j - 1));
    lemma_rune_is_not_empty(bytes, cuts[j - 1] as int);
    if i < j - 1 {
        lemma_tiling_grows(bytes, cuts, i, j - 1);
    }
}

/// The runes of a tiling leave no gap and do not overlap: every position
/// before the last boundary lies in the span of exactly one rune. So the
/// spans are a partition of the buffer exactly when the last boundary is
/// the end of the buffer.
pub proof fn lemma_tiling_partitions(bytes: Seq<u8>, cuts: Seq<usize>, position: int)
    requires
        is_tiling(bytes, cuts),
        0 <= position < cuts.last(),
    ensures
        exists|k: int|
            0 <= k < cuts.len() - 1 && (#[trigger] cuts[k]) <= position < cuts[k + 1],
        forall|k: int, l: int|
            0 <= k < cuts.len() - 1 && 0 <= l < cuts.len() - 1 && (#[trigger] cuts[k]) <= position
                < cuts[k + 1] && (#[trigger] cuts[l]) <= position < cuts[l + 1] ==> k == l,
{
    lemma_span_of(bytes, cuts, position, cuts.len() - 1);
    assert forall|k: int, l: int|
        0 <= k < cuts.len() - 1 && 0 <= l < cuts.len() - 1 && (#[trigger] cuts[k]) <= position
            < cuts[k + 1] && (#[trigger] cuts[l]) <= position < cuts[l + 1] implies k == l by {
        if k < l {
            if k + 1 < l {
                lemma_tiling_grows(bytes, cuts, k + 1, l);
            }
        } else if l < k {
            if l + 1 < k {
                lemma_tiling_grows(bytes, cuts, l + 1, k);
            }
        }
    }
}

/// A position before the boundary `upto` lies in the span of a rune that
/// ends at or before `upto`.
proof fn lemma_span_of(bytes: Seq<u8>, cuts: Seq<usize>, position: int, upto: int)
    requires
        is_tiling(bytes, cuts),
        0 <= upto < cuts.len(),
        0 <= position < cuts[upto],
    ensures
        exists|k: int| 0 <= k < upto && (#[trigger] cuts[k]) <= position < cuts[k + 1],
    decreases upto,
{
    if cuts[upto - 1] <= position {
        assert(cuts[upto - 1] <= position < cuts[upto - 1 + 1]);
    } else {
        lemma_span_of(bytes, cuts, position, upto - 1);
        let k = choose|k: int| 0 <= k < upto - 1 && (#[trigger] cuts[k]) <= position < cuts[k + 1];
        assert(0 <= k < upto && cuts[k] <= position < cuts[k + 1]);
    }
}

/// A buffer for a reader, between braces behind `RuneParts`: on one line
/// each, indented, its first rune as quoted text, where it has one, its
/// length, and its bytes, indented one level more.
pub open spec fn described(rune: Option<Seq<char>>, bytes: Seq<u8>, indent: usize) -> Seq<char> {
    let pad = spaces(indent as nat);
    let first = match rune {
        Some(quoted) => pad + "rune: "@ + quoted + "\n"@,
        None => Seq::<char>::empty(),
    };
    "RuneParts{"@ + first + pad + "length: "@ + decimal(bytes.len()) + "\n"@ + pad
        + "remaining_bytes: "@ + formatted(bytes, (indent + DEFAULT_INDENT) as nat) + "}"@
}

/// A buffer for a reader: its first rune, already quoted, where it has
/// one, its length and its bytes.
pub fn describe(rune: Option<&str>, bytes: &[u8], indent: usize) -> (text: String)
    requires
        indent + DEFAULT_INDENT <= usize::MAX,
    ensures
        text@ == described(
            match rune {
                Some(quoted) => Some(quoted@),
                None => None,
            },
            bytes@,
            indent,
        ),
{
    let pad = spaces_of(indent);
    let mut text = String::from_str("RuneParts{");
    if let Some(quoted) = rune {
        text.append(pad.as_str());
        text.append("rune: ");
        text.append(quoted);
        text.append("\n");
    }
    text.append(pad.as_str());
    text.append("length: ");
    text.append(decimal_of(bytes.len()).as_str());
    text.append("\n");
    text.append(pad.as_str());
    text.append("remaining_bytes: ");
    text.append(format_bytes(bytes, Some(indent + DEFAULT_INDENT)).as_str());
    text.append("}");
    proof {
        assert(text@ =~= described(
            match rune {
                Some(quoted) => Some(quoted@),
                None => None,
            },
            bytes@,
            indent,
        ));
    }
    text
}

/// A buffer of bytes that serves to build runes from.
#[derive(Debug, PartialEq, Eq)]
pub struct RuneParts {
    bytes: Vec<u8>,
}

impl View for RuneParts {
    type V = Seq<u8>;

    closed spec fn view(&self) -> Seq<u8> {
        self.bytes@
    }
}

impl Clone for RuneParts {
    fn clone(&self) -> (parts: RuneParts)
        ensures
            parts@ == self@,
    {
        proof {
            use_type_invariant(self);
        }
        RuneParts { bytes: slice_to_vec(self.bytes.as_slice()) }
    }
}

impl RuneParts {
    /// The buffer fits in memory.
    #[verifier::type_invariant]
    spec fn fits_in_memory(&self) -> bool {
        addressable(self.bytes@)
    }

    /// The buffer that holds a copy of `bytes`.
    pub fn from_raw_parts(bytes: &[u8]) -> (parts: RuneParts)
        requires
            addressable(bytes@),
        ensures
            parts@ == bytes@,
    {
        RuneParts { bytes: slice_to_vec(bytes) }
    }

    /// The buffer that holds the UTF-8 encoding of `input`.
    pub fn new(input: &str) -> (parts: RuneParts)
        requires
            addressable(input.spec_bytes()),
        ensures
            parts@ == input.spec_bytes(),
    {
        RuneParts::from_raw_parts(input.as_bytes())
    }

    /// The buffer that holds the UTF-8 encoding of `input`. Never fails.
    pub fn allocate(input: &str) -> (parts: Result<RuneParts, Error<'static>>)
        requires
            addressable(input.spec_bytes()),
        ensures
            parts matches Ok(made) && made@ == input.spec_bytes(),
    {
        Ok(RuneParts::new(input))
    }

    /// The same buffer, cut into its runes.
    pub fn into_runes(self) -> (runes: Runes)
        ensures
            runes@ == self@,
    {
        let indexes = self.indexes();
        proof {
            use_type_invariant(&self);
        }
        Runes::from_cuts(self.bytes, indexes)
    }

    /// The first rune of the buffer, if a rune can begin there.
    pub fn rune(&self) -> (rune: Option<Rune>)
        ensures
            rune is Some == begins_rune(self@, 0),
            rune matches Some(found) ==> found@ == rune_bytes(self@, 0),
    {
        match self.rune_at_index(0) {
            Ok(rune) => Some(rune),
            Err(_) => None,
        }
    }

    /// The boundaries of the runes of the buffer, from 0 on: each is the
    /// end of the rune that begins at the one before. The last is where
    /// the cutting stopped: at or behind the end of the buffer, or at a
    /// continuation byte.
    pub fn indexes(&self) -> (indexes: Vec<usize>)
        ensures
            is_tiling(self@, indexes@),
            indexes@ == boundaries(self@),
    {
        proof {
            use_type_invariant(self);
        }
        let length = self.bytes.len();
        let mut cutoff: usize = 0;
        let mut indexes: Vec<usize> = Vec::new();
        indexes.push(cutoff);
        while cutoff < length
            invariant
                length == self.bytes@.len(),
                addressable(self.bytes@),
                indexes@.len() >= 1,
                indexes@[0] == 0,
                indexes@.last() == cutoff,
                forall|k: int|
                    0 <= k < indexes@.len() - 1 ==> #[trigger] spans_rune(
                        self.bytes@,
                        indexes@,
                        k,
                    ),
            ensures
                is_tiling(self.bytes@, indexes@),
            decreases
                    if cutoff < length {
                        length - cutoff
                    } else {
                        0
                    },
        {
            let ghost before = indexes@;
            match get_rune_cutoff_at_index(self.bytes.as_slice(), cutoff) {
                Ok(next) => {
                    indexes.push(next);
                    cutoff = next;
                    proof {
                        assert forall|k: int| 0 <= k < indexes@.len() - 1 implies #[trigger] spans_rune(
                            self.bytes@,
                            indexes@,
                            k,
                        ) by {
                            if k < before.len() - 1 {
                                assert(spans_rune(self.bytes@, before, k));
                            }
                        }
                    }
                },
                Err(_) => break ,
            }
        }
        proof {
            lemma_tiling_is_unique(self.bytes@, indexes@);
        }
        indexes
    }

    /// The rune that begins at `index`, or the error that
    /// `get_rune_cutoff_at_index` finds there.
    pub fn rune_at_index(&self, index: usize) -> (rune: Result<Rune, Error<'_>>)
        ensures
            rune is Ok == begins_rune(self@, index as int),
            rune matches Ok(found) ==> found@ == rune_bytes(self@, index as int),
            rune matches Err(error) ==> describes_failure(error, self@, index as int),
    {
        proof {
            use_type_invariant(self);
        }
        Rune::from_ptr_cutoff(self.bytes.as_slice(), index)
    }

    /// The runes of the buffer in order, up to where the cutting stops.
    /// Never fails.
    pub fn runes(&self) -> (runes: Result<Vec<Rune>, Error<'_>>)
        ensures
            runes matches Ok(found) && found@.len() == boundaries(self@).len() - 1 && forall|
                k: int,
            |
                0 <= k < found@.len() ==> (#[trigger] found@[k])@ == rune_bytes(
                    self@,
                    boundaries(self@)[k] as int,
                ),
    {
        let indexes = self.indexes();
        let mut runes: Vec<Rune> = Vec::new();
        let count = indexes.len() - 1;
        let mut k: usize = 0;
        while k < count
            invariant
                is_tiling(self@, indexes@),
                count == indexes@.len() - 1,
                k <= count,
                runes@.len() == k,
                forall|j: int|
                    0 <= j < k ==> (#[trigger] runes@[j])@ == rune_bytes(self@, indexes@[j] as int),
            decreases count - k,
        {
            assert(spans_rune(self@, indexes@, k as int));
            match self.rune_at_index(indexes[k]) {
                Ok(rune) => runes.push(rune),
                Err(_) => {},
            }
            k += 1;
        }
        Ok(runes)
    }

    /// The number of bytes.
    pub fn len(&self) -> (len: usize)
        ensures
            len == self@.len(),
    {
        self.bytes.len()
    }

    /// The longest prefix of the buffer that is valid UTF-8, as text.
    pub fn as_str(&self) -> (text: &str)
        ensures
            text.spec_bytes() == self@.subrange(0, valid_prefix_len(self@, self@.len() as int)),
            text@ == valid_prefix_text(self@),
    {
        get_valid_utf8_prefix_of(self.bytes.as_slice())
    }

    /// The buffer for a reader: its first rune, as std's `Debug` quotes
    /// the text that `Rune::as_debug` gives for it, its length and its
    /// bytes.
    pub open spec fn spec_as_debug(self, indent: Option<usize>) -> Seq<char> {
        let width = indent_or_default(indent);
        described(
            if begins_rune(self@, 0) {
                Some(
                    debug_quoted(
                        Rune::spec_as_debug_of(rune_bytes(self@, 0), (width + DEFAULT_INDENT) as nat),
                    ),
                )
            } else {
                None
            },
            self@,
            width,
        )
    }

    /// The buffer for a reader: its first rune, its length and its bytes.
    pub fn as_debug(&self, indent: Option<usize>) -> (text: String)
        requires
            indent_or_default(indent) + DEFAULT_INDENT + DEFAULT_INDENT <= usize::MAX,
        ensures
            text@ == self.spec_as_debug(indent),
    {
        let indent = unwrap_indent(indent);
        match self.rune() {
            Some(rune) => {
                let shown = rune.as_debug(Some(indent + DEFAULT_INDENT));
                let quoted = quote(shown.as_str());
                describe(Some(quoted.as_str()), self.as_bytes(), indent)
            },
            None => describe(None, self.as_bytes(), indent),
        }
    }

    /// The bytes.
    pub fn as_bytes(&self) -> (bytes: &[u8])
        ensures
            bytes@ == self@,
    {
        self.bytes.as_slice()
    }

    /// True when the buffer holds no byte.
    pub fn is_empty(&self) -> (empty: bool)
        ensures
            empty == (self@.len() == 0),
    {
        self.bytes.len() == 0
    }
}

} // verus!
