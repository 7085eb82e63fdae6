//! Buffers of bytes and checked access to them.

use vstd::prelude::*;
use vstd::slice::{slice_subrange, slice_to_vec};
use vstd::string::StringSliceAdditionalSpecFns;
use vstd::utf8::{decode_utf8, encode_utf8_decode_utf8, valid_utf8};

verus! {

/// True when the `count` bytes from `index` on lie inside `bytes` and are
/// well-formed UTF-8.
pub open spec fn well_formed(bytes: Seq<u8>, index: int, count: int) -> bool {
    &&& 0 <= index
    &&& 0 <= count
    &&& index + count <= bytes.len()
    &&& valid_utf8(bytes.subrange(index, index + count))
}

/// `core::str::from_utf8`, with its error dropped. The text comes back
/// exactly when the bytes are valid UTF-8, and it is made of those bytes.
#[verifier::external_body]
fn decode<'g>(bytes: &'g [u8]) -> (text: Option<&'g str>)
    ensures
        text.is_some() == valid_utf8(bytes@),
        text matches Some(s) ==> s.spec_bytes() == bytes@,
{
    core::str::from_utf8(bytes).ok()
}

/// A new buffer of `length` zero bytes.
pub fn create(length: usize) -> (buffer: Vec<u8>)
    ensures
        buffer@.len() == length,
        forall|i: int| 0 <= i < length ==> buffer@[i] == 0,
{
    let mut buffer: Vec<u8> = Vec::new();
    let mut filled: usize = 0;
    while filled < length
        invariant
            filled <= length,
            buffer@.len() == filled,
            forall|i: int| 0 <= i < filled ==> buffer@[i] == 0,
        decreases length - filled,
    {
        buffer.push(0);
        filled += 1;
    }
    buffer
}

/// A new buffer holding the bytes of `src`.
pub fn copy(src: &[u8]) -> (buffer: Vec<u8>)
    ensures
        buffer@ == src@,
{
    slice_to_vec(src)
}

/// A new buffer holding the bytes of `bytes`, with its length.
pub fn from_slice(bytes: &[u8]) -> (buffer: (Vec<u8>, usize))
    ensures
        buffer.0@ == bytes@,
        buffer.1 == bytes@.len(),
{
    (slice_to_vec(bytes), bytes.len())
}

/// A new buffer holding the UTF-8 encoding of `input`, with its length.
pub fn from_display(input: &str) -> (buffer: (Vec<u8>, usize))
    ensures
        buffer.0@ == input.spec_bytes(),
        buffer.1 == input.spec_bytes().len(),
{
    from_slice(input.as_bytes())
}

/// The byte at `index`.
pub fn get_byte_at_index(src: &[u8], index: usize) -> (byte: u8)
    requires
        index < src@.len(),
    ensures
        byte == src@[index as int],
{
    src[index]
}

/// The `count` bytes of `src` from `index` on.
pub fn get_byte_slice_of<'g>(src: &'g [u8], index: usize, count: usize) -> (bytes: &'g [u8])
    requires
        index + count <= src@.len(),
    ensures
        bytes@ == src@.subrange(index as int, index + count),
{
    proof {
        vstd::slice::axiom_spec_len(src);
    }
    slice_subrange(src, index, index + count)
}

/// The `count` bytes of `src` from `index` on as text, where they lie
/// inside `src` and are valid UTF-8.
pub fn get_valid_utf8_str_of<'g>(src: &'g [u8], index: usize, count: usize) -> (text: Option<
    &'g str,
>)
    ensures
        text.is_some() == well_formed(src@, index as int, count as int),
        text matches Some(s) ==> s.spec_bytes() == src@.subrange(index as int, index + count),
{
    if index > src.len() || count > src.len() - index {
        None
    } else {
        decode(slice_subrange(src, index, index + count))
    }
}

/// True when the `count` bytes of `src` from `index` on lie inside `src`
/// and are valid UTF-8.
pub fn is_valid_utf8_str_of(src: &[u8], index: usize, count: usize) -> (valid: bool)
    ensures
        valid == well_formed(src@, index as int, count as int),
{
    get_valid_utf8_str_of(src, index, count).is_some()
}


/// The length of the longest prefix of `bytes`, of at most `limit` bytes,
/// that is valid UTF-8.
pub open spec fn valid_prefix_len(bytes: Seq<u8>, limit: int) -> int
    decreases limit,
{
    if limit <= 0 {
        0
    } else if well_formed(bytes, 0, limit) {
        limit
    } else {
        valid_prefix_len(bytes, limit - 1)
    }
}

/// The characters that the longest valid prefix of `bytes` encodes.
pub open spec fn valid_prefix_text(bytes: Seq<u8>) -> Seq<char> {
    decode_utf8(bytes.subrange(0, valid_prefix_len(bytes, bytes.len() as int)))
}

/// The longest prefix of `src` that is valid UTF-8, as text.
pub fn get_valid_utf8_prefix_of<'g>(src: &'g [u8]) -> (text: &'g str)
    ensures
        text.spec_bytes() == src@.subrange(0, valid_prefix_len(src@, src@.len() as int)),
        text@ == valid_prefix_text(src@),
{
    let mut offset = src.len();
    loop
        invariant
            offset <= src@.len(),
            valid_prefix_len(src@, src@.len() as int) == valid_prefix_len(src@, offset as int),
        decreases offset,
    {
        if let Some(text) = get_valid_utf8_str_of(src, 0, offset) {
            proof {
                encode_utf8_decode_utf8(text@);
            }
            return text;
        }
        proof {
            assert(src@.subrange(0, 0).len() == 0);
        }
        offset -= 1;
    }
}

} // verus!
