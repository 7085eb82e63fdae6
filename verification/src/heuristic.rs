//! Where a rune ends, and where the nearest rune begins.
//!
//! Every function takes the whole buffer and an index into it. A position
//! outside the buffer holds no byte, and a span that leaves the buffer is
//! not well-formed text: nothing is ever read past the end.

use vstd::prelude::*;

use crate::byte_type::{classify, ByteType};
use crate::errors::Error;
use crate::pointer::{is_valid_utf8_str_of, well_formed};

verus! {

/// The longest buffer that can exist in memory.
pub open spec fn addressable(bytes: Seq<u8>) -> bool {
    bytes.len() <= isize::MAX
}

/// The category of the byte at `index`, or `Absent` outside the buffer.
pub open spec fn byte_type_at(bytes: Seq<u8>, index: int) -> ByteType {
    if 0 <= index < bytes.len() {
        classify(bytes[index])
    } else {
        ByteType::Absent
    }
}

/// True when the three bytes at `index` are a zero-width joiner, `E2 80 8D`.
pub open spec fn joiner_at(bytes: Seq<u8>, index: int) -> bool {
    &&& 0 <= index
    &&& index + 2 < bytes.len()
    &&& bytes[index] == 0xE2
    &&& bytes[index + 1] == 0x80
    &&& bytes[index + 2] == 0x8D
}

/// True when the three bytes at `index` are a variation selector-16,
/// `EF B8 8F`.
pub open spec fn selector_at(bytes: Seq<u8>, index: int) -> bool {
    &&& 0 <= index
    &&& index + 2 < bytes.len()
    &&& bytes[index] == 0xEF
    &&& bytes[index + 1] == 0xB8
    &&& bytes[index + 2] == 0x8F
}

/// The number of bytes that the marker at `index` draws into the rune
/// before it, where a marker stands at `index`. A joiner draws itself and
/// the code point after it, by that code point's declared length. A
/// selector draws itself and whatever the marker right after it draws.
pub open spec fn marker_extent(bytes: Seq<u8>, index: int) -> Option<int>
    decreases bytes.len() - index,
{
    if joiner_at(bytes, index) {
        Some(3 + byte_type_at(bytes, index + 3).spec_len() as int)
    } else if selector_at(bytes, index) {
        match marker_extent(bytes, index + 3) {
            Some(more) => Some(3 + more),
            None => Some(3),
        }
    } else {
        None
    }
}

/// The marker at `index`: the number of bytes it draws into the rune, and
/// the category of the byte that follows its three bytes.
pub open spec fn marker_at(bytes: Seq<u8>, index: int) -> Option<(int, ByteType)> {
    match marker_extent(bytes, index) {
        Some(count) => Some((count, byte_type_at(bytes, index + 3))),
        None => None,
    }
}

/// A marker draws in at least its own three bytes, and ends at most eight
/// bytes past the end of the buffer.
pub proof fn lemma_marker_extent_bounds(bytes: Seq<u8>, index: int)
    ensures
        marker_extent(bytes, index) matches Some(count) ==> 0 <= index && 3 <= count && index
            + count <= bytes.len() + 8,
    decreases bytes.len() - index,
{
    if joiner_at(bytes, index) {
    } else if selector_at(bytes, index) {
        lemma_marker_extent_bounds(bytes, index + 3);
    }
}

/// The category of the byte at `index`, or `Absent` outside the buffer.
pub fn byte_type_at_index(bytes: &[u8], index: usize) -> (ty: ByteType)
    ensures
        ty == byte_type_at(bytes@, index as int),
{
    if index < bytes.len() {
        ByteType::new(bytes[index])
    } else {
        ByteType::Absent
    }
}

/// Looks for a zero-width joiner or a variation selector-16 at `index`.
/// Returns the number of bytes that the marker draws into the rune before
/// it and the category of the byte after the marker, or `None` where no
/// marker stands at `index`.
pub fn continuation_bytes_location(bytes: &[u8], index: usize) -> (location: Option<
    (usize, ByteType),
>)
    requires
        addressable(bytes@),
    ensures
        match location {
            Some((count, ty)) => marker_at(bytes@, index as int) == Some((count as int, ty)),
            None => marker_at(bytes@, index as int) is None,
        },
{
    let length = bytes.len();
    if index >= length || length - index <= 2 {
        return None;
    }
    let ty = byte_type_at_index(bytes, index + 3);
    let mut position: usize = index;
    let mut count: usize = 0;
    // Selectors in a row each add their three bytes; the chain ends at a
    // joiner, or at the first position that holds no marker.
    while position < length && length - position > 2 && bytes[position] == 0xEF && bytes[position
        + 1] == 0xB8 && bytes[position + 2] == 0x8F
        invariant
            length == bytes@.len(),
            addressable(bytes@),
            index <= position <= length,
            count == position - index,
            marker_extent(bytes@, index as int) == (if position == index {
                marker_extent(bytes@, position as int)
            } else {
                match marker_extent(bytes@, position as int) {
                    Some(more) => Some(count + more),
                    None => Some(count as int),
                }
            }),
        decreases length - position,
    {
        proof {
            assert(selector_at(bytes@, position as int));
        }
        position += 3;
        count += 3;
    }
    proof {
        lemma_marker_extent_bounds(bytes@, position as int);
        assert(!selector_at(bytes@, position as int));
    }
    if position < length && length - position > 2 && bytes[position] == 0xE2 && bytes[position
        + 1] == 0x80 && bytes[position + 2] == 0x8D {
        assert(joiner_at(bytes@, position as int));
        let following = byte_type_at_index(bytes, position + 3);
        Some((count + 3 + following.len(), ty))
    } else if position == index {
        assert(!joiner_at(bytes@, position as int));
        None
    } else {
        assert(!joiner_at(bytes@, position as int));
        Some((count, ty))
    }
}

/// A boundary as a mathematical integer.
pub open spec fn boundary(found: Option<usize>) -> Option<int> {
    match found {
        Some(index) => Some(index as int),
        None => None,
    }
}

/// Where the walk forward from `index` stops: behind the marker that
/// stands at the position or right after it, or at the first byte that is
/// no continuation byte, or at the end of the buffer.
pub open spec fn next_stop(bytes: Seq<u8>, index: int) -> int
    decreases bytes.len() - index,
{
    if index >= bytes.len() {
        index
    } else {
        match marker_extent(bytes, index) {
            Some(count) => index + count,
            None => match marker_extent(bytes, index + 1) {
                Some(count) => index + count + 1,
                None => if byte_type_at(bytes, index) is Continuation {
                    next_stop(bytes, index + 1)
                } else {
                    index
                },
            },
        }
    }
}

/// The nearest boundary at or after `index`: where the walk forward stops,
/// unless it starts outside the buffer or stops exactly at its end.
pub open spec fn next_boundary(bytes: Seq<u8>, index: int) -> Option<int> {
    if index >= bytes.len() || next_stop(bytes, index) == bytes.len() {
        None
    } else {
        Some(next_stop(bytes, index))
    }
}

/// The nearest rune boundary at or after `index`. Walks forward over
/// continuation bytes; a marker at the position or right after it ends the
/// walk behind what the marker draws in. Returns `None` where `index` lies
/// outside the buffer and where the walk ends exactly at its end.
pub fn next_valid_cutoff(bytes: &[u8], index: usize) -> (next: Option<usize>)
    requires
        addressable(bytes@),
    ensures
        boundary(next) == next_boundary(bytes@, index as int),
        bytes@.len() == 0 ==> next is None,
{
    let length = bytes.len();
    if length == 0 {
        return None;
    }
    if index >= length {
        return None;
    }
    let mut next_index = index;
    while next_index < length
        invariant_except_break
            index <= next_index <= length,
            next_stop(bytes@, index as int) == next_stop(bytes@, next_index as int),
        invariant
            length == bytes@.len(),
            addressable(bytes@),
        ensures
            next_index == next_stop(bytes@, index as int),
        decreases length - next_index,
    {
        proof {
            lemma_marker_extent_bounds(bytes@, next_index as int);
            lemma_marker_extent_bounds(bytes@, next_index + 1);
        }
        if let Some((count, _ty)) = continuation_bytes_location(bytes, next_index) {
            next_index += count;
            break ;
        } else if let Some((count, _ty)) = continuation_bytes_location(bytes, next_index + 1) {
            next_index += count + 1;
            break ;
        } else {
            let ty = byte_type_at_index(bytes, next_index);
            if ty.has_rune_delta() {
                break ;
            } else if ty.is_continuation() {
                next_index += 1;
            } else {
                break ;
            }
        }
    }
    if next_index == length {
        None
    } else {
        Some(next_index)
    }
}

/// The last position at or before `index` that holds a byte able to open a
/// rune of more than one byte, or 0 where there is none.
pub open spec fn leader_before(bytes: Seq<u8>, index: int) -> int
    decreases index,
{
    if index <= 0 {
        0
    } else if byte_type_at(bytes, index).spec_has_rune_delta() {
        index
    } else {
        leader_before(bytes, index - 1)
    }
}

/// The nearest boundary at or before `index`. From the last leader at or
/// before `index`: where a marker stands there, the boundary is the start
/// of the code point before the marker, if the span from there through
/// what the marker draws in is well-formed; where no marker stands there,
/// it is the leader itself, if the rest of the buffer from it on is
/// well-formed. Otherwise the search goes on one byte further back, as
/// long as there is room for what was declared.
pub open spec fn previous_boundary(bytes: Seq<u8>, index: int) -> Option<int>
    decreases index,
    via previous_boundary_goes_back
{
    let start = leader_before(bytes, index);
    let ty = byte_type_at(bytes, start);
    if bytes.len() == 0 {
        None
    } else {
        match marker_at(bytes, start) {
            Some((count, following)) => if start >= following.spec_len() && well_formed(
                bytes,
                start - following.spec_len(),
                count,
            ) {
                Some(start - following.spec_len())
            } else if start > 0 {
                previous_boundary(bytes, start - 1)
            } else {
                Some(start)
            },
            None => if ty.spec_has_rune_delta() {
                if well_formed(bytes, start, bytes.len() - start) {
                    Some(start)
                } else if start >= ty.spec_len() {
                    previous_boundary(bytes, start - 1)
                } else {
                    Some(start)
                }
            } else if start == 0 {
                None
            } else {
                Some(start)
            },
        }
    }
}

#[via_fn]
proof fn previous_boundary_goes_back(bytes: Seq<u8>, index: int) {
    if index >= 0 {
        lemma_leader_before(bytes, index);
    }
}

/// The walk backwards ends inside `0..=index`, and at a leader unless it
/// ends at 0.
pub proof fn lemma_leader_before(bytes: Seq<u8>, index: int)
    requires
        0 <= index,
    ensures
        0 <= leader_before(bytes, index) <= index,
        leader_before(bytes, index) > 0 ==> byte_type_at(
            bytes,
            leader_before(bytes, index),
        ).spec_has_rune_delta(),
        leader_before(bytes, index) < bytes.len() || bytes.len() == 0,
    decreases index,
{
    if index > 0 && !byte_type_at(bytes, index).spec_has_rune_delta() {
        lemma_leader_before(bytes, index - 1);
    }
}

/// Positions outside the buffer hold no leader: the walk backwards from
/// beyond the end is the walk backwards from the end.
pub proof fn lemma_leader_before_outside(bytes: Seq<u8>, index: int)
    requires
        bytes.len() <= index,
    ensures
        leader_before(bytes, index) == leader_before(bytes, bytes.len() as int),
    decreases index,
{
    if index > bytes.len() {
        lemma_leader_before_outside(bytes, index - 1);
    }
}

/// The nearest rune boundary at or before `index`; `None` where the
/// buffer holds no leader at or before `index`.
pub fn previous_valid_cutoff(bytes: &[u8], index: usize) -> (previous: Option<usize>)
    requires
        addressable(bytes@),
    ensures
        boundary(previous) == previous_boundary(bytes@, index as int),
        bytes@.len() == 0 ==> previous is None,
{
    let length = bytes.len();
    proof {
        lemma_leader_before(bytes@, index as int);
    }
    if length == 0 {
        return None;
    }
    let mut from: usize = index;
    if index > length {
        proof {
            lemma_leader_before_outside(bytes@, index as int);
            lemma_leader_before(bytes@, length as int);
        }
        from = length;
    }
    loop
        invariant
            length == bytes@.len(),
            length > 0,
            addressable(bytes@),
            from <= length,
            previous_boundary(bytes@, index as int) == previous_boundary(bytes@, from as int),
        decreases from,
    {
        let mut start = from;
        while start > 0 && !byte_type_at_index(bytes, start).has_rune_delta()
            invariant
                start <= from,
                leader_before(bytes@, from as int) == leader_before(bytes@, start as int),
            decreases start,
        {
            start -= 1;
        }
        proof {
            lemma_leader_before(bytes@, from as int);
            lemma_marker_extent_bounds(bytes@, start as int);
        }
        let ty = byte_type_at_index(bytes, start);
        if let Some((count, following)) = continuation_bytes_location(bytes, start) {
            if start >= following.len() && is_valid_utf8_str_of(
                bytes,
                start - following.len(),
                count,
            ) {
                return Some(start - following.len());
            } else if start > 0 {
                from = start - 1;
            } else {
                return Some(start);
            }
        } else if ty.has_rune_delta() {
            if is_valid_utf8_str_of(bytes, start, length - start) {
                return Some(start);
            } else if start >= ty.len() {
                from = start - 1;
            } else {
                return Some(start);
            }
        } else if start == 0 {
            return None;
        } else {
            return Some(start);
        }
    }
}

/// True when the four bytes at `index` encode one of the five skin-tone
/// modifiers, U+1F3FB to U+1F3FF: `F0 9F 8F BB` to `F0 9F 8F BF`.
pub open spec fn skin_tone_at(bytes: Seq<u8>, index: int) -> bool {
    &&& 0 <= index
    &&& index + 3 < bytes.len()
    &&& bytes[index] == 0xF0
    &&& bytes[index + 1] == 0x9F
    &&& bytes[index + 2] == 0x8F
    &&& 0xBB <= bytes[index + 3] <= 0xBF
}

/// The end of the rune that begins at `index`, for a rune that has grown
/// to `cutoff` while the scan has come to `cursor`.
///
/// The scan goes on while `cursor` lies inside the buffer, less than six
/// bytes from `index` and not before `cutoff`. At each step:
/// - a marker at `cutoff` ends the scan behind what it draws in, if the
///   rune so extended is well-formed; if it is not, the cursor skips the
///   code point after the marker and the rune grows by one byte;
/// - else a leader at the cursor ends the scan. A leader of fewer than
///   four bytes is taken in if a marker stands as far from the start of
///   the buffer as `cutoff` is from `index`. A longer one is taken in
///   together with the marker behind it, if there is one, and otherwise
///   only if its length is four and a skin-tone modifier follows the first
///   four bytes of the rune;
/// - else an ASCII byte at the cursor ends the scan;
/// - else the rune grows by one byte.
pub open spec fn scan(bytes: Seq<u8>, index: int, cutoff: int, cursor: int) -> int
    decreases index + 6 - cutoff,
{
    if !(cursor < index + 6 && cutoff <= cursor && cursor < bytes.len()) {
        cutoff
    } else {
        let next = byte_type_at(bytes, cursor);
        match marker_at(bytes, cutoff) {
            Some((count, following)) => if well_formed(bytes, index, cutoff + count - index) {
                cutoff + count
            } else {
                scan(bytes, index, cutoff + 1, cursor + following.spec_len())
            },
            None => if next.spec_has_rune_delta() {
                if next.spec_len() < 4 {
                    if marker_at(bytes, cutoff - index) is Some {
                        cutoff + next.spec_len()
                    } else {
                        cutoff
                    }
                } else {
                    match marker_at(bytes, cutoff + next.spec_len()) {
                        Some((count, following)) => cutoff + count + following.spec_len(),
                        None => if next.spec_len() == 4 && skin_tone_at(bytes, index + 4) {
                            cutoff + 4
                        } else {
                            cutoff
                        },
                    }
                }
            } else if next is Ascii {
                cutoff
            } else {
                scan(bytes, index, cutoff + 1, cursor)
            },
        }
    }
}

/// The end of the rune that begins at `index`, where a rune can begin
/// there: `index` itself outside the buffer, the next position for an
/// ASCII byte, and for a leader what the scan from behind its declared
/// length finds.
pub open spec fn rune_cutoff(bytes: Seq<u8>, index: int) -> int {
    let ty = byte_type_at(bytes, index);
    if ty is Absent {
        index
    } else if ty is Ascii {
        index + 1
    } else {
        scan(bytes, index, index + ty.spec_len(), index + ty.spec_len())
    }
}

/// True when a rune can begin at `index`: the index is not beyond the end
/// of the buffer, and no continuation byte stands there.
pub open spec fn begins_rune(bytes: Seq<u8>, index: int) -> bool {
    0 <= index <= bytes.len() && !(byte_type_at(bytes, index) is Continuation)
}

/// The scan only ever lets a rune grow, and never past sixteen bytes
/// behind the end of the buffer.
pub proof fn lemma_scan_bounds(bytes: Seq<u8>, index: int, cutoff: int, cursor: int)
    requires
        0 <= index <= cutoff,
    ensures
        cutoff <= scan(bytes, index, cutoff, cursor),
        cutoff <= bytes.len() + 16 ==> scan(bytes, index, cutoff, cursor) <= bytes.len() + 16,
    decreases index + 6 - cutoff,
{
    if cursor < index + 6 && cutoff <= cursor && cursor < bytes.len() {
        let next = byte_type_at(bytes, cursor);
        lemma_marker_extent_bounds(bytes, cutoff);
        lemma_marker_extent_bounds(bytes, cutoff + next.spec_len());
        match marker_at(bytes, cutoff) {
            Some((count, following)) => {
                if !well_formed(bytes, index, cutoff + count - index) {
                    lemma_scan_bounds(bytes, index, cutoff + 1, cursor + following.spec_len());
                }
            },
            None => {
                if !next.spec_has_rune_delta() && !(next is Ascii) {
                    lemma_scan_bounds(bytes, index, cutoff + 1, cursor);
                }
            },
        }
    }
}

/// A rune that begins inside the buffer is never empty.
pub proof fn lemma_rune_is_not_empty(bytes: Seq<u8>, index: int)
    requires
        0 <= index < bytes.len(),
        begins_rune(bytes, index),
    ensures
        index < rune_cutoff(bytes, index) <= bytes.len() + 16,
{
    let ty = byte_type_at(bytes, index);
    if !(ty is Ascii) {
        lemma_scan_bounds(bytes, index, index + ty.spec_len(), index + ty.spec_len());
    }
}

/// A rune never ends before the index it begins at.
pub proof fn lemma_rune_begins_before_its_end(bytes: Seq<u8>, index: int)
    requires
        begins_rune(bytes, index),
    ensures
        index <= rune_cutoff(bytes, index),
{
    if index < bytes.len() {
        lemma_rune_is_not_empty(bytes, index);
    }
}

/// True when `error` is the failure to find a rune at `index`: an index
/// beyond the end of the buffer, or a continuation byte at `index`
/// together with the nearest boundaries on both sides of it.
pub open spec fn describes_failure(error: Error<'_>, bytes: Seq<u8>, index: int) -> bool {
    match error {
        Error::InvalidIndex(at, buffer) => index > bytes.len() && at == index && buffer@ == bytes,
        Error::UnexpectedContinuationByte(byte, at, previous, next, buffer) => {
            &&& 0 <= index < bytes.len()
            &&& byte_type_at(bytes, index) is Continuation
            &&& byte == bytes[index]
            &&& at == index
            &&& boundary(previous) == previous_boundary(bytes, index)
            &&& boundary(next) == next_boundary(bytes, index)
            &&& buffer@ == bytes
        },
        Error::Utf8Error(_, _, _) => false,
    }
}

/// The error for a continuation byte at `index`, with the nearest
/// boundaries on both sides of it.
pub(crate) fn unexpected_continuation_byte_at_index_error<'g>(
    bytes: &'g [u8],
    index: usize,
) -> (error: Error<'g>)
    requires
        addressable(bytes@),
        index < bytes@.len(),
        byte_type_at(bytes@, index as int) is Continuation,
    ensures
        error is UnexpectedContinuationByte,
        describes_failure(error, bytes@, index as int),
{
    let byte = bytes[index];
    let previous_index = previous_valid_cutoff(bytes, index);
    let next_index = next_valid_cutoff(bytes, index);
    Error::UnexpectedContinuationByte(byte, index, previous_index, next_index, bytes)
}

/// The index at which the rune that begins at `index` ends.
///
/// Fails with `InvalidIndex` exactly when `index` lies beyond the end of
/// the buffer, and with `UnexpectedContinuationByte` exactly when the byte
/// at `index` is a continuation byte; the error then holds the nearest
/// boundaries before and after `index`. Otherwise the rune ends behind
/// `index` if `index` is inside the buffer, and right behind it where an
/// ASCII byte stands there.
pub fn get_rune_cutoff_at_index<'g>(bytes: &'g [u8], index: usize) -> (cutoff: Result<
    usize,
    Error<'g>,
>)
    requires
        addressable(bytes@),
    ensures
        match cutoff {
            Ok(end) => begins_rune(bytes@, index as int) && end == rune_cutoff(
                bytes@,
                index as int,
            ),
            Err(error) => describes_failure(error, bytes@, index as int),
        },
        index < bytes@.len() && bytes@[index as int] < 127 ==> cutoff == Ok::<usize, Error<'g>>(
            (index + 1) as usize,
        ),
        index < bytes@.len() ==> (cutoff matches Ok(end) ==> index < end),
        bytes@.len() == 0 && index == 0 ==> cutoff == Ok::<usize, Error<'g>>(0usize),
{
    let length = bytes.len();
    if index > length {
        return Err(Error::InvalidIndex(index, bytes));
    }
    if length == 0 {
        return Ok(index);
    }
    let ty = byte_type_at_index(bytes, index);
    if ty.is_ascii() {
        return Ok(index + 1);
    } else if ty.is_continuation() {
        return Err(unexpected_continuation_byte_at_index_error(bytes, index));
    }
    let declared = ty.len();
    let mut cutoff: usize = index + declared;
    let mut cursor: usize = index + declared;
    let limit: usize = index + 6;
    proof {
        lemma_scan_bounds(bytes@, index as int, cutoff as int, cursor as int);
    }
    while cursor < limit && cutoff <= cursor && cursor < length
        invariant_except_break
            rune_cutoff(bytes@, index as int) == scan(
                bytes@,
                index as int,
                cutoff as int,
                cursor as int,
            ),
            index <= cutoff <= index + 8,
            cursor <= index + 14,
        invariant
            length == bytes@.len(),
            addressable(bytes@),
            index <= length,
            limit == index + 6,
        ensures
            cutoff == rune_cutoff(bytes@, index as int),
        decreases index + 6 - cutoff,
    {
        let next_ty = byte_type_at_index(bytes, cursor);
        proof {
            lemma_marker_extent_bounds(bytes@, cutoff as int);
            lemma_marker_extent_bounds(bytes@, cutoff + next_ty.spec_len());
            lemma_scan_bounds(bytes@, index as int, cutoff as int, cursor as int);
        }
        if let Some((count, following)) = continuation_bytes_location(bytes, cutoff) {
            if is_valid_utf8_str_of(bytes, index, cutoff + count - index) {
                cutoff = cutoff + count;
                break ;
            } else {
                cursor += following.len();
            }
        } else if next_ty.has_rune_delta() {
            if next_ty.len() < 4 {
                if continuation_bytes_location(bytes, cutoff - index).is_some() {
                    cutoff += next_ty.len();
                }
                break ;
            } else if let Some((count, following)) = continuation_bytes_location(
                bytes,
                cutoff + next_ty.len(),
            ) {
                cutoff = cutoff + count + following.len();
                break ;
            } else {
                if next_ty.len() == 4 && length - index >= 8 && bytes[index + 4] == 0xF0
                    && bytes[index + 5] == 0x9F && bytes[index + 6] == 0x8F && 0xBB
                    <= bytes[index + 7] && bytes[index + 7] <= 0xBF {
                    cutoff += 4;
                }
                break ;
            }
        } else if next_ty.is_ascii() {
            break ;
        }
        cutoff += 1;
    }
    Ok(cutoff)
}

/// The index at which the first rune of the buffer ends; 0 for an empty
/// buffer. The buffer must not begin with a continuation byte.
pub fn split_at_first_rune(bytes: &[u8]) -> (cutoff: usize)
    requires
        addressable(bytes@),
        begins_rune(bytes@, 0),
    ensures
        cutoff == rune_cutoff(bytes@, 0),
        bytes@.len() == 0 ==> cutoff == 0,
        bytes@.len() > 0 ==> cutoff > 0,
{
    get_rune_cutoff_at_index(bytes, 0).unwrap()
}

} // verus!
