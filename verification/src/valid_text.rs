//! What holds of the boundaries when the buffer is valid UTF-8, and what
//! holds of the recovered boundaries of any buffer.

use vstd::prelude::*;
use vstd::utf8::{
    is_char_boundary_iff_not_is_continuation_byte, is_char_boundary_start_end_of_seq,
    length_of_first_scalar, pop_first_scalar, valid_first_scalar, valid_utf8, valid_utf8_split,
};

use crate::heuristic::{
    begins_rune, byte_type_at, joiner_at, leader_before, lemma_leader_before,
    lemma_marker_extent_bounds, marker_at, marker_extent, next_boundary, next_stop,
    previous_boundary, rune_cutoff,
};
use crate::parts::{is_tiling, spans_rune};
use crate::pointer::well_formed;

verus! {

/// In valid UTF-8 a code point that begins inside the buffer also ends
/// inside it, by the length that its first byte declares, and what follows
/// it is no continuation byte.
pub proof fn lemma_code_point_ends_at_boundary(bytes: Seq<u8>, index: int)
    requires
        valid_utf8(bytes),
        0 <= index < bytes.len(),
        begins_rune(bytes, index),
    ensures
        1 <= byte_type_at(bytes, index).spec_len() <= 4,
        index + byte_type_at(bytes, index).spec_len() <= bytes.len(),
        begins_rune(bytes, index + byte_type_at(bytes, index).spec_len()),
{
    is_char_boundary_iff_not_is_continuation_byte(bytes, index);
    valid_utf8_split(bytes, index);
    let tail = bytes.subrange(index, bytes.len() as int);
    assert(tail[0] == bytes[index]);
    assert(valid_first_scalar(tail));
    let rest = pop_first_scalar(tail);
    assert(valid_utf8(rest));
    let width = length_of_first_scalar(tail);
    assert(width == byte_type_at(bytes, index).spec_len());
    if index + width < bytes.len() {
        assert(rest[0] == bytes[index + width]);
        assert(valid_first_scalar(rest));
    }
}

/// Valid UTF-8 begins with a byte that a rune can begin with.
pub proof fn lemma_text_begins_rune(bytes: Seq<u8>)
    requires
        valid_utf8(bytes),
    ensures
        begins_rune(bytes, 0),
{
    if bytes.len() > 0 {
        assert(valid_first_scalar(bytes));
    }
}

/// In valid UTF-8 what a marker draws in ends inside the buffer, and at a
/// byte that a rune can begin with.
pub proof fn lemma_marker_ends_at_boundary(bytes: Seq<u8>, index: int)
    requires
        valid_utf8(bytes),
        marker_extent(bytes, index) is Some,
    ensures
        index + marker_extent(bytes, index).unwrap() <= bytes.len(),
        begins_rune(bytes, index + marker_extent(bytes, index).unwrap()),
        byte_type_at(bytes, index + 3).spec_len() <= 4,
    decreases bytes.len() - index,
{
    lemma_code_point_ends_at_boundary(bytes, index);
    if index + 3 < bytes.len() {
        lemma_code_point_ends_at_boundary(bytes, index + 3);
    }
    if joiner_at(bytes, index) {
    } else if marker_extent(bytes, index + 3) is Some {
        lemma_marker_ends_at_boundary(bytes, index + 3);
    }
}

/// The boundary found before an index is one that a rune begins at: it
/// lies inside the buffer, at or before the index, and no continuation
/// byte stands there.
pub proof fn lemma_previous_boundary_begins_rune(bytes: Seq<u8>, index: int)
    requires
        0 <= index,
    ensures
        previous_boundary(bytes, index) matches Some(found) ==> 0 <= found <= index && found
            < bytes.len() && begins_rune(bytes, found),
    decreases index,
{
    lemma_leader_before(bytes, index);
    let start = leader_before(bytes, index);
    let ty = byte_type_at(bytes, start);
    if bytes.len() != 0 {
        lemma_marker_extent_bounds(bytes, start);
        match marker_at(bytes, start) {
            Some((count, following)) => {
                let from = start - following.spec_len();
                if start >= following.spec_len() && well_formed(bytes, from, count) {
                    let span = bytes.subrange(from, from + count);
                    assert(valid_first_scalar(span));
                    assert(span[0] == bytes[from]);
                } else if start > 0 {
                    lemma_previous_boundary_begins_rune(bytes, start - 1);
                }
            },
            None => {
                if ty.spec_has_rune_delta() && !well_formed(bytes, start, bytes.len() - start)
                    && start >= ty.spec_len() {
                    lemma_previous_boundary_begins_rune(bytes, start - 1);
                }
            },
        }
    }
}

/// In valid UTF-8 the walk forward stops inside the buffer or at its end,
/// and at a byte that a rune can begin with.
pub proof fn lemma_next_stop_begins_rune(bytes: Seq<u8>, index: int)
    requires
        valid_utf8(bytes),
        0 <= index <= bytes.len(),
    ensures
        index <= next_stop(bytes, index) <= bytes.len(),
        begins_rune(bytes, next_stop(bytes, index)),
    decreases bytes.len() - index,
{
    if index < bytes.len() {
        if marker_extent(bytes, index) is Some {
            lemma_marker_extent_bounds(bytes, index);
            lemma_marker_ends_at_boundary(bytes, index);
        } else if marker_extent(bytes, index + 1) is Some {
            lemma_marker_extent_bounds(bytes, index + 1);
            lemma_marker_ends_at_boundary(bytes, index + 1);
        } else if byte_type_at(bytes, index) is Continuation {
            lemma_next_stop_begins_rune(bytes, index + 1);
        }
    }
}

/// In valid UTF-8 the boundary found after an index is one that a rune
/// begins at: it lies inside the buffer, at or after the index, and no
/// continuation byte stands there.
pub proof fn lemma_next_boundary_begins_rune(bytes: Seq<u8>, index: int)
    requires
        valid_utf8(bytes),
        0 <= index,
    ensures
        next_boundary(bytes, index) matches Some(found) ==> index <= found < bytes.len()
            && begins_rune(bytes, found),
{
    if index < bytes.len() {
        lemma_next_stop_begins_rune(bytes, index);
    }
}


/// Where no marker stands at or after an index, the walk forward from it
/// stops inside the buffer or at its end, and at a byte that a rune can
/// begin with, whatever the buffer holds.
pub proof fn lemma_next_stop_without_markers(bytes: Seq<u8>, index: int)
    requires
        0 <= index <= bytes.len(),
        forall|at: int| index <= at ==> marker_extent(bytes, at) is None,
    ensures
        index <= next_stop(bytes, index) <= bytes.len(),
        begins_rune(bytes, next_stop(bytes, index)),
    decreases bytes.len() - index,
{
    if index < bytes.len() {
        assert(marker_extent(bytes, index) is None);
        assert(marker_extent(bytes, index + 1) is None);
        if byte_type_at(bytes, index) is Continuation {
            lemma_next_stop_without_markers(bytes, index + 1);
        }
    }
}

/// Where no marker stands at or after an index, the boundary found after
/// it is one that a rune begins at, whatever the buffer holds.
pub proof fn lemma_next_boundary_without_markers(bytes: Seq<u8>, index: int)
    requires
        0 <= index,
        forall|at: int| index <= at ==> marker_extent(bytes, at) is None,
    ensures
        next_boundary(bytes, index) matches Some(found) ==> index <= found < bytes.len()
            && begins_rune(bytes, found),
{
    if index < bytes.len() {
        lemma_next_stop_without_markers(bytes, index);
    }
}

/// In valid UTF-8, where a continuation byte stands at an index, so that
/// no rune can begin there, the boundaries found before and after it are
/// ones that a rune begins at.
pub proof fn lemma_recovery_is_sound(bytes: Seq<u8>, index: int)
    requires
        valid_utf8(bytes),
        0 <= index < bytes.len(),
        byte_type_at(bytes, index) is Continuation,
    ensures
        previous_boundary(bytes, index) matches Some(found) ==> found < index && begins_rune(
            bytes,
            found,
        ),
        next_boundary(bytes, index) matches Some(found) ==> index < found < bytes.len()
            && begins_rune(bytes, found),
{
    lemma_previous_boundary_begins_rune(bytes, index);
    lemma_next_boundary_begins_rune(bytes, index);
}

/// In valid UTF-8 the bytes between two positions that a rune can begin at
/// are valid UTF-8 themselves.
pub proof fn lemma_span_between_boundaries(bytes: Seq<u8>, from: int, to: int)
    requires
        valid_utf8(bytes),
        0 <= from <= to <= bytes.len(),
        begins_rune(bytes, from),
        begins_rune(bytes, to),
    ensures
        well_formed(bytes, from, to - from),
{
    if to < bytes.len() {
        is_char_boundary_iff_not_is_continuation_byte(bytes, to);
    } else {
        is_char_boundary_start_end_of_seq(bytes);
    }
    valid_utf8_split(bytes, to);
    let head = bytes.subrange(0, to);
    if from < to {
        assert(head[from] == bytes[from]);
        is_char_boundary_iff_not_is_continuation_byte(head, from);
    } else {
        is_char_boundary_start_end_of_seq(head);
    }
    valid_utf8_split(head, from);
    assert(head.subrange(from, head.len() as int) =~= bytes.subrange(from, from + (to - from)));
}

/// In valid UTF-8 a rune ends inside the buffer.
pub proof fn lemma_rune_ends_inside_text(bytes: Seq<u8>, index: int)
    requires
        valid_utf8(bytes),
        begins_rune(bytes, index),
    ensures
        rune_cutoff(bytes, index) <= bytes.len(),
{
    let ty = byte_type_at(bytes, index);
    if index < bytes.len() && !(ty is Ascii) {
        lemma_code_point_ends_at_boundary(bytes, index);
        let cutoff = index + ty.spec_len();
        if cutoff < index + 6 && cutoff < bytes.len() {
            let next = byte_type_at(bytes, cutoff);
            lemma_code_point_ends_at_boundary(bytes, cutoff);
            lemma_marker_extent_bounds(bytes, cutoff);
            match marker_at(bytes, cutoff) {
                Some((count, following)) => {
                    lemma_marker_ends_at_boundary(bytes, cutoff);
                    lemma_span_between_boundaries(bytes, index, cutoff + count);
                },
                None => {
                    if marker_extent(bytes, cutoff + next.spec_len()) is Some {
                        lemma_marker_ends_at_boundary(bytes, cutoff + next.spec_len());
                    }
                },
            }
        }
    }
}

/// The runes of valid UTF-8 are a partition of the whole buffer, unless
/// the cutting stops at a continuation byte: the last boundary of a tiling
/// is the end of the buffer, or a position inside it that no rune can
/// begin at.
pub proof fn lemma_tiling_of_text(bytes: Seq<u8>, cuts: Seq<usize>)
    requires
        valid_utf8(bytes),
        is_tiling(bytes, cuts),
    ensures
        cuts.last() <= bytes.len(),
        cuts.last() == bytes.len() || !begins_rune(bytes, cuts.last() as int),
{
    if cuts.len() >= 2 {
        let k = cuts.len() - 2;
        assert(spans_rune(bytes, cuts, k));
        lemma_rune_ends_inside_text(bytes, cuts[k] as int);
    }
}

} // verus!
