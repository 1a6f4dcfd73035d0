use vstd::prelude::*;
use std::collections::HashMap;
use std::ops::Range;
use vstd::utf8::{is_char_boundary, decode_utf8, encode_utf8};
use vstd::string::StringSliceAdditionalSpecFns;
use crate::element::ElementId;

verus! {

broadcast use {
    vstd::std_specs::hash::group_hash_axioms,
    vstd::utf8::encode_utf8_valid_utf8,
    vstd::utf8::encode_utf8_decode_utf8,
};

/// A caret position inside one selectable text leaf: the leaf's id and a byte offset.
#[derive(Clone, Copy, Debug, PartialEq, Eq, Structural)]
pub struct StaticTextPosition {
    pub id: ElementId,
    pub offset: usize,
}

/// An immutable-text selection from `anchor` to `focus`, in either direction.
#[derive(Clone, Copy, Debug, PartialEq, Eq, Structural)]
pub struct StaticTextSelection {
    pub anchor: StaticTextPosition,
    pub focus: StaticTextPosition,
}

/// Granularity of a pointer selection gesture.
#[derive(Clone, Copy, Debug, PartialEq, Eq, Structural)]
pub enum StaticTextSelectionUnit {
    Character,
    Word,
    Line,
}

/// Lexicographic order on (document index, offset) keys.
pub open spec fn key_le(a: (usize, usize), b: (usize, usize)) -> bool {
    a.0 < b.0 || (a.0 == b.0 && a.1 <= b.1)
}

/// The document key of a position, when its leaf is mounted.
pub open spec fn spec_position_key(position: StaticTextPosition, indices: Map<ElementId, usize>) -> Option<(usize, usize)> {
    if indices.contains_key(position.id) {
        Some((indices[position.id], position.offset))
    } else {
        None
    }
}

/// The selection's (start, end) keys in document order, when both leaves are mounted.
pub open spec fn spec_normalized(selection: StaticTextSelection, indices: Map<ElementId, usize>)
    -> Option<((usize, usize), (usize, usize))>
{
    match (spec_position_key(selection.anchor, indices), spec_position_key(selection.focus, indices)) {
        (Some(anchor), Some(focus)) => Some(if key_le(anchor, focus) { (anchor, focus) } else { (focus, anchor) }),
        _ => None,
    }
}

fn key_less_or_equal(a: (usize, usize), b: (usize, usize)) -> (le: bool)
    ensures
        le == key_le(a, b),
{
    a.0 < b.0 || (a.0 == b.0 && a.1 <= b.1)
}

/// The document key (leaf index, byte offset) of a position; `None` when its leaf is not mounted.
pub fn static_position_key(position: StaticTextPosition, indices: &HashMap<ElementId, usize>)
    -> (key: Option<(usize, usize)>)
    ensures
        key == spec_position_key(position, indices@),
{
    match indices.get(&position.id) {
        Some(index) => Some((*index, position.offset)),
        None => None,
    }
}

/// The selection's endpoints ordered by document position; `None` when either leaf is gone.
pub fn normalized_static_selection(selection: StaticTextSelection, indices: &HashMap<ElementId, usize>)
    -> (normalized: Option<((usize, usize), (usize, usize))>)
    ensures
        normalized == spec_normalized(selection, indices@),
{
    let anchor = match indices.get(&selection.anchor.id) {
        Some(index) => (*index, selection.anchor.offset),
        None => return None,
    };
    let focus = match indices.get(&selection.focus.id) {
        Some(index) => (*index, selection.focus.offset),
        None => return None,
    };
    Some(if key_less_or_equal(anchor, focus) { (anchor, focus) } else { (focus, anchor) })
}

pub open spec fn min_usize(a: usize, b: usize) -> usize {
    if a <= b { a } else { b }
}

/// The byte range of leaf `document_index` (of length `content_len`) covered by the selection.
pub open spec fn spec_range_for_entry(
    selection: Option<StaticTextSelection>,
    indices: Map<ElementId, usize>,
    document_index: usize,
    content_len: usize,
) -> Option<(usize, usize)> {
    match selection {
        None => None,
        Some(selection) => match spec_normalized(selection, indices) {
            None => None,
            Some((start, end)) => {
                if document_index < start.0 || document_index > end.0 {
                    None
                } else {
                    let range = if start.0 == end.0 {
                        (min_usize(start.1, content_len), min_usize(end.1, content_len))
                    } else if document_index == start.0 {
                        (min_usize(start.1, content_len), content_len)
                    } else if document_index == end.0 {
                        (0usize, min_usize(end.1, content_len))
                    } else {
                        (0usize, content_len)
                    };
                    if range.0 < range.1 { Some(range) } else { None }
                }
            },
        },
    }
}

/// The non-empty byte range of one selectable leaf that the selection covers: the tail of the
/// first leaf, the head of the last, all of the leaves between, clipped to the leaf's length.
pub fn static_selection_range_for_entry(
    selection: Option<StaticTextSelection>,
    indices: &HashMap<ElementId, usize>,
    document_index: usize,
    content_len: usize,
) -> (range: Option<Range<usize>>)
    ensures
        match range {
            Some(r) => spec_range_for_entry(selection, indices@, document_index, content_len) == Some((r.start, r.end)),
            None => spec_range_for_entry(selection, indices@, document_index, content_len) is None,
        },
{
    let selection = match selection {
        Some(selection) => selection,
        None => return None,
    };
    let (start, end) = match normalized_static_selection(selection, indices) {
        Some(bounds) => bounds,
        None => return None,
    };
    if document_index < start.0 || document_index > end.0 {
        return None;
    }
    let (from, to) = if start.0 == end.0 {
        (if start.1 <= content_len { start.1 } else { content_len }, if end.1 <= content_len { end.1 } else { content_len })
    } else if document_index == start.0 {
        (if start.1 <= content_len { start.1 } else { content_len }, content_len)
    } else if document_index == end.0 {
        (0, if end.1 <= content_len { end.1 } else { content_len })
    } else {
        (0, content_len)
    };
    if from < to {
        Some(from..to)
    } else {
        None
    }
}

/// The largest character boundary of `bytes` at or before `index`.
pub open spec fn boundary_floor(bytes: Seq<u8>, index: int) -> int
    decreases index,
{
    if index <= 0 {
        0
    } else if is_char_boundary(bytes, index) {
        index
    } else {
        boundary_floor(bytes, index - 1)
    }
}

pub proof fn lemma_boundary_floor(bytes: Seq<u8>, index: int)
    requires
        vstd::utf8::valid_utf8(bytes),
    ensures
        0 <= boundary_floor(bytes, index),
        index >= 0 ==> boundary_floor(bytes, index) <= index,
        is_char_boundary(bytes, boundary_floor(bytes, index)),
    decreases index,
{
    if index > 0 && !is_char_boundary(bytes, index) {
        lemma_boundary_floor(bytes, index - 1);
    }
}

/// The largest character boundary of `content` at or before byte `index` (at most its length).
pub fn boundary_at_or_before(content: &str, index: usize) -> (boundary: usize)
    requires
        index <= content.spec_bytes().len(),
    ensures
        boundary == boundary_floor(content.spec_bytes(), index as int),
        is_char_boundary(content.spec_bytes(), boundary as int),
{
    let mut end = index;
    while end > 0 && !content.is_char_boundary(end)
        invariant
            end <= index,
            boundary_floor(content.spec_bytes(), end as int) == boundary_floor(content.spec_bytes(), index as int),
        decreases end,
    {
        end -= 1;
    }
    proof {
        lemma_boundary_floor(content.spec_bytes(), index as int);
    }
    end
}

/// Byte length of the prefix of `value` that `push_bounded_text` copies onto an output of
/// `output_len` bytes: as much as fits under `limit`, shortened to a character boundary.
pub open spec fn bounded_copy_len(value: Seq<u8>, output_len: int, limit: int) -> int {
    let remaining = if limit >= output_len { limit - output_len } else { 0 };
    boundary_floor(value, if value.len() <= remaining { value.len() as int } else { remaining })
}

/// Length of `s` in UTF-8 bytes.
pub fn byte_len(s: &str) -> (len: usize)
    ensures
        len == s.spec_bytes().len(),
{
    s.as_bytes().len()
}

/// The copied prefix ends on a character boundary of `value`, and it never takes the output past
/// `limit` bytes (or, when the output was already longer, it adds nothing).
pub proof fn lemma_bounded_copy_fits(value: Seq<u8>, output_len: int, limit: int)
    requires
        vstd::utf8::valid_utf8(value),
        0 <= output_len,
        0 <= limit,
    ensures
        0 <= bounded_copy_len(value, output_len, limit) <= value.len(),
        is_char_boundary(value, bounded_copy_len(value, output_len, limit)),
        output_len <= limit ==> output_len + bounded_copy_len(value, output_len, limit) <= limit,
        output_len >= limit ==> bounded_copy_len(value, output_len, limit) == 0,
{
    let remaining = if limit >= output_len { limit - output_len } else { 0 };
    lemma_boundary_floor(value, if value.len() <= remaining { value.len() as int } else { remaining });
}

/// Appends the longest prefix of `value` that keeps `output` within `limit` UTF-8 bytes and ends
/// on a character boundary.
pub fn push_bounded_text(output: &mut String, value: &str, limit: usize)
    ensures
        final(output)@ == old(output)@ + decode_utf8(value.spec_bytes().subrange(
            0,
            bounded_copy_len(value.spec_bytes(), encode_utf8(old(output)@).len() as int, limit as int),
        )),
{
    let current = output.as_str();
    let output_len = byte_len(current);
    assert(current@ == output@);
    assert(current.spec_bytes() == encode_utf8(current@));
    assert(output_len == encode_utf8(output@).len());
    let remaining = limit.saturating_sub(output_len);
    if remaining == 0 {
        proof {
            assert(value.spec_bytes().subrange(0, 0) =~= Seq::<u8>::empty());
            assert(decode_utf8(Seq::<u8>::empty()) =~= Seq::<char>::empty()) by {
                reveal_with_fuel(decode_utf8, 1);
            }
            assert(output@ =~= old(output)@ + Seq::<char>::empty());
        }
        return;
    }
    let value_len = byte_len(value);
    let end = boundary_at_or_before(value, if value_len <= remaining { value_len } else { remaining });
    let (head, _) = value.split_at(end);
    proof {
        assert(head@ == decode_utf8(head.spec_bytes()));
    }
    output.append(head);
}

/// Byte offset just after the last newline before `offset`, or 0.
pub open spec fn line_start(bytes: Seq<u8>, offset: int) -> int
    decreases offset,
{
    if offset <= 0 {
        0
    } else if bytes[offset - 1] == 10 {
        offset
    } else {
        line_start(bytes, offset - 1)
    }
}

/// Byte offset just after the first newline at or after `offset`, or the length.
pub open spec fn line_end(bytes: Seq<u8>, offset: int) -> int
    decreases bytes.len() - offset,
{
    if offset >= bytes.len() {
        bytes.len() as int
    } else if bytes[offset] == 10 {
        offset + 1
    } else {
        line_end(bytes, offset + 1)
    }
}

/// The byte range of the line (with its terminating newline) around `offset`.
pub fn line_range_at(content: &str, offset: usize) -> (range: Range<usize>)
    ensures
        ({
            let bytes = content.spec_bytes();
            let at = boundary_floor(bytes, min_usize(offset, bytes.len() as usize) as int);
            range.start == line_start(bytes, at) && range.end == line_end(bytes, at)
        }),
{
    let bytes = content.as_bytes();
    let len = bytes.len();
    let offset = boundary_at_or_before(content, if offset <= len { offset } else { len });
    let mut start = offset;
    while start > 0 && bytes[start - 1] != 10
        invariant
            start <= offset,
            offset <= len,
            len == bytes@.len(),
            line_start(bytes@, start as int) == line_start(bytes@, offset as int),
        decreases start,
    {
        start -= 1;
    }
    let mut end = offset;
    while end < len && bytes[end] != 10
        invariant
            offset <= end <= len,
            len == bytes@.len(),
            line_end(bytes@, end as int) == line_end(bytes@, offset as int),
        decreases len - end,
    {
        end += 1;
    }
    let end = if end < len { end + 1 } else { len };
    start..end
}


/// A selection whose two ends lie in the same leaf covers, in that leaf, exactly the bytes from
/// the smaller end offset to the larger one (both clipped to the leaf's length), whichever end is
/// the anchor; it covers nothing in any other leaf.
pub proof fn lemma_single_leaf_selection_range(
    selection: StaticTextSelection,
    indices: Map<ElementId, usize>,
    document_index: usize,
    content_len: usize,
)
    requires
        indices.contains_key(selection.anchor.id),
        indices.contains_key(selection.focus.id),
        indices[selection.anchor.id] == indices[selection.focus.id],
    ensures
        ({
            let leaf = indices[selection.anchor.id];
            let (a, f) = (selection.anchor.offset, selection.focus.offset);
            let lo = if a <= f { a } else { f };
            let hi = if a <= f { f } else { a };
            let start = if lo <= content_len { lo } else { content_len };
            let end = if hi <= content_len { hi } else { content_len };
            &&& document_index != leaf ==> spec_range_for_entry(Some(selection), indices, document_index, content_len) is None
            &&& document_index == leaf ==> spec_range_for_entry(Some(selection), indices, document_index, content_len)
                == if start < end { Some((start, end)) } else { None::<(usize, usize)> }
        }),
{
}

} // verus!
