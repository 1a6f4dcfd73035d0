use vstd::prelude::*;
use std::ops::Range;
use vstd::string::{StringSliceAdditionalSpecFns, StrSliceExecFns};
use vstd::utf8::{is_char_boundary, decode_utf8, valid_utf8};
use crate::segments::{word_bound_indices, word_bound_segments, partitions, char_is_alphanumeric, is_alphanumeric};
use crate::selection::{boundary_floor, boundary_at_or_before, byte_len, min_usize, lemma_boundary_floor};

verus! {

broadcast use {
    vstd::utf8::encode_utf8_valid_utf8,
    vstd::utf8::encode_utf8_decode_utf8,
    vstd::utf8::valid_utf8_split,
    vstd::utf8::is_char_boundary_start_end_of_seq,
    vstd::utf8::is_char_boundary_iff_not_is_continuation_byte,
};

/// A character that makes a word selectable: alphanumeric or the underscore.
pub open spec fn is_word_char(c: char) -> bool {
    char_is_alphanumeric(c) || c == '_'
}

/// Whether a word-boundary piece holds a word character (so double-click selects it as a word).
pub open spec fn spec_segment_is_selectable_word(segment: Seq<char>) -> bool {
    exists|k: int| 0 <= k < segment.len() && is_word_char(#[trigger] segment[k])
}

/// Whether a word-boundary piece holds a word character.
pub fn segment_is_selectable_word(segment: &str) -> (selectable: bool)
    ensures
        selectable == spec_segment_is_selectable_word(segment@),
{
    let n = segment.unicode_len();
    let mut i: usize = 0;
    while i < n
        invariant
            i <= n,
            n == segment@.len(),
            forall|k: int| 0 <= k < i ==> !is_word_char(#[trigger] segment@[k]),
        decreases n - i,
    {
        let c = segment.get_char(i);
        if is_alphanumeric(c) || c == '_' {
            assert(is_word_char(segment@[i as int]));
            return true;
        }
        i += 1;
    }
    false
}

proof fn lemma_boundary_in_prefix(bytes: Seq<u8>, end: int, start: int)
    requires
        valid_utf8(bytes),
        is_char_boundary(bytes, end),
        is_char_boundary(bytes, start),
        0 <= start <= end <= bytes.len(),
    ensures
        is_char_boundary(bytes.subrange(0, end), start),
{
    let prefix = bytes.subrange(0, end);
    assert(valid_utf8(prefix));
    if start < end {
        assert(prefix[start] == bytes[start]);
        assert(is_char_boundary(prefix, start) <==> !vstd::utf8::is_continuation_byte(prefix[start]));
    } else {
        assert(is_char_boundary(prefix, prefix.len() as int));
    }
}

/// The text of the byte range `start..end` of `content`, which must start and end on character
/// boundaries.
pub(crate) fn slice_between<'a>(content: &'a str, start: usize, end: usize) -> (piece: &'a str)
    requires
        start <= end <= content.spec_bytes().len(),
        is_char_boundary(content.spec_bytes(), start as int),
        is_char_boundary(content.spec_bytes(), end as int),
    ensures
        piece@ == decode_utf8(content.spec_bytes().subrange(start as int, end as int)),
        piece.spec_bytes() == content.spec_bytes().subrange(start as int, end as int),
{
    let ghost bytes = content.spec_bytes();
    let (head, _) = content.split_at(end);
    proof {
        lemma_boundary_in_prefix(bytes, end as int, start as int);
    }
    let (_, piece) = head.split_at(start);
    proof {
        assert(head.spec_bytes() == bytes.subrange(0, end as int));
        assert(piece.spec_bytes() =~= bytes.subrange(start as int, end as int));
        assert(piece@ == decode_utf8(piece.spec_bytes()));
    }
    piece
}

/// Whether word-boundary piece `i` of `bytes` holds a word character.
pub open spec fn piece_is_word(bytes: Seq<u8>, segments: Seq<(usize, usize)>, i: int) -> bool {
    spec_segment_is_selectable_word(decode_utf8(bytes.subrange(segments[i].0 as int, segments[i].0 + segments[i].1)))
}

pub open spec fn piece_end(segments: Seq<(usize, usize)>, i: int) -> int {
    segments[i].0 + segments[i].1
}

/// The piece a caret at `at` belongs to: the first piece ending after it (a caret at the very end
/// belongs to the last piece).
pub open spec fn caret_piece(segments: Seq<(usize, usize)>, len: int, at: int, i: int) -> bool {
    at < piece_end(segments, i) || (at == len && piece_end(segments, i) == len)
}

/// The byte range a double click at `offset` selects: the word pieces around the caret's piece
/// merged into one word, or that piece alone when it holds no word character.
pub open spec fn word_range_spec(bytes: Seq<u8>, segments: Seq<(usize, usize)>, offset: usize, result: (usize, usize)) -> bool {
    let len = bytes.len() as int;
    let at = boundary_floor(bytes, min_usize(offset, len as usize) as int);
    if len == 0 {
        result == (0usize, 0usize)
    } else {
        exists|target: int, lo: int, hi: int| {
            &&& 0 <= lo <= target <= hi < segments.len()
            &&& (caret_piece(segments, len, at, target) && forall|j: int| 0 <= j < target ==> !#[trigger] caret_piece(segments, len, at, j))
            &&& if piece_is_word(bytes, segments, target) {
                &&& forall|j: int| lo <= j <= hi ==> #[trigger] piece_is_word(bytes, segments, j)
                &&& (lo == 0 || !piece_is_word(bytes, segments, lo - 1))
                &&& (hi == segments.len() - 1 || !piece_is_word(bytes, segments, hi + 1))
            } else {
                lo == target && hi == target
            }
            &&& result == (segments[lo].0, piece_end(segments, hi) as usize)
        }
    }
}

proof fn lemma_piece_bounds(segments: Seq<(usize, usize)>, bytes: Seq<u8>, i: int)
    requires
        partitions(segments, bytes),
        0 <= i < segments.len(),
    ensures
        segments[i].0 + segments[i].1 <= bytes.len(),
        forall|j: int| i < j < segments.len() ==> piece_end(segments, i) < piece_end(segments, j),
        forall|j: int| i < j < segments.len() ==> piece_end(segments, i) <= #[trigger] segments[j].0,
    decreases segments.len() - i,
{
    if i + 1 < segments.len() {
        lemma_piece_bounds(segments, bytes, i + 1);
        assert(segments[i + 1].0 == segments[i].0 + segments[i].1);
    }
}

fn caret_in(segments: &Vec<(usize, usize)>, i: usize, at: usize, len: usize) -> (holds: bool)
    requires
        i < segments.len(),
        segments@[i as int].0 + segments@[i as int].1 <= len,
    ensures
        holds == caret_piece(segments@, len as int, at as int, i as int),
{
    let (start, length) = segments[i];
    let end = start + length;
    at < end || (at == len && end == len)
}

/// The byte range selected by a double click at byte `offset` of `content`.
pub fn word_range_at(content: &str, offset: usize) -> (range: Range<usize>)
    ensures
        word_range_spec(content.spec_bytes(), word_bound_segments(content@), offset, (range.start, range.end)),
{
    let segments = word_bound_indices(content);
    word_range_in_pieces(content, &segments, offset)
}

/// The byte range selected by a double click at byte `offset` of `content`, whose word-boundary
/// pieces are `segments`.
pub fn word_range_in_pieces(content: &str, segments: &Vec<(usize, usize)>, offset: usize) -> (range: Range<usize>)
    requires
        partitions(segments@, content.spec_bytes()),
    ensures
        word_range_spec(content.spec_bytes(), segments@, offset, (range.start, range.end)),
{
    let ghost bytes = content.spec_bytes();
    let len = byte_len(content);
    assert(len as int == bytes.len() && len == content.spec_bytes().len() as usize);
    if len == 0 {
        return 0..0;
    }
    let at = boundary_at_or_before(content, if offset <= len { offset } else { len });
    proof {
        lemma_boundary_floor(bytes, min_usize(offset, len) as int);
    }
    let ghost segs = segments@;
    let ghost ilen = len as int;
    proof {
        lemma_piece_bounds(segs, bytes, segs.len() - 1);
        assert(caret_piece(segs, ilen, at as int, segs.len() - 1));
    }
    let mut target: usize = 0;
    proof {
        lemma_piece_bounds(segs, bytes, 0);
    }
    while target + 1 < segments.len() && !caret_in(segments, target, at, len)
        invariant
            target < segments.len(),
            segs == segments@,
            partitions(segs, bytes),
            bytes == content.spec_bytes(),
            len == bytes.len(),
            ilen == len as int,
            at <= len,
            caret_piece(segs, ilen, at as int, segs.len() - 1),
            forall|j: int| 0 <= j < target ==> !#[trigger] caret_piece(segs, ilen, at as int, j),
        decreases segments.len() - target,
    {
        target += 1;
        proof {
            lemma_piece_bounds(segs, bytes, target as int);
        }
    }
    proof {
        lemma_piece_bounds(segs, bytes, target as int);
    }
    let (first_start, first_length) = segments[target];
    let mut start = first_start;
    let mut end = first_start + first_length;
    let mut lo = target;
    let mut hi = target;
    let selectable = segment_is_selectable_word(slice_between(content, first_start, end));
    if selectable {
        let mut stop = false;
        while lo > 0 && !stop
            invariant
                lo <= target < segments.len(),
                segs == segments@,
                bytes == content.spec_bytes(),
                bytes.len() <= usize::MAX,
                partitions(segs, bytes),
                start == segs[lo as int].0,
                forall|j: int| lo <= j <= target ==> #[trigger] piece_is_word(bytes, segs, j),
                stop ==> lo > 0 && !piece_is_word(bytes, segs, lo - 1),
            decreases lo + (if stop { 0int } else { 1int }),
        {
            let (previous_start, previous_length) = segments[lo - 1];
            proof {
                lemma_piece_bounds(segs, bytes, lo - 1);
                let k = lo - 1;
                assert(segs[k + 1].0 == segs[k].0 + segs[k].1);
            }
            let previous_end = previous_start + previous_length;
            if previous_end != start
                || !segment_is_selectable_word(slice_between(content, previous_start, previous_end)) {
                stop = true;
            } else {
                start = previous_start;
                lo -= 1;
            }
        }
        let mut stop = false;
        while hi + 1 < segments.len() && !stop
            invariant
                target <= hi < segments.len(),
                segs == segments@,
                bytes == content.spec_bytes(),
                bytes.len() <= usize::MAX,
                partitions(segs, bytes),
                end == piece_end(segs, hi as int),
                forall|j: int| target <= j <= hi ==> #[trigger] piece_is_word(bytes, segs, j),
                stop ==> hi + 1 < segments.len() && !piece_is_word(bytes, segs, hi + 1),
            decreases segments.len() - hi + (if stop { 0int } else { 1int }),
        {
            let (next_start, next_length) = segments[hi + 1];
            proof {
                lemma_piece_bounds(segs, bytes, hi + 1);
                let k = hi as int;
                assert(segs[k + 1].0 == segs[k].0 + segs[k].1);
            }
            let next_end = next_start + next_length;
            if next_start != end || !segment_is_selectable_word(slice_between(content, next_start, next_end)) {
                stop = true;
            } else {
                end = next_end;
                hi += 1;
            }
        }
    }
    proof {
        let t = target as int;
        assert(word_range_spec(bytes, segs, offset, (start, end))) by {
            assert(0 <= lo <= t <= hi < segs.len());
        }
    }
    start..end
}

} // verus!
