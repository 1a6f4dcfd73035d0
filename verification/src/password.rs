use vstd::prelude::*;
use vstd::string::StringSliceAdditionalSpecFns;
use crate::segments::{grapheme_indices, grapheme_segments, partitions};

verus! {

/// The mask glyph shown for each grapheme of a password.
pub open spec fn password_mask_char() -> char {
    '\u{2022}'
}

/// UTF-8 byte length of the mask glyph.
pub const PASSWORD_MASK_BYTES: usize = 3;

/// A display-only password projection: one mask glyph per grapheme of the real value, with the
/// source byte offset of every grapheme boundary for exact caret translation.
pub struct PasswordDisplay {
    pub content: String,
    pub source_boundaries: Vec<usize>,
}

/// The grapheme boundaries of a value: 0, then the end of each grapheme.
pub open spec fn boundaries_of(segments: Seq<(usize, usize)>) -> Seq<usize> {
    seq![0usize] + Seq::new(segments.len(), |i: int| (segments[i].0 + segments[i].1) as usize)
}

/// Number of leading boundaries at or before `index`.
pub open spec fn boundaries_at_or_before(bounds: Seq<usize>, index: usize) -> int
    decreases bounds.len(),
{
    if bounds.len() == 0 || bounds[0] > index {
        0
    } else {
        1 + boundaries_at_or_before(bounds.drop_first(), index)
    }
}

impl PasswordDisplay {
    /// One mask per boundary gap, boundaries strictly increasing from 0, and the masked text fits.
    pub open spec fn wf(&self) -> bool {
        &&& self.source_boundaries.len() >= 1
        &&& self.source_boundaries[0] == 0
        &&& forall|i: int, j: int| 0 <= i < j < self.source_boundaries.len()
            ==> self.source_boundaries[i] < self.source_boundaries[j]
        &&& self.content@ == Seq::new((self.source_boundaries.len() - 1) as nat, |i: int| password_mask_char())
        &&& self.source_boundaries.len() * PASSWORD_MASK_BYTES <= usize::MAX
    }

    /// Masks `source`: one glyph per extended grapheme cluster.
    pub fn new(source: &str) -> (display: PasswordDisplay)
        requires
            (source.spec_bytes().len() + 1) * PASSWORD_MASK_BYTES <= usize::MAX,
        ensures
            display.wf(),
            display.source_boundaries@ == boundaries_of(grapheme_segments(source@)),
    {
        let segments = grapheme_indices(source);
        PasswordDisplay::from_graphemes(source, &segments)
    }

    /// Masks `source`, whose extended grapheme clusters are `segments`: one glyph per cluster.
    pub fn from_graphemes(source: &str, segments: &Vec<(usize, usize)>) -> (display: PasswordDisplay)
        requires
            partitions(segments@, source.spec_bytes()),
            (source.spec_bytes().len() + 1) * PASSWORD_MASK_BYTES <= usize::MAX,
        ensures
            display.wf(),
            display.source_boundaries@ == boundaries_of(segments@),
    {
        let ghost bytes = source.spec_bytes();
        let mut masked = String::new();
        let mut source_boundaries: Vec<usize> = Vec::new();
        source_boundaries.push(0);
        proof {
            reveal_strlit("\u{2022}");
        }
        let mut i: usize = 0;
        while i < segments.len()
            invariant
                i <= segments.len(),
                partitions(segments@, bytes),
                bytes == source.spec_bytes(),
                (bytes.len() + 1) * PASSWORD_MASK_BYTES <= usize::MAX,
                source_boundaries@ == boundaries_of(segments@.take(i as int)),
                masked@ == Seq::new(i as nat, |k: int| password_mask_char()),
                source_boundaries.len() == i + 1,
                i > 0 ==> source_boundaries@.last() == segments@[i - 1].0 + segments@[i - 1].1,
                i < segments.len() ==> source_boundaries@.last() == segments@[i as int].0,
                forall|a: int, b: int| 0 <= a < b < source_boundaries.len() ==> source_boundaries[a] < source_boundaries[b],
                forall|a: int| 0 <= a < source_boundaries.len() ==> a <= #[trigger] source_boundaries[a] <= bytes.len(),
            decreases segments.len() - i,
        {
            let (start, length) = segments[i];
            proof {
                assert(start + length <= bytes.len()) by {
                    lemma_segment_end_bounded(segments@, bytes, i as int);
                }
            }
            proof {
                reveal_strlit("\u{2022}");
            }
            masked.append("\u{2022}");
            let end = start + length;
            source_boundaries.push(end);
            proof {
                assert(segments@.take(i + 1) == segments@.take(i as int).push(segments@[i as int]));
                assert(boundaries_of(segments@.take(i + 1)) == boundaries_of(segments@.take(i as int)).push(end));
                assert(masked@ =~= Seq::new((i + 1) as nat, |k: int| password_mask_char()));
            }
            i += 1;
        }
        proof {
            assert(segments@.take(segments.len() as int) == segments@);
        }
        PasswordDisplay { content: masked, source_boundaries }
    }
}

/// Grapheme `k` of the display holds source byte `index`: its boundary is at or before the
/// index, and the next boundary (if any) is after it.
pub open spec fn holds_index(bounds: Seq<usize>, k: int, index: usize) -> bool {
    &&& 0 <= k < bounds.len()
    &&& bounds[k] <= index
    &&& (k + 1 >= bounds.len() || index < bounds[k + 1])
}

/// The source byte offset of the grapheme boundary shown at display byte offset `display_index`
/// (clamped to the last boundary).
pub open spec fn spec_source_index(bounds: Seq<usize>, display_index: usize) -> usize {
    let grapheme = display_index / PASSWORD_MASK_BYTES;
    if grapheme < bounds.len() - 1 { bounds[grapheme as int] } else { bounds[bounds.len() - 1] }
}

impl PasswordDisplay {
    /// Display byte offset of the mask glyph that holds source byte `source_index`.
    pub fn display_index(&self, source_index: usize) -> (index: usize)
        requires
            self.wf(),
        ensures
            exists|k: int| holds_index(self.source_boundaries@, k, source_index) && index == k * PASSWORD_MASK_BYTES,
            index == (boundaries_at_or_before(self.source_boundaries@, source_index) - 1) * PASSWORD_MASK_BYTES,
    {
        let bounds = &self.source_boundaries;
        let mut count: usize = 1;
        while count < bounds.len() && bounds[count] <= source_index
            invariant
                self.wf(),
                *bounds == self.source_boundaries,
                1 <= count <= bounds.len(),
                bounds[count - 1] <= source_index,
            decreases bounds.len() - count,
        {
            count += 1;
        }
        let k = count - 1;
        proof {
            assert(holds_index(self.source_boundaries@, k as int, source_index));
            lemma_boundaries_before_count(self.source_boundaries@, k as int, source_index);
            assert(k * PASSWORD_MASK_BYTES <= self.source_boundaries.len() * PASSWORD_MASK_BYTES) by (nonlinear_arith)
                requires k < self.source_boundaries.len();
        }
        k * PASSWORD_MASK_BYTES
    }

    /// Source byte offset of the grapheme boundary at display byte offset `display_index`.
    pub fn source_index(&self, display_index: usize) -> (index: usize)
        requires
            self.wf(),
        ensures
            index == spec_source_index(self.source_boundaries@, display_index),
    {
        let last = self.source_boundaries.len() - 1;
        let grapheme = display_index / PASSWORD_MASK_BYTES;
        let grapheme = if grapheme < last { grapheme } else { last };
        self.source_boundaries[grapheme]
    }
}

/// Round trip through the display: the source offset recovered from the display offset of source
/// byte `x` is the start of the grapheme that holds `x`.
pub proof fn lemma_password_round_trip(display: PasswordDisplay, x: usize, k: int)
    requires
        display.wf(),
        holds_index(display.source_boundaries@, k, x),
    ensures
        spec_source_index(display.source_boundaries@, (k * PASSWORD_MASK_BYTES) as usize)
            == display.source_boundaries@[k],
        display.source_boundaries@[k] <= x,
{
    assert((k * 3) / 3 == k) by (nonlinear_arith);
    assert(k * 3 <= usize::MAX) by (nonlinear_arith)
        requires
            k < display.source_boundaries.len(),
            display.source_boundaries.len() * 3 <= usize::MAX;
}

/// The grapheme that holds source byte `x` is preceded by as many boundaries as lie at or before
/// `x`, less its own start: the number of graphemes that end at or before `x`.
pub proof fn lemma_boundaries_before_count(bounds: Seq<usize>, k: int, x: usize)
    requires
        forall|i: int, j: int| 0 <= i < j < bounds.len() ==> bounds[i] < bounds[j],
        holds_index(bounds, k, x),
    ensures
        boundaries_at_or_before(bounds, x) == k + 1,
    decreases bounds.len(),
{
    let rest = bounds.drop_first();
    if k == 0 {
        assert(bounds[0] <= x);
        if rest.len() > 0 {
            assert(rest[0] == bounds[1]);
        }
        assert(boundaries_at_or_before(rest, x) == 0);
    } else {
        assert(bounds[0] < bounds[k]);
        assert(holds_index(rest, k - 1, x)) by {
            assert(rest[k - 1] == bounds[k]);
            if k < rest.len() {
                assert(rest[k] == bounds[k + 1]);
            }
        }
        assert forall|i: int, j: int| 0 <= i < j < rest.len() implies rest[i] < rest[j] by {
            assert(rest[i] == bounds[i + 1] && rest[j] == bounds[j + 1]);
        }
        lemma_boundaries_before_count(rest, k - 1, x);
    }
}

/// The display offset of source byte `x` is three bytes (one mask glyph) per grapheme that ends
/// at or before `x`, and the display offset of a grapheme boundary leads back to that boundary.
pub proof fn lemma_password_offsets(display: PasswordDisplay, x: usize, k: int)
    requires
        display.wf(),
        holds_index(display.source_boundaries@, k, x),
    ensures
        k * PASSWORD_MASK_BYTES == (boundaries_at_or_before(display.source_boundaries@, x) - 1) * PASSWORD_MASK_BYTES,
        x == display.source_boundaries@[k]
            ==> spec_source_index(display.source_boundaries@, (k * PASSWORD_MASK_BYTES) as usize) == x,
{
    lemma_boundaries_before_count(display.source_boundaries@, k, x);
    lemma_password_round_trip(display, x, k);
}

/// Any source byte lies in exactly one grapheme of the display.
pub proof fn lemma_holds_index_unique(bounds: Seq<usize>, a: int, b: int, x: usize)
    requires
        forall|i: int, j: int| 0 <= i < j < bounds.len() ==> bounds[i] < bounds[j],
        holds_index(bounds, a, x),
        holds_index(bounds, b, x),
    ensures
        a == b,
{
    if a < b {
        assert(bounds[a + 1] <= bounds[b]);
    } else if b < a {
        assert(bounds[b + 1] <= bounds[a]);
    }
}

proof fn lemma_segment_end_bounded(segments: Seq<(usize, usize)>, bytes: Seq<u8>, i: int)
    requires
        partitions(segments, bytes),
        0 <= i < segments.len(),
    ensures
        segments[i].0 + segments[i].1 <= bytes.len(),
        i + 1 < segments.len() ==> segments[i].0 + segments[i].1 < segments[i + 1].0 + segments[i + 1].1,
    decreases segments.len() - i,
{
    if i + 1 < segments.len() {
        lemma_segment_end_bounded(segments, bytes, i + 1);
        assert(segments[i + 1].0 == segments[i].0 + segments[i].1);
    }
}

} // verus!
