use vstd::prelude::*;
use unicode_segmentation::UnicodeSegmentation;
use vstd::string::StringSliceAdditionalSpecFns;
use vstd::utf8::is_char_boundary;

verus! {

/// `segments` (start byte, byte length) cut `bytes` into consecutive non-empty pieces, each
/// starting and ending on a character boundary.
pub open spec fn partitions(segments: Seq<(usize, usize)>, bytes: Seq<u8>) -> bool {
    &&& (segments.len() == 0 <==> bytes.len() == 0)
    &&& (segments.len() > 0 ==> segments[0].0 == 0)
    &&& forall|i: int| 0 <= i < segments.len() ==> (#[trigger] segments[i]).1 > 0
    &&& forall|i: int| 0 <= i < segments.len() - 1 ==> (#[trigger] segments[i + 1]).0 == segments[i].0 + segments[i].1
    &&& (segments.len() > 0 ==> segments.last().0 + segments.last().1 == bytes.len())
    &&& forall|i: int| 0 <= i < segments.len() ==> is_char_boundary(bytes, (#[trigger] segments[i]).0 as int)
    &&& forall|i: int| 0 <= i < segments.len() ==> is_char_boundary(bytes, (#[trigger] segments[i]).0 + segments[i].1)
}

/// Extended grapheme clusters of a string (UAX #29), as (start byte, byte length).
pub uninterp spec fn grapheme_segments(s: Seq<char>) -> Seq<(usize, usize)>;

/// Pieces of a string between UAX #29 word boundaries, as (start byte, byte length).
pub uninterp spec fn word_bound_segments(s: Seq<char>) -> Seq<(usize, usize)>;

/// Whether a character is alphabetic or numeric in the Unicode sense.
pub uninterp spec fn char_is_alphanumeric(c: char) -> bool;

/// `UnicodeSegmentation::grapheme_indices(content, true)`: the extended grapheme clusters of
/// `content` in order, each as its start offset and byte length. Stated: they are the named
/// segmentation of the string and cut it into consecutive non-empty pieces on character
/// boundaries, as the crate's documentation and iterator source show. Which cuts UAX #29 makes is
/// left unsaid.
#[verifier::external_body]
pub(crate) fn grapheme_indices(content: &str) -> (segments: Vec<(usize, usize)>)
    ensures
        segments@ == grapheme_segments(content@),
        partitions(segments@, content.spec_bytes()),
{
    content.grapheme_indices(true).map(|(start, grapheme)| (start, grapheme.len())).collect()
}

/// `UnicodeSegmentation::split_word_bound_indices(content)`: the pieces of `content` between
/// UAX #29 word boundaries, each as its start offset and byte length. Stated: they are the named
/// segmentation and, as the crate documents ("the concatenation of the substrings ... is just the
/// original string"), cut the string into consecutive non-empty pieces on character boundaries.
/// Which cuts UAX #29 makes is left unsaid.
#[verifier::external_body]
pub(crate) fn word_bound_indices(content: &str) -> (segments: Vec<(usize, usize)>)
    ensures
        segments@ == word_bound_segments(content@),
        partitions(segments@, content.spec_bytes()),
{
    content.split_word_bound_indices().map(|(start, segment)| (start, segment.len())).collect()
}

/// `char::is_alphanumeric`: whether the character is alphabetic or numeric; which characters
/// Unicode classes so is left unsaid.
#[verifier::external_body]
pub(crate) fn is_alphanumeric(c: char) -> (alphanumeric: bool)
    ensures
        alphanumeric == char_is_alphanumeric(c),
{
    c.is_alphanumeric()
}

} // verus!
