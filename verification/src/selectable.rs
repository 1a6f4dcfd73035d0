use vstd::prelude::*;
use std::collections::HashMap;
use vstd::string::StringSliceAdditionalSpecFns;
use vstd::utf8::encode_utf8;
use crate::element::{Element, ElementId, preorder, forest, keep_shown};
use crate::semantics::{selectable_text_content, spec_selectable_text_content};
use crate::selection::{
    StaticTextPosition, StaticTextSelection, StaticTextSelectionUnit, boundary_floor, boundary_at_or_before,
    byte_len, line_range_at, line_start, line_end, min_usize,
};
use crate::words::{slice_between, word_range_at, word_range_spec};
use crate::selection::{bounded_copy_len, push_bounded_text, spec_normalized, normalized_static_selection, lemma_boundary_floor};
use vstd::utf8::{decode_utf8, is_char_boundary};
use crate::segments::word_bound_segments;
use crate::traverse::lemma_forest_zero;

verus! {

broadcast use {vstd::std_specs::vec::group_vec_axioms, vstd::std_specs::hash::group_hash_axioms};

/// One selectable text leaf, in document order.
#[derive(Debug)]
pub struct SelectableTextEntry {
    pub id: ElementId,
    pub content: String,
}

/// Registers the selectable leaves of `s`: each is appended as the next entry and its id is
/// mapped to its document index (a later leaf with the same id takes the mapping).
pub open spec fn register_selectable(
    entries: Seq<(ElementId, Seq<char>)>,
    indices: Map<ElementId, usize>,
    s: Seq<Element>,
) -> (Seq<(ElementId, Seq<char>)>, Map<ElementId, usize>)
    decreases s.len(),
{
    if s.len() == 0 {
        (entries, indices)
    } else {
        let (es, ix) = register_selectable(entries, indices, s.drop_last());
        match spec_selectable_text_content(s.last()) {
            Some(content) => (es.push((s.last().runtime_id, content@)), ix.insert(s.last().runtime_id, es.len() as usize)),
            None => (es, ix),
        }
    }
}

proof fn lemma_register_selectable_concat(
    entries: Seq<(ElementId, Seq<char>)>,
    indices: Map<ElementId, usize>,
    a: Seq<Element>,
    b: Seq<Element>,
)
    ensures
        register_selectable(entries, indices, a + b) == register_selectable(
            register_selectable(entries, indices, a).0, register_selectable(entries, indices, a).1, b),
    decreases b.len(),
{
    if b.len() == 0 {
        assert(a + b == a);
    } else {
        lemma_register_selectable_concat(entries, indices, a, b.drop_last());
        assert((a + b).drop_last() == a + b.drop_last());
        assert((a + b).last() == b.last());
    }
}

/// Registering leaves keeps every mapped index inside the entry list.
pub proof fn lemma_register_selectable_in_bounds(
    entries: Seq<(ElementId, Seq<char>)>,
    indices: Map<ElementId, usize>,
    s: Seq<Element>,
)
    requires
        indices_in_bounds(indices, entries.len()),
        register_selectable(entries, indices, s).0.len() <= usize::MAX,
    ensures
        indices_in_bounds(register_selectable(entries, indices, s).1, register_selectable(entries, indices, s).0.len()),
    decreases s.len(),
{
    if s.len() > 0 {
        lemma_register_selectable_in_bounds(entries, indices, s.drop_last());
    }
}

pub open spec fn entries_view(entries: Seq<SelectableTextEntry>) -> Seq<(ElementId, Seq<char>)> {
    entries.map_values(|e: SelectableTextEntry| (e.id, e.content@))
}

/// Collects the selectable text leaves of the shown subtree in document order.
pub fn collect_selectable_texts(
    element: &Element,
    entries: &mut Vec<SelectableTextEntry>,
    indices: &mut HashMap<ElementId, usize>,
)
    ensures
        (entries_view(final(entries)@), final(indices)@)
            == register_selectable(entries_view(old(entries)@), old(indices)@, preorder(*element, keep_shown())),
    decreases element,
{
    let ghost keep = keep_shown();
    if element.display_none || element.visibility_hidden {
        return;
    }
    let ghost before = (entries_view(entries@), indices@);
    if let Some(content) = selectable_text_content(element) {
        let document_index = entries.len();
        entries.push(SelectableTextEntry { id: element.runtime_id, content: content.clone() });
        indices.insert(element.runtime_id, document_index);
        proof {
            assert(entries_view(entries@) =~= before.0.push((element.runtime_id, content@)));
        }
    }
    proof {
        lemma_forest_zero(*element, keep);
        assert(seq![*element] + forest(*element, 0, keep) == seq![*element]);
        assert(seq![*element].drop_last() == Seq::<Element>::empty());
        assert(seq![*element].last() == *element);
        assert(register_selectable(before.0, before.1, Seq::<Element>::empty()) == before);
    }
    let mut i: usize = 0;
    while i < element.children.len()
        invariant
            i <= element.children.len(),
            keep == keep_shown(),
            (entries_view(entries@), indices@)
                == register_selectable(entries_view(old(entries)@), old(indices)@, seq![*element] + forest(*element, i as int, keep)),
        decreases element.children.len() - i,
    {
        let ghost prev = seq![*element] + forest(*element, i as int, keep);
        let ghost sub = preorder(element.children[i as int], keep);
        collect_selectable_texts(&element.children[i], entries, indices);
        proof {
            assert(forest(*element, i + 1, keep) == forest(*element, i as int, keep) + sub);
            assert(prev + sub == seq![*element] + forest(*element, i + 1, keep));
            lemma_register_selectable_concat(entries_view(old(entries)@), old(indices)@, prev, sub);
        }
        i += 1;
    }
    assert(preorder(*element, keep) == seq![*element] + forest(*element, element.children.len() as int, keep));
}

/// Every mapped document index names an entry.
pub open spec fn indices_in_bounds(indices: Map<ElementId, usize>, len: nat) -> bool {
    forall|id: ElementId| indices.contains_key(id) ==> #[trigger] indices[id] < len
}

/// The position clamped into its leaf and moved back to a character boundary.
pub open spec fn clamp_position(position: StaticTextPosition, content: Seq<u8>) -> StaticTextPosition {
    StaticTextPosition {
        id: position.id,
        offset: boundary_floor(content, min_usize(position.offset, content.len() as usize) as int) as usize,
    }
}

/// Keeps a selection valid across a view change: dropped when either end's leaf is gone, else
/// both offsets clamped to their leaves and moved back to character boundaries.
pub open spec fn spec_sync_selection(
    selection: Option<StaticTextSelection>,
    entries: Seq<SelectableTextEntry>,
    indices: Map<ElementId, usize>,
) -> Option<StaticTextSelection> {
    match selection {
        None => None,
        Some(current) => if !indices.contains_key(current.anchor.id) || !indices.contains_key(current.focus.id) {
            None
        } else {
            Some(StaticTextSelection {
                anchor: clamp_position(current.anchor, encode_utf8(entries[indices[current.anchor.id] as int].content@)),
                focus: clamp_position(current.focus, encode_utf8(entries[indices[current.focus.id] as int].content@)),
            })
        },
    }
}

fn clamp_to_entry(position: StaticTextPosition, content: &String) -> (clamped: StaticTextPosition)
    ensures
        clamped == clamp_position(position, encode_utf8(content@)),
{
    let text = content.as_str();
    let len = byte_len(text);
    let offset = if position.offset <= len { position.offset } else { len };
    StaticTextPosition { id: position.id, offset: boundary_at_or_before(text, offset) }
}

/// Revalidates the immutable-text selection against the newly collected leaves.
pub fn sync_static_text_selection(
    selection: &mut Option<StaticTextSelection>,
    entries: &Vec<SelectableTextEntry>,
    indices: &HashMap<ElementId, usize>,
)
    requires
        indices_in_bounds(indices@, entries.len() as nat),
    ensures
        *final(selection) == spec_sync_selection(*old(selection), entries@, indices@),
{
    let current = match *selection {
        Some(current) => current,
        None => return,
    };
    let anchor_index = match indices.get(&current.anchor.id) {
        Some(index) => *index,
        None => {
            *selection = None;
            return;
        },
    };
    let focus_index = match indices.get(&current.focus.id) {
        Some(index) => *index,
        None => {
            *selection = None;
            return;
        },
    };
    let anchor = clamp_to_entry(current.anchor, &entries[anchor_index].content);
    let focus = clamp_to_entry(current.focus, &entries[focus_index].content);
    *selection = Some(StaticTextSelection { anchor, focus });
}

/// The range a selection gesture of `unit` grabs around `position`: the caret itself, the
/// double-clicked word, or the triple-clicked line (with its newline).
pub open spec fn unit_range_ok(
    position: StaticTextPosition,
    unit: StaticTextSelectionUnit,
    content: Seq<char>,
    range: (StaticTextPosition, StaticTextPosition),
) -> bool {
    let bytes = encode_utf8(content);
    &&& range.0.id == position.id
    &&& range.1.id == position.id
    &&& match unit {
        StaticTextSelectionUnit::Character => range.0.offset == position.offset && range.1.offset == position.offset,
        StaticTextSelectionUnit::Word => word_range_spec(bytes, word_bound_segments(content), position.offset,
            (range.0.offset, range.1.offset)),
        StaticTextSelectionUnit::Line => {
            let at = boundary_floor(bytes, min_usize(position.offset, bytes.len() as usize) as int);
            range.0.offset == line_start(bytes, at) && range.1.offset == line_end(bytes, at)
        },
    }
}

/// Expands a caret to the unit a click gesture selects; `None` when its leaf is gone.
pub fn static_selection_unit_range(
    position: StaticTextPosition,
    unit: StaticTextSelectionUnit,
    entries: &Vec<SelectableTextEntry>,
    indices: &HashMap<ElementId, usize>,
) -> (range: Option<(StaticTextPosition, StaticTextPosition)>)
    ensures
        match range {
            None => !indices@.contains_key(position.id) || indices@[position.id] >= entries.len(),
            Some(r) => indices@.contains_key(position.id) && indices@[position.id] < entries.len()
                && unit_range_ok(position, unit, entries[indices@[position.id] as int].content@, r),
        },
{
    let document_index = match indices.get(&position.id) {
        Some(index) => *index,
        None => return None,
    };
    if document_index >= entries.len() {
        return None;
    }
    let content = entries[document_index].content.as_str();
    let (start, end) = match unit {
        StaticTextSelectionUnit::Character => (position.offset, position.offset),
        StaticTextSelectionUnit::Word => {
            let r = word_range_at(content, position.offset);
            (r.start, r.end)
        },
        StaticTextSelectionUnit::Line => {
            let r = line_range_at(content, position.offset);
            (r.start, r.end)
        },
    };
    Some((StaticTextPosition { id: position.id, offset: start }, StaticTextPosition { id: position.id, offset: end }))
}

/// The bytes between two copied leaves: a newline when a line break separates them, else a space.
pub open spec fn separator_bytes(line_break: bool) -> Seq<u8> {
    if line_break { encode_utf8("\n"@) } else { encode_utf8(" "@) }
}

/// `out` after appending as much of `value` as keeps it within `limit` bytes, on a boundary.
pub open spec fn pushed(out: Seq<char>, value: Seq<u8>, limit: usize) -> Seq<char> {
    out + decode_utf8(value.subrange(0, bounded_copy_len(value, encode_utf8(out).len() as int, limit as int)))
}

pub open spec fn min_int(a: int, b: int) -> int {
    if a <= b { a } else { b }
}

/// The byte range of leaf `d` (of `len` bytes) that a selection from `start` to `end` covers.
pub open spec fn leaf_range(len: int, d: int, start: (usize, usize), end: (usize, usize)) -> (int, int) {
    if start.0 == end.0 {
        (min_int(start.1 as int, len), min_int(end.1 as int, len))
    } else if d == start.0 {
        (min_int(start.1 as int, len), len)
    } else if d == end.0 {
        (0, min_int(end.1 as int, len))
    } else {
        (0, len)
    }
}

/// The copied text after the first `n` leaves from `start.0` on: each leaf's covered range,
/// separated from the previous one, all within `limit` bytes; copying stops once the text is
/// full, and fails at a missing leaf.
pub open spec fn copied(
    entries: Seq<(ElementId, Seq<char>)>,
    start: (usize, usize),
    end: (usize, usize),
    breaks: Seq<bool>,
    limit: usize,
    n: nat,
) -> Option<Seq<char>>
    decreases n,
{
    if n == 0 {
        Some(Seq::empty())
    } else {
        match copied(entries, start, end, breaks, limit, (n - 1) as nat) {
            None => None,
            Some(out) => if n > 1 && encode_utf8(out).len() == limit {
                Some(out)
            } else {
                let d = start.0 + n - 1;
                if d >= entries.len() {
                    None
                } else {
                    let bytes = encode_utf8(entries[d].1);
                    let (from, to) = leaf_range(bytes.len() as int, d, start, end);
                    let with_separator = if d > start.0 { pushed(out, separator_bytes(breaks[d]), limit) } else { out };
                    Some(pushed(with_separator, bytes.subrange(from, to), limit))
                }
            },
        }
    }
}

/// The text a copy of the immutable-text selection yields: the selected part of every leaf from
/// the selection's start to its end in document order, `breaks[d]` telling whether leaf `d`
/// starts a new line; nothing for an empty or unmounted selection.
pub open spec fn spec_selected_static_text(
    selection: Option<StaticTextSelection>,
    entries: Seq<(ElementId, Seq<char>)>,
    indices: Map<ElementId, usize>,
    breaks: Seq<bool>,
    limit: usize,
) -> Option<Seq<char>> {
    match selection {
        None => None,
        Some(s) => match spec_normalized(s, indices) {
            None => None,
            Some((start, end)) => if start == end {
                None
            } else {
                match copied(entries, start, end, breaks, limit, (end.0 - start.0 + 1) as nat) {
                    Some(out) => if out.len() > 0 { Some(out) } else { None },
                    None => None,
                }
            },
        },
    }
}

/// The positions of the selection sit on character boundaries of their leaves (or past their
/// ends).
pub open spec fn selection_on_boundaries(
    selection: Option<StaticTextSelection>,
    entries: Seq<(ElementId, Seq<char>)>,
    indices: Map<ElementId, usize>,
) -> bool {
    selection matches Some(s) ==> {
        &&& position_on_boundary(s.anchor, entries, indices)
        &&& position_on_boundary(s.focus, entries, indices)
    }
}

pub open spec fn position_on_boundary(
    p: StaticTextPosition,
    entries: Seq<(ElementId, Seq<char>)>,
    indices: Map<ElementId, usize>,
) -> bool {
    indices.contains_key(p.id) && indices[p.id] < entries.len() ==> {
        let bytes = encode_utf8(entries[indices[p.id] as int].1);
        p.offset >= bytes.len() || is_char_boundary(bytes, p.offset as int)
    }
}

proof fn lemma_copied_full(
    entries: Seq<(ElementId, Seq<char>)>,
    start: (usize, usize),
    end: (usize, usize),
    breaks: Seq<bool>,
    limit: usize,
    k: nat,
    m: nat,
)
    requires
        1 <= k <= m,
        copied(entries, start, end, breaks, limit, k) matches Some(out) && encode_utf8(out).len() == limit,
    ensures
        copied(entries, start, end, breaks, limit, m) == copied(entries, start, end, breaks, limit, k),
    decreases m - k,
{
    if m > k {
        lemma_copied_full(entries, start, end, breaks, limit, k, (m - 1) as nat);
    }
}

/// Copies the immutable-text selection: the selected part of each leaf in document order, a
/// newline (when `line_breaks[d]` says leaf `d` starts a new line) or a space between leaves, at
/// most `limit` bytes and cut on a character boundary. `None` when nothing is selected or a leaf
/// of the selection is gone.
pub fn selected_static_text(
    selection: Option<StaticTextSelection>,
    entries: &Vec<SelectableTextEntry>,
    indices: &HashMap<ElementId, usize>,
    line_breaks: &Vec<bool>,
    limit: usize,
) -> (text: Option<String>)
    requires
        line_breaks.len() == entries.len(),
        selection_on_boundaries(selection, entries_view(entries@), indices@),
    ensures
        match text {
            Some(t) => spec_selected_static_text(selection, entries_view(entries@), indices@, line_breaks@, limit)
                == Some(t@),
            None => spec_selected_static_text(selection, entries_view(entries@), indices@, line_breaks@, limit) is None,
        },
{
    let ghost ev = entries_view(entries@);
    let ghost breaks = line_breaks@;
    let current = match selection {
        Some(s) => s,
        None => return None,
    };
    let (start, end) = match normalized_static_selection(current, indices) {
        Some(bounds) => bounds,
        None => return None,
    };
    if start.0 == end.0 && start.1 == end.1 {
        return None;
    }
    proof {
        assert(ev.len() == entries.len());
        assert(start.0 <= end.0);
        assert(position_on_boundary(current.anchor, ev, indices@));
        assert(position_on_boundary(current.focus, ev, indices@));
    }
    let mut output = String::new();
    let mut d = start.0;
    proof {
        assert(output@ =~= Seq::<char>::empty());
    }
    loop
        invariant_except_break
            copied(ev, start, end, breaks, limit, (d - start.0) as nat) == Some(output@),
            d > start.0 ==> encode_utf8(output@).len() != limit,
        invariant
            ev == entries_view(entries@),
            ev.len() == entries.len(),
            breaks == line_breaks@,
            line_breaks.len() == entries.len(),
            spec_normalized(current, indices@) == Some((start, end)),
            selection == Some(current),
            !(start.0 == end.0 && start.1 == end.1),
            start.0 <= d <= end.0,
            selection_on_boundaries(Some(current), ev, indices@),
        ensures
            copied(ev, start, end, breaks, limit, (end.0 - start.0 + 1) as nat) == Some(output@),
        decreases end.0 - d,
    {
        if d >= entries.len() {
            proof {
                assert(copied(ev, start, end, breaks, limit, (d - start.0 + 1) as nat) is None);
                assert(copied(ev, start, end, breaks, limit, (end.0 - start.0 + 1) as nat) is None) by {
                    lemma_copied_none(ev, start, end, breaks, limit, (d - start.0 + 1) as nat, (end.0 - start.0 + 1) as nat);
                }
            }
            return None;
        }
        let content = entries[d].content.as_str();
        let len = byte_len(content);
        let (from, to) = if start.0 == end.0 {
            (if start.1 <= len { start.1 } else { len }, if end.1 <= len { end.1 } else { len })
        } else if d == start.0 {
            (if start.1 <= len { start.1 } else { len }, len)
        } else if d == end.0 {
            (0, if end.1 <= len { end.1 } else { len })
        } else {
            (0, len)
        };
        let ghost before = output@;
        let ghost bytes = content.spec_bytes();
        proof {
            assert(ev[d as int].1 == content@);
            assert(bytes == encode_utf8(ev[d as int].1));
            vstd::utf8::encode_utf8_valid_utf8(content@);
            vstd::utf8::is_char_boundary_start_end_of_seq(bytes);
            assert((from as int, to as int) == leaf_range(len as int, d as int, start, end));
            if start.0 == end.0 || d == start.0 {
                if start.1 < len {
                    lemma_normalized_position(current, indices@, ev, true);
                }
            }
            if start.0 == end.0 || d == end.0 {
                if end.1 < len {
                    lemma_normalized_position(current, indices@, ev, false);
                }
            }
        }
        if d > start.0 {
            let separator = if line_breaks[d] { "\n" } else { " " };
            push_bounded_text(&mut output, separator, limit);
        }
        let ghost with_separator = output@;
        let piece = slice_between(content, from, to);
        push_bounded_text(&mut output, piece, limit);
        proof {
            assert(with_separator == if d > start.0 { pushed(before, separator_bytes(breaks[d as int]), limit) } else { before });
            assert(output@ == pushed(with_separator, bytes.subrange(from as int, to as int), limit));
            assert(copied(ev, start, end, breaks, limit, (d - start.0 + 1) as nat) == Some(output@));
        }
        if byte_len(output.as_str()) == limit {
            proof {
                lemma_copied_full(ev, start, end, breaks, limit, (d - start.0 + 1) as nat, (end.0 - start.0 + 1) as nat);
            }
            break;
        }
        if d == end.0 {
            break;
        }
        d += 1;
    }
    if output.as_str().is_empty() {
        None
    } else {
        Some(output)
    }
}

proof fn lemma_copied_none(
    entries: Seq<(ElementId, Seq<char>)>,
    start: (usize, usize),
    end: (usize, usize),
    breaks: Seq<bool>,
    limit: usize,
    k: nat,
    m: nat,
)
    requires
        k <= m,
        copied(entries, start, end, breaks, limit, k) is None,
    ensures
        copied(entries, start, end, breaks, limit, m) is None,
    decreases m - k,
{
    if m > k {
        lemma_copied_none(entries, start, end, breaks, limit, k, (m - 1) as nat);
    }
}

/// The start (or end) of a normalized selection is one of its positions, so it sits on a
/// boundary of its leaf.
proof fn lemma_normalized_position(
    selection: StaticTextSelection,
    indices: Map<ElementId, usize>,
    entries: Seq<(ElementId, Seq<char>)>,
    first: bool,
)
    requires
        spec_normalized(selection, indices) is Some,
        selection_on_boundaries(Some(selection), entries, indices),
    ensures
        ({
            let (start, end) = spec_normalized(selection, indices).unwrap();
            let key = if first { start } else { end };
            key.0 < entries.len() ==> {
                let bytes = encode_utf8(entries[key.0 as int].1);
                key.1 >= bytes.len() || is_char_boundary(bytes, key.1 as int)
            }
        }),
{
}

/// A revalidated selection sits on character boundaries of its leaves.
pub proof fn lemma_synced_selection_on_boundaries(
    selection: Option<StaticTextSelection>,
    entries: Seq<SelectableTextEntry>,
    indices: Map<ElementId, usize>,
)
    requires
        indices_in_bounds(indices, entries.len()),
    ensures
        selection_on_boundaries(spec_sync_selection(selection, entries, indices), entries_view(entries), indices),
{
    if let Some(s) = spec_sync_selection(selection, entries, indices) {
        let current = selection.unwrap();
        let ev = entries_view(entries);
        let a = encode_utf8(entries[indices[current.anchor.id] as int].content@);
        let f = encode_utf8(entries[indices[current.focus.id] as int].content@);
        vstd::utf8::encode_utf8_valid_utf8(entries[indices[current.anchor.id] as int].content@);
        vstd::utf8::encode_utf8_valid_utf8(entries[indices[current.focus.id] as int].content@);
        lemma_boundary_floor(a, min_usize(current.anchor.offset, a.len() as usize) as int);
        lemma_boundary_floor(f, min_usize(current.focus.offset, f.len() as usize) as int);
        assert(ev[indices[current.anchor.id] as int].1 == entries[indices[current.anchor.id] as int].content@);
        assert(ev[indices[current.focus.id] as int].1 == entries[indices[current.focus.id] as int].content@);
    }
}

} // verus!
