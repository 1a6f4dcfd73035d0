# ui_tree

The retained element tree of a desktop GUI toolkit, written in Verus. Every function in `src/`
carries a contract, and Verus proves all of them except the three trusted wrappers in
`src/segments.rs`: their contracts describe `unicode-segmentation` and `char::is_alphanumeric`,
and Verus takes them on trust.

What the library covers:

- the element model (`element`), document-order traversals (`traverse`, `tree`), generated
  runtime ids (`ids`) and the resolution of text selectability down the tree (`user_select`);
- mounted-state synchronisation (`mounted`): displayed and visible ids, style transitions and
  animated-image clocks (`animation`), tooltips (`registry`), text inputs and selectable text
  (`selectable`), text run ids (`text_ids`), the tab order and keyboard focus (`focus`,
  `focus_order`, `layers`), dispatch links (`dispatch`), and pruning of every pointer and
  scroll reference to an element that is gone;
- immutable-text selection, word and line ranges, bounded copying (`selection`, `words`,
  `selectable`), password masking (`password`);
- form submission and its validation announcement (`forms`, `submission`);
- event dispatch: mouse, key and action listeners in capture and bubble order, scroll, touch
  and trackpad-gesture listeners (`dispatch`), hover
  enter/leave tracking and key contexts (`listeners`), hit searches over the painted regions and
  the pointer cursor, which painted elements get a hit region and their paint order (`hits`), button presses, releases, clicks, drags over immutable text and
  pointer motion (`pointer`), and dismissible surfaces (`dismiss`);
- the clock of declarative animations: stage chaining, phases, pausing and frame scheduling,
  and the registration of their ids against duplicates and the window's limit (`motion`;
  easing a phase into a value stays with the caller);
- the semantic tree handed to platform accessibility (`semantics`, `semantic_nodes`);
- container-query limits, detached-tree sanitising and anchored placement helpers
  (`container_query`, `detached`, `anchor`).

Grapheme and word segmentation come from `unicode-segmentation`, through those wrappers; for
each, a verified function takes the segments as an argument (`word_range_in_pieces`,
`PasswordDisplay::from_graphemes`) so the logic after the call is proved for every segmentation.

`app/` holds what Verus does not check: the error type with its messages (`thiserror`), the
conversion of semantic nodes into AccessKit nodes, and the floating-point line test used when
copying text across leaves. Geometry stays outside the library: the platform layer measures
where the pointer is against the painted regions and hands the library the answers (which
regions contain it, how far it travelled).

Painting, layout and the collection of hit-region geometry are not part of this crate: they
compute in floating point (pixel bounds, clips, text shaping and flex layout) and belong to the
renderer and the layout engine. What those steps decide on integers and flags stands in `src/`:
which elements get a hit region and with which flags (`hits::element_hit_region`), the order of
painted regions (`hits::sort_by_paint_order`), ending a scrollbar drag whose region was not
painted (`PointerState::end_vanished_scrollbar_drag`), generated runtime ids
(`ids::assign_runtime_id`) and text selectability (`user_select`).
