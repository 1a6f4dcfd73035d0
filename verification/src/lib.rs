//! The retained element tree of a desktop GUI: which elements are mounted, shown and
//! interactive, their registries (animations, tooltips, selectable text, text runs, dispatch
//! links), keyboard focus and the tab order, event dispatch and pointer interaction,
//! immutable-text selection and copying, form submission, and the semantic (accessibility)
//! tree, each with its contract proved.

pub mod element;
pub mod traverse;
pub mod tree;
pub mod ids;
pub mod retain;
pub mod registry;
pub mod animation;
pub mod selection;
pub mod segments;
pub mod words;
pub mod password;
pub mod semantics;
pub mod selectable;
pub mod focus;
pub mod focus_order;
pub mod layers;
pub mod anchor;
pub mod container_query;
pub mod detached;
pub mod forms;
pub mod dispatch;
pub mod listeners;
pub mod dismiss;
pub mod pointer;
pub mod hits;
pub mod motion;
pub mod text_ids;
pub mod mounted;
pub mod submission;
pub mod semantic_nodes;
pub mod user_select;
