use vstd::prelude::*;
use crate::listeners::{ActionListenerBinding, KeyListenerBinding, MouseListenerBinding};

verus! {

/// Stable runtime identity of a mounted element.
pub type ElementId = u64;

/// Composition plane an element paints into; later variants paint above earlier ones.
#[derive(Clone, Copy, Debug, PartialEq, Eq, Structural)]
pub enum ScenePlane {
    Base,
    Overlay,
}

/// Pointer cursor shown over an element.
#[derive(Clone, Copy, Debug, PartialEq, Eq, Structural)]
pub enum CursorStyle {
    Arrow,
    PointingHand,
    IBeam,
    OpenHand,
    ClosedHand,
    DragCopy,
    OperationNotAllowed,
}

/// Tri-state toggle of checkboxes, switches and radio buttons.
#[derive(Clone, Copy, Debug, PartialEq, Eq, Structural)]
pub enum ToggleState {
    Off,
    On,
    Mixed,
}

/// Native semantic role projected for an element.
#[derive(Clone, Copy, Debug, PartialEq, Eq, Structural)]
pub enum AccessibilityRole {
    GenericContainer,
    Label,
    Button,
    Link,
    Image,
    List,
    ListItem,
    Heading,
    CheckBox,
    RadioButton,
    RadioGroup,
    Switch,
    TextInput,
    PasswordInput,
    MultilineTextInput,
    Dialog,
    AlertDialog,
    Menu,
    MenuItem,
    MenuItemCheckBox,
    MenuItemRadio,
    Separator,
    Group,
    Region,
    ListBox,
    ListBoxOption,
    ComboBox,
    EditableComboBox,
    Table,
    Tree,
    Grid,
    Row,
    ColumnHeader,
    RowHeader,
    GridCell,
    TreeItem,
    Tab,
    TabList,
    TabPanel,
    Tooltip,
    Form,
}

/// Semantic state of an element.
#[derive(Debug)]
pub struct Accessibility {
    pub role: AccessibilityRole,
    pub label: Option<String>,
    pub description: Option<String>,
    pub value: Option<String>,
    pub hidden: bool,
    pub required: bool,
    pub modal: bool,
    pub expanded: Option<bool>,
    /// The element this one controls.
    pub controls: Option<ElementId>,
    /// The descendant that is active while this element keeps focus.
    pub active_descendant: Option<ElementId>,
    pub labelled_by: Option<ElementId>,
    pub described_by: Option<ElementId>,
    pub described_by_secondary: Option<ElementId>,
    pub disabled: bool,
    pub invalid: bool,
    pub selected: bool,
    pub toggled: Option<ToggleState>,
    pub validation_message: Option<String>,
    pub validation_message_truncated: bool,
    pub has_popup: Option<AccessibilityPopup>,
    pub auto_complete: Option<AccessibilityAutoComplete>,
    pub orientation: Option<AccessibilityOrientation>,
    pub collection: AccessibilityCollection,
}

/// Whether the text of an element can be selected: as its ancestors and its kind suggest
/// (`Auto`), always, or never.
#[derive(Clone, Copy, Debug, PartialEq, Eq, Structural)]
pub enum UserSelect {
    Auto,
    Text,
    Never,
}

/// The kind of popup an element opens.
#[derive(Clone, Copy, Debug, PartialEq, Eq, Structural)]
pub enum AccessibilityPopup {
    Menu,
    ListBox,
    Tree,
    Grid,
    Dialog,
}

/// How an editable element proposes completions.
#[derive(Clone, Copy, Debug, PartialEq, Eq, Structural)]
pub enum AccessibilityAutoComplete {
    Inline,
    List,
    Both,
}

/// The direction in which a composite element's items are laid out.
#[derive(Clone, Copy, Debug, PartialEq, Eq, Structural)]
pub enum AccessibilityOrientation {
    Horizontal,
    Vertical,
}

/// The order by which a column or row header sorts its collection.
#[derive(Clone, Copy, Debug, PartialEq, Eq, Structural)]
pub enum AccessibilitySortDirection {
    Ascending,
    Descending,
    Other,
}

/// Position and size of an element inside a (possibly virtual) collection: counts of a grid's
/// rows and columns, an item's indices, its level in a tree, and its place in its set.
#[derive(Clone, Copy, Debug, PartialEq, Eq, Structural)]
pub struct AccessibilityCollection {
    pub row_count: Option<usize>,
    pub column_count: Option<usize>,
    pub row_index: Option<usize>,
    pub column_index: Option<usize>,
    pub level: Option<usize>,
    pub size_of_set: Option<usize>,
    pub position_in_set: Option<usize>,
    pub sort_direction: Option<AccessibilitySortDirection>,
}

/// No collection information.
pub open spec fn no_collection() -> AccessibilityCollection {
    AccessibilityCollection {
        row_count: None,
        column_count: None,
        row_index: None,
        column_index: None,
        level: None,
        size_of_set: None,
        position_in_set: None,
        sort_direction: None,
    }
}

impl AccessibilityCollection {
    /// No collection information.
    pub fn none() -> (c: AccessibilityCollection)
        ensures
            c == no_collection(),
    {
        AccessibilityCollection {
            row_count: None,
            column_count: None,
            row_index: None,
            column_index: None,
            level: None,
            size_of_set: None,
            position_in_set: None,
            sort_direction: None,
        }
    }
}

/// A declared tooltip.
#[derive(Debug)]
pub struct Tooltip {
    pub text: String,
    /// How long (nanoseconds) the pointer or focus must rest before the tooltip shows.
    pub delay: u64,
}

/// Frame timing of an animated image: one display duration (nanoseconds) per frame.
#[derive(Debug)]
pub struct AnimatedImage {
    pub id: u64,
    pub frame_durations: Vec<u64>,
    pub repeat: AnimationRepeat,
}

/// Keyboard behaviour of a tab list.
#[derive(Clone, Copy, Debug, PartialEq, Eq, Structural)]
pub struct TabListBehavior {
    /// Arrow keys of the vertical axis move between tabs.
    pub vertical: bool,
    /// Moving past either end wraps around.
    pub loop_focus: bool,
    /// A tab reached by keyboard is activated.
    pub activate_on_focus: bool,
}

/// How many times an animated image plays.
#[derive(Clone, Copy, Debug, PartialEq, Eq, Structural)]
pub enum AnimationRepeat {
    Infinite,
    Finite(u32),
}

/// One declared box shadow layer, by the only property the tree logic reads.
#[derive(Clone, Copy, Debug, PartialEq, Eq, Structural)]
pub struct ShadowLayer {
    pub inset: bool,
}

/// Shadow lists of the base style and of each interaction-state style.
#[derive(Debug)]
pub struct StateShadows {
    pub visual: Option<Vec<ShadowLayer>>,
    pub hover: Option<Vec<ShadowLayer>>,
    pub active: Option<Vec<ShadowLayer>>,
    pub focus: Option<Vec<ShadowLayer>>,
    pub invalid: Option<Vec<ShadowLayer>>,
    pub disabled: Option<Vec<ShadowLayer>>,
    pub dragging: Option<Vec<ShadowLayer>>,
    pub drag_over: Option<Vec<ShadowLayer>>,
}

/// What an element is.
#[derive(Debug)]
pub enum ElementKind {
    Container,
    Text(String),
    StyledText(String),
    /// An editable text field; `placeholder` is shown while it is empty.
    TextInput { value: String, multiline: bool, password: bool, placeholder: String },
    Image { animated: Option<AnimatedImage> },
    ContainerQuery { resolved_motion_ids: Vec<ElementId> },
}

/// A node of the declarative element tree.
#[derive(Debug)]
pub struct Element {
    pub runtime_id: ElementId,
    pub explicit_id: Option<ElementId>,
    pub display_none: bool,
    pub visibility_hidden: bool,
    pub kind: ElementKind,
    pub accessibility: Accessibility,
    pub children: Vec<Element>,
    pub focusable: bool,
    pub tab_index: i16,
    pub clickable: bool,
    pub pointer_listener: bool,
    pub focus_trap: bool,
    pub auto_focus: bool,
    pub plane: Option<ScenePlane>,
    pub z_index: Option<i32>,
    pub form: bool,
    pub form_submitter: bool,
    pub has_transition: bool,
    pub tooltip: Option<Tooltip>,
    /// Declared text selectability; `resolved_user_select` is what it comes to in the tree.
    pub user_select: UserSelect,
    pub resolved_user_select: bool,
    pub cursor_style: Option<CursorStyle>,
    pub cursor_style_explicit: bool,
    pub disabled_cursor_style: Option<CursorStyle>,
    pub drag_source: bool,
    pub drop_target: bool,
    pub scroll_wheel_listener: bool,
    pub touch_listener: bool,
    /// Listens for force-click pressure changes.
    pub mouse_pressure_listener: bool,
    /// Listens for pinch (magnify) gestures.
    pub pinch_listener: bool,
    /// Listens for rotation gestures.
    pub rotation_listener: bool,
    /// Listens for smart-magnify (double-tap zoom) gestures.
    pub smart_magnify_listener: bool,
    pub context_menu_listener: bool,
    pub blocks_pointer: bool,
    pub has_animation: bool,
    pub has_spring: bool,
    pub shadows: StateShadows,
    pub tab_list_behavior: Option<TabListBehavior>,
    /// The element that activating this one activates instead.
    pub activation_target: Option<ElementId>,
    pub mouse_listeners: Option<Vec<MouseListenerBinding>>,
    pub key_listeners: Option<Vec<KeyListenerBinding>>,
    pub action_listeners: Option<Vec<ActionListenerBinding>>,
    /// The key context the element declares for its focused subtree.
    pub key_context: Option<String>,
}

/// Neither `display: none` nor `visibility: hidden`: the element is painted and interactive.
pub open spec fn is_shown(e: Element) -> bool {
    !e.display_none && !e.visibility_hidden
}

/// Shown and not removed from the semantic tree.
pub open spec fn is_accessible(e: Element) -> bool {
    is_shown(e) && !e.accessibility.hidden
}

pub open spec fn keep_all() -> spec_fn(Element) -> bool {
    |e: Element| true
}

pub open spec fn keep_displayed() -> spec_fn(Element) -> bool {
    |e: Element| !e.display_none
}

pub open spec fn keep_shown() -> spec_fn(Element) -> bool {
    |e: Element| is_shown(e)
}

pub open spec fn keep_accessible() -> spec_fn(Element) -> bool {
    |e: Element| is_accessible(e)
}

/// Document-order sequence of the subtrees of the first `n` children of `e`, each pruned by `keep`.
pub open spec fn forest(e: Element, n: int, keep: spec_fn(Element) -> bool) -> Seq<Element>
    decreases e, n,
{
    if n <= 0 || n > e.children.len() {
        Seq::empty()
    } else {
        forest(e, n - 1, keep) + preorder(e.children[n - 1], keep)
    }
}

/// Document (pre-)order sequence of the subtree of `e`; a node that fails `keep` is left out
/// together with its whole subtree.
pub open spec fn preorder(e: Element, keep: spec_fn(Element) -> bool) -> Seq<Element>
    decreases e, e.children.len() + 1,
{
    if !keep(e) {
        Seq::empty()
    } else {
        seq![e] + forest(e, e.children.len() as int, keep)
    }
}

/// Post-order counterpart of `forest`: the first `n` children's pruned subtrees.
pub open spec fn post_forest(e: Element, n: int, keep: spec_fn(Element) -> bool) -> Seq<Element>
    decreases e, n,
{
    if n <= 0 || n > e.children.len() {
        Seq::empty()
    } else {
        post_forest(e, n - 1, keep) + postorder(e.children[n - 1], keep)
    }
}

/// Post-order sequence of the subtree of `e` (children before their parent), pruned by `keep`.
pub open spec fn postorder(e: Element, keep: spec_fn(Element) -> bool) -> Seq<Element>
    decreases e, e.children.len() + 1,
{
    if !keep(e) {
        Seq::empty()
    } else {
        post_forest(e, e.children.len() as int, keep) + seq![e]
    }
}

/// The runtime ids of the elements of `s` that satisfy `pred`, as a set.
pub open spec fn match_ids(s: Seq<Element>, pred: spec_fn(Element) -> bool) -> Set<ElementId> {
    Set::new(|id: ElementId| exists|i: int| 0 <= i < s.len() && pred(#[trigger] s[i]) && s[i].runtime_id == id)
}

/// The runtime ids of a sequence of elements, as a set.
pub open spec fn id_set(s: Seq<Element>) -> Set<ElementId> {
    match_ids(s, keep_all())
}


/// Default semantics: a generic container with no label, no relation and no state.
pub open spec fn is_generic(a: Accessibility) -> bool {
    &&& a.role == AccessibilityRole::GenericContainer
    &&& a.label is None
    &&& a.description is None
    &&& a.value is None
    &&& !a.hidden
    &&& !a.required
    &&& !a.modal
    &&& a.expanded is None
    &&& a.controls is None
    &&& a.active_descendant is None
    &&& a.labelled_by is None
    &&& a.described_by is None
    &&& a.described_by_secondary is None
    &&& !a.disabled
    &&& !a.invalid
    &&& !a.selected
    &&& a.toggled is None
    &&& a.validation_message is None
    &&& !a.validation_message_truncated
    &&& a.has_popup is None
    &&& a.auto_complete is None
    &&& a.orientation is None
    &&& a.collection == no_collection()
}

impl Accessibility {
    /// Default semantics: a generic container with no label and no state.
    pub fn generic() -> (a: Accessibility)
        ensures
            is_generic(a),
    {
        Accessibility {
            role: AccessibilityRole::GenericContainer,
            label: None,
            description: None,
            value: None,
            hidden: false,
            required: false,
            modal: false,
            expanded: None,
            controls: None,
            active_descendant: None,
            labelled_by: None,
            described_by: None,
            described_by_secondary: None,
            disabled: false,
            invalid: false,
            selected: false,
            toggled: None,
            validation_message: None,
            validation_message_truncated: false,
            has_popup: None,
            auto_complete: None,
            orientation: None,
            collection: AccessibilityCollection::none(),
        }
    }
}

impl StateShadows {
    /// No shadows in any state.
    pub fn none() -> (s: StateShadows)
        ensures
            s.visual is None && s.hover is None && s.active is None && s.focus is None
                && s.invalid is None && s.disabled is None && s.dragging is None && s.drag_over is None,
    {
        StateShadows {
            visual: None,
            hover: None,
            active: None,
            focus: None,
            invalid: None,
            disabled: None,
            dragging: None,
            drag_over: None,
        }
    }
}

/// A plain element: every flag off, no id, no children.
pub open spec fn is_plain(e: Element) -> bool {
    &&& e.runtime_id == 0
    &&& e.explicit_id is None
    &&& !e.display_none && !e.visibility_hidden
    &&& e.children.len() == 0
    &&& !e.focusable && e.tab_index == 0 && !e.clickable && !e.pointer_listener
    &&& !e.focus_trap && !e.auto_focus && e.plane is None && e.z_index is None
    &&& !e.form && !e.form_submitter && !e.has_transition && e.tooltip is None
    &&& e.user_select == UserSelect::Auto
    &&& !e.resolved_user_select && e.cursor_style is None && !e.cursor_style_explicit
    &&& e.disabled_cursor_style is None && !e.drag_source && !e.drop_target
    &&& !e.scroll_wheel_listener && !e.touch_listener && !e.context_menu_listener && !e.blocks_pointer
    &&& !e.mouse_pressure_listener && !e.pinch_listener && !e.rotation_listener && !e.smart_magnify_listener
    &&& !e.has_animation && !e.has_spring && e.tab_list_behavior is None
    &&& e.activation_target is None
    &&& e.mouse_listeners is None && e.key_listeners is None && e.action_listeners is None
    &&& e.key_context is None
    &&& is_generic(e.accessibility)
    &&& e.shadows.visual is None && e.shadows.hover is None && e.shadows.active is None
    &&& e.shadows.focus is None && e.shadows.invalid is None && e.shadows.disabled is None
    &&& e.shadows.dragging is None && e.shadows.drag_over is None
}

/// A plain element of the given kind.
pub fn element_of(kind: ElementKind) -> (e: Element)
    ensures
        is_plain(e),
        e.kind == kind,
{
    Element {
        runtime_id: 0,
        explicit_id: None,
        display_none: false,
        visibility_hidden: false,
        kind,
        accessibility: Accessibility::generic(),
        children: Vec::new(),
        focusable: false,
        tab_index: 0,
        clickable: false,
        pointer_listener: false,
        focus_trap: false,
        auto_focus: false,
        plane: None,
        z_index: None,
        form: false,
        form_submitter: false,
        has_transition: false,
        tooltip: None,
        user_select: UserSelect::Auto,
        resolved_user_select: false,
        cursor_style: None,
        cursor_style_explicit: false,
        disabled_cursor_style: None,
        drag_source: false,
        drop_target: false,
        scroll_wheel_listener: false,
        touch_listener: false,
        mouse_pressure_listener: false,
        pinch_listener: false,
        rotation_listener: false,
        smart_magnify_listener: false,
        context_menu_listener: false,
        blocks_pointer: false,
        has_animation: false,
        has_spring: false,
        shadows: StateShadows::none(),
        tab_list_behavior: None,
        activation_target: None,
        mouse_listeners: None,
        key_listeners: None,
        action_listeners: None,
        key_context: None,
    }
}

/// A plain container.
pub fn div() -> (e: Element)
    ensures
        is_plain(e),
        e.kind == ElementKind::Container,
{
    element_of(ElementKind::Container)
}

/// A plain text leaf.
pub fn text(content: &str) -> (e: Element)
    ensures
        is_plain(e),
        e.kind matches ElementKind::Text(s) && s@ == content@,
{
    element_of(ElementKind::Text(content.to_owned()))
}

/// A plain styled-text leaf.
pub fn styled_text(content: &str) -> (e: Element)
    ensures
        is_plain(e),
        e.kind matches ElementKind::StyledText(s) && s@ == content@,
{
    element_of(ElementKind::StyledText(content.to_owned()))
}

/// A focusable, clickable button with a pointing-hand cursor; every other property plain.
pub fn button() -> (e: Element)
    ensures
        is_plain(Element {
            accessibility: Accessibility { role: AccessibilityRole::GenericContainer, ..e.accessibility },
            focusable: false,
            clickable: false,
            cursor_style: None,
            ..e
        }),
        e.cursor_style == Some(CursorStyle::PointingHand),
        e.accessibility.role == AccessibilityRole::Button,
        e.focusable && e.clickable,
        e.kind == ElementKind::Container,
        e.children.len() == 0,
        !e.display_none && !e.visibility_hidden && !e.accessibility.hidden,
        e.accessibility.label is None,
        !e.accessibility.disabled,
{
    let d = div();
    let accessibility = Accessibility { role: AccessibilityRole::Button, ..d.accessibility };
    Element { accessibility, focusable: true, clickable: true, cursor_style: Some(CursorStyle::PointingHand), ..d }
}

impl Element {
    /// Appends a child.
    pub fn child(self, child: Element) -> (e: Element)
        ensures
            e.children@ == self.children@.push(child),
            e == (Element { children: e.children, ..self }),
    {
        let mut children = self.children;
        children.push(child);
        Element { children, ..self }
    }

    /// Gives the element a fixed id (both its declared and runtime id).
    pub fn id(self, id: ElementId) -> (e: Element)
        ensures
            e == (Element { runtime_id: id, explicit_id: Some(id), ..self }),
    {
        Element { runtime_id: id, explicit_id: Some(id), ..self }
    }

    /// Sets the semantic role.
    pub fn role(self, role: AccessibilityRole) -> (e: Element)
        ensures
            e == (Element { accessibility: Accessibility { role, ..self.accessibility }, ..self }),
    {
        let accessibility = Accessibility { role, ..self.accessibility };
        Element { accessibility, ..self }
    }

    /// Makes the element clickable; an inferred pointing-hand cursor applies unless one was set.
    pub fn clickable(self) -> (e: Element)
        ensures
            e == (Element {
                clickable: true,
                cursor_style: if self.cursor_style_explicit {
                    self.cursor_style
                } else {
                    Some(CursorStyle::PointingHand)
                },
                ..self
            }),
    {
        let cursor_style = if self.cursor_style_explicit {
            self.cursor_style
        } else {
            Some(CursorStyle::PointingHand)
        };
        Element { clickable: true, cursor_style, ..self }
    }

    /// Sets whether the element takes keyboard focus.
    pub fn focusable(self, focusable: bool) -> (e: Element)
        ensures
            e == (Element { focusable, ..self }),
    {
        Element { focusable, ..self }
    }

    /// Sets the tab index (negative: focusable but not a tab stop).
    pub fn tab_index(self, tab_index: i16) -> (e: Element)
        ensures
            e == (Element { tab_index, ..self }),
    {
        Element { tab_index, ..self }
    }

    /// Marks the element disabled.
    pub fn disabled(self, disabled: bool) -> (e: Element)
        ensures
            e == (Element { accessibility: Accessibility { disabled, ..self.accessibility }, ..self }),
    {
        let accessibility = Accessibility { disabled, ..self.accessibility };
        Element { accessibility, ..self }
    }

    /// Removes the element's subtree from the semantic tree only.
    pub fn accessibility_hidden(self, hidden: bool) -> (e: Element)
        ensures
            e == (Element { accessibility: Accessibility { hidden, ..self.accessibility }, ..self }),
    {
        let accessibility = Accessibility { hidden, ..self.accessibility };
        Element { accessibility, ..self }
    }

    /// Sets an explicit cursor.
    pub fn cursor(self, style: CursorStyle) -> (e: Element)
        ensures
            e == (Element { cursor_style: Some(style), cursor_style_explicit: true, ..self }),
    {
        Element { cursor_style: Some(style), cursor_style_explicit: true, ..self }
    }

    /// Shows the "operation not allowed" cursor.
    pub fn cursor_not_allowed(self) -> (e: Element)
        ensures
            e == (Element {
                cursor_style: Some(CursorStyle::OperationNotAllowed),
                cursor_style_explicit: true,
                ..self
            }),
    {
        self.cursor(CursorStyle::OperationNotAllowed)
    }

    /// Adds a mouse listener after those already declared.
    pub fn on_mouse(self, binding: MouseListenerBinding) -> (e: Element)
        ensures
            e.mouse_listeners matches Some(v) && v@ == (match self.mouse_listeners {
                Some(w) => w@,
                None => Seq::<MouseListenerBinding>::empty(),
            }).push(binding),
            e == (Element { mouse_listeners: e.mouse_listeners, ..self }),
    {
        let mut listeners = match self.mouse_listeners {
            Some(v) => v,
            None => Vec::new(),
        };
        listeners.push(binding);
        Element { mouse_listeners: Some(listeners), ..self }
    }

    /// Adds a keyboard listener after those already declared.
    pub fn on_key(self, binding: KeyListenerBinding) -> (e: Element)
        ensures
            e.key_listeners matches Some(v) && v@ == (match self.key_listeners {
                Some(w) => w@,
                None => Seq::<KeyListenerBinding>::empty(),
            }).push(binding),
            e == (Element { key_listeners: e.key_listeners, ..self }),
    {
        let mut listeners = match self.key_listeners {
            Some(v) => v,
            None => Vec::new(),
        };
        listeners.push(binding);
        Element { key_listeners: Some(listeners), ..self }
    }

    /// Adds an action listener after those already declared.
    pub fn on_action(self, binding: ActionListenerBinding) -> (e: Element)
        ensures
            e.action_listeners matches Some(v) && v@ == (match self.action_listeners {
                Some(w) => w@,
                None => Seq::<ActionListenerBinding>::empty(),
            }).push(binding),
            e == (Element { action_listeners: e.action_listeners, ..self }),
    {
        let mut listeners = match self.action_listeners {
            Some(v) => v,
            None => Vec::new(),
        };
        listeners.push(binding);
        Element { action_listeners: Some(listeners), ..self }
    }

    /// Declares the key context of the element's focused subtree.
    pub fn key_context(self, context: &str) -> (e: Element)
        ensures
            e.key_context matches Some(c) && c@ == context@,
            e == (Element { key_context: e.key_context, ..self }),
    {
        Element { key_context: Some(context.to_owned()), ..self }
    }

    /// Declares whether the element's text can be selected.
    pub fn user_select(self, user_select: UserSelect) -> (e: Element)
        ensures
            e == (Element { user_select, ..self }),
    {
        Element { user_select, ..self }
    }

    /// Shows the drag-copy cursor.
    pub fn cursor_copy(self) -> (e: Element)
        ensures
            e == (Element { cursor_style: Some(CursorStyle::DragCopy), cursor_style_explicit: true, ..self }),
    {
        self.cursor(CursorStyle::DragCopy)
    }
}

} // verus!
