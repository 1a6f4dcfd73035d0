use vstd::prelude::*;
use std::collections::{HashMap, HashSet};
use vstd::string::StringSliceAdditionalSpecFns;
use vstd::utf8::{decode_utf8, encode_utf8};
use crate::element::{Element, ElementId, preorder, forest, is_shown};
use crate::selection::{boundary_floor, boundary_at_or_before, byte_len};
use crate::traverse::lemma_forest_zero;

verus! {

broadcast use {
    vstd::std_specs::vec::group_vec_axioms,
    vstd::std_specs::hash::group_hash_axioms,
    vstd::utf8::encode_utf8_valid_utf8,
    vstd::utf8::encode_utf8_decode_utf8,
};

/// One submitted control value.
#[derive(Debug)]
pub struct FormField {
    pub id: ElementId,
    pub value: String,
}

/// One invalid control and its validation message.
#[derive(Debug)]
pub struct ValidationIssue {
    pub id: ElementId,
    pub message: Option<String>,
    pub message_truncated: bool,
}

/// What a form submission attempt gathered.
#[derive(Debug)]
pub struct FormCollection {
    pub fields: Vec<FormField>,
    pub fields_truncated: bool,
    pub issues: Vec<ValidationIssue>,
    pub issues_truncated: bool,
    pub first_focusable_invalid: Option<ElementId>,
}

/// Spec-level summary of a `FormCollection`.
pub struct FormState {
    pub fields: Seq<(ElementId, Seq<char>)>,
    pub fields_truncated: bool,
    pub issues: Seq<(ElementId, Option<Seq<char>>, bool)>,
    pub issues_truncated: bool,
    pub first_focusable_invalid: Option<ElementId>,
}

impl FormCollection {
    /// Nothing gathered yet.
    pub fn new() -> (c: FormCollection)
        ensures
            c.state() == (FormState {
                fields: Seq::empty(),
                fields_truncated: false,
                issues: Seq::empty(),
                issues_truncated: false,
                first_focusable_invalid: None,
            }),
    {
        let c = FormCollection {
            fields: Vec::new(),
            fields_truncated: false,
            issues: Vec::new(),
            issues_truncated: false,
            first_focusable_invalid: None,
        };
        assert(c.state().fields =~= Seq::<(ElementId, Seq<char>)>::empty());
        assert(c.state().issues =~= Seq::<(ElementId, Option<Seq<char>>, bool)>::empty());
        c
    }

    pub open spec fn state(&self) -> FormState {
        FormState {
            fields: self.fields@.map_values(|f: FormField| (f.id, f.value@)),
            fields_truncated: self.fields_truncated,
            issues: self.issues@.map_values(|i: ValidationIssue| (i.id, match i.message {
                Some(m) => Some(m@),
                None => None,
            }, i.message_truncated)),
            issues_truncated: self.issues_truncated,
            first_focusable_invalid: self.first_focusable_invalid,
        }
    }
}

/// The part of a form's subtree it owns: shown elements outside nested forms.
pub open spec fn keep_form_scope() -> spec_fn(Element) -> bool {
    |e: Element| is_shown(e) && !e.form
}

/// Gathers one control: an enabled text input submits its committed value (up to `max_fields`
/// fields), an enabled invalid control reports an issue (up to `max_issues`) and, when it takes
/// focus, may become the first invalid control to focus.
pub open spec fn form_step(
    c: FormState,
    e: Element,
    inputs: Map<ElementId, Seq<char>>,
    focusable: Set<ElementId>,
    max_fields: nat,
    max_issues: nat,
) -> FormState {
    if e.accessibility.disabled {
        c
    } else {
        let c1 = if inputs.contains_key(e.runtime_id) {
            if c.fields.len() < max_fields {
                FormState { fields: c.fields.push((e.runtime_id, inputs[e.runtime_id])), ..c }
            } else {
                FormState { fields_truncated: true, ..c }
            }
        } else {
            c
        };
        if e.accessibility.invalid {
            let c2 = if c1.first_focusable_invalid is None && focusable.contains(e.runtime_id) {
                FormState { first_focusable_invalid: Some(e.runtime_id), ..c1 }
            } else {
                c1
            };
            if c2.issues.len() < max_issues {
                FormState {
                    issues: c2.issues.push((e.runtime_id, match e.accessibility.validation_message {
                        Some(m) => Some(m@),
                        None => None,
                    }, e.accessibility.validation_message_truncated)),
                    ..c2
                }
            } else {
                FormState { issues_truncated: true, ..c2 }
            }
        } else {
            c1
        }
    }
}

pub open spec fn form_fold(
    c: FormState,
    s: Seq<Element>,
    inputs: Map<ElementId, Seq<char>>,
    focusable: Set<ElementId>,
    max_fields: nat,
    max_issues: nat,
) -> FormState
    decreases s.len(),
{
    if s.len() == 0 {
        c
    } else {
        form_step(form_fold(c, s.drop_last(), inputs, focusable, max_fields, max_issues), s.last(), inputs, focusable,
            max_fields, max_issues)
    }
}

pub proof fn lemma_form_fold_concat(
    c: FormState,
    a: Seq<Element>,
    b: Seq<Element>,
    inputs: Map<ElementId, Seq<char>>,
    focusable: Set<ElementId>,
    mf: nat,
    mi: nat,
)
    ensures
        form_fold(c, a + b, inputs, focusable, mf, mi) == form_fold(form_fold(c, a, inputs, focusable, mf, mi), b, inputs, focusable, mf, mi),
    decreases b.len(),
{
    if b.len() == 0 {
        assert(a + b == a);
    } else {
        lemma_form_fold_concat(c, a, b.drop_last(), inputs, focusable, mf, mi);
        assert((a + b).drop_last() == a + b.drop_last());
        assert((a + b).last() == b.last());
    }
}

pub open spec fn committed_values(inputs: Map<ElementId, String>) -> Map<ElementId, Seq<char>> {
    inputs.map_values(|s: String| s@)
}

/// Gathers the controls a form owns from one of its children's subtrees, in document order.
pub fn collect_form_controls(
    element: &Element,
    text_inputs: &HashMap<ElementId, String>,
    focusable_ids: &HashSet<ElementId>,
    collection: &mut FormCollection,
    max_fields: usize,
    max_issues: usize,
)
    ensures
        final(collection).state() == form_fold(old(collection).state(), preorder(*element, keep_form_scope()),
            committed_values(text_inputs@), focusable_ids@, max_fields as nat, max_issues as nat),
    decreases element,
{
    let ghost keep = keep_form_scope();
    let ghost inputs = committed_values(text_inputs@);
    if element.display_none || element.visibility_hidden || element.form {
        return;
    }
    let ghost before = collection.state();
    if !element.accessibility.disabled {
        if let Some(value) = text_inputs.get(&element.runtime_id) {
            if collection.fields.len() < max_fields {
                collection.fields.push(FormField { id: element.runtime_id, value: value.clone() });
                proof {
                    assert(collection.state().fields =~= before.fields.push((element.runtime_id, inputs[element.runtime_id])));
                }
            } else {
                collection.fields_truncated = true;
            }
        }
        if element.accessibility.invalid {
            if collection.first_focusable_invalid.is_none() && focusable_ids.contains(&element.runtime_id) {
                collection.first_focusable_invalid = Some(element.runtime_id);
            }
            let ghost mid = collection.state();
            if collection.issues.len() < max_issues {
                let message = match &element.accessibility.validation_message {
                    Some(m) => Some(m.clone()),
                    None => None,
                };
                collection.issues.push(ValidationIssue {
                    id: element.runtime_id,
                    message,
                    message_truncated: element.accessibility.validation_message_truncated,
                });
                proof {
                    assert(collection.state().issues =~= mid.issues.push((element.runtime_id,
                        match element.accessibility.validation_message { Some(m) => Some(m@), None => None },
                        element.accessibility.validation_message_truncated)));
                }
            } else {
                collection.issues_truncated = true;
            }
        }
    }
    proof {
        lemma_forest_zero(*element, keep);
        assert(seq![*element] + forest(*element, 0, keep) == seq![*element]);
        assert(seq![*element].drop_last() == Seq::<Element>::empty());
        assert(seq![*element].last() == *element);
        assert(form_fold(before, Seq::<Element>::empty(), inputs, focusable_ids@, max_fields as nat, max_issues as nat) == before);
        assert(collection.state() == form_step(before, *element, inputs, focusable_ids@, max_fields as nat, max_issues as nat));
    }
    let mut i: usize = 0;
    while i < element.children.len()
        invariant
            i <= element.children.len(),
            keep == keep_form_scope(),
            inputs == committed_values(text_inputs@),
            collection.state() == form_fold(old(collection).state(), seq![*element] + forest(*element, i as int, keep),
                inputs, focusable_ids@, max_fields as nat, max_issues as nat),
        decreases element.children.len() - i,
    {
        let ghost prev = seq![*element] + forest(*element, i as int, keep);
        let ghost sub = preorder(element.children[i as int], keep);
        collect_form_controls(&element.children[i], text_inputs, focusable_ids, collection, max_fields, max_issues);
        proof {
            assert(forest(*element, i + 1, keep) == forest(*element, i as int, keep) + sub);
            assert(prev + sub == seq![*element] + forest(*element, i + 1, keep));
            lemma_form_fold_concat(old(collection).state(), prev, sub, inputs, focusable_ids@, max_fields as nat, max_issues as nat);
        }
        i += 1;
    }
    assert(preorder(*element, keep) == seq![*element] + forest(*element, element.children.len() as int, keep));
}

} // verus!

verus! {

/// The issues a failed submission reports.
#[derive(Debug)]
pub struct ValidationReport {
    pub form: ElementId,
    pub trigger: Option<ElementId>,
    pub issues: Vec<ValidationIssue>,
    pub truncated: bool,
}

/// Decimal digits of `n`.
pub open spec fn decimal(n: nat) -> Seq<char>
    decreases n,
{
    if n < 10 {
        seq![digit_char(n)]
    } else {
        decimal(n / 10).push(digit_char(n % 10))
    }
}

pub open spec fn digit_char(d: nat) -> char {
    if d == 0 { '0' } else if d == 1 { '1' } else if d == 2 { '2' } else if d == 3 { '3' }
    else if d == 4 { '4' } else if d == 5 { '5' } else if d == 6 { '6' } else if d == 7 { '7' }
    else if d == 8 { '8' } else { '9' }
}

fn digit(d: usize) -> (c: &'static str)
    requires
        d < 10,
    ensures
        c@ == seq![digit_char(d as nat)],
{
    proof {
        reveal_strlit("0");
        reveal_strlit("1");
        reveal_strlit("2");
        reveal_strlit("3");
        reveal_strlit("4");
        reveal_strlit("5");
        reveal_strlit("6");
        reveal_strlit("7");
        reveal_strlit("8");
        reveal_strlit("9");
    }
    if d == 0 { "0" } else if d == 1 { "1" } else if d == 2 { "2" } else if d == 3 { "3" }
    else if d == 4 { "4" } else if d == 5 { "5" } else if d == 6 { "6" } else if d == 7 { "7" }
    else if d == 8 { "8" } else { "9" }
}

/// Writes `n` in decimal.
pub fn decimal_string(n: usize) -> (s: String)
    ensures
        s@ == decimal(n as nat),
    decreases n,
{
    if n < 10 {
        let mut s = String::new();
        s.append(digit(n));
        assert(s@ =~= decimal(n as nat));
        s
    } else {
        let mut s = decimal_string(n / 10);
        s.append(digit(n % 10));
        s
    }
}

} // verus!

verus! {

/// The first issue's message, or a generic one.
pub open spec fn first_issue_message(report: ValidationReport) -> Seq<char> {
    if report.issues.len() > 0 && report.issues[0].message is Some {
        report.issues[0].message.unwrap()@
    } else {
        "This field is invalid."@
    }
}

/// The announcement for a failed submission: the lone issue's message, or a count of the issues
/// ("at least" when the report was truncated) followed by the first message.
pub open spec fn full_announcement(report: ValidationReport) -> Seq<char> {
    if report.issues.len() == 1 && !report.truncated {
        first_issue_message(report)
    } else {
        (if report.truncated { "at least "@ } else { Seq::<char>::empty() }) + decimal(report.issues.len() as nat)
            + " fields need attention. "@ + first_issue_message(report)
    }
}

/// `text` cut to at most `limit` UTF-8 bytes, on a character boundary.
pub open spec fn truncated_to(text: Seq<char>, limit: int) -> Seq<char> {
    let bytes = encode_utf8(text);
    if bytes.len() > limit {
        decode_utf8(bytes.subrange(0, boundary_floor(bytes, limit)))
    } else {
        text
    }
}

/// Builds the assertive announcement for a failed submission, at most `limit` UTF-8 bytes long.
pub fn validation_announcement_message(report: &ValidationReport, limit: usize) -> (message: String)
    ensures
        message@ == truncated_to(full_announcement(*report), limit as int),
{
    let mut first = String::new();
    let has_message = report.issues.len() > 0 && match &report.issues[0].message {
        Some(_) => true,
        None => false,
    };
    if has_message {
        match &report.issues[0].message {
            Some(m) => first.append(m.as_str()),
            None => {},
        }
    } else {
        first.append("This field is invalid.");
    }
    assert(first@ == first_issue_message(*report));
    let mut message = String::new();
    if report.issues.len() == 1 && !report.truncated {
        message.append(first.as_str());
    } else {
        if report.truncated {
            message.append("at least ");
        }
        let count = decimal_string(report.issues.len());
        message.append(count.as_str());
        message.append(" fields need attention. ");
        message.append(first.as_str());
        proof {
            reveal_strlit("");
        }
        assert(message@ =~= full_announcement(*report));
    }
    assert(message@ == full_announcement(*report));
    let text = message.as_str();
    assert(text.spec_bytes() == encode_utf8(full_announcement(*report)));
    if byte_len(text) > limit {
        let end = boundary_at_or_before(text, limit);
        let (head, _) = text.split_at(end);
        proof {
            assert(head@ == decode_utf8(head.spec_bytes()));
        }
        head.to_owned()
    } else {
        message
    }
}


/// An enabled, invalid control that takes focus.
pub open spec fn focusable_invalid(e: Element, focusable: Set<ElementId>) -> bool {
    !e.accessibility.disabled && e.accessibility.invalid && focusable.contains(e.runtime_id)
}

/// The id of the first element of `s` that is an enabled, invalid control taking focus.
pub open spec fn first_focusable_invalid_in(s: Seq<Element>, focusable: Set<ElementId>) -> Option<ElementId>
    decreases s.len(),
{
    if s.len() == 0 {
        None
    } else {
        let before = first_focusable_invalid_in(s.drop_last(), focusable);
        if before is Some {
            before
        } else if focusable_invalid(s.last(), focusable) {
            Some(s.last().runtime_id)
        } else {
            None
        }
    }
}

proof fn lemma_first_focusable_invalid_at(s: Seq<Element>, focusable: Set<ElementId>, k: int)
    requires
        0 <= k < s.len() ==> focusable_invalid(s[k], focusable),
        forall|j: int| 0 <= j < s.len() && j < k ==> !focusable_invalid(#[trigger] s[j], focusable),
        k >= 0,
    ensures
        k < s.len() ==> first_focusable_invalid_in(s, focusable) == Some(s[k].runtime_id),
        k >= s.len() ==> first_focusable_invalid_in(s, focusable) is None,
    decreases s.len(),
{
    if s.len() > 0 {
        let t = s.drop_last();
        assert forall|j: int| 0 <= j < t.len() && j < k implies !focusable_invalid(#[trigger] t[j], focusable) by {
            assert(t[j] == s[j]);
        }
        if k < t.len() {
            assert(t[k] == s[k]);
        }
        lemma_first_focusable_invalid_at(t, focusable, k);
        if k >= t.len() && k < s.len() {
            assert(s.last() == s[k]);
        }
        if k >= s.len() {
            assert(!focusable_invalid(s[s.len() - 1], focusable));
        }
    }
}

proof fn lemma_form_fold_first_invalid(
    c: FormState,
    s: Seq<Element>,
    inputs: Map<ElementId, Seq<char>>,
    focusable: Set<ElementId>,
    mf: nat,
    mi: nat,
)
    ensures
        form_fold(c, s, inputs, focusable, mf, mi).first_focusable_invalid == if c.first_focusable_invalid is Some {
            c.first_focusable_invalid
        } else {
            first_focusable_invalid_in(s, focusable)
        },
    decreases s.len(),
{
    if s.len() > 0 {
        lemma_form_fold_first_invalid(c, s.drop_last(), inputs, focusable, mf, mi);
    }
}

/// The control an invalid submission focuses is the first focusable invalid control in document
/// order: when the `k`-th of `s` is an enabled, invalid control that takes focus and none before it
/// is, gathering `s` from an empty state leaves it as the control to focus; when none is, there is
/// none to focus.
pub proof fn lemma_first_invalid_control_is_focused(
    s: Seq<Element>,
    inputs: Map<ElementId, Seq<char>>,
    focusable: Set<ElementId>,
    mf: nat,
    mi: nat,
    c: FormState,
    k: int,
)
    requires
        c.first_focusable_invalid is None,
        k >= 0,
        0 <= k < s.len() ==> focusable_invalid(s[k], focusable),
        forall|j: int| 0 <= j < s.len() && j < k ==> !focusable_invalid(#[trigger] s[j], focusable),
    ensures
        k < s.len() ==> form_fold(c, s, inputs, focusable, mf, mi).first_focusable_invalid == Some(s[k].runtime_id),
        k >= s.len() ==> form_fold(c, s, inputs, focusable, mf, mi).first_focusable_invalid is None,
{
    lemma_form_fold_first_invalid(c, s, inputs, focusable, mf, mi);
    lemma_first_focusable_invalid_at(s, focusable, k);
}

} // verus!
