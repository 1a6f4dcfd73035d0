use vstd::prelude::*;
use std::collections::{HashMap, HashSet};
use crate::element::{Element, ElementId, preorder, forest, keep_all};
use crate::forms::{
    focusable_invalid, lemma_first_invalid_control_is_focused,
    FormCollection, FormField, FormState, ValidationIssue, ValidationReport, collect_form_controls, committed_values,
    form_fold, full_announcement, keep_form_scope, lemma_form_fold_concat, truncated_to, validation_announcement_message,
};
use crate::mounted::{MountedState, ValidationAnnouncement};
use crate::text_ids::{fresh_accessibility_id, unavailable_ids};
use crate::traverse::first_match;
use crate::tree::{find_element, has_id};

verus! {

broadcast use {vstd::std_specs::vec::group_vec_axioms, vstd::std_specs::hash::group_hash_axioms};

/// Bounds on what one submission attempt gathers and announces.
#[derive(Clone, Copy, Debug)]
pub struct FormLimits {
    pub max_fields: usize,
    pub max_issues: usize,
    pub max_message_bytes: usize,
}

/// The outcome of a submission attempt.
#[derive(Debug)]
pub enum FormAttempt {
    /// Nothing is invalid: the values to submit.
    Valid { form: ElementId, trigger: Option<ElementId>, fields: Vec<FormField>, fields_truncated: bool },
    /// Something is invalid: what to report.
    Invalid(ValidationReport),
}

pub open spec fn empty_form_state() -> FormState {
    FormState {
        fields: Seq::empty(),
        fields_truncated: false,
        issues: Seq::empty(),
        issues_truncated: false,
        first_focusable_invalid: None,
    }
}

/// What the form element `form` gathers from its own controls.
pub open spec fn form_controls(
    form: Element,
    input_texts: Map<ElementId, String>,
    focusable: Set<ElementId>,
    limits: FormLimits,
) -> FormState {
    form_fold(empty_form_state(), forest(form, form.children.len() as int, keep_form_scope()),
        committed_values(input_texts), focusable, limits.max_fields as nat, limits.max_issues as nat)
}

pub open spec fn fields_view(fields: Seq<FormField>) -> Seq<(ElementId, Seq<char>)> {
    fields.map_values(|f: FormField| (f.id, f.value@))
}

pub open spec fn issues_view(issues: Seq<ValidationIssue>) -> Seq<(ElementId, Option<Seq<char>>, bool)> {
    issues.map_values(|i: ValidationIssue| (i.id, match i.message {
        Some(m) => Some(m@),
        None => None,
    }, i.message_truncated))
}

impl MountedState {
    /// Tries to submit form `form` (of the mounted `root`), triggered by `trigger`: gathers the
    /// values of its enabled text inputs and its enabled invalid controls (not those of nested
    /// forms). Without issues, the values are returned and any announcement ends. Otherwise the
    /// first focusable invalid control is focused, the issues are returned, and a new announcement
    /// on a fresh auxiliary node replaces the previous one. `None` when `form` is not a mounted form.
    pub fn attempt_form_submission(
        &mut self,
        root: &Element,
        form: ElementId,
        trigger: Option<ElementId>,
        element_ids: &HashSet<ElementId>,
        input_texts: &HashMap<ElementId, String>,
        limits: FormLimits,
        now: u64,
    ) -> (attempt: Option<FormAttempt>)
        requires
            element_ids@.len() + old(self).accessibility_text_ids@.len() + 2 < 0x1_0000_0000_0000_0000,
        ensures
            !old(self).dispatch.form_ids@.contains(form) ==> attempt is None && *final(self) == *old(self),
            old(self).dispatch.form_ids@.contains(form) ==> match first_match(preorder(*root, keep_all()), has_id(form)) {
                None => attempt is None && *final(self) == *old(self),
                Some(form_element) => {
                    let st = form_controls(form_element, input_texts@, old(self).focus.focusable_ids@, limits);
                    if st.issues.len() == 0 {
                        &&& attempt matches Some(FormAttempt::Valid { form: f, trigger: t, fields, fields_truncated })
                            && f == form && t == trigger && fields_view(fields@) == st.fields
                            && fields_truncated == st.fields_truncated
                        &&& final(self).validation_announcement is None
                        &&& final(self).focus == old(self).focus
                    } else {
                        &&& match attempt {
                            Some(FormAttempt::Invalid(report)) => {
                                &&& report.form == form
                                &&& report.trigger == trigger
                                &&& issues_view(report.issues@) == st.issues
                                &&& report.truncated == st.issues_truncated
                                &&& match final(self).validation_announcement {
                                    Some(a) => {
                                        &&& a.form == form
                                        &&& a.message@ == truncated_to(full_announcement(report), limits.max_message_bytes as int)
                                        &&& !unavailable_ids(element_ids@, old(self).accessibility_text_ids@,
                                            match old(self).validation_announcement { Some(p) => Some(p.node), None => None })
                                            .contains(a.node)
                                    },
                                    None => false,
                                }
                            },
                            _ => false,
                        }
                        &&& final(self).focus.focused == (match st.first_focusable_invalid {
                            Some(f) => Some(f),
                            None => old(self).focus.focused,
                        })
                    }
                },
            },
            final(self).focus.focusable_ids == old(self).focus.focusable_ids,
            final(self).dispatch == old(self).dispatch,
            final(self).accessibility_text_ids == old(self).accessibility_text_ids,
    {
        if !self.dispatch.form_ids.contains(&form) {
            return None;
        }
        let form_element = match find_element(root, form) {
            Some(e) => e,
            None => return None,
        };
        let mut collection = FormCollection::new();
        let ghost inputs = committed_values(input_texts@);
        let ghost focusable = self.focus.focusable_ids@;
        let ghost mf = limits.max_fields as nat;
        let ghost mi = limits.max_issues as nat;
        let mut i: usize = 0;
        while i < form_element.children.len()
            invariant
                i <= form_element.children.len(),
                inputs == committed_values(input_texts@),
                focusable == self.focus.focusable_ids@,
                mf == limits.max_fields as nat,
                mi == limits.max_issues as nat,
                collection.state() == form_fold(empty_form_state(), forest(*form_element, i as int, keep_form_scope()),
                    inputs, focusable, mf, mi),
            decreases form_element.children.len() - i,
        {
            collect_form_controls(&form_element.children[i], input_texts, &self.focus.focusable_ids, &mut collection,
                limits.max_fields, limits.max_issues);
            proof {
                let prev = forest(*form_element, i as int, keep_form_scope());
                let sub = preorder(form_element.children[i as int], keep_form_scope());
                assert(forest(*form_element, i + 1, keep_form_scope()) == prev + sub);
                lemma_form_fold_concat(empty_form_state(), prev, sub, inputs, focusable, mf, mi);
            }
            i += 1;
        }
        let ghost st = collection.state();
        if collection.issues.len() == 0 {
            self.validation_announcement = None;
            let FormCollection { fields, fields_truncated, .. } = collection;
            return Some(FormAttempt::Valid { form, trigger, fields, fields_truncated });
        }
        let first = collection.first_focusable_invalid;
        proof {
            lemma_first_focusable_is_focusable(empty_form_state(), forest(*form_element, form_element.children.len() as int,
                keep_form_scope()), inputs, focusable, mf, mi);
        }
        if let Some(f) = first {
            self.focus(f, now);
        }
        let FormCollection { issues, issues_truncated, .. } = collection;
        let report = ValidationReport { form, trigger, issues, truncated: issues_truncated };
        let message = validation_announcement_message(&report, limits.max_message_bytes);
        let reserved = match &self.validation_announcement {
            Some(previous) => Some(previous.node),
            None => None,
        };
        let node = fresh_accessibility_id(element_ids, &self.accessibility_text_ids, reserved,
            &mut self.next_accessibility_text_id);
        self.validation_announcement = Some(ValidationAnnouncement { form, node, message });
        Some(FormAttempt::Invalid(report))
    }
}

/// The first focusable invalid control a fold records can take focus.
proof fn lemma_first_focusable_is_focusable(
    c: FormState,
    s: Seq<Element>,
    inputs: Map<ElementId, Seq<char>>,
    focusable: Set<ElementId>,
    mf: nat,
    mi: nat,
)
    requires
        c.first_focusable_invalid matches Some(f) ==> focusable.contains(f),
    ensures
        form_fold(c, s, inputs, focusable, mf, mi).first_focusable_invalid matches Some(f) ==> focusable.contains(f),
    decreases s.len(),
{
    if s.len() > 0 {
        lemma_first_focusable_is_focusable(c, s.drop_last(), inputs, focusable, mf, mi);
    }
}


/// A form's gathered state names as the control to focus the first enabled, invalid control of
/// the form that takes focus, in document order (before every other such control); a form with
/// none names none. `attempt_form_submission` moves focus to the control it names.
pub proof fn lemma_submission_focuses_first_invalid_control(
    form: Element,
    input_texts: Map<ElementId, String>,
    focusable: Set<ElementId>,
    limits: FormLimits,
    k: int,
)
    requires
        ({
            let s = forest(form, form.children.len() as int, keep_form_scope());
            &&& k >= 0
            &&& (k < s.len() ==> focusable_invalid(s[k], focusable))
            &&& forall|j: int| 0 <= j < s.len() && j < k ==> !focusable_invalid(#[trigger] s[j], focusable)
        }),
    ensures
        ({
            let s = forest(form, form.children.len() as int, keep_form_scope());
            &&& k < s.len() ==> form_controls(form, input_texts, focusable, limits).first_focusable_invalid
                == Some(s[k].runtime_id)
            &&& k >= s.len() ==> form_controls(form, input_texts, focusable, limits).first_focusable_invalid is None
        }),
{
    let s = forest(form, form.children.len() as int, keep_form_scope());
    lemma_first_invalid_control_is_focused(s, committed_values(input_texts), focusable, limits.max_fields as nat,
        limits.max_issues as nat, empty_form_state(), k);
}

} // verus!
