//! Access policies: who may reach which resource.

use crate::event::Did;
use vstd::prelude::*;

verus! {

/// What a policy does for those it matches.
#[derive(Clone, Copy, Debug, PartialEq, Eq, Structural)]
pub enum Effect {
    Allow,
    Deny,
}

/// The subjects that a policy speaks of.
#[derive(Clone, Debug, PartialEq, Eq)]
pub enum AccessorSet {
    /// Everyone.
    Any,
    /// The listed identities.
    Specific(Vec<Did>),
    /// The members of a group. Groups are not resolved, so this matches no
    /// one.
    Group(String),
}

/// A condition attached to a policy.
#[derive(Clone, Debug)]
pub struct Condition {
    /// The kind of condition.
    pub type_: String,
    /// What it asks for.
    pub value: String,
}

/// A policy: an effect for some subjects on some resources.
#[derive(Clone, Debug)]
pub struct Policy {
    pub id: String,
    pub description: String,
    pub effect: Effect,
    pub subjects: AccessorSet,
    /// The ids of the resources; `*` stands for all of them.
    pub resources: Vec<String>,
    pub conditions: Vec<Condition>,
}

/// Whether a list of texts holds a given text.
pub open spec fn holds_text(list: Seq<String>, wanted: Seq<char>) -> bool {
    exists|i: int| 0 <= i < list.len() && (#[trigger] list[i])@ == wanted
}

/// Whether a list of texts holds a given text.
pub fn contains_text(list: &Vec<String>, wanted: &str) -> (found: bool)
    ensures
        found == holds_text(list@, wanted@),
{
    let wanted_text = wanted.to_owned();
    let mut i: usize = 0;
    while i < list.len()
        invariant
            i <= list@.len(),
            wanted_text@ == wanted@,
            forall|j: int| 0 <= j < i ==> (#[trigger] list@[j])@ != wanted@,
        decreases list@.len() - i,
    {
        if list[i] == wanted_text {
            return true;
        }
        i += 1;
    }
    false
}

impl Policy {
    /// Whether the policy speaks of a subject.
    pub open spec fn covers_subject(&self, sub: Seq<char>) -> bool {
        match self.subjects {
            AccessorSet::Any => true,
            AccessorSet::Specific(dids) => holds_text(dids@, sub),
            AccessorSet::Group(_) => false,
        }
    }

    /// Whether the policy speaks of a resource: by its id, or by `*`.
    pub open spec fn covers_resource(&self, res: Seq<char>) -> bool {
        holds_text(self.resources@, res) || holds_text(self.resources@, "*"@)
    }

    /// Whether the policy speaks of this subject and this resource.
    pub open spec fn matches(&self, sub: Seq<char>, res: Seq<char>) -> bool {
        self.covers_subject(sub) && self.covers_resource(res)
    }

    /// Whether the policy speaks of this subject and this resource.
    pub fn is_match(&self, sub: &Did, res: &str) -> (matched: bool)
        ensures
            matched == self.matches(sub@, res@),
    {
        let subject_match = match &self.subjects {
            AccessorSet::Any => true,
            AccessorSet::Specific(dids) => contains_text(dids, sub.as_str()),
            AccessorSet::Group(_) => false,
        };
        if !subject_match {
            return false;
        }
        if !contains_text(&self.resources, res) && !contains_text(&self.resources, "*") {
            return false;
        }
        true
    }
}

} // verus!
