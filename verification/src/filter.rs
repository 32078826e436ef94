//! The two name lists that restrict which signatures are reported.

use crate::signature::{RuleView, SignatureRule};
use vstd::prelude::*;

verus! {

/// The character sequences of a list of names.
pub open spec fn names(list: Seq<String>) -> Seq<Seq<char>> {
    list.map_values(|s: String| s@)
}

/// The character sequences of an optional list of names.
pub open spec fn optional_names(list: Option<Vec<String>>) -> Option<Seq<Seq<char>>> {
    match list {
        Some(l) => Some(names(l@)),
        None => None,
    }
}

/// A list names a rule by its identifier or by its name.
pub open spec fn lists(list: Seq<Seq<char>>, rule: RuleView) -> bool {
    list.contains(rule.id) || list.contains(rule.name)
}

/// The mathematical content of a [`Filter`].
pub struct FilterView {
    pub restrict_to: Option<Seq<Seq<char>>>,
    pub suppress: Option<Seq<Seq<char>>>,
}

impl FilterView {
    /// A rule passes when the restricting list, if one is set, names it, and
    /// the suppressing list, if one is set, does not. Suppression wins where
    /// both lists name the rule.
    pub open spec fn admits(self, rule: RuleView) -> bool {
        &&& self.restrict_to is Some ==> lists(self.restrict_to.unwrap(), rule)
        &&& self.suppress is Some ==> !lists(self.suppress.unwrap(), rule)
    }
}

/// Which signatures a scan reports: an optional list of identifiers or names
/// to restrict the report to, and an optional list of those to suppress.
#[derive(Debug)]
pub struct Filter {
    pub restrict_to: Option<Vec<String>>,
    pub suppress: Option<Vec<String>>,
}

impl View for Filter {
    type V = FilterView;

    open spec fn view(&self) -> FilterView {
        FilterView {
            restrict_to: optional_names(self.restrict_to),
            suppress: optional_names(self.suppress),
        }
    }
}

/// Whether `name` stands in `list`.
pub fn holds_name(list: &Vec<String>, name: &String) -> (r: bool)
    ensures
        r == names(list@).contains(name@),
{
    let mut i: usize = 0;
    while i < list.len()
        invariant
            i <= list@.len(),
            forall|k: int| 0 <= k < i ==> names(list@)[k] != name@,
        decreases list@.len() - i,
    {
        if list[i] == *name {
            assert(names(list@)[i as int] == name@);
            return true;
        }
        i += 1;
    }
    false
}

impl Filter {
    /// The filter that lets every signature pass.
    pub fn everything() -> (r: Filter)
        ensures
            r@.restrict_to is None,
            r@.suppress is None,
    {
        Filter { restrict_to: None, suppress: None }
    }

    /// Whether the rule passes this filter.
    pub fn admits(&self, rule: &SignatureRule) -> (r: bool)
        ensures
            r == self@.admits(rule@),
    {
        let wanted = match &self.restrict_to {
            Some(list) => holds_name(list, &rule.id) || holds_name(list, &rule.name),
            None => true,
        };
        let unwanted = match &self.suppress {
            Some(list) => holds_name(list, &rule.id) || holds_name(list, &rule.name),
            None => false,
        };
        wanted && !unwanted
    }
}

} // verus!
