//! Signature rules and the registry that holds them in declaration order.

use crate::confidence::Confidence;
use crate::pattern::{Pattern, PatternByte};
use vstd::prelude::*;

verus! {

/// A named byte-pattern rule identifying a file format or structure.
///
/// `validator` and `extractor` are references by name: the collaborators
/// that the scanner and the orchestrator consult resolve them.
#[derive(Debug)]
pub struct SignatureRule {
    pub id: String,
    pub name: String,
    pub description: String,
    pub pattern: Pattern,
    pub confidence: Confidence,
    pub validator: Option<String>,
    pub extractor: Option<String>,
}

/// The mathematical content of a [`SignatureRule`].
pub struct RuleView {
    pub id: Seq<char>,
    pub name: Seq<char>,
    pub description: Seq<char>,
    pub pattern: Seq<PatternByte>,
    pub confidence: Confidence,
    pub validator: Option<Seq<char>>,
    pub extractor: Option<Seq<char>>,
}

/// The characters of an optional name.
pub open spec fn optional_text(s: Option<String>) -> Option<Seq<char>> {
    match s {
        Some(t) => Some(t@),
        None => None,
    }
}

impl View for SignatureRule {
    type V = RuleView;

    open spec fn view(&self) -> RuleView {
        RuleView {
            id: self.id@,
            name: self.name@,
            description: self.description@,
            pattern: self.pattern@,
            confidence: self.confidence,
            validator: optional_text(self.validator),
            extractor: optional_text(self.extractor),
        }
    }
}

/// No two rules carry the same identifier.
pub open spec fn distinct_ids(rules: Seq<RuleView>) -> bool {
    forall|i: int, j: int| 0 <= i < j < rules.len() ==> rules[i].id != rules[j].id
}

/// Why a rule was not accepted into a registry.
#[derive(Clone, Copy, Debug, PartialEq, Eq)]
pub enum RegistryError {
    /// A rule with the same identifier is already registered.
    DuplicateId,
}

/// The set of known signature rules, in declaration order, with distinct
/// identifiers.
#[derive(Debug)]
pub struct Registry {
    rules: Vec<SignatureRule>,
}

impl View for Registry {
    type V = Seq<RuleView>;

    closed spec fn view(&self) -> Seq<RuleView> {
        Seq::new(self.rules@.len(), |i: int| self.rules@[i]@)
    }
}

impl Registry {
    #[verifier::type_invariant]
    spec fn well_formed(self) -> bool {
        distinct_ids(self@)
    }

    /// A registry without rules.
    pub fn new() -> (r: Registry)
        ensures
            r@ == Seq::<RuleView>::empty(),
    {
        let r = Registry { rules: Vec::new() };
        assert(r@ =~= Seq::<RuleView>::empty());
        r
    }

    /// Number of rules.
    pub fn len(&self) -> (n: usize)
        ensures
            n == self@.len(),
    {
        self.rules.len()
    }

    /// The rule declared at position `index`.
    pub fn rule(&self, index: usize) -> (r: &SignatureRule)
        requires
            index < self@.len(),
        ensures
            r@ == self@[index as int],
    {
        &self.rules[index]
    }

    /// Identifiers are distinct in every registry.
    pub fn identifiers_distinct(&self)
        ensures
            distinct_ids(self@),
    {
        proof {
            use_type_invariant(self);
        }
    }

    /// The position of the rule with identifier `id`, if there is one.
    pub fn find(&self, id: &String) -> (r: Option<usize>)
        ensures
            (match r {
                Some(i) => i < self@.len() && self@[i as int].id == id@,
                None => forall|i: int| 0 <= i < self@.len() ==> self@[i].id != id@,
            }),
    {
        let mut i: usize = 0;
        while i < self.rules.len()
            invariant
                i <= self.rules@.len(),
                forall|k: int| 0 <= k < i ==> self@[k].id != id@,
            decreases self.rules@.len() - i,
        {
            if self.rules[i].id == *id {
                return Some(i);
            }
            i += 1;
        }
        None
    }

    /// Appends a rule. A rule whose identifier is already taken is refused
    /// and the registry stays as it was.
    pub fn register(&mut self, rule: SignatureRule) -> (r: Result<(), RegistryError>)
        ensures
            r is Err <==> exists|i: int| 0 <= i < old(self)@.len() && old(self)@[i].id == rule@.id,
            r is Ok ==> final(self)@ == old(self)@.push(rule@),
            r is Err ==> final(self)@ == old(self)@,
            r is Err ==> r == Err::<(), RegistryError>(RegistryError::DuplicateId),
    {
        proof {
            use_type_invariant(&*self);
        }
        match self.find(&rule.id) {
            Some(_) => Err(RegistryError::DuplicateId),
            None => {
                let ghost before = self@;
                let mut rules: Vec<SignatureRule> = Vec::new();
                assert(Seq::new(rules@.len(), |i: int| rules@[i]@) =~= Seq::<RuleView>::empty());
                core::mem::swap(&mut self.rules, &mut rules);
                rules.push(rule);
                assert(Seq::new(rules@.len(), |i: int| rules@[i]@) =~= before.push(rule@));
                core::mem::swap(&mut self.rules, &mut rules);
                Ok(())
            },
        }
    }
}

} // verus!
