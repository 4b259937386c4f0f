use vstd::prelude::*;

use crate::types::{rule_eq, ContactRule};
use vstd::std_specs::cmp::{PartialEqSpec, PartialEqSpecImpl};
use vstd::std_specs::iter::IteratorSpec;

verus! {

/// The contact rules of one particle type, in the order in which they are tried.
#[derive(Clone, Debug)]
pub struct ContactReaction {
    /// The list of contact rules for this particle type.
    pub rules: Vec<ContactRule>,
}

impl View for ContactReaction {
    type V = Seq<ContactRule>;

    open spec fn view(&self) -> Seq<ContactRule> {
        self.rules@
    }
}

impl PartialEq for ContactReaction {
    fn eq(&self, other: &ContactReaction) -> (r: bool) {
        let n = self.rules.len();
        if n != other.rules.len() {
            return false;
        }
        let mut i: usize = 0;
        while i < n
            invariant
                n == self@.len(),
                n == other@.len(),
                0 <= i <= n,
                forall|j: int| 0 <= j < i ==> rule_eq(#[trigger] self@[j], other@[j]),
            decreases n - i,
        {
            if !(self.rules[i] == other.rules[i]) {
                return false;
            }
            i = i + 1;
        }
        true
    }
}

impl PartialEqSpecImpl for ContactReaction {
    open spec fn obeys_eq_spec() -> bool {
        true
    }

    /// Two reactions are equal when they hold equal rules in the same order.
    open spec fn eq_spec(&self, other: &ContactReaction) -> bool {
        &&& self@.len() == other@.len()
        &&& forall|i: int| 0 <= i < self@.len() ==> rule_eq(#[trigger] self@[i], other@[i])
    }
}

/// Two reactions are equal exactly when they hold the same number of rules and each
/// rule, the last one included, equals the rule at the same place in the other.
pub proof fn law_reaction_equality_is_rule_by_rule(a: ContactReaction, b: ContactReaction)
    ensures
        PartialEqSpec::eq_spec(&a, &b) <==> (a@.len() == b@.len() && forall|i: int|
            0 <= i < a@.len() ==> PartialEqSpec::eq_spec(&(#[trigger] a@[i]), &b@[i])),
        PartialEqSpec::eq_spec(&a, &b) && a@.len() > 0 ==> PartialEqSpec::eq_spec(&a@.last(), &b@.last()),
{
    if PartialEqSpec::eq_spec(&a, &b) && a@.len() > 0 {
        assert(rule_eq(a@[a@.len() - 1], b@[a@.len() - 1]));
    }
}

impl Default for ContactReaction {
    /// A reaction with no rules.
    fn default() -> (r: ContactReaction)
        ensures
            r@ == Seq::<ContactRule>::empty(),
    {
        ContactReaction { rules: Vec::new() }
    }
}

impl AsRef<[ContactRule]> for ContactReaction {
    /// The contact rules, in order.
    fn as_ref(&self) -> (s: &[ContactRule])
        ensures
            s@ == self@,
    {
        self.rules.as_slice()
    }
}

impl IntoIterator for ContactReaction {
    type Item = ContactRule;
    type IntoIter = std::vec::IntoIter<ContactRule>;

    /// The rules, by value, in order.
    fn into_iter(self) -> (it: std::vec::IntoIter<ContactRule>)
        ensures
            it.remaining() == self@,
    {
        self.rules.into_iter()
    }
}

impl<'a> IntoIterator for &'a ContactReaction {
    type Item = &'a ContactRule;
    type IntoIter = std::slice::Iter<'a, ContactRule>;

    /// The rules, by reference, in order.
    fn into_iter(self) -> (it: std::slice::Iter<'a, ContactRule>)
        ensures
            it.remaining() == self@.as_ref(),
    {
        self.rules.iter()
    }
}

impl ContactReaction {
    /// Create contact reactions from rules, keeping their order.
    pub fn new(rules: Vec<ContactRule>) -> (r: ContactReaction)
        ensures
            r@ == rules@,
    {
        ContactReaction { rules }
    }

    /// Add a rule at the end and return the updated reactions.
    pub fn with_rule(self, rule: ContactRule) -> (r: ContactReaction)
        ensures
            r@ == self@.push(rule),
    {
        let mut s = self;
        s.rules.push(rule);
        s
    }

    /// Add a contact rule at the end.
    pub fn push(&mut self, rule: ContactRule)
        ensures
            final(self)@ == old(self)@.push(rule),
    {
        self.rules.push(rule);
    }

    /// Append the given rules, in order, after the present ones.
    pub fn extend(&mut self, rules: Vec<ContactRule>)
        ensures
            final(self)@ == old(self)@ + rules@,
    {
        let mut more = rules;
        self.rules.append(&mut more);
    }

    /// Return the number of contact rules.
    pub fn len(&self) -> (n: usize)
        ensures
            n == self@.len(),
    {
        self.rules.len()
    }

    /// Return whether there are no contact rules.
    pub fn is_empty(&self) -> (b: bool)
        ensures
            b <==> self@.len() == 0,
    {
        self.rules.len() == 0
    }

    /// Iterate through the contact rules, in order.
    pub fn iter(&self) -> (it: std::slice::Iter<'_, ContactRule>)
        ensures
            it.remaining() == self@.as_ref(),
    {
        self.rules.iter()
    }

    /// Mutable access to the contact rules, in order: what is written through the
    /// returned slice is what the reaction holds afterwards.
    pub fn iter_mut(&mut self) -> (s: &mut [ContactRule])
        ensures
            s@ == old(self)@,
            final(s)@ == final(self)@,
    {
        self.rules.as_mut_slice()
    }
}

} // verus!
