//! One selector with its declarations, and the place of the pair in the
//! cascade.

use std::cmp::Ordering;
use std::sync::Arc;
use vstd::prelude::*;
use vstd::std_specs::cmp::{PartialEqSpecImpl, PartialOrdSpecImpl};
use crate::selectors::Selector;
use crate::stylesheets::PropertyDeclaration;

verus! {

/// `Arc::clone` hands out one more handle to the value that `handle` shares.
#[verifier::external_body]
pub(crate) fn share<T>(handle: &Arc<T>) -> (shared: Arc<T>)
    ensures
        shared == *handle,
{
    Arc::clone(handle)
}

/// A selector and the declarations that apply where it matches.
#[derive(Debug)]
pub struct Rule {
    pub selector: Arc<Selector>,
    pub declarations: Arc<Vec<PropertyDeclaration>>,
    /// The position of the style rule in its sheet.
    pub rule_index: usize,
    /// The position of the sheet among the sheets of the stylist.
    pub stylesheet_index: usize,
}

/// What rules are ordered by: specificity, then sheet, then position in the sheet.
pub type Rank = (u32, usize, usize);

/// The lexicographic order of ranks.
pub open spec fn rank_lt(a: Rank, b: Rank) -> bool {
    a.0 < b.0 || (a.0 == b.0 && (a.1 < b.1 || (a.1 == b.1 && a.2 < b.2)))
}

impl Rule {
    pub open spec fn rank(self) -> Rank {
        (self.selector.specificity, self.stylesheet_index, self.rule_index)
    }

    /// Whether `self` stands before `other` in the cascade: a rule of higher
    /// rank wins over one of lower rank.
    pub open spec fn precedes(self, other: Rule) -> bool {
        rank_lt(self.rank(), other.rank())
    }

    /// Tells whether `self` stands before `other` in the cascade.
    pub fn lt(&self, other: &Rule) -> (r: bool)
        ensures
            r == self.precedes(*other),
    {
        let a = self.selector.specificity;
        let b = other.selector.specificity;
        if a != b {
            a < b
        } else if self.stylesheet_index != other.stylesheet_index {
            self.stylesheet_index < other.stylesheet_index
        } else {
            self.rule_index < other.rule_index
        }
    }
}

/// The order of ranks is strict and total: no rank stands before itself, of
/// two different ranks one stands before the other, and the order carries on
/// from rank to rank.
pub proof fn lemma_rank_order(a: Rank, b: Rank, c: Rank)
    ensures
        !rank_lt(a, a),
        rank_lt(a, b) || rank_lt(b, a) || a == b,
        !(rank_lt(a, b) && rank_lt(b, a)),
        rank_lt(a, b) && rank_lt(b, c) ==> rank_lt(a, c),
{
}

impl Clone for Rule {
    /// Another handle to the same selector and declarations.
    fn clone(&self) -> (copy: Rule)
        ensures
            copy == *self,
    {
        Rule {
            selector: share(&self.selector),
            declarations: share(&self.declarations),
            rule_index: self.rule_index,
            stylesheet_index: self.stylesheet_index,
        }
    }
}

impl PartialEq for Rule {
    /// Two rules are equal in the cascade where they have the same rank.
    fn eq(&self, other: &Rule) -> (r: bool) {
        self.selector.specificity == other.selector.specificity && self.stylesheet_index
            == other.stylesheet_index && self.rule_index == other.rule_index
    }
}

impl PartialEqSpecImpl for Rule {
    open spec fn obeys_eq_spec() -> bool {
        true
    }

    open spec fn eq_spec(&self, other: &Rule) -> bool {
        self.rank() == other.rank()
    }
}

impl PartialOrd for Rule {
    /// The order of the cascade: by specificity, then by style sheet, then
    /// by the position in the sheet.
    fn partial_cmp(&self, other: &Rule) -> (r: Option<Ordering>) {
        if self.lt(other) {
            Some(Ordering::Less)
        } else if other.lt(self) {
            Some(Ordering::Greater)
        } else {
            Some(Ordering::Equal)
        }
    }
}

impl PartialOrdSpecImpl for Rule {
    open spec fn obeys_partial_cmp_spec() -> bool {
        true
    }

    open spec fn partial_cmp_spec(&self, other: &Rule) -> Option<Ordering> {
        if self.precedes(*other) {
            Some(Ordering::Less)
        } else if other.precedes(*self) {
            Some(Ordering::Greater)
        } else {
            Some(Ordering::Equal)
        }
    }
}

} // verus!
