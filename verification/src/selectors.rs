//! The selector syntax tree that the matcher and the rule index read.
//!
//! A selector is read from right to left: the head of the compound chain is
//! the compound that the subject element itself must match, and `next` leads
//! away from the subject, towards ancestors and earlier siblings.

use vstd::prelude::*;

verus! {

/// A pseudo-element that a selector can address.
#[derive(Clone, Copy, Debug, PartialEq, Eq, Structural)]
pub enum PseudoElement {
    Before,
    After,
    FirstLine,
    FirstLetter,
}

/// The relation between two neighbouring compound selectors.
#[derive(Clone, Copy, Debug, PartialEq, Eq, Structural)]
pub enum Combinator {
    /// `a > b`
    Child,
    /// `a b`
    Descendant,
    /// `a + b`
    NextSibling,
    /// `a ~ b`
    LaterSibling,
}

/// The attribute that an attribute selector names.
#[derive(Debug)]
pub struct AttrSelector {
    pub namespace: Option<String>,
    pub name: String,
}

/// One condition on a single element.
#[derive(Debug)]
pub enum SimpleSelector {
    LocalName(String),
    Namespace(String),
    ID(String),
    Class(String),
    AttrExists(AttrSelector),
    AttrEqual(AttrSelector, String),
    AttrIncludes(AttrSelector, String),
    /// The attribute, the value, and the value followed by a hyphen.
    AttrDashMatch(AttrSelector, String, String),
    AttrPrefixMatch(AttrSelector, String),
    AttrSubstringMatch(AttrSelector, String),
    AttrSuffixMatch(AttrSelector, String),
    AnyLink,
    Link,
    Visited,
    FirstChild,
    LastChild,
    OnlyChild,
    Root,
    NthChild(i32, i32),
    NthLastChild(i32, i32),
    NthOfType(i32, i32),
    NthLastOfType(i32, i32),
    FirstOfType,
    LastOfType,
    OnlyOfType,
    Negation(Vec<SimpleSelector>),
}

/// Simple selectors that one element must meet together, and the compound
/// that an ancestor or earlier sibling of it must meet.
#[derive(Debug)]
pub struct CompoundSelector {
    pub simple_selectors: Vec<SimpleSelector>,
    pub next: Option<(Box<CompoundSelector>, Combinator)>,
}

/// A complete selector with its specificity.
#[derive(Debug)]
pub struct Selector {
    pub compound_selectors: CompoundSelector,
    pub pseudo_element: Option<PseudoElement>,
    pub specificity: u32,
}

} // verus!
