//! Selector matching and the cascade.
//!
//! A `Stylist` holds the rules of the style sheets of the user agent, the
//! user and the author. For an element of a document tree it gives the
//! blocks of declarations that apply to the element, the weakest first. The
//! rules are indexed by what their subject must carry (`SelectorMap`), held
//! against the element from right to left (`matching`), and ordered by
//! origin, priority, specificity and position.

pub mod selectors;
pub mod text;
pub mod tree;
pub mod matching;
pub mod stylesheets;
pub mod rule;
pub mod sort;
pub mod selector_map;
pub mod stylist;
pub mod document;
pub mod html;
