//! Style sheets as the parser hands them over.

use std::sync::Arc;
use vstd::prelude::*;
use crate::selectors::Selector;

verus! {

/// One declaration of a property, such as `color: red`.
#[derive(Debug)]
pub struct PropertyDeclaration {
    pub name: String,
    pub value: String,
}

/// The declarations of one block, parted by priority. Each part is shared
/// among the rules that are made of it.
#[derive(Debug)]
pub struct PropertyDeclarationBlock {
    /// The declarations marked `!important`.
    pub important: Arc<Vec<PropertyDeclaration>>,
    pub normal: Arc<Vec<PropertyDeclaration>>,
}

/// A list of selectors with the declarations that they all lead to.
#[derive(Debug)]
pub struct StyleRule {
    pub selectors: Vec<Selector>,
    pub declarations: PropertyDeclarationBlock,
}

/// The style rules of one sheet that apply on a screen, in source order.
#[derive(Debug)]
pub struct Stylesheet {
    pub rules: Vec<StyleRule>,
}

} // verus!
