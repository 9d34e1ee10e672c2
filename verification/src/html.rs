//! The interfaces of HTML elements that add no method of their own.

use vstd::prelude::*;

verus! {

/// The methods of the `br` element beyond those of every HTML element: none.
pub trait HTMLBRElementMethods {

}

/// The methods of the `data` element beyond those of every HTML element: none.
pub trait HTMLDataElementMethods {

}

} // verus!
