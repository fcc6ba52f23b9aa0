//! Variables for elements of the secure field, an extension of the complex one.

use super::cm31::CM31Var;
use vstd::prelude::*;

verus! {

/// A secure field element: `first + second * u`.
#[derive(Clone, Copy, Debug)]
pub struct QM31Var {
    pub first: CM31Var,
    pub second: CM31Var,
}

} // verus!
