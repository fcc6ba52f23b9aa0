//! The multiplication table's variable.

use vstd::prelude::*;

verus! {

/// Stands for a multiplication table. Scripts that may multiply need none, so it holds nothing.
#[derive(Clone, Copy, Debug)]
pub struct TableVar {}

} // verus!
