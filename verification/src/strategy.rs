//! The interface that every reduction engine offers to its driver.

use vstd::prelude::*;
use crate::tree::Tree;

verus! {

/// The number of rewrite steps that an engine takes on one term before it
/// gives up. It is as large as the machine allows: a term that needs more
/// steps is treated as one that has no normal form.
pub const STEP_LIMIT: u64 = 0xffff_ffff_ffff_ffff;

/// A reduction engine: it is loaded with a term, then asked to normalise it
/// and to read the result as a Church numeral.
pub trait Strategy {
    /// Whether the engine is in the state that loading `tree` leaves it in.
    spec fn loaded_with(&self, tree: Tree) -> bool;

    /// The number that the engine gives when it is asked to reduce.
    spec fn result(&self) -> Option<u64>;

    /// Replaces the state of the engine by a fresh representation of `tree`.
    fn build(&mut self, tree: &Tree)
        ensures
            final(self).loaded_with(*tree),
    ;

    /// Normalises the loaded term and reads the normal form as a number;
    /// `None` where the result is no Church numeral.
    fn reduce(&mut self) -> (value: Option<u64>)
        ensures
            value == old(self).result(),
    ;

    /// The name under which the engine is reported.
    fn name(&self) -> String;
}

} // verus!
