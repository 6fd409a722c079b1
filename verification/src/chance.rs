//! The one place where the library draws on chance.

use crate::grid::Cell;
use rand::seq::SliceRandom;
use rand::thread_rng;
use vstd::prelude::*;

verus! {

/// Calls `rand::seq::SliceRandom::choose` on the cells with the thread's
/// generator, `rand::thread_rng`. Believed of it, not proved: it gives
/// nothing for an empty list, and otherwise one of the listed cells. Which
/// one is left open, so two calls on one list may differ.
#[verifier::external_body]
pub(crate) fn choose_cell(cells: &Vec<Cell>) -> (picked: Option<Cell>)
    ensures
        cells@.len() == 0 ==> picked is None,
        cells@.len() > 0 ==> picked is Some && cells@.contains(picked->0),
{
    cells.choose(&mut thread_rng()).cloned()
}

} // verus!
