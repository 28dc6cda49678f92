//! Vectors walked from the front while their elements are moved out.

use vstd::prelude::*;

verus! {

/// Turns a vector around, so that popping from the result yields the
/// elements of `items` from the first one on.
pub fn reversed<T>(items: Vec<T>) -> (turned: Vec<T>)
    ensures
        turned@ == items@.reverse(),
{
    let mut items = items;
    let ghost given = items@;
    let mut turned: Vec<T> = Vec::new();
    while items.len() > 0
        invariant
            items@.len() + turned@.len() == given.len(),
            items@ == given.take(items@.len() as int),
            forall|t: int|
                0 <= t < turned@.len() ==> #[trigger] turned@[t] == given[given.len() - 1 - t],
        decreases items@.len(),
    {
        match items.pop() {
            Some(item) => {
                turned.push(item);
            },
            None => {},
        }
    }
    assert(turned@ =~= given.reverse());
    turned
}

} // verus!
