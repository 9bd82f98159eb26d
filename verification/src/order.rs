//! Moving the items of a vector while keeping their order.

use vstd::prelude::*;

verus! {

/// The items of `items` in reverse order.
pub fn reversed<T>(items: Vec<T>) -> (out: Vec<T>)
    ensures
        out@ == items@.reverse(),
{
    let mut rest = items;
    let mut out: Vec<T> = Vec::new();
    let ghost all = rest@;
    while rest.len() > 0
        invariant
            rest@ == all.take(rest.len() as int),
            out.len() + rest.len() == all.len(),
            forall|j: int| 0 <= j < out.len() ==> out@[j] == all[all.len() - 1 - j],
        decreases rest.len(),
    {
        let item = rest.pop().unwrap();
        out.push(item);
    }
    assert(out@ =~= all.reverse());
    out
}

} // verus!
