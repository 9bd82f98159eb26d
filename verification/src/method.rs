//! Request methods.

use vstd::prelude::*;

verus! {

/// The method of a request.
#[derive(Clone, Copy, PartialEq, Eq, Structural, Debug, Hash)]
pub enum Method {
    Get,
    Head,
    Post,
    Put,
    Delete,
    Connect,
    Options,
    Trace,
    Patch,
}

/// Whether `m` occurs in `methods`.
pub fn method_listed(methods: &Vec<Method>, m: Method) -> (found: bool)
    ensures
        found == methods@.contains(m),
{
    let mut i: usize = 0;
    while i < methods.len()
        invariant
            i <= methods.len(),
            forall|j: int| 0 <= j < i ==> methods@[j] != m,
        decreases methods.len() - i,
    {
        if methods[i] == m {
            return true;
        }
        i += 1;
    }
    false
}

} // verus!
