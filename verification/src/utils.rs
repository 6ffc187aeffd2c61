use vstd::prelude::*;
use vstd::std_specs::cmp::PartialEqSpec;

verus! {

/// Replaces `prev` by `new` when they differ; returns whether it did
pub fn update_if_changed<T: PartialEq>(prev: &mut T, new: T) -> (changed: bool)
    ensures
        T::obeys_eq_spec() ==> changed == !(*old(prev)).eq_spec(&new),
        changed ==> *final(prev) == new,
        !changed ==> *final(prev) == *old(prev),
{
    if *prev == new {
        false
    } else {
        *prev = new;
        true
    }
}

} // verus!
