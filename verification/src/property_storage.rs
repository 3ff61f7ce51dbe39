use vstd::prelude::*;

use crate::property::Property;

verus! {

/// Upper bound on the properties one packet may hold: the configured
/// capacity of the bounded property sequence.
pub const MAX_PROPERTIES: usize = 16;

#[verifier::external_type_specification]
#[verifier::external_body]
#[verifier::reject_recursive_types(T)]
pub struct ExHeaplessVec<T, const N: usize>(heapless::Vec<T, N>);

/// The items a bounded property vector holds, in order.
pub uninterp spec fn props_of(v: heapless::Vec<Property, MAX_PROPERTIES>) -> Seq<Property>;

/// Relies on heapless::Vec::new: a fresh vector is empty.
#[verifier::external_body]
pub fn props_new() -> (r: heapless::Vec<Property, MAX_PROPERTIES>)
    ensures
        props_of(r) == Seq::<Property>::empty(),
{
    heapless::Vec::new()
}

/// Relies on heapless::Vec::len: the count of stored items, never above the
/// capacity the vector was declared with.
#[verifier::external_body]
pub fn props_len(v: &heapless::Vec<Property, MAX_PROPERTIES>) -> (r: usize)
    ensures
        r == props_of(*v).len(),
        r <= MAX_PROPERTIES,
{
    v.len()
}

/// Relies on heapless::Vec::push: appends when below capacity; at capacity
/// it hands the item back and leaves the vector as it was.
#[verifier::external_body]
pub fn props_push(v: &mut heapless::Vec<Property, MAX_PROPERTIES>, p: Property) -> (r: Result<
    (),
    Property,
>)
    ensures
        props_of(*old(v)).len() < MAX_PROPERTIES ==> r is Ok && props_of(*final(v)) == props_of(
            *old(v),
        ).push(p),
        props_of(*old(v)).len() >= MAX_PROPERTIES ==> (r matches Err(q) && q == p) && props_of(
            *final(v),
        ) == props_of(*old(v)),
{
    v.push(p)
}

/// Relies on heapless::Vec's slice view: indexing yields the stored item.
#[verifier::external_body]
pub fn props_get(v: &heapless::Vec<Property, MAX_PROPERTIES>, i: usize) -> (r: &Property)
    requires
        i < props_of(*v).len(),
    ensures
        *r == props_of(*v)[i as int],
{
    &v[i]
}

} // verus!
