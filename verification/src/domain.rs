//! The two fixed evaluation domains of the protocol: the trace domain of
//! size 4 and the low-degree-extension (LDE) domain of size 8.
use vstd::prelude::*;

use crate::field::{all_in_field, lde_domain_vals, seq_vals, trace_domain_vals, BaseField,
    CyclicGroup};

verus! {

/// Represents the domain of either the trace polynomial or the LDE trace
/// polynomial. Both domains are cyclic groups; the `GENERATOR` const
/// generic is the value of the group generator, `N` the size of the domain.
pub struct Domain<const N: usize, const GENERATOR: u8> {
    pub elements: Vec<BaseField>,
}

impl<const N: usize, const GENERATOR: u8> Domain<N, GENERATOR> {
    pub fn generator() -> (r: BaseField)
        ensures
            r@ == GENERATOR as int % 17,
    {
        BaseField::new(GENERATOR)
    }
}

/// The domain the trace polynomial is interpolated over: the order-4
/// subgroup `[1, 13, 16, 4]`, generated by 13.
pub fn domain_trace() -> (r: Domain<4, 13>)
    ensures
        seq_vals(r.elements@) == trace_domain_vals(),
        r.elements@.len() == 4,
        all_in_field(seq_vals(r.elements@)),
{
    match CyclicGroup::new(4) {
        Ok(group) => Domain { elements: group.elements },
        Err(_) => vstd::pervasive::unreached(),
    }
}

/// The domain of the low-degree extended trace: the coset
/// `[3, 10, 5, 11, 14, 7, 12, 6]` of the order-8 subgroup generated by 9,
/// shifted by 3 so that it is disjoint from the trace domain.
pub fn domain_lde() -> (r: Domain<8, 9>)
    ensures
        seq_vals(r.elements@) == lde_domain_vals(),
        r.elements@.len() == 8,
        all_in_field(seq_vals(r.elements@)),
{
    match CyclicGroup::new(8) {
        Ok(group) => Domain { elements: group.elements },
        Err(_) => vstd::pervasive::unreached(),
    }
}

} // verus!
