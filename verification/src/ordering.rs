//! `<` and `partial_cmp` for fields and tclasses, from their signs (see
//! the order module).
use crate::field::Field;
use crate::order::{compare_fields, compare_tclasses, field_sign, tclass_sign};
use crate::tclass::TClass;
use core::cmp::Ordering;
use vstd::prelude::*;

verus! {

/// The ordering that a sign stands for.
pub open spec fn ordering_of(sign: int) -> Ordering {
    if sign < 0 {
        Ordering::Less
    } else if sign == 0 {
        Ordering::Equal
    } else {
        Ordering::Greater
    }
}

/// Returns the ordering that a sign stands for.
pub fn to_ordering(sign: i8) -> (o: Ordering)
    ensures
        sign < 0 ==> o == Ordering::Less,
        sign == 0 ==> o == Ordering::Equal,
        sign > 0 ==> o == Ordering::Greater,
{
    if sign < 0 {
        Ordering::Less
    } else if sign == 0 {
        Ordering::Equal
    } else {
        Ordering::Greater
    }
}

impl PartialOrd for Field {
    fn partial_cmp(&self, other: &Self) -> (r: Option<Ordering>) {
        Some(to_ordering(compare_fields(self, other)))
    }
}

impl vstd::std_specs::cmp::PartialOrdSpecImpl for Field {
    open spec fn obeys_partial_cmp_spec() -> bool {
        true
    }

    open spec fn partial_cmp_spec(&self, other: &Field) -> Option<Ordering> {
        Some(ordering_of(field_sign(self@, other@)))
    }
}

impl PartialOrd for TClass {
    fn partial_cmp(&self, other: &Self) -> (r: Option<Ordering>) {
        Some(to_ordering(compare_tclasses(self, other)))
    }
}

impl vstd::std_specs::cmp::PartialOrdSpecImpl for TClass {
    open spec fn obeys_partial_cmp_spec() -> bool {
        true
    }

    open spec fn partial_cmp_spec(&self, other: &TClass) -> Option<Ordering> {
        Some(ordering_of(tclass_sign(self@, other@)))
    }
}

} // verus!
