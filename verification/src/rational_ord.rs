//! Ordering of exact musical time by value.

use crate::rational::RationalTime;
use core::cmp::Ordering;
use vstd::prelude::*;
use vstd::std_specs::cmp::PartialOrdSpecImpl;

verus! {

impl PartialOrd for RationalTime {
    fn partial_cmp(&self, other: &RationalTime) -> (r: Option<Ordering>) {
        let c = self.compare_sign(other);
        if c < 0 {
            Some(Ordering::Less)
        } else if c == 0 {
            Some(Ordering::Equal)
        } else {
            Some(Ordering::Greater)
        }
    }
}

impl PartialOrdSpecImpl for RationalTime {
    open spec fn obeys_partial_cmp_spec() -> bool {
        true
    }

    open spec fn partial_cmp_spec(&self, other: &RationalTime) -> Option<Ordering> {
        if RationalTime::lt_value(*self, *other) {
            Some(Ordering::Less)
        } else if RationalTime::same_value(*self, *other) {
            Some(Ordering::Equal)
        } else {
            Some(Ordering::Greater)
        }
    }
}

} // verus!
