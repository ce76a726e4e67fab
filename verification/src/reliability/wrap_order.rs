//! The wrap-around order of sequence ids.
use vstd::prelude::*;
use core::cmp::Ordering;
use vstd::std_specs::cmp::PartialOrdSpecImpl;
use super::seq::{SeqId, newer};

verus! {

impl PartialOrd for SeqId {
    fn partial_cmp(&self, other: &Self) -> (r: Option<Ordering>) {
        if self.0 == other.0 {
            Some(Ordering::Equal)
        } else if self.is_newer_than(*other) {
            Some(Ordering::Greater)
        } else {
            Some(Ordering::Less)
        }
    }
}

impl PartialOrdSpecImpl for SeqId {
    open spec fn obeys_partial_cmp_spec() -> bool {
        true
    }

    open spec fn partial_cmp_spec(&self, other: &Self) -> Option<Ordering> {
        if self.0 == other.0 {
            Some(Ordering::Equal)
        } else if newer(*self, *other) {
            Some(Ordering::Greater)
        } else {
            Some(Ordering::Less)
        }
    }
}

} // verus!
