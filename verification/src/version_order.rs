//! The precedence order of semantic versions, as `<`, `>` and `partial_cmp` see it.
use vstd::prelude::*;
use core::cmp::Ordering;
use crate::asset::{SemanticVersion, semver_sign};

verus! {

/// The ordering that a comparison sign stands for.
pub open spec fn ordering_of_sign(s: int) -> Ordering {
    if s < 0 {
        Ordering::Less
    } else if s == 0 {
        Ordering::Equal
    } else {
        Ordering::Greater
    }
}

impl PartialOrd for SemanticVersion {
    fn partial_cmp(&self, other: &Self) -> (r: Option<Ordering>)
        ensures
            r == Some(ordering_of_sign(semver_sign(*self, *other))),
    {
        let s = self.compare(other);
        if s < 0 {
            Some(Ordering::Less)
        } else if s == 0 {
            Some(Ordering::Equal)
        } else {
            Some(Ordering::Greater)
        }
    }
}

impl vstd::std_specs::cmp::PartialOrdSpecImpl for SemanticVersion {
    open spec fn obeys_partial_cmp_spec() -> bool {
        true
    }

    open spec fn partial_cmp_spec(&self, other: &Self) -> Option<Ordering> {
        Some(ordering_of_sign(semver_sign(*self, *other)))
    }
}

} // verus!
