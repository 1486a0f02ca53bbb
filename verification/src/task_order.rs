//! Task control blocks are ordered by stride, in reverse: the task with the
//! smaller stride is the greater one, so that it is scheduled first.
use vstd::prelude::*;
use core::cmp::Ordering;
use crate::task::TaskControlBlock;
use vstd::std_specs::cmp::{PartialEqSpec, PartialOrdSpec};

verus! {

impl PartialEq for TaskControlBlock {
    fn eq(&self, other: &Self) -> (r: bool) {
        let self_stride = self.get_stride();
        let other_stride = other.get_stride();
        self_stride == other_stride
    }
}

impl vstd::std_specs::cmp::PartialEqSpecImpl for TaskControlBlock {
    open spec fn obeys_eq_spec() -> bool {
        true
    }

    open spec fn eq_spec(&self, other: &Self) -> bool {
        self.stride() == other.stride()
    }
}

impl Eq for TaskControlBlock {}

impl PartialOrd for TaskControlBlock {
    fn partial_cmp(&self, other: &Self) -> (r: Option<Ordering>) {
        let self_stride = self.get_stride();
        let other_stride = other.get_stride();
        // reverse order
        if self_stride < other_stride {
            Some(Ordering::Greater)
        } else if self_stride > other_stride {
            Some(Ordering::Less)
        } else {
            Some(Ordering::Equal)
        }
    }
}

impl vstd::std_specs::cmp::PartialOrdSpecImpl for TaskControlBlock {
    open spec fn obeys_partial_cmp_spec() -> bool {
        true
    }

    open spec fn partial_cmp_spec(&self, other: &Self) -> Option<Ordering> {
        if self.stride() < other.stride() {
            Some(Ordering::Greater)
        } else if self.stride() > other.stride() {
            Some(Ordering::Less)
        } else {
            Some(Ordering::Equal)
        }
    }
}

/// Tasks compare in reverse order of their strides: one is greater than another
/// exactly when its stride is smaller, the two comparisons are mirror images of
/// each other, and two tasks compare equal exactly when they are equal under `==`.
pub proof fn law_order_reverses_stride(a: TaskControlBlock, b: TaskControlBlock)
    ensures
        a.partial_cmp_spec(&b) == Some(Ordering::Greater) <==> a.stride() < b.stride(),
        a.partial_cmp_spec(&b) == Some(Ordering::Less) <==> b.partial_cmp_spec(&a) == Some(
            Ordering::Greater,
        ),
        a.partial_cmp_spec(&b) == Some(Ordering::Equal) <==> a.eq_spec(&b),
        a.eq_spec(&b) <==> b.eq_spec(&a),
{
}

} // verus!
