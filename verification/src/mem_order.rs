//! The memory orderings that failed compare-and-swap operations of the
//! server's lock-free list use.
use std::sync::atomic::Ordering;
use vstd::prelude::*;

verus! {

/// The strongest ordering a failed compare-and-swap may use when the
/// successful one uses `order`: the store part is dropped.
pub open spec fn failure_ordering_of(order: Ordering) -> Ordering {
    match order {
        Ordering::Release => Ordering::Relaxed,
        Ordering::Relaxed => Ordering::Relaxed,
        Ordering::SeqCst => Ordering::SeqCst,
        Ordering::Acquire => Ordering::Acquire,
        Ordering::AcqRel => Ordering::Acquire,
        _ => order,
    }
}

/// The strongest ordering a failed compare-and-swap may use when the
/// successful one uses `order`.
pub fn strongest_failure_ordering(order: Ordering) -> (r: Ordering)
    ensures
        r == failure_ordering_of(order),
{
    match order {
        Ordering::Release => Ordering::Relaxed,
        Ordering::Relaxed => Ordering::Relaxed,
        Ordering::SeqCst => Ordering::SeqCst,
        Ordering::Acquire => Ordering::Acquire,
        Ordering::AcqRel => Ordering::Acquire,
        _ => order,
    }
}

} // verus!
