//! The readiness abstraction shared by every wait source, and the
//! resolution step of the wait multiplexer.
//!
//! A wait call blocks (outside this library) on one shared condition
//! variable until some source reports data, then resolves: every still-empty
//! source counts as "not ready", every non-empty source is consumed once
//! (its reset hook runs) and counts as "ready". The call reports "timed
//! out" exactly when no source was ready, and a wait over zero sources
//! times out immediately.

use vstd::prelude::*;

verus! {

/// One source a wait call can multiplex: an endpoint queue, a guard
/// condition, or an event.
pub trait WaitSetTrait: Sized {
    /// Whether the source currently has nothing ready.
    spec fn spec_is_empty(&self) -> bool;

    /// The source's state after one ready wait cycle consumed it.
    spec fn spec_consumed(&self) -> Self;

    /// Reports whether the source has nothing ready.
    fn is_empty(&self) -> (r: bool)
        ensures
            r == self.spec_is_empty(),
    ;

    /// Consumes the source after a ready wait cycle; level-triggered
    /// sources reset here, queues are left for their reader.
    fn cleanup(&mut self)
        ensures
            *final(self) == old(self).spec_consumed(),
    ;
}

/// Resolves one wait cycle over a homogeneous list of sources: consumes
/// every non-empty source exactly once, leaves empty sources untouched, and
/// reports whether any source was ready. Over zero sources it reports
/// "timed out" (false) immediately.
pub fn resolve_ready<W: WaitSetTrait>(items: &mut Vec<W>) -> (ready: bool)
    ensures
        final(items)@.len() == old(items)@.len(),
        ready == exists|j: int|
            0 <= j < old(items)@.len() && !(#[trigger] old(items)@[j]).spec_is_empty(),
        forall|j: int|
            0 <= j < old(items)@.len() ==> final(items)@[j] == (if (
            #[trigger] old(items)@[j]).spec_is_empty() {
                old(items)@[j]
            } else {
                old(items)@[j].spec_consumed()
            }),
{
    let mut ready = false;
    let n = items.len();
    let mut i: usize = 0;
    while i < n
        invariant
            i <= n,
            n == items@.len(),
            items@.len() == old(items)@.len(),
            forall|j: int| i <= j < n ==> items@[j] == old(items)@[j],
            forall|j: int|
                0 <= j < i ==> items@[j] == (if (#[trigger] old(items)@[j]).spec_is_empty() {
                    old(items)@[j]
                } else {
                    old(items)@[j].spec_consumed()
                }),
            ready == exists|j: int|
                0 <= j < i && !(#[trigger] old(items)@[j]).spec_is_empty(),
        decreases n - i,
    {
        if items[i].is_empty() {
        } else {
            items[i].cleanup();
            ready = true;
        }
        i = i + 1;
    }
    ready
}

} // verus!
