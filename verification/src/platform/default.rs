//! The implementation for platforms without static probe support: a probe
//! contributes neither an instruction nor metadata.

use crate::platform::Step;
use vstd::prelude::*;

verus! {

/// The enablement flag of a lazy probe on a platform where no tool can
/// attach. It holds nothing, since there is no cell to read.
pub struct Semaphore;

impl Semaphore {
    /// Return a `Semaphore` that starts as disabled.
    #[inline]
    pub fn new() -> (semaphore: Self)
        ensures
            semaphore == Semaphore,
    {
        Semaphore
    }

    /// Return whether a debugger or tracing tool is attached to a probe
    /// that uses this semaphore: never, on this platform.
    #[inline(always)]
    pub fn enabled(&self) -> (enabled: bool)
        ensures
            !enabled,
    {
        false
    }
}

/// One invocation of an always-on probe: the arguments are evaluated, so
/// that the caller's expressions count as used, and discarded.
#[inline]
pub fn platform_probe() -> (step: Step)
    ensures
        step == Step::Discard,
{
    Step::Discard
}

/// One invocation of a lazy probe: "not enabled", with no argument
/// evaluated. The semaphore decides, and it is never enabled.
#[inline]
pub fn platform_probe_lazy(semaphore: &Semaphore) -> (step: Step)
    ensures
        step == Step::Skip,
{
    if semaphore.enabled() {
        platform_probe()
    } else {
        Step::Skip
    }
}

} // verus!
