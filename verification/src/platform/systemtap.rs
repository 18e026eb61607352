//! SystemTap static probes.
//!
//! Such a probe is a single no-op instruction in the code stream and a note
//! that names it and says where its arguments are. SystemTap finds it with
//! `process.mark("name")`, GDB with `info probes` and `break -probe name`.

use crate::platform::Step;
use vstd::prelude::*;

verus! {

/// The enablement counter of one lazy probe site, as one read of its cell
/// found it.
///
/// The cell itself is two bytes in a section of the binary. A tool increments
/// it on attach and decrements it on detach; the process only ever reads it,
/// so a value of this type is never changed once made.
pub struct Semaphore {
    counter: u16,
}

impl Semaphore {
    /// The counter's value: the number of tools attached.
    pub closed spec fn counter(&self) -> u16 {
        self.counter
    }

    /// Return a `Semaphore` that starts as disabled.
    #[inline]
    pub fn new() -> (semaphore: Self)
        ensures
            semaphore.counter() == 0,
    {
        Semaphore { counter: 0 }
    }

    /// The semaphore as a read of its cell found it.
    #[inline]
    pub fn observed(counter: u16) -> (semaphore: Self)
        ensures
            semaphore.counter() == counter,
    {
        Semaphore { counter }
    }

    /// Return whether a debugger or tracing tool is attached to a probe
    /// that uses this semaphore.
    #[inline(always)]
    pub fn enabled(&self) -> (enabled: bool)
        ensures
            enabled == (self.counter() != 0),
    {
        self.counter != 0
    }
}

/// One invocation of an always-on probe: the arguments are evaluated and
/// the no-op is reached, whether or not a tool is attached.
#[inline]
pub fn platform_probe() -> (step: Step)
    ensures
        step == Step::Emit,
{
    Step::Emit
}

/// One invocation of a lazy probe. With the semaphore at zero the arguments
/// are not evaluated and the invocation is "not enabled"; otherwise it does
/// what an always-on probe does and is "enabled".
#[inline]
pub fn platform_probe_lazy(semaphore: &Semaphore) -> (step: Step)
    ensures
        step == if semaphore.counter() != 0 {
            Step::Emit
        } else {
            Step::Skip
        },
{
    if semaphore.enabled() {
        platform_probe()
    } else {
        Step::Skip
    }
}

} // verus!
