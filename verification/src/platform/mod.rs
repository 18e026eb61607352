//! Selection of the probe implementation from the compilation target.
//!
//! The choice is a function of the target alone. A target that is not
//! recognised gets the no-op implementation; nothing fails.

use vstd::prelude::*;

pub mod default;
pub mod systemtap;

verus! {

/// Operating system family of a compilation target.
#[derive(Clone, Copy, Debug, PartialEq, Eq, Structural)]
pub enum Os {
    Linux,
    Android,
    Other,
}

/// Processor architecture of a compilation target, as far as probe emission
/// tells architectures apart.
#[derive(Clone, Copy, Debug, PartialEq, Eq, Structural)]
pub enum Arch {
    X86,
    X86_64,
    Other,
}

/// What a probe site is compiled for.
#[derive(Clone, Copy, Debug, PartialEq, Eq, Structural)]
pub struct Target {
    pub os: Os,
    pub arch: Arch,
    /// Width of a pointer, in bits.
    pub pointer_width: u32,
}

/// Width in bytes of every pointer-sized field of a note and of every probe
/// argument. One binary has one width.
#[derive(Clone, Copy, Debug, PartialEq, Eq, Structural)]
pub enum Width {
    Four,
    Eight,
}

/// Assembler syntax that the emitted template is written in.
#[derive(Clone, Copy, Debug, PartialEq, Eq, Structural)]
pub enum Syntax {
    /// AT&T operand syntax, asked for explicitly on the x86 family.
    Att,
    /// The assembler's default syntax for the architecture.
    Native,
}

/// The probe implementation chosen for a target.
#[derive(Clone, Copy, Debug, PartialEq, Eq, Structural)]
pub enum Strategy {
    /// Probes contribute no instruction and no metadata.
    NoOp,
    /// Probes are one no-op instruction and one note.
    Emission { width: Width, syntax: Syntax },
}

/// What one invocation of a probe site does.
#[derive(Clone, Copy, Debug, PartialEq, Eq, Structural)]
pub enum Step {
    /// The arguments are not evaluated and nothing is emitted.
    Skip,
    /// The arguments are evaluated in declaration order and discarded;
    /// nothing is emitted.
    Discard,
    /// The arguments are evaluated in declaration order and handed to the
    /// emitted no-op as its operands.
    Emit,
}

impl Width {
    /// The width as a number of bytes.
    pub open spec fn size(self) -> nat {
        match self {
            Width::Four => 4,
            Width::Eight => 8,
        }
    }

    /// The operand width that goes with a pointer of `bits` bits, if probes
    /// support such pointers.
    pub open spec fn for_pointer(bits: u32) -> Option<Width> {
        if bits == 32 {
            Some(Width::Four)
        } else if bits == 64 {
            Some(Width::Eight)
        } else {
            None
        }
    }

    /// The width as a number of bytes.
    #[inline]
    pub fn bytes(self) -> (n: usize)
        ensures
            n == self.size(),
    {
        match self {
            Width::Four => 4,
            Width::Eight => 8,
        }
    }

    /// The operand width that goes with a pointer of `bits` bits: four bytes
    /// for 32, eight for 64, none for any other.
    #[inline]
    pub fn of_pointer(bits: u32) -> (width: Option<Width>)
        ensures
            width == Width::for_pointer(bits),
    {
        if bits == 32 {
            Some(Width::Four)
        } else if bits == 64 {
            Some(Width::Eight)
        } else {
            None
        }
    }
}

impl Arch {
    /// The x86 family is assembled in AT&T syntax, every other architecture
    /// in its default syntax.
    pub open spec fn syntax(self) -> Syntax {
        match self {
            Arch::X86 | Arch::X86_64 => Syntax::Att,
            Arch::Other => Syntax::Native,
        }
    }
}

impl Os {
    /// Whether static probes are emitted for this operating system.
    pub open spec fn supported(self) -> bool {
        self is Linux || self is Android
    }
}

impl Target {
    /// The implementation that a target gets: emission on a supported
    /// operating system with 32-bit or 64-bit pointers, the no-op otherwise.
    pub open spec fn strategy(self) -> Strategy {
        match Width::for_pointer(self.pointer_width) {
            Some(width) if self.os.supported() => Strategy::Emission {
                width,
                syntax: self.arch.syntax(),
            },
            _ => Strategy::NoOp,
        }
    }
}

impl Step {
    /// Whether the invocation evaluates the probe's arguments.
    pub open spec fn evaluates(self) -> bool {
        self is Discard || self is Emit
    }

    /// Whether the invocation reaches the emitted no-op, where an attached
    /// tool captures the arguments.
    pub open spec fn emits(self) -> bool {
        self is Emit
    }

    /// Whether the invocation evaluates the probe's arguments.
    #[inline]
    pub fn evaluates_arguments(self) -> (b: bool)
        ensures
            b == self.evaluates(),
    {
        match self {
            Step::Skip => false,
            Step::Discard | Step::Emit => true,
        }
    }

    /// Whether the invocation reaches the emitted no-op. For a lazy probe
    /// this is the value of the invocation: "enabled".
    #[inline]
    pub fn enabled(self) -> (b: bool)
        ensures
            b == self.emits(),
    {
        match self {
            Step::Emit => true,
            Step::Skip | Step::Discard => false,
        }
    }
}

impl Strategy {
    /// What an always-on probe does when control reaches it.
    pub open spec fn eager_step(self) -> Step {
        match self {
            Strategy::NoOp => Step::Discard,
            Strategy::Emission { .. } => Step::Emit,
        }
    }

    /// What a lazy probe does when control reaches it while its semaphore
    /// reads `counter`. Without emission there is no semaphore, and the
    /// counter is not consulted.
    pub open spec fn lazy_step(self, counter: u16) -> Step {
        match self {
            Strategy::NoOp => Step::Skip,
            Strategy::Emission { .. } => if counter != 0 {
                Step::Emit
            } else {
                Step::Skip
            },
        }
    }
}

/// Choose the probe implementation for a target.
pub fn select(target: &Target) -> (strategy: Strategy)
    ensures
        strategy == target.strategy(),
{
    let supported = match target.os {
        Os::Linux | Os::Android => true,
        Os::Other => false,
    };
    let syntax = match target.arch {
        Arch::X86 | Arch::X86_64 => Syntax::Att,
        Arch::Other => Syntax::Native,
    };
    match Width::of_pointer(target.pointer_width) {
        Some(width) => if supported {
            Strategy::Emission { width, syntax }
        } else {
            Strategy::NoOp
        },
        None => Strategy::NoOp,
    }
}

/// One invocation of an always-on probe under `strategy`.
#[inline]
pub fn probe(strategy: Strategy) -> (step: Step)
    ensures
        step == strategy.eager_step(),
{
    match strategy {
        Strategy::NoOp => default::platform_probe(),
        Strategy::Emission { .. } => systemtap::platform_probe(),
    }
}

/// One invocation of a lazy probe under `strategy`, with the semaphore as
/// it was read on arrival.
#[inline]
pub fn probe_lazy(strategy: Strategy, semaphore: &systemtap::Semaphore) -> (step: Step)
    ensures
        step == strategy.lazy_step(semaphore.counter()),
{
    match strategy {
        Strategy::NoOp => default::platform_probe_lazy(&default::Semaphore::new()),
        Strategy::Emission { .. } => systemtap::platform_probe_lazy(semaphore),
    }
}

/// A probe that is compiled to the no-op, or whose semaphore reads zero, has
/// no effect that a tool could observe: an always-on probe then does no more
/// than evaluate its arguments, and a lazy probe does not even do that.
pub proof fn lemma_inert_when_unattached(strategy: Strategy, counter: u16)
    requires
        strategy is NoOp || counter == 0,
    ensures
        strategy is NoOp ==> !strategy.eager_step().emits(),
        strategy.lazy_step(counter) == Step::Skip,
        !strategy.lazy_step(counter).emits(),
        !strategy.lazy_step(counter).evaluates(),
{
}

/// Where probes are emitted, the operand width is the width of the target's
/// pointers, four bytes or eight, and no other.
pub proof fn lemma_width_is_pointer_width(target: Target)
    ensures
        target.strategy() matches Strategy::Emission { width, .. } ==> 8 * width.size()
            == target.pointer_width,
        target.strategy() is Emission <==> target.os.supported() && (target.pointer_width == 32
            || target.pointer_width == 64),
{
}

/// A lazy probe reaches its no-op exactly when emission was chosen and the
/// semaphore reads nonzero, and it evaluates its arguments exactly then.
pub proof fn lemma_lazy_gate(strategy: Strategy, counter: u16)
    ensures
        strategy.lazy_step(counter).emits() <==> (strategy is Emission && counter != 0),
        strategy.lazy_step(counter).evaluates() <==> strategy.lazy_step(counter).emits(),
{
}

} // verus!
