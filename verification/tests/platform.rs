use probe::platform;
use probe::platform::{Arch, Os, Step, Strategy, Syntax, Target, Width};

fn target(os: Os, arch: Arch, pointer_width: u32) -> Target {
    Target { os, arch, pointer_width }
}

#[test]
fn default_semaphore_is_never_enabled() {
    let semaphore = platform::default::Semaphore::new();
    assert!(!semaphore.enabled());
}

#[test]
fn systemtap_semaphore_starts_disabled() {
    let semaphore = platform::systemtap::Semaphore::new();
    assert!(!semaphore.enabled());
}

#[test]
fn systemtap_semaphore_follows_the_counter() {
    assert!(!platform::systemtap::Semaphore::observed(0).enabled());
    assert!(platform::systemtap::Semaphore::observed(1).enabled());
    assert!(platform::systemtap::Semaphore::observed(2).enabled());
    assert!(platform::systemtap::Semaphore::observed(u16::MAX).enabled());
}

#[test]
fn semaphore_read_after_attach_and_after_detach() {
    // A tool attaches (the cell goes from 0 to 1) and detaches again.
    let before = platform::systemtap::Semaphore::observed(0);
    let attached = platform::systemtap::Semaphore::observed(1);
    let detached = platform::systemtap::Semaphore::observed(0);
    assert!(!before.enabled());
    assert!(attached.enabled());
    assert!(!detached.enabled());
}

#[test]
fn linux_and_android_emit() {
    assert_eq!(
        platform::select(&target(Os::Linux, Arch::X86_64, 64)),
        Strategy::Emission { width: Width::Eight, syntax: Syntax::Att }
    );
    assert_eq!(
        platform::select(&target(Os::Linux, Arch::X86, 32)),
        Strategy::Emission { width: Width::Four, syntax: Syntax::Att }
    );
    assert_eq!(
        platform::select(&target(Os::Android, Arch::Other, 64)),
        Strategy::Emission { width: Width::Eight, syntax: Syntax::Native }
    );
    assert_eq!(
        platform::select(&target(Os::Android, Arch::Other, 32)),
        Strategy::Emission { width: Width::Four, syntax: Syntax::Native }
    );
}

#[test]
fn width_follows_the_pointer_not_the_architecture() {
    assert_eq!(
        platform::select(&target(Os::Linux, Arch::X86_64, 32)),
        Strategy::Emission { width: Width::Four, syntax: Syntax::Att }
    );
}

#[test]
fn other_systems_get_the_no_op() {
    assert_eq!(platform::select(&target(Os::Other, Arch::X86_64, 64)), Strategy::NoOp);
    assert_eq!(platform::select(&target(Os::Other, Arch::X86, 32)), Strategy::NoOp);
    assert_eq!(platform::select(&target(Os::Other, Arch::Other, 64)), Strategy::NoOp);
}

#[test]
fn unrecognised_pointer_width_degrades_to_the_no_op() {
    assert_eq!(platform::select(&target(Os::Linux, Arch::Other, 16)), Strategy::NoOp);
    assert_eq!(platform::select(&target(Os::Linux, Arch::X86_64, 128)), Strategy::NoOp);
    assert_eq!(platform::select(&target(Os::Android, Arch::X86, 0)), Strategy::NoOp);
}

#[test]
fn width_in_bytes() {
    assert_eq!(Width::Four.bytes(), 4);
    assert_eq!(Width::Eight.bytes(), 8);
    assert_eq!(Width::of_pointer(32), Some(Width::Four));
    assert_eq!(Width::of_pointer(64), Some(Width::Eight));
    assert_eq!(Width::of_pointer(16), None);
    assert_eq!(Width::of_pointer(33), None);
}

#[test]
fn steps_say_what_they_do() {
    assert!(!Step::Skip.evaluates_arguments());
    assert!(!Step::Skip.enabled());
    assert!(Step::Discard.evaluates_arguments());
    assert!(!Step::Discard.enabled());
    assert!(Step::Emit.evaluates_arguments());
    assert!(Step::Emit.enabled());
}

#[test]
fn platform_probes() {
    assert_eq!(platform::default::platform_probe(), Step::Discard);
    assert_eq!(
        platform::default::platform_probe_lazy(&platform::default::Semaphore::new()),
        Step::Skip
    );
    assert_eq!(platform::systemtap::platform_probe(), Step::Emit);
    assert_eq!(
        platform::systemtap::platform_probe_lazy(&platform::systemtap::Semaphore::new()),
        Step::Skip
    );
    assert_eq!(
        platform::systemtap::platform_probe_lazy(&platform::systemtap::Semaphore::observed(1)),
        Step::Emit
    );
}

#[test]
fn eager_probe_by_strategy() {
    let emission = Strategy::Emission { width: Width::Eight, syntax: Syntax::Att };
    assert_eq!(platform::probe(Strategy::NoOp), Step::Discard);
    assert_eq!(platform::probe(emission), Step::Emit);
}

#[test]
fn lazy_probe_by_strategy() {
    let emission = Strategy::Emission { width: Width::Four, syntax: Syntax::Native };
    let unattached = platform::systemtap::Semaphore::new();
    let attached = platform::systemtap::Semaphore::observed(3);
    assert_eq!(platform::probe_lazy(emission, &unattached), Step::Skip);
    assert_eq!(platform::probe_lazy(emission, &attached), Step::Emit);
    assert_eq!(platform::probe_lazy(Strategy::NoOp, &unattached), Step::Skip);
    assert_eq!(platform::probe_lazy(Strategy::NoOp, &attached), Step::Skip);
}

#[test]
fn nothing_is_emitted_on_the_no_op_path_or_while_unattached() {
    let strategies = [
        Strategy::NoOp,
        Strategy::Emission { width: Width::Four, syntax: Syntax::Att },
        Strategy::Emission { width: Width::Eight, syntax: Syntax::Native },
    ];
    for strategy in strategies {
        for counter in [0u16, 1, 7, u16::MAX] {
            let semaphore = platform::systemtap::Semaphore::observed(counter);
            let lazy = platform::probe_lazy(strategy, &semaphore);
            let eager = platform::probe(strategy);
            if strategy == Strategy::NoOp {
                assert!(!eager.enabled());
                assert!(eager.evaluates_arguments());
            }
            if strategy == Strategy::NoOp || counter == 0 {
                assert_eq!(lazy, Step::Skip);
                assert!(!lazy.enabled());
                assert!(!lazy.evaluates_arguments());
            } else {
                assert_eq!(lazy, Step::Emit);
            }
        }
    }
}
