//! Cycle-exact busy-wait delays.
//!
//! A delay of `ns` nanoseconds at a clock of `clock_hz` is spent as a number
//! of whole CPU cycles: a fixed three-cycle loop for the bulk, then up to three
//! single-cycle no-ops, with no branch whose outcome depends on anything but
//! the two parameters.

use vstd::prelude::*;
use crate::pins::{DramPins, PinEvent};

verus! {

/// Nanoseconds in one second.
pub const NS_PER_SECOND: u32 = 1_000_000_000;

/// Length of one CPU cycle in whole nanoseconds, rounded up.
pub open spec fn spec_ns_per_cycle(clock_hz: u32) -> int {
    if NS_PER_SECOND % clock_hz == 0 {
        NS_PER_SECOND as int / clock_hz as int
    } else {
        NS_PER_SECOND as int / clock_hz as int + 1
    }
}

proof fn lemma_ns_per_cycle_positive(clock_hz: u32)
    requires
        clock_hz > 0,
    ensures
        spec_ns_per_cycle(clock_hz) >= 1,
{
    let s = NS_PER_SECOND as int;
    let hz = clock_hz as int;
    assert(s == (s / hz) * hz + s % hz && s / hz >= 0) by (nonlinear_arith)
        requires
            hz >= 1,
            s >= 0,
    ;
    if s / hz == 0 {
        assert(s % hz != 0);
    }
}

/// How a delay is spent: `loops` runs of the three-cycle loop, then `nops`
/// single-cycle instructions.
#[derive(Clone, Copy, Debug, PartialEq, Eq, Structural)]
pub struct DelayPlan {
    pub loops: u32,
    pub nops: u32,
}

/// The plan for `ns` nanoseconds: `ns / ns_per_cycle` cycles split into loops of
/// three and a remainder, plus one more cycle when the division was not exact.
pub open spec fn spec_plan(ns: u32, clock_hz: u32) -> DelayPlan {
    let npc = spec_ns_per_cycle(clock_hz);
    let cycles = ns as int / npc;
    DelayPlan {
        loops: (cycles / 3) as u32,
        nops: (cycles % 3 + if ns as int % npc > 0 { 1int } else { 0int }) as u32,
    }
}

/// The number of CPU cycles a plan spends.
pub open spec fn plan_cycles(p: DelayPlan) -> int {
    3 * p.loops + p.nops
}

/// `count` single-cycle no-ops.
pub open spec fn nop_events(count: nat) -> Seq<PinEvent> {
    Seq::new(count, |i: int| PinEvent::Nop)
}

/// What `delay_ns` does to the pins' record: a fence, the loop (if any), the
/// no-ops and a closing fence.
#[verifier::opaque]
pub open spec fn delay_events(ns: u32, clock_hz: u32) -> Seq<PinEvent> {
    let p = spec_plan(ns, clock_hz);
    seq![PinEvent::Fence] + (if p.loops > 0 {
        seq![PinEvent::Loop3(p.loops)]
    } else {
        Seq::empty()
    }) + nop_events(p.nops as nat) + seq![PinEvent::Fence]
}

/// Length of one CPU cycle in whole nanoseconds, rounded up.
pub fn ns_per_cycle(clock_hz: u32) -> (r: u32)
    requires
        clock_hz > 0,
    ensures
        r == spec_ns_per_cycle(clock_hz),
        r >= 1,
{
    proof {
        lemma_ns_per_cycle_positive(clock_hz);
    }
    let mut r: u32 = NS_PER_SECOND / clock_hz;
    if NS_PER_SECOND % clock_hz != 0 {
        r = r + 1;
    }
    r
}

/// Splits a delay of `ns` nanoseconds into loop runs and single cycles.
pub fn plan_delay(ns: u32, clock_hz: u32) -> (r: DelayPlan)
    requires
        clock_hz > 0,
    ensures
        r == spec_plan(ns, clock_hz),
        r.nops <= 3,
{
    let npc = ns_per_cycle(clock_hz);
    let cycles = ns / npc;
    let rest = ns % npc;
    let extra: u32 = if rest > 0 { 1 } else { 0 };
    DelayPlan { loops: cycles / 3, nops: cycles % 3 + extra }
}

/// Blocks for `ns` nanoseconds, plus at most one cycle.
pub fn delay_ns<P: DramPins>(pins: &mut P, ns: u32, clock_hz: u32)
    requires
        clock_hz > 0,
    ensures
        final(pins).trace() == old(pins).trace() + delay_events(ns, clock_hz),
        final(pins).samples() == old(pins).samples(),
        final(pins).address_levels() == old(pins).address_levels(),
{
    pins.fence();
    let plan = plan_delay(ns, clock_hz);
    if plan.loops > 0 {
        pins.delay_loop_3cyc(plan.loops);
    }
    let mut i: u32 = 0;
    while i < plan.nops
        invariant
            i <= plan.nops,
            plan == spec_plan(ns, clock_hz),
            pins.trace() == old(pins).trace() + seq![PinEvent::Fence] + (if plan.loops > 0 {
                seq![PinEvent::Loop3(plan.loops)]
            } else {
                Seq::empty()
            }) + nop_events(i as nat),
            pins.samples() == old(pins).samples(),
            pins.address_levels() == old(pins).address_levels(),
        decreases plan.nops - i,
    {
        pins.nop();
        assert(nop_events(i as nat).push(PinEvent::Nop) =~= nop_events((i + 1) as nat));
        i = i + 1;
    }
    pins.fence();
    reveal(delay_events);
    assert(pins.trace() =~= old(pins).trace() + delay_events(ns, clock_hz));
}

/// A delay never falls short of what was asked and overshoots by less than one
/// cycle, counting each cycle as `ns_per_cycle` nanoseconds. In true time (one
/// cycle lasting `10^9 / clock_hz` nanoseconds) it overshoots by less than one
/// rounded-up cycle, and it falls short of nothing when the clock divides one
/// second evenly.
pub proof fn lemma_delay_bounds(ns: u32, clock_hz: u32)
    requires
        clock_hz > 0,
    ensures
        plan_cycles(spec_plan(ns, clock_hz)) * spec_ns_per_cycle(clock_hz) >= ns,
        plan_cycles(spec_plan(ns, clock_hz)) * spec_ns_per_cycle(clock_hz) < ns
            + spec_ns_per_cycle(clock_hz),
        plan_cycles(spec_plan(ns, clock_hz)) * NS_PER_SECOND < (ns + spec_ns_per_cycle(
            clock_hz,
        )) * clock_hz,
        NS_PER_SECOND % clock_hz == 0 ==> plan_cycles(spec_plan(ns, clock_hz)) * NS_PER_SECOND
            >= ns * clock_hz,
{
    let npc = spec_ns_per_cycle(clock_hz);
    let hz = clock_hz as int;
    let s = NS_PER_SECOND as int;
    let q = ns as int / npc;
    let r = ns as int % npc;
    let c = plan_cycles(spec_plan(ns, clock_hz));
    lemma_ns_per_cycle_positive(clock_hz);
    assert(ns as int == q * npc + r && 0 <= r < npc) by (nonlinear_arith)
        requires
            npc >= 1,
            q == ns as int / npc,
            r == ns as int % npc,
    ;
    assert(0 <= q);
    assert(c == q + if r > 0 { 1int } else { 0int });
    assert(c * npc >= ns && c * npc < ns + npc) by (nonlinear_arith)
        requires
            ns as int == q * npc + r,
            0 <= r < npc,
            c == q + if r > 0 { 1int } else { 0int },
    ;
    assert(s == (s / hz) * hz + s % hz && 0 <= s % hz < hz) by (nonlinear_arith)
        requires
            hz >= 1,
    ;
    assert(npc * hz >= s) by (nonlinear_arith)
        requires
            s == (s / hz) * hz + s % hz,
            0 <= s % hz < hz,
            npc == if s % hz == 0 { s / hz } else { s / hz + 1 },
    ;
    assert(c * s <= c * npc * hz) by (nonlinear_arith)
        requires
            npc * hz >= s,
            c >= 0,
    ;
    assert(c * npc * hz < (ns + npc) * hz) by (nonlinear_arith)
        requires
            c * npc < ns + npc,
            hz >= 1,
    ;
    if s % hz == 0 {
        assert(npc * hz == s) by (nonlinear_arith)
            requires
                s == (s / hz) * hz + s % hz,
                s % hz == 0,
                npc == s / hz,
        ;
        assert(c * s >= ns * hz) by (nonlinear_arith)
            requires
                npc * hz == s,
                c * npc >= ns,
                hz >= 1,
        ;
    }
}

} // verus!
