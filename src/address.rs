//! The multiplexed address bus.
//!
//! All address lines change in a single write to the toggle register: the
//! mask written is the new address XOR the one on the lines, so lines that
//! keep their level are never touched.

use vstd::prelude::*;
use crate::delay::{delay_events, delay_ns};
use crate::pins::{DramPins, PinEvent};

verus! {

/// The address lines, and the address they present.
///
/// The lines are low at start-up, so a fresh bus presents zero; after that
/// only `set` moves them, and it keeps `last` equal to what they present.
pub struct AddressBus {
    last_state: u32,
}

/// What `AddressBus::set` does to the pins' record, from lines that present
/// `last`: one toggle write, then the settle delay.
pub open spec fn set_events(last: u32, addr: u32, settle_ns: u32, clock_hz: u32) -> Seq<PinEvent> {
    seq![PinEvent::AddressToggle(addr ^ last)] + delay_events(settle_ns, clock_hz)
}

impl AddressBus {
    /// The address the lines present.
    pub closed spec fn last(&self) -> u32 {
        self.last_state
    }

    /// A bus whose lines are all low.
    pub fn new() -> (r: AddressBus)
        ensures
            r.last() == 0,
    {
        AddressBus { last_state: 0 }
    }

    /// The address the lines present.
    pub fn last_state(&self) -> (r: u32)
        ensures
            r == self.last(),
    {
        self.last_state
    }

    /// Presents the low 32 bits of `addr` on the lines in one write, then waits
    /// `settle_ns`.
    pub fn set<P: DramPins>(&mut self, pins: &mut P, addr: usize, settle_ns: u32, clock_hz: u32)
        requires
            clock_hz > 0,
        ensures
            final(self).last() == addr as u32,
            old(pins).address_levels() == old(self).last() ==> final(pins).address_levels()
                == addr as u32,
            final(pins).trace() == old(pins).trace() + set_events(
                old(self).last(),
                addr as u32,
                settle_ns,
                clock_hz,
            ),
            final(pins).samples() == old(pins).samples(),
    {
        let addr = addr as u32;
        let ghost last = self.last_state;
        let ghost levels = pins.address_levels();
        assert(last ^ (addr ^ last) == addr) by (bit_vector);
        pins.toggle_address(addr ^ self.last_state);
        self.last_state = addr;
        delay_ns(pins, settle_ns, clock_hz);
        assert(pins.trace() =~= old(pins).trace() + set_events(
            old(self).last(),
            addr,
            settle_ns,
            clock_hz,
        ));
    }
}

/// Setting an address presents it whatever the lines held before, and setting
/// the same address again writes an all-zero toggle mask: no line moves.
pub proof fn lemma_set_twice_toggles_nothing(last: u32, addr: u32, settle_ns: u32, clock_hz: u32)
    ensures
        last ^ (addr ^ last) == addr,
        set_events(addr, addr, settle_ns, clock_hz)[0] == PinEvent::AddressToggle(0),
{
    assert(last ^ (addr ^ last) == addr) by (bit_vector);
    assert(addr ^ addr == 0) by (bit_vector);
}

} // verus!
