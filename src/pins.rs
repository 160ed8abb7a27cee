//! The signals a DRAM controller drives and samples, and the record of them.

use vstd::prelude::*;

verus! {

/// One observable action on the DRAM's pins or on the CPU's cycle counter.
#[derive(Clone, Copy, Debug, PartialEq, Eq, Structural)]
pub enum PinEvent {
    /// `~WE` driven to the given level (`true` = high).
    WriteEnable(bool),
    /// `~CAS` driven to the given level.
    ColStrobe(bool),
    /// `~RAS` driven to the given level.
    RowStrobe(bool),
    /// `DIN` driven to the given level.
    DataIn(bool),
    /// `DOUT` sampled; the level that was read.
    DataOut(bool),
    /// One write of the given mask to the address lines' toggle register.
    AddressToggle(u32),
    /// A fixed loop of three CPU cycles per iteration, run the given number of times.
    Loop3(u32),
    /// A single-cycle no-op instruction.
    Nop,
    /// A compiler ordering fence.
    Fence,
}

/// The hardware a DRAM controller runs on: five control lines, a bank of
/// address lines written through a toggle register, and a cycle-exact
/// busy-wait.
///
/// `trace` is every action taken so far, in order; `samples` is every level
/// read from `DOUT` so far, in order; `address_levels` is the levels of the
/// address lines (bit `i` high when line `i` is).
///
/// The three are ghost: they exist only for the proofs and cost nothing at run
/// time. Their defaults record nothing, which no implementation can keep and
/// still meet the contracts below; a verified implementation defines them (see
/// `SimDram`), while one on real hardware, outside the proofs, may keep them.
pub trait DramPins {
    closed spec fn trace(&self) -> Seq<PinEvent> {
        Seq::empty()
    }

    closed spec fn samples(&self) -> Seq<bool> {
        Seq::empty()
    }

    closed spec fn address_levels(&self) -> u32 {
        0
    }

    fn set_write_enable(&mut self, high: bool)
        ensures
            final(self).trace() == old(self).trace().push(PinEvent::WriteEnable(high)),
            final(self).samples() == old(self).samples(),
            final(self).address_levels() == old(self).address_levels(),
    ;

    fn set_col_strobe(&mut self, high: bool)
        ensures
            final(self).trace() == old(self).trace().push(PinEvent::ColStrobe(high)),
            final(self).samples() == old(self).samples(),
            final(self).address_levels() == old(self).address_levels(),
    ;

    fn set_row_strobe(&mut self, high: bool)
        ensures
            final(self).trace() == old(self).trace().push(PinEvent::RowStrobe(high)),
            final(self).samples() == old(self).samples(),
            final(self).address_levels() == old(self).address_levels(),
    ;

    fn set_data_in(&mut self, high: bool)
        ensures
            final(self).trace() == old(self).trace().push(PinEvent::DataIn(high)),
            final(self).samples() == old(self).samples(),
            final(self).address_levels() == old(self).address_levels(),
    ;

    fn read_data_out(&mut self) -> (r: bool)
        ensures
            final(self).trace() == old(self).trace().push(PinEvent::DataOut(r)),
            final(self).samples() == old(self).samples().push(r),
            final(self).address_levels() == old(self).address_levels(),
    ;

    /// Flips every address line whose bit is set in `mask`, all in one write.
    fn toggle_address(&mut self, mask: u32)
        ensures
            final(self).trace() == old(self).trace().push(PinEvent::AddressToggle(mask)),
            final(self).samples() == old(self).samples(),
            final(self).address_levels() == old(self).address_levels() ^ mask,
    ;

    /// Spins for exactly `3 * loop_count` CPU cycles; `loop_count` is not zero.
    fn delay_loop_3cyc(&mut self, loop_count: u32)
        requires
            loop_count > 0,
        ensures
            final(self).trace() == old(self).trace().push(PinEvent::Loop3(loop_count)),
            final(self).samples() == old(self).samples(),
            final(self).address_levels() == old(self).address_levels(),
    ;

    /// Spends exactly one CPU cycle.
    fn nop(&mut self)
        ensures
            final(self).trace() == old(self).trace().push(PinEvent::Nop),
            final(self).samples() == old(self).samples(),
            final(self).address_levels() == old(self).address_levels(),
    ;

    /// Keeps the compiler from moving memory accesses across this point.
    fn fence(&mut self)
        ensures
            final(self).trace() == old(self).trace().push(PinEvent::Fence),
            final(self).samples() == old(self).samples(),
            final(self).address_levels() == old(self).address_levels(),
    ;
}

} // verus!
