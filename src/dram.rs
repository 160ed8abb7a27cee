//! The DRAM controller: row/column strobe sequencing, single-bit and
//! page-mode cycles, chip detection and the moving-inversions test.

use vstd::prelude::*;
use crate::address::{set_events, AddressBus};
use crate::delay::{delay_events, delay_ns};
use crate::pins::{DramPins, PinEvent};
use crate::inversions::{
    addr_before,
    addr_before_row,
    check_events,
    check_row_events,
    check_step_events,
    count_mismatches,
    fill_events,
    fill_row_events,
    last_mismatch,
    lemma_check_congruent,
    lemma_check_row_congruent,
    lemma_scan_step,
    pass_expected,
    pass_failures,
    pass_samples,
    run_events,
    scan_index,
    scan_pos,
    side_len,
    side_length,
    stop_pass,
    PATTERN,
};
use crate::timings::TimingProfile;

verus! {

/// The fixed timing of a controller: the chip's profile, the CPU clock, the
/// settle time of the address lines and the delay of the data-out level
/// shifter.
#[derive(Clone, Copy, Debug, PartialEq, Eq, Structural)]
pub struct DramConfig {
    pub timing: TimingProfile,
    pub clock_hz: u32,
    pub addr_settle_ns: u32,
    pub transceiver_ns: u32,
}

/// The last failing cell of a moving-inversions run, and how many cells failed.
#[derive(Clone, Copy, Debug, PartialEq, Eq, Structural)]
pub struct TestError {
    pub num_failed_bits: usize,
    pub row: usize,
    pub col: usize,
}

/// Opening row `row` with the address lines at `last`.
#[verifier::opaque]
pub open spec fn open_row_events(c: DramConfig, last: u32, row: u32) -> Seq<PinEvent> {
    set_events(last, row, c.addr_settle_ns, c.clock_hz) + seq![PinEvent::RowStrobe(false)]
        + delay_events(c.timing.t_rcd, c.clock_hz)
}

/// Closing the open row.
#[verifier::opaque]
pub open spec fn close_row_events(c: DramConfig) -> Seq<PinEvent> {
    seq![PinEvent::RowStrobe(true)] + delay_events(c.timing.t_rp, c.clock_hz)
}

/// One column strobe at `col` with the address lines at `last`.
#[verifier::opaque]
pub open spec fn strobe_events(c: DramConfig, last: u32, col: u32) -> Seq<PinEvent> {
    set_events(last, col, c.addr_settle_ns, c.clock_hz) + seq![PinEvent::ColStrobe(false)]
        + delay_events(c.timing.t_cas, c.clock_hz) + seq![PinEvent::ColStrobe(true)]
}

/// A page-mode write of `bit` at `col`.
#[verifier::opaque]
pub open spec fn write_page_events(c: DramConfig, last: u32, col: u32, bit: bool) -> Seq<
    PinEvent,
> {
    seq![PinEvent::DataIn(bit)] + strobe_events(c, last, col) + delay_events(
        c.timing.t_cp,
        c.clock_hz,
    )
}

/// A page-mode read at `col` that sampled `got`.
#[verifier::opaque]
pub open spec fn read_page_events(c: DramConfig, last: u32, col: u32, got: bool) -> Seq<
    PinEvent,
> {
    strobe_events(c, last, col) + delay_events(c.transceiver_ns, c.clock_hz) + seq![
        PinEvent::DataOut(got),
    ] + delay_events(c.timing.t_cp, c.clock_hz)
}

/// An early-write cycle of `bit` at (`row`, `col`): write-enable goes low
/// before the row opens.
#[verifier::opaque]
pub open spec fn write_bit_events(c: DramConfig, last: u32, row: u32, col: u32, bit: bool) -> Seq<
    PinEvent,
> {
    seq![PinEvent::DataIn(bit), PinEvent::WriteEnable(false)] + open_row_events(c, last, row)
        + strobe_events(c, row, col) + seq![PinEvent::WriteEnable(true)] + delay_events(
        c.timing.t_ras_rest,
        c.clock_hz,
    ) + close_row_events(c)
}

/// A read cycle at (`row`, `col`) that sampled `got`.
#[verifier::opaque]
pub open spec fn read_bit_events(c: DramConfig, last: u32, row: u32, col: u32, got: bool) -> Seq<
    PinEvent,
> {
    open_row_events(c, last, row) + strobe_events(c, row, col) + delay_events(
        c.transceiver_ns,
        c.clock_hz,
    ) + seq![PinEvent::DataOut(got)] + delay_events(c.timing.t_ras_rest, c.clock_hz)
        + close_row_events(c)
}

/// Wait after the control lines go idle at start-up, in nanoseconds.
pub const POWER_UP_NS: u32 = 10_000_000;

/// Length of each half of a start-up `~RAS` pulse, in nanoseconds.
pub const WAKE_PULSE_NS: u32 = 1000;

/// Number of `~RAS` pulses that wake the array at start-up.
pub const WAKE_PULSES: usize = 8;

/// Row and column of the cell that the capacity probe clears.
pub const PROBE_ADDR: usize = 8;

/// The probe address with address bit 8 set: the same cell as `PROBE_ADDR` on a
/// chip with eight address lines, another one on a chip with nine.
pub const PROBE_ALIAS_ADDR: usize = 264;

/// One `~RAS` pulse of the start-up sequence.
pub open spec fn wake_pulse_events(c: DramConfig) -> Seq<PinEvent> {
    seq![PinEvent::RowStrobe(false)] + delay_events(WAKE_PULSE_NS, c.clock_hz) + seq![
        PinEvent::RowStrobe(true),
    ] + delay_events(WAKE_PULSE_NS, c.clock_hz)
}

/// `k` start-up `~RAS` pulses.
pub open spec fn wake_pulses(c: DramConfig, k: nat) -> Seq<PinEvent>
    decreases k,
{
    if k == 0 {
        Seq::empty()
    } else {
        wake_pulses(c, (k - 1) as nat) + wake_pulse_events(c)
    }
}

/// The start-up sequence: all control lines idle (high), a wait, then the
/// wake-up pulses.
pub open spec fn init_events(c: DramConfig) -> Seq<PinEvent> {
    seq![
        PinEvent::WriteEnable(true),
        PinEvent::ColStrobe(true),
        PinEvent::RowStrobe(true),
    ] + delay_events(POWER_UP_NS, c.clock_hz) + wake_pulses(c, WAKE_PULSES as nat)
}

/// A controller for one 41xx-family DRAM chip on the pins `P`.
pub struct Dram41XX<P: DramPins> {
    pins: P,
    addr: AddressBus,
    config: DramConfig,
}

impl<P: DramPins> Dram41XX<P> {
    /// The pins the controller drives.
    pub closed spec fn hw(&self) -> P {
        self.pins
    }

    /// The address the address lines present.
    pub closed spec fn last_addr(&self) -> u32 {
        self.addr.last()
    }

    /// The controller's fixed timing.
    pub closed spec fn config(&self) -> DramConfig {
        self.config
    }

    /// The clock runs, and the address bus remembers the levels the address
    /// lines actually hold.
    pub open spec fn wf(&self) -> bool {
        &&& self.config().clock_hz > 0
        &&& self.last_addr() == self.hw().address_levels()
    }

    /// Takes ownership of `pins`, whose address lines must all be low.
    pub fn new(pins: P, config: DramConfig) -> (r: Self)
        requires
            config.clock_hz > 0,
            pins.address_levels() == 0,
        ensures
            r.wf(),
            r.hw() == pins,
            r.config() == config,
            r.last_addr() == 0,
    {
        Dram41XX { pins, addr: AddressBus::new(), config }
    }

    /// The pins the controller drives.
    pub fn pins(&self) -> (r: &P)
        ensures
            *r == self.hw(),
    {
        &self.pins
    }

    /// Gives the pins back.
    pub fn into_pins(self) -> (r: P)
        ensures
            r == self.hw(),
    {
        self.pins
    }

    fn wait(&mut self, ns: u32)
        requires
            old(self).wf(),
        ensures
            final(self).hw().trace() == old(self).hw().trace() + delay_events(
                ns,
                old(self).config().clock_hz,
            ),
            final(self).hw().samples() == old(self).hw().samples(),
            final(self).wf(),
            final(self).config() == old(self).config(),
            final(self).last_addr() == old(self).last_addr(),
    {
        delay_ns(&mut self.pins, ns, self.config.clock_hz);
    }

    fn set_address(&mut self, a: usize)
        requires
            old(self).wf(),
        ensures
            final(self).hw().trace() == old(self).hw().trace() + set_events(
                old(self).last_addr(),
                a as u32,
                old(self).config().addr_settle_ns,
                old(self).config().clock_hz,
            ),
            final(self).hw().samples() == old(self).hw().samples(),
            final(self).wf(),
            final(self).config() == old(self).config(),
            final(self).last_addr() == a as u32,
    {
        self.addr.set(&mut self.pins, a, self.config.addr_settle_ns, self.config.clock_hz);
    }

    /// Puts `row` on the address lines, pulls `~RAS` low and waits the
    /// RAS-to-CAS delay.
    pub fn open_row(&mut self, row: usize)
        requires
            old(self).wf(),
        ensures
            final(self).hw().trace() == old(self).hw().trace() + open_row_events(
                old(self).config(),
                old(self).last_addr(),
                row as u32,
            ),
            final(self).hw().samples() == old(self).hw().samples(),
            final(self).wf(),
            final(self).config() == old(self).config(),
            final(self).last_addr() == row as u32,
    {
        self.set_address(row);
        self.pins.set_row_strobe(false);
        let t = self.config.timing.t_rcd;
        self.wait(t);
        reveal(open_row_events);
        assert(self.hw().trace() =~= old(self).hw().trace() + open_row_events(
            old(self).config(),
            old(self).last_addr(),
            row as u32,
        ));
    }

    /// Releases `~RAS` and waits the row precharge.
    pub fn close_row(&mut self)
        requires
            old(self).wf(),
        ensures
            final(self).hw().trace() == old(self).hw().trace() + close_row_events(
                old(self).config(),
            ),
            final(self).hw().samples() == old(self).hw().samples(),
            final(self).wf(),
            final(self).config() == old(self).config(),
            final(self).last_addr() == old(self).last_addr(),
    {
        self.pins.set_row_strobe(true);
        let t = self.config.timing.t_rp;
        self.wait(t);
        reveal(close_row_events);
        assert(self.hw().trace() =~= old(self).hw().trace() + close_row_events(
            old(self).config(),
        ));
    }

    /// Puts `col` on the address lines and pulses `~CAS` low for the CAS
    /// pulse width.
    pub fn strobe_cas(&mut self, col: usize)
        requires
            old(self).wf(),
        ensures
            final(self).hw().trace() == old(self).hw().trace() + strobe_events(
                old(self).config(),
                old(self).last_addr(),
                col as u32,
            ),
            final(self).hw().samples() == old(self).hw().samples(),
            final(self).wf(),
            final(self).config() == old(self).config(),
            final(self).last_addr() == col as u32,
    {
        self.set_address(col);
        self.pins.set_col_strobe(false);
        let t = self.config.timing.t_cas;
        self.wait(t);
        self.pins.set_col_strobe(true);
        reveal(strobe_events);
        assert(self.hw().trace() =~= old(self).hw().trace() + strobe_events(
            old(self).config(),
            old(self).last_addr(),
            col as u32,
        ));
    }

    /// Writes `bit` at `col` of the open row and waits the CAS precharge.
    /// Write-enable must already be low.
    pub fn write_page_mode(&mut self, col: usize, bit: bool)
        requires
            old(self).wf(),
        ensures
            final(self).hw().trace() == old(self).hw().trace() + write_page_events(
                old(self).config(),
                old(self).last_addr(),
                col as u32,
                bit,
            ),
            final(self).hw().samples() == old(self).hw().samples(),
            final(self).wf(),
            final(self).config() == old(self).config(),
            final(self).last_addr() == col as u32,
    {
        self.pins.set_data_in(bit);
        self.strobe_cas(col);
        let t = self.config.timing.t_cp;
        self.wait(t);
        reveal(write_page_events);
        assert(self.hw().trace() =~= old(self).hw().trace() + write_page_events(
            old(self).config(),
            old(self).last_addr(),
            col as u32,
            bit,
        ));
    }

    /// Reads the bit at `col` of the open row, after the level shifter's
    /// delay, then waits the CAS precharge.
    pub fn read_page_mode(&mut self, col: usize) -> (r: bool)
        requires
            old(self).wf(),
        ensures
            final(self).hw().trace() == old(self).hw().trace() + read_page_events(
                old(self).config(),
                old(self).last_addr(),
                col as u32,
                r,
            ),
            final(self).hw().samples() == old(self).hw().samples().push(r),
            final(self).wf(),
            final(self).config() == old(self).config(),
            final(self).last_addr() == col as u32,
    {
        self.strobe_cas(col);
        let t = self.config.transceiver_ns;
        self.wait(t);
        let read_bit = self.pins.read_data_out();
        let t = self.config.timing.t_cp;
        self.wait(t);
        reveal(read_page_events);
        assert(self.hw().trace() =~= old(self).hw().trace() + read_page_events(
            old(self).config(),
            old(self).last_addr(),
            col as u32,
            read_bit,
        ));
        read_bit
    }

    /// Writes `bit` at (`row`, `col`) in an early-write cycle.
    pub fn write_one_bit_early(&mut self, row: usize, col: usize, bit: bool)
        requires
            old(self).wf(),
        ensures
            final(self).hw().trace() == old(self).hw().trace() + write_bit_events(
                old(self).config(),
                old(self).last_addr(),
                row as u32,
                col as u32,
                bit,
            ),
            final(self).hw().samples() == old(self).hw().samples(),
            final(self).wf(),
            final(self).config() == old(self).config(),
            final(self).last_addr() == col as u32,
    {
        self.pins.set_data_in(bit);
        self.pins.set_write_enable(false);
        self.open_row(row);
        self.strobe_cas(col);
        self.pins.set_write_enable(true);
        let t = self.config.timing.t_ras_rest;
        self.wait(t);
        self.close_row();
        reveal(write_bit_events);
        assert(self.hw().trace() =~= old(self).hw().trace() + write_bit_events(
            old(self).config(),
            old(self).last_addr(),
            row as u32,
            col as u32,
            bit,
        ));
    }

    /// Reads the bit at (`row`, `col`) in a read cycle.
    pub fn read_one_bit(&mut self, row: usize, col: usize) -> (r: bool)
        requires
            old(self).wf(),
        ensures
            final(self).hw().trace() == old(self).hw().trace() + read_bit_events(
                old(self).config(),
                old(self).last_addr(),
                row as u32,
                col as u32,
                r,
            ),
            final(self).hw().samples() == old(self).hw().samples().push(r),
            final(self).wf(),
            final(self).config() == old(self).config(),
            final(self).last_addr() == col as u32,
    {
        self.open_row(row);
        self.strobe_cas(col);
        let t = self.config.transceiver_ns;
        self.wait(t);
        let read_bit = self.pins.read_data_out();
        let t = self.config.timing.t_ras_rest;
        self.wait(t);
        self.close_row();
        reveal(read_bit_events);
        assert(self.hw().trace() =~= old(self).hw().trace() + read_bit_events(
            old(self).config(),
            old(self).last_addr(),
            row as u32,
            col as u32,
            read_bit,
        ));
        read_bit
    }

    /// Drives the control lines idle and wakes the array with a train of
    /// `~RAS` pulses.
    pub fn init(&mut self)
        requires
            old(self).wf(),
        ensures
            final(self).hw().trace() == old(self).hw().trace() + init_events(old(self).config()),
            final(self).hw().samples() == old(self).hw().samples(),
            final(self).wf(),
            final(self).config() == old(self).config(),
            final(self).last_addr() == old(self).last_addr(),
    {
        self.pins.set_write_enable(true);
        self.pins.set_col_strobe(true);
        self.pins.set_row_strobe(true);
        self.wait(POWER_UP_NS);
        let ghost start = self.hw().trace();
        let mut i: usize = 0;
        while i < WAKE_PULSES
            invariant
                i <= WAKE_PULSES,
                self.wf(),
                self.config() == old(self).config(),
                self.last_addr() == old(self).last_addr(),
                self.hw().samples() == old(self).hw().samples(),
                self.hw().trace() == start + wake_pulses(self.config(), i as nat),
            decreases WAKE_PULSES - i,
        {
            self.pins.set_row_strobe(false);
            self.wait(WAKE_PULSE_NS);
            self.pins.set_row_strobe(true);
            self.wait(WAKE_PULSE_NS);
            assert(self.hw().trace() =~= start + wake_pulses(self.config(), (i + 1) as nat));
            i = i + 1;
        }
        assert(self.hw().trace() =~= old(self).hw().trace() + init_events(old(self).config()));
    }

    /// Whether a chip answers: cell (0, 0) must read back a written 0, then a
    /// written 1. The second write is skipped when the 0 does not read back.
    pub fn is_working(&mut self) -> (r: bool)
        requires
            old(self).wf(),
        ensures
            ({
                let c = old(self).config();
                let s0 = old(self).hw().samples();
                let s = final(self).hw().samples();
                let first = s[s0.len() as int];
                let second = s[s0.len() + 1int];
                &&& s == s0 + if first {
                    seq![first]
                } else {
                    seq![first, second]
                }
                &&& r == (!first && second)
                &&& final(self).hw().trace() == old(self).hw().trace() + write_bit_events(
                    c,
                    old(self).last_addr(),
                    0,
                    0,
                    false,
                ) + read_bit_events(c, 0, 0, 0, first) + if first {
                    Seq::empty()
                } else {
                    write_bit_events(c, 0, 0, 0, true) + read_bit_events(c, 0, 0, 0, second)
                }
            }),
            final(self).wf(),
            final(self).config() == old(self).config(),
            final(self).last_addr() == 0,
    {
        self.write_one_bit_early(0, 0, false);
        let ghost t1 = self.hw().trace();
        if self.read_one_bit(0, 0) {
            assert(self.hw().samples() =~= old(self).hw().samples() + seq![true]);
            return false;
        }
        let ghost t2 = self.hw().trace();
        self.write_one_bit_early(0, 0, true);
        let r = self.read_one_bit(0, 0);
        assert(self.hw().samples() =~= old(self).hw().samples() + seq![false, r]);
        reveal(write_bit_events);
        assert(self.hw().trace() =~= old(self).hw().trace() + write_bit_events(
            old(self).config(),
            old(self).last_addr(),
            0,
            0,
            false,
        ) + read_bit_events(old(self).config(), 0, 0, 0, false) + (write_bit_events(
            old(self).config(),
            0,
            0,
            0,
            true,
        ) + read_bit_events(old(self).config(), 0, 0, 0, r)));
        r
    }

    /// Whether the chip has nine address lines (41256) rather than eight
    /// (4164): clears the probe cell, sets its alias, and reads the probe cell
    /// back. A 1 there means the write wrapped onto it.
    pub fn is_41256(&mut self) -> (r: bool)
        requires
            old(self).wf(),
        ensures
            ({
                let c = old(self).config();
                let s0 = old(self).hw().samples();
                let got = final(self).hw().samples()[s0.len() as int];
                &&& final(self).hw().samples() == s0.push(got)
                &&& r == !got
                &&& final(self).hw().trace() == old(self).hw().trace() + write_bit_events(
                    c,
                    old(self).last_addr(),
                    PROBE_ADDR as u32,
                    PROBE_ADDR as u32,
                    false,
                ) + write_bit_events(
                    c,
                    PROBE_ADDR as u32,
                    PROBE_ALIAS_ADDR as u32,
                    PROBE_ALIAS_ADDR as u32,
                    true,
                ) + read_bit_events(
                    c,
                    PROBE_ALIAS_ADDR as u32,
                    PROBE_ADDR as u32,
                    PROBE_ADDR as u32,
                    got,
                )
            }),
            final(self).wf(),
            final(self).config() == old(self).config(),
            final(self).last_addr() == PROBE_ADDR as u32,
    {
        self.write_one_bit_early(PROBE_ADDR, PROBE_ADDR, false);
        self.write_one_bit_early(PROBE_ALIAS_ADDR, PROBE_ALIAS_ADDR, true);
        let wrapped = self.read_one_bit(PROBE_ADDR, PROBE_ADDR);
        reveal(write_bit_events);
        assert(self.hw().trace() =~= old(self).hw().trace() + write_bit_events(
            old(self).config(),
            old(self).last_addr(),
            PROBE_ADDR as u32,
            PROBE_ADDR as u32,
            false,
        ) + write_bit_events(
            old(self).config(),
            PROBE_ADDR as u32,
            PROBE_ALIAS_ADDR as u32,
            PROBE_ALIAS_ADDR as u32,
            true,
        ) + read_bit_events(
            old(self).config(),
            PROBE_ALIAS_ADDR as u32,
            PROBE_ADDR as u32,
            PROBE_ADDR as u32,
            wrapped,
        ));
        !wrapped
    }

    /// Writes the pattern into every cell, a row per page-mode burst, rows and
    /// columns ascending or both descending.
    fn fill_pass(&mut self, n: usize, descending: bool)
        requires
            old(self).wf(),
            1 <= n <= 512,
        ensures
            final(self).hw().trace() == old(self).hw().trace() + fill_events(
                old(self).config(),
                n as int,
                descending,
                old(self).last_addr(),
                n as nat,
            ),
            final(self).hw().samples() == old(self).hw().samples(),
            final(self).wf(),
            final(self).config() == old(self).config(),
            final(self).last_addr() == scan_pos(n as int, descending, n - 1) as u32,
    {
        let ghost t0 = self.hw().trace();
        let ghost last0 = self.last_addr();
        let ghost c = self.config();
        let mut ri: usize = 0;
        while ri < n
            invariant
                ri <= n <= 512,
                self.wf(),
                self.config() == c,
                c == old(self).config(),
                self.hw().samples() == old(self).hw().samples(),
                self.hw().trace() == t0 + fill_events(c, n as int, descending, last0, ri as nat),
                self.last_addr() == addr_before_row(n as int, descending, last0, ri as int),
            decreases n - ri,
        {
            let row = if descending { n - 1 - ri } else { ri };
            let mut val: u32 = PATTERN;
            self.pins.set_write_enable(false);
            self.open_row(row);
            let ghost t1 = self.hw().trace();
            let mut ci: usize = 0;
            while ci < n
                invariant
                    ri < n <= 512,
                    ci <= n,
                    row == scan_pos(n as int, descending, ri as int),
                    val == PATTERN,
                    self.wf(),
                    self.config() == c,
                    self.hw().samples() == old(self).hw().samples(),
                    self.hw().trace() == t1 + fill_row_events(
                        c,
                        n as int,
                        descending,
                        row as int,
                        ci as nat,
                    ),
                    self.last_addr() == addr_before(n as int, descending, row as int, ci as int),
                decreases n - ci,
            {
                let col = if descending { n - 1 - ci } else { ci };
                assert((PATTERN & 1) != 0) by (bit_vector);
                let bit = val & 1 != 0;
                self.write_page_mode(col, bit);
                assert(self.hw().trace() =~= t1 + fill_row_events(
                    c,
                    n as int,
                    descending,
                    row as int,
                    (ci + 1) as nat,
                ));
                assert((PATTERN >> 1u32) | (PATTERN << 31u32) == PATTERN) by (bit_vector);
                val = (val >> 1u32) | (val << 31u32);
                ci = ci + 1;
            }
            self.close_row();
            self.pins.set_write_enable(true);
            assert(self.hw().trace() =~= t0 + fill_events(
                c,
                n as int,
                descending,
                last0,
                (ri + 1) as nat,
            ));
            ri = ri + 1;
        }
    }

    /// Reads every cell, rows and columns ascending or both descending, and
    /// counts those that differ from the pattern (or from its complement when
    /// `inverted`). With `complement`, each cell that reads as expected is
    /// overwritten with its complement on the spot. Returns the count and the
    /// last failing cell.
    #[verifier::spinoff_prover]
    #[verifier::rlimit(100)]
    fn check_pass(&mut self, n: usize, descending: bool, inverted: bool, complement: bool) -> (r: (
        usize,
        Option<(usize, usize)>,
    ))
        requires
            old(self).wf(),
            1 <= n <= 512,
        ensures
            ({
                let s0 = old(self).hw().samples();
                let s = final(self).hw().samples();
                let got = s.subrange(s0.len() as int, s.len() as int);
                &&& s.len() == s0.len() + n * n
                &&& s.subrange(0, s0.len() as int) == s0
                &&& r.0 == count_mismatches(got, !inverted)
                &&& (r.0 > 0 <==> r.1 is Some)
                &&& (r.1 matches Some((row, col)) ==> row < n && col < n && scan_index(
                    n as int,
                    descending,
                    row as int,
                    col as int,
                ) == last_mismatch(got, !inverted))
                &&& final(self).hw().trace() == old(self).hw().trace() + check_events(
                    old(self).config(),
                    n as int,
                    descending,
                    old(self).last_addr(),
                    got,
                    !inverted,
                    complement,
                    n as nat,
                )
            }),
            final(self).wf(),
            final(self).config() == old(self).config(),
            final(self).last_addr() == scan_pos(n as int, descending, n - 1) as u32,
    {
        let ghost s0 = self.hw().samples();
        let ghost t0 = self.hw().trace();
        let ghost last0 = self.last_addr();
        let ghost c = self.config();
        let ghost expected = !inverted;
        let mut failed: usize = 0;
        let mut last_failed: Option<(usize, usize)> = None;
        let mut ri: usize = 0;
        proof {
            assert(n * n <= 262144) by (nonlinear_arith)
                requires
                    n <= 512,
            ;
        }
        while ri < n
            invariant
                ri <= n <= 512,
                n * n <= 262144,
                self.wf(),
                self.config() == old(self).config(),
                c == old(self).config(),
                expected == !inverted,
                self.hw().samples().len() == s0.len() + ri * n,
                self.hw().trace() == t0 + check_events(
                    c,
                    n as int,
                    descending,
                    last0,
                    self.hw().samples().subrange(s0.len() as int, self.hw().samples().len() as int),
                    expected,
                    complement,
                    ri as nat,
                ),
                self.last_addr() == addr_before_row(n as int, descending, last0, ri as int),
                self.hw().samples().subrange(0, s0.len() as int) == s0,
                failed == count_mismatches(
                    self.hw().samples().subrange(s0.len() as int, self.hw().samples().len() as int),
                    expected,
                ),
                failed <= ri * n,
                (failed > 0 <==> last_failed is Some),
                last_failed is None ==> last_mismatch(
                    self.hw().samples().subrange(s0.len() as int, self.hw().samples().len() as int),
                    expected,
                ) == -1,
                last_failed matches Some((row, col)) ==> row < n && col < n && scan_index(
                    n as int,
                    descending,
                    row as int,
                    col as int,
                ) == last_mismatch(
                    self.hw().samples().subrange(s0.len() as int, self.hw().samples().len() as int),
                    expected,
                ),
            decreases n - ri,
        {
            let row = if descending { n - 1 - ri } else { ri };
            let ghost t_row = self.hw().trace();
            self.open_row(row);
            let ghost t1 = self.hw().trace();
            let mut val: u32 = PATTERN;
            let mut ci: usize = 0;
            while ci < n
                invariant
                    ri < n <= 512,
                    ci <= n,
                    n * n <= 262144,
                    row == if descending { n - 1 - ri } else { ri as int },
                    val == PATTERN,
                    self.wf(),
                    self.config() == old(self).config(),
                    c == old(self).config(),
                    expected == !inverted,
                    self.hw().samples().len() == s0.len() + ri * n + ci,
                    t_row == t0 + check_events(
                        c,
                        n as int,
                        descending,
                        last0,
                        self.hw().samples().subrange(
                            s0.len() as int,
                            self.hw().samples().len() as int,
                        ),
                        expected,
                        complement,
                        ri as nat,
                    ),
                    t1 == t_row + open_row_events(
                        c,
                        addr_before_row(n as int, descending, last0, ri as int),
                        row as u32,
                    ),
                    self.hw().trace() == t1 + check_row_events(
                        c,
                        n as int,
                        descending,
                        row as int,
                        self.hw().samples().subrange(
                            s0.len() as int,
                            self.hw().samples().len() as int,
                        ),
                        ri * n,
                        expected,
                        complement,
                        ci as nat,
                    ),
                    self.last_addr() == addr_before(n as int, descending, row as int, ci as int),
                    self.hw().samples().subrange(0, s0.len() as int) == s0,
                    failed == count_mismatches(
                        self.hw().samples().subrange(
                            s0.len() as int,
                            self.hw().samples().len() as int,
                        ),
                        expected,
                    ),
                    failed <= ri * n + ci,
                    (failed > 0 <==> last_failed is Some),
                    last_failed is None ==> last_mismatch(
                        self.hw().samples().subrange(
                            s0.len() as int,
                            self.hw().samples().len() as int,
                        ),
                        expected,
                    ) == -1,
                    last_failed matches Some((r, c)) ==> r < n && c < n && scan_index(
                        n as int,
                        descending,
                        r as int,
                        c as int,
                    ) == last_mismatch(
                        self.hw().samples().subrange(
                            s0.len() as int,
                            self.hw().samples().len() as int,
                        ),
                        expected,
                    ),
                decreases n - ci,
            {
                proof {
                    lemma_scan_step(ri as int, ci as int, n as int);
                }
                let col = if descending { n - 1 - ci } else { ci };
                assert((PATTERN & 1) != 0) by (bit_vector);
                let bit = val & 1 != 0;
                let want = if inverted { !bit } else { bit };
                let ghost before = self.hw().samples();
                let ghost t_before = self.hw().trace();
                let got = self.read_page_mode(col);
                let ghost t_read = self.hw().trace();
                proof {
                    let g = self.hw().samples().subrange(
                        s0.len() as int,
                        self.hw().samples().len() as int,
                    );
                    let g_prev = before.subrange(s0.len() as int, before.len() as int);
                    assert(forall|j: int| 0 <= j < g_prev.len() ==> g[j] == g_prev[j]);
                    lemma_check_congruent(
                        c,
                        n as int,
                        descending,
                        last0,
                        g,
                        g_prev,
                        expected,
                        complement,
                        ri as nat,
                    );
                    lemma_check_row_congruent(
                        c,
                        n as int,
                        descending,
                        row as int,
                        g,
                        g_prev,
                        ri * n,
                        expected,
                        complement,
                        ci as nat,
                    );
                    assert(g[ri * n + ci] == got);
                }
                proof {
                    let g = self.hw().samples().subrange(
                        s0.len() as int,
                        self.hw().samples().len() as int,
                    );
                    let g_prev = before.subrange(s0.len() as int, before.len() as int);
                    assert(g.drop_last() =~= g_prev);
                    assert(g.last() == got);
                    assert(self.hw().samples().subrange(0, s0.len() as int) =~= s0);
                    assert(scan_index(n as int, descending, row as int, col as int) == ri * n + ci);
                }
                if got != want {
                    failed = failed + 1;
                    last_failed = Some((row, col));
                } else if complement {
                    self.pins.set_write_enable(false);
                    self.write_page_mode(col, !bit);
                    self.pins.set_write_enable(true);
                }
                proof {
                    let g = self.hw().samples().subrange(
                        s0.len() as int,
                        self.hw().samples().len() as int,
                    );
                    reveal(check_step_events);
                    assert(self.hw().trace() =~= t_before + check_step_events(
                        c,
                        addr_before(n as int, descending, row as int, ci as int),
                        col as u32,
                        got,
                        expected,
                        complement,
                    ));
                    assert(self.hw().trace() =~= t1 + check_row_events(
                        c,
                        n as int,
                        descending,
                        row as int,
                        g,
                        ri * n,
                        expected,
                        complement,
                        (ci + 1) as nat,
                    ));
                }
                assert((PATTERN >> 1u32) | (PATTERN << 31u32) == PATTERN) by (bit_vector);
                val = (val >> 1u32) | (val << 31u32);
                ci = ci + 1;
            }
            self.close_row();
            assert((ri + 1) * n == ri * n + n) by (nonlinear_arith);
            assert(self.hw().trace() =~= t0 + check_events(
                c,
                n as int,
                descending,
                last0,
                self.hw().samples().subrange(s0.len() as int, self.hw().samples().len() as int),
                expected,
                complement,
                (ri + 1) as nat,
            ));
            ri = ri + 1;
        }
        (failed, last_failed)
    }

    /// Runs the moving-inversions test on a chip with `num_addr_lines` address
    /// lines: fill ascending, check and complement ascending, check ascending,
    /// fill descending, check and complement descending, check descending. The
    /// run stops after the first check pass that finds a failure, and reports
    /// that pass's failed cells and the last of them.
    #[verifier::spinoff_prover]
    #[verifier::rlimit(50)]
    pub fn test_moving_inversions(&mut self, num_addr_lines: u8) -> (r: Result<(), TestError>)
        requires
            old(self).wf(),
            num_addr_lines <= 9,
        ensures
            ({
                let n = side_len(num_addr_lines as nat) as int;
                let m = n * n;
                let s0 = old(self).hw().samples();
                let all = final(self).hw().samples();
                let s = all.subrange(s0.len() as int, all.len() as int);
                let k = stop_pass(s, m);
                &&& all.len() >= s0.len()
                &&& all.subrange(0, s0.len() as int) == s0
                &&& s.len() == if k < 4 {
                    (k + 1) * m
                } else {
                    4 * m
                }
                &&& (r is Ok <==> k == 4)
                &&& final(self).hw().trace() == old(self).hw().trace() + run_events(
                    old(self).config(),
                    n,
                    old(self).last_addr(),
                    s,
                    k,
                )
                &&& (r matches Err(e) ==> {
                    &&& e.num_failed_bits == pass_failures(s, m, k)
                    &&& e.row < n
                    &&& e.col < n
                    &&& scan_index(n, k >= 2, e.row as int, e.col as int) == last_mismatch(
                        pass_samples(s, m, k),
                        pass_expected(k),
                    )
                })
            }),
            final(self).wf(),
            final(self).config() == old(self).config(),
    {
        let addr_end = side_length(num_addr_lines);
        let ghost n = addr_end as int;
        let ghost m = n * n;
        let ghost s0 = self.hw().samples();
        let ghost t0 = self.hw().trace();
        let ghost c = self.config();
        let ghost l0 = self.last_addr();
        self.fill_pass(addr_end, false);
        let (failed, last) = self.check_pass(addr_end, false, false, true);
        let ghost a0 = self.hw().samples();
        let ghost g0 = a0.subrange(s0.len() as int, a0.len() as int);
        proof {
            let s = a0.subrange(s0.len() as int, a0.len() as int);
            assert(pass_samples(s, m, 0) =~= g0);
            assert(self.hw().trace() =~= t0 + run_events(c, n, l0, s, 0));
        }
        if failed > 0 {
            let (row, col) = last.unwrap();
            return Err(TestError { num_failed_bits: failed, row, col });
        }
        let (failed, last) = self.check_pass(addr_end, false, true, false);
        let ghost a1 = self.hw().samples();
        let ghost g1 = a1.subrange(a0.len() as int, a1.len() as int);
        proof {
            assert(a0.len() == s0.len() + m);
            assert(a1.len() == a0.len() + m);
            assert(a1.subrange(0, a0.len() as int) == a0);
            assert(a1.subrange(0, s0.len() as int) =~= s0);
            let s = a1.subrange(s0.len() as int, a1.len() as int);
            assert(pass_samples(s, m, 0) =~= g0);
            assert(pass_samples(s, m, 1) =~= g1);
            assert(self.hw().trace() =~= t0 + run_events(c, n, l0, s, 1));
        }
        if failed > 0 {
            let (row, col) = last.unwrap();
            return Err(TestError { num_failed_bits: failed, row, col });
        }
        self.fill_pass(addr_end, true);
        let (failed, last) = self.check_pass(addr_end, true, false, true);
        let ghost a2 = self.hw().samples();
        let ghost g2 = a2.subrange(a1.len() as int, a2.len() as int);
        proof {
            assert(a2.subrange(0, s0.len() as int) =~= s0);
            let s = a2.subrange(s0.len() as int, a2.len() as int);
            assert(pass_samples(s, m, 0) =~= g0);
            assert(pass_samples(s, m, 1) =~= g1);
            assert(pass_samples(s, m, 2) =~= g2);
            assert(self.hw().trace() =~= t0 + run_events(c, n, l0, s, 2));
        }
        if failed > 0 {
            let (row, col) = last.unwrap();
            return Err(TestError { num_failed_bits: failed, row, col });
        }
        let (failed, last) = self.check_pass(addr_end, true, true, false);
        let ghost a3 = self.hw().samples();
        let ghost g3 = a3.subrange(a2.len() as int, a3.len() as int);
        proof {
            assert(a3.subrange(0, s0.len() as int) =~= s0);
            let s = a3.subrange(s0.len() as int, a3.len() as int);
            assert(pass_samples(s, m, 0) =~= g0);
            assert(pass_samples(s, m, 1) =~= g1);
            assert(pass_samples(s, m, 2) =~= g2);
            assert(pass_samples(s, m, 3) =~= g3);
            assert(self.hw().trace() =~= t0 + run_events(c, n, l0, s, 3));
        }
        if failed > 0 {
            let (row, col) = last.unwrap();
            return Err(TestError { num_failed_bits: failed, row, col });
        }
        Ok(())
    }
}

} // verus!
