//! A simulated DRAM chip on simulated pins, for exercising the controller
//! without hardware.
//!
//! The chip latches the row on the falling edge of `~RAS` and the column on
//! the falling edge of `~CAS`; at that edge it stores `DIN` when `~WE` is low
//! and otherwise drives the cell onto `DOUT`. Address bits above its own
//! address lines are ignored, so a chip with eight lines aliases addresses that
//! differ only in bit 8.

use vstd::prelude::*;
use crate::inversions::side_length;
use crate::pins::{DramPins, PinEvent};

verus! {

/// A simulated chip with `2^lines` rows and columns.
pub struct SimDram {
    mask: u32,
    addr_lines: u32,
    write_enable: bool,
    col_strobe: bool,
    row_strobe: bool,
    data_in: bool,
    data_out: bool,
    row: u32,
    col: u32,
    cells: Vec<bool>,
    stuck: Option<(usize, usize)>,
    masks: Vec<u32>,
    cycles: u64,
    log: Ghost<Seq<PinEvent>>,
    reads: Ghost<Seq<bool>>,
}

impl SimDram {
    /// A healthy chip with `lines` address lines, all cells 0, every control
    /// line high and every address line low. A `stuck` cell always reads 0.
    pub fn new(lines: u8, stuck: Option<(usize, usize)>) -> (r: SimDram)
        requires
            lines <= 9,
        ensures
            r.trace() == Seq::<PinEvent>::empty(),
            r.samples() == Seq::<bool>::empty(),
            r.address_levels() == 0,
    {
        let n = side_length(lines);
        let mut cells: Vec<bool> = Vec::new();
        let mut i: usize = 0;
        proof {
            assert(n * n <= 262144) by (nonlinear_arith)
                requires
                    n <= 512,
            ;
        }
        while i < n * n
            invariant
                n * n <= 262144,
            decreases n * n - i,
        {
            cells.push(false);
            i = i + 1;
        }
        SimDram {
            mask: (n - 1) as u32,
            addr_lines: 0,
            write_enable: true,
            col_strobe: true,
            row_strobe: true,
            data_in: false,
            data_out: false,
            row: 0,
            col: 0,
            cells,
            stuck,
            masks: Vec::new(),
            cycles: 0,
            log: Ghost(Seq::empty()),
            reads: Ghost(Seq::empty()),
        }
    }

    fn index(&self, row: u32, col: u32) -> (r: Option<usize>)
        ensures
            r matches Some(i) ==> i < self.cells@.len(),
    {
        let w = self.mask as u64 + 1;
        proof {
            assert(row as u64 * w + col as u64 <= u64::MAX) by (nonlinear_arith)
                requires
                    row <= u32::MAX,
                    w <= u32::MAX + 1,
                    col <= u32::MAX,
            ;
        }
        let i = row as u64 * w + col as u64;
        if i < self.cells.len() as u64 {
            Some(i as usize)
        } else {
            None
        }
    }

    /// The content of cell (`row`, `col`), or `false` outside the array.
    pub fn cell(&self, row: u32, col: u32) -> bool {
        match self.index(row & self.mask, col & self.mask) {
            Some(i) => self.cells[i],
            None => false,
        }
    }

    /// Every mask written to the address toggle register, in order.
    pub fn toggle_masks(&self) -> &Vec<u32> {
        &self.masks
    }

    /// CPU cycles spent in delays so far (saturating).
    pub fn cycles(&self) -> u64 {
        self.cycles
    }

    /// The level of the address lines.
    pub fn address_lines(&self) -> u32 {
        self.addr_lines
    }

    fn strobe_column(&mut self)
        ensures
            final(self).log == old(self).log,
            final(self).reads == old(self).reads,
            final(self).addr_lines == old(self).addr_lines,
    {
        self.col = self.addr_lines & self.mask;
        if let Some(i) = self.index(self.row, self.col) {
            if !self.write_enable {
                self.cells.set(i, self.data_in);
            } else {
                let is_stuck = match self.stuck {
                    Some((r, c)) => r == self.row as usize && c == self.col as usize,
                    None => false,
                };
                self.data_out = if is_stuck { false } else { self.cells[i] };
            }
        }
    }
}

impl DramPins for SimDram {
    closed spec fn trace(&self) -> Seq<PinEvent> {
        self.log@
    }

    closed spec fn samples(&self) -> Seq<bool> {
        self.reads@
    }

    closed spec fn address_levels(&self) -> u32 {
        self.addr_lines
    }

    fn set_write_enable(&mut self, high: bool) {
        self.write_enable = high;
        self.log = Ghost(self.log@.push(PinEvent::WriteEnable(high)));
    }

    fn set_col_strobe(&mut self, high: bool) {
        if self.col_strobe && !high && !self.row_strobe {
            self.strobe_column();
        }
        self.col_strobe = high;
        self.log = Ghost(self.log@.push(PinEvent::ColStrobe(high)));
    }

    fn set_row_strobe(&mut self, high: bool) {
        if self.row_strobe && !high {
            self.row = self.addr_lines & self.mask;
        }
        self.row_strobe = high;
        self.log = Ghost(self.log@.push(PinEvent::RowStrobe(high)));
    }

    fn set_data_in(&mut self, high: bool) {
        self.data_in = high;
        self.log = Ghost(self.log@.push(PinEvent::DataIn(high)));
    }

    fn read_data_out(&mut self) -> (r: bool) {
        let r = self.data_out;
        self.log = Ghost(self.log@.push(PinEvent::DataOut(r)));
        self.reads = Ghost(self.reads@.push(r));
        r
    }

    fn toggle_address(&mut self, mask: u32) {
        self.addr_lines = self.addr_lines ^ mask;
        self.masks.push(mask);
        self.log = Ghost(self.log@.push(PinEvent::AddressToggle(mask)));
    }

    fn delay_loop_3cyc(&mut self, loop_count: u32) {
        self.cycles = self.cycles.saturating_add(3 * loop_count as u64);
        self.log = Ghost(self.log@.push(PinEvent::Loop3(loop_count)));
    }

    fn nop(&mut self) {
        self.cycles = self.cycles.saturating_add(1);
        self.log = Ghost(self.log@.push(PinEvent::Nop));
    }

    fn fence(&mut self) {
        self.log = Ghost(self.log@.push(PinEvent::Fence));
    }
}

} // verus!
