use dram_tester::address::AddressBus;
use dram_tester::delay::{delay_ns, ns_per_cycle, plan_delay, DelayPlan};
use dram_tester::dram::{Dram41XX, DramConfig, TestError};
use dram_tester::inversions::side_length;
use dram_tester::sim::SimDram;
use dram_tester::timings::{
    Datasheet, Dram100Ns, Dram120Ns, Dram150Ns, Dram80Ns, DramTimingConfig, TimingProfile,
};

const CLOCK_HZ: u32 = 125_000_000;

fn config() -> DramConfig {
    let npc = ns_per_cycle(CLOCK_HZ);
    DramConfig {
        timing: Dram150Ns::profile(npc),
        clock_hz: CLOCK_HZ,
        addr_settle_ns: 0,
        transceiver_ns: 14u32.saturating_sub(npc),
    }
}

fn controller(lines: u8, stuck: Option<(usize, usize)>) -> Dram41XX<SimDram> {
    let mut dram = Dram41XX::new(SimDram::new(lines, stuck), config());
    dram.init();
    dram
}

fn cycles(p: DelayPlan) -> u64 {
    3 * p.loops as u64 + p.nops as u64
}

#[test]
fn ns_per_cycle_rounds_up() {
    assert_eq!(ns_per_cycle(125_000_000), 8);
    assert_eq!(ns_per_cycle(300_000_000), 4);
    assert_eq!(ns_per_cycle(1_000_000_000), 1);
    assert_eq!(ns_per_cycle(4_000_000_000), 1);
    assert_eq!(ns_per_cycle(1), 1_000_000_000);
}

#[test]
fn plan_splits_cycles() {
    // 142 ns at 8 ns per cycle: 17 whole cycles and a remainder.
    assert_eq!(plan_delay(142, CLOCK_HZ), DelayPlan { loops: 5, nops: 3 });
    assert_eq!(plan_delay(144, CLOCK_HZ), DelayPlan { loops: 6, nops: 0 });
    assert_eq!(plan_delay(0, CLOCK_HZ), DelayPlan { loops: 0, nops: 0 });
    assert_eq!(plan_delay(7, CLOCK_HZ), DelayPlan { loops: 0, nops: 1 });
}

#[test]
fn delay_never_undershoots_and_overshoots_less_than_a_cycle() {
    for &hz in &[125_000_000u32, 150_000_000, 250_000_000, 1_000_000, 7] {
        let npc = ns_per_cycle(hz) as u64;
        for &ns in &[0u32, 1, 7, 8, 9, 25, 142, 1000, 10_000_000, u32::MAX] {
            let t = cycles(plan_delay(ns, hz)) * npc;
            assert!(t >= ns as u64);
            assert!(t < ns as u64 + npc);
        }
    }
}

#[test]
fn profile_of_150ns_grade() {
    assert_eq!(
        Dram150Ns::profile(8),
        TimingProfile { t_ras: 142, t_cas: 67, t_rcd: 17, t_rp: 92, t_cp: 52, t_ras_rest: 58 }
    );
    assert_eq!(Dram120Ns::profile(8).t_ras_rest, 112 - 52 - 17);
    assert_eq!(Dram100Ns::profile(0).t_cp, 40);
}

#[test]
fn profile_floors_at_zero() {
    assert_eq!(
        Dram80Ns::profile(30),
        TimingProfile { t_ras: 50, t_cas: 10, t_rcd: 0, t_rp: 40, t_cp: 0, t_ras_rest: 40 }
    );
    assert_eq!(
        Dram150Ns::profile(1000),
        TimingProfile { t_ras: 0, t_cas: 0, t_rcd: 0, t_rp: 0, t_cp: 0, t_ras_rest: 0 }
    );
    let d = Datasheet { t_ras: 10, t_cas: 20, t_rcd: 5, t_rp: 1, t_cp: 2 };
    assert_eq!(TimingProfile::from_datasheet(d, 1).t_ras_rest, 0);
    assert_eq!(TimingProfile::from_datasheet(d, 1).t_rp, 0);
}

#[test]
fn address_set_twice_toggles_nothing() {
    let mut pins = SimDram::new(9, None);
    let mut bus = AddressBus::new();
    bus.set(&mut pins, 0b1_0110_0101, 0, CLOCK_HZ);
    bus.set(&mut pins, 0b1_0110_0101, 0, CLOCK_HZ);
    bus.set(&mut pins, 0b0_0110_0001, 0, CLOCK_HZ);
    assert_eq!(pins.toggle_masks(), &vec![0b1_0110_0101u32, 0, 0b1_0000_0100]);
    assert_eq!(pins.address_lines(), 0b0_0110_0001);
    assert_eq!(bus.last_state(), 0b0_0110_0001);
}

#[test]
fn single_bit_round_trip() {
    let mut dram = controller(8, None);
    for &(row, col) in &[(0usize, 0usize), (255, 255), (3, 200), (128, 1)] {
        for &bit in &[false, true, false] {
            dram.write_one_bit_early(row, col, bit);
            assert_eq!(dram.read_one_bit(row, col), bit);
            assert_eq!(dram.pins().cell(row as u32, col as u32), bit);
        }
    }
}

#[test]
fn page_mode_read_sees_early_write() {
    let mut dram = controller(9, None);
    dram.write_one_bit_early(511, 511, true);
    dram.write_one_bit_early(511, 510, false);
    dram.open_row(511);
    assert!(dram.read_page_mode(511));
    assert!(!dram.read_page_mode(510));
    dram.close_row();
}

#[test]
fn detects_working_chip() {
    let mut dram = controller(8, None);
    assert!(dram.is_working());
    assert!(dram.pins().cell(0, 0));
}

#[test]
fn stuck_origin_is_not_working() {
    let mut dram = controller(8, Some((0, 0)));
    assert!(!dram.is_working());
}

#[test]
fn eight_line_chip_is_4164() {
    let mut dram = controller(8, None);
    assert!(!dram.is_41256());
}

#[test]
fn nine_line_chip_is_41256() {
    let mut dram = controller(9, None);
    assert!(dram.is_41256());
}

#[test]
fn side_length_of_address_lines() {
    assert_eq!(side_length(8), 256);
    assert_eq!(side_length(9), 512);
    assert_eq!(side_length(0), 1);
}

#[test]
fn healthy_4164_passes() {
    let mut dram = controller(8, None);
    assert_eq!(dram.test_moving_inversions(8), Ok(()));
    // the last check pass leaves the complement of the pattern everywhere
    assert!(!dram.pins().cell(0, 0));
    assert!(!dram.pins().cell(255, 255));
}

#[test]
fn healthy_41256_passes() {
    let mut dram = controller(9, None);
    assert_eq!(dram.test_moving_inversions(9), Ok(()));
    assert!(!dram.pins().cell(511, 511));
}

#[test]
fn stuck_cell_fails_first_check() {
    let mut dram = controller(8, Some((5, 5)));
    assert_eq!(
        dram.test_moving_inversions(8),
        Err(TestError { num_failed_bits: 1, row: 5, col: 5 })
    );
    // the run stopped after the first check pass: the cells it complemented
    // hold 0, and no later fill wrote the pattern back
    assert!(!dram.pins().cell(0, 0));
    assert!(!dram.pins().cell(255, 255));
    assert!(dram.pins().cell(5, 5));
}

#[test]
fn testing_a_4164_as_41256_fails_on_aliases() {
    let mut dram = controller(8, None);
    match dram.test_moving_inversions(9) {
        Err(e) => {
            assert!(e.num_failed_bits > 0);
            assert!(e.row < 512 && e.col < 512);
        }
        Ok(()) => panic!("an aliased array cannot pass"),
    }
}

#[test]
fn delay_ns_spends_the_planned_cycles() {
    let mut pins = SimDram::new(8, None);
    delay_ns(&mut pins, 142, CLOCK_HZ);
    assert_eq!(pins.cycles(), 18);
    delay_ns(&mut pins, 0, CLOCK_HZ);
    assert_eq!(pins.cycles(), 18);
    delay_ns(&mut pins, 10_000_000, CLOCK_HZ);
    assert_eq!(pins.cycles(), 18 + 1_250_000);
    let mut pins = SimDram::new(8, None);
    delay_ns(&mut pins, 12, 300_000_000);
    // 4 ns per rounded-up cycle: three cycles
    assert_eq!(pins.cycles(), 3);
}

#[test]
fn controller_keeps_address_lines_in_step() {
    let mut dram = controller(9, None);
    dram.write_one_bit_early(300, 17, true);
    assert_eq!(dram.pins().address_lines(), 17);
    assert!(dram.read_one_bit(300, 17));
    dram.open_row(511);
    assert_eq!(dram.pins().address_lines(), 511);
    dram.close_row();
}
