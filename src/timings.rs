//! DRAM timing profiles per chip speed grade.
//!
//! Each profile is the datasheet's minimum pulse widths, each reduced by the
//! length of one instruction (the overhead that surrounds every delay) and
//! floored at zero.

use vstd::prelude::*;

verus! {

/// Datasheet minimum pulse widths of one speed grade, in nanoseconds.
#[derive(Clone, Copy, Debug, PartialEq, Eq, Structural)]
pub struct Datasheet {
    /// Pulse duration, RAS low.
    pub t_ras: u32,
    /// Pulse duration, CAS low.
    pub t_cas: u32,
    /// RAS low to CAS low delay.
    pub t_rcd: u32,
    /// Pulse duration, RAS high (precharge).
    pub t_rp: u32,
    /// Pulse duration, CAS high (precharge).
    pub t_cp: u32,
}

/// The delays a controller waits, in nanoseconds.
#[derive(Clone, Copy, Debug, PartialEq, Eq, Structural)]
pub struct TimingProfile {
    pub t_ras: u32,
    pub t_cas: u32,
    pub t_rcd: u32,
    pub t_rp: u32,
    pub t_cp: u32,
    /// What is left of the RAS pulse after the RAS-to-CAS delay and the CAS
    /// pulse.
    pub t_ras_rest: u32,
}

/// `a - b`, or zero where that is negative.
pub open spec fn floor_sub(a: int, b: int) -> int {
    if a > b {
        a - b
    } else {
        0
    }
}

/// The profile of datasheet `d` when each delay carries `overhead` nanoseconds
/// of unavoidable extra time.
pub open spec fn spec_profile(d: Datasheet, overhead: u32) -> TimingProfile {
    let ras = floor_sub(d.t_ras as int, overhead as int);
    let cas = floor_sub(d.t_cas as int, overhead as int);
    let rcd = floor_sub(d.t_rcd as int, overhead as int);
    TimingProfile {
        t_ras: ras as u32,
        t_cas: cas as u32,
        t_rcd: rcd as u32,
        t_rp: floor_sub(d.t_rp as int, overhead as int) as u32,
        t_cp: floor_sub(d.t_cp as int, overhead as int) as u32,
        t_ras_rest: floor_sub(ras, cas + rcd) as u32,
    }
}

impl TimingProfile {
    /// Derives the profile of datasheet `d`, with `overhead` nanoseconds taken
    /// off each delay.
    pub fn from_datasheet(d: Datasheet, overhead: u32) -> (r: TimingProfile)
        ensures
            r == spec_profile(d, overhead),
    {
        let t_ras = d.t_ras.saturating_sub(overhead);
        let t_cas = d.t_cas.saturating_sub(overhead);
        let t_rcd = d.t_rcd.saturating_sub(overhead);
        let t_ras_rest = if t_cas >= t_ras {
            0
        } else {
            (t_ras - t_cas).saturating_sub(t_rcd)
        };
        TimingProfile {
            t_ras,
            t_cas,
            t_rcd,
            t_rp: d.t_rp.saturating_sub(overhead),
            t_cp: d.t_cp.saturating_sub(overhead),
            t_ras_rest,
        }
    }
}

/// A chip speed grade.
pub trait DramTimingConfig {
    spec fn spec_datasheet() -> Datasheet;

    /// The grade's datasheet minima.
    fn datasheet() -> (r: Datasheet)
        ensures
            r == Self::spec_datasheet(),
    ;

    /// The grade's profile on a CPU whose cycle lasts `ns_per_cycle`
    /// nanoseconds.
    fn profile(ns_per_cycle: u32) -> (r: TimingProfile)
        ensures
            r == spec_profile(Self::spec_datasheet(), ns_per_cycle),
    {
        TimingProfile::from_datasheet(Self::datasheet(), ns_per_cycle)
    }
}

/// 150 ns parts (TMS4256-15 and alike).
pub struct Dram150Ns;

impl DramTimingConfig for Dram150Ns {
    open spec fn spec_datasheet() -> Datasheet {
        Datasheet { t_ras: 150, t_cas: 75, t_rcd: 25, t_rp: 100, t_cp: 60 }
    }

    fn datasheet() -> (r: Datasheet) {
        Datasheet { t_ras: 150, t_cas: 75, t_rcd: 25, t_rp: 100, t_cp: 60 }
    }
}

/// 120 ns parts.
pub struct Dram120Ns;

impl DramTimingConfig for Dram120Ns {
    open spec fn spec_datasheet() -> Datasheet {
        Datasheet { t_ras: 120, t_cas: 60, t_rcd: 25, t_rp: 90, t_cp: 50 }
    }

    fn datasheet() -> (r: Datasheet) {
        Datasheet { t_ras: 120, t_cas: 60, t_rcd: 25, t_rp: 90, t_cp: 50 }
    }
}

/// 100 ns parts.
pub struct Dram100Ns;

impl DramTimingConfig for Dram100Ns {
    open spec fn spec_datasheet() -> Datasheet {
        Datasheet { t_ras: 100, t_cas: 50, t_rcd: 25, t_rp: 90, t_cp: 40 }
    }

    fn datasheet() -> (r: Datasheet) {
        Datasheet { t_ras: 100, t_cas: 50, t_rcd: 25, t_rp: 90, t_cp: 40 }
    }
}

/// 80 ns parts.
pub struct Dram80Ns;

impl DramTimingConfig for Dram80Ns {
    open spec fn spec_datasheet() -> Datasheet {
        Datasheet { t_ras: 80, t_cas: 40, t_rcd: 25, t_rp: 70, t_cp: 20 }
    }

    fn datasheet() -> (r: Datasheet) {
        Datasheet { t_ras: 80, t_cas: 40, t_rcd: 25, t_rp: 70, t_cp: 20 }
    }
}

/// No delay of a profile wraps below zero: each is its datasheet value less the
/// overhead, or zero where the overhead is larger, and never more than the
/// datasheet value.
pub proof fn lemma_profile_never_underflows(d: Datasheet, overhead: u32)
    ensures
        spec_profile(d, overhead).t_ras as int == floor_sub(d.t_ras as int, overhead as int),
        spec_profile(d, overhead).t_cas as int == floor_sub(d.t_cas as int, overhead as int),
        spec_profile(d, overhead).t_rcd as int == floor_sub(d.t_rcd as int, overhead as int),
        spec_profile(d, overhead).t_rp as int == floor_sub(d.t_rp as int, overhead as int),
        spec_profile(d, overhead).t_cp as int == floor_sub(d.t_cp as int, overhead as int),
        spec_profile(d, overhead).t_ras_rest as int == floor_sub(
            spec_profile(d, overhead).t_ras as int,
            spec_profile(d, overhead).t_cas as int + spec_profile(d, overhead).t_rcd as int,
        ),
        spec_profile(d, overhead).t_ras <= d.t_ras,
        spec_profile(d, overhead).t_cas <= d.t_cas,
        spec_profile(d, overhead).t_rcd <= d.t_rcd,
        spec_profile(d, overhead).t_rp <= d.t_rp,
        spec_profile(d, overhead).t_cp <= d.t_cp,
        spec_profile(d, overhead).t_ras_rest <= spec_profile(d, overhead).t_ras,
{
}

} // verus!
