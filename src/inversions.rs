//! The moving-inversions test, as sequences: which samples each check pass
//! reads, what it counts as a failure, where a run stops, and which signals a
//! run sends.

use vstd::prelude::*;
use crate::dram::{
    close_row_events,
    open_row_events,
    read_page_events,
    write_page_events,
    DramConfig,
};
use crate::pins::PinEvent;

verus! {

/// The test pattern. Every rotation of it is itself, so every cell of a fill
/// pass gets a 1.
pub const PATTERN: u32 = 0xFFFF_FFFF;

/// Side of the square cell array of a chip with `lines` address lines.
pub open spec fn side_len(lines: nat) -> nat
    decreases lines,
{
    if lines == 0 {
        1
    } else {
        2 * side_len((lines - 1) as nat)
    }
}

/// How many samples of `s` differ from `expected`.
pub open spec fn count_mismatches(s: Seq<bool>, expected: bool) -> nat
    decreases s.len(),
{
    if s.len() == 0 {
        0
    } else {
        count_mismatches(s.drop_last(), expected) + if s.last() != expected {
            1nat
        } else {
            0nat
        }
    }
}

/// Position of the last sample of `s` that differs from `expected`, or -1.
pub open spec fn last_mismatch(s: Seq<bool>, expected: bool) -> int
    decreases s.len(),
{
    if s.len() == 0 {
        -1
    } else if s.last() != expected {
        s.len() - 1
    } else {
        last_mismatch(s.drop_last(), expected)
    }
}

/// Position of cell (`row`, `col`) in a scan of an `n` x `n` array, rows outer
/// and columns inner, both ascending or both descending.
pub open spec fn scan_index(n: int, descending: bool, row: int, col: int) -> int {
    if descending {
        (n - 1 - row) * n + (n - 1 - col)
    } else {
        row * n + col
    }
}

/// The samples of check pass `k` of a moving-inversions run, `m` per pass. The
/// check passes are, in order: check-and-complement ascending, check ascending,
/// check-and-complement descending, check descending.
pub open spec fn pass_samples(s: Seq<bool>, m: int, k: int) -> Seq<bool> {
    s.subrange(k * m, (k + 1) * m)
}

/// What check pass `k` expects to read: the pattern bit (1) before
/// complementing, 0 after.
pub open spec fn pass_expected(k: int) -> bool {
    k % 2 == 0
}

/// Failed cells of check pass `k`.
pub open spec fn pass_failures(s: Seq<bool>, m: int, k: int) -> nat {
    count_mismatches(pass_samples(s, m, k), pass_expected(k))
}

/// The first check pass with a failure, or 4 when all pass.
pub open spec fn stop_pass(s: Seq<bool>, m: int) -> int {
    if pass_failures(s, m, 0) > 0 {
        0
    } else if pass_failures(s, m, 1) > 0 {
        1
    } else if pass_failures(s, m, 2) > 0 {
        2
    } else if pass_failures(s, m, 3) > 0 {
        3
    } else {
        4
    }
}

pub(crate) proof fn lemma_scan_step(ri: int, ci: int, n: int)
    requires
        0 <= ri < n,
        0 <= ci < n,
        n <= 512,
    ensures
        0 <= ri * n + ci < n * n,
        (ri + 1) * n == ri * n + n,
        n * n <= 262144,
{
    assert(0 <= ri * n + ci < n * n && (ri + 1) * n == ri * n + n && n * n <= 262144)
        by (nonlinear_arith)
        requires
            0 <= ri < n,
            0 <= ci < n,
            n <= 512,
    ;
}

/// Side of the cell array of a chip with `lines` address lines.
pub fn side_length(lines: u8) -> (r: usize)
    requires
        lines <= 9,
    ensures
        r == side_len(lines as nat),
        1 <= r <= 512,
{
    let mut n: usize = 1;
    let mut i: u8 = 0;
    proof {
        reveal_with_fuel(side_len, 10);
    }
    while i < lines
        invariant
            i <= lines <= 9,
            n == side_len(i as nat),
            1 <= n,
            n * side_len((9 - i) as nat) == 512,
        decreases lines - i,
    {
        assert(side_len((9 - i) as nat) == 2 * side_len((9 - i - 1) as nat));
        assert(side_len((9 - i - 1) as nat) >= 1) by {
            lemma_side_len_positive((9 - i - 1) as nat);
        }
        assert(n * 2 <= 512) by (nonlinear_arith)
            requires
                n * side_len((9 - i) as nat) == 512,
                side_len((9 - i) as nat) == 2 * side_len((9 - i - 1) as nat),
                side_len((9 - i - 1) as nat) >= 1,
        ;
        assert((n * 2) * side_len((9 - i - 1) as nat) == 512) by (nonlinear_arith)
            requires
                n * side_len((9 - i) as nat) == 512,
                side_len((9 - i) as nat) == 2 * side_len((9 - i - 1) as nat),
        ;
        n = n * 2;
        i = i + 1;
    }
    assert(n <= 512) by {
        lemma_side_len_positive((9 - i) as nat);
        assert(n * side_len((9 - i) as nat) >= n) by (nonlinear_arith)
            requires
                side_len((9 - i) as nat) >= 1,
                n >= 1,
        ;
    }
    n
}

proof fn lemma_side_len_positive(lines: nat)
    ensures
        side_len(lines) >= 1,
    decreases lines,
{
    if lines > 0 {
        lemma_side_len_positive((lines - 1) as nat);
    }
}

/// Row or column at step `i` of a scan over `0..n`, ascending or descending.
pub open spec fn scan_pos(n: int, descending: bool, i: int) -> int {
    if descending {
        n - 1 - i
    } else {
        i
    }
}

/// The address on the lines before column step `i` of a burst on `row`: the
/// row for the first step, else the previous column.
pub open spec fn addr_before(n: int, descending: bool, row: int, i: int) -> u32 {
    if i == 0 {
        row as u32
    } else {
        scan_pos(n, descending, i - 1) as u32
    }
}

/// The address on the lines before the burst of row step `r`, when the pass
/// started with the lines at `last`.
pub open spec fn addr_before_row(n: int, descending: bool, last: u32, r: int) -> u32 {
    if r == 0 {
        last
    } else {
        scan_pos(n, descending, n - 1) as u32
    }
}

/// The first `i` page-mode writes of a fill burst on `row`: each column gets
/// the pattern bit, 1.
pub open spec fn fill_row_events(c: DramConfig, n: int, descending: bool, row: int, i: nat) -> Seq<
    PinEvent,
>
    decreases i,
{
    if i == 0 {
        Seq::empty()
    } else {
        fill_row_events(c, n, descending, row, (i - 1) as nat) + write_page_events(
            c,
            addr_before(n, descending, row, i - 1),
            scan_pos(n, descending, i - 1) as u32,
            true,
        )
    }
}

/// The first `r` row bursts of a fill pass that started with the address
/// lines at `last`.
pub open spec fn fill_events(c: DramConfig, n: int, descending: bool, last: u32, r: nat) -> Seq<
    PinEvent,
>
    decreases r,
{
    if r == 0 {
        Seq::empty()
    } else {
        let row = scan_pos(n, descending, r - 1);
        fill_events(c, n, descending, last, (r - 1) as nat) + seq![PinEvent::WriteEnable(false)]
            + open_row_events(c, addr_before_row(n, descending, last, r - 1), row as u32)
            + fill_row_events(c, n, descending, row, n as nat) + close_row_events(c) + seq![
            PinEvent::WriteEnable(true),
        ]
    }
}

/// One step of a check burst at `col`: the read that sampled `got`, then,
/// when complementing and the cell held what was expected, a write of the
/// complemented pattern bit, 0, in place.
#[verifier::opaque]
pub open spec fn check_step_events(
    c: DramConfig,
    before: u32,
    col: u32,
    got: bool,
    want: bool,
    complement: bool,
) -> Seq<PinEvent> {
    read_page_events(c, before, col, got) + if complement && got == want {
        seq![PinEvent::WriteEnable(false)] + write_page_events(c, col, col, false) + seq![
            PinEvent::WriteEnable(true),
        ]
    } else {
        Seq::empty()
    }
}

/// The first `i` steps of a check burst on `row`, whose samples start at
/// `got[base]`.
pub open spec fn check_row_events(
    c: DramConfig,
    n: int,
    descending: bool,
    row: int,
    got: Seq<bool>,
    base: int,
    want: bool,
    complement: bool,
    i: nat,
) -> Seq<PinEvent>
    decreases i,
{
    if i == 0 {
        Seq::empty()
    } else {
        check_row_events(c, n, descending, row, got, base, want, complement, (i - 1) as nat)
            + check_step_events(
            c,
            addr_before(n, descending, row, i - 1),
            scan_pos(n, descending, i - 1) as u32,
            got[base + i - 1],
            want,
            complement,
        )
    }
}

/// The first `r` row bursts of a check pass that started with the address
/// lines at `last` and sampled `got`.
pub open spec fn check_events(
    c: DramConfig,
    n: int,
    descending: bool,
    last: u32,
    got: Seq<bool>,
    want: bool,
    complement: bool,
    r: nat,
) -> Seq<PinEvent>
    decreases r,
{
    if r == 0 {
        Seq::empty()
    } else {
        let row = scan_pos(n, descending, r - 1);
        check_events(c, n, descending, last, got, want, complement, (r - 1) as nat)
            + open_row_events(c, addr_before_row(n, descending, last, r - 1), row as u32)
            + check_row_events(c, n, descending, row, got, (r - 1) * n, want, complement, n as nat)
            + close_row_events(c)
    }
}

pub(crate) proof fn lemma_check_row_congruent(
    c: DramConfig,
    n: int,
    descending: bool,
    row: int,
    g1: Seq<bool>,
    g2: Seq<bool>,
    base: int,
    want: bool,
    complement: bool,
    i: nat,
)
    requires
        forall|j: int| base <= j < base + i ==> g1[j] == g2[j],
    ensures
        check_row_events(c, n, descending, row, g1, base, want, complement, i) == check_row_events(
            c,
            n,
            descending,
            row,
            g2,
            base,
            want,
            complement,
            i,
        ),
    decreases i,
{
    if i > 0 {
        lemma_check_row_congruent(
            c,
            n,
            descending,
            row,
            g1,
            g2,
            base,
            want,
            complement,
            (i - 1) as nat,
        );
    }
}

pub(crate) proof fn lemma_check_congruent(
    c: DramConfig,
    n: int,
    descending: bool,
    last: u32,
    g1: Seq<bool>,
    g2: Seq<bool>,
    want: bool,
    complement: bool,
    r: nat,
)
    requires
        n >= 1,
        forall|j: int| 0 <= j < r * n ==> g1[j] == g2[j],
    ensures
        check_events(c, n, descending, last, g1, want, complement, r) == check_events(
            c,
            n,
            descending,
            last,
            g2,
            want,
            complement,
            r,
        ),
    decreases r,
{
    if r > 0 {
        let r1 = (r - 1) as nat;
        assert((r1 * n + n == r * n) && r1 * n >= 0 && r1 * n <= r * n) by (nonlinear_arith)
            requires
                r1 == r - 1,
                n >= 1,
                r >= 1,
        ;
        lemma_check_congruent(c, n, descending, last, g1, g2, want, complement, r1);
        lemma_check_row_congruent(
            c,
            n,
            descending,
            scan_pos(n, descending, r1 as int),
            g1,
            g2,
            r1 * n,
            want,
            complement,
            n as nat,
        );
    }
}

/// What a moving-inversions run on an `n` x `n` array does to the pins'
/// record, when it started with the address lines at `last`, sampled `s` and
/// stopped after check pass `k` (4: none failed).
pub open spec fn run_events(c: DramConfig, n: int, last: u32, s: Seq<bool>, k: int) -> Seq<
    PinEvent,
> {
    let m = n * n;
    let top = (n - 1) as u32;
    fill_events(c, n, false, last, n as nat) + check_events(
        c,
        n,
        false,
        top,
        pass_samples(s, m, 0),
        true,
        true,
        n as nat,
    ) + (if k >= 1 {
        check_events(c, n, false, top, pass_samples(s, m, 1), false, false, n as nat)
    } else {
        Seq::empty()
    }) + (if k >= 2 {
        fill_events(c, n, true, top, n as nat) + check_events(
            c,
            n,
            true,
            0,
            pass_samples(s, m, 2),
            true,
            true,
            n as nat,
        )
    } else {
        Seq::empty()
    }) + (if k >= 3 {
        check_events(c, n, true, 0, pass_samples(s, m, 3), false, false, n as nat)
    } else {
        Seq::empty()
    })
}

} // verus!
