use vstd::prelude::*;
use vstd::arithmetic::div_mod::lemma_remainder;
use crate::timing::CanBitTiming;

verus! {

/// A midpoint ratio `num / den`, strictly between 0 and 1: the share of the
/// total segment-quanta count handed to `bs2`.
#[derive(Clone, Copy, Debug, PartialEq, Eq, Structural)]
pub struct Ratio {
    pub num: u32,
    pub den: u32,
}

/// An error bound `num / den`, in percent: the largest quantization error
/// the caller accepts.
#[derive(Clone, Copy, Debug, PartialEq, Eq, Structural)]
pub struct Percents {
    pub num: u32,
    pub den: u32,
}

/// The quantization error a solve achieved, as the exact percentage
/// `num / den`.
#[derive(Clone, Copy, Debug, PartialEq, Eq, Structural)]
pub struct ErrorPct {
    pub num: u64,
    pub den: u64,
}

/// Why a solve was rejected. Every failure is a property of the inputs
/// alone; retrying with the same inputs cannot succeed.
#[derive(Clone, Copy, Debug, PartialEq, Eq, Structural)]
pub enum SolverError {
    /// The rounded prescaler for the winning candidate is zero: the target
    /// bitrate cannot be reached from this clock.
    BitrateTooHigh,
    /// The rounded prescaler exceeds 1024, the largest value the ten-bit
    /// register field can hold after the zero-based encoding.
    PrescalerOutOfRange,
    /// Even the best candidate misses the target bitrate by more than the
    /// caller's tolerance.
    ToleranceExceeded,
}

impl Ratio {
    /// The customary midpoint default: 0.175, placing the sample point
    /// where common CAN tooling places it.
    pub fn default_midpoint() -> (r: Ratio)
        ensures
            r == (Ratio { num: 175, den: 1000 }),
    {
        Ratio { num: 175, den: 1000 }
    }
}

impl Percents {
    /// The customary tolerance default: half a percent.
    pub fn default_tolerance() -> (t: Percents)
        ensures
            t == (Percents { num: 1, den: 2 }),
    {
        Percents { num: 1, den: 2 }
    }
}

/// A well-formed midpoint: a ratio strictly between 0 and 1.
pub open spec fn midpoint_ok(m: Ratio) -> bool {
    1 <= m.num && m.num < m.den
}

/// A well-formed tolerance: a percentage with a positive denominator.
pub open spec fn tolerance_ok(t: Percents) -> bool {
    1 <= t.den
}

/// `c / d` rounded to the nearest integer, with a fractional part of
/// exactly one half rounding up.
pub open spec fn round_half_up(c: int, d: int) -> int
    recommends
        1 <= c,
        1 <= d,
{
    (2 * c + d) / (2 * d)
}

/// Clock ticks per bit at candidate segment count `tq`: the bitrate times
/// the quanta per bit, counting the one fixed synchronization quantum.
pub open spec fn quanta_den(bitrate: int, tq: int) -> int {
    bitrate * (tq + 1)
}

/// Absolute difference of two integers.
pub open spec fn abs_diff(a: int, b: int) -> int {
    if a >= b {
        a - b
    } else {
        b - a
    }
}

/// Numerator, over the fixed denominator `clk`, of the relative error
/// `|1 - prescaler / ideal_prescaler|` at candidate segment count `tq`:
/// with `d = bitrate * (tq + 1)` and `p` the rounded prescaler, the error
/// equals `|clk - p * d| / clk`.
pub open spec fn error_num(clk: int, bitrate: int, tq: int) -> int {
    abs_diff(clk, round_half_up(clk, quanta_den(bitrate, tq)) * quanta_den(bitrate, tq))
}

/// The winning candidate among segment counts 8..=tq: the one with the
/// lowest error, a later candidate winning exact ties because the search
/// compares with "less than or equal".
pub open spec fn best_tq_up_to(clk: int, bitrate: int, tq: int) -> int
    recommends
        8 <= tq,
    decreases tq,
{
    if tq <= 8 {
        8
    } else {
        let prev = best_tq_up_to(clk, bitrate, tq - 1);
        if error_num(clk, bitrate, tq) <= error_num(clk, bitrate, prev) {
            tq
        } else {
            prev
        }
    }
}

/// The total segment-quanta count (`bs1 + bs2`) the exhaustive search over
/// 8..=25 selects.
pub open spec fn best_tq(clk: int, bitrate: int) -> int {
    best_tq_up_to(clk, bitrate, 25)
}

/// The `bs2` share of a total segment count `tq`:
/// `floor(midpoint * (tq + 1))`.
pub open spec fn split_bs2(m: Ratio, tq: int) -> int {
    m.num * (tq + 1) / (m.den as int)
}

/// Whether an error numerator `e` (over denominator `clk`) stays within a
/// tolerance given in percent: `100 * e / clk <= t.num / t.den`, cleared of
/// denominators.
pub open spec fn within_tolerance(e: int, clk: int, t: Percents) -> bool {
    100 * e * t.den <= t.num * clk
}

/// The complete solve outcome as a mathematical function of the inputs: the
/// search winner, the validation order (prescaler of zero, then prescaler
/// over 1024, then tolerance), and on success the midpoint split with
/// `sjw` fixed at 1 plus the achieved error percentage.
pub open spec fn solve_spec(clk: u32, bitrate: u32, midpoint: Ratio, tolerance: Percents) -> Result<
    (CanBitTiming, ErrorPct),
    SolverError,
> {
    let b = best_tq(clk as int, bitrate as int);
    let p = round_half_up(clk as int, quanta_den(bitrate as int, b));
    let e = error_num(clk as int, bitrate as int, b);
    if p < 1 {
        Err(SolverError::BitrateTooHigh)
    } else if p > 1024 {
        Err(SolverError::PrescalerOutOfRange)
    } else if !within_tolerance(e, clk as int, tolerance) {
        Err(SolverError::ToleranceExceeded)
    } else {
        let bs2 = split_bs2(midpoint, b);
        Ok(
            (
                CanBitTiming {
                    bs1: (b - bs2) as u8,
                    bs2: bs2 as u8,
                    sjw: 1,
                    prescaler: p as u16,
                },
                ErrorPct { num: (100 * e) as u64, den: clk as u64 },
            ),
        )
    }
}

/// The rounded prescaler is nonnegative and `p * d` overshoots `c` by at
/// most `d`, so the error numerator `|c - p * d|` is at most `c + d`.
proof fn lemma_round_half_up_bounds(c: int, d: int)
    requires
        1 <= c,
        1 <= d,
    ensures
        0 <= round_half_up(c, d),
        round_half_up(c, d) * d <= c + d,
{
    let x = 2 * c + d;
    let q = x / (2 * d);
    lemma_remainder(x, 2 * d);
    assert(0 <= q && q * d <= c + d) by (nonlinear_arith)
        requires
            1 <= c,
            1 <= d,
            0 <= x - (x / (2 * d)) * (2 * d) < 2 * d,
            x == 2 * c + d,
            q == x / (2 * d),
    ;
}

/// Floor-division bounds: `x / d` clears an integer threshold `k` exactly
/// when `x` clears `k * d`.
proof fn lemma_floor_threshold(x: int, d: int, k: int)
    requires
        0 <= x,
        1 <= d,
    ensures
        x / d >= k <==> x >= k * d,
        x / d <= k <==> x < (k + 1) * d,
{
    lemma_remainder(x, d);
    assert((x / d >= k <==> x >= k * d) && (x / d <= k <==> x < (k + 1) * d))
        by (nonlinear_arith)
        requires
            1 <= d,
            0 <= x - (x / d) * d < d,
    ;
}

/// The error numerator is nonnegative and at most `clk` plus the
/// ticks-per-bit count, so it never outgrows its machine representation.
proof fn lemma_error_num_bounds(clk: int, bitrate: int, tq: int)
    requires
        1 <= clk,
        1 <= bitrate,
        8 <= tq <= 25,
    ensures
        0 <= error_num(clk, bitrate, tq) <= clk + bitrate * (tq + 1),
{
    let d = quanta_den(bitrate, tq);
    assert(1 <= d) by (nonlinear_arith)
        requires
            1 <= bitrate,
            8 <= tq,
            d == bitrate * (tq + 1),
    ;
    lemma_round_half_up_bounds(clk, d);
    assert(0 <= round_half_up(clk, d) * d) by (nonlinear_arith)
        requires
            0 <= round_half_up(clk, d),
            1 <= d,
    ;
}

/// The search winner lies inside the candidate range.
proof fn lemma_best_tq_range(clk: int, bitrate: int, tq: int)
    requires
        8 <= tq,
    ensures
        8 <= best_tq_up_to(clk, bitrate, tq) <= tq,
    decreases tq,
{
    if tq > 8 {
        lemma_best_tq_range(clk, bitrate, tq - 1);
    }
}

/// The midpoint split never takes more quanta than the total on offer.
proof fn lemma_split_le(m: Ratio, tq: int)
    requires
        midpoint_ok(m),
        0 <= tq,
    ensures
        0 <= split_bs2(m, tq) <= tq,
{
    let x = m.num * (tq + 1);
    assert(0 <= x && x < m.den * (tq + 1)) by (nonlinear_arith)
        requires
            1 <= m.num < m.den,
            0 <= tq,
            x == m.num * (tq + 1),
    ;
    lemma_floor_threshold(x, m.den as int, tq);
    assert(x < (tq + 1) * m.den) by (nonlinear_arith)
        requires
            x < m.den * (tq + 1),
    ;
}

proof fn lemma_best_tq_up_to_minimal(clk: int, bitrate: int, hi: int, tq: int)
    requires
        8 <= tq <= hi,
    ensures
        error_num(clk, bitrate, best_tq_up_to(clk, bitrate, hi)) <= error_num(clk, bitrate, tq),
        tq > best_tq_up_to(clk, bitrate, hi) ==> error_num(clk, bitrate, tq) > error_num(
            clk,
            bitrate,
            best_tq_up_to(clk, bitrate, hi),
        ),
    decreases hi,
{
    if hi > 8 {
        lemma_best_tq_range(clk, bitrate, hi - 1);
        let prev = best_tq_up_to(clk, bitrate, hi - 1);
        let witness = if tq <= hi - 1 {
            tq
        } else {
            prev
        };
        lemma_best_tq_up_to_minimal(clk, bitrate, hi - 1, witness);
    }
}

/// Law: the search winner realizes the target bitrate with the least
/// quantization error of any candidate segment count, and every later
/// candidate is strictly worse — equally good ones lose only to a larger
/// count, never to a smaller one.
pub proof fn lemma_best_tq_minimal(clk: int, bitrate: int, tq: int)
    requires
        8 <= tq <= 25,
    ensures
        error_num(clk, bitrate, best_tq(clk, bitrate)) <= error_num(clk, bitrate, tq),
        tq > best_tq(clk, bitrate) ==> error_num(clk, bitrate, tq) > error_num(
            clk,
            bitrate,
            best_tq(clk, bitrate),
        ),
{
    lemma_best_tq_up_to_minimal(clk, bitrate, 25, tq);
}

/// Law: every successful solve carries a prescaler in 1..=1024, an `sjw` of
/// exactly 1, a segment split that exhausts the winning quanta count, and a
/// per-bit total `bs1 + bs2 + sjw` of at most 26.
pub proof fn lemma_solve_prescaler_and_total(
    clk: u32,
    bitrate: u32,
    midpoint: Ratio,
    tolerance: Percents,
)
    requires
        1 <= clk,
        1 <= bitrate,
        midpoint_ok(midpoint),
        tolerance_ok(tolerance),
        solve_spec(clk, bitrate, midpoint, tolerance) is Ok,
    ensures
        ({
            let m = solve_spec(clk, bitrate, midpoint, tolerance)->Ok_0.0;
            &&& 1 <= m.prescaler <= 1024
            &&& m.sjw == 1
            &&& m.bs1 + m.bs2 == best_tq(clk as int, bitrate as int)
            &&& m.bs1 + m.bs2 + m.sjw <= 26
        }),
{
    let b = best_tq(clk as int, bitrate as int);
    lemma_best_tq_range(clk as int, bitrate as int, 25);
    lemma_split_le(midpoint, b);
}

/// Law: on a successful solve, the segment fields also land in the bxCAN
/// ranges `1..=16` for `bs1` and `1..=8` for `bs2` exactly when the
/// midpoint, taken against the winning quanta count `b`, clears the four
/// floor-division thresholds below. (A winning count of 25 can satisfy no
/// midpoint, since 16 + 8 < 25.)
pub proof fn lemma_solve_segments_in_range(
    clk: u32,
    bitrate: u32,
    midpoint: Ratio,
    tolerance: Percents,
)
    requires
        1 <= clk,
        1 <= bitrate,
        midpoint_ok(midpoint),
        tolerance_ok(tolerance),
        solve_spec(clk, bitrate, midpoint, tolerance) is Ok,
        ({
            let b = best_tq(clk as int, bitrate as int);
            &&& midpoint.num * (b + 1) >= midpoint.den  // bs2 >= 1
            &&& midpoint.num * (b + 1) < 9 * midpoint.den  // bs2 <= 8
            &&& midpoint.num * (b + 1) < b * midpoint.den  // bs1 >= 1
            &&& (b - 16) * midpoint.den <= midpoint.num * (b + 1)  // bs1 <= 16
        }),
    ensures
        ({
            let m = solve_spec(clk, bitrate, midpoint, tolerance)->Ok_0.0;
            &&& 1 <= m.bs1 <= 16
            &&& 1 <= m.bs2 <= 8
        }),
{
    let b = best_tq(clk as int, bitrate as int);
    let x = midpoint.num * (b + 1);
    let d = midpoint.den as int;
    lemma_best_tq_range(clk as int, bitrate as int, 25);
    lemma_split_le(midpoint, b);
    assert(x >= 0) by (nonlinear_arith)
        requires
            midpoint.num >= 1,
            b >= 8,
            x == midpoint.num * (b + 1),
    ;
    lemma_floor_threshold(x, d, 1);
    lemma_floor_threshold(x, d, 8);
    lemma_floor_threshold(x, d, b - 1);
    lemma_floor_threshold(x, d, b - 16);
    assert(1 * d == d && (8 + 1) * d == 9 * d && ((b - 1) + 1) * d == b * d && ((b - 16) + 1) * d
        == (b - 15) * d) by (nonlinear_arith);
    assert(x < b * d ==> x < ((b - 1) + 1) * d) by (nonlinear_arith);
}

/// Law: the tolerance only gates the result, it never changes which timing
/// wins. Tightening the tolerance never turns a failure into a success:
/// under a looser tolerance a successful solve returns the identical value,
/// and a tolerance rejection under the looser bound is a tolerance
/// rejection under the tighter one too.
pub proof fn lemma_tolerance_monotonic(
    clk: u32,
    bitrate: u32,
    midpoint: Ratio,
    lo: Percents,
    hi: Percents,
)
    requires
        1 <= clk,
        1 <= bitrate,
        midpoint_ok(midpoint),
        tolerance_ok(lo),
        tolerance_ok(hi),
        lo.num * hi.den <= hi.num * lo.den,  // lo <= hi as percentages
    ensures
        solve_spec(clk, bitrate, midpoint, lo) is Ok ==> solve_spec(clk, bitrate, midpoint, hi)
            == solve_spec(clk, bitrate, midpoint, lo),
        solve_spec(clk, bitrate, midpoint, hi) == Result::<
            (CanBitTiming, ErrorPct),
            SolverError,
        >::Err(SolverError::ToleranceExceeded) ==> solve_spec(clk, bitrate, midpoint, lo)
            == Result::<(CanBitTiming, ErrorPct), SolverError>::Err(SolverError::ToleranceExceeded),
{
    let e = error_num(clk as int, bitrate as int, best_tq(clk as int, bitrate as int));
    assert(within_tolerance(e, clk as int, lo) ==> within_tolerance(e, clk as int, hi))
        by (nonlinear_arith)
        requires
            1 <= clk,
            1 <= lo.den,
            1 <= hi.den,
            0 <= e,
            lo.num * hi.den <= hi.num * lo.den,
    ;
}

/// Law: lowering the tolerance strictly below the error a successful solve
/// achieved turns that solve into a `ToleranceExceeded` rejection.
pub proof fn lemma_tolerance_rejects_below_achieved(
    clk: u32,
    bitrate: u32,
    midpoint: Ratio,
    tolerance: Percents,
    tighter: Percents,
)
    requires
        1 <= clk,
        1 <= bitrate,
        midpoint_ok(midpoint),
        tolerance_ok(tolerance),
        tolerance_ok(tighter),
        solve_spec(clk, bitrate, midpoint, tolerance) is Ok,
        ({
            // `tighter` lies strictly below the achieved error percentage
            let e = solve_spec(clk, bitrate, midpoint, tolerance)->Ok_0.1;
            (tighter.num as int) * (e.den as int) < (e.num as int) * (tighter.den as int)
        }),
    ensures
        solve_spec(clk, bitrate, midpoint, tighter) == Result::<
            (CanBitTiming, ErrorPct),
            SolverError,
        >::Err(SolverError::ToleranceExceeded),
{
    let b = best_tq(clk as int, bitrate as int);
    let e = error_num(clk as int, bitrate as int, b);
    lemma_best_tq_range(clk as int, bitrate as int, 25);
    lemma_error_num_bounds(clk as int, bitrate as int, b);
    assert((bitrate as int) * (b + 1) <= 26 * 0xffff_ffff) by (nonlinear_arith)
        requires
            bitrate <= 0xffff_ffff,
            b <= 25,
    ;
    assert(100 * e * tighter.den > tighter.num * clk);
}

/// Rounded prescaler for candidate segment count `tq`.
fn prescaler_at(clk: u32, bitrate: u32, tq: u64) -> (p: u64)
    requires
        1 <= clk,
        1 <= bitrate,
        8 <= tq <= 25,
    ensures
        p == round_half_up(clk as int, quanta_den(bitrate as int, tq as int)),
        p * quanta_den(bitrate as int, tq as int) <= clk + quanta_den(bitrate as int, tq as int),
{
    proof {
        assert(1 <= (bitrate as int) * (tq + 1) <= 26 * 0xffff_ffff) by (nonlinear_arith)
            requires
                1 <= bitrate <= 0xffff_ffff,
                8 <= tq <= 25,
        ;
    }
    let d: u64 = (bitrate as u64) * (tq + 1);
    proof {
        lemma_round_half_up_bounds(clk as int, d as int);
    }
    (2 * (clk as u64) + d) / (2 * d)
}

/// Error numerator at candidate segment count `tq`: `|clk - p * d|` for the
/// rounded prescaler `p` and ticks-per-bit `d`.
fn error_at(clk: u32, bitrate: u32, tq: u64) -> (e: u64)
    requires
        1 <= clk,
        1 <= bitrate,
        8 <= tq <= 25,
    ensures
        e == error_num(clk as int, bitrate as int, tq as int),
        e <= clk + 26 * (bitrate as int),
{
    let d: u64 = {
        proof {
            assert((bitrate as int) * (tq + 1) <= 26 * 0xffff_ffff) by (nonlinear_arith)
                requires
                    bitrate <= 0xffff_ffff,
                    tq <= 25,
            ;
        }
        (bitrate as u64) * (tq + 1)
    };
    let p: u64 = prescaler_at(clk, bitrate, tq);
    let pd: u64 = p * d;
    proof {
        assert((bitrate as int) * (tq + 1) <= 26 * (bitrate as int)) by (nonlinear_arith)
            requires
                1 <= bitrate,
                tq <= 25,
        ;
    }
    if pd >= clk as u64 {
        pd - clk as u64
    } else {
        clk as u64 - pd
    }
}

/// Finds the bit timing that best realizes `bitrate` from `clk`.
///
/// The search tries every total segment count from 8 through 25, computes
/// the prescaler that comes closest to the target (halves rounding up), and
/// keeps the candidate with the smallest relative error, later candidates
/// winning exact ties. The winner is validated — a zero prescaler, a
/// prescaler beyond 1024, and an error beyond `tolerance` are each
/// rejected with their own error — and then split into `bs1` and `bs2` by
/// the `midpoint` ratio, with `sjw` fixed at 1.
///
/// The result is a pure function of the inputs, stated exactly by
/// `solve_spec`; two calls on equal inputs return equal results.
pub fn solve(clk: u32, bitrate: u32, midpoint: Ratio, tolerance: Percents) -> (r: Result<
    (CanBitTiming, ErrorPct),
    SolverError,
>)
    requires
        1 <= clk,
        1 <= bitrate,
        midpoint_ok(midpoint),
        tolerance_ok(tolerance),
    ensures
        r == solve_spec(clk, bitrate, midpoint, tolerance),
{
    let mut best_b: u64 = 8;
    let mut best_e: u64 = error_at(clk, bitrate, 8);
    let mut b: u64 = 9;
    while b <= 25
        invariant
            1 <= clk,
            1 <= bitrate,
            9 <= b <= 26,
            8 <= best_b < b,
            best_b == best_tq_up_to(clk as int, bitrate as int, b - 1),
            best_e == error_num(clk as int, bitrate as int, best_b as int),
            best_e <= clk + 26 * (bitrate as int),
        decreases 26 - b,
    {
        let e = error_at(clk, bitrate, b);
        if e <= best_e {
            best_b = b;
            best_e = e;
        }
        b = b + 1;
    }
    let p: u64 = prescaler_at(clk, bitrate, best_b);
    if p < 1 {
        return Err(SolverError::BitrateTooHigh);
    }
    if p > 1024 {
        return Err(SolverError::PrescalerOutOfRange);
    }
    let scaled: u128 = 100 * (best_e as u128);
    proof {
        assert(scaled * (tolerance.den as u128) < 0x1_0000_0000_0000_0000_0000_0000_0000u128)
            by (nonlinear_arith)
            requires
                scaled < 0x1000_0000_0000_0000_0000u128,
                tolerance.den <= 0xffff_ffffu32,
        ;
        assert((tolerance.num as u128) * (clk as u128) < 0x1_0000_0000_0000_0000u128)
            by (nonlinear_arith)
            requires
                tolerance.num <= 0xffff_ffffu32,
                clk <= 0xffff_ffffu32,
        ;
    }
    if scaled * (tolerance.den as u128) > (tolerance.num as u128) * (clk as u128) {
        return Err(SolverError::ToleranceExceeded);
    }
    proof {
        lemma_split_le(midpoint, best_b as int);
        assert((midpoint.num as int) * (best_b + 1) <= 26 * 0xffff_ffff) by (nonlinear_arith)
            requires
                midpoint.num <= 0xffff_ffff,
                best_b <= 25,
        ;
    }
    let bs2: u64 = ((midpoint.num as u64) * (best_b + 1)) / (midpoint.den as u64);
    let bs1: u64 = best_b - bs2;
    Ok(
        (
            CanBitTiming { bs1: bs1 as u8, bs2: bs2 as u8, sjw: 1, prescaler: p as u16 },
            ErrorPct { num: 100 * best_e, den: clk as u64 },
        ),
    )
}

} // verus!

