use can_bit_timings::solver::{solve, ErrorPct, Percents, Ratio, SolverError};
use can_bit_timings::timing::CanBitTiming;

fn default_midpoint() -> Ratio {
    let m = Ratio::default_midpoint();
    assert_eq!(m, Ratio { num: 175, den: 1000 });
    m
}

fn default_tolerance() -> Percents {
    let t = Percents::default_tolerance();
    assert_eq!(t, Percents { num: 1, den: 2 });
    t
}

#[test]
fn tests() {
    let m = default_midpoint();
    let t = default_tolerance();
    assert_eq!(
        solve(10_000_000, 1_000_000, m, t).unwrap().0.bxcan(),
        0x00070000
    );
    assert_eq!(
        solve(10_000_000, 500_000, m, t).unwrap().0.bxcan(),
        0x002F0000
    );
    assert_eq!(
        solve(10_000_000, 250_000, m, t).unwrap().0.bxcan(),
        0x002F0001
    );
    assert_eq!(
        solve(10_000_000, 125_000, m, t).unwrap().0.bxcan(),
        0x002F0003
    );
}

#[test]
fn struct_output() {
    let (timing, err) = solve(
        10_000_000,
        1_000_000,
        default_midpoint(),
        default_tolerance(),
    )
    .unwrap();
    assert_eq!(
        timing,
        CanBitTiming {
            bs1: 8,
            bs2: 1,
            sjw: 1,
            prescaler: 1
        }
    );
    assert_eq!(err.num, 0);
    assert_eq!(err.den, 10_000_000);
}

#[test]
fn optargs() {
    assert_eq!(
        solve(
            10_000_000,
            1_000_000,
            Ratio { num: 125, den: 1000 },
            default_tolerance()
        )
        .unwrap()
        .0,
        CanBitTiming {
            bs1: 8,
            bs2: 1,
            sjw: 1,
            prescaler: 1
        }
    );
    assert_eq!(
        solve(
            10_000_000,
            1_000_000,
            Ratio { num: 250, den: 1000 },
            default_tolerance()
        )
        .unwrap()
        .0,
        CanBitTiming {
            bs1: 7,
            bs2: 2,
            sjw: 1,
            prescaler: 1
        }
    );
}

#[test]
fn determinism() {
    let a = solve(
        10_000_000,
        125_000,
        default_midpoint(),
        default_tolerance(),
    );
    let b = solve(
        10_000_000,
        125_000,
        default_midpoint(),
        default_tolerance(),
    );
    assert_eq!(a, b);
}

#[test]
fn range_invariant_on_success() {
    for bitrate in [125_000u32, 250_000, 500_000, 1_000_000] {
        let (timing, _) = solve(10_000_000, bitrate, default_midpoint(), default_tolerance())
            .unwrap();
        assert!(1 <= timing.bs1 && timing.bs1 <= 16);
        assert!(1 <= timing.bs2 && timing.bs2 <= 8);
        assert!(1 <= timing.prescaler && timing.prescaler <= 1024);
        assert!(timing.total_time_quanta() <= 26);
    }
}

#[test]
fn bitrate_too_high() {
    assert_eq!(
        solve(1, 1_000, default_midpoint(), default_tolerance()),
        Err(SolverError::BitrateTooHigh)
    );
}

#[test]
fn prescaler_out_of_range() {
    assert_eq!(
        solve(
            4_000_000_000,
            100,
            default_midpoint(),
            default_tolerance()
        ),
        Err(SolverError::PrescalerOutOfRange)
    );
}

#[test]
fn tolerance_exceeded() {
    // The best candidate for this pair misses the bitrate by exactly 1%.
    assert_eq!(
        solve(10_000_000, 900_000, default_midpoint(), default_tolerance()),
        Err(SolverError::ToleranceExceeded)
    );
}

#[test]
fn achieved_error_is_exact() {
    // With a 2% budget the same pair solves, reporting exactly 1% of error.
    let (timing, err) = solve(
        10_000_000,
        900_000,
        default_midpoint(),
        Percents { num: 2, den: 1 },
    )
    .unwrap();
    assert_eq!(
        timing,
        CanBitTiming {
            bs1: 9,
            bs2: 1,
            sjw: 1,
            prescaler: 1
        }
    );
    assert_eq!(
        err,
        ErrorPct {
            num: 10_000_000,
            den: 10_000_000
        }
    );
}

#[test]
fn monotonic_rejection() {
    // Tightening the tolerance below the achieved 1% flips the result to
    // ToleranceExceeded; loosening it never hurts.
    let loose = solve(
        10_000_000,
        900_000,
        default_midpoint(),
        Percents { num: 2, den: 1 },
    );
    assert!(loose.is_ok());
    let tight = solve(
        10_000_000,
        900_000,
        default_midpoint(),
        Percents { num: 99, den: 100 },
    );
    assert_eq!(tight, Err(SolverError::ToleranceExceeded));
    let even_looser = solve(
        10_000_000,
        900_000,
        default_midpoint(),
        Percents { num: 5, den: 1 },
    );
    assert_eq!(even_looser, loose);
}
