use can_bit_timings::CanBitTiming;
use can_bit_timings::frequency::{to_hz, FreqUnit};
use can_bit_timings::solver::{solve, Percents, Ratio};

#[test]
fn frequency_with_mhz() {
    let clk = to_hz(10, FreqUnit::Mhz).unwrap();
    let bitrate = to_hz(1000, FreqUnit::Khz).unwrap();
    assert_eq!(clk, 10_000_000);
    assert_eq!(bitrate, 1_000_000);
    let midpoint = Ratio { num: 175, den: 1000 };
    let tolerance = Percents { num: 1, den: 2 };
    assert_eq!(
        solve(clk, bitrate, midpoint, tolerance).unwrap().0.bxcan(),
        solve(10_000_000, 1_000_000, midpoint, tolerance)
            .unwrap()
            .0
            .bxcan()
    );
}

#[test]
fn frequency_units() {
    assert_eq!(to_hz(125, FreqUnit::Khz), Some(125_000));
    assert_eq!(to_hz(42, FreqUnit::Hz), Some(42));
    assert_eq!(to_hz(500_000, FreqUnit::Bps), Some(500_000));
    // 5000 MHz leaves the 32-bit range the solver accepts.
    assert_eq!(to_hz(5_000, FreqUnit::Mhz), None);
}

#[test]
fn bxcan_register_layout() {
    let timing = CanBitTiming {
        bs1: 8,
        bs2: 1,
        sjw: 1,
        prescaler: 1,
    };
    assert_eq!(timing.bxcan(), 0x00070000);
    let wide = CanBitTiming {
        bs1: 16,
        bs2: 8,
        sjw: 4,
        prescaler: 1024,
    };
    assert_eq!(wide.bxcan(), 0x037F03FF);
}

#[test]
fn round_trip_via_encoding() {
    let samples = [
        CanBitTiming {
            bs1: 8,
            bs2: 1,
            sjw: 1,
            prescaler: 1,
        },
        CanBitTiming {
            bs1: 16,
            bs2: 3,
            sjw: 1,
            prescaler: 4,
        },
        CanBitTiming {
            bs1: 1,
            bs2: 8,
            sjw: 8,
            prescaler: 1024,
        },
    ];
    for timing in samples {
        assert_eq!(CanBitTiming::decode(timing.bxcan()), timing);
    }
}

#[test]
fn total_time_quanta() {
    let timing = CanBitTiming {
        bs1: 8,
        bs2: 1,
        sjw: 1,
        prescaler: 1,
    };
    assert_eq!(timing.total_time_quanta(), 10);
    let wide = CanBitTiming {
        bs1: 16,
        bs2: 8,
        sjw: 2,
        prescaler: 3,
    };
    assert_eq!(wide.total_time_quanta(), 26);
}
