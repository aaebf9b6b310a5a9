use cputimes::{CpuTimes, DecodeError, Duration, ParseCause};

const TICKS_PER_SECOND: u64 = 100;

/// The interval that the standard library computes for `ticks` in floating
/// point.
fn float_interval(ticks: f64) -> Duration {
    let d = std::time::Duration::from_secs_f64(ticks / TICKS_PER_SECOND as f64);
    Duration::from_nanos(d.as_nanos())
}

fn invalid(index: usize, token: &str, cause: ParseCause) -> DecodeError {
    DecodeError::InvalidField { index, token: token.to_string(), cause }
}

#[test]
fn test_parse_cpu_times() {
    let line = "cpu  11867200 6935 2978038 19104017 85955 502109 144021 0 0 0";
    let result = CpuTimes::from_str(line, TICKS_PER_SECOND).unwrap();
    assert_eq!(result.user(), float_interval(11_867_200_f64));
    assert_eq!(result.nice(), float_interval(6935_f64));
    assert_eq!(result.system(), float_interval(2_978_038_f64));
    assert_eq!(result.idle(), float_interval(19_104_017_f64));
    assert_eq!(result.iowait(), float_interval(85955_f64));
    assert_eq!(result.irq(), float_interval(502_109_f64));
    assert_eq!(result.softirq(), float_interval(144_021_f64));
    assert_eq!(result.steal(), Duration::default());
    assert_eq!(result.guest(), Duration::default());
    assert_eq!(result.guest_nice(), Duration::default());
}

#[test]
fn fields_come_back_in_order() {
    let times = CpuTimes::from_str("cpu7 1 2 3 4 5 6 7 8 9 10", 1).unwrap();
    assert_eq!(times.user().as_nanos(), 1_000_000_000);
    assert_eq!(times.nice().as_nanos(), 2_000_000_000);
    assert_eq!(times.system().as_nanos(), 3_000_000_000);
    assert_eq!(times.idle().as_nanos(), 4_000_000_000);
    assert_eq!(times.iowait().as_nanos(), 5_000_000_000);
    assert_eq!(times.irq().as_nanos(), 6_000_000_000);
    assert_eq!(times.softirq().as_nanos(), 7_000_000_000);
    assert_eq!(times.steal().as_nanos(), 8_000_000_000);
    assert_eq!(times.guest().as_nanos(), 9_000_000_000);
    assert_eq!(times.guest_nice().as_nanos(), 10_000_000_000);
}

#[test]
fn exact_intervals_at_hundred_ticks() {
    let times =
        CpuTimes::from_str("cpu  11867200 6935 2978038 19104017 85955 502109 144021 0 0 0", 100)
            .unwrap();
    assert_eq!(times.user().as_nanos(), 118_672_000_000_000);
    assert_eq!(times.nice().as_nanos(), 69_350_000_000);
    assert_eq!(times.system().as_nanos(), 29_780_380_000_000);
    assert_eq!(times.idle().as_nanos(), 191_040_170_000_000);
    assert_eq!(times.iowait().as_nanos(), 859_550_000_000);
    assert_eq!(times.irq().as_nanos(), 5_021_090_000_000);
    assert_eq!(times.softirq().as_nanos(), 1_440_210_000_000);
    assert_eq!(times.steal().as_nanos(), 0);
}

#[test]
fn busy_is_the_sum_without_guests() {
    let times = CpuTimes::from_str("cpu 1 20 300 4000 50000 600000 7000000 80000000 9 9", 1)
        .unwrap();
    // user + nice + system + iowait + irq + softirq + steal
    assert_eq!(times.busy().as_nanos(), 87_650_321_000_000_000);
    let sum = times.user().as_nanos() + times.nice().as_nanos() + times.system().as_nanos()
        + times.iowait().as_nanos() + times.irq().as_nanos() + times.softirq().as_nanos()
        + times.steal().as_nanos();
    assert_eq!(times.busy().as_nanos(), sum);
}

#[test]
fn busy_ignores_guest_times() {
    let a = CpuTimes::from_str("cpu 1 2 3 4 5 6 7 8 0 0", 100).unwrap();
    let b = CpuTimes::from_str("cpu 1 2 3 4 5 6 7 8 900 1000", 100).unwrap();
    assert_ne!(a, b);
    assert_eq!(a.busy(), b.busy());
    assert_eq!(a.total(), b.total());
    assert_eq!(a.busy().as_nanos(), 320_000_000);
}

#[test]
fn total_is_busy_and_idle() {
    let times = CpuTimes::from_str("cpu 1 2 3 4000 5 6 7 8 9 10", 1).unwrap();
    assert_eq!(times.busy().as_nanos(), 32_000_000_000);
    assert_eq!(times.total().as_nanos(), 4_032_000_000_000);
    assert_eq!(times.total().as_nanos(), times.busy().as_nanos() + times.idle().as_nanos());
}

#[test]
fn sums_of_the_largest_counts_do_not_overflow() {
    let max = "18446744073709551615";
    let line = format!("cpu {0} {0} {0} {0} {0} {0} {0} {0} {0} {0}", max);
    let times = CpuTimes::from_str(&line, 1).unwrap();
    let one = u64::MAX as u128 * 1_000_000_000;
    assert_eq!(times.user().as_nanos(), one);
    assert_eq!(times.guest_nice().as_nanos(), one);
    assert_eq!(times.busy().as_nanos(), 7 * one);
    assert_eq!(times.total().as_nanos(), 8 * one);
}

#[test]
fn too_few_fields() {
    let r = CpuTimes::from_str("cpu 1 2 3 4 5 6 7 8 9", 100);
    assert_eq!(r, Err(DecodeError::FieldCount { expected: 10, actual: 9 }));
}

#[test]
fn too_many_fields() {
    let r = CpuTimes::from_str("cpu 1 2 3 4 5 6 7 8 9 10 11", 100);
    assert_eq!(r, Err(DecodeError::FieldCount { expected: 10, actual: 11 }));
}

#[test]
fn label_alone_has_no_fields() {
    assert_eq!(CpuTimes::from_str("cpu", 100), Err(DecodeError::FieldCount { expected: 10, actual: 0 }));
    assert_eq!(CpuTimes::from_str("", 100), Err(DecodeError::FieldCount { expected: 10, actual: 0 }));
    assert_eq!(CpuTimes::from_str("  \t ", 100), Err(DecodeError::FieldCount { expected: 10, actual: 0 }));
}

#[test]
fn the_label_is_not_a_field() {
    // Ten tokens in all: the first is taken for the label.
    let r = CpuTimes::from_str("1 2 3 4 5 6 7 8 9 10", 100);
    assert_eq!(r, Err(DecodeError::FieldCount { expected: 10, actual: 9 }));
    // The label may be anything.
    let t = CpuTimes::from_str("??? 1 2 3 4 5 6 7 8 9 10", 100).unwrap();
    assert_eq!(t.user().as_nanos(), 10_000_000);
}

#[test]
fn non_digit_field_is_named() {
    let r = CpuTimes::from_str("cpu 1 2 3 4x 5 6 7 8 9 10", 100);
    assert_eq!(r, Err(invalid(3, "4x", ParseCause::InvalidDigit)));
    let r = CpuTimes::from_str("cpu 1 2 3 4 5 6 7 8 9 ten", 100);
    assert_eq!(r, Err(invalid(9, "ten", ParseCause::InvalidDigit)));
    let r = CpuTimes::from_str("cpu 1.5 2 3 4 5 6 7 8 9 10", 100);
    assert_eq!(r, Err(invalid(0, "1.5", ParseCause::InvalidDigit)));
}

#[test]
fn signs_are_no_digits() {
    let r = CpuTimes::from_str("cpu 1 -2 3 4 5 6 7 8 9 10", 100);
    assert_eq!(r, Err(invalid(1, "-2", ParseCause::InvalidDigit)));
    let r = CpuTimes::from_str("cpu 1 2 +3 4 5 6 7 8 9 10", 100);
    assert_eq!(r, Err(invalid(2, "+3", ParseCause::InvalidDigit)));
}

#[test]
fn first_bad_field_wins() {
    let r = CpuTimes::from_str("cpu 1 2 a 4 b 6 7 8 9 10", 100);
    assert_eq!(r, Err(invalid(2, "a", ParseCause::InvalidDigit)));
    let r = CpuTimes::from_str("cpu 1 18446744073709551616 a 4 5 6 7 8 9 10", 100);
    assert_eq!(r, Err(invalid(1, "18446744073709551616", ParseCause::Overflow)));
}

#[test]
fn bad_field_is_reported_before_the_count() {
    let r = CpuTimes::from_str("cpu 1 2 x", 100);
    assert_eq!(r, Err(invalid(2, "x", ParseCause::InvalidDigit)));
    let r = CpuTimes::from_str("cpu 1 2 3 4 5 6 7 8 9 10 11 x", 100);
    assert_eq!(r, Err(invalid(11, "x", ParseCause::InvalidDigit)));
}

#[test]
fn count_too_large() {
    let r = CpuTimes::from_str("cpu 1 2 3 4 5 6 7 8 9 18446744073709551616", 100);
    assert_eq!(r, Err(invalid(9, "18446744073709551616", ParseCause::Overflow)));
    let r = CpuTimes::from_str("cpu 99999999999999999999999999999999 2 3 4 5 6 7 8 9 1", 100);
    assert_eq!(r, Err(invalid(0, "99999999999999999999999999999999", ParseCause::Overflow)));
}

#[test]
fn any_white_space_separates() {
    let t = CpuTimes::from_str("\t cpu\t1  2\u{a0}3\u{3000}4 5\r6\u{2003}7 8 9   10 \n", 1).unwrap();
    assert_eq!(t, CpuTimes::from_str("cpu 1 2 3 4 5 6 7 8 9 10", 1).unwrap());
}

#[test]
fn token_of_an_error_keeps_its_characters() {
    let r = CpuTimes::from_str("cpu 1 2 3 4 5 6 7 8 9 1\u{e9}\u{4e2d}0", 100);
    assert_eq!(r, Err(invalid(9, "1\u{e9}\u{4e2d}0", ParseCause::InvalidDigit)));
}

#[test]
fn leading_zeros_are_digits() {
    let t = CpuTimes::from_str("cpu 0007 00 0 0 0 0 0 0 0 000000000000000000000000000001", 1)
        .unwrap();
    assert_eq!(t.user().as_nanos(), 7_000_000_000);
    assert_eq!(t.guest_nice().as_nanos(), 1_000_000_000);
}

#[test]
fn decoding_twice_gives_equal_records() {
    let line = "cpu3 10 20 30 40 50 60 70 80 90 100";
    assert_eq!(CpuTimes::from_str(line, 250), CpuTimes::from_str(line, 250));
    let bad = "cpu3 10 20 thirty";
    assert_eq!(CpuTimes::from_str(bad, 250), CpuTimes::from_str(bad, 250));
}

#[test]
fn records_are_values() {
    let a = CpuTimes::from_str("cpu 1 2 3 4 5 6 7 8 9 10", 100).unwrap();
    let b = a.clone();
    assert_eq!(a, b);
    let c = CpuTimes::from_str("cpu 1 2 3 4 5 6 7 8 9 11", 100).unwrap();
    assert_ne!(a, c);
}

#[test]
fn line_feeds_are_white_space_within_a_line() {
    let t = CpuTimes::from_str("cpu 1 2\n3 4 5 6 7 8 9 10", 1).unwrap();
    assert_eq!(t.system().as_nanos(), 3_000_000_000);
    assert_eq!(t.guest_nice().as_nanos(), 10_000_000_000);
}

#[test]
fn the_clock_rate_scales_every_field() {
    let line = "cpu 1 2 3 4 5 6 7 8 9 10";
    let t = CpuTimes::from_str(line, 1000).unwrap();
    assert_eq!(t.user().as_nanos(), 1_000_000);
    assert_eq!(t.guest_nice().as_nanos(), 10_000_000);
    let t = CpuTimes::from_str(line, 3).unwrap();
    assert_eq!(t.user().as_nanos(), 333_333_333);
    assert_eq!(t.nice().as_nanos(), 666_666_667);
    assert_eq!(t.system().as_nanos(), 1_000_000_000);
    assert_eq!(t.busy().as_nanos(), 333_333_333 + 666_666_667 + 1_000_000_000
        + 1_666_666_667 + 2_000_000_000 + 2_333_333_333 + 2_666_666_667);
}
