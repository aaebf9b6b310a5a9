use cputimes::duration::NANOS_PER_SEC;
use cputimes::Duration;

#[test]
fn whole_seconds() {
    assert_eq!(Duration::from_ticks(100, 100).as_nanos(), 1_000_000_000);
    assert_eq!(Duration::from_ticks(0, 100).as_nanos(), 0);
    assert_eq!(Duration::from_ticks(12, 1).as_nanos(), 12_000_000_000);
}

#[test]
fn hundredths_of_a_second() {
    assert_eq!(Duration::from_ticks(1, 100).as_nanos(), 10_000_000);
    assert_eq!(Duration::from_ticks(6935, 100).as_nanos(), 69_350_000_000);
}

#[test]
fn rounds_to_the_nearest_nanosecond() {
    // 1/3 s = 333_333_333.33.. ns, 2/3 s = 666_666_666.66.. ns
    assert_eq!(Duration::from_ticks(1, 3).as_nanos(), 333_333_333);
    assert_eq!(Duration::from_ticks(2, 3).as_nanos(), 666_666_667);
    // 1/7 s = 142_857_142.857.. ns
    assert_eq!(Duration::from_ticks(1, 7).as_nanos(), 142_857_143);
}

#[test]
fn halves_go_to_the_even_nanosecond() {
    // 1/1024 s = 976_562.5 ns
    assert_eq!(Duration::from_ticks(1, 1024).as_nanos(), 976_562);
    // 3/1024 s = 2_929_687.5 ns
    assert_eq!(Duration::from_ticks(3, 1024).as_nanos(), 2_929_688);
    // 1/2_000_000_000 s = 0.5 ns, 3/2_000_000_000 s = 1.5 ns
    assert_eq!(Duration::from_ticks(1, 2_000_000_000).as_nanos(), 0);
    assert_eq!(Duration::from_ticks(3, 2_000_000_000).as_nanos(), 2);
}

#[test]
fn the_largest_count() {
    assert_eq!(Duration::from_ticks(u64::MAX, 1).as_nanos(), u64::MAX as u128 * 1_000_000_000);
    assert_eq!(Duration::from_ticks(u64::MAX, u64::MAX).as_nanos(), 1_000_000_000);
    assert_eq!(Duration::from_ticks(1, u64::MAX).as_nanos(), 0);
}

#[test]
fn agrees_with_floating_point_on_small_counts() {
    let rates: [u64; 6] = [1, 3, 100, 250, 1000, 1024];
    for rate in rates {
        let mut ticks: u64 = 0;
        while ticks < 5000 {
            let float = std::time::Duration::from_secs_f64(ticks as f64 / rate as f64);
            assert_eq!(Duration::from_ticks(ticks, rate).as_nanos(), float.as_nanos());
            ticks += 7;
        }
    }
}

#[test]
fn seconds_and_the_rest() {
    let d = Duration::from_nanos(69_350_000_001);
    assert_eq!(d.as_nanos(), 69_350_000_001);
    assert_eq!(d.as_secs(), 69);
    assert_eq!(d.subsec_nanos(), 350_000_001);
    let z = Duration::from_nanos(0);
    assert_eq!(z.as_secs(), 0);
    assert_eq!(z.subsec_nanos(), 0);
    let m = Duration::from_nanos(u128::MAX);
    assert_eq!(m.as_secs(), u128::MAX / NANOS_PER_SEC);
    assert_eq!(m.subsec_nanos() as u128, u128::MAX % NANOS_PER_SEC);
}

#[test]
fn default_is_no_time() {
    assert_eq!(Duration::default(), Duration::from_nanos(0));
    assert_eq!(Duration::default().as_nanos(), 0);
}

#[test]
fn durations_are_ordered_by_length() {
    assert!(Duration::from_nanos(1) < Duration::from_nanos(2));
    assert!(Duration::from_ticks(1, 100) > Duration::from_ticks(1, 1000));
    assert_eq!(Duration::from_ticks(10, 1000), Duration::from_ticks(1, 100));
}
