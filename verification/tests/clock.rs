use uattestation::clock::{reading_of, ClockReading};

fn parts(r: Option<ClockReading>) -> Option<(i64, Option<i64>)> {
    r.map(|c| (c.seconds, c.nanos))
}

#[test]
fn readings_after_the_epoch() {
    assert_eq!(parts(reading_of(true, 5, 250)), Some((5, Some(5_000_000_250))));
    assert_eq!(parts(reading_of(true, 0, 0)), Some((0, Some(0))));
}

#[test]
fn readings_before_the_epoch_round_down() {
    assert_eq!(parts(reading_of(false, 1, 500_000_000)), Some((-2, Some(-1_500_000_000))));
    assert_eq!(parts(reading_of(false, 3, 0)), Some((-3, Some(-3_000_000_000))));
}

#[test]
fn readings_beyond_the_ranges() {
    assert_eq!(parts(reading_of(true, 10_000_000_000, 0)), Some((10_000_000_000, None)));
    assert_eq!(parts(reading_of(true, u64::MAX, 0)), None);
    assert_eq!(parts(reading_of(false, 1u64 << 63, 0)), Some((i64::MIN, None)));
    assert_eq!(parts(reading_of(false, 1u64 << 63, 1)), None);
}

#[test]
fn seconds_agree_with_nanoseconds() {
    for (after, secs, nsec) in [(true, 17u64, 999_999_999u32), (false, 17, 1), (false, 0, 1)] {
        let c = reading_of(after, secs, nsec).unwrap();
        let n = c.nanos.unwrap();
        assert_eq!(c.seconds, n.div_euclid(1_000_000_000));
    }
}
