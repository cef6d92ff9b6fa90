use cw_serial_keyer::double::{round_to_even, to_double};
use cw_serial_keyer::sleep::{precise_sleep, Wait};
use cw_serial_keyer::timing::{mark_duration, space_duration, unit};
use std::time::Duration;

#[test]
fn unit_is_1200_millis_over_wpm() {
    assert_eq!(unit(24), 50_000_000);
    assert_eq!(unit(20), 60_000_000);
    assert_eq!(unit(5), 240_000_000);
    assert_eq!(unit(99), 12_121_212);
    assert_eq!(unit(7), 171_428_571);
    assert_eq!(unit(1), 1_200_000_000);
    assert_eq!(unit(255), 4_705_882);
}

#[test]
fn unit_agrees_with_seconds_in_double_precision() {
    for wpm in 1..=255_u8 {
        let expected = Duration::from_secs_f64(1.2 / f64::from(wpm));
        assert_eq!(Duration::from_nanos(unit(wpm)), expected);
    }
}

#[test]
fn marks_agree_with_seconds_in_double_precision() {
    for wpm in 5..=99_u8 {
        for weighting in 10..=90_u8 {
            for dits in [0, 1, 3] {
                let nominal = dits * unit(wpm);
                let factor = f64::from(weighting) / 50.0;
                let expected = Duration::from_nanos(nominal).mul_f64(factor);
                assert_eq!(Duration::from_nanos(mark_duration(nominal, weighting)), expected);
            }
        }
    }
}

#[test]
fn odd_marks_agree_with_seconds_in_double_precision() {
    let mut nominal: u64 = 1;
    while nominal < 1_000_000_000 {
        for weighting in 10..=90_u8 {
            let factor = f64::from(weighting) / 50.0;
            let expected = Duration::from_nanos(nominal).mul_f64(factor);
            assert_eq!(Duration::from_nanos(mark_duration(nominal, weighting)), expected);
        }
        nominal = nominal * 13 / 12 + 1;
    }
    assert_eq!(mark_duration(999_999_999, 90), 1_799_999_998);
}

#[test]
fn spaces_agree_with_seconds_in_double_precision() {
    for wpm in 5..=99_u8 {
        for weighting in 10..=90_u8 {
            let dit = Duration::from_secs_f64(1.2 / f64::from(wpm));
            let mark = dit.mul_f64(f64::from(weighting) / 50.0);
            let expected = dit.saturating_add(dit).saturating_sub(mark);
            let space = space_duration(unit(wpm), wpm, weighting);
            assert_eq!(Duration::from_nanos(space), expected);
        }
    }
}

#[test]
fn nominal_weighting_changes_nothing() {
    assert_eq!(mark_duration(60_000_000, 50), 60_000_000);
    assert_eq!(mark_duration(180_000_000, 50), 180_000_000);
    assert_eq!(space_duration(60_000_000, 20, 50), 60_000_000);
}

#[test]
fn weighting_shifts_time_from_space_to_mark() {
    assert_eq!(mark_duration(60_000_000, 75), 90_000_000);
    assert_eq!(space_duration(60_000_000, 20, 75), 30_000_000);
    assert_eq!(mark_duration(60_000_000, 10), 12_000_000);
    assert_eq!(space_duration(60_000_000, 20, 10), 108_000_000);
}

#[test]
fn a_heavy_dit_leaves_no_space() {
    assert_eq!(space_duration(0, 20, 90), 0);
}

#[test]
fn marks_round_to_a_nearest_nanosecond() {
    assert_eq!(mark_duration(1, 10), 0);
    assert_eq!(mark_duration(1, 26), 1);
    assert_eq!(mark_duration(100, 37), 74);
}

#[test]
fn rounds_halves_to_even() {
    assert_eq!(round_to_even(5, 2), 2);
    assert_eq!(round_to_even(7, 2), 4);
    assert_eq!(round_to_even(8, 3), 3);
    assert_eq!(round_to_even(7, 3), 2);
    assert_eq!(round_to_even(6, 3), 2);
}

#[test]
fn doubles_of_quotients() {
    for (num, den) in [(1_u32, 3_u32), (10, 50), (90, 50), (1, 1_000_000_000), (720, 1000)] {
        let (significand, scale) = to_double(u128::from(num), u128::from(den));
        let expected = f64::from(num) / f64::from(den);
        assert_eq!(significand as f64 / scale as f64, expected);
    }
}

#[test]
fn sleeps_until_a_millisecond_before_the_deadline() {
    let wait = precise_sleep(Duration::from_millis(50));
    assert!(matches!(wait, Wait::Sleep(d) if d == Duration::from_millis(49)));
    let wait = precise_sleep(Duration::from_nanos(2_000_001));
    assert!(matches!(wait, Wait::Sleep(d) if d == Duration::from_nanos(1_000_001)));
    let wait = precise_sleep(Duration::MAX);
    assert!(matches!(wait, Wait::Sleep(d) if d == Duration::MAX - Duration::from_millis(1)));
}

#[test]
fn yields_close_to_the_deadline() {
    assert!(matches!(precise_sleep(Duration::from_millis(2)), Wait::Yield));
    assert!(matches!(precise_sleep(Duration::from_nanos(1)), Wait::Yield));
    assert!(matches!(precise_sleep(Duration::ZERO), Wait::Over));
}

#[test]
fn faster_is_shorter() {
    for wpm in 1..=254_u8 {
        assert!(unit(wpm + 1) < unit(wpm));
    }
}

#[test]
fn heavier_is_longer() {
    for weighting in 10..=89_u8 {
        assert!(mark_duration(60_000_000, weighting) < mark_duration(60_000_000, weighting + 1));
    }
}

#[test]
fn dit_and_space_last_two_units() {
    for wpm in 5..=99_u8 {
        for weighting in 10..=90_u8 {
            let dit = unit(wpm);
            let space = space_duration(dit, wpm, weighting);
            assert_eq!(mark_duration(dit, weighting) + space, 2 * dit);
        }
    }
}
