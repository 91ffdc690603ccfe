//! The parts of the generator, each on its own.

use jitter::bits::{fold_time, rotate_left};
use jitter::ec::EcState;
use jitter::memory::{walk, MEMORY_SIZE};
use jitter::opaque::black_box;
use jitter::platform::{clock_value, get_nstime, nstime};
use jitter::pool::{lfsr, lfsr_throw_away, stir};
use jitter::timer::{CustomTimer, SystemClock, Timer};
use jitter::timer_test::{absolute_change, estimate_rounds, TimerTest, SAMPLES};
use jitter::timing::{delta, difference, long_delta, widen};
use jitter::TimerError;

#[test]
fn rotations() {
    assert_eq!(rotate_left(0x8000_0000_0000_0001, 1), 3);
    assert_eq!(rotate_left(0xfe00_0000_0000_0000, 7), 0x7f);
    assert_eq!(rotate_left(1, 63), 0x8000_0000_0000_0000);
}

#[test]
fn turns_take_a_bit_everywhere_once() {
    let mut seen = 0u64;
    let mut x = 1u64;
    for _ in 0..64 {
        seen |= x;
        x = rotate_left(x, 7);
    }
    assert_eq!(seen, u64::MAX);
    assert_eq!(x, 1);
}

#[test]
fn folds() {
    assert_eq!(fold_time(0x0123456789abcdef, 4), 0);
    assert_eq!(fold_time(0xfedcba9876543211, 7), 124);
    assert_eq!(fold_time(u64::MAX, 63), 9223372036854775806);
    assert_eq!(fold_time(0x8000000000000001, 40), 8388609);
}

#[test]
fn folds_see_every_bit() {
    let time = 0x0123_4567_89ab_cdef;
    for j in 0..64 {
        assert_eq!(fold_time(time ^ (1 << j), 4), fold_time(time, 4) ^ (1 << (j % 4)));
    }
}

#[test]
fn shift_register() {
    assert_eq!(lfsr(0, 0), 0);
    assert_eq!(lfsr(0, 1), 0x42400100603);
    assert_eq!(lfsr(0x0123456789abcdef, 0xfedcba9876543210), 0xfba233957761caf2);
    assert_eq!(lfsr(0, u64::MAX), 0xfffff838001ffbfd);
    assert_eq!(lfsr_throw_away(1, 0), 0);
    assert_eq!(lfsr_throw_away(1, 2), lfsr(0x42400100603, 1));
}

#[test]
fn shift_register_keeps_apart() {
    for i in 0..64 {
        for j in 0..i {
            assert_ne!(lfsr(1 << i, 42), lfsr(1 << j, 42));
            assert_ne!(lfsr(42, 1 << i), lfsr(42, 1 << j));
        }
    }
}

#[test]
fn stirring() {
    assert_eq!(stir(0), 0x98badcfe10325476);
    assert_eq!(stir(1), 0xfffffffffffffffe);
    assert_eq!(stir(0x0123456789abcdef), 0x8989898989898989);
    assert_eq!(stir(u64::MAX), 0x67452301efcdab89);
}

#[test]
fn stirring_keeps_apart() {
    for i in 0..64 {
        for j in 0..i {
            assert_ne!(stir(1 << i), stir(1 << j));
        }
    }
    // Two pools with one and the same mixer value.
    assert_eq!(stir(0x1010101010101010), stir(0) ^ 0x1010101010101010);
}

#[test]
fn memory_walk() {
    let mut mem = [0u8; MEMORY_SIZE];
    assert_eq!(walk(&mut mem, 5, 0), 5);
    assert_eq!(walk(&mut mem, 0, 1), 31);
    assert_eq!(mem[31], 1);
    assert_eq!(walk(&mut mem, 2040, 1), 23);
    assert_eq!(walk(&mut mem, u16::MAX, 1), 30);
    assert_eq!(mem.iter().map(|&b| b as u32).sum::<u32>(), 3);
}

#[test]
fn memory_is_hit_evenly() {
    let mut mem = [0u8; MEMORY_SIZE];
    assert_eq!(walk(&mut mem, 17, 2048), 17);
    assert!(mem.iter().all(|&b| b == 1));
    walk(&mut mem, 17, 100);
    assert!(mem.iter().all(|&b| b == 1 || b == 2));
    assert_eq!(mem.iter().filter(|&&b| b == 2).count(), 100);
}

#[test]
fn memory_bytes_wrap_around() {
    let mut mem = [255u8; MEMORY_SIZE];
    walk(&mut mem, 0, 1);
    assert_eq!(mem[31], 0);
}

#[test]
fn stuck_test() {
    let mut ec = EcState::new(0);
    assert!(!ec.stuck(10));
    assert_eq!((ec.last_delta, ec.last_delta2), (10, -10));
    // The third derivation is zero.
    assert!(ec.stuck(20));
    // The second derivation is zero.
    assert!(ec.stuck(20));
    assert!(!ec.stuck(31));
    // The first derivation is zero.
    assert!(ec.stuck(0));
}

#[test]
fn stuck_test_wraps_around() {
    let mut ec = EcState::new(0);
    assert!(!ec.stuck(i32::MAX));
    assert!(!ec.stuck(-3));
    assert_eq!(ec.last_delta2, i32::MIN + 2);
}

#[test]
fn time_deltas() {
    assert_eq!(delta(1000, 1500), 500);
    assert_eq!(delta(1500, 1000), -500);
    assert_eq!(delta(u64::MAX, 4), 5);
    assert_eq!(delta(0, 0x8000_0000), i32::MIN);
    assert_eq!(delta(0, 0x1_0000_0007), 7);
    assert_eq!(long_delta(0, 0x1_0000_0007), 0x1_0000_0007);
    assert_eq!(long_delta(7, 0), -7);
    assert_eq!(difference(i32::MIN, 1), i32::MAX);
    assert_eq!(widen(5), 5);
    assert_eq!(widen(-1), u64::MAX);
}

#[test]
fn clock_values() {
    assert_eq!(nstime(1, 5), 1073741829);
    assert_eq!(nstime(0, 999_999_999), 999_999_999);
    assert!(nstime(7, 999_999_999) < nstime(8, 0));
    assert!(nstime(8, 0) < nstime(8, 1));
}

#[test]
fn clock_before_1970_reads_zero() {
    assert_eq!(clock_value(None), 0);
    assert_eq!(clock_value(Some((1, 5))), 1073741829);
    assert_eq!(clock_value(Some((0, 0))), 0);
}

#[test]
fn system_clock() {
    let time = get_nstime();
    // After 2020, before 2500.
    assert!(time >> 30 > 1_577_836_800);
    assert!(time >> 30 < 16_725_225_600);
    assert!(time & 0x3fff_ffff < 1_000_000_000);
    assert!(SystemClock.read() >> 30 > 1_577_836_800);
}

#[test]
fn custom_timers() {
    assert_eq!(CustomTimer { function: || 42 }.read(), 42);
}

#[test]
fn black_box_is_the_identity() {
    assert_eq!(black_box(17u8), 17);
    assert_eq!(black_box(vec![1, 2]), vec![1, 2]);
}

#[test]
fn error_descriptions() {
    assert_eq!(TimerError::NoTimer.description(), "no timer available");
    assert_eq!(TimerError::CoarseTimer.description(), "coarse timer");
    assert_eq!(TimerError::NotMonotonic.description(), "timer not monotonic");
    assert_eq!(TimerError::TinyVariantions.description(), "time delta variations too small");
    assert_eq!(TimerError::TooManyStuck.description(), "too many stuck results");
}

#[test]
fn round_estimates() {
    assert_eq!(estimate_rounds(0), None);
    assert_eq!(estimate_rounds(1), None);
    assert_eq!(estimate_rounds(2), Some(128));
    assert_eq!(estimate_rounds(15), Some(33));
    assert_eq!(estimate_rounds(16), Some(26));
    assert_eq!(estimate_rounds(31), Some(26));
    assert_eq!(estimate_rounds(32), Some(22));
    assert_eq!(estimate_rounds(1000), Some(13));
    assert_eq!(estimate_rounds(u64::MAX), Some(2));
}

#[test]
fn round_estimates_of_the_table_are_rounded_up() {
    // Below 16, `r` rounds are the least for which `average^r` reaches 2^128.
    for average in 2..16u64 {
        let mut power = 1u128;
        let mut r = 1u8;
        while let Some(next) = power.checked_mul(average as u128) {
            power = next;
            r += 1;
        }
        assert_eq!(estimate_rounds(average), Some(r));
    }
}

#[test]
fn more_variation_takes_fewer_rounds() {
    let mut last = 128;
    for average in 2..5000 {
        let rounds = estimate_rounds(average).unwrap();
        assert!(rounds <= last);
        last = rounds;
    }
}

#[test]
fn changes_between_deltas() {
    assert_eq!(absolute_change(3, 10), 7);
    assert_eq!(absolute_change(10, 3), 7);
    assert_eq!(absolute_change(0, i32::MIN), 0xffff_ffff_8000_0000);
}

/// Feeds a whole test with samples of which the `i`th takes `took(i)`.
fn verdict(took: impl Fn(i64) -> i64) -> Result<u8, TimerError> {
    let mut ec = EcState::new(1);
    let mut test = TimerTest::new();
    for i in 0..SAMPLES as i64 {
        let time = 1_000_000_000 + 10_000 * i;
        test.sample(&mut ec, time as u64, (time + took(i)) as u64)?;
    }
    test.verdict()
}

#[test]
fn faulty_samples() {
    let mut ec = EcState::new(1);
    let mut test = TimerTest::new();
    assert_eq!(test.sample(&mut ec, 0, 5), Err(TimerError::NoTimer));
    assert_eq!(test.sample(&mut ec, 5, 0), Err(TimerError::NoTimer));
    assert_eq!(test.sample(&mut ec, 5, 5), Err(TimerError::CoarseTimer));
    // Only the lower half of a difference is seen.
    assert_eq!(test.sample(&mut ec, 5, 0x1_0000_0005), Err(TimerError::CoarseTimer));
    assert_eq!(test.sample(&mut ec, 5, 6), Ok(()));
    assert_eq!(test.taken, 1);
}

#[test]
fn verdicts() {
    // The deltas vary by 2, after a first step of 301.
    assert_eq!(verdict(|i| 301 + 2 * (i % 2)), Ok(128));
    assert_eq!(verdict(|_| 299), Err(TimerError::TinyVariantions));
    assert_eq!(verdict(|i| 100 * (3 + i % 2)), Err(TimerError::CoarseTimer));
    assert_eq!(verdict(|i| 1 + i), Err(TimerError::TooManyStuck));
}

#[test]
fn variation_of_one_is_too_small() {
    // The sum of the variations is 306, one for each sample.
    assert_eq!(verdict(|i| 7 + i % 2), Err(TimerError::TinyVariantions));
    // Below one for each sample.
    assert_eq!(verdict(|i| if i < 390 { 7 } else { 7 + i % 2 }), Err(TimerError::TinyVariantions));
    // Two for each sample.
    assert_eq!(verdict(|i| 7 + 2 * (i % 2)), Ok(128));
}

#[test]
fn time_may_run_backwards_three_times() {
    let jumps = |limit: i64| {
        move |i: i64| {
            if i >= 100 && i < 100 + limit {
                -500 - 7 * i
            } else {
                1000 + (i * i * 7919) % 977
            }
        }
    };
    assert!(verdict(jumps(3)).is_ok());
    assert_eq!(verdict(jumps(4)), Err(TimerError::NotMonotonic));
}

#[test]
fn samples_that_clear_the_caches_do_not_count() {
    let backwards_at_first = |i: i64| if i < 100 { -5 } else { 1000 + (i * i * 7919) % 977 };
    assert!(verdict(backwards_at_first).is_ok());
}
