//! The generator as a whole, on the system clock and on clocks made up for the
//! test.

use std::cell::Cell;

use jitter::ec::EcState;
use jitter::memory::MEMORY_SIZE;
use jitter::timer::{CustomTimer, LoggedTimer};
use jitter::{JitterRng, TimerError};

/// A clock that ticks about once per thousand, with some jitter. Counts its
/// readings in `taken`.
fn jittery(taken: &Cell<u64>) -> impl Fn() -> u64 + '_ {
    move || {
        let n = taken.get();
        taken.set(n + 1);
        1_000_000 + 1000 * n + (n * n * 7919) % 977
    }
}

/// A clock that shows `f(n)` at its `n`th reading.
fn clock<'a>(taken: &'a Cell<u64>, f: impl Fn(u64) -> u64 + 'a) -> impl Fn() -> u64 + 'a {
    move || {
        let n = taken.get();
        taken.set(n + 1);
        f(n)
    }
}

#[test]
fn test_jitter_init() {
    // Because this is a debug build, measurements here are not representative of
    // the final release build.
    // Don't fail this test if initializing `JitterRng` fails because of a bad
    // timer (the timer from the standard library may not have enough accuracy on
    // all platforms).
    let mut cached_rounds = 0;
    match JitterRng::new(&mut cached_rounds) {
        Ok(ref mut rng) => {
            // false positives are possible, but extremely unlikely
            assert!(rng.next_u32().unwrap() | rng.next_u32().unwrap() != 0);
        }
        Err(_) => {}
    }
}

#[test]
fn test_jitter_bad_timer() {
    fn bad_timer() -> u64 {
        0
    }
    let mut rng = JitterRng::new_with_timer(bad_timer);
    assert!(rng.test_timer().is_err());
}

#[test]
fn missing_timer_is_refused() {
    let taken = Cell::new(0);
    let mut rng = JitterRng::new_with_timer(clock(&taken, |_| 0));
    assert_eq!(rng.test_timer(), Err(TimerError::NoTimer));
    assert_eq!(taken.get(), 5);
}

#[test]
fn frozen_timer_is_refused() {
    let taken = Cell::new(0);
    let mut rng = JitterRng::new_with_timer(clock(&taken, |_| 5));
    assert_eq!(rng.test_timer(), Err(TimerError::CoarseTimer));
    assert_eq!(taken.get(), 5);
}

#[test]
fn timer_that_fails_later_is_refused() {
    let walk = |n: u64| 1_000_000 + 1000 * n + (n * n * 7919) % 977;
    let taken = Cell::new(0);
    let mut rng = JitterRng::new_with_timer(clock(&taken, |n| if n == 904 { 0 } else { walk(n) }));
    assert_eq!(rng.test_timer(), Err(TimerError::NoTimer));
    assert_eq!(taken.get(), 905);

    let taken = Cell::new(0);
    let mut rng =
        JitterRng::new_with_timer(clock(&taken, |n| if n == 604 { walk(601) } else { walk(n) }));
    assert_eq!(rng.test_timer(), Err(TimerError::CoarseTimer));
    assert_eq!(taken.get(), 605);
}

#[test]
fn backward_timer_is_refused() {
    let taken = Cell::new(0);
    let mut rng = JitterRng::new_with_timer(clock(&taken, |n| 1_000_000_000 - n * n * 13));
    assert_eq!(rng.test_timer(), Err(TimerError::NotMonotonic));
    assert_eq!(taken.get(), 1601);
}

#[test]
fn regular_timer_is_refused() {
    let taken = Cell::new(0);
    let mut rng = JitterRng::new_with_timer(clock(&taken, |n| 1000 + n * 7));
    assert_eq!(rng.test_timer(), Err(TimerError::TinyVariantions));
    assert_eq!(taken.get(), 1601);
}

#[test]
fn timer_in_hundreds_is_refused() {
    let taken = Cell::new(0);
    let mut rng = JitterRng::new_with_timer(clock(&taken, |n| {
        1_000_000_000 + 100 * ((n * n * 7919) % 977 + n * 1000)
    }));
    assert_eq!(rng.test_timer(), Err(TimerError::CoarseTimer));
    assert_eq!(taken.get(), 1601);
}

#[test]
fn steadily_slowing_timer_is_refused() {
    let taken = Cell::new(0);
    let mut rng = JitterRng::new_with_timer(clock(&taken, |n| 1_000_000 + n * n * 5));
    assert_eq!(rng.test_timer(), Err(TimerError::TooManyStuck));
    assert_eq!(taken.get(), 1601);
}

#[test]
fn jittery_timer_passes() {
    let taken = Cell::new(0);
    let mut rng = JitterRng::new_with_timer(jittery(&taken));
    assert_eq!(rng.test_timer(), Ok(13));
    assert_eq!(taken.get(), 1601);
}

#[test]
fn tested_rounds_can_be_set() {
    let taken = Cell::new(0);
    let mut rng = JitterRng::new_with_timer(jittery(&taken));
    let rounds = rng.test_timer().unwrap();
    assert_eq!(rounds, 13);
    rng.set_rounds(rounds);
    assert_eq!(rng.gen_entropy(), Ok(0x8104d23692e5e60a));
    assert_eq!(taken.get(), 1653);
    assert_eq!(rng.next_u64(), Ok(0x8e36a8994f1ad770));
}

#[test]
fn new_generator_uses_64_rounds() {
    let taken = Cell::new(0);
    let mut rng = JitterRng::new_with_timer(jittery(&taken));
    assert_eq!(rng.gen_entropy(), Ok(0x22b8eb9704c2e5c4));
    assert_eq!(taken.get(), 262);
}

#[test]
fn stuck_measurements_are_repeated() {
    // Three rounds and the priming take at least 13 readings per number.
    let taken = Cell::new(0);
    let mut rng = JitterRng::new_with_timer(jittery(&taken));
    rng.set_rounds(3);
    assert_eq!(rng.next_u64(), Ok(0xf6c3cd5c2f136b1e));
    assert_eq!(rng.next_u64(), Ok(0x4afc941009852d44));
    assert_eq!(taken.get(), 44);
}

#[test]
fn pools_stay_apart() {
    // The same readings, but different pools to start with.
    let mut numbers = Vec::new();
    for i in 0..64 {
        let taken = Cell::new(0);
        let mut rng = JitterRng::new_with_timer(jittery(&taken));
        rng.lfsr_time(1 << i, false);
        rng.set_rounds(3);
        numbers.push(rng.next_u64().unwrap());
    }
    for i in 0..64 {
        for j in 0..i {
            assert_ne!(numbers[i], numbers[j]);
        }
    }
}

#[test]
fn frozen_timer_yields_nothing() {
    let taken = Cell::new(0);
    let mut rng = JitterRng::new_with_timer(clock(&taken, |_| 77));
    assert_eq!(rng.gen_entropy_within(10), Err(TimerError::TooManyStuck));
    // A time stamp, a measurement to prime the collection, ten attempts.
    assert_eq!(taken.get(), 1 + 3 + 30);
}

#[test]
fn timer_that_freezes_yields_no_more() {
    let taken = Cell::new(0);
    let walk = |n: u64| 1_000_000 + 1000 * n + (n * n * 7919) % 977;
    let mut rng =
        JitterRng::new_with_timer(clock(&taken, |n| if n < 100 { walk(n) } else { walk(100) }));
    assert_eq!(rng.gen_entropy_within(1000), Err(TimerError::TooManyStuck));
    assert!(taken.get() > 3000);
}

#[test]
fn next_u32_uses_both_halves() {
    let taken = Cell::new(0);
    let mut rng = JitterRng::new_with_timer(jittery(&taken));
    rng.set_rounds(2);
    assert_eq!(rng.next_u32(), Ok(0x5d3521e1));
    let before = taken.get();
    assert_eq!(rng.next_u32(), Ok(0xbd724107));
    assert_eq!(taken.get(), before);
    assert_eq!(rng.next_u32(), Ok(0x209866e7));
    assert_eq!(rng.next_u32(), Ok(0x6712bc9d));
    assert_eq!(rng.next_u32(), Ok(0xa42b837b));
    assert_eq!(taken.get(), 30);

    let other = Cell::new(0);
    let mut rng = JitterRng::new_with_timer(jittery(&other));
    rng.set_rounds(2);
    assert_eq!(rng.next_u64(), Ok(0xbd7241075d3521e1));
}

#[test]
fn next_u64_drops_the_unused_half() {
    let taken = Cell::new(0);
    let mut rng = JitterRng::new_with_timer(jittery(&taken));
    rng.set_rounds(2);
    assert_eq!(rng.next_u32(), Ok(0x5d3521e1));
    assert_eq!(rng.next_u64(), Ok(0x6712bc9d209866e7));
    assert_eq!(rng.next_u32(), Ok(0xa42b837b));
}

#[test]
fn fill_bytes_takes_words_in_little_endian() {
    let taken = Cell::new(0);
    let mut rng = JitterRng::new_with_timer(jittery(&taken));
    rng.set_rounds(2);
    let mut dest = [0u8; 10];
    assert_eq!(rng.fill_bytes(&mut dest), Ok(()));
    assert_eq!(dest, [0xe1, 0x21, 0x35, 0x5d, 0x07, 0x41, 0x72, 0xbd, 0xe7, 0x66]);
    // The rest of the third word is dropped, the fourth comes next.
    assert_eq!(rng.next_u32(), Ok(0x6712bc9d));
}

#[test]
fn fill_bytes_of_nothing_takes_no_reading() {
    let taken = Cell::new(0);
    let mut rng = JitterRng::new_with_timer(jittery(&taken));
    let mut dest: [u8; 0] = [];
    assert_eq!(rng.fill_bytes(&mut dest), Ok(()));
    assert_eq!(taken.get(), 0);
}

#[test]
fn start_tests_the_timer_and_caches_the_result() {
    let taken = Cell::new(0);
    let mut cached_rounds = 0;
    let mut rng = JitterRng::start_with_timer(jittery(&taken), &mut cached_rounds).ok().unwrap();
    assert_eq!(cached_rounds, 13);
    assert_eq!(taken.get(), 1653);
    assert_eq!(rng.next_u64(), Ok(0x8e36a8994f1ad770));

    // With the result in the cache there is no second test: 13 rounds take at
    // least 43 readings, a test takes 1601.
    let again = Cell::new(0);
    assert!(JitterRng::start_with_timer(jittery(&again), &mut cached_rounds).is_ok());
    assert_eq!(cached_rounds, 13);
    assert!(again.get() >= 43 && again.get() < 200);
}

#[test]
fn start_uses_cached_rounds() {
    let taken = Cell::new(0);
    let mut cached_rounds = 5;
    let mut rng = JitterRng::start_with_timer(jittery(&taken), &mut cached_rounds).ok().unwrap();
    assert_eq!(cached_rounds, 5);
    assert_eq!(taken.get(), 31);
    assert_eq!(rng.next_u64(), Ok(0xee23b61fc7bff8aa));
}

#[test]
fn start_reports_a_bad_timer() {
    let taken = Cell::new(0);
    let mut cached_rounds = 0;
    let error = JitterRng::start_with_timer(clock(&taken, |_| 0), &mut cached_rounds).err();
    assert_eq!(error, Some(TimerError::NoTimer));
    assert_eq!(cached_rounds, 0);
}

#[test]
fn start_up_tests_only_with_an_empty_cache() {
    let taken = Cell::new(0);
    let mut rng = JitterRng::new_with_timer(jittery(&taken));
    let mut cached_rounds = 0;
    assert_eq!(rng.start_up(&mut cached_rounds), Ok(()));
    assert_eq!(cached_rounds, 13);
    assert_eq!(taken.get(), 1653);

    // The second time, the pool is filled, and that is all.
    assert_eq!(rng.start_up(&mut cached_rounds), Ok(()));
    assert_eq!(cached_rounds, 13);
    assert_eq!(taken.get(), 1711);
    assert_eq!(rng.next_u64(), Ok(0x19e93b0e71cc150d));
    assert_eq!(taken.get(), 1787);
}

#[test]
fn start_up_uses_cached_rounds() {
    let taken = Cell::new(0);
    let mut rng = JitterRng::new_with_timer(jittery(&taken));
    let mut cached_rounds = 5;
    assert_eq!(rng.start_up(&mut cached_rounds), Ok(()));
    assert_eq!(cached_rounds, 5);
    assert_eq!(taken.get(), 31);
    assert_eq!(rng.next_u64(), Ok(0xee23b61fc7bff8aa));
}

#[test]
fn start_up_fails_as_the_test_does() {
    // Each of the clocks, by its readings, with the error and the number of readings
    // that it takes to find it.
    fn check(f: fn(u64) -> u64, error: TimerError, readings: u64) {
        let taken = Cell::new(0);
        let mut tested = JitterRng::new_with_timer(clock(&taken, f));
        assert_eq!(tested.test_timer(), Err(error));
        assert_eq!(taken.get(), readings);

        let taken = Cell::new(0);
        let mut rng = JitterRng::new_with_timer(clock(&taken, f));
        let mut cached_rounds = 0;
        assert_eq!(rng.start_up(&mut cached_rounds), Err(error));
        assert_eq!(cached_rounds, 0);
        assert_eq!(taken.get(), readings);
    }
    check(|_| 0, TimerError::NoTimer, 5);
    check(|_| 5, TimerError::CoarseTimer, 5);
    check(|n| 1_000_000_000 - n * n * 13, TimerError::NotMonotonic, 1601);
    check(|n| 1000 + n * 7, TimerError::TinyVariantions, 1601);
    check(|n| 1_000_000 + n * n * 5, TimerError::TooManyStuck, 1601);
}

#[test]
fn round_walks_over_the_memory() {
    let taken = Cell::new(0);
    let mut ec = EcState::new(50);
    let mut rng = JitterRng::new_with_timer(clock(&taken, |_| 0));
    // Each of the measurements makes 128 accesses and up to 15 more.
    rng.collect_round(&mut ec, 20);
    let measurements = taken.get() as u32 / 3;
    let all = ec.mem.iter().map(|&b| b as u32).sum::<u32>();
    assert!(128 * measurements <= all && all <= 143 * measurements);
    let (least, most) = (ec.mem.iter().min().unwrap(), ec.mem.iter().max().unwrap());
    assert!(most - least <= 1);
}

#[test]
fn measurements_are_exact() {
    let taken = Cell::new(0);
    let timer = jittery(&taken);
    let mut ec = EcState::new(timer());
    let mut rng = JitterRng::new_with_timer(timer);
    assert_eq!(rng.measure_jitter(&mut ec), Some(()));
    assert_eq!((ec.last_delta, ec.last_delta2), (2412, -2412));
    assert_eq!(ec.mem.iter().map(|&b| b as u32).sum::<u32>(), 138);
    assert_eq!(rng.measure_jitter(&mut ec), Some(()));
    assert_eq!((ec.last_delta, ec.last_delta2), (3209, -797));
    assert_eq!(ec.mem.iter().map(|&b| b as u32).sum::<u32>(), 269);
    assert_eq!(taken.get(), 7);
}

#[test]
fn stuck_measurement_is_reported() {
    let taken = Cell::new(0);
    let mut ec = EcState::new(50);
    let mut rng = JitterRng::new_with_timer(clock(&taken, |_| 50));
    assert_eq!(rng.measure_jitter(&mut ec), None);
    assert!(!rng.collect_round(&mut ec, 4));
    assert_eq!(taken.get(), 15);
}

#[test]
fn noise_sources_take_readings_only_to_vary() {
    let taken = Cell::new(0);
    let mut rng = JitterRng::new_with_timer(jittery(&taken));
    let mut mem = [0u8; MEMORY_SIZE];
    rng.run_noise_sources(&mut mem, 12345, false);
    assert_eq!(taken.get(), 0);
    assert_eq!(mem.iter().map(|&b| b as u32).sum::<u32>(), 128);
    rng.run_noise_sources(&mut mem, 12345, true);
    assert_eq!(taken.get(), 2);
    let all = mem.iter().map(|&b| b as u32).sum::<u32>();
    assert!(256 <= all && all <= 271);
}

#[test]
fn throw_away_rounds_follow_the_reading() {
    // The reading 3 folds to 3 on an empty pool.
    let taken = Cell::new(0);
    let mut rng = JitterRng::new_with_timer(clock(&taken, |_| 3));
    let once = jitter::pool::lfsr(0, 99);
    let twice = jitter::pool::lfsr(once, 99);
    assert_eq!(rng.throw_away_rounds(99, true), jitter::pool::lfsr(twice, 99));
    assert_eq!(rng.throw_away_rounds(99, false), 0);
    assert_eq!(taken.get(), 1);
}

#[test]
fn random_loop_count_folds_the_reading() {
    let taken = Cell::new(0);
    let mut rng = JitterRng::new_with_timer(clock(&taken, |_| 0x0123_4567_89ab_cde0));
    assert_eq!(rng.random_loop_cnt(4), 15);
    assert_eq!(rng.random_loop_cnt(32), 0x0123_4567 ^ 0x89ab_cde0);
}

#[test]
fn timer_stats_measures_the_system_clock() {
    let taken = Cell::new(0);
    let mut rng = JitterRng::new_with_timer(jittery(&taken));
    rng.timer_stats(false);
    assert_eq!(taken.get(), 0);
    rng.timer_stats(true);
    assert_eq!(taken.get(), 2);
}

#[test]
fn stats_are_taken_by_the_clock() {
    let taken = Cell::new(0);
    let shown = Cell::new(0);
    let mut rng = JitterRng::new_with_timer(jittery(&taken));
    rng.set_rounds(3);
    let function = clock(&shown, |n| 5000 + 777 * n * n);
    let mut stopwatch = LoggedTimer::new(CustomTimer { function });
    assert_eq!(rng.stats_with_clock(&mut stopwatch, false), 777);
    assert_eq!((taken.get(), shown.get()), (0, 2));
    assert_eq!(rng.stats_with_clock(&mut stopwatch, true), 3885);
    assert_eq!((taken.get(), shown.get()), (2, 4));
    // The first clock value of each run is in the pool.
    assert_eq!(rng.next_u64(), Ok(0x47d1e6430c56765c));
    assert_eq!(taken.get(), 15);
}

#[test]
fn stats_of_a_backward_clock_are_negative() {
    let taken = Cell::new(0);
    let shown = Cell::new(0);
    let mut rng = JitterRng::new_with_timer(jittery(&taken));
    let function = clock(&shown, |n| 5000 - 40 * n);
    let mut stopwatch = LoggedTimer::new(CustomTimer { function });
    assert_eq!(rng.stats_with_clock(&mut stopwatch, false), -40);
}

#[test]
fn cached_rounds_start_the_system_clock() {
    let mut cached_rounds = 7;
    let _ = JitterRng::new(&mut cached_rounds);
    assert_eq!(cached_rounds, 7);
}
