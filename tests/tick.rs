use clmm::tick::{Tick, TickUpdate, MAX_TICK, MIN_TICK};
use clmm::tick_array::TICK_ARRAY_SIZE;

const TS_8: u16 = 8;
const TS_128: u16 = 128;

#[test]
fn test_start_tick_is_zero() {
    assert!(Tick::check_is_valid_start_tick(0, TS_8));
}

#[test]
fn test_start_tick_is_valid_ts8() {
    // 704 is 88 spacings of 8: no multiple of the 60-tick span
    assert!(!Tick::check_is_valid_start_tick(704, TS_8));
    assert!(Tick::check_is_valid_start_tick(960, TS_8));
}

#[test]
fn test_start_tick_is_valid_ts128() {
    assert!(Tick::check_is_valid_start_tick(337920, TS_128));
}

#[test]
fn test_start_tick_is_valid_negative_ts8() {
    // -704 is 88 spacings of 8: no multiple of the 60-tick span
    assert!(!Tick::check_is_valid_start_tick(-704, TS_8));
    assert!(Tick::check_is_valid_start_tick(-960, TS_8));
}

#[test]
fn test_start_tick_is_valid_negative_ts128() {
    assert!(Tick::check_is_valid_start_tick(-337920, TS_128));
}

#[test]
fn test_start_tick_is_not_valid_ts8() {
    assert!(!Tick::check_is_valid_start_tick(2353573, TS_8));
}

#[test]
fn test_start_tick_is_not_valid_ts128() {
    assert!(!Tick::check_is_valid_start_tick(-2353573, TS_128));
}

#[test]
fn test_min_tick_array_start_tick_is_valid_ts8() {
    let expected_array_index: i32 = (MIN_TICK / TICK_ARRAY_SIZE / TS_8 as i32) - 1;
    let expected_start_index_for_last_array: i32 =
        expected_array_index * TICK_ARRAY_SIZE * TS_8 as i32;
    assert!(Tick::check_is_valid_start_tick(
        expected_start_index_for_last_array,
        TS_8
    ))
}

#[test]
fn test_min_tick_array_sub_1_start_tick_is_invalid_ts8() {
    let expected_array_index: i32 = (MIN_TICK / TICK_ARRAY_SIZE / TS_8 as i32) - 2;
    let expected_start_index_for_last_array: i32 =
        expected_array_index * TICK_ARRAY_SIZE * TS_8 as i32;
    assert!(!Tick::check_is_valid_start_tick(
        expected_start_index_for_last_array,
        TS_8
    ))
}

#[test]
fn test_min_tick_array_start_tick_is_valid_ts128() {
    let expected_array_index: i32 = (MIN_TICK / TICK_ARRAY_SIZE / TS_128 as i32) - 1;
    let expected_start_index_for_last_array: i32 =
        expected_array_index * TICK_ARRAY_SIZE * TS_128 as i32;
    assert!(Tick::check_is_valid_start_tick(
        expected_start_index_for_last_array,
        TS_128
    ))
}

#[test]
fn test_min_tick_array_sub_1_start_tick_is_invalid_ts128() {
    let expected_array_index: i32 = (MIN_TICK / TICK_ARRAY_SIZE / TS_128 as i32) - 2;
    let expected_start_index_for_last_array: i32 =
        expected_array_index * TICK_ARRAY_SIZE * TS_128 as i32;
    assert!(!Tick::check_is_valid_start_tick(
        expected_start_index_for_last_array,
        TS_128
    ))
}

#[test]
fn test_min_tick_index() {
    assert!(!Tick::check_is_out_of_bounds(MIN_TICK));
}

#[test]
fn test_max_tick_index() {
    assert!(!Tick::check_is_out_of_bounds(MAX_TICK));
}

#[test]
fn test_min_tick_index_sub_1() {
    assert!(Tick::check_is_out_of_bounds(MIN_TICK - 1));
}

#[test]
fn test_max_tick_index_add_1() {
    assert!(Tick::check_is_out_of_bounds(MAX_TICK + 1));
}

#[test]
fn test_min_tick_spacing() {
    assert_eq!(Tick::full_range_indexes(1), (MIN_TICK, MAX_TICK));
}

#[test]
fn test_standard_tick_spacing() {
    assert_eq!(Tick::full_range_indexes(128), (-443520, 443520));
}

#[test]
fn test_full_range_only_tick_spacing() {
    pub const FULL_RANGE_ONLY_TICK_SPACING_THRESHOLD: u16 = 32768; // 2^15
    assert_eq!(
        Tick::full_range_indexes(FULL_RANGE_ONLY_TICK_SPACING_THRESHOLD),
        (-425984, 425984)
    );
}

#[test]
fn test_max_tick_spacing() {
    assert_eq!(Tick::full_range_indexes(u16::MAX), (-393210, 393210));
}

#[test]
fn min_array_start_boundary_exact_values() {
    // the lowest array start for spacing 128 and the one below it
    assert!(Tick::check_is_valid_start_tick(-445440, TS_128));
    assert!(!Tick::check_is_valid_start_tick(-445440 - 7680, TS_128));
    assert!(Tick::check_is_valid_start_tick(-444000, TS_8));
    assert!(!Tick::check_is_valid_start_tick(-444480, TS_8));
    // above the range a multiple of the span is no start
    assert!(!Tick::check_is_valid_start_tick(443520 + 7680, TS_128));
}

#[test]
fn valid_start_is_multiple_of_span_in_range() {
    for spacing in [1u16, 8, 64, 128] {
        let span = 60 * spacing as i32;
        let lowest = (MIN_TICK.div_euclid(span)) * span;
        let mut start = lowest;
        while start <= MAX_TICK {
            assert!(Tick::check_is_valid_start_tick(start, spacing));
            assert!(!Tick::check_is_valid_start_tick(start + 1, spacing));
            start += span;
        }
    }
}

#[test]
fn usable_tick_and_bound() {
    assert!(Tick::check_is_usable_tick(-16, 8));
    assert!(!Tick::check_is_usable_tick(-15, 8));
    assert!(!Tick::check_is_usable_tick(MAX_TICK + 4, 4));
    assert_eq!(Tick::bound_tick_index(MIN_TICK - 10), MIN_TICK);
    assert_eq!(Tick::bound_tick_index(MAX_TICK + 10), MAX_TICK);
    assert_eq!(Tick::bound_tick_index(5), 5);
}

#[test]
fn tick_update_overwrites_every_field() {
    let mut tick = Tick::default();
    let update = TickUpdate {
        initialized: true,
        liquidity_net: -5,
        liquidity_gross: 7,
        fee_growth_outside_0_x64: 11,
        fee_growth_outside_1_x64: 13,
        reward_growths_outside: [1, 2, 3],
    };
    tick.update(&update);
    assert_eq!(tick, Tick::from(update));
    assert_eq!(TickUpdate::from(tick), update);
}
