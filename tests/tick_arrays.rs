use clmm::dynamic_tick_array::{DynamicTick, DynamicTickArray, DynamicTickArrayLoader, DynamicTickData};
use clmm::error::ErrorCode;
use clmm::fixed_tick_array::FixedTickArray;
use clmm::modify_position::{add_delta, modify_position, PoolState};
use clmm::tick::{Tick, TickUpdate};
use clmm::tick_array::{
    get_fee_growth_inside, get_or_create_tick_array_by_discriminator, get_reward_growths_inside,
    load_tick_array, load_tick_array_mut, LoadedTickArray, RewardInfo, TickArrayAccount,
    TickArrayKind, TickArrayType, TickArraysMut,
};

const PROGRAM: [u8; 32] = [7u8; 32];
const POOL: [u8; 32] = [9u8; 32];

fn dynamic_array(start: i32, spacing: u16) -> DynamicTickArrayLoader {
    let mut loader = DynamicTickArrayLoader::load(vec![0u8; DynamicTickArrayLoader::LEN]).unwrap();
    loader.initialize(&POOL, spacing, start).unwrap();
    loader
}

fn fixed_bytes(start: i32) -> Vec<u8> {
    let mut data = vec![0u8; FixedTickArray::LEN];
    data[0..4].copy_from_slice(&start.to_le_bytes());
    data[4..36].copy_from_slice(&POOL);
    data
}

fn update(initialized: bool, seed: u128) -> TickUpdate {
    TickUpdate {
        initialized,
        liquidity_net: -(seed as i128) - 1,
        liquidity_gross: seed + 1,
        fee_growth_outside_0_x64: seed * 3 + 5,
        fee_growth_outside_1_x64: u128::MAX - seed,
        reward_growths_outside: [seed, seed + 100, seed << 64],
    }
}

fn account(key: u8, tag: [u8; 8], body: &[u8]) -> TickArrayAccount {
    let mut data = tag.to_vec();
    data.extend_from_slice(body);
    TickArrayAccount { key: [key; 32], owner: PROGRAM, is_writable: true, data }
}

#[test]
fn next_init_tick_scenario_spacing_8() {
    let mut array = dynamic_array(0, 8);
    array.update_tick(24, 8, &update(true, 1)).unwrap();
    array.update_tick(400, 8, &update(true, 2)).unwrap();
    assert_eq!(array.get_next_init_tick_index(24, 8, false), Ok(Some(400)));
    // moving down, the search includes the offset it starts from
    assert_eq!(array.get_next_init_tick_index(400, 8, true), Ok(Some(400)));
    assert_eq!(array.get_next_init_tick_index(399, 8, true), Ok(Some(24)));
    assert_eq!(array.get_next_init_tick_index(23, 8, true), Ok(None));
    assert_eq!(array.get_next_init_tick_index(400, 8, false), Ok(None));
    // the shifted window reaches one spacing below the start when moving up
    assert_eq!(array.get_next_init_tick_index(-8, 8, false), Ok(Some(24)));
    assert_eq!(array.get_next_init_tick_index(-8, 8, true), Err(ErrorCode::InvalidTickArraySequence));
    assert_eq!(array.get_next_init_tick_index(472, 8, false), Err(ErrorCode::InvalidTickArraySequence));
    assert_eq!(array.get_next_init_tick_index(472, 8, true), Ok(Some(400)));
}

#[test]
fn updates_read_back_and_count() {
    let mut array = dynamic_array(-480, 8);
    let offsets = [17usize, 3, 59, 0, 31, 4];
    for (n, o) in offsets.iter().enumerate() {
        let tick_index = -480 + 8 * *o as i32;
        assert_eq!(array.update_tick(tick_index, 8, &update(true, n as u128)), Ok(true));
        assert_eq!(array.initialized_tick_count() as usize, n + 1);
    }
    for (n, o) in offsets.iter().enumerate() {
        let tick_index = -480 + 8 * *o as i32;
        assert_eq!(array.get_tick(tick_index, 8), Ok(Tick::from(update(true, n as u128))));
    }
    // an update that keeps the tick initialized does not flip it
    assert_eq!(array.update_tick(-480 + 8 * 31, 8, &update(true, 77)), Ok(false));
    assert_eq!(array.get_tick(-480 + 8 * 31, 8), Ok(Tick::from(update(true, 77))));
    // uninitializing stores an empty tick whatever the other fields say
    assert_eq!(array.update_tick(-480 + 8 * 3, 8, &update(false, 5)), Ok(true));
    assert_eq!(array.get_tick(-480 + 8 * 3, 8), Ok(Tick::default()));
    assert_eq!(array.initialized_tick_count(), 5);
    assert_eq!(array.get_tick(-480 + 8 * 59, 8), Ok(Tick::from(update(true, 2))));
    assert_eq!(array.get_tick(-480 + 8 * 4, 8), Ok(Tick::from(update(true, 5))));
    assert_eq!(array.get_tick(-480 + 8 * 5, 8), Ok(Tick::default()));
    array.clear_tick(-480 + 8 * 59, 8).unwrap();
    assert_eq!(array.get_tick(-480 + 8 * 59, 8), Ok(Tick::default()));
    assert_eq!(array.initialized_tick_count(), 4);
}

#[test]
fn every_offset_initialized_then_cleared() {
    let mut array = dynamic_array(0, 1);
    for o in 0..60 {
        array.update_tick(o, 1, &update(true, o as u128)).unwrap();
    }
    assert_eq!(array.initialized_tick_count(), 60);
    for o in 0..60 {
        assert_eq!(array.get_tick(o, 1), Ok(Tick::from(update(true, o as u128))));
    }
    for o in (0..60).rev() {
        array.update_tick(o, 1, &TickUpdate::default()).unwrap();
    }
    assert_eq!(array.initialized_tick_count(), 0);
    let fresh = dynamic_array(0, 1);
    assert_eq!(array.as_bytes()[..52], fresh.as_bytes()[..52]);
}

#[test]
fn same_update_twice_leaves_bytes_unchanged() {
    let mut array = dynamic_array(0, 8);
    array.update_tick(80, 8, &update(true, 9)).unwrap();
    array.update_tick(16, 8, &update(true, 4)).unwrap();
    let first = array.as_bytes().to_vec();
    array.update_tick(16, 8, &update(true, 4)).unwrap();
    assert_eq!(array.as_bytes(), &first[..]);
    array.update_tick(40, 8, &update(false, 3)).unwrap();
    let second = array.as_bytes().to_vec();
    array.update_tick(40, 8, &update(false, 3)).unwrap();
    assert_eq!(array.as_bytes(), &second[..]);
}

#[test]
fn search_up_lists_initialized_offsets_in_order() {
    let mut array = dynamic_array(0, 4);
    let mut offsets = vec![44i32, 2, 30, 9, 58, 17];
    for o in &offsets {
        array.update_tick(4 * o, 4, &update(true, *o as u128)).unwrap();
    }
    offsets.sort();
    let mut found = Vec::new();
    let mut at = -4;
    while let Ok(Some(t)) = array.get_next_init_tick_index(at, 4, false) {
        found.push(t / 4);
        at = t;
    }
    assert_eq!(found, offsets);
    let mut down = Vec::new();
    let mut at = 4 * 59;
    while let Ok(Some(t)) = array.get_next_init_tick_index(at, 4, true) {
        down.push(t / 4);
        at = t - 4;
        if at < 0 {
            break;
        }
    }
    offsets.reverse();
    assert_eq!(down, offsets);
}

#[test]
fn byte_offset_matches_a_scan() {
    let mut array = dynamic_array(0, 1);
    let marked = [1i32, 5, 7, 20, 59];
    for o in marked {
        array.update_tick(o, 1, &update(true, 1)).unwrap();
    }
    for o in 0..60isize {
        let below = marked.iter().filter(|m| (**m as isize) < o).count();
        assert_eq!(array.byte_offset(o), Ok(o as usize + 112 * below));
    }
    assert_eq!(array.byte_offset(-1), Err(ErrorCode::TickNotFound));
}

#[test]
fn tick_errors() {
    let mut array = dynamic_array(0, 8);
    assert_eq!(array.get_tick(4, 8), Err(ErrorCode::TickNotFound));
    assert_eq!(array.get_tick(480, 8), Err(ErrorCode::TickNotFound));
    assert_eq!(array.get_tick(-8, 8), Err(ErrorCode::TickNotFound));
    assert_eq!(array.update_tick(4, 8, &update(true, 1)), Err(ErrorCode::TickNotFound));
    assert_eq!(array.get_tick(8, 0), Err(ErrorCode::TickNotFound));
    assert_eq!(array.tick_offset(8, 0), Err(ErrorCode::InvalidTickSpacing));
    assert_eq!(array.tick_offset(-1, 8), Ok(-1));
    assert_eq!(array.tick_offset(15, 8), Ok(1));
    assert!(array.in_search_range(-8, 8, true));
    assert!(!array.in_search_range(-8, 8, false));
    assert!(!array.is_min_tick_array());
    assert!(!array.is_max_tick_array(8));
    assert!(array.is_variable_size());
    assert_eq!(array.start_tick_index(), 0);
    assert_eq!(array.pool(), POOL);
}

#[test]
fn initialize_rejects_invalid_start() {
    let mut loader = DynamicTickArrayLoader::load(vec![0u8; DynamicTickArrayLoader::LEN]).unwrap();
    assert_eq!(loader.initialize(&POOL, 8, 100), Err(ErrorCode::InvalidStartTick));
    assert_eq!(loader.start_tick_index(), 0);
    assert_eq!(loader.initialize(&POOL, 8, -444000), Ok(()));
    assert_eq!(loader.start_tick_index(), -444000);
    assert!(loader.is_min_tick_array());
}

#[test]
fn dynamic_tick_encoding() {
    let data = DynamicTickData {
        liquidity_net: -2,
        liquidity_gross: 0x0102,
        fee_growth_outside_a: 3,
        fee_growth_outside_b: 4,
        reward_growths_outside: [5, 6, 7],
    };
    let bytes = DynamicTick::Initialized(data).to_bytes();
    assert_eq!(bytes.len(), DynamicTick::INITIALIZED_LEN);
    assert_eq!(bytes[0], 1);
    assert_eq!(&bytes[1..17], &[0xfeu8, 0xff, 0xff, 0xff, 0xff, 0xff, 0xff, 0xff, 0xff, 0xff, 0xff, 0xff, 0xff, 0xff, 0xff, 0xff][..]);
    assert_eq!(&bytes[17..19], &[2u8, 1][..]);
    assert_eq!(DynamicTick::read(&bytes, 0), Ok(DynamicTick::Initialized(data)));
    assert_eq!(DynamicTick::Uninitialized.to_bytes(), vec![0u8]);
    assert_eq!(DynamicTick::read(&[2u8], 0), Err(ErrorCode::AccountDidNotDeserialize));
    assert_eq!(DynamicTick::read(&bytes[..50], 0), Err(ErrorCode::AccountDidNotDeserialize));
    assert_eq!(DynamicTickArray::MIN_LEN, 8 + 52 + 60);
    assert_eq!(DynamicTickArray::MAX_LEN, 8 + 52 + 60 * 113);
}

#[test]
fn fixed_array_keeps_update_fields() {
    let mut array = FixedTickArray::load(fixed_bytes(960)).unwrap();
    assert!(!array.is_variable_size());
    assert_eq!(array.update_tick(968, 8, &update(true, 3)), Ok(true));
    assert_eq!(array.update_tick(1432, 8, &update(false, 4)), Ok(false));
    assert_eq!(array.get_tick(968, 8), Ok(Tick::from(update(true, 3))));
    assert_eq!(array.get_tick(1432, 8), Ok(Tick::from(update(false, 4))));
    assert_eq!(array.initialized_tick_count(), 1);
    assert_eq!(array.get_next_init_tick_index(1432, 8, true), Ok(Some(968)));
    array.clear_tick(968, 8).unwrap();
    assert_eq!(array.get_tick(968, 8), Ok(Tick::default()));
    assert_eq!(array.pool(), POOL);
    assert_eq!(FixedTickArray::load(vec![0u8; 10]).err(), Some(ErrorCode::AccountDidNotDeserialize));
}

#[test]
fn load_checks_owner_tag_and_pool() {
    let body = dynamic_array(0, 8).into_bytes();
    let ok = load_tick_array(account(1, DynamicTickArray::DISCRIMINATOR, &body), &PROGRAM, &POOL).unwrap();
    assert!(matches!(ok, LoadedTickArray::Dynamic(_)));
    let fixed = load_tick_array(account(1, FixedTickArray::DISCRIMINATOR, &fixed_bytes(0)), &PROGRAM, &POOL).unwrap();
    assert!(matches!(fixed, LoadedTickArray::Fixed(_)));

    let mut wrong_owner = account(1, DynamicTickArray::DISCRIMINATOR, &body);
    wrong_owner.owner = [0u8; 32];
    assert_eq!(load_tick_array(wrong_owner, &PROGRAM, &POOL).err(), Some(ErrorCode::AccountOwnedByWrongProgram));
    let short = TickArrayAccount { key: [1; 32], owner: PROGRAM, is_writable: true, data: vec![1, 2, 3] };
    assert_eq!(load_tick_array(short, &PROGRAM, &POOL).err(), Some(ErrorCode::AccountDiscriminatorNotFound));
    assert_eq!(
        load_tick_array(account(1, [0u8; 8], &body), &PROGRAM, &POOL).err(),
        Some(ErrorCode::AccountDiscriminatorMismatch)
    );
    assert_eq!(
        load_tick_array(account(1, DynamicTickArray::DISCRIMINATOR, &body), &PROGRAM, &[1u8; 32]).err(),
        Some(ErrorCode::DifferentPoolTickArrayAccount)
    );
    assert_eq!(
        load_tick_array(account(1, DynamicTickArray::DISCRIMINATOR, &body[..100]), &PROGRAM, &POOL).err(),
        Some(ErrorCode::AccountDidNotDeserialize)
    );
    let mut read_only = account(1, DynamicTickArray::DISCRIMINATOR, &body);
    read_only.is_writable = false;
    assert_eq!(load_tick_array_mut(read_only, &PROGRAM, &POOL).err(), Some(ErrorCode::AccountNotMutable));
}

#[test]
fn aliased_accounts_share_one_array() {
    let body = dynamic_array(0, 8).into_bytes();
    let lower = account(3, DynamicTickArray::DISCRIMINATOR, &body);
    let upper = account(3, DynamicTickArray::DISCRIMINATOR, &body);
    let mut arrays = TickArraysMut::load(lower, upper, &PROGRAM, &POOL).unwrap();
    assert!(arrays.upper_tick_array_ref.is_none());

    let mut pool = PoolState {
        tick_spacing: 8,
        tick_current: 100,
        sqrt_price_x64: 1 << 64,
        liquidity: 0,
        fee_growth_global_0_x64: 0,
        fee_growth_global_1_x64: 0,
    };
    let rewards = [RewardInfo { token_mint: [0; 32], reward_growth_global_x64: 0 }; 3];
    let (lower_ref, upper_ref) = arrays.get_mut_refs();
    assert!(upper_ref.is_none());
    let result = modify_position(500, &mut pool, &rewards, lower_ref, upper_ref, 16, 240, (11, 22)).unwrap();
    assert!(result.tick_lower_flipped && result.tick_upper_flipped);
    assert_eq!((result.amount_0, result.amount_1), (11, 22));
    assert_eq!(pool.liquidity, 500);
    let (lower_view, upper_view) = arrays.deref();
    assert_eq!(upper_view.get_tick(240, 8).unwrap().liquidity_net, -500);
    assert_eq!(lower_view.get_tick(240, 8).unwrap().liquidity_gross, 500);
    assert_eq!(lower_view.get_tick(16, 8).unwrap().liquidity_net, 500);
    assert_eq!(lower_view.initialized_tick_count(), 2);

    let (lower_ref, upper_ref) = arrays.get_mut_refs();
    let removed = modify_position(-500, &mut pool, &rewards, lower_ref, upper_ref, 16, 240, (1, 2)).unwrap();
    assert!(removed.tick_lower_flipped && removed.tick_upper_flipped);
    assert_eq!(pool.liquidity, 0);
    assert_eq!(arrays.deref().0.get_tick(240, 8), Ok(Tick::default()));
    assert_eq!(arrays.deref().0.initialized_tick_count(), 0);
}

#[test]
fn distinct_accounts_update_their_own_arrays() {
    let lower_body = dynamic_array(0, 8).into_bytes();
    let upper_body = FixedTickArray::load(fixed_bytes(480)).unwrap().into_bytes();
    let lower = account(1, DynamicTickArray::DISCRIMINATOR, &lower_body);
    let upper = account(2, FixedTickArray::DISCRIMINATOR, &upper_body);
    let mut arrays = TickArraysMut::load(lower, upper, &PROGRAM, &POOL).unwrap();
    assert!(arrays.upper_tick_array_ref.is_some());
    let mut pool = PoolState {
        tick_spacing: 8,
        tick_current: 600,
        sqrt_price_x64: 1 << 64,
        liquidity: 7,
        fee_growth_global_0_x64: 100,
        fee_growth_global_1_x64: 50,
    };
    let rewards = [
        RewardInfo { token_mint: [1; 32], reward_growth_global_x64: 40 },
        RewardInfo { token_mint: [0; 32], reward_growth_global_x64: 40 },
        RewardInfo { token_mint: [0; 32], reward_growth_global_x64: 0 },
    ];
    let (lower_ref, upper_ref) = arrays.get_mut_refs();
    let result = modify_position(10, &mut pool, &rewards, lower_ref, upper_ref, 8, 640, (3, 4)).unwrap();
    assert_eq!(pool.liquidity, 17);
    assert_eq!(result.fee_growth_inside_0_x64, 100);
    assert_eq!(result.reward_growths_inside, [40, 0, 0]);
    let (lower_view, upper_view) = arrays.deref();
    assert_eq!(lower_view.get_tick(8, 8).unwrap().liquidity_net, 10);
    assert_eq!(upper_view.get_tick(640, 8).unwrap().liquidity_net, -10);
    assert_eq!(lower_view.get_tick(640, 8), Err(ErrorCode::TickNotFound));
    let (lower_ref, upper_ref) = arrays.get_mut_refs();
    let err = modify_position(-11, &mut pool, &rewards, lower_ref, upper_ref, 8, 640, (0, 0));
    assert_eq!(err.err(), Some(ErrorCode::LiquiditySubValueErr));
}

#[test]
fn fee_growth_inside_by_position_of_current_tick() {
    // current tick inside the range: global - lower - upper
    assert_eq!(get_fee_growth_inside(-10, 10, 0, 100, 100, 10, 10, 20, 20), (70, 70));
    // current tick at or above the upper tick: upper - lower
    assert_eq!(get_fee_growth_inside(-10, 10, 10, 100, 100, 10, 10, 20, 20), (10, 10));
    // current tick below the lower tick: lower - upper
    assert_eq!(get_fee_growth_inside(-10, 10, -11, 100, 100, 30, 30, 20, 20), (10, 10));
    // wrap-around
    assert_eq!(get_fee_growth_inside(-10, 10, 0, 5, 5, 10, 0, 0, 0), (u128::MAX - 4, 5));
}

#[test]
fn reward_growth_inside_skips_empty_slots() {
    let infos = [
        RewardInfo { token_mint: [1; 32], reward_growth_global_x64: 100 },
        RewardInfo { token_mint: [0; 32], reward_growth_global_x64: 100 },
        RewardInfo { token_mint: [2; 32], reward_growth_global_x64: 60 },
    ];
    let inside = get_reward_growths_inside(0, 10, [10, 10, 10], [20, 20, 20], 5, &infos);
    assert_eq!(inside, [70, 0, 30]);
    assert!(!infos[1].initialized());
}

#[test]
fn add_delta_checks_both_bounds() {
    assert_eq!(add_delta(10, -10), Ok(0));
    assert_eq!(add_delta(10, -11), Err(ErrorCode::LiquiditySubValueErr));
    assert_eq!(add_delta(u128::MAX, 1), Err(ErrorCode::LiquidityAddValueErr));
    assert_eq!(add_delta(0, i128::MIN), Err(ErrorCode::LiquiditySubValueErr));
    assert_eq!(add_delta(u128::MAX, i128::MIN), Ok(u128::MAX - (1u128 << 127)));
}

#[test]
fn creation_kind_by_owner_and_tag() {
    let system = [0u8; 32];
    assert_eq!(get_or_create_tick_array_by_discriminator(&system, &system, &[]), Ok(TickArrayKind::Fixed));
    assert_eq!(
        get_or_create_tick_array_by_discriminator(&PROGRAM, &system, &[1, 2]),
        Err(ErrorCode::AccountDiscriminatorNotFound)
    );
    assert_eq!(
        get_or_create_tick_array_by_discriminator(&PROGRAM, &system, &DynamicTickArray::DISCRIMINATOR),
        Ok(TickArrayKind::Dynamic)
    );
    assert_eq!(
        get_or_create_tick_array_by_discriminator(&PROGRAM, &system, &FixedTickArray::DISCRIMINATOR),
        Ok(TickArrayKind::Fixed)
    );
}

#[test]
fn failed_updates_change_nothing() {
    let mut array = dynamic_array(0, 8);
    array.update_tick(16, 8, &update(true, 2)).unwrap();
    let before = array.as_bytes().to_vec();
    assert_eq!(array.update_tick(12, 8, &update(true, 3)), Err(ErrorCode::TickNotFound));
    assert_eq!(array.clear_tick(480, 8), Err(ErrorCode::TickNotFound));
    assert_eq!(array.as_bytes(), &before[..]);

    let body = dynamic_array(0, 8).into_bytes();
    let mut arrays = TickArraysMut::load(
        account(4, DynamicTickArray::DISCRIMINATOR, &body),
        account(4, DynamicTickArray::DISCRIMINATOR, &body),
        &PROGRAM,
        &POOL,
    )
    .unwrap();
    let mut pool = PoolState {
        tick_spacing: 8,
        tick_current: 0,
        sqrt_price_x64: 1 << 64,
        liquidity: 3,
        fee_growth_global_0_x64: 0,
        fee_growth_global_1_x64: 0,
    };
    let rewards = [RewardInfo { token_mint: [0; 32], reward_growth_global_x64: 0 }; 3];
    let (lower_ref, upper_ref) = arrays.get_mut_refs();
    let err = modify_position(5, &mut pool, &rewards, lower_ref, upper_ref, 16, 480, (0, 0));
    assert_eq!(err.err(), Some(ErrorCode::TickNotFound));
    assert_eq!(pool.liquidity, 3);
    assert_eq!(arrays.deref().0.as_bytes(), &body[..]);
}

#[test]
fn liquidity_overflow_names_its_error() {
    let body = dynamic_array(0, 8).into_bytes();
    let mut arrays = TickArraysMut::load(
        account(5, DynamicTickArray::DISCRIMINATOR, &body),
        account(5, DynamicTickArray::DISCRIMINATOR, &body),
        &PROGRAM,
        &POOL,
    )
    .unwrap();
    let mut pool = PoolState {
        tick_spacing: 8,
        tick_current: 20,
        sqrt_price_x64: 1 << 64,
        liquidity: u128::MAX,
        fee_growth_global_0_x64: 0,
        fee_growth_global_1_x64: 0,
    };
    let rewards = [RewardInfo { token_mint: [0; 32], reward_growth_global_x64: 0 }; 3];
    let (lower_ref, upper_ref) = arrays.get_mut_refs();
    let err = modify_position(1, &mut pool, &rewards, lower_ref, upper_ref, 16, 32, (0, 0));
    assert_eq!(err.err(), Some(ErrorCode::LiquidityAddValueErr));
    let mut fresh = TickArraysMut::load(
        account(5, DynamicTickArray::DISCRIMINATOR, &body),
        account(5, DynamicTickArray::DISCRIMINATOR, &body),
        &PROGRAM,
        &POOL,
    )
    .unwrap();
    let (lower_ref, upper_ref) = fresh.get_mut_refs();
    let err = modify_position(-1, &mut pool, &rewards, lower_ref, upper_ref, 16, 32, (0, 0));
    assert_eq!(err.err(), Some(ErrorCode::LiquiditySubValueErr));
}

#[test]
fn usable_tick_at_zero_spacing_out_of_range() {
    assert!(!Tick::check_is_usable_tick(clmm::tick::MAX_TICK + 1, 0));
}
