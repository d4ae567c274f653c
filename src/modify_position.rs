use vstd::prelude::*;
use vstd::arithmetic::div_mod::lemma_fundamental_div_mod;

use crate::error::ErrorCode;
use crate::tick::{empty_tick, tick_of_update, Tick, TickUpdate, REWARD_NUM};
use crate::tick_array::{
    get_fee_growth_inside, get_reward_growths_inside, growth_inside, holds_tick, offset_of,
    lemma_holds_tick_offset, outside_within_global, reward_initialized, RewardInfo,
    TickArrayType,
};

verus! {

/// The pool state that a position update reads and changes.
#[derive(Clone, Copy, Debug, PartialEq, Eq)]
pub struct PoolState {
    pub tick_spacing: u16,
    pub tick_current: i32,
    pub sqrt_price_x64: u128,
    /// Liquidity of the positions whose range holds the current tick.
    pub liquidity: u128,
    /// Q64.64
    pub fee_growth_global_0_x64: u128,
    /// Q64.64
    pub fee_growth_global_1_x64: u128,
}

/// What applying a liquidity change to a position yields.
#[derive(Clone, Copy, Debug, PartialEq, Eq)]
pub struct LiquidityChangeResult {
    pub amount_0: u64,
    pub amount_1: u64,
    pub amount_0_transfer_fee: u64,
    pub amount_1_transfer_fee: u64,
    pub tick_lower_flipped: bool,
    pub tick_upper_flipped: bool,
    pub fee_growth_inside_0_x64: u128,
    pub fee_growth_inside_1_x64: u128,
    pub reward_growths_inside: [u128; REWARD_NUM],
}

/// Whether `x + y` stays within `u128`.
pub open spec fn delta_fits(x: u128, y: i128) -> bool {
    0 <= x + y <= u128::MAX
}

/// Adds a signed liquidity change to an amount of liquidity; fails with
/// `LiquiditySubValueErr` below zero and `LiquidityAddValueErr` above `u128::MAX`.
pub fn add_delta(x: u128, y: i128) -> (r: Result<u128, ErrorCode>)
    ensures
        r == if x + y < 0 {
            Err::<u128, ErrorCode>(ErrorCode::LiquiditySubValueErr)
        } else if x + y > u128::MAX {
            Err::<u128, ErrorCode>(ErrorCode::LiquidityAddValueErr)
        } else {
            Ok((x + y) as u128)
        },
{
    if y < 0 {
        let magnitude: u128 = (-(y + 1)) as u128 + 1;
        if magnitude > x {
            Err(ErrorCode::LiquiditySubValueErr)
        } else {
            Ok(x - magnitude)
        }
    } else {
        let magnitude: u128 = y as u128;
        match x.checked_add(magnitude) {
            Some(z) => Ok(z),
            None => Err(ErrorCode::LiquidityAddValueErr),
        }
    }
}

/// The update that a liquidity change makes to a position's boundary tick: gross
/// liquidity grows by the change, net liquidity grows by it at the lower tick and shrinks
/// by it at the upper one, the tick is initialized while its gross liquidity is not zero,
/// and the outside values stay.
pub open spec fn tick_update_for(t: Tick, delta: int, is_upper: bool) -> TickUpdate {
    TickUpdate {
        initialized: t.liquidity_gross + delta != 0,
        liquidity_net: (if is_upper {
            t.liquidity_net - delta
        } else {
            t.liquidity_net + delta
        }) as i128,
        liquidity_gross: (t.liquidity_gross + delta) as u128,
        fee_growth_outside_0_x64: t.fee_growth_outside_0_x64,
        fee_growth_outside_1_x64: t.fee_growth_outside_1_x64,
        reward_growths_outside: t.reward_growths_outside,
    }
}

/// Whether a liquidity change flips the tick between referenced and not: its gross
/// liquidity goes from zero to nonzero or back.
pub open spec fn flips(t: Tick, delta: int) -> bool {
    delta != 0 && (t.liquidity_gross == 0) != (t.liquidity_gross + delta == 0)
}

/// A tick is initialized exactly while positions reference it, that is while its gross
/// liquidity is not zero.
pub open spec fn tick_consistent(t: Tick) -> bool {
    t.initialized == (t.liquidity_gross != 0)
}

/// The tick after the change: untouched for a zero change, the all-zero tick when the
/// change leaves no gross liquidity (a removal that flips it, so it is cleared), else the
/// tick that carries the new gross and net liquidity and the old outside values.
pub open spec fn tick_after(t: Tick, delta: int, is_upper: bool) -> Tick {
    if delta == 0 {
        t
    } else if t.liquidity_gross + delta == 0 {
        empty_tick()
    } else {
        tick_of_update(tick_update_for(t, delta, is_upper))
    }
}

/// The tick of array `a` at `tick_index`.
pub open spec fn tick_of<T: TickArrayType>(a: T, tick_index: int, s: int) -> Tick {
    a.spec_ticks()[offset_of(a.spec_start_tick_index(), tick_index, s)]
}

/// The offset of `tick_index` in array `a`.
pub open spec fn offset_in<T: TickArrayType>(a: T, tick_index: int, s: int) -> int {
    offset_of(a.spec_start_tick_index(), tick_index, s)
}

/// Two distinct usable ticks fall on distinct offsets of an array.
proof fn lemma_offsets_differ(start: int, lo: int, up: int, s: int)
    requires
        0 < s,
        lo < up,
        lo % s == 0,
        up % s == 0,
    ensures
        offset_of(start, lo, s) < offset_of(start, up, s),
{
    lemma_fundamental_div_mod(lo, s);
    lemma_fundamental_div_mod(up, s);
    let a = lo - start;
    let b = up - start;
    lemma_fundamental_div_mod(a, s);
    lemma_fundamental_div_mod(b, s);
    assert(up - lo >= s) by (nonlinear_arith)
        requires
            0 < s,
            lo < up,
            lo == s * (lo / s),
            up == s * (up / s),
    ;
    assert(a / s < b / s) by (nonlinear_arith)
        requires
            0 < s,
            b >= a + s,
            a == s * (a / s) + a % s,
            b == s * (b / s) + b % s,
            0 <= a % s < s,
            0 <= b % s < s,
    ;
}

/// Applies a liquidity change to one boundary tick; returns whether the tick flipped.
fn apply_delta<T: TickArrayType>(
    tick_array: &mut T,
    tick_index: i32,
    tick_spacing: u16,
    tick: &Tick,
    liquidity_delta: i128,
    is_upper: bool,
) -> (r: Result<bool, ErrorCode>)
    requires
        old(tick_array).wf(),
        holds_tick(old(tick_array).spec_start_tick_index(), tick_index as int, tick_spacing as int),
        *tick == tick_of(*old(tick_array), tick_index as int, tick_spacing as int),
        i128::MIN <= (if is_upper {
            tick.liquidity_net - liquidity_delta
        } else {
            tick.liquidity_net + liquidity_delta
        }) <= i128::MAX,
    ensures
        final(tick_array).wf(),
        final(tick_array).spec_start_tick_index() == old(tick_array).spec_start_tick_index(),
        final(tick_array).spec_pool() == old(tick_array).spec_pool(),
        forall|u: TickUpdate| #[trigger] final(tick_array).stored_tick(u) == old(
            tick_array,
        ).stored_tick(u),
        delta_fits(tick.liquidity_gross, liquidity_delta) ==> {
            &&& r == Ok::<bool, ErrorCode>(
                tick.initialized != (tick.liquidity_gross + liquidity_delta != 0),
            )
            &&& final(tick_array).spec_ticks() == old(tick_array).spec_ticks().update(
                offset_in(*old(tick_array), tick_index as int, tick_spacing as int),
                old(tick_array).stored_tick(
                    tick_update_for(*tick, liquidity_delta as int, is_upper),
                ),
            )
        },
        delta_fits(tick.liquidity_gross, liquidity_delta) && tick.liquidity_gross + liquidity_delta
            != 0 ==> old(tick_array).stored_tick(
            tick_update_for(*tick, liquidity_delta as int, is_upper),
        ) == tick_of_update(tick_update_for(*tick, liquidity_delta as int, is_upper)),
        !delta_fits(tick.liquidity_gross, liquidity_delta) ==> r == Err::<bool, ErrorCode>(
            delta_error(tick.liquidity_gross, liquidity_delta),
        ),
{
    let liquidity_gross_after = match add_delta(tick.liquidity_gross, liquidity_delta) {
        Ok(v) => v,
        Err(e) => return Err(e),
    };
    let liquidity_net_after = if is_upper {
        tick.liquidity_net - liquidity_delta
    } else {
        tick.liquidity_net + liquidity_delta
    };
    let update = TickUpdate {
        initialized: liquidity_gross_after != 0,
        liquidity_net: liquidity_net_after,
        liquidity_gross: liquidity_gross_after,
        fee_growth_outside_0_x64: tick.fee_growth_outside_0_x64,
        fee_growth_outside_1_x64: tick.fee_growth_outside_1_x64,
        reward_growths_outside: tick.reward_growths_outside,
    };
    tick_array.update_tick(tick_index, tick_spacing, &update)
}

/// The error that `add_delta(x, y)` reports when the sum leaves `u128`.
pub open spec fn delta_error(x: u128, y: i128) -> ErrorCode {
    if x + y < 0 {
        ErrorCode::LiquiditySubValueErr
    } else {
        ErrorCode::LiquidityAddValueErr
    }
}

/// The error that `modify_position` returns on these inputs, if any, the first check to
/// fail deciding: a boundary tick outside its array, then the lower tick's gross
/// liquidity, the upper tick's, and the pool's active liquidity leaving `u128`.
pub open spec fn position_change_error(
    pool: PoolState,
    lower_holds: bool,
    upper_holds: bool,
    tick_lower: Tick,
    tick_upper: Tick,
    tick_lower_index: int,
    tick_upper_index: int,
    liquidity_delta: i128,
) -> Option<ErrorCode> {
    if !lower_holds || !upper_holds {
        Some(ErrorCode::TickNotFound)
    } else if liquidity_delta != 0 && !delta_fits(tick_lower.liquidity_gross, liquidity_delta) {
        Some(delta_error(tick_lower.liquidity_gross, liquidity_delta))
    } else if liquidity_delta != 0 && !delta_fits(tick_upper.liquidity_gross, liquidity_delta) {
        Some(delta_error(tick_upper.liquidity_gross, liquidity_delta))
    } else if liquidity_delta != 0 && tick_lower_index <= pool.tick_current < tick_upper_index
        && !delta_fits(pool.liquidity, liquidity_delta) {
        Some(delta_error(pool.liquidity, liquidity_delta))
    } else {
        None
    }
}

/// Applies a liquidity change to the position `[tick_lower_index, tick_upper_index)`.
///
/// Reads both boundary ticks, updates their liquidity when the change is not zero (both
/// in the lower array when no upper array is given), computes the fee and reward growth
/// inside the range from the outside values read before the update, clears a boundary
/// tick that a removal leaves uninitialized, and adds the change to the pool's active
/// liquidity when the current tick lies in the range. `updated_reward_infos` holds the
/// pool's rewards brought up to the time of the change; `delta_amounts` the token
/// amounts that the change moves over the range.
pub fn modify_position<T: TickArrayType>(
    liquidity_delta: i128,
    pool_state: &mut PoolState,
    updated_reward_infos: &[RewardInfo; REWARD_NUM],
    tick_lower_array: &mut T,
    tick_upper_array: Option<&mut T>,
    tick_lower_index: i32,
    tick_upper_index: i32,
    delta_amounts: (u64, u64),
) -> (r: Result<LiquidityChangeResult, ErrorCode>)
    requires
        old(tick_lower_array).wf(),
        tick_upper_array is Some ==> tick_upper_array->Some_0.wf(),
        tick_lower_index < tick_upper_index,
        ({
            let s = old(pool_state).tick_spacing as int;
            let lower_array = *old(tick_lower_array);
            let upper_array = match tick_upper_array {
                Some(u) => *u,
                None => *old(tick_lower_array),
            };
            let tl = tick_of(lower_array, tick_lower_index as int, s);
            let tu = tick_of(upper_array, tick_upper_index as int, s);
            let current = old(pool_state).tick_current as int;
            holds_tick(lower_array.spec_start_tick_index(), tick_lower_index as int, s) && holds_tick(
                upper_array.spec_start_tick_index(),
                tick_upper_index as int,
                s,
            ) ==> {
                &&& tick_consistent(tl)
                &&& tick_consistent(tu)
                &&& i128::MIN <= tl.liquidity_net + liquidity_delta <= i128::MAX
                &&& i128::MIN <= tu.liquidity_net - liquidity_delta <= i128::MAX
                &&& outside_within_global(
                    tick_lower_index as int,
                    tick_upper_index as int,
                    current,
                    old(pool_state).fee_growth_global_0_x64,
                    tl.fee_growth_outside_0_x64,
                    tu.fee_growth_outside_0_x64,
                )
                &&& outside_within_global(
                    tick_lower_index as int,
                    tick_upper_index as int,
                    current,
                    old(pool_state).fee_growth_global_1_x64,
                    tl.fee_growth_outside_1_x64,
                    tu.fee_growth_outside_1_x64,
                )
                &&& forall|i: int|
                    0 <= i < REWARD_NUM && reward_initialized(#[trigger] updated_reward_infos@[i])
                        ==> outside_within_global(
                        tick_lower_index as int,
                        tick_upper_index as int,
                        current,
                        updated_reward_infos@[i].reward_growth_global_x64,
                        tl.reward_growths_outside@[i],
                        tu.reward_growths_outside@[i],
                    )
            }
        }),
    ensures
        ({
            let s = old(pool_state).tick_spacing as int;
            let lower_array = *old(tick_lower_array);
            let upper_array = match tick_upper_array {
                Some(u) => *u,
                None => *old(tick_lower_array),
            };
            let lower_holds = holds_tick(
                lower_array.spec_start_tick_index(),
                tick_lower_index as int,
                s,
            );
            let upper_holds = holds_tick(
                upper_array.spec_start_tick_index(),
                tick_upper_index as int,
                s,
            );
            let tl = tick_of(lower_array, tick_lower_index as int, s);
            let tu = tick_of(upper_array, tick_upper_index as int, s);
            let current = old(pool_state).tick_current as int;
            let d = liquidity_delta as int;
            let ol = offset_in(lower_array, tick_lower_index as int, s);
            let ou = offset_in(upper_array, tick_upper_index as int, s);
            let new_lower = tick_after(tl, d, false);
            let new_upper = tick_after(tu, d, true);
            &&& match r {
                Ok(_) => position_change_error(
                    *old(pool_state),
                    lower_holds,
                    upper_holds,
                    tl,
                    tu,
                    tick_lower_index as int,
                    tick_upper_index as int,
                    liquidity_delta,
                ) is None,
                Err(e) => position_change_error(
                    *old(pool_state),
                    lower_holds,
                    upper_holds,
                    tl,
                    tu,
                    tick_lower_index as int,
                    tick_upper_index as int,
                    liquidity_delta,
                ) == Some(e),
            }
            &&& !lower_holds || !upper_holds ==> {
                &&& r == Err::<LiquidityChangeResult, ErrorCode>(ErrorCode::TickNotFound)
                &&& *final(tick_lower_array) == lower_array
                &&& *final(pool_state) == *old(pool_state)
                &&& tick_upper_array is Some ==> *final(tick_upper_array->Some_0) == upper_array
            }
            &&& r is Ok ==> {
                let res = r->Ok_0;
                &&& res.fee_growth_inside_0_x64 == growth_inside(
                    tick_lower_index as int,
                    tick_upper_index as int,
                    current,
                    old(pool_state).fee_growth_global_0_x64,
                    tl.fee_growth_outside_0_x64,
                    tu.fee_growth_outside_0_x64,
                )
                &&& res.fee_growth_inside_1_x64 == growth_inside(
                    tick_lower_index as int,
                    tick_upper_index as int,
                    current,
                    old(pool_state).fee_growth_global_1_x64,
                    tl.fee_growth_outside_1_x64,
                    tu.fee_growth_outside_1_x64,
                )
                &&& forall|i: int|
                    0 <= i < REWARD_NUM ==> #[trigger] res.reward_growths_inside@[i]
                        == if reward_initialized(updated_reward_infos@[i]) {
                        growth_inside(
                            tick_lower_index as int,
                            tick_upper_index as int,
                            current,
                            updated_reward_infos@[i].reward_growth_global_x64,
                            tl.reward_growths_outside@[i],
                            tu.reward_growths_outside@[i],
                        )
                    } else {
                        0u128
                    }
                &&& res.tick_lower_flipped == flips(tl, d)
                &&& res.tick_upper_flipped == flips(tu, d)
                &&& res.amount_0 == (if d != 0 {
                    delta_amounts.0
                } else {
                    0
                })
                &&& res.amount_1 == (if d != 0 {
                    delta_amounts.1
                } else {
                    0
                })
                &&& res.amount_0_transfer_fee == 0
                &&& res.amount_1_transfer_fee == 0
                &&& final(pool_state).liquidity == if d != 0 && tick_lower_index <= current
                    < tick_upper_index {
                    (old(pool_state).liquidity + d) as u128
                } else {
                    old(pool_state).liquidity
                }
                &&& final(pool_state).tick_current == old(pool_state).tick_current
                &&& final(pool_state).tick_spacing == old(pool_state).tick_spacing
                &&& final(pool_state).fee_growth_global_0_x64 == old(
                    pool_state,
                ).fee_growth_global_0_x64
                &&& final(pool_state).fee_growth_global_1_x64 == old(
                    pool_state,
                ).fee_growth_global_1_x64
                &&& final(pool_state).sqrt_price_x64 == old(pool_state).sqrt_price_x64
                &&& final(tick_lower_array).wf()
                &&& final(tick_lower_array).spec_start_tick_index()
                    == lower_array.spec_start_tick_index()
                &&& final(tick_lower_array).spec_pool() == lower_array.spec_pool()
                &&& tick_upper_array is Some ==> {
                    &&& final(tick_upper_array->Some_0).spec_start_tick_index()
                        == upper_array.spec_start_tick_index()
                    &&& final(tick_upper_array->Some_0).spec_pool() == upper_array.spec_pool()
                }
                &&& match tick_upper_array {
                    None => final(tick_lower_array).spec_ticks() == lower_array.spec_ticks().update(
                        ol,
                        new_lower,
                    ).update(ou, new_upper),
                    Some(u) => {
                        &&& final(tick_lower_array).spec_ticks()
                            == lower_array.spec_ticks().update(ol, new_lower)
                        &&& final(u).wf()
                        &&& final(u).spec_ticks() == upper_array.spec_ticks().update(
                            ou,
                            new_upper,
                        )
                    },
                }
            }
        }),
{
    let tick_spacing = pool_state.tick_spacing;
    let ghost s = tick_spacing as int;
    let ghost lower0 = *tick_lower_array;
    let tick_lower = match tick_lower_array.get_tick(tick_lower_index, tick_spacing) {
        Ok(t) => t,
        Err(e) => return Err(e),
    };
    let tick_upper = match &tick_upper_array {
        None => match tick_lower_array.get_tick(tick_upper_index, tick_spacing) {
            Ok(t) => t,
            Err(e) => return Err(e),
        },
        Some(upper_array) => match upper_array.get_tick(tick_upper_index, tick_spacing) {
            Ok(t) => t,
            Err(e) => return Err(e),
        },
    };

    // inside growths from the outside values read before any update or clearing
    let (fee_growth_inside_0_x64, fee_growth_inside_1_x64) = get_fee_growth_inside(
        tick_lower_index,
        tick_upper_index,
        pool_state.tick_current,
        pool_state.fee_growth_global_0_x64,
        pool_state.fee_growth_global_1_x64,
        tick_lower.fee_growth_outside_0_x64,
        tick_lower.fee_growth_outside_1_x64,
        tick_upper.fee_growth_outside_0_x64,
        tick_upper.fee_growth_outside_1_x64,
    );
    let reward_growths_inside = get_reward_growths_inside(
        tick_lower_index,
        tick_upper_index,
        tick_lower.reward_growths_outside,
        tick_upper.reward_growths_outside,
        pool_state.tick_current,
        updated_reward_infos,
    );

    let mut flipped_lower = false;
    let mut flipped_upper = false;
    if liquidity_delta != 0 {
        flipped_lower = match apply_delta(
            tick_lower_array,
            tick_lower_index,
            tick_spacing,
            &tick_lower,
            liquidity_delta,
            false,
        ) {
            Ok(f) => f,
            Err(e) => return Err(e),
        };
    }
    match tick_upper_array {
        None => {
            // both ticks live in the lower array
            proof {
                lemma_holds_tick_offset(lower0.spec_start_tick_index(), tick_lower_index as int, s);
                lemma_holds_tick_offset(lower0.spec_start_tick_index(), tick_upper_index as int, s);
                lemma_offsets_differ(
                    lower0.spec_start_tick_index(),
                    tick_lower_index as int,
                    tick_upper_index as int,
                    s,
                );
            }
            if liquidity_delta != 0 {
                flipped_upper = match apply_delta(
                    tick_lower_array,
                    tick_upper_index,
                    tick_spacing,
                    &tick_upper,
                    liquidity_delta,
                    true,
                ) {
                    Ok(f) => f,
                    Err(e) => return Err(e),
                };
            }
            if liquidity_delta < 0 {
                if flipped_lower {
                    let _ = tick_lower_array.clear_tick(tick_lower_index, tick_spacing);
                }
                if flipped_upper {
                    let _ = tick_lower_array.clear_tick(tick_upper_index, tick_spacing);
                }
            }
            proof {
                let d = liquidity_delta as int;
                let ol = offset_in(lower0, tick_lower_index as int, s);
                let ou = offset_in(lower0, tick_upper_index as int, s);
                assert(tick_lower_array.spec_ticks() =~= lower0.spec_ticks().update(
                    ol,
                    tick_after(tick_lower, d, false),
                ).update(ou, tick_after(tick_upper, d, true)));
            }
        },
        Some(upper_array) => {
            let ghost upper0 = *upper_array;
            proof {
                lemma_holds_tick_offset(lower0.spec_start_tick_index(), tick_lower_index as int, s);
                lemma_holds_tick_offset(upper0.spec_start_tick_index(), tick_upper_index as int, s);
            }
            if liquidity_delta != 0 {
                flipped_upper = match apply_delta(
                    upper_array,
                    tick_upper_index,
                    tick_spacing,
                    &tick_upper,
                    liquidity_delta,
                    true,
                ) {
                    Ok(f) => f,
                    Err(e) => return Err(e),
                };
            }
            if liquidity_delta < 0 {
                if flipped_lower {
                    let _ = tick_lower_array.clear_tick(tick_lower_index, tick_spacing);
                }
                if flipped_upper {
                    let _ = upper_array.clear_tick(tick_upper_index, tick_spacing);
                }
            }
            proof {
                let d = liquidity_delta as int;
                let ol = offset_in(lower0, tick_lower_index as int, s);
                let ou = offset_in(upper0, tick_upper_index as int, s);
                assert(tick_lower_array.spec_ticks() =~= lower0.spec_ticks().update(
                    ol,
                    tick_after(tick_lower, d, false),
                ));
                assert(upper_array.spec_ticks() =~= upper0.spec_ticks().update(
                    ou,
                    tick_after(tick_upper, d, true),
                ));
            }
        },
    }

    let mut amount_0: u64 = 0;
    let mut amount_1: u64 = 0;
    if liquidity_delta != 0 {
        amount_0 = delta_amounts.0;
        amount_1 = delta_amounts.1;
        if pool_state.tick_current >= tick_lower_index && pool_state.tick_current
            < tick_upper_index {
            pool_state.liquidity = match add_delta(pool_state.liquidity, liquidity_delta) {
                Ok(v) => v,
                Err(e) => return Err(e),
            };
        }
    }

    Ok(
        LiquidityChangeResult {
            amount_0,
            amount_1,
            amount_0_transfer_fee: 0,
            amount_1_transfer_fee: 0,
            tick_lower_flipped: flipped_lower,
            tick_upper_flipped: flipped_upper,
            fee_growth_inside_0_x64,
            fee_growth_inside_1_x64,
            reward_growths_inside,
        },
    )
}

} // verus!
