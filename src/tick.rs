use vstd::prelude::*;
use vstd::arithmetic::div_mod::{
    lemma_fundamental_div_mod, lemma_fundamental_div_mod_converse, lemma_mod_multiples_basic,
};

use crate::tick_array::TICK_ARRAY_SIZE;

verus! {

/// Lowest tick index that the protocol supports.
pub const MIN_TICK: i32 = -443636;

/// Highest tick index that the protocol supports.
pub const MAX_TICK: i32 = 443636;

/// Number of reward tokens a pool can carry.
pub const REWARD_NUM: usize = 3;

/// The liquidity and fee/reward accounting of one price tick.
#[derive(Clone, Copy, Debug, PartialEq, Eq)]
pub struct Tick {
    pub initialized: bool,
    pub liquidity_net: i128,
    pub liquidity_gross: u128,
    /// Q64.64
    pub fee_growth_outside_0_x64: u128,
    /// Q64.64
    pub fee_growth_outside_1_x64: u128,
    /// Q64.64 per reward token
    pub reward_growths_outside: [u128; REWARD_NUM],
}

/// A proposed new state for one tick.
#[derive(Clone, Copy, Debug, PartialEq, Eq)]
pub struct TickUpdate {
    pub initialized: bool,
    pub liquidity_net: i128,
    pub liquidity_gross: u128,
    pub fee_growth_outside_0_x64: u128,
    pub fee_growth_outside_1_x64: u128,
    pub reward_growths_outside: [u128; REWARD_NUM],
}

/// The tick with all fields taken from `u`.
pub open spec fn tick_of_update(u: TickUpdate) -> Tick {
    Tick {
        initialized: u.initialized,
        liquidity_net: u.liquidity_net,
        liquidity_gross: u.liquidity_gross,
        fee_growth_outside_0_x64: u.fee_growth_outside_0_x64,
        fee_growth_outside_1_x64: u.fee_growth_outside_1_x64,
        reward_growths_outside: u.reward_growths_outside,
    }
}

/// The update that carries every field of `t`.
pub open spec fn update_of_tick(t: Tick) -> TickUpdate {
    TickUpdate {
        initialized: t.initialized,
        liquidity_net: t.liquidity_net,
        liquidity_gross: t.liquidity_gross,
        fee_growth_outside_0_x64: t.fee_growth_outside_0_x64,
        fee_growth_outside_1_x64: t.fee_growth_outside_1_x64,
        reward_growths_outside: t.reward_growths_outside,
    }
}

/// The tick that an uninitialized slot stands for: every field zero.
pub open spec fn empty_tick() -> Tick {
    Tick {
        initialized: false,
        liquidity_net: 0,
        liquidity_gross: 0,
        fee_growth_outside_0_x64: 0,
        fee_growth_outside_1_x64: 0,
        reward_growths_outside: [0u128, 0u128, 0u128],
    }
}

/// The update that clears a tick.
pub open spec fn empty_update() -> TickUpdate {
    update_of_tick(empty_tick())
}

/// Whether `t` lies in the protocol's tick range.
pub open spec fn in_tick_range(t: int) -> bool {
    MIN_TICK <= t <= MAX_TICK
}

/// Number of tick indexes that one array spans at spacing `s`.
pub open spec fn array_span(s: int) -> int {
    TICK_ARRAY_SIZE * s
}

/// Start of the lowest array that still covers `MIN_TICK`: `MIN_TICK` rounded down
/// (towards negative infinity) to a multiple of the array span.
pub open spec fn min_array_start_index(s: int) -> int {
    (MIN_TICK as int / array_span(s)) * array_span(s)
}

/// Whether `t` may anchor an array at spacing `s`.
pub open spec fn is_valid_start_tick(t: int, s: int) -> bool {
    if in_tick_range(t) {
        t % array_span(s) == 0
    } else {
        t == min_array_start_index(s)
    }
}

/// Whether `t` is an in-range tick usable at spacing `s`.
pub open spec fn is_usable_tick(t: int, s: int) -> bool {
    in_tick_range(t) && t % s == 0
}

/// `x / s` rounded towards zero.
pub open spec fn trunc_div(x: int, s: int) -> int {
    if x >= 0 {
        x / s
    } else {
        -((-x) / s)
    }
}

impl Default for Tick {
    fn default() -> (r: Tick)
        ensures
            r == empty_tick(),
    {
        Tick {
            initialized: false,
            liquidity_net: 0,
            liquidity_gross: 0,
            fee_growth_outside_0_x64: 0,
            fee_growth_outside_1_x64: 0,
            reward_growths_outside: [0u128, 0u128, 0u128],
        }
    }
}

impl Default for TickUpdate {
    fn default() -> (r: TickUpdate)
        ensures
            r == empty_update(),
    {
        TickUpdate {
            initialized: false,
            liquidity_net: 0,
            liquidity_gross: 0,
            fee_growth_outside_0_x64: 0,
            fee_growth_outside_1_x64: 0,
            reward_growths_outside: [0u128, 0u128, 0u128],
        }
    }
}

impl From<TickUpdate> for Tick {
    fn from(update: TickUpdate) -> (r: Tick)
        ensures
            r == tick_of_update(update),
    {
        Tick {
            initialized: update.initialized,
            liquidity_net: update.liquidity_net,
            liquidity_gross: update.liquidity_gross,
            fee_growth_outside_0_x64: update.fee_growth_outside_0_x64,
            fee_growth_outside_1_x64: update.fee_growth_outside_1_x64,
            reward_growths_outside: update.reward_growths_outside,
        }
    }
}

impl vstd::std_specs::convert::FromSpecImpl<TickUpdate> for Tick {
    open spec fn obeys_from_spec() -> bool {
        true
    }

    open spec fn from_spec(update: TickUpdate) -> Tick {
        tick_of_update(update)
    }
}

impl From<Tick> for TickUpdate {
    fn from(tick: Tick) -> (r: TickUpdate)
        ensures
            r == update_of_tick(tick),
    {
        TickUpdate {
            initialized: tick.initialized,
            liquidity_net: tick.liquidity_net,
            liquidity_gross: tick.liquidity_gross,
            fee_growth_outside_0_x64: tick.fee_growth_outside_0_x64,
            fee_growth_outside_1_x64: tick.fee_growth_outside_1_x64,
            reward_growths_outside: tick.reward_growths_outside,
        }
    }
}

impl vstd::std_specs::convert::FromSpecImpl<Tick> for TickUpdate {
    open spec fn obeys_from_spec() -> bool {
        true
    }

    open spec fn from_spec(tick: Tick) -> TickUpdate {
        update_of_tick(tick)
    }
}

impl Tick {
    /// Size of the fixed record in bytes.
    pub const LEN: usize = 113;

    /// Overwrites every field of this tick from `update`.
    pub fn update(&mut self, update: &TickUpdate)
        ensures
            *final(self) == tick_of_update(*update),
    {
        self.initialized = update.initialized;
        self.liquidity_net = update.liquidity_net;
        self.liquidity_gross = update.liquidity_gross;
        self.fee_growth_outside_0_x64 = update.fee_growth_outside_0_x64;
        self.fee_growth_outside_1_x64 = update.fee_growth_outside_1_x64;
        self.reward_growths_outside = update.reward_growths_outside;
    }

    /// Whether `tick_index` lies outside `[MIN_TICK, MAX_TICK]`.
    pub fn check_is_out_of_bounds(tick_index: i32) -> (r: bool)
        ensures
            r == !in_tick_range(tick_index as int),
    {
        tick_index < MIN_TICK || tick_index > MAX_TICK
    }

    /// Whether `tick_index` is a valid start index for an array at `tick_spacing`: a multiple
    /// of the array span inside the tick range, or the start of the lowest array that covers
    /// `MIN_TICK`.
    pub fn check_is_valid_start_tick(tick_index: i32, tick_spacing: u16) -> (r: bool)
        requires
            tick_spacing > 0,
        ensures
            r == is_valid_start_tick(tick_index as int, tick_spacing as int),
    {
        let ticks_in_array: i32 = TICK_ARRAY_SIZE * tick_spacing as i32;

        proof {
            lemma_min_array_start_index(tick_spacing as int);
            lemma_trunc_rem_zero(tick_index as int, ticks_in_array as int);
        }
        if Tick::check_is_out_of_bounds(tick_index) {
            // the left-edge array may start below the minimum tick
            if tick_index > MIN_TICK {
                return false;
            }
            let min_array_start_index: i32 = MIN_TICK - (MIN_TICK % ticks_in_array
                + ticks_in_array);
            return tick_index == min_array_start_index;
        }
        tick_index % ticks_in_array == 0
    }

    /// Whether `tick_index` is in range and a multiple of `tick_spacing`.
    pub fn check_is_usable_tick(tick_index: i32, tick_spacing: u16) -> (r: bool)
        requires
            tick_spacing > 0 || !in_tick_range(tick_index as int),
        ensures
            r == is_usable_tick(tick_index as int, tick_spacing as int),
    {
        if Tick::check_is_out_of_bounds(tick_index) {
            return false;
        }
        proof {
            lemma_trunc_rem_zero(tick_index as int, tick_spacing as int);
        }
        tick_index % tick_spacing as i32 == 0
    }

    /// The widest usable `(lower, upper)` pair at `tick_spacing`: both bounds divided by the
    /// spacing with truncation and multiplied back.
    pub fn full_range_indexes(tick_spacing: u16) -> (r: (i32, i32))
        requires
            tick_spacing > 0,
        ensures
            r.0 == trunc_div(MIN_TICK as int, tick_spacing as int) * tick_spacing,
            r.1 == trunc_div(MAX_TICK as int, tick_spacing as int) * tick_spacing,
    {
        let s: i32 = tick_spacing as i32;
        proof {
            lemma_trunc_div_bounds(443636, s as int);
        }
        let lower_index: i32 = MIN_TICK / s * s;
        let upper_index: i32 = MAX_TICK / s * s;
        (lower_index, upper_index)
    }

    /// `tick_index` clamped to `[MIN_TICK, MAX_TICK]`.
    pub fn bound_tick_index(tick_index: i32) -> (r: i32)
        ensures
            r == if tick_index < MIN_TICK {
                MIN_TICK
            } else if tick_index > MAX_TICK {
                MAX_TICK
            } else {
                tick_index
            },
    {
        if tick_index < MIN_TICK {
            MIN_TICK
        } else if tick_index > MAX_TICK {
            MAX_TICK
        } else {
            tick_index
        }
    }
}

/// The code's form of the lowest array start, `MIN_TICK - (MIN_TICK rem k + k)` with a
/// truncating remainder, equals `MIN_TICK` rounded down to a multiple of `k`: `MIN_TICK`
/// is never a multiple of an array span, as it is not a multiple of three.
proof fn lemma_min_array_start_index(s: int)
    requires
        0 < s <= 65535,
    ensures
        ({
            let k = array_span(s);
            let r = -((443636int) % k);
            &&& MIN_TICK - (r + k) == min_array_start_index(s)
            &&& MIN_TICK - k < min_array_start_index(s) < MIN_TICK
        }),
{
    let k = array_span(s);
    let m = 443636int;
    lemma_fundamental_div_mod(m, k);
    lemma_fundamental_div_mod(-m, k);
    let q = m / k;
    let r = m % k;
    assert(r != 0) by {
        if r == 0 {
            assert(m == k * q);
            assert(m == 3 * (20 * s * q)) by (nonlinear_arith)
                requires
                    m == k * q,
                    k == 60 * s,
            ;
            lemma_mod_multiples_basic(20 * s * q, 3);
        }
    }
    // -m == k * (-q - 1) + (k - r), with 0 < k - r < k
    assert(-m == (-q - 1) * k + (k - r)) by (nonlinear_arith)
        requires
            m == k * q + r,
    ;
    lemma_fundamental_div_mod_converse(-m, k, -q - 1, k - r);
}

proof fn lemma_trunc_div_bounds(m: int, s: int)
    requires
        0 < s <= 65535,
        0 <= m,
    ensures
        0 <= (m / s) * s <= m,
        -m <= (-(m / s)) * s <= 0,
{
    lemma_fundamental_div_mod(m, s);
    let q = m / s;
    assert(0 <= q * s <= m && -m <= (-q) * s <= 0) by (nonlinear_arith)
        requires
            0 < s,
            0 <= m,
            0 <= q,
            m == s * q + m % s,
            0 <= m % s,
    ;
}

/// A truncating remainder is zero exactly when the euclidean one is.
proof fn lemma_trunc_rem_zero(x: int, k: int)
    requires
        0 < k,
    ensures
        ((-x) % k == 0) == (x % k == 0),
{
    lemma_fundamental_div_mod(x, k);
    lemma_fundamental_div_mod(-x, k);
    if x % k == 0 {
        assert(-x == (-(x / k)) * k + 0) by (nonlinear_arith)
            requires
                x == k * (x / k) + 0,
        ;
        lemma_fundamental_div_mod_converse(-x, k, -(x / k), 0);
    }
    if (-x) % k == 0 {
        assert(x == (-((-x) / k)) * k + 0) by (nonlinear_arith)
            requires
                -x == k * ((-x) / k) + 0,
        ;
        lemma_fundamental_div_mod_converse(x, k, -((-x) / k), 0);
    }
}

/// A valid start index lies no more than one array span below `MIN_TICK` and not above
/// `MAX_TICK`.
pub proof fn lemma_valid_start_bounds(t: int, s: int)
    requires
        0 < s <= 65535,
        is_valid_start_tick(t, s),
    ensures
        MIN_TICK - array_span(s) < t <= MAX_TICK,
{
    lemma_min_array_start_index(s);
}

/// From the lowest array start up to `MAX_TICK`, a start index is valid exactly when it
/// is a multiple of the array span or the lowest array start itself.
pub proof fn lemma_valid_start_tick_law(start: int, tick_spacing: int)
    requires
        0 < tick_spacing <= 65535,
        min_array_start_index(tick_spacing) <= start <= MAX_TICK,
    ensures
        is_valid_start_tick(start, tick_spacing) <==> (start % array_span(tick_spacing) == 0
            || start == min_array_start_index(tick_spacing)),
{
    let k = array_span(tick_spacing);
    let m = MIN_TICK as int / k;
    lemma_min_array_start_index(tick_spacing);
    lemma_fundamental_div_mod(start, k);
    if start < MIN_TICK && start % k == 0 {
        let q = start / k;
        assert(q == m) by (nonlinear_arith)
            requires
                0 < k,
                start == k * q,
                m * k <= start,
                start < MIN_TICK,
                MIN_TICK - k < m * k,
        ;
        assert(start == m * k) by (nonlinear_arith)
            requires
                start == k * q,
                q == m,
        ;
    }
    if start == min_array_start_index(tick_spacing) {
        vstd::arithmetic::div_mod::lemma_mod_multiples_basic(m, k);
    }
}

} // verus!
