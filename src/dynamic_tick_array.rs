use vstd::prelude::*;

use vstd::bytes::{
    lemma_auto_spec_u32_to_from_le_bytes, spec_u32_from_le_bytes, spec_u32_to_le_bytes,
    u128_to_le_bytes, u32_from_le_bytes, u32_to_le_bytes,
};
use vstd::slice::slice_subrange;

use crate::bitmap::{
    bit_set, count_ones, lemma_low_mask_defined, lemma_ones_below_clear_above,
    lemma_popcount_low_mask, lemma_set_clear_bits, low_mask, ones_below,
};
use crate::codec::{
    le16, lemma_i128_bits, lemma_le16, push_u128, read_u128, u128_at, write_bytes, written,
};
use crate::error::ErrorCode;
use crate::packed::{
    lemma_bitmap_stays_low, lemma_high_bits_clear, lemma_read_slot, lemma_record_order,
    lemma_repack, lemma_room_for_one_more, lemma_tick_data_len, packed_wf, record_len,
    record_start, slot_at, slots, SLOTS_BASE, SLOT_COUNT,
};
use crate::tick::{empty_tick, is_valid_start_tick, Tick, TickUpdate, MAX_TICK, MIN_TICK, REWARD_NUM};
use crate::tick_array::{
    count_initialized, first_init_from, holds_tick, in_window, last_init_upto,
    offset_of, start_in_range, TickArrayType, MAX_ARRAY_SPAN, TICK_ARRAY_SIZE,
    TICK_ARRAY_SIZE_USIZE,
};

verus! {

broadcast use vstd::array::group_array_axioms;

/// The payload of an initialized tick in a packed array: a `Tick` without its flag.
#[derive(Clone, Copy, Debug, PartialEq, Eq)]
pub struct DynamicTickData {
    pub liquidity_net: i128,
    pub liquidity_gross: u128,
    /// Q64.64
    pub fee_growth_outside_a: u128,
    /// Q64.64
    pub fee_growth_outside_b: u128,
    /// Q64.64 per reward token
    pub reward_growths_outside: [u128; REWARD_NUM],
}

/// One slot of a packed array: a single tag byte when empty, the tag and the payload
/// when initialized.
#[derive(Clone, Copy, Debug, PartialEq, Eq)]
pub enum DynamicTick {
    Uninitialized,
    Initialized(DynamicTickData),
}

/// The 112 bytes of a payload: every field little-endian, in declaration order.
pub open spec fn tick_data_bytes(d: DynamicTickData) -> Seq<u8> {
    le16(d.liquidity_net as u128) + le16(d.liquidity_gross) + le16(d.fee_growth_outside_a) + le16(
        d.fee_growth_outside_b,
    ) + le16(d.reward_growths_outside[0]) + le16(d.reward_growths_outside[1]) + le16(
        d.reward_growths_outside[2],
    )
}

/// The payload held in the 112 bytes that start at `pos`.
pub open spec fn tick_data_at(s: Seq<u8>, pos: int) -> DynamicTickData {
    DynamicTickData {
        liquidity_net: u128_at(s, pos) as i128,
        liquidity_gross: u128_at(s, pos + 16),
        fee_growth_outside_a: u128_at(s, pos + 32),
        fee_growth_outside_b: u128_at(s, pos + 48),
        reward_growths_outside: [u128_at(s, pos + 64), u128_at(s, pos + 80), u128_at(s, pos + 96)],
    }
}

/// The bytes of one slot.
pub open spec fn dynamic_tick_bytes(t: DynamicTick) -> Seq<u8> {
    match t {
        DynamicTick::Uninitialized => seq![0u8],
        DynamicTick::Initialized(d) => seq![1u8] + tick_data_bytes(d),
    }
}

/// The slot that the bytes from `pos` on hold, if they hold one: tag 0 is an empty slot,
/// tag 1 followed by a full payload an initialized one.
pub open spec fn dynamic_tick_at(s: Seq<u8>, pos: int) -> Option<DynamicTick> {
    if 0 <= pos < s.len() && s[pos] == 0 {
        Some(DynamicTick::Uninitialized)
    } else if 0 <= pos && pos + DynamicTick::INITIALIZED_LEN <= s.len() && s[pos] == 1 {
        Some(DynamicTick::Initialized(tick_data_at(s, pos + 1)))
    } else {
        None
    }
}

/// The fixed-shape tick that a slot stands for.
pub open spec fn tick_of_dynamic(t: DynamicTick) -> Tick {
    match t {
        DynamicTick::Uninitialized => empty_tick(),
        DynamicTick::Initialized(d) => Tick {
            initialized: true,
            liquidity_net: d.liquidity_net,
            liquidity_gross: d.liquidity_gross,
            fee_growth_outside_0_x64: d.fee_growth_outside_a,
            fee_growth_outside_1_x64: d.fee_growth_outside_b,
            reward_growths_outside: d.reward_growths_outside,
        },
    }
}

/// The slot that an update produces: its payload when it initializes the tick, an empty
/// slot otherwise.
pub open spec fn dynamic_of_update(u: TickUpdate) -> DynamicTick {
    if u.initialized {
        DynamicTick::Initialized(
            DynamicTickData {
                liquidity_net: u.liquidity_net,
                liquidity_gross: u.liquidity_gross,
                fee_growth_outside_a: u.fee_growth_outside_0_x64,
                fee_growth_outside_b: u.fee_growth_outside_1_x64,
                reward_growths_outside: u.reward_growths_outside,
            },
        )
    } else {
        DynamicTick::Uninitialized
    }
}

/// Encoding a payload and reading it back from any place gives the payload again.
pub proof fn lemma_tick_data_round_trip(s: Seq<u8>, pos: int, d: DynamicTickData)
    requires
        0 <= pos,
        pos + DynamicTickData::LEN <= s.len(),
        s.subrange(pos, pos + DynamicTickData::LEN) == tick_data_bytes(d),
    ensures
        tick_data_at(s, pos) == d,
{
    let b = tick_data_bytes(d);
    let r = d.reward_growths_outside;
    lemma_le16(d.liquidity_net as u128);
    lemma_le16(d.liquidity_gross);
    lemma_le16(d.fee_growth_outside_a);
    lemma_le16(d.fee_growth_outside_b);
    lemma_le16(r[0]);
    lemma_le16(r[1]);
    lemma_le16(r[2]);
    lemma_i128_bits(d.liquidity_net);
    let v = [
        d.liquidity_net as u128,
        d.liquidity_gross,
        d.fee_growth_outside_a,
        d.fee_growth_outside_b,
        r[0],
        r[1],
        r[2],
    ];
    assert forall|j: int| 0 <= j < 7 implies #[trigger] s.subrange(pos + 16 * j, pos + 16 * j + 16)
        =~= le16(v[j]) by {
        assert forall|k: int| 0 <= k < 16 implies s.subrange(pos + 16 * j, pos + 16 * j + 16)[k]
            == le16(v[j])[k] by {
            assert(s[pos + (16 * j + k)] == b[16 * j + k]);
        }
    }
    assert(s.subrange(pos + 16 * 0, pos + 16 * 0 + 16) =~= le16(v[0]));
    assert(s.subrange(pos + 16 * 1, pos + 16 * 1 + 16) =~= le16(v[1]));
    assert(s.subrange(pos + 16 * 2, pos + 16 * 2 + 16) =~= le16(v[2]));
    assert(s.subrange(pos + 16 * 3, pos + 16 * 3 + 16) =~= le16(v[3]));
    assert(s.subrange(pos + 16 * 4, pos + 16 * 4 + 16) =~= le16(v[4]));
    assert(s.subrange(pos + 16 * 5, pos + 16 * 5 + 16) =~= le16(v[5]));
    assert(s.subrange(pos + 16 * 6, pos + 16 * 6 + 16) =~= le16(v[6]));
    let t = tick_data_at(s, pos);
    assert(u128_at(s, pos) == v[0]);
    assert(t.liquidity_net == d.liquidity_net);
    assert(t.liquidity_gross == d.liquidity_gross);
    assert(t.fee_growth_outside_a == d.fee_growth_outside_a);
    assert(t.fee_growth_outside_b == d.fee_growth_outside_b);
    assert(t.reward_growths_outside[0] == r[0]);
    assert(t.reward_growths_outside =~= r);
}

/// Two byte strings that agree on a payload's place hold the same payload there.
pub proof fn lemma_tick_data_frame(s: Seq<u8>, p: int, t: Seq<u8>, q: int)
    requires
        0 <= p,
        0 <= q,
        p + DynamicTickData::LEN <= s.len(),
        q + DynamicTickData::LEN <= t.len(),
        s.subrange(p, p + DynamicTickData::LEN) == t.subrange(q, q + DynamicTickData::LEN),
    ensures
        tick_data_at(s, p) == tick_data_at(t, q),
{
    let a = s.subrange(p, p + DynamicTickData::LEN);
    assert(s.subrange(p, p + 16) =~= a.subrange(0, 16));
    assert(t.subrange(q, q + 16) =~= a.subrange(0, 16));
    assert(s.subrange(p + 16, p + 32) =~= a.subrange(16, 32));
    assert(t.subrange(q + 16, q + 32) =~= a.subrange(16, 32));
    assert(s.subrange(p + 32, p + 48) =~= a.subrange(32, 48));
    assert(t.subrange(q + 32, q + 48) =~= a.subrange(32, 48));
    assert(s.subrange(p + 48, p + 64) =~= a.subrange(48, 64));
    assert(t.subrange(q + 48, q + 64) =~= a.subrange(48, 64));
    assert(s.subrange(p + 64, p + 80) =~= a.subrange(64, 80));
    assert(t.subrange(q + 64, q + 80) =~= a.subrange(64, 80));
    assert(s.subrange(p + 80, p + 96) =~= a.subrange(80, 96));
    assert(t.subrange(q + 80, q + 96) =~= a.subrange(80, 96));
    assert(s.subrange(p + 96, p + 112) =~= a.subrange(96, 112));
    assert(t.subrange(q + 96, q + 112) =~= a.subrange(96, 112));
    let ts = tick_data_at(s, p);
    let tt = tick_data_at(t, q);
    assert(ts.reward_growths_outside =~= tt.reward_growths_outside);
}

impl DynamicTickData {
    /// Size of a payload in bytes.
    pub const LEN: usize = 112;

    /// The payload's bytes.
    pub fn to_bytes(&self) -> (r: Vec<u8>)
        ensures
            r@ == tick_data_bytes(*self),
    {
        let mut out: Vec<u8> = Vec::new();
        push_u128(&mut out, #[verifier::truncate] (self.liquidity_net as u128));
        push_u128(&mut out, self.liquidity_gross);
        push_u128(&mut out, self.fee_growth_outside_a);
        push_u128(&mut out, self.fee_growth_outside_b);
        push_u128(&mut out, self.reward_growths_outside[0]);
        push_u128(&mut out, self.reward_growths_outside[1]);
        push_u128(&mut out, self.reward_growths_outside[2]);
        assert(out@ =~= tick_data_bytes(*self));
        out
    }

    /// The payload held in `s[pos..pos + LEN]`.
    pub fn read(s: &[u8], pos: usize) -> (r: DynamicTickData)
        requires
            pos + DynamicTickData::LEN <= s@.len(),
        ensures
            r == tick_data_at(s@, pos as int),
    {
        let len: usize = s.len();
        assert(pos + DynamicTickData::LEN <= len);
        let net_bits: u128 = read_u128(s, pos);
        let r = DynamicTickData {
            liquidity_net: #[verifier::truncate] (net_bits as i128),
            liquidity_gross: read_u128(s, pos + 16),
            fee_growth_outside_a: read_u128(s, pos + 32),
            fee_growth_outside_b: read_u128(s, pos + 48),
            reward_growths_outside: [
                read_u128(s, pos + 64),
                read_u128(s, pos + 80),
                read_u128(s, pos + 96),
            ],
        };
        r
    }
}

impl DynamicTick {
    /// Size of an empty slot.
    pub const UNINITIALIZED_LEN: usize = 1;

    /// Size of an initialized slot.
    pub const INITIALIZED_LEN: usize = DynamicTickData::LEN + 1;

    /// The slot's bytes.
    pub fn to_bytes(&self) -> (r: Vec<u8>)
        ensures
            r@ == dynamic_tick_bytes(*self),
    {
        match self {
            DynamicTick::Uninitialized => {
                let mut out: Vec<u8> = Vec::new();
                out.push(0u8);
                assert(out@ =~= seq![0u8]);
                out
            },
            DynamicTick::Initialized(d) => {
                let mut out: Vec<u8> = Vec::new();
                out.push(1u8);
                let mut payload = d.to_bytes();
                out.append(&mut payload);
                assert(out@ =~= seq![1u8] + tick_data_bytes(*d));
                out
            },
        }
    }

    /// Reads the slot that starts at `pos`; fails when its tag is neither 0 nor 1 or an
    /// initialized slot runs past the end.
    pub fn read(s: &[u8], pos: usize) -> (r: Result<DynamicTick, ErrorCode>)
        ensures
            r == match dynamic_tick_at(s@, pos as int) {
                Some(t) => Ok::<DynamicTick, ErrorCode>(t),
                None => Err(ErrorCode::AccountDidNotDeserialize),
            },
    {
        let len: usize = s.len();
        if pos >= len {
            return Err(ErrorCode::AccountDidNotDeserialize);
        }
        let tag: u8 = s[pos];
        if tag == 0 {
            Ok(DynamicTick::Uninitialized)
        } else if tag == 1 && len - pos >= DynamicTick::INITIALIZED_LEN {
            Ok(DynamicTick::Initialized(DynamicTickData::read(s, pos + 1)))
        } else {
            Err(ErrorCode::AccountDidNotDeserialize)
        }
    }
}

impl Default for DynamicTick {
    fn default() -> (r: DynamicTick)
        ensures
            r == DynamicTick::Uninitialized,
    {
        DynamicTick::Uninitialized
    }
}

impl DynamicTick {
    /// The slot that `update` produces: its payload when it initializes the tick, an
    /// empty slot otherwise.
    pub fn from_update(update: &TickUpdate) -> (r: DynamicTick)
        ensures
            r == dynamic_of_update(*update),
    {
        if update.initialized {
            DynamicTick::Initialized(
                DynamicTickData {
                    liquidity_net: update.liquidity_net,
                    liquidity_gross: update.liquidity_gross,
                    fee_growth_outside_a: update.fee_growth_outside_0_x64,
                    fee_growth_outside_b: update.fee_growth_outside_1_x64,
                    reward_growths_outside: update.reward_growths_outside,
                },
            )
        } else {
            DynamicTick::Uninitialized
        }
    }

    /// The fixed-shape tick that this slot stands for: an empty slot is the all-zero tick.
    pub fn to_tick(self) -> (r: Tick)
        ensures
            r == tick_of_dynamic(self),
    {
        match self {
            DynamicTick::Uninitialized => Tick::default(),
            DynamicTick::Initialized(tick_data) => Tick {
                initialized: true,
                liquidity_net: tick_data.liquidity_net,
                liquidity_gross: tick_data.liquidity_gross,
                fee_growth_outside_0_x64: tick_data.fee_growth_outside_a,
                fee_growth_outside_1_x64: tick_data.fee_growth_outside_b,
                reward_growths_outside: tick_data.reward_growths_outside,
            },
        }
    }
}

/// The account layout of a packed tick array, as its definition: a start index, the pool
/// key, the occupancy bitmap (bit `i` set when offset `i` is initialized), then one slot
/// per offset. Accounts are read through `DynamicTickArrayLoader`.
pub struct DynamicTickArray {
    pub start_tick_index: i32,
    pub pool_id: [u8; 32],
    pub tick_bitmap: u128,
    pub ticks: [DynamicTick; TICK_ARRAY_SIZE_USIZE],
}

impl DynamicTickArray {
    /// The account type tag: the first 8 bytes of the SHA-256 of `account:DynamicTickArray`.
    pub const DISCRIMINATOR: [u8; 8] = [17, 216, 246, 142, 225, 199, 218, 56];

    /// Account size when no tick is initialized.
    pub const MIN_LEN: usize = 8 + 4 + 32 + 16 + DynamicTick::UNINITIALIZED_LEN
        * TICK_ARRAY_SIZE_USIZE;

    /// Account size when every tick is initialized.
    pub const MAX_LEN: usize = 8 + 4 + 32 + 16 + DynamicTick::INITIALIZED_LEN
        * TICK_ARRAY_SIZE_USIZE;
}

/// The start index held in the first four bytes.
pub open spec fn start_index_of(d: Seq<u8>) -> int {
    (spec_u32_from_le_bytes(d.subrange(0, 4)) as i32) as int
}

/// The pool key held after the start index.
pub open spec fn pool_of(d: Seq<u8>) -> Seq<u8> {
    d.subrange(4, 36)
}

/// The occupancy bitmap held after the pool key.
pub open spec fn bitmap_of(d: Seq<u8>) -> u128 {
    u128_at(d, 36)
}

/// A buffer that holds a well-formed packed array.
pub open spec fn loader_wf(d: Seq<u8>) -> bool {
    &&& d.len() == DynamicTickArrayLoader::LEN
    &&& start_in_range(start_index_of(d))
    &&& packed_wf(d, bitmap_of(d))
}

/// The ticks of a packed array, in the fixed shape.
pub open spec fn loader_ticks(d: Seq<u8>) -> Seq<Tick> {
    Seq::new(SLOT_COUNT as nat, |i: int| tick_of_dynamic(slot_at(d, bitmap_of(d), i)))
}

/// A packed tick array: a view over the bytes that follow the account's type tag.
#[derive(Debug)]
pub struct DynamicTickArrayLoader {
    data: Vec<u8>,
}

impl View for DynamicTickArrayLoader {
    type V = Seq<u8>;

    closed spec fn view(&self) -> Seq<u8> {
        self.data@
    }
}

/// Relies on `slice::rotate_right`: the last `k` bytes of `data[start..]` move to its
/// front, the others after them in their order.
#[verifier::external_body]
fn rotate_right_from(data: &mut Vec<u8>, start: usize, k: usize)
    requires
        start + k <= old(data)@.len(),
    ensures
        final(data)@ == rotated_right(old(data)@, start as int, k as int),
{
    data[start..].rotate_right(k);
}

/// Relies on `slice::rotate_left`: the first `k` bytes of `data[start..]` move to its
/// end, the others before them in their order.
#[verifier::external_body]
fn rotate_left_from(data: &mut Vec<u8>, start: usize, k: usize)
    requires
        start + k <= old(data)@.len(),
    ensures
        final(data)@ == rotated_left(old(data)@, start as int, k as int),
{
    data[start..].rotate_left(k);
}

/// Reads the little-endian `i32` at `pos`.
pub(crate) fn read_i32(s: &[u8], pos: usize) -> (r: i32)
    requires
        pos + 4 <= s@.len(),
    ensures
        r as int == (spec_u32_from_le_bytes(s@.subrange(pos as int, pos + 4)) as i32) as int,
{
    let len: usize = s.len();
    assert(pos + 4 <= len);
    let bits: u32 = u32_from_le_bytes(slice_subrange(s, pos, pos + 4));
    #[verifier::truncate]
    (bits as i32)
}

proof fn lemma_i32_bits(x: i32)
    ensures
        (x as u32) as i32 == x,
{
    assert((x as u32) as i32 == x) by (bit_vector);
}

/// The count of set bitmap bits below `n` is the count of initialized ticks there.
proof fn lemma_count_matches(d: Seq<u8>, n: int)
    requires
        0 <= n <= SLOT_COUNT,
    ensures
        ones_below(bitmap_of(d), n as nat) == count_initialized(loader_ticks(d), n),
    decreases n,
{
    if n > 0 {
        lemma_count_matches(d, n - 1);
    }
}

/// The floor offset of a tick in a window of 60 spacings lies in the window.
pub(crate) proof fn lemma_offset_in_window(x: int, s: int, lo: int)
    requires
        0 < s,
        lo * s <= x < (lo + 60) * s,
    ensures
        lo <= x / s < lo + 60,
{
    vstd::arithmetic::div_mod::lemma_fundamental_div_mod(x, s);
    let q = x / s;
    assert(lo <= q < lo + 60) by (nonlinear_arith)
        requires
            0 < s,
            lo * s <= x < (lo + 60) * s,
            x == s * q + x % s,
            0 <= x % s < s,
    ;
}

/// `d` with `d[p..]` rotated right by `k`: its last `k` bytes move to `p`.
pub open spec fn rotated_right(d: Seq<u8>, p: int, k: int) -> Seq<u8> {
    d.subrange(0, p) + d.subrange(d.len() - k, d.len() as int) + d.subrange(p, d.len() - k)
}

/// `d` with `d[p..]` rotated left by `k`: the `k` bytes at `p` move to the end.
pub open spec fn rotated_left(d: Seq<u8>, p: int, k: int) -> Seq<u8> {
    d.subrange(0, p) + d.subrange(p + k, d.len() as int) + d.subrange(p, p + k)
}

/// The bitmap that results from setting (`init`) or clearing bit `o` of `b`.
pub open spec fn bitmap_with(b: u128, o: int, init: bool) -> u128 {
    if init {
        b | (1u128 << o as u128)
    } else {
        b & !(1u128 << o as u128)
    }
}

/// Rotating the packed region leaves the header, and so the bitmap, where it was.
proof fn lemma_rotation_keeps_header(d0: Seq<u8>, p: int, k: int)
    requires
        SLOTS_BASE <= p,
        p + k <= d0.len(),
        0 <= k,
    ensures
        rotated_right(d0, p, k).subrange(0, SLOTS_BASE as int) == d0.subrange(0, SLOTS_BASE as int),
        rotated_left(d0, p, k).subrange(0, SLOTS_BASE as int) == d0.subrange(0, SLOTS_BASE as int),
        bitmap_of(rotated_right(d0, p, k)) == bitmap_of(d0),
        bitmap_of(rotated_left(d0, p, k)) == bitmap_of(d0),
        rotated_right(d0, p, k).len() == d0.len(),
        rotated_left(d0, p, k).len() == d0.len(),
{
    assert(rotated_right(d0, p, k).subrange(36, 52) =~= d0.subrange(36, 52));
    assert(rotated_left(d0, p, k).subrange(36, 52) =~= d0.subrange(36, 52));
    assert(rotated_right(d0, p, k).subrange(0, SLOTS_BASE as int) =~= d0.subrange(
        0,
        SLOTS_BASE as int,
    ));
    assert(rotated_left(d0, p, k).subrange(0, SLOTS_BASE as int) =~= d0.subrange(
        0,
        SLOTS_BASE as int,
    ));
}

/// The header of the rewritten buffer: same start index and pool key, new bitmap `b1`.
proof fn lemma_new_header(d0: Seq<u8>, d3: Seq<u8>, b1: u128)
    requires
        d3.len() == d0.len(),
        d0.len() >= SLOTS_BASE,
        forall|k: int| 0 <= k < 36 ==> d3[k] == d0[k],
        d3.subrange(36, 52) == le16(b1),
    ensures
        start_index_of(d3) == start_index_of(d0),
        pool_of(d3) == pool_of(d0),
        bitmap_of(d3) == b1,
{
    lemma_le16(b1);
    assert(d3.subrange(0, 4) =~= d0.subrange(0, 4));
    assert(pool_of(d3) =~= pool_of(d0));
}

proof fn lemma_ticks_from_slots(d0: Seq<u8>, d3: Seq<u8>, o: int, t: DynamicTick)
    requires
        0 <= o < SLOT_COUNT,
        slots(d3, bitmap_of(d3)) == slots(d0, bitmap_of(d0)).update(o, t),
    ensures
        loader_ticks(d3) == loader_ticks(d0).update(o, tick_of_dynamic(t)),
{
    assert forall|i: int| 0 <= i < SLOT_COUNT implies #[trigger] loader_ticks(d3)[i]
        == loader_ticks(d0).update(o, tick_of_dynamic(t))[i] by {
        assert(slots(d3, bitmap_of(d3))[i] == slots(d0, bitmap_of(d0)).update(o, t)[i]);
    }
    assert(loader_ticks(d3) =~= loader_ticks(d0).update(o, tick_of_dynamic(t)));
}

/// Slot `o` of a well-formed buffer, empty before, made initialized: the region from the
/// slot on rotated up by a payload, the bit set, the slot written.
proof fn lemma_grow(d0: Seq<u8>, o: int, t: DynamicTick, d3: Seq<u8>)
    requires
        loader_wf(d0),
        0 <= o < SLOT_COUNT,
        !bit_set(bitmap_of(d0), o),
        t is Initialized,
        d3 == written(
            written(
                rotated_right(
                    d0,
                    SLOTS_BASE + record_start(bitmap_of(d0), o),
                    DynamicTickData::LEN as int,
                ),
                36,
                le16(bitmap_with(bitmap_of(d0), o, true)),
            ),
            SLOTS_BASE + record_start(bitmap_of(d0), o),
            dynamic_tick_bytes(t),
        ),
    ensures
        loader_wf(d3),
        start_index_of(d3) == start_index_of(d0),
        pool_of(d3) == pool_of(d0),
        loader_ticks(d3) == loader_ticks(d0).update(o, tick_of_dynamic(t)),
{
    let b0 = bitmap_of(d0);
    let b1 = bitmap_with(b0, o, true);
    let p = SLOTS_BASE + record_start(b0, o);
    let len = d0.len() as int;
    let enc = dynamic_tick_bytes(t);
    let d1 = rotated_right(d0, p, 112);
    let d2 = written(d1, 36, le16(b1));
    lemma_read_slot(d0, b0, o);
    lemma_record_order(b0, o, SLOT_COUNT as int);
    lemma_room_for_one_more(b0, o);
    lemma_le16(b1);
    lemma_set_clear_bits(b0, o as u128);
    lemma_bitmap_stays_low(b0, o as u128);
    if let DynamicTick::Initialized(x) = t {
        lemma_tick_data_len(x);
    }
    assert(enc.len() == 113);
    assert forall|k: int| 0 <= k < p implies #[trigger] d1[k] == d0[k] by {}
    assert forall|k: int| p + 112 <= k < len implies #[trigger] d1[k] == d0[k - 112] by {}
    assert forall|k: int| 0 <= k < len && !(36 <= k < 52) implies #[trigger] d2[k] == d1[k] by {}
    assert forall|k: int| 0 <= k < len && !(p <= k < p + 113) implies #[trigger] d3[k] == d2[k] by {}
    assert(d3.subrange(36, 52) =~= le16(b1));
    lemma_new_header(d0, d3, b1);
    let end = SLOTS_BASE + record_start(b0, SLOT_COUNT as int);
    assert forall|k: int| p + 1 <= k < end implies #[trigger] d3[k + record_len(b1, o) - record_len(
        b0,
        o,
    )] == d0[k] by {
        assert(d3[k + 112] == d2[k + 112]);
        assert(d2[k + 112] == d1[k + 112]);
    }
    assert forall|k: int| SLOTS_BASE <= k < p implies #[trigger] d3[k] == d0[k] by {
        assert(d3[k] == d2[k]);
        assert(d2[k] == d1[k]);
    }
    assert(d3.subrange(p, p + enc.len()) =~= enc);
    lemma_repack(d0, b0, d3, b1, o, t);
    lemma_ticks_from_slots(d0, d3, o, t);
}

/// Slot `o` of a well-formed buffer, initialized before, made empty: the region from the
/// slot on rotated down by a payload, the bit cleared, the empty slot written.
proof fn lemma_shrink(d0: Seq<u8>, o: int, d3: Seq<u8>)
    requires
        loader_wf(d0),
        0 <= o < SLOT_COUNT,
        bit_set(bitmap_of(d0), o),
        d3 == written(
            written(
                rotated_left(
                    d0,
                    SLOTS_BASE + record_start(bitmap_of(d0), o),
                    DynamicTickData::LEN as int,
                ),
                36,
                le16(bitmap_with(bitmap_of(d0), o, false)),
            ),
            SLOTS_BASE + record_start(bitmap_of(d0), o),
            dynamic_tick_bytes(DynamicTick::Uninitialized),
        ),
    ensures
        loader_wf(d3),
        start_index_of(d3) == start_index_of(d0),
        pool_of(d3) == pool_of(d0),
        loader_ticks(d3) == loader_ticks(d0).update(o, empty_tick()),
{
    let t = DynamicTick::Uninitialized;
    let b0 = bitmap_of(d0);
    let b1 = bitmap_with(b0, o, false);
    let p = SLOTS_BASE + record_start(b0, o);
    let len = d0.len() as int;
    let enc = dynamic_tick_bytes(t);
    let d1 = rotated_left(d0, p, 112);
    let d2 = written(d1, 36, le16(b1));
    lemma_read_slot(d0, b0, o);
    lemma_record_order(b0, o, SLOT_COUNT as int);
    lemma_le16(b1);
    lemma_set_clear_bits(b0, o as u128);
    lemma_bitmap_stays_low(b0, o as u128);
    assert(enc.len() == 1);
    assert forall|k: int| 0 <= k < p implies #[trigger] d1[k] == d0[k] by {}
    assert forall|k: int| p <= k < len - 112 implies #[trigger] d1[k] == d0[k + 112] by {}
    assert forall|k: int| 0 <= k < len && !(36 <= k < 52) implies #[trigger] d2[k] == d1[k] by {}
    assert forall|k: int| 0 <= k < len && !(p <= k < p + 1) implies #[trigger] d3[k] == d2[k] by {}
    assert(d3.subrange(36, 52) =~= le16(b1));
    lemma_new_header(d0, d3, b1);
    let end = SLOTS_BASE + record_start(b0, SLOT_COUNT as int);
    assert forall|k: int| p + 113 <= k < end implies #[trigger] d3[k + record_len(b1, o)
        - record_len(b0, o)] == d0[k] by {
        assert(d3[k - 112] == d2[k - 112]);
        assert(d2[k - 112] == d1[k - 112]);
    }
    assert forall|k: int| SLOTS_BASE <= k < p implies #[trigger] d3[k] == d0[k] by {
        assert(d3[k] == d2[k]);
        assert(d2[k] == d1[k]);
    }
    assert(d3.subrange(p, p + enc.len()) =~= enc);
    lemma_repack(d0, b0, d3, b1, o, t);
    lemma_ticks_from_slots(d0, d3, o, t);
}

/// Slot `o` of a well-formed buffer rewritten in place, keeping its state.
proof fn lemma_overwrite(d0: Seq<u8>, o: int, t: DynamicTick, d3: Seq<u8>)
    requires
        loader_wf(d0),
        0 <= o < SLOT_COUNT,
        bit_set(bitmap_of(d0), o) == (t is Initialized),
        d3 == written(d0, SLOTS_BASE + record_start(bitmap_of(d0), o), dynamic_tick_bytes(t)),
    ensures
        loader_wf(d3),
        start_index_of(d3) == start_index_of(d0),
        pool_of(d3) == pool_of(d0),
        loader_ticks(d3) == loader_ticks(d0).update(o, tick_of_dynamic(t)),
{
    let b0 = bitmap_of(d0);
    let p = SLOTS_BASE + record_start(b0, o);
    let len = d0.len() as int;
    let enc = dynamic_tick_bytes(t);
    lemma_read_slot(d0, b0, o);
    lemma_record_order(b0, o, SLOT_COUNT as int);
    if let DynamicTick::Initialized(x) = t {
        lemma_tick_data_len(x);
    }
    assert(enc.len() == record_len(b0, o));
    assert forall|k: int| 0 <= k < len && !(p <= k < p + enc.len()) implies #[trigger] d3[k]
        == d0[k] by {}
    assert(d3.subrange(36, 52) =~= d0.subrange(36, 52));
    assert(d3.subrange(0, 4) =~= d0.subrange(0, 4));
    assert(pool_of(d3) =~= pool_of(d0));
    assert(forall|i: int| 0 <= i < 128 && i != o ==> bit_set(b0, i) == bit_set(b0, i));
    assert(d3.subrange(p, p + enc.len()) =~= enc);
    lemma_repack(d0, b0, d3, b0, o, t);
    lemma_ticks_from_slots(d0, d3, o, t);
}

/// The occupancy bitmap of a well-formed buffer marks exactly its initialized ticks, so
/// the number of set bits is the number of initialized ticks.
pub proof fn lemma_occupancy_matches_ticks(d: Seq<u8>)
    requires
        loader_wf(d),
    ensures
        forall|i: int|
            0 <= i < SLOT_COUNT ==> bit_set(bitmap_of(d), i) == (#[trigger] loader_ticks(
                d,
            )[i]).initialized,
        crate::bitmap::popcount(bitmap_of(d)) == count_initialized(
            loader_ticks(d),
            SLOT_COUNT as int,
        ),
{
    lemma_high_bits_clear(bitmap_of(d));
    lemma_ones_below_clear_above(bitmap_of(d), SLOT_COUNT as nat, 128);
    lemma_count_matches(d, SLOT_COUNT as int);
}

/// What a packed array keeps for an update is the update's own fields when it initializes
/// the tick, and the all-zero tick when it does not.
pub proof fn lemma_stored_update(u: TickUpdate)
    ensures
        tick_of_dynamic(dynamic_of_update(u)) == if u.initialized {
            crate::tick::tick_of_update(u)
        } else {
            empty_tick()
        },
{
}

/// Encoding the payload read from a place gives back the bytes at that place.
proof fn lemma_tick_data_bytes_of_read(d: Seq<u8>, q: int)
    requires
        0 <= q,
        q + DynamicTickData::LEN <= d.len(),
    ensures
        tick_data_bytes(tick_data_at(d, q)) == d.subrange(q, q + DynamicTickData::LEN),
{
    let x = tick_data_at(d, q);
    vstd::bytes::lemma_auto_spec_u128_to_from_le_bytes();
    let c0 = d.subrange(q, q + 16);
    let u0 = u128_at(d, q);
    assert(((u0 as i128) as u128) == u0) by (bit_vector);
    assert(le16(u0) == c0);
    assert(le16(u128_at(d, q + 16)) == d.subrange(q + 16, q + 32));
    assert(le16(u128_at(d, q + 32)) == d.subrange(q + 32, q + 48));
    assert(le16(u128_at(d, q + 48)) == d.subrange(q + 48, q + 64));
    assert(le16(u128_at(d, q + 64)) == d.subrange(q + 64, q + 80));
    assert(le16(u128_at(d, q + 80)) == d.subrange(q + 80, q + 96));
    assert(le16(u128_at(d, q + 96)) == d.subrange(q + 96, q + 112));
    assert(tick_data_bytes(x) =~= d.subrange(q, q + DynamicTickData::LEN));
}

/// Writing the encoding of the slot that a well-formed buffer already holds at offset `o`
/// over that slot changes no byte. An update that keeps a tick's state writes exactly this,
/// so applying the same update twice leaves the bytes as the first application left them.
pub proof fn lemma_update_idempotent(d: Seq<u8>, o: int, u: TickUpdate)
    requires
        loader_wf(d),
        0 <= o < SLOT_COUNT,
        slot_at(d, bitmap_of(d), o) == dynamic_of_update(u),
    ensures
        written(
            d,
            SLOTS_BASE + record_start(bitmap_of(d), o),
            dynamic_tick_bytes(dynamic_of_update(u)),
        ) == d,
{
    let b = bitmap_of(d);
    let p = SLOTS_BASE + record_start(b, o);
    lemma_read_slot(d, b, o);
    let t = dynamic_of_update(u);
    match t {
        DynamicTick::Uninitialized => {},
        DynamicTick::Initialized(x) => {
            lemma_tick_data_len(x);
            lemma_tick_data_bytes_of_read(d, p + 1);
            assert(dynamic_tick_bytes(t) =~= d.subrange(p, p + 113));
        },
    }
    assert(written(d, p, dynamic_tick_bytes(t)) =~= d);
}

/// The ticks of a packed array after the updates `updates` (offset and update, in order).
pub open spec fn ticks_after_updates(ticks: Seq<Tick>, updates: Seq<(int, TickUpdate)>) -> Seq<
    Tick,
>
    decreases updates.len(),
{
    if updates.len() == 0 {
        ticks
    } else {
        let last = updates.last();
        ticks_after_updates(ticks, updates.drop_last()).update(
            last.0,
            tick_of_dynamic(dynamic_of_update(last.1)),
        )
    }
}

/// The last of `updates` made at offset `o`, if any.
pub open spec fn last_update_at(updates: Seq<(int, TickUpdate)>, o: int) -> Option<TickUpdate>
    decreases updates.len(),
{
    if updates.len() == 0 {
        None
    } else if updates.last().0 == o {
        Some(updates.last().1)
    } else {
        last_update_at(updates.drop_last(), o)
    }
}

/// After any sequence of updates to a packed array, each tick holds what the last update
/// at its offset gave it (the update's fields when it initialized the tick, the all-zero
/// tick when it did not), and an offset that no update reached keeps its tick; so the
/// initialized ticks, and the occupancy bits that mark them, are those whose last update
/// initialized them.
pub proof fn lemma_updates_round_trip(ticks: Seq<Tick>, updates: Seq<(int, TickUpdate)>)
    requires
        ticks.len() == SLOT_COUNT,
        forall|k: int| 0 <= k < updates.len() ==> 0 <= (#[trigger] updates[k]).0 < SLOT_COUNT,
    ensures
        ticks_after_updates(ticks, updates).len() == SLOT_COUNT,
        forall|o: int|
            0 <= o < SLOT_COUNT ==> #[trigger] ticks_after_updates(ticks, updates)[o] == match last_update_at(updates, o) {
                Some(u) => if u.initialized {
                    crate::tick::tick_of_update(u)
                } else {
                    empty_tick()
                },
                None => ticks[o],
            },
    decreases updates.len(),
{
    if updates.len() > 0 {
        let rest = updates.drop_last();
        assert forall|k: int| 0 <= k < rest.len() implies 0 <= (#[trigger] rest[k]).0 < SLOT_COUNT by {
            assert(rest[k] == updates[k]);
        }
        lemma_updates_round_trip(ticks, rest);
        assert(0 <= updates[updates.len() - 1].0 < SLOT_COUNT);
    }
}

impl DynamicTickArrayLoader {
    /// Size of the buffer that follows the type tag.
    pub const LEN: usize = 52 + 6780;

    pub const START_TICK_INDEX_OFFSET: usize = 0;

    pub const POOL_OFFSET: usize = Self::START_TICK_INDEX_OFFSET + 4;

    pub const TICK_BITMAP_OFFSET: usize = Self::POOL_OFFSET + 32;

    pub const TICK_DATA_OFFSET: usize = Self::TICK_BITMAP_OFFSET + 16;

    /// Takes a buffer as a packed array; fails unless it has the right size, a start index
    /// that can occur, a bitmap with nothing set from bit 60 up, and each slot's tag where
    /// the bitmap puts it.
    pub fn load(data: Vec<u8>) -> (r: Result<DynamicTickArrayLoader, ErrorCode>)
        ensures
            match r {
                Ok(l) => loader_wf(data@) && l@ == data@,
                Err(e) => !loader_wf(data@) && e == ErrorCode::AccountDidNotDeserialize,
            },
    {
        if Self::check_layout(data.as_slice()) {
            Ok(DynamicTickArrayLoader { data })
        } else {
            Err(ErrorCode::AccountDidNotDeserialize)
        }
    }

    /// The bytes of the array.
    pub fn as_bytes(&self) -> (r: &[u8])
        ensures
            r@ == self@,
    {
        self.data.as_slice()
    }

    /// Gives the bytes of the array back.
    pub fn into_bytes(self) -> (r: Vec<u8>)
        ensures
            r@ == self@,
    {
        self.data
    }

    /// Writes the start index and the pool key; fails with `InvalidStartTick`, changing
    /// nothing, when `start_tick_index` is no valid start at the pool's spacing.
    pub fn initialize(&mut self, pool_id: &[u8; 32], tick_spacing: u16, start_tick_index: i32) -> (r:
        Result<(), ErrorCode>)
        requires
            loader_wf(old(self)@),
            tick_spacing > 0,
        ensures
            loader_wf(final(self)@),
            match r {
                Ok(()) => {
                    &&& is_valid_start_tick(start_tick_index as int, tick_spacing as int)
                    &&& start_index_of(final(self)@) == start_tick_index
                    &&& pool_of(final(self)@) == pool_id@
                    &&& final(self)@.subrange(36, Self::LEN as int) == old(self)@.subrange(
                        36,
                        Self::LEN as int,
                    )
                },
                Err(e) => {
                    &&& !is_valid_start_tick(start_tick_index as int, tick_spacing as int)
                    &&& e == ErrorCode::InvalidStartTick
                    &&& final(self)@ == old(self)@
                },
            },
    {
        if !Tick::check_is_valid_start_tick(start_tick_index, tick_spacing) {
            return Err(ErrorCode::InvalidStartTick);
        }
        proof {
            crate::tick::lemma_valid_start_bounds(start_tick_index as int, tick_spacing as int);
        }
        let ghost d0 = self.data@;
        let start_bytes = u32_to_le_bytes(#[verifier::truncate] (start_tick_index as u32));
        write_bytes(&mut self.data, Self::START_TICK_INDEX_OFFSET, start_bytes.as_slice());
        write_bytes(&mut self.data, Self::POOL_OFFSET, pool_id.as_slice());
        proof {
            let d = self.data@;
            lemma_auto_spec_u32_to_from_le_bytes();
            assert(spec_u32_to_le_bytes(start_tick_index as u32).len() == 4);
            assert(d.subrange(0, 4) =~= spec_u32_to_le_bytes(start_tick_index as u32));
            lemma_i32_bits(start_tick_index);
            assert(pool_of(d) =~= pool_id@);
            assert(d.subrange(36, Self::LEN as int) =~= d0.subrange(36, Self::LEN as int));
            assert(d.subrange(36, 52) =~= d0.subrange(36, 52));
            assert(forall|k: int| 36 <= k < d.len() ==> d[k] == d0[k]);
            assert(start_index_of(d) == start_tick_index);
            assert(bitmap_of(d) == bitmap_of(d0));
            assert(start_in_range(start_index_of(d)));
            let b = bitmap_of(d);
            assert forall|i: int| 0 <= i < SLOT_COUNT implies d[SLOTS_BASE + #[trigger] record_start(
                b,
                i,
            )] == if bit_set(b, i) {
                1u8
            } else {
                0u8
            } by {
                lemma_record_order(b, i, SLOT_COUNT as int);
            }
        }
        Ok(())
    }

    /// Whether `d` holds a well-formed packed array.
    fn check_layout(d: &[u8]) -> (r: bool)
        ensures
            r == loader_wf(d@),
    {
        if d.len() != Self::LEN {
            return false;
        }
        let start = read_i32(d, Self::START_TICK_INDEX_OFFSET);
        if start < MIN_TICK - MAX_ARRAY_SPAN || start > MAX_TICK {
            return false;
        }
        let tick_bitmap = read_u128(d, Self::TICK_BITMAP_OFFSET);
        if tick_bitmap >> 60u32 != 0 {
            return false;
        }
        let mut pos: usize = 0;
        let mut offset: usize = 0;
        while offset < TICK_ARRAY_SIZE_USIZE
            invariant
                d@.len() == Self::LEN,
                tick_bitmap == bitmap_of(d@),
                0 <= offset <= SLOT_COUNT,
                pos == record_start(tick_bitmap, offset as int),
                forall|i: int|
                    0 <= i < offset ==> d@[SLOTS_BASE + #[trigger] record_start(tick_bitmap, i)]
                        == if bit_set(tick_bitmap, i) {
                        1u8
                    } else {
                        0u8
                    },
            decreases SLOT_COUNT - offset,
        {
            proof {
                crate::packed::lemma_record_step(tick_bitmap, offset as int);
                crate::bitmap::lemma_ones_below_le(tick_bitmap, offset as nat);
            }
            let initialized = Self::is_initialized_tick(&tick_bitmap, offset as isize);
            let tag: u8 = d[Self::TICK_DATA_OFFSET + pos];
            if initialized {
                if tag != 1 {
                    return false;
                }
                pos = pos + DynamicTick::INITIALIZED_LEN;
            } else {
                if tag != 0 {
                    return false;
                }
                pos = pos + DynamicTick::UNINITIALIZED_LEN;
            }
            offset = offset + 1;
        }
        true
    }

    /// Where the slot of `tick_offset` begins in the packed region: 113 bytes for each
    /// lower initialized offset, one for each lower empty one, the initialized ones counted
    /// at once from the masked bitmap. Fails with `TickNotFound` on a negative offset.
    pub fn byte_offset(&self, tick_offset: isize) -> (r: Result<usize, ErrorCode>)
        requires
            self@.len() >= Self::TICK_DATA_OFFSET,
            tick_offset < 128,
        ensures
            tick_offset < 0 ==> r == Err::<usize, ErrorCode>(ErrorCode::TickNotFound),
            tick_offset >= 0 ==> r == Ok::<usize, ErrorCode>(
                (tick_offset + 112 * ones_below(bitmap_of(self@), tick_offset as nat)) as usize,
            ),
    {
        if tick_offset < 0 {
            return Err(ErrorCode::TickNotFound);
        }
        let tick_bitmap = self.tick_bitmap();
        proof {
            lemma_low_mask_defined(tick_offset as u128);
            lemma_popcount_low_mask(tick_bitmap, tick_offset as u128);
            crate::bitmap::lemma_ones_below_le(tick_bitmap, tick_offset as nat);
        }
        let mask: u128 = (1u128 << tick_offset as u32) - 1;
        assert(mask == low_mask(tick_offset as u128));
        let initialized_ticks = count_ones(tick_bitmap & mask) as usize;
        let uninitialized_ticks = tick_offset as usize - initialized_ticks;
        let offset = initialized_ticks * DynamicTick::INITIALIZED_LEN + uninitialized_ticks
            * DynamicTick::UNINITIALIZED_LEN;
        Ok(offset)
    }

    fn tick_bitmap(&self) -> (r: u128)
        requires
            self@.len() >= Self::TICK_DATA_OFFSET,
        ensures
            r == bitmap_of(self@),
    {
        read_u128(self.data.as_slice(), Self::TICK_BITMAP_OFFSET)
    }

    fn update_tick_bitmap(&mut self, tick_offset: isize, initialized: bool)
        requires
            old(self)@.len() >= Self::TICK_DATA_OFFSET,
            0 <= tick_offset < 128,
        ensures
            final(self)@ == written(
                old(self)@,
                Self::TICK_BITMAP_OFFSET as int,
                le16(bitmap_with(bitmap_of(old(self)@), tick_offset as int, initialized)),
            ),
    {
        let mut tick_bitmap = self.tick_bitmap();
        if initialized {
            tick_bitmap = tick_bitmap | (1u128 << tick_offset as u32);
        } else {
            tick_bitmap = tick_bitmap & !(1u128 << tick_offset as u32);
        }
        let bytes = u128_to_le_bytes(tick_bitmap);
        write_bytes(&mut self.data, Self::TICK_BITMAP_OFFSET, bytes.as_slice());
    }

    fn is_initialized_tick(tick_bitmap: &u128, tick_offset: isize) -> (r: bool)
        requires
            0 <= tick_offset < 128,
        ensures
            r == bit_set(*tick_bitmap, tick_offset as int),
    {
        proof {
            lemma_set_clear_bits(*tick_bitmap, tick_offset as u128);
        }
        (*tick_bitmap & (1u128 << tick_offset as u32)) != 0
    }
}

impl TickArrayType for DynamicTickArrayLoader {
    open spec fn wf(&self) -> bool {
        loader_wf(self@)
    }

    open spec fn spec_start_tick_index(&self) -> int {
        start_index_of(self@)
    }

    open spec fn spec_pool(&self) -> Seq<u8> {
        pool_of(self@)
    }

    open spec fn spec_ticks(&self) -> Seq<Tick> {
        loader_ticks(self@)
    }

    open spec fn spec_variable_size(&self) -> bool {
        true
    }

    open spec fn stored_tick(&self, update: TickUpdate) -> Tick {
        tick_of_dynamic(dynamic_of_update(update))
    }

    fn is_variable_size(&self) -> (r: bool) {
        true
    }

    fn start_tick_index(&self) -> (r: i32) {
        read_i32(self.data.as_slice(), Self::START_TICK_INDEX_OFFSET)
    }

    fn pool(&self) -> (r: [u8; 32]) {
        let mut key = [0u8; 32];
        let mut i: usize = 0;
        while i < 32
            invariant
                loader_wf(self@),
                0 <= i <= 32,
                forall|k: int| 0 <= k < i ==> key@[k] == self@[Self::POOL_OFFSET + k],
            decreases 32 - i,
        {
            key[i] = self.data[Self::POOL_OFFSET + i];
            i = i + 1;
        }
        assert(key@ =~= pool_of(self@));
        key
    }

    fn initialized_tick_count(&self) -> (r: u8) {
        let tick_bitmap = self.tick_bitmap();
        proof {
            lemma_high_bits_clear(tick_bitmap);
            lemma_ones_below_clear_above(tick_bitmap, SLOT_COUNT as nat, 128);
            lemma_count_matches(self@, SLOT_COUNT as int);
            crate::bitmap::lemma_ones_below_le(tick_bitmap, SLOT_COUNT as nat);
        }
        count_ones(tick_bitmap) as u8
    }

    fn get_next_init_tick_index(&self, tick_index: i32, tick_spacing: u16, a_to_b: bool) -> (r:
        Result<Option<i32>, ErrorCode>) {
        if !self.in_search_range(tick_index, tick_spacing, !a_to_b) {
            return Err(ErrorCode::InvalidTickArraySequence);
        }
        let ghost start = start_index_of(self@);
        let ghost ticks = loader_ticks(self@);
        let ghost o = offset_of(start, tick_index as int, tick_spacing as int);
        proof {
            if a_to_b {
                lemma_offset_in_window(tick_index - start, tick_spacing as int, 0);
            } else {
                lemma_offset_in_window(tick_index - start, tick_spacing as int, -1);
            }
        }
        let mut curr_offset = match self.tick_offset(tick_index, tick_spacing) {
            Ok(value) => value as i32,
            Err(e) => return Err(e),
        };
        // Moving down, the current offset itself may hold the next tick; moving up, the
        // search starts one offset higher.
        if !a_to_b {
            curr_offset = curr_offset + 1;
        }
        let tick_bitmap = self.tick_bitmap();
        while 0 <= curr_offset && curr_offset < TICK_ARRAY_SIZE
            invariant
                loader_wf(self@),
                tick_bitmap == bitmap_of(self@),
                start == start_index_of(self@),
                ticks == loader_ticks(self@),
                tick_spacing > 0,
                in_window(start, tick_index as int, tick_spacing as int, !a_to_b),
                o == offset_of(start, tick_index as int, tick_spacing as int),
                -1 <= curr_offset <= TICK_ARRAY_SIZE,
                a_to_b ==> last_init_upto(ticks, o) == last_init_upto(ticks, curr_offset as int),
                !a_to_b ==> first_init_from(ticks, o + 1) == first_init_from(
                    ticks,
                    curr_offset as int,
                ),
            decreases if a_to_b {
                curr_offset + 1
            } else {
                TICK_ARRAY_SIZE - curr_offset
            },
        {
            let initialized = Self::is_initialized_tick(&tick_bitmap, curr_offset as isize);
            assert(ticks[curr_offset as int].initialized == initialized);
            if initialized {
                let start_tick_index = self.start_tick_index();
                assert(0 <= curr_offset * tick_spacing <= 60 * 65535) by (nonlinear_arith)
                    requires
                        0 <= curr_offset < 60,
                        0 < tick_spacing <= 65535,
                ;
                assert(a_to_b ==> last_init_upto(ticks, curr_offset as int) == Some(
                    curr_offset as int,
                ));
                assert(!a_to_b ==> first_init_from(ticks, curr_offset as int) == Some(
                    curr_offset as int,
                ));
                return Ok(Some((curr_offset * tick_spacing as i32) + start_tick_index));
            }
            curr_offset = if a_to_b {
                curr_offset - 1
            } else {
                curr_offset + 1
            };
        }
        assert(a_to_b ==> last_init_upto(ticks, curr_offset as int) == None::<int>);
        assert(!a_to_b ==> first_init_from(ticks, curr_offset as int) == None::<int>);
        Ok(None)
    }

    fn get_tick(&self, tick_index: i32, tick_spacing: u16) -> (r: Result<Tick, ErrorCode>) {
        if !self.check_in_array_bounds(tick_index, tick_spacing) || !Tick::check_is_usable_tick(
            tick_index,
            tick_spacing,
        ) {
            return Err(ErrorCode::TickNotFound);
        }
        let ghost start = start_index_of(self@);
        proof {
            lemma_offset_in_window(tick_index - start, tick_spacing as int, 0);
        }
        let tick_offset = match self.tick_offset(tick_index, tick_spacing) {
            Ok(value) => value,
            Err(e) => return Err(e),
        };
        let byte_offset = match self.byte_offset(tick_offset) {
            Ok(value) => value,
            Err(e) => return Err(e),
        };
        proof {
            lemma_read_slot(self@, bitmap_of(self@), tick_offset as int);
        }
        match DynamicTick::read(self.data.as_slice(), Self::TICK_DATA_OFFSET + byte_offset) {
            Ok(tick) => Ok(tick.to_tick()),
            Err(e) => Err(e),
        }
    }

    /// An update that keeps the tick's state rewrites its slot in place and nothing else.
    fn update_tick(&mut self, tick_index: i32, tick_spacing: u16, update: &TickUpdate) -> (r:
        Result<bool, ErrorCode>)
        ensures
            ({
                let start = start_index_of(old(self)@);
                let o = offset_of(start, tick_index as int, tick_spacing as int);
                let b = bitmap_of(old(self)@);
                holds_tick(start, tick_index as int, tick_spacing as int) && bit_set(b, o)
                    == update.initialized ==> final(self)@ == written(
                    old(self)@,
                    SLOTS_BASE + record_start(b, o),
                    dynamic_tick_bytes(dynamic_of_update(*update)),
                )
            }),
    {
        if !self.check_in_array_bounds(tick_index, tick_spacing) || !Tick::check_is_usable_tick(
            tick_index,
            tick_spacing,
        ) {
            return Err(ErrorCode::TickNotFound);
        }
        let ghost d0 = self@;
        let ghost b0 = bitmap_of(d0);
        let ghost start = start_index_of(d0);
        proof {
            lemma_offset_in_window(tick_index - start, tick_spacing as int, 0);
        }
        let tick_offset = match self.tick_offset(tick_index, tick_spacing) {
            Ok(value) => value,
            Err(e) => return Err(e),
        };
        let byte_offset = match self.byte_offset(tick_offset) {
            Ok(value) => value,
            Err(e) => return Err(e),
        };
        let ghost o = tick_offset as int;
        proof {
            lemma_read_slot(d0, b0, o);
            lemma_record_order(b0, o, SLOT_COUNT as int);
            crate::packed::lemma_record_step(b0, o);
        }
        let tick: Tick = match DynamicTick::read(
            self.data.as_slice(),
            Self::TICK_DATA_OFFSET + byte_offset,
        ) {
            Ok(value) => value.to_tick(),
            Err(e) => return Err(e),
        };
        let flipped = tick.initialized != update.initialized;
        let p: usize = Self::TICK_DATA_OFFSET + byte_offset;
        // A tick that becomes initialized needs a full slot: move the rest of the region
        // up by a payload, wrapping its unused tail round into the gap.
        if !tick.initialized && update.initialized {
            proof {
                lemma_room_for_one_more(b0, o);
                lemma_rotation_keeps_header(d0, p as int, DynamicTickData::LEN as int);
            }
            rotate_right_from(&mut self.data, p, DynamicTickData::LEN);
            self.update_tick_bitmap(tick_offset, true);
        }
        // A tick that becomes empty gives its payload back: move the rest down by a payload.
        if tick.initialized && !update.initialized {
            proof {
                lemma_rotation_keeps_header(d0, p as int, DynamicTickData::LEN as int);
            }
            rotate_left_from(&mut self.data, p, DynamicTickData::LEN);
            self.update_tick_bitmap(tick_offset, false);
        }
        let slot = DynamicTick::from_update(update);
        let bytes = slot.to_bytes();
        proof {
            if let DynamicTick::Initialized(x) = slot {
                lemma_tick_data_len(x);
            }
        }
        write_bytes(&mut self.data, p, bytes.as_slice());
        proof {
            if !tick.initialized && update.initialized {
                lemma_grow(d0, o, slot, self@);
            } else if tick.initialized && !update.initialized {
                lemma_shrink(d0, o, self@);
            } else {
                lemma_overwrite(d0, o, slot, self@);
            }
        }
        Ok(flipped)
    }

    fn clear_tick(&mut self, tick_index: i32, tick_spacing: u16) -> (r: Result<(), ErrorCode>) {
        let update = TickUpdate::default();
        match self.update_tick(tick_index, tick_spacing, &update) {
            Ok(_) => Ok(()),
            Err(e) => Err(e),
        }
    }
}

} // verus!
