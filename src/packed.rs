use vstd::prelude::*;

use crate::bitmap::{
    bit_set, bit_value, lemma_ones_below_flip, lemma_ones_below_le, lemma_ones_below_with_clear_bit,
    ones_below,
};
use crate::dynamic_tick_array::{
    dynamic_tick_at, dynamic_tick_bytes, lemma_tick_data_frame, lemma_tick_data_round_trip,
    tick_data_at, DynamicTick, DynamicTickData,
};

verus! {

/// Where the packed slots begin in a dynamic array's buffer: after the start index, the
/// pool key and the occupancy bitmap.
pub const SLOTS_BASE: usize = 52;

/// Number of slots in a packed array.
pub const SLOT_COUNT: usize = 60;

/// Size of the packed region when every slot is initialized.
pub const SLOTS_CAPACITY: usize = 6780;

/// Where slot `i` starts, counted from `SLOTS_BASE`: each lower initialized slot takes
/// 113 bytes and each lower empty one a single byte.
pub open spec fn record_start(b: u128, i: int) -> int {
    i + 112 * ones_below(b, i as nat)
}

/// Size of slot `i`.
pub open spec fn record_len(b: u128, i: int) -> int {
    if bit_set(b, i) {
        113
    } else {
        1
    }
}

/// The slot `i` of buffer `d` under bitmap `b`.
pub open spec fn slot_at(d: Seq<u8>, b: u128, i: int) -> DynamicTick {
    if bit_set(b, i) {
        DynamicTick::Initialized(tick_data_at(d, SLOTS_BASE + record_start(b, i) + 1))
    } else {
        DynamicTick::Uninitialized
    }
}

/// The slots of buffer `d` under bitmap `b`, in offset order.
pub open spec fn slots(d: Seq<u8>, b: u128) -> Seq<DynamicTick> {
    Seq::new(SLOT_COUNT as nat, |i: int| slot_at(d, b, i))
}

/// Buffer `d` is a well-formed packed array under bitmap `b`: no bit at or above the slot
/// count (60) is set, and every slot begins with the tag that its bit calls for.
pub open spec fn packed_wf(d: Seq<u8>, b: u128) -> bool {
    &&& d.len() == SLOTS_BASE + SLOTS_CAPACITY
    &&& b >> 60u128 == 0u128
    &&& forall|i: int|
        0 <= i < SLOT_COUNT ==> d[SLOTS_BASE + #[trigger] record_start(b, i)] == if bit_set(b, i) {
            1u8
        } else {
            0u8
        }
}

/// Each slot ends where the next one begins.
pub proof fn lemma_record_step(b: u128, i: int)
    requires
        0 <= i,
    ensures
        record_start(b, i + 1) == record_start(b, i) + record_len(b, i),
{
    assert(ones_below(b, (i + 1) as nat) == ones_below(b, i as nat) + bit_value(b, i));
}

/// Slots lie in order and do not overlap; all of them fit in the packed region.
pub proof fn lemma_record_order(b: u128, i: int, j: int)
    requires
        0 <= i < j,
    ensures
        record_start(b, i) + record_len(b, i) <= record_start(b, j),
        record_start(b, j) <= j * 113,
    decreases j - i,
{
    lemma_record_step(b, i);
    lemma_ones_below_le(b, j as nat);
    if i + 1 < j {
        lemma_record_order(b, i + 1, j);
    }
}

/// In a well-formed buffer, reading the slot that starts at slot `i`'s place gives the
/// slot that the model holds there.
pub proof fn lemma_read_slot(d: Seq<u8>, b: u128, i: int)
    requires
        packed_wf(d, b),
        0 <= i < SLOT_COUNT,
    ensures
        dynamic_tick_at(d, SLOTS_BASE + record_start(b, i)) == Some(slot_at(d, b, i)),
        SLOTS_BASE + record_start(b, i) + record_len(b, i) <= d.len(),
{
    lemma_record_order(b, i, SLOT_COUNT as int);
    assert(d[SLOTS_BASE + record_start(b, i)] == if bit_set(b, i) {
        1u8
    } else {
        0u8
    });
}

/// Rewriting slot `o` of a well-formed buffer keeps it well formed, and changes slot `o`
/// alone, provided that the bytes before the slot stay where they were, the slot holds
/// the new encoding, the bytes after it move by the change in its size, and the bitmap
/// changes in bit `o` alone, to match the new slot.
pub proof fn lemma_repack(d0: Seq<u8>, b0: u128, d1: Seq<u8>, b1: u128, o: int, t: DynamicTick)
    requires
        packed_wf(d0, b0),
        d1.len() == d0.len(),
        0 <= o < SLOT_COUNT,
        forall|i: int| 0 <= i < 128 && i != o ==> bit_set(b1, i) == bit_set(b0, i),
        bit_set(b1, o) == (t is Initialized),
        b1 >> 60u128 == 0u128,
        forall|k: int|
            SLOTS_BASE <= k < SLOTS_BASE + record_start(b0, o) ==> #[trigger] d1[k] == d0[k],
        d1.subrange(
            SLOTS_BASE + record_start(b0, o),
            SLOTS_BASE + record_start(b0, o) + dynamic_tick_bytes(t).len(),
        ) == dynamic_tick_bytes(t),
        forall|k: int|
            SLOTS_BASE + record_start(b0, o) + record_len(b0, o) <= k < SLOTS_BASE + record_start(
                b0,
                SLOT_COUNT as int,
            ) ==> #[trigger] d1[k + record_len(b1, o) - record_len(b0, o)] == d0[k],
        SLOTS_BASE + record_start(b0, SLOT_COUNT as int) + record_len(b1, o) - record_len(b0, o)
            <= d1.len(),
    ensures
        packed_wf(d1, b1),
        slots(d1, b1) == slots(d0, b0).update(o, t),
{
    assert forall|i: int| 0 <= i < SLOT_COUNT implies #[trigger] slot_at(d1, b1, i) == (if i == o {
        t
    } else {
        slot_at(d0, b0, i)
    }) by {
        lemma_repack_slot(d0, b0, d1, b1, o, t, i);
    }
    assert forall|i: int| 0 <= i < SLOT_COUNT implies d1[SLOTS_BASE + #[trigger] record_start(
        b1,
        i,
    )] == if bit_set(b1, i) {
        1u8
    } else {
        0u8
    } by {
        lemma_repack_slot(d0, b0, d1, b1, o, t, i);
    }
    assert(slots(d1, b1) =~= slots(d0, b0).update(o, t));
}

proof fn lemma_repack_slot(
    d0: Seq<u8>,
    b0: u128,
    d1: Seq<u8>,
    b1: u128,
    o: int,
    t: DynamicTick,
    i: int,
)
    requires
        packed_wf(d0, b0),
        d1.len() == d0.len(),
        0 <= o < SLOT_COUNT,
        forall|i: int| 0 <= i < 128 && i != o ==> bit_set(b1, i) == bit_set(b0, i),
        bit_set(b1, o) == (t is Initialized),
        b1 >> 60u128 == 0u128,
        forall|k: int|
            SLOTS_BASE <= k < SLOTS_BASE + record_start(b0, o) ==> #[trigger] d1[k] == d0[k],
        d1.subrange(
            SLOTS_BASE + record_start(b0, o),
            SLOTS_BASE + record_start(b0, o) + dynamic_tick_bytes(t).len(),
        ) == dynamic_tick_bytes(t),
        forall|k: int|
            SLOTS_BASE + record_start(b0, o) + record_len(b0, o) <= k < SLOTS_BASE + record_start(
                b0,
                SLOT_COUNT as int,
            ) ==> #[trigger] d1[k + record_len(b1, o) - record_len(b0, o)] == d0[k],
        SLOTS_BASE + record_start(b0, SLOT_COUNT as int) + record_len(b1, o) - record_len(b0, o)
            <= d1.len(),
        0 <= i < SLOT_COUNT,
    ensures
        slot_at(d1, b1, i) == (if i == o {
            t
        } else {
            slot_at(d0, b0, i)
        }),
        d1[SLOTS_BASE + record_start(b1, i)] == if bit_set(b1, i) {
            1u8
        } else {
            0u8
        },
{
    let n0 = record_len(b0, o);
    let n1 = record_len(b1, o);
    let delta = n1 - n0;
    let p = SLOTS_BASE + record_start(b0, o);
    let enc = dynamic_tick_bytes(t);
    assert(enc.len() == n1) by {
        match t {
            DynamicTick::Uninitialized => {},
            DynamicTick::Initialized(x) => {
                lemma_tick_data_len(x);
            },
        }
    }
    lemma_record_order(b0, o, SLOT_COUNT as int);
    lemma_record_step(b0, o);
    // counts below each slot
    assert forall|i: int| 0 <= i <= SLOT_COUNT implies #[trigger] record_start(b1, i) == if i
        <= o {
        record_start(b0, i)
    } else {
        record_start(b0, i) + delta
    } by {
        lemma_ones_below_flip(b0, b1, o, i as nat);
    }
    let q0 = SLOTS_BASE + record_start(b0, i);
    let q1 = SLOTS_BASE + record_start(b1, i);
    assert(d0[q0] == if bit_set(b0, i) {
        1u8
    } else {
        0u8
    });
    lemma_record_order(b0, i, SLOT_COUNT as int);
    if i < o {
        lemma_record_order(b0, i, o);
        assert(d1[q1] == d0[q0]);
        if bit_set(b0, i) {
            let s1 = d1.subrange(q1 + 1, q1 + 1 + DynamicTickData::LEN);
            let s0 = d0.subrange(q0 + 1, q0 + 1 + DynamicTickData::LEN);
            assert forall|k: int| 0 <= k < DynamicTickData::LEN implies #[trigger] s1[k]
                == s0[k] by {
                assert(d1[q0 + 1 + k] == d0[q0 + 1 + k]);
            }
            assert(s1 =~= s0);
            lemma_tick_data_frame(d1, q1 + 1, d0, q0 + 1);
        }
    } else if i == o {
        assert(d1[q1] == enc[0]);
        match t {
            DynamicTick::Uninitialized => {},
            DynamicTick::Initialized(x) => {
                lemma_tick_data_len(x);
                assert(d1.subrange(q1 + 1, q1 + 1 + DynamicTickData::LEN) =~= enc.subrange(
                    1,
                    113,
                ));
                assert(enc.subrange(1, 113) =~= crate::dynamic_tick_array::tick_data_bytes(x));
                lemma_tick_data_round_trip(d1, q1 + 1, x);
            },
        }
    } else {
        lemma_record_order(b0, o, i);
        assert(d1[q0 + record_len(b1, o) - record_len(b0, o)] == d0[q0]);
        if bit_set(b0, i) {
            let s1 = d1.subrange(q1 + 1, q1 + 1 + DynamicTickData::LEN);
            let s0 = d0.subrange(q0 + 1, q0 + 1 + DynamicTickData::LEN);
            assert forall|k: int| 0 <= k < DynamicTickData::LEN implies #[trigger] s1[k]
                == s0[k] by {
                assert(d1[(q0 + 1 + k) + record_len(b1, o) - record_len(b0, o)] == d0[q0 + 1 + k]);
            }
            assert(s1 =~= s0);
            lemma_tick_data_frame(d1, q1 + 1, d0, q0 + 1);
        }
    }
}

proof fn lemma_high_bit(b: u128, i: u128)
    by (bit_vector)
    requires
        b >> 60u128 == 0u128,
        60 <= i < 128,
    ensures
        (b >> i) & 1u128 == 0u128,
{
}

proof fn lemma_high_bits_kept(b: u128, o: u128)
    by (bit_vector)
    requires
        b >> 60u128 == 0u128,
        o < 60,
    ensures
        (b | (1u128 << o)) >> 60u128 == 0u128,
        (b & !(1u128 << o)) >> 60u128 == 0u128,
{
}

/// A bitmap with nothing set from bit 60 up has no set bit there.
pub proof fn lemma_high_bits_clear(b: u128)
    requires
        b >> 60u128 == 0u128,
    ensures
        forall|i: int| SLOT_COUNT <= i < 128 ==> !#[trigger] bit_set(b, i),
{
    assert forall|i: int| SLOT_COUNT <= i < 128 implies !#[trigger] bit_set(b, i) by {
        lemma_high_bit(b, i as u128);
    }
}

/// Setting or clearing a slot's bit keeps the bits from 60 up clear.
pub proof fn lemma_bitmap_stays_low(b: u128, o: u128)
    requires
        b >> 60u128 == 0u128,
        o < 60,
    ensures
        (b | (1u128 << o)) >> 60u128 == 0u128,
        (b & !(1u128 << o)) >> 60u128 == 0u128,
{
    lemma_high_bits_kept(b, o);
}

/// A payload takes 112 bytes.
pub proof fn lemma_tick_data_len(x: DynamicTickData)
    ensures
        crate::dynamic_tick_array::tick_data_bytes(x).len() == DynamicTickData::LEN,
{
    crate::codec::lemma_le16(x.liquidity_net as u128);
    crate::codec::lemma_le16(x.liquidity_gross);
    crate::codec::lemma_le16(x.fee_growth_outside_a);
    crate::codec::lemma_le16(x.fee_growth_outside_b);
    crate::codec::lemma_le16(x.reward_growths_outside[0]);
    crate::codec::lemma_le16(x.reward_growths_outside[1]);
    crate::codec::lemma_le16(x.reward_growths_outside[2]);
}

/// With a clear bit among the slots, one more initialized slot still fits.
pub proof fn lemma_room_for_one_more(b: u128, o: int)
    requires
        0 <= o < SLOT_COUNT,
        !bit_set(b, o),
    ensures
        record_start(b, SLOT_COUNT as int) + 112 <= SLOTS_CAPACITY,
{
    lemma_ones_below_with_clear_bit(b, SLOT_COUNT as nat, o);
}

} // verus!
