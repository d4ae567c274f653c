use vstd::prelude::*;

use crate::codec::write_bytes;
use crate::dynamic_tick_array::{
    lemma_offset_in_window, lemma_tick_data_frame, lemma_tick_data_round_trip, pool_of, read_i32,
    start_index_of, tick_data_at, tick_data_bytes, DynamicTickData,
};
use crate::error::ErrorCode;
use crate::packed::lemma_tick_data_len;
use crate::tick::{tick_of_update, Tick, TickUpdate};
use crate::tick_array::{
    count_initialized, first_init_from, in_window, last_init_upto, offset_of, start_in_range,
    TickArrayType, TICK_ARRAY_SIZE, TICK_ARRAY_SIZE_USIZE,
};

verus! {

/// Where the tick records begin: after the start index and the pool key.
pub const FIXED_TICKS_BASE: usize = 36;

/// The payload of a fixed tick record: every field but the flag.
pub open spec fn payload_of_tick(t: Tick) -> DynamicTickData {
    DynamicTickData {
        liquidity_net: t.liquidity_net,
        liquidity_gross: t.liquidity_gross,
        fee_growth_outside_a: t.fee_growth_outside_0_x64,
        fee_growth_outside_b: t.fee_growth_outside_1_x64,
        reward_growths_outside: t.reward_growths_outside,
    }
}

/// The 113 bytes of a fixed tick record: the flag byte, then the payload.
pub open spec fn tick_record_bytes(t: Tick) -> Seq<u8> {
    seq![if t.initialized { 1u8 } else { 0u8 }] + tick_data_bytes(payload_of_tick(t))
}

/// The tick whose record starts at `pos`; any nonzero flag byte counts as initialized.
pub open spec fn tick_record_at(d: Seq<u8>, pos: int) -> Tick {
    let x = tick_data_at(d, pos + 1);
    Tick {
        initialized: d[pos] != 0,
        liquidity_net: x.liquidity_net,
        liquidity_gross: x.liquidity_gross,
        fee_growth_outside_0_x64: x.fee_growth_outside_a,
        fee_growth_outside_1_x64: x.fee_growth_outside_b,
        reward_growths_outside: x.reward_growths_outside,
    }
}

/// Where record `i` starts.
pub open spec fn fixed_record_start(i: int) -> int {
    FIXED_TICKS_BASE + Tick::LEN * i
}

/// A buffer that holds a fixed array.
pub open spec fn fixed_wf(d: Seq<u8>) -> bool {
    &&& d.len() == FixedTickArray::LEN
    &&& start_in_range(start_index_of(d))
}

/// The ticks of a fixed array.
pub open spec fn fixed_ticks(d: Seq<u8>) -> Seq<Tick> {
    Seq::new(TICK_ARRAY_SIZE as nat, |i: int| tick_record_at(d, fixed_record_start(i)))
}

/// A tick array with one full record per offset: a view over the bytes that follow the
/// account's type tag, laid out as the start index, the pool key, then 60 records.
#[derive(Debug)]
pub struct FixedTickArray {
    data: Vec<u8>,
}

impl View for FixedTickArray {
    type V = Seq<u8>;

    closed spec fn view(&self) -> Seq<u8> {
        self.data@
    }
}

proof fn lemma_record_round_trip(d: Seq<u8>, pos: int, t: Tick)
    requires
        0 <= pos,
        pos + Tick::LEN <= d.len(),
        d.subrange(pos, pos + Tick::LEN) == tick_record_bytes(t),
    ensures
        tick_record_at(d, pos) == t,
{
    let x = payload_of_tick(t);
    lemma_tick_data_len(x);
    assert(d.subrange(pos + 1, pos + 1 + DynamicTickData::LEN) =~= tick_data_bytes(x)) by {
        assert(tick_record_bytes(t).subrange(1, 113) =~= tick_data_bytes(x));
    }
    assert(d[pos] == tick_record_bytes(t)[0]);
    lemma_tick_data_round_trip(d, pos + 1, x);
}

proof fn lemma_record_frame(d0: Seq<u8>, d1: Seq<u8>, pos: int)
    requires
        0 <= pos,
        pos + Tick::LEN <= d0.len(),
        pos + Tick::LEN <= d1.len(),
        forall|k: int| pos <= k < pos + Tick::LEN ==> #[trigger] d1[k] == d0[k],
    ensures
        tick_record_at(d1, pos) == tick_record_at(d0, pos),
{
    assert(d1.subrange(pos + 1, pos + 1 + DynamicTickData::LEN) =~= d0.subrange(
        pos + 1,
        pos + 1 + DynamicTickData::LEN,
    ));
    assert(d1[pos] == d0[pos]);
    lemma_tick_data_frame(d1, pos + 1, d0, pos + 1);
}

impl FixedTickArray {
    /// Size of the buffer that follows the type tag.
    pub const LEN: usize = 36 + 6780;

    /// The account type tag: the first 8 bytes of the SHA-256 of `account:FixedTickArray`.
    pub const DISCRIMINATOR: [u8; 8] = [105, 39, 44, 195, 191, 2, 118, 129];

    /// Takes a buffer as a fixed array; fails unless it has the right size and a start
    /// index that can occur.
    pub fn load(data: Vec<u8>) -> (r: Result<FixedTickArray, ErrorCode>)
        ensures
            match r {
                Ok(a) => fixed_wf(data@) && a@ == data@,
                Err(e) => !fixed_wf(data@) && e == ErrorCode::AccountDidNotDeserialize,
            },
    {
        if data.len() != Self::LEN {
            return Err(ErrorCode::AccountDidNotDeserialize);
        }
        let start = read_i32(data.as_slice(), 0);
        if start < crate::tick::MIN_TICK - crate::tick_array::MAX_ARRAY_SPAN
            || start > crate::tick::MAX_TICK {
            return Err(ErrorCode::AccountDidNotDeserialize);
        }
        Ok(FixedTickArray { data })
    }

    /// The bytes of the array.
    pub fn as_bytes(&self) -> (r: &[u8])
        ensures
            r@ == self@,
    {
        self.data.as_slice()
    }

    /// Gives the bytes of the array back.
    pub fn into_bytes(self) -> (r: Vec<u8>)
        ensures
            r@ == self@,
    {
        self.data
    }

    fn is_initialized_at(&self, offset: usize) -> (r: bool)
        requires
            fixed_wf(self@),
            offset < TICK_ARRAY_SIZE_USIZE,
        ensures
            r == fixed_ticks(self@)[offset as int].initialized,
    {
        self.data[FIXED_TICKS_BASE + Tick::LEN * offset] != 0
    }

    fn read_tick(&self, offset: usize) -> (r: Tick)
        requires
            fixed_wf(self@),
            offset < TICK_ARRAY_SIZE_USIZE,
        ensures
            r == fixed_ticks(self@)[offset as int],
    {
        let pos: usize = FIXED_TICKS_BASE + Tick::LEN * offset;
        let x = DynamicTickData::read(self.data.as_slice(), pos + 1);
        Tick {
            initialized: self.data[pos] != 0,
            liquidity_net: x.liquidity_net,
            liquidity_gross: x.liquidity_gross,
            fee_growth_outside_0_x64: x.fee_growth_outside_a,
            fee_growth_outside_1_x64: x.fee_growth_outside_b,
            reward_growths_outside: x.reward_growths_outside,
        }
    }

    fn write_tick(&mut self, offset: usize, tick: &Tick)
        requires
            fixed_wf(old(self)@),
            offset < TICK_ARRAY_SIZE_USIZE,
        ensures
            fixed_wf(final(self)@),
            start_index_of(final(self)@) == start_index_of(old(self)@),
            pool_of(final(self)@) == pool_of(old(self)@),
            fixed_ticks(final(self)@) == fixed_ticks(old(self)@).update(offset as int, *tick),
    {
        let ghost d0 = self@;
        let pos: usize = FIXED_TICKS_BASE + Tick::LEN * offset;
        let mut bytes: Vec<u8> = Vec::new();
        bytes.push(if tick.initialized { 1u8 } else { 0u8 });
        let payload = DynamicTickData {
            liquidity_net: tick.liquidity_net,
            liquidity_gross: tick.liquidity_gross,
            fee_growth_outside_a: tick.fee_growth_outside_0_x64,
            fee_growth_outside_b: tick.fee_growth_outside_1_x64,
            reward_growths_outside: tick.reward_growths_outside,
        };
        let mut rest = payload.to_bytes();
        bytes.append(&mut rest);
        proof {
            lemma_tick_data_len(payload);
            assert(bytes@ =~= tick_record_bytes(*tick));
        }
        write_bytes(&mut self.data, pos, bytes.as_slice());
        proof {
            let d1 = self@;
            assert(d1.subrange(0, 4) =~= d0.subrange(0, 4));
            assert(pool_of(d1) =~= pool_of(d0));
            assert(d1.subrange(pos as int, pos + Tick::LEN) =~= tick_record_bytes(*tick));
            lemma_record_round_trip(d1, pos as int, *tick);
            assert forall|i: int| 0 <= i < TICK_ARRAY_SIZE implies #[trigger] fixed_ticks(d1)[i]
                == fixed_ticks(d0).update(offset as int, *tick)[i] by {
                if i != offset {
                    let q = fixed_record_start(i);
                    if i < offset {
                        assert(q + Tick::LEN <= pos);
                    } else {
                        assert(pos + Tick::LEN <= q);
                    }
                    lemma_record_frame(d0, d1, q);
                }
            }
            assert(fixed_ticks(d1) =~= fixed_ticks(d0).update(offset as int, *tick));
        }
    }
}

impl TickArrayType for FixedTickArray {
    open spec fn wf(&self) -> bool {
        fixed_wf(self@)
    }

    open spec fn spec_start_tick_index(&self) -> int {
        start_index_of(self@)
    }

    open spec fn spec_pool(&self) -> Seq<u8> {
        pool_of(self@)
    }

    open spec fn spec_ticks(&self) -> Seq<Tick> {
        fixed_ticks(self@)
    }

    open spec fn spec_variable_size(&self) -> bool {
        false
    }

    open spec fn stored_tick(&self, update: TickUpdate) -> Tick {
        tick_of_update(update)
    }

    fn is_variable_size(&self) -> (r: bool) {
        false
    }

    fn start_tick_index(&self) -> (r: i32) {
        read_i32(self.data.as_slice(), 0)
    }

    fn pool(&self) -> (r: [u8; 32]) {
        let mut key = [0u8; 32];
        let mut i: usize = 0;
        while i < 32
            invariant
                fixed_wf(self@),
                0 <= i <= 32,
                forall|k: int| 0 <= k < i ==> key@[k] == self@[4 + k],
            decreases 32 - i,
        {
            key[i] = self.data[4 + i];
            i = i + 1;
        }
        assert(key@ =~= pool_of(self@));
        key
    }

    fn initialized_tick_count(&self) -> (r: u8) {
        let mut count: u8 = 0;
        let mut i: usize = 0;
        while i < TICK_ARRAY_SIZE_USIZE
            invariant
                fixed_wf(self@),
                0 <= i <= TICK_ARRAY_SIZE,
                count == count_initialized(fixed_ticks(self@), i as int),
                count <= i,
            decreases TICK_ARRAY_SIZE - i,
        {
            if self.is_initialized_at(i) {
                count = count + 1;
            }
            i = i + 1;
        }
        count
    }

    fn get_next_init_tick_index(&self, tick_index: i32, tick_spacing: u16, a_to_b: bool) -> (r:
        Result<Option<i32>, ErrorCode>) {
        if !self.in_search_range(tick_index, tick_spacing, !a_to_b) {
            return Err(ErrorCode::InvalidTickArraySequence);
        }
        let ghost start = start_index_of(self@);
        let ghost ticks = fixed_ticks(self@);
        let ghost o = offset_of(start, tick_index as int, tick_spacing as int);
        proof {
            if a_to_b {
                lemma_offset_in_window(tick_index - start, tick_spacing as int, 0);
            } else {
                lemma_offset_in_window(tick_index - start, tick_spacing as int, -1);
            }
        }
        let mut curr_offset = match self.tick_offset(tick_index, tick_spacing) {
            Ok(value) => value as i32,
            Err(e) => return Err(e),
        };
        if !a_to_b {
            curr_offset = curr_offset + 1;
        }
        while 0 <= curr_offset && curr_offset < TICK_ARRAY_SIZE
            invariant
                fixed_wf(self@),
                start == start_index_of(self@),
                ticks == fixed_ticks(self@),
                tick_spacing > 0,
                in_window(start, tick_index as int, tick_spacing as int, !a_to_b),
                o == offset_of(start, tick_index as int, tick_spacing as int),
                -1 <= curr_offset <= TICK_ARRAY_SIZE,
                a_to_b ==> last_init_upto(ticks, o) == last_init_upto(ticks, curr_offset as int),
                !a_to_b ==> first_init_from(ticks, o + 1) == first_init_from(
                    ticks,
                    curr_offset as int,
                ),
            decreases if a_to_b {
                curr_offset + 1
            } else {
                TICK_ARRAY_SIZE - curr_offset
            },
        {
            if self.is_initialized_at(curr_offset as usize) {
                let start_tick_index = self.start_tick_index();
                assert(0 <= curr_offset * tick_spacing <= 60 * 65535) by (nonlinear_arith)
                    requires
                        0 <= curr_offset < 60,
                        0 < tick_spacing <= 65535,
                ;
                assert(a_to_b ==> last_init_upto(ticks, curr_offset as int) == Some(
                    curr_offset as int,
                ));
                assert(!a_to_b ==> first_init_from(ticks, curr_offset as int) == Some(
                    curr_offset as int,
                ));
                return Ok(Some((curr_offset * tick_spacing as i32) + start_tick_index));
            }
            curr_offset = if a_to_b {
                curr_offset - 1
            } else {
                curr_offset + 1
            };
        }
        assert(a_to_b ==> last_init_upto(ticks, curr_offset as int) == None::<int>);
        assert(!a_to_b ==> first_init_from(ticks, curr_offset as int) == None::<int>);
        Ok(None)
    }

    fn get_tick(&self, tick_index: i32, tick_spacing: u16) -> (r: Result<Tick, ErrorCode>) {
        if !self.check_in_array_bounds(tick_index, tick_spacing) || !Tick::check_is_usable_tick(
            tick_index,
            tick_spacing,
        ) {
            return Err(ErrorCode::TickNotFound);
        }
        let ghost start = start_index_of(self@);
        proof {
            lemma_offset_in_window(tick_index - start, tick_spacing as int, 0);
        }
        let tick_offset = match self.tick_offset(tick_index, tick_spacing) {
            Ok(value) => value,
            Err(e) => return Err(e),
        };
        Ok(self.read_tick(tick_offset as usize))
    }

    fn update_tick(&mut self, tick_index: i32, tick_spacing: u16, update: &TickUpdate) -> (r:
        Result<bool, ErrorCode>) {
        if !self.check_in_array_bounds(tick_index, tick_spacing) || !Tick::check_is_usable_tick(
            tick_index,
            tick_spacing,
        ) {
            return Err(ErrorCode::TickNotFound);
        }
        let ghost start = start_index_of(self@);
        proof {
            lemma_offset_in_window(tick_index - start, tick_spacing as int, 0);
        }
        let tick_offset = match self.tick_offset(tick_index, tick_spacing) {
            Ok(value) => value,
            Err(e) => return Err(e),
        };
        let mut tick = self.read_tick(tick_offset as usize);
        let flipped = tick.initialized != update.initialized;
        tick.update(update);
        self.write_tick(tick_offset as usize, &tick);
        Ok(flipped)
    }

    fn clear_tick(&mut self, tick_index: i32, tick_spacing: u16) -> (r: Result<(), ErrorCode>) {
        let update = TickUpdate::default();
        match self.update_tick(tick_index, tick_spacing, &update) {
            Ok(_) => Ok(()),
            Err(e) => Err(e),
        }
    }
}

} // verus!
