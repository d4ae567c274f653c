use vstd::prelude::*;
use vstd::slice::{slice_subrange, slice_to_vec};
use vstd::arithmetic::div_mod::{lemma_fundamental_div_mod, lemma_fundamental_div_mod_converse};

use crate::dynamic_tick_array::{loader_wf, pool_of, DynamicTickArray, DynamicTickArrayLoader};
use crate::error::ErrorCode;
use crate::fixed_tick_array::{fixed_wf, FixedTickArray};
use crate::tick::{
    empty_tick, is_usable_tick, tick_of_update, Tick, TickUpdate, MAX_TICK, MIN_TICK, REWARD_NUM,
};

verus! {

/// Number of ticks in one array.
pub const TICK_ARRAY_SIZE: i32 = 60;

/// Number of ticks in one array, as a length.
pub const TICK_ARRAY_SIZE_USIZE: usize = 60;

/// Largest span of one array: the array size at the largest spacing.
pub const MAX_ARRAY_SPAN: i32 = 3932100;

/// Whether an array start can occur at all: no valid start, at any spacing, lies outside.
pub open spec fn start_in_range(start: int) -> bool {
    MIN_TICK - MAX_ARRAY_SPAN <= start <= MAX_TICK
}

/// Lowest tick of the window that a search in this array may start from.
pub open spec fn search_lower(start: int, s: int, shifted: bool) -> int {
    if shifted {
        start - s
    } else {
        start
    }
}

/// End (exclusive) of the window that a search in this array may start from.
pub open spec fn search_upper(start: int, s: int, shifted: bool) -> int {
    if shifted {
        start + TICK_ARRAY_SIZE * s - s
    } else {
        start + TICK_ARRAY_SIZE * s
    }
}

/// Whether `t` lies in the window `[start, start + 60 s)`, moved down by `s` when shifted.
pub open spec fn in_window(start: int, t: int, s: int, shifted: bool) -> bool {
    search_lower(start, s, shifted) <= t < search_upper(start, s, shifted)
}

/// Offset of `t` in the array that starts at `start`: `(t - start) / s` rounded down.
pub open spec fn offset_of(start: int, t: int, s: int) -> int {
    (t - start) / s
}

/// Whether the array that starts at `start` holds the usable tick `t`.
pub open spec fn holds_tick(start: int, t: int, s: int) -> bool {
    s > 0 && in_window(start, t, s, false) && is_usable_tick(t, s)
}

/// The lowest offset at or above `o` whose tick is initialized.
pub open spec fn first_init_from(ticks: Seq<Tick>, o: int) -> Option<int>
    decreases ticks.len() - o,
{
    if o < 0 || o >= ticks.len() {
        None
    } else if ticks[o].initialized {
        Some(o)
    } else {
        first_init_from(ticks, o + 1)
    }
}

/// The highest offset at or below `o` whose tick is initialized.
pub open spec fn last_init_upto(ticks: Seq<Tick>, o: int) -> Option<int>
    decreases o + 1,
{
    if o < 0 || o >= ticks.len() {
        None
    } else if ticks[o].initialized {
        Some(o)
    } else {
        last_init_upto(ticks, o - 1)
    }
}

/// What a search for the next initialized tick returns: an error when `t` lies outside the
/// window for the direction; else the nearest initialized tick at or below `t` when moving
/// down (`a_to_b`), or strictly above it when moving up, if this array holds one.
pub open spec fn next_init_tick(
    start: int,
    ticks: Seq<Tick>,
    t: int,
    s: int,
    a_to_b: bool,
) -> Result<Option<i32>, ErrorCode> {
    if !in_window(start, t, s, !a_to_b) {
        Err(ErrorCode::InvalidTickArraySequence)
    } else {
        let o = offset_of(start, t, s);
        let found = if a_to_b {
            last_init_upto(ticks, o)
        } else {
            first_init_from(ticks, o + 1)
        };
        Ok(
            match found {
                Some(j) => Some((start + j * s) as i32),
                None => None,
            },
        )
    }
}

/// Number of initialized ticks among the `n` first.
pub open spec fn count_initialized(ticks: Seq<Tick>, n: int) -> nat
    decreases n,
{
    if n <= 0 {
        0
    } else {
        count_initialized(ticks, n - 1) + if ticks[n - 1].initialized {
            1nat
        } else {
            0nat
        }
    }
}

/// The operations that both ways of storing a tick array offer.
///
/// An array is modelled by its start index, its pool key and its 60 ticks in the fixed
/// `Tick` shape.
pub trait TickArrayType: Sized {
    /// The array's storage is consistent.
    spec fn wf(&self) -> bool;

    /// The tick index of offset 0.
    spec fn spec_start_tick_index(&self) -> int;

    /// The pool's key.
    spec fn spec_pool(&self) -> Seq<u8>;

    /// The ticks, by offset.
    spec fn spec_ticks(&self) -> Seq<Tick>;

    /// Whether the storage packs its ticks.
    spec fn spec_variable_size(&self) -> bool;

    /// The tick that this storage keeps for `update`.
    spec fn stored_tick(&self, update: TickUpdate) -> Tick;

    /// Whether the array packs its ticks.
    fn is_variable_size(&self) -> (r: bool)
        ensures
            r == self.spec_variable_size(),
    ;

    /// The tick index of offset 0.
    fn start_tick_index(&self) -> (r: i32)
        requires
            self.wf(),
        ensures
            r == self.spec_start_tick_index(),
            start_in_range(r as int),
    ;

    /// The key of the pool that the array belongs to.
    fn pool(&self) -> (r: [u8; 32])
        requires
            self.wf(),
        ensures
            r@ == self.spec_pool(),
    ;

    /// Number of initialized ticks.
    fn initialized_tick_count(&self) -> (r: u8)
        requires
            self.wf(),
        ensures
            r == count_initialized(self.spec_ticks(), TICK_ARRAY_SIZE as int),
    ;

    /// The nearest initialized tick from `tick_index` in the search direction (see
    /// `next_init_tick`).
    fn get_next_init_tick_index(&self, tick_index: i32, tick_spacing: u16, a_to_b: bool) -> (r:
        Result<Option<i32>, ErrorCode>)
        requires
            self.wf(),
        ensures
            r == next_init_tick(
                self.spec_start_tick_index(),
                self.spec_ticks(),
                tick_index as int,
                tick_spacing as int,
                a_to_b,
            ),
    ;

    /// The tick at `tick_index`; fails with `TickNotFound` unless the array holds that
    /// usable tick.
    fn get_tick(&self, tick_index: i32, tick_spacing: u16) -> (r: Result<Tick, ErrorCode>)
        requires
            self.wf(),
        ensures
            self.spec_ticks().len() == TICK_ARRAY_SIZE,
            r == if holds_tick(self.spec_start_tick_index(), tick_index as int, tick_spacing as int) {
                Ok(
                    self.spec_ticks()[offset_of(
                        self.spec_start_tick_index(),
                        tick_index as int,
                        tick_spacing as int,
                    )],
                )
            } else {
                Err(ErrorCode::TickNotFound)
            },
    ;

    /// Stores `update` for `tick_index`; returns whether the tick's initialized flag changed.
    fn update_tick(&mut self, tick_index: i32, tick_spacing: u16, update: &TickUpdate) -> (r:
        Result<bool, ErrorCode>)
        requires
            old(self).wf(),
        ensures
            final(self).wf(),
            old(self).spec_ticks().len() == TICK_ARRAY_SIZE,
            final(self).spec_start_tick_index() == old(self).spec_start_tick_index(),
            final(self).spec_pool() == old(self).spec_pool(),
            final(self).spec_variable_size() == old(self).spec_variable_size(),
            forall|u: TickUpdate| #[trigger] final(self).stored_tick(u) == old(self).stored_tick(u),
            update.initialized ==> old(self).stored_tick(*update) == tick_of_update(*update),
            old(self).stored_tick(*update).initialized == update.initialized,
            if holds_tick(old(self).spec_start_tick_index(), tick_index as int, tick_spacing as int) {
                let o = offset_of(
                    old(self).spec_start_tick_index(),
                    tick_index as int,
                    tick_spacing as int,
                );
                &&& r == Ok::<bool, ErrorCode>(
                    old(self).spec_ticks()[o].initialized != update.initialized,
                )
                &&& final(self).spec_ticks() == old(self).spec_ticks().update(
                    o,
                    old(self).stored_tick(*update),
                )
            } else {
                &&& r == Err::<bool, ErrorCode>(ErrorCode::TickNotFound)
                &&& *final(self) == *old(self)
            },
    ;

    /// Resets the tick at `tick_index` to an empty one.
    fn clear_tick(&mut self, tick_index: i32, tick_spacing: u16) -> (r: Result<(), ErrorCode>)
        requires
            old(self).wf(),
        ensures
            final(self).wf(),
            old(self).spec_ticks().len() == TICK_ARRAY_SIZE,
            final(self).spec_start_tick_index() == old(self).spec_start_tick_index(),
            final(self).spec_pool() == old(self).spec_pool(),
            final(self).spec_variable_size() == old(self).spec_variable_size(),
            forall|u: TickUpdate| #[trigger] final(self).stored_tick(u) == old(self).stored_tick(u),
            if holds_tick(old(self).spec_start_tick_index(), tick_index as int, tick_spacing as int) {
                &&& r == Ok::<(), ErrorCode>(())
                &&& final(self).spec_ticks() == old(self).spec_ticks().update(
                    offset_of(
                        old(self).spec_start_tick_index(),
                        tick_index as int,
                        tick_spacing as int,
                    ),
                    empty_tick(),
                )
            } else {
                &&& r == Err::<(), ErrorCode>(ErrorCode::TickNotFound)
                &&& *final(self) == *old(self)
            },
    ;

    /// Whether `tick_index` lies in this array's search window: `[start, start + 60 s)`,
    /// moved down by one spacing when `shifted`. A search moving up may report the lowest
    /// tick of the next array, so it uses the shifted window.
    fn in_search_range(&self, tick_index: i32, tick_spacing: u16, shifted: bool) -> (r: bool)
        requires
            self.wf(),
        ensures
            r == in_window(
                self.spec_start_tick_index(),
                tick_index as int,
                tick_spacing as int,
                shifted,
            ),
    {
        let mut lower = self.start_tick_index();
        let mut upper = self.start_tick_index() + TICK_ARRAY_SIZE * tick_spacing as i32;
        if shifted {
            lower -= tick_spacing as i32;
            upper -= tick_spacing as i32;
        }
        tick_index >= lower && tick_index < upper
    }

    /// Whether `tick_index` lies in `[start, start + 60 s)`.
    fn check_in_array_bounds(&self, tick_index: i32, tick_spacing: u16) -> (r: bool)
        requires
            self.wf(),
        ensures
            r == in_window(self.spec_start_tick_index(), tick_index as int, tick_spacing as int, false),
    {
        self.in_search_range(tick_index, tick_spacing, false)
    }

    /// Whether this array reaches down to `MIN_TICK`.
    fn is_min_tick_array(&self) -> (r: bool)
        requires
            self.wf(),
        ensures
            r == (self.spec_start_tick_index() <= MIN_TICK),
    {
        self.start_tick_index() <= MIN_TICK
    }

    /// Whether this array reaches past `MAX_TICK`.
    fn is_max_tick_array(&self, tick_spacing: u16) -> (r: bool)
        requires
            self.wf(),
        ensures
            r == (self.spec_start_tick_index() + TICK_ARRAY_SIZE * tick_spacing > MAX_TICK),
    {
        self.start_tick_index() + TICK_ARRAY_SIZE * (tick_spacing as i32) > MAX_TICK
    }

    /// Offset of `tick_index` in this array, rounded down; fails on a zero spacing.
    fn tick_offset(&self, tick_index: i32, tick_spacing: u16) -> (r: Result<isize, ErrorCode>)
        requires
            self.wf(),
            i32::MIN <= tick_index - self.spec_start_tick_index() <= i32::MAX,
        ensures
            r == if tick_spacing == 0 {
                Err::<isize, ErrorCode>(ErrorCode::InvalidTickSpacing)
            } else {
                Ok(
                    offset_of(
                        self.spec_start_tick_index(),
                        tick_index as int,
                        tick_spacing as int,
                    ) as isize,
                )
            },
    {
        if tick_spacing == 0 {
            return Err(ErrorCode::InvalidTickSpacing);
        }
        Ok(get_offset(tick_index, self.start_tick_index(), tick_spacing))
    }
}

/// A tick array of either kind, as loaded from an account.
#[derive(Debug)]
pub enum LoadedTickArray {
    Fixed(FixedTickArray),
    Dynamic(DynamicTickArrayLoader),
}

/// A tick array loaded for writing.
pub type LoadedTickArrayMut = LoadedTickArray;

impl LoadedTickArray {
    /// The bytes of the array, after the account's type tag.
    pub open spec fn bytes(&self) -> Seq<u8> {
        match self {
            LoadedTickArray::Fixed(a) => a@,
            LoadedTickArray::Dynamic(a) => a@,
        }
    }

    /// The bytes of the array, after the account's type tag.
    pub fn as_bytes(&self) -> (r: &[u8])
        ensures
            r@ == self.bytes(),
    {
        match self {
            LoadedTickArray::Fixed(a) => a.as_bytes(),
            LoadedTickArray::Dynamic(a) => a.as_bytes(),
        }
    }
}

impl TickArrayType for LoadedTickArray {
    open spec fn wf(&self) -> bool {
        match self {
            LoadedTickArray::Fixed(a) => a.wf(),
            LoadedTickArray::Dynamic(a) => a.wf(),
        }
    }

    open spec fn spec_start_tick_index(&self) -> int {
        match self {
            LoadedTickArray::Fixed(a) => a.spec_start_tick_index(),
            LoadedTickArray::Dynamic(a) => a.spec_start_tick_index(),
        }
    }

    open spec fn spec_pool(&self) -> Seq<u8> {
        match self {
            LoadedTickArray::Fixed(a) => a.spec_pool(),
            LoadedTickArray::Dynamic(a) => a.spec_pool(),
        }
    }

    open spec fn spec_ticks(&self) -> Seq<Tick> {
        match self {
            LoadedTickArray::Fixed(a) => a.spec_ticks(),
            LoadedTickArray::Dynamic(a) => a.spec_ticks(),
        }
    }

    open spec fn spec_variable_size(&self) -> bool {
        self is Dynamic
    }

    open spec fn stored_tick(&self, update: TickUpdate) -> Tick {
        match self {
            LoadedTickArray::Fixed(a) => a.stored_tick(update),
            LoadedTickArray::Dynamic(a) => a.stored_tick(update),
        }
    }

    fn is_variable_size(&self) -> (r: bool) {
        match self {
            LoadedTickArray::Fixed(a) => a.is_variable_size(),
            LoadedTickArray::Dynamic(a) => a.is_variable_size(),
        }
    }

    fn start_tick_index(&self) -> (r: i32) {
        match self {
            LoadedTickArray::Fixed(a) => a.start_tick_index(),
            LoadedTickArray::Dynamic(a) => a.start_tick_index(),
        }
    }

    fn pool(&self) -> (r: [u8; 32]) {
        match self {
            LoadedTickArray::Fixed(a) => a.pool(),
            LoadedTickArray::Dynamic(a) => a.pool(),
        }
    }

    fn initialized_tick_count(&self) -> (r: u8) {
        match self {
            LoadedTickArray::Fixed(a) => a.initialized_tick_count(),
            LoadedTickArray::Dynamic(a) => a.initialized_tick_count(),
        }
    }

    fn get_next_init_tick_index(&self, tick_index: i32, tick_spacing: u16, a_to_b: bool) -> (r:
        Result<Option<i32>, ErrorCode>) {
        match self {
            LoadedTickArray::Fixed(a) => a.get_next_init_tick_index(tick_index, tick_spacing, a_to_b),
            LoadedTickArray::Dynamic(a) => a.get_next_init_tick_index(
                tick_index,
                tick_spacing,
                a_to_b,
            ),
        }
    }

    fn get_tick(&self, tick_index: i32, tick_spacing: u16) -> (r: Result<Tick, ErrorCode>) {
        match self {
            LoadedTickArray::Fixed(a) => a.get_tick(tick_index, tick_spacing),
            LoadedTickArray::Dynamic(a) => a.get_tick(tick_index, tick_spacing),
        }
    }

    fn update_tick(&mut self, tick_index: i32, tick_spacing: u16, update: &TickUpdate) -> (r:
        Result<bool, ErrorCode>) {
        match self {
            LoadedTickArray::Fixed(a) => a.update_tick(tick_index, tick_spacing, update),
            LoadedTickArray::Dynamic(a) => a.update_tick(tick_index, tick_spacing, update),
        }
    }

    fn clear_tick(&mut self, tick_index: i32, tick_spacing: u16) -> (r: Result<(), ErrorCode>) {
        match self {
            LoadedTickArray::Fixed(a) => a.clear_tick(tick_index, tick_spacing),
            LoadedTickArray::Dynamic(a) => a.clear_tick(tick_index, tick_spacing),
        }
    }
}

/// What the library needs of a tick-array account: its key, its owner, whether it may be
/// written, and its bytes.
pub struct TickArrayAccount {
    pub key: [u8; 32],
    pub owner: [u8; 32],
    pub is_writable: bool,
    pub data: Vec<u8>,
}

/// Whether `s` holds `expected` from `pos` on.
fn bytes_match(s: &[u8], pos: usize, expected: &[u8]) -> (r: bool)
    requires
        pos + expected@.len() <= s@.len(),
    ensures
        r == (s@.subrange(pos as int, pos + expected@.len()) == expected@),
{
    let n: usize = s.len();
    let mut i: usize = 0;
    while i < expected.len()
        invariant
            n == s@.len(),
            pos + expected@.len() <= s@.len(),
            0 <= i <= expected@.len(),
            forall|k: int| 0 <= k < i ==> s@[pos + k] == expected@[k],
        decreases expected@.len() - i,
    {
        if s[pos + i] != expected[i] {
            assert(s@.subrange(pos as int, pos + expected@.len())[i as int] != expected@[i as int]);
            return false;
        }
        i = i + 1;
    }
    assert(s@.subrange(pos as int, pos + expected@.len()) =~= expected@);
    true
}

/// The error that loading an account with this owner and these bytes raises for `pool`,
/// if any: a wrong owner, a missing or unknown type tag, a body that is no array of its
/// kind, or an array of another pool.
///
/// A body that is no array of its kind (`AccountDidNotDeserialize`, the framework's error
/// for an account whose data does not decode) is refused here rather than at each later
/// read: a body of another size, a start index that no valid array has, or a packed body
/// whose bitmap does not match its slots (a bit set at offset 60 or above, or a slot whose
/// tag disagrees with its bit). The packed layout holds its slots where the bitmap says
/// only while the occupancy invariant holds, so every later read and rewrite of such a
/// body would take its records from the wrong bytes.
pub open spec fn load_error(owner_ok: bool, data: Seq<u8>, pool: Seq<u8>) -> Option<ErrorCode> {
    let body = data.subrange(8, data.len() as int);
    if !owner_ok {
        Some(ErrorCode::AccountOwnedByWrongProgram)
    } else if data.len() < 8 {
        Some(ErrorCode::AccountDiscriminatorNotFound)
    } else if data.subrange(0, 8) == FixedTickArray::DISCRIMINATOR@ {
        if !fixed_wf(body) {
            Some(ErrorCode::AccountDidNotDeserialize)
        } else if pool_of(body) != pool {
            Some(ErrorCode::DifferentPoolTickArrayAccount)
        } else {
            None
        }
    } else if data.subrange(0, 8) == DynamicTickArray::DISCRIMINATOR@ {
        if !loader_wf(body) {
            Some(ErrorCode::AccountDidNotDeserialize)
        } else if pool_of(body) != pool {
            Some(ErrorCode::DifferentPoolTickArrayAccount)
        } else {
            None
        }
    } else {
        Some(ErrorCode::AccountDiscriminatorMismatch)
    }
}

/// The error that loading an account for writing raises, if any: `AccountNotMutable` for
/// an account that is not writable, else as `load_error`.
pub open spec fn load_mut_error(account: TickArrayAccount, program_id: Seq<u8>, pool: Seq<u8>) -> Option<
    ErrorCode,
> {
    if !account.is_writable {
        Some(ErrorCode::AccountNotMutable)
    } else {
        load_error(account.owner@ == program_id, account.data@, pool)
    }
}

/// Loading succeeded with `a` from `data`: `a` holds the body after the type tag, as the
/// kind that the tag names.
pub open spec fn loaded_from(a: LoadedTickArray, data: Seq<u8>) -> bool {
    &&& a.wf()
    &&& a.bytes() == data.subrange(8, data.len() as int)
    &&& (a is Dynamic <==> data.subrange(0, 8) == DynamicTickArray::DISCRIMINATOR@)
}

/// Resolves an account to a tick array of the kind its type tag names, checking its
/// owner, its tag and its pool.
pub fn load_tick_array(account: TickArrayAccount, program_id: &[u8; 32], pool: &[u8; 32]) -> (r:
    Result<LoadedTickArray, ErrorCode>)
    ensures
        match r {
            Ok(a) => load_error(account.owner@ == program_id@, account.data@, pool@) is None
                && loaded_from(a, account.data@),
            Err(e) => load_error(account.owner@ == program_id@, account.data@, pool@) == Some(e),
        },
{
    let owner_ok = bytes_match(account.owner.as_slice(), 0, program_id.as_slice());
    proof {
        assert(account.owner@.subrange(0, 32) =~= account.owner@);
    }
    if !owner_ok {
        return Err(ErrorCode::AccountOwnedByWrongProgram);
    }
    let data = account.data;
    let ghost d = data@;
    if data.len() < 8 {
        return Err(ErrorCode::AccountDiscriminatorNotFound);
    }
    let fixed_tag = FixedTickArray::DISCRIMINATOR;
    let dynamic_tag = DynamicTickArray::DISCRIMINATOR;
    let is_fixed = bytes_match(data.as_slice(), 0, fixed_tag.as_slice());
    let is_dynamic = bytes_match(data.as_slice(), 0, dynamic_tag.as_slice());
    if !is_fixed && !is_dynamic {
        return Err(ErrorCode::AccountDiscriminatorMismatch);
    }
    let body = slice_to_vec(slice_subrange(data.as_slice(), 8, data.len()));
    let tick_array = if is_fixed {
        match FixedTickArray::load(body) {
            Ok(a) => LoadedTickArray::Fixed(a),
            Err(e) => return Err(e),
        }
    } else {
        match DynamicTickArrayLoader::load(body) {
            Ok(a) => LoadedTickArray::Dynamic(a),
            Err(e) => return Err(e),
        }
    };
    proof {
        assert(fixed_tag@ != dynamic_tag@) by {
            assert(fixed_tag@[0] != dynamic_tag@[0]);
        }
    }
    let key = tick_array.pool();
    if !bytes_match(key.as_slice(), 0, pool.as_slice()) {
        proof {
            assert(key@.subrange(0, 32) =~= key@);
        }
        return Err(ErrorCode::DifferentPoolTickArrayAccount);
    }
    proof {
        assert(key@.subrange(0, 32) =~= key@);
    }
    Ok(tick_array)
}

/// `load_tick_array` for an account that is to be written: fails first with
/// `AccountNotMutable` when the account is not writable.
pub fn load_tick_array_mut(account: TickArrayAccount, program_id: &[u8; 32], pool: &[u8; 32]) -> (r:
    Result<LoadedTickArrayMut, ErrorCode>)
    ensures
        match r {
            Ok(a) => load_mut_error(account, program_id@, pool@) is None && loaded_from(
                a,
                account.data@,
            ),
            Err(e) => load_mut_error(account, program_id@, pool@) == Some(e),
        },
{
    if !account.is_writable {
        return Err(ErrorCode::AccountNotMutable);
    }
    load_tick_array(account, program_id, pool)
}

/// The lower and upper tick arrays of a position, loaded for writing. The two accounts may
/// be one and the same; an account cannot be borrowed for writing twice, so the upper
/// array is then absent and the lower one serves for both ticks.
pub struct TickArraysMut {
    pub lower_tick_array_ref: LoadedTickArrayMut,
    pub upper_tick_array_ref: Option<LoadedTickArrayMut>,
}

impl TickArraysMut {
    /// Loads both arrays for writing; the upper one only when its account differs from
    /// the lower one's.
    pub fn load(
        lower_tick_array_info: TickArrayAccount,
        upper_tick_array_info: TickArrayAccount,
        program_id: &[u8; 32],
        pool: &[u8; 32],
    ) -> (r: Result<TickArraysMut, ErrorCode>)
        ensures
            ({
                let same = lower_tick_array_info.key@ == upper_tick_array_info.key@;
                let lower_error = load_mut_error(lower_tick_array_info, program_id@, pool@);
                let upper_error = if same {
                    None
                } else {
                    load_mut_error(upper_tick_array_info, program_id@, pool@)
                };
                match r {
                    Ok(t) => {
                        &&& lower_error is None
                        &&& upper_error is None
                        &&& loaded_from(t.lower_tick_array_ref, lower_tick_array_info.data@)
                        &&& (t.upper_tick_array_ref is None <==> same)
                        &&& t.upper_tick_array_ref is Some ==> loaded_from(
                            t.upper_tick_array_ref->Some_0,
                            upper_tick_array_info.data@,
                        )
                    },
                    Err(e) => if lower_error is Some {
                        lower_error == Some(e)
                    } else {
                        upper_error == Some(e)
                    },
                }
            }),
    {
        let same = bytes_match(
            lower_tick_array_info.key.as_slice(),
            0,
            upper_tick_array_info.key.as_slice(),
        );
        proof {
            assert(lower_tick_array_info.key@.subrange(0, 32) =~= lower_tick_array_info.key@);
        }
        let lower_tick_array = match load_tick_array_mut(lower_tick_array_info, program_id, pool) {
            Ok(a) => a,
            Err(e) => return Err(e),
        };
        let upper_tick_array = if same {
            None
        } else {
            match load_tick_array_mut(upper_tick_array_info, program_id, pool) {
                Ok(a) => Some(a),
                Err(e) => return Err(e),
            }
        };
        Ok(TickArraysMut {
            lower_tick_array_ref: lower_tick_array,
            upper_tick_array_ref: upper_tick_array,
        })
    }

    /// The lower array and the upper one, which is the lower one when the accounts are the
    /// same.
    pub fn deref(&self) -> (r: (&LoadedTickArray, &LoadedTickArray))
        ensures
            *r.0 == self.lower_tick_array_ref,
            *r.1 == match self.upper_tick_array_ref {
                Some(u) => u,
                None => self.lower_tick_array_ref,
            },
    {
        match &self.upper_tick_array_ref {
            Some(upper_tick_array_ref) => (&self.lower_tick_array_ref, upper_tick_array_ref),
            None => (&self.lower_tick_array_ref, &self.lower_tick_array_ref),
        }
    }

    /// Both arrays for writing; the upper one is absent when the accounts are the same.
    pub fn get_mut_refs(&mut self) -> (r: (&mut LoadedTickArrayMut, Option<&mut LoadedTickArrayMut>))
        ensures
            *r.0 == old(self).lower_tick_array_ref,
            r.1 is Some <==> old(self).upper_tick_array_ref is Some,
            old(self).upper_tick_array_ref is Some ==> *r.1->Some_0
                == old(self).upper_tick_array_ref->Some_0,
            final(self).lower_tick_array_ref == *final(r.0),
            old(self).upper_tick_array_ref is Some ==> final(self).upper_tick_array_ref == Some(
                *final(r.1->Some_0),
            ),
            old(self).upper_tick_array_ref is None ==> final(self).upper_tick_array_ref is None,
    {
        (&mut self.lower_tick_array_ref, self.upper_tick_array_ref.as_mut())
    }
}

/// Growth inside `[lower, upper)` of one accumulator: the global growth less the growth
/// below the lower tick and above the upper one, modulo 2^128. Below is the lower tick's
/// outside value when the current tick is at or above it, else the global growth less that
/// value; above is the upper tick's outside value when the current tick is below it, else
/// the global growth less that value.
pub open spec fn growth_inside(
    tick_lower_index: int,
    tick_upper_index: int,
    tick_current: int,
    global: u128,
    lower_outside: u128,
    upper_outside: u128,
) -> u128 {
    let below = if tick_current >= tick_lower_index {
        lower_outside as int
    } else {
        global - lower_outside
    };
    let above = if tick_current < tick_upper_index {
        upper_outside as int
    } else {
        global - upper_outside
    };
    ((global - below - above) % 0x1_0000_0000_0000_0000_0000_0000_0000_0000int) as u128
}

/// The outside values that `growth_inside` subtracts from the global growth do not exceed
/// it: below the range for the lower tick, at or above it for the upper one.
pub open spec fn outside_within_global(
    tick_lower_index: int,
    tick_upper_index: int,
    tick_current: int,
    global: u128,
    lower_outside: u128,
    upper_outside: u128,
) -> bool {
    &&& tick_current < tick_lower_index ==> lower_outside <= global
    &&& tick_current >= tick_upper_index ==> upper_outside <= global
}

/// `global - below - above` with wrap-around.
fn inside_of(global: u128, below: u128, above: u128) -> (r: u128)
    ensures
        r == ((global - below - above) % 0x1_0000_0000_0000_0000_0000_0000_0000_0000int) as u128,
{
    global.wrapping_sub(below).wrapping_sub(above)
}

/// Fee growth inside the range for both tokens (see `growth_inside`).
pub fn get_fee_growth_inside(
    tick_lower_index: i32,
    tick_upper_index: i32,
    tick_current: i32,
    fee_growth_global_0_x64: u128,
    fee_growth_global_1_x64: u128,
    lower_fee_growth_outside_0_x64: u128,
    lower_fee_growth_outside_1_x64: u128,
    upper_fee_growth_outside_0_x64: u128,
    upper_fee_growth_outside_1_x64: u128,
) -> (r: (u128, u128))
    requires
        outside_within_global(
            tick_lower_index as int,
            tick_upper_index as int,
            tick_current as int,
            fee_growth_global_0_x64,
            lower_fee_growth_outside_0_x64,
            upper_fee_growth_outside_0_x64,
        ),
        outside_within_global(
            tick_lower_index as int,
            tick_upper_index as int,
            tick_current as int,
            fee_growth_global_1_x64,
            lower_fee_growth_outside_1_x64,
            upper_fee_growth_outside_1_x64,
        ),
    ensures
        r.0 == growth_inside(
            tick_lower_index as int,
            tick_upper_index as int,
            tick_current as int,
            fee_growth_global_0_x64,
            lower_fee_growth_outside_0_x64,
            upper_fee_growth_outside_0_x64,
        ),
        r.1 == growth_inside(
            tick_lower_index as int,
            tick_upper_index as int,
            tick_current as int,
            fee_growth_global_1_x64,
            lower_fee_growth_outside_1_x64,
            upper_fee_growth_outside_1_x64,
        ),
{
    // growth below the lower tick
    let (fee_growth_below_0_x64, fee_growth_below_1_x64) = if tick_current >= tick_lower_index {
        (lower_fee_growth_outside_0_x64, lower_fee_growth_outside_1_x64)
    } else {
        (
            fee_growth_global_0_x64 - lower_fee_growth_outside_0_x64,
            fee_growth_global_1_x64 - lower_fee_growth_outside_1_x64,
        )
    };
    // growth above the upper tick
    let (fee_growth_above_0_x64, fee_growth_above_1_x64) = if tick_current < tick_upper_index {
        (upper_fee_growth_outside_0_x64, upper_fee_growth_outside_1_x64)
    } else {
        (
            fee_growth_global_0_x64 - upper_fee_growth_outside_0_x64,
            fee_growth_global_1_x64 - upper_fee_growth_outside_1_x64,
        )
    };
    let fee_growth_inside_0_x64 = inside_of(
        fee_growth_global_0_x64,
        fee_growth_below_0_x64,
        fee_growth_above_0_x64,
    );
    let fee_growth_inside_1_x64 = inside_of(
        fee_growth_global_1_x64,
        fee_growth_below_1_x64,
        fee_growth_above_1_x64,
    );
    (fee_growth_inside_0_x64, fee_growth_inside_1_x64)
}

/// The state of one reward token of a pool, as far as growth accounting reads it.
#[derive(Clone, Copy, Debug, PartialEq, Eq)]
pub struct RewardInfo {
    /// The reward token's mint; all zero when the slot holds no reward.
    pub token_mint: [u8; 32],
    /// Q64.64
    pub reward_growth_global_x64: u128,
}

/// Whether a reward slot holds a reward: its mint is not all zero.
pub open spec fn reward_initialized(info: RewardInfo) -> bool {
    exists|k: int| 0 <= k < 32 && info.token_mint@[k] != 0
}

impl RewardInfo {
    /// Whether this slot holds a reward.
    pub fn initialized(&self) -> (r: bool)
        ensures
            r == reward_initialized(*self),
    {
        let mut i: usize = 0;
        while i < 32
            invariant
                0 <= i <= 32,
                forall|k: int| 0 <= k < i ==> self.token_mint@[k] == 0,
            decreases 32 - i,
        {
            if self.token_mint[i] != 0 {
                return true;
            }
            i = i + 1;
        }
        false
    }
}

/// Reward growth inside the range for each reward slot: `growth_inside` for the slots that
/// hold a reward, zero for the others.
pub fn get_reward_growths_inside(
    tick_lower_index: i32,
    tick_upper_index: i32,
    lower_reward_growths_outside_x64: [u128; REWARD_NUM],
    upper_reward_growths_outside_x64: [u128; REWARD_NUM],
    tick_current_index: i32,
    reward_infos: &[RewardInfo; REWARD_NUM],
) -> (r: [u128; REWARD_NUM])
    requires
        forall|i: int|
            0 <= i < REWARD_NUM && reward_initialized(#[trigger] reward_infos@[i])
                ==> outside_within_global(
                tick_lower_index as int,
                tick_upper_index as int,
                tick_current_index as int,
                reward_infos@[i].reward_growth_global_x64,
                lower_reward_growths_outside_x64@[i],
                upper_reward_growths_outside_x64@[i],
            ),
    ensures
        forall|i: int|
            0 <= i < REWARD_NUM ==> #[trigger] r@[i] == if reward_initialized(reward_infos@[i]) {
                growth_inside(
                    tick_lower_index as int,
                    tick_upper_index as int,
                    tick_current_index as int,
                    reward_infos@[i].reward_growth_global_x64,
                    lower_reward_growths_outside_x64@[i],
                    upper_reward_growths_outside_x64@[i],
                )
            } else {
                0u128
            },
{
    let mut reward_growths_inside = [0u128; REWARD_NUM];
    let mut i: usize = 0;
    while i < REWARD_NUM
        invariant
            0 <= i <= REWARD_NUM,
            forall|j: int|
                0 <= j < REWARD_NUM && reward_initialized(#[trigger] reward_infos@[j])
                    ==> outside_within_global(
                    tick_lower_index as int,
                    tick_upper_index as int,
                    tick_current_index as int,
                    reward_infos@[j].reward_growth_global_x64,
                    lower_reward_growths_outside_x64@[j],
                    upper_reward_growths_outside_x64@[j],
                ),
            forall|j: int|
                i <= j < REWARD_NUM ==> #[trigger] reward_growths_inside@[j] == 0u128,
            forall|j: int|
                0 <= j < i ==> #[trigger] reward_growths_inside@[j] == if reward_initialized(
                    reward_infos@[j],
                ) {
                    growth_inside(
                        tick_lower_index as int,
                        tick_upper_index as int,
                        tick_current_index as int,
                        reward_infos@[j].reward_growth_global_x64,
                        lower_reward_growths_outside_x64@[j],
                        upper_reward_growths_outside_x64@[j],
                    )
                } else {
                    0u128
                },
        decreases REWARD_NUM - i,
    {
        let info = &reward_infos[i];
        if !info.initialized() {
            i = i + 1;
            continue;
        }
        let global = info.reward_growth_global_x64;
        let reward_growths_below = if tick_current_index >= tick_lower_index {
            lower_reward_growths_outside_x64[i]
        } else {
            global - lower_reward_growths_outside_x64[i]
        };
        let reward_growths_above = if tick_current_index < tick_upper_index {
            upper_reward_growths_outside_x64[i]
        } else {
            global - upper_reward_growths_outside_x64[i]
        };
        reward_growths_inside[i] = inside_of(global, reward_growths_below, reward_growths_above);
        i = i + 1;
    }
    reward_growths_inside
}

/// A tick that an array holds has an offset among its 60.
pub proof fn lemma_holds_tick_offset(start: int, t: int, s: int)
    requires
        holds_tick(start, t, s),
    ensures
        0 <= offset_of(start, t, s) < TICK_ARRAY_SIZE,
{
    crate::dynamic_tick_array::lemma_offset_in_window(t - start, s, 0);
}

/// A search upwards from offset `o` finds the lowest initialized offset at or above `o`:
/// what it returns is initialized and nothing between `o` and it is; when it returns
/// nothing, no offset from `o` on is initialized.
pub proof fn lemma_first_init_from(ticks: Seq<Tick>, o: int)
    requires
        0 <= o,
    ensures
        match first_init_from(ticks, o) {
            Some(j) => o <= j < ticks.len() && ticks[j].initialized && forall|k: int|
                o <= k < j ==> !(#[trigger] ticks[k]).initialized,
            None => forall|k: int| o <= k < ticks.len() ==> !(#[trigger] ticks[k]).initialized,
        },
    decreases ticks.len() - o,
{
    if o < ticks.len() && !ticks[o].initialized {
        lemma_first_init_from(ticks, o + 1);
    }
}

/// A search downwards from offset `o` finds the highest initialized offset at or below
/// `o`: what it returns is initialized and nothing between it and `o` is; when it returns
/// nothing, no offset up to `o` is initialized.
pub proof fn lemma_last_init_upto(ticks: Seq<Tick>, o: int)
    requires
        o < ticks.len(),
    ensures
        match last_init_upto(ticks, o) {
            Some(j) => 0 <= j <= o && ticks[j].initialized && forall|k: int|
                j < k <= o ==> !(#[trigger] ticks[k]).initialized,
            None => forall|k: int| 0 <= k <= o ==> !(#[trigger] ticks[k]).initialized,
        },
    decreases o + 1,
{
    if o >= 0 && !ticks[o].initialized {
        lemma_last_init_upto(ticks, o - 1);
    }
}

/// The initialized offsets at or above `o`, in ascending order.
pub open spec fn init_offsets_up(ticks: Seq<Tick>, o: int) -> Seq<int>
    decreases ticks.len() - o,
{
    if o < 0 || o >= ticks.len() {
        Seq::empty()
    } else if ticks[o].initialized {
        seq![o] + init_offsets_up(ticks, o + 1)
    } else {
        init_offsets_up(ticks, o + 1)
    }
}

/// The initialized offsets at or below `o`, in descending order.
pub open spec fn init_offsets_down(ticks: Seq<Tick>, o: int) -> Seq<int>
    decreases o + 1,
{
    if o < 0 || o >= ticks.len() {
        Seq::empty()
    } else if ticks[o].initialized {
        seq![o] + init_offsets_down(ticks, o - 1)
    } else {
        init_offsets_down(ticks, o - 1)
    }
}

/// Searching upwards again and again, each time from just above the last offset found,
/// lists exactly the initialized offsets from `o` on, each once, in strictly increasing
/// order: the first search gives the head of the list, the searches after it the rest.
pub proof fn lemma_repeated_search_up(ticks: Seq<Tick>, o: int)
    requires
        0 <= o,
    ensures
        init_offsets_up(ticks, o) == match first_init_from(ticks, o) {
            Some(j) => seq![j] + init_offsets_up(ticks, j + 1),
            None => Seq::<int>::empty(),
        },
        forall|k: int| #[trigger] init_offsets_up(ticks, o).contains(k) <==> (o <= k < ticks.len()
            && ticks[k].initialized),
        forall|a: int, b: int|
            0 <= a < b < init_offsets_up(ticks, o).len() ==> #[trigger] init_offsets_up(ticks, o)[a]
                < #[trigger] init_offsets_up(ticks, o)[b],
    decreases ticks.len() - o,
{
    if o < ticks.len() {
        lemma_repeated_search_up(ticks, o + 1);
        let rest = init_offsets_up(ticks, o + 1);
        if ticks[o].initialized {
            let all = seq![o] + rest;
            assert forall|k: int| #[trigger] all.contains(k) <==> (o <= k < ticks.len()
                && ticks[k].initialized) by {
                if all.contains(k) {
                    let idx = choose|idx: int| 0 <= idx < all.len() && all[idx] == k;
                    if idx > 0 {
                        assert(rest.contains(k)) by {
                            assert(rest[idx - 1] == k);
                        }
                    }
                }
                if o <= k < ticks.len() && ticks[k].initialized {
                    if k == o {
                        assert(all[0] == k);
                    } else {
                        assert(rest.contains(k));
                        let idx = choose|idx: int| 0 <= idx < rest.len() && rest[idx] == k;
                        assert(all[idx + 1] == k);
                    }
                }
            }
            assert forall|a: int, b: int| 0 <= a < b < all.len() implies #[trigger] all[a]
                < #[trigger] all[b] by {
                if a == 0 {
                    assert(rest.contains(all[b])) by {
                        assert(rest[b - 1] == all[b]);
                    }
                } else {
                    assert(rest[a - 1] < rest[b - 1]);
                }
            }
        }
    }
}

/// Searching downwards again and again, each time from just below the last offset found,
/// lists exactly the initialized offsets up to `o`, each once, in strictly decreasing
/// order.
pub proof fn lemma_repeated_search_down(ticks: Seq<Tick>, o: int)
    requires
        o < ticks.len(),
    ensures
        init_offsets_down(ticks, o) == match last_init_upto(ticks, o) {
            Some(j) => seq![j] + init_offsets_down(ticks, j - 1),
            None => Seq::<int>::empty(),
        },
        forall|k: int| #[trigger] init_offsets_down(ticks, o).contains(k) <==> (0 <= k <= o
            && ticks[k].initialized),
        forall|a: int, b: int|
            0 <= a < b < init_offsets_down(ticks, o).len() ==> #[trigger] init_offsets_down(
                ticks,
                o,
            )[a] > #[trigger] init_offsets_down(ticks, o)[b],
    decreases o + 1,
{
    if o >= 0 {
        lemma_repeated_search_down(ticks, o - 1);
        let rest = init_offsets_down(ticks, o - 1);
        if ticks[o].initialized {
            let all = seq![o] + rest;
            assert forall|k: int| #[trigger] all.contains(k) <==> (0 <= k <= o
                && ticks[k].initialized) by {
                if all.contains(k) {
                    let idx = choose|idx: int| 0 <= idx < all.len() && all[idx] == k;
                    if idx > 0 {
                        assert(rest.contains(k)) by {
                            assert(rest[idx - 1] == k);
                        }
                    }
                }
                if 0 <= k <= o && ticks[k].initialized {
                    if k == o {
                        assert(all[0] == k);
                    } else {
                        assert(rest.contains(k));
                        let idx = choose|idx: int| 0 <= idx < rest.len() && rest[idx] == k;
                        assert(all[idx + 1] == k);
                    }
                }
            }
            assert forall|a: int, b: int| 0 <= a < b < all.len() implies #[trigger] all[a]
                > #[trigger] all[b] by {
                if a == 0 {
                    assert(rest.contains(all[b])) by {
                        assert(rest[b - 1] == all[b]);
                    }
                } else {
                    assert(rest[a - 1] > rest[b - 1]);
                }
            }
        }
    }
}

/// With the current tick inside `[lower, upper)`, the growth inside is the global growth
/// less both outside values, modulo 2^128.
pub proof fn lemma_growth_inside_in_range(
    tick_lower_index: int,
    tick_upper_index: int,
    tick_current: int,
    global: u128,
    lower_outside: u128,
    upper_outside: u128,
)
    requires
        tick_lower_index <= tick_current < tick_upper_index,
    ensures
        growth_inside(
            tick_lower_index,
            tick_upper_index,
            tick_current,
            global,
            lower_outside,
            upper_outside,
        ) == ((global - lower_outside - upper_outside)
            % 0x1_0000_0000_0000_0000_0000_0000_0000_0000int) as u128,
{
}

/// With the current tick at or above the upper tick, the growth inside is
/// `global - lower_outside - (global - upper_outside)`, that is the upper outside value
/// less the lower one, modulo 2^128.
pub proof fn lemma_growth_inside_above_range(
    tick_lower_index: int,
    tick_upper_index: int,
    tick_current: int,
    global: u128,
    lower_outside: u128,
    upper_outside: u128,
)
    requires
        tick_lower_index < tick_upper_index <= tick_current,
    ensures
        growth_inside(
            tick_lower_index,
            tick_upper_index,
            tick_current,
            global,
            lower_outside,
            upper_outside,
        ) == ((global - lower_outside - (global - upper_outside))
            % 0x1_0000_0000_0000_0000_0000_0000_0000_0000int) as u128,
        growth_inside(
            tick_lower_index,
            tick_upper_index,
            tick_current,
            global,
            lower_outside,
            upper_outside,
        ) == ((upper_outside - lower_outside) % 0x1_0000_0000_0000_0000_0000_0000_0000_0000int) as u128,
{
}

/// The two ways of storing a tick array.
#[derive(Clone, Copy, Debug, PartialEq, Eq, Structural)]
pub enum TickArrayKind {
    Fixed,
    Dynamic,
}

/// Which kind of tick array an account is to be created as, or looked up as: fixed when
/// the account does not exist yet (the system program still owns it), else the kind its
/// type tag names, fixed unless the tag is the packed array's. Fails with
/// `AccountDiscriminatorNotFound` when an existing account is shorter than a tag. The
/// tick arrays of a position may be one account, so the caller creates each account at
/// most once.
pub fn get_or_create_tick_array_by_discriminator(
    owner: &[u8; 32],
    system_program_id: &[u8; 32],
    data: &[u8],
) -> (r: Result<TickArrayKind, ErrorCode>)
    ensures
        r == if owner@ == system_program_id@ {
            Ok::<TickArrayKind, ErrorCode>(TickArrayKind::Fixed)
        } else if data@.len() < 8 {
            Err(ErrorCode::AccountDiscriminatorNotFound)
        } else if data@.subrange(0, 8) == DynamicTickArray::DISCRIMINATOR@ {
            Ok(TickArrayKind::Dynamic)
        } else {
            Ok(TickArrayKind::Fixed)
        },
{
    let not_created = bytes_match(owner.as_slice(), 0, system_program_id.as_slice());
    proof {
        assert(owner@.subrange(0, 32) =~= owner@);
    }
    if not_created {
        // an account that does not exist yet is created fixed, as before packed arrays
        return Ok(TickArrayKind::Fixed);
    }
    if data.len() < 8 {
        return Err(ErrorCode::AccountDiscriminatorNotFound);
    }
    let dynamic_tag = DynamicTickArray::DISCRIMINATOR;
    if bytes_match(data, 0, dynamic_tag.as_slice()) {
        Ok(TickArrayKind::Dynamic)
    } else {
        Ok(TickArrayKind::Fixed)
    }
}

/// `(tick_index - start_tick_index) / tick_spacing`, rounded towards negative infinity.
fn get_offset(tick_index: i32, start_tick_index: i32, tick_spacing: u16) -> (r: isize)
    requires
        tick_spacing > 0,
        i32::MIN <= tick_index - start_tick_index <= i32::MAX,
    ensures
        r == offset_of(start_tick_index as int, tick_index as int, tick_spacing as int),
{
    let lhs: i32 = tick_index - start_tick_index;
    let rhs: i32 = tick_spacing as i32;
    let d: i32 = lhs / rhs;
    let r: i32 = lhs % rhs;
    proof {
        lemma_floor_from_trunc(lhs as int, rhs as int);
    }
    let o: i32 = if r < 0 {
        d - 1
    } else {
        d
    };
    o as isize
}

/// Truncating division corrected by one where the truncating remainder is negative gives
/// the floor.
proof fn lemma_floor_from_trunc(x: int, k: int)
    requires
        0 < k,
    ensures
        ({
            let d = if x >= 0 {
                x / k
            } else {
                -((-x) / k)
            };
            let r = if x >= 0 {
                x % k
            } else {
                -((-x) % k)
            };
            (if r < 0 {
                d - 1
            } else {
                d
            }) == x / k
        }),
        x < 0 ==> x <= x / k < 0,
        x >= 0 ==> 0 <= x / k <= x,
{
    lemma_fundamental_div_mod(x, k);
    assert(x < 0 ==> x <= x / k < 0) by (nonlinear_arith)
        requires
            0 < k,
            x == k * (x / k) + x % k,
            0 <= x % k < k,
    ;
    assert(x >= 0 ==> 0 <= x / k <= x) by (nonlinear_arith)
        requires
            0 < k,
            x == k * (x / k) + x % k,
            0 <= x % k < k,
    ;
    if x < 0 {
        let m = -x;
        let q = m / k;
        let rem = m % k;
        lemma_fundamental_div_mod(m, k);
        if rem == 0 {
            assert(x == (-q) * k + 0) by (nonlinear_arith)
                requires
                    m == k * q + rem,
                    rem == 0,
                    x == -m,
            ;
            lemma_fundamental_div_mod_converse(x, k, -q, 0);
        } else {
            assert(x == (-q - 1) * k + (k - rem)) by (nonlinear_arith)
                requires
                    m == k * q + rem,
                    x == -m,
            ;
            lemma_fundamental_div_mod_converse(x, k, -q - 1, k - rem);
        }
    }
}

} // verus!
