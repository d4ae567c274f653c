use vstd::prelude::*;

verus! {

/// Whether bit `i` of `x` is set.
pub open spec fn bit_set(x: u128, i: int) -> bool {
    (x >> (i as u128)) & 1u128 == 1u128
}

/// `1` where bit `i` of `x` is set, else `0`.
pub open spec fn bit_value(x: u128, i: int) -> nat {
    if bit_set(x, i) {
        1
    } else {
        0
    }
}

/// Number of set bits among the `n` lowest bits of `x`, counted one by one.
pub open spec fn ones_below(x: u128, n: nat) -> nat
    decreases n,
{
    if n == 0 {
        0
    } else {
        ones_below(x, (n - 1) as nat) + bit_value(x, n - 1)
    }
}

/// Number of set bits of `x`.
pub open spec fn popcount(x: u128) -> nat {
    ones_below(x, 128)
}

/// The mask of the `o` lowest bits.
pub open spec fn low_mask(o: u128) -> u128 {
    ((1u128 << o) - 1u128) as u128
}

/// Relies on `u128::count_ones`: the number of one bits of `x`.
#[verifier::external_body]
pub(crate) fn count_ones(x: u128) -> (r: u32)
    ensures
        r == popcount(x),
{
    x.count_ones()
}

proof fn lemma_mask_bit(x: u128, o: u128, i: u128)
    by (bit_vector)
    requires
        o < 128,
        i < 128,
    ensures
        ((x & (((1u128 << o) - 1u128) as u128)) >> i) & 1u128 == if i < o {
            (x >> i) & 1u128
        } else {
            0u128
        },
{
}

proof fn lemma_one_shifted(o: u128)
    by (bit_vector)
    requires
        o < 128,
    ensures
        (1u128 << o) >= 1u128,
{
}

proof fn lemma_set_clear_bit(b: u128, o: u128, i: u128)
    by (bit_vector)
    requires
        o < 128,
        i < 128,
    ensures
        ((b | (1u128 << o)) >> i) & 1u128 == if i == o {
            1u128
        } else {
            (b >> i) & 1u128
        },
        ((b & !(1u128 << o)) >> i) & 1u128 == if i == o {
            0u128
        } else {
            (b >> i) & 1u128
        },
        (b & (1u128 << o) != 0u128) == ((b >> o) & 1u128 == 1u128),
{
}

/// `1 << o` is at least one, so the mask `(1 << o) - 1` does not underflow.
pub proof fn lemma_low_mask_defined(o: u128)
    requires
        o < 128,
    ensures
        (1u128 << o) >= 1u128,
{
    lemma_one_shifted(o);
}

/// Masking `x` by `low_mask(o)` keeps its bits below `o` and clears the others.
pub proof fn lemma_low_mask_bits(x: u128, o: u128)
    requires
        o < 128,
    ensures
        forall|i: int| 0 <= i < 128 ==> #[trigger] bit_set(x & low_mask(o), i) == (i < o && bit_set(x, i)),
{
    assert forall|i: int| 0 <= i < 128 implies #[trigger] bit_set(x & low_mask(o), i) == (i < o
        && bit_set(x, i)) by {
        lemma_mask_bit(x, o, i as u128);
    }
}

/// Setting bit `o` sets that bit alone; clearing it clears that bit alone.
pub proof fn lemma_set_clear_bits(b: u128, o: u128)
    requires
        o < 128,
    ensures
        forall|i: int| 0 <= i < 128 ==> #[trigger] bit_set(b | (1u128 << o), i) == (i == o || bit_set(b, i)),
        forall|i: int| 0 <= i < 128 ==> #[trigger] bit_set(b & !(1u128 << o), i) == (i != o && bit_set(b, i)),
        (b & (1u128 << o) != 0u128) == bit_set(b, o as int),
{
    lemma_set_clear_bit(b, o, o);
    assert forall|i: int| 0 <= i < 128 implies #[trigger] bit_set(b | (1u128 << o), i) == (i == o
        || bit_set(b, i)) by {
        lemma_set_clear_bit(b, o, i as u128);
    }
    assert forall|i: int| 0 <= i < 128 implies #[trigger] bit_set(b & !(1u128 << o), i) == (i != o
        && bit_set(b, i)) by {
        lemma_set_clear_bit(b, o, i as u128);
    }
}

/// At most `n` of the `n` lowest bits are set.
pub proof fn lemma_ones_below_le(x: u128, n: nat)
    ensures
        ones_below(x, n) <= n,
    decreases n,
{
    if n > 0 {
        lemma_ones_below_le(x, (n - 1) as nat);
    }
}

/// With a clear bit below `n`, fewer than `n` of the `n` lowest bits are set.
pub proof fn lemma_ones_below_with_clear_bit(x: u128, n: nat, o: int)
    requires
        0 <= o < n,
        !bit_set(x, o),
    ensures
        ones_below(x, n) + 1 <= n,
    decreases n,
{
    if n - 1 == o {
        lemma_ones_below_le(x, (n - 1) as nat);
    } else {
        lemma_ones_below_with_clear_bit(x, (n - 1) as nat, o);
    }
}

/// Two words that agree on every bit but `o` differ in their counts by that bit alone,
/// and only in counts that reach past `o`.
pub proof fn lemma_ones_below_flip(x: u128, y: u128, o: int, n: nat)
    requires
        0 <= o,
        forall|i: int| 0 <= i < n && i != o ==> bit_set(x, i) == bit_set(y, i),
    ensures
        ones_below(y, n) + (if o < n { bit_value(x, o) } else { 0 }) == ones_below(x, n) + (if o
            < n {
            bit_value(y, o)
        } else {
            0
        }),
    decreases n,
{
    if n > 0 {
        lemma_ones_below_flip(x, y, o, (n - 1) as nat);
    }
}

/// Two words that agree on their `n` lowest bits have the same count there.
pub proof fn lemma_ones_below_agree(x: u128, y: u128, n: nat)
    requires
        forall|i: int| 0 <= i < n ==> bit_set(x, i) == bit_set(y, i),
    ensures
        ones_below(x, n) == ones_below(y, n),
    decreases n,
{
    if n > 0 {
        lemma_ones_below_agree(x, y, (n - 1) as nat);
    }
}

/// Bits at or above `m` that are all clear add nothing to the count.
pub proof fn lemma_ones_below_clear_above(x: u128, m: nat, n: nat)
    requires
        m <= n,
        forall|i: int| m <= i < n ==> !bit_set(x, i),
    ensures
        ones_below(x, n) == ones_below(x, m),
    decreases n,
{
    if m < n {
        lemma_ones_below_clear_above(x, m, (n - 1) as nat);
    }
}

/// The count of the bits of `x` below `o`, taken from the masked word, equals the
/// one-by-one count.
pub proof fn lemma_popcount_low_mask(x: u128, o: u128)
    requires
        o < 128,
    ensures
        popcount(x & low_mask(o)) == ones_below(x, o as nat),
{
    let y = x & low_mask(o);
    lemma_low_mask_bits(x, o);
    lemma_ones_below_clear_above(y, o as nat, 128);
    lemma_ones_below_agree(x, y, o as nat);
}

} // verus!
