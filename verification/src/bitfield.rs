//! Bitfields stored as arrays of 64-bit words: bit `idx` lives in word
//! `idx / 64` at position `idx % 64`.
#![allow(non_snake_case)]

use vstd::prelude::*;

verus! {

/// Number of bits in one bitfield word.
pub const WORD_BITS: usize = 64;

/// Whether bit `b` (counted from the least significant end) of `w` is set.
pub open spec fn word_bit(w: u64, b: int) -> bool {
    ((w >> (b as u64)) & 1u64) == 1u64
}

/// Whether bit `idx` of the bitfield `bf` is set.
pub open spec fn bit_at(bf: Seq<u64>, idx: int) -> bool {
    word_bit(bf[idx / 64], idx % 64)
}

/// Number of bits a bitfield of `bf.len()` words holds.
pub open spec fn n_bits(bf: Seq<u64>) -> int {
    (bf.len() * 64) as int
}

/// `r` is the lowest clear bit of `bf`.
pub open spec fn is_first_free(bf: Seq<u64>, r: int) -> bool {
    &&& 0 <= r < n_bits(bf)
    &&& !bit_at(bf, r)
    &&& forall|j: int| 0 <= j < r ==> #[trigger] bit_at(bf, j)
}

/// Every bit of `bf` is set.
pub open spec fn all_set(bf: Seq<u64>) -> bool {
    forall|j: int| 0 <= j < n_bits(bf) ==> #[trigger] bit_at(bf, j)
}

/// The bitfield `bf` with bit `idx` set.
pub open spec fn set_bit_spec(bf: Seq<u64>, idx: int) -> Seq<u64> {
    bf.update(idx / 64, bf[idx / 64] | (1u64 << ((idx % 64) as u64)))
}

/// The bitfield `bf` with bit `idx` cleared.
pub open spec fn clr_bit_spec(bf: Seq<u64>, idx: int) -> Seq<u64> {
    bf.update(idx / 64, bf[idx / 64] & !(1u64 << ((idx % 64) as u64)))
}

/// The lowest clear bit of `bf`, or its bit count when every bit is set.
pub open spec fn first_free(bf: Seq<u64>) -> int {
    if all_set(bf) {
        n_bits(bf)
    } else {
        choose|r: int| is_first_free(bf, r)
    }
}

/// The lowest clear bit is unique.
pub proof fn lemma_first_free_unique(bf: Seq<u64>, r: int)
    requires
        is_first_free(bf, r),
    ensures
        first_free(bf) == r,
{
    assert(!all_set(bf));
    let q = choose|q: int| is_first_free(bf, q);
    assert(is_first_free(bf, q));
    if q < r {
        assert(bit_at(bf, q));
    } else if r < q {
        assert(bit_at(bf, r));
    }
}

proof fn lemma_first_free_exists(bf: Seq<u64>, j: int)
    requires
        0 <= j < n_bits(bf),
        !bit_at(bf, j),
    ensures
        exists|r: int| is_first_free(bf, r),
    decreases j,
{
    if forall|i: int| 0 <= i < j ==> #[trigger] bit_at(bf, i) {
        assert(is_first_free(bf, j));
    } else {
        let i = choose|i: int| 0 <= i < j && !bit_at(bf, i);
        lemma_first_free_exists(bf, i);
    }
}

/// `first_free` is the lowest clear bit when there is one, and the bit
/// count otherwise.
pub proof fn lemma_first_free_props(bf: Seq<u64>)
    ensures
        all_set(bf) ==> first_free(bf) == n_bits(bf),
        !all_set(bf) ==> is_first_free(bf, first_free(bf)),
        0 <= first_free(bf) <= n_bits(bf),
{
    if !all_set(bf) {
        let j = choose|j: int| 0 <= j < n_bits(bf) && !bit_at(bf, j);
        lemma_first_free_exists(bf, j);
    }
}

/// Law: clearing a bit that is clear changes nothing.
pub proof fn law_clear_clear_bit(bf: Seq<u64>, idx: int)
    requires
        0 <= idx < n_bits(bf),
        !bit_at(bf, idx),
    ensures
        clr_bit_spec(bf, idx) == bf,
{
    let w = bf[idx / 64];
    let b = (idx % 64) as u64;
    assert((w >> b) & 1u64 != 1u64);
    assert((w & !(1u64 << b)) == w) by (bit_vector)
        requires
            b < 64,
            (w >> b) & 1u64 != 1u64,
    ;
    assert(clr_bit_spec(bf, idx) =~= bf);
}

/// Law: clearing a bit just set restores the bitfield, when the bit was clear.
pub proof fn law_set_then_clear(bf: Seq<u64>, idx: int)
    requires
        0 <= idx < n_bits(bf),
        !bit_at(bf, idx),
    ensures
        clr_bit_spec(set_bit_spec(bf, idx), idx) == bf,
{
    let w = bf[idx / 64];
    let b = (idx % 64) as u64;
    assert((w >> b) & 1u64 != 1u64);
    assert(((w | (1u64 << b)) & !(1u64 << b)) == w) by (bit_vector)
        requires
            b < 64,
            (w >> b) & 1u64 != 1u64,
    ;
    assert(clr_bit_spec(set_bit_spec(bf, idx), idx) =~= bf);
}

/// Law: setting a bit just cleared restores the bitfield, when the bit was set.
pub proof fn law_clear_then_set(bf: Seq<u64>, idx: int)
    requires
        0 <= idx < n_bits(bf),
        bit_at(bf, idx),
    ensures
        set_bit_spec(clr_bit_spec(bf, idx), idx) == bf,
{
    let w = bf[idx / 64];
    let b = (idx % 64) as u64;
    assert((w >> b) & 1u64 == 1u64);
    assert(((w & !(1u64 << b)) | (1u64 << b)) == w) by (bit_vector)
        requires
            b < 64,
            (w >> b) & 1u64 == 1u64,
    ;
    assert(set_bit_spec(clr_bit_spec(bf, idx), idx) =~= bf);
}

/// `1 << n`.
pub fn BIT(n: usize) -> (r: usize)
    requires
        n < usize::BITS,
    ensures
        r == (1usize << n),
{
    1usize << n
}

/// Index of the word that holds bit `bit`.
pub fn WORD_INDEX(bit: usize) -> (r: usize)
    ensures
        r == bit / 64,
{
    bit / WORD_BITS
}

/// Position of bit `bit` inside its word.
pub fn BIT_INDEX(bit: usize) -> (r: usize)
    ensures
        r == bit % 64,
{
    bit % WORD_BITS
}

/// Number of words needed for a bitfield of `x` bits (rounded down).
pub fn BITFIELD_SIZE(x: usize) -> (r: usize)
    ensures
        r == x / 64,
{
    x / WORD_BITS
}

proof fn lemma_set_word_bit(w: u64, b: u64, j: u64)
    requires
        b < 64,
        j < 64,
    ensures
        word_bit(w | (1u64 << b), j as int) == (j == b || word_bit(w, j as int)),
{
    assert(((w | (1u64 << b)) >> j) & 1u64 == 1u64 <==> (j == b || (w >> j) & 1u64 == 1u64))
        by (bit_vector)
        requires
            b < 64,
            j < 64,
    ;
}

proof fn lemma_clr_word_bit(w: u64, b: u64, j: u64)
    requires
        b < 64,
        j < 64,
    ensures
        word_bit(w & !(1u64 << b), j as int) == (j != b && word_bit(w, j as int)),
{
    assert(((w & !(1u64 << b)) >> j) & 1u64 == 1u64 <==> (j != b && (w >> j) & 1u64 == 1u64))
        by (bit_vector)
        requires
            b < 64,
            j < 64,
    ;
}

proof fn lemma_get_word_bit(w: u64, b: u64)
    requires
        b < 64,
    ensures
        (w & (1u64 << b) != 0) == word_bit(w, b as int),
{
    assert((w & (1u64 << b) != 0) <==> ((w >> b) & 1u64 == 1u64)) by (bit_vector)
        requires
            b < 64,
    ;
}

proof fn lemma_full_word(b: u64)
    requires
        b < 64,
    ensures
        word_bit(u64::MAX, b as int),
{
    assert((u64::MAX >> b) & 1u64 == 1u64) by (bit_vector)
        requires
            b < 64,
    ;
}

proof fn lemma_inverted_bit(w: u64, b: u64)
    requires
        b < 64,
    ensures
        word_bit(!w, b as int) == !word_bit(w, b as int),
{
    assert(((!w >> b) & 1u64 == 1u64) <==> !((w >> b) & 1u64 == 1u64)) by (bit_vector)
        requires
            b < 64,
    ;
}

/// Sets bit `idx` of `bf`.
pub fn bf_set_bit(bf: &mut [u64], idx: usize)
    requires
        idx / 64 < old(bf)@.len(),
    ensures
        final(bf)@ == set_bit_spec(old(bf)@, idx as int),
        forall|j: int|
            0 <= j < n_bits(old(bf)@) ==> #[trigger] bit_at(final(bf)@, j) == (j == idx as int
                || bit_at(old(bf)@, j)),
{
    let w = WORD_INDEX(idx);
    let b = BIT_INDEX(idx);
    let mask: u64 = 1u64 << (b as u64);
    let old_word = bf[w];
    bf[w] = old_word | mask;
    proof {
        assert forall|j: int| 0 <= j < n_bits(old(bf)@) implies #[trigger] bit_at(bf@, j) == (j
            == idx as int || bit_at(old(bf)@, j)) by {
            if j / 64 == w as int {
                lemma_set_word_bit(old_word, b as u64, (j % 64) as u64);
            }
        }
    }
}

/// Clears bit `idx` of `bf`.
pub fn bf_clr_bit(bf: &mut [u64], idx: usize)
    requires
        idx / 64 < old(bf)@.len(),
    ensures
        final(bf)@ == clr_bit_spec(old(bf)@, idx as int),
        forall|j: int|
            0 <= j < n_bits(old(bf)@) ==> #[trigger] bit_at(final(bf)@, j) == (j != idx as int
                && bit_at(old(bf)@, j)),
{
    let w = WORD_INDEX(idx);
    let b = BIT_INDEX(idx);
    let mask: u64 = 1u64 << (b as u64);
    let old_word = bf[w];
    bf[w] = old_word & !mask;
    proof {
        assert forall|j: int| 0 <= j < n_bits(old(bf)@) implies #[trigger] bit_at(bf@, j) == (j
            != idx as int && bit_at(old(bf)@, j)) by {
            if j / 64 == w as int {
                lemma_clr_word_bit(old_word, b as u64, (j % 64) as u64);
            }
        }
    }
}

/// Reads bit `idx` of `bf`; the bitfield is left unchanged.
pub fn bf_get_bit(bf: &mut [u64], idx: usize) -> (r: bool)
    requires
        idx / 64 < old(bf)@.len(),
    ensures
        final(bf)@ == old(bf)@,
        r == bit_at(old(bf)@, idx as int),
{
    let w = WORD_INDEX(idx);
    let b = BIT_INDEX(idx);
    let word = bf[w];
    proof {
        lemma_get_word_bit(word, b as u64);
    }
    if (word & (1u64 << (b as u64))) != 0 {
        true
    } else {
        false
    }
}

/// Bits below `i * 64` are all set when the first `i` words are full.
proof fn lemma_full_prefix(bf: Seq<u64>, i: int)
    requires
        0 <= i <= bf.len(),
        forall|k: int| 0 <= k < i ==> bf[k] == u64::MAX,
    ensures
        forall|j: int| 0 <= j < i * 64 ==> #[trigger] bit_at(bf, j),
{
    assert forall|j: int| 0 <= j < i * 64 implies #[trigger] bit_at(bf, j) by {
        assert(j / 64 < i);
        lemma_full_word((j % 64) as u64);
    }
}

/// Scans `bf` for its lowest clear bit. On success the result is the lowest
/// clear bit; the search fails only when every word is full.
pub fn bf_first_free(bf: &[u64]) -> (r: Result<usize, ()>)
    requires
        bf@.len() * 64 <= usize::MAX,
    ensures
        r matches Ok(b) ==> is_first_free(bf@, b as int) && b == first_free(bf@),
        r is Err <==> all_set(bf@),
{
    let mut i: usize = 0;
    while i < bf.len() && bf[i] == u64::MAX
        invariant
            i <= bf@.len(),
            forall|k: int| 0 <= k < i ==> bf@[k] == u64::MAX,
        decreases bf@.len() - i,
    {
        i += 1;
    }
    proof {
        lemma_full_prefix(bf@, i as int);
    }
    if i == bf.len() {
        return Err(());
    }
    let word = bf[i];
    let val = !word;
    proof {
        vstd::std_specs::bits::axiom_u64_trailing_zeros(val);
        assert(val != 0) by (bit_vector)
            requires
                val == !word,
                word != u64::MAX,
        ;
    }
    let tz = val.trailing_zeros();
    let bit = i * WORD_BITS + (tz as usize);
    proof {
        let w = bf@[i as int];
        assert(bit as int / 64 == i as int);
        assert(bit as int % 64 == tz as int);
        lemma_inverted_bit(w, tz as u64);
        assert(word_bit(val, tz as int));
        assert(!bit_at(bf@, bit as int));
        assert forall|j: int| 0 <= j < bit implies #[trigger] bit_at(bf@, j) by {
            if j >= i * 64 {
                assert(j / 64 == i as int);
                assert(j % 64 < tz);
                let jb = (j % 64) as u64;
                assert((val >> jb) & 1u64 == 0u64);
                lemma_inverted_bit(w, jb);
            }
        }
        lemma_first_free_unique(bf@, bit as int);
    }
    Ok(bit)
}

} // verus!
