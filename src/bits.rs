use vstd::prelude::*;

verus! {

/// Whether bit `j` of `w` is set.
pub open spec fn bit(w: u64, j: u64) -> bool {
    (w >> j) & 1u64 == 1u64
}

/// The word whose bit `j` is `p(j)` for `j < n` and clear above.
pub open spec fn word_of(p: spec_fn(int) -> bool, n: int) -> u64
    decreases n,
{
    if n <= 0 {
        0u64
    } else {
        word_of(p, n - 1) | (if p(n - 1) {
            1u64 << ((n - 1) as u64)
        } else {
            0u64
        })
    }
}

pub proof fn lemma_bit_or_single(w: u64, k: u64, j: u64)
    requires
        k < 64,
        j < 64,
    ensures
        bit(w | (1u64 << k), j) == (bit(w, j) || j == k),
        bit(w | 0u64, j) == bit(w, j),
{
    assert(k < 64 && j < 64 ==> (((w | (1u64 << k)) >> j) & 1u64 == 1u64) == ((w >> j) & 1u64
        == 1u64 || j == k)) by (bit_vector);
    assert((((w | 0u64) >> j) & 1u64 == 1u64) == ((w >> j) & 1u64 == 1u64)) by (bit_vector);
}

pub proof fn lemma_bit_or(a: u64, b: u64, j: u64)
    requires
        j < 64,
    ensures
        bit(a | b, j) == (bit(a, j) || bit(b, j)),
{
    assert((((a | b) >> j) & 1u64 == 1u64) == ((a >> j) & 1u64 == 1u64 || (b >> j) & 1u64
        == 1u64)) by (bit_vector);
}

pub proof fn lemma_bit_and(a: u64, b: u64, j: u64)
    requires
        j < 64,
    ensures
        bit(a & b, j) == (bit(a, j) && bit(b, j)),
{
    assert((((a & b) >> j) & 1u64 == 1u64) == ((a >> j) & 1u64 == 1u64 && (b >> j) & 1u64
        == 1u64)) by (bit_vector);
}

pub proof fn lemma_bit_not(a: u64, j: u64)
    requires
        j < 64,
    ensures
        bit(!a, j) == !bit(a, j),
{
    assert(j < 64 ==> (((!a) >> j) & 1u64 == 1u64) == !((a >> j) & 1u64 == 1u64)) by (bit_vector);
}

/// Bits of a word shifted right by one.
pub proof fn lemma_bit_shr1(a: u64, j: u64)
    requires
        j < 64,
    ensures
        bit(a >> 1u64, j) == (j < 63 && bit(a, (j + 1) as u64)),
{
    assert(j < 64 ==> (((a >> 1u64) >> j) & 1u64 == 1u64) == (j < 63 && (a >> ((j + 1) as u64))
        & 1u64 == 1u64)) by (bit_vector);
}

/// Bits of a word shifted left by one.
pub proof fn lemma_bit_shl1(a: u64, j: u64)
    requires
        j < 64,
    ensures
        bit(a << 1u64, j) == (j > 0 && bit(a, (j - 1) as u64)),
{
    assert(j < 64 ==> (((a << 1u64) >> j) & 1u64 == 1u64) == (j > 0 && (a >> ((j - 1) as u64))
        & 1u64 == 1u64)) by (bit_vector);
}

/// Two words with the same bits are equal.
pub proof fn lemma_bits_equal(a: u64, b: u64)
    requires
        forall|j: u64| j < 64 ==> #[trigger] bit(a, j) == bit(b, j),
    ensures
        a == b,
{
    lemma_bits_equal_from(a, b, 64);
    assert(a >> 0u64 == a && b >> 0u64 == b) by (bit_vector);
}

proof fn lemma_bits_equal_from(a: u64, b: u64, k: u64)
    requires
        k <= 64,
        forall|j: u64| j < 64 ==> #[trigger] bit(a, j) == bit(b, j),
    ensures
        a >> (64 - k) as u64 == b >> (64 - k) as u64,
    decreases k,
{
    if k == 0 {
        assert(a >> 64u64 == 0u64 && b >> 64u64 == 0u64) by (bit_vector);
    } else {
        lemma_bits_equal_from(a, b, (k - 1) as u64);
        let s = (64 - k) as u64;
        assert(bit(a, s) == bit(b, s));
        assert(s < 64 && (a >> ((s + 1) as u64)) == (b >> ((s + 1) as u64)) && ((a >> s) & 1u64
            == 1u64) == ((b >> s) & 1u64 == 1u64) ==> a >> s == b >> s) by (bit_vector);
    }
}

/// Bit `j` of `word_of(p, n)` is `p(j)` below `n` and clear above.
pub proof fn lemma_word_of_bit(p: spec_fn(int) -> bool, n: int, j: u64)
    requires
        n <= 64,
        j < 64,
    ensures
        bit(word_of(p, n), j) == (j < n && p(j as int)),
    decreases n,
{
    if n <= 0 {
        assert((0u64 >> j) & 1u64 == 0u64) by (bit_vector);
    } else {
        lemma_word_of_bit(p, n - 1, j);
        lemma_bit_or_single(word_of(p, n - 1), (n - 1) as u64, j);
    }
}


/// Bits of the mask that clears bit 0 and bit `k`.
pub proof fn lemma_bit_two_cleared(k: u64, q: u64)
    requires
        k < 64,
        q < 64,
    ensures
        bit(!((1u64 << k) | 1u64), q) == (q != 0 && q != k),
{
    assert(k < 64 && q < 64 ==> ((((!((1u64 << k) | 1u64)) >> q) & 1u64 == 1u64) == (q != 0 && q
        != k))) by (bit_vector);
}

/// Bits of `w` with bit `c` cleared.
pub proof fn lemma_bit_clear(w: u64, c: u64, j: u64)
    requires
        c < 64,
        j < 64,
    ensures
        bit(w & !(1u64 << c), j) == (bit(w, j) && j != c),
        bit(w, c) ==> w & !(1u64 << c) < w,
{
    assert(c < 64 && j < 64 ==> ((((w & !(1u64 << c)) >> j) & 1u64 == 1u64) == ((w >> j) & 1u64
        == 1u64 && j != c))) by (bit_vector);
    assert(c < 64 && (w >> c) & 1u64 == 1u64 ==> w & !(1u64 << c) < w) by (bit_vector);
}

/// Bits of a one-bit term `keep & ((1 << c) >> 1) & (flag << (c - 1))`.
pub proof fn lemma_bit_term_below(keep: u64, c: u64, flag: u64, j: u64)
    requires
        1 <= c < 64,
        flag <= 1,
        j < 64,
    ensures
        bit(keep & ((1u64 << c) >> 1u64) & (flag << ((c - 1) as u64)), j) == (j == c - 1 && bit(
            keep,
            j,
        ) && flag == 1),
{
    assert(1 <= c < 64 && flag <= 1 && j < 64 ==> ((((keep & ((1u64 << c) >> 1u64) & (flag << ((c
        - 1) as u64))) >> j) & 1u64 == 1u64) == (j == c - 1 && (keep >> j) & 1u64 == 1u64 && flag
        == 1))) by (bit_vector);
}

/// Bits of a one-bit term `keep & (1 << c) & (flag << c)`.
pub proof fn lemma_bit_term_at(keep: u64, c: u64, flag: u64, j: u64)
    requires
        c < 64,
        flag <= 1,
        j < 64,
    ensures
        bit(keep & (1u64 << c) & (flag << c), j) == (j == c && bit(keep, j) && flag == 1),
{
    assert(c < 64 && flag <= 1 && j < 64 ==> ((((keep & (1u64 << c) & (flag << c)) >> j) & 1u64
        == 1u64) == (j == c && (keep >> j) & 1u64 == 1u64 && flag == 1))) by (bit_vector);
}

/// Two `word_of`s over predicates that agree below `n` are equal.
pub proof fn lemma_word_of_agree(p: spec_fn(int) -> bool, q: spec_fn(int) -> bool, n: int)
    requires
        forall|j: int| 0 <= j < n ==> #[trigger] p(j) == q(j),
    ensures
        word_of(p, n) == word_of(q, n),
    decreases n,
{
    if n > 0 {
        lemma_word_of_agree(p, q, n - 1);
    }
}


/// Bits of `w` with the bits below `k` cleared.
pub proof fn lemma_bit_clear_below(w: u64, k: u64, j: u64)
    requires
        k < 64,
        j < 64,
    ensures
        bit(w & !(((1u64 << k) - 1u64) as u64), j) == (bit(w, j) && j >= k),
        w & !(((1u64 << k) - 1u64) as u64) <= w,
{
    assert(k < 64 && j < 64 ==> ((((w & !(((1u64 << k) - 1u64) as u64)) >> j) & 1u64 == 1u64) == ((w >> j)
        & 1u64 == 1u64 && j >= k))) by (bit_vector);
    assert(w & !(((1u64 << k) - 1u64) as u64) <= w) by (bit_vector);
}

/// Bit `j` tested as the original code does, `(w >> j & 1) != 0`.
pub proof fn lemma_bit_test(w: u64, j: u64)
    ensures
        ((w >> j) & 1u64 != 0u64) == bit(w, j),
{
    assert(((w >> j) & 1u64 != 0u64) == ((w >> j) & 1u64 == 1u64)) by (bit_vector);
}

/// The lowest set bit of a nonzero word.
pub proof fn lemma_lowest_bit(w: u64)
    requires
        w != 0,
    ensures
        w.trailing_zeros() < 64,
        bit(w, w.trailing_zeros() as u64),
        forall|j: u64| j < w.trailing_zeros() ==> !#[trigger] bit(w, j),
{
    vstd::std_specs::bits::axiom_u64_trailing_zeros(w);
}


pub proof fn lemma_bit_zero(j: u64)
    ensures
        !bit(0u64, j),
{
    assert((0u64 >> j) & 1u64 == 0u64) by (bit_vector);
}

} // verus!
