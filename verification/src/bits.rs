use vstd::prelude::*;

verus! {

/// Whether square `i` (bit `i`) is set in a 64-bit board mask.
pub open spec fn bit(raw: u64, i: int) -> bool {
    0 <= i < 64 && (raw >> (i as u64)) & 1u64 == 1u64
}

/// The mask that holds square `i` alone.
pub open spec fn single(i: int) -> u64 {
    (1u64 << (i as u64)) as u64
}

pub proof fn lemma_or_u64(a: u64, b: u64, i: u64)
    requires
        i < 64,
    ensures
        (((a | b) >> i) & 1u64 == 1u64) == (((a >> i) & 1u64 == 1u64) || ((b >> i) & 1u64 == 1u64)),
{
    assert((((a | b) >> i) & 1u64 == 1u64) == (((a >> i) & 1u64 == 1u64) || ((b >> i) & 1u64
        == 1u64))) by (bit_vector)
        requires
            i < 64,
    ;
}

pub proof fn lemma_and_u64(a: u64, b: u64, i: u64)
    requires
        i < 64,
    ensures
        (((a & b) >> i) & 1u64 == 1u64) == (((a >> i) & 1u64 == 1u64) && ((b >> i) & 1u64 == 1u64)),
{
    assert((((a & b) >> i) & 1u64 == 1u64) == (((a >> i) & 1u64 == 1u64) && ((b >> i) & 1u64
        == 1u64))) by (bit_vector)
        requires
            i < 64,
    ;
}

pub proof fn lemma_xor_u64(a: u64, b: u64, i: u64)
    requires
        i < 64,
    ensures
        (((a ^ b) >> i) & 1u64 == 1u64) == (((a >> i) & 1u64 == 1u64) != ((b >> i) & 1u64 == 1u64)),
{
    assert((((a ^ b) >> i) & 1u64 == 1u64) == (((a >> i) & 1u64 == 1u64) != ((b >> i) & 1u64
        == 1u64))) by (bit_vector)
        requires
            i < 64,
    ;
}

pub proof fn lemma_not_u64(a: u64, i: u64)
    requires
        i < 64,
    ensures
        (((!a) >> i) & 1u64 == 1u64) == !((a >> i) & 1u64 == 1u64),
{
    assert((((!a) >> i) & 1u64 == 1u64) == !((a >> i) & 1u64 == 1u64)) by (bit_vector)
        requires
            i < 64,
    ;
}

pub proof fn lemma_single_u64(i: u64, j: u64)
    requires
        i < 64,
        j < 64,
    ensures
        (((1u64 << i) >> j) & 1u64 == 1u64) == (i == j),
{
    assert((((1u64 << i) >> j) & 1u64 == 1u64) == (i == j)) by (bit_vector)
        requires
            i < 64,
            j < 64,
    ;
}

pub proof fn lemma_zero_u64(j: u64)
    requires
        j < 64,
    ensures
        !(((0u64 >> j) & 1u64) == 1u64),
{
    assert(!(((0u64 >> j) & 1u64) == 1u64)) by (bit_vector);
}

pub proof fn lemma_shl_u64(a: u64, n: u64, j: u64)
    requires
        n < 64,
        j < 64,
    ensures
        (((a << n) >> j) & 1u64 == 1u64) == (j >= n && ((a >> ((j - n) as u64)) & 1u64 == 1u64)),
{
    if j >= n {
        let k: u64 = (j - n) as u64;
        assert((((a << n) >> j) & 1u64 == 1u64) == ((a >> k) & 1u64 == 1u64)) by (bit_vector)
            requires
                n < 64,
                j < 64,
                k == j - n,
        ;
    } else {
        assert(!(((a << n) >> j) & 1u64 == 1u64)) by (bit_vector)
            requires
                n < 64,
                j < 64,
                j < n,
        ;
    }
}

pub proof fn lemma_shr_u64(a: u64, n: u64, j: u64)
    requires
        n < 64,
        j < 64,
    ensures
        (((a >> n) >> j) & 1u64 == 1u64) == (j + n < 64 && ((a >> ((j + n) as u64)) & 1u64
            == 1u64)),
{
    if j + n < 64 {
        let k: u64 = (j + n) as u64;
        assert((((a >> n) >> j) & 1u64 == 1u64) == ((a >> k) & 1u64 == 1u64)) by (bit_vector)
            requires
                n < 64,
                j < 64,
                k == j + n,
        ;
    } else {
        assert(!(((a >> n) >> j) & 1u64 == 1u64)) by (bit_vector)
            requires
                n < 64,
                j < 64,
                j + n >= 64,
        ;
    }
}

/// A square of `a | b` is a square of `a` or of `b`.
pub broadcast proof fn lemma_bit_or(a: u64, b: u64, i: int)
    ensures
        #[trigger] bit(a | b, i) == (bit(a, i) || bit(b, i)),
{
    if 0 <= i < 64 {
        lemma_or_u64(a, b, i as u64);
    }
}

/// A square of `a & b` is a square of both.
pub broadcast proof fn lemma_bit_and(a: u64, b: u64, i: int)
    ensures
        #[trigger] bit(a & b, i) == (bit(a, i) && bit(b, i)),
{
    if 0 <= i < 64 {
        lemma_and_u64(a, b, i as u64);
    }
}

/// A square of `a ^ b` is a square of exactly one of them.
pub broadcast proof fn lemma_bit_xor(a: u64, b: u64, i: int)
    ensures
        #[trigger] bit(a ^ b, i) == (0 <= i < 64 && bit(a, i) != bit(b, i)),
{
    if 0 <= i < 64 {
        lemma_xor_u64(a, b, i as u64);
    }
}

/// A square of `!a` is a board square that `a` lacks.
pub broadcast proof fn lemma_bit_not(a: u64, i: int)
    ensures
        #[trigger] bit(!a, i) == (0 <= i < 64 && !bit(a, i)),
{
    if 0 <= i < 64 {
        lemma_not_u64(a, i as u64);
    }
}

/// The single-square mask holds its square and no other.
pub broadcast proof fn lemma_bit_single(i: int, j: int)
    requires
        0 <= i < 64,
    ensures
        #[trigger] bit(single(i), j) == (i == j),
{
    if 0 <= j < 64 {
        lemma_single_u64(i as u64, j as u64);
    }
}

/// The empty mask holds no square.
pub broadcast proof fn lemma_bit_zero(j: int)
    ensures
        !#[trigger] bit(0u64, j),
{
    if 0 <= j < 64 {
        lemma_zero_u64(j as u64);
    }
}

/// Shifting left by `n` moves every square up by `n`, dropping those past the board.
pub broadcast proof fn lemma_bit_shl(a: u64, n: u64, j: int)
    requires
        n < 64,
    ensures
        #[trigger] bit(a << n, j) == (0 <= j < 64 && j >= n && bit(a, j - n)),
{
    if 0 <= j < 64 {
        lemma_shl_u64(a, n, j as u64);
    }
}

/// Shifting right by `n` moves every square down by `n`, dropping those below zero.
pub broadcast proof fn lemma_bit_shr(a: u64, n: u64, j: int)
    requires
        n < 64,
    ensures
        #[trigger] bit(a >> n, j) == (0 <= j < 64 && bit(a, j + n)),
{
    if 0 <= j < 64 {
        lemma_shr_u64(a, n, j as u64);
    }
}

pub broadcast group group_bits {
    lemma_bit_or,
    lemma_bit_and,
    lemma_bit_xor,
    lemma_bit_not,
    lemma_bit_single,
    lemma_bit_zero,
    lemma_bit_shl,
    lemma_bit_shr,
}

proof fn lemma_top_bits_u64(c: u64, k: u64)
    requires
        k < 63,
    ensures
        (c >> k) == (((c >> ((k + 1) as u64)) << 1u64) | ((c >> k) & 1u64)),
{
    let k1: u64 = (k + 1) as u64;
    assert((c >> k) == (((c >> k1) << 1u64) | ((c >> k) & 1u64))) by (bit_vector)
        requires
            k < 63,
            k1 == k + 1,
    ;
}

proof fn lemma_shift_zero_from(c: u64, k: int)
    requires
        0 <= k < 64,
        forall|j: int| k <= j < 64 ==> !bit(c, j),
    ensures
        (c >> (k as u64)) == 0,
    decreases 64 - k,
{
    if k == 63 {
        assert(!bit(c, 63));
        assert(((c >> 63u64) & 1u64) != 1u64 ==> (c >> 63u64) == 0u64) by (bit_vector);
    } else {
        lemma_shift_zero_from(c, k + 1);
        lemma_top_bits_u64(c, k as u64);
        let h: u64 = c >> ((k + 1) as u64);
        assert(h == 0);
        assert(!bit(c, k));
        let ku: u64 = k as u64;
        let l: u64 = (c >> ku) & 1u64;
        assert(l != 1u64 ==> l == 0u64) by (bit_vector)
            requires
                l == (c >> ku) & 1u64,
        ;
        assert(((0u64 << 1u64) | 0u64) == 0u64) by (bit_vector);
    }
}

/// A mask without any square is zero.
pub proof fn lemma_no_bits_zero(c: u64)
    requires
        forall|j: int| 0 <= j < 64 ==> !bit(c, j),
    ensures
        c == 0,
{
    lemma_shift_zero_from(c, 0);
    assert((c >> 0u64) == c) by (bit_vector);
}

/// Two masks with the same squares are equal.
pub proof fn lemma_bits_ext(a: u64, b: u64)
    requires
        forall|j: int| 0 <= j < 64 ==> bit(a, j) == bit(b, j),
    ensures
        a == b,
{
    broadcast use group_bits;

    assert forall|j: int| 0 <= j < 64 implies !bit(a ^ b, j) by {}
    lemma_no_bits_zero(a ^ b);
    assert((a ^ b) == 0u64 ==> a == b) by (bit_vector);
}

/// A mask is zero exactly when it holds no square.
pub proof fn lemma_zero_iff_empty(c: u64)
    ensures
        (c == 0) == (forall|j: int| 0 <= j < 64 ==> !bit(c, j)),
{
    broadcast use group_bits;

    if forall|j: int| 0 <= j < 64 ==> !bit(c, j) {
        lemma_no_bits_zero(c);
    }
}

/// A mask meets the single-square mask of `s` exactly when it holds `s`.
pub proof fn lemma_and_single(a: u64, s: int)
    requires
        0 <= s < 64,
    ensures
        ((a & single(s)) != 0) == bit(a, s),
{
    broadcast use group_bits;

    lemma_zero_iff_empty(a & single(s));
    if bit(a, s) {
        assert(bit(a & single(s), s));
    }
}

/// The mask whose squares are those that satisfy a predicate.
pub open spec fn mask_of(p: spec_fn(int) -> bool) -> u64 {
    choose|m: u64| is_mask_for(m, p)
}

/// Whether the squares of `m` are exactly those that satisfy `p`.
pub open spec fn is_mask_for(m: u64, p: spec_fn(int) -> bool) -> bool {
    forall|s: int| 0 <= s < 64 ==> bit(m, s) == p(s)
}

/// The mask of the squares below `n` that satisfy a predicate.
pub open spec fn build_mask(p: spec_fn(int) -> bool, n: int) -> u64
    decreases n,
{
    if n <= 0 {
        0u64
    } else {
        build_mask(p, n - 1) | (if p(n - 1) { single(n - 1) } else { 0u64 })
    }
}

proof fn lemma_build_mask(p: spec_fn(int) -> bool, n: int)
    requires
        0 <= n <= 64,
    ensures
        forall|s: int| 0 <= s < 64 ==> bit(build_mask(p, n), s) == (s < n && p(s)),
    decreases n,
{
    broadcast use group_bits;

    if n > 0 {
        lemma_build_mask(p, n - 1);
        let prev = build_mask(p, n - 1);
        let add: u64 = if p(n - 1) { single(n - 1) } else { 0u64 };
        assert forall|s: int| 0 <= s < 64 implies bit(build_mask(p, n), s) == (s < n && p(s)) by {
            assert(build_mask(p, n) == prev | add);
            assert(bit(prev | add, s) == (bit(prev, s) || bit(add, s)));
            if p(n - 1) {
                assert(bit(single(n - 1), s) == (n - 1 == s));
            } else {
                assert(!bit(0u64, s));
            }
        }
    }
}

/// `mask_of(p)` holds exactly the squares that satisfy `p`, and is the only such mask.
pub proof fn lemma_mask_of(p: spec_fn(int) -> bool)
    ensures
        forall|s: int| 0 <= s < 64 ==> bit(mask_of(p), s) == p(s),
        forall|m: u64| #[trigger] is_mask_for(m, p) ==> m == mask_of(p),
{
    lemma_build_mask(p, 64);
    assert(is_mask_for(build_mask(p, 64), p));
    assert forall|m: u64| #[trigger] is_mask_for(m, p) implies m == mask_of(p) by {
        lemma_bits_ext(m, mask_of(p));
    }
}

/// A mask equals `mask_of(p)` when its squares are those that satisfy `p`.
pub proof fn lemma_is_mask_of(m: u64, p: spec_fn(int) -> bool)
    requires
        forall|s: int| 0 <= s < 64 ==> bit(m, s) == p(s),
    ensures
        m == mask_of(p),
{
    lemma_mask_of(p);
    assert(is_mask_for(m, p));
}

} // verus!
