//! Bit-level facts about the 81-cell board masks.
use vstd::prelude::*;

verus! {

/// Bit `i` of `x` is set.
pub open spec fn has_bit(x: u128, i: int) -> bool {
    0 <= i < 128 && (x >> (i as u128)) & 1u128 == 1u128
}

/// The cells whose bits are set in `x`.
pub open spec fn cells(x: u128) -> Set<int> {
    Set::new(|i: int| has_bit(x, i))
}

/// Testing a bit with a one-bit mask.
pub proof fn lemma_mask_test(x: u128, i: u128)
    requires
        i < 128,
    ensures
        (x & (1u128 << i) != 0) == has_bit(x, i as int),
{
    assert((x & (1u128 << i) != 0) == ((x >> i) & 1u128 == 1u128)) by (bit_vector)
        requires
            i < 128,
    ;
}

/// Testing a bit by shifting it down.
pub proof fn lemma_shifted_bit(x: u128, i: u128)
    requires
        i < 128,
    ensures
        ((x >> i) & 1 != 0) == has_bit(x, i as int),
{
    assert(((x >> i) & 1 != 0) == ((x >> i) & 1u128 == 1u128)) by (bit_vector);
}

/// The bits of an `|` are those of either side.
pub proof fn lemma_or_bit(a: u128, b: u128, i: u128)
    requires
        i < 128,
    ensures
        has_bit(a | b, i as int) == (has_bit(a, i as int) || has_bit(b, i as int)),
{
    assert((((a | b) >> i) & 1u128 == 1u128) == (((a >> i) & 1u128 == 1u128) || ((b >> i) & 1u128
        == 1u128))) by (bit_vector);
}

/// The bits of an `&` are those of both sides.
pub proof fn lemma_and_bit(a: u128, b: u128, i: u128)
    requires
        i < 128,
    ensures
        has_bit(a & b, i as int) == (has_bit(a, i as int) && has_bit(b, i as int)),
{
    assert((((a & b) >> i) & 1u128 == 1u128) == (((a >> i) & 1u128 == 1u128) && ((b >> i) & 1u128
        == 1u128))) by (bit_vector);
}

/// The bits of a `!` are the others.
pub proof fn lemma_not_bit(a: u128, i: u128)
    requires
        i < 128,
    ensures
        has_bit(!a, i as int) == !has_bit(a, i as int),
{
    assert(((!a >> i) & 1u128 == 1u128) == !((a >> i) & 1u128 == 1u128)) by (bit_vector)
        requires
            i < 128,
    ;
}

/// Shifting right by `s` moves bit `i + s` to bit `i`.
pub proof fn lemma_shr_bit(a: u128, s: u128, i: u128)
    requires
        i < 128,
        s < 128,
    ensures
        has_bit(a >> s, i as int) == (i + s < 128 && has_bit(a, i + s)),
{
    assert((((a >> s) >> i) & 1u128 == 1u128) == (i + s < 128 && ((a >> (i + s) as u128) & 1u128
        == 1u128))) by (bit_vector)
        requires
            i < 128,
            s < 128,
    ;
}

/// Shifting left by `s` moves bit `i - s` to bit `i`.
pub proof fn lemma_shl_bit(a: u128, s: u128, i: u128)
    requires
        i < 128,
        s < 128,
    ensures
        has_bit(a << s, i as int) == (i >= s && has_bit(a, i - s)),
{
    assert((((a << s) >> i) & 1u128 == 1u128) == (i >= s && ((a >> (i - s) as u128) & 1u128
        == 1u128))) by (bit_vector)
        requires
            i < 128,
            s < 128,
    ;
}

/// `|` with zero and `&` with all ones change nothing.
pub proof fn lemma_identity_masks(x: u128)
    ensures
        x | 0u128 == x,
        x & !0u128 == x,
{
    assert(x | 0u128 == x && x & !0u128 == x) by (bit_vector);
}

/// Clearing bits that were just set, and were clear before, restores the value.
pub proof fn lemma_set_then_clear(x: u128, m: u128)
    requires
        x & m == 0,
    ensures
        (x | m) & !m == x,
{
    assert(x & m == 0 ==> (x | m) & !m == x) by (bit_vector);
}

/// The same for 64-bit values.
pub proof fn lemma_set_then_clear64(x: u64, m: u64)
    requires
        x & m == 0,
    ensures
        (x | m) & !m == x,
{
    assert(x & m == 0 ==> (x | m) & !m == x) by (bit_vector);
}

/// The two bits of a wall, `s` and `s + 1` (`3 << s`) or `s` and `s + 9`
/// (`513 << s`), are clear when each one is.
pub proof fn lemma_wall_bits_clear(x: u128, s: u8)
    requires
        s < 119,
    ensures
        (x & (1u128 << s) == 0 && x & (1u128 << (s + 1) as u8) == 0) ==> x & (3u128 << s) == 0,
        (x & (1u128 << s) == 0 && x & (1u128 << (s + 9) as u8) == 0) ==> x & (513u128 << s) == 0,
        x & 0u128 == 0,
{
    let t = s as u128;
    assert((x & (1u128 << t) == 0 && x & (1u128 << (t + 1)) == 0) ==> x & (3u128 << t) == 0)
        by (bit_vector)
        requires
            t < 119,
    ;
    assert((x & (1u128 << t) == 0 && x & (1u128 << (t + 9)) == 0) ==> x & (513u128 << t) == 0)
        by (bit_vector)
        requires
            t < 119,
    ;
    assert(x & 0u128 == 0) by (bit_vector);
}

/// No bit of zero is set.
pub proof fn lemma_zero_bits()
    ensures
        forall|i: int| !has_bit(0u128, i),
{
    assert forall|i: int| !has_bit(0u128, i) by {
        if 0 <= i < 128 {
            let k = i as u128;
            assert((0u128 >> k) & 1u128 == 0u128) by (bit_vector);
        }
    }
}

/// The only bit of `1 << p` is bit `p`.
pub proof fn lemma_single_bit(p: u128)
    requires
        p < 128,
    ensures
        forall|i: int| has_bit(1u128 << p, i) <==> i == p,
{
    assert forall|i: int| has_bit(1u128 << p, i) <==> i == p by {
        if 0 <= i < 128 {
            let k = i as u128;
            assert((((1u128 << p) >> k) & 1u128 == 1u128) == (k == p)) by (bit_vector)
                requires
                    p < 128,
                    k < 128,
            ;
        }
    }
}

/// A value with some bit set is not zero.
pub proof fn lemma_nonzero_bit(x: u128)
    ensures
        (x != 0) <==> exists|i: int| has_bit(x, i),
{
    lemma_zero_bits();
    if x != 0 {
        if forall|i: int| !has_bit(x, i) {
            assert forall|i: int| 0 <= i < 128 implies has_bit(x, i) == has_bit(0u128, i) by {}
            lemma_bits_ext(x, 0u128);
        }
    }
}

/// Two values with the same bits are equal.
pub proof fn lemma_bits_ext(a: u128, b: u128)
    requires
        forall|i: int| 0 <= i < 128 ==> has_bit(a, i) == has_bit(b, i),
    ensures
        a == b,
{
    let c = a ^ b;
    assert forall|i: u128| i < 128 implies (c >> i) & 1u128 == 0u128 by {
        assert(has_bit(a, i as int) == has_bit(b, i as int));
        assert(((a >> i) & 1u128 == 1u128) == ((b >> i) & 1u128 == 1u128) ==> ((a ^ b) >> i)
            & 1u128 == 0u128) by (bit_vector);
    }
    lemma_low_zero(c, 128);
    assert(c == 0u128 ==> a == b) by (bit_vector)
        requires
            c == a ^ b,
    ;
}

/// A value whose `n` lowest bits are clear has nothing under the mask of
/// those bits.
pub proof fn lemma_low_zero(c: u128, n: u128)
    requires
        n <= 128,
        forall|i: u128| i < n ==> (c >> i) & 1u128 == 0u128,
    ensures
        n == 128 ==> c == 0,
        n < 128 ==> c & (((1u128 << n) - 1) as u128) == 0,
    decreases n,
{
    if n == 0 {
        assert(c & (((1u128 << 0u128) - 1) as u128) == 0) by (bit_vector);
    } else {
        lemma_low_zero(c, (n - 1) as u128);
        let m = (n - 1) as u128;
        assert((c >> m) & 1u128 == 0u128);
        if n == 128 {
            assert(c & (((1u128 << m) - 1) as u128) == 0 && (c >> m) & 1u128 == 0u128 && m == 127 ==> c == 0)
                by (bit_vector);
        } else {
            assert(c & (((1u128 << m) - 1) as u128) == 0 && (c >> m) & 1u128 == 0u128 && m < 127 ==> c & (((1u128 << (m + 1) as u128) - 1) as u128) == 0) by (bit_vector);
        }
    }
}

} // verus!
