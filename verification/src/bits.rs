//! Bitboards: sets of squares held in the bits of a `u64`, square `s` in
//! bit `s`.

use vstd::prelude::*;

verus! {

/// The number of squares in a bitboard.
pub open spec fn popcount(x: u64) -> nat
    decreases x,
{
    if x == 0 {
        0
    } else {
        (x % 2) as nat + popcount(x / 2)
    }
}

/// A bitboard below `2^k` holds at most `k` squares.
proof fn lemma_popcount_below(x: u64, k: nat)
    requires
        (x as int) < vstd::arithmetic::power2::pow2(k),
    ensures
        popcount(x) <= k,
    decreases k,
{
    if x != 0 {
        if k == 0 {
            vstd::arithmetic::power2::lemma2_to64();
        } else {
            vstd::arithmetic::power2::lemma_pow2_unfold(k);
            lemma_popcount_below(x / 2, (k - 1) as nat);
        }
    }
}

/// A bitboard holds at most 64 squares.
pub proof fn lemma_popcount_bound(x: u64)
    ensures
        popcount(x) <= 64,
{
    vstd::arithmetic::power2::lemma2_to64();
    lemma_popcount_below(x, 64);
}

/// Two bitboards without a common square hold, together, as many squares
/// as the one and the other.
pub proof fn lemma_popcount_disjoint(a: u64, b: u64)
    requires
        a & b == 0,
    ensures
        popcount(a | b) == popcount(a) + popcount(b),
    decreases a + b,
{
    if a == 0 && b == 0 {
        assert(0u64 | 0u64 == 0u64) by (bit_vector);
    } else {
        assert((a | b) % 2 == a % 2 + b % 2) by (bit_vector)
            requires
                a & b == 0,
        ;
        assert((a | b) / 2 == (a / 2) | (b / 2)) by (bit_vector);
        assert((a / 2) & (b / 2) == 0) by (bit_vector)
            requires
                a & b == 0,
        ;
        assert(a | b != 0) by (bit_vector)
            requires
                a != 0 || b != 0,
        ;
        lemma_popcount_disjoint(a / 2, b / 2);
    }
}

/// A part of a bitboard holds no more squares than the whole.
pub proof fn lemma_popcount_subset(part: u64, whole: u64)
    requires
        part & whole == part,
    ensures
        popcount(part) <= popcount(whole),
{
    let rest = whole & !part;
    assert(part & rest == 0) by (bit_vector)
        requires
            rest == whole & !part,
    ;
    assert(part | rest == whole) by (bit_vector)
        requires
            rest == whole & !part,
            part & whole == part,
    ;
    lemma_popcount_disjoint(part, rest);
}

/// A bitboard of one square holds one square.
pub proof fn lemma_popcount_single(square: u64)
    requires
        square < 64,
    ensures
        popcount(1u64 << square) == 1,
    decreases square,
{
    let x = 1u64 << square;
    if square == 0 {
        assert(1u64 << 0u64 == 1u64) by (bit_vector);
        assert(popcount(1) == 1 + popcount(0));
    } else {
        let less = (square - 1) as u64;
        assert(x != 0 && x % 2 == 0 && x / 2 == 1u64 << less) by (bit_vector)
            requires
                x == 1u64 << square,
                0 < square < 64,
                less == square - 1,
        ;
        lemma_popcount_single(less);
    }
}

/// The squares of a bitboard from `from` on: none from 64 on.
pub open spec fn squares_from(x: u64, from: nat) -> u64 {
    if from >= 64 {
        0
    } else {
        x & (u64::MAX << (from as u64))
    }
}

/// Taking the lowest square off the squares of a bitboard from `from` on
/// leaves one square less: the squares from the next square on.
pub proof fn lemma_popcount_next(x: u64, from: nat)
    requires
        from < 64,
        squares_from(x, from) != 0,
    ensures
        from <= lowest_square(squares_from(x, from)) < 64,
        popcount(squares_from(x, from)) == 1 + popcount(
            squares_from(x, lowest_square(squares_from(x, from)) + 1),
        ),
{
    let rest = squares_from(x, from);
    vstd::std_specs::bits::axiom_u64_trailing_zeros(rest);
    let square = vstd::std_specs::bits::u64_trailing_zeros(rest) as u64;
    let low = from as u64;
    let up = (64 - square) as u64;
    assert(rest << up == 0);
    let after = squares_from(x, (square + 1) as nat);
    let one = 1u64 << square;
    if square == 63 {
        assert(square >= low && rest == one | after && one & after == 0) by (bit_vector)
            requires
                rest == x & (0xffff_ffff_ffff_ffffu64 << low),
                low < 64,
                square == 63,
                (rest >> square) & 1 == 1,
                rest << up == 0,
                up == 1,
                after == 0,
                one == 1u64 << square,
        ;
    } else if square == 0 {
        let next = (square + 1) as u64;
        assert(square >= low && rest == one | after && one & after == 0) by (bit_vector)
            requires
                rest == x & (0xffff_ffff_ffff_ffffu64 << low),
                low < 64,
                square == 0,
                next == 1,
                (rest >> square) & 1 == 1,
                after == x & (0xffff_ffff_ffff_ffffu64 << next),
                one == 1u64 << square,
        ;
    } else {
        let next = (square + 1) as u64;
        assert(square >= low && rest == one | after && one & after == 0) by (bit_vector)
            requires
                rest == x & (0xffff_ffff_ffff_ffffu64 << low),
                low < 64,
                0 < square < 63,
                next == square + 1,
                (rest >> square) & 1 == 1,
                rest << up == 0,
                up == 64 - square,
                after == x & (0xffff_ffff_ffff_ffffu64 << next),
                one == 1u64 << square,
        ;
    }
    lemma_popcount_single(square);
    lemma_popcount_disjoint(one, after);
}

/// Counts the squares of a bitboard.
pub fn count_squares(x: u64) -> (n: u8)
    ensures
        n == popcount(x),
        n <= 64,
{
    let mut rest = x;
    let mut n: u8 = 0;
    proof {
        lemma_popcount_bound(x);
    }
    while rest != 0
        invariant
            n + popcount(rest) == popcount(x),
            popcount(x) <= 64,
        decreases rest,
    {
        proof {
            assert(rest & 1 == rest % 2) by (bit_vector);
            assert(rest >> 1 == rest / 2) by (bit_vector);
        }
        if rest & 1 == 1 {
            n = n + 1;
        }
        rest = rest >> 1;
    }
    n
}

/// The lowest square of a bitboard that is not empty.
pub open spec fn lowest_square(x: u64) -> nat {
    vstd::std_specs::bits::u64_trailing_zeros(x) as nat
}

/// Finds the lowest square of a bitboard that is not empty.
pub fn first_square(x: u64) -> (s: u8)
    requires
        x != 0,
    ensures
        s == lowest_square(x),
        s < 64,
        (x >> (s as u64)) & 1 == 1,
{
    proof {
        vstd::std_specs::bits::axiom_u64_trailing_zeros(x);
    }
    x.trailing_zeros() as u8
}

/// Whether a bitboard holds a square.
pub open spec fn has_square(x: u64, square: nat) -> bool {
    square < 64 && (x >> (square as u64)) & 1 == 1
}

} // verus!
