//! Zobrist hashing of positions: a fixed pseudo-random key for each pawn
//! cell, each count of walls left, each wall bit and the side to move; the
//! hash of a position is the `^` of the keys of its features.
use vstd::prelude::*;
use vstd::std_specs::bits::{axiom_u64_trailing_zeros, u64_trailing_zeros};
use crate::game::bits::{has_bit, lemma_low_zero};
use crate::game::board::Board;

verus! {

/// The seed of the key generator.
pub const ZOBRIST_SEED: u64 = 0xDEAD_BEEF_CAFE_F00D;

/// One step of the xorshift generator.
pub open spec fn xorshift(s: u64) -> u64 {
    let a = s ^ (s << 13u64);
    let b = a ^ (a >> 7u64);
    b ^ (b << 17u64)
}

/// The generator's state after `k` steps from `s`.
pub open spec fn rng_after(s: u64, k: nat) -> u64
    decreases k,
{
    if k == 0 {
        s
    } else {
        xorshift(rng_after(s, (k - 1) as nat))
    }
}

/// The `k`-th key the generator hands out, counting from 0.
pub open spec fn zobrist_key(k: nat) -> u64 {
    rng_after(ZOBRIST_SEED, k + 1)
}

/// Where each table's keys start in the generator's output.
pub open spec fn black_pos_base() -> nat {
    81
}

pub open spec fn white_walls_base() -> nat {
    162
}

pub open spec fn black_walls_base() -> nat {
    173
}

pub open spec fn wall_above_base() -> nat {
    184
}

pub open spec fn wall_right_base() -> nat {
    312
}

pub open spec fn corner_base() -> nat {
    440
}

pub open spec fn black_turn_key() -> u64 {
    zobrist_key(504)
}

/// The keys of a table: `n` keys handed out from `base` on.
pub open spec fn keys_from(base: nat, n: nat) -> Seq<u64> {
    Seq::new(n, |i: int| zobrist_key(base + i as nat))
}

/// The key tables, filled in this order from one generator.
pub struct ZobristTables {
    pub white_pos: Vec<u64>,
    pub black_pos: Vec<u64>,
    pub white_walls_rem: Vec<u64>,
    pub black_walls_rem: Vec<u64>,
    pub wall_above_bit: Vec<u64>,
    pub wall_right_bit: Vec<u64>,
    pub corner_bit: Vec<u64>,
    pub black_turn: u64,
}

impl ZobristTables {
    /// The tables hold the keys in the generator's order: 81 white cells,
    /// 81 black cells, 11 white counts, 11 black counts, 128 `walls_above`
    /// bits, 128 `walls_right` bits, 64 corners, then the black-to-move key.
    pub open spec fn is_standard(self) -> bool {
        &&& self.white_pos@ == keys_from(0, 81)
        &&& self.black_pos@ == keys_from(black_pos_base(), 81)
        &&& self.white_walls_rem@ == keys_from(white_walls_base(), 11)
        &&& self.black_walls_rem@ == keys_from(black_walls_base(), 11)
        &&& self.wall_above_bit@ == keys_from(wall_above_base(), 128)
        &&& self.wall_right_bit@ == keys_from(wall_right_base(), 128)
        &&& self.corner_bit@ == keys_from(corner_base(), 64)
        &&& self.black_turn == black_turn_key()
    }
}

/// One step of the generator; returns the new state.
fn next_key(s: &mut u64) -> (r: u64)
    ensures
        r == xorshift(*old(s)),
        *final(s) == r,
{
    let mut x = *s;
    x ^= x << 13u64;
    x ^= x >> 7u64;
    x ^= x << 17u64;
    *s = x;
    x
}

/// Draws the next `n` keys.
fn draw_keys(s: &mut u64, n: usize, Ghost(start): Ghost<nat>) -> (v: Vec<u64>)
    requires
        *old(s) == rng_after(ZOBRIST_SEED, start),
    ensures
        v@ == keys_from(start, n as nat),
        *final(s) == rng_after(ZOBRIST_SEED, start + n as nat),
{
    let mut v: Vec<u64> = Vec::new();
    let mut k: usize = 0;
    while k < n
        invariant
            k <= n,
            *s == rng_after(ZOBRIST_SEED, start + k as nat),
            v@ == keys_from(start, k as nat),
        decreases n - k,
    {
        let key = next_key(s);
        v.push(key);
        k = k + 1;
        assert(v@ =~= keys_from(start, k as nat));
    }
    v
}

/// The key tables (see [`ZobristTables::is_standard`]).
pub fn get_zobrist() -> (z: ZobristTables)
    ensures
        z.is_standard(),
{
    let mut s: u64 = ZOBRIST_SEED;
    let white_pos = draw_keys(&mut s, 81, Ghost(0));
    let black_pos = draw_keys(&mut s, 81, Ghost(black_pos_base()));
    let white_walls_rem = draw_keys(&mut s, 11, Ghost(white_walls_base()));
    let black_walls_rem = draw_keys(&mut s, 11, Ghost(black_walls_base()));
    let wall_above_bit = draw_keys(&mut s, 128, Ghost(wall_above_base()));
    let wall_right_bit = draw_keys(&mut s, 128, Ghost(wall_right_base()));
    let corner_bit = draw_keys(&mut s, 64, Ghost(corner_base()));
    let black_turn = next_key(&mut s);
    ZobristTables {
        white_pos,
        black_pos,
        white_walls_rem,
        black_walls_rem,
        wall_above_bit,
        wall_right_bit,
        corner_bit,
        black_turn,
    }
}

/// Bit `i` of a 64-bit `x` is set.
pub open spec fn has_bit64(x: u64, i: int) -> bool {
    0 <= i < 64 && (x >> (i as u64)) & 1u64 == 1u64
}

/// The `^` of the keys `base + i` over the set bits `i < n` of `x`.
pub open spec fn bits_key_xor(base: nat, x: u128, n: nat) -> u64
    decreases n,
{
    if n == 0 {
        0
    } else {
        let prev = bits_key_xor(base, x, (n - 1) as nat);
        if has_bit(x, n - 1) {
            prev ^ zobrist_key(base + (n - 1) as nat)
        } else {
            prev
        }
    }
}

/// The same over a 64-bit `x`.
pub open spec fn bits_key_xor64(base: nat, x: u64, n: nat) -> u64
    decreases n,
{
    if n == 0 {
        0
    } else {
        let prev = bits_key_xor64(base, x, (n - 1) as nat);
        if has_bit64(x, n - 1) {
            prev ^ zobrist_key(base + (n - 1) as nat)
        } else {
            prev
        }
    }
}

impl Board {
    /// The Zobrist hash of this position with the given side to move: the
    /// `^` of the keys of the pawn cells and the counts of walls left, the
    /// black-to-move key when black moves, and the keys of the set bits of
    /// `walls_above`, `walls_right` and `corners`.
    pub open spec fn zobrist(self, white: bool) -> u64 {
        let h = zobrist_key(self.white.position_idx as nat) ^ zobrist_key(
            black_pos_base() + self.black.position_idx as nat,
        ) ^ zobrist_key(white_walls_base() + self.white.walls_remaining as nat) ^ zobrist_key(
            black_walls_base() + self.black.walls_remaining as nat,
        );
        let h = if white {
            h
        } else {
            h ^ black_turn_key()
        };
        ((h ^ bits_key_xor(wall_above_base(), self.walls.walls_above, 128)) ^ bits_key_xor(
            wall_right_base(),
            self.walls.walls_right,
            128,
        )) ^ bits_key_xor64(corner_base(), self.walls.corners, 64)
    }
}

proof fn lemma_xor_laws(a: u64, b: u64, c: u64)
    ensures
        a ^ b == b ^ a,
        (a ^ b) ^ c == a ^ (b ^ c),
        (a ^ b) ^ c == (a ^ c) ^ b,
        a ^ 0 == a,
{
    assert(a ^ b == b ^ a && (a ^ b) ^ c == a ^ (b ^ c) && (a ^ b) ^ c == (a ^ c) ^ b && a ^ 0
        == a) by (bit_vector);
}

/// The hash of a position with black to move is its hash with white to
/// move, `^` the black-to-move key.
pub proof fn law_side_to_move_key(b: Board)
    ensures
        b.zobrist(false) == b.zobrist(true) ^ black_turn_key(),
{
    let h = zobrist_key(b.white.position_idx as nat) ^ zobrist_key(
        black_pos_base() + b.black.position_idx as nat,
    ) ^ zobrist_key(white_walls_base() + b.white.walls_remaining as nat) ^ zobrist_key(
        black_walls_base() + b.black.walls_remaining as nat,
    );
    let t = black_turn_key();
    let a = bits_key_xor(wall_above_base(), b.walls.walls_above, 128);
    let r = bits_key_xor(wall_right_base(), b.walls.walls_right, 128);
    let c = bits_key_xor64(corner_base(), b.walls.corners, 64);
    lemma_xor_laws(h, t, a);
    lemma_xor_laws(h ^ a, t, r);
    lemma_xor_laws((h ^ a) ^ r, t, c);
}

proof fn lemma_key_xor_zero(base: nat, n: nat)
    ensures
        bits_key_xor(base, 0, n) == 0,
        bits_key_xor64(base, 0, n) == 0,
    decreases n,
{
    if n > 0 {
        lemma_key_xor_zero(base, (n - 1) as nat);
        let k = (n - 1) as u128;
        let k64 = (n - 1) as u64;
        if n <= 128 {
            assert((0u128 >> k) & 1u128 == 0u128) by (bit_vector);
        }
        if n <= 64 {
            assert((0u64 >> k64) & 1u64 == 0u64) by (bit_vector);
        }
    }
}

/// Dropping bit `t` from `x` takes its key out of the `^`.
proof fn lemma_key_xor_drop(base: nat, x: u128, y: u128, t: int, n: nat)
    requires
        0 <= t < 128,
        has_bit(x, t),
        !has_bit(y, t),
        forall|i: int| i != t ==> has_bit(x, i) == has_bit(y, i),
    ensures
        bits_key_xor(base, x, n) == if n > t {
            bits_key_xor(base, y, n) ^ zobrist_key(base + t as nat)
        } else {
            bits_key_xor(base, y, n)
        },
    decreases n,
{
    if n > 0 {
        lemma_key_xor_drop(base, x, y, t, (n - 1) as nat);
        let i = n - 1;
        if i > t && has_bit(x, i) {
            lemma_xor_laws(
                bits_key_xor(base, y, (n - 1) as nat),
                zobrist_key(base + t as nat),
                zobrist_key(base + i as nat),
            );
        }
    }
}

/// The same for 64-bit values.
proof fn lemma_key_xor_drop64(base: nat, x: u64, y: u64, t: int, n: nat)
    requires
        0 <= t < 64,
        has_bit64(x, t),
        !has_bit64(y, t),
        forall|i: int| i != t ==> has_bit64(x, i) == has_bit64(y, i),
    ensures
        bits_key_xor64(base, x, n) == if n > t {
            bits_key_xor64(base, y, n) ^ zobrist_key(base + t as nat)
        } else {
            bits_key_xor64(base, y, n)
        },
    decreases n,
{
    if n > 0 {
        lemma_key_xor_drop64(base, x, y, t, (n - 1) as nat);
        let i = n - 1;
        if i > t && has_bit64(x, i) {
            lemma_xor_laws(
                bits_key_xor64(base, y, (n - 1) as nat),
                zobrist_key(base + t as nat),
                zobrist_key(base + i as nat),
            );
        }
    }
}

/// `x & (x - 1)` clears the lowest set bit `t` of `x`, and is smaller.
proof fn lemma_clear_lowest(x: u128, t: u32)
    requires
        t < 128,
        has_bit(x, t as int),
        forall|j: int| 0 <= j < t ==> !has_bit(x, j),
    ensures
        forall|i: int| has_bit(x & ((x - 1) as u128), i) == (has_bit(x, i) && i != t),
        x & ((x - 1) as u128) < x,
{
    let tt = t as u128;
    assert forall|i: u128| i < tt implies (x >> i) & 1u128 == 0u128 by {
        assert(!has_bit(x, i as int));
        assert((x >> i) & 1u128 != 1u128 ==> (x >> i) & 1u128 == 0u128) by (bit_vector);
    }
    lemma_low_zero(x, tt);
    assert forall|i: int| has_bit(x & ((x - 1) as u128), i) == (has_bit(x, i) && i != t) by {
        if 0 <= i < 128 {
            let ii = i as u128;
            assert((((x & ((x - 1) as u128)) >> ii) & 1u128 == 1u128) == ((x >> ii) & 1u128 == 1u128
                && ii != tt)) by (bit_vector)
                requires
                    x & (((1u128 << tt) - 1) as u128) == 0,
                    (x >> tt) & 1u128 == 1u128,
                    tt < 128,
                    ii < 128,
            ;
        }
    }
    assert(x & ((x - 1) as u128) < x) by (bit_vector)
        requires
            (x >> tt) & 1u128 == 1u128,
            tt < 128,
    ;
}

/// The same for 64-bit values, from what vstd says of `u64::trailing_zeros`.
proof fn lemma_clear_lowest64(x: u64)
    requires
        x != 0,
    ensures
        ({
            let t = u64_trailing_zeros(x) as int;
            &&& 0 <= t < 64
            &&& has_bit64(x, t)
            &&& forall|i: int| has_bit64(x & ((x - 1) as u64), i) == (has_bit64(x, i) && i != t)
            &&& x & ((x - 1) as u64) < x
        }),
{
    axiom_u64_trailing_zeros(x);
    let tt = u64_trailing_zeros(x) as u64;
    assert forall|i: int| has_bit64(x & ((x - 1) as u64), i) == (has_bit64(x, i) && i != tt) by {
        if 0 <= i < 64 {
            let ii = i as u64;
            assert((((x & ((x - 1) as u64)) >> ii) & 1u64 == 1u64) == ((x >> ii) & 1u64 == 1u64 && ii
                != tt)) by (bit_vector)
                requires
                    x << ((64 - tt) as u64) == 0,
                    (x >> tt) & 1u64 == 1u64,
                    tt < 64,
                    ii < 64,
            ;
        }
    }
    assert(x & ((x - 1) as u64) < x) by (bit_vector)
        requires
            (x >> tt) & 1u64 == 1u64,
            tt < 64,
    ;
}

/// The number of zero bits below the lowest set bit of `x`, and 128 for
/// zero.
fn trailing_zeros_u128(x: u128) -> (r: u32)
    ensures
        r <= 128,
        (r == 128) == (x == 0),
        r < 128 ==> has_bit(x, r as int),
        forall|j: int| 0 <= j < r ==> !has_bit(x, j),
{
    if x == 0 {
        assert forall|j: int| 0 <= j < 128 implies !has_bit(x, j) by {
            let k = j as u128;
            assert((0u128 >> k) & 1u128 == 0u128) by (bit_vector);
        }
        return 128;
    }
    assert(x >> 0u128 == x) by (bit_vector);
    let mut i: u32 = 0;
    while (x >> (i as u128)) & 1u128 == 0
        invariant
            i < 128,
            x >> (i as u128) != 0,
            forall|j: int| 0 <= j < i ==> !has_bit(x, j),
        decreases 128 - i,
    {
        let ghost k = i as u128;
        assert((x >> k) != 0 && (x >> k) & 1u128 == 0 && k < 128 ==> (x >> ((k + 1) as u128)) != 0
            && k + 1 < 128) by (bit_vector);
        i = i + 1;
    }
    let ghost k = i as u128;
    assert((x >> k) & 1u128 != 0 ==> (x >> k) & 1u128 == 1u128) by (bit_vector);
    i
}

impl Board {
    /// The Zobrist hash of this position (see [`Board::zobrist`]), with the
    /// key tables at hand. The counts of walls left index tables of eleven
    /// keys, so they are at most ten.
    pub fn zobrist_hash_with(&self, z: &ZobristTables, is_white: bool) -> (h: u64)
        requires
            z.is_standard(),
            self.wf(),
            self.white.walls_remaining <= 10,
            self.black.walls_remaining <= 10,
        ensures
            h == self.zobrist(is_white),
    {
        let mut h = z.white_pos[self.white.position_idx as usize];
        h ^= z.black_pos[self.black.position_idx as usize];
        h ^= z.white_walls_rem[self.white.walls_remaining as usize];
        h ^= z.black_walls_rem[self.black.walls_remaining as usize];
        if !is_white {
            h ^= z.black_turn;
        }
        let ghost h1 = h;
        let mut wa = self.walls.walls_above;
        while wa != 0
            invariant
                z.is_standard(),
                h ^ bits_key_xor(wall_above_base(), wa, 128) == h1 ^ bits_key_xor(
                    wall_above_base(),
                    self.walls.walls_above,
                    128,
                ),
            decreases wa,
        {
            let t = trailing_zeros_u128(wa);
            let ghost rest = (wa & ((wa - 1) as u128));
            proof {
                lemma_clear_lowest(wa, t);
                lemma_key_xor_drop(wall_above_base(), wa, rest, t as int, 128);
                lemma_xor_laws(h, z.wall_above_bit@[t as int], bits_key_xor(wall_above_base(), rest, 128));
                lemma_xor_laws(z.wall_above_bit@[t as int], bits_key_xor(wall_above_base(), rest, 128), 0);
            }
            h ^= z.wall_above_bit[t as usize];
            wa &= wa - 1;
        }
        proof {
            lemma_key_xor_zero(wall_above_base(), 128);
            lemma_xor_laws(h, 0, 0);
        }
        let ghost h2 = h;
        let mut wr = self.walls.walls_right;
        while wr != 0
            invariant
                z.is_standard(),
                h ^ bits_key_xor(wall_right_base(), wr, 128) == h2 ^ bits_key_xor(
                    wall_right_base(),
                    self.walls.walls_right,
                    128,
                ),
            decreases wr,
        {
            let t = trailing_zeros_u128(wr);
            let ghost rest = (wr & ((wr - 1) as u128));
            proof {
                lemma_clear_lowest(wr, t);
                lemma_key_xor_drop(wall_right_base(), wr, rest, t as int, 128);
                lemma_xor_laws(h, z.wall_right_bit@[t as int], bits_key_xor(wall_right_base(), rest, 128));
                lemma_xor_laws(z.wall_right_bit@[t as int], bits_key_xor(wall_right_base(), rest, 128), 0);
            }
            h ^= z.wall_right_bit[t as usize];
            wr &= wr - 1;
        }
        proof {
            lemma_key_xor_zero(wall_right_base(), 128);
            lemma_xor_laws(h, 0, 0);
        }
        let ghost h3 = h;
        let mut c = self.walls.corners;
        while c != 0
            invariant
                z.is_standard(),
                h ^ bits_key_xor64(corner_base(), c, 64) == h3 ^ bits_key_xor64(
                    corner_base(),
                    self.walls.corners,
                    64,
                ),
            decreases c,
        {
            let t = c.trailing_zeros();
            let ghost rest = (c & ((c - 1) as u64));
            proof {
                lemma_clear_lowest64(c);
                lemma_key_xor_drop64(corner_base(), c, rest, t as int, 64);
                lemma_xor_laws(h, z.corner_bit@[t as int], bits_key_xor64(corner_base(), rest, 64));
                lemma_xor_laws(z.corner_bit@[t as int], bits_key_xor64(corner_base(), rest, 64), 0);
            }
            h ^= z.corner_bit[t as usize];
            c &= c - 1;
        }
        proof {
            lemma_key_xor_zero(corner_base(), 64);
            lemma_xor_laws(h, 0, 0);
        }
        h
    }

    /// The Zobrist hash of this position (see [`Board::zobrist`]).
    pub fn zobrist_hash(&self, is_white: bool) -> (h: u64)
        requires
            self.wf(),
            self.white.walls_remaining <= 10,
            self.black.walls_remaining <= 10,
        ensures
            h == self.zobrist(is_white),
    {
        let z = get_zobrist();
        self.zobrist_hash_with(&z, is_white)
    }
}

} // verus!
