use vstd::prelude::*;

verus! {

/// The arithmetic a scalar type must provide to the protocol.
///
/// The operations are described by spec functions, and the additive group
/// laws that the protocol's algebra rests on are stated as proof obligations
/// of every implementation.
pub trait Field: Sized + Copy {
    spec fn spec_zero() -> Self;

    spec fn spec_one() -> Self;

    spec fn spec_add(a: Self, b: Self) -> Self;

    spec fn spec_sub(a: Self, b: Self) -> Self;

    spec fn spec_mul(a: Self, b: Self) -> Self;

    fn zero() -> (r: Self)
        ensures
            r == Self::spec_zero(),
    ;

    fn one() -> (r: Self)
        ensures
            r == Self::spec_one(),
    ;

    fn add(self, rhs: Self) -> (r: Self)
        ensures
            r == Self::spec_add(self, rhs),
    ;

    fn sub(self, rhs: Self) -> (r: Self)
        ensures
            r == Self::spec_sub(self, rhs),
    ;

    fn mul(self, rhs: Self) -> (r: Self)
        ensures
            r == Self::spec_mul(self, rhs),
    ;

    proof fn lemma_add_comm(a: Self, b: Self)
        ensures
            Self::spec_add(a, b) == Self::spec_add(b, a),
    ;

    proof fn lemma_add_assoc(a: Self, b: Self, c: Self)
        ensures
            Self::spec_add(Self::spec_add(a, b), c) == Self::spec_add(a, Self::spec_add(b, c)),
    ;

    proof fn lemma_add_zero(a: Self)
        ensures
            Self::spec_add(a, Self::spec_zero()) == a,
    ;

    proof fn lemma_sub_add_cancel(a: Self, b: Self)
        ensures
            Self::spec_add(Self::spec_sub(a, b), b) == a,
    ;

    proof fn lemma_add_sub_cancel(a: Self, b: Self)
        ensures
            Self::spec_sub(Self::spec_add(a, b), a) == b,
    ;

    proof fn lemma_mul_distrib_left(a: Self, b: Self, c: Self)
        ensures
            Self::spec_mul(Self::spec_add(a, b), c) == Self::spec_add(Self::spec_mul(a, c), Self::spec_mul(b, c)),
    ;

    proof fn lemma_mul_distrib_right(a: Self, b: Self, c: Self)
        ensures
            Self::spec_mul(a, Self::spec_add(b, c)) == Self::spec_add(Self::spec_mul(a, b), Self::spec_mul(a, c)),
    ;
}

/// An element of the two-element field GF(2): addition is exclusive or,
/// multiplication is conjunction.
#[derive(Clone, Copy, Debug, PartialEq, Eq, Structural)]
pub struct BinaryField1b {
    pub bit: bool,
}

impl BinaryField1b {
    pub fn new(bit: bool) -> (r: Self)
        ensures
            r.bit == bit,
    {
        BinaryField1b { bit }
    }
}

impl Field for BinaryField1b {
    open spec fn spec_zero() -> Self {
        BinaryField1b { bit: false }
    }

    open spec fn spec_one() -> Self {
        BinaryField1b { bit: true }
    }

    open spec fn spec_add(a: Self, b: Self) -> Self {
        BinaryField1b { bit: a.bit != b.bit }
    }

    open spec fn spec_sub(a: Self, b: Self) -> Self {
        BinaryField1b { bit: a.bit != b.bit }
    }

    open spec fn spec_mul(a: Self, b: Self) -> Self {
        BinaryField1b { bit: a.bit && b.bit }
    }

    fn zero() -> (r: Self) {
        BinaryField1b { bit: false }
    }

    fn one() -> (r: Self) {
        BinaryField1b { bit: true }
    }

    fn add(self, rhs: Self) -> (r: Self) {
        BinaryField1b { bit: self.bit != rhs.bit }
    }

    fn sub(self, rhs: Self) -> (r: Self) {
        BinaryField1b { bit: self.bit != rhs.bit }
    }

    fn mul(self, rhs: Self) -> (r: Self) {
        BinaryField1b { bit: self.bit && rhs.bit }
    }

    proof fn lemma_add_comm(a: Self, b: Self) {
    }

    proof fn lemma_add_assoc(a: Self, b: Self, c: Self) {
    }

    proof fn lemma_add_zero(a: Self) {
    }

    proof fn lemma_sub_add_cancel(a: Self, b: Self) {
    }

    proof fn lemma_add_sub_cancel(a: Self, b: Self) {
    }

    proof fn lemma_mul_distrib_left(a: Self, b: Self, c: Self) {
    }

    proof fn lemma_mul_distrib_right(a: Self, b: Self, c: Self) {
    }
}

/// Bits in each half of an element of tower level `level`.
pub open spec fn half_bits(level: u32) -> u32 {
    if level == 1 {
        1
    } else if level == 2 {
        2
    } else if level == 3 {
        4
    } else if level == 4 {
        8
    } else {
        16
    }
}

/// The mask of the low half of an element of tower level `level`.
pub open spec fn half_mask(level: u32) -> u32 {
    if level == 1 {
        1
    } else if level == 2 {
        3
    } else if level == 3 {
        0xf
    } else if level == 4 {
        0xff
    } else {
        0xffff
    }
}

/// The generator `X_{level-2}` of the subfield of tower level `level - 1`,
/// with which `X_{level-1}^2 = X_{level-1} * X_{level-2} + 1`.
pub open spec fn tower_alpha(level: u32) -> u32 {
    if level == 1 {
        1
    } else if level == 2 {
        2
    } else if level == 3 {
        4
    } else if level == 4 {
        0x10
    } else {
        0x100
    }
}

/// Product in the canonical binary tower field with `2^level` bits, by
/// Karatsuba over the quadratic extension of the level below.
pub open spec fn tower_mul(a: u32, b: u32, level: u32) -> u32
    decreases level,
{
    if level == 0 || level > 5 {
        a & b & 1
    } else {
        let half = half_bits(level);
        let mask = half_mask(level);
        let a0 = a & mask;
        let a1 = (a >> half) & mask;
        let b0 = b & mask;
        let b1 = (b >> half) & mask;
        let z0 = tower_mul(a0, b0, (level - 1) as u32);
        let z2 = tower_mul(a1, b1, (level - 1) as u32);
        let z1 = tower_mul(a0 ^ a1, b0 ^ b1, (level - 1) as u32) ^ z0 ^ z2;
        let hi = z1 ^ tower_mul(z2, tower_alpha(level), (level - 1) as u32);
        (hi << half) | (z0 ^ z2)
    }
}

/// Largest value of an element of tower level `level` (all of its bits set).
pub open spec fn level_max(level: u32) -> u32 {
    if level == 0 {
        1
    } else if level == 1 {
        3
    } else if level == 2 {
        0xf
    } else if level == 3 {
        0xff
    } else if level == 4 {
        0xffff
    } else {
        0xffff_ffff
    }
}

/// A product at tower level `level` fits in that level's bits.
proof fn lemma_tower_mul_bound(a: u32, b: u32, level: u32)
    requires
        level <= 5,
    ensures
        tower_mul(a, b, level) <= level_max(level),
    decreases level,
{
    if level == 0 {
        assert(a & b & 1 <= 1) by (bit_vector);
    } else {
        let half = half_bits(level);
        let mask = half_mask(level);
        let a0 = a & mask;
        let a1 = (a >> half) & mask;
        let b0 = b & mask;
        let b1 = (b >> half) & mask;
        let l = (level - 1) as u32;
        let z0 = tower_mul(a0, b0, l);
        let z2 = tower_mul(a1, b1, l);
        let p = tower_mul(a0 ^ a1, b0 ^ b1, l);
        let q = tower_mul(z2, tower_alpha(level), l);
        lemma_tower_mul_bound(a0, b0, l);
        lemma_tower_mul_bound(a1, b1, l);
        lemma_tower_mul_bound(a0 ^ a1, b0 ^ b1, l);
        lemma_tower_mul_bound(z2, tower_alpha(level), l);
        let m = level_max(l);
        assert(m == mask);
        let hi = p ^ z0 ^ z2 ^ q;
        let lo = z0 ^ z2;
        if level == 1 {
            assert(p <= 1 && z0 <= 1 && z2 <= 1 && q <= 1 ==> ((p ^ z0 ^ z2 ^ q) << 1u32) | (z0 ^ z2) <= 3)
                by (bit_vector);
        } else if level == 2 {
            assert(p <= 3 && z0 <= 3 && z2 <= 3 && q <= 3 ==> ((p ^ z0 ^ z2 ^ q) << 2u32) | (z0 ^ z2) <= 0xf)
                by (bit_vector);
        } else if level == 3 {
            assert(p <= 0xf && z0 <= 0xf && z2 <= 0xf && q <= 0xf ==> ((p ^ z0 ^ z2 ^ q) << 4u32) | (z0 ^ z2)
                <= 0xff) by (bit_vector);
        } else if level == 4 {
            assert(p <= 0xff && z0 <= 0xff && z2 <= 0xff && q <= 0xff ==> ((p ^ z0 ^ z2 ^ q) << 8u32) | (z0
                ^ z2) <= 0xffff) by (bit_vector);
        } else {
            assert(((p ^ z0 ^ z2 ^ q) << 16u32) | (z0 ^ z2) <= 0xffff_ffff) by (bit_vector);
        }
    }
}

/// Gluing halves: when both low halves fit below bit `half`, gluing the
/// exclusive or of two pairs is the exclusive or of the glued pairs.
proof fn lemma_glue_xor(h1: u32, l1: u32, h2: u32, l2: u32, level: u32)
    requires
        1 <= level <= 5,
        l1 <= half_mask(level),
        l2 <= half_mask(level),
    ensures
        ((h1 ^ h2) << half_bits(level)) | (l1 ^ l2) == ((h1 << half_bits(level)) | l1) ^ ((h2 << half_bits(
            level,
        )) | l2),
{
    let h = half_bits(level);
    let m = half_mask(level);
    assert(h < 32 && (m == ((1u32 << h) - 1) as u32)) by {
        if level == 1 {
            assert(1u32 == ((1u32 << 1u32) - 1) as u32) by (bit_vector);
        } else if level == 2 {
            assert(3u32 == ((1u32 << 2u32) - 1) as u32) by (bit_vector);
        } else if level == 3 {
            assert(0xfu32 == ((1u32 << 4u32) - 1) as u32) by (bit_vector);
        } else if level == 4 {
            assert(0xffu32 == ((1u32 << 8u32) - 1) as u32) by (bit_vector);
        } else {
            assert(0xffffu32 == ((1u32 << 16u32) - 1) as u32) by (bit_vector);
        }
    }
    assert(h < 32 && m == ((1u32 << h) - 1) as u32 && l1 <= m && l2 <= m ==> ((h1 ^ h2) << h) | (l1 ^ l2) == ((h1
        << h) | l1) ^ ((h2 << h) | l2)) by (bit_vector);
}

proof fn lemma_xor_within_half(x: u32, y: u32, level: u32)
    requires
        1 <= level <= 5,
        x <= half_mask(level),
        y <= half_mask(level),
    ensures
        x ^ y <= half_mask(level),
{
    if level == 1 {
        assert(x <= 1 && y <= 1 ==> x ^ y <= 1) by (bit_vector);
    } else if level == 2 {
        assert(x <= 3 && y <= 3 ==> x ^ y <= 3) by (bit_vector);
    } else if level == 3 {
        assert(x <= 0xf && y <= 0xf ==> x ^ y <= 0xf) by (bit_vector);
    } else if level == 4 {
        assert(x <= 0xff && y <= 0xff ==> x ^ y <= 0xff) by (bit_vector);
    } else {
        assert(x <= 0xffff && y <= 0xffff ==> x ^ y <= 0xffff) by (bit_vector);
    }
}

/// Multiplication distributes over addition in its first argument.
proof fn lemma_tower_mul_distrib_left(b: u32, c: u32, a: u32, level: u32)
    requires
        level <= 5,
    ensures
        tower_mul(b ^ c, a, level) == tower_mul(b, a, level) ^ tower_mul(c, a, level),
    decreases level,
{
    if level == 0 {
        assert((b ^ c) & a & 1 == (b & a & 1) ^ (c & a & 1)) by (bit_vector);
    } else {
        let half = half_bits(level);
        let mask = half_mask(level);
        let l = (level - 1) as u32;
        let alpha = tower_alpha(level);
        let (a0, a1) = (a & mask, (a >> half) & mask);
        let (b0, b1) = (b & mask, (b >> half) & mask);
        let (c0, c1) = (c & mask, (c >> half) & mask);
        let d = b ^ c;
        let (d0, d1) = (d & mask, (d >> half) & mask);
        assert(d0 == b0 ^ c0 && d1 == b1 ^ c1) by (bit_vector)
            requires
                d == b ^ c,
                d0 == d & mask,
                d1 == (d >> half) & mask,
                b0 == b & mask,
                b1 == (b >> half) & mask,
                c0 == c & mask,
                c1 == (c >> half) & mask,
        ;
        lemma_tower_mul_distrib_left(b0, c0, a0, l);
        lemma_tower_mul_distrib_left(b1, c1, a1, l);
        assert((b0 ^ c0) ^ (b1 ^ c1) == (b0 ^ b1) ^ (c0 ^ c1)) by (bit_vector);
        lemma_tower_mul_distrib_left(b0 ^ b1, c0 ^ c1, a0 ^ a1, l);
        let z0b = tower_mul(b0, a0, l);
        let z0c = tower_mul(c0, a0, l);
        let z2b = tower_mul(b1, a1, l);
        let z2c = tower_mul(c1, a1, l);
        let pb = tower_mul(b0 ^ b1, a0 ^ a1, l);
        let pc = tower_mul(c0 ^ c1, a0 ^ a1, l);
        lemma_tower_mul_distrib_left(z2b, z2c, alpha, l);
        let qb = tower_mul(z2b, alpha, l);
        let qc = tower_mul(z2c, alpha, l);
        lemma_tower_mul_bound(b0, a0, l);
        lemma_tower_mul_bound(c0, a0, l);
        lemma_tower_mul_bound(b1, a1, l);
        lemma_tower_mul_bound(c1, a1, l);
        assert(level_max(l) == mask);
        lemma_xor_within_half(z0b, z2b, level);
        lemma_xor_within_half(z0c, z2c, level);
        lemma_glue_xor(pb ^ z0b ^ z2b ^ qb, z0b ^ z2b, pc ^ z0c ^ z2c ^ qc, z0c ^ z2c, level);
        assert((pb ^ pc) ^ (z0b ^ z0c) ^ (z2b ^ z2c) ^ (qb ^ qc) == (pb ^ z0b ^ z2b ^ qb) ^ (pc ^ z0c ^ z2c
            ^ qc) && (z0b ^ z0c) ^ (z2b ^ z2c) == (z0b ^ z2b) ^ (z0c ^ z2c)) by (bit_vector);
    }
}

/// Multiplication distributes over addition in its second argument.
proof fn lemma_tower_mul_distrib_right(a: u32, b: u32, c: u32, level: u32)
    requires
        level <= 5,
    ensures
        tower_mul(a, b ^ c, level) == tower_mul(a, b, level) ^ tower_mul(a, c, level),
    decreases level,
{
    if level == 0 {
        assert(a & (b ^ c) & 1 == (a & b & 1) ^ (a & c & 1)) by (bit_vector);
    } else {
        let half = half_bits(level);
        let mask = half_mask(level);
        let l = (level - 1) as u32;
        let alpha = tower_alpha(level);
        let (a0, a1) = (a & mask, (a >> half) & mask);
        let (b0, b1) = (b & mask, (b >> half) & mask);
        let (c0, c1) = (c & mask, (c >> half) & mask);
        let d = b ^ c;
        let (d0, d1) = (d & mask, (d >> half) & mask);
        assert(d0 == b0 ^ c0 && d1 == b1 ^ c1) by (bit_vector)
            requires
                d == b ^ c,
                d0 == d & mask,
                d1 == (d >> half) & mask,
                b0 == b & mask,
                b1 == (b >> half) & mask,
                c0 == c & mask,
                c1 == (c >> half) & mask,
        ;
        lemma_tower_mul_distrib_right(a0, b0, c0, l);
        lemma_tower_mul_distrib_right(a1, b1, c1, l);
        assert((b0 ^ c0) ^ (b1 ^ c1) == (b0 ^ b1) ^ (c0 ^ c1)) by (bit_vector);
        lemma_tower_mul_distrib_right(a0 ^ a1, b0 ^ b1, c0 ^ c1, l);
        let z0b = tower_mul(a0, b0, l);
        let z0c = tower_mul(a0, c0, l);
        let z2b = tower_mul(a1, b1, l);
        let z2c = tower_mul(a1, c1, l);
        let pb = tower_mul(a0 ^ a1, b0 ^ b1, l);
        let pc = tower_mul(a0 ^ a1, c0 ^ c1, l);
        lemma_tower_mul_distrib_left(z2b, z2c, alpha, l);
        let qb = tower_mul(z2b, alpha, l);
        let qc = tower_mul(z2c, alpha, l);
        lemma_tower_mul_bound(a0, b0, l);
        lemma_tower_mul_bound(a0, c0, l);
        lemma_tower_mul_bound(a1, b1, l);
        lemma_tower_mul_bound(a1, c1, l);
        assert(level_max(l) == mask);
        lemma_xor_within_half(z0b, z2b, level);
        lemma_xor_within_half(z0c, z2c, level);
        lemma_glue_xor(pb ^ z0b ^ z2b ^ qb, z0b ^ z2b, pc ^ z0c ^ z2c ^ qc, z0c ^ z2c, level);
        assert((pb ^ pc) ^ (z0b ^ z0c) ^ (z2b ^ z2c) ^ (qb ^ qc) == (pb ^ z0b ^ z2b ^ qb) ^ (pc ^ z0c ^ z2c
            ^ qc) && (z0b ^ z0c) ^ (z2b ^ z2c) == (z0b ^ z2b) ^ (z0c ^ z2c)) by (bit_vector);
    }
}

fn tower_mul_exec(a: u32, b: u32, level: u32) -> (r: u32)
    requires
        level <= 5,
    ensures
        r == tower_mul(a, b, level),
    decreases level,
{
    if level == 0 {
        a & b & 1
    } else {
        let half: u32 = if level == 1 {
            1
        } else if level == 2 {
            2
        } else if level == 3 {
            4
        } else if level == 4 {
            8
        } else {
            16
        };
        let mask: u32 = if level == 1 {
            1
        } else if level == 2 {
            3
        } else if level == 3 {
            0xf
        } else if level == 4 {
            0xff
        } else {
            0xffff
        };
        let alpha: u32 = if level == 1 {
            1
        } else if level == 2 {
            2
        } else if level == 3 {
            4
        } else if level == 4 {
            0x10
        } else {
            0x100
        };
        let a0 = a & mask;
        let a1 = (a >> half) & mask;
        let b0 = b & mask;
        let b1 = (b >> half) & mask;
        let z0 = tower_mul_exec(a0, b0, level - 1);
        let z2 = tower_mul_exec(a1, b1, level - 1);
        let z1 = tower_mul_exec(a0 ^ a1, b0 ^ b1, level - 1) ^ z0 ^ z2;
        let hi = z1 ^ tower_mul_exec(z2, alpha, level - 1);
        (hi << half) | (z0 ^ z2)
    }
}

/// An element of the 32-bit binary tower field: addition is exclusive or of
/// the bit patterns, multiplication is [`tower_mul`] at level 5.
#[derive(Clone, Copy, Debug, PartialEq, Eq, Structural)]
pub struct BinaryField32b {
    pub val: u32,
}

impl BinaryField32b {
    pub fn new(val: u32) -> (r: Self)
        ensures
            r.val == val,
    {
        BinaryField32b { val }
    }
}

impl Field for BinaryField32b {
    open spec fn spec_zero() -> Self {
        BinaryField32b { val: 0 }
    }

    open spec fn spec_one() -> Self {
        BinaryField32b { val: 1 }
    }

    open spec fn spec_add(a: Self, b: Self) -> Self {
        BinaryField32b { val: a.val ^ b.val }
    }

    open spec fn spec_sub(a: Self, b: Self) -> Self {
        BinaryField32b { val: a.val ^ b.val }
    }

    open spec fn spec_mul(a: Self, b: Self) -> Self {
        BinaryField32b { val: tower_mul(a.val, b.val, 5) }
    }

    fn zero() -> (r: Self) {
        BinaryField32b { val: 0 }
    }

    fn one() -> (r: Self) {
        BinaryField32b { val: 1 }
    }

    fn add(self, rhs: Self) -> (r: Self) {
        BinaryField32b { val: self.val ^ rhs.val }
    }

    fn sub(self, rhs: Self) -> (r: Self) {
        BinaryField32b { val: self.val ^ rhs.val }
    }

    fn mul(self, rhs: Self) -> (r: Self) {
        BinaryField32b { val: tower_mul_exec(self.val, rhs.val, 5) }
    }

    proof fn lemma_add_comm(a: Self, b: Self) {
        let (x, y) = (a.val, b.val);
        assert(x ^ y == y ^ x) by (bit_vector);
    }

    proof fn lemma_add_assoc(a: Self, b: Self, c: Self) {
        let (x, y, z) = (a.val, b.val, c.val);
        assert((x ^ y) ^ z == x ^ (y ^ z)) by (bit_vector);
    }

    proof fn lemma_add_zero(a: Self) {
        let x = a.val;
        assert(x ^ 0 == x) by (bit_vector);
    }

    proof fn lemma_sub_add_cancel(a: Self, b: Self) {
        let (x, y) = (a.val, b.val);
        assert((x ^ y) ^ y == x) by (bit_vector);
    }

    proof fn lemma_add_sub_cancel(a: Self, b: Self) {
        let (x, y) = (a.val, b.val);
        assert((x ^ y) ^ x == y) by (bit_vector);
    }

    proof fn lemma_mul_distrib_left(a: Self, b: Self, c: Self) {
        lemma_tower_mul_distrib_left(a.val, b.val, c.val, 5);
    }

    proof fn lemma_mul_distrib_right(a: Self, b: Self, c: Self) {
        lemma_tower_mul_distrib_right(a.val, b.val, c.val, 5);
    }
}

} // verus!
