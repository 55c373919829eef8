//! Grid coordinates and their packing into hash-set keys.
use vstd::prelude::*;

verus! {

/// One cell of the grid, as an `(x, y)` pair. Carries no bounds of its own.
#[derive(Clone, Copy, Debug, PartialEq, Eq, Hash, Default, Structural)]
pub struct Pos(pub i32, pub i32);

/// Whether a cell is alive or dead.
#[derive(Clone, Copy, Debug, PartialEq, Eq, Structural)]
pub enum ConwayCell {
    Alive,
    Dead,
}

/// Offset that moves an `i32` coordinate into `[0, 2^32)`.
pub const COORD_BIAS: i64 = 2147483648;

/// Span of one biased coordinate.
pub const KEY_RADIX: u64 = 4294967296;

/// The key that stands for `p` in a set of cells: the two biased coordinates
/// side by side, `x` in the high half and `y` in the low half.
pub open spec fn key_of(p: Pos) -> int {
    (p.0 + COORD_BIAS) * KEY_RADIX + (p.1 + COORD_BIAS)
}

/// The position whose key is `k`.
pub open spec fn pos_of(k: u64) -> Pos {
    Pos((k / KEY_RADIX - COORD_BIAS) as i32, (k % KEY_RADIX - COORD_BIAS) as i32)
}

/// Every position has a key that fits in `u64`, and distinct positions have
/// distinct keys.
pub proof fn lemma_key_bounds(p: Pos)
    ensures
        0 <= key_of(p) <= u64::MAX,
        pos_of(key_of(p) as u64) == p,
{
    let a = p.0 + COORD_BIAS;
    let b = p.1 + COORD_BIAS;
    assert(0 <= a < KEY_RADIX && 0 <= b < KEY_RADIX);
    assert(0 <= a * KEY_RADIX <= (KEY_RADIX - 1) * KEY_RADIX) by (nonlinear_arith)
        requires 0 <= a < KEY_RADIX;
    let k = a * KEY_RADIX + b;
    vstd::arithmetic::div_mod::lemma_fundamental_div_mod_converse(k, KEY_RADIX as int, a, b);
}

/// Keys tell positions apart.
pub proof fn lemma_key_injective(p: Pos, q: Pos)
    ensures
        key_of(p) == key_of(q) <==> p == q,
{
    lemma_key_bounds(p);
    lemma_key_bounds(q);
}

/// Every `u64` is the key of exactly the position that it decodes to.
pub proof fn lemma_pos_of_key(k: u64)
    ensures
        key_of(pos_of(k)) == k,
{
    let a = k / KEY_RADIX;
    let b = k % KEY_RADIX;
    vstd::arithmetic::div_mod::lemma_fundamental_div_mod(k as int, KEY_RADIX as int);
    assert(a < KEY_RADIX) by {
        vstd::arithmetic::div_mod::lemma_div_is_ordered(k as int, u64::MAX as int, KEY_RADIX as int);
    }
}

/// Packs a position into its key.
pub fn cell_key(p: Pos) -> (k: u64)
    ensures
        k == key_of(p),
{
    proof {
        lemma_key_bounds(p);
    }
    let a: u64 = (p.0 as i64 + COORD_BIAS) as u64;
    let b: u64 = (p.1 as i64 + COORD_BIAS) as u64;
    assert(a * KEY_RADIX <= (KEY_RADIX - 1) * KEY_RADIX) by (nonlinear_arith)
        requires a < KEY_RADIX;
    a * KEY_RADIX + b
}

/// Unpacks a key into the position it stands for.
pub fn key_pos(k: u64) -> (p: Pos)
    ensures
        p == pos_of(k),
        key_of(p) == k,
{
    proof {
        lemma_pos_of_key(k);
    }
    let a: u64 = k / KEY_RADIX;
    let b: u64 = k % KEY_RADIX;
    proof {
        vstd::arithmetic::div_mod::lemma_div_is_ordered(k as int, u64::MAX as int, KEY_RADIX as int);
    }
    Pos((a as i64 - COORD_BIAS) as i32, (b as i64 - COORD_BIAS) as i32)
}

} // verus!
