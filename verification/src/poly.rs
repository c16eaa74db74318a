use vstd::prelude::*;
use vstd::arithmetic::div_mod::{
    lemma_add_mod_noop, lemma_mod_sub_multiples_vanish, lemma_mul_mod_noop_left, lemma_small_mod,
};

verus! {

/// `x^3 + a*x + b` reduced modulo 2^32: the value of the polynomial claim.
pub open spec fn poly_eval(x: u32, a: u32, b: u32) -> u32 {
    (((x as int) * (x as int) * (x as int) + (a as int) * (x as int) + (b as int))
        % 0x1_0000_0000) as u32
}

/// Polynomial claim kernel: public `x` and `a`, private witness `b`, public
/// result `y = x^3 + a*x + b` in wrapping 32-bit arithmetic at every step.
pub fn evaluate(x: u32, a: u32, b: u32) -> (y: u32)
    ensures
        y == poly_eval(x, a, b),
{
    let x2 = x.wrapping_mul(x);
    let x3 = x2.wrapping_mul(x);
    let ax = a.wrapping_mul(x);
    let y = x3.wrapping_add(ax).wrapping_add(b);
    proof {
        lemma_wrapping_chain(x, a, b, x2, x3, ax, y);
    }
    y
}

/// A value in `[0, 2m)` reduced once is its remainder modulo `m`.
proof fn lemma_mod_reduce_once(u: int, m: int)
    requires
        0 < m,
        0 <= u < 2 * m,
    ensures
        u % m == if u < m {
            u
        } else {
            u - m
        },
{
    if u < m {
        lemma_small_mod(u as nat, m as nat);
    } else {
        lemma_mod_sub_multiples_vanish(u, m);
        lemma_small_mod((u - m) as nat, m as nat);
    }
}

/// Reducing modulo 2^32 after each multiplication and addition gives the same
/// value as one reduction of the whole polynomial.
proof fn lemma_wrapping_chain(x: u32, a: u32, b: u32, x2: u32, x3: u32, ax: u32, y: u32)
    requires
        x2 == vstd::wrapping::u32_specs::wrapping_mul(x, x),
        x3 == vstd::wrapping::u32_specs::wrapping_mul(x2, x),
        ax == vstd::wrapping::u32_specs::wrapping_mul(a, x),
        y == vstd::wrapping::u32_specs::wrapping_add(
            vstd::wrapping::u32_specs::wrapping_add(x3, ax),
            b,
        ),
    ensures
        y == poly_eval(x, a, b),
{
    let m = 0x1_0000_0000int;
    let xi = x as int;
    let ai = a as int;
    let bi = b as int;
    assert(x2 as int == (xi * xi) % m);
    assert(x3 as int == ((xi * xi) % m * xi) % m);
    lemma_mul_mod_noop_left(xi * xi, xi, m);
    assert(x3 as int == (xi * xi * xi) % m);
    assert(ax as int == (ai * xi) % m);
    let s = vstd::wrapping::u32_specs::wrapping_add(x3, ax);
    lemma_mod_reduce_once(x3 as int + ax as int, m);
    assert(s as int == (x3 as int + ax as int) % m);
    lemma_add_mod_noop(xi * xi * xi, ai * xi, m);
    assert(s as int == (xi * xi * xi + ai * xi) % m);
    lemma_mod_reduce_once(s as int + bi, m);
    assert(y as int == (s as int + bi) % m);
    lemma_small_mod(bi as nat, m as nat);
    lemma_add_mod_noop(xi * xi * xi + ai * xi, bi, m);
    assert(y as int == (xi * xi * xi + ai * xi + bi) % m);
}

} // verus!
