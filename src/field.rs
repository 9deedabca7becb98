use vstd::arithmetic::div_mod::{
    lemma_add_mod_noop, lemma_mod_add_multiples_vanish, lemma_mul_mod_noop, lemma_small_mod,
    lemma_sub_mod_noop,
};
use vstd::prelude::*;

verus! {

/// The Goldilocks prime `2^64 - 2^32 + 1`.
pub const P: u64 = 18446744069414584321;

/// The quadratic non-residue `w` that defines the extension `F[x] / (x^2 - w)`.
pub const W: u64 = 7;

pub closed spec fn fp_add(a: u64, b: u64) -> u64 {
    ((a as int + b as int) % (P as int)) as u64
}

pub closed spec fn fp_sub(a: u64, b: u64) -> u64 {
    ((a as int - b as int) % (P as int)) as u64
}

pub closed spec fn fp_mul(a: u64, b: u64) -> u64 {
    ((a as int * b as int) % (P as int)) as u64
}

/// An element `c0 + c1 * x` of the quadratic extension of the Goldilocks field.
#[derive(Clone, Copy, Debug, PartialEq, Eq, Structural)]
pub struct Ext {
    pub c0: u64,
    pub c1: u64,
}

pub closed spec fn ext_add(a: Ext, b: Ext) -> Ext {
    Ext { c0: fp_add(a.c0, b.c0), c1: fp_add(a.c1, b.c1) }
}

pub closed spec fn ext_sub(a: Ext, b: Ext) -> Ext {
    Ext { c0: fp_sub(a.c0, b.c0), c1: fp_sub(a.c1, b.c1) }
}

/// `(a0 + a1 x)(b0 + b1 x) = (a0 b0 + w a1 b1) + (a0 b1 + a1 b0) x`.
pub closed spec fn ext_mul(a: Ext, b: Ext) -> Ext {
    Ext {
        c0: fp_add(fp_mul(a.c0, b.c0), fp_mul(W, fp_mul(a.c1, b.c1))),
        c1: fp_add(fp_mul(a.c0, b.c1), fp_mul(a.c1, b.c0)),
    }
}

pub open spec fn ext_zero() -> Ext {
    Ext { c0: 0, c1: 0 }
}

pub open spec fn ext_one() -> Ext {
    Ext { c0: 1, c1: 0 }
}

pub open spec fn ext_of(v: u64) -> Ext {
    Ext { c0: (v as int % (P as int)) as u64, c1: 0 }
}

fn base_add(a: u64, b: u64) -> (r: u64)
    ensures
        r == fp_add(a, b),
{
    let s: u128 = a as u128 + b as u128;
    (s % (P as u128)) as u64
}

fn base_sub(a: u64, b: u64) -> (r: u64)
    ensures
        r == fp_sub(a, b),
{
    let x = a % P;
    let y = b % P;
    proof {
        lemma_sub_mod_noop(a as int, b as int, P as int);
    }
    if x >= y {
        proof {
            lemma_small_mod((x - y) as nat, P as nat);
        }
        x - y
    } else {
        proof {
            lemma_mod_add_multiples_vanish(x - y, P as int);
            lemma_small_mod((x - y + P) as nat, P as nat);
        }
        x + (P - y)
    }
}

fn base_mul(a: u64, b: u64) -> (r: u64)
    ensures
        r == fp_mul(a, b),
{
    proof {
        assert(a as int * b as int <= 0xffff_ffff_ffff_ffffint * 0xffff_ffff_ffff_ffffint)
            by (nonlinear_arith)
            requires
                a <= 0xffff_ffff_ffff_ffffu64,
                b <= 0xffff_ffff_ffff_ffffu64,
        ;
    }
    let m: u128 = a as u128 * b as u128;
    (m % (P as u128)) as u64
}

impl Ext {
    /// Both coordinates are reduced below `P`.
    pub open spec fn wf(self) -> bool {
        self.c0 < P && self.c1 < P
    }

    pub fn zero() -> (r: Ext)
        ensures
            r == ext_zero(),
    {
        Ext { c0: 0, c1: 0 }
    }

    pub fn one() -> (r: Ext)
        ensures
            r == ext_one(),
    {
        Ext { c0: 1, c1: 0 }
    }

    /// The base-field element `v mod P`, embedded in the extension.
    pub fn from_u64(v: u64) -> (r: Ext)
        ensures
            r == ext_of(v),
            r.wf(),
    {
        Ext { c0: v % P, c1: 0 }
    }

    pub fn add(self, o: Ext) -> (r: Ext)
        ensures
            r == ext_add(self, o),
            r.wf(),
    {
        Ext { c0: base_add(self.c0, o.c0), c1: base_add(self.c1, o.c1) }
    }

    pub fn sub(self, o: Ext) -> (r: Ext)
        ensures
            r == ext_sub(self, o),
            r.wf(),
    {
        Ext { c0: base_sub(self.c0, o.c0), c1: base_sub(self.c1, o.c1) }
    }

    pub fn mul(self, o: Ext) -> (r: Ext)
        ensures
            r == ext_mul(self, o),
            r.wf(),
    {
        let c0 = base_add(base_mul(self.c0, o.c0), base_mul(W, base_mul(self.c1, o.c1)));
        let c1 = base_add(base_mul(self.c0, o.c1), base_mul(self.c1, o.c0));
        Ext { c0, c1 }
    }
}

/// `fp_add` and `fp_mul` agree with integer `+` and `*` taken mod `P`, on any integers
/// congruent to their arguments.
proof fn lemma_fp_lift(x: u64, y: u64, xi: int, yi: int)
    requires
        x as int % P as int == xi % P as int,
        y as int % P as int == yi % P as int,
    ensures
        fp_add(x, y) as int == (xi + yi) % P as int,
        fp_mul(x, y) as int == (xi * yi) % P as int,
{
    let p = P as int;
    lemma_add_mod_noop(x as int, y as int, p);
    lemma_add_mod_noop(xi, yi, p);
    lemma_mul_mod_noop(x as int, y as int, p);
    lemma_mul_mod_noop(xi, yi, p);
}

proof fn lemma_fp_canonical(x: int)
    ensures
        (x % P as int) % P as int == x % P as int,
        0 <= x % (P as int) < (P as int),
{
    vstd::arithmetic::div_mod::lemma_mod_twice(x, P as int);
    vstd::arithmetic::div_mod::lemma_mod_bound(x, P as int);
}

/// The components of `ext_mul(a, b)`, as integers mod `P`.
proof fn lemma_ext_mul_lift(a: Ext, b: Ext, a0: int, a1: int, b0: int, b1: int)
    requires
        a.c0 as int % P as int == a0 % P as int,
        a.c1 as int % P as int == a1 % P as int,
        b.c0 as int % P as int == b0 % P as int,
        b.c1 as int % P as int == b1 % P as int,
    ensures
        ext_mul(a, b).c0 as int == (a0 * b0 + 7 * (a1 * b1)) % P as int,
        ext_mul(a, b).c1 as int == (a0 * b1 + a1 * b0) % P as int,
{
    let p = P as int;
    lemma_fp_lift(a.c0, b.c0, a0, b0);
    lemma_fp_lift(a.c1, b.c1, a1, b1);
    lemma_fp_lift(a.c0, b.c1, a0, b1);
    lemma_fp_lift(a.c1, b.c0, a1, b0);
    let m00 = fp_mul(a.c0, b.c0);
    let m11 = fp_mul(a.c1, b.c1);
    lemma_fp_canonical(a1 * b1);
    lemma_fp_canonical(a0 * b0);
    lemma_fp_canonical(a0 * b1);
    lemma_fp_canonical(a1 * b0);
    lemma_fp_canonical(7);
    lemma_fp_lift(W, m11, 7, a1 * b1);
    let w11 = fp_mul(W, m11);
    lemma_fp_canonical(7 * (a1 * b1));
    lemma_fp_lift(m00, w11, a0 * b0, 7 * (a1 * b1));
    lemma_fp_lift(fp_mul(a.c0, b.c1), fp_mul(a.c1, b.c0), a0 * b1, a1 * b0);
}

proof fn lemma_ext_add_lift(a: Ext, b: Ext, a0: int, a1: int, b0: int, b1: int)
    requires
        a.c0 as int % P as int == a0 % P as int,
        a.c1 as int % P as int == a1 % P as int,
        b.c0 as int % P as int == b0 % P as int,
        b.c1 as int % P as int == b1 % P as int,
    ensures
        ext_add(a, b).c0 as int == (a0 + b0) % P as int,
        ext_add(a, b).c1 as int == (a1 + b1) % P as int,
{
    lemma_fp_lift(a.c0, b.c0, a0, b0);
    lemma_fp_lift(a.c1, b.c1, a1, b1);
}

pub proof fn lemma_ext_add_comm(a: Ext, b: Ext)
    ensures
        ext_add(a, b) == ext_add(b, a),
{
}

pub proof fn lemma_ext_mul_comm(a: Ext, b: Ext)
    ensures
        ext_mul(a, b) == ext_mul(b, a),
{
    assert(a.c0 as int * b.c0 as int == b.c0 as int * a.c0 as int) by (nonlinear_arith);
    assert(a.c1 as int * b.c1 as int == b.c1 as int * a.c1 as int) by (nonlinear_arith);
    assert(a.c0 as int * b.c1 as int == b.c1 as int * a.c0 as int) by (nonlinear_arith);
    assert(a.c1 as int * b.c0 as int == b.c0 as int * a.c1 as int) by (nonlinear_arith);
    assert(fp_add(fp_mul(a.c0, b.c1), fp_mul(a.c1, b.c0)) == fp_add(fp_mul(b.c1, a.c0), fp_mul(b.c0, a.c1)));
    assert(fp_add(fp_mul(b.c0, a.c1), fp_mul(b.c1, a.c0)) == fp_add(fp_mul(b.c1, a.c0), fp_mul(b.c0, a.c1)));
}

pub proof fn lemma_ext_add_assoc(a: Ext, b: Ext, c: Ext)
    ensures
        ext_add(ext_add(a, b), c) == ext_add(a, ext_add(b, c)),
{
    let (a0, a1, b0, b1, c0, c1) = (a.c0 as int, a.c1 as int, b.c0 as int, b.c1 as int, c.c0 as int, c.c1 as int);
    let ab = ext_add(a, b);
    let bc = ext_add(b, c);
    lemma_ext_add_lift(a, b, a0, a1, b0, b1);
    lemma_ext_add_lift(b, c, b0, b1, c0, c1);
    lemma_fp_canonical(a0 + b0);
    lemma_fp_canonical(a1 + b1);
    lemma_fp_canonical(b0 + c0);
    lemma_fp_canonical(b1 + c1);
    lemma_ext_add_lift(ab, c, a0 + b0, a1 + b1, c0, c1);
    lemma_ext_add_lift(a, bc, a0, a1, b0 + c0, b1 + c1);
    assert(a0 + b0 + c0 == a0 + (b0 + c0));
    assert(a1 + b1 + c1 == a1 + (b1 + c1));
}

pub proof fn lemma_ext_mul_assoc(a: Ext, b: Ext, c: Ext)
    ensures
        ext_mul(ext_mul(a, b), c) == ext_mul(a, ext_mul(b, c)),
{
    let (a0, a1, b0, b1, c0, c1) = (a.c0 as int, a.c1 as int, b.c0 as int, b.c1 as int, c.c0 as int, c.c1 as int);
    let ab = ext_mul(a, b);
    let bc = ext_mul(b, c);
    let ab0 = a0 * b0 + 7 * (a1 * b1);
    let ab1 = a0 * b1 + a1 * b0;
    let bc0 = b0 * c0 + 7 * (b1 * c1);
    let bc1 = b0 * c1 + b1 * c0;
    lemma_ext_mul_lift(a, b, a0, a1, b0, b1);
    lemma_ext_mul_lift(b, c, b0, b1, c0, c1);
    lemma_fp_canonical(ab0);
    lemma_fp_canonical(ab1);
    lemma_fp_canonical(bc0);
    lemma_fp_canonical(bc1);
    lemma_ext_mul_lift(ab, c, ab0, ab1, c0, c1);
    lemma_ext_mul_lift(a, bc, a0, a1, bc0, bc1);
    assert(ab0 * c0 == a0 * b0 * c0 + 7 * (a1 * b1 * c0)) by (nonlinear_arith)
        requires
            ab0 == a0 * b0 + 7 * (a1 * b1),
    ;
    assert(ab1 * c1 == a0 * b1 * c1 + a1 * b0 * c1) by (nonlinear_arith)
        requires
            ab1 == a0 * b1 + a1 * b0,
    ;
    assert(a0 * bc0 == a0 * b0 * c0 + 7 * (a0 * b1 * c1)) by (nonlinear_arith)
        requires
            bc0 == b0 * c0 + 7 * (b1 * c1),
    ;
    assert(a1 * bc1 == a1 * b0 * c1 + a1 * b1 * c0) by (nonlinear_arith)
        requires
            bc1 == b0 * c1 + b1 * c0,
    ;
    assert(ab0 * c1 == a0 * b0 * c1 + 7 * (a1 * b1 * c1)) by (nonlinear_arith)
        requires
            ab0 == a0 * b0 + 7 * (a1 * b1),
    ;
    assert(ab1 * c0 == a0 * b1 * c0 + a1 * b0 * c0) by (nonlinear_arith)
        requires
            ab1 == a0 * b1 + a1 * b0,
    ;
    assert(a0 * bc1 == a0 * b0 * c1 + a0 * b1 * c0) by (nonlinear_arith)
        requires
            bc1 == b0 * c1 + b1 * c0,
    ;
    assert(a1 * bc0 == a1 * b0 * c0 + 7 * (a1 * b1 * c1)) by (nonlinear_arith)
        requires
            bc0 == b0 * c0 + 7 * (b1 * c1),
    ;
    assert(ab0 * c0 + 7 * (ab1 * c1) == a0 * bc0 + 7 * (a1 * bc1));
    assert(ab0 * c1 + ab1 * c0 == a0 * bc1 + a1 * bc0);
}

pub proof fn lemma_ext_distrib(a: Ext, b: Ext, c: Ext)
    ensures
        ext_mul(a, ext_add(b, c)) == ext_add(ext_mul(a, b), ext_mul(a, c)),
{
    let (a0, a1, b0, b1, c0, c1) = (a.c0 as int, a.c1 as int, b.c0 as int, b.c1 as int, c.c0 as int, c.c1 as int);
    let bc = ext_add(b, c);
    lemma_ext_add_lift(b, c, b0, b1, c0, c1);
    lemma_fp_canonical(b0 + c0);
    lemma_fp_canonical(b1 + c1);
    lemma_ext_mul_lift(a, bc, a0, a1, b0 + c0, b1 + c1);
    let ab = ext_mul(a, b);
    let ac = ext_mul(a, c);
    lemma_ext_mul_lift(a, b, a0, a1, b0, b1);
    lemma_ext_mul_lift(a, c, a0, a1, c0, c1);
    let ab0 = a0 * b0 + 7 * (a1 * b1);
    let ab1 = a0 * b1 + a1 * b0;
    let ac0 = a0 * c0 + 7 * (a1 * c1);
    let ac1 = a0 * c1 + a1 * c0;
    lemma_fp_canonical(ab0);
    lemma_fp_canonical(ab1);
    lemma_fp_canonical(ac0);
    lemma_fp_canonical(ac1);
    lemma_ext_add_lift(ab, ac, ab0, ab1, ac0, ac1);
    assert(a0 * (b0 + c0) + 7 * (a1 * (b1 + c1)) == ab0 + ac0) by (nonlinear_arith)
        requires
            ab0 == a0 * b0 + 7 * (a1 * b1),
            ac0 == a0 * c0 + 7 * (a1 * c1),
    ;
    assert(a0 * (b1 + c1) + a1 * (b0 + c0) == ab1 + ac1) by (nonlinear_arith)
        requires
            ab1 == a0 * b1 + a1 * b0,
            ac1 == a0 * c1 + a1 * c0,
    ;
}

} // verus!
